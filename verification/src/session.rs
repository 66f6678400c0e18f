//! The engine's own session type and its versioned byte format.
//!
//! A serialized session is a magic-tagged, versioned little-endian buffer
//! holding a sequence of 32-bit words; a [`LlamaSession`] stores its token
//! history that way. Deserialization accepts exactly the buffers that
//! serialization produces and rejects anything else as
//! [`GenerationError::CorruptSession`].

use vstd::bytes::{
    lemma_auto_spec_u32_to_from_le_bytes, lemma_auto_spec_u64_to_from_le_bytes,
    spec_u32_to_le_bytes, spec_u64_to_le_bytes, u32_from_le_bytes, u32_to_le_bytes,
    u64_from_le_bytes, u64_to_le_bytes,
};
use vstd::prelude::*;
use vstd::slice::{slice_index_get, slice_subrange};

use crate::error::GenerationError;
use crate::model::Session;

verus! {

/// First magic byte of a serialized session.
pub const SESSION_MAGIC_0: u8 = 0x4b;

/// Second magic byte of a serialized session.
pub const SESSION_MAGIC_1: u8 = 0x53;

/// Format tag of a serialized token history.
pub const SESSION_FORMAT_VERSION: u8 = 1;

/// Bytes taken by magic, format tag and word count.
pub const SESSION_HEADER_LEN: usize = 11;

/// The word payload of the byte format: each word as four little-endian
/// bytes, in order.
pub open spec fn encode_word_bytes(words: Seq<u32>) -> Seq<u8>
    decreases words.len(),
{
    if words.len() == 0 {
        Seq::empty()
    } else {
        spec_u32_to_le_bytes(words[0]) + encode_word_bytes(words.drop_first())
    }
}

/// The full byte format: magic, format tag, word count as eight
/// little-endian bytes, then the word payload.
pub open spec fn encode_words(kind: u8, words: Seq<u32>) -> Seq<u8> {
    seq![SESSION_MAGIC_0, SESSION_MAGIC_1, kind] + spec_u64_to_le_bytes(words.len() as u64)
        + encode_word_bytes(words)
}

/// The byte format of a token history.
pub open spec fn encode_session(tokens: Seq<u32>) -> Seq<u8> {
    encode_words(SESSION_FORMAT_VERSION, tokens)
}

/// The word payload is four bytes per word.
pub proof fn lemma_encode_word_bytes_len(words: Seq<u32>)
    ensures
        encode_word_bytes(words).len() == 4 * words.len(),
    decreases words.len(),
{
    lemma_auto_spec_u32_to_from_le_bytes();
    if words.len() > 0 {
        lemma_encode_word_bytes_len(words.drop_first());
    }
}

/// Appending one word appends its four bytes.
pub proof fn lemma_encode_word_bytes_push(words: Seq<u32>, x: u32)
    ensures
        encode_word_bytes(words.push(x)) == encode_word_bytes(words) + spec_u32_to_le_bytes(x),
    decreases words.len(),
{
    let s = words.push(x);
    if words.len() == 0 {
        assert(s[0] == x);
        assert(s.drop_first() =~= Seq::<u32>::empty());
        assert(encode_word_bytes(s.drop_first()) == Seq::<u8>::empty());
        assert(encode_word_bytes(s) == spec_u32_to_le_bytes(x) + encode_word_bytes(
            s.drop_first(),
        ));
        assert(encode_word_bytes(s) =~= encode_word_bytes(words) + spec_u32_to_le_bytes(x));
    } else {
        assert(s.drop_first() =~= words.drop_first().push(x));
        lemma_encode_word_bytes_push(words.drop_first(), x);
        assert(s[0] == words[0]);
        assert(encode_word_bytes(s) == spec_u32_to_le_bytes(words[0]) + encode_word_bytes(
            words.drop_first().push(x),
        ));
        assert(encode_word_bytes(s) =~= encode_word_bytes(words) + spec_u32_to_le_bytes(x));
    }
}

/// A byte sequence made of the right four-byte groups is the word payload.
pub proof fn lemma_word_bytes_from_groups(words: Seq<u32>, data: Seq<u8>)
    requires
        data.len() == 4 * words.len(),
        forall|j: int|
            0 <= j < words.len() ==> #[trigger] data.subrange(4 * j, 4 * j + 4)
                == spec_u32_to_le_bytes(words[j]),
    ensures
        data == encode_word_bytes(words),
    decreases words.len(),
{
    lemma_auto_spec_u32_to_from_le_bytes();
    if words.len() == 0 {
        assert(data =~= encode_word_bytes(words));
    } else {
        let rest = data.skip(4);
        assert forall|j: int| 0 <= j < words.drop_first().len() implies #[trigger] rest.subrange(
            4 * j,
            4 * j + 4,
        ) == spec_u32_to_le_bytes(words.drop_first()[j]) by {
            assert(rest.subrange(4 * j, 4 * j + 4) =~= data.subrange(4 * (j + 1), 4 * (j + 1) + 4));
        }
        lemma_word_bytes_from_groups(words.drop_first(), rest);
        let j0: int = 0;
        assert(data.subrange(4 * j0, 4 * j0 + 4) == spec_u32_to_le_bytes(words[j0]));
        assert(data.subrange(0, 4) =~= data.subrange(4 * j0, 4 * j0 + 4));
        assert(data =~= spec_u32_to_le_bytes(words[0]) + rest);
    }
}

/// Serialization is injective: equal buffers come from equal word sequences.
pub proof fn lemma_encode_words_injective(kind: u8, a: Seq<u32>, b: Seq<u32>)
    requires
        encode_words(kind, a) == encode_words(kind, b),
    ensures
        a == b,
{
    lemma_auto_spec_u32_to_from_le_bytes();
    lemma_auto_spec_u64_to_from_le_bytes();
    lemma_encode_word_bytes_len(a);
    lemma_encode_word_bytes_len(b);
    assert(encode_words(kind, a).len() == 11 + 4 * a.len());
    assert(encode_words(kind, b).len() == 11 + 4 * b.len());
    assert(a.len() == b.len());
    let pa = encode_word_bytes(a);
    let pb = encode_word_bytes(b);
    assert(pa =~= encode_words(kind, a).skip(11));
    assert(pb =~= encode_words(kind, b).skip(11));
    lemma_word_bytes_pointwise(a);
    lemma_word_bytes_pointwise(b);
    assert forall|j: int| 0 <= j < a.len() implies a[j] == b[j] by {
        assert(pa.subrange(4 * j, 4 * j + 4) == spec_u32_to_le_bytes(a[j]));
        assert(pb.subrange(4 * j, 4 * j + 4) == spec_u32_to_le_bytes(b[j]));
        assert(spec_u32_to_le_bytes(a[j]) == spec_u32_to_le_bytes(b[j]));
    }
    assert(a =~= b);
}

/// Each word's four bytes sit at their own offset in the payload.
proof fn lemma_word_bytes_pointwise(words: Seq<u32>)
    ensures
        forall|j: int|
            0 <= j < words.len() ==> #[trigger] encode_word_bytes(words).subrange(4 * j, 4 * j + 4)
                == spec_u32_to_le_bytes(words[j]),
    decreases words.len(),
{
    lemma_auto_spec_u32_to_from_le_bytes();
    if words.len() > 0 {
        lemma_encode_word_bytes_len(words.drop_first());
        lemma_word_bytes_pointwise(words.drop_first());
        assert forall|j: int| 0 <= j < words.len() implies #[trigger] encode_word_bytes(
            words,
        ).subrange(4 * j, 4 * j + 4) == spec_u32_to_le_bytes(words[j]) by {
            if j == 0 {
                assert(encode_word_bytes(words).subrange(0, 4) =~= spec_u32_to_le_bytes(words[0]));
            } else {
                assert(encode_word_bytes(words.drop_first()).subrange(4 * (j - 1), 4 * (j - 1) + 4)
                    == spec_u32_to_le_bytes(words.drop_first()[j - 1]));
                assert(encode_word_bytes(words).subrange(4 * j, 4 * j + 4) =~= encode_word_bytes(
                    words.drop_first(),
                ).subrange(4 * (j - 1), 4 * (j - 1) + 4));
            }
        }
    }
}

/// A session and its byte image round-trip: a buffer is the encoding of at
/// most one token history.
pub proof fn lemma_session_round_trip(written: Seq<u32>, read: Seq<u32>)
    requires
        encode_session(written) == encode_session(read),
    ensures
        written == read,
{
    lemma_encode_words_injective(SESSION_FORMAT_VERSION, written, read);
}

/// Append the byte format for this word sequence to the buffer.
pub fn write_words(kind: u8, words: &Vec<u32>, into: &mut Vec<u8>)
    ensures
        final(into)@ == old(into)@ + encode_words(kind, words@),
{
    into.push(SESSION_MAGIC_0);
    into.push(SESSION_MAGIC_1);
    into.push(kind);
    let mut count_bytes = u64_to_le_bytes(words.len() as u64);
    into.append(&mut count_bytes);
    let ghost header = old(into)@ + seq![SESSION_MAGIC_0, SESSION_MAGIC_1, kind]
        + spec_u64_to_le_bytes(words@.len() as u64);
    proof {
        assert(into@ =~= header);
    }
    let n = words.len();
    let mut i: usize = 0;
    while i < n
        invariant
            n == words@.len(),
            i <= n,
            into@ == header + encode_word_bytes(words@.take(i as int)),
        decreases n - i,
    {
        let mut tb = u32_to_le_bytes(words[i]);
        into.append(&mut tb);
        proof {
            lemma_encode_word_bytes_push(words@.take(i as int), words@[i as int]);
            assert(words@.take(i + 1 as int) =~= words@.take(i as int).push(words@[i as int]));
        }
        i += 1;
    }
    proof {
        assert(words@.take(n as int) =~= words@);
        assert(into@ =~= old(into)@ + encode_words(kind, words@));
    }
}

/// Read back the word sequence of a buffer in the byte format with this
/// tag: exactly the buffers that [`write_words`] produces are accepted.
pub fn read_words(kind: u8, bytes: &[u8]) -> (r: Result<Vec<u32>, GenerationError>)
    ensures
        match r {
            Ok(words) => bytes@ == encode_words(kind, words@),
            Err(e) => {
                &&& e == GenerationError::CorruptSession
                &&& forall|ws: Seq<u32>| bytes@ != #[trigger] encode_words(kind, ws)
            },
        },
{
    proof {
        lemma_auto_spec_u32_to_from_le_bytes();
        lemma_auto_spec_u64_to_from_le_bytes();
    }
    let len = bytes.len();
    if len < SESSION_HEADER_LEN {
        proof {
            assert forall|ws: Seq<u32>| bytes@ != #[trigger] encode_words(kind, ws) by {
                lemma_encode_word_bytes_len(ws);
            }
        }
        return Err(GenerationError::CorruptSession);
    }
    let m0 = *slice_index_get(bytes, 0);
    let m1 = *slice_index_get(bytes, 1);
    let tag = *slice_index_get(bytes, 2);
    if m0 != SESSION_MAGIC_0 || m1 != SESSION_MAGIC_1 || tag != kind {
        proof {
            assert forall|ws: Seq<u32>| bytes@ != #[trigger] encode_words(kind, ws) by {
                assert(encode_words(kind, ws)[0] == SESSION_MAGIC_0);
                assert(encode_words(kind, ws)[1] == SESSION_MAGIC_1);
                assert(encode_words(kind, ws)[2] == kind);
            }
        }
        return Err(GenerationError::CorruptSession);
    }
    let count_slice = slice_subrange(bytes, 3, SESSION_HEADER_LEN);
    let count = u64_from_le_bytes(count_slice);
    let payload_len = len - SESSION_HEADER_LEN;
    if payload_len % 4 != 0 || count != (payload_len / 4) as u64 {
        proof {
            assert forall|ws: Seq<u32>| bytes@ != #[trigger] encode_words(kind, ws) by {
                if bytes@ == encode_words(kind, ws) {
                    lemma_encode_word_bytes_len(ws);
                    assert(bytes@.subrange(3, 11) =~= spec_u64_to_le_bytes(ws.len() as u64));
                    assert(count == ws.len() as u64);
                    assert(payload_len == 4 * ws.len());
                }
            }
        }
        return Err(GenerationError::CorruptSession);
    }
    let n = payload_len / 4;
    let mut words: Vec<u32> = Vec::new();
    let mut i: usize = 0;
    while i < n
        invariant
            bytes@.len() == 11 + 4 * n,
            bytes@.len() <= usize::MAX,
            i <= n,
            words@.len() == i,
            forall|j: int|
                0 <= j < i ==> #[trigger] spec_u32_to_le_bytes(words@[j]) == bytes@.subrange(
                    11 + 4 * j,
                    11 + 4 * j + 4,
                ),
        decreases n - i,
    {
        let word_slice = slice_subrange(
            bytes,
            SESSION_HEADER_LEN + 4 * i,
            SESSION_HEADER_LEN + 4 * i + 4,
        );
        let word = u32_from_le_bytes(word_slice);
        proof {
            lemma_auto_spec_u32_to_from_le_bytes();
            assert(spec_u32_to_le_bytes(word) == word_slice@);
        }
        words.push(word);
        i += 1;
    }
    proof {
        let data = bytes@.skip(11);
        assert forall|j: int| 0 <= j < words@.len() implies #[trigger] data.subrange(
            4 * j,
            4 * j + 4,
        ) == spec_u32_to_le_bytes(words@[j]) by {
            assert(data.subrange(4 * j, 4 * j + 4) =~= bytes@.subrange(11 + 4 * j, 11 + 4 * j + 4));
        }
        lemma_word_bytes_from_groups(words@, data);
        assert(bytes@.subrange(3, 11) =~= spec_u64_to_le_bytes(words@.len() as u64));
        assert(bytes@ =~= encode_words(kind, words@));
    }
    Ok(words)
}

/// The engine's session: the token history of one conversation. Its view is
/// that history.
#[derive(Debug)]
pub struct LlamaSession {
    tokens: Vec<u32>,
}

impl View for LlamaSession {
    type V = Seq<u32>;

    closed spec fn view(&self) -> Seq<u32> {
        self.tokens@
    }
}

impl LlamaSession {
    /// An empty session: no token history.
    pub fn new() -> (s: LlamaSession)
        ensures
            s@.len() == 0,
    {
        LlamaSession { tokens: Vec::new() }
    }

    /// Record one more token in the history.
    pub fn push_token(&mut self, token: u32)
        ensures
            final(self)@ == old(self)@.push(token),
    {
        self.tokens.push(token);
    }
}

impl Session for LlamaSession {
    type Error = GenerationError;

    fn write_to(&self, into: &mut Vec<u8>) -> (r: Result<(), GenerationError>)
        ensures
            r is Ok,
            final(into)@ == old(into)@ + encode_session(self@),
    {
        write_words(SESSION_FORMAT_VERSION, &self.tokens, into);
        Ok(())
    }

    fn to_bytes(&self) -> (r: Result<Vec<u8>, GenerationError>)
        ensures
            r matches Ok(b) && b@ == encode_session(self@),
    {
        let mut bytes = Vec::new();
        write_words(SESSION_FORMAT_VERSION, &self.tokens, &mut bytes);
        Ok(bytes)
    }

    fn from_bytes(bytes: &[u8]) -> (r: Result<LlamaSession, GenerationError>)
        ensures
            match r {
                Ok(s) => bytes@ == encode_session(s@),
                Err(e) => {
                    &&& e == GenerationError::CorruptSession
                    &&& forall|toks: Seq<u32>| bytes@ != #[trigger] encode_session(toks)
                },
            },
    {
        match read_words(SESSION_FORMAT_VERSION, bytes) {
            Ok(tokens) => Ok(LlamaSession { tokens }),
            Err(e) => Err(e),
        }
    }

    fn tokens(&self) -> (r: &[u32])
        ensures
            r@ == self@,
    {
        self.tokens.as_slice()
    }

    fn try_clone(&self) -> (r: Result<LlamaSession, GenerationError>)
        ensures
            match r {
                Ok(c) => c@ == self@,
                Err(_) => false,
            },
    {
        Ok(LlamaSession { tokens: vstd::slice::slice_to_vec(self.tokens.as_slice()) })
    }
}

} // verus!
