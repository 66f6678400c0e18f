//! Incremental detokenization over a real tokenizer.
//!
//! Tokens and text are not 1:1: one character may span several tokens, so a
//! freshly decoded window may end in an incomplete character, which the
//! decoder renders as the Unicode replacement character. A
//! [`TokenOutputStream`] feeds tokens into the tokenizer's decoder and only
//! confirms the text that can no longer change; [`split_new_text`] is the
//! decision rule and is verified exactly.

use tokenizers::Tokenizer;
use vstd::prelude::*;

use crate::error::GenerationError;
use crate::stop::opt_str_view;

verus! {

/// Relies on the tokenizers crate's Tokenizer type: declared here so that
/// tokenizer handles can cross the library's signatures; its value stays
/// opaque to verification.
#[verifier::external_type_specification]
#[verifier::external_body]
pub struct ExTokenizer(Tokenizer);

/// Relies on Tokenizer::from_bytes: it parses a serialized tokenizer
/// definition from bytes.
#[verifier::external_body]
fn raw_tokenizer_from_bytes(bytes: &[u8]) -> (r: Result<Tokenizer, String>) {
    Tokenizer::from_bytes(bytes).map_err(|e| e.to_string())
}

/// Relies on Tokenizer::encode: it turns text into the token ids of this
/// tokenizer's vocabulary.
#[verifier::external_body]
fn raw_encode(tokenizer: &Tokenizer, text: &str) -> (r: Result<Vec<u32>, String>) {
    match tokenizer.encode(text, false) {
        Ok(encoding) => Ok(encoding.get_ids().to_vec()),
        Err(e) => Err(e.to_string()),
    }
}

/// Relies on Tokenizer::decode: it turns token ids back into text, mapping
/// incomplete trailing characters to the Unicode replacement character.
#[verifier::external_body]
fn raw_decode(tokenizer: &Tokenizer, tokens: &[u32]) -> (r: Result<String, String>) {
    tokenizer.decode(tokens, true).map_err(|e| e.to_string())
}

/// Relies on Tokenizer::token_to_id: it looks a token's text up in the
/// vocabulary.
#[verifier::external_body]
fn raw_token_to_id(tokenizer: &Tokenizer, token: &str) -> (r: Option<u32>) {
    tokenizer.token_to_id(token)
}

/// Parse a tokenizer definition from bytes.
pub fn tokenizer_from_bytes(bytes: &[u8]) -> (r: Result<Tokenizer, GenerationError>)
    ensures
        r matches Err(e) ==> e is EncodingError,
{
    match raw_tokenizer_from_bytes(bytes) {
        Ok(t) => Ok(t),
        Err(msg) => Err(GenerationError::EncodingError(msg)),
    }
}

/// Encode a prompt into token ids; an impossible encoding fails the request
/// with [`GenerationError::EncodingError`].
pub fn encode_prompt(tokenizer: &Tokenizer, prompt: &str) -> (r: Result<Vec<u32>, GenerationError>)
    ensures
        r matches Err(e) ==> e is EncodingError,
{
    match raw_encode(tokenizer, prompt) {
        Ok(ids) => Ok(ids),
        Err(msg) => Err(GenerationError::EncodingError(msg)),
    }
}

/// Look up the id of the model's designated stop token: the first of the
/// given spellings that the vocabulary knows.
pub fn find_stop_token(tokenizer: &Tokenizer, spellings: &Vec<String>) -> (r: Option<u32>) {
    let n = spellings.len();
    let mut i: usize = 0;
    while i < n
        invariant
            n == spellings@.len(),
            i <= n,
        decreases n - i,
    {
        if let Option::Some(id) = raw_token_to_id(tokenizer, spellings[i].as_str()) {
            return Option::Some(id);
        }
        i += 1;
    }
    Option::None
}

/// The scalar value of the Unicode replacement character, with which the
/// decoder renders an incomplete trailing character.
pub const REPLACEMENT_SCALAR: u32 = 0xFFFD;

/// The text confirmed by one freshly decoded window: everything past the
/// already-confirmed prefix, unless the window ends in an incomplete
/// character or has not grown.
pub open spec fn new_text_spec(full: Seq<char>, confirmed: int) -> Option<Seq<char>> {
    if confirmed < full.len() && full.last() as u32 != REPLACEMENT_SCALAR {
        Option::Some(full.skip(confirmed))
    } else {
        Option::None
    }
}

/// Split the freshly decoded window into confirmed text: exactly
/// [`new_text_spec`].
pub fn split_new_text(full: &str, confirmed: usize) -> (r: Option<String>)
    ensures
        opt_str_view(r) == new_text_spec(full@, confirmed as int),
{
    let len = full.unicode_len();
    if confirmed >= len {
        return Option::None;
    }
    let last = full.get_char(len - 1);
    if last as u32 == REPLACEMENT_SCALAR {
        return Option::None;
    }
    let tail = full.substring_char(confirmed, len);
    proof {
        assert(tail@ =~= full@.skip(confirmed as int));
    }
    Option::Some(tail.to_owned())
}

/// The bookkeeping of incremental detokenization: the token window fed so
/// far and how many characters of its decoding are already confirmed.
pub struct TokenOutputStream {
    tokens: Vec<u32>,
    confirmed_chars: usize,
}

/// The mathematical state of a token output stream.
#[verifier::ext_equal]
pub ghost struct TokenStreamModel {
    /// The tokens fed so far.
    pub tokens: Seq<u32>,
    /// How many characters of the window's decoding are confirmed.
    pub confirmed_chars: int,
}

impl View for TokenOutputStream {
    type V = TokenStreamModel;

    closed spec fn view(&self) -> TokenStreamModel {
        TokenStreamModel { tokens: self.tokens@, confirmed_chars: self.confirmed_chars as int }
    }
}

impl TokenOutputStream {
    /// An empty stream: nothing fed, nothing confirmed.
    pub fn new() -> (s: TokenOutputStream)
        ensures
            s@.tokens.len() == 0,
            s@.confirmed_chars == 0,
    {
        TokenOutputStream { tokens: Vec::new(), confirmed_chars: 0 }
    }

    /// Feed one token and return the text it confirms, if any: the window
    /// is re-decoded, and everything past the confirmed prefix is confirmed
    /// now unless the window still ends in an incomplete character. What the
    /// decoder returns depends on the tokenizer; the split itself follows
    /// [`new_text_spec`] exactly.
    pub fn next_token(&mut self, tokenizer: &Tokenizer, token: u32) -> (r: Result<
        Option<String>,
        GenerationError,
    >)
        ensures
            final(self)@.tokens == old(self)@.tokens.push(token),
            r matches Err(e) ==> e is EncodingError,
            // Confirmed text never shrinks, and what is confirmed now is
            // exactly the emitted text's length further along the window.
            r matches Ok(Option::Some(chunk)) ==> final(self)@.confirmed_chars == old(
                self,
            )@.confirmed_chars + chunk@.len(),
            r matches Ok(t) && t is None ==> final(self)@.confirmed_chars == old(
                self,
            )@.confirmed_chars,
    {
        self.tokens.push(token);
        let full = match raw_decode(tokenizer, self.tokens.as_slice()) {
            Ok(full) => full,
            Err(msg) => {
                return Err(GenerationError::EncodingError(msg));
            },
        };
        let full_len = full.as_str().unicode_len();
        match split_new_text(full.as_str(), self.confirmed_chars) {
            Option::Some(t) => {
                self.confirmed_chars = full_len;
                Ok(Option::Some(t))
            },
            Option::None => Ok(Option::None),
        }
    }

    /// Feed one prompt token for bookkeeping only: later windows decode with
    /// the prompt's trailing context, and nothing already seen is confirmed
    /// as fresh output.
    pub fn feed_prompt_token(&mut self, tokenizer: &Tokenizer, token: u32) -> (r: Result<
        (),
        GenerationError,
    >)
        ensures
            final(self)@.tokens == old(self)@.tokens.push(token),
            r matches Err(e) ==> e is EncodingError,
    {
        match self.next_token(tokenizer, token) {
            Ok(_) => Ok(()),
            Err(e) => Err(e),
        }
    }

    /// The tokens fed so far.
    pub fn tokens(&self) -> (r: &[u32])
        ensures
            r@ == self@.tokens,
    {
        self.tokens.as_slice()
    }
}

} // verus!
