//! The OpenAI-compatible remote chat backend: configuration, builder and the
//! per-event decisions of the streaming protocol.
//!
//! Network transport stays outside the library; everything here is the
//! decision logic: which model to address, how to resolve the API key, and
//! what each streamed response event means for the request.

use vstd::prelude::*;
use vstd::utf8::{char_is_scalar, char_u32_cast, is_scalar};

use crate::error::GenerationError;
use crate::model::ModelConstraints;
use crate::session::{encode_words, lemma_encode_words_injective, read_words, write_words};

verus! {

/// Format tag of a serialized chat session.
pub const CHAT_SESSION_FORMAT_VERSION: u8 = 2;

/// No API key was configured for the client.
#[derive(Debug, Clone, Copy, PartialEq, Eq)]
pub struct NoAPIKeyError;

/// Configuration for an OpenAI-compatible endpoint: the base URL and the
/// key, if any, that requests authenticate with.
#[derive(Debug)]
pub struct OpenAICompatibleClient {
    /// The endpoint's base URL.
    pub base_url: String,
    /// The API key, if one was configured.
    pub api_key: Option<String>,
}

impl OpenAICompatibleClient {
    /// A client for the standard endpoint, with no key configured yet.
    pub fn new() -> (c: OpenAICompatibleClient)
        ensures
            c.base_url@ == "https://api.openai.com/v1"@,
            c.api_key is None,
    {
        OpenAICompatibleClient {
            base_url: "https://api.openai.com/v1".to_owned(),
            api_key: Option::None,
        }
    }

    /// The same client addressing another base URL.
    pub fn with_base_url(self, base_url: &str) -> (c: OpenAICompatibleClient)
        ensures
            c.base_url@ == base_url@,
            c.api_key == self.api_key,
    {
        OpenAICompatibleClient { base_url: base_url.to_owned(), api_key: self.api_key }
    }

    /// The same client authenticating with the given key.
    pub fn with_api_key(self, api_key: &str) -> (c: OpenAICompatibleClient)
        ensures
            c.base_url@ == self.base_url@,
            c.api_key matches Option::Some(k) && k@ == api_key@,
    {
        OpenAICompatibleClient { base_url: self.base_url, api_key: Option::Some(
            api_key.to_owned(),
        ) }
    }

    /// The key requests must use: exactly the configured one, or an error
    /// when none was configured.
    pub fn resolve_api_key(&self) -> (r: Result<String, NoAPIKeyError>)
        ensures
            match r {
                Ok(k) => self.api_key matches Option::Some(c) && k@ == c@,
                Err(e) => self.api_key is None && e == NoAPIKeyError,
            },
    {
        match &self.api_key {
            Option::Some(k) => Ok(k.clone()),
            Option::None => Err(NoAPIKeyError),
        }
    }
}

impl Default for OpenAICompatibleClient {
    /// Same as [`OpenAICompatibleClient::new`].
    fn default() -> (c: OpenAICompatibleClient)
        ensures
            c.base_url@ == "https://api.openai.com/v1"@,
            c.api_key is None,
    {
        OpenAICompatibleClient::new()
    }
}


/// Who said one entry of a chat history.
#[derive(Debug, Clone, Copy, PartialEq, Eq, Structural)]
pub enum MessageType {
    /// The system prompt.
    SystemPrompt,
    /// A message from the user.
    UserMessage,
    /// An answer from the model.
    ModelAnswer,
}

/// One entry of a chat history.
#[derive(Debug)]
pub struct ChatHistoryItem {
    /// Who said it.
    pub role: MessageType,
    /// What was said.
    pub content: String,
}

impl ChatHistoryItem {
    /// A history entry.
    pub fn new(role: MessageType, content: &str) -> (m: ChatHistoryItem)
        ensures
            m.role == role,
            m.content@ == content@,
    {
        ChatHistoryItem { role, content: content.to_owned() }
    }
}

/// The word that stands for a role in the serialized form.
pub open spec fn role_tag(r: MessageType) -> u32 {
    match r {
        MessageType::SystemPrompt => 0,
        MessageType::UserMessage => 1,
        MessageType::ModelAnswer => 2,
    }
}

/// The role a word stands for, if any.
pub open spec fn decode_role(w: u32) -> Option<MessageType> {
    if w == 0 {
        Option::Some(MessageType::SystemPrompt)
    } else if w == 1 {
        Option::Some(MessageType::UserMessage)
    } else if w == 2 {
        Option::Some(MessageType::ModelAnswer)
    } else {
        Option::None
    }
}

/// The serialized form of one history entry: its role tag, its length as
/// two words (high half first), then one word per character.
pub open spec fn msg_words(role: MessageType, content: Seq<char>) -> Seq<u32> {
    seq![
        role_tag(role),
        ((content.len() as u64) >> 32) as u32,
        (content.len() as u64) as u32,
    ] + content.map_values(|c: char| c as u32)
}

/// The serialized form of a whole history: its entries, one after another.
pub open spec fn history_words(msgs: Seq<(MessageType, Seq<char>)>) -> Seq<u32>
    decreases msgs.len(),
{
    if msgs.len() == 0 {
        Seq::empty()
    } else {
        msg_words(msgs[0].0, msgs[0].1) + history_words(msgs.drop_first())
    }
}

/// The byte format of a chat session.
pub open spec fn encode_chat_session(msgs: Seq<(MessageType, Seq<char>)>) -> Seq<u8> {
    encode_words(CHAT_SESSION_FORMAT_VERSION, history_words(msgs))
}

/// Whether every message's content length fits the serialized length
/// field.
pub open spec fn bounded_history(msgs: Seq<(MessageType, Seq<char>)>) -> bool {
    forall|i: int| 0 <= i < msgs.len() ==> (#[trigger] msgs[i]).1.len() <= u64::MAX
}

/// Whether every word is a valid Unicode scalar value.
pub open spec fn all_scalars(ws: Seq<u32>) -> bool {
    forall|i: int| 0 <= i < ws.len() ==> is_scalar(#[trigger] ws[i])
}

/// The characters a word sequence stands for.
pub open spec fn words_to_chars(ws: Seq<u32>) -> Seq<char> {
    ws.map_values(|w: u32| w as char)
}

/// Parse a word sequence back into a history. Exactly the word sequences
/// that [`history_words`] produces parse successfully.
pub open spec fn decode_history(words: Seq<u32>) -> Option<Seq<(MessageType, Seq<char>)>>
    decreases words.len(),
{
    if words.len() == 0 {
        Option::Some(Seq::empty())
    } else if words.len() < 3 {
        Option::None
    } else {
        match decode_role(words[0]) {
            Option::None => Option::None,
            Option::Some(role) => {
                let clen = (words[1] as int) * 0x100000000 + (words[2] as int);
                if words.len() - 3 < clen {
                    Option::None
                } else if !all_scalars(words.subrange(3, 3 + clen)) {
                    Option::None
                } else {
                    match decode_history(words.skip(3 + clen)) {
                        Option::None => Option::None,
                        Option::Some(rest) => Option::Some(
                            seq![(role, words_to_chars(words.subrange(3, 3 + clen)))] + rest,
                        ),
                    }
                }
            },
        }
    }
}

/// Serializing a history one entry longer appends that entry's words.
pub proof fn lemma_history_words_push(msgs: Seq<(MessageType, Seq<char>)>, m: (MessageType, Seq<char>))
    ensures
        history_words(msgs.push(m)) == history_words(msgs) + msg_words(m.0, m.1),
    decreases msgs.len(),
{
    let s = msgs.push(m);
    if msgs.len() == 0 {
        assert(s[0] == m);
        assert(s.drop_first() =~= Seq::<(MessageType, Seq<char>)>::empty());
        assert(history_words(s.drop_first()) == Seq::<u32>::empty());
        assert(history_words(s) =~= history_words(msgs) + msg_words(m.0, m.1));
    } else {
        assert(s.drop_first() =~= msgs.drop_first().push(m));
        lemma_history_words_push(msgs.drop_first(), m);
        assert(s[0] == msgs[0]);
        assert(history_words(s) =~= history_words(msgs) + msg_words(m.0, m.1));
    }
}

/// The serialized form of a history parses back to exactly that history.
pub proof fn lemma_decode_history_of_encode(msgs: Seq<(MessageType, Seq<char>)>)
    requires
        bounded_history(msgs),
    ensures
        decode_history(history_words(msgs)) == Option::Some(msgs),
    decreases msgs.len(),
{
    if msgs.len() == 0 {
    } else {
        let m = msgs[0];
        let w = history_words(msgs);
        let mw = msg_words(m.0, m.1);
        let rest_w = history_words(msgs.drop_first());
        let clen = m.1.len() as int;
        assert(w == mw + rest_w);
        assert(mw.len() == 3 + clen);
        assert(w[0] == role_tag(m.0));
        assert(decode_role(role_tag(m.0)) == Option::Some(m.0));
        let l = m.1.len() as u64;
        let hi = (l >> 32) as u32;
        let lo = l as u32;
        assert((hi as u64) * 0x100000000 + (lo as u64) == l) by (bit_vector)
            requires
                hi == (l >> 32) as u32,
                lo == l as u32,
        ;
        assert(w[1] == hi && w[2] == lo);
        assert((w[1] as int) * 0x100000000 + (w[2] as int) == clen);
        let content_ws = w.subrange(3, 3 + clen);
        assert(content_ws =~= m.1.map_values(|c: char| c as u32));
        assert forall|i: int| 0 <= i < content_ws.len() implies is_scalar(
            #[trigger] content_ws[i],
        ) by {
            char_is_scalar(m.1[i]);
        }
        assert forall|i: int| 0 <= i < clen implies words_to_chars(content_ws)[i] == m.1[i] by {
            char_u32_cast(m.1[i], content_ws[i]);
        }
        assert(words_to_chars(content_ws) =~= m.1);
        assert(w.skip(3 + clen) =~= rest_w);
        lemma_decode_history_of_encode(msgs.drop_first());
        assert(decode_history(w) == Option::Some(
            seq![(m.0, words_to_chars(content_ws))] + msgs.drop_first(),
        ));
        assert(seq![(m.0, words_to_chars(content_ws))] + msgs.drop_first() =~= msgs);
    }
}

/// A word sequence parses to at most one history, whose serialized form it
/// is.
pub proof fn lemma_decode_history_sound(words: Seq<u32>)
    ensures
        decode_history(words) matches Option::Some(msgs) ==> {
            &&& words == history_words(msgs)
            &&& bounded_history(msgs)
        },
    decreases words.len(),
{
    if words.len() == 0 {
        assert(words =~= history_words(Seq::<(MessageType, Seq<char>)>::empty()));
    } else if words.len() < 3 {
    } else {
        match decode_role(words[0]) {
            Option::None => {},
            Option::Some(role) => {
                let clen = (words[1] as int) * 0x100000000 + (words[2] as int);
                if words.len() - 3 < clen || !all_scalars(words.subrange(3, 3 + clen)) {
                } else {
                    lemma_decode_history_sound(words.skip(3 + clen));
                    if let Option::Some(rest) = decode_history(words.skip(3 + clen)) {
                        let content = words_to_chars(words.subrange(3, 3 + clen));
                        let msgs = seq![(role, content)] + rest;
                        assert(content.len() == clen);
                        assert(clen <= u64::MAX) by {
                            assert(words[1] <= u32::MAX && words[2] <= u32::MAX);
                        }
                        let l = content.len() as u64;
                        let hi = words[1];
                        let lo = words[2];
                        assert(hi == (l >> 32) as u32 && lo == l as u32) by (bit_vector)
                            requires
                                (hi as u64) * 0x100000000 + (lo as u64) == l,
                        ;
                        let mw = msg_words(role, content);
                        assert forall|i: int| 0 <= i < clen implies content.map_values(
                            |c: char| c as u32,
                        )[i] == (#[trigger] words.subrange(3, 3 + clen)[i]) by {
                            let wv = words.subrange(3, 3 + clen)[i];
                            assert(is_scalar(wv));
                            assert(content[i] == wv as char);
                            lemma_scalar_char_cast(wv);
                        }
                        assert(content.map_values(|c: char| c as u32) =~= words.subrange(
                            3,
                            3 + clen,
                        ));
                        assert(mw =~= words.take(3 + clen));
                        assert(history_words(msgs)[0] == history_words(msgs)[0]);
                        assert(msgs[0] == (role, content));
                        assert(msgs.drop_first() =~= rest);
                        assert(history_words(msgs) == msg_words(role, content) + history_words(
                            rest,
                        ));
                        assert(words =~= words.take(3 + clen) + words.skip(3 + clen));
                        assert(words == history_words(msgs));
                        assert forall|i: int| 0 <= i < msgs.len() implies (
                        #[trigger] msgs[i]).1.len() <= u64::MAX by {
                            if i > 0 {
                                assert(msgs[i] == rest[i - 1]);
                            }
                        }
                        assert(bounded_history(msgs));
                    }
                }
            },
        }
    }
}

/// A scalar value cast to a character keeps its value.
pub proof fn lemma_scalar_char_cast(v: u32)
    requires
        is_scalar(v),
    ensures
        (v as char) as u32 == v,
{
    char_u32_cast(v as char, v);
}

/// A chat model served by an OpenAI-compatible endpoint.
#[derive(Debug)]
pub struct OpenAICompatibleChatModel {
    /// The name of the model addressed by every request.
    pub model: String,
    /// The endpoint configuration.
    pub client: OpenAICompatibleClient,
}

/// A builder for an OpenAI-compatible chat model; the const parameter
/// records whether a model name has been chosen yet.
#[derive(Debug)]
pub struct OpenAICompatibleChatModelBuilder<const WITH_NAME: bool> {
    /// The chosen model name, if any.
    pub model: Option<String>,
    /// The endpoint configuration.
    pub client: OpenAICompatibleClient,
}

impl OpenAICompatibleChatModelBuilder<false> {
    /// Creates a new builder.
    pub fn new() -> (b: OpenAICompatibleChatModelBuilder<false>)
        ensures
            b.model is None,
            b.client.api_key is None,
            b.client.base_url@ == "https://api.openai.com/v1"@,
    {
        OpenAICompatibleChatModelBuilder { model: Option::None, client: OpenAICompatibleClient::new() }
    }
}

impl<const WITH_NAME: bool> OpenAICompatibleChatModelBuilder<WITH_NAME> {
    /// Set the name of the model to use.
    pub fn with_model(self, model: &str) -> (b: OpenAICompatibleChatModelBuilder<true>)
        ensures
            b.model matches Option::Some(m) && m@ == model@,
            b.client.base_url@ == self.client.base_url@,
            b.client.api_key == self.client.api_key,
    {
        OpenAICompatibleChatModelBuilder { model: Option::Some(model.to_owned()), client: self.client }
    }

    /// Set the model to the latest version of gpt 4o.
    pub fn with_gpt_4o(self) -> (b: OpenAICompatibleChatModelBuilder<true>)
        ensures
            b.model matches Option::Some(m) && m@ == "gpt-4o"@,
            b.client.base_url@ == self.client.base_url@,
            b.client.api_key == self.client.api_key,
    {
        self.with_model("gpt-4o")
    }

    /// Set the model to the latest version of chat gpt 4o used in ChatGPT.
    pub fn with_chat_gpt_4o(self) -> (b: OpenAICompatibleChatModelBuilder<true>)
        ensures
            b.model matches Option::Some(m) && m@ == "chatgpt-4o-latest"@,
            b.client.base_url@ == self.client.base_url@,
            b.client.api_key == self.client.api_key,
    {
        self.with_model("chatgpt-4o-latest")
    }

    /// Set the model to the latest version of gpt 4o mini.
    pub fn with_gpt_4o_mini(self) -> (b: OpenAICompatibleChatModelBuilder<true>)
        ensures
            b.model matches Option::Some(m) && m@ == "gpt-4o-mini"@,
            b.client.base_url@ == self.client.base_url@,
            b.client.api_key == self.client.api_key,
    {
        self.with_model("gpt-4o-mini")
    }

    /// Set the client used to make requests to the endpoint.
    pub fn with_client(self, client: OpenAICompatibleClient) -> (b:
        OpenAICompatibleChatModelBuilder<WITH_NAME>)
        ensures
            b.model == self.model,
            b.client.base_url@ == client.base_url@,
            b.client.api_key == client.api_key,
    {
        OpenAICompatibleChatModelBuilder { model: self.model, client }
    }
}

impl OpenAICompatibleChatModelBuilder<true> {
    /// Build the model. A builder that carries a name always succeeds; one
    /// assembled without a name falls back to the standard default model.
    pub fn build(self) -> (m: OpenAICompatibleChatModel)
        ensures
            (match self.model {
                Option::Some(name) => m.model@ == name@,
                Option::None => m.model@ == "gpt-4o-mini"@,
            }),
            m.client.base_url@ == self.client.base_url@,
            m.client.api_key == self.client.api_key,
    {
        match self.model {
            Option::Some(name) => OpenAICompatibleChatModel { model: name, client: self.client },
            Option::None => OpenAICompatibleChatModel {
                model: "gpt-4o-mini".to_owned(),
                client: self.client,
            },
        }
    }
}


/// The word that stands for this role.
fn role_to_tag(r: MessageType) -> (t: u32)
    ensures
        t == role_tag(r),
{
    match r {
        MessageType::SystemPrompt => 0,
        MessageType::UserMessage => 1,
        MessageType::ModelAnswer => 2,
    }
}

/// The role this word stands for, if any.
fn tag_to_role(w: u32) -> (r: Option<MessageType>)
    ensures
        r == decode_role(w),
{
    if w == 0 {
        Option::Some(MessageType::SystemPrompt)
    } else if w == 1 {
        Option::Some(MessageType::UserMessage)
    } else if w == 2 {
        Option::Some(MessageType::ModelAnswer)
    } else {
        Option::None
    }
}

/// Relies on String::push: it appends exactly the one given character.
#[verifier::external_body]
fn string_push_char(s: &mut String, c: char)
    ensures
        final(s)@ == old(s)@.push(c),
{
    s.push(c);
}

/// Relies on char::from_u32: it returns the character with the given scalar
/// value, and `None` exactly when the value is no Unicode scalar value.
#[verifier::external_body]
fn char_from_u32(v: u32) -> (r: Option<char>)
    ensures
        r is Some <==> is_scalar(v),
        r matches Option::Some(c) ==> c as u32 == v,
{
    char::from_u32(v)
}

/// A chat session for the OpenAI-compatible chat model: the messages
/// exchanged so far. Its view is the history as role/content pairs.
#[derive(Debug)]
pub struct OpenAICompatibleChatSession {
    messages: Vec<ChatHistoryItem>,
}

impl View for OpenAICompatibleChatSession {
    type V = Seq<(MessageType, Seq<char>)>;

    closed spec fn view(&self) -> Seq<(MessageType, Seq<char>)> {
        Seq::new(
            self.messages@.len(),
            |i: int|
                if 0 <= i < self.messages@.len() {
                    (self.messages@[i].role, self.messages@[i].content@)
                } else {
                    (MessageType::SystemPrompt, Seq::empty())
                },
        )
    }
}

impl OpenAICompatibleChatSession {
    /// An empty session: no history yet.
    pub fn new() -> (s: OpenAICompatibleChatSession)
        ensures
            s@.len() == 0,
    {
        let s = OpenAICompatibleChatSession { messages: Vec::new() };
        proof {
            assert(s@ =~= Seq::<(MessageType, Seq<char>)>::empty());
        }
        s
    }

    /// Record one more exchanged message.
    pub fn push_message(&mut self, message: ChatHistoryItem)
        ensures
            final(self)@ == old(self)@.push((message.role, message.content@)),
    {
        let ghost mrole = message.role;
        let ghost mcontent = message.content@;
        self.messages.push(message);
        proof {
            assert(self@ =~= old(self)@.push((mrole, mcontent)));
        }
    }

    /// The messages exchanged so far, as an owned copy.
    pub fn history(&self) -> (h: Vec<ChatHistoryItem>)
        ensures
            h@.len() == self@.len(),
            forall|i: int|
                0 <= i < h@.len() ==> ((#[trigger] h@[i]).role, h@[i].content@) == self@[i],
    {
        let mut h: Vec<ChatHistoryItem> = Vec::new();
        let n = self.messages.len();
        let mut i: usize = 0;
        while i < n
            invariant
                n == self.messages@.len(),
                i <= n,
                h@.len() == i,
                forall|j: int|
                    0 <= j < i ==> ((#[trigger] h@[j]).role, h@[j].content@) == self@[j],
            decreases n - i,
        {
            let m = ChatHistoryItem {
                role: self.messages[i].role,
                content: self.messages[i].content.clone(),
            };
            h.push(m);
            i += 1;
        }
        h
    }

    /// Serialize the session into bytes, appending to the given buffer.
    pub fn write_to(&self, into: &mut Vec<u8>) -> (r: Result<(), GenerationError>)
        ensures
            r is Ok,
            final(into)@ == old(into)@ + encode_chat_session(self@),
    {
        let mut words: Vec<u32> = Vec::new();
        let n = self.messages.len();
        let mut i: usize = 0;
        while i < n
            invariant
                n == self.messages@.len(),
                i <= n,
                words@ == history_words(self@.take(i as int)),
            decreases n - i,
        {
            let ghost prev = words@;
            let m = &self.messages[i];
            words.push(role_to_tag(m.role));
            let clen = m.content.as_str().unicode_len();
            let clen64 = clen as u64;
            words.push((clen64 >> 32) as u32);
            words.push(#[verifier::truncate] (clen64 as u32));
            let mut j: usize = 0;
            while j < clen
                invariant
                    clen == m.content@.len(),
                    clen64 == clen as u64,
                    j <= clen,
                    words@ == prev + seq![
                        role_tag(m.role),
                        ((m.content@.len() as u64) >> 32) as u32,
                        (m.content@.len() as u64) as u32,
                    ] + m.content@.map_values(|c: char| c as u32).take(j as int),
                decreases clen - j,
            {
                let c = m.content.as_str().get_char(j);
                words.push(c as u32);
                proof {
                    assert(m.content@.map_values(|c: char| c as u32).take(j + 1 as int)
                        =~= m.content@.map_values(|c: char| c as u32).take(j as int).push(
                        m.content@[j as int] as u32,
                    ));
                    assert(words@ =~= prev + seq![
                        role_tag(m.role),
                        ((m.content@.len() as u64) >> 32) as u32,
                        (m.content@.len() as u64) as u32,
                    ] + m.content@.map_values(|c: char| c as u32).take(j + 1 as int));
                }
                j += 1;
            }
            proof {
                let mv = (m.role, m.content@);
                assert(m.content@.map_values(|c: char| c as u32).take(clen as int)
                    =~= m.content@.map_values(|c: char| c as u32));
                assert(words@ =~= prev + msg_words(mv.0, mv.1));
                lemma_history_words_push(self@.take(i as int), mv);
                assert(self@.take(i + 1 as int) =~= self@.take(i as int).push(mv));
                assert(self@[i as int] == mv);
            }
            i += 1;
        }
        proof {
            assert(self@.take(n as int) =~= self@);
        }
        write_words(CHAT_SESSION_FORMAT_VERSION, &words, into);
        Ok(())
    }

    /// Load a session back from bytes. Exactly the buffers that
    /// [`OpenAICompatibleChatSession::write_to`] produces are accepted;
    /// anything else is rejected as corrupt.
    pub fn from_bytes(bytes: &[u8]) -> (r: Result<OpenAICompatibleChatSession, GenerationError>)
        ensures
            match r {
                Ok(s) => bytes@ == encode_chat_session(s@),
                Err(e) => {
                    &&& e == GenerationError::CorruptSession
                    &&& forall|msgs: Seq<(MessageType, Seq<char>)>|
                        bounded_history(msgs) ==> bytes@ != #[trigger] encode_chat_session(msgs)
                },
            },
    {
        let words = match read_words(CHAT_SESSION_FORMAT_VERSION, bytes) {
            Ok(words) => words,
            Err(e) => {
                return Err(GenerationError::CorruptSession);
            },
        };
        match Self::parse_history(&words) {
            Option::Some(messages) => {
                let s = OpenAICompatibleChatSession { messages };
                proof {
                    lemma_decode_history_sound(words@);
                    assert(words@ == history_words(s@));
                }
                Ok(s)
            },
            Option::None => {
                proof {
                    assert forall|msgs: Seq<(MessageType, Seq<char>)>|
                        bounded_history(msgs) implies bytes@ != #[trigger] encode_chat_session(
                        msgs,
                    ) by {
                        if bytes@ == encode_chat_session(msgs) {
                            lemma_encode_words_injective(
                                CHAT_SESSION_FORMAT_VERSION,
                                words@,
                                history_words(msgs),
                            );
                            lemma_decode_history_sound(words@);
                            lemma_decode_history_of_encode(msgs);
                        }
                    }
                }
                Err(GenerationError::CorruptSession)
            },
        }
    }

    /// Parse a word sequence into messages, following [`decode_history`]
    /// exactly.
    fn parse_history(words: &Vec<u32>) -> (r: Option<Vec<ChatHistoryItem>>)
        ensures
            match r {
                Option::Some(messages) => decode_history(words@) == Option::Some(
                    Seq::new(
                        messages@.len(),
                        |i: int|
                            if 0 <= i < messages@.len() {
                                (messages@[i].role, messages@[i].content@)
                            } else {
                                (MessageType::SystemPrompt, Seq::empty())
                            },
                    ),
                ),
                Option::None => decode_history(words@) is None,
            },
    {
        let n = words.len();
        let mut messages: Vec<ChatHistoryItem> = Vec::new();
        let mut idx: usize = 0;
        proof {
            assert(words@.skip(0) =~= words@);
            if let Option::Some(r) = decode_history(words@) {
                assert(Seq::new(
                    messages@.len(),
                    |i: int|
                        if 0 <= i < messages@.len() {
                            (messages@[i].role, messages@[i].content@)
                        } else {
                            (MessageType::SystemPrompt, Seq::empty())
                        },
                ) + r =~= r);
            }
        }
        while idx < n
            invariant
                n == words@.len(),
                idx <= n,
                decode_history(words@) == (match decode_history(words@.skip(idx as int)) {
                    Option::Some(r) => Option::Some(
                        Seq::new(
                            messages@.len(),
                            |i: int|
                                if 0 <= i < messages@.len() {
                                    (messages@[i].role, messages@[i].content@)
                                } else {
                                    (MessageType::SystemPrompt, Seq::empty())
                                },
                        ) + r,
                    ),
                    Option::None => Option::<Seq<(MessageType, Seq<char>)>>::None,
                }),
            decreases n - idx,
        {
            let ghost rem = words@.skip(idx as int);
            let ghost acc = Seq::new(
                messages@.len(),
                |i: int|
                    if 0 <= i < messages@.len() {
                        (messages@[i].role, messages@[i].content@)
                    } else {
                        (MessageType::SystemPrompt, Seq::empty())
                    },
            );
            if n - idx < 3 {
                return Option::None;
            }
            let role = match tag_to_role(words[idx]) {
                Option::Some(role) => role,
                Option::None => {
                    return Option::None;
                },
            };
            let hi = words[idx + 1];
            let lo = words[idx + 2];
            let clen64 = ((hi as u64) << 32) | (lo as u64);
            proof {
                let l = clen64;
                assert((hi as u64) * 0x100000000 + (lo as u64) == l) by (bit_vector)
                    requires
                        l == ((hi as u64) << 32) | (lo as u64),
                ;
            }
            if clen64 > (n - idx - 3) as u64 {
                return Option::None;
            }
            let clen = clen64 as usize;
            proof {
                assert(clen == clen64);
            }
            let mut content = String::new();
            let mut j: usize = 0;
            while j < clen
                invariant
                    n == words@.len(),
                    idx + 3 + clen <= n,
                    j <= clen,
                    content@.len() == j,
                    rem == words@.skip(idx as int),
                    rem.len() == n - idx,
                    decode_role(rem[0]) == Option::Some(role),
                    (rem[1] as int) * 0x100000000 + (rem[2] as int) == clen as int,
                    decode_history(words@) == (match decode_history(rem) {
                        Option::Some(r) => Option::Some(acc + r),
                        Option::None => Option::<Seq<(MessageType, Seq<char>)>>::None,
                    }),
                    decode_history(rem) is None ==> decode_history(words@) is None,
                    forall|k: int|
                        0 <= k < j ==> is_scalar(#[trigger] words@[idx + 3 + k]) && content@[k]
                            == words@[idx + 3 + k] as char,
                decreases clen - j,
            {
                let w = words[idx + 3 + j];
                match char_from_u32(w) {
                    Option::Some(c) => {
                        string_push_char(&mut content, c);
                        proof {
                            char_u32_cast(c, w);
                        }
                    },
                    Option::None => {
                        proof {
                            assert(rem.subrange(3, 3 + clen as int)[j as int] == words@[idx + 3
                                + j]);
                            assert(!all_scalars(rem.subrange(3, 3 + clen as int)));
                            assert(decode_history(rem) is None);
                        }
                        return Option::None;
                    },
                }
                j += 1;
            }
            let ghost content_view = content@;
            messages.push(ChatHistoryItem { role, content });
            proof {
                let clen_i = clen as int;
                let sub = rem.subrange(3, 3 + clen_i);
                assert forall|k: int| 0 <= k < clen_i implies sub[k] == words@[idx + 3 + k] by {}
                assert forall|k: int| 0 <= k < clen_i implies is_scalar(#[trigger] sub[k]) by {
                    assert(sub[k] == words@[idx + 3 + k]);
                }
                assert(all_scalars(sub));
                assert forall|k: int| 0 <= k < clen_i implies words_to_chars(sub)[k]
                    == content_view[k] by {
                    assert(sub[k] == words@[idx + 3 + k]);
                }
                assert(words_to_chars(sub) =~= content_view);
                assert(rem.skip(3 + clen_i) =~= words@.skip(idx + 3 + clen_i));
                assert(decode_history(rem) == (match decode_history(rem.skip(3 + clen_i)) {
                    Option::Some(rest) => Option::Some(seq![(role, content_view)] + rest),
                    Option::None => Option::<Seq<(MessageType, Seq<char>)>>::None,
                }));
                let new_acc = Seq::new(
                    messages@.len(),
                    |i: int|
                        if 0 <= i < messages@.len() {
                            (messages@[i].role, messages@[i].content@)
                        } else {
                            (MessageType::SystemPrompt, Seq::empty())
                        },
                );
                assert(new_acc =~= acc.push((role, content_view)));
                if let Option::Some(rest) = decode_history(words@.skip(idx + 3 + clen_i)) {
                    assert(acc + (seq![(role, content_view)] + rest) =~= new_acc + rest);
                }
            }
            idx = idx + 3 + clen;
        }
        proof {
            assert(words@.skip(n as int) =~= Seq::<u32>::empty());
            assert(decode_history(words@.skip(n as int)) == Option::Some(
                Seq::<(MessageType, Seq<char>)>::empty(),
            ));
        }
        Option::Some(messages)
    }
}

/// Why an OpenAI-compatible endpoint finished one choice of its streamed
/// answer.
#[derive(Debug, Clone, Copy, PartialEq, Eq, Structural)]
pub enum FinishReason {
    /// The content filter intervened.
    ContentFilter,
    /// The model asked for a function call.
    FunctionCall,
    /// The configured token limit was reached.
    MaxTokens,
    /// The model stopped on its own.
    Stop,
}

/// The delta carried by one streamed chat-completion event.
pub struct ChatResponseDelta {
    /// Newly generated text, if any.
    pub content: Option<String>,
    /// A refusal message, if the model refused.
    pub refusal: Option<String>,
}

/// One choice of a streamed chat-completion event.
pub struct ChatResponseChoice {
    /// The delta for this event.
    pub delta: ChatResponseDelta,
    /// Why the stream finished, if it did.
    pub finish_reason: Option<FinishReason>,
}

/// One streamed chat-completion event, already parsed from the wire.
pub struct ChatResponse {
    /// The event's choices; the first one drives the request.
    pub choices: Vec<ChatResponseChoice>,
}

/// What one streamed event means for the request.
#[derive(Debug)]
pub enum ChatEventAction {
    /// Hand this text to the caller's sink and go on reading.
    Emit(String),
    /// The answer is complete.
    Finish,
    /// Nothing to do for this event.
    Ignore,
    /// The request failed: the endpoint returned no choices.
    FailNoMessageChoices,
    /// The request failed: the model refused, with this message.
    FailRefusal(String),
    /// The request failed: function calls are not supported.
    FailFunctionCallsNotSupported,
}

/// The decision for one streamed event, on the model level.
pub ghost enum ChatActionModel {
    /// Hand this text to the caller's sink.
    Emit(Seq<char>),
    /// The answer is complete.
    Finish,
    /// Nothing to do.
    Ignore,
    /// The endpoint returned no choices.
    FailNoMessageChoices,
    /// The model refused, with this message.
    FailRefusal(Seq<char>),
    /// Function calls are not supported.
    FailFunctionCallsNotSupported,
}

/// The view of an action: its text payloads as character sequences.
pub open spec fn chat_action_view(a: ChatEventAction) -> ChatActionModel {
    match a {
        ChatEventAction::Emit(t) => ChatActionModel::Emit(t@),
        ChatEventAction::Finish => ChatActionModel::Finish,
        ChatEventAction::Ignore => ChatActionModel::Ignore,
        ChatEventAction::FailNoMessageChoices => ChatActionModel::FailNoMessageChoices,
        ChatEventAction::FailRefusal(m) => ChatActionModel::FailRefusal(m@),
        ChatEventAction::FailFunctionCallsNotSupported => ChatActionModel::FailFunctionCallsNotSupported,
    }
}

/// What one streamed event means for the request, on the model level.
pub open spec fn chat_event_action(r: &ChatResponse) -> ChatActionModel {
    if r.choices@.len() == 0 {
        ChatActionModel::FailNoMessageChoices
    } else {
        let first = r.choices@[0];
        match first.delta.refusal {
            Option::Some(msg) => ChatActionModel::FailRefusal(msg@),
            Option::None => match first.finish_reason {
                Option::Some(FinishReason::ContentFilter) => ChatActionModel::FailRefusal(
                    "ContentFilter"@,
                ),
                Option::Some(FinishReason::FunctionCall) => ChatActionModel::FailFunctionCallsNotSupported,
                Option::Some(_) => ChatActionModel::Finish,
                Option::None => match first.delta.content {
                    Option::Some(text) => ChatActionModel::Emit(text@),
                    Option::None => ChatActionModel::Ignore,
                },
            },
        }
    }
}

/// Decide what one streamed event means: no choices fail the request; a
/// refusal or a content-filter stop fails it with the refusal's message; a
/// function call is unsupported; any other finish reason completes the
/// answer; otherwise new content, if any, is emitted.
pub fn process_chat_response(r: &ChatResponse) -> (a: ChatEventAction)
    ensures
        chat_action_view(a) == chat_event_action(r),
{
    if r.choices.len() == 0 {
        return ChatEventAction::FailNoMessageChoices;
    }
    let first = &r.choices[0];
    if let Option::Some(msg) = &first.delta.refusal {
        return ChatEventAction::FailRefusal(msg.clone());
    }
    match &first.finish_reason {
        Option::Some(FinishReason::ContentFilter) => ChatEventAction::FailRefusal(
            "ContentFilter".to_owned(),
        ),
        Option::Some(FinishReason::FunctionCall) => ChatEventAction::FailFunctionCallsNotSupported,
        Option::Some(_) => ChatEventAction::Finish,
        Option::None => match &first.delta.content {
            Option::Some(text) => ChatEventAction::Emit(text.clone()),
            Option::None => ChatEventAction::Ignore,
        },
    }
}

/// A parser marker for any type that a schema describes: structured chat
/// answers are decoded into its output type.
pub struct SchemaParser<P> {
    phantom: core::marker::PhantomData<P>,
}

impl<P> SchemaParser<P> {
    /// Create a new parser for the given schema.
    pub fn new() -> (r: SchemaParser<P>) {
        SchemaParser { phantom: core::marker::PhantomData }
    }
}

impl<P> ModelConstraints for SchemaParser<P> {
    type Output = P;
}

} // verus!
