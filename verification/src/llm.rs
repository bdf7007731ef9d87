//! Generic OpenAI-compatible LLM providers: interface selection, endpoint
//! normalization, request payloads and reading the answer text.
//!
//! Both `/v1/chat/completions` and `/v1/responses` style APIs are supported.
use vstd::prelude::*;
use crate::arxiv::dedup::strip_suffix_all;
use crate::arxiv::query::{join, join_chars};
use crate::text::views;
use crate::error::{is_config_error, is_parse_error, GscholarError};
use crate::text::{
    append_chars, chars_eq, chars_of, concat, copy_range, ends_with, ends_with_chars, is_ascii_char,
    lemma_ends_with_append, lemma_ends_with_tail, lemma_replace_char_absent, trim_end, trim_start,
    replace_all, replace_chars, str_lowercase, string_of, to_lowercase, trim, trim_chars,
    trimmed_chars,
};

verus! {

broadcast use vstd::string::group_string_axioms;

/// The API style of a provider.
#[derive(Debug, Clone, Copy, PartialEq, Eq, Structural)]
pub enum InterfaceType {
    ChatCompletions,
    Responses,
}

/// The key by which an interface name is recognised: trimmed, lower-cased,
/// `-` replaced by `_`.
pub open spec fn interface_key(value: Seq<char>) -> Seq<char> {
    replace_all(str_lowercase(trim(value)), seq!['-'], seq!['_'])
}

/// The message of the error for an unsupported interface name.
pub open spec fn unsupported_interface_message(key: Seq<char>) -> Seq<char> {
    "Unsupported LLM interface_type '"@ + key + "'. Supported: chat_completions, responses"@
}

/// The interface that `InterfaceType::parse` picks for `value`, if any.
pub open spec fn interface_for(value: Seq<char>) -> Option<InterfaceType> {
    let k = interface_key(value);
    if k == "chat_completions"@ || k == "chat"@ || k == "completions"@ {
        Some(InterfaceType::ChatCompletions)
    } else if k == "responses"@ || k == "response"@ {
        Some(InterfaceType::Responses)
    } else {
        None
    }
}

/// The canonical name of an interface.
pub open spec fn interface_name(t: InterfaceType) -> Seq<char> {
    match t {
        InterfaceType::ChatCompletions => "chat_completions"@,
        InterfaceType::Responses => "responses"@,
    }
}

impl InterfaceType {
    /// Reads an interface name (`chat_completions`, `chat`, `completions`,
    /// `responses` or `response`, in any case, `-` for `_`).
    pub fn parse(value: &str) -> (r: Result<InterfaceType, GscholarError>)
        ensures
            interface_for(value@) matches Some(t) ==> r == Ok::<InterfaceType, GscholarError>(t),
            interface_for(value@) is None ==> is_config_error(
                r,
                unsupported_interface_message(interface_key(value@)),
            ),
            forall|t: InterfaceType| value@ == #[trigger] interface_name(t) ==> r == Ok::<
                InterfaceType,
                GscholarError,
            >(t),
    {
        let t = trimmed_chars(value);
        let lower = to_lowercase(&t);
        proof {
            reveal_strlit("chat_completions");
            reveal_strlit("responses");
            reveal_strlit("chat");
            reveal_strlit("completions");
            let v = value@;
            if v == "chat_completions"@ || v == "responses"@ {
                assert(trim_start(v) == v);
                assert(trim_end(v) == v);
                assert(t@ == v);
                assert(forall|i: int| 0 <= i < v.len() ==> is_ascii_char(#[trigger] v[i]));
                assert(lower@ =~= v);
                assert(forall|i: int| 0 <= i < v.len() ==> v[i] != '-');
                lemma_replace_char_absent(v, '-', seq!['_']);
                assert(interface_key(v) == v);
            }
            assert(interface_name(InterfaceType::ChatCompletions) == "chat_completions"@);
            assert(interface_name(InterfaceType::Responses) == "responses"@);
            assert(v == "chat_completions"@ ==> interface_for(v) == Some(
                InterfaceType::ChatCompletions,
            ));
            assert(v == "responses"@ ==> interface_for(v) == Some(InterfaceType::Responses));
        }
        let dash = vec!['-'];
        let underscore = vec!['_'];
        assert(dash@ =~= seq!['-'] && underscore@ =~= seq!['_']);
        let key = replace_chars(&lower, &dash, &underscore);
        if chars_eq(&key, &chars_of("chat_completions")) || chars_eq(&key, &chars_of("chat"))
            || chars_eq(&key, &chars_of("completions")) {
            Ok(InterfaceType::ChatCompletions)
        } else if chars_eq(&key, &chars_of("responses")) || chars_eq(&key, &chars_of("response")) {
            Ok(InterfaceType::Responses)
        } else {
            let head = chars_of("Unsupported LLM interface_type '");
            let tail = chars_of("'. Supported: chat_completions, responses");
            let msg = concat(&concat(&head, &key), &tail);
            Err(GscholarError::Config(string_of(&msg)))
        }
    }

    /// The canonical name of the interface.
    pub fn as_str(self) -> (r: &'static str)
        ensures
            r@ == interface_name(self),
    {
        match self {
            InterfaceType::ChatCompletions => "chat_completions",
            InterfaceType::Responses => "responses",
        }
    }
}

/// The path that requests of an interface go to.
pub open spec fn interface_suffix(t: InterfaceType) -> Seq<char> {
    match t {
        InterfaceType::ChatCompletions => "chat/completions"@,
        InterfaceType::Responses => "responses"@,
    }
}

/// The request URL for an endpoint given as a full URL or a base URL: the
/// trimmed endpoint without trailing slashes when it already ends (in any
/// case) with `/v1/<path>` or `/<path>`; with `/<path>` appended when it ends
/// with `/v1`; with `/v1/<path>` appended otherwise.
pub open spec fn normalized_endpoint(endpoint: Seq<char>, t: InterfaceType) -> Seq<char> {
    let trimmed = strip_suffix_all(trim(endpoint), seq!['/']);
    let lower = str_lowercase(trimmed);
    let suffix = interface_suffix(t);
    if ends_with(lower, "/v1/"@ + suffix) || ends_with(lower, "/"@ + suffix) {
        trimmed
    } else if ends_with(lower, "/v1"@) {
        trimmed + "/"@ + suffix
    } else {
        trimmed + "/v1/"@ + suffix
    }
}

/// The law of endpoint normalization, for either interface, where `x` is the
/// endpoint trimmed and without trailing slashes: when `x` already ends (in
/// any case) with `/chat/completions` for chat completions or `/responses`
/// for the responses API, the endpoint is `x`; otherwise, when `x` ends (in
/// any case) with `/v1`, only `/<path>` is appended; otherwise `/v1/<path>`
/// is.
pub proof fn lemma_normalized_endpoint(endpoint: Seq<char>, t: InterfaceType)
    ensures
        ({
            let x = strip_suffix_all(trim(endpoint), seq!['/']);
            let lower = str_lowercase(x);
            let path = match t {
                InterfaceType::ChatCompletions => "chat/completions"@,
                InterfaceType::Responses => "responses"@,
            };
            &&& ends_with(lower, "/"@ + path) ==> normalized_endpoint(endpoint, t) == x
            &&& !ends_with(lower, "/"@ + path) && ends_with(lower, "/v1"@) ==> normalized_endpoint(
                endpoint,
                t,
            ) == x + "/"@ + path
            &&& !ends_with(lower, "/"@ + path) && !ends_with(lower, "/v1"@) ==> normalized_endpoint(
                endpoint,
                t,
            ) == x + "/v1/"@ + path
        }),
{
    reveal_strlit("/v1/");
    reveal_strlit("/");
    reveal_strlit("/v1");
    let x = strip_suffix_all(trim(endpoint), seq!['/']);
    let lower = str_lowercase(x);
    let suffix = interface_suffix(t);
    assert("/v1/"@ + suffix =~= "/v1"@ + ("/"@ + suffix));
    if ends_with(lower, "/v1/"@ + suffix) {
        lemma_ends_with_tail(lower, "/v1"@, "/"@ + suffix);
    }
}

fn strip_trailing_slashes(v: Vec<char>) -> (r: Vec<char>)
    ensures
        r@ == strip_suffix_all(v@, seq!['/']),
{
    let mut hi = v.len();
    assert(v@.take(hi as int) =~= v@);
    loop
        invariant
            hi <= v.len(),
            strip_suffix_all(v@, seq!['/']) == strip_suffix_all(v@.take(hi as int), seq!['/']),
        ensures
            hi <= v.len(),
            strip_suffix_all(v@, seq!['/']) == v@.take(hi as int),
        decreases hi,
    {
        let ghost t = v@.take(hi as int);
        if hi > 0 && v[hi - 1] == '/' {
            assert(t.subrange(hi - 1, hi as int) =~= seq!['/']);
            assert(t.take(hi - 1) =~= v@.take(hi - 1));
            hi = hi - 1;
        } else {
            proof {
                if hi > 0 {
                    assert(t.subrange(hi - 1, hi as int)[0] == v@[hi - 1]);
                    assert(!crate::text::occurs_at(t, hi - 1, seq!['/']));
                }
                assert(strip_suffix_all(t, seq!['/']) == t);
            }
            break;
        }
    }
    assert(v@.take(hi as int) =~= v@.subrange(0, hi as int));
    copy_range(&v, 0, hi)
}

/// Normalizes a provider endpoint for its interface (`normalized_endpoint`):
/// the result ends with `/<path>` of the interface, as it stands or, when the
/// endpoint already named the path in another case, once lower-cased; an
/// endpoint that already ends (in any case) with `/<path>` is only trimmed.
pub fn normalize_endpoint_for_interface(endpoint: &str, interface_type: InterfaceType) -> (r: String)
    ensures
        r@ == normalized_endpoint(endpoint@, interface_type),
        ends_with(r@, "/"@ + interface_suffix(interface_type)) || (r@ == strip_suffix_all(
            trim(endpoint@),
            seq!['/'],
        ) && ends_with(str_lowercase(r@), "/"@ + interface_suffix(interface_type))),
        ends_with(
            str_lowercase(strip_suffix_all(trim(endpoint@), seq!['/'])),
            "/"@ + interface_suffix(interface_type),
        ) ==> r@ == strip_suffix_all(trim(endpoint@), seq!['/']),
{
    proof {
        reveal_strlit("/v1/");
        reveal_strlit("/");
        reveal_strlit("/v1");
        let suffix = interface_suffix(interface_type);
        let trimmed = strip_suffix_all(trim(endpoint@), seq!['/']);
        let lower = str_lowercase(trimmed);
        assert("/v1/"@ + suffix =~= "/v1"@ + ("/"@ + suffix));
        if ends_with(lower, "/v1/"@ + suffix) {
            lemma_ends_with_tail(lower, "/v1"@, "/"@ + suffix);
        }
        assert(trimmed + "/v1/"@ + suffix =~= (trimmed + "/v1"@) + ("/"@ + suffix));
        lemma_ends_with_append(trimmed + "/v1"@, "/"@ + suffix);
        assert(trimmed + "/"@ + suffix =~= trimmed + ("/"@ + suffix));
        lemma_ends_with_append(trimmed, "/"@ + suffix);
    }
    let trimmed = strip_trailing_slashes(trimmed_chars(endpoint));
    let lower = to_lowercase(&trimmed);
    let suffix = match interface_type {
        InterfaceType::ChatCompletions => chars_of("chat/completions"),
        InterfaceType::Responses => chars_of("responses"),
    };
    let full = concat(&chars_of("/v1/"), &suffix);
    let short = concat(&chars_of("/"), &suffix);
    if ends_with_chars(&lower, &full) || ends_with_chars(&lower, &short) {
        return string_of(&trimmed);
    }
    if ends_with_chars(&lower, &chars_of("/v1")) {
        string_of(&concat(&concat(&trimmed, &chars_of("/")), &suffix))
    } else {
        string_of(&concat(&concat(&trimmed, &chars_of("/v1/")), &suffix))
    }
}

// ---------------------------------------------------------------------------
// Providers
// ---------------------------------------------------------------------------

/// The connection settings of a provider.
pub struct ProviderRuntime {
    pub provider_name: String,
    pub endpoint: String,
    pub api_key: String,
    pub model: String,
}

/// An OpenAI-compatible provider.
pub struct OpenAiCompatibleProvider {
    pub runtime: ProviderRuntime,
    pub interface_type: InterfaceType,
}

/// The provider that `OpenAiCompatibleProvider::new` builds from its
/// arguments, or the message of its `Config` error: each of name, endpoint,
/// model and API key must be non-blank (checked in this order); the stored
/// name, key and model are trimmed and the endpoint normalized.
pub open spec fn provider_outcome(
    name: Seq<char>,
    t: InterfaceType,
    endpoint: Seq<char>,
    model: Seq<char>,
    api_key: Seq<char>,
) -> Result<(Seq<char>, Seq<char>, Seq<char>, Seq<char>), Seq<char>> {
    if trim(name).len() == 0 {
        Err("LLM provider name is required"@)
    } else if trim(endpoint).len() == 0 {
        Err("LLM provider endpoint is required"@)
    } else if trim(model).len() == 0 {
        Err("LLM provider model is required"@)
    } else if trim(api_key).len() == 0 {
        Err("LLM provider API key is required"@)
    } else {
        Ok((trim(name), normalized_endpoint(endpoint, t), trim(api_key), trim(model)))
    }
}

impl OpenAiCompatibleProvider {
    /// The stored (name, endpoint, API key, model).
    pub open spec fn settings(&self) -> (Seq<char>, Seq<char>, Seq<char>, Seq<char>) {
        (
            self.runtime.provider_name@,
            self.runtime.endpoint@,
            self.runtime.api_key@,
            self.runtime.model@,
        )
    }

    /// Builds a provider (`provider_outcome`).
    pub fn new(name: &str, interface_type: InterfaceType, endpoint: &str, model: &str, api_key: &str) -> (r: Result<OpenAiCompatibleProvider, GscholarError>)
        ensures
            match provider_outcome(name@, interface_type, endpoint@, model@, api_key@) {
                Ok(s) => r matches Ok(p) && p.settings() == s && p.interface_type
                    == interface_type,
                Err(m) => is_config_error(r, m),
            },
    {
        let n = trimmed_chars(name);
        if n.len() == 0 {
            return Err(GscholarError::Config(String::from_str("LLM provider name is required")));
        }
        let e = trimmed_chars(endpoint);
        if e.len() == 0 {
            return Err(
                GscholarError::Config(String::from_str("LLM provider endpoint is required")),
            );
        }
        let m = trimmed_chars(model);
        if m.len() == 0 {
            return Err(GscholarError::Config(String::from_str("LLM provider model is required")));
        }
        let k = trimmed_chars(api_key);
        if k.len() == 0 {
            return Err(GscholarError::Config(String::from_str("LLM provider API key is required")));
        }
        let endpoint = normalize_endpoint_for_interface(endpoint, interface_type);
        Ok(OpenAiCompatibleProvider {
            runtime: ProviderRuntime {
                provider_name: string_of(&n),
                endpoint,
                api_key: string_of(&k),
                model: string_of(&m),
            },
            interface_type,
        })
    }

    /// `new`, under the name the tests use.
    pub fn new_for_test(name: &str, interface_type: InterfaceType, endpoint: &str, model: &str, api_key: &str) -> (r: Result<OpenAiCompatibleProvider, GscholarError>)
        ensures
            match provider_outcome(name@, interface_type, endpoint@, model@, api_key@) {
                Ok(s) => r matches Ok(p) && p.settings() == s && p.interface_type
                    == interface_type,
                Err(m) => is_config_error(r, m),
            },
    {
        Self::new(name, interface_type, endpoint, model, api_key)
    }

    /// The request endpoint.
    pub fn endpoint_for_test(&self) -> (r: &str)
        ensures
            r@ == self.runtime.endpoint@,
    {
        self.runtime.endpoint.as_str()
    }

    /// The provider's name.
    pub fn name(&self) -> (r: &str)
        ensures
            r@ == self.runtime.provider_name@,
    {
        self.runtime.provider_name.as_str()
    }
}

// ---------------------------------------------------------------------------
// JSON values
// ---------------------------------------------------------------------------

/// A JSON value. Numbers keep their text; an object keeps its fields in
/// order, each key once.
#[derive(Debug)]
pub enum JsonValue {
    Null,
    Bool(bool),
    Number(String),
    Str(String),
    Array(Vec<JsonValue>),
    Object(Vec<(String, JsonValue)>),
}

/// The value of the first field named `key`.
pub open spec fn field_lookup(fields: Seq<(String, JsonValue)>, key: Seq<char>) -> Option<JsonValue>
    decreases fields.len(),
{
    if fields.len() == 0 {
        None
    } else if fields[0].0@ == key {
        Some(fields[0].1)
    } else {
        field_lookup(fields.drop_first(), key)
    }
}

/// `value.get(key)`: the field `key` of an object; nothing for other values.
pub open spec fn json_get(v: JsonValue, key: Seq<char>) -> Option<JsonValue> {
    match v {
        JsonValue::Object(fields) => field_lookup(fields@, key),
        _ => None,
    }
}

/// `as_str`: the text of a string value.
pub open spec fn json_str(v: Option<JsonValue>) -> Option<Seq<char>> {
    match v {
        Some(JsonValue::Str(s)) => Some(s@),
        _ => None,
    }
}

/// `as_array`: the elements of an array value.
pub open spec fn json_array(v: Option<JsonValue>) -> Option<Seq<JsonValue>> {
    match v {
        Some(JsonValue::Array(a)) => Some(a@),
        _ => None,
    }
}

/// The field `key` of `v`, if `v` is an object that has one.
pub fn json_get_exec<'a>(v: &'a JsonValue, key: &str) -> (r: Option<&'a JsonValue>)
    ensures
        match json_get(*v, key@) {
            Some(x) => r == Some(&x),
            None => r is None,
        },
{
    match v {
        JsonValue::Object(fields) => {
            let k = chars_of(key);
            let mut i: usize = 0;
            assert(fields@.skip(0) =~= fields@);
            while i < fields.len()
                invariant
                    i <= fields@.len(),
                    k@ == key@,
                    json_get(*v, key@) == field_lookup(fields@, key@),
                    field_lookup(fields@, key@) == field_lookup(fields@.skip(i as int), key@),
                decreases fields.len() - i,
            {
                assert(fields@.skip(i as int).drop_first() =~= fields@.skip(i + 1));
                assert(fields@.skip(i as int)[0] == fields@[i as int]);
                if chars_eq(&chars_of(fields[i].0.as_str()), &k) {
                    return Some(&fields[i].1);
                }
                i = i + 1;
            }
            None
        },
        _ => None,
    }
}

/// The text of `v`, if it is a string value.
fn json_str_exec<'a>(v: Option<&'a JsonValue>) -> (r: Option<&'a String>)
    ensures
        match json_str(
            match v {
                Some(x) => Some(*x),
                None => None,
            },
        ) {
            Some(t) => r matches Some(s) && s@ == t,
            None => r is None,
        },
{
    match v {
        Some(JsonValue::Str(s)) => Some(s),
        _ => None,
    }
}

// ---------------------------------------------------------------------------
// Parsing JSON bodies
// ---------------------------------------------------------------------------

/// `serde_json::Value`, carried through opaquely.
#[verifier::external_type_specification]
#[verifier::external_body]
pub struct ExSerdeJsonValue(serde_json::Value);

/// What `serde_json::from_str::<serde_json::Value>` reads from a body: the
/// value, or the text of its error.
pub uninterp spec fn json_parse(body: Seq<char>) -> Result<JsonValue, Seq<char>>;

/// A `serde_json::Value` as a `JsonValue`, one node for one node: numbers by
/// their text, objects with their fields in the map's order.
#[verifier::external_body]
fn json_value_from(v: &serde_json::Value) -> JsonValue {
    match v {
        serde_json::Value::Null => JsonValue::Null,
        serde_json::Value::Bool(b) => JsonValue::Bool(*b),
        serde_json::Value::Number(n) => JsonValue::Number(n.to_string()),
        serde_json::Value::String(s) => JsonValue::Str(s.clone()),
        serde_json::Value::Array(a) => JsonValue::Array(a.iter().map(json_value_from).collect()),
        serde_json::Value::Object(o) => JsonValue::Object(
            o.iter().map(|(k, x)| (k.clone(), json_value_from(x))).collect(),
        ),
    }
}

/// Parses a JSON body with `serde_json::from_str::<serde_json::Value>`. The
/// contract names the result (`json_parse`), a function of the body alone;
/// the error is the `Display` text of `serde_json::Error`.
#[verifier::external_body]
pub fn parse_json(body: &str) -> (r: Result<JsonValue, String>)
    ensures
        match json_parse(body@) {
            Ok(v) => r == Ok::<JsonValue, String>(v),
            Err(m) => r matches Err(e) && e@ == m,
        },
{
    match serde_json::from_str::<serde_json::Value>(body) {
        Ok(v) => Ok(json_value_from(&v)),
        Err(e) => Err(e.to_string()),
    }
}

// ---------------------------------------------------------------------------
// Reading the answer
// ---------------------------------------------------------------------------

/// The answer of a chat-completions response: the trimmed text at
/// `choices[0].message.content`, empty when there is none.
pub open spec fn chat_text(v: JsonValue) -> Seq<char> {
    let content = match json_array(json_get(v, "choices"@)) {
        Some(a) => if a.len() > 0 {
            match json_get(a[0], "message"@) {
                Some(m) => json_str(json_get(m, "content"@)),
                None => None,
            }
        } else {
            None
        },
        None => None,
    };
    trim(
        match content {
            Some(c) => c,
            None => Seq::empty(),
        },
    )
}

/// The answer of a chat-completions response (`chat_text`); an empty answer is
/// a parse error.
pub fn chat_response_text(v: &JsonValue) -> (r: Result<String, GscholarError>)
    ensures
        chat_text(*v).len() == 0 ==> is_parse_error(r, "Empty chat completion response content"@),
        chat_text(*v).len() > 0 ==> (r matches Ok(s) && s@ == chat_text(*v)),
{
    let mut content: Vec<char> = Vec::new();
    match json_get_exec(v, "choices") {
        Some(JsonValue::Array(choices)) => {
            if choices.len() > 0 {
                match json_get_exec(&choices[0], "message") {
                    Some(m) => match json_str_exec(json_get_exec(m, "content")) {
                        Some(c) => {
                            content = chars_of(c.as_str());
                        },
                        None => {},
                    },
                    None => {},
                }
            }
        },
        _ => {},
    }
    let text = trim_chars(&content);
    if text.len() == 0 {
        Err(GscholarError::Parse(String::from_str("Empty chat completion response content")))
    } else {
        Ok(string_of(&text))
    }
}

/// The trimmed, non-blank `text` of each content block.
pub open spec fn block_texts(blocks: Seq<JsonValue>) -> Seq<Seq<char>>
    decreases blocks.len(),
{
    if blocks.len() == 0 {
        Seq::empty()
    } else {
        let rest = block_texts(blocks.drop_last());
        match json_str(json_get(blocks.last(), "text"@)) {
            Some(t) => if trim(t).len() > 0 {
                rest.push(trim(t))
            } else {
                rest
            },
            None => rest,
        }
    }
}

/// The block texts of the `content` array of each output item.
pub open spec fn item_texts(items: Seq<JsonValue>) -> Seq<Seq<char>>
    decreases items.len(),
{
    if items.len() == 0 {
        Seq::empty()
    } else {
        item_texts(items.drop_last()) + match json_array(json_get(items.last(), "content"@)) {
            Some(c) => block_texts(c),
            None => Seq::empty(),
        }
    }
}

/// The answer of a responses-API response: the trimmed `output_text` when it
/// is not blank; otherwise the block texts of `output`, joined by new lines
/// and trimmed, empty when there are none.
pub open spec fn responses_text(v: JsonValue) -> Seq<char> {
    match json_str(json_get(v, "output_text"@)) {
        Some(t) if trim(t).len() > 0 => trim(t),
        _ => trim(
            join(
                match json_array(json_get(v, "output"@)) {
                    Some(items) => item_texts(items),
                    None => Seq::empty(),
                },
                seq!['\n'],
            ),
        ),
    }
}

fn push_block_texts(blocks: &Vec<JsonValue>, parts: &mut Vec<Vec<char>>)
    ensures
        views(final(parts)@) == views(old(parts)@) + block_texts(blocks@),
{
    let ghost start = views(parts@);
    let mut i: usize = 0;
    assert(blocks@.take(0) =~= Seq::<JsonValue>::empty());
    assert(views(parts@) =~= start + block_texts(blocks@.take(0)));
    while i < blocks.len()
        invariant
            i <= blocks.len(),
            views(parts@) == start + block_texts(blocks@.take(i as int)),
        decreases blocks.len() - i,
    {
        assert(blocks@.take(i + 1).drop_last() =~= blocks@.take(i as int));
        assert(blocks@.take(i + 1).last() == blocks@[i as int]);
        let ghost txt = json_str(json_get(blocks@[i as int], "text"@));
        let ghost before = views(parts@);
        match json_str_exec(json_get_exec(&blocks[i], "text")) {
            Some(t) => {
                assert(txt == Some(t@));
                let tt = trimmed_chars(t.as_str());
                if tt.len() > 0 {
                    parts.push(tt);
                    assert(views(parts@) =~= before.push(trim(t@)));
                } else {
                    assert(views(parts@) =~= before);
                }
            },
            None => {
                assert(txt is None);
                assert(views(parts@) =~= before);
            },
        }
        assert(views(parts@) =~= start + block_texts(blocks@.take(i + 1)));
        i = i + 1;
    }
    assert(blocks@.take(blocks.len() as int) =~= blocks@);
}

/// The answer of a responses-API response (`responses_text`); an empty answer
/// is a parse error.
pub fn responses_response_text(v: &JsonValue) -> (r: Result<String, GscholarError>)
    ensures
        responses_text(*v).len() == 0 ==> is_parse_error(r, "Empty responses API response content"@),
        responses_text(*v).len() > 0 ==> (r matches Ok(s) && s@ == responses_text(*v)),
{
    match json_str_exec(json_get_exec(v, "output_text")) {
        Some(t) => {
            let tt = trimmed_chars(t.as_str());
            if tt.len() > 0 {
                return Ok(string_of(&tt));
            }
        },
        None => {},
    }
    let mut parts: Vec<Vec<char>> = Vec::new();
    let ghost items_seq: Seq<JsonValue> = match json_array(json_get(*v, "output"@)) {
        Some(items) => items,
        None => Seq::empty(),
    };
    match json_get_exec(v, "output") {
        Some(JsonValue::Array(items)) => {
            let mut i: usize = 0;
            assert(items@.take(0) =~= Seq::<JsonValue>::empty());
            assert(views(parts@) =~= item_texts(items@.take(0)));
            while i < items.len()
                invariant
                    i <= items.len(),
                    views(parts@) == item_texts(items@.take(i as int)),
                decreases items.len() - i,
            {
                assert(items@.take(i + 1).drop_last() =~= items@.take(i as int));
                assert(items@.take(i + 1).last() == items@[i as int]);
                match json_get_exec(&items[i], "content") {
                    Some(JsonValue::Array(blocks)) => {
                        push_block_texts(blocks, &mut parts);
                    },
                    _ => {
                        assert(views(parts@) =~= item_texts(items@.take(i as int)) + Seq::<
                            Seq<char>,
                        >::empty());
                    },
                }
                i = i + 1;
            }
            assert(items@.take(items.len() as int) =~= items@);
        },
        _ => {
            assert(views(parts@) =~= Seq::<Seq<char>>::empty());
        },
    }
    let nl = vec!['\n'];
    assert(nl@ =~= seq!['\n']);
    let joined = trim_chars(&join_chars(&parts, &nl));
    if joined.len() == 0 {
        Err(GscholarError::Parse(String::from_str("Empty responses API response content")))
    } else {
        Ok(string_of(&joined))
    }
}

// ---------------------------------------------------------------------------
// Request payloads
// ---------------------------------------------------------------------------

/// A chat message: a role and its text.
#[derive(Debug, Clone)]
pub struct ChatMessage {
    pub role: String,
    pub content: String,
}

/// `v` is the string `s`.
pub open spec fn is_str(v: JsonValue, s: Seq<char>) -> bool {
    v matches JsonValue::Str(x) && x@ == s
}

/// `v` is `{"role": role, "content": content}`.
pub open spec fn is_chat_message_json(v: JsonValue, m: ChatMessage) -> bool {
    v matches JsonValue::Object(f) && f@.len() == 2 && f@[0].0@ == "role"@ && is_str(
        f@[0].1,
        m.role@,
    ) && f@[1].0@ == "content"@ && is_str(f@[1].1, m.content@)
}

/// `v` is `{"role": role, "content": [{"type": "input_text", "text":
/// content}]}`.
pub open spec fn is_input_message_json(v: JsonValue, m: ChatMessage) -> bool {
    v matches JsonValue::Object(f) && f@.len() == 2 && f@[0].0@ == "role"@ && is_str(
        f@[0].1,
        m.role@,
    ) && f@[1].0@ == "content"@ && (f@[1].1 matches JsonValue::Array(blocks) && blocks@.len()
        == 1 && (blocks@[0] matches JsonValue::Object(g) && g@.len() == 2 && g@[0].0@ == "type"@
        && is_str(g@[0].1, "input_text"@) && g@[1].0@ == "text"@ && is_str(g@[1].1, m.content@)))
}

/// The request body for `messages`: for chat completions
/// `{"model", "messages": [{"role", "content"}..], "stream": false}`; for the
/// responses API `{"model", "input": [{"role", "content": [{"type":
/// "input_text", "text"}]}..]}`.
pub open spec fn is_payload(v: JsonValue, model: Seq<char>, t: InterfaceType, msgs: Seq<ChatMessage>) -> bool {
    v matches JsonValue::Object(f) && f@.len() >= 2 && f@[0].0@ == "model"@ && is_str(f@[0].1, model)
        && match t {
        InterfaceType::ChatCompletions => f@.len() == 3 && f@[1].0@ == "messages"@ && (
        f@[1].1 matches JsonValue::Array(a) && a@.len() == msgs.len() && forall|i: int|
            0 <= i < msgs.len() ==> is_chat_message_json(#[trigger] a@[i], msgs[i]))
            && f@[2].0@ == "stream"@ && f@[2].1 == JsonValue::Bool(false),
        InterfaceType::Responses => f@.len() == 2 && f@[1].0@ == "input"@ && (
        f@[1].1 matches JsonValue::Array(a) && a@.len() == msgs.len() && forall|i: int|
            0 <= i < msgs.len() ==> is_input_message_json(#[trigger] a@[i], msgs[i])),
    }
}

fn json_string(s: &String) -> (r: JsonValue)
    ensures
        is_str(r, s@),
{
    JsonValue::Str(s.clone())
}

impl OpenAiCompatibleProvider {
    /// The request body for one user message with text `prompt`.
    pub fn build_payload_for_test(&self, prompt: &str) -> (r: JsonValue)
        ensures
            exists|m: ChatMessage|
                m.role@ == "user"@ && m.content@ == prompt@ && #[trigger] is_payload(
                    r,
                    self.runtime.model@,
                    self.interface_type,
                    seq![m],
                ),
    {
        let m = ChatMessage { role: String::from_str("user"), content: string_of(&chars_of(prompt)) };
        let ghost gm = m;
        let v = vec![m];
        assert(v@ =~= seq![gm]);
        let r = self.build_payload(v);
        assert(is_payload(r, self.runtime.model@, self.interface_type, seq![gm]));
        r
    }

    /// The request body for `messages` (`is_payload`).
    pub fn build_payload(&self, messages: Vec<ChatMessage>) -> (r: JsonValue)
        ensures
            is_payload(r, self.runtime.model@, self.interface_type, messages@),
    {
        let mut list: Vec<JsonValue> = Vec::new();
        let mut i: usize = 0;
        while i < messages.len()
            invariant
                i <= messages.len(),
                list@.len() == i,
                forall|j: int|
                    0 <= j < i ==> match self.interface_type {
                        InterfaceType::ChatCompletions => is_chat_message_json(
                            #[trigger] list@[j],
                            messages@[j],
                        ),
                        InterfaceType::Responses => is_input_message_json(list@[j], messages@[j]),
                    },
            decreases messages.len() - i,
        {
            let m = &messages[i];
            let item = match self.interface_type {
                InterfaceType::ChatCompletions => JsonValue::Object(
                    vec![
                        (String::from_str("role"), json_string(&m.role)),
                        (String::from_str("content"), json_string(&m.content)),
                    ],
                ),
                InterfaceType::Responses => {
                    let block = JsonValue::Object(
                        vec![
                            (String::from_str("type"), JsonValue::Str(String::from_str("input_text"))),
                            (String::from_str("text"), json_string(&m.content)),
                        ],
                    );
                    JsonValue::Object(
                        vec![
                            (String::from_str("role"), json_string(&m.role)),
                            (String::from_str("content"), JsonValue::Array(vec![block])),
                        ],
                    )
                },
            };
            list.push(item);
            i = i + 1;
        }
        let model = (String::from_str("model"), json_string(&self.runtime.model));
        match self.interface_type {
            InterfaceType::ChatCompletions => JsonValue::Object(
                vec![
                    model,
                    (String::from_str("messages"), JsonValue::Array(list)),
                    (String::from_str("stream"), JsonValue::Bool(false)),
                ],
            ),
            InterfaceType::Responses => JsonValue::Object(
                vec![model, (String::from_str("input"), JsonValue::Array(list))],
            ),
        }
    }

    /// The answer of a chat-completions response body (`chat_text` of the
    /// parsed body); a body that does not parse, or an empty answer, is a parse
    /// error.
    pub fn parse_chat_response(body: &str) -> (r: Result<String, GscholarError>)
        ensures
            match json_parse(body@) {
                Ok(v) => (chat_text(v).len() == 0 ==> is_parse_error(
                    r,
                    "Empty chat completion response content"@,
                )) && (chat_text(v).len() > 0 ==> (r matches Ok(s) && s@ == chat_text(v))),
                Err(m) => is_parse_error(r, "Failed to parse chat response: "@ + m),
            },
    {
        match parse_json(body) {
            Ok(v) => chat_response_text(&v),
            Err(e) => {
                let msg = concat(&chars_of("Failed to parse chat response: "), &chars_of(e.as_str()));
                Err(GscholarError::Parse(string_of(&msg)))
            },
        }
    }

    /// The answer of a responses-API response body (`responses_text` of the
    /// parsed body); a body that does not parse, or an empty answer, is a parse
    /// error.
    pub fn parse_responses_response(body: &str) -> (r: Result<String, GscholarError>)
        ensures
            match json_parse(body@) {
                Ok(v) => (responses_text(v).len() == 0 ==> is_parse_error(
                    r,
                    "Empty responses API response content"@,
                )) && (responses_text(v).len() > 0 ==> (r matches Ok(s) && s@ == responses_text(
                    v,
                ))),
                Err(m) => is_parse_error(r, "Failed to parse responses API response: "@ + m),
            },
    {
        match parse_json(body) {
            Ok(v) => responses_response_text(&v),
            Err(e) => {
                let msg = concat(
                    &chars_of("Failed to parse responses API response: "),
                    &chars_of(e.as_str()),
                );
                Err(GscholarError::Parse(string_of(&msg)))
            },
        }
    }

    /// The answer of a response body, read as the provider's interface
    /// answers.
    pub fn parse_response_body(&self, body: &str) -> (r: Result<String, GscholarError>)
        ensures
            match json_parse(body@) {
                Ok(v) => match self.interface_type {
                    InterfaceType::ChatCompletions => (chat_text(v).len() == 0 ==> is_parse_error(
                        r,
                        "Empty chat completion response content"@,
                    )) && (chat_text(v).len() > 0 ==> (r matches Ok(s) && s@ == chat_text(v))),
                    InterfaceType::Responses => (responses_text(v).len() == 0 ==> is_parse_error(
                        r,
                        "Empty responses API response content"@,
                    )) && (responses_text(v).len() > 0 ==> (r matches Ok(s) && s@
                        == responses_text(v))),
                },
                Err(m) => match self.interface_type {
                    InterfaceType::ChatCompletions => is_parse_error(
                        r,
                        "Failed to parse chat response: "@ + m,
                    ),
                    InterfaceType::Responses => is_parse_error(
                        r,
                        "Failed to parse responses API response: "@ + m,
                    ),
                },
            },
    {
        match self.interface_type {
            InterfaceType::ChatCompletions => Self::parse_chat_response(body),
            InterfaceType::Responses => Self::parse_responses_response(body),
        }
    }

    /// The answer in a parsed response body, read as the provider's interface
    /// answers.
    pub fn response_text(&self, v: &JsonValue) -> (r: Result<String, GscholarError>)
        ensures
            match self.interface_type {
                InterfaceType::ChatCompletions => (chat_text(*v).len() == 0 ==> is_parse_error(
                    r,
                    "Empty chat completion response content"@,
                )) && (chat_text(*v).len() > 0 ==> (r matches Ok(s) && s@ == chat_text(*v))),
                InterfaceType::Responses => (responses_text(*v).len() == 0 ==> is_parse_error(
                    r,
                    "Empty responses API response content"@,
                )) && (responses_text(*v).len() > 0 ==> (r matches Ok(s) && s@ == responses_text(
                    *v,
                ))),
            },
    {
        match self.interface_type {
            InterfaceType::ChatCompletions => chat_response_text(v),
            InterfaceType::Responses => responses_response_text(v),
        }
    }
}

} // verus!
