//! Telegram export (`result.json`) reader.
use vstd::prelude::*;
use vstd::string::*;

verus! {

/// A JSON value as this library reads it. A number is kept as its `i64` value when it is an
/// integer that fits, else as `None`; an object keeps its members in order.
#[derive(Debug)]
pub enum JsonValue {
    Null,
    Bool(bool),
    Number(Option<i64>),
    String(String),
    Array(Vec<JsonValue>),
    Object(Vec<(String, JsonValue)>),
}

/// One imported message.
#[derive(Debug, Clone)]
pub struct TelegramMessage {
    pub id: i64,
    pub date: Option<String>,
    pub from: Option<String>,
    pub text: String,
}

/// One imported chat.
#[derive(Debug, Clone)]
pub struct TelegramChat {
    pub name: String,
    pub messages: Vec<TelegramMessage>,
}

/// The chats of an export and the number of messages in all of them.
#[derive(Debug, Clone)]
pub struct ImportResult {
    pub chats: Vec<TelegramChat>,
    pub total_messages: usize,
}

/// A message as values: (id, date, sender, text).
pub type MessageSpec = (i64, Option<Seq<char>>, Option<Seq<char>>, Seq<char>);

/// A chat as values: (name, messages).
pub type ChatSpec = (Seq<char>, Seq<MessageSpec>);

/// The value of the first member named `key`, when `v` is an object that has one.
pub open spec fn members_get(es: Seq<(String, JsonValue)>, key: Seq<char>) -> Option<JsonValue>
    decreases es.len(),
{
    if es.len() == 0 {
        None
    } else if es[0].0@ == key {
        Some(es[0].1)
    } else {
        members_get(es.drop_first(), key)
    }
}

/// `v[key]` for an object, `None` for any other value or a missing member.
pub open spec fn get_spec(v: Option<JsonValue>, key: Seq<char>) -> Option<JsonValue> {
    match v {
        Some(JsonValue::Object(es)) => members_get(es@, key),
        _ => None,
    }
}

/// The text of a string value.
pub open spec fn as_str_spec(v: Option<JsonValue>) -> Option<Seq<char>> {
    match v {
        Some(JsonValue::String(s)) => Some(s@),
        _ => None,
    }
}

/// The text of one part of a formatted message: a string, or the `text` member of an object.
pub open spec fn part_text(p: JsonValue) -> Option<Seq<char>> {
    match as_str_spec(Some(p)) {
        Some(s) => Some(s),
        None => as_str_spec(get_spec(Some(p), "text"@)),
    }
}

/// The texts of the parts, joined.
pub open spec fn parts_text(ps: Seq<JsonValue>) -> Seq<char>
    decreases ps.len(),
{
    if ps.len() == 0 {
        Seq::empty()
    } else {
        parts_text(ps.drop_last()) + match part_text(ps.last()) {
            Some(t) => t,
            None => Seq::empty(),
        }
    }
}

/// A message's text: its `text` member as a string, or joined from an array of parts, else empty.
pub open spec fn message_text(m: JsonValue) -> Seq<char> {
    match get_spec(Some(m), "text"@) {
        Some(JsonValue::String(s)) => s@,
        Some(JsonValue::Array(parts)) => parts_text(parts@),
        _ => Seq::empty(),
    }
}

/// The message read from one element of `messages`: only of `type` `"message"` with a nonempty
/// text; its id (0 when missing or not an `i64`), date and sender.
pub open spec fn message_spec(m: JsonValue) -> Option<MessageSpec> {
    if as_str_spec(get_spec(Some(m), "type"@)) != Some("message"@) {
        None
    } else if message_text(m).len() == 0 {
        None
    } else {
        Some(
            (
                match get_spec(Some(m), "id"@) {
                    Some(JsonValue::Number(Some(i))) => i,
                    _ => 0,
                },
                as_str_spec(get_spec(Some(m), "date"@)),
                as_str_spec(get_spec(Some(m), "from"@)),
                message_text(m),
            ),
        )
    }
}

/// The messages read from a `messages` array, in order.
pub open spec fn messages_spec(ms: Seq<JsonValue>) -> Seq<MessageSpec>
    decreases ms.len(),
{
    if ms.len() == 0 {
        Seq::empty()
    } else {
        let prev = messages_spec(ms.drop_last());
        match message_spec(ms.last()) {
            Some(x) => prev.push(x),
            None => prev,
        }
    }
}

/// The chat read from one element of the chat list: its `name` (`"Chat"` when missing) and
/// the messages of its `messages` array (none when missing).
pub open spec fn chat_spec(c: JsonValue) -> ChatSpec {
    (
        match as_str_spec(get_spec(Some(c), "name"@)) {
            Some(n) => n,
            None => "Chat"@,
        },
        match get_spec(Some(c), "messages"@) {
            Some(JsonValue::Array(ms)) => messages_spec(ms@),
            _ => Seq::empty(),
        },
    )
}

/// The chats of an export: those of the array `chats.list`, none when there is no such array.
pub open spec fn chats_spec(v: JsonValue) -> Seq<ChatSpec> {
    match get_spec(get_spec(Some(v), "chats"@), "list"@) {
        Some(JsonValue::Array(cs)) => cs@.map_values(|c: JsonValue| chat_spec(c)),
        _ => Seq::empty(),
    }
}

/// The number of messages in all chats.
pub open spec fn total_spec(cs: Seq<ChatSpec>) -> nat
    decreases cs.len(),
{
    if cs.len() == 0 {
        0
    } else {
        total_spec(cs.drop_last()) + cs.last().1.len()
    }
}

/// An optional string as optional text.
pub open spec fn opt_text(o: Option<String>) -> Option<Seq<char>> {
    match o {
        Some(s) => Some(s@),
        None => None,
    }
}

/// A message's values.
pub open spec fn message_view(m: TelegramMessage) -> MessageSpec {
    (m.id, opt_text(m.date), opt_text(m.from), m.text@)
}

/// A chat's values.
pub open spec fn chat_view(c: TelegramChat) -> ChatSpec {
    (c.name@, c.messages@.map_values(|m: TelegramMessage| message_view(m)))
}

fn json_get<'a>(v: &'a JsonValue, key: &str) -> (r: Option<&'a JsonValue>)
    ensures
        match r {
            Some(x) => get_spec(Some(*v), key@) == Some(*x),
            None => get_spec(Some(*v), key@) is None,
        },
{
    match v {
        JsonValue::Object(es) => {
            let k = String::from_str(key);
            let n = es.len();
            let mut i: usize = 0;
            assert(es@.subrange(0, n as int) =~= es@);
            while i < n
                invariant
                    n == es@.len(),
                    i <= n,
                    k@ == key@,
                    get_spec(Some(*v), key@) == members_get(es@, key@),
                    members_get(es@, key@) == members_get(es@.subrange(i as int, n as int), key@),
                decreases n - i,
            {
                let ghost rest = es@.subrange(i as int, n as int);
                assert(rest[0] == es@[i as int]);
                assert(rest.drop_first() =~= es@.subrange(i + 1, n as int));
                if es[i].0 == k {
                    assert(members_get(rest, key@) == Some(rest[0].1));
                    return Some(&es[i].1);
                }
                i = i + 1;
            }
            None
        },
        _ => None,
    }
}

fn json_str(v: Option<&JsonValue>) -> (r: Option<String>)
    ensures
        opt_text(r) == as_str_spec(match v {
            Some(x) => Some(*x),
            None => None,
        }),
{
    match v {
        Some(JsonValue::String(s)) => Some(s.clone()),
        _ => None,
    }
}

fn json_text_of(m: &JsonValue) -> (r: String)
    ensures
        r@ == message_text(*m),
{
    match json_get(m, "text") {
        Some(JsonValue::String(s)) => s.clone(),
        Some(JsonValue::Array(parts)) => {
            let mut out = String::new();
            let n = parts.len();
            let mut i: usize = 0;
            while i < n
                invariant
                    n == parts@.len(),
                    i <= n,
                    out@ == parts_text(parts@.subrange(0, i as int)),
                decreases n - i,
            {
                let p = &parts[i];
                let t = match json_str(Some(p)) {
                    Some(s) => Some(s),
                    None => json_str(json_get(p, "text")),
                };
                match t {
                    Some(s) => out.append(s.as_str()),
                    None => {},
                }
                assert(parts@.subrange(0, i + 1).drop_last() =~= parts@.subrange(0, i as int));
                i = i + 1;
            }
            assert(parts@.subrange(0, n as int) =~= parts@);
            out
        },
        _ => String::new(),
    }
}

fn read_message(m: &JsonValue) -> (r: Option<TelegramMessage>)
    ensures
        match r {
            Some(x) => message_spec(*m) == Some(message_view(x)),
            None => message_spec(*m) is None,
        },
{
    let ty = json_str(json_get(m, "type"));
    let is_message = match &ty {
        Some(t) => *t == String::from_str("message"),
        None => false,
    };
    proof { reveal_strlit("message"); }
    if !is_message {
        return None;
    }
    let text = json_text_of(m);
    if text.as_str().is_empty() {
        return None;
    }
    let id = match json_get(m, "id") {
        Some(JsonValue::Number(Some(i))) => *i,
        _ => 0,
    };
    Some(TelegramMessage { id, date: json_str(json_get(m, "date")), from: json_str(json_get(m, "from")), text })
}

fn read_chat(c: &JsonValue) -> (r: TelegramChat)
    ensures
        chat_view(r) == chat_spec(*c),
{
    let name = match json_str(json_get(c, "name")) {
        Some(n) => n,
        None => String::from_str("Chat"),
    };
    let mut messages: Vec<TelegramMessage> = Vec::new();
    match json_get(c, "messages") {
        Some(JsonValue::Array(ms)) => {
            let n = ms.len();
            let mut i: usize = 0;
            while i < n
                invariant
                    n == ms@.len(),
                    i <= n,
                    messages@.map_values(|m: TelegramMessage| message_view(m)) == messages_spec(ms@.subrange(0, i as int)),
                decreases n - i,
            {
                let got = read_message(&ms[i]);
                assert(ms@.subrange(0, i + 1).drop_last() =~= ms@.subrange(0, i as int));
                match got {
                    Some(x) => {
                        messages.push(x);
                    },
                    None => {},
                }
                assert(messages@.map_values(|m: TelegramMessage| message_view(m)) =~= messages_spec(
                    ms@.subrange(0, i + 1),
                ));
                i = i + 1;
            }
            assert(ms@.subrange(0, n as int) =~= ms@);
        },
        _ => {
            assert(messages@.map_values(|m: TelegramMessage| message_view(m)) =~= Seq::<MessageSpec>::empty());
        },
    }
    TelegramChat { name, messages }
}

#[verifier::external_type_specification]
#[verifier::external_body]
pub struct ExSerdeJsonValue(serde_json::Value);

/// JSON text parsed by `serde_json::from_str::<Value>` and read as a `JsonValue` (see
/// `parse_json`); `None` when the text is not JSON.
pub uninterp spec fn json_parse(text: Seq<char>) -> Option<JsonValue>;

/// A `serde_json::Value` as a `JsonValue`, variant by variant: numbers by `as_i64`, objects
/// with their members in the order `serde_json` keeps them.
#[verifier::external_body]
fn json_value_of(v: &serde_json::Value) -> JsonValue {
    match v {
        serde_json::Value::Null => JsonValue::Null,
        serde_json::Value::Bool(b) => JsonValue::Bool(*b),
        serde_json::Value::Number(n) => JsonValue::Number(n.as_i64()),
        serde_json::Value::String(s) => JsonValue::String(s.clone()),
        serde_json::Value::Array(a) => JsonValue::Array(a.iter().map(json_value_of).collect()),
        serde_json::Value::Object(m) => JsonValue::Object(m.iter().map(|(k, x)| (k.clone(), json_value_of(x))).collect()),
    }
}

/// `serde_json::from_str::<Value>` of `text`, read as a `JsonValue`: the named parse. The
/// error, when the text is not JSON, is `serde_json`'s message.
#[verifier::external_body]
fn parse_json(text: &str) -> (r: Result<JsonValue, String>)
    ensures
        r is Err <==> json_parse(text@) is None,
        r matches Ok(v) ==> json_parse(text@) == Some(v),
{
    let v: serde_json::Value = serde_json::from_str(text).map_err(|e| e.to_string())?;
    Ok(json_value_of(&v))
}

/// Telegram export reader.
pub struct TelegramImporter;

impl TelegramImporter {
    /// Reads a Telegram export (`result.json`): an error when the text is not JSON (with
    /// `serde_json`'s message) or its message count does not fit a `usize`; otherwise the
    /// chats of the parsed export, as `from_value` reads them.
    pub fn from_json(json: &str) -> (r: Result<ImportResult, String>)
        ensures
            json_parse(json@) is None ==> r is Err,
            json_parse(json@) matches Some(v) ==> (r is Ok <==> total_spec(chats_spec(v)) <= usize::MAX),
            json_parse(json@) matches Some(v) ==> (r matches Ok(res) ==> res.chats@.map_values(
                |c: TelegramChat| chat_view(c),
            ) == chats_spec(v) && res.total_messages == total_spec(chats_spec(v))),
    {
        match parse_json(json) {
            Ok(v) => Self::from_value(&v),
            Err(e) => Err(e),
        }
    }

    /// Reads the chats of a parsed export (see `chats_spec`) and counts their messages; an
    /// error when the count does not fit a `usize`.
    pub fn from_value(v: &JsonValue) -> (r: Result<ImportResult, String>)
        ensures
            r is Ok <==> total_spec(chats_spec(*v)) <= usize::MAX,
            r matches Ok(res) ==> res.chats@.map_values(|c: TelegramChat| chat_view(c)) == chats_spec(*v)
                && res.total_messages == total_spec(chats_spec(*v)),
            r matches Err(e) ==> e@ == "too many messages"@,
    {
        let mut chats: Vec<TelegramChat> = Vec::new();
        let mut total: usize = 0;
        let list = match json_get(v, "chats") {
            Some(c) => json_get(c, "list"),
            None => None,
        };
        match list {
            Some(JsonValue::Array(cs)) => {
                let n = cs.len();
                let mut i: usize = 0;
                while i < n
                    invariant
                        n == cs@.len(),
                        i <= n,
                        chats@.map_values(|c: TelegramChat| chat_view(c)) == cs@.subrange(0, i as int).map_values(
                            |c: JsonValue| chat_spec(c),
                        ),
                        total == total_spec(chats@.map_values(|c: TelegramChat| chat_view(c))),
                        chats_spec(*v) == cs@.map_values(|c: JsonValue| chat_spec(c)),
                    decreases n - i,
                {
                    let chat = read_chat(&cs[i]);
                    let ghost before = chats@.map_values(|c: TelegramChat| chat_view(c));
                    proof {
                        lemma_total_prefix(cs@.map_values(|c: JsonValue| chat_spec(c)), i + 1);
                        assert(cs@.map_values(|c: JsonValue| chat_spec(c)).subrange(0, i + 1) =~= cs@.subrange(
                            0,
                            i + 1,
                        ).map_values(|c: JsonValue| chat_spec(c)));
                        assert(cs@.subrange(0, i + 1).map_values(|c: JsonValue| chat_spec(c)) =~= before.push(
                            chat_view(chat),
                        ));
                        assert(before.push(chat_view(chat)).drop_last() =~= before);
                    }
                    total = match total.checked_add(chat.messages.len()) {
                        Some(t) => t,
                        None => {
                            proof {
                                assert(before.push(chat_view(chat)).last() == chat_view(chat));
                                assert(total_spec(before.push(chat_view(chat))) > usize::MAX);
                            }
                            return Err(String::from_str("too many messages"));
                        },
                    };
                    chats.push(chat);
                    assert(chats@.map_values(|c: TelegramChat| chat_view(c)) =~= before.push(chat_view(chat)));
                    i = i + 1;
                }
                assert(cs@.subrange(0, n as int) =~= cs@);
            },
            _ => {
                assert(chats@.map_values(|c: TelegramChat| chat_view(c)) =~= Seq::<ChatSpec>::empty());
            },
        }
        Ok(ImportResult { chats, total_messages: total })
    }
}

proof fn lemma_total_prefix(cs: Seq<ChatSpec>, k: int)
    requires
        0 <= k <= cs.len(),
    ensures
        total_spec(cs.subrange(0, k)) <= total_spec(cs),
    decreases cs.len(),
{
    if k < cs.len() {
        assert(cs.drop_last().subrange(0, k) =~= cs.subrange(0, k));
        lemma_total_prefix(cs.drop_last(), k);
    } else {
        assert(cs.subrange(0, k) =~= cs);
    }
}


/// Message totals add up: the total of chats `a` followed by chats `b` is the total of `a` plus
/// the total of `b`; a single chat counts its own messages and no chats count none. So the
/// total of an import is the sum, over its chats, of their message counts.
pub proof fn law_total_is_sum(a: Seq<ChatSpec>, b: Seq<ChatSpec>, c: ChatSpec)
    ensures
        total_spec(a + b) == total_spec(a) + total_spec(b),
        total_spec(seq![c]) == c.1.len(),
        total_spec(Seq::<ChatSpec>::empty()) == 0,
        total_spec(a.push(c)) == total_spec(a) + c.1.len(),
    decreases b.len(),
{
    assert(seq![c].drop_last() =~= Seq::<ChatSpec>::empty());
    assert(total_spec(Seq::<ChatSpec>::empty()) == 0);
    assert(seq![c].last() == c);
    assert(total_spec(seq![c]) == total_spec(seq![c].drop_last()) + c.1.len());
    assert(a.push(c).drop_last() =~= a);
    if b.len() == 0 {
        assert(a + b =~= a);
    } else {
        law_total_is_sum(a, b.drop_last(), c);
        assert((a + b).drop_last() =~= a + b.drop_last());
        assert((a + b).last() == b.last());
    }
}

} // verus!
