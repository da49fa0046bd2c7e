//! WhatsApp chat export (`.txt`) reader.
use vstd::prelude::*;
use vstd::string::*;
use crate::text::{trim, trim_spec};

verus! {

/// The groups 1, 2 and 3 of every non-overlapping match, in order, of the regular expression
/// `pattern` in `text` (`Regex::captures_iter`); a group that took no part is empty text.
pub uninterp spec fn regex_captures3(pattern: Seq<char>, text: Seq<char>) -> Seq<(Seq<char>, Seq<char>, Seq<char>)>;

/// Whether `Regex::new` accepts `pattern`: a valid expression within the default size limit.
pub uninterp spec fn regex_compiles(pattern: Seq<char>) -> bool;

/// The texts of three strings.
pub open spec fn triple_view(t: (String, String, String)) -> (Seq<char>, Seq<char>, Seq<char>) {
    (t.0@, t.1@, t.2@)
}

/// `regex::Regex::new(pattern)`, then `captures_iter` over `text`, each match as its groups 1
/// to 3: the named captures. `Regex::new`'s error, when the pattern does not compile, is
/// returned as its message. The crate documents that `Regex::new` fails only on an invalid
/// expression or one beyond the default size limit; the export line pattern is a valid, small
/// expression, so it compiles.
#[verifier::external_body]
fn captures3(pattern: &str, text: &str) -> (r: Result<Vec<(String, String, String)>, String>)
    ensures
        r is Ok <==> regex_compiles(pattern@),
        pattern@ == WHATSAPP_LINE_PATTERN@ ==> r is Ok,
        r matches Ok(v) ==> v@.map_values(|t: (String, String, String)| triple_view(t)) == regex_captures3(
            pattern@,
            text@,
        ),
{
    let re = regex::Regex::new(pattern).map_err(|e| e.to_string())?;
    let group = |c: &regex::Captures, i: usize| c.get(i).map_or(String::new(), |m| m.as_str().to_string());
    Ok(re.captures_iter(text).map(|c| (group(&c, 1), group(&c, 2), group(&c, 3))).collect())
}

/// The line pattern of WhatsApp exports (multi-line mode): a date and time, ` - `, the sender
/// up to the first `:`, white space, and the text to the end of the line.
pub const WHATSAPP_LINE_PATTERN: &'static str = "(?m)^(\\d{1,4}[/.\\-]\\d{1,2}[/.\\-]\\d{1,4},?\\s+\\d{1,2}:\\d{2}(?::\\d{2})?(?:\\s*[APMapm]{2})?)\\s+-\\s+([^:]+):\\s+(.*)$";

/// One imported message.
#[derive(Debug, Clone)]
pub struct WhatsAppMessage {
    pub date: String,
    pub sender: String,
    pub text: String,
}

/// One imported chat.
#[derive(Debug, Clone)]
pub struct WhatsAppChat {
    pub name: String,
    pub messages: Vec<WhatsAppMessage>,
}

/// The chat of an export and its number of messages.
#[derive(Debug, Clone)]
pub struct WhatsAppImportResult {
    pub chat: WhatsAppChat,
    pub total_messages: usize,
}

/// A message's values: (date, sender, text).
pub open spec fn wa_message_view(m: WhatsAppMessage) -> (Seq<char>, Seq<char>, Seq<char>) {
    (m.date@, m.sender@, m.text@)
}

/// The message of one match: its date, its sender without surrounding white space, its text.
pub open spec fn wa_message_of(c: (Seq<char>, Seq<char>, Seq<char>)) -> (Seq<char>, Seq<char>, Seq<char>) {
    (c.0, trim_spec(c.1), c.2)
}

/// WhatsApp export reader.
pub struct WhatsAppImporter;

impl WhatsAppImporter {
    /// Reads an exported chat: one message per match of the line pattern, in order; the chat
    /// is named `name`. Always succeeds: the line pattern compiles.
    pub fn from_text(name: &str, text: &str) -> (r: Result<WhatsAppImportResult, String>)
        ensures
            r is Ok,
            r matches Ok(res) ==> {
                &&& res.chat.name@ == name@
                &&& res.chat.messages@.map_values(|m: WhatsAppMessage| wa_message_view(m)) == regex_captures3(
                    WHATSAPP_LINE_PATTERN@,
                    text@,
                ).map_values(|c: (Seq<char>, Seq<char>, Seq<char>)| wa_message_of(c))
                &&& res.total_messages == res.chat.messages@.len()
            },
    {
        match captures3(WHATSAPP_LINE_PATTERN, text) {
            Ok(caps) => Ok(Self::from_captures(name, caps)),
            Err(e) => Err(e),
        }
    }

    /// The chat named `name` made of one message per capture (date, sender, text): the date,
    /// the sender without surrounding white space, the text; and their number.
    pub fn from_captures(name: &str, caps: Vec<(String, String, String)>) -> (r: WhatsAppImportResult)
        ensures
            r.chat.name@ == name@,
            r.chat.messages@.map_values(|m: WhatsAppMessage| wa_message_view(m)) == caps@.map_values(
                |t: (String, String, String)| triple_view(t),
            ).map_values(|c: (Seq<char>, Seq<char>, Seq<char>)| wa_message_of(c)),
            r.total_messages == r.chat.messages@.len(),
    {
        let ghost cv = caps@.map_values(|t: (String, String, String)| triple_view(t));
        let mut messages: Vec<WhatsAppMessage> = Vec::new();
        let n = caps.len();
        let mut i: usize = 0;
        while i < n
            invariant
                n == caps@.len(),
                i <= n,
                cv == caps@.map_values(|t: (String, String, String)| triple_view(t)),
                messages@.map_values(|m: WhatsAppMessage| wa_message_view(m)) == cv.subrange(0, i as int).map_values(
                    |c: (Seq<char>, Seq<char>, Seq<char>)| wa_message_of(c),
                ),
            decreases n - i,
        {
            let c = &caps[i];
            let m = WhatsAppMessage { date: c.0.clone(), sender: trim(c.1.as_str()), text: c.2.clone() };
            let ghost before = messages@.map_values(|m: WhatsAppMessage| wa_message_view(m));
            assert(cv[i as int] == triple_view(caps@[i as int]));
            assert(wa_message_view(m) == wa_message_of(cv[i as int]));
            let ghost mv = wa_message_view(m);
            messages.push(m);
            assert(messages@.map_values(|m: WhatsAppMessage| wa_message_view(m)) =~= before.push(mv));
            assert(cv.subrange(0, i + 1).map_values(|c: (Seq<char>, Seq<char>, Seq<char>)| wa_message_of(c))
                =~= cv.subrange(0, i as int).map_values(|c: (Seq<char>, Seq<char>, Seq<char>)| wa_message_of(c)).push(mv));
            i = i + 1;
        }
        assert(cv.subrange(0, n as int) =~= cv);
        let total = messages.len();
        WhatsAppImportResult { chat: WhatsAppChat { name: String::from_str(name), messages }, total_messages: total }
    }
}

} // verus!
