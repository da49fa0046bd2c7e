use liberty_core::import::telegram::JsonValue;
use liberty_core::import::{TelegramImporter, WhatsAppImporter};
use liberty_core::text::trim;

fn s(x: &str) -> JsonValue {
    JsonValue::String(x.to_string())
}

fn obj(members: Vec<(&str, JsonValue)>) -> JsonValue {
    JsonValue::Object(members.into_iter().map(|(k, v)| (k.to_string(), v)).collect())
}

#[test]
fn telegram_reads_messages_and_counts() {
    let export = obj(vec![(
        "chats",
        obj(vec![(
            "list",
            JsonValue::Array(vec![
                obj(vec![
                    ("name", s("Family")),
                    (
                        "messages",
                        JsonValue::Array(vec![
                            obj(vec![("id", JsonValue::Number(Some(1))), ("type", s("message")), ("date", s("2024-01-01")), ("from", s("Mom")), ("text", s("hi"))]),
                            obj(vec![("id", JsonValue::Number(Some(2))), ("type", s("service")), ("text", s("joined"))]),
                            obj(vec![("id", JsonValue::Number(Some(3))), ("type", s("message")), ("text", s(""))]),
                            obj(vec![
                                ("type", s("message")),
                                ("text", JsonValue::Array(vec![s("bold "), obj(vec![("type", s("bold")), ("text", s("part"))]), JsonValue::Null])),
                            ]),
                        ]),
                    ),
                ]),
                obj(vec![("messages", JsonValue::Bool(true))]),
            ]),
        )]),
    )]);
    let r = TelegramImporter::from_value(&export).unwrap();
    assert_eq!(r.chats.len(), 2);
    assert_eq!(r.total_messages, 2);
    let fam = &r.chats[0];
    assert_eq!(fam.name, "Family");
    assert_eq!(fam.messages.len(), 2);
    assert_eq!(fam.messages[0].id, 1);
    assert_eq!(fam.messages[0].date.as_deref(), Some("2024-01-01"));
    assert_eq!(fam.messages[0].from.as_deref(), Some("Mom"));
    assert_eq!(fam.messages[0].text, "hi");
    assert_eq!(fam.messages[1].id, 0);
    assert_eq!(fam.messages[1].text, "bold part");
    assert_eq!(fam.messages[1].from, None);
    assert_eq!(r.chats[1].name, "Chat");
    assert!(r.chats[1].messages.is_empty());
}

#[test]
fn telegram_without_chat_list_is_empty() {
    let r = TelegramImporter::from_value(&obj(vec![("about", s("x"))])).unwrap();
    assert!(r.chats.is_empty());
    assert_eq!(r.total_messages, 0);
    let r2 = TelegramImporter::from_value(&JsonValue::Array(vec![])).unwrap();
    assert_eq!(r2.total_messages, 0);
}

#[test]
fn whatsapp_reads_lines() {
    let text = "12/31/23, 9:15 PM - Alice : Happy new year\n\
                random continuation line\n\
                1/1/24, 10:02 - Bob: Thanks: you too\n";
    let r = WhatsAppImporter::from_text("Friends", text).unwrap();
    assert_eq!(r.chat.name, "Friends");
    assert_eq!(r.total_messages, 2);
    assert_eq!(r.chat.messages[0].date, "12/31/23, 9:15 PM");
    assert_eq!(r.chat.messages[0].sender, "Alice");
    assert_eq!(r.chat.messages[0].text, "Happy new year");
    assert_eq!(r.chat.messages[1].sender, "Bob");
    assert_eq!(r.chat.messages[1].text, "Thanks: you too");
}

#[test]
fn whatsapp_empty_text_has_no_messages() {
    let r = WhatsAppImporter::from_text("Empty", "").unwrap();
    assert_eq!(r.total_messages, 0);
    assert!(r.chat.messages.is_empty());
}

#[test]
fn trim_removes_surrounding_white_space() {
    assert_eq!(trim("  a b \t\n"), "a b");
    assert_eq!(trim(""), "");
    assert_eq!(trim("   "), "");
    assert_eq!(trim("\u{3000}x\u{a0}"), "x");
}

#[test]
fn whatsapp_from_captures_trims_sender() {
    let caps = vec![("1/1/24, 10:00".to_string(), "  Ann ".to_string(), "hi".to_string())];
    let r = WhatsAppImporter::from_captures("C", caps);
    assert_eq!(r.chat.name, "C");
    assert_eq!(r.total_messages, 1);
    assert_eq!(r.chat.messages[0].sender, "Ann");
    assert_eq!(r.chat.messages[0].date, "1/1/24, 10:00");
    assert_eq!(r.chat.messages[0].text, "hi");
}

#[test]
fn telegram_from_json_text() {
    let text = r#"{"chats":{"list":[{"name":"Work","messages":[{"id":7,"type":"message","from":"Bo","text":"ok"},{"id":8,"type":"message","text":[{"type":"link","text":"a"},"b"]}]}]}}"#;
    let r = TelegramImporter::from_json(text).unwrap();
    assert_eq!(r.chats.len(), 1);
    assert_eq!(r.total_messages, 2);
    assert_eq!(r.chats[0].name, "Work");
    assert_eq!(r.chats[0].messages[0].id, 7);
    assert_eq!(r.chats[0].messages[1].text, "ab");
    assert!(TelegramImporter::from_json("{not json").is_err());
    assert_eq!(TelegramImporter::from_json("[]").unwrap().total_messages, 0);
}
