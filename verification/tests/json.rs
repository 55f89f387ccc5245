//! JSON trees: reading, writing and building them.

use trouper::actor::EventSourcedActor;
use trouper::envelope::Event;
use trouper::envelope::Events;
use trouper::envelope::IntoEvent;
use trouper::envelope::Payload;
use trouper::journal::JournalError;
use trouper::json::bool_text;
use trouper::json::signed_text;
use trouper::json::with_member;
use trouper::json::Json;
use trouper::json::JsonNumber;
use trouper::json::JsonTree;
use trouper::schema::Schema;
use trouper::schema::SchemaDef;
use trouper::schema::SchemaKind;

fn json(text: &str) -> Json {
    Json::from_slice(text.as_bytes()).expect("JSON text")
}

#[test]
fn text_reads_as_the_tree_it_encodes() {
    let tree = json(r#"{ "n": 3, "why": "because", "list": [true, null, -2, 1.5] }"#);

    assert_eq!(tree.tree().get("n").and_then(|v| v.as_u64()), Some(3));
    assert_eq!(tree.tree().get("why").and_then(|v| v.as_str()), Some("because"));
    match tree.tree().get("list").expect("list") {
        JsonTree::Array(items) => {
            assert_eq!(items[0].as_bool(), Some(true));
            assert_eq!(items[1], JsonTree::Null);
            assert_eq!(items[2].as_i64(), Some(-2));
            assert_eq!(items[2].as_u64(), None);
            assert_eq!(items[3], JsonTree::Number(JsonNumber::Float("1.5".to_owned())));
        }
        _ => panic!("expected an array"),
    }
}

#[test]
fn a_written_tree_reads_back() {
    let tree = json(r#"{"b":[1,{"c":"\n"}],"a":-9223372036854775808,"z":18446744073709551615}"#);

    let text = tree.to_vec();

    assert_eq!(Json::from_slice(&text).expect("reads back"), tree);
    assert_eq!(text, br#"{"a":-9223372036854775808,"b":[1,{"c":"\n"}],"z":18446744073709551615}"#);
}

#[test]
fn malformed_text_is_no_tree() {
    assert!(Json::from_slice(b"{").is_none());
    assert!(Json::from_slice(b"").is_none());
    assert!(Json::from_slice(&[0x22, 0xff, 0x22]).is_none());
}

#[test]
fn scalars_have_a_text_form_and_containers_do_not() {
    assert_eq!(json(r#""a b""#).tree().to_string_form(), Some("a b".to_owned()));
    assert_eq!(json("-7").tree().to_string_form(), Some("-7".to_owned()));
    assert_eq!(json("18446744073709551615").tree().to_string_form(), Some("18446744073709551615".to_owned()));
    assert_eq!(json("true").tree().to_string_form(), Some("true".to_owned()));
    assert_eq!(json("null").tree().to_string_form(), None);
    assert_eq!(json("[1]").tree().to_string_form(), None);
    assert_eq!(json("{}").tree().to_string_form(), None);
}

#[test]
fn numbers_render_as_floats_where_a_float_is_asked_for() {
    assert_eq!(JsonNumber::PosInt(3).to_float_text(), Some("3".to_owned()));
    assert_eq!(JsonNumber::NegInt(-3).to_float_text(), Some("-3".to_owned()));
    assert_eq!(JsonNumber::Float("2.50".to_owned()).to_float_text(), Some("2.5".to_owned()));
    assert_eq!(JsonNumber::Float("1e3".to_owned()).to_float_text(), Some("1000".to_owned()));
    assert_eq!(JsonNumber::Float("not a number".to_owned()).to_float_text(), None);
}

#[test]
fn small_values_render_in_decimal() {
    assert_eq!(signed_text(i64::MIN), "-9223372036854775808");
    assert_eq!(signed_text(0), "0");
    assert_eq!(signed_text(42), "42");
    assert_eq!(bool_text(true), "true");
    assert_eq!(bool_text(false), "false");
}

#[test]
fn setting_a_member_replaces_it_in_place() {
    let members = match json(r#"{"a":1,"b":2}"#).tree() {
        JsonTree::Object(members) => with_member(members, "a", JsonTree::Bool(true)),
        _ => panic!("expected an object"),
    };

    assert_eq!(Json::of(JsonTree::Object(members)).to_vec(), br#"{"a":true,"b":2}"#);
}

#[test]
fn copies_are_the_same_tree() {
    let tree = json(r#"{"a":[1,{"b":null}]}"#);

    assert!(tree.tree().copy().same(tree.tree()));
    assert!(!tree.tree().same(json("{}").tree()));
    assert_eq!(tree.clone(), tree);
}

#[test]
fn text_values_are_quoted_and_defaults_are_null() {
    assert_eq!(Json::text("hi \"you\"").to_vec(), br#""hi \"you\"""#);
    assert_eq!(Json::default().to_vec(), b"null");
    assert_eq!(Payload::default().json(), Json::default());
}

#[test]
fn json_survives_serde_roundtrip_transparently() {
    let value = json(r#"{ "seq": 12, "name": "j" }"#);

    let text = value.to_vec();
    let round = Json::from_slice(&text).expect("deserialize");

    assert_eq!(round, value);
}

struct Pong {
    n: i64,
}

impl Schema for Pong {
    fn schema_def() -> SchemaDef {
        SchemaDef { name: "Pong".into(), kind: SchemaKind::Event, fields: vec![], description: None }
    }
}

impl IntoEvent for Pong {
    fn into_payload(self) -> Payload {
        Payload::json_view(json(&format!("{{\"n\":{}}}", self.n)))
    }
}

struct Pinger {
    seen: i64,
}

impl EventSourcedActor for Pinger {
    fn restore(args: &Json) -> Self {
        Pinger { seen: args.tree().get("start").and_then(|s| s.as_i64()).unwrap_or(0) }
    }

    fn apply(&mut self, event: &Event) {
        if event.is::<Pong>() {
            self.seen = event.payload_json().tree().get("n").and_then(|n| n.as_i64()).unwrap_or(0);
        }
    }

    fn capture(&self) -> Result<Json, JournalError> {
        Err(JournalError::Snapshot)
    }

    fn restore_from(_snapshot: &Json) -> Result<Self, JournalError> {
        Err(JournalError::Restore)
    }
}

#[test]
fn restores_folds_and_decides_without_naming_serde_json() {
    let args = json(r#"{ "start": 9 }"#);
    let mut actor = Pinger::restore(&args);
    assert_eq!(actor.seen, 9);

    let event = Pong { n: 12 }.into_event();
    actor.apply(&event);
    let decision = Events::one(Pong { n: 4 });

    assert_eq!(actor.seen, 12);
    assert_eq!(decision.as_slice().len(), 1);
    let n = decision.as_slice()[0].payload_json().tree().get("n").and_then(|n| n.as_i64());
    assert_eq!(n, Some(4));
}
