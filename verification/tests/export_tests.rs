use pepperhash::export::{parse_ledger, to_json_pretty};
use pepperhash::session::App;

fn type_str(app: &mut App, s: &str) {
    for c in s.chars() {
        app.enter_char(c);
    }
}

#[test]
fn empty_ledger_exports_empty_document() {
    let document = to_json_pretty(&Vec::new());
    assert_eq!(document, "[]");
    let serde_form = serde_json::to_string_pretty(&Vec::<Vec<String>>::new()).unwrap();
    assert_eq!(document, serde_form);
}

#[test]
fn export_matches_serde_pretty_form() {
    let entries = vec![String::from("aa,bb"), String::from("cc,dd")];
    let document = to_json_pretty(&entries);
    let as_arrays: Vec<Vec<String>> = entries.iter().map(|e| vec![e.clone()]).collect();
    let serde_form = serde_json::to_string_pretty(&as_arrays).unwrap();
    assert_eq!(document, serde_form);
}

#[test]
fn export_then_reload_recovers_ledger() {
    let mut app = App::new();
    type_str(&mut app, "first secret");
    app.submit_input().unwrap();
    type_str(&mut app, "z\u{f6}e");
    app.submit_input().unwrap();
    type_str(&mut app, "third");
    app.submit_input().unwrap();
    let document = to_json_pretty(&app.secrets);
    let reloaded = parse_ledger(document.as_str()).unwrap();
    assert_eq!(reloaded, app.secrets);
    // The document is plain JSON: an independent parser reads the same records.
    let via_serde: Vec<Vec<String>> = serde_json::from_str(document.as_str()).unwrap();
    let flattened: Vec<String> = via_serde.into_iter().map(|mut v| v.remove(0)).collect();
    assert_eq!(flattened, app.secrets);
}

#[test]
fn single_entry_document_layout() {
    let entries = vec![String::from("ab,cd")];
    let document = to_json_pretty(&entries);
    assert_eq!(document, "[\n  [\n    \"ab,cd\"\n  ]\n]");
    assert_eq!(parse_ledger(document.as_str()), Some(entries));
}

#[test]
fn parser_rejects_malformed_documents() {
    assert_eq!(parse_ledger(""), None);
    assert_eq!(parse_ledger("["), None);
    assert_eq!(parse_ledger("[\n]"), None);
    assert_eq!(parse_ledger("nonsense"), None);
    assert_eq!(parse_ledger("[\n  [\n    \"ab\"\n  ]\n"), None);
    assert_eq!(parse_ledger("[\n  [\n    \"ab\"\n  ],\n]"), None);
}
