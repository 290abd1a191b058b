use ast_grep_lsp::capabilities::{choose_code_action_support, CodeActionSupport};
use ast_grep_lsp::fixes::{ClientDiagnostic, DiagnosticCode};
use ast_grep_lsp::rules::{Rule, Severity};
use ast_grep_lsp::search::collect_search_results;
use ast_grep_lsp::session::Session;
use ast_grep_lsp::types::{make_range, MatchHit};

fn console_rule() -> Rule {
    Rule {
        id: "no-console-rule".to_string(),
        message: "No console.log".to_string(),
        severity: Severity::Warning,
        pattern: "console.log($$$A)".to_string(),
        fixer: Some("alert($$$A)".to_string()),
        url: None,
    }
}

#[test]
fn version_monotonic_sequence() {
    let mut session = Session::new(Ok(vec![console_rule()]));
    let id = "file:///a.ts".to_string();
    session.update_document(id.clone(), 1, "let a = 1".to_string());
    session.update_document(id.clone(), 2, "let a = 2".to_string());
    session.update_document(id.clone(), 3, "let a = 3".to_string());
    let doc = session.get_document(&id).unwrap();
    assert_eq!(doc.version, 3);
    assert_eq!(doc.text, "let a = 3");
    // equal version: discarded
    session.update_document(id.clone(), 3, "stale equal".to_string());
    let doc = session.get_document(&id).unwrap();
    assert_eq!(doc.version, 3);
    assert_eq!(doc.text, "let a = 3");
    // older version: discarded
    session.update_document(id.clone(), 1, "stale old".to_string());
    let doc = session.get_document(&id).unwrap();
    assert_eq!(doc.version, 3);
    assert_eq!(doc.text, "let a = 3");
}

#[test]
fn stale_version_noop() {
    let mut session = Session::new(Ok(vec![console_rule()]));
    let id = "file:///b.ts".to_string();
    session.update_document(id.clone(), 2, "two".to_string());
    session.update_document(id.clone(), 1, "one".to_string());
    let doc = session.get_document(&id).unwrap();
    assert_eq!(doc.version, 2);
    assert_eq!(doc.text, "two");
}

#[test]
fn update_does_not_touch_other_documents() {
    let mut session = Session::new(Ok(vec![console_rule()]));
    let a = "file:///a.ts".to_string();
    let b = "file:///b.ts".to_string();
    session.update_document(a.clone(), 1, "alpha".to_string());
    session.update_document(b.clone(), 7, "beta".to_string());
    session.update_document(a.clone(), 2, "alpha2".to_string());
    let db = session.get_document(&b).unwrap();
    assert_eq!(db.version, 7);
    assert_eq!(db.text, "beta");
}

#[test]
fn close_clears_state() {
    let mut session = Session::new(Ok(vec![console_rule()]));
    let id = "file:///c.ts".to_string();
    session.update_document(id.clone(), 1, "console.log('x')".to_string());
    assert!(session.get_document(&id).is_some());
    session.close_document(&id);
    assert!(session.get_document(&id).is_none());
    // a search over the remaining open documents returns nothing for it
    let mut ids: Vec<String> = Vec::new();
    let mut hits: Vec<Vec<MatchHit>> = Vec::new();
    let mut i: usize = 0;
    while i < session.document_count() {
        ids.push(session.document_at(i).id.clone());
        hits.push(Vec::new());
        i += 1;
    }
    let results = collect_search_results(&ids, &hits);
    assert!(results.is_empty());
    // reopened: present again
    session.update_document(id.clone(), 1, "back".to_string());
    assert!(session.get_document(&id).is_some());
}

#[test]
fn unknown_action_kind_is_inert() {
    let session = Session::new(Ok(vec![console_rule()]));
    let range = make_range(0, 0, 0, 17);
    let hits = vec![vec![MatchHit {
        range,
        text: "console.log('hi')".to_string(),
        replacement: Some("alert('hi')".to_string()),
        secondary: None,
    }]];
    let client = vec![ClientDiagnostic {
        code: Some(DiagnosticCode::Text("no-console-rule".to_string())),
        range,
    }];
    let edits = session.fixes_for(&hits, &client, &"refactor.extract".to_string());
    assert!(edits.is_empty());
}

#[test]
fn load_failure_disables_session() {
    let session = Session::new(Err("bad yaml".to_string()));
    assert_eq!(session.load_error().unwrap(), "bad yaml");
    let diags = session.diagnostics_for(&Vec::new());
    assert!(diags.is_empty());
    let edits = session.fixes_for(&Vec::new(), &Vec::new(), &"quickfix".to_string());
    assert!(edits.is_empty());
    assert!(session.active_rules().is_none());
}

#[test]
fn loaded_session_reports_no_error() {
    let session = Session::new(Ok(vec![console_rule()]));
    assert!(session.load_error().is_none());
    assert_eq!(session.active_rules().unwrap().len(), 1);
}

#[test]
fn capability_negotiation() {
    assert_eq!(choose_code_action_support(true), CodeActionSupport::LiteralKinds);
    assert_eq!(choose_code_action_support(false), CodeActionSupport::Plain);
    let kinds = ast_grep_lsp::capabilities::advertised_action_kinds();
    assert_eq!(kinds.len(), 3);
    assert_eq!(kinds[0], "quickfix");
    assert_eq!(kinds[1], "source.fixAll");
    assert_eq!(kinds[2], "source.fixAll.ast-grep");
}
