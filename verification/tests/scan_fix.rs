use ast_grep_config::{from_yaml_string, GlobalRules, RuleConfig, Severity as SgSeverity};
use ast_grep_core::replacer::Replacer;
use ast_grep_core::tree_sitter::LanguageExt;
use ast_grep_language::SupportLang;

use ast_grep_lsp::diagnostics::compute_diagnostics;
use ast_grep_lsp::fixes::{ClientDiagnostic, DiagnosticCode};
use ast_grep_lsp::rules::{non_empty_message, Rule, Severity};
use ast_grep_lsp::search::{collect_search_results, MatchResult};
use ast_grep_lsp::session::Session;
use ast_grep_lsp::types::{make_range, MatchHit, TextRange};

fn rule(id: &str, message: &str, severity: Severity) -> Rule {
    Rule {
        id: id.to_string(),
        message: message.to_string(),
        severity,
        pattern: String::new(),
        fixer: None,
        url: None,
    }
}

fn hit(range: TextRange, text: &str, replacement: Option<&str>) -> MatchHit {
    MatchHit {
        range,
        text: text.to_string(),
        replacement: replacement.map(|s| s.to_string()),
        secondary: None,
    }
}

#[test]
fn empty_message_falls_back_to_rule_id() {
    let r = rule("no-console-rule", "", Severity::Warning);
    assert_eq!(non_empty_message(&r), "no-console-rule");
    let rules = vec![r];
    let hits = vec![vec![hit(make_range(0, 0, 0, 5), "hello", None)]];
    let diags = compute_diagnostics(&rules, &hits);
    assert_eq!(diags.len(), 1);
    assert_eq!(diags[0].message, "no-console-rule");
}

#[test]
fn configured_message_is_kept() {
    let r = rule("no-console-rule", "No console.log", Severity::Warning);
    assert_eq!(non_empty_message(&r), "No console.log");
}

#[test]
fn combined_scan_is_union_with_own_tags() {
    let ra = rule("rule-a", "a found", Severity::Error);
    let rb = rule("rule-b", "b found", Severity::Hint);
    let range_a = make_range(0, 0, 0, 3);
    let range_b1 = make_range(1, 0, 1, 4);
    let range_b2 = make_range(2, 2, 2, 9);
    let rules = vec![ra, rb];
    let hits = vec![
        vec![hit(range_a, "aaa", None)],
        vec![hit(range_b1, "bbbb", None), hit(range_b2, "ccccccc", None)],
    ];
    let diags = compute_diagnostics(&rules, &hits);
    assert_eq!(diags.len(), 3);
    assert_eq!(diags[0].rule_id, "rule-a");
    assert_eq!(diags[0].range, range_a);
    assert_eq!(diags[0].severity, Severity::Error);
    assert_eq!(diags[1].rule_id, "rule-b");
    assert_eq!(diags[1].range, range_b1);
    assert_eq!(diags[2].rule_id, "rule-b");
    assert_eq!(diags[2].range, range_b2);
    // nothing of rule-a is ever tagged rule-b and the other way round
    for d in &diags {
        if d.range == range_a {
            assert_eq!(d.rule_id, "rule-a");
        } else {
            assert_eq!(d.rule_id, "rule-b");
        }
    }
}

#[test]
fn diagnostic_carries_secondary_ranges_and_url() {
    let mut r = rule("labelled", "see also", Severity::Info);
    r.url = Some("https://example.com/labelled".to_string());
    let rules = vec![r];
    let main_range = make_range(3, 0, 3, 7);
    let second = make_range(5, 2, 5, 9);
    let hits = vec![vec![MatchHit {
        range: main_range,
        text: "primary".to_string(),
        replacement: None,
        secondary: Some(vec![second]),
    }]];
    let diags = compute_diagnostics(&rules, &hits);
    assert_eq!(diags.len(), 1);
    assert_eq!(diags[0].related.as_ref().unwrap(), &vec![second]);
    assert_eq!(diags[0].url.as_ref().unwrap(), "https://example.com/labelled");
    assert_eq!(diags[0].source, "ast-grep");
    assert_eq!(diags[0].severity, Severity::Info);
}

#[test]
fn missing_secondary_group_yields_no_related_information() {
    let rules = vec![rule("plain", "msg", Severity::Warning)];
    let hits = vec![vec![hit(make_range(0, 0, 0, 1), "x", None)]];
    let diags = compute_diagnostics(&rules, &hits);
    assert_eq!(diags.len(), 1);
    assert!(diags[0].related.is_none());
    assert!(diags[0].url.is_none());
}

#[test]
fn off_rule_never_produces_diagnostics() {
    let r = rule("muted", "quiet", Severity::Off);
    let rules = vec![r];
    let hits = vec![vec![hit(make_range(0, 0, 0, 2), "xx", None)]];
    let diags = compute_diagnostics(&rules, &hits);
    assert!(diags.is_empty());
}

#[test]
fn numeric_code_is_discarded_when_bucketing() {
    let mut r = rule("fixable", "", Severity::Warning);
    r.fixer = Some("y".to_string());
    let range = make_range(0, 0, 0, 1);
    let session = Session::new(Ok(vec![r]));
    let hits = vec![vec![hit(range, "x", Some("y"))]];
    let client = vec![ClientDiagnostic { code: Some(DiagnosticCode::Number(3)), range }];
    let edits = session.fixes_for(&hits, &client, &"quickfix".to_string());
    assert!(edits.is_empty());
}

#[test]
fn match_without_fixer_contributes_no_edit() {
    let r = rule("unfixable", "", Severity::Warning);
    let range = make_range(0, 0, 0, 1);
    let session = Session::new(Ok(vec![r]));
    let hits = vec![vec![hit(range, "x", None)]];
    let client = vec![ClientDiagnostic {
        code: Some(DiagnosticCode::Text("unfixable".to_string())),
        range,
    }];
    let edits = session.fixes_for(&hits, &client, &"quickfix".to_string());
    assert!(edits.is_empty());
}

#[test]
fn unselected_range_contributes_no_edit() {
    let mut r = rule("fixable", "", Severity::Warning);
    r.fixer = Some("y".to_string());
    let range = make_range(0, 0, 0, 1);
    let other = make_range(5, 0, 5, 1);
    let session = Session::new(Ok(vec![r]));
    let hits = vec![vec![hit(range, "x", Some("y"))]];
    let client = vec![ClientDiagnostic {
        code: Some(DiagnosticCode::Text("fixable".to_string())),
        range: other,
    }];
    let edits = session.fixes_for(&hits, &client, &"quickfix".to_string());
    assert!(edits.is_empty());
}

#[test]
fn search_results_are_stamped_with_their_document() {
    let ids = vec!["file:///a.ts".to_string(), "file:///b.ts".to_string()];
    let hits = vec![
        vec![hit(make_range(0, 0, 0, 2), "aa", None)],
        vec![hit(make_range(1, 1, 1, 3), "bb", None)],
    ];
    let results = collect_search_results(&ids, &hits);
    assert_eq!(results.len(), 2);
    assert_eq!(results[0].uri, "file:///a.ts");
    assert_eq!(results[0].content, "aa");
    assert_eq!(results[1].uri, "file:///b.ts");
    assert_eq!(results[1].content, "bb");
    let single = MatchResult::new(
        "file:///c.ts".to_string(),
        make_range(0, 0, 0, 1),
        "c".to_string(),
    );
    assert_eq!(single.uri, "file:///c.ts");
    assert_eq!(single.content, "c");
}

fn lib_severity(s: &SgSeverity) -> Severity {
    match s {
        SgSeverity::Error => Severity::Error,
        SgSeverity::Warning => Severity::Warning,
        SgSeverity::Info => Severity::Info,
        SgSeverity::Hint => Severity::Hint,
        SgSeverity::Off => Severity::Off,
        _ => Severity::Hint,
    }
}

#[test]
fn fix_round_trip() {
    let globals = GlobalRules::default();
    let config: RuleConfig<SupportLang> = from_yaml_string(
        r"
id: no-console-rule
message: No console.log
severity: warning
language: TypeScript
rule:
  pattern: console.log($$$A)
note: no console.log
fix: |
  alert($$$A)
",
        &globals,
    )
    .unwrap()
    .pop()
    .unwrap();

    let source = "console.log('hi')";
    let doc = SupportLang::TypeScript.ast_grep(source);
    let fixer = config.fixer.first().unwrap();
    let mut rule_hits: Vec<MatchHit> = Vec::new();
    for nm in doc.root().find_all(&config.matcher) {
        let start = nm.start_pos();
        let end = nm.end_pos();
        let range = make_range(
            start.line() as u32,
            start.column(&*nm) as u32,
            end.line() as u32,
            end.column(&*nm) as u32,
        );
        let replacement = String::from_utf8(fixer.generate_replacement(&nm)).unwrap();
        rule_hits.push(MatchHit {
            range,
            text: nm.text().to_string(),
            replacement: Some(replacement),
            secondary: None,
        });
    }
    let lib_rule = Rule {
        id: config.id.clone(),
        message: config.message.clone(),
        severity: lib_severity(&config.severity),
        pattern: "console.log($$$A)".to_string(),
        fixer: Some("alert($$$A)".to_string()),
        url: config.url.clone(),
    };
    let mut session = Session::new(Ok(vec![lib_rule]));
    session.update_document("file:///t.ts".to_string(), 1, source.to_string());

    let hits = vec![rule_hits];
    let diags = session.diagnostics_for(&hits);
    assert_eq!(diags.len(), 1);
    assert_eq!(diags[0].rule_id, "no-console-rule");
    assert_eq!(diags[0].message, "No console.log");
    // the whole call expression is covered
    assert_eq!(diags[0].range, make_range(0, 0, 0, source.len() as u32));

    // the client echoes the diagnostic back and asks for a fix-all
    let client = vec![ClientDiagnostic {
        code: Some(DiagnosticCode::Text(diags[0].rule_id.clone())),
        range: diags[0].range,
    }];
    let edits = session.fixes_for(&hits, &client, &"source.fixAll".to_string());
    assert_eq!(edits.len(), 1);
    assert_eq!(edits[0].range, diags[0].range);
    assert_eq!(edits[0].new_text.trim_end(), "alert('hi')");
}
