use vstd::prelude::*;

use crate::rules::{display_message, opt_str_view, Rule, RuleView, Severity};
use crate::types::{copy_ranges, MatchHit, MatchView, TextRange};

verus! {

/// A finding handed to the editor: derived from one match of one rule,
/// never persisted.
pub struct Diagnostic {
    /// Identifier of the owning rule; the editor echoes it back as the
    /// diagnostic's code.
    pub rule_id: String,
    pub range: TextRange,
    pub severity: Severity,
    /// Never empty: falls back to `rule_id` when the rule's configured
    /// message is empty.
    pub message: String,
    /// Fixed origin tag.
    pub source: String,
    /// The owning rule's documentation link, when configured.
    pub url: Option<String>,
    /// Ranges of the rule's secondary capture group, when it defines one.
    pub related: Option<Vec<TextRange>>,
}

/// Mathematical image of a `Diagnostic`.
pub struct DiagView {
    pub rule_id: Seq<char>,
    pub range: TextRange,
    pub severity: Severity,
    pub message: Seq<char>,
    pub source: Seq<char>,
    pub url: Option<Seq<char>>,
    pub related: Option<Seq<TextRange>>,
}

impl View for Diagnostic {
    type V = DiagView;

    open spec fn view(&self) -> DiagView {
        DiagView {
            rule_id: self.rule_id@,
            range: self.range,
            severity: self.severity,
            message: self.message@,
            source: self.source@,
            url: opt_str_view(self.url),
            related: match self.related {
                Some(v) => Some(v@),
                None => None,
            },
        }
    }
}

/// The origin tag every diagnostic carries.
pub open spec fn source_tag() -> Seq<char> {
    "ast-grep"@
}

/// The diagnostic one match of one rule produces.
pub open spec fn diag_of(rule: RuleView, h: MatchView) -> DiagView {
    DiagView {
        rule_id: rule.id,
        range: h.range,
        severity: rule.severity,
        message: display_message(rule),
        source: source_tag(),
        url: rule.url,
        related: h.secondary,
    }
}

/// All diagnostics of one rule over its matches: a disabled rule never
/// produces any.
pub open spec fn rule_diags(rule: RuleView, hits: Seq<MatchView>) -> Seq<DiagView> {
    if rule.severity == Severity::Off {
        Seq::empty()
    } else {
        hits.map(|i: int, h: MatchView| diag_of(rule, h))
    }
}

/// Diagnostics of the combined scan over the first `n` rules, in rule order.
pub open spec fn scan_diags(rules: Seq<RuleView>, hits: Seq<Seq<MatchView>>, n: int) -> Seq<
    DiagView,
>
    decreases n,
{
    if n <= 0 {
        Seq::empty()
    } else {
        scan_diags(rules, hits, n - 1) + rule_diags(rules[n - 1], hits[n - 1])
    }
}

pub open spec fn rules_view(rules: Seq<Rule>) -> Seq<RuleView> {
    rules.map_values(|r: Rule| r@)
}

pub open spec fn match_seq_view(v: Seq<MatchHit>) -> Seq<MatchView> {
    v.map_values(|h: MatchHit| h@)
}

pub open spec fn hits_view(hits: Seq<Vec<MatchHit>>) -> Seq<Seq<MatchView>> {
    hits.map_values(|v: Vec<MatchHit>| match_seq_view(v@))
}

pub open spec fn diag_seq_view(v: Seq<Diagnostic>) -> Seq<DiagView> {
    v.map_values(|d: Diagnostic| d@)
}

/// Combined-scan completeness: the scan's output holds the diagnostic of
/// every match of every live rule, and nothing else — every diagnostic in it
/// comes from one rule's own match, so it carries that rule's identifier and
/// never another's.
pub proof fn lemma_scan_diags_complete(rules: Seq<RuleView>, hits: Seq<Seq<MatchView>>, n: int)
    requires
        hits.len() == rules.len(),
        0 <= n <= rules.len(),
    ensures
        forall|i: int, j: int|
            0 <= i < n && rules[i].severity != Severity::Off && 0 <= j < hits[i].len()
                ==> scan_diags(rules, hits, n).contains(diag_of(rules[i], hits[i][j])),
        forall|d: DiagView| #[trigger]
            scan_diags(rules, hits, n).contains(d) ==> exists|i: int, j: int|
                0 <= i < n && rules[i].severity != Severity::Off && 0 <= j < hits[i].len() && d
                    == diag_of(rules[i], hits[i][j]),
    decreases n,
{
    if n > 0 {
        lemma_scan_diags_complete(rules, hits, n - 1);
        let s1 = scan_diags(rules, hits, n - 1);
        let s2 = rule_diags(rules[n - 1], hits[n - 1]);
        assert(scan_diags(rules, hits, n) == s1 + s2);
        assert forall|i: int, j: int|
            0 <= i < n && rules[i].severity != Severity::Off && 0 <= j
                < hits[i].len() implies scan_diags(rules, hits, n).contains(
            diag_of(rules[i], hits[i][j]),
        ) by {
            if i < n - 1 {
                let d = diag_of(rules[i], hits[i][j]);
                assert(s1.contains(d));
                let w = choose|w: int| 0 <= w < s1.len() && s1[w] == d;
                assert((s1 + s2)[w] == d);
            } else {
                assert(s2[j] == diag_of(rules[n - 1], hits[n - 1][j]));
                assert((s1 + s2)[s1.len() + j] == diag_of(rules[i], hits[i][j]));
            }
        }
        assert forall|d: DiagView| #[trigger]
            scan_diags(rules, hits, n).contains(d) implies exists|i: int, j: int|
            0 <= i < n && rules[i].severity != Severity::Off && 0 <= j < hits[i].len() && d
                == diag_of(rules[i], hits[i][j]) by {
            let w = choose|w: int| 0 <= w < (s1 + s2).len() && (s1 + s2)[w] == d;
            if w < s1.len() {
                assert(s1[w] == d);
                assert(s1.contains(d));
            } else {
                let j = w - s1.len();
                assert(s2[j] == d);
                assert(rules[n - 1].severity != Severity::Off);
                assert(d == diag_of(rules[n - 1], hits[n - 1][j]));
            }
        }
    }
}

/// Builds the diagnostic of one match of a live rule.
pub fn match_to_diagnostic(rule: &Rule, hit: &MatchHit) -> (r: Diagnostic)
    requires
        rule.severity != Severity::Off,
    ensures
        r@ == diag_of(rule@, hit@),
{
    Diagnostic {
        rule_id: rule.id.clone(),
        range: hit.range,
        severity: rule.severity,
        message: crate::rules::non_empty_message(rule),
        source: "ast-grep".to_owned(),
        url: crate::rules::clone_opt_string(&rule.url),
        related: match &hit.secondary {
            Some(v) => Some(copy_ranges(v)),
            None => None,
        },
    }
}

/// The combined scan: one pass over all rules' matches of one document,
/// yielding exactly the union of every live rule's findings, each tagged
/// with its own rule. `hits[i]` holds what the matching collaborator found
/// for `rules[i]` on the document.
pub fn compute_diagnostics(rules: &Vec<Rule>, hits: &Vec<Vec<MatchHit>>) -> (r: Vec<Diagnostic>)
    requires
        rules@.len() == hits@.len(),
    ensures
        diag_seq_view(r@) == scan_diags(rules_view(rules@), hits_view(hits@), rules@.len() as int),
{
    let ghost rv = rules_view(rules@);
    let ghost hv = hits_view(hits@);
    let mut out: Vec<Diagnostic> = Vec::new();
    let mut i: usize = 0;
    while i < rules.len()
        invariant
            rules@.len() == hits@.len(),
            i <= rules@.len(),
            rv == rules_view(rules@),
            hv == hits_view(hits@),
            diag_seq_view(out@) == scan_diags(rv, hv, i as int),
        decreases rules@.len() - i,
    {
        let rule = &rules[i];
        if rule.severity != Severity::Off {
            let doc_hits = &hits[i];
            let ghost rh = rule_diags(rv[i as int], hv[i as int]);
            let mut j: usize = 0;
            while j < doc_hits.len()
                invariant
                    rules@.len() == hits@.len(),
                    i < rules@.len(),
                    rv == rules_view(rules@),
                    hv == hits_view(hits@),
                    rule == &rules@[i as int],
                    doc_hits == &hits@[i as int],
                    rule.severity != Severity::Off,
                    rh == rule_diags(rv[i as int], hv[i as int]),
                    rh.len() == doc_hits@.len(),
                    j <= doc_hits@.len(),
                    diag_seq_view(out@) == scan_diags(rv, hv, i as int) + rh.take(j as int),
                decreases doc_hits@.len() - j,
            {
                let d = match_to_diagnostic(rule, &doc_hits[j]);
                proof {
                    assert(rh[j as int] == d@);
                    assert(rh.take(j as int + 1) =~= rh.take(j as int).push(rh[j as int]));
                    assert(diag_seq_view(out@.push(d)) =~= diag_seq_view(out@).push(d@));
                }
                out.push(d);
                j = j + 1;
            }
            proof {
                assert(rh.take(doc_hits@.len() as int) =~= rh);
                assert(scan_diags(rv, hv, i as int + 1) == scan_diags(rv, hv, i as int) + rh);
            }
        } else {
            proof {
                assert(rule_diags(rv[i as int], hv[i as int]) =~= Seq::<DiagView>::empty());
                assert(scan_diags(rv, hv, i as int + 1) =~= scan_diags(rv, hv, i as int)
                    + rule_diags(rv[i as int], hv[i as int]));
                assert(scan_diags(rv, hv, i as int) + Seq::<DiagView>::empty() =~= scan_diags(
                    rv,
                    hv,
                    i as int,
                ));
            }
        }
        i = i + 1;
    }
    out
}

} // verus!
