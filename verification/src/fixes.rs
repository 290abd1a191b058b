use vstd::prelude::*;

use crate::rules::{Rule, RuleView};
use crate::types::{MatchHit, MatchView, TextRange};
use crate::diagnostics::{hits_view, rules_view};

verus! {

/// The code a client-echoed diagnostic carries: only string codes name a
/// rule; numeric ones are discarded when bucketing.
pub enum DiagnosticCode {
    Text(String),
    Number(i32),
}

/// Spec image of a diagnostic code.
pub enum CodeView {
    Text(Seq<char>),
    Number(int),
}

/// A diagnostic as the client echoes it back inside a code-action request:
/// only its code and its range matter for fix resolution.
pub struct ClientDiagnostic {
    pub code: Option<DiagnosticCode>,
    pub range: TextRange,
}

/// Spec image of a `ClientDiagnostic`.
pub struct ClientDiagView {
    pub code: Option<CodeView>,
    pub range: TextRange,
}

impl View for ClientDiagnostic {
    type V = ClientDiagView;

    open spec fn view(&self) -> ClientDiagView {
        ClientDiagView {
            code: match self.code {
                Some(DiagnosticCode::Text(s)) => Some(CodeView::Text(s@)),
                Some(DiagnosticCode::Number(n)) => Some(CodeView::Number(n as int)),
                None => None,
            },
            range: self.range,
        }
    }
}

pub open spec fn cdiags_view(v: Seq<ClientDiagnostic>) -> Seq<ClientDiagView> {
    v.map_values(|d: ClientDiagnostic| d@)
}

/// One textual replacement.
pub struct TextEdit {
    pub range: TextRange,
    pub new_text: String,
}

/// Spec image of a `TextEdit`.
pub struct EditView {
    pub range: TextRange,
    pub new_text: Seq<char>,
}

impl View for TextEdit {
    type V = EditView;

    open spec fn view(&self) -> EditView {
        EditView { range: self.range, new_text: self.new_text@ }
    }
}

pub open spec fn edit_seq_view(v: Seq<TextEdit>) -> Seq<EditView> {
    v.map_values(|e: TextEdit| e@)
}

/// The ranges the client selected for one rule, in echo order: ranges of the
/// client diagnostics whose code is the rule's identifier as a string.
pub open spec fn ranges_for(diags: Seq<ClientDiagView>, id: Seq<char>) -> Seq<TextRange>
    decreases diags.len(),
{
    if diags.len() == 0 {
        Seq::empty()
    } else {
        let rest = ranges_for(diags.drop_last(), id);
        if diags.last().code == Some(CodeView::Text(id)) {
            rest.push(diags.last().range)
        } else {
            rest
        }
    }
}

/// The client asked for a fix of rule `id` at exactly this range.
pub open spec fn requested(diags: Seq<ClientDiagView>, id: Seq<char>, range: TextRange) -> bool {
    exists|m: int|
        0 <= m < diags.len() && diags[m].code == Some(CodeView::Text(id)) && diags[m].range
            == range
}

/// A range stands in the selected ranges of a rule exactly when some echoed
/// diagnostic asked for it.
pub proof fn lemma_ranges_for_requested(
    diags: Seq<ClientDiagView>,
    id: Seq<char>,
    range: TextRange,
)
    ensures
        ranges_for(diags, id).contains(range) == requested(diags, id, range),
    decreases diags.len(),
{
    if diags.len() == 0 {
    } else {
        let prefix = diags.drop_last();
        lemma_ranges_for_requested(prefix, id, range);
        let rest = ranges_for(prefix, id);
        if requested(prefix, id, range) {
            let m = choose|m: int|
                0 <= m < prefix.len() && prefix[m].code == Some(CodeView::Text(id))
                    && prefix[m].range == range;
            assert(diags[m] == prefix[m]);
            assert(requested(diags, id, range));
        }
        if requested(diags, id, range) && !requested(prefix, id, range) {
            let m = choose|m: int|
                0 <= m < diags.len() && diags[m].code == Some(CodeView::Text(id)) && diags[m].range
                    == range;
            if m < diags.len() - 1 {
                assert(prefix[m] == diags[m]);
                assert(requested(prefix, id, range));
            }
            assert(diags.last().code == Some(CodeView::Text(id)) && diags.last().range == range);
        }
        if diags.last().code == Some(CodeView::Text(id)) {
            let pushed = rest.push(diags.last().range);
            assert(pushed[rest.len() as int] == diags.last().range);
            if pushed.contains(range) && !rest.contains(range) {
                let w = choose|w: int| 0 <= w < pushed.len() && pushed[w] == range;
                if w < rest.len() {
                    assert(rest[w] == range);
                }
                assert(range == diags.last().range);
            }
            if rest.contains(range) {
                let w = choose|w: int| 0 <= w < rest.len() && rest[w] == range;
                assert(pushed[w] == range);
            }
            assert(diags.len() - 1 < diags.len());
        }
    }
}

/// Edits one rule contributes: one edit per match whose range the client
/// selected for this rule and for which the rule's fixer produced a
/// replacement; everything else contributes nothing.
pub open spec fn rule_edits(
    rule: RuleView,
    hits: Seq<MatchView>,
    diags: Seq<ClientDiagView>,
) -> Seq<EditView>
    decreases hits.len(),
{
    if hits.len() == 0 {
        Seq::empty()
    } else {
        let rest = rule_edits(rule, hits.drop_last(), diags);
        let h = hits.last();
        if requested(diags, rule.id, h.range) && h.replacement is Some {
            rest.push(EditView { range: h.range, new_text: h.replacement.unwrap() })
        } else {
            rest
        }
    }
}

/// A rule the client selected nothing for contributes no edit.
pub proof fn lemma_rule_edits_unrequested(
    rule: RuleView,
    hits: Seq<MatchView>,
    diags: Seq<ClientDiagView>,
)
    requires
        forall|range: TextRange| !requested(diags, rule.id, range),
    ensures
        rule_edits(rule, hits, diags).len() == 0,
    decreases hits.len(),
{
    if hits.len() > 0 {
        lemma_rule_edits_unrequested(rule, hits.drop_last(), diags);
    }
}

/// All edits of the fix pass over the first `n` rules, in rule order.
pub open spec fn all_edits(
    rules: Seq<RuleView>,
    hits: Seq<Seq<MatchView>>,
    diags: Seq<ClientDiagView>,
    n: int,
) -> Seq<EditView>
    decreases n,
{
    if n <= 0 {
        Seq::empty()
    } else {
        all_edits(rules, hits, diags, n - 1) + rule_edits(rules[n - 1], hits[n - 1], diags)
    }
}

/// The action kinds the fix pass serves: quick fixes and the two fix-all
/// flavours. Anything else is inert.
pub open spec fn is_supported_kind(k: Seq<char>) -> bool {
    ||| k == "quickfix"@
    ||| k == "source.fixAll"@
    ||| k == "source.fixAll.ast-grep"@
}

pub fn is_supported_action_kind(kind: &String) -> (r: bool)
    ensures
        r == is_supported_kind(kind@),
{
    let quickfix: String = "quickfix".to_owned();
    let fix_all: String = "source.fixAll".to_owned();
    let fix_all_own: String = "source.fixAll.ast-grep".to_owned();
    *kind == quickfix || *kind == fix_all || *kind == fix_all_own
}

/// Selected ranges bucketed by rule identifier, built from the echoed
/// diagnostics of one code-action request.
pub struct RangeBuckets {
    entries: Vec<(String, Vec<TextRange>)>,
}

impl RangeBuckets {
    spec fn has_key(self, k: Seq<char>) -> bool {
        exists|i: int| 0 <= i < self.entries@.len() && self.entries@[i].0@ == k
    }

    spec fn key_index(self, k: Seq<char>) -> int {
        choose|i: int| 0 <= i < self.entries@.len() && self.entries@[i].0@ == k
    }

    /// The ranges selected for one rule; empty when the rule has none.
    pub closed spec fn bucket(self, k: Seq<char>) -> Seq<TextRange> {
        if self.has_key(k) {
            self.entries@[self.key_index(k)].1@
        } else {
            Seq::empty()
        }
    }

    pub closed spec fn wf(self) -> bool {
        &&& forall|i: int, j: int|
            0 <= i < j < self.entries@.len() ==> self.entries@[i].0@ != self.entries@[j].0@
        &&& forall|i: int| 0 <= i < self.entries@.len() ==> self.entries@[i].1@.len() > 0
    }

    proof fn lemma_key_unique(self, k: Seq<char>, i: int)
        requires
            self.wf(),
            0 <= i < self.entries@.len(),
            self.entries@[i].0@ == k,
        ensures
            self.has_key(k),
            self.key_index(k) == i,
    {
        let j = self.key_index(k);
        if j < i {
            assert(self.entries@[j].0@ != self.entries@[i].0@);
        } else if j > i {
            assert(self.entries@[i].0@ != self.entries@[j].0@);
        }
    }

    fn find_key(&self, k: &String) -> (r: Option<usize>)
        requires
            self.wf(),
        ensures
            match r {
                Some(i) => i < self.entries@.len() && self.entries@[i as int].0@ == k@
                    && self.has_key(k@) && self.key_index(k@) == i,
                None => !self.has_key(k@),
            },
    {
        let mut i: usize = 0;
        while i < self.entries.len()
            invariant
                self.wf(),
                i <= self.entries@.len(),
                forall|j: int| 0 <= j < i ==> self.entries@[j].0@ != k@,
            decreases self.entries@.len() - i,
        {
            if self.entries[i].0 == *k {
                proof {
                    self.lemma_key_unique(k@, i as int);
                }
                return Some(i);
            }
            i = i + 1;
        }
        None
    }

    /// The selected ranges of one rule, when any diagnostic named it.
    pub fn bucket_of(&self, id: &String) -> (r: Option<&Vec<TextRange>>)
        requires
            self.wf(),
        ensures
            match r {
                Some(v) => v@ == self.bucket(id@) && v@.len() > 0,
                None => self.bucket(id@).len() == 0,
            },
    {
        match self.find_key(id) {
            Some(i) => Some(&self.entries[i].1),
            None => None,
        }
    }

    /// Appending `range` to the entry at `i` of `pre` (removed, extended,
    /// pushed back) extends that one bucket and keeps every other.
    proof fn lemma_bucket_update(
        self,
        pre: RangeBuckets,
        mid: Seq<(String, Vec<TextRange>)>,
        k: Seq<char>,
        i: int,
        range: TextRange,
    )
        requires
            pre.wf(),
            0 <= i < pre.entries@.len(),
            pre.entries@[i].0@ == k,
            mid == pre.entries@.remove(i),
            self.entries@.len() == mid.len() + 1,
            self.entries@ == mid.push(self.entries@.last()),
            self.entries@.last().0@ == k,
            self.entries@.last().1@ == pre.entries@[i].1@.push(range),
        ensures
            self.wf(),
            self.bucket(k) == pre.bucket(k).push(range),
            forall|q: Seq<char>| q != k ==> self.bucket(q) == pre.bucket(q),
    {
        let last = self.entries@.len() - 1;
        assert(forall|m: int|
            0 <= m < mid.len() ==> mid[m] == if m < i {
                pre.entries@[m]
            } else {
                pre.entries@[m + 1]
            });
        assert forall|m: int, n: int| 0 <= m < n < self.entries@.len() implies self.entries@[m].0@
            != self.entries@[n].0@ by {
            if n < last {
                let pm = if m < i { m } else { m + 1 };
                let pn = if n < i { n } else { n + 1 };
                assert(pre.entries@[pm].0@ != pre.entries@[pn].0@);
            } else {
                let pm = if m < i { m } else { m + 1 };
                if pm != i {
                    assert(pre.entries@[pm].0@ != pre.entries@[i].0@);
                }
            }
        }
        assert(self.wf());
        self.lemma_key_unique(k, last);
        pre.lemma_key_unique(k, i);
        assert(self.bucket(k) == pre.bucket(k).push(range));
        assert forall|q: Seq<char>| q != k implies self.bucket(q) == pre.bucket(q) by {
            if pre.has_key(q) {
                let p = pre.key_index(q);
                let s = if p < i {
                    p
                } else {
                    p - 1
                };
                assert(self.entries@[s] == pre.entries@[p]);
                self.lemma_key_unique(q, s);
                pre.lemma_key_unique(q, p);
            } else {
                if self.has_key(q) {
                    let s = self.key_index(q);
                    let pm = if s < i { s } else { s + 1 };
                    assert(pre.entries@[pm].0@ == q);
                }
            }
        }
    }

    /// Pushing a fresh single-range entry for an absent key.
    proof fn lemma_bucket_insert(self, pre: RangeBuckets, k: Seq<char>, range: TextRange)
        requires
            pre.wf(),
            !pre.has_key(k),
            self.entries@.len() == pre.entries@.len() + 1,
            self.entries@ == pre.entries@.push(self.entries@.last()),
            self.entries@.last().0@ == k,
            self.entries@.last().1@ == Seq::<TextRange>::empty().push(range),
        ensures
            self.wf(),
            self.bucket(k) == pre.bucket(k).push(range),
            forall|q: Seq<char>| q != k ==> self.bucket(q) == pre.bucket(q),
    {
        let last = self.entries@.len() - 1;
        assert forall|m: int, n: int| 0 <= m < n < self.entries@.len() implies self.entries@[m].0@
            != self.entries@[n].0@ by {
            if n < last {
                assert(pre.entries@[m].0@ != pre.entries@[n].0@);
            } else {
                assert(self.entries@[m] == pre.entries@[m]);
                if pre.entries@[m].0@ == k {
                    assert(pre.has_key(k));
                }
            }
        }
        self.lemma_key_unique(k, last);
        assert(pre.bucket(k) =~= Seq::<TextRange>::empty());
        assert(self.bucket(k) == pre.bucket(k).push(range));
        assert forall|q: Seq<char>| q != k implies self.bucket(q) == pre.bucket(q) by {
            if pre.has_key(q) {
                let p = pre.key_index(q);
                assert(self.entries@[p] == pre.entries@[p]);
                self.lemma_key_unique(q, p);
                pre.lemma_key_unique(q, p);
            } else {
                if self.has_key(q) {
                    let s = self.key_index(q);
                    assert(s < last ==> pre.entries@[s].0@ == q);
                }
            }
        }
    }
}

/// Buckets the echoed diagnostics by rule identifier, discarding every
/// diagnostic whose code is not a string: for every rule the bucket holds
/// exactly the ranges the client selected for it, in echo order.
pub fn build_buckets(diags: &Vec<ClientDiagnostic>) -> (r: RangeBuckets)
    ensures
        r.wf(),
        forall|k: Seq<char>| r.bucket(k) == ranges_for(cdiags_view(diags@), k),
{
    let ghost dv = cdiags_view(diags@);
    let mut r = RangeBuckets { entries: Vec::new() };
    assert(forall|k: Seq<char>| !r.has_key(k));
    let mut m: usize = 0;
    while m < diags.len()
        invariant
            dv == cdiags_view(diags@),
            m <= diags@.len(),
            dv.len() == diags@.len(),
            r.wf(),
            forall|k: Seq<char>| r.bucket(k) == ranges_for(dv.take(m as int), k),
        decreases diags@.len() - m,
    {
        let d = &diags[m];
        proof {
            assert(dv[m as int] == diags@[m as int]@);
            assert(dv.take(m as int + 1).drop_last() =~= dv.take(m as int));
            assert(dv.take(m as int + 1).last() == dv[m as int]);
        }
        match &d.code {
            Some(DiagnosticCode::Text(t)) => {
                let ghost pre = r;
                match r.find_key(t) {
                    Some(i) => {
                        let mut entry = r.entries.remove(i);
                        let ghost mid = r.entries@;
                        entry.1.push(d.range);
                        r.entries.push(entry);
                        proof {
                            r.lemma_bucket_update(pre, mid, t@, i as int, d.range);
                        }
                    },
                    None => {
                        let mut ranges: Vec<TextRange> = Vec::new();
                        ranges.push(d.range);
                        r.entries.push((t.clone(), ranges));
                        proof {
                            r.lemma_bucket_insert(pre, t@, d.range);
                        }
                    },
                }
                proof {
                    assert forall|k: Seq<char>| r.bucket(k) == ranges_for(
                        dv.take(m as int + 1),
                        k,
                    ) by {
                        assert(dv[m as int].code == Some(CodeView::Text(t@)));
                        if k == t@ {
                            assert(r.bucket(k) == pre.bucket(k).push(d.range));
                        } else {
                            assert(r.bucket(k) == pre.bucket(k));
                        }
                    }
                }
            },
            _ => {
                proof {
                    assert(*d == diags@[m as int]);
                    assert(dv[m as int].code is None || dv[m as int].code matches Some(
                        CodeView::Number(_),
                    ));
                    assert forall|k: Seq<char>| r.bucket(k) == ranges_for(
                        dv.take(m as int + 1),
                        k,
                    ) by {
                        assert(dv.take(m as int + 1).last().code != Some(CodeView::Text(k)));
                    }
                }
            },
        }
        m = m + 1;
    }
    proof {
        assert(dv.take(dv.len() as int) =~= dv);
    }
    r
}

/// True exactly when one of the ranges equals `range`.
pub fn ranges_contain(v: &Vec<TextRange>, range: TextRange) -> (r: bool)
    ensures
        r == v@.contains(range),
{
    let mut i: usize = 0;
    while i < v.len()
        invariant
            i <= v@.len(),
            forall|j: int| 0 <= j < i ==> v@[j] != range,
        decreases v@.len() - i,
    {
        if v[i] == range {
            assert(v@.contains(range));
            return true;
        }
        i = i + 1;
    }
    false
}

/// The fix pass of one code-action request over one document. `hits[i]`
/// holds the freshly recomputed matches of `rules[i]` against the live
/// snapshot, each carrying its fixer's replacement when the rule has one.
/// An unsupported action kind yields no edit; otherwise an edit is produced
/// exactly for every match whose range the client selected for its rule and
/// whose rule produced a replacement.
pub fn resolve_fixes(
    rules: &Vec<Rule>,
    hits: &Vec<Vec<MatchHit>>,
    client_diags: &Vec<ClientDiagnostic>,
    kind: &String,
) -> (r: Vec<TextEdit>)
    requires
        rules@.len() == hits@.len(),
    ensures
        !is_supported_kind(kind@) ==> r@.len() == 0,
        is_supported_kind(kind@) ==> edit_seq_view(r@) == all_edits(
            rules_view(rules@),
            hits_view(hits@),
            cdiags_view(client_diags@),
            rules@.len() as int,
        ),
{
    let mut out: Vec<TextEdit> = Vec::new();
    if !is_supported_action_kind(kind) {
        return out;
    }
    let ghost rv = rules_view(rules@);
    let ghost hv = hits_view(hits@);
    let ghost dv = cdiags_view(client_diags@);
    let buckets = build_buckets(client_diags);
    let mut i: usize = 0;
    while i < rules.len()
        invariant
            rules@.len() == hits@.len(),
            i <= rules@.len(),
            rv == rules_view(rules@),
            hv == hits_view(hits@),
            dv == cdiags_view(client_diags@),
            buckets.wf(),
            forall|k: Seq<char>| buckets.bucket(k) == ranges_for(dv, k),
            edit_seq_view(out@) == all_edits(rv, hv, dv, i as int),
        decreases rules@.len() - i,
    {
        let rule = &rules[i];
        let ghost re = rule_edits(rv[i as int], hv[i as int], dv);
        match buckets.bucket_of(&rule.id) {
            Some(selected) => {
                let doc_hits = &hits[i];
                let mut j: usize = 0;
                while j < doc_hits.len()
                    invariant
                        rules@.len() == hits@.len(),
                        i < rules@.len(),
                        rv == rules_view(rules@),
                        hv == hits_view(hits@),
                        dv == cdiags_view(client_diags@),
                        rule == &rules@[i as int],
                        doc_hits == &hits@[i as int],
                        selected@ == ranges_for(dv, rv[i as int].id),
                        re == rule_edits(rv[i as int], hv[i as int], dv),
                        j <= doc_hits@.len(),
                        hv[i as int].len() == doc_hits@.len(),
                        edit_seq_view(out@) == all_edits(rv, hv, dv, i as int) + rule_edits(
                            rv[i as int],
                            hv[i as int].take(j as int),
                            dv,
                        ),
                    decreases doc_hits@.len() - j,
                {
                    let h = &doc_hits[j];
                    proof {
                        assert(hv[i as int][j as int] == doc_hits@[j as int]@);
                        assert(hv[i as int].take(j as int + 1).drop_last() =~= hv[i as int].take(
                            j as int,
                        ));
                        assert(hv[i as int].take(j as int + 1).last() == hv[i as int][j as int]);
                        lemma_ranges_for_requested(dv, rv[i as int].id, doc_hits@[j as int].range);
                    }
                    if ranges_contain(selected, h.range) {
                        match &h.replacement {
                            Some(new_text) => {
                                let e = TextEdit { range: h.range, new_text: new_text.clone() };
                                proof {
                                    assert(edit_seq_view(out@.push(e)) =~= edit_seq_view(
                                        out@,
                                    ).push(e@));
                                }
                                out.push(e);
                            },
                            None => {},
                        }
                    }
                    j = j + 1;
                }
                proof {
                    assert(hv[i as int].take(doc_hits@.len() as int) =~= hv[i as int]);
                    assert(all_edits(rv, hv, dv, i as int + 1) == all_edits(rv, hv, dv, i as int)
                        + re);
                }
            },
            None => {
                proof {
                    assert forall|range: TextRange| !requested(dv, rv[i as int].id, range) by {
                        lemma_ranges_for_requested(dv, rv[i as int].id, range);
                    }
                    lemma_rule_edits_unrequested(rv[i as int], hv[i as int], dv);
                    assert(all_edits(rv, hv, dv, i as int + 1) =~= all_edits(rv, hv, dv, i as int)
                        + re);
                    assert(all_edits(rv, hv, dv, i as int) + re =~= all_edits(rv, hv, dv, i as int));
                }
            },
        }
        i = i + 1;
    }
    out
}

} // verus!
