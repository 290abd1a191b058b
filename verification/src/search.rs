use vstd::prelude::*;

use crate::diagnostics::hits_view;
use crate::types::{MatchHit, MatchView, TextRange};

verus! {

/// One hit of an ad hoc pattern search across the open documents.
pub struct MatchResult {
    /// Identifier of the document the hit lies in.
    pub uri: String,
    /// Region the hit covers.
    pub position: TextRange,
    /// The matched source text.
    pub content: String,
}

/// Mathematical image of a `MatchResult`.
pub struct MatchResultView {
    pub uri: Seq<char>,
    pub position: TextRange,
    pub content: Seq<char>,
}

impl View for MatchResult {
    type V = MatchResultView;

    open spec fn view(&self) -> MatchResultView {
        MatchResultView { uri: self.uri@, position: self.position, content: self.content@ }
    }
}

impl MatchResult {
    pub fn new(uri: String, position: TextRange, content: String) -> (r: MatchResult)
        ensures
            r.uri@ == uri@,
            r.position == position,
            r.content@ == content@,
    {
        MatchResult { uri, position, content }
    }
}

pub open spec fn results_view(v: Seq<MatchResult>) -> Seq<MatchResultView> {
    v.map_values(|m: MatchResult| m@)
}

pub open spec fn ids_view(v: Seq<String>) -> Seq<Seq<char>> {
    v.map_values(|s: String| s@)
}

/// The results one document contributes: one per hit, stamped with the
/// document's identifier.
pub open spec fn doc_results(id: Seq<char>, hits: Seq<MatchView>) -> Seq<MatchResultView> {
    hits.map(|i: int, h: MatchView| MatchResultView { uri: id, position: h.range, content: h.text })
}

/// Results of a search over the first `n` documents, in document order.
pub open spec fn search_results(
    ids: Seq<Seq<char>>,
    hits: Seq<Seq<MatchView>>,
    n: int,
) -> Seq<MatchResultView>
    decreases n,
{
    if n <= 0 {
        Seq::empty()
    } else {
        search_results(ids, hits, n - 1) + doc_results(ids[n - 1], hits[n - 1])
    }
}

/// A closed document stays out of searches: when the store no longer holds
/// an identifier, no result of a search over the store's documents is
/// stamped with it, until the document is reopened.
pub proof fn lemma_closed_document_unsearchable(
    store: crate::store::DocumentStore,
    id: Seq<char>,
    ids: Seq<Seq<char>>,
    hits: Seq<Seq<MatchView>>,
    n: int,
)
    requires
        !store.has(id),
        ids.len() == store.doc_seq().len(),
        forall|i: int| 0 <= i < ids.len() ==> ids[i] == store.doc_seq()[i].id@,
        hits.len() == ids.len(),
        0 <= n <= ids.len(),
    ensures
        forall|m: MatchResultView| #[trigger]
            search_results(ids, hits, n).contains(m) ==> m.uri != id,
    decreases n,
{
    if n > 0 {
        lemma_closed_document_unsearchable(store, id, ids, hits, n - 1);
        let s1 = search_results(ids, hits, n - 1);
        let s2 = doc_results(ids[n - 1], hits[n - 1]);
        assert(search_results(ids, hits, n) == s1 + s2);
        store.lemma_doc_seq_has(n - 1);
        assert(ids[n - 1] != id);
        assert forall|m: MatchResultView| #[trigger]
            search_results(ids, hits, n).contains(m) implies m.uri != id by {
            let w = choose|w: int| 0 <= w < (s1 + s2).len() && (s1 + s2)[w] == m;
            if w < s1.len() {
                assert(s1[w] == m);
                assert(s1.contains(m));
            } else {
                assert(s2[w - s1.len()] == m);
                assert(m.uri == ids[n - 1]);
            }
        }
    }
}

/// Assembles the answer of an ad hoc search: `hits[i]` holds what the
/// matching collaborator found for the pattern in the document `ids[i]`;
/// the answer is exactly every hit of every document, stamped with its
/// document's identifier, in document order.
pub fn collect_search_results(ids: &Vec<String>, hits: &Vec<Vec<MatchHit>>) -> (r: Vec<MatchResult>)
    requires
        ids@.len() == hits@.len(),
    ensures
        results_view(r@) == search_results(ids_view(ids@), hits_view(hits@), ids@.len() as int),
{
    let ghost iv = ids_view(ids@);
    let ghost hv = hits_view(hits@);
    let mut out: Vec<MatchResult> = Vec::new();
    let mut i: usize = 0;
    while i < ids.len()
        invariant
            ids@.len() == hits@.len(),
            i <= ids@.len(),
            iv == ids_view(ids@),
            hv == hits_view(hits@),
            results_view(out@) == search_results(iv, hv, i as int),
        decreases ids@.len() - i,
    {
        let id = &ids[i];
        let doc_hits = &hits[i];
        let ghost dr = doc_results(iv[i as int], hv[i as int]);
        let mut j: usize = 0;
        while j < doc_hits.len()
            invariant
                ids@.len() == hits@.len(),
                i < ids@.len(),
                iv == ids_view(ids@),
                hv == hits_view(hits@),
                id == &ids@[i as int],
                doc_hits == &hits@[i as int],
                dr == doc_results(iv[i as int], hv[i as int]),
                dr.len() == doc_hits@.len(),
                j <= doc_hits@.len(),
                results_view(out@) == search_results(iv, hv, i as int) + dr.take(j as int),
            decreases doc_hits@.len() - j,
        {
            let h = &doc_hits[j];
            let m = MatchResult::new(id.clone(), h.range, h.text.clone());
            proof {
                assert(hv[i as int][j as int] == doc_hits@[j as int]@);
                assert(dr[j as int] == m@);
                assert(dr.take(j as int + 1) =~= dr.take(j as int).push(dr[j as int]));
                assert(results_view(out@.push(m)) =~= results_view(out@).push(m@));
            }
            out.push(m);
            j = j + 1;
        }
        proof {
            assert(dr.take(doc_hits@.len() as int) =~= dr);
            assert(search_results(iv, hv, i as int + 1) == search_results(iv, hv, i as int) + dr);
        }
        i = i + 1;
    }
    out
}

} // verus!
