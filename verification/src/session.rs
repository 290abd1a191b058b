use vstd::prelude::*;

use crate::diagnostics::{
    compute_diagnostics, diag_seq_view, hits_view, rules_view, scan_diags, Diagnostic,
};
use crate::fixes::{
    all_edits, cdiags_view, edit_seq_view, is_supported_kind, resolve_fixes, ClientDiagnostic,
    TextEdit,
};
use crate::rules::{Rule, RuleView};
use crate::store::{upsert_model, Document, DocumentStore};
use crate::types::MatchHit;

verus! {

/// One server session: the rule set, loaded once and immutable (or the error
/// its loading left behind), and the store of open documents.
pub struct Session {
    store: DocumentStore,
    rules: Result<Vec<Rule>, String>,
}

impl Session {
    pub closed spec fn spec_store(self) -> DocumentStore {
        self.store
    }

    /// The session keeps its store well-formed.
    pub open spec fn wf(self) -> bool {
        self.spec_store().wf()
    }

    /// Rule loading succeeded; when it did not, diagnostics and fixes are
    /// disabled for the whole session.
    pub closed spec fn rules_loaded(self) -> bool {
        self.rules is Ok
    }

    pub closed spec fn spec_rules(self) -> Seq<RuleView> {
        rules_view(self.rules->Ok_0@)
    }

    pub closed spec fn spec_load_error(self) -> Seq<char> {
        self.rules->Err_0@
    }

    /// Starts a session from the one-time rule load result; no document is
    /// open yet.
    pub fn new(rules: Result<Vec<Rule>, String>) -> (r: Session)
        ensures
            r.wf(),
            forall|k: Seq<char>| !r.spec_store().has(k),
            r.rules_loaded() == (rules is Ok),
            rules is Ok ==> r.spec_rules() == rules_view(rules->Ok_0@),
            rules is Err ==> r.spec_load_error() == rules->Err_0@,
    {
        Session { store: DocumentStore::new(), rules }
    }

    /// The error of the one-time rule load, reported exactly once after
    /// initialization and never again per document.
    pub fn load_error(&self) -> (r: Option<&String>)
        ensures
            r.is_some() == !self.rules_loaded(),
            match r {
                Some(e) => e@ == self.spec_load_error(),
                None => true,
            },
    {
        match &self.rules {
            Ok(_) => None,
            Err(e) => Some(e),
        }
    }

    /// The loaded rules, when loading succeeded.
    pub fn active_rules(&self) -> (r: Option<&Vec<Rule>>)
        ensures
            r.is_some() == self.rules_loaded(),
            match r {
                Some(v) => rules_view(v@) == self.spec_rules(),
                None => true,
            },
    {
        match &self.rules {
            Ok(v) => Some(v),
            Err(_) => None,
        }
    }

    /// A document was opened or changed with its full text: the snapshot
    /// under its identifier follows the one-key update model (stale versions
    /// are discarded), every other document is untouched, and the rule set
    /// never changes.
    pub fn update_document(&mut self, id: String, version: i32, text: String)
        requires
            old(self).wf(),
        ensures
            final (self).wf(),
            final (self).spec_store().snapshot(id@) == upsert_model(
                old(self).spec_store().snapshot(id@),
                version as int,
                text@,
            ),
            forall|k: Seq<char>|
                k != id@ ==> final (self).spec_store().snapshot(k) == old(
                    self,
                ).spec_store().snapshot(k),
            forall|k: Seq<char>|
                final (self).spec_store().has(k) == (old(self).spec_store().has(k) || k == id@),
            final (self).rules_unchanged(*old(self)),
    {
        self.store.upsert(id, version, text);
    }

    /// The rule set of one session never changes after construction.
    pub open spec fn rules_unchanged(self, other: Session) -> bool {
        &&& self.rules_loaded() == other.rules_loaded()
        &&& self.rules_loaded() ==> self.spec_rules() == other.spec_rules()
        &&& !self.rules_loaded() ==> self.spec_load_error() == other.spec_load_error()
    }

    /// A document was closed: its entry is gone until it is reopened, every
    /// other document is untouched.
    pub fn close_document(&mut self, id: &String)
        requires
            old(self).wf(),
        ensures
            final (self).wf(),
            !final (self).spec_store().has(id@),
            forall|k: Seq<char>|
                k != id@ ==> final (self).spec_store().snapshot(k) == old(
                    self,
                ).spec_store().snapshot(k),
            forall|k: Seq<char>|
                k != id@ ==> final (self).spec_store().has(k) == old(self).spec_store().has(k),
            final (self).rules_unchanged(*old(self)),
    {
        self.store.remove(id);
    }

    /// The live snapshot of one document, read at the moment of the request.
    pub fn get_document(&self, id: &String) -> (r: Option<&Document>)
        requires
            self.wf(),
        ensures
            r.is_some() == self.spec_store().has(id@),
            match r {
                Some(d) => {
                    &&& d.id@ == id@
                    &&& self.spec_store().snapshot(id@) == Some((d.version as int, d.text@))
                },
                None => self.spec_store().snapshot(id@) is None,
            },
    {
        self.store.get(id)
    }

    pub fn document_count(&self) -> (r: usize)
        ensures
            r == self.spec_store().doc_seq().len(),
    {
        self.store.len()
    }

    pub fn document_at(&self, i: usize) -> (r: &Document)
        requires
            i < self.spec_store().doc_seq().len(),
        ensures
            *r == self.spec_store().doc_seq()[i as int],
    {
        self.store.nth(i)
    }

    /// The combined scan of one document. `hits[i]` holds the matching
    /// collaborator's findings for rule `i` on the document's stored tree.
    /// After a failed rule load the answer is always empty: diagnostics are
    /// disabled for the session, silently.
    pub fn diagnostics_for(&self, hits: &Vec<Vec<MatchHit>>) -> (r: Vec<Diagnostic>)
        requires
            self.rules_loaded() ==> hits@.len() == self.spec_rules().len(),
        ensures
            !self.rules_loaded() ==> r@.len() == 0,
            self.rules_loaded() ==> diag_seq_view(r@) == scan_diags(
                self.spec_rules(),
                hits_view(hits@),
                self.spec_rules().len() as int,
            ),
    {
        match &self.rules {
            Ok(rules) => compute_diagnostics(rules, hits),
            Err(_) => Vec::new(),
        }
    }

    /// The fix pass of one code-action request. `hits[i]` holds the freshly
    /// recomputed matches of rule `i` against the live snapshot. An
    /// unsupported action kind, like a failed rule load, yields no edit and
    /// no error.
    pub fn fixes_for(
        &self,
        hits: &Vec<Vec<MatchHit>>,
        client_diags: &Vec<ClientDiagnostic>,
        kind: &String,
    ) -> (r: Vec<TextEdit>)
        requires
            self.rules_loaded() ==> hits@.len() == self.spec_rules().len(),
        ensures
            !self.rules_loaded() ==> r@.len() == 0,
            !is_supported_kind(kind@) ==> r@.len() == 0,
            self.rules_loaded() && is_supported_kind(kind@) ==> edit_seq_view(r@) == all_edits(
                self.spec_rules(),
                hits_view(hits@),
                cdiags_view(client_diags@),
                self.spec_rules().len() as int,
            ),
    {
        match &self.rules {
            Ok(rules) => resolve_fixes(rules, hits, client_diags, kind),
            Err(_) => Vec::new(),
        }
    }
}

} // verus!
