use vstd::prelude::*;

verus! {

/// One open document: its identifier, the editor-supplied version, and the
/// full text of the snapshot that the parsed tree was built from.
pub struct Document {
    pub id: String,
    pub version: i32,
    pub text: String,
}

/// The versioned store of open documents. An identifier occurs at most once;
/// an update replaces an entry only when its version is strictly greater than
/// the stored one, and is otherwise discarded as stale.
pub struct DocumentStore {
    docs: Vec<Document>,
}

/// What a single update does to the snapshot stored under one identifier:
/// a missing entry is created, a strictly newer version replaces, anything
/// else (older or equal) is dropped.
pub open spec fn upsert_model(
    prev: Option<(int, Seq<char>)>,
    version: int,
    text: Seq<char>,
) -> Option<(int, Seq<char>)> {
    match prev {
        None => Some((version, text)),
        Some((v, t)) => if version > v {
            Some((version, text))
        } else {
            Some((v, t))
        },
    }
}

/// The snapshot under one identifier after a whole sequence of updates,
/// applied in order.
pub open spec fn apply_updates(
    prev: Option<(int, Seq<char>)>,
    updates: Seq<(int, Seq<char>)>,
) -> Option<(int, Seq<char>)>
    decreases updates.len(),
{
    if updates.len() == 0 {
        prev
    } else {
        upsert_model(apply_updates(prev, updates.drop_last()), updates.last().0, updates.last().1)
    }
}

/// Version monotonicity: a sequence of updates with strictly increasing
/// versions, each newer than whatever was stored before, leaves exactly the
/// last update's snapshot in the store.
pub proof fn lemma_version_monotonic(
    prev: Option<(int, Seq<char>)>,
    updates: Seq<(int, Seq<char>)>,
)
    requires
        updates.len() > 0,
        forall|a: int, b: int| 0 <= a < b < updates.len() ==> updates[a].0 < updates[b].0,
        prev is Some ==> prev.unwrap().0 < updates[0].0,
    ensures
        apply_updates(prev, updates) == Some(updates.last()),
    decreases updates.len(),
{
    if updates.len() == 1 {
        assert(apply_updates(prev, updates.drop_last()) == prev);
    } else {
        let front = updates.drop_last();
        assert(forall|a: int, b: int| 0 <= a < b < front.len() ==> front[a].0 < front[b].0);
        lemma_version_monotonic(prev, front);
        assert(front.last() == updates[updates.len() - 2]);
        assert(updates[updates.len() - 2].0 < updates.last().0);
    }
}

/// Stale update no-op: an update whose version is not strictly greater than
/// the stored one leaves the snapshot exactly as it was.
pub proof fn lemma_stale_update_noop(
    prev: Option<(int, Seq<char>)>,
    version: int,
    text: Seq<char>,
)
    requires
        prev is Some,
        version <= prev.unwrap().0,
    ensures
        upsert_model(prev, version, text) == prev,
{
}

impl DocumentStore {
    pub closed spec fn doc_seq(self) -> Seq<Document> {
        self.docs@
    }

    /// Identifiers are pairwise distinct.
    pub closed spec fn wf(self) -> bool {
        forall|i: int, j: int|
            0 <= i < j < self.docs@.len() ==> self.docs@[i].id@ != self.docs@[j].id@
    }

    pub closed spec fn has(self, id: Seq<char>) -> bool {
        exists|i: int| 0 <= i < self.docs@.len() && self.docs@[i].id@ == id
    }

    pub closed spec fn index_of(self, id: Seq<char>) -> int {
        choose|i: int| 0 <= i < self.docs@.len() && self.docs@[i].id@ == id
    }

    /// The stored snapshot under an identifier: version and text.
    pub closed spec fn snapshot(self, id: Seq<char>) -> Option<(int, Seq<char>)> {
        if self.has(id) {
            let d = self.docs@[self.index_of(id)];
            Some((d.version as int, d.text@))
        } else {
            None
        }
    }

    /// In a well-formed store the index of an identifier is the only one
    /// carrying it.
    proof fn lemma_index_unique(self, id: Seq<char>, i: int)
        requires
            self.wf(),
            0 <= i < self.docs@.len(),
            self.docs@[i].id@ == id,
        ensures
            self.has(id),
            self.index_of(id) == i,
    {
        assert(self.has(id));
        let j = self.index_of(id);
        if j < i {
            assert(self.docs@[j].id@ != self.docs@[i].id@);
        } else if j > i {
            assert(self.docs@[i].id@ != self.docs@[j].id@);
        }
    }

    /// A document is open exactly when it has a snapshot.
    pub proof fn lemma_has_snapshot(self, k: Seq<char>)
        ensures
            self.has(k) == (self.snapshot(k) is Some),
    {
    }

    /// Every stored entry's identifier is one the store has.
    pub proof fn lemma_doc_seq_has(self, i: int)
        requires
            0 <= i < self.doc_seq().len(),
        ensures
            self.has(self.doc_seq()[i].id@),
    {
        assert(0 <= i < self.docs@.len() && self.docs@[i].id@ == self.doc_seq()[i].id@);
    }

    pub fn new() -> (r: DocumentStore)
        ensures
            r.wf(),
            forall|k: Seq<char>| !r.has(k),
            forall|k: Seq<char>| r.snapshot(k) is None,
            r.doc_seq().len() == 0,
    {
        DocumentStore { docs: Vec::new() }
    }

    pub fn len(&self) -> (r: usize)
        ensures
            r == self.doc_seq().len(),
    {
        self.docs.len()
    }

    pub fn nth(&self, i: usize) -> (r: &Document)
        requires
            i < self.doc_seq().len(),
        ensures
            *r == self.doc_seq()[i as int],
    {
        &self.docs[i]
    }

    /// Index of the entry carrying `id`, if any.
    fn find(&self, id: &String) -> (r: Option<usize>)
        requires
            self.wf(),
        ensures
            match r {
                Some(i) => i < self.docs@.len() && self.docs@[i as int].id@ == id@ && self.has(
                    id@,
                ) && self.index_of(id@) == i,
                None => !self.has(id@),
            },
    {
        let mut i: usize = 0;
        while i < self.docs.len()
            invariant
                self.wf(),
                i <= self.docs@.len(),
                forall|j: int| 0 <= j < i ==> self.docs@[j].id@ != id@,
            decreases self.docs@.len() - i,
        {
            if self.docs[i].id == *id {
                proof {
                    self.lemma_index_unique(id@, i as int);
                }
                return Some(i);
            }
            i = i + 1;
        }
        None
    }

    /// Current snapshot of a document, if it is open.
    pub fn get(&self, id: &String) -> (r: Option<&Document>)
        requires
            self.wf(),
        ensures
            r.is_some() == self.has(id@),
            match r {
                Some(d) => {
                    &&& d.id@ == id@
                    &&& self.snapshot(id@) == Some((d.version as int, d.text@))
                },
                None => self.snapshot(id@) is None,
            },
    {
        match self.find(id) {
            Some(i) => Some(&self.docs[i]),
            None => None,
        }
    }

    /// Applies one full-text update. A missing entry is inserted; an entry
    /// with a strictly older version is replaced atomically; a stale update
    /// (incoming version not strictly greater) leaves the store unchanged.
    /// No case is an error.
    pub fn upsert(&mut self, id: String, version: i32, text: String)
        requires
            old(self).wf(),
        ensures
            final (self).wf(),
            final (self).snapshot(id@) == upsert_model(
                old(self).snapshot(id@),
                version as int,
                text@,
            ),
            forall|k: Seq<char>| k != id@ ==> final (self).snapshot(k) == old(self).snapshot(k),
            forall|k: Seq<char>| final (self).has(k) == (old(self).has(k) || k == id@),
    {
        let ghost pre = *self;
        let ghost idv = id@;
        let ghost textv = text@;
        match self.find(&id) {
            Some(i) => {
                if version > self.docs[i].version {
                    let _ = self.docs.remove(i);
                    let ghost mid = *self;
                    self.docs.push(Document { id, version, text });
                    proof {
                        self.lemma_upsert_replace(pre, mid, idv, i as int, version as int, textv);
                    }
                }
            },
            None => {
                self.docs.push(Document { id, version, text });
                proof {
                    self.lemma_upsert_insert(pre, idv, version as int, textv);
                }
            },
        }
    }

    /// After removing index `i` of `pre` (giving `mid`) and pushing a fresh
    /// entry for `id`, the store holds the new snapshot under `id` and is
    /// elsewhere unchanged.
    proof fn lemma_upsert_replace(
        self,
        pre: DocumentStore,
        mid: DocumentStore,
        id: Seq<char>,
        i: int,
        version: int,
        text: Seq<char>,
    )
        requires
            pre.wf(),
            0 <= i < pre.docs@.len(),
            pre.docs@[i].id@ == id,
            mid.docs@ == pre.docs@.remove(i),
            self.docs@.len() == mid.docs@.len() + 1,
            self.docs@ == mid.docs@.push(self.docs@.last()),
            self.docs@.last().id@ == id,
            self.docs@.last().version as int == version,
            self.docs@.last().text@ == text,
        ensures
            self.wf(),
            self.snapshot(id) == Some((version, text)),
            forall|k: Seq<char>| k != id ==> self.snapshot(k) == pre.snapshot(k),
            forall|k: Seq<char>| self.has(k) == (pre.has(k) || k == id),
    {
        let last = self.docs@.len() - 1;
        // every entry of mid comes from pre, away from index i
        assert(forall|m: int|
            0 <= m < mid.docs@.len() ==> mid.docs@[m] == if m < i {
                pre.docs@[m]
            } else {
                pre.docs@[m + 1]
            });
        assert forall|m: int, n: int| 0 <= m < n < self.docs@.len() implies self.docs@[m].id@
            != self.docs@[n].id@ by {
            if n < last {
                let pm = if m < i { m } else { m + 1 };
                let pn = if n < i { n } else { n + 1 };
                assert(pre.docs@[pm].id@ != pre.docs@[pn].id@);
            } else {
                // n is the fresh entry: ids of mid never equal `id`
                let pm = if m < i { m } else { m + 1 };
                if pm != i {
                    assert(pre.docs@[pm].id@ != pre.docs@[i].id@);
                }
            }
        }
        assert(self.wf());
        self.lemma_index_unique(id, last);
        assert(self.snapshot(id) == Some((version, text)));
        assert forall|k: Seq<char>| k != id implies self.snapshot(k) == pre.snapshot(k) by {
            if pre.has(k) {
                let p = pre.index_of(k);
                let s = if p < i {
                    p
                } else {
                    p - 1
                };
                assert(self.docs@[s] == pre.docs@[p]);
                self.lemma_index_unique(k, s);
                pre.lemma_index_unique(k, p);
            } else {
                if self.has(k) {
                    let s = self.index_of(k);
                    let pm = if s < i { s } else { s + 1 };
                    assert(pre.docs@[pm].id@ == k);
                }
            }
        }
        assert forall|k: Seq<char>| self.has(k) == (pre.has(k) || k == id) by {
            if self.has(k) && k != id {
                assert(self.snapshot(k) == pre.snapshot(k));
                if !pre.has(k) {
                    let s = self.index_of(k);
                    let pm = if s < i { s } else { s + 1 };
                    assert(pre.docs@[pm].id@ == k);
                }
            }
            if pre.has(k) && k != id {
                let p = pre.index_of(k);
                let s = if p < i {
                    p
                } else {
                    p - 1
                };
                assert(self.docs@[s] == pre.docs@[p]);
            }
        }
    }

    /// Pushing a fresh entry for an identifier the store does not hold.
    proof fn lemma_upsert_insert(
        self,
        pre: DocumentStore,
        id: Seq<char>,
        version: int,
        text: Seq<char>,
    )
        requires
            pre.wf(),
            !pre.has(id),
            self.docs@.len() == pre.docs@.len() + 1,
            self.docs@ == pre.docs@.push(self.docs@.last()),
            self.docs@.last().id@ == id,
            self.docs@.last().version as int == version,
            self.docs@.last().text@ == text,
        ensures
            self.wf(),
            self.snapshot(id) == Some((version, text)),
            forall|k: Seq<char>| k != id ==> self.snapshot(k) == pre.snapshot(k),
            forall|k: Seq<char>| self.has(k) == (pre.has(k) || k == id),
    {
        let last = self.docs@.len() - 1;
        assert forall|m: int, n: int| 0 <= m < n < self.docs@.len() implies self.docs@[m].id@
            != self.docs@[n].id@ by {
            if n < last {
                assert(pre.docs@[m].id@ != pre.docs@[n].id@);
            } else {
                assert(self.docs@[m] == pre.docs@[m]);
                if pre.docs@[m].id@ == id {
                    assert(pre.has(id));
                }
            }
        }
        self.lemma_index_unique(id, last);
        assert forall|k: Seq<char>| k != id implies self.snapshot(k) == pre.snapshot(k) by {
            if pre.has(k) {
                let p = pre.index_of(k);
                assert(self.docs@[p] == pre.docs@[p]);
                self.lemma_index_unique(k, p);
                pre.lemma_index_unique(k, p);
            } else {
                if self.has(k) {
                    let s = self.index_of(k);
                    assert(s < last ==> pre.docs@[s].id@ == k);
                }
            }
        }
        assert forall|k: Seq<char>| self.has(k) == (pre.has(k) || k == id) by {
            if pre.has(k) {
                let p = pre.index_of(k);
                assert(self.docs@[p] == pre.docs@[p]);
            }
            if self.has(k) && k != id {
                let s = self.index_of(k);
                assert(s < last ==> pre.docs@[s].id@ == k);
            }
        }
    }

    /// Closes a document: its entry is gone, all others keep their snapshot.
    pub fn remove(&mut self, id: &String)
        requires
            old(self).wf(),
        ensures
            final (self).wf(),
            !final (self).has(id@),
            forall|k: Seq<char>| k != id@ ==> final (self).snapshot(k) == old(self).snapshot(k),
            forall|k: Seq<char>| k != id@ ==> final (self).has(k) == old(self).has(k),
    {
        let ghost pre = *self;
        match self.find(id) {
            Some(i) => {
                let _ = self.docs.remove(i);
                proof {
                    self.lemma_remove(pre, id@, i as int);
                }
            },
            None => {},
        }
    }

    proof fn lemma_remove(self, pre: DocumentStore, id: Seq<char>, i: int)
        requires
            pre.wf(),
            0 <= i < pre.docs@.len(),
            pre.docs@[i].id@ == id,
            self.docs@ == pre.docs@.remove(i),
        ensures
            self.wf(),
            !self.has(id),
            forall|k: Seq<char>| k != id ==> self.snapshot(k) == pre.snapshot(k),
            forall|k: Seq<char>| k != id ==> self.has(k) == pre.has(k),
    {
        assert(forall|m: int|
            0 <= m < self.docs@.len() ==> self.docs@[m] == if m < i {
                pre.docs@[m]
            } else {
                pre.docs@[m + 1]
            });
        assert forall|m: int, n: int| 0 <= m < n < self.docs@.len() implies self.docs@[m].id@
            != self.docs@[n].id@ by {
            let pm = if m < i { m } else { m + 1 };
            let pn = if n < i { n } else { n + 1 };
            assert(pre.docs@[pm].id@ != pre.docs@[pn].id@);
        }
        assert forall|m: int| 0 <= m < self.docs@.len() implies self.docs@[m].id@ != id by {
            let pm = if m < i { m } else { m + 1 };
            if pm != i {
                assert(pre.docs@[pm].id@ != pre.docs@[i].id@);
            }
        }
        assert forall|k: Seq<char>| k != id implies self.snapshot(k) == pre.snapshot(k)
            && self.has(k) == pre.has(k) by {
            if pre.has(k) {
                let p = pre.index_of(k);
                let s = if p < i {
                    p
                } else {
                    p - 1
                };
                assert(self.docs@[s] == pre.docs@[p]);
                self.lemma_index_unique(k, s);
                pre.lemma_index_unique(k, p);
            } else {
                if self.has(k) {
                    let s = self.index_of(k);
                    let pm = if s < i { s } else { s + 1 };
                    assert(pre.docs@[pm].id@ == k);
                }
            }
        }
    }
}

} // verus!
