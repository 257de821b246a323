//! The document cache: relative path to rendered HTML, listed in ascending
//! order of path.
use vstd::prelude::*;
use crate::order::{text_lt, strictly_ascending, text_less, lemma_irreflexive, lemma_total, lemma_transitive};
use crate::text::chars_of;

verus! {

/// The text of each string, in order.
pub open spec fn texts(v: Seq<String>) -> Seq<Seq<char>> {
    v.map_values(|s: String| s@)
}

/// Rendered documents keyed by relative path. The keys are held in strictly
/// ascending order, each beside its document. A sorted vector rather than
/// std's `BTreeMap`: with `String` keys the map's specification in vstd
/// proves next to nothing about lookups and order, while this layout lets
/// every operation and the sorted listing be proved exactly.
pub struct DocumentStore {
    keys: Vec<String>,
    docs: Vec<String>,
}

impl View for DocumentStore {
    type V = Map<Seq<char>, Seq<char>>;

    closed spec fn view(&self) -> Map<Seq<char>, Seq<char>> {
        Map::new(
            |k: Seq<char>| exists|i: int| 0 <= i < self.keys.len() && self.keys@[i]@ == k,
            |k: Seq<char>| self.docs@[self.slot(k)]@,
        )
    }
}

impl DocumentStore {
    /// An index at which `k` is held, when it is held.
    closed spec fn slot(&self, k: Seq<char>) -> int {
        choose|i: int| 0 <= i < self.keys.len() && self.keys@[i]@ == k
    }

    /// The keys, in the order they are held.
    pub closed spec fn key_texts(&self) -> Seq<Seq<char>> {
        texts(self.keys@)
    }

    /// Keys and documents pair up, and the keys are strictly ascending.
    pub closed spec fn wf(&self) -> bool {
        self.keys.len() == self.docs.len() && strictly_ascending(self.key_texts())
    }

    proof fn lemma_entries(&self)
        requires
            self.wf(),
        ensures
            forall|i: int|
                0 <= i < self.keys.len() ==> #[trigger] self@.contains_key(self.keys@[i]@)
                    && self@[self.keys@[i]@] == self.docs@[i]@,
            forall|k: Seq<char>|
                #[trigger] self@.contains_key(k) ==> exists|i: int|
                    0 <= i < self.keys.len() && self.keys@[i]@ == k,
    {
        assert forall|i: int| 0 <= i < self.keys.len() implies #[trigger] self@.contains_key(
            self.keys@[i]@,
        ) && self@[self.keys@[i]@] == self.docs@[i]@ by {
            let k = self.keys@[i]@;
            assert(0 <= i < self.keys.len() && self.keys@[i]@ == k);
            let j = self.slot(k);
            if j != i {
                lemma_irreflexive(k);
                assert(self.key_texts()[i] == k);
                assert(self.key_texts()[j] == k);
                if i < j {
                    assert(text_lt(self.key_texts()[i], self.key_texts()[j]));
                } else {
                    assert(text_lt(self.key_texts()[j], self.key_texts()[i]));
                }
            }
        }
    }

    /// An empty store.
    pub fn new() -> (r: DocumentStore)
        ensures
            r.wf(),
            r@ == Map::<Seq<char>, Seq<char>>::empty(),
    {
        let r = DocumentStore { keys: Vec::new(), docs: Vec::new() };
        assert(r@ =~= Map::<Seq<char>, Seq<char>>::empty());
        r
    }

    /// Where `key` stands, or would stand: every key before `pos` sorts
    /// before `key`; the key at `pos` is `key` when `found`, and otherwise
    /// every key from `pos` on sorts after it.
    fn position(&self, key: &str) -> (res: (usize, bool))
        requires
            self.wf(),
        ensures
            res.0 <= self.keys.len(),
            forall|j: int| 0 <= j < res.0 ==> text_lt(#[trigger] self.key_texts()[j], key@),
            res.1 ==> res.0 < self.keys.len() && self.key_texts()[res.0 as int] == key@,
            !res.1 ==> forall|j: int|
                res.0 <= j < self.keys.len() ==> text_lt(key@, #[trigger] self.key_texts()[j]),
    {
        let target = chars_of(key);
        let mut i: usize = 0;
        while i < self.keys.len()
            invariant
                self.wf(),
                target@ == key@,
                i <= self.keys.len(),
                forall|j: int| 0 <= j < i ==> text_lt(#[trigger] self.key_texts()[j], key@),
            decreases self.keys.len() - i,
        {
            let here = chars_of(self.keys[i].as_str());
            assert(self.key_texts()[i as int] == here@);
            if text_less(&here, &target) {
                i += 1;
            } else if text_less(&target, &here) {
                proof {
                    assert forall|j: int| i <= j < self.keys.len() implies text_lt(
                        key@,
                        #[trigger] self.key_texts()[j],
                    ) by {
                        if j > i {
                            assert(text_lt(self.key_texts()[i as int], self.key_texts()[j]));
                            lemma_transitive(key@, here@, self.key_texts()[j]);
                        }
                    }
                }
                return (i, false);
            } else {
                proof {
                    if here@ != key@ {
                        lemma_total(here@, key@);
                    }
                }
                return (i, true);
            }
        }
        (i, false)
    }

    proof fn lemma_absent(&self, key: Seq<char>, pos: int)
        requires
            self.wf(),
            0 <= pos <= self.keys.len(),
            forall|j: int| 0 <= j < pos ==> text_lt(#[trigger] self.key_texts()[j], key),
            forall|j: int|
                pos <= j < self.keys.len() ==> text_lt(key, #[trigger] self.key_texts()[j]),
        ensures
            !self@.contains_key(key),
    {
        if self@.contains_key(key) {
            self.lemma_entries();
            let i = choose|i: int| 0 <= i < self.keys.len() && self.keys@[i]@ == key;
            assert(self.key_texts()[i] == key);
            lemma_irreflexive(key);
        }
    }

    /// The document held for `path`.
    pub fn get(&self, path: &str) -> (r: Option<String>)
        requires
            self.wf(),
        ensures
            r is Some == self@.contains_key(path@),
            r matches Some(doc) ==> doc@ == self@[path@],
    {
        let (pos, found) = self.position(path);
        proof {
            self.lemma_entries();
        }
        if found {
            assert(self.key_texts()[pos as int] == self.keys@[pos as int]@);
            Some(self.docs[pos].clone())
        } else {
            proof {
                self.lemma_absent(path@, pos as int);
            }
            None
        }
    }

    /// Stores `html` for `path`, replacing what was there; true when `path`
    /// was not held before.
    pub fn upsert(&mut self, path: String, html: String) -> (was_new: bool)
        requires
            old(self).wf(),
        ensures
            final(self).wf(),
            was_new == !old(self)@.contains_key(path@),
            final(self)@ == old(self)@.insert(path@, html@),
    {
        let ghost prev = *self;
        let ghost key = path@;
        let ghost doc = html@;
        let (pos, found) = self.position(path.as_str());
        proof {
            prev.lemma_entries();
        }
        if found {
            self.docs.set(pos, html);
            proof {
                assert(self.key_texts() == prev.key_texts());
                self.lemma_entries();
                assert(prev.keys@[pos as int]@ == key);
                assert forall|k: Seq<char>| #[trigger] self@.contains_key(k) == prev@.insert(
                    key,
                    doc,
                ).contains_key(k) by {
                    if prev@.contains_key(k) {
                        let i = choose|i: int| 0 <= i < prev.keys.len() && prev.keys@[i]@ == k;
                        assert(self.keys@[i]@ == k);
                    }
                    if self@.contains_key(k) {
                        let i = choose|i: int| 0 <= i < self.keys.len() && self.keys@[i]@ == k;
                        assert(prev.keys@[i]@ == k);
                    }
                }
                assert forall|k: Seq<char>| #[trigger] self@.contains_key(k) implies self@[k]
                    == prev@.insert(key, doc)[k] by {
                    let i = choose|i: int| 0 <= i < self.keys.len() && self.keys@[i]@ == k;
                    if i != pos {
                        assert(prev.keys@[i]@ == k);
                        assert(k != key) by {
                            lemma_irreflexive(key);
                            if i < pos {
                                assert(text_lt(prev.key_texts()[i], prev.key_texts()[pos as int]));
                            } else {
                                assert(text_lt(prev.key_texts()[pos as int], prev.key_texts()[i]));
                            }
                        }
                    }
                }
                assert(self@ =~= prev@.insert(key, doc));
            }
            false
        } else {
            self.keys.insert(pos, path);
            self.docs.insert(pos, html);
            proof {
                prev.lemma_absent(key, pos as int);
                assert(self.key_texts() =~= prev.key_texts().insert(pos as int, key));
                assert forall|i: int, j: int|
                    0 <= i < j < self.keys.len() implies text_lt(
                    #[trigger] self.key_texts()[i],
                    #[trigger] self.key_texts()[j],
                ) by {
                    let p = pos as int;
                    if i < p && j > p {
                        assert(text_lt(prev.key_texts()[i], prev.key_texts()[j - 1]));
                    } else if i < p && j < p {
                        assert(text_lt(prev.key_texts()[i], prev.key_texts()[j]));
                    } else if i > p {
                        assert(text_lt(prev.key_texts()[i - 1], prev.key_texts()[j - 1]));
                    }
                }
                self.lemma_entries();
                assert forall|k: Seq<char>| #[trigger] self@.contains_key(k) == prev@.insert(
                    key,
                    doc,
                ).contains_key(k) by {
                    if prev@.contains_key(k) {
                        let i = choose|i: int| 0 <= i < prev.keys.len() && prev.keys@[i]@ == k;
                        if i < pos {
                            assert(self.keys@[i]@ == k);
                        } else {
                            assert(self.keys@[i + 1]@ == k);
                        }
                    }
                    if k == key {
                        assert(self.keys@[pos as int]@ == k);
                    }
                    if self@.contains_key(k) {
                        let i = choose|i: int| 0 <= i < self.keys.len() && self.keys@[i]@ == k;
                        if i < pos {
                            assert(prev.keys@[i]@ == k);
                        } else if i > pos {
                            assert(prev.keys@[i - 1]@ == k);
                        }
                    }
                }
                assert forall|k: Seq<char>| #[trigger] self@.contains_key(k) implies self@[k]
                    == prev@.insert(key, doc)[k] by {
                    let i = choose|i: int| 0 <= i < self.keys.len() && self.keys@[i]@ == k;
                    if i < pos {
                        assert(prev.keys@[i]@ == k);
                    } else if i > pos {
                        assert(prev.keys@[i - 1]@ == k);
                    }
                }
                assert(self@ =~= prev@.insert(key, doc));
            }
            true
        }
    }

    /// Drops the document held for `path`; true when there was one.
    pub fn remove(&mut self, path: &str) -> (existed: bool)
        requires
            old(self).wf(),
        ensures
            final(self).wf(),
            existed == old(self)@.contains_key(path@),
            final(self)@ == old(self)@.remove(path@),
    {
        let ghost prev = *self;
        let ghost key = path@;
        let (pos, found) = self.position(path);
        proof {
            prev.lemma_entries();
        }
        if found {
            self.keys.remove(pos);
            self.docs.remove(pos);
            proof {
                assert(prev.keys@[pos as int]@ == key);
                assert(self.key_texts() =~= prev.key_texts().remove(pos as int));
                assert forall|i: int, j: int|
                    0 <= i < j < self.keys.len() implies text_lt(
                    #[trigger] self.key_texts()[i],
                    #[trigger] self.key_texts()[j],
                ) by {
                    let p = pos as int;
                    if i < p && j >= p {
                        assert(text_lt(prev.key_texts()[i], prev.key_texts()[j + 1]));
                    } else if i < p && j < p {
                        assert(text_lt(prev.key_texts()[i], prev.key_texts()[j]));
                    } else {
                        assert(text_lt(prev.key_texts()[i + 1], prev.key_texts()[j + 1]));
                    }
                }
                self.lemma_entries();
                assert forall|i: int| 0 <= i < prev.keys.len() && i != pos implies #[trigger] prev.keys@[i]@ != key by {
                    lemma_irreflexive(key);
                    if i < pos {
                        assert(text_lt(prev.key_texts()[i], prev.key_texts()[pos as int]));
                    } else {
                        assert(text_lt(prev.key_texts()[pos as int], prev.key_texts()[i]));
                    }
                }
                assert forall|k: Seq<char>| #[trigger] self@.contains_key(k) == prev@.remove(
                    key,
                ).contains_key(k) by {
                    if prev@.contains_key(k) && k != key {
                        let i = choose|i: int| 0 <= i < prev.keys.len() && prev.keys@[i]@ == k;
                        if i < pos {
                            assert(self.keys@[i]@ == k);
                        } else {
                            assert(self.keys@[i - 1]@ == k);
                        }
                    }
                    if self@.contains_key(k) {
                        let i = choose|i: int| 0 <= i < self.keys.len() && self.keys@[i]@ == k;
                        if i < pos {
                            assert(prev.keys@[i]@ == k);
                        } else {
                            assert(prev.keys@[i + 1]@ == k);
                        }
                    }
                }
                assert forall|k: Seq<char>| #[trigger] self@.contains_key(k) implies self@[k]
                    == prev@.remove(key)[k] by {
                    let i = choose|i: int| 0 <= i < self.keys.len() && self.keys@[i]@ == k;
                    if i < pos {
                        assert(prev.keys@[i]@ == k);
                    } else {
                        assert(prev.keys@[i + 1]@ == k);
                    }
                }
                assert(self@ =~= prev@.remove(key));
            }
            true
        } else {
            proof {
                prev.lemma_absent(key, pos as int);
                assert(prev@.remove(key) =~= prev@);
            }
            false
        }
    }

    /// Every held path, in strictly ascending order.
    pub fn list(&self) -> (r: Vec<String>)
        requires
            self.wf(),
        ensures
            strictly_ascending(texts(r@)),
            forall|k: Seq<char>| texts(r@).contains(k) == self@.contains_key(k),
    {
        let mut out: Vec<String> = Vec::new();
        let mut i: usize = 0;
        while i < self.keys.len()
            invariant
                self.wf(),
                i <= self.keys.len(),
                texts(out@) == self.key_texts().take(i as int),
            decreases self.keys.len() - i,
        {
            let ghost before = out@;
            out.push(self.keys[i].clone());
            assert(out@ == before.push(self.keys@[i as int]));
            assert(texts(out@) =~= texts(before).push(self.keys@[i as int]@));
            assert(texts(out@) =~= self.key_texts().take(i + 1));
            i += 1;
        }
        proof {
            assert(texts(out@) =~= self.key_texts());
            self.lemma_entries();
            assert forall|k: Seq<char>| texts(out@).contains(k) == self@.contains_key(k) by {
                if self@.contains_key(k) {
                    let i = choose|i: int| 0 <= i < self.keys.len() && self.keys@[i]@ == k;
                    assert(texts(out@)[i] == k);
                }
            }
        }
        out
    }
}

} // verus!
