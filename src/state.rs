//! The shared state: the document store, whose every key is in scope, and
//! the change bus that announces each mutation.
use vstd::prelude::*;
use crate::bus::{ChangeBus, SseEvent, deliver, has_unread};
use crate::classify::{has_skipped_component, in_scope};
use crate::order::{lemma_ascending_unique, strictly_ascending};
use crate::store::{DocumentStore, texts};

verus! {

/// How many unread events each subscriber may hold.
pub const BUS_CAPACITY: usize = 64;

/// The documents of one directory tree and the channel that announces their
/// changes.
pub struct AppState {
    root: String,
    files: DocumentStore,
    tx: ChangeBus,
}

impl AppState {
    pub closed spec fn spec_root(&self) -> Seq<char> {
        self.root@
    }

    /// The documents, by relative path.
    pub closed spec fn docs(&self) -> Map<Seq<char>, Seq<char>> {
        self.files@
    }

    /// The subscribers' queues, in order of subscription.
    pub closed spec fn queues(&self) -> Seq<Option<Seq<SseEvent>>> {
        self.tx@
    }

    pub closed spec fn cap(&self) -> nat {
        self.tx.cap()
    }

    /// The store and bus are well formed, and every stored path is in scope.
    pub closed spec fn wf(&self) -> bool {
        &&& self.files.wf()
        &&& self.tx.wf()
        &&& forall|k: Seq<char>| #[trigger] self.files@.contains_key(k) ==> in_scope(k)
    }

    /// The state after publishing `e`: each open subscriber's queue receives it.
    pub open spec fn announced(
        before: Seq<Option<Seq<SseEvent>>>,
        after: Seq<Option<Seq<SseEvent>>>,
        e: SseEvent,
        cap: nat,
    ) -> bool {
        after.len() == before.len() && forall|i: int|
            0 <= i < before.len() ==> #[trigger] after[i] == deliver(before[i], e, cap)
    }

    proof fn lemma_wf_facts(&self)
        requires
            self.wf(),
        ensures
            self.cap() > 0,
            forall|k: Seq<char>| #[trigger] self.docs().contains_key(k) ==> in_scope(k),
    {
    }

    /// An empty state for the tree at `root`.
    pub fn new(root: String) -> (r: AppState)
        ensures
            r.wf(),
            r.spec_root() == root@,
            r.docs() == Map::<Seq<char>, Seq<char>>::empty(),
            r.queues() == Seq::<Option<Seq<SseEvent>>>::empty(),
            r.cap() == BUS_CAPACITY,
    {
        AppState { root, files: DocumentStore::new(), tx: ChangeBus::new(BUS_CAPACITY) }
    }

    /// The directory whose documents are held.
    pub fn root(&self) -> (r: &String)
        ensures
            r@ == self.spec_root(),
    {
        &self.root
    }

    /// Every held path, in strictly ascending order.
    pub fn file_list(&self) -> (r: Vec<String>)
        requires
            self.wf(),
        ensures
            strictly_ascending(texts(r@)),
            forall|k: Seq<char>| texts(r@).contains(k) == self.docs().contains_key(k),
    {
        self.files.list()
    }

    /// The rendered document held for `path`.
    pub fn get_rendered(&self, path: &str) -> (r: Option<String>)
        requires
            self.wf(),
        ensures
            r is Some == self.docs().contains_key(path@),
            r matches Some(doc) ==> doc@ == self.docs()[path@],
    {
        self.files.get(path)
    }

    /// Stores `html` for `path`, which must be in scope, replacing what was
    /// there; true when `path` was not held before. Nothing is published.
    pub fn upsert(&mut self, path: String, html: String) -> (was_new: bool)
        requires
            old(self).wf(),
            in_scope(path@),
        ensures
            final(self).wf(),
            final(self).spec_root() == old(self).spec_root(),
            final(self).queues() == old(self).queues(),
            final(self).cap() == old(self).cap(),
            was_new == !old(self).docs().contains_key(path@),
            final(self).docs() == old(self).docs().insert(path@, html@),
    {
        let ghost key = path@;
        let was_new = self.files.upsert(path, html);
        assert forall|k: Seq<char>| #[trigger] self.files@.contains_key(k) implies in_scope(k) by {
            if k != key {
                assert(old(self).files@.contains_key(k));
            }
        }
        was_new
    }

    /// Drops the document held for `path`; true when there was one. Nothing
    /// is published.
    pub fn remove(&mut self, path: &str) -> (existed: bool)
        requires
            old(self).wf(),
        ensures
            final(self).wf(),
            final(self).spec_root() == old(self).spec_root(),
            final(self).queues() == old(self).queues(),
            final(self).cap() == old(self).cap(),
            existed == old(self).docs().contains_key(path@),
            final(self).docs() == old(self).docs().remove(path@),
    {
        let existed = self.files.remove(path);
        assert forall|k: Seq<char>| #[trigger] self.files@.contains_key(k) implies in_scope(k) by {
            assert(old(self).files@.contains_key(k));
        }
        existed
    }

    /// Announces `e` to every open subscriber, never blocking.
    pub fn publish(&mut self, e: SseEvent)
        requires
            old(self).wf(),
        ensures
            final(self).wf(),
            final(self).spec_root() == old(self).spec_root(),
            final(self).docs() == old(self).docs(),
            final(self).cap() == old(self).cap(),
            Self::announced(old(self).queues(), final(self).queues(), e, old(self).cap()),
    {
        self.tx.publish(e);
    }

    /// How many subscriber slots there are, open or closed.
    pub fn subscriber_count(&self) -> (r: usize)
        ensures
            r == self.queues().len(),
    {
        self.tx.subscriber_count()
    }

    /// A new subscriber, which receives only events published from now on;
    /// it takes the first closed slot when there is one.
    pub fn subscribe(&mut self) -> (id: usize)
        requires
            old(self).wf(),
            old(self).queues().len() < usize::MAX,
        ensures
            final(self).wf(),
            final(self).spec_root() == old(self).spec_root(),
            final(self).docs() == old(self).docs(),
            final(self).cap() == old(self).cap(),
            id <= old(self).queues().len(),
            forall|j: int| 0 <= j < id ==> #[trigger] old(self).queues()[j] is Some,
            id < old(self).queues().len() ==> old(self).queues()[id as int] is None
                && final(self).queues() == old(self).queues().update(
                id as int,
                Some(Seq::<SseEvent>::empty()),
            ),
            id == old(self).queues().len() ==> final(self).queues() == old(self).queues().push(
                Some(Seq::<SseEvent>::empty()),
            ),
    {
        self.tx.subscribe()
    }

    /// Closes subscriber `id`.
    pub fn unsubscribe(&mut self, id: usize)
        requires
            old(self).wf(),
        ensures
            final(self).wf(),
            final(self).spec_root() == old(self).spec_root(),
            final(self).docs() == old(self).docs(),
            final(self).cap() == old(self).cap(),
            id < old(self).queues().len() ==> final(self).queues() == old(self).queues().update(
                id as int,
                None,
            ),
            id >= old(self).queues().len() ==> final(self).queues() == old(self).queues(),
    {
        self.tx.unsubscribe(id)
    }

    /// The oldest unread event of subscriber `id`, if any.
    pub fn recv(&mut self, id: usize) -> (r: Option<SseEvent>)
        requires
            old(self).wf(),
        ensures
            final(self).wf(),
            final(self).spec_root() == old(self).spec_root(),
            final(self).docs() == old(self).docs(),
            final(self).cap() == old(self).cap(),
            has_unread(old(self).queues(), id as int) ==> r == Some(
                old(self).queues()[id as int]->Some_0[0],
            ) && final(self).queues() == old(self).queues().update(
                id as int,
                Some(old(self).queues()[id as int]->Some_0.drop_first()),
            ),
            !has_unread(old(self).queues(), id as int) ==> r is None && final(self).queues()
                == old(self).queues(),
    {
        self.tx.recv(id)
    }
}

/// A path with a hidden or ignored-directory component is never stored,
/// whatever filled the state: every operation keeps the state well formed.
pub proof fn lemma_skipped_never_stored(state: &AppState, p: Seq<char>)
    requires
        state.wf(),
        has_skipped_component(p),
    ensures
        !state.docs().contains_key(p),
{
    state.lemma_wf_facts();
}

/// Two upserts of one new path: the first reports a new key, the second
/// does not, and the second content is what is held.
pub proof fn lemma_upsert_twice(
    docs: Map<Seq<char>, Seq<char>>,
    p: Seq<char>,
    first: Seq<char>,
    second: Seq<char>,
)
    requires
        !docs.contains_key(p),
    ensures
        docs.insert(p, first).contains_key(p),
        docs.insert(p, first).insert(p, second)[p] == second,
        docs.insert(p, first).insert(p, second) == docs.insert(p, second),
{
    assert(docs.insert(p, first).insert(p, second) =~= docs.insert(p, second));
}

/// Removing a path that is not held changes nothing, so the listing stays
/// the same: two listings of the same paths are equal.
pub proof fn lemma_remove_absent(
    docs: Map<Seq<char>, Seq<char>>,
    p: Seq<char>,
    before: Seq<Seq<char>>,
    after: Seq<Seq<char>>,
)
    requires
        !docs.contains_key(p),
        strictly_ascending(before),
        forall|k: Seq<char>| before.contains(k) == docs.contains_key(k),
        strictly_ascending(after),
        forall|k: Seq<char>| after.contains(k) == docs.remove(p).contains_key(k),
    ensures
        docs.remove(p) == docs,
        after == before,
{
    assert(docs.remove(p) =~= docs);
    lemma_ascending_unique(after, before);
}

} // verus!
