//! The initial scan. The caller walks the tree and reads and renders each
//! candidate (in parallel if it likes); this module decides which files are
//! candidates and loads the results into the state before live watching
//! starts.
use vstd::prelude::*;
use crate::classify::{in_scope, is_in_scope};
use crate::state::AppState;
use crate::watcher::{Action, RawKind, plan, planned, action_views};

verus! {

/// The files of a walk that the scan reads: those below `root` whose
/// relative path is in scope, as upsert actions keyed by that path.
pub fn scan_candidates(files: &Vec<String>, root: &str) -> (r: Vec<Action>)
    ensures
        action_views(r@) == planned(RawKind::Create, files@.map_values(|p: String| p@), root@),
{
    plan(RawKind::Create, files, root)
}

/// The documents after each `(path, html)` of `found` is stored in order,
/// skipping paths out of scope.
pub open spec fn loaded(
    docs: Map<Seq<char>, Seq<char>>,
    found: Seq<(Seq<char>, Seq<char>)>,
) -> Map<Seq<char>, Seq<char>>
    decreases found.len(),
{
    if found.len() == 0 {
        docs
    } else {
        let prev = loaded(docs, found.drop_last());
        let (k, v) = found.last();
        if in_scope(k) {
            prev.insert(k, v)
        } else {
            prev
        }
    }
}

pub open spec fn pair_views(v: Seq<(String, String)>) -> Seq<(Seq<char>, Seq<char>)> {
    v.map_values(|p: (String, String)| (p.0@, p.1@))
}

/// Stores the scan's rendered documents, without announcing them.
pub fn populate(state: &mut AppState, found: Vec<(String, String)>)
    requires
        old(state).wf(),
    ensures
        final(state).wf(),
        final(state).spec_root() == old(state).spec_root(),
        final(state).queues() == old(state).queues(),
        final(state).cap() == old(state).cap(),
        final(state).docs() == loaded(old(state).docs(), pair_views(found@)),
{
    let ghost all = pair_views(found@);
    assert(all.take(0) =~= Seq::<(Seq<char>, Seq<char>)>::empty());
    for entry in it: found
        invariant
            state.wf(),
            state.spec_root() == old(state).spec_root(),
            state.queues() == old(state).queues(),
            state.cap() == old(state).cap(),
            all == pair_views(it.seq()),
            state.docs() == loaded(old(state).docs(), all.take(it.index() as int)),
    {
        let ghost idx = it.index() as int;
        let ghost before = state.docs();
        let (path, html) = entry;
        proof {
            assert(all.take(idx + 1).drop_last() =~= all.take(idx));
            assert(all.take(idx + 1).last() == (path@, html@));
        }
        if is_in_scope(path.as_str()) {
            state.upsert(path, html);
        }
    }
    assert(all.take(all.len() as int) =~= all);
}

} // verus!
