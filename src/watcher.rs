//! Turns raw filesystem notifications into canonical store mutations and
//! announcements. `plan` decides, for one notification, which paths to
//! upsert, remove or probe; the caller reads each file (or checks that it
//! exists) and hands the outcome to `apply_action`, one action at a time, so
//! that all mutations happen in one total order.
use vstd::prelude::*;
use crate::bus::SseEvent;
use crate::classify::{in_scope, is_in_scope, relative_path, strip_root};
use crate::state::AppState;

verus! {

/// The kinds of raw notification that the normalizer tells apart.
#[derive(Debug, Clone, Copy, PartialEq, Eq, Structural)]
pub enum RawKind {
    Create,
    Modify,
    Remove,
    /// A rename carrying both the old and the new path, in that order.
    RenameBoth,
    /// The old side of a rename delivered as two events.
    RenameFrom,
    /// The new side of a rename delivered as two events.
    RenameTo,
    /// A rename with no reliable pairing of old and new path.
    RenameAny,
    /// Anything else (access, metadata): ignored.
    Other,
}

/// What to do with one path.
#[derive(Debug, Clone, Copy, PartialEq, Eq, Structural)]
pub enum StepKind {
    /// Read and render the file, then store it.
    Upsert,
    /// Drop the document.
    Remove,
    /// Store the file if it exists on disk, else drop the document.
    Probe,
}

/// A canonical action on one in-scope path: `source` is the path as
/// notified, `key` its form relative to the root.
pub struct Action {
    pub kind: StepKind,
    pub source: String,
    pub key: String,
}

/// What the caller found when it looked at an action's source file.
pub enum Observation {
    /// The file was read; this is its rendered HTML.
    Rendered(String),
    /// The file exists but could not be read.
    Unreadable,
    /// The file does not exist.
    Missing,
}

impl Action {
    pub open spec fn spec_view(&self) -> (StepKind, Seq<char>, Seq<char>) {
        (self.kind, self.source@, self.key@)
    }
}

/// The action that every path of a notification of this kind gets.
pub open spec fn step_kind(kind: RawKind) -> StepKind {
    match kind {
        RawKind::Remove | RawKind::RenameFrom => StepKind::Remove,
        RawKind::RenameAny => StepKind::Probe,
        _ => StepKind::Upsert,
    }
}

/// The action for path `p`, if it lies below `root` and is in scope.
pub open spec fn step_of(k: StepKind, p: Seq<char>, root: Seq<char>) -> Seq<
    (StepKind, Seq<char>, Seq<char>),
> {
    match strip_root(p, root) {
        Some(rel) => if in_scope(rel) {
            seq![(k, p, rel)]
        } else {
            Seq::empty()
        },
        None => Seq::empty(),
    }
}

/// The actions of kind `k` for each path of `paths`, in order.
pub open spec fn steps_each(k: StepKind, paths: Seq<Seq<char>>, root: Seq<char>) -> Seq<
    (StepKind, Seq<char>, Seq<char>),
>
    decreases paths.len(),
{
    if paths.len() == 0 {
        Seq::empty()
    } else {
        steps_each(k, paths.drop_last(), root) + step_of(k, paths.last(), root)
    }
}

/// The canonical actions for one notification: a paired rename removes its
/// old path and upserts its new one; other renames and plain events act on
/// each path; anything else does nothing. Paths outside the root or out of
/// scope are ignored.
pub open spec fn planned(kind: RawKind, paths: Seq<Seq<char>>, root: Seq<char>) -> Seq<
    (StepKind, Seq<char>, Seq<char>),
> {
    match kind {
        RawKind::RenameBoth => if paths.len() >= 2 {
            step_of(StepKind::Remove, paths[0], root) + step_of(StepKind::Upsert, paths[1], root)
        } else {
            Seq::empty()
        },
        RawKind::Other => Seq::empty(),
        _ => steps_each(step_kind(kind), paths, root),
    }
}

pub open spec fn action_views(v: Seq<Action>) -> Seq<(StepKind, Seq<char>, Seq<char>)> {
    v.map_values(|a: Action| a.spec_view())
}

fn step_for(k: StepKind, p: &String, root: &str) -> (r: Option<Action>)
    ensures
        r matches Some(a) ==> step_of(k, p@, root@) == seq![a.spec_view()],
        r is None ==> step_of(k, p@, root@) == Seq::<(StepKind, Seq<char>, Seq<char>)>::empty(),
{
    match relative_path(p.as_str(), root) {
        Some(rel) => {
            if is_in_scope(rel.as_str()) {
                Some(Action { kind: k, source: p.clone(), key: rel })
            } else {
                None
            }
        },
        None => None,
    }
}

fn push_step(out: &mut Vec<Action>, step: Option<Action>)
    ensures
        step matches Some(a) ==> action_views(final(out)@) == action_views(old(out)@) + seq![
            a.spec_view(),
        ],
        step is None ==> final(out)@ == old(out)@,
{
    match step {
        Some(a) => {
            let ghost before = out@;
            let ghost v = a.spec_view();
            out.push(a);
            assert(action_views(out@) =~= action_views(before) + seq![v]);
        },
        None => {},
    }
}

/// The canonical actions for one raw notification of kind `kind` on `paths`,
/// for the tree at `root`.
pub fn plan(kind: RawKind, paths: &Vec<String>, root: &str) -> (r: Vec<Action>)
    ensures
        action_views(r@) == planned(kind, paths@.map_values(|p: String| p@), root@),
{
    let ghost views = paths@.map_values(|p: String| p@);
    match kind {
        RawKind::RenameBoth => {
            if paths.len() >= 2 {
                let mut out: Vec<Action> = Vec::new();
                assert(action_views(out@) =~= Seq::empty());
                push_step(&mut out, step_for(StepKind::Remove, &paths[0], root));
                push_step(&mut out, step_for(StepKind::Upsert, &paths[1], root));
                assert(action_views(out@) =~= planned(kind, views, root@));
                out
            } else {
                let out: Vec<Action> = Vec::new();
                assert(action_views(out@) =~= Seq::empty());
                out
            }
        },
        RawKind::Other => {
            let out: Vec<Action> = Vec::new();
            assert(action_views(out@) =~= Seq::empty());
            out
        },
        _ => {
            let k = match kind {
                RawKind::Remove | RawKind::RenameFrom => StepKind::Remove,
                RawKind::RenameAny => StepKind::Probe,
                _ => StepKind::Upsert,
            };
            let mut out: Vec<Action> = Vec::new();
            let mut i: usize = 0;
            assert(views.take(0) =~= Seq::<Seq<char>>::empty());
            assert(action_views(out@) =~= Seq::empty());
            while i < paths.len()
                invariant
                    k == step_kind(kind),
                    views == paths@.map_values(|p: String| p@),
                    i <= paths.len(),
                    action_views(out@) == steps_each(k, views.take(i as int), root@),
                decreases paths.len() - i,
            {
                push_step(&mut out, step_for(k, &paths[i], root));
                assert(views.take(i + 1).drop_last() =~= views.take(i as int));
                assert(views.take(i + 1).last() == paths@[i as int]@);
                i += 1;
            }
            assert(views.take(i as int) =~= views);
            out
        },
    }
}

/// The action stores the rendered file: an upsert or a probe whose file was
/// read, on an in-scope key.
pub open spec fn stores(action: Action, seen: Observation) -> bool {
    (action.kind is Upsert || action.kind is Probe) && seen is Rendered && in_scope(action.key@)
}

/// The action drops its key: a removal, or a probe whose file is missing.
pub open spec fn drops(action: Action, seen: Observation) -> bool {
    action.kind is Remove || (action.kind is Probe && seen is Missing)
}

/// Carries out one canonical action, given what was found on disk, and
/// announces the change: `FileAdded` or `FileChanged` for a stored document,
/// `FileRemoved` for a dropped one that was held. An unreadable file, or a
/// removal of a path that was not held, changes nothing and announces
/// nothing. Returns the announced event.
pub fn apply_action(state: &mut AppState, action: Action, seen: Observation) -> (r: Option<
    SseEvent,
>)
    requires
        old(state).wf(),
    ensures
        final(state).wf(),
        final(state).spec_root() == old(state).spec_root(),
        final(state).cap() == old(state).cap(),
        stores(action, seen) ==> {
            &&& final(state).docs() == old(state).docs().insert(
                action.key@,
                seen->Rendered_0@,
            )
            &&& r == Some(
                if old(state).docs().contains_key(action.key@) {
                    SseEvent::FileChanged(action.key)
                } else {
                    SseEvent::FileAdded(action.key)
                },
            )
            &&& AppState::announced(
                old(state).queues(),
                final(state).queues(),
                r->Some_0,
                old(state).cap(),
            )
        },
        drops(action, seen) && old(state).docs().contains_key(action.key@) ==> {
            &&& final(state).docs() == old(state).docs().remove(action.key@)
            &&& r == Some(SseEvent::FileRemoved(action.key))
            &&& AppState::announced(
                old(state).queues(),
                final(state).queues(),
                r->Some_0,
                old(state).cap(),
            )
        },
        !stores(action, seen) && !(drops(action, seen) && old(state).docs().contains_key(
            action.key@,
        )) ==> {
            &&& r is None
            &&& final(state).docs() == old(state).docs()
            &&& final(state).queues() == old(state).queues()
        },
{
    let key = action.key;
    let probe = match action.kind {
        StepKind::Probe => true,
        _ => false,
    };
    match action.kind {
        StepKind::Remove => {
            return remove_and_announce(state, key);
        },
        _ => {},
    }
    match seen {
        Observation::Rendered(html) => {
            if !is_in_scope(key.as_str()) {
                return None;
            }
            let was_new = state.upsert(key.clone(), html);
            let e = if was_new {
                SseEvent::FileAdded(key)
            } else {
                SseEvent::FileChanged(key)
            };
            state.publish(e.duplicate());
            Some(e)
        },
        Observation::Missing => {
            if probe {
                remove_and_announce(state, key)
            } else {
                None
            }
        },
        Observation::Unreadable => None,
    }
}

fn remove_and_announce(state: &mut AppState, key: String) -> (r: Option<SseEvent>)
    requires
        old(state).wf(),
    ensures
        final(state).wf(),
        final(state).spec_root() == old(state).spec_root(),
        final(state).cap() == old(state).cap(),
        final(state).docs() == old(state).docs().remove(key@),
        old(state).docs().contains_key(key@) ==> r == Some(SseEvent::FileRemoved(key))
            && AppState::announced(
            old(state).queues(),
            final(state).queues(),
            r->Some_0,
            old(state).cap(),
        ),
        !old(state).docs().contains_key(key@) ==> r is None && final(state).queues() == old(
            state,
        ).queues() && final(state).docs() == old(state).docs(),
{
    if state.remove(key.as_str()) {
        let e = SseEvent::FileRemoved(key);
        state.publish(e.duplicate());
        Some(e)
    } else {
        proof {
            assert(old(state).docs().remove(key@) =~= old(state).docs());
        }
        None
    }
}

/// `root` joined with the relative path `rel`.
pub open spec fn joined(root: Seq<char>, rel: Seq<char>) -> Seq<char> {
    root + seq!['/'] + rel
}

/// A paired rename of one in-scope file to another, inside the root,
/// becomes exactly two actions in this order: remove the old key, then
/// upsert the new one from its new path.
pub proof fn lemma_paired_rename(root: Seq<char>, from: Seq<char>, to: Seq<char>)
    requires
        root.len() > 0,
        root.last() != '/',
        in_scope(from),
        in_scope(to),
    ensures
        planned(RawKind::RenameBoth, seq![joined(root, from), joined(root, to)], root) == seq![
            (StepKind::Remove, joined(root, from), from),
            (StepKind::Upsert, joined(root, to), to),
        ],
{
    lemma_strip_joined(root, from);
    lemma_strip_joined(root, to);
    let paths = seq![joined(root, from), joined(root, to)];
    assert(paths[0] == joined(root, from));
    assert(paths[1] == joined(root, to));
    assert(planned(RawKind::RenameBoth, paths, root) =~= seq![
        (StepKind::Remove, joined(root, from), from),
        (StepKind::Upsert, joined(root, to), to),
    ]);
}

proof fn lemma_strip_joined(root: Seq<char>, rel: Seq<char>)
    requires
        root.len() > 0,
        root.last() != '/',
        rel.len() > 0,
    ensures
        strip_root(joined(root, rel), root) == Some(rel),
{
    let p = joined(root, rel);
    assert(p.take(root.len() as int) =~= root);
    assert(p[root.len() as int] == '/');
    assert(p.skip(root.len() + 1 as int) =~= rel);
    assert(p != root) by {
        assert(p.len() != root.len());
    }
}

} // verus!
