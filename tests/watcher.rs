use markdown_preview::bus::SseEvent;
use markdown_preview::state::AppState;
use markdown_preview::watcher::{apply_action, plan, Action, Observation, RawKind, StepKind};

fn paths(ps: &[&str]) -> Vec<String> {
    ps.iter().map(|p| p.to_string()).collect()
}

fn drain(state: &mut AppState, id: usize) -> Vec<SseEvent> {
    let mut out = Vec::new();
    while let Some(e) = state.recv(id) {
        out.push(e);
    }
    out
}

#[test]
fn paired_rename_moves_document() {
    let mut state = AppState::new("/w".to_string());
    state.upsert("a.md".to_string(), "<p>old</p>".to_string());
    let id = state.subscribe();
    let actions = plan(RawKind::RenameBoth, &paths(&["/w/a.md", "/w/b.md"]), "/w");
    assert_eq!(actions.len(), 2);
    let mut rendered = vec![Observation::Missing, Observation::Rendered("<p>new</p>".to_string())];
    rendered.reverse();
    for action in actions {
        let seen = rendered.pop().unwrap();
        apply_action(&mut state, action, seen);
    }
    assert_eq!(state.get_rendered("a.md"), None);
    assert_eq!(state.get_rendered("b.md"), Some("<p>new</p>".to_string()));
    assert_eq!(
        drain(&mut state, id),
        vec![SseEvent::FileRemoved("a.md".to_string()), SseEvent::FileAdded("b.md".to_string())]
    );
}

#[test]
fn rename_from_out_of_scope_is_a_creation() {
    let actions = plan(RawKind::RenameBoth, &paths(&["/w/a.txt", "/w/b.md"]), "/w");
    assert_eq!(actions.len(), 1);
    assert_eq!(actions[0].kind, StepKind::Upsert);
    assert_eq!(actions[0].key, "b.md");
    let actions = plan(RawKind::RenameBoth, &paths(&["/w/a.md", "/w/.hidden/b.md"]), "/w");
    assert_eq!(actions.len(), 1);
    assert_eq!(actions[0].kind, StepKind::Remove);
    assert_eq!(actions[0].key, "a.md");
    assert!(plan(RawKind::RenameBoth, &paths(&["/w/a.md"]), "/w").is_empty());
}

#[test]
fn plan_kinds() {
    let ps = paths(&["/w/x.md", "/w/y.txt", "/w/node_modules/z.md", "/w/d/e.md"]);
    let up = plan(RawKind::Create, &ps, "/w");
    assert_eq!(up.iter().map(|a| a.key.clone()).collect::<Vec<_>>(), vec!["x.md", "d/e.md"]);
    assert!(up.iter().all(|a| a.kind == StepKind::Upsert));
    assert!(plan(RawKind::Modify, &ps, "/w").iter().all(|a| a.kind == StepKind::Upsert));
    assert!(plan(RawKind::RenameTo, &ps, "/w").iter().all(|a| a.kind == StepKind::Upsert));
    assert!(plan(RawKind::Remove, &ps, "/w").iter().all(|a| a.kind == StepKind::Remove));
    assert!(plan(RawKind::RenameFrom, &ps, "/w").iter().all(|a| a.kind == StepKind::Remove));
    assert!(plan(RawKind::RenameAny, &ps, "/w").iter().all(|a| a.kind == StepKind::Probe));
    assert_eq!(plan(RawKind::Remove, &ps, "/w").len(), 2);
    assert!(plan(RawKind::Other, &ps, "/w").is_empty());
}

fn action(kind: StepKind, key: &str) -> Action {
    Action { kind, source: format!("/w/{key}"), key: key.to_string() }
}

#[test]
fn upsert_announces_added_then_changed() {
    let mut state = AppState::new("/w".to_string());
    let id = state.subscribe();
    let e1 = apply_action(&mut state, action(StepKind::Upsert, "n.md"), Observation::Rendered("1".into()));
    let e2 = apply_action(&mut state, action(StepKind::Upsert, "n.md"), Observation::Rendered("2".into()));
    assert_eq!(e1, Some(SseEvent::FileAdded("n.md".into())));
    assert_eq!(e2, Some(SseEvent::FileChanged("n.md".into())));
    assert_eq!(state.get_rendered("n.md"), Some("2".to_string()));
    assert_eq!(drain(&mut state, id).len(), 2);
}

#[test]
fn unreadable_file_is_dropped_silently() {
    let mut state = AppState::new("/w".to_string());
    let id = state.subscribe();
    assert_eq!(apply_action(&mut state, action(StepKind::Upsert, "n.md"), Observation::Unreadable), None);
    assert_eq!(apply_action(&mut state, action(StepKind::Upsert, "n.md"), Observation::Missing), None);
    assert!(state.file_list().is_empty());
    assert!(drain(&mut state, id).is_empty());
}

#[test]
fn remove_of_absent_path_announces_nothing() {
    let mut state = AppState::new("/w".to_string());
    let id = state.subscribe();
    assert_eq!(apply_action(&mut state, action(StepKind::Remove, "n.md"), Observation::Missing), None);
    assert!(drain(&mut state, id).is_empty());
}

#[test]
fn probe_upserts_or_removes() {
    let mut state = AppState::new("/w".to_string());
    let id = state.subscribe();
    let e = apply_action(&mut state, action(StepKind::Probe, "p.md"), Observation::Rendered("x".into()));
    assert_eq!(e, Some(SseEvent::FileAdded("p.md".into())));
    let e = apply_action(&mut state, action(StepKind::Probe, "p.md"), Observation::Unreadable);
    assert_eq!(e, None);
    let e = apply_action(&mut state, action(StepKind::Probe, "p.md"), Observation::Missing);
    assert_eq!(e, Some(SseEvent::FileRemoved("p.md".into())));
    let e = apply_action(&mut state, action(StepKind::Probe, "p.md"), Observation::Missing);
    assert_eq!(e, None);
    assert_eq!(
        drain(&mut state, id),
        vec![SseEvent::FileAdded("p.md".into()), SseEvent::FileRemoved("p.md".into())]
    );
}

#[test]
fn out_of_scope_action_changes_nothing() {
    let mut state = AppState::new("/w".to_string());
    let e = apply_action(&mut state, action(StepKind::Upsert, ".git/x.md"), Observation::Rendered("x".into()));
    assert_eq!(e, None);
    assert!(state.file_list().is_empty());
}
