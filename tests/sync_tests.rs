use envsafe_cli::config::ProjectConfig;
use envsafe_cli::storage::SharedEnvData;
use envsafe_cli::sync::{
    choose_source, determine_environment, next_snapshot, next_version, resolve_target, resync,
    step, SyncAction, SyncEvent, SyncState, TargetError, VarSource,
};
use envsafe_cli::vars::VariableSet;

fn cached(version: u64, project: &str, env: &str) -> Option<SharedEnvData> {
    let mut variables = VariableSet::new();
    variables.insert("FOO".to_string(), "cached".to_string());
    Some(SharedEnvData {
        version,
        project_id: project.to_string(),
        environment: env.to_string(),
        variables,
        last_updated: "t".to_string(),
    })
}

#[test]
fn run_uses_cache_for_same_target_and_fetches_otherwise() {
    let cache = cached(3, "p", "dev");
    assert_eq!(choose_source(&cache, "p", "dev"), VarSource::Cached);
    assert_eq!(choose_source(&cache, "p", "staging"), VarSource::Fetch);
    assert_eq!(choose_source(&None, "p", "dev"), VarSource::Fetch);
    let prior = cache.as_ref().unwrap().version;
    let mut fetched = VariableSet::new();
    fetched.insert("FOO".to_string(), "staging-value".to_string());
    let snap = next_snapshot(prior, "p", "staging", fetched, "t1");
    assert_eq!(snap.version, 4);
    assert_eq!(snap.environment, "staging");
    assert_eq!(choose_source(&Some(snap), "p", "staging"), VarSource::Cached);
}

#[test]
fn next_version_saturates() {
    assert_eq!(next_version(0), 1);
    assert_eq!(next_version(u64::MAX), u64::MAX);
}

#[test]
fn sync_loop_steps() {
    let (s, a) = step(&SyncState::Connecting, &SyncEvent::Connected { cached_version: 3 });
    assert_eq!(s, SyncState::Synced { version: 4 });
    assert_eq!(a, SyncAction::Resync { version: 4 });
    let (s, a) = step(&s, &SyncEvent::Message { text: "update".to_string() });
    assert_eq!(a, SyncAction::Resync { version: 5 });
    let (s, a) = step(&s, &SyncEvent::Message { text: "ping".to_string() });
    assert_eq!(s, SyncState::Synced { version: 5 });
    assert_eq!(a, SyncAction::Ignore);
    let (s, a) = step(&s, &SyncEvent::Unreadable);
    assert_eq!(a, SyncAction::Ignore);
    let (s, a) = step(&s, &SyncEvent::StreamEnded);
    assert_eq!((s, a), (SyncState::Closed, SyncAction::Stop));
}

#[test]
fn resync_writes_snapshot_and_file() {
    let mut fetched = VariableSet::new();
    fetched.insert("FOO".to_string(), "remote1".to_string());
    let (snap, text) = resync(9, "p", "dev", fetched, "FOO=old\nBAR=mine\n", "T");
    assert_eq!(snap.version, 9);
    assert_eq!(snap.variables.get("FOO").unwrap(), "remote1");
    assert!(text.ends_with("FOO=remote1\n\n# Local variables (not managed by EnvSafe)\nBAR=mine\n"));
}

#[test]
fn shortcut_flags_pick_environment() {
    assert_eq!(determine_environment(Some("x".to_string()), true, true, false), Some("development".to_string()));
    assert_eq!(determine_environment(None, false, true, true), Some("staging".to_string()));
    assert_eq!(determine_environment(None, false, false, true), Some("production".to_string()));
    assert_eq!(determine_environment(Some("qa".to_string()), false, false, false), Some("qa".to_string()));
    assert_eq!(determine_environment(None, false, false, false), None);
}

#[test]
fn target_from_argument_or_link() {
    let t = resolve_target(Some("slug".to_string()), None, None).ok().unwrap();
    assert_eq!((t.project_id.as_str(), t.project_slug.as_str(), t.environment.as_str()), ("slug", "slug", "development"));
    let link = ProjectConfig {
        workspace_id: "w".to_string(),
        project_id: "id1".to_string(),
        project_name: "n".to_string(),
        project_slug: Some("s1".to_string()),
    };
    let t = resolve_target(None, Some("prod".to_string()), Some(link)).ok().unwrap();
    assert_eq!((t.project_id.as_str(), t.project_slug.as_str(), t.environment.as_str()), ("id1", "s1", "prod"));
    assert!(matches!(resolve_target(None, None, None), Err(TargetError::NoProject)));
}
