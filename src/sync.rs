//! Decisions of the commands that move variables: which project and environment,
//! where a run takes its variables from, and the live sync loop as a state machine.
use vstd::prelude::*;
use crate::config::{opt_view, ProjectConfig};
use crate::env_parser::parse_listing;
use crate::merge::{env_file_text, sync_env_file, without_keys};
use crate::storage::SharedEnvData;
use crate::vars::VariableSet;

verus! {

/// Picks the environment named by a shortcut flag, else the name given, if any.
pub fn determine_environment(env: Option<String>, dev: bool, staging: bool, prod: bool) -> (r:
    Option<String>)
    ensures
        dev ==> opt_view(r) == Some("development"@),
        !dev && staging ==> opt_view(r) == Some("staging"@),
        !dev && !staging && prod ==> opt_view(r) == Some("production"@),
        !dev && !staging && !prod ==> r == env,
{
    if dev {
        Some(String::from_str("development"))
    } else if staging {
        Some(String::from_str("staging"))
    } else if prod {
        Some(String::from_str("production"))
    } else {
        env
    }
}

/// The project and environment a command works on.
pub struct Target {
    /// The id shown to the user and kept in the cache.
    pub project_id: String,
    /// The name the remote service is asked for.
    pub project_slug: String,
    pub environment: String,
}

#[derive(Debug, PartialEq, Eq, Structural)]
pub enum TargetError {
    /// No project was named and the directory is not linked to one.
    NoProject,
}

/// The environment name, `development` when none is given.
pub open spec fn environment_or_default(environment: Option<String>) -> Seq<char> {
    match environment {
        Some(e) => e@,
        None => "development"@,
    }
}

/// A project named on the command line wins over the directory's link.
pub fn resolve_target(
    project: Option<String>,
    environment: Option<String>,
    local: Option<ProjectConfig>,
) -> (r: Result<Target, TargetError>)
    ensures
        r is Err <==> project is None && local is None,
        r is Err ==> r == Err::<Target, TargetError>(TargetError::NoProject),
        r is Ok ==> r->Ok_0.environment@ == environment_or_default(environment),
        project is Some ==> r is Ok && r->Ok_0.project_id == project->0 && r->Ok_0.project_slug
            == project->0,
        project is None && local is Some ==> r is Ok && r->Ok_0.project_id == local->0.project_id
            && r->Ok_0.project_slug == match local->0.project_slug {
            Some(s) => s,
            None => local->0.project_id,
        },
{
    let env_name = match environment {
        Some(e) => e,
        None => String::from_str("development"),
    };
    match project {
        Some(p) => Ok(Target { project_id: p.clone(), project_slug: p, environment: env_name }),
        None => match local {
            Some(c) => {
                let slug = c.project_ref();
                Ok(Target { project_id: c.project_id, project_slug: slug, environment: env_name })
            },
            None => Err(TargetError::NoProject),
        },
    }
}

/// Where a run takes its variables from.
#[derive(Debug, PartialEq, Eq, Structural)]
pub enum VarSource {
    /// The cached snapshot is for the requested project and environment.
    Cached,
    /// The remote service must be asked.
    Fetch,
}

pub open spec fn cache_matches(
    cached: Option<SharedEnvData>,
    project_id: Seq<char>,
    environment: Seq<char>,
) -> bool {
    match cached {
        Some(s) => s.project_id@ == project_id && s.environment@ == environment,
        None => false,
    }
}

/// Uses the cache when it holds the requested project and environment.
pub fn choose_source(cached: &Option<SharedEnvData>, project_id: &str, environment: &str) -> (r:
    VarSource)
    ensures
        r == (if cache_matches(*cached, project_id@, environment@) {
            VarSource::Cached
        } else {
            VarSource::Fetch
        }),
{
    match cached {
        Some(s) => {
            let p = String::from_str(project_id);
            let e = String::from_str(environment);
            if s.project_id == p && s.environment == e {
                VarSource::Cached
            } else {
                VarSource::Fetch
            }
        },
        None => VarSource::Fetch,
    }
}

/// The version after `v`; it stays at the largest value rather than wrap to "no data".
pub open spec fn next_version_spec(v: u64) -> u64 {
    if v < u64::MAX {
        (v + 1) as u64
    } else {
        v
    }
}

pub fn next_version(v: u64) -> (r: u64)
    ensures
        r == next_version_spec(v),
{
    if v < u64::MAX {
        v + 1
    } else {
        v
    }
}

/// A new snapshot that follows the one of version `prior_version`.
pub fn next_snapshot(
    prior_version: u64,
    project_id: &str,
    environment: &str,
    variables: VariableSet,
    timestamp: &str,
) -> (r: SharedEnvData)
    ensures
        r.version == next_version_spec(prior_version),
        r.project_id@ == project_id@,
        r.environment@ == environment@,
        r.variables == variables,
        r.last_updated@ == timestamp@,
{
    SharedEnvData {
        version: next_version(prior_version),
        project_id: String::from_str(project_id),
        environment: String::from_str(environment),
        variables,
        last_updated: String::from_str(timestamp),
    }
}

/// Where the live sync loop stands.
#[derive(Debug, PartialEq, Eq, Structural)]
pub enum SyncState {
    Connecting,
    /// Last resync wrote this version.
    Synced { version: u64 },
    Closed,
}

/// What the loop observed.
pub enum SyncEvent {
    /// The stream is open; the cache held this version.
    Connected { cached_version: u64 },
    /// A text message arrived.
    Message { text: String },
    /// A message arrived that is not text.
    Unreadable,
    /// The stream closed or failed.
    StreamEnded,
}

/// What the loop does next.
#[derive(Debug, PartialEq, Eq, Structural)]
pub enum SyncAction {
    /// Fetch everything, write the cache with this version, rewrite the file.
    Resync { version: u64 },
    Ignore,
    Stop,
}

pub open spec fn sync_step(state: SyncState, event: SyncEvent) -> (SyncState, SyncAction) {
    match (state, event) {
        (SyncState::Closed, _) => (SyncState::Closed, SyncAction::Stop),
        (_, SyncEvent::StreamEnded) => (SyncState::Closed, SyncAction::Stop),
        (SyncState::Connecting, SyncEvent::Connected { cached_version }) => {
            let v = next_version_spec(cached_version);
            (SyncState::Synced { version: v }, SyncAction::Resync { version: v })
        },
        (SyncState::Synced { version }, SyncEvent::Message { text }) => {
            if text@ == "update"@ {
                let v = next_version_spec(version);
                (SyncState::Synced { version: v }, SyncAction::Resync { version: v })
            } else {
                (state, SyncAction::Ignore)
            }
        },
        _ => (state, SyncAction::Ignore),
    }
}

/// One step of the live sync loop. The first resync follows the cache's version;
/// each later one follows the version this loop wrote last.
pub fn step(state: &SyncState, event: &SyncEvent) -> (r: (SyncState, SyncAction))
    ensures
        r == sync_step(*state, *event),
{
    match (state, event) {
        (SyncState::Closed, _) => (SyncState::Closed, SyncAction::Stop),
        (_, SyncEvent::StreamEnded) => (SyncState::Closed, SyncAction::Stop),
        (SyncState::Connecting, SyncEvent::Connected { cached_version }) => {
            let v = next_version(*cached_version);
            (SyncState::Synced { version: v }, SyncAction::Resync { version: v })
        },
        (SyncState::Synced { version }, SyncEvent::Message { text }) => {
            let update = String::from_str("update");
            if *text == update {
                let v = next_version(*version);
                (SyncState::Synced { version: v }, SyncAction::Resync { version: v })
            } else {
                (SyncState::Synced { version: *version }, SyncAction::Ignore)
            }
        },
        (SyncState::Connecting, _) => (SyncState::Connecting, SyncAction::Ignore),
        (SyncState::Synced { version }, _) => (SyncState::Synced { version: *version }, SyncAction::Ignore),
    }
}

/// Within one loop each resync writes the version after the one written before it,
/// and once the stream has ended every later event stops the loop.
pub proof fn law_loop_versions(state: SyncState, event: SyncEvent)
    ensures
        ({
            let (next, action) = sync_step(state, event);
            &&& state is Closed ==> next is Closed && action is Stop
            &&& event is StreamEnded ==> next is Closed && action is Stop
            &&& (state matches SyncState::Synced { version } && action is Resync) ==> {
                &&& action->version == next_version_spec(state->version)
                &&& state->version < u64::MAX ==> action->version > state->version
                &&& next == SyncState::Synced { version: action->version }
            }
            &&& (state matches SyncState::Synced { version } && !(action is Resync)) ==> (
            next is Closed || next == state)
        }),
{
}

/// What one resync writes: the snapshot for the cache and the new text of the local file.
pub fn resync(
    version: u64,
    project_id: &str,
    environment: &str,
    fetched: VariableSet,
    existing_file: &str,
    timestamp: &str,
) -> (r: (SharedEnvData, String))
    requires
        fetched.wf(),
    ensures
        r.0.version == version,
        r.0.project_id@ == project_id@,
        r.0.environment@ == environment@,
        r.0.variables == fetched,
        r.0.last_updated@ == timestamp@,
        r.1@ == env_file_text(
            project_id@,
            environment@,
            timestamp@,
            fetched@,
            without_keys(parse_listing(existing_file@, false), fetched@),
        ),
{
    let text = sync_env_file(existing_file, &fetched, project_id, environment, timestamp);
    let snapshot = SharedEnvData {
        version,
        project_id: String::from_str(project_id),
        environment: String::from_str(environment),
        variables: fetched,
        last_updated: String::from_str(timestamp),
    };
    (snapshot, text)
}

} // verus!
