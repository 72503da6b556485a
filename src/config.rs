//! User settings and the link between a directory and a remote project.
use vstd::prelude::*;

verus! {

/// A setting that a command needs and that is not there.
#[derive(Debug, PartialEq, Eq, Structural)]
pub enum ConfigError {
    /// No credential is stored.
    NotLoggedIn,
    /// No workspace is selected.
    NoWorkspace,
}

pub struct RotationConfig {
    pub enabled: bool,
    pub interval_days: u32,
    pub exclude_vars: Vec<String>,
    pub last_rotation: Option<String>,
}

pub struct Config {
    pub token: Option<String>,
    pub api_url: String,
    pub ws_url: Option<String>,
    pub dashboard_url: String,
    pub language: String,
    pub current_workspace: Option<String>,
    pub current_workspace_slug: Option<String>,
    pub current_project: Option<String>,
    pub current_project_slug: Option<String>,
    pub rotation: RotationConfig,
}

/// The settings of a directory linked to a remote project.
pub struct ProjectConfig {
    pub workspace_id: String,
    pub project_id: String,
    pub project_name: String,
    pub project_slug: Option<String>,
}

pub open spec fn opt_view(o: Option<String>) -> Option<Seq<char>> {
    match o {
        Some(s) => Some(s@),
        None => None,
    }
}

fn owned(s: Option<&str>) -> (r: Option<String>)
    ensures
        r is Some <==> s is Some,
        r is Some ==> r->0@ == s->0@,
{
    match s {
        Some(x) => Some(String::from_str(x)),
        None => None,
    }
}

impl Default for Config {
    fn default() -> (r: Config)
        ensures
            r.token is None,
            r.api_url@ == "https://www.envsafe.dev"@,
            opt_view(r.ws_url) == Some("wss://socket-server-production-79a0.up.railway.app"@),
            r.dashboard_url@ == "https://www.envsafe.dev"@,
            r.language@ == "en"@,
            r.current_workspace is None,
            r.current_workspace_slug is None,
            r.current_project is None,
            r.current_project_slug is None,
            !r.rotation.enabled,
            r.rotation.interval_days == 30,
            r.rotation.exclude_vars@.len() == 0,
            r.rotation.last_rotation is None,
    {
        Config {
            token: None,
            api_url: String::from_str("https://www.envsafe.dev"),
            ws_url: Some(String::from_str("wss://socket-server-production-79a0.up.railway.app")),
            dashboard_url: String::from_str("https://www.envsafe.dev"),
            language: String::from_str("en"),
            current_workspace: None,
            current_workspace_slug: None,
            current_project: None,
            current_project_slug: None,
            rotation: RotationConfig {
                enabled: false,
                interval_days: 30,
                exclude_vars: Vec::new(),
                last_rotation: None,
            },
        }
    }
}

impl Config {
    /// The stored credential.
    pub fn get_token(&self) -> (r: Result<String, ConfigError>)
        ensures
            match self.token {
                Some(t) => r == Ok::<String, ConfigError>(t),
                None => r == Err::<String, ConfigError>(ConfigError::NotLoggedIn),
            },
    {
        match &self.token {
            Some(t) => Ok(t.clone()),
            None => Err(ConfigError::NotLoggedIn),
        }
    }

    pub fn set_token(&mut self, token: String)
        ensures
            *final(self) == (Config { token: Some(token), ..*old(self) }),
    {
        self.token = Some(token);
    }

    pub fn clear_token(&mut self)
        ensures
            *final(self) == (Config { token: None, ..*old(self) }),
    {
        self.token = None;
    }

    pub fn set_language(&mut self, lang: &str)
        ensures
            final(self).language@ == lang@,
            *final(self) == (Config { language: final(self).language, ..*old(self) }),
    {
        self.language = String::from_str(lang);
    }

    /// Selects a workspace by id, with its slug when it has one.
    pub fn set_workspace(&mut self, workspace_id: &str, workspace_slug: Option<&str>)
        ensures
            opt_view(final(self).current_workspace) == Some(workspace_id@),
            final(self).current_workspace_slug is Some <==> workspace_slug is Some,
            workspace_slug is Some ==> final(self).current_workspace_slug->0@ == workspace_slug->0@,
            *final(self) == (Config {
                current_workspace: final(self).current_workspace,
                current_workspace_slug: final(self).current_workspace_slug,
                ..*old(self)
            }),
    {
        self.current_workspace = Some(String::from_str(workspace_id));
        self.current_workspace_slug = owned(workspace_slug);
    }

    /// Selects a project by id, with its slug when it has one.
    pub fn set_project(&mut self, project_id: &str, project_slug: Option<&str>)
        ensures
            opt_view(final(self).current_project) == Some(project_id@),
            final(self).current_project_slug is Some <==> project_slug is Some,
            project_slug is Some ==> final(self).current_project_slug->0@ == project_slug->0@,
            *final(self) == (Config {
                current_project: final(self).current_project,
                current_project_slug: final(self).current_project_slug,
                ..*old(self)
            }),
    {
        self.current_project = Some(String::from_str(project_id));
        self.current_project_slug = owned(project_slug);
    }

    /// The workspace slug, else the workspace id.
    pub fn get_workspace_slug(&self) -> (r: Result<String, ConfigError>)
        ensures
            match (self.current_workspace_slug, self.current_workspace) {
                (Some(s), _) => r == Ok::<String, ConfigError>(s),
                (None, Some(w)) => r == Ok::<String, ConfigError>(w),
                (None, None) => r == Err::<String, ConfigError>(ConfigError::NoWorkspace),
            },
    {
        match &self.current_workspace_slug {
            Some(s) => Ok(s.clone()),
            None => match &self.current_workspace {
                Some(w) => Ok(w.clone()),
                None => Err(ConfigError::NoWorkspace),
            },
        }
    }
}

impl ProjectConfig {
    /// The name the remote service knows the project by: its slug, else its id.
    pub fn project_ref(&self) -> (r: String)
        ensures
            r == match self.project_slug {
                Some(s) => s,
                None => self.project_id,
            },
    {
        match &self.project_slug {
            Some(s) => s.clone(),
            None => self.project_id.clone(),
        }
    }
}

} // verus!
