//! Records exchanged with the remote service.
use vstd::prelude::*;
use crate::vars::{listing_insert, Entry, VariableSet};

verus! {

pub struct User {
    pub id: String,
    pub name: String,
    pub email: String,
    pub last_login: Option<String>,
}

pub struct WorkspacesResponse {
    pub workspaces: Vec<Workspace>,
    pub count: usize,
}

pub struct Workspace {
    pub id: String,
    pub name: String,
    pub slug: Option<String>,
    pub description: Option<String>,
    pub image_url: Option<String>,
    pub role: Option<String>,
    pub project_count: Option<usize>,
}

pub struct ProjectsResponse {
    pub projects: Vec<Project>,
    pub count: usize,
}

pub struct Project {
    pub id: String,
    pub name: String,
    pub slug: Option<String>,
    pub description: Option<String>,
    pub environments: Option<Vec<String>>,
    pub updated_at: Option<String>,
}

pub struct EnvironmentResponse {
    pub project: String,
    pub environment: String,
    pub variables: VariableSet,
    pub count: usize,
}

pub struct Environment {
    pub id: String,
    pub name: String,
    pub variables: Vec<EnvVariable>,
}

pub struct EnvVariable {
    pub key: String,
    pub value: String,
    pub updated_at: Option<String>,
}

/// The listing of a list of variables, a later duplicate key replacing an earlier value.
pub open spec fn variables_listing(vars: Seq<EnvVariable>) -> Seq<Entry>
    decreases vars.len(),
{
    if vars.len() == 0 {
        Seq::empty()
    } else {
        listing_insert(
            variables_listing(vars.drop_last()),
            vars.last().key@,
            vars.last().value@,
        )
    }
}

/// The variables of a fetched list as a set.
pub fn variables_of(vars: &Vec<EnvVariable>) -> (r: VariableSet)
    ensures
        r.wf(),
        r.listing() == variables_listing(vars@),
{
    let mut out = VariableSet::new();
    let mut i: usize = 0;
    assert(vars@.take(0) =~= Seq::<EnvVariable>::empty());
    while i < vars.len()
        invariant
            i <= vars@.len(),
            out.wf(),
            out.listing() == variables_listing(vars@.take(i as int)),
        decreases vars@.len() - i,
    {
        assert(vars@.take(i + 1).drop_last() =~= vars@.take(i as int));
        out.insert(vars[i].key.clone(), vars[i].value.clone());
        i = i + 1;
    }
    assert(vars@.take(vars@.len() as int) =~= vars@);
    out
}

} // verus!
