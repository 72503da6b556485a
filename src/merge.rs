//! Folding a remote variable set into a local `.env` file.
use vstd::prelude::*;
use crate::env_parser::{parse_env_file_raw, parse_listing};
use crate::vars::{entries_map, has_key_at, lemma_push, sorted_listing, Entry, VariableSet};

verus! {

/// The entries of `s` whose key `remote` does not hold, in their order.
pub open spec fn without_keys(s: Seq<Entry>, remote: Map<Seq<char>, Seq<char>>) -> Seq<Entry>
    decreases s.len(),
{
    if s.len() == 0 {
        s
    } else {
        let rest = without_keys(s.drop_last(), remote);
        if remote.contains_key(s.last().0) {
            rest
        } else {
            rest.push(s.last())
        }
    }
}

/// Remote values win; local keys that the remote set lacks are kept.
pub open spec fn merged_vars(
    remote: Map<Seq<char>, Seq<char>>,
    local: Map<Seq<char>, Seq<char>>,
) -> Map<Seq<char>, Seq<char>> {
    local.union_prefer_right(remote)
}

/// `KEY=VALUE` and a newline for each entry, in order.
pub open spec fn entry_lines(s: Seq<Entry>) -> Seq<char>
    decreases s.len(),
{
    if s.len() == 0 {
        Seq::empty()
    } else {
        entry_lines(s.drop_last()) + s.last().0 + "="@ + s.last().1 + "\n"@
    }
}

/// The four comment lines and the blank line that open the file.
pub open spec fn file_header(project_id: Seq<char>, environment: Seq<char>, timestamp: Seq<char>) -> Seq<char> {
    "# EnvSafe - "@ + project_id + "\n# Environment: "@ + environment + "\n# Updated: "@ + timestamp
        + "\n# Variables from EnvSafe (managed remotely)\n\n"@
}

/// The local-only section: empty, or a separator comment and the entries.
pub open spec fn local_section(local_only: Seq<Entry>) -> Seq<char> {
    if local_only.len() == 0 {
        Seq::empty()
    } else {
        "\n# Local variables (not managed by EnvSafe)\n"@ + entry_lines(local_only)
    }
}

/// The header and the remote entries in increasing key order.
pub open spec fn remote_part(
    project_id: Seq<char>,
    environment: Seq<char>,
    timestamp: Seq<char>,
    remote: Map<Seq<char>, Seq<char>>,
) -> Seq<char> {
    file_header(project_id, environment, timestamp) + entry_lines(sorted_listing(remote))
}

pub open spec fn env_file_text(
    project_id: Seq<char>,
    environment: Seq<char>,
    timestamp: Seq<char>,
    remote: Map<Seq<char>, Seq<char>>,
    local_only: Seq<Entry>,
) -> Seq<char> {
    remote_part(project_id, environment, timestamp, remote) + local_section(local_only)
}

/// The outcome of a merge: every variable, and those only the local side had.
pub struct MergeResult {
    pub merged: VariableSet,
    pub local_only: VariableSet,
}

/// Merges a local set into a remote one; remote values win on a shared key.
pub fn merge(remote: &VariableSet, local: &VariableSet) -> (r: MergeResult)
    requires
        remote.wf(),
        local.wf(),
    ensures
        r.merged.wf(),
        r.local_only.wf(),
        r.local_only.listing() == without_keys(local.listing(), remote@),
        r.local_only@ == local@.remove_keys(remote@.dom()),
        r.merged.listing() == remote.listing() + r.local_only.listing(),
        r.merged@ == merged_vars(remote@, local@),
{
    let ghost l = local.listing();
    let mut lo = VariableSet::new();
    let mut i: usize = 0;
    assert(l.take(0) =~= Seq::<Entry>::empty());
    assert(lo@ =~= entries_map(l.take(0)).remove_keys(remote@.dom()));
    while i < local.len()
        invariant
            i <= l.len(),
            l == local.listing(),
            local.wf(),
            lo.wf(),
            lo.listing() == without_keys(l.take(i as int), remote@),
            lo@ == entries_map(l.take(i as int)).remove_keys(remote@.dom()),
        decreases l.len() - i,
    {
        let ghost (k, v) = l[i as int];
        proof {
            assert(l.take(i + 1).drop_last() =~= l.take(i as int));
            assert forall|j: int| 0 <= j < i implies l.take(i as int)[j].0 != k by {}
            if entries_map(l.take(i as int)).contains_key(k) {
                let j = choose|j: int| has_key_at(l.take(i as int), k, j);
            }
            lemma_push(l.take(i as int), k, v);
            assert(l.take(i as int).push((k, v)) =~= l.take(i + 1));
        }
        let (key, value) = local.entry(i);
        if !remote.contains_key(key) {
            proof {
                assert forall|j: int| !has_key_at(lo.listing(), k, j) by {
                    if has_key_at(lo.listing(), k, j) {
                        assert(lo@.contains_key(k));
                    }
                }
            }
            lo.insert(key.clone(), value.clone());
        }
        proof {
            assert(lo@ =~= entries_map(l.take(i + 1)).remove_keys(remote@.dom()));
        }
        i = i + 1;
    }
    assert(l.take(l.len() as int) =~= l);
    let mut merged = VariableSet::new();
    merged.append_all(remote);
    assert(merged.listing() =~= remote.listing());
    assert(merged@ =~= remote@);
    merged.append_all(&lo);
    assert(merged@ =~= merged_vars(remote@, local@));
    MergeResult { merged, local_only: lo }
}

/// Merging the variables read from a local file under a remote set keeps every
/// remote key with its remote value, every other local key with its local value,
/// and nothing else.
pub proof fn law_merge_precedence(remote: Map<Seq<char>, Seq<char>>, local_text: Seq<char>)
    ensures
        ({
            let local = entries_map(parse_listing(local_text, true));
            let merged = merged_vars(remote, local);
            &&& forall|k: Seq<char>| #[trigger]
                remote.contains_key(k) ==> merged.contains_key(k) && merged[k] == remote[k]
            &&& forall|k: Seq<char>| #[trigger]
                local.contains_key(k) && !remote.contains_key(k) ==> merged.contains_key(k)
                    && merged[k] == local[k]
            &&& forall|k: Seq<char>| #[trigger]
                merged.contains_key(k) ==> remote.contains_key(k) || local.contains_key(k)
        }),
{
}

/// Reading a written file back and writing it again for the same remote set
/// leaves the header and the remote section byte for byte as they were.
pub proof fn law_remote_section_stable(
    project_id: Seq<char>,
    environment: Seq<char>,
    timestamp: Seq<char>,
    remote: Map<Seq<char>, Seq<char>>,
    local_only: Seq<Entry>,
)
    ensures
        ({
            let first = env_file_text(project_id, environment, timestamp, remote, local_only);
            let again = without_keys(parse_listing(first, false), remote);
            let second = env_file_text(project_id, environment, timestamp, remote, again);
            let n = remote_part(project_id, environment, timestamp, remote).len() as int;
            &&& first.take(n) == remote_part(project_id, environment, timestamp, remote)
            &&& second.take(n) == first.take(n)
        }),
{
    let head = remote_part(project_id, environment, timestamp, remote);
    let first = env_file_text(project_id, environment, timestamp, remote, local_only);
    let again = without_keys(parse_listing(first, false), remote);
    let second = env_file_text(project_id, environment, timestamp, remote, again);
    assert(first.take(head.len() as int) =~= head);
    assert(second.take(head.len() as int) =~= head);
}

/// Appends `KEY=VALUE` and a newline for each entry of `vars`.
fn push_entries(out: &mut String, vars: &VariableSet)
    ensures
        final(out)@ == old(out)@ + entry_lines(vars.listing()),
{
    let ghost s0 = out@;
    let ghost l = vars.listing();
    let mut i: usize = 0;
    assert(l.take(0) =~= Seq::<Entry>::empty());
    assert(s0 + entry_lines(l.take(0)) =~= s0);
    while i < vars.len()
        invariant
            i <= l.len(),
            l == vars.listing(),
            out@ == s0 + entry_lines(l.take(i as int)),
        decreases l.len() - i,
    {
        let (key, value) = vars.entry(i);
        out.append(key.as_str());
        out.append("=");
        out.append(value.as_str());
        out.append("\n");
        assert(l.take(i + 1).drop_last() =~= l.take(i as int));
        assert(out@ =~= s0 + entry_lines(l.take(i + 1)));
        i = i + 1;
    }
    assert(l.take(l.len() as int) =~= l);
}

/// Writes the file: the header, the remote variables sorted by key, then, if any,
/// a separator comment and the local-only variables in their order. Values are
/// written as they are, without quoting.
pub fn render_env_file(
    remote: &VariableSet,
    local_only: &VariableSet,
    project_id: &str,
    environment: &str,
    timestamp: &str,
) -> (r: String)
    requires
        remote.wf(),
    ensures
        r@ == env_file_text(project_id@, environment@, timestamp@, remote@, local_only.listing()),
{
    let mut out = String::new();
    out.append("# EnvSafe - ");
    out.append(project_id);
    out.append("\n# Environment: ");
    out.append(environment);
    out.append("\n# Updated: ");
    out.append(timestamp);
    out.append("\n# Variables from EnvSafe (managed remotely)\n\n");
    assert(out@ =~= file_header(project_id@, environment@, timestamp@));
    let sorted = remote.sorted();
    push_entries(&mut out, &sorted);
    if !local_only.is_empty() {
        out.append("\n# Local variables (not managed by EnvSafe)\n");
        push_entries(&mut out, local_only);
    }
    assert(out@ =~= env_file_text(project_id@, environment@, timestamp@, remote@, local_only.listing()));
    out
}

/// The new text of a local file after a sync: the prior text is read, the remote
/// set is merged over it, and the result is written out. Local-only entries keep
/// their values as written in the prior text.
pub fn sync_env_file(
    existing: &str,
    remote: &VariableSet,
    project_id: &str,
    environment: &str,
    timestamp: &str,
) -> (r: String)
    requires
        remote.wf(),
    ensures
        r@ == env_file_text(
            project_id@,
            environment@,
            timestamp@,
            remote@,
            without_keys(parse_listing(existing@, false), remote@),
        ),
{
    let local = parse_env_file_raw(existing);
    let m = merge(remote, &local);
    render_env_file(remote, &m.local_only, project_id, environment, timestamp)
}

} // verus!
