//! Reading back a written `.env` file: for plain keys and values the layout parses
//! to exactly the entries it was written from, so a second sync writes the same bytes.
use vstd::prelude::*;
use crate::env_parser::{line_entry, parse_line, parse_listing, unquote};
use crate::merge::{entry_lines, env_file_text, file_header, local_section, without_keys};
use crate::text::{is_ws, lemma_last_index, trim, trim_end, trim_start, first_index, is_first_index};
use crate::text::last_index;
use crate::vars::{entries_map, has_key_at, keys_unique, lemma_insert, lemma_lookup, lemma_sorted_keys_unique, listing_insert, sorted_keys, sorted_listing, Entry};

verus! {

/// A key that a line can carry and give back: no `=`, no line break, no whitespace at
/// its ends, and not starting with `#`.
pub open spec fn plain_key(k: Seq<char>) -> bool {
    &&& k.len() == 0 || (!is_ws(k[0]) && !is_ws(k.last()) && k[0] != '#')
    &&& forall|i: int| 0 <= i < k.len() ==> k[i] != '=' && k[i] != '\n'
}

/// A value that a line can carry and give back as written: no line break and no
/// whitespace at its ends.
pub open spec fn plain_value(v: Seq<char>) -> bool {
    &&& v.len() == 0 || (!is_ws(v[0]) && !is_ws(v.last()))
    &&& forall|i: int| 0 <= i < v.len() ==> v[i] != '\n'
}

/// A value that reading with quote stripping leaves as it is.
pub open spec fn unquoted(v: Seq<char>) -> bool {
    unquote(v) == v
}

pub open spec fn single_line(t: Seq<char>) -> bool {
    forall|i: int| 0 <= i < t.len() ==> t[i] != '\n'
}

pub open spec fn has_sorted_listing(m: Map<Seq<char>, Seq<char>>) -> bool {
    exists|s: Seq<Entry>| sorted_keys(s) && entries_map(s) == m
}

pub open spec fn join_lines(ls: Seq<Seq<char>>) -> Seq<char>
    decreases ls.len(),
{
    if ls.len() == 0 {
        Seq::empty()
    } else {
        join_lines(ls.drop_last()) + ls.last() + "\n"@
    }
}

pub open spec fn fold_lines(s: Seq<Entry>, ls: Seq<Seq<char>>, strip: bool) -> Seq<Entry>
    decreases ls.len(),
{
    if ls.len() == 0 {
        s
    } else {
        parse_line(fold_lines(s, ls.drop_last(), strip), ls.last(), strip)
    }
}

pub open spec fn entry_line(e: Entry) -> Seq<char> {
    e.0 + "="@ + e.1
}

pub open spec fn entry_line_list(s: Seq<Entry>) -> Seq<Seq<char>> {
    s.map_values(|e: Entry| entry_line(e))
}

pub open spec fn header_lines(p: Seq<char>, e: Seq<char>, ts: Seq<char>) -> Seq<Seq<char>> {
    seq![
        "# EnvSafe - "@ + p,
        "# Environment: "@ + e,
        "# Updated: "@ + ts,
        "# Variables from EnvSafe (managed remotely)"@,
        Seq::<char>::empty(),
    ]
}

pub open spec fn local_lines(lo: Seq<Entry>) -> Seq<Seq<char>> {
    if lo.len() == 0 {
        Seq::empty()
    } else {
        seq![Seq::<char>::empty(), "# Local variables (not managed by EnvSafe)"@] + entry_line_list(lo)
    }
}

proof fn lemma_trim_id(s: Seq<char>)
    requires
        s.len() == 0 || (!is_ws(s[0]) && !is_ws(s.last())),
    ensures
        trim(s) == s,
{
}

proof fn lemma_trim_end_keeps_first(s: Seq<char>)
    requires
        s.len() > 0,
        !is_ws(s[0]),
    ensures
        trim_end(s).len() > 0,
        trim_end(s)[0] == s[0],
    decreases s.len(),
{
    if is_ws(s.last()) {
        lemma_trim_end_keeps_first(s.drop_last());
    }
}

proof fn lemma_skip_line(s: Seq<Entry>, l: Seq<char>, strip: bool)
    requires
        l.len() == 0 || l[0] == '#',
    ensures
        parse_line(s, l, strip) == s,
{
    if l.len() > 0 {
        assert(!is_ws('#'));
        assert(trim_start(l) == l);
        lemma_trim_end_keeps_first(l);
    }
}

proof fn lemma_entry_line(s: Seq<Entry>, e: Entry, strip: bool)
    requires
        plain_key(e.0),
        plain_value(e.1),
        strip ==> unquoted(e.1),
    ensures
        parse_line(s, entry_line(e), strip) == listing_insert(s, e.0, e.1),
{
    reveal_strlit("=");
    let (k, v) = e;
    let t = entry_line(e);
    assert(!is_ws('='));
    assert(t[0] == if k.len() > 0 { k[0] } else { '=' });
    assert(t.last() == if v.len() > 0 { v.last() } else { '=' });
    lemma_trim_id(t);
    let p = k.len() as int;
    assert(t[p] == '=');
    assert(is_first_index(t, '=', p));
    let q = choose|q: int| is_first_index(t, '=', q);
    if q < p {
        assert(t[q] == k[q]);
    } else if q > p {
        assert(t[p] != '=');
    }
    assert(first_index(t, '=') == p);
    assert(t.take(p) =~= k);
    assert(t.skip(p + 1) =~= v);
    lemma_trim_id(k);
    lemma_trim_id(v);
    assert(line_entry(t, strip) == Some((k, v)));
}

proof fn lemma_parse_newline_end(x: Seq<char>, strip: bool)
    ensures
        parse_listing(x + "\n"@, strip) == parse_listing(x, strip),
{
    reveal_strlit("\n");
    let s = x + "\n"@;
    assert(s.last() == '\n');
    assert(s.take(x.len() as int) =~= x);
    assert(s.skip(x.len() as int + 1) =~= Seq::<char>::empty());
    lemma_skip_line(parse_listing(x, strip), Seq::<char>::empty(), strip);
}

proof fn lemma_parse_last_line(x: Seq<char>, line: Seq<char>, strip: bool)
    requires
        single_line(line),
    ensures
        parse_listing(x + "\n"@ + line, strip) == parse_line(parse_listing(x, strip), line, strip),
{
    reveal_strlit("\n");
    let s = x + "\n"@ + line;
    lemma_last_index(s, '\n', x.len() as int + 1);
    assert(s.take(x.len() as int) =~= x);
    assert(s.skip(x.len() as int + 1) =~= line);
}

proof fn lemma_parse_one_line(line: Seq<char>, strip: bool)
    requires
        single_line(line),
    ensures
        parse_listing(line, strip) == parse_line(Seq::empty(), line, strip),
{
    lemma_last_index(line, '\n', 0);
}

proof fn lemma_parse_join(ls: Seq<Seq<char>>, strip: bool)
    requires
        forall|i: int| 0 <= i < ls.len() ==> single_line(#[trigger] ls[i]),
    ensures
        parse_listing(join_lines(ls), strip) == fold_lines(Seq::empty(), ls, strip),
    decreases ls.len(),
{
    if ls.len() == 0 {
        lemma_parse_one_line(Seq::<char>::empty(), strip);
        lemma_skip_line(Seq::<Entry>::empty(), Seq::<char>::empty(), strip);
        assert(join_lines(ls) == Seq::<char>::empty());
    } else {
        let prev = ls.drop_last();
        let last = ls.last();
        assert(single_line(ls[ls.len() - 1]));
        assert forall|i: int| 0 <= i < prev.len() implies single_line(#[trigger] prev[i]) by {
            assert(prev[i] == ls[i]);
        }
        let x = join_lines(prev) + last;
        assert(join_lines(ls) =~= x + "\n"@);
        lemma_parse_newline_end(x, strip);
        if prev.len() == 0 {
            assert(x =~= last);
            lemma_parse_one_line(last, strip);
        } else {
            let y = join_lines(prev.drop_last()) + prev.last();
            assert(join_lines(prev) =~= y + "\n"@);
            assert(x =~= y + "\n"@ + last);
            lemma_parse_last_line(y, last, strip);
            lemma_parse_newline_end(y, strip);
            lemma_parse_join(prev, strip);
        }
        assert(fold_lines(Seq::empty(), ls, strip) == parse_line(
            fold_lines(Seq::empty(), prev, strip),
            last,
            strip,
        ));
    }
}

proof fn lemma_join_append(a: Seq<Seq<char>>, b: Seq<Seq<char>>)
    ensures
        join_lines(a + b) == join_lines(a) + join_lines(b),
    decreases b.len(),
{
    if b.len() == 0 {
        assert(a + b =~= a);
        assert(join_lines(a) + join_lines(b) =~= join_lines(a));
    } else {
        assert((a + b).drop_last() =~= a + b.drop_last());
        lemma_join_append(a, b.drop_last());
        assert(join_lines(a + b) =~= join_lines(a) + join_lines(b));
    }
}

proof fn lemma_fold_append(s: Seq<Entry>, a: Seq<Seq<char>>, b: Seq<Seq<char>>, strip: bool)
    ensures
        fold_lines(s, a + b, strip) == fold_lines(fold_lines(s, a, strip), b, strip),
    decreases b.len(),
{
    if b.len() == 0 {
        assert(a + b =~= a);
    } else {
        assert((a + b).drop_last() =~= a + b.drop_last());
        lemma_fold_append(s, a, b.drop_last(), strip);
    }
}

proof fn lemma_fold_skipped(s: Seq<Entry>, ls: Seq<Seq<char>>, strip: bool)
    requires
        forall|i: int| 0 <= i < ls.len() ==> (#[trigger] ls[i]).len() == 0 || ls[i][0] == '#',
    ensures
        fold_lines(s, ls, strip) == s,
    decreases ls.len(),
{
    if ls.len() > 0 {
        assert(ls[ls.len() - 1].len() == 0 || ls[ls.len() - 1][0] == '#');
        lemma_fold_skipped(s, ls.drop_last(), strip);
        lemma_skip_line(s, ls.last(), strip);
    }
}

proof fn lemma_join_entries(s: Seq<Entry>)
    ensures
        join_lines(entry_line_list(s)) == entry_lines(s),
    decreases s.len(),
{
    if s.len() > 0 {
        assert(entry_line_list(s).drop_last() =~= entry_line_list(s.drop_last()));
        lemma_join_entries(s.drop_last());
        assert(join_lines(entry_line_list(s)) =~= entry_lines(s));
    }
}

proof fn lemma_fold_entries(s: Seq<Entry>, x: Seq<Entry>, strip: bool)
    requires
        keys_unique(x),
        forall|i: int|
            0 <= i < x.len() ==> plain_key(#[trigger] x[i].0) && plain_value(x[i].1) && (strip
                ==> unquoted(x[i].1)),
        forall|i: int, j: int| 0 <= i < x.len() && 0 <= j < s.len() ==> s[j].0 != x[i].0,
    ensures
        fold_lines(s, entry_line_list(x), strip) == s + x,
    decreases x.len(),
{
    if x.len() == 0 {
        assert(s + x =~= s);
    } else {
        let prev = x.drop_last();
        let e = x.last();
        assert(entry_line_list(x).drop_last() =~= entry_line_list(prev));
        lemma_fold_entries(s, prev, strip);
        assert(plain_key(x[x.len() - 1].0));
        lemma_entry_line(s + prev, e, strip);
        assert forall|i: int| !has_key_at(s + prev, e.0, i) by {
            if 0 <= i < s.len() {
                assert((s + prev)[i] == s[i]);
            } else if s.len() <= i < s.len() + prev.len() {
                assert((s + prev)[i] == x[i - s.len()]);
            }
        }
        assert((s + prev).push(e) =~= s + x);
    }
}

proof fn lemma_without_keys_append(a: Seq<Entry>, b: Seq<Entry>, m: Map<Seq<char>, Seq<char>>)
    ensures
        without_keys(a + b, m) == without_keys(a, m) + without_keys(b, m),
    decreases b.len(),
{
    if b.len() == 0 {
        assert(a + b =~= a);
        assert(without_keys(a, m) + without_keys(b, m) =~= without_keys(a, m));
    } else {
        assert((a + b).drop_last() =~= a + b.drop_last());
        lemma_without_keys_append(a, b.drop_last(), m);
        if m.contains_key(b.last().0) {
        } else {
            assert(without_keys(a, m) + without_keys(b.drop_last(), m).push(b.last()) =~= (
            without_keys(a, m) + without_keys(b.drop_last(), m)).push(b.last()));
        }
    }
}

proof fn lemma_without_keys_all(s: Seq<Entry>, m: Map<Seq<char>, Seq<char>>)
    requires
        forall|i: int| 0 <= i < s.len() ==> m.contains_key(#[trigger] s[i].0),
    ensures
        without_keys(s, m) == Seq::<Entry>::empty(),
    decreases s.len(),
{
    if s.len() > 0 {
        assert(m.contains_key(s[s.len() - 1].0));
        lemma_without_keys_all(s.drop_last(), m);
    }
}

proof fn lemma_without_keys_none(s: Seq<Entry>, m: Map<Seq<char>, Seq<char>>)
    requires
        forall|i: int| 0 <= i < s.len() ==> !m.contains_key(#[trigger] s[i].0),
    ensures
        without_keys(s, m) == s,
    decreases s.len(),
{
    if s.len() > 0 {
        assert(!m.contains_key(s[s.len() - 1].0));
        lemma_without_keys_none(s.drop_last(), m);
        assert(s.drop_last().push(s.last()) =~= s);
    }
}

/// The lines of a written file, each without its line break.
pub open spec fn file_lines(
    p: Seq<char>,
    e: Seq<char>,
    ts: Seq<char>,
    remote: Map<Seq<char>, Seq<char>>,
    local_only: Seq<Entry>,
) -> Seq<Seq<char>> {
    header_lines(p, e, ts) + entry_line_list(sorted_listing(remote)) + local_lines(local_only)
}

proof fn lemma_join_header(p: Seq<char>, e: Seq<char>, ts: Seq<char>)
    ensures
        join_lines(header_lines(p, e, ts)) == file_header(p, e, ts),
{
    reveal_strlit("\n");
    reveal_strlit("# EnvSafe - ");
    reveal_strlit("# Environment: ");
    reveal_strlit("\n# Environment: ");
    reveal_strlit("# Updated: ");
    reveal_strlit("\n# Updated: ");
    reveal_strlit("# Variables from EnvSafe (managed remotely)");
    reveal_strlit("\n# Variables from EnvSafe (managed remotely)\n\n");
    let a = "# EnvSafe - "@ + p;
    let b = "# Environment: "@ + e;
    let c = "# Updated: "@ + ts;
    let d = "# Variables from EnvSafe (managed remotely)"@;
    let f = Seq::<char>::empty();
    let nl = "\n"@;
    let h = header_lines(p, e, ts);
    assert(h.drop_last() =~= seq![a, b, c, d]);
    assert(seq![a, b, c, d].drop_last() =~= seq![a, b, c]);
    assert(seq![a, b, c].drop_last() =~= seq![a, b]);
    assert(seq![a, b].drop_last() =~= seq![a]);
    assert(seq![a].drop_last() =~= Seq::<Seq<char>>::empty());
    assert(join_lines(Seq::<Seq<char>>::empty()) =~= Seq::<char>::empty());
    assert(join_lines(seq![a]) =~= a + nl);
    assert(join_lines(seq![a, b]) =~= a + nl + b + nl);
    assert(join_lines(seq![a, b, c]) =~= a + nl + b + nl + c + nl);
    assert(join_lines(seq![a, b, c, d]) =~= a + nl + b + nl + c + nl + d + nl);
    assert(join_lines(h) =~= a + nl + b + nl + c + nl + d + nl + f + nl);
    assert(join_lines(h) =~= file_header(p, e, ts));
}

proof fn lemma_join_local(lo: Seq<Entry>)
    ensures
        join_lines(local_lines(lo)) == local_section(lo),
{
    if lo.len() > 0 {
        reveal_strlit("\n");
        reveal_strlit("# Local variables (not managed by EnvSafe)");
        reveal_strlit("\n# Local variables (not managed by EnvSafe)\n");
        let two = seq![Seq::<char>::empty(), "# Local variables (not managed by EnvSafe)"@];
        assert(two.drop_last() =~= seq![Seq::<char>::empty()]);
        assert(seq![Seq::<char>::empty()].drop_last() =~= Seq::<Seq<char>>::empty());
        assert(join_lines(Seq::<Seq<char>>::empty()) =~= Seq::<char>::empty());
        assert(join_lines(seq![Seq::<char>::empty()]) =~= "\n"@);
        assert(join_lines(two) =~= "\n# Local variables (not managed by EnvSafe)\n"@);
        lemma_join_append(two, entry_line_list(lo));
        lemma_join_entries(lo);
    } else {
        assert(local_lines(lo) =~= Seq::<Seq<char>>::empty());
    }
}

proof fn lemma_file_is_lines(
    p: Seq<char>,
    e: Seq<char>,
    ts: Seq<char>,
    remote: Map<Seq<char>, Seq<char>>,
    lo: Seq<Entry>,
)
    ensures
        join_lines(file_lines(p, e, ts, remote, lo)) == env_file_text(p, e, ts, remote, lo),
{
    let h = header_lines(p, e, ts);
    let en = entry_line_list(sorted_listing(remote));
    let l = local_lines(lo);
    lemma_join_append(h + en, l);
    lemma_join_append(h, en);
    lemma_join_header(p, e, ts);
    lemma_join_entries(sorted_listing(remote));
    lemma_join_local(lo);
    assert(join_lines(file_lines(p, e, ts, remote, lo)) =~= env_file_text(p, e, ts, remote, lo));
}

proof fn lemma_reads_back(
    project_id: Seq<char>,
    environment: Seq<char>,
    timestamp: Seq<char>,
    remote: Map<Seq<char>, Seq<char>>,
    local_only: Seq<Entry>,
    strip: bool,
)
    requires
        single_line(project_id),
        single_line(environment),
        single_line(timestamp),
        has_sorted_listing(remote),
        forall|k: Seq<char>| #[trigger]
            remote.contains_key(k) ==> plain_key(k) && plain_value(remote[k]) && (strip
                ==> unquoted(remote[k])),
        keys_unique(local_only),
        forall|i: int|
            0 <= i < local_only.len() ==> plain_key(#[trigger] local_only[i].0) && plain_value(
                local_only[i].1,
            ) && (strip ==> unquoted(local_only[i].1)) && !remote.contains_key(local_only[i].0),
    ensures
        ({
            let text = env_file_text(project_id, environment, timestamp, remote, local_only);
            &&& parse_listing(text, strip) == sorted_listing(remote) + local_only
            &&& without_keys(parse_listing(text, strip), remote) == local_only
        }),
{
    reveal_strlit("\n");
    reveal_strlit("=");
    reveal_strlit("# EnvSafe - ");
    reveal_strlit("# Environment: ");
    reveal_strlit("# Updated: ");
    reveal_strlit("# Variables from EnvSafe (managed remotely)");
    reveal_strlit("# Local variables (not managed by EnvSafe)");
    let s = sorted_listing(remote);
    assert(sorted_keys(s) && entries_map(s) == remote);
    lemma_sorted_keys_unique(s);
    assert forall|i: int| 0 <= i < s.len() implies remote.contains_key(#[trigger] s[i].0)
        && remote[s[i].0] == s[i].1 by {
        assert(has_key_at(s, s[i].0, i));
        lemma_lookup(s, i);
    }
    let h = header_lines(project_id, environment, timestamp);
    let en = entry_line_list(s);
    let l = local_lines(local_only);
    let lines = file_lines(project_id, environment, timestamp, remote, local_only);
    assert forall|i: int| 0 <= i < h.len() implies (#[trigger] h[i]).len() == 0 || h[i][0] == '#' by {}
    assert forall|i: int| 0 <= i < h.len() implies single_line(#[trigger] h[i]) by {}
    assert forall|i: int| 0 <= i < s.len() implies plain_key(#[trigger] s[i].0) && plain_value(
        s[i].1,
    ) && (strip ==> unquoted(s[i].1)) by {
        assert(remote.contains_key(s[i].0));
        assert(remote[s[i].0] == s[i].1);
    }
    assert forall|i: int| 0 <= i < en.len() implies single_line(#[trigger] en[i]) by {
        assert(en.len() == s.len());
        assert(has_key_at(s, s[i].0, i));
        lemma_lookup(s, i);
        assert(remote.contains_key(s[i].0));
        assert(plain_key(s[i].0) && plain_value(s[i].1));
        assert(en[i] == entry_line(s[i]));
    }
    assert forall|i: int| 0 <= i < l.len() implies single_line(#[trigger] l[i]) by {
        if i >= 2 {
            assert(l[i] == entry_line(local_only[i - 2]));
            assert(plain_key(local_only[i - 2].0));
        }
    }
    assert forall|i: int| 0 <= i < lines.len() implies single_line(#[trigger] lines[i]) by {
        if i < h.len() {
            assert(lines[i] == h[i]);
        } else if i < h.len() + en.len() {
            assert(lines[i] == en[i - h.len()]);
        } else {
            assert(lines[i] == l[i - h.len() - en.len()]);
        }
    }
    lemma_parse_join(lines, strip);
    lemma_file_is_lines(project_id, environment, timestamp, remote, local_only);
    lemma_fold_append(Seq::empty(), h + en, l, strip);
    lemma_fold_append(Seq::empty(), h, en, strip);
    lemma_fold_skipped(Seq::empty(), h, strip);
    lemma_fold_entries(Seq::empty(), s, strip);
    assert(Seq::<Entry>::empty() + s =~= s);
    if local_only.len() == 0 {
        assert(l =~= Seq::<Seq<char>>::empty());
        assert(s + local_only =~= s);
    } else {
        let two = seq![Seq::<char>::empty(), "# Local variables (not managed by EnvSafe)"@];
        assert forall|i: int| 0 <= i < two.len() implies (#[trigger] two[i]).len() == 0 || two[i][0]
            == '#' by {}
        lemma_fold_append(s, two, entry_line_list(local_only), strip);
        lemma_fold_skipped(s, two, strip);
        lemma_fold_entries(s, local_only, strip);
    }
    lemma_without_keys_append(s, local_only, remote);
    lemma_without_keys_all(s, remote);
    lemma_without_keys_none(local_only, remote);
    assert(Seq::<Entry>::empty() + local_only =~= local_only);
}

/// For plain keys and values that no quote stripping changes, and single-line header
/// fields, reading a written file with `parse_env_file` gives the remote entries in key
/// order followed by the local-only entries.
pub proof fn law_written_file_reads_back(
    project_id: Seq<char>,
    environment: Seq<char>,
    timestamp: Seq<char>,
    remote: Map<Seq<char>, Seq<char>>,
    local_only: Seq<Entry>,
)
    requires
        single_line(project_id),
        single_line(environment),
        single_line(timestamp),
        has_sorted_listing(remote),
        forall|k: Seq<char>| #[trigger]
            remote.contains_key(k) ==> plain_key(k) && plain_value(remote[k]) && unquoted(remote[k]),
        keys_unique(local_only),
        forall|i: int|
            0 <= i < local_only.len() ==> plain_key(#[trigger] local_only[i].0) && plain_value(
                local_only[i].1,
            ) && unquoted(local_only[i].1) && !remote.contains_key(local_only[i].0),
    ensures
        parse_listing(env_file_text(project_id, environment, timestamp, remote, local_only), true)
            == sorted_listing(remote) + local_only,
{
    lemma_reads_back(project_id, environment, timestamp, remote, local_only, true);
}

proof fn lemma_last_index_bound(s: Seq<char>, c: char)
    ensures
        -1 <= last_index(s, c) < s.len(),
        forall|j: int| last_index(s, c) < j < s.len() ==> s[j] != c,
    decreases s.len(),
{
    if s.len() > 0 && s.last() != c {
        lemma_last_index_bound(s.drop_last(), c);
        assert forall|j: int| last_index(s, c) < j < s.len() implies s[j] != c by {
            if j < s.len() - 1 {
                assert(s[j] == s.drop_last()[j]);
            }
        }
    }
}

proof fn lemma_trim_start_bounds(s: Seq<char>) -> (a: int)
    ensures
        0 <= a <= s.len(),
        trim_start(s) == s.skip(a),
        a == s.len() || !is_ws(s[a]),
    decreases s.len(),
{
    if s.len() > 0 && is_ws(s[0]) {
        let b = lemma_trim_start_bounds(s.drop_first());
        assert(s.drop_first().skip(b) =~= s.skip(b + 1));
        b + 1
    } else {
        assert(s.skip(0) =~= s);
        0
    }
}

proof fn lemma_trim_end_bounds(s: Seq<char>) -> (b: int)
    ensures
        0 <= b <= s.len(),
        trim_end(s) == s.take(b),
        b == 0 || !is_ws(s[b - 1]),
    decreases s.len(),
{
    if s.len() > 0 && is_ws(s.last()) {
        let c = lemma_trim_end_bounds(s.drop_last());
        assert(s.drop_last().take(c) =~= s.take(c));
        c
    } else {
        assert(s.take(s.len() as int) =~= s);
        s.len() as int
    }
}

proof fn lemma_trim_bounds(s: Seq<char>) -> (r: (int, int))
    ensures
        0 <= r.0 <= r.1 <= s.len(),
        trim(s) == s.subrange(r.0, r.1),
        r.0 == r.1 || (!is_ws(s[r.0]) && !is_ws(s[r.1 - 1])),
{
    let a = lemma_trim_start_bounds(s);
    let b = lemma_trim_end_bounds(s.skip(a));
    assert(s.skip(a).take(b) =~= s.subrange(a, a + b));
    (a, a + b)
}

/// A line read without quote stripping gives a plain key and a plain value.
proof fn lemma_raw_entry_plain(line: Seq<char>)
    requires
        single_line(line),
        line_entry(line, false) is Some,
    ensures
        plain_key((line_entry(line, false)->0).0),
        plain_value((line_entry(line, false)->0).1),
{
    let (a, b) = lemma_trim_bounds(line);
    let t = trim(line);
    let p = first_index(t, '=');
    assert(exists|q: int| is_first_index(t, '=', q));
    assert(is_first_index(t, '=', p));
    let kt = t.take(p);
    let (a2, b2) = lemma_trim_bounds(kt);
    let key = trim(kt);
    assert forall|i: int| 0 <= i < key.len() implies key[i] != '=' && key[i] != '\n' by {
        assert(key[i] == t[a2 + i]);
        assert(t[a2 + i] == line[a + a2 + i]);
    }
    if key.len() > 0 {
        assert(kt.len() > 0);
        assert(!is_ws(t[0]));
        assert(kt[0] == t[0]);
        assert(trim_start(kt) == kt);
        lemma_trim_end_keeps_first(kt);
        assert(key[0] == t[0]);
    }
    let vt = t.skip(p + 1);
    let (a4, b4) = lemma_trim_bounds(vt);
    let v = trim(vt);
    assert forall|i: int| 0 <= i < v.len() implies v[i] != '\n' by {
        assert(v[i] == vt[a4 + i]);
        assert(vt[a4 + i] == line[a + p + 1 + a4 + i]);
    }
    assert(line_entry(line, false) == Some((key, v)));
}

proof fn lemma_insert_plain(s: Seq<Entry>, k: Seq<char>, v: Seq<char>, i: int)
    requires
        forall|i: int| 0 <= i < s.len() ==> plain_key(#[trigger] s[i].0) && plain_value(s[i].1),
        plain_key(k),
        plain_value(v),
        0 <= i < listing_insert(s, k, v).len(),
    ensures
        plain_key(listing_insert(s, k, v)[i].0),
        plain_value(listing_insert(s, k, v)[i].1),
{
    let t = listing_insert(s, k, v);
    if exists|j: int| has_key_at(s, k, j) {
        let j = choose|j: int| has_key_at(s, k, j);
        assert(t == s.update(j, (k, v)));
        if i != j {
            assert(t[i] == s[i]);
        }
    } else {
        assert(t == s.push((k, v)));
        if i < s.len() {
            assert(t[i] == s[i]);
        }
    }
}

/// Every entry read without quote stripping is plain, and keys are unique.
proof fn lemma_raw_listing_plain(text: Seq<char>)
    ensures
        keys_unique(parse_listing(text, false)),
        forall|i: int|
            0 <= i < parse_listing(text, false).len() ==> plain_key(
                #[trigger] parse_listing(text, false)[i].0,
            ) && plain_value(parse_listing(text, false)[i].1),
    decreases text.len(),
{
    let k = last_index(text, '\n');
    lemma_last_index_bound(text, '\n');
    let (base, line) = if 0 <= k < text.len() {
        lemma_raw_listing_plain(text.take(k));
        (parse_listing(text.take(k), false), text.skip(k + 1))
    } else {
        (Seq::<Entry>::empty(), text)
    };
    assert(single_line(line)) by {
        assert forall|j: int| 0 <= j < line.len() implies line[j] != '\n' by {
            if 0 <= k < text.len() {
                assert(line[j] == text[k + 1 + j]);
            }
        }
    }
    assert(parse_listing(text, false) == parse_line(base, line, false));
    match line_entry(line, false) {
        Some(e) => {
            lemma_raw_entry_plain(line);
            lemma_insert(base, e.0, e.1);
            let t = listing_insert(base, e.0, e.1);
            assert forall|i: int| 0 <= i < t.len() implies plain_key(#[trigger] t[i].0)
                && plain_value(t[i].1) by {
                lemma_insert_plain(base, e.0, e.1, i);
            }
        },
        None => {},
    }
}

proof fn lemma_without_keys_plain(s: Seq<Entry>, m: Map<Seq<char>, Seq<char>>)
    requires
        keys_unique(s),
        forall|i: int| 0 <= i < s.len() ==> plain_key(#[trigger] s[i].0) && plain_value(s[i].1),
    ensures
        keys_unique(without_keys(s, m)),
        forall|i: int|
            0 <= i < without_keys(s, m).len() ==> {
                &&& plain_key(#[trigger] without_keys(s, m)[i].0)
                &&& plain_value(without_keys(s, m)[i].1)
                &&& !m.contains_key(without_keys(s, m)[i].0)
                &&& exists|j: int| 0 <= j < s.len() && s[j].0 == without_keys(s, m)[i].0
            },
    decreases s.len(),
{
    if s.len() > 0 {
        let prev = s.drop_last();
        assert forall|i: int| 0 <= i < prev.len() implies plain_key(#[trigger] prev[i].0)
            && plain_value(prev[i].1) by {
            assert(prev[i] == s[i]);
        }
        lemma_without_keys_plain(prev, m);
        let w = without_keys(prev, m);
        assert(plain_key(s[s.len() - 1].0) && plain_value(s[s.len() - 1].1));
        if !m.contains_key(s.last().0) {
            let t = w.push(s.last());
            assert forall|i: int| 0 <= i < t.len() implies {
                &&& plain_key(#[trigger] t[i].0)
                &&& plain_value(t[i].1)
                &&& !m.contains_key(t[i].0)
                &&& exists|j: int| 0 <= j < s.len() && s[j].0 == t[i].0
            } by {
                if i < w.len() {
                    let j = choose|j: int| 0 <= j < prev.len() && prev[j].0 == w[i].0;
                    assert(s[j].0 == t[i].0);
                } else {
                    assert(s[s.len() - 1].0 == t[i].0);
                }
            }
            assert forall|i: int, j: int| 0 <= i < j < t.len() implies t[i].0 != t[j].0 by {
                if j == w.len() {
                    let q = choose|q: int| 0 <= q < prev.len() && prev[q].0 == w[i].0;
                    assert(s[q].0 != s[s.len() - 1].0);
                }
            }
        }
    }
}

/// Syncing again with the same remote set keeps the local-only entries exactly as the
/// first sync wrote them, values as written included; so the second file equals the
/// first but for the time on its `# Updated:` line. This holds for remote keys and
/// values that a line carries unchanged and for single-line header fields.
pub proof fn law_second_sync_same_file(
    project_id: Seq<char>,
    environment: Seq<char>,
    first_time: Seq<char>,
    second_time: Seq<char>,
    remote: Map<Seq<char>, Seq<char>>,
    existing: Seq<char>,
)
    requires
        single_line(project_id),
        single_line(environment),
        single_line(first_time),
        has_sorted_listing(remote),
        forall|k: Seq<char>| #[trigger]
            remote.contains_key(k) ==> plain_key(k) && plain_value(remote[k]),
    ensures
        ({
            let kept = without_keys(parse_listing(existing, false), remote);
            let first = env_file_text(project_id, environment, first_time, remote, kept);
            let again = without_keys(parse_listing(first, false), remote);
            &&& parse_listing(first, false) == sorted_listing(remote) + kept
            &&& again == kept
            &&& env_file_text(project_id, environment, second_time, remote, again)
                == env_file_text(project_id, environment, second_time, remote, kept)
        }),
{
    let listing = parse_listing(existing, false);
    lemma_raw_listing_plain(existing);
    lemma_without_keys_plain(listing, remote);
    let kept = without_keys(listing, remote);
    assert forall|i: int| 0 <= i < kept.len() implies plain_key(#[trigger] kept[i].0) && plain_value(
        kept[i].1,
    ) && !remote.contains_key(kept[i].0) by {
        assert(plain_key(without_keys(listing, remote)[i].0));
    }
    lemma_reads_back(project_id, environment, first_time, remote, kept, false);
}

/// A listing with each value read through quote stripping.
pub open spec fn unquoted_values(s: Seq<Entry>) -> Seq<Entry> {
    s.map_values(|e: Entry| (e.0, unquote(e.1)))
}

proof fn lemma_unquoted_insert(s: Seq<Entry>, k: Seq<char>, v: Seq<char>)
    requires
        keys_unique(s),
    ensures
        listing_insert(unquoted_values(s), k, unquote(v)) == unquoted_values(
            listing_insert(s, k, v),
        ),
{
    let u = unquoted_values(s);
    assert forall|i: int| has_key_at(u, k, i) <==> has_key_at(s, k, i) by {}
    if exists|i: int| has_key_at(s, k, i) {
        let i1 = choose|i: int| has_key_at(u, k, i);
        let i2 = choose|i: int| has_key_at(s, k, i);
        assert(has_key_at(u, k, i1));
        assert(has_key_at(s, k, i1));
        assert(i1 == i2);
        assert(listing_insert(u, k, unquote(v)) =~= unquoted_values(listing_insert(s, k, v)));
    } else {
        assert(!exists|i: int| has_key_at(u, k, i));
        assert(listing_insert(u, k, unquote(v)) =~= unquoted_values(listing_insert(s, k, v)));
    }
}

/// Reading with quote stripping gives the values read as written, each unquoted.
proof fn lemma_strip_listing(text: Seq<char>)
    ensures
        parse_listing(text, true) == unquoted_values(parse_listing(text, false)),
    decreases text.len(),
{
    let k = last_index(text, '\n');
    lemma_last_index_bound(text, '\n');
    if 0 <= k < text.len() {
        lemma_strip_listing(text.take(k));
        lemma_raw_listing_plain(text.take(k));
        let line = text.skip(k + 1);
        match line_entry(line, false) {
            Some(e) => lemma_unquoted_insert(parse_listing(text.take(k), false), e.0, e.1),
            None => {},
        }
    } else {
        assert(unquoted_values(Seq::<Entry>::empty()) =~= Seq::<Entry>::empty());
        match line_entry(text, false) {
            Some(e) => lemma_unquoted_insert(Seq::<Entry>::empty(), e.0, e.1),
            None => {},
        }
    }
}

proof fn lemma_unquoted_map(s: Seq<Entry>, k: Seq<char>)
    requires
        keys_unique(s),
    ensures
        entries_map(unquoted_values(s)).contains_key(k) <==> entries_map(s).contains_key(k),
        entries_map(s).contains_key(k) ==> entries_map(unquoted_values(s))[k] == unquote(
            entries_map(s)[k],
        ),
{
    let u = unquoted_values(s);
    assert(keys_unique(u));
    if entries_map(s).contains_key(k) {
        let i = choose|i: int| has_key_at(s, k, i);
        assert(has_key_at(u, k, i));
        lemma_lookup(s, i);
        lemma_lookup(u, i);
    }
    if entries_map(u).contains_key(k) {
        let i = choose|i: int| has_key_at(u, k, i);
        assert(has_key_at(s, k, i));
    }
}

proof fn lemma_without_keys_keeps(s: Seq<Entry>, m: Map<Seq<char>, Seq<char>>, j: int)
    requires
        0 <= j < s.len(),
        !m.contains_key(s[j].0),
    ensures
        exists|i: int| 0 <= i < without_keys(s, m).len() && without_keys(s, m)[i] == s[j],
    decreases s.len(),
{
    let w = without_keys(s, m);
    if j == s.len() - 1 {
        assert(w[w.len() - 1] == s[j]);
    } else {
        assert(s.drop_last()[j] == s[j]);
        lemma_without_keys_keeps(s.drop_last(), m, j);
        let wp = without_keys(s.drop_last(), m);
        let i = choose|i: int| 0 <= i < wp.len() && wp[i] == s[j];
        assert(w[i] == wp[i]);
    }
}

/// After a sync, the new file read back gives every remote key with its remote value
/// and every local-only key of the prior file with its prior value, and no other key;
/// this holds both for values as written and for values read by `parse_env_file`.
pub proof fn law_synced_file_values(
    project_id: Seq<char>,
    environment: Seq<char>,
    timestamp: Seq<char>,
    remote: Map<Seq<char>, Seq<char>>,
    existing: Seq<char>,
)
    requires
        single_line(project_id),
        single_line(environment),
        single_line(timestamp),
        has_sorted_listing(remote),
        forall|k: Seq<char>| #[trigger]
            remote.contains_key(k) ==> plain_key(k) && plain_value(remote[k]),
    ensures
        ({
            let file = env_file_text(
                project_id,
                environment,
                timestamp,
                remote,
                without_keys(parse_listing(existing, false), remote),
            );
            let prior = entries_map(parse_listing(existing, false));
            let read = entries_map(parse_listing(file, false));
            let prior_read = entries_map(parse_listing(existing, true));
            let read_back = entries_map(parse_listing(file, true));
            &&& forall|k: Seq<char>| #[trigger]
                remote.contains_key(k) ==> read.contains_key(k) && read[k] == remote[k]
                    && read_back.contains_key(k) && read_back[k] == unquote(remote[k])
            &&& forall|k: Seq<char>| #[trigger]
                prior.contains_key(k) && !remote.contains_key(k) ==> read.contains_key(k)
                    && read[k] == prior[k]
            &&& forall|k: Seq<char>| #[trigger]
                prior_read.contains_key(k) && !remote.contains_key(k) ==> read_back.contains_key(k)
                    && read_back[k] == prior_read[k]
            &&& forall|k: Seq<char>| #[trigger]
                read.contains_key(k) ==> remote.contains_key(k) || prior.contains_key(k)
        }),
{
    let l = parse_listing(existing, false);
    lemma_raw_listing_plain(existing);
    lemma_without_keys_plain(l, remote);
    let kept = without_keys(l, remote);
    assert forall|i: int| 0 <= i < kept.len() implies plain_key(#[trigger] kept[i].0) && plain_value(
        kept[i].1,
    ) && !remote.contains_key(kept[i].0) by {
        assert(plain_key(without_keys(l, remote)[i].0));
    }
    let file = env_file_text(project_id, environment, timestamp, remote, kept);
    lemma_reads_back(project_id, environment, timestamp, remote, kept, false);
    let sl = sorted_listing(remote);
    assert(sorted_keys(sl) && entries_map(sl) == remote);
    lemma_sorted_keys_unique(sl);
    let all = sl + kept;
    assert(parse_listing(file, false) == all);
    assert forall|i: int, j: int| 0 <= i < j < all.len() implies all[i].0 != all[j].0 by {
        if j < sl.len() {
        } else if i >= sl.len() {
            assert(all[i] == kept[i - sl.len()] && all[j] == kept[j - sl.len()]);
        } else {
            assert(has_key_at(sl, sl[i].0, i));
            assert(all[j] == kept[j - sl.len()]);
            assert(!remote.contains_key(kept[j - sl.len()].0));
        }
    }
    let read = entries_map(all);
    let prior = entries_map(l);
    assert forall|k: Seq<char>| #[trigger] remote.contains_key(k) implies read.contains_key(k)
        && read[k] == remote[k] by {
        let i = choose|i: int| has_key_at(sl, k, i);
        lemma_lookup(sl, i);
        assert(all[i] == sl[i]);
        lemma_lookup(all, i);
    }
    assert forall|k: Seq<char>| #[trigger]
        prior.contains_key(k) && !remote.contains_key(k) implies read.contains_key(k) && read[k]
        == prior[k] by {
        let j = choose|j: int| has_key_at(l, k, j);
        lemma_lookup(l, j);
        lemma_without_keys_keeps(l, remote, j);
        let i = choose|i: int| 0 <= i < kept.len() && kept[i] == l[j];
        assert(all[sl.len() + i] == kept[i]);
        lemma_lookup(all, sl.len() + i);
    }
    assert forall|k: Seq<char>| #[trigger] read.contains_key(k) implies remote.contains_key(k)
        || prior.contains_key(k) by {
        let i = choose|i: int| has_key_at(all, k, i);
        if i < sl.len() {
            assert(has_key_at(sl, k, i));
        } else {
            assert(all[i] == kept[i - sl.len()]);
            let q = choose|q: int| 0 <= q < l.len() && l[q].0 == kept[i - sl.len()].0;
            assert(has_key_at(l, k, q));
        }
    }
    lemma_strip_listing(existing);
    lemma_strip_listing(file);
    assert forall|k: Seq<char>| #[trigger] remote.contains_key(k) implies entries_map(
        parse_listing(file, true),
    ).contains_key(k) && entries_map(parse_listing(file, true))[k] == unquote(remote[k]) by {
        lemma_unquoted_map(all, k);
    }
    assert forall|k: Seq<char>| #[trigger]
        entries_map(parse_listing(existing, true)).contains_key(k) && !remote.contains_key(
            k,
        ) implies entries_map(parse_listing(file, true)).contains_key(k) && entries_map(
        parse_listing(file, true),
    )[k] == entries_map(parse_listing(existing, true))[k] by {
        lemma_unquoted_map(l, k);
        lemma_unquoted_map(all, k);
    }
}

} // verus!
