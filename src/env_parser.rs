//! Reading `KEY=VALUE` text.
use vstd::prelude::*;
use vstd::multiset::Multiset;
use crate::text::{chars_of, find_char, first_index, last_index, lemma_last_index, trim, trimmed_bounds};
use crate::order::{key_less, key_lt, lemma_key_lt_asymmetric, lemma_key_lt_total, lemma_key_lt_transitive};
use crate::vars::{listing_insert, Entry, VariableSet};

verus! {

/// One matching pair of surrounding quotes removed, if there is one.
pub open spec fn unquote(v: Seq<char>) -> Seq<char> {
    if v.len() >= 2 && ((v[0] == '"' && v.last() == '"') || (v[0] == '\'' && v.last() == '\'')) {
        v.subrange(1, v.len() - 1)
    } else {
        v
    }
}

/// The entry a line holds: none for a blank line, a comment, or a line without `=`.
/// With `strip`, one pair of matching quotes is removed from the value; without, the
/// value is the trimmed text after the first `=`, as written.
pub open spec fn line_entry(line: Seq<char>, strip: bool) -> Option<Entry> {
    let t = trim(line);
    if t.len() == 0 || t[0] == '#' {
        None
    } else {
        let p = first_index(t, '=');
        if p < 0 {
            None
        } else {
            let v = trim(t.skip(p + 1));
            Some((trim(t.take(p)), if strip {
                unquote(v)
            } else {
                v
            }))
        }
    }
}

/// The listing after one more line is read.
pub open spec fn parse_line(s: Seq<Entry>, line: Seq<char>, strip: bool) -> Seq<Entry> {
    match line_entry(line, strip) {
        Some(e) => listing_insert(s, e.0, e.1),
        None => s,
    }
}

/// The entries of a text read line by line; a later line sets a key again.
pub open spec fn parse_listing(text: Seq<char>, strip: bool) -> Seq<Entry>
    decreases text.len(),
{
    let k = last_index(text, '\n');
    if 0 <= k < text.len() {
        parse_line(parse_listing(text.take(k), strip), text.skip(k + 1), strip)
    } else {
        parse_line(Seq::empty(), text, strip)
    }
}

spec fn parsed_before(text: Seq<char>, start: int, strip: bool) -> Seq<Entry> {
    if start == 0 {
        Seq::empty()
    } else {
        parse_listing(text.take(start - 1), strip)
    }
}

/// Reads the line `cs[lo..hi]` of `content` into `vars`.
fn read_line(
    vars: &mut VariableSet,
    content: &str,
    cs: &Vec<char>,
    lo: usize,
    hi: usize,
    strip: bool,
)
    requires
        old(vars).wf(),
        cs@ == content@,
        lo <= hi <= cs@.len(),
    ensures
        final(vars).wf(),
        final(vars).listing() == parse_line(
            old(vars).listing(),
            cs@.subrange(lo as int, hi as int),
            strip,
        ),
{
    let ghost line = cs@.subrange(lo as int, hi as int);
    let (a, b) = trimmed_bounds(cs, lo, hi);
    let ghost t = cs@.subrange(a as int, b as int);
    if a == b || cs[a] == '#' {
        return;
    }
    match find_char(cs, a, b, '=') {
        None => {},
        Some(p) => {
            assert(t.take(p as int) =~= cs@.subrange(a as int, (a + p) as int));
            assert(t.skip(p + 1) =~= cs@.subrange((a + p + 1) as int, b as int));
            let (ka, kb) = trimmed_bounds(cs, a, a + p);
            let (mut va, mut vb) = trimmed_bounds(cs, a + p + 1, b);
            let ghost v = cs@.subrange(va as int, vb as int);
            if strip && vb - va >= 2 && ((cs[va] == '"' && cs[vb - 1] == '"') || (cs[va] == '\''
                && cs[vb - 1] == '\'')) {
                assert(v.subrange(1, v.len() - 1) =~= cs@.subrange(va + 1, vb - 1));
                va = va + 1;
                vb = vb - 1;
            }
            let key = String::from_str(content.substring_char(ka, kb));
            let value = String::from_str(content.substring_char(va, vb));
            vars.insert(key, value);
        },
    }
}

/// Reads `KEY=VALUE` lines. Each line is trimmed; blank lines, lines starting with `#`
/// and lines without `=` are skipped. A line splits at its first `=`, key and value are
/// trimmed, and one pair of matching surrounding quotes is stripped from the value.
pub fn parse_env_file(content: &str) -> (r: VariableSet)
    ensures
        r.wf(),
        r.listing() == parse_listing(content@, true),
{
    read_lines(content, true)
}

/// Reads `KEY=VALUE` lines as `parse_env_file` does, but keeps each value as written:
/// the trimmed text after the first `=`, quotes included.
pub fn parse_env_file_raw(content: &str) -> (r: VariableSet)
    ensures
        r.wf(),
        r.listing() == parse_listing(content@, false),
{
    read_lines(content, false)
}

fn read_lines(content: &str, strip: bool) -> (r: VariableSet)
    ensures
        r.wf(),
        r.listing() == parse_listing(content@, strip),
{
    let cs = chars_of(content);
    let n = cs.len();
    let mut vars = VariableSet::new();
    let mut start: usize = 0;
    let mut i: usize = 0;
    while i < n
        invariant
            start <= i <= n == cs@.len(),
            cs@ == content@,
            vars.wf(),
            start == 0 || cs@[start - 1] == '\n',
            forall|j: int| start <= j < i ==> cs@[j] != '\n',
            vars.listing() == parsed_before(cs@, start as int, strip),
        decreases n - i,
    {
        if cs[i] == '\n' {
            read_line(&mut vars, content, &cs, start, i, strip);
            proof {
                let s = cs@.take(i as int);
                lemma_last_index(s, '\n', start as int);
                if start > 0 {
                    assert(s.take(start - 1) =~= cs@.take(start - 1));
                }
                assert(s.skip(start as int) =~= cs@.subrange(start as int, i as int));
                assert(s =~= cs@.subrange(0, i as int));
            }
            start = i + 1;
        }
        i = i + 1;
    }
    read_line(&mut vars, content, &cs, start, n, strip);
    proof {
        let s = cs@;
        lemma_last_index(s, '\n', start as int);
        assert(s.skip(start as int) =~= cs@.subrange(start as int, n as int));
        assert(s =~= cs@.subrange(0, n as int));
    }
    vars
}

/// A value as written by `format_env_file`: in double quotes when it holds a space.
pub open spec fn formatted_value(v: Seq<char>) -> Seq<char> {
    if v.contains(' ') {
        "\""@ + v + "\""@
    } else {
        v
    }
}

/// The line written for an entry.
pub open spec fn formatted_line(e: Entry) -> Seq<char> {
    e.0 + "="@ + formatted_value(e.1)
}

/// No line sorts strictly before one that comes earlier.
pub open spec fn lines_in_order(ls: Seq<Seq<char>>) -> bool {
    forall|i: int, j: int| 0 <= i < j < ls.len() ==> !key_lt(ls[j], ls[i])
}

/// The lines of a multiset in order.
pub open spec fn sorted_lines(m: Multiset<Seq<char>>) -> Seq<Seq<char>> {
    choose|ls: Seq<Seq<char>>| lines_in_order(ls) && ls.to_multiset() == m
}

/// Lines joined by newlines, without a final newline.
pub open spec fn joined_lines(ls: Seq<Seq<char>>) -> Seq<char>
    decreases ls.len(),
{
    if ls.len() == 0 {
        Seq::empty()
    } else if ls.len() == 1 {
        ls[0]
    } else {
        joined_lines(ls.drop_last()) + "\n"@ + ls.last()
    }
}

/// Two ordered lists of the same lines are equal.
pub proof fn lemma_lines_in_order_unique(a: Seq<Seq<char>>, b: Seq<Seq<char>>)
    requires
        lines_in_order(a),
        lines_in_order(b),
        a.to_multiset() == b.to_multiset(),
    ensures
        a == b,
    decreases a.len(),
{
    broadcast use vstd::seq_lib::group_to_multiset_ensures;

    assert(a.len() == b.len()) by {
        assert(a.len() == a.to_multiset().len());
        assert(b.len() == b.to_multiset().len());
    }
    if a.len() > 0 {
        assert(a.contains(a[0]));
        assert(a.to_multiset().count(a[0]) > 0);
        assert(b.to_multiset().count(a[0]) > 0);
        assert(b.contains(a[0]));
        let j = choose|j: int| 0 <= j < b.len() && b[j] == a[0];
        assert(b.contains(b[0]));
        assert(b.to_multiset().count(b[0]) > 0);
        assert(a.contains(b[0]));
        let i = choose|i: int| 0 <= i < a.len() && a[i] == b[0];
        if a[0] != b[0] {
            lemma_key_lt_total(a[0], b[0]);
            if key_lt(a[0], b[0]) {
                assert(j > 0);
                assert(!key_lt(b[j], b[0]));
            } else {
                assert(i > 0);
                assert(!key_lt(a[i], a[0]));
            }
        }
        assert(a.remove(0).to_multiset() == a.to_multiset().remove(a[0]));
        assert(b.remove(0).to_multiset() == b.to_multiset().remove(b[0]));
        assert(a.remove(0) =~= a.drop_first());
        assert(b.remove(0) =~= b.drop_first());
        lemma_lines_in_order_unique(a.drop_first(), b.drop_first());
        assert forall|k: int| 0 <= k < a.len() implies a[k] == b[k] by {
            if k > 0 {
                assert(a[k] == a.drop_first()[k - 1]);
                assert(b[k] == b.drop_first()[k - 1]);
            }
        }
        assert(a =~= b);
    } else {
        assert(a =~= b);
    }
}

fn has_space(s: &String) -> (r: bool)
    ensures
        r == s@.contains(' '),
{
    let cs = chars_of(s.as_str());
    let mut i: usize = 0;
    while i < cs.len()
        invariant
            i <= cs@.len(),
            cs@ == s@,
            forall|j: int| 0 <= j < i ==> cs@[j] != ' ',
        decreases cs@.len() - i,
    {
        if cs[i] == ' ' {
            assert(cs@[i as int] == ' ');
            return true;
        }
        i = i + 1;
    }
    false
}

/// Writes the variables as `KEY=VALUE` lines sorted as whole lines, joined by
/// newlines. A value holding a space is put in double quotes.
pub fn format_env_file(vars: &VariableSet) -> (r: String)
    ensures
        r@ == joined_lines(
            sorted_lines(vars.listing().map_values(|e: Entry| formatted_line(e)).to_multiset()),
        ),
{
    broadcast use vstd::seq_lib::group_to_multiset_ensures;

    let ghost fl = vars.listing().map_values(|e: Entry| formatted_line(e));
    let mut out: Vec<String> = Vec::new();
    let ghost mut ov: Seq<Seq<char>> = Seq::empty();
    let mut i: usize = 0;
    assert(fl.take(0) =~= Seq::<Seq<char>>::empty());
    while i < vars.len()
        invariant
            i <= vars.listing().len(),
            fl == vars.listing().map_values(|e: Entry| formatted_line(e)),
            ov.len() == out@.len(),
            forall|k: int| 0 <= k < ov.len() ==> ov[k] == (#[trigger] out@[k])@,
            lines_in_order(ov),
            ov.to_multiset() == fl.take(i as int).to_multiset(),
        decreases vars.listing().len() - i,
    {
        let (key, value) = vars.entry(i);
        let mut line = key.clone();
        line.append("=");
        if has_space(value) {
            line.append("\"");
            line.append(value.as_str());
            line.append("\"");
        } else {
            line.append(value.as_str());
        }
        assert(line@ =~= fl[i as int]);
        let mut pos: usize = 0;
        while pos < out.len() && !key_less(&line, &out[pos])
            invariant
                pos <= ov.len() == out@.len(),
                forall|k: int| 0 <= k < ov.len() ==> ov[k] == (#[trigger] out@[k])@,
                forall|k: int| 0 <= k < pos ==> !key_lt(line@, ov[k]),
            decreases ov.len() - pos,
        {
            pos = pos + 1;
        }
        proof {
            if pos < ov.len() {
                assert(key_lt(line@, ov[pos as int]));
                lemma_key_lt_asymmetric(line@, ov[pos as int]);
                assert forall|k: int| pos <= k < ov.len() implies !key_lt(ov[k], line@) by {
                    if k > pos && key_lt(ov[k], line@) {
                        lemma_key_lt_transitive(ov[k], line@, ov[pos as int]);
                    }
                }
            }
            let nv = ov.insert(pos as int, line@);
            assert forall|a: int, b: int| 0 <= a < b < nv.len() implies !key_lt(nv[b], nv[a]) by {
                if b < pos {
                } else if a < pos && b == pos {
                } else if a < pos && b > pos {
                    assert(nv[b] == ov[b - 1]);
                    if key_lt(nv[b], nv[a]) {
                        assert(!key_lt(ov[b - 1], line@));
                        lemma_key_lt_transitive(ov[b - 1], nv[a], line@);
                        lemma_key_lt_total(nv[a], line@);
                    }
                } else if a == pos {
                    assert(nv[b] == ov[b - 1]);
                } else {
                    assert(nv[a] == ov[a - 1] && nv[b] == ov[b - 1]);
                }
            }
            assert(fl.take(i + 1) =~= fl.take(i as int).push(fl[i as int]));
            vstd::seq_lib::to_multiset_insert(ov, pos as int, line@);
            vstd::seq_lib::to_multiset_build(fl.take(i as int), fl[i as int]);
            assert(nv.to_multiset() == ov.to_multiset().insert(line@));
            assert(fl.take(i as int).push(fl[i as int]).to_multiset() == fl.take(
                i as int,
            ).to_multiset().insert(fl[i as int]));
            ov = nv;
        }
        out.insert(pos, line);
        i = i + 1;
    }
    assert(fl.take(fl.len() as int) =~= fl);
    proof {
        let c = sorted_lines(fl.to_multiset());
        assert(lines_in_order(ov) && ov.to_multiset() == fl.to_multiset());
        lemma_lines_in_order_unique(ov, c);
    }
    let mut text = String::new();
    let mut k: usize = 0;
    assert(ov.take(0) =~= Seq::<Seq<char>>::empty());
    while k < out.len()
        invariant
            k <= ov.len() == out@.len(),
            forall|q: int| 0 <= q < ov.len() ==> ov[q] == (#[trigger] out@[q])@,
            text@ == joined_lines(ov.take(k as int)),
        decreases ov.len() - k,
    {
        if k > 0 {
            text.append("\n");
        }
        text.append(out[k].as_str());
        assert(ov.take(k + 1).drop_last() =~= ov.take(k as int));
        if k == 0 {
            assert(text@ =~= joined_lines(ov.take(1)));
        } else {
            assert(text@ =~= joined_lines(ov.take(k + 1)));
        }
        k = k + 1;
    }
    assert(ov.take(ov.len() as int) =~= ov);
    text
}

} // verus!
