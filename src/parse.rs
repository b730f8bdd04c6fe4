//! The `.env` line format: `KEY=VALUE` lines, `#` comments, blank lines, and
//! one optional layer of quotes around a value.

use vstd::prelude::*;
use crate::text::{
    char_list, find_char, first_index, lemma_first_index, trim, trim_bounds, trim_end, trim_start,
};

verus! {

/// A key and its value, as written on one line of a configuration file.
pub struct EnvEntry {
    pub key: String,
    pub value: String,
}

impl View for EnvEntry {
    type V = (Seq<char>, Seq<char>);

    open spec fn view(&self) -> (Seq<char>, Seq<char>) {
        (self.key@, self.value@)
    }
}

/// The keys and values of a list of entries, in order.
pub open spec fn entries_view(es: Seq<EnvEntry>) -> Seq<(Seq<char>, Seq<char>)> {
    es.map_values(|e: EnvEntry| e@)
}

/// The key and value of an optional entry.
pub open spec fn option_view(o: Option<EnvEntry>) -> Option<(Seq<char>, Seq<char>)> {
    match o {
        Some(e) => Some(e@),
        None => None,
    }
}

/// `v` without one layer of matching double or single quotes around it, if it has one.
pub open spec fn strip_quotes(v: Seq<char>) -> Seq<char> {
    if v.len() >= 2 && v[0] == v.last() && (v[0] == '"' || v[0] == '\'') {
        v.subrange(1, v.len() - 1)
    } else {
        v
    }
}

/// The entry that one line holds, if any.
///
/// A line that is blank once trimmed, that starts with `#`, that has no `=`,
/// or whose key is empty holds none. Otherwise the key is what stands before
/// the first `=` and the value what stands after it, both trimmed, and the
/// value stripped of one layer of quotes.
pub open spec fn line_entry(line: Seq<char>) -> Option<(Seq<char>, Seq<char>)> {
    let t = trim(line);
    let eq = first_index(t, '=') as int;
    let key = trim(t.subrange(0, eq));
    if t.len() == 0 || t[0] == '#' || eq == t.len() || key.len() == 0 {
        None
    } else {
        Some((key, strip_quotes(trim(t.subrange(eq + 1, t.len() as int)))))
    }
}

/// The entry of one line as a sequence of zero or one entries.
pub open spec fn line_entries(line: Seq<char>) -> Seq<(Seq<char>, Seq<char>)> {
    match line_entry(line) {
        Some(e) => seq![e],
        None => Seq::empty(),
    }
}

/// The entries of a whole file, line by line in order: lines end at `\n`.
pub open spec fn contents_entries(s: Seq<char>) -> Seq<(Seq<char>, Seq<char>)>
    decreases s.len(),
{
    let nl = first_index(s, '\n') as int;
    if nl < s.len() {
        line_entries(s.subrange(0, nl)) + contents_entries(s.subrange(nl + 1, s.len() as int))
    } else {
        line_entries(s)
    }
}

/// The entry of the line `cs[lo..hi]`; `s` holds the same characters as `cs`.
fn line_entry_at(s: &str, cs: &Vec<char>, lo: usize, hi: usize) -> (r: Option<EnvEntry>)
    requires
        cs@ == s@,
        lo <= hi <= cs@.len(),
    ensures
        option_view(r) == line_entry(cs@.subrange(lo as int, hi as int)),
{
    let (a, b) = trim_bounds(cs, lo, hi);
    let ghost t = cs@.subrange(a as int, b as int);
    if a == b || cs[a] == '#' {
        return None;
    }
    let eq = find_char(cs, '=', a, b);
    if eq == b {
        return None;
    }
    assert(cs@.subrange(a as int, eq as int) =~= t.subrange(0, eq - a));
    assert(cs@.subrange(eq + 1, b as int) =~= t.subrange(eq - a + 1, t.len() as int));
    let (ka, kb) = trim_bounds(cs, a, eq);
    if ka == kb {
        return None;
    }
    let (va, vb) = trim_bounds(cs, eq + 1, b);
    let ghost v = cs@.subrange(va as int, vb as int);
    let key = String::from_str(s.substring_char(ka, kb));
    let value = if vb - va >= 2 && cs[va] == cs[vb - 1] && (cs[va] == '"' || cs[va] == '\'') {
        assert(cs@.subrange(va + 1, vb - 1) =~= v.subrange(1, v.len() - 1));
        String::from_str(s.substring_char(va + 1, vb - 1))
    } else {
        String::from_str(s.substring_char(va, vb))
    };
    Some(EnvEntry { key, value })
}

/// The entry that `line` holds, if any.
pub fn parse_line(line: &str) -> (r: Option<EnvEntry>)
    ensures
        option_view(r) == line_entry(line@),
{
    let cs = char_list(line);
    assert(cs@.subrange(0, cs@.len() as int) =~= line@);
    line_entry_at(line, &cs, 0, cs.len())
}

/// The entries of a whole file, in the order of their lines. Lines that hold
/// no entry are passed over.
pub fn parse_env_contents(contents: &str) -> (r: Vec<EnvEntry>)
    ensures
        entries_view(r@) == contents_entries(contents@),
{
    let cs = char_list(contents);
    let n = cs.len();
    let mut r: Vec<EnvEntry> = Vec::new();
    let mut pos: usize = 0;
    assert(cs@.subrange(0, n as int) =~= contents@);
    assert(entries_view(r@) =~= Seq::<(Seq<char>, Seq<char>)>::empty());
    assert(entries_view(r@) + contents_entries(contents@) =~= contents_entries(contents@));
    loop
        invariant
            cs@ == contents@,
            n == cs@.len(),
            pos <= n,
            entries_view(r@) + contents_entries(cs@.subrange(pos as int, n as int))
                == contents_entries(contents@),
        decreases n - pos,
    {
        let ghost rest = cs@.subrange(pos as int, n as int);
        let nl = find_char(&cs, '\n', pos, n);
        assert(cs@.subrange(pos as int, nl as int) =~= rest.subrange(0, nl - pos));
        let entry = line_entry_at(contents, &cs, pos, nl);
        let ghost here = line_entries(cs@.subrange(pos as int, nl as int));
        let ghost before = entries_view(r@);
        match entry {
            Some(e) => {
                r.push(e);
                assert(entries_view(r@) =~= before + here);
            },
            None => {
                assert(here =~= Seq::<(Seq<char>, Seq<char>)>::empty());
                assert(before + here =~= before);
            },
        }
        if nl == n {
            assert(rest.subrange(0, rest.len() as int) =~= rest);
            assert(entries_view(r@) + Seq::<(Seq<char>, Seq<char>)>::empty() =~= entries_view(r@));
            return r;
        }
        assert(cs@.subrange(nl + 1, n as int) =~= rest.subrange(nl - pos + 1, rest.len() as int));
        assert(entries_view(r@) + contents_entries(cs@.subrange(nl + 1, n as int)) =~= before + (
        here + contents_entries(cs@.subrange(nl + 1, n as int))));
        pos = nl + 1;
    }
}

/// Trimming brings in no character that was not there.
proof fn lemma_trim_keeps_absent(s: Seq<char>, c: char)
    requires
        !s.contains(c),
    ensures
        !trim(s).contains(c),
{
    lemma_trim_start_keeps_absent(s, c);
    lemma_trim_end_keeps_absent(trim_start(s), c);
}

proof fn lemma_trim_start_keeps_absent(s: Seq<char>, c: char)
    requires
        !s.contains(c),
    ensures
        !trim_start(s).contains(c),
    decreases s.len(),
{
    if s.len() > 0 && crate::text::is_blank(s[0]) {
        assert forall|j: int| 0 <= j < s.drop_first().len() implies s.drop_first()[j] != c by {
            assert(s.drop_first()[j] == s[j + 1]);
        }
        lemma_trim_start_keeps_absent(s.drop_first(), c);
    }
}

proof fn lemma_trim_end_keeps_absent(s: Seq<char>, c: char)
    requires
        !s.contains(c),
    ensures
        !trim_end(s).contains(c),
    decreases s.len(),
{
    if s.len() > 0 && crate::text::is_blank(s.last()) {
        assert forall|j: int| 0 <= j < s.drop_last().len() implies s.drop_last()[j] != c by {
            assert(s.drop_last()[j] == s[j]);
        }
        lemma_trim_end_keeps_absent(s.drop_last(), c);
    }
}

/// A line without `=` holds no entry, and the lines after it are read as if
/// it were not there.
pub proof fn lemma_line_without_separator(line: Seq<char>, rest: Seq<char>)
    requires
        !line.contains('='),
        !line.contains('\n'),
    ensures
        line_entry(line) is None,
        contents_entries(line + seq!['\n'] + rest) == contents_entries(rest),
{
    let t = trim(line);
    lemma_trim_keeps_absent(line, '=');
    lemma_first_index(t, '=', t.len() as int);
    let s = line + seq!['\n'] + rest;
    lemma_first_index(s, '\n', line.len() as int);
    assert(s.subrange(0, line.len() as int) =~= line);
    assert(s.subrange(line.len() as int + 1, s.len() as int) =~= rest);
    assert(line_entries(line) + contents_entries(rest) =~= contents_entries(rest));
}

} // verus!
