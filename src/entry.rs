//! Key/value entries read from lines of a configuration text and from
//! command-line arguments.
use vstd::prelude::*;

use crate::text::{chars_from, chars_of, string_of, trim_end, trim_end_at, trim_start, trim_start_at};

verus! {

/// A key and its value, as character sequences.
pub type Entry = (Seq<char>, Seq<char>);

/// The view of a key/value pair of strings.
pub open spec fn entry_view(e: (String, String)) -> Entry {
    (e.0@, e.1@)
}

/// The view of an optional key/value pair of strings.
pub open spec fn opt_entry_view(e: Option<(String, String)>) -> Option<Entry> {
    match e {
        Some(p) => Some(entry_view(p)),
        None => None,
    }
}

/// The view of a sequence of key/value pairs of strings.
pub open spec fn entries_view(v: Seq<(String, String)>) -> Seq<Entry> {
    v.map_values(|e: (String, String)| entry_view(e))
}

/// The view of a sequence of strings.
pub open spec fn strings_view(v: Seq<String>) -> Seq<Seq<char>> {
    v.map_values(|a: String| a@)
}

/// `i` is the first position of `c` in `s`.
pub open spec fn first_at(s: Seq<char>, c: char, i: int) -> bool {
    &&& 0 <= i < s.len()
    &&& s[i] == c
    &&& forall|j: int| 0 <= j < i ==> s[j] != c
}

/// `s` split around the first occurrence of `c`, if there is one.
pub open spec fn split_once(s: Seq<char>, c: char) -> Option<Entry> {
    if s.contains(c) {
        let i = choose|i: int| first_at(s, c, i);
        Some((s.take(i), s.skip(i + 1)))
    } else {
        None
    }
}

/// The entry that `s` holds: split at its first `=`, or where it has none,
/// at its first `:`; none where it has neither.
pub open spec fn entry_of(s: Seq<char>) -> Option<Entry> {
    if s.contains('=') {
        split_once(s, '=')
    } else {
        split_once(s, ':')
    }
}

/// The entry that a line of a configuration text holds: the key loses its
/// trailing whitespace and the value its leading whitespace.
pub open spec fn config_line_entry(line: Seq<char>) -> Option<Entry> {
    match entry_of(line) {
        Some(e) => Some((trim_end(e.0), trim_start(e.1))),
        None => None,
    }
}

/// `a` without a leading `--`.
pub open spec fn without_dashes(a: Seq<char>) -> Seq<char> {
    if a.len() >= 2 && a[0] == '-' && a[1] == '-' {
        a.skip(2)
    } else {
        a
    }
}

/// The entry that a command-line argument holds.
pub open spec fn argument_entry(a: Seq<char>) -> Option<Entry> {
    entry_of(without_dashes(a))
}

/// The pieces of `s` between its `\n` characters, in order; a text without
/// any `\n` is one piece.
pub open spec fn pieces(s: Seq<char>) -> Seq<Seq<char>>
    decreases s.len(),
{
    if s.len() == 0 {
        seq![Seq::empty()]
    } else {
        let p = pieces(s.drop_last());
        if s.last() == '\n' {
            p.push(Seq::empty())
        } else {
            p.update(p.len() - 1, p.last().push(s.last()))
        }
    }
}

/// A line without the `\r` of a `\r\n` ending.
pub open spec fn strip_cr(line: Seq<char>) -> Seq<char> {
    if line.len() > 0 && line.last() == '\r' {
        line.drop_last()
    } else {
        line
    }
}

/// Pieces that a `\n` ended, as lines.
pub open spec fn ended_lines(p: Seq<Seq<char>>) -> Seq<Seq<char>> {
    p.map_values(|l: Seq<char>| strip_cr(l))
}

/// The lines of a text: they end at `\n` or `\r\n`, and the last line's
/// ending may be left out.
pub open spec fn lines_of(s: Seq<char>) -> Seq<Seq<char>> {
    let p = pieces(s);
    if p.last().len() == 0 {
        ended_lines(p.drop_last())
    } else {
        ended_lines(p.drop_last()).push(p.last())
    }
}

/// The entries that `lines` hold, in order.
pub open spec fn collect_config(lines: Seq<Seq<char>>) -> Seq<Entry>
    decreases lines.len(),
{
    if lines.len() == 0 {
        Seq::empty()
    } else {
        let prev = collect_config(lines.drop_last());
        match config_line_entry(lines.last()) {
            Some(e) => prev.push(e),
            None => prev,
        }
    }
}

/// The entries of a configuration text, in order.
pub open spec fn config_entries_of(text: Seq<char>) -> Seq<Entry> {
    collect_config(lines_of(text))
}

/// The entries that the arguments `args` hold, in order.
pub open spec fn collect_arguments(args: Seq<Seq<char>>) -> Seq<Entry>
    decreases args.len(),
{
    if args.len() == 0 {
        Seq::empty()
    } else {
        let prev = collect_arguments(args.drop_last());
        match argument_entry(args.last()) {
            Some(e) => prev.push(e),
            None => prev,
        }
    }
}

/// The entries of a program's arguments, the first of which, the program's
/// name, is passed over.
pub open spec fn argument_entries_of(args: Seq<Seq<char>>) -> Seq<Entry> {
    if args.len() == 0 {
        Seq::empty()
    } else {
        collect_arguments(args.drop_first())
    }
}

proof fn lemma_pieces_nonempty(s: Seq<char>)
    ensures
        pieces(s).len() >= 1,
    decreases s.len(),
{
    if s.len() > 0 {
        lemma_pieces_nonempty(s.drop_last());
    }
}

/// The first position of `c` in `s` is the one that `split_once` splits at.
pub proof fn lemma_first_at_unique(s: Seq<char>, c: char, i: int)
    requires
        first_at(s, c, i),
    ensures
        s.contains(c),
        split_once(s, c) == Some((s.take(i), s.skip(i + 1))),
{
    assert(s[i] == c);
    let j = choose|j: int| first_at(s, c, j);
    assert(first_at(s, c, j));
    if j < i {
        assert(s[j] != c);
    } else if i < j {
        assert(s[i] != c);
    }
}

/// A line or an argument that holds `=` is split at its first `=`, whatever
/// `:` it holds.
pub proof fn lemma_equals_sign_first(s: Seq<char>, i: int)
    requires
        first_at(s, '=', i),
    ensures
        entry_of(s) == Some((s.take(i), s.skip(i + 1))),
{
    lemma_first_at_unique(s, '=', i);
}

/// The first position of `c` in `cs`, if any.
fn find_first(cs: &Vec<char>, c: char) -> (r: Option<usize>)
    ensures
        match r {
            Some(i) => first_at(cs@, c, i as int),
            None => !cs@.contains(c),
        },
{
    let mut i: usize = 0;
    while i < cs.len()
        invariant
            i <= cs@.len(),
            forall|j: int| 0 <= j < i ==> cs@[j] != c,
        decreases cs.len() - i,
    {
        if cs[i] == c {
            return Some(i);
        }
        i = i + 1;
    }
    None
}

/// The position at which `cs` is split into an entry, if any.
fn separator(cs: &Vec<char>) -> (r: Option<usize>)
    ensures
        match r {
            Some(i) => i < cs@.len() && entry_of(cs@) == Some((cs@.take(i as int), cs@.skip(i + 1))),
            None => entry_of(cs@) is None,
        },
{
    match find_first(cs, '=') {
        Some(i) => {
            proof { lemma_first_at_unique(cs@, '=', i as int); }
            Some(i)
        },
        None => match find_first(cs, ':') {
            Some(i) => {
                proof { lemma_first_at_unique(cs@, ':', i as int); }
                Some(i)
            },
            None => None,
        },
    }
}

/// Splits `s` into a key and a value at its first `=`, or where it has none,
/// at its first `:`.
pub fn parse_entry(s: &str) -> (r: Option<(String, String)>)
    ensures
        opt_entry_view(r) == entry_of(s@),
{
    let cs = chars_of(s);
    match separator(&cs) {
        Some(i) => {
            assert(i < cs.len());
            let key = string_of(&cs, 0, i);
            let value = string_of(&cs, i + 1, cs.len());
            assert(cs@.subrange(0, i as int) =~= cs@.take(i as int));
            assert(cs@.subrange(i + 1, cs@.len() as int) =~= cs@.skip(i + 1));
            Some((key, value))
        },
        None => None,
    }
}

/// The entry that the line `cs` of a configuration text holds.
fn config_line(cs: &Vec<char>) -> (r: Option<(String, String)>)
    ensures
        opt_entry_view(r) == config_line_entry(cs@),
{
    match separator(cs) {
        Some(i) => {
            assert(i < cs.len());
            let key_end = trim_end_at(cs, 0, i);
            let value_start = trim_start_at(cs, i + 1, cs.len());
            let key = string_of(cs, 0, key_end);
            let value = string_of(cs, value_start, cs.len());
            assert(cs@.subrange(0, i as int) =~= cs@.take(i as int));
            assert(cs@.subrange(i + 1, cs@.len() as int) =~= cs@.skip(i + 1));
            Some((key, value))
        },
        None => None,
    }
}

/// Reads the entry that a command-line argument holds: an optional leading
/// `--` is dropped, and the rest split as `parse_entry` does.
pub fn parse_argument(a: &str) -> (r: Option<(String, String)>)
    ensures
        opt_entry_view(r) == argument_entry(a@),
{
    let cs = chars_of(a);
    let start: usize = if cs.len() >= 2 && cs[0] == '-' && cs[1] == '-' {
        2
    } else {
        0
    };
    let rest = chars_from(&cs, start);
    assert(cs@.skip(0) =~= cs@);
    match separator(&rest) {
        Some(i) => {
            let key = string_of(&rest, 0, i);
            let value = string_of(&rest, i + 1, rest.len());
            assert(rest@.subrange(0, i as int) =~= rest@.take(i as int));
            assert(rest@.subrange(i + 1, rest@.len() as int) =~= rest@.skip(i + 1));
            Some((key, value))
        },
        None => None,
    }
}

/// The entries of a configuration text, in the order of its lines. Lines
/// that hold neither `=` nor `:` are passed over.
pub fn config_entries(text: &str) -> (r: Vec<(String, String)>)
    ensures
        entries_view(r@) == config_entries_of(text@),
{
    let cs = chars_of(text);
    let mut r: Vec<(String, String)> = Vec::new();
    let mut line: Vec<char> = Vec::new();
    let ghost mut done: Seq<Seq<char>> = Seq::empty();
    let mut i: usize = 0;
    assert(cs@.take(0) =~= Seq::<char>::empty());
    assert(done.push(line@) =~= seq![Seq::<char>::empty()]);
    while i < cs.len()
        invariant
            i <= cs@.len(),
            pieces(cs@.take(i as int)) == done.push(line@),
            entries_view(r@) == collect_config(ended_lines(done)),
        decreases cs.len() - i,
    {
        let c = cs[i];
        assert(cs@.take(i + 1).drop_last() =~= cs@.take(i as int));
        if c == '\n' {
            let ghost old_line = line@;
            if line.len() > 0 && line[line.len() - 1] == '\r' {
                line.pop();
            }
            assert(line@ =~= strip_cr(old_line));
            let ghost old_r = entries_view(r@);
            match config_line(&line) {
                Some(e) => {
                    r.push(e);
                    assert(entries_view(r@) =~= old_r.push(entry_view(e)));
                },
                None => {},
            }
            proof {
                let next = done.push(old_line);
                assert(ended_lines(next) =~= ended_lines(done).push(strip_cr(old_line)));
                assert(ended_lines(next).drop_last() =~= ended_lines(done));
                done = next;
            }
            line = Vec::new();
            assert(pieces(cs@.take(i + 1)) =~= done.push(line@));
        } else {
            let ghost old_line = line@;
            line.push(c);
            proof {
                lemma_pieces_nonempty(cs@.take(i as int));
            }
            assert(pieces(cs@.take(i + 1)) =~= done.push(line@));
        }
        i = i + 1;
    }
    assert(cs@.take(i as int) =~= text@);
    assert(done.push(line@).drop_last() =~= done);
    if line.len() > 0 {
        let ghost old_r = entries_view(r@);
        match config_line(&line) {
            Some(e) => {
                r.push(e);
                assert(entries_view(r@) =~= old_r.push(entry_view(e)));
            },
            None => {},
        }
        assert(ended_lines(done).push(line@).drop_last() =~= ended_lines(done));
    }
    r
}

/// The entries of a program's arguments, in order, passing over the first
/// (the program's name) and those that hold neither `=` nor `:`.
pub fn argument_entries(args: &Vec<String>) -> (r: Vec<(String, String)>)
    ensures
        entries_view(r@) == argument_entries_of(strings_view(args@)),
{
    let ghost sv = strings_view(args@);
    let mut r: Vec<(String, String)> = Vec::new();
    if args.len() == 0 {
        return r;
    }
    let mut j: usize = 1;
    assert(sv.subrange(1, 1) =~= Seq::<Seq<char>>::empty());
    while j < args.len()
        invariant
            1 <= j <= args@.len(),
            sv == strings_view(args@),
            entries_view(r@) == collect_arguments(sv.subrange(1, j as int)),
        decreases args.len() - j,
    {
        assert(sv.subrange(1, j + 1).drop_last() =~= sv.subrange(1, j as int));
        let ghost old_r = entries_view(r@);
        match parse_argument(args[j].as_str()) {
            Some(e) => {
                r.push(e);
                assert(entries_view(r@) =~= old_r.push(entry_view(e)));
            },
            None => {},
        }
        j = j + 1;
    }
    assert(sv.subrange(1, j as int) =~= sv.drop_first());
    r
}

} // verus!
