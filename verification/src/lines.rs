//! Splitting document text into lines, the way `str::lines` does it:
//! lines end at `\n`, a `\r` just before the `\n` is dropped, and a final
//! line without a terminator is kept unless it is empty.

use vstd::prelude::*;

use crate::chartext::{trim_end_spec, find_from, lemma_find_from_bounds};
use crate::chartext::{trim_end_index, range_eq_str, vec_range};

verus! {

/// A line with one trailing carriage return removed.
pub open spec fn strip_cr(l: Seq<char>) -> Seq<char> {
    if l.len() > 0 && l[l.len() - 1] == '\r' {
        l.subrange(0, l.len() - 1)
    } else {
        l
    }
}

/// The lines of `s[i..]`.
pub open spec fn lines_from(s: Seq<char>, i: int) -> Seq<Seq<char>>
    decreases s.len() - i,
    via lines_from_decreases
{
    if i < 0 || i >= s.len() {
        Seq::empty()
    } else {
        let j = find_from(s, i, '\n');
        if j == s.len() {
            seq![s.subrange(i, j)]
        } else {
            seq![strip_cr(s.subrange(i, j))] + lines_from(s, j + 1)
        }
    }
}

#[via_fn]
proof fn lines_from_decreases(s: Seq<char>, i: int) {
    if 0 <= i && i < s.len() {
        lemma_find_from_bounds(s, i, '\n');
    }
}

/// The lines of a document's text.
pub open spec fn lines_spec(s: Seq<char>) -> Seq<Seq<char>> {
    lines_from(s, 0)
}

/// Split `v` into its lines.
pub fn split_lines(v: &Vec<char>) -> (r: Vec<Vec<char>>)
    ensures
        r@.map_values(|l: Vec<char>| l@) == lines_spec(v@),
{
    let mut out: Vec<Vec<char>> = Vec::new();
    let mut i: usize = 0;
    while i < v.len()
        invariant
            0 <= i <= v@.len(),
            lines_spec(v@) == out@.map_values(|l: Vec<char>| l@) + lines_from(v@, i as int),
        decreases v@.len() - i,
    {
        let ghost i0 = i as int;
        let mut j: usize = i;
        while j < v.len() && v[j] != '\n'
            invariant
                i <= j <= v@.len(),
                find_from(v@, i as int, '\n') == find_from(v@, j as int, '\n'),
            decreases v@.len() - j,
        {
            j = j + 1;
        }
        proof {
            lemma_find_from_bounds(v@, j as int, '\n');
            assert(find_from(v@, i0, '\n') == j);
        }
        let ghost prev = out@;
        if j < v.len() {
            let end: usize = if j > i && v[j - 1] == '\r' {
                j - 1
            } else {
                j
            };
            let line = vec_range(v, i, end);
            proof {
                assert(line@ =~= strip_cr(v@.subrange(i0, j as int)));
            }
            out.push(line);
            proof {
                assert(out@.map_values(|l: Vec<char>| l@) =~= prev.map_values(
                    |l: Vec<char>| l@,
                ).push(line@));
                assert(lines_from(v@, i0) == seq![strip_cr(v@.subrange(i0, j as int))]
                    + lines_from(v@, j + 1));
                assert(out@.map_values(|l: Vec<char>| l@) + lines_from(v@, j + 1)
                    =~= lines_spec(v@));
            }
            i = j + 1;
        } else {
            let line = vec_range(v, i, j);
            out.push(line);
            proof {
                assert(out@.map_values(|l: Vec<char>| l@) =~= prev.map_values(
                    |l: Vec<char>| l@,
                ).push(line@));
                assert(lines_from(v@, i0) == seq![v@.subrange(i0, j as int)]);
                assert(out@.map_values(|l: Vec<char>| l@) + lines_from(v@, j as int)
                    =~= lines_spec(v@));
            }
            i = j;
        }
    }
    proof {
        assert(out@.map_values(|l: Vec<char>| l@) =~= lines_spec(v@));
    }
    out
}

/// A text of `n` characters has at most `n + 1` lines.
pub proof fn lemma_lines_count(s: Seq<char>, i: int)
    requires
        0 <= i <= s.len(),
    ensures
        lines_from(s, i).len() <= s.len() - i + 1,
    decreases s.len() - i,
{
    if i < s.len() {
        let j = find_from(s, i, '\n');
        lemma_find_from_bounds(s, i, '\n');
        if j < s.len() {
            lemma_lines_count(s, j + 1);
        }
    }
}

/// Whether the line, with trailing whitespace removed, is the `---` delimiter.
pub open spec fn is_delim_spec(l: Seq<char>) -> bool {
    trim_end_spec(l) == "---"@
}

/// Decide `is_delim_spec` on one line.
pub fn is_delim_line(l: &Vec<char>) -> (r: bool)
    ensures
        r == is_delim_spec(l@),
{
    let e = trim_end_index(l);
    range_eq_str(l, 0, e, "---")
}

} // verus!
