//! Frontmatter-oriented text utilities: delimiter bounds, field-name and
//! value extraction from YAML lines, word lookup under a cursor, and the
//! field-key range used by diagnostics.

use vstd::prelude::*;

use crate::chartext::{
    char_run_end, chars_vec, find2_char_from, find_char_from, find_from,
    lemma_ws_run_end_bounds, range_starts_with_str, skip_char_run, starts_with, string_range,
    trim_range_string, trim_range_vec, trim_spec, vec_range, ws_run_end, ws_skip_from,
};
use crate::lines::{is_delim_spec, is_delim_line, lines_spec, split_lines};
use crate::protocol::Position;

verus! {

/// First line index at or after `i` that is a `---` delimiter line.
pub open spec fn delim_from(ls: Seq<Seq<char>>, i: int) -> int
    decreases ls.len() - i,
{
    if i < 0 || i >= ls.len() {
        ls.len() as int
    } else if is_delim_spec(ls[i]) {
        i
    } else {
        delim_from(ls, i + 1)
    }
}

pub proof fn lemma_delim_from_bounds(ls: Seq<Seq<char>>, i: int)
    requires
        0 <= i <= ls.len(),
    ensures
        i <= delim_from(ls, i) <= ls.len(),
        delim_from(ls, i) < ls.len() ==> is_delim_spec(ls[delim_from(ls, i)]),
    decreases ls.len() - i,
{
    if i < ls.len() && !is_delim_spec(ls[i]) {
        lemma_delim_from_bounds(ls, i + 1);
    }
}

/// The inclusive interior line range of the YAML frontmatter: the first line
/// must be `---`, and a later `---` line must close a non-empty block.
pub open spec fn fm_bounds_spec(ls: Seq<Seq<char>>) -> Option<(int, int)> {
    if ls.len() == 0 || !is_delim_spec(ls[0]) {
        None
    } else {
        let c = delim_from(ls, 1);
        if c >= ls.len() {
            None
        } else if c <= 1 {
            None
        } else {
            Some((1, c - 1))
        }
    }
}

/// Frontmatter bounds of a document, per `fm_bounds_spec` over its lines.
pub fn frontmatter_bounds(text: &str) -> (r: Option<(usize, usize)>)
    ensures
        match r {
            Some((s, e)) => fm_bounds_spec(lines_spec(text@)) == Some((s as int, e as int)),
            None => fm_bounds_spec(lines_spec(text@)) is None,
        },
{
    let v = chars_vec(text);
    let ls = split_lines(&v);
    let ghost lsv = lines_spec(text@);
    proof {
        assert(ls@.map_values(|l: Vec<char>| l@) == lsv);
        assert(ls@.len() == lsv.len());
    }
    if ls.len() == 0 {
        return None;
    }
    proof {
        assert(ls@.map_values(|l: Vec<char>| l@)[0] == ls@[0]@);
    }
    if !is_delim_line(&ls[0]) {
        return None;
    }
    let mut i: usize = 1;
    while i < ls.len() && !is_delim_line(&ls[i])
        invariant
            1 <= i <= lsv.len(),
            lsv == ls@.map_values(|l: Vec<char>| l@),
            delim_from(lsv, 1) == delim_from(lsv, i as int),
            forall|k: int| 0 <= k < ls@.len() ==> #[trigger] ls@[k]@ == lsv[k],
        decreases ls@.len() - i,
    {
        i = i + 1;
    }
    proof {
        lemma_delim_from_bounds(lsv, i as int);
        assert(delim_from(lsv, 1) == i);
    }
    if i >= ls.len() {
        None
    } else if i <= 1 {
        None
    } else {
        Some((1, i - 1))
    }
}

/// Whether `line` lies inside the frontmatter of `text`.
pub open spec fn in_frontmatter_spec(s: Seq<char>, line: int) -> bool {
    match fm_bounds_spec(lines_spec(s)) {
        Some((a, b)) => a <= line <= b,
        None => false,
    }
}

pub fn is_in_frontmatter(text: &str, line: usize) -> (r: bool)
    ensures
        r == in_frontmatter_spec(text@, line as int),
{
    match frontmatter_bounds(text) {
        Some((start, end)) => start <= line && line <= end,
        None => false,
    }
}

/// The field name on a `field: value` line: leading whitespace and any list
/// dash are skipped, the name is the trimmed text before the first colon.
pub open spec fn field_name_spec(l: Seq<char>) -> Option<Seq<char>> {
    let t = ws_run_end(l, 0);
    let d = if t < l.len() && l[t] == '-' {
        ws_run_end(l, char_run_end(l, t, '-'))
    } else {
        t
    };
    let j = find_from(l, d, ':');
    if j >= l.len() {
        None
    } else {
        let name = trim_spec(l.subrange(d, j));
        if name.len() == 0 {
            None
        } else {
            Some(name)
        }
    }
}

pub fn field_name_from_line(line: &str) -> (r: Option<String>)
    ensures
        match r {
            Some(n) => field_name_spec(line@) == Some(n@),
            None => field_name_spec(line@) is None,
        },
{
    let v = chars_vec(line);
    let t = ws_skip_from(&v, 0);
    let d: usize = if t < v.len() && v[t] == '-' {
        let e = skip_char_run(&v, t, '-');
        ws_skip_from(&v, e)
    } else {
        t
    };
    let j = find_char_from(&v, d, ':');
    if j >= v.len() {
        return None;
    }
    let name = trim_range_string(&v, d, j);
    if name.unicode_len() == 0 {
        None
    } else {
        Some(name)
    }
}

/// Characters that make up a word: ASCII letters, digits, `_` and `-`.
pub open spec fn is_word_char_spec(c: char) -> bool {
    (c as u32 >= 97 && c as u32 <= 122) || (c as u32 >= 65 && c as u32 <= 90) || (c as u32 >= 48
        && c as u32 <= 57) || c == '_' || c == '-'
}

pub fn is_word_char(c: char) -> (r: bool)
    ensures
        r == is_word_char_spec(c),
{
    let u = c as u32;
    (u >= 97 && u <= 122) || (u >= 65 && u <= 90) || (u >= 48 && u <= 57) || c == '_' || c == '-'
}

/// Start of the word run that ends at `i` (scanning backwards).
pub open spec fn word_start(s: Seq<char>, i: int) -> int
    decreases i,
{
    if i <= 0 || i > s.len() {
        0
    } else if is_word_char_spec(s[i - 1]) {
        word_start(s, i - 1)
    } else {
        i
    }
}

/// End of the word run that starts at `i`.
pub open spec fn word_end(s: Seq<char>, i: int) -> int
    decreases s.len() - i,
{
    if i < 0 || i >= s.len() {
        s.len() as int
    } else if is_word_char_spec(s[i]) {
        word_end(s, i + 1)
    } else {
        i
    }
}

pub proof fn lemma_word_start_bounds(s: Seq<char>, i: int)
    requires
        0 <= i <= s.len(),
    ensures
        0 <= word_start(s, i) <= i,
    decreases i,
{
    if i > 0 && is_word_char_spec(s[i - 1]) {
        lemma_word_start_bounds(s, i - 1);
    }
}

pub proof fn lemma_word_end_bounds(s: Seq<char>, i: int)
    requires
        0 <= i <= s.len(),
    ensures
        i <= word_end(s, i) <= s.len(),
    decreases s.len() - i,
{
    if i < s.len() && is_word_char_spec(s[i]) {
        lemma_word_end_bounds(s, i + 1);
    }
}

/// The word under the cursor: the column is clamped to the last character,
/// then extended over word characters in both directions.
pub open spec fn word_at_spec(s: Seq<char>, column: int) -> Option<Seq<char>> {
    if s.len() == 0 {
        None
    } else {
        let c = if column < s.len() - 1 {
            column
        } else {
            s.len() - 1
        };
        let st = word_start(s, c);
        let en = word_end(s, c);
        if st == en {
            None
        } else {
            Some(s.subrange(st, en))
        }
    }
}

pub fn word_at(line: &str, column: usize) -> (r: Option<String>)
    ensures
        match r {
            Some(w) => word_at_spec(line@, column as int) == Some(w@),
            None => word_at_spec(line@, column as int) is None,
        },
{
    let v = chars_vec(line);
    if v.len() == 0 {
        return None;
    }
    let c: usize = if column < v.len() - 1 {
        column
    } else {
        v.len() - 1
    };
    let mut st: usize = c;
    while st > 0 && is_word_char(v[st - 1])
        invariant
            0 <= st <= c < v@.len(),
            word_start(v@, c as int) == word_start(v@, st as int),
        decreases st,
    {
        st = st - 1;
    }
    let mut en: usize = c;
    while en < v.len() && is_word_char(v[en])
        invariant
            c <= en <= v@.len(),
            word_end(v@, c as int) == word_end(v@, en as int),
        decreases v@.len() - en,
    {
        en = en + 1;
    }
    proof {
        lemma_word_start_bounds(v@, st as int);
        lemma_word_end_bounds(v@, en as int);
    }
    if st == en {
        None
    } else {
        Some(string_range(&v, st, en))
    }
}

/// The value part of a frontmatter line when the cursor sits past the
/// delimiter: after the colon of `field: value`, or after the dash of a
/// `- value` list item. Empty values give nothing.
pub open spec fn value_from_line_spec(l: Seq<char>, column: int) -> Option<Seq<char>> {
    let t = ws_run_end(l, 0);
    let j = find_from(l, t, ':');
    if j < l.len() {
        if column > j {
            let value = trim_spec(l.subrange(j + 1, l.len() as int));
            if value.len() > 0 {
                Some(value)
            } else {
                None
            }
        } else {
            None
        }
    } else if t < l.len() && l[t] == '-' {
        if column > t {
            let value = trim_spec(l.subrange(t + 1, l.len() as int));
            if value.len() > 0 {
                Some(value)
            } else {
                None
            }
        } else {
            None
        }
    } else {
        None
    }
}

/// Whether a line carries the key `field`: its trimmed text starts with
/// `field`, and the first character after it (whitespace skipped) is a colon.
pub open spec fn line_matches_field(l: Seq<char>, field: Seq<char>) -> bool {
    let t = ws_run_end(l, 0);
    &&& starts_with(l.subrange(t, l.len() as int), field)
    &&& {
        let a = ws_run_end(l, t + field.len());
        a < l.len() && l[a] == ':'
    }
}

/// First line in `[i, last]` that carries the key `field`, or `-1`.
pub open spec fn field_line_from(ls: Seq<Seq<char>>, field: Seq<char>, i: int, last: int) -> int
    decreases last + 1 - i,
{
    if i < 0 || i > last || i >= ls.len() {
        -1
    } else if line_matches_field(ls[i], field) {
        i
    } else {
        field_line_from(ls, field, i + 1, last)
    }
}

pub proof fn lemma_field_line_from_bounds(ls: Seq<Seq<char>>, field: Seq<char>, i: int, last: int)
    requires
        0 <= i,
    ensures
        field_line_from(ls, field, i, last) == -1 || (i <= field_line_from(ls, field, i, last)
            && field_line_from(ls, field, i, last) <= last && field_line_from(ls, field, i, last)
            < ls.len()),
    decreases last + 1 - i,
{
    if 0 <= i && i <= last && i < ls.len() && !line_matches_field(ls[i], field) {
        lemma_field_line_from_bounds(ls, field, i + 1, last);
    }
}

/// The span of the field key `field` inside the frontmatter of `s`, or the
/// empty span at `fallback` when the key is absent (line, column pairs).
pub open spec fn find_field_range_spec(s: Seq<char>, field: Seq<char>, fallback: int) -> (
    (int, int),
    (int, int),
) {
    let ls = lines_spec(s);
    match fm_bounds_spec(ls) {
        Some((a, b)) => {
            let k = field_line_from(ls, field, a, b);
            if k >= 0 {
                let t = ws_run_end(ls[k], 0);
                ((k, t), (k, t + field.len()))
            } else {
                ((fallback, 0), (fallback, 0))
            }
        },
        None => ((fallback, 0), (fallback, 0)),
    }
}

/// Locate the key span of `field` in the frontmatter, per
/// `find_field_range_spec`.
pub fn find_field_range(text: &str, field: &str, fallback_line: usize) -> (r: (Position, Position))
    ensures
        find_field_range_spec(text@, field@, fallback_line as int) == ((
            r.0.line as int,
            r.0.character as int,
        ), (r.1.line as int, r.1.character as int)),
{
    let ghost lsv = lines_spec(text@);
    let fallback = (
        Position { line: fallback_line, character: 0 },
        Position { line: fallback_line, character: 0 },
    );
    let bounds = frontmatter_bounds(text);
    match bounds {
        None => fallback,
        Some((a, b)) => {
            let v = chars_vec(text);
            let ls = split_lines(&v);
            proof {
                assert(ls@.map_values(|l: Vec<char>| l@) == lsv);
            }
            let mut i: usize = a;
            loop
                invariant
                    a <= i,
                    i <= b + 1,
                    b < ls@.len(),
                    ls@.len() <= usize::MAX,
                    lsv == ls@.map_values(|l: Vec<char>| l@),
                    forall|k: int| 0 <= k < ls@.len() ==> #[trigger] ls@[k]@ == lsv[k],
                    field_line_from(lsv, field@, a as int, b as int) == field_line_from(
                        lsv,
                        field@,
                        i as int,
                        b as int,
                    ),
                ensures
                    field_line_from(lsv, field@, a as int, b as int) == field_line_from(
                        lsv,
                        field@,
                        i as int,
                        b as int,
                    ),
                    i <= b ==> line_matches_field(lsv[i as int], field@) && field_line_from(
                        lsv,
                        field@,
                        i as int,
                        b as int,
                    ) == i,
                    i > b ==> field_line_from(lsv, field@, i as int, b as int) == -1,
                decreases b + 1 - i,
            {
                if i > b {
                    break ;
                }
                let line = &ls[i];
                let t = ws_skip_from(line, 0);
                let matches = if range_starts_with_str(line, t, line.len(), field) {
                    let flen = field.unicode_len();
                    if t + flen <= line.len() {
                        let a2 = ws_skip_from(line, t + flen);
                        a2 < line.len() && line[a2] == ':'
                    } else {
                        false
                    }
                } else {
                    false
                };
                proof {
                    let l = lsv[i as int];
                    assert(matches == line_matches_field(l, field@)) by {
                        if starts_with(l.subrange(ws_run_end(l, 0), l.len() as int), field@) {
                            lemma_ws_run_end_bounds(l, 0);
                        }
                    }
                }
                if matches {
                    break ;
                }
                i = i + 1;
            }
            if i <= b {
                let line = &ls[i];
                let t = ws_skip_from(line, 0);
                let flen = field.unicode_len();
                proof {
                    lemma_ws_run_end_bounds(lsv[i as int], 0);
                    assert(starts_with(
                        lsv[i as int].subrange(t as int, lsv[i as int].len() as int),
                        field@,
                    ));
                }
                (
                    Position { line: i, character: t },
                    Position { line: i, character: t + flen },
                )
            } else {
                proof {
                    assert(field_line_from(lsv, field@, a as int, b as int) == -1);
                }
                fallback
            }
        },
    }
}

pub fn value_from_frontmatter_line(line: &str, column: usize) -> (r: Option<String>)
    ensures
        match r {
            Some(s) => value_from_line_spec(line@, column as int) == Some(s@),
            None => value_from_line_spec(line@, column as int) is None,
        },
{
    let v = chars_vec(line);
    let t = ws_skip_from(&v, 0);
    let j = find_char_from(&v, t, ':');
    if j < v.len() {
        if column > j {
            let value = trim_range_string(&v, j + 1, v.len());
            if value.unicode_len() > 0 {
                return Some(value);
            }
        }
        return None;
    }
    if t < v.len() && v[t] == '-' {
        if column > t {
            let value = trim_range_string(&v, t + 1, v.len());
            if value.unicode_len() > 0 {
                return Some(value);
            }
        }
        return None;
    }
    None
}

/// Which kind of link a completion is for.
#[derive(Clone, Copy, Debug, PartialEq, Eq, Structural)]
pub enum LinkCompletionKind {
    Wikilink,
    Markdown,
}

/// Where an unclosed link starts and what has been typed of its target.
#[derive(Clone, Debug)]
pub struct LinkCompletionContext {
    pub kind: LinkCompletionKind,
    pub prefix: String,
    pub start_col: usize,
}

/// The unclosed-link context before `column`: the last `[[` opener wins when
/// it is still open and free of `#`/`|`; otherwise the last `](` opener, when
/// still open, free of `#`, and not an external URL.
pub open spec fn link_ctx_spec(l: Seq<char>, column: int) -> Option<(
    LinkCompletionKind,
    Seq<char>,
    int,
)> {
    let cut = if column < l.len() {
        column
    } else {
        l.len() as int
    };
    let before = l.subrange(0, cut);
    let w = crate::chartext::rfind2_below(before, before.len() - 2, '[', '[');
    if w >= 0 && !crate::chartext::contains2_from(before, w + 2, ']', ']') {
        let after = before.subrange(w + 2, before.len() as int);
        if find_from(after, 0, '#') < after.len() || find_from(after, 0, '|') < after.len() {
            None
        } else {
            Some((LinkCompletionKind::Wikilink, after, w + 2))
        }
    } else {
        let m = crate::chartext::rfind2_below(before, before.len() - 2, ']', '(');
        if m >= 0 {
            let after = before.subrange(m + 2, before.len() as int);
            if find_from(after, 0, ')') < after.len() || find_from(after, 0, '#') < after.len() {
                None
            } else if starts_with(crate::chartext::trim_start_spec(after), "http://"@)
                || starts_with(crate::chartext::trim_start_spec(after), "https://"@) {
                None
            } else {
                Some((LinkCompletionKind::Markdown, after, m + 2))
            }
        } else {
            None
        }
    }
}

/// Detect an unclosed link before the cursor, per `link_ctx_spec`.
pub fn link_completion_context(line: &str, column: usize) -> (r: Option<LinkCompletionContext>)
    ensures
        match r {
            Some(ctx) => link_ctx_spec(line@, column as int) == Some(
                (ctx.kind, ctx.prefix@, ctx.start_col as int),
            ),
            None => link_ctx_spec(line@, column as int) is None,
        },
{
    let v = chars_vec(line);
    let cut: usize = if column < v.len() {
        column
    } else {
        v.len()
    };
    let before = vec_range(&v, 0, cut);
    let w = crate::chartext::rfind2_char(&before, '[', '[');
    let mut wiki_open = false;
    let mut wpos: usize = 0;
    match w {
        Some(k) => {
            let close = crate::chartext::find2_char_from(&before, k + 2, ']', ']');
            if close >= before.len() {
                wiki_open = true;
                wpos = k;
            }
        },
        None => {},
    }
    if wiki_open {
        let hash = find_char_from(&before, wpos + 2, '#');
        let pipe = find_char_from(&before, wpos + 2, '|');
        proof {
            let after = before@.subrange(wpos + 2, before@.len() as int);
            crate::chartext::lemma_shift_find(before@, wpos + 2, '#');
            crate::chartext::lemma_shift_find(before@, wpos + 2, '|');
        }
        if hash < before.len() || pipe < before.len() {
            return None;
        }
        let prefix = string_range(&before, wpos + 2, before.len());
        return Some(
            LinkCompletionContext {
                kind: LinkCompletionKind::Wikilink,
                prefix,
                start_col: wpos + 2,
            },
        );
    }
    let m = crate::chartext::rfind2_char(&before, ']', '(');
    match m {
        Some(k) => {
            let paren = find_char_from(&before, k + 2, ')');
            let hash = find_char_from(&before, k + 2, '#');
            proof {
                crate::chartext::lemma_shift_find(before@, k + 2, ')');
                crate::chartext::lemma_shift_find(before@, k + 2, '#');
            }
            if paren < before.len() || hash < before.len() {
                return None;
            }
            let a2 = ws_skip_from(&before, k + 2);
            proof {
                crate::chartext::lemma_shift_ws_run(before@, k + 2);
            }
            if range_starts_with_str(&before, a2, before.len(), "http://") || range_starts_with_str(
                &before,
                a2,
                before.len(),
                "https://",
            ) {
                return None;
            }
            let prefix = string_range(&before, k + 2, before.len());
            Some(
                LinkCompletionContext {
                    kind: LinkCompletionKind::Markdown,
                    prefix,
                    start_col: k + 2,
                },
            )
        },
        None => None,
    }
}

/// A link found under the cursor; columns are character indices.
#[derive(Clone, Debug)]
pub struct LinkAtCursor {
    pub target: String,
    pub start_col: usize,
    pub end_col: usize,
}

/// The link whose span covers `column`, scanning from `i`: wikilinks and
/// markdown links, embeds and images included; external URLs and empty
/// targets give nothing.
pub open spec fn link_at_spec(c: Seq<char>, i: int, column: int) -> Option<(Seq<char>, int, int)>
    decreases c.len() - i,
    via link_at_spec_decreases
{
    if i < 0 || i >= c.len() {
        None
    } else if i + 1 < c.len() && c[i] == '[' && c[i + 1] == '[' {
        let start = if i > 0 && c[i - 1] == '!' {
            i - 1
        } else {
            i
        };
        let close = crate::chartext::find2_from(c, i + 2, ']', ']');
        if close >= c.len() {
            None
        } else {
            let end = close + 2;
            let content = c.subrange(i + 2, close);
            let p = find_from(content, 0, '|');
            let t1 = content.subrange(0, p);
            let h = find_from(t1, 0, '#');
            let target = trim_spec(t1.subrange(0, h));
            if start <= column < end && target.len() > 0 {
                Some((target, start, end))
            } else {
                link_at_spec(c, end, column)
            }
        }
    } else if c[i] == '[' {
        let start = if i > 0 && c[i - 1] == '!' {
            i - 1
        } else {
            i
        };
        let be = crate::body_links::bracket_end(c, i + 1, 1);
        if be < c.len() && c[be] == '(' {
            let pe = crate::body_links::paren_end(c, be + 1, 1);
            if pe < be + 2 {
                link_at_spec(c, pe, column)
            } else {
                let path = trim_spec(c.subrange(be + 1, pe - 1));
                let target = path.subrange(0, find_from(path, 0, '#'));
                if start <= column < pe && path.len() > 0 && !starts_with(path, "http://"@)
                    && !starts_with(path, "https://"@) && target.len() > 0 {
                    Some((target, start, pe))
                } else {
                    link_at_spec(c, pe, column)
                }
            }
        } else {
            link_at_spec(c, be, column)
        }
    } else {
        link_at_spec(c, i + 1, column)
    }
}

#[via_fn]
proof fn link_at_spec_decreases(c: Seq<char>, i: int, column: int) {
    if 0 <= i && i < c.len() {
        if i + 1 < c.len() && c[i] == '[' && c[i + 1] == '[' {
            crate::chartext::lemma_find2_from_bounds(c, i + 2, ']', ']');
        } else if c[i] == '[' {
            crate::body_links::lemma_bracket_end_bounds(c, i + 1, 1);
            let be = crate::body_links::bracket_end(c, i + 1, 1);
            if be < c.len() && c[be] == '(' {
                crate::body_links::lemma_paren_end_bounds(c, be + 1, 1);
            }
        }
    }
}

/// The link at a cursor position, per `link_at_spec` on that line.
pub open spec fn link_at_position_spec(s: Seq<char>, line_idx: int, column: int) -> Option<(
    Seq<char>,
    int,
    int,
)> {
    let ls = lines_spec(s);
    if 0 <= line_idx < ls.len() {
        link_at_spec(ls[line_idx], 0, column)
    } else {
        None
    }
}

/// Scan one line of `text` for a link spanning `column`, per
/// `link_at_position_spec`.
pub fn link_at_position(text: &str, line_idx: usize, column: usize) -> (r: Option<LinkAtCursor>)
    requires
        text@.len() < usize::MAX / 2,
    ensures
        match r {
            Some(l) => link_at_position_spec(text@, line_idx as int, column as int) == Some(
                (l.target@, l.start_col as int, l.end_col as int),
            ),
            None => link_at_position_spec(text@, line_idx as int, column as int) is None,
        },
{
    let v = chars_vec(text);
    let ls = split_lines(&v);
    let ghost lsv = lines_spec(text@);
    proof {
        assert(ls@.map_values(|l: Vec<char>| l@) == lsv);
        crate::body_links::lemma_lines_len(text@, 0);
    }
    if line_idx >= ls.len() {
        return None;
    }
    proof {
        assert(ls@.map_values(|l: Vec<char>| l@)[line_idx as int] == ls@[line_idx as int]@);
    }
    let line = &ls[line_idx];
    let ghost c = line@;
    let mut i: usize = 0;
    loop
        invariant
            0 <= i <= c.len(),
            c == line@,
            c == lsv[line_idx as int],
            c.len() < usize::MAX / 2,
            (line_idx as int) < lsv.len(),
            lsv == lines_spec(text@),
            link_at_spec(c, 0, column as int) == link_at_spec(c, i as int, column as int),
        ensures
            link_at_spec(c, 0, column as int) == link_at_spec(c, i as int, column as int),
            i >= c.len() || ({
                let res = link_at_spec(c, i as int, column as int);
                res is None
            }),
        decreases c.len() - i,
    {
        let ghost i0 = i as int;
        if i >= line.len() {
            break ;
        }
        if i + 1 < line.len() && line[i] == '[' && line[i + 1] == '[' {
            let start: usize = if i > 0 && line[i - 1] == '!' {
                i - 1
            } else {
                i
            };
            let close = find2_char_from(line, i + 2, ']', ']');
            if close >= line.len() {
                proof {
                    assert(link_at_spec(c, i0, column as int) is None);
                }
                return None;
            }
            let end = close + 2;
            if start <= column && column < end {
                let content = vec_range(line, i + 2, close);
                let p = find_char_from(&content, 0, '|');
                let t1 = vec_range(&content, 0, p);
                let h = find_char_from(&t1, 0, '#');
                let target = trim_range_string(&t1, 0, h);
                if target.unicode_len() > 0 {
                    proof {
                        assert(link_at_spec(c, i0, column as int) == Some(
                            (target@, start as int, end as int),
                        ));
                    }
                    return Some(LinkAtCursor { target, start_col: start, end_col: end });
                }
            }
            proof {
                assert(link_at_spec(c, i0, column as int) == link_at_spec(
                    c,
                    close + 2,
                    column as int,
                ));
            }
            i = end;
            continue ;
        }
        if line[i] == '[' {
            let start: usize = if i > 0 && line[i - 1] == '!' {
                i - 1
            } else {
                i
            };
            let be = crate::body_links::bracket_end_exec(line, i + 1);
            if be < line.len() && line[be] == '(' {
                let pe = crate::body_links::paren_end_exec(line, be + 1);
                if pe < be + 2 {
                    proof {
                        assert(link_at_spec(c, i0, column as int) == link_at_spec(
                            c,
                            pe as int,
                            column as int,
                        ));
                    }
                    i = pe;
                    continue ;
                }
                if start <= column && column < pe {
                    let path = trim_range_vec(line, be + 1, pe - 1);
                    proof {
                        assert(path@.subrange(0, path@.len() as int) =~= path@);
                    }
                    if path.len() > 0 && !range_starts_with_str(&path, 0, path.len(), "http://")
                        && !range_starts_with_str(&path, 0, path.len(), "https://") {
                        let h = find_char_from(&path, 0, '#');
                        let target = string_range(&path, 0, h);
                        if target.unicode_len() > 0 {
                            proof {
                                assert(link_at_spec(c, i0, column as int) == Some(
                                    (target@, start as int, pe as int),
                                ));
                            }
                            return Some(LinkAtCursor { target, start_col: start, end_col: pe });
                        }
                    }
                }
                proof {
                    assert(link_at_spec(c, i0, column as int) == link_at_spec(
                        c,
                        pe as int,
                        column as int,
                    ));
                }
                i = pe;
                continue ;
            }
            proof {
                assert(link_at_spec(c, i0, column as int) == link_at_spec(
                    c,
                    be as int,
                    column as int,
                ));
            }
            i = be;
            continue ;
        }
        proof {
            assert(link_at_spec(c, i0, column as int) == link_at_spec(c, i0 + 1, column as int));
        }
        i = i + 1;
    }
    proof {
        assert(link_at_spec(c, i as int, column as int) is None);
    }
    None
}

/// The field that owns the value on a line: the line's own `field:` key, or,
/// for a `-` list item, the key of the nearest less-indented line above.
pub open spec fn direct_field_name(l: Seq<char>) -> Option<Seq<char>> {
    let t = ws_run_end(l, 0);
    let j = find_from(l, t, ':');
    if j < l.len() {
        let name = trim_spec(l.subrange(t, j));
        if name.len() > 0 && name[0] != '-' {
            Some(name)
        } else {
            None
        }
    } else {
        None
    }
}

/// Nearest line above `idx` whose indentation is below `indent`, or `-1`.
pub open spec fn parent_line(ls: Seq<Seq<char>>, idx: int, indent: int) -> int
    decreases idx,
{
    if idx <= 0 || idx > ls.len() {
        -1
    } else if ws_run_end(ls[idx - 1], 0) < indent {
        idx - 1
    } else {
        parent_line(ls, idx - 1, indent)
    }
}

/// The owning field name for the line at `line_idx`, per the walk described
/// on `direct_field_name` and `parent_line`.
pub open spec fn field_name_for_position_spec(s: Seq<char>, line_idx: int) -> Option<Seq<char>> {
    let ls = lines_spec(s);
    if line_idx < 0 || line_idx >= ls.len() {
        None
    } else {
        let l = ls[line_idx];
        match direct_field_name(l) {
            Some(n) => Some(n),
            None => {
                let t = ws_run_end(l, 0);
                if t < l.len() && l[t] == '-' {
                    let k = parent_line(ls, line_idx, t);
                    if k >= 0 {
                        direct_field_name(ls[k])
                    } else {
                        None
                    }
                } else {
                    None
                }
            },
        }
    }
}

/// Compute `direct_field_name` on one line buffer.
fn direct_field_name_exec(line: &Vec<char>) -> (r: Option<String>)
    ensures
        match r {
            Some(n) => direct_field_name(line@) == Some(n@),
            None => direct_field_name(line@) is None,
        },
{
    let t = ws_skip_from(line, 0);
    let j = find_char_from(line, t, ':');
    if j >= line.len() {
        return None;
    }
    let name = trim_range_string(line, t, j);
    if name.unicode_len() > 0 {
        let c = name.get_char(0);
        if c != '-' {
            return Some(name);
        }
    }
    None
}

/// Find the owning field name for a position, per
/// `field_name_for_position_spec`.
pub fn field_name_for_position(text: &str, line_idx: usize) -> (r: Option<String>)
    ensures
        match r {
            Some(n) => field_name_for_position_spec(text@, line_idx as int) == Some(n@),
            None => field_name_for_position_spec(text@, line_idx as int) is None,
        },
{
    let v = chars_vec(text);
    let ls = split_lines(&v);
    let ghost lsv = lines_spec(text@);
    proof {
        assert(ls@.map_values(|l: Vec<char>| l@) == lsv);
    }
    if line_idx >= ls.len() {
        return None;
    }
    proof {
        assert(ls@[line_idx as int]@ == lsv[line_idx as int]);
    }
    let line = &ls[line_idx];
    match direct_field_name_exec(line) {
        Some(n) => Some(n),
        None => {
            let t = ws_skip_from(line, 0);
            if t < line.len() && line[t] == '-' {
                let mut k: usize = line_idx;
                loop
                    invariant
                        0 <= k <= line_idx < ls@.len(),
                        ls@.len() <= usize::MAX,
                        lsv == ls@.map_values(|l: Vec<char>| l@),
                        forall|q: int| 0 <= q < ls@.len() ==> #[trigger] ls@[q]@ == lsv[q],
                        parent_line(lsv, line_idx as int, t as int) == parent_line(
                            lsv,
                            k as int,
                            t as int,
                        ),
                    ensures
                        parent_line(lsv, line_idx as int, t as int) == parent_line(
                            lsv,
                            k as int,
                            t as int,
                        ),
                        k > 0 ==> parent_line(lsv, k as int, t as int) == k - 1 && ws_run_end(
                            lsv[k - 1],
                            0,
                        ) < t,
                        k == 0 ==> parent_line(lsv, k as int, t as int) == -1,
                    decreases k,
                {
                    if k == 0 {
                        break ;
                    }
                    let prev = &ls[k - 1];
                    let pi = ws_skip_from(prev, 0);
                    if pi < t {
                        break ;
                    }
                    k = k - 1;
                }
                if k > 0 {
                    direct_field_name_exec(&ls[k - 1])
                } else {
                    None
                }
            } else {
                None
            }
        },
    }
}

} // verus!
