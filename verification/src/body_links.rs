//! The body-link scanner: wikilinks `[[target#anchor|alias]]` and markdown
//! links `[text](path#anchor)` found line by line, with UTF-16 columns.
//! Inline code spans, fenced code blocks, image embeds and external URLs
//! produce no links.

use vstd::prelude::*;

use crate::chartext::{
    chars_vec, find2_char_from, find2_from, find_char_from, find_from, lemma_find2_from_bounds,
    lemma_find_from_bounds, starts_with, trim_range_string, trim_spec, trim_start_spec,
    utf16_col, utf16_col_exec, vec_range, range_starts_with_str, trim_range_vec,
};
use crate::lines::{lines_from, lines_spec, split_lines};

verus! {

/// The syntactic format of a body link.
#[derive(Debug, Clone, Copy, PartialEq, Eq, Structural)]
pub enum LinkFormat {
    Wikilink,
    Markdown,
}

/// A link found in the document body. Columns are UTF-16 code-unit offsets.
#[derive(Debug, Clone)]
pub struct BodyLink {
    pub target: String,
    pub alias: Option<String>,
    pub anchor: Option<String>,
    pub format: LinkFormat,
    pub start_line: usize,
    pub start_col: usize,
    pub end_line: usize,
    pub end_col: usize,
}

/// The mathematical shape of a body link record.
pub struct BodyLinkModel {
    pub target: Seq<char>,
    pub alias: Option<Seq<char>>,
    pub anchor: Option<Seq<char>>,
    pub format: LinkFormat,
    pub start_line: int,
    pub start_col: int,
    pub end_line: int,
    pub end_col: int,
}

impl View for BodyLink {
    type V = BodyLinkModel;

    open spec fn view(&self) -> BodyLinkModel {
        BodyLinkModel {
            target: self.target@,
            alias: match self.alias {
                Some(a) => Some(a@),
                None => None,
            },
            anchor: match self.anchor {
                Some(a) => Some(a@),
                None => None,
            },
            format: self.format,
            start_line: self.start_line as int,
            start_col: self.start_col as int,
            end_line: self.end_line as int,
            end_col: self.end_col as int,
        }
    }
}

/// Split a target string at the first `#` into trimmed target and anchor;
/// an empty anchor is dropped.
pub open spec fn split_anchor_spec(s: Seq<char>) -> (Seq<char>, Option<Seq<char>>) {
    let h = find_from(s, 0, '#');
    if h < s.len() {
        let target = trim_spec(s.subrange(0, h));
        let anchor = trim_spec(s.subrange(h + 1, s.len() as int));
        (
            target,
            if anchor.len() == 0 {
                None
            } else {
                Some(anchor)
            },
        )
    } else {
        (trim_spec(s), None)
    }
}

/// Split a target string at `#`, per `split_anchor_spec`.
pub fn split_anchor(v: &Vec<char>) -> (r: (String, Option<String>))
    ensures
        split_anchor_spec(v@).0 == r.0@,
        match r.1 {
            Some(a) => split_anchor_spec(v@).1 == Some(a@),
            None => split_anchor_spec(v@).1 is None,
        },
{
    proof {
        assert(v@.subrange(0, v@.len() as int) =~= v@);
    }
    let h = find_char_from(v, 0, '#');
    if h < v.len() {
        let target = trim_range_string(v, 0, h);
        let anchor = trim_range_string(v, h + 1, v.len());
        if anchor.unicode_len() == 0 {
            (target, None)
        } else {
            (target, Some(anchor))
        }
    } else {
        (trim_range_string(v, 0, v.len()), None)
    }
}

/// Wikilink content split into (target, alias, anchor): the alias follows
/// the first `|`, the anchor follows the first `#` of the target part.
pub open spec fn wiki_parts(content: Seq<char>) -> (Seq<char>, Option<Seq<char>>, Option<
    Seq<char>,
>) {
    let p = find_from(content, 0, '|');
    if p < content.len() {
        let alias = trim_spec(content.subrange(p + 1, content.len() as int));
        let tpart = trim_spec(content.subrange(0, p));
        let ta = split_anchor_spec(tpart);
        (ta.0, Some(alias), ta.1)
    } else {
        let ta = split_anchor_spec(trim_spec(content));
        (ta.0, None, ta.1)
    }
}

/// Position after the bracket run entered with nesting `depth`.
pub open spec fn bracket_end(c: Seq<char>, i: int, depth: int) -> int
    decreases c.len() - i,
{
    if i < 0 || i >= c.len() || depth <= 0 {
        i
    } else {
        let d2 = if c[i] == '[' {
            depth + 1
        } else if c[i] == ']' {
            depth - 1
        } else {
            depth
        };
        bracket_end(c, i + 1, d2)
    }
}

pub proof fn lemma_bracket_end_bounds(c: Seq<char>, i: int, depth: int)
    requires
        0 <= i <= c.len(),
    ensures
        i <= bracket_end(c, i, depth) <= c.len(),
    decreases c.len() - i,
{
    if i < c.len() && depth > 0 {
        let d2 = if c[i] == '[' {
            depth + 1
        } else if c[i] == ']' {
            depth - 1
        } else {
            depth
        };
        lemma_bracket_end_bounds(c, i + 1, d2);
    }
}

/// Position after the parenthesis run entered with nesting `depth`.
pub open spec fn paren_end(c: Seq<char>, i: int, depth: int) -> int
    decreases c.len() - i,
{
    if i < 0 || i >= c.len() || depth <= 0 {
        i
    } else {
        let d2 = if c[i] == '(' {
            depth + 1
        } else if c[i] == ')' {
            depth - 1
        } else {
            depth
        };
        paren_end(c, i + 1, d2)
    }
}

pub proof fn lemma_paren_end_bounds(c: Seq<char>, i: int, depth: int)
    requires
        0 <= i <= c.len(),
    ensures
        i <= paren_end(c, i, depth) <= c.len(),
    decreases c.len() - i,
{
    if i < c.len() && depth > 0 {
        let d2 = if c[i] == '(' {
            depth + 1
        } else if c[i] == ')' {
            depth - 1
        } else {
            depth
        };
        lemma_paren_end_bounds(c, i + 1, d2);
    }
}

/// Consume brackets as `bracket_end` describes, starting with one open `[`.
pub fn bracket_end_exec(v: &Vec<char>, from: usize) -> (r: usize)
    requires
        0 <= from <= v@.len(),
        v@.len() < usize::MAX / 2,
    ensures
        r == bracket_end(v@, from as int, 1),
        from <= r <= v@.len(),
{
    let mut i: usize = from;
    let mut depth: usize = 1;
    while i < v.len() && depth > 0
        invariant
            from <= i <= v@.len(),
            v@.len() < usize::MAX / 2,
            bracket_end(v@, from as int, 1) == bracket_end(v@, i as int, depth as int),
            depth <= 1 + i - from,
        decreases v@.len() - i,
    {
        if v[i] == '[' {
            depth = depth + 1;
        }
        if v[i] == ']' {
            depth = depth - 1;
        }
        i = i + 1;
    }
    proof {
        lemma_bracket_end_bounds(v@, i as int, depth as int);
    }
    i
}

/// Consume parentheses as `paren_end` describes, starting with one open `(`.
pub fn paren_end_exec(v: &Vec<char>, from: usize) -> (r: usize)
    requires
        0 <= from <= v@.len(),
        v@.len() < usize::MAX / 2,
    ensures
        r == paren_end(v@, from as int, 1),
        from <= r <= v@.len(),
{
    let mut i: usize = from;
    let mut depth: usize = 1;
    while i < v.len() && depth > 0
        invariant
            from <= i <= v@.len(),
            v@.len() < usize::MAX / 2,
            paren_end(v@, from as int, 1) == paren_end(v@, i as int, depth as int),
            depth <= 1 + i - from,
        decreases v@.len() - i,
    {
        if v[i] == '(' {
            depth = depth + 1;
        }
        if v[i] == ')' {
            depth = depth - 1;
        }
        i = i + 1;
    }
    proof {
        lemma_paren_end_bounds(v@, i as int, depth as int);
    }
    i
}

/// The wikilink record for `[[` at `i` closed by `]]` at `close`.
pub open spec fn wiki_record(c: Seq<char>, i: int, close: int, line_idx: int) -> BodyLinkModel {
    let content = c.subrange(i + 2, close);
    let parts = wiki_parts(content);
    BodyLinkModel {
        target: parts.0,
        alias: parts.1,
        anchor: parts.2,
        format: LinkFormat::Wikilink,
        start_line: line_idx,
        start_col: utf16_col(c, i),
        end_line: line_idx,
        end_col: utf16_col(c, close + 2),
    }
}

/// The markdown record for `[` at `i`, `](` ending at `be`, `)` run ending
/// at `pe`, along with whether the scanner drops it (empty or external path,
/// or an empty target).
pub open spec fn md_record(c: Seq<char>, i: int, be: int, pe: int, line_idx: int) -> (
    BodyLinkModel,
    bool,
) {
    let path = trim_spec(c.subrange(be + 1, pe - 1));
    let ta = split_anchor_spec(path);
    let alias = if i + 1 < be - 1 && be - 1 <= c.len() {
        let a = trim_spec(c.subrange(i + 1, be - 1));
        if a.len() == 0 {
            Option::<Seq<char>>::None
        } else {
            Some(a)
        }
    } else {
        None
    };
    let skip = path.len() == 0 || starts_with(path, "http://"@) || starts_with(path, "https://"@)
        || ta.0.len() == 0;
    (
        BodyLinkModel {
            target: ta.0,
            alias: alias,
            anchor: ta.1,
            format: LinkFormat::Markdown,
            start_line: line_idx,
            start_col: utf16_col(c, i),
            end_line: line_idx,
            end_col: utf16_col(c, pe),
        },
        skip,
    )
}

/// Links produced by scanning one line from index `i`.
pub open spec fn scan_links(c: Seq<char>, i: int, line_idx: int) -> Seq<BodyLinkModel>
    decreases c.len() - i,
    via scan_links_decreases
{
    if i < 0 || i >= c.len() {
        Seq::empty()
    } else if c[i] == '`' {
        let j = find_from(c, i + 1, '`');
        if j < c.len() {
            scan_links(c, j + 1, line_idx)
        } else {
            Seq::empty()
        }
    } else if i + 1 < c.len() && c[i] == '[' && c[i + 1] == '[' {
        let is_embed = i > 0 && c[i - 1] == '!';
        let close = find2_from(c, i + 2, ']', ']');
        if close >= c.len() {
            Seq::empty()
        } else {
            let rest = scan_links(c, close + 2, line_idx);
            if is_embed || close == i + 2 {
                rest
            } else {
                let rec = wiki_record(c, i, close, line_idx);
                if rec.target.len() > 0 {
                    seq![rec] + rest
                } else {
                    rest
                }
            }
        }
    } else if c[i] == '[' {
        let be = bracket_end(c, i + 1, 1);
        if be < c.len() && c[be] == '(' {
            let pe = paren_end(c, be + 1, 1);
            let rest = scan_links(c, pe, line_idx);
            let is_image = i > 0 && c[i - 1] == '!';
            if is_image || pe < be + 2 {
                rest
            } else {
                let rp = md_record(c, i, be, pe, line_idx);
                if rp.1 {
                    rest
                } else {
                    seq![rp.0] + rest
                }
            }
        } else {
            scan_links(c, be, line_idx)
        }
    } else {
        scan_links(c, i + 1, line_idx)
    }
}

#[via_fn]
proof fn scan_links_decreases(c: Seq<char>, i: int, line_idx: int) {
    if 0 <= i && i < c.len() {
        if c[i] == '`' {
            lemma_find_from_bounds(c, i + 1, '`');
        } else if i + 1 < c.len() && c[i] == '[' && c[i + 1] == '[' {
            lemma_find2_from_bounds(c, i + 2, ']', ']');
        } else if c[i] == '[' {
            lemma_bracket_end_bounds(c, i + 1, 1);
            let be = bracket_end(c, i + 1, 1);
            if be < c.len() && c[be] == '(' {
                lemma_paren_end_bounds(c, be + 1, 1);
            }
        }
    }
}

/// Whether the line opens or closes a fenced code block.
pub open spec fn is_fence_line(l: Seq<char>) -> bool {
    starts_with(trim_start_spec(l), "```"@) || starts_with(trim_start_spec(l), "~~~"@)
}

/// Links of all lines from `i` on, given the fence state.
pub open spec fn scan_lines(ls: Seq<Seq<char>>, i: int, fenced: bool) -> Seq<BodyLinkModel>
    decreases ls.len() - i,
{
    if i < 0 || i >= ls.len() {
        Seq::empty()
    } else if is_fence_line(ls[i]) {
        scan_lines(ls, i + 1, !fenced)
    } else if fenced {
        scan_lines(ls, i + 1, fenced)
    } else {
        scan_links(ls[i], 0, i) + scan_lines(ls, i + 1, fenced)
    }
}

/// All body links of a document.
pub open spec fn find_body_links_spec(s: Seq<char>) -> Seq<BodyLinkModel> {
    scan_lines(lines_spec(s), 0, false)
}

/// The views of a vector of body links.
pub open spec fn links_view(v: Seq<BodyLink>) -> Seq<BodyLinkModel> {
    v.map_values(|b: BodyLink| b@)
}

/// Scan one line and append every link found to `out`, per `scan_links`.
pub fn parse_line_links(line: &Vec<char>, line_idx: usize, out: &mut Vec<BodyLink>)
    requires
        line@.len() < usize::MAX / 2,
    ensures
        links_view(final(out)@) == links_view(old(out)@) + scan_links(line@, 0, line_idx as int),
{
    let ghost c = line@;
    let ghost li = line_idx as int;
    let ghost total = scan_links(c, 0, li);
    let ghost base = links_view(old(out)@);
    let mut i: usize = 0;
    while i < line.len()
        invariant
            0 <= i <= c.len(),
            c == line@,
            c.len() < usize::MAX / 2,
            li == line_idx as int,
            base == links_view(old(out)@),
            total == scan_links(c, 0, li),
            base + total == links_view(out@) + scan_links(c, i as int, li),
        decreases c.len() - i,
    {
        let ghost i0 = i as int;
        if line[i] == '`' {
            let j = find_char_from(line, i + 1, '`');
            if j < line.len() {
                proof {
                    assert(scan_links(c, i0, li) == scan_links(c, j + 1, li));
                }
                i = j + 1;
            } else {
                proof {
                    assert(scan_links(c, i0, li) =~= Seq::<BodyLinkModel>::empty());
                    assert(scan_links(c, c.len() as int, li) =~= Seq::<BodyLinkModel>::empty());
                }
                i = line.len();
            }
            continue ;
        }
        if i + 1 < line.len() && line[i] == '[' && line[i + 1] == '[' {
            let is_embed = i > 0 && line[i - 1] == '!';
            let close = find2_char_from(line, i + 2, ']', ']');
            if close >= line.len() {
                proof {
                    assert(scan_links(c, i0, li) =~= Seq::<BodyLinkModel>::empty());
                    assert(scan_links(c, c.len() as int, li) =~= Seq::<BodyLinkModel>::empty());
                }
                i = line.len();
                continue ;
            }
            if is_embed || close == i + 2 {
                proof {
                    assert(scan_links(c, i0, li) == scan_links(c, close + 2, li));
                }
                i = close + 2;
                continue ;
            }
            let content = vec_range(line, i + 2, close);
            let p = find_char_from(&content, 0, '|');
            let target_part: Vec<char>;
            let alias: Option<String>;
            if p < content.len() {
                let a = trim_range_string(&content, p + 1, content.len());
                target_part = trim_range_vec(&content, 0, p);
                alias = Some(a);
            } else {
                target_part = trim_range_vec(&content, 0, content.len());
                alias = None;
            }
            proof {
                assert(content@.subrange(0, content@.len() as int) =~= content@);
            }
            let (target, anchor) = split_anchor(&target_part);
            let ghost rec = wiki_record(c, i0, close as int, li);
            if target.unicode_len() > 0 {
                let start_col = utf16_col_exec(line, i);
                let end_col = utf16_col_exec(line, close + 2);
                let link = BodyLink {
                    target,
                    alias,
                    anchor,
                    format: LinkFormat::Wikilink,
                    start_line: line_idx,
                    start_col,
                    end_line: line_idx,
                    end_col,
                };
                proof {
                    assert(link@ == rec);
                }
                let ghost prev = out@;
                out.push(link);
                proof {
                    assert(links_view(out@) =~= links_view(prev).push(link@));
                    assert(scan_links(c, i0, li) == seq![rec] + scan_links(c, close + 2, li));
                    assert(links_view(prev) + scan_links(c, i0, li) =~= links_view(out@)
                        + scan_links(c, close + 2, li));
                }
            } else {
                proof {
                    assert(scan_links(c, i0, li) == scan_links(c, close + 2, li));
                }
            }
            i = close + 2;
            continue ;
        }
        if line[i] == '[' {
            let is_image = i > 0 && line[i - 1] == '!';
            let be = bracket_end_exec(line, i + 1);
            if be < line.len() && line[be] == '(' {
                let pe = paren_end_exec(line, be + 1);
                if is_image || pe < be + 2 {
                    proof {
                        assert(scan_links(c, i0, li) == scan_links(c, pe as int, li));
                    }
                    i = pe;
                    continue ;
                }
                let path = trim_range_vec(line, be + 1, pe - 1);
                let ghost rp = md_record(c, i0, be as int, pe as int, li);
                let mut skip = false;
                proof {
                    assert(path@.subrange(0, path@.len() as int) =~= path@);
                }
                if path.len() == 0 {
                    skip = true;
                } else if range_starts_with_str(&path, 0, path.len(), "http://") {
                    skip = true;
                } else if range_starts_with_str(&path, 0, path.len(), "https://") {
                    skip = true;
                }
                if !skip {
                    let (target, anchor) = split_anchor(&path);
                    if target.unicode_len() == 0 {
                        proof {
                            assert(rp.1);
                            assert(scan_links(c, i0, li) == scan_links(c, pe as int, li));
                        }
                    } else {
                        let alias: Option<String> = if i + 1 < be - 1 && be - 1 <= line.len() {
                            let a = trim_range_string(line, i + 1, be - 1);
                            if a.unicode_len() == 0 {
                                None
                            } else {
                                Some(a)
                            }
                        } else {
                            None
                        };
                        let start_col = utf16_col_exec(line, i);
                        let end_col = utf16_col_exec(line, pe);
                        let link = BodyLink {
                            target,
                            alias,
                            anchor,
                            format: LinkFormat::Markdown,
                            start_line: line_idx,
                            start_col,
                            end_line: line_idx,
                            end_col,
                        };
                        proof {
                            assert(!rp.1);
                            assert(link@ == rp.0);
                        }
                        let ghost prev = out@;
                        out.push(link);
                        proof {
                            assert(links_view(out@) =~= links_view(prev).push(link@));
                            assert(scan_links(c, i0, li) == seq![rp.0] + scan_links(
                                c,
                                pe as int,
                                li,
                            ));
                            assert(links_view(prev) + scan_links(c, i0, li) =~= links_view(out@)
                                + scan_links(c, pe as int, li));
                        }
                    }
                } else {
                    proof {
                        assert(rp.1);
                        assert(scan_links(c, i0, li) == scan_links(c, pe as int, li));
                    }
                }
                i = pe;
                continue ;
            }
            proof {
                assert(scan_links(c, i0, li) == scan_links(c, be as int, li));
            }
            i = be;
            continue ;
        }
        proof {
            assert(scan_links(c, i0, li) == scan_links(c, i0 + 1, li));
        }
        i = i + 1;
    }
    proof {
        assert(scan_links(c, i as int, li) =~= Seq::<BodyLinkModel>::empty());
        assert(base + total =~= links_view(out@));
    }
}

/// Each line is at most as long as the text it came from.
pub proof fn lemma_lines_len(s: Seq<char>, i: int)
    requires
        0 <= i <= s.len(),
    ensures
        forall|k: int|
            0 <= k < lines_from(s, i).len() ==> #[trigger] lines_from(s, i)[k].len() <= s.len(),
    decreases s.len() - i,
{
    if i < s.len() {
        let j = find_from(s, i, '\n');
        lemma_find_from_bounds(s, i, '\n');
        if j < s.len() {
            lemma_lines_len(s, j + 1);
            assert forall|k: int|
                0 <= k < lines_from(s, i).len() implies #[trigger] lines_from(s, i)[k].len()
                <= s.len() by {
                if k > 0 {
                    assert(lines_from(s, i)[k] == lines_from(s, j + 1)[k - 1]);
                }
            }
        }
    }
}

/// Decide whether a line opens or closes a fence.
pub fn is_fence_line_exec(l: &Vec<char>) -> (r: bool)
    ensures
        r == is_fence_line(l@),
{
    let t = crate::chartext::trim_start_index(l);
    proof {
        assert(l@.subrange(t as int, l@.len() as int) == trim_start_spec(l@));
    }
    range_starts_with_str(l, t, l.len(), "```") || range_starts_with_str(l, t, l.len(), "~~~")
}

/// Scan the whole document and return all body links, per
/// `find_body_links_spec`.
pub fn find_body_links(text: &str) -> (r: Vec<BodyLink>)
    requires
        text@.len() < usize::MAX / 2,
    ensures
        links_view(r@) == find_body_links_spec(text@),
{
    let v = chars_vec(text);
    let ls = split_lines(&v);
    let ghost lsv = lines_spec(text@);
    proof {
        assert(ls@.map_values(|l: Vec<char>| l@) == lsv);
        lemma_lines_len(text@, 0);
    }
    let mut links: Vec<BodyLink> = Vec::new();
    let mut fenced = false;
    let mut i: usize = 0;
    while i < ls.len()
        invariant
            0 <= i <= ls@.len(),
            lsv == ls@.map_values(|l: Vec<char>| l@),
            forall|k: int| 0 <= k < ls@.len() ==> #[trigger] ls@[k]@ == lsv[k],
            forall|k: int| 0 <= k < lsv.len() ==> #[trigger] lsv[k].len() < usize::MAX / 2,
            links_view(links@) + scan_lines(lsv, i as int, fenced) == find_body_links_spec(text@),
        decreases ls@.len() - i,
    {
        let line = &ls[i];
        if is_fence_line_exec(line) {
            fenced = !fenced;
            i = i + 1;
            continue ;
        }
        if fenced {
            i = i + 1;
            continue ;
        }
        let ghost prev = links@;
        parse_line_links(line, i, &mut links);
        proof {
            assert(links_view(links@) =~= links_view(prev) + scan_links(lsv[i as int], 0, i as int));
            assert(scan_lines(lsv, i as int, false) == scan_links(lsv[i as int], 0, i as int)
                + scan_lines(lsv, i + 1, false));
            assert(links_view(links@) + scan_lines(lsv, i + 1, false) =~= links_view(prev)
                + scan_lines(lsv, i as int, false));
        }
        i = i + 1;
    }
    proof {
        assert(scan_lines(lsv, i as int, fenced) =~= Seq::<BodyLinkModel>::empty());
        assert(links_view(links@) =~= find_body_links_spec(text@));
    }
    links
}

/// Whether line `i` sits inside a fenced code block (parity of the fence
/// lines above it).
pub open spec fn fenced_state(ls: Seq<Seq<char>>, i: int) -> bool
    decreases i,
{
    if i <= 0 || i > ls.len() {
        false
    } else if is_fence_line(ls[i - 1]) {
        !fenced_state(ls, i - 1)
    } else {
        fenced_state(ls, i - 1)
    }
}

/// First link in `links[j..]` whose column span covers `col`.
pub open spec fn link_covering_from(links: Seq<BodyLinkModel>, j: int, col: int) -> Option<
    BodyLinkModel,
> decreases links.len() - j {
    if j < 0 || j >= links.len() {
        None
    } else if links[j].start_col <= col < links[j].end_col {
        Some(links[j])
    } else {
        link_covering_from(links, j + 1, col)
    }
}

/// The link under the cursor: the first link of that line whose span covers
/// `col`, unless the line is fenced away or is itself a fence line.
pub open spec fn body_link_at_spec(s: Seq<char>, line: int, col: int) -> Option<BodyLinkModel> {
    let ls = lines_spec(s);
    if 0 <= line < ls.len() && !is_fence_line(ls[line]) && !fenced_state(ls, line) {
        link_covering_from(scan_links(ls[line], 0, line), 0, col)
    } else {
        None
    }
}

/// Find the body link at the given cursor position, per `body_link_at_spec`.
pub fn body_link_at(text: &str, line: usize, col: usize) -> (r: Option<BodyLink>)
    requires
        text@.len() < usize::MAX / 2,
    ensures
        match r {
            Some(l) => body_link_at_spec(text@, line as int, col as int) == Some(l@),
            None => body_link_at_spec(text@, line as int, col as int) is None,
        },
{
    let v = chars_vec(text);
    let ls = split_lines(&v);
    let ghost lsv = lines_spec(text@);
    proof {
        assert(ls@.map_values(|l: Vec<char>| l@) == lsv);
        lemma_lines_len(text@, 0);
    }
    if line >= ls.len() {
        return None;
    }
    let mut fenced = false;
    let mut i: usize = 0;
    while i < line
        invariant
            0 <= i <= line < ls@.len(),
            lsv == ls@.map_values(|l: Vec<char>| l@),
            forall|k: int| 0 <= k < ls@.len() ==> #[trigger] ls@[k]@ == lsv[k],
            fenced == fenced_state(lsv, i as int),
        decreases line - i,
    {
        if is_fence_line_exec(&ls[i]) {
            fenced = !fenced;
        }
        proof {
            assert(fenced == fenced_state(lsv, i + 1));
        }
        i = i + 1;
    }
    let lv = &ls[line];
    proof {
        assert(lv@ == lsv[line as int]);
    }
    if is_fence_line_exec(lv) || fenced {
        return None;
    }
    let mut found: Vec<BodyLink> = Vec::new();
    parse_line_links(lv, line, &mut found);
    proof {
        assert(links_view(found@) =~= scan_links(lsv[line as int], 0, line as int));
    }
    let ghost models = scan_links(lsv[line as int], 0, line as int);
    let mut k: usize = 0;
    while k < found.len()
        invariant
            0 <= k <= found@.len(),
            links_view(found@) == models,
            (line as int) < lines_spec(text@).len(),
            !is_fence_line(lines_spec(text@)[line as int]),
            !fenced_state(lines_spec(text@), line as int),
            models == scan_links(lines_spec(text@)[line as int], 0, line as int),
            link_covering_from(models, 0, col as int) == link_covering_from(
                models,
                k as int,
                col as int,
            ),
        decreases found@.len() - k,
    {
        proof {
            assert(models[k as int] == found@[k as int]@);
        }
        if found[k].start_col <= col && col < found[k].end_col {
            proof {
                assert(found@[k as int]@ == models[k as int]);
                assert(link_covering_from(models, k as int, col as int) == Some(
                    models[k as int],
                ));
            }
            let l = found.remove(k);
            proof {
                assert(l@ == models[k as int]);
                assert(link_covering_from(models, 0, col as int) == Some(models[k as int]));
            }
            return Some(l);
        }
        k = k + 1;
    }
    None
}

/// Whether a link record's span is a syntactically valid construct on the
/// line `c`: there are character indices `a < b` at the record's UTF-16
/// columns such that the span opens with the construct's brackets and, for a
/// wikilink, closes with `]]`; a markdown span closes with `)` unless it runs
/// to the end of the line.
pub open spec fn valid_span(c: Seq<char>, r: BodyLinkModel) -> bool {
    exists|a: int, b: int|
        {
            &&& 0 <= a
            &&& a + 1 < b
            &&& b <= c.len()
            &&& r.start_col == utf16_col(c, a)
            &&& r.end_col == utf16_col(c, b)
            &&& match r.format {
                LinkFormat::Wikilink => c[a] == '[' && c[a + 1] == '[' && c[b - 1] == ']' && c[b
                    - 2] == ']',
                LinkFormat::Markdown => c[a] == '[' && (c[b - 1] == ')' || b == c.len()),
            }
        }
}

proof fn lemma_paren_end_closes(c: Seq<char>, i: int, depth: int)
    requires
        0 <= i <= c.len(),
        depth >= 1,
    ensures
        paren_end(c, i, depth) == c.len() || c[paren_end(c, i, depth) - 1] == ')',
    decreases c.len() - i,
{
    if i < c.len() {
        let d2 = if c[i] == '(' {
            depth + 1
        } else if c[i] == ')' {
            depth - 1
        } else {
            depth
        };
        if d2 >= 1 {
            lemma_paren_end_closes(c, i + 1, d2);
        }
    }
}

/// Every record that `scan_links` produces spans a valid construct and
/// carries its line number in both line fields.
pub proof fn lemma_scan_links_spans(c: Seq<char>, i: int, li: int)
    requires
        0 <= i <= c.len(),
    ensures
        forall|k: int|
            0 <= k < scan_links(c, i, li).len() ==> valid_span(
                c,
                #[trigger] scan_links(c, i, li)[k],
            ) && scan_links(c, i, li)[k].start_line == li && scan_links(c, i, li)[k].end_line == li,
    decreases c.len() - i,
{
    if i < 0 || i >= c.len() {
    } else if c[i] == '`' {
        let j = find_from(c, i + 1, '`');
        lemma_find_from_bounds(c, i + 1, '`');
        if j < c.len() {
            lemma_scan_links_spans(c, j + 1, li);
        }
    } else if i + 1 < c.len() && c[i] == '[' && c[i + 1] == '[' {
        let is_embed = i > 0 && c[i - 1] == '!';
        let close = find2_from(c, i + 2, ']', ']');
        lemma_find2_from_bounds(c, i + 2, ']', ']');
        if close < c.len() {
            lemma_scan_links_spans(c, close + 2, li);
            if !(is_embed || close == i + 2) {
                let rec = wiki_record(c, i, close, li);
                if rec.target.len() > 0 {
                    assert(valid_span(c, rec)) by {
                        assert(c[i] == '[' && c[i + 1] == '[' && c[close + 2 - 1] == ']' && c[close
                            + 2 - 2] == ']');
                    }
                    assert forall|k: int| 0 <= k < scan_links(c, i, li).len() implies valid_span(
                        c,
                        #[trigger] scan_links(c, i, li)[k],
                    ) && scan_links(c, i, li)[k].start_line == li && scan_links(c, i, li)[k].end_line
                        == li by {
                        if k > 0 {
                            assert(scan_links(c, i, li)[k] == scan_links(c, close + 2, li)[k - 1]);
                        }
                    }
                }
            }
        }
    } else if c[i] == '[' {
        let be = bracket_end(c, i + 1, 1);
        lemma_bracket_end_bounds(c, i + 1, 1);
        if be < c.len() && c[be] == '(' {
            let pe = paren_end(c, be + 1, 1);
            lemma_paren_end_bounds(c, be + 1, 1);
            lemma_scan_links_spans(c, pe, li);
            let is_image = i > 0 && c[i - 1] == '!';
            if !(is_image || pe < be + 2) {
                let rp = md_record(c, i, be, pe, li);
                if !rp.1 {
                    assert(valid_span(c, rp.0)) by {
                        lemma_paren_end_closes(c, be + 1, 1);
                        assert(c[i] == '[' && (c[pe - 1] == ')' || pe == c.len()));
                    }
                    assert forall|k: int| 0 <= k < scan_links(c, i, li).len() implies valid_span(
                        c,
                        #[trigger] scan_links(c, i, li)[k],
                    ) && scan_links(c, i, li)[k].start_line == li && scan_links(c, i, li)[k].end_line
                        == li by {
                        if k > 0 {
                            assert(scan_links(c, i, li)[k] == scan_links(c, pe, li)[k - 1]);
                        }
                    }
                }
            }
        } else {
            if be > i {
                lemma_scan_links_spans(c, be, li);
            }
        }
    } else {
        lemma_scan_links_spans(c, i + 1, li);
    }
}

/// Every record of `scan_lines` names a line of the document and spans a
/// valid construct on that line.
pub proof fn lemma_scan_lines_spans(ls: Seq<Seq<char>>, i: int, fenced: bool)
    requires
        0 <= i <= ls.len(),
    ensures
        forall|k: int|
            0 <= k < scan_lines(ls, i, fenced).len() ==> {
                let r = #[trigger] scan_lines(ls, i, fenced)[k];
                &&& i <= r.start_line < ls.len()
                &&& r.end_line == r.start_line
                &&& valid_span(ls[r.start_line], r)
            },
    decreases ls.len() - i,
{
    if 0 <= i && i < ls.len() {
        if is_fence_line(ls[i]) {
            lemma_scan_lines_spans(ls, i + 1, !fenced);
        } else if fenced {
            lemma_scan_lines_spans(ls, i + 1, fenced);
        } else {
            lemma_scan_links_spans(ls[i], 0, i);
            lemma_scan_lines_spans(ls, i + 1, fenced);
            assert forall|k: int| 0 <= k < scan_lines(ls, i, fenced).len() implies {
                let r = #[trigger] scan_lines(ls, i, fenced)[k];
                &&& i <= r.start_line < ls.len()
                &&& r.end_line == r.start_line
                &&& valid_span(ls[r.start_line], r)
            } by {
                let here = scan_links(ls[i], 0, i);
                if k >= here.len() {
                    assert(scan_lines(ls, i, fenced)[k] == scan_lines(ls, i + 1, fenced)[k
                        - here.len()]);
                }
            }
        }
    }
}

/// Every body link of a document spans a valid construct on its own line.
pub proof fn lemma_body_links_valid(s: Seq<char>)
    ensures
        forall|k: int|
            0 <= k < find_body_links_spec(s).len() ==> {
                let r = #[trigger] find_body_links_spec(s)[k];
                &&& 0 <= r.start_line < lines_spec(s).len()
                &&& r.end_line == r.start_line
                &&& valid_span(lines_spec(s)[r.start_line], r)
            },
{
    lemma_scan_lines_spans(lines_spec(s), 0, false);
}

/// Scanning is deterministic: two scans of the same text agree, record for
/// record.
pub proof fn lemma_find_body_links_idempotent(r1: Seq<BodyLink>, r2: Seq<BodyLink>, s: Seq<char>)
    requires
        links_view(r1) == find_body_links_spec(s),
        links_view(r2) == find_body_links_spec(s),
    ensures
        links_view(r1) == links_view(r2),
{
}

} // verus!
