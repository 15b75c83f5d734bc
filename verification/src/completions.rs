//! Completion computation: where the cursor decides what is offered, the
//! union of a type set's fields, value completions, tag completions, and
//! file-target completions for unclosed links.

use vstd::prelude::*;

use crate::chartext::{chars_vec, ends_with, find_from, string_range, vec_range};
use crate::lines::lines_spec;
use crate::protocol::{Position, Range, TextEdit};
use crate::resolve::{append_chars, strs_view};
use crate::schema::{field_get, FieldDef, Schema, TypeDef, type_get};
use crate::text::{in_frontmatter_spec, link_ctx_spec, LinkCompletionKind};

verus! {

/// What kind of completion a cursor position calls for.
pub enum CompletionDecision {
    LinkTargets(crate::text::LinkCompletionContext),
    FrontmatterFieldName,
    FrontmatterValue,
    Tags,
    Nothing,
}

/// The decision the completion provider makes from the text and cursor
/// alone: an unclosed link wins; inside the frontmatter, a cursor at or
/// before the colon completes field names and one past it completes values;
/// outside, a `#` right before the cursor completes tags.
pub open spec fn completion_decision_spec(s: Seq<char>, line: int, column: int) -> int {
    let ls = lines_spec(s);
    let l: Seq<char> = if 0 <= line < ls.len() {
        ls[line]
    } else {
        Seq::empty()
    };
    if link_ctx_spec(l, column) is Some {
        0
    } else if in_frontmatter_spec(s, line) {
        let c = find_from(l, 0, ':');
        if c >= l.len() || column <= c {
            1
        } else {
            2
        }
    } else if column > 0 && column <= l.len() && l[column - 1] == '#' {
        3
    } else {
        4
    }
}

/// Decide what to complete at a position, per `completion_decision_spec`
/// (the numbering there follows this enum's order).
pub fn completion_decision(text: &str, line: usize, column: usize) -> (r: CompletionDecision)
    ensures
        ({
            let d = completion_decision_spec(text@, line as int, column as int);
            match r {
                CompletionDecision::LinkTargets(ctx) => d == 0 && ({
                    let l = if (line as int) < lines_spec(text@).len() {
                        lines_spec(text@)[line as int]
                    } else {
                        Seq::<char>::empty()
                    };
                    link_ctx_spec(l, column as int) == Some(
                        (ctx.kind, ctx.prefix@, ctx.start_col as int),
                    )
                }),
                CompletionDecision::FrontmatterFieldName => d == 1,
                CompletionDecision::FrontmatterValue => d == 2,
                CompletionDecision::Tags => d == 3,
                CompletionDecision::Nothing => d == 4,
            }
        }),
{
    let v = chars_vec(text);
    let ls = crate::lines::split_lines(&v);
    let ghost lsv = lines_spec(text@);
    proof {
        assert(ls@.map_values(|l: Vec<char>| l@) == lsv);
    }
    let line_vec: Vec<char> = if line < ls.len() {
        proof {
            assert(ls@.map_values(|l: Vec<char>| l@)[line as int] == ls@[line as int]@);
        }
        vec_range(&ls[line], 0, ls[line].len())
    } else {
        Vec::new()
    };
    proof {
        if (line as int) < lsv.len() {
            assert(line_vec@ =~= lsv[line as int]);
        } else {
            assert(line_vec@ =~= Seq::<char>::empty());
        }
    }
    let line_str = string_range(&line_vec, 0, line_vec.len());
    proof {
        assert(line_vec@.subrange(0, line_vec@.len() as int) =~= line_vec@);
    }
    match crate::text::link_completion_context(line_str.as_str(), column) {
        Some(ctx) => {
            return CompletionDecision::LinkTargets(ctx);
        },
        None => {},
    }
    if crate::text::is_in_frontmatter(text, line) {
        let c = crate::chartext::find_char_from(&line_vec, 0, ':');
        if c >= line_vec.len() || column <= c {
            return CompletionDecision::FrontmatterFieldName;
        }
        return CompletionDecision::FrontmatterValue;
    }
    if column > 0 && column <= line_vec.len() && line_vec[column - 1] == '#' {
        return CompletionDecision::Tags;
    }
    CompletionDecision::Nothing
}

/// One offered completion.
#[derive(Debug)]
pub struct CompletionItem {
    pub label: String,
    pub detail: Option<String>,
    pub insert_text: Option<String>,
    pub filter_text: Option<String>,
    pub documentation: Option<String>,
    pub text_edit: Option<TextEdit>,
}

/// Lines joined back with newlines.
pub open spec fn join_lines(parts: Seq<Seq<char>>) -> Seq<char>
    decreases parts.len(),
{
    if parts.len() == 0 {
        Seq::empty()
    } else if parts.len() == 1 {
        parts[0]
    } else {
        join_lines(parts.drop_last()) + seq!['\n'] + parts.last()
    }
}

/// Rebuild the text with the line at `line_idx` removed; other lines are
/// joined with single newlines.
pub fn remove_line(text: &str, line_idx: usize) -> (r: String)
    ensures
        ({
            let ls = lines_spec(text@);
            if 0 <= line_idx < ls.len() {
                r@ == join_lines(ls.remove(line_idx as int))
            } else {
                r@ == join_lines(ls)
            }
        }),
{
    let v = chars_vec(text);
    let ls = crate::lines::split_lines(&v);
    let ghost lsv = lines_spec(text@);
    proof {
        assert(ls@.map_values(|l: Vec<char>| l@) == lsv);
    }
    let mut out: Vec<char> = Vec::new();
    let ghost kept = if (line_idx as int) < lsv.len() {
        lsv.remove(line_idx as int)
    } else {
        lsv
    };
    let mut i: usize = 0;
    let mut first = true;
    let ghost mut done: int = 0;
    while i < ls.len()
        invariant
            0 <= i <= ls@.len(),
            lsv == ls@.map_values(|l: Vec<char>| l@),
            forall|q: int| 0 <= q < ls@.len() ==> #[trigger] ls@[q]@ == lsv[q],
            kept == (if (line_idx as int) < lsv.len() {
                lsv.remove(line_idx as int)
            } else {
                lsv
            }),
            done == (if i <= line_idx {
                i as int
            } else {
                i - 1
            }),
            0 <= done <= kept.len(),
            first <==> done == 0,
            out@ == join_lines(kept.subrange(0, done)),
            kept.subrange(0, done) =~= (if i <= line_idx {
                lsv.subrange(0, i as int)
            } else {
                lsv.remove(line_idx as int).subrange(0, i - 1)
            }),
        decreases ls@.len() - i,
    {
        if i != line_idx {
            if !first {
                out.push('\n');
            }
            append_chars(&mut out, &ls[i]);
            first = false;
            proof {
                let d2 = done + 1;
                assert(kept.subrange(0, d2).drop_last() =~= kept.subrange(0, done));
                assert(kept.subrange(0, d2).last() == kept[done]);
                assert(kept[done] == lsv[i as int]);
                if done == 0 {
                    assert(join_lines(kept.subrange(0, 1)) == kept.subrange(0, 1)[0]);
                    assert(kept.subrange(0, 1)[0] == kept[0]);
                    assert(out@ =~= join_lines(kept.subrange(0, d2)));
                } else {
                    assert(out@ =~= join_lines(kept.subrange(0, done)) + seq!['\n'] + kept[done]);
                    assert(out@ =~= join_lines(kept.subrange(0, d2)));
                }
                done = d2;
            }
        }
        i = i + 1;
    }
    proof {
        assert(kept.subrange(0, done) =~= kept);
        assert(out@ =~= join_lines(kept));
    }
    string_range(&out, 0, out.len())
}

/// The first definition of `field` among the named types, or among all
/// types when no names are given.
pub open spec fn field_def_for_types_spec(
    types: Seq<(String, TypeDef)>,
    names: Seq<Seq<char>>,
    field: Seq<char>,
) -> Option<FieldDef> {
    if names.len() == 0 {
        field_def_any(types, field)
    } else {
        field_def_in_names(types, names, field)
    }
}

/// The first definition of `field` among the named types only.
pub open spec fn field_def_in_names(
    types: Seq<(String, TypeDef)>,
    names: Seq<Seq<char>>,
    field: Seq<char>,
) -> Option<FieldDef>
    decreases names.len(),
{
    if names.len() == 0 {
        None
    } else {
        match type_get(types, names[0]) {
            Some(td) => match field_get(td.fields@, field) {
                Some(d) => Some(d),
                None => field_def_in_names(types, names.drop_first(), field),
            },
            None => field_def_in_names(types, names.drop_first(), field),
        }
    }
}

/// The first definition of `field` in any type, in schema order.
pub open spec fn field_def_any(types: Seq<(String, TypeDef)>, field: Seq<char>) -> Option<FieldDef>
    decreases types.len(),
{
    if types.len() == 0 {
        None
    } else {
        match field_get(types[0].1.fields@, field) {
            Some(d) => Some(d),
            None => field_def_any(types.drop_first(), field),
        }
    }
}

/// Find the field definition the named types give `field`, per
/// `field_def_for_types_spec`.
pub fn field_def_for_types<'a>(schema: &'a Schema, names: &Vec<String>, field: &str) -> (r: Option<
    &'a FieldDef,
>)
    ensures
        match r {
            Some(d) => field_def_for_types_spec(schema.types@, strs_view(names@), field@) == Some(
                *d,
            ),
            None => field_def_for_types_spec(schema.types@, strs_view(names@), field@) is None,
        },
{
    if names.len() == 0 {
        proof {
            assert(schema.types@.skip(0) =~= schema.types@);
        }
        let mut i: usize = 0;
        while i < schema.types.len()
            invariant
                0 <= i <= schema.types@.len(),
                strs_view(names@).len() == 0,
                field_def_any(schema.types@, field@) == field_def_any(
                    schema.types@.skip(i as int),
                    field@,
                ),
            decreases schema.types@.len() - i,
        {
            proof {
                assert(schema.types@.skip(i as int)[0] == schema.types@[i as int]);
                assert(schema.types@.skip(i as int).drop_first() =~= schema.types@.skip(i + 1));
            }
            match crate::schema::get_field(&schema.types[i].1.fields, field) {
                Some(d) => {
                    return Some(d);
                },
                None => {},
            }
            i = i + 1;
        }
        proof {
            assert(schema.types@.skip(i as int).len() == 0);
            assert(strs_view(names@).len() == 0);
        }
        return None;
    }
    let ghost ns = strs_view(names@);
    proof {
        assert(ns.skip(0) =~= ns);
    }
    let mut k: usize = 0;
    while k < names.len()
        invariant
            0 <= k <= names@.len(),
            ns == strs_view(names@),
            ns.len() > 0,
            field_def_in_names(schema.types@, ns, field@) == field_def_in_names(
                schema.types@,
                ns.skip(k as int),
                field@,
            ),
        decreases names@.len() - k,
    {
        proof {
            assert(strs_view(names@)[k as int] == names@[k as int]@);
            assert(ns.skip(k as int)[0] == ns[k as int]);
            assert(ns.skip(k as int).drop_first() =~= ns.skip(k + 1));
        }
        match schema.get_type(names[k].as_str()) {
            Some(td) => {
                match crate::schema::get_field(&td.fields, field) {
                    Some(d) => {
                        return Some(d);
                    },
                    None => {},
                }
            },
            None => {},
        }
        k = k + 1;
    }
    proof {
        assert(ns.skip(k as int).len() == 0);
    }
    None
}

/// A path split into `/`-separated segments (empties kept).
pub open spec fn split_segs(s: Seq<char>, i: int) -> Seq<Seq<char>>
    decreases s.len() - i,
    via split_segs_decreases
{
    if i < 0 || i > s.len() {
        Seq::empty()
    } else {
        let j = find_from(s, i, '/');
        if j >= s.len() {
            seq![s.subrange(i, s.len() as int)]
        } else {
            seq![s.subrange(i, j)] + split_segs(s, j + 1)
        }
    }
}

#[via_fn]
proof fn split_segs_decreases(s: Seq<char>, i: int) {
    if 0 <= i && i <= s.len() {
        crate::chartext::lemma_find_from_bounds(s, i, '/');
    }
}

/// Split a path buffer into segments, per `split_segs`.
pub fn split_segs_exec(v: &Vec<char>) -> (r: Vec<Vec<char>>)
    ensures
        r@.map_values(|p: Vec<char>| p@) == split_segs(v@, 0),
{
    let mut out: Vec<Vec<char>> = Vec::new();
    proof {
        assert(out@.map_values(|p: Vec<char>| p@) =~= Seq::<Seq<char>>::empty());
    }
    let mut i: usize = 0;
    let mut finished = false;
    while !finished
        invariant
            0 <= i <= v@.len(),
            !finished ==> split_segs(v@, 0) == out@.map_values(|p: Vec<char>| p@) + split_segs(
                v@,
                i as int,
            ),
            finished ==> split_segs(v@, 0) == out@.map_values(|p: Vec<char>| p@),
        decreases v@.len() - i + (if finished {
            0int
        } else {
            1int
        }),
    {
        let ghost prev = out@;
        let j = crate::chartext::find_char_from(v, i, '/');
        let seg = vec_range(v, i, j);
        out.push(seg);
        proof {
            assert(out@.map_values(|p: Vec<char>| p@) =~= prev.map_values(|p: Vec<char>| p@).push(
                seg@,
            ));
            if j < v@.len() {
                assert(split_segs(v@, i as int) == seq![v@.subrange(i as int, j as int)]
                    + split_segs(v@, j + 1));
            } else {
                assert(split_segs(v@, i as int) == seq![v@.subrange(i as int, v@.len() as int)]);
            }
            assert(prev.map_values(|p: Vec<char>| p@) + split_segs(v@, i as int)
                =~= out@.map_values(|p: Vec<char>| p@) + (if j < v@.len() {
                split_segs(v@, j + 1)
            } else {
                Seq::<Seq<char>>::empty()
            }));
        }
        if j < v.len() {
            i = j + 1;
        } else {
            finished = true;
        }
    }
    out
}

/// How many leading segments two paths share.
pub open spec fn common_prefix_len(a: Seq<Seq<char>>, b: Seq<Seq<char>>, i: int) -> int
    decreases a.len() - i,
{
    if i < 0 || i >= a.len() || i >= b.len() {
        i
    } else if a[i] == b[i] {
        common_prefix_len(a, b, i + 1)
    } else {
        i
    }
}

/// The path of `target` relative to the directory of `source`: shared
/// leading directories are dropped, one `..` steps out of each remaining
/// source directory, and the rest of the target follows.
pub open spec fn rel_path_spec(source: Seq<char>, target: Seq<char>) -> Seq<char> {
    let src_dir = crate::resolve::parent_dir(source);
    let tgt_parts = split_segs(target, 0);
    let src_parts: Seq<Seq<char>> = if src_dir.len() == 0 {
        Seq::empty()
    } else {
        split_segs(src_dir, 0)
    };
    let common = common_prefix_len(src_parts, tgt_parts, 0);
    let ups = src_parts.len() - common;
    let parts = Seq::new(ups as nat, |k: int| ".."@) + tgt_parts.skip(common);
    if parts.len() == 0 {
        if tgt_parts.len() > 0 {
            tgt_parts.last()
        } else {
            Seq::empty()
        }
    } else {
        crate::resolve::join_slash(parts)
    }
}

/// Compute the relative path between two collection-relative file paths,
/// per `rel_path_spec`.
pub fn relative_path_from(source: &str, target: &str) -> (r: String)
    ensures
        r@ == rel_path_spec(source@, target@),
{
    proof {
        reveal_strlit("..");
    }
    let sv = chars_vec(source);
    let tv = chars_vec(target);
    let src_dir: Vec<char> = match crate::resolve::rfind_char_exec(&sv, '/') {
        Some(k) => vec_range(&sv, 0, k),
        None => Vec::new(),
    };
    let tgt_parts = split_segs_exec(&tv);
    let src_parts: Vec<Vec<char>> = if src_dir.len() == 0 {
        Vec::new()
    } else {
        split_segs_exec(&src_dir)
    };
    let ghost sp = if crate::resolve::parent_dir(source@).len() == 0 {
        Seq::<Seq<char>>::empty()
    } else {
        split_segs(crate::resolve::parent_dir(source@), 0)
    };
    let ghost tp = split_segs(target@, 0);
    proof {
        assert(src_parts@.map_values(|p: Vec<char>| p@) =~= sp);
        assert(tgt_parts@.map_values(|p: Vec<char>| p@) == tp);
    }
    // common prefix
    let mut common: usize = 0;
    while common < src_parts.len() && common < tgt_parts.len() && crate::resolve::chars_eq(
        &src_parts[common],
        &tgt_parts[common],
    )
        invariant
            0 <= common <= sp.len(),
            common <= tp.len(),
            sp == src_parts@.map_values(|p: Vec<char>| p@),
            tp == tgt_parts@.map_values(|p: Vec<char>| p@),
            common_prefix_len(sp, tp, 0) == common_prefix_len(sp, tp, common as int),
        decreases sp.len() - common,
    {
        proof {
            assert(sp[common as int] == src_parts@[common as int]@);
            assert(tp[common as int] == tgt_parts@[common as int]@);
        }
        common = common + 1;
    }
    proof {
        if common < sp.len() && common < tp.len() {
            assert(sp[common as int] == src_parts@[common as int]@);
            assert(tp[common as int] == tgt_parts@[common as int]@);
        }
        assert(common_prefix_len(sp, tp, common as int) == common);
    }
    let ups = src_parts.len() - common;
    let ghost parts = Seq::new(ups as nat, |k: int| ".."@) + tp.skip(common as int);
    if ups == 0 && common >= tgt_parts.len() {
        proof {
            assert(parts.len() == 0);
            assert(tp.len() > 0);
            assert(tp.last() == tgt_parts@[tgt_parts@.len() - 1]@);
        }
        let last = &tgt_parts[tgt_parts.len() - 1];
        proof {
            assert(last@.subrange(0, last@.len() as int) =~= last@);
        }
        return string_range(last, 0, last.len());
    }
    let mut out: Vec<char> = Vec::new();
    let ghost mut wrote: int = 0;
    let mut k: usize = 0;
    while k < ups
        invariant
            0 <= k <= ups,
            ups == sp.len() - common,
            parts == Seq::new(ups as nat, |q: int| ".."@) + tp.skip(common as int),
            wrote == k as int,
            parts.len() > 0,
            k == 0 ==> out@ =~= Seq::<char>::empty(),
            k > 0 ==> out@ == join_slash_front(parts, k as int),
        decreases ups - k,
    {
        if k > 0 {
            out.push('/');
        }
        out.push('.');
        out.push('.');
        proof {
            reveal_strlit("..");
            assert(parts[k as int] == ".."@);
            assert(parts.subrange(0, k + 1).drop_last() =~= parts.subrange(0, k as int));
            assert(parts.subrange(0, k + 1).last() == parts[k as int]);
            if k == 0 {
                assert(out@ =~= parts[0]);
                assert(parts.subrange(0, 1)[0] == parts[0]);
                assert(out@ =~= join_slash_front(parts, 1));
            } else {
                assert(out@ =~= join_slash_front(parts, k as int) + seq!['/'] + parts[k as int]);
                assert(out@ =~= join_slash_front(parts, k + 1));
            }
        }
        k = k + 1;
        proof {
            wrote = wrote + 1;
        }
    }
    let mut t: usize = common;
    while t < tgt_parts.len()
        invariant
            common <= t <= tp.len(),
            tp == tgt_parts@.map_values(|p: Vec<char>| p@),
            parts == Seq::new(ups as nat, |q: int| ".."@) + tp.skip(common as int),
            wrote == ups + (t - common),
            parts.len() > 0,
            wrote == 0 ==> out@ =~= Seq::<char>::empty(),
            wrote > 0 ==> out@ == join_slash_front(parts, wrote as int),
            wrote <= parts.len(),
        decreases tp.len() - t,
    {
        proof {
            assert(tp[t as int] == tgt_parts@[t as int]@);
            assert(parts[wrote as int] == tp.skip(common as int)[wrote - ups]);
            assert(tp.skip(common as int)[wrote - ups] == tp[t as int]);
        }
        if t > common || ups > 0 {
            out.push('/');
        }
        append_chars(&mut out, &tgt_parts[t]);
        proof {
            assert(parts.subrange(0, wrote + 1).drop_last() =~= parts.subrange(0, wrote as int));
            assert(parts.subrange(0, wrote + 1).last() == parts[wrote as int]);
            if wrote == 0 {
                assert(out@ =~= parts[0]);
                assert(parts.subrange(0, 1)[0] == parts[0]);
                assert(out@ =~= join_slash_front(parts, 1));
            } else {
                assert(out@ =~= join_slash_front(parts, wrote as int) + seq!['/'] + parts[wrote
                    as int]);
                assert(out@ =~= join_slash_front(parts, wrote + 1));
            }
        }
        t = t + 1;
        proof {
            wrote = wrote + 1;
        }
    }
    proof {
        assert(wrote == parts.len());
        lemma_join_slash_front_all(parts);
        assert(out@ =~= crate::resolve::join_slash(parts));
    }
    string_range(&out, 0, out.len())
}

/// The mathematical shape of a completion item.
pub struct CompletionItemModel {
    pub label: Seq<char>,
    pub detail: Option<Seq<char>>,
    pub insert_text: Option<Seq<char>>,
    pub filter_text: Option<Seq<char>>,
    pub documentation: Option<Seq<char>>,
    pub edit: Option<((int, int), (int, int), Seq<char>)>,
}

impl View for CompletionItem {
    type V = CompletionItemModel;

    open spec fn view(&self) -> CompletionItemModel {
        CompletionItemModel {
            label: self.label@,
            detail: crate::refs::opt_view(self.detail),
            insert_text: crate::refs::opt_view(self.insert_text),
            filter_text: crate::refs::opt_view(self.filter_text),
            documentation: crate::refs::opt_view(self.documentation),
            edit: match self.text_edit {
                Some(e) => Some(
                    (
                        (e.range.start.line as int, e.range.start.character as int),
                        (e.range.end.line as int, e.range.end.character as int),
                        e.new_text@,
                    ),
                ),
                None => None,
            },
        }
    }
}

/// A path with a trailing `.md` dropped.
pub open spec fn stem_suffix(rel: Seq<char>) -> Seq<char> {
    if ends_with(rel, ".md"@) {
        rel.take(rel.len() - 3)
    } else {
        rel
    }
}

/// The wikilink completion for one index row: the label is the display name
/// or the path stem, the inserted text is `stem` or `stem|display`, and the
/// edit replaces the typed prefix.
pub open spec fn wiki_item_spec(
    row: (Seq<char>, Option<Seq<char>>, Option<Seq<char>>),
    line: int,
    start_col: int,
    column: int,
) -> CompletionItemModel {
    let stem = stem_suffix(row.0);
    let label = match row.1 {
        Some(d) => d,
        None => stem,
    };
    let insert = match row.1 {
        Some(d) => if d.len() > 0 && d != stem {
            stem + seq!['|'] + d
        } else {
            stem
        },
        None => stem,
    };
    let filter = match row.1 {
        Some(d) => Some(d + seq![' '] + stem + seq![' '] + row.0),
        None => None,
    };
    CompletionItemModel {
        label,
        detail: Some(row.0),
        insert_text: Some(insert),
        filter_text: filter,
        documentation: row.2,
        edit: Some(((line, start_col), (line, column), insert)),
    }
}

/// The markdown completion for one index row: the label is the target's
/// path relative to the source file.
pub open spec fn md_item_spec(
    row: (Seq<char>, Option<Seq<char>>, Option<Seq<char>>),
    line: int,
    start_col: int,
    column: int,
    src: Option<Seq<char>>,
) -> CompletionItemModel {
    let label = match src {
        Some(s) => rel_path_spec(s, row.0),
        None => row.0,
    };
    CompletionItemModel {
        label,
        detail: Some(row.0),
        insert_text: None,
        filter_text: None,
        documentation: None,
        edit: Some(((line, start_col), (line, column), label)),
    }
}

/// The completion list for an unclosed link, one item per index row.
pub open spec fn link_items_spec(
    kind: LinkCompletionKind,
    rows: Seq<(Seq<char>, Option<Seq<char>>, Option<Seq<char>>)>,
    j: int,
    line: int,
    start_col: int,
    column: int,
    src: Option<Seq<char>>,
) -> Seq<CompletionItemModel>
    decreases rows.len() - j,
{
    if j < 0 || j >= rows.len() {
        Seq::empty()
    } else {
        let item = match kind {
            LinkCompletionKind::Wikilink => wiki_item_spec(rows[j], line, start_col, column),
            LinkCompletionKind::Markdown => md_item_spec(rows[j], line, start_col, column, src),
        };
        seq![item] + link_items_spec(kind, rows, j + 1, line, start_col, column, src)
    }
}

/// The views of an item list.
pub open spec fn items_view(v: Seq<CompletionItem>) -> Seq<CompletionItemModel> {
    v.map_values(|x: CompletionItem| x@)
}

/// Build the file-target completions for an unclosed link, per
/// `link_items_spec` over the index's display rows.
pub fn provide_link_completions(
    rows: &Vec<(String, Option<String>, Option<String>)>,
    kind: LinkCompletionKind,
    start_col: usize,
    line_idx: usize,
    column: usize,
    source_rel: Option<&str>,
) -> (r: Vec<CompletionItem>)
    ensures
        items_view(r@) == link_items_spec(
            kind,
            rows@.map_values(|x: (String, Option<String>, Option<String>)|
                crate::file_index::row_view(x)),
            0,
            line_idx as int,
            start_col as int,
            column as int,
            match source_rel {
                Some(s) => Some(s@),
                None => None,
            },
        ),
{
    proof {
        reveal_strlit(".md");
    }
    let ghost rs = rows@.map_values(
        |x: (String, Option<String>, Option<String>)| crate::file_index::row_view(x),
    );
    let ghost srcv = match source_rel {
        Some(s) => Some(s@),
        None => None::<Seq<char>>,
    };
    let mut out: Vec<CompletionItem> = Vec::new();
    proof {
        assert(items_view(out@) =~= Seq::<CompletionItemModel>::empty());
    }
    let mut j: usize = 0;
    while j < rows.len()
        invariant
            0 <= j <= rows@.len(),
            rs == rows@.map_values(|x: (String, Option<String>, Option<String>)|
                crate::file_index::row_view(x)),
            srcv == (match source_rel {
                Some(s) => Some(s@),
                None => None::<Seq<char>>,
            }),
            link_items_spec(kind, rs, 0, line_idx as int, start_col as int, column as int, srcv)
                == items_view(out@) + link_items_spec(
                kind,
                rs,
                j as int,
                line_idx as int,
                start_col as int,
                column as int,
                srcv,
            ),
        decreases rows@.len() - j,
    {
        proof {
            assert(rs[j as int] == crate::file_index::row_view(rows@[j as int]));
            reveal_strlit(".md");
        }
        let row = &rows[j];
        let rel = chars_vec(row.0.as_str());
        proof {
            assert(rel@.subrange(0, rel@.len() as int) =~= rel@);
        }
        let item: CompletionItem;
        match kind {
            LinkCompletionKind::Wikilink => {
                let stem: Vec<char> = if crate::chartext::range_ends_with_str(
                    &rel,
                    0,
                    rel.len(),
                    ".md",
                ) {
                    vec_range(&rel, 0, rel.len() - 3)
                } else {
                    vec_range(&rel, 0, rel.len())
                };
                proof {
                    assert(stem@ =~= stem_suffix(rel@));
                }
                let label: String;
                let insert: String;
                let filter: Option<String>;
                match &row.1 {
                    Some(d) => {
                        let dv = chars_vec(d.as_str());
                        label = string_range(&dv, 0, dv.len());
                        if dv.len() > 0 && !crate::resolve::chars_eq(&dv, &stem) {
                            let mut iv = vec_range(&stem, 0, stem.len());
                            iv.push('|');
                            append_chars(&mut iv, &dv);
                            proof {
                                assert(iv@ =~= stem@ + seq!['|'] + dv@);
                                assert(iv@.subrange(0, iv@.len() as int) =~= iv@);
                            }
                            insert = string_range(&iv, 0, iv.len());
                        } else {
                            proof {
                                assert(stem@.subrange(0, stem@.len() as int) =~= stem@);
                            }
                            insert = string_range(&stem, 0, stem.len());
                        }
                        let mut fv = vec_range(&dv, 0, dv.len());
                        fv.push(' ');
                        append_chars(&mut fv, &stem);
                        fv.push(' ');
                        append_chars(&mut fv, &rel);
                        proof {
                            assert(fv@ =~= dv@ + seq![' '] + stem@ + seq![' '] + rel@);
                            assert(fv@.subrange(0, fv@.len() as int) =~= fv@);
                        }
                        filter = Some(string_range(&fv, 0, fv.len()));
                        proof {
                            assert(dv@.subrange(0, dv@.len() as int) =~= dv@);
                        }
                    },
                    None => {
                        proof {
                            assert(stem@.subrange(0, stem@.len() as int) =~= stem@);
                        }
                        label = string_range(&stem, 0, stem.len());
                        insert = string_range(&stem, 0, stem.len());
                        filter = None;
                    },
                }
                let insert_for_edit = {
                    let iv2 = chars_vec(insert.as_str());
                    string_range(&iv2, 0, iv2.len())
                };
                proof {
                    assert(insert_for_edit@ =~= insert@);
                }
                item = CompletionItem {
                    label,
                    detail: Some(row.0.clone()),
                    insert_text: Some(insert),
                    filter_text: filter,
                    documentation: crate::file_index::clone_opt_string(&row.2),
                    text_edit: Some(
                        TextEdit {
                            range: Range {
                                start: Position { line: line_idx, character: start_col },
                                end: Position { line: line_idx, character: column },
                            },
                            new_text: insert_for_edit,
                        },
                    ),
                };
                proof {
                    assert(item@ == wiki_item_spec(
                        rs[j as int],
                        line_idx as int,
                        start_col as int,
                        column as int,
                    ));
                }
            },
            LinkCompletionKind::Markdown => {
                let label: String = match source_rel {
                    Some(s) => relative_path_from(s, row.0.as_str()),
                    None => {
                        proof {
                            assert(rel@.subrange(0, rel@.len() as int) =~= rel@);
                        }
                        string_range(&rel, 0, rel.len())
                    },
                };
                let label2 = {
                    let lv = chars_vec(label.as_str());
                    string_range(&lv, 0, lv.len())
                };
                proof {
                    assert(label2@ =~= label@);
                }
                item = CompletionItem {
                    label,
                    detail: Some(row.0.clone()),
                    insert_text: None,
                    filter_text: None,
                    documentation: None,
                    text_edit: Some(
                        TextEdit {
                            range: Range {
                                start: Position { line: line_idx, character: start_col },
                                end: Position { line: line_idx, character: column },
                            },
                            new_text: label2,
                        },
                    ),
                };
                proof {
                    assert(item@ == md_item_spec(
                        rs[j as int],
                        line_idx as int,
                        start_col as int,
                        column as int,
                        srcv,
                    ));
                }
            },
        }
        let ghost prev = out@;
        out.push(item);
        proof {
            assert(items_view(out@) =~= items_view(prev).push(item@));
            assert(items_view(prev) + (seq![item@] + link_items_spec(
                kind,
                rs,
                j + 1,
                line_idx as int,
                start_col as int,
                column as int,
                srcv,
            )) =~= items_view(out@) + link_items_spec(
                kind,
                rs,
                j + 1,
                line_idx as int,
                start_col as int,
                column as int,
                srcv,
            ));
        }
        j = j + 1;
    }
    proof {
        assert(link_items_spec(
            kind,
            rs,
            j as int,
            line_idx as int,
            start_col as int,
            column as int,
            srcv,
        ) =~= Seq::<CompletionItemModel>::empty());
        assert(items_view(out@) =~= link_items_spec(
            kind,
            rs,
            0,
            line_idx as int,
            start_col as int,
            column as int,
            srcv,
        ));
    }
    out
}

/// The first `k` parts joined with slashes.
pub open spec fn join_slash_front(parts: Seq<Seq<char>>, k: int) -> Seq<char> {
    crate::resolve::join_slash(parts.subrange(0, k))
}

proof fn lemma_join_slash_front_all(parts: Seq<Seq<char>>)
    ensures
        join_slash_front(parts, parts.len() as int) == crate::resolve::join_slash(parts),
{
    assert(parts.subrange(0, parts.len() as int) =~= parts);
}

} // verus!
