//! Quickfix edits on frontmatter fields: replace an existing `field:` line,
//! insert before the closing delimiter, or create a whole frontmatter block.

use vstd::prelude::*;

use crate::chartext::{chars_vec, string_range};
use crate::lines::{is_delim_spec, lines_spec, split_lines};
use crate::protocol::{Position, Range, TextEdit};
use crate::resolve::append_chars;
use crate::text::{
    find_field_range, find_field_range_spec, fm_bounds_spec, frontmatter_bounds,
    lemma_delim_from_bounds,
};

verus! {

/// The frontmatter bounds of a document sit inside it: the interior starts
/// at line 1 and ends before the closing delimiter, and both delimiter
/// lines hold `---` once trailing whitespace is dropped.
pub proof fn lemma_fm_bounds_valid(ls: Seq<Seq<char>>)
    ensures
        match fm_bounds_spec(ls) {
            Some((s, e)) => s == 1 && 0 < s <= e + 1 && e + 1 < ls.len() && is_delim_spec(ls[0])
                && is_delim_spec(ls[e + 1]),
            None => true,
        },
{
    if ls.len() > 0 && is_delim_spec(ls[0]) {
        lemma_delim_from_bounds(ls, 1);
    }
}

/// The text edit that writes a field into the frontmatter: replace the
/// existing `field:` line whole; else insert a fresh line just before the
/// closing delimiter; else create a frontmatter block at the top. An empty
/// `repl` means the bare key `field: ` is written.
pub open spec fn field_edit_spec(s: Seq<char>, field: Seq<char>, repl: Seq<char>) -> (
    (int, int),
    (int, int),
    Seq<char>,
) {
    let ls = lines_spec(s);
    let bounds = fm_bounds_spec(ls);
    let fallback = match bounds {
        Some((st, _)) => st,
        None => 0,
    };
    let fr = find_field_range_spec(s, field, fallback);
    if fr.0 == fr.1 {
        match bounds {
            Some((st, e)) => (
                (e + 1, 0),
                (e + 1, 0),
                if repl.len() == 0 {
                    field + ": \n"@
                } else {
                    repl + seq!['\n']
                },
            ),
            None => (
                (0, 0),
                (0, 0),
                if repl.len() == 0 {
                    "---\n"@ + field + ": \n---\n"@
                } else {
                    "---\n"@ + repl + "\n---\n"@
                },
            ),
        }
    } else {
        let li = fr.0.0;
        let line_len: int = if 0 <= li < ls.len() {
            ls[li].len() as int
        } else {
            0
        };
        (
            (li, 0),
            (li, line_len),
            if repl.len() == 0 {
                field + ": "@
            } else {
                repl
            },
        )
    }
}

/// Build the quickfix edit for a field, per `field_edit_spec`.
pub fn field_edit(text: &str, field_name: &str, replacement_line: &str) -> (r: TextEdit)
    ensures
        field_edit_spec(text@, field_name@, replacement_line@) == ((
            r.range.start.line as int,
            r.range.start.character as int,
        ), (r.range.end.line as int, r.range.end.character as int), r.new_text@),
{
    proof {
        reveal_strlit(": \n");
        reveal_strlit(": ");
        reveal_strlit("---\n");
        reveal_strlit("\n---\n");
        reveal_strlit(": \n---\n");
        lemma_fm_bounds_valid(lines_spec(text@));
    }
    let tn = text.unicode_len();
    proof {
        crate::lines::lemma_lines_count(text@, 0);
    }
    let bounds = frontmatter_bounds(text);
    let fallback_line: usize = match bounds {
        Some((st, _)) => st,
        None => 0,
    };
    let (start, end) = find_field_range(text, field_name, fallback_line);
    let fv = chars_vec(field_name);
    let rv = chars_vec(replacement_line);
    if start.line == end.line && start.character == end.character {
        match bounds {
            Some((_, fm_end)) => {
                let mut out: Vec<char> = Vec::new();
                if rv.len() == 0 {
                    append_chars(&mut out, &fv);
                    out.push(':');
                    out.push(' ');
                    out.push('\n');
                    proof {
                        assert(out@ =~= field_name@ + ": \n"@);
                    }
                } else {
                    append_chars(&mut out, &rv);
                    out.push('\n');
                    proof {
                        assert(out@ =~= replacement_line@ + seq!['\n']);
                    }
                }
                let new_text = string_range(&out, 0, out.len());
                proof {
                    assert(out@.subrange(0, out@.len() as int) =~= out@);
                }
                TextEdit {
                    range: Range {
                        start: Position { line: fm_end + 1, character: 0 },
                        end: Position { line: fm_end + 1, character: 0 },
                    },
                    new_text,
                }
            },
            None => {
                let mut out: Vec<char> = Vec::new();
                out.push('-');
                out.push('-');
                out.push('-');
                out.push('\n');
                if rv.len() == 0 {
                    append_chars(&mut out, &fv);
                    out.push(':');
                    out.push(' ');
                    out.push('\n');
                    out.push('-');
                    out.push('-');
                    out.push('-');
                    out.push('\n');
                    proof {
                        assert(out@ =~= "---\n"@ + field_name@ + ": \n---\n"@);
                    }
                } else {
                    append_chars(&mut out, &rv);
                    out.push('\n');
                    out.push('-');
                    out.push('-');
                    out.push('-');
                    out.push('\n');
                    proof {
                        assert(out@ =~= "---\n"@ + replacement_line@ + "\n---\n"@);
                    }
                }
                let new_text = string_range(&out, 0, out.len());
                proof {
                    assert(out@.subrange(0, out@.len() as int) =~= out@);
                }
                TextEdit {
                    range: Range {
                        start: Position { line: 0, character: 0 },
                        end: Position { line: 0, character: 0 },
                    },
                    new_text,
                }
            },
        }
    } else {
        let v = chars_vec(text);
        let ls = split_lines(&v);
        proof {
            assert(ls@.map_values(|l: Vec<char>| l@) == lines_spec(text@));
        }
        let line_len: usize = if start.line < ls.len() {
            proof {
                assert(ls@.map_values(|l: Vec<char>| l@)[start.line as int] == ls@[start.line
                    as int]@);
            }
            ls[start.line].len()
        } else {
            0
        };
        let new_text: String;
        if rv.len() == 0 {
            let mut out: Vec<char> = Vec::new();
            append_chars(&mut out, &fv);
            out.push(':');
            out.push(' ');
            proof {
                assert(out@ =~= field_name@ + ": "@);
                assert(out@.subrange(0, out@.len() as int) =~= out@);
            }
            new_text = string_range(&out, 0, out.len());
        } else {
            proof {
                assert(rv@.subrange(0, rv@.len() as int) =~= rv@);
            }
            new_text = string_range(&rv, 0, rv.len());
        }
        TextEdit {
            range: Range {
                start: Position { line: start.line, character: 0 },
                end: Position { line: start.line, character: line_len },
            },
            new_text,
        }
    }
}

/// The YAML line `field: value`.
pub open spec fn yaml_value_spec(field: Seq<char>, value: Seq<char>) -> Seq<char> {
    field + ": "@ + value
}

/// Render `field: value`, per `yaml_value_spec`.
pub fn yaml_value_text(field: &str, value: &str) -> (r: String)
    ensures
        r@ == yaml_value_spec(field@, value@),
{
    proof {
        reveal_strlit(": ");
    }
    let fv = chars_vec(field);
    let vv = chars_vec(value);
    let mut out: Vec<char> = Vec::new();
    append_chars(&mut out, &fv);
    out.push(':');
    out.push(' ');
    append_chars(&mut out, &vv);
    proof {
        assert(out@ =~= field@ + ": "@ + value@);
        assert(out@.subrange(0, out@.len() as int) =~= out@);
    }
    string_range(&out, 0, out.len())
}

} // verus!
