//! Cross-file references and rename: the textual replacement for a renamed
//! reference, the round-trip laws behind rename, and the filter that drops
//! the declaration from a reference list.

use vstd::prelude::*;

use crate::chartext::{chars_vec, string_range, trim_spec};
use crate::body_links::{scan_links, BodyLinkModel, LinkFormat};
use crate::protocol::Range;

verus! {

/// How a reference is written at its site.
#[derive(Debug, Clone, Copy, PartialEq, Eq, Structural)]
pub enum RefFormat {
    Wikilink,
    Markdown,
    FrontmatterValue,
}

/// One reference found in a file.
#[derive(Debug, Clone)]
pub struct FoundRef {
    pub range: Range,
    pub format: RefFormat,
    pub alias: Option<String>,
    pub anchor: Option<String>,
}

/// The view of an optional string.
pub open spec fn opt_view(o: Option<String>) -> Option<Seq<char>> {
    match o {
        Some(s) => Some(s@),
        None => None,
    }
}

/// The text that replaces a reference when its target is renamed: wikilinks
/// keep anchor and alias, markdown links keep anchor and label (`link` when
/// none), frontmatter values become the bare new target.
pub open spec fn replacement_spec(
    format: RefFormat,
    alias: Option<Seq<char>>,
    anchor: Option<Seq<char>>,
    new_target: Seq<char>,
) -> Seq<char> {
    match format {
        RefFormat::Wikilink => {
            let body = new_target + (match anchor {
                Some(h) => seq!['#'] + h,
                None => Seq::empty(),
            });
            match alias {
                Some(a) => "[["@ + body + seq!['|'] + a + "]]"@,
                None => "[["@ + body + "]]"@,
            }
        },
        RefFormat::Markdown => {
            let path = new_target + (match anchor {
                Some(h) => seq!['#'] + h,
                None => Seq::empty(),
            });
            let label = match alias {
                Some(a) => a,
                None => "link"@,
            };
            seq!['['] + label + "]("@ + path + seq![')']
        },
        RefFormat::FrontmatterValue => new_target,
    }
}

/// Build the replacement text for one reference, per `replacement_spec`.
pub fn replacement_for_ref(found: &FoundRef, new_target: &str) -> (r: String)
    ensures
        r@ == replacement_spec(found.format, opt_view(found.alias), opt_view(found.anchor),
            new_target@),
{
    proof {
        reveal_strlit("[[");
        reveal_strlit("]]");
        reveal_strlit("](");
        reveal_strlit("link");
    }
    match found.format {
        RefFormat::Wikilink => {
            let mut out: Vec<char> = Vec::new();
            out.push('[');
            out.push('[');
            let tv = chars_vec(new_target);
            crate::resolve::append_chars(&mut out, &tv);
            match &found.anchor {
                Some(h) => {
                    out.push('#');
                    let hv = chars_vec(h.as_str());
                    crate::resolve::append_chars(&mut out, &hv);
                },
                None => {},
            }
            match &found.alias {
                Some(a) => {
                    out.push('|');
                    let av = chars_vec(a.as_str());
                    crate::resolve::append_chars(&mut out, &av);
                },
                None => {},
            }
            out.push(']');
            out.push(']');
            proof {
                assert(out@ =~= replacement_spec(found.format, opt_view(found.alias),
                    opt_view(found.anchor), new_target@));
            }
            string_range(&out, 0, out.len())
        },
        RefFormat::Markdown => {
            let mut out: Vec<char> = Vec::new();
            out.push('[');
            match &found.alias {
                Some(a) => {
                    let av = chars_vec(a.as_str());
                    crate::resolve::append_chars(&mut out, &av);
                },
                None => {
                    out.push('l');
                    out.push('i');
                    out.push('n');
                    out.push('k');
                },
            }
            out.push(']');
            out.push('(');
            let tv = chars_vec(new_target);
            crate::resolve::append_chars(&mut out, &tv);
            match &found.anchor {
                Some(h) => {
                    out.push('#');
                    let hv = chars_vec(h.as_str());
                    crate::resolve::append_chars(&mut out, &hv);
                },
                None => {},
            }
            out.push(')');
            proof {
                assert(out@ =~= replacement_spec(found.format, opt_view(found.alias),
                    opt_view(found.anchor), new_target@));
            }
            string_range(&out, 0, out.len())
        },
        RefFormat::FrontmatterValue => {
            let tv = chars_vec(new_target);
            string_range(&tv, 0, tv.len())
        },
    }
}

/// Renaming a canonical wikilink reference round-trips: scanning the
/// replacement text finds exactly one wikilink with the same target, alias
/// and anchor, and replacing it again with the same target reproduces the
/// text letter for letter. Rename is therefore a fixed point on such
/// references when the target does not change.
#[verifier::rlimit(60)]
pub proof fn lemma_wiki_rename_round_trip(
    t: Seq<char>,
    anchor: Option<Seq<char>>,
    alias: Option<Seq<char>>,
    li: int,
)
    requires
        t.len() > 0,
        trim_spec(t) == t,
        forall|j: int| 0 <= j < t.len() ==> t[j] != '#' && t[j] != '|' && t[j] != ']',
        match anchor {
            Some(h) => h.len() > 0 && trim_spec(h) == h && (forall|j: int|
                0 <= j < h.len() ==> h[j] != '|' && h[j] != ']'),
            None => true,
        },
        match alias {
            Some(a) => a.len() > 0 && trim_spec(a) == a && (forall|j: int|
                0 <= j < a.len() ==> a[j] != ']'),
            None => true,
        },
    ensures
        ({
            let s = replacement_spec(RefFormat::Wikilink, alias, anchor, t);
            let links = scan_links(s, 0, li);
            &&& links.len() == 1
            &&& links[0].target == t
            &&& links[0].alias == alias
            &&& links[0].anchor == anchor
            &&& links[0].format == LinkFormat::Wikilink
            &&& replacement_spec(RefFormat::Wikilink, links[0].alias, links[0].anchor, t) == s
        }),
{
    reveal_strlit("[[");
    reveal_strlit("]]");
    let s = replacement_spec(RefFormat::Wikilink, alias, anchor, t);
    let body = t + (match anchor {
        Some(h) => seq!['#'] + h,
        None => Seq::<char>::empty(),
    });
    let content = body + (match alias {
        Some(a) => seq!['|'] + a,
        None => Seq::<char>::empty(),
    });
    let m = content.len() as int;
    let bl = body.len() as int;
    assert(s =~= "[["@ + content + "]]"@);
    assert(s.len() == m + 4);
    assert(s[0] == '[' && s[1] == '[');
    assert(s[m + 2] == ']' && s[m + 3] == ']');
    crate::chartext::lemma_trimmed_ends(t);
    if anchor is Some {
        crate::chartext::lemma_trimmed_ends(anchor.unwrap());
    }
    if alias is Some {
        crate::chartext::lemma_trimmed_ends(alias.unwrap());
    }
    assert forall|j: int| 0 <= j < m implies content[j] != ']' by {
        if j < t.len() {
            assert(content[j] == t[j]);
        } else if j < bl {
            let h = anchor.unwrap();
            if j == t.len() {
                assert(content[j] == '#');
            } else {
                assert(content[j] == h[j - t.len() - 1]);
            }
        } else if j == bl {
            assert(content[j] == '|');
        } else {
            let a = alias.unwrap();
            assert(content[j] == a[j - bl - 1]);
        }
    }
    assert forall|j: int| 2 <= j < m + 2 implies !(#[trigger] s[j] == ']' && s[j + 1] == ']') by {
        assert(s[j] == content[j - 2]);
    }
    crate::chartext::lemma_find2_at(s, 2, m + 2, ']', ']');
    let close = m + 2;
    // the scanned content equals the constructed one
    assert(s.subrange(2, close) =~= content);
    // wiki_parts(content)
    assert(trim_spec(body) == body) by {
        match anchor {
            Some(h) => {
                assert(body[0] == t[0]);
                assert(body[body.len() - 1] == h[h.len() - 1]);
                crate::chartext::lemma_trim_noop(body);
            },
            None => {
                assert(body =~= t);
            },
        }
    }
    // the anchor split of `body`
    let ta = crate::body_links::split_anchor_spec(body);
    assert(ta.0 == t && ta.1 == anchor) by {
        match anchor {
            Some(h) => {
                assert(body[t.len() as int] == '#');
                assert(forall|j: int| 0 <= j < t.len() ==> body[j] == t[j]);
                crate::chartext::lemma_find_at(body, 0, t.len() as int, '#');
                assert(body.subrange(0, t.len() as int) =~= t);
                assert(body.subrange(t.len() as int + 1, body.len() as int) =~= h);
            },
            None => {
                assert(body =~= t);
                crate::chartext::lemma_find_absent(t, 0, '#');
                assert(body.subrange(0, body.len() as int) =~= t);
            },
        }
    }
    let parts = crate::body_links::wiki_parts(content);
    assert(parts.0 == t && parts.1 == alias && parts.2 == anchor) by {
        match alias {
            Some(a) => {
                assert(content[bl] == '|');
                assert forall|j: int| 0 <= j < bl implies content[j] != '|' by {
                    if j < t.len() {
                        assert(content[j] == t[j]);
                    } else {
                        let h = anchor.unwrap();
                        if j == t.len() {
                            assert(content[j] == '#');
                        } else {
                            assert(content[j] == h[j - t.len() - 1]);
                        }
                    }
                }
                crate::chartext::lemma_find_at(content, 0, bl, '|');
                assert(content.subrange(bl + 1, m) =~= a);
                assert(content.subrange(0, bl) =~= body);
            },
            None => {
                assert(content =~= body);
                assert forall|j: int| 0 <= j < content.len() implies content[j] != '|' by {
                    if j < t.len() {
                        assert(content[j] == t[j]);
                    } else {
                        let h = anchor.unwrap();
                        if j == t.len() {
                            assert(content[j] == '#');
                        } else {
                            assert(content[j] == h[j - t.len() - 1]);
                        }
                    }
                }
                crate::chartext::lemma_find_absent(content, 0, '|');
            },
        }
    }
    let rec = crate::body_links::wiki_record(s, 0, close, li);
    assert(rec.target == t && rec.alias == alias && rec.anchor == anchor);
    assert(scan_links(s, close + 2, li) =~= Seq::<BodyLinkModel>::empty());
    assert(scan_links(s, 0, li) =~= seq![rec]);
}

proof fn lemma_bracket_end_plain(c: Seq<char>, i: int, k: int)
    requires
        0 <= i <= k < c.len(),
        c[k] == ']',
        forall|j: int| i <= j < k ==> c[j] != '[' && c[j] != ']',
    ensures
        crate::body_links::bracket_end(c, i, 1) == k + 1,
    decreases k - i,
{
    if i < k {
        lemma_bracket_end_plain(c, i + 1, k);
    } else {
        assert(crate::body_links::bracket_end(c, k + 1, 0) == k + 1);
    }
}

proof fn lemma_paren_end_plain(c: Seq<char>, i: int, k: int)
    requires
        0 <= i <= k < c.len(),
        c[k] == ')',
        forall|j: int| i <= j < k ==> c[j] != '(' && c[j] != ')',
    ensures
        crate::body_links::paren_end(c, i, 1) == k + 1,
    decreases k - i,
{
    if i < k {
        lemma_paren_end_plain(c, i + 1, k);
    } else {
        assert(crate::body_links::paren_end(c, k + 1, 0) == k + 1);
    }
}

/// Renaming a canonical markdown reference round-trips: scanning the
/// replacement text finds exactly one markdown link with the same target
/// and anchor, carrying the written label as its alias, and replacing it
/// again with the same target reproduces the text letter for letter.
#[verifier::rlimit(100)]
pub proof fn lemma_md_rename_round_trip(
    t: Seq<char>,
    anchor: Option<Seq<char>>,
    alias: Option<Seq<char>>,
    li: int,
)
    requires
        t.len() > 0,
        trim_spec(t) == t,
        forall|j: int| 0 <= j < t.len() ==> t[j] != '#' && t[j] != '(' && t[j] != ')',
        match anchor {
            Some(h) => h.len() > 0 && trim_spec(h) == h && (forall|j: int|
                0 <= j < h.len() ==> h[j] != '(' && h[j] != ')'),
            None => true,
        },
        match alias {
            Some(a) => a.len() > 0 && trim_spec(a) == a && (forall|j: int|
                0 <= j < a.len() ==> a[j] != '[' && a[j] != ']'),
            None => true,
        },
        !crate::chartext::starts_with(
            t + (match anchor {
                Some(h) => seq!['#'] + h,
                None => Seq::<char>::empty(),
            }),
            "http://"@,
        ),
        !crate::chartext::starts_with(
            t + (match anchor {
                Some(h) => seq!['#'] + h,
                None => Seq::<char>::empty(),
            }),
            "https://"@,
        ),
    ensures
        ({
            let s = replacement_spec(RefFormat::Markdown, alias, anchor, t);
            let label = match alias {
                Some(a) => a,
                None => "link"@,
            };
            let links = scan_links(s, 0, li);
            &&& links.len() == 1
            &&& links[0].target == t
            &&& links[0].alias == Some(label)
            &&& links[0].anchor == anchor
            &&& links[0].format == LinkFormat::Markdown
            &&& replacement_spec(RefFormat::Markdown, links[0].alias, links[0].anchor, t) == s
        }),
{
    reveal_strlit("](");
    reveal_strlit("link");
    let s = replacement_spec(RefFormat::Markdown, alias, anchor, t);
    let path = t + (match anchor {
        Some(h) => seq!['#'] + h,
        None => Seq::<char>::empty(),
    });
    let label = match alias {
        Some(a) => a,
        None => "link"@,
    };
    let ll = label.len() as int;
    let pl = path.len() as int;
    assert(s =~= seq!['['] + label + "]("@ + path + seq![')']);
    assert(s.len() == ll + pl + 4);
    assert(s[0] == '[');
    assert(s[ll + 1] == ']' && s[ll + 2] == '(');
    assert(s[s.len() - 1] == ')');
    if alias is Some {
        crate::chartext::lemma_trimmed_ends(alias.unwrap());
    }
    crate::chartext::lemma_trimmed_ends(t);
    if anchor is Some {
        crate::chartext::lemma_trimmed_ends(anchor.unwrap());
    }
    assert forall|j: int| 1 <= j < ll + 1 implies s[j] != '[' && s[j] != ']' by {
        assert(s[j] == label[j - 1]);
        if alias is None {
            assert(label[j - 1] != '[' && label[j - 1] != ']');
        }
    }
    assert(s[1] != '[');
    lemma_bracket_end_plain(s, 1, ll + 1);
    let be = ll + 2;
    assert forall|j: int| be + 1 <= j < be + 1 + pl implies s[j] != '(' && s[j] != ')' by {
        assert(s[j] == path[j - be - 1]);
        let q = j - be - 1;
        if q < t.len() {
            assert(path[q] == t[q]);
        } else {
            let h = anchor.unwrap();
            if q == t.len() {
                assert(path[q] == '#');
            } else {
                assert(path[q] == h[q - t.len() - 1]);
            }
        }
    }
    lemma_paren_end_plain(s, be + 1, be + 1 + pl);
    let pe = be + 2 + pl;
    assert(pe == s.len() as int);
    // the record's fields
    assert(s.subrange(be + 1, pe - 1) =~= path);
    assert(trim_spec(path) == path) by {
        match anchor {
            Some(h) => {
                assert(path[0] == t[0]);
                assert(path[path.len() - 1] == h[h.len() - 1]);
                crate::chartext::lemma_trim_noop(path);
            },
            None => {
                assert(path =~= t);
            },
        }
    }
    let ta = crate::body_links::split_anchor_spec(path);
    assert(ta.0 == t && ta.1 == anchor) by {
        match anchor {
            Some(h) => {
                assert(path[t.len() as int] == '#');
                assert(forall|j: int| 0 <= j < t.len() ==> path[j] == t[j]);
                crate::chartext::lemma_find_at(path, 0, t.len() as int, '#');
                assert(path.subrange(0, t.len() as int) =~= t);
                assert(path.subrange(t.len() as int + 1, path.len() as int) =~= h);
            },
            None => {
                assert(path =~= t);
                crate::chartext::lemma_find_absent(t, 0, '#');
                assert(path.subrange(0, path.len() as int) =~= t);
            },
        }
    }
    // the written label comes back as the alias
    assert(s.subrange(1, be - 1) =~= label);
    assert(trim_spec(label) == label) by {
        match alias {
            Some(a) => {},
            None => {
                assert(!crate::chartext::is_ws(label[0]));
                assert(!crate::chartext::is_ws(label[label.len() - 1]));
                crate::chartext::lemma_trim_noop(label);
            },
        }
    }
    let rp = crate::body_links::md_record(s, 0, be, pe, li);
    assert(!rp.1);
    assert(rp.0.target == t && rp.0.alias == Some(label) && rp.0.anchor == anchor);
    assert(scan_links(s, pe, li) =~= Seq::<BodyLinkModel>::empty());
    assert(!(1 < s.len() && s[0] == '[' && s[1] == '['));
    assert(scan_links(s, 0, li) =~= seq![rp.0]);
}

/// The model of one found reference: its span, format, alias and anchor.
pub open spec fn found_ref_view(f: FoundRef) -> (
    (int, int),
    (int, int),
    RefFormat,
    Option<Seq<char>>,
    Option<Seq<char>>,
) {
    (
        (f.range.start.line as int, f.range.start.character as int),
        (f.range.end.line as int, f.range.end.character as int),
        f.format,
        opt_view(f.alias),
        opt_view(f.anchor),
    )
}

/// The models of a reference list.
pub open spec fn refs_view(v: Seq<FoundRef>) -> Seq<
    ((int, int), (int, int), RefFormat, Option<Seq<char>>, Option<Seq<char>>),
> {
    v.map_values(|f: FoundRef| found_ref_view(f))
}

/// The reference a body link record becomes.
pub open spec fn ref_of_link(l: BodyLinkModel) -> (
    (int, int),
    (int, int),
    RefFormat,
    Option<Seq<char>>,
    Option<Seq<char>>,
) {
    (
        (l.start_line, l.start_col),
        (l.end_line, l.end_col),
        match l.format {
            LinkFormat::Wikilink => RefFormat::Wikilink,
            LinkFormat::Markdown => RefFormat::Markdown,
        },
        l.alias,
        l.anchor,
    )
}

/// The body links (from `j` on) that resolve to `target`.
pub open spec fn body_refs(
    exts: Seq<Seq<char>>,
    known: Seq<Seq<char>>,
    links: Seq<BodyLinkModel>,
    j: int,
    source_rel: Seq<char>,
    target: Seq<char>,
) -> Seq<((int, int), (int, int), RefFormat, Option<Seq<char>>, Option<Seq<char>>)>
    decreases links.len() - j,
{
    if j < 0 || j >= links.len() {
        Seq::empty()
    } else {
        let rest = body_refs(exts, known, links, j + 1, source_rel, target);
        if crate::resolve::resolve_spec(exts, known, links[j].target, Some(source_rel)) == Some(
            target,
        ) {
            seq![ref_of_link(links[j])] + rest
        } else {
            rest
        }
    }
}

/// The frontmatter value lines in `[i, last]` that resolve to `target`.
pub open spec fn fm_refs(
    exts: Seq<Seq<char>>,
    known: Seq<Seq<char>>,
    ls: Seq<Seq<char>>,
    i: int,
    last: int,
    source_rel: Seq<char>,
    target: Seq<char>,
) -> Seq<((int, int), (int, int), RefFormat, Option<Seq<char>>, Option<Seq<char>>)>
    decreases last + 1 - i,
{
    if i < 0 || i > last || i >= ls.len() {
        Seq::empty()
    } else {
        let rest = fm_refs(exts, known, ls, i + 1, last, source_rel, target);
        let hit = match crate::text::value_from_line_spec(ls[i], ls[i].len() as int) {
            Some(v) => match crate::resolve::parse_link_value_spec(v) {
                Some(p) => crate::resolve::resolve_spec(exts, known, p, Some(source_rel)) == Some(
                    target,
                ),
                None => false,
            },
            None => false,
        };
        if hit {
            seq![
                (
                    (i, 0int),
                    (i, ls[i].len() as int),
                    RefFormat::FrontmatterValue,
                    Option::<Seq<char>>::None,
                    Option::<Seq<char>>::None,
                ),
            ] + rest
        } else {
            rest
        }
    }
}

/// Every reference to `target` in one file's text: resolving body links
/// first, then resolving frontmatter link values, in line order.
pub open spec fn find_refs_spec(
    exts: Seq<Seq<char>>,
    known: Seq<Seq<char>>,
    s: Seq<char>,
    source_rel: Seq<char>,
    target: Seq<char>,
) -> Seq<((int, int), (int, int), RefFormat, Option<Seq<char>>, Option<Seq<char>>)> {
    let body = body_refs(
        exts,
        known,
        crate::body_links::find_body_links_spec(s),
        0,
        source_rel,
        target,
    );
    let fm = match crate::text::fm_bounds_spec(crate::lines::lines_spec(s)) {
        Some((a, b)) => fm_refs(exts, known, crate::lines::lines_spec(s), a, b, source_rel, target),
        None => Seq::empty(),
    };
    body + fm
}

/// Find every reference to `target_rel` in one file, per `find_refs_spec`.
pub fn find_references_in_text(
    settings: &crate::resolve::Settings,
    known: &Vec<String>,
    text: &str,
    source_rel: &str,
    target_rel: &str,
) -> (r: Vec<FoundRef>)
    requires
        text@.len() < usize::MAX / 2,
    ensures
        refs_view(r@) == find_refs_spec(
            crate::resolve::strs_view(settings.extensions@),
            crate::resolve::strs_view(known@),
            text@,
            source_rel@,
            target_rel@,
        ),
{
    let ghost exts = crate::resolve::strs_view(settings.extensions@);
    let ghost ks = crate::resolve::strs_view(known@);
    let tv = crate::chartext::chars_vec(target_rel);
    let links = crate::body_links::find_body_links(text);
    let ghost lm = crate::body_links::find_body_links_spec(text@);
    let mut out: Vec<FoundRef> = Vec::new();
    proof {
        assert(refs_view(out@) =~= Seq::<
            ((int, int), (int, int), RefFormat, Option<Seq<char>>, Option<Seq<char>>),
        >::empty());
    }
    let mut j: usize = 0;
    while j < links.len()
        invariant
            0 <= j <= links@.len(),
            crate::body_links::links_view(links@) == lm,
            tv@ == target_rel@,
            exts == crate::resolve::strs_view(settings.extensions@),
            ks == crate::resolve::strs_view(known@),
            body_refs(exts, ks, lm, 0, source_rel@, target_rel@) == refs_view(out@) + body_refs(
                exts,
                ks,
                lm,
                j as int,
                source_rel@,
                target_rel@,
            ),
        decreases links@.len() - j,
    {
        proof {
            assert(crate::body_links::links_view(links@)[j as int] == links@[j as int]@);
        }
        let link = &links[j];
        let resolved = crate::resolve::resolve_link_target(
            settings,
            known,
            link.target.as_str(),
            Some(source_rel),
        );
        let hit: bool = match &resolved {
            Some(p) => {
                let pv = crate::chartext::chars_vec(p.as_str());
                crate::resolve::chars_eq(&pv, &tv)
            },
            None => false,
        };
        proof {
            assert(hit == (crate::resolve::resolve_spec(exts, ks, lm[j as int].target, Some(
                source_rel@,
            )) == Some(target_rel@)));
        }
        if hit {
            let ghost prev = out@;
            let f = FoundRef {
                range: Range {
                    start: crate::protocol::Position {
                        line: link.start_line,
                        character: link.start_col,
                    },
                    end: crate::protocol::Position {
                        line: link.end_line,
                        character: link.end_col,
                    },
                },
                format: match link.format {
                    LinkFormat::Wikilink => RefFormat::Wikilink,
                    LinkFormat::Markdown => RefFormat::Markdown,
                },
                alias: crate::file_index::clone_opt_string(&link.alias),
                anchor: crate::file_index::clone_opt_string(&link.anchor),
            };
            out.push(f);
            proof {
                assert(found_ref_view(f) == ref_of_link(lm[j as int]));
                assert(refs_view(out@) =~= refs_view(prev).push(found_ref_view(f)));
                assert(refs_view(prev) + (seq![ref_of_link(lm[j as int])] + body_refs(
                    exts,
                    ks,
                    lm,
                    j + 1,
                    source_rel@,
                    target_rel@,
                )) =~= refs_view(out@) + body_refs(exts, ks, lm, j + 1, source_rel@, target_rel@));
            }
        }
        j = j + 1;
    }
    proof {
        assert(body_refs(exts, ks, lm, j as int, source_rel@, target_rel@) =~= Seq::<
            ((int, int), (int, int), RefFormat, Option<Seq<char>>, Option<Seq<char>>),
        >::empty());
        assert(refs_view(out@) =~= body_refs(exts, ks, lm, 0, source_rel@, target_rel@));
    }
    let ghost body_part = refs_view(out@);
    let bounds = crate::text::frontmatter_bounds(text);
    match bounds {
        None => {
            proof {
                assert(refs_view(out@) =~= find_refs_spec(exts, ks, text@, source_rel@,
                    target_rel@));
            }
            out
        },
        Some((a, b)) => {
            let v = crate::chartext::chars_vec(text);
            let lsv = crate::lines::split_lines(&v);
            let ghost ls = crate::lines::lines_spec(text@);
            proof {
                assert(lsv@.map_values(|l: Vec<char>| l@) == ls);
                crate::code_actions::lemma_fm_bounds_valid(ls);
                crate::lines::lemma_lines_count(text@, 0);
            }
            let mut i: usize = a;
            while i <= b
                invariant
                    a <= i <= b + 1,
                    b + 1 < ls.len(),
                    b < usize::MAX,
                    ls == lsv@.map_values(|l: Vec<char>| l@),
                    forall|q: int| 0 <= q < lsv@.len() ==> #[trigger] lsv@[q]@ == ls[q],
                    tv@ == target_rel@,
                    exts == crate::resolve::strs_view(settings.extensions@),
                    ks == crate::resolve::strs_view(known@),
                    body_part + fm_refs(exts, ks, ls, a as int, b as int, source_rel@, target_rel@)
                        == refs_view(out@) + fm_refs(
                        exts,
                        ks,
                        ls,
                        i as int,
                        b as int,
                        source_rel@,
                        target_rel@,
                    ),
                decreases b + 1 - i,
            {
                let line = &lsv[i];
                let line_str = crate::chartext::string_range(line, 0, line.len());
                proof {
                    assert(line@.subrange(0, line@.len() as int) =~= line@);
                }
                let value = crate::text::value_from_frontmatter_line(line_str.as_str(), line.len());
                let hit: bool = match &value {
                    Some(val) => {
                        match crate::resolve::parse_link_value(val.as_str()) {
                            Some(p) => {
                                match crate::resolve::resolve_link_target(
                                    settings,
                                    known,
                                    p.as_str(),
                                    Some(source_rel),
                                ) {
                                    Some(res) => {
                                        let rv = crate::chartext::chars_vec(res.as_str());
                                        crate::resolve::chars_eq(&rv, &tv)
                                    },
                                    None => false,
                                }
                            },
                            None => false,
                        }
                    },
                    None => false,
                };
                if hit {
                    let ghost prev = out@;
                    let f = FoundRef {
                        range: Range {
                            start: crate::protocol::Position { line: i, character: 0 },
                            end: crate::protocol::Position { line: i, character: line.len() },
                        },
                        format: RefFormat::FrontmatterValue,
                        alias: None,
                        anchor: None,
                    };
                    out.push(f);
                    proof {
                        assert(refs_view(out@) =~= refs_view(prev).push(found_ref_view(f)));
                        assert(refs_view(prev) + (seq![found_ref_view(f)] + fm_refs(
                            exts,
                            ks,
                            ls,
                            i + 1,
                            b as int,
                            source_rel@,
                            target_rel@,
                        )) =~= refs_view(out@) + fm_refs(
                            exts,
                            ks,
                            ls,
                            i + 1,
                            b as int,
                            source_rel@,
                            target_rel@,
                        ));
                    }
                }
                i = i + 1;
            }
            proof {
                assert(fm_refs(exts, ks, ls, i as int, b as int, source_rel@, target_rel@) =~= Seq::<
                    ((int, int), (int, int), RefFormat, Option<Seq<char>>, Option<Seq<char>>),
                >::empty());
                assert(refs_view(out@) =~= find_refs_spec(exts, ks, text@, source_rel@,
                    target_rel@));
            }
            out
        },
    }
}

/// The symbol under the cursor: the resolved target of the body link at the
/// position, or of the frontmatter link value on that line.
pub open spec fn symbol_at_spec(
    exts: Seq<Seq<char>>,
    known: Seq<Seq<char>>,
    s: Seq<char>,
    source_rel: Seq<char>,
    line: int,
    col: int,
) -> Option<(Seq<char>, ((int, int), (int, int)))> {
    match crate::body_links::body_link_at_spec(s, line, col) {
        Some(l) => match crate::resolve::resolve_spec(exts, known, l.target, Some(source_rel)) {
            Some(rel) => Some(
                (rel, ((l.start_line, l.start_col), (l.end_line, l.end_col))),
            ),
            None => None,
        },
        None => {
            if crate::text::in_frontmatter_spec(s, line) {
                let ls = crate::lines::lines_spec(s);
                if 0 <= line < ls.len() {
                    match crate::text::value_from_line_spec(ls[line], col) {
                        Some(v) => match crate::resolve::parse_link_value_spec(v) {
                            Some(p) => match crate::resolve::resolve_spec(
                                exts,
                                known,
                                p,
                                Some(source_rel),
                            ) {
                                Some(rel) => Some(
                                    (rel, ((line, 0int), (line, ls[line].len() as int))),
                                ),
                                None => None,
                            },
                            None => None,
                        },
                        None => None,
                    }
                } else {
                    None
                }
            } else {
                None
            }
        },
    }
}

/// Find the rename symbol at a position, per `symbol_at_spec`.
pub fn symbol_at_position(
    settings: &crate::resolve::Settings,
    known: &Vec<String>,
    text: &str,
    source_rel: &str,
    line: usize,
    col: usize,
) -> (r: Option<(String, Range)>)
    requires
        text@.len() < usize::MAX / 2,
    ensures
        ({
            let spec_r = symbol_at_spec(
                crate::resolve::strs_view(settings.extensions@),
                crate::resolve::strs_view(known@),
                text@,
                source_rel@,
                line as int,
                col as int,
            );
            match r {
                Some((t, rg)) => spec_r == Some(
                    (
                        t@,
                        (
                            (rg.start.line as int, rg.start.character as int),
                            (rg.end.line as int, rg.end.character as int),
                        ),
                    ),
                ),
                None => spec_r is None,
            }
        }),
{
    match crate::body_links::body_link_at(text, line, col) {
        Some(l) => {
            match crate::resolve::resolve_link_target(
                settings,
                known,
                l.target.as_str(),
                Some(source_rel),
            ) {
                Some(rel) => Some(
                    (
                        rel,
                        Range {
                            start: crate::protocol::Position {
                                line: l.start_line,
                                character: l.start_col,
                            },
                            end: crate::protocol::Position {
                                line: l.end_line,
                                character: l.end_col,
                            },
                        },
                    ),
                ),
                None => None,
            }
        },
        None => {
            if !crate::text::is_in_frontmatter(text, line) {
                return None;
            }
            let v = crate::chartext::chars_vec(text);
            let lsv = crate::lines::split_lines(&v);
            let ghost ls = crate::lines::lines_spec(text@);
            proof {
                assert(lsv@.map_values(|l: Vec<char>| l@) == ls);
            }
            if line >= lsv.len() {
                return None;
            }
            proof {
                assert(lsv@.map_values(|l: Vec<char>| l@)[line as int] == lsv@[line as int]@);
            }
            let lv = &lsv[line];
            let line_str = crate::chartext::string_range(lv, 0, lv.len());
            proof {
                assert(lv@.subrange(0, lv@.len() as int) =~= lv@);
            }
            let value = match crate::text::value_from_frontmatter_line(line_str.as_str(), col) {
                Some(val) => val,
                None => {
                    return None;
                },
            };
            let parsed = match crate::resolve::parse_link_value(value.as_str()) {
                Some(p) => p,
                None => {
                    return None;
                },
            };
            match crate::resolve::resolve_link_target(
                settings,
                known,
                parsed.as_str(),
                Some(source_rel),
            ) {
                Some(rel) => Some(
                    (
                        rel,
                        Range {
                            start: crate::protocol::Position { line, character: 0 },
                            end: crate::protocol::Position { line, character: lv.len() },
                        },
                    ),
                ),
                None => None,
            }
        },
    }
}

/// How many references in `locs` sit at the declaration site.
pub open spec fn count_decl(locs: Seq<(Seq<char>, Range)>, decl: (Seq<char>, Range)) -> int
    decreases locs.len(),
{
    if locs.len() == 0 {
        0
    } else {
        (if locs[0] == decl {
            1int
        } else {
            0int
        }) + count_decl(locs.drop_first(), decl)
    }
}

/// `locs` without the references at the declaration site.
pub open spec fn drop_decl(locs: Seq<(Seq<char>, Range)>, decl: (Seq<char>, Range)) -> Seq<
    (Seq<char>, Range),
>
    decreases locs.len(),
{
    if locs.len() == 0 {
        locs
    } else if locs[0] == decl {
        drop_decl(locs.drop_first(), decl)
    } else {
        seq![locs[0]] + drop_decl(locs.drop_first(), decl)
    }
}

/// The views of a location list (file and span of each reference).
pub open spec fn locs_view(v: Seq<(String, Range)>) -> Seq<(Seq<char>, Range)> {
    v.map_values(|l: (String, Range)| (l.0@, l.1))
}

/// Drop the declaration site from a reference list, keeping the order of
/// the rest, per `drop_decl`.
pub fn exclude_declaration(locs: Vec<(String, Range)>, decl_uri: &str, decl_range: Range) -> (r:
    Vec<(String, Range)>)
    ensures
        locs_view(r@) == drop_decl(locs_view(locs@), (decl_uri@, decl_range)),
{
    let ghost decl = (decl_uri@, decl_range);
    let ghost orig = locs_view(locs@);
    let dv = chars_vec(decl_uri);
    let mut out: Vec<(String, Range)> = Vec::new();
    proof {
        assert(locs_view(out@) =~= Seq::<(Seq<char>, Range)>::empty());
        assert(orig.skip(0) =~= orig);
    }
    let mut i: usize = 0;
    while i < locs.len()
        invariant
            0 <= i <= locs@.len(),
            dv@ == decl_uri@,
            decl == (decl_uri@, decl_range),
            orig == locs_view(locs@),
            drop_decl(orig, decl) == locs_view(out@) + drop_decl(orig.skip(i as int), decl),
        decreases locs@.len() - i,
    {
        proof {
            assert(locs_view(locs@)[i as int] == (locs@[i as int].0@, locs@[i as int].1));
            assert(orig.skip(i as int)[0] == orig[i as int]);
            assert(orig.skip(i as int).drop_first() =~= orig.skip(i + 1));
        }
        let uv = chars_vec(locs[i].0.as_str());
        let matches_decl = crate::resolve::chars_eq(&uv, &dv) && locs[i].1 == decl_range;
        if !matches_decl {
            let ghost prev = out@;
            let uri_copy = locs[i].0.clone();
            let range_copy = locs[i].1;
            out.push((uri_copy, range_copy));
            proof {
                assert(locs_view(out@) =~= locs_view(prev).push(orig[i as int]));
                assert(locs_view(prev) + (seq![orig[i as int]] + drop_decl(
                    orig.skip(i + 1),
                    decl,
                )) =~= locs_view(out@) + drop_decl(orig.skip(i + 1), decl));
            }
        }
        i = i + 1;
    }
    proof {
        assert(orig.skip(i as int).len() == 0);
        assert(drop_decl(orig.skip(i as int), decl) =~= Seq::<(Seq<char>, Range)>::empty());
        assert(locs_view(out@) =~= drop_decl(orig, decl));
    }
    out
}

/// Dropping the declaration removes exactly its occurrences: the list
/// shrinks by one entry when the declaration occurs once, and not at all
/// when it is absent.
pub proof fn lemma_references_count(locs: Seq<(Seq<char>, Range)>, decl: (Seq<char>, Range))
    ensures
        drop_decl(locs, decl).len() == locs.len() - count_decl(locs, decl),
        count_decl(locs, decl) >= 0,
        (count_decl(locs, decl) == 0 <==> !locs.contains(decl)),
    decreases locs.len(),
{
    if locs.len() == 0 {
        assert(!locs.contains(decl)) by {
            if locs.contains(decl) {
                let w = choose|w: int| 0 <= w < locs.len() && locs[w] == decl;
            }
        }
    } else {
        lemma_references_count(locs.drop_first(), decl);
        if locs[0] == decl {
            assert(locs.contains(decl));
        } else {
            if locs.contains(decl) {
                let w = choose|w: int| 0 <= w < locs.len() && locs[w] == decl;
                assert(locs.drop_first()[w - 1] == decl);
                assert(locs.drop_first().contains(decl));
            }
            if locs.drop_first().contains(decl) {
                let w = choose|w: int|
                    0 <= w < locs.drop_first().len() && locs.drop_first()[w] == decl;
                assert(locs[w + 1] == decl);
                assert(locs.contains(decl));
            }
        }
    }
}

} // verus!
