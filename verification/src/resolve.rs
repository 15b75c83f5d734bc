//! Link-target resolution: `.`/`..` normalization, the three exclude-pattern
//! shapes, extension rules, frontmatter link values, and the resolver that
//! maps a link text to a known collection-relative path.

use vstd::prelude::*;

use crate::chartext::{
    chars_vec, ends_with, find_char_from, find_from, lemma_find_from_bounds, push_char,
    range_eq_str, range_starts_with_str, starts_with, string_range, trim_range_vec, trim_spec,
    vec_range,
};

verus! {

/// The collection settings the resolver reads: folder names, extra file
/// extensions, exclusion patterns, and whether subfolders are indexed.
pub struct Settings {
    pub types_folder: String,
    pub cache_folder: String,
    pub extensions: Vec<String>,
    pub include_subfolders: bool,
    pub exclude: Vec<String>,
}

/// The views of a vector of strings.
pub open spec fn strs_view(v: Seq<String>) -> Seq<Seq<char>> {
    v.map_values(|s: String| s@)
}

/// Whether `path` lies strictly inside the directory `dir`.
pub open spec fn starts_with_dir(path: Seq<char>, dir: Seq<char>) -> bool {
    path.len() > dir.len() && path.subrange(0, dir.len() as int) == dir && path[dir.len() as int]
        == '/'
}

/// One segment appended to a normalized segment stack: `.` and empty vanish,
/// `..` pops unless the stack is empty or ends in `..`.
pub open spec fn push_seg(acc: Seq<Seq<char>>, seg: Seq<char>) -> Seq<Seq<char>> {
    if seg.len() == 0 || seg == "."@ {
        acc
    } else if seg == ".."@ {
        if acc.len() == 0 || acc.last() == ".."@ {
            acc.push(seg)
        } else {
            acc.drop_last()
        }
    } else {
        acc.push(seg)
    }
}

/// The normalized segments of `s[i..]`, accumulated onto `acc`.
pub open spec fn norm_segs(s: Seq<char>, i: int, acc: Seq<Seq<char>>) -> Seq<Seq<char>>
    decreases s.len() - i,
    via norm_segs_decreases
{
    if i < 0 || i > s.len() {
        acc
    } else {
        let j = find_from(s, i, '/');
        let acc2 = push_seg(acc, s.subrange(i, j));
        if j >= s.len() {
            acc2
        } else {
            norm_segs(s, j + 1, acc2)
        }
    }
}

#[via_fn]
proof fn norm_segs_decreases(s: Seq<char>, i: int, acc: Seq<Seq<char>>) {
    if 0 <= i && i <= s.len() {
        lemma_find_from_bounds(s, i, '/');
    }
}

/// Segments joined with `/` separators.
pub open spec fn join_slash(parts: Seq<Seq<char>>) -> Seq<char>
    decreases parts.len(),
{
    if parts.len() == 0 {
        Seq::empty()
    } else if parts.len() == 1 {
        parts[0]
    } else {
        join_slash(parts.drop_last()) + seq!['/'] + parts.last()
    }
}

/// A path with `.` and `..` segments resolved; all segments gone gives `.`.
pub open spec fn normalize_spec(s: Seq<char>) -> Seq<char> {
    let parts = norm_segs(s, 0, Seq::empty());
    if parts.len() == 0 {
        "."@
    } else {
        join_slash(parts)
    }
}

/// Append `suffix` to `s`.
pub fn append_chars(s: &mut Vec<char>, suffix: &Vec<char>)
    ensures
        final(s)@ == old(s)@ + suffix@,
{
    let mut i: usize = 0;
    while i < suffix.len()
        invariant
            0 <= i <= suffix@.len(),
            s@ == old(s)@ + suffix@.subrange(0, i as int),
        decreases suffix@.len() - i,
    {
        s.push(suffix[i]);
        proof {
            assert(s@ =~= old(s)@ + suffix@.subrange(0, (i + 1) as int));
        }
        i = i + 1;
    }
    proof {
        assert(s@ =~= old(s)@ + suffix@);
    }
}

/// Normalize the `.` and `..` segments of a path, per `normalize_spec`.
pub fn normalize_path_segments(path: &str) -> (r: String)
    ensures
        r@ == normalize_spec(path@),
{
    let v = chars_vec(path);
    let ghost s = v@;
    let mut parts: Vec<Vec<char>> = Vec::new();
    proof {
        assert(parts@.map_values(|p: Vec<char>| p@) =~= Seq::<Seq<char>>::empty());
    }
    let mut i: usize = 0;
    while i < v.len()
        invariant
            0 <= i <= s.len(),
            s == v@,
            norm_segs(s, 0, Seq::empty()) == norm_segs(
                s,
                i as int,
                parts@.map_values(|p: Vec<char>| p@),
            ),
        decreases s.len() - i,
    {
        let ghost i0 = i as int;
        let ghost acc = parts@.map_values(|p: Vec<char>| p@);
        let j = find_char_from(&v, i, '/');
        let seg = vec_range(&v, i, j);
        proof {
            assert(seg@.subrange(0, seg@.len() as int) =~= seg@);
        }
        let ghost acc2 = push_seg(acc, s.subrange(i as int, j as int));
        if seg.len() == 0 || range_eq_str(&seg, 0, seg.len(), ".") {
            proof {
                assert(seg@.subrange(0, seg@.len() as int) =~= seg@);
                assert(acc2 == acc);
            }
        } else if range_eq_str(&seg, 0, seg.len(), "..") {
            proof {
                assert(seg@.subrange(0, seg@.len() as int) =~= seg@);
            }
            let plen = parts.len();
            if plen == 0 || range_eq_str(&parts[plen - 1], 0, parts[plen - 1].len(), "..") {
                proof {
                    if parts@.len() > 0 {
                        let lastp = parts@[parts@.len() - 1]@;
                        assert(lastp.subrange(0, lastp.len() as int) =~= lastp);
                        assert(acc.last() == lastp);
                    }
                }
                parts.push(seg);
                proof {
                    assert(parts@.map_values(|p: Vec<char>| p@) =~= acc.push(
                        s.subrange(i0, j as int),
                    ));
                }
            } else {
                proof {
                    let lastp = parts@[parts@.len() - 1]@;
                    assert(lastp.subrange(0, lastp.len() as int) =~= lastp);
                    assert(acc.last() == lastp);
                }
                let _ = parts.pop();
                proof {
                    assert(parts@.map_values(|p: Vec<char>| p@) =~= acc.drop_last());
                }
            }
        } else {
            parts.push(seg);
            proof {
                assert(parts@.map_values(|p: Vec<char>| p@) =~= acc.push(s.subrange(i0, j as int)));
            }
        }
        proof {
            assert(parts@.map_values(|p: Vec<char>| p@) =~= acc2);
            if j < s.len() {
                assert(norm_segs(s, i0, acc) == norm_segs(s, j + 1, acc2));
            } else {
                assert(norm_segs(s, i0, acc) == acc2);
                assert(s.subrange(s.len() as int, s.len() as int).len() == 0);
                assert(push_seg(acc2, s.subrange(s.len() as int, s.len() as int)) == acc2);
                assert(norm_segs(s, s.len() as int, acc2) == acc2);
            }
        }
        if j < v.len() {
            i = j + 1;
        } else {
            i = v.len();
        }
    }
    proof {
        let accv = parts@.map_values(|p: Vec<char>| p@);
        assert(s.subrange(s.len() as int, s.len() as int).len() == 0);
        assert(push_seg(accv, s.subrange(s.len() as int, s.len() as int)) == accv);
        assert(norm_segs(s, s.len() as int, accv) == accv);
    }
    let ghost fparts = parts@.map_values(|p: Vec<char>| p@);
    if parts.len() == 0 {
        let mut r = String::new();
        push_char(&mut r, '.');
        proof {
            assert(r@ =~= "."@) by {
                reveal_strlit(".");
            }
        }
        return r;
    }
    let mut out: Vec<char> = Vec::new();
    let mut k: usize = 0;
    while k < parts.len()
        invariant
            0 <= k <= parts@.len(),
            parts@.len() > 0,
            fparts == parts@.map_values(|p: Vec<char>| p@),
            k == 0 ==> out@ =~= Seq::<char>::empty(),
            k > 0 ==> out@ == join_slash(fparts.subrange(0, k as int)),
        decreases parts@.len() - k,
    {
        if k > 0 {
            out.push('/');
        }
        append_chars(&mut out, &parts[k]);
        proof {
            assert(fparts.subrange(0, (k + 1) as int).drop_last() =~= fparts.subrange(
                0,
                k as int,
            ));
            assert(fparts.subrange(0, (k + 1) as int).last() == fparts[k as int]);
            if k > 0 {
                assert(out@ =~= join_slash(fparts.subrange(0, (k + 1) as int)));
            } else {
                assert(out@ =~= fparts[0]);
                assert(join_slash(fparts.subrange(0, 1)) == fparts.subrange(0, 1)[0]);
                assert(fparts.subrange(0, 1)[0] == fparts[0]);
            }
        }
        k = k + 1;
    }
    proof {
        assert(fparts.subrange(0, fparts.len() as int) =~= fparts);
    }
    string_range(&out, 0, out.len())
}

/// The three supported pattern shapes: `prefix/**`, `*.ext`, `a*b`, and the
/// literal prefix-or-equality fallback.
pub open spec fn match_glob_spec(pattern: Seq<char>, path: Seq<char>) -> bool {
    if ends_with(pattern, "/**"@) {
        let prefix = pattern.subrange(0, pattern.len() - 3);
        starts_with_dir(path, prefix) || path == prefix
    } else if starts_with(pattern, "*."@) {
        ends_with(path, pattern.subrange(1, pattern.len() as int))
    } else if find_from(pattern, 0, '*') < pattern.len() {
        let k = find_from(pattern, 0, '*');
        if find_from(pattern, k + 1, '*') >= pattern.len() {
            starts_with(path, pattern.subrange(0, k)) && ends_with(
                path,
                pattern.subrange(k + 1, pattern.len() as int),
            )
        } else {
            false
        }
    } else {
        path == pattern || starts_with_dir(path, pattern)
    }
}

/// Whether `v[..]` starts with the directory prefix `v2` (per
/// `starts_with_dir`).
pub fn starts_with_dir_exec(path: &Vec<char>, dir: &Vec<char>) -> (r: bool)
    ensures
        r == starts_with_dir(path@, dir@),
{
    if path.len() <= dir.len() {
        return false;
    }
    if path[dir.len()] != '/' {
        return false;
    }
    let mut i: usize = 0;
    while i < dir.len()
        invariant
            0 <= i <= dir@.len() < path@.len(),
            forall|q: int| 0 <= q < i ==> path@[q] == dir@[q],
        decreases dir@.len() - i,
    {
        if path[i] != dir[i] {
            proof {
                assert(path@.subrange(0, dir@.len() as int)[i as int] != dir@[i as int]);
            }
            return false;
        }
        i = i + 1;
    }
    proof {
        assert(path@.subrange(0, dir@.len() as int) =~= dir@);
    }
    true
}

/// Whether two character buffers hold the same text.
pub fn chars_eq(a: &Vec<char>, b: &Vec<char>) -> (r: bool)
    ensures
        r == (a@ == b@),
{
    if a.len() != b.len() {
        return false;
    }
    let mut i: usize = 0;
    while i < a.len()
        invariant
            0 <= i <= a@.len(),
            a@.len() == b@.len(),
            forall|q: int| 0 <= q < i ==> a@[q] == b@[q],
        decreases a@.len() - i,
    {
        if a[i] != b[i] {
            return false;
        }
        i = i + 1;
    }
    proof {
        assert(a@ =~= b@);
    }
    true
}

/// Whether `path` ends with the characters of `suffix`.
pub fn ends_with_chars(path: &Vec<char>, suffix: &Vec<char>) -> (r: bool)
    ensures
        r == ends_with(path@, suffix@),
{
    if suffix.len() > path.len() {
        return false;
    }
    let base = path.len() - suffix.len();
    let mut i: usize = 0;
    while i < suffix.len()
        invariant
            0 <= i <= suffix@.len() <= path@.len(),
            path@.len() <= usize::MAX,
            base == path@.len() - suffix@.len(),
            forall|q: int| 0 <= q < i ==> path@[base + q] == suffix@[q],
        decreases suffix@.len() - i,
    {
        if path[base + i] != suffix[i] {
            proof {
                assert(path@.subrange(path@.len() - suffix@.len(), path@.len() as int)[i as int]
                    != suffix@[i as int]);
            }
            return false;
        }
        i = i + 1;
    }
    proof {
        assert(path@.subrange(path@.len() - suffix@.len(), path@.len() as int) =~= suffix@);
    }
    true
}

/// Whether `path` starts with the characters of `prefix`.
pub fn starts_with_chars(path: &Vec<char>, prefix: &Vec<char>) -> (r: bool)
    ensures
        r == starts_with(path@, prefix@),
{
    if prefix.len() > path.len() {
        return false;
    }
    let mut i: usize = 0;
    while i < prefix.len()
        invariant
            0 <= i <= prefix@.len() <= path@.len(),
            forall|q: int| 0 <= q < i ==> path@[q] == prefix@[q],
        decreases prefix@.len() - i,
    {
        if path[i] != prefix[i] {
            proof {
                assert(path@.subrange(0, prefix@.len() as int)[i as int] != prefix@[i as int]);
            }
            return false;
        }
        i = i + 1;
    }
    proof {
        assert(path@.subrange(0, prefix@.len() as int) =~= prefix@);
    }
    true
}

/// Match one exclude pattern against a path, per `match_glob_spec`.
pub fn match_glob_pattern(pattern: &str, path: &str) -> (r: bool)
    ensures
        r == match_glob_spec(pattern@, path@),
{
    let pv = chars_vec(pattern);
    let wv = chars_vec(path);
    proof {
        assert(pv@.subrange(0, pv@.len() as int) =~= pv@);
        assert(wv@.subrange(0, wv@.len() as int) =~= wv@);
        reveal_strlit("/**");
        reveal_strlit("*.");
    }
    if range_ends_with(&pv, "/**") {
        let prefix = vec_range(&pv, 0, pv.len() - 3);
        return starts_with_dir_exec(&wv, &prefix) || chars_eq(&wv, &prefix);
    }
    if range_starts_with_str(&pv, 0, pv.len(), "*.") {
        let suffix = vec_range(&pv, 1, pv.len());
        return ends_with_chars(&wv, &suffix);
    }
    let k = find_char_from(&pv, 0, '*');
    if k < pv.len() {
        let k2 = find_char_from(&pv, k + 1, '*');
        if k2 >= pv.len() {
            let pre = vec_range(&pv, 0, k);
            let suf = vec_range(&pv, k + 1, pv.len());
            return starts_with_chars(&wv, &pre) && ends_with_chars(&wv, &suf);
        }
        return false;
    }
    chars_eq(&wv, &pv) || starts_with_dir_exec(&wv, &pv)
}

/// Whether `v` ends with the characters of the literal `s`.
fn range_ends_with(v: &Vec<char>, s: &str) -> (r: bool)
    ensures
        r == ends_with(v@, s@),
{
    proof {
        assert(v@.subrange(0, v@.len() as int) =~= v@);
    }
    crate::chartext::range_ends_with_str(v, 0, v.len(), s)
}

/// The target a frontmatter link value names: wikilink, markdown link or
/// bare path; external URLs and empty targets give nothing.
pub open spec fn parse_link_value_spec(value: Seq<char>) -> Option<Seq<char>> {
    let v = trim_spec(value);
    if v.len() == 0 {
        None
    } else if starts_with(v, "[["@) && ends_with(v, "]]"@) {
        let inner = v.subrange(2, v.len() - 2);
        let t1 = inner.subrange(0, find_from(inner, 0, '|'));
        let t = t1.subrange(0, find_from(t1, 0, '#'));
        let target = trim_spec(t);
        if target.len() == 0 {
            None
        } else {
            Some(target)
        }
    } else if v[0] == '[' && crate::chartext::find2_from(v, 0, ']', '(') < v.len() && v[v.len()
        - 1] == ')' {
        let be = crate::chartext::find2_from(v, 0, ']', '(');
        let path = trim_spec(v.subrange(be + 2, v.len() - 1));
        if path.len() > 0 && !starts_with(path, "http://"@) && !starts_with(path, "https://"@) {
            let target = path.subrange(0, find_from(path, 0, '#'));
            if target.len() == 0 {
                None
            } else {
                Some(target)
            }
        } else {
            None
        }
    } else if starts_with(v, "http://"@) || starts_with(v, "https://"@) {
        None
    } else {
        Some(v)
    }
}

/// Parse a frontmatter link value, per `parse_link_value_spec`.
pub fn parse_link_value(value: &str) -> (r: Option<String>)
    ensures
        match r {
            Some(t) => parse_link_value_spec(value@) == Some(t@),
            None => parse_link_value_spec(value@) is None,
        },
{
    let vr = chars_vec(value);
    let v = trim_range_vec(&vr, 0, vr.len());
    proof {
        assert(vr@.subrange(0, vr@.len() as int) =~= vr@);
        assert(v@.subrange(0, v@.len() as int) =~= v@);
        reveal_strlit("[[");
        reveal_strlit("]]");
    }
    if v.len() == 0 {
        return None;
    }
    if range_starts_with_str(&v, 0, v.len(), "[[") && range_ends_with(&v, "]]") {
        proof {
            let n = v@.len() as int;
            assert(v@.subrange(0, 2)[0] == v@[0]);
            assert(v@.subrange(0, 2)[1] == v@[1]);
            assert(v@.subrange(n - 2, n)[0] == v@[n - 2]);
            assert(v@.subrange(n - 2, n)[1] == v@[n - 1]);
            assert(v@[0] == '[' && v@[1] == '[' && v@[n - 2] == ']' && v@[n - 1] == ']');
            assert(v@.len() >= 4);
        }
        let inner = vec_range(&v, 2, v.len() - 2);
        let p = find_char_from(&inner, 0, '|');
        let t1 = vec_range(&inner, 0, p);
        let h = find_char_from(&t1, 0, '#');
        let target = crate::chartext::trim_range_string(&t1, 0, h);
        if target.unicode_len() == 0 {
            return None;
        }
        return Some(target);
    }
    let be = crate::chartext::find2_char_from(&v, 0, ']', '(');
    if v[0] == '[' && be < v.len() && v[v.len() - 1] == ')' {
        let path = trim_range_vec(&v, be + 2, v.len() - 1);
        proof {
            assert(path@.subrange(0, path@.len() as int) =~= path@);
        }
        if path.len() > 0 && !range_starts_with_str(&path, 0, path.len(), "http://")
            && !range_starts_with_str(&path, 0, path.len(), "https://") {
            let h = find_char_from(&path, 0, '#');
            let target = string_range(&path, 0, h);
            if target.unicode_len() == 0 {
                return None;
            }
            return Some(target);
        }
        return None;
    }
    if range_starts_with_str(&v, 0, v.len(), "http://") || range_starts_with_str(
        &v,
        0,
        v.len(),
        "https://",
    ) {
        return None;
    }
    Some(string_range(&v, 0, v.len()))
}

/// What `str::to_lowercase` returns; the result depends on the characters
/// alone.
pub uninterp spec fn lower_of(s: Seq<char>) -> Seq<char>;

/// Relies on str::to_lowercase: Unicode lowercase of the characters, a
/// function of the input string alone.
#[verifier::external_body]
pub(crate) fn lower_str(s: &str) -> (r: String)
    ensures
        r@ == lower_of(s@),
{
    s.to_lowercase()
}

/// Last index at or below `i` holding `c`, or `-1`.
pub open spec fn rfind_below(s: Seq<char>, i: int, c: char) -> int
    decreases i + 1,
{
    if i < 0 {
        -1
    } else if i < s.len() && s[i] == c {
        i
    } else {
        rfind_below(s, i - 1, c)
    }
}

/// Last occurrence of `c` in `s`, or `-1`.
pub open spec fn rfind_char(s: Seq<char>, c: char) -> int {
    rfind_below(s, s.len() - 1, c)
}

/// Find the last occurrence of `c` in `v`.
pub fn rfind_char_exec(v: &Vec<char>, c: char) -> (r: Option<usize>)
    ensures
        match r {
            Some(k) => k == rfind_char(v@, c) && k < v@.len(),
            None => rfind_char(v@, c) == -1,
        },
{
    let mut i: usize = v.len();
    while i > 0
        invariant
            0 <= i <= v@.len(),
            rfind_char(v@, c) == rfind_below(v@, i - 1, c),
        decreases i,
    {
        if v[i - 1] == c {
            return Some(i - 1);
        }
        i = i - 1;
    }
    None
}

/// The file name of a path: everything after the last `/`.
pub open spec fn file_name_of(p: Seq<char>) -> Seq<char> {
    let k = rfind_char(p, '/');
    if k < 0 {
        p
    } else {
        p.subrange(k + 1, p.len() as int)
    }
}

/// The file stem: the name up to its last `.`, unless the dot leads.
pub open spec fn stem_of(p: Seq<char>) -> Seq<char> {
    let n = file_name_of(p);
    let d = rfind_char(n, '.');
    if d <= 0 {
        n
    } else {
        n.subrange(0, d)
    }
}

/// Compute the file stem of a path buffer.
pub fn stem_of_exec(p: &Vec<char>) -> (r: Vec<char>)
    ensures
        r@ == stem_of(p@),
{
    let n = p.len();
    let name: Vec<char> = match rfind_char_exec(p, '/') {
        Some(k) => vec_range(p, k + 1, n),
        None => vec_range(p, 0, n),
    };
    proof {
        assert(p@.subrange(0, p@.len() as int) =~= p@);
    }
    match rfind_char_exec(&name, '.') {
        Some(d) => {
            if d == 0 {
                proof {
                    assert(name@.subrange(0, name@.len() as int) =~= name@);
                }
                vec_range(&name, 0, name.len())
            } else {
                vec_range(&name, 0, d)
            }
        },
        None => {
            proof {
                assert(name@.subrange(0, name@.len() as int) =~= name@);
            }
            vec_range(&name, 0, name.len())
        },
    }
}

/// Whether `path` carries `.md` or one of the configured extensions.
pub open spec fn has_ext_spec(path: Seq<char>, exts: Seq<Seq<char>>) -> bool {
    ends_with(path, ".md"@) || exists|k: int|
        0 <= k < exts.len() && ends_with(path, seq!['.'] + exts[k])
}

/// Decide `has_ext_spec` for a path buffer.
pub fn has_known_extension(extensions: &Vec<String>, path: &Vec<char>) -> (r: bool)
    ensures
        r == has_ext_spec(path@, strs_view(extensions@)),
{
    if range_ends_with(path, ".md") {
        return true;
    }
    let ghost exts = strs_view(extensions@);
    let mut k: usize = 0;
    while k < extensions.len()
        invariant
            0 <= k <= extensions@.len(),
            exts == strs_view(extensions@),
            forall|q: int| 0 <= q < k ==> !ends_with(path@, seq!['.'] + exts[q]),
        decreases extensions@.len() - k,
    {
        let mut dot_ext: Vec<char> = Vec::new();
        dot_ext.push('.');
        let ev = chars_vec(extensions[k].as_str());
        append_chars(&mut dot_ext, &ev);
        proof {
            assert(dot_ext@ =~= seq!['.'] + exts[k as int]);
        }
        if ends_with_chars(path, &dot_ext) {
            return true;
        }
        k = k + 1;
    }
    false
}

/// The link text with wikilink wrapping, alias and anchor removed, trimmed.
pub open spec fn strip_target_spec(target: Seq<char>) -> Seq<char> {
    if starts_with(target, "[["@) && ends_with(target, "]]"@) {
        let inner = target.subrange(2, target.len() - 2);
        let t1 = inner.subrange(0, find_from(inner, 0, '|'));
        trim_spec(t1.subrange(0, find_from(t1, 0, '#')))
    } else {
        trim_spec(target.subrange(0, find_from(target, 0, '#')))
    }
}

/// The directory part of a relative path (empty for a bare name).
pub open spec fn parent_dir(s: Seq<char>) -> Seq<char> {
    let k = rfind_char(s, '/');
    if k < 0 {
        Seq::empty()
    } else {
        s.subrange(0, k)
    }
}

/// The normalized candidate path for a stripped target: source-relative
/// targets are joined onto the source's directory, `/`-led targets are made
/// root-relative, anything else stands as written.
pub open spec fn candidate_spec(t: Seq<char>, source_rel: Option<Seq<char>>) -> Seq<char> {
    if starts_with(t, "./"@) || starts_with(t, "../"@) {
        let dir = match source_rel {
            Some(s) => parent_dir(s),
            None => Seq::empty(),
        };
        if dir.len() == 0 {
            normalize_spec(t)
        } else {
            normalize_spec(dir + seq!['/'] + t)
        }
    } else if t.len() > 0 && t[0] == '/' {
        t.subrange(1, t.len() as int)
    } else {
        t
    }
}

/// The first configured extension whose addition makes a known path.
pub open spec fn first_ext_match(
    exts: Seq<Seq<char>>,
    k: int,
    cand: Seq<char>,
    known: Seq<Seq<char>>,
) -> Option<Seq<char>>
    decreases exts.len() - k,
{
    if k < 0 || k >= exts.len() {
        None
    } else {
        let w = cand + seq!['.'] + exts[k];
        if known.contains(w) {
            Some(w)
        } else {
            first_ext_match(exts, k + 1, cand, known)
        }
    }
}

/// The first known path whose stem matches `cand`, exactly or lowercased.
pub open spec fn first_stem_match(known: Seq<Seq<char>>, j: int, cand: Seq<char>) -> Option<
    Seq<char>,
>
    decreases known.len() - j,
{
    if j < 0 || j >= known.len() {
        None
    } else if stem_of(known[j]) == cand || lower_of(stem_of(known[j])) == lower_of(cand) {
        Some(known[j])
    } else {
        first_stem_match(known, j + 1, cand)
    }
}

/// Resolution of a link target against the known collection paths: exact
/// match of the normalized candidate, then `.md` and the configured
/// extensions, then a stem match for bare names.
pub open spec fn resolve_spec(
    exts: Seq<Seq<char>>,
    known: Seq<Seq<char>>,
    target: Seq<char>,
    source_rel: Option<Seq<char>>,
) -> Option<Seq<char>> {
    let t = strip_target_spec(target);
    if t.len() == 0 {
        None
    } else {
        let cand = candidate_spec(t, source_rel);
        if known.contains(cand) {
            Some(cand)
        } else {
            let ext_ok = find_from(cand, 0, '.') >= cand.len() || (!ends_with(cand, ".md"@)
                && !has_ext_spec(cand, exts));
            let md = cand + ".md"@;
            if ext_ok && known.contains(md) {
                Some(md)
            } else {
                let em = if ext_ok {
                    first_ext_match(exts, 0, cand, known)
                } else {
                    None
                };
                if em is Some {
                    em
                } else if find_from(cand, 0, '/') >= cand.len() {
                    first_stem_match(known, 0, cand)
                } else {
                    None
                }
            }
        }
    }
}

/// Whether `cand` is one of the known paths.
fn contains_path(known: &Vec<String>, cand: &Vec<char>) -> (r: bool)
    ensures
        r == strs_view(known@).contains(cand@),
{
    let ghost ks = strs_view(known@);
    let mut i: usize = 0;
    while i < known.len()
        invariant
            0 <= i <= known@.len(),
            ks == strs_view(known@),
            forall|q: int| 0 <= q < i ==> ks[q] != cand@,
        decreases known@.len() - i,
    {
        let kv = chars_vec(known[i].as_str());
        if chars_eq(&kv, cand) {
            proof {
                assert(ks[i as int] == cand@);
            }
            return true;
        }
        i = i + 1;
    }
    proof {
        assert(!ks.contains(cand@)) by {
            if ks.contains(cand@) {
                let w = choose|w: int| 0 <= w < ks.len() && ks[w] == cand@;
                assert(ks[w] != cand@);
            }
        }
    }
    false
}

/// Resolve a link target to a known collection-relative path, per
/// `resolve_spec` over the configured extensions and the known paths.
pub fn resolve_link_target(
    settings: &Settings,
    known: &Vec<String>,
    target: &str,
    source_rel: Option<&str>,
) -> (r: Option<String>)
    ensures
        ({
            let spec_r = resolve_spec(
                strs_view(settings.extensions@),
                strs_view(known@),
                target@,
                match source_rel {
                    Some(s) => Some(s@),
                    None => None,
                },
            );
            match r {
                Some(p) => spec_r == Some(p@),
                None => spec_r is None,
            }
        }),
{
    let tv = chars_vec(target);
    proof {
        assert(tv@.subrange(0, tv@.len() as int) =~= tv@);
        reveal_strlit("[[");
        reveal_strlit("]]");
        reveal_strlit("./");
        reveal_strlit("../");
        reveal_strlit(".md");
    }
    let t: Vec<char>;
    if range_starts_with_str(&tv, 0, tv.len(), "[[") && range_ends_with(&tv, "]]") {
        proof {
            let n = tv@.len() as int;
            assert(tv@.subrange(0, 2)[0] == tv@[0]);
            assert(tv@.subrange(0, 2)[1] == tv@[1]);
            assert(tv@.subrange(n - 2, n)[0] == tv@[n - 2]);
            assert(tv@.subrange(n - 2, n)[1] == tv@[n - 1]);
            assert(tv@[0] == '[' && tv@[1] == '[' && tv@[n - 2] == ']' && tv@[n - 1] == ']');
            assert(tv@.len() >= 4);
        }
        let inner = vec_range(&tv, 2, tv.len() - 2);
        let p = find_char_from(&inner, 0, '|');
        let t1 = vec_range(&inner, 0, p);
        let h = find_char_from(&t1, 0, '#');
        t = trim_range_vec(&t1, 0, h);
    } else {
        let h = find_char_from(&tv, 0, '#');
        t = trim_range_vec(&tv, 0, h);
    }
    let ghost tspec = strip_target_spec(target@);
    proof {
        assert(t@ == tspec);
    }
    if t.len() == 0 {
        return None;
    }
    proof {
        assert(t@.subrange(0, t@.len() as int) =~= t@);
    }
    // normalized candidate
    let cand: Vec<char>;
    if range_starts_with_str(&t, 0, t.len(), "./") || range_starts_with_str(&t, 0, t.len(), "../")
    {
        let dir: Vec<char> = match source_rel {
            Some(s) => {
                let sv = chars_vec(s);
                match rfind_char_exec(&sv, '/') {
                    Some(k) => vec_range(&sv, 0, k),
                    None => Vec::new(),
                }
            },
            None => Vec::new(),
        };
        let joined: String;
        if dir.len() == 0 {
            joined = crate::chartext::string_range(&t, 0, t.len());
        } else {
            let mut j: Vec<char> = dir;
            j.push('/');
            append_chars(&mut j, &t);
            proof {
                assert(j@ =~= match source_rel {
                    Some(s) => parent_dir(s@),
                    None => Seq::<char>::empty(),
                } + seq!['/'] + t@);
            }
            joined = crate::chartext::string_range(&j, 0, j.len());
        }
        proof {
            assert(joined@ == (match source_rel {
                Some(s) => if parent_dir(s@).len() == 0 {
                    t@
                } else {
                    parent_dir(s@) + seq!['/'] + t@
                },
                None => t@,
            }));
        }
        let n = normalize_path_segments(joined.as_str());
        cand = chars_vec(n.as_str());
        proof {
            assert(cand@ == normalize_spec(joined@));
            assert(starts_with(tspec, "./"@) || starts_with(tspec, "../"@));
        }
    } else if t[0] == '/' {
        cand = vec_range(&t, 1, t.len());
    } else {
        cand = vec_range(&t, 0, t.len());
    }
    let ghost cspec = candidate_spec(
        tspec,
        match source_rel {
            Some(s) => Some(s@),
            None => None,
        },
    );
    proof {
        assert(cand@ == cspec);
    }
    let ghost ks = strs_view(known@);
    let ghost exts = strs_view(settings.extensions@);
    let ghost srcv = match source_rel {
        Some(s) => Some(s@),
        None => None::<Seq<char>>,
    };
    // 1. exact match
    if contains_path(known, &cand) {
        return Some(crate::chartext::string_range(&cand, 0, cand.len()));
    }
    // 2. extension inference
    let no_dot = find_char_from(&cand, 0, '.') >= cand.len();
    let ends_md = range_ends_with(&cand, ".md");
    let has_known = has_known_extension(&settings.extensions, &cand);
    let ext_ok = no_dot || (!ends_md && !has_known);
    let ghost ext_ok_spec = find_from(cspec, 0, '.') >= cspec.len() || (!ends_with(cspec, ".md"@)
        && !has_ext_spec(cspec, exts));
    proof {
        assert(ext_ok == ext_ok_spec);
    }
    if ext_ok {
        let mut md: Vec<char> = vec_range(&cand, 0, cand.len());
        md.push('.');
        md.push('m');
        md.push('d');
        proof {
            assert(md@ =~= cspec + ".md"@);
        }
        if contains_path(known, &md) {
            return Some(crate::chartext::string_range(&md, 0, md.len()));
        }
        let mut k: usize = 0;
        while k < settings.extensions.len()
            invariant
                0 <= k <= settings.extensions@.len(),
                exts == strs_view(settings.extensions@),
                ks == strs_view(known@),
                cspec == cand@,
                srcv == (match source_rel {
                    Some(s) => Some(s@),
                    None => None::<Seq<char>>,
                }),
                tspec == strip_target_spec(target@),
                tspec.len() > 0,
                cspec == candidate_spec(tspec, srcv),
                !ks.contains(cspec),
                ext_ok_spec == (find_from(cspec, 0, '.') >= cspec.len() || (!ends_with(
                    cspec,
                    ".md"@,
                ) && !has_ext_spec(cspec, exts))),
                ext_ok_spec,
                !ks.contains(cspec + ".md"@),
                first_ext_match(exts, 0, cspec, ks) == first_ext_match(exts, k as int, cspec, ks),
            decreases settings.extensions@.len() - k,
        {
            let mut w: Vec<char> = vec_range(&cand, 0, cand.len());
            w.push('.');
            let ev = chars_vec(settings.extensions[k].as_str());
            append_chars(&mut w, &ev);
            proof {
                assert(w@ =~= cspec + seq!['.'] + exts[k as int]);
            }
            if contains_path(known, &w) {
                return Some(crate::chartext::string_range(&w, 0, w.len()));
            }
            k = k + 1;
        }
    }
    proof {
        if ext_ok_spec {
            assert(first_ext_match(exts, settings.extensions@.len() as int, cspec, ks) is None);
        }
        assert(({
            let em = if ext_ok_spec {
                first_ext_match(exts, 0, cspec, ks)
            } else {
                None::<Seq<char>>
            };
            em is None
        }));
    }
    // 3. stem match for bare names
    if find_char_from(&cand, 0, '/') >= cand.len() {
        let cand_str = crate::chartext::string_range(&cand, 0, cand.len());
        proof {
            assert(cand@.subrange(0, cand@.len() as int) =~= cand@);
        }
        let cand_lower = lower_str(cand_str.as_str());
        let mut j: usize = 0;
        while j < known.len()
            invariant
                0 <= j <= known@.len(),
                ks == strs_view(known@),
                exts == strs_view(settings.extensions@),
                cspec == cand@,
                srcv == (match source_rel {
                    Some(s) => Some(s@),
                    None => None::<Seq<char>>,
                }),
                tspec == strip_target_spec(target@),
                tspec.len() > 0,
                cspec == candidate_spec(tspec, srcv),
                !ks.contains(cspec),
                ext_ok_spec == (find_from(cspec, 0, '.') >= cspec.len() || (!ends_with(
                    cspec,
                    ".md"@,
                ) && !has_ext_spec(cspec, exts))),
                ext_ok_spec ==> !ks.contains(cspec + ".md"@),
                ({
                    let em = if ext_ok_spec {
                        first_ext_match(exts, 0, cspec, ks)
                    } else {
                        None::<Seq<char>>
                    };
                    em is None
                }),
                find_from(cspec, 0, '/') >= cspec.len(),
                cand_lower@ == lower_of(cspec),
                first_stem_match(ks, 0, cspec) == first_stem_match(ks, j as int, cspec),
            decreases known@.len() - j,
        {
            let kv = chars_vec(known[j].as_str());
            let stem = stem_of_exec(&kv);
            let matched: bool;
            if chars_eq(&stem, &cand) {
                matched = true;
            } else {
                proof {
                    assert(stem@.subrange(0, stem@.len() as int) =~= stem@);
                }
                let stem_str = crate::chartext::string_range(&stem, 0, stem.len());
                let stem_lower = lower_str(stem_str.as_str());
                matched = stem_lower == cand_lower;
            }
            proof {
                assert(stem@ == stem_of(ks[j as int]));
            }
            if matched {
                let kv2 = chars_vec(known[j].as_str());
                return Some(crate::chartext::string_range(&kv2, 0, kv2.len()));
            }
            j = j + 1;
        }
    }
    None
}

/// A frontmatter line `field: value` hands its value back whole: reading
/// the line at any column past the colon gives exactly the written value,
/// so parsing what was read names the same target whatever form the value
/// takes (wikilink, markdown link or bare path).
pub proof fn lemma_value_line_round_trip(f: Seq<char>, v: Seq<char>, col: int)
    requires
        f.len() > 0,
        !crate::chartext::is_ws(f[0]),
        forall|j: int| 0 <= j < f.len() ==> f[j] != ':',
        v.len() > 0,
        trim_spec(v) == v,
        col > f.len(),
    ensures
        crate::text::value_from_line_spec(f + ": "@ + v, col) == Some(v),
        ({
            match crate::text::value_from_line_spec(f + ": "@ + v, col) {
                Some(w) => parse_link_value_spec(w) == parse_link_value_spec(v),
                None => false,
            }
        }),
{
    reveal_strlit(": ");
    let l = f + ": "@ + v;
    let fl = f.len() as int;
    assert(l[0] == f[0]);
    assert(crate::chartext::ws_run_end(l, 0) == 0);
    assert(l[fl] == ':' && l[fl + 1] == ' ');
    assert forall|j: int| 0 <= j < fl implies l[j] != ':' by {
        assert(l[j] == f[j]);
    }
    crate::chartext::lemma_find_at(l, 0, fl, ':');
    let tail = l.subrange(fl + 1, l.len() as int);
    assert(tail =~= seq![' '] + v);
    crate::chartext::lemma_trimmed_ends(v);
    assert(crate::chartext::is_ws(' '));
    assert(tail[0] == ' ' && tail[1] == v[0]);
    assert(crate::chartext::ws_run_end(tail, 0) == crate::chartext::ws_run_end(tail, 1));
    assert(crate::chartext::ws_run_end(tail, 1) == 1);
    assert(crate::chartext::trim_start_spec(tail) =~= v);
    let u = crate::chartext::trim_start_spec(tail);
    assert(crate::chartext::ws_run_start(u, u.len() as int) == u.len());
    assert(trim_spec(tail) =~= v);
}

/// The mathematical shape of the settings.
pub struct SettingsModel {
    pub types_folder: Seq<char>,
    pub cache_folder: Seq<char>,
    pub extensions: Seq<Seq<char>>,
    pub include_subfolders: bool,
    pub exclude: Seq<Seq<char>>,
}

impl View for Settings {
    type V = SettingsModel;

    open spec fn view(&self) -> SettingsModel {
        SettingsModel {
            types_folder: self.types_folder@,
            cache_folder: self.cache_folder@,
            extensions: strs_view(self.extensions@),
            include_subfolders: self.include_subfolders,
            exclude: strs_view(self.exclude@),
        }
    }
}

/// The scanner's exclusion rules on a relative path: the types folder, the
/// cache folder, `.mdbase` when it is not the cache folder, the settings
/// file itself, the configured patterns, and any subdirectory path when
/// subfolders are not indexed.
pub open spec fn is_excluded_spec(st: SettingsModel, rel: Seq<char>) -> bool {
    ||| starts_with_dir(rel, st.types_folder)
    ||| rel == st.types_folder
    ||| starts_with_dir(rel, st.cache_folder)
    ||| rel == st.cache_folder
    ||| (st.cache_folder != ".mdbase"@ && (starts_with_dir(rel, ".mdbase"@) || rel == ".mdbase"@))
    ||| rel == "mdbase.yaml"@
    ||| exists|k: int| 0 <= k < st.exclude.len() && match_glob_spec(st.exclude[k], rel)
    ||| (!st.include_subfolders && find_from(rel, 0, '/') < rel.len())
}

/// Decide `is_excluded_spec` for one relative path.
pub fn is_excluded(settings: &Settings, rel_path: &str) -> (r: bool)
    ensures
        r == is_excluded_spec(settings@, rel_path@),
{
    let rv = chars_vec(rel_path);
    let tf = chars_vec(settings.types_folder.as_str());
    if starts_with_dir_exec(&rv, &tf) || chars_eq(&rv, &tf) {
        return true;
    }
    let cf = chars_vec(settings.cache_folder.as_str());
    if starts_with_dir_exec(&rv, &cf) || chars_eq(&rv, &cf) {
        return true;
    }
    let mb = chars_vec(".mdbase");
    if !chars_eq(&cf, &mb) && (starts_with_dir_exec(&rv, &mb) || chars_eq(&rv, &mb)) {
        return true;
    }
    let my = chars_vec("mdbase.yaml");
    if chars_eq(&rv, &my) {
        return true;
    }
    let ghost excl = strs_view(settings.exclude@);
    let mut k: usize = 0;
    while k < settings.exclude.len()
        invariant
            0 <= k <= settings.exclude@.len(),
            excl == strs_view(settings.exclude@),
            forall|q: int| 0 <= q < k ==> !match_glob_spec(excl[q], rel_path@),
        decreases settings.exclude@.len() - k,
    {
        if match_glob_pattern(settings.exclude[k].as_str(), rel_path) {
            proof {
                assert(0 <= k < settings@.exclude.len() && match_glob_spec(
                    settings@.exclude[k as int],
                    rel_path@,
                ));
                assert(is_excluded_spec(settings@, rel_path@));
            }
            return true;
        }
        k = k + 1;
    }
    if !settings.include_subfolders {
        let sl = find_char_from(&rv, 0, '/');
        if sl < rv.len() {
            return true;
        }
    }
    proof {
        if exists|q: int| 0 <= q < excl.len() && match_glob_spec(excl[q], rel_path@) {
            let w = choose|w: int| 0 <= w < excl.len() && match_glob_spec(excl[w], rel_path@);
            assert(!match_glob_spec(excl[w], rel_path@));
        }
    }
    false
}

/// Whether an ancestor directory of `rel` is one of the nested-collection
/// directories.
pub open spec fn in_nested_spec(rel: Seq<char>, dirs: Seq<Seq<char>>) -> bool {
    exists|j: int| 0 <= j < rel.len() && rel[j] == '/' && dirs.contains(rel.subrange(0, j))
}

/// Decide `in_nested_spec`: `dirs` names the subdirectories that hold a
/// nested collection's own settings file.
pub fn in_nested_collection(rel_path: &str, nested_dirs: &Vec<String>) -> (r: bool)
    ensures
        r == in_nested_spec(rel_path@, strs_view(nested_dirs@)),
{
    let rv = chars_vec(rel_path);
    let ghost ds = strs_view(nested_dirs@);
    let mut j: usize = 0;
    while j < rv.len()
        invariant
            0 <= j <= rv@.len(),
            rv@ == rel_path@,
            ds == strs_view(nested_dirs@),
            forall|q: int|
                0 <= q < j && rel_path@[q] == '/' ==> !ds.contains(rel_path@.subrange(0, q)),
        decreases rv@.len() - j,
    {
        if rv[j] == '/' {
            let prefix = vec_range(&rv, 0, j);
            if contains_path(nested_dirs, &prefix) {
                return true;
            }
        }
        j = j + 1;
    }
    proof {
        if in_nested_spec(rel_path@, ds) {
            let w = choose|w: int|
                0 <= w < rel_path@.len() && rel_path@[w] == '/' && ds.contains(
                    rel_path@.subrange(0, w),
                );
            assert(!ds.contains(rel_path@.subrange(0, w)));
        }
    }
    false
}

proof fn lemma_first_ext_match_sound(
    exts: Seq<Seq<char>>,
    k: int,
    cand: Seq<char>,
    known: Seq<Seq<char>>,
)
    requires
        0 <= k,
    ensures
        match first_ext_match(exts, k, cand, known) {
            Some(p) => known.contains(p) && exists|q: int|
                k <= q < exts.len() && p == cand + seq!['.'] + exts[q],
            None => true,
        },
    decreases exts.len() - k,
{
    if 0 <= k && k < exts.len() {
        if !known.contains(cand + seq!['.'] + exts[k]) {
            lemma_first_ext_match_sound(exts, k + 1, cand, known);
        }
    }
}

proof fn lemma_first_stem_match_sound(known: Seq<Seq<char>>, j: int, cand: Seq<char>)
    requires
        0 <= j,
    ensures
        match first_stem_match(known, j, cand) {
            Some(p) => known.contains(p) && (stem_of(p) == cand || lower_of(stem_of(p)) == lower_of(
                cand,
            )),
            None => true,
        },
    decreases known.len() - j,
{
    if 0 <= j && j < known.len() {
        if !(stem_of(known[j]) == cand || lower_of(stem_of(known[j])) == lower_of(cand)) {
            lemma_first_stem_match_sound(known, j + 1, cand);
        }
    }
}

/// A resolved link target is always one of the known collection paths, and
/// relates to the normalized candidate in one of three ways: it is the
/// candidate itself; it is the candidate with `.md` or a configured
/// extension appended; or the candidate has no `/` and the path's stem
/// matches it, exactly or lowercased. A candidate that is itself a known
/// path always resolves.
pub proof fn lemma_resolve_sound(
    exts: Seq<Seq<char>>,
    known: Seq<Seq<char>>,
    target: Seq<char>,
    source_rel: Option<Seq<char>>,
)
    ensures
        match resolve_spec(exts, known, target, source_rel) {
            Some(p) => known.contains(p) && {
                let t = strip_target_spec(target);
                let cand = candidate_spec(t, source_rel);
                ||| p == cand
                ||| p == cand + ".md"@
                ||| exists|q: int| 0 <= q < exts.len() && p == cand + seq!['.'] + exts[q]
                ||| (find_from(cand, 0, '/') >= cand.len() && (stem_of(p) == cand || lower_of(
                    stem_of(p),
                ) == lower_of(cand)))
            },
            None => ({
                let t = strip_target_spec(target);
                t.len() > 0 ==> !known.contains(candidate_spec(t, source_rel))
            }),
        },
{
    let t = strip_target_spec(target);
    if t.len() > 0 {
        let cand = candidate_spec(t, source_rel);
        if !known.contains(cand) {
            lemma_first_ext_match_sound(exts, 0, cand, known);
            lemma_first_stem_match_sound(known, 0, cand);
        }
    }
}

} // verus!
