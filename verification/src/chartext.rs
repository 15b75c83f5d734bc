//! Character-level text primitives: whitespace trimming, substring search,
//! and UTF-16 column arithmetic, all over `Vec<char>` buffers.

use vstd::prelude::*;

verus! {

/// The Unicode `White_Space` characters: the ASCII whitespace controls and
/// space, next line, no-break space, ogham space mark, the en-quad to
/// hair-space run, the line and paragraph separators, the narrow no-break
/// space, the medium mathematical space, and the ideographic space.
pub open spec fn is_ws(c: char) -> bool {
    ||| (c as u32 >= 0x9 && c as u32 <= 0xd)
    ||| c as u32 == 0x20
    ||| c as u32 == 0x85
    ||| c as u32 == 0xa0
    ||| c as u32 == 0x1680
    ||| (c as u32 >= 0x2000 && c as u32 <= 0x200a)
    ||| c as u32 == 0x2028
    ||| c as u32 == 0x2029
    ||| c as u32 == 0x202f
    ||| c as u32 == 0x205f
    ||| c as u32 == 0x3000
}

/// Relies on char::is_whitespace: true exactly on the characters with the
/// Unicode `White_Space` property, the list `is_ws` spells out.
pub assume_specification[ char::is_whitespace ](c: char) -> (r: bool)
    ensures
        r == is_ws(c),
;

/// First index at or after `i` holding a non-whitespace character (or the end).
pub open spec fn ws_run_end(s: Seq<char>, i: int) -> int
    decreases s.len() - i,
{
    if i < 0 || i >= s.len() {
        s.len() as int
    } else if is_ws(s[i]) {
        ws_run_end(s, i + 1)
    } else {
        i
    }
}

/// Start of the whitespace run that ends at `i` (scanning backwards).
pub open spec fn ws_run_start(s: Seq<char>, i: int) -> int
    decreases i,
{
    if i <= 0 || i > s.len() {
        0
    } else if is_ws(s[i - 1]) {
        ws_run_start(s, i - 1)
    } else {
        i
    }
}

/// The sequence with leading whitespace removed.
pub open spec fn trim_start_spec(s: Seq<char>) -> Seq<char> {
    s.subrange(ws_run_end(s, 0), s.len() as int)
}

/// The sequence with trailing whitespace removed.
pub open spec fn trim_end_spec(s: Seq<char>) -> Seq<char> {
    s.subrange(0, ws_run_start(s, s.len() as int))
}

/// The sequence with whitespace removed on both sides.
pub open spec fn trim_spec(s: Seq<char>) -> Seq<char> {
    trim_end_spec(trim_start_spec(s))
}

pub proof fn lemma_ws_run_end_bounds(s: Seq<char>, i: int)
    requires
        0 <= i <= s.len(),
    ensures
        i <= ws_run_end(s, i) <= s.len(),
    decreases s.len() - i,
{
    if i < s.len() && is_ws(s[i]) {
        lemma_ws_run_end_bounds(s, i + 1);
    }
}

pub proof fn lemma_ws_run_start_bounds(s: Seq<char>, i: int)
    requires
        0 <= i <= s.len(),
    ensures
        0 <= ws_run_start(s, i) <= i,
    decreases i,
{
    if i > 0 && is_ws(s[i - 1]) {
        lemma_ws_run_start_bounds(s, i - 1);
    }
}

/// Index where the leading whitespace of `v` ends.
pub fn trim_start_index(v: &Vec<char>) -> (r: usize)
    ensures
        r == ws_run_end(v@, 0),
        0 <= r <= v@.len(),
{
    let mut i: usize = 0;
    while i < v.len() && v[i].is_whitespace()
        invariant
            0 <= i <= v@.len(),
            ws_run_end(v@, 0) == ws_run_end(v@, i as int),
        decreases v@.len() - i,
    {
        i = i + 1;
    }
    proof {
        lemma_ws_run_end_bounds(v@, i as int);
    }
    i
}

/// Index where the trailing whitespace of `v` starts.
pub fn trim_end_index(v: &Vec<char>) -> (r: usize)
    ensures
        r == ws_run_start(v@, v@.len() as int),
        0 <= r <= v@.len(),
{
    let mut i: usize = v.len();
    while i > 0 && v[i - 1].is_whitespace()
        invariant
            0 <= i <= v@.len(),
            ws_run_start(v@, v@.len() as int) == ws_run_start(v@, i as int),
        decreases i,
    {
        i = i - 1;
    }
    i
}

/// The characters of `s`, in order.
pub fn chars_vec(s: &str) -> (v: Vec<char>)
    ensures
        v@ == s@,
{
    let n: usize = s.unicode_len();
    let mut v: Vec<char> = Vec::new();
    let mut i: usize = 0;
    while i < n
        invariant
            0 <= i <= n,
            n == s@.len(),
            v@ == s@.take(i as int),
        decreases n - i,
    {
        let c = s.get_char(i);
        v.push(c);
        proof {
            assert(v@ =~= s@.take(i + 1 as int));
        }
        i = i + 1;
    }
    proof {
        assert(v@ =~= s@);
    }
    v
}

/// Relies on String::push: appends one character at the end.
#[verifier::external_body]
pub(crate) fn push_char(s: &mut String, c: char)
    ensures
        final(s)@ == old(s)@.push(c),
{
    s.push(c);
}

/// A `String` holding exactly the characters of `v[from..to]`.
pub fn string_range(v: &Vec<char>, from: usize, to: usize) -> (s: String)
    requires
        0 <= from <= to <= v@.len(),
    ensures
        s@ == v@.subrange(from as int, to as int),
{
    let mut s = String::new();
    let mut i: usize = from;
    while i < to
        invariant
            from <= i <= to <= v@.len(),
            s@ == v@.subrange(from as int, i as int),
        decreases to - i,
    {
        push_char(&mut s, v[i]);
        proof {
            assert(s@ =~= v@.subrange(from as int, (i + 1) as int));
        }
        i = i + 1;
    }
    s
}

/// Whether `v[from..to]` equals the characters of `s`.
pub fn range_eq_str(v: &Vec<char>, from: usize, to: usize, s: &str) -> (r: bool)
    requires
        0 <= from <= to <= v@.len(),
    ensures
        r == (v@.subrange(from as int, to as int) == s@),
{
    let n: usize = s.unicode_len();
    if n != to - from {
        proof {
            assert(v@.subrange(from as int, to as int).len() == to - from);
        }
        return false;
    }
    let mut i: usize = 0;
    while i < n
        invariant
            0 <= i <= n,
            n == s@.len(),
            n == to - from,
            from <= to <= v@.len(),
            forall|j: int| 0 <= j < i ==> v@[from + j] == s@[j],
        decreases n - i,
    {
        if v[from + i] != s.get_char(i) {
            proof {
                assert(v@.subrange(from as int, to as int)[i as int] != s@[i as int]);
            }
            return false;
        }
        i = i + 1;
    }
    proof {
        assert(v@.subrange(from as int, to as int) =~= s@);
    }
    true
}

/// The characters `v[from..to]` as a fresh vector.
pub fn vec_range(v: &Vec<char>, from: usize, to: usize) -> (r: Vec<char>)
    requires
        0 <= from <= to <= v@.len(),
    ensures
        r@ == v@.subrange(from as int, to as int),
{
    let mut r: Vec<char> = Vec::new();
    let mut i: usize = from;
    while i < to
        invariant
            from <= i <= to <= v@.len(),
            r@ == v@.subrange(from as int, i as int),
        decreases to - i,
    {
        r.push(v[i]);
        proof {
            assert(r@ =~= v@.subrange(from as int, (i + 1) as int));
        }
        i = i + 1;
    }
    r
}

/// First index at or after `i` where `c` occurs in `s` (or `s.len()`).
pub open spec fn find_from(s: Seq<char>, i: int, c: char) -> int
    decreases s.len() - i,
{
    if i < 0 || i >= s.len() {
        s.len() as int
    } else if s[i] == c {
        i
    } else {
        find_from(s, i + 1, c)
    }
}

pub proof fn lemma_find_from_bounds(s: Seq<char>, i: int, c: char)
    requires
        0 <= i <= s.len(),
    ensures
        i <= find_from(s, i, c) <= s.len(),
        find_from(s, i, c) < s.len() ==> s[find_from(s, i, c)] == c,
        forall|k: int| i <= k < find_from(s, i, c) ==> s[k] != c,
    decreases s.len() - i,
{
    if i < s.len() && s[i] != c {
        lemma_find_from_bounds(s, i + 1, c);
    }
}

/// A search finds `c` exactly where it first stands.
pub proof fn lemma_find_at(s: Seq<char>, i: int, k: int, c: char)
    requires
        0 <= i <= k < s.len(),
        s[k] == c,
        forall|j: int| i <= j < k ==> s[j] != c,
    ensures
        find_from(s, i, c) == k,
    decreases k - i,
{
    if i < k {
        lemma_find_at(s, i + 1, k, c);
    }
}

/// A search over characters that are never `c` runs to the end.
pub proof fn lemma_find_absent(s: Seq<char>, i: int, c: char)
    requires
        0 <= i <= s.len(),
        forall|j: int| i <= j < s.len() ==> s[j] != c,
    ensures
        find_from(s, i, c) == s.len(),
{
    lemma_find_from_bounds(s, i, c);
}

/// A string equal to its own trim has no whitespace at either end.
pub proof fn lemma_trimmed_ends(s: Seq<char>)
    requires
        trim_spec(s) == s,
        s.len() > 0,
    ensures
        !is_ws(s[0]),
        !is_ws(s[s.len() - 1]),
{
    lemma_ws_run_end_bounds(s, 0);
    let a = ws_run_end(s, 0);
    let u = trim_start_spec(s);
    lemma_ws_run_start_bounds(u, u.len() as int);
    if is_ws(s[0]) {
        assert(a == ws_run_end(s, 1));
        lemma_ws_run_end_bounds(s, 1);
        assert(trim_spec(s).len() <= u.len() < s.len());
    }
    assert(a == 0);
    assert(u =~= s);
    if is_ws(s[s.len() - 1]) {
        assert(ws_run_start(u, u.len() as int) == ws_run_start(u, u.len() - 1));
        lemma_ws_run_start_bounds(u, u.len() - 1);
        assert(trim_spec(s).len() < s.len());
    }
}

/// Trimming a string without whitespace at its ends changes nothing.
pub proof fn lemma_trim_noop(s: Seq<char>)
    requires
        s.len() > 0 ==> !is_ws(s[0]) && !is_ws(s[s.len() - 1]),
    ensures
        trim_spec(s) == s,
{
    if s.len() == 0 {
        assert(ws_run_end(s, 0) == 0);
        assert(trim_start_spec(s) =~= s);
        assert(ws_run_start(s, 0) == 0);
        assert(trim_spec(s) =~= s);
    } else {
        assert(ws_run_end(s, 0) == 0);
        assert(trim_start_spec(s) =~= s);
        let u = trim_start_spec(s);
        assert(ws_run_start(u, u.len() as int) == u.len());
        assert(trim_spec(s) =~= s);
    }
}

/// Find the first occurrence of `c` at or after `from`.
pub fn find_char_from(v: &Vec<char>, from: usize, c: char) -> (r: usize)
    requires
        0 <= from <= v@.len(),
    ensures
        r == find_from(v@, from as int, c),
        from <= r <= v@.len(),
{
    let mut i: usize = from;
    while i < v.len() && v[i] != c
        invariant
            from <= i <= v@.len(),
            find_from(v@, from as int, c) == find_from(v@, i as int, c),
        decreases v@.len() - i,
    {
        i = i + 1;
    }
    proof {
        lemma_find_from_bounds(v@, i as int, c);
    }
    i
}

/// First index `k` at or after `i` with `s[k] == a` and `s[k+1] == b`
/// (or `s.len()` when there is none).
pub open spec fn find2_from(s: Seq<char>, i: int, a: char, b: char) -> int
    decreases s.len() - i,
{
    if i < 0 || i + 1 >= s.len() {
        s.len() as int
    } else if s[i] == a && s[i + 1] == b {
        i
    } else {
        find2_from(s, i + 1, a, b)
    }
}

pub proof fn lemma_find2_from_bounds(s: Seq<char>, i: int, a: char, b: char)
    requires
        0 <= i <= s.len(),
    ensures
        i <= find2_from(s, i, a, b) <= s.len(),
        find2_from(s, i, a, b) < s.len() ==> find2_from(s, i, a, b) + 1 < s.len() && s[find2_from(
            s,
            i,
            a,
            b,
        )] == a && s[find2_from(s, i, a, b) + 1] == b,
    decreases s.len() - i,
{
    if i + 1 < s.len() && !(s[i] == a && s[i + 1] == b) {
        lemma_find2_from_bounds(s, i + 1, a, b);
    }
}

/// A pair search finds the pair exactly where it first stands.
pub proof fn lemma_find2_at(s: Seq<char>, i: int, k: int, a: char, b: char)
    requires
        0 <= i <= k,
        k + 1 < s.len(),
        s[k] == a,
        s[k + 1] == b,
        forall|j: int| i <= j < k ==> !(#[trigger] s[j] == a && s[j + 1] == b),
    ensures
        find2_from(s, i, a, b) == k,
    decreases k - i,
{
    if i < k {
        lemma_find2_at(s, i + 1, k, a, b);
    }
}

/// Whether the two-character string `ab` occurs in `s[from..]`.
pub open spec fn contains2_from(s: Seq<char>, from: int, a: char, b: char) -> bool {
    find2_from(s, from, a, b) < s.len()
}

/// Find the first occurrence of the pair `a`,`b` at or after `from`.
pub fn find2_char_from(v: &Vec<char>, from: usize, a: char, b: char) -> (r: usize)
    requires
        0 <= from <= v@.len(),
    ensures
        r == find2_from(v@, from as int, a, b),
        from <= r <= v@.len(),
        r < v@.len() ==> r + 1 < v@.len() && v@[r as int] == a && v@[r + 1] == b,
{
    let mut i: usize = from;
    while i < v.len() && i + 1 < v.len() && !(v[i] == a && v[i + 1] == b)
        invariant
            from <= i <= v@.len(),
            find2_from(v@, from as int, a, b) == find2_from(v@, i as int, a, b),
        decreases v@.len() - i,
    {
        i = i + 1;
    }
    proof {
        lemma_find2_from_bounds(v@, i as int, a, b);
    }
    if i < v.len() && i + 1 < v.len() {
        i
    } else {
        v.len()
    }
}

/// Last index `k` at or below `i` with `s[k] == a` and `s[k+1] == b`
/// (or `-1` when there is none).
pub open spec fn rfind2_below(s: Seq<char>, i: int, a: char, b: char) -> int
    decreases i + 1,
{
    if i < 0 {
        -1
    } else if i + 1 < s.len() && s[i] == a && s[i + 1] == b {
        i
    } else {
        rfind2_below(s, i - 1, a, b)
    }
}

/// The last occurrence of the pair `a`,`b` in `v`, as `rfind2_below` gives it.
pub fn rfind2_char(v: &Vec<char>, a: char, b: char) -> (r: Option<usize>)
    ensures
        match r {
            Some(k) => k == rfind2_below(v@, v@.len() - 2, a, b) && k + 1 < v@.len(),
            None => rfind2_below(v@, v@.len() - 2, a, b) == -1,
        },
{
    if v.len() < 2 {
        return None;
    }
    let mut i: usize = v.len() - 1;
    while i > 0
        invariant
            0 <= i <= v@.len() - 1,
            rfind2_below(v@, v@.len() - 2, a, b) == rfind2_below(v@, i - 1, a, b),
        decreases i,
    {
        if v[i - 1] == a && v[i] == b {
            return Some(i - 1);
        }
        i = i - 1;
    }
    None
}

proof fn lemma_shift_find_aux(s: Seq<char>, base: int, j: int, c: char)
    requires
        0 <= base,
        0 <= j,
        base + j <= s.len(),
    ensures
        find_from(s.subrange(base, s.len() as int), j, c) == find_from(s, base + j, c) - base,
    decreases s.len() - base - j,
{
    if base + j < s.len() && s[base + j] != c {
        lemma_shift_find_aux(s, base, j + 1, c);
    }
}

/// Searching inside a tail `s[base..]` is searching `s` from `base`.
pub proof fn lemma_shift_find(s: Seq<char>, base: int, c: char)
    requires
        0 <= base <= s.len(),
    ensures
        find_from(s.subrange(base, s.len() as int), 0, c) == find_from(s, base, c) - base,
{
    lemma_shift_find_aux(s, base, 0, c);
}

proof fn lemma_shift_ws_aux(s: Seq<char>, base: int, j: int)
    requires
        0 <= base,
        0 <= j,
        base + j <= s.len(),
    ensures
        ws_run_end(s.subrange(base, s.len() as int), j) == ws_run_end(s, base + j) - base,
    decreases s.len() - base - j,
{
    if base + j < s.len() && is_ws(s[base + j]) {
        lemma_shift_ws_aux(s, base, j + 1);
    }
}

/// Trimming a tail `s[base..]` keeps the whitespace run of `s` from `base`.
pub proof fn lemma_shift_ws_run(s: Seq<char>, base: int)
    requires
        0 <= base <= s.len(),
    ensures
        ws_run_end(s.subrange(base, s.len() as int), 0) == ws_run_end(s, base) - base,
        trim_start_spec(s.subrange(base, s.len() as int)) == s.subrange(
            ws_run_end(s, base),
            s.len() as int,
        ),
{
    lemma_shift_ws_aux(s, base, 0);
    lemma_ws_run_end_bounds(s, base);
    let sub = s.subrange(base, s.len() as int);
    assert(trim_start_spec(sub) =~= s.subrange(ws_run_end(s, base), s.len() as int));
}

/// Whether `p` is a prefix of `s`.
pub open spec fn starts_with(s: Seq<char>, p: Seq<char>) -> bool {
    s.len() >= p.len() && s.subrange(0, p.len() as int) == p
}

/// Whether `p` is a suffix of `s`.
pub open spec fn ends_with(s: Seq<char>, p: Seq<char>) -> bool {
    s.len() >= p.len() && s.subrange(s.len() - p.len(), s.len() as int) == p
}

/// Whether `v[from..to]` starts with the characters of `s`.
pub fn range_starts_with_str(v: &Vec<char>, from: usize, to: usize, s: &str) -> (r: bool)
    requires
        0 <= from <= to <= v@.len(),
    ensures
        r == starts_with(v@.subrange(from as int, to as int), s@),
{
    let n: usize = s.unicode_len();
    if n > to - from {
        return false;
    }
    let r = range_eq_str(v, from, from + n, s);
    proof {
        assert(v@.subrange(from as int, (from + n) as int) =~= v@.subrange(
            from as int,
            to as int,
        ).subrange(0, n as int));
    }
    r
}

/// Whether `v[from..to]` ends with the characters of `s`.
pub fn range_ends_with_str(v: &Vec<char>, from: usize, to: usize, s: &str) -> (r: bool)
    requires
        0 <= from <= to <= v@.len(),
    ensures
        r == ends_with(v@.subrange(from as int, to as int), s@),
{
    let n: usize = s.unicode_len();
    if n > to - from {
        return false;
    }
    let r = range_eq_str(v, to - n, to, s);
    proof {
        let w = v@.subrange(from as int, to as int);
        assert(v@.subrange((to - n) as int, to as int) =~= w.subrange(
            w.len() - n as int,
            w.len() as int,
        ));
    }
    r
}

/// First index at or after `i` where `s` stops holding `c`.
pub open spec fn char_run_end(s: Seq<char>, i: int, c: char) -> int
    decreases s.len() - i,
{
    if i < 0 || i >= s.len() {
        s.len() as int
    } else if s[i] == c {
        char_run_end(s, i + 1, c)
    } else {
        i
    }
}

pub proof fn lemma_char_run_end_bounds(s: Seq<char>, i: int, c: char)
    requires
        0 <= i <= s.len(),
    ensures
        i <= char_run_end(s, i, c) <= s.len(),
    decreases s.len() - i,
{
    if i < s.len() && s[i] == c {
        lemma_char_run_end_bounds(s, i + 1, c);
    }
}

/// Skip the run of `c` starting at `from`.
pub fn skip_char_run(v: &Vec<char>, from: usize, c: char) -> (r: usize)
    requires
        0 <= from <= v@.len(),
    ensures
        r == char_run_end(v@, from as int, c),
        from <= r <= v@.len(),
{
    let mut i: usize = from;
    while i < v.len() && v[i] == c
        invariant
            from <= i <= v@.len(),
            char_run_end(v@, from as int, c) == char_run_end(v@, i as int, c),
        decreases v@.len() - i,
    {
        i = i + 1;
    }
    proof {
        lemma_char_run_end_bounds(v@, i as int, c);
    }
    i
}

/// Skip whitespace starting at `from`.
pub fn ws_skip_from(v: &Vec<char>, from: usize) -> (r: usize)
    requires
        0 <= from <= v@.len(),
    ensures
        r == ws_run_end(v@, from as int),
        from <= r <= v@.len(),
{
    let mut i: usize = from;
    while i < v.len() && v[i].is_whitespace()
        invariant
            from <= i <= v@.len(),
            ws_run_end(v@, from as int) == ws_run_end(v@, i as int),
        decreases v@.len() - i,
    {
        i = i + 1;
    }
    proof {
        lemma_ws_run_end_bounds(v@, i as int);
    }
    i
}

/// The trimmed contents of `v[from..to]` as a `String`.
pub fn trim_range_string(v: &Vec<char>, from: usize, to: usize) -> (s: String)
    requires
        0 <= from <= to <= v@.len(),
    ensures
        s@ == trim_spec(v@.subrange(from as int, to as int)),
{
    let seg = vec_range(v, from, to);
    let a = trim_start_index(&seg);
    let seg2 = vec_range(&seg, a, seg.len());
    proof {
        assert(seg2@ =~= trim_start_spec(seg@));
    }
    let b = trim_end_index(&seg2);
    string_range(&seg2, 0, b)
}

/// The trimmed contents of `v[from..to]` as a vector.
pub fn trim_range_vec(v: &Vec<char>, from: usize, to: usize) -> (r: Vec<char>)
    requires
        0 <= from <= to <= v@.len(),
    ensures
        r@ == trim_spec(v@.subrange(from as int, to as int)),
{
    let seg = vec_range(v, from, to);
    let a = trim_start_index(&seg);
    let seg2 = vec_range(&seg, a, seg.len());
    proof {
        assert(seg2@ =~= trim_start_spec(seg@));
    }
    let b = trim_end_index(&seg2);
    vec_range(&seg2, 0, b)
}

/// The UTF-16 length of one character: one code unit below `0x10000`, two above.
pub open spec fn utf16_len(c: char) -> int {
    if (c as u32) < 0x10000 {
        1
    } else {
        2
    }
}

/// Sum of the UTF-16 lengths of `s[0..i]`.
pub open spec fn utf16_col(s: Seq<char>, i: int) -> int
    decreases i,
{
    if i <= 0 || i > s.len() {
        0
    } else {
        utf16_col(s, i - 1) + utf16_len(s[i - 1])
    }
}

pub proof fn lemma_utf16_col_bounds(s: Seq<char>, i: int)
    requires
        0 <= i <= s.len(),
    ensures
        i <= utf16_col(s, i) <= 2 * i,
    decreases i,
{
    if i > 0 {
        lemma_utf16_col_bounds(s, i - 1);
    }
}

pub proof fn lemma_utf16_col_mono(s: Seq<char>, i: int, j: int)
    requires
        0 <= i <= j <= s.len(),
    ensures
        utf16_col(s, i) <= utf16_col(s, j),
    decreases j,
{
    if i < j {
        lemma_utf16_col_mono(s, i, j - 1);
        lemma_utf16_col_bounds(s, j - 1);
    }
}

/// The UTF-16 column of character index `i` in `v`.
pub fn utf16_col_exec(v: &Vec<char>, idx: usize) -> (r: usize)
    requires
        0 <= idx <= v@.len(),
        v@.len() < usize::MAX / 2,
    ensures
        r == utf16_col(v@, idx as int),
{
    let mut i: usize = 0;
    let mut col: usize = 0;
    while i < idx
        invariant
            0 <= i <= idx <= v@.len(),
            v@.len() < usize::MAX / 2,
            col == utf16_col(v@, i as int),
            col <= 2 * i,
        decreases idx - i,
    {
        let c = v[i];
        if (c as u32) < 0x10000 {
            col = col + 1;
        } else {
            col = col + 2;
        }
        i = i + 1;
    }
    col
}

} // verus!
