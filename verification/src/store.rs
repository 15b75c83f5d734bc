//! Per-document state: the rope text buffer, the cached frontmatter parse
//! with its invalidation discipline, and the per-document generation
//! counters that debounce diagnostics.

use vstd::prelude::*;

use crate::chartext::{chars_vec, find_from, lemma_find_from_bounds};
use crate::json::Val;

verus! {

#[verifier::external_type_specification]
#[verifier::external_body]
pub struct ExRope(ropey::Rope);

/// The characters a rope holds, in order.
pub uninterp spec fn rope_chars(r: ropey::Rope) -> Seq<char>;

/// Relies on ropey::Rope::from_str: a rope holding exactly the text.
#[verifier::external_body]
pub(crate) fn rope_from_str(s: &str) -> (r: ropey::Rope)
    ensures
        rope_chars(r) == s@,
{
    ropey::Rope::from_str(s)
}

/// Relies on ropey::Rope::insert: splices `text` in at the character index;
/// out-of-bounds indices panic, so they are excluded here.
#[verifier::external_body]
pub(crate) fn rope_insert(r: &mut ropey::Rope, char_idx: usize, text: &str)
    requires
        char_idx <= rope_chars(*old(r)).len(),
    ensures
        rope_chars(*final(r)) == rope_chars(*old(r)).take(char_idx as int) + text@ + rope_chars(
            *old(r),
        ).skip(char_idx as int),
{
    r.insert(char_idx, text);
}

/// Relies on ropey::Rope::remove: removes the characters in `start..end`;
/// a reversed or out-of-bounds range panics, so it is excluded here.
#[verifier::external_body]
pub(crate) fn rope_remove(r: &mut ropey::Rope, start: usize, end: usize)
    requires
        start <= end <= rope_chars(*old(r)).len(),
    ensures
        rope_chars(*final(r)) == rope_chars(*old(r)).take(start as int) + rope_chars(
            *old(r),
        ).skip(end as int),
{
    r.remove(start..end);
}

/// Relies on String::from on a rope reference: the rope's whole text.
#[verifier::external_body]
pub(crate) fn rope_to_string(r: &ropey::Rope) -> (s: String)
    ensures
        s@ == rope_chars(*r),
{
    String::from(r)
}

/// The result of parsing a document's frontmatter: the mapping's fields,
/// and whether the text had a frontmatter block, failed to parse, or parsed
/// to something other than a mapping.
#[derive(Debug)]
pub struct ParsedFrontmatter {
    pub fields: Vec<(String, Val)>,
    pub has_frontmatter: bool,
    pub parse_error: bool,
    pub mapping_error: bool,
}

/// The character offset where line `line` starts: one past the `line`-th
/// newline, clamped to the end of the text.
pub open spec fn line_offset(s: Seq<char>, line: int) -> int
    decreases line,
{
    if line <= 0 {
        0
    } else {
        let prev = line_offset(s, line - 1);
        let j = find_from(s, prev, '\n');
        if j < s.len() {
            j + 1
        } else {
            s.len() as int
        }
    }
}

pub proof fn lemma_line_offset_bounds(s: Seq<char>, line: int)
    requires
        line >= 0,
    ensures
        0 <= line_offset(s, line) <= s.len(),
    decreases line,
{
    if line > 0 {
        lemma_line_offset_bounds(s, line - 1);
        lemma_find_from_bounds(s, line_offset(s, line - 1), '\n');
    }
}

/// Compute `line_offset` over a character buffer.
pub fn line_offset_exec(v: &Vec<char>, line: usize) -> (r: usize)
    ensures
        r == line_offset(v@, line as int),
        r <= v@.len(),
{
    let mut l: usize = 0;
    let mut off: usize = 0;
    while l < line
        invariant
            0 <= l <= line,
            off == line_offset(v@, l as int),
            off <= v@.len(),
        decreases line - l,
    {
        let j = crate::chartext::find_char_from(v, off, '\n');
        if j < v.len() {
            off = j + 1;
        } else {
            off = v.len();
        }
        l = l + 1;
    }
    off
}

/// One open document: its rope, and the cached frontmatter parse together
/// with the text it was parsed from.
pub struct DocumentState {
    pub rope: ropey::Rope,
    pub cached_frontmatter: Option<ParsedFrontmatter>,
    pub cache_text: Ghost<Seq<char>>,
}

impl DocumentState {
    /// The document's current text.
    pub open spec fn text(self) -> Seq<char> {
        rope_chars(self.rope)
    }

    /// A present cache always belongs to the current text.
    pub open spec fn wf(self) -> bool {
        self.cached_frontmatter is Some ==> self.cache_text@ == rope_chars(self.rope)
    }

    /// A fresh document with no cached parse.
    pub fn new(text: &str) -> (r: DocumentState)
        ensures
            r.text() == text@,
            r.cached_frontmatter is None,
            r.wf(),
    {
        DocumentState {
            rope: rope_from_str(text),
            cached_frontmatter: None,
            cache_text: Ghost(Seq::empty()),
        }
    }

    /// The document's whole text as a string.
    pub fn text_string(&self) -> (s: String)
        ensures
            s@ == self.text(),
    {
        rope_to_string(&self.rope)
    }

    /// The cached parse, if any.
    pub fn frontmatter(&self) -> (r: &Option<ParsedFrontmatter>)
        ensures
            *r == self.cached_frontmatter,
    {
        &self.cached_frontmatter
    }

    /// Store the parse of the current text.
    pub fn set_frontmatter(&mut self, parsed: ParsedFrontmatter)
        ensures
            final(self).text() == old(self).text(),
            final(self).cached_frontmatter == Some(parsed),
            final(self).wf(),
    {
        let ghost t = rope_chars(self.rope);
        self.cached_frontmatter = Some(parsed);
        self.cache_text = Ghost(t);
    }

    /// Drop the cached parse (call after every mutation).
    pub fn invalidate_frontmatter(&mut self)
        ensures
            final(self).text() == old(self).text(),
            final(self).cached_frontmatter is None,
            final(self).wf(),
    {
        self.cached_frontmatter = None;
    }

    /// Replace the whole text; the cache is dropped.
    pub fn replace_text(&mut self, text: &str)
        ensures
            final(self).text() == text@,
            final(self).cached_frontmatter is None,
            final(self).wf(),
    {
        self.rope = rope_from_str(text);
        self.cached_frontmatter = None;
    }

    /// Apply one incremental change: the span between the two positions is
    /// replaced by `new_text`. A span that does not fit the current text is
    /// rejected and nothing changes.
    pub fn apply_incremental_change(
        &mut self,
        start_line: usize,
        start_character: usize,
        end_line: usize,
        end_character: usize,
        new_text: &str,
    ) -> (applied: bool)
        ensures
            ({
                let s = old(self).text();
                let a = line_offset(s, start_line as int) + start_character;
                let b = line_offset(s, end_line as int) + end_character;
                &&& (applied <==> a <= b <= s.len())
                &&& (applied ==> final(self).text() == s.take(a) + new_text@ + s.skip(b))
                &&& (!applied ==> final(self).text() == s)
                &&& final(self).cached_frontmatter == old(self).cached_frontmatter
                &&& (old(self).wf() && !applied ==> final(self).wf())
            }),
    {
        let snapshot = rope_to_string(&self.rope);
        let v = chars_vec(snapshot.as_str());
        let n = v.len();
        let ghost s = rope_chars(self.rope);
        proof {
            assert(s.len() == n);
        }
        let sa = line_offset_exec(&v, start_line);
        let sb = line_offset_exec(&v, end_line);
        if start_character > usize::MAX - sa || end_character > usize::MAX - sb {
            proof {
                lemma_line_offset_bounds(s, start_line as int);
                lemma_line_offset_bounds(s, end_line as int);
            }
            return false;
        }
        let a = sa + start_character;
        let b = sb + end_character;
        if a > b || b > v.len() {
            return false;
        }
        rope_remove(&mut self.rope, a, b);
        rope_insert(&mut self.rope, a, new_text);
        proof {
            assert(rope_chars(self.rope) =~= s.take(a as int) + new_text@ + s.skip(b as int));
        }
        true
    }
}

/// A cached parse always describes the document's current text: mutation
/// clears the cache, and the cache is only ever set against the text it was
/// parsed from.
pub proof fn lemma_cache_matches_text(d: DocumentState)
    requires
        d.wf(),
        d.cached_frontmatter is Some,
    ensures
        d.cache_text@ == d.text(),
{
}

/// Per-document generation counters for debouncing diagnostics.
pub struct GenerationMap {
    pub entries: Vec<(String, u64)>,
}

/// The counter value of a document (0 before the first bump).
pub open spec fn gen_of(m: Seq<(String, u64)>, uri: Seq<char>) -> int
    decreases m.len(),
{
    if m.len() == 0 {
        0
    } else if m[0].0@ == uri {
        m[0].1 as int
    } else {
        gen_of(m.drop_first(), uri)
    }
}

/// A debounced publisher runs only when its generation is still current.
pub open spec fn should_publish_spec(scheduled: int, current: int) -> bool {
    scheduled == current
}

impl GenerationMap {
    /// An empty counter map.
    pub fn new() -> (r: GenerationMap)
        ensures
            r.entries@.len() == 0,
    {
        GenerationMap { entries: Vec::new() }
    }

    /// The current generation of a document.
    pub fn current(&self, uri: &str) -> (r: u64)
        ensures
            r == gen_of(self.entries@, uri@),
    {
        let uv = chars_vec(uri);
        proof {
            assert(self.entries@.skip(0) =~= self.entries@);
        }
        let mut i: usize = 0;
        while i < self.entries.len()
            invariant
                0 <= i <= self.entries@.len(),
                uv@ == uri@,
                gen_of(self.entries@, uri@) == gen_of(self.entries@.skip(i as int), uri@),
            decreases self.entries@.len() - i,
        {
            proof {
                assert(self.entries@.skip(i as int)[0] == self.entries@[i as int]);
                assert(self.entries@.skip(i as int).drop_first() =~= self.entries@.skip(i + 1));
            }
            let ev = chars_vec(self.entries[i].0.as_str());
            if crate::resolve::chars_eq(&ev, &uv) {
                return self.entries[i].1;
            }
            i = i + 1;
        }
        proof {
            assert(self.entries@.skip(i as int).len() == 0);
        }
        0
    }

    /// Advance a document's generation and return the new value; the count
    /// saturates at the integer's limit.
    pub fn bump(&mut self, uri: &str) -> (r: u64)
        ensures
            ({
                let g = gen_of(old(self).entries@, uri@);
                &&& (g < u64::MAX ==> r == g + 1)
                &&& gen_of(final(self).entries@, uri@) == r
            }),
    {
        let uv = chars_vec(uri);
        let ghost orig = self.entries@;
        proof {
            assert(self.entries@.skip(0) =~= self.entries@);
        }
        let mut i: usize = 0;
        while i < self.entries.len()
            invariant
                0 <= i <= self.entries@.len(),
                uv@ == uri@,
                orig == self.entries@,
                orig == old(self).entries@,
                gen_of(self.entries@, uri@) == gen_of(self.entries@.skip(i as int), uri@),
                forall|q: int| 0 <= q < i ==> #[trigger] self.entries@[q].0@ != uri@,
            decreases self.entries@.len() - i,
        {
            proof {
                assert(self.entries@.skip(i as int)[0] == self.entries@[i as int]);
                assert(self.entries@.skip(i as int).drop_first() =~= self.entries@.skip(i + 1));
            }
            let ev = chars_vec(self.entries[i].0.as_str());
            if crate::resolve::chars_eq(&ev, &uv) {
                let g = self.entries[i].1;
                let g2: u64 = if g < u64::MAX {
                    g + 1
                } else {
                    g
                };
                let name = self.entries[i].0.clone();
                self.entries.set(i, (name, g2));
                proof {
                    assert(self.entries@ =~= orig.update(i as int, (self.entries@[i as int].0, g2)));
                    lemma_gen_of_prefix(orig, self.entries@, uri@, i as int, g2 as int);
                }
                return g2;
            }
            i = i + 1;
        }
        proof {
            assert(self.entries@.skip(i as int).len() == 0);
            assert(gen_of(orig, uri@) == 0);
        }
        let name = crate::chartext::string_range(&uv, 0, uv.len());
        proof {
            assert(uv@.subrange(0, uv@.len() as int) =~= uv@);
        }
        self.entries.push((name, 1));
        proof {
            lemma_gen_of_append(orig, uri@, 1);
            assert(self.entries@ =~= orig.push((self.entries@[orig.len() as int].0, 1u64)));
        }
        1
    }

    /// Forget a document's counter.
    pub fn remove(&mut self, uri: &str)
        ensures
            true,
    {
        let uv = chars_vec(uri);
        let mut i: usize = 0;
        while i < self.entries.len()
            invariant
                0 <= i <= self.entries@.len(),
            decreases self.entries@.len() - i,
        {
            let ev = chars_vec(self.entries[i].0.as_str());
            if crate::resolve::chars_eq(&ev, &uv) {
                let _ = self.entries.remove(i);
                return ;
            }
            i = i + 1;
        }
    }
}

proof fn lemma_gen_of_prefix(
    orig: Seq<(String, u64)>,
    upd: Seq<(String, u64)>,
    uri: Seq<char>,
    i: int,
    g2: int,
)
    requires
        0 <= i < orig.len(),
        upd.len() == orig.len(),
        forall|q: int| 0 <= q < orig.len() && q != i ==> upd[q] == orig[q],
        upd[i].0@ == uri,
        upd[i].1 == g2,
        forall|q: int| 0 <= q < i ==> #[trigger] orig[q].0@ != uri,
        forall|q: int| 0 <= q < i ==> #[trigger] upd[q].0@ != uri,
    ensures
        gen_of(upd, uri) == g2,
    decreases i,
{
    if i == 0 {
    } else {
        assert(upd.drop_first()[i - 1] == upd[i]);
        assert forall|q: int| 0 <= q < orig.drop_first().len() && q != i - 1 implies
            orig.drop_first()[q] == upd.drop_first()[q] by {
            assert(orig.drop_first()[q] == orig[q + 1]);
            assert(upd.drop_first()[q] == upd[q + 1]);
        }
        assert forall|q: int| 0 <= q < i - 1 implies #[trigger] orig.drop_first()[q].0@ != uri by {
            assert(orig.drop_first()[q] == orig[q + 1]);
        }
        assert forall|q: int| 0 <= q < i - 1 implies #[trigger] upd.drop_first()[q].0@ != uri by {
            assert(upd.drop_first()[q] == upd[q + 1]);
        }
        lemma_gen_of_prefix(orig.drop_first(), upd.drop_first(), uri, i - 1, g2);
        assert(upd[0].0@ != uri);
    }
}

proof fn lemma_gen_of_append(orig: Seq<(String, u64)>, uri: Seq<char>, g: u64)
    requires
        gen_of(orig, uri) == 0,
        forall|q: int| 0 <= q < orig.len() ==> #[trigger] orig[q].0@ != uri,
    ensures
        forall|p: (String, u64)|
            p.0@ == uri && p.1 == g ==> gen_of(orig.push(p), uri) == g as int,
    decreases orig.len(),
{
    assert forall|p: (String, u64)| p.0@ == uri && p.1 == g implies gen_of(orig.push(p), uri)
        == g as int by {
        if orig.len() == 0 {
            assert(orig.push(p)[0] == p);
        } else {
            assert(orig.push(p)[0] == orig[0]);
            assert(orig.push(p).drop_first() =~= orig.drop_first().push(p));
            assert forall|q: int| 0 <= q < orig.drop_first().len() implies
                #[trigger] orig.drop_first()[q].0@ != uri by {
                assert(orig.drop_first()[q] == orig[q + 1]);
            }
            assert(gen_of(orig.drop_first(), uri) == 0);
            lemma_gen_of_append(orig.drop_first(), uri, g);
        }
    }
}

/// The debounce discipline publishes at most once for a burst of changes:
/// when a document's counter has been advanced `n` times past `g`, a
/// publisher scheduled at the `i`-th advance runs only when `i` was the
/// last one.
pub proof fn lemma_debounce_at_most_one(g: int, n: int, i: int)
    requires
        1 <= i <= n,
    ensures
        should_publish_spec(g + i, g + n) <==> i == n,
{
}

} // verus!
