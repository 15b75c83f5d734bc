//! The collection file index: one entry per indexed file, with upsert and
//! removal by relative path, target listing by type, and tag counting
//! sorted by descending use.

use vstd::prelude::*;

use crate::chartext::chars_vec;
use crate::resolve::strs_view;

verus! {

/// One indexed file.
#[derive(Debug, Clone)]
pub struct FileEntry {
    pub rel_path: String,
    pub types: Vec<String>,
    pub tags: Vec<String>,
    pub display_name: Option<String>,
    pub title: Option<String>,
    pub id: Option<String>,
    pub preview: Option<String>,
}

/// The mathematical shape of an index entry.
pub struct FileEntryModel {
    pub rel_path: Seq<char>,
    pub types: Seq<Seq<char>>,
    pub tags: Seq<Seq<char>>,
    pub display_name: Option<Seq<char>>,
    pub title: Option<Seq<char>>,
    pub id: Option<Seq<char>>,
    pub preview: Option<Seq<char>>,
}

impl View for FileEntry {
    type V = FileEntryModel;

    open spec fn view(&self) -> FileEntryModel {
        FileEntryModel {
            rel_path: self.rel_path@,
            types: strs_view(self.types@),
            tags: strs_view(self.tags@),
            display_name: crate::refs::opt_view(self.display_name),
            title: crate::refs::opt_view(self.title),
            id: crate::refs::opt_view(self.id),
            preview: crate::refs::opt_view(self.preview),
        }
    }
}

/// The views of a vector of entries.
pub open spec fn entries_view(v: Seq<FileEntry>) -> Seq<FileEntryModel> {
    v.map_values(|e: FileEntry| e@)
}

/// Clone one vector of strings.
pub fn clone_strings(v: &Vec<String>) -> (r: Vec<String>)
    ensures
        r@ == v@,
{
    let mut r: Vec<String> = Vec::new();
    let mut i: usize = 0;
    while i < v.len()
        invariant
            0 <= i <= v@.len(),
            r@ == v@.subrange(0, i as int),
        decreases v@.len() - i,
    {
        r.push(v[i].clone());
        proof {
            assert(r@ =~= v@.subrange(0, (i + 1) as int));
        }
        i = i + 1;
    }
    proof {
        assert(r@ =~= v@);
    }
    r
}

/// Clone an optional string.
pub fn clone_opt_string(v: &Option<String>) -> (r: Option<String>)
    ensures
        r == *v,
{
    match v {
        Some(s) => Some(s.clone()),
        None => None,
    }
}

/// Clone one entry, field by field.
pub fn clone_entry(e: &FileEntry) -> (r: FileEntry)
    ensures
        r@ == e@,
        r.rel_path == e.rel_path,
        r.display_name == e.display_name,
        r.title == e.title,
        r.id == e.id,
        r.preview == e.preview,
{
    let r = FileEntry {
        rel_path: e.rel_path.clone(),
        types: clone_strings(&e.types),
        tags: clone_strings(&e.tags),
        display_name: clone_opt_string(&e.display_name),
        title: clone_opt_string(&e.title),
        id: clone_opt_string(&e.id),
        preview: clone_opt_string(&e.preview),
    };
    proof {
        assert(r.types@ =~= e.types@);
        assert(r.tags@ =~= e.tags@);
    }
    r
}

/// First index whose entry has the given path, or `-1`.
pub open spec fn index_of_path(es: Seq<FileEntryModel>, p: Seq<char>, i: int) -> int
    decreases es.len() - i,
{
    if i < 0 || i >= es.len() {
        -1
    } else if es[i].rel_path == p {
        i
    } else {
        index_of_path(es, p, i + 1)
    }
}

/// The entries with every entry at path `p` removed.
pub open spec fn remove_path_model(es: Seq<FileEntryModel>, p: Seq<char>) -> Seq<FileEntryModel>
    decreases es.len(),
{
    if es.len() == 0 {
        es
    } else if es[0].rel_path == p {
        remove_path_model(es.drop_first(), p)
    } else {
        seq![es[0]] + remove_path_model(es.drop_first(), p)
    }
}

/// The paths of the entries whose `types` hold `t`, compared ASCII
/// case-insensitively (all paths when `t` is absent).
pub open spec fn entry_matches_type(e: FileEntryModel, t: Option<Seq<char>>) -> bool {
    match t {
        Some(tt) => exists|k: int|
            0 <= k < e.types.len() && ascii_eq_seq(#[trigger] e.types[k], tt),
        None => true,
    }
}

/// ASCII-case-insensitive equality of two characters.
pub open spec fn ascii_eq_char(a: char, b: char) -> bool {
    ||| a == b
    ||| (a as u32 >= 65 && a as u32 <= 90 && b as u32 == a as u32 + 32)
    ||| (b as u32 >= 65 && b as u32 <= 90 && a as u32 == b as u32 + 32)
}

/// ASCII-case-insensitive equality of two strings.
pub open spec fn ascii_eq_seq(a: Seq<char>, b: Seq<char>) -> bool {
    a.len() == b.len() && forall|j: int| 0 <= j < a.len() ==> ascii_eq_char(#[trigger] a[j], b[j])
}

/// Decide `ascii_eq_seq` on two buffers.
pub fn ascii_eq_exec(a: &Vec<char>, b: &Vec<char>) -> (r: bool)
    ensures
        r == ascii_eq_seq(a@, b@),
{
    if a.len() != b.len() {
        return false;
    }
    let mut i: usize = 0;
    while i < a.len()
        invariant
            0 <= i <= a@.len(),
            a@.len() == b@.len(),
            forall|j: int| 0 <= j < i ==> ascii_eq_char(#[trigger] a@[j], b@[j]),
        decreases a@.len() - i,
    {
        let x = a[i];
        let y = b[i];
        let xu = x as u32;
        let yu = y as u32;
        let ok = x == y || (xu >= 65 && xu <= 90 && yu == xu + 32) || (yu >= 65 && yu <= 90 && xu
            == yu + 32);
        if !ok {
            return false;
        }
        i = i + 1;
    }
    true
}

/// The filtered target list `link_targets` returns, from index `i` on.
pub open spec fn link_targets_model(es: Seq<FileEntryModel>, t: Option<Seq<char>>, i: int) -> Seq<
    Seq<char>,
>
    decreases es.len() - i,
{
    if i < 0 || i >= es.len() {
        Seq::empty()
    } else if entry_matches_type(es[i], t) {
        seq![es[i].rel_path] + link_targets_model(es, t, i + 1)
    } else {
        link_targets_model(es, t, i + 1)
    }
}

/// A flat, order-preserving index of the collection's files.
pub struct FileIndex {
    pub entries: Vec<FileEntry>,
}

impl FileIndex {
    /// An empty index.
    pub fn new() -> (r: FileIndex)
        ensures
            r.entries@.len() == 0,
    {
        FileIndex { entries: Vec::new() }
    }

    /// Replace the whole entry list (a full rebuild hands its result here).
    pub fn set_entries(&mut self, entries: Vec<FileEntry>)
        ensures
            final(self).entries == entries,
    {
        self.entries = entries;
    }

    /// Insert `entry`, replacing the first entry with the same path if one
    /// exists, appending otherwise.
    pub fn upsert_entry(&mut self, entry: FileEntry)
        ensures
            ({
                let es = entries_view(old(self).entries@);
                let k = index_of_path(es, entry@.rel_path, 0);
                if k >= 0 {
                    entries_view(final(self).entries@) == es.update(k, entry@)
                } else {
                    entries_view(final(self).entries@) == es.push(entry@)
                }
            }),
    {
        let ghost es = entries_view(self.entries@);
        let pv = chars_vec(entry.rel_path.as_str());
        let mut i: usize = 0;
        while i < self.entries.len()
            invariant
                0 <= i <= self.entries@.len(),
                es == entries_view(self.entries@),
                es == entries_view(old(self).entries@),
                pv@ == entry@.rel_path,
                index_of_path(es, entry@.rel_path, 0) == index_of_path(es, entry@.rel_path, i as int),
            decreases self.entries@.len() - i,
        {
            proof {
                assert(entries_view(self.entries@)[i as int] == self.entries@[i as int]@);
                assert(es[i as int] == self.entries@[i as int]@);
            }
            let ev = chars_vec(self.entries[i].rel_path.as_str());
            if crate::resolve::chars_eq(&ev, &pv) {
                proof {
                    assert(es[i as int].rel_path == entry@.rel_path);
                    assert(index_of_path(es, entry@.rel_path, i as int) == i);
                }
                self.entries.set(i, entry);
                proof {
                    assert(entries_view(self.entries@) =~= es.update(i as int, entry@));
                    let esp = entries_view(old(self).entries@);
                    let kp = index_of_path(esp, entry@.rel_path, 0);
                    assert(esp == es);
                    assert(kp == i as int);
                    assert(entries_view(self.entries@) == esp.update(kp, entry@));
                }
                return ;
            }
            proof {
                assert(es[i as int].rel_path != entry@.rel_path);
            }
            i = i + 1;
        }
        self.entries.push(entry);
        proof {
            assert(entries_view(self.entries@) =~= es.push(entry@));
        }
    }

    /// Remove every entry at the given path.
    pub fn remove_path(&mut self, rel_path: &str)
        ensures
            entries_view(final(self).entries@) == remove_path_model(
                entries_view(old(self).entries@),
                rel_path@,
            ),
    {
        let ghost orig = entries_view(self.entries@);
        let pv = chars_vec(rel_path);
        proof {
            assert(entries_view(self.entries@).subrange(0, 0)
                =~= Seq::<FileEntryModel>::empty());
            assert(entries_view(self.entries@).skip(0) =~= entries_view(self.entries@));
            assert(Seq::<FileEntryModel>::empty() + remove_path_model(
                entries_view(self.entries@),
                rel_path@,
            ) =~= remove_path_model(entries_view(self.entries@), rel_path@));
        }
        let mut i: usize = 0;
        while i < self.entries.len()
            invariant
                0 <= i <= self.entries@.len(),
                pv@ == rel_path@,
                forall|q: int|
                    0 <= q < i ==> #[trigger] entries_view(self.entries@)[q].rel_path != rel_path@,
                remove_path_model(orig, rel_path@) == entries_view(self.entries@).subrange(
                    0,
                    i as int,
                ) + remove_path_model(entries_view(self.entries@).skip(i as int), rel_path@),
            decreases self.entries@.len() - i,
        {
            let ghost es = entries_view(self.entries@);
            proof {
                assert(entries_view(self.entries@)[i as int] == self.entries@[i as int]@);
                assert(es[i as int] == self.entries@[i as int]@);
            }
            let ev = chars_vec(self.entries[i].rel_path.as_str());
            if crate::resolve::chars_eq(&ev, &pv) {
                let _ = self.entries.remove(i);
                proof {
                    let es2 = entries_view(self.entries@);
                    assert(es2 =~= es.remove(i as int));
                    assert(es.skip(i as int).drop_first() =~= es2.skip(i as int));
                    assert(es.skip(i as int)[0] == es[i as int]);
                    assert(es2.subrange(0, i as int) =~= es.subrange(0, i as int));
                }
            } else {
                proof {
                    let es2 = es;
                    assert(es.skip(i as int)[0] == es[i as int]);
                    assert(es.skip(i as int).drop_first() =~= es.skip(i + 1));
                    assert(es.subrange(0, (i + 1) as int) =~= es.subrange(0, i as int) + seq![
                        es[i as int],
                    ]);
                    assert(es.subrange(0, i as int) + (seq![es[i as int]] + remove_path_model(
                        es.skip(i + 1),
                        rel_path@,
                    )) =~= es.subrange(0, (i + 1) as int) + remove_path_model(
                        es.skip(i + 1),
                        rel_path@,
                    ));
                }
                i = i + 1;
            }
        }
        proof {
            let es = entries_view(self.entries@);
            assert(es.skip(i as int) =~= Seq::<FileEntryModel>::empty());
            assert(remove_path_model(es.skip(i as int), rel_path@)
                =~= Seq::<FileEntryModel>::empty());
            assert(es.subrange(0, i as int) =~= es);
            assert(remove_path_model(orig, rel_path@) =~= es);
        }
    }

    /// The relative paths matching `target_type`, per `link_targets_model`.
    pub fn link_targets(&self, target_type: Option<&str>) -> (r: Vec<String>)
        ensures
            strs_view(r@) == link_targets_model(
                entries_view(self.entries@),
                match target_type {
                    Some(t) => Some(t@),
                    None => None,
                },
                0,
            ),
    {
        let ghost es = entries_view(self.entries@);
        let ghost tv = match target_type {
            Some(t) => Some(t@),
            None => None::<Seq<char>>,
        };
        let mut r: Vec<String> = Vec::new();
        let mut i: usize = 0;
        while i < self.entries.len()
            invariant
                0 <= i <= self.entries@.len(),
                es == entries_view(self.entries@),
                tv == (match target_type {
                    Some(t) => Some(t@),
                    None => None::<Seq<char>>,
                }),
                link_targets_model(es, tv, 0) == strs_view(r@) + link_targets_model(
                    es,
                    tv,
                    i as int,
                ),
            decreases self.entries@.len() - i,
        {
            let e = &self.entries[i];
            let m = match target_type {
                Some(t) => self.entry_has_type(i, t),
                None => true,
            };
            proof {
                assert(m == entry_matches_type(es[i as int], tv));
            }
            if m {
                let ghost prev = r@;
                r.push(e.rel_path.clone());
                proof {
                    assert(strs_view(r@) =~= strs_view(prev).push(es[i as int].rel_path));
                    assert(strs_view(prev) + (seq![es[i as int].rel_path] + link_targets_model(
                        es,
                        tv,
                        i + 1,
                    )) =~= strs_view(r@) + link_targets_model(es, tv, i + 1));
                }
            }
            i = i + 1;
        }
        proof {
            assert(link_targets_model(es, tv, i as int) =~= Seq::<Seq<char>>::empty());
            assert(strs_view(r@) =~= link_targets_model(es, tv, 0));
        }
        r
    }

    /// Whether entry `i` carries the type `t`, ASCII case-insensitively.
    fn entry_has_type(&self, i: usize, t: &str) -> (r: bool)
        requires
            i < self.entries@.len(),
        ensures
            r == entry_matches_type(entries_view(self.entries@)[i as int], Some(t@)),
    {
        let tv = chars_vec(t);
        let e = &self.entries[i];
        let ghost em = entries_view(self.entries@)[i as int];
        proof {
            assert(entries_view(self.entries@)[i as int] == self.entries@[i as int]@);
            assert(em == self.entries@[i as int]@);
            assert(em.types == strs_view(e.types@));
        }
        let mut k: usize = 0;
        while k < e.types.len()
            invariant
                0 <= k <= e.types@.len(),
                em.types == strs_view(e.types@),
                em == entries_view(self.entries@)[i as int],
                i < self.entries@.len(),
                tv@ == t@,
                forall|q: int| 0 <= q < k ==> !ascii_eq_seq(#[trigger] em.types[q], t@),
            decreases e.types@.len() - k,
        {
            let yv = chars_vec(e.types[k].as_str());
            if ascii_eq_exec(&yv, &tv) {
                proof {
                    assert(ascii_eq_seq(em.types[k as int], t@));
                }
                return true;
            }
            k = k + 1;
        }
        proof {
            if entry_matches_type(em, Some(t@)) {
                let w = choose|w: int| 0 <= w < em.types.len() && ascii_eq_seq(em.types[w], t@);
                assert(!ascii_eq_seq(em.types[w], t@));
            }
        }
        false
    }

    /// A copy of every entry, in index order.
    pub fn all_entries(&self) -> (r: Vec<FileEntry>)
        ensures
            entries_view(r@) == entries_view(self.entries@),
    {
        let mut r: Vec<FileEntry> = Vec::new();
        let mut i: usize = 0;
        while i < self.entries.len()
            invariant
                0 <= i <= self.entries@.len(),
                entries_view(r@) == entries_view(self.entries@).subrange(0, i as int),
            decreases self.entries@.len() - i,
        {
            let ghost prevr = r@;
            let e = clone_entry(&self.entries[i]);
            r.push(e);
            proof {
                assert(entries_view(self.entries@)[i as int] == self.entries@[i as int]@);
                assert(entries_view(r@) =~= entries_view(prevr).push(e@));
                assert(entries_view(r@) =~= entries_view(self.entries@).subrange(
                    0,
                    (i + 1) as int,
                ));
            }
            i = i + 1;
        }
        proof {
            assert(entries_view(r@) =~= entries_view(self.entries@));
        }
        r
    }
}

/// The display rows `link_targets_with_display` returns, from index `i` on:
/// path, display name and preview of each matching entry.
pub open spec fn display_rows_model(es: Seq<FileEntryModel>, t: Option<Seq<char>>, i: int) -> Seq<
    (Seq<char>, Option<Seq<char>>, Option<Seq<char>>),
>
    decreases es.len() - i,
{
    if i < 0 || i >= es.len() {
        Seq::empty()
    } else if entry_matches_type(es[i], t) {
        seq![(es[i].rel_path, es[i].display_name, es[i].preview)] + display_rows_model(
            es,
            t,
            i + 1,
        )
    } else {
        display_rows_model(es, t, i + 1)
    }
}

/// The view of a display row.
pub open spec fn row_view(r: (String, Option<String>, Option<String>)) -> (
    Seq<char>,
    Option<Seq<char>>,
    Option<Seq<char>>,
) {
    (r.0@, crate::refs::opt_view(r.1), crate::refs::opt_view(r.2))
}

impl FileIndex {
    /// Paths with display names and previews for the matching entries, per
    /// `display_rows_model`.
    pub fn link_targets_with_display(&self, target_type: Option<&str>) -> (r: Vec<
        (String, Option<String>, Option<String>),
    >)
        ensures
            r@.map_values(|x: (String, Option<String>, Option<String>)| row_view(x))
                == display_rows_model(
                entries_view(self.entries@),
                match target_type {
                    Some(t) => Some(t@),
                    None => None,
                },
                0,
            ),
    {
        let ghost es = entries_view(self.entries@);
        let ghost tv = match target_type {
            Some(t) => Some(t@),
            None => None::<Seq<char>>,
        };
        let mut r: Vec<(String, Option<String>, Option<String>)> = Vec::new();
        proof {
            assert(r@.map_values(|x: (String, Option<String>, Option<String>)| row_view(x))
                =~= Seq::<(Seq<char>, Option<Seq<char>>, Option<Seq<char>>)>::empty());
        }
        let mut i: usize = 0;
        while i < self.entries.len()
            invariant
                0 <= i <= self.entries@.len(),
                es == entries_view(self.entries@),
                tv == (match target_type {
                    Some(t) => Some(t@),
                    None => None::<Seq<char>>,
                }),
                display_rows_model(es, tv, 0) == r@.map_values(
                    |x: (String, Option<String>, Option<String>)| row_view(x),
                ) + display_rows_model(es, tv, i as int),
            decreases self.entries@.len() - i,
        {
            proof {
                assert(entries_view(self.entries@)[i as int] == self.entries@[i as int]@);
            }
            let e = &self.entries[i];
            let m = match target_type {
                Some(t) => self.entry_has_type(i, t),
                None => true,
            };
            if m {
                let ghost prev = r@;
                let row = (
                    e.rel_path.clone(),
                    clone_opt_string(&e.display_name),
                    clone_opt_string(&e.preview),
                );
                r.push(row);
                proof {
                    let f = |x: (String, Option<String>, Option<String>)| row_view(x);
                    assert(r@.map_values(f) =~= prev.map_values(f).push(row_view(row)));
                    assert(row_view(row) == (es[i as int].rel_path, es[i as int].display_name,
                        es[i as int].preview));
                    assert(prev.map_values(f) + display_rows_model(es, tv, i as int)
                        =~= r@.map_values(f) + display_rows_model(es, tv, i + 1));
                }
            }
            i = i + 1;
        }
        proof {
            let f = |x: (String, Option<String>, Option<String>)| row_view(x);
            assert(display_rows_model(es, tv, i as int)
                =~= Seq::<(Seq<char>, Option<Seq<char>>, Option<Seq<char>>)>::empty());
            assert(r@.map_values(f) =~= display_rows_model(es, tv, 0));
        }
        r
    }
}

/// The preview of a document: its first 2000 characters, with an ellipsis
/// when the text is longer; an empty document has no preview.
pub open spec fn preview_spec(s: Seq<char>) -> Option<Seq<char>> {
    if s.len() == 0 {
        None
    } else if s.len() > 2000 {
        Some(s.take(2000) + "..."@)
    } else {
        Some(s)
    }
}

/// Build the preview of a document, per `preview_spec`.
pub fn build_preview(content: &str) -> (r: Option<String>)
    ensures
        crate::refs::opt_view(r) == preview_spec(content@),
{
    let v = chars_vec(content);
    if v.len() == 0 {
        return None;
    }
    if v.len() > 2000 {
        let mut p = crate::chartext::vec_range(&v, 0, 2000);
        p.push('.');
        p.push('.');
        p.push('.');
        proof {
            reveal_strlit("...");
            assert(p@ =~= content@.take(2000) + "..."@);
        }
        Some(crate::chartext::string_range(&p, 0, p.len()))
    } else {
        proof {
            assert(v@.subrange(0, v@.len() as int) =~= v@);
        }
        Some(crate::chartext::string_range(&v, 0, v.len()))
    }
}

/// One tag added to a running count list: the first pair with that tag is
/// bumped (saturating), a new tag is appended with count one.
pub open spec fn bump_tag(counts: Seq<(Seq<char>, int)>, t: Seq<char>) -> Seq<(Seq<char>, int)>
    decreases counts.len(),
{
    if counts.len() == 0 {
        seq![(t, 1int)]
    } else if counts[0].0 == t {
        seq![
            (t, if counts[0].1 < usize::MAX { counts[0].1 + 1 } else { counts[0].1 }),
        ] + counts.drop_first()
    } else {
        seq![counts[0]] + bump_tag(counts.drop_first(), t)
    }
}

/// All tags of `tags[j..]` added to `counts`.
pub open spec fn acc_tags(counts: Seq<(Seq<char>, int)>, tags: Seq<Seq<char>>, j: int) -> Seq<
    (Seq<char>, int),
>
    decreases tags.len() - j,
{
    if j < 0 || j >= tags.len() {
        counts
    } else {
        acc_tags(bump_tag(counts, tags[j]), tags, j + 1)
    }
}

/// All tags of the entries from `i` on added to `counts`.
pub open spec fn acc_entries(counts: Seq<(Seq<char>, int)>, es: Seq<FileEntryModel>, i: int) -> Seq<
    (Seq<char>, int),
>
    decreases es.len() - i,
{
    if i < 0 || i >= es.len() {
        counts
    } else {
        acc_entries(acc_tags(counts, es[i].tags, 0), es, i + 1)
    }
}

/// Lexicographic order on character sequences, by code point.
pub open spec fn lex_le(a: Seq<char>, b: Seq<char>) -> bool
    decreases a.len(),
{
    if a.len() == 0 {
        true
    } else if b.len() == 0 {
        false
    } else if (a[0] as u32) < (b[0] as u32) {
        true
    } else if (a[0] as u32) > (b[0] as u32) {
        false
    } else {
        lex_le(a.drop_first(), b.drop_first())
    }
}

/// The sort order of the tag table: larger counts first, ties broken by
/// name.
pub open spec fn pair_le(a: (Seq<char>, int), b: (Seq<char>, int)) -> bool {
    a.1 > b.1 || (a.1 == b.1 && lex_le(a.0, b.0))
}

/// `p` inserted in front of the first element it precedes.
pub open spec fn sort_insert_model(s: Seq<(Seq<char>, int)>, p: (Seq<char>, int)) -> Seq<
    (Seq<char>, int),
>
    decreases s.len(),
{
    if s.len() == 0 {
        seq![p]
    } else if pair_le(p, s[0]) {
        seq![p] + s
    } else {
        seq![s[0]] + sort_insert_model(s.drop_first(), p)
    }
}

/// The counts of `pairs[k..]` insertion-sorted onto `acc`.
pub open spec fn sort_pairs_model(acc: Seq<(Seq<char>, int)>, pairs: Seq<(Seq<char>, int)>, k: int) -> Seq<
    (Seq<char>, int),
>
    decreases pairs.len() - k,
{
    if k < 0 || k >= pairs.len() {
        acc
    } else {
        sort_pairs_model(sort_insert_model(acc, pairs[k]), pairs, k + 1)
    }
}

/// The tag table of an index: every tag occurrence counted, then sorted by
/// descending count with ties broken alphabetically.
pub open spec fn tag_counts_model(es: Seq<FileEntryModel>) -> Seq<(Seq<char>, int)> {
    sort_pairs_model(Seq::empty(), acc_entries(Seq::empty(), es, 0), 0)
}

/// The view of a tag-count pair.
pub open spec fn pair_view(p: (String, usize)) -> (Seq<char>, int) {
    (p.0@, p.1 as int)
}

/// The views of a vector of tag-count pairs.
pub open spec fn pairs_view(v: Seq<(String, usize)>) -> Seq<(Seq<char>, int)> {
    v.map_values(|p: (String, usize)| pair_view(p))
}


/// Add one tag occurrence to the running count table, per `bump_tag`.
fn bump_tag_exec(counts: &mut Vec<(String, usize)>, tagv: &Vec<char>)
    ensures
        pairs_view(final(counts)@) == bump_tag(pairs_view(old(counts)@), tagv@),
{
    let ghost orig = pairs_view(counts@);
    proof {
        assert(orig.subrange(0, 0) =~= Seq::<(Seq<char>, int)>::empty());
        assert(orig.skip(0) =~= orig);
        assert(Seq::<(Seq<char>, int)>::empty() + bump_tag(orig, tagv@) =~= bump_tag(orig, tagv@));
    }
    let mut k: usize = 0;
    while k < counts.len()
        invariant
            0 <= k <= counts@.len(),
            orig == pairs_view(old(counts)@),
            bump_tag(orig, tagv@) == pairs_view(counts@).subrange(0, k as int) + bump_tag(
                pairs_view(counts@).skip(k as int),
                tagv@,
            ),
        decreases counts@.len() - k,
    {
        let ghost cv = pairs_view(counts@);
        proof {
            assert(pairs_view(counts@)[k as int] == pair_view(counts@[k as int]));
            assert(cv.skip(k as int)[0] == cv[k as int]);
            assert(cv.skip(k as int).drop_first() =~= cv.skip(k + 1));
        }
        let kv = chars_vec(counts[k].0.as_str());
        if crate::resolve::chars_eq(&kv, tagv) {
            let c = counts[k].1;
            let c2: usize = if c < usize::MAX {
                c + 1
            } else {
                c
            };
            let name = counts[k].0.clone();
            counts.set(k, (name, c2));
            proof {
                assert(pairs_view(counts@) =~= cv.update(k as int, (tagv@, c2 as int)));
                assert(bump_tag(cv.skip(k as int), tagv@) =~= seq![(tagv@, c2 as int)] + cv.skip(
                    k + 1,
                ));
                assert(pairs_view(counts@) =~= cv.subrange(0, k as int) + (seq![
                    (tagv@, c2 as int),
                ] + cv.skip(k + 1)));
                assert(pairs_view(counts@) =~= bump_tag(orig, tagv@));
            }
            return ;
        }
        proof {
            assert(cv.subrange(0, (k + 1) as int) =~= cv.subrange(0, k as int) + seq![
                cv[k as int],
            ]);
            assert(cv.subrange(0, k as int) + (seq![cv[k as int]] + bump_tag(
                cv.skip(k + 1),
                tagv@,
            )) =~= cv.subrange(0, (k + 1) as int) + bump_tag(cv.skip(k + 1), tagv@));
        }
        k = k + 1;
    }
    let ghost cv = pairs_view(counts@);
    proof {
        assert(cv.skip(k as int).len() == 0);
        assert(bump_tag(cv.skip(k as int), tagv@) =~= seq![(tagv@, 1int)]);
    }
    let name = crate::chartext::string_range(tagv, 0, tagv.len());
    proof {
        assert(tagv@.subrange(0, tagv@.len() as int) =~= tagv@);
    }
    counts.push((name, 1));
    proof {
        assert(pairs_view(counts@) =~= cv.push((tagv@, 1int)));
        assert(pairs_view(counts@) =~= cv.subrange(0, cv.len() as int) + seq![(tagv@, 1int)]);
        assert(cv.subrange(0, cv.len() as int) =~= cv);
        assert(pairs_view(counts@) =~= bump_tag(orig, tagv@));
    }
}

/// Decide `lex_le` on two buffers.
pub fn lex_le_exec(a: &Vec<char>, b: &Vec<char>) -> (r: bool)
    ensures
        r == lex_le(a@, b@),
{
    proof {
        assert(a@.skip(0) =~= a@);
        assert(b@.skip(0) =~= b@);
    }
    let mut i: usize = 0;
    loop
        invariant
            0 <= i <= a@.len(),
            i <= b@.len(),
            lex_le(a@, b@) == lex_le(a@.skip(i as int), b@.skip(i as int)),
        ensures
            lex_le(a@, b@) == lex_le(a@.skip(i as int), b@.skip(i as int)),
            (i >= a@.len() || i >= b@.len() || (a@[i as int] as u32) != (b@[i as int] as u32)),
        decreases a@.len() - i,
    {
        if i >= a.len() || i >= b.len() {
            break ;
        }
        if (a[i] as u32) != (b[i] as u32) {
            break ;
        }
        proof {
            let sa = a@.skip(i as int);
            let sb = b@.skip(i as int);
            assert(sa[0] == a@[i as int] && sb[0] == b@[i as int]);
            assert(sa.drop_first() =~= a@.skip(i + 1));
            assert(sb.drop_first() =~= b@.skip(i + 1));
        }
        i = i + 1;
    }
    let ghost sa = a@.skip(i as int);
    let ghost sb = b@.skip(i as int);
    if i >= a.len() {
        proof {
            assert(sa.len() == 0);
        }
        true
    } else if i >= b.len() {
        proof {
            assert(sb.len() == 0 && sa.len() > 0);
        }
        false
    } else {
        let x = a[i] as u32;
        let y = b[i] as u32;
        proof {
            assert(sa[0] == a@[i as int] && sb[0] == b@[i as int]);
            assert(x != y);
        }
        x < y
    }
}

impl FileIndex {
    /// Count every tag across the index and sort the table, per
    /// `tag_counts_model`.
    pub fn tag_counts(&self) -> (r: Vec<(String, usize)>)
        ensures
            pairs_view(r@) == tag_counts_model(entries_view(self.entries@)),
    {
        let ghost es = entries_view(self.entries@);
        let mut counts: Vec<(String, usize)> = Vec::new();
        proof {
            assert(pairs_view(counts@) =~= Seq::<(Seq<char>, int)>::empty());
        }
        let mut i: usize = 0;
        while i < self.entries.len()
            invariant
                0 <= i <= self.entries@.len(),
                es == entries_view(self.entries@),
                acc_entries(Seq::empty(), es, 0) == acc_entries(pairs_view(counts@), es, i as int),
            decreases self.entries@.len() - i,
        {
            proof {
                assert(entries_view(self.entries@)[i as int] == self.entries@[i as int]@);
            }
            let e = &self.entries[i];
            let ghost base = pairs_view(counts@);
            let mut j: usize = 0;
            while j < e.tags.len()
                invariant
                    0 <= j <= e.tags@.len(),
                    i < self.entries@.len(),
                    es == entries_view(self.entries@),
                    e == self.entries@[i as int],
                    strs_view(e.tags@) == es[i as int].tags,
                    acc_tags(base, es[i as int].tags, 0) == acc_tags(
                        pairs_view(counts@),
                        es[i as int].tags,
                        j as int,
                    ),
                decreases e.tags@.len() - j,
            {
                let tagv = chars_vec(e.tags[j].as_str());
                proof {
                    assert(strs_view(e.tags@)[j as int] == e.tags@[j as int]@);
                }
                let ghost before = pairs_view(counts@);
                bump_tag_exec(&mut counts, &tagv);
                proof {
                    assert(acc_tags(pairs_view(counts@), es[i as int].tags, (j + 1) as int)
                        == acc_tags(before, es[i as int].tags, j as int));
                }
                j = j + 1;
            }
            proof {
                assert(acc_tags(pairs_view(counts@), es[i as int].tags, j as int) == pairs_view(
                    counts@,
                ));
                assert(acc_entries(pairs_view(counts@), es, (i + 1) as int) == acc_entries(
                    base,
                    es,
                    i as int,
                ));
            }
            i = i + 1;
        }
        let ghost flat = acc_entries(Seq::empty(), es, 0);
        proof {
            assert(acc_entries(pairs_view(counts@), es, i as int) == pairs_view(counts@));
            assert(flat == pairs_view(counts@));
        }
        // insertion sort by descending count, ties by name
        let mut out: Vec<(String, usize)> = Vec::new();
        proof {
            assert(pairs_view(out@) =~= Seq::<(Seq<char>, int)>::empty());
        }
        let mut k: usize = 0;
        while k < counts.len()
            invariant
                0 <= k <= counts@.len(),
                flat == pairs_view(counts@),
                sort_pairs_model(Seq::empty(), flat, 0) == sort_pairs_model(
                    pairs_view(out@),
                    flat,
                    k as int,
                ),
            decreases counts@.len() - k,
        {
            proof {
                assert(pairs_view(counts@)[k as int] == pair_view(counts@[k as int]));
            }
            let p_name = counts[k].0.clone();
            let p_count = counts[k].1;
            let pv = chars_vec(p_name.as_str());
            let ghost pm = (pv@, p_count as int);
            let ghost before = pairs_view(out@);
            proof {
                assert(before.subrange(0, 0) =~= Seq::<(Seq<char>, int)>::empty());
                assert(before.skip(0) =~= before);
                assert(Seq::<(Seq<char>, int)>::empty() + sort_insert_model(before, pm)
                    =~= sort_insert_model(before, pm));
            }
            // find the insertion position
            let mut pos: usize = 0;
            loop
                invariant
                    0 <= pos <= out@.len(),
                    pm == (pv@, p_count as int),
                    before == pairs_view(out@),
                    sort_insert_model(before, pm) == pairs_view(out@).subrange(0, pos as int)
                        + sort_insert_model(pairs_view(out@).skip(pos as int), pm),
                ensures
                    before == pairs_view(out@),
                    sort_insert_model(before, pm) == pairs_view(out@).subrange(0, pos as int)
                        + sort_insert_model(pairs_view(out@).skip(pos as int), pm),
                    pos <= out@.len(),
                    pos == out@.len() || pair_le(pm, pairs_view(out@)[pos as int]),
                    pos == out@.len() ==> sort_insert_model(pairs_view(out@).skip(pos as int), pm)
                        == seq![pm],
                    pos < out@.len() ==> sort_insert_model(pairs_view(out@).skip(pos as int), pm)
                        == seq![pm] + pairs_view(out@).skip(pos as int),
                decreases out@.len() - pos,
            {
                let ghost ov = pairs_view(out@);
                if pos >= out.len() {
                    proof {
                        assert(ov.skip(pos as int).len() == 0);
                        assert(sort_insert_model(ov.skip(pos as int), pm) =~= seq![pm]);
                    }
                    break ;
                }
                proof {
                    assert(pairs_view(out@)[pos as int] == pair_view(out@[pos as int]));
                    assert(ov.skip(pos as int)[0] == ov[pos as int]);
                    assert(ov.skip(pos as int).drop_first() =~= ov.skip(pos + 1));
                }
                // decide pair_le(pm, out[pos])
                let oc = out[pos].1;
                let le: bool;
                if p_count > oc {
                    le = true;
                } else if p_count == oc {
                    let ov2 = chars_vec(out[pos].0.as_str());
                    le = lex_le_exec(&pv, &ov2);
                } else {
                    le = false;
                }
                proof {
                    assert(le == pair_le(pm, ov[pos as int]));
                }
                if le {
                    proof {
                        assert(sort_insert_model(ov.skip(pos as int), pm) =~= seq![pm] + ov.skip(
                            pos as int,
                        ));
                    }
                    break ;
                }
                proof {
                    assert(ov.subrange(0, (pos + 1) as int) =~= ov.subrange(0, pos as int) + seq![
                        ov[pos as int],
                    ]);
                    assert(ov.subrange(0, pos as int) + (seq![ov[pos as int]]
                        + sort_insert_model(ov.skip(pos + 1), pm)) =~= ov.subrange(
                        0,
                        (pos + 1) as int,
                    ) + sort_insert_model(ov.skip(pos + 1), pm));
                }
                pos = pos + 1;
            }
            out.insert(pos, (p_name, p_count));
            proof {
                let ov = before;
                assert(pairs_view(out@) =~= ov.subrange(0, pos as int) + seq![pm] + ov.skip(
                    pos as int,
                ));
                if pos < ov.len() {
                    assert(sort_insert_model(ov, pm) =~= ov.subrange(0, pos as int) + (seq![pm]
                        + ov.skip(pos as int)));
                } else {
                    assert(ov.subrange(0, pos as int) =~= ov);
                    assert(sort_insert_model(ov, pm) =~= ov.subrange(0, pos as int) + seq![pm]
                        + ov.skip(pos as int));
                }
                assert(pairs_view(out@) =~= sort_insert_model(ov, pm));
                assert(pm == flat[k as int]);
                assert(sort_pairs_model(pairs_view(out@), flat, (k + 1) as int)
                    == sort_pairs_model(ov, flat, k as int));
            }
            k = k + 1;
        }
        proof {
            assert(sort_pairs_model(pairs_view(out@), flat, k as int) == pairs_view(out@));
            assert(pairs_view(out@) == tag_counts_model(es));
        }
        out
    }
}

} // verus!
