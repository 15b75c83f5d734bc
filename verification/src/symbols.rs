//! Workspace-symbol and query filtering: field queries `type:` `tag:` `id:`
//! `title:` and free-text search across an entry's searchable fields.

use vstd::prelude::*;

use crate::chartext::{
    chars_vec, find_char_from, find_from, string_range, trim_range_vec, trim_spec,
};
use crate::file_index::{ascii_eq_seq, ascii_eq_exec, entries_view, FileEntry, FileEntryModel};
use crate::resolve::{lower_of, lower_str, strs_view, append_chars};

verus! {

/// Whether `needle` occurs in `hay` at position `i`.
pub open spec fn is_sub_at(hay: Seq<char>, needle: Seq<char>, i: int) -> bool {
    0 <= i && i + needle.len() <= hay.len() && hay.subrange(i, i + needle.len()) == needle
}

/// Whether `needle` occurs anywhere in `hay`.
pub open spec fn contains_sub(hay: Seq<char>, needle: Seq<char>) -> bool {
    exists|i: int| is_sub_at(hay, needle, i)
}

/// Decide `contains_sub` by scanning every position.
pub fn contains_sub_exec(hay: &Vec<char>, needle: &Vec<char>) -> (r: bool)
    ensures
        r == contains_sub(hay@, needle@),
{
    if needle.len() == 0 {
        proof {
            assert(hay@.subrange(0, 0) =~= needle@);
            assert(is_sub_at(hay@, needle@, 0));
        }
        return true;
    }
    if needle.len() > hay.len() {
        proof {
            if contains_sub(hay@, needle@) {
                let w = choose|w: int| is_sub_at(hay@, needle@, w);
            }
        }
        return false;
    }
    let mut i: usize = 0;
    while i <= hay.len() - needle.len()
        invariant
            1 <= needle@.len() <= hay@.len(),
            hay@.len() <= usize::MAX,
            0 <= i <= hay@.len() - needle@.len() + 1,
            forall|q: int| 0 <= q < i ==> !is_sub_at(hay@, needle@, q),
        decreases hay@.len() - needle@.len() + 1 - i,
    {
        let mut j: usize = 0;
        let mut ok = true;
        while j < needle.len()
            invariant
                0 <= j <= needle@.len(),
                i + needle@.len() <= hay@.len(),
                hay@.len() <= usize::MAX,
                ok ==> forall|q: int| 0 <= q < j ==> hay@[i + q] == needle@[q],
                !ok ==> !is_sub_at(hay@, needle@, i as int),
            ensures
                i + needle@.len() <= hay@.len(),
                ok ==> (forall|q: int| 0 <= q < needle@.len() ==> hay@[i + q] == needle@[q]),
                !ok ==> !is_sub_at(hay@, needle@, i as int),
            decreases needle@.len() - j,
        {
            if hay[i + j] != needle[j] {
                proof {
                    if is_sub_at(hay@, needle@, i as int) {
                        assert(hay@.subrange(i as int, i + needle@.len())[j as int]
                            == needle@[j as int]);
                    }
                }
                ok = false;
                break ;
            }
            j = j + 1;
        }
        if ok {
            proof {
                assert(hay@.subrange(i as int, i + needle@.len()) =~= needle@);
                assert(is_sub_at(hay@, needle@, i as int));
            }
            return true;
        }
        i = i + 1;
    }
    proof {
        if contains_sub(hay@, needle@) {
            let w = choose|w: int| is_sub_at(hay@, needle@, w);
            assert(!is_sub_at(hay@, needle@, w));
        }
    }
    false
}

/// Whether some string in `list` equals `v`, ASCII case-insensitively.
pub fn any_ascii_eq(list: &Vec<String>, v: &Vec<char>) -> (r: bool)
    ensures
        r == exists|k: int|
            0 <= k < list@.len() && ascii_eq_seq(#[trigger] strs_view(list@)[k], v@),
{
    let mut k: usize = 0;
    while k < list.len()
        invariant
            0 <= k <= list@.len(),
            forall|q: int| 0 <= q < k ==> !ascii_eq_seq(#[trigger] strs_view(list@)[q], v@),
        decreases list@.len() - k,
    {
        proof {
            assert(strs_view(list@)[k as int] == list@[k as int]@);
        }
        let lv = chars_vec(list[k].as_str());
        if ascii_eq_exec(&lv, v) {
            return true;
        }
        k = k + 1;
    }
    proof {
        if exists|q: int| 0 <= q < list@.len() && ascii_eq_seq(#[trigger] strs_view(list@)[q], v@) {
            let w = choose|w: int|
                0 <= w < list@.len() && ascii_eq_seq(#[trigger] strs_view(list@)[w], v@);
            assert(!ascii_eq_seq(strs_view(list@)[w], v@));
        }
    }
    false
}

/// Strings joined with single spaces.
pub open spec fn join_space(parts: Seq<Seq<char>>) -> Seq<char>
    decreases parts.len(),
{
    if parts.len() == 0 {
        Seq::empty()
    } else if parts.len() == 1 {
        parts[0]
    } else {
        join_space(parts.drop_last()) + seq![' '] + parts.last()
    }
}

/// The free-text haystack of an entry: path, display name, title, types and
/// tags, space-separated.
pub open spec fn haystack_spec(e: FileEntryModel) -> Seq<char> {
    e.rel_path + seq![' '] + (match e.display_name {
        Some(d) => d,
        None => Seq::empty(),
    }) + seq![' '] + (match e.title {
        Some(t) => t,
        None => Seq::empty(),
    }) + seq![' '] + join_space(e.types) + seq![' '] + join_space(e.tags)
}

/// Whether an entry matches a query: an empty query matches everything; a
/// `key:value` query matches by type, tag, id or title; anything else is a
/// free-text search over the lowercased haystack.
pub open spec fn matches_query_spec(e: FileEntryModel, q: Seq<char>) -> bool {
    if q.len() == 0 {
        true
    } else {
        let c = find_from(q, 0, ':');
        if c < q.len() {
            let k = trim_spec(q.subrange(0, c));
            let v = trim_spec(q.subrange(c + 1, q.len() as int));
            if k == "type"@ {
                exists|w: int| 0 <= w < e.types.len() && ascii_eq_seq(#[trigger] e.types[w], v)
            } else if k == "tag"@ {
                exists|w: int| 0 <= w < e.tags.len() && ascii_eq_seq(#[trigger] e.tags[w], v)
            } else if k == "id"@ {
                match e.id {
                    Some(id) => ascii_eq_seq(id, v),
                    None => false,
                }
            } else if k == "title"@ {
                match e.title {
                    Some(t) => contains_sub(lower_of(t), v),
                    None => false,
                }
            } else {
                false
            }
        } else {
            contains_sub(lower_of(haystack_spec(e)), q)
        }
    }
}

/// Join the strings of `list` with spaces into `out`.
fn append_joined(out: &mut Vec<char>, list: &Vec<String>)
    ensures
        final(out)@ == old(out)@ + join_space(strs_view(list@)),
{
    let ghost parts = strs_view(list@);
    let mut k: usize = 0;
    while k < list.len()
        invariant
            0 <= k <= list@.len(),
            parts == strs_view(list@),
            out@ == old(out)@ + join_space(parts.subrange(0, k as int)),
        decreases list@.len() - k,
    {
        proof {
            assert(strs_view(list@)[k as int] == list@[k as int]@);
        }
        if k > 0 {
            out.push(' ');
        }
        let sv = chars_vec(list[k].as_str());
        append_chars(out, &sv);
        proof {
            let sub1 = parts.subrange(0, (k + 1) as int);
            assert(sub1.drop_last() =~= parts.subrange(0, k as int));
            assert(sub1.last() == parts[k as int]);
            if k == 0 {
                assert(join_space(sub1) == sub1[0]);
                assert(sub1[0] == parts[0]);
                assert(out@ =~= old(out)@ + join_space(sub1));
            } else {
                assert(out@ =~= old(out)@ + (join_space(parts.subrange(0, k as int)) + seq![' ']
                    + parts[k as int]));
                assert(out@ =~= old(out)@ + join_space(sub1));
            }
        }
        k = k + 1;
    }
    proof {
        assert(parts.subrange(0, parts.len() as int) =~= parts);
        assert(out@ =~= old(out)@ + join_space(parts));
    }
}

/// Decide `matches_query_spec` for one entry; the query is expected already
/// trimmed and lowercased by the caller.
pub fn matches_query(entry: &FileEntry, query: &str) -> (r: bool)
    ensures
        r == matches_query_spec(entry@, query@),
{
    let qv = chars_vec(query);
    if qv.len() == 0 {
        return true;
    }
    let c = find_char_from(&qv, 0, ':');
    if c < qv.len() {
        let k = trim_range_vec(&qv, 0, c);
        let v = trim_range_vec(&qv, c + 1, qv.len());
        proof {
            assert(k@.subrange(0, k@.len() as int) =~= k@);
        }
        if crate::chartext::range_eq_str(&k, 0, k.len(), "type") {
            let m = any_ascii_eq(&entry.types, &v);
            proof {
                if m {
                    let w = choose|w: int|
                        0 <= w < entry.types@.len() && ascii_eq_seq(
                            #[trigger] strs_view(entry.types@)[w],
                            v@,
                        );
                    assert(0 <= w < entry@.types.len() && ascii_eq_seq(entry@.types[w], v@));
                } else {
                    if exists|w: int|
                        0 <= w < entry@.types.len() && ascii_eq_seq(#[trigger] entry@.types[w], v@) {
                        let w = choose|w: int|
                            0 <= w < entry@.types.len() && ascii_eq_seq(
                                #[trigger] entry@.types[w],
                                v@,
                            );
                        assert(ascii_eq_seq(strs_view(entry.types@)[w], v@));
                    }
                }
            }
            return m;
        }
        if crate::chartext::range_eq_str(&k, 0, k.len(), "tag") {
            let m = any_ascii_eq(&entry.tags, &v);
            proof {
                if m {
                    let w = choose|w: int|
                        0 <= w < entry.tags@.len() && ascii_eq_seq(
                            #[trigger] strs_view(entry.tags@)[w],
                            v@,
                        );
                    assert(0 <= w < entry@.tags.len() && ascii_eq_seq(entry@.tags[w], v@));
                } else {
                    if exists|w: int|
                        0 <= w < entry@.tags.len() && ascii_eq_seq(#[trigger] entry@.tags[w], v@) {
                        let w = choose|w: int|
                            0 <= w < entry@.tags.len() && ascii_eq_seq(
                                #[trigger] entry@.tags[w],
                                v@,
                            );
                        assert(ascii_eq_seq(strs_view(entry.tags@)[w], v@));
                    }
                }
            }
            return m;
        }
        if crate::chartext::range_eq_str(&k, 0, k.len(), "id") {
            match &entry.id {
                Some(id) => {
                    let iv = chars_vec(id.as_str());
                    return ascii_eq_exec(&iv, &v);
                },
                None => {
                    return false;
                },
            }
        }
        if crate::chartext::range_eq_str(&k, 0, k.len(), "title") {
            match &entry.title {
                Some(t) => {
                    let lt = lower_str(t.as_str());
                    let ltv = chars_vec(lt.as_str());
                    return contains_sub_exec(&ltv, &v);
                },
                None => {
                    return false;
                },
            }
        }
        return false;
    }
    // free text over the lowercased haystack
    let mut hay: Vec<char> = Vec::new();
    let rv = chars_vec(entry.rel_path.as_str());
    append_chars(&mut hay, &rv);
    hay.push(' ');
    match &entry.display_name {
        Some(d) => {
            let dv = chars_vec(d.as_str());
            append_chars(&mut hay, &dv);
        },
        None => {},
    }
    hay.push(' ');
    match &entry.title {
        Some(t) => {
            let tv = chars_vec(t.as_str());
            append_chars(&mut hay, &tv);
        },
        None => {},
    }
    hay.push(' ');
    append_joined(&mut hay, &entry.types);
    hay.push(' ');
    append_joined(&mut hay, &entry.tags);
    proof {
        assert(hay@ =~= haystack_spec(entry@));
    }
    let hs = string_range(&hay, 0, hay.len());
    proof {
        assert(hay@.subrange(0, hay@.len() as int) =~= hay@);
    }
    let low = lower_str(hs.as_str());
    let lv = chars_vec(low.as_str());
    contains_sub_exec(&lv, &qv)
}

/// The entries matching a query, in index order.
pub open spec fn query_matches_model(es: Seq<FileEntryModel>, q: Seq<char>, i: int) -> Seq<
    FileEntryModel,
>
    decreases es.len() - i,
{
    if i < 0 || i >= es.len() {
        Seq::empty()
    } else if matches_query_spec(es[i], q) {
        seq![es[i]] + query_matches_model(es, q, i + 1)
    } else {
        query_matches_model(es, q, i + 1)
    }
}

/// Filter entries by a query, per `query_matches_model`.
pub fn query_entries(entries: &Vec<FileEntry>, query: &str) -> (r: Vec<FileEntry>)
    ensures
        entries_view(r@) == query_matches_model(entries_view(entries@), query@, 0),
{
    let ghost es = entries_view(entries@);
    let mut r: Vec<FileEntry> = Vec::new();
    proof {
        assert(entries_view(r@) =~= Seq::<FileEntryModel>::empty());
    }
    let mut i: usize = 0;
    while i < entries.len()
        invariant
            0 <= i <= entries@.len(),
            es == entries_view(entries@),
            query_matches_model(es, query@, 0) == entries_view(r@) + query_matches_model(
                es,
                query@,
                i as int,
            ),
        decreases entries@.len() - i,
    {
        proof {
            assert(entries_view(entries@)[i as int] == entries@[i as int]@);
        }
        if matches_query(&entries[i], query) {
            let ghost prev = r@;
            let e = crate::file_index::clone_entry(&entries[i]);
            r.push(e);
            proof {
                assert(entries_view(r@) =~= entries_view(prev).push(es[i as int]));
                assert(entries_view(prev) + (seq![es[i as int]] + query_matches_model(
                    es,
                    query@,
                    i + 1,
                )) =~= entries_view(r@) + query_matches_model(es, query@, i + 1));
            }
        }
        i = i + 1;
    }
    proof {
        assert(query_matches_model(es, query@, i as int) =~= Seq::<FileEntryModel>::empty());
        assert(entries_view(r@) =~= query_matches_model(es, query@, 0));
    }
    r
}

} // verus!
