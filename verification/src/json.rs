//! A plain model of the JSON-like values carried by parsed frontmatter:
//! numbers keep their rendered form, objects keep their key order.

use vstd::prelude::*;

verus! {

/// A frontmatter value.
#[derive(Debug)]
pub enum Val {
    Null,
    Bool(bool),
    Num(String),
    Str(String),
    List(Vec<Val>),
    Obj(Vec<(String, Val)>),
}

/// The value under `key` in an object's field list (first match).
pub open spec fn obj_get(fields: Seq<(String, Val)>, key: Seq<char>) -> Option<Val>
    decreases fields.len(),
{
    if fields.len() == 0 {
        None
    } else if fields[0].0@ == key {
        Some(fields[0].1)
    } else {
        obj_get(fields.drop_first(), key)
    }
}

/// Whether an object has a field named `key`.
pub open spec fn obj_has(fields: Seq<(String, Val)>, key: Seq<char>) -> bool {
    obj_get(fields, key) is Some
}

/// Look a key up in an object's field list, per `obj_get`.
pub fn obj_get_exec<'a>(fields: &'a Vec<(String, Val)>, key: &str) -> (r: Option<&'a Val>)
    ensures
        match r {
            Some(v) => obj_get(fields@, key@) == Some(*v),
            None => obj_get(fields@, key@) is None,
        },
{
    let kv = crate::chartext::chars_vec(key);
    proof {
        assert(fields@.skip(0) =~= fields@);
    }
    let mut i: usize = 0;
    while i < fields.len()
        invariant
            0 <= i <= fields@.len(),
            kv@ == key@,
            obj_get(fields@, key@) == obj_get(fields@.skip(i as int), key@),
        decreases fields@.len() - i,
    {
        proof {
            assert(fields@.skip(i as int)[0] == fields@[i as int]);
            assert(fields@.skip(i as int).drop_first() =~= fields@.skip(i + 1));
        }
        let fv = crate::chartext::chars_vec(fields[i].0.as_str());
        if crate::resolve::chars_eq(&fv, &kv) {
            return Some(&fields[i].1);
        }
        i = i + 1;
    }
    proof {
        assert(fields@.skip(i as int).len() == 0);
    }
    None
}

/// The trimmed text of a string value under `key`, when it is non-empty.
pub open spec fn json_string_spec(fields: Seq<(String, Val)>, key: Seq<char>) -> Option<Seq<char>> {
    match obj_get(fields, key) {
        Some(Val::Str(s)) => {
            let t = crate::chartext::trim_spec(s@);
            if t.len() == 0 {
                None
            } else {
                Some(t)
            }
        },
        _ => None,
    }
}

/// Extract a non-empty trimmed string field, per `json_string_spec`.
pub fn json_string(fields: &Vec<(String, Val)>, key: &str) -> (r: Option<String>)
    ensures
        crate::refs::opt_view(r) == json_string_spec(fields@, key@),
{
    match obj_get_exec(fields, key) {
        Some(v) => match v {
            Val::Str(s) => {
                let sv = crate::chartext::chars_vec(s.as_str());
                let t = crate::chartext::trim_range_string(&sv, 0, sv.len());
                proof {
                    assert(sv@.subrange(0, sv@.len() as int) =~= sv@);
                }
                if t.unicode_len() == 0 {
                    None
                } else {
                    Some(t)
                }
            },
            _ => None,
        },
        None => None,
    }
}

} // verus!
