//! The type schema the server consults: type definitions with single
//! inheritance, field definitions, generated-value strategies, and the
//! will-save timestamp edits.

use vstd::prelude::*;

use crate::chartext::{chars_vec, find_char_from, find_from, string_range, vec_range};
use crate::json::{obj_get, Val};
use crate::lines::lines_spec;
use crate::protocol::{Position, Range, TextEdit};
use crate::resolve::append_chars;
use crate::text::{field_line_from, fm_bounds_spec};

verus! {

/// How a field's value is synthesized.
#[derive(Debug, Clone, Copy, PartialEq, Eq, Structural)]
pub enum GeneratedStrategy {
    Ulid,
    Uuid,
    Now,
    NowOnWrite,
    Derived,
}

/// One field of a type definition.
#[derive(Debug)]
pub struct FieldDef {
    pub field_type: String,
    pub required: bool,
    pub default: Option<String>,
    pub values: Option<Vec<String>>,
    pub description: Option<String>,
    pub deprecated: Option<String>,
    pub generated: Option<GeneratedStrategy>,
    pub target: Option<String>,
    pub items: Option<Box<FieldDef>>,
}

/// One type definition: ordered fields, optional parent, filename pattern
/// and display-name field.
#[derive(Debug)]
pub struct TypeDef {
    pub name: String,
    pub description: Option<String>,
    pub fields: Vec<(String, FieldDef)>,
    pub extends: Option<String>,
    pub filename_pattern: Option<String>,
    pub display_name: Option<String>,
}

/// The whole schema: type name to definition, in definition order.
pub struct Schema {
    pub types: Vec<(String, TypeDef)>,
}

/// The first type under `name` (or nothing).
pub open spec fn type_get(types: Seq<(String, TypeDef)>, name: Seq<char>) -> Option<TypeDef>
    decreases types.len(),
{
    if types.len() == 0 {
        None
    } else if types[0].0@ == name {
        Some(types[0].1)
    } else {
        type_get(types.drop_first(), name)
    }
}

/// The first field under `name` in a field list (or nothing).
pub open spec fn field_get(fields: Seq<(String, FieldDef)>, name: Seq<char>) -> Option<FieldDef>
    decreases fields.len(),
{
    if fields.len() == 0 {
        None
    } else if fields[0].0@ == name {
        Some(fields[0].1)
    } else {
        field_get(fields.drop_first(), name)
    }
}

impl Schema {
    /// Look a type up by name, per `type_get`.
    pub fn get_type<'a>(&'a self, name: &str) -> (r: Option<&'a TypeDef>)
        ensures
            match r {
                Some(t) => type_get(self.types@, name@) == Some(*t),
                None => type_get(self.types@, name@) is None,
            },
    {
        let nv = chars_vec(name);
        proof {
            assert(self.types@.skip(0) =~= self.types@);
        }
        let mut i: usize = 0;
        while i < self.types.len()
            invariant
                0 <= i <= self.types@.len(),
                nv@ == name@,
                type_get(self.types@, name@) == type_get(self.types@.skip(i as int), name@),
            decreases self.types@.len() - i,
        {
            proof {
                assert(self.types@.skip(i as int)[0] == self.types@[i as int]);
                assert(self.types@.skip(i as int).drop_first() =~= self.types@.skip(i + 1));
            }
            let tv = chars_vec(self.types[i].0.as_str());
            if crate::resolve::chars_eq(&tv, &nv) {
                return Some(&self.types[i].1);
            }
            i = i + 1;
        }
        proof {
            assert(self.types@.skip(i as int).len() == 0);
        }
        None
    }
}

/// Look a field up in a type's field list, per `field_get`.
pub fn get_field<'a>(fields: &'a Vec<(String, FieldDef)>, name: &str) -> (r: Option<&'a FieldDef>)
    ensures
        match r {
            Some(d) => field_get(fields@, name@) == Some(*d),
            None => field_get(fields@, name@) is None,
        },
{
    let nv = chars_vec(name);
    proof {
        assert(fields@.skip(0) =~= fields@);
    }
    let mut i: usize = 0;
    while i < fields.len()
        invariant
            0 <= i <= fields@.len(),
            nv@ == name@,
            field_get(fields@, name@) == field_get(fields@.skip(i as int), name@),
        decreases fields@.len() - i,
    {
        proof {
            assert(fields@.skip(i as int)[0] == fields@[i as int]);
            assert(fields@.skip(i as int).drop_first() =~= fields@.skip(i + 1));
        }
        let fv = chars_vec(fields[i].0.as_str());
        if crate::resolve::chars_eq(&fv, &nv) {
            return Some(&fields[i].1);
        }
        i = i + 1;
    }
    proof {
        assert(fields@.skip(i as int).len() == 0);
    }
    None
}

/// The generated strategy of `field` found by walking the `extends` chain
/// from `name`, giving up after `fuel` ancestors (the chain is expected
/// acyclic; the fuel makes the walk total).
pub open spec fn chain_strategy(
    types: Seq<(String, TypeDef)>,
    name: Seq<char>,
    field: Seq<char>,
    fuel: int,
) -> Option<GeneratedStrategy>
    decreases fuel,
{
    if fuel <= 0 {
        None
    } else {
        match type_get(types, name) {
            None => None,
            Some(td) => match field_get(td.fields@, field) {
                Some(fd) => match fd.generated {
                    Some(st) => Some(st),
                    None => match td.extends {
                        Some(p) => chain_strategy(types, p@, field, fuel - 1),
                        None => None,
                    },
                },
                None => match td.extends {
                    Some(p) => chain_strategy(types, p@, field, fuel - 1),
                    None => None,
                },
            },
        }
    }
}

/// Walk the extends chain for a field's generated strategy; at most one
/// step per type of the schema, so a cyclic chain ends instead of looping.
pub fn chain_strategy_exec(schema: &Schema, tname: &str, field: &str) -> (r: Option<
    GeneratedStrategy,
>)
    ensures
        r == chain_strategy(schema.types@, tname@, field@, schema.types@.len() as int),
{
    let mut fuel: usize = schema.types.len();
    let mut name = {
        let nv = chars_vec(tname);
        string_range(&nv, 0, nv.len())
    };
    proof {
        assert(name@ =~= tname@);
    }
    loop
        invariant
            fuel <= schema.types@.len() as int,
            chain_strategy(schema.types@, tname@, field@, schema.types@.len() as int)
                == chain_strategy(schema.types@, name@, field@, fuel as int),
        ensures
            chain_strategy(schema.types@, tname@, field@, schema.types@.len() as int)
                == chain_strategy(schema.types@, name@, field@, fuel as int),
            ({
                let c = chain_strategy(schema.types@, name@, field@, fuel as int);
                match c {
                    Some(_) => false,
                    None => true,
                }
            }) || ({
                match type_get(schema.types@, name@) {
                    Some(td) => field_get(td.fields@, field@) matches Some(fd) && fd.generated
                        is Some,
                    None => false,
                }
            }),
        decreases fuel,
    {
        if fuel == 0 {
            break ;
        }
        let td = match schema.get_type(name.as_str()) {
            Some(t) => t,
            None => {
                break ;
            },
        };
        match get_field(&td.fields, field) {
            Some(fd) => match &fd.generated {
                Some(_) => {
                    break ;
                },
                None => {},
            },
            None => {},
        }
        match &td.extends {
            Some(p) => {
                name = p.clone();
                fuel = fuel - 1;
            },
            None => {
                break ;
            },
        }
    }
    if fuel == 0 {
        return None;
    }
    match schema.get_type(name.as_str()) {
        Some(td) => match get_field(&td.fields, field) {
            Some(fd) => match &fd.generated {
                Some(st) => Some(*st),
                None => None,
            },
            None => None,
        },
        None => None,
    }
}

/// The first filename pattern on the extends chain from `name`.
pub open spec fn chain_pattern(
    types: Seq<(String, TypeDef)>,
    name: Seq<char>,
    fuel: int,
) -> Option<Seq<char>>
    decreases fuel,
{
    if fuel <= 0 {
        None
    } else {
        match type_get(types, name) {
            None => None,
            Some(td) => match td.filename_pattern {
                Some(p) => Some(p@),
                None => match td.extends {
                    Some(parent) => chain_pattern(types, parent@, fuel - 1),
                    None => None,
                },
            },
        }
    }
}

/// Walk the extends chain for the first filename pattern, with the same
/// fuel bound as `chain_strategy_exec`.
pub fn find_filename_pattern(schema: &Schema, tname: &str) -> (r: Option<String>)
    ensures
        match r {
            Some(p) => chain_pattern(schema.types@, tname@, schema.types@.len() as int) == Some(
                p@,
            ),
            None => chain_pattern(schema.types@, tname@, schema.types@.len() as int) is None,
        },
{
    let mut fuel: usize = schema.types.len();
    let mut name = {
        let nv = chars_vec(tname);
        string_range(&nv, 0, nv.len())
    };
    proof {
        assert(name@ =~= tname@);
    }
    loop
        invariant
            fuel <= schema.types@.len() as int,
            chain_pattern(schema.types@, tname@, schema.types@.len() as int) == chain_pattern(
                schema.types@,
                name@,
                fuel as int,
            ),
        ensures
            chain_pattern(schema.types@, tname@, schema.types@.len() as int) == chain_pattern(
                schema.types@,
                name@,
                fuel as int,
            ),
            ({
                let c = chain_pattern(schema.types@, name@, fuel as int);
                c is None || (fuel > 0 && (match type_get(schema.types@, name@) {
                    Some(td) => td.filename_pattern is Some,
                    None => false,
                }))
            }),
        decreases fuel,
    {
        if fuel == 0 {
            break ;
        }
        let td = match schema.get_type(name.as_str()) {
            Some(t) => t,
            None => {
                break ;
            },
        };
        match &td.filename_pattern {
            Some(_) => {
                break ;
            },
            None => {},
        }
        match &td.extends {
            Some(p) => {
                name = p.clone();
                fuel = fuel - 1;
            },
            None => {
                break ;
            },
        }
    }
    if fuel == 0 {
        return None;
    }
    match schema.get_type(name.as_str()) {
        Some(td) => match &td.filename_pattern {
            Some(p) => Some(p.clone()),
            None => None,
        },
        None => None,
    }
}

/// Relies on chrono::Utc::now and DelayedFormat: the current UTC time
/// rendered as a second-precision ISO-8601 timestamp; the clock decides the
/// text, so only non-emptiness is stated.
#[verifier::external_body]
pub(crate) fn now_timestamp() -> (r: String)
    ensures
        r@.len() > 0,
{
    chrono::Utc::now().format("%Y-%m-%dT%H:%M:%SZ").to_string()
}

/// Relies on ulid::Ulid::new and Display: a fresh identifier in the
/// 26-character canonical form; the value is random, so only the length is
/// stated.
#[verifier::external_body]
pub(crate) fn new_ulid_string() -> (r: String)
    ensures
        r@.len() == 26,
{
    ulid::Ulid::new().to_string()
}

/// Relies on uuid::Uuid::new_v4 and Display: a fresh identifier in the
/// 36-character hyphenated form; the value is random, so only the length is
/// stated.
#[verifier::external_body]
pub(crate) fn new_uuid_string() -> (r: String)
    ensures
        r@.len() == 36,
{
    uuid::Uuid::new_v4().to_string()
}

/// Synthesize a value for a field whose extends chain carries a generating
/// strategy: an identifier for `Ulid` and `Uuid`, a timestamp for `Now`;
/// the other strategies are left to the collection itself.
pub fn generate_field_value(schema: &Schema, tname: &str, field: &str) -> (r: Option<String>)
    ensures
        ({
            let st = chain_strategy(schema.types@, tname@, field@, schema.types@.len() as int);
            match st {
                Some(GeneratedStrategy::Ulid) => r is Some,
                Some(GeneratedStrategy::Uuid) => r is Some,
                Some(GeneratedStrategy::Now) => r is Some,
                _ => r is None,
            }
        }),
{
    match chain_strategy_exec(schema, tname, field) {
        Some(GeneratedStrategy::Ulid) => Some(new_ulid_string()),
        Some(GeneratedStrategy::Uuid) => Some(new_uuid_string()),
        Some(GeneratedStrategy::Now) => Some(now_timestamp()),
        _ => None,
    }
}

/// Whether a field takes link values: a `link` field, or a `list` whose
/// items are links.
pub open spec fn is_link_field_spec(d: FieldDef) -> bool {
    d.field_type@ == "link"@ || (d.field_type@ == "list"@ && (match d.items {
        Some(it) => it.field_type@ == "link"@,
        None => false,
    }))
}

/// Decide `is_link_field_spec`.
pub fn is_link_field(d: &FieldDef) -> (r: bool)
    ensures
        r == is_link_field_spec(*d),
{
    let tv = chars_vec(d.field_type.as_str());
    proof {
        assert(tv@.subrange(0, tv@.len() as int) =~= tv@);
    }
    if crate::chartext::range_eq_str(&tv, 0, tv.len(), "link") {
        return true;
    }
    if crate::chartext::range_eq_str(&tv, 0, tv.len(), "list") {
        match &d.items {
            Some(it) => {
                let iv = chars_vec(it.field_type.as_str());
                proof {
                    assert(iv@.subrange(0, iv@.len() as int) =~= iv@);
                }
                return crate::chartext::range_eq_str(&iv, 0, iv.len(), "link");
            },
            None => {
                return false;
            },
        }
    }
    false
}

/// The target type a link field points at.
pub open spec fn link_target_type_spec(d: FieldDef) -> Option<Seq<char>> {
    if d.field_type@ == "link"@ {
        match d.target {
            Some(t) => Some(t@),
            None => None,
        }
    } else if d.field_type@ == "list"@ {
        match d.items {
            Some(it) => match it.target {
                Some(t) => Some(t@),
                None => None,
            },
            None => None,
        }
    } else {
        None
    }
}

/// The link target type of a field, per `link_target_type_spec`.
pub fn link_target_type(d: &FieldDef) -> (r: Option<String>)
    ensures
        crate::refs::opt_view(r) == link_target_type_spec(*d),
{
    let tv = chars_vec(d.field_type.as_str());
    proof {
        assert(tv@.subrange(0, tv@.len() as int) =~= tv@);
    }
    if crate::chartext::range_eq_str(&tv, 0, tv.len(), "link") {
        return crate::file_index::clone_opt_string(&d.target);
    }
    if crate::chartext::range_eq_str(&tv, 0, tv.len(), "list") {
        match &d.items {
            Some(it) => {
                return crate::file_index::clone_opt_string(&it.target);
            },
            None => {
                return None;
            },
        }
    }
    None
}

/// The text edit that writes `field: value` into the frontmatter: an
/// existing `field:` line inside the bounds is replaced whole, otherwise a
/// new line goes in just before the closing delimiter.
pub open spec fn now_edit_spec(
    s: Seq<char>,
    bounds: (int, int),
    field: Seq<char>,
    value: Seq<char>,
) -> ((int, int), (int, int), Seq<char>) {
    let ls = lines_spec(s);
    let k = field_line_from(ls, field, bounds.0, bounds.1);
    let line_text = field + ": "@ + value;
    if k >= 0 {
        ((k, 0), (k, ls[k].len() as int), line_text)
    } else {
        ((bounds.1 + 1, 0), (bounds.1 + 1, 0), line_text + seq!['\n'])
    }
}

/// Build the will-save edit for one field, per `now_edit_spec`; `bounds`
/// are the frontmatter's interior line range.
pub fn make_now_on_write_edit(text: &str, bounds: (usize, usize), field: &str, value: &str) -> (r:
    TextEdit)
    requires
        fm_bounds_spec(lines_spec(text@)) == Some((bounds.0 as int, bounds.1 as int)),
        bounds.1 < usize::MAX - 1,
        field@.len() > 0,
    ensures
        now_edit_spec(text@, (bounds.0 as int, bounds.1 as int), field@, value@) == ((
            r.range.start.line as int,
            r.range.start.character as int,
        ), (r.range.end.line as int, r.range.end.character as int), r.new_text@),
{
    proof {
        reveal_strlit(": ");
    }
    let mut line_text: Vec<char> = Vec::new();
    let fv = chars_vec(field);
    append_chars(&mut line_text, &fv);
    line_text.push(':');
    line_text.push(' ');
    let vv = chars_vec(value);
    append_chars(&mut line_text, &vv);
    proof {
        assert(line_text@ =~= field@ + ": "@ + value@);
    }
    let (a, b) = bounds;
    let (start, end) = crate::text::find_field_range(text, field, 0);
    let ghost ls = lines_spec(text@);
    let ghost k = field_line_from(ls, field@, a as int, b as int);
    // the fallback span is empty; a hit never is, since the field name is
    // not empty
    let hit = !(start.line == end.line && start.character == end.character);
    proof {
        crate::text::lemma_field_line_from_bounds(ls, field@, a as int, b as int);
        if k >= 0 {
            crate::chartext::lemma_ws_run_end_bounds(ls[k], 0);
        }
    }
    if hit {
        let v = chars_vec(text);
        let lsv = crate::lines::split_lines(&v);
        proof {
            assert(lsv@.map_values(|l: Vec<char>| l@) == ls);
            assert(lsv@[start.line as int]@ == ls[start.line as int]);
        }
        let line_len = lsv[start.line].len();
        let new_text = string_range(&line_text, 0, line_text.len());
        proof {
            assert(line_text@.subrange(0, line_text@.len() as int) =~= line_text@);
        }
        TextEdit {
            range: Range {
                start: Position { line: start.line, character: 0 },
                end: Position { line: start.line, character: line_len },
            },
            new_text,
        }
    } else {
        line_text.push('\n');
        let new_text = string_range(&line_text, 0, line_text.len());
        proof {
            assert(line_text@.subrange(0, line_text@.len() as int) =~= line_text@);
            assert(line_text@ =~= (field@ + ": "@ + value@) + seq!['\n']);
        }
        TextEdit {
            range: Range {
                start: Position { line: b + 1, character: 0 },
                end: Position { line: b + 1, character: 0 },
            },
            new_text,
        }
    }
}

/// The text a frontmatter value contributes to a filename pattern: strings,
/// numbers, booleans and null render plainly; lists and objects abort the
/// derivation.
pub open spec fn render_val(v: Val) -> Option<Seq<char>> {
    match v {
        Val::Str(s) => Some(s@),
        Val::Num(n) => Some(n@),
        Val::Bool(b) => Some(
            if b {
                "true"@
            } else {
                "false"@
            },
        ),
        Val::Null => Some("null"@),
        _ => None,
    }
}

/// The pattern's tail from `i` with every `{field}` placeholder replaced by
/// the field's rendered value; a missing closing brace, a missing field or
/// an unrenderable value abort.
pub open spec fn derive_from(s: Seq<char>, i: int, fields: Seq<(String, Val)>) -> Option<Seq<char>>
    decreases s.len() - i,
    via derive_from_decreases
{
    if i < 0 || i > s.len() {
        None
    } else {
        let o = find_from(s, i, '{');
        if o >= s.len() {
            Some(s.subrange(i, s.len() as int))
        } else {
            let c = find_from(s, o, '}');
            if c >= s.len() {
                None
            } else {
                let key = s.subrange(o + 1, c);
                match obj_get(fields, key) {
                    None => None,
                    Some(v) => match render_val(v) {
                        None => None,
                        Some(val) => match derive_from(s, c + 1, fields) {
                            None => None,
                            Some(rest) => Some(s.subrange(i, o) + val + rest),
                        },
                    },
                }
            }
        }
    }
}

#[via_fn]
proof fn derive_from_decreases(s: Seq<char>, i: int, fields: Seq<(String, Val)>) {
    if 0 <= i && i <= s.len() {
        crate::chartext::lemma_find_from_bounds(s, i, '{');
        let o = find_from(s, i, '{');
        if o < s.len() {
            crate::chartext::lemma_find_from_bounds(s, o, '}');
        }
    }
}

/// Substitute `{field}` placeholders in a filename pattern from the
/// frontmatter's fields, per `derive_from`.
pub fn derive_path_from_pattern(pattern: &str, fields: &Vec<(String, Val)>) -> (r: Option<String>)
    ensures
        match r {
            Some(p) => derive_from(pattern@, 0, fields@) == Some(p@),
            None => derive_from(pattern@, 0, fields@) is None,
        },
{
    let v = chars_vec(pattern);
    match derive_exec(&v, 0, fields) {
        Some(out) => {
            proof {
                assert(out@.subrange(0, out@.len() as int) =~= out@);
            }
            Some(string_range(&out, 0, out.len()))
        },
        None => None,
    }
}

/// Recursive worker for `derive_path_from_pattern`.
fn derive_exec(v: &Vec<char>, i: usize, fields: &Vec<(String, Val)>) -> (r: Option<Vec<char>>)
    requires
        i <= v@.len(),
    ensures
        match r {
            Some(out) => derive_from(v@, i as int, fields@) == Some(out@),
            None => derive_from(v@, i as int, fields@) is None,
        },
    decreases v@.len() - i,
{
    let o = crate::chartext::find_char_from(v, i, '{');
    if o >= v.len() {
        return Some(vec_range(v, i, v.len()));
    }
    let c = crate::chartext::find_char_from(v, o, '}');
    if c >= v.len() {
        return None;
    }
    proof {
        crate::chartext::lemma_find_from_bounds(v@, i as int, '{');
        crate::chartext::lemma_find_from_bounds(v@, o as int, '}');
        assert(v@[o as int] == '{' && v@[c as int] == '}');
    }
    let key = crate::chartext::string_range(v, o + 1, c);
    let val: Vec<char> = match crate::json::obj_get_exec(fields, key.as_str()) {
        None => {
            return None;
        },
        Some(w) => match w {
            Val::Str(s) => chars_vec(s.as_str()),
            Val::Num(n) => chars_vec(n.as_str()),
            Val::Bool(b) => {
                if *b {
                    chars_vec("true")
                } else {
                    chars_vec("false")
                }
            },
            Val::Null => chars_vec("null"),
            _ => {
                return None;
            },
        },
    };
    match derive_exec(v, c + 1, fields) {
        None => None,
        Some(rest) => {
            let mut out = vec_range(v, i, o);
            crate::resolve::append_chars(&mut out, &val);
            crate::resolve::append_chars(&mut out, &rest);
            proof {
                assert(out@ =~= v@.subrange(i as int, o as int) + val@ + rest@);
            }
            Some(out)
        },
    }
}

/// One field a user must supply when a file of a type is created: required,
/// no default, and no generated strategy anywhere on the extends chain.
pub open spec fn is_prompt_field(
    types: Seq<(String, TypeDef)>,
    tname: Seq<char>,
    name: Seq<char>,
    d: FieldDef,
) -> bool {
    d.required && d.default is None && chain_strategy(types, tname, name, types.len() as int)
        is None
}

/// The prompt fields of a type, in field order, per `is_prompt_field`.
pub open spec fn prompt_fields_spec(
    types: Seq<(String, TypeDef)>,
    tname: Seq<char>,
    fields: Seq<(String, FieldDef)>,
    j: int,
) -> Seq<Seq<char>>
    decreases fields.len() - j,
{
    if j < 0 || j >= fields.len() {
        Seq::empty()
    } else if is_prompt_field(types, tname, fields[j].0@, fields[j].1) {
        seq![fields[j].0@] + prompt_fields_spec(types, tname, fields, j + 1)
    } else {
        prompt_fields_spec(types, tname, fields, j + 1)
    }
}

/// List the names of the fields a user must supply for a type (the type
/// must exist; an unknown name gives the empty list).
pub fn prompt_field_names(schema: &Schema, tname: &str) -> (r: Vec<String>)
    ensures
        ({
            match type_get(schema.types@, tname@) {
                Some(td) => crate::resolve::strs_view(r@) == prompt_fields_spec(
                    schema.types@,
                    tname@,
                    td.fields@,
                    0,
                ),
                None => r@.len() == 0,
            }
        }),
{
    let td = match schema.get_type(tname) {
        Some(t) => t,
        None => {
            return Vec::new();
        },
    };
    let mut r: Vec<String> = Vec::new();
    proof {
        assert(crate::resolve::strs_view(r@) =~= Seq::<Seq<char>>::empty());
    }
    let mut j: usize = 0;
    while j < td.fields.len()
        invariant
            0 <= j <= td.fields@.len(),
            type_get(schema.types@, tname@) == Some(*td),
            prompt_fields_spec(schema.types@, tname@, td.fields@, 0) == crate::resolve::strs_view(
                r@,
            ) + prompt_fields_spec(schema.types@, tname@, td.fields@, j as int),
        decreases td.fields@.len() - j,
    {
        let (name, d) = &td.fields[j];
        let is_prompt: bool;
        if d.required && d.default.is_none() {
            let st = chain_strategy_exec(schema, tname, name.as_str());
            is_prompt = st.is_none();
        } else {
            is_prompt = false;
        }
        proof {
            assert(is_prompt == is_prompt_field(schema.types@, tname@, td.fields@[j as int].0@,
                td.fields@[j as int].1));
        }
        if is_prompt {
            let ghost prev = r@;
            r.push(name.clone());
            proof {
                assert(crate::resolve::strs_view(r@) =~= crate::resolve::strs_view(prev).push(
                    td.fields@[j as int].0@,
                ));
                assert(crate::resolve::strs_view(prev) + (seq![td.fields@[j as int].0@]
                    + prompt_fields_spec(schema.types@, tname@, td.fields@, j + 1))
                    =~= crate::resolve::strs_view(r@) + prompt_fields_spec(
                    schema.types@,
                    tname@,
                    td.fields@,
                    j + 1,
                ));
            }
        }
        j = j + 1;
    }
    proof {
        assert(prompt_fields_spec(schema.types@, tname@, td.fields@, j as int) =~= Seq::<
            Seq<char>,
        >::empty());
        assert(crate::resolve::strs_view(r@) =~= prompt_fields_spec(
            schema.types@,
            tname@,
            td.fields@,
            0,
        ));
    }
    r
}

/// The `NowOnWrite` field names of one type's own fields, in order, new
/// names appended to `acc`.
pub open spec fn now_fields_of(
    fields: Seq<(String, FieldDef)>,
    j: int,
    acc: Seq<Seq<char>>,
) -> Seq<Seq<char>>
    decreases fields.len() - j,
{
    if j < 0 || j >= fields.len() {
        acc
    } else {
        let hit = fields[j].1.generated == Some(GeneratedStrategy::NowOnWrite) && !acc.contains(
            fields[j].0@,
        );
        if hit {
            now_fields_of(fields, j + 1, acc.push(fields[j].0@))
        } else {
            now_fields_of(fields, j + 1, acc)
        }
    }
}

/// The `NowOnWrite` field names across the named types, deduplicated in
/// first-seen order.
pub open spec fn now_fields_spec(
    types: Seq<(String, TypeDef)>,
    names: Seq<Seq<char>>,
    k: int,
    acc: Seq<Seq<char>>,
) -> Seq<Seq<char>>
    decreases names.len() - k,
{
    if k < 0 || k >= names.len() {
        acc
    } else {
        match type_get(types, names[k]) {
            Some(td) => now_fields_spec(types, names, k + 1, now_fields_of(td.fields@, 0, acc)),
            None => now_fields_spec(types, names, k + 1, acc),
        }
    }
}

/// Collect the `NowOnWrite` field names of the matched types, per
/// `now_fields_spec`.
pub fn now_on_write_fields(schema: &Schema, names: &Vec<String>) -> (r: Vec<String>)
    ensures
        crate::resolve::strs_view(r@) == now_fields_spec(
            schema.types@,
            crate::resolve::strs_view(names@),
            0,
            Seq::empty(),
        ),
{
    let ghost ns = crate::resolve::strs_view(names@);
    let mut r: Vec<String> = Vec::new();
    proof {
        assert(crate::resolve::strs_view(r@) =~= Seq::<Seq<char>>::empty());
    }
    let mut k: usize = 0;
    while k < names.len()
        invariant
            0 <= k <= names@.len(),
            ns == crate::resolve::strs_view(names@),
            now_fields_spec(schema.types@, ns, 0, Seq::empty()) == now_fields_spec(
                schema.types@,
                ns,
                k as int,
                crate::resolve::strs_view(r@),
            ),
        decreases names@.len() - k,
    {
        proof {
            assert(crate::resolve::strs_view(names@)[k as int] == names@[k as int]@);
        }
        match schema.get_type(names[k].as_str()) {
            Some(td) => {
                let ghost acc0 = crate::resolve::strs_view(r@);
                let mut j: usize = 0;
                while j < td.fields.len()
                    invariant
                        0 <= j <= td.fields@.len(),
                        now_fields_of(td.fields@, 0, acc0) == now_fields_of(
                            td.fields@,
                            j as int,
                            crate::resolve::strs_view(r@),
                        ),
                    decreases td.fields@.len() - j,
                {
                    let (name, d) = &td.fields[j];
                    let hit: bool;
                    match &d.generated {
                        Some(GeneratedStrategy::NowOnWrite) => {
                            let nv = chars_vec(name.as_str());
                            hit = !contains_string(&r, &nv);
                        },
                        _ => {
                            hit = false;
                        },
                    }
                    proof {
                        assert(hit == (td.fields@[j as int].1.generated == Some(
                            GeneratedStrategy::NowOnWrite,
                        ) && !crate::resolve::strs_view(r@).contains(td.fields@[j as int].0@)));
                    }
                    if hit {
                        let ghost prev = crate::resolve::strs_view(r@);
                        r.push(name.clone());
                        proof {
                            assert(crate::resolve::strs_view(r@) =~= prev.push(
                                td.fields@[j as int].0@,
                            ));
                        }
                    }
                    j = j + 1;
                }
                proof {
                    assert(now_fields_of(td.fields@, j as int, crate::resolve::strs_view(r@))
                        == crate::resolve::strs_view(r@));
                    assert(now_fields_of(td.fields@, 0, acc0) == crate::resolve::strs_view(r@));
                }
            },
            None => {},
        }
        k = k + 1;
    }
    proof {
        assert(now_fields_spec(schema.types@, ns, k as int, crate::resolve::strs_view(r@))
            == crate::resolve::strs_view(r@));
    }
    r
}

/// Whether `v` names one of the strings of `list`.
fn contains_string(list: &Vec<String>, v: &Vec<char>) -> (r: bool)
    ensures
        r == crate::resolve::strs_view(list@).contains(v@),
{
    let ghost ks = crate::resolve::strs_view(list@);
    let mut i: usize = 0;
    while i < list.len()
        invariant
            0 <= i <= list@.len(),
            ks == crate::resolve::strs_view(list@),
            forall|q: int| 0 <= q < i ==> ks[q] != v@,
        decreases list@.len() - i,
    {
        proof {
            assert(ks[i as int] == list@[i as int]@);
        }
        let kv = chars_vec(list[i].as_str());
        if crate::resolve::chars_eq(&kv, v) {
            proof {
                assert(ks[i as int] == v@);
            }
            return true;
        }
        i = i + 1;
    }
    proof {
        if ks.contains(v@) {
            let w = choose|w: int| 0 <= w < ks.len() && ks[w] == v@;
            assert(ks[w] != v@);
        }
    }
    false
}

} // verus!
