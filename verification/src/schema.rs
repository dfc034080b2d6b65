//! Schema extractor: turns a structural description of a record type — an
//! ordered list of (field name, declared type text, attribute clause) — into
//! field descriptors, and derives the effective environment key of a field.
//!
//! Records live in an arena, [`SchemaArena`]; a field of a nested record type
//! holds the arena index of its record, which is always smaller than the
//! index of the record that holds the field, so schemas are acyclic by
//! construction.

use vstd::prelude::*;
use vstd::string::StrSliceExecFns;
use vstd::string::StringExecFns;

use crate::attrs::attr_get_last;
use crate::attrs::attr_last;
use crate::attrs::attrs_of;
use crate::attrs::resolve_attrs;
use crate::strutil::str_eq;
use crate::strutil::trim_ws;
use crate::strutil::trim_ws_exec;

use convert_case::Case;
use convert_case::Casing;

verus! {

/// What `convert_case` turns a string into for the upper-snake case: words
/// split on boundaries (lower-to-upper transitions, underscores and the
/// like), joined with `_`, all uppercase. A function of the characters alone.
pub uninterp spec fn upper_snake_of(s: Seq<char>) -> Seq<char>;

/// Relies on `convert_case::Casing::to_case` with `Case::UpperSnake`: it
/// splits the string into words on its default boundaries and joins them
/// with `_` in all-uppercase, depending on the characters alone.
#[verifier::external_body]
fn upper_snake(s: &str) -> (r: String)
    ensures
        r@ == upper_snake_of(s@),
{
    s.to_case(Case::UpperSnake)
}

/// The semantic type tag of a field.
#[derive(Clone, Debug, PartialEq)]
pub enum FieldTy {
    /// A verbatim string value.
    Text,
    /// A boolean, read case-insensitively from `true` / `false`.
    Boolean,
    /// A base-10 integer.
    Integer,
    /// A nested record, by its arena index.
    Nested(usize),
    /// A type parsed by the pluggable string-parse capability; carries the
    /// declared type name the capability dispatches on.
    Custom(String),
}

/// Ghost mirror of [`FieldTy`].
pub ghost enum GTy {
    Text,
    Boolean,
    Integer,
    Nested(int),
    Custom(Seq<char>),
}

impl View for FieldTy {
    type V = GTy;

    open spec fn view(&self) -> GTy {
        match self {
            FieldTy::Text => GTy::Text,
            FieldTy::Boolean => GTy::Boolean,
            FieldTy::Integer => GTy::Integer,
            FieldTy::Nested(j) => GTy::Nested(*j as int),
            FieldTy::Custom(n) => GTy::Custom(n@),
        }
    }
}

/// One schema field: its name, declared type, optionality and attribute
/// overrides. An empty `env_name` means the key is derived; an empty
/// `default_lit` means the field has no default.
#[derive(Clone, Debug)]
pub struct Fd {
    pub name: String,
    pub ty: FieldTy,
    pub optional: bool,
    pub env_name: String,
    pub default_lit: String,
    pub help: Option<String>,
}

/// Ghost mirror of [`Fd`].
pub ghost struct GFd {
    pub name: Seq<char>,
    pub ty: GTy,
    pub optional: bool,
    pub env_name: Seq<char>,
    pub default_lit: Seq<char>,
    pub help: Option<Seq<char>>,
}

impl View for Fd {
    type V = GFd;

    open spec fn view(&self) -> GFd {
        GFd {
            name: self.name@,
            ty: self.ty@,
            optional: self.optional,
            env_name: self.env_name@,
            default_lit: self.default_lit@,
            help: self.help.deep_view(),
        }
    }
}

/// The structural description of one field, as handed to the extractor.
#[derive(Clone, Debug)]
pub struct FieldDecl {
    pub name: String,
    pub type_text: String,
    pub attr_clause: Option<String>,
}

/// Ghost mirror of [`FieldDecl`].
pub ghost struct GDecl {
    pub name: Seq<char>,
    pub type_text: Seq<char>,
    pub attr_clause: Option<Seq<char>>,
}

impl View for FieldDecl {
    type V = GDecl;

    open spec fn view(&self) -> GDecl {
        GDecl {
            name: self.name@,
            type_text: self.type_text@,
            attr_clause: self.attr_clause.deep_view(),
        }
    }
}

impl DeepView for FieldDecl {
    type V = GDecl;

    open spec fn deep_view(&self) -> GDecl {
        self@
    }
}

/// A malformed or unresolvable schema description.
#[derive(Clone, Debug, PartialEq)]
pub enum SchemaError {
    /// The field's attribute clause is malformed: an unterminated double
    /// quote, an empty attribute key, or a `parse` value that is neither
    /// empty nor a boolean literal.
    MalformedAttributes { field: String, clause: String },
    /// The field's declared type is neither primitive, nor an optional
    /// wrapper of a known type, nor a registered record, nor flagged for
    /// custom parsing.
    UnresolvableType { field: String, type_text: String },
}

/// Ghost mirror of [`SchemaError`].
pub ghost enum GSchemaError {
    MalformedAttributes { field: Seq<char>, clause: Seq<char> },
    UnresolvableType { field: Seq<char>, type_text: Seq<char> },
}

impl View for SchemaError {
    type V = GSchemaError;

    open spec fn view(&self) -> GSchemaError {
        match self {
            SchemaError::MalformedAttributes { field, clause } => GSchemaError::MalformedAttributes {
                field: field@,
                clause: clause@,
            },
            SchemaError::UnresolvableType { field, type_text } => GSchemaError::UnresolvableType {
                field: field@,
                type_text: type_text@,
            },
        }
    }
}

/// One extracted record schema: the record's name and its field
/// descriptors in declaration order.
#[derive(Clone, Debug)]
pub struct BuilderContext {
    pub name: String,
    pub fields: Vec<Fd>,
}

/// Ghost mirror of [`BuilderContext`].
pub ghost struct GRecord {
    pub name: Seq<char>,
    pub fields: Seq<GFd>,
}

impl View for BuilderContext {
    type V = GRecord;

    open spec fn view(&self) -> GRecord {
        GRecord { name: self.name@, fields: Seq::new(self.fields@.len(), |i: int| self.fields@[i]@) }
    }
}

/// All record schemas extracted so far; nested references point backwards
/// into this arena.
#[derive(Clone, Debug)]
pub struct SchemaArena {
    pub records: Vec<BuilderContext>,
}

impl View for SchemaArena {
    type V = Seq<GRecord>;

    open spec fn view(&self) -> Seq<GRecord> {
        Seq::new(self.records@.len(), |i: int| self.records@[i]@)
    }
}

/// The names of the records of an arena, in order: the registry that type
/// classification looks nested record names up in.
pub open spec fn arena_names(arena: Seq<GRecord>) -> Seq<Seq<char>> {
    Seq::new(arena.len(), |i: int| arena[i].name)
}

/// The environment key derived for a field with no explicit override:
/// record name and field name joined with `_`, case-converted to upper
/// snake.
pub open spec fn derived_key_of(record_name: Seq<char>, field_name: Seq<char>) -> Seq<char> {
    upper_snake_of(record_name + "_"@ + field_name)
}

/// The key a field is read from: the explicit override when one is given,
/// the derived key otherwise.
pub open spec fn effective_key(record_name: Seq<char>, fd: GFd) -> Seq<char> {
    if fd.env_name.len() > 0 {
        fd.env_name
    } else {
        derived_key_of(record_name, fd.name)
    }
}

/// Derive the environment key of a field with no explicit override.
pub fn derive_key(record_name: &str, field_name: &str) -> (r: String)
    ensures
        r@ == derived_key_of(record_name@, field_name@),
{
    let joined = record_name.to_owned().concat("_").concat(field_name);
    upper_snake(joined.as_str())
}

/// The key the given field of the given record is read from.
pub fn field_key(record_name: &str, fd: &Fd) -> (r: String)
    ensures
        r@ == effective_key(record_name@, fd@),
{
    if fd.env_name.as_str().unicode_len() > 0 {
        fd.env_name.clone()
    } else {
        derive_key(record_name, fd.name.as_str())
    }
}

/// A declared type name read as the built-in integer type.
pub open spec fn int_type_name(t: Seq<char>) -> bool {
    ||| t == "integer"@
    ||| t == "i8"@
    ||| t == "i16"@
    ||| t == "i32"@
    ||| t == "i64"@
    ||| t == "u8"@
    ||| t == "u16"@
    ||| t == "u32"@
    ||| t == "u64"@
    ||| t == "usize"@
    ||| t == "isize"@
}

fn int_type_name_exec(t: &str) -> (r: bool)
    ensures
        r == int_type_name(t@),
{
    str_eq(t, "integer") || str_eq(t, "i8") || str_eq(t, "i16") || str_eq(t, "i32") || str_eq(
        t,
        "i64",
    ) || str_eq(t, "u8") || str_eq(t, "u16") || str_eq(t, "u32") || str_eq(t, "u64") || str_eq(
        t,
        "usize",
    ) || str_eq(t, "isize")
}

/// The first index at or after `i` whose registry name is `t`.
pub open spec fn reg_find(names: Seq<Seq<char>>, t: Seq<char>, i: int) -> Option<int>
    decreases names.len() - i,
{
    if 0 <= i < names.len() {
        if names[i] == t {
            Some(i)
        } else {
            reg_find(names, t, i + 1)
        }
    } else {
        None
    }
}

pub proof fn lemma_reg_find_bounds(names: Seq<Seq<char>>, t: Seq<char>, i: int)
    ensures
        reg_find(names, t, i) matches Some(j) ==> i <= j < names.len(),
    decreases names.len() - i,
{
    if 0 <= i < names.len() && names[i] != t {
        lemma_reg_find_bounds(names, t, i + 1);
    }
}

/// The declared type text with its outer whitespace trimmed and, when it is
/// wrapped in the optional marker `Option<...>`, the trimmed inner type;
/// the flag says whether the wrapper was stripped.
pub open spec fn unwrap_optional(t: Seq<char>) -> (Seq<char>, bool) {
    let tt = trim_ws(t);
    if tt.len() >= 8 && tt.subrange(0, 7) == "Option<"@ && tt[tt.len() - 1] == '>' {
        (trim_ws(tt.subrange(7, tt.len() - 1)), true)
    } else {
        (tt, false)
    }
}

/// Classify a declared type text: the `parse` flag forces the custom tag
/// even for types that look primitive; otherwise primitives are matched by
/// name, then the registry of record names; anything else is unresolvable.
pub open spec fn classify(type_text: Seq<char>, registry: Seq<Seq<char>>, parse_flag: bool) -> Option<
    (GTy, bool),
> {
    let (inner, opt) = unwrap_optional(type_text);
    if parse_flag {
        Some((GTy::Custom(inner), opt))
    } else if inner == "String"@ || inner == "string"@ {
        Some((GTy::Text, opt))
    } else if inner == "bool"@ {
        Some((GTy::Boolean, opt))
    } else if int_type_name(inner) {
        Some((GTy::Integer, opt))
    } else {
        match reg_find(registry, inner, 0) {
            Some(j) => Some((GTy::Nested(j), opt)),
            None => None,
        }
    }
}

/// Strip the optional marker from a declared type text.
fn unwrap_optional_exec<'a>(t: &'a str) -> (r: (&'a str, bool))
    ensures
        (r.0@, r.1) == unwrap_optional(t@),
{
    let tt = trim_ws_exec(t);
    let n: usize = tt.unicode_len();
    if n >= 8 {
        let head = tt.substring_char(0, 7);
        if str_eq(head, "Option<") && tt.get_char(n - 1) == '>' {
            return (trim_ws_exec(tt.substring_char(7, n - 1)), true);
        }
        (tt, false)
    } else {
        (tt, false)
    }
}

/// Classify a declared type text against the records of `arena`.
fn classify_exec(type_text: &str, arena: &SchemaArena, parse_flag: bool) -> (r: Option<
    (FieldTy, bool),
>)
    ensures
        match r {
            Some(p) => classify(type_text@, arena_names(arena@), parse_flag) == Some((p.0@, p.1)),
            None => classify(type_text@, arena_names(arena@), parse_flag) is None,
        },
{
    let (inner, opt) = unwrap_optional_exec(type_text);
    if parse_flag {
        return Some((FieldTy::Custom(inner.to_owned()), opt));
    }
    if str_eq(inner, "String") || str_eq(inner, "string") {
        return Some((FieldTy::Text, opt));
    }
    if str_eq(inner, "bool") {
        return Some((FieldTy::Boolean, opt));
    }
    if int_type_name_exec(inner) {
        return Some((FieldTy::Integer, opt));
    }
    let ghost names = arena_names(arena@);
    let mut k: usize = 0;
    while k < arena.records.len()
        invariant
            names == arena_names(arena@),
            names.len() == arena.records@.len(),
            0 <= k <= arena.records@.len(),
            forall|m: int| 0 <= m < names.len() ==> #[trigger] names[m] == arena.records@[m].name@,
            reg_find(names, inner@, 0) == reg_find(names, inner@, k as int),
            !parse_flag,
            (inner@, opt) == unwrap_optional(type_text@),
            inner@ != "String"@,
            inner@ != "string"@,
            inner@ != "bool"@,
            !int_type_name(inner@),
        decreases arena.records@.len() - k,
    {
        if str_eq(arena.records[k].name.as_str(), inner) {
            proof {
                assert(names[k as int] == inner@);
                assert(reg_find(names, inner@, k as int) == Some(k as int));
            }
            return Some((FieldTy::Nested(k), opt));
        }
        k += 1;
    }
    None
}

/// The sequence that holds, or the empty sequence.
pub open spec fn or_empty(v: Option<Seq<char>>) -> Seq<char> {
    match v {
        Some(s) => s,
        None => Seq::empty(),
    }
}

/// The resolved `parse` attribute: absent means off, a bare flag or the
/// literal `true` means on, the literal `false` means off; any other value
/// is malformed.
pub open spec fn parse_flag_of(ats: Seq<(Seq<char>, Seq<char>)>) -> Option<bool> {
    match attr_last(ats, "parse"@) {
        None => Some(false),
        Some(v) => if v.len() == 0 || v == "true"@ {
            Some(true)
        } else if v == "false"@ {
            Some(false)
        } else {
            None
        },
    }
}

/// What the extractor yields for one field: its attributes resolved, the
/// `parse` flag read, the declared type classified against the registry,
/// and the descriptor assembled. A nested record never keeps a default
/// literal. The help text is kept only when it is non-empty.
pub open spec fn fd_of(
    field_name: Seq<char>,
    type_text: Seq<char>,
    clause: Option<Seq<char>>,
    registry: Seq<Seq<char>>,
) -> Result<GFd, GSchemaError> {
    let ats_opt = match clause {
        None => Some(Seq::<(Seq<char>, Seq<char>)>::empty()),
        Some(c) => attrs_of(c),
    };
    match ats_opt {
        None => Err(
            GSchemaError::MalformedAttributes { field: field_name, clause: or_empty(clause) },
        ),
        Some(ats) => match parse_flag_of(ats) {
            None => Err(
                GSchemaError::MalformedAttributes { field: field_name, clause: or_empty(clause) },
            ),
            Some(pf) => match classify(type_text, registry, pf) {
                None => Err(GSchemaError::UnresolvableType { field: field_name, type_text }),
                Some(c) => Ok(
                    GFd {
                        name: field_name,
                        ty: c.0,
                        optional: c.1,
                        env_name: or_empty(attr_last(ats, "name"@)),
                        default_lit: if c.0 is Nested {
                            Seq::empty()
                        } else {
                            or_empty(attr_last(ats, "default"@))
                        },
                        help: match attr_last(ats, "help"@) {
                            Some(h) => if h.len() > 0 {
                                Some(h)
                            } else {
                                None
                            },
                            None => None,
                        },
                    },
                ),
            },
        },
    }
}

impl Fd {
    /// Extract one field descriptor from its structural description,
    /// resolving nested record types against the records already in
    /// `arena`.
    pub fn new(name: &str, type_text: &str, attr_clause: Option<&str>, arena: &SchemaArena) -> (r:
        Result<Fd, SchemaError>)
        ensures
            match r {
                Ok(fd) => fd_of(name@, type_text@, attr_clause.deep_view(), arena_names(arena@))
                    == Ok::<GFd, GSchemaError>(fd@),
                Err(e) => fd_of(name@, type_text@, attr_clause.deep_view(), arena_names(arena@))
                    == Err::<GFd, GSchemaError>(e@),
            },
    {
        let ats: Vec<(String, String)> = match attr_clause {
            None => {
                let v = Vec::new();
                proof {
                    assert(v.deep_view() =~= Seq::<(Seq<char>, Seq<char>)>::empty());
                }
                v
            },
            Some(c) => match resolve_attrs(c) {
                Some(v) => v,
                None => {
                    return Err(
                        SchemaError::MalformedAttributes {
                            field: name.to_owned(),
                            clause: c.to_owned(),
                        },
                    );
                },
            },
        };
        let pf: bool = match attr_get_last(&ats, "parse") {
            None => false,
            Some(v) => {
                if v.as_str().unicode_len() == 0 || str_eq(v.as_str(), "true") {
                    true
                } else if str_eq(v.as_str(), "false") {
                    false
                } else {
                    return Err(
                        SchemaError::MalformedAttributes {
                            field: name.to_owned(),
                            clause: match attr_clause {
                                Some(c) => c.to_owned(),
                                None => String::new(),
                            },
                        },
                    );
                }
            },
        };
        let tyopt: (FieldTy, bool) = match classify_exec(type_text, arena, pf) {
            Some(p) => p,
            None => {
                return Err(
                    SchemaError::UnresolvableType {
                        field: name.to_owned(),
                        type_text: type_text.to_owned(),
                    },
                );
            },
        };
        let env_name: String = match attr_get_last(&ats, "name") {
            Some(v) => v.clone(),
            None => String::new(),
        };
        let is_nested: bool = match &tyopt.0 {
            FieldTy::Nested(_) => true,
            _ => false,
        };
        let default_lit: String = if is_nested {
            String::new()
        } else {
            match attr_get_last(&ats, "default") {
                Some(v) => v.clone(),
                None => String::new(),
            }
        };
        let help: Option<String> = match attr_get_last(&ats, "help") {
            Some(h) => {
                if h.as_str().unicode_len() > 0 {
                    Some(h.clone())
                } else {
                    None
                }
            },
            None => None,
        };
        Ok(Fd { name: name.to_owned(), ty: tyopt.0, optional: tyopt.1, env_name, default_lit, help })
    }
}

/// What the extractor yields for the fields of one record, from declaration
/// `k` on: each declaration's descriptor in order, or the first error.
pub open spec fn fields_of_from(decls: Seq<GDecl>, registry: Seq<Seq<char>>, k: int) -> Result<
    Seq<GFd>,
    GSchemaError,
>
    decreases decls.len() - k,
{
    if 0 <= k < decls.len() {
        match fd_of(decls[k].name, decls[k].type_text, decls[k].attr_clause, registry) {
            Err(e) => Err(e),
            Ok(fd) => match fields_of_from(decls, registry, k + 1) {
                Err(e) => Err(e),
                Ok(rest) => Ok(seq![fd] + rest),
            },
        }
    } else {
        Ok(Seq::empty())
    }
}

/// What the extractor yields for a whole record description.
pub open spec fn record_of(name: Seq<char>, decls: Seq<GDecl>, registry: Seq<Seq<char>>) -> Result<
    GRecord,
    GSchemaError,
> {
    match fields_of_from(decls, registry, 0) {
        Ok(fields) => Ok(GRecord { name, fields }),
        Err(e) => Err(e),
    }
}

impl BuilderContext {
    /// Whether `needle` is one of the strings of `haystack`.
    pub fn contains(&self, haystack: &[&str], needle: &str) -> (r: bool)
        ensures
            r == exists|i: int| 0 <= i < haystack@.len() && haystack@[i]@ == needle@,
    {
        let mut k: usize = 0;
        while k < haystack.len()
            invariant
                0 <= k <= haystack@.len(),
                forall|m: int| 0 <= m < k ==> haystack@[m]@ != needle@,
            decreases haystack@.len() - k,
        {
            if str_eq(haystack[k], needle) {
                return true;
            }
            k += 1;
        }
        false
    }

    /// Convert a string to its upper-snake form.
    pub fn uppersnake(&self, s: &str) -> (r: String)
        ensures
            r@ == upper_snake_of(s@),
    {
        upper_snake(s)
    }

    /// Extract one record schema from its name and field descriptions,
    /// resolving nested record types against the records already in
    /// `arena`.
    pub fn new(name: &str, decls: &Vec<FieldDecl>, arena: &SchemaArena) -> (r: Result<
        BuilderContext,
        SchemaError,
    >)
        ensures
            match r {
                Ok(rec) => record_of(name@, decls.deep_view(), arena_names(arena@))
                    == Ok::<GRecord, GSchemaError>(rec@),
                Err(e) => record_of(name@, decls.deep_view(), arena_names(arena@))
                    == Err::<GRecord, GSchemaError>(e@),
            },
    {
        let ghost gdecls = decls.deep_view();
        let ghost registry = arena_names(arena@);
        let mut fields: Vec<Fd> = Vec::new();
        let mut k: usize = 0;
        while k < decls.len()
            invariant
                gdecls == decls.deep_view(),
                registry == arena_names(arena@),
                gdecls.len() == decls@.len(),
                forall|m: int| 0 <= m < gdecls.len() ==> #[trigger] gdecls[m] == decls@[m]@,
                0 <= k <= decls@.len(),
                fields@.len() == k,
                fields_of_from(gdecls, registry, 0) == match fields_of_from(
                    gdecls,
                    registry,
                    k as int,
                ) {
                    Ok(rest) => Ok::<Seq<GFd>, GSchemaError>(
                        Seq::new(fields@.len(), |m: int| fields@[m]@) + rest,
                    ),
                    Err(e) => Err::<Seq<GFd>, GSchemaError>(e),
                },
            decreases decls@.len() - k,
        {
            let d = &decls[k];
            let fd = match Fd::new(
                d.name.as_str(),
                d.type_text.as_str(),
                match &d.attr_clause {
                    Some(c) => Some(c.as_str()),
                    None => None,
                },
                arena,
            ) {
                Ok(fd) => fd,
                Err(e) => {
                    proof {
                        assert(gdecls[k as int] == decls@[k as int]@);
                    }
                    return Err(e);
                },
            };
            let ghost old_fields = fields@;
            fields.push(fd);
            proof {
                assert(gdecls[k as int] == decls@[k as int]@);
                let done = Seq::new(old_fields.len(), |m: int| old_fields[m]@);
                let done2 = Seq::new(fields@.len(), |m: int| fields@[m]@);
                let r2 = fields_of_from(gdecls, registry, k + 1);
                if r2 is Ok {
                    let rest2 = r2->Ok_0;
                    assert(done2 =~= done.push(fd@));
                    assert(done.push(fd@) + rest2 =~= done + (seq![fd@] + rest2));
                }
            }
            k += 1;
        }
        let rec = BuilderContext { name: name.to_owned(), fields };
        proof {
            assert(fields_of_from(gdecls, registry, k as int) == Ok::<Seq<GFd>, GSchemaError>(
                Seq::empty(),
            ));
            assert(rec@.fields =~= Seq::new(rec.fields@.len(), |m: int| rec.fields@[m]@)
                + Seq::empty());
        }
        Ok(rec)
    }
}

/// A field descriptor is well formed at record index `i`: a nested
/// reference points strictly backwards in the arena — which makes schemas
/// acyclic by construction — and carries no default literal.
pub open spec fn fd_wf(fd: GFd, i: int) -> bool {
    fd.ty matches GTy::Nested(j) ==> 0 <= j < i && fd.default_lit.len() == 0
}

/// Every field of the record is well formed at index `i`.
pub open spec fn record_wf(r: GRecord, i: int) -> bool {
    forall|k: int| 0 <= k < r.fields.len() ==> fd_wf(#[trigger] r.fields[k], i)
}

/// Every record of the arena is well formed at its own index.
pub open spec fn arena_wf(a: Seq<GRecord>) -> bool {
    forall|i: int| 0 <= i < a.len() ==> record_wf(#[trigger] a[i], i)
}

proof fn lemma_fd_of_wf(
    field_name: Seq<char>,
    type_text: Seq<char>,
    clause: Option<Seq<char>>,
    registry: Seq<Seq<char>>,
)
    ensures
        fd_of(field_name, type_text, clause, registry) matches Ok(fd) ==> fd_wf(
            fd,
            registry.len() as int,
        ),
{
    let r = fd_of(field_name, type_text, clause, registry);
    if r is Ok {
        let fd = r->Ok_0;
        if fd.ty is Nested {
            let ats_opt = match clause {
                None => Some(Seq::<(Seq<char>, Seq<char>)>::empty()),
                Some(c) => attrs_of(c),
            };
            let pf = parse_flag_of(ats_opt->Some_0)->Some_0;
            let inner = unwrap_optional(type_text).0;
            lemma_reg_find_bounds(registry, inner, 0);
        }
    }
}

proof fn lemma_fields_of_wf(decls: Seq<GDecl>, registry: Seq<Seq<char>>, k: int)
    ensures
        fields_of_from(decls, registry, k) matches Ok(fs) ==> forall|m: int|
            0 <= m < fs.len() ==> fd_wf(#[trigger] fs[m], registry.len() as int),
    decreases decls.len() - k,
{
    if 0 <= k < decls.len() {
        lemma_fd_of_wf(decls[k].name, decls[k].type_text, decls[k].attr_clause, registry);
        lemma_fields_of_wf(decls, registry, k + 1);
    }
}

impl SchemaArena {
    /// Nested references point strictly backwards throughout the arena.
    pub open spec fn wf(&self) -> bool {
        arena_wf(self@)
    }

    /// An arena with no records yet.
    pub fn new() -> (r: SchemaArena)
        ensures
            r@ == Seq::<GRecord>::empty(),
            r.wf(),
    {
        let r = SchemaArena { records: Vec::new() };
        proof {
            assert(r@ =~= Seq::<GRecord>::empty());
        }
        r
    }

    /// Extract one record schema and add it to the arena; nested record
    /// types resolve against the records already present, so a new record
    /// can only point backwards. Yields the new record's index.
    pub fn add_record(&mut self, name: &str, decls: &Vec<FieldDecl>) -> (r: Result<
        usize,
        SchemaError,
    >)
        ensures
            match r {
                Ok(idx) => {
                    &&& idx == old(self)@.len()
                    &&& record_of(name@, decls.deep_view(), arena_names(old(self)@)) is Ok
                    &&& final(self)@ == old(self)@.push(
                        record_of(name@, decls.deep_view(), arena_names(old(self)@))->Ok_0,
                    )
                    &&& old(self).wf() ==> final(self).wf()
                },
                Err(e) => {
                    &&& final(self)@ == old(self)@
                    &&& record_of(name@, decls.deep_view(), arena_names(old(self)@)) == Err::<
                        GRecord,
                        GSchemaError,
                    >(e@)
                },
            },
    {
        let rec = match BuilderContext::new(name, decls, self) {
            Ok(r) => r,
            Err(e) => {
                return Err(e);
            },
        };
        let idx = self.records.len();
        let ghost old_view = self@;
        self.records.push(rec);
        proof {
            assert(self@ =~= old_view.push(rec@));
            if arena_wf(old_view) {
                lemma_fields_of_wf(decls.deep_view(), arena_names(old_view), 0);
                assert(arena_names(old_view).len() == old_view.len());
                assert(record_wf(rec@, old_view.len() as int));
                assert forall|i: int| 0 <= i < self@.len() implies record_wf(#[trigger] self@[i], i) by {
                    if i < old_view.len() {
                        assert(self@[i] == old_view[i]);
                        assert(record_wf(old_view[i], i));
                    }
                }
            }
        }
        Ok(idx)
    }
}

} // verus!
