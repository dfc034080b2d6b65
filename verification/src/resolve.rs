//! Config populator: produce one populated record instance from a schema
//! and an environment snapshot. Per field, the effective key is looked up
//! in the snapshot; a present value is coerced to the declared type, an
//! absent one falls back to the default literal, then to the optional
//! absent state, and is otherwise a missing-value error. Nested record
//! fields are never read from a single variable: the populator recurses
//! into their own record, whose keys derive from its own name.
//!
//! Population is atomic: it yields either a fully populated instance or the
//! first error, never a partial result.

use vstd::prelude::*;
use vstd::string::StrSliceExecFns;

use crate::coerce::bool_of;
use crate::coerce::i64_of;
use crate::coerce::parse_bool;
use crate::coerce::parse_i64;
use crate::schema::effective_key;
use crate::schema::field_key;
use crate::schema::Fd;
use crate::schema::FieldTy;
use crate::schema::GFd;
use crate::schema::GRecord;
use crate::schema::GTy;
use crate::schema::SchemaArena;
use crate::snapshot::env_lookup;
use crate::snapshot::EnvSnapshot;
use crate::strutil::str_eq;
use crate::value::value_models;
use crate::value::ConfigValue;
use crate::value::FieldValue;
use crate::value::GVal;

verus! {

/// The pluggable string-parse capability custom-typed fields delegate to.
/// An implementation parses a raw string as a value of the named type and
/// yields the value's canonical string form, or its own error message.
pub trait ParseCapability {
    /// What the capability yields for a type name and raw text; a function
    /// of its arguments alone.
    spec fn parse_spec(&self, ty_name: Seq<char>, raw: Seq<char>) -> Result<Seq<char>, Seq<char>>;

    /// Parse `raw` as a value of the custom type `ty_name`.
    fn parse_from_string(&self, ty_name: &str, raw: &str) -> (r: Result<String, String>)
        ensures
            match r {
                Ok(s) => self.parse_spec(ty_name@, raw@) == Ok::<Seq<char>, Seq<char>>(s@),
                Err(m) => self.parse_spec(ty_name@, raw@) == Err::<Seq<char>, Seq<char>>(m@),
            },
    ;
}

/// One rule of a [`MapParser`]: for the named type, the raw input it
/// accepts and the canonical form it yields.
#[derive(Debug)]
pub struct ParseRule {
    pub ty_name: String,
    pub input: String,
    pub output: String,
}

/// A table-driven parse capability: the first rule whose type name and
/// input both match decides; anything else fails with the fallback
/// message.
#[derive(Debug)]
pub struct MapParser {
    pub rules: Vec<ParseRule>,
    pub fallback: String,
}

/// The rules of a map parser, as plain sequences.
pub open spec fn rules_view(p: &MapParser) -> Seq<(Seq<char>, Seq<char>, Seq<char>)> {
    Seq::new(
        p.rules@.len(),
        |i: int| (p.rules@[i].ty_name@, p.rules@[i].input@, p.rules@[i].output@),
    )
}

/// The output of the first rule matching the type name and raw input.
pub open spec fn rule_find(
    rules: Seq<(Seq<char>, Seq<char>, Seq<char>)>,
    ty: Seq<char>,
    raw: Seq<char>,
) -> Option<Seq<char>>
    decreases rules.len(),
{
    if rules.len() == 0 {
        None
    } else if rules[0].0 == ty && rules[0].1 == raw {
        Some(rules[0].2)
    } else {
        rule_find(rules.drop_first(), ty, raw)
    }
}

impl ParseCapability for MapParser {
    open spec fn parse_spec(&self, ty_name: Seq<char>, raw: Seq<char>) -> Result<
        Seq<char>,
        Seq<char>,
    > {
        match rule_find(rules_view(self), ty_name, raw) {
            Some(o) => Ok(o),
            None => Err(self.fallback@),
        }
    }

    fn parse_from_string(&self, ty_name: &str, raw: &str) -> (r: Result<String, String>) {
        let ghost full = rules_view(self);
        proof {
            assert(full.subrange(0, full.len() as int) =~= full);
        }
        let mut i: usize = 0;
        while i < self.rules.len()
            invariant
                full == rules_view(self),
                full.len() == self.rules@.len(),
                0 <= i <= full.len(),
                forall|m: int|
                    0 <= m < full.len() ==> #[trigger] full[m] == (
                        self.rules@[m].ty_name@,
                        self.rules@[m].input@,
                        self.rules@[m].output@,
                    ),
                rule_find(full, ty_name@, raw@) == rule_find(
                    full.subrange(i as int, full.len() as int),
                    ty_name@,
                    raw@,
                ),
            decreases full.len() - i,
        {
            proof {
                let sub = full.subrange(i as int, full.len() as int);
                assert(sub[0] == full[i as int]);
                assert(sub.drop_first() =~= full.subrange(i + 1, full.len() as int));
            }
            if str_eq(self.rules[i].ty_name.as_str(), ty_name) && str_eq(
                self.rules[i].input.as_str(),
                raw,
            ) {
                return Ok(self.rules[i].output.clone());
            }
            i += 1;
        }
        proof {
            assert(full.subrange(i as int, full.len() as int) =~= Seq::<(
                Seq<char>,
                Seq<char>,
                Seq<char>,
            )>::empty());
        }
        Err(self.fallback.clone())
    }
}

/// Why a resolution pass failed.
#[derive(Debug, PartialEq)]
pub enum ResolveError {
    /// A present value (or a default literal) could not be coerced to the
    /// field's declared type. `message` carries the custom capability's own
    /// error when one decided.
    Coercion { field: String, key: String, raw: String, message: Option<String> },
    /// No value, no default, and the field is not optional.
    MissingRequiredValue { field: String, key: String },
}

/// Ghost mirror of [`ResolveError`].
pub ghost enum GResolveError {
    Coercion { field: Seq<char>, key: Seq<char>, raw: Seq<char>, message: Option<Seq<char>> },
    MissingRequiredValue { field: Seq<char>, key: Seq<char> },
}

impl View for ResolveError {
    type V = GResolveError;

    open spec fn view(&self) -> GResolveError {
        match self {
            ResolveError::Coercion { field, key, raw, message } => GResolveError::Coercion {
                field: field@,
                key: key@,
                raw: raw@,
                message: message.deep_view(),
            },
            ResolveError::MissingRequiredValue { field, key } => GResolveError::MissingRequiredValue {
                field: field@,
                key: key@,
            },
        }
    }
}

/// Coerce one raw string to a leaf field's declared type. For a custom
/// field the capability decides; its error message is preserved. The
/// nested arm is never reached by the populator, which recurses instead.
pub open spec fn coerce_leaf<P: ParseCapability>(
    fd: GFd,
    key: Seq<char>,
    raw: Seq<char>,
    parser: &P,
) -> Result<GVal, GResolveError> {
    match fd.ty {
        GTy::Text => Ok(GVal::Text(raw)),
        GTy::Boolean => match bool_of(raw) {
            Some(b) => Ok(GVal::Boolean(b)),
            None => Err(
                GResolveError::Coercion { field: fd.name, key, raw, message: None },
            ),
        },
        GTy::Integer => match i64_of(raw) {
            Some(n) => Ok(GVal::Integer(n as int)),
            None => Err(
                GResolveError::Coercion { field: fd.name, key, raw, message: None },
            ),
        },
        GTy::Custom(tn) => match parser.parse_spec(tn, raw) {
            Ok(s) => Ok(GVal::Custom(s)),
            Err(m) => Err(
                GResolveError::Coercion { field: fd.name, key, raw, message: Some(m) },
            ),
        },
        GTy::Nested(_) => Ok(GVal::Absent),
    }
}

/// Resolve one leaf field against the snapshot: a present value is
/// coerced; an absent one falls back to the default literal, then to the
/// optional absent state, and is otherwise a missing-value error naming
/// the field and its key.
pub open spec fn resolve_leaf<P: ParseCapability>(
    record_name: Seq<char>,
    fd: GFd,
    env: Seq<(Seq<char>, Seq<char>)>,
    parser: &P,
) -> Result<GVal, GResolveError> {
    let key = effective_key(record_name, fd);
    match env_lookup(env, key) {
        Some(raw) => coerce_leaf(fd, key, raw, parser),
        None => {
            if fd.default_lit.len() > 0 {
                coerce_leaf(fd, key, fd.default_lit, parser)
            } else if fd.optional {
                Ok(GVal::Absent)
            } else {
                Err(GResolveError::MissingRequiredValue { field: fd.name, key })
            }
        },
    }
}

/// What populating record `idx` of the arena yields: a record value with
/// one entry per field in order, or the first error.
pub open spec fn pop_record<P: ParseCapability>(
    arena: Seq<GRecord>,
    idx: int,
    env: Seq<(Seq<char>, Seq<char>)>,
    parser: &P,
) -> Result<GVal, GResolveError>
    decreases idx, 2 * arena[idx].fields.len() + 2,
{
    if 0 <= idx < arena.len() {
        match pop_fields(arena, idx, env, parser, 0) {
            Ok(fs) => Ok(GVal::Record(fs)),
            Err(e) => Err(e),
        }
    } else {
        Err(GResolveError::MissingRequiredValue { field: Seq::empty(), key: Seq::empty() })
    }
}

/// What populating field `k` of record `idx` yields on its own: a nested
/// record field recurses into its record, a leaf resolves against the
/// snapshot.
pub open spec fn field_head<P: ParseCapability>(
    arena: Seq<GRecord>,
    idx: int,
    env: Seq<(Seq<char>, Seq<char>)>,
    parser: &P,
    k: int,
) -> Result<GVal, GResolveError>
    decreases idx, 2 * (arena[idx].fields.len() - k),
{
    let fd = arena[idx].fields[k];
    match fd.ty {
        GTy::Nested(j) => {
            if 0 <= j < idx {
                pop_record(arena, j, env, parser)
            } else {
                Err(GResolveError::MissingRequiredValue { field: fd.name, key: Seq::empty() })
            }
        },
        _ => resolve_leaf(arena[idx].name, fd, env, parser),
    }
}

/// What populating the fields of record `idx` from field `k` on yields:
/// leaves resolve against the snapshot, nested records recurse with their
/// own record name deciding their keys.
pub open spec fn pop_fields<P: ParseCapability>(
    arena: Seq<GRecord>,
    idx: int,
    env: Seq<(Seq<char>, Seq<char>)>,
    parser: &P,
    k: int,
) -> Result<Seq<(Seq<char>, GVal)>, GResolveError>
    decreases idx, 2 * (arena[idx].fields.len() - k) + 1,
{
    if 0 <= idx < arena.len() && 0 <= k < arena[idx].fields.len() {
        let fd = arena[idx].fields[k];
        match field_head(arena, idx, env, parser, k) {
            Err(e) => Err(e),
            Ok(v) => match pop_fields(arena, idx, env, parser, k + 1) {
                Err(e) => Err(e),
                Ok(rest) => Ok(seq![(fd.name, v)] + rest),
            },
        }
    } else {
        Ok(Seq::empty())
    }
}

/// Coerce one raw string to a leaf field's declared type.
fn coerce_leaf_exec<P: ParseCapability>(fd: &Fd, key: String, raw: String, parser: &P) -> (r:
    Result<ConfigValue, ResolveError>)
    ensures
        match (r, coerce_leaf(fd@, key@, raw@, parser)) {
            (Ok(v), Ok(g)) => value_models(v, g),
            (Err(e), Err(ge)) => e@ == ge,
            _ => false,
        },
{
    match &fd.ty {
        FieldTy::Text => Ok(ConfigValue::Text(raw)),
        FieldTy::Boolean => match parse_bool(raw.as_str()) {
            Some(b) => Ok(ConfigValue::Boolean(b)),
            None => Err(
                ResolveError::Coercion { field: fd.name.clone(), key, raw, message: None },
            ),
        },
        FieldTy::Integer => match parse_i64(raw.as_str()) {
            Some(n) => Ok(ConfigValue::Integer(n)),
            None => Err(
                ResolveError::Coercion { field: fd.name.clone(), key, raw, message: None },
            ),
        },
        FieldTy::Custom(tn) => match parser.parse_from_string(tn.as_str(), raw.as_str()) {
            Ok(s) => Ok(ConfigValue::Custom(s)),
            Err(m) => Err(
                ResolveError::Coercion { field: fd.name.clone(), key, raw, message: Some(m) },
            ),
        },
        FieldTy::Nested(_) => Ok(ConfigValue::Absent),
    }
}

/// Resolve one leaf field against the snapshot.
fn resolve_leaf_exec<P: ParseCapability>(
    record_name: &str,
    fd: &Fd,
    env: &EnvSnapshot,
    parser: &P,
) -> (r: Result<ConfigValue, ResolveError>)
    ensures
        match (r, resolve_leaf(record_name@, fd@, env@, parser)) {
            (Ok(v), Ok(g)) => value_models(v, g),
            (Err(e), Err(ge)) => e@ == ge,
            _ => false,
        },
{
    let key: String = field_key(record_name, fd);
    let raw_opt: Option<String> = match env.get(key.as_str()) {
        Some(v) => Some(v.clone()),
        None => None,
    };
    match raw_opt {
        Some(raw) => coerce_leaf_exec(fd, key, raw, parser),
        None => {
            if fd.default_lit.as_str().unicode_len() > 0 {
                let d = fd.default_lit.clone();
                coerce_leaf_exec(fd, key, d, parser)
            } else if fd.optional {
                Ok(ConfigValue::Absent)
            } else {
                Err(ResolveError::MissingRequiredValue { field: fd.name.clone(), key })
            }
        },
    }
}

/// Populate record `idx` of the arena from the snapshot: one resolved
/// value per field, in declaration order, or the first error.
pub fn populate_at<P: ParseCapability>(
    arena: &SchemaArena,
    idx: usize,
    env: &EnvSnapshot,
    parser: &P,
) -> (r: Result<Vec<FieldValue>, ResolveError>)
    requires
        arena.wf(),
        idx < arena@.len(),
    ensures
        match (r, pop_record(arena@, idx as int, env@, parser)) {
            (Ok(fs), Ok(g)) => value_models(ConfigValue::Record(fs), g),
            (Err(e), Err(ge)) => e@ == ge,
            _ => false,
        },
    decreases idx,
{
    let rec = &arena.records[idx];
    proof {
        assert(arena@[idx as int] == rec@);
    }
    let ghost grec = arena@[idx as int];
    let ghost gtotal = pop_fields(arena@, idx as int, env@, parser, 0);
    let mut out: Vec<FieldValue> = Vec::new();
    let ghost gfs = Seq::<(Seq<char>, GVal)>::empty();
    let mut k: usize = 0;
    proof {
        assert(gfs + match pop_fields(arena@, idx as int, env@, parser, 0) {
            Ok(rest) => rest,
            Err(_) => Seq::empty(),
        } =~= match pop_fields(arena@, idx as int, env@, parser, 0) {
            Ok(rest) => rest,
            Err(_) => Seq::empty(),
        });
    }
    while k < rec.fields.len()
        invariant
            arena.wf(),
            idx < arena@.len(),
            grec == arena@[idx as int],
            rec@ == grec,
            grec.fields.len() == rec.fields@.len(),
            forall|m: int| 0 <= m < grec.fields.len() ==> #[trigger] grec.fields[m] == rec.fields@[m]@,
            gtotal == pop_fields(arena@, idx as int, env@, parser, 0),
            0 <= k <= grec.fields.len(),
            out@.len() == k,
            gfs.len() == k,
            forall|m: int|
                0 <= m < k ==> #[trigger] gfs[m].0 == out@[m].name@ && value_models(
                    out@[m].value,
                    gfs[m].1,
                ),
            gtotal == match pop_fields(arena@, idx as int, env@, parser, k as int) {
                Ok(rest) => Ok::<Seq<(Seq<char>, GVal)>, GResolveError>(gfs + rest),
                Err(e) => Err::<Seq<(Seq<char>, GVal)>, GResolveError>(e),
            },
        decreases grec.fields.len() - k,
    {
        let fd = &rec.fields[k];
        proof {
            assert(fd@ == grec.fields[k as int]);
        }
        let ghost ghead = match fd@.ty {
            GTy::Nested(j) => {
                if 0 <= j < idx as int {
                    pop_record(arena@, j, env@, parser)
                } else {
                    Err(GResolveError::MissingRequiredValue { field: fd@.name, key: Seq::empty() })
                }
            },
            _ => resolve_leaf(grec.name, fd@, env@, parser),
        };
        proof {
            assert(ghead == field_head(arena@, idx as int, env@, parser, k as int));
        }
        let head: ConfigValue = match &fd.ty {
            FieldTy::Nested(j) => {
                proof {
                    assert(crate::schema::record_wf(grec, idx as int));
                    assert(crate::schema::fd_wf(grec.fields[k as int], idx as int));
                }
                match populate_at(arena, *j, env, parser) {
                    Ok(fs) => ConfigValue::Record(fs),
                    Err(e) => {
                        return Err(e);
                    },
                }
            },
            _ => {
                match resolve_leaf_exec(rec.name.as_str(), fd, env, parser) {
                    Ok(v) => v,
                    Err(e) => {
                        return Err(e);
                    },
                }
            },
        };
        let ghost gv = ghead->Ok_0;
        let ghost old_gfs = gfs;
        out.push(FieldValue { name: fd.name.clone(), value: head });
        proof {
            gfs = gfs.push((fd@.name, gv));
            let r2 = pop_fields(arena@, idx as int, env@, parser, k + 1);
            if r2 is Ok {
                let rest2 = r2->Ok_0;
                assert(old_gfs + (seq![(fd@.name, gv)] + rest2) =~= gfs + rest2);
            }
        }
        k += 1;
    }
    proof {
        assert(pop_fields(arena@, idx as int, env@, parser, k as int) == Ok::<
            Seq<(Seq<char>, GVal)>,
            GResolveError,
        >(Seq::empty()));
        assert(gfs + Seq::<(Seq<char>, GVal)>::empty() =~= gfs);
    }
    Ok(out)
}

/// The fully populated record instance a resolution pass yields; owned by
/// the caller, not further touched by the library.
#[derive(Debug)]
pub struct ResolvedConfig {
    pub fields: Vec<FieldValue>,
}

/// Populate the record at `root` from the snapshot, atomically: either a
/// fully populated instance or the first error, never a partial result.
pub fn populate<P: ParseCapability>(
    arena: &SchemaArena,
    root: usize,
    env: &EnvSnapshot,
    parser: &P,
) -> (r: Result<ResolvedConfig, ResolveError>)
    requires
        arena.wf(),
        root < arena@.len(),
    ensures
        match r {
            Ok(cfg) => pop_record(arena@, root as int, env@, parser) is Ok && value_models(
                ConfigValue::Record(cfg.fields),
                pop_record(arena@, root as int, env@, parser)->Ok_0,
            ),
            Err(e) => pop_record(arena@, root as int, env@, parser) == Err::<GVal, GResolveError>(
                e@,
            ),
        },
{
    match populate_at(arena, root, env, parser) {
        Ok(fields) => Ok(ResolvedConfig { fields }),
        Err(e) => Err(e),
    }
}

} // verus!
