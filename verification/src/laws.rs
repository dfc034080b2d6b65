//! The library's stated laws: the help map and the populator derive the
//! same keys over the same tree, key derivation is deterministic, a present
//! environment value always wins over the default, the default fills in for
//! an absent value, an optional field with neither is absent while a
//! required one fails, and a nested record's behaviour depends only on the
//! arena up to its own index.

use vstd::prelude::*;

use crate::help::help_entries;
use crate::help::help_fields;
use crate::resolve::coerce_leaf;
use crate::resolve::field_head;
use crate::resolve::pop_fields;
use crate::resolve::pop_record;
use crate::resolve::resolve_leaf;
use crate::resolve::GResolveError;
use crate::resolve::ParseCapability;
use crate::schema::derived_key_of;
use crate::schema::effective_key;
use crate::schema::GRecord;
use crate::schema::GTy;
use crate::snapshot::env_lookup;
use crate::value::GVal;

verus! {

/// The keys of a sequence of help entries, in order.
pub open spec fn keys_of(entries: Seq<(Seq<char>, Seq<char>, Option<Seq<char>>)>) -> Seq<
    Seq<char>,
> {
    entries.map_values(|e: (Seq<char>, Seq<char>, Option<Seq<char>>)| e.0)
}

/// The environment keys the populator's traversal of record `idx` derives,
/// in traversal order: one per reachable leaf field, by the same
/// derivation rule the populator resolves with.
pub open spec fn walk_keys(arena: Seq<GRecord>, idx: int) -> Seq<Seq<char>>
    decreases idx, 2 * arena[idx].fields.len() + 2,
{
    if 0 <= idx < arena.len() {
        walk_keys_fields(arena, idx, 0)
    } else {
        Seq::empty()
    }
}

/// The keys derived for the fields of record `idx` from field `k` on.
pub open spec fn walk_keys_fields(arena: Seq<GRecord>, idx: int, k: int) -> Seq<Seq<char>>
    decreases idx, 2 * (arena[idx].fields.len() - k) + 1,
{
    if 0 <= idx < arena.len() && 0 <= k < arena[idx].fields.len() {
        let fd = arena[idx].fields[k];
        let head = match fd.ty {
            GTy::Nested(j) => {
                if 0 <= j < idx {
                    walk_keys(arena, j)
                } else {
                    Seq::empty()
                }
            },
            _ => seq![effective_key(arena[idx].name, fd)],
        };
        head + walk_keys_fields(arena, idx, k + 1)
    } else {
        Seq::empty()
    }
}

proof fn lemma_keys_of_concat(
    a: Seq<(Seq<char>, Seq<char>, Option<Seq<char>>)>,
    b: Seq<(Seq<char>, Seq<char>, Option<Seq<char>>)>,
)
    ensures
        keys_of(a + b) == keys_of(a) + keys_of(b),
{
    assert(keys_of(a + b) =~= keys_of(a) + keys_of(b));
}

/// Key-set equivalence, stated per record: the help map's keys are exactly
/// the keys the populator's traversal derives, in the same order.
pub proof fn lemma_help_keys_match_walk(arena: Seq<GRecord>, idx: int)
    requires
        0 <= idx < arena.len(),
    ensures
        keys_of(help_entries(arena, idx)) == walk_keys(arena, idx),
    decreases idx, 2 * arena[idx].fields.len() + 2,
{
    lemma_help_keys_match_walk_fields(arena, idx, 0);
}

proof fn lemma_help_keys_match_walk_fields(arena: Seq<GRecord>, idx: int, k: int)
    requires
        0 <= idx < arena.len(),
        0 <= k,
    ensures
        keys_of(help_fields(arena, idx, k)) == walk_keys_fields(arena, idx, k),
    decreases idx, 2 * (arena[idx].fields.len() - k) + 1,
{
    if k < arena[idx].fields.len() {
        let fd = arena[idx].fields[k];
        let head = match fd.ty {
            GTy::Nested(j) => {
                if 0 <= j < idx {
                    help_entries(arena, j)
                } else {
                    Seq::empty()
                }
            },
            _ => seq![(effective_key(arena[idx].name, fd), fd.default_lit, fd.help)],
        };
        match fd.ty {
            GTy::Nested(j) => {
                if 0 <= j < idx {
                    lemma_help_keys_match_walk(arena, j);
                } else {
                    assert(keys_of(Seq::empty()) =~= Seq::<Seq<char>>::empty());
                }
            },
            _ => {
                assert(keys_of(seq![(effective_key(arena[idx].name, fd), fd.default_lit, fd.help)])
                    =~= seq![effective_key(arena[idx].name, fd)]);
            },
        }
        lemma_help_keys_match_walk_fields(arena, idx, k + 1);
        lemma_keys_of_concat(head, help_fields(arena, idx, k + 1));
    } else {
        assert(keys_of(Seq::empty()) =~= Seq::<Seq<char>>::empty());
    }
}

/// The set form of the key equivalence: `CollectHelp`'s key set equals the
/// set of derived or explicit keys the populator's traversal reaches.
pub proof fn lemma_help_key_set_matches_walk(arena: Seq<GRecord>, idx: int)
    requires
        0 <= idx < arena.len(),
    ensures
        keys_of(help_entries(arena, idx)).to_set() == walk_keys(arena, idx).to_set(),
{
    lemma_help_keys_match_walk(arena, idx);
}

/// Population consults the snapshot only at the keys its traversal
/// derives — the very keys the help map holds: two snapshots that agree on
/// every traversal key populate identically.
pub proof fn lemma_populate_reads_only_walk_keys<P: ParseCapability>(
    arena: Seq<GRecord>,
    idx: int,
    env1: Seq<(Seq<char>, Seq<char>)>,
    env2: Seq<(Seq<char>, Seq<char>)>,
    parser: &P,
)
    requires
        0 <= idx < arena.len(),
        forall|key: Seq<char>|
            walk_keys(arena, idx).contains(key) ==> env_lookup(env1, key) == env_lookup(env2, key),
    ensures
        pop_record(arena, idx, env1, parser) == pop_record(arena, idx, env2, parser),
    decreases idx, 2 * arena[idx].fields.len() + 2,
{
    lemma_populate_reads_only_walk_keys_fields(arena, idx, env1, env2, parser, 0);
}

proof fn lemma_populate_reads_only_walk_keys_fields<P: ParseCapability>(
    arena: Seq<GRecord>,
    idx: int,
    env1: Seq<(Seq<char>, Seq<char>)>,
    env2: Seq<(Seq<char>, Seq<char>)>,
    parser: &P,
    k: int,
)
    requires
        0 <= idx < arena.len(),
        0 <= k,
        forall|key: Seq<char>|
            walk_keys_fields(arena, idx, k).contains(key) ==> env_lookup(env1, key) == env_lookup(
                env2,
                key,
            ),
    ensures
        pop_fields(arena, idx, env1, parser, k) == pop_fields(arena, idx, env2, parser, k),
    decreases idx, 2 * (arena[idx].fields.len() - k) + 1,
{
    if k < arena[idx].fields.len() {
        let fd = arena[idx].fields[k];
        let head = match fd.ty {
            GTy::Nested(j) => {
                if 0 <= j < idx {
                    walk_keys(arena, j)
                } else {
                    Seq::empty()
                }
            },
            _ => seq![effective_key(arena[idx].name, fd)],
        };
        let rest = walk_keys_fields(arena, idx, k + 1);
        assert(walk_keys_fields(arena, idx, k) == head + rest);
        assert forall|key: Seq<char>| head.contains(key) implies walk_keys_fields(
            arena,
            idx,
            k,
        ).contains(key) by {
            let i = choose|i: int| 0 <= i < head.len() && head[i] == key;
            assert((head + rest)[i] == key);
        }
        assert forall|key: Seq<char>| rest.contains(key) implies walk_keys_fields(
            arena,
            idx,
            k,
        ).contains(key) by {
            let i = choose|i: int| 0 <= i < rest.len() && rest[i] == key;
            assert((head + rest)[head.len() + i] == key);
        }
        match fd.ty {
            GTy::Nested(j) => {
                if 0 <= j < idx {
                    lemma_populate_reads_only_walk_keys(arena, j, env1, env2, parser);
                }
            },
            _ => {
                let key = effective_key(arena[idx].name, fd);
                assert(head[0] == key);
                assert(head.contains(key));
                assert(env_lookup(env1, key) == env_lookup(env2, key));
            },
        }
        assert(field_head(arena, idx, env1, parser, k) == field_head(arena, idx, env2, parser, k));
        lemma_populate_reads_only_walk_keys_fields(arena, idx, env1, env2, parser, k + 1);
    }
}

/// Key derivation is deterministic: identical record and field names yield
/// the identical derived key.
pub proof fn lemma_derive_key_deterministic(
    rn1: Seq<char>,
    fn1: Seq<char>,
    rn2: Seq<char>,
    fn2: Seq<char>,
)
    requires
        rn1 == rn2,
        fn1 == fn2,
    ensures
        derived_key_of(rn1, fn1) == derived_key_of(rn2, fn2),
{
}

/// When the populated record is `Ok`, every field's head resolution
/// succeeded and the record holds exactly those heads, names in order.
pub proof fn lemma_pop_fields_heads<P: ParseCapability>(
    arena: Seq<GRecord>,
    idx: int,
    env: Seq<(Seq<char>, Seq<char>)>,
    parser: &P,
    k: int,
)
    requires
        0 <= idx < arena.len(),
        0 <= k <= arena[idx].fields.len(),
    ensures
        pop_fields(arena, idx, env, parser, k) matches Ok(fs) ==> {
            &&& fs.len() == arena[idx].fields.len() - k
            &&& forall|m: int|
                k <= m < arena[idx].fields.len() ==> (#[trigger] field_head(
                    arena,
                    idx,
                    env,
                    parser,
                    m,
                )) is Ok && fs[m - k] == (
                    arena[idx].fields[m].name,
                    field_head(arena, idx, env, parser, m)->Ok_0,
                )
        },
    decreases arena[idx].fields.len() - k,
{
    if k < arena[idx].fields.len() {
        lemma_pop_fields_heads(arena, idx, env, parser, k + 1);
    }
}

/// Round trip: when the snapshot holds a value for a leaf field's key and
/// population succeeds, the populated field equals the coerced form of
/// that value — the default literal plays no part.
pub proof fn lemma_env_value_round_trip<P: ParseCapability>(
    arena: Seq<GRecord>,
    idx: int,
    k: int,
    env: Seq<(Seq<char>, Seq<char>)>,
    parser: &P,
)
    requires
        0 <= idx < arena.len(),
        0 <= k < arena[idx].fields.len(),
        !(arena[idx].fields[k].ty is Nested),
        env_lookup(env, effective_key(arena[idx].name, arena[idx].fields[k])) is Some,
        pop_record(arena, idx, env, parser) is Ok,
    ensures
        ({
            let fd = arena[idx].fields[k];
            let key = effective_key(arena[idx].name, fd);
            let raw = env_lookup(env, key)->Some_0;
            let g = pop_record(arena, idx, env, parser)->Ok_0;
            &&& coerce_leaf(fd, key, raw, parser) is Ok
            &&& g is Record
            &&& g->Record_0[k].1 == coerce_leaf(fd, key, raw, parser)->Ok_0
        }),
{
    lemma_pop_fields_heads(arena, idx, env, parser, 0);
    let fd = arena[idx].fields[k];
    let key = effective_key(arena[idx].name, fd);
    let raw = env_lookup(env, key)->Some_0;
    assert(field_head(arena, idx, env, parser, k) == resolve_leaf(arena[idx].name, fd, env, parser));
    assert(resolve_leaf(arena[idx].name, fd, env, parser) == coerce_leaf(fd, key, raw, parser));
    let fs = pop_fields(arena, idx, env, parser, 0)->Ok_0;
    assert(pop_record(arena, idx, env, parser)->Ok_0 == GVal::Record(fs));
    assert(fs[k] == (fd.name, field_head(arena, idx, env, parser, k)->Ok_0));
}

/// Default fallback: when a leaf field's key is absent from the snapshot,
/// a default literal is configured and population succeeds, the populated
/// field equals the coerced form of the default.
pub proof fn lemma_default_fallback<P: ParseCapability>(
    arena: Seq<GRecord>,
    idx: int,
    k: int,
    env: Seq<(Seq<char>, Seq<char>)>,
    parser: &P,
)
    requires
        0 <= idx < arena.len(),
        0 <= k < arena[idx].fields.len(),
        !(arena[idx].fields[k].ty is Nested),
        env_lookup(env, effective_key(arena[idx].name, arena[idx].fields[k])) is None,
        arena[idx].fields[k].default_lit.len() > 0,
        pop_record(arena, idx, env, parser) is Ok,
    ensures
        ({
            let fd = arena[idx].fields[k];
            let key = effective_key(arena[idx].name, fd);
            let g = pop_record(arena, idx, env, parser)->Ok_0;
            &&& coerce_leaf(fd, key, fd.default_lit, parser) is Ok
            &&& g is Record
            &&& g->Record_0[k].1 == coerce_leaf(fd, key, fd.default_lit, parser)->Ok_0
        }),
{
    lemma_pop_fields_heads(arena, idx, env, parser, 0);
    let fd = arena[idx].fields[k];
    let key = effective_key(arena[idx].name, fd);
    assert(field_head(arena, idx, env, parser, k) == resolve_leaf(arena[idx].name, fd, env, parser));
    assert(resolve_leaf(arena[idx].name, fd, env, parser) == coerce_leaf(
        fd,
        key,
        fd.default_lit,
        parser,
    ));
    let fs = pop_fields(arena, idx, env, parser, 0)->Ok_0;
    assert(pop_record(arena, idx, env, parser)->Ok_0 == GVal::Record(fs));
    assert(fs[k] == (fd.name, field_head(arena, idx, env, parser, k)->Ok_0));
}

/// Optional without default, the succeeding half: when a leaf field's key
/// is absent, no default is configured and the field is optional, the
/// field resolves to the absent state; when population succeeds, the
/// populated field is absent.
pub proof fn lemma_optional_absent<P: ParseCapability>(
    arena: Seq<GRecord>,
    idx: int,
    k: int,
    env: Seq<(Seq<char>, Seq<char>)>,
    parser: &P,
)
    requires
        0 <= idx < arena.len(),
        0 <= k < arena[idx].fields.len(),
        !(arena[idx].fields[k].ty is Nested),
        env_lookup(env, effective_key(arena[idx].name, arena[idx].fields[k])) is None,
        arena[idx].fields[k].default_lit.len() == 0,
        arena[idx].fields[k].optional,
    ensures
        field_head(arena, idx, env, parser, k) == Ok::<GVal, GResolveError>(GVal::Absent),
        pop_record(arena, idx, env, parser) matches Ok(g) ==> g is Record && g->Record_0[k].1
            == GVal::Absent,
{
    lemma_pop_fields_heads(arena, idx, env, parser, 0);
}

/// Optional without default, the failing half: when a leaf field's key is
/// absent, no default is configured and the field is not optional, that
/// field resolves to the missing-required-value error naming the field and
/// its key, and population of the record cannot succeed.
pub proof fn lemma_required_missing<P: ParseCapability>(
    arena: Seq<GRecord>,
    idx: int,
    k: int,
    env: Seq<(Seq<char>, Seq<char>)>,
    parser: &P,
)
    requires
        0 <= idx < arena.len(),
        0 <= k < arena[idx].fields.len(),
        !(arena[idx].fields[k].ty is Nested),
        env_lookup(env, effective_key(arena[idx].name, arena[idx].fields[k])) is None,
        arena[idx].fields[k].default_lit.len() == 0,
        !arena[idx].fields[k].optional,
    ensures
        field_head(arena, idx, env, parser, k) == Err::<GVal, GResolveError>(
            GResolveError::MissingRequiredValue {
                field: arena[idx].fields[k].name,
                key: effective_key(arena[idx].name, arena[idx].fields[k]),
            },
        ),
        !(pop_record(arena, idx, env, parser) is Ok),
{
    lemma_pop_fields_heads(arena, idx, env, parser, 0);
}

/// A nested record's help entries and population depend only on the arena
/// up to its own index: the name and position of any enclosing record —
/// which always stands at a higher index — play no part.
pub proof fn lemma_nested_independent<P: ParseCapability>(
    a1: Seq<GRecord>,
    a2: Seq<GRecord>,
    idx: int,
    env: Seq<(Seq<char>, Seq<char>)>,
    parser: &P,
)
    requires
        0 <= idx < a1.len(),
        idx < a2.len(),
        forall|i: int| 0 <= i <= idx ==> a1[i] == a2[i],
    ensures
        help_entries(a1, idx) == help_entries(a2, idx),
        pop_record(a1, idx, env, parser) == pop_record(a2, idx, env, parser),
    decreases idx, 2 * a1[idx].fields.len() + 2,
{
    lemma_nested_independent_fields(a1, a2, idx, env, parser, 0);
}

proof fn lemma_nested_independent_fields<P: ParseCapability>(
    a1: Seq<GRecord>,
    a2: Seq<GRecord>,
    idx: int,
    env: Seq<(Seq<char>, Seq<char>)>,
    parser: &P,
    k: int,
)
    requires
        0 <= idx < a1.len(),
        idx < a2.len(),
        0 <= k,
        forall|i: int| 0 <= i <= idx ==> a1[i] == a2[i],
    ensures
        help_fields(a1, idx, k) == help_fields(a2, idx, k),
        pop_fields(a1, idx, env, parser, k) == pop_fields(a2, idx, env, parser, k),
    decreases idx, 2 * (a1[idx].fields.len() - k) + 1,
{
    assert(a1[idx] == a2[idx]);
    if k < a1[idx].fields.len() {
        let fd = a1[idx].fields[k];
        match fd.ty {
            GTy::Nested(j) => {
                if 0 <= j < idx {
                    lemma_nested_independent(a1, a2, j, env, parser);
                }
            },
            _ => {},
        }
        assert(field_head(a1, idx, env, parser, k) == field_head(a2, idx, env, parser, k));
        lemma_nested_independent_fields(a1, a2, idx, env, parser, k + 1);
    }
}

} // verus!
