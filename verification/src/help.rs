//! Help aggregator: walks the same field-descriptor tree as the populator
//! and merges each leaf field's effective environment key, default literal
//! and help text into one flat map. Nested record fields contribute only
//! their own record's leaf entries, never one of their own. Aggregation
//! never fails; on duplicate keys a lookup takes the last-aggregated entry.

use vstd::prelude::*;

use crate::schema::effective_key;
use crate::schema::field_key;
use crate::schema::FieldTy;
use crate::schema::GRecord;
use crate::schema::GTy;
use crate::schema::SchemaArena;
use crate::strutil::str_eq;

verus! {

/// The help entries of record `idx`, in depth-first field order: one
/// `(key, default literal, help text)` triple per reachable leaf field.
pub open spec fn help_entries(arena: Seq<GRecord>, idx: int) -> Seq<
    (Seq<char>, Seq<char>, Option<Seq<char>>),
>
    decreases idx, arena[idx].fields.len() + 1,
{
    if 0 <= idx < arena.len() {
        help_fields(arena, idx, 0)
    } else {
        Seq::empty()
    }
}

/// The help entries contributed by the fields of record `idx` from field
/// `k` on: a leaf emits its own entry, a nested record field the entries
/// of its record, whose keys derive from that record's own name.
pub open spec fn help_fields(arena: Seq<GRecord>, idx: int, k: int) -> Seq<
    (Seq<char>, Seq<char>, Option<Seq<char>>),
>
    decreases idx, arena[idx].fields.len() - k,
{
    if 0 <= idx < arena.len() && 0 <= k < arena[idx].fields.len() {
        let fd = arena[idx].fields[k];
        let head = match fd.ty {
            GTy::Nested(j) => {
                if 0 <= j < idx {
                    help_entries(arena, j)
                } else {
                    Seq::empty()
                }
            },
            _ => seq![(effective_key(arena[idx].name, fd), fd.default_lit, fd.help)],
        };
        head + help_fields(arena, idx, k + 1)
    } else {
        Seq::empty()
    }
}

/// One help map entry: an environment key, the raw default literal (empty
/// when the field has none) and the optional help text.
#[derive(Debug, PartialEq)]
pub struct HelpEntry {
    pub key: String,
    pub default_lit: String,
    pub help: Option<String>,
}

/// The flattened documentation table of a schema: every recognized
/// environment key with its default literal and help text, in depth-first
/// field order.
#[derive(Debug)]
pub struct HelpMap {
    pub entries: Vec<HelpEntry>,
}

impl View for HelpMap {
    type V = Seq<(Seq<char>, Seq<char>, Option<Seq<char>>)>;

    open spec fn view(&self) -> Seq<(Seq<char>, Seq<char>, Option<Seq<char>>)> {
        Seq::new(
            self.entries@.len(),
            |i: int| (self.entries@[i].key@, self.entries@[i].default_lit@, self.entries@[i].help.deep_view()),
        )
    }
}

/// The `(default literal, help text)` pair of the last entry named `key`,
/// if any: when distinct fields collide on one key, the last-aggregated
/// entry wins silently.
pub open spec fn help_lookup(
    entries: Seq<(Seq<char>, Seq<char>, Option<Seq<char>>)>,
    key: Seq<char>,
) -> Option<(Seq<char>, Option<Seq<char>>)>
    decreases entries.len(),
{
    if entries.len() == 0 {
        None
    } else if entries.last().0 == key {
        Some((entries.last().1, entries.last().2))
    } else {
        help_lookup(entries.drop_last(), key)
    }
}

impl HelpMap {
    /// The default literal and help text recorded for `key`, if any.
    pub fn get(&self, key: &str) -> (r: Option<(String, Option<String>)>)
        ensures
            match r {
                Some(p) => help_lookup(self@, key@) == Some((p.0@, p.1.deep_view())),
                None => help_lookup(self@, key@) is None,
            },
    {
        let ghost full = self@;
        let mut i: usize = self.entries.len();
        proof {
            assert(full.subrange(0, i as int) =~= full);
        }
        while i > 0
            invariant
                full == self@,
                full.len() == self.entries@.len(),
                0 <= i <= full.len(),
                forall|m: int|
                    0 <= m < full.len() ==> #[trigger] full[m] == (
                        self.entries@[m].key@,
                        self.entries@[m].default_lit@,
                        self.entries@[m].help.deep_view(),
                    ),
                help_lookup(full, key@) == help_lookup(full.subrange(0, i as int), key@),
            decreases i,
        {
            proof {
                let sub = full.subrange(0, i as int);
                assert(sub.last() == full[i - 1]);
                assert(sub.drop_last() =~= full.subrange(0, i - 1));
            }
            if str_eq(self.entries[i - 1].key.as_str(), key) {
                let e = &self.entries[i - 1];
                return Some((e.default_lit.clone(), e.help.clone()));
            }
            i -= 1;
        }
        proof {
            assert(full.subrange(0, 0) =~= Seq::<(Seq<char>, Seq<char>, Option<Seq<char>>)>::empty());
        }
        None
    }

    /// Whether any entry is recorded for `key`.
    pub fn contains_key(&self, key: &str) -> (r: bool)
        ensures
            r == (help_lookup(self@, key@) is Some),
    {
        match self.get(key) {
            Some(_) => true,
            None => false,
        }
    }
}

/// Collect the flat help map of record `idx`: the identical key-derivation
/// rule as the populator, over the same descriptor tree.
pub fn collect_help(arena: &SchemaArena, idx: usize) -> (r: HelpMap)
    requires
        arena.wf(),
        idx < arena@.len(),
    ensures
        r@ == help_entries(arena@, idx as int),
    decreases idx,
{
    let rec = &arena.records[idx];
    proof {
        assert(arena@[idx as int] == rec@);
    }
    let ghost grec = arena@[idx as int];
    let mut out: Vec<HelpEntry> = Vec::new();
    let ghost gdone = Seq::<(Seq<char>, Seq<char>, Option<Seq<char>>)>::empty();
    let mut k: usize = 0;
    while k < rec.fields.len()
        invariant
            arena.wf(),
            idx < arena@.len(),
            grec == arena@[idx as int],
            rec@ == grec,
            grec.fields.len() == rec.fields@.len(),
            forall|m: int| 0 <= m < grec.fields.len() ==> #[trigger] grec.fields[m] == rec.fields@[m]@,
            0 <= k <= grec.fields.len(),
            out@.len() == gdone.len(),
            forall|m: int|
                0 <= m < gdone.len() ==> #[trigger] gdone[m] == (
                    out@[m].key@,
                    out@[m].default_lit@,
                    out@[m].help.deep_view(),
                ),
            help_entries(arena@, idx as int) == gdone + help_fields(arena@, idx as int, k as int),
        decreases grec.fields.len() - k,
    {
        let fd = &rec.fields[k];
        proof {
            assert(fd@ == grec.fields[k as int]);
        }
        let ghost ghead = match fd@.ty {
            GTy::Nested(j) => {
                if 0 <= j < idx as int {
                    help_entries(arena@, j)
                } else {
                    Seq::empty()
                }
            },
            _ => seq![(effective_key(grec.name, fd@), fd@.default_lit, fd@.help)],
        };
        match &fd.ty {
            FieldTy::Nested(j) => {
                proof {
                    assert(crate::schema::record_wf(grec, idx as int));
                    assert(crate::schema::fd_wf(grec.fields[k as int], idx as int));
                }
                let mut sub = collect_help(arena, *j);
                let ghost gsub = sub@;
                let ghost old_entries = sub.entries@;
                let ghost old_out = out@;
                out.append(&mut sub.entries);
                proof {
                    assert(ghead == gsub);
                    assert(out@ == old_out + old_entries);
                    assert forall|m: int| 0 <= m < gdone.len() + gsub.len() implies #[trigger] (gdone
                        + gsub)[m] == (out@[m].key@, out@[m].default_lit@, out@[m].help.deep_view())
                    by {
                        if m < gdone.len() {
                            assert(out@[m] == old_out[m]);
                            assert((gdone + gsub)[m] == gdone[m]);
                        } else {
                            assert(out@[m] == old_entries[m - gdone.len()]);
                            assert((gdone + gsub)[m] == gsub[m - gdone.len()]);
                        }
                    }
                }
            },
            _ => {
                let key = field_key(rec.name.as_str(), fd);
                let help_c: Option<String> = match &fd.help {
                    Some(h) => Some(h.clone()),
                    None => None,
                };
                out.push(HelpEntry { key, default_lit: fd.default_lit.clone(), help: help_c });
            },
        }
        proof {
            let old_gdone = gdone;
            gdone = gdone + ghead;
            assert(forall|m: int|
                0 <= m < gdone.len() ==> #[trigger] gdone[m] == (
                    out@[m].key@,
                    out@[m].default_lit@,
                    out@[m].help.deep_view(),
                ));
            assert((old_gdone + ghead) + help_fields(arena@, idx as int, k + 1) =~= old_gdone + (
            ghead + help_fields(arena@, idx as int, k + 1)));
        }
        k += 1;
    }
    let r = HelpMap { entries: out };
    proof {
        assert(help_fields(arena@, idx as int, k as int) == Seq::<(
            Seq<char>,
            Seq<char>,
            Option<Seq<char>>,
        )>::empty());
        assert(gdone + help_fields(arena@, idx as int, k as int) =~= gdone);
        assert(r@ =~= gdone);
    }
    r
}

} // verus!
