//! The environment snapshot: a mapping from variable name to string value,
//! read once before a top-level resolution pass and immutable for its
//! duration.

use vstd::prelude::*;

use crate::strutil::str_eq;

verus! {

/// An immutable snapshot of environment variables, in the order they were
/// taken.
#[derive(Debug)]
pub struct EnvSnapshot {
    pub entries: Vec<(String, String)>,
}

impl View for EnvSnapshot {
    type V = Seq<(Seq<char>, Seq<char>)>;

    open spec fn view(&self) -> Seq<(Seq<char>, Seq<char>)> {
        Seq::new(self.entries@.len(), |i: int| (self.entries@[i].0@, self.entries@[i].1@))
    }
}

/// The value of `key` in the snapshot: the first entry with that name, if
/// any.
pub open spec fn env_lookup(env: Seq<(Seq<char>, Seq<char>)>, key: Seq<char>) -> Option<Seq<char>>
    decreases env.len(),
{
    if env.len() == 0 {
        None
    } else if env[0].0 == key {
        Some(env[0].1)
    } else {
        env_lookup(env.drop_first(), key)
    }
}

impl EnvSnapshot {
    /// A snapshot with no variables.
    pub fn new() -> (r: EnvSnapshot)
        ensures
            r@ == Seq::<(Seq<char>, Seq<char>)>::empty(),
    {
        let r = EnvSnapshot { entries: Vec::new() };
        proof {
            assert(r@ =~= Seq::<(Seq<char>, Seq<char>)>::empty());
        }
        r
    }

    /// Record one variable; an earlier entry with the same name keeps
    /// priority.
    pub fn push(&mut self, key: String, value: String)
        ensures
            final(self)@ == old(self)@.push((key@, value@)),
    {
        let ghost old_view = self@;
        let ghost p = (key@, value@);
        self.entries.push((key, value));
        proof {
            assert(self@ =~= old_view.push(p));
        }
    }

    /// Look one variable up.
    pub fn get<'a>(&'a self, key: &str) -> (r: Option<&'a String>)
        ensures
            match r {
                Some(v) => env_lookup(self@, key@) == Some(v@),
                None => env_lookup(self@, key@) is None,
            },
    {
        let ghost full = self@;
        proof {
            assert(full.subrange(0, full.len() as int) =~= full);
        }
        let mut i: usize = 0;
        while i < self.entries.len()
            invariant
                full == self@,
                full.len() == self.entries@.len(),
                0 <= i <= full.len(),
                forall|m: int|
                    0 <= m < full.len() ==> #[trigger] full[m] == (
                        self.entries@[m].0@,
                        self.entries@[m].1@,
                    ),
                env_lookup(full, key@) == env_lookup(
                    full.subrange(i as int, full.len() as int),
                    key@,
                ),
            decreases full.len() - i,
        {
            proof {
                let sub = full.subrange(i as int, full.len() as int);
                assert(sub[0] == full[i as int]);
                assert(sub.drop_first() =~= full.subrange(i + 1, full.len() as int));
            }
            if str_eq(self.entries[i].0.as_str(), key) {
                return Some(&self.entries[i].1);
            }
            i += 1;
        }
        proof {
            assert(full.subrange(i as int, full.len() as int) =~= Seq::<(
                Seq<char>,
                Seq<char>,
            )>::empty());
        }
        None
    }
}

} // verus!
