//! Built-in string coercions: the case-insensitive boolean literals and the
//! base-10 integer parse. Overflow and non-numeric text are coercion
//! failures, never panics.

use vstd::prelude::*;
use vstd::string::StrSliceExecFns;

verus! {

/// `s` is `true` in any letter case.
pub open spec fn is_true_lit(s: Seq<char>) -> bool {
    s.len() == 4 && (s[0] == 't' || s[0] == 'T') && (s[1] == 'r' || s[1] == 'R') && (s[2] == 'u'
        || s[2] == 'U') && (s[3] == 'e' || s[3] == 'E')
}

/// `s` is `false` in any letter case.
pub open spec fn is_false_lit(s: Seq<char>) -> bool {
    s.len() == 5 && (s[0] == 'f' || s[0] == 'F') && (s[1] == 'a' || s[1] == 'A') && (s[2] == 'l'
        || s[2] == 'L') && (s[3] == 's' || s[3] == 'S') && (s[4] == 'e' || s[4] == 'E')
}

/// The boolean a raw string denotes, if any.
pub open spec fn bool_of(s: Seq<char>) -> Option<bool> {
    if is_true_lit(s) {
        Some(true)
    } else if is_false_lit(s) {
        Some(false)
    } else {
        None
    }
}

/// Coerce a raw string to a boolean by case-insensitive match against
/// `true` and `false`.
pub fn parse_bool(s: &str) -> (r: Option<bool>)
    ensures
        r == bool_of(s@),
{
    let n: usize = s.unicode_len();
    if n == 4 {
        let c0 = s.get_char(0);
        let c1 = s.get_char(1);
        let c2 = s.get_char(2);
        let c3 = s.get_char(3);
        if (c0 == 't' || c0 == 'T') && (c1 == 'r' || c1 == 'R') && (c2 == 'u' || c2 == 'U') && (c3
            == 'e' || c3 == 'E') {
            return Some(true);
        }
        None
    } else if n == 5 {
        let c0 = s.get_char(0);
        let c1 = s.get_char(1);
        let c2 = s.get_char(2);
        let c3 = s.get_char(3);
        let c4 = s.get_char(4);
        if (c0 == 'f' || c0 == 'F') && (c1 == 'a' || c1 == 'A') && (c2 == 'l' || c2 == 'L') && (c3
            == 's' || c3 == 'S') && (c4 == 'e' || c4 == 'E') {
            return Some(false);
        }
        None
    } else {
        None
    }
}

/// A base-10 digit.
pub open spec fn is_digit(c: char) -> bool {
    48 <= c as u32 <= 57
}

/// The value of one digit character.
pub open spec fn digit_val(c: char) -> int {
    c as u32 - 48
}

/// Every character of `s` is a digit.
pub open spec fn all_digits(s: Seq<char>) -> bool {
    forall|i: int| 0 <= i < s.len() ==> is_digit(#[trigger] s[i])
}

/// The number a digit string denotes, most significant digit first.
pub open spec fn digits_val(s: Seq<char>) -> int
    decreases s.len(),
{
    if s.len() == 0 {
        0
    } else {
        digits_val(s.drop_last()) * 10 + digit_val(s.last())
    }
}

/// The unbounded integer a raw string denotes: an optional sign followed by
/// one or more digits; anything else denotes nothing.
pub open spec fn int_of(s: Seq<char>) -> Option<int> {
    let neg = s.len() > 0 && s[0] == '-';
    let ds = if s.len() > 0 && (s[0] == '-' || s[0] == '+') {
        s.drop_first()
    } else {
        s
    };
    if ds.len() > 0 && all_digits(ds) {
        if neg {
            Some(-digits_val(ds))
        } else {
            Some(digits_val(ds))
        }
    } else {
        None
    }
}

/// The `i64` a raw string denotes: its integer reading when that fits the
/// type, nothing on overflow or non-numeric text.
pub open spec fn i64_of(s: Seq<char>) -> Option<i64> {
    match int_of(s) {
        Some(v) => if i64::MIN <= v <= i64::MAX {
            Some(v as i64)
        } else {
            None
        },
        None => None,
    }
}

proof fn lemma_digits_val_nonneg(s: Seq<char>)
    requires
        all_digits(s),
    ensures
        digits_val(s) >= 0,
    decreases s.len(),
{
    if s.len() > 0 {
        assert(all_digits(s.drop_last()));
        lemma_digits_val_nonneg(s.drop_last());
    }
}

/// Appending further digits never shrinks the denoted number.
proof fn lemma_digits_prefix_le(ds: Seq<char>, k: int)
    requires
        all_digits(ds),
        0 <= k <= ds.len(),
    ensures
        digits_val(ds.subrange(0, k)) <= digits_val(ds),
    decreases ds.len() - k,
{
    if k == ds.len() {
        assert(ds.subrange(0, k) =~= ds);
    } else {
        let p = ds.subrange(0, k);
        let q = ds.subrange(0, k + 1);
        assert(q.drop_last() =~= p);
        assert(q.last() == ds[k]);
        assert(all_digits(p));
        lemma_digits_val_nonneg(p);
        assert(digits_val(q) == digits_val(p) * 10 + digit_val(ds[k]));
        lemma_digits_prefix_le(ds, k + 1);
    }
}

/// Coerce a raw string to an `i64` by base-10 parse; overflow and
/// non-numeric text yield nothing.
pub fn parse_i64(s: &str) -> (r: Option<i64>)
    ensures
        r == i64_of(s@),
{
    let n: usize = s.unicode_len();
    if n == 0 {
        return None;
    }
    let c0 = s.get_char(0);
    let neg = c0 == '-';
    let digstart: usize = if c0 == '-' || c0 == '+' {
        1
    } else {
        0
    };
    let ghost ds = if s@[0] == '-' || s@[0] == '+' {
        s@.drop_first()
    } else {
        s@
    };
    proof {
        assert(ds =~= s@.subrange(digstart as int, n as int));
    }
    if n == digstart {
        return None;
    }
    let mut acc: u64 = 0;
    let mut i: usize = digstart;
    while i < n
        invariant
            n == s@.len(),
            digstart <= i <= n,
            0 < n,
            digstart == 0 || digstart == 1,
            digstart < n,
            ds == s@.subrange(digstart as int, n as int),
            neg == (s@[0] == '-'),
            (digstart == 1) == (s@[0] == '-' || s@[0] == '+'),
            forall|j: int| digstart <= j < i ==> is_digit(#[trigger] s@[j]),
            acc as int == digits_val(s@.subrange(digstart as int, i as int)),
            acc <= 9223372036854775808,
        decreases n - i,
    {
        let c = s.get_char(i);
        let u = c as u32;
        if !(48 <= u && u <= 57) {
            proof {
                if digstart == 1 {
                    assert(s@.drop_first() =~= s@.subrange(1, n as int));
                } else {
                    assert(s@ =~= s@.subrange(0, n as int));
                }
                assert(ds[i - digstart] == s@[i as int]);
                assert(!all_digits(ds));
            }
            return None;
        }
        let d: u64 = (u - 48) as u64;
        let ghost pre = s@.subrange(digstart as int, i as int);
        let ghost ext = s@.subrange(digstart as int, i + 1 as int);
        proof {
            assert(ext.drop_last() =~= pre);
            assert(ext.last() == s@[i as int]);
            assert(digits_val(ext) == digits_val(pre) * 10 + digit_val(s@[i as int]));
        }
        if acc > 922337203685477580 || acc * 10 + d > 9223372036854775808 {
            proof {
                let full = s@.subrange(digstart as int, n as int);
                if digstart == 1 {
                    assert(s@.drop_first() =~= s@.subrange(1, n as int));
                } else {
                    assert(s@ =~= s@.subrange(0, n as int));
                }
                if all_digits(ds) {
                    assert(forall|j: int| 0 <= j < ext.len() ==> is_digit(#[trigger] ext[j]));
                    assert(ext =~= full.subrange(0, i + 1 - digstart));
                    lemma_digits_prefix_le(full, i + 1 - digstart);
                    assert(digits_val(full) > 9223372036854775808);
                    assert(int_of(s@) == Some(
                        if neg {
                            -digits_val(ds)
                        } else {
                            digits_val(ds)
                        },
                    ));
                    assert(i64_of(s@) is None);
                } else {
                    assert(int_of(s@) is None);
                    assert(i64_of(s@) is None);
                }
            }
            return None;
        }
        acc = acc * 10 + d;
        i += 1;
    }
    proof {
        if digstart == 1 {
            assert(s@.drop_first() =~= s@.subrange(1, n as int));
        } else {
            assert(s@ =~= s@.subrange(0, n as int));
        }
        assert(s@.subrange(digstart as int, i as int) == ds);
        assert(all_digits(ds));
        assert(int_of(s@) == Some(if neg {
            -digits_val(ds)
        } else {
            digits_val(ds)
        }));
    }
    if neg {
        if acc == 9223372036854775808 {
            Some(i64::MIN)
        } else {
            Some(-(acc as i64))
        }
    } else {
        if acc > 9223372036854775807 {
            None
        } else {
            Some(acc as i64)
        }
    }
}

} // verus!
