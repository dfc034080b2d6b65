//! Attribute resolver: parses one field's attribute clause — a
//! comma-separated list of `key = value` or bare-`key` tokens — into an
//! ordered list of (key, raw value) pairs.
//!
//! Commas inside double quotes do not separate tokens. Each token is split on
//! its first `=`; both sides are cleaned (whitespace trimmed, then quote
//! characters stripped). A bare token maps to the empty value. A clause with
//! an unterminated double quote or with an empty key after cleaning is
//! malformed and resolves to nothing. Duplicate keys are kept in order; a
//! lookup takes the last occurrence.

use vstd::prelude::*;
use vstd::string::StrSliceExecFns;

use crate::strutil::clean_token;
use crate::strutil::clean_token_exec;
use crate::strutil::str_eq;

verus! {

/// One left-to-right pass over `s` from position `i`: `start` is where the
/// current token began, `inq` whether the pass stands inside double quotes,
/// `acc` the tokens already cut. Yields the raw comma-separated tokens of
/// `s`, or nothing when a double quote is left open at the end.
pub open spec fn seg_scan(
    s: Seq<char>,
    i: int,
    start: int,
    inq: bool,
    acc: Seq<Seq<char>>,
) -> Option<Seq<Seq<char>>>
    decreases s.len() - i,
{
    if 0 <= i < s.len() {
        if s[i] == '"' {
            seg_scan(s, i + 1, start, !inq, acc)
        } else if s[i] == ',' && !inq {
            seg_scan(s, i + 1, i + 1, false, acc.push(s.subrange(start, i)))
        } else {
            seg_scan(s, i + 1, start, inq, acc)
        }
    } else {
        if inq {
            None
        } else {
            Some(acc.push(s.subrange(start, s.len() as int)))
        }
    }
}

/// The raw tokens of a clause: split on commas that stand outside double
/// quotes. Nothing when a double quote is unterminated.
pub open spec fn segments(s: Seq<char>) -> Option<Seq<Seq<char>>> {
    seg_scan(s, 0, 0, false, Seq::empty())
}

/// Position of the first `=` in `seg` at or after `i`.
pub open spec fn find_eq_from(seg: Seq<char>, i: int) -> Option<int>
    decreases seg.len() - i,
{
    if 0 <= i < seg.len() {
        if seg[i] == '=' {
            Some(i)
        } else {
            find_eq_from(seg, i + 1)
        }
    } else {
        None
    }
}

/// The cleaned key of one raw token: what stands left of the first `=`
/// (the whole token when there is none), whitespace trimmed and quote
/// characters stripped.
pub open spec fn seg_key(seg: Seq<char>) -> Seq<char> {
    match find_eq_from(seg, 0) {
        Some(e) => clean_token(seg.subrange(0, e)),
        None => clean_token(seg),
    }
}

/// The cleaned value of one raw token: what stands right of the first `=`,
/// cleaned like the key; the empty sequence for a bare token.
pub open spec fn seg_val(seg: Seq<char>) -> Seq<char> {
    match find_eq_from(seg, 0) {
        Some(e) => clean_token(seg.subrange(e + 1, seg.len() as int)),
        None => Seq::empty(),
    }
}

/// What the attribute resolver yields for a clause: the cleaned (key, value)
/// pair of each token in order, or nothing when the clause is malformed
/// (unterminated double quote, or a token whose key cleans to nothing).
pub open spec fn attrs_of(clause: Seq<char>) -> Option<Seq<(Seq<char>, Seq<char>)>> {
    match segments(clause) {
        None => None,
        Some(segs) => {
            if exists|k: int| 0 <= k < segs.len() && seg_key(segs[k]).len() == 0 {
                None
            } else {
                Some(Seq::new(segs.len(), |k: int| (seg_key(segs[k]), seg_val(segs[k]))))
            }
        },
    }
}

/// The value of the last token whose key is `key`, if any: duplicate keys
/// within one clause are resolved in favour of the last occurrence.
pub open spec fn attr_last(attrs: Seq<(Seq<char>, Seq<char>)>, key: Seq<char>) -> Option<Seq<char>>
    decreases attrs.len(),
{
    if attrs.len() == 0 {
        None
    } else if attrs.last().0 == key {
        Some(attrs.last().1)
    } else {
        attr_last(attrs.drop_last(), key)
    }
}

/// The value of the last attribute named `key`, if any.
pub fn attr_get_last<'a>(attrs: &'a Vec<(String, String)>, key: &str) -> (r: Option<&'a String>)
    ensures
        match r {
            Some(v) => attr_last(attrs.deep_view(), key@) == Some(v@),
            None => attr_last(attrs.deep_view(), key@) is None,
        },
{
    let ghost full = attrs.deep_view();
    let mut i: usize = attrs.len();
    proof {
        assert(full.subrange(0, i as int) =~= full);
    }
    while i > 0
        invariant
            full == attrs.deep_view(),
            full.len() == attrs@.len(),
            0 <= i <= attrs@.len(),
            forall|m: int|
                0 <= m < full.len() ==> #[trigger] full[m] == (attrs@[m].0@, attrs@[m].1@),
            attr_last(full, key@) == attr_last(full.subrange(0, i as int), key@),
        decreases i,
    {
        if str_eq(attrs[i - 1].0.as_str(), key) {
            proof {
                let sub = full.subrange(0, i as int);
                assert(sub.last() == full[i - 1]);
            }
            return Some(&attrs[i - 1].1);
        }
        proof {
            let sub = full.subrange(0, i as int);
            assert(sub.last() == full[i - 1]);
            assert(sub.drop_last() =~= full.subrange(0, i - 1));
        }
        i -= 1;
    }
    proof {
        assert(full.subrange(0, 0) =~= Seq::<(Seq<char>, Seq<char>)>::empty());
    }
    None
}

/// The token subranges named by the `(start, end)` index pairs in `segs`.
pub open spec fn segs_view(s: Seq<char>, segs: Seq<(usize, usize)>) -> Seq<Seq<char>> {
    Seq::new(segs.len(), |k: int| s.subrange(segs[k].0 as int, segs[k].1 as int))
}

/// Resolve one attribute clause into its cleaned (key, value) pairs, in
/// token order; `None` when the clause is malformed.
pub fn resolve_attrs(clause: &str) -> (r: Option<Vec<(String, String)>>)
    ensures
        match r {
            Some(v) => attrs_of(clause@) == Some(v.deep_view()),
            None => attrs_of(clause@) is None,
        },
{
    let n: usize = clause.unicode_len();
    let mut i: usize = 0;
    let mut start: usize = 0;
    let mut inq: bool = false;
    let mut segs: Vec<(usize, usize)> = Vec::new();
    proof {
        assert(segs_view(clause@, segs@) =~= Seq::<Seq<char>>::empty());
    }
    while i < n
        invariant
            n == clause@.len(),
            0 <= start <= i <= n,
            forall|m: int|
                0 <= m < segs@.len() ==> 0 <= #[trigger] segs@[m].0 <= segs@[m].1 <= clause@.len(),
            segments(clause@) == seg_scan(clause@, i as int, start as int, inq, segs_view(clause@, segs@)),
        decreases n - i,
    {
        let c = clause.get_char(i);
        if c == '"' {
            inq = !inq;
        } else if c == ',' && !inq {
            let ghost old_segs = segs@;
            segs.push((start, i));
            proof {
                assert(segs_view(clause@, segs@) =~= segs_view(clause@, old_segs).push(
                    clause@.subrange(start as int, i as int),
                ));
            }
            start = i + 1;
        }
        i += 1;
    }
    if inq {
        return None;
    }
    let ghost old_segs = segs@;
    segs.push((start, n));
    proof {
        assert(segs_view(clause@, segs@) =~= segs_view(clause@, old_segs).push(
            clause@.subrange(start as int, n as int),
        ));
        assert(segments(clause@) == Some(segs_view(clause@, segs@)));
    }
    let ghost seg_seq = segs_view(clause@, segs@);
    let mut out: Vec<(String, String)> = Vec::new();
    let mut k: usize = 0;
    while k < segs.len()
        invariant
            segments(clause@) == Some(seg_seq),
            seg_seq == segs_view(clause@, segs@),
            forall|m: int| 0 <= m < segs@.len() ==> 0 <= #[trigger] segs@[m].0 <= segs@[m].1 <= clause@.len(),
            0 <= k <= segs@.len(),
            out@.len() == k,
            forall|m: int| 0 <= m < k ==> #[trigger] seg_key(seg_seq[m]).len() > 0,
            forall|m: int|
                0 <= m < k ==> (#[trigger] out@[m]).0@ == seg_key(seg_seq[m]) && out@[m].1@
                    == seg_val(seg_seq[m]),
        decreases segs@.len() - k,
    {
        let (lo, hi) = (segs[k].0, segs[k].1);
        let seg: &str = clause.substring_char(lo, hi);
        proof {
            assert(seg_seq[k as int] == clause@.subrange(
                segs@[k as int].0 as int,
                segs@[k as int].1 as int,
            ));
            assert(seg@ == seg_seq[k as int]);
        }
        let (key, val) = split_segment(seg);
        if key.unicode_len() == 0 {
            proof {
                assert(seg_key(seg_seq[k as int]).len() == 0);
            }
            return None;
        }
        out.push((key, val));
        proof {
            assert(out@[k as int].0@ == seg_key(seg_seq[k as int]));
            assert(out@[k as int].1@ == seg_val(seg_seq[k as int]));
        }
        k += 1;
    }
    proof {
        assert(seg_seq.len() == segs@.len());
        assert(forall|m: int| 0 <= m < seg_seq.len() ==> #[trigger] seg_key(seg_seq[m]).len() > 0);
        let model = Seq::new(seg_seq.len(), |m: int| (seg_key(seg_seq[m]), seg_val(seg_seq[m])));
        assert(out.deep_view() =~= model);
    }
    Some(out)
}

/// Split one raw token at its first `=` and clean both sides.
fn split_segment(seg: &str) -> (r: (String, String))
    ensures
        r.0@ == seg_key(seg@),
        r.1@ == seg_val(seg@),
{
    let n: usize = seg.unicode_len();
    let mut i: usize = 0;
    let mut eq: Option<usize> = None;
    while i < n && eq.is_none()
        invariant
            n == seg@.len(),
            0 <= i <= n,
            match eq {
                Some(e) => find_eq_from(seg@, 0) == Some(e as int) && e < n,
                None => find_eq_from(seg@, 0) == find_eq_from(seg@, i as int),
            },
        decreases n - i,
    {
        if seg.get_char(i) == '=' {
            eq = Some(i);
        }
        i += 1;
    }
    match eq {
        Some(e) => {
            let left = clean_token_exec(seg.substring_char(0, e));
            let right = clean_token_exec(seg.substring_char(e + 1, n));
            (left.to_owned(), right.to_owned())
        },
        None => {
            let left = clean_token_exec(seg);
            let right = String::new();
            proof {
                assert(seg@.subrange(0, n as int) =~= seg@);
            }
            (left.to_owned(), right)
        },
    }
}

} // verus!
