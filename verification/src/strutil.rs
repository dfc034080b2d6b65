//! Character classes and token cleaning shared by the attribute resolver and
//! the schema extractor: whitespace trimming, quote stripping, and character
//! level string equality.

use vstd::prelude::*;
use vstd::string::StrSliceExecFns;

verus! {

/// Whitespace as the attribute grammar understands it.
pub open spec fn is_ws(c: char) -> bool {
    c == ' ' || c == '\t' || c == '\n' || c == '\r'
}

/// Quote characters stripped from attribute keys and values.
pub open spec fn is_quote(c: char) -> bool {
    c == '"' || c == '\''
}

/// The character class that [`cut_front`] and [`cut_back`] remove: quotes
/// when `quotes` is set, whitespace otherwise.
pub open spec fn is_cut(c: char, quotes: bool) -> bool {
    if quotes {
        is_quote(c)
    } else {
        is_ws(c)
    }
}

/// `s` with every leading character of the class removed.
pub open spec fn cut_front(s: Seq<char>, quotes: bool) -> Seq<char>
    decreases s.len(),
{
    if s.len() > 0 && is_cut(s[0], quotes) {
        cut_front(s.drop_first(), quotes)
    } else {
        s
    }
}

/// `s` with every trailing character of the class removed.
pub open spec fn cut_back(s: Seq<char>, quotes: bool) -> Seq<char>
    decreases s.len(),
{
    if s.len() > 0 && is_cut(s.last(), quotes) {
        cut_back(s.drop_last(), quotes)
    } else {
        s
    }
}

/// `s` without leading and trailing characters of the class.
pub open spec fn cut_ends(s: Seq<char>, quotes: bool) -> Seq<char> {
    cut_back(cut_front(s, quotes), quotes)
}

/// `s` without surrounding whitespace.
pub open spec fn trim_ws(s: Seq<char>) -> Seq<char> {
    cut_ends(s, false)
}

/// How an attribute key or value is cleaned: surrounding whitespace first,
/// then surrounding quote characters.
pub open spec fn clean_token(s: Seq<char>) -> Seq<char> {
    cut_ends(cut_ends(s, false), true)
}

#[verifier::when_used_as_spec(is_cut)]
pub fn is_cut_exec(c: char, quotes: bool) -> (r: bool)
    ensures
        r == is_cut(c, quotes),
{
    if quotes {
        c == '"' || c == '\''
    } else {
        c == ' ' || c == '\t' || c == '\n' || c == '\r'
    }
}

proof fn lemma_cut_front_subrange(s: Seq<char>, i: int, quotes: bool)
    requires
        0 <= i < s.len(),
        is_cut(s[i], quotes),
    ensures
        cut_front(s.subrange(i, s.len() as int), quotes) == cut_front(
            s.subrange(i + 1, s.len() as int),
            quotes,
        ),
{
    let sub = s.subrange(i, s.len() as int);
    assert(sub.drop_first() =~= s.subrange(i + 1, s.len() as int));
}

proof fn lemma_cut_back_subrange(s: Seq<char>, i: int, j: int, quotes: bool)
    requires
        0 <= i < j <= s.len(),
        is_cut(s[j - 1], quotes),
    ensures
        cut_back(s.subrange(i, j), quotes) == cut_back(s.subrange(i, j - 1), quotes),
{
    let sub = s.subrange(i, j);
    assert(sub.drop_last() =~= s.subrange(i, j - 1));
}

/// `s` without leading and trailing characters of the chosen class:
/// whitespace when `quotes` is false, quote characters when it is true.
pub fn cut_ends_exec<'a>(s: &'a str, quotes: bool) -> (r: &'a str)
    ensures
        r@ == cut_ends(s@, quotes),
{
    let n: usize = s.unicode_len();
    proof {
        assert(s@.subrange(0, n as int) =~= s@);
    }
    let mut i: usize = 0;
    while i < n && is_cut_exec(s.get_char(i), quotes)
        invariant
            n == s@.len(),
            0 <= i <= n,
            cut_front(s@, quotes) == cut_front(s@.subrange(i as int, n as int), quotes),
        decreases n - i,
    {
        proof {
            lemma_cut_front_subrange(s@, i as int, quotes);
        }
        i += 1;
    }
    proof {
        if i < n {
            assert(s@.subrange(i as int, n as int)[0] == s@[i as int]);
            assert(cut_front(s@, quotes) == s@.subrange(i as int, n as int));
        } else {
            assert(s@.subrange(i as int, n as int) =~= Seq::<char>::empty());
            assert(cut_front(s@, quotes) == s@.subrange(i as int, n as int));
        }
    }
    let mut j: usize = n;
    while j > i && is_cut_exec(s.get_char(j - 1), quotes)
        invariant
            n == s@.len(),
            0 <= i <= j <= n,
            cut_front(s@, quotes) == s@.subrange(i as int, n as int),
            cut_back(s@.subrange(i as int, n as int), quotes) == cut_back(
                s@.subrange(i as int, j as int),
                quotes,
            ),
        decreases j,
    {
        proof {
            assert(s@.subrange(i as int, j as int)[j - i - 1] == s@[j - 1]);
            lemma_cut_back_subrange(s@, i as int, j as int, quotes);
        }
        j -= 1;
    }
    proof {
        let sub = s@.subrange(i as int, j as int);
        if j > i {
            assert(sub.last() == s@[j - 1]);
            assert(cut_back(sub, quotes) == sub);
        } else {
            assert(sub =~= Seq::<char>::empty());
            assert(cut_back(sub, quotes) == sub);
        }
    }
    s.substring_char(i, j)
}

/// Surrounding whitespace removed.
pub fn trim_ws_exec<'a>(s: &'a str) -> (r: &'a str)
    ensures
        r@ == trim_ws(s@),
{
    cut_ends_exec(s, false)
}

/// Whitespace removed, then surrounding quote characters.
pub fn clean_token_exec<'a>(s: &'a str) -> (r: &'a str)
    ensures
        r@ == clean_token(s@),
{
    cut_ends_exec(cut_ends_exec(s, false), true)
}

/// Character-for-character string equality.
pub fn str_eq(a: &str, b: &str) -> (r: bool)
    ensures
        r == (a@ == b@),
{
    let n: usize = a.unicode_len();
    if n != b.unicode_len() {
        return false;
    }
    let mut i: usize = 0;
    while i < n
        invariant
            n == a@.len(),
            n == b@.len(),
            0 <= i <= n,
            forall|k: int| 0 <= k < i ==> a@[k] == b@[k],
        decreases n - i,
    {
        if a.get_char(i) != b.get_char(i) {
            return false;
        }
        i += 1;
    }
    proof {
        assert(a@ =~= b@);
    }
    true
}

} // verus!
