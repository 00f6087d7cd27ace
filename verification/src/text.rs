//! Character-level helpers shared by the path, report and pipeline code.
//!
//! Strings are modelled by their view, a `Seq<char>`. Case is folded by the
//! standard library; what it makes of a string has a name here and no
//! description.

use vstd::prelude::*;

verus! {

// What `str::to_lowercase` makes of a string: the lower-case mapping of
// Unicode, which takes tables to state.
pub uninterp spec fn lower_case(s: Seq<char>) -> Seq<char>;

// What `str::to_uppercase` makes of a string: the upper-case mapping of
// Unicode, which takes tables to state.
pub uninterp spec fn upper_case(s: Seq<char>) -> Seq<char>;

/// `s` in lower case. The empty string has no letter to fold and stays as it
/// is.
pub open spec fn lowered(s: Seq<char>) -> Seq<char> {
    if s.len() == 0 {
        s
    } else {
        lower_case(s)
    }
}

/// `s` in upper case. The empty string has no letter to fold and stays as it
/// is.
pub open spec fn uppered(s: Seq<char>) -> Seq<char> {
    if s.len() == 0 {
        s
    } else {
        upper_case(s)
    }
}

/// The characters of each of the strings `strings`.
pub open spec fn texts(strings: Seq<String>) -> Seq<Seq<char>> {
    Seq::new(strings.len(), |i: int| strings[i]@)
}

/// Whether `s` ends with `suffix`.
pub open spec fn ends_with(s: Seq<char>, suffix: Seq<char>) -> bool {
    s.len() >= suffix.len() && s.skip(s.len() - suffix.len()) == suffix
}

/// The decimal digit for `d`, where `d < 10`.
pub open spec fn digit(d: nat) -> char {
    ((d + 48) as u8) as char
}

/// The decimal rendering of `n`, without sign or leading zeros.
pub open spec fn decimal(n: nat) -> Seq<char>
    decreases n,
{
    if n < 10 {
        seq![digit(n)]
    } else {
        decimal(n / 10).push(digit(n % 10))
    }
}

/// Every character of a decimal rendering is a digit.
pub proof fn lemma_decimal_digits(n: nat)
    ensures
        decimal(n).len() >= 1,
        forall|i: int| 0 <= i < decimal(n).len() ==> '0' <= #[trigger] decimal(n)[i] <= '9',
    decreases n,
{
    if n >= 10 {
        lemma_decimal_digits(n / 10);
    }
}

/// Different numbers have different decimal renderings.
pub proof fn lemma_decimal_injective(a: nat, b: nat)
    requires
        decimal(a) == decimal(b),
    ensures
        a == b,
    decreases a,
{
    lemma_decimal_digits(a);
    lemma_decimal_digits(b);
    if a < 10 && b < 10 {
        assert(decimal(a)[0] == decimal(b)[0]);
    } else if a >= 10 && b >= 10 {
        let da = decimal(a / 10);
        let db = decimal(b / 10);
        assert(decimal(a).drop_last() == da);
        assert(decimal(b).drop_last() == db);
        assert(decimal(a).last() == digit(a % 10));
        assert(decimal(b).last() == digit(b % 10));
        lemma_decimal_injective(a / 10, b / 10);
    } else if a >= 10 {
        lemma_decimal_digits(a / 10);
        assert(decimal(a).len() >= 2);
        assert(decimal(b).len() == 1);
    } else {
        lemma_decimal_digits(b / 10);
        assert(decimal(b).len() >= 2);
        assert(decimal(a).len() == 1);
    }
}

/// Appends `c` to `s`. Wraps `String::push`, which std documents as appending
/// the given character to the end of the string.
#[verifier::external_body]
pub(crate) fn push_char(s: &mut String, c: char)
    ensures
        final(s)@ == old(s)@.push(c),
{
    s.push(c)
}

/// `s` in lower case. Wraps `str::to_lowercase`; the result is named, not
/// described.
#[verifier::external_body]
fn to_lower(s: &str) -> (folded: String)
    ensures
        folded@ == lower_case(s@),
{
    s.to_lowercase()
}

/// `s` in upper case. Wraps `str::to_uppercase`; the result is named, not
/// described.
#[verifier::external_body]
fn to_upper(s: &str) -> (folded: String)
    ensures
        folded@ == upper_case(s@),
{
    s.to_uppercase()
}

/// `s` in lower case.
pub fn lowercase_of(s: &str) -> (folded: String)
    ensures
        folded@ == lowered(s@),
{
    if s.unicode_len() == 0 {
        String::new()
    } else {
        to_lower(s)
    }
}

/// `s` in upper case.
pub fn uppercase_of(s: &str) -> (folded: String)
    ensures
        folded@ == uppered(s@),
{
    if s.unicode_len() == 0 {
        String::new()
    } else {
        to_upper(s)
    }
}

/// The characters of `s`, in order.
pub fn chars_of(s: &str) -> (v: Vec<char>)
    ensures
        v@ == s@,
{
    let mut v: Vec<char> = Vec::new();
    for c in it: s.chars()
        invariant
            it.seq() == s@,
            v@ == s@.take(it.index()),
    {
        v.push(c);
    }
    v
}

/// Appends the characters `v[from..to]` to `out`.
pub fn push_range(out: &mut String, v: &Vec<char>, from: usize, to: usize)
    requires
        from <= to <= v.len(),
    ensures
        final(out)@ == old(out)@ + v@.subrange(from as int, to as int),
{
    let mut i: usize = from;
    while i < to
        invariant
            from <= i <= to <= v.len(),
            out@ == old(out)@ + v@.subrange(from as int, i as int),
        decreases to - i,
    {
        push_char(out, v[i]);
        i = i + 1;
    }
}

/// Appends the whole of `s` to `out`.
pub fn push_str(out: &mut String, s: &str)
    ensures
        final(out)@ == old(out)@ + s@,
{
    for c in it: s.chars()
        invariant
            it.seq() == s@,
            out@ == old(out)@ + s@.take(it.index()),
    {
        push_char(out, c);
    }
}

/// Appends the decimal rendering of `n` to `out`.
pub fn push_decimal(out: &mut String, n: u128)
    ensures
        final(out)@ == old(out)@ + decimal(n as nat),
    decreases n,
{
    if n >= 10 {
        push_decimal(out, n / 10);
    }
    let d: u8 = (n % 10) as u8;
    push_char(out, (d + 48) as char);
}

/// Whether `v` holds exactly the characters of `s`.
pub fn equals_str(v: &Vec<char>, s: &str) -> (same: bool)
    ensures
        same == (v@ == s@),
{
    let mut i: usize = 0;
    let mut same = true;
    for c in it: s.chars()
        invariant
            it.seq() == s@,
            same ==> i == it.index() && i <= v.len() && v@.take(i as int) == s@.take(i as int),
            !same ==> v@ != s@,
    {
        if same {
            if i < v.len() && v[i] == c {
                i = i + 1;
            } else {
                same = false;
            }
        }
    }
    proof {
        if same {
            assert(s@.take(i as int) =~= s@);
            if i == v.len() {
                assert(v@.take(i as int) =~= v@);
            }
        }
    }
    same && i == v.len()
}

/// Whether `v` ends with the characters of `suffix`.
pub fn ends_with_str(v: &Vec<char>, suffix: &str) -> (ends: bool)
    ensures
        ends == ends_with(v@, suffix@),
{
    let tail = chars_of(suffix);
    if tail.len() > v.len() {
        return false;
    }
    let start = v.len() - tail.len();
    let mut i: usize = 0;
    while i < tail.len()
        invariant
            i <= tail.len() <= v.len(),
            start == v.len() - tail.len(),
            tail@ == suffix@,
            forall|k: int| 0 <= k < i ==> v@[start + k] == tail@[k],
        decreases tail.len() - i,
    {
        if v[start + i] != tail[i] {
            proof {
                assert(v@.skip(start as int)[i as int] != suffix@[i as int]);
            }
            return false;
        }
        i = i + 1;
    }
    proof {
        assert(v@.skip(start as int) =~= suffix@);
    }
    true
}

} // verus!
