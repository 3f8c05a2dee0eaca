//! Character-level helpers on strings.
use vstd::prelude::*;

verus! {

/// The characters that `char::is_whitespace` accepts (Unicode `White_Space`).
pub open spec fn is_ws(c: char) -> bool {
    let u = c as u32;
    (9 <= u && u <= 13) || u == 32 || u == 0x85 || u == 0xA0 || u == 0x1680 || (0x2000 <= u && u
        <= 0x200A) || u == 0x2028 || u == 0x2029 || u == 0x202F || u == 0x205F || u == 0x3000
}

pub fn is_ws_char(c: char) -> (r: bool)
    ensures
        r == is_ws(c),
{
    let u = c as u32;
    (9 <= u && u <= 13) || u == 32 || u == 0x85 || u == 0xA0 || u == 0x1680 || (0x2000 <= u && u
        <= 0x200A) || u == 0x2028 || u == 0x2029 || u == 0x202F || u == 0x205F || u == 0x3000
}

/// Every character is whitespace: what `trim` leaves empty.
pub open spec fn is_blank(s: Seq<char>) -> bool {
    forall|i: int| 0 <= i < s.len() ==> is_ws(#[trigger] s[i])
}

/// Some character is whitespace.
pub open spec fn has_ws(s: Seq<char>) -> bool {
    exists|i: int| 0 <= i < s.len() && is_ws(#[trigger] s[i])
}

/// The characters of `s`, in order.
pub fn chars_of(s: &str) -> (r: Vec<char>)
    ensures
        r@ == s@,
{
    let mut out: Vec<char> = Vec::new();
    for c in it: s.chars()
        invariant
            out@ == it.seq().subrange(0, it.index() as int),
            it.seq() == s@,
    {
        out.push(c);
    }
    out
}

/// Relies on `String::push`: appends one character.
#[verifier::external_body]
pub(crate) fn push_char(s: &mut String, c: char)
    ensures
        final(s)@ == old(s)@.push(c),
{
    s.push(c)
}

/// Whether two strings hold the same characters.
pub fn str_eq(a: &str, b: &str) -> (r: bool)
    ensures
        r == (a@ == b@),
{
    let x = chars_of(a);
    let y = chars_of(b);
    if x.len() != y.len() {
        return false;
    }
    let mut i: usize = 0;
    while i < x.len()
        invariant
            i <= x@.len(),
            x@.len() == y@.len(),
            x@ == a@,
            y@ == b@,
            forall|k: int| 0 <= k < i ==> x@[k] == y@[k],
        decreases x@.len() - i,
    {
        if x[i] != y[i] {
            assert(x@[i as int] != y@[i as int]);
            return false;
        }
        i = i + 1;
    }
    assert(x@ =~= y@);
    true
}

/// Whether every character of `s` is whitespace (`s.trim()` is empty).
pub fn is_blank_str(s: &str) -> (r: bool)
    ensures
        r == is_blank(s@),
{
    let v = chars_of(s);
    let mut i: usize = 0;
    while i < v.len()
        invariant
            i <= v@.len(),
            v@ == s@,
            forall|k: int| 0 <= k < i ==> is_ws(#[trigger] v@[k]),
        decreases v@.len() - i,
    {
        if !is_ws_char(v[i]) {
            return false;
        }
        i = i + 1;
    }
    true
}

/// Whether some character of `s` is whitespace.
pub fn has_ws_str(s: &str) -> (r: bool)
    ensures
        r == has_ws(s@),
{
    let v = chars_of(s);
    let mut i: usize = 0;
    while i < v.len()
        invariant
            i <= v@.len(),
            v@ == s@,
            forall|k: int| 0 <= k < i ==> !is_ws(#[trigger] v@[k]),
        decreases v@.len() - i,
    {
        if is_ws_char(v[i]) {
            return true;
        }
        i = i + 1;
    }
    false
}

/// Index of the first non-whitespace character from `i` on, or the length.
pub open spec fn first_non_ws(s: Seq<char>, i: int) -> int
    decreases s.len() - i,
{
    if i < 0 || i >= s.len() {
        s.len() as int
    } else if is_ws(s[i]) {
        first_non_ws(s, i + 1)
    } else {
        i
    }
}

/// One past the last non-whitespace character before `j`, or 0.
pub open spec fn last_non_ws(s: Seq<char>, j: int) -> int
    decreases j,
{
    if j <= 0 || j > s.len() {
        0
    } else if is_ws(s[j - 1]) {
        last_non_ws(s, j - 1)
    } else {
        j
    }
}

/// `s` without leading and trailing whitespace, as `str::trim` gives it.
pub open spec fn trimmed(s: Seq<char>) -> Seq<char> {
    let a = first_non_ws(s, 0);
    let b = last_non_ws(s, s.len() as int);
    if a >= b {
        Seq::empty()
    } else {
        s.subrange(a, b)
    }
}

/// `s` without leading and trailing whitespace.
pub fn trim_str(s: &str) -> (r: String)
    ensures
        r@ == trimmed(s@),
{
    let v = chars_of(s);
    let mut a: usize = 0;
    while a < v.len() && is_ws_char(v[a])
        invariant
            a <= v@.len(),
            v@ == s@,
            first_non_ws(v@, 0) == first_non_ws(v@, a as int),
        decreases v@.len() - a,
    {
        a = a + 1;
    }
    let mut b: usize = v.len();
    while b > 0 && is_ws_char(v[b - 1])
        invariant
            b <= v@.len(),
            v@ == s@,
            last_non_ws(v@, v@.len() as int) == last_non_ws(v@, b as int),
        decreases b,
    {
        b = b - 1;
    }
    let mut out = String::new();
    if a >= b {
        assert(out@ =~= trimmed(s@));
        return out;
    }
    let mut k: usize = a;
    while k < b
        invariant
            a <= k <= b <= v@.len(),
            out@ == v@.subrange(a as int, k as int),
        decreases b - k,
    {
        push_char(&mut out, v[k]);
        k = k + 1;
        assert(out@ =~= v@.subrange(a as int, k as int));
    }
    out
}

} // verus!
