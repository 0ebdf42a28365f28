//! Building and comparing text.

use crate::decimal;
use vstd::prelude::*;
use vstd::utf8;

verus! {

/// `String::push`: appends the character at the end.
pub assume_specification[ String::push ](s: &mut String, c: char)
    ensures
        final(s)@ == old(s)@.push(c),
;

/// An upper-case Latin letter in lower case, any other character as it is.
pub open spec fn ascii_lower(c: char) -> char {
    if 'A' <= c && c <= 'Z' {
        ((c as u32) + 32) as char
    } else {
        c
    }
}

/// Whether every character is ASCII.
pub open spec fn plain(text: Seq<char>) -> bool {
    forall|i: int| 0 <= i < text.len() ==> (#[trigger] text[i] as u32) < 128
}

/// What std makes of a text in lower case.
pub uninterp spec fn lowercase(text: Seq<char>) -> Seq<char>;

/// Calls `str::to_lowercase`.
///
/// Claimed: of ASCII text the letters are brought to lower case and nothing else changes.
/// What becomes of other letters, which goes by the Unicode tables, is left to the name.
#[verifier::external_body]
pub(crate) fn to_lowercase(text: &str) -> (r: String)
    ensures
        r@ == lowercase(text@),
        plain(text@) ==> r@ == text@.map_values(|c: char| ascii_lower(c)),
{
    text.to_lowercase()
}

/// A lower-case Latin letter in upper case, any other character as it is.
pub open spec fn ascii_upper(c: char) -> char {
    if 'a' <= c && c <= 'z' {
        ((c as u32) - 32) as char
    } else {
        c
    }
}

/// What std makes of a text in upper case.
pub uninterp spec fn uppercase(text: Seq<char>) -> Seq<char>;

/// Calls `str::to_uppercase`.
///
/// Claimed: of ASCII text the letters are brought to upper case and nothing else changes.
/// What becomes of other letters, which goes by the Unicode tables, is left to the name.
#[verifier::external_body]
pub(crate) fn to_uppercase(text: &str) -> (r: String)
    ensures
        r@ == uppercase(text@),
        plain(text@) ==> r@ == text@.map_values(|c: char| ascii_upper(c)),
{
    text.to_uppercase()
}

/// Whether two texts are the same.
pub fn same(a: &str, b: &str) -> (r: bool)
    ensures
        r == (a@ == b@),
{
    let x = a.as_bytes();
    let y = b.as_bytes();
    proof {
        utf8::encode_utf8_decode_utf8(a@);
        utf8::encode_utf8_decode_utf8(b@);
    }
    if x.len() != y.len() {
        return false;
    }
    let mut i: usize = 0;
    while i < x.len()
        invariant
            i <= x.len(),
            x@.len() == y@.len(),
            x@ == utf8::encode_utf8(a@),
            y@ == utf8::encode_utf8(b@),
            forall|j: int| 0 <= j < i ==> x@[j] == y@[j],
        decreases x.len() - i,
    {
        if x[i] != y[i] {
            return false;
        }
        i += 1;
    }
    assert(x@ =~= y@);
    true
}

/// The characters of a text, in order.
pub fn chars_of(text: &str) -> (r: Vec<char>)
    ensures
        r@ == text@,
{
    let mut r: Vec<char> = Vec::new();
    for c in it: text.chars()
        invariant
            r@ == it.seq().take(it.index() as int),
            it.seq() == text@,
    {
        proof {
            assert(it.seq().take(it.index() as int + 1) =~= it.seq().take(
                it.index() as int,
            ).push(c));
        }
        r.push(c);
    }
    assert(text@.take(text@.len() as int) =~= text@);
    r
}

/// Text order: by the first character that differs, a text before all that it begins.
pub open spec fn before(a: Seq<char>, b: Seq<char>) -> bool
    decreases a.len(),
{
    if b.len() == 0 {
        false
    } else if a.len() == 0 {
        true
    } else if a[0] != b[0] {
        a[0] < b[0]
    } else {
        before(a.drop_first(), b.drop_first())
    }
}

pub proof fn lemma_before_irreflexive(a: Seq<char>)
    ensures
        !before(a, a),
    decreases a.len(),
{
    if a.len() > 0 {
        lemma_before_irreflexive(a.drop_first());
    }
}

pub proof fn lemma_before_transitive(a: Seq<char>, b: Seq<char>, c: Seq<char>)
    requires
        before(a, b),
        before(b, c),
    ensures
        before(a, c),
    decreases a.len(),
{
    if a.len() > 0 && b.len() > 0 && c.len() > 0 && a[0] == b[0] && b[0] == c[0] {
        lemma_before_transitive(a.drop_first(), b.drop_first(), c.drop_first());
    }
}

pub proof fn lemma_before_total(a: Seq<char>, b: Seq<char>)
    ensures
        before(a, b) || before(b, a) || a == b,
    decreases a.len(),
{
    if a.len() == 0 && b.len() == 0 {
        assert(a =~= b);
    } else if a.len() > 0 && b.len() > 0 && a[0] == b[0] {
        lemma_before_total(a.drop_first(), b.drop_first());
        if a.drop_first() == b.drop_first() {
            assert(a =~= seq![a[0]] + a.drop_first());
            assert(b =~= seq![b[0]] + b.drop_first());
        }
    }
}

/// The first character that differs decides, and a text comes before all that it begins.
pub proof fn the_first_difference_decides(a: Seq<char>, b: Seq<char>, n: int)
    requires
        0 <= n <= a.len(),
        n < b.len(),
        forall|j: int| 0 <= j < n ==> a[j] == b[j],
    ensures
        n == a.len() ==> before(a, b),
        n < a.len() && a[n] < b[n] ==> before(a, b),
        n < a.len() && a[n] > b[n] ==> !before(a, b),
{
    lemma_before_skips(a, b, n);
    if n < a.len() {
        assert(a.skip(n)[0] == a[n]);
    }
    assert(b.skip(n)[0] == b[n]);
}

/// Skipping what two texts begin with alike does not change their order.
proof fn lemma_before_skips(a: Seq<char>, b: Seq<char>, n: int)
    requires
        0 <= n <= a.len(),
        n <= b.len(),
        forall|j: int| 0 <= j < n ==> a[j] == b[j],
    ensures
        before(a, b) == before(a.skip(n), b.skip(n)),
    decreases n,
{
    if n == 0 {
        assert(a.skip(0) =~= a);
        assert(b.skip(0) =~= b);
    } else {
        lemma_before_skips(a.drop_first(), b.drop_first(), n - 1);
        assert(a.drop_first().skip(n - 1) =~= a.skip(n));
        assert(b.drop_first().skip(n - 1) =~= b.skip(n));
    }
}

/// Whether `a` comes before `b` in text order.
pub fn comes_before(a: &str, b: &str) -> (r: bool)
    ensures
        r == before(a@, b@),
{
    let x = chars_of(a);
    let y = chars_of(b);
    let mut i: usize = 0;
    while i < x.len() && i < y.len()
        invariant
            i <= x.len(),
            i <= y.len(),
            x@ == a@,
            y@ == b@,
            forall|j: int| 0 <= j < i ==> x@[j] == y@[j],
        decreases x.len() - i,
    {
        if x[i] != y[i] {
            proof {
                lemma_before_skips(a@, b@, i as int);
            }
            return x[i] < y[i];
        }
        i += 1;
    }
    proof {
        lemma_before_skips(a@, b@, i as int);
    }
    x.len() < y.len()
}

/// The character of a decimal digit.
fn digit_char(d: u64) -> (c: char)
    requires
        d < 10,
    ensures
        c == decimal::digit(d as int),
{
    (d as u8 + 48) as char
}

/// A number in decimal digits.
pub fn unsigned(value: u64) -> (r: String)
    ensures
        r@ == decimal::digits(value as int),
    decreases value,
{
    let mut r = if value < 10 {
        String::new()
    } else {
        unsigned(value / 10)
    };
    r.push(digit_char(value % 10));
    proof {
        if value < 10 {
            assert(r@ =~= decimal::digits(value as int));
        }
    }
    r
}

/// An integer as it is printed.
pub fn signed(value: i64) -> (r: String)
    ensures
        r@ == decimal::integer_text(value as int),
{
    if value >= 0 {
        return unsigned(value as u64);
    }
    let mut r = String::new();
    r.push('-');
    let magnitude: u64 = if value == i64::MIN {
        9223372036854775808
    } else {
        (-value) as u64
    };
    let rest = unsigned(magnitude);
    r.append(rest.as_str());
    r
}

/// The last two digits of a number, a zero in front where it has one.
pub fn two_digits(value: u64) -> (r: String)
    ensures
        r@ == decimal::padded(value as int, 2),
{
    let mut r = String::new();
    r.push(digit_char(value / 10 % 10));
    r.push(digit_char(value % 10));
    proof {
        reveal_with_fuel(decimal::padded, 3);
        assert(r@ =~= decimal::padded(value as int, 2));
    }
    r
}

/// The last three digits of a number, zeros in front where it has fewer.
pub fn three_digits(value: u64) -> (r: String)
    ensures
        r@ == decimal::padded(value as int, 3),
{
    let mut r = String::new();
    r.push(digit_char(value / 100 % 10));
    r.push(digit_char(value / 10 % 10));
    r.push(digit_char(value % 10));
    proof {
        reveal_with_fuel(decimal::padded, 4);
        assert(value / 10 / 10 == value / 100);
        assert(r@ =~= decimal::padded(value as int, 3));
    }
    r
}

} // verus!
