//! Plain-text rendering of numbers.

use vstd::prelude::*;
use vstd::string::*;

verus! {

pub open spec fn spec_digit(d: u8) -> &'static str {
    match d {
        0 => "0",
        1 => "1",
        2 => "2",
        3 => "3",
        4 => "4",
        5 => "5",
        6 => "6",
        7 => "7",
        8 => "8",
        9 => "9",
        10 => "a",
        11 => "b",
        12 => "c",
        13 => "d",
        14 => "e",
        _ => "f",
    }
}

/// The character of a digit below sixteen.
#[verifier::when_used_as_spec(spec_digit)]
fn digit(d: u8) -> (r: &'static str)
    ensures
        r == spec_digit(d),
{
    match d {
        0 => "0",
        1 => "1",
        2 => "2",
        3 => "3",
        4 => "4",
        5 => "5",
        6 => "6",
        7 => "7",
        8 => "8",
        9 => "9",
        10 => "a",
        11 => "b",
        12 => "c",
        13 => "d",
        14 => "e",
        _ => "f",
    }
}

/// Dividing by a base shrinks a number.
pub proof fn lemma_quotient_smaller(n: int, base: int)
    requires
        2 <= base <= n,
    ensures
        0 <= n / base < n,
        0 <= n % base < base,
{
    assert(0 <= n / base < n && 0 <= n % base < base) by (nonlinear_arith)
        requires
            2 <= base <= n,
    ;
}

/// The digits of `n` in the given base, most significant first.
pub open spec fn digits_text(n: nat, base: nat) -> Seq<char>
    decreases n,
{
    if base < 2 || n < base {
        spec_digit(n as u8)@
    } else {
        proof {
            lemma_quotient_smaller(n as int, base as int);
        }
        digits_text(n / base, base) + spec_digit((n % base) as u8)@
    }
}

/// Decimal text of a natural number.
pub open spec fn dec_text(n: nat) -> Seq<char> {
    digits_text(n, 10)
}

/// Decimal text of an integer.
pub open spec fn int_text(i: int) -> Seq<char> {
    if i < 0 {
        "-"@ + dec_text((-i) as nat)
    } else {
        dec_text(i as nat)
    }
}

/// Hexadecimal text of a natural number, with its prefix.
pub open spec fn hex_text(n: nat) -> Seq<char> {
    "0x"@ + digits_text(n, 16)
}

fn push_digits(s: &mut String, n: u128, base: u128)
    requires
        2 <= base <= 16,
    ensures
        final(s)@ == old(s)@ + digits_text(n as nat, base as nat),
    decreases n,
{
    if n < base {
        s.append(digit(n as u8));
    } else {
        proof {
            lemma_quotient_smaller(n as int, base as int);
        }
        push_digits(s, n / base, base);
        s.append(digit((n % base) as u8));
        assert(s@ =~= old(s)@ + digits_text(n as nat, base as nat));
    }
}

pub fn push_dec(s: &mut String, n: u128)
    ensures
        final(s)@ == old(s)@ + dec_text(n as nat),
{
    push_digits(s, n, 10);
}

pub fn push_int(s: &mut String, i: i128)
    ensures
        final(s)@ == old(s)@ + int_text(i as int),
{
    if i < 0 {
        s.append("-");
        push_digits(s, magnitude(i), 10);
        assert(s@ =~= old(s)@ + int_text(i as int));
    } else {
        push_digits(s, i as u128, 10);
    }
}

/// The absolute value of a negative number.
fn magnitude(i: i128) -> (r: u128)
    requires
        i < 0,
    ensures
        r == -i,
{
    ((-(i + 1)) as u128) + 1
}

pub fn push_hex(s: &mut String, n: u128)
    ensures
        final(s)@ == old(s)@ + hex_text(n as nat),
{
    s.append("0x");
    push_digits(s, n, 16);
    assert(s@ =~= old(s)@ + hex_text(n as nat));
}

/// The low `k` hexadecimal digits of `n`.
pub open spec fn hex_digits(n: nat, k: nat) -> Seq<char>
    decreases k,
{
    if k == 0 {
        Seq::empty()
    } else {
        hex_digits(n / 16, (k - 1) as nat) + spec_digit((n % 16) as u8)@
    }
}

/// Hexadecimal text of a natural number below `16^k`, zero-padded to `k`
/// digits, with its prefix.
pub open spec fn padded_hex_text(n: nat, k: nat) -> Seq<char> {
    "0x"@ + hex_digits(n, k)
}

fn push_hex_digits(s: &mut String, n: u128, k: u32)
    ensures
        final(s)@ == old(s)@ + hex_digits(n as nat, k as nat),
    decreases k,
{
    if k > 0 {
        push_hex_digits(s, n / 16, k - 1);
        s.append(digit((n % 16) as u8));
    }
    assert(s@ =~= old(s)@ + hex_digits(n as nat, k as nat));
}

pub fn push_padded_hex(s: &mut String, n: u128, k: u32)
    ensures
        final(s)@ == old(s)@ + padded_hex_text(n as nat, k as nat),
{
    s.append("0x");
    push_hex_digits(s, n, k);
    assert(s@ =~= old(s)@ + padded_hex_text(n as nat, k as nat));
}

/// `n` spaces.
pub open spec fn spaces(n: nat) -> Seq<char>
    decreases n,
{
    if n == 0 {
        Seq::empty()
    } else {
        spaces((n - 1) as nat) + " "@
    }
}

/// The spaces that fill a text up to a width.
pub open spec fn filler(t: Seq<char>, width: nat) -> Seq<char> {
    spaces(
        if t.len() < width {
            (width - t.len()) as nat
        } else {
            0
        },
    )
}

fn push_spaces(s: &mut String, n: usize)
    ensures
        final(s)@ == old(s)@ + spaces(n as nat),
    decreases n,
{
    if n > 0 {
        push_spaces(s, n - 1);
        s.append(" ");
    }
    assert(s@ =~= old(s)@ + spaces(n as nat));
}

/// Appends the spaces that fill a text up to a width.
pub fn push_filler(s: &mut String, t: &str, width: usize)
    ensures
        final(s)@ == old(s)@ + filler(t@, width as nat),
{
    let n: usize = t.unicode_len();
    if n < width {
        push_spaces(s, width - n);
    } else {
        assert(s@ =~= old(s)@ + filler(t@, width as nat));
    }
}

/// Whether `a` stands before `b` in the dictionary order of their
/// characters from position `i` on.
pub open spec fn before_from(a: Seq<char>, b: Seq<char>, i: int) -> bool
    decreases a.len() - i,
{
    if i >= b.len() {
        false
    } else if i >= a.len() {
        true
    } else {
        a[i] < b[i] || (a[i] == b[i] && before_from(a, b, i + 1))
    }
}

/// Dictionary order.
pub open spec fn before(a: Seq<char>, b: Seq<char>) -> bool {
    before_from(a, b, 0)
}

/// Whether `a` stands before `b` in dictionary order.
pub fn is_before(a: &str, b: &str) -> (r: bool)
    ensures
        r == before(a@, b@),
{
    let (n, m) = (a.unicode_len(), b.unicode_len());
    let mut i: usize = 0;
    while i < n && i < m
        invariant
            i <= n,
            i <= m,
            n == a@.len(),
            m == b@.len(),
            before(a@, b@) == before_from(a@, b@, i as int),
        decreases n - i,
    {
        let (c, d) = (a.get_char(i), b.get_char(i));
        if c as u32 != d as u32 {
            return (c as u32) < (d as u32);
        }
        i = i + 1;
    }
    i < m
}

/// Dictionary order is strict: of two texts either one stands before the
/// other, or they are equal.
pub proof fn before_is_total(a: Seq<char>, b: Seq<char>)
    ensures
        a == b || before(a, b) || before(b, a),
        !(before(a, b) && before(b, a)),
        a == b ==> !before(a, b),
{
    lemma_total(a, b, 0);
}

proof fn lemma_total(a: Seq<char>, b: Seq<char>, i: int)
    requires
        0 <= i <= a.len(),
        i <= b.len(),
        forall|k: int| 0 <= k < i ==> a[k] == b[k],
    ensures
        a == b || before_from(a, b, i) || before_from(b, a, i),
        !(before_from(a, b, i) && before_from(b, a, i)),
        a == b ==> !before_from(a, b, i),
    decreases a.len() - i,
{
    if i < a.len() && i < b.len() {
        if a[i] == b[i] {
            lemma_total(a, b, i + 1);
        }
    } else if a.len() == b.len() {
        assert(a =~= b);
    }
}

/// Dictionary order is transitive.
pub proof fn before_is_transitive(a: Seq<char>, b: Seq<char>, c: Seq<char>)
    requires
        before(a, b),
        before(b, c),
    ensures
        before(a, c),
{
    lemma_transitive(a, b, c, 0);
}

proof fn lemma_transitive(a: Seq<char>, b: Seq<char>, c: Seq<char>, i: int)
    requires
        0 <= i,
        before_from(a, b, i),
        before_from(b, c, i),
    ensures
        before_from(a, c, i),
    decreases a.len() - i,
{
    if i < a.len() && i < b.len() && i < c.len() && a[i] == b[i] && b[i] == c[i] {
        lemma_transitive(a, b, c, i + 1);
    }
}

} // verus!
