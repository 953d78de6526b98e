//! Decimal text of integers, as `{}` formatting renders them.
use vstd::prelude::*;

verus! {

/// The character of a decimal digit.
pub open spec fn digit_char(d: nat) -> char {
    if d == 0 {
        '0'
    } else if d == 1 {
        '1'
    } else if d == 2 {
        '2'
    } else if d == 3 {
        '3'
    } else if d == 4 {
        '4'
    } else if d == 5 {
        '5'
    } else if d == 6 {
        '6'
    } else if d == 7 {
        '7'
    } else if d == 8 {
        '8'
    } else {
        '9'
    }
}

/// Decimal digits of `n`, most significant first, without leading zeros.
pub open spec fn decimal(n: nat) -> Seq<char>
    decreases n,
{
    if n < 10 {
        seq![digit_char(n)]
    } else {
        decimal(n / 10).push(digit_char(n % 10))
    }
}

/// Decimal text of a signed integer: a minus sign before the digits of its
/// magnitude when it is negative.
pub open spec fn signed_decimal(i: int) -> Seq<char> {
    if i < 0 {
        seq!['-'] + decimal((-i) as nat)
    } else {
        decimal(i as nat)
    }
}

/// Calls `String::push`, which std documents as appending the character to
/// the end of the string; the contract claims exactly that of its characters.
#[verifier::external_body]
fn push_char(s: &mut String, c: char)
    ensures
        final(s)@ == old(s)@.push(c),
{
    s.push(c);
}

fn digit(d: u64) -> (c: char)
    requires
        d < 10,
    ensures
        c == digit_char(d as nat),
{
    match d {
        0 => '0',
        1 => '1',
        2 => '2',
        3 => '3',
        4 => '4',
        5 => '5',
        6 => '6',
        7 => '7',
        8 => '8',
        _ => '9',
    }
}

/// Appends the decimal digits of `n` to `s`.
pub fn push_decimal(s: &mut String, n: u64)
    ensures
        final(s)@ == old(s)@ + decimal(n as nat),
    decreases n,
{
    if n >= 10 {
        push_decimal(s, n / 10);
    }
    push_char(s, digit(n % 10));
    proof {
        if n >= 10 {
            assert(decimal(n as nat) == decimal((n / 10) as nat).push(digit_char((n % 10) as nat)));
        }
    }
}

/// Appends the decimal text of a signed `n` to `s`.
pub fn push_signed_decimal(s: &mut String, n: i64)
    ensures
        final(s)@ == old(s)@ + signed_decimal(n as int),
{
    if n < 0 {
        push_char(s, '-');
        let magnitude: u64 = ((-(n + 1)) as u64) + 1;
        push_decimal(s, magnitude);
        assert(old(s)@.push('-') + decimal(magnitude as nat) =~= old(s)@ + (seq!['-'] + decimal(
            magnitude as nat,
        )));
    } else {
        push_decimal(s, n as u64);
    }
}

/// Decimal text of `n`.
pub fn decimal_string(n: u64) -> (s: String)
    ensures
        s@ == decimal(n as nat),
        is_numeral_of(s@, n as int),
{
    proof {
        lemma_decimal_is_numeral(n as nat);
    }
    let mut s = String::new();
    push_decimal(&mut s, n);
    assert(Seq::<char>::empty() + decimal(n as nat) =~= decimal(n as nat));
    s
}

/// Whether a character is one of the decimal digits `0` to `9`.
pub open spec fn is_digit(c: char) -> bool {
    '0' <= c && c <= '9'
}

/// The number a string of decimal digits denotes, most significant first.
pub open spec fn numeral_value(s: Seq<char>) -> int
    decreases s.len(),
{
    if s.len() == 0 {
        0
    } else {
        numeral_value(s.drop_last()) * 10 + ((s.last() as u32) - ('0' as u32))
    }
}

proof fn lemma_digit_char(d: nat)
    requires
        d < 10,
    ensures
        is_digit(digit_char(d)),
        (digit_char(d) as u32) - ('0' as u32) == d,
        d != 0 ==> digit_char(d) != '0',
{
}

/// The decimal text of `n` is a numeral of `n`: only digits, read back as
/// `n`, and with no leading zero unless `n` is zero.
pub proof fn lemma_decimal_is_numeral(n: nat)
    ensures
        decimal(n).len() >= 1,
        forall|i: int| 0 <= i < decimal(n).len() ==> is_digit(#[trigger] decimal(n)[i]),
        numeral_value(decimal(n)) == n,
        decimal(n)[0] == '0' ==> n == 0,
        n == 0 ==> decimal(n).len() == 1,
    decreases n,
{
    if n < 10 {
        lemma_digit_char(n);
        assert(decimal(n).drop_last() =~= Seq::<char>::empty());
        assert(numeral_value(decimal(n)) == numeral_value(Seq::<char>::empty()) * 10 + n);
    } else {
        lemma_decimal_is_numeral(n / 10);
        lemma_digit_char(n % 10);
        let d = decimal(n);
        assert(d.drop_last() =~= decimal(n / 10));
        assert(d.last() == digit_char(n % 10));
        assert(d[0] == decimal(n / 10)[0]);
        assert(numeral_value(d) == numeral_value(decimal(n / 10)) * 10 + (n % 10));
        assert(n == (n / 10) * 10 + n % 10);
    }
}

/// The decimal text of a signed number starts with `-` exactly when it is
/// negative, and the rest is the numeral of its magnitude.
pub proof fn lemma_signed_decimal_is_numeral(i: int)
    ensures
        (signed_decimal(i)[0] == '-') == (i < 0),
        i < 0 ==> signed_decimal(i).drop_first() == decimal((-i) as nat),
        i >= 0 ==> signed_decimal(i) == decimal(i as nat),
        numeral_value(decimal(if i < 0 { -i } else { i } as nat)) == if i < 0 { -i } else { i },
{
    let m: nat = if i < 0 { (-i) as nat } else { i as nat };
    lemma_decimal_is_numeral(m);
    if i < 0 {
        assert((seq!['-'] + decimal(m)).drop_first() =~= decimal(m));
    } else {
        assert(is_digit(decimal(m)[0]));
    }
}

/// `d` is a numeral of the non-negative number `n`: only digits, read as `n`,
/// without leading zeros.
pub open spec fn is_numeral_of(d: Seq<char>, n: int) -> bool {
    &&& d.len() >= 1
    &&& (d[0] == '0' ==> d.len() == 1)
    &&& forall|i: int| 0 <= i < d.len() ==> is_digit(#[trigger] d[i])
    &&& numeral_value(d) == n
}

/// `d` is a numeral of the integer `i`: a minus sign before the numeral of
/// its magnitude when it is negative, just the numeral otherwise.
pub open spec fn is_signed_numeral_of(d: Seq<char>, i: int) -> bool {
    if i < 0 {
        d.len() >= 1 && d[0] == '-' && is_numeral_of(d.drop_first(), -i)
    } else {
        is_numeral_of(d, i)
    }
}

/// The texts of `decimal` and `signed_decimal` are numerals of their number.
pub proof fn lemma_decimal_texts_are_numerals(n: nat, i: int)
    ensures
        is_numeral_of(decimal(n), n as int),
        is_signed_numeral_of(signed_decimal(i), i),
{
    lemma_decimal_is_numeral(n);
    lemma_signed_decimal_is_numeral(i);
    if i < 0 {
        lemma_decimal_is_numeral((-i) as nat);
    } else {
        lemma_decimal_is_numeral(i as nat);
    }
}

} // verus!
