//! Text building blocks: characters appended to strings, equality of string
//! slices, and the decimal digits of numbers.

use vstd::prelude::*;
use vstd::string::*;

verus! {

/// `String::push` appends one character and leaves what was there before.
pub assume_specification[ String::push ](s: &mut String, c: char)
    ensures
        final(s)@ == old(s)@.push(c),
;

/// Whether two string slices hold the same characters.
pub fn same_text(a: &str, b: &str) -> (r: bool)
    ensures
        r == (a@ == b@),
{
    a.to_owned() == b.to_owned()
}

/// The views of a sequence of strings.
pub open spec fn texts(strings: Seq<String>) -> Seq<Seq<char>> {
    strings.map_values(|s: String| s@)
}

/// The character that stands for a decimal digit.
pub open spec fn digit(d: nat) -> char {
    (48 + d) as char
}

/// A natural number in decimal, without leading zeros.
pub open spec fn decimal(n: nat) -> Seq<char>
    decreases n,
{
    if n < 10 {
        seq![digit(n)]
    } else {
        decimal(n / 10).push(digit(n % 10))
    }
}

/// The last `width` decimal digits of a number, with leading zeros.
pub open spec fn padded_decimal(n: nat, width: nat) -> Seq<char>
    decreases width,
{
    if width == 0 {
        Seq::empty()
    } else {
        padded_decimal(n / 10, (width - 1) as nat).push(digit(n % 10))
    }
}

/// An integer in decimal, with a minus sign where it is negative.
pub open spec fn signed_decimal(n: int) -> Seq<char> {
    if n < 0 {
        seq!['-'] + decimal((-n) as nat)
    } else {
        decimal(n as nat)
    }
}

/// The number that a sequence of decimal digits denotes.
pub open spec fn decimal_value(s: Seq<char>) -> nat
    decreases s.len(),
{
    if s.len() == 0 {
        0
    } else {
        10 * decimal_value(s.drop_last()) + (s.last() as nat - 48) as nat
    }
}

pub open spec fn pow10(width: nat) -> nat
    decreases width,
{
    if width == 0 {
        1
    } else {
        10 * pow10((width - 1) as nat)
    }
}

/// Reading a decimal text gives back the number it was made from.
pub proof fn decimal_reads_back(n: nat)
    ensures
        decimal_value(decimal(n)) == n,
        decimal(n).len() > 0,
        forall|i: int| 0 <= i < decimal(n).len() ==> '0' <= #[trigger] decimal(n)[i] <= '9',
    decreases n,
{
    if n < 10 {
        assert(decimal(n).drop_last() =~= Seq::<char>::empty());
        assert(decimal_value(Seq::<char>::empty()) == 0);
    } else {
        decimal_reads_back(n / 10);
        assert(decimal(n).drop_last() =~= decimal(n / 10));
    }
}

/// Reading a padded decimal text gives back the number it was made from, as
/// long as the number has no more digits than the text.
pub proof fn padded_decimal_reads_back(n: nat, width: nat)
    requires
        n < pow10(width),
    ensures
        decimal_value(padded_decimal(n, width)) == n,
        padded_decimal(n, width).len() == width,
    decreases width,
{
    if width > 0 {
        padded_decimal_reads_back(n / 10, (width - 1) as nat);
        assert(padded_decimal(n, width).drop_last() =~= padded_decimal(
            n / 10,
            (width - 1) as nat,
        ));
    }
}

fn digit_char(d: u64) -> (c: char)
    requires
        d < 10,
    ensures
        c == digit(d as nat),
{
    (48 + d as u8) as char
}

/// Appends a number in decimal.
pub fn push_decimal(out: &mut String, n: u64)
    ensures
        final(out)@ == old(out)@ + decimal(n as nat),
    decreases n,
{
    let ghost before = out@;
    if n >= 10 {
        push_decimal(out, n / 10);
    }
    out.push(digit_char(n % 10));
    assert(out@ =~= before + decimal(n as nat));
}

/// Appends the last `width` decimal digits of a number.
pub fn push_padded_decimal(out: &mut String, n: u64, width: u64)
    ensures
        final(out)@ == old(out)@ + padded_decimal(n as nat, width as nat),
    decreases width,
{
    let ghost before = out@;
    if width > 0 {
        push_padded_decimal(out, n / 10, width - 1);
        out.push(digit_char(n % 10));
    }
    assert(out@ =~= before + padded_decimal(n as nat, width as nat));
}

/// The distance of an integer from zero.
fn magnitude(n: i64) -> (m: u64)
    ensures
        m == if n < 0 {
            -n
        } else {
            n as int
        },
{
    if n < 0 {
        (-(n as i128)) as u64
    } else {
        n as u64
    }
}

/// An integer as decimal text.
pub fn integer_text(n: i64) -> (s: String)
    ensures
        s@ == signed_decimal(n as int),
{
    let mut s = String::new();
    if n < 0 {
        s.push('-');
    }
    push_decimal(&mut s, magnitude(n));
    assert(s@ =~= signed_decimal(n as int));
    s
}

/// The texts of some strings are theirs, one for each, in order.
pub proof fn texts_are_of_each(strings: Seq<String>, i: int)
    ensures
        texts(strings).len() == strings.len(),
        0 <= i < strings.len() ==> texts(strings)[i] == strings[i]@,
{
}

/// One more digit makes ten times the number, and the digit.
pub proof fn digit_appended_counts_ten_times(s: Seq<char>, c: char)
    requires
        '0' <= c <= '9',
    ensures
        decimal_value(s.push(c)) == 10 * decimal_value(s) + (c as int - '0' as int),
        decimal_value(Seq::empty()) == 0,
{
    assert(s.push(c).drop_last() =~= s);
}

/// A number has no leading zero, unless it is zero.
pub proof fn decimal_has_no_leading_zero(n: nat)
    ensures
        decimal(n).len() == 1 || decimal(n)[0] != '0',
    decreases n,
{
    if n >= 10 {
        decimal_has_no_leading_zero(n / 10);
        decimal_reads_back(n / 10);
        if decimal(n / 10).len() == 1 && decimal(n / 10)[0] == '0' {
            let t = decimal(n / 10);
            assert(t =~= Seq::<char>::empty().push('0'));
            digit_appended_counts_ten_times(Seq::empty(), '0');
        }
    }
}

/// Padded digits are digits, as many as the width says.
pub proof fn padded_decimal_has_digits(n: nat, width: nat)
    ensures
        padded_decimal(n, width).len() == width,
        forall|i: int|
            0 <= i < width ==> '0' <= #[trigger] padded_decimal(n, width)[i] <= '9',
    decreases width,
{
    if width > 0 {
        padded_decimal_has_digits(n / 10, (width - 1) as nat);
    }
}

/// The text of an integer is its digits, after a minus sign exactly if it is
/// negative.
pub proof fn integer_reads_back(n: int)
    ensures
        ({
            let text = signed_decimal(n);
            let digits = if n < 0 {
                text.drop_first()
            } else {
                text
            };
            &&& text.len() > 0
            &&& text[0] == '-' <==> n < 0
            &&& digits.len() > 0
            &&& forall|i: int| 0 <= i < digits.len() ==> '0' <= #[trigger] digits[i] <= '9'
            &&& digits.len() == 1 || digits[0] != '0'
            &&& decimal_value(digits) == if n < 0 {
                -n
            } else {
                n
            }
        }),
{
    let size = (if n < 0 {
        -n
    } else {
        n
    }) as nat;
    decimal_reads_back(size);
    decimal_has_no_leading_zero(size);
    if n < 0 {
        assert(signed_decimal(n).drop_first() =~= decimal(size));
    } else {
        assert('0' <= decimal(size)[0] <= '9');
    }
}

} // verus!
