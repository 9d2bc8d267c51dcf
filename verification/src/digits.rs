//! Decimal numerals: what the numeral of a number is, with and without
//! leading zeros, and how it is appended to a string.

use vstd::prelude::*;

verus! {

/// The character that writes the decimal digit `d`, for `0 <= d <= 9`.
pub open spec fn digit_char(d: int) -> char {
    ('0' as u8 + d) as u8 as char
}

/// The decimal numeral of `n`, most significant digit first, without
/// leading zeros (zero itself is written `0`).
pub open spec fn decimal(n: nat) -> Seq<char>
    decreases n,
{
    if n < 10 {
        seq![digit_char(n as int)]
    } else {
        decimal(n / 10).push(digit_char((n % 10) as int))
    }
}

/// `count` copies of the character `0`.
pub open spec fn zeros(count: nat) -> Seq<char> {
    Seq::new(count, |i: int| '0')
}

/// The decimal numeral of `n`, with zeros put in front of it until it is at
/// least `width` characters long. A numeral that is already longer is not cut.
pub open spec fn zero_padded(n: nat, width: nat) -> Seq<char> {
    let numeral = decimal(n);
    if numeral.len() >= width {
        numeral
    } else {
        zeros((width - numeral.len()) as nat) + numeral
    }
}

/// One place less than `width`, as long as there is a place to give up.
pub open spec fn one_less(width: nat) -> nat {
    if width > 0 {
        (width - 1) as nat
    } else {
        0
    }
}

/// Padding a number of two or more digits is padding its leading digits to
/// one place less and then writing its last digit.
pub proof fn lemma_zero_padded_step(n: nat, width: nat)
    requires
        n >= 10,
    ensures
        zero_padded(n, width) == zero_padded(n / 10, one_less(width)).push(
            digit_char((n % 10) as int),
        ),
{
    let shorter = decimal(n / 10);
    let last = digit_char((n % 10) as int);
    assert(decimal(n) == shorter.push(last));
    if shorter.len() + 1 < width {
        let fill = zeros((width - decimal(n).len()) as nat);
        assert(fill + shorter.push(last) =~= (fill + shorter).push(last));
    }
}

/// The number that a numeral writes: what its digits, read from the left,
/// add up to in base ten.
pub open spec fn numeral_value(numeral: Seq<char>) -> nat
    decreases numeral.len(),
{
    if numeral.len() == 0 {
        0
    } else {
        (numeral_value(numeral.drop_last()) * 10 + (numeral.last() as u8 - '0' as u8)) as nat
    }
}

/// Whether every character of a text is one of the digits `0` to `9`.
pub open spec fn all_digits(text: Seq<char>) -> bool {
    forall|i: int| 0 <= i < text.len() ==> '0' <= #[trigger] text[i] <= '9'
}

/// The decimal numeral of a number is made of digits, does not begin with
/// a needless zero, and writes that number.
pub proof fn lemma_decimal_reads_back(n: nat)
    ensures
        decimal(n).len() >= 1,
        all_digits(decimal(n)),
        decimal(n).first() == '0' ==> n == 0,
        numeral_value(decimal(n)) == n,
    decreases n,
{
    let last = digit_char((n % 10) as int);
    assert(last as u8 - '0' as u8 == n % 10);
    if n < 10 {
        assert(decimal(n).drop_last() =~= Seq::<char>::empty());
        assert(numeral_value(decimal(n).drop_last()) == 0);
    } else {
        lemma_decimal_reads_back(n / 10);
        assert(decimal(n).drop_last() =~= decimal(n / 10));
    }
}

/// Zeros in front of a numeral do not change the number it writes.
pub proof fn lemma_leading_zeros(count: nat, numeral: Seq<char>)
    ensures
        numeral_value(zeros(count) + numeral) == numeral_value(numeral),
    decreases numeral.len(),
{
    if numeral.len() == 0 {
        assert(zeros(count) + numeral =~= zeros(count));
        lemma_zeros_value(count);
    } else {
        lemma_leading_zeros(count, numeral.drop_last());
        assert((zeros(count) + numeral).drop_last() =~= zeros(count) + numeral.drop_last());
    }
}

/// A row of zeros writes zero.
pub proof fn lemma_zeros_value(count: nat)
    ensures
        numeral_value(zeros(count)) == 0,
    decreases count,
{
    if count > 0 {
        lemma_zeros_value((count - 1) as nat);
        assert(zeros(count).drop_last() =~= zeros((count - 1) as nat));
    }
}

/// A zero-padded numeral is made of digits, writes its number, and is as
/// long as the width asks or as the number needs, whichever is more.
pub proof fn lemma_zero_padded_reads_back(n: nat, width: nat)
    ensures
        all_digits(zero_padded(n, width)),
        numeral_value(zero_padded(n, width)) == n,
        zero_padded(n, width).len() >= width,
        zero_padded(n, width).len() >= decimal(n).len(),
        zero_padded(n, width).len() == width || zero_padded(n, width).len() == decimal(n).len(),
{
    lemma_decimal_reads_back(n);
    if decimal(n).len() < width {
        lemma_leading_zeros((width - decimal(n).len()) as nat, decimal(n));
    }
}

/// How many digits the numerals of small numbers have.
pub proof fn lemma_decimal_len(n: nat)
    ensures
        n < 10 ==> decimal(n).len() == 1,
        10 <= n < 100 ==> decimal(n).len() == 2,
        100 <= n < 1000 ==> decimal(n).len() == 3,
        n >= 100 ==> decimal(n).len() >= 3,
    decreases n,
{
    if n >= 10 {
        lemma_decimal_len(n / 10);
    }
}

/// The character of one decimal digit.
fn digit(d: u8) -> (c: char)
    requires
        d < 10,
    ensures
        c == digit_char(d as int),
{
    (48u8 + d) as char
}

/// Appends the decimal numeral of `n` to `out`.
pub fn push_decimal(out: &mut String, n: u64)
    ensures
        final(out)@ == old(out)@ + decimal(n as nat),
    decreases n,
{
    if n >= 10 {
        push_decimal(out, n / 10);
    }
    out.push(digit((n % 10) as u8));
    proof {
        let last = digit_char((n % 10) as int);
        if n >= 10 {
            assert(old(out)@ + decimal(n as nat) =~= (old(out)@ + decimal((n / 10) as nat)).push(
                last,
            ));
        } else {
            assert(old(out)@ + decimal(n as nat) =~= old(out)@.push(last));
        }
    }
}

/// Appends the decimal numeral of `n` to `out`, padded with leading zeros to
/// at least `width` characters.
pub fn push_zero_padded(out: &mut String, n: u64, width: usize)
    ensures
        final(out)@ == old(out)@ + zero_padded(n as nat, width as nat),
    decreases n,
{
    let narrower: usize = if width > 0 {
        width - 1
    } else {
        0
    };
    if n >= 10 {
        push_zero_padded(out, n / 10, narrower);
        out.push(digit((n % 10) as u8));
        proof {
            lemma_zero_padded_step(n as nat, width as nat);
            let head = zero_padded((n / 10) as nat, narrower as nat);
            let last = digit_char((n % 10) as int);
            assert(old(out)@ + head.push(last) =~= (old(out)@ + head).push(last));
        }
    } else {
        let mut written: usize = 0;
        while written < narrower
            invariant
                written <= narrower,
                out@ == old(out)@ + zeros(written as nat),
            decreases narrower - written,
        {
            out.push('0');
            written = written + 1;
            assert(out@ =~= old(out)@ + zeros(written as nat));
        }
        out.push(digit(n as u8));
        assert(out@ =~= old(out)@ + zero_padded(n as nat, width as nat));
    }
}

} // verus!
