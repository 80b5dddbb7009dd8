//! Decimal rendering of unsigned integers, with left padding.

use vstd::prelude::*;

verus! {

/// The text of a single decimal digit.
pub open spec fn digit_text(d: nat) -> Seq<char> {
    if d == 0 {
        "0"@
    } else if d == 1 {
        "1"@
    } else if d == 2 {
        "2"@
    } else if d == 3 {
        "3"@
    } else if d == 4 {
        "4"@
    } else if d == 5 {
        "5"@
    } else if d == 6 {
        "6"@
    } else if d == 7 {
        "7"@
    } else if d == 8 {
        "8"@
    } else {
        "9"@
    }
}

/// The decimal representation of `n`, without leading zeros.
pub open spec fn decimal(n: nat) -> Seq<char>
    decreases n,
{
    if n < 10 {
        digit_text(n)
    } else {
        decimal(n / 10) + digit_text(n % 10)
    }
}

/// `n` copies of the one-character text `fill`.
pub open spec fn repeat(fill: Seq<char>, n: nat) -> Seq<char>
    decreases n,
{
    if n == 0 {
        Seq::empty()
    } else {
        repeat(fill, (n - 1) as nat) + fill
    }
}

/// `s` preceded by as many copies of `fill` as it takes to reach `width` characters.
pub open spec fn pad_left(s: Seq<char>, width: nat, fill: Seq<char>) -> Seq<char> {
    if s.len() >= width {
        s
    } else {
        repeat(fill, (width - s.len()) as nat) + s
    }
}

/// Number of characters of `decimal(n)`.
pub open spec fn decimal_len(n: nat) -> nat
    decreases n,
{
    if n < 10 {
        1
    } else {
        decimal_len(n / 10) + 1
    }
}

proof fn lemma_digit_text_len(d: nat)
    ensures
        digit_text(d).len() == 1,
{
    reveal_strlit("0");
    reveal_strlit("1");
    reveal_strlit("2");
    reveal_strlit("3");
    reveal_strlit("4");
    reveal_strlit("5");
    reveal_strlit("6");
    reveal_strlit("7");
    reveal_strlit("8");
    reveal_strlit("9");
}

proof fn lemma_decimal_len(n: nat)
    ensures
        decimal(n).len() == decimal_len(n),
    decreases n,
{
    lemma_digit_text_len(n % 10);
    if n >= 10 {
        lemma_decimal_len(n / 10);
    }
}

fn digit_str(d: u128) -> (r: &'static str)
    requires
        d < 10,
    ensures
        r@ == digit_text(d as nat),
{
    match d {
        0 => "0",
        1 => "1",
        2 => "2",
        3 => "3",
        4 => "4",
        5 => "5",
        6 => "6",
        7 => "7",
        8 => "8",
        _ => "9",
    }
}

/// Appends the decimal representation of `n` to `out`.
pub fn push_decimal(out: &mut String, n: u128)
    ensures
        final(out)@ == old(out)@ + decimal(n as nat),
    decreases n,
{
    if n >= 10 {
        push_decimal(out, n / 10);
    }
    out.append(digit_str(n % 10));
}

fn count_digits(n: u128) -> (r: u128)
    ensures
        r == decimal(n as nat).len(),
    decreases n,
{
    proof {
        lemma_decimal_len(n as nat);
    }
    if n < 10 {
        1
    } else {
        let k = count_digits(n / 10);
        proof {
            lemma_decimal_len((n / 10) as nat);
            lemma_decimal_len_le((n / 10) as nat);
        }
        k + 1
    }
}

proof fn lemma_decimal_len_le(n: nat)
    requires
        n >= 1,
    ensures
        decimal_len(n) <= n,
    decreases n,
{
    if n >= 10 {
        lemma_decimal_len_le(n / 10);
    }
}

/// Appends `n` in decimal to `out`, left-padded with `fill` to at least `width` characters.
pub fn push_padded_decimal(out: &mut String, n: u128, width: usize, fill: &str)
    requires
        fill@.len() == 1,
    ensures
        final(out)@ == old(out)@ + pad_left(decimal(n as nat), width as nat, fill@),
{
    let len = count_digits(n);
    if len < width as u128 {
        let len = len as usize;
        let mut i: usize = 0;
        while i < width - len
            invariant
                len < width,
                i <= width - len,
                out@ == old(out)@ + repeat(fill@, i as nat),
            decreases width - len - i,
        {
            out.append(fill);
            i = i + 1;
        }
    }
    let ghost before = out@;
    push_decimal(out, n);
    assert(out@ == old(out)@ + pad_left(decimal(n as nat), width as nat, fill@)) by {
        if len < width as u128 {
            assert(before + decimal(n as nat) =~= old(out)@ + (repeat(fill@, (width - len) as nat)
                + decimal(n as nat)));
        } else {
            assert(before == old(out)@);
        }
    }
}

} // verus!
