use vstd::prelude::*;

verus! {

/// The character of the decimal digit `d` (for `d < 10`).
pub open spec fn digit_char(d: nat) -> char {
    (48 + d) as char
}

/// The decimal notation of `n`: no sign, no leading zero (`0` is written
/// `"0"`).
pub open spec fn decimal(n: nat) -> Seq<char>
    decreases n,
{
    if n < 10 {
        seq![digit_char(n)]
    } else {
        decimal(n / 10).push(digit_char(n % 10))
    }
}

/// `s` right-aligned in a field of `width` characters: spaces are put in
/// front of it up to that width; a longer `s` is left as it is.
pub open spec fn pad_left(s: Seq<char>, width: nat) -> Seq<char> {
    if s.len() < width {
        Seq::new((width - s.len()) as nat, |i: int| ' ') + s
    } else {
        s
    }
}

/// The one-character string of the decimal digit `d`.
fn digit_str(d: usize) -> (s: &'static str)
    requires
        d < 10,
    ensures
        s@ == seq![digit_char(d as nat)],
{
    if d == 0 {
        proof { reveal_strlit("0"); }
        "0"
    } else if d == 1 {
        proof { reveal_strlit("1"); }
        "1"
    } else if d == 2 {
        proof { reveal_strlit("2"); }
        "2"
    } else if d == 3 {
        proof { reveal_strlit("3"); }
        "3"
    } else if d == 4 {
        proof { reveal_strlit("4"); }
        "4"
    } else if d == 5 {
        proof { reveal_strlit("5"); }
        "5"
    } else if d == 6 {
        proof { reveal_strlit("6"); }
        "6"
    } else if d == 7 {
        proof { reveal_strlit("7"); }
        "7"
    } else if d == 8 {
        proof { reveal_strlit("8"); }
        "8"
    } else {
        proof { reveal_strlit("9"); }
        "9"
    }
}

/// Appends the decimal notation of `n` to `s`.
pub fn push_decimal(s: &mut String, n: usize)
    ensures
        final(s)@ == old(s)@ + decimal(n as nat),
    decreases n,
{
    if n >= 10 {
        push_decimal(s, n / 10);
    }
    s.append(digit_str(n % 10));
    assert(decimal(n as nat) == if n < 10 {
        seq![digit_char(n as nat)]
    } else {
        decimal((n / 10) as nat).push(digit_char((n % 10) as nat))
    });
}

/// The number of characters in the decimal notation of `n`.
pub fn decimal_len(n: usize) -> (len: usize)
    ensures
        len == decimal(n as nat).len(),
        1 <= len <= n + 1,
    decreases n,
{
    if n < 10 {
        1
    } else {
        let len = decimal_len(n / 10);
        len + 1
    }
}

/// Appends `n` in decimal, right-aligned in a field of `width` characters.
pub fn push_padded_decimal(s: &mut String, n: usize, width: usize)
    ensures
        final(s)@ == old(s)@ + pad_left(decimal(n as nat), width as nat),
{
    let len = decimal_len(n);
    let ghost start = s@;
    if len < width {
        let pad = width - len;
        for k in 0..pad
            invariant
                s@ == start + Seq::new(k as nat, |i: int| ' '),
        {
            proof { reveal_strlit(" "); }
            s.append(" ");
            assert(s@ =~= start + Seq::new((k + 1) as nat, |i: int| ' '));
        }
    }
    push_decimal(s, n);
    assert(s@ =~= start + pad_left(decimal(n as nat), width as nat));
}

/// Whether `c` is a decimal digit character.
pub open spec fn is_digit(c: char) -> bool {
    '0' <= c && c <= '9'
}

/// The number that a string of decimal digits stands for.
pub open spec fn digits_value(s: Seq<char>) -> int
    decreases s.len(),
{
    if s.len() == 0 {
        0
    } else {
        digits_value(s.drop_last()) * 10 + (s.last() as int - 48)
    }
}

/// The number in a right-aligned numeric field: leading spaces, then digits.
pub open spec fn field_value(field: Seq<char>) -> int
    decreases field.len(),
{
    if field.len() > 0 && field[0] == ' ' {
        field_value(field.drop_first())
    } else {
        digits_value(field)
    }
}

/// 10 to the power `k`.
pub open spec fn pow10(k: nat) -> nat
    decreases k,
{
    if k == 0 {
        1
    } else {
        10 * pow10((k - 1) as nat)
    }
}

/// The decimal notation of `n` is made of digits only, reads back as `n`,
/// has no leading zero unless it is `"0"`, and has at most `k >= 1` digits
/// when `n < 10^k`.
pub proof fn lemma_decimal(n: nat)
    ensures
        decimal(n).len() >= 1,
        forall|i: int| 0 <= i < decimal(n).len() ==> is_digit(#[trigger] decimal(n)[i]),
        digits_value(decimal(n)) == n,
        n > 0 ==> decimal(n)[0] != '0',
        forall|k: nat| 1 <= k && n < #[trigger] pow10(k) ==> decimal(n).len() <= k,
    decreases n,
{
    if n < 10 {
        assert(digits_value(decimal(n).drop_last()) == 0);
    } else {
        let q = n / 10;
        let r = n % 10;
        lemma_decimal(q);
        let d = decimal(q);
        assert(decimal(n) == d.push(digit_char(r)));
        assert(decimal(n).drop_last() =~= d);
        assert(n == 10 * q + r) by {
            vstd::arithmetic::div_mod::lemma_fundamental_div_mod(n as int, 10);
        }
        assert(decimal(n)[0] == d[0]);
        assert forall|k: nat| 1 <= k && n < #[trigger] pow10(k) implies decimal(n).len() <= k by {
            if k == 1 {
                assert(pow10(1) == 10 * pow10(0));
            } else {
                assert(pow10(k) == 10 * pow10((k - 1) as nat));
                assert(q < pow10((k - 1) as nat)) by (nonlinear_arith)
                    requires
                        n == 10 * q + r,
                        0 <= r < 10,
                        n < 10 * pow10((k - 1) as nat),
                ;
            }
        }
    }
}

/// A right-aligned field is as wide as asked (or as `s`, when `s` is
/// longer), ends with `s`, and has only spaces in front of it.
pub proof fn lemma_pad_left(s: Seq<char>, width: nat)
    ensures
        pad_left(s, width).len() == if s.len() < width {
            width as int
        } else {
            s.len() as int
        },
        pad_left(s, width).subrange(pad_left(s, width).len() - s.len(), pad_left(s, width).len()
            as int) == s,
        forall|i: int|
            0 <= i < pad_left(s, width).len() - s.len() ==> #[trigger] pad_left(s, width)[i]
                == ' ',
{
    let p = pad_left(s, width);
    assert(p.subrange(p.len() - s.len(), p.len() as int) =~= s);
}

/// Spaces in front of a field do not change the number it holds.
proof fn lemma_field_value_spaces(pad: nat, digits: Seq<char>)
    requires
        digits.len() > 0,
        is_digit(digits[0]),
    ensures
        field_value(Seq::new(pad, |i: int| ' ') + digits) == digits_value(digits),
    decreases pad,
{
    let f = Seq::new(pad, |i: int| ' ') + digits;
    if pad > 0 {
        assert(f.drop_first() =~= Seq::new((pad - 1) as nat, |i: int| ' ') + digits);
        lemma_field_value_spaces((pad - 1) as nat, digits);
    } else {
        assert(f =~= digits);
    }
}

/// A number written right-aligned in a field of `width` characters reads
/// back as that number.
pub proof fn lemma_padded_decimal_value(n: nat, width: nat)
    ensures
        field_value(pad_left(decimal(n), width)) == n,
{
    lemma_decimal(n);
    let d = decimal(n);
    assert(is_digit(d[0]));
    if d.len() < width {
        lemma_field_value_spaces((width - d.len()) as nat, d);
    } else {
        lemma_field_value_spaces(0, d);
        assert(Seq::new(0, |i: int| ' ') + d =~= d);
    }
}

} // verus!
