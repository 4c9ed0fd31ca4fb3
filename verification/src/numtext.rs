//! Deterministic text for numbers: decimal naturals, fixed-width
//! hexadecimal, and exact hexadecimal literals for float bit patterns.

use vstd::prelude::*;

verus! {

/// The character for the decimal digit `d`.
pub open spec fn digit_char(d: int) -> char {
    if d == 0 {
        '0'
    } else if d == 1 {
        '1'
    } else if d == 2 {
        '2'
    } else if d == 3 {
        '3'
    } else if d == 4 {
        '4'
    } else if d == 5 {
        '5'
    } else if d == 6 {
        '6'
    } else if d == 7 {
        '7'
    } else if d == 8 {
        '8'
    } else {
        '9'
    }
}

/// The decimal digits of `n`, most significant first.
pub open spec fn dec_digits(n: int) -> Seq<char>
    decreases n,
{
    if n < 10 {
        seq![digit_char(n)]
    } else {
        dec_digits(n / 10) + seq![digit_char(n % 10)]
    }
}

/// The character for the hexadecimal digit `d`.
pub open spec fn hex_digit_char(d: int) -> char {
    if d < 10 {
        digit_char(d)
    } else if d == 10 {
        'a'
    } else if d == 11 {
        'b'
    } else if d == 12 {
        'c'
    } else if d == 13 {
        'd'
    } else if d == 14 {
        'e'
    } else {
        'f'
    }
}

/// The lowest `k` hexadecimal digits of `n`, most significant first.
pub open spec fn hex_digits_fixed(n: int, k: int) -> Seq<char>
    decreases k,
{
    if k <= 0 {
        Seq::empty()
    } else {
        hex_digits_fixed(n / 16, k - 1) + seq![hex_digit_char(n % 16)]
    }
}

fn digit_string(d: u32) -> (r: &'static str)
    requires
        d < 10,
    ensures
        r@ =~= seq![digit_char(d as int)],
{
    let r = match d {
        0 => "0",
        1 => "1",
        2 => "2",
        3 => "3",
        4 => "4",
        5 => "5",
        6 => "6",
        7 => "7",
        8 => "8",
        _ => "9",
    };
    proof {
        reveal_strlit("0");
        reveal_strlit("1");
        reveal_strlit("2");
        reveal_strlit("3");
        reveal_strlit("4");
        reveal_strlit("5");
        reveal_strlit("6");
        reveal_strlit("7");
        reveal_strlit("8");
        reveal_strlit("9");
    }
    r
}

fn hex_digit_string(d: u32) -> (r: &'static str)
    requires
        d < 16,
    ensures
        r@ =~= seq![hex_digit_char(d as int)],
{
    if d < 10 {
        digit_string(d)
    } else {
        let r = match d {
            10 => "a",
            11 => "b",
            12 => "c",
            13 => "d",
            14 => "e",
            _ => "f",
        };
        proof {
            reveal_strlit("a");
            reveal_strlit("b");
            reveal_strlit("c");
            reveal_strlit("d");
            reveal_strlit("e");
            reveal_strlit("f");
        }
        r
    }
}

/// Appends the decimal digits of `n` to `out`.
pub fn push_dec(out: &mut String, n: u64)
    ensures
        final(out)@ == old(out)@ + dec_digits(n as int),
    decreases n,
{
    if n < 10 {
        out.append(digit_string(n as u32));
    } else {
        push_dec(out, n / 10);
        out.append(digit_string((n % 10) as u32));
        proof {
            assert(old(out)@ + dec_digits(n as int / 10) + seq![digit_char(n as int % 10)]
                =~= old(out)@ + (dec_digits(n as int / 10) + seq![digit_char(n as int % 10)]));
        }
    }
}

/// Appends the lowest `k` hexadecimal digits of `n` to `out`.
pub fn push_hex_fixed(out: &mut String, n: u32, k: u32)
    ensures
        final(out)@ == old(out)@ + hex_digits_fixed(n as int, k as int),
    decreases k,
{
    if k == 0 {
        proof {
            assert(old(out)@ + Seq::<char>::empty() =~= old(out)@);
        }
    } else {
        push_hex_fixed(out, n / 16, k - 1);
        out.append(hex_digit_string(n % 16));
        proof {
            assert(old(out)@ + hex_digits_fixed(n as int / 16, k as int - 1) + seq![
                hex_digit_char(n as int % 16),
            ] =~= old(out)@ + (hex_digits_fixed(n as int / 16, k as int - 1) + seq![
                hex_digit_char(n as int % 16),
            ]));
        }
    }
}

/// The exact text of the float whose bit pattern is `bits`, written as a
/// hexadecimal literal: sign, then `0x1.<fraction>p<exponent>` for normal
/// numbers, `0x<mantissa>p-149` for subnormals, `0x0p+0` for zeroes, and
/// `inf` or `nan:0x<payload>` for the non-finite patterns.
pub open spec fn float_lit(bits: u32) -> Seq<char> {
    let s = bits as int / 0x8000_0000;
    let e = (bits as int / 0x80_0000) % 0x100;
    let m = bits as int % 0x80_0000;
    let sign: Seq<char> = if s == 1 {
        "-"@
    } else {
        Seq::empty()
    };
    if e == 255 && m != 0 {
        sign + "nan:0x"@ + hex_digits_fixed(m, 6)
    } else if e == 255 {
        sign + "inf"@
    } else if e == 0 && m == 0 {
        sign + "0x0p+0"@
    } else if e == 0 {
        sign + "0x"@ + hex_digits_fixed(m, 6) + "p-149"@
    } else {
        sign + "0x1."@ + hex_digits_fixed(2 * m, 6) + "p"@ + (if e - 127 < 0 {
            "-"@ + dec_digits(127 - e)
        } else {
            "+"@ + dec_digits(e - 127)
        })
    }
}

/// Appends the hexadecimal float literal for `bits` to `out`.
pub fn push_float_lit(out: &mut String, bits: u32)
    ensures
        final(out)@ == old(out)@ + float_lit(bits),
{
    let s: u32 = bits / 0x8000_0000;
    let e: u32 = (bits / 0x80_0000) % 0x100;
    let m: u32 = bits % 0x80_0000;
    let ghost start = out@;
    if s == 1 {
        out.append("-");
    }
    let ghost signed = out@;
    proof {
        assert(signed =~= start + (if s as int == 1 {
            "-"@
        } else {
            Seq::<char>::empty()
        }));
    }
    if e == 255 && m != 0 {
        out.append("nan:0x");
        push_hex_fixed(out, m, 6);
        proof {
            assert(out@ =~= start + float_lit(bits));
        }
    } else if e == 255 {
        out.append("inf");
        proof {
            assert(out@ =~= start + float_lit(bits));
        }
    } else if e == 0 && m == 0 {
        out.append("0x0p+0");
        proof {
            assert(out@ =~= start + float_lit(bits));
        }
    } else if e == 0 {
        out.append("0x");
        push_hex_fixed(out, m, 6);
        out.append("p-149");
        proof {
            assert(out@ =~= start + float_lit(bits));
        }
    } else {
        out.append("0x1.");
        push_hex_fixed(out, 2 * m, 6);
        out.append("p");
        if e < 127 {
            out.append("-");
            push_dec(out, (127 - e) as u64);
        } else {
            out.append("+");
            push_dec(out, (e - 127) as u64);
        }
        proof {
            assert(out@ =~= start + float_lit(bits));
        }
    }
}

} // verus!
