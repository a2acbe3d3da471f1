//! Canonical text rendering of integers: decimal (no leading zeros, a leading `-`
//! for negatives) and lowercase hexadecimal, appended to a `String`.

use vstd::prelude::*;
use vstd::string::StringExecFns;

verus! {

/// The decimal digit character for `d` (0..=9).
pub open spec fn digit_char(d: int) -> char {
    if d == 0 {
        '0'
    } else if d == 1 {
        '1'
    } else if d == 2 {
        '2'
    } else if d == 3 {
        '3'
    } else if d == 4 {
        '4'
    } else if d == 5 {
        '5'
    } else if d == 6 {
        '6'
    } else if d == 7 {
        '7'
    } else if d == 8 {
        '8'
    } else {
        '9'
    }
}

/// The lowercase hexadecimal digit character for `n` (0..=15).
pub open spec fn hex_char(n: int) -> char {
    if n == 0 {
        '0'
    } else if n == 1 {
        '1'
    } else if n == 2 {
        '2'
    } else if n == 3 {
        '3'
    } else if n == 4 {
        '4'
    } else if n == 5 {
        '5'
    } else if n == 6 {
        '6'
    } else if n == 7 {
        '7'
    } else if n == 8 {
        '8'
    } else if n == 9 {
        '9'
    } else if n == 10 {
        'a'
    } else if n == 11 {
        'b'
    } else if n == 12 {
        'c'
    } else if n == 13 {
        'd'
    } else if n == 14 {
        'e'
    } else {
        'f'
    }
}

/// The decimal rendering of `v`: its digits, most significant first, with no
/// leading zeros ("0" for zero).
pub open spec fn dec_digits(v: nat) -> Seq<char>
    decreases v,
{
    if v < 10 {
        seq![digit_char(v as int)]
    } else {
        dec_digits(v / 10) + seq![digit_char((v % 10) as int)]
    }
}

/// The decimal rendering of a signed value.
pub open spec fn dec_signed(v: int) -> Seq<char> {
    if v < 0 {
        seq!['-'] + dec_digits((-v) as nat)
    } else {
        dec_digits(v as nat)
    }
}

/// The `n` low hexadecimal digits of `v`, most significant first, zero-padded.
pub open spec fn hex_digits(v: nat, n: nat) -> Seq<char>
    decreases n,
{
    if n == 0 {
        Seq::empty()
    } else {
        hex_digits(v / 16, (n - 1) as nat) + seq![hex_char((v % 16) as int)]
    }
}

/// The two lowercase hexadecimal digits of each byte, in order.
pub open spec fn hex_bytes(b: Seq<u8>) -> Seq<char>
    decreases b.len(),
{
    if b.len() == 0 {
        Seq::empty()
    } else {
        hex_bytes(b.drop_last()) + hex_digits(b.last() as nat, 2)
    }
}

fn push_digit(s: &mut String, d: u8)
    requires
        d < 10,
    ensures
        final(s)@ == old(s)@ + seq![digit_char(d as int)],
{
    match d {
        0 => {
            proof {
                reveal_strlit("0");
            }
            s.append("0");
        },
        1 => {
            proof {
                reveal_strlit("1");
            }
            s.append("1");
        },
        2 => {
            proof {
                reveal_strlit("2");
            }
            s.append("2");
        },
        3 => {
            proof {
                reveal_strlit("3");
            }
            s.append("3");
        },
        4 => {
            proof {
                reveal_strlit("4");
            }
            s.append("4");
        },
        5 => {
            proof {
                reveal_strlit("5");
            }
            s.append("5");
        },
        6 => {
            proof {
                reveal_strlit("6");
            }
            s.append("6");
        },
        7 => {
            proof {
                reveal_strlit("7");
            }
            s.append("7");
        },
        8 => {
            proof {
                reveal_strlit("8");
            }
            s.append("8");
        },
        9 => {
            proof {
                reveal_strlit("9");
            }
            s.append("9");
        },
        _ => {
            proof {
                reveal_strlit("9");
            }
            s.append("9");
        },
    }
}

fn push_hex_digit(s: &mut String, n: u8)
    requires
        n < 16,
    ensures
        final(s)@ == old(s)@ + seq![hex_char(n as int)],
{
    match n {
        0 => {
            proof {
                reveal_strlit("0");
            }
            s.append("0");
        },
        1 => {
            proof {
                reveal_strlit("1");
            }
            s.append("1");
        },
        2 => {
            proof {
                reveal_strlit("2");
            }
            s.append("2");
        },
        3 => {
            proof {
                reveal_strlit("3");
            }
            s.append("3");
        },
        4 => {
            proof {
                reveal_strlit("4");
            }
            s.append("4");
        },
        5 => {
            proof {
                reveal_strlit("5");
            }
            s.append("5");
        },
        6 => {
            proof {
                reveal_strlit("6");
            }
            s.append("6");
        },
        7 => {
            proof {
                reveal_strlit("7");
            }
            s.append("7");
        },
        8 => {
            proof {
                reveal_strlit("8");
            }
            s.append("8");
        },
        9 => {
            proof {
                reveal_strlit("9");
            }
            s.append("9");
        },
        10 => {
            proof {
                reveal_strlit("a");
            }
            s.append("a");
        },
        11 => {
            proof {
                reveal_strlit("b");
            }
            s.append("b");
        },
        12 => {
            proof {
                reveal_strlit("c");
            }
            s.append("c");
        },
        13 => {
            proof {
                reveal_strlit("d");
            }
            s.append("d");
        },
        14 => {
            proof {
                reveal_strlit("e");
            }
            s.append("e");
        },
        15 => {
            proof {
                reveal_strlit("f");
            }
            s.append("f");
        },
        _ => {
            proof {
                reveal_strlit("f");
            }
            s.append("f");
        },
    }
}

/// Append the decimal rendering of `v`.
pub fn push_u128_decimal(s: &mut String, v: u128)
    ensures
        final(s)@ == old(s)@ + dec_digits(v as nat),
    decreases v,
{
    if v >= 10 {
        push_u128_decimal(s, v / 10);
    }
    push_digit(s, (v % 10) as u8);
    proof {
        if v >= 10 {
            assert(final(s)@ =~= old(s)@ + dec_digits(v as nat));
        }
    }
}

/// Append the decimal rendering of `v`.
pub fn push_u64_decimal(s: &mut String, v: u64)
    ensures
        final(s)@ == old(s)@ + dec_digits(v as nat),
{
    push_u128_decimal(s, v as u128);
}

/// Append the decimal rendering of a signed `v`.
pub fn push_i128_decimal(s: &mut String, v: i128)
    ensures
        final(s)@ == old(s)@ + dec_signed(v as int),
{
    if v < 0 {
        proof {
            reveal_strlit("-");
        }
        s.append("-");
        let m: u128 = if v == i128::MIN { 0x8000_0000_0000_0000_0000_0000_0000_0000u128 } else { (-v) as u128 };
        push_u128_decimal(s, m);
        proof {
            assert(final(s)@ =~= old(s)@ + dec_signed(v as int));
        }
    } else {
        push_u128_decimal(s, v as u128);
    }
}

/// Append the `n` low hexadecimal digits of `v`, zero-padded.
pub fn push_hex_padded(s: &mut String, v: u64, n: u32)
    ensures
        final(s)@ == old(s)@ + hex_digits(v as nat, n as nat),
    decreases n,
{
    if n == 0 {
        return;
    }
    push_hex_padded(s, v / 16, n - 1);
    push_hex_digit(s, (v % 16) as u8);
    proof {
        assert(final(s)@ =~= old(s)@ + hex_digits(v as nat, n as nat));
    }
}

/// Lowercase hexadecimal of a 32-byte id (64 characters).
pub fn hex32(b: &[u8; 32]) -> (r: String)
    ensures
        r@ == hex_bytes(b@),
{
    let mut s = String::new();
    let mut i: usize = 0;
    while i < 32
        invariant
            i <= 32,
            s@ == hex_bytes(b@.subrange(0, i as int)),
        decreases 32 - i,
    {
        push_hex_padded(&mut s, b[i] as u64, 2);
        proof {
            assert(b@.subrange(0, i + 1).drop_last() =~= b@.subrange(0, i as int));
        }
        i += 1;
    }
    proof {
        assert(b@.subrange(0, 32) =~= b@);
    }
    s
}

} // verus!
