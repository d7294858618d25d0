//! Text renderings of nibbles and numbers.
use vstd::prelude::*;
use vstd::string::StringExecFns;

verus! {

/// The character of a digit, lower-case hexadecimal above nine.
pub open spec fn digit_char(d: nat) -> char {
    if d < 10 {
        (48 + d) as char
    } else {
        (87 + d) as char
    }
}

/// `n` in decimal.
pub open spec fn decimal(n: nat) -> Seq<char>
    decreases n,
{
    if n < 10 {
        seq![digit_char(n)]
    } else {
        decimal(n / 10).push(digit_char(n % 10))
    }
}

/// The nibbles `ns` as hexadecimal digits separated by spaces.
pub open spec fn hex_spaced(ns: Seq<u8>) -> Seq<char>
    decreases ns.len(),
{
    if ns.len() == 0 {
        seq![]
    } else if ns.len() == 1 {
        seq![digit_char(ns[0] as nat)]
    } else {
        hex_spaced(ns.drop_last()) + seq![' ', digit_char(ns.last() as nat)]
    }
}

/// The nibbles `ns` as hexadecimal digits, a space after every eighth.
pub open spec fn hex_grouped(ns: Seq<u8>) -> Seq<char>
    decreases ns.len(),
{
    if ns.len() == 0 {
        seq![]
    } else {
        hex_grouped(ns.drop_last()) + seq![digit_char(ns.last() as nat)] + if (ns.len() - 1) % 8 == 7 {
            seq![' ']
        } else {
            seq![]
        }
    }
}

/// The numbers `ps` in decimal, separated by slashes.
pub open spec fn decimal_path(ps: Seq<u32>) -> Seq<char>
    decreases ps.len(),
{
    if ps.len() == 0 {
        seq![]
    } else if ps.len() == 1 {
        decimal(ps[0] as nat)
    } else {
        decimal_path(ps.drop_last()) + seq!['/'] + decimal(ps.last() as nat)
    }
}

/// The text of one digit.
pub fn digit_text(d: u8) -> (r: &'static str)
    requires
        d < 16,
    ensures
        r@ == seq![digit_char(d as nat)],
{
    match d {
        0 => {
            proof {
                reveal_strlit("0");
            }
            "0"
        },
        1 => {
            proof {
                reveal_strlit("1");
            }
            "1"
        },
        2 => {
            proof {
                reveal_strlit("2");
            }
            "2"
        },
        3 => {
            proof {
                reveal_strlit("3");
            }
            "3"
        },
        4 => {
            proof {
                reveal_strlit("4");
            }
            "4"
        },
        5 => {
            proof {
                reveal_strlit("5");
            }
            "5"
        },
        6 => {
            proof {
                reveal_strlit("6");
            }
            "6"
        },
        7 => {
            proof {
                reveal_strlit("7");
            }
            "7"
        },
        8 => {
            proof {
                reveal_strlit("8");
            }
            "8"
        },
        9 => {
            proof {
                reveal_strlit("9");
            }
            "9"
        },
        10 => {
            proof {
                reveal_strlit("a");
            }
            "a"
        },
        11 => {
            proof {
                reveal_strlit("b");
            }
            "b"
        },
        12 => {
            proof {
                reveal_strlit("c");
            }
            "c"
        },
        13 => {
            proof {
                reveal_strlit("d");
            }
            "d"
        },
        14 => {
            proof {
                reveal_strlit("e");
            }
            "e"
        },
        15 => {
            proof {
                reveal_strlit("f");
            }
            "f"
        },
        _ => {
            proof {
                reveal_strlit("f");
            }
            "f"
        },
    }
}

/// Appends `v` in decimal.
pub fn push_decimal(s: &mut String, v: u64)
    ensures
        final(s)@ == old(s)@ + decimal(v as nat),
    decreases v,
{
    if v >= 10 {
        push_decimal(s, v / 10);
    }
    s.append(digit_text((v % 10) as u8));
    proof {
        if v >= 10 {
            assert(s@ =~= old(s)@ + decimal(v as nat));
        } else {
            assert(s@ =~= old(s)@ + decimal(v as nat));
        }
    }
}

} // verus!
