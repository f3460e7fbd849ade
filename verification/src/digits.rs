//! Decimal digits: the canonical digit string of an integer, and the
//! wrapping accumulation the lexer performs over a digit run.

use vstd::prelude::*;
use vstd::string::StringExecFns;

verus! {

/// Is `c` a decimal digit?
pub open spec fn is_digit(c: char) -> bool {
    48 <= c as u32 && c as u32 <= 57
}

/// The numeric value of a digit character.
pub open spec fn digit_val(c: char) -> u32 {
    (c as u32 - 48) as u32
}

/// The digit character for a value below ten.
pub open spec fn digit_char(d: nat) -> char {
    if d == 0 {
        '0'
    } else if d == 1 {
        '1'
    } else if d == 2 {
        '2'
    } else if d == 3 {
        '3'
    } else if d == 4 {
        '4'
    } else if d == 5 {
        '5'
    } else if d == 6 {
        '6'
    } else if d == 7 {
        '7'
    } else if d == 8 {
        '8'
    } else {
        '9'
    }
}

/// The decimal digits of `n`, most significant first, with no leading zeros.
pub open spec fn dec_str(n: nat) -> Seq<char>
    decreases n,
{
    if n < 10 {
        seq![digit_char(n)]
    } else {
        proof {
            assert(n / 10 < n) by (nonlinear_arith)
                requires n >= 10;
        }
        dec_str(n / 10).push(digit_char(n % 10))
    }
}

/// One step of the lexer's digit accumulation: multiply by ten and add,
/// wrapping modulo 2^32 exactly as the unchecked `* 10 + d` of the machine
/// integer does in release builds.
pub open spec fn wrap_step(acc: u32, d: u32) -> u32 {
    ((acc * 10 + d) % 0x1_0000_0000) as u32
}

/// Every character of `dec_str(n)` is a digit, the string is never empty,
/// and its first character is the most significant digit.
pub proof fn lemma_dec_str_digits(n: nat)
    ensures
        dec_str(n).len() >= 1,
        forall|i: int| 0 <= i < dec_str(n).len() ==> is_digit(#[trigger] dec_str(n)[i]),
    decreases n,
{
    if n < 10 {
        assert(is_digit(digit_char(n)));
    } else {
        lemma_dec_str_digits(n / 10);
        assert(is_digit(digit_char(n % 10)));
    }
}

/// Left fold of `wrap_step` over a run of digit characters, starting from
/// `acc`: the value the lexer accumulates while scanning the run.
pub open spec fn fold_digits(acc: u32, ds: Seq<char>) -> u32
    decreases ds.len(),
{
    if ds.len() == 0 {
        acc
    } else {
        fold_digits(wrap_step(acc, digit_val(ds[0])), ds.drop_first())
    }
}

/// Folding one more digit onto the end performs one more `wrap_step`.
pub proof fn lemma_fold_digits_push(acc: u32, ds: Seq<char>, c: char)
    ensures
        fold_digits(acc, ds.push(c)) == wrap_step(fold_digits(acc, ds), digit_val(c)),
    decreases ds.len(),
{
    if ds.len() == 0 {
        assert(ds.push(c)[0] == c);
        assert(ds.push(c).drop_first() =~= Seq::<char>::empty());
        assert(fold_digits(wrap_step(acc, digit_val(c)), Seq::<char>::empty()) == wrap_step(
            acc,
            digit_val(c),
        ));
        assert(fold_digits(acc, ds) == acc);
    } else {
        assert(ds.push(c)[0] == ds[0]);
        assert(ds.push(c).drop_first() =~= ds.drop_first().push(c));
        lemma_fold_digits_push(wrap_step(acc, digit_val(ds[0])), ds.drop_first(), c);
    }
}

/// A digit's character round-trips through its value.
pub proof fn lemma_digit_char_val(d: nat)
    requires
        d < 10,
    ensures
        is_digit(digit_char(d)),
        digit_val(digit_char(d)) == d,
{
}

/// Accumulating over the decimal digits of `n` recovers exactly `n`: the
/// digit string of a machine integer never wraps.
pub proof fn lemma_fold_dec_str(n: u32)
    ensures
        fold_digits(0, dec_str(n as nat)) == n,
{
    lemma_fold_dec_str_acc(0, n);
}

/// Generalization of [`lemma_fold_dec_str`] over the starting accumulator.
proof fn lemma_fold_dec_str_acc(acc: u32, n: u32)
    ensures
        fold_digits(acc, dec_str(n as nat)) == ((acc * pow10(dec_str(n as nat).len() as nat)
            + n) % 0x1_0000_0000) as u32,
    decreases n,
{
    if n < 10 {
        lemma_digit_char_val(n as nat);
        assert(dec_str(n as nat) == seq![digit_char(n as nat)]);
        assert(dec_str(n as nat).drop_first() =~= Seq::<char>::empty());
        assert(pow10(0) == 1);
        assert(pow10(1) == 10);
        assert(fold_digits(wrap_step(acc, n), Seq::<char>::empty()) == wrap_step(acc, n));
        assert(fold_digits(acc, dec_str(n as nat)) == wrap_step(acc, n));
    } else {
        let q = (n / 10) as u32;
        let r = (n % 10) as u32;
        lemma_fold_dec_str_acc(acc, q);
        lemma_digit_char_val(r as nat);
        lemma_fold_digits_push(acc, dec_str(q as nat), digit_char(r as nat));
        let l = dec_str(q as nat).len() as nat;
        assert(dec_str(n as nat) == dec_str(q as nat).push(digit_char(r as nat)));
        assert(dec_str(n as nat).len() == l + 1);
        assert(fold_digits(acc, dec_str(n as nat)) == wrap_step(
            ((acc * pow10(l) + q) % 0x1_0000_0000) as u32,
            r,
        ));
        assert(((((acc * pow10(l) + q) % 0x1_0000_0000) * 10 + r) % 0x1_0000_0000) == ((acc
            * (pow10(l) * 10) + (q * 10 + r)) % 0x1_0000_0000)) by (nonlinear_arith);
        assert(q * 10 + r == n) by (nonlinear_arith)
            requires q == n / 10 && r == n % 10;
        assert(pow10(l + 1) == pow10(l) * 10);
    }
}

/// Ten to the power `k`.
pub open spec fn pow10(k: nat) -> int
    decreases k,
{
    if k == 0 {
        1
    } else {
        10 * pow10((k - 1) as nat)
    }
}

/// The digit character for a value below ten, as a borrowed string.
fn digit_str(d: u32) -> (r: &'static str)
    requires
        d < 10,
    ensures
        r@ == seq![digit_char(d as nat)],
{
    match d {
        0 => {
            proof {
                reveal_strlit("0");
                assert("0"@ =~= seq!['0']);
            }
            "0"
        },
        1 => {
            proof {
                reveal_strlit("1");
                assert("1"@ =~= seq!['1']);
            }
            "1"
        },
        2 => {
            proof {
                reveal_strlit("2");
                assert("2"@ =~= seq!['2']);
            }
            "2"
        },
        3 => {
            proof {
                reveal_strlit("3");
                assert("3"@ =~= seq!['3']);
            }
            "3"
        },
        4 => {
            proof {
                reveal_strlit("4");
                assert("4"@ =~= seq!['4']);
            }
            "4"
        },
        5 => {
            proof {
                reveal_strlit("5");
                assert("5"@ =~= seq!['5']);
            }
            "5"
        },
        6 => {
            proof {
                reveal_strlit("6");
                assert("6"@ =~= seq!['6']);
            }
            "6"
        },
        7 => {
            proof {
                reveal_strlit("7");
                assert("7"@ =~= seq!['7']);
            }
            "7"
        },
        8 => {
            proof {
                reveal_strlit("8");
                assert("8"@ =~= seq!['8']);
            }
            "8"
        },
        _ => {
            proof {
                reveal_strlit("9");
                assert("9"@ =~= seq!['9']);
            }
            "9"
        },
    }
}

/// The canonical decimal rendering of `n`: digits only, no sign, no leading
/// zeros.
pub fn u32_to_string(n: u32) -> (r: String)
    ensures
        r@ == dec_str(n as nat),
    decreases n,
{
    if n < 10 {
        let r = String::from_str(digit_str(n));
        r
    } else {
        let d: u32 = n % 10;
        let mut r = u32_to_string(n / 10);
        r.append(digit_str(d));
        proof {
            assert(dec_str((n / 10) as nat) + seq![digit_char(d as nat)] =~= dec_str(
                (n / 10) as nat,
            ).push(digit_char(d as nat)));
        }
        r
    }
}

} // verus!
