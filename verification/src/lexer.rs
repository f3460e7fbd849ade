//! The lexer: one left-to-right scan from characters to positioned tokens.

use vstd::prelude::*;
use crate::digits::{digit_val, is_digit, wrap_step};
use crate::failure::ParseFailure;

verus! {

/// A token. Each carries the character that produced it (or the accumulated
/// integer value) and the 0-based index of its first character.
#[derive(Debug, Clone)]
pub enum Lexeme {
    /// The literal `d`.
    Dice(char, usize),
    /// The literal `r`.
    Remove(char, usize),
    /// The literal `l` or `h`.
    Direction(char, usize),
    /// The literal `+` or `-`.
    Op(char, usize),
    /// An unsigned integer literal, accumulated digit by digit.
    Int(u32, usize),
}

/// The character index a token carries.
pub open spec fn lexeme_index(t: Lexeme) -> usize {
    match t {
        Lexeme::Dice(_, i) => i,
        Lexeme::Remove(_, i) => i,
        Lexeme::Direction(_, i) => i,
        Lexeme::Op(_, i) => i,
        Lexeme::Int(_, i) => i,
    }
}

/// The Unicode `White_Space` characters, exactly as std documents them for
/// `char::is_whitespace`.
pub open spec fn is_space(c: char) -> bool {
    let u = c as u32;
    ||| u == 0x09
    ||| u == 0x0A
    ||| u == 0x0B
    ||| u == 0x0C
    ||| u == 0x0D
    ||| u == 0x20
    ||| u == 0x85
    ||| u == 0xA0
    ||| u == 0x1680
    ||| (0x2000 <= u && u <= 0x200A)
    ||| u == 0x2028
    ||| u == 0x2029
    ||| u == 0x202F
    ||| u == 0x205F
    ||| u == 0x3000
}

/// Greedy digit-run scan: starting at `i` with accumulator `acc`, consume
/// digits and return the accumulated value and the position after the run.
pub open spec fn spec_scan_int(s: Seq<char>, i: int, acc: u32) -> (u32, int)
    decreases s.len() - i,
{
    if 0 <= i < s.len() && is_digit(s[i]) {
        spec_scan_int(s, i + 1, wrap_step(acc, digit_val(s[i])))
    } else {
        (acc, i)
    }
}

/// The digit-run scan never moves backwards and never leaves the input.
pub proof fn lemma_scan_int_bounds(s: Seq<char>, i: int, acc: u32)
    requires
        0 <= i <= s.len(),
    ensures
        i <= spec_scan_int(s, i, acc).1 <= s.len(),
    decreases s.len() - i,
{
    if i < s.len() && is_digit(s[i]) {
        lemma_scan_int_bounds(s, i + 1, wrap_step(acc, digit_val(s[i])));
    }
}

/// Prepend one token to the outcome of lexing the rest of the input.
pub open spec fn lex_cons(t: Lexeme, rest: Result<Seq<Lexeme>, ParseFailure>) -> Result<
    Seq<Lexeme>,
    ParseFailure,
> {
    match rest {
        Ok(ts) => Ok(seq![t] + ts),
        Err(e) => Err(e),
    }
}

/// The tokens of `s` from position `i` on: digit runs become single `Int`
/// tokens, the recognized single characters their tokens, whitespace is
/// skipped, and the first unrecognized character aborts the scan.
pub open spec fn spec_lex_from(s: Seq<char>, i: int) -> Result<Seq<Lexeme>, ParseFailure>
    decreases s.len() - i,
{
    if i < 0 || i >= s.len() {
        Ok(Seq::empty())
    } else {
        let c = s[i];
        if is_digit(c) {
            let scan = spec_scan_int(s, i, 0);
            proof {
                lemma_scan_int_bounds(s, i + 1, wrap_step(0, digit_val(s[i])));
            }
            lex_cons(Lexeme::Int(scan.0, i as usize), spec_lex_from(s, scan.1))
        } else if c == '+' || c == '-' {
            lex_cons(Lexeme::Op(c, i as usize), spec_lex_from(s, i + 1))
        } else if c == 'd' {
            lex_cons(Lexeme::Dice(c, i as usize), spec_lex_from(s, i + 1))
        } else if c == 'r' {
            lex_cons(Lexeme::Remove(c, i as usize), spec_lex_from(s, i + 1))
        } else if c == 'l' || c == 'h' {
            lex_cons(Lexeme::Direction(c, i as usize), spec_lex_from(s, i + 1))
        } else if is_space(c) {
            spec_lex_from(s, i + 1)
        } else {
            Err(ParseFailure::LexError { character: c, index: i as usize })
        }
    }
}

/// The tokens of the whole input.
pub open spec fn spec_lex(s: Seq<char>) -> Result<Seq<Lexeme>, ParseFailure> {
    spec_lex_from(s, 0)
}

/// Append an already-lexed prefix to the outcome of lexing the rest.
pub open spec fn lex_app(ts: Seq<Lexeme>, rest: Result<Seq<Lexeme>, ParseFailure>) -> Result<
    Seq<Lexeme>,
    ParseFailure,
> {
    match rest {
        Ok(r) => Ok(ts + r),
        Err(e) => Err(e),
    }
}

/// Does `c` fall in the ASCII digit range?
fn is_digit_exec(c: char) -> (r: bool)
    ensures
        r == is_digit(c),
{
    let u = c as u32;
    48 <= u && u <= 57
}

/// Is `c` a Unicode whitespace character?
fn is_space_exec(c: char) -> (r: bool)
    ensures
        r == is_space(c),
{
    let u = c as u32;
    u == 0x09 || u == 0x0A || u == 0x0B || u == 0x0C || u == 0x0D || u == 0x20 || u == 0x85 || u
        == 0xA0 || u == 0x1680 || (0x2000 <= u && u <= 0x200A) || u == 0x2028 || u == 0x2029 || u
        == 0x202F || u == 0x205F || u == 0x3000
}

/// Scan the input into its token sequence, or fail on the first character
/// the notation does not know. Digit runs accumulate `* 10 + digit` wrapping
/// modulo 2^32, the release-mode behavior of the unchecked accumulation.
pub(crate) fn lex(input: &str) -> (r: Result<Vec<Lexeme>, ParseFailure>)
    ensures
        match r {
            Ok(toks) => spec_lex(input@) == Ok::<Seq<Lexeme>, ParseFailure>(toks@),
            Err(e) => spec_lex(input@) == Err::<Seq<Lexeme>, ParseFailure>(e),
        },
{
    let n: usize = input.unicode_len();
    let mut toks: Vec<Lexeme> = Vec::new();
    let mut i: usize = 0;
    while i < n
        invariant
            n == input@.len(),
            i <= n,
            spec_lex(input@) == lex_app(toks@, spec_lex_from(input@, i as int)),
        decreases n - i,
    {
        let ghost prev_i = i as int;
        let ghost prev_toks = toks@;
        let c = input.get_char(i);
        if is_digit_exec(c) {
            let start = i;
            let mut val: u32 = 0;
            loop
                invariant
                    n == input@.len(),
                    start <= i <= n,
                    spec_scan_int(input@, start as int, 0) == spec_scan_int(
                        input@,
                        i as int,
                        val,
                    ),
                ensures
                    start <= i <= n,
                    i == n || !is_digit(input@[i as int]),
                    spec_scan_int(input@, start as int, 0) == (val, i as int),
                decreases n - i,
            {
                if i >= n {
                    break ;
                }
                let c2 = input.get_char(i);
                if !is_digit_exec(c2) {
                    break ;
                }
                let wide: u64 = (val as u64) * 10 + ((c2 as u32) - 48) as u64;
                proof {
                    assert(wrap_step(val, digit_val(c2)) == (wide % 0x1_0000_0000) as u32);
                }
                val = (wide % 0x1_0000_0000) as u32;
                i = i + 1;
            }
            proof {
                assert(is_digit(input@[start as int]));
                lemma_scan_int_bounds(
                    input@,
                    start as int + 1,
                    wrap_step(0, digit_val(input@[start as int])),
                );
                assert(i > start);
                lemma_step_ok(
                    input@,
                    prev_i,
                    prev_toks,
                    Lexeme::Int(val, start),
                    i as int,
                );
            }
            toks.push(Lexeme::Int(val, start));
        } else if c == '+' || c == '-' {
            proof {
                lemma_step_ok(input@, prev_i, prev_toks, Lexeme::Op(c, i), prev_i + 1);
            }
            toks.push(Lexeme::Op(c, i));
            i = i + 1;
        } else if c == 'd' {
            proof {
                lemma_step_ok(input@, prev_i, prev_toks, Lexeme::Dice(c, i), prev_i + 1);
            }
            toks.push(Lexeme::Dice(c, i));
            i = i + 1;
        } else if c == 'r' {
            proof {
                lemma_step_ok(input@, prev_i, prev_toks, Lexeme::Remove(c, i), prev_i + 1);
            }
            toks.push(Lexeme::Remove(c, i));
            i = i + 1;
        } else if c == 'l' || c == 'h' {
            proof {
                lemma_step_ok(input@, prev_i, prev_toks, Lexeme::Direction(c, i), prev_i + 1);
            }
            toks.push(Lexeme::Direction(c, i));
            i = i + 1;
        } else if is_space_exec(c) {
            i = i + 1;
        } else {
            return Err(ParseFailure::LexError { character: c, index: i });
        }
    }
    proof {
        assert(toks@ + Seq::<Lexeme>::empty() =~= toks@);
    }
    Ok(toks)
}

/// One loop step of the lexer: when position `i` yields token `t` and the
/// scan continues at `j`, the prefix grows by `t`.
proof fn lemma_step_ok(s: Seq<char>, i: int, prefix: Seq<Lexeme>, t: Lexeme, j: int)
    requires
        spec_lex(s) == lex_app(prefix, spec_lex_from(s, i)),
        spec_lex_from(s, i) == lex_cons(t, spec_lex_from(s, j)),
    ensures
        spec_lex(s) == lex_app(prefix.push(t), spec_lex_from(s, j)),
{
    match spec_lex_from(s, j) {
        Ok(rest) => {
            assert(prefix + (seq![t] + rest) =~= prefix.push(t) + rest);
        },
        Err(_) => {},
    }
}

} // verus!
