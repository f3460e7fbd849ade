//! The laws tying printer, lexer and parser together: parsing the canonical
//! text of a tree gives back exactly that tree, so printing is idempotent
//! under re-parsing.

use vstd::prelude::*;
use crate::ast::NodeView;
use crate::digits::{
    dec_str, fold_digits, is_digit, lemma_dec_str_digits, lemma_fold_dec_str, wrap_step,
    digit_val,
};
use crate::failure::ParseFailure;
use crate::lexer::{
    lex_app, lex_cons, spec_lex, spec_lex_from, spec_scan_int, Lexeme,
};
use crate::parser::{
    dice_view, lemma_parse_expr_canonical, op_view, remove_view, spec_parse,
    spec_parse_dice_or_int, spec_parse_expr, spec_parse_term,
};
use crate::printer::spec_print;
use crate::ast::Terminal;

verus! {

/// The tokens of the canonical text of `v`, when that text starts at
/// character offset `base`.
pub open spec fn print_toks(v: NodeView, base: int) -> Seq<Lexeme>
    decreases v,
{
    match v.entry {
        Terminal::Higher => seq![Lexeme::Direction('h', base as usize)],
        Terminal::Lower => seq![Lexeme::Direction('l', base as usize)],
        Terminal::Integer(n) => seq![Lexeme::Int(n, base as usize)],
        Terminal::Dice => {
            if v.children.len() == 2 {
                let p0 = spec_print(v.children[0]).len() as int;
                print_toks(v.children[0], base) + seq![Lexeme::Dice('d', (base + p0) as usize)]
                    + print_toks(v.children[1], base + p0 + 1)
            } else {
                Seq::empty()
            }
        },
        Terminal::Remove => {
            if v.children.len() == 3 {
                let p0 = spec_print(v.children[0]).len() as int;
                let p1 = spec_print(v.children[1]).len() as int;
                print_toks(v.children[0], base) + seq![Lexeme::Remove('r', (base + p0) as usize)]
                    + print_toks(v.children[1], base + p0 + 1) + print_toks(
                    v.children[2],
                    base + p0 + 1 + p1,
                )
            } else {
                Seq::empty()
            }
        },
        Terminal::Add => {
            if v.children.len() == 2 {
                let p0 = spec_print(v.children[0]).len() as int;
                print_toks(v.children[0], base) + seq![Lexeme::Op('+', (base + p0 + 1) as usize)]
                    + print_toks(v.children[1], base + p0 + 3)
            } else {
                Seq::empty()
            }
        },
        Terminal::Subtract => {
            if v.children.len() == 2 {
                let p0 = spec_print(v.children[0]).len() as int;
                print_toks(v.children[0], base) + seq![Lexeme::Op('-', (base + p0 + 1) as usize)]
                    + print_toks(v.children[1], base + p0 + 3)
            } else {
                Seq::empty()
            }
        },
    }
}

/// A window of `s` equal to a concatenation splits into the two windows.
proof fn lemma_window_split<T>(s: Seq<T>, i: int, a: Seq<T>, b: Seq<T>)
    requires
        0 <= i,
        i + a.len() + b.len() <= s.len(),
        s.subrange(i, i + a.len() + b.len()) == a + b,
    ensures
        s.subrange(i, i + a.len() as int) == a,
        s.subrange(i + a.len() as int, i + a.len() + b.len()) == b,
{
    assert forall|x: int| 0 <= x < a.len() implies s[i + x] == a[x] by {
        assert(s.subrange(i, i + a.len() + b.len())[x] == s[i + x]);
        assert((a + b)[x] == a[x]);
    }
    assert forall|x: int| 0 <= x < b.len() implies s[i + a.len() + x] == b[x] by {
        assert(s.subrange(i, i + a.len() + b.len())[a.len() + x] == s[i + a.len() + x]);
        assert((a + b)[a.len() + x] == b[x]);
    }
    assert(s.subrange(i, i + a.len() as int) =~= a);
    assert(s.subrange(i + a.len() as int, i + a.len() + b.len()) =~= b);
}

/// The single element of a one-element window.
proof fn lemma_window_char<T>(s: Seq<T>, j: int, c: T)
    requires
        0 <= j,
        j + 1 <= s.len(),
        s.subrange(j, j + 1) == seq![c],
    ensures
        s[j] == c,
{
    assert(s.subrange(j, j + 1)[0] == s[j]);
}

/// Scanning a window of digit characters accumulates exactly their fold and
/// stops right after the window.
proof fn lemma_scan_digit_window(s: Seq<char>, i: int, ds: Seq<char>, acc: u32)
    requires
        0 <= i,
        i + ds.len() <= s.len(),
        s.subrange(i, i + ds.len() as int) == ds,
        forall|j: int| 0 <= j < ds.len() ==> is_digit(#[trigger] ds[j]),
        i + ds.len() == s.len() || !is_digit(s[i + ds.len()]),
    ensures
        spec_scan_int(s, i, acc) == (fold_digits(acc, ds), i + ds.len() as int),
    decreases ds.len(),
{
    if ds.len() == 0 {
    } else {
        assert(s[i] == ds[0]);
        assert(s.subrange(i + 1, i + ds.len() as int) =~= ds.drop_first());
        lemma_scan_digit_window(s, i + 1, ds.drop_first(), wrap_step(acc, digit_val(ds[0])));
    }
}

/// Lexing from the start of the canonical text of a canonical tree yields
/// exactly its tokens, and continues after them, provided no digit follows a
/// trailing digit of the window.
proof fn lemma_lex_print(v: NodeView, s: Seq<char>, i: int)
    requires
        v.is_expr(),
        0 <= i,
        i + spec_print(v).len() <= s.len(),
        s.subrange(i, i + spec_print(v).len() as int) == spec_print(v),
        i + spec_print(v).len() == s.len() || !is_digit(s[i + spec_print(v).len()]),
    ensures
        spec_lex_from(s, i) == lex_app(
            print_toks(v, i),
            spec_lex_from(s, i + spec_print(v).len()),
        ),
    decreases v, 1nat,
{
    match v.entry {
        Terminal::Integer(n) => {
            let ds = dec_str(n as nat);
            lemma_dec_str_digits(n as nat);
            assert(s[i] == ds[0]);
            lemma_scan_digit_window(s, i, ds, 0);
            lemma_fold_dec_str(n);
            assert(spec_lex_from(s, i) == lex_cons(
                Lexeme::Int(n, i as usize),
                spec_lex_from(s, i + ds.len()),
            ));
            lemma_cons_is_app(Lexeme::Int(n, i as usize), spec_lex_from(s, i + ds.len()));
        },
        Terminal::Dice => {
            let c0 = v.children[0];
            let c1 = v.children[1];
            assert(c0.is_expr());
            assert(c1.is_expr());
            let p0 = spec_print(c0);
            let p1 = spec_print(c1);
            assert(spec_print(v) == p0 + seq!['d'] + p1);
            assert(s.subrange(i, i + p0.len() + 1 + p1.len()) == (p0 + seq!['d']) + p1);
            lemma_window_split(s, i, p0 + seq!['d'], p1);
            lemma_window_split(s, i, p0, seq!['d']);
            let j = i + p0.len() as int;
            lemma_window_char(s, j, 'd');
            lemma_lex_print(c0, s, i);
            assert(spec_lex_from(s, j) == lex_cons(
                Lexeme::Dice('d', j as usize),
                spec_lex_from(s, j + 1),
            ));
            lemma_lex_print(c1, s, j + 1);
            lemma_join_token(
                s,
                i,
                print_toks(c0, i),
                Lexeme::Dice('d', j as usize),
                print_toks(c1, j + 1),
                j,
                i + spec_print(v).len(),
            );
            assert(print_toks(v, i) == print_toks(c0, i) + seq![Lexeme::Dice('d', j as usize)]
                + print_toks(c1, j + 1));
        },
        Terminal::Remove => {
            let c0 = v.children[0];
            let c1 = v.children[1];
            let c2 = v.children[2];
            assert(c0.is_expr());
            assert(c1.is_expr());
            let p0 = spec_print(c0);
            let p1 = spec_print(c1);
            let p2 = spec_print(c2);
            assert(c2.entry is Higher || c2.entry is Lower);
            assert(p2 == if c2.entry is Higher {
                seq!['h']
            } else {
                seq!['l']
            });
            assert(spec_print(v) == p0 + seq!['r'] + p1 + p2);
            assert(s.subrange(i, i + p0.len() + 1 + p1.len() + 1) == ((p0 + seq!['r']) + p1)
                + p2);
            lemma_window_split(s, i, (p0 + seq!['r']) + p1, p2);
            lemma_window_split(s, i, p0 + seq!['r'], p1);
            lemma_window_split(s, i, p0, seq!['r']);
            let j = i + p0.len() as int;
            let k = j + 1 + p1.len() as int;
            lemma_window_char(s, j, 'r');
            let dc = if c2.entry is Higher {
                'h'
            } else {
                'l'
            };
            lemma_window_char(s, k, dc);
            lemma_lex_print(c0, s, i);
            assert(spec_lex_from(s, j) == lex_cons(
                Lexeme::Remove('r', j as usize),
                spec_lex_from(s, j + 1),
            ));
            lemma_lex_print(c1, s, j + 1);
            assert(spec_lex_from(s, k) == lex_cons(
                Lexeme::Direction(dc, k as usize),
                spec_lex_from(s, k + 1),
            ));
            lemma_app_empty(spec_lex_from(s, k + 1));
            lemma_join_token(
                s,
                j + 1,
                print_toks(c1, j + 1),
                Lexeme::Direction(dc, k as usize),
                Seq::empty(),
                k,
                k + 1,
            );
            lemma_join_token(
                s,
                i,
                print_toks(c0, i),
                Lexeme::Remove('r', j as usize),
                print_toks(c1, j + 1) + seq![Lexeme::Direction(dc, k as usize)] + Seq::empty(),
                j,
                k + 1,
            );
            assert(v.is_term());
            assert(print_toks(c2, i + p0.len() + 1 + p1.len()) == seq![
                Lexeme::Direction(dc, k as usize),
            ]);
            assert(print_toks(v, i) =~= print_toks(c0, i) + seq![Lexeme::Remove('r', j as usize)]
                + (print_toks(c1, j + 1) + seq![Lexeme::Direction(dc, k as usize)]
                + Seq::empty()));
        },
        Terminal::Add => {
            lemma_lex_print_op(v, s, i, '+');
        },
        Terminal::Subtract => {
            lemma_lex_print_op(v, s, i, '-');
        },
        Terminal::Higher => {
            assert(false);
        },
        Terminal::Lower => {
            assert(false);
        },
    }
}

/// The `Add`/`Subtract` case of [`lemma_lex_print`]: the window is the left
/// operand, the padded operator, and the right operand.
proof fn lemma_lex_print_op(v: NodeView, s: Seq<char>, i: int, o: char)
    requires
        v.is_expr(),
        !v.is_term(),
        v.entry is Add <==> o == '+',
        v.entry is Subtract <==> o == '-',
        o == '+' || o == '-',
        0 <= i,
        i + spec_print(v).len() <= s.len(),
        s.subrange(i, i + spec_print(v).len() as int) == spec_print(v),
        i + spec_print(v).len() == s.len() || !is_digit(s[i + spec_print(v).len()]),
    ensures
        spec_lex_from(s, i) == lex_app(
            print_toks(v, i),
            spec_lex_from(s, i + spec_print(v).len()),
        ),
    decreases v, 0nat,
{
    let c0 = v.children[0];
    let c1 = v.children[1];
    assert(c0.is_expr());
    let p0 = spec_print(c0);
    let p1 = spec_print(c1);
    let pad = seq![' ', o, ' '];
    assert(spec_print(v) == p0 + pad + p1);
    assert(s.subrange(i, i + p0.len() + 3 + p1.len()) == (p0 + pad) + p1);
    lemma_window_split(s, i, p0 + pad, p1);
    lemma_window_split(s, i, p0, pad);
    let j = i + p0.len() as int;
    assert(s[j] == ' ');
    assert(s[j + 1] == o);
    assert(s[j + 2] == ' ');
    lemma_lex_print(c0, s, i);
    assert(spec_lex_from(s, j) == spec_lex_from(s, j + 1));
    assert(spec_lex_from(s, j + 1) == lex_cons(
        Lexeme::Op(o, (j + 1) as usize),
        spec_lex_from(s, j + 2),
    ));
    assert(spec_lex_from(s, j + 2) == spec_lex_from(s, j + 3));
    lemma_lex_print(c1, s, j + 3);
    lemma_join_token(
        s,
        i,
        print_toks(c0, i),
        Lexeme::Op(o, (j + 1) as usize),
        print_toks(c1, j + 3),
        j,
        i + spec_print(v).len(),
    );
    assert(print_toks(v, i) == print_toks(c0, i) + seq![Lexeme::Op(o, (j + 1) as usize)]
        + print_toks(c1, j + 3));
}

/// Prepending a single token is appending a one-token sequence.
proof fn lemma_cons_is_app(t: Lexeme, rest: Result<Seq<Lexeme>, ParseFailure>)
    ensures
        lex_cons(t, rest) == lex_app(seq![t], rest),
{
}

/// Appending an empty prefix changes nothing.
proof fn lemma_app_empty(rest: Result<Seq<Lexeme>, ParseFailure>)
    ensures
        lex_app(Seq::empty(), rest) == rest,
{
    match rest {
        Ok(r) => {
            assert(Seq::<Lexeme>::empty() + r =~= r);
        },
        Err(_) => {},
    }
}

/// Chain an already-established prefix, one middle token, and an
/// already-established suffix into one `lex_app` equation.
proof fn lemma_join_token(
    s: Seq<char>,
    i: int,
    front: Seq<Lexeme>,
    t: Lexeme,
    back: Seq<Lexeme>,
    j: int,
    end: int,
)
    requires
        spec_lex_from(s, i) == lex_app(front, spec_lex_from(s, j)),
        spec_lex_from(s, j) == lex_cons(t, lex_app(back, spec_lex_from(s, end))),
    ensures
        spec_lex_from(s, i) == lex_app(front + seq![t] + back, spec_lex_from(s, end)),
{
    match spec_lex_from(s, end) {
        Ok(rest) => {
            assert(front + (seq![t] + (back + rest)) =~= (front + seq![t] + back) + rest);
        },
        Err(_) => {},
    }
}

/// The integer payload of an `Integer` tag.
spec fn int_of(t: Terminal) -> u32 {
    match t {
        Terminal::Integer(n) => n,
        _ => 0,
    }
}

/// A childless node tagged with an integer is that integer's leaf.
proof fn lemma_int_leaf_eq(c: NodeView)
    requires
        c.entry is Integer,
        c.children.len() == 0,
    ensures
        c == NodeView::int_leaf(int_of(c.entry)),
{
    assert(c.children =~= Seq::<NodeView>::empty());
    assert(c.entry == Terminal::Integer(int_of(c.entry)));
    assert(c =~~= NodeView::int_leaf(int_of(c.entry)));
}

/// A childless node tagged with a direction is that direction's leaf.
proof fn lemma_dir_leaf_eq(c: NodeView)
    requires
        c.entry is Higher || c.entry is Lower,
        c.children.len() == 0,
    ensures
        c == NodeView::dir_leaf(c.entry),
{
    assert(c.children =~= Seq::<NodeView>::empty());
    assert(c =~~= NodeView::dir_leaf(c.entry));
}

/// Parsing from a window holding exactly the tokens of a dice-or-int tree
/// yields that tree, provided no `d` token follows a bare-integer window.
proof fn lemma_parse_dice_or_int_toks(v: NodeView, ts: Seq<Lexeme>, pos: int, base: int)
    requires
        v.is_dice_or_int(),
        0 <= pos,
        pos + print_toks(v, base).len() <= ts.len(),
        ts.subrange(pos, pos + print_toks(v, base).len() as int) == print_toks(v, base),
        v.entry is Integer ==> (pos + 1 == ts.len() || !(ts[pos + 1] is Dice)),
    ensures
        spec_parse_dice_or_int(ts, pos) == Ok::<(NodeView, int), ParseFailure>(
            (v, pos + print_toks(v, base).len()),
        ),
{
    match v.entry {
        Terminal::Integer(n) => {
            lemma_window_char(ts, pos, Lexeme::Int(n, base as usize));
            lemma_int_leaf_eq(v);
        },
        Terminal::Dice => {
            let c0 = v.children[0];
            let c1 = v.children[1];
            let n0 = int_of(c0.entry);
            let n1 = int_of(c1.entry);
            let t0 = print_toks(c0, base);
            let p0 = spec_print(c0).len() as int;
            let t1 = print_toks(c1, base + p0 + 1);
            assert(t0 == seq![Lexeme::Int(n0, base as usize)]);
            assert(t1 == seq![Lexeme::Int(n1, (base + p0 + 1) as usize)]);
            assert(print_toks(v, base) == (t0 + seq![Lexeme::Dice('d', (base + p0) as usize)])
                + t1);
            lemma_window_split(ts, pos, t0 + seq![Lexeme::Dice('d', (base + p0) as usize)], t1);
            lemma_window_split(ts, pos, t0, seq![Lexeme::Dice('d', (base + p0) as usize)]);
            lemma_window_char(ts, pos, Lexeme::Int(n0, base as usize));
            lemma_window_char(ts, pos + 1, Lexeme::Dice('d', (base + p0) as usize));
            lemma_window_char(ts, pos + 2, Lexeme::Int(n1, (base + p0 + 1) as usize));
            lemma_int_leaf_eq(c0);
            lemma_int_leaf_eq(c1);
            assert(v.children =~= seq![NodeView::int_leaf(n0), NodeView::int_leaf(n1)]);
            assert(v =~= dice_view(n0, n1));
        },
        _ => {
            assert(false);
        },
    }
}

/// Parsing from a window holding exactly the tokens of a term yields that
/// term, provided no `r` or `d` token immediately follows the window.
proof fn lemma_parse_term_toks(v: NodeView, ts: Seq<Lexeme>, pos: int, base: int)
    requires
        v.is_term(),
        0 <= pos,
        pos + print_toks(v, base).len() <= ts.len(),
        ts.subrange(pos, pos + print_toks(v, base).len() as int) == print_toks(v, base),
        pos + print_toks(v, base).len() == ts.len() || (!(ts[pos + print_toks(v, base).len()]
            is Remove) && !(ts[pos + print_toks(v, base).len()] is Dice)),
    ensures
        spec_parse_term(ts, pos) == Ok::<(NodeView, int), ParseFailure>(
            (v, pos + print_toks(v, base).len()),
        ),
{
    if v.is_dice_or_int() {
        lemma_parse_dice_or_int_toks(v, ts, pos, base);
    } else {
        let c0 = v.children[0];
        let c1 = v.children[1];
        let c2 = v.children[2];
        let k1 = int_of(c1.entry);
        let dc = if c2.entry is Higher {
            'h'
        } else {
            'l'
        };
        let t0 = print_toks(c0, base);
        let p0 = spec_print(c0).len() as int;
        let p1 = spec_print(c1).len() as int;
        let rtok = Lexeme::Remove('r', (base + p0) as usize);
        let t1 = print_toks(c1, base + p0 + 1);
        let t2 = print_toks(c2, base + p0 + 1 + p1);
        let dtok = Lexeme::Direction(dc, (base + p0 + 1 + p1) as usize);
        assert(t1 == seq![Lexeme::Int(k1, (base + p0 + 1) as usize)]);
        assert(t2 == seq![dtok]);
        assert(print_toks(v, base) == ((t0 + seq![rtok]) + t1) + t2);
        lemma_window_split(ts, pos, (t0 + seq![rtok]) + t1, t2);
        lemma_window_split(ts, pos, t0 + seq![rtok], t1);
        lemma_window_split(ts, pos, t0, seq![rtok]);
        let m = pos + t0.len() as int;
        lemma_window_char(ts, m, rtok);
        lemma_window_char(ts, m + 1, Lexeme::Int(k1, (base + p0 + 1) as usize));
        lemma_window_char(ts, m + 2, dtok);
        lemma_parse_dice_or_int_toks(c0, ts, pos, base);
        lemma_int_leaf_eq(c1);
        lemma_dir_leaf_eq(c2);
        if c2.entry is Higher {
            assert(v.children =~= seq![c0, NodeView::int_leaf(k1), NodeView::dir_leaf(
                Terminal::Higher,
            )]);
            assert(v =~= remove_view(c0, k1, Terminal::Higher));
        } else {
            assert(v.children =~= seq![c0, NodeView::int_leaf(k1), NodeView::dir_leaf(
                Terminal::Lower,
            )]);
            assert(v =~= remove_view(c0, k1, Terminal::Lower));
        }
    }
}

/// Parsing from a window holding exactly the tokens of a canonical tree
/// yields that tree, provided no `+`/`-`, `r` or `d` token follows.
proof fn lemma_parse_expr_toks(v: NodeView, ts: Seq<Lexeme>, pos: int, base: int)
    requires
        v.is_expr(),
        0 <= pos,
        pos + print_toks(v, base).len() <= ts.len(),
        ts.subrange(pos, pos + print_toks(v, base).len() as int) == print_toks(v, base),
        pos + print_toks(v, base).len() == ts.len() || (!(ts[pos + print_toks(v, base).len()]
            is Op) && !(ts[pos + print_toks(v, base).len()] is Remove) && !(ts[pos
            + print_toks(v, base).len()] is Dice)),
    ensures
        spec_parse_expr(ts, pos) == Ok::<(NodeView, int), ParseFailure>(
            (v, pos + print_toks(v, base).len()),
        ),
    decreases v,
{
    if v.is_term() {
        lemma_parse_term_toks(v, ts, pos, base);
    } else {
        let c0 = v.children[0];
        let c1 = v.children[1];
        let o = if v.entry is Add {
            '+'
        } else {
            '-'
        };
        let t0 = print_toks(c0, base);
        let p0 = spec_print(c0).len() as int;
        let otok = Lexeme::Op(o, (base + p0 + 1) as usize);
        let t1 = print_toks(c1, base + p0 + 3);
        assert(print_toks(v, base) == (t0 + seq![otok]) + t1);
        lemma_window_split(ts, pos, t0 + seq![otok], t1);
        lemma_window_split(ts, pos, t0, seq![otok]);
        let m = pos + t0.len() as int;
        lemma_window_char(ts, m, otok);
        lemma_parse_term_toks(c0, ts, pos, base);
        lemma_parse_expr_toks(c1, ts, m + 1, base + p0 + 3);
        assert(v.children =~= seq![c0, c1]);
        if v.entry is Add {
            assert(v =~= op_view(Terminal::Add, c0, c1));
        } else {
            assert(v =~= op_view(Terminal::Subtract, c0, c1));
        }
    }
}

/// Parsing the canonical text of any canonical tree returns exactly that
/// tree: the printer is a right inverse of the parser on the parser's
/// image.
pub proof fn lemma_print_parse_round_trip(v: NodeView)
    requires
        v.is_expr(),
    ensures
        spec_parse(spec_print(v)) == Ok::<NodeView, ParseFailure>(v),
{
    let s = spec_print(v);
    assert(s.subrange(0, s.len() as int) =~= s);
    lemma_lex_print(v, s, 0);
    let ts = print_toks(v, 0);
    assert(spec_lex_from(s, s.len() as int) == Ok::<Seq<Lexeme>, ParseFailure>(Seq::empty()));
    assert(ts + Seq::<Lexeme>::empty() =~= ts);
    assert(spec_lex(s) == Ok::<Seq<Lexeme>, ParseFailure>(ts));
    assert(ts.subrange(0, ts.len() as int) =~= ts);
    lemma_parse_expr_toks(v, ts, 0, 0);
}

/// Idempotence of canonical printing: whatever `parse` accepts prints to
/// text that parses back to the very same tree, so printing that re-parse
/// yields the identical text.
pub proof fn lemma_print_idempotent(s: Seq<char>, v: NodeView)
    requires
        spec_parse(s) == Ok::<NodeView, ParseFailure>(v),
    ensures
        spec_parse(spec_print(v)) == Ok::<NodeView, ParseFailure>(v),
        spec_print(spec_parse(spec_print(v))->Ok_0) == spec_print(v),
{
    match spec_lex(s) {
        Ok(ts) => {
            lemma_parse_expr_canonical(ts, 0);
        },
        Err(_) => {
            assert(false);
        },
    }
    lemma_print_parse_round_trip(v);
}

/// Round trip of a bare integer: its decimal text parses to the integer
/// leaf, which prints back to the very same text.
pub proof fn lemma_integer_round_trip(n: u32)
    ensures
        spec_parse(dec_str(n as nat)) == Ok::<NodeView, ParseFailure>(NodeView::int_leaf(n)),
        spec_print(NodeView::int_leaf(n)) == dec_str(n as nat),
{
    let v = NodeView::int_leaf(n);
    assert(v.is_dice_or_int());
    assert(v.is_term());
    assert(v.is_expr());
    lemma_print_parse_round_trip(v);
}

} // verus!
