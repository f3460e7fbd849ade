//! The recursive-descent parser over the token sequence.
//!
//! Grammar, each rule returning the node and the next token position:
//! ```text
//! Expr      := Term ( Op Expr )?      (right-associative)
//! Term      := DiceOrInt ( 'r' Int? Direction )?
//! DiceOrInt := Int ( 'd' Int )? | 'd' Int
//! ```

use vstd::prelude::*;
use crate::ast::{
    lemma_view_three_children, lemma_view_two_children, NodeView, ParseNode, Terminal,
};
use crate::failure::{Construct, ParseFailure};
use crate::lexer::{lex, lexeme_index, spec_lex, Lexeme};

verus! {

/// A `Dice` node with integer-leaf count and size, as the parser builds it.
pub open spec fn dice_view(count: u32, size: u32) -> NodeView {
    NodeView {
        entry: Terminal::Dice,
        children: seq![NodeView::int_leaf(count), NodeView::int_leaf(size)],
    }
}

/// A `Remove` node: the term it modifies, an integer-leaf count, and a
/// direction leaf.
pub open spec fn remove_view(d: NodeView, count: u32, dir: Terminal) -> NodeView {
    NodeView {
        entry: Terminal::Remove,
        children: seq![d, NodeView::int_leaf(count), NodeView::dir_leaf(dir)],
    }
}

/// An `Add` or `Subtract` node over its two operands.
pub open spec fn op_view(entry: Terminal, left: NodeView, right: NodeView) -> NodeView {
    NodeView { entry, children: seq![left, right] }
}

/// The `DiceOrInt` rule: a bare integer, `Int d Int`, or `d Int` with the
/// implicit count 1 filled in.
pub open spec fn spec_parse_dice_or_int(ts: Seq<Lexeme>, pos: int) -> Result<
    (NodeView, int),
    ParseFailure,
> {
    if pos < 0 || pos >= ts.len() {
        Err(
            ParseFailure::UnexpectedEndOfInput {
                construct: Construct::DiceCount,
                index: pos as usize,
            },
        )
    } else {
        match ts[pos] {
            Lexeme::Int(n, idx) => {
                if pos + 1 < ts.len() && ts[pos + 1] is Dice {
                    let idx2 = lexeme_index(ts[pos + 1]);
                    if pos + 2 < ts.len() {
                        match ts[pos + 2] {
                            Lexeme::Int(m, _) => Ok((dice_view(n, m), pos + 3)),
                            _ => Err(
                                ParseFailure::UnexpectedToken {
                                    construct: Construct::DiceSize,
                                    index: idx,
                                },
                            ),
                        }
                    } else {
                        Err(
                            ParseFailure::UnexpectedEndOfInput {
                                construct: Construct::DiceSize,
                                index: idx2,
                            },
                        )
                    }
                } else {
                    Ok((NodeView::int_leaf(n), pos + 1))
                }
            },
            Lexeme::Dice(_, idx) => {
                if pos + 1 < ts.len() {
                    match ts[pos + 1] {
                        Lexeme::Int(m, _) => Ok((dice_view(1, m), pos + 2)),
                        _ => Err(
                            ParseFailure::UnexpectedToken {
                                construct: Construct::DiceSize,
                                index: idx,
                            },
                        ),
                    }
                } else {
                    Err(
                        ParseFailure::UnexpectedEndOfInput {
                            construct: Construct::DiceSize,
                            index: idx,
                        },
                    )
                }
            },
            _ => Err(
                ParseFailure::UnexpectedToken {
                    construct: Construct::DiceCount,
                    index: lexeme_index(ts[pos]),
                },
            ),
        }
    }
}

/// The `Term` rule: a dice-or-int, optionally followed by a remove modifier
/// `r Int? Direction`, with the implicit remove count 1 filled in.
pub open spec fn spec_parse_term(ts: Seq<Lexeme>, pos: int) -> Result<
    (NodeView, int),
    ParseFailure,
> {
    match spec_parse_dice_or_int(ts, pos) {
        Err(e) => Err(e),
        Ok(res) => {
            let d = res.0;
            let p = res.1;
            if p < ts.len() && ts[p] is Remove {
                let remv_idx = lexeme_index(ts[p]);
                if p + 1 < ts.len() {
                    match ts[p + 1] {
                        Lexeme::Int(k, c_idx) => {
                            if p + 2 < ts.len() {
                                match ts[p + 2] {
                                    Lexeme::Direction(dc, _) => {
                                        if dc == 'l' {
                                            Ok((remove_view(d, k, Terminal::Lower), p + 3))
                                        } else if dc == 'h' {
                                            Ok((remove_view(d, k, Terminal::Higher), p + 3))
                                        } else {
                                            Err(
                                                ParseFailure::UnexpectedToken {
                                                    construct: Construct::RemoveDirection,
                                                    index: c_idx,
                                                },
                                            )
                                        }
                                    },
                                    _ => Err(
                                        ParseFailure::UnexpectedToken {
                                            construct: Construct::RemoveDirection,
                                            index: c_idx,
                                        },
                                    ),
                                }
                            } else {
                                Err(
                                    ParseFailure::UnexpectedEndOfInput {
                                        construct: Construct::RemoveDirection,
                                        index: c_idx,
                                    },
                                )
                            }
                        },
                        Lexeme::Direction(dc, _) => {
                            if dc == 'l' {
                                Ok((remove_view(d, 1, Terminal::Lower), p + 2))
                            } else if dc == 'h' {
                                Ok((remove_view(d, 1, Terminal::Higher), p + 2))
                            } else {
                                Err(
                                    ParseFailure::UnexpectedToken {
                                        construct: Construct::RemoveDirection,
                                        index: remv_idx,
                                    },
                                )
                            }
                        },
                        _ => Err(
                            ParseFailure::UnexpectedToken {
                                construct: Construct::RemoveDirection,
                                index: remv_idx,
                            },
                        ),
                    }
                } else {
                    Err(
                        ParseFailure::UnexpectedEndOfInput {
                            construct: Construct::RemoveDirection,
                            index: remv_idx,
                        },
                    )
                }
            } else {
                Ok(res)
            }
        },
    }
}

/// A successful dice-or-int parse moves forward and stays inside the tokens.
pub proof fn lemma_parse_dice_or_int_bounds(ts: Seq<Lexeme>, pos: int)
    ensures
        spec_parse_dice_or_int(ts, pos) matches Ok(res) ==> 0 <= pos < res.1 <= ts.len(),
{
}

/// A successful term parse moves forward and stays inside the tokens.
pub proof fn lemma_parse_term_bounds(ts: Seq<Lexeme>, pos: int)
    ensures
        spec_parse_term(ts, pos) matches Ok(res) ==> 0 <= pos < res.1 <= ts.len(),
{
    lemma_parse_dice_or_int_bounds(ts, pos);
}

/// The `Expr` rule: a term, or a term combined right-associatively with the
/// expression after the operator, so that `a - b - c` parses as
/// `a - (b - c)`.
pub open spec fn spec_parse_expr(ts: Seq<Lexeme>, pos: int) -> Result<
    (NodeView, int),
    ParseFailure,
>
    decreases ts.len() - pos,
{
    match spec_parse_term(ts, pos) {
        Err(e) => Err(e),
        Ok(res) => {
            let p = res.1;
            if 0 <= p < ts.len() && ts[p] is Op {
                match ts[p] {
                    Lexeme::Op(o, op_idx) => {
                        if o == '+' || o == '-' {
                            proof {
                                lemma_parse_term_bounds(ts, pos);
                            }
                            match spec_parse_expr(ts, p + 1) {
                                Err(e) => Err(e),
                                Ok(res2) => Ok(
                                    (
                                        op_view(
                                            if o == '+' {
                                                Terminal::Add
                                            } else {
                                                Terminal::Subtract
                                            },
                                            res.0,
                                            res2.0,
                                        ),
                                        res2.1,
                                    ),
                                ),
                            }
                        } else {
                            Err(
                                ParseFailure::UnexpectedToken {
                                    construct: Construct::Operator,
                                    index: op_idx,
                                },
                            )
                        }
                    },
                    _ => Ok(res),
                }
            } else {
                Ok(res)
            }
        },
    }
}

/// The whole pipeline on a character sequence: lex, parse one expression,
/// and require that every token was consumed.
pub open spec fn spec_parse(s: Seq<char>) -> Result<NodeView, ParseFailure> {
    match spec_lex(s) {
        Err(e) => Err(e),
        Ok(ts) => match spec_parse_expr(ts, 0) {
            Err(e) => Err(e),
            Ok(res) => {
                if res.1 == ts.len() {
                    Ok(res.0)
                } else {
                    Err(ParseFailure::TrailingInput { position: res.1 as usize })
                }
            },
        },
    }
}

/// Whatever the dice-or-int rule accepts has dice-or-int shape.
pub proof fn lemma_parse_dice_or_int_canonical(ts: Seq<Lexeme>, pos: int)
    ensures
        spec_parse_dice_or_int(ts, pos) matches Ok(res) ==> res.0.is_dice_or_int(),
{
}

/// Whatever the term rule accepts has term shape.
pub proof fn lemma_parse_term_canonical(ts: Seq<Lexeme>, pos: int)
    ensures
        spec_parse_term(ts, pos) matches Ok(res) ==> res.0.is_term(),
{
    lemma_parse_dice_or_int_canonical(ts, pos);
}

/// Whatever the expression rule accepts has expression shape: the parser's
/// image is exactly the canonical trees.
pub proof fn lemma_parse_expr_canonical(ts: Seq<Lexeme>, pos: int)
    ensures
        spec_parse_expr(ts, pos) matches Ok(res) ==> res.0.is_expr(),
    decreases ts.len() - pos,
{
    lemma_parse_term_canonical(ts, pos);
    lemma_parse_term_bounds(ts, pos);
    match spec_parse_term(ts, pos) {
        Ok(res) => {
            let p = res.1;
            if 0 <= p < ts.len() && ts[p] is Op {
                lemma_parse_expr_canonical(ts, p + 1);
            }
        },
        Err(_) => {},
    }
}

/// Build the integer leaf the parser synthesizes for a count or a size.
fn int_leaf_node(n: u32) -> (r: ParseNode)
    ensures
        r@ == NodeView::int_leaf(n),
{
    let mut node = ParseNode::new();
    node.entry = Terminal::Integer(n);
    proof {
        assert(node@ =~= NodeView::int_leaf(n));
    }
    node
}

/// The `DiceOrInt` rule, executably.
fn parse_dice_or_int(tokens: &Vec<Lexeme>, pos: usize) -> (r: Result<
    (ParseNode, usize),
    ParseFailure,
>)
    ensures
        match r {
            Ok(res) => spec_parse_dice_or_int(tokens@, pos as int) == Ok::<
                (NodeView, int),
                ParseFailure,
            >((res.0@, res.1 as int)) && pos < res.1 <= tokens@.len(),
            Err(e) => spec_parse_dice_or_int(tokens@, pos as int) == Err::<
                (NodeView, int),
                ParseFailure,
            >(e),
        },
{
    if pos >= tokens.len() {
        return Err(
            ParseFailure::UnexpectedEndOfInput { construct: Construct::DiceCount, index: pos },
        );
    }
    match &tokens[pos] {
        Lexeme::Int(n0, idx0) => {
            let n = *n0;
            let idx = *idx0;
            let count_node = int_leaf_node(n);
            if pos + 1 < tokens.len() {
                if let Lexeme::Dice(_, idx2_0) = &tokens[pos + 1] {
                    let idx2 = *idx2_0;
                    if pos + 2 < tokens.len() {
                        if let Lexeme::Int(m0, _) = &tokens[pos + 2] {
                            let m = *m0;
                            let size_node = int_leaf_node(m);
                            let mut dice_node = ParseNode::new();
                            dice_node.children.push(count_node);
                            dice_node.children.push(size_node);
                            proof {
                                lemma_view_two_children(dice_node, count_node, size_node);
                                assert(dice_node@ =~= dice_view(n, m));
                            }
                            return Ok((dice_node, pos + 3));
                        } else {
                            return Err(
                                ParseFailure::UnexpectedToken {
                                    construct: Construct::DiceSize,
                                    index: idx,
                                },
                            );
                        }
                    } else {
                        return Err(
                            ParseFailure::UnexpectedEndOfInput {
                                construct: Construct::DiceSize,
                                index: idx2,
                            },
                        );
                    }
                }
            }
            Ok((count_node, pos + 1))
        },
        Lexeme::Dice(_, idx0) => {
            let idx = *idx0;
            if pos + 1 < tokens.len() {
                if let Lexeme::Int(m0, _) = &tokens[pos + 1] {
                    let m = *m0;
                    let count_node = int_leaf_node(1);
                    let size_node = int_leaf_node(m);
                    let mut dice_node = ParseNode::new();
                    dice_node.children.push(count_node);
                    dice_node.children.push(size_node);
                    proof {
                        lemma_view_two_children(dice_node, count_node, size_node);
                        assert(dice_node@ =~= dice_view(1, m));
                    }
                    Ok((dice_node, pos + 2))
                } else {
                    Err(
                        ParseFailure::UnexpectedToken {
                            construct: Construct::DiceSize,
                            index: idx,
                        },
                    )
                }
            } else {
                Err(
                    ParseFailure::UnexpectedEndOfInput {
                        construct: Construct::DiceSize,
                        index: idx,
                    },
                )
            }
        },
        t => {
            let index = match t {
                Lexeme::Dice(_, i) => *i,
                Lexeme::Remove(_, i) => *i,
                Lexeme::Direction(_, i) => *i,
                Lexeme::Op(_, i) => *i,
                Lexeme::Int(_, i) => *i,
            };
            Err(ParseFailure::UnexpectedToken { construct: Construct::DiceCount, index })
        },
    }
}

/// Build the direction leaf for `'l'` or `'h'`.
fn dir_leaf_node(dc: char) -> (r: ParseNode)
    requires
        dc == 'l' || dc == 'h',
    ensures
        dc == 'l' ==> r@ == NodeView::dir_leaf(Terminal::Lower),
        dc == 'h' ==> r@ == NodeView::dir_leaf(Terminal::Higher),
{
    let mut node = ParseNode::new();
    if dc == 'l' {
        node.entry = Terminal::Lower;
        proof {
            assert(node@ =~= NodeView::dir_leaf(Terminal::Lower));
        }
    } else {
        node.entry = Terminal::Higher;
        proof {
            assert(node@ =~= NodeView::dir_leaf(Terminal::Higher));
        }
    }
    node
}

/// The `Term` rule, executably: attach an optional remove modifier to the
/// dice-or-int just parsed.
fn parse_term(tokens: &Vec<Lexeme>, pos: usize) -> (r: Result<(ParseNode, usize), ParseFailure>)
    ensures
        match r {
            Ok(res) => spec_parse_term(tokens@, pos as int) == Ok::<
                (NodeView, int),
                ParseFailure,
            >((res.0@, res.1 as int)) && pos < res.1 <= tokens@.len(),
            Err(e) => spec_parse_term(tokens@, pos as int) == Err::<
                (NodeView, int),
                ParseFailure,
            >(e),
        },
{
    let (previous_node, next_pos) = match parse_dice_or_int(tokens, pos) {
        Ok(res) => res,
        Err(e) => return Err(e),
    };
    if next_pos < tokens.len() {
        let is_remove = match &tokens[next_pos] {
            Lexeme::Remove(_, _) => true,
            _ => false,
        };
        if is_remove {
            let remv_idx = match &tokens[next_pos] {
                Lexeme::Remove(_, i) => *i,
                _ => 0,
            };
            if next_pos + 1 < tokens.len() {
                match &tokens[next_pos + 1] {
                    Lexeme::Int(k0, c_idx0) => {
                        let k = *k0;
                        let c_idx = *c_idx0;
                        if next_pos + 2 < tokens.len() {
                            if let Lexeme::Direction(dc0, _) = &tokens[next_pos + 2] {
                                let dc = *dc0;
                                if dc == 'l' || dc == 'h' {
                                    let count_node = int_leaf_node(k);
                                    let direction_node = dir_leaf_node(dc);
                                    let mut remove_node = ParseNode::new();
                                    remove_node.entry = Terminal::Remove;
                                    remove_node.children.push(previous_node);
                                    remove_node.children.push(count_node);
                                    remove_node.children.push(direction_node);
                                    proof {
                                        lemma_view_three_children(
                                            remove_node,
                                            previous_node,
                                            count_node,
                                            direction_node,
                                        );
                                        if dc == 'l' {
                                            assert(remove_node@ =~= remove_view(
                                                previous_node@,
                                                k,
                                                Terminal::Lower,
                                            ));
                                        } else {
                                            assert(remove_node@ =~= remove_view(
                                                previous_node@,
                                                k,
                                                Terminal::Higher,
                                            ));
                                        }
                                    }
                                    Ok((remove_node, next_pos + 3))
                                } else {
                                    Err(
                                        ParseFailure::UnexpectedToken {
                                            construct: Construct::RemoveDirection,
                                            index: c_idx,
                                        },
                                    )
                                }
                            } else {
                                Err(
                                    ParseFailure::UnexpectedToken {
                                        construct: Construct::RemoveDirection,
                                        index: c_idx,
                                    },
                                )
                            }
                        } else {
                            Err(
                                ParseFailure::UnexpectedEndOfInput {
                                    construct: Construct::RemoveDirection,
                                    index: c_idx,
                                },
                            )
                        }
                    },
                    Lexeme::Direction(dc0, _) => {
                        let dc = *dc0;
                        if dc == 'l' || dc == 'h' {
                            let count_node = int_leaf_node(1);
                            let direction_node = dir_leaf_node(dc);
                            let mut remove_node = ParseNode::new();
                            remove_node.entry = Terminal::Remove;
                            remove_node.children.push(previous_node);
                            remove_node.children.push(count_node);
                            remove_node.children.push(direction_node);
                            proof {
                                lemma_view_three_children(
                                    remove_node,
                                    previous_node,
                                    count_node,
                                    direction_node,
                                );
                                if dc == 'l' {
                                    assert(remove_node@ =~= remove_view(
                                        previous_node@,
                                        1,
                                        Terminal::Lower,
                                    ));
                                } else {
                                    assert(remove_node@ =~= remove_view(
                                        previous_node@,
                                        1,
                                        Terminal::Higher,
                                    ));
                                }
                            }
                            Ok((remove_node, next_pos + 2))
                        } else {
                            Err(
                                ParseFailure::UnexpectedToken {
                                    construct: Construct::RemoveDirection,
                                    index: remv_idx,
                                },
                            )
                        }
                    },
                    _ => Err(
                        ParseFailure::UnexpectedToken {
                            construct: Construct::RemoveDirection,
                            index: remv_idx,
                        },
                    ),
                }
            } else {
                Err(
                    ParseFailure::UnexpectedEndOfInput {
                        construct: Construct::RemoveDirection,
                        index: remv_idx,
                    },
                )
            }
        } else {
            Ok((previous_node, next_pos))
        }
    } else {
        Ok((previous_node, next_pos))
    }
}

/// The `Expr` rule, executably: after a term, an operator hands everything
/// that remains to a recursive call, making the term the left child.
fn parse_expr(tokens: &Vec<Lexeme>, pos: usize) -> (r: Result<(ParseNode, usize), ParseFailure>)
    ensures
        match r {
            Ok(res) => spec_parse_expr(tokens@, pos as int) == Ok::<
                (NodeView, int),
                ParseFailure,
            >((res.0@, res.1 as int)) && pos < res.1 <= tokens@.len(),
            Err(e) => spec_parse_expr(tokens@, pos as int) == Err::<
                (NodeView, int),
                ParseFailure,
            >(e),
        },
    decreases tokens@.len() - pos,
{
    let (previous_node, next_pos) = match parse_term(tokens, pos) {
        Ok(res) => res,
        Err(e) => return Err(e),
    };
    if next_pos < tokens.len() {
        match &tokens[next_pos] {
            Lexeme::Op(o0, op_idx0) => {
                let o = *o0;
                let op_idx = *op_idx0;
                if o == '+' || o == '-' {
                    let (right_node, i) = match parse_expr(tokens, next_pos + 1) {
                        Ok(res) => res,
                        Err(e) => return Err(e),
                    };
                    let mut op_node = ParseNode::new();
                    op_node.entry = if o == '+' {
                        Terminal::Add
                    } else {
                        Terminal::Subtract
                    };
                    op_node.children.push(previous_node);
                    op_node.children.push(right_node);
                    proof {
                        lemma_view_two_children(op_node, previous_node, right_node);
                        assert(op_node@ =~= op_view(op_node.entry, previous_node@, right_node@));
                    }
                    Ok((op_node, i))
                } else {
                    Err(
                        ParseFailure::UnexpectedToken {
                            construct: Construct::Operator,
                            index: op_idx,
                        },
                    )
                }
            },
            _ => Ok((previous_node, next_pos)),
        }
    } else {
        Ok((previous_node, next_pos))
    }
}

/// Parse a dice-notation expression: lex the whole input, parse one
/// expression, and fail with `TrailingInput` if tokens remain.
///
/// On success the returned tree is exactly what the grammar derives from the
/// input, and it always has the canonical shape `is_expr`, with implicit
/// counts filled in as integer leaves.
pub fn parse(input: &String) -> (r: Result<ParseNode, ParseFailure>)
    ensures
        match r {
            Ok(node) => spec_parse(input@) == Ok::<NodeView, ParseFailure>(node@)
                && node@.is_expr() && node@.wf(),
            Err(e) => spec_parse(input@) == Err::<NodeView, ParseFailure>(e),
        },
{
    let tokens = match lex(input.as_str()) {
        Ok(t) => t,
        Err(e) => return Err(e),
    };
    match parse_expr(&tokens, 0) {
        Ok((node, end)) => {
            if end == tokens.len() {
                proof {
                    lemma_parse_expr_canonical(tokens@, 0);
                    crate::ast::lemma_expr_wf(node@);
                }
                Ok(node)
            } else {
                Err(ParseFailure::TrailingInput { position: end })
            }
        },
        Err(e) => Err(e),
    }
}

} // verus!
