//! The grammar, as functions from a token stream and a position to the tree
//! that starts there and the position behind it.
//!
//! Binary operators are read by binding power: an operand, then each operator
//! that binds at least as tightly as is asked for, with a right operand made
//! of tighter operators only. Operators of one power so group to the left:
//! `10 - 4 - 3` is `(10 - 4) - 3`. A parenthesized expression is an operand,
//! and stays whole: `2 * (3 + 4)`.
use crate::ast::{all_well_formed, well_formed, AstView};
use crate::lexer::{ContentView, TokenType, TokenView};
use vstd::prelude::*;

verus! {

/// Why a token stream is not a program; `index` is the offending token's
/// place in the stream.
#[derive(Debug, Clone, Copy, PartialEq, Eq, Structural)]
pub enum ParseError {
    /// The stream ended where a token was needed.
    UnexpectedEnd { index: usize },
    /// A token of the kind `expected` was needed.
    Expected { expected: TokenType, index: usize },
    /// A particular keyword was needed.
    ExpectedKeyword { index: usize },
    /// No expression starts with this token.
    UnexpectedToken { index: usize },
    /// Neither a statement nor an expression starts with this keyword.
    UnexpectedKeyword { index: usize },
    /// The range of a loop does not have exactly two bounds.
    RangeArity { index: usize },
}

/// A tree and the position behind it, or the failure.
pub type Parsed = Result<(AstView, int), ParseError>;

/// Trees and the position behind them, or the failure.
pub type ParsedList = Result<(Seq<AstView>, int), ParseError>;

pub open spec fn kind_at(ts: Seq<TokenView>, pos: int) -> Option<TokenType> {
    if 0 <= pos < ts.len() {
        Some(ts[pos].kind)
    } else {
        None
    }
}

pub open spec fn keyword_at(ts: Seq<TokenView>, pos: int, word: Seq<char>) -> bool {
    0 <= pos < ts.len() && ts[pos].kind == TokenType::Keyword && ts[pos].lexeme == word
}

/// The position behind a token of kind `kind` at `pos`.
pub open spec fn expect(ts: Seq<TokenView>, pos: int, kind: TokenType) -> Result<int, ParseError> {
    match kind_at(ts, pos) {
        None => Err(ParseError::UnexpectedEnd { index: pos as usize }),
        Some(k) => if k == kind {
            Ok(pos + 1)
        } else {
            Err(ParseError::Expected { expected: kind, index: pos as usize })
        },
    }
}

/// The position behind the keyword `word` at `pos`.
pub open spec fn expect_keyword(ts: Seq<TokenView>, pos: int, word: Seq<char>) -> Result<
    int,
    ParseError,
> {
    if !(0 <= pos < ts.len()) {
        Err(ParseError::UnexpectedEnd { index: pos as usize })
    } else if keyword_at(ts, pos, word) {
        Ok(pos + 1)
    } else {
        Err(ParseError::ExpectedKeyword { index: pos as usize })
    }
}

/// `IDENT (',' IDENT)*` after its first name.
#[verifier::opaque]
pub open spec fn ident_list_rest(ts: Seq<TokenView>, pos: int, acc: Seq<Seq<char>>) -> Result<
    (Seq<Seq<char>>, int),
    ParseError,
>
    decreases ts.len() - pos,
{
    if kind_at(ts, pos) == Some(TokenType::Comma) {
        match expect(ts, pos + 1, TokenType::Identifier) {
            Err(e) => Err(e),
            Ok(next) => ident_list_rest(ts, next, acc.push(ts[pos + 1].lexeme)),
        }
    } else {
        Ok((acc, pos))
    }
}

/// `IDENT (',' IDENT)*`
pub open spec fn ident_list(ts: Seq<TokenView>, pos: int) -> Result<
    (Seq<Seq<char>>, int),
    ParseError,
> {
    match expect(ts, pos, TokenType::Identifier) {
        Err(e) => Err(e),
        Ok(next) => ident_list_rest(ts, next, seq![ts[pos].lexeme]),
    }
}

/// `LITERAL | IDENT | '[' exprList? ']' | '(' expr ')' | 'prep' ...`
#[verifier::opaque]
pub open spec fn parse_simple(ts: Seq<TokenView>, pos: int) -> Parsed
    decreases ts.len() - pos, 2int,
{
    if !(0 <= pos < ts.len()) {
        Err(ParseError::UnexpectedEnd { index: pos as usize })
    } else {
        let t = ts[pos];
        match t.kind {
            TokenType::String | TokenType::Number | TokenType::Boolean => Ok(
                (AstView::Literal(t.content), pos + 1),
            ),
            TokenType::LeftBracket => if kind_at(ts, pos + 1) == Some(TokenType::RightBracket) {
                Ok((AstView::Array(Seq::empty()), pos + 2))
            } else {
                match parse_expr_list(ts, pos + 1) {
                    Err(e) => Err(e),
                    Ok((items, p)) => match expect(ts, p, TokenType::RightBracket) {
                        Err(e) => Err(e),
                        Ok(q) => Ok((AstView::Array(items), q)),
                    },
                }
            },
            TokenType::Identifier => Ok((AstView::Var(t.lexeme, None), pos + 1)),
            TokenType::LeftParen => match parse_expr(ts, pos + 1) {
                Err(e) => Err(e),
                Ok((e, p)) => match expect(ts, p, TokenType::RightParen) {
                    Err(e) => Err(e),
                    Ok(q) => Ok((e, q)),
                },
            },
            TokenType::Keyword => if t.lexeme == "prep"@ {
                parse_instance(ts, pos + 1)
            } else {
                Err(ParseError::UnexpectedKeyword { index: pos as usize })
            },
            _ => Err(ParseError::UnexpectedToken { index: pos as usize }),
        }
    }
}

/// `IDENT '(' (IDENT ':' expr (',' IDENT ':' expr)*)? ')'`, behind `prep`.
#[verifier::opaque]
pub open spec fn parse_instance(ts: Seq<TokenView>, pos: int) -> Parsed
    decreases ts.len() - pos, 1int,
{
    match expect(ts, pos, TokenType::Identifier) {
        Err(e) => Err(e),
        Ok(_) => match expect(ts, pos + 1, TokenType::LeftParen) {
            Err(e) => Err(e),
            Ok(_) => if kind_at(ts, pos + 2) == Some(TokenType::RightParen) {
                Ok((AstView::Instance(ts[pos].lexeme, Seq::empty()), pos + 3))
            } else {
                match parse_members(ts, pos + 2, Seq::empty()) {
                    Err(e) => Err(e),
                    Ok((members, p)) => match expect(ts, p, TokenType::RightParen) {
                        Err(e) => Err(e),
                        Ok(q) => Ok((AstView::Instance(ts[pos].lexeme, members), q)),
                    },
                }
            },
        },
    }
}

/// `IDENT ':' expr (',' IDENT ':' expr)*`
#[verifier::opaque]
pub open spec fn parse_members(
    ts: Seq<TokenView>,
    pos: int,
    acc: Seq<(Seq<char>, AstView)>,
) -> Result<(Seq<(Seq<char>, AstView)>, int), ParseError>
    decreases ts.len() - pos, 1int,
{
    match expect(ts, pos, TokenType::Identifier) {
        Err(e) => Err(e),
        Ok(_) => match expect(ts, pos + 1, TokenType::Colon) {
            Err(e) => Err(e),
            Ok(_) => match parse_expr(ts, pos + 2) {
                Err(e) => Err(e),
                Ok((value, p)) => {
                    let members = acc.push((ts[pos].lexeme, value));
                    if kind_at(ts, p) == Some(TokenType::Comma) && pos < p {
                        parse_members(ts, p + 1, members)
                    } else {
                        Ok((members, p))
                    }
                },
            },
        },
    }
}

/// `simple ( '(' exprList? ')' | '[' expr ']' | '.' IDENT )*`
#[verifier::opaque]
pub open spec fn parse_call(ts: Seq<TokenView>, pos: int) -> Parsed
    decreases ts.len() - pos, 3int,
{
    match parse_simple(ts, pos) {
        Err(e) => Err(e),
        Ok((e, p)) => if pos < p <= ts.len() {
            call_rest(ts, p, e)
        } else {
            Err(ParseError::UnexpectedEnd { index: pos as usize })
        },
    }
}

/// One call, indexing or field access behind `target`, if one follows: the
/// new node and the position behind it.
#[verifier::opaque]
pub open spec fn postfix(ts: Seq<TokenView>, pos: int, target: AstView) -> Result<
    Option<(AstView, int)>,
    ParseError,
>
    decreases ts.len() - pos, 0int,
{
    match kind_at(ts, pos) {
        None => Err(ParseError::UnexpectedEnd { index: pos as usize }),
        Some(TokenType::LeftParen) => match kind_at(ts, pos + 1) {
            None => Err(ParseError::UnexpectedEnd { index: (pos + 1) as usize }),
            Some(TokenType::RightParen) => Ok(
                Some((AstView::Call(Box::new(target), Seq::empty()), pos + 2)),
            ),
            Some(_) => match parse_expr_list(ts, pos + 1) {
                Err(e) => Err(e),
                Ok((args, p)) => match expect(ts, p, TokenType::RightParen) {
                    Err(e) => Err(e),
                    Ok(q) => Ok(Some((AstView::Call(Box::new(target), args), q))),
                },
            },
        },
        Some(TokenType::LeftBracket) => match parse_expr(ts, pos + 1) {
            Err(e) => Err(e),
            Ok((key, p)) => match expect(ts, p, TokenType::RightBracket) {
                Err(e) => Err(e),
                Ok(q) => Ok(Some((AstView::Get(Box::new(target), Box::new(key), true), q))),
            },
        },
        Some(TokenType::Period) => match expect(ts, pos + 1, TokenType::Identifier) {
            Err(e) => Err(e),
            Ok(q) => Ok(Some((AstView::PointGet(Box::new(target), ts[pos + 1].lexeme), q))),
        },
        Some(_) => Ok(None),
    }
}

/// The calls, indexings and field accesses that follow `target`.
#[verifier::opaque]
pub open spec fn call_rest(ts: Seq<TokenView>, pos: int, target: AstView) -> Parsed
    decreases ts.len() - pos, 1int,
{
    match postfix(ts, pos, target) {
        Err(e) => Err(e),
        Ok(None) => Ok((target, pos)),
        Ok(Some((node, next))) => if pos < next <= ts.len() {
            call_rest(ts, next, node)
        } else {
            Err(ParseError::UnexpectedEnd { index: pos as usize })
        },
    }
}

/// `'!' unary | call`
#[verifier::opaque]
pub open spec fn parse_unary(ts: Seq<TokenView>, pos: int) -> Parsed
    decreases ts.len() - pos, 4int,
{
    match kind_at(ts, pos) {
        None => Err(ParseError::UnexpectedEnd { index: pos as usize }),
        Some(TokenType::Not) => match parse_unary(ts, pos + 1) {
            Err(e) => Err(e),
            Ok((e, p)) => Ok((AstView::Unary(TokenType::Not, Box::new(e)), p)),
        },
        Some(_) => parse_call(ts, pos),
    }
}

/// An operand and the operators behind it that bind at least as tightly as
/// `min`, grouped to the left.
#[verifier::opaque]
pub open spec fn parse_binary(ts: Seq<TokenView>, pos: int, min: int) -> Parsed
    decreases ts.len() - pos, 5int,
{
    match parse_unary(ts, pos) {
        Err(e) => Err(e),
        Ok((left, p)) => if pos < p <= ts.len() {
            climb(ts, p, left, min)
        } else {
            Err(ParseError::UnexpectedEnd { index: pos as usize })
        },
    }
}

/// What stands behind the operand `left`: while an operator follows that binds
/// at least as tightly as `min`, it takes `left` and a right operand of tighter
/// operators, and the two make the new left operand.
#[verifier::opaque]
pub open spec fn climb(ts: Seq<TokenView>, pos: int, left: AstView, min: int) -> Parsed
    decreases ts.len() - pos, 1int,
{
    match kind_at(ts, pos) {
        None => Err(ParseError::UnexpectedEnd { index: pos as usize }),
        Some(op) => if op.is_operator() && op.binding_power() >= min {
            match parse_binary(ts, pos + 1, op.binding_power() + 1) {
                Err(e) => Err(e),
                Ok((right, q)) => if pos < q <= ts.len() {
                    climb(ts, q, AstView::Binary(Box::new(left), op, Box::new(right)), min)
                } else {
                    Err(ParseError::UnexpectedEnd { index: pos as usize })
                },
            }
        } else {
            Ok((left, pos))
        },
    }
}

/// An expression: an operand with every operator behind it.
#[verifier::opaque]
pub open spec fn parse_expr(ts: Seq<TokenView>, pos: int) -> Parsed
    decreases ts.len() - pos, 6int,
{
    parse_binary(ts, pos, 0)
}

/// `expr (',' expr)*`
#[verifier::opaque]
pub open spec fn parse_expr_list(ts: Seq<TokenView>, pos: int) -> ParsedList
    decreases ts.len() - pos, 7int,
{
    match parse_expr(ts, pos) {
        Err(e) => Err(e),
        Ok((e, p)) => if pos < p <= ts.len() {
            expr_list_rest(ts, p, seq![e])
        } else {
            Err(ParseError::UnexpectedEnd { index: pos as usize })
        },
    }
}

/// `(',' expr)*` behind the expressions `acc`.
#[verifier::opaque]
pub open spec fn expr_list_rest(ts: Seq<TokenView>, pos: int, acc: Seq<AstView>) -> ParsedList
    decreases ts.len() - pos, 1int,
{
    if kind_at(ts, pos) == Some(TokenType::Comma) {
        match parse_expr(ts, pos + 1) {
            Err(e) => Err(e),
            Ok((e, p)) => if pos < p <= ts.len() {
                expr_list_rest(ts, p, acc.push(e))
            } else {
                Err(ParseError::UnexpectedEnd { index: pos as usize })
            },
        }
    } else {
        Ok((acc, pos))
    }
}

/// `'{' stmt* '}'`
#[verifier::opaque]
pub open spec fn parse_block(ts: Seq<TokenView>, pos: int) -> ParsedList
    decreases ts.len() - pos, 12int,
{
    match expect(ts, pos, TokenType::LeftBrace) {
        Err(e) => Err(e),
        Ok(next) => block_rest(ts, next, Seq::empty()),
    }
}

/// `stmt* '}'` behind the statements `acc`.
#[verifier::opaque]
pub open spec fn block_rest(ts: Seq<TokenView>, pos: int, acc: Seq<AstView>) -> ParsedList
    decreases ts.len() - pos, 11int,
{
    match kind_at(ts, pos) {
        None => Err(ParseError::UnexpectedEnd { index: pos as usize }),
        Some(TokenType::RightBrace) => Ok((acc, pos + 1)),
        Some(_) => match parse_stmt(ts, pos) {
            Err(e) => Err(e),
            Ok((s, p)) => if pos < p <= ts.len() {
                block_rest(ts, p, acc.push(s))
            } else {
                Err(ParseError::UnexpectedEnd { index: pos as usize })
            },
        },
    }
}

/// A statement.
#[verifier::opaque]
pub open spec fn parse_stmt(ts: Seq<TokenView>, pos: int) -> Parsed
    decreases ts.len() - pos, 10int,
{
    if !(0 <= pos < ts.len()) {
        Err(ParseError::UnexpectedEnd { index: pos as usize })
    } else if ts[pos].kind == TokenType::Keyword {
        let word = ts[pos].lexeme;
        if word == "sketch"@ {
            parse_func(ts, pos + 1)
        } else if word == "finished"@ {
            match parse_expr(ts, pos + 1) {
                Err(e) => Err(e),
                Ok((e, p)) => Ok((AstView::Return(Box::new(e)), p)),
            }
        } else if word == "loop"@ {
            parse_for(ts, pos + 1)
        } else if word == "while"@ {
            parse_while(ts, pos + 1)
        } else if word == "if"@ {
            parse_conditional(ts, pos + 1, true)
        } else if word == "prepare"@ {
            parse_assign(ts, pos + 1)
        } else if word == "brush"@ {
            parse_struct(ts, pos + 1)
        } else {
            Err(ParseError::UnexpectedKeyword { index: pos as usize })
        }
    } else {
        parse_expr(ts, pos)
    }
}

/// `IDENT ('needs' '(' identList ')')? block`, behind `sketch`.
#[verifier::opaque]
pub open spec fn parse_func(ts: Seq<TokenView>, pos: int) -> Parsed
    decreases ts.len() - pos, 1int,
{
    match expect(ts, pos, TokenType::Identifier) {
        Err(e) => Err(e),
        Ok(_) => if keyword_at(ts, pos + 1, "needs"@) {
            match expect(ts, pos + 2, TokenType::LeftParen) {
                Err(e) => Err(e),
                Ok(_) => match ident_list(ts, pos + 3) {
                    Err(e) => Err(e),
                    Ok((params, p)) => match expect(ts, p, TokenType::RightParen) {
                        Err(e) => Err(e),
                        Ok(q) => if pos < q {
                            match parse_block(ts, q) {
                                Err(e) => Err(e),
                                Ok((body, r)) => Ok(
                                    (AstView::Func(ts[pos].lexeme, params, body), r),
                                ),
                            }
                        } else {
                            Err(ParseError::UnexpectedEnd { index: pos as usize })
                        },
                    },
                },
            }
        } else {
            match parse_block(ts, pos + 1) {
                Err(e) => Err(e),
                Ok((body, r)) => Ok((AstView::Func(ts[pos].lexeme, Seq::empty(), body), r)),
            }
        },
    }
}

/// `IDENT 'through' '(' expr ',' expr ')' block`, behind `loop`.
#[verifier::opaque]
pub open spec fn parse_for(ts: Seq<TokenView>, pos: int) -> Parsed
    decreases ts.len() - pos, 1int,
{
    match expect(ts, pos, TokenType::Identifier) {
        Err(e) => Err(e),
        Ok(_) => match expect_keyword(ts, pos + 1, "through"@) {
            Err(e) => Err(e),
            Ok(_) => match expect(ts, pos + 2, TokenType::LeftParen) {
                Err(e) => Err(e),
                Ok(_) => match parse_expr_list(ts, pos + 3) {
                    Err(e) => Err(e),
                    Ok((range, p)) => if range.len() != 2 {
                        Err(ParseError::RangeArity { index: p as usize })
                    } else {
                        match expect(ts, p, TokenType::RightParen) {
                            Err(e) => Err(e),
                            Ok(q) => if pos < q {
                                match parse_block(ts, q) {
                                    Err(e) => Err(e),
                                    Ok((body, r)) => Ok(
                                        (AstView::For(ts[pos].lexeme, range, body), r),
                                    ),
                                }
                            } else {
                                Err(ParseError::UnexpectedEnd { index: pos as usize })
                            },
                        }
                    },
                },
            },
        },
    }
}

/// `'(' expr ')' block`, behind `while`.
#[verifier::opaque]
pub open spec fn parse_while(ts: Seq<TokenView>, pos: int) -> Parsed
    decreases ts.len() - pos, 1int,
{
    match expect(ts, pos, TokenType::LeftParen) {
        Err(e) => Err(e),
        Ok(_) => match parse_expr(ts, pos + 1) {
            Err(e) => Err(e),
            Ok((c, p)) => match expect(ts, p, TokenType::RightParen) {
                Err(e) => Err(e),
                Ok(q) => if pos < q {
                    match parse_block(ts, q) {
                        Err(e) => Err(e),
                        Ok((body, r)) => Ok((AstView::While(Box::new(c), body), r)),
                    }
                } else {
                    Err(ParseError::UnexpectedEnd { index: pos as usize })
                },
            },
        },
    }
}

/// The condition of a clause: `'(' expr ')'`, or for `else` nothing, which
/// stands for `true`.
#[verifier::opaque]
pub open spec fn parse_condition(ts: Seq<TokenView>, pos: int, conditioned: bool) -> Parsed
    decreases ts.len() - pos, 6int,
{
    if conditioned {
        match expect(ts, pos, TokenType::LeftParen) {
            Err(e) => Err(e),
            Ok(_) => match parse_expr(ts, pos + 1) {
                Err(e) => Err(e),
                Ok((c, p)) => match expect(ts, p, TokenType::RightParen) {
                    Err(e) => Err(e),
                    Ok(q) => Ok((c, q)),
                },
            },
        }
    } else {
        Ok((AstView::Literal(ContentView::Boolean(true)), pos))
    }
}

/// A clause behind its keyword (`if`, `elif` or `else`), with the clauses that
/// follow it nested as the one entry of its chain.
#[verifier::opaque]
pub open spec fn parse_conditional(ts: Seq<TokenView>, pos: int, conditioned: bool) -> Parsed
    decreases ts.len() - pos, 13int,
{
    match parse_condition(ts, pos, conditioned) {
        Err(e) => Err(e),
        Ok((c, q)) => if !(pos <= q <= ts.len()) {
            Err(ParseError::UnexpectedEnd { index: pos as usize })
        } else {
            match parse_block(ts, q) {
                Err(e) => Err(e),
                Ok((body, r)) => if !(q < r < ts.len()) {
                    Err(ParseError::UnexpectedEnd { index: r as usize })
                } else if keyword_at(ts, r, "else"@) || keyword_at(ts, r, "elif"@) {
                    match parse_conditional(ts, r + 1, keyword_at(ts, r, "elif"@)) {
                        Err(e) => Err(e),
                        Ok((next, s)) => Ok(
                            (AstView::Conditional(Box::new(c), body, seq![next]), s),
                        ),
                    }
                } else {
                    Ok((AstView::Conditional(Box::new(c), body, Seq::empty()), r))
                },
            }
        },
    }
}

/// `IDENT ('.' IDENT 'as' expr | 'as' expr)`, behind `prepare`.
#[verifier::opaque]
pub open spec fn parse_assign(ts: Seq<TokenView>, pos: int) -> Parsed
    decreases ts.len() - pos, 1int,
{
    match expect(ts, pos, TokenType::Identifier) {
        Err(e) => Err(e),
        Ok(_) => match kind_at(ts, pos + 1) {
            None => Err(ParseError::UnexpectedEnd { index: (pos + 1) as usize }),
            Some(TokenType::Period) => match expect(ts, pos + 2, TokenType::Identifier) {
                Err(e) => Err(e),
                Ok(_) => match expect_keyword(ts, pos + 3, "as"@) {
                    Err(e) => Err(e),
                    Ok(_) => match parse_expr(ts, pos + 4) {
                        Err(e) => Err(e),
                        Ok((value, p)) => Ok(
                            (
                                AstView::SetField(
                                    ts[pos].lexeme,
                                    ts[pos + 2].lexeme,
                                    Box::new(value),
                                ),
                                p,
                            ),
                        ),
                    },
                },
            },
            Some(_) => match expect_keyword(ts, pos + 1, "as"@) {
                Err(e) => Err(e),
                Ok(_) => match parse_expr(ts, pos + 2) {
                    Err(e) => Err(e),
                    Ok((value, p)) => Ok(
                        (AstView::Var(ts[pos].lexeme, Some(Box::new(value))), p),
                    ),
                },
            },
        },
    }
}

/// `IDENT 'has' '{' identList '}'`, behind `brush`.
#[verifier::opaque]
pub open spec fn parse_struct(ts: Seq<TokenView>, pos: int) -> Parsed {
    match expect(ts, pos, TokenType::Identifier) {
        Err(e) => Err(e),
        Ok(_) => match expect_keyword(ts, pos + 1, "has"@) {
            Err(e) => Err(e),
            Ok(_) => match expect(ts, pos + 2, TokenType::LeftBrace) {
                Err(e) => Err(e),
                Ok(_) => match ident_list(ts, pos + 3) {
                    Err(e) => Err(e),
                    Ok((fields, p)) => match expect(ts, p, TokenType::RightBrace) {
                        Err(e) => Err(e),
                        Ok(q) => Ok((AstView::Struct(ts[pos].lexeme, fields), q)),
                    },
                },
            },
        },
    }
}

/// `stmt* EOF` behind the statements `acc`; the end of the stream closes a
/// program as the end-of-text token does.
#[verifier::opaque]
pub open spec fn parse_program(ts: Seq<TokenView>, pos: int, acc: Seq<AstView>) -> Result<
    Seq<AstView>,
    ParseError,
>
    decreases ts.len() - pos,
{
    match kind_at(ts, pos) {
        None => Ok(acc),
        Some(TokenType::EOF) => Ok(acc),
        Some(_) => match parse_stmt(ts, pos) {
            Err(e) => Err(e),
            Ok((s, p)) => if pos < p <= ts.len() {
                parse_program(ts, p, acc.push(s))
            } else {
                Err(ParseError::UnexpectedEnd { index: pos as usize })
            },
        },
    }
}

/// Where a grammar function gives a tree, the tree is well formed and the
/// position behind it is further on, within the stream.
pub open spec fn sound(ts: Seq<TokenView>, pos: int, r: Parsed) -> bool {
    r matches Ok((node, next)) ==> well_formed(node) && pos < next <= ts.len()
}

/// As `sound`, for a run of trees.
pub open spec fn sound_list(ts: Seq<TokenView>, pos: int, r: ParsedList) -> bool {
    r matches Ok((nodes, next)) ==> all_well_formed(nodes) && pos < next <= ts.len()
}

/// As `sound_list`, for what follows trees that are read already: the
/// position may stay where it is.
pub open spec fn sound_rest(ts: Seq<TokenView>, pos: int, r: ParsedList) -> bool {
    r matches Ok((nodes, next)) ==> all_well_formed(nodes) && pos <= next <= ts.len()
}

proof fn lemma_push_well_formed(acc: Seq<AstView>, node: AstView)
    requires
        all_well_formed(acc),
        well_formed(node),
    ensures
        all_well_formed(acc.push(node)),
{
    assert forall|i: int| 0 <= i < acc.push(node).len() implies well_formed(
        #[trigger] acc.push(node)[i],
    ) by {
        if i < acc.len() {
            assert(acc.push(node)[i] == acc[i]);
        }
    }
}

proof fn lemma_ident_list_rest_bounds(ts: Seq<TokenView>, pos: int, acc: Seq<Seq<char>>)
    requires
        0 <= pos <= ts.len(),
    ensures
        ident_list_rest(ts, pos, acc) matches Ok((names, next)) ==> pos <= next <= ts.len(),
    decreases ts.len() - pos,
{
    reveal(ident_list_rest);
    if kind_at(ts, pos) == Some(TokenType::Comma) && expect(ts, pos + 1, TokenType::Identifier)
        is Ok {
        lemma_ident_list_rest_bounds(ts, pos + 2, acc.push(ts[pos + 1].lexeme));
    }
}

proof fn lemma_ident_list_bounds(ts: Seq<TokenView>, pos: int)
    requires
        0 <= pos,
    ensures
        ident_list(ts, pos) matches Ok((names, next)) ==> pos < next <= ts.len(),
{
    if expect(ts, pos, TokenType::Identifier) is Ok {
        lemma_ident_list_rest_bounds(ts, pos + 1, seq![ts[pos].lexeme]);
    }
}

proof fn lemma_simple_sound(ts: Seq<TokenView>, pos: int)
    requires
        0 <= pos,
    ensures
        sound(ts, pos, parse_simple(ts, pos)),
    decreases ts.len() - pos, 2int,
{
    reveal(parse_expr_list);
    reveal(parse_expr);
    reveal(parse_instance);
    reveal(parse_simple);
    if pos < ts.len() {
        match ts[pos].kind {
            TokenType::LeftBracket => {
                if kind_at(ts, pos + 1) != Some(TokenType::RightBracket) {
                    lemma_expr_list_sound(ts, pos + 1);
                }
            },
            TokenType::LeftParen => {
                lemma_expr_sound(ts, pos + 1);
            },
            TokenType::Keyword => {
                if ts[pos].lexeme == "prep"@ {
                    lemma_instance_sound(ts, pos + 1);
                }
            },
            _ => {},
        }
    }
}

proof fn lemma_instance_sound(ts: Seq<TokenView>, pos: int)
    requires
        0 <= pos,
    ensures
        sound(ts, pos, parse_instance(ts, pos)),
    decreases ts.len() - pos, 1int,
{
    reveal(parse_members);
    reveal(parse_instance);
    if expect(ts, pos, TokenType::Identifier) is Ok && expect(ts, pos + 1, TokenType::LeftParen)
        is Ok && kind_at(ts, pos + 2) != Some(TokenType::RightParen) {
        lemma_members_sound(ts, pos + 2, Seq::empty());
    }
}

proof fn lemma_members_sound(ts: Seq<TokenView>, pos: int, acc: Seq<(Seq<char>, AstView)>)
    requires
        0 <= pos,
        forall|i: int| 0 <= i < acc.len() ==> well_formed((#[trigger] acc[i]).1),
    ensures
        parse_members(ts, pos, acc) matches Ok((members, next)) ==> pos < next <= ts.len() && (
        forall|i: int| 0 <= i < members.len() ==> well_formed((#[trigger] members[i]).1)),
    decreases ts.len() - pos, 1int,
{
    reveal(parse_expr);
    reveal(parse_members);
    if expect(ts, pos, TokenType::Identifier) is Ok && expect(ts, pos + 1, TokenType::Colon)
        is Ok {
        lemma_expr_sound(ts, pos + 2);
        if let Ok((value, p)) = parse_expr(ts, pos + 2) {
            let members = acc.push((ts[pos].lexeme, value));
            assert forall|i: int| 0 <= i < members.len() implies well_formed(
                (#[trigger] members[i]).1,
            ) by {
                if i < acc.len() {
                    assert(members[i] == acc[i]);
                }
            }
            if kind_at(ts, p) == Some(TokenType::Comma) {
                lemma_members_sound(ts, p + 1, members);
            }
        }
    }
}

proof fn lemma_postfix_sound(ts: Seq<TokenView>, pos: int, target: AstView)
    requires
        0 <= pos,
        well_formed(target),
    ensures
        postfix(ts, pos, target) matches Ok(Some((node, next))) ==> well_formed(node) && pos < next
            <= ts.len(),
    decreases ts.len() - pos, 0int,
{
    reveal(parse_expr_list);
    reveal(parse_expr);
    reveal(postfix);
    match kind_at(ts, pos) {
        Some(TokenType::LeftParen) => {
            if kind_at(ts, pos + 1) is Some && kind_at(ts, pos + 1) != Some(
                TokenType::RightParen,
            ) {
                lemma_expr_list_sound(ts, pos + 1);
            }
        },
        Some(TokenType::LeftBracket) => {
            lemma_expr_sound(ts, pos + 1);
        },
        _ => {},
    }
}

proof fn lemma_call_rest_sound(ts: Seq<TokenView>, pos: int, target: AstView)
    requires
        0 <= pos,
        well_formed(target),
    ensures
        call_rest(ts, pos, target) matches Ok((node, next)) ==> well_formed(node) && pos <= next
            <= ts.len(),
    decreases ts.len() - pos, 1int,
{
    reveal(postfix);
    reveal(call_rest);
    lemma_postfix_sound(ts, pos, target);
    if let Ok(Some((node, next))) = postfix(ts, pos, target) {
        lemma_call_rest_sound(ts, next, node);
    } else if postfix(ts, pos, target) == Ok::<Option<(AstView, int)>, ParseError>(None) {
        reveal(postfix);
    }
}

proof fn lemma_call_sound(ts: Seq<TokenView>, pos: int)
    requires
        0 <= pos,
    ensures
        sound(ts, pos, parse_call(ts, pos)),
    decreases ts.len() - pos, 3int,
{
    reveal(parse_simple);
    reveal(call_rest);
    reveal(parse_call);
    lemma_simple_sound(ts, pos);
    if let Ok((e, p)) = parse_simple(ts, pos) {
        lemma_call_rest_sound(ts, p, e);
    }
}

proof fn lemma_unary_sound(ts: Seq<TokenView>, pos: int)
    requires
        0 <= pos,
    ensures
        sound(ts, pos, parse_unary(ts, pos)),
    decreases ts.len() - pos, 4int,
{
    reveal(parse_call);
    reveal(parse_unary);
    match kind_at(ts, pos) {
        None => {},
        Some(TokenType::Not) => {
            lemma_unary_sound(ts, pos + 1);
        },
        Some(_) => {
            lemma_call_sound(ts, pos);
        },
    }
}

proof fn lemma_binary_sound(ts: Seq<TokenView>, pos: int, min: int)
    requires
        0 <= pos,
    ensures
        sound(ts, pos, parse_binary(ts, pos, min)),
    decreases ts.len() - pos, 5int,
{
    reveal(parse_unary);
    reveal(parse_binary);
    reveal(climb);
    lemma_unary_sound(ts, pos);
    if let Ok((left, p)) = parse_unary(ts, pos) {
        lemma_climb_sound(ts, p, left, min);
    }
}

proof fn lemma_climb_sound(ts: Seq<TokenView>, pos: int, left: AstView, min: int)
    requires
        0 <= pos <= ts.len(),
        well_formed(left),
    ensures
        climb(ts, pos, left, min) matches Ok((node, next)) ==> well_formed(node) && pos <= next
            <= ts.len(),
    decreases ts.len() - pos, 1int,
{
    reveal(parse_binary);
    reveal(climb);
    if let Some(op) = kind_at(ts, pos) {
        if op.is_operator() && op.binding_power() >= min {
            lemma_binary_sound(ts, pos + 1, op.binding_power() + 1);
            if let Ok((right, q)) = parse_binary(ts, pos + 1, op.binding_power() + 1) {
                let node = AstView::Binary(Box::new(left), op, Box::new(right));
                assert(well_formed(node));
                lemma_climb_sound(ts, q, node, min);
            }
        }
    }
}

proof fn lemma_expr_sound(ts: Seq<TokenView>, pos: int)
    requires
        0 <= pos,
    ensures
        sound(ts, pos, parse_expr(ts, pos)),
    decreases ts.len() - pos, 6int,
{
    reveal(parse_binary);
    reveal(parse_expr);
    lemma_binary_sound(ts, pos, 0);
}

proof fn lemma_expr_list_sound(ts: Seq<TokenView>, pos: int)
    requires
        0 <= pos,
    ensures
        sound_list(ts, pos, parse_expr_list(ts, pos)),
    decreases ts.len() - pos, 7int,
{
    reveal(parse_expr);
    reveal(expr_list_rest);
    reveal(parse_expr_list);
    lemma_expr_sound(ts, pos);
    if let Ok((e, p)) = parse_expr(ts, pos) {
        lemma_expr_list_rest_sound(ts, p, seq![e]);
    }
}

proof fn lemma_expr_list_rest_sound(ts: Seq<TokenView>, pos: int, acc: Seq<AstView>)
    requires
        0 <= pos <= ts.len(),
        all_well_formed(acc),
    ensures
        sound_rest(ts, pos, expr_list_rest(ts, pos, acc)),
    decreases ts.len() - pos, 1int,
{
    reveal(parse_expr);
    reveal(expr_list_rest);
    if kind_at(ts, pos) == Some(TokenType::Comma) {
        lemma_expr_sound(ts, pos + 1);
        if let Ok((e, p)) = parse_expr(ts, pos + 1) {
            lemma_push_well_formed(acc, e);
            lemma_expr_list_rest_sound(ts, p, acc.push(e));
        }
    }
}

proof fn lemma_block_sound(ts: Seq<TokenView>, pos: int)
    requires
        0 <= pos,
    ensures
        sound_list(ts, pos, parse_block(ts, pos)),
    decreases ts.len() - pos, 12int,
{
    reveal(block_rest);
    reveal(parse_block);
    if expect(ts, pos, TokenType::LeftBrace) is Ok {
        lemma_block_rest_sound(ts, pos + 1, Seq::empty());
    }
}

proof fn lemma_block_rest_sound(ts: Seq<TokenView>, pos: int, acc: Seq<AstView>)
    requires
        0 <= pos,
        all_well_formed(acc),
    ensures
        sound_list(ts, pos, block_rest(ts, pos, acc)),
    decreases ts.len() - pos, 11int,
{
    reveal(parse_stmt);
    reveal(block_rest);
    match kind_at(ts, pos) {
        None => {},
        Some(TokenType::RightBrace) => {},
        Some(_) => {
            lemma_stmt_sound(ts, pos);
            if let Ok((s, p)) = parse_stmt(ts, pos) {
                lemma_push_well_formed(acc, s);
                lemma_block_rest_sound(ts, p, acc.push(s));
            }
        },
    }
}

proof fn lemma_stmt_sound(ts: Seq<TokenView>, pos: int)
    requires
        0 <= pos,
    ensures
        sound(ts, pos, parse_stmt(ts, pos)),
    decreases ts.len() - pos, 10int,
{
    reveal(parse_func);
    reveal(parse_expr);
    reveal(parse_for);
    reveal(parse_while);
    reveal(parse_conditional);
    reveal(parse_assign);
    reveal(parse_struct);
    reveal(parse_stmt);
    if pos < ts.len() {
        if ts[pos].kind == TokenType::Keyword {
            let word = ts[pos].lexeme;
            if word == "sketch"@ {
                lemma_func_sound(ts, pos + 1);
            } else if word == "finished"@ {
                lemma_expr_sound(ts, pos + 1);
            } else if word == "loop"@ {
                lemma_for_sound(ts, pos + 1);
            } else if word == "while"@ {
                lemma_while_sound(ts, pos + 1);
            } else if word == "if"@ {
                lemma_conditional_sound(ts, pos + 1, true);
            } else if word == "prepare"@ {
                lemma_assign_sound(ts, pos + 1);
            } else if word == "brush"@ {
                lemma_ident_list_bounds(ts, pos + 4);
            }
        } else {
            lemma_expr_sound(ts, pos);
        }
    }
}

proof fn lemma_func_sound(ts: Seq<TokenView>, pos: int)
    requires
        0 <= pos,
    ensures
        sound(ts, pos, parse_func(ts, pos)),
    decreases ts.len() - pos, 1int,
{
    reveal(parse_block);
    reveal(parse_func);
    if expect(ts, pos, TokenType::Identifier) is Ok {
        if keyword_at(ts, pos + 1, "needs"@) {
            if expect(ts, pos + 2, TokenType::LeftParen) is Ok {
                lemma_ident_list_bounds(ts, pos + 3);
                if let Ok((params, p)) = ident_list(ts, pos + 3) {
                    if let Ok(q) = expect(ts, p, TokenType::RightParen) {
                        if pos < q {
                            lemma_block_sound(ts, q);
                        }
                    }
                }
            }
        } else {
            lemma_block_sound(ts, pos + 1);
        }
    }
}

proof fn lemma_for_sound(ts: Seq<TokenView>, pos: int)
    requires
        0 <= pos,
    ensures
        sound(ts, pos, parse_for(ts, pos)),
    decreases ts.len() - pos, 1int,
{
    reveal(parse_expr_list);
    reveal(parse_block);
    reveal(parse_for);
    if expect(ts, pos, TokenType::Identifier) is Ok && expect_keyword(ts, pos + 1, "through"@)
        is Ok && expect(ts, pos + 2, TokenType::LeftParen) is Ok {
        lemma_expr_list_sound(ts, pos + 3);
        if let Ok((range, p)) = parse_expr_list(ts, pos + 3) {
            if let Ok(q) = expect(ts, p, TokenType::RightParen) {
                lemma_block_sound(ts, q);
            }
        }
    }
}

proof fn lemma_while_sound(ts: Seq<TokenView>, pos: int)
    requires
        0 <= pos,
    ensures
        sound(ts, pos, parse_while(ts, pos)),
    decreases ts.len() - pos, 1int,
{
    reveal(parse_expr);
    reveal(parse_block);
    reveal(parse_while);
    if expect(ts, pos, TokenType::LeftParen) is Ok {
        lemma_expr_sound(ts, pos + 1);
        if let Ok((c, p)) = parse_expr(ts, pos + 1) {
            if let Ok(q) = expect(ts, p, TokenType::RightParen) {
                lemma_block_sound(ts, q);
            }
        }
    }
}

proof fn lemma_condition_sound(ts: Seq<TokenView>, pos: int, conditioned: bool)
    requires
        0 <= pos <= ts.len(),
    ensures
        parse_condition(ts, pos, conditioned) matches Ok((c, next)) ==> well_formed(c) && pos
            <= next <= ts.len(),
    decreases ts.len() - pos, 6int,
{
    reveal(parse_expr);
    reveal(parse_condition);
    if conditioned && expect(ts, pos, TokenType::LeftParen) is Ok {
        lemma_expr_sound(ts, pos + 1);
    }
}

proof fn lemma_conditional_sound(ts: Seq<TokenView>, pos: int, conditioned: bool)
    requires
        0 <= pos <= ts.len(),
    ensures
        sound(ts, pos, parse_conditional(ts, pos, conditioned)),
    decreases ts.len() - pos, 13int,
{
    reveal(parse_condition);
    reveal(parse_block);
    reveal(parse_conditional);
    lemma_condition_sound(ts, pos, conditioned);
    if let Ok((c, q)) = parse_condition(ts, pos, conditioned) {
        lemma_block_sound(ts, q);
        if let Ok((body, r)) = parse_block(ts, q) {
            if r < ts.len() && (keyword_at(ts, r, "else"@) || keyword_at(ts, r, "elif"@)) {
                lemma_conditional_sound(ts, r + 1, keyword_at(ts, r, "elif"@));
                if let Ok((next, s)) = parse_conditional(ts, r + 1, keyword_at(ts, r, "elif"@)) {
                    assert(seq![next][0] == next);
                }
            }
        }
    }
}

proof fn lemma_assign_sound(ts: Seq<TokenView>, pos: int)
    requires
        0 <= pos,
    ensures
        sound(ts, pos, parse_assign(ts, pos)),
    decreases ts.len() - pos, 1int,
{
    reveal(parse_expr);
    reveal(parse_assign);
    if expect(ts, pos, TokenType::Identifier) is Ok {
        match kind_at(ts, pos + 1) {
            None => {},
            Some(TokenType::Period) => {
                if expect(ts, pos + 2, TokenType::Identifier) is Ok && expect_keyword(
                    ts,
                    pos + 3,
                    "as"@,
                ) is Ok {
                    lemma_expr_sound(ts, pos + 4);
                }
            },
            Some(_) => {
                if expect_keyword(ts, pos + 1, "as"@) is Ok {
                    lemma_expr_sound(ts, pos + 2);
                }
            },
        }
    }
}

/// Operators group to the left: an operator behind `left` that binds at least
/// as tightly as `min` takes `left` whole and a right operand of tighter
/// operators only, and what follows is read behind the two together. `left` is
/// never taken apart, whether it was written in parentheses or not.
pub proof fn lemma_operators_group_left(
    ts: Seq<TokenView>,
    pos: int,
    left: AstView,
    min: int,
    right: AstView,
    next: int,
)
    requires
        0 <= pos < ts.len(),
        ts[pos].kind.is_operator(),
        ts[pos].kind.binding_power() >= min,
        parse_binary(ts, pos + 1, ts[pos].kind.binding_power() + 1) == Ok::<
            (AstView, int),
            ParseError,
        >((right, next)),
    ensures
        pos < next <= ts.len(),
        climb(ts, pos, left, min) == climb(
            ts,
            next,
            AstView::Binary(Box::new(left), ts[pos].kind, Box::new(right)),
            min,
        ),
{
    reveal(climb);
    reveal(parse_binary);
    lemma_binary_sound(ts, pos + 1, ts[pos].kind.binding_power() + 1);
}

/// A program that the grammar accepts is made of well-formed trees: none
/// holds the absent value, and every loop has its two bounds.
pub proof fn lemma_program_well_formed(ts: Seq<TokenView>, pos: int, acc: Seq<AstView>)
    requires
        0 <= pos,
        all_well_formed(acc),
    ensures
        parse_program(ts, pos, acc) matches Ok(program) ==> all_well_formed(program),
    decreases ts.len() - pos,
{
    reveal(parse_program);
    match kind_at(ts, pos) {
        None => {},
        Some(TokenType::EOF) => {},
        Some(_) => {
            lemma_stmt_sound(ts, pos);
            if let Ok((s, p)) = parse_stmt(ts, pos) {
                lemma_push_well_formed(acc, s);
                lemma_program_well_formed(ts, p, acc.push(s));
            }
        },
    }
}

/// Every statement, expression and block that the grammar accepts is well
/// formed and takes at least one token.
pub proof fn lemma_grammar_sound(ts: Seq<TokenView>, pos: int)
    requires
        0 <= pos,
    ensures
        sound(ts, pos, parse_stmt(ts, pos)),
        sound(ts, pos, parse_expr(ts, pos)),
        sound(ts, pos, parse_simple(ts, pos)),
        sound_list(ts, pos, parse_expr_list(ts, pos)),
        sound_list(ts, pos, parse_block(ts, pos)),
{
    lemma_stmt_sound(ts, pos);
    lemma_expr_sound(ts, pos);
    lemma_simple_sound(ts, pos);
    lemma_expr_list_sound(ts, pos);
    lemma_block_sound(ts, pos);
}

} // verus!
