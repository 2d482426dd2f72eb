//! The parser: a recursive descent over the token stream, proved to build the
//! tree that the grammar describes.
use crate::ast::{
    lemma_ast_kind,
    all_well_formed, ast_views, group_ast_views, member_views, name_views, well_formed, Array, Ast,
    AstView, Literal,
};
use crate::grammar::{
    climb, parse_binary,
    postfix,
    parse_condition,
    block_rest, call_rest, expect, expect_keyword, expr_list_rest, ident_list, ident_list_rest,
    keyword_at, kind_at, parse_assign, parse_block, parse_call, parse_conditional, parse_expr,
    parse_expr_list, parse_for, parse_func, parse_instance, parse_members, parse_program,
    parse_simple, parse_stmt, parse_struct, parse_unary, parse_while, ParseError, Parsed,
    ParsedList,
};
use crate::lexer::{token_views, ContentView, Token, TokenContentType, TokenType, TokenView};
use vstd::prelude::*;

verus! {

/// The token stream, the statements parsed so far, and the position.
pub struct Parser {
    pub tokens: Vec<Token>,
    pub ast: Vec<Ast>,
    pub current: usize,
}

/// Whether two texts are the same.
pub fn same_text(a: &str, b: &str) -> (r: bool)
    ensures
        r == (a@ == b@),
{
    let x = a.to_owned();
    let y = b.to_owned();
    x == y
}

/// The parser went from `before` to `after` and gave `r`, as the grammar
/// function that gave `expected` says; a tree that it built holds no absent
/// value, and its loops have two bounds.
pub open spec fn yields(before: Parser, after: Parser, r: Result<Ast, ParseError>, expected: Parsed) -> bool {
    &&& after.tokens == before.tokens
    &&& after.ast == before.ast
    &&& match expected {
        Ok((node, next)) => r is Ok && r->Ok_0@ == node && after.current == next && before.current
            < next <= before.tokens@.len() && well_formed(node),
        Err(e) => r == Err::<Ast, ParseError>(e),
    }
}

/// As `yields`, for a run of trees.
pub open spec fn yields_list(
    before: Parser,
    after: Parser,
    r: Result<Vec<Ast>, ParseError>,
    expected: ParsedList,
) -> bool {
    &&& after.tokens == before.tokens
    &&& after.ast == before.ast
    &&& match expected {
        Ok((nodes, next)) => r is Ok && ast_views(r->Ok_0@) == nodes && after.current == next
            && before.current < next <= before.tokens@.len() && all_well_formed(nodes),
        Err(e) => r == Err::<Vec<Ast>, ParseError>(e),
    }
}

/// What follows the keyword `word`, where it stands at `pos`.
pub open spec fn behind_keyword(ts: Seq<TokenView>, pos: int, word: Seq<char>, rest: Parsed) -> Parsed {
    match expect_keyword(ts, pos, word) {
        Err(e) => Err(e),
        Ok(_) => rest,
    }
}

impl Parser {
    /// The token stream as a sequence of views.
    pub open spec fn stream(&self) -> Seq<TokenView> {
        token_views(self.tokens@)
    }

    pub fn new(tokens: Vec<Token>) -> (parser: Parser)
        ensures
            parser.tokens == tokens,
            parser.ast@.len() == 0,
            parser.current == 0,
    {
        Parser { tokens, ast: Vec::new(), current: 0 }
    }

    fn peek(&self) -> (r: Option<Token>)
        ensures
            match r {
                Some(t) => self.current < self.tokens@.len() && t@ == self.stream()[
                    self.current as int
                ],
                None => self.current >= self.tokens@.len(),
            },
    {
        if self.current >= self.tokens.len() {
            return None;
        }
        Some(self.tokens[self.current].clone())
    }

    #[allow(non_snake_case)]
    fn peekType(&self) -> (r: Option<TokenType>)
        ensures
            r == kind_at(self.stream(), self.current as int),
            r is Some ==> self.current < usize::MAX,
    {
        if self.current >= self.tokens.len() {
            return None;
        }
        Some(self.tokens[self.current]._type)
    }

    /// Whether the next token is of kind `kind`.
    fn is_at(&self, kind: TokenType) -> (r: bool)
        ensures
            r == (kind_at(self.stream(), self.current as int) == Some(kind)),
            r ==> self.current < usize::MAX,
    {
        self.current < self.tokens.len() && self.tokens[self.current]._type == kind
    }

    /// Whether the next token is the keyword `word`.
    fn keyword_here(&self, word: &str) -> (r: bool)
        ensures
            r == keyword_at(self.stream(), self.current as int, word@),
            r ==> self.current < usize::MAX,
    {
        self.current < self.tokens.len() && self.tokens[self.current]._type == TokenType::Keyword
            && same_text(self.tokens[self.current].value.as_str(), word)
    }

    /// Reads a token of the kind `token_type`.
    pub fn eat(&mut self, token_type: TokenType) -> (r: Result<Token, ParseError>)
        ensures
            final(self).tokens == old(self).tokens,
            final(self).ast == old(self).ast,
            match expect(old(self).stream(), old(self).current as int, token_type) {
                Ok(next) => r is Ok && r->Ok_0@ == old(self).stream()[old(self).current as int]
                    && final(self).current == next && next <= old(self).tokens@.len(),
                Err(e) => r == Err::<Token, ParseError>(e) && final(self).current == old(self).current,
            },
    {
        match self.peekType() {
            Some(found) => {
                if found != token_type {
                    return Err(ParseError::Expected { expected: token_type, index: self.current });
                }
                self.current += 1;
                Ok(self.tokens[self.current - 1].clone())
            },
            None => Err(ParseError::UnexpectedEnd { index: self.current }),
        }
    }

    /// Reads an identifier and gives its name.
    fn name(&mut self) -> (r: Result<String, ParseError>)
        ensures
            final(self).tokens == old(self).tokens,
            final(self).ast == old(self).ast,
            match expect(old(self).stream(), old(self).current as int, TokenType::Identifier) {
                Ok(next) => r is Ok && r->Ok_0@ == old(self).stream()[old(self).current as int].lexeme && final(self).current == next && next <= old(self).tokens@.len(),
                Err(e) => r == Err::<String, ParseError>(e) && final(self).current == old(self).current,
            },
    {
        match self.eat(TokenType::Identifier) {
            Ok(token) => Ok(token.value),
            Err(e) => Err(e),
        }
    }

    /// The next token, if it is the keyword `keyword`.
    #[allow(non_snake_case)]
    fn peekKeyword(&self, keyword: &str) -> (r: Option<Token>)
        ensures
            match r {
                Some(t) => keyword_at(self.stream(), self.current as int, keyword@) && t@
                    == self.stream()[self.current as int] && self.current < usize::MAX,
                None => !keyword_at(self.stream(), self.current as int, keyword@),
            },
    {
        if self.keyword_here(keyword) {
            self.peek()
        } else {
            None
        }
    }

    /// Reads the keyword `keyword`.
    #[allow(non_snake_case)]
    fn eatKeyword(&mut self, keyword: &str) -> (r: Result<Token, ParseError>)
        ensures
            final(self).tokens == old(self).tokens,
            final(self).ast == old(self).ast,
            match expect_keyword(old(self).stream(), old(self).current as int, keyword@) {
                Ok(next) => r is Ok && r->Ok_0@ == old(self).stream()[old(self).current as int]
                    && final(self).current == next && next <= old(self).tokens@.len(),
                Err(e) => r == Err::<Token, ParseError>(e) && final(self).current == old(self).current,
            },
    {
        if self.current >= self.tokens.len() {
            return Err(ParseError::UnexpectedEnd { index: self.current });
        }
        match self.peekKeyword(keyword) {
            Some(_) => self.eat(TokenType::Keyword),
            None => Err(ParseError::ExpectedKeyword { index: self.current }),
        }
    }

    /// `IDENT (',' IDENT)*`
    #[allow(non_snake_case)]
    fn identifierList(&mut self) -> (r: Result<Vec<String>, ParseError>)
        ensures
            final(self).tokens == old(self).tokens,
            final(self).ast == old(self).ast,
            match ident_list(old(self).stream(), old(self).current as int) {
                Ok((names, next)) => r is Ok && name_views(r->Ok_0@) == names && final(self).current == next && old(self).current < next <= old(self).tokens@.len(),
                Err(e) => r == Err::<Vec<String>, ParseError>(e),
            },
    {
        reveal(ident_list_rest);
        broadcast use group_ast_views;

        let ghost ts = self.stream();
        let ghost start = self.current as int;
        let mut identifiers: Vec<String> = Vec::new();
        match self.name() {
            Ok(first) => {
                identifiers.push(first);
            },
            Err(e) => {
                return Err(e);
            },
        }
        assert(name_views(identifiers@) =~= seq![ts[start].lexeme]);
        while self.is_at(TokenType::Comma)
            invariant
                self.tokens == old(self).tokens,
                self.ast == old(self).ast,
                ts == old(self).stream(),
                start == old(self).current,
                start < self.current <= self.tokens@.len(),
                ident_list(ts, start) == ident_list_rest(
                    ts,
                    self.current as int,
                    name_views(identifiers@),
                ),
            decreases self.tokens@.len() - self.current,
        {
            reveal(ident_list_rest);
            let ghost here = self.current as int;
            let ghost acc = name_views(identifiers@);
            self.current += 1;
            match self.name() {
                Ok(next) => {
                    assert(ident_list_rest(ts, here, acc) == ident_list_rest(
                        ts,
                        here + 2,
                        acc.push(next@),
                    ));
                    identifiers.push(next);
                    assert(name_views(identifiers@) == acc.push(next@));
                },
                Err(e) => {
                    return Err(e);
                },
            }
        }
        Ok(identifiers)
    }

    /// A literal, a name, an array, a parenthesized expression or a record
    /// construction.
    pub fn simple(&mut self) -> (r: Result<Ast, ParseError>)
        ensures
            yields(
                *old(self),
                *final(self),
                r,
                parse_simple(old(self).stream(), old(self).current as int),
            ),
        decreases old(self).tokens@.len() - old(self).current, 2int,
    {
        reveal(parse_simple);
        reveal(parse_expr_list);
        reveal(parse_expr);
        reveal(parse_instance);
        broadcast use group_ast_views;

        if self.current >= self.tokens.len() {
            return Err(ParseError::UnexpectedEnd { index: self.current });
        }
        let at: usize = self.current;
        match self.tokens[at]._type {
            TokenType::String | TokenType::Number | TokenType::Boolean => {
                let content = self.tokens[at].content.clone();
                self.current = at + 1;
                Ok(Ast::Literal(Literal { content }))
            },
            TokenType::LeftBracket => {
                self.current = at + 1;
                if self.is_at(TokenType::RightBracket) {
                    self.current = at + 2;
                    Ok(Ast::Array(Array { content: Vec::new() }))
                } else {
                    match self.exprList() {
                        Err(e) => Err(e),
                        Ok(items) => match self.eat(TokenType::RightBracket) {
                            Err(e) => Err(e),
                            Ok(_) => Ok(Ast::Array(Array { content: items })),
                        },
                    }
                }
            },
            TokenType::Identifier => {
                let name = self.tokens[at].value.clone();
                self.current = at + 1;
                Ok(Ast::Var(name, None))
            },
            TokenType::LeftParen => {
                self.current = at + 1;
                match self.expr() {
                    Err(e) => Err(e),
                    Ok(inner) => match self.eat(TokenType::RightParen) {
                        Err(e) => Err(e),
                        Ok(_) => Ok(inner),
                    },
                }
            },
            TokenType::Keyword => {
                if same_text(self.tokens[at].value.as_str(), "prep") {
                    self.current = at + 1;
                    self.instance()
                } else {
                    Err(ParseError::UnexpectedKeyword { index: at })
                }
            },
            _ => Err(ParseError::UnexpectedToken { index: at }),
        }
    }

    /// A record construction, behind `prep`.
    fn instance(&mut self) -> (r: Result<Ast, ParseError>)
        requires
            0 < old(self).current,
        ensures
            final(self).tokens == old(self).tokens,
            final(self).ast == old(self).ast,
            match parse_instance(old(self).stream(), old(self).current as int) {
                Ok((node, next)) => r is Ok && r->Ok_0@ == node && final(self).current == next
                    && old(self).current < next <= old(self).tokens@.len() && well_formed(node),
                Err(e) => r == Err::<Ast, ParseError>(e),
            },
        decreases old(self).tokens@.len() - old(self).current, 1int,
    {
        reveal(parse_instance);
        reveal(parse_members);
        reveal(parse_expr);
        broadcast use group_ast_views;

        let ghost ts = self.stream();
        let id = match self.name() {
            Ok(id) => id,
            Err(e) => {
                return Err(e);
            },
        };
        match self.eat(TokenType::LeftParen) {
            Ok(_) => {},
            Err(e) => {
                return Err(e);
            },
        }
        let mut members: Vec<(String, Ast)> = Vec::new();
        if self.is_at(TokenType::RightParen) {
            self.current += 1;
            return Ok(Ast::Instance(id, members));
        }
        let ghost start = self.current as int;
        let ghost name = id@;
        let mut more = true;
        while more
            invariant
                self.tokens == old(self).tokens,
                self.ast == old(self).ast,
                ts == old(self).stream(),
                name == id@,
                old(self).current < start <= self.current <= self.tokens@.len(),
                parse_instance(ts, old(self).current as int) == (match parse_members(
                    ts,
                    start,
                    Seq::empty(),
                ) {
                    Err(e) => Err(e),
                    Ok((members, p)) => match expect(ts, p, TokenType::RightParen) {
                        Err(e) => Err(e),
                        Ok(q) => Ok((AstView::Instance(name, members), q)),
                    },
                }),
                parse_members(ts, start, Seq::empty()) == (if more {
                    parse_members(ts, self.current as int, member_views(members@))
                } else {
                    Ok((member_views(members@), self.current as int))
                }),
                forall|i: int|
                    0 <= i < members@.len() ==> well_formed(
                        (#[trigger] member_views(members@)[i]).1,
                    ),
            decreases self.tokens@.len() - self.current + (if more { 1int } else { 0int }),
        {
            reveal(parse_members);
            reveal(parse_expr);
            let field = match self.name() {
                Ok(field) => field,
                Err(e) => {
                    return Err(e);
                },
            };
            match self.eat(TokenType::Colon) {
                Ok(_) => {},
                Err(e) => {
                    return Err(e);
                },
            }
            let value = match self.expr() {
                Ok(value) => value,
                Err(e) => {
                    return Err(e);
                },
            };
            let ghost before = member_views(members@);
            let ghost fv = field@;
            let ghost vv = value@;
            members.push((field, value));
            assert(member_views(members@) == before.push((fv, vv)));
            assert forall|i: int| 0 <= i < members@.len() implies well_formed(
                (#[trigger] member_views(members@)[i]).1,
            ) by {
                if i < members@.len() - 1 {
                    assert(member_views(members@)[i] == before[i]);
                }
            }
            if self.is_at(TokenType::Comma) {
                self.current += 1;
            } else {
                more = false;
            }
        }
        match self.eat(TokenType::RightParen) {
            Err(e) => Err(e),
            Ok(_) => {
                let node = Ast::Instance(id, members);
                assert(node@ == AstView::Instance(name, member_views(members@)));
                assert(well_formed(node@));
                Ok(node)
            },
        }
    }

    /// One call, indexing or field access behind `target`, if one follows.
    /// Gives the node that stands for both, or `target` back with `false`.
    fn postfix(&mut self, target: Ast) -> (r: Result<(Ast, bool), ParseError>)
        requires
            0 < old(self).current,
            well_formed(target@),
        ensures
            final(self).tokens == old(self).tokens,
            final(self).ast == old(self).ast,
            match postfix(old(self).stream(), old(self).current as int, target@) {
                Err(e) => r == Err::<(Ast, bool), ParseError>(e),
                Ok(None) => r is Ok && !r->Ok_0.1 && r->Ok_0.0@ == target@ && final(self).current
                    == old(self).current,
                Ok(Some((node, next))) => r is Ok && r->Ok_0.1 && r->Ok_0.0@ == node && final(self).current == next && old(self).current < next <= old(self).tokens@.len()
                    && well_formed(node),
            },
        decreases old(self).tokens@.len() - old(self).current, 0int,
    {
        reveal(postfix);
        reveal(parse_expr_list);
        reveal(parse_expr);
        broadcast use group_ast_views;

        let ghost before = target@;
        match self.peekType() {
            None => Err(ParseError::UnexpectedEnd { index: self.current }),
            Some(TokenType::LeftParen) => {
                self.current += 1;
                let args = match self.peekType() {
                    None => {
                        return Err(ParseError::UnexpectedEnd { index: self.current });
                    },
                    Some(TokenType::RightParen) => {
                        self.current += 1;
                        Vec::new()
                    },
                    Some(_) => {
                        let args = match self.exprList() {
                            Ok(args) => args,
                            Err(e) => {
                                return Err(e);
                            },
                        };
                        match self.eat(TokenType::RightParen) {
                            Ok(_) => {},
                            Err(e) => {
                                return Err(e);
                            },
                        }
                        args
                    },
                };
                let ghost given = ast_views(args@);
                assert(all_well_formed(given));
                let node = Ast::Call(Box::new(target), args);
                assert(node@ == AstView::Call(Box::new(before), given));
                assert(well_formed(node@));
                Ok((node, true))
            },
            Some(TokenType::LeftBracket) => {
                self.current += 1;
                let property = match self.expr() {
                    Ok(property) => property,
                    Err(e) => {
                        return Err(e);
                    },
                };
                match self.eat(TokenType::RightBracket) {
                    Ok(_) => {},
                    Err(e) => {
                        return Err(e);
                    },
                }
                let ghost key = property@;
                let node = Ast::Get(Box::new(target), Box::new(property), true);
                assert(node@ == AstView::Get(Box::new(before), Box::new(key), true));
                assert(well_formed(node@));
                Ok((node, true))
            },
            Some(TokenType::Period) => {
                self.current += 1;
                let property = match self.name() {
                    Ok(property) => property,
                    Err(e) => {
                        return Err(e);
                    },
                };
                let ghost field = property@;
                let node = Ast::PointGet(Box::new(target), property);
                assert(node@ == AstView::PointGet(Box::new(before), field));
                assert(well_formed(node@));
                Ok((node, true))
            },
            Some(_) => Ok((target, false)),
        }
    }

    /// A simple expression with the calls, indexings and field accesses that
    /// follow it.
    fn call(&mut self) -> (r: Result<Ast, ParseError>)
        ensures
            yields(
                *old(self),
                *final(self),
                r,
                parse_call(old(self).stream(), old(self).current as int),
            ),
        decreases old(self).tokens@.len() - old(self).current, 3int,
    {
        reveal(parse_call);
        reveal(call_rest);
        reveal(parse_simple);
        reveal(postfix);

        let ghost ts = self.stream();
        let ghost start = self.current as int;
        let mut expr = match self.simple() {
            Ok(expr) => expr,
            Err(e) => {
                return Err(e);
            },
        };
        let mut more = true;
        while more
            invariant
                self.tokens == old(self).tokens,
                self.ast == old(self).ast,
                ts == old(self).stream(),
                start == old(self).current,
                start < self.current <= self.tokens@.len(),
                well_formed(expr@),
                parse_call(ts, start) == (if more {
                    call_rest(ts, self.current as int, expr@)
                } else {
                    Ok((expr@, self.current as int))
                }),
            decreases self.tokens@.len() - self.current + (if more { 1int } else { 0int }),
        {
            reveal(call_rest);
            reveal(postfix);
            match self.postfix(expr) {
                Ok((node, again)) => {
                    expr = node;
                    more = again;
                },
                Err(e) => {
                    return Err(e);
                },
            }
        }
        Ok(expr)
    }

    /// A negation or a call expression.
    fn unary(&mut self) -> (r: Result<Ast, ParseError>)
        ensures
            yields(
                *old(self),
                *final(self),
                r,
                parse_unary(old(self).stream(), old(self).current as int),
            ),
        decreases old(self).tokens@.len() - old(self).current, 4int,
    {
        reveal(parse_unary);
        reveal(parse_call);
        broadcast use group_ast_views;

        match self.peekType() {
            None => Err(ParseError::UnexpectedEnd { index: self.current }),
            Some(TokenType::Not) => {
                self.current += 1;
                match self.unary() {
                    Err(e) => Err(e),
                    Ok(operand) => Ok(Ast::Unary(TokenType::Not, Box::new(operand))),
                }
            },
            Some(_) => self.call(),
        }
    }

    /// An operand and the operators behind it that bind at least as tightly
    /// as `min`, grouped to the left.
    fn binary(&mut self, min: i32) -> (r: Result<Ast, ParseError>)
        ensures
            yields(
                *old(self),
                *final(self),
                r,
                parse_binary(old(self).stream(), old(self).current as int, min as int),
            ),
        decreases old(self).tokens@.len() - old(self).current, 5int,
    {
        reveal(parse_binary);
        reveal(climb);
        reveal(parse_unary);
        broadcast use group_ast_views;

        let ghost ts = self.stream();
        let ghost start = self.current as int;
        let mut left = match self.unary() {
            Ok(left) => left,
            Err(e) => {
                return Err(e);
            },
        };
        let mut more = true;
        while more
            invariant
                self.tokens == old(self).tokens,
                self.ast == old(self).ast,
                ts == old(self).stream(),
                start == old(self).current,
                start < self.current <= self.tokens@.len(),
                well_formed(left@),
                parse_binary(ts, start, min as int) == (if more {
                    climb(ts, self.current as int, left@, min as int)
                } else {
                    Ok((left@, self.current as int))
                }),
            decreases self.tokens@.len() - self.current + (if more { 1int } else { 0int }),
        {
            reveal(parse_binary);
            reveal(climb);
            let ghost here = self.current as int;
            let ghost before = left@;
            match self.peekType() {
                None => {
                    return Err(ParseError::UnexpectedEnd { index: self.current });
                },
                Some(op) => {
                    if op.isOperator() && op.precedence() >= min {
                        self.current += 1;
                        match self.binary(op.precedence() + 1) {
                            Ok(right) => {
                                let ghost operand = right@;
                                proof {
                                    crate::ast::lemma_binary_view(
                                        Box::new(left),
                                        op,
                                        Box::new(right),
                                    );
                                }
                                let node = Ast::Binary(Box::new(left), op, Box::new(right));
                                assert(node@ == AstView::Binary(
                                    Box::new(before),
                                    op,
                                    Box::new(operand),
                                ));
                                assert(well_formed(node@));
                                left = node;
                                assert(climb(ts, here, before, min as int) == climb(
                                    ts,
                                    self.current as int,
                                    left@,
                                    min as int,
                                ));
                            },
                            Err(e) => {
                                return Err(e);
                            },
                        }
                    } else {
                        more = false;
                    }
                },
            }
        }
        Ok(left)
    }

    /// An expression.
    pub fn expr(&mut self) -> (r: Result<Ast, ParseError>)
        ensures
            yields(
                *old(self),
                *final(self),
                r,
                parse_expr(old(self).stream(), old(self).current as int),
            ),
        decreases old(self).tokens@.len() - old(self).current, 6int,
    {
        reveal(parse_expr);
        reveal(parse_binary);
        self.binary(0)
    }

    /// `expr (',' expr)*`
    #[allow(non_snake_case)]
    pub fn exprList(&mut self) -> (r: Result<Vec<Ast>, ParseError>)
        ensures
            yields_list(
                *old(self),
                *final(self),
                r,
                parse_expr_list(old(self).stream(), old(self).current as int),
            ),
        decreases old(self).tokens@.len() - old(self).current, 7int,
    {
        reveal(parse_expr_list);
        reveal(expr_list_rest);
        reveal(parse_expr);
        broadcast use group_ast_views;

        let ghost ts = self.stream();
        let ghost start = self.current as int;
        let mut exprs: Vec<Ast> = Vec::new();
        match self.expr() {
            Ok(first) => {
                assert(ast_views(exprs@.push(first)) =~= seq![first@]);
                exprs.push(first);
            },
            Err(e) => {
                return Err(e);
            },
        }
        while self.is_at(TokenType::Comma)
            invariant
                self.tokens == old(self).tokens,
                self.ast == old(self).ast,
                ts == old(self).stream(),
                start == old(self).current,
                start < self.current <= self.tokens@.len(),
                all_well_formed(ast_views(exprs@)),
                parse_expr_list(ts, start) == expr_list_rest(
                    ts,
                    self.current as int,
                    ast_views(exprs@),
                ),
            decreases self.tokens@.len() - self.current,
        {
            reveal(expr_list_rest);
            reveal(parse_expr);
            let ghost here = self.current as int;
            let ghost acc = ast_views(exprs@);
            self.current += 1;
            match self.expr() {
                Ok(next) => {
                    assert(expr_list_rest(ts, here, acc) == expr_list_rest(
                        ts,
                        self.current as int,
                        acc.push(next@),
                    ));
                    exprs.push(next);
                    assert(ast_views(exprs@) == acc.push(next@));
                    assert(all_well_formed(ast_views(exprs@)));
                },
                Err(e) => {
                    return Err(e);
                },
            }
        }
        Ok(exprs)
    }

    /// `'{' stmt* '}'`
    fn block(&mut self) -> (r: Result<Vec<Ast>, ParseError>)
        requires
            0 < old(self).current,
        ensures
            yields_list(
                *old(self),
                *final(self),
                r,
                parse_block(old(self).stream(), old(self).current as int),
            ),
        decreases old(self).tokens@.len() - old(self).current, 8int,
    {
        reveal(parse_block);
        reveal(block_rest);
        reveal(parse_stmt);
        broadcast use group_ast_views;

        let ghost ts = self.stream();
        let ghost start = self.current as int;
        match self.eat(TokenType::LeftBrace) {
            Ok(_) => {},
            Err(e) => {
                return Err(e);
            },
        }
        let mut body: Vec<Ast> = Vec::new();
        loop
            invariant
                self.tokens == old(self).tokens,
                self.ast == old(self).ast,
                ts == old(self).stream(),
                start == old(self).current,
                start < self.current,
                all_well_formed(ast_views(body@)),
                parse_block(ts, start) == block_rest(ts, self.current as int, ast_views(body@)),
            decreases self.tokens@.len() - self.current,
        {
            reveal(block_rest);
            reveal(parse_stmt);
            match self.peekType() {
                None => {
                    return Err(ParseError::UnexpectedEnd { index: self.current });
                },
                Some(TokenType::RightBrace) => {
                    self.current += 1;
                    return Ok(body);
                },
                Some(_) => {
                    let ghost here = self.current as int;
                    let ghost acc = ast_views(body@);
                    match self.stmt() {
                        Ok(s) => {
                            assert(block_rest(ts, here, acc) == block_rest(
                                ts,
                                self.current as int,
                                acc.push(s@),
                            ));
                            body.push(s);
                            assert(ast_views(body@) == acc.push(s@));
                            assert(all_well_formed(ast_views(body@)));
                        },
                        Err(e) => {
                            return Err(e);
                        },
                    }
                },
            }
        }
    }

    /// A function declaration.
    #[allow(non_snake_case)]
    fn funcStmt(&mut self) -> (r: Result<Ast, ParseError>)
        ensures
            yields(
                *old(self),
                *final(self),
                r,
                behind_keyword(
                    old(self).stream(),
                    old(self).current as int,
                    "sketch"@,
                    parse_func(old(self).stream(), old(self).current + 1),
                ),
            ),
        decreases old(self).tokens@.len() - old(self).current, 7int,
    {
        reveal(parse_func);
        reveal(parse_block);
        broadcast use group_ast_views;

        match self.eatKeyword("sketch") {
            Ok(_) => {},
            Err(e) => {
                return Err(e);
            },
        }
        let name = match self.name() {
            Ok(name) => name,
            Err(e) => {
                return Err(e);
            },
        };
        let mut params: Vec<String> = Vec::new();
        if self.peekKeyword("needs").is_some() {
            self.current += 1;
            match self.eat(TokenType::LeftParen) {
                Ok(_) => {},
                Err(e) => {
                    return Err(e);
                },
            }
            params = match self.identifierList() {
                Ok(params) => params,
                Err(e) => {
                    return Err(e);
                },
            };
            match self.eat(TokenType::RightParen) {
                Ok(_) => {},
                Err(e) => {
                    return Err(e);
                },
            }
        }
        match self.block() {
            Err(e) => Err(e),
            Ok(body) => Ok(Ast::Func(name, params, body)),
        }
    }

    /// `finished expr`
    #[allow(non_snake_case)]
    fn returnStmt(&mut self) -> (r: Result<Ast, ParseError>)
        ensures
            yields(
                *old(self),
                *final(self),
                r,
                behind_keyword(
                    old(self).stream(),
                    old(self).current as int,
                    "finished"@,
                    match parse_expr(old(self).stream(), old(self).current + 1) {
                        Err(e) => Err(e),
                        Ok((e, p)) => Ok((AstView::Return(Box::new(e)), p)),
                    },
                ),
            ),
        decreases old(self).tokens@.len() - old(self).current, 7int,
    {
        broadcast use group_ast_views;

        match self.eatKeyword("finished") {
            Ok(_) => {},
            Err(e) => {
                return Err(e);
            },
        }
        match self.expr() {
            Err(e) => Err(e),
            Ok(value) => Ok(Ast::Return(Box::new(value))),
        }
    }

    /// A bounded loop.
    #[allow(non_snake_case)]
    fn forStmt(&mut self) -> (r: Result<Ast, ParseError>)
        ensures
            yields(
                *old(self),
                *final(self),
                r,
                behind_keyword(
                    old(self).stream(),
                    old(self).current as int,
                    "loop"@,
                    parse_for(old(self).stream(), old(self).current + 1),
                ),
            ),
        decreases old(self).tokens@.len() - old(self).current, 7int,
    {
        reveal(parse_for);
        reveal(parse_expr_list);
        reveal(parse_block);
        broadcast use group_ast_views;

        match self.eatKeyword("loop") {
            Ok(_) => {},
            Err(e) => {
                return Err(e);
            },
        }
        let id = match self.name() {
            Ok(id) => id,
            Err(e) => {
                return Err(e);
            },
        };
        match self.eatKeyword("through") {
            Ok(_) => {},
            Err(e) => {
                return Err(e);
            },
        }
        match self.eat(TokenType::LeftParen) {
            Ok(_) => {},
            Err(e) => {
                return Err(e);
            },
        }
        let range = match self.exprList() {
            Ok(range) => range,
            Err(e) => {
                return Err(e);
            },
        };
        if range.len() != 2 {
            return Err(ParseError::RangeArity { index: self.current });
        }
        match self.eat(TokenType::RightParen) {
            Ok(_) => {},
            Err(e) => {
                return Err(e);
            },
        }
        match self.block() {
            Err(e) => Err(e),
            Ok(body) => Ok(Ast::For(id, range, body)),
        }
    }

    /// A conditional loop.
    #[allow(non_snake_case)]
    fn whileStmt(&mut self) -> (r: Result<Ast, ParseError>)
        ensures
            yields(
                *old(self),
                *final(self),
                r,
                behind_keyword(
                    old(self).stream(),
                    old(self).current as int,
                    "while"@,
                    parse_while(old(self).stream(), old(self).current + 1),
                ),
            ),
        decreases old(self).tokens@.len() - old(self).current, 7int,
    {
        reveal(parse_while);
        reveal(parse_expr);
        reveal(parse_block);
        broadcast use group_ast_views;

        match self.eatKeyword("while") {
            Ok(_) => {},
            Err(e) => {
                return Err(e);
            },
        }
        match self.eat(TokenType::LeftParen) {
            Ok(_) => {},
            Err(e) => {
                return Err(e);
            },
        }
        let condition = match self.expr() {
            Ok(condition) => condition,
            Err(e) => {
                return Err(e);
            },
        };
        match self.eat(TokenType::RightParen) {
            Ok(_) => {},
            Err(e) => {
                return Err(e);
            },
        }
        match self.block() {
            Err(e) => Err(e),
            Ok(body) => Ok(Ast::While(Box::new(condition), body)),
        }
    }

    /// A clause that starts with `keyword` (`if`, `elif` or `else`), with the
    /// clauses that follow it.
    #[allow(non_snake_case)]
    fn conditionalStmt(&mut self, keyword: &str) -> (r: Result<Ast, ParseError>)
        ensures
            yields(
                *old(self),
                *final(self),
                r,
                behind_keyword(
                    old(self).stream(),
                    old(self).current as int,
                    keyword@,
                    parse_conditional(
                        old(self).stream(),
                        old(self).current + 1,
                        keyword@ != "else"@,
                    ),
                ),
            ),
        decreases old(self).tokens@.len() - old(self).current, 7int,
    {
        reveal(parse_conditional);
        reveal(parse_condition);
        reveal(parse_expr);
        reveal(parse_block);
        broadcast use group_ast_views;

        match self.eatKeyword(keyword) {
            Ok(_) => {},
            Err(e) => {
                return Err(e);
            },
        }
        let condition = if !same_text(keyword, "else") {
            match self.eat(TokenType::LeftParen) {
                Ok(_) => {},
                Err(e) => {
                    return Err(e);
                },
            }
            let condition = match self.expr() {
                Ok(condition) => condition,
                Err(e) => {
                    return Err(e);
                },
            };
            match self.eat(TokenType::RightParen) {
                Ok(_) => {},
                Err(e) => {
                    return Err(e);
                },
            }
            condition
        } else {
            Ast::Literal(Literal { content: TokenContentType::Boolean(true) })
        };
        let body = match self.block() {
            Ok(body) => body,
            Err(e) => {
                return Err(e);
            },
        };
        if self.current >= self.tokens.len() {
            return Err(ParseError::UnexpectedEnd { index: self.current });
        }
        let mut otherwise: Vec<Ast> = Vec::new();
        proof {
            reveal_strlit("else");
            reveal_strlit("elif");
            assert("elif"@ != "else"@) by {
                assert("elif"@[2] != "else"@[2]);
            }
        }
        if self.keyword_here("else") {
            match self.conditionalStmt("else") {
                Ok(next) => {
                    assert(ast_views(otherwise@.push(next)) =~= seq![next@]);
                    otherwise.push(next);
                },
                Err(e) => {
                    return Err(e);
                },
            }
        } else if self.keyword_here("elif") {
            match self.conditionalStmt("elif") {
                Ok(next) => {
                    assert(ast_views(otherwise@.push(next)) =~= seq![next@]);
                    otherwise.push(next);
                },
                Err(e) => {
                    return Err(e);
                },
            }
        }
        let ghost cv = condition@;
        let ghost bv = ast_views(body@);
        let ghost ov = ast_views(otherwise@);
        let node = Ast::Conditional(Box::new(condition), body, otherwise);
        assert(node@ == AstView::Conditional(Box::new(cv), bv, ov));
        assert(well_formed(cv));
        assert(all_well_formed(ov));
        assert(well_formed(node@));
        Ok(node)
    }

    /// A binding or a field assignment.
    #[allow(non_snake_case)]
    fn assignStmt(&mut self) -> (r: Result<Ast, ParseError>)
        ensures
            yields(
                *old(self),
                *final(self),
                r,
                behind_keyword(
                    old(self).stream(),
                    old(self).current as int,
                    "prepare"@,
                    parse_assign(old(self).stream(), old(self).current + 1),
                ),
            ),
        decreases old(self).tokens@.len() - old(self).current, 7int,
    {
        reveal(parse_assign);
        reveal(parse_expr);
        broadcast use group_ast_views;

        match self.eatKeyword("prepare") {
            Ok(_) => {},
            Err(e) => {
                return Err(e);
            },
        }
        let name = match self.name() {
            Ok(name) => name,
            Err(e) => {
                return Err(e);
            },
        };
        match self.peekType() {
            None => Err(ParseError::UnexpectedEnd { index: self.current }),
            Some(TokenType::Period) => {
                self.current += 1;
                let property = match self.name() {
                    Ok(property) => property,
                    Err(e) => {
                        return Err(e);
                    },
                };
                match self.eatKeyword("as") {
                    Ok(_) => {},
                    Err(e) => {
                        return Err(e);
                    },
                }
                match self.expr() {
                    Err(e) => Err(e),
                    Ok(value) => Ok(Ast::SetField(name, property, Box::new(value))),
                }
            },
            Some(_) => {
                match self.eatKeyword("as") {
                    Ok(_) => {},
                    Err(e) => {
                        return Err(e);
                    },
                }
                match self.expr() {
                    Err(e) => Err(e),
                    Ok(value) => Ok(Ast::Var(name, Some(Box::new(value)))),
                }
            },
        }
    }

    /// A record declaration.
    #[allow(non_snake_case)]
    fn structStmt(&mut self) -> (r: Result<Ast, ParseError>)
        ensures
            yields(
                *old(self),
                *final(self),
                r,
                behind_keyword(
                    old(self).stream(),
                    old(self).current as int,
                    "brush"@,
                    parse_struct(old(self).stream(), old(self).current + 1),
                ),
            ),
    {
        reveal(parse_struct);
        broadcast use group_ast_views;

        match self.eatKeyword("brush") {
            Ok(_) => {},
            Err(e) => {
                return Err(e);
            },
        }
        let name = match self.name() {
            Ok(name) => name,
            Err(e) => {
                return Err(e);
            },
        };
        match self.eatKeyword("has") {
            Ok(_) => {},
            Err(e) => {
                return Err(e);
            },
        }
        match self.eat(TokenType::LeftBrace) {
            Ok(_) => {},
            Err(e) => {
                return Err(e);
            },
        }
        let members = match self.identifierList() {
            Ok(members) => members,
            Err(e) => {
                return Err(e);
            },
        };
        match self.eat(TokenType::RightBrace) {
            Err(e) => Err(e),
            Ok(_) => Ok(Ast::Struct(name, members)),
        }
    }

    /// A statement.
    pub fn stmt(&mut self) -> (r: Result<Ast, ParseError>)
        ensures
            yields(
                *old(self),
                *final(self),
                r,
                parse_stmt(old(self).stream(), old(self).current as int),
            ),
        decreases old(self).tokens@.len() - old(self).current, 10int,
    {
        reveal(parse_stmt);
        reveal(parse_func);
        reveal(parse_expr);
        reveal(parse_for);
        reveal(parse_while);
        reveal(parse_conditional);
        reveal(parse_assign);
        broadcast use group_ast_views;

        if self.current >= self.tokens.len() {
            return Err(ParseError::UnexpectedEnd { index: self.current });
        }
        let at: usize = self.current;
        if self.tokens[at]._type == TokenType::Keyword {
            if self.keyword_here("sketch") {
                self.funcStmt()
            } else if self.keyword_here("finished") {
                self.returnStmt()
            } else if self.keyword_here("loop") {
                self.forStmt()
            } else if self.keyword_here("while") {
                self.whileStmt()
            } else if self.keyword_here("if") {
                proof {
                    reveal_strlit("else");
                    reveal_strlit("if");
                    assert("if"@.len() != "else"@.len());
                }
                self.conditionalStmt("if")
            } else if self.keyword_here("prepare") {
                self.assignStmt()
            } else if self.keyword_here("brush") {
                self.structStmt()
            } else {
                Err(ParseError::UnexpectedKeyword { index: at })
            }
        } else {
            self.expr()
        }
    }

    /// Whether a statement follows: the stream goes on with a token other than
    /// the end-of-text token.
    fn more(&self) -> (r: bool)
        ensures
            r == (kind_at(self.stream(), self.current as int) is Some && kind_at(
                self.stream(),
                self.current as int,
            ) != Some(TokenType::EOF)),
    {
        self.current < self.tokens.len() && self.tokens[self.current]._type != TokenType::EOF
    }

    /// Parses statements up to the end-of-text token, adds them to `ast`,
    /// and hands back all of `ast`.
    pub fn parse(&mut self) -> (r: Result<Vec<Ast>, ParseError>)
        ensures
            final(self).tokens == old(self).tokens,
            match parse_program(
                old(self).stream(),
                old(self).current as int,
                ast_views(old(self).ast@),
            ) {
                Ok(program) => r is Ok && ast_views(r->Ok_0@) == program && ast_views(
                    final(self).ast@,
                ) == program && (all_well_formed(ast_views(old(self).ast@)) ==> all_well_formed(
                    program,
                )),
                Err(e) => r == Err::<Vec<Ast>, ParseError>(e),
            },
    {
        reveal(parse_program);
        broadcast use group_ast_views;

        let ghost ts = self.stream();
        let ghost start = self.current as int;
        let ghost given = ast_views(self.ast@);
        while self.more()
            invariant
                self.tokens == old(self).tokens,
                ts == old(self).stream(),
                start == old(self).current,
                given == ast_views(old(self).ast@),
                all_well_formed(given) ==> all_well_formed(ast_views(self.ast@)),
                parse_program(ts, start, given) == parse_program(
                    ts,
                    self.current as int,
                    ast_views(self.ast@),
                ),
            decreases self.tokens@.len() - self.current,
        {
            reveal(parse_program);
            let ghost so_far = ast_views(self.ast@);
            match self.stmt() {
                Ok(s) => {
                    self.ast.push(s);
                    assert(ast_views(self.ast@) == so_far.push(s@));
                    proof {
                        if all_well_formed(so_far) {
                            assert forall|i: int| 0 <= i < so_far.len() + 1 implies well_formed(
                                #[trigger] so_far.push(s@)[i],
                            ) by {
                                if i < so_far.len() {
                                    assert(well_formed(so_far[i]));
                                }
                            }
                        }
                    }
                },
                Err(e) => {
                    return Err(e);
                },
            }
        }
        Ok(crate::ast::copy_asts(&self.ast))
    }
}

} // verus!
