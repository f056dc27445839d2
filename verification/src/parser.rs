//! Expression trees, the parser that builds them from tokens, and their
//! rendering as text.

use vstd::prelude::*;
use crate::grammar::{
    dump, kind_at, lemma_chain_first, lemma_chain_next, next_boundary, parse_expression,
    parse_rest, parse_rule, resume_point, width, ExprView, Failure, Level, Rule,
};
use crate::scanner::{token_views, Token, TokenKind, TokenView};

verus! {

/// Why a sequence of tokens is no expression.
#[derive(PartialEq, Eq, Structural, Debug, Clone, Copy)]
pub enum ParseError {
    /// The expression after a `(` has no `)` after it.
    MissingParenthesis,
    /// An operand is due and the token begins none.
    UnexpectedToken,
}

/// An expression tree. Each node owns its tokens and its children.
#[derive(PartialEq, Debug)]
pub enum Expr {
    Literal(Token),
    Unary(Token, Box<Expr>),
    Binary(Box<Expr>, Token, Box<Expr>),
    Grouping(Box<Expr>),
}

/// The mathematical content of an expression tree.
pub open spec fn tree_of(expr: Expr) -> ExprView
    decreases expr,
{
    match expr {
        Expr::Literal(token) => ExprView::Literal(token@),
        Expr::Unary(operator, operand) => ExprView::Unary(operator@, Box::new(tree_of(*operand))),
        Expr::Binary(left, operator, right) => ExprView::Binary(
            Box::new(tree_of(*left)),
            operator@,
            Box::new(tree_of(*right)),
        ),
        Expr::Grouping(inner) => ExprView::Grouping(Box::new(tree_of(*inner))),
    }
}

impl View for Expr {
    type V = ExprView;

    open spec fn view(&self) -> ExprView {
        tree_of(*self)
    }
}

/// Reads a sequence of tokens as an expression.
pub struct Parser {
    pub tokens: Vec<Token>,
    /// The index of the next token to read.
    pub current: usize,
}

impl Parser {
    /// What the parser reads: the views of its tokens.
    pub open spec fn input(&self) -> Seq<TokenView> {
        token_views(self.tokens@)
    }

    /// The tokens end with an `Eof`, and the cursor is at a token.
    pub open spec fn wf(&self) -> bool {
        &&& self.current < self.tokens.len()
        &&& self.tokens@.last().kind is Eof
    }

    /// A rule has finished: the parser, which was `before`, holds the same
    /// tokens, `result` is what `outcome` says, and the cursor stands after
    /// the tree, or at the token at which the rule failed.
    pub open spec fn parsed(
        &self,
        before: &Parser,
        result: Result<Expr, ParseError>,
        outcome: Result<ExprView, Failure>,
    ) -> bool {
        &&& self.wf()
        &&& self.tokens == before.tokens
        &&& match result {
            Ok(expr) => {
                &&& outcome == Ok::<ExprView, Failure>(expr@)
                &&& self.current == before.current + width(expr@)
            },
            Err(error) => outcome == Err::<ExprView, Failure>(
                Failure { error, at: self.current as int },
            ),
        }
    }

    /// A parser on these tokens, with its cursor at the first of them.
    pub fn new(tokens: Vec<Token>) -> (parser: Parser)
        ensures
            parser.tokens == tokens,
            parser.current == 0,
    {
        Parser { tokens: tokens, current: 0 }
    }

    /// Reads one expression from the cursor on, as far as it reaches. The
    /// cursor ends after the expression, or at the token at which the first
    /// error was met.
    pub fn parse(&mut self) -> (result: Result<Expr, ParseError>)
        requires
            old(self).wf(),
        ensures
            final(self).parsed(
                old(self),
                result,
                parse_expression(old(self).input(), old(self).current as int),
            ),
    {
        self.expression()
    }

    fn is_at_end(&self) -> (at_end: bool)
        requires
            self.wf(),
        ensures
            at_end == (kind_at(self.input(), self.current as int) is Eof),
    {
        match self.peek().kind {
            TokenKind::Eof => true,
            _ => false,
        }
    }

    /// The token at the cursor.
    fn peek(&self) -> (token: &Token)
        requires
            self.wf(),
        ensures
            token@ == self.input()[self.current as int],
            token@.kind == kind_at(self.input(), self.current as int),
    {
        &self.tokens[self.current]
    }

    /// The token before the cursor.
    fn previous(&self) -> (token: &Token)
        requires
            self.wf(),
            self.current > 0,
        ensures
            token@ == self.input()[self.current - 1],
    {
        &self.tokens[self.current - 1]
    }

    /// Moves the cursor after the token that it is at, unless that is the
    /// closing `Eof`.
    fn advance(&mut self)
        requires
            old(self).wf(),
        ensures
            final(self).wf(),
            final(self).tokens == old(self).tokens,
            final(self).current == if kind_at(old(self).input(), old(self).current as int) is Eof {
                old(self).current as int
            } else {
                old(self).current + 1
            },
    {
        if !self.is_at_end() {
            self.current = self.current + 1;
        }
    }

    /// Reads the token at the cursor if it is of this kind.
    fn consume(&mut self, kind: TokenKind) -> (token: Option<Token>)
        requires
            old(self).wf(),
            !(kind@ is Eof),
        ensures
            final(self).wf(),
            final(self).tokens == old(self).tokens,
            match token {
                Some(token) => {
                    &&& kind_at(old(self).input(), old(self).current as int) == kind@
                    &&& token@ == old(self).input()[old(self).current as int]
                    &&& final(self).current == old(self).current + 1
                },
                None => {
                    &&& kind_at(old(self).input(), old(self).current as int) != kind@
                    &&& final(self).current == old(self).current
                },
            },
    {
        if self.peek().kind == kind {
            self.advance();
            Some(self.previous().clone())
        } else {
            None
        }
    }

    /// Reads the token at the cursor if its kind is one of these.
    fn match_any_of(&mut self, kinds: &[TokenKind]) -> (matched: bool)
        requires
            old(self).wf(),
            forall|i: int| 0 <= i < kinds@.len() ==> !(#[trigger] kinds@[i]@ is Eof),
        ensures
            final(self).wf(),
            final(self).tokens == old(self).tokens,
            matched == exists|i: int|
                0 <= i < kinds@.len() && #[trigger] kinds@[i]@ == kind_at(
                    old(self).input(),
                    old(self).current as int,
                ),
            final(self).current == if matched {
                old(self).current + 1
            } else {
                old(self).current as int
            },
    {
        let mut i: usize = 0;
        while i < kinds.len()
            invariant
                i <= kinds@.len(),
                self.wf(),
                *self == *old(self),
                forall|j: int|
                    0 <= j < i ==> #[trigger] kinds@[j]@ != kind_at(
                        self.input(),
                        self.current as int,
                    ),
                forall|j: int| 0 <= j < kinds@.len() ==> !(#[trigger] kinds@[j]@ is Eof),
            decreases kinds.len() - i,
        {
            if self.peek().kind == kinds[i] {
                self.advance();
                return true;
            }
            i += 1;
        }
        false
    }

    fn expression(&mut self) -> (result: Result<Expr, ParseError>)
        requires
            old(self).wf(),
        ensures
            final(self).parsed(
                old(self),
                result,
                parse_expression(old(self).input(), old(self).current as int),
            ),
        decreases old(self).tokens.len() - old(self).current, 6nat,
    {
        self.equality()
    }

    fn equality(&mut self) -> (result: Result<Expr, ParseError>)
        requires
            old(self).wf(),
        ensures
            final(self).parsed(
                old(self),
                result,
                parse_rule(
                    old(self).input(),
                    old(self).current as int,
                    Rule::Binary(Level::Equality),
                ),
            ),
        decreases old(self).tokens.len() - old(self).current, 5nat,
    {
        let ghost tokens = self.input();
        let ghost whole = parse_rule(tokens, self.current as int, Rule::Binary(Level::Equality));
        proof {
            lemma_chain_first(tokens, self.current as int, Level::Equality);
        }
        let mut expr = self.comparison()?;

        // as long as an operator of the rule follows, it joins what has been
        // read to the operand after it
        loop
            invariant
                self.wf(),
                self.tokens == old(self).tokens,
                tokens == self.input(),
                self.current == old(self).current + width(expr@),
                whole == parse_rule(
                    tokens,
                    old(self).current as int,
                    Rule::Binary(Level::Equality),
                ),
                whole == parse_rest(tokens, self.current as int, Level::Equality, expr@),
            ensures
                whole == Ok::<ExprView, Failure>(expr@),
            decreases self.tokens.len() - self.current,
        {
            if !self.match_any_of(&[TokenKind::BangEqual, TokenKind::EqualEqual]) {
                break ;
            }
            let operator = self.previous().clone();
            proof {
                lemma_chain_next(tokens, self.current - 1, Level::Equality, expr@);
            }
            let right = self.comparison()?;
            expr = Expr::Binary(Box::new(expr), operator, Box::new(right));
        }

        Ok(expr)
    }

    fn comparison(&mut self) -> (result: Result<Expr, ParseError>)
        requires
            old(self).wf(),
        ensures
            final(self).parsed(
                old(self),
                result,
                parse_rule(
                    old(self).input(),
                    old(self).current as int,
                    Rule::Binary(Level::Comparison),
                ),
            ),
        decreases old(self).tokens.len() - old(self).current, 4nat,
    {
        let ghost tokens = self.input();
        let ghost whole = parse_rule(tokens, self.current as int, Rule::Binary(Level::Comparison));
        proof {
            lemma_chain_first(tokens, self.current as int, Level::Comparison);
        }
        let mut expr = self.addition()?;

        loop
            invariant
                self.wf(),
                self.tokens == old(self).tokens,
                tokens == self.input(),
                self.current == old(self).current + width(expr@),
                whole == parse_rule(
                    tokens,
                    old(self).current as int,
                    Rule::Binary(Level::Comparison),
                ),
                whole == parse_rest(tokens, self.current as int, Level::Comparison, expr@),
            ensures
                whole == Ok::<ExprView, Failure>(expr@),
            decreases self.tokens.len() - self.current,
        {
            if !self.match_any_of(
                &[
                    TokenKind::Greater,
                    TokenKind::GreaterEqual,
                    TokenKind::Less,
                    TokenKind::LessEqual,
                ],
            ) {
                break ;
            }
            let operator = self.previous().clone();
            proof {
                lemma_chain_next(tokens, self.current - 1, Level::Comparison, expr@);
            }
            let right = self.addition()?;
            expr = Expr::Binary(Box::new(expr), operator, Box::new(right));
        }

        Ok(expr)
    }

    fn addition(&mut self) -> (result: Result<Expr, ParseError>)
        requires
            old(self).wf(),
        ensures
            final(self).parsed(
                old(self),
                result,
                parse_rule(
                    old(self).input(),
                    old(self).current as int,
                    Rule::Binary(Level::Addition),
                ),
            ),
        decreases old(self).tokens.len() - old(self).current, 3nat,
    {
        let ghost tokens = self.input();
        let ghost whole = parse_rule(tokens, self.current as int, Rule::Binary(Level::Addition));
        proof {
            lemma_chain_first(tokens, self.current as int, Level::Addition);
        }
        let mut expr = self.multiplication()?;

        loop
            invariant
                self.wf(),
                self.tokens == old(self).tokens,
                tokens == self.input(),
                self.current == old(self).current + width(expr@),
                whole == parse_rule(
                    tokens,
                    old(self).current as int,
                    Rule::Binary(Level::Addition),
                ),
                whole == parse_rest(tokens, self.current as int, Level::Addition, expr@),
            ensures
                whole == Ok::<ExprView, Failure>(expr@),
            decreases self.tokens.len() - self.current,
        {
            if !self.match_any_of(&[TokenKind::Plus, TokenKind::Minus]) {
                break ;
            }
            let operator = self.previous().clone();
            proof {
                lemma_chain_next(tokens, self.current - 1, Level::Addition, expr@);
            }
            let right = self.multiplication()?;
            expr = Expr::Binary(Box::new(expr), operator, Box::new(right));
        }

        Ok(expr)
    }

    fn multiplication(&mut self) -> (result: Result<Expr, ParseError>)
        requires
            old(self).wf(),
        ensures
            final(self).parsed(
                old(self),
                result,
                parse_rule(
                    old(self).input(),
                    old(self).current as int,
                    Rule::Binary(Level::Multiplication),
                ),
            ),
        decreases old(self).tokens.len() - old(self).current, 2nat,
    {
        let ghost tokens = self.input();
        let ghost whole = parse_rule(
            tokens,
            self.current as int,
            Rule::Binary(Level::Multiplication),
        );
        proof {
            lemma_chain_first(tokens, self.current as int, Level::Multiplication);
        }
        let mut expr = self.unary()?;

        loop
            invariant
                self.wf(),
                self.tokens == old(self).tokens,
                tokens == self.input(),
                self.current == old(self).current + width(expr@),
                whole == parse_rule(
                    tokens,
                    old(self).current as int,
                    Rule::Binary(Level::Multiplication),
                ),
                whole == parse_rest(tokens, self.current as int, Level::Multiplication, expr@),
            ensures
                whole == Ok::<ExprView, Failure>(expr@),
            decreases self.tokens.len() - self.current,
        {
            if !self.match_any_of(&[TokenKind::Star, TokenKind::Slash]) {
                break ;
            }
            let operator = self.previous().clone();
            proof {
                lemma_chain_next(tokens, self.current - 1, Level::Multiplication, expr@);
            }
            let right = self.unary()?;
            expr = Expr::Binary(Box::new(expr), operator, Box::new(right));
        }

        Ok(expr)
    }

    fn unary(&mut self) -> (result: Result<Expr, ParseError>)
        requires
            old(self).wf(),
        ensures
            final(self).parsed(
                old(self),
                result,
                parse_rule(old(self).input(), old(self).current as int, Rule::Unary),
            ),
        decreases old(self).tokens.len() - old(self).current, 1nat,
    {
        match self.peek().kind {
            TokenKind::Bang | TokenKind::Minus => {
                self.advance();
                let operator = self.previous().clone();
                let right = self.unary()?;
                Ok(Expr::Unary(operator, Box::new(right)))
            },
            _ => self.primary(),
        }
    }

    fn primary(&mut self) -> (result: Result<Expr, ParseError>)
        requires
            old(self).wf(),
        ensures
            final(self).parsed(
                old(self),
                result,
                parse_rule(old(self).input(), old(self).current as int, Rule::Primary),
            ),
        decreases old(self).tokens.len() - old(self).current, 0nat,
    {
        match self.peek().kind {
            TokenKind::False | TokenKind::True | TokenKind::Nil => {
                self.advance();
                Ok(Expr::Literal(self.previous().clone()))
            },
            TokenKind::Number(_) | TokenKind::String(_) => {
                self.advance();
                Ok(Expr::Literal(self.previous().clone()))
            },
            TokenKind::LeftParen => {
                self.advance();
                let expr = self.expression()?;
                if self.consume(TokenKind::RightParen).is_none() {
                    Err(ParseError::MissingParenthesis)
                } else {
                    Ok(Expr::Grouping(Box::new(expr)))
                }
            },
            _ => Err(ParseError::UnexpectedToken),
        }
    }

    /// After an error, skips the token at the cursor and then all tokens up
    /// to the first boundary, so that parsing can be taken up again there:
    /// just after a semicolon, before a token that can begin a statement,
    /// or at the end.
    pub fn synchronize(&mut self)
        requires
            old(self).wf(),
        ensures
            final(self).wf(),
            final(self).tokens == old(self).tokens,
            final(self).current == resume_point(old(self).input(), old(self).current as int),
    {
        let ghost tokens = self.input();
        self.advance();

        while !self.is_at_end()
            invariant
                self.wf(),
                self.tokens == old(self).tokens,
                tokens == self.input(),
                self.current > 0 || kind_at(tokens, self.current as int) is Eof,
                resume_point(tokens, old(self).current as int) == next_boundary(
                    tokens,
                    self.current as int,
                ),
            decreases self.tokens.len() - self.current,
        {
            match self.previous().kind {
                TokenKind::SemiColon => {
                    return ;
                },
                _ => {},
            }

            match self.peek().kind {
                TokenKind::Class
                | TokenKind::Fun
                | TokenKind::Var
                | TokenKind::For
                | TokenKind::If
                | TokenKind::While
                | TokenKind::Print
                | TokenKind::Return => {
                    return ;
                },
                _ => {},
            }

            self.advance();
        }
    }
}

/// The text of a tree, every node in parentheses.
pub fn ast_dump(expr: &Expr) -> (output: String)
    ensures
        output@ == dump(expr@),
    decreases expr,
{
    let mut output = String::new();
    proof {
        reveal_strlit("(");
        reveal_strlit(")");
    }
    match expr {
        Expr::Literal(token) => {
            output.append("(");
            output.append(token.lexeme.as_str());
            output.append(")");
        },
        Expr::Unary(token, expr) => {
            output.append("(");
            output.append(token.lexeme.as_str());
            output.append(ast_dump(expr).as_str());
            output.append(")");
        },
        Expr::Binary(left, token, right) => {
            output.append("(");
            output.append(ast_dump(left).as_str());
            output.append(token.lexeme.as_str());
            output.append(ast_dump(right).as_str());
            output.append(")");
        },
        Expr::Grouping(expr) => {
            output.append("(");
            output.append(ast_dump(expr).as_str());
            output.append(")");
        },
    };
    assert(output@ =~= dump(expr@));
    output
}

/// Rendering is a function of the tree: two renderings of one tree are the
/// same text.
pub proof fn lemma_ast_dump_repeats(expr: Expr, first: String, second: String)
    requires
        first@ == dump(expr@),
        second@ == dump(expr@),
    ensures
        first@ == second@,
{
}

} // verus!
