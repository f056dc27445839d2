//! The grammar of expressions: what tree a sequence of tokens parses to.
//!
//! ```text
//! expression     → equality
//! equality       → comparison ( ( "!=" | "==" ) comparison )*
//! comparison     → addition ( ( ">" | ">=" | "<" | "<=" ) addition )*
//! addition       → multiplication ( ( "-" | "+" ) multiplication )*
//! multiplication → unary ( ( "/" | "*" ) unary )*
//! unary          → ( "!" | "-" ) unary | primary
//! primary        → NUMBER | STRING | "false" | "true" | "nil" | "(" expression ")"
//! ```
//!
//! The grammar is stated twice. [`parse_rule`] says what each rule reads from
//! a position on: as much as it can, its binary operators associating to the
//! left, up to the first token that does not fit. [`derives`] says when a
//! tree is a derivation of the tokens by a rule. [`lemma_parse_is_derivation`]
//! shows that the two agree.

use vstd::prelude::*;
use crate::parser::ParseError;
use crate::scanner::{KindView, TokenView};

verus! {

/// The mathematical content of an expression tree.
pub enum ExprView {
    Literal(TokenView),
    Unary(TokenView, Box<ExprView>),
    Binary(Box<ExprView>, TokenView, Box<ExprView>),
    Grouping(Box<ExprView>),
}

/// The number of tokens that a tree was parsed from: its literals and
/// operators, and two parentheses for each grouping.
pub open spec fn width(tree: ExprView) -> nat
    decreases tree,
{
    match tree {
        ExprView::Literal(_) => 1,
        ExprView::Unary(_, operand) => 1 + width(*operand),
        ExprView::Binary(left, _, right) => width(*left) + 1 + width(*right),
        ExprView::Grouping(inner) => 2 + width(*inner),
    }
}

/// Why parsing stopped, and the index of the token at which it stopped.
pub struct Failure {
    pub error: ParseError,
    pub at: int,
}

/// The kind of the token at index `pos`; after the last token, `Eof`.
pub open spec fn kind_at(tokens: Seq<TokenView>, pos: int) -> KindView {
    if 0 <= pos < tokens.len() {
        tokens[pos].kind
    } else {
        KindView::Eof
    }
}

/// The rules with binary operators, from the one that binds loosest.
pub enum Level {
    Equality,
    Comparison,
    Addition,
    Multiplication,
}

/// The rules of the grammar, `expression` being `Binary(Level::Equality)`.
pub enum Rule {
    Primary,
    Unary,
    Binary(Level),
}

/// The rule that the operands of the rule `level` are read by.
pub open spec fn operand_rule(level: Level) -> Rule {
    match level {
        Level::Equality => Rule::Binary(Level::Comparison),
        Level::Comparison => Rule::Binary(Level::Addition),
        Level::Addition => Rule::Binary(Level::Multiplication),
        Level::Multiplication => Rule::Unary,
    }
}

/// How many rules lie below a rule.
pub open spec fn depth(rule: Rule) -> nat {
    match rule {
        Rule::Primary => 0,
        Rule::Unary => 1,
        Rule::Binary(Level::Multiplication) => 2,
        Rule::Binary(Level::Addition) => 3,
        Rule::Binary(Level::Comparison) => 4,
        Rule::Binary(Level::Equality) => 5,
    }
}

/// Whether a token of this kind is a binary operator of the rule `level`.
pub open spec fn is_operator(level: Level, kind: KindView) -> bool {
    match level {
        Level::Equality => kind is BangEqual || kind is EqualEqual,
        Level::Comparison => kind is Greater || kind is GreaterEqual || kind is Less
            || kind is LessEqual,
        Level::Addition => kind is Plus || kind is Minus,
        Level::Multiplication => kind is Star || kind is Slash,
    }
}

/// Whether a token of this kind is a literal.
pub open spec fn is_literal(kind: KindView) -> bool {
    kind is False || kind is True || kind is Nil || kind is Number || kind is String
}

/// What `primary` reads from `pos` on: a literal, or an expression in
/// parentheses. Any other token is unexpected, and an expression after a
/// `(` with no `)` after it misses its parenthesis.
pub open spec fn parse_primary(tokens: Seq<TokenView>, pos: int) -> Result<ExprView, Failure>
    decreases tokens.len() - pos, 0nat,
{
    let kind = kind_at(tokens, pos);
    if is_literal(kind) {
        Ok(ExprView::Literal(tokens[pos]))
    } else if kind is LeftParen {
        match parse_rule(tokens, pos + 1, Rule::Binary(Level::Equality)) {
            Ok(inner) => {
                let close = pos + 1 + width(inner);
                if kind_at(tokens, close) is RightParen {
                    Ok(ExprView::Grouping(Box::new(inner)))
                } else {
                    Err(Failure { error: ParseError::MissingParenthesis, at: close })
                }
            },
            Err(failure) => Err(failure),
        }
    } else {
        Err(Failure { error: ParseError::UnexpectedToken, at: pos })
    }
}

/// What `unary` reads from `pos` on: a `!` or a `-` and what `unary` reads
/// after it, or what `primary` reads.
pub open spec fn parse_unary(tokens: Seq<TokenView>, pos: int) -> Result<ExprView, Failure>
    decreases tokens.len() - pos, 1nat,
{
    let kind = kind_at(tokens, pos);
    if kind is Bang || kind is Minus {
        match parse_unary(tokens, pos + 1) {
            Ok(operand) => Ok(ExprView::Unary(tokens[pos], Box::new(operand))),
            Err(failure) => Err(failure),
        }
    } else {
        parse_primary(tokens, pos)
    }
}

/// What `rule` reads from `pos` on.
pub open spec fn parse_rule(tokens: Seq<TokenView>, pos: int, rule: Rule) -> Result<
    ExprView,
    Failure,
>
    decreases tokens.len() - pos, 2 * depth(rule) + 2,
{
    match rule {
        Rule::Primary => parse_primary(tokens, pos),
        Rule::Unary => parse_unary(tokens, pos),
        Rule::Binary(level) => parse_chain(tokens, pos, level, None),
    }
}

/// What the rule `level` reads from `pos` on, where an operand is due.
/// `pending` holds what the rule has read before `pos`, if anything: the
/// tree of the operands so far, and the operator after it. The operand
/// joins that tree as the right operand of that operator; with another
/// operator of the rule after the operand, the rule goes on.
pub open spec fn parse_chain(
    tokens: Seq<TokenView>,
    pos: int,
    level: Level,
    pending: Option<(ExprView, TokenView)>,
) -> Result<ExprView, Failure>
    decreases tokens.len() - pos, 2 * depth(Rule::Binary(level)) + 1,
{
    match parse_rule(tokens, pos, operand_rule(level)) {
        Ok(operand) => {
            let tree = match pending {
                Some((left, operator)) => ExprView::Binary(
                    Box::new(left),
                    operator,
                    Box::new(operand),
                ),
                None => operand,
            };
            let next = pos + width(operand);
            if is_operator(level, kind_at(tokens, next)) {
                parse_chain(tokens, next + 1, level, Some((tree, tokens[next])))
            } else {
                Ok(tree)
            }
        },
        Err(failure) => Err(failure),
    }
}

/// What `expression` reads from `pos` on.
pub open spec fn parse_expression(tokens: Seq<TokenView>, pos: int) -> Result<ExprView, Failure> {
    parse_rule(tokens, pos, Rule::Binary(Level::Equality))
}

/// What the rule `level` gives when it has read `tree` and stands at `next`:
/// with an operator of the rule there, what it gives when it goes on after
/// the operator; with anything else, `tree`.
pub open spec fn parse_rest(
    tokens: Seq<TokenView>,
    next: int,
    level: Level,
    tree: ExprView,
) -> Result<ExprView, Failure> {
    if is_operator(level, kind_at(tokens, next)) {
        parse_chain(tokens, next + 1, level, Some((tree, tokens[next])))
    } else {
        Ok(tree)
    }
}

/// A rule with binary operators reads a first operand and goes on from
/// there.
pub proof fn lemma_chain_first(tokens: Seq<TokenView>, pos: int, level: Level)
    ensures
        parse_rule(tokens, pos, Rule::Binary(level)) == match parse_rule(
            tokens,
            pos,
            operand_rule(level),
        ) {
            Ok(first) => parse_rest(tokens, pos + width(first), level, first),
            Err(failure) => Err(failure),
        },
{
}

/// A rule with binary operators that has read `tree` and stands at one of
/// its operators reads an operand after the operator, joins it to the tree
/// on the right, and goes on from there.
pub proof fn lemma_chain_next(tokens: Seq<TokenView>, next: int, level: Level, tree: ExprView)
    requires
        is_operator(level, kind_at(tokens, next)),
    ensures
        parse_rest(tokens, next, level, tree) == match parse_rule(
            tokens,
            next + 1,
            operand_rule(level),
        ) {
            Ok(right) => parse_rest(
                tokens,
                next + 1 + width(right),
                level,
                ExprView::Binary(Box::new(tree), tokens[next], Box::new(right)),
            ),
            Err(failure) => Err(failure),
        },
{
}

/// Whether `tree` is a derivation of the tokens from `pos` on by `rule`:
/// the tree has a form that the rule allows, and its tokens are the ones
/// that stand there, in their order, a pair of parentheses round each
/// grouping.
pub open spec fn derives(tree: ExprView, rule: Rule, tokens: Seq<TokenView>, pos: int) -> bool
    decreases tree, depth(rule),
{
    match rule {
        Rule::Primary => match tree {
            ExprView::Literal(token) => {
                &&& 0 <= pos < tokens.len()
                &&& tokens[pos] == token
                &&& is_literal(token.kind)
            },
            ExprView::Grouping(inner) => {
                &&& kind_at(tokens, pos) is LeftParen
                &&& derives(*inner, Rule::Binary(Level::Equality), tokens, pos + 1)
                &&& kind_at(tokens, pos + 1 + width(*inner)) is RightParen
            },
            _ => false,
        },
        Rule::Unary => match tree {
            ExprView::Unary(operator, operand) => {
                &&& 0 <= pos < tokens.len()
                &&& tokens[pos] == operator
                &&& (operator.kind is Bang || operator.kind is Minus)
                &&& derives(*operand, Rule::Unary, tokens, pos + 1)
            },
            _ => derives(tree, Rule::Primary, tokens, pos),
        },
        Rule::Binary(level) => match tree {
            ExprView::Binary(left, operator, right) => if is_operator(level, operator.kind) {
                let at = pos + width(*left);
                &&& derives(*left, Rule::Binary(level), tokens, pos)
                &&& 0 <= at < tokens.len()
                &&& tokens[at] == operator
                &&& derives(*right, operand_rule(level), tokens, at + 1)
            } else {
                derives(tree, operand_rule(level), tokens, pos)
            },
            _ => derives(tree, operand_rule(level), tokens, pos),
        },
    }
}

/// Whether a token of this kind is an operator of the rule `level` or of a
/// rule that binds tighter.
pub open spec fn binds_at_least(level: Level, kind: KindView) -> bool {
    ||| is_operator(Level::Multiplication, kind)
    ||| level !is Multiplication && is_operator(Level::Addition, kind)
    ||| (level is Comparison || level is Equality) && is_operator(Level::Comparison, kind)
    ||| level is Equality && is_operator(Level::Equality, kind)
}

/// Whether a token of this kind is a binary operator.
pub open spec fn is_binary_operator(kind: KindView) -> bool {
    binds_at_least(Level::Equality, kind)
}

/// Whether a token of this kind can stand after what `rule` has read: it
/// is no operator that the rule would have read on with.
pub open spec fn can_follow(kind: KindView, rule: Rule) -> bool {
    match rule {
        Rule::Binary(level) => !binds_at_least(level, kind),
        _ => true,
    }
}

/// A tree that a rule derives has no looser operator at its root than the
/// rule reads.
pub proof fn lemma_root_operator(tree: ExprView, rule: Rule, tokens: Seq<TokenView>, pos: int)
    requires
        derives(tree, rule, tokens, pos),
    ensures
        tree matches ExprView::Binary(_, operator, _) ==> rule matches Rule::Binary(level)
            && binds_at_least(level, operator.kind),
    decreases depth(rule),
{
    if let ExprView::Binary(_, operator, _) = tree {
        match rule {
            Rule::Primary => {},
            Rule::Unary => {
                assert(derives(tree, Rule::Primary, tokens, pos));
            },
            Rule::Binary(level) => {
                if !is_operator(level, operator.kind) {
                    lemma_root_operator(tree, operand_rule(level), tokens, pos);
                }
            },
        }
    }
}

/// What the rule of the operands derives, the rule itself derives.
pub proof fn lemma_operand_is_chain(tree: ExprView, level: Level, tokens: Seq<TokenView>, pos: int)
    requires
        derives(tree, operand_rule(level), tokens, pos),
    ensures
        derives(tree, Rule::Binary(level), tokens, pos),
{
    lemma_root_operator(tree, operand_rule(level), tokens, pos);
}

/// A derivation lies inside the tokens: a tree that is derived from `pos` on
/// ends, `width` tokens later, at or before the end of the tokens.
pub proof fn lemma_derivation_bounds(tree: ExprView, rule: Rule, tokens: Seq<TokenView>, pos: int)
    requires
        derives(tree, rule, tokens, pos),
    ensures
        0 <= pos,
        pos + width(tree) <= tokens.len(),
    decreases tree, depth(rule),
{
    match rule {
        Rule::Primary => match tree {
            ExprView::Grouping(inner) => {
                lemma_derivation_bounds(*inner, Rule::Binary(Level::Equality), tokens, pos + 1);
            },
            _ => {},
        },
        Rule::Unary => match tree {
            ExprView::Unary(_, operand) => {
                lemma_derivation_bounds(*operand, Rule::Unary, tokens, pos + 1);
            },
            _ => {
                lemma_derivation_bounds(tree, Rule::Primary, tokens, pos);
            },
        },
        Rule::Binary(level) => match tree {
            ExprView::Binary(left, operator, right) => {
                if is_operator(level, operator.kind) {
                    lemma_derivation_bounds(*left, Rule::Binary(level), tokens, pos);
                    lemma_derivation_bounds(
                        *right,
                        operand_rule(level),
                        tokens,
                        pos + width(*left) + 1,
                    );
                } else {
                    lemma_derivation_bounds(tree, operand_rule(level), tokens, pos);
                }
            },
            _ => {
                lemma_derivation_bounds(tree, operand_rule(level), tokens, pos);
            },
        },
    }
}

/// What a rule reads, it derives, and what stands after it can follow it.
pub proof fn lemma_rule_derives(tokens: Seq<TokenView>, pos: int, rule: Rule)
    ensures
        parse_rule(tokens, pos, rule) matches Ok(tree) ==> {
            &&& derives(tree, rule, tokens, pos)
            &&& can_follow(kind_at(tokens, pos + width(tree)), rule)
        },
    decreases tokens.len() - pos, 2 * depth(rule) + 2,
{
    match rule {
        Rule::Primary => {
            if kind_at(tokens, pos) is LeftParen {
                lemma_rule_derives(tokens, pos + 1, Rule::Binary(Level::Equality));
            }
        },
        Rule::Unary => {
            let kind = kind_at(tokens, pos);
            if kind is Bang || kind is Minus {
                lemma_rule_derives(tokens, pos + 1, Rule::Unary);
            } else {
                lemma_rule_derives(tokens, pos, Rule::Primary);
            }
        },
        Rule::Binary(level) => {
            lemma_chain_derives(tokens, pos, level, None, pos);
        },
    }
}

/// What a rule with binary operators reads from `start` on, it derives, and
/// what stands after it can follow it. Where the rule stands at `pos` with
/// a tree and an operator pending, the tree is derived from `start` on and
/// the operator is the token before `pos`.
pub proof fn lemma_chain_derives(
    tokens: Seq<TokenView>,
    pos: int,
    level: Level,
    pending: Option<(ExprView, TokenView)>,
    start: int,
)
    requires
        match pending {
            Some((left, operator)) => {
                &&& derives(left, Rule::Binary(level), tokens, start)
                &&& pos == start + width(left) + 1
                &&& 0 <= pos - 1 < tokens.len()
                &&& tokens[pos - 1] == operator
                &&& is_operator(level, operator.kind)
            },
            None => start == pos,
        },
    ensures
        parse_chain(tokens, pos, level, pending) matches Ok(tree) ==> {
            &&& derives(tree, Rule::Binary(level), tokens, start)
            &&& can_follow(kind_at(tokens, start + width(tree)), Rule::Binary(level))
        },
    decreases tokens.len() - pos, 2 * depth(Rule::Binary(level)) + 1,
{
    lemma_rule_derives(tokens, pos, operand_rule(level));
    if let Ok(operand) = parse_rule(tokens, pos, operand_rule(level)) {
        let tree = match pending {
            Some((left, operator)) => ExprView::Binary(Box::new(left), operator, Box::new(operand)),
            None => operand,
        };
        if pending is None {
            lemma_operand_is_chain(operand, level, tokens, pos);
        }
        assert(derives(tree, Rule::Binary(level), tokens, start));
        let next = pos + width(operand);
        if is_operator(level, kind_at(tokens, next)) {
            lemma_chain_derives(tokens, next + 1, level, Some((tree, tokens[next])), start);
        }
    }
}

/// A rule with binary operators reads all of a tree that it derives from
/// `start` on, provided that what stands after the tree can follow an
/// operand: it then stands after the tree, with the tree read.
pub proof fn lemma_chain_reads(tree: ExprView, level: Level, tokens: Seq<TokenView>, start: int)
    requires
        derives(tree, Rule::Binary(level), tokens, start),
        can_follow(kind_at(tokens, start + width(tree)), operand_rule(level)),
    ensures
        parse_chain(tokens, start, level, None) == parse_rest(
            tokens,
            start + width(tree),
            level,
            tree,
        ),
    decreases tree, depth(Rule::Binary(level)), 0nat,
{
    let operands = operand_rule(level);
    if let ExprView::Binary(left, operator, right) = tree {
        if is_operator(level, operator.kind) {
            let at = start + width(*left);
            lemma_chain_reads(*left, level, tokens, start);
            lemma_rule_parses(*right, operands, tokens, at + 1);
            lemma_chain_next(tokens, at, level, *left);
        } else {
            lemma_rule_parses(tree, operands, tokens, start);
        }
    } else {
        lemma_rule_parses(tree, operands, tokens, start);
    }
}

/// A rule reads a tree that it derives, provided that what stands after
/// the tree can follow it.
pub proof fn lemma_rule_parses(tree: ExprView, rule: Rule, tokens: Seq<TokenView>, pos: int)
    requires
        derives(tree, rule, tokens, pos),
        can_follow(kind_at(tokens, pos + width(tree)), rule),
    ensures
        parse_rule(tokens, pos, rule) == Ok::<ExprView, Failure>(tree),
    decreases tree, depth(rule), 1nat,
{
    match rule {
        Rule::Primary => {
            if let ExprView::Grouping(inner) = tree {
                lemma_rule_parses(*inner, Rule::Binary(Level::Equality), tokens, pos + 1);
            }
        },
        Rule::Unary => {
            if let ExprView::Unary(_, operand) = tree {
                lemma_rule_parses(*operand, Rule::Unary, tokens, pos + 1);
            } else {
                lemma_rule_parses(tree, Rule::Primary, tokens, pos);
            }
        },
        Rule::Binary(level) => {
            lemma_chain_reads(tree, level, tokens, pos);
        },
    }
}

/// What parsing gives, said without saying how: `tree` is the result of
/// parsing from `pos` on exactly when it is a derivation of the tokens from
/// `pos` on by the rule `expression` and no binary operator stands after
/// it. So there is at most one such tree, and parsing fails exactly when
/// there is none.
pub proof fn lemma_parse_is_derivation(tokens: Seq<TokenView>, pos: int, tree: ExprView)
    ensures
        parse_expression(tokens, pos) == Ok::<ExprView, Failure>(tree) <==> {
            &&& derives(tree, Rule::Binary(Level::Equality), tokens, pos)
            &&& !is_binary_operator(kind_at(tokens, pos + width(tree)))
        },
{
    let expression = Rule::Binary(Level::Equality);
    lemma_rule_derives(tokens, pos, expression);
    if derives(tree, expression, tokens, pos) && can_follow(
        kind_at(tokens, pos + width(tree)),
        expression,
    ) {
        lemma_rule_parses(tree, expression, tokens, pos);
    }
}

/// The tree that parsing gives lies inside the tokens: it starts at `pos`
/// and ends, `width` tokens later, at or before their end.
pub proof fn lemma_parse_bounds(tokens: Seq<TokenView>, pos: int)
    ensures
        parse_expression(tokens, pos) matches Ok(tree) ==> 0 <= pos && pos + width(tree)
            <= tokens.len(),
{
    let expression = Rule::Binary(Level::Equality);
    lemma_rule_derives(tokens, pos, expression);
    if let Ok(tree) = parse_expression(tokens, pos) {
        lemma_derivation_bounds(tree, expression, tokens, pos);
    }
}

/// A rule fails at a token from `pos` on, not before it.
pub proof fn lemma_rule_fails_ahead(tokens: Seq<TokenView>, pos: int, rule: Rule)
    ensures
        parse_rule(tokens, pos, rule) matches Err(failure) ==> pos <= failure.at,
    decreases tokens.len() - pos, 2 * depth(rule) + 2,
{
    match rule {
        Rule::Primary => {
            if kind_at(tokens, pos) is LeftParen {
                lemma_rule_fails_ahead(tokens, pos + 1, Rule::Binary(Level::Equality));
            }
        },
        Rule::Unary => {
            let kind = kind_at(tokens, pos);
            if kind is Bang || kind is Minus {
                lemma_rule_fails_ahead(tokens, pos + 1, Rule::Unary);
            } else {
                lemma_rule_fails_ahead(tokens, pos, Rule::Primary);
            }
        },
        Rule::Binary(level) => {
            lemma_chain_fails_ahead(tokens, pos, level, None);
        },
    }
}

/// A rule with binary operators that stands at `pos` fails at a token from
/// `pos` on, not before it.
pub proof fn lemma_chain_fails_ahead(
    tokens: Seq<TokenView>,
    pos: int,
    level: Level,
    pending: Option<(ExprView, TokenView)>,
)
    ensures
        parse_chain(tokens, pos, level, pending) matches Err(failure) ==> pos <= failure.at,
    decreases tokens.len() - pos, 2 * depth(Rule::Binary(level)) + 1,
{
    lemma_rule_fails_ahead(tokens, pos, operand_rule(level));
    if let Ok(operand) = parse_rule(tokens, pos, operand_rule(level)) {
        let tree = match pending {
            Some((left, operator)) => ExprView::Binary(Box::new(left), operator, Box::new(operand)),
            None => operand,
        };
        let next = pos + width(operand);
        if is_operator(level, kind_at(tokens, next)) {
            lemma_chain_fails_ahead(tokens, next + 1, level, Some((tree, tokens[next])));
        }
    }
}

/// Whether a statement can begin with a token of this kind.
pub open spec fn starts_statement(kind: KindView) -> bool {
    kind is Class || kind is Fun || kind is Var || kind is For || kind is If || kind is While
        || kind is Print || kind is Return
}

/// Whether parsing can be taken up again at `pos`: at the end of the input,
/// just after a semicolon, or where a statement can begin.
pub open spec fn is_boundary(tokens: Seq<TokenView>, pos: int) -> bool {
    ||| kind_at(tokens, pos) is Eof
    ||| kind_at(tokens, pos - 1) is SemiColon
    ||| starts_statement(kind_at(tokens, pos))
}

/// The first boundary from `pos` on.
pub open spec fn next_boundary(tokens: Seq<TokenView>, pos: int) -> int
    decreases tokens.len() - pos,
{
    if is_boundary(tokens, pos) {
        pos
    } else {
        next_boundary(tokens, pos + 1)
    }
}

/// `next_boundary` is a boundary, lies at or after `pos` and not after the
/// end of the tokens, and no position between `pos` and it is a boundary.
pub proof fn lemma_next_boundary_is_first(tokens: Seq<TokenView>, pos: int)
    requires
        0 <= pos <= tokens.len(),
    ensures
        pos <= next_boundary(tokens, pos) <= tokens.len(),
        is_boundary(tokens, next_boundary(tokens, pos)),
        forall|earlier: int|
            pos <= earlier < next_boundary(tokens, pos) ==> !is_boundary(tokens, earlier),
    decreases tokens.len() - pos,
{
    if !is_boundary(tokens, pos) {
        lemma_next_boundary_is_first(tokens, pos + 1);
    }
}

/// Where parsing is taken up again after an error at `pos`: at the first
/// boundary after the token at `pos`; at `pos`, where that is the end.
pub open spec fn resume_point(tokens: Seq<TokenView>, pos: int) -> int {
    if kind_at(tokens, pos) is Eof {
        pos
    } else {
        next_boundary(tokens, pos + 1)
    }
}

/// The parenthesised text of a tree: a literal as its lexeme; a unary node
/// as its operator and its operand; a binary node as its left operand, its
/// operator and its right operand; a grouping as what it holds; each of
/// them in parentheses.
pub open spec fn dump(tree: ExprView) -> Seq<char>
    decreases tree,
{
    match tree {
        ExprView::Literal(token) => seq!['('] + token.lexeme + seq![')'],
        ExprView::Unary(operator, operand) => seq!['('] + operator.lexeme + dump(*operand) + seq![
            ')',
        ],
        ExprView::Binary(left, operator, right) => seq!['('] + dump(*left) + operator.lexeme
            + dump(*right) + seq![')'],
        ExprView::Grouping(inner) => seq!['('] + dump(*inner) + seq![')'],
    }
}

} // verus!
