use vstd::prelude::*;
use vstd::string::*;
use crate::ast::{
    expr_view, exprs_view, lemma_exprs_view_prefix, lemma_stmts_view_prefix, names_view, stmt_view,
    stmts_view, Expr, ExprNode, ExprType, ExprView, Located, Opcode, Stmt, StmtType,
};
use crate::grammar::{ItemView, Parsed};
use crate::lexer::{kind_view, lex, views, ParseError, ParseErrorKind, TokenKind};
use crate::utils::Location;

verus! {

pub type Token = crate::lexer::Token<String>;

/// What stands between two semicolons: a statement, or an expression whose
/// value the program may use.
pub enum Item {
    Statement(Stmt),
    Expression(Expr),
}

/// What an item is.
pub open spec fn item_view(item: Item) -> ItemView {
    match item {
        Item::Statement(stmt) => ItemView::Statement(stmt_view(stmt)),
        Item::Expression(expr) => ItemView::Expression(expr_view(expr)),
    }
}

/// Whether an expression was read as the grammar says.
pub open spec fn read_expr(r: Result<(Expr, usize), ParseError>, s: Parsed<ExprView>) -> bool {
    match s {
        Ok((view, next)) => r is Ok && expr_view(r->Ok_0.0) == view && r->Ok_0.1 == next,
        Err(e) => r == Err::<(Expr, usize), ParseError>(e),
    }
}

/// Whether an item was read as the grammar says.
pub open spec fn read_item(r: Result<(Item, usize), ParseError>, s: Parsed<ItemView>) -> bool {
    match s {
        Ok((view, next)) => r is Ok && item_view(r->Ok_0.0) == view && r->Ok_0.1 == next,
        Err(e) => r == Err::<(Item, usize), ParseError>(e),
    }
}

/// Whether a step of the parser moved on: it ends behind where it started
/// and within the tokens.
pub open spec fn advanced<T>(r: Result<(T, usize), ParseError>, pos: usize, len: nat) -> bool {
    match r {
        Ok((_, next)) => pos < next <= len,
        Err(_) => true,
    }
}

/// A kind of token that holds no value.
pub open spec fn plain(kind: TokenKind<String>) -> bool {
    !(kind is Integer || kind is Text || kind is Identifier)
}

/// The error for a token that cannot stand at `pos`, or for the end of the
/// text where there is no token at `pos`.
fn unexpected(tokens: &Vec<Token>, pos: usize, end: usize) -> (r: ParseError)
    ensures
        r == crate::grammar::unexpected(views(tokens@), pos as nat, end),
{
    if pos < tokens.len() {
        ParseError { kind: ParseErrorKind::UnexpectedToken, position: tokens[pos].location.0 }
    } else {
        ParseError { kind: ParseErrorKind::UnexpectedEnd, position: end }
    }
}

/// Whether two kinds of token that hold no value are the same.
fn same_kind(a: &TokenKind<String>, b: &TokenKind<String>) -> (r: bool)
    requires
        plain(*b),
    ensures
        r == (kind_view(*a) == kind_view(*b)),
{
    match (a, b) {
        (TokenKind::Val, TokenKind::Val) => true,
        (TokenKind::Var, TokenKind::Var) => true,
        (TokenKind::Def, TokenKind::Def) => true,
        (TokenKind::Class, TokenKind::Class) => true,
        (TokenKind::If, TokenKind::If) => true,
        (TokenKind::Elif, TokenKind::Elif) => true,
        (TokenKind::Else, TokenKind::Else) => true,
        (TokenKind::While, TokenKind::While) => true,
        (TokenKind::Return, TokenKind::Return) => true,
        (TokenKind::True, TokenKind::True) => true,
        (TokenKind::False, TokenKind::False) => true,
        (TokenKind::Nothing, TokenKind::Nothing) => true,
        (TokenKind::Plus, TokenKind::Plus) => true,
        (TokenKind::Minus, TokenKind::Minus) => true,
        (TokenKind::Star, TokenKind::Star) => true,
        (TokenKind::Slash, TokenKind::Slash) => true,
        (TokenKind::Percent, TokenKind::Percent) => true,
        (TokenKind::Less, TokenKind::Less) => true,
        (TokenKind::LessEq, TokenKind::LessEq) => true,
        (TokenKind::Greater, TokenKind::Greater) => true,
        (TokenKind::GreaterEq, TokenKind::GreaterEq) => true,
        (TokenKind::EqualEqual, TokenKind::EqualEqual) => true,
        (TokenKind::NotEqual, TokenKind::NotEqual) => true,
        (TokenKind::Assign, TokenKind::Assign) => true,
        (TokenKind::LeftParen, TokenKind::LeftParen) => true,
        (TokenKind::RightParen, TokenKind::RightParen) => true,
        (TokenKind::LeftBrace, TokenKind::LeftBrace) => true,
        (TokenKind::RightBrace, TokenKind::RightBrace) => true,
        (TokenKind::LeftBracket, TokenKind::LeftBracket) => true,
        (TokenKind::RightBracket, TokenKind::RightBracket) => true,
        (TokenKind::Comma, TokenKind::Comma) => true,
        (TokenKind::Semicolon, TokenKind::Semicolon) => true,
        (TokenKind::Dot, TokenKind::Dot) => true,
        _ => false,
    }
}

/// Whether the token at `pos` is of the kind `kind`, which holds no value.
fn at(tokens: &Vec<Token>, pos: usize, kind: &TokenKind<String>) -> (r: bool)
    requires
        plain(*kind),
    ensures
        r == crate::grammar::is_at(views(tokens@), pos as nat, kind_view(*kind)),
        r ==> pos < tokens.len(),
{
    if pos >= tokens.len() {
        return false;
    }
    same_kind(&tokens[pos].kind, kind)
}

/// Steps over the token of the kind `kind` that must stand at `pos`.
fn expect(tokens: &Vec<Token>, pos: usize, kind: &TokenKind<String>, end: usize) -> (r: Result<
    usize,
    ParseError,
>)
    requires
        plain(*kind),
    ensures
        match crate::grammar::expect(views(tokens@), pos as nat, kind_view(*kind), end) {
            Ok(after) => r == Ok::<usize, ParseError>(after as usize) && after == pos + 1 && pos
                < tokens.len(),
            Err(e) => r == Err::<usize, ParseError>(e),
        },
{
    if at(tokens, pos, kind) {
        Ok(pos + 1)
    } else {
        Err(unexpected(tokens, pos, end))
    }
}

/// Reads the identifier that must stand at `pos`.
fn identifier(tokens: &Vec<Token>, pos: usize, end: usize) -> (r: Result<String, ParseError>)
    ensures
        match crate::grammar::identifier(views(tokens@), pos as nat, end) {
            Ok(name) => r is Ok && r->Ok_0@ == name && pos < tokens.len(),
            Err(e) => r == Err::<String, ParseError>(e),
        },
{
    if pos < tokens.len() {
        match &tokens[pos].kind {
            TokenKind::Identifier(name) => {
                return Ok(name.clone());
            },
            _ => {},
        }
    }
    Err(unexpected(tokens, pos, end))
}

/// The operator that compares, if the token at `pos` is one.
fn comparison(tokens: &Vec<Token>, pos: usize) -> (r: Option<Opcode>)
    ensures
        r == crate::grammar::comparison_at(views(tokens@), pos as nat),
        r is Some ==> pos < tokens.len(),
{
    if pos >= tokens.len() {
        return None;
    }
    match &tokens[pos].kind {
        TokenKind::Less => Some(Opcode::Less),
        TokenKind::LessEq => Some(Opcode::LessEq),
        TokenKind::Greater => Some(Opcode::Greater),
        TokenKind::GreaterEq => Some(Opcode::GreaterEq),
        TokenKind::EqualEqual => Some(Opcode::Eq),
        TokenKind::NotEqual => Some(Opcode::Neq),
        _ => None,
    }
}

/// The operator that adds or subtracts, if the token at `pos` is one.
fn additive(tokens: &Vec<Token>, pos: usize) -> (r: Option<Opcode>)
    ensures
        r == crate::grammar::additive_at(views(tokens@), pos as nat),
        r is Some ==> pos < tokens.len(),
{
    if pos >= tokens.len() {
        return None;
    }
    match &tokens[pos].kind {
        TokenKind::Plus => Some(Opcode::Add),
        TokenKind::Minus => Some(Opcode::Sub),
        _ => None,
    }
}

/// The operator that multiplies or divides, if the token at `pos` is one.
fn multiplicative(tokens: &Vec<Token>, pos: usize) -> (r: Option<Opcode>)
    ensures
        r == crate::grammar::multiplicative_at(views(tokens@), pos as nat),
        r is Some ==> pos < tokens.len(),
{
    if pos >= tokens.len() {
        return None;
    }
    match &tokens[pos].kind {
        TokenKind::Star => Some(Opcode::Mul),
        TokenKind::Slash => Some(Opcode::Div),
        TokenKind::Percent => Some(Opcode::Mod),
        _ => None,
    }
}

/// The application of a binary operator, which spans both operands.
fn binary(op: Opcode, left: Expr, right: Expr) -> (r: Expr)
    ensures
        expr_view(r) == crate::grammar::binary(op, expr_view(left), expr_view(right)),
{
    let location = Location(left.location.0, right.location.1);
    let mut arguments: Vec<Expr> = Vec::new();
    arguments.push(left);
    arguments.push(right);
    proof {
        assert(exprs_view(arguments, 0) =~= Seq::<ExprView>::empty());
        assert(exprs_view(arguments, 1) =~= seq![expr_view(left)]);
        assert(exprs_view(arguments, 2) =~= seq![expr_view(left), expr_view(right)]);
    }
    Located { node: ExprType::Operator { op, arguments }, location }
}

/// The negation of an operand.
fn negation(operand: Expr, start: usize) -> (r: Expr)
    ensures
        expr_view(r) == (Located {
            node: ExprNode::Operator { op: Opcode::Negate, arguments: seq![expr_view(operand)] },
            location: Location(start, operand.location.1),
        }),
{
    let location = Location(start, operand.location.1);
    let mut arguments: Vec<Expr> = Vec::new();
    arguments.push(operand);
    proof {
        assert(exprs_view(arguments, 0) =~= Seq::<ExprView>::empty());
        assert(exprs_view(arguments, 1) =~= seq![expr_view(operand)]);
    }
    Located { node: ExprType::Operator { op: Opcode::Negate, arguments }, location }
}

/// Parses an expression.
pub fn parse_expr(tokens: &Vec<Token>, pos: usize, end: usize) -> (r: Result<
    (Expr, usize),
    ParseError,
>)
    ensures
        read_expr(r, crate::grammar::expr(views(tokens@), pos as nat, end)),
        advanced(r, pos, tokens.len() as nat),
    decreases tokens.len() - pos, 10nat,
{
    let (mut left, mut at_pos) = match parse_sum(tokens, pos, end) {
        Ok(parsed) => parsed,
        Err(e) => {
            return Err(e);
        },
    };
    loop
        invariant
            pos < at_pos <= tokens.len(),
            crate::grammar::expr(views(tokens@), pos as nat, end) == crate::grammar::comparisons(
                views(tokens@),
                at_pos as nat,
                end,
                expr_view(left),
            ),
        decreases tokens.len() - at_pos,
    {
        let op = match comparison(tokens, at_pos) {
            Some(op) => op,
            None => {
                return Ok((left, at_pos));
            },
        };
        let (right, next) = match parse_sum(tokens, at_pos + 1, end) {
            Ok(parsed) => parsed,
            Err(e) => {
                return Err(e);
            },
        };
        left = binary(op, left, right);
        at_pos = next;
    }
}

fn parse_sum(tokens: &Vec<Token>, pos: usize, end: usize) -> (r: Result<(Expr, usize), ParseError>)
    ensures
        read_expr(r, crate::grammar::sum(views(tokens@), pos as nat, end)),
        advanced(r, pos, tokens.len() as nat),
    decreases tokens.len() - pos, 8nat,
{
    let (mut left, mut at_pos) = match parse_product(tokens, pos, end) {
        Ok(parsed) => parsed,
        Err(e) => {
            return Err(e);
        },
    };
    loop
        invariant
            pos < at_pos <= tokens.len(),
            crate::grammar::sum(views(tokens@), pos as nat, end) == crate::grammar::sums(
                views(tokens@),
                at_pos as nat,
                end,
                expr_view(left),
            ),
        decreases tokens.len() - at_pos,
    {
        let op = match additive(tokens, at_pos) {
            Some(op) => op,
            None => {
                return Ok((left, at_pos));
            },
        };
        let (right, next) = match parse_product(tokens, at_pos + 1, end) {
            Ok(parsed) => parsed,
            Err(e) => {
                return Err(e);
            },
        };
        left = binary(op, left, right);
        at_pos = next;
    }
}

fn parse_product(tokens: &Vec<Token>, pos: usize, end: usize) -> (r: Result<
    (Expr, usize),
    ParseError,
>)
    ensures
        read_expr(r, crate::grammar::product(views(tokens@), pos as nat, end)),
        advanced(r, pos, tokens.len() as nat),
    decreases tokens.len() - pos, 6nat,
{
    let (mut left, mut at_pos) = match parse_unary(tokens, pos, end) {
        Ok(parsed) => parsed,
        Err(e) => {
            return Err(e);
        },
    };
    loop
        invariant
            pos < at_pos <= tokens.len(),
            crate::grammar::product(views(tokens@), pos as nat, end) == crate::grammar::products(
                views(tokens@),
                at_pos as nat,
                end,
                expr_view(left),
            ),
        decreases tokens.len() - at_pos,
    {
        let op = match multiplicative(tokens, at_pos) {
            Some(op) => op,
            None => {
                return Ok((left, at_pos));
            },
        };
        let (right, next) = match parse_unary(tokens, at_pos + 1, end) {
            Ok(parsed) => parsed,
            Err(e) => {
                return Err(e);
            },
        };
        left = binary(op, left, right);
        at_pos = next;
    }
}

fn parse_unary(tokens: &Vec<Token>, pos: usize, end: usize) -> (r: Result<
    (Expr, usize),
    ParseError,
>)
    ensures
        read_expr(r, crate::grammar::unary(views(tokens@), pos as nat, end)),
        advanced(r, pos, tokens.len() as nat),
    decreases tokens.len() - pos, 4nat,
{
    if at(tokens, pos, &TokenKind::Minus) {
        let (operand, next) = match parse_unary(tokens, pos + 1, end) {
            Ok(parsed) => parsed,
            Err(e) => {
                return Err(e);
            },
        };
        return Ok((negation(operand, tokens[pos].location.0), next));
    }
    parse_postfix(tokens, pos, end)
}

fn parse_postfix(tokens: &Vec<Token>, pos: usize, end: usize) -> (r: Result<
    (Expr, usize),
    ParseError,
>)
    ensures
        read_expr(r, crate::grammar::postfix(views(tokens@), pos as nat, end)),
        advanced(r, pos, tokens.len() as nat),
    decreases tokens.len() - pos, 3nat,
{
    let (mut left, mut at_pos) = match parse_primary(tokens, pos, end) {
        Ok(parsed) => parsed,
        Err(e) => {
            return Err(e);
        },
    };
    loop
        invariant
            pos < at_pos <= tokens.len(),
            crate::grammar::postfix(views(tokens@), pos as nat, end) == crate::grammar::postfixes(
                views(tokens@),
                at_pos as nat,
                end,
                expr_view(left),
            ),
        decreases tokens.len() - at_pos,
    {
        if at(tokens, at_pos, &TokenKind::Dot) {
            let (whole, next) = match parse_member(tokens, at_pos, end, left) {
                Ok(parsed) => parsed,
                Err(e) => {
                    return Err(e);
                },
            };
            left = whole;
            at_pos = next;
        } else if at(tokens, at_pos, &TokenKind::LeftBracket) {
            let (whole, next) = match parse_element(tokens, at_pos, end, left) {
                Ok(parsed) => parsed,
                Err(e) => {
                    return Err(e);
                },
            };
            left = whole;
            at_pos = next;
        } else {
            return Ok((left, at_pos));
        }
    }
}

/// Parses the read of a member of `left` or the call of a method of it.
fn parse_member(tokens: &Vec<Token>, pos: usize, end: usize, left: Expr) -> (r: Result<
    (Expr, usize),
    ParseError,
>)
    requires
        pos < tokens.len(),
    ensures
        read_expr(r, crate::grammar::member(views(tokens@), pos as nat, end, expr_view(left))),
        advanced(r, pos, tokens.len() as nat),
    decreases tokens.len() - pos, 25nat,
{
    let name = match identifier(tokens, pos + 1, end) {
        Ok(name) => name,
        Err(e) => {
            return Err(e);
        },
    };
    let name_end = tokens[pos + 1].location.1;
    if at(tokens, pos + 2, &TokenKind::LeftParen) {
        let (arguments, next) = match parse_arguments(tokens, pos + 3, end) {
            Ok(parsed) => parsed,
            Err(e) => {
                return Err(e);
            },
        };
        let location = Location(left.location.0, tokens[next - 1].location.1);
        Ok(
            (
                Located {
                    node: ExprType::MethodCall { left: Box::new(left), name, arguments },
                    location,
                },
                next,
            ),
        )
    } else {
        let location = Location(left.location.0, name_end);
        Ok(
            (
                Located { node: ExprType::MemberRead { left: Box::new(left), right: name }, location },
                pos + 2,
            ),
        )
    }
}

/// Parses the index of an element of `left`.
fn parse_element(tokens: &Vec<Token>, pos: usize, end: usize, left: Expr) -> (r: Result<
    (Expr, usize),
    ParseError,
>)
    requires
        pos < tokens.len(),
    ensures
        read_expr(r, crate::grammar::element(views(tokens@), pos as nat, end, expr_view(left))),
        advanced(r, pos, tokens.len() as nat),
    decreases tokens.len() - pos, 25nat,
{
    let (index, next) = match parse_expr(tokens, pos + 1, end) {
        Ok(parsed) => parsed,
        Err(e) => {
            return Err(e);
        },
    };
    let after = match expect(tokens, next, &TokenKind::RightBracket, end) {
        Ok(after) => after,
        Err(e) => {
            return Err(e);
        },
    };
    let location = Location(left.location.0, tokens[next].location.1);
    let ghost left_view = expr_view(left);
    let ghost index_view = expr_view(index);
    let list = statement(Item::Expression(left));
    let index = statement(Item::Expression(index));
    Ok(
        (
            Located {
                node: ExprType::AccessList { list: Box::new(list), index: Box::new(index) },
                location,
            },
            after,
        ),
    )
}

/// Parses the arguments of a call behind the opening parenthesis, up to
/// and with the closing one.
fn parse_arguments(tokens: &Vec<Token>, pos: usize, end: usize) -> (r: Result<
    (Vec<Expr>, usize),
    ParseError,
>)
    requires
        pos <= tokens.len(),
    ensures
        match crate::grammar::arguments(views(tokens@), pos as nat, end) {
            Ok((arguments, next)) => r is Ok && exprs_view(r->Ok_0.0, r->Ok_0.0.len() as nat)
                == arguments && r->Ok_0.1 == next,
            Err(e) => r == Err::<(Vec<Expr>, usize), ParseError>(e),
        },
        advanced(r, pos, tokens.len() as nat),
    decreases tokens.len() - pos, 13nat,
{
    let mut arguments: Vec<Expr> = Vec::new();
    if at(tokens, pos, &TokenKind::RightParen) {
        return Ok((arguments, pos + 1));
    }
    let mut at_pos = pos;
    loop
        invariant
            pos <= at_pos <= tokens.len(),
            crate::grammar::arguments(views(tokens@), pos as nat, end)
                == crate::grammar::more_arguments(
                views(tokens@),
                at_pos as nat,
                end,
                exprs_view(arguments, arguments.len() as nat),
            ),
        decreases tokens.len() - at_pos,
    {
        let (argument, next) = match parse_expr(tokens, at_pos, end) {
            Ok(parsed) => parsed,
            Err(e) => {
                return Err(e);
            },
        };
        let ghost before = arguments;
        arguments.push(argument);
        proof {
            lemma_exprs_view_prefix(before, arguments, before.len() as nat);
        }
        if at(tokens, next, &TokenKind::Comma) {
            at_pos = next + 1;
        } else {
            let after = match expect(tokens, next, &TokenKind::RightParen, end) {
                Ok(after) => after,
                Err(e) => {
                    return Err(e);
                },
            };
            return Ok((arguments, after));
        }
    }
}

fn parse_primary(tokens: &Vec<Token>, pos: usize, end: usize) -> (r: Result<
    (Expr, usize),
    ParseError,
>)
    ensures
        read_expr(r, crate::grammar::primary(views(tokens@), pos as nat, end)),
        advanced(r, pos, tokens.len() as nat),
    decreases tokens.len() - pos, 2nat,
{
    if pos >= tokens.len() {
        return Err(unexpected(tokens, pos, end));
    }
    let location = tokens[pos].location;
    match &tokens[pos].kind {
        TokenKind::Integer(value) => Ok((Located { node: ExprType::Integer(*value), location }, pos + 1)),
        TokenKind::Text(text) => Ok(
            (Located { node: ExprType::String(text.clone()), location }, pos + 1),
        ),
        TokenKind::True => Ok((Located { node: ExprType::Bool(true), location }, pos + 1)),
        TokenKind::False => Ok((Located { node: ExprType::Bool(false), location }, pos + 1)),
        TokenKind::Nothing => Ok((Located { node: ExprType::NoneVal, location }, pos + 1)),
        TokenKind::Identifier(_) => parse_name(tokens, pos, end),
        TokenKind::LeftParen => parse_group(tokens, pos, end),
        TokenKind::LeftBrace => parse_block(tokens, pos, end),
        TokenKind::If => parse_conditional(tokens, pos, end),
        _ => Err(unexpected(tokens, pos, end)),
    }
}

/// Parses the call of a function or the read of a variable.
fn parse_name(tokens: &Vec<Token>, pos: usize, end: usize) -> (r: Result<(Expr, usize), ParseError>)
    requires
        pos < tokens.len(),
        tokens[pos as int].kind is Identifier,
    ensures
        read_expr(r, crate::grammar::primary(views(tokens@), pos as nat, end)),
        advanced(r, pos, tokens.len() as nat),
    decreases tokens.len() - pos, 1nat,
{
    let location = tokens[pos].location;
    let name = match &tokens[pos].kind {
        TokenKind::Identifier(name) => name.clone(),
        _ => String::new(),
    };
    if at(tokens, pos + 1, &TokenKind::LeftParen) {
        let (arguments, next) = match parse_arguments(tokens, pos + 2, end) {
            Ok(parsed) => parsed,
            Err(e) => {
                return Err(e);
            },
        };
        let location = Location(location.0, tokens[next - 1].location.1);
        Ok((Located { node: ExprType::CallFunction { name, arguments }, location }, next))
    } else {
        Ok((Located { node: ExprType::AccessVariable { name }, location }, pos + 1))
    }
}

/// Parses an expression in parentheses.
fn parse_group(tokens: &Vec<Token>, pos: usize, end: usize) -> (r: Result<(Expr, usize), ParseError>)
    requires
        pos < tokens.len(),
        tokens[pos as int].kind is LeftParen,
    ensures
        read_expr(r, crate::grammar::primary(views(tokens@), pos as nat, end)),
        advanced(r, pos, tokens.len() as nat),
    decreases tokens.len() - pos, 1nat,
{
    let (inner, next) = match parse_expr(tokens, pos + 1, end) {
        Ok(parsed) => parsed,
        Err(e) => {
            return Err(e);
        },
    };
    match expect(tokens, next, &TokenKind::RightParen, end) {
        Ok(after) => Ok((inner, after)),
        Err(e) => Err(e),
    }
}

/// Parses a block.
fn parse_block(tokens: &Vec<Token>, pos: usize, end: usize) -> (r: Result<
    (Expr, usize),
    ParseError,
>)
    ensures
        read_expr(r, crate::grammar::block(views(tokens@), pos as nat, end)),
        advanced(r, pos, tokens.len() as nat),
    decreases tokens.len() - pos, 1nat,
{
    let after_brace = match expect(tokens, pos, &TokenKind::LeftBrace, end) {
        Ok(after) => after,
        Err(e) => {
            return Err(e);
        },
    };
    let start = tokens[pos].location.0;
    let mut stmts: Vec<Stmt> = Vec::new();
    let mut at_pos = after_brace;
    loop
        invariant
            pos < at_pos <= tokens.len(),
            crate::grammar::block(views(tokens@), pos as nat, end) == crate::grammar::block_items(
                views(tokens@),
                at_pos as nat,
                end,
                start,
                stmts_view(stmts, stmts.len() as nat),
            ),
        decreases tokens.len() - at_pos,
    {
        if at(tokens, at_pos, &TokenKind::RightBrace) {
            let closing = tokens[at_pos].location;
            let value = Located { node: ExprType::NoneVal, location: closing };
            assert(expr_view(value) == (Located { node: ExprNode::NoneVal, location: closing }));
            return Ok(
                (
                    Located {
                        node: ExprType::Block(stmts, Box::new(value)),
                        location: Location(start, closing.1),
                    },
                    at_pos + 1,
                ),
            );
        }
        let (item, next) = match parse_item(tokens, at_pos, end) {
            Ok(parsed) => parsed,
            Err(e) => {
                return Err(e);
            },
        };
        if at(tokens, next, &TokenKind::Semicolon) {
            let ghost before = stmts;
            stmts.push(statement(item));
            proof {
                lemma_stmts_view_prefix(before, stmts, before.len() as nat);
            }
            at_pos = next + 1;
        } else {
            let after = match expect(tokens, next, &TokenKind::RightBrace, end) {
                Ok(after) => after,
                Err(e) => {
                    return Err(e);
                },
            };
            let closing = tokens[next].location;
            return match item {
                Item::Expression(value) => Ok(
                    (
                        Located {
                            node: ExprType::Block(stmts, Box::new(value)),
                            location: Location(start, closing.1),
                        },
                        after,
                    ),
                ),
                Item::Statement(_) => Err(
                    ParseError { kind: ParseErrorKind::UnexpectedToken, position: closing.0 },
                ),
            };
        }
    }
}

/// Parses a conditional.
fn parse_conditional(tokens: &Vec<Token>, pos: usize, end: usize) -> (r: Result<
    (Expr, usize),
    ParseError,
>)
    ensures
        read_expr(r, crate::grammar::conditional(views(tokens@), pos as nat, end)),
        advanced(r, pos, tokens.len() as nat),
    decreases tokens.len() - pos, 1nat,
{
    if pos >= tokens.len() {
        return Err(unexpected(tokens, pos, end));
    }
    let start = tokens[pos].location.0;
    let (guard, after_guard) = match parse_expr(tokens, pos + 1, end) {
        Ok(parsed) => parsed,
        Err(e) => {
            return Err(e);
        },
    };
    let (then_branch, after_then) = match parse_block(tokens, after_guard, end) {
        Ok(parsed) => parsed,
        Err(e) => {
            return Err(e);
        },
    };
    if at(tokens, after_then, &TokenKind::Elif) {
        let (rest, next) = match parse_conditional(tokens, after_then, end) {
            Ok(parsed) => parsed,
            Err(e) => {
                return Err(e);
            },
        };
        let location = Location(start, rest.location.1);
        Ok(
            (
                Located {
                    node: ExprType::Conditional {
                        guard: Box::new(guard),
                        then_branch: Box::new(then_branch),
                        else_branch: Some(Box::new(rest)),
                    },
                    location,
                },
                next,
            ),
        )
    } else if at(tokens, after_then, &TokenKind::Else) {
        let (else_branch, next) = match parse_block(tokens, after_then + 1, end) {
            Ok(parsed) => parsed,
            Err(e) => {
                return Err(e);
            },
        };
        let location = Location(start, else_branch.location.1);
        Ok(
            (
                Located {
                    node: ExprType::Conditional {
                        guard: Box::new(guard),
                        then_branch: Box::new(then_branch),
                        else_branch: Some(Box::new(else_branch)),
                    },
                    location,
                },
                next,
            ),
        )
    } else {
        let location = Location(start, then_branch.location.1);
        Ok(
            (
                Located {
                    node: ExprType::Conditional {
                        guard: Box::new(guard),
                        then_branch: Box::new(then_branch),
                        else_branch: None,
                    },
                    location,
                },
                after_then,
            ),
        )
    }
}

/// The item as a statement: an expression becomes an expression statement.
pub fn statement(item: Item) -> (r: Stmt)
    ensures
        stmt_view(r) == crate::grammar::statement(item_view(item)),
{
    match item {
        Item::Statement(stmt) => stmt,
        Item::Expression(expr) => {
            let location = expr.location;
            Located { node: StmtType::Expression(expr), location }
        },
    }
}

/// The assignment of `value` to what `target` reads.
fn assignment(target: Expr, value: Expr) -> (r: Result<Stmt, ParseError>)
    ensures
        match crate::grammar::assignment(expr_view(target), expr_view(value)) {
            Ok(stmt) => r is Ok && stmt_view(r->Ok_0) == stmt,
            Err(e) => r == Err::<Stmt, ParseError>(e),
        },
{
    let location = Location(target.location.0, value.location.1);
    let position = target.location.0;
    let ghost target_view = expr_view(target);
    match target.node {
        ExprType::AccessVariable { name } => Ok(
            Located { node: StmtType::AssignVariable { name, value }, location },
        ),
        ExprType::MemberRead { left, right } => Ok(
            Located { node: StmtType::MemberStore { left: *left, right, val: value }, location },
        ),
        ExprType::AccessList { list, index } => {
            assert(target_view.node == ExprNode::AccessList {
                list: Box::new(stmt_view(*list)),
                index: Box::new(stmt_view(*index)),
            });
            assert(stmt_view(*list).node is Expression == list.node is Expression);
            assert(stmt_view(*index).node is Expression == index.node is Expression);
            let list = match list.node {
                StmtType::Expression(list) => list,
                _ => {
                    return Err(ParseError { kind: ParseErrorKind::InvalidTarget, position });
                },
            };
            let index = match index.node {
                StmtType::Expression(index) => index,
                _ => {
                    return Err(ParseError { kind: ParseErrorKind::InvalidTarget, position });
                },
            };
            Ok(Located { node: StmtType::AssignList { list, index, value }, location })
        },
        _ => Err(ParseError { kind: ParseErrorKind::InvalidTarget, position }),
    }
}

/// Parses a statement or an expression.
pub fn parse_item(tokens: &Vec<Token>, pos: usize, end: usize) -> (r: Result<
    (Item, usize),
    ParseError,
>)
    ensures
        read_item(r, crate::grammar::item(views(tokens@), pos as nat, end)),
        advanced(r, pos, tokens.len() as nat),
    decreases tokens.len() - pos, 20nat,
{
    if pos >= tokens.len() {
        return Err(unexpected(tokens, pos, end));
    }
    match &tokens[pos].kind {
        TokenKind::Val | TokenKind::Var => parse_variable(tokens, pos, end),
        TokenKind::Def => parse_function(tokens, pos, end),
        TokenKind::Class => parse_class(tokens, pos, end),
        TokenKind::While => parse_while(tokens, pos, end),
        TokenKind::Return => parse_return(tokens, pos, end),
        _ => parse_simple(tokens, pos, end),
    }
}

/// Parses the declaration of a variable.
fn parse_variable(tokens: &Vec<Token>, pos: usize, end: usize) -> (r: Result<
    (Item, usize),
    ParseError,
>)
    requires
        pos < tokens.len(),
        tokens[pos as int].kind is Val || tokens[pos as int].kind is Var,
    ensures
        read_item(r, crate::grammar::item(views(tokens@), pos as nat, end)),
        advanced(r, pos, tokens.len() as nat),
    decreases tokens.len() - pos, 19nat,
{
    let start = tokens[pos].location.0;
    let mutable = at(tokens, pos, &TokenKind::Var);
    let name = match identifier(tokens, pos + 1, end) {
        Ok(name) => name,
        Err(e) => {
            return Err(e);
        },
    };
    let after = match expect(tokens, pos + 2, &TokenKind::Assign, end) {
        Ok(after) => after,
        Err(e) => {
            return Err(e);
        },
    };
    let (value, next) = match parse_expr(tokens, after, end) {
        Ok(parsed) => parsed,
        Err(e) => {
            return Err(e);
        },
    };
    let location = Location(start, value.location.1);
    Ok(
        (
            Item::Statement(Located { node: StmtType::Variable { name, mutable, value }, location }),
            next,
        ),
    )
}

/// Parses the definition of a function.
fn parse_function(tokens: &Vec<Token>, pos: usize, end: usize) -> (r: Result<
    (Item, usize),
    ParseError,
>)
    requires
        pos < tokens.len(),
        tokens[pos as int].kind is Def,
    ensures
        read_item(r, crate::grammar::item(views(tokens@), pos as nat, end)),
        advanced(r, pos, tokens.len() as nat),
    decreases tokens.len() - pos, 19nat,
{
    let start = tokens[pos].location.0;
    let name = match identifier(tokens, pos + 1, end) {
        Ok(name) => name,
        Err(e) => {
            return Err(e);
        },
    };
    let after_paren = match expect(tokens, pos + 2, &TokenKind::LeftParen, end) {
        Ok(after) => after,
        Err(e) => {
            return Err(e);
        },
    };
    let (parameters, after_parameters) = match parse_parameters(tokens, after_paren, end) {
        Ok(parsed) => parsed,
        Err(e) => {
            return Err(e);
        },
    };
    let after = match expect(tokens, after_parameters, &TokenKind::Assign, end) {
        Ok(after) => after,
        Err(e) => {
            return Err(e);
        },
    };
    let (body, next) = match parse_expr(tokens, after, end) {
        Ok(parsed) => parsed,
        Err(e) => {
            return Err(e);
        },
    };
    let location = Location(start, body.location.1);
    Ok(
        (
            Item::Statement(
                Located { node: StmtType::Function { name, parameters, body }, location },
            ),
            next,
        ),
    )
}

/// Parses the definition of a class.
fn parse_class(tokens: &Vec<Token>, pos: usize, end: usize) -> (r: Result<
    (Item, usize),
    ParseError,
>)
    requires
        pos < tokens.len(),
        tokens[pos as int].kind is Class,
    ensures
        read_item(r, crate::grammar::item(views(tokens@), pos as nat, end)),
        advanced(r, pos, tokens.len() as nat),
    decreases tokens.len() - pos, 19nat,
{
    let start = tokens[pos].location.0;
    let name = match identifier(tokens, pos + 1, end) {
        Ok(name) => name,
        Err(e) => {
            return Err(e);
        },
    };
    let after_brace = match expect(tokens, pos + 2, &TokenKind::LeftBrace, end) {
        Ok(after) => after,
        Err(e) => {
            return Err(e);
        },
    };
    let mut statements: Vec<Stmt> = Vec::new();
    let mut at_pos = after_brace;
    loop
        invariant
            pos < at_pos <= tokens.len(),
            crate::grammar::item(views(tokens@), pos as nat, end) == crate::grammar::members(
                views(tokens@),
                at_pos as nat,
                end,
                start,
                name@,
                stmts_view(statements, statements.len() as nat),
            ),
        decreases tokens.len() - at_pos,
    {
        if at(tokens, at_pos, &TokenKind::RightBrace) {
            let location = Location(start, tokens[at_pos].location.1);
            return Ok(
                (
                    Item::Statement(Located { node: StmtType::Class { name, statements }, location }),
                    at_pos + 1,
                ),
            );
        }
        let (member, next) = match parse_item(tokens, at_pos, end) {
            Ok(parsed) => parsed,
            Err(e) => {
                return Err(e);
            },
        };
        let after = match expect(tokens, next, &TokenKind::Semicolon, end) {
            Ok(after) => after,
            Err(e) => {
                return Err(e);
            },
        };
        let ghost before = statements;
        statements.push(statement(member));
        proof {
            lemma_stmts_view_prefix(before, statements, before.len() as nat);
        }
        at_pos = after;
    }
}

/// Parses a loop.
fn parse_while(tokens: &Vec<Token>, pos: usize, end: usize) -> (r: Result<
    (Item, usize),
    ParseError,
>)
    requires
        pos < tokens.len(),
        tokens[pos as int].kind is While,
    ensures
        read_item(r, crate::grammar::item(views(tokens@), pos as nat, end)),
        advanced(r, pos, tokens.len() as nat),
    decreases tokens.len() - pos, 19nat,
{
    let start = tokens[pos].location.0;
    let (guard, after_guard) = match parse_expr(tokens, pos + 1, end) {
        Ok(parsed) => parsed,
        Err(e) => {
            return Err(e);
        },
    };
    let (body, next) = match parse_block(tokens, after_guard, end) {
        Ok(parsed) => parsed,
        Err(e) => {
            return Err(e);
        },
    };
    let location = Location(start, body.location.1);
    let body = statement(Item::Expression(body));
    Ok(
        (
            Item::Statement(
                Located { node: StmtType::While { guard, body: Box::new(body) }, location },
            ),
            next,
        ),
    )
}

/// Parses a return.
fn parse_return(tokens: &Vec<Token>, pos: usize, end: usize) -> (r: Result<
    (Item, usize),
    ParseError,
>)
    requires
        pos < tokens.len(),
        tokens[pos as int].kind is Return,
    ensures
        read_item(r, crate::grammar::item(views(tokens@), pos as nat, end)),
        advanced(r, pos, tokens.len() as nat),
    decreases tokens.len() - pos, 19nat,
{
    let start = tokens[pos].location.0;
    let (value, next) = match parse_expr(tokens, pos + 1, end) {
        Ok(parsed) => parsed,
        Err(e) => {
            return Err(e);
        },
    };
    let location = Location(start, value.location.1);
    Ok((Item::Statement(Located { node: StmtType::Return(value), location }), next))
}

/// Parses an assignment or an expression.
fn parse_simple(tokens: &Vec<Token>, pos: usize, end: usize) -> (r: Result<
    (Item, usize),
    ParseError,
>)
    requires
        pos < tokens.len(),
        !(tokens[pos as int].kind is Val || tokens[pos as int].kind is Var
            || tokens[pos as int].kind is Def || tokens[pos as int].kind is Class
            || tokens[pos as int].kind is While || tokens[pos as int].kind is Return),
    ensures
        read_item(r, crate::grammar::item(views(tokens@), pos as nat, end)),
        advanced(r, pos, tokens.len() as nat),
    decreases tokens.len() - pos, 19nat,
{
    let (target, next) = match parse_expr(tokens, pos, end) {
        Ok(parsed) => parsed,
        Err(e) => {
            return Err(e);
        },
    };
    if at(tokens, next, &TokenKind::Assign) {
        let (value, after) = match parse_expr(tokens, next + 1, end) {
            Ok(parsed) => parsed,
            Err(e) => {
                return Err(e);
            },
        };
        match assignment(target, value) {
            Ok(stmt) => Ok((Item::Statement(stmt), after)),
            Err(e) => Err(e),
        }
    } else {
        Ok((Item::Expression(target), next))
    }
}

/// Parses the names of the parameters of a function behind the opening
/// parenthesis, up to and with the closing one.
fn parse_parameters(tokens: &Vec<Token>, pos: usize, end: usize) -> (r: Result<
    (Vec<String>, usize),
    ParseError,
>)
    requires
        pos <= tokens.len(),
    ensures
        match crate::grammar::parameters(views(tokens@), pos as nat, end) {
            Ok((parameters, next)) => r is Ok && names_view(r->Ok_0.0@) == parameters && r->Ok_0.1
                == next,
            Err(e) => r == Err::<(Vec<String>, usize), ParseError>(e),
        },
        advanced(r, pos, tokens.len() as nat),
{
    let mut parameters: Vec<String> = Vec::new();
    if at(tokens, pos, &TokenKind::RightParen) {
        assert(names_view(parameters@) =~= Seq::<Seq<char>>::empty());
        return Ok((parameters, pos + 1));
    }
    let mut at_pos = pos;
    assert(names_view(parameters@) =~= Seq::<Seq<char>>::empty());
    loop
        invariant
            pos <= at_pos <= tokens.len(),
            crate::grammar::parameters(views(tokens@), pos as nat, end)
                == crate::grammar::more_parameters(
                views(tokens@),
                at_pos as nat,
                end,
                names_view(parameters@),
            ),
        decreases tokens.len() - at_pos,
    {
        let name = match identifier(tokens, at_pos, end) {
            Ok(name) => name,
            Err(e) => {
                return Err(e);
            },
        };
        let ghost before = names_view(parameters@);
        parameters.push(name);
        assert(names_view(parameters@) =~= before.push(name@));
        if at(tokens, at_pos + 1, &TokenKind::Comma) {
            at_pos = at_pos + 2;
        } else {
            let after = match expect(tokens, at_pos + 1, &TokenKind::RightParen, end) {
                Ok(after) => after,
                Err(e) => {
                    return Err(e);
                },
            };
            return Ok((parameters, after));
        }
    }
}

/// Parses a program.
pub fn parse_program(tokens: &Vec<Token>, end: usize) -> (r: Result<Stmt, ParseError>)
    ensures
        match crate::grammar::program(views(tokens@), end) {
            Ok(program) => r is Ok && stmt_view(r->Ok_0) == program,
            Err(e) => r == Err::<Stmt, ParseError>(e),
        },
        r is Ok ==> r->Ok_0.node is Top,
{
    let mut stmts: Vec<Stmt> = Vec::new();
    let mut pos: usize = 0;
    while pos < tokens.len()
        invariant
            pos <= tokens.len(),
            crate::grammar::program_items(views(tokens@), 0, end, Seq::empty())
                == crate::grammar::program_items(
                views(tokens@),
                pos as nat,
                end,
                stmts_view(stmts, stmts.len() as nat),
            ),
        decreases tokens.len() - pos,
    {
        let (item, next) = match parse_item(tokens, pos, end) {
            Ok(parsed) => parsed,
            Err(e) => {
                return Err(e);
            },
        };
        let ghost before = stmts;
        stmts.push(statement(item));
        proof {
            lemma_stmts_view_prefix(before, stmts, before.len() as nat);
        }
        if at(tokens, next, &TokenKind::Semicolon) {
            pos = next + 1;
        } else if next < tokens.len() {
            return Err(unexpected(tokens, next, end));
        } else {
            pos = next;
        }
    }
    Ok(Located { node: StmtType::Top(stmts), location: Location(0, end) })
}

/// The parser of whole programs.
pub struct TopLevelParser {}

impl TopLevelParser {
    pub fn new() -> (r: Self) {
        TopLevelParser {  }
    }

    /// Parses a source text into the syntax tree of a program.
    pub fn parse(&self, source: &str) -> (r: Result<Stmt, ParseError>)
        ensures
            match crate::grammar::parsed(source.spec_bytes()) {
                Ok(program) => r is Ok && stmt_view(r->Ok_0) == program,
                Err(e) => r == Err::<Stmt, ParseError>(e),
            },
            r is Ok ==> r->Ok_0.node is Top,
    {
        let tokens = match lex(source) {
            Ok(tokens) => tokens,
            Err(e) => {
                return Err(e);
            },
        };
        parse_program(&tokens, source.as_bytes().len())
    }
}

} // verus!
