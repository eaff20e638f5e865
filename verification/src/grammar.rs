use vstd::prelude::*;
use crate::ast::{ExprNode, ExprView, Located, Opcode, StmtNode, StmtView};
use crate::lexer::{tokens_of, ParseError, ParseErrorKind, TokenKind, TokenView};
use crate::utils::Location;

verus! {

/// What stands between two semicolons: a statement, or an expression whose
/// value the program may use.
pub enum ItemView {
    Statement(StmtView),
    Expression(ExprView),
}

/// How the reading of a part of a program ends: with what was read and the
/// index of the token behind it, or with why the tokens are no such part.
pub type Parsed<T> = Result<(T, nat), ParseError>;

/// The error for the token at `pos`, which cannot stand there, or for the
/// end of the text where there is no token at `pos`.
pub open spec fn unexpected(tokens: Seq<TokenView>, pos: nat, end: usize) -> ParseError {
    if pos < tokens.len() {
        ParseError {
            kind: ParseErrorKind::UnexpectedToken,
            position: tokens[pos as int].location.0,
        }
    } else {
        ParseError { kind: ParseErrorKind::UnexpectedEnd, position: end }
    }
}

/// Whether the token at `pos` is of the given kind.
pub open spec fn is_at(tokens: Seq<TokenView>, pos: nat, kind: TokenKind<Seq<char>>) -> bool {
    pos < tokens.len() && tokens[pos as int].kind == kind
}

/// The index behind the token of the given kind that must stand at `pos`.
pub open spec fn expect(
    tokens: Seq<TokenView>,
    pos: nat,
    kind: TokenKind<Seq<char>>,
    end: usize,
) -> Result<nat, ParseError> {
    if is_at(tokens, pos, kind) {
        Ok(pos + 1)
    } else {
        Err(unexpected(tokens, pos, end))
    }
}

/// The identifier that must stand at `pos`.
pub open spec fn identifier(tokens: Seq<TokenView>, pos: nat, end: usize) -> Result<
    Seq<char>,
    ParseError,
> {
    if pos < tokens.len() && tokens[pos as int].kind is Identifier {
        Ok(tokens[pos as int].kind->Identifier_0)
    } else {
        Err(unexpected(tokens, pos, end))
    }
}

/// The operator that compares, if the token at `pos` is one.
pub open spec fn comparison_at(tokens: Seq<TokenView>, pos: nat) -> Option<Opcode> {
    if pos >= tokens.len() {
        None
    } else {
        match tokens[pos as int].kind {
            TokenKind::Less => Some(Opcode::Less),
            TokenKind::LessEq => Some(Opcode::LessEq),
            TokenKind::Greater => Some(Opcode::Greater),
            TokenKind::GreaterEq => Some(Opcode::GreaterEq),
            TokenKind::EqualEqual => Some(Opcode::Eq),
            TokenKind::NotEqual => Some(Opcode::Neq),
            _ => None,
        }
    }
}

/// The operator that adds or subtracts, if the token at `pos` is one.
pub open spec fn additive_at(tokens: Seq<TokenView>, pos: nat) -> Option<Opcode> {
    if pos >= tokens.len() {
        None
    } else {
        match tokens[pos as int].kind {
            TokenKind::Plus => Some(Opcode::Add),
            TokenKind::Minus => Some(Opcode::Sub),
            _ => None,
        }
    }
}

/// The operator that multiplies or divides, if the token at `pos` is one.
pub open spec fn multiplicative_at(tokens: Seq<TokenView>, pos: nat) -> Option<Opcode> {
    if pos >= tokens.len() {
        None
    } else {
        match tokens[pos as int].kind {
            TokenKind::Star => Some(Opcode::Mul),
            TokenKind::Slash => Some(Opcode::Div),
            TokenKind::Percent => Some(Opcode::Mod),
            _ => None,
        }
    }
}

/// The application of a binary operator, which spans both operands.
pub open spec fn binary(op: Opcode, left: ExprView, right: ExprView) -> ExprView {
    Located {
        node: ExprNode::Operator { op, arguments: seq![left, right] },
        location: Location(left.location.0, right.location.1),
    }
}

/// The item as a statement: an expression becomes an expression statement.
pub open spec fn statement(item: ItemView) -> StmtView {
    match item {
        ItemView::Statement(stmt) => stmt,
        ItemView::Expression(expr) => Located {
            node: StmtNode::Expression(expr),
            location: expr.location,
        },
    }
}

/// The assignment of `value` to what `target` reads: a variable, a member
/// of an object, or an element of a list. Nothing else can be assigned to.
pub open spec fn assignment(target: ExprView, value: ExprView) -> Result<StmtView, ParseError> {
    let location = Location(target.location.0, value.location.1);
    let refused = ParseError { kind: ParseErrorKind::InvalidTarget, position: target.location.0 };
    match target.node {
        ExprNode::AccessVariable { name } => Ok(
            Located { node: StmtNode::AssignVariable { name, value }, location },
        ),
        ExprNode::MemberRead { left, right } => Ok(
            Located { node: StmtNode::MemberStore { left: *left, right, val: value }, location },
        ),
        ExprNode::AccessList { list, index } => match (list.node, index.node) {
            (StmtNode::Expression(list), StmtNode::Expression(index)) => Ok(
                Located { node: StmtNode::AssignList { list, index, value }, location },
            ),
            _ => Err(refused),
        },
        _ => Err(refused),
    }
}

/// An expression: sums, compared with one another from left to right.
/// Comparisons bind loosest, then sums, then products, then the negation,
/// then calls of methods, member accesses and indexing.
pub open spec fn expr(tokens: Seq<TokenView>, pos: nat, end: usize) -> Parsed<ExprView>
    decreases tokens.len() - pos, 10nat,
{
    match sum(tokens, pos, end) {
        Ok((left, next)) => if pos < next <= tokens.len() {
            comparisons(tokens, next, end, left)
        } else {
            Err(unexpected(tokens, pos, end))
        },
        Err(e) => Err(e),
    }
}

/// The comparisons that follow `left`.
pub open spec fn comparisons(tokens: Seq<TokenView>, pos: nat, end: usize, left: ExprView) -> Parsed<
    ExprView,
>
    decreases tokens.len() - pos, 0nat,
{
    match comparison_at(tokens, pos) {
        Some(op) => match sum(tokens, pos + 1, end) {
            Ok((right, next)) => if pos < next <= tokens.len() {
                comparisons(tokens, next, end, binary(op, left, right))
            } else {
                Err(unexpected(tokens, pos, end))
            },
            Err(e) => Err(e),
        },
        None => Ok((left, pos)),
    }
}

/// A sum: products, added and subtracted from left to right.
pub open spec fn sum(tokens: Seq<TokenView>, pos: nat, end: usize) -> Parsed<ExprView>
    decreases tokens.len() - pos, 8nat,
{
    match product(tokens, pos, end) {
        Ok((left, next)) => if pos < next <= tokens.len() {
            sums(tokens, next, end, left)
        } else {
            Err(unexpected(tokens, pos, end))
        },
        Err(e) => Err(e),
    }
}

/// The additions and subtractions that follow `left`.
pub open spec fn sums(tokens: Seq<TokenView>, pos: nat, end: usize, left: ExprView) -> Parsed<
    ExprView,
>
    decreases tokens.len() - pos, 0nat,
{
    match additive_at(tokens, pos) {
        Some(op) => match product(tokens, pos + 1, end) {
            Ok((right, next)) => if pos < next <= tokens.len() {
                sums(tokens, next, end, binary(op, left, right))
            } else {
                Err(unexpected(tokens, pos, end))
            },
            Err(e) => Err(e),
        },
        None => Ok((left, pos)),
    }
}

/// A product: negations, multiplied and divided from left to right.
pub open spec fn product(tokens: Seq<TokenView>, pos: nat, end: usize) -> Parsed<ExprView>
    decreases tokens.len() - pos, 6nat,
{
    match unary(tokens, pos, end) {
        Ok((left, next)) => if pos < next <= tokens.len() {
            products(tokens, next, end, left)
        } else {
            Err(unexpected(tokens, pos, end))
        },
        Err(e) => Err(e),
    }
}

/// The multiplications and divisions that follow `left`.
pub open spec fn products(tokens: Seq<TokenView>, pos: nat, end: usize, left: ExprView) -> Parsed<
    ExprView,
>
    decreases tokens.len() - pos, 0nat,
{
    match multiplicative_at(tokens, pos) {
        Some(op) => match unary(tokens, pos + 1, end) {
            Ok((right, next)) => if pos < next <= tokens.len() {
                products(tokens, next, end, binary(op, left, right))
            } else {
                Err(unexpected(tokens, pos, end))
            },
            Err(e) => Err(e),
        },
        None => Ok((left, pos)),
    }
}

/// A negation, any number of times, of what `postfix` reads.
pub open spec fn unary(tokens: Seq<TokenView>, pos: nat, end: usize) -> Parsed<ExprView>
    decreases tokens.len() - pos, 4nat,
{
    if is_at(tokens, pos, TokenKind::Minus) {
        match unary(tokens, pos + 1, end) {
            Ok((operand, next)) => Ok(
                (
                    Located {
                        node: ExprNode::Operator { op: Opcode::Negate, arguments: seq![operand] },
                        location: Location(tokens[pos as int].location.0, operand.location.1),
                    },
                    next,
                ),
            ),
            Err(e) => Err(e),
        }
    } else {
        postfix(tokens, pos, end)
    }
}

/// A primary expression followed by any number of member accesses, method
/// calls and indexings.
pub open spec fn postfix(tokens: Seq<TokenView>, pos: nat, end: usize) -> Parsed<ExprView>
    decreases tokens.len() - pos, 3nat,
{
    match primary(tokens, pos, end) {
        Ok((left, next)) => if pos < next <= tokens.len() {
            postfixes(tokens, next, end, left)
        } else {
            Err(unexpected(tokens, pos, end))
        },
        Err(e) => Err(e),
    }
}

/// The member accesses, method calls and indexings that follow `left`.
pub open spec fn postfixes(tokens: Seq<TokenView>, pos: nat, end: usize, left: ExprView) -> Parsed<
    ExprView,
>
    decreases tokens.len() - pos, 30nat,
{
    if is_at(tokens, pos, TokenKind::Dot) {
        match member(tokens, pos, end, left) {
            Ok((whole, next)) => if pos < next <= tokens.len() {
                postfixes(tokens, next, end, whole)
            } else {
                Err(unexpected(tokens, pos, end))
            },
            Err(e) => Err(e),
        }
    } else if is_at(tokens, pos, TokenKind::LeftBracket) {
        match element(tokens, pos, end, left) {
            Ok((whole, next)) => if pos < next <= tokens.len() {
                postfixes(tokens, next, end, whole)
            } else {
                Err(unexpected(tokens, pos, end))
            },
            Err(e) => Err(e),
        }
    } else {
        Ok((left, pos))
    }
}

/// The read of a member of `left`, or the call of a method of `left`
/// where an opening parenthesis follows the name: behind the dot at `pos`.
pub open spec fn member(tokens: Seq<TokenView>, pos: nat, end: usize, left: ExprView) -> Parsed<
    ExprView,
>
    decreases tokens.len() - pos, 25nat,
{
    match identifier(tokens, pos + 1, end) {
        Ok(name) => if is_at(tokens, pos + 2, TokenKind::LeftParen) {
            match arguments(tokens, pos + 3, end) {
                Ok((arguments, next)) => if pos + 3 < next <= tokens.len() {
                    Ok(
                        (
                            Located {
                                node: ExprNode::MethodCall { left: Box::new(left), name, arguments },
                                location: Location(left.location.0, tokens[next - 1].location.1),
                            },
                            next,
                        ),
                    )
                } else {
                    Err(unexpected(tokens, pos, end))
                },
                Err(e) => Err(e),
            }
        } else {
            Ok(
                (
                    Located {
                        node: ExprNode::MemberRead { left: Box::new(left), right: name },
                        location: Location(left.location.0, tokens[pos as int + 1].location.1),
                    },
                    pos + 2,
                ),
            )
        },
        Err(e) => Err(e),
    }
}

/// The element of `left` at an index: behind the opening bracket at `pos`,
/// up to and with the closing one.
pub open spec fn element(tokens: Seq<TokenView>, pos: nat, end: usize, left: ExprView) -> Parsed<
    ExprView,
>
    decreases tokens.len() - pos, 25nat,
{
    if pos >= tokens.len() {
        Err(unexpected(tokens, pos, end))
    } else {
        match expr(tokens, pos + 1, end) {
            Ok((index, next)) => match expect(tokens, next, TokenKind::RightBracket, end) {
                Ok(after) => Ok(
                    (
                        Located {
                            node: ExprNode::AccessList {
                                list: Box::new(statement(ItemView::Expression(left))),
                                index: Box::new(statement(ItemView::Expression(index))),
                            },
                            location: Location(left.location.0, tokens[next as int].location.1),
                        },
                        after,
                    ),
                ),
                Err(e) => Err(e),
            },
            Err(e) => Err(e),
        }
    }
}

/// The arguments of a call behind the opening parenthesis, up to and with
/// the closing one: expressions separated by commas, or nothing.
pub open spec fn arguments(tokens: Seq<TokenView>, pos: nat, end: usize) -> Parsed<Seq<ExprView>>
    decreases tokens.len() - pos, 13nat,
{
    if is_at(tokens, pos, TokenKind::RightParen) {
        Ok((Seq::empty(), pos + 1))
    } else {
        more_arguments(tokens, pos, end, Seq::empty())
    }
}

/// The arguments from `pos` on, behind the arguments `before`.
pub open spec fn more_arguments(
    tokens: Seq<TokenView>,
    pos: nat,
    end: usize,
    before: Seq<ExprView>,
) -> Parsed<Seq<ExprView>>
    decreases tokens.len() - pos, 12nat,
{
    match expr(tokens, pos, end) {
        Ok((argument, next)) => if is_at(tokens, next, TokenKind::Comma) {
            if pos < next {
                more_arguments(tokens, next + 1, end, before.push(argument))
            } else {
                Err(unexpected(tokens, pos, end))
            }
        } else {
            match expect(tokens, next, TokenKind::RightParen, end) {
                Ok(after) => Ok((before.push(argument), after)),
                Err(e) => Err(e),
            }
        },
        Err(e) => Err(e),
    }
}

/// A primary expression: a literal, a variable, a call of a function, an
/// expression in parentheses, a block, or a conditional.
pub open spec fn primary(tokens: Seq<TokenView>, pos: nat, end: usize) -> Parsed<ExprView>
    decreases tokens.len() - pos, 2nat,
{
    if pos >= tokens.len() {
        Err(unexpected(tokens, pos, end))
    } else {
        let location = tokens[pos as int].location;
        match tokens[pos as int].kind {
            TokenKind::Integer(value) => Ok(
                (Located { node: ExprNode::Integer(value), location }, pos + 1),
            ),
            TokenKind::Text(text) => Ok((Located { node: ExprNode::String(text), location }, pos + 1)),
            TokenKind::True => Ok((Located { node: ExprNode::Bool(true), location }, pos + 1)),
            TokenKind::False => Ok((Located { node: ExprNode::Bool(false), location }, pos + 1)),
            TokenKind::Nothing => Ok((Located { node: ExprNode::NoneVal, location }, pos + 1)),
            TokenKind::Identifier(name) => if is_at(tokens, pos + 1, TokenKind::LeftParen) {
                match arguments(tokens, pos + 2, end) {
                    Ok((arguments, next)) => if pos + 2 < next <= tokens.len() {
                        Ok(
                            (
                                Located {
                                    node: ExprNode::CallFunction { name, arguments },
                                    location: Location(location.0, tokens[next - 1].location.1),
                                },
                                next,
                            ),
                        )
                    } else {
                        Err(unexpected(tokens, pos, end))
                    },
                    Err(e) => Err(e),
                }
            } else {
                Ok((Located { node: ExprNode::AccessVariable { name }, location }, pos + 1))
            },
            TokenKind::LeftParen => match expr(tokens, pos + 1, end) {
                Ok((inner, next)) => match expect(tokens, next, TokenKind::RightParen, end) {
                    Ok(after) => Ok((inner, after)),
                    Err(e) => Err(e),
                },
                Err(e) => Err(e),
            },
            TokenKind::LeftBrace => block(tokens, pos, end),
            TokenKind::If => conditional(tokens, pos, end),
            _ => Err(unexpected(tokens, pos, end)),
        }
    }
}

/// A block: items in braces, each followed by a semicolon but for the
/// last, which then is an expression and the value of the block. A block
/// without such an expression has the value none.
pub open spec fn block(tokens: Seq<TokenView>, pos: nat, end: usize) -> Parsed<ExprView>
    decreases tokens.len() - pos, 1nat,
{
    match expect(tokens, pos, TokenKind::LeftBrace, end) {
        Ok(after) => block_items(tokens, after, end, tokens[pos as int].location.0, Seq::empty()),
        Err(e) => Err(e),
    }
}

/// The items of a block from `pos` on, behind the statements `before`, up
/// to and with the closing brace. The block started at the byte `start`.
pub open spec fn block_items(
    tokens: Seq<TokenView>,
    pos: nat,
    end: usize,
    start: usize,
    before: Seq<StmtView>,
) -> Parsed<ExprView>
    decreases tokens.len() - pos, 21nat,
{
    if is_at(tokens, pos, TokenKind::RightBrace) {
        let closing = tokens[pos as int].location;
        Ok(
            (
                Located {
                    node: ExprNode::Block(
                        before,
                        Box::new(Located { node: ExprNode::NoneVal, location: closing }),
                    ),
                    location: Location(start, closing.1),
                },
                pos + 1,
            ),
        )
    } else {
        match item(tokens, pos, end) {
            Ok((read, next)) => if is_at(tokens, next, TokenKind::Semicolon) {
                if pos < next {
                    block_items(tokens, next + 1, end, start, before.push(statement(read)))
                } else {
                    Err(unexpected(tokens, pos, end))
                }
            } else {
                match expect(tokens, next, TokenKind::RightBrace, end) {
                    Ok(after) => match read {
                        ItemView::Expression(value) => Ok(
                            (
                                Located {
                                    node: ExprNode::Block(before, Box::new(value)),
                                    location: Location(start, tokens[next as int].location.1),
                                },
                                after,
                            ),
                        ),
                        ItemView::Statement(_) => Err(
                            ParseError {
                                kind: ParseErrorKind::UnexpectedToken,
                                position: tokens[next as int].location.0,
                            },
                        ),
                    },
                    Err(e) => Err(e),
                }
            },
            Err(e) => Err(e),
        }
    }
}

/// A conditional: `if`, the guard, a block, then any number of `elif` with
/// a guard and a block, then `else` and a block or nothing. What follows an
/// `elif` is the else branch: a conditional of its own.
pub open spec fn conditional(tokens: Seq<TokenView>, pos: nat, end: usize) -> Parsed<ExprView>
    decreases tokens.len() - pos, 1nat,
{
    if pos >= tokens.len() {
        Err(unexpected(tokens, pos, end))
    } else {
        let start = tokens[pos as int].location.0;
        match expr(tokens, pos + 1, end) {
            Ok((guard, after_guard)) => if pos < after_guard <= tokens.len() {
                match block(tokens, after_guard, end) {
                    Ok((then_branch, after_then)) => if after_guard < after_then <= tokens.len() {
                        if is_at(tokens, after_then, TokenKind::Elif) {
                            match conditional(tokens, after_then, end) {
                                Ok((rest, next)) => Ok(
                                    (
                                        Located {
                                            node: ExprNode::Conditional {
                                                guard: Box::new(guard),
                                                then_branch: Box::new(then_branch),
                                                else_branch: Some(Box::new(rest)),
                                            },
                                            location: Location(start, rest.location.1),
                                        },
                                        next,
                                    ),
                                ),
                                Err(e) => Err(e),
                            }
                        } else if is_at(tokens, after_then, TokenKind::Else) {
                            match block(tokens, after_then + 1, end) {
                                Ok((else_branch, next)) => Ok(
                                    (
                                        Located {
                                            node: ExprNode::Conditional {
                                                guard: Box::new(guard),
                                                then_branch: Box::new(then_branch),
                                                else_branch: Some(Box::new(else_branch)),
                                            },
                                            location: Location(start, else_branch.location.1),
                                        },
                                        next,
                                    ),
                                ),
                                Err(e) => Err(e),
                            }
                        } else {
                            Ok(
                                (
                                    Located {
                                        node: ExprNode::Conditional {
                                            guard: Box::new(guard),
                                            then_branch: Box::new(then_branch),
                                            else_branch: None,
                                        },
                                        location: Location(start, then_branch.location.1),
                                    },
                                    after_then,
                                ),
                            )
                        }
                    } else {
                        Err(unexpected(tokens, pos, end))
                    },
                    Err(e) => Err(e),
                }
            } else {
                Err(unexpected(tokens, pos, end))
            },
            Err(e) => Err(e),
        }
    }
}

/// The names of the parameters of a function behind the opening
/// parenthesis, up to and with the closing one.
pub open spec fn parameters(tokens: Seq<TokenView>, pos: nat, end: usize) -> Parsed<Seq<Seq<char>>> {
    if is_at(tokens, pos, TokenKind::RightParen) {
        Ok((Seq::empty(), pos + 1))
    } else {
        more_parameters(tokens, pos, end, Seq::empty())
    }
}

/// The parameters from `pos` on, behind the parameters `before`.
pub open spec fn more_parameters(
    tokens: Seq<TokenView>,
    pos: nat,
    end: usize,
    before: Seq<Seq<char>>,
) -> Parsed<Seq<Seq<char>>>
    decreases tokens.len() - pos,
{
    match identifier(tokens, pos, end) {
        Ok(name) => if is_at(tokens, pos + 1, TokenKind::Comma) {
            more_parameters(tokens, pos + 2, end, before.push(name))
        } else {
            match expect(tokens, pos + 1, TokenKind::RightParen, end) {
                Ok(after) => Ok((before.push(name), after)),
                Err(e) => Err(e),
            }
        },
        Err(e) => Err(e),
    }
}

/// A statement or an expression: the declaration of a variable, the
/// definition of a function or of a class, a loop, a return, an
/// assignment, or an expression.
pub open spec fn item(tokens: Seq<TokenView>, pos: nat, end: usize) -> Parsed<ItemView>
    decreases tokens.len() - pos, 20nat,
{
    if pos >= tokens.len() {
        Err(unexpected(tokens, pos, end))
    } else {
        let start = tokens[pos as int].location.0;
        match tokens[pos as int].kind {
            TokenKind::Val | TokenKind::Var => match identifier(tokens, pos + 1, end) {
                Ok(name) => match expect(tokens, pos + 2, TokenKind::Assign, end) {
                    Ok(after) => match expr(tokens, after, end) {
                        Ok((value, next)) => Ok(
                            (
                                ItemView::Statement(
                                    Located {
                                        node: StmtNode::Variable {
                                            name,
                                            mutable: tokens[pos as int].kind is Var,
                                            value,
                                        },
                                        location: Location(start, value.location.1),
                                    },
                                ),
                                next,
                            ),
                        ),
                        Err(e) => Err(e),
                    },
                    Err(e) => Err(e),
                },
                Err(e) => Err(e),
            },
            TokenKind::Def => match identifier(tokens, pos + 1, end) {
                Ok(name) => match expect(tokens, pos + 2, TokenKind::LeftParen, end) {
                    Ok(after_paren) => match parameters(tokens, after_paren, end) {
                        Ok((parameters, after_parameters)) => match expect(
                            tokens,
                            after_parameters,
                            TokenKind::Assign,
                            end,
                        ) {
                            Ok(after) => if pos < after <= tokens.len() {
                                match expr(tokens, after, end) {
                                    Ok((body, next)) => Ok(
                                        (
                                            ItemView::Statement(
                                                Located {
                                                    node: StmtNode::Function { name, parameters, body },
                                                    location: Location(start, body.location.1),
                                                },
                                            ),
                                            next,
                                        ),
                                    ),
                                    Err(e) => Err(e),
                                }
                            } else {
                                Err(unexpected(tokens, pos, end))
                            },
                            Err(e) => Err(e),
                        },
                        Err(e) => Err(e),
                    },
                    Err(e) => Err(e),
                },
                Err(e) => Err(e),
            },
            TokenKind::Class => match identifier(tokens, pos + 1, end) {
                Ok(name) => match expect(tokens, pos + 2, TokenKind::LeftBrace, end) {
                    Ok(after) => members(tokens, after, end, start, name, Seq::empty()),
                    Err(e) => Err(e),
                },
                Err(e) => Err(e),
            },
            TokenKind::While => match expr(tokens, pos + 1, end) {
                Ok((guard, after_guard)) => if pos < after_guard <= tokens.len() {
                    match block(tokens, after_guard, end) {
                        Ok((body, next)) => Ok(
                            (
                                ItemView::Statement(
                                    Located {
                                        node: StmtNode::While {
                                            guard,
                                            body: Box::new(statement(ItemView::Expression(body))),
                                        },
                                        location: Location(start, body.location.1),
                                    },
                                ),
                                next,
                            ),
                        ),
                        Err(e) => Err(e),
                    }
                } else {
                    Err(unexpected(tokens, pos, end))
                },
                Err(e) => Err(e),
            },
            TokenKind::Return => match expr(tokens, pos + 1, end) {
                Ok((value, next)) => Ok(
                    (
                        ItemView::Statement(
                            Located {
                                node: StmtNode::Return(value),
                                location: Location(start, value.location.1),
                            },
                        ),
                        next,
                    ),
                ),
                Err(e) => Err(e),
            },
            _ => match expr(tokens, pos, end) {
                Ok((target, next)) => if is_at(tokens, next, TokenKind::Assign) {
                    if pos < next {
                        match expr(tokens, next + 1, end) {
                            Ok((value, after)) => match assignment(target, value) {
                                Ok(stmt) => Ok((ItemView::Statement(stmt), after)),
                                Err(e) => Err(e),
                            },
                            Err(e) => Err(e),
                        }
                    } else {
                        Err(unexpected(tokens, pos, end))
                    }
                } else {
                    Ok((ItemView::Expression(target), next))
                },
                Err(e) => Err(e),
            },
        }
    }
}

/// The members of a class from `pos` on, behind the members `before`, up
/// to and with the closing brace: items, each followed by a semicolon.
pub open spec fn members(
    tokens: Seq<TokenView>,
    pos: nat,
    end: usize,
    start: usize,
    name: Seq<char>,
    before: Seq<StmtView>,
) -> Parsed<ItemView>
    decreases tokens.len() - pos, 21nat,
{
    if is_at(tokens, pos, TokenKind::RightBrace) {
        Ok(
            (
                ItemView::Statement(
                    Located {
                        node: StmtNode::Class { name, statements: before },
                        location: Location(start, tokens[pos as int].location.1),
                    },
                ),
                pos + 1,
            ),
        )
    } else {
        match item(tokens, pos, end) {
            Ok((member, next)) => match expect(tokens, next, TokenKind::Semicolon, end) {
                Ok(after) => if pos < next {
                    members(tokens, after, end, start, name, before.push(statement(member)))
                } else {
                    Err(unexpected(tokens, pos, end))
                },
                Err(e) => Err(e),
            },
            Err(e) => Err(e),
        }
    }
}

/// The items of a program from `pos` on, behind the statements `before`:
/// items separated by semicolons; the last one may go without.
pub open spec fn program_items(
    tokens: Seq<TokenView>,
    pos: nat,
    end: usize,
    before: Seq<StmtView>,
) -> Result<Seq<StmtView>, ParseError>
    decreases tokens.len() - pos,
{
    if pos >= tokens.len() {
        Ok(before)
    } else {
        match item(tokens, pos, end) {
            Ok((read, next)) => if is_at(tokens, next, TokenKind::Semicolon) {
                if pos < next {
                    program_items(tokens, next + 1, end, before.push(statement(read)))
                } else {
                    Err(unexpected(tokens, pos, end))
                }
            } else if next < tokens.len() {
                Err(unexpected(tokens, next, end))
            } else {
                Ok(before.push(statement(read)))
            },
            Err(e) => Err(e),
        }
    }
}

/// The program that the tokens are: its statements as one top-level
/// statement, which spans the text up to the byte `end`.
pub open spec fn program(tokens: Seq<TokenView>, end: usize) -> Result<StmtView, ParseError> {
    match program_items(tokens, 0, end, Seq::empty()) {
        Ok(stmts) => Ok(Located { node: StmtNode::Top(stmts), location: Location(0, end) }),
        Err(e) => Err(e),
    }
}

/// The program that a source text is.
pub open spec fn parsed(bytes: Seq<u8>) -> Result<StmtView, ParseError> {
    match tokens_of(bytes) {
        Ok(tokens) => program(tokens, bytes.len() as usize),
        Err(e) => Err(e),
    }
}

} // verus!
