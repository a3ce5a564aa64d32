use vstd::prelude::*;

use crate::token::{Span, SpanContainer};
use crate::won_token::WonTokenKind;

verus! {

/// Where a declared binding is stored: a plain binding or a constant.
#[derive(Debug, Clone, Copy, PartialEq, Eq, Structural)]
pub enum StorageKind {
    Simple,
    Constant,
}

/// The kind of a literal expression.
#[derive(Debug, Clone, Copy, PartialEq, Eq, Structural)]
pub enum LiteralKind {
    Bool,
    Integer,
}

/// A name access; the name itself is carried by the surrounding span.
#[derive(Debug)]
pub struct Access;

/// An expression of the scripting language.
#[derive(Debug)]
pub enum Expression<'src> {
    FunctionCall {
        access: SpanContainer<'src, Access>,
        items: Vec<SpanContainer<'src, Expression<'src>>>,
    },
    Access(Access),
    Literal(LiteralKind),
    PrimitiveCast { expression: SpanContainer<'src, Box<Expression<'src>>>, ty: Span<'src> },
}

/// One statement of the scripting language: a declaration or assignment, a
/// stray statement terminator, or a bare expression.
#[derive(Debug)]
pub enum Statement<'src> {
    Assignement {
        storage: Option<SpanContainer<'src, StorageKind>>,
        identifier: Span<'src>,
        ty: Option<Span<'src>>,
        expression: Option<SpanContainer<'src, Expression<'src>>>,
    },
    Trail,
    Expression(SpanContainer<'src, Expression<'src>>),
}

impl<'src> From<SpanContainer<'src, Expression<'src>>> for Statement<'src> {
    fn from(value: SpanContainer<'src, Expression<'src>>) -> (r: Statement<'src>)
        ensures
            r == Statement::Expression(value),
    {
        Statement::Expression(value)
    }
}

impl<'src> vstd::std_specs::convert::FromSpecImpl<SpanContainer<'src, Expression<'src>>> for Statement<'src> {
    open spec fn obeys_from_spec() -> bool {
        true
    }

    open spec fn from_spec(value: SpanContainer<'src, Expression<'src>>) -> Statement<'src> {
        Statement::Expression(value)
    }
}

/// The expression an access is recovered from: an access expression yields
/// its access, anything else collapses to a fresh one.
pub open spec fn access_of_expression(value: Expression) -> Access {
    match value {
        Expression::Access(access) => access,
        _ => Access,
    }
}

impl<'src> From<Expression<'src>> for Access {
    fn from(value: Expression<'src>) -> (r: Access)
        ensures
            r == access_of_expression(value),
    {
        match value {
            Expression::Access(access) => access,
            _ => Access,
        }
    }
}

impl<'src> vstd::std_specs::convert::FromSpecImpl<Expression<'src>> for Access {
    open spec fn obeys_from_spec() -> bool {
        true
    }

    open spec fn from_spec(value: Expression<'src>) -> Access {
        access_of_expression(value)
    }
}

/// The contexts an expression can be parsed in: a whole statement, inside a
/// parenthesised group, or as one item of an argument pack.
#[derive(Debug, Clone, Copy, PartialEq, Eq, Structural)]
pub enum ExpressionContext {
    Simple,
    InnerGroup,
    Pack,
}

impl ExpressionContext {
    /// Which token ends an expression in this context: a statement
    /// terminator ends a statement-level expression, a closing parenthesis
    /// ends a group or a pack item, an item separator ends a pack item.
    pub open spec fn should_break_spec(self, kind: WonTokenKind) -> bool {
        match kind {
            WonTokenKind::EndStatement => self == ExpressionContext::Simple,
            WonTokenKind::GroupEnd => self == ExpressionContext::InnerGroup || self
                == ExpressionContext::Pack,
            WonTokenKind::ItemSeparator => self == ExpressionContext::Pack,
            _ => false,
        }
    }

    /// Whether `kind` ends an expression parsed in this context.
    pub fn should_break(&self, kind: &WonTokenKind) -> (r: bool)
        ensures
            r == self.should_break_spec(*kind),
    {
        match kind {
            WonTokenKind::EndStatement => *self == ExpressionContext::Simple,
            WonTokenKind::GroupEnd => *self == ExpressionContext::InnerGroup || *self
                == ExpressionContext::Pack,
            WonTokenKind::ItemSeparator => *self == ExpressionContext::Pack,
            _ => false,
        }
    }
}

} // verus!
