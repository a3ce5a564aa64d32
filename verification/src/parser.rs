use vstd::prelude::*;

use crate::statement::{
    Access, Expression, ExpressionContext, LiteralKind, Statement, StorageKind,
};
use crate::token::{tokens_wf, Span, SpanContainer, Token, TokenKind};
use crate::won_token::WonTokenKind;

verus! {

/// What can go wrong while parsing a token stream.
#[derive(Debug)]
pub enum ParserError<K: TokenKind> {
    /// The tokens ended where more were needed.
    UnexpectedEOF,
    /// A token of the first kind stood where one of the second was needed.
    UnexpectedToken(K, K),
    /// A token that cannot begin a statement or an expression.
    ExpectedStatement(K),
}

/// A parser: turns a token list into a list of syntax items, on token lists
/// its language accepts.
pub trait Parser<'src, K: TokenKind, Output>: Sized {
    /// The token lists this parser accepts.
    spec fn accepts(tokens: Seq<Token<'src, K>>) -> bool;

    fn parse(tokens: Vec<Token<'src, K>>) -> Result<Vec<Output>, ParserError<K>>
        requires
            Self::accepts(tokens@),
    ;
}

/// How the leading token of a statement decides the statement's shape: a
/// storage keyword opens a declaration carrying that keyword, a statement
/// terminator alone is a trailing statement, and anything else is a bare
/// expression statement.
pub open spec fn statement_shape_for<'src>(
    ts: Seq<Token<'src, WonTokenKind>>,
    p: int,
    s: Statement<'src>,
) -> bool {
    &&& ts[p].kind == WonTokenKind::EndStatement ==> (s matches Statement::Trail)
    &&& ts[p].kind == WonTokenKind::Let ==> (s matches Statement::Assignement {
        storage: Some(st),
        ..
    } && st.item == StorageKind::Simple && st.span == ts[p].span)
    &&& ts[p].kind == WonTokenKind::Const ==> (s matches Statement::Assignement {
        storage: Some(st),
        ..
    } && st.item == StorageKind::Constant && st.span == ts[p].span)
    &&& ts[p].kind != WonTokenKind::EndStatement && ts[p].kind != WonTokenKind::Let && ts[p].kind
        != WonTokenKind::Const ==> (s matches Statement::Expression(_))
}

/// Where an expression that starts at `p` in context `ctx` ends, when the
/// grammar accepts one there: the cursor position just past its last
/// consumed token. An operand is a literal, an identifier, or a
/// parenthesised expression; it may be followed by a cast (`as`, a type
/// name, and the context's terminator, all consumed) or, for an identifier
/// operand, an argument pack closed by the group end and the statement
/// terminator (both consumed); otherwise the context's terminator must
/// follow, unconsumed.
pub open spec fn expr_end<'src>(
    ts: Seq<Token<'src, WonTokenKind>>,
    p: int,
    ctx: ExpressionContext,
) -> Option<int>
    decreases ts.len() - p, 0int,
{
    if p < 0 || p >= ts.len() {
        None
    } else {
        let lhs_kind = ts[p].kind;
        let after_lhs: Option<int> = if lhs_kind == WonTokenKind::GroupStart {
            expr_end(ts, p + 1, ExpressionContext::InnerGroup)
        } else if lhs_kind == WonTokenKind::True || lhs_kind == WonTokenKind::False || lhs_kind
            == WonTokenKind::Number || lhs_kind == WonTokenKind::Identifier {
            Some(p + 1)
        } else {
            None
        };
        match after_lhs {
            None => None,
            Some(q) => if q <= p || q >= ts.len() {
                None
            } else {
                let rk = ts[q].kind;
                let end_kind = if ctx == ExpressionContext::InnerGroup {
                    WonTokenKind::GroupEnd
                } else {
                    WonTokenKind::EndStatement
                };
                if rk == WonTokenKind::As {
                    if q + 2 < ts.len() && ts[q + 1].kind == WonTokenKind::Identifier && ts[q
                        + 2].kind == end_kind {
                        Some(q + 3)
                    } else {
                        None
                    }
                } else if rk == WonTokenKind::GroupStart {
                    if lhs_kind == WonTokenKind::Identifier {
                        match items_scan(ts, q + 1) {
                            None => None,
                            Some(stop) => if stop.0 + 1 < ts.len() && ts[stop.0].kind
                                == WonTokenKind::GroupEnd && ts[stop.0 + 1].kind
                                == WonTokenKind::EndStatement {
                                Some(stop.0 + 2)
                            } else {
                                None
                            },
                        }
                    } else {
                        None
                    }
                } else if ctx.should_break_spec(rk) {
                    Some(q)
                } else {
                    None
                }
            },
        }
    }
}

/// Scan an argument pack from `p`: item separators are skipped, each other
/// token must begin a pack expression, and the scan stops at a group end or
/// at the end of the tokens. The result is the stop position and how many
/// argument expressions were read.
pub open spec fn items_scan<'src>(ts: Seq<Token<'src, WonTokenKind>>, p: int) -> Option<(int, int)>
    decreases ts.len() - p, 1int,
{
    if p < 0 || p >= ts.len() {
        Some((p, 0))
    } else if ts[p].kind == WonTokenKind::GroupEnd {
        Some((p, 0))
    } else if ts[p].kind == WonTokenKind::ItemSeparator {
        items_scan(ts, p + 1)
    } else {
        match expr_end(ts, p, ExpressionContext::Pack) {
            None => None,
            Some(e) => if e <= p || e > ts.len() {
                None
            } else {
                match items_scan(ts, e) {
                    None => None,
                    Some(rest) => Some((rest.0, rest.1 + 1)),
                }
            },
        }
    }
}

/// Where a declaration statement ends, when the grammar accepts one whose
/// identifier stands at `p` (the storage keyword at `p - 1` is already
/// consumed): optionally a declared type, then an assigned expression or
/// the bare statement terminator.
pub open spec fn decl_end<'src>(ts: Seq<Token<'src, WonTokenKind>>, p: int) -> Option<int> {
    if p < 0 || p + 1 >= ts.len() || ts[p].kind != WonTokenKind::Identifier {
        None
    } else if ts[p + 1].kind == WonTokenKind::DeclType {
        if p + 3 < ts.len() && ts[p + 2].kind == WonTokenKind::Identifier {
            if ts[p + 3].kind == WonTokenKind::Assign {
                expr_end(ts, p + 4, ExpressionContext::Simple)
            } else if ts[p + 3].kind == WonTokenKind::EndStatement {
                Some(p + 4)
            } else {
                None
            }
        } else {
            None
        }
    } else if ts[p + 1].kind == WonTokenKind::Assign {
        expr_end(ts, p + 2, ExpressionContext::Simple)
    } else if ts[p + 1].kind == WonTokenKind::EndStatement {
        Some(p + 2)
    } else {
        None
    }
}

/// Where the statement that starts at `p` ends, when the grammar accepts
/// one there.
pub open spec fn stmt_end<'src>(ts: Seq<Token<'src, WonTokenKind>>, p: int) -> Option<int> {
    if p < 0 || p >= ts.len() {
        None
    } else if ts[p].kind == WonTokenKind::Let || ts[p].kind == WonTokenKind::Const {
        decl_end(ts, p + 1)
    } else if ts[p].kind == WonTokenKind::EndStatement {
        Some(p + 1)
    } else {
        expr_end(ts, p, ExpressionContext::Simple)
    }
}

/// Whether the grammar accepts the whole remainder from `p` as a sequence
/// of statements.
pub open spec fn parseable_from<'src>(ts: Seq<Token<'src, WonTokenKind>>, p: int) -> bool
    decreases ts.len() - p,
{
    if p < 0 || p >= ts.len() {
        true
    } else {
        match stmt_end(ts, p) {
            None => false,
            Some(e) => if p < e <= ts.len() {
                parseable_from(ts, e)
            } else {
                false
            },
        }
    }
}

/// Whether the grammar accepts the whole token list as a sequence of
/// statements: exactly the token lists the parser owes a parse for.
pub open spec fn parseable<'src>(ts: Seq<Token<'src, WonTokenKind>>) -> bool {
    parseable_from(ts, 0)
}

/// The start position of each statement from `p` on; meaningful where the
/// grammar accepts the remainder.
pub open spec fn stmt_starts_from<'src>(ts: Seq<Token<'src, WonTokenKind>>, p: int) -> Seq<int>
    decreases ts.len() - p,
{
    if p < 0 || p >= ts.len() {
        Seq::empty()
    } else {
        match stmt_end(ts, p) {
            None => seq![p],
            Some(e) => if p < e <= ts.len() {
                seq![p] + stmt_starts_from(ts, e)
            } else {
                seq![p]
            },
        }
    }
}

/// The start position of each statement of the whole token list.
pub open spec fn statement_starts<'src>(ts: Seq<Token<'src, WonTokenKind>>) -> Seq<int> {
    stmt_starts_from(ts, 0)
}

/// The error raised when the token after an operand neither ends the
/// expression in its context nor begins a cast or a call: a terminator of
/// the wrong context is an unexpected token, anything else cannot stand in
/// a statement.
pub open spec fn expression_tail_error(
    ctx: ExpressionContext,
    kind: WonTokenKind,
) -> ParserError<WonTokenKind> {
    let expected = if ctx == ExpressionContext::InnerGroup {
        WonTokenKind::GroupEnd
    } else {
        WonTokenKind::EndStatement
    };
    if kind == WonTokenKind::ItemSeparator || kind == WonTokenKind::GroupEnd || kind
        == WonTokenKind::EndStatement {
        ParserError::UnexpectedToken(kind, expected)
    } else {
        ParserError::ExpectedStatement(kind)
    }
}

/// The parser of the scripting language: a recursive-descent parser over the
/// lexer's tokens, with a cursor into the token list.
pub struct WonParser;

impl WonParser {
    /// Take the token under the cursor, if any, and advance past it.
    fn next_token<'src>(tokens: &Vec<Token<'src, WonTokenKind>>, pos: &mut usize) -> (r: Option<
        Token<'src, WonTokenKind>,
    >)
        requires
            *old(pos) <= tokens@.len(),
        ensures
            *old(pos) < tokens@.len() ==> (r matches Some(t) && t.kind
                == tokens@[*old(pos) as int].kind && t.span == tokens@[*old(pos) as int].span
                && *final(pos) == *old(pos) + 1),
            *old(pos) >= tokens@.len() ==> r is None && *final(pos) == *old(pos),
    {
        if *pos < tokens.len() {
            let t = tokens[*pos];
            *pos = *pos + 1;
            Some(t)
        } else {
            None
        }
    }

    /// The kind of the token under the cursor, without advancing.
    fn peek_kind<'src>(tokens: &Vec<Token<'src, WonTokenKind>>, pos: &usize) -> (r: Option<
        WonTokenKind,
    >)
        requires
            *pos <= tokens@.len(),
        ensures
            *pos < tokens@.len() ==> r == Some(tokens@[*pos as int].kind),
            *pos >= tokens@.len() ==> r is None,
    {
        if *pos < tokens.len() {
            Some(tokens[*pos].kind)
        } else {
            None
        }
    }

    /// Demand a token of one kind: the token itself when it is there and of
    /// that kind, the exact error otherwise.
    pub fn expect_token<'src>(
        next: Option<Token<'src, WonTokenKind>>,
        kind: WonTokenKind,
    ) -> (r: Result<Token<'src, WonTokenKind>, ParserError<WonTokenKind>>)
        ensures
            match next {
                None => r matches Err(e) && e == ParserError::<WonTokenKind>::UnexpectedEOF,
                Some(t) => if t.kind == kind {
                    r matches Ok(t2) && t2.kind == t.kind && t2.span == t.span
                } else {
                    r matches Err(e) && e == ParserError::<WonTokenKind>::UnexpectedToken(
                        t.kind,
                        kind,
                    )
                },
            },
    {
        let token = match next {
            Some(t) => t,
            None => {
                return Err(ParserError::UnexpectedEOF);
            },
        };
        if token.kind == kind {
            Ok(token)
        } else {
            Err(ParserError::UnexpectedToken(token.kind, kind))
        }
    }

    /// Parse a declaration or assignment statement, after its storage
    /// keyword has been consumed: an identifier, then optionally a declared
    /// type, then optionally an assigned expression, ended by the statement
    /// terminator. The exact errors: missing tokens raise end-of-file, a
    /// missing identifier raises the identifier mismatch, and any other
    /// stray token the terminator mismatch.
    pub fn parse_decl_assign<'src>(
        tokens: &Vec<Token<'src, WonTokenKind>>,
        pos: &mut usize,
        storage: Option<SpanContainer<'src, StorageKind>>,
    ) -> (r: Result<Statement<'src>, ParserError<WonTokenKind>>)
        requires
            tokens_wf(tokens@),
            *old(pos) <= tokens@.len(),
        ensures
            *final(pos) <= tokens@.len(),
            *final(pos) >= *old(pos),
            r is Ok ==> *final(pos) > *old(pos),
            *old(pos) >= tokens@.len() ==> (r matches Err(e) && e
                == ParserError::<WonTokenKind>::UnexpectedEOF),
            *old(pos) < tokens@.len() && tokens@[*old(pos) as int].kind != WonTokenKind::Identifier
                ==> (r matches Err(e) && e == ParserError::<WonTokenKind>::UnexpectedToken(
                tokens@[*old(pos) as int].kind,
                WonTokenKind::Identifier,
            )),
            r matches Ok(s) ==> (s matches Statement::Assignement {
                storage: st,
                identifier,
                ty: _,
                expression: _,
            } && st == storage && identifier == tokens@[*old(pos) as int].span),
            decl_end(tokens@, *old(pos) as int) matches Some(e) ==> r is Ok && *final(pos)
                == e,
            ({
                let p = *old(pos) as int;
                let ts = tokens@;
                p < ts.len() && ts[p].kind == WonTokenKind::Identifier ==> {
                    &&& p + 1 >= ts.len() ==> (r matches Err(e) && e
                        == ParserError::<WonTokenKind>::UnexpectedEOF)
                    &&& p + 1 < ts.len() && ts[p + 1].kind == WonTokenKind::DeclType ==> {
                        &&& p + 2 >= ts.len() ==> (r matches Err(e) && e
                            == ParserError::<WonTokenKind>::UnexpectedEOF)
                        &&& p + 2 < ts.len() && ts[p + 2].kind != WonTokenKind::Identifier ==> (
                        r matches Err(e) && e == ParserError::<WonTokenKind>::UnexpectedToken(
                            ts[p + 2].kind,
                            WonTokenKind::Identifier,
                        ))
                        &&& p + 2 < ts.len() && ts[p + 2].kind == WonTokenKind::Identifier ==> {
                            &&& p + 3 >= ts.len() ==> (r matches Err(e) && e
                                == ParserError::<WonTokenKind>::UnexpectedEOF)
                            &&& p + 3 < ts.len() && ts[p + 3].kind == WonTokenKind::Assign ==> (
                            r is Ok ==> (r matches Ok(s) && s matches Statement::Assignement {
                                ty: Some(t),
                                expression: Some(_),
                                ..
                            } && t == ts[p + 2].span))
                            &&& p + 3 < ts.len() && ts[p + 3].kind == WonTokenKind::EndStatement
                                ==> (r matches Ok(s) && s matches Statement::Assignement {
                                ty: Some(t),
                                expression: None,
                                ..
                            } && t == ts[p + 2].span && *final(pos) == p + 4)
                            &&& p + 3 < ts.len() && ts[p + 3].kind != WonTokenKind::Assign && ts[p
                                + 3].kind != WonTokenKind::EndStatement ==> (r matches Err(e) && e
                                == ParserError::<WonTokenKind>::UnexpectedToken(
                                ts[p + 3].kind,
                                WonTokenKind::EndStatement,
                            ))
                        }
                    }
                    &&& p + 1 < ts.len() && ts[p + 1].kind == WonTokenKind::Assign ==> (r is Ok
                        ==> (r matches Ok(s) && s matches Statement::Assignement {
                        ty: None,
                        expression: Some(_),
                        ..
                    }))
                    &&& p + 1 < ts.len() && ts[p + 1].kind == WonTokenKind::EndStatement ==> (
                    r matches Ok(s) && s matches Statement::Assignement {
                        ty: None,
                        expression: None,
                        ..
                    } && *final(pos) == p + 2)
                    &&& p + 1 < ts.len() && ts[p + 1].kind != WonTokenKind::DeclType && ts[p
                        + 1].kind != WonTokenKind::Assign && ts[p + 1].kind
                        != WonTokenKind::EndStatement ==> (r matches Err(e) && e
                        == ParserError::<WonTokenKind>::UnexpectedToken(
                        ts[p + 1].kind,
                        WonTokenKind::EndStatement,
                    ))
                }
            }),
        decreases tokens@.len() - *old(pos),
    {
        let ident_tok = match Self::expect_token(Self::next_token(tokens, pos), WonTokenKind::Identifier) {
            Ok(t) => t,
            Err(e) => {
                return Err(e);
            },
        };
        let identifier = ident_tok.span;
        let next = match Self::next_token(tokens, pos) {
            Some(t) => t,
            None => {
                return Err(ParserError::UnexpectedEOF);
            },
        };
        match next.kind {
            WonTokenKind::DeclType => {
                let ty_tok = match Self::expect_token(
                    Self::next_token(tokens, pos),
                    WonTokenKind::Identifier,
                ) {
                    Ok(t) => t,
                    Err(e) => {
                        return Err(e);
                    },
                };
                let ty = Some(ty_tok.span);
                let after = match Self::next_token(tokens, pos) {
                    Some(t) => t,
                    None => {
                        return Err(ParserError::UnexpectedEOF);
                    },
                };
                match after.kind {
                    WonTokenKind::Assign => {
                        let expression = match Self::parse_expression(
                            tokens,
                            pos,
                            ExpressionContext::Simple,
                        ) {
                            Ok(e) => e,
                            Err(e) => {
                                return Err(e);
                            },
                        };
                        Ok(
                            Statement::Assignement {
                                storage,
                                identifier,
                                ty,
                                expression: Some(expression),
                            },
                        )
                    },
                    WonTokenKind::EndStatement => Ok(
                        Statement::Assignement { storage, identifier, ty, expression: None },
                    ),
                    kind => Err(ParserError::UnexpectedToken(kind, WonTokenKind::EndStatement)),
                }
            },
            WonTokenKind::Assign => {
                let expression = match Self::parse_expression(
                    tokens,
                    pos,
                    ExpressionContext::Simple,
                ) {
                    Ok(e) => e,
                    Err(e) => {
                        return Err(e);
                    },
                };
                Ok(
                    Statement::Assignement {
                        storage,
                        identifier,
                        ty: None,
                        expression: Some(expression),
                    },
                )
            },
            WonTokenKind::EndStatement => Ok(
                Statement::Assignement { storage, identifier, ty: None, expression: None },
            ),
            kind => Err(ParserError::UnexpectedToken(kind, WonTokenKind::EndStatement)),
        }
    }

    /// Parse one expression in a given context: a literal, a name access, a
    /// parenthesised group, a primitive cast, or a function call. The cursor
    /// always stays within the tokens and advances exactly over the parsed
    /// expression; an empty remainder raises end-of-file, and a token that
    /// cannot begin an expression raises the exact statement error.
    #[verifier::rlimit(100)]
    #[verifier::spinoff_prover]
    pub fn parse_expression<'src>(
        tokens: &Vec<Token<'src, WonTokenKind>>,
        pos: &mut usize,
        context: ExpressionContext,
    ) -> (r: Result<SpanContainer<'src, Expression<'src>>, ParserError<WonTokenKind>>)
        requires
            tokens_wf(tokens@),
            *old(pos) <= tokens@.len(),
        ensures
            *final(pos) <= tokens@.len(),
            *final(pos) >= *old(pos),
            r is Ok ==> *final(pos) > *old(pos),
            *old(pos) >= tokens@.len() ==> (r matches Err(e) && e
                == ParserError::<WonTokenKind>::UnexpectedEOF),
            *old(pos) < tokens@.len() && !(tokens@[*old(pos) as int].kind
                == WonTokenKind::GroupStart || tokens@[*old(pos) as int].kind == WonTokenKind::True
                || tokens@[*old(pos) as int].kind == WonTokenKind::False
                || tokens@[*old(pos) as int].kind == WonTokenKind::Number
                || tokens@[*old(pos) as int].kind == WonTokenKind::Identifier) ==> (r matches Err(e)
                && e == ParserError::<WonTokenKind>::ExpectedStatement(
                tokens@[*old(pos) as int].kind,
            )),
            ({
                let p = *old(pos) as int;
                let ts = tokens@;
                let simple_lhs = p < ts.len() && (ts[p].kind == WonTokenKind::True || ts[p].kind
                    == WonTokenKind::False || ts[p].kind == WonTokenKind::Number || ts[p].kind
                    == WonTokenKind::Identifier);
                &&& simple_lhs && p + 1 >= ts.len() ==> (r matches Err(e) && e
                    == ParserError::<WonTokenKind>::UnexpectedEOF)
                &&& simple_lhs && p + 1 < ts.len() && context.should_break_spec(ts[p + 1].kind)
                    ==> (r matches Ok(sc) && sc.span == ts[p].span && *final(pos) == p + 1 && (match
                ts[p].kind {
                    WonTokenKind::True => sc.item matches Expression::Literal(LiteralKind::Bool),
                    WonTokenKind::False => sc.item matches Expression::Literal(LiteralKind::Bool),
                    WonTokenKind::Number => sc.item matches Expression::Literal(
                        LiteralKind::Integer,
                    ),
                    _ => sc.item matches Expression::Access(_),
                }))
                &&& simple_lhs && p + 1 < ts.len() && ts[p + 1].kind == WonTokenKind::As ==> (
                r is Ok ==> (r matches Ok(sc) && sc.item matches Expression::PrimitiveCast {
                    ty,
                    ..
                } && ty == ts[p + 2].span))
                &&& p < ts.len() && ts[p].kind == WonTokenKind::Identifier && p + 1 < ts.len()
                    && ts[p + 1].kind == WonTokenKind::GroupStart ==> (r is Ok ==> (r matches Ok(sc)
                    && sc.item matches Expression::FunctionCall { .. }))
                &&& simple_lhs && p + 1 < ts.len() && ts[p + 1].kind != WonTokenKind::As && ts[p
                    + 1].kind != WonTokenKind::GroupStart && !context.should_break_spec(
                    ts[p + 1].kind,
                ) ==> (r matches Err(err) && err == expression_tail_error(context, ts[p + 1].kind))
            }),
            ({
                let p = *old(pos) as int;
                let ts = tokens@;
                expr_end(ts, p, context) matches Some(e) ==> ({
                    let q = if ts[p].kind == WonTokenKind::GroupStart {
                        expr_end(ts, p + 1, ExpressionContext::InnerGroup)->0
                    } else {
                        p + 1
                    };
                    &&& r is Ok
                    &&& *final(pos) == e
                    &&& ts[q].kind == WonTokenKind::As ==> (r matches Ok(sc) && (
                    sc.item matches Expression::PrimitiveCast { ty, .. } && ty == ts[q + 1].span)
                        && sc.span.index == ts[p].span.index && sc.span.line == ts[p].span.line
                        && sc.span.index + sc.span.length == ts[q + 1].span.index + ts[q
                        + 1].span.length)
                    &&& ts[q].kind == WonTokenKind::GroupStart ==> (r matches Ok(sc) && (
                    sc.item matches Expression::FunctionCall { items, .. } && items@.len() == (
                    items_scan(ts, q + 1)->0).1) && ({
                        let g = (items_scan(ts, q + 1)->0).0;
                        sc.span.index == ts[p].span.index && sc.span.line == ts[p].span.line
                            && sc.span.index + sc.span.length == ts[g].span.index
                            + ts[g].span.length
                    }))
                })
            }),
        decreases tokens@.len() - *old(pos),
    {
        let ghost entry = *old(pos);
        let lhs_token = match Self::next_token(tokens, pos) {
            Some(t) => t,
            None => {
                return Err(ParserError::UnexpectedEOF);
            },
        };
        let lhs_kind = lhs_token.kind;
        let lhs_span = lhs_token.span;
        let lhs: SpanContainer<'src, Expression<'src>> = match lhs_kind {
            WonTokenKind::GroupStart => {
                match Self::parse_expression(tokens, pos, ExpressionContext::InnerGroup) {
                    Ok(e) => e,
                    Err(e) => {
                        return Err(e);
                    },
                }
            },
            WonTokenKind::True => SpanContainer::from_token(
                lhs_token,
                Expression::Literal(LiteralKind::Bool),
            ),
            WonTokenKind::False => SpanContainer::from_token(
                lhs_token,
                Expression::Literal(LiteralKind::Bool),
            ),
            WonTokenKind::Number => SpanContainer::from_token(
                lhs_token,
                Expression::Literal(LiteralKind::Integer),
            ),
            WonTokenKind::Identifier => SpanContainer::from_token(
                lhs_token,
                Expression::Access(Access),
            ),
            kind => {
                return Err(ParserError::ExpectedStatement(kind));
            },
        };
        let rhs_kind = match Self::peek_kind(tokens, pos) {
            Some(k) => k,
            None => {
                return Err(ParserError::UnexpectedEOF);
            },
        };
        match rhs_kind {
            WonTokenKind::As => {
                let _ = Self::next_token(tokens, pos);
                let ty_tok = match Self::expect_token(
                    Self::next_token(tokens, pos),
                    WonTokenKind::Identifier,
                ) {
                    Ok(t) => t,
                    Err(e) => {
                        return Err(e);
                    },
                };
                let rhs_span = ty_tok.span;
                let end_kind = if context == ExpressionContext::InnerGroup {
                    WonTokenKind::GroupEnd
                } else {
                    WonTokenKind::EndStatement
                };
                match Self::expect_token(Self::next_token(tokens, pos), end_kind) {
                    Ok(_) => {},
                    Err(e) => {
                        return Err(e);
                    },
                }
                let span = Span::from(&lhs_span, &rhs_span);
                Ok(
                    SpanContainer {
                        span,
                        item: Expression::PrimitiveCast { expression: lhs.boxed(), ty: rhs_span },
                    },
                )
            },
            WonTokenKind::GroupStart => {
                let _ = Self::next_token(tokens, pos);
                if lhs_kind == WonTokenKind::Identifier {
                    let ghost pack_start = *pos as int;
                    proof {
                        if expr_end(tokens@, entry as int, context) is Some {
                            assert(items_scan(tokens@, pack_start) is Some);
                        }
                    }
                    let mut items: Vec<SpanContainer<'src, Expression<'src>>> = Vec::new();
                    let mut at_group_end = false;
                    #[verifier::loop_isolation(false)]
                    while !at_group_end && *pos < tokens.len()
                        invariant
                            tokens_wf(tokens@),
                            *pos <= tokens@.len(),
                            *pos > entry,
                            at_group_end ==> *pos < tokens@.len(),
                            at_group_end ==> tokens@[*pos as int].kind == WonTokenKind::GroupEnd,
                            ({
                                let ts = tokens@;
                                items_scan(ts, pack_start) matches Some(st0) ==> (items_scan(
                                    ts,
                                    *pos as int,
                                ) matches Some(stp) && stp.0 == st0.0 && stp.1 + items@.len()
                                    == st0.1)
                            }),
                        decreases tokens@.len() - *pos, (if at_group_end { 0int } else { 1int }),
                    {
                        let k = tokens[*pos].kind;
                        if k == WonTokenKind::GroupEnd {
                            at_group_end = true;
                        } else if k == WonTokenKind::ItemSeparator {
                            proof {
                                assert(items_scan(tokens@, *pos as int) == items_scan(
                                    tokens@,
                                    *pos as int + 1,
                                ));
                            }
                            *pos = *pos + 1;
                        } else {
                            let ghost cur = *pos as int;
                            proof {
                                if items_scan(tokens@, pack_start) is Some {
                                    assert(items_scan(tokens@, cur) is Some);
                                }
                            }
                            let item = match Self::parse_expression(
                                tokens,
                                pos,
                                ExpressionContext::Pack,
                            ) {
                                Ok(e) => e,
                                Err(e) => {
                                    proof {
                                        if items_scan(tokens@, pack_start) is Some {
                                            assert(expr_end(
                                                tokens@,
                                                cur,
                                                ExpressionContext::Pack,
                                            ) is Some);
                                            assert(false);
                                        }
                                    }
                                    return Err(e);
                                },
                            };
                            proof {
                                if items_scan(tokens@, pack_start) is Some {
                                    assert(expr_end(tokens@, cur, ExpressionContext::Pack)
                                        is Some);
                                    assert(*pos as int == expr_end(
                                        tokens@,
                                        cur,
                                        ExpressionContext::Pack,
                                    )->0);
                                    assert(items_scan(tokens@, cur) matches Some(c) && (items_scan(
                                        tokens@,
                                        *pos as int,
                                    ) matches Some(n) && c.0 == n.0 && c.1 == n.1 + 1));
                                }
                            }
                            items.push(item);
                        }
                    }
                    proof {
                        if expr_end(tokens@, entry as int, context) is Some {
                            let st0 = items_scan(tokens@, pack_start)->0;
                            assert(st0.0 + 1 < tokens@.len() && tokens@[st0.0].kind
                                == WonTokenKind::GroupEnd && tokens@[st0.0 + 1].kind
                                == WonTokenKind::EndStatement);
                            if !at_group_end {
                                assert(items_scan(tokens@, *pos as int) == Some::<(int, int)>(
                                    (*pos as int, 0),
                                ));
                                assert(false);
                            }
                            assert(items_scan(tokens@, *pos as int) == Some::<(int, int)>(
                                (*pos as int, 0),
                            ));
                            assert(*pos as int == st0.0);
                        }
                    }
                    let end = match Self::expect_token(
                        Self::next_token(tokens, pos),
                        WonTokenKind::GroupEnd,
                    ) {
                        Ok(t) => t,
                        Err(e) => {
                            proof {
                                if expr_end(tokens@, entry as int, context) is Some {
                                    assert(false);
                                }
                            }
                            return Err(e);
                        },
                    };
                    match Self::expect_token(
                        Self::next_token(tokens, pos),
                        WonTokenKind::EndStatement,
                    ) {
                        Ok(_) => {},
                        Err(e) => {
                            proof {
                                if expr_end(tokens@, entry as int, context) is Some {
                                    assert(false);
                                }
                            }
                            return Err(e);
                        },
                    }
                    let access = SpanContainer { span: lhs.span, item: Access::from(lhs.item) };
                    let span = Span::from(&lhs_span, &end.span);
                    Ok(SpanContainer { span, item: Expression::FunctionCall { access, items } })
                } else {
                    Err(
                        ParserError::UnexpectedToken(
                            rhs_kind,
                            if context == ExpressionContext::InnerGroup {
                                WonTokenKind::GroupEnd
                            } else {
                                WonTokenKind::EndStatement
                            },
                        ),
                    )
                }
            },
            kind => {
                if context.should_break(&kind) {
                    Ok(lhs)
                } else {
                    Err(
                        match kind {
                            WonTokenKind::ItemSeparator => ParserError::UnexpectedToken(
                                kind,
                                if context == ExpressionContext::InnerGroup {
                                    WonTokenKind::GroupEnd
                                } else {
                                    WonTokenKind::EndStatement
                                },
                            ),
                            WonTokenKind::GroupEnd => ParserError::UnexpectedToken(
                                kind,
                                if context == ExpressionContext::InnerGroup {
                                    WonTokenKind::GroupEnd
                                } else {
                                    WonTokenKind::EndStatement
                                },
                            ),
                            WonTokenKind::EndStatement => ParserError::UnexpectedToken(
                                kind,
                                if context == ExpressionContext::InnerGroup {
                                    WonTokenKind::GroupEnd
                                } else {
                                    WonTokenKind::EndStatement
                                },
                            ),
                            other => ParserError::ExpectedStatement(other),
                        },
                    )
                }
            },
        }
    }

    /// Parse a whole token list into statements: declarations introduced by
    /// their storage keyword, stray statement terminators, and bare
    /// expressions. Each statement consumes at least one token, so no more
    /// statements come back than tokens went in, and an empty token list
    /// parses to no statements.
    #[verifier::rlimit(60)]
    pub fn parse<'src>(tokens: Vec<Token<'src, WonTokenKind>>) -> (r: Result<
        Vec<Statement<'src>>,
        ParserError<WonTokenKind>,
    >)
        requires
            tokens_wf(tokens@),
        ensures
            r matches Ok(v) ==> v@.len() <= tokens@.len(),
            tokens@.len() == 0 ==> (r matches Ok(v) && v@.len() == 0),
            tokens@.len() > 0 ==> (r matches Ok(v) ==> v@.len() > 0),
            tokens@.len() > 0 ==> (r matches Ok(v) ==> statement_shape_for(tokens@, 0, v@[0])),
            parseable(tokens@) ==> (r matches Ok(v) && v@.len() == statement_starts(
                tokens@,
            ).len() && (forall|i: int|
                0 <= i < v@.len() ==> statement_shape_for(
                    tokens@,
                    #[trigger] statement_starts(tokens@)[i],
                    v@[i],
                ))),
    {
        let mut pos: usize = 0;
        let mut output: Vec<Statement<'src>> = Vec::new();
        let ghost mut starts: Seq<int> = Seq::empty();
        proof {
            assert(Seq::<int>::empty() + stmt_starts_from(tokens@, 0) =~= stmt_starts_from(
                tokens@,
                0,
            ));
        }
        while pos < tokens.len()
            invariant
                tokens_wf(tokens@),
                pos <= tokens@.len(),
                output@.len() <= pos,
                pos > 0 ==> output@.len() > 0,
                pos > 0 && tokens@.len() > 0 ==> statement_shape_for(tokens@, 0, output@[0]),
                output@.len() == starts.len(),
                parseable(tokens@) ==> {
                    &&& parseable_from(tokens@, pos as int)
                    &&& statement_starts(tokens@) == starts + stmt_starts_from(tokens@, pos as int)
                    &&& forall|i: int|
                        0 <= i < starts.len() ==> statement_shape_for(
                            tokens@,
                            #[trigger] starts[i],
                            output@[i],
                        )
                },
            decreases tokens@.len() - pos,
        {
            let ghost p0 = pos as int;
            let kind = tokens[pos].kind;
            let parsed: Result<Statement<'src>, ParserError<WonTokenKind>> = if kind
                == WonTokenKind::Let {
                let token = match Self::next_token(&tokens, &mut pos) {
                    Some(t) => t,
                    None => {
                        proof {
                            assert(false);
                        }
                        return Err(ParserError::UnexpectedEOF);
                    },
                };
                Self::parse_decl_assign(
                    &tokens,
                    &mut pos,
                    Some(SpanContainer::from_token(token, StorageKind::Simple)),
                )
            } else if kind == WonTokenKind::Const {
                let token = match Self::next_token(&tokens, &mut pos) {
                    Some(t) => t,
                    None => {
                        proof {
                            assert(false);
                        }
                        return Err(ParserError::UnexpectedEOF);
                    },
                };
                Self::parse_decl_assign(
                    &tokens,
                    &mut pos,
                    Some(SpanContainer::from_token(token, StorageKind::Constant)),
                )
            } else if kind == WonTokenKind::EndStatement {
                pos = pos + 1;
                Ok(Statement::Trail)
            } else {
                match Self::parse_expression(&tokens, &mut pos, ExpressionContext::Simple) {
                    Ok(e) => Ok(Statement::from(e)),
                    Err(e) => Err(e),
                }
            };
            match parsed {
                Ok(statement) => {
                    proof {
                        starts = starts.push(p0);
                        if parseable(tokens@) {
                            assert(stmt_end(tokens@, p0) == Some(pos as int));
                            assert(stmt_starts_from(tokens@, p0) == seq![p0] + stmt_starts_from(
                                tokens@,
                                pos as int,
                            ));
                            assert(starts + stmt_starts_from(tokens@, pos as int)
                                =~= starts.drop_last() + stmt_starts_from(tokens@, p0));
                        }
                    }
                    output.push(statement);
                },
                Err(e) => {
                    proof {
                        if parseable(tokens@) {
                            assert(stmt_end(tokens@, p0) is Some);
                            assert(false);
                        }
                    }
                    return Err(e);
                },
            }
        }
        proof {
            if parseable(tokens@) {
                assert(stmt_starts_from(tokens@, pos as int) =~= Seq::<int>::empty());
                assert(statement_starts(tokens@) =~= starts);
            }
        }
        Ok(output)
    }
}

impl<'src> Parser<'src, WonTokenKind, Statement<'src>> for WonParser {
    /// The scripting language's parser accepts any lexer-ordered token list.
    open spec fn accepts(tokens: Seq<Token<'src, WonTokenKind>>) -> bool {
        tokens_wf(tokens)
    }

    /// Parse a whole token list; the inherent method states the full
    /// contract.
    fn parse(tokens: Vec<Token<'src, WonTokenKind>>) -> (r: Result<
        Vec<Statement<'src>>,
        ParserError<WonTokenKind>,
    >)
        ensures
            r matches Ok(v) ==> v@.len() <= tokens@.len(),
            parseable(tokens@) ==> (r matches Ok(v) && v@.len() == statement_starts(
                tokens@,
            ).len() && (forall|i: int|
                0 <= i < v@.len() ==> statement_shape_for(
                    tokens@,
                    #[trigger] statement_starts(tokens@)[i],
                    v@[i],
                ))),
    {
        WonParser::parse(tokens)
    }
}

} // verus!
