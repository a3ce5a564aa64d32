use vstd::prelude::*;

use crate::token::TokenKind;

verus! {

/// The token kinds of the scripting language: keywords, literals, the
/// punctuation symbols, and the assignment operator.
#[derive(Clone, Copy, Debug, PartialEq, Eq, Structural)]
pub enum WonTokenKind {
    Let,
    Const,
    As,
    False,
    True,
    Identifier,
    Number,
    DeclType,
    EndStatement,
    GroupStart,
    GroupEnd,
    ItemSeparator,
    Assign,
}

impl WonTokenKind {
    /// The syntactic family a kind belongs to.
    pub open spec fn meta_spec(self) -> Seq<char> {
        match self {
            WonTokenKind::Let => "keyword"@,
            WonTokenKind::Const => "keyword"@,
            WonTokenKind::As => "keyword"@,
            WonTokenKind::False => "keyword"@,
            WonTokenKind::True => "keyword"@,
            WonTokenKind::Identifier => "literal"@,
            WonTokenKind::Number => "literal"@,
            WonTokenKind::DeclType => "symbol"@,
            WonTokenKind::EndStatement => "symbol"@,
            WonTokenKind::GroupStart => "symbol"@,
            WonTokenKind::GroupEnd => "symbol"@,
            WonTokenKind::ItemSeparator => "symbol"@,
            WonTokenKind::Assign => "operator"@,
        }
    }
}

impl TokenKind for WonTokenKind {
    /// The syntactic family a kind belongs to.
    fn get_meta(&self) -> (r: &'static str)
        ensures
            r@ == self.meta_spec(),
    {
        match self {
            WonTokenKind::Let => "keyword",
            WonTokenKind::Const => "keyword",
            WonTokenKind::As => "keyword",
            WonTokenKind::False => "keyword",
            WonTokenKind::True => "keyword",
            WonTokenKind::Identifier => "literal",
            WonTokenKind::Number => "literal",
            WonTokenKind::DeclType => "symbol",
            WonTokenKind::EndStatement => "symbol",
            WonTokenKind::GroupStart => "symbol",
            WonTokenKind::GroupEnd => "symbol",
            WonTokenKind::ItemSeparator => "symbol",
            WonTokenKind::Assign => "operator",
        }
    }
}

} // verus!
