use vstd::prelude::*;

use crate::token::{tokens_wf, Span, Token, TokenKind};
use crate::won_token::WonTokenKind;

verus! {

/// A lexer: turns a raw byte buffer into the token list of some token-kind
/// family, on the inputs its language accepts.
pub trait Lexer<K: TokenKind> {
    /// The inputs this lexer accepts.
    spec fn accepts(input: Seq<u8>) -> bool;

    fn lex<'a>(input: &'a [u8]) -> Vec<Token<'a, K>>
        requires
            Self::accepts(input@),
    ;
}

/// Space, tab or carriage return: skipped between tokens.
pub open spec fn is_ws_byte(b: u8) -> bool {
    b == 32 || b == 9 || b == 13
}

/// An ASCII letter.
pub open spec fn is_alpha_byte(b: u8) -> bool {
    (97 <= b && b <= 122) || (65 <= b && b <= 90)
}

/// An ASCII digit.
pub open spec fn is_digit_byte(b: u8) -> bool {
    48 <= b && b <= 57
}

/// A byte that may start an identifier: a letter or an underscore.
pub open spec fn is_ident_start_byte(b: u8) -> bool {
    is_alpha_byte(b) || b == 95
}

/// A byte that may continue an identifier: a letter, a digit, or an
/// underscore.
pub open spec fn is_ident_byte(b: u8) -> bool {
    is_alpha_byte(b) || is_digit_byte(b) || b == 95
}

/// A byte that may continue a number: a digit or an underscore separator.
pub open spec fn is_num_byte(b: u8) -> bool {
    is_digit_byte(b) || b == 95
}

/// A control character, under the one-byte-per-character reading the lexer
/// uses: such bytes are skipped silently.
pub open spec fn is_control_byte(b: u8) -> bool {
    b < 32 || b == 127 || (128 <= b && b <= 159)
}

/// The identifier-continuation class, as a predicate value.
pub open spec fn ident_pred() -> spec_fn(u8) -> bool {
    |x: u8| is_ident_byte(x)
}

/// The number-continuation class, as a predicate value.
pub open spec fn num_pred() -> spec_fn(u8) -> bool {
    |x: u8| is_num_byte(x)
}

/// The kind of each single-byte symbol token, if the byte is one.
pub open spec fn symbol_kind(b: u8) -> Option<WonTokenKind> {
    if b == 40 {
        Some(WonTokenKind::GroupStart)
    } else if b == 41 {
        Some(WonTokenKind::GroupEnd)
    } else if b == 58 {
        Some(WonTokenKind::DeclType)
    } else if b == 59 {
        Some(WonTokenKind::EndStatement)
    } else if b == 61 {
        Some(WonTokenKind::Assign)
    } else if b == 44 {
        Some(WonTokenKind::ItemSeparator)
    } else {
        None
    }
}

/// A byte the lexer accepts: anything but a printable byte that starts no
/// token. A printable byte that fits no token class is a lexing fault, so
/// it lies outside this lexer's domain.
pub open spec fn lexable_byte(b: u8) -> bool {
    ||| is_ws_byte(b)
    ||| b == 10
    ||| symbol_kind(b) is Some
    ||| is_ident_start_byte(b)
    ||| is_digit_byte(b)
    ||| is_control_byte(b)
}

/// Every byte of the input is one the lexer accepts.
pub open spec fn lexable(input: Seq<u8>) -> bool {
    forall|i: int| 0 <= i < input.len() ==> lexable_byte(#[trigger] input[i])
}

/// Whether the lexer accepts every byte of an input: what a host tests
/// before asking for tokens.
pub fn input_lexable(input: &[u8]) -> (r: bool)
    ensures
        r == lexable(input@),
{
    let n = input.len();
    let mut i: usize = 0;
    while i < n
        invariant
            n == input@.len(),
            i <= n,
            forall|j: int| 0 <= j < i ==> lexable_byte(#[trigger] input@[j]),
        decreases n - i,
    {
        let b = input[i];
        let ok = b == 32 || b == 9 || b == 13 || b == 10 || b == 40 || b == 41 || b == 58 || b
            == 59 || b == 61 || b == 44 || (97 <= b && b <= 122) || (65 <= b && b <= 90) || b == 95
            || (48 <= b && b <= 57) || b < 32 || b == 127 || (128 <= b && b <= 159);
        if !ok {
            proof {
                assert(!lexable_byte(input@[i as int]));
            }
            return false;
        }
        i = i + 1;
    }
    true
}

/// The first position at or after `i` whose byte fails `pred` (or the end
/// of the input): the end of a maximal run.
pub open spec fn scan_end(input: Seq<u8>, i: int, pred: spec_fn(u8) -> bool) -> int
    decreases input.len() - i,
{
    if i < input.len() && (i < 0 || pred(input[i])) {
        scan_end(input, i + 1, pred)
    } else {
        i
    }
}

/// A scan that starts inside the input ends inside it too, no earlier than
/// its start.
pub proof fn lemma_scan_end_bounds(input: Seq<u8>, i: int, pred: spec_fn(u8) -> bool)
    requires
        0 <= i <= input.len(),
    ensures
        i <= scan_end(input, i, pred) <= input.len(),
    decreases input.len() - i,
{
    if i < input.len() && pred(input[i]) {
        lemma_scan_end_bounds(input, i + 1, pred);
    }
}

/// The kind of the identifier-shaped word of length `l` starting at `i`:
/// one of the language's keywords, or a plain identifier.
pub open spec fn ident_kind(input: Seq<u8>, i: int, l: int) -> WonTokenKind {
    if l == 3 && input[i] == 108 && input[i + 1] == 101 && input[i + 2] == 116 {
        WonTokenKind::Let
    } else if l == 5 && input[i] == 99 && input[i + 1] == 111 && input[i + 2] == 110 && input[i + 3]
        == 115 && input[i + 4] == 116 {
        WonTokenKind::Const
    } else if l == 2 && input[i] == 97 && input[i + 1] == 115 {
        WonTokenKind::As
    } else if l == 5 && input[i] == 102 && input[i + 1] == 97 && input[i + 2] == 108 && input[i + 3]
        == 115 && input[i + 4] == 101 {
        WonTokenKind::False
    } else if l == 4 && input[i] == 116 && input[i + 1] == 114 && input[i + 2] == 117 && input[i + 3]
        == 101 {
        WonTokenKind::True
    } else {
        WonTokenKind::Identifier
    }
}

/// The model of one lexed token: kind, byte offset, byte length, line.
pub open spec fn token_model<'a>(t: Token<'a, WonTokenKind>) -> (WonTokenKind, int, int, int) {
    (t.kind, t.span.index as int, t.span.length as int, t.span.line as int)
}

/// The models of a token list.
pub open spec fn token_models<'a>(ts: Seq<Token<'a, WonTokenKind>>) -> Seq<
    (WonTokenKind, int, int, int),
> {
    ts.map_values(|t: Token<'a, WonTokenKind>| token_model(t))
}

/// The tokens of the input from position `i` on, with `line` as the current
/// line count: whitespace and control bytes are skipped, newlines advance
/// the line count, each symbol byte is one token, and identifier and number
/// runs are taken maximally.
pub open spec fn lex_from(input: Seq<u8>, i: int, line: int) -> Seq<(WonTokenKind, int, int, int)>
    decreases input.len() - i,
{
    if i < 0 || i >= input.len() {
        Seq::empty()
    } else {
        let b = input[i];
        if is_ws_byte(b) {
            lex_from(input, i + 1, line)
        } else if b == 10 {
            lex_from(input, i + 1, line + 1)
        } else if symbol_kind(b) is Some {
            seq![(symbol_kind(b)->0, i, 1, line)] + lex_from(input, i + 1, line)
        } else if is_ident_start_byte(b) {
            let e = scan_end(input, i, ident_pred());
            proof {
                assert(ident_pred()(b));
                assert(scan_end(input, i, ident_pred()) == scan_end(input, i + 1, ident_pred()));
                lemma_scan_end_bounds(input, i + 1, ident_pred());
            }
            seq![(ident_kind(input, i, e - i), i, e - i, line)] + lex_from(input, e, line)
        } else if is_digit_byte(b) {
            let e = scan_end(input, i + 1, num_pred());
            proof {
                lemma_scan_end_bounds(input, i + 1, num_pred());
            }
            seq![(WonTokenKind::Number, i, e - i, line)] + lex_from(input, e, line)
        } else {
            lex_from(input, i + 1, line)
        }
    }
}


/// Every token of `lex_from` lies within the input, is at least one byte
/// long, starts no earlier than the scan position, and the tokens appear in
/// source order without overlapping.
pub proof fn lemma_lex_from_spans(input: Seq<u8>, i: int, line: int)
    requires
        0 <= i <= input.len(),
    ensures
        ({
            let ms = lex_from(input, i, line);
            &&& forall|k: int|
                0 <= k < ms.len() ==> i <= (#[trigger] ms[k]).1 && ms[k].1 + ms[k].2 <= input.len()
                    && 1 <= ms[k].2
            &&& forall|k: int, j: int|
                0 <= k < j < ms.len() ==> (#[trigger] ms[k]).1 + ms[k].2 <= (#[trigger] ms[j]).1
        }),
    decreases input.len() - i,
{
    if i < input.len() {
        let b = input[i];
        let ms = lex_from(input, i, line);
        if is_ws_byte(b) {
            lemma_lex_from_spans(input, i + 1, line);
            assert(ms == lex_from(input, i + 1, line));
        } else if b == 10 {
            lemma_lex_from_spans(input, i + 1, line + 1);
            assert(ms == lex_from(input, i + 1, line + 1));
        } else if symbol_kind(b) is Some {
            lemma_lex_from_spans(input, i + 1, line);
            let rest = lex_from(input, i + 1, line);
            assert(ms == seq![(symbol_kind(b)->0, i, 1int, line)] + rest);
            assert forall|k: int|
                0 <= k < ms.len() implies i <= (#[trigger] ms[k]).1 && ms[k].1 + ms[k].2
                <= input.len() && 1 <= ms[k].2 by {
                if k > 0 {
                    assert(ms[k] == rest[k - 1]);
                }
            }
            assert forall|k: int, j: int|
                0 <= k < j < ms.len() implies (#[trigger] ms[k]).1 + ms[k].2 <= (
            #[trigger] ms[j]).1 by {
                assert(ms[j] == rest[j - 1]);
                if k > 0 {
                    assert(ms[k] == rest[k - 1]);
                }
            }
        } else if is_ident_start_byte(b) {
            let e = scan_end(input, i, ident_pred());
            assert(ident_pred()(b));
            assert(scan_end(input, i, ident_pred()) == scan_end(input, i + 1, ident_pred()));
            lemma_scan_end_bounds(input, i + 1, ident_pred());
            lemma_lex_from_spans(input, e, line);
            let rest = lex_from(input, e, line);
            assert(ms == seq![(ident_kind(input, i, e - i), i, e - i, line)] + rest);
            assert forall|k: int|
                0 <= k < ms.len() implies i <= (#[trigger] ms[k]).1 && ms[k].1 + ms[k].2
                <= input.len() && 1 <= ms[k].2 by {
                if k > 0 {
                    assert(ms[k] == rest[k - 1]);
                }
            }
            assert forall|k: int, j: int|
                0 <= k < j < ms.len() implies (#[trigger] ms[k]).1 + ms[k].2 <= (
            #[trigger] ms[j]).1 by {
                assert(ms[j] == rest[j - 1]);
                if k > 0 {
                    assert(ms[k] == rest[k - 1]);
                }
            }
        } else if is_digit_byte(b) {
            let e = scan_end(input, i + 1, num_pred());
            lemma_scan_end_bounds(input, i + 1, num_pred());
            lemma_lex_from_spans(input, e, line);
            let rest = lex_from(input, e, line);
            assert(ms == seq![(WonTokenKind::Number, i, e - i, line)] + rest);
            assert forall|k: int|
                0 <= k < ms.len() implies i <= (#[trigger] ms[k]).1 && ms[k].1 + ms[k].2
                <= input.len() && 1 <= ms[k].2 by {
                if k > 0 {
                    assert(ms[k] == rest[k - 1]);
                }
            }
            assert forall|k: int, j: int|
                0 <= k < j < ms.len() implies (#[trigger] ms[k]).1 + ms[k].2 <= (
            #[trigger] ms[j]).1 by {
                assert(ms[j] == rest[j - 1]);
                if k > 0 {
                    assert(ms[k] == rest[k - 1]);
                }
            }
        } else {
            lemma_lex_from_spans(input, i + 1, line);
            assert(ms == lex_from(input, i + 1, line));
        }
    } else {
        assert(lex_from(input, i, line) =~= Seq::<(WonTokenKind, int, int, int)>::empty());
    }
}

/// Whether a byte may continue an identifier.
fn ident_byte(b: u8) -> (r: bool)
    ensures
        r == is_ident_byte(b),
{
    (97 <= b && b <= 122) || (65 <= b && b <= 90) || (48 <= b && b <= 57) || b == 95
}

/// Whether a byte may continue a number.
fn num_byte(b: u8) -> (r: bool)
    ensures
        r == is_num_byte(b),
{
    (48 <= b && b <= 57) || b == 95
}

/// The lexer of the scripting language.
pub struct WonLexer;

impl WonLexer {
    /// Build one token over `length` bytes at `*index`, and advance the
    /// cursor past it.
    fn create_token<'a>(
        kind: WonTokenKind,
        input: &'a [u8],
        index: &mut usize,
        length: usize,
        line: usize,
    ) -> (t: Token<'a, WonTokenKind>)
        requires
            *old(index) + length <= input@.len(),
        ensures
            t.kind == kind,
            t.span.source@ == input@,
            t.span.index == *old(index),
            t.span.length == length,
            t.span.line == line,
            t.span.wf(),
            *final(index) == *old(index) + length,
    {
        let n = input.len();
        assert(*index + length <= n);
        let span = Span::new(input, *index, length, line);
        *index = *index + length;
        Token { kind, span }
    }

    /// Read the maximal identifier-shaped word at `*index`, classify it as a
    /// keyword or an identifier, and advance the cursor past it.
    fn handle_identifier<'a>(input: &'a [u8], index: &mut usize, line: usize) -> (t: Token<
        'a,
        WonTokenKind,
    >)
        requires
            *old(index) < input@.len(),
            is_ident_byte(input@[*old(index) as int]),
        ensures
            t.span.source@ == input@,
            t.span.index == *old(index),
            t.span.wf(),
            t.span.line == line,
            *final(index) == scan_end(input@, *old(index) as int, ident_pred()),
            *final(index) > *old(index),
            t.span.length == *final(index) - *old(index),
            t.kind == ident_kind(input@, *old(index) as int, *final(index) - *old(index)),
    {
        let start = *index;
        let n = input.len();
        let mut end: usize = start;
        while end < n && ident_byte(input[end])
            invariant
                start <= end <= n,
                n == input@.len(),
                start < input@.len(),
                is_ident_byte(input@[start as int]),
                start < end ==> end > start,
                scan_end(input@, start as int, ident_pred()) == scan_end(
                    input@,
                    end as int,
                    ident_pred(),
                ),
            decreases n - end,
        {
            proof {
                assert(ident_pred()(input@[end as int]));
            }
            end = end + 1;
        }
        proof {
            assert(scan_end(input@, end as int, ident_pred()) == end as int);
            assert(ident_pred()(input@[start as int]));
            assert(scan_end(input@, start as int, ident_pred()) == scan_end(
                input@,
                start as int + 1,
                ident_pred(),
            ));
            lemma_scan_end_bounds(input@, start as int + 1, ident_pred());
        }
        let l = end - start;
        let kind = if l == 3 && input[start] == 108 && input[start + 1] == 101 && input[start + 2]
            == 116 {
            WonTokenKind::Let
        } else if l == 5 && input[start] == 99 && input[start + 1] == 111 && input[start + 2] == 110
            && input[start + 3] == 115 && input[start + 4] == 116 {
            WonTokenKind::Const
        } else if l == 2 && input[start] == 97 && input[start + 1] == 115 {
            WonTokenKind::As
        } else if l == 5 && input[start] == 102 && input[start + 1] == 97 && input[start + 2] == 108
            && input[start + 3] == 115 && input[start + 4] == 101 {
            WonTokenKind::False
        } else if l == 4 && input[start] == 116 && input[start + 1] == 114 && input[start + 2]
            == 117 && input[start + 3] == 101 {
            WonTokenKind::True
        } else {
            WonTokenKind::Identifier
        };
        Self::create_token(kind, input, index, l, line)
    }

    /// Lex the whole input. The result is exactly what the token model of
    /// the language says: `lex_from` applied to the full input, starting at
    /// offset 0 on line 1; every token's span lies over the input.
    pub fn lex<'a>(input: &'a [u8]) -> (tokens: Vec<Token<'a, WonTokenKind>>)
        requires
            lexable(input@),
            input@.len() < usize::MAX,
        ensures
            token_models(tokens@) == lex_from(input@, 0, 1),
            forall|k: int|
                0 <= k < tokens@.len() ==> (#[trigger] tokens@[k]).span.source@ == input@
                    && tokens@[k].span.wf(),
            tokens_wf(tokens@),
    {
        let n = input.len();
        let mut index: usize = 0;
        let mut line_count: usize = 1;
        let mut tokens: Vec<Token<'a, WonTokenKind>> = Vec::new();
        while index < n
            invariant
                lexable(input@),
                n == input@.len(),
                n < usize::MAX,
                index <= n,
                1 <= line_count,
                line_count <= index + 1,
                lex_from(input@, 0, 1) == token_models(tokens@) + lex_from(
                    input@,
                    index as int,
                    line_count as int,
                ),
                forall|k: int|
                    0 <= k < tokens@.len() ==> (#[trigger] tokens@[k]).span.source@ == input@
                        && tokens@[k].span.wf(),
            decreases n - index,
        {
            let ghost old_index = index as int;
            let ghost old_models = token_models(tokens@);
            let ghost rest0 = lex_from(input@, index as int, line_count as int);
            let b = input[index];
            if b == 32 || b == 9 || b == 13 {
                index = index + 1;
            } else if b == 10 {
                index = index + 1;
                line_count = line_count + 1;
            } else if b == 40 || b == 41 || b == 58 || b == 59 || b == 61 || b == 44 {
                let kind = if b == 40 {
                    WonTokenKind::GroupStart
                } else if b == 41 {
                    WonTokenKind::GroupEnd
                } else if b == 58 {
                    WonTokenKind::DeclType
                } else if b == 59 {
                    WonTokenKind::EndStatement
                } else if b == 61 {
                    WonTokenKind::Assign
                } else {
                    WonTokenKind::ItemSeparator
                };
                let t = Self::create_token(kind, input, &mut index, 1, line_count);
                tokens.push(t);
                proof {
                    assert(token_models(tokens@) =~= old_models.push(token_model(t)));
                    assert(old_models + rest0 =~= token_models(tokens@) + lex_from(
                        input@,
                        index as int,
                        line_count as int,
                    ));
                }
            } else if (97 <= b && b <= 122) || (65 <= b && b <= 90) || b == 95 {
                let t = Self::handle_identifier(input, &mut index, line_count);
                tokens.push(t);
                proof {
                    assert(token_models(tokens@) =~= old_models.push(token_model(t)));
                    assert(old_models + rest0 =~= token_models(tokens@) + lex_from(
                        input@,
                        index as int,
                        line_count as int,
                    ));
                }
            } else if 48 <= b && b <= 57 {
                let start = index;
                let mut end: usize = index + 1;
                while end < n && num_byte(input[end])
                    invariant
                        start < end <= n,
                        n == input@.len(),
                        scan_end(input@, start as int + 1, num_pred()) == scan_end(
                            input@,
                            end as int,
                            num_pred(),
                        ),
                    decreases n - end,
                {
                    proof {
                        assert(num_pred()(input@[end as int]));
                    }
                    end = end + 1;
                }
                proof {
                    assert(scan_end(input@, end as int, num_pred()) == end as int);
                }
                let t = Self::create_token(
                    WonTokenKind::Number,
                    input,
                    &mut index,
                    end - start,
                    line_count,
                );
                tokens.push(t);
                proof {
                    assert(token_models(tokens@) =~= old_models.push(token_model(t)));
                    assert(old_models + rest0 =~= token_models(tokens@) + lex_from(
                        input@,
                        index as int,
                        line_count as int,
                    ));
                }
            } else {
                proof {
                    assert(lexable_byte(input@[old_index]));
                    assert(is_control_byte(b));
                }
                index = index + 1;
            }
        }
        proof {
            assert(lex_from(input@, index as int, line_count as int) =~= Seq::<
                (WonTokenKind, int, int, int),
            >::empty());
            assert(token_models(tokens@) + Seq::<(WonTokenKind, int, int, int)>::empty()
                =~= token_models(tokens@));
            lemma_lex_from_spans(input@, 0, 1);
            let ms = lex_from(input@, 0, 1);
            assert forall|k: int, j: int|
                0 <= k < j < tokens@.len() implies (#[trigger] tokens@[k]).span.source@ == (
            #[trigger] tokens@[j]).span.source@ && tokens@[k].span.index <= tokens@[j].span.index by {
                assert(ms[k] == token_model(tokens@[k]));
                assert(ms[j] == token_model(tokens@[j]));
                assert(ms[k].1 + ms[k].2 <= ms[j].1);
            }
        }
        tokens
    }
}

impl Lexer<WonTokenKind> for WonLexer {
    /// The bytes the scripting language's lexer accepts.
    open spec fn accepts(input: Seq<u8>) -> bool {
        lexable(input) && input.len() < usize::MAX
    }

    /// Lex the whole input; the inherent method states the exact result.
    fn lex<'a>(input: &'a [u8]) -> (tokens: Vec<Token<'a, WonTokenKind>>)
        ensures
            token_models(tokens@) == lex_from(input@, 0, 1),
    {
        WonLexer::lex(input)
    }
}

} // verus!
