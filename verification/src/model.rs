//! The mathematical model of the scan: what token sequence, or what error, a
//! given source text yields. The executable scanner in `crate::scanner` is
//! verified against `scan`, and the laws in `crate::laws` are proved of it.

use vstd::prelude::*;
use crate::error::{ScanErrorKind, ScanErrorModel};
use crate::token::{TokenKind, TokenModel};

verus! {

/// An ASCII decimal digit.
pub open spec fn is_digit(c: char) -> bool {
    '0' <= c && c <= '9'
}

/// An ASCII letter or underscore: what may open an identifier or keyword.
pub open spec fn is_alpha(c: char) -> bool {
    ('a' <= c && c <= 'z') || ('A' <= c && c <= 'Z') || c == '_'
}

/// What may continue an identifier or keyword.
pub open spec fn is_alpha_numeric(c: char) -> bool {
    is_alpha(c) || is_digit(c)
}

/// The single-character punctuation tokens. `/` is not among them: it opens
/// either a `Slash` token or a line comment.
pub open spec fn punct_kind(c: char) -> Option<TokenKind> {
    if c == '(' {
        Some(TokenKind::LeftParen)
    } else if c == ')' {
        Some(TokenKind::RightParen)
    } else if c == '{' {
        Some(TokenKind::LeftBrace)
    } else if c == '}' {
        Some(TokenKind::RightBrace)
    } else if c == ',' {
        Some(TokenKind::Comma)
    } else if c == '.' {
        Some(TokenKind::Dot)
    } else if c == '-' {
        Some(TokenKind::Minus)
    } else if c == '+' {
        Some(TokenKind::Plus)
    } else if c == ';' {
        Some(TokenKind::Semicolon)
    } else if c == '*' {
        Some(TokenKind::Star)
    } else {
        None
    }
}

/// A character that opens a one-or-two-character operator.
pub open spec fn is_operator_start(c: char) -> bool {
    c == '!' || c == '=' || c == '<' || c == '>'
}

/// The operator token when no `=` follows.
pub open spec fn one_char_operator_kind(c: char) -> TokenKind {
    if c == '!' {
        TokenKind::Bang
    } else if c == '=' {
        TokenKind::Equal
    } else if c == '<' {
        TokenKind::Less
    } else {
        TokenKind::Greater
    }
}

/// The operator token when an `=` follows (maximal munch).
pub open spec fn two_char_operator_kind(c: char) -> TokenKind {
    if c == '!' {
        TokenKind::BangEqual
    } else if c == '=' {
        TokenKind::EqualEqual
    } else if c == '<' {
        TokenKind::LessEqual
    } else {
        TokenKind::GreaterEqual
    }
}

/// The sixteen reserved words, by exact case-sensitive spelling. Any other
/// identifier-shaped lexeme is a plain identifier.
pub open spec fn keyword_kind(s: Seq<char>) -> Option<TokenKind> {
    if s == "and"@ {
        Some(TokenKind::And)
    } else if s == "class"@ {
        Some(TokenKind::Class)
    } else if s == "else"@ {
        Some(TokenKind::Else)
    } else if s == "false"@ {
        Some(TokenKind::False)
    } else if s == "for"@ {
        Some(TokenKind::For)
    } else if s == "fun"@ {
        Some(TokenKind::Fun)
    } else if s == "if"@ {
        Some(TokenKind::If)
    } else if s == "nil"@ {
        Some(TokenKind::Nil)
    } else if s == "or"@ {
        Some(TokenKind::Or)
    } else if s == "print"@ {
        Some(TokenKind::Print)
    } else if s == "return"@ {
        Some(TokenKind::Return)
    } else if s == "super"@ {
        Some(TokenKind::Super)
    } else if s == "this"@ {
        Some(TokenKind::This)
    } else if s == "true"@ {
        Some(TokenKind::True)
    } else if s == "var"@ {
        Some(TokenKind::Var)
    } else if s == "while"@ {
        Some(TokenKind::While)
    } else {
        None
    }
}

/// The kind of an identifier-shaped lexeme: its keyword kind if it is a
/// reserved word, else `Identifier`.
pub open spec fn identifier_kind(s: Seq<char>) -> TokenKind {
    match keyword_kind(s) {
        Some(k) => k,
        None => TokenKind::Identifier,
    }
}

/// First position at or after `pos` whose character cannot continue an
/// identifier, or the end of the source.
pub open spec fn ident_end(src: Seq<char>, pos: int) -> int
    decreases src.len() - pos when 0 <= pos <= src.len()
{
    if pos == src.len() || !is_alpha_numeric(src[pos]) {
        pos
    } else {
        ident_end(src, pos + 1)
    }
}

/// First position at or after `pos` whose character is not a digit, or the
/// end of the source.
pub open spec fn digits_end(src: Seq<char>, pos: int) -> int
    decreases src.len() - pos when 0 <= pos <= src.len()
{
    if pos == src.len() || !is_digit(src[pos]) {
        pos
    } else {
        digits_end(src, pos + 1)
    }
}

/// Where a number that starts at `pos` ends: its leading digits, then a
/// fractional part only when a `.` is directly followed by a digit, so that
/// a trailing `.` is left for the next token.
pub open spec fn number_end(src: Seq<char>, pos: int) -> int {
    let d = digits_end(src, pos);
    if d + 1 < src.len() && src[d] == '.' && is_digit(src[d + 1]) {
        digits_end(src, d + 1)
    } else {
        d
    }
}

/// First position at or after `pos` holding a newline, or the end of the
/// source: where a line comment's discarded text stops.
pub open spec fn comment_end(src: Seq<char>, pos: int) -> int
    decreases src.len() - pos when 0 <= pos <= src.len()
{
    if pos == src.len() || src[pos] == '\n' {
        pos
    } else {
        comment_end(src, pos + 1)
    }
}

/// First position at or after `pos` holding a closing quote, or the end of
/// the source when the string literal is unterminated.
pub open spec fn string_body_end(src: Seq<char>, pos: int) -> int
    decreases src.len() - pos when 0 <= pos <= src.len()
{
    if pos == src.len() || src[pos] == '"' {
        pos
    } else {
        string_body_end(src, pos + 1)
    }
}

/// How many newlines stand in `src` at positions `pos` up to (not including)
/// `end`.
pub open spec fn newlines_in(src: Seq<char>, pos: int, end: int) -> int
    decreases end - pos when pos <= end
{
    if pos >= end {
        0
    } else {
        (if src[pos] == '\n' { 1int } else { 0 }) + newlines_in(src, pos + 1, end)
    }
}

pub proof fn lemma_ident_end_bounds(src: Seq<char>, pos: int)
    requires
        0 <= pos <= src.len(),
    ensures
        pos <= ident_end(src, pos) <= src.len(),
        pos < src.len() && is_alpha_numeric(src[pos]) ==> pos + 1 <= ident_end(src, pos),
    decreases src.len() - pos,
{
    if pos < src.len() && is_alpha_numeric(src[pos]) {
        lemma_ident_end_bounds(src, pos + 1);
    }
}

pub proof fn lemma_digits_end_bounds(src: Seq<char>, pos: int)
    requires
        0 <= pos <= src.len(),
    ensures
        pos <= digits_end(src, pos) <= src.len(),
        pos < src.len() && is_digit(src[pos]) ==> pos + 1 <= digits_end(src, pos),
    decreases src.len() - pos,
{
    if pos < src.len() && is_digit(src[pos]) {
        lemma_digits_end_bounds(src, pos + 1);
    }
}

pub proof fn lemma_number_end_bounds(src: Seq<char>, pos: int)
    requires
        0 <= pos < src.len(),
        is_digit(src[pos]),
    ensures
        pos < number_end(src, pos) <= src.len(),
    decreases src.len() - pos,
{
    lemma_digits_end_bounds(src, pos);
    let d = digits_end(src, pos);
    if d + 1 < src.len() && src[d] == '.' && is_digit(src[d + 1]) {
        lemma_digits_end_bounds(src, d + 1);
    }
}

pub proof fn lemma_comment_end_bounds(src: Seq<char>, pos: int)
    requires
        0 <= pos <= src.len(),
    ensures
        pos <= comment_end(src, pos) <= src.len(),
    decreases src.len() - pos,
{
    if pos < src.len() && src[pos] != '\n' {
        lemma_comment_end_bounds(src, pos + 1);
    }
}

pub proof fn lemma_string_body_end_bounds(src: Seq<char>, pos: int)
    requires
        0 <= pos <= src.len(),
    ensures
        pos <= string_body_end(src, pos) <= src.len(),
    decreases src.len() - pos,
{
    if pos < src.len() && src[pos] != '"' {
        lemma_string_body_end_bounds(src, pos + 1);
    }
}

pub proof fn lemma_newlines_in_bounds(src: Seq<char>, pos: int, end: int)
    requires
        pos <= end,
    ensures
        0 <= newlines_in(src, pos, end) <= end - pos,
    decreases end - pos,
{
    if pos < end {
        lemma_newlines_in_bounds(src, pos + 1, end);
    }
}

/// Counting newlines over one more character appends that character's count.
pub proof fn lemma_newlines_in_snoc(src: Seq<char>, pos: int, end: int)
    requires
        pos <= end,
    ensures
        newlines_in(src, pos, end + 1) == newlines_in(src, pos, end) + (
        if src[end] == '\n' {
            1int
        } else {
            0int
        }),
    decreases end - pos,
{
    if pos < end {
        lemma_newlines_in_snoc(src, pos + 1, end);
    } else {
        assert(newlines_in(src, end + 1, end + 1) == 0);
    }
}

/// A token of the given kind whose lexeme is the source text from `start` up
/// to (not including) `end`, tagged with the line its first character stands
/// on.
pub open spec fn emitted(kind: TokenKind, src: Seq<char>, start: int, end: int, line: int) -> TokenModel {
    TokenModel { kind, lexeme: src.subrange(start, end), line }
}

/// The terminal end marker: an `Eof` token with an empty lexeme, tagged with
/// the line the cursor ended on.
pub open spec fn eof_token(line: int) -> TokenModel {
    TokenModel { kind: TokenKind::Eof, lexeme: Seq::<char>::empty(), line }
}

/// Prepends already-emitted tokens to the outcome of scanning the rest of
/// the source; an error swallows whatever came before it, since the scan
/// does not recover.
pub open spec fn with_prefix(
    pre: Seq<TokenModel>,
    r: Result<Seq<TokenModel>, ScanErrorModel>,
) -> Result<Seq<TokenModel>, ScanErrorModel> {
    match r {
        Ok(toks) => Ok(pre + toks),
        Err(e) => Err(e),
    }
}

/// What scanning `src` from position `pos`, with the line counter at `line`,
/// yields: the ordered token sequence through the terminal `Eof`, or the
/// first lexical error. This is the single pass of the scanner, one dispatch
/// step per recursive call.
pub open spec fn scan(src: Seq<char>, pos: int, line: int) -> Result<Seq<TokenModel>, ScanErrorModel>
    decreases src.len() - pos when 0 <= pos <= src.len()
{
    if pos == src.len() {
        Ok(seq![eof_token(line)])
    } else {
        let c = src[pos];
        if c == ' ' || c == '\r' || c == '\t' {
            scan(src, pos + 1, line)
        } else if c == '\n' {
            scan(src, pos + 1, line + 1)
        } else if is_operator_start(c) {
            if pos + 1 < src.len() && src[pos + 1] == '=' {
                with_prefix(
                    seq![emitted(two_char_operator_kind(c), src, pos, pos + 2, line)],
                    scan(src, pos + 2, line),
                )
            } else {
                with_prefix(
                    seq![emitted(one_char_operator_kind(c), src, pos, pos + 1, line)],
                    scan(src, pos + 1, line),
                )
            }
        } else if c == '/' {
            if pos + 1 < src.len() && src[pos + 1] == '/' {
                proof {
                    lemma_comment_end_bounds(src, pos + 2);
                }
                scan(src, comment_end(src, pos + 2), line)
            } else {
                with_prefix(
                    seq![emitted(TokenKind::Slash, src, pos, pos + 1, line)],
                    scan(src, pos + 1, line),
                )
            }
        } else if c == '"' {
            let close = string_body_end(src, pos + 1);
            proof {
                lemma_string_body_end_bounds(src, pos + 1);
            }
            if close == src.len() {
                Err(ScanErrorModel { kind: ScanErrorKind::UnterminatedString, line })
            } else {
                with_prefix(
                    seq![emitted(TokenKind::Str, src, pos, close + 1, line)],
                    scan(src, close + 1, line + newlines_in(src, pos + 1, close)),
                )
            }
        } else if is_digit(c) {
            proof {
                lemma_number_end_bounds(src, pos);
            }
            with_prefix(
                seq![emitted(TokenKind::Number, src, pos, number_end(src, pos), line)],
                scan(src, number_end(src, pos), line),
            )
        } else if is_alpha(c) {
            proof {
                lemma_ident_end_bounds(src, pos);
            }
            with_prefix(
                seq![
                    TokenModel {
                        kind: identifier_kind(src.subrange(pos, ident_end(src, pos))),
                        lexeme: src.subrange(pos, ident_end(src, pos)),
                        line,
                    },
                ],
                scan(src, ident_end(src, pos), line),
            )
        } else {
            match punct_kind(c) {
                Some(k) => with_prefix(
                    seq![emitted(k, src, pos, pos + 1, line)],
                    scan(src, pos + 1, line),
                ),
                None => Err(ScanErrorModel { kind: ScanErrorKind::UnexpectedCharacter, line }),
            }
        }
    }
}

/// `with_prefix` of no tokens changes nothing.
pub proof fn lemma_with_prefix_empty(r: Result<Seq<TokenModel>, ScanErrorModel>)
    ensures
        with_prefix(Seq::<TokenModel>::empty(), r) == r,
{
    match r {
        Ok(toks) => {
            assert(Seq::<TokenModel>::empty() + toks =~= toks);
        },
        Err(_) => {},
    }
}

/// Two prefixes in a row are one concatenated prefix.
pub proof fn lemma_with_prefix_assoc(
    a: Seq<TokenModel>,
    b: Seq<TokenModel>,
    r: Result<Seq<TokenModel>, ScanErrorModel>,
)
    ensures
        with_prefix(a, with_prefix(b, r)) == with_prefix(a + b, r),
{
    match r {
        Ok(toks) => {
            assert(a + (b + toks) =~= (a + b) + toks);
        },
        Err(_) => {},
    }
}

/// Evaluates `keyword_kind` on each of the sixteen reserved words. The
/// if-chain in `keyword_kind` compares against every earlier word, so the
/// proof pins each word's length and opening characters apart.
pub proof fn lemma_keyword_kind_on_keywords()
    ensures
        keyword_kind("and"@) == Some(TokenKind::And),
        keyword_kind("class"@) == Some(TokenKind::Class),
        keyword_kind("else"@) == Some(TokenKind::Else),
        keyword_kind("false"@) == Some(TokenKind::False),
        keyword_kind("for"@) == Some(TokenKind::For),
        keyword_kind("fun"@) == Some(TokenKind::Fun),
        keyword_kind("if"@) == Some(TokenKind::If),
        keyword_kind("nil"@) == Some(TokenKind::Nil),
        keyword_kind("or"@) == Some(TokenKind::Or),
        keyword_kind("print"@) == Some(TokenKind::Print),
        keyword_kind("return"@) == Some(TokenKind::Return),
        keyword_kind("super"@) == Some(TokenKind::Super),
        keyword_kind("this"@) == Some(TokenKind::This),
        keyword_kind("true"@) == Some(TokenKind::True),
        keyword_kind("var"@) == Some(TokenKind::Var),
        keyword_kind("while"@) == Some(TokenKind::While),
{
    broadcast use vstd::string::group_string_axioms;

    reveal_strlit("and");
    reveal_strlit("class");
    reveal_strlit("else");
    reveal_strlit("false");
    reveal_strlit("for");
    reveal_strlit("fun");
    reveal_strlit("if");
    reveal_strlit("nil");
    reveal_strlit("or");
    reveal_strlit("print");
    reveal_strlit("return");
    reveal_strlit("super");
    reveal_strlit("this");
    reveal_strlit("true");
    reveal_strlit("var");
    reveal_strlit("while");
    assert("and"@.len() == 3 && "and"@[0] == 'a' && "and"@[1] == 'n');
    assert("class"@.len() == 5 && "class"@[0] == 'c' && "class"@[1] == 'l');
    assert("else"@.len() == 4 && "else"@[0] == 'e' && "else"@[1] == 'l');
    assert("false"@.len() == 5 && "false"@[0] == 'f' && "false"@[1] == 'a');
    assert("for"@.len() == 3 && "for"@[0] == 'f' && "for"@[1] == 'o');
    assert("fun"@.len() == 3 && "fun"@[0] == 'f' && "fun"@[1] == 'u');
    assert("if"@.len() == 2 && "if"@[0] == 'i' && "if"@[1] == 'f');
    assert("nil"@.len() == 3 && "nil"@[0] == 'n' && "nil"@[1] == 'i');
    assert("or"@.len() == 2 && "or"@[0] == 'o' && "or"@[1] == 'r');
    assert("print"@.len() == 5 && "print"@[0] == 'p' && "print"@[1] == 'r');
    assert("return"@.len() == 6 && "return"@[0] == 'r' && "return"@[1] == 'e');
    assert("super"@.len() == 5 && "super"@[0] == 's' && "super"@[1] == 'u');
    assert("this"@.len() == 4 && "this"@[0] == 't' && "this"@[1] == 'h');
    assert("true"@.len() == 4 && "true"@[0] == 't' && "true"@[1] == 'r');
    assert("var"@.len() == 3 && "var"@[0] == 'v' && "var"@[1] == 'a');
    assert("while"@.len() == 5 && "while"@[0] == 'w' && "while"@[1] == 'h');
}

} // verus!
