//! The executable scanner, verified against the model in `crate::model`.

use vstd::prelude::*;
use crate::error::{ScanError, ScanErrorKind, ScanErrorModel};
use crate::model::{
    comment_end, digits_end, emitted, eof_token, ident_end, identifier_kind, is_alpha,
    is_alpha_numeric, is_digit, keyword_kind, newlines_in, number_end, scan, string_body_end,
    with_prefix,
};
use crate::token::{Token, TokenKind, TokenModel};

verus! {

/// The models of a sequence of emitted tokens.
pub open spec fn token_views(toks: Seq<Token>) -> Seq<TokenModel> {
    toks.map_values(|t: Token| t@)
}

/// A keyword table that agrees exactly with `keyword_kind`: every entry maps
/// a reserved word to its kind, and every reserved word has an entry.
pub open spec fn keywords_wf(tbl: Seq<(String, TokenKind)>) -> bool {
    &&& forall|i: int|
        0 <= i < tbl.len() ==> keyword_kind((#[trigger] tbl[i]).0@) == Some(tbl[i].1)
    &&& forall|s: Seq<char>|
        (#[trigger] keyword_kind(s)) is Some ==> exists|i: int|
            0 <= i < tbl.len() && (#[trigger] tbl[i]).0@ == s
}

/// A single stateful cursor over the source text. It owns the full source as
/// an indexable sequence of characters and appends tokens as it advances;
/// `start` marks the first character of the lexeme being scanned, `current`
/// the cursor, and `line` the 1-based line the cursor stands on.
pub struct Scanner {
    source: Vec<char>,
    tokens: Vec<Token>,
    start: usize,
    current: usize,
    line: i64,
    keywords: Vec<(String, TokenKind)>,
}

impl Scanner {
    /// The source text under scan.
    pub closed spec fn src(self) -> Seq<char> {
        self.source@
    }

    /// The cursor's position.
    pub closed spec fn pos(self) -> int {
        self.current as int
    }

    /// The 1-based line the cursor stands on.
    pub closed spec fn line_no(self) -> int {
        self.line as int
    }

    /// The models of the tokens emitted so far.
    pub closed spec fn emitted_tokens(self) -> Seq<TokenModel> {
        token_views(self.tokens@)
    }

    /// The scanner's internal invariant: the cursor stays within the source,
    /// the line counter stays 1-based and cannot outgrow the characters
    /// consumed, and the keyword table agrees with `keyword_kind`.
    pub closed spec fn wf(self) -> bool {
        &&& self.current <= self.source@.len()
        &&& self.start <= self.current
        &&& 1 <= self.line
        &&& self.line as int <= 1 + self.current as int
        &&& self.source@.len() < i64::MAX
        &&& keywords_wf(self.keywords@)
    }

    /// The immutable keyword table: the sixteen reserved words, each with its
    /// token kind.
    pub fn load_keywords() -> (table: Vec<(String, TokenKind)>)
        ensures
            keywords_wf(table@),
            table@.len() == 16,
            table@[0].0@ == "and"@ && table@[0].1 == TokenKind::And,
            table@[1].0@ == "class"@ && table@[1].1 == TokenKind::Class,
            table@[2].0@ == "else"@ && table@[2].1 == TokenKind::Else,
            table@[3].0@ == "false"@ && table@[3].1 == TokenKind::False,
            table@[4].0@ == "for"@ && table@[4].1 == TokenKind::For,
            table@[5].0@ == "fun"@ && table@[5].1 == TokenKind::Fun,
            table@[6].0@ == "if"@ && table@[6].1 == TokenKind::If,
            table@[7].0@ == "nil"@ && table@[7].1 == TokenKind::Nil,
            table@[8].0@ == "or"@ && table@[8].1 == TokenKind::Or,
            table@[9].0@ == "print"@ && table@[9].1 == TokenKind::Print,
            table@[10].0@ == "return"@ && table@[10].1 == TokenKind::Return,
            table@[11].0@ == "super"@ && table@[11].1 == TokenKind::Super,
            table@[12].0@ == "this"@ && table@[12].1 == TokenKind::This,
            table@[13].0@ == "true"@ && table@[13].1 == TokenKind::True,
            table@[14].0@ == "var"@ && table@[14].1 == TokenKind::Var,
            table@[15].0@ == "while"@ && table@[15].1 == TokenKind::While,
    {
        let mut table: Vec<(String, TokenKind)> = Vec::new();
        table.push(("and".to_owned(), TokenKind::And));
        table.push(("class".to_owned(), TokenKind::Class));
        table.push(("else".to_owned(), TokenKind::Else));
        table.push(("false".to_owned(), TokenKind::False));
        table.push(("for".to_owned(), TokenKind::For));
        table.push(("fun".to_owned(), TokenKind::Fun));
        table.push(("if".to_owned(), TokenKind::If));
        table.push(("nil".to_owned(), TokenKind::Nil));
        table.push(("or".to_owned(), TokenKind::Or));
        table.push(("print".to_owned(), TokenKind::Print));
        table.push(("return".to_owned(), TokenKind::Return));
        table.push(("super".to_owned(), TokenKind::Super));
        table.push(("this".to_owned(), TokenKind::This));
        table.push(("true".to_owned(), TokenKind::True));
        table.push(("var".to_owned(), TokenKind::Var));
        table.push(("while".to_owned(), TokenKind::While));
        proof {
            crate::model::lemma_keyword_kind_on_keywords();
            assert forall|i: int|
                0 <= i < table@.len() implies keyword_kind(
                (#[trigger] table@[i]).0@,
            ) == Some(table@[i].1) by {
                if i == 0 {
                    assert(table@[i].0@ == "and"@ && table@[i].1 == TokenKind::And);
                } else if i == 1 {
                    assert(table@[i].0@ == "class"@ && table@[i].1 == TokenKind::Class);
                } else if i == 2 {
                    assert(table@[i].0@ == "else"@ && table@[i].1 == TokenKind::Else);
                } else if i == 3 {
                    assert(table@[i].0@ == "false"@ && table@[i].1 == TokenKind::False);
                } else if i == 4 {
                    assert(table@[i].0@ == "for"@ && table@[i].1 == TokenKind::For);
                } else if i == 5 {
                    assert(table@[i].0@ == "fun"@ && table@[i].1 == TokenKind::Fun);
                } else if i == 6 {
                    assert(table@[i].0@ == "if"@ && table@[i].1 == TokenKind::If);
                } else if i == 7 {
                    assert(table@[i].0@ == "nil"@ && table@[i].1 == TokenKind::Nil);
                } else if i == 8 {
                    assert(table@[i].0@ == "or"@ && table@[i].1 == TokenKind::Or);
                } else if i == 9 {
                    assert(table@[i].0@ == "print"@ && table@[i].1 == TokenKind::Print);
                } else if i == 10 {
                    assert(table@[i].0@ == "return"@ && table@[i].1 == TokenKind::Return);
                } else if i == 11 {
                    assert(table@[i].0@ == "super"@ && table@[i].1 == TokenKind::Super);
                } else if i == 12 {
                    assert(table@[i].0@ == "this"@ && table@[i].1 == TokenKind::This);
                } else if i == 13 {
                    assert(table@[i].0@ == "true"@ && table@[i].1 == TokenKind::True);
                } else if i == 14 {
                    assert(table@[i].0@ == "var"@ && table@[i].1 == TokenKind::Var);
                } else {
                    assert(table@[i].0@ == "while"@ && table@[i].1 == TokenKind::While);
                }
            }
            assert forall|s: Seq<char>| (#[trigger] keyword_kind(s)) is Some implies exists|i: int|
                0 <= i < table@.len() && (#[trigger] table@[i]).0@ == s by {
                if s == "and"@ {
                    assert(table@[0].0@ == s);
                } else if s == "class"@ {
                    assert(table@[1].0@ == s);
                } else if s == "else"@ {
                    assert(table@[2].0@ == s);
                } else if s == "false"@ {
                    assert(table@[3].0@ == s);
                } else if s == "for"@ {
                    assert(table@[4].0@ == s);
                } else if s == "fun"@ {
                    assert(table@[5].0@ == s);
                } else if s == "if"@ {
                    assert(table@[6].0@ == s);
                } else if s == "nil"@ {
                    assert(table@[7].0@ == s);
                } else if s == "or"@ {
                    assert(table@[8].0@ == s);
                } else if s == "print"@ {
                    assert(table@[9].0@ == s);
                } else if s == "return"@ {
                    assert(table@[10].0@ == s);
                } else if s == "super"@ {
                    assert(table@[11].0@ == s);
                } else if s == "this"@ {
                    assert(table@[12].0@ == s);
                } else if s == "true"@ {
                    assert(table@[13].0@ == s);
                } else if s == "var"@ {
                    assert(table@[14].0@ == s);
                } else if s == "while"@ {
                    assert(table@[15].0@ == s);
                }
            }
        }
        table
    }

    /// A fresh scanner over `source`: cursor at offset 0, line 1, no tokens
    /// yet, keyword table loaded. The bound on the length keeps the line
    /// counter within its machine type.
    pub fn new(source: Vec<char>) -> (s: Scanner)
        requires
            source@.len() < i64::MAX,
        ensures
            s.wf(),
            s.src() == source@,
            s.pos() == 0,
            s.line_no() == 1,
            s.emitted_tokens() == Seq::<TokenModel>::empty(),
    {
        let s = Scanner {
            source,
            tokens: Vec::new(),
            start: 0,
            current: 0,
            line: 1,
            keywords: Scanner::load_keywords(),
        };
        proof {
            assert(token_views(s.tokens@) =~= Seq::<TokenModel>::empty());
        }
        s
    }

    /// Whether the cursor has consumed the whole source.
    fn is_at_end(&self) -> (r: bool)
        ensures
            r == (self.current >= self.source@.len()),
    {
        self.current >= self.source.len()
    }

    /// Consumes and returns the character under the cursor.
    fn advance(&mut self) -> (c: char)
        requires
            old(self).wf(),
            old(self).current < old(self).source@.len(),
        ensures
            final(self).wf(),
            c == old(self).source@[old(self).current as int],
            final(self).current == old(self).current + 1,
            final(self).source == old(self).source,
            final(self).tokens == old(self).tokens,
            final(self).start == old(self).start,
            final(self).line == old(self).line,
            final(self).keywords == old(self).keywords,
    {
        let n = self.source.len();
        proof {
            assert(self.current < n);
        }
        let c = self.source[self.current];
        self.current = self.current + 1;
        c
    }

    /// Consumes the character under the cursor only when it is `expected`:
    /// the one character of conditional lookahead behind the two-character
    /// operators.
    fn match_next(&mut self, expected: char) -> (matched: bool)
        requires
            old(self).wf(),
        ensures
            final(self).wf(),
            matched == (old(self).current < old(self).source@.len()
                && old(self).source@[old(self).current as int] == expected),
            final(self).current as int == old(self).current as int + (if matched {
                1int
            } else {
                0int
            }),
            final(self).source == old(self).source,
            final(self).tokens == old(self).tokens,
            final(self).start == old(self).start,
            final(self).line == old(self).line,
            final(self).keywords == old(self).keywords,
    {
        if self.current >= self.source.len() || self.source[self.current] != expected {
            return false;
        }
        self.current = self.current + 1;
        true
    }

    /// The character under the cursor, or `'\0'` at the end of the source.
    fn peek(&self) -> (c: char)
        requires
            self.wf(),
        ensures
            c == (if self.current < self.source@.len() {
                self.source@[self.current as int]
            } else {
                '\0'
            }),
    {
        if self.current >= self.source.len() {
            return '\0';
        }
        self.source[self.current]
    }

    /// The character one past the cursor, or `'\0'` when none is there.
    fn peek_next(&self) -> (c: char)
        requires
            self.wf(),
        ensures
            c == (if self.current + 1 < self.source@.len() {
                self.source@[self.current as int + 1]
            } else {
                '\0'
            }),
    {
        if self.current >= self.source.len() {
            return '\0';
        }
        if self.current + 1 >= self.source.len() {
            return '\0';
        }
        self.source[self.current + 1]
    }

    /// Whether `c` is an ASCII letter or underscore.
    fn is_alpha(&self, c: char) -> (r: bool)
        ensures
            r == is_alpha(c),
    {
        (c >= 'a' && c <= 'z') || (c >= 'A' && c <= 'Z') || c == '_'
    }

    /// Whether `c` is an ASCII digit.
    fn is_digit(&self, c: char) -> (r: bool)
        ensures
            r == is_digit(c),
    {
        c >= '0' && c <= '9'
    }

    /// Whether `c` may continue an identifier or keyword.
    fn is_alpha_numeric(&self, c: char) -> (r: bool)
        ensures
            r == is_alpha_numeric(c),
    {
        self.is_alpha(c) || self.is_digit(c)
    }

    /// The source text from `from` up to (not including) `to`, as an owned
    /// string: the lexeme of the token being emitted.
    fn lexeme_string(&self, from: usize, to: usize) -> (s: String)
        requires
            from <= to,
            to <= self.source@.len(),
        ensures
            s@ == self.source@.subrange(from as int, to as int),
    {
        let mut s = String::new();
        let mut i: usize = from;
        while i < to
            invariant
                from <= i <= to,
                to <= self.source@.len(),
                s@ == self.source@.subrange(from as int, i as int),
            decreases to - i,
        {
            string_push(&mut s, self.source[i]);
            i = i + 1;
            proof {
                assert(self.source@.subrange(from as int, i as int) =~= self.source@.subrange(
                    from as int,
                    i as int - 1,
                ).push(self.source@[i as int - 1]));
            }
        }
        s
    }

    /// Appends a token of the given kind whose lexeme is the source text from
    /// `start` up to the cursor, tagged with the current line.
    fn add_token(&mut self, kind: TokenKind)
        requires
            old(self).wf(),
        ensures
            final(self).wf(),
            token_views(final(self).tokens@) == token_views(old(self).tokens@).push(
                emitted(
                    kind,
                    old(self).source@,
                    old(self).start as int,
                    old(self).current as int,
                    old(self).line as int,
                ),
            ),
            final(self).tokens@.len() == old(self).tokens@.len() + 1,
            final(self).tokens@.take(old(self).tokens@.len() as int) == old(self).tokens@,
            final(self).source == old(self).source,
            final(self).start == old(self).start,
            final(self).current == old(self).current,
            final(self).line == old(self).line,
            final(self).keywords == old(self).keywords,
    {
        let lexeme = self.lexeme_string(self.start, self.current);
        self.add_token_with_lex(kind, lexeme);
    }

    /// Appends a token of the given kind with the given lexeme, tagged with
    /// the current line.
    fn add_token_with_lex(&mut self, kind: TokenKind, lexeme: String)
        requires
            old(self).wf(),
        ensures
            final(self).wf(),
            token_views(final(self).tokens@) == token_views(old(self).tokens@).push(
                (TokenModel { kind, lexeme: lexeme@, line: old(self).line as int }),
            ),
            final(self).tokens@.len() == old(self).tokens@.len() + 1,
            final(self).tokens@.take(old(self).tokens@.len() as int) == old(self).tokens@,
            final(self).source == old(self).source,
            final(self).start == old(self).start,
            final(self).current == old(self).current,
            final(self).line == old(self).line,
            final(self).keywords == old(self).keywords,
    {
        let line = self.line;
        self.tokens.push(Token::new(kind, lexeme, line));
        proof {
            assert(token_views(self.tokens@) =~= token_views(old(self).tokens@).push(
                self.tokens@.last()@,
            ));
            assert(self.tokens@.take(old(self).tokens@.len() as int) =~= old(self).tokens@);
        }
    }

    /// Looks `lexeme` up in the keyword table: its reserved-word kind, or
    /// `None` when it is a plain identifier.
    fn keyword_kind_of(&self, lexeme: &String) -> (r: Option<TokenKind>)
        requires
            keywords_wf(self.keywords@),
        ensures
            r == keyword_kind(lexeme@),
    {
        let mut i: usize = 0;
        while i < self.keywords.len()
            invariant
                keywords_wf(self.keywords@),
                i <= self.keywords@.len(),
                forall|j: int| 0 <= j < i ==> (#[trigger] self.keywords@[j]).0@ != lexeme@,
            decreases self.keywords@.len() - i,
        {
            if self.keywords[i].0 == *lexeme {
                return Some(self.keywords[i].1);
            }
            i = i + 1;
        }
        proof {
            if keyword_kind(lexeme@) is Some {
                let j = choose|j: int|
                    0 <= j < self.keywords@.len() && (#[trigger] self.keywords@[j]).0@ == lexeme@;
                assert(self.keywords@[j].0@ != lexeme@);
            }
        }
        None
    }

    /// Scans the rest of an identifier or keyword whose first character the
    /// cursor has just consumed, and emits the matching token.
    #[verifier::loop_isolation(false)]
    fn identifier(&mut self)
        requires
            old(self).wf(),
            old(self).current == old(self).start + 1,
            old(self).start < old(self).source@.len(),
            is_alpha(old(self).source@[old(self).start as int]),
        ensures
            final(self).wf(),
            final(self).current as int == ident_end(old(self).source@, old(self).start as int),
            token_views(final(self).tokens@) == token_views(old(self).tokens@).push(
                (TokenModel {
                    kind: identifier_kind(
                        old(self).source@.subrange(
                            old(self).start as int,
                            ident_end(old(self).source@, old(self).start as int),
                        ),
                    ),
                    lexeme: old(self).source@.subrange(
                        old(self).start as int,
                        ident_end(old(self).source@, old(self).start as int),
                    ),
                    line: old(self).line as int,
                }),
            ),
            final(self).tokens@.len() == old(self).tokens@.len() + 1,
            final(self).tokens@.take(old(self).tokens@.len() as int) == old(self).tokens@,
            final(self).source == old(self).source,
            final(self).start == old(self).start,
            final(self).line == old(self).line,
            final(self).keywords == old(self).keywords,
    {
        while self.is_alpha_numeric(self.peek())
            invariant
                self.wf(),
                (old(self).start as int) < self.current as int,
                self.current as int <= self.source@.len(),
                ident_end(self.source@, old(self).start as int) == ident_end(
                    self.source@,
                    self.current as int,
                ),
                self.source == old(self).source,
                self.tokens == old(self).tokens,
                self.start == old(self).start,
                self.line == old(self).line,
                self.keywords == old(self).keywords,
            decreases self.source@.len() - self.current,
        {
            self.advance();
        }
        let lexeme = self.lexeme_string(self.start, self.current);
        match self.keyword_kind_of(&lexeme) {
            Some(kind) => self.add_token_with_lex(kind, lexeme),
            None => self.add_token_with_lex(TokenKind::Identifier, lexeme),
        }
    }

    /// Scans the rest of a number whose first digit the cursor has just
    /// consumed, and emits the `Number` token. A `.` is consumed only when a
    /// digit follows it directly.
    #[verifier::loop_isolation(false)]
    fn number(&mut self)
        requires
            old(self).wf(),
            old(self).current == old(self).start + 1,
            old(self).start < old(self).source@.len(),
            is_digit(old(self).source@[old(self).start as int]),
        ensures
            final(self).wf(),
            final(self).current as int == number_end(old(self).source@, old(self).start as int),
            token_views(final(self).tokens@) == token_views(old(self).tokens@).push(
                emitted(
                    TokenKind::Number,
                    old(self).source@,
                    old(self).start as int,
                    number_end(old(self).source@, old(self).start as int),
                    old(self).line as int,
                ),
            ),
            final(self).tokens@.len() == old(self).tokens@.len() + 1,
            final(self).tokens@.take(old(self).tokens@.len() as int) == old(self).tokens@,
            final(self).source == old(self).source,
            final(self).start == old(self).start,
            final(self).line == old(self).line,
            final(self).keywords == old(self).keywords,
    {
        while self.is_digit(self.peek())
            invariant
                self.wf(),
                (old(self).start as int) < self.current as int,
                self.current as int <= self.source@.len(),
                digits_end(self.source@, old(self).start as int + 1) == digits_end(
                    self.source@,
                    self.current as int,
                ),
                self.source == old(self).source,
                self.tokens == old(self).tokens,
                self.start == old(self).start,
                self.line == old(self).line,
                self.keywords == old(self).keywords,
            decreases self.source@.len() - self.current,
        {
            self.advance();
        }
        proof {
            assert(digits_end(self.source@, old(self).start as int) == self.current as int);
        }
        // Look for a fractional part.
        if self.peek() == '.' && self.is_digit(self.peek_next()) {
            // Consume the `.`.
            self.advance();
            while self.is_digit(self.peek())
                invariant
                    self.wf(),
                    digits_end(self.source@, old(self).start as int) + 1 <= self.current as int,
                    self.current as int <= self.source@.len(),
                    digits_end(
                        self.source@,
                        digits_end(self.source@, old(self).start as int) + 1,
                    ) == digits_end(self.source@, self.current as int),
                    self.source == old(self).source,
                    self.tokens == old(self).tokens,
                    self.start == old(self).start,
                    self.line == old(self).line,
                    self.keywords == old(self).keywords,
                decreases self.source@.len() - self.current,
            {
                self.advance();
            }
        }
        self.add_token(TokenKind::Number);
    }

    /// Scans a string literal whose opening quote the cursor has just
    /// consumed: through the closing quote, counting the newlines inside the
    /// literal, or to a fatal `UnterminatedString` error when the source ends
    /// first. The emitted token is tagged with the opening quote's line, and
    /// so is the error.
    #[verifier::loop_isolation(false)]
    fn string(&mut self) -> (r: Result<(), ScanError>)
        requires
            old(self).wf(),
            old(self).current == old(self).start + 1,
            old(self).start < old(self).source@.len(),
            old(self).source@[old(self).start as int] == '"',
        ensures
            final(self).wf(),
            old(self).current <= final(self).current,
            final(self).source == old(self).source,
            final(self).start == old(self).start,
            final(self).keywords == old(self).keywords,
            ({
                let close = string_body_end(old(self).source@, old(self).start as int + 1);
                match r {
                    Ok(_) => {
                        &&& close < old(self).source@.len()
                        &&& final(self).current as int == close + 1
                        &&& final(self).line as int == old(self).line + newlines_in(
                            old(self).source@,
                            old(self).start as int + 1,
                            close,
                        )
                        &&& token_views(final(self).tokens@) == token_views(
                            old(self).tokens@,
                        ).push(
                            emitted(
                                TokenKind::Str,
                                old(self).source@,
                                old(self).start as int,
                                close + 1,
                                old(self).line as int,
                            ),
                        )
                        &&& final(self).tokens@.len() == old(self).tokens@.len() + 1
                        &&& final(self).tokens@.take(old(self).tokens@.len() as int) == old(
                            self,
                        ).tokens@
                    },
                    Err(e) => {
                        &&& close == old(self).source@.len()
                        &&& e@ == (ScanErrorModel {
                            kind: ScanErrorKind::UnterminatedString,
                            line: old(self).line as int,
                        })
                        &&& final(self).tokens@ == old(self).tokens@
                    },
                }
            }),
    {
        let line_start = self.line;
        while self.peek() != '"' && !self.is_at_end()
            invariant
                self.wf(),
                old(self).current <= self.current,
                self.current as int <= self.source@.len(),
                string_body_end(self.source@, old(self).start as int + 1) == string_body_end(
                    self.source@,
                    self.current as int,
                ),
                self.line as int == old(self).line + newlines_in(
                    self.source@,
                    old(self).start as int + 1,
                    self.current as int,
                ),
                self.source == old(self).source,
                self.tokens == old(self).tokens,
                self.start == old(self).start,
                self.keywords == old(self).keywords,
            decreases self.source@.len() - self.current,
        {
            proof {
                crate::model::lemma_newlines_in_snoc(
                    self.source@,
                    old(self).start as int + 1,
                    self.current as int,
                );
            }
            let c = self.advance();
            if c == '\n' {
                self.line = self.line + 1;
            }
        }
        if self.is_at_end() {
            return Err(ScanError { kind: ScanErrorKind::UnterminatedString, line: line_start });
        }
        // The closing quote.
        self.advance();
        let lexeme = self.lexeme_string(self.start, self.current);
        self.tokens.push(Token::new(TokenKind::Str, lexeme, line_start));
        proof {
            assert(token_views(self.tokens@) =~= token_views(old(self).tokens@).push(
                self.tokens@.last()@,
            ));
            assert(self.tokens@.take(old(self).tokens@.len() as int) =~= old(self).tokens@);
        }
        Ok(())
    }

    /// Reads one character and dispatches on it: whitespace and comments are
    /// skipped, newlines bump the line counter, everything else emits one
    /// token or fails. One call agrees with one unfolding of `scan`.
    #[verifier::loop_isolation(false)]
    fn scan_token(&mut self) -> (r: Result<(), ScanError>)
        requires
            old(self).wf(),
            old(self).start == old(self).current,
            old(self).current < old(self).source@.len(),
        ensures
            final(self).wf(),
            final(self).source == old(self).source,
            final(self).keywords == old(self).keywords,
            old(self).current < final(self).current,
            match r {
                Ok(_) => ({
                    &&& old(self).tokens@.len() <= final(self).tokens@.len()
                    &&& final(self).tokens@.take(old(self).tokens@.len() as int) == old(
                        self,
                    ).tokens@
                    &&& scan(old(self).source@, old(self).current as int, old(self).line as int)
                        == with_prefix(
                        token_views(final(self).tokens@.skip(old(self).tokens@.len() as int)),
                        scan(
                            final(self).source@,
                            final(self).current as int,
                            final(self).line as int,
                        ),
                    )
                }),
                Err(e) => ({
                    &&& final(self).tokens@ == old(self).tokens@
                    &&& scan(old(self).source@, old(self).current as int, old(self).line as int)
                        == Err::<Seq<TokenModel>, ScanErrorModel>(e@)
                }),
            },
    {
        let c = self.advance();
        match c {
            ' ' | '\r' | '\t' => {
                // Ignore whitespace.
                proof {
                    lemma_delta_empty(self.tokens@);
                    crate::model::lemma_with_prefix_empty(
                        scan(self.source@, self.current as int, self.line as int),
                    );
                }
                Ok(())
            },
            '\n' => {
                self.line = self.line + 1;
                proof {
                    lemma_delta_empty(self.tokens@);
                    crate::model::lemma_with_prefix_empty(
                        scan(self.source@, self.current as int, self.line as int),
                    );
                }
                Ok(())
            },
            '(' => {
                self.add_token(TokenKind::LeftParen);
                proof {
                    self.lemma_emitted_one(*old(self), TokenKind::LeftParen);
                }
                Ok(())
            },
            ')' => {
                self.add_token(TokenKind::RightParen);
                proof {
                    self.lemma_emitted_one(*old(self), TokenKind::RightParen);
                }
                Ok(())
            },
            '{' => {
                self.add_token(TokenKind::LeftBrace);
                proof {
                    self.lemma_emitted_one(*old(self), TokenKind::LeftBrace);
                }
                Ok(())
            },
            '}' => {
                self.add_token(TokenKind::RightBrace);
                proof {
                    self.lemma_emitted_one(*old(self), TokenKind::RightBrace);
                }
                Ok(())
            },
            ',' => {
                self.add_token(TokenKind::Comma);
                proof {
                    self.lemma_emitted_one(*old(self), TokenKind::Comma);
                }
                Ok(())
            },
            '.' => {
                self.add_token(TokenKind::Dot);
                proof {
                    self.lemma_emitted_one(*old(self), TokenKind::Dot);
                }
                Ok(())
            },
            '-' => {
                self.add_token(TokenKind::Minus);
                proof {
                    self.lemma_emitted_one(*old(self), TokenKind::Minus);
                }
                Ok(())
            },
            '+' => {
                self.add_token(TokenKind::Plus);
                proof {
                    self.lemma_emitted_one(*old(self), TokenKind::Plus);
                }
                Ok(())
            },
            ';' => {
                self.add_token(TokenKind::Semicolon);
                proof {
                    self.lemma_emitted_one(*old(self), TokenKind::Semicolon);
                }
                Ok(())
            },
            '*' => {
                self.add_token(TokenKind::Star);
                proof {
                    self.lemma_emitted_one(*old(self), TokenKind::Star);
                }
                Ok(())
            },
            '!' => {
                if self.match_next('=') {
                    self.add_token(TokenKind::BangEqual);
                } else {
                    self.add_token(TokenKind::Bang);
                }
                proof {
                    self.lemma_emitted_operator(*old(self));
                }
                Ok(())
            },
            '=' => {
                if self.match_next('=') {
                    self.add_token(TokenKind::EqualEqual);
                } else {
                    self.add_token(TokenKind::Equal);
                }
                proof {
                    self.lemma_emitted_operator(*old(self));
                }
                Ok(())
            },
            '<' => {
                if self.match_next('=') {
                    self.add_token(TokenKind::LessEqual);
                } else {
                    self.add_token(TokenKind::Less);
                }
                proof {
                    self.lemma_emitted_operator(*old(self));
                }
                Ok(())
            },
            '>' => {
                if self.match_next('=') {
                    self.add_token(TokenKind::GreaterEqual);
                } else {
                    self.add_token(TokenKind::Greater);
                }
                proof {
                    self.lemma_emitted_operator(*old(self));
                }
                Ok(())
            },
            '/' => {
                if self.match_next('/') {
                    // A comment goes until the end of the line and emits
                    // nothing.
                    while self.peek() != '\n' && !self.is_at_end()
                        invariant
                            self.wf(),
                            old(self).current as int + 2 <= self.current as int,
                            self.current as int <= self.source@.len(),
                            comment_end(self.source@, old(self).current as int + 2)
                                == comment_end(self.source@, self.current as int),
                            self.source == old(self).source,
                            self.tokens == old(self).tokens,
                            self.start == old(self).start,
                            self.line == old(self).line,
                            self.keywords == old(self).keywords,
                        decreases self.source@.len() - self.current,
                    {
                        self.advance();
                    }
                    proof {
                        lemma_delta_empty(self.tokens@);
                        crate::model::lemma_with_prefix_empty(
                            scan(self.source@, self.current as int, self.line as int),
                        );
                    }
                } else {
                    self.add_token(TokenKind::Slash);
                    proof {
                        self.lemma_emitted_one(*old(self), TokenKind::Slash);
                    }
                }
                Ok(())
            },
            '"' => {
                match self.string() {
                    Ok(_) => {
                        proof {
                            lemma_delta_single(
                                old(self).tokens@,
                                self.tokens@,
                                emitted(
                                    TokenKind::Str,
                                    old(self).source@,
                                    old(self).current as int,
                                    string_body_end(
                                        old(self).source@,
                                        old(self).current as int + 1,
                                    ) + 1,
                                    old(self).line as int,
                                ),
                            );
                        }
                        Ok(())
                    },
                    Err(e) => Err(e),
                }
            },
            _ => {
                if self.is_digit(c) {
                    self.number();
                    proof {
                        crate::model::lemma_number_end_bounds(
                            old(self).source@,
                            old(self).current as int,
                        );
                        lemma_delta_single(
                            old(self).tokens@,
                            self.tokens@,
                            emitted(
                                TokenKind::Number,
                                old(self).source@,
                                old(self).current as int,
                                number_end(old(self).source@, old(self).current as int),
                                old(self).line as int,
                            ),
                        );
                    }
                    Ok(())
                } else if self.is_alpha(c) {
                    self.identifier();
                    proof {
                        crate::model::lemma_ident_end_bounds(
                            old(self).source@,
                            old(self).current as int,
                        );
                        lemma_delta_single(
                            old(self).tokens@,
                            self.tokens@,
                            (TokenModel {
                                kind: identifier_kind(
                                    old(self).source@.subrange(
                                        old(self).current as int,
                                        ident_end(old(self).source@, old(self).current as int),
                                    ),
                                ),
                                lexeme: old(self).source@.subrange(
                                    old(self).current as int,
                                    ident_end(old(self).source@, old(self).current as int),
                                ),
                                line: old(self).line as int,
                            }),
                        );
                    }
                    Ok(())
                } else {
                    let line = self.line;
                    Err(ScanError { kind: ScanErrorKind::UnexpectedCharacter, line })
                }
            },
        }
    }

    /// Glue for a single-character token: the suffix just appended views as
    /// exactly that token.
    proof fn lemma_emitted_one(self, pre: Scanner, kind: TokenKind)
        requires
            self.tokens@.len() == pre.tokens@.len() + 1,
            token_views(self.tokens@) == token_views(pre.tokens@).push(
                emitted(kind, pre.source@, pre.current as int, pre.current as int + 1, pre.line as int),
            ),
        ensures
            token_views(self.tokens@.skip(pre.tokens@.len() as int)) == seq![
                emitted(kind, pre.source@, pre.current as int, pre.current as int + 1, pre.line as int),
            ],
    {
        lemma_delta_single(
            pre.tokens@,
            self.tokens@,
            emitted(kind, pre.source@, pre.current as int, pre.current as int + 1, pre.line as int),
        );
    }

    /// Glue for a one-or-two-character operator token, whichever of the two
    /// was emitted.
    proof fn lemma_emitted_operator(self, pre: Scanner)
        requires
            self.tokens@.len() == pre.tokens@.len() + 1,
            token_views(self.tokens@) == token_views(pre.tokens@).push(
                token_views(self.tokens@).last(),
            ),
        ensures
            token_views(self.tokens@.skip(pre.tokens@.len() as int)) == seq![
                token_views(self.tokens@).last(),
            ],
    {
        lemma_delta_single(pre.tokens@, self.tokens@, token_views(self.tokens@).last());
    }

    /// Drives the scan to completion and returns the frozen, Eof-terminated
    /// token sequence, or the first lexical error. Scanning consumes the
    /// scanner: a fresh source requires a fresh `Scanner`.
    #[verifier::loop_isolation(false)]
    pub fn scan_tokens(self) -> (r: Result<Vec<Token>, ScanError>)
        requires
            self.wf(),
        ensures
            match r {
                Ok(toks) => with_prefix(
                    self.emitted_tokens(),
                    scan(self.src(), self.pos(), self.line_no()),
                ) == Ok::<Seq<TokenModel>, ScanErrorModel>(token_views(toks@)),
                Err(e) => scan(self.src(), self.pos(), self.line_no()) == Err::<Seq<TokenModel>, ScanErrorModel>(e@),
            },
    {
        let ghost orig = self;
        let mut this = self;
        while !this.is_at_end()
            invariant
                this.wf(),
                this.source@ == orig.source@,
                with_prefix(
                    token_views(this.tokens@),
                    scan(this.source@, this.current as int, this.line as int),
                ) == with_prefix(
                    token_views(orig.tokens@),
                    scan(orig.source@, orig.current as int, orig.line as int),
                ),
            decreases this.source@.len() - this.current,
        {
            let ghost before = this;
            this.start = this.current;
            match this.scan_token() {
                Ok(_) => {
                    proof {
                        let n0 = before.tokens@.len() as int;
                        let delta = this.tokens@.skip(n0);
                        assert(this.tokens@ =~= this.tokens@.take(n0) + delta);
                        lemma_token_views_add(before.tokens@, delta);
                        crate::model::lemma_with_prefix_assoc(
                            token_views(before.tokens@),
                            token_views(delta),
                            scan(this.source@, this.current as int, this.line as int),
                        );
                    }
                },
                Err(e) => {
                    proof {
                        if scan(orig.source@, orig.current as int, orig.line as int) is Ok {
                            assert(false);
                        }
                    }
                    return Err(e);
                },
            }
        }
        let ghost done = this;
        let line = this.line;
        this.tokens.push(Token::new(TokenKind::Eof, String::new(), line));
        proof {
            assert(scan(done.source@, done.current as int, done.line as int)
                == Ok::<Seq<TokenModel>, ScanErrorModel>(seq![eof_token(done.line as int)]));
            assert(token_views(this.tokens@) =~= token_views(done.tokens@) + seq![
                eof_token(done.line as int),
            ]);
        }
        Ok(this.tokens)
    }
}

/// Relies on `String::push`, which appends the given character to the end of
/// the string.
#[verifier::external_body]
fn string_push(s: &mut String, c: char)
    ensures
        final(s)@ == old(s)@.push(c),
{
    s.push(c);
}

/// Token views of a concatenation are the concatenated token views.
proof fn lemma_token_views_add(a: Seq<Token>, b: Seq<Token>)
    ensures
        token_views(a + b) == token_views(a) + token_views(b),
{
    assert(token_views(a + b) =~= token_views(a) + token_views(b));
}

/// When one token was appended, the freshly appended suffix views as exactly
/// that token's model.
proof fn lemma_delta_single(pre: Seq<Token>, post: Seq<Token>, m: TokenModel)
    requires
        post.len() == pre.len() + 1,
        token_views(post) == token_views(pre).push(m),
    ensures
        token_views(post.skip(pre.len() as int)) == seq![m],
{
    assert(token_views(post)[pre.len() as int] == m);
    assert(token_views(post.skip(pre.len() as int)) =~= seq![m]);
}

/// When no token was appended, the freshly appended suffix views as nothing.
proof fn lemma_delta_empty(toks: Seq<Token>)
    ensures
        token_views(toks.skip(toks.len() as int)) == Seq::<TokenModel>::empty(),
{
    assert(token_views(toks.skip(toks.len() as int)) =~= Seq::<TokenModel>::empty());
}

} // verus!
