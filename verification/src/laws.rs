//! Laws of the scan, proved of the model in `crate::model` and carried to
//! the executable scanner through `Scanner::scan_tokens`'s contract.

use vstd::prelude::*;
use crate::model::{
    eof_token, identifier_kind, is_alpha, is_digit, is_operator_start, lemma_comment_end_bounds,
    lemma_ident_end_bounds, lemma_newlines_in_bounds, lemma_number_end_bounds,
    lemma_string_body_end_bounds, newlines_in, punct_kind, scan, string_body_end, with_prefix,
};
use crate::token::{TokenKind, TokenModel};

verus! {

/// The tokens' lexemes are contiguous slices of `src`, standing in input
/// order from position `from` to the end of the source: between one lexeme
/// and the next lies exactly the skipped text, so concatenating the skipped
/// stretches and the lexemes in order rebuilds `src` from `from` on.
pub open spec fn tokens_tile(src: Seq<char>, toks: Seq<TokenModel>, from: int) -> bool
    decreases toks.len(),
{
    if toks.len() == 0 {
        from == src.len()
    } else {
        exists|at: int, end: int|
            {
                &&& from <= at <= end <= src.len()
                &&& toks[0].lexeme == #[trigger] src.subrange(at, end)
                &&& tokens_tile(src, toks.drop_first(), end)
            }
    }
}

/// Tiling from a later position also tiles from an earlier one: the skipped
/// stretch in front only grows.
proof fn lemma_tile_weaken(src: Seq<char>, toks: Seq<TokenModel>, from1: int, from0: int)
    requires
        from0 <= from1,
        toks.len() >= 1,
        tokens_tile(src, toks, from1),
    ensures
        tokens_tile(src, toks, from0),
{
    let (at, end) = choose|at: int, end: int|
        {
            &&& from1 <= at <= end <= src.len()
            &&& toks[0].lexeme == #[trigger] src.subrange(at, end)
            &&& tokens_tile(src, toks.drop_first(), end)
        };
    assert(from0 <= at <= end <= src.len() && toks[0].lexeme == src.subrange(at, end)
        && tokens_tile(src, toks.drop_first(), end));
}

/// Prepending a token whose lexeme is the slice `[at, end)` keeps the tiling.
proof fn lemma_tile_cons(
    src: Seq<char>,
    t: TokenModel,
    ts: Seq<TokenModel>,
    from: int,
    at: int,
    end: int,
)
    requires
        from <= at <= end <= src.len(),
        t.lexeme == src.subrange(at, end),
        tokens_tile(src, ts, end),
    ensures
        tokens_tile(src, seq![t] + ts, from),
{
    let toks = seq![t] + ts;
    assert(toks.drop_first() =~= ts);
    assert(toks[0].lexeme == src.subrange(at, end));
    assert(tokens_tile(src, toks, from));
}

/// The conjunction proved of every completed scan, stated over the `Ok`
/// token sequence: it ends in exactly one `Eof` with an empty lexeme, every
/// other lexeme is a non-empty slice, the slices tile the source in order,
/// and the line tags never decrease nor fall below the starting line.
pub open spec fn scan_props(src: Seq<char>, pos: int, line: int) -> bool {
    match scan(src, pos, line) {
        Ok(toks) => {
            &&& toks.len() >= 1
            &&& toks.last().kind == TokenKind::Eof
            &&& toks.last().lexeme == Seq::<char>::empty()
            &&& forall|i: int|
                0 <= i < toks.len() - 1 ==> (#[trigger] toks[i]).kind != TokenKind::Eof
            &&& forall|i: int| 0 <= i < toks.len() - 1 ==> (#[trigger] toks[i]).lexeme.len() > 0
            &&& tokens_tile(src, toks, pos)
            &&& forall|i: int| 0 <= i < toks.len() ==> line <= (#[trigger] toks[i]).line
            &&& forall|i: int, j: int|
                0 <= i <= j < toks.len() ==> (#[trigger] toks[i]).line <= (#[trigger] toks[j]).line
        },
        Err(_) => true,
    }
}

/// One dispatch step that emits the token `t` and scans on from `p2` at line
/// `l2` preserves all the properties.
proof fn lemma_step_cons(src: Seq<char>, t: TokenModel, pos: int, line: int, p2: int, l2: int)
    requires
        0 <= pos <= src.len(),
        0 <= p2 <= src.len(),
        scan(src, pos, line) == with_prefix(seq![t], scan(src, p2, l2)),
        t.lexeme == src.subrange(pos, p2),
        pos < p2,
        t.kind != TokenKind::Eof,
        t.line == line,
        line <= l2,
    ensures
        scan_props(src, pos, line),
    decreases src.len() - pos, 0int,
{
    lemma_scan_props(src, p2, l2);
    match scan(src, p2, l2) {
        Ok(ts) => {
            let toks = seq![t] + ts;
            assert(scan(src, pos, line) == Ok::<Seq<TokenModel>, crate::error::ScanErrorModel>(
                toks,
            ));
            assert(toks.drop_first() =~= ts);
            assert(toks.last() == ts.last());
            lemma_tile_cons(src, t, ts, pos, pos, p2);
            assert forall|i: int|
                0 <= i < toks.len() - 1 implies (#[trigger] toks[i]).kind != TokenKind::Eof by {
                if i > 0 {
                    assert(toks[i] == ts[i - 1]);
                }
            }
            assert forall|i: int|
                0 <= i < toks.len() - 1 implies (#[trigger] toks[i]).lexeme.len() > 0 by {
                if i > 0 {
                    assert(toks[i] == ts[i - 1]);
                }
            }
            assert forall|i: int| 0 <= i < toks.len() implies line <= (#[trigger] toks[i]).line by {
                if i > 0 {
                    assert(toks[i] == ts[i - 1]);
                    assert(l2 <= ts[i - 1].line);
                }
            }
            assert forall|i: int, j: int|
                0 <= i <= j < toks.len() implies (#[trigger] toks[i]).line <= (
                #[trigger] toks[j]).line by {
                if i == 0 && j > 0 {
                    assert(toks[j] == ts[j - 1]);
                    assert(l2 <= ts[j - 1].line);
                } else if i > 0 {
                    assert(toks[i] == ts[i - 1] && toks[j] == ts[j - 1]);
                }
            }
        },
        Err(_) => {},
    }
}

/// Every completed scan satisfies `scan_props`, whatever position and line
/// it starts from. Proved by induction over the dispatch steps of `scan`.
pub proof fn lemma_scan_props(src: Seq<char>, pos: int, line: int)
    requires
        0 <= pos <= src.len(),
    ensures
        scan_props(src, pos, line),
    decreases src.len() - pos, 1int,
{
    if pos == src.len() {
        let toks = seq![eof_token(line)];
        assert(toks.drop_first() =~= Seq::<TokenModel>::empty());
        assert(Seq::<char>::empty() =~= src.subrange(src.len() as int, src.len() as int));
        assert(tokens_tile(src, toks.drop_first(), src.len() as int));
        assert(tokens_tile(src, toks, pos));
    } else {
        let c = src[pos];
        if c == ' ' || c == '\r' || c == '\t' {
            lemma_scan_props(src, pos + 1, line);
            lemma_skip_step(src, pos, line, pos + 1, line);
        } else if c == '\n' {
            lemma_scan_props(src, pos + 1, line + 1);
            lemma_skip_step(src, pos, line, pos + 1, line + 1);
        } else if is_operator_start(c) {
            if pos + 1 < src.len() && src[pos + 1] == '=' {
                lemma_step_cons(
                    src,
                    crate::model::emitted(
                        crate::model::two_char_operator_kind(c),
                        src,
                        pos,
                        pos + 2,
                        line,
                    ),
                    pos,
                    line,
                    pos + 2,
                    line,
                );
            } else {
                lemma_step_cons(
                    src,
                    crate::model::emitted(
                        crate::model::one_char_operator_kind(c),
                        src,
                        pos,
                        pos + 1,
                        line,
                    ),
                    pos,
                    line,
                    pos + 1,
                    line,
                );
            }
        } else if c == '/' {
            if pos + 1 < src.len() && src[pos + 1] == '/' {
                lemma_comment_end_bounds(src, pos + 2);
                let p2 = crate::model::comment_end(src, pos + 2);
                lemma_scan_props(src, p2, line);
                lemma_skip_step(src, pos, line, p2, line);
            } else {
                lemma_step_cons(
                    src,
                    crate::model::emitted(TokenKind::Slash, src, pos, pos + 1, line),
                    pos,
                    line,
                    pos + 1,
                    line,
                );
            }
        } else if c == '"' {
            let close = string_body_end(src, pos + 1);
            lemma_string_body_end_bounds(src, pos + 1);
            if close < src.len() {
                lemma_newlines_in_bounds(src, pos + 1, close);
                lemma_step_cons(
                    src,
                    crate::model::emitted(TokenKind::Str, src, pos, close + 1, line),
                    pos,
                    line,
                    close + 1,
                    line + newlines_in(src, pos + 1, close),
                );
            }
        } else if is_digit(c) {
            lemma_number_end_bounds(src, pos);
            lemma_step_cons(
                src,
                crate::model::emitted(
                    TokenKind::Number,
                    src,
                    pos,
                    crate::model::number_end(src, pos),
                    line,
                ),
                pos,
                line,
                crate::model::number_end(src, pos),
                line,
            );
        } else if is_alpha(c) {
            lemma_ident_end_bounds(src, pos);
            let end = crate::model::ident_end(src, pos);
            let lex = src.subrange(pos, end);
            assert(identifier_kind(lex) != TokenKind::Eof);
            lemma_step_cons(
                src,
                (TokenModel { kind: identifier_kind(lex), lexeme: lex, line }),
                pos,
                line,
                end,
                line,
            );
        } else {
            match punct_kind(c) {
                Some(k) => {
                    lemma_step_cons(
                        src,
                        crate::model::emitted(k, src, pos, pos + 1, line),
                        pos,
                        line,
                        pos + 1,
                        line,
                    );
                },
                None => {},
            }
        }
    }
}

/// A step that skips text (whitespace, a newline, a comment) preserves all
/// the properties: the token sequence is unchanged and the tiling only gains
/// skipped text in front.
proof fn lemma_skip_step(src: Seq<char>, pos: int, line: int, p2: int, l2: int)
    requires
        0 <= pos <= p2 <= src.len(),
        line <= l2,
        scan(src, pos, line) == scan(src, p2, l2),
        scan_props(src, p2, l2),
    ensures
        scan_props(src, pos, line),
{
    match scan(src, p2, l2) {
        Ok(toks) => {
            lemma_tile_weaken(src, toks, p2, pos);
        },
        Err(_) => {},
    }
}

/// Termination: every completed scan ends in an `Eof` token with an empty
/// lexeme, and that is the only `Eof` in the sequence.
pub proof fn lemma_scan_ends_in_eof(src: Seq<char>, pos: int, line: int)
    requires
        0 <= pos <= src.len(),
    ensures
        (match scan(src, pos, line) {
            Ok(toks) => {
                &&& toks.len() >= 1
                &&& toks.last().kind == TokenKind::Eof
                &&& toks.last().lexeme == Seq::<char>::empty()
                &&& forall|i: int|
                    0 <= i < toks.len() - 1 ==> (#[trigger] toks[i]).kind != TokenKind::Eof
            },
            Err(_) => true,
        }),
{
    lemma_scan_props(src, pos, line);
}

/// Reconstruction: every non-`Eof` token's lexeme is a non-empty contiguous
/// slice of the source, the slices stand in input order, and together with
/// the skipped whitespace and comments between them they tile the source
/// from the scan's starting position to its end.
pub proof fn lemma_scan_reconstructs(src: Seq<char>, pos: int, line: int)
    requires
        0 <= pos <= src.len(),
    ensures
        (match scan(src, pos, line) {
            Ok(toks) => {
                &&& tokens_tile(src, toks, pos)
                &&& forall|i: int|
                    0 <= i < toks.len() - 1 ==> (#[trigger] toks[i]).lexeme.len() > 0
            },
            Err(_) => true,
        }),
{
    lemma_scan_props(src, pos, line);
}

/// Line tracking: across the token sequence the line tags never decrease,
/// and none falls below the line the scan started on.
pub proof fn lemma_scan_lines_monotone(src: Seq<char>, pos: int, line: int)
    requires
        0 <= pos <= src.len(),
    ensures
        (match scan(src, pos, line) {
            Ok(toks) => {
                &&& forall|i: int| 0 <= i < toks.len() ==> line <= (#[trigger] toks[i]).line
                &&& forall|i: int, j: int|
                    0 <= i <= j < toks.len() ==> (#[trigger] toks[i]).line <= (
                    #[trigger] toks[j]).line
            },
            Err(_) => true,
        }),
{
    lemma_scan_props(src, pos, line);
}

} // verus!
