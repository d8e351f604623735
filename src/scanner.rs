use crate::float::{decimal_to_double, parse_double};
use crate::lexicon::{
    decimal_value, is_alpha, is_blank, is_digit, is_word_char, keyword, keyword_token, pair_kinds,
    pair_token, single_char_kind, single_char_token,
};
use crate::source::{lemma_source_bounds, Source};
use crate::token::{
    literal_option_model, Literal, LiteralModel, NumberLiteral, Token, TokenModel, TokenType,
};
use vstd::prelude::*;

verus! {

broadcast use lemma_source_bounds;

/// The kinds of lexical error.
#[derive(Debug, Clone, Copy, PartialEq, Eq, Structural)]
pub enum ScannerErrorType {
    UnknownToken,
    UnterminatedString,
    InvalidNumber,
}

/// A lexical error, with the line and column it was found at.
#[derive(Debug, Clone, Copy, PartialEq, Eq)]
pub struct ScannerError {
    pub error_type: ScannerErrorType,
    pub message: &'static str,
    pub line: u64,
    pub position: u64,
}

/// What a lexical error is: its kind and place.
pub struct ScanFault {
    pub error_type: ScannerErrorType,
    pub line: u64,
    pub position: u64,
}

pub open spec fn scanner_message(t: ScannerErrorType) -> Seq<char> {
    match t {
        ScannerErrorType::UnknownToken => "Unknown token"@,
        ScannerErrorType::UnterminatedString => "Unterminated string"@,
        ScannerErrorType::InvalidNumber => "Invalid number"@,
    }
}

impl ScannerError {
    pub open spec fn fault(&self) -> ScanFault {
        ScanFault { error_type: self.error_type, line: self.line, position: self.position }
    }

    pub fn new(error_type: ScannerErrorType, line: u64, position: u64) -> (r: ScannerError)
        ensures
            r.error_type == error_type,
            r.message@ == scanner_message(error_type),
            r.line == line,
            r.position == position,
    {
        match error_type {
            ScannerErrorType::UnknownToken => ScannerError {
                error_type,
                message: "Unknown token",
                line,
                position,
            },
            ScannerErrorType::UnterminatedString => ScannerError {
                error_type,
                message: "Unterminated string",
                line,
                position,
            },
            ScannerErrorType::InvalidNumber => ScannerError {
                error_type,
                message: "Invalid number",
                line,
                position,
            },
        }
    }
}

// ---------------------------------------------------------------------------
// The lexical grammar, as functions over the characters of the text.
// Line and column are tracked as the line number and the count of characters
// consumed on that line; a token's column is the count before it plus one.

/// The line and column reached after consuming `seg`.
pub open spec fn walk(seg: Seq<char>, line: int, col: int) -> (int, int)
    decreases seg.len(),
{
    if seg.len() == 0 {
        (line, col)
    } else {
        let (l, c) = walk(seg.drop_last(), line, col);
        if seg.last() == '\n' {
            (l + 1, 0)
        } else {
            (l, c + 1)
        }
    }
}

/// The end of the run of digits starting at `i`.
pub open spec fn digits_end(cs: Seq<char>, i: int) -> int
    decreases cs.len() - i,
{
    if 0 <= i < cs.len() && is_digit(cs[i]) {
        digits_end(cs, i + 1)
    } else {
        i
    }
}

/// The end of the run of word characters starting at `i`.
pub open spec fn word_end(cs: Seq<char>, i: int) -> int
    decreases cs.len() - i,
{
    if 0 <= i < cs.len() && is_word_char(cs[i]) {
        word_end(cs, i + 1)
    } else {
        i
    }
}

/// The first `"` at or after `i`, or the end of the text.
pub open spec fn quote_at(cs: Seq<char>, i: int) -> int
    decreases cs.len() - i,
{
    if 0 <= i < cs.len() && cs[i] != '"' {
        quote_at(cs, i + 1)
    } else {
        i
    }
}

/// The first newline at or after `i`, or the end of the text.
pub open spec fn newline_at(cs: Seq<char>, i: int) -> int
    decreases cs.len() - i,
{
    if 0 <= i < cs.len() && cs[i] != '\n' {
        newline_at(cs, i + 1)
    } else {
        i
    }
}

/// One step of scanning at index `i`.
pub enum Lexed {
    /// The end of the text.
    End,
    /// Characters up to the index are skipped.
    Skip(int),
    /// A token, made of the characters up to the index.
    Emit(TokenModel, int),
    /// A lexical error.
    Fail(ScanFault),
}

pub open spec fn token_at(
    kind: TokenType,
    cs: Seq<char>,
    i: int,
    n: int,
    line: int,
    col: int,
    literal: Option<LiteralModel>,
) -> TokenModel {
    TokenModel {
        token_type: kind,
        lexeme: cs.subrange(i, n),
        line: line as u64,
        position: (col + 1) as u64,
        literal,
    }
}

pub open spec fn fault(kind: ScannerErrorType, line: int, position: int) -> ScanFault {
    ScanFault { error_type: kind, line: line as u64, position: position as u64 }
}

pub open spec fn lex_string(cs: Seq<char>, i: int, line: int, col: int) -> Lexed {
    let q = quote_at(cs, i + 1);
    if q >= cs.len() {
        Lexed::Fail(fault(ScannerErrorType::UnterminatedString, line, col + 1))
    } else {
        Lexed::Emit(
            token_at(
                TokenType::String,
                cs,
                i,
                q + 1,
                line,
                col,
                Some(LiteralModel::Str(cs.subrange(i + 1, q))),
            ),
            q + 1,
        )
    }
}

pub open spec fn lex_number(cs: Seq<char>, i: int, line: int, col: int) -> Lexed {
    let d = digits_end(cs, i);
    if d < cs.len() && cs[d] == '.' {
        if d + 1 < cs.len() && is_digit(cs[d + 1]) {
            let e = digits_end(cs, d + 1);
            match decimal_to_double(cs.subrange(i, e)) {
                Some(bits) => Lexed::Emit(
                    token_at(
                        TokenType::Float,
                        cs,
                        i,
                        e,
                        line,
                        col,
                        Some(LiteralModel::Number(NumberLiteral::Float(bits))),
                    ),
                    e,
                ),
                None => Lexed::Fail(fault(ScannerErrorType::InvalidNumber, line, col + 1)),
            }
        } else {
            Lexed::Fail(fault(ScannerErrorType::InvalidNumber, line, col + (d - i) + 1))
        }
    } else {
        let v = decimal_value(cs.subrange(i, d));
        if v <= i32::MAX {
            Lexed::Emit(
                token_at(
                    TokenType::Integer,
                    cs,
                    i,
                    d,
                    line,
                    col,
                    Some(LiteralModel::Number(NumberLiteral::Integer(v as i32))),
                ),
                d,
            )
        } else {
            Lexed::Fail(fault(ScannerErrorType::InvalidNumber, line, col + 1))
        }
    }
}

pub open spec fn word_literal(kind: TokenType, lexeme: Seq<char>) -> Option<LiteralModel> {
    if kind == TokenType::True {
        Some(LiteralModel::Boolean(true))
    } else if kind == TokenType::False {
        Some(LiteralModel::Boolean(false))
    } else if kind == TokenType::Identifier {
        Some(LiteralModel::Str(lexeme))
    } else {
        None
    }
}

pub open spec fn lex_word(cs: Seq<char>, i: int, line: int, col: int) -> Lexed {
    let e = word_end(cs, i);
    let lexeme = cs.subrange(i, e);
    let kind = match keyword(lexeme) {
        Some(k) => k,
        None => TokenType::Identifier,
    };
    Lexed::Emit(token_at(kind, cs, i, e, line, col, word_literal(kind, lexeme)), e)
}

/// A token of one character, or of two where the next character is `second`.
pub open spec fn lex_pair(
    cs: Seq<char>,
    i: int,
    line: int,
    col: int,
    second: char,
    pair: TokenType,
    single: TokenType,
) -> Lexed {
    if i + 1 < cs.len() && cs[i + 1] == second {
        Lexed::Emit(token_at(pair, cs, i, i + 2, line, col, None), i + 2)
    } else {
        Lexed::Emit(token_at(single, cs, i, i + 1, line, col, None), i + 1)
    }
}

/// `>` and `<`: followed by `=`, by themselves, or alone.
pub open spec fn lex_angle(
    cs: Seq<char>,
    i: int,
    line: int,
    col: int,
    with_equal: TokenType,
    doubled: TokenType,
    single: TokenType,
) -> Lexed {
    if i + 1 < cs.len() && cs[i + 1] == '=' {
        Lexed::Emit(token_at(with_equal, cs, i, i + 2, line, col, None), i + 2)
    } else {
        lex_pair(cs, i, line, col, cs[i], doubled, single)
    }
}

pub open spec fn lex_at(cs: Seq<char>, i: int, line: int, col: int) -> Lexed {
    if i >= cs.len() {
        Lexed::End
    } else {
        let c = cs[i];
        if is_blank(c) {
            Lexed::Skip(i + 1)
        } else if single_char_kind(c) is Some {
            Lexed::Emit(token_at(single_char_kind(c)->0, cs, i, i + 1, line, col, None), i + 1)
        } else if c == '/' {
            if i + 1 < cs.len() && cs[i + 1] == '/' {
                Lexed::Skip(newline_at(cs, i + 2))
            } else {
                Lexed::Emit(token_at(TokenType::Slash, cs, i, i + 1, line, col, None), i + 1)
            }
        } else if c == '>' {
            lex_angle(cs, i, line, col, TokenType::GreaterEqual, TokenType::RightShift, TokenType::Greater)
        } else if c == '<' {
            lex_angle(cs, i, line, col, TokenType::LessEqual, TokenType::LeftShift, TokenType::Less)
        } else if pair_kinds(c) is Some {
            let (second, pair, single) = pair_kinds(c)->0;
            lex_pair(cs, i, line, col, second, pair, single)
        } else if c == '"' {
            lex_string(cs, i, line, col)
        } else if is_digit(c) {
            lex_number(cs, i, line, col)
        } else if is_alpha(c) {
            lex_word(cs, i, line, col)
        } else {
            Lexed::Fail(fault(ScannerErrorType::UnknownToken, line, col + 1))
        }
    }
}

pub open spec fn eof_token(line: int, col: int) -> TokenModel {
    TokenModel {
        token_type: TokenType::Eof,
        lexeme: Seq::empty(),
        line: line as u64,
        position: (col + 1) as u64,
        literal: None,
    }
}

/// The tokens of `cs` from index `i` on, ending with the end-of-input token,
/// or the first lexical error.
pub open spec fn scan_from(cs: Seq<char>, i: int, line: int, col: int) -> Result<
    Seq<TokenModel>,
    ScanFault,
>
    decreases cs.len() - i,
{
    if 0 <= i <= cs.len() {
        proof {
            lemma_lex_progress(cs, i, line, col);
        }
        match lex_at(cs, i, line, col) {
            Lexed::End => Ok(seq![eof_token(line, col)]),
            Lexed::Skip(n) => {
                let (l, c) = walk(cs.subrange(i, n), line, col);
                scan_from(cs, n, l, c)
            },
            Lexed::Emit(t, n) => {
                let (l, c) = walk(cs.subrange(i, n), line, col);
                match scan_from(cs, n, l, c) {
                    Ok(rest) => Ok(seq![t] + rest),
                    Err(e) => Err(e),
                }
            },
            Lexed::Fail(f) => Err(f),
        }
    } else {
        Ok(Seq::empty())
    }
}

/// The tokens of a whole text, or its first lexical error.
pub open spec fn scan_text(cs: Seq<char>) -> Result<Seq<TokenModel>, ScanFault> {
    scan_from(cs, 0, 1, 0)
}

pub open spec fn tokens_model(ts: Seq<Token>) -> Seq<TokenModel> {
    ts.map_values(|t: Token| t@)
}

pub proof fn lemma_digits_end(cs: Seq<char>, i: int)
    requires
        0 <= i <= cs.len(),
    ensures
        i <= digits_end(cs, i) <= cs.len(),
    decreases cs.len() - i,
{
    if i < cs.len() && is_digit(cs[i]) {
        lemma_digits_end(cs, i + 1);
    }
}

pub proof fn lemma_word_end(cs: Seq<char>, i: int)
    requires
        0 <= i <= cs.len(),
    ensures
        i <= word_end(cs, i) <= cs.len(),
    decreases cs.len() - i,
{
    if i < cs.len() && is_word_char(cs[i]) {
        lemma_word_end(cs, i + 1);
    }
}

pub proof fn lemma_quote_at(cs: Seq<char>, i: int)
    requires
        0 <= i <= cs.len(),
    ensures
        i <= quote_at(cs, i) <= cs.len(),
        quote_at(cs, i) < cs.len() ==> cs[quote_at(cs, i)] == '"',
    decreases cs.len() - i,
{
    if i < cs.len() && cs[i] != '"' {
        lemma_quote_at(cs, i + 1);
    }
}

pub proof fn lemma_newline_at(cs: Seq<char>, i: int)
    requires
        0 <= i <= cs.len(),
    ensures
        i <= newline_at(cs, i) <= cs.len(),
    decreases cs.len() - i,
{
    if i < cs.len() && cs[i] != '\n' {
        lemma_newline_at(cs, i + 1);
    }
}

/// Every step that does not end or fail moves forward, within the text.
pub proof fn lemma_lex_progress(cs: Seq<char>, i: int, line: int, col: int)
    requires
        0 <= i <= cs.len(),
    ensures
        match lex_at(cs, i, line, col) {
            Lexed::Skip(n) => i < n <= cs.len(),
            Lexed::Emit(_, n) => i < n <= cs.len(),
            _ => true,
        },
{
    if i < cs.len() {
        if cs[i] == '/' && i + 1 < cs.len() {
            lemma_newline_at(cs, i + 2);
        }
        if cs[i] == '"' {
            lemma_quote_at(cs, i + 1);
        }
        if is_digit(cs[i]) {
            lemma_digits_end(cs, i + 1);
            let d = digits_end(cs, i);
            if d + 1 < cs.len() {
                lemma_digits_end(cs, d + 1);
            }
        }
        if is_alpha(cs[i]) {
            lemma_word_end(cs, i + 1);
        }
    }
}

/// Consuming characters moves the line and column forward by at most the
/// number of characters consumed.
pub proof fn lemma_walk_bound(seg: Seq<char>, line: int, col: int)
    requires
        line >= 1,
        col >= 0,
    ensures
        line <= walk(seg, line, col).0 <= line + seg.len(),
        0 <= walk(seg, line, col).1 <= col + seg.len(),
    decreases seg.len(),
{
    if seg.len() > 0 {
        lemma_walk_bound(seg.drop_last(), line, col);
    }
}

} // verus!

verus! {

pub proof fn lemma_walk_push(seg: Seq<char>, c: char, line: int, col: int)
    ensures
        walk(seg.push(c), line, col) == (if c == '\n' {
            (walk(seg, line, col).0 + 1, 0)
        } else {
            (walk(seg, line, col).0, walk(seg, line, col).1 + 1)
        }),
{
    assert(seg.push(c).drop_last() =~= seg);
}

/// Decimal digits never lose value as more are appended.
pub proof fn lemma_decimal_grows(s: Seq<char>, k: int)
    requires
        0 <= k <= s.len(),
        forall|j: int| 0 <= j < s.len() ==> is_digit(#[trigger] s[j]),
    ensures
        0 <= decimal_value(s.take(k)) <= decimal_value(s),
    decreases s.len(),
{
    if s.len() > 0 {
        let dl = s.drop_last();
        if k == s.len() {
            lemma_decimal_grows(dl, 0);
            assert(s.take(k) =~= s);
            assert(dl.take(0) =~= Seq::<char>::empty());
        } else {
            lemma_decimal_grows(dl, k);
            assert(s.take(k) =~= dl.take(k));
            assert(dl.take(dl.len() as int) =~= dl);
            lemma_decimal_grows(dl, dl.len() as int);
        }
    }
}

/// The value of a run of decimal digits, where it fits in an `i32`.
pub fn parse_integer(text: &str) -> (r: Option<i32>)
    requires
        forall|j: int| 0 <= j < text@.len() ==> is_digit(#[trigger] text@[j]),
    ensures
        r == (if decimal_value(text@) <= i32::MAX {
            Some(decimal_value(text@) as i32)
        } else {
            None
        }),
{
    let n = text.unicode_len();
    let mut value: i32 = 0;
    let mut i: usize = 0;
    proof {
        assert(text@.take(0) =~= Seq::<char>::empty());
    }
    while i < n
        invariant
            n == text@.len(),
            i <= n,
            forall|j: int| 0 <= j < text@.len() ==> is_digit(#[trigger] text@[j]),
            value as int == decimal_value(text@.take(i as int)),
            0 <= value,
        decreases n - i,
    {
        let c = text.get_char(i);
        let d: i64 = (c as u32 - '0' as u32) as i64;
        let next: i64 = value as i64 * 10 + d;
        proof {
            assert(text@.take(i + 1).drop_last() =~= text@.take(i as int));
        }
        if next > i32::MAX as i64 {
            proof {
                lemma_decimal_grows(text@, i + 1);
                assert(text@.take(text@.len() as int) =~= text@);
            }
            return None;
        }
        value = next as i32;
        i = i + 1;
    }
    proof {
        assert(text@.take(n as int) =~= text@);
    }
    Some(value)
}

/// Where a successful step leaves the cursor, the line and column, and the
/// token list.
pub open spec fn advanced_by(
    step: Lexed,
    cs: Seq<char>,
    start: int,
    line0: int,
    col0: int,
    src: Source,
    line: u64,
    position: u64,
    before: Seq<TokenModel>,
    after: Seq<TokenModel>,
) -> bool {
    &&& src.wf()
    &&& src.text() == cs
    &&& src.checkpoint() == src.offset()
    &&& match step {
        Lexed::End => src.offset() == start && line == line0 && position == col0 && after
            == before,
        Lexed::Skip(n) => src.offset() == n && (line as int, position as int) == walk(
            cs.subrange(start, n),
            line0,
            col0,
        ) && after == before,
        Lexed::Emit(t, n) => src.offset() == n && (line as int, position as int) == walk(
            cs.subrange(start, n),
            line0,
            col0,
        ) && after == before.push(t),
        Lexed::Fail(_) => false,
    }
}

pub open spec fn failed_with(step: Lexed, e: ScannerError) -> bool {
    &&& step is Fail
    &&& e.fault() == step->Fail_0
    &&& e.message@ == scanner_message(e.error_type)
}

/// The cursor's state between tokens: the checkpoint at the offset, and the
/// line and column within what has been consumed.
pub open spec fn at_token_start(src: Source, line: u64, position: u64) -> bool {
    &&& src.wf()
    &&& src.text().len() < u64::MAX
    &&& src.checkpoint() == src.offset()
    &&& 1 <= line <= src.offset() + 1
    &&& position <= src.offset()
}

/// Reads a source text into tokens.
pub struct Scanner<'a> {
    pub source: Source<'a>,
}

impl<'a> Scanner<'a> {
    /// The tokens of the whole text, ending with an end-of-input token; or the
    /// first lexical error.
    pub fn scan(&mut self) -> (r: Result<Vec<Token>, ScannerError>)
        requires
            old(self).source.wf(),
            old(self).source.text().len() < u64::MAX,
            old(self).source.offset() == 0,
            old(self).source.checkpoint() == 0,
        ensures
            match scan_text(old(self).source.text()) {
                Ok(ts) => r is Ok && tokens_model(r->Ok_0@) == ts,
                Err(f) => r is Err && r->Err_0.fault() == f && r->Err_0.message@
                    == scanner_message(f.error_type),
            },
    {
        let ghost cs = self.source.text();
        let mut line: u64 = 1;
        let mut position: u64 = 0;
        let mut tokens: Vec<Token> = Vec::new();
        loop
            invariant
                at_token_start(self.source, line, position),
                self.source.text() == cs,
                cs == old(self).source.text(),
                0 <= self.source.offset() <= cs.len(),
                scan_text(cs) == (match scan_from(
                    cs,
                    self.source.offset(),
                    line as int,
                    position as int,
                ) {
                    Ok(rest) => Ok(tokens_model(tokens@) + rest),
                    Err(e) => Err(e),
                }),
            ensures
                self.source.offset() == cs.len(),
            decreases cs.len() - self.source.offset(),
        {
            let ghost i = self.source.offset();
            let ghost before = tokens_model(tokens@);
            let ghost (l0, c0) = (line as int, position as int);
            proof {
                lemma_lex_progress(cs, i, l0, c0);
                assert(tokens_model(tokens@) =~= before);
                assert(scan_text(cs) == (match scan_from(cs, i, l0, c0) {
                    Ok(rest) => Ok(before + rest),
                    Err(e) => Err(e),
                }));
            }
            match Scanner::scan_token(&mut self.source, &mut line, &mut position, &mut tokens) {
                Err(e) => {
                    proof {
                        assert(scan_from(cs, i, l0, c0) == Err::<Seq<TokenModel>, ScanFault>(
                            e.fault(),
                        ));
                    }
                    return Err(e);
                },
                Ok(more) => {
                    proof {
                        let step = lex_at(cs, i, l0, c0);
                        match step {
                            Lexed::Skip(n) => {
                                lemma_walk_bound(cs.subrange(i, n), l0, c0);
                            },
                            Lexed::Emit(t, n) => {
                                lemma_walk_bound(cs.subrange(i, n), l0, c0);
                                assert(tokens_model(tokens@) =~= before.push(t));
                                let rest = scan_from(cs, n, line as int, position as int);
                                if rest is Ok {
                                    assert(before + (seq![t] + rest->Ok_0) =~= before.push(t)
                                        + rest->Ok_0);
                                }
                            },
                            _ => {},
                        }
                    }
                    if !more {
                        break ;
                    }
                },
            }
        }
        let eof = Token::new(TokenType::Eof, String::new(), line, position + 1, None);
        tokens.push(eof);
        proof {
            assert(tokens_model(tokens@) =~= tokens_model(tokens@.drop_last()).push(eof@));
            assert(eof@.lexeme =~= Seq::<char>::empty());
        }
        Ok(tokens)
    }

    fn add_token(
        lexeme: &str,
        line: u64,
        position: u64,
        tokens: &mut Vec<Token>,
        token_type: TokenType,
        literal: Option<Literal>,
    )
        ensures
            tokens_model(final(tokens)@) == tokens_model(old(tokens)@).push(
                TokenModel {
                    token_type,
                    lexeme: lexeme@,
                    line,
                    position,
                    literal: literal_option_model(literal),
                },
            ),
    {
        let ghost before = old(tokens)@;
        tokens.push(Token::new(token_type, lexeme.to_owned(), line, position, literal));
        proof {
            assert(tokens_model(tokens@) =~= tokens_model(before).push(tokens@.last()@));
        }
    }

    /// Consumes the next character, counting it in the column.
    fn advance(source: &mut Source, position: &mut u64) -> (r: Option<char>)
        requires
            old(source).text().len() < u64::MAX,
            old(source).wf(),
            *old(position) <= old(source).offset(),
        ensures
            final(source).wf(),
            final(source).text() == old(source).text(),
            final(source).checkpoint() == old(source).checkpoint(),
            r == (if old(source).offset() < old(source).text().len() {
                Some(old(source).text()[old(source).offset()])
            } else {
                None
            }),
            r is Some ==> final(source).offset() == old(source).offset() + 1 && *final(position)
                == *old(position) + 1,
            r is None ==> final(source).offset() == old(source).offset() && *final(position)
                == *old(position),
    {
        let current = source.next();
        if current.is_some() {
            *position = *position + 1;
        }
        current
    }

    /// Consumes the next character where it is `expected`.
    fn matches_next(source: &mut Source, position: &mut u64, expected: char) -> (r: bool)
        requires
            old(source).text().len() < u64::MAX,
            old(source).wf(),
            *old(position) <= old(source).offset(),
        ensures
            final(source).wf(),
            final(source).text() == old(source).text(),
            final(source).checkpoint() == old(source).checkpoint(),
            r == (old(source).offset() < old(source).text().len() && old(source).text()[old(
                source,
            ).offset()] == expected),
            r ==> final(source).offset() == old(source).offset() + 1 && *final(position)
                == *old(position) + 1,
            !r ==> final(source).offset() == old(source).offset() && *final(position)
                == *old(position),
    {
        match source.peek() {
            Some(current) => {
                if current != expected {
                    false
                } else {
                    *position = *position + 1;
                    source.next();
                    true
                }
            },
            None => false,
        }
    }
}


impl<'a> Scanner<'a> {
    /// Scans one step at the cursor: a token, skipped characters, the end of
    /// the text (`Ok(false)`), or a lexical error.
    fn scan_token(
        source: &mut Source<'a>,
        line: &mut u64,
        position: &mut u64,
        tokens: &mut Vec<Token>,
    ) -> (r: Result<bool, ScannerError>)
        requires
            at_token_start(*old(source), *old(line), *old(position)),
        ensures
            match r {
                Ok(more) => more == !(lex_at(
                    old(source).text(),
                    old(source).offset(),
                    *old(line) as int,
                    *old(position) as int,
                ) is End) && advanced_by(
                    lex_at(
                        old(source).text(),
                        old(source).offset(),
                        *old(line) as int,
                        *old(position) as int,
                    ),
                    old(source).text(),
                    old(source).offset(),
                    *old(line) as int,
                    *old(position) as int,
                    *final(source),
                    *final(line),
                    *final(position),
                    tokens_model(old(tokens)@),
                    tokens_model(final(tokens)@),
                ),
                Err(e) => failed_with(
                    lex_at(
                        old(source).text(),
                        old(source).offset(),
                        *old(line) as int,
                        *old(position) as int,
                    ),
                    e,
                ),
            },
    {
        let ghost cs = source.text();
        let ghost i = source.offset();
        let ghost (l0, c0) = (*line as int, *position as int);
        let c = match Scanner::advance(source, position) {
            Some(c) => c,
            None => {
                return Ok(false);
            },
        };
        let column = *position;
        proof {
            lemma_walk_push(cs.subrange(i, i), c, l0, c0);
            assert(cs.subrange(i, i + 1) =~= cs.subrange(i, i).push(c));
            assert(cs.subrange(i, i) =~= Seq::<char>::empty());
        }
        if c == ' ' || c == '\r' || c == '\t' {
            source.pop_lexeme();
            return Ok(true);
        }
        if c == '\n' {
            *line = *line + 1;
            *position = 0;
            source.pop_lexeme();
            return Ok(true);
        }
        if let Some(kind) = single_char_token(c) {
            Scanner::add_token(source.pop_lexeme(), *line, column, tokens, kind, None);
            return Ok(true);
        }
        if c == '/' {
            if Scanner::matches_next(source, position, '/') {
                // A comment runs to the end of the line.
                proof {
                    assert(cs.subrange(i, i + 2) =~= cs.subrange(i, i + 1).push('/'));
                    lemma_walk_push(cs.subrange(i, i + 1), '/', l0, c0);
                }
                loop
                    invariant
                        source.wf(),
                        source.text() == cs,
                        source.checkpoint() == i,
                        cs.len() < u64::MAX,
                        i + 2 <= source.offset() <= cs.len(),
                        newline_at(cs, i + 2) == newline_at(cs, source.offset()),
                        (*line as int, *position as int) == walk(
                            cs.subrange(i, source.offset()),
                            l0,
                            c0,
                        ),
                        *line == l0,
                        *position <= source.offset(),
                    ensures
                        source.wf(),
                        source.text() == cs,
                        source.checkpoint() == i,
                        source.offset() == newline_at(cs, i + 2),
                        (*line as int, *position as int) == walk(
                            cs.subrange(i, source.offset()),
                            l0,
                            c0,
                        ),
                    decreases cs.len() - source.offset(),
                {
                    match source.peek() {
                        Some(next) => {
                            if next == '\n' {
                                break ;
                            }
                            let ghost k = source.offset();
                            proof {
                                assert(cs.subrange(i, k + 1) =~= cs.subrange(i, k).push(next));
                                lemma_walk_push(cs.subrange(i, k), next, l0, c0);
                            }
                            source.next();
                            *position = *position + 1;
                        },
                        None => {
                            break ;
                        },
                    }
                }
                source.pop_lexeme();
            } else {
                Scanner::add_token(source.pop_lexeme(), *line, column, tokens, TokenType::Slash, None);
            }
            return Ok(true);
        }
        if c == '>' || c == '<' {
            let (with_equal, doubled, single) = if c == '>' {
                (TokenType::GreaterEqual, TokenType::RightShift, TokenType::Greater)
            } else {
                (TokenType::LessEqual, TokenType::LeftShift, TokenType::Less)
            };
            let kind = if Scanner::matches_next(source, position, '=') {
                with_equal
            } else if Scanner::matches_next(source, position, c) {
                doubled
            } else {
                single
            };
            proof {
                if source.offset() == i + 2 {
                    assert(cs.subrange(i, i + 2) =~= cs.subrange(i, i + 1).push(cs[i + 1]));
                    lemma_walk_push(cs.subrange(i, i + 1), cs[i + 1], l0, c0);
                }
            }
            Scanner::add_token(source.pop_lexeme(), *line, column, tokens, kind, None);
            return Ok(true);
        }
        if let Some((second, pair, single)) = pair_token(c) {
            let kind = if Scanner::matches_next(source, position, second) {
                pair
            } else {
                single
            };
            proof {
                if source.offset() == i + 2 {
                    assert(cs.subrange(i, i + 2) =~= cs.subrange(i, i + 1).push(cs[i + 1]));
                    lemma_walk_push(cs.subrange(i, i + 1), cs[i + 1], l0, c0);
                }
            }
            Scanner::add_token(source.pop_lexeme(), *line, column, tokens, kind, None);
            return Ok(true);
        }
        if c == '"' {
            Scanner::string_literal(source, line, position, tokens)?;
            return Ok(true);
        }
        if '0' <= c && c <= '9' {
            Scanner::number_literal(source, line, position, tokens)?;
            return Ok(true);
        }
        if ('a' <= c && c <= 'z') || ('A' <= c && c <= 'Z') {
            Scanner::identifier_or_keyword(source, line, position, tokens);
            return Ok(true);
        }
        Err(ScannerError::new(ScannerErrorType::UnknownToken, *line, column))
    }
}


/// The cursor's state just after the first character of a token at `start`:
/// the checkpoint at `start`, and the line and column within what has been
/// consumed.
pub open spec fn after_first_char(src: Source, line: u64, position: u64) -> bool {
    &&& src.wf()
    &&& src.text().len() < u64::MAX
    &&& 1 <= src.offset()
    &&& src.checkpoint() == src.offset() - 1
    &&& 1 <= line <= src.offset()
    &&& 1 <= position <= src.offset()
}

impl<'a> Scanner<'a> {
    fn string_literal(
        source: &mut Source<'a>,
        line: &mut u64,
        position: &mut u64,
        tokens: &mut Vec<Token>,
    ) -> (r: Result<(), ScannerError>)
        requires
            after_first_char(*old(source), *old(line), *old(position)),
            old(source).text()[old(source).offset() - 1] == '"',
        ensures
            match r {
                Ok(_) => advanced_by(
                    lex_string(
                        old(source).text(),
                        old(source).offset() - 1,
                        *old(line) as int,
                        *old(position) - 1,
                    ),
                    old(source).text(),
                    old(source).offset() - 1,
                    *old(line) as int,
                    *old(position) - 1,
                    *final(source),
                    *final(line),
                    *final(position),
                    tokens_model(old(tokens)@),
                    tokens_model(final(tokens)@),
                ),
                Err(e) => failed_with(
                    lex_string(
                        old(source).text(),
                        old(source).offset() - 1,
                        *old(line) as int,
                        *old(position) - 1,
                    ),
                    e,
                ),
            },
    {
        let ghost cs = source.text();
        let ghost start = source.offset() - 1;
        let line0 = *line;
        let column = *position;
        let ghost col0 = column - 1;
        proof {
            lemma_walk_push(cs.subrange(start, start), '"', line0 as int, col0);
            assert(cs.subrange(start, start + 1) =~= cs.subrange(start, start).push('"'));
            assert(cs.subrange(start, start) =~= Seq::<char>::empty());
        }
        loop
            invariant
                source.wf(),
                source.text() == cs,
                cs.len() < u64::MAX,
                source.checkpoint() == start,
                start + 1 <= source.offset() <= cs.len(),
                quote_at(cs, start + 1) == quote_at(cs, source.offset()),
                (*line as int, *position as int) == walk(
                    cs.subrange(start, source.offset()),
                    line0 as int,
                    col0,
                ),
                1 <= line0 <= start + 1,
                0 <= col0 <= start,
            ensures
                source.wf(),
                source.text() == cs,
                source.checkpoint() == start,
                source.offset() == quote_at(cs, start + 1),
                (*line as int, *position as int) == walk(
                    cs.subrange(start, source.offset()),
                    line0 as int,
                    col0,
                ),
                *line <= source.offset() + 1,
                *position <= source.offset(),
            decreases cs.len() - source.offset(),
        {
            proof {
                lemma_walk_bound(cs.subrange(start, source.offset()), line0 as int, col0);
            }
            match source.peek() {
                Some(next) => {
                    if next == '"' {
                        break ;
                    }
                    let ghost k = source.offset();
                    proof {
                        assert(cs.subrange(start, k + 1) =~= cs.subrange(start, k).push(next));
                        lemma_walk_push(cs.subrange(start, k), next, line0 as int, col0);
                    }
                    Scanner::advance(source, position);
                    if next == '\n' {
                        *line = *line + 1;
                        *position = 0;
                    }
                },
                None => {
                    break ;
                },
            }
        }
        if source.peek().is_none() {
            return Err(ScannerError::new(ScannerErrorType::UnterminatedString, line0, column));
        }
        let ghost q = source.offset();
        proof {
            lemma_quote_at(cs, start + 1);
            assert(cs.subrange(start, q + 1) =~= cs.subrange(start, q).push('"'));
            lemma_walk_push(cs.subrange(start, q), '"', line0 as int, col0);
        }
        // The closing quote
        Scanner::advance(source, position);
        let lexeme = source.pop_lexeme();
        let m = lexeme.unicode_len();
        let value = lexeme.substring_char(1, m - 1);
        proof {
            assert(value@ =~= cs.subrange(start + 1, q));
        }
        Scanner::add_token(
            lexeme,
            line0,
            column,
            tokens,
            TokenType::String,
            Some(Literal::String(value.to_owned())),
        );
        Ok(())
    }

    fn number_literal(
        source: &mut Source<'a>,
        line: &mut u64,
        position: &mut u64,
        tokens: &mut Vec<Token>,
    ) -> (r: Result<(), ScannerError>)
        requires
            after_first_char(*old(source), *old(line), *old(position)),
            is_digit(old(source).text()[old(source).offset() - 1]),
        ensures
            match r {
                Ok(_) => advanced_by(
                    lex_number(
                        old(source).text(),
                        old(source).offset() - 1,
                        *old(line) as int,
                        *old(position) - 1,
                    ),
                    old(source).text(),
                    old(source).offset() - 1,
                    *old(line) as int,
                    *old(position) - 1,
                    *final(source),
                    *final(line),
                    *final(position),
                    tokens_model(old(tokens)@),
                    tokens_model(final(tokens)@),
                ),
                Err(e) => failed_with(
                    lex_number(
                        old(source).text(),
                        old(source).offset() - 1,
                        *old(line) as int,
                        *old(position) - 1,
                    ),
                    e,
                ),
            },
    {
        let ghost cs = source.text();
        let ghost start = source.offset() - 1;
        let line0 = *line;
        let column = *position;
        let ghost col0 = column - 1;
        proof {
            lemma_walk_push(cs.subrange(start, start), cs[start], line0 as int, col0);
            assert(cs.subrange(start, start + 1) =~= cs.subrange(start, start).push(cs[start]));
            assert(cs.subrange(start, start) =~= Seq::<char>::empty());
        }
        Scanner::digits(source, position, Ghost(start), Ghost(line0 as int), Ghost(col0));
        let ghost d = source.offset();
        let is_float = source.peek() == Some('.');
        if is_float {
            proof {
                assert(cs.subrange(start, d + 1) =~= cs.subrange(start, d).push('.'));
                lemma_walk_push(cs.subrange(start, d), '.', line0 as int, col0);
            }
            Scanner::advance(source, position);
            let digit_follows = match source.peek() {
                Some(c) => '0' <= c && c <= '9',
                None => false,
            };
            if !digit_follows {
                return Err(ScannerError::new(ScannerErrorType::InvalidNumber, line0, *position));
            }
            Scanner::digits(source, position, Ghost(start), Ghost(line0 as int), Ghost(col0));
        }
        let ghost e = source.offset();
        let lexeme = source.pop_lexeme();
        proof {
            lemma_digits_end(cs, start);
            assert(lexeme@ == cs.subrange(start, e));
            if !is_float {
                assert forall|j: int| 0 <= j < lexeme@.len() implies is_digit(
                    #[trigger] lexeme@[j],
                ) by {
                    assert(lexeme@[j] == cs[start + j]);
                }
            }
        }
        if is_float {
            proof {
                assert forall|k: int| 0 <= k < lexeme@.len() implies is_digit(
                    #[trigger] lexeme@[k],
                ) || lexeme@[k] == '.' by {
                    assert(lexeme@[k] == cs[start + k]);
                }
            }
            match parse_double(lexeme) {
                Some(bits) => {
                    Scanner::add_token(
                        lexeme,
                        line0,
                        column,
                        tokens,
                        TokenType::Float,
                        Some(Literal::Number(NumberLiteral::Float(bits))),
                    );
                    Ok(())
                },
                None => Err(ScannerError::new(ScannerErrorType::InvalidNumber, line0, column)),
            }
        } else {
            match parse_integer(lexeme) {
                Some(value) => {
                    Scanner::add_token(
                        lexeme,
                        line0,
                        column,
                        tokens,
                        TokenType::Integer,
                        Some(Literal::Number(NumberLiteral::Integer(value))),
                    );
                    Ok(())
                },
                None => Err(ScannerError::new(ScannerErrorType::InvalidNumber, line0, column)),
            }
        }
    }

    /// Consumes a run of digits that continues a number begun at `start`.
    fn digits(
        source: &mut Source<'a>,
        position: &mut u64,
        Ghost(start): Ghost<int>,
        Ghost(line0): Ghost<int>,
        Ghost(col0): Ghost<int>,
    )
        requires
            old(source).wf(),
            old(source).text().len() < u64::MAX,
            0 <= start < old(source).offset(),
            old(source).checkpoint() == start,
            0 <= col0 <= start,
            walk(old(source).text().subrange(start, old(source).offset()), line0, col0) == (
                line0,
                *old(position) as int,
            ),
            *old(position) == col0 + (old(source).offset() - start),
        ensures
            final(source).wf(),
            final(source).text() == old(source).text(),
            final(source).checkpoint() == start,
            final(source).offset() == digits_end(old(source).text(), old(source).offset()),
            final(source).offset() >= old(source).offset(),
            forall|j: int|
                old(source).offset() <= j < final(source).offset() ==> is_digit(
                    #[trigger] final(source).text()[j],
                ),
            walk(final(source).text().subrange(start, final(source).offset()), line0, col0) == (
                line0,
                *final(position) as int,
            ),
            *final(position) == col0 + (final(source).offset() - start),
    {
        let ghost cs = source.text();
        let ghost first = source.offset();
        loop
            invariant
                source.wf(),
                source.text() == cs,
                cs.len() < u64::MAX,
                source.checkpoint() == start,
                first <= source.offset() <= cs.len(),
                0 <= col0 <= start,
                digits_end(cs, first) == digits_end(cs, source.offset()),
                forall|j: int| first <= j < source.offset() ==> is_digit(#[trigger] cs[j]),
                walk(cs.subrange(start, source.offset()), line0, col0) == (
                    line0,
                    *position as int,
                ),
                *position == col0 + (source.offset() - start),
            ensures
                source.offset() == digits_end(cs, first),
                source.offset() >= first,
            decreases cs.len() - source.offset(),
        {
            match source.peek() {
                Some(next) => {
                    if !('0' <= next && next <= '9') {
                        break ;
                    }
                    let ghost k = source.offset();
                    proof {
                        assert(cs.subrange(start, k + 1) =~= cs.subrange(start, k).push(next));
                        lemma_walk_push(cs.subrange(start, k), next, line0, col0);
                    }
                    Scanner::advance(source, position);
                },
                None => {
                    break ;
                },
            }
        }
    }

    fn identifier_or_keyword(
        source: &mut Source<'a>,
        line: &mut u64,
        position: &mut u64,
        tokens: &mut Vec<Token>,
    )
        requires
            after_first_char(*old(source), *old(line), *old(position)),
            is_alpha(old(source).text()[old(source).offset() - 1]),
        ensures
            advanced_by(
                lex_word(
                    old(source).text(),
                    old(source).offset() - 1,
                    *old(line) as int,
                    *old(position) - 1,
                ),
                old(source).text(),
                old(source).offset() - 1,
                *old(line) as int,
                *old(position) - 1,
                *final(source),
                *final(line),
                *final(position),
                tokens_model(old(tokens)@),
                tokens_model(final(tokens)@),
            ),
    {
        let ghost cs = source.text();
        let ghost start = source.offset() - 1;
        let line0 = *line;
        let column = *position;
        let ghost col0 = column - 1;
        proof {
            lemma_walk_push(cs.subrange(start, start), cs[start], line0 as int, col0);
            assert(cs.subrange(start, start + 1) =~= cs.subrange(start, start).push(cs[start]));
            assert(cs.subrange(start, start) =~= Seq::<char>::empty());
        }
        loop
            invariant
                source.wf(),
                source.text() == cs,
                cs.len() < u64::MAX,
                source.checkpoint() == start,
                start + 1 <= source.offset() <= cs.len(),
                word_end(cs, start + 1) == word_end(cs, source.offset()),
                forall|j: int| start <= j < source.offset() ==> #[trigger] cs[j] != '\n',
                (*line as int, *position as int) == walk(
                    cs.subrange(start, source.offset()),
                    line0 as int,
                    col0,
                ),
                *line == line0,
                *position <= col0 + (source.offset() - start),
                0 <= col0 <= start,
            ensures
                source.wf(),
                source.text() == cs,
                source.checkpoint() == start,
                source.offset() == word_end(cs, start + 1),
                (*line as int, *position as int) == walk(
                    cs.subrange(start, source.offset()),
                    line0 as int,
                    col0,
                ),
            decreases cs.len() - source.offset(),
        {
            match source.peek() {
                Some(next) => {
                    if !(('a' <= next && next <= 'z') || ('A' <= next && next <= 'Z') || ('0'
                        <= next && next <= '9') || next == '_') {
                        break ;
                    }
                    let ghost k = source.offset();
                    proof {
                        assert(cs.subrange(start, k + 1) =~= cs.subrange(start, k).push(next));
                        lemma_walk_push(cs.subrange(start, k), next, line0 as int, col0);
                    }
                    Scanner::advance(source, position);
                },
                None => {
                    break ;
                },
            }
        }
        let value = source.pop_lexeme();
        let kind = match keyword_token(value) {
            Some(k) => k,
            None => TokenType::Identifier,
        };
        let literal = match kind {
            TokenType::True => Some(Literal::Boolean(true)),
            TokenType::False => Some(Literal::Boolean(false)),
            TokenType::Identifier => Some(Literal::String(value.to_owned())),
            _ => None,
        };
        Scanner::add_token(value, line0, column, tokens, kind, literal);
    }
}

} // verus!

verus! {

// ---------------------------------------------------------------------------
// Round trip of literal tokens.

pub proof fn lemma_digits_end_spans(s: Seq<char>, m: int)
    requires
        0 <= m <= s.len(),
    ensures
        forall|k: int| m <= k < digits_end(s, m) ==> is_digit(#[trigger] s[k]),
        digits_end(s, m) == s.len() || !is_digit(s[digits_end(s, m)]),
    decreases s.len() - m,
{
    if m < s.len() && is_digit(s[m]) {
        lemma_digits_end_spans(s, m + 1);
    }
}

pub proof fn lemma_digits_end_is(s: Seq<char>, m: int, e: int)
    requires
        0 <= m <= e <= s.len(),
        forall|k: int| m <= k < e ==> is_digit(#[trigger] s[k]),
        e == s.len() || !is_digit(s[e]),
    ensures
        digits_end(s, m) == e,
    decreases e - m,
{
    if m < e {
        lemma_digits_end_is(s, m + 1, e);
    }
}

pub proof fn lemma_word_end_spans(s: Seq<char>, m: int)
    requires
        0 <= m <= s.len(),
    ensures
        forall|k: int| m <= k < word_end(s, m) ==> is_word_char(#[trigger] s[k]),
    decreases s.len() - m,
{
    if m < s.len() && is_word_char(s[m]) {
        lemma_word_end_spans(s, m + 1);
    }
}

pub proof fn lemma_word_end_is(s: Seq<char>, m: int, e: int)
    requires
        0 <= m <= e <= s.len(),
        forall|k: int| m <= k < e ==> is_word_char(#[trigger] s[k]),
        e == s.len() || !is_word_char(s[e]),
    ensures
        word_end(s, m) == e,
    decreases e - m,
{
    if m < e {
        lemma_word_end_is(s, m + 1, e);
    }
}

pub proof fn lemma_quote_at_spans(s: Seq<char>, m: int)
    requires
        0 <= m <= s.len(),
    ensures
        forall|k: int| m <= k < quote_at(s, m) ==> #[trigger] s[k] != '"',
    decreases s.len() - m,
{
    if m < s.len() && s[m] != '"' {
        lemma_quote_at_spans(s, m + 1);
    }
}

pub proof fn lemma_quote_at_is(s: Seq<char>, m: int, e: int)
    requires
        0 <= m <= e < s.len(),
        forall|k: int| m <= k < e ==> #[trigger] s[k] != '"',
        s[e] == '"',
    ensures
        quote_at(s, m) == e,
    decreases e - m,
{
    if m < e {
        lemma_quote_at_is(s, m + 1, e);
    }
}

/// A token that the scanner emits is spelled by the characters it consumed.
pub proof fn lemma_emit_lexeme(cs: Seq<char>, j: int, line: int, col: int)
    requires
        0 <= j < cs.len(),
    ensures
        lex_at(cs, j, line, col) is Emit ==> lex_at(cs, j, line, col)->Emit_0.lexeme == cs.subrange(
            j,
            lex_at(cs, j, line, col)->Emit_1,
        ),
        lex_at(cs, j, line, col) is Emit ==> lex_at(cs, j, line, col)->Emit_0.line == line as u64,
        lex_at(cs, j, line, col) is Emit ==> lex_at(cs, j, line, col)->Emit_0.position == (col
            + 1) as u64,
{
}

/// Consuming two pieces one after the other moves the line and column as
/// consuming them together does.
pub proof fn lemma_walk_concat(x: Seq<char>, y: Seq<char>, line: int, col: int)
    ensures
        walk(x + y, line, col) == walk(y, walk(x, line, col).0, walk(x, line, col).1),
    decreases y.len(),
{
    if y.len() == 0 {
        assert(x + y =~= x);
    } else {
        assert((x + y).drop_last() =~= x + y.drop_last());
        lemma_walk_concat(x, y.drop_last(), line, col);
    }
}

/// The position of each token of a successful scan, as a step of the lexer
/// at the line and column reached by the text before it.
pub proof fn lemma_token_source(cs: Seq<char>, i: int, line: int, col: int, k: int) -> (r: (
    int,
    int,
    int,
    int,
))
    requires
        0 <= i <= cs.len(),
        (line, col) == walk(cs.subrange(0, i), 1, 0),
        scan_from(cs, i, line, col) is Ok,
        0 <= k < scan_from(cs, i, line, col)->Ok_0.len(),
        scan_from(cs, i, line, col)->Ok_0[k].token_type != TokenType::Eof,
    ensures
        i <= r.0 < r.1 <= cs.len(),
        (r.2, r.3) == walk(cs.subrange(0, r.0), 1, 0),
        lex_at(cs, r.0, r.2, r.3) == Lexed::Emit(scan_from(cs, i, line, col)->Ok_0[k], r.1),
    decreases cs.len() - i,
{
    lemma_lex_progress(cs, i, line, col);
    match lex_at(cs, i, line, col) {
        Lexed::Skip(n) => {
            let (l, c) = walk(cs.subrange(i, n), line, col);
            lemma_walk_concat(cs.subrange(0, i), cs.subrange(i, n), 1, 0);
            assert(cs.subrange(0, i) + cs.subrange(i, n) =~= cs.subrange(0, n));
            lemma_token_source(cs, n, l, c, k)
        },
        Lexed::Emit(t, n) => {
            let (l, c) = walk(cs.subrange(i, n), line, col);
            if k == 0 {
                (i, n, line, col)
            } else {
                lemma_walk_concat(cs.subrange(0, i), cs.subrange(i, n), 1, 0);
                assert(cs.subrange(0, i) + cs.subrange(i, n) =~= cs.subrange(0, n));
                let rest = scan_from(cs, n, l, c)->Ok_0;
                assert(scan_from(cs, i, line, col)->Ok_0[k] == rest[k - 1]);
                lemma_token_source(cs, n, l, c, k - 1)
            }
        },
        _ => {
            assert(false);
            (0, 0, 0, 0)
        },
    }
}

/// Scanning the lexeme of a token alone gives a token with that lexeme, kind
/// and value, followed by the end of input.
pub open spec fn rescans_to(t: TokenModel) -> bool {
    &&& scan_text(t.lexeme) is Ok
    &&& scan_text(t.lexeme)->Ok_0.len() == 2
    &&& scan_text(t.lexeme)->Ok_0[0].token_type == t.token_type
    &&& scan_text(t.lexeme)->Ok_0[0].lexeme == t.lexeme
    &&& scan_text(t.lexeme)->Ok_0[0].literal == t.literal
    &&& scan_text(t.lexeme)->Ok_0[1].token_type == TokenType::Eof
}

/// A text that the lexer takes whole as one token scans to that token and the
/// end of input.
pub proof fn lemma_scan_one_token(s: Seq<char>)
    requires
        s.len() > 0,
        lex_at(s, 0, 1, 0) is Emit,
        lex_at(s, 0, 1, 0)->Emit_1 == s.len(),
    ensures
        scan_text(s) is Ok,
        scan_text(s)->Ok_0.len() == 2,
        scan_text(s)->Ok_0[0] == lex_at(s, 0, 1, 0)->Emit_0,
        scan_text(s)->Ok_0[1].token_type == TokenType::Eof,
{
    let len = s.len() as int;
    assert(s.subrange(0, len) =~= s);
    let after = walk(s, 1, 0);
    assert(scan_from(s, len, after.0, after.1) == Ok::<Seq<TokenModel>, ScanFault>(
        seq![eof_token(after.0, after.1)],
    ));
}

pub proof fn lemma_rescan_string(cs: Seq<char>, j: int, line: int, col: int)
    requires
        0 <= j < cs.len(),
        cs[j] == '"',
        lex_at(cs, j, line, col) is Emit,
    ensures
        rescans_to(lex_at(cs, j, line, col)->Emit_0),
{
    lemma_lex_progress(cs, j, line, col);
    let t = lex_at(cs, j, line, col)->Emit_0;
    let q = quote_at(cs, j + 1);
    lemma_quote_at(cs, j + 1);
    lemma_quote_at_spans(cs, j + 1);
    let lexeme = cs.subrange(j, q + 1);
    assert(t.lexeme == lexeme);
    assert forall|k: int| 1 <= k < q - j implies #[trigger] lexeme[k] != '"' by {
        assert(lexeme[k] == cs[j + k]);
    }
    lemma_quote_at_is(lexeme, 1, q - j);
    assert(lexeme.subrange(1, q - j) =~= cs.subrange(j + 1, q));
    assert(lexeme.subrange(0, q + 1 - j) =~= lexeme);
    assert(lex_at(lexeme, 0, 1, 0) == lex_string(lexeme, 0, 1, 0));
    lemma_scan_one_token(lexeme);
}

pub proof fn lemma_rescan_number(cs: Seq<char>, j: int, line: int, col: int)
    requires
        0 <= j < cs.len(),
        is_digit(cs[j]),
        lex_at(cs, j, line, col) is Emit,
    ensures
        rescans_to(lex_at(cs, j, line, col)->Emit_0),
{
    lemma_lex_progress(cs, j, line, col);
    let t = lex_at(cs, j, line, col)->Emit_0;
    let n = lex_at(cs, j, line, col)->Emit_1;
    let d = digits_end(cs, j);
    lemma_digits_end(cs, j + 1);
    lemma_digits_end_spans(cs, j);
    let lexeme = cs.subrange(j, n);
    assert(t.lexeme == lexeme);
    assert(lexeme.subrange(0, n - j) =~= lexeme);
    if d < cs.len() && cs[d] == '.' {
        let e = digits_end(cs, d + 1);
        lemma_digits_end(cs, d + 1);
        lemma_digits_end_spans(cs, d + 1);
        assert forall|k: int| 0 <= k < d - j implies is_digit(#[trigger] lexeme[k]) by {
            assert(lexeme[k] == cs[j + k]);
        }
        assert(lexeme[d - j] == cs[d]);
        lemma_digits_end_is(lexeme, 0, d - j);
        assert forall|k: int| d - j + 1 <= k < e - j implies is_digit(#[trigger] lexeme[k]) by {
            assert(lexeme[k] == cs[j + k]);
        }
        assert(lexeme[d - j + 1] == cs[d + 1]);
        lemma_digits_end_is(lexeme, d - j + 1, e - j);
    } else {
        assert forall|k: int| 0 <= k < d - j implies is_digit(#[trigger] lexeme[k]) by {
            assert(lexeme[k] == cs[j + k]);
        }
        lemma_digits_end_is(lexeme, 0, d - j);
    }
    assert(lex_at(lexeme, 0, 1, 0) == lex_number(lexeme, 0, 1, 0));
    lemma_scan_one_token(lexeme);
}

pub proof fn lemma_rescan_word(cs: Seq<char>, j: int, line: int, col: int)
    requires
        0 <= j < cs.len(),
        is_alpha(cs[j]),
        lex_at(cs, j, line, col) is Emit,
    ensures
        rescans_to(lex_at(cs, j, line, col)->Emit_0),
{
    lemma_lex_progress(cs, j, line, col);
    let t = lex_at(cs, j, line, col)->Emit_0;
    let e = word_end(cs, j);
    lemma_word_end(cs, j + 1);
    lemma_word_end_spans(cs, j);
    let lexeme = cs.subrange(j, e);
    assert(t.lexeme == lexeme);
    assert forall|k: int| 0 <= k < e - j implies is_word_char(#[trigger] lexeme[k]) by {
        assert(lexeme[k] == cs[j + k]);
    }
    lemma_word_end_is(lexeme, 0, e - j);
    assert(lexeme.subrange(0, e - j) =~= lexeme);
    assert(lex_at(lexeme, 0, 1, 0) == lex_word(lexeme, 0, 1, 0));
    lemma_scan_one_token(lexeme);
}

/// A lexer step that emits a token with a value can be replayed on the
/// token's lexeme alone.
pub proof fn lemma_emit_rescans(cs: Seq<char>, j: int, line: int, col: int)
    requires
        0 <= j < cs.len(),
        lex_at(cs, j, line, col) is Emit,
        lex_at(cs, j, line, col)->Emit_0.literal is Some,
    ensures
        rescans_to(lex_at(cs, j, line, col)->Emit_0),
{
    let c = cs[j];
    if c == '"' {
        lemma_rescan_string(cs, j, line, col);
    } else if is_digit(c) {
        lemma_rescan_number(cs, j, line, col);
    } else if is_alpha(c) {
        lemma_rescan_word(cs, j, line, col);
    }
}

/// Round trip of literal tokens: every token of a successful scan that
/// carries a value is spelled, in the scanned text, exactly as its lexeme, at
/// the line and column that the text before it reaches; and scanning the
/// lexeme alone gives a token with the same lexeme, kind and value.
pub proof fn lemma_literal_round_trip(cs: Seq<char>, k: int)
    requires
        scan_text(cs) is Ok,
        0 <= k < scan_text(cs)->Ok_0.len(),
        scan_text(cs)->Ok_0[k].literal is Some,
    ensures
        exists|a: int, b: int|
            0 <= a <= b <= cs.len() && #[trigger] cs.subrange(a, b) == scan_text(cs)->Ok_0[k].lexeme
                && scan_text(cs)->Ok_0[k].line == walk(cs.subrange(0, a), 1, 0).0 as u64
                && scan_text(cs)->Ok_0[k].position == (walk(cs.subrange(0, a), 1, 0).1 + 1) as u64,
        rescans_to(scan_text(cs)->Ok_0[k]),
{
    let t = scan_text(cs)->Ok_0[k];
    if t.token_type == TokenType::Eof {
        // The end-of-input token carries no value.
        lemma_eof_is_last(cs, 0, 1, 0, k);
    }
    assert(cs.subrange(0, 0) =~= Seq::<char>::empty());
    let (j, n, l, c) = lemma_token_source(cs, 0, 1, 0, k);
    lemma_emit_lexeme(cs, j, l, c);
    lemma_emit_rescans(cs, j, l, c);
    assert(cs.subrange(j, n) == t.lexeme);
}

/// The end-of-input token has no value.
pub proof fn lemma_eof_is_last(cs: Seq<char>, i: int, line: int, col: int, k: int)
    requires
        0 <= i <= cs.len(),
        scan_from(cs, i, line, col) is Ok,
        0 <= k < scan_from(cs, i, line, col)->Ok_0.len(),
        scan_from(cs, i, line, col)->Ok_0[k].token_type == TokenType::Eof,
    ensures
        scan_from(cs, i, line, col)->Ok_0[k].literal is None,
    decreases cs.len() - i,
{
    lemma_lex_progress(cs, i, line, col);
    match lex_at(cs, i, line, col) {
        Lexed::Skip(n) => {
            let (l, c) = walk(cs.subrange(i, n), line, col);
            lemma_eof_is_last(cs, n, l, c, k);
        },
        Lexed::Emit(t, n) => {
            let (l, c) = walk(cs.subrange(i, n), line, col);
            if k > 0 {
                let rest = scan_from(cs, n, l, c)->Ok_0;
                assert(scan_from(cs, i, line, col)->Ok_0[k] == rest[k - 1]);
                lemma_eof_is_last(cs, n, l, c, k - 1);
            }
        },
        _ => {},
    }
}

} // verus!
