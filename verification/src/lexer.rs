//! The scanner: from source text to the sequence of tokens.

use vstd::prelude::*;
use crate::chars::{Glyph, classify_text, classified};
use crate::text::{decimal_value, is_digit, str_equals};

verus! {

/// The smallest lexical unit of the language.
#[derive(Debug, PartialEq)]
pub enum Token {
    /// One of the reserved words `var`, `begin`, `end`, `integer`, `writeln`.
    Keyword(String),
    /// A word that is not reserved.
    Identifier(String),
    /// A decimal number that fits in 32 bits.
    IntegerLiteral(i32),
    /// The text between two quotes, without the quotes.
    StringLiteral(String),
    /// A punctuation mark or an arithmetic operator.
    Symbol(char),
    /// The two characters `:=`.
    Assignment,
    /// The end of the source; always the last token.
    EndOfInput,
}

/// What a token is, with its text as a sequence of characters.
pub enum TokenView {
    Keyword(Seq<char>),
    Identifier(Seq<char>),
    IntegerLiteral(i32),
    StringLiteral(Seq<char>),
    Symbol(char),
    Assignment,
    EndOfInput,
}

impl View for Token {
    type V = TokenView;

    open spec fn view(&self) -> TokenView {
        match self {
            Token::Keyword(word) => TokenView::Keyword(word@),
            Token::Identifier(word) => TokenView::Identifier(word@),
            Token::IntegerLiteral(value) => TokenView::IntegerLiteral(*value),
            Token::StringLiteral(text) => TokenView::StringLiteral(text@),
            Token::Symbol(c) => TokenView::Symbol(*c),
            Token::Assignment => TokenView::Assignment,
            Token::EndOfInput => TokenView::EndOfInput,
        }
    }
}

impl Clone for Token {
    fn clone(&self) -> (copy: Token)
        ensures
            copy@ == self@,
    {
        match self {
            Token::Keyword(word) => Token::Keyword(word.clone()),
            Token::Identifier(word) => Token::Identifier(word.clone()),
            Token::IntegerLiteral(value) => Token::IntegerLiteral(*value),
            Token::StringLiteral(text) => Token::StringLiteral(text.clone()),
            Token::Symbol(c) => Token::Symbol(*c),
            Token::Assignment => Token::Assignment,
            Token::EndOfInput => Token::EndOfInput,
        }
    }
}

/// The views of a sequence of tokens, in order.
pub open spec fn token_views(tokens: Seq<Token>) -> Seq<TokenView> {
    tokens.map_values(|t: Token| t@)
}

/// Why a text has no token sequence.
#[derive(Clone, Copy, Debug, PartialEq, Eq, Structural)]
pub enum LexError {
    /// A character that starts no token and is no white space, or one in a
    /// number that is no ASCII digit.
    UnexpectedCharacter(char),
    /// A number above the largest signed 32-bit integer.
    IntegerOverflow,
}

/// Whether `c` is an ASCII letter: the characters that start a word.
pub open spec fn is_letter(c: char) -> bool {
    ('a' <= c && c <= 'z') || ('A' <= c && c <= 'Z')
}

/// Whether `c` is one of the four arithmetic operators.
pub open spec fn is_operator(c: char) -> bool {
    c == '+' || c == '-' || c == '*' || c == '/'
}

/// Whether `c` is one of the marks `;`, `(`, `)`, `,`.
pub open spec fn is_punctuation(c: char) -> bool {
    c == ';' || c == '(' || c == ')' || c == ','
}

/// Whether `word` is reserved.
pub open spec fn is_keyword(word: Seq<char>) -> bool {
    word == "var"@ || word == "begin"@ || word == "end"@ || word == "integer"@ || word
        == "writeln"@
}

/// The characters of a sequence of glyphs.
pub open spec fn glyph_text(glyphs: Seq<Glyph>) -> Seq<char> {
    glyphs.map_values(|g: Glyph| g.ch)
}

/// The characters at the positions `from..to`.
pub open spec fn text_between(glyphs: Seq<Glyph>, from: int, to: int) -> Seq<char> {
    glyph_text(glyphs.subrange(from, to))
}

/// The kinds of run that the scanner follows to its end.
#[derive(Clone, Copy, Debug, PartialEq, Eq, Structural)]
pub enum Run {
    /// Characters that Unicode counts as alphabetic or numeric.
    Alphanumeric,
    /// Characters that Unicode counts as numbers.
    Numeric,
    /// Every character but the given one.
    Until(char),
}

impl Run {
    /// Whether the run goes on over `g`.
    pub open spec fn keeps(self, g: Glyph) -> bool {
        match self {
            Run::Alphanumeric => g.alphanumeric,
            Run::Numeric => g.numeric,
            Run::Until(stop) => g.ch != stop,
        }
    }

    fn admits(&self, g: &Glyph) -> (b: bool)
        ensures
            b == self.keeps(*g),
    {
        match self {
            Run::Alphanumeric => g.alphanumeric,
            Run::Numeric => g.numeric,
            Run::Until(stop) => g.ch != *stop,
        }
    }
}

/// The length of the longest run of the given kind that starts at `from`.
pub open spec fn run_len(glyphs: Seq<Glyph>, from: int, run: Run) -> nat
    decreases glyphs.len() - from,
{
    if 0 <= from < glyphs.len() && run.keeps(glyphs[from]) {
        1 + run_len(glyphs, from + 1, run)
    } else {
        0
    }
}

/// The number of ASCII digits at the start of `s`, from `from` on.
pub open spec fn digit_prefix_len(s: Seq<char>, from: int) -> nat
    decreases s.len() - from,
{
    if 0 <= from < s.len() && is_digit(s[from]) {
        1 + digit_prefix_len(s, from + 1)
    } else {
        0
    }
}

/// The value of a number run. The run is read from the left: its ASCII digits
/// must not exceed the largest `i32`, and nothing but digits may follow them.
pub open spec fn integer_literal(run: Seq<char>) -> Result<i32, LexError> {
    let digits = digit_prefix_len(run, 0);
    let value = decimal_value(run.take(digits as int));
    if value > i32::MAX {
        Err(LexError::IntegerOverflow)
    } else if digits < run.len() {
        Err(LexError::UnexpectedCharacter(run[digits as int]))
    } else {
        Ok(value as i32)
    }
}

/// The token of a word: a keyword if the word is reserved, else an identifier.
pub open spec fn word_token(word: Seq<char>) -> TokenView {
    if is_keyword(word) {
        TokenView::Keyword(word)
    } else {
        TokenView::Identifier(word)
    }
}

/// The position after a string literal whose text ends before `end`: one
/// position further, which holds the closing quote, unless the text ran to the
/// end of the input.
pub open spec fn after_literal(glyphs: Seq<Glyph>, end: int) -> int {
    if end < glyphs.len() {
        end + 1
    } else {
        end
    }
}

/// What the scanner finds at one position.
pub enum Scan {
    /// White space: no token.
    Skip { next: int },
    /// A token, and the position after it.
    Emit { token: TokenView, next: int },
    /// No token can start here.
    Fail { error: LexError },
}

/// What the scanner finds at `pos`, a position inside `glyphs`.
pub open spec fn scan_at(glyphs: Seq<Glyph>, pos: int) -> Scan {
    let c = glyphs[pos].ch;
    if is_letter(c) {
        let end = pos + 1 + run_len(glyphs, pos + 1, Run::Alphanumeric);
        Scan::Emit { token: word_token(text_between(glyphs, pos, end)), next: end }
    } else if is_digit(c) {
        let end = pos + 1 + run_len(glyphs, pos + 1, Run::Numeric);
        match integer_literal(text_between(glyphs, pos, end)) {
            Ok(value) => Scan::Emit { token: TokenView::IntegerLiteral(value), next: end },
            Err(error) => Scan::Fail { error },
        }
    } else if c == '"' || c == '\'' {
        let end = pos + 1 + run_len(glyphs, pos + 1, Run::Until(c));
        Scan::Emit {
            token: TokenView::StringLiteral(text_between(glyphs, pos + 1, end)),
            next: after_literal(glyphs, end),
        }
    } else if is_operator(c) || is_punctuation(c) {
        Scan::Emit { token: TokenView::Symbol(c), next: pos + 1 }
    } else if c == ':' {
        if pos + 1 < glyphs.len() && glyphs[pos + 1].ch == '=' {
            Scan::Emit { token: TokenView::Assignment, next: pos + 2 }
        } else {
            Scan::Emit { token: TokenView::Symbol(':'), next: pos + 1 }
        }
    } else if glyphs[pos].whitespace {
        Scan::Skip { next: pos + 1 }
    } else {
        Scan::Fail { error: LexError::UnexpectedCharacter(c) }
    }
}

/// `tokens` followed by what `rest` holds, or the error of `rest`.
pub open spec fn prepend(tokens: Seq<TokenView>, rest: Result<Seq<TokenView>, LexError>) -> Result<
    Seq<TokenView>,
    LexError,
> {
    match rest {
        Ok(more) => Ok(tokens + more),
        Err(error) => Err(error),
    }
}

/// The tokens of the glyphs from `pos` on, closed by `EndOfInput`; or the
/// first error met.
pub open spec fn lex_from(glyphs: Seq<Glyph>, pos: int) -> Result<Seq<TokenView>, LexError>
    decreases glyphs.len() - pos,
    via lex_from_advances
{
    if pos < 0 || pos >= glyphs.len() {
        Ok(seq![TokenView::EndOfInput])
    } else {
        match scan_at(glyphs, pos) {
            Scan::Skip { next } => lex_from(glyphs, next),
            Scan::Emit { token, next } => prepend(seq![token], lex_from(glyphs, next)),
            Scan::Fail { error } => Err(error),
        }
    }
}

#[via_fn]
proof fn lex_from_advances(glyphs: Seq<Glyph>, pos: int) {
    if 0 <= pos < glyphs.len() {
        lemma_scan_advances(glyphs, pos);
    }
}

/// Every scan moves on by at least one position and stays inside the text.
pub proof fn lemma_scan_advances(glyphs: Seq<Glyph>, pos: int)
    requires
        0 <= pos < glyphs.len(),
    ensures
        scan_at(glyphs, pos) matches Scan::Skip { next } ==> pos < next <= glyphs.len(),
        scan_at(glyphs, pos) matches Scan::Emit { next, .. } ==> pos < next <= glyphs.len(),
{
    lemma_run_within(glyphs, pos + 1, Run::Alphanumeric);
    lemma_run_within(glyphs, pos + 1, Run::Numeric);
    lemma_run_within(glyphs, pos + 1, Run::Until(glyphs[pos].ch));
}

/// A run ends inside the text.
pub proof fn lemma_run_within(glyphs: Seq<Glyph>, from: int, run: Run)
    requires
        0 <= from <= glyphs.len(),
    ensures
        from + run_len(glyphs, from, run) <= glyphs.len(),
    decreases glyphs.len() - from,
{
    if from < glyphs.len() && run.keeps(glyphs[from]) {
        lemma_run_within(glyphs, from + 1, run);
    }
}

/// The tokens of a whole classified text.
pub open spec fn lex(glyphs: Seq<Glyph>) -> Result<Seq<TokenView>, LexError> {
    lex_from(glyphs, 0)
}

/// Whether `outcome` is what `expected` says: the same error, or tokens with
/// the expected views.
pub open spec fn lexed(
    outcome: Result<Vec<Token>, LexError>,
    expected: Result<Seq<TokenView>, LexError>,
) -> bool {
    match outcome {
        Ok(tokens) => expected == Ok::<Seq<TokenView>, LexError>(token_views(tokens@)),
        Err(error) => expected == Err::<Seq<TokenView>, LexError>(error),
    }
}

/// The digit prefix of a text ends inside the text.
pub proof fn lemma_digit_prefix_within(s: Seq<char>, from: int)
    requires
        0 <= from <= s.len(),
    ensures
        from + digit_prefix_len(s, from) <= s.len(),
    decreases s.len() - from,
{
    if from < s.len() && is_digit(s[from]) {
        lemma_digit_prefix_within(s, from + 1);
    }
}

/// A longer prefix of a digit run writes no smaller number.
pub proof fn lemma_decimal_value_grows(s: Seq<char>, shorter: int, longer: int)
    requires
        0 <= shorter <= longer <= s.len(),
    ensures
        decimal_value(s.take(shorter)) <= decimal_value(s.take(longer)),
    decreases longer - shorter,
{
    if shorter < longer {
        lemma_decimal_value_grows(s, shorter, longer - 1);
        assert(s.take(longer).drop_last() =~= s.take(longer - 1));
    }
}

fn is_letter_char(c: char) -> (b: bool)
    ensures
        b == is_letter(c),
{
    (c >= 'a' && c <= 'z') || (c >= 'A' && c <= 'Z')
}

fn is_digit_char(c: char) -> (b: bool)
    ensures
        b == is_digit(c),
{
    c >= '0' && c <= '9'
}

fn is_keyword_word(word: &String) -> (b: bool)
    ensures
        b == is_keyword(word@),
{
    let w = word.as_str();
    str_equals(w, "var") || str_equals(w, "begin") || str_equals(w, "end") || str_equals(
        w,
        "integer",
    ) || str_equals(w, "writeln")
}

/// A token sequence is never empty and ends with `EndOfInput`.
pub proof fn lemma_lex_ends_with_end_of_input(glyphs: Seq<Glyph>, pos: int)
    ensures
        lex_from(glyphs, pos) matches Ok(tokens) ==> tokens.len() > 0 && tokens.last()
            == TokenView::EndOfInput,
    decreases glyphs.len() - pos,
{
    if 0 <= pos < glyphs.len() {
        lemma_scan_advances(glyphs, pos);
        match scan_at(glyphs, pos) {
            Scan::Skip { next } => {
                lemma_lex_ends_with_end_of_input(glyphs, next);
            },
            Scan::Emit { token, next } => {
                lemma_lex_ends_with_end_of_input(glyphs, next);
            },
            Scan::Fail { error } => {},
        }
    }
}

/// A run that meets nothing to stop it goes to the end of the text.
pub proof fn lemma_run_to_end(glyphs: Seq<Glyph>, from: int, run: Run)
    requires
        0 <= from <= glyphs.len(),
        forall|i: int| from <= i < glyphs.len() ==> run.keeps(#[trigger] glyphs[i]),
    ensures
        from + run_len(glyphs, from, run) == glyphs.len(),
    decreases glyphs.len() - from,
{
    if from < glyphs.len() {
        lemma_run_to_end(glyphs, from + 1, run);
    }
}

/// A string literal that is never closed takes the rest of the text, in
/// either quote style, and the scan ends in the ordinary way after it.
pub proof fn lemma_unterminated_literal(glyphs: Seq<Glyph>, pos: int)
    requires
        0 <= pos < glyphs.len(),
        glyphs[pos].ch == '"' || glyphs[pos].ch == '\'',
        forall|i: int| pos < i < glyphs.len() ==> (#[trigger] glyphs[i]).ch != glyphs[pos].ch,
    ensures
        lex_from(glyphs, pos) == Ok::<Seq<TokenView>, LexError>(
            seq![
                TokenView::StringLiteral(text_between(glyphs, pos + 1, glyphs.len() as int)),
                TokenView::EndOfInput,
            ],
        ),
{
    lemma_run_to_end(glyphs, pos + 1, Run::Until(glyphs[pos].ch));
    let token = TokenView::StringLiteral(text_between(glyphs, pos + 1, glyphs.len() as int));
    assert(scan_at(glyphs, pos) == Scan::Emit { token, next: glyphs.len() as int });
    assert(lex_from(glyphs, glyphs.len() as int) == Ok::<Seq<TokenView>, LexError>(
        seq![TokenView::EndOfInput],
    ));
    assert(seq![token] + seq![TokenView::EndOfInput] =~= seq![token, TokenView::EndOfInput]);
}

/// Follows a run from `from` to its end.
fn run_end(glyphs: &Vec<Glyph>, from: usize, run: Run) -> (end: usize)
    requires
        from <= glyphs.len(),
    ensures
        end == from + run_len(glyphs@, from as int, run),
        end <= glyphs.len(),
{
    let mut end: usize = from;
    while end < glyphs.len() && run.admits(&glyphs[end])
        invariant
            from <= end <= glyphs.len(),
            from + run_len(glyphs@, from as int, run) == end + run_len(glyphs@, end as int, run),
        decreases glyphs.len() - end,
    {
        end = end + 1;
    }
    end
}

/// Copies the characters at the positions `from..to` into a string.
fn collect(glyphs: &Vec<Glyph>, from: usize, to: usize) -> (text: String)
    requires
        from <= to <= glyphs.len(),
    ensures
        text@ == text_between(glyphs@, from as int, to as int),
{
    let mut text = String::new();
    let mut at: usize = from;
    while at < to
        invariant
            from <= at <= to <= glyphs.len(),
            text@ == text_between(glyphs@, from as int, at as int),
        decreases to - at,
    {
        text.push(glyphs[at].ch);
        assert(text_between(glyphs@, from as int, at + 1) =~= text_between(
            glyphs@,
            from as int,
            at as int,
        ).push(glyphs@[at as int].ch));
        at = at + 1;
    }
    text
}

/// Reads the number run at the positions `from..to`.
fn read_integer(glyphs: &Vec<Glyph>, from: usize, to: usize) -> (r: Result<i32, LexError>)
    requires
        from <= to <= glyphs.len(),
    ensures
        r == integer_literal(text_between(glyphs@, from as int, to as int)),
{
    let ghost run = text_between(glyphs@, from as int, to as int);
    let mut value: i64 = 0;
    let mut at: usize = from;
    while at < to
        invariant
            from <= at <= to <= glyphs.len(),
            run == text_between(glyphs@, from as int, to as int),
            digit_prefix_len(run, 0) == (at - from) + digit_prefix_len(run, at - from),
            value == decimal_value(run.take(at - from)),
            0 <= value <= i32::MAX,
        decreases to - at,
    {
        let c = glyphs[at].ch;
        assert(run[at - from] == c);
        if !is_digit_char(c) {
            return Err(LexError::UnexpectedCharacter(c));
        }
        let digit: i64 = (c as u32 - '0' as u32) as i64;
        let next: i64 = value * 10 + digit;
        proof {
            assert(run.take(at - from + 1).drop_last() =~= run.take(at - from));
            assert(decimal_value(run.take(at - from + 1)) == next);
        }
        if next > i32::MAX as i64 {
            proof {
                let digits = digit_prefix_len(run, 0) as int;
                lemma_digit_prefix_within(run, at - from + 1);
                lemma_decimal_value_grows(run, at - from + 1, digits);
            }
            return Err(LexError::IntegerOverflow);
        }
        value = next;
        at = at + 1;
    }
    assert(run.take(to - from) =~= run);
    Ok(value as i32)
}

/// Scans a classified text into its tokens. The result ends with
/// `EndOfInput`; the first character that fits no rule, or the first number
/// that does not fit, ends the scan with an error and no tokens.
pub fn tokenize_glyphs(glyphs: &Vec<Glyph>) -> (r: Result<Vec<Token>, LexError>)
    ensures
        lexed(r, lex(glyphs@)),
        r matches Ok(tokens) ==> tokens@.len() > 0 && tokens@.last()@ == TokenView::EndOfInput,
{
    let mut tokens: Vec<Token> = Vec::new();
    let mut pos: usize = 0;
    while pos < glyphs.len()
        invariant
            pos <= glyphs.len(),
            lex(glyphs@) == prepend(token_views(tokens@), lex_from(glyphs@, pos as int)),
        decreases glyphs.len() - pos,
    {
        let ghost before = token_views(tokens@);
        let c = glyphs[pos].ch;
        let mut emitted: Option<Token> = None;
        let next: usize;
        if is_letter_char(c) {
            let end = run_end(glyphs, pos + 1, Run::Alphanumeric);
            let word = collect(glyphs, pos, end);
            if is_keyword_word(&word) {
                emitted = Some(Token::Keyword(word));
            } else {
                emitted = Some(Token::Identifier(word));
            }
            next = end;
        } else if is_digit_char(c) {
            let end = run_end(glyphs, pos + 1, Run::Numeric);
            match read_integer(glyphs, pos, end) {
                Ok(value) => {
                    emitted = Some(Token::IntegerLiteral(value));
                },
                Err(error) => {
                    return Err(error);
                },
            }
            next = end;
        } else if c == '"' {
            // The closing quote is taken together with the text.
            let end = run_end(glyphs, pos + 1, Run::Until('"'));
            emitted = Some(Token::StringLiteral(collect(glyphs, pos + 1, end)));
            next = if end < glyphs.len() {
                end + 1
            } else {
                end
            };
        } else if c == '+' || c == '-' || c == '*' || c == '/' {
            emitted = Some(Token::Symbol(c));
            next = pos + 1;
        } else if c == '\'' {
            // The text stops before the quote; then one position is dropped,
            // if there is one.
            let end = run_end(glyphs, pos + 1, Run::Until('\''));
            emitted = Some(Token::StringLiteral(collect(glyphs, pos + 1, end)));
            next = if end < glyphs.len() {
                end + 1
            } else {
                end
            };
        } else if c == ':' {
            if pos + 1 < glyphs.len() && glyphs[pos + 1].ch == '=' {
                emitted = Some(Token::Assignment);
                next = pos + 2;
            } else {
                emitted = Some(Token::Symbol(':'));
                next = pos + 1;
            }
        } else if c == ';' || c == '(' || c == ')' || c == ',' {
            emitted = Some(Token::Symbol(c));
            next = pos + 1;
        } else if glyphs[pos].whitespace {
            next = pos + 1;
        } else {
            return Err(LexError::UnexpectedCharacter(c));
        }
        match emitted {
            Some(token) => {
                assert(scan_at(glyphs@, pos as int) == Scan::Emit {
                    token: token@,
                    next: next as int,
                });
                tokens.push(token);
                proof {
                    let after = lex_from(glyphs@, next as int);
                    assert(token_views(tokens@) =~= before.push(token@));
                    if let Ok(more) = after {
                        assert(before + (seq![token@] + more) =~= before.push(token@) + more);
                    }
                }
            },
            None => {
                assert(scan_at(glyphs@, pos as int) == Scan::Skip { next: next as int });
            },
        }
        pos = next;
    }
    let ghost before = token_views(tokens@);
    tokens.push(Token::EndOfInput);
    assert(token_views(tokens@) =~= before + seq![TokenView::EndOfInput]);
    Ok(tokens)
}

/// Converts source text into its tokens.
///
/// Every character is first classified by Unicode, then the classified text
/// is scanned as `tokenize_glyphs` does.
pub fn tokenize(input: &str) -> (r: Result<Vec<Token>, LexError>)
    ensures
        lexed(r, lex(classified(input@))),
        r matches Ok(tokens) ==> tokens@.len() > 0 && tokens@.last()@ == TokenView::EndOfInput,
{
    let glyphs = classify_text(input);
    tokenize_glyphs(&glyphs)
}

} // verus!
