//! The tokenizer: converts one source line into a line-number-tagged sequence
//! of (column, token) pairs.

use vstd::prelude::*;

use crate::numerals::{
    i32_literal_value, is_digit, is_i32_literal, is_u32_literal, parse_i32_chars, parse_u32_chars,
    u32_literal_value,
};
use crate::parser::tok_pairs_view;
use crate::text::{chars_to_string, str_to_chars};
use crate::token::{option_token_view, spec_to_token, Token, TokenV};

verus! {

/// Whitespace, as the tokenizer skips it: the characters of the Unicode
/// White_Space property, as `char::is_whitespace` reports them.
pub open spec fn is_space(c: char) -> bool {
    c == ' ' || ('\t' <= c && c <= '\r') || c == '\u{85}' || c == '\u{A0}' || c == '\u{1680}' || (
    '\u{2000}' <= c && c <= '\u{200A}') || c == '\u{2028}' || c == '\u{2029}' || c == '\u{202F}'
        || c == '\u{205F}' || c == '\u{3000}'
}

/// A letter, as identifiers may start with.
pub open spec fn is_alpha(c: char) -> bool {
    ('a' <= c && c <= 'z') || ('A' <= c && c <= 'Z')
}

/// A character identifiers may continue with.
pub open spec fn is_ident_char(c: char) -> bool {
    is_alpha(c) || is_digit(c) || c == '_'
}

/// A valid identifier: a letter, then letters, digits or underscores.
pub open spec fn spec_is_identifier(s: Seq<char>) -> bool {
    s.len() > 0 && is_alpha(s[0]) && (forall|i: int| 1 <= i < s.len() ==> is_ident_char(
        #[trigger] s[i],
    ))
}

fn is_space_exec(c: char) -> (r: bool)
    ensures
        r == is_space(c),
{
    c == ' ' || ('\t' <= c && c <= '\r') || c == '\u{85}' || c == '\u{A0}' || c == '\u{1680}' || (
    '\u{2000}' <= c && c <= '\u{200A}') || c == '\u{2028}' || c == '\u{2029}' || c == '\u{202F}'
        || c == '\u{205F}' || c == '\u{3000}'
}

fn is_digit_exec(c: char) -> (r: bool)
    ensures
        r == is_digit(c),
{
    '0' <= c && c <= '9'
}

fn is_alpha_exec(c: char) -> (r: bool)
    ensures
        r == is_alpha(c),
{
    ('a' <= c && c <= 'z') || ('A' <= c && c <= 'Z')
}

/// Checks that a character run is lexically a valid identifier.
pub fn is_valid(token_string: &str) -> (r: bool)
    ensures
        r == spec_is_identifier(token_string@),
{
    let chars = str_to_chars(token_string);
    is_valid_chars(&chars)
}

fn is_valid_chars(chars: &Vec<char>) -> (r: bool)
    ensures
        r == spec_is_identifier(chars@),
{
    if chars.len() == 0 {
        return false;
    }
    if !is_alpha_exec(chars[0]) {
        return false;
    }
    let n = chars.len();
    let mut i: usize = 1;
    while i < n
        invariant
            1 <= i <= n,
            n == chars@.len(),
            forall|k: int| 1 <= k < i ==> is_ident_char(#[trigger] chars@[k]),
        decreases n - i,
    {
        let c = chars[i];
        if !(is_alpha_exec(c) || is_digit_exec(c) || c == '_') {
            return false;
        }
        i += 1;
    }
    true
}

/// An error raised while tokenizing one source line.
#[derive(Debug)]
pub enum LexError {
    /// The line does not start with a digit; carries the line's raw text.
    MissingLineNumber { line: String },
    /// The leading numeral is malformed (or does not fit); carries the raw
    /// text.
    MalformedLineNumber { line: String },
    /// A character run that is no literal, keyword or identifier, at this
    /// column; carries the run's text.
    UnrecognizedToken { column: u32, token: String },
}

/// The mathematical image of a [`LexError`].
pub enum LexErrorV {
    MissingLineNumber { line: Seq<char> },
    MalformedLineNumber { line: Seq<char> },
    UnrecognizedToken { column: u32, token: Seq<char> },
}

impl View for LexError {
    type V = LexErrorV;

    open spec fn view(&self) -> LexErrorV {
        match self {
            LexError::MissingLineNumber { line } => LexErrorV::MissingLineNumber { line: line@ },
            LexError::MalformedLineNumber { line } => LexErrorV::MalformedLineNumber {
                line: line@,
            },
            LexError::UnrecognizedToken { column, token } => LexErrorV::UnrecognizedToken {
                column: *column,
                token: token@,
            },
        }
    }
}

/// One tokenized statement: its line number and its (column, token) pairs.
#[derive(Debug)]
pub struct Instruction {
    pub line_number: u32,
    pub tokens: Vec<(u32, Token)>,
}

/// The mathematical image of an [`Instruction`].
pub struct InstructionV {
    pub line_number: u32,
    pub tokens: Seq<(u32, TokenV)>,
}

impl View for Instruction {
    type V = InstructionV;

    open spec fn view(&self) -> InstructionV {
        InstructionV { line_number: self.line_number, tokens: tok_pairs_view(self.tokens@) }
    }
}

/// The first position at or after `i` holding whitespace, or the line's end.
pub open spec fn space_end(line: Seq<char>, i: int) -> int
    decreases line.len() - i,
{
    if i < 0 || i >= line.len() {
        line.len() as int
    } else if is_space(line[i]) {
        i
    } else {
        space_end(line, i + 1)
    }
}

/// The first position at or after `i` holding a double quote, or the line's
/// end.
pub open spec fn quote_end(line: Seq<char>, i: int) -> int
    decreases line.len() - i,
{
    if i < 0 || i >= line.len() {
        line.len() as int
    } else if line[i] == '"' {
        i
    } else {
        quote_end(line, i + 1)
    }
}

/// The first position at or after `i` ending a greedy character run:
/// whitespace or a right parenthesis, or the line's end.
pub open spec fn run_end(line: Seq<char>, i: int) -> int
    decreases line.len() - i,
{
    if i < 0 || i >= line.len() {
        line.len() as int
    } else if is_space(line[i]) || line[i] == ')' {
        i
    } else {
        run_end(line, i + 1)
    }
}

proof fn lemma_space_end_bounds(line: Seq<char>, i: int)
    requires
        0 <= i <= line.len(),
    ensures
        i <= space_end(line, i) <= line.len(),
    decreases line.len() - i,
{
    if i < line.len() && !is_space(line[i]) {
        lemma_space_end_bounds(line, i + 1);
    }
}

proof fn lemma_quote_end_bounds(line: Seq<char>, i: int)
    requires
        0 <= i <= line.len(),
    ensures
        i <= quote_end(line, i) <= line.len(),
    decreases line.len() - i,
{
    if i < line.len() && line[i] != '"' {
        lemma_quote_end_bounds(line, i + 1);
    }
}

proof fn lemma_run_end_bounds(line: Seq<char>, i: int)
    requires
        0 <= i <= line.len(),
    ensures
        i <= run_end(line, i) <= line.len(),
    decreases line.len() - i,
{
    if i < line.len() && !(is_space(line[i]) || line[i] == ')') {
        lemma_run_end_bounds(line, i + 1);
    }
}

proof fn lemma_space_end_at(line: Seq<char>, i: int, j: int)
    requires
        0 <= i <= j <= line.len(),
        forall|k: int| i <= k < j ==> !is_space(#[trigger] line[k]),
        j < line.len() ==> is_space(line[j]),
    ensures
        space_end(line, i) == j,
    decreases j - i,
{
    if i < j {
        lemma_space_end_at(line, i + 1, j);
    }
}

proof fn lemma_quote_end_at(line: Seq<char>, i: int, j: int)
    requires
        0 <= i <= j <= line.len(),
        forall|k: int| i <= k < j ==> #[trigger] line[k] != '"',
        j < line.len() ==> line[j] == '"',
    ensures
        quote_end(line, i) == j,
    decreases j - i,
{
    if i < j {
        lemma_quote_end_at(line, i + 1, j);
    }
}

proof fn lemma_run_end_at(line: Seq<char>, i: int, j: int)
    requires
        0 <= i <= j <= line.len(),
        forall|k: int| i <= k < j ==> !(is_space(#[trigger] line[k]) || line[k] == ')'),
        j < line.len() ==> (is_space(line[j]) || line[j] == ')'),
    ensures
        run_end(line, i) == j,
    decreases j - i,
{
    if i < j {
        lemma_run_end_at(line, i + 1, j);
    }
}

/// The scan of a line's statement part from position `i`, with the tokens
/// emitted so far and whether the token last emitted was a value (which
/// decides how a minus sign is read). Whitespace is skipped; a double quote
/// opens a text literal running to the next quote or the line's end; the
/// fixed single characters yield their tokens; any other character starts a
/// greedy run ended by whitespace or a right parenthesis, read first as a
/// number, then as a keyword or operator (REM consumes the rest of the line
/// as a comment and ends the scan), then as an identifier.
pub open spec fn spec_scan(
    line: Seq<char>,
    i: int,
    last_value: bool,
    acc: Seq<(u32, TokenV)>,
) -> Result<Seq<(u32, TokenV)>, LexErrorV>
    decreases line.len() - i,
    via spec_scan_decreases
{
    if i < 0 || i >= line.len() {
        Ok(acc)
    } else {
        let c = line[i];
        if is_space(c) {
            spec_scan(line, i + 1, last_value, acc)
        } else if c == '"' {
            let k = quote_end(line, i + 1);
            let text = line.subrange(i + 1, k);
            let next = if k < line.len() {
                k + 1
            } else {
                k
            };
            spec_scan(line, next, true, acc.push((i as u32, TokenV::Text(text))))
        } else if c == '-' {
            let tok = if last_value {
                TokenV::Minus
            } else {
                TokenV::UnaryMinus
            };
            spec_scan(line, i + 1, false, acc.push((i as u32, tok)))
        } else if c == '!' {
            spec_scan(line, i + 1, false, acc.push((i as u32, TokenV::Bang)))
        } else if c == '(' {
            spec_scan(line, i + 1, false, acc.push((i as u32, TokenV::Lparen)))
        } else if c == ')' {
            spec_scan(line, i + 1, false, acc.push((i as u32, TokenV::Rparen)))
        } else if c == ',' {
            spec_scan(line, i + 1, false, acc.push((i as u32, TokenV::Comma)))
        } else {
            let r = run_end(line, i + 1);
            let run = line.subrange(i, r);
            if is_i32_literal(run) {
                spec_scan(
                    line,
                    r,
                    true,
                    acc.push((i as u32, TokenV::Number(i32_literal_value(run)))),
                )
            } else {
                match spec_to_token(run) {
                    Some(TokenV::Rem) => {
                        let comment = if r + 1 <= line.len() {
                            line.subrange(r + 1, line.len() as int)
                        } else {
                            Seq::empty()
                        };
                        Ok(
                            acc.push((i as u32, TokenV::Rem)).push(
                                ((i + 4) as u32, TokenV::Comment(comment)),
                            ),
                        )
                    },
                    Some(tok) => spec_scan(line, r, false, acc.push((i as u32, tok))),
                    None => if spec_is_identifier(run) {
                        spec_scan(line, r, true, acc.push((i as u32, TokenV::Variable(run))))
                    } else {
                        Err(LexErrorV::UnrecognizedToken { column: i as u32, token: run })
                    },
                }
            }
        }
    }
}

#[via_fn]
proof fn spec_scan_decreases(line: Seq<char>, i: int, last_value: bool, acc: Seq<(u32, TokenV)>) {
    if 0 <= i < line.len() {
        lemma_quote_end_bounds(line, i + 1);
        lemma_run_end_bounds(line, i + 1);
    }
}

/// The tokenization of one source line: an empty line is the blank statement
/// at address zero; otherwise the line number is the run of leading digits
/// ended by whitespace, read as an unsigned 32-bit numeral, and the rest of
/// the line is scanned into (column, token) pairs.
pub open spec fn spec_tokenize_line(line: Seq<char>) -> Result<InstructionV, LexErrorV> {
    if line.len() == 0 {
        Ok(InstructionV { line_number: 0, tokens: Seq::empty() })
    } else if !is_digit(line[0]) {
        Err(LexErrorV::MissingLineNumber { line })
    } else {
        let j = space_end(line, 1);
        let digits = line.subrange(0, j);
        if is_u32_literal(digits) {
            match spec_scan(line, j + 1, false, Seq::empty()) {
                Ok(tokens) => Ok(InstructionV { line_number: u32_literal_value(digits), tokens }),
                Err(e) => Err(e),
            }
        } else {
            Err(LexErrorV::MalformedLineNumber { line })
        }
    }
}

/// Tokenizes one source line. Columns are character positions and must fit in
/// `u32` with room for the small fixed offsets used in error positions.
#[verifier::loop_isolation(false)]
pub fn tokenize_line(line: &str) -> (r: Result<Instruction, LexError>)
    requires
        line@.len() + 4 <= u32::MAX,
    ensures
        r matches Ok(inst) ==> spec_tokenize_line(line@) == Ok::<_, LexErrorV>(inst@),
        r matches Err(e) ==> spec_tokenize_line(line@) == Err::<InstructionV, _>(e@),
{
    let chars = str_to_chars(line);
    let n = chars.len();
    if n == 0 {
        let inst = Instruction { line_number: 0, tokens: Vec::new() };
        proof {
            assert(inst@.tokens =~= Seq::<(u32, TokenV)>::empty());
        }
        return Ok(inst);
    }
    if !is_digit_exec(chars[0]) {
        return Err(LexError::MissingLineNumber { line: line.to_owned() });
    }
    // the line number: the run of leading digits ended by whitespace
    let mut j: usize = 1;
    while j < n && !is_space_exec(chars[j])
        invariant
            1 <= j <= n,
            forall|k: int| 1 <= k < j ==> !is_space(#[trigger] line@[k]),
        decreases n - j,
    {
        j += 1;
    }
    proof {
        lemma_space_end_at(line@, 1, j as int);
    }
    let mut digits: Vec<char> = Vec::new();
    let mut d: usize = 0;
    while d < j
        invariant
            0 <= d <= j <= n,
            digits@ == line@.subrange(0, d as int),
        decreases j - d,
    {
        digits.push(chars[d]);
        proof {
            assert(digits@ =~= line@.subrange(0, d + 1));
        }
        d += 1;
    }
    let line_number = match parse_u32_chars(digits.as_slice()) {
        Some(v) => v,
        None => {
            return Err(LexError::MalformedLineNumber { line: line.to_owned() });
        },
    };
    // the statement part, scanned from just past the terminating whitespace
    let mut tokens: Vec<(u32, Token)> = Vec::new();
    let mut last_value = false;
    let mut i: usize = if j < n {
        j + 1
    } else {
        n
    };
    proof {
        assert(tok_pairs_view(tokens@) =~= Seq::<(u32, TokenV)>::empty());
        assert(spec_scan(line@, j + 1 as int, false, Seq::empty()) == spec_scan(
            line@,
            i as int,
            false,
            Seq::empty(),
        ));
    }
    while i < n
        invariant
            0 <= i <= n,
            spec_scan(line@, j + 1 as int, false, Seq::empty()) == spec_scan(
                line@,
                i as int,
                last_value,
                tok_pairs_view(tokens@),
            ),
        decreases n - i,
    {
        let ghost acc0 = tok_pairs_view(tokens@);
        let c = chars[i];
        if is_space_exec(c) {
            i += 1;
        } else if c == '"' {
            // a text literal runs verbatim to the next quote or the line end
            let mut k: usize = i + 1;
            while k < n && chars[k] != '"'
                invariant
                    i + 1 <= k <= n,
                    forall|q: int| i + 1 <= q < k ==> #[trigger] line@[q] != '"',
                decreases n - k,
            {
                k += 1;
            }
            proof {
                lemma_quote_end_at(line@, i + 1 as int, k as int);
            }
            let mut text: Vec<char> = Vec::new();
            let mut q: usize = i + 1;
            while q < k
                invariant
                    i + 1 <= q <= k,
                    text@ == line@.subrange(i + 1 as int, q as int),
                decreases k - q,
            {
                text.push(chars[q]);
                proof {
                    assert(text@ =~= line@.subrange(i + 1 as int, q + 1));
                }
                q += 1;
            }
            let text_string = chars_to_string(&text);
            tokens.push((i as u32, Token::Text(text_string)));
            proof {
                assert(tok_pairs_view(tokens@) =~= acc0.push(
                    (i as u32, TokenV::Text(line@.subrange(i + 1 as int, k as int))),
                ));
            }
            last_value = true;
            i = if k < n {
                k + 1
            } else {
                k
            };
        } else if c == '-' {
            let tok = if last_value {
                Token::Minus
            } else {
                Token::UnaryMinus
            };
            let ghost tokv = tok@;
            tokens.push((i as u32, tok));
            proof {
                assert(tok_pairs_view(tokens@) =~= acc0.push((i as u32, tokv)));
            }
            last_value = false;
            i += 1;
        } else if c == '!' {
            tokens.push((i as u32, Token::Bang));
            proof {
                assert(tok_pairs_view(tokens@) =~= acc0.push((i as u32, TokenV::Bang)));
            }
            last_value = false;
            i += 1;
        } else if c == '(' {
            tokens.push((i as u32, Token::Lparen));
            proof {
                assert(tok_pairs_view(tokens@) =~= acc0.push((i as u32, TokenV::Lparen)));
            }
            last_value = false;
            i += 1;
        } else if c == ')' {
            tokens.push((i as u32, Token::Rparen));
            proof {
                assert(tok_pairs_view(tokens@) =~= acc0.push((i as u32, TokenV::Rparen)));
            }
            last_value = false;
            i += 1;
        } else if c == ',' {
            tokens.push((i as u32, Token::Comma));
            proof {
                assert(tok_pairs_view(tokens@) =~= acc0.push((i as u32, TokenV::Comma)));
            }
            last_value = false;
            i += 1;
        } else {
            // a greedy run, ended by whitespace or a right parenthesis
            let mut r: usize = i + 1;
            while r < n && !(is_space_exec(chars[r]) || chars[r] == ')')
                invariant
                    i + 1 <= r <= n,
                    forall|q: int|
                        i + 1 <= q < r ==> !(is_space(#[trigger] line@[q]) || line@[q] == ')'),
                decreases n - r,
            {
                r += 1;
            }
            proof {
                lemma_run_end_at(line@, i + 1 as int, r as int);
            }
            let mut run: Vec<char> = Vec::new();
            let mut q: usize = i;
            while q < r
                invariant
                    i <= q <= r,
                    run@ == line@.subrange(i as int, q as int),
                decreases r - q,
            {
                run.push(chars[q]);
                proof {
                    assert(run@ =~= line@.subrange(i as int, q + 1));
                }
                q += 1;
            }
            match parse_i32_chars(run.as_slice()) {
                Some(v) => {
                    tokens.push((i as u32, Token::Number(v)));
                    proof {
                        assert(tok_pairs_view(tokens@) =~= acc0.push(
                            (i as u32, TokenV::Number(v)),
                        ));
                    }
                    last_value = true;
                    i = r;
                },
                None => {
                    let run_string = chars_to_string(&run);
                    match Token::to_token(run_string.as_str()) {
                        Some(tok) => {
                            if matches!(tok, Token::Rem) {
                                // REM: the rest of the line is the comment
                                tokens.push((i as u32, Token::Rem));
                                let mut comment: Vec<char> = Vec::new();
                                if r < n {
                                    let mut q2: usize = r + 1;
                                    while q2 < n
                                        invariant
                                            r + 1 <= q2 <= n,
                                            comment@ == line@.subrange(r + 1 as int, q2 as int),
                                        decreases n - q2,
                                    {
                                        comment.push(chars[q2]);
                                        proof {
                                            assert(comment@ =~= line@.subrange(
                                                r + 1 as int,
                                                q2 + 1,
                                            ));
                                        }
                                        q2 += 1;
                                    }
                                    proof {
                                        assert(comment@ =~= line@.subrange(
                                            r + 1 as int,
                                            n as int,
                                        ));
                                    }
                                } else {
                                    proof {
                                        assert(comment@ =~= Seq::<char>::empty());
                                    }
                                }
                                let comment_string = chars_to_string(&comment);
                                tokens.push(((i + 4) as u32, Token::Comment(comment_string)));
                                proof {
                                    let commentv = if r + 1 <= line@.len() {
                                        line@.subrange(r + 1 as int, line@.len() as int)
                                    } else {
                                        Seq::<char>::empty()
                                    };
                                    assert(comment@ == commentv);
                                    assert(tok_pairs_view(tokens@) =~= acc0.push(
                                        (i as u32, TokenV::Rem),
                                    ).push(((i + 4) as u32, TokenV::Comment(commentv))));
                                }
                                return Ok(Instruction { line_number, tokens });
                            }
                            let ghost tokv = tok@;
                            tokens.push((i as u32, tok));
                            proof {
                                assert(tok_pairs_view(tokens@) =~= acc0.push((i as u32, tokv)));
                            }
                            last_value = false;
                            i = r;
                        },
                        None => {
                            if is_valid_chars(&run) {
                                tokens.push((i as u32, Token::Variable(run_string)));
                                proof {
                                    assert(tok_pairs_view(tokens@) =~= acc0.push(
                                        (i as u32, TokenV::Variable(line@.subrange(
                                            i as int,
                                            r as int,
                                        ))),
                                    ));
                                }
                                last_value = true;
                                i = r;
                            } else {
                                return Err(
                                    LexError::UnrecognizedToken {
                                        column: i as u32,
                                        token: run_string,
                                    },
                                );
                            }
                        },
                    }
                },
            }
        }
    }
    Ok(Instruction { line_number, tokens })
}

} // verus!

verus! {

/// The token components of a scan's output, columns dropped.
pub open spec fn scan_token_values(toks: Seq<(u32, TokenV)>) -> Seq<TokenV> {
    toks.map_values(|p: (u32, TokenV)| p.1)
}

/// No token carries verbatim source text: neither a text literal nor a
/// comment, whose characters include any whitespace inside them.
pub open spec fn no_verbatim_tokens(toks: Seq<(u32, TokenV)>) -> bool {
    forall|k: int|
        0 <= k < toks.len() ==> !((#[trigger] toks[k]).1 is Text) && !(toks[k].1 is Comment)
}

proof fn lemma_space_end_props(line: Seq<char>, i: int)
    requires
        0 <= i <= line.len(),
    ensures
        i <= space_end(line, i) <= line.len(),
        forall|k: int| i <= k < space_end(line, i) ==> !is_space(#[trigger] line[k]),
        space_end(line, i) < line.len() ==> is_space(line[space_end(line, i)]),
    decreases line.len() - i,
{
    if i < line.len() && !is_space(line[i]) {
        lemma_space_end_props(line, i + 1);
    }
}

proof fn lemma_run_end_props(line: Seq<char>, i: int)
    requires
        0 <= i <= line.len(),
    ensures
        i <= run_end(line, i) <= line.len(),
        forall|k: int|
            i <= k < run_end(line, i) ==> !(is_space(#[trigger] line[k]) || line[k] == ')'),
        run_end(line, i) < line.len() ==> (is_space(line[run_end(line, i)]) || line[run_end(
            line,
            i,
        )] == ')'),
    decreases line.len() - i,
{
    if i < line.len() && !(is_space(line[i]) || line[i] == ')') {
        lemma_run_end_props(line, i + 1);
    }
}

/// A successful scan only ever extends the tokens accumulated so far.
proof fn lemma_scan_extends(line: Seq<char>, i: int, last_value: bool, acc: Seq<(u32, TokenV)>)
    ensures
        spec_scan(line, i, last_value, acc) matches Ok(res) ==> res.len() >= acc.len()
            && res.take(acc.len() as int) == acc,
    decreases line.len() - i,
{
    if 0 <= i < line.len() {
        let c = line[i];
        if is_space(c) {
            lemma_scan_extends(line, i + 1, last_value, acc);
        } else if c == '"' {
            let k = quote_end(line, i + 1);
            lemma_quote_end_bounds(line, i + 1);
            let text = line.subrange(i + 1, k);
            let next = if k < line.len() {
                k + 1
            } else {
                k
            };
            let acc2 = acc.push((i as u32, TokenV::Text(text)));
            lemma_scan_extends(line, next, true, acc2);
            match spec_scan(line, i, last_value, acc) {
                Ok(res) => {
                    assert(res.take(acc2.len() as int).take(acc.len() as int) =~= res.take(
                        acc.len() as int,
                    ));
                    assert(acc2.take(acc.len() as int) =~= acc);
                },
                Err(_) => {},
            }
        } else if c == '-' || c == '!' || c == '(' || c == ')' || c == ',' {
            let tok = if c == '-' {
                if last_value {
                    TokenV::Minus
                } else {
                    TokenV::UnaryMinus
                }
            } else if c == '!' {
                TokenV::Bang
            } else if c == '(' {
                TokenV::Lparen
            } else if c == ')' {
                TokenV::Rparen
            } else {
                TokenV::Comma
            };
            let acc2 = acc.push((i as u32, tok));
            lemma_scan_extends(line, i + 1, false, acc2);
            match spec_scan(line, i, last_value, acc) {
                Ok(res) => {
                    assert(res.take(acc2.len() as int).take(acc.len() as int) =~= res.take(
                        acc.len() as int,
                    ));
                    assert(acc2.take(acc.len() as int) =~= acc);
                },
                Err(_) => {},
            }
        } else {
            let r = run_end(line, i + 1);
            lemma_run_end_bounds(line, i + 1);
            let run = line.subrange(i, r);
            if is_i32_literal(run) {
                let acc2 = acc.push((i as u32, TokenV::Number(i32_literal_value(run))));
                lemma_scan_extends(line, r, true, acc2);
                match spec_scan(line, i, last_value, acc) {
                    Ok(res) => {
                        assert(res.take(acc2.len() as int).take(acc.len() as int) =~= res.take(
                            acc.len() as int,
                        ));
                        assert(acc2.take(acc.len() as int) =~= acc);
                    },
                    Err(_) => {},
                }
            } else {
                match spec_to_token(run) {
                    Some(TokenV::Rem) => {
                        match spec_scan(line, i, last_value, acc) {
                            Ok(res) => {
                                assert(res.take(acc.len() as int) =~= acc);
                            },
                            Err(_) => {},
                        }
                    },
                    Some(tok) => {
                        let acc2 = acc.push((i as u32, tok));
                        lemma_scan_extends(line, r, false, acc2);
                        match spec_scan(line, i, last_value, acc) {
                            Ok(res) => {
                                assert(res.take(acc2.len() as int).take(acc.len() as int)
                                    =~= res.take(acc.len() as int));
                                assert(acc2.take(acc.len() as int) =~= acc);
                            },
                            Err(_) => {},
                        }
                    },
                    None => {
                        if spec_is_identifier(run) {
                            let acc2 = acc.push((i as u32, TokenV::Variable(run)));
                            lemma_scan_extends(line, r, true, acc2);
                            match spec_scan(line, i, last_value, acc) {
                                Ok(res) => {
                                    assert(res.take(acc2.len() as int).take(acc.len() as int)
                                        =~= res.take(acc.len() as int));
                                    assert(acc2.take(acc.len() as int) =~= acc);
                                },
                                Err(_) => {},
                            }
                        }
                    },
                }
            }
        }
    } else {
        match spec_scan(line, i, last_value, acc) {
            Ok(res) => {
                assert(res.take(acc.len() as int) =~= acc);
            },
            Err(_) => {},
        }
    }
}

} // verus!

verus! {

/// Collapsing one of two adjacent whitespace characters changes no token the
/// scan emits, as long as the statement carries no verbatim text (a text
/// literal or comment keeps its inner whitespace, width included). Columns
/// shift; the token values do not.
#[verifier::rlimit(100)]
proof fn lemma_scan_collapse(
    l1: Seq<char>,
    i: int,
    p: int,
    last_value: bool,
    acc1: Seq<(u32, TokenV)>,
    acc2: Seq<(u32, TokenV)>,
    res1: Seq<(u32, TokenV)>,
)
    requires
        0 <= i,
        i + 1 < l1.len(),
        is_space(l1[i]),
        is_space(l1[i + 1]),
        0 <= p <= l1.len(),
        spec_scan(l1, p, last_value, acc1) == Ok::<_, LexErrorV>(res1),
        no_verbatim_tokens(res1),
        scan_token_values(acc1) == scan_token_values(acc2),
    ensures
        ({
            let l2 = l1.remove(i);
            let p2: int = if p <= i {
                p
            } else {
                p - 1
            };
            spec_scan(l2, p2, last_value, acc2) matches Ok(res2) && scan_token_values(res2)
                == scan_token_values(acc2) + scan_token_values(res1).skip(acc1.len() as int)
                && scan_token_values(acc2) + scan_token_values(res1).skip(acc1.len() as int)
                == scan_token_values(res1)
        }),
    decreases l1.len() - p,
{
    l1.remove_ensures(i);
    let l2 = l1.remove(i);
    let p2: int = if p <= i {
        p
    } else {
        p - 1
    };
    assert(forall|k: int| 0 <= k < i ==> l2[k] == l1[k]);
    assert(forall|k: int| i <= k < l2.len() ==> l2[k] == l1[k + 1]);
    assert(scan_token_values(acc1).len() == acc1.len());
    assert(scan_token_values(acc2).len() == acc2.len());
    lemma_scan_extends(l1, p, last_value, acc1);
    if p >= l1.len() {
        assert(res1 == acc1);
        assert(scan_token_values(res1).skip(acc1.len() as int) =~= Seq::<TokenV>::empty());
        assert(scan_token_values(acc2) + scan_token_values(res1).skip(acc1.len() as int)
            =~= scan_token_values(acc2));
    } else {
        let c = l1[p];
        if is_space(c) {
            lemma_scan_collapse(l1, i, p + 1, last_value, acc1, acc2, res1);
            if p < i {
                assert(l2[p] == c);
                assert(spec_scan(l2, p, last_value, acc2) == spec_scan(l2, p + 1, last_value, acc2));
            } else if p == i {
                // the scan of the shortened line has not moved yet
            } else if p == i + 1 {
                assert(l2[i] == l1[i + 1]);
                assert(spec_scan(l2, i, last_value, acc2) == spec_scan(l2, i + 1, last_value, acc2));
            } else {
                assert(l2[p - 1] == c);
                assert(spec_scan(l2, p - 1, last_value, acc2) == spec_scan(l2, p, last_value, acc2));
            }
        } else if c == '"' {
            // a text token would reach the result, against the hypothesis
            lemma_quote_end_bounds(l1, p + 1);
            let k = quote_end(l1, p + 1);
            let text = l1.subrange(p + 1, k);
            let next = if k < l1.len() {
                k + 1
            } else {
                k
            };
            let acc1b = acc1.push((p as u32, TokenV::Text(text)));
            lemma_scan_extends(l1, next, true, acc1b);
            assert(res1.take(acc1b.len() as int)[acc1.len() as int] == (
                p as u32,
                TokenV::Text(text),
            ));
            assert(res1[acc1.len() as int].1 is Text);
            assert(false);
        } else if c == '-' || c == '!' || c == '(' || c == ')' || c == ',' {
            assert(p != i && p != i + 1);
            let tok = if c == '-' {
                if last_value {
                    TokenV::Minus
                } else {
                    TokenV::UnaryMinus
                }
            } else if c == '!' {
                TokenV::Bang
            } else if c == '(' {
                TokenV::Lparen
            } else if c == ')' {
                TokenV::Rparen
            } else {
                TokenV::Comma
            };
            let acc1b = acc1.push((p as u32, tok));
            let acc2b = acc2.push((p2 as u32, tok));
            assert(scan_token_values(acc1b) =~= scan_token_values(acc1).push(tok));
            assert(scan_token_values(acc2b) =~= scan_token_values(acc2).push(tok));
            lemma_scan_collapse(l1, i, p + 1, false, acc1b, acc2b, res1);
            assert(l2[p2] == c);
            assert(spec_scan(l2, p2, last_value, acc2) == spec_scan(l2, p2 + 1, false, acc2b));
            lemma_scan_extends(l1, p + 1, false, acc1b);
            assert(scan_token_values(res1).skip(acc1.len() as int) =~= seq![tok]
                + scan_token_values(res1).skip(acc1b.len() as int)) by {
                assert(res1.take(acc1b.len() as int)[acc1.len() as int] == (p as u32, tok));
                assert(res1[acc1.len() as int] == (p as u32, tok));
            }
            assert(scan_token_values(acc2) + scan_token_values(res1).skip(acc1.len() as int)
                =~= scan_token_values(acc2b) + scan_token_values(res1).skip(acc1b.len() as int));
        } else {
            assert(p != i && p != i + 1);
            lemma_run_end_props(l1, p + 1);
            let r = run_end(l1, p + 1);
            let run = l1.subrange(p, r);
            if p < i {
                // the run stops at or before the removed whitespace
                assert(r <= i) by {
                    if r > i {
                        assert(!(is_space(l1[i]) || l1[i] == ')'));
                    }
                }
                assert(run_end(l2, p + 1) == r) by {
                    if r < l2.len() {
                        if r < i {
                            assert(l2[r] == l1[r]);
                        } else {
                            assert(l2[i] == l1[i + 1]);
                        }
                    }
                    lemma_run_end_at(l2, p + 1, r);
                }
                assert(l2.subrange(p, r) =~= run);
            } else {
                // the whole run sits past the removed whitespace
                assert(run_end(l2, p2 + 1) == r - 1) by {
                    assert(forall|k: int|
                        p2 + 1 <= k < r - 1 ==> !(is_space(#[trigger] l2[k]) || l2[k] == ')'));
                    if r - 1 < l2.len() {
                        assert(l2[r - 1] == l1[r]);
                    }
                    lemma_run_end_at(l2, p2 + 1, r - 1);
                }
                assert(l2.subrange(p2, r - 1) =~= run);
            }
            let r2: int = if p < i {
                r
            } else {
                r - 1
            };
            assert(l2[p2] == c);
            assert(l2.subrange(p2, r2) == run);
            assert(run_end(l2, p2 + 1) == r2);
            if is_i32_literal(run) {
                let tok = TokenV::Number(i32_literal_value(run));
                let acc1b = acc1.push((p as u32, tok));
                let acc2b = acc2.push((p2 as u32, tok));
                assert(scan_token_values(acc1b) =~= scan_token_values(acc1).push(tok));
                assert(scan_token_values(acc2b) =~= scan_token_values(acc2).push(tok));
                lemma_scan_collapse(l1, i, r, true, acc1b, acc2b, res1);
                assert(spec_scan(l2, p2, last_value, acc2) == spec_scan(l2, r2, true, acc2b));
                lemma_scan_extends(l1, r, true, acc1b);
                assert(scan_token_values(res1).skip(acc1.len() as int) =~= seq![tok]
                    + scan_token_values(res1).skip(acc1b.len() as int)) by {
                    assert(res1.take(acc1b.len() as int)[acc1.len() as int] == (p as u32, tok));
                    assert(res1[acc1.len() as int] == (p as u32, tok));
                }
                assert(scan_token_values(acc2) + scan_token_values(res1).skip(acc1.len() as int)
                    =~= scan_token_values(acc2b) + scan_token_values(res1).skip(
                    acc1b.len() as int,
                ));
            } else {
                match spec_to_token(run) {
                    Some(TokenV::Rem) => {
                        // a comment token would reach the result
                        assert(res1[acc1.len() as int + 1].1 is Comment);
                        assert(false);
                    },
                    Some(tok) => {
                        let acc1b = acc1.push((p as u32, tok));
                        let acc2b = acc2.push((p2 as u32, tok));
                        assert(scan_token_values(acc1b) =~= scan_token_values(acc1).push(tok));
                        assert(scan_token_values(acc2b) =~= scan_token_values(acc2).push(tok));
                        lemma_scan_collapse(l1, i, r, false, acc1b, acc2b, res1);
                        assert(spec_scan(l2, p2, last_value, acc2) == spec_scan(
                            l2,
                            r2,
                            false,
                            acc2b,
                        ));
                        lemma_scan_extends(l1, r, false, acc1b);
                        assert(scan_token_values(res1).skip(acc1.len() as int) =~= seq![tok]
                            + scan_token_values(res1).skip(acc1b.len() as int)) by {
                            assert(res1.take(acc1b.len() as int)[acc1.len() as int] == (
                                p as u32,
                                tok,
                            ));
                            assert(res1[acc1.len() as int] == (p as u32, tok));
                        }
                        assert(scan_token_values(acc2) + scan_token_values(res1).skip(
                            acc1.len() as int,
                        ) =~= scan_token_values(acc2b) + scan_token_values(res1).skip(
                            acc1b.len() as int,
                        ));
                    },
                    None => {
                        assert(spec_is_identifier(run));
                        let tok = TokenV::Variable(run);
                        let acc1b = acc1.push((p as u32, tok));
                        let acc2b = acc2.push((p2 as u32, tok));
                        assert(scan_token_values(acc1b) =~= scan_token_values(acc1).push(tok));
                        assert(scan_token_values(acc2b) =~= scan_token_values(acc2).push(tok));
                        lemma_scan_collapse(l1, i, r, true, acc1b, acc2b, res1);
                        assert(spec_scan(l2, p2, last_value, acc2) == spec_scan(
                            l2,
                            r2,
                            true,
                            acc2b,
                        ));
                        lemma_scan_extends(l1, r, true, acc1b);
                        assert(scan_token_values(res1).skip(acc1.len() as int) =~= seq![tok]
                            + scan_token_values(res1).skip(acc1b.len() as int)) by {
                            assert(res1.take(acc1b.len() as int)[acc1.len() as int] == (
                                p as u32,
                                tok,
                            ));
                            assert(res1[acc1.len() as int] == (p as u32, tok));
                        }
                        assert(scan_token_values(acc2) + scan_token_values(res1).skip(
                            acc1.len() as int,
                        ) =~= scan_token_values(acc2b) + scan_token_values(res1).skip(
                            acc1b.len() as int,
                        ));
                    },
                }
            }
        }
    }
}

} // verus!

verus! {

/// Narrowing a whitespace gap changes no token: a statement that tokenizes
/// without text literals or comments (whose characters are verbatim, inner
/// whitespace included) tokenizes to the same line number and the same token
/// values after one of two adjacent whitespace characters is dropped — only
/// the recorded columns move. Chains of this step relate any two spellings of
/// a statement that differ in whitespace width alone; with the parser reading
/// only token values, never columns, parsed RPN order is invariant under
/// changes to surrounding whitespace width.
pub proof fn lemma_tokenize_whitespace_width(l1: Seq<char>, i: int, inst1: InstructionV)
    requires
        0 <= i,
        i + 1 < l1.len(),
        is_space(l1[i]),
        is_space(l1[i + 1]),
        spec_tokenize_line(l1) == Ok::<InstructionV, LexErrorV>(inst1),
        no_verbatim_tokens(inst1.tokens),
    ensures
        spec_tokenize_line(l1.remove(i)) matches Ok(inst2) && inst2.line_number
            == inst1.line_number && scan_token_values(inst2.tokens) == scan_token_values(
            inst1.tokens,
        ),
{
    l1.remove_ensures(i);
    let l2 = l1.remove(i);
    assert(forall|k: int| 0 <= k < i ==> l2[k] == l1[k]);
    assert(forall|k: int| i <= k < l2.len() ==> l2[k] == l1[k + 1]);
    assert(is_digit(l1[0]));
    assert(i >= 1) by {
        assert(!is_space(l1[0]));
    }
    lemma_space_end_props(l1, 1);
    let j1 = space_end(l1, 1);
    assert(j1 <= i) by {
        if j1 > i {
            assert(!is_space(l1[i]));
        }
    }
    let digits = l1.subrange(0, j1);
    assert(is_u32_literal(digits));
    assert(l2[0] == l1[0]);
    assert(space_end(l2, 1) == j1) by {
        assert(forall|k: int| 1 <= k < j1 ==> !is_space(#[trigger] l2[k]));
        assert(j1 < l2.len());
        if j1 < i {
            assert(l2[j1] == l1[j1]);
        } else {
            assert(l2[i] == l1[i + 1]);
        }
        lemma_space_end_at(l2, 1, j1);
    }
    assert(l2.subrange(0, j1) =~= digits);
    assert(spec_scan(l1, j1 + 1, false, Seq::empty()) == Ok::<_, LexErrorV>(inst1.tokens));
    assert(scan_token_values(Seq::<(u32, TokenV)>::empty()) =~= Seq::<TokenV>::empty());
    lemma_scan_collapse(l1, i, j1 + 1, false, Seq::empty(), Seq::empty(), inst1.tokens);
    if j1 == i {
        assert(l2[i] == l1[i + 1] && is_space(l2[i]));
        assert(spec_scan(l2, i, false, Seq::empty()) == spec_scan(l2, i + 1, false, Seq::empty()));
    }
}

} // verus!

verus! {

/// One spelling reaches another by removing `n` whitespace characters, each
/// taken from a whitespace run of width at least two: exactly the ways one
/// statement's whitespace can be narrowed without ever closing a gap.
pub open spec fn collapses_to(l1: Seq<char>, l2: Seq<char>, n: nat) -> bool
    decreases n,
{
    if n == 0 {
        l1 == l2
    } else {
        exists|i: int|
            0 <= i && i + 1 < l1.len() && is_space(l1[i]) && is_space(#[trigger] l1[i + 1])
                && collapses_to(l1.remove(i), l2, (n - 1) as nat)
    }
}

/// Narrowing whitespace any number of times changes no token: along a whole
/// chain of single collapses the line number and the token values stay fixed,
/// as long as the statement carries no verbatim text.
pub proof fn lemma_tokenize_whitespace_width_chain(
    l1: Seq<char>,
    l2: Seq<char>,
    n: nat,
    inst1: InstructionV,
)
    requires
        collapses_to(l1, l2, n),
        spec_tokenize_line(l1) == Ok::<InstructionV, LexErrorV>(inst1),
        no_verbatim_tokens(inst1.tokens),
    ensures
        spec_tokenize_line(l2) matches Ok(inst2) && inst2.line_number == inst1.line_number
            && scan_token_values(inst2.tokens) == scan_token_values(inst1.tokens),
    decreases n,
{
    if n > 0 {
        let i = choose|i: int|
            0 <= i && i + 1 < l1.len() && is_space(l1[i]) && is_space(#[trigger] l1[i + 1])
                && collapses_to(l1.remove(i), l2, (n - 1) as nat);
        lemma_tokenize_whitespace_width(l1, i, inst1);
        let mid = l1.remove(i);
        match spec_tokenize_line(mid) {
            Ok(inst_mid) => {
                assert(scan_token_values(inst_mid.tokens).len() == inst_mid.tokens.len());
                assert(scan_token_values(inst1.tokens).len() == inst1.tokens.len());
                assert forall|k: int| 0 <= k < inst_mid.tokens.len() implies !((
                #[trigger] inst_mid.tokens[k]).1 is Text) && !(inst_mid.tokens[k].1
                    is Comment) by {
                    assert(scan_token_values(inst_mid.tokens)[k] == inst_mid.tokens[k].1);
                    assert(scan_token_values(inst1.tokens)[k] == inst1.tokens[k].1);
                }
                lemma_tokenize_whitespace_width_chain(mid, l2, (n - 1) as nat, inst_mid);
            },
            Err(_) => {
                assert(false);
            },
        }
    }
}

/// Two spellings of one statement that differ only in whitespace width — both
/// narrow to a common spelling — tokenize to the same line number and the
/// same token values, as long as the statement carries no verbatim text.
pub proof fn lemma_tokenize_whitespace_variants(
    l1: Seq<char>,
    l2: Seq<char>,
    common: Seq<char>,
    n1: nat,
    n2: nat,
    inst1: InstructionV,
    inst2: InstructionV,
)
    requires
        collapses_to(l1, common, n1),
        collapses_to(l2, common, n2),
        spec_tokenize_line(l1) == Ok::<InstructionV, LexErrorV>(inst1),
        spec_tokenize_line(l2) == Ok::<InstructionV, LexErrorV>(inst2),
        no_verbatim_tokens(inst1.tokens),
        no_verbatim_tokens(inst2.tokens),
    ensures
        inst2.line_number == inst1.line_number,
        scan_token_values(inst2.tokens) == scan_token_values(inst1.tokens),
{
    lemma_tokenize_whitespace_width_chain(l1, common, n1, inst1);
    lemma_tokenize_whitespace_width_chain(l2, common, n2, inst2);
}

} // verus!
