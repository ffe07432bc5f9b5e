//! Command-line tokenizer that handles quotes, escapes, pipes, and operators.
use crate::input::line::is_boundary_char;
use crate::text::{byte_is_ascii_ws, chars_of, is_ascii_ws, string_from_chars};
use vstd::prelude::*;
use vstd::utf8::encode_utf8;

verus! {

#[derive(Debug, Clone, PartialEq)]
pub struct Token {
    pub text: String,
    pub kind: TokenKind,
    /// Byte offset in the input where this token starts.
    pub start: usize,
}

#[derive(Debug, Clone, Copy, PartialEq, Eq, Structural)]
pub enum TokenKind {
    /// A regular word/argument.
    Word,
    /// A pipe `|`.
    Pipe,
    /// `&&` or `||` or `;`.
    Operator,
    /// A redirect like `>`, `>>`, `<`, `2>`.
    Redirect,
}

/// How the text around the cursor is quoted, which decides how inserted text
/// must be escaped.
#[derive(Debug, Clone, Copy, PartialEq, Eq, Structural)]
pub enum QuoteMode {
    /// Outside any quotes.
    Plain,
    Single,
    Double,
}

#[derive(Debug, Clone, PartialEq)]
pub struct ParsedLine {
    pub tokens: Vec<Token>,
    pub partial: String,
}

/// A token as a mathematical value.
pub struct SpecToken {
    pub text: Seq<char>,
    pub kind: TokenKind,
    pub start: int,
}

impl View for Token {
    type V = SpecToken;

    open spec fn view(&self) -> SpecToken {
        SpecToken { text: self.text@, kind: self.kind, start: self.start as int }
    }
}

pub open spec fn tokens_view(ts: Seq<Token>) -> Seq<SpecToken> {
    ts.map_values(|t: Token| t@)
}

pub open spec fn spec_tok(text: Seq<char>, kind: TokenKind, start: int) -> SpecToken {
    SpecToken { text, kind, start }
}

/// Bytes that end a plain (unquoted) word.
pub open spec fn is_word_stop(b: u8) -> bool {
    b == 0x7c || b == 0x26 || b == 0x3b || b == 0x3e || b == 0x3c
}

/// The scan of one word. `mode` is 0 outside quotes, 1 inside single quotes and
/// 2 inside double quotes; the result is the word's text and the index after it.
pub open spec fn word_scan(b: Seq<u8>, i: int, acc: Seq<char>, mode: u8) -> (Seq<char>, int)
    decreases b.len() - i,
{
    if i < 0 || i >= b.len() {
        (acc, i)
    } else if mode == 1 {
        if b[i] == 0x27 {
            word_scan(b, i + 1, acc, 0)
        } else {
            word_scan(b, i + 1, acc.push(b[i] as char), 1)
        }
    } else if mode == 2 {
        if b[i] == 0x22 {
            word_scan(b, i + 1, acc, 0)
        } else if b[i] == 0x5c && i + 1 < b.len() {
            word_scan(b, i + 2, acc.push(b[i + 1] as char), 2)
        } else {
            word_scan(b, i + 1, acc.push(b[i] as char), 2)
        }
    } else if is_ascii_ws(b[i]) {
        (acc, i)
    } else if b[i] == 0x27 {
        word_scan(b, i + 1, acc, 1)
    } else if b[i] == 0x22 {
        word_scan(b, i + 1, acc, 2)
    } else if b[i] == 0x5c && i + 1 < b.len() {
        word_scan(b, i + 2, acc.push(b[i + 1] as char), 0)
    } else if is_word_stop(b[i]) {
        (acc, i)
    } else {
        word_scan(b, i + 1, acc.push(b[i] as char), 0)
    }
}

pub proof fn lemma_word_scan_advances(b: Seq<u8>, i: int, acc: Seq<char>, mode: u8)
    ensures
        word_scan(b, i, acc, mode).1 >= i,
        0 <= i <= b.len() ==> word_scan(b, i, acc, mode).1 <= b.len(),
    decreases b.len() - i,
{
    if i < 0 || i >= b.len() {
    } else if mode == 1 {
        if b[i] == 0x27 {
            lemma_word_scan_advances(b, i + 1, acc, 0);
        } else {
            lemma_word_scan_advances(b, i + 1, acc.push(b[i] as char), 1);
        }
    } else if mode == 2 {
        if b[i] == 0x22 {
            lemma_word_scan_advances(b, i + 1, acc, 0);
        } else if b[i] == 0x5c && i + 1 < b.len() {
            lemma_word_scan_advances(b, i + 2, acc.push(b[i + 1] as char), 2);
        } else {
            lemma_word_scan_advances(b, i + 1, acc.push(b[i] as char), 2);
        }
    } else if is_ascii_ws(b[i]) {
    } else if b[i] == 0x27 {
        lemma_word_scan_advances(b, i + 1, acc, 1);
    } else if b[i] == 0x22 {
        lemma_word_scan_advances(b, i + 1, acc, 2);
    } else if b[i] == 0x5c && i + 1 < b.len() {
        lemma_word_scan_advances(b, i + 2, acc.push(b[i + 1] as char), 0);
    } else if is_word_stop(b[i]) {
    } else {
        lemma_word_scan_advances(b, i + 1, acc.push(b[i] as char), 0);
    }
}

/// Whether a redirect starts at `i`: `>`, `<`, or `2>`.
pub open spec fn starts_redirect(b: Seq<u8>, i: int) -> bool {
    b[i] == 0x3e || b[i] == 0x3c || (b[i] == 0x32 && i + 1 < b.len() && b[i + 1] == 0x3e)
}

/// The text of the redirect at `i` and the index after it.
pub open spec fn redirect_scan(b: Seq<u8>, i: int) -> (Seq<char>, int) {
    let k = if b[i] == 0x32 {
        i + 1
    } else {
        i
    };
    let t0: Seq<char> = if b[i] == 0x32 {
        seq!['2']
    } else {
        seq![]
    };
    let t1 = t0.push(b[k] as char);
    if k + 1 < b.len() && b[k + 1] == 0x3e {
        (t1.push('>'), k + 2)
    } else {
        (t1, k + 1)
    }
}

pub open spec fn prepend(t: SpecToken, rest: Option<Seq<SpecToken>>) -> Option<Seq<SpecToken>> {
    match rest {
        Some(r) => Some(seq![t] + r),
        None => None,
    }
}

/// The tokens of `b` from index `i` on. `None` where the scan would stop making
/// progress: at a single `&` that is neither quoted, escaped, nor part of `&&`.
pub open spec fn scan(b: Seq<u8>, i: int) -> Option<Seq<SpecToken>>
    decreases b.len() - i,
{
    if i < 0 || i >= b.len() {
        Some(seq![])
    } else if is_ascii_ws(b[i]) {
        scan(b, i + 1)
    } else if i + 1 < b.len() && b[i] == 0x26 && b[i + 1] == 0x26 {
        prepend(spec_tok(seq!['&', '&'], TokenKind::Operator, i), scan(b, i + 2))
    } else if i + 1 < b.len() && b[i] == 0x7c && b[i + 1] == 0x7c {
        prepend(spec_tok(seq!['|', '|'], TokenKind::Operator, i), scan(b, i + 2))
    } else if b[i] == 0x7c {
        prepend(spec_tok(seq!['|'], TokenKind::Pipe, i), scan(b, i + 1))
    } else if b[i] == 0x3b {
        prepend(spec_tok(seq![';'], TokenKind::Operator, i), scan(b, i + 1))
    } else if starts_redirect(b, i) {
        let (t, j) = redirect_scan(b, i);
        prepend(spec_tok(t, TokenKind::Redirect, i), scan(b, j))
    } else {
        proof {
            lemma_word_scan_advances(b, i, seq![], 0);
        }
        let (w, j) = word_scan(b, i, seq![], 0);
        if j <= i {
            None
        } else if w.len() > 0 {
            prepend(spec_tok(w, TokenKind::Word, i), scan(b, j))
        } else {
            scan(b, j)
        }
    }
}

proof fn lemma_scan_semicolons(b: Seq<u8>, i: int)
    requires
        0 <= i,
    ensures
        scan(b, i) matches Some(ts) ==> forall|k: int|
            0 <= k < ts.len() ==> {
                &&& i <= #[trigger] ts[k].start < b.len()
                &&& b[ts[k].start] == 0x3b ==> ts[k].kind == TokenKind::Operator && ts[k].text == seq![';']
            },
        scan(b, i) matches Some(ts) ==> forall|k1: int, k2: int|
            0 <= k1 < k2 < ts.len() ==> #[trigger] ts[k1].start < #[trigger] ts[k2].start,
    decreases b.len() - i,
{
    if i >= b.len() {
    } else if is_ascii_ws(b[i]) {
        lemma_scan_semicolons(b, i + 1);
    } else if i + 1 < b.len() && b[i] == 0x26 && b[i + 1] == 0x26 {
        lemma_scan_semicolons(b, i + 2);
        lemma_prepend_tokens(spec_tok(seq!['&', '&'], TokenKind::Operator, i), scan(b, i + 2));
    } else if i + 1 < b.len() && b[i] == 0x7c && b[i + 1] == 0x7c {
        lemma_scan_semicolons(b, i + 2);
        lemma_prepend_tokens(spec_tok(seq!['|', '|'], TokenKind::Operator, i), scan(b, i + 2));
    } else if b[i] == 0x7c {
        lemma_scan_semicolons(b, i + 1);
        lemma_prepend_tokens(spec_tok(seq!['|'], TokenKind::Pipe, i), scan(b, i + 1));
    } else if b[i] == 0x3b {
        lemma_scan_semicolons(b, i + 1);
        lemma_prepend_tokens(spec_tok(seq![';'], TokenKind::Operator, i), scan(b, i + 1));
    } else if starts_redirect(b, i) {
        let (t, j) = redirect_scan(b, i);
        lemma_scan_semicolons(b, j);
        lemma_prepend_tokens(spec_tok(t, TokenKind::Redirect, i), scan(b, j));
    } else {
        lemma_word_scan_advances(b, i, seq![], 0);
        let (w, j) = word_scan(b, i, seq![], 0);
        if j > i {
            lemma_scan_semicolons(b, j);
            if w.len() > 0 {
                lemma_prepend_tokens(spec_tok(w, TokenKind::Word, i), scan(b, j));
            }
        }
    }
}

proof fn lemma_prepend_tokens(t: SpecToken, rest: Option<Seq<SpecToken>>)
    ensures
        rest matches Some(r) ==> prepend(t, rest) == Some(seq![t] + r) && (forall|k: int|
            0 <= k < r.len() ==> #[trigger] (seq![t] + r)[k + 1] == r[k]) && (seq![t] + r)[0] == t,
{
}

/// A `;` that is read as a token is always the operator that ends a command:
/// every token of a line that starts at a `;` byte is the `;` operator (a `;`
/// inside quotes or after a backslash is part of a word that starts elsewhere).
pub proof fn lemma_semicolon_separates(input: Seq<char>)
    requires
        tokenizes(input),
    ensures
        forall|k: int|
            0 <= k < spec_tokenize(input).len() ==> {
                let t = #[trigger] spec_tokenize(input)[k];
                &&& 0 <= t.start < encode_utf8(input).len()
                &&& encode_utf8(input)[t.start] == 0x3b ==> t.kind == TokenKind::Operator && t.text == seq![';']
            },
{
    lemma_scan_semicolons(encode_utf8(input), 0);
}

proof fn lemma_last_command_after(ts: Seq<SpecToken>, n: int, k: int)
    requires
        0 <= k < n <= ts.len(),
        is_separator(ts[k]),
    ensures
        last_command_start(ts, n) > k,
    decreases n,
{
    if n - 1 > k && !is_separator(ts[n - 1]) {
        lemma_last_command_after(ts, n - 1, k);
    }
}

/// The command being completed starts after every `;` read as a token: each
/// token of the last command starts past every such `;` on the line.
pub proof fn lemma_last_command_after_semicolon(input: Seq<char>)
    requires
        tokenizes(input),
    ensures
        ({
            let ts = spec_tokenize(input);
            let b = encode_utf8(input);
            forall|k: int, t: int|
                0 <= k < ts.len() && b[ts[k].start] == 0x3b && 0 <= t < last_command(ts).len()
                    ==> #[trigger] last_command(ts)[t].start > #[trigger] ts[k].start
        }),
{
    let ts = spec_tokenize(input);
    let b = encode_utf8(input);
    lemma_scan_semicolons(b, 0);
    assert forall|k: int, t: int|
        0 <= k < ts.len() && b[ts[k].start] == 0x3b && 0 <= t < last_command(ts).len()
            implies #[trigger] last_command(ts)[t].start > #[trigger] ts[k].start by {
        assert(ts[k].kind == TokenKind::Operator);
        lemma_last_command_after(ts, ts.len() as int, k);
        let st = last_command_start(ts, ts.len() as int);
        lemma_last_command_start_bounds(ts, ts.len() as int);
        assert(last_command(ts)[t] == ts[st + t]);
        assert(ts[k].start < ts[st + t].start);
    }
}

/// Whether tokenizing `input` finishes.
pub open spec fn tokenizes(input: Seq<char>) -> bool {
    scan(encode_utf8(input), 0) is Some
}

/// The tokens of `input`: words (with quotes and escapes resolved, each byte
/// read as one character), pipes, operators and redirects, with their byte offsets.
pub open spec fn spec_tokenize(input: Seq<char>) -> Seq<SpecToken> {
    scan(encode_utf8(input), 0).unwrap()
}

/// Scans one word starting at `i`, appending its characters to `word`.
fn scan_word(bytes: &[u8], start: usize, word: &mut Vec<char>) -> (end: usize)
    requires
        start < bytes@.len(),
        old(word)@.len() == 0,
    ensures
        (final(word)@, end as int) == word_scan(bytes@, start as int, seq![], 0),
        start <= end <= bytes@.len(),
{
    let len = bytes.len();
    let mut i = start;
    let mut done = false;
    proof {
        lemma_word_scan_advances(bytes@, start as int, seq![], 0);
    }
    assert(word@ =~= Seq::<char>::empty());
    while i < len && !done
        invariant
            len == bytes@.len(),
            start <= i <= len,
            word_scan(bytes@, i as int, word@, 0) == word_scan(bytes@, start as int, seq![], 0),
            done ==> word_scan(bytes@, i as int, word@, 0) == (word@, i as int),
        decreases len - i + (if done { 0int } else { 1int }),
    {
        let c = bytes[i];
        if byte_is_ascii_ws(c) {
            done = true;
        } else if c == 0x27 {
            let ghost entry = i;
            i = i + 1;
            while i < len && bytes[i] != 0x27
                invariant
                    len == bytes@.len(),
                    start <= entry < i <= len,
                    word_scan(bytes@, i as int, word@, 1) == word_scan(
                        bytes@,
                        start as int,
                        seq![],
                        0,
                    ),
                decreases len - i,
            {
                word.push(bytes[i] as char);
                i = i + 1;
            }
            if i < len {
                i = i + 1;
            }
        } else if c == 0x22 {
            let ghost entry = i;
            i = i + 1;
            while i < len && bytes[i] != 0x22
                invariant
                    len == bytes@.len(),
                    start <= entry < i <= len,
                    word_scan(bytes@, i as int, word@, 2) == word_scan(
                        bytes@,
                        start as int,
                        seq![],
                        0,
                    ),
                decreases len - i,
            {
                if bytes[i] == 0x5c && i + 1 < len {
                    i = i + 1;
                    word.push(bytes[i] as char);
                } else {
                    word.push(bytes[i] as char);
                }
                i = i + 1;
            }
            if i < len {
                i = i + 1;
            }
        } else if c == 0x5c && i + 1 < len {
            i = i + 1;
            word.push(bytes[i] as char);
            i = i + 1;
        } else if c == 0x7c || c == 0x26 || c == 0x3b || c == 0x3e || c == 0x3c {
            done = true;
        } else {
            word.push(c as char);
            i = i + 1;
        }
    }
    i
}

/// Tokenizes `input`, or `None` where the scan would not finish (see `scan`).
pub fn try_tokenize(input: &str) -> (r: Option<Vec<Token>>)
    ensures
        r is Some <==> tokenizes(input@),
        r matches Some(ts) ==> tokens_view(ts@) == spec_tokenize(input@),
{
    let bytes = input.as_bytes();
    let len = bytes.len();
    let mut tokens: Vec<Token> = Vec::new();
    let mut i: usize = 0;
    let ghost b = bytes@;
    while i < len
        invariant
            b == bytes@,
            b == encode_utf8(input@),
            len == b.len(),
            i <= len,
            scan(b, 0) is Some <==> scan(b, i as int) is Some,
            scan(b, i as int) is Some ==> tokens_view(tokens@) + scan(b, i as int).unwrap() == scan(
                b,
                0,
            ).unwrap(),
        decreases len - i,
    {
        let ghost old_view = tokens_view(tokens@);
        let c = bytes[i];
        if byte_is_ascii_ws(c) {
            i = i + 1;
        } else if i + 1 < len && c == 0x26 && bytes[i + 1] == 0x26 {
            let t = Token { text: string_from_chars(&vec!['&', '&']), kind: TokenKind::Operator, start: i };
            tokens.push(t);
            assert(tokens_view(tokens@) =~= old_view.push(t@));
            assert(seq!['&', '&'] =~= t.text@);
            i = i + 2;
        } else if i + 1 < len && c == 0x7c && bytes[i + 1] == 0x7c {
            let t = Token { text: string_from_chars(&vec!['|', '|']), kind: TokenKind::Operator, start: i };
            tokens.push(t);
            assert(tokens_view(tokens@) =~= old_view.push(t@));
            assert(seq!['|', '|'] =~= t.text@);
            i = i + 2;
        } else if c == 0x7c {
            let t = Token { text: string_from_chars(&vec!['|']), kind: TokenKind::Pipe, start: i };
            tokens.push(t);
            assert(tokens_view(tokens@) =~= old_view.push(t@));
            assert(seq!['|'] =~= t.text@);
            i = i + 1;
        } else if c == 0x3b {
            let t = Token { text: string_from_chars(&vec![';']), kind: TokenKind::Operator, start: i };
            tokens.push(t);
            assert(tokens_view(tokens@) =~= old_view.push(t@));
            assert(seq![';'] =~= t.text@);
            i = i + 1;
        } else if c == 0x3e || c == 0x3c || (c == 0x32 && i + 1 < len && bytes[i + 1] == 0x3e) {
            let start = i;
            let mut text: Vec<char> = Vec::new();
            if bytes[i] == 0x32 {
                text.push('2');
                i = i + 1;
            }
            text.push(bytes[i] as char);
            i = i + 1;
            if i < len && bytes[i] == 0x3e {
                text.push('>');
                i = i + 1;
            }
            let ghost rs = redirect_scan(b, start as int);
            assert(text@ =~= rs.0);
            let t = Token { text: string_from_chars(&text), kind: TokenKind::Redirect, start };
            tokens.push(t);
            assert(tokens_view(tokens@) =~= old_view.push(t@));
        } else {
            let start = i;
            let mut word: Vec<char> = Vec::new();
            let end = scan_word(bytes, start, &mut word);
            if end == start {
                return None;
            }
            i = end;
            if word.len() > 0 {
                let t = Token { text: string_from_chars(&word), kind: TokenKind::Word, start };
                tokens.push(t);
                assert(tokens_view(tokens@) =~= old_view.push(t@));
            }
        }
    }
    Some(tokens)
}

/// Full tokenizer.
pub fn tokenize(input: &str) -> (tokens: Vec<Token>)
    requires
        tokenizes(input@),
    ensures
        tokens_view(tokens@) == spec_tokenize(input@),
{
    match try_tokenize(input) {
        Some(tokens) => tokens,
        None => Vec::new(),
    }
}

pub open spec fn is_separator(t: SpecToken) -> bool {
    t.kind == TokenKind::Pipe || t.kind == TokenKind::Operator
}

/// Index just after the last pipe or operator among the first `n` tokens (0 if none).
pub open spec fn last_command_start(ts: Seq<SpecToken>, n: int) -> int
    decreases n,
{
    if n <= 0 {
        0
    } else if is_separator(ts[n - 1]) {
        n
    } else {
        last_command_start(ts, n - 1)
    }
}

/// The tokens of the last simple command: those after the last pipe or operator.
pub open spec fn last_command(ts: Seq<SpecToken>) -> Seq<SpecToken> {
    ts.subrange(last_command_start(ts, ts.len() as int), ts.len() as int)
}

pub proof fn lemma_last_command_start_bounds(ts: Seq<SpecToken>, n: int)
    requires
        0 <= n,
    ensures
        0 <= last_command_start(ts, n) <= n,
    decreases n,
{
    if n > 0 && !is_separator(ts[n - 1]) {
        lemma_last_command_start_bounds(ts, n - 1);
    }
}

/// Parse a command line into tokens. Returns the tokens for the *last* simple
/// command (after any pipe/operator), which is the one we want to complete.
pub fn tokenize_last_command(input: &str) -> (tokens: Vec<Token>)
    requires
        tokenizes(input@),
    ensures
        tokens_view(tokens@) == last_command(spec_tokenize(input@)),
{
    let mut all = tokenize(input);
    let ghost ts = tokens_view(all@);
    let mut last_cmd_start: usize = 0;
    let mut i: usize = 0;
    while i < all.len()
        invariant
            i <= all@.len(),
            ts == tokens_view(all@),
            last_cmd_start == last_command_start(ts, i as int),
        decreases all@.len() - i,
    {
        if all[i].kind == TokenKind::Pipe || all[i].kind == TokenKind::Operator {
            last_cmd_start = i + 1;
        }
        i = i + 1;
    }
    proof {
        lemma_last_command_start_bounds(ts, all@.len() as int);
    }
    let rest = all.split_off(last_cmd_start);
    assert(tokens_view(rest@) =~= last_command(ts));
    rest
}

/// The tokens before the partial word and the partial word itself: the input
/// minus a trailing unfinished token, which becomes the partial unless the input
/// is empty or ends in a space.
pub open spec fn spec_parse_completion(input: Seq<char>) -> (Seq<SpecToken>, Seq<char>) {
    let toks = last_command(spec_tokenize(input));
    if input.len() == 0 || input.last() == ' ' {
        (toks, seq![])
    } else if toks.len() == 0 {
        (toks, seq![])
    } else {
        (toks.drop_last(), toks.last().text)
    }
}

/// Determine if the cursor is in a "partial word" at the end of input.
/// Returns (tokens_before_partial, partial_text).
pub fn parse_completion_input(input: &str) -> (parsed: ParsedLine)
    requires
        tokenizes(input@),
    ensures
        (tokens_view(parsed.tokens@), parsed.partial@) == spec_parse_completion(input@),
{
    let mut tokens = tokenize_last_command(input);
    let chars = chars_of(input);
    if chars.len() == 0 || chars[chars.len() - 1] == ' ' {
        ParsedLine { tokens, partial: String::new() }
    } else {
        let ghost before = tokens_view(tokens@);
        match tokens.pop() {
            Some(token) => {
                assert(tokens_view(tokens@) =~= before.drop_last());
                ParsedLine { tokens, partial: token.text }
            },
            None => ParsedLine { tokens, partial: String::new() },
        }
    }
}

pub fn split_partial(input: &str) -> (r: (Vec<Token>, String))
    requires
        tokenizes(input@),
    ensures
        (tokens_view(r.0@), r.1@) == spec_parse_completion(input@),
{
    let parsed = parse_completion_input(input);
    (parsed.tokens, parsed.partial)
}

/// The quoting in force after the characters `s`, as a shell reads them:
/// 0 unquoted, 1 unquoted right after a backslash, 2 inside single quotes,
/// 3 inside double quotes, 4 inside double quotes right after a backslash.
pub open spec fn quote_state(s: Seq<char>) -> u8
    decreases s.len(),
{
    if s.len() == 0 {
        0
    } else {
        let st = quote_state(s.drop_last());
        let c = s.last();
        if st == 0 {
            if c == '\'' {
                2
            } else if c == '"' {
                3
            } else if c == '\\' {
                1
            } else {
                0
            }
        } else if st == 1 {
            0
        } else if st == 2 {
            if c == '\'' {
                0
            } else {
                2
            }
        } else if st == 3 {
            if c == '"' {
                0
            } else if c == '\\' {
                4
            } else {
                3
            }
        } else {
            3
        }
    }
}

pub open spec fn spec_quote_mode(s: Seq<char>) -> QuoteMode {
    let st = quote_state(s);
    if st == 2 {
        QuoteMode::Single
    } else if st == 3 || st == 4 {
        QuoteMode::Double
    } else {
        QuoteMode::Plain
    }
}

/// How text inserted after `before_cursor` must be quoted: inside single
/// quotes, inside double quotes, or not at all.
pub fn cursor_quote_mode(before_cursor: &str) -> (r: QuoteMode)
    ensures
        r == spec_quote_mode(before_cursor@),
{
    let chars = chars_of(before_cursor);
    let mut st: u8 = 0;
    let mut i: usize = 0;
    while i < chars.len()
        invariant
            chars@ == before_cursor@,
            i <= chars@.len(),
            st == quote_state(chars@.subrange(0, i as int)),
        decreases chars@.len() - i,
    {
        let c = chars[i];
        assert(chars@.subrange(0, i as int + 1).drop_last() =~= chars@.subrange(0, i as int));
        st = if st == 0 {
            if c == '\'' {
                2
            } else if c == '"' {
                3
            } else if c == '\\' {
                1
            } else {
                0
            }
        } else if st == 1 {
            0
        } else if st == 2 {
            if c == '\'' {
                0
            } else {
                2
            }
        } else if st == 3 {
            if c == '"' {
                0
            } else if c == '\\' {
                4
            } else {
                3
            }
        } else {
            3
        };
        i = i + 1;
    }
    assert(chars@.subrange(0, i as int) =~= before_cursor@);
    if st == 2 {
        QuoteMode::Single
    } else if st == 3 || st == 4 {
        QuoteMode::Double
    } else {
        QuoteMode::Plain
    }
}

/// Whether `s[j]` ends a token: a boundary character read outside quotes and
/// not escaped.
pub open spec fn unquoted_boundary(s: Seq<char>, j: int) -> bool {
    0 <= j < s.len() && is_boundary_char(s[j]) && quote_state(s.subrange(0, j)) == 0
}

/// Whether `s[j]` opens a quoted stretch.
pub open spec fn opens_quote(s: Seq<char>, j: int) -> bool {
    0 <= j < s.len() && quote_state(s.subrange(0, j)) == 0 && (s[j] == '\'' || s[j] == '"')
}

/// Whether `s[j]` closes the quoted stretch it stands in.
pub open spec fn closes_quote(s: Seq<char>, j: int) -> bool {
    0 <= j < s.len() && ((quote_state(s.subrange(0, j)) == 2 && s[j] == '\'') || (quote_state(
        s.subrange(0, j),
    ) == 3 && s[j] == '"'))
}

/// Start of the token that holds position `c`: after the last unquoted,
/// unescaped boundary before it.
pub open spec fn token_start(s: Seq<char>, c: int) -> int
    decreases c,
{
    if c <= 0 {
        0
    } else if unquoted_boundary(s, c - 1) {
        c
    } else {
        token_start(s, c - 1)
    }
}

/// Just after the last quote before `c` that opened a quoted stretch.
pub open spec fn quote_open_end(s: Seq<char>, c: int) -> int
    decreases c,
{
    if c <= 0 {
        0
    } else if opens_quote(s, c - 1) {
        c
    } else {
        quote_open_end(s, c - 1)
    }
}

/// Where the span around the cursor ends, scanning from `i`: at the next
/// unquoted boundary (`plain`) or at the quote that closes the stretch the
/// cursor is in; else at the end of the line.
pub open spec fn span_end(s: Seq<char>, i: int, plain: bool) -> int
    decreases s.len() - i,
{
    if i < 0 || i >= s.len() {
        i
    } else if (plain && unquoted_boundary(s, i)) || (!plain && closes_quote(s, i)) {
        i
    } else {
        span_end(s, i + 1, plain)
    }
}

/// The span a completion replaces around cursor `c`, and the quoting there.
/// Outside quotes it is the raw token around the cursor, escapes and quotes
/// included; inside a quoted stretch it is that stretch's text, so that its
/// quotes stay.
pub open spec fn spec_edit_context(s: Seq<char>, c: int) -> (int, int, QuoteMode) {
    let mode = spec_quote_mode(s.subrange(0, c));
    if mode == QuoteMode::Plain {
        (token_start(s, c), span_end(s, c, true), mode)
    } else {
        (quote_open_end(s, c), span_end(s, c, false), mode)
    }
}

pub proof fn lemma_edit_context_bounds(s: Seq<char>, c: int)
    requires
        0 <= c <= s.len(),
    ensures
        0 <= spec_edit_context(s, c).0 <= c <= spec_edit_context(s, c).1 <= s.len(),
{
    lemma_token_start_bounds(s, c);
    lemma_quote_open_end_bounds(s, c);
    lemma_span_end_bounds(s, c, true);
    lemma_span_end_bounds(s, c, false);
}

proof fn lemma_token_start_bounds(s: Seq<char>, c: int)
    requires
        0 <= c,
    ensures
        0 <= token_start(s, c) <= c,
    decreases c,
{
    if c > 0 && !unquoted_boundary(s, c - 1) {
        lemma_token_start_bounds(s, c - 1);
    }
}

proof fn lemma_quote_open_end_bounds(s: Seq<char>, c: int)
    requires
        0 <= c,
    ensures
        0 <= quote_open_end(s, c) <= c,
    decreases c,
{
    if c > 0 && !opens_quote(s, c - 1) {
        lemma_quote_open_end_bounds(s, c - 1);
    }
}

proof fn lemma_span_end_bounds(s: Seq<char>, i: int, plain: bool)
    requires
        0 <= i <= s.len(),
    ensures
        i <= span_end(s, i, plain) <= s.len(),
    decreases s.len() - i,
{
    if i < s.len() && !((plain && unquoted_boundary(s, i)) || (!plain && closes_quote(s, i))) {
        lemma_span_end_bounds(s, i + 1, plain);
    }
}

/// The quoting after one more character.
fn next_quote_state(st: u8, c: char, Ghost(p): Ghost<Seq<char>>) -> (r: u8)
    requires
        st == quote_state(p),
    ensures
        r == quote_state(p.push(c)),
{
    assert(p.push(c).drop_last() =~= p);
    if st == 0 {
        if c == '\'' {
            2
        } else if c == '"' {
            3
        } else if c == '\\' {
            1
        } else {
            0
        }
    } else if st == 1 {
        0
    } else if st == 2 {
        if c == '\'' {
            0
        } else {
            2
        }
    } else if st == 3 {
        if c == '"' {
            0
        } else if c == '\\' {
            4
        } else {
            3
        }
    } else {
        3
    }
}

/// Where a completion goes in a line: the span it replaces and the quoting
/// at the cursor (positions are character indices).
#[derive(Debug, Clone, Copy, PartialEq, Eq)]
pub struct CompletionEditContext {
    pub replacement_start: usize,
    pub replacement_end: usize,
    pub quote_mode: QuoteMode,
}

/// The span a completion replaces around character index `cursor` of
/// `buffer`, and the quoting in force there.
pub fn completion_edit_context(buffer: &str, cursor: usize) -> (r: CompletionEditContext)
    requires
        cursor <= buffer@.len(),
    ensures
        (r.replacement_start as int, r.replacement_end as int, r.quote_mode) == spec_edit_context(
            buffer@,
            cursor as int,
        ),
{
    let chars = chars_of(buffer);
    let ghost s = chars@;
    let mut st: u8 = 0;
    let mut ts: usize = 0;
    let mut qo: usize = 0;
    let mut i: usize = 0;
    assert(s.subrange(0, 0) =~= Seq::<char>::empty());
    while i < cursor
        invariant
            s == buffer@,
            s == chars@,
            i <= cursor <= s.len(),
            st == quote_state(s.subrange(0, i as int)),
            ts == token_start(s, i as int),
            qo == quote_open_end(s, i as int),
        decreases cursor - i,
    {
        let c = chars[i];
        let is_b = crate::input::line::is_completion_boundary(c);
        if st == 0 && is_b {
            ts = i + 1;
        }
        if st == 0 && (c == '\'' || c == '"') {
            qo = i + 1;
        }
        st = next_quote_state(st, c, Ghost(s.subrange(0, i as int)));
        assert(s.subrange(0, i as int).push(c) =~= s.subrange(0, i as int + 1));
        i = i + 1;
    }
    let mode = if st == 2 {
        QuoteMode::Single
    } else if st == 3 || st == 4 {
        QuoteMode::Double
    } else {
        QuoteMode::Plain
    };
    let plain = matches!(mode, QuoteMode::Plain);
    let mut j: usize = cursor;
    let mut done = false;
    proof {
        lemma_span_end_bounds(s, cursor as int, plain);
    }
    while j < chars.len() && !done
        invariant
            s == chars@,
            cursor <= j <= s.len(),
            st == quote_state(s.subrange(0, j as int)),
            span_end(s, j as int, plain) == span_end(s, cursor as int, plain),
            done ==> span_end(s, j as int, plain) == j,
        decreases s.len() - j + (if done { 0int } else { 1int }),
    {
        let c = chars[j];
        let stop = if plain {
            st == 0 && crate::input::line::is_completion_boundary(c)
        } else {
            (st == 2 && c == '\'') || (st == 3 && c == '"')
        };
        if stop {
            done = true;
        } else {
            st = next_quote_state(st, c, Ghost(s.subrange(0, j as int)));
            assert(s.subrange(0, j as int).push(c) =~= s.subrange(0, j as int + 1));
            j = j + 1;
        }
    }
    let start = if plain {
        ts
    } else {
        qo
    };
    CompletionEditContext { replacement_start: start, replacement_end: j, quote_mode: mode }
}

} // verus!
