//! A cursor-aware model of the line being edited in the wrapped shell.
use crate::text::{
    char_is_whitespace, is_unicode_whitespace, lemma_utf8_len_of_concat, string_from_chars,
    string_from_range, string_from_utf8, utf8_len_of, utf8_len_of_chars,
};
use crate::input::parser::QuoteMode;
use vstd::prelude::*;
use vstd::utf8::{decode_utf8, valid_utf8};

verus! {

/// The line buffer, held as characters, with the cursor as a character index.
#[derive(Debug, PartialEq)]
pub struct LineState {
    buffer: Vec<char>,
    cursor: usize,
}

/// The keystrokes of a completion: forward deletes, backspaces, the text to
/// type, then how far to move the cursor back into it.
#[derive(Debug, Clone, PartialEq)]
pub struct CompletionEdit {
    pub delete_left: usize,
    pub delete_right: usize,
    pub insert_text: String,
    pub move_left: usize,
}

/// A Fig `insertValue` made ready to insert: the text, where the cursor ends
/// in it, how many characters before the insertion point its leading
/// backspaces erase, and whether it ends the line.
#[derive(Debug, Clone, PartialEq)]
pub struct CompletionText {
    pub text: String,
    /// Characters into `text` where the cursor ends.
    pub cursor: usize,
    /// Backspaces with no inserted character left to remove.
    pub erase: usize,
    /// The text holds a newline, so the shell runs the line.
    pub submits_line: bool,
}

/// Where a span replacement starts: `start`, moved left by the erasures but
/// not past the line's start.
pub open spec fn span_start(start: int, erase: int) -> int {
    if erase <= start {
        start - erase
    } else {
        0
    }
}

/// Where the cursor ends in the inserted text: at the mark when it lies inside
/// the completion's text, else after everything inserted.
pub open spec fn span_cursor(mark: int, text_len: int, ins_len: int) -> int {
    if mark < text_len {
        mark
    } else {
        ins_len
    }
}

/// Whether `{cursor}` starts at `i`.
pub open spec fn is_cursor_marker(raw: Seq<char>, i: int) -> bool {
    0 <= i && i + 8 <= raw.len() && raw.subrange(i, i + 8) == seq![
        '{',
        'c',
        'u',
        'r',
        's',
        'o',
        'r',
        '}',
    ]
}

/// Reading an insert value from `i` on: `{cursor}` marks where the cursor
/// goes (the first mark counts) and is not inserted; a backspace (U+0008)
/// removes the character inserted before it, or, when there is none, erases
/// one more character before the insertion point; every other character is
/// inserted as it is. The result: the text, the cursor mark, the erasures.
pub open spec fn parse_insert(raw: Seq<char>, i: int, text: Seq<char>, cursor: Option<int>, erase: nat) -> (
    Seq<char>,
    Option<int>,
    nat,
)
    decreases raw.len() - i,
{
    if i < 0 || i >= raw.len() {
        (text, cursor, erase)
    } else if is_cursor_marker(raw, i) {
        parse_insert(
            raw,
            i + 8,
            text,
            if cursor is Some {
                cursor
            } else {
                Some(text.len() as int)
            },
            erase,
        )
    } else if raw[i] == '\u{8}' {
        if text.len() > 0 {
            parse_insert(
                raw,
                i + 1,
                text.drop_last(),
                match cursor {
                    Some(k) => Some(if k < text.len() - 1 { k } else { text.len() - 1 }),
                    None => None,
                },
                erase,
            )
        } else {
            parse_insert(raw, i + 1, text, cursor, erase + 1)
        }
    } else {
        parse_insert(raw, i + 1, text.push(raw[i]), cursor, erase)
    }
}

/// The text an insert value inserts.
pub open spec fn insert_text_of(raw: Seq<char>) -> Seq<char> {
    parse_insert(raw, 0, seq![], None, 0).0
}

/// Where the cursor ends in that text: at the first `{cursor}` mark, else at its end.
pub open spec fn insert_cursor_of(raw: Seq<char>) -> int {
    match parse_insert(raw, 0, seq![], None, 0).1 {
        Some(k) => k,
        None => insert_text_of(raw).len() as int,
    }
}

/// How many characters before the insertion point the value erases.
pub open spec fn insert_erase_of(raw: Seq<char>) -> nat {
    parse_insert(raw, 0, seq![], None, 0).2
}

proof fn lemma_parse_insert_cursor(raw: Seq<char>, i: int, text: Seq<char>, cursor: Option<int>, erase: nat)
    requires
        cursor matches Some(k) ==> 0 <= k <= text.len(),
    ensures
        ({
            let r = parse_insert(raw, i, text, cursor, erase);
            r.1 matches Some(k) ==> 0 <= k <= r.0.len()
        }),
    decreases raw.len() - i,
{
    if i < 0 || i >= raw.len() {
    } else if is_cursor_marker(raw, i) {
        lemma_parse_insert_cursor(
            raw,
            i + 8,
            text,
            if cursor is Some {
                cursor
            } else {
                Some(text.len() as int)
            },
            erase,
        );
    } else if raw[i] == '\u{8}' {
        if text.len() > 0 {
            lemma_parse_insert_cursor(
                raw,
                i + 1,
                text.drop_last(),
                match cursor {
                    Some(k) => Some(if k < text.len() - 1 { k } else { text.len() - 1 }),
                    None => None,
                },
                erase,
            );
        } else {
            lemma_parse_insert_cursor(raw, i + 1, text, cursor, erase + 1);
        }
    } else {
        lemma_parse_insert_cursor(raw, i + 1, text.push(raw[i]), cursor, erase);
    }
}

proof fn lemma_parse_insert_len(raw: Seq<char>, i: int, text: Seq<char>, cursor: Option<int>, erase: nat)
    requires
        0 <= i <= raw.len(),
    ensures
        parse_insert(raw, i, text, cursor, erase).0.len() <= text.len() + raw.len() - i,
        parse_insert(raw, i, text, cursor, erase).2 <= erase + raw.len() - i,
    decreases raw.len() - i,
{
    if i >= raw.len() {
    } else if is_cursor_marker(raw, i) {
        lemma_parse_insert_len(
            raw,
            i + 8,
            text,
            if cursor is Some {
                cursor
            } else {
                Some(text.len() as int)
            },
            erase,
        );
    } else if raw[i] == '\u{8}' {
        if text.len() > 0 {
            lemma_parse_insert_len(
                raw,
                i + 1,
                text.drop_last(),
                match cursor {
                    Some(k) => Some(if k < text.len() - 1 { k } else { text.len() - 1 }),
                    None => None,
                },
                erase,
            );
        } else {
            lemma_parse_insert_len(raw, i + 1, text, cursor, erase + 1);
        }
    } else {
        lemma_parse_insert_len(raw, i + 1, text.push(raw[i]), cursor, erase);
    }
}

pub proof fn lemma_insert_cursor_bound(raw: Seq<char>)
    ensures
        0 <= insert_cursor_of(raw) <= insert_text_of(raw).len(),
{
    lemma_parse_insert_cursor(raw, 0, seq![], None, 0);
}

fn cursor_marker_at(raw: &Vec<char>, i: usize) -> (r: bool)
    ensures
        r == is_cursor_marker(raw@, i as int),
{
    if i > raw.len() || raw.len() - i < 8 {
        return false;
    }
    let r = raw[i] == '{' && raw[i + 1] == 'c' && raw[i + 2] == 'u' && raw[i + 3] == 'r' && raw[i
        + 4] == 's' && raw[i + 5] == 'o' && raw[i + 6] == 'r' && raw[i + 7] == '}';
    proof {
        let m = seq!['{', 'c', 'u', 'r', 's', 'o', 'r', '}'];
        if r {
            assert(raw@.subrange(i as int, i + 8) =~= m);
        } else {
            if raw@.subrange(i as int, i + 8) == m {
                assert(raw@.subrange(i as int, i + 8)[0] == m[0]);
                assert(raw@.subrange(i as int, i + 8)[1] == m[1]);
                assert(raw@.subrange(i as int, i + 8)[2] == m[2]);
                assert(raw@.subrange(i as int, i + 8)[3] == m[3]);
                assert(raw@.subrange(i as int, i + 8)[4] == m[4]);
                assert(raw@.subrange(i as int, i + 8)[5] == m[5]);
                assert(raw@.subrange(i as int, i + 8)[6] == m[6]);
                assert(raw@.subrange(i as int, i + 8)[7] == m[7]);
            }
        }
    }
    r
}

impl CompletionText {
    /// Reads a Fig-style insert value: `{cursor}` places the cursor,
    /// backspaces remove what precedes them, and a newline submits the line.
    pub fn from_insert_value(raw: &str) -> (r: CompletionText)
        ensures
            r.text@ == insert_text_of(raw@),
            r.cursor == insert_cursor_of(raw@),
            r.erase == insert_erase_of(raw@),
            r.submits_line == insert_text_of(raw@).contains('\n'),
            r.cursor <= r.text@.len(),
    {
        let chars = crate::text::chars_of(raw);
        let mut text: Vec<char> = Vec::new();
        let mut cursor: Option<usize> = None;
        let mut erase: usize = 0;
        let mut i: usize = 0;
        while i < chars.len()
            invariant
                chars@ == raw@,
                i <= chars@.len(),
                text@.len() <= i,
                erase <= i,
                cursor matches Some(k) ==> k <= text@.len(),
                parse_insert(
                    chars@,
                    i as int,
                    text@,
                    match cursor {
                        Some(k) => Some(k as int),
                        None => None,
                    },
                    erase as nat,
                ) == parse_insert(chars@, 0, seq![], None, 0),
            decreases chars@.len() - i,
        {
            if cursor_marker_at(&chars, i) {
                if cursor.is_none() {
                    cursor = Some(text.len());
                }
                i = i + 8;
            } else if chars[i] == '\u{8}' {
                if text.len() > 0 {
                    let n = text.len();
                    text.pop();
                    cursor = match cursor {
                        Some(k) => Some(if k < n - 1 { k } else { n - 1 }),
                        None => None,
                    };
                } else {
                    erase = erase + 1;
                }
                i = i + 1;
            } else {
                text.push(chars[i]);
                i = i + 1;
            }
        }
        let ghost r = parse_insert(chars@, 0, seq![], None, 0);
        proof {
            lemma_parse_insert_cursor(chars@, 0, seq![], None, 0);
        }
        let k = match cursor {
            Some(k) => k,
            None => text.len(),
        };
        let mut submits_line = false;
        let mut j: usize = 0;
        while j < text.len()
            invariant
                j <= text@.len(),
                submits_line == text@.subrange(0, j as int).contains('\n'),
            decreases text@.len() - j,
        {
            proof {
                let a = text@.subrange(0, j as int);
                let b = text@.subrange(0, j as int + 1);
                assert(b =~= a.push(text@[j as int]));
                if a.contains('\n') {
                    let w = choose|w: int| 0 <= w < a.len() && a[w] == '\n';
                    assert(b[w] == '\n');
                }
                if b.contains('\n') && !a.contains('\n') {
                    let w = choose|w: int| 0 <= w < b.len() && b[w] == '\n';
                    if w < a.len() {
                        assert(a[w] == '\n');
                    }
                }
                if text@[j as int] == '\n' {
                    assert(b[j as int] == '\n');
                }
            }
            if text[j] == '\n' {
                submits_line = true;
            }
            j = j + 1;
        }
        assert(text@.subrange(0, text@.len() as int) =~= text@);
        let t = string_from_chars(&text);
        CompletionText { text: t, cursor: k, erase, submits_line }
    }

    /// Whether the cursor ends after the whole text.
    pub fn cursor_at_end(&self) -> (r: bool)
        ensures
            r == (self.cursor == self.text@.len()),
    {
        self.cursor == self.text.unicode_len()
    }
}

/// Characters that end the token a completion replaces.
pub open spec fn is_boundary_char(c: char) -> bool {
    is_unicode_whitespace(c) || c == '|' || c == '&' || c == ';' || c == '>' || c == '<'
}

pub fn is_completion_boundary(c: char) -> (r: bool)
    ensures
        r == is_boundary_char(c),
{
    char_is_whitespace(c) || c == '|' || c == '&' || c == ';' || c == '>' || c == '<'
}

/// Moving left from `i` over characters whose whitespace-ness is `ws`.
pub open spec fn skip_back(s: Seq<char>, i: int, ws: bool) -> int
    decreases i,
{
    if i <= 0 || i > s.len() {
        i
    } else if is_unicode_whitespace(s[i - 1]) == ws {
        skip_back(s, i - 1, ws)
    } else {
        i
    }
}

/// Moving right from `i` while characters are not token boundaries.
pub open spec fn token_end(s: Seq<char>, i: int) -> int
    decreases s.len() - i,
{
    if i < 0 || i >= s.len() {
        i
    } else if is_boundary_char(s[i]) {
        i
    } else {
        token_end(s, i + 1)
    }
}

/// Start of the text a kill-word removes: whitespace left of the cursor, then the word before it.
pub open spec fn kill_word_start(s: Seq<char>, c: int) -> int {
    skip_back(s, skip_back(s, c, true), false)
}

proof fn lemma_skip_back_run(s: Seq<char>, i: int, ws: bool)
    requires
        0 <= i <= s.len(),
    ensures
        0 <= skip_back(s, i, ws) <= i,
        forall|j: int| skip_back(s, i, ws) <= j < i ==> is_unicode_whitespace(#[trigger] s[j]) == ws,
        skip_back(s, i, ws) == 0 || is_unicode_whitespace(s[skip_back(s, i, ws) - 1]) != ws,
    decreases i,
{
    if i > 0 && is_unicode_whitespace(s[i - 1]) == ws {
        lemma_skip_back_run(s, i - 1, ws);
    }
}

/// Ctrl-W removes the whitespace just before the cursor and then the whole
/// word before it: the removed text `s[k..c]` is non-whitespace characters
/// followed by whitespace characters, and it starts a word, at the start of
/// the line or right after whitespace. So with a word somewhere before the
/// cursor, something is always removed.
pub proof fn lemma_kill_word_removes_word_and_spaces(s: Seq<char>, c: int)
    requires
        0 <= c <= s.len(),
    ensures
        ({
            let k = kill_word_start(s, c);
            &&& 0 <= k <= c
            &&& forall|i: int, j: int|
                k <= i < j < c && is_unicode_whitespace(#[trigger] s[i]) ==> is_unicode_whitespace(#[trigger] s[j])
            &&& k == 0 || (is_unicode_whitespace(s[k - 1]) && k < c && !is_unicode_whitespace(s[k]))
            &&& (exists|j: int| 0 <= j < c && !is_unicode_whitespace(#[trigger] s[j])) ==> k < c
        }),
{
    let m = skip_back(s, c, true);
    lemma_skip_back_run(s, c, true);
    let k = skip_back(s, m, false);
    lemma_skip_back_run(s, m, false);
    assert(kill_word_start(s, c) == k);
    if k > 0 {
        assert(k < m);
        assert(!is_unicode_whitespace(s[k]));
    }
    assert forall|i: int, j: int|
        k <= i < j < c && is_unicode_whitespace(#[trigger] s[i]) implies is_unicode_whitespace(#[trigger] s[j]) by {
        if i < m {
            assert(!is_unicode_whitespace(s[i]));
        }
    }
    if exists|j: int| 0 <= j < c && !is_unicode_whitespace(#[trigger] s[j]) {
        let j = choose|j: int| 0 <= j < c && !is_unicode_whitespace(#[trigger] s[j]);
        if k == c {
            assert(m == c);
            assert(j < k);
            assert(k > 0);
        }
    }
}

/// `s` with the characters in `start..end` replaced by `ins`.
pub open spec fn splice(s: Seq<char>, start: int, end: int, ins: Seq<char>) -> Seq<char> {
    s.subrange(0, start) + ins + s.subrange(end, s.len() as int)
}

pub proof fn lemma_skip_back_bounds(s: Seq<char>, i: int, ws: bool)
    requires
        0 <= i <= s.len(),
    ensures
        0 <= skip_back(s, i, ws) <= i,
    decreases i,
{
    if i > 0 && is_unicode_whitespace(s[i - 1]) == ws {
        lemma_skip_back_bounds(s, i - 1, ws);
    }
}

pub proof fn lemma_token_end_bounds(s: Seq<char>, i: int)
    requires
        0 <= i <= s.len(),
    ensures
        i <= token_end(s, i) <= s.len(),
    decreases s.len() - i,
{
    if i < s.len() && !is_boundary_char(s[i]) {
        lemma_token_end_bounds(s, i + 1);
    }
}

fn splice_vec(v: &Vec<char>, start: usize, end: usize, ins: &Vec<char>) -> (r: Vec<char>)
    requires
        start <= end <= v@.len(),
    ensures
        r@ == splice(v@, start as int, end as int, ins@),
{
    let mut r: Vec<char> = Vec::new();
    let mut i: usize = 0;
    while i < start
        invariant
            i <= start <= end <= v@.len(),
            r@ == v@.subrange(0, i as int),
        decreases start - i,
    {
        r.push(v[i]);
        i = i + 1;
        assert(r@ =~= v@.subrange(0, i as int));
    }
    let mut j: usize = 0;
    while j < ins.len()
        invariant
            j <= ins@.len(),
            r@ == v@.subrange(0, start as int) + ins@.subrange(0, j as int),
        decreases ins@.len() - j,
    {
        r.push(ins[j]);
        j = j + 1;
        assert(r@ =~= v@.subrange(0, start as int) + ins@.subrange(0, j as int));
    }
    let mut k: usize = end;
    while k < v.len()
        invariant
            end <= k <= v@.len(),
            r@ == v@.subrange(0, start as int) + ins@ + v@.subrange(end as int, k as int),
        decreases v@.len() - k,
    {
        r.push(v[k]);
        k = k + 1;
        assert(r@ =~= v@.subrange(0, start as int) + ins@ + v@.subrange(end as int, k as int));
    }
    assert(ins@.subrange(0, ins@.len() as int) =~= ins@);
    r
}

impl LineState {
    #[verifier::type_invariant]
    spec fn well_formed(self) -> bool {
        &&& self.cursor <= self.buffer@.len()
        &&& utf8_len_of(self.buffer@) <= usize::MAX
    }

    /// The characters of the line.
    pub closed spec fn text(&self) -> Seq<char> {
        self.buffer@
    }

    /// The cursor as a character index into `text()`.
    pub closed spec fn pos(&self) -> int {
        self.cursor as int
    }

    pub fn new() -> (r: Self)
        ensures
            r.text() == Seq::<char>::empty(),
            r.pos() == 0,
    {
        LineState { buffer: Vec::new(), cursor: 0 }
    }

    pub fn clear(&mut self)
        ensures
            final(self).text() == Seq::<char>::empty(),
            final(self).pos() == 0,
    {
        *self = LineState { buffer: Vec::new(), cursor: 0 };
    }

    /// The whole line.
    pub fn buffer(&self) -> (s: String)
        ensures
            s@ == self.text(),
    {
        string_from_chars(&self.buffer)
    }

    /// The cursor as a byte offset into the line's UTF-8 text.
    pub fn cursor(&self) -> (n: usize)
        ensures
            n == utf8_len_of(self.text().subrange(0, self.pos())),
    {
        proof {
            use_type_invariant(self);
        }
        utf8_len_of_chars(&self.buffer, self.cursor)
    }

    /// Length of the line's UTF-8 text, in bytes.
    pub fn len_bytes(&self) -> (n: usize)
        ensures
            n == utf8_len_of(self.text()),
    {
        proof {
            use_type_invariant(self);
        }
        assert(self.buffer@.subrange(0, self.buffer@.len() as int) =~= self.buffer@);
        utf8_len_of_chars(&self.buffer, self.buffer.len())
    }

    /// The line up to the cursor.
    pub fn before_cursor(&self) -> (s: String)
        ensures
            s@ == self.text().subrange(0, self.pos()),
            0 <= self.pos() <= self.text().len(),
            utf8_len_of(self.text()) <= usize::MAX,
    {
        proof {
            use_type_invariant(self);
        }
        string_from_range(&self.buffer, 0, self.cursor)
    }

    /// Inserts the text the bytes encode, if they are valid UTF-8; else nothing changes.
    pub fn insert_bytes(&mut self, bytes: &[u8])
        requires
            valid_utf8(bytes@) ==> utf8_len_of(old(self).text()) + bytes@.len() <= usize::MAX,
        ensures
            valid_utf8(bytes@) ==> {
                &&& final(self).text() == splice(
                    old(self).text(),
                    old(self).pos(),
                    old(self).pos(),
                    decode_utf8(bytes@),
                )
                &&& final(self).pos() == old(self).pos() + decode_utf8(bytes@).len()
            },
            !valid_utf8(bytes@) ==> final(self).text() == old(self).text() && final(self).pos()
                == old(self).pos(),
    {
        match string_from_utf8(bytes) {
            Some(text) => {
                proof {
                    vstd::utf8::decode_utf8_encode_utf8(bytes@);
                    lemma_encode_len(decode_utf8(bytes@));
                }
                self.insert_text(text.as_str());
            },
            None => {},
        }
    }

    /// Inserts `text` at the cursor and moves the cursor past it.
    pub fn insert_text(&mut self, text: &str)
        requires
            utf8_len_of(old(self).text()) + utf8_len_of(text@) <= usize::MAX,
        ensures
            final(self).text() == splice(old(self).text(), old(self).pos(), old(self).pos(), text@),
            final(self).pos() == old(self).pos() + text@.len(),
    {
        proof {
            use_type_invariant(&*self);
        }
        let ins = crate::text::chars_of(text);
        let nb = splice_vec(&self.buffer, self.cursor, self.cursor, &ins);
        proof {
            lemma_utf8_len_of_concat(self.buffer@.subrange(0, self.cursor as int), ins@);
            lemma_utf8_len_of_concat(
                self.buffer@.subrange(0, self.cursor as int) + ins@,
                self.buffer@.subrange(self.cursor as int, self.buffer@.len() as int),
            );
            lemma_utf8_len_of_concat(
                self.buffer@.subrange(0, self.cursor as int),
                self.buffer@.subrange(self.cursor as int, self.buffer@.len() as int),
            );
            assert(self.buffer@.subrange(0, self.cursor as int) + self.buffer@.subrange(
                self.cursor as int,
                self.buffer@.len() as int,
            ) =~= self.buffer@);
            crate::text::lemma_utf8_len_of_ge_len(text@);
            crate::text::lemma_utf8_len_of_ge_len(self.buffer@);
        }
        let nc = self.cursor + ins.len();
        *self = LineState { buffer: nb, cursor: nc };
    }

    /// Deletes the character before the cursor; false when the cursor is at the start.
    pub fn backspace(&mut self) -> (r: bool)
        ensures
            r == (old(self).pos() > 0),
            r ==> final(self).text() == old(self).text().remove(old(self).pos() - 1)
                && final(self).pos() == old(self).pos() - 1,
            !r ==> final(self).text() == old(self).text() && final(self).pos() == old(self).pos(),
    {
        proof {
            use_type_invariant(&*self);
        }
        if self.cursor == 0 {
            return false;
        }
        let c = self.cursor;
        let nb = splice_vec(&self.buffer, c - 1, c, &Vec::new());
        proof {
            lemma_remove_shrinks(self.buffer@, c as int - 1);
        }
        assert(nb@ =~= self.buffer@.remove(c - 1));
        *self = LineState { buffer: nb, cursor: c - 1 };
        true
    }

    /// Deletes the character under the cursor; false when the cursor is at the end.
    pub fn delete(&mut self) -> (r: bool)
        ensures
            r == (old(self).pos() < old(self).text().len()),
            r ==> final(self).text() == old(self).text().remove(old(self).pos())
                && final(self).pos() == old(self).pos(),
            !r ==> final(self).text() == old(self).text() && final(self).pos() == old(self).pos(),
    {
        proof {
            use_type_invariant(&*self);
        }
        let c = self.cursor;
        if c >= self.buffer.len() {
            return false;
        }
        let nb = splice_vec(&self.buffer, c, c + 1, &Vec::new());
        proof {
            lemma_remove_shrinks(self.buffer@, c as int);
        }
        assert(nb@ =~= self.buffer@.remove(c as int));
        *self = LineState { buffer: nb, cursor: c };
        true
    }

    pub fn move_left(&mut self) -> (r: bool)
        ensures
            r == (old(self).pos() > 0),
            final(self).text() == old(self).text(),
            final(self).pos() == if r {
                old(self).pos() - 1
            } else {
                old(self).pos()
            },
    {
        proof {
            use_type_invariant(&*self);
        }
        if self.cursor == 0 {
            return false;
        }
        self.cursor = self.cursor - 1;
        true
    }

    pub fn move_right(&mut self) -> (r: bool)
        ensures
            r == (old(self).pos() < old(self).text().len()),
            final(self).text() == old(self).text(),
            final(self).pos() == if r {
                old(self).pos() + 1
            } else {
                old(self).pos()
            },
    {
        proof {
            use_type_invariant(&*self);
        }
        if self.cursor >= self.buffer.len() {
            return false;
        }
        self.cursor = self.cursor + 1;
        true
    }

    pub fn move_home(&mut self) -> (r: bool)
        ensures
            r == (old(self).pos() != 0),
            final(self).text() == old(self).text(),
            final(self).pos() == 0,
    {
        proof {
            use_type_invariant(&*self);
        }
        let moved = self.cursor != 0;
        self.cursor = 0;
        moved
    }

    pub fn move_end(&mut self) -> (r: bool)
        ensures
            r == (old(self).pos() != old(self).text().len()),
            final(self).text() == old(self).text(),
            final(self).pos() == old(self).text().len(),
    {
        proof {
            use_type_invariant(&*self);
        }
        let moved = self.cursor != self.buffer.len();
        self.cursor = self.buffer.len();
        moved
    }

    /// Deletes everything before the cursor; returns how many characters went.
    pub fn kill_line(&mut self) -> (removed: usize)
        ensures
            removed == old(self).pos(),
            final(self).text() == old(self).text().subrange(
                old(self).pos(),
                old(self).text().len() as int,
            ),
            final(self).pos() == 0,
    {
        proof {
            use_type_invariant(&*self);
        }
        let c = self.cursor;
        let nb = splice_vec(&self.buffer, 0, c, &Vec::new());
        proof {
            lemma_suffix_len(self.buffer@, c as int);
        }
        assert(nb@ =~= self.buffer@.subrange(c as int, self.buffer@.len() as int));
        *self = LineState { buffer: nb, cursor: 0 };
        c
    }

    /// Deletes the word before the cursor together with the whitespace that
    /// follows it; returns how many characters went.
    pub fn kill_last_word(&mut self) -> (removed: usize)
        ensures
            ({
                let s = old(self).text();
                let c = old(self).pos();
                let k = final(self).pos();
                &&& 0 <= k <= c
                &&& removed == c - k
                &&& final(self).text() == s.subrange(0, k) + s.subrange(c, s.len() as int)
                &&& forall|i: int, j: int|
                    k <= i < j < c && is_unicode_whitespace(#[trigger] s[i]) ==> is_unicode_whitespace(#[trigger] s[j])
                &&& k == 0 || (is_unicode_whitespace(s[k - 1]) && k < c && !is_unicode_whitespace(s[k]))
            }),
            removed == old(self).pos() - kill_word_start(old(self).text(), old(self).pos()),
            final(self).pos() == kill_word_start(old(self).text(), old(self).pos()),
            final(self).text() == splice(
                old(self).text(),
                kill_word_start(old(self).text(), old(self).pos()),
                old(self).pos(),
                Seq::<char>::empty(),
            ),
    {
        proof {
            use_type_invariant(&*self);
        }
        let end = self.cursor;
        let ghost s = self.buffer@;
        proof {
            lemma_kill_word_removes_word_and_spaces(s, end as int);
        }
        let mut k = end;
        let mut done = false;
        while k > 0 && !done
            invariant
                s == self.buffer@,
                k <= end <= s.len(),
                skip_back(s, k as int, true) == skip_back(s, end as int, true),
                done ==> skip_back(s, k as int, true) == k,
            decreases k + (if done { 0int } else { 1int }),
        {
            if char_is_whitespace(self.buffer[k - 1]) {
                k = k - 1;
            } else {
                done = true;
            }
        }
        let ghost k1 = k;
        done = false;
        while k > 0 && !done
            invariant
                s == self.buffer@,
                k <= k1 <= end <= s.len(),
                k1 as int == skip_back(s, end as int, true),
                skip_back(s, k as int, false) == skip_back(s, k1 as int, false),
                done ==> skip_back(s, k as int, false) == k,
            decreases k + (if done { 0int } else { 1int }),
        {
            if !char_is_whitespace(self.buffer[k - 1]) {
                k = k - 1;
            } else {
                done = true;
            }
        }
        let empty: Vec<char> = Vec::new();
        let nb = splice_vec(&self.buffer, k, end, &empty);
        proof {
            lemma_splice_empty_shrinks(s, k as int, end as int);
        }
        assert(Seq::<char>::empty() =~= empty@);
        *self = LineState { buffer: nb, cursor: k };
        end - k
    }

    /// Replaces the current token with `replacement` (plus a space when asked):
    /// the `partial_chars` characters before the cursor and, when `partial_chars`
    /// is not zero, the rest of the token after the cursor.
    pub fn apply_completion(&mut self, replacement: &str, partial_chars: usize, append_space: bool) -> (edit: CompletionEdit)
        requires
            utf8_len_of(old(self).text()) + utf8_len_of(replacement@) + 1 <= usize::MAX,
        ensures
            ({
                let s = old(self).text();
                let c = old(self).pos();
                let start = if partial_chars <= c {
                    c - partial_chars
                } else {
                    0
                };
                let end = if partial_chars == 0 {
                    c
                } else {
                    token_end(s, c)
                };
                let ins = if append_space {
                    replacement@.push(' ')
                } else {
                    replacement@
                };
                &&& edit.delete_left == c - start
                &&& edit.delete_right == end - c
                &&& edit.insert_text@ == ins
                &&& edit.move_left == 0
                &&& final(self).text() == splice(s, start, end, ins)
                &&& final(self).pos() == start + ins.len()
            }),
    {
        proof {
            use_type_invariant(&*self);
        }
        let c = self.cursor;
        let start = if partial_chars <= c {
            c - partial_chars
        } else {
            0
        };
        let end = if partial_chars == 0 {
            c
        } else {
            self.token_end_from_cursor()
        };
        let mut ins = crate::text::chars_of(replacement);
        if append_space {
            ins.push(' ');
        }
        let insert_text = string_from_chars(&ins);
        let nb = splice_vec(&self.buffer, start, end, &ins);
        proof {
            let s = self.buffer@;
            lemma_token_end_bounds(s, c as int);
            crate::text::lemma_utf8_len_of_ge_len(ins@);
            crate::text::lemma_utf8_len_of_ge_len(s);
            crate::text::lemma_utf8_len_of_push(replacement@, ' ');
            lemma_splice_size(s, start as int, end as int, ins@);
        }
        let nc = start + ins.len();
        *self = LineState { buffer: nb, cursor: nc };
        CompletionEdit { delete_left: c - start, delete_right: end - c, insert_text, move_left: 0 }
    }

    /// Whether accepting a completion should add a space after it: never for a
    /// folder, never with text after the cursor, else only at the end of the token.
    pub fn should_append_space(&self, insert_kind_is_folder: bool, partial_chars: usize) -> (r: bool)
        ensures
            r == (!insert_kind_is_folder && self.pos() >= self.text().len() && (partial_chars == 0
                || token_end(self.text(), self.pos()) == self.pos())),
    {
        if insert_kind_is_folder {
            return false;
        }
        if self.cursor < self.buffer.len() {
            return false;
        }
        if partial_chars == 0 {
            return true;
        }
        self.token_end_from_cursor() == self.cursor
    }

    /// Replaces `start..end` of the line (a span around the cursor) with the
    /// completion's text, first erasing as many characters before `start` as
    /// its leading backspaces ask (never past the line's start), with a space
    /// after it when asked. The cursor ends where the completion puts it: at
    /// its mark, or after everything inserted. The edit is the keystrokes of
    /// the same change: deletes right of the cursor, backspaces left of it, the
    /// text, and the moves back to the mark.
    pub fn apply_completion_span(
        &mut self,
        completion: &CompletionText,
        start: usize,
        end: usize,
        append_space: bool,
    ) -> (edit: CompletionEdit)
        requires
            start <= old(self).pos() <= end <= old(self).text().len(),
            completion.cursor <= completion.text@.len(),
            utf8_len_of(old(self).text()) + utf8_len_of(completion.text@) + 1 <= usize::MAX,
        ensures
            ({
                let s = old(self).text();
                let c = old(self).pos();
                let from = span_start(start as int, completion.erase as int);
                let ins = if append_space {
                    completion.text@.push(' ')
                } else {
                    completion.text@
                };
                let k = span_cursor(completion.cursor as int, completion.text@.len() as int, ins.len() as int);
                &&& edit.delete_left == c - from
                &&& edit.delete_right == end - c
                &&& edit.insert_text@ == ins
                &&& edit.move_left == ins.len() - k
                &&& final(self).text() == splice(s, from, end as int, ins)
                &&& final(self).pos() == from + k
            }),
    {
        proof {
            use_type_invariant(&*self);
        }
        let c = self.cursor;
        let from = if completion.erase <= start {
            start - completion.erase
        } else {
            0
        };
        let mut ins = crate::text::chars_of(completion.text.as_str());
        let tl = ins.len();
        if append_space {
            ins.push(' ');
        }
        let k = if completion.cursor < tl {
            completion.cursor
        } else {
            ins.len()
        };
        let insert_text = string_from_chars(&ins);
        let nb = splice_vec(&self.buffer, from, end, &ins);
        proof {
            let s = self.buffer@;
            crate::text::lemma_utf8_len_of_ge_len(ins@);
            crate::text::lemma_utf8_len_of_ge_len(s);
            crate::text::lemma_utf8_len_of_push(completion.text@, ' ');
            lemma_splice_size(s, from as int, end as int, ins@);
        }
        let nc = from + k;
        let ml = ins.len() - k;
        *self = LineState { buffer: nb, cursor: nc };
        CompletionEdit { delete_left: c - from, delete_right: end - c, insert_text, move_left: ml }
    }

    /// Whether accepting a completion over a span ending at `end` should add a
    /// space after it: not for a folder, not inside open quotes, and only when
    /// the span reaches the end of the line.
    pub fn should_append_space_for_span(&self, insert_kind_is_folder: bool, end: usize, quote_mode: QuoteMode) -> (r: bool)
        ensures
            r == (!insert_kind_is_folder && end == self.text().len() && quote_mode == QuoteMode::Plain),
    {
        !insert_kind_is_folder && end == self.buffer.len() && matches!(quote_mode, QuoteMode::Plain)
    }

    fn token_end_from_cursor(&self) -> (e: usize)
        ensures
            e == token_end(self.text(), self.pos()),
            self.pos() <= e <= self.text().len(),
    {
        proof {
            use_type_invariant(self);
            lemma_token_end_bounds(self.buffer@, self.cursor as int);
        }
        let mut index = self.cursor;
        while index < self.buffer.len() && !is_completion_boundary(self.buffer[index])
            invariant
                self.cursor <= index <= self.buffer@.len(),
                token_end(self.buffer@, index as int) == token_end(self.buffer@, self.cursor as int),
            decreases self.buffer@.len() - index,
        {
            index = index + 1;
        }
        index
    }
}

impl Default for LineState {
    fn default() -> (r: Self)
        ensures
            r.text() == Seq::<char>::empty(),
            r.pos() == 0,
    {
        LineState::new()
    }
}

proof fn lemma_encode_len(s: Seq<char>)
    ensures
        utf8_len_of(s) == vstd::utf8::encode_utf8(s).len(),
    decreases s.len(),
{
    if s.len() > 0 {
        lemma_encode_len(s.drop_first());
        vstd::utf8::char_is_scalar(s[0]);
        lemma_utf8_len_of_concat(seq![s[0]], s.drop_first());
        assert(seq![s[0]] + s.drop_first() =~= s);
        assert(seq![s[0]].drop_last() =~= Seq::<char>::empty());
        let u = s[0] as u32;
        assert(vstd::utf8::encode_scalar(u).len() == crate::text::utf8_len(s[0]));
        crate::text::lemma_utf8_len_of_push(Seq::<char>::empty(), s[0]);
        assert(Seq::<char>::empty().push(s[0]) =~= seq![s[0]]);
    }
}

proof fn lemma_remove_shrinks(s: Seq<char>, i: int)
    requires
        0 <= i < s.len(),
    ensures
        utf8_len_of(s.remove(i)) <= utf8_len_of(s),
{
    lemma_utf8_len_of_concat(s.subrange(0, i), s.subrange(i + 1, s.len() as int));
    lemma_utf8_len_of_concat(s.subrange(0, i), s.subrange(i, s.len() as int));
    lemma_utf8_len_of_concat(seq![s[i]], s.subrange(i + 1, s.len() as int));
    assert(s.subrange(i, s.len() as int) =~= seq![s[i]] + s.subrange(i + 1, s.len() as int));
    assert(s.remove(i) =~= s.subrange(0, i) + s.subrange(i + 1, s.len() as int));
    assert(s =~= s.subrange(0, i) + s.subrange(i, s.len() as int));
}

proof fn lemma_suffix_len(s: Seq<char>, i: int)
    requires
        0 <= i <= s.len(),
    ensures
        utf8_len_of(s.subrange(i, s.len() as int)) <= utf8_len_of(s),
{
    lemma_utf8_len_of_concat(s.subrange(0, i), s.subrange(i, s.len() as int));
    assert(s =~= s.subrange(0, i) + s.subrange(i, s.len() as int));
}

proof fn lemma_splice_empty_shrinks(s: Seq<char>, a: int, b: int)
    requires
        0 <= a <= b <= s.len(),
    ensures
        utf8_len_of(splice(s, a, b, Seq::<char>::empty())) <= utf8_len_of(s),
{
    lemma_utf8_len_of_concat(s.subrange(0, a), s.subrange(b, s.len() as int));
    lemma_utf8_len_of_concat(s.subrange(0, a), s.subrange(a, s.len() as int));
    lemma_utf8_len_of_concat(s.subrange(a, b), s.subrange(b, s.len() as int));
    assert(s.subrange(a, s.len() as int) =~= s.subrange(a, b) + s.subrange(b, s.len() as int));
    assert(splice(s, a, b, Seq::<char>::empty()) =~= s.subrange(0, a) + s.subrange(b, s.len() as int));
    assert(s =~= s.subrange(0, a) + s.subrange(a, s.len() as int));
}

proof fn lemma_splice_size(s: Seq<char>, a: int, b: int, ins: Seq<char>)
    requires
        0 <= a <= b <= s.len(),
    ensures
        utf8_len_of(splice(s, a, b, ins)) <= utf8_len_of(s) + utf8_len_of(ins),
{
    lemma_splice_empty_shrinks(s, a, b);
    lemma_utf8_len_of_concat(s.subrange(0, a), ins);
    lemma_utf8_len_of_concat(s.subrange(0, a) + ins, s.subrange(b, s.len() as int));
    lemma_utf8_len_of_concat(s.subrange(0, a), s.subrange(b, s.len() as int));
    assert(splice(s, a, b, Seq::<char>::empty()) =~= s.subrange(0, a) + s.subrange(b, s.len() as int));
}

} // verus!
