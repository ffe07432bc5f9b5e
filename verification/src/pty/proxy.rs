//! What the shell proxy keeps track of between the user's terminal and the
//! wrapped shell: the working directory the shell reports, where the cursor
//! is, and the keystrokes that carry an accepted completion.
use crate::completion::engine::opt_view;
use crate::text::string_from_utf8;
use vstd::prelude::*;
use vstd::slice::slice_subrange;
use vstd::utf8::{decode_utf8, encode_utf8, is_continuation_byte, valid_utf8};

verus! {

// ---------------------------------------------------------------------------
// Percent-decoding and OSC 7 working-directory reports
// ---------------------------------------------------------------------------

/// The value of an ASCII hex digit.
pub open spec fn hex_value(b: u8) -> Option<u8> {
    if 0x30 <= b <= 0x39 {
        Some((b - 0x30) as u8)
    } else if 0x61 <= b <= 0x66 {
        Some((b - 0x61 + 10) as u8)
    } else if 0x41 <= b <= 0x46 {
        Some((b - 0x41 + 10) as u8)
    } else {
        None
    }
}

/// A two-byte string read as a base-16 `u8`: two hex digits, or a `+` sign
/// and one hex digit.
pub open spec fn hex_pair(b1: u8, b2: u8) -> Option<u8> {
    if b1 == 0x2b {
        hex_value(b2)
    } else {
        match (hex_value(b1), hex_value(b2)) {
            (Some(h), Some(l)) => Some((h * 16 + l) as u8),
            _ => None,
        }
    }
}

/// Whether decoding from byte `i` on never slices the text inside a character:
/// the two bytes after a `%` must end on a character boundary.
pub open spec fn pd_ok(b: Seq<u8>, i: int) -> bool
    decreases b.len() - i,
{
    if i < 0 || i >= b.len() {
        true
    } else if b[i] == 0x25 && i + 2 < b.len() {
        if i + 3 < b.len() && is_continuation_byte(b[i + 3]) {
            false
        } else if hex_pair(b[i + 1], b[i + 2]) is Some {
            pd_ok(b, i + 3)
        } else {
            pd_ok(b, i + 1)
        }
    } else {
        pd_ok(b, i + 1)
    }
}

/// The bytes that percent-decoding produces from byte `i` on: `%` and two hex
/// digits become that byte, everything else is copied.
pub open spec fn pd_bytes(b: Seq<u8>, i: int) -> Seq<u8>
    decreases b.len() - i,
{
    if i < 0 || i >= b.len() {
        Seq::<u8>::empty()
    } else if b[i] == 0x25 && i + 2 < b.len() && hex_pair(b[i + 1], b[i + 2]) is Some {
        seq![hex_pair(b[i + 1], b[i + 2])->0] + pd_bytes(b, i + 3)
    } else {
        seq![b[i]] + pd_bytes(b, i + 1)
    }
}

/// The percent-decoded text, or the text unchanged when the decoded bytes are
/// not UTF-8.
pub open spec fn percent_decoded(s: Seq<char>) -> Seq<char> {
    let d = pd_bytes(encode_utf8(s), 0);
    if valid_utf8(d) {
        decode_utf8(d)
    } else {
        s
    }
}

fn hex_digit(b: u8) -> (r: Option<u8>)
    ensures
        r == hex_value(b),
{
    if 0x30 <= b && b <= 0x39 {
        Some(b - 0x30)
    } else if 0x61 <= b && b <= 0x66 {
        Some(b - 0x61 + 10)
    } else if 0x41 <= b && b <= 0x46 {
        Some(b - 0x41 + 10)
    } else {
        None
    }
}

fn parse_hex_pair(b1: u8, b2: u8) -> (r: Option<u8>)
    ensures
        r == hex_pair(b1, b2),
{
    if b1 == 0x2b {
        hex_digit(b2)
    } else {
        match (hex_digit(b1), hex_digit(b2)) {
            (Some(h), Some(l)) => Some(h * 16 + l),
            _ => None,
        }
    }
}

/// Percent-decoding that reports, with `None`, the inputs on which slicing
/// the text would cut a character.
fn try_percent_decode(input: &str) -> (r: Option<String>)
    ensures
        r is Some <==> pd_ok(encode_utf8(input@), 0),
        r matches Some(s) ==> s@ == percent_decoded(input@),
{
    let bytes = input.as_bytes();
    let ghost b = bytes@;
    let mut decoded: Vec<u8> = Vec::new();
    let mut index: usize = 0;
    while index < bytes.len()
        invariant
            b == bytes@,
            b == encode_utf8(input@),
            index <= b.len(),
            pd_ok(b, 0) == pd_ok(b, index as int),
            decoded@ + pd_bytes(b, index as int) == pd_bytes(b, 0),
        decreases b.len() - index,
    {
        if bytes[index] == 0x25 && bytes.len() - index > 2 {
            if bytes.len() - index > 3 && 0x80 <= bytes[index + 3] && bytes[index + 3] <= 0xbf {
                return None;
            }
            match parse_hex_pair(bytes[index + 1], bytes[index + 2]) {
                Some(v) => {
                    let ghost before = decoded@;
                    decoded.push(v);
                    assert(decoded@ + pd_bytes(b, index + 3) =~= before + pd_bytes(b, index as int));
                    index = index + 3;
                    continue;
                },
                None => {},
            }
        }
        let ghost before = decoded@;
        decoded.push(bytes[index]);
        assert(decoded@ + pd_bytes(b, index + 1) =~= before + pd_bytes(b, index as int));
        index = index + 1;
    }
    assert(decoded@ =~= pd_bytes(b, 0));
    proof {
        vstd::utf8::encode_utf8_decode_utf8(input@);
    }
    match string_from_utf8(decoded.as_slice()) {
        Some(s) => Some(s),
        None => Some(input.to_owned()),
    }
}

/// Decodes `%XX` escapes (as an OSC 7 report writes a path).
pub fn percent_decode(input: &str) -> (r: String)
    requires
        pd_ok(encode_utf8(input@), 0),
    ensures
        r@ == percent_decoded(input@),
{
    match try_percent_decode(input) {
        Some(s) => s,
        None => input.to_owned(),
    }
}

/// `]7;file://`, the start of an OSC 7 report after its escape byte.
pub open spec fn osc7_prefix() -> Seq<u8> {
    seq![0x5du8, 0x37u8, 0x3bu8, 0x66u8, 0x69u8, 0x6cu8, 0x65u8, 0x3au8, 0x2fu8, 0x2fu8]
}

/// Index of the first `b` at or after `i`.
pub open spec fn first_index_of(s: Seq<u8>, b: u8, i: int) -> Option<int>
    decreases s.len() - i,
{
    if i < 0 || i >= s.len() {
        None
    } else if s[i] == b {
        Some(i)
    } else {
        first_index_of(s, b, i + 1)
    }
}

/// The raw path bytes of an OSC 7 report: after the host, up to the
/// terminator (BEL, or ESC `\`), when they are UTF-8.
pub open spec fn osc7_raw_path(seq: Seq<u8>) -> Option<Seq<u8>> {
    if seq.len() < 10 || seq.subrange(0, 10) != osc7_prefix() {
        None
    } else {
        let body = seq.subrange(10, seq.len() as int);
        let term: int = if body.len() >= 2 && body[body.len() - 2] == 0x1b && body[body.len()
            - 1] == 0x5c {
            2
        } else {
            1
        };
        let keep: int = if body.len() >= term {
            body.len() - term
        } else {
            0
        };
        let content = body.subrange(0, keep);
        match first_index_of(content, 0x2f, 0) {
            None => None,
            Some(p) => {
                let raw = content.subrange(p, content.len() as int);
                if valid_utf8(raw) {
                    Some(raw)
                } else {
                    None
                }
            },
        }
    }
}

/// The working directory an OSC 7 report names.
pub open spec fn spec_parse_osc7_path(seq: Seq<u8>) -> Option<Seq<char>> {
    match osc7_raw_path(seq) {
        Some(raw) => Some(percent_decoded(decode_utf8(raw))),
        None => None,
    }
}

/// Whether reading the report's path never cuts a character (see `pd_ok`).
pub open spec fn osc7_safe(seq: Seq<u8>) -> bool {
    match osc7_raw_path(seq) {
        Some(raw) => pd_ok(raw, 0),
        None => true,
    }
}

proof fn lemma_first_index_skip(s: Seq<u8>, b: u8, i: int, j: int)
    requires
        0 <= i <= j,
        forall|k: int| i <= k < j && k < s.len() ==> s[k] != b,
    ensures
        first_index_of(s, b, i) == first_index_of(s, b, j) || (j > s.len() && first_index_of(
            s,
            b,
            i,
        ) is None),
    decreases j - i,
{
    if i < j && i < s.len() {
        lemma_first_index_skip(s, b, i + 1, j);
    }
}

/// The first `b` in `s` at or after `from`.
fn find_byte(s: &[u8], from: usize, b: u8) -> (r: Option<usize>)
    requires
        from <= s@.len(),
    ensures
        r matches Some(k) ==> first_index_of(s@, b, from as int) == Some(k as int) && from <= k
            < s@.len(),
        r is None ==> first_index_of(s@, b, from as int) is None,
{
    let mut i = from;
    while i < s.len()
        invariant
            from <= i <= s@.len(),
            forall|k: int| from <= k < i ==> s@[k] != b,
        decreases s@.len() - i,
    {
        if s[i] == b {
            proof {
                lemma_first_index_skip(s@, b, from as int, i as int);
            }
            return Some(i);
        }
        i = i + 1;
    }
    proof {
        lemma_first_index_skip(s@, b, from as int, i as int);
    }
    None
}

/// OSC 7 parsing that reports, with `None`, the reports whose path decoding
/// would cut a character.
fn try_parse_osc7_path(sequence: &[u8]) -> (r: Option<Option<String>>)
    ensures
        r is Some <==> osc7_safe(sequence@),
        r matches Some(p) ==> opt_view(p) == spec_parse_osc7_path(sequence@),
{
    let n = sequence.len();
    if n < 10 || sequence[0] != 0x5d || sequence[1] != 0x37 || sequence[2] != 0x3b || sequence[3]
        != 0x66 || sequence[4] != 0x69 || sequence[5] != 0x6c || sequence[6] != 0x65 || sequence[7]
        != 0x3a || sequence[8] != 0x2f || sequence[9] != 0x2f {
        proof {
            if n >= 10 {
                assert(sequence@.subrange(0, 10) != osc7_prefix()) by {
                    let p = sequence@.subrange(0, 10);
                    assert(p[0] == sequence@[0] && p[1] == sequence@[1] && p[2] == sequence@[2]
                        && p[3] == sequence@[3] && p[4] == sequence@[4] && p[5] == sequence@[5]
                        && p[6] == sequence@[6] && p[7] == sequence@[7] && p[8] == sequence@[8]
                        && p[9] == sequence@[9]);
                }
            }
        }
        return Some(None);
    }
    assert(sequence@.subrange(0, 10) =~= osc7_prefix());
    let body = slice_subrange(sequence, 10, n);
    let bl = body.len();
    let term: usize = if bl >= 2 && body[bl - 2] == 0x1b && body[bl - 1] == 0x5c {
        2
    } else {
        1
    };
    let keep: usize = if bl >= term {
        bl - term
    } else {
        0
    };
    let content = slice_subrange(body, 0, keep);
    match find_byte(content, 0, 0x2f) {
        None => Some(None),
        Some(p) => {
            let raw = slice_subrange(content, p, content.len());
            match string_from_utf8(raw) {
                None => Some(None),
                Some(raw_path) => {
                    proof {
                        vstd::utf8::decode_utf8_encode_utf8(raw@);
                    }
                    match try_percent_decode(raw_path.as_str()) {
                        None => None,
                        Some(path) => Some(Some(path)),
                    }
                },
            }
        },
    }
}

/// The working directory named by an OSC 7 report (`]7;file://host/path`
/// and its terminator), percent-decoded.
pub fn parse_osc7_path(sequence: &[u8]) -> (r: Option<String>)
    requires
        osc7_safe(sequence@),
    ensures
        opt_view(r) == spec_parse_osc7_path(sequence@),
{
    match try_parse_osc7_path(sequence) {
        Some(p) => p,
        None => None,
    }
}

// ---------------------------------------------------------------------------
// Cursor tracking from the shell's output
// ---------------------------------------------------------------------------

/// `a - b`, or zero.
pub open spec fn sat_sub(a: u16, b: u16) -> u16 {
    if a >= b {
        (a - b) as u16
    } else {
        0
    }
}

/// `a + b`, or `u16::MAX`.
pub open spec fn sat_add(a: u16, b: u16) -> u16 {
    if a + b <= 0xffff {
        (a + b) as u16
    } else {
        0xffff
    }
}

pub open spec fn min16(a: u16, b: u16) -> u16 {
    if a <= b {
        a
    } else {
        b
    }
}

/// The length of the UTF-8 character a lead byte starts (1 for a byte that
/// starts none).
pub open spec fn spec_utf8_char_len(first: u8) -> usize {
    if first <= 0x7f {
        1
    } else if 0xc0 <= first <= 0xdf {
        2
    } else if 0xe0 <= first <= 0xef {
        3
    } else if 0xf0 <= first <= 0xf7 {
        4
    } else {
        1
    }
}

pub fn utf8_char_len(first: u8) -> (n: usize)
    ensures
        n == spec_utf8_char_len(first),
{
    if first <= 0x7f {
        1
    } else if 0xc0 <= first && first <= 0xdf {
        2
    } else if 0xe0 <= first && first <= 0xef {
        3
    } else if 0xf0 <= first && first <= 0xf7 {
        4
    } else {
        1
    }
}

/// The cursor after printing one column: the next column, or the start of the
/// next row (the last row stays last) when the line is full.
pub open spec fn cursor_step(row: u16, col: u16, cols: u16, rows: u16) -> (u16, u16) {
    if sat_add(col, 1) >= cols {
        (
            if row < sat_sub(rows, 1) {
                (row + 1) as u16
            } else {
                row
            },
            0u16,
        )
    } else {
        (row, (col + 1) as u16)
    }
}

pub open spec fn advance(row: u16, col: u16, n: nat, cols: u16, rows: u16) -> (u16, u16)
    decreases n,
{
    if n == 0 {
        (row, col)
    } else {
        let (r, c) = cursor_step(row, col, cols, rows);
        advance(r, c, (n - 1) as nat, cols, rows)
    }
}

/// The cursor after printing `width` columns on a `cols` x `rows` terminal
/// (unchanged when either is zero).
pub open spec fn spec_advance_cursor(row: u16, col: u16, width: u16, cols: u16, rows: u16) -> (
    u16,
    u16,
) {
    if cols == 0 || width == 0 {
        (row, col)
    } else {
        advance(row, col, width as nat, cols, rows)
    }
}

pub fn advance_cursor(
    last_cursor_row: &mut u16,
    last_cursor_col: &mut u16,
    width: u16,
    term_cols: u16,
    term_rows: u16,
)
    ensures
        (*final(last_cursor_row), *final(last_cursor_col)) == spec_advance_cursor(
            *old(last_cursor_row),
            *old(last_cursor_col),
            width,
            term_cols,
            term_rows,
        ),
{
    if term_cols == 0 || width == 0 {
        return ;
    }
    let ghost r0 = *last_cursor_row;
    let ghost c0 = *last_cursor_col;
    let mut k: u16 = 0;
    while k < width
        invariant
            k <= width,
            advance(*last_cursor_row, *last_cursor_col, (width - k) as nat, term_cols, term_rows)
                == advance(r0, c0, width as nat, term_cols, term_rows),
        decreases width - k,
    {
        let sat = if *last_cursor_col < 0xffff {
            *last_cursor_col + 1
        } else {
            0xffff
        };
        if sat >= term_cols {
            *last_cursor_col = 0;
            let last_row = if term_rows >= 1 {
                term_rows - 1
            } else {
                0
            };
            if *last_cursor_row < last_row {
                *last_cursor_row = *last_cursor_row + 1;
            }
        } else {
            *last_cursor_col = *last_cursor_col + 1;
        }
        k = k + 1;
    }
}

/// The bytes after any leading `?`.
pub open spec fn strip_question(s: Seq<u8>) -> Seq<u8>
    decreases s.len(),
{
    if s.len() > 0 && s[0] == 0x3f {
        strip_question(s.drop_first())
    } else {
        s
    }
}

/// The `n`-th `;`-separated field.
pub open spec fn csi_field(s: Seq<u8>, n: nat) -> Option<Seq<u8>>
    decreases n,
{
    match first_index_of(s, 0x3b, 0) {
        None => if n == 0 {
            Some(s)
        } else {
            None
        },
        Some(k) => if n == 0 {
            Some(s.subrange(0, k))
        } else {
            csi_field(s.subrange(k + 1, s.len() as int), (n - 1) as nat)
        },
    }
}

pub open spec fn all_digits(s: Seq<u8>) -> bool {
    forall|i: int| 0 <= i < s.len() ==> 0x30 <= #[trigger] s[i] <= 0x39
}

pub open spec fn decimal_value(s: Seq<u8>) -> nat
    decreases s.len(),
{
    if s.len() == 0 {
        0
    } else {
        decimal_value(s.drop_last()) * 10 + (s.last() - 0x30) as nat
    }
}

/// A decimal `u16`, with an optional `+` sign, as `str::parse` reads one.
pub open spec fn parse_u16(s: Seq<u8>) -> Option<u16> {
    let d = if s.len() > 0 && s[0] == 0x2b {
        s.drop_first()
    } else {
        s
    };
    if d.len() > 0 && all_digits(d) && decimal_value(d) <= 0xffff {
        Some(decimal_value(d) as u16)
    } else {
        None
    }
}

/// The `index`-th numeric parameter of a CSI sequence, or `default` when it is
/// absent, empty or not a number.
pub open spec fn spec_csi_param(params: Seq<u8>, index: nat, default: u16) -> u16 {
    match csi_field(strip_question(params), index) {
        Some(f) => if f.len() > 0 && parse_u16(f) is Some {
            parse_u16(f)->0
        } else {
            default
        },
        None => default,
    }
}

proof fn lemma_decimal_capped(s: Seq<u8>)
    requires
        s.len() > 0,
        all_digits(s),
    ensures
        decimal_value(s) >= decimal_value(s.drop_last()),
{
}

fn parse_u16_bytes(s: &[u8], start: usize, end: usize) -> (r: Option<u16>)
    requires
        start <= end <= s@.len(),
    ensures
        r == parse_u16(s@.subrange(start as int, end as int)),
{
    let ghost f = s@.subrange(start as int, end as int);
    let mut i = start;
    if i < end && s[i] == 0x2b {
        i = i + 1;
    }
    let ghost d = s@.subrange(i as int, end as int);
    assert(d =~= (if f.len() > 0 && f[0] == 0x2b {
        f.drop_first()
    } else {
        f
    }));
    if i == end {
        return None;
    }
    let first = i;
    let mut acc: u32 = 0;
    while i < end
        invariant
            first <= i <= end <= s@.len(),
            d == s@.subrange(first as int, end as int),
            f == s@.subrange(start as int, end as int),
            d == (if f.len() > 0 && f[0] == 0x2b {
                f.drop_first()
            } else {
                f
            }),
            all_digits(s@.subrange(first as int, i as int)),
            acc == (if decimal_value(s@.subrange(first as int, i as int)) <= 0x10000 {
                decimal_value(s@.subrange(first as int, i as int))
            } else {
                0x10000
            }),
        decreases end - i,
    {
        let c = s[i];
        let ghost pre = s@.subrange(first as int, i as int);
        let ghost next = s@.subrange(first as int, i + 1);
        if c < 0x30 || c > 0x39 {
            assert(!all_digits(d)) by {
                assert(d[i - first] == c);
            }
            return None;
        }
        assert(next.drop_last() =~= pre);
        assert(next.last() == c);
        let v = acc * 10 + (c - 0x30) as u32;
        acc = if v > 0x10000 {
            0x10000
        } else {
            v
        };
        i = i + 1;
        assert(all_digits(next)) by {
            assert forall|j: int| 0 <= j < next.len() implies 0x30 <= #[trigger] next[j] <= 0x39 by {
                if j < pre.len() {
                    assert(next[j] == pre[j]);
                }
            }
        }
    }
    assert(s@.subrange(first as int, i as int) =~= d);
    if acc <= 0xffff {
        Some(acc as u16)
    } else {
        None
    }
}

/// The `index`-th numeric parameter of a CSI sequence's parameter bytes.
pub fn parse_csi_param(params: &[u8], index: usize, default: u16) -> (r: u16)
    ensures
        r == spec_csi_param(params@, index as nat, default),
{
    let n = params.len();
    let mut start: usize = 0;
    assert(params@.subrange(0, n as int) =~= params@);
    while start < n && params[start] == 0x3f
        invariant
            start <= n == params@.len(),
            strip_question(params@.subrange(start as int, n as int)) == strip_question(params@),
        decreases n - start,
    {
        assert(params@.subrange(start as int + 1, n as int) =~= params@.subrange(
            start as int,
            n as int,
        ).drop_first());
        start = start + 1;
    }
    assert(strip_question(params@.subrange(start as int, n as int)) =~= params@.subrange(
        start as int,
        n as int,
    ));
    let mut k: usize = 0;
    while k < index
        invariant
            start <= n == params@.len(),
            k <= index,
            csi_field(params@.subrange(start as int, n as int), (index - k) as nat) == csi_field(
                strip_question(params@),
                index as nat,
            ),
        decreases index - k,
    {
        let ghost sub = params@.subrange(start as int, n as int);
        match find_byte(params, start, 0x3b) {
            None => {
                proof {
                    lemma_first_index_shift(params@, 0x3b, start as int);
                }
                return default;
            },
            Some(j) => {
                proof {
                    lemma_first_index_shift(params@, 0x3b, start as int);
                    assert(sub.subrange(j - start + 1, sub.len() as int) =~= params@.subrange(
                        j + 1,
                        n as int,
                    ));
                }
                start = j + 1;
            },
        }
        k = k + 1;
    }
    let ghost sub = params@.subrange(start as int, n as int);
    let end = match find_byte(params, start, 0x3b) {
        None => n,
        Some(j) => j,
    };
    proof {
        lemma_first_index_shift(params@, 0x3b, start as int);
        assert(params@.subrange(start as int, end as int) =~= (if end == n {
            sub
        } else {
            sub.subrange(0, end - start)
        }));
    }
    if end == start {
        return default;
    }
    match parse_u16_bytes(params, start, end) {
        Some(v) => v,
        None => default,
    }
}

proof fn lemma_first_index_shift(s: Seq<u8>, b: u8, start: int)
    requires
        0 <= start <= s.len(),
    ensures
        first_index_of(s.subrange(start, s.len() as int), b, 0) == (match first_index_of(
            s,
            b,
            start,
        ) {
            Some(k) => Some(k - start),
            None => None,
        }),
{
    lemma_first_index_shift_from(s, b, start, start);
}

proof fn lemma_first_index_shift_from(s: Seq<u8>, b: u8, start: int, i: int)
    requires
        0 <= start <= i <= s.len(),
    ensures
        first_index_of(s.subrange(start, s.len() as int), b, i - start) == (match first_index_of(
            s,
            b,
            i,
        ) {
            Some(k) => Some(k - start),
            None => None,
        }),
    decreases s.len() - i,
{
    if i < s.len() {
        lemma_first_index_shift_from(s, b, start, i + 1);
    }
}

/// The cursor after a CSI sequence: moves up, down, right, left, to a column,
/// or to a row and column; other sequences leave it.
pub open spec fn spec_handle_csi(
    params: Seq<u8>,
    final_byte: u8,
    rows: u16,
    cols: u16,
    row: u16,
    col: u16,
) -> (u16, u16) {
    let p0 = spec_csi_param(params, 0, 1);
    if final_byte == 0x41 {
        (sat_sub(row, p0), col)
    } else if final_byte == 0x42 {
        (min16(sat_add(row, p0), sat_sub(rows, 1)), col)
    } else if final_byte == 0x43 {
        (row, min16(sat_add(col, p0), sat_sub(cols, 1)))
    } else if final_byte == 0x44 {
        (row, sat_sub(col, p0))
    } else if final_byte == 0x47 {
        (row, min16(sat_sub(p0, 1), sat_sub(cols, 1)))
    } else if final_byte == 0x48 || final_byte == 0x66 {
        (
            min16(sat_sub(p0, 1), sat_sub(rows, 1)),
            min16(sat_sub(spec_csi_param(params, 1, 1), 1), sat_sub(cols, 1)),
        )
    } else {
        (row, col)
    }
}

fn sub16(a: u16, b: u16) -> (r: u16)
    ensures
        r == sat_sub(a, b),
{
    if a >= b {
        a - b
    } else {
        0
    }
}

fn add16(a: u16, b: u16) -> (r: u16)
    ensures
        r == sat_add(a, b),
{
    if a as u32 + b as u32 <= 0xffff {
        a + b
    } else {
        0xffff
    }
}

fn min_u16(a: u16, b: u16) -> (r: u16)
    ensures
        r == min16(a, b),
{
    if a <= b {
        a
    } else {
        b
    }
}

pub fn handle_csi_sequence(
    params: &[u8],
    final_byte: u8,
    term_rows: u16,
    term_cols: u16,
    last_cursor_row: &mut u16,
    last_cursor_col: &mut u16,
)
    ensures
        (*final(last_cursor_row), *final(last_cursor_col)) == spec_handle_csi(
            params@,
            final_byte,
            term_rows,
            term_cols,
            *old(last_cursor_row),
            *old(last_cursor_col),
        ),
{
    if final_byte == 0x41 {
        *last_cursor_row = sub16(*last_cursor_row, parse_csi_param(params, 0, 1));
    } else if final_byte == 0x42 {
        *last_cursor_row = min_u16(
            add16(*last_cursor_row, parse_csi_param(params, 0, 1)),
            sub16(term_rows, 1),
        );
    } else if final_byte == 0x43 {
        *last_cursor_col = min_u16(
            add16(*last_cursor_col, parse_csi_param(params, 0, 1)),
            sub16(term_cols, 1),
        );
    } else if final_byte == 0x44 {
        *last_cursor_col = sub16(*last_cursor_col, parse_csi_param(params, 0, 1));
    } else if final_byte == 0x47 {
        *last_cursor_col = min_u16(sub16(parse_csi_param(params, 0, 1), 1), sub16(term_cols, 1));
    } else if final_byte == 0x48 || final_byte == 0x66 {
        *last_cursor_row = min_u16(sub16(parse_csi_param(params, 0, 1), 1), sub16(term_rows, 1));
        *last_cursor_col = min_u16(sub16(parse_csi_param(params, 1, 1), 1), sub16(term_cols, 1));
    }
}

/// What the proxy knows from the shell's output so far.
pub struct TrackView {
    pub cwd: Seq<char>,
    /// The bytes of an OSC sequence that has begun and not yet ended.
    pub osc: Option<Seq<u8>>,
    pub row: u16,
    pub col: u16,
}

pub open spec fn opt_bytes(o: Option<Vec<u8>>) -> Option<Seq<u8>> {
    match o {
        Some(v) => Some(v@),
        None => None,
    }
}

pub open spec fn track_view(cwd: String, osc: Option<Vec<u8>>, row: u16, col: u16) -> TrackView {
    TrackView { cwd: cwd@, osc: opt_bytes(osc), row, col }
}

/// Whether an OSC sequence ends with this byte: BEL, or ESC `\`.
pub open spec fn osc_complete(seq: Seq<u8>) -> bool {
    seq.len() >= 1 && (seq.last() == 0x07 || (seq.len() >= 2 && seq[seq.len() - 2] == 0x1b
        && seq.last() == 0x5c))
}

/// Index of the final byte of a CSI sequence whose parameters start at `j`, or
/// the end of the data when it has not arrived.
pub open spec fn csi_final(data: Seq<u8>, j: int) -> int
    decreases data.len() - j,
{
    if j < 0 || j >= data.len() {
        data.len() as int
    } else if 0x40 <= data[j] <= 0x7e {
        j
    } else {
        csi_final(data, j + 1)
    }
}

/// The state after the shell's output from byte `i` on; `None` where reading
/// a working-directory report would cut a character.
pub open spec fn track_from(data: Seq<u8>, i: int, st: TrackView, cols: u16, rows: u16) -> Option<
    TrackView,
>
    decreases data.len() - i,
{
    if i < 0 || i >= data.len() {
        Some(st)
    } else {
        let b = data[i];
        match st.osc {
            Some(seq) => {
                let s2 = seq.push(b);
                if osc_complete(s2) {
                    if !osc7_safe(s2) {
                        None
                    } else {
                        let cwd = match spec_parse_osc7_path(s2) {
                            Some(p) => p,
                            None => st.cwd,
                        };
                        track_from(
                            data,
                            i + 1,
                            TrackView { cwd, osc: None, row: st.row, col: st.col },
                            cols,
                            rows,
                        )
                    }
                } else {
                    track_from(
                        data,
                        i + 1,
                        TrackView { cwd: st.cwd, osc: Some(s2), row: st.row, col: st.col },
                        cols,
                        rows,
                    )
                }
            },
            None => {
                if b == 0x0a {
                    let row = if st.row < sat_sub(rows, 1) {
                        (st.row + 1) as u16
                    } else {
                        st.row
                    };
                    track_from(
                        data,
                        i + 1,
                        TrackView { cwd: st.cwd, osc: None, row, col: st.col },
                        cols,
                        rows,
                    )
                } else if b == 0x0d {
                    track_from(
                        data,
                        i + 1,
                        TrackView { cwd: st.cwd, osc: None, row: st.row, col: 0 },
                        cols,
                        rows,
                    )
                } else if b == 0x08 {
                    track_from(
                        data,
                        i + 1,
                        TrackView { cwd: st.cwd, osc: None, row: st.row, col: sat_sub(st.col, 1) },
                        cols,
                        rows,
                    )
                } else if b == 0x09 {
                    let (r, c) = spec_advance_cursor(
                        st.row,
                        st.col,
                        (8 - st.col % 8) as u16,
                        cols,
                        rows,
                    );
                    track_from(data, i + 1, TrackView { cwd: st.cwd, osc: None, row: r, col: c }, cols, rows)
                } else if b == 0x1b && i + 1 < data.len() && data[i + 1] == 0x5d {
                    track_from(
                        data,
                        i + 2,
                        TrackView { cwd: st.cwd, osc: Some(seq![0x5du8]), row: st.row, col: st.col },
                        cols,
                        rows,
                    )
                } else if b == 0x1b && i + 1 < data.len() && data[i + 1] == 0x5b {
                    let e = csi_final(data, i + 2);
                    proof {
                        lemma_csi_final_bounds(data, i + 2);
                    }
                    if e >= data.len() {
                        Some(st)
                    } else {
                        let p = data.subrange(i + 2, e);
                        let params = if valid_utf8(p) {
                            p
                        } else {
                            Seq::<u8>::empty()
                        };
                        let (r, c) = spec_handle_csi(params, data[e], rows, cols, st.row, st.col);
                        track_from(data, e + 1, TrackView { cwd: st.cwd, osc: None, row: r, col: c }, cols, rows)
                    }
                } else if b < 0x20 || b == 0x7f {
                    track_from(data, i + 1, st, cols, rows)
                } else if b < 0x80 || b >= 0xc0 {
                    let (r, c) = spec_advance_cursor(st.row, st.col, 1, cols, rows);
                    let step: int = if b < 0x80 {
                        1
                    } else if spec_utf8_char_len(b) <= data.len() - i {
                        spec_utf8_char_len(b) as int
                    } else {
                        data.len() - i
                    };
                    track_from(data, i + step, TrackView { cwd: st.cwd, osc: None, row: r, col: c }, cols, rows)
                } else {
                    track_from(data, i + 1, st, cols, rows)
                }
            },
        }
    }
}

pub proof fn lemma_csi_final_bounds(data: Seq<u8>, j: int)
    requires
        0 <= j,
    ensures
        j <= csi_final(data, j) || j > data.len(),
        csi_final(data, j) <= data.len(),
    decreases data.len() - j,
{
    if j < data.len() {
        lemma_csi_final_bounds(data, j + 1);
    }
}

/// Index of the final byte of the CSI sequence whose parameters start at `from`.
fn find_csi_final(data: &[u8], from: usize) -> (e: usize)
    requires
        from <= data@.len(),
    ensures
        e == csi_final(data@, from as int),
        from <= e <= data@.len(),
{
    let mut j = from;
    while j < data.len() && !(0x40 <= data[j] && data[j] <= 0x7e)
        invariant
            from <= j <= data@.len(),
            csi_final(data@, j as int) == csi_final(data@, from as int),
        decreases data@.len() - j,
    {
        j = j + 1;
    }
    j
}

/// Follows the shell's output: newlines, carriage returns, backspaces, tabs,
/// CSI cursor moves and printed characters move the tracked cursor, and an
/// OSC 7 report sets the working directory. Returns `false`, with the state
/// partly updated, where reading a report would cut a character.
pub fn try_track_pty_output(
    data: &[u8],
    current_cwd: &mut String,
    osc_capture: &mut Option<Vec<u8>>,
    last_cursor_row: &mut u16,
    last_cursor_col: &mut u16,
    term_cols: u16,
    term_rows: u16,
) -> (ok: bool)
    ensures
        ok == track_from(
            data@,
            0,
            track_view(*old(current_cwd), *old(osc_capture), *old(last_cursor_row), *old(last_cursor_col)),
            term_cols,
            term_rows,
        ) is Some,
        ok ==> Some(
            track_view(*final(current_cwd), *final(osc_capture), *final(last_cursor_row), *final(last_cursor_col)),
        ) == track_from(
            data@,
            0,
            track_view(*old(current_cwd), *old(osc_capture), *old(last_cursor_row), *old(last_cursor_col)),
            term_cols,
            term_rows,
        ),
{
    let ghost goal = track_from(
        data@,
        0,
        track_view(*current_cwd, *osc_capture, *last_cursor_row, *last_cursor_col),
        term_cols,
        term_rows,
    );
    let mut index: usize = 0;
    while index < data.len()
        invariant
            index <= data@.len(),
            goal == track_from(
                data@,
                0,
                track_view(*old(current_cwd), *old(osc_capture), *old(last_cursor_row), *old(last_cursor_col)),
                term_cols,
                term_rows,
            ),
            track_from(
                data@,
                index as int,
                track_view(*current_cwd, *osc_capture, *last_cursor_row, *last_cursor_col),
                term_cols,
                term_rows,
            ) == goal,
        decreases data@.len() - index,
    {
        let b = data[index];
        let ghost st = track_view(*current_cwd, *osc_capture, *last_cursor_row, *last_cursor_col);
        let mut cap: Option<Vec<u8>> = None;
        std::mem::swap(&mut cap, osc_capture);
        assert(opt_bytes(cap) == st.osc);
        match cap {
            Some(mut seq) => {
                seq.push(b);
                let n = seq.len();
                let complete = b == 0x07 || (n >= 2 && seq[n - 2] == 0x1b && seq[n - 1] == 0x5c);
                index = index + 1;
                if complete {
                    match try_parse_osc7_path(seq.as_slice()) {
                        None => {
                            assert(track_from(data@, index - 1, st, term_cols, term_rows) is None);
                            return false;
                        },
                        Some(Some(path)) => {
                            *current_cwd = path;
                        },
                        Some(None) => {},
                    }
                } else {
                    *osc_capture = Some(seq);
                }
                continue;
            },
            None => {},
        }
        if b == 0x0a {
            let last_row = sub16(term_rows, 1);
            if *last_cursor_row < last_row {
                *last_cursor_row = *last_cursor_row + 1;
            }
            index = index + 1;
        } else if b == 0x0d {
            *last_cursor_col = 0;
            index = index + 1;
        } else if b == 0x08 {
            *last_cursor_col = sub16(*last_cursor_col, 1);
            index = index + 1;
        } else if b == 0x09 {
            let tab_width = 8 - (*last_cursor_col % 8);
            advance_cursor(last_cursor_row, last_cursor_col, tab_width, term_cols, term_rows);
            index = index + 1;
        } else if b == 0x1b && data.len() - index > 1 && data[index + 1] == 0x5d {
            let mut start: Vec<u8> = Vec::new();
            start.push(0x5d);
            assert(start@ =~= seq![0x5du8]);
            *osc_capture = Some(start);
            index = index + 2;
        } else if b == 0x1b && data.len() - index > 1 && data[index + 1] == 0x5b {
            let seq_start = index + 2;
            let seq_end = find_csi_final(data, seq_start);
            if seq_end >= data.len() {
                assert(track_from(data@, index as int, st, term_cols, term_rows) == Some(st));
                return true;
            }
            let raw = slice_subrange(data, seq_start, seq_end);
            let empty: Vec<u8> = Vec::new();
            let params: &[u8] = match string_from_utf8(raw) {
                Some(_) => raw,
                None => empty.as_slice(),
            };
            handle_csi_sequence(
                params,
                data[seq_end],
                term_rows,
                term_cols,
                last_cursor_row,
                last_cursor_col,
            );
            index = seq_end + 1;
        } else if b < 0x20 || b == 0x7f {
            index = index + 1;
        } else if b < 0x80 || b >= 0xc0 {
            advance_cursor(last_cursor_row, last_cursor_col, 1, term_cols, term_rows);
            if b < 0x80 {
                index = index + 1;
            } else {
                let len = utf8_char_len(b);
                let rest = data.len() - index;
                index = index + if len <= rest {
                    len
                } else {
                    rest
                };
            }
        } else {
            index = index + 1;
        }
    }
    true
}

/// `try_track_pty_output` on output whose reports all read cleanly.
pub fn track_pty_output(
    data: &[u8],
    current_cwd: &mut String,
    osc_capture: &mut Option<Vec<u8>>,
    last_cursor_row: &mut u16,
    last_cursor_col: &mut u16,
    term_cols: u16,
    term_rows: u16,
)
    requires
        track_from(
            data@,
            0,
            track_view(*old(current_cwd), *old(osc_capture), *old(last_cursor_row), *old(last_cursor_col)),
            term_cols,
            term_rows,
        ) is Some,
    ensures
        Some(
            track_view(*final(current_cwd), *final(osc_capture), *final(last_cursor_row), *final(last_cursor_col)),
        ) == track_from(
            data@,
            0,
            track_view(*old(current_cwd), *old(osc_capture), *old(last_cursor_row), *old(last_cursor_col)),
            term_cols,
            term_rows,
        ),
{
    let _ = try_track_pty_output(
        data,
        current_cwd,
        osc_capture,
        last_cursor_row,
        last_cursor_col,
        term_cols,
        term_rows,
    );
}

} // verus!
