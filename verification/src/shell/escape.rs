//! Escaping inserted completion text for the shell's quoting context.
use crate::input::parser::{
    is_word_stop, scan, spec_tok, spec_tokenize, starts_redirect, tokenizes, word_scan, QuoteMode,
    SpecToken, TokenKind,
};
use crate::shell::detect::ShellType;
use crate::text::{chars_of, string_from_chars};
use vstd::prelude::*;
use vstd::utf8::{encode_utf8, is_ascii_chars, is_ascii_chars_encode_utf8};

verus! {

/// Characters that need no escaping outside quotes.
pub open spec fn spec_unquoted_safe(c: char) -> bool {
    ('a' <= c && c <= 'z') || ('A' <= c && c <= 'Z') || ('0' <= c && c <= '9') || c == '/' || c
        == '.' || c == '_' || c == '-' || c == ':'
}

/// How one character is written outside quotes.
pub open spec fn unquoted_char(c: char) -> Seq<char> {
    if spec_unquoted_safe(c) {
        seq![c]
    } else {
        seq!['\\', c]
    }
}

/// How one character is written inside single quotes.
pub open spec fn single_quoted_char(c: char) -> Seq<char> {
    if c == '\'' {
        seq!['\'', '\\', '\'', '\'']
    } else {
        seq![c]
    }
}

/// How one character is written inside double quotes: `"`, `$`, `` ` `` and `\`
/// get a backslash, and so does `!` except in fish.
pub open spec fn double_quoted_char(is_fish: bool, c: char) -> Seq<char> {
    if c == '"' || c == '$' || c == '`' || c == '\\' || (c == '!' && !is_fish) {
        seq!['\\', c]
    } else {
        seq![c]
    }
}

/// The text escaped character by character for the quoting context.
pub open spec fn escaped(mode: QuoteMode, is_fish: bool, s: Seq<char>) -> Seq<char>
    decreases s.len(),
{
    if s.len() == 0 {
        Seq::<char>::empty()
    } else {
        escaped(mode, is_fish, s.drop_last()) + match mode {
            QuoteMode::Plain => unquoted_char(s.last()),
            QuoteMode::Single => single_quoted_char(s.last()),
            QuoteMode::Double => double_quoted_char(is_fish, s.last()),
        }
    }
}

fn is_unquoted_safe(c: char) -> (r: bool)
    ensures
        r == spec_unquoted_safe(c),
{
    ('a' <= c && c <= 'z') || ('A' <= c && c <= 'Z') || ('0' <= c && c <= '9') || c == '/' || c
        == '.' || c == '_' || c == '-' || c == ':'
}

pub fn escape_fallback_completion(shell_type: &ShellType, quote_mode: QuoteMode, text: &str) -> (r: String)
    ensures
        r@ == escaped(quote_mode, *shell_type is Fish, text@),
{
    let is_fish = match shell_type {
        ShellType::Fish => true,
        _ => false,
    };
    let chars = chars_of(text);
    let mut out: Vec<char> = Vec::new();
    let mut i: usize = 0;
    while i < chars.len()
        invariant
            i <= chars@.len(),
            chars@ == text@,
            out@ == escaped(quote_mode, is_fish, chars@.subrange(0, i as int)),
        decreases chars@.len() - i,
    {
        let c = chars[i];
        let ghost before = out@;
        match quote_mode {
            QuoteMode::Plain => {
                if !is_unquoted_safe(c) {
                    out.push('\\');
                }
                out.push(c);
            },
            QuoteMode::Single => {
                if c == '\'' {
                    out.push('\'');
                    out.push('\\');
                    out.push('\'');
                    out.push('\'');
                } else {
                    out.push(c);
                }
            },
            QuoteMode::Double => {
                if c == '"' || c == '$' || c == '`' || c == '\\' || (c == '!' && !is_fish) {
                    out.push('\\');
                }
                out.push(c);
            },
        }
        proof {
            assert(chars@.subrange(0, i as int + 1).drop_last() =~= chars@.subrange(0, i as int));
            assert(out@ =~= before + match quote_mode {
                QuoteMode::Plain => unquoted_char(c),
                QuoteMode::Single => single_quoted_char(c),
                QuoteMode::Double => double_quoted_char(is_fish, c),
            });
        }
        i = i + 1;
    }
    assert(chars@.subrange(0, i as int) =~= text@);
    string_from_chars(&out)
}

/// How one character is written for the quoting context.
pub open spec fn escaped_char(mode: QuoteMode, is_fish: bool, c: char) -> Seq<char> {
    match mode {
        QuoteMode::Plain => unquoted_char(c),
        QuoteMode::Single => single_quoted_char(c),
        QuoteMode::Double => double_quoted_char(is_fish, c),
    }
}

proof fn lemma_escaped_first(mode: QuoteMode, is_fish: bool, t: Seq<char>)
    requires
        t.len() > 0,
    ensures
        escaped(mode, is_fish, t) == escaped_char(mode, is_fish, t[0]) + escaped(
            mode,
            is_fish,
            t.drop_first(),
        ),
    decreases t.len(),
{
    if t.len() == 1 {
        assert(t.drop_last() =~= Seq::<char>::empty());
        assert(t.drop_first() =~= Seq::<char>::empty());
        assert(escaped(mode, is_fish, t.drop_first()) =~= Seq::<char>::empty());
        assert(escaped(mode, is_fish, t) =~= escaped_char(mode, is_fish, t[0]));
    } else {
        lemma_escaped_first(mode, is_fish, t.drop_last());
        assert(t.drop_last().drop_first() =~= t.drop_first().drop_last());
        assert(t.drop_first().last() == t.last());
        assert(escaped(mode, is_fish, t) =~= escaped_char(mode, is_fish, t[0]) + escaped(
            mode,
            is_fish,
            t.drop_first(),
        ));
    }
}

proof fn lemma_escaped_ascii(mode: QuoteMode, is_fish: bool, t: Seq<char>)
    requires
        is_ascii_chars(t),
    ensures
        is_ascii_chars(escaped(mode, is_fish, t)),
    decreases t.len(),
{
    if t.len() > 0 {
        let p = t.drop_last();
        assert forall|i| 0 <= i < p.len() implies '\0' <= #[trigger] p[i] <= '\u{7f}' by {
            assert(p[i] == t[i]);
        }
        lemma_escaped_ascii(mode, is_fish, p);
        let c = t.last();
        assert('\0' <= t[t.len() - 1] <= '\u{7f}');
        let e = escaped(mode, is_fish, t);
        let ep = escaped(mode, is_fish, p);
        let ec = escaped_char(mode, is_fish, c);
        assert(e == ep + ec);
        assert forall|i| 0 <= i < e.len() implies '\0' <= #[trigger] e[i] <= '\u{7f}' by {
            if i < ep.len() {
                assert(e[i] == ep[i]);
            } else {
                assert(e[i] == ec[i - ep.len()]);
            }
        }
    }
}

/// `b` holds the characters of `e` as bytes from index `i` to its end.
pub open spec fn bytes_at(b: Seq<u8>, i: int, e: Seq<char>) -> bool {
    &&& 0 <= i
    &&& b.len() == i + e.len()
    &&& forall|k: int| 0 <= k < e.len() ==> #[trigger] b[i + k] == e[k] as u8
}

proof fn lemma_ascii_tail(t: Seq<char>)
    requires
        t.len() > 0,
        is_ascii_chars(t),
    ensures
        is_ascii_chars(t.drop_first()),
        '\0' <= t[0] <= '\u{7f}',
{
    assert forall|i| 0 <= i < t.drop_first().len() implies '\0' <= #[trigger] t.drop_first()[i]
        <= '\u{7f}' by {
        assert(t.drop_first()[i] == t[i + 1]);
    }
    assert('\0' <= t[0] <= '\u{7f}');
}

proof fn lemma_scan_plain(b: Seq<u8>, i: int, acc: Seq<char>, is_fish: bool, t: Seq<char>)
    requires
        is_ascii_chars(t),
        bytes_at(b, i, escaped(QuoteMode::Plain, is_fish, t)),
    ensures
        word_scan(b, i, acc, 0) == (acc + t, b.len() as int),
    decreases t.len(),
{
    if t.len() == 0 {
        assert(acc + t =~= acc);
    } else {
        lemma_escaped_first(QuoteMode::Plain, is_fish, t);
        lemma_ascii_tail(t);
        let c = t[0];
        let rest = t.drop_first();
        let er = escaped(QuoteMode::Plain, is_fish, rest);
        let ec = unquoted_char(c);
        let e = escaped(QuoteMode::Plain, is_fish, t);
        assert(e == ec + er);
        assert(acc.push(c) + rest =~= acc + t);
        if spec_unquoted_safe(c) {
            assert(b[i + 0] == e[0] as u8);
            assert(bytes_at(b, i + 1, er)) by {
                assert forall|k: int| 0 <= k < er.len() implies #[trigger] b[i + 1 + k] == er[k] as u8 by {
                    assert(b[i + (1 + k)] == e[1 + k] as u8);
                }
            }
            assert(b[i] as char == c);
            lemma_scan_plain(b, i + 1, acc.push(c), is_fish, rest);
        } else {
            assert(b[i + 0] == e[0] as u8);
            assert(b[i + 1] == e[1] as u8);
            assert(bytes_at(b, i + 2, er)) by {
                assert forall|k: int| 0 <= k < er.len() implies #[trigger] b[i + 2 + k] == er[k] as u8 by {
                    assert(b[i + (2 + k)] == e[2 + k] as u8);
                }
            }
            assert(b[i + 1] as char == c);
            lemma_scan_plain(b, i + 2, acc.push(c), is_fish, rest);
        }
    }
}

proof fn lemma_scan_single(b: Seq<u8>, i: int, acc: Seq<char>, is_fish: bool, t: Seq<char>)
    requires
        is_ascii_chars(t),
        bytes_at(b, i, escaped(QuoteMode::Single, is_fish, t) + seq!['\'']),
    ensures
        word_scan(b, i, acc, 1) == (acc + t, b.len() as int),
    decreases t.len(),
{
    let e = escaped(QuoteMode::Single, is_fish, t) + seq!['\''];
    if t.len() == 0 {
        assert(acc + t =~= acc);
        assert(escaped(QuoteMode::Single, is_fish, t) =~= Seq::<char>::empty());
        assert(b[i + 0] == e[0] as u8);
        assert(word_scan(b, i + 1, acc, 0) == (acc, i + 1));
    } else {
        lemma_escaped_first(QuoteMode::Single, is_fish, t);
        lemma_ascii_tail(t);
        let c = t[0];
        let rest = t.drop_first();
        let er = escaped(QuoteMode::Single, is_fish, rest) + seq!['\''];
        let ec = single_quoted_char(c);
        assert(e =~= ec + er);
        assert(acc.push(c) + rest =~= acc + t);
        let n = ec.len() as int;
        assert(bytes_at(b, i + n, er)) by {
            assert forall|k: int| 0 <= k < er.len() implies #[trigger] b[i + n + k] == er[k] as u8 by {
                assert(b[i + (n + k)] == e[n + k] as u8);
            }
        }
        if c == '\'' {
            assert(b[i + 0] == e[0] as u8);
            assert(b[i + 1] == e[1] as u8);
            assert(b[i + 2] == e[2] as u8);
            assert(b[i + 3] == e[3] as u8);
            assert(b[i + 2] as char == c);
            lemma_scan_single(b, i + 4, acc.push(c), is_fish, rest);
            assert(word_scan(b, i + 3, acc.push(c), 0) == word_scan(b, i + 4, acc.push(c), 1));
            assert(word_scan(b, i + 1, acc, 0) == word_scan(b, i + 3, acc.push(c), 0));
        } else {
            assert(b[i + 0] == e[0] as u8);
            assert(b[i] as char == c);
            lemma_scan_single(b, i + 1, acc.push(c), is_fish, rest);
        }
    }
}

proof fn lemma_scan_double(b: Seq<u8>, i: int, acc: Seq<char>, is_fish: bool, t: Seq<char>)
    requires
        is_ascii_chars(t),
        bytes_at(b, i, escaped(QuoteMode::Double, is_fish, t) + seq!['"']),
    ensures
        word_scan(b, i, acc, 2) == (acc + t, b.len() as int),
    decreases t.len(),
{
    let e = escaped(QuoteMode::Double, is_fish, t) + seq!['"'];
    if t.len() == 0 {
        assert(acc + t =~= acc);
        assert(escaped(QuoteMode::Double, is_fish, t) =~= Seq::<char>::empty());
        assert(b[i + 0] == e[0] as u8);
        assert(word_scan(b, i + 1, acc, 0) == (acc, i + 1));
    } else {
        lemma_escaped_first(QuoteMode::Double, is_fish, t);
        lemma_ascii_tail(t);
        let c = t[0];
        let rest = t.drop_first();
        let er = escaped(QuoteMode::Double, is_fish, rest) + seq!['"'];
        let ec = double_quoted_char(is_fish, c);
        assert(e =~= ec + er);
        assert(acc.push(c) + rest =~= acc + t);
        let n = ec.len() as int;
        assert(bytes_at(b, i + n, er)) by {
            assert forall|k: int| 0 <= k < er.len() implies #[trigger] b[i + n + k] == er[k] as u8 by {
                assert(b[i + (n + k)] == e[n + k] as u8);
            }
        }
        if n == 2 {
            assert(b[i + 0] == e[0] as u8);
            assert(b[i + 1] == e[1] as u8);
            assert(b[i + 1] as char == c);
            lemma_scan_double(b, i + 2, acc.push(c), is_fish, rest);
        } else {
            assert(b[i + 0] == e[0] as u8);
            assert(b[i] as char == c);
            lemma_scan_double(b, i + 1, acc.push(c), is_fish, rest);
        }
    }
}

proof fn lemma_bytes_of_ascii(s: Seq<char>)
    requires
        is_ascii_chars(s),
    ensures
        bytes_at(encode_utf8(s), 0, s),
{
    is_ascii_chars_encode_utf8(s);
    let b = encode_utf8(s);
    assert forall|k: int| 0 <= k < s.len() implies #[trigger] b[0 + k] == s[k] as u8 by {
        assert(b[k] == s[k] as u8);
    }
}

proof fn lemma_bytes_shift(b: Seq<u8>, s: Seq<char>, rest: Seq<char>)
    requires
        bytes_at(b, 0, s),
        s.len() > 0,
        rest == s.drop_first(),
    ensures
        bytes_at(b, 1, rest),
{
    assert forall|k: int| 0 <= k < rest.len() implies #[trigger] b[1 + k] == rest[k] as u8 by {
        assert(b[0 + (1 + k)] == s[1 + k] as u8);
    }
}

/// Escaped text reads back as the text it came from: for non-empty ASCII
/// text, tokenizing its escaped form, written bare or inside the quotes its
/// quoting mode is for, gives exactly one word, that text, at offset 0.
pub proof fn lemma_escape_round_trip(shell_type: ShellType, t: Seq<char>)
    requires
        t.len() > 0,
        is_ascii_chars(t),
    ensures
        ({
            let is_fish = shell_type is Fish;
            let plain = escaped(QuoteMode::Plain, is_fish, t);
            let single = seq!['\''] + escaped(QuoteMode::Single, is_fish, t) + seq!['\''];
            let double = seq!['"'] + escaped(QuoteMode::Double, is_fish, t) + seq!['"'];
            let word = seq![spec_tok(t, TokenKind::Word, 0)];
            &&& tokenizes(plain) && spec_tokenize(plain) == word
            &&& tokenizes(single) && spec_tokenize(single) == word
            &&& tokenizes(double) && spec_tokenize(double) == word
        }),
{
    let is_fish = shell_type is Fish;
    let word = seq![spec_tok(t, TokenKind::Word, 0)];
    assert(Seq::<char>::empty() + t =~= t);
    lemma_ascii_tail(t);
    let c = t[0];
    let rest = t.drop_first();
    // Bare.
    let plain = escaped(QuoteMode::Plain, is_fish, t);
    lemma_escaped_ascii(QuoteMode::Plain, is_fish, t);
    lemma_bytes_of_ascii(plain);
    lemma_escaped_first(QuoteMode::Plain, is_fish, t);
    let b = encode_utf8(plain);
    lemma_scan_plain(b, 0, seq![], is_fish, t);
    assert(b[0int + 0] == plain[0] as u8);
    if b.len() > 1 && spec_unquoted_safe(c) {
        assert(b[0int + 1] == plain[1] as u8);
        if rest.len() == 0 {
            assert(escaped(QuoteMode::Plain, is_fish, rest) =~= Seq::<char>::empty());
        }
        lemma_escaped_first(QuoteMode::Plain, is_fish, rest);
        lemma_ascii_tail(rest);
        let c1 = plain[1];
        assert(c1 == escaped(QuoteMode::Plain, is_fish, rest)[0]);
        assert(c1 == rest[0] || c1 == '\\');
        assert(c1 != '>');
        assert(b[1] != 0x3e);
    }
    assert(!starts_redirect(b, 0));
    assert(scan(b, b.len() as int) == Some(Seq::<SpecToken>::empty()));
    assert(scan(b, 0) == Some(word)) by {
        assert(seq![spec_tok(t, TokenKind::Word, 0)] + Seq::<SpecToken>::empty() =~= word);
    }
    // Single quotes.
    let es = escaped(QuoteMode::Single, is_fish, t);
    let single = seq!['\''] + es + seq!['\''];
    lemma_escaped_ascii(QuoteMode::Single, is_fish, t);
    assert(is_ascii_chars(single)) by {
        assert forall|i| 0 <= i < single.len() implies '\0' <= #[trigger] single[i] <= '\u{7f}' by {
            if 0 < i < single.len() - 1 {
                assert(single[i] == es[i - 1]);
            }
        }
    }
    lemma_bytes_of_ascii(single);
    let bs = encode_utf8(single);
    assert(single.drop_first() =~= es + seq!['\'']);
    lemma_bytes_shift(bs, single, es + seq!['\'']);
    lemma_scan_single(bs, 1, seq![], is_fish, t);
    assert(bs[0int + 0] == single[0] as u8);
    assert(scan(bs, bs.len() as int) == Some(Seq::<SpecToken>::empty()));
    assert(scan(bs, 0) == Some(word)) by {
        assert(seq![spec_tok(t, TokenKind::Word, 0)] + Seq::<SpecToken>::empty() =~= word);
    }
    // Double quotes.
    let ed = escaped(QuoteMode::Double, is_fish, t);
    let double = seq!['"'] + ed + seq!['"'];
    lemma_escaped_ascii(QuoteMode::Double, is_fish, t);
    assert(is_ascii_chars(double)) by {
        assert forall|i| 0 <= i < double.len() implies '\0' <= #[trigger] double[i] <= '\u{7f}' by {
            if 0 < i < double.len() - 1 {
                assert(double[i] == ed[i - 1]);
            }
        }
    }
    lemma_bytes_of_ascii(double);
    let bd = encode_utf8(double);
    assert(double.drop_first() =~= ed + seq!['"']);
    lemma_bytes_shift(bd, double, ed + seq!['"']);
    lemma_scan_double(bd, 1, seq![], is_fish, t);
    assert(bd[0int + 0] == double[0] as u8);
    assert(scan(bd, bd.len() as int) == Some(Seq::<SpecToken>::empty()));
    assert(scan(bd, 0) == Some(word)) by {
        assert(seq![spec_tok(t, TokenKind::Word, 0)] + Seq::<SpecToken>::empty() =~= word);
    }
}

} // verus!
