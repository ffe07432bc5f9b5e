//! The text and geometry of the completion popup: display widths, word wrap,
//! truncation, icons, and where the popup and its description panel go.
use crate::completion::matcher::ScoredCandidate;
use crate::completion::spec::{CandidateKind, CompletionCandidate};
use crate::ui::popup::{PopupState, PopupView};
use crate::text::{
    char_is_whitespace, chars_of, chars_range, is_unicode_whitespace, seq_starts_with,
    string_from_chars, str_eq,
};
use unicode_width::UnicodeWidthStr;
use vstd::prelude::*;

verus! {

/// The display width unicode-width gives a string (`UnicodeWidthStr::width`).
pub uninterp spec fn display_width(s: Seq<char>) -> usize;

/// `UnicodeWidthStr::width`.
///
/// Trusted: the result is the crate's width of these characters, a function of
/// them alone (its tables are fixed per version); the empty string is 0 wide,
/// as its fold over no characters gives.
#[verifier::external_body]
fn str_width(s: &str) -> (w: usize)
    ensures
        w == display_width(s@),
        s@.len() == 0 ==> w == 0,
{
    UnicodeWidthStr::width(s)
}

/// Width of the characters.
fn chars_width(v: &Vec<char>) -> (w: usize)
    ensures
        w == display_width(v@),
        v@.len() == 0 ==> w == 0,
{
    let s = string_from_chars(v);
    str_width(s.as_str())
}

// ---------------------------------------------------------------------------
// Word wrap
// ---------------------------------------------------------------------------

/// The words of the first `n` characters so far, and the word being read.
pub open spec fn words_fold(s: Seq<char>, n: int) -> (Seq<Seq<char>>, Seq<char>)
    decreases n,
{
    if n <= 0 {
        (Seq::<Seq<char>>::empty(), Seq::<char>::empty())
    } else {
        let (ws, cur) = words_fold(s, n - 1);
        let c = s[n - 1];
        if is_unicode_whitespace(c) {
            if cur.len() > 0 {
                (ws.push(cur), Seq::<char>::empty())
            } else {
                (ws, Seq::<char>::empty())
            }
        } else {
            (ws, cur.push(c))
        }
    }
}

/// The whitespace-separated words of `s` (`str::split_whitespace`).
pub open spec fn words(s: Seq<char>) -> Seq<Seq<char>> {
    let (ws, cur) = words_fold(s, s.len() as int);
    if cur.len() > 0 {
        ws.push(cur)
    } else {
        ws
    }
}

/// Greedy filling of lines with the first `n` words: finished lines, the
/// current line and its width.
pub open spec fn wrap_fold(words: Seq<Seq<char>>, n: int, max_width: int) -> (
    Seq<Seq<char>>,
    Seq<char>,
    int,
)
    decreases n,
{
    if n <= 0 {
        (Seq::<Seq<char>>::empty(), Seq::<char>::empty(), 0)
    } else {
        let (lines, cur, cur_w) = wrap_fold(words, n - 1, max_width);
        let word = words[n - 1];
        let w = display_width(word) as int;
        if cur_w == 0 {
            (lines, cur + word, w)
        } else if cur_w + 1 + w <= max_width {
            (lines, cur + seq![' '] + word, cur_w + 1 + w)
        } else {
            (lines.push(cur), word, w)
        }
    }
}

/// The lines `text` wraps into, each at most `max_width` columns unless a
/// single word is wider.
pub open spec fn wrapped(text: Seq<char>, max_width: int) -> Seq<Seq<char>> {
    let ws = words(text);
    let (lines, cur, _w) = wrap_fold(ws, ws.len() as int, max_width);
    if cur.len() > 0 {
        lines.push(cur)
    } else {
        lines
    }
}

fn split_words(text: &str) -> (r: Vec<Vec<char>>)
    ensures
        r@.map_values(|v: Vec<char>| v@) == words(text@),
{
    let chars = chars_of(text);
    let mut ws: Vec<Vec<char>> = Vec::new();
    let mut cur: Vec<char> = Vec::new();
    let mut i: usize = 0;
    while i < chars.len()
        invariant
            chars@ == text@,
            i <= chars@.len(),
            (ws@.map_values(|v: Vec<char>| v@), cur@) == words_fold(text@, i as int),
        decreases chars@.len() - i,
    {
        let c = chars[i];
        let ghost wv = ws@.map_values(|v: Vec<char>| v@);
        if char_is_whitespace(c) {
            if cur.len() > 0 {
                let mut done: Vec<char> = Vec::new();
                std::mem::swap(&mut done, &mut cur);
                let ghost d = done@;
                ws.push(done);
                assert(ws@.map_values(|v: Vec<char>| v@) =~= wv.push(d));
            }
        } else {
            cur.push(c);
        }
        i = i + 1;
    }
    let ghost wv = ws@.map_values(|v: Vec<char>| v@);
    if cur.len() > 0 {
        let ghost d = cur@;
        ws.push(cur);
        assert(ws@.map_values(|v: Vec<char>| v@) =~= wv.push(d));
    }
    ws
}

fn append_chars(dst: &mut Vec<char>, src: &Vec<char>)
    ensures
        final(dst)@ == old(dst)@ + src@,
{
    let mut j: usize = 0;
    while j < src.len()
        invariant
            j <= src@.len(),
            dst@ == old(dst)@ + src@.subrange(0, j as int),
        decreases src@.len() - j,
    {
        dst.push(src[j]);
        j = j + 1;
        assert(dst@ =~= old(dst)@ + src@.subrange(0, j as int));
    }
    assert(src@.subrange(0, src@.len() as int) =~= src@);
}

/// Wrap `text` into lines of at most `max_width` display columns (splits on
/// whitespace; a word wider than that stands on a line of its own).
pub fn word_wrap(text: &str, max_width: usize) -> (r: Vec<String>)
    ensures
        r@.map_values(|s: String| s@) == wrapped(text@, max_width as int),
{
    let ws = split_words(text);
    let ghost wv = ws@.map_values(|v: Vec<char>| v@);
    let mut lines: Vec<String> = Vec::new();
    let mut current: Vec<char> = Vec::new();
    let mut current_w: usize = 0;
    let mut k: usize = 0;
    while k < ws.len()
        invariant
            wv == ws@.map_values(|v: Vec<char>| v@),
            wv == words(text@),
            k <= ws@.len(),
            (lines@.map_values(|s: String| s@), current@, current_w as int) == wrap_fold(
                wv,
                k as int,
                max_width as int,
            ),
        decreases ws@.len() - k,
    {
        let word = &ws[k];
        let word_w = chars_width(word);
        let ghost lv = lines@.map_values(|s: String| s@);
        assert(wv[k as int] == word@);
        if current_w == 0 {
            append_chars(&mut current, word);
            current_w = word_w;
        } else if (current_w as u128) + 1 + (word_w as u128) <= max_width as u128 {
            current.push(' ');
            append_chars(&mut current, word);
            current_w = current_w + 1 + word_w;
        } else {
            let line = string_from_chars(&current);
            lines.push(line);
            assert(lines@.map_values(|s: String| s@) =~= lv.push(line@));
            current = chars_range(word, 0, word.len());
            assert(word@.subrange(0, word@.len() as int) =~= word@);
            current_w = word_w;
        }
        k = k + 1;
    }
    if current.len() > 0 {
        let ghost lv = lines@.map_values(|s: String| s@);
        let line = string_from_chars(&current);
        lines.push(line);
        assert(lines@.map_values(|s: String| s@) =~= lv.push(line@));
    }
    lines
}

// ---------------------------------------------------------------------------
// Truncation
// ---------------------------------------------------------------------------

/// The number of leading characters kept: up to (not including) the first
/// prefix wider than `max_width`.
pub open spec fn kept_len(s: Seq<char>, max_width: int, k: int) -> int
    decreases s.len() - k,
{
    if k < 0 || k >= s.len() {
        s.len() as int
    } else if display_width(s.subrange(0, k + 1)) > max_width {
        k
    } else {
        kept_len(s, max_width, k + 1)
    }
}

/// The longest prefix whose every prefix fits in `max_width` columns.
pub open spec fn truncated(s: Seq<char>, max_width: int) -> Seq<char> {
    if max_width == 0 {
        Seq::<char>::empty()
    } else {
        s.subrange(0, kept_len(s, max_width, 0))
    }
}

/// `text` cut to `max_width` columns, ending with `…` when cut.
pub open spec fn ellipsized(s: Seq<char>, max_width: int) -> Seq<char> {
    if display_width(s) <= max_width {
        s
    } else if max_width == 0 {
        Seq::<char>::empty()
    } else if max_width == 1 {
        seq!['…']
    } else {
        truncated(s, max_width - 1).push('…')
    }
}

proof fn lemma_kept_len_bounds(s: Seq<char>, max_width: int, k: int)
    requires
        0 <= k <= s.len(),
    ensures
        k <= kept_len(s, max_width, k) <= s.len(),
    decreases s.len() - k,
{
    if k < s.len() && display_width(s.subrange(0, k + 1)) <= max_width {
        lemma_kept_len_bounds(s, max_width, k + 1);
    }
}

pub fn truncate_to_width(text: &str, max_width: usize) -> (r: String)
    ensures
        r@ == truncated(text@, max_width as int),
{
    if max_width == 0 {
        return String::new();
    }
    let chars = chars_of(text);
    let mut out: Vec<char> = Vec::new();
    let mut i: usize = 0;
    while i < chars.len()
        invariant
            chars@ == text@,
            max_width > 0,
            i <= chars@.len(),
            out@ == text@.subrange(0, i as int),
            kept_len(text@, max_width as int, i as int) == kept_len(text@, max_width as int, 0),
        decreases chars@.len() - i,
    {
        out.push(chars[i]);
        assert(out@ =~= text@.subrange(0, i as int + 1));
        let w = chars_width(&out);
        if w > max_width {
            assert(display_width(text@.subrange(0, i as int + 1)) > max_width);
            assert(kept_len(text@, max_width as int, i as int) == i as int);
            out.pop();
            assert(out@ =~= text@.subrange(0, i as int));
            return string_from_chars(&out);
        }
        i = i + 1;
    }
    assert(text@.subrange(0, i as int) =~= text@);
    string_from_chars(&out)
}

pub fn truncate_with_ellipsis(text: &str, max_width: usize) -> (r: String)
    ensures
        r@ == ellipsized(text@, max_width as int),
{
    if str_width(text) <= max_width {
        return text.to_owned();
    }
    if max_width == 0 {
        return String::new();
    }
    if max_width == 1 {
        let mut v: Vec<char> = Vec::new();
        v.push('…');
        assert(v@ =~= seq!['…']);
        return string_from_chars(&v);
    }
    let truncated = truncate_to_width(text, max_width - 1);
    let mut v = chars_of(truncated.as_str());
    v.push('…');
    string_from_chars(&v)
}

// ---------------------------------------------------------------------------
// Icons
// ---------------------------------------------------------------------------

/// The icon shown for a kind of candidate that brings none.
pub open spec fn fallback_icon_text(kind: CandidateKind) -> Seq<char> {
    match kind {
        CandidateKind::Subcommand => "❯"@,
        CandidateKind::Option => "⌥"@,
        CandidateKind::Argument => "•"@,
        CandidateKind::File => "📄"@,
        CandidateKind::Folder => "📁"@,
    }
}

pub fn fallback_icon(kind: CandidateKind) -> (r: &'static str)
    ensures
        r@ == fallback_icon_text(kind),
{
    match kind {
        CandidateKind::Subcommand => "❯",
        CandidateKind::Option => "⌥",
        CandidateKind::Argument => "•",
        CandidateKind::File => "📄",
        CandidateKind::Folder => "📁",
    }
}

/// Index of the first `x` at or after `i`.
pub open spec fn char_index_of(s: Seq<char>, x: char, i: int) -> Option<int>
    decreases s.len() - i,
{
    if i < 0 || i >= s.len() {
        None
    } else if s[i] == x {
        Some(i)
    } else {
        char_index_of(s, x, i + 1)
    }
}

/// The `n`-th piece of `s` split at `sep` (`str::split(sep).nth(n)`).
pub open spec fn split_field(s: Seq<char>, sep: char, n: nat) -> Option<Seq<char>>
    decreases n,
{
    match char_index_of(s, sep, 0) {
        None => if n == 0 {
            Some(s)
        } else {
            None
        },
        Some(k) => if n == 0 {
            Some(s.subrange(0, k))
        } else {
            split_field(s.subrange(k + 1, s.len() as int), sep, (n - 1) as nat)
        },
    }
}

pub open spec fn type_key() -> Seq<char> {
    seq!['t', 'y', 'p', 'e', '=']
}

/// The value of the first `&`-separated pair that starts with `type=`.
pub open spec fn type_value(q: Seq<char>) -> Option<Seq<char>>
    decreases q.len(),
{
    let k = char_index_of(q, '&', 0);
    let pair = match k {
        Some(k) => q.subrange(0, k),
        None => q,
    };
    if seq_starts_with(pair, type_key()) {
        Some(pair.subrange(5, pair.len() as int))
    } else {
        match k {
            None => None,
            Some(k) => if 0 <= k < q.len() {
                type_value(q.subrange(k + 1, q.len() as int))
            } else {
                None
            },
        }
    }
}

/// The `type` of a `fig://icon?type=...` icon.
pub open spec fn icon_type(icon: Seq<char>) -> Option<Seq<char>> {
    match split_field(icon, '?', 1) {
        None => None,
        Some(q) => type_value(q),
    }
}

/// The emoji standing for a Fig icon type.
pub open spec fn fig_icon_text(t: Option<Seq<char>>, kind: CandidateKind) -> Seq<char> {
    match t {
        Some(t) => if t == "folder"@ || t == "dir"@ || t == "directory"@ {
            "📁"@
        } else if t == "file"@ || t == "text"@ || t == "document"@ {
            "📄"@
        } else if t == "git"@ || t == "branch"@ {
            "🌿"@
        } else if t == "node"@ || t == "commit"@ {
            "●"@
        } else if t == "commandkey"@ {
            "⌘"@
        } else if t == "asterisk"@ {
            "✱"@
        } else if t == "box"@ || t == "package"@ || t == "pkg"@ {
            "📦"@
        } else if t == "docker"@ {
            "🐳"@
        } else if t == "warning"@ || t == "alert"@ {
            "⚠"@
        } else if t == "link"@ || t == "url"@ {
            "🔗"@
        } else if t == "cloud"@ {
            "☁"@
        } else {
            fallback_icon_text(kind)
        },
        None => fallback_icon_text(kind),
    }
}

proof fn lemma_char_index_skip(s: Seq<char>, x: char, i: int, j: int)
    requires
        0 <= i <= j,
        forall|k: int| i <= k < j && k < s.len() ==> s[k] != x,
    ensures
        char_index_of(s, x, i) == char_index_of(s, x, j) || (j > s.len() && char_index_of(
            s,
            x,
            i,
        ) is None),
    decreases j - i,
{
    if i < j && i < s.len() {
        lemma_char_index_skip(s, x, i + 1, j);
    }
}

proof fn lemma_char_index_shift(s: Seq<char>, x: char, start: int, i: int)
    requires
        0 <= start <= i <= s.len(),
    ensures
        char_index_of(s.subrange(start, s.len() as int), x, i - start) == (match char_index_of(
            s,
            x,
            i,
        ) {
            Some(k) => Some(k - start),
            None => None,
        }),
    decreases s.len() - i,
{
    if i < s.len() {
        lemma_char_index_shift(s, x, start, i + 1);
    }
}

/// The first `x` in `s` at or after `from`.
fn find_char(s: &Vec<char>, from: usize, x: char) -> (r: Option<usize>)
    requires
        from <= s@.len(),
    ensures
        r matches Some(k) ==> char_index_of(s@, x, from as int) == Some(k as int) && from <= k
            < s@.len(),
        r is None ==> char_index_of(s@, x, from as int) is None,
        char_index_of(s@.subrange(from as int, s@.len() as int), x, 0) == (match r {
            Some(k) => Some(k - from),
            None => None,
        }),
{
    proof {
        lemma_char_index_shift(s@, x, from as int, from as int);
    }
    let mut i = from;
    while i < s.len()
        invariant
            from <= i <= s@.len(),
            forall|k: int| from <= k < i ==> s@[k] != x,
        decreases s@.len() - i,
    {
        if s[i] == x {
            proof {
                lemma_char_index_skip(s@, x, from as int, i as int);
                lemma_char_index_shift(s@, x, from as int, from as int);
            }
            return Some(i);
        }
        i = i + 1;
    }
    proof {
        lemma_char_index_skip(s@, x, from as int, i as int);
    }
    None
}

fn find_icon_type(icon: &Vec<char>) -> (r: Option<Vec<char>>)
    ensures
        match r {
            Some(v) => icon_type(icon@) == Some(v@),
            None => icon_type(icon@) is None,
        },
{
    let n = icon.len();
    let q1 = match find_char(icon, 0, '?') {
        None => {
            return None;
        },
        Some(k) => k,
    };
    assert(icon@.subrange(0, n as int) =~= icon@);
    let ghost rest = icon@.subrange(q1 + 1, n as int);
    let q2 = match find_char(icon, q1 + 1, '?') {
        None => n,
        Some(k) => k,
    };
    let query = chars_range(icon, q1 + 1, q2);
    proof {
        assert(query@ =~= (if q2 == n {
            rest
        } else {
            rest.subrange(0, q2 - q1 - 1)
        }));
        assert(split_field(rest, '?', 0) == Some(query@));
        assert(split_field(icon@, '?', 1) == Some(query@));
    }
    let key = vec!['t', 'y', 'p', 'e', '='];
    assert(key@ =~= type_key());
    let qn = query.len();
    let mut start: usize = 0;
    assert(query@.subrange(0, qn as int) =~= query@);
    loop
        invariant
            start <= qn == query@.len(),
            key@ == type_key(),
            icon_type(icon@) == type_value(query@),
            type_value(query@.subrange(start as int, qn as int)) == type_value(query@),
        decreases qn - start,
    {
        let ghost sub = query@.subrange(start as int, qn as int);
        let amp = find_char(&query, start, '&');
        let end = match amp {
            Some(k) => k,
            None => qn,
        };
        let pair = chars_range(&query, start, end);
        proof {
            assert(pair@ =~= (match char_index_of(sub, '&', 0) {
                Some(k) => sub.subrange(0, k),
                None => sub,
            }));
        }
        if crate::text::chars_start_with(&pair, &key) {
            let v = chars_range(&pair, 5, pair.len());
            return Some(v);
        }
        match amp {
            None => {
                return None;
            },
            Some(k) => {
                assert(sub.subrange(k - start + 1, sub.len() as int) =~= query@.subrange(
                    k + 1,
                    qn as int,
                ));
                start = k + 1;
            },
        }
    }
}

pub fn fig_icon_fallback(icon: &str, kind: CandidateKind) -> (r: &'static str)
    ensures
        r@ == fig_icon_text(icon_type(icon@), kind),
{
    let chars = chars_of(icon);
    let t = match find_icon_type(&chars) {
        None => {
            return fallback_icon(kind);
        },
        Some(v) => string_from_chars(&v),
    };
    let t = t.as_str();
    if str_eq(t, "folder") || str_eq(t, "dir") || str_eq(t, "directory") {
        "📁"
    } else if str_eq(t, "file") || str_eq(t, "text") || str_eq(t, "document") {
        "📄"
    } else if str_eq(t, "git") || str_eq(t, "branch") {
        "🌿"
    } else if str_eq(t, "node") || str_eq(t, "commit") {
        "●"
    } else if str_eq(t, "commandkey") {
        "⌘"
    } else if str_eq(t, "asterisk") {
        "✱"
    } else if str_eq(t, "box") || str_eq(t, "package") || str_eq(t, "pkg") {
        "📦"
    } else if str_eq(t, "docker") {
        "🐳"
    } else if str_eq(t, "warning") || str_eq(t, "alert") {
        "⚠"
    } else if str_eq(t, "link") || str_eq(t, "url") {
        "🔗"
    } else if str_eq(t, "cloud") {
        "☁"
    } else {
        fallback_icon(kind)
    }
}

pub open spec fn all_whitespace(s: Seq<char>) -> bool {
    forall|i: int| 0 <= i < s.len() ==> is_unicode_whitespace(#[trigger] s[i])
}

pub open spec fn fig_scheme() -> Seq<char> {
    seq!['f', 'i', 'g', ':', '/', '/']
}

pub open spec fn http_scheme() -> Seq<char> {
    seq!['h', 't', 't', 'p', ':', '/', '/']
}

pub open spec fn https_scheme() -> Seq<char> {
    seq!['h', 't', 't', 'p', 's', ':', '/', '/']
}

/// The icon a terminal shows for a candidate: its own emoji, an emoji for a
/// Fig icon, a globe for a web image, or the fallback for its kind.
pub open spec fn spec_terminal_icon(c: CompletionCandidate) -> Seq<char> {
    match c.icon {
        None => fallback_icon_text(c.kind),
        Some(icon) => if all_whitespace(icon@) {
            fallback_icon_text(c.kind)
        } else if seq_starts_with(icon@, fig_scheme()) {
            fig_icon_text(icon_type(icon@), c.kind)
        } else if seq_starts_with(icon@, http_scheme()) || seq_starts_with(icon@, https_scheme()) {
            "🌐"@
        } else {
            icon@
        },
    }
}

fn is_all_whitespace(v: &Vec<char>) -> (r: bool)
    ensures
        r == all_whitespace(v@),
{
    let mut i: usize = 0;
    while i < v.len()
        invariant
            i <= v@.len(),
            forall|j: int| 0 <= j < i ==> is_unicode_whitespace(#[trigger] v@[j]),
        decreases v@.len() - i,
    {
        if !char_is_whitespace(v[i]) {
            return false;
        }
        i = i + 1;
    }
    true
}

pub fn terminal_icon<'a>(candidate: &'a CompletionCandidate) -> (r: &'a str)
    ensures
        r@ == spec_terminal_icon(*candidate),
{
    match &candidate.icon {
        None => fallback_icon(candidate.kind),
        Some(icon) => {
            let chars = chars_of(icon.as_str());
            let fig = vec!['f', 'i', 'g', ':', '/', '/'];
            let http = vec!['h', 't', 't', 'p', ':', '/', '/'];
            let https = vec!['h', 't', 't', 'p', 's', ':', '/', '/'];
            assert(fig@ =~= fig_scheme());
            assert(http@ =~= http_scheme());
            assert(https@ =~= https_scheme());
            if is_all_whitespace(&chars) {
                fallback_icon(candidate.kind)
            } else if crate::text::chars_start_with(&chars, &fig) {
                fig_icon_fallback(icon.as_str(), candidate.kind)
            } else if crate::text::chars_start_with(&chars, &http)
                || crate::text::chars_start_with(&chars, &https) {
                "🌐"
            } else {
                icon.as_str()
            }
        },
    }
}

// ---------------------------------------------------------------------------
// Geometry
// ---------------------------------------------------------------------------

/// The popup's size settings (its colours live with the drawing code).
pub struct Theme {
    /// Maximum number of visible items.
    pub max_visible: usize,
    /// Minimum popup width.
    pub min_width: usize,
    /// Maximum popup width.
    pub max_width: usize,
    /// Show a panel with the selected item's description beside the popup.
    pub show_description_panel: bool,
}

impl Default for Theme {
    fn default() -> (r: Self)
        ensures
            r.max_visible == 8,
            r.min_width == 20,
            r.max_width == 60,
            !r.show_description_panel,
    {
        Theme { max_visible: 8, min_width: 20, max_width: 60, show_description_panel: false }
    }
}

/// Width of the description panel between its borders.
pub const PANEL_INNER_WIDTH: usize = 36;

/// Where the popup goes and how its columns are split.
#[derive(Debug, Clone, Copy, PartialEq, Eq)]
pub struct PopupLayout {
    /// Top-left corner of the popup.
    pub popup_row: u16,
    pub popup_col: u16,
    /// Width between the borders.
    pub inner_width: usize,
    pub icon_col_width: usize,
    pub name_col_width: usize,
    pub has_descriptions: bool,
    pub visible_count: usize,
    /// Rows of the list with its borders.
    pub popup_height: u16,
    pub renders_panel: bool,
    pub panel_col: u16,
    /// Rows drawn: the taller of the list and the panel.
    pub rendered_height: u16,
}

pub enum Column {
    Icon,
    Name,
    Description,
}

/// The width a candidate needs in a column.
pub open spec fn column_width(c: CompletionCandidate, col: Column) -> int {
    match col {
        Column::Icon => display_width(spec_terminal_icon(c)) as int,
        Column::Name => display_width(c.spec_display_label()) as int,
        Column::Description => match c.description {
            Some(d) => display_width(d@) as int,
            None => 0,
        },
    }
}

/// The widest entry of a column over items `lo..hi`.
pub open spec fn column_max(items: Seq<ScoredCandidate>, lo: int, hi: int, col: Column) -> int
    decreases hi - lo,
{
    if hi <= lo {
        0
    } else {
        let rest = column_max(items, lo, hi - 1, col);
        let w = column_width(items[hi - 1].candidate, col);
        if w > rest {
            w
        } else {
            rest
        }
    }
}

pub open spec fn imax(a: int, b: int) -> int {
    if a >= b {
        a
    } else {
        b
    }
}

pub open spec fn imin(a: int, b: int) -> int {
    if a <= b {
        a
    } else {
        b
    }
}

/// `a - b`, or zero.
pub open spec fn isat(a: int, b: int) -> int {
    if a >= b {
        a - b
    } else {
        0
    }
}

/// Number of visible items.
pub open spec fn spec_visible_count(p: PopupView) -> int {
    imin(p.items.len() as int, p.max_visible as int)
}

/// The description of the selected item, if there is one.
pub open spec fn selected_description(p: PopupView) -> Option<Seq<char>> {
    if p.selected < p.items.len() {
        match p.items[p.selected as int].candidate.description {
            Some(d) => Some(d@),
            None => None,
        }
    } else {
        None
    }
}

/// The column widths from the widest icon, name and description: `(inner_width,
/// icon_col_width, name_col_width, has_descriptions)`.
pub open spec fn widths(max_icon: int, max_name: int, max_desc: int, min_w: int, max_w: int) -> (
    int,
    int,
    int,
    bool,
) {
    let icon_col = imax(max_icon, 1);
    let desc_target = imin(max_desc, 30);
    let has_desc = max_desc > 0;
    let content = if has_desc {
        icon_col + 1 + max_name + 4 + desc_target
    } else {
        icon_col + 1 + max_name
    };
    let inner = if content < min_w {
        min_w
    } else if content > max_w {
        max_w
    } else {
        content
    };
    let avail = isat(inner, icon_col + 1);
    let reserved = if has_desc {
        imin(desc_target, isat(avail, 8))
    } else {
        0
    };
    let name_col = imax(
        if has_desc {
            isat(avail, 4 + reserved)
        } else {
            avail
        },
        1,
    );
    (inner, icon_col, name_col, has_desc)
}

/// Rows the description panel needs: its title, separator, wrapped lines and
/// borders, and at least the list's height.
pub open spec fn panel_height(p: PopupView, theme: Theme, vis: int) -> int {
    let sel = selected_description(p);
    if theme.show_description_panel && sel is Some {
        imax(vis + 2, 1 + wrapped(sel->0, PANEL_INNER_WIDTH - 2).len() as int + 3)
    } else {
        vis + 2
    }
}

/// Where things go: `(popup_row, popup_col, panel_col, renders_panel,
/// rendered_height)`.
pub open spec fn positions(
    cursor_row: int,
    cursor_col: int,
    term_cols: int,
    term_rows: int,
    popup_width: int,
    popup_height: int,
    panel_h: int,
    wants_panel: bool,
) -> (int, int, int, bool, int) {
    let popup_col = if cursor_col + popup_width > term_cols {
        isat(term_cols, popup_width)
    } else {
        cursor_col
    };
    let panel_col = popup_col + popup_width + 1;
    let renders_panel = wants_panel && panel_col + PANEL_INNER_WIDTH + 2 <= term_cols;
    let rendered_height = if renders_panel {
        imax(popup_height, panel_h)
    } else {
        popup_height
    };
    let popup_row = if cursor_row + 1 + rendered_height > term_rows {
        isat(cursor_row, rendered_height)
    } else {
        cursor_row + 1
    };
    (popup_row, popup_col, panel_col, renders_panel, rendered_height)
}

/// Every quantity of the layout, as integers: `(popup_row, popup_col,
/// inner_width, icon_col_width, name_col_width, has_descriptions,
/// visible_count, popup_height, renders_panel, panel_col, rendered_height,
/// panel_height)`.
pub open spec fn layout_numbers(
    p: PopupView,
    theme: Theme,
    cursor_row: int,
    cursor_col: int,
    term_cols: int,
    term_rows: int,
) -> (int, int, int, int, int, bool, int, int, bool, int, int, int) {
    let vis = spec_visible_count(p);
    let lo = p.scroll_offset as int;
    let hi = imin(lo + vis, p.items.len() as int);
    let w = widths(
        column_max(p.items, lo, hi, Column::Icon),
        column_max(p.items, lo, hi, Column::Name),
        column_max(p.items, lo, hi, Column::Description),
        theme.min_width as int,
        theme.max_width as int,
    );
    let ph = panel_height(p, theme, vis);
    let wants_panel = theme.show_description_panel && selected_description(p) is Some;
    let pos = positions(cursor_row, cursor_col, term_cols, term_rows, w.0 + 2, vis + 2, ph, wants_panel);
    (pos.0, pos.1, w.0, w.1, w.2, w.3, vis, vis + 2, pos.3, pos.2, pos.4, ph)
}

/// Whether 16-bit arithmetic on these values stays in range (the terminal
/// works in `u16` cells and overflow panics), with the width clamp well formed.
pub open spec fn layout_fits(
    p: PopupView,
    theme: Theme,
    cursor_row: int,
    cursor_col: int,
    term_cols: int,
    term_rows: int,
) -> bool {
    let n = layout_numbers(p, theme, cursor_row, cursor_col, term_cols, term_rows);
    let popup_width = n.2 + 2;
    &&& theme.min_width <= theme.max_width
    &&& p.scroll_offset + n.6 <= usize::MAX
    &&& popup_width <= 0xffff
    &&& n.7 <= 0xffff
    &&& n.11 <= 0xffff
    &&& cursor_col + popup_width <= 0xffff
    &&& n.1 + popup_width + 1 <= 0xffff
    &&& (theme.show_description_panel && selected_description(p) is Some) ==> n.9
        + PANEL_INNER_WIDTH + 2 <= 0xffff
    &&& cursor_row + 1 + n.10 <= 0xffff
}

/// The layout when the popup shows items, else `None`.
pub open spec fn spec_layout(
    p: PopupView,
    theme: Theme,
    cursor_row: int,
    cursor_col: int,
    term_cols: int,
    term_rows: int,
) -> Option<PopupLayout> {
    if !p.visible || p.items.len() == 0 {
        None
    } else {
        let n = layout_numbers(p, theme, cursor_row, cursor_col, term_cols, term_rows);
        Some(
            PopupLayout {
                popup_row: n.0 as u16,
                popup_col: n.1 as u16,
                inner_width: n.2 as usize,
                icon_col_width: n.3 as usize,
                name_col_width: n.4 as usize,
                has_descriptions: n.5,
                visible_count: n.6 as usize,
                popup_height: n.7 as u16,
                renders_panel: n.8,
                panel_col: n.9 as u16,
                rendered_height: n.10 as u16,
            },
        )
    }
}

/// What `render` reports: rows drawn and the column used.
pub open spec fn placement(l: Option<PopupLayout>, cursor_col: u16) -> (u16, u16) {
    match l {
        Some(l) => (l.rendered_height, l.popup_col),
        None => (0, cursor_col),
    }
}

proof fn lemma_column_max_step(items: Seq<ScoredCandidate>, lo: int, hi: int, col: Column)
    requires
        lo <= hi,
    ensures
        column_max(items, lo, hi + 1, col) == imax(
            column_width(items[hi].candidate, col),
            column_max(items, lo, hi, col),
        ),
{
}

proof fn lemma_column_max_nonneg(items: Seq<ScoredCandidate>, lo: int, hi: int, col: Column)
    ensures
        column_max(items, lo, hi, col) >= 0,
    decreases hi - lo,
{
    if hi > lo {
        lemma_column_max_nonneg(items, lo, hi - 1, col);
    }
}

/// Largest widths of the icon, name and description columns over `lo..hi`.
fn column_maxima(items: &Vec<ScoredCandidate>, lo: usize, hi: usize) -> (r: (usize, usize, usize))
    requires
        lo <= hi <= items@.len(),
    ensures
        r.0 == column_max(items@, lo as int, hi as int, Column::Icon),
        r.1 == column_max(items@, lo as int, hi as int, Column::Name),
        r.2 == column_max(items@, lo as int, hi as int, Column::Description),
{
    let mut mi: usize = 0;
    let mut mn: usize = 0;
    let mut md: usize = 0;
    let mut i = lo;
    while i < hi
        invariant
            lo <= i <= hi <= items@.len(),
            mi == column_max(items@, lo as int, i as int, Column::Icon),
            mn == column_max(items@, lo as int, i as int, Column::Name),
            md == column_max(items@, lo as int, i as int, Column::Description),
        decreases hi - i,
    {
        let c = &items[i].candidate;
        let wi = str_width(terminal_icon(c));
        let wn = str_width(c.display_label());
        let wd = match &c.description {
            Some(d) => str_width(d.as_str()),
            None => 0,
        };
        proof {
            lemma_column_max_step(items@, lo as int, i as int, Column::Icon);
            lemma_column_max_step(items@, lo as int, i as int, Column::Name);
            lemma_column_max_step(items@, lo as int, i as int, Column::Description);
        }
        if wi > mi {
            mi = wi;
        }
        if wn > mn {
            mn = wn;
        }
        if wd > md {
            md = wd;
        }
        i = i + 1;
    }
    (mi, mn, md)
}

fn compute_widths(max_icon: usize, max_name: usize, max_desc: usize, min_w: usize, max_w: usize) -> (r: (u128, u128, u128, bool))
    requires
        min_w <= max_w,
    ensures
        (r.0 as int, r.1 as int, r.2 as int, r.3) == widths(
            max_icon as int,
            max_name as int,
            max_desc as int,
            min_w as int,
            max_w as int,
        ),
        r.0 <= max_w,
{
    let icon_col: u128 = if max_icon >= 1 {
        max_icon as u128
    } else {
        1
    };
    let desc_target: u128 = if max_desc <= 30 {
        max_desc as u128
    } else {
        30
    };
    let has_desc = max_desc > 0;
    let content: u128 = if has_desc {
        icon_col + 1 + max_name as u128 + 4 + desc_target
    } else {
        icon_col + 1 + max_name as u128
    };
    let inner: u128 = if content < min_w as u128 {
        min_w as u128
    } else if content > max_w as u128 {
        max_w as u128
    } else {
        content
    };
    let avail: u128 = if inner >= icon_col + 1 {
        inner - (icon_col + 1)
    } else {
        0
    };
    let reserved: u128 = if has_desc {
        let a8 = if avail >= 8 {
            avail - 8
        } else {
            0
        };
        if desc_target <= a8 {
            desc_target
        } else {
            a8
        }
    } else {
        0
    };
    let name_raw: u128 = if has_desc {
        if avail >= 4 + reserved {
            avail - (4 + reserved)
        } else {
            0
        }
    } else {
        avail
    };
    let name_col: u128 = if name_raw >= 1 {
        name_raw
    } else {
        1
    };
    (inner, icon_col, name_col, has_desc)
}

fn compute_panel_height(p: &PopupState, theme: &Theme, vis: usize) -> (r: u128)
    requires
        vis == spec_visible_count(p@),
    ensures
        r == panel_height(p@, *theme, vis as int),
{
    let popup_height: u128 = vis as u128 + 2;
    if theme.show_description_panel && p.selected < p.items.len() {
        match &p.items[p.selected].candidate.description {
            Some(d) => {
                let lines = word_wrap(d.as_str(), PANEL_INNER_WIDTH - 2);
                assert(lines@.map_values(|s: String| s@).len() == lines@.len());
                let content_lines: u128 = 1 + lines.len() as u128 + 3;
                if popup_height >= content_lines {
                    popup_height
                } else {
                    content_lines
                }
            },
            None => popup_height,
        }
    } else {
        popup_height
    }
}

fn compute_positions(
    cursor_row: u16,
    cursor_col: u16,
    term_cols: u16,
    term_rows: u16,
    popup_width: u128,
    popup_height: u128,
    panel_h: u128,
    wants_panel: bool,
) -> (r: (u128, u128, u128, bool, u128))
    requires
        popup_width <= 0xffff,
        popup_height <= 0xffff,
        panel_h <= 0xffff,
    ensures
        (r.0 as int, r.1 as int, r.2 as int, r.3, r.4 as int) == positions(
            cursor_row as int,
            cursor_col as int,
            term_cols as int,
            term_rows as int,
            popup_width as int,
            popup_height as int,
            panel_h as int,
            wants_panel,
        ),
        r.1 <= 0xffff,
        r.4 <= 0xffff,
{
    let popup_col: u128 = if cursor_col as u128 + popup_width > term_cols as u128 {
        if term_cols as u128 >= popup_width {
            term_cols as u128 - popup_width
        } else {
            0
        }
    } else {
        cursor_col as u128
    };
    let panel_col: u128 = popup_col + popup_width + 1;
    let renders_panel = wants_panel && panel_col + (PANEL_INNER_WIDTH as u128) + 2 <= term_cols as u128;
    let rendered_height: u128 = if renders_panel {
        if popup_height >= panel_h {
            popup_height
        } else {
            panel_h
        }
    } else {
        popup_height
    };
    let popup_row: u128 = if cursor_row as u128 + 1 + rendered_height > term_rows as u128 {
        if cursor_row as u128 >= rendered_height {
            cursor_row as u128 - rendered_height
        } else {
            0
        }
    } else {
        cursor_row as u128 + 1
    };
    (popup_row, popup_col, panel_col, renders_panel, rendered_height)
}

/// Render settings for the completion popup.
pub struct PopupRenderer {
    pub theme: Theme,
}

impl PopupRenderer {
    pub fn new(theme: Theme) -> (r: Self)
        ensures
            r.theme == theme,
    {
        PopupRenderer { theme }
    }

    /// The popup's layout below the cursor at (`cursor_row`, `cursor_col`) on a
    /// `term_cols` x `term_rows` terminal (above it when there is no room
    /// below, shifted left when there is none to the right); `Some(None)`
    /// when there is nothing to show. `None` on the inputs where the 16-bit
    /// cell arithmetic overflows.
    pub fn try_layout(
        &self,
        state: &PopupState,
        cursor_row: u16,
        cursor_col: u16,
        term_cols: u16,
        term_rows: u16,
    ) -> (r: Option<Option<PopupLayout>>)
        ensures
            !state.visible || state.items@.len() == 0 ==> r == Some(None::<PopupLayout>),
            state.visible && state.items@.len() > 0 ==> (r is Some <==> layout_fits(
                state@,
                self.theme,
                cursor_row as int,
                cursor_col as int,
                term_cols as int,
                term_rows as int,
            )),
            r matches Some(l) ==> l == spec_layout(
                state@,
                self.theme,
                cursor_row as int,
                cursor_col as int,
                term_cols as int,
                term_rows as int,
            ),
    {
        if !state.visible || state.items.len() == 0 {
            return Some(None);
        }
        let vis = state.visible_count();
        let lo = state.scroll_offset;
        if lo as u128 + vis as u128 > usize::MAX as u128 {
            return None;
        }
        let hi = if lo + vis < state.items.len() {
            lo + vis
        } else {
            state.items.len()
        };
        let lo2 = if lo < hi {
            lo
        } else {
            hi
        };
        proof {
            if lo > hi {
                assert(column_max(state.items@, lo as int, hi as int, Column::Icon) == 0);
                assert(column_max(state.items@, lo as int, hi as int, Column::Name) == 0);
                assert(column_max(state.items@, lo as int, hi as int, Column::Description) == 0);
            }
        }
        let (max_icon, max_name, max_desc) = column_maxima(&state.items, lo2, hi);
        proof {
            lemma_column_max_nonneg(state.items@, lo as int, hi as int, Column::Icon);
            lemma_column_max_nonneg(state.items@, lo as int, hi as int, Column::Name);
            lemma_column_max_nonneg(state.items@, lo as int, hi as int, Column::Description);
        }
        if self.theme.min_width > self.theme.max_width {
            return None;
        }
        let (inner, icon_col, name_col, has_desc) = compute_widths(
            max_icon,
            max_name,
            max_desc,
            self.theme.min_width,
            self.theme.max_width,
        );
        let popup_width: u128 = inner + 2;
        if popup_width > 0xffff {
            return None;
        }
        let popup_height: u128 = vis as u128 + 2;
        if popup_height > 0xffff {
            return None;
        }
        let panel_h = compute_panel_height(state, &self.theme, vis);
        if panel_h > 0xffff {
            return None;
        }
        if cursor_col as u128 + popup_width > 0xffff {
            return None;
        }
        let wants_panel = self.theme.show_description_panel && state.selected < state.items.len()
            && state.items[state.selected].candidate.description.is_some();
        let (popup_row, popup_col, panel_col, renders_panel, rendered_height) = compute_positions(
            cursor_row,
            cursor_col,
            term_cols,
            term_rows,
            popup_width,
            popup_height,
            panel_h,
            wants_panel,
        );
        if popup_col + popup_width + 1 > 0xffff {
            return None;
        }
        if wants_panel && panel_col + (PANEL_INNER_WIDTH as u128) + 2 > 0xffff {
            return None;
        }
        if cursor_row as u128 + 1 + rendered_height > 0xffff {
            return None;
        }
        Some(
            Some(
                PopupLayout {
                    popup_row: popup_row as u16,
                    popup_col: popup_col as u16,
                    inner_width: inner as usize,
                    icon_col_width: icon_col as usize,
                    name_col_width: name_col as usize,
                    has_descriptions: has_desc,
                    visible_count: vis,
                    popup_height: popup_height as u16,
                    renders_panel,
                    panel_col: panel_col as u16,
                    rendered_height: rendered_height as u16,
                },
            ),
        )
    }

    /// The popup's layout, on inputs where the 16-bit cell arithmetic stays in
    /// range (see `try_layout`).
    pub fn layout(
        &self,
        state: &PopupState,
        cursor_row: u16,
        cursor_col: u16,
        term_cols: u16,
        term_rows: u16,
    ) -> (r: Option<PopupLayout>)
        requires
            state.visible && state.items@.len() > 0 ==> layout_fits(
                state@,
                self.theme,
                cursor_row as int,
                cursor_col as int,
                term_cols as int,
                term_rows as int,
            ),
        ensures
            r == spec_layout(
                state@,
                self.theme,
                cursor_row as int,
                cursor_col as int,
                term_cols as int,
                term_rows as int,
            ),
    {
        match self.try_layout(state, cursor_row, cursor_col, term_cols, term_rows) {
            Some(l) => l,
            None => None,
        }
    }
}

// ---------------------------------------------------------------------------
// Row contents
// ---------------------------------------------------------------------------

/// What follows the name on a popup row.
pub enum RowTail {
    /// A dot separator, then the description and its padding.
    Description { text: String, pad: usize },
    /// Blank columns up to the right border.
    Pad(usize),
}

/// The text of one popup row between its borders.
pub struct RowCells {
    pub icon: String,
    pub icon_pad: usize,
    pub name: String,
    pub name_pad: usize,
    pub tail: RowTail,
}

/// The row's cells as character sequences and widths: `(icon, icon_pad, name,
/// name_pad, description and its padding or the trailing padding)`.
pub open spec fn spec_row_cells(l: PopupLayout, c: CompletionCandidate) -> (
    Seq<char>,
    int,
    Seq<char>,
    int,
    Result<(Seq<char>, int), int>,
) {
    let icon = spec_terminal_icon(c);
    let icon_pad = isat(l.icon_col_width as int, display_width(icon) as int);
    let name = ellipsized(c.spec_display_label(), l.name_col_width as int);
    let name_w = display_width(name) as int;
    let name_pad = isat(l.name_col_width as int, name_w);
    let remaining = isat(l.inner_width as int, l.icon_col_width + 1 + l.name_col_width);
    let tail = if l.has_descriptions && remaining > 5 {
        let desc = match c.description {
            Some(d) => d@,
            None => Seq::<char>::empty(),
        };
        let text = ellipsized(desc, isat(remaining, 4));
        Ok((text, isat(remaining, 4 + display_width(text))))
    } else {
        Err(isat(l.inner_width as int, 2 + name_w + name_pad))
    };
    (icon, icon_pad, name, name_pad, tail)
}

pub open spec fn row_cells_view(r: RowCells) -> (
    Seq<char>,
    int,
    Seq<char>,
    int,
    Result<(Seq<char>, int), int>,
) {
    (
        r.icon@,
        r.icon_pad as int,
        r.name@,
        r.name_pad as int,
        match r.tail {
            RowTail::Description { text, pad } => Ok((text@, pad as int)),
            RowTail::Pad(n) => Err(n as int),
        },
    )
}

fn sat_usize(a: u128, b: u128) -> (r: usize)
    requires
        a <= usize::MAX,
    ensures
        r == isat(a as int, b as int),
{
    if a >= b {
        (a - b) as usize
    } else {
        0
    }
}

/// The cells of the popup row showing `candidate`.
pub fn row_cells(layout: &PopupLayout, candidate: &CompletionCandidate) -> (r: RowCells)
    ensures
        row_cells_view(r) == spec_row_cells(*layout, *candidate),
{
    let icon = terminal_icon(candidate);
    let icon_w = str_width(icon);
    let icon_pad = sat_usize(layout.icon_col_width as u128, icon_w as u128);
    let name = truncate_with_ellipsis(candidate.display_label(), layout.name_col_width);
    let name_w = str_width(name.as_str());
    let name_pad = sat_usize(layout.name_col_width as u128, name_w as u128);
    let remaining = sat_usize(
        layout.inner_width as u128,
        layout.icon_col_width as u128 + 1 + layout.name_col_width as u128,
    );
    let tail = if layout.has_descriptions && remaining > 5 {
        let empty = String::new();
        let desc: &str = match &candidate.description {
            Some(d) => d.as_str(),
            None => empty.as_str(),
        };
        let text = truncate_with_ellipsis(desc, remaining - 4);
        let w = str_width(text.as_str());
        let pad = sat_usize(remaining as u128, 4 + w as u128);
        RowTail::Description { text, pad }
    } else {
        RowTail::Pad(
            sat_usize(layout.inner_width as u128, 2 + name_w as u128 + name_pad as u128),
        )
    };
    RowCells { icon: icon.to_owned(), icon_pad, name, name_pad, tail }
}

/// The decimal digits of `n`.
pub open spec fn decimal(n: nat) -> Seq<char>
    decreases n,
{
    if n < 10 {
        seq![digit_char(n)]
    } else {
        decimal(n / 10).push(digit_char(n % 10))
    }
}

pub open spec fn digit_char(d: nat) -> char {
    if d == 0 {
        '0'
    } else if d == 1 {
        '1'
    } else if d == 2 {
        '2'
    } else if d == 3 {
        '3'
    } else if d == 4 {
        '4'
    } else if d == 5 {
        '5'
    } else if d == 6 {
        '6'
    } else if d == 7 {
        '7'
    } else if d == 8 {
        '8'
    } else {
        '9'
    }
}

pub(crate) fn digit(d: usize) -> (c: char)
    requires
        d < 10,
    ensures
        c == digit_char(d as nat),
{
    if d == 0 {
        '0'
    } else if d == 1 {
        '1'
    } else if d == 2 {
        '2'
    } else if d == 3 {
        '3'
    } else if d == 4 {
        '4'
    } else if d == 5 {
        '5'
    } else if d == 6 {
        '6'
    } else if d == 7 {
        '7'
    } else if d == 8 {
        '8'
    } else {
        '9'
    }
}

fn push_decimal(out: &mut Vec<char>, n: usize)
    ensures
        final(out)@ == old(out)@ + decimal(n as nat),
    decreases n,
{
    if n < 10 {
        out.push(digit(n));
        assert(final(out)@ =~= old(out)@ + decimal(n as nat));
    } else {
        push_decimal(out, n / 10);
        out.push(digit(n % 10));
        assert(final(out)@ =~= old(out)@ + decimal(n as nat));
    }
}

/// The scroll indicator ` pos/total ↕ ` shown when not every item fits.
pub open spec fn indicator_text(p: PopupView, vis: int) -> Seq<char> {
    if p.items.len() > p.max_visible {
        seq![' '] + decimal((p.scroll_offset + vis) as nat) + seq!['/'] + decimal(
            p.items.len() as nat,
        ) + seq![' ', '↕', ' ']
    } else {
        Seq::<char>::empty()
    }
}

/// The bottom border's run of border characters and its scroll indicator.
pub fn bottom_border(layout: &PopupLayout, state: &PopupState) -> (r: (usize, String))
    requires
        state.scroll_offset + layout.visible_count <= usize::MAX,
    ensures
        r.1@ == indicator_text(state@, layout.visible_count as int),
        r.0 == isat(layout.inner_width as int, display_width(r.1@) as int),
{
    let mut v: Vec<char> = Vec::new();
    if state.items.len() > state.max_visible {
        v.push(' ');
        push_decimal(&mut v, state.scroll_offset + layout.visible_count);
        v.push('/');
        push_decimal(&mut v, state.items.len());
        v.push(' ');
        v.push('↕');
        v.push(' ');
    }
    assert(v@ =~= indicator_text(state@, layout.visible_count as int));
    let indicator = string_from_chars(&v);
    let w = str_width(indicator.as_str());
    (sat_usize(layout.inner_width as u128, w as u128), indicator)
}

/// One line of the description panel.
pub struct PanelLine {
    pub row: u16,
    pub text: String,
    pub pad: usize,
}

/// The description panel: the selected item's label, its wrapped description
/// and the blank rows below, down to the bottom border's row.
pub struct PanelContent {
    pub title: String,
    pub title_pad: usize,
    pub lines: Vec<PanelLine>,
    pub filler_rows: Vec<u16>,
    pub bottom_row: u16,
}

pub open spec fn panel_line_view(l: PanelLine) -> (int, Seq<char>, int) {
    (l.row as int, l.text@, l.pad as int)
}

/// The wrapped description lines that fit above the bottom border, each with
/// its row and padding.
pub open spec fn spec_panel_lines(l: PopupLayout, desc: Seq<char>) -> Seq<(int, Seq<char>, int)> {
    let lines = wrapped(desc, PANEL_INNER_WIDTH - 2);
    let shown = imin(lines.len() as int, isat(l.rendered_height as int, 4));
    Seq::new(
        shown as nat,
        |i: int|
            (
                l.popup_row + 3 + i,
                lines[i],
                isat(PANEL_INNER_WIDTH - 2, display_width(lines[i]) as int),
            ),
    )
}

/// The rows between the last description line and the bottom border.
pub open spec fn spec_filler_rows(l: PopupLayout, desc: Seq<char>) -> Seq<int> {
    let first = l.popup_row + 3 + wrapped(desc, PANEL_INNER_WIDTH - 2).len();
    let bottom = l.popup_row + l.rendered_height - 1;
    Seq::new(isat(bottom, first) as nat, |i: int| first + i)
}

pub fn panel_content(layout: &PopupLayout, state: &PopupState) -> (r: Option<PanelContent>)
    requires
        layout.popup_row + layout.rendered_height <= 0xffff,
        layout.rendered_height >= 1,
    ensures
        r is Some <==> (layout.renders_panel && state.selected < state.items@.len()
            && state.items@[state.selected as int].candidate.description is Some),
        r matches Some(p) ==> {
            let c = state.items@[state.selected as int].candidate;
            let desc = c.description->0@;
            let title = ellipsized(c.spec_display_label(), PANEL_INNER_WIDTH - 2);
            &&& layout.renders_panel && state.selected < state.items@.len()
            &&& c.description is Some
            &&& p.title@ == title
            &&& p.title_pad == isat(PANEL_INNER_WIDTH - 2, display_width(title) as int)
            &&& p.lines@.map_values(|x: PanelLine| panel_line_view(x)) == spec_panel_lines(
                *layout,
                desc,
            )
            &&& p.filler_rows@.map_values(|x: u16| x as int) == spec_filler_rows(*layout, desc)
            &&& p.bottom_row == layout.popup_row + layout.rendered_height - 1
        },
{
    if !layout.renders_panel || state.selected >= state.items.len() {
        return None;
    }
    let c = &state.items[state.selected].candidate;
    let desc = match &c.description {
        Some(d) => d,
        None => {
            return None;
        },
    };
    let wrap_width = PANEL_INNER_WIDTH - 2;
    let desc_lines = word_wrap(desc.as_str(), wrap_width);
    let ghost wl = wrapped(desc@, PANEL_INNER_WIDTH - 2);
    assert(desc_lines@.map_values(|s: String| s@) == wl);
    let title = truncate_with_ellipsis(c.display_label(), wrap_width);
    let tw = str_width(title.as_str());
    let title_pad = sat_usize(wrap_width as u128, tw as u128);
    let limit: usize = if layout.rendered_height >= 4 {
        (layout.rendered_height - 4) as usize
    } else {
        0
    };
    let mut lines: Vec<PanelLine> = Vec::new();
    let mut i: usize = 0;
    while i < desc_lines.len() && i < limit
        invariant
            i <= desc_lines@.len(),
            i <= limit,
            limit == isat(layout.rendered_height as int, 4),
            layout.popup_row + layout.rendered_height <= 0xffff,
            desc_lines@.map_values(|s: String| s@) == wl,
            wrap_width == PANEL_INNER_WIDTH - 2,
            lines@.map_values(|x: PanelLine| panel_line_view(x)) == Seq::new(
                i as nat,
                |j: int|
                    (
                        layout.popup_row + 3 + j,
                        wl[j],
                        isat(PANEL_INNER_WIDTH - 2, display_width(wl[j]) as int),
                    ),
            ),
        decreases desc_lines@.len() - i,
    {
        let ghost before = lines@;
        let line = &desc_lines[i];
        assert(wl[i as int] == line@);
        let w = str_width(line.as_str());
        let row = layout.popup_row + 3 + i as u16;
        let text = line.clone();
        let pad = sat_usize(wrap_width as u128, w as u128);
        let pl = PanelLine { row, text, pad };
        assert(panel_line_view(pl) == (
            layout.popup_row + 3 + i,
            wl[i as int],
            isat(PANEL_INNER_WIDTH - 2, display_width(wl[i as int]) as int),
        ));
        lines.push(pl);
        assert(lines@.map_values(|x: PanelLine| panel_line_view(x)) =~= before.map_values(
            |x: PanelLine| panel_line_view(x),
        ).push(panel_line_view(pl)));
        assert(lines@.map_values(|x: PanelLine| panel_line_view(x)) =~= Seq::new(
            (i + 1) as nat,
            |j: int|
                (
                    layout.popup_row + 3 + j,
                    wl[j],
                    isat(PANEL_INNER_WIDTH - 2, display_width(wl[j]) as int),
                ),
        ));
        i = i + 1;
    }
    assert(lines@.map_values(|x: PanelLine| panel_line_view(x)) =~= spec_panel_lines(
        *layout,
        desc@,
    ));
    let first: u128 = layout.popup_row as u128 + 3 + desc_lines.len() as u128;
    let bottom: u128 = layout.popup_row as u128 + layout.rendered_height as u128 - 1;
    let mut filler_rows: Vec<u16> = Vec::new();
    let mut r = first;
    while r < bottom
        invariant
            first <= r || bottom <= first,
            bottom <= 0xffff,
            first == layout.popup_row + 3 + wl.len(),
            bottom == layout.popup_row + layout.rendered_height - 1,
            r >= first,
            filler_rows@.map_values(|x: u16| x as int) == Seq::new(
                (r - first) as nat,
                |j: int| first + j,
            ),
            r <= bottom || r == first,
        decreases bottom - r,
    {
        let ghost before = filler_rows@;
        filler_rows.push(r as u16);
        assert(filler_rows@.map_values(|x: u16| x as int) =~= before.map_values(|x: u16| x as int).push(
            r as int,
        ));
        assert(filler_rows@.map_values(|x: u16| x as int) =~= Seq::new(
            (r + 1 - first) as nat,
            |j: int| first + j,
        ));
        r = r + 1;
    }
    assert(filler_rows@.map_values(|x: u16| x as int) =~= spec_filler_rows(*layout, desc@));
    Some(
        PanelContent {
            title,
            title_pad,
            lines,
            filler_rows,
            bottom_row: (layout.popup_row + layout.rendered_height - 1) as u16,
        },
    )
}

/// The first row `clear` blanks: where `render` put the popup of `lines` rows
/// for a cursor on `cursor_row`.
pub open spec fn spec_clear_row(cursor_row: int, lines: int, term_rows: int) -> int {
    if cursor_row + 1 + lines > term_rows {
        isat(cursor_row, lines)
    } else {
        cursor_row + 1
    }
}

/// The rows `clear` blanks, from the column `render` used: none when nothing
/// was drawn.
pub fn clear_rows(cursor_row: u16, lines: u16, term_rows: u16) -> (r: Vec<u16>)
    requires
        cursor_row + 1 + lines <= 0xffff,
    ensures
        r@.map_values(|x: u16| x as int) == Seq::new(
            lines as nat,
            |i: int| spec_clear_row(cursor_row as int, lines as int, term_rows as int) + i,
        ),
{
    let top: u16 = if cursor_row + 1 + lines > term_rows {
        if cursor_row >= lines {
            cursor_row - lines
        } else {
            0
        }
    } else {
        cursor_row + 1
    };
    let mut rows: Vec<u16> = Vec::new();
    let mut i: u16 = 0;
    while i < lines
        invariant
            i <= lines,
            top == spec_clear_row(cursor_row as int, lines as int, term_rows as int),
            top + lines <= 0xffff,
            rows@.map_values(|x: u16| x as int) == Seq::new(i as nat, |j: int| top + j),
        decreases lines - i,
    {
        let ghost before = rows@;
        rows.push(top + i);
        assert(rows@ == before.push((top + i) as u16));
        assert(rows@.map_values(|x: u16| x as int) =~= before.map_values(|x: u16| x as int).push(
            top + i,
        ));
        i = i + 1;
        assert(rows@.map_values(|x: u16| x as int) =~= Seq::new(i as nat, |j: int| top + j));
    }
    rows
}

} // verus!
