//! Generators: suggestions from a script's output or a path template, with a
//! per-session cache and an optional shared cache. Running the script and
//! listing directories is the caller's part; this module decides when that is
//! needed and what the results become.
use crate::completion::spec::{
    CandidateKind, CompletionCandidate, Generator, GeneratorCacheStrategy, GeneratorScript,
    Suggestion, SuggestionOrString, Template, TemplateKind, clone_opt_string,
    DEFAULT_CANDIDATE_PRIORITY,
};
use crate::completion::engine::{opt_str_eq, strings_eq};
use crate::completion::source::{
    is_entry_candidate, offered_entries, spec_resolve_path, CachedDirEntry, CompletionContext,
    CompletionSource, PathSource,
};
use crate::completion::spec::{clone_string, strings_view};
use crate::text::{char_is_whitespace, chars_of, chars_range, is_unicode_whitespace, string_from_chars, str_eq};
use vstd::pervasive::VecAdditionalExecFns;
use vstd::prelude::*;

verus! {

/// A candidate as plain values.
pub struct CandidateView {
    pub name: Seq<char>,
    pub insert_value: Option<Seq<char>>,
    pub display_name: Option<Seq<char>>,
    pub description: Option<Seq<char>>,
    pub icon: Option<Seq<char>>,
    pub priority: i32,
    pub kind: CandidateKind,
}

pub open spec fn ov(o: Option<String>) -> Option<Seq<char>> {
    match o {
        Some(s) => Some(s@),
        None => None,
    }
}

pub open spec fn candidate_view(c: CompletionCandidate) -> CandidateView {
    CandidateView {
        name: c.name@,
        insert_value: ov(c.insert_value),
        display_name: ov(c.display_name),
        description: ov(c.description),
        icon: ov(c.icon),
        priority: c.priority,
        kind: c.kind,
    }
}

pub open spec fn candidates_view(cs: Seq<CompletionCandidate>) -> Seq<CandidateView> {
    cs.map_values(|c: CompletionCandidate| candidate_view(c))
}

/// A candidate with only a name.
pub open spec fn bare(name: Seq<char>, kind: CandidateKind) -> CandidateView {
    CandidateView {
        name,
        insert_value: None,
        display_name: None,
        description: None,
        icon: None,
        priority: DEFAULT_CANDIDATE_PRIORITY,
        kind,
    }
}

/// The candidates a structured suggestion gives, one per name from `i` on:
/// its insert value, description, icon and priority on each, its display name
/// on those equal to the primary name.
pub open spec fn structured_views(s: Suggestion, kind: CandidateKind, n: int) -> Seq<CandidateView>
    decreases n,
{
    if n <= 0 {
        Seq::<CandidateView>::empty()
    } else {
        let name = s.name.names()[n - 1];
        structured_views(s, kind, n - 1).push(
            CandidateView {
                name,
                insert_value: ov(s.insert_value),
                display_name: if name == s.name.spec_primary() {
                    ov(s.display_name)
                } else {
                    None
                },
                description: ov(s.description),
                icon: ov(s.icon),
                priority: match s.priority {
                    Some(p) => p,
                    None => DEFAULT_CANDIDATE_PRIORITY,
                },
                kind,
            },
        )
    }
}

/// The candidates a suggestion gives: a plain string as it is; a structured
/// one per name unless hidden.
pub open spec fn suggestion_views(s: SuggestionOrString, kind: CandidateKind) -> Seq<CandidateView> {
    match s {
        SuggestionOrString::String(v) => seq![bare(v@, kind)],
        SuggestionOrString::Suggestion(s) => if s.hidden {
            Seq::<CandidateView>::empty()
        } else {
            structured_views(s, kind, s.name.names().len() as int)
        },
    }
}

fn bare_candidate(name: String, kind: CandidateKind) -> (c: CompletionCandidate)
    ensures
        candidate_view(c) == bare(name@, kind),
{
    CompletionCandidate {
        name,
        insert_value: None,
        display_name: None,
        description: None,
        icon: None,
        priority: DEFAULT_CANDIDATE_PRIORITY,
        kind,
    }
}

fn structured_suggestion_candidates(suggestion: &Suggestion, kind: CandidateKind) -> (r: Vec<
    CompletionCandidate,
>)
    ensures
        !suggestion.hidden ==> candidates_view(r@) == structured_views(
            *suggestion,
            kind,
            suggestion.name.names().len() as int,
        ),
        suggestion.hidden ==> r@.len() == 0,
{
    let mut candidates: Vec<CompletionCandidate> = Vec::new();
    if suggestion.hidden {
        return candidates;
    }
    let names = suggestion.name.iter();
    let primary = suggestion.name.primary();
    let mut i: usize = 0;
    while i < names.len()
        invariant
            i <= names@.len(),
            !suggestion.hidden,
            crate::completion::spec::strs_view(names@) == suggestion.name.names(),
            primary@ == suggestion.name.spec_primary(),
            candidates_view(candidates@) == structured_views(*suggestion, kind, i as int),
        decreases names@.len() - i,
    {
        let name = names[i];
        assert(crate::completion::spec::strs_view(names@)[i as int] == name@);
        let display_name = if str_eq(name, primary) {
            clone_opt_string(&suggestion.display_name)
        } else {
            None
        };
        let c = CompletionCandidate {
            name: name.to_owned(),
            insert_value: clone_opt_string(&suggestion.insert_value),
            display_name,
            description: clone_opt_string(&suggestion.description),
            icon: clone_opt_string(&suggestion.icon),
            priority: match suggestion.priority {
                Some(p) => p,
                None => DEFAULT_CANDIDATE_PRIORITY,
            },
            kind,
        };
        let ghost before = candidates@;
        candidates.push(c);
        assert(candidates_view(candidates@) =~= candidates_view(before).push(candidate_view(c)));
        i = i + 1;
    }
    candidates
}

/// The candidates a suggestion gives (see `suggestion_views`).
pub fn suggestion_candidates(suggestion: &SuggestionOrString, kind: CandidateKind) -> (r: Vec<
    CompletionCandidate,
>)
    ensures
        candidates_view(r@) == suggestion_views(*suggestion, kind),
{
    match suggestion {
        SuggestionOrString::String(value) => {
            let mut v: Vec<CompletionCandidate> = Vec::new();
            let c = bare_candidate(value.clone(), kind);
            v.push(c);
            assert(candidates_view(v@) =~= seq![bare(value@, kind)]);
            v
        },
        SuggestionOrString::Suggestion(value) => {
            let r = structured_suggestion_candidates(value, kind);
            proof {
                if value.hidden {
                    assert(candidates_view(r@) =~= Seq::<CandidateView>::empty());
                }
            }
            r
        },
    }
}

// ---------------------------------------------------------------------------
// Splitting script output
// ---------------------------------------------------------------------------

/// Index of the first occurrence of `d` in `s` at or after `i`.
pub open spec fn find_from(s: Seq<char>, d: Seq<char>, i: int) -> Option<int>
    decreases s.len() + 1 - i,
{
    if i < 0 || i > s.len() || i + d.len() > s.len() {
        None
    } else if s.subrange(i, i + d.len()) == d {
        Some(i)
    } else {
        find_from(s, d, i + 1)
    }
}

/// The pieces between occurrences of a non-empty delimiter (`str::split`).
pub open spec fn split_on(s: Seq<char>, d: Seq<char>) -> Seq<Seq<char>>
    decreases s.len(),
{
    if d.len() == 0 {
        seq![Seq::<char>::empty()] + Seq::new(s.len(), |i: int| seq![s[i]]) + seq![
            Seq::<char>::empty(),
        ]
    } else {
        match find_from(s, d, 0) {
            None => seq![s],
            Some(k) => if 0 <= k && k + d.len() <= s.len() {
                seq![s.subrange(0, k)] + split_on(s.subrange(k + d.len(), s.len() as int), d)
            } else {
                seq![s]
            },
        }
    }
}

/// Index of the first non-whitespace character at or after `i`.
pub open spec fn first_non_ws(s: Seq<char>, i: int) -> int
    decreases s.len() - i,
{
    if i < 0 || i >= s.len() {
        s.len() as int
    } else if !is_unicode_whitespace(s[i]) {
        i
    } else {
        first_non_ws(s, i + 1)
    }
}

/// One past the last non-whitespace character before `j`.
pub open spec fn last_non_ws(s: Seq<char>, j: int) -> int
    decreases j,
{
    if j <= 0 || j > s.len() {
        0
    } else if !is_unicode_whitespace(s[j - 1]) {
        j
    } else {
        last_non_ws(s, j - 1)
    }
}

/// `s` without leading and trailing whitespace (`str::trim`).
pub open spec fn trimmed(s: Seq<char>) -> Seq<char> {
    let a = first_non_ws(s, 0);
    let b = last_non_ws(s, s.len() as int);
    if a < b {
        s.subrange(a, b)
    } else {
        Seq::<char>::empty()
    }
}

/// One argument candidate per non-blank piece, trimmed.
pub open spec fn piece_views(pieces: Seq<Seq<char>>) -> Seq<CandidateView>
    decreases pieces.len(),
{
    if pieces.len() == 0 {
        Seq::<CandidateView>::empty()
    } else {
        let t = trimmed(pieces.last());
        piece_views(pieces.drop_last()) + if t.len() == 0 {
            Seq::<CandidateView>::empty()
        } else {
            seq![bare(t, CandidateKind::Argument)]
        }
    }
}

/// The candidates the output gives when split at the generator's delimiter;
/// `None` without a delimiter.
pub open spec fn spec_split_output(g: Generator, output: Seq<char>) -> Option<Seq<CandidateView>> {
    match g.split_on {
        None => None,
        Some(d) => Some(piece_views(split_on(output, d@))),
    }
}

proof fn lemma_first_non_ws_bounds(s: Seq<char>, i: int)
    requires
        0 <= i <= s.len(),
    ensures
        i <= first_non_ws(s, i) <= s.len(),
    decreases s.len() - i,
{
    if i < s.len() && is_unicode_whitespace(s[i]) {
        lemma_first_non_ws_bounds(s, i + 1);
    }
}

proof fn lemma_last_non_ws_bounds(s: Seq<char>, j: int)
    requires
        0 <= j <= s.len(),
    ensures
        0 <= last_non_ws(s, j) <= j,
    decreases j,
{
    if j > 0 && is_unicode_whitespace(s[j - 1]) {
        lemma_last_non_ws_bounds(s, j - 1);
    }
}

/// The characters from `start` to `end` with surrounding whitespace removed.
fn trim_range(v: &Vec<char>, start: usize, end: usize) -> (r: Vec<char>)
    requires
        start <= end <= v@.len(),
    ensures
        r@ == trimmed(v@.subrange(start as int, end as int)),
{
    let ghost s = v@.subrange(start as int, end as int);
    let mut a = start;
    while a < end && char_is_whitespace(v[a])
        invariant
            start <= a <= end <= v@.len(),
            s == v@.subrange(start as int, end as int),
            first_non_ws(s, a - start) == first_non_ws(s, 0),
        decreases end - a,
    {
        a = a + 1;
    }
    let mut b = end;
    while b > a && char_is_whitespace(v[b - 1])
        invariant
            start <= a <= b <= end <= v@.len(),
            s == v@.subrange(start as int, end as int),
            last_non_ws(s, b - start) == last_non_ws(s, s.len() as int),
            first_non_ws(s, 0) == a - start,
        decreases b,
    {
        b = b - 1;
    }
    proof {
        if b > a {
            assert(last_non_ws(s, b - start) == b - start);
        } else {
            lemma_last_non_ws_bounds(s, b - start);
        }
    }
    let r = chars_range(v, a, b);
    assert(r@ =~= trimmed(s));
    r
}

proof fn lemma_find_skip(s: Seq<char>, d: Seq<char>, i: int, j: int)
    requires
        0 <= i <= j,
        forall|k: int| i <= k < j ==> !(k + d.len() <= s.len() && #[trigger] s.subrange(k, k + d.len()) == d),
    ensures
        find_from(s, d, i) == find_from(s, d, j) || (j + d.len() > s.len() && find_from(s, d, i) is None),
    decreases j - i,
{
    if i < j && i + d.len() <= s.len() {
        lemma_find_skip(s, d, i + 1, j);
    }
}

proof fn lemma_find_shift(s: Seq<char>, d: Seq<char>, start: int, i: int)
    requires
        0 <= start <= i <= s.len(),
    ensures
        find_from(s.subrange(start, s.len() as int), d, i - start) == (match find_from(s, d, i) {
            Some(k) => Some(k - start),
            None => None,
        }),
    decreases s.len() - i,
{
    if i + d.len() <= s.len() {
        assert(s.subrange(start, s.len() as int).subrange(i - start, i - start + d.len()) =~= s.subrange(
            i,
            i + d.len(),
        ));
        if i < s.len() {
            lemma_find_shift(s, d, start, i + 1);
        }
    }
}

fn matches_at(s: &Vec<char>, d: &Vec<char>, i: usize) -> (r: bool)
    requires
        i + d@.len() <= s@.len(),
    ensures
        r == (s@.subrange(i as int, i + d@.len()) == d@),
{
    let sl = s.len();
    let mut j: usize = 0;
    while j < d.len()
        invariant
            j <= d@.len(),
            sl == s@.len(),
            i + d@.len() <= s@.len(),
            forall|k: int| 0 <= k < j ==> s@[i + k] == d@[k],
        decreases d@.len() - j,
    {
        if s[i + j] != d[j] {
            assert(s@.subrange(i as int, i + d@.len())[j as int] != d@[j as int]);
            return false;
        }
        j = j + 1;
    }
    assert(s@.subrange(i as int, i + d@.len()) =~= d@);
    true
}

/// The first occurrence of `d` in `s` at or after `from`.
fn find_seq(s: &Vec<char>, d: &Vec<char>, from: usize) -> (r: Option<usize>)
    requires
        from <= s@.len(),
    ensures
        r matches Some(k) ==> find_from(s@, d@, from as int) == Some(k as int) && from <= k && k
            + d@.len() <= s@.len(),
        r is None ==> find_from(s@, d@, from as int) is None,
{
    if d.len() > s.len() {
        return None;
    }
    let last = s.len() - d.len();
    if from > last {
        return None;
    }
    let mut i = from;
    loop
        invariant
            from <= i <= last,
            last + d@.len() == s@.len(),
            forall|k: int|
                from <= k < i ==> !(k + d@.len() <= s@.len() && #[trigger] s@.subrange(
                    k,
                    k + d@.len(),
                ) == d@),
        decreases last - i,
    {
        if matches_at(s, d, i) {
            proof {
                lemma_find_skip(s@, d@, from as int, i as int);
            }
            return Some(i);
        }
        if i >= last {
            proof {
                lemma_find_skip(s@, d@, from as int, i as int + 1);
            }
            return None;
        }
        i = i + 1;
    }
}

/// Splits script output at the generator's delimiter into argument candidates
/// (trimmed, blank pieces skipped); `None` without a delimiter.
pub fn split_output(generator: &Generator, output: &str) -> (r: Option<Vec<CompletionCandidate>>)
    ensures
        match spec_split_output(*generator, output@) {
            None => r is None,
            Some(vs) => r matches Some(cs) && candidates_view(cs@) == vs,
        },
{
    let delimiter = match &generator.split_on {
        None => {
            return None;
        },
        Some(d) => d,
    };
    let s = chars_of(output);
    let d = chars_of(delimiter.as_str());
    let n = s.len();
    let mut candidates: Vec<CompletionCandidate> = Vec::new();
    if d.len() == 0 {
        let ghost pieces = split_on(s@, d@);
        let mut i: usize = 0;
        proof {
            assert(pieces[0] =~= Seq::<char>::empty());
            let q = pieces.subrange(0, 1);
            assert(q.last() == pieces[0]);
            assert(q.drop_last() =~= Seq::<Seq<char>>::empty());
            assert(trimmed(Seq::<char>::empty()) =~= Seq::<char>::empty());
            assert(piece_views(q.drop_last()) =~= Seq::<CandidateView>::empty());
            assert(piece_views(q) =~= Seq::<CandidateView>::empty());
        }
        while i < n
            invariant
                i <= n == s@.len(),
                d@.len() == 0,
                pieces == split_on(s@, d@),
                pieces.len() == n + 2,
                candidates_view(candidates@) == piece_views(pieces.subrange(0, i + 1)),
            decreases n - i,
        {
            let ghost before = candidates@;
            let t = trim_range(&s, i, i + 1);
            assert(pieces[i + 1] =~= s@.subrange(i as int, i + 1));
            assert(pieces.subrange(0, i + 2).drop_last() =~= pieces.subrange(0, i + 1));
            if t.len() > 0 {
                let c = bare_candidate(string_from_chars(&t), CandidateKind::Argument);
                candidates.push(c);
                assert(candidates_view(candidates@) =~= candidates_view(before).push(candidate_view(c)));
            }
            i = i + 1;
        }
        proof {
            assert(pieces.drop_last() =~= pieces.subrange(0, n + 1));
            assert(pieces[n + 1] =~= Seq::<char>::empty());
            assert(pieces.last() == pieces[n + 1]);
            assert(trimmed(Seq::<char>::empty()) =~= Seq::<char>::empty());
            assert(piece_views(pieces) =~= piece_views(pieces.subrange(0, n + 1)));
        }
        return Some(candidates);
    }
    let mut start: usize = 0;
    let ghost mut done: Seq<Seq<char>> = Seq::empty();
    assert(s@.subrange(0, n as int) =~= s@);
    assert(done + split_on(s@, d@) =~= split_on(s@, d@));
    loop
        invariant
            start <= n == s@.len(),
            s@ == output@,
            generator.split_on matches Some(x) && x@ == d@,
            d@.len() > 0,
            done + split_on(s@.subrange(start as int, n as int), d@) == split_on(s@, d@),
            candidates_view(candidates@) == piece_views(done),
        decreases n - start,
    {
        let ghost rest = s@.subrange(start as int, n as int);
        proof {
            lemma_find_shift(s@, d@, start as int, start as int);
        }
        match find_seq(&s, &d, start) {
            None => {
                let t = trim_range(&s, start, n);
                let ghost before = candidates@;
                proof {
                    assert(split_on(rest, d@) == seq![rest]);
                    assert((done + seq![rest]).drop_last() =~= done);
                    assert((done + seq![rest]).last() == rest);
                }
                if t.len() > 0 {
                    let c = bare_candidate(string_from_chars(&t), CandidateKind::Argument);
                    candidates.push(c);
                    assert(candidates_view(candidates@) =~= candidates_view(before).push(candidate_view(c)));
                    assert(piece_views(done + seq![rest]) =~= piece_views(done) + seq![
                        bare(t@, CandidateKind::Argument),
                    ]);
                } else {
                    assert(piece_views(done + seq![rest]) =~= piece_views(done));
                }
                assert(done + seq![rest] =~= split_on(s@, d@));
                return Some(candidates);
            },
            Some(k) => {
                let t = trim_range(&s, start, k);
                let ghost piece = s@.subrange(start as int, k as int);
                let ghost before = candidates@;
                proof {
                    assert(rest.subrange(0, k - start) =~= piece);
                    assert(rest.subrange(k - start + d@.len(), rest.len() as int) =~= s@.subrange(
                        k + d@.len(),
                        n as int,
                    ));
                    assert(split_on(rest, d@) == seq![piece] + split_on(
                        s@.subrange(k + d@.len(), n as int),
                        d@,
                    ));
                    assert((done + seq![piece]).drop_last() =~= done);
                }
                if t.len() > 0 {
                    let c = bare_candidate(string_from_chars(&t), CandidateKind::Argument);
                    candidates.push(c);
                    assert(candidates_view(candidates@) =~= candidates_view(before).push(candidate_view(c)));
                } else {
                    assert(piece_views(done + seq![piece]) =~= piece_views(done));
                }
                proof {
                    assert(done + seq![piece] + split_on(s@.subrange(k + d@.len(), n as int), d@) =~= done
                        + split_on(rest, d@));
                    done = done + seq![piece];
                }
                start = k + d.len();
            },
        }
    }
}

// ---------------------------------------------------------------------------
// Triggers, templates, signatures, cache keys
// ---------------------------------------------------------------------------

/// Index of the last occurrence of `d` in `s` starting at or before `i`.
pub open spec fn last_match(s: Seq<char>, d: Seq<char>, i: int) -> Option<int>
    decreases i + 1,
{
    if i < 0 {
        None
    } else if i + d.len() <= s.len() && s.subrange(i, i + d.len()) == d {
        Some(i)
    } else {
        last_match(s, d, i - 1)
    }
}

/// The partial word up to the end of the trigger's last occurrence in it: the
/// part whose change asks for fresh output.
pub open spec fn spec_trigger_key(g: Generator, partial: Seq<char>) -> Option<Seq<char>> {
    match g.trigger {
        None => None,
        Some(t) => match last_match(partial, t.text(), partial.len() - t.text().len()) {
            None => None,
            Some(i) => Some(partial.subrange(0, i + t.text().len())),
        },
    }
}

pub fn trigger_key(generator: &Generator, partial: &str) -> (r: Option<String>)
    ensures
        ov(r) == spec_trigger_key(*generator, partial@),
{
    let t = match &generator.trigger {
        None => {
            return None;
        },
        Some(t) => chars_of(t.as_str()),
    };
    let s = chars_of(partial);
    if t.len() > s.len() {
        assert(last_match(s@, t@, s@.len() - t@.len()) is None);
        return None;
    }
    let sl = s.len();
    let mut i = s.len() - t.len();
    loop
        invariant
            sl == s@.len(),
            s@ == partial@,
            generator.trigger matches Some(tr) && tr.text() == t@,
            i + t@.len() <= s@.len(),
            last_match(s@, t@, i as int) == last_match(s@, t@, s@.len() - t@.len()),
        decreases i,
    {
        if matches_at(&s, &t, i) {
            return Some(string_from_chars(&chars_range(&s, 0, i + t.len())));
        }
        if i == 0 {
            assert(last_match(s@, t@, -1) is None);
            return None;
        }
        i = i - 1;
    }
}

pub open spec fn is_path_kind(k: TemplateKind) -> bool {
    k == TemplateKind::Filepaths || k == TemplateKind::Folders
}

/// Whether the template lists files or folders.
pub open spec fn template_uses_paths(t: Template) -> bool {
    match t {
        Template::Single(k) => is_path_kind(k),
        Template::Multiple(ks) => exists|i: int| 0 <= i < ks@.len() && is_path_kind(#[trigger] ks@[i]),
    }
}

pub fn uses_path_template(template: &Template) -> (r: bool)
    ensures
        r == template_uses_paths(*template),
{
    match template {
        Template::Single(kind) => *kind == TemplateKind::Filepaths || *kind == TemplateKind::Folders,
        Template::Multiple(kinds) => {
            let mut i: usize = 0;
            while i < kinds.len()
                invariant
                    i <= kinds@.len(),
                    *template matches Template::Multiple(ks) && ks@ == kinds@,
                    forall|j: int| 0 <= j < i ==> !is_path_kind(#[trigger] kinds@[j]),
                decreases kinds@.len() - i,
            {
                if kinds[i] == TemplateKind::Filepaths || kinds[i] == TemplateKind::Folders {
                    assert(is_path_kind(kinds@[i as int]));
                    return true;
                }
                i = i + 1;
            }
            false
        },
    }
}

/// What `format!("{:?}")` writes for a string: quoted, with escapes.
pub uninterp spec fn debug_text(s: Seq<char>) -> Seq<char>;

/// `<str as Debug>::fmt`, through `format!`.
///
/// Trusted: the text is std's debug form of these characters, a function of
/// them alone.
#[verifier::external_body]
fn debug_str(s: &str) -> (r: String)
    ensures
        r@ == debug_text(s@),
{
    format!("{s:?}")
}

pub open spec fn kind_name(k: TemplateKind) -> Seq<char> {
    match k {
        TemplateKind::Filepaths => "Filepaths"@,
        TemplateKind::Folders => "Folders"@,
        TemplateKind::History => "History"@,
    }
}

/// Parts separated by `, `.
pub open spec fn joined(parts: Seq<Seq<char>>) -> Seq<char>
    decreases parts.len(),
{
    if parts.len() == 0 {
        Seq::<char>::empty()
    } else if parts.len() == 1 {
        parts[0]
    } else {
        joined(parts.drop_last()) + seq![',', ' '] + parts.last()
    }
}

/// A list as `Debug` writes one: `[a, b]`.
pub open spec fn bracketed(parts: Seq<Seq<char>>) -> Seq<char> {
    seq!['['] + joined(parts) + seq![']']
}

pub open spec fn decimal_u64(n: nat) -> Seq<char>
    decreases n,
{
    if n < 10 {
        seq![crate::ui::render::digit_char(n)]
    } else {
        decimal_u64(n / 10).push(crate::ui::render::digit_char(n % 10))
    }
}

pub open spec fn strategy_debug(s: Option<GeneratorCacheStrategy>) -> Seq<char> {
    match s {
        None => "None"@,
        Some(GeneratorCacheStrategy::MaxAge) => "Some(MaxAge)"@,
        Some(GeneratorCacheStrategy::StaleWhileRevalidate) => "Some(StaleWhileRevalidate)"@,
    }
}

pub open spec fn or_empty(o: Option<String>) -> Seq<char> {
    match o {
        Some(s) => s@,
        None => Seq::<char>::empty(),
    }
}

pub open spec fn template_part(g: Generator) -> Seq<char> {
    match g.template {
        Some(Template::Single(k)) => "single:"@ + kind_name(k),
        Some(Template::Multiple(ks)) => "multiple:"@ + bracketed(
            ks@.map_values(|k: TemplateKind| kind_name(k)),
        ),
        None => "none"@,
    }
}

pub open spec fn script_part(g: Generator) -> Seq<char> {
    match g.script {
        Some(GeneratorScript::Single(v)) => "single:"@ + v@,
        Some(GeneratorScript::Multiple(vs)) => "multiple:"@ + bracketed(
            vs@.map_values(|v: String| debug_text(v@)),
        ),
        None => "none"@,
    }
}

pub open spec fn cache_part(g: Generator) -> Seq<char> {
    match g.cache {
        Some(c) => strategy_debug(c.strategy) + seq![':'] + decimal_u64(
            match c.ttl {
                Some(t) => t as nat,
                None => 0,
            },
        ) + seq![':'] + (if c.cache_by_directory {
            "true"@
        } else {
            "false"@
        }) + seq![':'] + or_empty(c.cache_key),
        None => Seq::<char>::empty(),
    }
}

/// A text standing for everything that configures the generator: template,
/// script, delimiter, trigger and cache settings, `|`-separated.
pub open spec fn spec_signature(g: Generator) -> Seq<char> {
    let trigger = match g.trigger {
        Some(t) => t.text(),
        None => Seq::<char>::empty(),
    };
    template_part(g) + seq!['|'] + script_part(g) + seq!['|'] + or_empty(g.split_on) + seq!['|']
        + trigger + seq!['|'] + cache_part(g)
}

fn push_str(out: &mut Vec<char>, s: &str)
    ensures
        final(out)@ == old(out)@ + s@,
{
    let v = chars_of(s);
    let mut j: usize = 0;
    while j < v.len()
        invariant
            j <= v@.len(),
            v@ == s@,
            out@ == old(out)@ + v@.subrange(0, j as int),
        decreases v@.len() - j,
    {
        out.push(v[j]);
        j = j + 1;
        assert(out@ =~= old(out)@ + v@.subrange(0, j as int));
    }
    assert(v@.subrange(0, v@.len() as int) =~= v@);
}

fn push_decimal_u64(out: &mut Vec<char>, n: u64)
    ensures
        final(out)@ == old(out)@ + decimal_u64(n as nat),
    decreases n,
{
    let d = (n % 10) as usize;
    if n < 10 {
        out.push(crate::ui::render::digit(d));
        assert(final(out)@ =~= old(out)@ + decimal_u64(n as nat));
    } else {
        push_decimal_u64(out, n / 10);
        out.push(crate::ui::render::digit(d));
        assert(final(out)@ =~= old(out)@ + decimal_u64(n as nat));
    }
}

fn push_kind(out: &mut Vec<char>, k: TemplateKind)
    ensures
        final(out)@ == old(out)@ + kind_name(k),
{
    match k {
        TemplateKind::Filepaths => push_str(out, "Filepaths"),
        TemplateKind::Folders => push_str(out, "Folders"),
        TemplateKind::History => push_str(out, "History"),
    }
}

proof fn lemma_joined_push(parts: Seq<Seq<char>>, p: Seq<char>)
    ensures
        joined(parts.push(p)) == if parts.len() == 0 {
            p
        } else {
            joined(parts) + seq![',', ' '] + p
        },
{
    assert(parts.push(p).drop_last() =~= parts);
}

fn push_template_part(out: &mut Vec<char>, generator: &Generator)
    ensures
        final(out)@ == old(out)@ + template_part(*generator),
{
    match &generator.template {
        Some(Template::Single(kind)) => {
            push_str(out, "single:");
            push_kind(out, *kind);
        },
        Some(Template::Multiple(kinds)) => {
            push_str(out, "multiple:");
            out.push('[');
            let ghost head = out@;
            let mut i: usize = 0;
            while i < kinds.len()
                invariant
                    i <= kinds@.len(),
                    out@ == head + joined(
                        kinds@.subrange(0, i as int).map_values(|k: TemplateKind| kind_name(k)),
                    ),
                decreases kinds@.len() - i,
            {
                let ghost parts = kinds@.subrange(0, i as int).map_values(|k: TemplateKind| kind_name(k));
                proof {
                    lemma_joined_push(parts, kind_name(kinds@[i as int]));
                    assert(kinds@.subrange(0, i as int + 1).map_values(|k: TemplateKind| kind_name(k))
                        =~= parts.push(kind_name(kinds@[i as int])));
                }
                if i > 0 {
                    out.push(',');
                    out.push(' ');
                }
                push_kind(out, kinds[i]);
                i = i + 1;
                assert(out@ =~= head + joined(
                    kinds@.subrange(0, i as int).map_values(|k: TemplateKind| kind_name(k)),
                ));
            }
            out.push(']');
            assert(kinds@.subrange(0, i as int) =~= kinds@);
        },
        None => push_str(out, "none"),
    }
    assert(final(out)@ =~= old(out)@ + template_part(*generator));
}

fn push_script_part(out: &mut Vec<char>, generator: &Generator)
    ensures
        final(out)@ == old(out)@ + script_part(*generator),
{
    match &generator.script {
        Some(GeneratorScript::Single(value)) => {
            push_str(out, "single:");
            push_str(out, value.as_str());
        },
        Some(GeneratorScript::Multiple(values)) => {
            push_str(out, "multiple:");
            out.push('[');
            let ghost head = out@;
            let mut i: usize = 0;
            while i < values.len()
                invariant
                    i <= values@.len(),
                    out@ == head + joined(
                        values@.subrange(0, i as int).map_values(|v: String| debug_text(v@)),
                    ),
                decreases values@.len() - i,
            {
                let ghost parts = values@.subrange(0, i as int).map_values(|v: String| debug_text(v@));
                proof {
                    lemma_joined_push(parts, debug_text(values@[i as int]@));
                    assert(values@.subrange(0, i as int + 1).map_values(|v: String| debug_text(v@))
                        =~= parts.push(debug_text(values@[i as int]@)));
                }
                if i > 0 {
                    out.push(',');
                    out.push(' ');
                }
                let d = debug_str(values[i].as_str());
                push_str(out, d.as_str());
                i = i + 1;
                assert(out@ =~= head + joined(
                    values@.subrange(0, i as int).map_values(|v: String| debug_text(v@)),
                ));
            }
            out.push(']');
            assert(values@.subrange(0, i as int) =~= values@);
        },
        None => push_str(out, "none"),
    }
    assert(final(out)@ =~= old(out)@ + script_part(*generator));
}

fn push_cache_part(out: &mut Vec<char>, generator: &Generator)
    ensures
        final(out)@ == old(out)@ + cache_part(*generator),
{
    match &generator.cache {
        Some(cache) => {
            match cache.strategy {
                None => push_str(out, "None"),
                Some(GeneratorCacheStrategy::MaxAge) => push_str(out, "Some(MaxAge)"),
                Some(GeneratorCacheStrategy::StaleWhileRevalidate) => push_str(
                    out,
                    "Some(StaleWhileRevalidate)",
                ),
            }
            out.push(':');
            push_decimal_u64(
                out,
                match cache.ttl {
                    Some(t) => t,
                    None => 0,
                },
            );
            out.push(':');
            if cache.cache_by_directory {
                push_str(out, "true");
            } else {
                push_str(out, "false");
            }
            out.push(':');
            match &cache.cache_key {
                Some(k) => push_str(out, k.as_str()),
                None => {},
            }
        },
        None => {},
    }
    assert(final(out)@ =~= old(out)@ + cache_part(*generator));
}

fn generator_signature(generator: &Generator) -> (r: String)
    ensures
        r@ == spec_signature(*generator),
{
    let mut out: Vec<char> = Vec::new();
    push_template_part(&mut out, generator);
    out.push('|');
    push_script_part(&mut out, generator);
    out.push('|');
    match &generator.split_on {
        Some(d) => push_str(&mut out, d.as_str()),
        None => {},
    }
    out.push('|');
    match &generator.trigger {
        Some(t) => push_str(&mut out, t.as_str()),
        None => {},
    }
    out.push('|');
    push_cache_part(&mut out, generator);
    assert(out@ =~= spec_signature(*generator));
    string_from_chars(&out)
}

/// Whether a shared entry made at `created_at` is still fresh at `now`
/// (milliseconds): always without a time to live, never without a cache.
pub open spec fn spec_cache_is_fresh(g: Generator, created_at: u64, now: u64) -> bool {
    match g.cache {
        None => false,
        Some(c) => match c.ttl {
            None => true,
            Some(ttl) => (if now >= created_at {
                now - created_at
            } else {
                0
            }) <= ttl,
        },
    }
}

pub fn cache_is_fresh(generator: &Generator, created_at: u64, now: u64) -> (r: bool)
    ensures
        r == spec_cache_is_fresh(*generator, created_at, now),
{
    match &generator.cache {
        None => false,
        Some(cache) => match cache.ttl {
            None => true,
            Some(ttl_ms) => {
                let elapsed = if now >= created_at {
                    now - created_at
                } else {
                    0
                };
                elapsed <= ttl_ms
            },
        },
    }
}

// ---------------------------------------------------------------------------
// The generator source and its caches
// ---------------------------------------------------------------------------

/// What a generator runs in.
#[derive(Debug)]
pub struct GeneratorContext {
    pub command: String,
    pub subcommands: Vec<String>,
    pub tokens: Vec<String>,
    pub partial: String,
    pub completing_option_arg: bool,
    pub cwd: String,
}

struct SessionCacheKey {
    generator_signature: String,
    command: String,
    subcommands: Vec<String>,
    tokens: Vec<String>,
    cwd: String,
    completing_option_arg: bool,
}

struct SessionCacheEntry {
    trigger_key: Option<String>,
    candidates: Vec<CompletionCandidate>,
}

struct SharedCacheKey {
    key: String,
    cwd: Option<String>,
}

struct SharedCacheEntry {
    /// Milliseconds on the caller's clock.
    created_at: u64,
    candidates: Vec<CompletionCandidate>,
}

pub struct SessionKeyView {
    pub signature: Seq<char>,
    pub command: Seq<char>,
    pub subcommands: Seq<Seq<char>>,
    pub tokens: Seq<Seq<char>>,
    pub cwd: Seq<char>,
    pub completing_option_arg: bool,
}

pub struct SessionEntryView {
    pub trigger_key: Option<Seq<char>>,
    pub candidates: Seq<CandidateView>,
}

pub struct SharedKeyView {
    pub key: Seq<char>,
    pub cwd: Option<Seq<char>>,
}

pub struct SharedEntryView {
    pub created_at: u64,
    pub candidates: Seq<CandidateView>,
}

spec fn session_key_view(k: SessionCacheKey) -> SessionKeyView {
    SessionKeyView {
        signature: k.generator_signature@,
        command: k.command@,
        subcommands: strings_view(k.subcommands@),
        tokens: strings_view(k.tokens@),
        cwd: k.cwd@,
        completing_option_arg: k.completing_option_arg,
    }
}

spec fn session_entry_view(e: SessionCacheEntry) -> SessionEntryView {
    SessionEntryView { trigger_key: ov(e.trigger_key), candidates: candidates_view(e.candidates@) }
}

spec fn shared_key_view(k: SharedCacheKey) -> SharedKeyView {
    SharedKeyView { key: k.key@, cwd: ov(k.cwd) }
}

spec fn shared_entry_view(e: SharedCacheEntry) -> SharedEntryView {
    SharedEntryView { created_at: e.created_at, candidates: candidates_view(e.candidates@) }
}

/// The first entry stored under `key`.
pub open spec fn find_entry<K, V>(entries: Seq<(K, V)>, key: K, i: int) -> Option<V>
    decreases entries.len() - i,
{
    if i < 0 || i >= entries.len() {
        None
    } else if entries[i].0 == key {
        Some(entries[i].1)
    } else {
        find_entry(entries, key, i + 1)
    }
}

/// Index of the first entry stored under `key`.
pub open spec fn find_index<K, V>(entries: Seq<(K, V)>, key: K, i: int) -> Option<int>
    decreases entries.len() - i,
{
    if i < 0 || i >= entries.len() {
        None
    } else if entries[i].0 == key {
        Some(i)
    } else {
        find_index(entries, key, i + 1)
    }
}

/// The entries with `value` stored under `key`: replacing the first entry
/// under it, else added at the end.
pub open spec fn put_entry<K, V>(entries: Seq<(K, V)>, key: K, value: V) -> Seq<(K, V)> {
    match find_index(entries, key, 0) {
        Some(i) => entries.update(i, (key, value)),
        None => entries.push((key, value)),
    }
}

/// The session-cache key of a generator in a context.
pub open spec fn session_key(g: Generator, ctx: GeneratorContext) -> SessionKeyView {
    SessionKeyView {
        signature: spec_signature(g),
        command: ctx.command@,
        subcommands: strings_view(ctx.subcommands@),
        tokens: strings_view(ctx.tokens@),
        cwd: ctx.cwd@,
        completing_option_arg: ctx.completing_option_arg,
    }
}

/// The shared-cache key: the configured key (else the signature), with the
/// directory when the cache is per directory; none without cache settings.
pub open spec fn shared_key(g: Generator, ctx: GeneratorContext) -> Option<SharedKeyView> {
    match g.cache {
        None => None,
        Some(c) => Some(
            SharedKeyView {
                key: match c.cache_key {
                    Some(k) => k@,
                    None => spec_signature(g),
                },
                cwd: if c.cache_by_directory {
                    Some(ctx.cwd@)
                } else {
                    None
                },
            },
        ),
    }
}

/// The request a path template answers.
pub open spec fn path_request(ctx: GeneratorContext) -> (Seq<char>, Seq<char>) {
    (ctx.cwd@, ctx.partial@)
}

/// The candidate of an offered directory entry.
pub open spec fn entry_view(prefix: Seq<char>, e: CachedDirEntry) -> CandidateView {
    CandidateView {
        name: prefix + e.name@ + if e.is_dir {
            seq!['/']
        } else {
            Seq::<char>::empty()
        },
        insert_value: None,
        display_name: None,
        description: if e.is_dir {
            Some(seq!['D', 'i', 'r', 'e', 'c', 't', 'o', 'r', 'y'])
        } else {
            None
        },
        icon: None,
        priority: DEFAULT_CANDIDATE_PRIORITY,
        kind: if e.is_dir {
            CandidateKind::Folder
        } else {
            CandidateKind::File
        },
    }
}

/// The candidates a held directory listing gives for the context: its offered
/// entries when it is the listing of the directory the partial word names.
pub open spec fn path_views(
    cached: Option<(Seq<char>, Seq<CachedDirEntry>)>,
    ctx: GeneratorContext,
) -> Seq<CandidateView> {
    let (base, prefix, file_prefix) = spec_resolve_path(ctx.cwd@, ctx.partial@);
    match cached {
        Some(c) => if c.0 == base {
            offered_entries(c.1, file_prefix).map_values(|e: CachedDirEntry| entry_view(prefix, e))
        } else {
            Seq::<CandidateView>::empty()
        },
        None => Seq::<CandidateView>::empty(),
    }
}

/// The candidates of a list of suggestions, in order.
pub open spec fn suggestions_views(list: Seq<SuggestionOrString>) -> Seq<CandidateView>
    decreases list.len(),
{
    if list.len() == 0 {
        Seq::<CandidateView>::empty()
    } else {
        suggestions_views(list.drop_last()) + suggestion_views(list.last(), CandidateKind::Argument)
    }
}

/// The candidates a script's output gives: none when it failed or printed
/// only whitespace; its JSON suggestions when it printed a JSON list of them
/// (`parsed`); else its pieces at the delimiter, or none without one.
pub open spec fn script_views(
    g: Generator,
    output: Option<Seq<char>>,
    parsed: Option<Seq<SuggestionOrString>>,
) -> Seq<CandidateView> {
    match output {
        None => Seq::<CandidateView>::empty(),
        Some(o) => if trimmed(o).len() == 0 {
            Seq::<CandidateView>::empty()
        } else {
            match parsed {
                Some(list) => suggestions_views(list),
                None => match spec_split_output(g, o) {
                    Some(v) => v,
                    None => Seq::<CandidateView>::empty(),
                },
            }
        },
    }
}

/// Generators' results, held between keystrokes.
pub struct GeneratorSource {
    /// The directory listing path templates are answered from.
    path_source: PathSource,
    session_cache: Vec<(SessionCacheKey, SessionCacheEntry)>,
    shared_cache: Vec<(SharedCacheKey, SharedCacheEntry)>,
}

/// What a generator needs next.
#[derive(Debug)]
pub enum GeneratorPlan {
    /// The candidates, from a cache or at once.
    Ready(Vec<CompletionCandidate>),
    /// Run the script and hand its output to `finish_script`.
    RunScript,
    /// List this directory into `store_listing`, then call `finish_listing`.
    ListDir(String),
}

/// The result and the caches after new candidates are generated: a per-
/// directory or keyed shared cache takes them (unless they are empty and the
/// cache serves stale results, which are then returned instead), and the
/// session cache remembers the result with the trigger key.
pub open spec fn finalized(
    session: Seq<(SessionKeyView, SessionEntryView)>,
    shared: Seq<(SharedKeyView, SharedEntryView)>,
    g: Generator,
    ctx: GeneratorContext,
    generated: Seq<CandidateView>,
    now: u64,
) -> (Seq<CandidateView>, Seq<(SessionKeyView, SessionEntryView)>, Seq<(SharedKeyView, SharedEntryView)>) {
    let (result, shared2) = match shared_key(g, ctx) {
        None => (generated, shared),
        Some(k) => {
            let swr = g.cache matches Some(c) && c.strategy == Some(
                GeneratorCacheStrategy::StaleWhileRevalidate,
            );
            if generated.len() == 0 && swr {
                (
                    match find_entry(shared, k, 0) {
                        Some(e) => e.candidates,
                        None => Seq::<CandidateView>::empty(),
                    },
                    shared,
                )
            } else {
                (generated, put_entry(shared, k, SharedEntryView { created_at: now, candidates: generated }))
            }
        },
    };
    (
        result,
        put_entry(
            session,
            session_key(g, ctx),
            SessionEntryView {
                trigger_key: spec_trigger_key(g, ctx.partial@),
                candidates: result,
            },
        ),
        shared2,
    )
}

/// Where a generator's candidates come from.
pub enum Source {
    /// The session cache holds them for this context and trigger key.
    Session(Seq<CandidateView>),
    /// The shared cache holds them fresh.
    Shared(Seq<CandidateView>),
    /// They are generated at once (no script, or a path template answered by
    /// the listing held).
    Generated(Seq<CandidateView>),
    RunScript,
    ListDir(Seq<char>),
}

pub open spec fn plan_source(
    session: Seq<(SessionKeyView, SessionEntryView)>,
    shared: Seq<(SharedKeyView, SharedEntryView)>,
    cached: Option<(Seq<char>, Seq<CachedDirEntry>)>,
    g: Generator,
    ctx: GeneratorContext,
    now: u64,
) -> Source {
    let hit = find_entry(session, session_key(g, ctx), 0);
    if hit is Some && hit->0.trigger_key == spec_trigger_key(g, ctx.partial@) {
        Source::Session(hit->0.candidates)
    } else {
        let fresh = match shared_key(g, ctx) {
            Some(k) => match find_entry(shared, k, 0) {
                Some(e) => if spec_cache_is_fresh(g, e.created_at, now) {
                    Some(e.candidates)
                } else {
                    None
                },
                None => None,
            },
            None => None,
        };
        match fresh {
            Some(c) => Source::Shared(c),
            None => match g.template {
                Some(t) => if !template_uses_paths(t) {
                    Source::Generated(Seq::<CandidateView>::empty())
                } else {
                    let base = spec_resolve_path(ctx.cwd@, ctx.partial@).0;
                    if cached matches Some(c) && c.0 == base {
                        Source::Generated(path_views(cached, ctx))
                    } else {
                        Source::ListDir(base)
                    }
                },
                None => match g.script {
                    None => Source::Generated(Seq::<CandidateView>::empty()),
                    Some(_) => Source::RunScript,
                },
            },
        }
    }
}

impl GeneratorSource {
    pub closed spec fn session_entries(&self) -> Seq<(SessionKeyView, SessionEntryView)> {
        self.session_cache@.map_values(
            |p: (SessionCacheKey, SessionCacheEntry)| (session_key_view(p.0), session_entry_view(p.1)),
        )
    }

    pub closed spec fn shared_entries(&self) -> Seq<(SharedKeyView, SharedEntryView)> {
        self.shared_cache@.map_values(
            |p: (SharedCacheKey, SharedCacheEntry)| (shared_key_view(p.0), shared_entry_view(p.1)),
        )
    }

    /// The directory listing held for path templates.
    pub closed spec fn listing(&self) -> Option<(Seq<char>, Seq<CachedDirEntry>)> {
        self.path_source.cached()
    }

    pub fn new() -> (r: Self)
        ensures
            r.session_entries().len() == 0,
            r.shared_entries().len() == 0,
            r.listing() is None,
    {
        GeneratorSource { path_source: PathSource::default(), session_cache: Vec::new(), shared_cache: Vec::new() }
    }
}

impl Default for GeneratorSource {
    fn default() -> (r: Self)
        ensures
            r.session_entries().len() == 0,
            r.shared_entries().len() == 0,
            r.listing() is None,
    {
        GeneratorSource::new()
    }
}

proof fn lemma_find_index_entry<K, V>(entries: Seq<(K, V)>, key: K, i: int)
    requires
        0 <= i,
    ensures
        match find_index(entries, key, i) {
            Some(j) => i <= j < entries.len() && entries[j].0 == key && find_entry(entries, key, i)
                == Some(entries[j].1),
            None => find_entry(entries, key, i) is None,
        },
    decreases entries.len() - i,
{
    if i < entries.len() && entries[i].0 != key {
        lemma_find_index_entry(entries, key, i + 1);
    }
}

proof fn lemma_find_index_skip<K, V>(entries: Seq<(K, V)>, key: K, i: int, j: int)
    requires
        0 <= i <= j <= entries.len(),
        forall|k: int| i <= k < j ==> #[trigger] entries[k].0 != key,
    ensures
        find_index(entries, key, i) == find_index(entries, key, j),
    decreases j - i,
{
    if i < j {
        lemma_find_index_skip(entries, key, i + 1, j);
    }
}

fn clone_strings(v: &Vec<String>) -> (r: Vec<String>)
    ensures
        strings_view(r@) == strings_view(v@),
{
    let mut r: Vec<String> = Vec::new();
    let mut i: usize = 0;
    while i < v.len()
        invariant
            i <= v@.len(),
            strings_view(r@) == strings_view(v@).subrange(0, i as int),
        decreases v@.len() - i,
    {
        let ghost before = r@;
        r.push(clone_string(&v[i]));
        assert(strings_view(r@) =~= strings_view(before).push(v@[i as int]@));
        i = i + 1;
        assert(strings_view(r@) =~= strings_view(v@).subrange(0, i as int));
    }
    assert(strings_view(v@).subrange(0, i as int) =~= strings_view(v@));
    r
}

fn clone_candidates(v: &Vec<CompletionCandidate>) -> (r: Vec<CompletionCandidate>)
    ensures
        r@ == v@,
{
    let mut r: Vec<CompletionCandidate> = Vec::new();
    let mut i: usize = 0;
    while i < v.len()
        invariant
            i <= v@.len(),
            r@ == v@.subrange(0, i as int),
        decreases v@.len() - i,
    {
        r.push(v[i].clone());
        i = i + 1;
        assert(r@ =~= v@.subrange(0, i as int));
    }
    assert(v@.subrange(0, i as int) =~= v@);
    r
}

fn make_session_key(generator: &Generator, context: &GeneratorContext) -> (k: SessionCacheKey)
    ensures
        session_key_view(k) == session_key(*generator, *context),
{
    SessionCacheKey {
        generator_signature: generator_signature(generator),
        command: clone_string(&context.command),
        subcommands: clone_strings(&context.subcommands),
        tokens: clone_strings(&context.tokens),
        cwd: clone_string(&context.cwd),
        completing_option_arg: context.completing_option_arg,
    }
}

fn make_shared_key(generator: &Generator, context: &GeneratorContext) -> (k: Option<SharedCacheKey>)
    ensures
        match shared_key(*generator, *context) {
            Some(v) => k matches Some(x) && shared_key_view(x) == v,
            None => k is None,
        },
{
    match &generator.cache {
        None => None,
        Some(cache) => {
            let key = match &cache.cache_key {
                Some(k) => clone_string(k),
                None => generator_signature(generator),
            };
            let cwd = if cache.cache_by_directory {
                Some(clone_string(&context.cwd))
            } else {
                None
            };
            Some(SharedCacheKey { key, cwd })
        },
    }
}

fn session_key_eq(a: &SessionCacheKey, b: &SessionCacheKey) -> (r: bool)
    ensures
        r == (session_key_view(*a) == session_key_view(*b)),
{
    str_eq(a.generator_signature.as_str(), b.generator_signature.as_str()) && str_eq(
        a.command.as_str(),
        b.command.as_str(),
    ) && strings_eq(&a.subcommands, &b.subcommands) && strings_eq(&a.tokens, &b.tokens) && str_eq(
        a.cwd.as_str(),
        b.cwd.as_str(),
    ) && a.completing_option_arg == b.completing_option_arg
}

fn shared_key_eq(a: &SharedCacheKey, b: &SharedCacheKey) -> (r: bool)
    ensures
        r == (shared_key_view(*a) == shared_key_view(*b)),
{
    str_eq(a.key.as_str(), b.key.as_str()) && opt_str_eq(&a.cwd, &b.cwd)
}

fn to_views(v: &Vec<CompletionCandidate>) -> (r: Ghost<Seq<CandidateView>>)
    ensures
        r@ == candidates_view(v@),
{
    Ghost(candidates_view(v@))
}

impl GeneratorSource {
    fn find_session(&self, key: &SessionCacheKey) -> (r: Option<usize>)
        ensures
            r matches Some(i) ==> find_index(self.session_entries(), session_key_view(*key), 0) == Some(i as int),
            r is None ==> find_index(self.session_entries(), session_key_view(*key), 0) is None,
    {
        let ghost es = self.session_entries();
        let mut i: usize = 0;
        while i < self.session_cache.len()
            invariant
                i <= self.session_cache@.len(),
                es == self.session_entries(),
                es.len() == self.session_cache@.len(),
                forall|k: int| 0 <= k < i ==> #[trigger] es[k].0 != session_key_view(*key),
            decreases self.session_cache@.len() - i,
        {
            if session_key_eq(&self.session_cache[i].0, key) {
                proof {
                    lemma_find_index_skip(es, session_key_view(*key), 0, i as int);
                }
                return Some(i);
            }
            i = i + 1;
        }
        proof {
            lemma_find_index_skip(es, session_key_view(*key), 0, i as int);
        }
        None
    }

    fn find_shared(&self, key: &SharedCacheKey) -> (r: Option<usize>)
        ensures
            r matches Some(i) ==> find_index(self.shared_entries(), shared_key_view(*key), 0) == Some(i as int),
            r is None ==> find_index(self.shared_entries(), shared_key_view(*key), 0) is None,
    {
        let ghost es = self.shared_entries();
        let mut i: usize = 0;
        while i < self.shared_cache.len()
            invariant
                i <= self.shared_cache@.len(),
                es == self.shared_entries(),
                es.len() == self.shared_cache@.len(),
                forall|k: int| 0 <= k < i ==> #[trigger] es[k].0 != shared_key_view(*key),
            decreases self.shared_cache@.len() - i,
        {
            if shared_key_eq(&self.shared_cache[i].0, key) {
                proof {
                    lemma_find_index_skip(es, shared_key_view(*key), 0, i as int);
                }
                return Some(i);
            }
            i = i + 1;
        }
        proof {
            lemma_find_index_skip(es, shared_key_view(*key), 0, i as int);
        }
        None
    }

    fn put_session(&mut self, key: SessionCacheKey, entry: SessionCacheEntry)
        ensures
            final(self).session_entries() == put_entry(
                old(self).session_entries(),
                session_key_view(key),
                session_entry_view(entry),
            ),
            final(self).shared_entries() == old(self).shared_entries(),
            final(self).listing() == old(self).listing(),
    {
        let ghost es = self.session_entries();
        let ghost pair = (session_key_view(key), session_entry_view(entry));
        let found = self.find_session(&key);
        proof {
            lemma_find_index_entry(es, session_key_view(key), 0);
        }
        match found {
            Some(i) => {
                self.session_cache.set(i, (key, entry));
                assert(self.session_entries() =~= es.update(i as int, pair));
            },
            None => {
                self.session_cache.push((key, entry));
                assert(self.session_entries() =~= es.push(pair));
            },
        }
    }

    fn put_shared(&mut self, key: SharedCacheKey, entry: SharedCacheEntry)
        ensures
            final(self).shared_entries() == put_entry(
                old(self).shared_entries(),
                shared_key_view(key),
                shared_entry_view(entry),
            ),
            final(self).session_entries() == old(self).session_entries(),
            final(self).listing() == old(self).listing(),
    {
        let ghost es = self.shared_entries();
        let ghost pair = (shared_key_view(key), shared_entry_view(entry));
        let found = self.find_shared(&key);
        proof {
            lemma_find_index_entry(es, shared_key_view(key), 0);
        }
        match found {
            Some(i) => {
                self.shared_cache.set(i, (key, entry));
                assert(self.shared_entries() =~= es.update(i as int, pair));
            },
            None => {
                self.shared_cache.push((key, entry));
                assert(self.shared_entries() =~= es.push(pair));
            },
        }
    }

    /// Stores `generated` as `finalized` says and returns the result.
    fn finalize(
        &mut self,
        generator: &Generator,
        context: &GeneratorContext,
        generated: Vec<CompletionCandidate>,
        now: u64,
    ) -> (r: Vec<CompletionCandidate>)
        ensures
            ({
                let (res, session, shared) = finalized(
                    old(self).session_entries(),
                    old(self).shared_entries(),
                    *generator,
                    *context,
                    candidates_view(generated@),
                    now,
                );
                &&& candidates_view(r@) == res
                &&& final(self).session_entries() == session
                &&& final(self).shared_entries() == shared
            }),
            final(self).listing() == old(self).listing(),
    {
        let ghost spec_out = finalized(
            self.session_entries(),
            self.shared_entries(),
            *generator,
            *context,
            candidates_view(generated@),
            now,
        );
        let ghost session0 = self.session_entries();
        let result = match make_shared_key(generator, context) {
            None => {
                assert(candidates_view(generated@) == spec_out.0);
                generated
            },
            Some(key) => {
                let swr = match &generator.cache {
                    Some(c) => match c.strategy {
                        Some(GeneratorCacheStrategy::StaleWhileRevalidate) => true,
                        _ => false,
                    },
                    None => false,
                };
                if generated.len() == 0 && swr {
                    match self.find_shared(&key) {
                        Some(i) => {
                            proof {
                                lemma_find_index_entry(self.shared_entries(), shared_key_view(key), 0);
                                assert(self.shared_entries()[i as int].1 == shared_entry_view(
                                    self.shared_cache@[i as int].1,
                                ));
                            }
                            let r = clone_candidates(&self.shared_cache[i].1.candidates);
                            assert(candidates_view(r@) == spec_out.0);
                            r
                        },
                        None => {
                            proof {
                                lemma_find_index_entry(self.shared_entries(), shared_key_view(key), 0);
                            }
                            assert(candidates_view(generated@) =~= Seq::<CandidateView>::empty());
                            assert(candidates_view(generated@) == spec_out.0);
                            generated
                        },
                    }
                } else {
                    let kept = clone_candidates(&generated);
                    let entry = SharedCacheEntry { created_at: now, candidates: kept };
                    assert(shared_entry_view(entry) == SharedEntryView {
                        created_at: now,
                        candidates: candidates_view(generated@),
                    });
                    self.put_shared(key, entry);
                    assert(candidates_view(generated@) == spec_out.0);
                    generated
                }
            },
        };
        assert(candidates_view(result@) == spec_out.0);
        let skey = make_session_key(generator, context);
        let trig = trigger_key(generator, context.partial.as_str());
        let kept = clone_candidates(&result);
        let entry = SessionCacheEntry { trigger_key: trig, candidates: kept };
        assert(session_entry_view(entry) == SessionEntryView {
            trigger_key: spec_trigger_key(*generator, context.partial@),
            candidates: candidates_view(result@),
        });
        self.put_session(skey, entry);
        result
    }
}

proof fn lemma_entry_views(
    r: Seq<CompletionCandidate>,
    prefix: Seq<char>,
    kept: Seq<CachedDirEntry>,
)
    requires
        r.len() == kept.len(),
        forall|i: int| 0 <= i < kept.len() ==> is_entry_candidate(#[trigger] r[i], prefix, kept[i]),
    ensures
        candidates_view(r) == kept.map_values(|e: CachedDirEntry| entry_view(prefix, e)),
{
    assert forall|i: int| 0 <= i < r.len() implies #[trigger] candidates_view(r)[i] == kept.map_values(
        |e: CachedDirEntry| entry_view(prefix, e),
    )[i] by {
        assert(is_entry_candidate(r[i], prefix, kept[i]));
    }
    assert(candidates_view(r) =~= kept.map_values(|e: CachedDirEntry| entry_view(prefix, e)));
}

fn path_context(context: &GeneratorContext) -> (c: CompletionContext)
    ensures
        c.cwd@ == context.cwd@,
        c.partial@ == context.partial@,
{
    CompletionContext {
        command: clone_string(&context.command),
        subcommands: clone_strings(&context.subcommands),
        partial: clone_string(&context.partial),
        completing_option_arg: context.completing_option_arg,
        cwd: clone_string(&context.cwd),
    }
}

impl GeneratorSource {
    /// Holds the listing of `base_path` for path templates.
    pub fn store_listing(&mut self, base_path: String, entries: Vec<CachedDirEntry>)
        ensures
            final(self).listing() == Some((base_path@, crate::order::sorted_by_name(entries@))),
            final(self).session_entries() == old(self).session_entries(),
            final(self).shared_entries() == old(self).shared_entries(),
    {
        self.path_source.store_listing(base_path, entries);
    }

    fn path_candidates(&mut self, context: &GeneratorContext) -> (r: Vec<CompletionCandidate>)
        ensures
            candidates_view(r@) == path_views(old(self).listing(), *context),
            final(self).listing() == old(self).listing(),
            final(self).session_entries() == old(self).session_entries(),
            final(self).shared_entries() == old(self).shared_entries(),
    {
        let pctx = path_context(context);
        let r = self.path_source.candidates(&pctx);
        proof {
            let (base, prefix, file_prefix) = spec_resolve_path(context.cwd@, context.partial@);
            match old(self).listing() {
                Some(c) => {
                    if c.0 == base {
                        lemma_entry_views(r@, prefix, offered_entries(c.1, file_prefix));
                    } else {
                        assert(candidates_view(r@) =~= Seq::<CandidateView>::empty());
                    }
                },
                None => {
                    assert(candidates_view(r@) =~= Seq::<CandidateView>::empty());
                },
            }
        }
        r
    }

    /// Starts answering a generator: from the session cache when the context
    /// and trigger key match, from a fresh shared entry, or by generating (at
    /// once, or after the caller runs the script or lists a directory).
    pub fn begin(&mut self, generator: &Generator, context: &GeneratorContext, now: u64) -> (r:
        GeneratorPlan)
        ensures
            final(self).listing() == old(self).listing(),
            match plan_source(
                old(self).session_entries(),
                old(self).shared_entries(),
                old(self).listing(),
                *generator,
                *context,
                now,
            ) {
                Source::Session(c) => r matches GeneratorPlan::Ready(v) && candidates_view(v@) == c
                    && final(self).session_entries() == old(self).session_entries()
                    && final(self).shared_entries() == old(self).shared_entries(),
                Source::Shared(c) => r matches GeneratorPlan::Ready(v) && candidates_view(v@) == c
                    && final(self).session_entries() == put_entry(
                    old(self).session_entries(),
                    session_key(*generator, *context),
                    SessionEntryView {
                        trigger_key: spec_trigger_key(*generator, context.partial@),
                        candidates: c,
                    },
                ) && final(self).shared_entries() == old(self).shared_entries(),
                Source::Generated(gen) => {
                    let (res, session, shared) = finalized(
                        old(self).session_entries(),
                        old(self).shared_entries(),
                        *generator,
                        *context,
                        gen,
                        now,
                    );
                    r matches GeneratorPlan::Ready(v) && candidates_view(v@) == res
                        && final(self).session_entries() == session && final(self).shared_entries()
                        == shared
                },
                Source::RunScript => r is RunScript && final(self).session_entries() == old(
                    self,
                ).session_entries() && final(self).shared_entries() == old(self).shared_entries(),
                Source::ListDir(b) => r matches GeneratorPlan::ListDir(d) && d@ == b
                    && final(self).session_entries() == old(self).session_entries()
                    && final(self).shared_entries() == old(self).shared_entries(),
            },
    {
        let skey = make_session_key(generator, context);
        let trig = trigger_key(generator, context.partial.as_str());
        let found = self.find_session(&skey);
        proof {
            lemma_find_index_entry(self.session_entries(), session_key_view(skey), 0);
        }
        match found {
            Some(i) => {
                assert(self.session_entries()[i as int].1 == session_entry_view(self.session_cache@[i as int].1));
                if opt_str_eq(&self.session_cache[i].1.trigger_key, &trig) {
                    return GeneratorPlan::Ready(clone_candidates(&self.session_cache[i].1.candidates));
                }
            },
            None => {},
        }
        match make_shared_key(generator, context) {
            Some(k) => {
                let found = self.find_shared(&k);
                proof {
                    lemma_find_index_entry(self.shared_entries(), shared_key_view(k), 0);
                }
                match found {
                    Some(j) => {
                        assert(self.shared_entries()[j as int].1 == shared_entry_view(self.shared_cache@[j as int].1));
                        if cache_is_fresh(generator, self.shared_cache[j].1.created_at, now) {
                            let c = clone_candidates(&self.shared_cache[j].1.candidates);
                            let kept = clone_candidates(&c);
                            let entry = SessionCacheEntry { trigger_key: trig, candidates: kept };
                            assert(session_entry_view(entry) == SessionEntryView {
                                trigger_key: spec_trigger_key(*generator, context.partial@),
                                candidates: candidates_view(c@),
                            });
                            self.put_session(skey, entry);
                            return GeneratorPlan::Ready(c);
                        }
                    },
                    None => {},
                }
            },
            None => {},
        }
        match &generator.template {
            Some(t) => {
                if !uses_path_template(t) {
                    let empty: Vec<CompletionCandidate> = Vec::new();
                    assert(candidates_view(empty@) =~= Seq::<CandidateView>::empty());
                    return GeneratorPlan::Ready(self.finalize(generator, context, empty, now));
                }
                let pctx = path_context(context);
                match self.path_source.listing_needed(&pctx) {
                    Some(b) => GeneratorPlan::ListDir(b),
                    None => {
                        let gen = self.path_candidates(context);
                        GeneratorPlan::Ready(self.finalize(generator, context, gen, now))
                    },
                }
            },
            None => match &generator.script {
                None => {
                    let empty: Vec<CompletionCandidate> = Vec::new();
                    assert(candidates_view(empty@) =~= Seq::<CandidateView>::empty());
                    GeneratorPlan::Ready(self.finalize(generator, context, empty, now))
                },
                Some(_) => GeneratorPlan::RunScript,
            },
        }
    }

    /// Finishes a generator whose script ran: `output` is what it printed
    /// when it succeeded in time, `parsed` the JSON suggestion list that output
    /// holds, if it holds one.
    pub fn finish_script(
        &mut self,
        generator: &Generator,
        context: &GeneratorContext,
        output: Option<String>,
        parsed: Option<Vec<SuggestionOrString>>,
        now: u64,
    ) -> (r: Vec<CompletionCandidate>)
        ensures
            final(self).listing() == old(self).listing(),
            ({
                let gen = script_views(
                    *generator,
                    ov(output),
                    match parsed {
                        Some(l) => Some(l@),
                        None => None,
                    },
                );
                let (res, session, shared) = finalized(
                    old(self).session_entries(),
                    old(self).shared_entries(),
                    *generator,
                    *context,
                    gen,
                    now,
                );
                candidates_view(r@) == res && final(self).session_entries() == session
                    && final(self).shared_entries() == shared
            }),
    {
        let mut gen: Vec<CompletionCandidate> = Vec::new();
        match &output {
            None => {},
            Some(o) => {
                let chars = chars_of(o.as_str());
                let t = trim_range(&chars, 0, chars.len());
                assert(chars@.subrange(0, chars@.len() as int) =~= o@);
                if t.len() > 0 {
                    match &parsed {
                        Some(list) => {
                            let mut i: usize = 0;
                            while i < list.len()
                                invariant
                                    i <= list@.len(),
                                    candidates_view(gen@) == suggestions_views(
                                        list@.subrange(0, i as int),
                                    ),
                                decreases list@.len() - i,
                            {
                                let more = suggestion_candidates(&list[i], CandidateKind::Argument);
                                let ghost before = gen@;
                                let mut j: usize = 0;
                                while j < more.len()
                                    invariant
                                        j <= more@.len(),
                                        gen@ == before + more@.subrange(0, j as int),
                                    decreases more@.len() - j,
                                {
                                    gen.push(more[j].clone());
                                    j = j + 1;
                                    assert(gen@ =~= before + more@.subrange(0, j as int));
                                }
                                proof {
                                    assert(more@.subrange(0, j as int) =~= more@);
                                    assert(list@.subrange(0, i as int + 1).drop_last() =~= list@.subrange(
                                        0,
                                        i as int,
                                    ));
                                    assert(candidates_view(before + more@) =~= candidates_view(before)
                                        + candidates_view(more@));
                                }
                                i = i + 1;
                            }
                            assert(list@.subrange(0, i as int) =~= list@);
                        },
                        None => {
                            match split_output(generator, o.as_str()) {
                                Some(v) => {
                                    gen = v;
                                },
                                None => {
                                    assert(candidates_view(gen@) =~= Seq::<CandidateView>::empty());
                                },
                            }
                        },
                    }
                } else {
                    assert(candidates_view(gen@) =~= Seq::<CandidateView>::empty());
                }
            },
        }
        proof {
            if output is None {
                assert(candidates_view(gen@) =~= Seq::<CandidateView>::empty());
            }
        }
        self.finalize(generator, context, gen, now)
    }

    /// Finishes a path-template generator once `store_listing` holds the
    /// directory `begin` asked for.
    pub fn finish_listing(&mut self, generator: &Generator, context: &GeneratorContext, now: u64) -> (r:
        Vec<CompletionCandidate>)
        ensures
            final(self).listing() == old(self).listing(),
            ({
                let (res, session, shared) = finalized(
                    old(self).session_entries(),
                    old(self).shared_entries(),
                    *generator,
                    *context,
                    path_views(old(self).listing(), *context),
                    now,
                );
                candidates_view(r@) == res && final(self).session_entries() == session
                    && final(self).shared_entries() == shared
            }),
    {
        let gen = self.path_candidates(context);
        self.finalize(generator, context, gen, now)
    }
}

// ---------------------------------------------------------------------------
// Laws
// ---------------------------------------------------------------------------

/// Reading a key back after storing it gives what was stored.
pub proof fn lemma_put_then_find<K, V>(entries: Seq<(K, V)>, key: K, value: V)
    ensures
        find_entry(put_entry(entries, key, value), key, 0) == Some(value),
{
    lemma_find_index_entry(entries, key, 0);
    match find_index(entries, key, 0) {
        Some(i) => {
            let e2 = entries.update(i, (key, value));
            assert forall|k: int| 0 <= k < i implies #[trigger] e2[k].0 != key by {
                lemma_find_index_first(entries, key, 0, k);
            }
            lemma_find_entry_skip(e2, key, 0, i);
        },
        None => {
            let e2 = entries.push((key, value));
            assert forall|k: int| 0 <= k < entries.len() implies #[trigger] e2[k].0 != key by {
                lemma_find_none(entries, key, 0, k);
            }
            lemma_find_entry_skip(e2, key, 0, entries.len() as int);
        },
    }
}

/// Storing under one key leaves what the others read.
pub proof fn lemma_put_keeps_others<K, V>(entries: Seq<(K, V)>, key: K, value: V, other: K)
    requires
        other != key,
    ensures
        find_entry(put_entry(entries, key, value), other, 0) == find_entry(entries, other, 0),
{
    lemma_find_index_entry(entries, key, 0);
    match find_index(entries, key, 0) {
        Some(i) => {
            let e2 = entries.update(i, (key, value));
            lemma_find_entry_same(entries, e2, other, 0, i);
        },
        None => {
            let e2 = entries.push((key, value));
            lemma_find_entry_same(entries, e2, other, 0, entries.len() as int);
        },
    }
}

proof fn lemma_find_index_first<K, V>(entries: Seq<(K, V)>, key: K, i: int, k: int)
    requires
        0 <= i <= k,
        find_index(entries, key, i) matches Some(j) && k < j,
    ensures
        entries[k].0 != key,
    decreases k - i,
{
    if i < k {
        lemma_find_index_first(entries, key, i + 1, k);
    }
}

proof fn lemma_find_none<K, V>(entries: Seq<(K, V)>, key: K, i: int, k: int)
    requires
        0 <= i <= k < entries.len(),
        find_index(entries, key, i) is None,
    ensures
        entries[k].0 != key,
    decreases k - i,
{
    if i < k {
        lemma_find_none(entries, key, i + 1, k);
    }
}

proof fn lemma_find_entry_skip<K, V>(entries: Seq<(K, V)>, key: K, i: int, j: int)
    requires
        0 <= i <= j < entries.len(),
        forall|k: int| i <= k < j ==> #[trigger] entries[k].0 != key,
        entries[j].0 == key,
    ensures
        find_entry(entries, key, i) == Some(entries[j].1),
    decreases j - i,
{
    if i < j {
        lemma_find_entry_skip(entries, key, i + 1, j);
    }
}

/// Two entry lists that differ only at index `j` (whose key is not `other`),
/// or by an entry added at index `j`, read the same under `other`.
proof fn lemma_find_entry_same<K, V>(a: Seq<(K, V)>, b: Seq<(K, V)>, other: K, i: int, j: int)
    requires
        0 <= i,
        0 <= j <= a.len(),
        b.len() >= a.len(),
        forall|k: int| 0 <= k < a.len() && k != j ==> #[trigger] b[k] == a[k],
        j < a.len() ==> b[j].0 != other && a[j].0 != other,
        b.len() > a.len() ==> b.len() == a.len() + 1 && j == a.len() && b[j].0 != other,
        b.len() == a.len() ==> j < a.len(),
    ensures
        find_entry(b, other, i) == find_entry(a, other, i),
    decreases b.len() - i,
{
    if i < b.len() {
        lemma_find_entry_same(a, b, other, i + 1, j);
    }
}

/// A generator asked again in the same context, with the part of the partial
/// word up to its trigger unchanged, is answered from the session cache with
/// what it gave before.
pub proof fn lemma_session_cache_reuse(
    session: Seq<(SessionKeyView, SessionEntryView)>,
    shared: Seq<(SharedKeyView, SharedEntryView)>,
    cached: Option<(Seq<char>, Seq<CachedDirEntry>)>,
    g: Generator,
    ctx: GeneratorContext,
    ctx2: GeneratorContext,
    generated: Seq<CandidateView>,
    now: u64,
    now2: u64,
)
    requires
        session_key(g, ctx2) == session_key(g, ctx),
        spec_trigger_key(g, ctx2.partial@) == spec_trigger_key(g, ctx.partial@),
    ensures
        ({
            let (res, session2, shared2) = finalized(session, shared, g, ctx, generated, now);
            plan_source(session2, shared2, cached, g, ctx2, now2) == Source::Session(res)
        }),
{
    let (res, session2, shared2) = finalized(session, shared, g, ctx, generated, now);
    lemma_put_then_find(
        session,
        session_key(g, ctx),
        SessionEntryView { trigger_key: spec_trigger_key(g, ctx.partial@), candidates: res },
    );
}

/// When the part of the partial word up to the trigger changes, the session
/// cache does not answer.
pub proof fn lemma_trigger_change_misses(
    session: Seq<(SessionKeyView, SessionEntryView)>,
    shared: Seq<(SharedKeyView, SharedEntryView)>,
    cached: Option<(Seq<char>, Seq<CachedDirEntry>)>,
    g: Generator,
    ctx: GeneratorContext,
    ctx2: GeneratorContext,
    generated: Seq<CandidateView>,
    now: u64,
    now2: u64,
)
    requires
        session_key(g, ctx2) == session_key(g, ctx),
        spec_trigger_key(g, ctx2.partial@) != spec_trigger_key(g, ctx.partial@),
    ensures
        ({
            let (res, session2, shared2) = finalized(session, shared, g, ctx, generated, now);
            !(plan_source(session2, shared2, cached, g, ctx2, now2) is Session)
        }),
{
    let (res, session2, shared2) = finalized(session, shared, g, ctx, generated, now);
    lemma_put_then_find(
        session,
        session_key(g, ctx),
        SessionEntryView { trigger_key: spec_trigger_key(g, ctx.partial@), candidates: res },
    );
}

/// A generator with cache settings is answered, while the shared entry is
/// fresh, with what it generated before in any context with the same shared
/// key, however the session key differs.
pub proof fn lemma_shared_cache_reuse(
    session: Seq<(SessionKeyView, SessionEntryView)>,
    shared: Seq<(SharedKeyView, SharedEntryView)>,
    cached: Option<(Seq<char>, Seq<CachedDirEntry>)>,
    g: Generator,
    ctx: GeneratorContext,
    ctx2: GeneratorContext,
    generated: Seq<CandidateView>,
    now: u64,
    now2: u64,
)
    requires
        shared_key(g, ctx) is Some,
        shared_key(g, ctx2) == shared_key(g, ctx),
        session_key(g, ctx2) != session_key(g, ctx),
        find_entry(session, session_key(g, ctx2), 0) is None,
        generated.len() > 0 || !(g.cache matches Some(c) && c.strategy == Some(
            GeneratorCacheStrategy::StaleWhileRevalidate,
        )),
        spec_cache_is_fresh(g, now, now2),
    ensures
        ({
            let (res, session2, shared2) = finalized(session, shared, g, ctx, generated, now);
            &&& res == generated
            &&& plan_source(session2, shared2, cached, g, ctx2, now2) == Source::Shared(generated)
        }),
{
    let k = shared_key(g, ctx)->0;
    let (res, session2, shared2) = finalized(session, shared, g, ctx, generated, now);
    lemma_put_then_find(shared, k, SharedEntryView { created_at: now, candidates: generated });
    lemma_put_keeps_others(
        session,
        session_key(g, ctx),
        SessionEntryView { trigger_key: spec_trigger_key(g, ctx.partial@), candidates: res },
        session_key(g, ctx2),
    );
}

} // verus!
