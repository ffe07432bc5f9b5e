//! Completion sources, and the filesystem path source over a cached listing.
use crate::completion::spec::{CandidateKind, CompletionCandidate, DEFAULT_CANDIDATE_PRIORITY};
use crate::order::{sort_by_name, sorted_by_name, Named, NamedKey};
use crate::text::{
    after_last_slash, chars_of, chars_range, chars_start_with, concat_chars, find_after_last_slash,
    seq_starts_with, str_eq, string_from_chars,
};
use vstd::prelude::*;

verus! {

/// Trait for completion data sources.
pub trait CompletionSource {
    /// Generate completion candidates for the given context.
    fn candidates(&mut self, context: &CompletionContext) -> Vec<CompletionCandidate>;
}

/// Context for a completion request.
#[derive(Debug)]
pub struct CompletionContext {
    /// The command being typed (e.g., "git").
    pub command: String,
    /// Subcommand chain (e.g., ["remote", "add"]).
    pub subcommands: Vec<String>,
    /// The partial text being completed.
    pub partial: String,
    /// Whether we're completing an option value.
    pub completing_option_arg: bool,
    /// Current working directory.
    pub cwd: String,
}

/// One entry of a directory listing.
#[derive(Debug)]
pub struct CachedDirEntry {
    pub name: String,
    pub is_dir: bool,
}

impl NamedKey for CachedDirEntry {
    open spec fn key(&self) -> Seq<char> {
        self.name@
    }
}

impl Named for CachedDirEntry {
    fn name_str(&self) -> (r: &str) {
        self.name.as_str()
    }
}

/// The listing of one directory, sorted by name.
pub struct CachedDir {
    base_path: String,
    entries: Vec<CachedDirEntry>,
}

/// Completion source for filesystem paths. Listing a directory is the caller's
/// part: `listing_needed` says which directory a request needs, `store_listing`
/// takes its entries, and `candidates` filters the listing that is held.
pub struct PathSource {
    cached_dir: Option<CachedDir>,
}

/// `cwd` joined with a relative path, with a `/` between them unless `cwd` is
/// empty or already ends with one.
pub open spec fn join_path(cwd: Seq<char>, rel: Seq<char>) -> Seq<char> {
    if cwd.len() == 0 || cwd.last() == '/' {
        cwd + rel
    } else {
        cwd + seq!['/'] + rel
    }
}

/// The directory to list, the text kept in front of each entry, and the
/// prefix entries must start with: from the partial word's last `/`, if any.
pub open spec fn spec_resolve_path(cwd: Seq<char>, partial: Seq<char>) -> (Seq<char>, Seq<char>, Seq<char>) {
    let n = after_last_slash(partial, partial.len() as int);
    if partial.len() == 0 {
        (cwd, Seq::<char>::empty(), Seq::<char>::empty())
    } else if n > 0 {
        let prefix = partial.subrange(0, n);
        let file_prefix = partial.subrange(n, partial.len() as int);
        let raw_base = if n == 1 {
            seq!['/']
        } else {
            partial.subrange(0, n - 1)
        };
        let base = if raw_base[0] == '/' {
            raw_base
        } else {
            join_path(cwd, raw_base)
        };
        (base, prefix, file_prefix)
    } else {
        (cwd, Seq::<char>::empty(), partial)
    }
}

/// Whether a listed entry is offered: hidden entries only when the prefix
/// starts with `.`, and only entries that start with the prefix.
pub open spec fn offers_entry(name: Seq<char>, file_prefix: Seq<char>) -> bool {
    &&& !(name.len() > 0 && name[0] == '.' && !(file_prefix.len() > 0 && file_prefix[0] == '.'))
    &&& (file_prefix.len() == 0 || seq_starts_with(name, file_prefix))
}

/// The candidate for an offered entry: its path as typed so far plus its name,
/// with a trailing `/` and the description "Directory" for a directory.
pub open spec fn is_entry_candidate(c: CompletionCandidate, prefix: Seq<char>, e: CachedDirEntry) -> bool {
    &&& c.name@ == prefix + e.name@ + if e.is_dir {
        seq!['/']
    } else {
        Seq::<char>::empty()
    }
    &&& if e.is_dir {
        c.description matches Some(d) && d@ == seq!['D', 'i', 'r', 'e', 'c', 't', 'o', 'r', 'y']
    } else {
        c.description is None
    }
    &&& c.insert_value is None
    &&& c.display_name is None
    &&& c.icon is None
    &&& c.priority == DEFAULT_CANDIDATE_PRIORITY
    &&& c.kind == if e.is_dir {
        CandidateKind::Folder
    } else {
        CandidateKind::File
    }
}

/// The entries offered for `file_prefix`, in listing order.
pub open spec fn offered_entries(entries: Seq<CachedDirEntry>, file_prefix: Seq<char>) -> Seq<CachedDirEntry>
    decreases entries.len(),
{
    if entries.len() == 0 {
        entries
    } else {
        let rest = offered_entries(entries.drop_last(), file_prefix);
        if offers_entry(entries.last().name@, file_prefix) {
            rest.push(entries.last())
        } else {
            rest
        }
    }
}

impl Default for PathSource {
    fn default() -> (r: Self)
        ensures
            r.cached() is None,
    {
        PathSource { cached_dir: None }
    }
}

impl PathSource {
    /// The directory whose listing is held and its entries, if any.
    pub closed spec fn cached(&self) -> Option<(Seq<char>, Seq<CachedDirEntry>)> {
        match self.cached_dir {
            Some(c) => Some((c.base_path@, c.entries@)),
            None => None,
        }
    }

    /// The directory to list, the text kept in front of entry names, and the
    /// prefix entry names must start with.
    pub fn resolve_context(&self, context: &CompletionContext) -> (r: (String, String, String))
        ensures
            (r.0@, r.1@, r.2@) == spec_resolve_path(context.cwd@, context.partial@),
    {
        let cwd = chars_of(context.cwd.as_str());
        let partial = chars_of(context.partial.as_str());
        if partial.len() == 0 {
            return (string_from_chars(&cwd), String::new(), String::new());
        }
        let n = find_after_last_slash(&partial);
        if n > 0 {
            let prefix = chars_range(&partial, 0, n);
            let file_prefix = chars_range(&partial, n, partial.len());
            let raw_base = if n == 1 {
                vec!['/']
            } else {
                chars_range(&partial, 0, n - 1)
            };
            let base = if raw_base[0] == '/' {
                raw_base
            } else if cwd.len() == 0 || cwd[cwd.len() - 1] == '/' {
                concat_chars(&cwd, &raw_base)
            } else {
                let with_sep = concat_chars(&cwd, &vec!['/']);
                let r = concat_chars(&with_sep, &raw_base);
                r
            };
            (string_from_chars(&base), string_from_chars(&prefix), string_from_chars(&file_prefix))
        } else {
            (string_from_chars(&cwd), String::new(), string_from_chars(&partial))
        }
    }

    /// The directory to list before `candidates` can answer `context`, or
    /// `None` when the listing held is already that directory's.
    pub fn listing_needed(&self, context: &CompletionContext) -> (r: Option<String>)
        ensures
            ({
                let base = spec_resolve_path(context.cwd@, context.partial@).0;
                match r {
                    Some(b) => b@ == base && !(self.cached() matches Some(c) && c.0 == base),
                    None => self.cached() matches Some(c) && c.0 == base,
                }
            }),
    {
        let (base, _, _) = self.resolve_context(context);
        match &self.cached_dir {
            Some(c) => {
                if str_eq(c.base_path.as_str(), base.as_str()) {
                    None
                } else {
                    Some(base)
                }
            },
            None => Some(base),
        }
    }

    /// Holds the listing of `base_path`, sorted by name.
    pub fn store_listing(&mut self, base_path: String, entries: Vec<CachedDirEntry>)
        ensures
            final(self).cached() == Some((base_path@, sorted_by_name(entries@))),
    {
        let sorted = sort_by_name(entries);
        self.cached_dir = Some(CachedDir { base_path, entries: sorted });
    }
}

impl CompletionSource for PathSource {
    /// The held listing's entries offered for the partial word, as candidates;
    /// none when the listing held is not the directory the word names.
    fn candidates(&mut self, context: &CompletionContext) -> (r: Vec<CompletionCandidate>)
        ensures
            final(self).cached() == old(self).cached(),
            ({
                let (base, prefix, file_prefix) = spec_resolve_path(context.cwd@, context.partial@);
                match old(self).cached() {
                    Some(c) if c.0 == base => {
                        let kept = offered_entries(c.1, file_prefix);
                        &&& r@.len() == kept.len()
                        &&& forall|i: int| 0 <= i < kept.len() ==> is_entry_candidate(#[trigger] r@[i], prefix, kept[i])
                    },
                    _ => r@.len() == 0,
                }
            }),
    {
        let (base, prefix, file_prefix) = self.resolve_context(context);
        let mut out: Vec<CompletionCandidate> = Vec::new();
        let cache = match &self.cached_dir {
            Some(c) => c,
            None => return out,
        };
        if !str_eq(cache.base_path.as_str(), base.as_str()) {
            return out;
        }
        let fp = chars_of(file_prefix.as_str());
        let pre = chars_of(prefix.as_str());
        let mut i: usize = 0;
        while i < cache.entries.len()
            invariant
                i <= cache.entries@.len(),
                fp@ == file_prefix@,
                pre@ == prefix@,
                out@.len() == offered_entries(cache.entries@.subrange(0, i as int), fp@).len(),
                forall|k: int| 0 <= k < out@.len() ==> is_entry_candidate(#[trigger] out@[k], pre@, offered_entries(cache.entries@.subrange(0, i as int), fp@)[k]),
            decreases cache.entries@.len() - i,
        {
            let e = &cache.entries[i];
            let name = chars_of(e.name.as_str());
            proof {
                assert(cache.entries@.subrange(0, i as int + 1).drop_last() =~= cache.entries@.subrange(0, i as int));
            }
            let hidden = name.len() > 0 && name[0] == '.' && !(fp.len() > 0 && fp[0] == '.');
            let matches = fp.len() == 0 || chars_start_with(&name, &fp);
            if !hidden && matches {
                let with_name = concat_chars(&pre, &name);
                let full = if e.is_dir {
                    concat_chars(&with_name, &vec!['/'])
                } else {
                    with_name
                };
                proof {
                    assert(full@ =~= pre@ + e.name@ + if e.is_dir { seq!['/'] } else { Seq::<char>::empty() });
                }
                let description = if e.is_dir {
                    let d = vec!['D', 'i', 'r', 'e', 'c', 't', 'o', 'r', 'y'];
                    Some(string_from_chars(&d))
                } else {
                    None
                };
                let c = CompletionCandidate {
                    name: string_from_chars(&full),
                    insert_value: None,
                    display_name: None,
                    description,
                    icon: None,
                    priority: DEFAULT_CANDIDATE_PRIORITY,
                    kind: if e.is_dir {
                        CandidateKind::Folder
                    } else {
                        CandidateKind::File
                    },
                };
                out.push(c);
            }
            i = i + 1;
        }
        assert(cache.entries@.subrange(0, i as int) =~= cache.entries@);
        out
    }
}

} // verus!
