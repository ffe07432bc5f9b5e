//! The Fig autocomplete spec model: commands, subcommands, options, args,
//! suggestions and generators, and the candidates the engine produces.
use crate::order::{Named, NamedKey};
use crate::text::{chars_of, chars_start_with, seq_starts_with, str_eq};
use vstd::prelude::*;

verus! {

/// Priority of a candidate whose spec gives none (Fig's default).
pub const DEFAULT_CANDIDATE_PRIORITY: i32 = 50;

/// Top-level completion specification for a command.
/// Mirrors the Fig autocomplete Spec type.
#[derive(Debug)]
pub struct Spec {
    pub name: StringOrArray,
    pub description: Option<String>,
    pub subcommands: Vec<Subcommand>,
    pub options: Vec<Opt>,
    pub args: ArgOrArgs,
}

/// A subcommand within a spec (e.g., `git commit`).
#[derive(Debug)]
pub struct Subcommand {
    pub name: StringOrArray,
    pub description: Option<String>,
    pub subcommands: Vec<Subcommand>,
    pub options: Vec<Opt>,
    pub args: ArgOrArgs,
    pub hidden: bool,
}

/// A command-line option/flag (e.g., `--verbose`, `-v`).
#[derive(Debug)]
pub struct Opt {
    pub name: StringOrArray,
    pub description: Option<String>,
    pub args: ArgOrArgs,
    /// If true, this is a persistent/global option inherited by subcommands.
    pub is_persistent: bool,
    /// If true, the option is required.
    pub is_required: bool,
    /// If true, the option can be specified multiple times.
    pub is_repeatable: bool,
    pub hidden: bool,
    /// Mutually exclusive options.
    pub exclusives_on: Vec<String>,
}

/// An argument to a command or option (e.g., `<file>`).
#[derive(Debug)]
pub struct Arg {
    pub name: Option<String>,
    pub description: Option<String>,
    /// Static suggestions for this argument.
    pub suggestions: Vec<SuggestionOrString>,
    /// Commands whose output supplies suggestions.
    pub generators: GeneratorOrGenerators,
    /// Template for special argument types.
    pub template: Option<Template>,
    /// If true, this argument is optional.
    pub is_optional: bool,
    /// If true, this argument is variadic (accepts multiple values).
    pub is_variadic: bool,
    /// Default value.
    pub default: Option<String>,
}

/// A suggestion can be a plain string or a structured object.
#[derive(Debug)]
pub enum SuggestionOrString {
    String(String),
    Suggestion(Suggestion),
}

#[derive(Debug)]
pub struct Suggestion {
    pub name: StringOrArray,
    pub description: Option<String>,
    pub icon: Option<String>,
    pub hidden: bool,
    /// Text inserted in place of the name, when given.
    pub insert_value: Option<String>,
    /// Label shown in place of the primary name, when given.
    pub display_name: Option<String>,
    pub priority: Option<i32>,
}

/// Template types for special completion sources.
#[derive(Debug)]
pub enum Template {
    Single(TemplateKind),
    Multiple(Vec<TemplateKind>),
}

#[derive(Debug, Clone, Copy, PartialEq, Eq, Structural)]
pub enum TemplateKind {
    Filepaths,
    Folders,
    History,
}

/// One generator or several, or none.
#[derive(Debug)]
pub enum GeneratorOrGenerators {
    Empty,
    Single(Generator),
    Multiple(Vec<Generator>),
}

/// A command whose output becomes suggestions.
#[derive(Debug)]
pub struct Generator {
    pub template: Option<Template>,
    pub script: Option<GeneratorScript>,
    /// Milliseconds the script may run.
    pub script_timeout: Option<u64>,
    pub split_on: Option<String>,
    pub trigger: Option<GeneratorTrigger>,
    pub cache: Option<GeneratorCache>,
}

/// A shell command line, or a program and its arguments.
#[derive(Debug)]
pub enum GeneratorScript {
    Single(String),
    Multiple(Vec<String>),
}

/// Text whose last occurrence in the partial word decides when output is regenerated.
#[derive(Debug)]
pub enum GeneratorTrigger {
    Literal(String),
}

#[derive(Debug)]
pub struct GeneratorCache {
    pub strategy: Option<GeneratorCacheStrategy>,
    /// Milliseconds a cached result stays fresh.
    pub ttl: Option<u64>,
    pub cache_by_directory: bool,
    pub cache_key: Option<String>,
}

#[derive(Debug, Clone, Copy, PartialEq, Eq, Structural)]
pub enum GeneratorCacheStrategy {
    MaxAge,
    StaleWhileRevalidate,
}

/// A name field can be a single string or an array of aliases.
#[derive(Debug)]
pub enum StringOrArray {
    Single(String),
    Multiple(Vec<String>),
}

/// A candidate produced by the completion engine.
#[derive(Debug)]
pub struct CompletionCandidate {
    /// The text to insert.
    pub name: String,
    /// Text inserted in place of `name`, when given.
    pub insert_value: Option<String>,
    /// Label shown in place of `name`, when given.
    pub display_name: Option<String>,
    /// Optional display description.
    pub description: Option<String>,
    pub icon: Option<String>,
    /// Higher ranks first among equally good matches.
    pub priority: i32,
    /// Type of completion for icon/styling.
    pub kind: CandidateKind,
}

#[derive(Debug, Clone, Copy, PartialEq, Eq, Structural)]
pub enum CandidateKind {
    Subcommand,
    Option,
    Argument,
    File,
    Folder,
}

pub fn clone_string(s: &String) -> (r: String)
    ensures
        r == *s,
{
    s.clone()
}

pub fn clone_opt_string(o: &Option<String>) -> (r: Option<String>)
    ensures
        r == *o,
{
    match o {
        Some(s) => Some(s.clone()),
        None => None,
    }
}

impl Clone for CompletionCandidate {
    fn clone(&self) -> (r: Self)
        ensures
            r == *self,
    {
        CompletionCandidate {
            name: self.name.clone(),
            insert_value: clone_opt_string(&self.insert_value),
            display_name: clone_opt_string(&self.display_name),
            description: clone_opt_string(&self.description),
            icon: clone_opt_string(&self.icon),
            priority: self.priority,
            kind: self.kind,
        }
    }
}

impl NamedKey for CompletionCandidate {
    open spec fn key(&self) -> Seq<char> {
        self.name@
    }
}

impl Named for CompletionCandidate {
    fn name_str(&self) -> (r: &str) {
        self.name.as_str()
    }
}

impl CompletionCandidate {
    /// The label the popup shows.
    pub open spec fn spec_display_label(&self) -> Seq<char> {
        match self.display_name {
            Some(d) => d@,
            None => self.name@,
        }
    }

    /// The text that accepting the candidate inserts.
    pub open spec fn spec_insert_text(&self) -> Seq<char> {
        match self.insert_value {
            Some(v) => v@,
            None => self.name@,
        }
    }

    pub fn display_label(&self) -> (r: &str)
        ensures
            r@ == self.spec_display_label(),
    {
        match &self.display_name {
            Some(d) => d.as_str(),
            None => self.name.as_str(),
        }
    }

    pub fn insert_text(&self) -> (r: &str)
        ensures
            r@ == self.spec_insert_text(),
    {
        match &self.insert_value {
            Some(v) => v.as_str(),
            None => self.name.as_str(),
        }
    }
}

/// The characters of each string, in order.
pub open spec fn strings_view(v: Seq<String>) -> Seq<Seq<char>> {
    v.map_values(|s: String| s@)
}

pub open spec fn strs_view(v: Seq<&str>) -> Seq<Seq<char>> {
    v.map_values(|s: &str| s@)
}

impl StringOrArray {
    /// All names, in order.
    pub open spec fn names(&self) -> Seq<Seq<char>> {
        match self {
            StringOrArray::Single(s) => seq![s@],
            StringOrArray::Multiple(v) => strings_view(v@),
        }
    }

    /// The first name, or the empty name when there is none.
    pub open spec fn spec_primary(&self) -> Seq<char> {
        if self.names().len() > 0 {
            self.names()[0]
        } else {
            Seq::<char>::empty()
        }
    }

    /// Index of the first name that starts with `--`, if any.
    pub open spec fn first_long(names: Seq<Seq<char>>, i: int) -> Option<int>
        decreases names.len() - i,
    {
        if i < 0 || i >= names.len() {
            None
        } else if seq_starts_with(names[i], seq!['-', '-']) {
            Some(i)
        } else {
            Self::first_long(names, i + 1)
        }
    }

    /// The long option form when there is one, else the primary name.
    pub open spec fn spec_preferred(&self) -> Seq<char> {
        match Self::first_long(self.names(), 0) {
            Some(i) => self.names()[i],
            None => self.spec_primary(),
        }
    }

    /// Get the primary (first) name.
    pub fn primary(&self) -> (r: &str)
        ensures
            r@ == self.spec_primary(),
    {
        match self {
            StringOrArray::Single(s) => s.as_str(),
            StringOrArray::Multiple(v) => {
                if v.len() > 0 {
                    v[0].as_str()
                } else {
                    proof {
                        reveal_strlit("");
                    }
                    ""
                }
            },
        }
    }

    /// All name variants, in order.
    pub fn iter(&self) -> (r: Vec<&str>)
        ensures
            strs_view(r@) == self.names(),
    {
        let mut r: Vec<&str> = Vec::new();
        match self {
            StringOrArray::Single(s) => {
                r.push(s.as_str());
                assert(strs_view(r@) =~= self.names());
            },
            StringOrArray::Multiple(v) => {
                let mut i: usize = 0;
                while i < v.len()
                    invariant
                        i <= v@.len(),
                        strs_view(r@) == strings_view(v@).subrange(0, i as int),
                    decreases v@.len() - i,
                {
                    let ghost old_r = r@;
                    let si = v[i].as_str();
                    r.push(si);
                    assert(r@ == old_r.push(si));
                    assert(strs_view(r@) =~= strs_view(old_r).push(si@));
                    i = i + 1;
                    assert(strs_view(r@) =~= strings_view(v@).subrange(0, i as int));
                }
                assert(strings_view(v@).subrange(0, i as int) =~= strings_view(v@));
            },
        }
        r
    }

    /// Check whether any alias exactly matches `needle`.
    pub fn contains(&self, needle: &str) -> (r: bool)
        ensures
            r == self.names().contains(needle@),
    {
        let names = self.iter();
        let mut i: usize = 0;
        while i < names.len()
            invariant
                i <= names@.len(),
                strs_view(names@) == self.names(),
                forall|j: int| 0 <= j < i ==> self.names()[j] != needle@,
            decreases names@.len() - i,
        {
            if str_eq(names[i], needle) {
                assert(self.names()[i as int] == needle@);
                return true;
            }
            i = i + 1;
        }
        false
    }

    /// Pick a stable display name for UI output, preferring the long option form.
    pub fn preferred(&self) -> (r: &str)
        ensures
            r@ == self.spec_preferred(),
    {
        let names = self.iter();
        let dash = vec!['-', '-'];
        let mut i: usize = 0;
        while i < names.len()
            invariant
                i <= names@.len(),
                dash@ == seq!['-', '-'],
                strs_view(names@) == self.names(),
                Self::first_long(self.names(), i as int) == Self::first_long(self.names(), 0),
            decreases names@.len() - i,
        {
            let chars = chars_of(names[i]);
            if chars_start_with(&chars, &dash) {
                return names[i];
            }
            i = i + 1;
        }
        self.primary()
    }
}

/// Args can be a single arg, an array of args, or absent.
#[derive(Debug)]
pub enum ArgOrArgs {
    Empty,
    Single(Arg),
    Multiple(Vec<Arg>),
}

impl Default for ArgOrArgs {
    fn default() -> (r: Self)
        ensures
            r is Empty,
    {
        ArgOrArgs::Empty
    }
}

impl ArgOrArgs {
    /// The args, in order.
    pub open spec fn args(&self) -> Seq<Arg> {
        match self {
            ArgOrArgs::Empty => Seq::<Arg>::empty(),
            ArgOrArgs::Single(a) => seq![*a],
            ArgOrArgs::Multiple(v) => v@,
        }
    }

    pub fn iter(&self) -> (r: Vec<&Arg>)
        ensures
            r@.map_values(|a: &Arg| *a) == self.args(),
    {
        let mut r: Vec<&Arg> = Vec::new();
        match self {
            ArgOrArgs::Empty => {
                assert(r@.map_values(|a: &Arg| *a) =~= self.args());
            },
            ArgOrArgs::Single(a) => {
                r.push(a);
                assert(r@.map_values(|a: &Arg| *a) =~= self.args());
            },
            ArgOrArgs::Multiple(v) => {
                let mut i: usize = 0;
                while i < v.len()
                    invariant
                        i <= v@.len(),
                        r@.map_values(|a: &Arg| *a) == v@.subrange(0, i as int),
                    decreases v@.len() - i,
                {
                    let ghost old_r = r@;
                    let ai = &v[i];
                    r.push(ai);
                    assert(r@.map_values(|a: &Arg| *a) =~= old_r.map_values(|a: &Arg| *a).push(*ai));
                    i = i + 1;
                    assert(r@.map_values(|a: &Arg| *a) =~= v@.subrange(0, i as int));
                }
                assert(v@.subrange(0, i as int) =~= v@);
            },
        }
        r
    }

    pub fn first(&self) -> (r: Option<&Arg>)
        ensures
            self.args().len() == 0 ==> r is None,
            self.args().len() > 0 ==> r == Some(&self.args()[0]),
    {
        match self {
            ArgOrArgs::Empty => None,
            ArgOrArgs::Single(arg) => Some(arg),
            ArgOrArgs::Multiple(args) => {
                if args.len() > 0 {
                    Some(&args[0])
                } else {
                    None
                }
            },
        }
    }

    /// True only when no args are given at all (an empty list is not "empty").
    pub fn is_empty(&self) -> (r: bool)
        ensures
            r == (self is Empty),
    {
        match self {
            ArgOrArgs::Empty => true,
            _ => false,
        }
    }

    pub fn as_slice(&self) -> (r: Vec<&Arg>)
        ensures
            r@.map_values(|a: &Arg| *a) == self.args(),
    {
        self.iter()
    }
}

impl Default for GeneratorOrGenerators {
    fn default() -> (r: Self)
        ensures
            r is Empty,
    {
        GeneratorOrGenerators::Empty
    }
}

impl GeneratorOrGenerators {
    pub open spec fn generators(&self) -> Seq<Generator> {
        match self {
            GeneratorOrGenerators::Empty => Seq::<Generator>::empty(),
            GeneratorOrGenerators::Single(g) => seq![*g],
            GeneratorOrGenerators::Multiple(v) => v@,
        }
    }

    pub fn iter(&self) -> (r: Vec<&Generator>)
        ensures
            r@.map_values(|g: &Generator| *g) == self.generators(),
    {
        let mut r: Vec<&Generator> = Vec::new();
        match self {
            GeneratorOrGenerators::Empty => {
                assert(r@.map_values(|g: &Generator| *g) =~= self.generators());
            },
            GeneratorOrGenerators::Single(g) => {
                r.push(g);
                assert(r@.map_values(|g: &Generator| *g) =~= self.generators());
            },
            GeneratorOrGenerators::Multiple(v) => {
                let mut i: usize = 0;
                while i < v.len()
                    invariant
                        i <= v@.len(),
                        r@.map_values(|g: &Generator| *g) == v@.subrange(0, i as int),
                    decreases v@.len() - i,
                {
                    let ghost old_r = r@;
                    let gi = &v[i];
                    r.push(gi);
                    assert(r@.map_values(|g: &Generator| *g) =~= old_r.map_values(|g: &Generator| *g).push(*gi));
                    i = i + 1;
                    assert(r@.map_values(|g: &Generator| *g) =~= v@.subrange(0, i as int));
                }
                assert(v@.subrange(0, i as int) =~= v@);
            },
        }
        r
    }
}

impl GeneratorTrigger {
    pub open spec fn text(&self) -> Seq<char> {
        match self {
            GeneratorTrigger::Literal(s) => s@,
        }
    }

    pub fn as_str(&self) -> (r: &str)
        ensures
            r@ == self.text(),
    {
        match self {
            GeneratorTrigger::Literal(s) => s.as_str(),
        }
    }
}

} // verus!
