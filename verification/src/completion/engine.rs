//! The completion engine: walks the spec tree for the command line and lists
//! the candidates for the word being typed.
use crate::completion::loader::SpecStore;
use crate::completion::matcher::{is_ranked, scored_candidates, FuzzyMatcher, ScoredCandidate};
use crate::completion::source::CompletionContext;
use crate::completion::spec::{
    clone_opt_string, strings_view, Arg, ArgOrArgs, CandidateKind, CompletionCandidate, Opt,
    Spec, Subcommand, SuggestionOrString, Template, TemplateKind, DEFAULT_CANDIDATE_PRIORITY,
};
use crate::input::parser::{
    parse_completion_input, spec_parse_completion, tokenizes, tokens_view, ParsedLine,
    SpecToken, Token,
};
use crate::order::{lemma_sorted_by_name_pairs, sort_by_name, sorted_by_name, NamedKey};
use crate::text::{chars_of, str_eq, string_from_chars};
use vstd::prelude::*;

verus! {

broadcast use vstd::seq_lib::group_seq_properties;

/// A candidate as a value: its name, description and kind. Every candidate the
/// engine makes has no insert value, display name or icon, and the default priority.
pub struct CandView {
    pub name: Seq<char>,
    pub description: Option<Seq<char>>,
    pub kind: CandidateKind,
}

impl NamedKey for CandView {
    open spec fn key(&self) -> Seq<char> {
        self.name
    }
}

pub open spec fn opt_view(o: Option<String>) -> Option<Seq<char>> {
    match o {
        Some(s) => Some(s@),
        None => None,
    }
}

pub open spec fn cand(name: Seq<char>, description: Option<Seq<char>>, kind: CandidateKind) -> CandView {
    CandView { name, description, kind }
}

/// `c` is the plain candidate `v`.
pub open spec fn is_plain(c: CompletionCandidate, v: CandView) -> bool {
    &&& c.name@ == v.name
    &&& opt_view(c.description) == v.description
    &&& c.kind == v.kind
    &&& c.insert_value is None
    &&& c.display_name is None
    &&& c.icon is None
    &&& c.priority == DEFAULT_CANDIDATE_PRIORITY
}

/// The candidates are, in order, the plain candidates `vs`.
pub open spec fn plain_list(cs: Seq<CompletionCandidate>, vs: Seq<CandView>) -> bool {
    &&& cs.len() == vs.len()
    &&& forall|i: int| 0 <= i < cs.len() ==> #[trigger] is_plain(cs[i], vs[i])
}

/// A node of the spec tree: the command itself or one of its subcommands.
pub enum NodeRef {
    Root(Spec),
    Sub(Subcommand),
}

pub open spec fn node_subs(n: NodeRef) -> Seq<Subcommand> {
    match n {
        NodeRef::Root(s) => s.subcommands@,
        NodeRef::Sub(s) => s.subcommands@,
    }
}

pub open spec fn node_opts(n: NodeRef) -> Seq<Opt> {
    match n {
        NodeRef::Root(s) => s.options@,
        NodeRef::Sub(s) => s.options@,
    }
}

pub open spec fn node_args(n: NodeRef) -> Seq<Arg> {
    match n {
        NodeRef::Root(s) => s.args.args(),
        NodeRef::Sub(s) => s.args.args(),
    }
}

pub open spec fn starts_dash(t: Seq<char>) -> bool {
    t.len() > 0 && t[0] == '-'
}

/// Index of the first subcommand that has `name` among its names.
pub open spec fn first_sub(subs: Seq<Subcommand>, name: Seq<char>, i: int) -> Option<int>
    decreases subs.len() - i,
{
    if i < 0 || i >= subs.len() {
        None
    } else if subs[i].name.names().contains(name) {
        Some(i)
    } else {
        first_sub(subs, name, i + 1)
    }
}

/// Walking the tokens after the command: each word that names a subcommand of
/// the current node descends into it; flags and other words remain. Gives the
/// node reached, the remaining tokens and the subcommand words matched.
pub open spec fn walk(root: Spec, toks: Seq<SpecToken>) -> (NodeRef, Seq<SpecToken>, Seq<Seq<char>>)
    decreases toks.len(),
{
    if toks.len() == 0 {
        (NodeRef::Root(root), Seq::<SpecToken>::empty(), Seq::<Seq<char>>::empty())
    } else {
        let (n, rem, chain) = walk(root, toks.drop_last());
        let t = toks.last();
        if starts_dash(t.text) {
            (n, rem.push(t), chain)
        } else {
            match first_sub(node_subs(n), t.text, 0) {
                Some(i) => (NodeRef::Sub(node_subs(n)[i]), rem, chain.push(t.text)),
                None => (n, rem.push(t), chain),
            }
        }
    }
}

/// The node a chain of subcommand names leads to from the command.
pub open spec fn walk_chain(root: Spec, chain: Seq<Seq<char>>) -> NodeRef
    decreases chain.len(),
{
    if chain.len() == 0 {
        NodeRef::Root(root)
    } else {
        let n = walk_chain(root, chain.drop_last());
        match first_sub(node_subs(n), chain.last(), 0) {
            Some(i) => NodeRef::Sub(node_subs(n)[i]),
            None => n,
        }
    }
}

pub proof fn lemma_walk_follows_chain(root: Spec, toks: Seq<SpecToken>)
    ensures
        walk(root, toks).0 == walk_chain(root, walk(root, toks).2),
    decreases toks.len(),
{
    if toks.len() > 0 {
        lemma_walk_follows_chain(root, toks.drop_last());
        let (n, rem, chain) = walk(root, toks.drop_last());
        let t = toks.last();
        if !starts_dash(t.text) && first_sub(node_subs(n), t.text, 0) is Some {
            assert(chain.push(t.text).drop_last() =~= chain);
        }
    }
}

/// The candidates for a name list: one per name, sharing description and kind.
pub open spec fn names_cands(names: Seq<Seq<char>>, description: Option<Seq<char>>, kind: CandidateKind) -> Seq<CandView> {
    names.map_values(|n: Seq<char>| cand(n, description, kind))
}

/// One candidate per name of each visible option, in spec order.
pub open spec fn option_name_cands(opts: Seq<Opt>) -> Seq<CandView>
    decreases opts.len(),
{
    if opts.len() == 0 {
        Seq::<CandView>::empty()
    } else {
        let o = opts.last();
        option_name_cands(opts.drop_last()) + if o.hidden {
            Seq::<CandView>::empty()
        } else {
            names_cands(o.name.names(), opt_view(o.description), CandidateKind::Option)
        }
    }
}

/// One candidate per visible option, under its preferred name.
pub open spec fn option_pref_cands(opts: Seq<Opt>) -> Seq<CandView>
    decreases opts.len(),
{
    if opts.len() == 0 {
        Seq::<CandView>::empty()
    } else {
        let o = opts.last();
        option_pref_cands(opts.drop_last()) + if o.hidden {
            Seq::<CandView>::empty()
        } else {
            seq![cand(o.name.spec_preferred(), opt_view(o.description), CandidateKind::Option)]
        }
    }
}

/// One candidate per name of each visible subcommand.
pub open spec fn subcommand_cands(subs: Seq<Subcommand>) -> Seq<CandView>
    decreases subs.len(),
{
    if subs.len() == 0 {
        Seq::<CandView>::empty()
    } else {
        let s = subs.last();
        subcommand_cands(subs.drop_last()) + if s.hidden {
            Seq::<CandView>::empty()
        } else {
            names_cands(s.name.names(), opt_view(s.description), CandidateKind::Subcommand)
        }
    }
}

/// Index of the first option that has `name` among its names.
pub open spec fn first_opt(opts: Seq<Opt>, name: Seq<char>, i: int) -> Option<int>
    decreases opts.len() - i,
{
    if i < 0 || i >= opts.len() {
        None
    } else if opts[i].name.names().contains(name) {
        Some(i)
    } else {
        first_opt(opts, name, i + 1)
    }
}

/// Whether some option named `name` takes an argument.
pub open spec fn spec_option_takes_arg(opts: Seq<Opt>, name: Seq<char>) -> bool {
    exists|i: int| 0 <= i < opts.len() && #[trigger] opts[i].name.names().contains(name) && !(opts[i].args is Empty)
}

/// An option argument's suggestions: plain strings as they are, structured
/// ones under their primary name with their description (hidden ones too).
pub open spec fn option_arg_suggestion_cands(sugs: Seq<SuggestionOrString>) -> Seq<CandView>
    decreases sugs.len(),
{
    if sugs.len() == 0 {
        Seq::<CandView>::empty()
    } else {
        option_arg_suggestion_cands(sugs.drop_last()).push(
            match sugs.last() {
                SuggestionOrString::String(v) => cand(v@, None, CandidateKind::Argument),
                SuggestionOrString::Suggestion(s) => cand(s.name.spec_primary(), opt_view(s.description), CandidateKind::Argument),
            },
        )
    }
}

/// The suggestions of the first argument of the first option named `name`.
pub open spec fn option_arg_cands(opts: Seq<Opt>, name: Seq<char>) -> Seq<CandView> {
    match first_opt(opts, name, 0) {
        Some(i) => {
            let args = opts[i].args.args();
            if args.len() == 0 {
                Seq::<CandView>::empty()
            } else {
                option_arg_suggestion_cands(args[0].suggestions@)
            }
        },
        None => Seq::<CandView>::empty(),
    }
}

/// A positional argument's suggestions: plain strings as they are, each name of
/// each visible structured one with its description.
pub open spec fn positional_suggestion_cands(sugs: Seq<SuggestionOrString>) -> Seq<CandView>
    decreases sugs.len(),
{
    if sugs.len() == 0 {
        Seq::<CandView>::empty()
    } else {
        positional_suggestion_cands(sugs.drop_last()) + match sugs.last() {
            SuggestionOrString::String(v) => seq![cand(v@, None, CandidateKind::Argument)],
            SuggestionOrString::Suggestion(s) => if s.hidden {
                Seq::<CandView>::empty()
            } else {
                names_cands(s.name.names(), opt_view(s.description), CandidateKind::Argument)
            },
        }
    }
}

/// Index of the argument that completes position `index`: the one at that
/// position, or an earlier variadic one.
pub open spec fn arg_for_position(args: Seq<Arg>, index: int, i: int) -> Option<int>
    decreases args.len() - i,
{
    if i < 0 || i >= args.len() {
        None
    } else if i == index || (args[i].is_variadic && i < index) {
        Some(i)
    } else {
        arg_for_position(args, index, i + 1)
    }
}

proof fn lemma_arg_for_position_scan(args: Seq<Arg>, index: int, i: int)
    requires
        0 <= i,
    ensures
        arg_for_position(args, index, i) matches Some(j) ==> i <= j < args.len() && (j == index
            || (args[j].is_variadic && j < index)) && forall|l: int|
            #![trigger args[l]]
            i <= l < j ==> !(l == index || (args[l].is_variadic && l < index)),
        arg_for_position(args, index, i) is None ==> forall|l: int|
            #![trigger args[l]]
            i <= l < args.len() ==> !(l == index || (args[l].is_variadic && l < index)),
    decreases args.len() - i,
{
    if i < args.len() && !(i == index || (args[i].is_variadic && i < index)) {
        lemma_arg_for_position_scan(args, index, i + 1);
    }
}

/// The argument that completes positional slot `index`: inside the argument
/// list it is the argument at that slot, unless a variadic argument comes
/// before it (then the first variadic one, which keeps taking words); past
/// the list it is the first variadic argument, and there is none when no
/// argument is variadic. So a leading variadic argument completes every slot.
pub proof fn lemma_slot_argument(args: Seq<Arg>, index: int)
    requires
        0 <= index,
    ensures
        ({
            let r = arg_for_position(args, index, 0);
            &&& index < args.len() ==> (r matches Some(j) && j <= index && (j == index
                || args[j].is_variadic) && forall|l: int| 0 <= l < j ==> !(#[trigger] args[l].is_variadic))
            &&& index >= args.len() ==> (r is None <==> forall|l: int|
                0 <= l < args.len() ==> !(#[trigger] args[l].is_variadic))
            &&& index >= args.len() ==> ((r matches Some(j)) ==> (0 <= r->0 < args.len() && args[r->0].is_variadic
                && forall|l: int| 0 <= l < r->0 ==> !(#[trigger] args[l].is_variadic)))
            &&& args.len() > 0 && args[0].is_variadic ==> r == Some(0int)
        }),
{
    lemma_arg_for_position_scan(args, index, 0);
    let r = arg_for_position(args, index, 0);
    if index < args.len() {
        if r is None {
            let a = args[index];
            assert(!(index == index || (args[index].is_variadic && index < index)));
        }
    }
    if index >= args.len() {
        if r is None {
            assert forall|l: int| 0 <= l < args.len() implies !(#[trigger] args[l].is_variadic) by {
                assert(!(l == index || (args[l].is_variadic && l < index)));
            }
        } else {
            let j = r->0;
            assert forall|l: int| 0 <= l < j implies !(#[trigger] args[l].is_variadic) by {
                assert(!(l == index || (args[l].is_variadic && l < index)));
            }
        }
    }
    if args.len() > 0 && args[0].is_variadic {
        if index > 0 {
            assert(0 == index || (args[0].is_variadic && 0 < index));
        }
    }
}

/// Candidates at a positional slot: subcommands, then the suggestions of the
/// argument for that slot, then (when the word is empty) each option once.
pub open spec fn positional_cands(n: NodeRef, index: int, include_options: bool) -> Seq<CandView> {
    let args = node_args(n);
    subcommand_cands(node_subs(n)) + match arg_for_position(args, index, 0) {
        Some(i) => positional_suggestion_cands(args[i].suggestions@),
        None => Seq::<CandView>::empty(),
    } + if include_options {
        option_pref_cands(node_opts(n))
    } else {
        Seq::<CandView>::empty()
    }
}

pub open spec fn is_path_kind(k: TemplateKind) -> bool {
    k == TemplateKind::Filepaths || k == TemplateKind::Folders
}

/// Whether some kind from index `i` on is a path kind.
pub open spec fn any_path_kind(ks: Seq<TemplateKind>, i: int) -> bool
    decreases ks.len() - i,
{
    if i < 0 || i >= ks.len() {
        false
    } else {
        is_path_kind(ks[i]) || any_path_kind(ks, i + 1)
    }
}

/// Whether an argument completes file or folder paths.
pub open spec fn uses_path_templates(a: Arg) -> bool {
    match a.template {
        Some(Template::Single(k)) => k == TemplateKind::Filepaths || k == TemplateKind::Folders,
        Some(Template::Multiple(ks)) => any_path_kind(ks@, 0),
        None => false,
    }
}

/// How many tokens are not flags.
pub open spec fn count_words(toks: Seq<SpecToken>) -> int
    decreases toks.len(),
{
    if toks.len() == 0 {
        0
    } else {
        count_words(toks.drop_last()) + if starts_dash(toks.last().text) {
            0int
        } else {
            1int
        }
    }
}

/// What is being completed.
pub enum ModeView {
    CommandName,
    Options,
    OptionArg(Seq<char>),
    Positional(int, bool),
}

/// What decides the candidate list apart from the partial word.
pub struct KeyView {
    pub command: Option<Seq<char>>,
    pub subcommands: Seq<Seq<char>>,
    pub mode: ModeView,
}

/// A request for filesystem completion: command, subcommands, partial word,
/// and whether an option's argument is completed (the directory is `.`).
pub struct PathRequest {
    pub command: Seq<char>,
    pub subcommands: Seq<Seq<char>>,
    pub partial: Seq<char>,
    pub completing_option_arg: bool,
}

/// The command names of the store, each with its spec's description, sorted by name.
pub open spec fn command_cands(store: SpecStore) -> Seq<CandView> {
    sorted_by_name(
        store.commands().map_values(
            |n: Seq<char>| cand(n, opt_view(store.spec_get(n).unwrap().description), CandidateKind::Subcommand),
        ),
    )
}

/// The candidate list a key stands for.
pub open spec fn key_cands(store: SpecStore, key: KeyView) -> Seq<CandView> {
    match key.mode {
        ModeView::CommandName => command_cands(store),
        _ => {
            let n = walk_chain(store.spec_get(key.command.unwrap()).unwrap(), key.subcommands);
            match key.mode {
                ModeView::Options => sorted_by_name(option_name_cands(node_opts(n))),
                ModeView::OptionArg(name) => option_arg_cands(node_opts(n), name),
                ModeView::Positional(index, with_options) => positional_cands(n, index, with_options),
                ModeView::CommandName => Seq::<CandView>::empty(),
            }
        },
    }
}

/// What completing the tokens and partial word amounts to: `None` when the
/// command has no spec; else the key of the candidate list, and the filesystem
/// request when the slot takes paths.
pub open spec fn resolve(store: SpecStore, toks: Seq<SpecToken>, partial: Seq<char>) -> Option<(KeyView, Option<PathRequest>)> {
    if toks.len() == 0 {
        Some((KeyView { command: None, subcommands: Seq::<Seq<char>>::empty(), mode: ModeView::CommandName }, None))
    } else {
        let command = toks[0].text;
        match store.spec_get(command) {
            None => None,
            Some(spec) => {
                let (n, rem, chain) = walk(spec, toks.drop_first());
                let opts = node_opts(n);
                if starts_dash(partial) {
                    Some((KeyView { command: Some(command), subcommands: chain, mode: ModeView::Options }, None))
                } else if rem.len() > 0 && starts_dash(rem.last().text) && spec_option_takes_arg(opts, rem.last().text) {
                    let name = rem.last().text;
                    let path = if exists|i: int| 0 <= i < opts.len() && #[trigger] opts[i].name.names().contains(name)
                        && opts[i].args.args().len() > 0 && uses_path_templates(opts[i].args.args()[0]) {
                        Some(PathRequest { command, subcommands: chain, partial, completing_option_arg: true })
                    } else {
                        None
                    };
                    Some((KeyView { command: Some(command), subcommands: chain, mode: ModeView::OptionArg(name) }, path))
                } else {
                    let index = count_words(rem);
                    let args = node_args(n);
                    let path = match arg_for_position(args, index, 0) {
                        Some(i) => if uses_path_templates(args[i]) {
                            Some(PathRequest { command, subcommands: chain, partial, completing_option_arg: false })
                        } else {
                            None
                        },
                        None => None,
                    };
                    Some((KeyView { command: Some(command), subcommands: chain, mode: ModeView::Positional(index, partial.len() == 0) }, path))
                }
            },
        }
    }
}

proof fn lemma_option_pref_cands_has(opts: Seq<Opt>, j: int)
    requires
        0 <= j < opts.len(),
        !opts[j].hidden,
    ensures
        option_pref_cands(opts).contains(
            cand(opts[j].name.spec_preferred(), opt_view(opts[j].description), CandidateKind::Option),
        ),
    decreases opts.len(),
{
    let c = cand(opts[j].name.spec_preferred(), opt_view(opts[j].description), CandidateKind::Option);
    let front = option_pref_cands(opts.drop_last());
    if j == opts.len() - 1 {
        let r = front + seq![c];
        assert(r[front.len() as int] == c);
    } else {
        lemma_option_pref_cands_has(opts.drop_last(), j);
        assert(opts.drop_last()[j] == opts[j]);
        let k = choose|k: int| 0 <= k < front.len() && front[k] == c;
        let tail = if opts.last().hidden {
            Seq::<CandView>::empty()
        } else {
            seq![cand(opts.last().name.spec_preferred(), opt_view(opts.last().description), CandidateKind::Option)]
        };
        assert((front + tail)[k] == c);
    }
}

proof fn lemma_count_words_nonneg(toks: Seq<SpecToken>)
    ensures
        count_words(toks) >= 0,
    decreases toks.len(),
{
    if toks.len() > 0 {
        lemma_count_words_nonneg(toks.drop_last());
    }
}

/// At a positional slot: when the word being typed is empty, every visible
/// option of the node the command line reached is offered, under its
/// preferred name; and when the node's first argument is variadic and takes
/// paths, every slot asks for filesystem completion of the word being typed.
pub proof fn lemma_positional_slot(store: SpecStore, toks: Seq<SpecToken>, partial: Seq<char>)
    ensures
        match resolve(store, toks, partial) {
            Some((key, path)) => key.mode is Positional ==> {
                let n = walk_chain(store.spec_get(key.command.unwrap()).unwrap(), key.subcommands);
                let opts = node_opts(n);
                let args = node_args(n);
                &&& partial.len() == 0 ==> forall|j: int|
                    0 <= j < opts.len() && !(#[trigger] opts[j]).hidden ==> key_cands(store, key).contains(
                        cand(opts[j].name.spec_preferred(), opt_view(opts[j].description), CandidateKind::Option),
                    )
                &&& args.len() > 0 && args[0].is_variadic && uses_path_templates(args[0]) ==> path == Some(
                    PathRequest {
                        command: key.command.unwrap(),
                        subcommands: key.subcommands,
                        partial,
                        completing_option_arg: false,
                    },
                )
            },
            None => true,
        },
{
    if toks.len() > 0 {
        let command = toks[0].text;
        if let Some(spec) = store.spec_get(command) {
            let (n, rem, chain) = walk(spec, toks.drop_first());
            lemma_walk_follows_chain(spec, toks.drop_first());
            lemma_count_words_nonneg(rem);
            let index = count_words(rem);
            lemma_slot_argument(node_args(n), index);
            let opts = node_opts(n);
            if partial.len() == 0 {
                assert forall|j: int| 0 <= j < opts.len() && !(#[trigger] opts[j]).hidden implies positional_cands(
                    n,
                    index,
                    true,
                ).contains(cand(opts[j].name.spec_preferred(), opt_view(opts[j].description), CandidateKind::Option)) by {
                    lemma_option_pref_cands_has(opts, j);
                    let c = cand(opts[j].name.spec_preferred(), opt_view(opts[j].description), CandidateKind::Option);
                    let args = node_args(n);
                    let front = subcommand_cands(node_subs(n)) + match arg_for_position(args, index, 0) {
                        Some(i) => positional_suggestion_cands(args[i].suggestions@),
                        None => Seq::<CandView>::empty(),
                    };
                    let k = choose|k: int| 0 <= k < option_pref_cands(opts).len() && option_pref_cands(opts)[k] == c;
                    assert((front + option_pref_cands(opts))[front.len() + k] == c);
                }
            }
        }
    }
}

/// A node of the spec tree, by reference.
#[derive(Clone, Copy)]
pub enum SpecNode<'a> {
    Root(&'a Spec),
    Sub(&'a Subcommand),
}

impl<'a> SpecNode<'a> {
    pub open spec fn node(self) -> NodeRef {
        match self {
            SpecNode::Root(s) => NodeRef::Root(*s),
            SpecNode::Sub(s) => NodeRef::Sub(*s),
        }
    }
}

fn get_subcommands<'a>(node: SpecNode<'a>) -> (r: &'a Vec<Subcommand>)
    ensures
        r@ == node_subs(node.node()),
{
    match node {
        SpecNode::Root(spec) => &spec.subcommands,
        SpecNode::Sub(subcommand) => &subcommand.subcommands,
    }
}

fn get_options<'a>(node: SpecNode<'a>) -> (r: &'a Vec<Opt>)
    ensures
        r@ == node_opts(node.node()),
{
    match node {
        SpecNode::Root(spec) => &spec.options,
        SpecNode::Sub(subcommand) => &subcommand.options,
    }
}

fn get_args<'a>(node: SpecNode<'a>) -> (r: Vec<&'a Arg>)
    ensures
        r@.map_values(|a: &Arg| *a) == node_args(node.node()),
{
    match node {
        SpecNode::Root(spec) => spec.args.iter(),
        SpecNode::Sub(subcommand) => subcommand.args.iter(),
    }
}

fn text_starts_dash(s: &str) -> (r: bool)
    ensures
        r == starts_dash(s@),
{
    let c = chars_of(s);
    c.len() > 0 && c[0] == '-'
}

/// Walks the tokens from `from` on, as `walk` says.
fn walk_subcommands<'a>(spec: &'a Spec, tokens: &'a Vec<Token>, from: usize) -> (r: (SpecNode<'a>, Vec<&'a Token>, Vec<&'a str>))
    requires
        from <= tokens@.len(),
    ensures
        ({
            let (n, rem, chain) = walk(*spec, tokens_view(tokens@.subrange(from as int, tokens@.len() as int)));
            &&& r.0.node() == n
            &&& tokens_view(r.1@.map_values(|t: &Token| *t)) == rem
            &&& r.2@.map_values(|s: &str| s@) == chain
        }),
{
    let mut current = SpecNode::Root(spec);
    let mut remaining: Vec<&'a Token> = Vec::new();
    let mut matched: Vec<&'a str> = Vec::new();
    let mut i = from;
    let ghost all = tokens_view(tokens@.subrange(from as int, tokens@.len() as int));
    while i < tokens.len()
        invariant
            from <= i <= tokens@.len(),
            all == tokens_view(tokens@.subrange(from as int, tokens@.len() as int)),
            ({
                let (n, rem, chain) = walk(*spec, tokens_view(tokens@.subrange(from as int, i as int)));
                &&& current.node() == n
                &&& tokens_view(remaining@.map_values(|t: &Token| *t)) == rem
                &&& matched@.map_values(|s: &str| s@) == chain
            }),
        decreases tokens@.len() - i,
    {
        let token = &tokens[i];
        let ghost prefix = tokens_view(tokens@.subrange(from as int, i as int));
        let ghost next = tokens_view(tokens@.subrange(from as int, i as int + 1));
        proof {
            assert(next.drop_last() =~= prefix);
            assert(next.last() == token@);
        }
        let ghost old_rem = remaining@;
        let ghost old_matched = matched@;
        if text_starts_dash(token.text.as_str()) {
            remaining.push(token);
            assert(tokens_view(remaining@.map_values(|t: &Token| *t)) =~= tokens_view(old_rem.map_values(|t: &Token| *t)).push(token@));
        } else {
            let subs = get_subcommands(current);
            let mut j: usize = 0;
            while j < subs.len() && !subs[j].name.contains(token.text.as_str())
                invariant
                    j <= subs@.len(),
                    first_sub(subs@, token.text@, j as int) == first_sub(subs@, token.text@, 0),
                decreases subs@.len() - j,
            {
                j = j + 1;
            }
            if j < subs.len() {
                current = SpecNode::Sub(&subs[j]);
                matched.push(token.text.as_str());
                assert(matched@.map_values(|s: &str| s@) =~= old_matched.map_values(|s: &str| s@).push(token.text@));
            } else {
                remaining.push(token);
                assert(tokens_view(remaining@.map_values(|t: &Token| *t)) =~= tokens_view(old_rem.map_values(|t: &Token| *t)).push(token@));
            }
        }
        i = i + 1;
    }
    (current, remaining, matched)
}

fn make_cand(name: &str, description: &Option<String>, kind: CandidateKind) -> (r: CompletionCandidate)
    ensures
        is_plain(r, cand(name@, opt_view(*description), kind)),
{
    CompletionCandidate {
        name: string_from_chars(&chars_of(name)),
        insert_value: None,
        display_name: None,
        description: clone_opt_string(description),
        icon: None,
        priority: DEFAULT_CANDIDATE_PRIORITY,
        kind,
    }
}

/// Appends one candidate per name.
fn push_name_cands(
    out: &mut Vec<CompletionCandidate>,
    Ghost(vs): Ghost<Seq<CandView>>,
    names: &crate::completion::spec::StringOrArray,
    description: &Option<String>,
    kind: CandidateKind,
)
    requires
        plain_list(old(out)@, vs),
    ensures
        plain_list(final(out)@, vs + names_cands(names.names(), opt_view(*description), kind)),
{
    let list = names.iter();
    let ghost ns = names.names();
    let mut j: usize = 0;
    while j < list.len()
        invariant
            j <= list@.len(),
            list@.map_values(|s: &str| s@) == ns,
            plain_list(out@, vs + names_cands(ns.subrange(0, j as int), opt_view(*description), kind)),
        decreases list@.len() - j,
    {
        let c = make_cand(list[j], description, kind);
        let ghost before = out@;
        out.push(c);
        proof {
            assert(names_cands(ns.subrange(0, j as int + 1), opt_view(*description), kind) =~= names_cands(
                ns.subrange(0, j as int),
                opt_view(*description),
                kind,
            ).push(cand(ns[j as int], opt_view(*description), kind)));
            let target = vs + names_cands(ns.subrange(0, j as int + 1), opt_view(*description), kind);
            assert(target =~= (vs + names_cands(ns.subrange(0, j as int), opt_view(*description), kind)).push(
                cand(ns[j as int], opt_view(*description), kind),
            ));
            assert forall|k: int| 0 <= k < out@.len() implies #[trigger] is_plain(out@[k], target[k]) by {
                if k < before.len() {
                    assert(out@[k] == before[k]);
                }
            }
        }
        j = j + 1;
    }
    assert(ns.subrange(0, j as int) =~= ns);
}

/// Appends one plain candidate.
fn push_cand(
    out: &mut Vec<CompletionCandidate>,
    Ghost(vs): Ghost<Seq<CandView>>,
    c: CompletionCandidate,
    Ghost(v): Ghost<CandView>,
)
    requires
        plain_list(old(out)@, vs),
        is_plain(c, v),
    ensures
        plain_list(final(out)@, vs.push(v)),
{
    let ghost before = out@;
    out.push(c);
    assert forall|k: int| 0 <= k < out@.len() implies #[trigger] is_plain(out@[k], vs.push(v)[k]) by {
        if k < before.len() {
            assert(out@[k] == before[k]);
        }
    }
}

proof fn lemma_plain_list_sorted(u: Seq<CompletionCandidate>, vs: Seq<CandView>)
    requires
        plain_list(u, vs),
    ensures
        plain_list(sorted_by_name(u), sorted_by_name(vs)),
{
    let rel = |c: CompletionCandidate, v: CandView| is_plain(c, v);
    assert forall|i: int| 0 <= i < u.len() implies #[trigger] rel(u[i], vs[i]) && u[i].key() == vs[i].key() by {
        assert(is_plain(u[i], vs[i]));
    }
    lemma_sorted_by_name_pairs(u, vs, rel);
    assert forall|i: int| 0 <= i < sorted_by_name(u).len() implies #[trigger] is_plain(sorted_by_name(u)[i], sorted_by_name(vs)[i]) by {
        assert(rel(sorted_by_name(u)[i], sorted_by_name(vs)[i]));
    }
}

/// Every name of every visible option, sorted by name.
fn complete_options(node: SpecNode<'_>) -> (r: Vec<CompletionCandidate>)
    ensures
        plain_list(r@, sorted_by_name(option_name_cands(node_opts(node.node())))),
{
    let opts = get_options(node);
    let mut out: Vec<CompletionCandidate> = Vec::new();
    let mut i: usize = 0;
    while i < opts.len()
        invariant
            i <= opts@.len(),
            opts@ == node_opts(node.node()),
            plain_list(out@, option_name_cands(opts@.subrange(0, i as int))),
        decreases opts@.len() - i,
    {
        let opt = &opts[i];
        proof {
            assert(opts@.subrange(0, i as int + 1).drop_last() =~= opts@.subrange(0, i as int));
        }
        if !opt.hidden {
            push_name_cands(&mut out, Ghost(option_name_cands(opts@.subrange(0, i as int))), &opt.name, &opt.description, CandidateKind::Option);
        } else {
            assert(option_name_cands(opts@.subrange(0, i as int + 1)) =~= option_name_cands(opts@.subrange(0, i as int)));
        }
        i = i + 1;
    }
    assert(opts@.subrange(0, i as int) =~= opts@);
    proof {
        lemma_plain_list_sorted(out@, option_name_cands(opts@));
    }
    sort_by_name(out)
}

/// Whether some option named `option_name` takes an argument.
fn option_takes_arg(node: SpecNode<'_>, option_name: &str) -> (r: bool)
    ensures
        r == spec_option_takes_arg(node_opts(node.node()), option_name@),
{
    let opts = get_options(node);
    let mut i: usize = 0;
    while i < opts.len()
        invariant
            i <= opts@.len(),
            opts@ == node_opts(node.node()),
            forall|k: int| 0 <= k < i ==> !(#[trigger] opts@[k].name.names().contains(option_name@) && !(opts@[k].args is Empty)),
        decreases opts@.len() - i,
    {
        if opts[i].name.contains(option_name) && !opts[i].args.is_empty() {
            return true;
        }
        i = i + 1;
    }
    false
}

/// The suggestions for the argument of the first option named `option_name`.
fn complete_option_arg(node: SpecNode<'_>, option_name: &str) -> (r: Vec<CompletionCandidate>)
    ensures
        plain_list(r@, option_arg_cands(node_opts(node.node()), option_name@)),
{
    let opts = get_options(node);
    let mut i: usize = 0;
    while i < opts.len()
        invariant
            i <= opts@.len(),
            opts@ == node_opts(node.node()),
            first_opt(opts@, option_name@, i as int) == first_opt(opts@, option_name@, 0),
        decreases opts@.len() - i,
    {
        let opt = &opts[i];
        if opt.name.contains(option_name) {
            let mut out: Vec<CompletionCandidate> = Vec::new();
            let arg = match opt.args.first() {
                Some(arg) => arg,
                None => {
                    assert(plain_list(out@, Seq::<CandView>::empty()));
                    return out;
                },
            };
            let sugs = &arg.suggestions;
            let mut j: usize = 0;
            while j < sugs.len()
                invariant
                    j <= sugs@.len(),
                    plain_list(out@, option_arg_suggestion_cands(sugs@.subrange(0, j as int))),
                decreases sugs@.len() - j,
            {
                proof {
                    assert(sugs@.subrange(0, j as int + 1).drop_last() =~= sugs@.subrange(0, j as int));
                }
                let ghost vs = option_arg_suggestion_cands(sugs@.subrange(0, j as int));
                match &sugs[j] {
                    SuggestionOrString::String(value) => {
                        let c = make_cand(value.as_str(), &None, CandidateKind::Argument);
                        push_cand(&mut out, Ghost(vs), c, Ghost(cand(value@, None, CandidateKind::Argument)));
                    },
                    SuggestionOrString::Suggestion(value) => {
                        let c = make_cand(value.name.primary(), &value.description, CandidateKind::Argument);
                        push_cand(&mut out, Ghost(vs), c, Ghost(cand(value.name.spec_primary(), opt_view(value.description), CandidateKind::Argument)));
                    },
                }
                j = j + 1;
            }
            assert(sugs@.subrange(0, j as int) =~= sugs@);
            return out;
        }
        i = i + 1;
    }
    let out: Vec<CompletionCandidate> = Vec::new();
    assert(plain_list(out@, Seq::<CandView>::empty()));
    out
}

/// Index of the argument that completes position `positional_index`.
fn find_arg_for_position(args: &Vec<&Arg>, positional_index: usize) -> (r: Option<usize>)
    ensures
        r matches Some(i) ==> arg_for_position(args@.map_values(|a: &Arg| *a), positional_index as int, 0) == Some(i as int) && i < args@.len(),
        r is None ==> arg_for_position(args@.map_values(|a: &Arg| *a), positional_index as int, 0) is None,
{
    let ghost v = args@.map_values(|a: &Arg| *a);
    let mut i: usize = 0;
    while i < args.len()
        invariant
            i <= args@.len(),
            v == args@.map_values(|a: &Arg| *a),
            arg_for_position(v, positional_index as int, i as int) == arg_for_position(v, positional_index as int, 0),
        decreases args@.len() - i,
    {
        if i == positional_index || (args[i].is_variadic && i < positional_index) {
            return Some(i);
        }
        i = i + 1;
    }
    None
}

/// Subcommands, the slot's argument suggestions, then options when the word is empty.
fn complete_positional(node: SpecNode<'_>, positional_index: usize, include_options: bool) -> (r: Vec<CompletionCandidate>)
    ensures
        plain_list(r@, positional_cands(node.node(), positional_index as int, include_options)),
{
    let mut out: Vec<CompletionCandidate> = Vec::new();
    let subs = get_subcommands(node);
    let mut i: usize = 0;
    while i < subs.len()
        invariant
            i <= subs@.len(),
            subs@ == node_subs(node.node()),
            plain_list(out@, subcommand_cands(subs@.subrange(0, i as int))),
        decreases subs@.len() - i,
    {
        let sub = &subs[i];
        proof {
            assert(subs@.subrange(0, i as int + 1).drop_last() =~= subs@.subrange(0, i as int));
        }
        if !sub.hidden {
            push_name_cands(&mut out, Ghost(subcommand_cands(subs@.subrange(0, i as int))), &sub.name, &sub.description, CandidateKind::Subcommand);
        } else {
            assert(subcommand_cands(subs@.subrange(0, i as int + 1)) =~= subcommand_cands(subs@.subrange(0, i as int)));
        }
        i = i + 1;
    }
    assert(subs@.subrange(0, i as int) =~= subs@);
    let ghost after_subs = subcommand_cands(subs@);
    let args = get_args(node);
    let ghost argv = args@.map_values(|a: &Arg| *a);
    let ghost sug_part = match arg_for_position(argv, positional_index as int, 0) {
        Some(k) => positional_suggestion_cands(argv[k].suggestions@),
        None => Seq::<CandView>::empty(),
    };
    match find_arg_for_position(&args, positional_index) {
        Some(k) => {
            let sugs = &args[k].suggestions;
            assert(argv[k as int] == *args@[k as int]);
            let mut j: usize = 0;
            while j < sugs.len()
                invariant
                    j <= sugs@.len(),
                    plain_list(out@, after_subs + positional_suggestion_cands(sugs@.subrange(0, j as int))),
                decreases sugs@.len() - j,
            {
                proof {
                    assert(sugs@.subrange(0, j as int + 1).drop_last() =~= sugs@.subrange(0, j as int));
                }
                let ghost vs = after_subs + positional_suggestion_cands(sugs@.subrange(0, j as int));
                match &sugs[j] {
                    SuggestionOrString::String(value) => {
                        let c = make_cand(value.as_str(), &None, CandidateKind::Argument);
                        push_cand(&mut out, Ghost(vs), c, Ghost(cand(value@, None, CandidateKind::Argument)));
                        assert(vs.push(cand(value@, None, CandidateKind::Argument)) =~= after_subs + positional_suggestion_cands(sugs@.subrange(0, j as int + 1)));
                    },
                    SuggestionOrString::Suggestion(value) => {
                        if !value.hidden {
                            push_name_cands(&mut out, Ghost(vs), &value.name, &value.description, CandidateKind::Argument);
                            assert(vs + names_cands(value.name.names(), opt_view(value.description), CandidateKind::Argument) =~= after_subs + positional_suggestion_cands(sugs@.subrange(0, j as int + 1)));
                        } else {
                            assert(vs =~= after_subs + positional_suggestion_cands(sugs@.subrange(0, j as int + 1)));
                        }
                    },
                }
                j = j + 1;
            }
            assert(sugs@.subrange(0, j as int) =~= sugs@);
        },
        None => {
            assert(after_subs + sug_part =~= after_subs);
        },
    }
    let ghost before_opts = after_subs + sug_part;
    assert(plain_list(out@, before_opts));
    if include_options {
        let opts = get_options(node);
        let mut i: usize = 0;
        assert(before_opts + option_pref_cands(opts@.subrange(0, 0)) =~= before_opts);
        while i < opts.len()
            invariant
                i <= opts@.len(),
                opts@ == node_opts(node.node()),
                plain_list(out@, before_opts + option_pref_cands(opts@.subrange(0, i as int))),
            decreases opts@.len() - i,
        {
            let opt = &opts[i];
            proof {
                assert(opts@.subrange(0, i as int + 1).drop_last() =~= opts@.subrange(0, i as int));
            }
            let ghost vs = before_opts + option_pref_cands(opts@.subrange(0, i as int));
            if !opt.hidden {
                let c = make_cand(opt.name.preferred(), &opt.description, CandidateKind::Option);
                push_cand(&mut out, Ghost(vs), c, Ghost(cand(opt.name.spec_preferred(), opt_view(opt.description), CandidateKind::Option)));
                assert(vs.push(cand(opt.name.spec_preferred(), opt_view(opt.description), CandidateKind::Option)) =~= before_opts + option_pref_cands(opts@.subrange(0, i as int + 1)));
            } else {
                assert(vs =~= before_opts + option_pref_cands(opts@.subrange(0, i as int + 1)));
            }
            i = i + 1;
        }
        assert(opts@.subrange(0, i as int) =~= opts@);
    } else {
        assert(before_opts =~= before_opts + Seq::<CandView>::empty());
    }
    out
}

/// Whether an argument completes file or folder paths.
fn arg_uses_path_templates(arg: &Arg) -> (r: bool)
    ensures
        r == uses_path_templates(*arg),
{
    match &arg.template {
        Some(Template::Single(kind)) => *kind == TemplateKind::Filepaths || *kind == TemplateKind::Folders,
        Some(Template::Multiple(kinds)) => {
            let mut i: usize = 0;
            while i < kinds.len()
                invariant
                    i <= kinds@.len(),
                    any_path_kind(kinds@, i as int) == any_path_kind(kinds@, 0),
                    arg.template == Some(Template::Multiple(*kinds)),
                decreases kinds@.len() - i,
            {
                if kinds[i] == TemplateKind::Filepaths || kinds[i] == TemplateKind::Folders {
                    return true;
                }
                i = i + 1;
            }
            false
        },
        None => false,
    }
}

struct CompletionCacheKey {
    command: Option<String>,
    subcommands: Vec<String>,
    mode: CompletionModeKey,
}

enum CompletionModeKey {
    CommandName,
    Options,
    OptionArg { option_name: String },
    Positional { index: usize, include_options: bool },
}

impl CompletionCacheKey {
    spec fn view(&self) -> KeyView {
        KeyView {
            command: opt_view(self.command),
            subcommands: strings_view(self.subcommands@),
            mode: match self.mode {
                CompletionModeKey::CommandName => ModeView::CommandName,
                CompletionModeKey::Options => ModeView::Options,
                CompletionModeKey::OptionArg { option_name } => ModeView::OptionArg(option_name@),
                CompletionModeKey::Positional { index, include_options } => ModeView::Positional(index as int, include_options),
            },
        }
    }
}

pub(crate) fn opt_str_eq(a: &Option<String>, b: &Option<String>) -> (r: bool)
    ensures
        r == (opt_view(*a) == opt_view(*b)),
{
    match (a, b) {
        (Some(x), Some(y)) => str_eq(x.as_str(), y.as_str()),
        (None, None) => true,
        _ => false,
    }
}

pub(crate) fn strings_eq(a: &Vec<String>, b: &Vec<String>) -> (r: bool)
    ensures
        r == (strings_view(a@) == strings_view(b@)),
{
    if a.len() != b.len() {
        assert(strings_view(a@).len() != strings_view(b@).len());
        return false;
    }
    let mut i: usize = 0;
    while i < a.len()
        invariant
            a@.len() == b@.len(),
            i <= a@.len(),
            forall|k: int| 0 <= k < i ==> a@[k]@ == b@[k]@,
        decreases a@.len() - i,
    {
        if !str_eq(a[i].as_str(), b[i].as_str()) {
            assert(strings_view(a@)[i as int] != strings_view(b@)[i as int]);
            return false;
        }
        i = i + 1;
    }
    assert(strings_view(a@) =~= strings_view(b@));
    true
}

fn key_eq(a: &CompletionCacheKey, b: &CompletionCacheKey) -> (r: bool)
    ensures
        r == (a.view() == b.view()),
{
    if !opt_str_eq(&a.command, &b.command) || !strings_eq(&a.subcommands, &b.subcommands) {
        return false;
    }
    match (&a.mode, &b.mode) {
        (CompletionModeKey::CommandName, CompletionModeKey::CommandName) => true,
        (CompletionModeKey::Options, CompletionModeKey::Options) => true,
        (CompletionModeKey::OptionArg { option_name: x }, CompletionModeKey::OptionArg { option_name: y }) => str_eq(x.as_str(), y.as_str()),
        (
            CompletionModeKey::Positional { index: i1, include_options: o1 },
            CompletionModeKey::Positional { index: i2, include_options: o2 },
        ) => *i1 == *i2 && *o1 == *o2,
        _ => false,
    }
}

struct CachedCompletion {
    key: CompletionCacheKey,
    candidates: Vec<CompletionCandidate>,
}

/// What the current slot is, with the spec node it belongs to.
enum ResolvedKind<'a> {
    CommandName,
    Options(SpecNode<'a>),
    OptionArg { node: SpecNode<'a>, option_name: &'a str },
    Positional { node: SpecNode<'a>, positional_index: usize, include_options: bool },
}

struct ResolvedContext<'a> {
    key: CompletionCacheKey,
    kind: ResolvedKind<'a>,
    path_context: Option<CompletionContext>,
}

/// The node a key's command and subcommand chain lead to.
pub open spec fn key_node(store: SpecStore, key: KeyView) -> NodeRef {
    walk_chain(store.spec_get(key.command.unwrap()).unwrap(), key.subcommands)
}

spec fn kind_matches(store: SpecStore, kind: ResolvedKind, key: KeyView) -> bool {
    match kind {
        ResolvedKind::CommandName => key.mode is CommandName,
        ResolvedKind::Options(n) => key.mode is Options && n.node() == key_node(store, key) && key.command is Some,
        ResolvedKind::OptionArg { node, option_name } => key.mode == ModeView::OptionArg(option_name@) && node.node() == key_node(store, key)
            && key.command is Some,
        ResolvedKind::Positional { node, positional_index, include_options } => key.mode == ModeView::Positional(
            positional_index as int,
            include_options,
        ) && node.node() == key_node(store, key) && key.command is Some,
    }
}

/// A filesystem request as a value, the directory left out.
pub open spec fn context_request(c: CompletionContext) -> PathRequest {
    PathRequest {
        command: c.command@,
        subcommands: strings_view(c.subcommands@),
        partial: c.partial@,
        completing_option_arg: c.completing_option_arg,
    }
}

/// The request as a context whose directory is `.`.
pub open spec fn request_matches(c: CompletionContext, p: PathRequest) -> bool {
    context_request(c) == p && c.cwd@ == seq!['.']
}

fn make_path_context(command: &str, subcommands: &Vec<&str>, partial: &str, completing_option_arg: bool) -> (r: CompletionContext)
    ensures
        context_request(r) == (PathRequest {
            command: command@,
            subcommands: subcommands@.map_values(|s: &str| s@),
            partial: partial@,
            completing_option_arg,
        }),
        r.cwd@ == seq!['.'],
{
    let mut subs: Vec<String> = Vec::new();
    let mut i: usize = 0;
    while i < subcommands.len()
        invariant
            i <= subcommands@.len(),
            strings_view(subs@) == subcommands@.map_values(|s: &str| s@).subrange(0, i as int),
        decreases subcommands@.len() - i,
    {
        let s = string_from_chars(&chars_of(subcommands[i]));
        let ghost before = subs@;
        subs.push(s);
        assert(strings_view(subs@) =~= strings_view(before).push(s@));
        i = i + 1;
        assert(strings_view(subs@) =~= subcommands@.map_values(|s: &str| s@).subrange(0, i as int));
    }
    assert(subcommands@.map_values(|s: &str| s@).subrange(0, i as int) =~= subcommands@.map_values(|s: &str| s@));
    CompletionContext {
        command: string_from_chars(&chars_of(command)),
        subcommands: subs,
        partial: string_from_chars(&chars_of(partial)),
        completing_option_arg,
        cwd: string_from_chars(&vec!['.']),
    }
}

fn strs_to_strings(v: &Vec<&str>) -> (r: Vec<String>)
    ensures
        strings_view(r@) == v@.map_values(|s: &str| s@),
{
    let mut out: Vec<String> = Vec::new();
    let mut i: usize = 0;
    while i < v.len()
        invariant
            i <= v@.len(),
            strings_view(out@) == v@.map_values(|s: &str| s@).subrange(0, i as int),
        decreases v@.len() - i,
    {
        let s = string_from_chars(&chars_of(v[i]));
        let ghost before = out@;
        out.push(s);
        assert(strings_view(out@) =~= strings_view(before).push(s@));
        i = i + 1;
        assert(strings_view(out@) =~= v@.map_values(|s: &str| s@).subrange(0, i as int));
    }
    assert(v@.map_values(|s: &str| s@).subrange(0, i as int) =~= v@.map_values(|s: &str| s@));
    out
}

pub open spec fn opt_arg_takes_paths(opts: Seq<Opt>, name: Seq<char>) -> bool {
    exists|i: int| 0 <= i < opts.len() && #[trigger] opts[i].name.names().contains(name)
        && opts[i].args.args().len() > 0 && uses_path_templates(opts[i].args.args()[0])
}

fn option_arg_takes_paths(node: SpecNode<'_>, option_name: &str) -> (r: bool)
    ensures
        r == opt_arg_takes_paths(node_opts(node.node()), option_name@),
{
    let opts = get_options(node);
    let mut i: usize = 0;
    while i < opts.len()
        invariant
            i <= opts@.len(),
            opts@ == node_opts(node.node()),
            forall|k: int| 0 <= k < i ==> !(#[trigger] opts@[k].name.names().contains(option_name@)
                && opts@[k].args.args().len() > 0 && uses_path_templates(opts@[k].args.args()[0])),
        decreases opts@.len() - i,
    {
        if opts[i].name.contains(option_name) {
            match opts[i].args.first() {
                Some(arg) => {
                    if arg_uses_path_templates(arg) {
                        return true;
                    }
                },
                None => {},
            }
        }
        i = i + 1;
    }
    false
}

fn count_word_tokens(rem: &Vec<&Token>) -> (n: usize)
    ensures
        n == count_words(tokens_view(rem@.map_values(|t: &Token| *t))),
{
    let ghost all = tokens_view(rem@.map_values(|t: &Token| *t));
    let mut n: usize = 0;
    let mut i: usize = 0;
    while i < rem.len()
        invariant
            i <= rem@.len(),
            n <= i,
            all == tokens_view(rem@.map_values(|t: &Token| *t)),
            n == count_words(all.subrange(0, i as int)),
        decreases rem@.len() - i,
    {
        proof {
            assert(all.subrange(0, i as int + 1).drop_last() =~= all.subrange(0, i as int));
            assert(all[i as int] == rem@[i as int]@);
        }
        if !text_starts_dash(rem[i].text.as_str()) {
            n = n + 1;
        }
        i = i + 1;
    }
    assert(all.subrange(0, i as int) =~= all);
    n
}

fn resolve_context<'a>(store: &'a SpecStore, parsed: &'a ParsedLine) -> (r: Option<ResolvedContext<'a>>)
    ensures
        match resolve(*store, tokens_view(parsed.tokens@), parsed.partial@) {
            None => r is None,
            Some((key, path)) => r matches Some(rc) && rc.key.view() == key && kind_matches(*store, rc.kind, key)
                && match path {
                None => rc.path_context is None,
                Some(p) => rc.path_context matches Some(c) && request_matches(c, p),
            },
        },
{
    let ghost toks = tokens_view(parsed.tokens@);
    if parsed.tokens.len() == 0 {
        let key = CompletionCacheKey { command: None, subcommands: Vec::new(), mode: CompletionModeKey::CommandName };
        assert(key.view().subcommands =~= Seq::<Seq<char>>::empty());
        return Some(ResolvedContext { key, kind: ResolvedKind::CommandName, path_context: None });
    }
    let command = parsed.tokens[0].text.as_str();
    let spec = match store.get(command) {
        Some(s) => s,
        None => return None,
    };
    let (node, remaining, chain) = walk_subcommands(spec, &parsed.tokens, 1);
    proof {
        assert(tokens_view(parsed.tokens@.subrange(1, parsed.tokens@.len() as int)) =~= toks.drop_first());
        lemma_walk_follows_chain(*spec, toks.drop_first());
    }
    let ghost chain_v = chain@.map_values(|s: &str| s@);
    let ghost rem_v = tokens_view(remaining@.map_values(|t: &Token| *t));
    let partial = parsed.partial.as_str();
    let command_string = string_from_chars(&chars_of(command));
    let chain_strings = strs_to_strings(&chain);
    if text_starts_dash(partial) {
        let key = CompletionCacheKey {
            command: Some(command_string),
            subcommands: chain_strings,
            mode: CompletionModeKey::Options,
        };
        return Some(ResolvedContext { key, kind: ResolvedKind::Options(node), path_context: None });
    }
    if remaining.len() > 0 {
        let last: &'a Token = remaining[remaining.len() - 1];
        proof {
            assert(rem_v.last() == last@);
        }
        if text_starts_dash(last.text.as_str()) && option_takes_arg(node, last.text.as_str()) {
            let path_context = if option_arg_takes_paths(node, last.text.as_str()) {
                Some(make_path_context(command, &chain, partial, true))
            } else {
                None
            };
            let key = CompletionCacheKey {
                command: Some(command_string),
                subcommands: chain_strings,
                mode: CompletionModeKey::OptionArg { option_name: string_from_chars(&chars_of(last.text.as_str())) },
            };
            return Some(ResolvedContext {
                key,
                kind: ResolvedKind::OptionArg { node, option_name: last.text.as_str() },
                path_context,
            });
        }
    }
    let positional_index = count_word_tokens(&remaining);
    let include_options = partial.unicode_len() == 0;
    let args = get_args(node);
    let path_context = match find_arg_for_position(&args, positional_index) {
        Some(k) => {
            assert(args@.map_values(|a: &Arg| *a)[k as int] == *args@[k as int]);
            if arg_uses_path_templates(args[k]) {
                Some(make_path_context(command, &chain, partial, false))
            } else {
                None
            }
        },
        None => None,
    };
    let key = CompletionCacheKey {
        command: Some(command_string),
        subcommands: chain_strings,
        mode: CompletionModeKey::Positional { index: positional_index, include_options },
    };
    Some(ResolvedContext {
        key,
        kind: ResolvedKind::Positional { node, positional_index, include_options },
        path_context,
    })
}

fn build_base_candidates(
    Ghost(store): Ghost<SpecStore>,
    command_candidates: &Vec<CompletionCandidate>,
    resolved: &ResolvedContext<'_>,
) -> (r: Vec<CompletionCandidate>)
    requires
        plain_list(command_candidates@, command_cands(store)),
        kind_matches(store, resolved.kind, resolved.key.view()),
    ensures
        plain_list(r@, key_cands(store, resolved.key.view())),
{
    match resolved.kind {
        ResolvedKind::CommandName => clone_candidates(command_candidates),
        ResolvedKind::Options(node) => complete_options(node),
        ResolvedKind::OptionArg { node, option_name } => complete_option_arg(node, option_name),
        ResolvedKind::Positional { node, positional_index, include_options } => complete_positional(node, positional_index, include_options),
    }
}

fn clone_candidates(v: &Vec<CompletionCandidate>) -> (r: Vec<CompletionCandidate>)
    ensures
        r@ == v@,
{
    let mut out: Vec<CompletionCandidate> = Vec::new();
    let mut i: usize = 0;
    while i < v.len()
        invariant
            i <= v@.len(),
            out@ == v@.subrange(0, i as int),
        decreases v@.len() - i,
    {
        out.push(v[i].clone());
        i = i + 1;
        assert(out@ =~= v@.subrange(0, i as int));
    }
    assert(v@.subrange(0, i as int) =~= v@);
    out
}

/// The main completion engine. Given the current command line text, produces
/// a list of completion candidates by walking the spec tree.
pub struct CompletionEngine {
    store: SpecStore,
    command_candidates: Vec<CompletionCandidate>,
    cached_context: Option<CachedCompletion>,
}

/// The partial word, the candidates from the specs, and, when the slot takes
/// paths, the filesystem request whose listing the caller adds (through a
/// `PathSource`, after setting the request's directory).
#[derive(Debug)]
pub struct CompletionResult {
    pub partial: String,
    pub candidates: Vec<CompletionCandidate>,
    pub path_context: Option<CompletionContext>,
}

impl CompletionEngine {
    #[verifier::type_invariant]
    spec fn well_formed(self) -> bool {
        &&& plain_list(self.command_candidates@, command_cands(self.store))
        &&& self.cached_context matches Some(c) ==> plain_list(c.candidates@, key_cands(self.store, c.key.view()))
    }

    /// The specs the engine completes from.
    pub closed spec fn spec_store(&self) -> SpecStore {
        self.store
    }

    pub fn new(store: SpecStore) -> (r: Self)
        ensures
            r.spec_store() == store,
    {
        let commands = store.iter_commands();
        let ghost names = store.commands();
        let ghost listed = names.map_values(
            |n: Seq<char>| cand(n, opt_view(store.spec_get(n).unwrap().description), CandidateKind::Subcommand),
        );
        let mut cands: Vec<CompletionCandidate> = Vec::new();
        let mut i: usize = 0;
        while i < commands.len()
            invariant
                i <= commands@.len(),
                commands@.map_values(|s: &str| s@) == names,
                listed == names.map_values(
                    |n: Seq<char>| cand(n, opt_view(store.spec_get(n).unwrap().description), CandidateKind::Subcommand),
                ),
                forall|n: Seq<char>| #[trigger] names.contains(n) <==> store.spec_get(n) is Some,
                plain_list(cands@, listed.subrange(0, i as int)),
            decreases commands@.len() - i,
        {
            let command = commands[i];
            proof {
                assert(names[i as int] == command@);
                assert(names.contains(command@));
            }
            match store.get(command) {
                Some(spec) => {
                    let c = make_cand(command, &spec.description, CandidateKind::Subcommand);
                    push_cand(&mut cands, Ghost(listed.subrange(0, i as int)), c, Ghost(listed[i as int]));
                    assert(listed.subrange(0, i as int).push(listed[i as int]) =~= listed.subrange(0, i as int + 1));
                },
                None => {},
            }
            i = i + 1;
        }
        assert(listed.subrange(0, i as int) =~= listed);
        proof {
            lemma_plain_list_sorted(cands@, listed);
        }
        let command_candidates = sort_by_name(cands);
        CompletionEngine { store, command_candidates, cached_context: None }
    }

    pub fn store(&self) -> (r: &SpecStore)
        ensures
            *r == self.spec_store(),
    {
        &self.store
    }

    /// Generate candidates for the current input line.
    pub fn complete(&mut self, input: &str) -> (r: CompletionResult)
        requires
            tokenizes(input@),
        ensures
            final(self).spec_store() == old(self).spec_store(),
            ({
                let (toks, partial) = spec_parse_completion(input@);
                &&& r.partial@ == partial
                &&& match resolve(old(self).spec_store(), toks, partial) {
                    None => r.candidates@.len() == 0 && r.path_context is None,
                    Some((key, path)) => plain_list(r.candidates@, key_cands(old(self).spec_store(), key))
                        && match path {
                        None => r.path_context is None,
                        Some(p) => r.path_context matches Some(c) && request_matches(c, p),
                    },
                }
            }),
    {
        let parsed = parse_completion_input(input);
        let (candidates, path_context) = self.complete_parsed(&parsed);
        CompletionResult { partial: parsed.partial, candidates, path_context }
    }

    fn complete_parsed(&mut self, parsed: &ParsedLine) -> (r: (Vec<CompletionCandidate>, Option<CompletionContext>))
        ensures
            final(self).spec_store() == old(self).spec_store(),
            match resolve(old(self).spec_store(), tokens_view(parsed.tokens@), parsed.partial@) {
                None => r.0@.len() == 0 && r.1 is None,
                Some((key, path)) => plain_list(r.0@, key_cands(old(self).spec_store(), key)) && match path {
                    None => r.1 is None,
                    Some(p) => r.1 matches Some(c) && request_matches(c, p),
                },
            },
    {
        proof {
            use_type_invariant(&*self);
        }
        let (candidates, key, path_context) = match resolve_context(&self.store, parsed) {
            None => {
                let empty: Vec<CompletionCandidate> = Vec::new();
                return (empty, None);
            },
            Some(resolved) => {
                let hit = match &self.cached_context {
                    Some(cached) => key_eq(&cached.key, &resolved.key),
                    None => false,
                };
                let candidates = if hit {
                    match &self.cached_context {
                        Some(cached) => clone_candidates(&cached.candidates),
                        None => Vec::new(),
                    }
                } else {
                    build_base_candidates(Ghost(self.store), &self.command_candidates, &resolved)
                };
                (candidates, resolved.key, resolved.path_context)
            },
        };
        let kept = clone_candidates(&candidates);
        self.cached_context = Some(CachedCompletion { key, candidates: kept });
        (candidates, path_context)
    }
}

/// The popup's items for a completion: the engine's candidates followed by
/// the path source's, ranked by the matcher for the partial word; with the
/// partial word's length in characters (what an accepted item replaces).
pub fn rank_completion(
    matcher: &mut FuzzyMatcher,
    result: CompletionResult,
    path_candidates: Vec<CompletionCandidate>,
) -> (r: (Vec<ScoredCandidate>, usize))
    ensures
        r.0@.to_multiset() == scored_candidates(
            result.partial@,
            result.candidates@ + path_candidates@,
        ).to_multiset(),
        is_ranked(r.0@),
        r.1 == result.partial@.len(),
{
    let CompletionResult { partial, candidates, path_context: _ } = result;
    let mut all = candidates;
    let mut rest = path_candidates;
    all.append(&mut rest);
    let partial_len = partial.unicode_len();
    let scored = matcher.filter(partial.as_str(), all);
    (scored, partial_len)
}

} // verus!
