//! The command router: a tree of commands built from route patterns, and the
//! dispatch of command-line arguments to a command, to help or to an error.
use vstd::prelude::*;
use crate::parser::context::{pair_views, string_eq, Context};
use crate::parser::node::{
    empty_node, find_child, insert_pos, lemma_find_child, lemma_insert_pos, lemma_node_view, names_sorted,
    lemma_subs_sorted, lemma_text_lt_total, lemma_text_lt_transitive, subs_sorted, tree_sorted,
    node_view, subs_view, text_less, text_lt, CommandNode, NodeView,
};
use crate::parser::spec::{
    flag_views, parse_pattern, parse_pattern_spec, parse_single_flag, parse_single_flag_spec, pattern_parts,
    token_views, FlagSpec, FlagView, RouteSpec, TokenSpec, TokenView,
};
use crate::parser::validate::{flags_named, parse_and_validate_node, starts_with_dash, validate_spec, ParseError, ParseFailure};
use crate::ansi::{visible_width, visible_width_spec};
use crate::paint::{bold, bold_spec, is_styled, lemma_styled_no_color, plain_spec, styled, styled_spec, TermColor, TextStyle};
use crate::parser::spec::{byte_len, first_short};
use crate::text::{chars_of, cviews, string_of, views};

verus! {

/// What a route sets on the node it leads to: for a group only the
/// documentation; for a command also its flags, handler and visibility.
pub struct RouteEnd {
    pub group: bool,
    pub doc: Seq<char>,
    pub flags: Seq<FlagView>,
    pub handler: Option<usize>,
    pub hidden: bool,
}

/// The subcommand `name` of `v`, or an empty node when there is none.
pub open spec fn child_or_empty(v: NodeView, name: Seq<char>) -> NodeView {
    match find_child(v.subs, name, 0) {
        Some(i) => v.subs[i].1,
        None => empty_node(),
    }
}

/// `v` with its subcommand `name` set to `child`: replaced where it exists,
/// inserted in name order otherwise.
pub open spec fn with_child(v: NodeView, name: Seq<char>, child: NodeView) -> NodeView {
    match find_child(v.subs, name, 0) {
        Some(i) => NodeView { subs: v.subs.update(i, (name, child)), ..v },
        None => NodeView { subs: v.subs.insert(insert_pos(v.subs, name, 0), (name, child)), ..v },
    }
}

/// Follows the tokens of a route from `k` on: a literal descends into the
/// subcommand of that name (created when missing); for a command, a
/// positional token is added to the node reached so far; at the end the
/// node reached gets what the route sets.
pub open spec fn route_insert(v: NodeView, toks: Seq<TokenView>, k: int, e: RouteEnd) -> NodeView
    decreases toks.len() - k,
{
    if k < 0 || k >= toks.len() {
        if e.group {
            NodeView { doc: e.doc, ..v }
        } else {
            NodeView { doc: e.doc, flags: e.flags, handler: e.handler, hidden: e.hidden, ..v }
        }
    } else {
        match toks[k] {
            TokenView::Literal(name) => with_child(v, name, route_insert(child_or_empty(v, name), toks, k + 1, e)),
            _ => if e.group {
                route_insert(v, toks, k + 1, e)
            } else {
                route_insert(NodeView { tokens: v.tokens.push(toks[k]), ..v }, toks, k + 1, e)
            },
        }
    }
}

/// What the route sets, as values.
pub struct RouteEndExec {
    pub group: bool,
    pub doc: &'static str,
    pub flags: Vec<FlagSpec>,
    pub handler: Option<usize>,
    pub hidden: bool,
}

impl View for RouteEndExec {
    type V = RouteEnd;

    open spec fn view(&self) -> RouteEnd {
        RouteEnd {
            group: self.group,
            doc: self.doc@,
            flags: flag_views(self.flags@),
            handler: self.handler,
            hidden: self.hidden,
        }
    }
}

fn copy_token(t: &TokenSpec) -> (r: TokenSpec)
    ensures
        r@ == t@,
{
    match t {
        TokenSpec::Literal(s) => TokenSpec::Literal(s.clone()),
        TokenSpec::Positional(s) => TokenSpec::Positional(s.clone()),
        TokenSpec::Rest(s) => TokenSpec::Rest(s.clone()),
    }
}

/// Index of the subcommand named `name`, if any.
fn find_child_exec(subs: &Vec<(String, CommandNode)>, name: &String) -> (r: Option<usize>)
    ensures
        match r {
            Some(i) => find_child(subs_view(subs@), name@, 0) == Some(i as int),
            None => find_child(subs_view(subs@), name@, 0) is None,
        },
{
    let ghost sv = subs_view(subs@);
    proof {
        crate::parser::node::lemma_subs_view(subs@);
    }
    let mut i: usize = 0;
    while i < subs.len()
        invariant
            sv == subs_view(subs@),
            sv.len() == subs@.len(),
            forall|j: int| 0 <= j < subs@.len() ==> #[trigger] sv[j] == (subs@[j].0@, subs@[j].1@),
            i <= subs@.len(),
            find_child(sv, name@, 0) == find_child(sv, name@, i as int),
        decreases subs.len() - i,
    {
        assert(sv[i as int].0 == subs@[i as int].0@);
        if string_eq(&subs[i].0, name.as_str()) {
            return Some(i);
        }
        i += 1;
    }
    None
}

/// Where a new subcommand named `name` goes.
fn insert_pos_exec(subs: &Vec<(String, CommandNode)>, name: &String) -> (r: usize)
    ensures
        r == insert_pos(subs_view(subs@), name@, 0),
{
    let ghost sv = subs_view(subs@);
    proof {
        crate::parser::node::lemma_subs_view(subs@);
    }
    let nv = chars_of(name.as_str());
    let mut i: usize = 0;
    while i < subs.len()
        invariant
            sv == subs_view(subs@),
            sv.len() == subs@.len(),
            forall|j: int| 0 <= j < subs@.len() ==> #[trigger] sv[j] == (subs@[j].0@, subs@[j].1@),
            nv@ == name@,
            i <= subs@.len(),
            insert_pos(sv, name@, 0) == insert_pos(sv, name@, i as int),
        decreases subs.len() - i,
    {
        assert(sv[i as int].0 == subs@[i as int].0@);
        let kv = chars_of(subs[i].0.as_str());
        if !text_less(kv.as_slice(), nv.as_slice()) {
            return i;
        }
        i += 1;
    }
    i
}

/// Inserts the route's tokens from `k` on into `node` (see `route_insert`).
fn insert_tokens(node: CommandNode, toks: &[TokenSpec], k: usize, e: RouteEndExec) -> (r: CommandNode)
    requires
        k <= toks@.len(),
    ensures
        r@ == route_insert(node@, token_views(toks@), k as int, e@),
    decreases toks@.len() - k,
{
    let ghost tv = token_views(toks@);
    let mut node = node;
    if k == toks.len() {
        node.doc = e.doc;
        if !e.group {
            node.flags = e.flags;
            node.handler = e.handler;
            node.hidden = e.hidden;
        }
        return node;
    }
    assert(tv[k as int] == toks@[k as int]@);
    match &toks[k] {
        TokenSpec::Literal(name) => {
            let ghost v = node@;
            proof {
                lemma_node_view(&node);
                crate::parser::node::lemma_subs_view(node.subcommands@);
                lemma_find_child(v.subs, name@, 0);
            }
            match find_child_exec(&node.subcommands, name) {
                Some(i) => {
                    let ghost before = node.subcommands@;
                    let (n, child) = node.subcommands.remove(i);
                    assert(child@ == v.subs[i as int].1);
                    let child2 = insert_tokens(child, toks, k + 1, e);
                    node.subcommands.insert(i, (n, child2));
                    proof {
                        crate::parser::node::lemma_subs_view(node.subcommands@);
                        crate::parser::node::lemma_subs_view(before);
                        assert(subs_view(node.subcommands@) =~= v.subs.update(i as int, (name@, child2@)));
                    }
                    node
                },
                None => {
                    let p = insert_pos_exec(&node.subcommands, name);
                    proof {
                        lemma_insert_pos(v.subs, name@, 0);
                    }
                    let fresh = CommandNode::new("");
                    proof {
                        lemma_node_view(&fresh);
                        crate::parser::node::lemma_subs_view(fresh.subcommands@);
                        assert(fresh@.subs =~= Seq::<(Seq<char>, NodeView)>::empty());
                        assert(fresh@.flags =~= Seq::<FlagView>::empty());
                        assert(fresh@.tokens =~= Seq::<TokenView>::empty());
                        reveal_strlit("");
                        assert(fresh@.doc =~= Seq::<char>::empty());
                        assert(fresh@ == empty_node());
                    }
                    let child2 = insert_tokens(fresh, toks, k + 1, e);
                    let ghost before = node.subcommands@;
                    node.subcommands.insert(p, (name.clone(), child2));
                    proof {
                        crate::parser::node::lemma_subs_view(node.subcommands@);
                        crate::parser::node::lemma_subs_view(before);
                        assert(subs_view(node.subcommands@) =~= v.subs.insert(p as int, (name@, child2@)));
                    }
                    node
                },
            }
        },
        _ => {
            if !e.group {
                let ghost before = node.positional_tokens@;
                node.positional_tokens.push(copy_token(&toks[k]));
                assert(token_views(node.positional_tokens@) =~= token_views(before).push(tv[k as int]));
            }
            insert_tokens(node, toks, k + 1, e)
        },
    }
}

} // verus!

verus! {

/// Whether every flag in the tree has a name.
pub open spec fn tree_named(v: NodeView) -> bool
    decreases v,
{
    flags_named(v.flags) && subs_named(v.subs)
}

/// Whether every flag under the subcommands has a name.
pub open spec fn subs_named(subs: Seq<(Seq<char>, NodeView)>) -> bool
    decreases subs,
{
    subs.len() == 0 || (subs_named(subs.drop_last()) && tree_named(subs.last().1))
}

pub proof fn lemma_subs_named(subs: Seq<(Seq<char>, NodeView)>)
    ensures
        subs_named(subs) <==> forall|i: int| 0 <= i < subs.len() ==> #[trigger] tree_named(subs[i].1),
    decreases subs.len(),
{
    if subs.len() > 0 {
        lemma_subs_named(subs.drop_last());
        if subs_named(subs) {
            assert forall|i: int| 0 <= i < subs.len() implies #[trigger] tree_named(subs[i].1) by {
                if i < subs.len() - 1 {
                    assert(subs.drop_last()[i] == subs[i]);
                }
            }
        }
        if forall|i: int| 0 <= i < subs.len() ==> #[trigger] tree_named(subs[i].1) {
            assert forall|i: int| 0 <= i < subs.drop_last().len() implies #[trigger] tree_named(subs.drop_last()[i].1) by {
                assert(subs.drop_last()[i] == subs[i]);
            }
            assert(tree_named(subs[subs.len() - 1].1));
        }
    }
}

proof fn lemma_with_child_named(v: NodeView, name: Seq<char>, child: NodeView)
    requires
        tree_named(v),
        tree_named(child),
    ensures
        tree_named(with_child(v, name, child)),
        tree_named(child_or_empty(v, name)),
{
    lemma_subs_named(v.subs);
    lemma_find_child(v.subs, name, 0);
    let w = with_child(v, name, child);
    lemma_subs_named(w.subs);
    match find_child(v.subs, name, 0) {
        Some(i) => {
            assert forall|j: int| 0 <= j < w.subs.len() implies #[trigger] tree_named(w.subs[j].1) by {
                if j != i {
                    assert(w.subs[j] == v.subs[j]);
                }
            }
        },
        None => {
            let p = insert_pos(v.subs, name, 0);
            lemma_insert_pos(v.subs, name, 0);
            assert forall|j: int| 0 <= j < w.subs.len() implies #[trigger] tree_named(w.subs[j].1) by {
                if j < p {
                    assert(w.subs[j] == v.subs[j]);
                } else if j > p {
                    assert(w.subs[j] == v.subs[j - 1]);
                }
            }
            lemma_subs_named(empty_node().subs);
        },
    }
}

proof fn lemma_with_child_sorted(v: NodeView, name: Seq<char>, child: NodeView)
    requires
        tree_sorted(v),
        tree_sorted(child),
    ensures
        tree_sorted(with_child(v, name, child)),
        tree_sorted(child_or_empty(v, name)),
{
    lemma_subs_sorted(v.subs);
    lemma_find_child(v.subs, name, 0);
    let w = with_child(v, name, child);
    lemma_subs_sorted(w.subs);
    match find_child(v.subs, name, 0) {
        Some(i) => {
            assert forall|j: int| 0 <= j < w.subs.len() implies #[trigger] tree_sorted(w.subs[j].1) by {
                if j != i {
                    assert(w.subs[j] == v.subs[j]);
                }
            }
            assert forall|a: int, b: int| 0 <= a < b < w.subs.len() implies text_lt(#[trigger] w.subs[a].0, #[trigger] w.subs[b].0) by {
                assert(w.subs[a].0 == v.subs[a].0);
                assert(w.subs[b].0 == v.subs[b].0);
            }
        },
        None => {
            let p = insert_pos(v.subs, name, 0);
            lemma_insert_pos(v.subs, name, 0);
            if p < v.subs.len() {
                lemma_text_lt_total(v.subs[p].0, name);
            }
            assert forall|j: int| 0 <= j < w.subs.len() implies #[trigger] tree_sorted(w.subs[j].1) by {
                if j < p {
                    assert(w.subs[j] == v.subs[j]);
                } else if j > p {
                    assert(w.subs[j] == v.subs[j - 1]);
                }
            }
            assert forall|a: int, b: int| 0 <= a < b < w.subs.len() implies text_lt(#[trigger] w.subs[a].0, #[trigger] w.subs[b].0) by {
                if b < p {
                    assert(w.subs[a] == v.subs[a]);
                    assert(w.subs[b] == v.subs[b]);
                } else if b == p {
                    assert(w.subs[a] == v.subs[a]);
                    assert(text_lt(v.subs[a].0, name));
                } else if a == p {
                    assert(w.subs[b] == v.subs[b - 1]);
                    if b - 1 > p {
                        assert(text_lt(v.subs[p].0, v.subs[b - 1].0));
                        lemma_text_lt_transitive(name, v.subs[p].0, v.subs[b - 1].0);
                    }
                } else if a < p {
                    assert(w.subs[a] == v.subs[a]);
                    assert(w.subs[b] == v.subs[b - 1]);
                    assert(text_lt(v.subs[a].0, v.subs[b - 1].0));
                } else {
                    assert(w.subs[a] == v.subs[a - 1]);
                    assert(w.subs[b] == v.subs[b - 1]);
                    assert(text_lt(v.subs[a - 1].0, v.subs[b - 1].0));
                }
            }
            lemma_subs_sorted(empty_node().subs);
        },
    }
}

/// Inserting a route keeps the subcommand names of every node ascending.
pub proof fn lemma_route_sorted(v: NodeView, toks: Seq<TokenView>, k: int, e: RouteEnd)
    requires
        tree_sorted(v),
    ensures
        tree_sorted(route_insert(v, toks, k, e)),
    decreases toks.len() - k,
{
    if k < 0 || k >= toks.len() {
    } else {
        match toks[k] {
            TokenView::Literal(name) => {
                lemma_with_child_sorted(v, name, empty_node());
                let c = child_or_empty(v, name);
                lemma_route_sorted(c, toks, k + 1, e);
                lemma_with_child_sorted(v, name, route_insert(c, toks, k + 1, e));
            },
            _ => {
                if !e.group {
                    lemma_route_sorted(NodeView { tokens: v.tokens.push(toks[k]), ..v }, toks, k + 1, e);
                } else {
                    lemma_route_sorted(v, toks, k + 1, e);
                }
            },
        }
    }
}

/// Inserting a route whose flags are named keeps every flag in the tree named.
pub proof fn lemma_route_named(v: NodeView, toks: Seq<TokenView>, k: int, e: RouteEnd)
    requires
        tree_named(v),
        flags_named(e.flags),
    ensures
        tree_named(route_insert(v, toks, k, e)),
    decreases toks.len() - k,
{
    if k < 0 || k >= toks.len() {
    } else {
        match toks[k] {
            TokenView::Literal(name) => {
                lemma_with_child_named(v, name, empty_node());
                let c = child_or_empty(v, name);
                lemma_route_named(c, toks, k + 1, e);
                lemma_with_child_named(v, name, route_insert(c, toks, k + 1, e));
            },
            _ => {
                if !e.group {
                    lemma_route_named(NodeView { tokens: v.tokens.push(toks[k]), ..v }, toks, k + 1, e);
                } else {
                    lemma_route_named(v, toks, k + 1, e);
                }
            },
        }
    }
}

/// Flags parsed from route patterns are named.
pub proof fn lemma_pattern_named(parts: Seq<Seq<char>>, n: int)
    ensures
        flags_named(pattern_parts(parts, n).1),
    decreases n,
{
    if n > 0 && n <= parts.len() {
        lemma_pattern_named(parts, n - 1);
    }
}

/// Package metadata: name, description and version.
#[derive(Debug, Clone, Copy)]
pub struct PkgMeta {
    pub name: &'static str,
    pub description: &'static str,
    pub version: &'static str,
}

/// The command router: application name, description and version, global
/// flags and the tree of commands.
pub struct Commands {
    name: String,
    description: String,
    version: String,
    global_flags: Vec<FlagSpec>,
    root: CommandNode,
}

/// What a router holds, as values.
pub struct CommandsView {
    pub name: Seq<char>,
    pub description: Seq<char>,
    pub version: Seq<char>,
    pub global_flags: Seq<FlagView>,
    pub root: NodeView,
}

impl View for Commands {
    type V = CommandsView;

    closed spec fn view(&self) -> CommandsView {
        CommandsView {
            name: self.name@,
            description: self.description@,
            version: self.version@,
            global_flags: flag_views(self.global_flags@),
            root: self.root@,
        }
    }
}

/// The flags parsed from raw flag texts, those that do not parse left out.
pub open spec fn parsed_flags(raws: Seq<Seq<char>>) -> Seq<FlagView>
    decreases raws.len(),
{
    if raws.len() == 0 {
        Seq::empty()
    } else {
        match parse_single_flag_spec(raws.last()) {
            Some(f) => parsed_flags(raws.drop_last()).push(f),
            None => parsed_flags(raws.drop_last()),
        }
    }
}

proof fn lemma_parsed_named(raws: Seq<Seq<char>>)
    ensures
        flags_named(parsed_flags(raws)),
    decreases raws.len(),
{
    if raws.len() > 0 {
        lemma_parsed_named(raws.drop_last());
    }
}

impl Commands {
    /// Whether every flag, global or of a command, has a name, and the
    /// subcommand names of every node are strictly ascending.
    pub open spec fn wf(&self) -> bool {
        flags_named(self@.global_flags) && tree_named(self@.root) && tree_sorted(self@.root)
    }

    /// The root of the command tree.
    pub fn root(&self) -> (r: &CommandNode)
        ensures
            r@ == self@.root,
    {
        &self.root
    }

    /// A router with empty name, description and version, no flags and no commands.
    pub fn new() -> (r: Commands)
        ensures
            r.wf(),
            r@.name.len() == 0,
            r@.description.len() == 0,
            r@.version.len() == 0,
            r@.global_flags.len() == 0,
            r@.root == empty_node(),
    {
        let root = CommandNode::new("");
        proof {
            lemma_node_view(&root);
            crate::parser::node::lemma_subs_view(root.subcommands@);
            assert(root@.subs =~= Seq::<(Seq<char>, NodeView)>::empty());
            assert(root@.flags =~= Seq::<FlagView>::empty());
            assert(root@.tokens =~= Seq::<TokenView>::empty());
            reveal_strlit("");
            assert(root@.doc =~= Seq::<char>::empty());
            lemma_subs_named(root@.subs);
        }
        Commands {
            name: String::new(),
            description: String::new(),
            version: String::new(),
            global_flags: Vec::new(),
            root,
        }
    }

    /// Takes name, description and version from package metadata.
    pub fn meta(self, meta: PkgMeta) -> (r: Commands)
        requires
            self.wf(),
        ensures
            r.wf(),
            r@.name == meta.name@,
            r@.description == meta.description@,
            r@.version == meta.version@,
            r@.global_flags == self@.global_flags,
            r@.root == self@.root,
    {
        let mut r = self;
        r.name = string_of(chars_of(meta.name).as_slice());
        r.description = string_of(chars_of(meta.description).as_slice());
        r.version = string_of(chars_of(meta.version).as_slice());
        r
    }

    /// Sets the application name shown in help.
    pub fn name(self, name: &str) -> (r: Commands)
        requires
            self.wf(),
        ensures
            r.wf(),
            r@.name == name@,
            r@.description == self@.description,
            r@.version == self@.version,
            r@.global_flags == self@.global_flags,
            r@.root == self@.root,
    {
        let mut r = self;
        r.name = string_of(chars_of(name).as_slice());
        r
    }

    /// Sets the application description.
    pub fn description(self, description: &str) -> (r: Commands)
        requires
            self.wf(),
        ensures
            r.wf(),
            r@.description == description@,
            r@.name == self@.name,
            r@.version == self@.version,
            r@.global_flags == self@.global_flags,
            r@.root == self@.root,
    {
        let mut r = self;
        r.description = string_of(chars_of(description).as_slice());
        r
    }

    /// Sets the application version.
    pub fn version(self, version: &str) -> (r: Commands)
        requires
            self.wf(),
        ensures
            r.wf(),
            r@.version == version@,
            r@.name == self@.name,
            r@.description == self@.description,
            r@.global_flags == self@.global_flags,
            r@.root == self@.root,
    {
        let mut r = self;
        r.version = string_of(chars_of(version).as_slice());
        r
    }

    /// Registers global flags, available to every command; texts that do not
    /// parse as flags are left out.
    pub fn args(self, flags: &[&str]) -> (r: Commands)
        requires
            self.wf(),
        ensures
            r.wf(),
            r@.global_flags == self@.global_flags + parsed_flags(flags@.map_values(|f: &str| f@)),
            r@.name == self@.name,
            r@.description == self@.description,
            r@.version == self@.version,
            r@.root == self@.root,
    {
        let ghost raws = flags@.map_values(|f: &str| f@);
        let ghost g0 = flag_views(self.global_flags@);
        let mut r = self;
        let mut i: usize = 0;
        assert(raws.take(0) =~= Seq::<Seq<char>>::empty());
        assert(g0 + parsed_flags(raws.take(0)) =~= g0);
        while i < flags.len()
            invariant
                raws == flags@.map_values(|f: &str| f@),
                i <= flags@.len(),
                flag_views(r.global_flags@) == g0 + parsed_flags(raws.take(i as int)),
                r.name == self.name,
                r.description == self.description,
                r.version == self.version,
                r.root == self.root,
            decreases flags.len() - i,
        {
            assert(raws.take(i + 1).drop_last() =~= raws.take(i as int));
            assert(raws[i as int] == flags@[i as int]@);
            let ghost before = r.global_flags@;
            match parse_single_flag(flags[i]) {
                Some(spec) => {
                    r.global_flags.push(spec);
                    assert(flag_views(r.global_flags@) =~= flag_views(before).push(spec@));
                },
                None => {},
            }
            i += 1;
        }
        assert(raws.take(flags@.len() as int) =~= raws);
        proof {
            lemma_parsed_named(raws);
            assert forall|k: int| 0 <= k < flag_views(r.global_flags@).len() implies #[trigger] flag_views(
                r.global_flags@,
            )[k].names.len() > 0 by {
                if k < g0.len() {
                    assert(flag_views(r.global_flags@)[k] == g0[k]);
                } else {
                    assert(flag_views(r.global_flags@)[k] == parsed_flags(raws)[k - g0.len()]);
                }
            }
        }
        r
    }

    /// Registers a command group (documentation only) at the literal path of `pattern`.
    pub fn group(self, pattern: &'static str, doc: &'static str) -> (r: Commands)
        requires
            self.wf(),
        ensures
            r.wf(),
            r@.root == route_insert(self@.root, parse_pattern_spec(pattern@).0, 0, RouteEnd {
                group: true,
                doc: doc@,
                flags: Seq::empty(),
                handler: None,
                hidden: false,
            }),
            r@.name == self@.name,
            r@.description == self@.description,
            r@.version == self@.version,
            r@.global_flags == self@.global_flags,
    {
        let spec = parse_pattern(pattern, doc);
        let e = RouteEndExec { group: true, doc, flags: Vec::new(), handler: None, hidden: false };
        assert(e@.flags =~= Seq::<FlagView>::empty());
        self.insert_route_spec(&spec.tokens, e)
    }

    /// Registers a command with handler number `handler` at the path of `pattern`.
    pub fn cmd(self, pattern: &'static str, doc: &'static str, handler: usize) -> (r: Commands)
        requires
            self.wf(),
        ensures
            r.wf(),
            r@.root == route_insert(self@.root, parse_pattern_spec(pattern@).0, 0, RouteEnd {
                group: false,
                doc: doc@,
                flags: parse_pattern_spec(pattern@).1,
                handler: Some(handler),
                hidden: false,
            }),
            r@.name == self@.name,
            r@.description == self@.description,
            r@.version == self@.version,
            r@.global_flags == self@.global_flags,
    {
        self.route(pattern, doc, handler, false)
    }

    /// Registers a command left out of help, with handler number `handler`.
    pub fn hide_cmd(self, pattern: &'static str, doc: &'static str, handler: usize) -> (r: Commands)
        requires
            self.wf(),
        ensures
            r.wf(),
            r@.root == route_insert(self@.root, parse_pattern_spec(pattern@).0, 0, RouteEnd {
                group: false,
                doc: doc@,
                flags: parse_pattern_spec(pattern@).1,
                handler: Some(handler),
                hidden: true,
            }),
            r@.name == self@.name,
            r@.description == self@.description,
            r@.version == self@.version,
            r@.global_flags == self@.global_flags,
    {
        self.route(pattern, doc, handler, true)
    }

    fn route(self, pattern: &'static str, doc: &'static str, handler: usize, hidden: bool) -> (r: Commands)
        requires
            self.wf(),
        ensures
            r.wf(),
            r.root@ == route_insert(self.root@, parse_pattern_spec(pattern@).0, 0, RouteEnd {
                group: false,
                doc: doc@,
                flags: parse_pattern_spec(pattern@).1,
                handler: Some(handler),
                hidden,
            }),
            r.name == self.name,
            r.description == self.description,
            r.version == self.version,
            r.global_flags == self.global_flags,
    {
        let spec = parse_pattern(pattern, doc);
        proof {
            lemma_pattern_named(crate::text::words_of(pattern@), crate::text::words_of(pattern@).len() as int);
        }
        let RouteSpec { pattern_raw: _, doc: _, tokens, flags } = spec;
        let e = RouteEndExec { group: false, doc, flags, handler: Some(handler), hidden };
        self.insert_route_spec(&tokens, e)
    }

    fn insert_route_spec(self, tokens: &Vec<TokenSpec>, e: RouteEndExec) -> (r: Commands)
        requires
            self.wf(),
            flags_named(e@.flags),
        ensures
            r.wf(),
            r.root@ == route_insert(self.root@, token_views(tokens@), 0, e@),
            r.name == self.name,
            r.description == self.description,
            r.version == self.version,
            r.global_flags == self.global_flags,
    {
        let Commands { name, description, version, global_flags, root } = self;
        proof {
            lemma_route_named(root@, token_views(tokens@), 0, e@);
            lemma_route_sorted(root@, token_views(tokens@), 0, e@);
        }
        let root = insert_tokens(root, tokens.as_slice(), 0, e);
        Commands { name, description, version, global_flags, root }
    }
}

} // verus!

verus! {

pub open spec fn min_nat(a: nat, b: nat) -> nat {
    if a <= b { a } else { b }
}

/// The Levenshtein distance of two texts, counted in characters: the fewest
/// insertions, deletions and substitutions that turn one into the other.
pub open spec fn lev(a: Seq<char>, b: Seq<char>) -> nat
    decreases a.len() + b.len(),
{
    if a.len() == 0 {
        b.len()
    } else if b.len() == 0 {
        a.len()
    } else {
        min_nat(
            min_nat(lev(a.drop_last(), b) + 1, lev(a, b.drop_last()) + 1),
            lev(a.drop_last(), b.drop_last()) + (if a.last() == b.last() { 0nat } else { 1nat }),
        )
    }
}

/// Distance through `strsim::levenshtein`, which the crate documents as the
/// fewest insertions, deletions and substitutions between the two strings
/// (it compares `char`s).
#[verifier::external_body]
fn levenshtein_distance(a: &str, b: &str) -> (r: usize)
    ensures
        r == lev(a@, b@),
{
    strsim::levenshtein(a, b)
}

/// What `heck::ToTitleCase::to_title_case` makes of a text.
pub uninterp spec fn title_case(s: Seq<char>) -> Seq<char>;

/// Converts to title case through `heck`; the result is named by `title_case`.
#[verifier::external_body]
fn to_title_case(s: &str) -> (r: String)
    ensures
        r@ == title_case(s@),
{
    heck::ToTitleCase::to_title_case(s)
}

/// Typos allowed in a command name: one for up to three bytes, two for up to six, three beyond.
pub open spec fn allowed_typos(input: Seq<char>) -> nat {
    let n = crate::parser::spec::byte_len(input);
    if n <= 3 { 1 } else if n <= 6 { 2 } else { 3 }
}

/// The closest visible subcommand name within the allowed typos, scanning
/// from `i`; the first one wins among equally close names.
pub open spec fn similar_from(subs: Seq<(Seq<char>, NodeView)>, input: Seq<char>, i: int, best: Option<Seq<char>>, min: nat) -> Option<Seq<char>>
    decreases subs.len() - i,
{
    if i < 0 || i >= subs.len() {
        best
    } else {
        let (name, child) = subs[i];
        let d = lev(input, name);
        if !child.hidden && crate::parser::node::visible_targets(child) && d <= allowed_typos(input) && d < min {
            similar_from(subs, input, i + 1, Some(name), d)
        } else {
            similar_from(subs, input, i + 1, best, min)
        }
    }
}

/// The suggestion for a mistyped command name among the subcommands of `v`.
pub open spec fn similar_command(v: NodeView, input: Seq<char>) -> Option<Seq<char>> {
    similar_from(v.subs, input, 0, None, usize::MAX as nat)
}

/// Finds the visible subcommand of `node` closest to `input` by Levenshtein
/// distance, within a number of typos that grows with the length of `input`.
pub fn find_similar_command(node: &CommandNode, input: &str) -> (r: Option<String>)
    ensures
        match r {
            Some(s) => similar_command(node@, input@) == Some(s@),
            None => similar_command(node@, input@) is None,
        },
{
    let ghost v = node@;
    proof {
        lemma_node_view(node);
    }
    let n = input.len();
    let max_allowed: usize = if n <= 3 {
        1
    } else if n <= 6 {
        2
    } else {
        3
    };
    let mut best: Option<String> = None;
    let mut min: usize = usize::MAX;
    let mut i: usize = 0;
    while i < node.subcommands.len()
        invariant
            v == node@,
            v.subs.len() == node.subcommands@.len(),
            forall|j: int| 0 <= j < node.subcommands@.len() ==> #[trigger] v.subs[j] == (node.subcommands@[j].0@, node.subcommands@[j].1@),
            max_allowed == allowed_typos(input@),
            i <= node.subcommands@.len(),
            similar_command(v, input@) == similar_from(v.subs, input@, i as int, match best {
                Some(b) => Some(b@),
                None => None,
            }, min as nat),
        decreases node.subcommands.len() - i,
    {
        let child = &node.subcommands[i].1;
        let name = &node.subcommands[i].0;
        assert(v.subs[i as int] == (name@, child@));
        if !child.hidden && child.has_visible_targets() {
            let d = levenshtein_distance(input, name.as_str());
            if d <= max_allowed && d < min {
                min = d;
                best = Some(name.clone());
            }
        }
        i += 1;
    }
    best
}

/// The command paths below a node, as shown in a group's summary: a visible
/// command (or a visible node without subcommands) gives its path; a group
/// gives the paths below its visible subcommands.
pub open spec fn leafs(v: NodeView, prefix: Seq<char>) -> Seq<Seq<char>>
    decreases v,
{
    if v.hidden || !crate::parser::node::visible_targets(v) {
        Seq::empty()
    } else if v.handler is Some || v.subs.len() == 0 {
        if prefix.len() > 0 { seq![prefix] } else { Seq::empty() }
    } else {
        leafs_subs(v.subs, prefix)
    }
}

/// The path below `prefix` of subcommand `name`.
pub open spec fn sub_path(prefix: Seq<char>, name: Seq<char>) -> Seq<char> {
    if prefix.len() == 0 { name } else { prefix + seq![' '] + name }
}

/// The command paths below the visible subcommands, in order.
pub open spec fn leafs_subs(subs: Seq<(Seq<char>, NodeView)>, prefix: Seq<char>) -> Seq<Seq<char>>
    decreases subs,
{
    if subs.len() == 0 {
        Seq::empty()
    } else {
        let (name, c) = subs.last();
        leafs_subs(subs.drop_last(), prefix) + if c.hidden || !crate::parser::node::visible_targets(c) {
            Seq::empty()
        } else {
            leafs(c, sub_path(prefix, name))
        }
    }
}

/// Appends the command paths below `node` (see `leafs`) to `acc`.
pub fn collect_subcommand_leafs(node: &CommandNode, prefix: &Vec<char>, acc: &mut Vec<Vec<char>>)
    ensures
        cviews(final(acc)@) == cviews(old(acc)@) + leafs(node@, prefix@),
    decreases node,
{
    let ghost a0 = cviews(acc@);
    proof {
        lemma_node_view(node);
    }
    if node.hidden || !node.has_visible_targets() {
        assert(cviews(acc@) =~= a0 + leafs(node@, prefix@));
        return;
    }
    if node.handler.is_some() || node.subcommands.len() == 0 {
        if prefix.len() > 0 {
            let ghost before = acc@;
            acc.push(prefix.clone());
            assert(cviews(acc@) =~= cviews(before).push(prefix@));
        }
        assert(cviews(acc@) =~= a0 + leafs(node@, prefix@));
        return;
    }
    let ghost v = node@;
    let mut i: usize = 0;
    assert(v.subs.take(0) =~= Seq::<(Seq<char>, NodeView)>::empty());
    assert(cviews(acc@) =~= a0 + leafs_subs(v.subs.take(0), prefix@));
    while i < node.subcommands.len()
        invariant
            v == node@,
            v.subs.len() == node.subcommands@.len(),
            forall|j: int| 0 <= j < node.subcommands@.len() ==> #[trigger] v.subs[j] == (node.subcommands@[j].0@, node.subcommands@[j].1@),
            i <= node.subcommands@.len(),
            cviews(acc@) == a0 + leafs_subs(v.subs.take(i as int), prefix@),
        decreases node.subcommands.len() - i,
    {
        let child = &node.subcommands[i].1;
        let name = &node.subcommands[i].0;
        assert(v.subs[i as int] == (name@, child@));
        assert(v.subs.take(i + 1).drop_last() =~= v.subs.take(i as int));
        assert(v.subs.take(i + 1).last() == v.subs[i as int]);
        let ghost mid = cviews(acc@);
        if !child.hidden && child.has_visible_targets() {
            let nv = chars_of(name.as_str());
            let next = if prefix.len() == 0 {
                nv
            } else {
                let mut p = prefix.clone();
                p.push(' ');
                crate::text::extend_chars(&mut p, nv.as_slice());
                p
            };
            assert(next@ =~= sub_path(prefix@, name@));
            proof {
                assert(decreases_to!(node => node.subcommands@[i as int].1));
            }
            collect_subcommand_leafs(child, &next, acc);
        }
        assert(cviews(acc@) =~= a0 + leafs_subs(v.subs.take(i + 1), prefix@));
        i += 1;
    }
    assert(v.subs.take(node.subcommands@.len() as int) =~= v.subs);
}

} // verus!

verus! {

pub open spec fn b(s: Seq<char>) -> Seq<char> {
    styled_spec(s, bold_spec(), true)
}

pub open spec fn bold_underlined_spec() -> TextStyle {
    TextStyle { bold: true, underlined: true, ..plain_spec() }
}

pub open spec fn dim_spec() -> TextStyle {
    TextStyle { dim: true, ..plain_spec() }
}

pub open spec fn grey_spec() -> TextStyle {
    TextStyle { fg: Some(TermColor::Grey), ..plain_spec() }
}

pub open spec fn bu(s: Seq<char>) -> Seq<char> {
    styled_spec(s, bold_underlined_spec(), true)
}

pub open spec fn dim(s: Seq<char>) -> Seq<char> {
    styled_spec(s, dim_spec(), true)
}

/// `n` spaces, none when `n` is negative.
pub open spec fn spaces(n: int) -> Seq<char> {
    crate::text::repeat_char(' ', if n < 0 { 0 } else { n as nat })
}

/// A style without colors prints the same whatever the color setting.
fn plain_styled(s: &str, st: TextStyle) -> (r: String)
    requires
        st.fg is None,
        st.bg is None,
    ensures
        r@ == styled_spec(s@, st, true),
{
    proof {
        lemma_styled_no_color(s@, st);
    }
    styled(s, st)
}

fn spaces_exec(n: usize) -> (r: Vec<char>)
    ensures
        r@ == spaces(n as int),
{
    crate::text::repeat_char_exec(' ', n)
}

fn sat_sub(a: usize, b: usize) -> (r: usize)
    ensures
        r == (if a >= b { a - b } else { 0 }),
{
    if a >= b { a - b } else { 0 }
}

/// `-s, --long` with both names in bold.
pub open spec fn option_flags(short: Seq<char>, long: Seq<char>) -> Seq<char> {
    seq!['-'] + b(short) + seq![',', ' ', '-', '-'] + b(long)
}

/// Formats a short and a long option name for help.
pub fn format_option_flags(short: &str, long: &str) -> (r: String)
    ensures
        r@ == option_flags(short@, long@),
{
    let mut v: Vec<char> = vec!['-'];
    let bs = bold(short);
    let bl = bold(long);
    crate::text::extend_chars(&mut v, chars_of(bs.as_str()).as_slice());
    let sep = vec![',', ' ', '-', '-'];
    crate::text::extend_chars(&mut v, sep.as_slice());
    crate::text::extend_chars(&mut v, chars_of(bl.as_str()).as_slice());
    assert(v@ =~= option_flags(short@, long@));
    string_of(v.as_slice())
}

/// `--name` in bold for each long name (more than one byte), in order.
pub open spec fn long_parts(names: Seq<Seq<char>>) -> Seq<Seq<char>>
    decreases names.len(),
{
    if names.len() == 0 {
        Seq::empty()
    } else if byte_len(names.last()) > 1 {
        long_parts(names.drop_last()).push(seq!['-', '-'] + b(names.last()))
    } else {
        long_parts(names.drop_last())
    }
}

/// How a flag's names appear in help: the short alias (`-x`) first when
/// there is one, then the long names (`--name`) separated by commas; without
/// a short alias the long names are indented by four spaces.
pub open spec fn flag_name(f: FlagView) -> Seq<char> {
    let long_str = crate::text::join_by(long_parts(f.names), seq![',', ' ']);
    match first_short(f.names, 0) {
        Some(i) => if long_str.len() == 0 {
            seq!['-'] + b(seq![f.names[i][0]])
        } else {
            seq!['-'] + b(seq![f.names[i][0]]) + seq![',', ' '] + long_str
        },
        None => seq![' ', ' ', ' ', ' '] + long_str,
    }
}

/// Formats a flag's names for help (see `flag_name`).
pub fn format_flag_name(flag: &FlagSpec) -> (r: String)
    ensures
        r@ == flag_name(flag@),
{
    let ghost names = flag@.names;
    let mut parts: Vec<Vec<char>> = Vec::new();
    let mut i: usize = 0;
    assert(names.take(0) =~= Seq::<Seq<char>>::empty());
    while i < flag.names.len()
        invariant
            names == flag@.names,
            names.len() == flag.names@.len(),
            i <= flag.names@.len(),
            cviews(parts@) == long_parts(names.take(i as int)),
        decreases flag.names.len() - i,
    {
        assert(names[i as int] == flag.names@[i as int]@);
        assert(names.take(i + 1).drop_last() =~= names.take(i as int));
        let n = flag.names[i].as_str();
        if n.len() > 1 {
            let mut p: Vec<char> = vec!['-', '-'];
            let bn = bold(n);
            crate::text::extend_chars(&mut p, chars_of(bn.as_str()).as_slice());
            let ghost before = parts@;
            parts.push(p);
            assert(cviews(parts@) =~= cviews(before).push(seq!['-', '-'] + b(names[i as int])));
        }
        i += 1;
    }
    assert(names.take(flag.names@.len() as int) =~= names);
    let sep = vec![',', ' '];
    let long_str = crate::text::join_by_exec(&parts, sep.as_slice());
    let mut out: Vec<char> = Vec::new();
    match flag.explicit_short() {
        Some(c) => {
            out.push('-');
            let mut cs = String::new();
            crate::text::push_char(&mut cs, c);
            assert(cs@ =~= seq![c]);
            let bc = bold(cs.as_str());
            crate::text::extend_chars(&mut out, chars_of(bc.as_str()).as_slice());
            if long_str.len() > 0 {
                out.push(',');
                out.push(' ');
                crate::text::extend_chars(&mut out, long_str.as_slice());
            }
        },
        None => {
            out.push(' ');
            out.push(' ');
            out.push(' ');
            out.push(' ');
            crate::text::extend_chars(&mut out, long_str.as_slice());
        },
    }
    assert(out@ =~= flag_name(flag@));
    string_of(out.as_slice())
}

/// The grey note after a flag in help: `(required)` or `[default: value]`.
pub open spec fn flag_note(f: FlagView) -> Seq<char> {
    match f.default {
        None => "(required)"@,
        Some(d) => "[default: "@ + d + "]"@,
    }
}

/// A flag's line in help: indent, names, padding to `target` columns, the
/// printed note `note`, a line break.
pub open spec fn flag_line(f: FlagView, target: int, note: Seq<char>) -> Seq<char> {
    seq![' ', ' '] + flag_name(f) + spaces(target - visible_width_spec(flag_name(f))) + note + seq!['\n']
}

fn flag_note_exec(flag: &FlagSpec) -> (r: String)
    ensures
        is_styled(r@, flag_note(flag@), grey_spec()),
{
    let g = TextStyle { fg: Some(TermColor::Grey), bg: None, bold: false, dim: false, italic: false, underlined: false };
    match &flag.kind {
        crate::parser::spec::FlagKind::Required => styled("(required)", g),
        crate::parser::spec::FlagKind::Optional(d) => {
            let mut t = chars_of("[default: ");
            crate::text::extend_chars(&mut t, chars_of(d.as_str()).as_slice());
            crate::text::extend_chars(&mut t, chars_of("]").as_slice());
            let ts = string_of(t.as_slice());
            styled(ts.as_str(), g)
        },
    }
}

/// Formats a flag's line for help (see `flag_line`), the note in grey.
pub fn format_flag_help(flag: &FlagSpec, target_width: usize, indent: &str) -> (r: String)
    ensures
        exists|note: Seq<char>| #![auto] is_styled(note, flag_note(flag@), grey_spec())
            && r@ == indent@ + flag_name(flag@) + spaces(target_width - visible_width_spec(flag_name(flag@))) + note + seq!['\n'],
{
    let name = format_flag_name(flag);
    let w = visible_width(name.as_str());
    let pad = spaces_exec(sat_sub(target_width, w));
    let note = flag_note_exec(flag);
    let mut out = chars_of(indent);
    crate::text::extend_chars(&mut out, chars_of(name.as_str()).as_slice());
    crate::text::extend_chars(&mut out, pad.as_slice());
    crate::text::extend_chars(&mut out, chars_of(note.as_str()).as_slice());
    out.push('\n');
    assert(out@ =~= indent@ + flag_name(flag@) + spaces(target_width - visible_width_spec(flag_name(flag@))) + note@ + seq!['\n']);
    string_of(out.as_slice())
}

} // verus!

verus! {

/// What help needs of the router: its name, version, description and global flags.
pub struct HelpCtx {
    pub name: Seq<char>,
    pub version: Seq<char>,
    pub description: Seq<char>,
    pub global: Seq<FlagView>,
}

/// The first help lines: at the root the title-cased name in bold, the grey
/// version (`vpiece`) in parentheses and the description; elsewhere the
/// node's documentation.
pub open spec fn help_header(c: HelpCtx, node: NodeView, root: bool, vpiece: Seq<char>) -> Seq<char> {
    if root {
        b(title_case(c.name)) + (if c.version.len() > 0 { " ("@ + vpiece + ")"@ } else { Seq::empty() }) + (
        if c.description.len() > 0 {
            " \u{2014} "@ + c.description
        } else {
            Seq::empty()
        }) + "\n\n"@
    } else if node.doc.len() > 0 {
        node.doc + "\n\n"@
    } else {
        Seq::empty()
    }
}

/// The positional tokens as shown in usage: ` {name}` and ` {name..}`.
pub open spec fn tokens_usage(toks: Seq<TokenView>) -> Seq<char>
    decreases toks.len(),
{
    if toks.len() == 0 {
        Seq::empty()
    } else {
        tokens_usage(toks.drop_last()) + match toks.last() {
            TokenView::Positional(p) => " {"@ + p + "}"@,
            TokenView::Rest(r) => " {"@ + r + "..}"@,
            TokenView::Literal(_) => Seq::empty(),
        }
    }
}

/// The usage line.
pub open spec fn help_usage(node: NodeView, path: Seq<char>) -> Seq<char> {
    bu("Usage:"@) + " "@ + b(path) + (if crate::parser::node::any_visible(node.subs) {
        dim(" [COMMAND]"@)
    } else {
        Seq::empty()
    }) + tokens_usage(node.tokens) + dim(" [OPTIONS]\n\n"@)
}

/// Widest visible subcommand name, in bytes, at least that of `help`.
pub open spec fn names_width(subs: Seq<(Seq<char>, NodeView)>) -> int
    decreases subs.len(),
{
    if subs.len() == 0 {
        4
    } else {
        let w = names_width(subs.drop_last());
        if crate::parser::node::visible_targets(subs.last().1) && byte_len(subs.last().0) > w {
            byte_len(subs.last().0) as int
        } else {
            w
        }
    }
}

/// A subcommand's summary: its documentation, else the commands below it in
/// brackets, else `Command group`.
pub open spec fn summary(c: NodeView) -> Seq<char> {
    if c.doc.len() > 0 {
        c.doc
    } else if leafs(c, Seq::empty()).len() == 0 {
        "Command group"@
    } else {
        "["@ + crate::text::join_by(leafs(c, Seq::empty()), ", "@) + "]"@
    }
}

/// One line per visible subcommand: bold name padded to `target` bytes, summary.
pub open spec fn sub_lines(subs: Seq<(Seq<char>, NodeView)>, target: int) -> Seq<char>
    decreases subs.len(),
{
    if subs.len() == 0 {
        Seq::empty()
    } else {
        let (name, c) = subs.last();
        sub_lines(subs.drop_last(), target) + if crate::parser::node::visible_targets(c) {
            "  "@ + b(name) + spaces(target - byte_len(name)) + summary(c) + "\n"@
        } else {
            Seq::empty()
        }
    }
}

pub open spec fn sat_add(a: int, k: int) -> int {
    if a + k > usize::MAX { usize::MAX as int } else { a + k }
}

/// The commands section, present when a subcommand is visible; the root
/// also lists `help`.
pub open spec fn help_commands(node: NodeView, root: bool) -> Seq<char> {
    if crate::parser::node::any_visible(node.subs) {
        let target = sat_add(names_width(node.subs), 4);
        bu("Commands:\n"@) + sub_lines(node.subs, target) + (if root {
            "  "@ + b("help"@) + spaces(target - 4) + "Print this message or the help of the given subcommand(s).\n"@
        } else {
            Seq::empty()
        }) + "\n"@
    } else {
        Seq::empty()
    }
}

/// Widest flag names, in columns, at least `base`.
pub open spec fn flags_width(flags: Seq<FlagView>, base: int) -> int
    decreases flags.len(),
{
    if flags.len() == 0 {
        base
    } else {
        let w = flags_width(flags.drop_last(), base);
        let x = visible_width_spec(flag_name(flags.last())) as int;
        if x > w { x } else { w }
    }
}

/// The flag lines, with the printed notes `notes` (one per flag).
pub open spec fn flag_lines(flags: Seq<FlagView>, target: int, notes: Seq<Seq<char>>) -> Seq<char>
    decreases flags.len(),
{
    if flags.len() == 0 || notes.len() < flags.len() {
        Seq::empty()
    } else {
        flag_lines(flags.drop_last(), target, notes) + flag_line(flags.last(), target, notes[flags.len() - 1])
    }
}

/// The options section: every flag, then `-h, --help` and at the root `-V, --version`.
pub open spec fn help_options(flags: Seq<FlagView>, root: bool, notes: Seq<Seq<char>>) -> Seq<char> {
    let h = option_flags("h"@, "help"@);
    let v = if root { option_flags("V"@, "version"@) } else { Seq::empty() };
    let hw = visible_width_spec(h) as int;
    let vw = visible_width_spec(v) as int;
    let target = sat_add(flags_width(flags, if hw > vw { hw } else { vw }), 4);
    bu("Options:\n"@) + flag_lines(flags, target, notes) + "  "@ + h + spaces(target - hw) + "Print help message.\n"@ + (
    if root {
        "  "@ + v + spaces(target - vw) + "Print program version.\n"@
    } else {
        Seq::empty()
    })
}

/// The help text of `node` at `path`, given the printed grey version `vpiece`
/// and the printed grey notes of its flags and the global flags.
pub open spec fn help_text(c: HelpCtx, node: NodeView, path: Seq<char>, vpiece: Seq<char>, notes: Seq<Seq<char>>) -> Seq<char> {
    let root = path == c.name;
    help_header(c, node, root, vpiece) + help_usage(node, path) + help_commands(node, root) + help_options(
        node.flags + c.global,
        root,
        notes,
    )
}

/// Whether `out` is the help text of `node` at `path`, its grey parts
/// printed by `crossterm` with color output on or off.
pub open spec fn help_ok(out: Seq<char>, c: HelpCtx, node: NodeView, path: Seq<char>) -> bool {
    exists|vpiece: Seq<char>, notes: Seq<Seq<char>>|
        #![trigger help_text(c, node, path, vpiece, notes)]
        {
            &&& is_styled(vpiece, "v"@ + c.version, grey_spec())
            &&& notes.len() == (node.flags + c.global).len()
            &&& forall|j: int| 0 <= j < notes.len() ==> is_styled(#[trigger] notes[j], flag_note((node.flags + c.global)[j]), grey_spec())
            &&& out == help_text(c, node, path, vpiece, notes)
        }
}

} // verus!

verus! {

fn push_str(out: &mut Vec<char>, s: &str)
    ensures
        final(out)@ == old(out)@ + s@,
{
    let v = chars_of(s);
    crate::text::extend_chars(out, v.as_slice());
}

fn bold_chars(s: &str) -> (r: Vec<char>)
    ensures
        r@ == b(s@),
{
    let t = bold(s);
    chars_of(t.as_str())
}

fn bu_chars(s: &str) -> (r: Vec<char>)
    ensures
        r@ == bu(s@),
{
    let st = TextStyle { fg: None, bg: None, bold: true, dim: false, italic: false, underlined: true };
    let t = plain_styled(s, st);
    chars_of(t.as_str())
}

fn dim_chars(s: &str) -> (r: Vec<char>)
    ensures
        r@ == dim(s@),
{
    let st = TextStyle { fg: None, bg: None, bold: false, dim: true, italic: false, underlined: false };
    let t = plain_styled(s, st);
    chars_of(t.as_str())
}

fn tokens_usage_exec(toks: &Vec<TokenSpec>) -> (r: Vec<char>)
    ensures
        r@ == tokens_usage(token_views(toks@)),
{
    let ghost tv = token_views(toks@);
    let mut out: Vec<char> = Vec::new();
    let mut i: usize = 0;
    assert(tv.take(0) =~= Seq::<TokenView>::empty());
    while i < toks.len()
        invariant
            tv == token_views(toks@),
            i <= toks@.len(),
            out@ == tokens_usage(tv.take(i as int)),
        decreases toks.len() - i,
    {
        assert(tv[i as int] == toks@[i as int]@);
        assert(tv.take(i + 1).drop_last() =~= tv.take(i as int));
        let ghost before = out@;
        match &toks[i] {
            TokenSpec::Positional(p) => {
                push_str(&mut out, " {");
                push_str(&mut out, p.as_str());
                push_str(&mut out, "}");
                assert(out@ =~= before + (" {"@ + p@ + "}"@));
            },
            TokenSpec::Rest(r) => {
                push_str(&mut out, " {");
                push_str(&mut out, r.as_str());
                push_str(&mut out, "..}");
                assert(out@ =~= before + (" {"@ + r@ + "..}"@));
            },
            TokenSpec::Literal(_) => {
                assert(out@ =~= before + Seq::<char>::empty());
            },
        }
        i += 1;
    }
    assert(tv.take(toks@.len() as int) =~= tv);
    out
}

/// Whether some subcommand has visible targets.
fn any_visible_exec(node: &CommandNode) -> (r: bool)
    ensures
        r == crate::parser::node::any_visible(node@.subs),
{
    let ghost v = node@;
    proof {
        lemma_node_view(node);
        crate::parser::node::lemma_any_visible(v.subs);
    }
    let mut i: usize = 0;
    while i < node.subcommands.len()
        invariant
            v == node@,
            v.subs.len() == node.subcommands@.len(),
            forall|j: int| 0 <= j < node.subcommands@.len() ==> #[trigger] v.subs[j] == (node.subcommands@[j].0@, node.subcommands@[j].1@),
            i <= node.subcommands@.len(),
            forall|j: int| 0 <= j < i ==> !crate::parser::node::visible_targets(#[trigger] v.subs[j].1),
            crate::parser::node::any_visible(v.subs) <==> exists|j: int| 0 <= j < v.subs.len() && #[trigger] crate::parser::node::visible_targets(v.subs[j].1),
        decreases node.subcommands.len() - i,
    {
        assert(v.subs[i as int].1 == node.subcommands@[i as int].1@);
        if node.subcommands[i].1.has_visible_targets() {
            return true;
        }
        i += 1;
    }
    false
}

fn names_width_exec(node: &CommandNode) -> (r: usize)
    ensures
        r == names_width(node@.subs),
{
    let ghost v = node@;
    proof {
        lemma_node_view(node);
    }
    let mut w: usize = 4;
    let mut i: usize = 0;
    assert(v.subs.take(0) =~= Seq::<(Seq<char>, NodeView)>::empty());
    while i < node.subcommands.len()
        invariant
            v == node@,
            v.subs.len() == node.subcommands@.len(),
            forall|j: int| 0 <= j < node.subcommands@.len() ==> #[trigger] v.subs[j] == (node.subcommands@[j].0@, node.subcommands@[j].1@),
            i <= node.subcommands@.len(),
            w == names_width(v.subs.take(i as int)),
        decreases node.subcommands.len() - i,
    {
        assert(v.subs[i as int] == (node.subcommands@[i as int].0@, node.subcommands@[i as int].1@));
        assert(v.subs.take(i + 1).drop_last() =~= v.subs.take(i as int));
        let n = node.subcommands[i].0.as_str().len();
        if node.subcommands[i].1.has_visible_targets() && n > w {
            w = n;
        }
        i += 1;
    }
    assert(v.subs.take(node.subcommands@.len() as int) =~= v.subs);
    w
}

fn summary_exec(c: &CommandNode) -> (r: Vec<char>)
    ensures
        r@ == summary(c@),
{
    proof {
        lemma_node_view(c);
    }
    if !c.doc.is_empty() {
        return chars_of(c.doc);
    }
    let mut leafs_acc: Vec<Vec<char>> = Vec::new();
    let empty: Vec<char> = Vec::new();
    collect_subcommand_leafs(c, &empty, &mut leafs_acc);
    assert(cviews(leafs_acc@) =~= leafs(c@, Seq::empty()));
    if leafs_acc.len() == 0 {
        chars_of("Command group")
    } else {
        let sep = chars_of(", ");
        let joined = crate::text::join_by_exec(&leafs_acc, sep.as_slice());
        let mut out = chars_of("[");
        crate::text::extend_chars(&mut out, joined.as_slice());
        push_str(&mut out, "]");
        out
    }
}

fn sub_lines_exec(node: &CommandNode, target: usize) -> (r: Vec<char>)
    ensures
        r@ == sub_lines(node@.subs, target as int),
{
    let ghost v = node@;
    proof {
        lemma_node_view(node);
    }
    let mut out: Vec<char> = Vec::new();
    let mut i: usize = 0;
    assert(v.subs.take(0) =~= Seq::<(Seq<char>, NodeView)>::empty());
    while i < node.subcommands.len()
        invariant
            v == node@,
            v.subs.len() == node.subcommands@.len(),
            forall|j: int| 0 <= j < node.subcommands@.len() ==> #[trigger] v.subs[j] == (node.subcommands@[j].0@, node.subcommands@[j].1@),
            i <= node.subcommands@.len(),
            out@ == sub_lines(v.subs.take(i as int), target as int),
        decreases node.subcommands.len() - i,
    {
        let name = &node.subcommands[i].0;
        let child = &node.subcommands[i].1;
        assert(v.subs[i as int] == (name@, child@));
        assert(v.subs.take(i + 1).drop_last() =~= v.subs.take(i as int));
        let ghost before = out@;
        if child.has_visible_targets() {
            push_str(&mut out, "  ");
            let bn = bold_chars(name.as_str());
            crate::text::extend_chars(&mut out, bn.as_slice());
            let pad = spaces_exec(sat_sub(target, name.as_str().len()));
            crate::text::extend_chars(&mut out, pad.as_slice());
            let sm = summary_exec(child);
            crate::text::extend_chars(&mut out, sm.as_slice());
            push_str(&mut out, "\n");
            assert(out@ =~= before + ("  "@ + b(name@) + spaces(target - byte_len(name@)) + summary(child@) + "\n"@));
        } else {
            assert(out@ =~= before + Seq::<char>::empty());
        }
        i += 1;
    }
    assert(v.subs.take(node.subcommands@.len() as int) =~= v.subs);
    out
}

fn help_commands_exec(node: &CommandNode, root: bool) -> (r: Vec<char>)
    ensures
        r@ == help_commands(node@, root),
{
    let mut out: Vec<char> = Vec::new();
    if !any_visible_exec(node) {
        return out;
    }
    let target = names_width_exec(node).saturating_add(4);
    out = bu_chars("Commands:\n");
    let lines = sub_lines_exec(node, target);
    crate::text::extend_chars(&mut out, lines.as_slice());
    if root {
        let ghost before = out@;
        push_str(&mut out, "  ");
        let bh = bold_chars("help");
        crate::text::extend_chars(&mut out, bh.as_slice());
        let pad = spaces_exec(sat_sub(target, 4));
        crate::text::extend_chars(&mut out, pad.as_slice());
        push_str(&mut out, "Print this message or the help of the given subcommand(s).\n");
        assert(out@ =~= before + ("  "@ + b("help"@) + spaces(target - 4) + "Print this message or the help of the given subcommand(s).\n"@));
    }
    push_str(&mut out, "\n");
    out
}

} // verus!

verus! {

#[verifier::rlimit(30)]
fn flags_width_exec(a: &[FlagSpec], b: &[FlagSpec], base: usize) -> (r: usize)
    requires
        a@.len() + b@.len() <= usize::MAX,
    ensures
        r == flags_width(flag_views(a@) + flag_views(b@), base as int),
{
    let ghost fl = flag_views(a@) + flag_views(b@);
    let mut w = base;
    let mut i: usize = 0;
    assert(fl.take(0) =~= Seq::<FlagView>::empty());
    while i < a.len() + b.len()
        invariant
            fl == flag_views(a@) + flag_views(b@),
            fl.len() == a@.len() + b@.len(),
            a@.len() + b@.len() <= usize::MAX,
            i <= a@.len() + b@.len(),
            w == flags_width(fl.take(i as int), base as int),
        decreases a@.len() + b@.len() - i,
    {
        let f = if i < a.len() { &a[i] } else { &b[i - a.len()] };
        assert(fl[i as int] == f@);
        assert(fl.take(i + 1).drop_last() =~= fl.take(i as int));
        let name = format_flag_name(f);
        let x = visible_width(name.as_str());
        if x > w {
            w = x;
        }
        i += 1;
    }
    assert(fl.take(fl.len() as int) =~= fl);
    w
}

fn flag_lines_exec(a: &[FlagSpec], b: &[FlagSpec], target: usize, notes: &Vec<String>) -> (r: Vec<char>)
    requires
        a@.len() + b@.len() <= usize::MAX,
        notes@.len() == a@.len() + b@.len(),
    ensures
        r@ == flag_lines(flag_views(a@) + flag_views(b@), target as int, views(notes@)),
{
    let ghost fl = flag_views(a@) + flag_views(b@);
    let ghost nv = views(notes@);
    let mut out: Vec<char> = Vec::new();
    let mut i: usize = 0;
    assert(fl.take(0) =~= Seq::<FlagView>::empty());
    while i < a.len() + b.len()
        invariant
            fl == flag_views(a@) + flag_views(b@),
            nv == views(notes@),
            fl.len() == a@.len() + b@.len(),
            a@.len() + b@.len() <= usize::MAX,
            nv.len() == fl.len(),
            i <= fl.len(),
            out@ == flag_lines(fl.take(i as int), target as int, nv),
        decreases a@.len() + b@.len() - i,
    {
        let f = if i < a.len() { &a[i] } else { &b[i - a.len()] };
        assert(fl[i as int] == f@);
        assert(fl.take(i + 1).drop_last() =~= fl.take(i as int));
        assert(nv[i as int] == notes@[i as int]@);
        let ghost before = out@;
        out.push(' ');
        out.push(' ');
        let name = format_flag_name(f);
        crate::text::extend_chars(&mut out, chars_of(name.as_str()).as_slice());
        let pad = spaces_exec(sat_sub(target, visible_width(name.as_str())));
        crate::text::extend_chars(&mut out, pad.as_slice());
        crate::text::extend_chars(&mut out, chars_of(notes[i].as_str()).as_slice());
        out.push('\n');
        assert(out@ =~= before + flag_line(f@, target as int, nv[i as int]));
        i += 1;
    }
    assert(fl.take(fl.len() as int) =~= fl);
    out
}

fn help_options_exec(a: &[FlagSpec], b: &[FlagSpec], root: bool, notes: &Vec<String>) -> (r: Vec<char>)
    requires
        a@.len() + b@.len() <= usize::MAX,
        notes@.len() == a@.len() + b@.len(),
    ensures
        r@ == help_options(flag_views(a@) + flag_views(b@), root, views(notes@)),
{
    let h = format_option_flags("h", "help");
    let v = if root { format_option_flags("V", "version") } else { String::new() };
    let hw = visible_width(h.as_str());
    let vw = visible_width(v.as_str());
    let base = if hw > vw { hw } else { vw };
    let target = flags_width_exec(a, b, base).saturating_add(4);
    let mut out = bu_chars("Options:\n");
    let lines = flag_lines_exec(a, b, target, notes);
    crate::text::extend_chars(&mut out, lines.as_slice());
    push_str(&mut out, "  ");
    crate::text::extend_chars(&mut out, chars_of(h.as_str()).as_slice());
    let pad = spaces_exec(sat_sub(target, hw));
    crate::text::extend_chars(&mut out, pad.as_slice());
    push_str(&mut out, "Print help message.\n");
    if root {
        let ghost before = out@;
        push_str(&mut out, "  ");
        crate::text::extend_chars(&mut out, chars_of(v.as_str()).as_slice());
        let pad2 = spaces_exec(sat_sub(target, vw));
        crate::text::extend_chars(&mut out, pad2.as_slice());
        push_str(&mut out, "Print program version.\n");
        assert(out@ =~= before + ("  "@ + v@ + spaces(target - vw) + "Print program version.\n"@));
    }
    proof {
        if !root {
            assert(v@ =~= Seq::<char>::empty());
        }
    }
    out
}

impl Commands {
    /// What help needs of the router.
    pub open spec fn help_ctx(&self) -> HelpCtx {
        HelpCtx {
            name: self@.name,
            version: self@.version,
            description: self@.description,
            global: self@.global_flags,
        }
    }

    fn help_header_exec(&self, node: &CommandNode, root: bool, vpiece: &String) -> (r: Vec<char>)
        ensures
            r@ == help_header(self.help_ctx(), node@, root, vpiece@),
    {
        proof {
            lemma_node_view(node);
        }
        let mut out: Vec<char> = Vec::new();
        if root {
            let t = to_title_case(self.name.as_str());
            out = bold_chars(t.as_str());
            if !self.version.as_str().is_empty() {
                let ghost before = out@;
                push_str(&mut out, " (");
                push_str(&mut out, vpiece.as_str());
                push_str(&mut out, ")");
                assert(out@ =~= before + (" ("@ + vpiece@ + ")"@));
            }
            if !self.description.as_str().is_empty() {
                let ghost before = out@;
                push_str(&mut out, " \u{2014} ");
                push_str(&mut out, self.description.as_str());
                assert(out@ =~= before + (" \u{2014} "@ + self.description@));
            }
            push_str(&mut out, "\n\n");
        } else if !node.doc.is_empty() {
            push_str(&mut out, node.doc);
            push_str(&mut out, "\n\n");
        }
        out
    }

    fn help_usage_exec(node: &CommandNode, path: &str) -> (r: Vec<char>)
        ensures
            r@ == help_usage(node@, path@),
    {
        proof {
            lemma_node_view(node);
        }
        let mut out = bu_chars("Usage:");
        push_str(&mut out, " ");
        let bp = bold_chars(path);
        crate::text::extend_chars(&mut out, bp.as_slice());
        if any_visible_exec(node) {
            let d = dim_chars(" [COMMAND]");
            crate::text::extend_chars(&mut out, d.as_slice());
        }
        let tu = tokens_usage_exec(&node.positional_tokens);
        crate::text::extend_chars(&mut out, tu.as_slice());
        let d2 = dim_chars(" [OPTIONS]\n\n");
        crate::text::extend_chars(&mut out, d2.as_slice());
        out
    }

    /// The help text of `node` at the command path `path` (see `help_text`).
    pub fn generate_node_help(&self, node: &CommandNode, path: &str) -> (r: String)
        requires
            node.flags@.len() + self@.global_flags.len() <= usize::MAX,
        ensures
            help_ok(r@, self.help_ctx(), node@, path@),
    {
        proof {
            lemma_node_view(node);
        }
        let root = crate::parser::context::str_eq(self.name.as_str(), path);
        let g = TextStyle { fg: Some(TermColor::Grey), bg: None, bold: false, dim: false, italic: false, underlined: false };
        let mut vt = chars_of("v");
        crate::text::extend_chars(&mut vt, chars_of(self.version.as_str()).as_slice());
        let vts = string_of(vt.as_slice());
        let vpiece = styled(vts.as_str(), g);
        let a = node.flags.as_slice();
        let bflags = self.global_flags.as_slice();
        let ghost fl = flag_views(a@) + flag_views(bflags@);
        assert(fl == node@.flags + self.help_ctx().global);
        let mut notes: Vec<String> = Vec::new();
        let mut i: usize = 0;
        while i < a.len() + bflags.len()
            invariant
                fl == flag_views(a@) + flag_views(bflags@),
                fl.len() == a@.len() + bflags@.len(),
                a@.len() + bflags@.len() <= usize::MAX,
                i <= fl.len(),
                notes@.len() == i,
                forall|j: int| 0 <= j < i ==> is_styled(#[trigger] views(notes@)[j], flag_note(fl[j]), grey_spec()),
            decreases a@.len() + bflags@.len() - i,
        {
            let f = if i < a.len() { &a[i] } else { &bflags[i - a.len()] };
            assert(fl[i as int] == f@);
            let note = flag_note_exec(f);
            let ghost before = notes@;
            notes.push(note);
            assert forall|j: int| 0 <= j < i + 1 implies is_styled(#[trigger] views(notes@)[j], flag_note(fl[j]), grey_spec()) by {
                if j < i {
                    assert(views(notes@)[j] == views(before)[j]);
                }
            }
            i += 1;
        }
        let mut out = self.help_header_exec(node, root, &vpiece);
        let us = Self::help_usage_exec(node, path);
        crate::text::extend_chars(&mut out, us.as_slice());
        let cs = help_commands_exec(node, root);
        crate::text::extend_chars(&mut out, cs.as_slice());
        let os = help_options_exec(a, bflags, root, &notes);
        crate::text::extend_chars(&mut out, os.as_slice());
        assert(out@ =~= help_text(self.help_ctx(), node@, path@, vpiece@, views(notes@)));
        assert(vt@ =~= "v"@ + self.version@);
        string_of(out.as_slice())
    }
}

} // verus!

verus! {

/// Follows the leading words that name subcommands, from word `idx`: stops
/// at a word starting with `-`, at the end, or at a word that names no
/// subcommand (returned as the failed word).  Gives the node reached, the
/// index of the first word not consumed, and the failed word.
pub open spec fn walk(v: NodeView, args: Seq<Seq<char>>, idx: int) -> (NodeView, int, Option<Seq<char>>)
    decreases args.len() - idx,
{
    if idx < 0 || idx >= args.len() || starts_with_dash(args[idx]) {
        (v, idx, None)
    } else {
        match find_child(v.subs, args[idx], 0) {
            Some(i) => walk(v.subs[i].1, args, idx + 1),
            None => (v, idx, Some(args[idx])),
        }
    }
}

/// Whether a word asks for help.
pub open spec fn is_help_word(t: Seq<char>) -> bool {
    t == "--help"@ || t == "-h"@ || t == "help"@
}

/// The result of dispatching command-line arguments.
pub enum Dispatch {
    /// Print this version text.
    Version(String),
    /// Print this help text.
    Help(String),
    /// Run the handler with this number in this context.
    Run(usize, Context),
    /// Fail with this error.
    Fail(ParseError),
}

pub open spec fn green_bold_spec() -> TextStyle {
    TextStyle { fg: Some(TermColor::Green), bold: true, ..plain_spec() }
}

pub open spec fn cyan_bold_spec() -> TextStyle {
    TextStyle { fg: Some(TermColor::Cyan), bold: true, ..plain_spec() }
}

/// The hint after an unknown command: the suggestion in green, or the help
/// command to run in cyan.
pub open spec fn hint_ok(hint: Seq<char>, path: Seq<char>, suggestion: Option<Seq<char>>) -> bool {
    match suggestion {
        Some(s) => exists|g: Seq<char>|
            is_styled(g, path + " "@ + s, green_bold_spec()) && hint == #[trigger] ("  "@ + b("Did you mean"@) + " "@ + g + b("?"@)),
        None => exists|g: Seq<char>|
            is_styled(g, path + " --help"@, cyan_bold_spec()) && hint == #[trigger] ("  "@ + b("Run"@) + " '"@ + g + "' "@
                + b("to see available commands."@)),
    }
}

/// What dispatching `args` gives: the version for `-V`/`--version` first;
/// (where a node's flags and the global flags together could not be
/// numbered, which no memory can hold, an unknown-command error naming all
/// the arguments);
/// help of the root for no arguments; otherwise, after walking the
/// subcommand names, help when asked for on a node that is no command,
/// the validation of the remaining words for a command (help, an error, or
/// the handler to run), an unknown-command error with a hint for a
/// mistyped name, help for a group, and an unknown-command error otherwise.
pub open spec fn dispatch_ok(c: &Commands, args: Seq<Seq<char>>, r: &Dispatch) -> bool {
    let ctx = c.help_ctx();
    if args.len() > 0 && (args[0] == "-V"@ || args[0] == "--version"@) {
        match r {
            Dispatch::Version(s) => s@ == c@.name + " "@ + c@.version,
            _ => false,
        }
    } else if args.len() == 0 {
        if !flags_fit(c@.root, ctx) {
            unknown_all(args, r)
        } else {
            match r {
                Dispatch::Help(s) => help_ok(s@, ctx, c@.root, c@.name),
                _ => false,
            }
        }
    } else {
        let (node, idx, failed) = walk(c@.root, args, 0);
        let path = crate::text::join_with(seq![c@.name] + args.take(idx), ' ');
        let remaining = args.skip(idx);
        let wants_help = exists|t: int| 0 <= t < remaining.len() && is_help_word(#[trigger] remaining[t]);
        if !flags_fit(node, ctx) {
            unknown_all(args, r)
        } else if wants_help && (node.handler is None || remaining.len() == 0) {
            match r {
                Dispatch::Help(s) => help_ok(s@, ctx, node, path),
                _ => false,
            }
        } else if node.handler is Some {
            match validate_spec(node.flags, node.tokens, ctx.global, remaining) {
                Err(e) => match r {
                    Dispatch::Fail(x) => x@ == e,
                    _ => false,
                },
                Ok((pairs, help)) => if help {
                    match r {
                        Dispatch::Help(s) => help_ok(s@, ctx, node, path),
                        _ => false,
                    }
                } else {
                    match r {
                        Dispatch::Run(h, cx) => h == node.handler->0 && pair_views(cx.args@) == pairs,
                        _ => false,
                    }
                },
            }
        } else if failed is Some || node.subs.len() > 0 {
            match failed {
                Some(typo) => match r {
                    Dispatch::Fail(ParseError::ErrorWithHelp(inner, hint)) => (*inner)@ == ParseFailure::UnknownCommand(typo)
                        && hint_ok(hint@, path, similar_command(node, typo)),
                    _ => false,
                },
                None => match r {
                    Dispatch::Help(s) => help_ok(s@, ctx, node, path),
                    _ => false,
                },
            }
        } else {
            unknown_all(args, r)
        }
    }
}

/// Whether the flags of a node and the global flags can be numbered by `usize`.
pub open spec fn flags_fit(node: NodeView, ctx: HelpCtx) -> bool {
    node.flags.len() + ctx.global.len() <= usize::MAX
}

/// The unknown-command error naming all the arguments.
pub open spec fn unknown_all(args: Seq<Seq<char>>, r: &Dispatch) -> bool {
    match r {
        Dispatch::Fail(x) => x@ == ParseFailure::UnknownCommand(crate::text::join_with(args, ' ')),
        _ => false,
    }
}

} // verus!

verus! {

proof fn lemma_walk_named(v: NodeView, args: Seq<Seq<char>>, idx: int)
    requires
        tree_named(v),
    ensures
        tree_named(walk(v, args, idx).0),
    decreases args.len() - idx,
{
    if idx >= 0 && idx < args.len() && !starts_with_dash(args[idx]) {
        lemma_find_child(v.subs, args[idx], 0);
        if let Some(i) = find_child(v.subs, args[idx], 0) {
            lemma_subs_named(v.subs);
            lemma_walk_named(v.subs[i].1, args, idx + 1);
        }
    }
}

fn chars_eq_str(a: &Vec<char>, s: &str) -> (r: bool)
    ensures
        r == (a@ == s@),
{
    let b = chars_of(s);
    if a.len() != b.len() {
        return false;
    }
    let mut i: usize = 0;
    while i < a.len()
        invariant
            i <= a@.len() == b@.len(),
            b@ == s@,
            forall|t: int| 0 <= t < i ==> a@[t] == b@[t],
        decreases a.len() - i,
    {
        if a[i] != b[i] {
            return false;
        }
        i += 1;
    }
    assert(a@ =~= b@);
    true
}

fn styled_chars(s: &Vec<char>, st: TextStyle) -> (r: Vec<char>)
    ensures
        is_styled(r@, s@, st),
{
    let t = string_of(s.as_slice());
    let u = styled(t.as_str(), st);
    chars_of(u.as_str())
}

impl Commands {
    /// The hint after the mistyped command `typo` under `node` at `path`.
    fn typo_hint(node: &CommandNode, typo: &str, path: &Vec<char>) -> (r: String)
        ensures
            hint_ok(r@, path@, similar_command(node@, typo@)),
    {
        let mut out: Vec<char> = vec![' ', ' '];
        assert(out@ =~= "  "@) by {
            reveal_strlit("  ");
        }
        match find_similar_command(node, typo) {
            Some(sugg) => {
                push_bold(&mut out, "Did you mean");
                push_str(&mut out, " ");
                let mut t = path.clone();
                push_str(&mut t, " ");
                push_str(&mut t, sugg.as_str());
                let gs = TextStyle { fg: Some(TermColor::Green), bg: None, bold: true, dim: false, italic: false, underlined: false };
                let g = styled_chars(&t, gs);
                crate::text::extend_chars(&mut out, g.as_slice());
                push_bold(&mut out, "?");
                assert(out@ =~= "  "@ + b("Did you mean"@) + " "@ + g@ + b("?"@));
            },
            None => {
                push_bold(&mut out, "Run");
                push_str(&mut out, " '");
                let mut t = path.clone();
                push_str(&mut t, " --help");
                let cs = TextStyle { fg: Some(TermColor::Cyan), bg: None, bold: true, dim: false, italic: false, underlined: false };
                let g = styled_chars(&t, cs);
                crate::text::extend_chars(&mut out, g.as_slice());
                push_str(&mut out, "' ");
                push_bold(&mut out, "to see available commands.");
                assert(out@ =~= "  "@ + b("Run"@) + " '"@ + g@ + "' "@ + b("to see available commands."@));
            },
        }
        string_of(out.as_slice())
    }

    /// Dispatches command-line arguments (the program name left out) to the
    /// version, help, a command's handler or an error (see `dispatch_ok`).
    pub fn dispatch(&self, args: &[String]) -> (r: Dispatch)
        requires
            self.wf(),
        ensures
            dispatch_ok(self, views(args@), &r),
    {
        let ghost av = views(args@);
        let ghost ctx = self.help_ctx();
        if args.len() > 0 {
            let a0 = chars_of(args[0].as_str());
            assert(av[0] == a0@);
            if chars_eq_str(&a0, "-V") || chars_eq_str(&a0, "--version") {
                let mut v = chars_of(self.name.as_str());
                push_str(&mut v, " ");
                push_str(&mut v, self.version.as_str());
                return Dispatch::Version(string_of(v.as_slice()));
            }
        }
        if args.len() == 0 {
            if self.root.flags.len() > usize::MAX - self.global_flags.len() {
                return Dispatch::Fail(ParseError::UnknownCommand(String::new()));
            }
            return Dispatch::Help(self.generate_node_help(&self.root, self.name.as_str()));
        }
        let mut current: &CommandNode = &self.root;
        let mut idx: usize = 0;
        let mut failed = false;
        let mut path = chars_of(self.name.as_str());
        assert(seq![self.name@] + av.take(0) =~= seq![self.name@]);
        while idx < args.len()
            invariant_except_break
                !failed,
            invariant
                av == views(args@),
                idx <= args@.len(),
                walk(self.root@, av, 0) == walk(current@, av, idx as int),
                path@ == crate::text::join_with(seq![self.name@] + av.take(idx as int), ' '),
            ensures
                idx <= args@.len(),
                path@ == crate::text::join_with(seq![self@.name] + av.take(idx as int), ' '),
                walk(self@.root, av, 0) == (current@, idx as int, if failed { Some(av[idx as int]) } else { None::<Seq<char>> }),
                failed ==> idx < args@.len(),
            decreases args.len() - idx,
        {
            let tok = chars_of(args[idx].as_str());
            assert(av[idx as int] == tok@);
            if tok.len() > 0 && tok[0] == '-' {
                break;
            }
            proof {
                lemma_node_view(current);
                crate::parser::node::lemma_subs_view(current.subcommands@);
                lemma_find_child(current@.subs, tok@, 0);
            }
            match find_child_exec(&current.subcommands, &args[idx]) {
                Some(i) => {
                    let ghost prev = seq![self.name@] + av.take(idx as int);
                    assert(prev + seq![tok@] =~= seq![self.name@] + av.take(idx + 1));
                    assert((prev + seq![tok@]).drop_last() =~= prev);
                    path.push(' ');
                    crate::text::extend_chars(&mut path, tok.as_slice());
                    current = &current.subcommands[i].1;
                    idx += 1;
                },
                None => {
                    failed = true;
                    break;
                },
            }
        }
        self.finish_dispatch(args, current, idx, failed, &path)
    }
}

fn push_bold(out: &mut Vec<char>, s: &str)
    ensures
        final(out)@ == old(out)@ + b(s@),
{
    let t = bold_chars(s);
    crate::text::extend_chars(out, t.as_slice());
}

} // verus!

verus! {

fn join_args(args: &[String]) -> (r: String)
    ensures
        r@ == crate::text::join_with(views(args@), ' '),
{
    let mut v: Vec<Vec<char>> = Vec::new();
    let mut i: usize = 0;
    while i < args.len()
        invariant
            i <= args@.len(),
            cviews(v@) == views(args@).take(i as int),
        decreases args.len() - i,
    {
        let ghost before = v@;
        let c = chars_of(args[i].as_str());
        assert(views(args@)[i as int] == c@);
        v.push(c);
        assert(cviews(v@).drop_last() =~= cviews(before));
        assert(views(args@).take(i + 1).drop_last() =~= views(args@).take(i as int));
        assert(cviews(v@) =~= views(args@).take(i + 1));
        i += 1;
    }
    assert(views(args@).take(args@.len() as int) =~= views(args@));
    let j = crate::text::join_with_exec(&v, ' ');
    string_of(j.as_slice())
}

impl Commands {
    fn finish_dispatch(&self, args: &[String], current: &CommandNode, idx: usize, failed: bool, path: &Vec<char>) -> (r: Dispatch)
        requires
            self.wf(),
            args@.len() > 0,
            !(views(args@)[0] == "-V"@ || views(args@)[0] == "--version"@),
            idx <= args@.len(),
            path@ == crate::text::join_with(seq![self.name@] + views(args@).take(idx as int), ' '),
            walk(self.root@, views(args@), 0) == (current@, idx as int, if failed { Some(views(args@)[idx as int]) } else { None::<Seq<char>> }),
            failed ==> idx < args@.len(),
        ensures
            dispatch_ok(self, views(args@), &r),
    {
        let ghost av = views(args@);
        proof {
            lemma_walk_named(self.root@, av, 0);
            lemma_node_view(current);
        }
        if current.flags.len() > usize::MAX - self.global_flags.len() {
            return Dispatch::Fail(ParseError::UnknownCommand(join_args(args)));
        }
        let mut rem: Vec<String> = Vec::new();
        let mut k = idx;
        let mut wants_help = false;
        while k < args.len()
            invariant
                av == views(args@),
                idx <= k <= args@.len(),
                views(rem@) == av.subrange(idx as int, k as int),
                wants_help == exists|t: int| idx <= t < k && is_help_word(#[trigger] av[t]),
            decreases args.len() - k,
        {
            let c = chars_of(args[k].as_str());
            assert(av[k as int] == c@);
            if chars_eq_str(&c, "--help") || chars_eq_str(&c, "-h") || chars_eq_str(&c, "help") {
                wants_help = true;
            }
            let ghost before = rem@;
            let a = args[k].clone();
            assert(a@ == av[k as int]);
            rem.push(a);
            assert(views(rem@).drop_last() =~= views(before));
            assert(av.subrange(idx as int, k + 1).drop_last() =~= av.subrange(idx as int, k as int));
            assert(views(rem@) =~= av.subrange(idx as int, k + 1));
            k += 1;
        }
        let ghost remaining = av.skip(idx as int);
        assert(views(rem@) =~= remaining);
        assert(wants_help == exists|t: int| 0 <= t < remaining.len() && is_help_word(#[trigger] remaining[t])) by {
            if wants_help {
                let t = choose|t: int| idx <= t < args@.len() && is_help_word(#[trigger] av[t]);
                assert(remaining[t - idx] == av[t]);
            }
            if exists|t: int| 0 <= t < remaining.len() && is_help_word(#[trigger] remaining[t]) {
                let t = choose|t: int| 0 <= t < remaining.len() && is_help_word(#[trigger] remaining[t]);
                assert(remaining[t] == av[t + idx]);
            }
        }
        let path_s = string_of(path.as_slice());
        if wants_help && (current.handler.is_none() || rem.len() == 0) {
            return Dispatch::Help(self.generate_node_help(current, path_s.as_str()));
        }
        match current.handler {
            Some(h) => {
                proof {
                    assert(flag_views(current.flags@ + self.global_flags@) =~= flag_views(current.flags@) + flag_views(self.global_flags@));
                }
                match parse_and_validate_node(current, self.global_flags.as_slice(), rem.as_slice()) {
                    Err(e) => Dispatch::Fail(e),
                    Ok((cx, help)) => {
                        if help {
                            Dispatch::Help(self.generate_node_help(current, path_s.as_str()))
                        } else {
                            Dispatch::Run(h, cx)
                        }
                    },
                }
            },
            None => {
                if failed {
                    let typo = args[idx].as_str();
                    assert(av[idx as int] == typo@);
                    let hint = Self::typo_hint(current, typo, path);
                    let inner = ParseError::UnknownCommand(args[idx].clone());
                    Dispatch::Fail(ParseError::ErrorWithHelp(Box::new(inner), hint))
                } else if current.subcommands.len() > 0 {
                    Dispatch::Help(self.generate_node_help(current, path_s.as_str()))
                } else {
                    Dispatch::Fail(ParseError::UnknownCommand(join_args(args)))
                }
            },
        }
    }
}

} // verus!

verus! {

/// The route of a path of subcommand names.
pub open spec fn literal_route(names: Seq<Seq<char>>) -> Seq<TokenView> {
    names.map_values(|n: Seq<char>| TokenView::Literal(n))
}

proof fn lemma_find_first(subs: Seq<(Seq<char>, NodeView)>, name: Seq<char>, k: int, i: int)
    requires
        0 <= k <= i < subs.len(),
        subs[i].0 == name,
        forall|j: int| k <= j < i ==> subs[j].0 != name,
    ensures
        find_child(subs, name, k) == Some(i),
    decreases i - k,
{
    if k < i {
        lemma_find_first(subs, name, k + 1, i);
    }
}

proof fn lemma_found_is_first(subs: Seq<(Seq<char>, NodeView)>, name: Seq<char>, k: int)
    requires
        0 <= k,
    ensures
        find_child(subs, name, k) matches Some(i) ==> forall|j: int| k <= j < i ==> subs[j].0 != name,
    decreases subs.len() - k,
{
    if k < subs.len() && subs[k].0 != name {
        lemma_found_is_first(subs, name, k + 1);
    }
}

/// After setting the subcommand `name`, looking `name` up finds what was set.
proof fn lemma_with_child_found(v: NodeView, name: Seq<char>, child: NodeView)
    ensures
        find_child(with_child(v, name, child).subs, name, 0) matches Some(i) && with_child(v, name, child).subs[i].1 == child,
{
    lemma_find_child(v.subs, name, 0);
    match find_child(v.subs, name, 0) {
        Some(i) => {
            lemma_found_is_first(v.subs, name, 0);
            let s2 = v.subs.update(i, (name, child));
            lemma_find_first(s2, name, 0, i);
        },
        None => {
            lemma_insert_pos(v.subs, name, 0);
            let p = insert_pos(v.subs, name, 0);
            let s2 = v.subs.insert(p, (name, child));
            lemma_find_first(s2, name, 0, p);
        },
    }
}

/// Walking the route's names from `k` in the tree after registering it
/// reaches the registered node, all names consumed.
proof fn lemma_route_walk(v: NodeView, names: Seq<Seq<char>>, k: int, e: RouteEnd)
    requires
        0 <= k <= names.len(),
        forall|j: int| 0 <= j < names.len() ==> !starts_with_dash(#[trigger] names[j]),
        !e.group,
    ensures
        walk(route_insert(v, literal_route(names), k, e), names, k).1 == names.len(),
        walk(route_insert(v, literal_route(names), k, e), names, k).2 is None,
        walk(route_insert(v, literal_route(names), k, e), names, k).0.handler == e.handler,
        walk(route_insert(v, literal_route(names), k, e), names, k).0.flags == e.flags,
        walk(route_insert(v, literal_route(names), k, e), names, k).0.hidden == e.hidden,
        walk(route_insert(v, literal_route(names), k, e), names, k).0.doc == e.doc,
    decreases names.len() - k,
{
    let toks = literal_route(names);
    if k < names.len() {
        let name = names[k];
        assert(toks[k] == TokenView::Literal(name));
        let c = route_insert(child_or_empty(v, name), toks, k + 1, e);
        lemma_route_walk(child_or_empty(v, name), names, k + 1, e);
        lemma_with_child_found(v, name, c);
        assert(route_insert(v, toks, k, e) == with_child(v, name, c));
    }
}

/// A command registered under a path of subcommand names (none starting
/// with `-`) is reached by those names, hidden or not: walking them through
/// the tree after the registration consumes them all and ends at a node with
/// the command's handler, flags, documentation and visibility.
pub proof fn law_registered_route_is_reached(v: NodeView, names: Seq<Seq<char>>, e: RouteEnd)
    requires
        forall|j: int| 0 <= j < names.len() ==> !starts_with_dash(#[trigger] names[j]),
        !e.group,
    ensures
        ({
            let (node, idx, failed) = walk(route_insert(v, literal_route(names), 0, e), names, 0);
            &&& idx == names.len()
            &&& failed is None
            &&& node.handler == e.handler
            &&& node.flags == e.flags
            &&& node.doc == e.doc
            &&& node.hidden == e.hidden
        }),
{
    lemma_route_walk(v, names, 0, e);
}

} // verus!

verus! {

proof fn lemma_walk_sorted(v: NodeView, args: Seq<Seq<char>>, idx: int)
    requires
        tree_sorted(v),
    ensures
        tree_sorted(walk(v, args, idx).0),
    decreases args.len() - idx,
{
    if !(idx < 0 || idx >= args.len() || starts_with_dash(args[idx])) {
        match find_child(v.subs, args[idx], 0) {
            Some(i) => {
                lemma_find_child(v.subs, args[idx], 0);
                lemma_subs_sorted(v.subs);
                assert(tree_sorted(v.subs[i].1));
                lemma_walk_sorted(v.subs[i].1, args, idx + 1);
            },
            None => {},
        }
    }
}

/// In a well-formed router, the node that command words lead to (whose
/// help is shown) has its subcommands in strictly ascending name order, so
/// help lists them sorted and each name once.
pub proof fn law_walked_node_sorted(c: &Commands, args: Seq<Seq<char>>, idx: int)
    requires
        c.wf(),
    ensures
        names_sorted(walk(c@.root, args, idx).0.subs),
{
    lemma_walk_sorted(c.root@, args, idx);
}

} // verus!
