//! Nodes of the command prefix tree.
use vstd::prelude::*;
use crate::parser::spec::{flag_views, token_views, FlagSpec, FlagView, TokenSpec, TokenView};

verus! {

/// A node of the command tree: a command group or an executable command.
pub struct CommandNode {
    /// Documentation summary.
    pub doc: &'static str,
    /// Identifier of the handler when the node is an executable command.
    pub handler: Option<usize>,
    /// Flags of the command.
    pub flags: Vec<FlagSpec>,
    /// Positional tokens of the command.
    pub positional_tokens: Vec<TokenSpec>,
    /// Subcommands by literal name, in ascending name order.
    pub subcommands: Vec<(String, CommandNode)>,
    /// Whether the command is left out of generated help.
    pub hidden: bool,
}

impl CommandNode {
    /// A node with documentation `doc` and nothing else.
    pub fn new(doc: &'static str) -> (r: Self)
        ensures
            r.doc == doc,
            r.handler is None,
            r.flags@.len() == 0,
            r.positional_tokens@.len() == 0,
            r.subcommands@.len() == 0,
            !r.hidden,
    {
        CommandNode {
            doc,
            handler: None,
            flags: Vec::new(),
            positional_tokens: Vec::new(),
            subcommands: Vec::new(),
            hidden: false,
        }
    }
}

} // verus!

verus! {

/// The mathematical content of a command node.
pub struct NodeView {
    pub doc: Seq<char>,
    pub handler: Option<usize>,
    pub flags: Seq<FlagView>,
    pub tokens: Seq<TokenView>,
    /// Subcommands by name, in the stored order.
    pub subs: Seq<(Seq<char>, NodeView)>,
    pub hidden: bool,
}

impl View for CommandNode {
    type V = NodeView;

    open spec fn view(&self) -> NodeView {
        node_view(*self)
    }
}

/// The view of a node.
pub open spec fn node_view(n: CommandNode) -> NodeView
    decreases n,
{
    NodeView {
        doc: n.doc@,
        handler: n.handler,
        flags: flag_views(n.flags@),
        tokens: token_views(n.positional_tokens@),
        subs: subs_view(n.subcommands@),
        hidden: n.hidden,
    }
}

/// Names and views of subcommands.
pub open spec fn subs_view(v: Seq<(String, CommandNode)>) -> Seq<(Seq<char>, NodeView)>
    decreases v,
{
    if v.len() == 0 {
        Seq::empty()
    } else {
        subs_view(v.drop_last()).push((v.last().0@, node_view(v.last().1)))
    }
}

/// A node with nothing in it.
pub open spec fn empty_node() -> NodeView {
    NodeView {
        doc: Seq::empty(),
        handler: None,
        flags: Seq::empty(),
        tokens: Seq::empty(),
        subs: Seq::empty(),
        hidden: false,
    }
}

/// Whether a node, not hidden, is a command or leads to one that is not hidden.
pub open spec fn visible_targets(v: NodeView) -> bool
    decreases v,
{
    if v.hidden {
        false
    } else if v.handler is Some {
        true
    } else {
        any_visible(v.subs)
    }
}

/// Whether one of the subcommands has visible targets.
pub open spec fn any_visible(subs: Seq<(Seq<char>, NodeView)>) -> bool
    decreases subs,
{
    if subs.len() == 0 {
        false
    } else {
        any_visible(subs.drop_last()) || visible_targets(subs.last().1)
    }
}

/// `any_visible` holds exactly when some subcommand has visible targets.
pub proof fn lemma_any_visible(subs: Seq<(Seq<char>, NodeView)>)
    ensures
        any_visible(subs) <==> exists|i: int| 0 <= i < subs.len() && #[trigger] visible_targets(subs[i].1),
    decreases subs.len(),
{
    if subs.len() > 0 {
        lemma_any_visible(subs.drop_last());
        if any_visible(subs.drop_last()) {
            let i = choose|i: int| 0 <= i < subs.drop_last().len() && #[trigger] visible_targets(subs.drop_last()[i].1);
            assert(subs[i] == subs.drop_last()[i]);
        }
        if visible_targets(subs.last().1) {
            assert(visible_targets(subs[subs.len() - 1].1));
        }
        assert forall|i: int| 0 <= i < subs.len() && #[trigger] visible_targets(subs[i].1) implies any_visible(subs) by {
            if i < subs.len() - 1 {
                assert(subs.drop_last()[i] == subs[i]);
            }
        }
    }
}

/// Lexicographic order of texts, character by character (the order of their
/// UTF-8 bytes).
pub open spec fn text_lt(a: Seq<char>, b: Seq<char>) -> bool
    decreases a.len(),
{
    if a.len() == 0 {
        b.len() > 0
    } else if b.len() == 0 {
        false
    } else if a[0] != b[0] {
        a[0] < b[0]
    } else {
        text_lt(a.skip(1), b.skip(1))
    }
}

/// Index of the first subcommand named `name`.
pub open spec fn find_child(subs: Seq<(Seq<char>, NodeView)>, name: Seq<char>, i: int) -> Option<int>
    decreases subs.len() - i,
{
    if i < 0 || i >= subs.len() {
        None
    } else if subs[i].0 == name {
        Some(i)
    } else {
        find_child(subs, name, i + 1)
    }
}

/// Where a new subcommand named `name` goes: before the first name not less than it.
pub open spec fn insert_pos(subs: Seq<(Seq<char>, NodeView)>, name: Seq<char>, i: int) -> int
    decreases subs.len() - i,
{
    if i < 0 || i >= subs.len() {
        subs.len() as int
    } else if !text_lt(subs[i].0, name) {
        i
    } else {
        insert_pos(subs, name, i + 1)
    }
}

/// Whether the names of the subcommands are strictly ascending.
pub open spec fn names_sorted(subs: Seq<(Seq<char>, NodeView)>) -> bool {
    forall|i: int, j: int| 0 <= i < j < subs.len() ==> text_lt(#[trigger] subs[i].0, #[trigger] subs[j].0)
}

pub proof fn lemma_find_child(subs: Seq<(Seq<char>, NodeView)>, name: Seq<char>, i: int)
    requires
        0 <= i,
    ensures
        find_child(subs, name, i) matches Some(j) ==> i <= j < subs.len() && subs[j].0 == name,
        find_child(subs, name, i) is None ==> forall|j: int| i <= j < subs.len() ==> subs[j].0 != name,
    decreases subs.len() - i,
{
    if i < subs.len() && subs[i].0 != name {
        lemma_find_child(subs, name, i + 1);
    }
}

pub proof fn lemma_insert_pos(subs: Seq<(Seq<char>, NodeView)>, name: Seq<char>, i: int)
    requires
        0 <= i <= subs.len(),
    ensures
        i <= insert_pos(subs, name, i) <= subs.len(),
        forall|j: int| i <= j < insert_pos(subs, name, i) ==> text_lt(#[trigger] subs[j].0, name),
        insert_pos(subs, name, i) < subs.len() ==> !text_lt(subs[insert_pos(subs, name, i)].0, name),
    decreases subs.len() - i,
{
    if i < subs.len() && text_lt(subs[i].0, name) {
        lemma_insert_pos(subs, name, i + 1);
    }
}

pub proof fn lemma_text_lt_irreflexive(a: Seq<char>)
    ensures
        !text_lt(a, a),
    decreases a.len(),
{
    if a.len() > 0 {
        lemma_text_lt_irreflexive(a.skip(1));
    }
}

/// Two different texts are ordered one way or the other.
pub proof fn lemma_text_lt_total(a: Seq<char>, b: Seq<char>)
    requires
        a != b,
    ensures
        text_lt(a, b) || text_lt(b, a),
    decreases a.len(),
{
    if a.len() == 0 {
        if b.len() == 0 {
            assert(a =~= b);
        }
    } else if b.len() == 0 {
    } else if a[0] != b[0] {
    } else {
        if a.skip(1) == b.skip(1) {
            assert(a.skip(1).len() == b.skip(1).len());
            assert(a.len() == b.len());
            assert forall|i: int| 0 <= i < a.len() implies a[i] == b[i] by {
                if i > 0 {
                    assert(a.skip(1)[i - 1] == a[i]);
                    assert(b.skip(1)[i - 1] == b[i]);
                }
            }
            assert(a =~= b);
        }
        lemma_text_lt_total(a.skip(1), b.skip(1));
    }
}

pub proof fn lemma_text_lt_transitive(a: Seq<char>, b: Seq<char>, c: Seq<char>)
    requires
        text_lt(a, b),
        text_lt(b, c),
    ensures
        text_lt(a, c),
    decreases a.len(),
{
    if a.len() > 0 && b.len() > 0 && c.len() > 0 && a[0] == b[0] && b[0] == c[0] {
        lemma_text_lt_transitive(a.skip(1), b.skip(1), c.skip(1));
    }
}

/// Whether the names of the subcommands are strictly ascending at every
/// node of the tree.
pub open spec fn tree_sorted(v: NodeView) -> bool
    decreases v,
{
    names_sorted(v.subs) && subs_sorted(v.subs)
}

/// Whether the trees under the subcommands are sorted.
pub open spec fn subs_sorted(subs: Seq<(Seq<char>, NodeView)>) -> bool
    decreases subs,
{
    subs.len() == 0 || (subs_sorted(subs.drop_last()) && tree_sorted(subs.last().1))
}

pub proof fn lemma_subs_sorted(subs: Seq<(Seq<char>, NodeView)>)
    ensures
        subs_sorted(subs) <==> forall|i: int| 0 <= i < subs.len() ==> #[trigger] tree_sorted(subs[i].1),
    decreases subs.len(),
{
    if subs.len() > 0 {
        lemma_subs_sorted(subs.drop_last());
        if subs_sorted(subs) {
            assert forall|i: int| 0 <= i < subs.len() implies #[trigger] tree_sorted(subs[i].1) by {
                if i < subs.len() - 1 {
                    assert(subs.drop_last()[i] == subs[i]);
                }
            }
        }
        if forall|i: int| 0 <= i < subs.len() ==> #[trigger] tree_sorted(subs[i].1) {
            assert forall|i: int| 0 <= i < subs.drop_last().len() implies #[trigger] tree_sorted(subs.drop_last()[i].1) by {
                assert(subs.drop_last()[i] == subs[i]);
            }
            assert(tree_sorted(subs[subs.len() - 1].1));
        }
    }
}

/// Character-by-character comparison of texts.
pub fn text_less(a: &[char], b: &[char]) -> (r: bool)
    ensures
        r == text_lt(a@, b@),
{
    let mut i: usize = 0;
    assert(a@.skip(0) =~= a@);
    assert(b@.skip(0) =~= b@);
    while i < a.len() && i < b.len() && a[i] == b[i]
        invariant
            i <= a@.len(),
            i <= b@.len(),
            text_lt(a@, b@) == text_lt(a@.skip(i as int), b@.skip(i as int)),
        decreases a.len() - i,
    {
        assert(a@.skip(i as int).skip(1) =~= a@.skip(i + 1));
        assert(b@.skip(i as int).skip(1) =~= b@.skip(i + 1));
        i += 1;
    }
    if i == a.len() {
        i < b.len()
    } else if i == b.len() {
        false
    } else {
        a[i] < b[i]
    }
}

pub proof fn lemma_subs_view(v: Seq<(String, CommandNode)>)
    ensures
        subs_view(v).len() == v.len(),
        forall|i: int| 0 <= i < v.len() ==> #[trigger] subs_view(v)[i] == (v[i].0@, v[i].1@),
    decreases v.len(),
{
    if v.len() > 0 {
        lemma_subs_view(v.drop_last());
        assert forall|i: int| 0 <= i < v.len() implies #[trigger] subs_view(v)[i] == (v[i].0@, v[i].1@) by {
            if i < v.len() - 1 {
                assert(subs_view(v)[i] == subs_view(v.drop_last())[i]);
                assert(v.drop_last()[i] == v[i]);
            }
        }
    }
}

/// The view of a node, field by field.
pub proof fn lemma_node_view(n: &CommandNode)
    ensures
        n@.doc == n.doc@,
        n@.handler == n.handler,
        n@.flags == flag_views(n.flags@),
        n@.tokens == token_views(n.positional_tokens@),
        n@.hidden == n.hidden,
        n@.subs.len() == n.subcommands@.len(),
        forall|i: int| 0 <= i < n.subcommands@.len() ==> #[trigger] n@.subs[i] == (n.subcommands@[i].0@, n.subcommands@[i].1@),
{
    lemma_subs_view(n.subcommands@);
}

impl CommandNode {
    /// Whether the node, not hidden, is a command or leads to one that is not hidden.
    pub fn has_visible_targets(&self) -> (r: bool)
        ensures
            r == visible_targets(self@),
        decreases self,
    {
        if self.hidden {
            return false;
        }
        if self.handler.is_some() {
            return true;
        }
        let ghost v = self@;
        proof {
            lemma_node_view(self);
            lemma_any_visible(v.subs);
        }
        let mut i: usize = 0;
        while i < self.subcommands.len()
            invariant
                v == self@,
                !v.hidden,
                v.handler is None,
                i <= self.subcommands@.len(),
                v.subs.len() == self.subcommands@.len(),
                forall|j: int| 0 <= j < i ==> !visible_targets(#[trigger] v.subs[j].1),
            decreases self.subcommands.len() - i,
        {
            proof {
                lemma_node_view(self);
                assert(decreases_to!(self => self.subcommands@[i as int].1));
            }
            assert(v.subs[i as int].1 == self.subcommands@[i as int].1@);
            if self.subcommands[i].1.has_visible_targets() {
                assert(visible_targets(v.subs[i as int].1));
                proof {
                    lemma_any_visible(v.subs);
                }
                return true;
            }
            i += 1;
        }
        false
    }
}

} // verus!
