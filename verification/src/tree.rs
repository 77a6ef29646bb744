//! Labelled trees: building them, attaching a child under a labelled node,
//! and drawing them with box-drawing connectors.
use vstd::prelude::*;
use crate::text::{cviews, views};

verus! {

/// A node of a tree: a label and the child nodes.
pub struct TreeNode {
    pub label: String,
    pub children: Vec<TreeNode>,
}

/// A tree as text values.
pub struct TreeV {
    pub label: Seq<char>,
    pub kids: Seq<TreeV>,
}

pub open spec fn tree_view(n: TreeNode) -> TreeV
    decreases n,
{
    TreeV { label: n.label@, kids: trees_view(n.children@) }
}

pub open spec fn trees_view(v: Seq<TreeNode>) -> Seq<TreeV>
    decreases v,
{
    if v.len() == 0 {
        Seq::empty()
    } else {
        trees_view(v.drop_last()).push(tree_view(v.last()))
    }
}

impl View for TreeNode {
    type V = TreeV;

    open spec fn view(&self) -> TreeV {
        tree_view(*self)
    }
}

pub proof fn lemma_trees_view(v: Seq<TreeNode>)
    ensures
        trees_view(v).len() == v.len(),
        forall|i: int| 0 <= i < v.len() ==> #[trigger] trees_view(v)[i] == tree_view(v[i]),
    decreases v.len(),
{
    if v.len() > 0 {
        lemma_trees_view(v.drop_last());
        assert forall|i: int| 0 <= i < v.len() implies #[trigger] trees_view(v)[i] == tree_view(v[i]) by {
            if i < v.len() - 1 {
                assert(trees_view(v)[i] == trees_view(v.drop_last())[i]);
                assert(v.drop_last()[i] == v[i]);
            }
        }
    }
}

/// The tree with `child` attached under the first node labelled `target`
/// (the node itself first, then its children in order, depth first); none
/// when no node has the label.
pub open spec fn add_path(t: TreeV, target: Seq<char>, child: TreeV) -> Option<TreeV>
    decreases t, 0int,
{
    if t.label == target {
        Some(TreeV { kids: t.kids.push(child), ..t })
    } else {
        match add_path_kids(t.kids, 0, target, child) {
            Some(ks) => Some(TreeV { kids: ks, ..t }),
            None => None,
        }
    }
}

/// The children with `child` attached in the first one from `i` on that has
/// the label.
pub open spec fn add_path_kids(kids: Seq<TreeV>, i: int, target: Seq<char>, child: TreeV) -> Option<Seq<TreeV>>
    decreases kids, kids.len() - i,
{
    if i < 0 || i >= kids.len() {
        None
    } else {
        match add_path(kids[i], target, child) {
            Some(k) => Some(kids.update(i, k)),
            None => add_path_kids(kids, i + 1, target, child),
        }
    }
}

/// The connector of a node: a corner for the last child, a tee otherwise.
pub open spec fn connector(is_last: bool) -> Seq<char> {
    if is_last {
        seq!['\u{2514}', '\u{2500}', '\u{2500}', ' ']
    } else {
        seq!['\u{251c}', '\u{2500}', '\u{2500}', ' ']
    }
}

/// The prefix of a node's children: none under the root, spaces under a
/// last child, a bar otherwise.
pub open spec fn child_prefix(prefix: Seq<char>, is_last: bool, is_root: bool) -> Seq<char> {
    if is_root {
        Seq::empty()
    } else if is_last {
        prefix + seq![' ', ' ', ' ', ' ']
    } else {
        prefix + seq!['\u{2502}', ' ', ' ', ' ']
    }
}

/// The lines of a tree: the root's label alone, every other node after its
/// prefix and connector, then its children in order.
pub open spec fn tree_lines(t: TreeV, prefix: Seq<char>, is_last: bool, is_root: bool) -> Seq<Seq<char>>
    decreases t, 0int,
{
    let head = if is_root { t.label } else { prefix + connector(is_last) + t.label };
    seq![head] + kids_lines(t.kids, 0, child_prefix(prefix, is_last, is_root))
}

/// The lines of the children from `i` on, the last one with a corner.
pub open spec fn kids_lines(kids: Seq<TreeV>, i: int, prefix: Seq<char>) -> Seq<Seq<char>>
    decreases kids, kids.len() - i,
{
    if i < 0 || i >= kids.len() {
        Seq::empty()
    } else {
        tree_lines(kids[i], prefix, i == kids.len() - 1, false) + kids_lines(kids, i + 1, prefix)
    }
}

/// The number of nodes of a tree.
pub open spec fn node_count(t: TreeV) -> int
    decreases t, 0int,
{
    1 + kids_count(t.kids, 0)
}

/// The number of nodes under the children from `i` on.
pub open spec fn kids_count(kids: Seq<TreeV>, i: int) -> int
    decreases kids, kids.len() - i,
{
    if i < 0 || i >= kids.len() {
        0
    } else {
        node_count(kids[i]) + kids_count(kids, i + 1)
    }
}

} // verus!

verus! {

impl TreeNode {
    /// A copy of the tree.
    pub fn copy(&self) -> (r: TreeNode)
        ensures
            r@ == self@,
        decreases self,
    {
        let mut kids: Vec<TreeNode> = Vec::new();
        let mut i: usize = 0;
        proof {
            lemma_trees_view(self.children@);
        }
        while i < self.children.len()
            invariant
                i <= self.children@.len(),
                trees_view(kids@) == trees_view(self.children@).take(i as int),
                trees_view(self.children@).len() == self.children@.len(),
                forall|q: int| 0 <= q < self.children@.len() ==> #[trigger] trees_view(self.children@)[q] == tree_view(self.children@[q]),
            decreases self.children.len() - i,
        {
            proof {
                assert(decreases_to!(self => self.children));
                assert(decreases_to!(self.children => self.children@));
                assert(decreases_to!(self.children@ => self.children@[i as int]));
            }
            let c = self.children[i].copy();
            let ghost b = kids@;
            kids.push(c);
            assert(kids@.drop_last() =~= b);
            assert(trees_view(kids@) =~= trees_view(self.children@).take(i + 1));
            i += 1;
        }
        assert(trees_view(self.children@).take(self.children@.len() as int) =~= trees_view(self.children@));
        let l = crate::text::string_of(crate::text::chars_of(self.label.as_str()).as_slice());
        TreeNode { label: l, children: kids }
    }

    /// A node with a label and no children.
    pub fn new(label: &str) -> (r: TreeNode)
        ensures
            r@ == (TreeV { label: label@, kids: Seq::empty() }),
    {
        let l = crate::text::string_of(crate::text::chars_of(label).as_slice());
        let r = TreeNode { label: l, children: Vec::new() };
        assert(trees_view(r.children@) =~= Seq::<TreeV>::empty());
        r
    }

    /// The node with one more child, last.
    pub fn child(self, child: TreeNode) -> (r: TreeNode)
        ensures
            r@ == (TreeV { kids: self@.kids.push(child@), ..self@ }),
    {
        let mut n = self;
        let ghost b = n.children@;
        n.children.push(child);
        assert(n.children@.drop_last() =~= b);
        n
    }

    /// The node with more children, after the ones it has.
    pub fn children(self, children: Vec<TreeNode>) -> (r: TreeNode)
        ensures
            r@ == (TreeV { kids: self@.kids + trees_view(children@), ..self@ }),
    {
        let mut n = self;
        let ghost start = trees_view(n.children@);
        let mut rest = children;
        let ghost all = trees_view(rest@);
        let mut taken: Vec<TreeNode> = Vec::new();
        proof {
            lemma_trees_view(rest@);
        }
        // Reverse the incoming nodes so they can be moved out in order.
        while rest.len() > 0
            invariant
                trees_view(rest@) + trees_view(taken@).reverse() == all,
            decreases rest.len(),
        {
            let ghost b = rest@;
            let ghost tb = taken@;
            let x = rest.pop().unwrap();
            taken.push(x);
            assert(rest@ =~= b.drop_last());
            assert(taken@.drop_last() =~= tb);
            assert(trees_view(b) =~= trees_view(rest@).push(tree_view(x)));
            assert(trees_view(taken@).reverse() =~= seq![tree_view(x)] + trees_view(tb).reverse());
        }
        assert(trees_view(rest@) =~= Seq::<TreeV>::empty());
        while taken.len() > 0
            invariant
                trees_view(n.children@) + trees_view(taken@).reverse() == start + all,
                n.label == self.label,
            decreases taken.len(),
        {
            let ghost b = n.children@;
            let ghost tb = taken@;
            let x = taken.pop().unwrap();
            n.children.push(x);
            assert(n.children@.drop_last() =~= b);
            assert(taken@ =~= tb.drop_last());
            assert(trees_view(tb) =~= trees_view(taken@).push(tree_view(x)));
            assert(trees_view(tb).reverse() =~= seq![tree_view(x)] + trees_view(taken@).reverse());
        }
        assert(trees_view(taken@).reverse() =~= Seq::<TreeV>::empty());
        n
    }
}

} // verus!

verus! {

impl TreeNode {
    /// Attaches `child` under the first node labelled `target_label` (this
    /// node first, then its children in order, depth first); tells whether
    /// such a node was found. The tree is unchanged when none was.
    pub fn add_to_path(&mut self, target_label: &str, child: TreeNode) -> (r: bool)
        ensures
            match add_path(old(self)@, target_label@, child@) {
                Some(t) => r && final(self)@ == t,
                None => !r && final(self)@ == old(self)@,
            },
        decreases *old(self),
    {
        if crate::parser::context::string_eq(&self.label, target_label) {
            let ghost b = self.children@;
            self.children.push(child);
            assert(self.children@.drop_last() =~= b);
            return true;
        }
        let ghost ck = child@;
        let ghost oc = self.children@;
        let ghost ov = trees_view(oc);
        proof {
            lemma_trees_view(oc);
        }
        let mut kids: Vec<TreeNode> = Vec::new();
        std::mem::swap(&mut kids, &mut self.children);
        let n0 = kids.len();
        assert(n0 == oc.len());
        let mut done: Vec<TreeNode> = Vec::new();
        let mut found = false;
        let mut i: usize = 0;
        let ghost res = add_path_kids(ov, 0, target_label@, ck);
        while kids.len() > 0
            invariant
                oc == old(self).children@,
                ov == trees_view(oc),
                ck == child@,
                ov.len() == oc.len(),
                forall|q: int| 0 <= q < oc.len() ==> #[trigger] ov[q] == tree_view(oc[q]),
                decreases_to!(*old(self) => old(self).children),
                res == add_path_kids(ov, 0, target_label@, ck),
                i + kids@.len() == oc.len(),
                oc.len() <= usize::MAX,
                kids@ == oc.skip(i as int),
                !found ==> trees_view(done@) == ov.take(i as int) && res == add_path_kids(ov, i as int, target_label@, ck),
                found ==> res is Some && trees_view(done@) + ov.skip(i as int) == res->0,
            decreases kids.len(),
        {
            let ghost kb = kids@;
            let mut c = kids.remove(0);
            assert(c == oc[i as int]);
            assert(kids@ =~= oc.skip(i + 1));
            let ghost db = done@;
            if !found {
                proof {
                    assert(decreases_to!(old(self).children => old(self).children@));
                    assert(decreases_to!(old(self).children@ => old(self).children@[i as int]));
                }
                let cc = child.copy();
                if c.add_to_path(target_label, cc) {
                    found = true;
                }
            }
            done.push(c);
            assert(done@.drop_last() =~= db);
            assert(ov.take(i + 1) =~= ov.take(i as int).push(ov[i as int]));
            assert(ov.skip(i as int) =~= seq![ov[i as int]] + ov.skip(i + 1));
            i += 1;
        }
        assert(ov.skip(oc.len() as int) =~= Seq::<TreeV>::empty());
        assert(ov.take(oc.len() as int) =~= ov);
        self.children = done;
        found
    }
}

} // verus!

verus! {

fn connector_exec(is_last: bool) -> (r: Vec<char>)
    ensures
        r@ == connector(is_last),
{
    let r = if is_last { vec!['\u{2514}', '\u{2500}', '\u{2500}', ' '] } else { vec!['\u{251c}', '\u{2500}', '\u{2500}', ' '] };
    assert(r@ =~= connector(is_last));
    r
}

/// Appends the lines of a tree (see `tree_lines`).
fn render_node(node: &TreeNode, prefix: &Vec<char>, is_last: bool, is_root: bool, lines: &mut Vec<Vec<char>>)
    ensures
        cviews(final(lines)@) == cviews(old(lines)@) + tree_lines(node@, prefix@, is_last, is_root),
    decreases node,
{
    let ghost start = cviews(lines@);
    let head = if is_root {
        crate::text::chars_of(node.label.as_str())
    } else {
        let mut h = prefix.clone();
        crate::text::extend_chars(&mut h, connector_exec(is_last).as_slice());
        crate::text::extend_chars(&mut h, crate::text::chars_of(node.label.as_str()).as_slice());
        h
    };
    let ghost b = lines@;
    lines.push(head);
    assert(cviews(lines@) =~= cviews(b).push(head@));
    let cp: Vec<char> = if is_root {
        Vec::new()
    } else {
        let mut p = prefix.clone();
        if is_last {
            p.push(' ');
            p.push(' ');
            p.push(' ');
            p.push(' ');
        } else {
            p.push('\u{2502}');
            p.push(' ');
            p.push(' ');
            p.push(' ');
        }
        p
    };
    assert(cp@ =~= child_prefix(prefix@, is_last, is_root));
    let ghost kv = trees_view(node.children@);
    proof {
        lemma_trees_view(node.children@);
    }
    let n = node.children.len();
    let ghost mid = cviews(lines@);
    let mut i: usize = 0;
    while i < n
        invariant
            n == node.children@.len(),
            kv == trees_view(node.children@),
            kv.len() == n,
            forall|q: int| 0 <= q < n ==> #[trigger] kv[q] == tree_view(node.children@[q]),
            i <= n,
            cviews(lines@) + kids_lines(kv, i as int, cp@) == mid + kids_lines(kv, 0, cp@),
        decreases n - i,
    {
        proof {
            assert(decreases_to!(node => node.children));
            assert(decreases_to!(node.children => node.children@));
            assert(decreases_to!(node.children@ => node.children@[i as int]));
        }
        let ghost lb = cviews(lines@);
        render_node(&node.children[i], &cp, i + 1 == n, false, lines);
        assert(kids_lines(kv, i as int, cp@) == tree_lines(kv[i as int], cp@, i == n - 1, false) + kids_lines(kv, i + 1, cp@));
        assert(cviews(lines@) == lb + tree_lines(kv[i as int], cp@, i == n - 1, false));
        i += 1;
    }
    assert(kids_lines(kv, n as int, cp@) =~= Seq::<Seq<char>>::empty());
    assert(cviews(lines@) =~= start + tree_lines(node@, prefix@, is_last, is_root));
}

/// The tree widget.
pub struct Tree {
    pub root: TreeNode,
}

/// A change to the tree.
pub enum TreeOp {
    /// Replaces the root.
    SetRoot(TreeNode),
    /// Adds a child to the root, last.
    AddRootChild(TreeNode),
}

/// The tree after a change.
pub open spec fn apply_tree_op(t: TreeV, op: TreeOp) -> TreeV {
    match op {
        TreeOp::SetRoot(n) => n@,
        TreeOp::AddRootChild(c) => TreeV { kids: t.kids.push(c@), ..t },
    }
}

impl Tree {
    /// A tree widget showing `root`.
    pub fn new(root: TreeNode) -> (r: Tree)
        ensures
            r.root@ == root@,
    {
        Tree { root }
    }

    /// Applies a change (see `apply_tree_op`).
    pub fn apply(&mut self, op: TreeOp)
        ensures
            final(self).root@ == apply_tree_op(old(self).root@, op),
    {
        match op {
            TreeOp::SetRoot(n) => {
                self.root = n;
            },
            TreeOp::AddRootChild(c) => {
                let ghost b = self.root.children@;
                self.root.children.push(c);
                assert(self.root.children@.drop_last() =~= b);
            },
        }
    }

    /// The lines of the tree: the root's label, then every node after its
    /// connector, depth first.
    pub fn render_content(&self) -> (r: Vec<String>)
        ensures
            views(r@) == tree_lines(self.root@, Seq::empty(), true, true),
    {
        let mut lines: Vec<Vec<char>> = Vec::new();
        let empty: Vec<char> = Vec::new();
        render_node(&self.root, &empty, true, true, &mut lines);
        assert(empty@ =~= Seq::<char>::empty());
        assert(cviews(Seq::<Vec<char>>::empty()) =~= Seq::<Seq<char>>::empty());
        let r = crate::text::strings_of(&lines);
        assert(views(r@) =~= cviews(lines@));
        r
    }
}

/// A drawn tree has one line per node.
pub proof fn law_one_line_per_node(t: TreeV, prefix: Seq<char>, is_last: bool, is_root: bool)
    ensures
        tree_lines(t, prefix, is_last, is_root).len() == node_count(t),
    decreases t, 0int,
{
    lemma_kids_lines_len(t.kids, 0, child_prefix(prefix, is_last, is_root));
}

proof fn lemma_kids_lines_len(kids: Seq<TreeV>, i: int, prefix: Seq<char>)
    ensures
        kids_lines(kids, i, prefix).len() == kids_count(kids, i),
    decreases kids, kids.len() - i,
{
    if 0 <= i < kids.len() {
        law_one_line_per_node(kids[i], prefix, i == kids.len() - 1, false);
        lemma_kids_lines_len(kids, i + 1, prefix);
    }
}

/// Attaching a child under a labelled node adds exactly its nodes.
pub proof fn law_add_counts(t: TreeV, target: Seq<char>, child: TreeV)
    ensures
        add_path(t, target, child) matches Some(u) ==> node_count(u) == node_count(t) + node_count(child),
    decreases t, 0int,
{
    if t.label == target {
        lemma_kids_count_push(t.kids, 0, child);
    } else {
        lemma_add_kids_counts(t.kids, 0, target, child);
    }
}

proof fn lemma_kids_count_push(kids: Seq<TreeV>, i: int, child: TreeV)
    requires
        0 <= i <= kids.len(),
    ensures
        kids_count(kids.push(child), i) == kids_count(kids, i) + node_count(child),
    decreases kids.len() - i,
{
    if i < kids.len() {
        lemma_kids_count_push(kids, i + 1, child);
        assert(kids.push(child)[i] == kids[i]);
    } else {
        assert(kids.push(child)[i] == child);
        assert(kids_count(kids.push(child), i + 1) == 0);
    }
}

proof fn lemma_add_kids_counts(kids: Seq<TreeV>, i: int, target: Seq<char>, child: TreeV)
    ensures
        add_path_kids(kids, i, target, child) matches Some(ks) ==> kids_count(ks, i) == kids_count(kids, i) + node_count(child),
    decreases kids, kids.len() - i,
{
    if 0 <= i < kids.len() {
        law_add_counts(kids[i], target, child);
        match add_path(kids[i], target, child) {
            Some(k) => {
                lemma_kids_count_update_tail(kids, i, k);
            },
            None => {
                lemma_add_kids_counts(kids, i + 1, target, child);
                match add_path_kids(kids, i + 1, target, child) {
                    Some(ks) => {
                        lemma_add_kids_shape(kids, i + 1, target, child);
                        assert(ks[i] == kids[i]);
                        assert(ks.len() == kids.len());
                    },
                    None => {},
                }
            },
        }
    }
}

/// Replacing child `i` changes the count from `i` on by the difference.
proof fn lemma_kids_count_update_tail(kids: Seq<TreeV>, i: int, k: TreeV)
    requires
        0 <= i < kids.len(),
    ensures
        kids_count(kids.update(i, k), i) == kids_count(kids, i) - node_count(kids[i]) + node_count(k),
{
    lemma_kids_count_same(kids.update(i, k), kids, i + 1);
}

/// Counts from `i` on agree when the children from `i` on agree.
proof fn lemma_kids_count_same(a: Seq<TreeV>, b: Seq<TreeV>, i: int)
    requires
        a.len() == b.len(),
        forall|q: int| i <= q < a.len() ==> a[q] == b[q],
    ensures
        kids_count(a, i) == kids_count(b, i),
    decreases a.len() - i,
{
    if 0 <= i < a.len() {
        lemma_kids_count_same(a, b, i + 1);
    }
}

/// Attaching among the children from `i` on keeps their number and those before `i`.
proof fn lemma_add_kids_shape(kids: Seq<TreeV>, i: int, target: Seq<char>, child: TreeV)
    ensures
        add_path_kids(kids, i, target, child) matches Some(ks) ==> ks.len() == kids.len() && forall|q: int| 0 <= q < i ==> ks[q] == kids[q],
    decreases kids.len() - i,
{
    if 0 <= i < kids.len() {
        match add_path(kids[i], target, child) {
            Some(k) => {},
            None => {
                lemma_add_kids_shape(kids, i + 1, target, child);
            },
        }
    }
}

} // verus!
