//! The value layer: immutable, reference-counted nodes and tokens with
//! structural sharing, together with their mathematical model.

use vstd::prelude::*;
use std::sync::Arc;

use crate::kinds::SyntaxKind;

verus! {

/// Mathematical model of a syntax tree: a node is a kind with an ordered
/// sequence of child trees; a token is a kind with its exact source text.
pub enum Tree {
    Node { kind: SyntaxKind, children: Seq<Tree> },
    Token { kind: SyntaxKind, text: Seq<char> },
}

/// The kind tag of a tree, node or token alike.
pub open spec fn kind_of(t: Tree) -> SyntaxKind {
    match t {
        Tree::Node { kind, .. } => kind,
        Tree::Token { kind, .. } => kind,
    }
}

/// The child sequence of a tree; meaningful only for nodes.
pub open spec fn children_of(t: Tree) -> Seq<Tree> {
    match t {
        Tree::Node { children, .. } => children,
        Tree::Token { .. } => Seq::empty(),
    }
}

/// The text covered by a tree: a token's own text, or the concatenation
/// of the texts of a node's children in order.
pub open spec fn text_of(t: Tree) -> Seq<char>
    decreases t,
{
    match t {
        Tree::Token { text, .. } => text,
        Tree::Node { children, .. } => texts_of(children),
    }
}

/// The concatenation of the texts of a sequence of trees, in order.
pub open spec fn texts_of(ts: Seq<Tree>) -> Seq<char>
    decreases ts,
{
    if ts.len() == 0 {
        Seq::empty()
    } else {
        texts_of(ts.drop_last()) + text_of(ts.last())
    }
}

/// An immutable leaf of the value tree: a kind and the exact source text
/// it covers, with the text's length cached at construction.
pub struct GreenToken {
    kind: SyntaxKind,
    text: String,
    text_len: usize,
}

/// A child of a value node: either a shared node or a shared token.
/// Cloning a child clones only the reference, never the subtree.
pub enum GreenChild {
    Node(Arc<GreenNode>),
    Token(Arc<GreenToken>),
}

/// An immutable interior node of the value tree: a kind, an ordered
/// sequence of shared children, and the total length of the covered
/// text, cached at construction.
pub struct GreenNode {
    kind: SyntaxKind,
    text_len: usize,
    children: Vec<GreenChild>,
}

/// The model of a token value.
pub closed spec fn token_view(t: GreenToken) -> Tree {
    Tree::Token { kind: t.kind, text: t.text@ }
}

/// The model of a child value.
pub closed spec fn child_view(c: GreenChild) -> Tree
    decreases c,
{
    match c {
        GreenChild::Node(n) => node_view(*n),
        GreenChild::Token(t) => token_view(*t),
    }
}

/// The model of a sequence of child values, element by element.
pub closed spec fn children_view(cs: Seq<GreenChild>) -> Seq<Tree>
    decreases cs,
{
    if cs.len() == 0 {
        Seq::empty()
    } else {
        children_view(cs.drop_last()).push(child_view(cs.last()))
    }
}

/// The model of a node value.
pub closed spec fn node_view(n: GreenNode) -> Tree
    decreases n,
{
    Tree::Node { kind: n.kind, children: children_view(n.children@) }
}

impl View for GreenToken {
    type V = Tree;

    open spec fn view(&self) -> Tree {
        token_view(*self)
    }
}

impl View for GreenChild {
    type V = Tree;

    open spec fn view(&self) -> Tree {
        child_view(*self)
    }
}

impl View for GreenNode {
    type V = Tree;

    open spec fn view(&self) -> Tree {
        node_view(*self)
    }
}

/// The model of a child sequence has the same length, and models each
/// child at its own position.
pub proof fn lemma_children_view(cs: Seq<GreenChild>)
    ensures
        children_view(cs).len() == cs.len(),
        forall|i: int| 0 <= i < cs.len() ==> children_view(cs)[i] == child_view(cs[i]),
    decreases cs,
{
    if cs.len() > 0 {
        lemma_children_view(cs.drop_last());
    }
}

impl GreenToken {
    #[verifier::type_invariant]
    spec fn inv(self) -> bool {
        self.text_len == self.text@.len()
    }

    /// Makes a fresh token leaf carrying the given kind and exact text.
    pub fn new(kind: SyntaxKind, text: &str) -> (r: GreenToken)
        ensures
            r@ == (Tree::Token { kind, text: text@ }),
    {
        let owned: String = String::from_str(text);
        let text_len: usize = owned.as_str().unicode_len();
        GreenToken { kind, text: owned, text_len }
    }

    /// The kind of this token.
    pub fn kind(&self) -> (r: SyntaxKind)
        ensures
            r == kind_of(self@),
    {
        self.kind
    }

    /// The exact text of this token.
    pub fn text(&self) -> (r: &str)
        ensures
            r@ == text_of(self@),
    {
        self.text.as_str()
    }

    /// The length of this token's text, answered from the cache.
    pub fn text_len(&self) -> (r: usize)
        ensures
            r == text_of(self@).len(),
    {
        proof {
            use_type_invariant(self);
        }
        self.text_len
    }
}

impl GreenNode {
    #[verifier::type_invariant]
    spec fn inv(self) -> bool {
        self.text_len == text_of(node_view(self)).len()
    }

    /// Builds a node from completed children. The caller computes the
    /// total text length as it accumulates the children and must show
    /// it correct here, so every node's cache is right by construction.
    pub(crate) fn assemble(kind: SyntaxKind, text_len: usize, children: Vec<GreenChild>) -> (r:
        GreenNode)
        requires
            text_len == texts_of(children_view(children@)).len(),
        ensures
            r@ == (Tree::Node { kind, children: children_view(children@) }),
    {
        GreenNode { kind, text_len, children }
    }

    /// The kind of this node.
    pub fn kind(&self) -> (r: SyntaxKind)
        ensures
            r == kind_of(self@),
    {
        self.kind
    }

    /// The total length of the text this node covers, answered from the
    /// cache computed at construction.
    pub fn text_len(&self) -> (r: usize)
        ensures
            r == text_of(self@).len(),
    {
        proof {
            use_type_invariant(self);
        }
        self.text_len
    }

    /// How many immediate children this node has.
    pub fn n_children(&self) -> (r: usize)
        ensures
            r == children_of(self@).len(),
    {
        proof {
            lemma_children_view(self.children@);
        }
        self.children.len()
    }

    /// A shared reference to one immediate child.
    pub fn get_child(&self, i: usize) -> (r: &GreenChild)
        requires
            i < children_of(self@).len(),
        ensures
            r@ == children_of(self@)[i as int],
    {
        proof {
            lemma_children_view(self.children@);
        }
        &self.children[i]
    }
}

/// Clones a child by reference: the clone observes the very same shared
/// node or token, so no content is copied.
pub fn clone_child(c: &GreenChild) -> (r: GreenChild)
    ensures
        r@ == c@,
{
    match c {
        GreenChild::Node(n) => GreenChild::Node(n.clone()),
        GreenChild::Token(t) => GreenChild::Token(t.clone()),
    }
}

/// The length of a child's text, answered from the caches.
pub fn child_text_len(c: &GreenChild) -> (r: usize)
    ensures
        r == text_of(c@).len(),
{
    match c {
        GreenChild::Node(n) => n.text_len(),
        GreenChild::Token(t) => t.text_len(),
    }
}


/// The concatenated text of a sequence of trees decomposes around any
/// one position into the texts before, at, and after that position.
pub proof fn lemma_texts_of_split(ts: Seq<Tree>, i: int)
    requires
        0 <= i < ts.len(),
    ensures
        texts_of(ts) == texts_of(ts.take(i)) + text_of(ts[i]) + texts_of(ts.skip(i + 1)),
    decreases ts,
{
    if i == ts.len() - 1 {
        assert(ts.take(i) =~= ts.drop_last());
        assert(ts.skip(i + 1) =~= Seq::<Tree>::empty());
        assert(texts_of(ts) =~= texts_of(ts.take(i)) + text_of(ts[i]) + texts_of(ts.skip(i + 1)));
    } else {
        lemma_texts_of_split(ts.drop_last(), i);
        assert(ts.drop_last().take(i) =~= ts.take(i));
        assert(ts.skip(i + 1).drop_last() =~= ts.drop_last().skip(i + 1));
        assert(ts.skip(i + 1).last() == ts.last());
        assert(ts.skip(i + 1).len() > 0);
        assert(texts_of(ts) =~= texts_of(ts.take(i)) + text_of(ts[i]) + texts_of(ts.skip(i + 1)));
    }
}

/// Updating one element of a sequence splices that element's text into
/// the concatenation, leaving the texts before and after unchanged.
pub proof fn lemma_texts_of_update(ts: Seq<Tree>, i: int, t: Tree)
    requires
        0 <= i < ts.len(),
    ensures
        texts_of(ts.update(i, t)) == texts_of(ts.take(i)) + text_of(t) + texts_of(ts.skip(i + 1)),
{
    lemma_texts_of_split(ts.update(i, t), i);
    assert(ts.update(i, t).take(i) =~= ts.take(i));
    assert(ts.update(i, t).skip(i + 1) =~= ts.skip(i + 1));
}


/// A child path into a tree: at each step an index into the current
/// node's children; every step but the last must land on a node.
pub open spec fn valid_child_path(t: Tree, p: Seq<int>) -> bool
    decreases p.len(),
{
    &&& t is Node
    &&& p.len() >= 1
    &&& 0 <= p[0] < children_of(t).len()
    &&& (p.len() == 1 || valid_child_path(children_of(t)[p[0]], p.drop_first()))
}

/// The element a child path leads to.
pub open spec fn element_at(t: Tree, p: Seq<int>) -> Tree
    decreases p.len(),
{
    if p.len() <= 1 {
        children_of(t)[p[0]]
    } else {
        element_at(children_of(t)[p[0]], p.drop_first())
    }
}

/// The persistent-replace operation on the model: a new tree in which
/// the element at the path is the replacement, every ancestor along the
/// path is rebuilt, and everything off the path is the same tree.
pub open spec fn replace_in(t: Tree, p: Seq<int>, r: Tree) -> Tree
    decreases p.len(),
{
    if p.len() <= 1 {
        Tree::Node { kind: kind_of(t), children: children_of(t).update(p[0], r) }
    } else {
        Tree::Node {
            kind: kind_of(t),
            children: children_of(t).update(
                p[0],
                replace_in(children_of(t)[p[0]], p.drop_first(), r),
            ),
        }
    }
}

/// Persistent replace rebuilds only the path to the replaced element:
/// the root keeps its kind and child count, every sibling subtree off
/// the path is the same tree as before, and the child on the path is
/// the recursively rewritten one (or, at the last step, the
/// replacement itself).
pub proof fn lemma_replace_shares_off_path(t: Tree, p: Seq<int>, r: Tree)
    requires
        valid_child_path(t, p),
    ensures
        kind_of(replace_in(t, p, r)) == kind_of(t),
        children_of(replace_in(t, p, r)).len() == children_of(t).len(),
        forall|j: int|
            0 <= j < children_of(t).len() && j != p[0] ==> children_of(replace_in(t, p, r))[j]
                == children_of(t)[j],
        p.len() > 1 ==> children_of(replace_in(t, p, r))[p[0]] == replace_in(
            children_of(t)[p[0]],
            p.drop_first(),
            r,
        ),
        p.len() == 1 ==> children_of(replace_in(t, p, r))[p[0]] == r,
{
}


/// Appends the exact text covered by a node to the accumulator, by
/// walking its descendant tokens in order.
fn push_node_text(n: &GreenNode, out: &mut String)
    ensures
        final(out)@ == old(out)@ + text_of(node_view(*n)),
    decreases *n,
{
    let ghost cs = n.children@;
    proof {
        lemma_children_view(cs);
    }
    let len = n.children.len();
    let mut j: usize = 0;
    while j < len
        invariant
            len == cs.len(),
            cs == n.children@,
            j <= len,
            out@ == old(out)@ + texts_of(children_view(cs).take(j as int)),
        decreases len - j,
    {
        proof {
            lemma_children_view(cs);
            assert(children_view(cs).take(j + 1).drop_last() =~= children_view(cs).take(j as int));
            assert(children_view(cs).take(j + 1).last() == child_view(cs[j as int]));
            assert(texts_of(children_view(cs).take(j + 1)) == texts_of(
                children_view(cs).take(j as int),
            ) + text_of(child_view(cs[j as int])));
        }
        match &n.children[j] {
            GreenChild::Node(rc) => {
                push_node_text(&**rc, out);
            },
            GreenChild::Token(t) => {
                out.append(t.text.as_str());
            },
        }
        proof {
            assert(out@ =~= old(out)@ + texts_of(children_view(cs).take(j + 1)));
        }
        j = j + 1;
    }
    proof {
        assert(children_view(cs).take(len as int) =~= children_view(cs));
    }
}

impl GreenNode {
    /// The exact text this node covers: the concatenation of the texts
    /// of its descendant tokens, in order.
    pub fn text(&self) -> (r: String)
        ensures
            r@ == text_of(self@),
    {
        let mut out = String::new();
        push_node_text(self, &mut out);
        out
    }
}


/// A child path as it is carried at run time, read as a path of indices.
pub open spec fn path_ints(p: Seq<usize>) -> Seq<int> {
    p.map_values(|u: usize| u as int)
}

/// Path-copying replace on the value layer: rebuilds the nodes from
/// this one down to the replaced element, sharing every child off that
/// path by reference.
pub(crate) fn replace_path(n: &GreenNode, path: &Vec<usize>, d: usize, repl: GreenChild) -> (r: Arc<
    GreenNode,
>)
    requires
        d < path@.len(),
        valid_child_path(node_view(*n), path_ints(path@).skip(d as int)),
        text_of(
            replace_in(node_view(*n), path_ints(path@).skip(d as int), child_view(repl)),
        ).len() <= usize::MAX,
    ensures
        r@ == replace_in(n@, path_ints(path@).skip(d as int), repl@),
    decreases *n,
{
    let ghost p = path_ints(path@).skip(d as int);
    let ghost nv = node_view(*n);
    let ghost cv = children_view(n.children@);
    proof {
        lemma_children_view(n.children@);
        assert(p[0] == path@[d as int] as int);
    }
    let i = path[d];
    let n_len = n.children.len();
    proof {
        assert(0 <= p[0] < children_of(nv).len());
        assert(children_of(nv) == cv);
    }
    let ghost rv = child_view(repl);
    let new_child: GreenChild;
    if path.len() - d == 1 {
        proof {
            assert(p.len() == 1);
        }
        new_child = repl;
    } else {
        proof {
            assert(p.drop_first() =~= path_ints(path@).skip(d as int + 1));
            assert(valid_child_path(cv[p[0]], p.drop_first()));
            lemma_texts_of_update(cv, p[0], replace_in(cv[p[0]], p.drop_first(), rv));
        }
        match &n.children[i] {
            GreenChild::Node(rc) => {
                proof {
                    assert(child_view(n.children@[i as int]) == node_view(**rc));
                    assert(cv[p[0]] == node_view(**rc));
                }
                new_child = GreenChild::Node(replace_path(&**rc, path, d + 1, repl));
            },
            GreenChild::Token(t) => {
                // An interior step of a valid path always lands on a node.
                proof {
                    assert(child_view(n.children@[i as int]) == cv[p[0]]);
                    assert(cv[p[0]] is Node);
                    assert(false);
                }
                new_child = repl;
            },
        }
    }
    let ghost ncv = child_view(new_child);
    proof {
        assert(replace_in(nv, p, rv) == (Tree::Node {
            kind: kind_of(nv),
            children: cv.update(p[0], ncv),
        }));
        lemma_texts_of_split(cv, p[0]);
        lemma_texts_of_update(cv, p[0], ncv);
    }
    let old_child_len = child_text_len(&n.children[i]);
    let new_child_len = child_text_len(&new_child);
    let total = n.text_len();
    proof {
        assert(text_of(nv) == texts_of(cv));
        assert(old_child_len <= total);
        assert(total - old_child_len + new_child_len == text_of(replace_in(nv, p, rv)).len());
    }
    let text_len = total - old_child_len + new_child_len;
    let mut rebuilt: Vec<GreenChild> = Vec::new();
    let mut j: usize = 0;
    while j < i
        invariant
            j <= i,
            i < n.children@.len(),
            rebuilt@.len() == j,
            forall|k: int| 0 <= k < j ==> child_view(rebuilt@[k]) == child_view(n.children@[k]),
        decreases i - j,
    {
        rebuilt.push(clone_child(&n.children[j]));
        j = j + 1;
    }
    rebuilt.push(new_child);
    let mut j2: usize = i + 1;
    while j2 < n_len
        invariant
            i < j2 <= n_len,
            n_len == n.children@.len(),
            rebuilt@.len() == j2,
            ncv == child_view(rebuilt@[i as int]),
            forall|k: int|
                0 <= k < j2 && k != i ==> child_view(rebuilt@[k]) == child_view(n.children@[k]),
        decreases n_len - j2,
    {
        rebuilt.push(clone_child(&n.children[j2]));
        j2 = j2 + 1;
    }
    proof {
        lemma_children_view(rebuilt@);
        assert(children_view(rebuilt@) =~= cv.update(p[0], ncv));
    }
    Arc::new(GreenNode::assemble(n.kind(), text_len, rebuilt))
}


/// Wraps a completed node as a shared child.
pub fn node_child(n: Arc<GreenNode>) -> (r: GreenChild)
    ensures
        r@ == n@,
        r is Node,
{
    GreenChild::Node(n)
}

/// Wraps a token leaf as a shared child.
pub fn token_child(t: GreenToken) -> (r: GreenChild)
    ensures
        r@ == t@,
        r is Token,
{
    GreenChild::Token(Arc::new(t))
}

/// A child holding a node models exactly that node.
pub proof fn lemma_child_view_node(rc: &Arc<GreenNode>)
    ensures
        child_view(GreenChild::Node(*rc)) == node_view(**rc),
{
}

/// Appending a child appends its model.
pub proof fn lemma_children_view_push(cs: Seq<GreenChild>, c: GreenChild)
    ensures
        children_view(cs.push(c)) == children_view(cs).push(c@),
{
    lemma_children_view(cs.push(c));
    lemma_children_view(cs);
    assert(cs.push(c).last() == c);
    assert(children_view(cs.push(c)) =~= children_view(cs).push(c@));
}

/// The empty child sequence models the empty tree sequence.
pub proof fn lemma_children_view_empty()
    ensures
        children_view(Seq::<GreenChild>::empty()) == Seq::<Tree>::empty(),
{
    assert(children_view(Seq::<GreenChild>::empty()) =~= Seq::<Tree>::empty());
}


/// A child holding a token models exactly that token.
pub proof fn lemma_child_view_token(rc: &Arc<GreenToken>)
    ensures
        child_view(GreenChild::Token(*rc)) == token_view(**rc),
{
}

/// A node value models a node tree whose text is its children's text.
pub proof fn lemma_node_tree_shape(n: &GreenNode)
    ensures
        n@ is Node,
        text_of(n@) == texts_of(children_of(n@)),
{
}

/// A token value models a token tree.
pub proof fn lemma_token_tree_shape(t: &GreenToken)
    ensures
        t@ is Token,
{
}

} // verus!
