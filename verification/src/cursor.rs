//! The cursor layer: positioned, parent-aware, offset-aware views over a
//! value tree, derived on demand from a root and a path of child
//! indices. Cursors own no content; they observe shared value nodes.

use vstd::prelude::*;
use std::sync::Arc;

use crate::green::{
    child_text_len, children_of, element_at, kind_of, lemma_child_view_node,
    lemma_child_view_token, lemma_node_tree_shape, lemma_texts_of_split, lemma_texts_of_update,
    lemma_token_tree_shape, node_view, path_ints, replace_in, text_of, texts_of, token_child,
    token_view, valid_child_path, GreenChild, GreenNode, GreenToken, Tree,
};
use crate::kinds::SyntaxKind;

verus! {

/// The length of the text of the first `i` trees of a sequence: the
/// offset at which the `i`-th child's text starts within its parent.
pub open spec fn prefix_len(ts: Seq<Tree>, i: int) -> int {
    texts_of(ts.take(i)).len() as int
}

/// The element a cursor path leads to: the tree itself for the empty
/// path, the addressed descendant otherwise.
pub open spec fn cursor_target(t: Tree, p: Seq<int>) -> Tree {
    if p.len() == 0 {
        t
    } else {
        element_at(t, p)
    }
}

/// A cursor path is the empty path or a valid child path.
pub open spec fn valid_cursor_path(t: Tree, p: Seq<int>) -> bool {
    p.len() == 0 || valid_child_path(t, p)
}

/// The absolute position at which the addressed element's text starts:
/// the sum, along the path, of the texts of the siblings before it.
pub open spec fn offset_at(t: Tree, p: Seq<int>) -> int
    decreases p.len(),
{
    if p.len() == 0 {
        0
    } else {
        prefix_len(children_of(t), p[0]) + offset_at(children_of(t)[p[0]], p.drop_first())
    }
}

/// A prefix of a text sequence is never longer than the whole.
pub proof fn lemma_prefix_len_bound(ts: Seq<Tree>, i: int)
    requires
        0 <= i <= ts.len(),
    ensures
        0 <= prefix_len(ts, i) <= texts_of(ts).len(),
        i < ts.len() ==> prefix_len(ts, i) + text_of(ts[i]).len() == prefix_len(ts, i + 1),
{
    if i < ts.len() {
        lemma_texts_of_split(ts, i);
        assert(ts.take(i + 1).drop_last() =~= ts.take(i));
        assert(ts.take(i + 1).last() == ts[i]);
    } else {
        assert(ts.take(i) =~= ts);
    }
}

/// The cursor invariant of the model: the text covered by the element a
/// path addresses is exactly the slice of the root's text that starts
/// at the path's offset and spans the element's length.
pub proof fn lemma_cursor_slice(t: Tree, p: Seq<int>)
    requires
        valid_cursor_path(t, p),
    ensures
        0 <= offset_at(t, p),
        offset_at(t, p) + text_of(cursor_target(t, p)).len() <= text_of(t).len(),
        text_of(t).subrange(
            offset_at(t, p),
            offset_at(t, p) + text_of(cursor_target(t, p)).len(),
        ) == text_of(cursor_target(t, p)),
    decreases p.len(),
{
    if p.len() == 0 {
        assert(text_of(t).subrange(0, text_of(t).len() as int) =~= text_of(t));
    } else {
        let i = p[0];
        let cs = children_of(t);
        let child = cs[i];
        lemma_texts_of_split(cs, i);
        lemma_prefix_len_bound(cs, i);
        let rest = p.drop_first();
        if rest.len() == 0 {
            assert(cursor_target(t, p) == child);
        } else {
            assert(valid_child_path(child, rest));
            assert(cursor_target(t, p) == cursor_target(child, rest)) by {
                assert(element_at(t, p) == element_at(child, rest));
            }
        }
        lemma_cursor_slice(child, rest);
        let off = offset_at(t, p);
        let inner = offset_at(child, rest);
        let tlen = text_of(cursor_target(t, p)).len();
        assert(off == prefix_len(cs, i) + inner);
        assert(text_of(t) == texts_of(cs.take(i)) + text_of(child) + texts_of(cs.skip(i + 1)));
        assert(text_of(t).subrange(off, off + tlen) =~= text_of(child).subrange(
            inner,
            inner + tlen,
        ));
    }
}

/// Extending a cursor path by one child index addresses that child, at
/// the offset of the enclosing element plus the text before the child.
pub proof fn lemma_path_extend(t: Tree, p: Seq<int>, i: int)
    requires
        valid_cursor_path(t, p),
        cursor_target(t, p) is Node,
        0 <= i < children_of(cursor_target(t, p)).len(),
    ensures
        valid_child_path(t, p.push(i)),
        element_at(t, p.push(i)) == children_of(cursor_target(t, p))[i],
        offset_at(t, p.push(i)) == offset_at(t, p) + prefix_len(children_of(cursor_target(t, p)), i),
    decreases p.len(),
{
    if p.len() == 0 {
        assert(p.push(i).drop_first() =~= Seq::<int>::empty());
        assert(element_at(t, p.push(i)) == children_of(t)[i]);
        assert(offset_at(t, p.push(i)) == prefix_len(children_of(t), i) + offset_at(
            children_of(t)[i],
            p.push(i).drop_first(),
        ));
    } else {
        let child = children_of(t)[p[0]];
        let rest = p.drop_first();
        if p.len() == 1 {
            assert(rest =~= Seq::<int>::empty());
            assert(element_at(t, p) == child);
            assert(cursor_target(child, rest) == child);
        } else {
            assert(valid_child_path(child, rest));
            assert(element_at(t, p) == element_at(child, rest));
            assert(cursor_target(child, rest) == cursor_target(t, p));
        }
        lemma_path_extend(child, rest, i);
        assert(p.push(i).drop_first() =~= rest.push(i));
        assert(p.push(i)[0] == p[0]);
        assert(valid_child_path(child, p.push(i).drop_first()));
        assert(element_at(t, p.push(i)) == element_at(child, p.push(i).drop_first()));
        assert(offset_at(t, p.push(i)) == prefix_len(children_of(t), p[0]) + offset_at(
            child,
            rest.push(i),
        ));
        assert(offset_at(t, p) == prefix_len(children_of(t), p[0]) + offset_at(child, rest));
    }
}

/// Cutting a valid child path before its end leaves a valid child path
/// that addresses a node.
pub proof fn lemma_valid_prefix(t: Tree, p: Seq<int>, k: int)
    requires
        valid_child_path(t, p),
        0 < k < p.len(),
    ensures
        valid_child_path(t, p.take(k)),
        element_at(t, p.take(k)) is Node,
    decreases p.len(),
{
    if k == 1 {
        assert(element_at(t, p.take(1)) == children_of(t)[p[0]]);
        assert(valid_child_path(children_of(t)[p[0]], p.drop_first()));
    } else {
        lemma_valid_prefix(children_of(t)[p[0]], p.drop_first(), k - 1);
        assert(p.take(k).drop_first() =~= p.drop_first().take(k - 1));
        assert(element_at(t, p.take(k)) == element_at(children_of(t)[p[0]], p.take(k).drop_first()));
    }
}


/// A positioned view of a node: a shared root, the path of child
/// indices that reaches the node, the node itself, and its absolute
/// text offset. Cursors are cheap and disposable; many may observe the
/// same underlying value node.
pub struct SyntaxNode {
    root: Arc<GreenNode>,
    path: Vec<usize>,
    green: Arc<GreenNode>,
    offset: usize,
}

/// A positioned view of a token, derived like a node cursor.
pub struct SyntaxToken {
    root: Arc<GreenNode>,
    path: Vec<usize>,
    green: Arc<GreenToken>,
    offset: usize,
}

/// A positioned view of either a node or a token.
pub enum SyntaxElement {
    Node(SyntaxNode),
    Token(SyntaxToken),
}

impl SyntaxNode {
    #[verifier::type_invariant]
    spec fn inv(self) -> bool {
        &&& valid_cursor_path(node_view(*self.root), path_ints(self.path@))
        &&& cursor_target(node_view(*self.root), path_ints(self.path@)) == node_view(*self.green)
        &&& self.offset == offset_at(node_view(*self.root), path_ints(self.path@))
    }

    /// The model of the tree this cursor was derived from.
    pub closed spec fn root_view(self) -> Tree {
        node_view(*self.root)
    }

    /// The path of child indices from the root to this cursor.
    pub closed spec fn path_view(self) -> Seq<int> {
        path_ints(self.path@)
    }
}

impl View for SyntaxNode {
    type V = Tree;

    open spec fn view(&self) -> Tree {
        cursor_target(self.root_view(), self.path_view())
    }
}

impl SyntaxToken {
    #[verifier::type_invariant]
    spec fn inv(self) -> bool {
        &&& valid_child_path(node_view(*self.root), path_ints(self.path@))
        &&& element_at(node_view(*self.root), path_ints(self.path@)) == token_view(*self.green)
        &&& self.offset == offset_at(node_view(*self.root), path_ints(self.path@))
    }

    /// The model of the tree this cursor was derived from.
    pub closed spec fn root_view(self) -> Tree {
        node_view(*self.root)
    }

    /// The path of child indices from the root to this cursor.
    pub closed spec fn path_view(self) -> Seq<int> {
        path_ints(self.path@)
    }
}

impl View for SyntaxToken {
    type V = Tree;

    open spec fn view(&self) -> Tree {
        cursor_target(self.root_view(), self.path_view())
    }
}

impl SyntaxNode {
    /// Derives the root cursor of a completed value tree.
    pub fn new_root(green: Arc<GreenNode>) -> (r: SyntaxNode)
        ensures
            r.root_view() == green@,
            r.path_view() == Seq::<int>::empty(),
            r@ == green@,
    {
        let path: Vec<usize> = Vec::new();
        proof {
            assert(path_ints(path@) =~= Seq::<int>::empty());
        }
        let r = SyntaxNode { root: green.clone(), path, green, offset: 0 };
        r
    }

    /// The kind of the node under this cursor.
    pub fn kind(&self) -> (r: SyntaxKind)
        ensures
            r == kind_of(self@),
    {
        proof {
            use_type_invariant(self);
        }
        self.green.kind()
    }

    /// The absolute offset, within the root's text, at which this
    /// cursor's text starts.
    pub fn offset(&self) -> (r: usize)
        ensures
            r == offset_at(self.root_view(), self.path_view()),
    {
        proof {
            use_type_invariant(self);
        }
        self.offset
    }

    /// The length of the text this cursor covers.
    pub fn text_len(&self) -> (r: usize)
        ensures
            r == text_of(self@).len(),
    {
        proof {
            use_type_invariant(self);
        }
        self.green.text_len()
    }

    /// The exact substring of the root's text that this cursor covers,
    /// reconstructed on demand from the descendant tokens.
    pub fn text(&self) -> (r: String)
        ensures
            r@ == text_of(self@),
    {
        proof {
            use_type_invariant(self);
        }
        self.green.text()
    }

    /// How many immediate children the node under this cursor has.
    pub fn n_children(&self) -> (r: usize)
        ensures
            r == children_of(self@).len(),
    {
        proof {
            use_type_invariant(self);
        }
        self.green.n_children()
    }
}

impl SyntaxToken {
    /// The kind of the token under this cursor.
    pub fn kind(&self) -> (r: SyntaxKind)
        ensures
            r == kind_of(self@),
    {
        proof {
            use_type_invariant(self);
        }
        self.green.kind()
    }

    /// The absolute offset, within the root's text, at which this
    /// token's text starts.
    pub fn offset(&self) -> (r: usize)
        ensures
            r == offset_at(self.root_view(), self.path_view()),
    {
        proof {
            use_type_invariant(self);
        }
        self.offset
    }

    /// The exact text of the token under this cursor.
    pub fn text(&self) -> (r: &str)
        ensures
            r@ == text_of(self@),
    {
        proof {
            use_type_invariant(self);
        }
        self.green.text()
    }
}


/// The total text length of the children of a node before position `i`.
fn prefix_text_len(n: &GreenNode, i: usize) -> (r: usize)
    requires
        i <= children_of(n@).len(),
    ensures
        r == prefix_len(children_of(n@), i as int),
{
    let total = n.text_len();
    proof {
        lemma_node_tree_shape(n);
    }
    let mut acc: usize = 0;
    let mut j: usize = 0;
    while j < i
        invariant
            j <= i,
            i <= children_of(n@).len(),
            acc == prefix_len(children_of(n@), j as int),
            total == text_of(n@).len(),
            text_of(n@) == texts_of(children_of(n@)),
        decreases i - j,
    {
        let c = n.get_child(j);
        let l = child_text_len(c);
        proof {
            lemma_prefix_len_bound(children_of(n@), j as int);
            lemma_prefix_len_bound(children_of(n@), j + 1);
        }
        acc = acc + l;
        j = j + 1;
    }
    acc
}

/// Walks from a root along the first `end` steps of a path, handing
/// back the node reached and its absolute offset.
fn walk(n: &Arc<GreenNode>, path: &Vec<usize>, end: usize) -> (r: (Arc<GreenNode>, usize))
    requires
        end <= path@.len(),
        valid_cursor_path(node_view(**n), path_ints(path@).take(end as int)),
        cursor_target(node_view(**n), path_ints(path@).take(end as int)) is Node,
    ensures
        r.0@ == cursor_target(node_view(**n), path_ints(path@).take(end as int)),
        r.1 == offset_at(node_view(**n), path_ints(path@).take(end as int)),
{
    let ghost root = (&**n)@;
    let ghost p = path_ints(path@);
    let root_total = n.text_len();
    let mut cur: Arc<GreenNode> = n.clone();
    let mut cur_off: usize = 0;
    let mut d: usize = 0;
    proof {
        assert(p.take(0) =~= Seq::<int>::empty());
        lemma_node_tree_shape(&**n);
    }
    while d < end
        invariant
            d <= end,
            end <= path@.len(),
            p == path_ints(path@),
            root == node_view(**n),
            root_total == text_of(root).len(),
            valid_cursor_path(root, p.take(end as int)),
            cursor_target(root, p.take(end as int)) is Node,
            valid_cursor_path(root, p.take(d as int)),
            cur@ == cursor_target(root, p.take(d as int)),
            cur_off == offset_at(root, p.take(d as int)),
            d < end ==> valid_child_path(cur@, p.subrange(d as int, end as int)),
        decreases end - d,
    {
        let ghost tcur = cursor_target(root, p.take(d as int));
        let ghost sfx = p.subrange(d as int, end as int);
        let i = path[d];
        proof {
            assert(sfx[0] == p[d as int]);
            assert(0 <= p[d as int] < children_of(cur@).len());
            lemma_path_extend(root, p.take(d as int), p[d as int]);
            assert(p.take(d as int).push(p[d as int]) =~= p.take(d + 1));
            lemma_cursor_slice(root, p.take(d + 1));
        }
        let pre = prefix_text_len(&*cur, i);
        let c = cur.get_child(i);
        let ghost child_tree = children_of(cur@)[i as int];
        proof {
            assert(child_tree == cursor_target(root, p.take(d + 1)));
            if d + 1 < end {
                assert(sfx.drop_first() =~= p.subrange(d + 1, end as int));
                assert(valid_child_path(child_tree, sfx.drop_first()));
                assert(child_tree is Node);
            } else {
                assert(p.take(d + 1) =~= p.take(end as int));
                assert(child_tree is Node);
            }
        }
        let next: Arc<GreenNode> = match c {
            GreenChild::Node(rc) => {
                proof {
                    lemma_child_view_node(rc);
                }
                rc.clone()
            },
            GreenChild::Token(tk) => {
                // Every step of the walk lands on a node.
                proof {
                    lemma_child_view_token(tk);
                    lemma_token_tree_shape(&**tk);
                    assert(false);
                }
                cur.clone()
            },
        };
        cur = next;
        cur_off = cur_off + pre;
        d = d + 1;
    }
    (cur, cur_off)
}

impl SyntaxNode {
    /// The enclosing node cursor, absent exactly at the root.
    pub fn parent(&self) -> (r: Option<SyntaxNode>)
        ensures
            r is Some <==> self.path_view().len() > 0,
            r matches Some(p) ==> {
                &&& p.root_view() == self.root_view()
                &&& p.path_view() == self.path_view().drop_last()
                &&& p@ == cursor_target(self.root_view(), self.path_view().drop_last())
            },
    {
        proof {
            use_type_invariant(self);
        }
        if self.path.len() == 0 {
            None
        } else {
            let end = self.path.len() - 1;
            proof {
                lemma_node_tree_shape(&*self.root);
                if end > 0 {
                    lemma_valid_prefix(self.root_view(), self.path_view(), end as int);
                } else {
                    assert(self.path_view().take(0) =~= Seq::<int>::empty());
                }
            }
            let (g, off) = walk(&self.root, &self.path, end);
            let mut path2 = self.path.clone();
            path2.pop();
            proof {
                assert(path_ints(path2@) =~= self.path_view().take(end as int));
                assert(self.path_view().drop_last() =~= self.path_view().take(end as int));
            }
            Some(SyntaxNode { root: self.root.clone(), path: path2, green: g, offset: off })
        }
    }
}

impl SyntaxToken {
    /// The enclosing node cursor; a token always has one.
    pub fn parent(&self) -> (r: SyntaxNode)
        ensures
            r.root_view() == self.root_view(),
            r.path_view() == self.path_view().drop_last(),
            r@ == cursor_target(self.root_view(), self.path_view().drop_last()),
    {
        proof {
            use_type_invariant(self);
        }
        let end = self.path.len() - 1;
        proof {
            lemma_node_tree_shape(&*self.root);
            if end > 0 {
                lemma_valid_prefix(self.root_view(), self.path_view(), end as int);
            } else {
                assert(self.path_view().take(0) =~= Seq::<int>::empty());
            }
        }
        let (g, off) = walk(&self.root, &self.path, end);
        let mut path2 = self.path.clone();
        path2.pop();
        proof {
            assert(path_ints(path2@) =~= self.path_view().take(end as int));
            assert(self.path_view().drop_last() =~= self.path_view().take(end as int));
        }
        SyntaxNode { root: self.root.clone(), path: path2, green: g, offset: off }
    }
}


/// What it means for one produced element to be the cursor of one
/// child: same root, the path extended by the child's position, and
/// the matching variant.
pub open spec fn element_matches(e: SyntaxElement, root: Tree, p: Seq<int>, t: Tree) -> bool {
    match e {
        SyntaxElement::Node(n) => {
            &&& t is Node
            &&& n.root_view() == root
            &&& n.path_view() == p
            &&& n@ == t
        },
        SyntaxElement::Token(k) => {
            &&& t is Token
            &&& k.root_view() == root
            &&& k.path_view() == p
            &&& k@ == t
        },
    }
}

impl SyntaxElement {
    /// The kind of the element under this cursor.
    pub fn kind(&self) -> (r: SyntaxKind)
        ensures
            r == kind_of(self@),
    {
        match self {
            SyntaxElement::Node(n) => n.kind(),
            SyntaxElement::Token(t) => t.kind(),
        }
    }
}

impl View for SyntaxElement {
    type V = Tree;

    open spec fn view(&self) -> Tree {
        match self {
            SyntaxElement::Node(n) => n@,
            SyntaxElement::Token(t) => t@,
        }
    }
}

impl SyntaxNode {
    /// All immediate children of this node, nodes and tokens
    /// interleaved in original order, each as a positioned cursor.
    pub fn children_with_tokens(&self) -> (r: Vec<SyntaxElement>)
        ensures
            r@.len() == children_of(self@).len(),
            forall|i: int|
                0 <= i < r@.len() ==> element_matches(
                    r@[i],
                    self.root_view(),
                    self.path_view().push(i),
                    children_of(self@)[i],
                ),
    {
        proof {
            use_type_invariant(self);
            lemma_node_tree_shape(&*self.green);
        }
        let root_total = self.root.text_len();
        let sub_total = self.green.text_len();
        let n = self.green.n_children();
        let mut out: Vec<SyntaxElement> = Vec::new();
        let mut acc: usize = 0;
        let mut j: usize = 0;
        while j < n
            invariant
                j <= n,
                n == children_of(self@).len(),
                out@.len() == j,
                acc == prefix_len(children_of(self@), j as int),
                root_total == text_of(self.root_view()).len(),
                sub_total == text_of(self@).len(),
                text_of(self@) == texts_of(children_of(self@)),
                self.inv(),
                forall|i: int|
                    0 <= i < j ==> element_matches(
                        out@[i],
                        self.root_view(),
                        self.path_view().push(i),
                        children_of(self@)[i],
                    ),
            decreases n - j,
        {
            let c = self.green.get_child(j);
            let clen = child_text_len(c);
            proof {
                lemma_path_extend(self.root_view(), self.path_view(), j as int);
                assert(self.path_view().push(j as int).len() > 0);
                lemma_cursor_slice(self.root_view(), self.path_view().push(j as int));
                lemma_prefix_len_bound(children_of(self@), j as int);
                lemma_prefix_len_bound(children_of(self@), j + 1);
            }
            let child_off = self.offset + acc;
            let mut path2 = self.path.clone();
            path2.push(j);
            proof {
                assert(path_ints(path2@) =~= self.path_view().push(j as int));
            }
            let el = match c {
                GreenChild::Node(rc) => {
                    proof {
                        lemma_child_view_node(rc);
                        lemma_node_tree_shape(&**rc);
                    }
                    SyntaxElement::Node(
                        SyntaxNode {
                            root: self.root.clone(),
                            path: path2,
                            green: rc.clone(),
                            offset: child_off,
                        },
                    )
                },
                GreenChild::Token(tk) => {
                    proof {
                        lemma_child_view_token(tk);
                        lemma_token_tree_shape(&**tk);
                    }
                    SyntaxElement::Token(
                        SyntaxToken {
                            root: self.root.clone(),
                            path: path2,
                            green: tk.clone(),
                            offset: child_off,
                        },
                    )
                },
            };
            out.push(el);
            acc = acc + clen;
            j = j + 1;
        }
        out
    }
}


/// The positions, in order, of the children that are nodes.
pub open spec fn node_indices(ts: Seq<Tree>) -> Seq<int>
    decreases ts,
{
    if ts.len() == 0 {
        Seq::empty()
    } else {
        node_indices(ts.drop_last()) + (if ts.last() is Node {
            seq![ts.len() - 1]
        } else {
            Seq::empty()
        })
    }
}

impl SyntaxNode {
    /// The immediate children that are nodes, in original order, each
    /// as a positioned cursor.
    pub fn children(&self) -> (r: Vec<SyntaxNode>)
        ensures
            r@.len() == node_indices(children_of(self@)).len(),
            forall|k: int|
                0 <= k < r@.len() ==> ({
                    let i = node_indices(children_of(self@))[k];
                    &&& (#[trigger] r@[k]).root_view() == self.root_view()
                    &&& r@[k].path_view() == self.path_view().push(i)
                    &&& r@[k]@ == children_of(self@)[i]
                }),
    {
        let all = self.children_with_tokens();
        let ghost cs = children_of(self@);
        let mut out: Vec<SyntaxNode> = Vec::new();
        let mut j: usize = 0;
        let n = all.len();
        while j < n
            invariant
                j <= n,
                n == all@.len(),
                n == cs.len(),
                cs == children_of(self@),
                forall|i: int|
                    0 <= i < n ==> element_matches(
                        all@[i],
                        self.root_view(),
                        self.path_view().push(i),
                        cs[i],
                    ),
                out@.len() == node_indices(cs.take(j as int)).len(),
                forall|k: int|
                    0 <= k < out@.len() ==> ({
                        let i = node_indices(cs.take(j as int))[k];
                        &&& (#[trigger] out@[k]).root_view() == self.root_view()
                        &&& out@[k].path_view() == self.path_view().push(i)
                        &&& out@[k]@ == cs[i]
                    }),
            decreases n - j,
        {
            proof {
                assert(cs.take(j + 1).drop_last() =~= cs.take(j as int));
                assert(cs.take(j + 1).last() == cs[j as int]);
            }
            match &all[j] {
                SyntaxElement::Node(node) => {
                    proof {
                        use_type_invariant(node);
                    }
                    let path2 = node.path.clone();
                    proof {
                        assert(path2@ =~= node.path@);
                        assert(path_ints(path2@) =~= path_ints(node.path@));
                    }
                    let copied = SyntaxNode {
                        root: node.root.clone(),
                        path: path2,
                        green: node.green.clone(),
                        offset: node.offset,
                    };
                    proof {
                        assert(copied.root_view() == node.root_view());
                        assert(copied.path_view() == node.path_view());
                    }
                    out.push(copied);
                },
                SyntaxElement::Token(_) => {
                },
            }
            j = j + 1;
        }
        proof {
            assert(cs.take(n as int) =~= cs);
        }
        out
    }

    /// Persistent replace at this cursor's position: a new root in
    /// which the node under this cursor is the given replacement,
    /// every ancestor on the path is rebuilt, and every subtree off
    /// the path is shared with the old root. A cursor at the root
    /// itself is replaced outright. The old root is untouched.
    pub fn replace_with(&self, repl: Arc<GreenNode>) -> (r: Arc<GreenNode>)
        requires
            self.path_view().len() > 0 ==> text_of(
                replace_in(self.root_view(), self.path_view(), repl@),
            ).len() <= usize::MAX,
        ensures
            self.path_view().len() == 0 ==> r@ == repl@,
            self.path_view().len() > 0 ==> r@ == replace_in(
                self.root_view(),
                self.path_view(),
                repl@,
            ),
    {
        proof {
            use_type_invariant(self);
        }
        if self.path.len() == 0 {
            repl
        } else {
            proof {
                lemma_child_view_node(&repl);
                assert(path_ints(self.path@).skip(0) =~= self.path_view());
            }
            crate::green::replace_path(&self.root, &self.path, 0, GreenChild::Node(repl))
        }
    }
}

impl SyntaxToken {
    /// Persistent replace at this token's position: a new root in
    /// which the token under this cursor is the given replacement
    /// leaf, every ancestor on the path is rebuilt, and every subtree
    /// off the path is shared with the old root. The old root is
    /// untouched.
    pub fn replace_with(&self, repl: GreenToken) -> (r: Arc<GreenNode>)
        requires
            text_of(replace_in(self.root_view(), self.path_view(), repl@)).len() <= usize::MAX,
        ensures
            r@ == replace_in(self.root_view(), self.path_view(), repl@),
    {
        proof {
            use_type_invariant(self);
        }
        let c = token_child(repl);
        proof {
            assert(path_ints(self.path@).skip(0) =~= self.path_view());
        }
        crate::green::replace_path(&self.root, &self.path, 0, c)
    }
}


impl SyntaxToken {
    /// An independent cursor observing the same token at the same
    /// position of the same root.
    pub fn duplicate(&self) -> (r: SyntaxToken)
        ensures
            r.root_view() == self.root_view(),
            r.path_view() == self.path_view(),
            r@ == self@,
    {
        proof {
            use_type_invariant(self);
        }
        let path2 = self.path.clone();
        proof {
            assert(path2@ =~= self.path@);
            assert(path_ints(path2@) =~= path_ints(self.path@));
        }
        SyntaxToken {
            root: self.root.clone(),
            path: path2,
            green: self.green.clone(),
            offset: self.offset,
        }
    }
}

impl SyntaxNode {
    /// An independent cursor observing the same node at the same
    /// position of the same root.
    pub fn duplicate(&self) -> (r: SyntaxNode)
        ensures
            r.root_view() == self.root_view(),
            r.path_view() == self.path_view(),
            r@ == self@,
    {
        proof {
            use_type_invariant(self);
        }
        let path2 = self.path.clone();
        proof {
            assert(path2@ =~= self.path@);
            assert(path_ints(path2@) =~= path_ints(self.path@));
        }
        SyntaxNode {
            root: self.root.clone(),
            path: path2,
            green: self.green.clone(),
            offset: self.offset,
        }
    }
}


/// After a persistent replace, the new tree's text is the old tree's
/// text with exactly the replaced element's span rewritten to the
/// replacement's text; the text before and after the span is
/// unchanged. The old tree itself is untouched: replace builds a new
/// root, so every cursor over the old root keeps its text.
pub proof fn lemma_replace_text_splice(t: Tree, p: Seq<int>, r: Tree)
    requires
        valid_child_path(t, p),
    ensures
        text_of(replace_in(t, p, r)) == text_of(t).take(offset_at(t, p)) + text_of(r) + text_of(
            t,
        ).skip(offset_at(t, p) + text_of(element_at(t, p)).len()),
    decreases p.len(),
{
    let i = p[0];
    let cs = children_of(t);
    lemma_texts_of_split(cs, i);
    lemma_prefix_len_bound(cs, i);
    let off = offset_at(t, p);
    if p.len() == 1 {
        lemma_texts_of_update(cs, i, r);
        assert(element_at(t, p) == cs[i]);
        assert(off == prefix_len(cs, i));
        assert(text_of(replace_in(t, p, r)) == texts_of(cs.update(i, r)));
        assert(text_of(t).take(off) =~= texts_of(cs.take(i)));
        assert(text_of(t).skip(off + text_of(cs[i]).len()) =~= texts_of(cs.skip(i + 1)));
        assert(text_of(replace_in(t, p, r)) =~= text_of(t).take(off) + text_of(r) + text_of(
            t,
        ).skip(off + text_of(element_at(t, p)).len()));
    } else {
        let child = cs[i];
        let rest = p.drop_first();
        let new_child = replace_in(child, rest, r);
        lemma_replace_text_splice(child, rest, r);
        lemma_texts_of_update(cs, i, new_child);
        lemma_cursor_slice(child, rest);
        let inner = offset_at(child, rest);
        let el = element_at(child, rest);
        assert(element_at(t, p) == el);
        assert(off == prefix_len(cs, i) + inner);
        assert(text_of(replace_in(t, p, r)) == texts_of(cs.update(i, new_child)));
        assert(text_of(new_child) == text_of(child).take(inner) + text_of(r) + text_of(child).skip(
            inner + text_of(el).len(),
        ));
        assert(text_of(t).take(off) =~= texts_of(cs.take(i)) + text_of(child).take(inner));
        assert(text_of(t).skip(off + text_of(el).len()) =~= text_of(child).skip(
            inner + text_of(el).len(),
        ) + texts_of(cs.skip(i + 1)));
        assert(text_of(replace_in(t, p, r)) =~= text_of(t).take(off) + text_of(r) + text_of(
            t,
        ).skip(off + text_of(el).len()));
    }
}

} // verus!
