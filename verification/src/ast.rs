//! The typed-view layer: kind-guarded wrappers that cast generic node
//! cursors into grammar-specific accessor types. A failed cast is an
//! ordinary, expected outcome, never an error.

use vstd::prelude::*;

use crate::cursor::{element_matches, SyntaxElement, SyntaxNode, SyntaxToken};
use crate::green::{children_of, kind_of, Tree};
use crate::kinds::SyntaxKind;

verus! {

/// The positions, in order, of the children that are tokens of the
/// given kind.
pub open spec fn token_indices_of_kind(ts: Seq<Tree>, k: SyntaxKind) -> Seq<int>
    decreases ts,
{
    if ts.len() == 0 {
        Seq::empty()
    } else {
        token_indices_of_kind(ts.drop_last(), k) + (if ts.last() is Token && kind_of(ts.last())
            == k {
            seq![ts.len() - 1]
        } else {
            Seq::empty()
        })
    }
}

/// A typed view of a module-name node: a dotted chain of name
/// segments, such as the `PureScript.Main` of a module header.
pub struct ModuleName {
    syntax: SyntaxNode,
}

impl ModuleName {
    /// The cursor this view wraps.
    pub closed spec fn cursor(self) -> SyntaxNode {
        self.syntax
    }

    /// Casts a generic node cursor into this view: succeeds exactly
    /// when the node's kind is `ModuleName`.
    pub fn cast(node: SyntaxNode) -> (r: Option<ModuleName>)
        ensures
            r is Some <==> kind_of(node@) == SyntaxKind::ModuleName,
            r matches Some(m) ==> m.cursor() == node,
    {
        if node.kind() == SyntaxKind::ModuleName {
            Some(ModuleName { syntax: node })
        } else {
            None
        }
    }

    /// The underlying cursor.
    pub fn syntax(&self) -> (r: &SyntaxNode)
        ensures
            *r == self.cursor(),
    {
        &self.syntax
    }

    /// The name segments: the `Upper` tokens among the immediate
    /// children, in order, skipping the dots between them.
    pub fn segments(&self) -> (r: Vec<SyntaxToken>)
        ensures
            r@.len() == token_indices_of_kind(
                children_of(self.cursor()@),
                SyntaxKind::Upper,
            ).len(),
            forall|k: int|
                0 <= k < r@.len() ==> ({
                    let i = token_indices_of_kind(children_of(self.cursor()@), SyntaxKind::Upper)[k];
                    &&& (#[trigger] r@[k]).root_view() == self.cursor().root_view()
                    &&& r@[k].path_view() == self.cursor().path_view().push(i)
                    &&& r@[k]@ == children_of(self.cursor()@)[i]
                }),
    {
        let all = self.syntax.children_with_tokens();
        let ghost cs = children_of(self.cursor()@);
        let mut out: Vec<SyntaxToken> = Vec::new();
        let mut j: usize = 0;
        let n = all.len();
        while j < n
            invariant
                j <= n,
                n == all@.len(),
                n == cs.len(),
                cs == children_of(self.cursor()@),
                forall|i: int|
                    0 <= i < n ==> element_matches(
                        all@[i],
                        self.cursor().root_view(),
                        self.cursor().path_view().push(i),
                        cs[i],
                    ),
                out@.len() == token_indices_of_kind(cs.take(j as int), SyntaxKind::Upper).len(),
                forall|k: int|
                    0 <= k < out@.len() ==> ({
                        let i = token_indices_of_kind(cs.take(j as int), SyntaxKind::Upper)[k];
                        &&& (#[trigger] out@[k]).root_view() == self.cursor().root_view()
                        &&& out@[k].path_view() == self.cursor().path_view().push(i)
                        &&& out@[k]@ == cs[i]
                    }),
            decreases n - j,
        {
            proof {
                assert(cs.take(j + 1).drop_last() =~= cs.take(j as int));
                assert(cs.take(j + 1).last() == cs[j as int]);
            }
            match &all[j] {
                SyntaxElement::Token(tk) => {
                    if tk.kind() == SyntaxKind::Upper {
                        out.push(tk.duplicate());
                    }
                },
                SyntaxElement::Node(_) => {},
            }
            j = j + 1;
        }
        proof {
            assert(cs.take(n as int) =~= cs);
        }
        out
    }
}

/// A typed view accepting a name in either of its two shapes: a
/// qualified name or a simple name. Speculative casting over siblings
/// of mixed kind tries this view and moves on when it says no.
pub struct QualifiedOrSimpleName {
    syntax: SyntaxNode,
}

impl QualifiedOrSimpleName {
    /// The cursor this view wraps.
    pub closed spec fn cursor(self) -> SyntaxNode {
        self.syntax
    }

    /// Casts a generic node cursor into this view: succeeds exactly
    /// when the node's kind is `QualifiedName` or `Name`.
    pub fn cast(node: SyntaxNode) -> (r: Option<QualifiedOrSimpleName>)
        ensures
            r is Some <==> (kind_of(node@) == SyntaxKind::QualifiedName || kind_of(node@)
                == SyntaxKind::Name),
            r matches Some(m) ==> m.cursor() == node,
    {
        let k = node.kind();
        if k == SyntaxKind::QualifiedName || k == SyntaxKind::Name {
            Some(QualifiedOrSimpleName { syntax: node })
        } else {
            None
        }
    }

    /// The underlying cursor.
    pub fn syntax(&self) -> (r: &SyntaxNode)
        ensures
            *r == self.cursor(),
    {
        &self.syntax
    }
}

} // verus!
