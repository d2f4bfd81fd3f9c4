//! The builder: assembles a value tree bottom-up from a flat sequence of
//! structural events under a strict stack discipline.

use vstd::prelude::*;
use std::sync::Arc;

use crate::green::{
    children_view, lemma_child_view_node, lemma_children_view, lemma_children_view_empty,
    lemma_children_view_push, node_child, text_of, texts_of, token_child, GreenChild, GreenNode,
    GreenToken, Tree,
};
use crate::kinds::SyntaxKind;

verus! {

/// One open frame of the builder: the kind the node will carry, the
/// children accumulated so far, and their total text length.
struct Frame {
    kind: SyntaxKind,
    children: Vec<GreenChild>,
    text_len: usize,
}

/// Ghost model of a builder: the open frames from outermost to
/// innermost, each a kind with its accumulated child trees, and the
/// completed top-level trees.
pub struct BuilderModel {
    pub frames: Seq<(SyntaxKind, Seq<Tree>)>,
    pub done: Seq<Tree>,
}

/// The text accumulated in a stack of open frames, outermost first.
pub open spec fn frames_text(fs: Seq<(SyntaxKind, Seq<Tree>)>) -> Seq<char>
    decreases fs,
{
    if fs.len() == 0 {
        Seq::empty()
    } else {
        frames_text(fs.drop_last()) + texts_of(fs.last().1)
    }
}

/// All text handed to a builder so far, in emission order: the text of
/// the completed trees, then the text accumulated in the open frames.
pub open spec fn pending_text(m: BuilderModel) -> Seq<char> {
    texts_of(m.done) + frames_text(m.frames)
}

/// One frame's accumulated text is part of the whole stack's text.
proof fn lemma_frames_text_part(fs: Seq<(SyntaxKind, Seq<Tree>)>, i: int)
    requires
        0 <= i < fs.len(),
    ensures
        texts_of(fs[i].1).len() <= frames_text(fs).len(),
    decreases fs,
{
    if i < fs.len() - 1 {
        lemma_frames_text_part(fs.drop_last(), i);
    }
}

/// Two distinct frames' accumulated texts together are part of the
/// whole stack's text.
proof fn lemma_frames_text_two_parts(fs: Seq<(SyntaxKind, Seq<Tree>)>, i: int, j: int)
    requires
        0 <= i < j < fs.len(),
    ensures
        texts_of(fs[i].1).len() + texts_of(fs[j].1).len() <= frames_text(fs).len(),
    decreases fs,
{
    if j == fs.len() - 1 {
        lemma_frames_text_part(fs.drop_last(), i);
    } else {
        lemma_frames_text_two_parts(fs.drop_last(), i, j);
    }
}

/// The incremental builder. Events arrive as `start_node`, `token` and
/// `finish_node` calls; `finish` hands back the single completed root.
pub struct GreenNodeBuilder {
    stack: Vec<Frame>,
    finished: Vec<GreenChild>,
}

impl GreenNodeBuilder {
    /// The open frames, outermost first: each one's kind and the
    /// models of its accumulated children.
    pub closed spec fn frames_view(self) -> Seq<(SyntaxKind, Seq<Tree>)> {
        self.stack@.map_values(|f: Frame| (f.kind, children_view(f.children@)))
    }

    /// The completed top-level trees, in completion order.
    pub closed spec fn done_view(self) -> Seq<Tree> {
        children_view(self.finished@)
    }

    /// The whole state of the builder as a model.
    pub open spec fn model(self) -> BuilderModel {
        BuilderModel { frames: self.frames_view(), done: self.done_view() }
    }

    /// The builder's well-formedness: every frame's cached length is
    /// the length of its accumulated text, completed top-level
    /// elements are nodes, and all pending text fits in a machine
    /// length.
    pub closed spec fn wf(self) -> bool {
        &&& forall|i: int|
            0 <= i < self.stack@.len() ==> (#[trigger] self.stack@[i]).text_len == texts_of(
                children_view(self.stack@[i].children@),
            ).len()
        &&& forall|i: int| 0 <= i < self.finished@.len() ==> self.finished@[i] is Node
        &&& pending_text(self.model()).len() <= usize::MAX
    }

    /// A fresh builder: no open frame, nothing completed.
    pub fn new() -> (r: GreenNodeBuilder)
        ensures
            r.wf(),
            r.model().frames.len() == 0,
            r.model().done.len() == 0,
    {
        let r = GreenNodeBuilder { stack: Vec::new(), finished: Vec::new() };
        proof {
            lemma_children_view_empty();
            assert(r.frames_view() =~= Seq::<(SyntaxKind, Seq<Tree>)>::empty());
            assert(r.done_view() =~= Seq::<Tree>::empty());
            assert(pending_text(r.model()) =~= Seq::<char>::empty());
        }
        r
    }

    /// Opens a new innermost frame for a node of the given kind.
    pub fn start_node(&mut self, kind: SyntaxKind)
        requires
            old(self).wf(),
        ensures
            final(self).wf(),
            final(self).model().frames == old(self).model().frames.push(
                (kind, Seq::<Tree>::empty()),
            ),
            final(self).model().done == old(self).model().done,
            pending_text(final(self).model()) == pending_text(old(self).model()),
            final(self).model() == apply_event(
                old(self).model(),
                BuilderEvent::StartNode { kind },
            ),
    {
        let ghost before = self.model();
        self.stack.push(Frame { kind, children: Vec::new(), text_len: 0 });
        proof {
            lemma_children_view_empty();
            assert(self.frames_view() =~= before.frames.push((kind, Seq::<Tree>::empty())));
            assert(self.frames_view().drop_last() =~= before.frames);
            assert(texts_of(Seq::<Tree>::empty()) == Seq::<char>::empty());
            assert(frames_text(self.frames_view()) =~= frames_text(before.frames));
            assert(pending_text(self.model()) =~= pending_text(before));
        }
    }

    /// Appends a token leaf, carrying the given kind and exact text, to
    /// the current open frame.
    pub fn token(&mut self, kind: SyntaxKind, text: &str)
        requires
            old(self).wf(),
            old(self).model().frames.len() > 0,
            pending_text(old(self).model()).len() + text@.len() <= usize::MAX,
        ensures
            final(self).wf(),
            final(self).model().done == old(self).model().done,
            final(self).model().frames == ({
                let frames = old(self).model().frames;
                frames.update(
                    frames.len() - 1,
                    (frames.last().0, frames.last().1.push(Tree::Token { kind, text: text@ })),
                )
            }),
            pending_text(final(self).model()) == pending_text(old(self).model()) + text@,
            final(self).model() == apply_event(
                old(self).model(),
                BuilderEvent::Token { kind, text: text@ },
            ),
    {
        let ghost before = self.model();
        let tok = GreenToken::new(kind, text);
        let token_len = tok.text_len();
        let tok_child = token_child(tok);
        let ghost tok_child_g = tok_child;
        let ghost tree = (Tree::Token { kind, text: text@ });
        proof {
            lemma_frames_text_part(before.frames, before.frames.len() - 1);
        }
        let mut top = self.stack.pop().unwrap();
        let ghost old_children = top.children@;
        top.children.push(tok_child);
        top.text_len = top.text_len + token_len;
        self.stack.push(top);
        proof {
            lemma_children_view_push(old_children, tok_child_g);
            let frames2 = before.frames.update(
                before.frames.len() - 1,
                (before.frames.last().0, before.frames.last().1.push(tree)),
            );
            assert(self.frames_view() =~= frames2);
            assert(frames2.drop_last() =~= before.frames.drop_last());
            assert(before.frames.last().1.push(tree).drop_last() =~= before.frames.last().1);
            assert(texts_of(before.frames.last().1.push(tree)) == texts_of(
                before.frames.last().1,
            ) + text@);
            assert(frames_text(frames2) == frames_text(before.frames.drop_last()) + (texts_of(
                before.frames.last().1,
            ) + text@));
            assert(frames_text(before.frames) == frames_text(before.frames.drop_last()) + texts_of(
                before.frames.last().1,
            ));
            assert(frames_text(frames2) =~= frames_text(before.frames) + text@);
            assert(pending_text(self.model()) =~= pending_text(before) + text@);
        }
    }

    /// Closes the current open frame: its accumulated children become a
    /// completed node, appended as a child of the enclosing frame or,
    /// when none remains open, recorded as a completed top-level tree.
    pub fn finish_node(&mut self)
        requires
            old(self).wf(),
            old(self).model().frames.len() > 0,
        ensures
            final(self).wf(),
            ({
                let frames = old(self).model().frames;
                let node = Tree::Node { kind: frames.last().0, children: frames.last().1 };
                &&& (frames.len() >= 2 ==> {
                    &&& final(self).model().frames == frames.drop_last().update(
                        frames.len() - 2,
                        (frames[frames.len() - 2].0, frames[frames.len() - 2].1.push(node)),
                    )
                    &&& final(self).model().done == old(self).model().done
                })
                &&& (frames.len() == 1 ==> {
                    &&& final(self).model().frames == frames.drop_last()
                    &&& final(self).model().done == old(self).model().done.push(node)
                })
            }),
            pending_text(final(self).model()) == pending_text(old(self).model()),
            final(self).model() == apply_event(old(self).model(), BuilderEvent::FinishNode),
    {
        let ghost before = self.model();
        let top = self.stack.pop().unwrap();
        let ghost node_tree = Tree::Node { kind: top.kind, children: children_view(top.children@) };
        let node = GreenNode::assemble(top.kind, top.text_len, top.children);
        let node_len = node.text_len();
        let child = node_child(Arc::new(node));
        let ghost child_g = child;
        proof {
            assert(child_g@ == node_tree);
            assert(texts_of(before.frames.last().1) == text_of(node_tree));
        }
        if self.stack.len() > 0 {
            proof {
                lemma_frames_text_two_parts(
                    before.frames,
                    before.frames.len() - 2,
                    before.frames.len() - 1,
                );
            }
            let mut parent = self.stack.pop().unwrap();
            let ghost parent_children = parent.children@;
            parent.children.push(child);
            parent.text_len = parent.text_len + node_len;
            self.stack.push(parent);
            proof {
                lemma_children_view_push(parent_children, child_g);
                let frames2 = before.frames.drop_last().update(
                    before.frames.len() - 2,
                    (
                        before.frames[before.frames.len() - 2].0,
                        before.frames[before.frames.len() - 2].1.push(node_tree),
                    ),
                );
                assert(self.frames_view() =~= frames2);
                assert(frames2.drop_last() =~= before.frames.drop_last().drop_last());
                assert(before.frames[before.frames.len() - 2].1.push(node_tree).drop_last()
                    =~= before.frames[before.frames.len() - 2].1);
                assert(texts_of(before.frames[before.frames.len() - 2].1.push(node_tree))
                    == texts_of(before.frames[before.frames.len() - 2].1) + text_of(node_tree));
                assert(frames_text(before.frames) == frames_text(before.frames.drop_last())
                    + texts_of(before.frames.last().1));
                assert(frames_text(before.frames.drop_last()) == frames_text(
                    before.frames.drop_last().drop_last(),
                ) + texts_of(before.frames[before.frames.len() - 2].1));
                assert(frames_text(frames2) =~= frames_text(before.frames));
                assert(pending_text(self.model()) =~= pending_text(before));
            }
        } else {
            let ghost old_finished = self.finished@;
            self.finished.push(child);
            proof {
                lemma_children_view_push(old_finished, child_g);
                assert(self.done_view() =~= before.done.push(node_tree));
                assert(self.frames_view() =~= Seq::<(SyntaxKind, Seq<Tree>)>::empty());
                assert(before.done.push(node_tree).drop_last() =~= before.done);
                assert(texts_of(before.done.push(node_tree)) == texts_of(before.done) + text_of(
                    node_tree,
                ));
                assert(before.frames.drop_last() =~= Seq::<(SyntaxKind, Seq<Tree>)>::empty());
                assert(frames_text(before.frames) == frames_text(before.frames.drop_last())
                    + texts_of(before.frames.last().1));
                assert(pending_text(self.model()) =~= pending_text(before));
            }
        }
    }

    /// Hands back the single completed root.
    ///
    /// Calling this with frames still open, with no completed tree, or
    /// with more than one is an unbalanced construction: a contract
    /// violation excluded up front rather than handled at run time.
    pub fn finish(self) -> (r: Arc<GreenNode>)
        requires
            self.wf(),
            self.model().frames.len() == 0,
            self.model().done.len() == 1,
        ensures
            r@ == self.model().done[0],
            text_of(r@) == pending_text(self.model()),
    {
        proof {
            lemma_children_view(self.finished@);
            assert(self.done_view().drop_last() =~= Seq::<Tree>::empty());
            assert(texts_of(self.done_view()) == texts_of(Seq::<Tree>::empty()) + text_of(
                self.done_view()[0],
            ));
            assert(self.frames_view().len() == 0);
            assert(frames_text(self.frames_view()) == Seq::<char>::empty());
            assert(pending_text(self.model()) =~= text_of(self.done_view()[0]));
        }
        let mut fin = self.finished;
        let c = fin.pop().unwrap();
        match c {
            GreenChild::Node(rc) => {
                proof {
                    lemma_child_view_node(&rc);
                }
                rc
            },
            GreenChild::Token(_) => {
                // A completed top-level element is always a node.
                proof {
                    assert(false);
                }
                Arc::new(GreenNode::assemble(SyntaxKind::Error, 0, Vec::new()))
            },
        }
    }

    /// Like `finish`, but reports an unbalanced construction as an
    /// absence instead of excluding it by contract.
    pub fn try_finish(self) -> (r: Option<Arc<GreenNode>>)
        requires
            self.wf(),
        ensures
            r is Some <==> (self.model().frames.len() == 0 && self.model().done.len() == 1),
            r matches Some(n) ==> n@ == self.model().done[0] && text_of(n@) == pending_text(
                self.model(),
            ),
    {
        proof {
            lemma_children_view(self.finished@);
        }
        if self.stack.len() == 0 && self.finished.len() == 1 {
            Some(self.finish())
        } else {
            None
        }
    }

    /// How many frames are open.
    pub fn open_nodes(&self) -> (r: usize)
        ensures
            r == self.model().frames.len(),
    {
        self.stack.len()
    }
}


/// One structural event handed to a builder.
pub enum BuilderEvent {
    StartNode { kind: SyntaxKind },
    Token { kind: SyntaxKind, text: Seq<char> },
    FinishNode,
}

/// Whether the stack discipline admits an event in a given state.
pub open spec fn event_admitted(m: BuilderModel, e: BuilderEvent) -> bool {
    match e {
        BuilderEvent::StartNode { .. } => true,
        BuilderEvent::Token { .. } => m.frames.len() > 0,
        BuilderEvent::FinishNode => m.frames.len() > 0,
    }
}

/// The state after one event: exactly what `start_node`, `token` and
/// `finish_node` promise of the builder's model.
pub open spec fn apply_event(m: BuilderModel, e: BuilderEvent) -> BuilderModel {
    match e {
        BuilderEvent::StartNode { kind } => BuilderModel {
            frames: m.frames.push((kind, Seq::empty())),
            done: m.done,
        },
        BuilderEvent::Token { kind, text } => BuilderModel {
            frames: m.frames.update(
                m.frames.len() - 1,
                (m.frames.last().0, m.frames.last().1.push(Tree::Token { kind, text })),
            ),
            done: m.done,
        },
        BuilderEvent::FinishNode => {
            let node = Tree::Node { kind: m.frames.last().0, children: m.frames.last().1 };
            if m.frames.len() >= 2 {
                BuilderModel {
                    frames: m.frames.drop_last().update(
                        m.frames.len() - 2,
                        (m.frames[m.frames.len() - 2].0, m.frames[m.frames.len() - 2].1.push(node)),
                    ),
                    done: m.done,
                }
            } else {
                BuilderModel { frames: m.frames.drop_last(), done: m.done.push(node) }
            }
        },
    }
}

/// The state after a sequence of events, applied in order.
pub open spec fn apply_events(m: BuilderModel, es: Seq<BuilderEvent>) -> BuilderModel
    decreases es,
{
    if es.len() == 0 {
        m
    } else {
        apply_event(apply_events(m, es.drop_last()), es.last())
    }
}

/// Whether the stack discipline admits every event of a sequence.
pub open spec fn events_admitted(m: BuilderModel, es: Seq<BuilderEvent>) -> bool
    decreases es,
{
    es.len() == 0 || (events_admitted(m, es.drop_last()) && event_admitted(
        apply_events(m, es.drop_last()),
        es.last(),
    ))
}

/// The concatenation of the token texts of a sequence of events, in
/// emission order.
pub open spec fn events_text(es: Seq<BuilderEvent>) -> Seq<char>
    decreases es,
{
    if es.len() == 0 {
        Seq::empty()
    } else {
        events_text(es.drop_last()) + (match es.last() {
            BuilderEvent::Token { text, .. } => text,
            _ => Seq::empty(),
        })
    }
}

/// One admitted event adds exactly its token text, and nothing else,
/// to the text a builder holds.
pub proof fn lemma_apply_event_text(m: BuilderModel, e: BuilderEvent)
    requires
        event_admitted(m, e),
    ensures
        pending_text(apply_event(m, e)) == pending_text(m) + (match e {
            BuilderEvent::Token { text, .. } => text,
            _ => Seq::<char>::empty(),
        }),
{
    let m2 = apply_event(m, e);
    match e {
        BuilderEvent::StartNode { kind } => {
            assert(m2.frames.drop_last() =~= m.frames);
            assert(texts_of(Seq::<Tree>::empty()) == Seq::<char>::empty());
            assert(frames_text(m2.frames) =~= frames_text(m.frames));
            assert(pending_text(m2) =~= pending_text(m) + Seq::<char>::empty());
        },
        BuilderEvent::Token { kind, text } => {
            let tree = Tree::Token { kind, text };
            assert(m2.frames.drop_last() =~= m.frames.drop_last());
            assert(m2.frames.last() == (m.frames.last().0, m.frames.last().1.push(tree)));
            assert(m.frames.last().1.push(tree).drop_last() =~= m.frames.last().1);
            assert(m.frames.last().1.push(tree).last() == tree);
            assert(text_of(tree) == text);
            assert(texts_of(m.frames.last().1.push(tree)) == texts_of(m.frames.last().1) + text);
            assert(frames_text(m.frames) == frames_text(m.frames.drop_last()) + texts_of(
                m.frames.last().1,
            ));
            assert(frames_text(m2.frames) == frames_text(m.frames.drop_last()) + (texts_of(
                m.frames.last().1,
            ) + text));
            assert(pending_text(m2) =~= pending_text(m) + text);
        },
        BuilderEvent::FinishNode => {
            let node = Tree::Node { kind: m.frames.last().0, children: m.frames.last().1 };
            assert(frames_text(m.frames) == frames_text(m.frames.drop_last()) + texts_of(
                m.frames.last().1,
            ));
            if m.frames.len() >= 2 {
                let prev = m.frames[m.frames.len() - 2];
                assert(m2.frames.drop_last() =~= m.frames.drop_last().drop_last());
                assert(m2.frames.last() == (prev.0, prev.1.push(node)));
                assert(prev.1.push(node).drop_last() =~= prev.1);
                assert(prev.1.push(node).last() == node);
                assert(texts_of(prev.1.push(node)) == texts_of(prev.1) + text_of(node));
                assert(frames_text(m.frames.drop_last()) == frames_text(
                    m.frames.drop_last().drop_last(),
                ) + texts_of(prev.1));
                assert(frames_text(m2.frames) =~= frames_text(m.frames));
                assert(pending_text(m2) =~= pending_text(m) + Seq::<char>::empty());
            } else {
                assert(m.frames.drop_last() =~= Seq::<(SyntaxKind, Seq<Tree>)>::empty());
                assert(m2.done.drop_last() =~= m.done);
                assert(m2.done.last() == node);
                assert(texts_of(m2.done) == texts_of(m.done) + text_of(node));
                assert(pending_text(m2) =~= pending_text(m) + Seq::<char>::empty());
            }
        },
    }
}

/// Round-trip, stated over every admissible event sequence: after the
/// sequence is applied, the text the builder holds has grown by
/// exactly the concatenation of the sequence's token texts, in
/// emission order. Started from the empty builder, the pending text
/// is that concatenation itself; `finish` then hands back a root
/// carrying the pending text, and the root cursor's text reads it
/// back unchanged.
pub proof fn lemma_round_trip(m: BuilderModel, es: Seq<BuilderEvent>)
    requires
        events_admitted(m, es),
    ensures
        pending_text(apply_events(m, es)) == pending_text(m) + events_text(es),
    decreases es,
{
    if es.len() == 0 {
        assert(pending_text(m) + Seq::<char>::empty() =~= pending_text(m));
    } else {
        lemma_round_trip(m, es.drop_last());
        lemma_apply_event_text(apply_events(m, es.drop_last()), es.last());
        assert(pending_text(apply_events(m, es)) =~= pending_text(m) + events_text(es));
    }
}

} // verus!
