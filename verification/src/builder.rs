//! The node-building protocol: start a node, emit tokens and children,
//! finish the node.  Construction is strictly inside-out; a node is
//! attached to its parent only when it is finished.

use crate::kinds::SyntaxKind;
use crate::tree::{ElemModel, NodeModel, SyntaxElement, SyntaxNode, SyntaxToken, TokenModel};
use crate::tree::{elems_model, lemma_elems_model_push, node_model};
use vstd::prelude::*;
use vstd::string::StringExecFns;

verus! {

/// An accumulating tree builder.  `stack` holds the nodes whose
/// children are still being emitted, outermost first; `finished` holds
/// the completed tree once the outermost node is finished.
pub struct TreeBuilder {
    pub stack: Vec<SyntaxNode>,
    pub finished: Option<SyntaxNode>,
}

/// Mathematical model of a builder.
#[verifier::ext_equal]
pub ghost struct BuilderModel {
    pub stack: Seq<NodeModel>,
    pub finished: Option<NodeModel>,
}

pub open spec fn nodes_model(s: Seq<SyntaxNode>) -> Seq<NodeModel>
    decreases s,
{
    if s.len() == 0 {
        Seq::empty()
    } else {
        seq![node_model(s[0])] + nodes_model(s.drop_first())
    }
}

pub proof fn lemma_nodes_model_index(s: Seq<SyntaxNode>)
    ensures
        nodes_model(s).len() == s.len(),
        forall|i: int| 0 <= i < s.len() ==> nodes_model(s)[i] == node_model(s[i]),
    decreases s,
{
    if s.len() > 0 {
        lemma_nodes_model_index(s.drop_first());
        assert forall|i: int| 0 <= i < s.len() implies nodes_model(s)[i] == node_model(s[i]) by {
            if i > 0 {
                assert(s.drop_first()[i - 1] == s[i]);
            }
        }
    }
}

impl View for TreeBuilder {
    type V = BuilderModel;

    open spec fn view(&self) -> BuilderModel {
        BuilderModel {
            stack: nodes_model(self.stack@),
            finished: match self.finished {
                Some(n) => Some(node_model(n)),
                None => None,
            },
        }
    }
}

/// The stack with `e` appended to the children of its last entry.
pub open spec fn push_child(stack: Seq<NodeModel>, e: ElemModel) -> Seq<NodeModel>
    recommends
        stack.len() > 0,
{
    stack.update(
        stack.len() - 1,
        NodeModel { kind: stack.last().kind, children: stack.last().children.push(e) },
    )
}

impl TreeBuilder {
    /// A builder with nothing started and nothing finished.
    pub fn new() -> (b: TreeBuilder)
        ensures
            b@.stack.len() == 0,
            b@.finished is None,
    {
        proof {
            lemma_nodes_model_index(Seq::empty());
        }
        TreeBuilder { stack: Vec::new(), finished: None }
    }

    /// Begins a node of the given kind; its children are what is
    /// emitted until the matching [`finish_node`](Self::finish_node).
    pub fn start_node(&mut self, kind: SyntaxKind)
        requires
            old(self)@.finished is None,
        ensures
            final(self)@.stack == old(self)@.stack.push(
                NodeModel { kind, children: Seq::empty() },
            ),
            final(self)@.finished is None,
    {
        proof {
            lemma_nodes_model_index(self.stack@);
        }
        self.stack.push(SyntaxNode { kind, children: Vec::new() });
        proof {
            lemma_nodes_model_index(self.stack@);
            assert(self.stack@.drop_last() =~= old(self).stack@);
            assert(nodes_model(self.stack@) =~~= nodes_model(old(self).stack@).push(
                NodeModel { kind, children: Seq::empty() },
            ));
            assert(elems_model(Seq::empty()) =~= Seq::<ElemModel>::empty());
        }
    }

    /// Emits a token carrying the given verbatim text as a child of the
    /// node currently being built.
    pub fn token(&mut self, kind: SyntaxKind, text: &str)
        requires
            old(self)@.stack.len() > 0,
        ensures
            final(self)@.stack == push_child(
                old(self)@.stack,
                ElemModel::Token(TokenModel { kind, text: text@ }),
            ),
            final(self)@.finished == old(self)@.finished,
    {
        proof {
            lemma_nodes_model_index(self.stack@);
        }
        let mut top = self.stack.pop().unwrap();
        let tok = SyntaxToken { kind, text: String::from_str(text) };
        proof {
            lemma_elems_model_push(top.children@, SyntaxElement::Token(tok));
        }
        top.children.push(SyntaxElement::Token(tok));
        self.stack.push(top);
        proof {
            lemma_nodes_model_index(self.stack@);
            assert(nodes_model(self.stack@) =~~= push_child(
                nodes_model(old(self).stack@),
                ElemModel::Token(TokenModel { kind, text: text@ }),
            ));
        }
    }

    /// Finishes the node currently being built.  If it was the
    /// outermost one, the completed tree is stored; otherwise the node
    /// becomes a child of its parent.
    pub fn finish_node(&mut self)
        requires
            old(self)@.stack.len() > 0,
            old(self)@.finished is None,
        ensures
            old(self)@.stack.len() == 1 ==> final(self)@.stack.len() == 0 && final(self)@.finished
                == Some(old(self)@.stack.last()),
            old(self)@.stack.len() > 1 ==> final(self)@.stack == push_child(
                old(self)@.stack.drop_last(),
                ElemModel::Node(old(self)@.stack.last()),
            ) && final(self)@.finished is None,
    {
        proof {
            lemma_nodes_model_index(self.stack@);
        }
        let node = self.stack.pop().unwrap();
        if self.stack.len() == 0 {
            self.finished = Some(node);
            proof {
                assert(nodes_model(self.stack@) =~= Seq::<NodeModel>::empty());
            }
        } else {
            proof {
                lemma_nodes_model_index(self.stack@);
            }
            let mut top = self.stack.pop().unwrap();
            proof {
                lemma_elems_model_push(top.children@, SyntaxElement::Node(node));
            }
            top.children.push(SyntaxElement::Node(node));
            self.stack.push(top);
            proof {
                lemma_nodes_model_index(self.stack@);
                assert(nodes_model(self.stack@) =~~= push_child(
                    old(self)@.stack.drop_last(),
                    ElemModel::Node(old(self)@.stack.last()),
                ));
            }
        }
    }

    /// Hands out the completed tree and resets the builder.
    pub fn finish(&mut self) -> (n: SyntaxNode)
        requires
            old(self)@.finished is Some,
        ensures
            n@ == old(self)@.finished->Some_0,
            final(self)@.finished is None,
            final(self)@.stack == old(self)@.stack,
    {
        let n = self.finished.take();
        n.unwrap()
    }
}

} // verus!
