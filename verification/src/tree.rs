//! The concrete syntax tree: tokens carrying verbatim source text and
//! nodes owning an ordered sequence of children.

use crate::kinds::SyntaxKind;
use vstd::prelude::*;
use vstd::string::StringExecFns;

verus! {

/// A terminal element: its kind and the exact text it stands for.
pub struct SyntaxToken {
    pub kind: SyntaxKind,
    pub text: String,
}

/// A child of a node: either a token or a nested node.
pub enum SyntaxElement {
    Token(SyntaxToken),
    Node(SyntaxNode),
}

/// A non-terminal element: its kind and its children in document order.
pub struct SyntaxNode {
    pub kind: SyntaxKind,
    pub children: Vec<SyntaxElement>,
}

/// Mathematical model of a token.
#[verifier::ext_equal]
pub ghost struct TokenModel {
    pub kind: SyntaxKind,
    pub text: Seq<char>,
}

/// Mathematical model of a child element.
#[verifier::ext_equal]
pub ghost enum ElemModel {
    Token(TokenModel),
    Node(NodeModel),
}

/// Mathematical model of a node.
#[verifier::ext_equal]
pub ghost struct NodeModel {
    pub kind: SyntaxKind,
    pub children: Seq<ElemModel>,
}

pub open spec fn elem_model(e: SyntaxElement) -> ElemModel
    decreases e,
{
    match e {
        SyntaxElement::Token(t) => ElemModel::Token(TokenModel { kind: t.kind, text: t.text@ }),
        SyntaxElement::Node(n) => ElemModel::Node(node_model(n)),
    }
}

pub open spec fn node_model(n: SyntaxNode) -> NodeModel
    decreases n,
{
    NodeModel { kind: n.kind, children: elems_model(n.children@) }
}

pub open spec fn elems_model(s: Seq<SyntaxElement>) -> Seq<ElemModel>
    decreases s,
{
    if s.len() == 0 {
        Seq::empty()
    } else {
        seq![elem_model(s[0])] + elems_model(s.drop_first())
    }
}

impl View for SyntaxToken {
    type V = TokenModel;

    open spec fn view(&self) -> TokenModel {
        TokenModel { kind: self.kind, text: self.text@ }
    }
}

impl View for SyntaxElement {
    type V = ElemModel;

    open spec fn view(&self) -> ElemModel {
        elem_model(*self)
    }
}

impl View for SyntaxNode {
    type V = NodeModel;

    open spec fn view(&self) -> NodeModel {
        node_model(*self)
    }
}

/// The model of a sequence of elements has the same length, element by
/// element the model of the corresponding element.
pub proof fn lemma_elems_model_index(s: Seq<SyntaxElement>)
    ensures
        elems_model(s).len() == s.len(),
        forall|i: int| 0 <= i < s.len() ==> elems_model(s)[i] == elem_model(s[i]),
    decreases s,
{
    if s.len() > 0 {
        lemma_elems_model_index(s.drop_first());
        assert forall|i: int| 0 <= i < s.len() implies elems_model(s)[i] == elem_model(s[i]) by {
            if i > 0 {
                assert(s.drop_first()[i - 1] == s[i]);
            }
        }
    }
}

/// Appending an element appends its model.
pub proof fn lemma_elems_model_push(s: Seq<SyntaxElement>, e: SyntaxElement)
    ensures
        elems_model(s.push(e)) == elems_model(s).push(elem_model(e)),
{
    lemma_elems_model_index(s.push(e));
    lemma_elems_model_index(s);
    assert(elems_model(s.push(e)) =~= elems_model(s).push(elem_model(e)));
}

/// The source text a model covers: the concatenation of all token
/// texts, in document order.
pub open spec fn node_text(n: NodeModel) -> Seq<char>
    decreases n,
{
    elems_text(n.children)
}

pub open spec fn elem_text(e: ElemModel) -> Seq<char>
    decreases e,
{
    match e {
        ElemModel::Token(t) => t.text,
        ElemModel::Node(n) => node_text(n),
    }
}

pub open spec fn elems_text(s: Seq<ElemModel>) -> Seq<char>
    decreases s,
{
    if s.len() == 0 {
        Seq::empty()
    } else {
        elem_text(s[0]) + elems_text(s.drop_first())
    }
}

/// The source text a tree covers, as an executable function: the
/// concatenation of all its token texts in document order.
pub fn source_text(n: &SyntaxNode) -> (s: String)
    ensures
        s@ == node_text(n@),
    decreases *n,
{
    let mut s = String::new();
    let mut i: usize = 0;
    let ghost cs = node_model(*n).children;
    proof {
        lemma_elems_model_index(n.children@);
        assert(cs.skip(0) =~= cs);
    }
    while i < n.children.len()
        invariant
            i <= n.children.len(),
            cs == node_model(*n).children,
            cs.len() == n.children@.len(),
            forall|j: int| 0 <= j < n.children@.len() ==> cs[j] == elem_model(n.children@[j]),
            s@ + elems_text(cs.skip(i as int)) == elems_text(cs),
        decreases n.children.len() - i,
    {
        proof {
            lemma_elems_text_skip(cs, i as int);
        }
        let piece = match &n.children[i] {
            SyntaxElement::Token(t) => t.text.clone(),
            SyntaxElement::Node(m) => {
                proof {
                    assert(decreases_to!(*n => n.children));
                    assert(decreases_to!(n.children => n.children@));
                    assert(decreases_to!(n.children@ => n.children@[i as int]));
                }
                source_text(m)
            },
        };
        s.append(piece.as_str());
        i = i + 1;
    }
    proof {
        assert(cs.skip(cs.len() as int) =~= Seq::<ElemModel>::empty());
    }
    s
}

/// Splitting off the element at `i` splits the concatenated text.
pub proof fn lemma_elems_text_skip(s: Seq<ElemModel>, i: int)
    requires
        0 <= i < s.len(),
    ensures
        elems_text(s.skip(i)) == elem_text(s[i]) + elems_text(s.skip(i + 1)),
{
    assert(s.skip(i).len() > 0);
    assert(s.skip(i)[0] == s[i]);
    assert(s.skip(i).drop_first() =~= s.skip(i + 1));
}

} // verus!
