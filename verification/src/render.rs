//! A structured dump of a tree for diagnostic display: one line per
//! node or token, each with its indentation, in document order.

use crate::kinds::SyntaxKind;
use crate::tree::{ElemModel, NodeModel, SyntaxElement, SyntaxNode, TokenModel};
use crate::tree::{elems_model, lemma_elems_model_index, node_model};
use vstd::prelude::*;
use vstd::string::StringExecFns;

verus! {

/// One line of the dump: a node heading, or a token with its verbatim
/// text.
pub struct RenderLine {
    pub indent: usize,
    pub kind: SyntaxKind,
    pub token: bool,
    pub text: String,
}

/// Mathematical model of a dump line.
#[verifier::ext_equal]
pub ghost struct RenderLineModel {
    pub indent: int,
    pub kind: SyntaxKind,
    pub token: bool,
    pub text: Seq<char>,
}

impl View for RenderLine {
    type V = RenderLineModel;

    open spec fn view(&self) -> RenderLineModel {
        RenderLineModel {
            indent: self.indent as int,
            kind: self.kind,
            token: self.token,
            text: self.text@,
        }
    }
}

pub open spec fn lines_model(s: Seq<RenderLine>) -> Seq<RenderLineModel> {
    Seq::new(s.len(), |i: int| s[i]@)
}

/// The indentation of a child, two deeper, capped at the machine
/// limit.
pub open spec fn child_indent(indent: int) -> int {
    if indent + 2 <= usize::MAX {
        indent + 2
    } else {
        indent
    }
}

/// The dump of a node: its heading, then the dumps of its children.
pub open spec fn render_spec(n: NodeModel, indent: int) -> Seq<RenderLineModel>
    decreases n,
{
    seq![RenderLineModel { indent, kind: n.kind, token: false, text: Seq::empty() }]
        + render_children_spec(n.children, indent)
}

/// The dump of one child.
pub open spec fn render_elem_spec(e: ElemModel, indent: int) -> Seq<RenderLineModel>
    decreases e,
{
    match e {
        ElemModel::Token(t) => seq![
            RenderLineModel { indent, kind: t.kind, token: true, text: t.text },
        ],
        ElemModel::Node(m) => render_spec(m, child_indent(indent)),
    }
}

/// The dumps of a node's children, in order.
pub open spec fn render_children_spec(s: Seq<ElemModel>, indent: int) -> Seq<RenderLineModel>
    decreases s,
{
    if s.len() == 0 {
        Seq::empty()
    } else {
        render_elem_spec(s[0], indent) + render_children_spec(s.drop_first(), indent)
    }
}

/// Splitting off the child at `i` splits the dump.
proof fn lemma_render_children_skip(s: Seq<ElemModel>, i: int, indent: int)
    requires
        0 <= i < s.len(),
    ensures
        render_children_spec(s.skip(i), indent) == render_elem_spec(s[i], indent)
            + render_children_spec(s.skip(i + 1), indent),
{
    assert(s.skip(i).len() > 0);
    assert(s.skip(i)[0] == s[i]);
    assert(s.skip(i).drop_first() =~= s.skip(i + 1));
}

/// The dump of a tree, one line per node or token, each line carrying
/// its indentation, kind and (for tokens) verbatim text.
pub fn render(node: &SyntaxNode, indent: usize) -> (out: Vec<RenderLine>)
    ensures
        lines_model(out@) == render_spec(node@, indent as int),
    decreases *node,
{
    let mut out: Vec<RenderLine> = Vec::new();
    out.push(RenderLine { indent, kind: node.kind, token: false, text: String::new() });
    let ghost cs = node_model(*node).children;
    proof {
        lemma_elems_model_index(node.children@);
        assert(cs.skip(0) =~= cs);
        assert(lines_model(out@) =~~= seq![
            RenderLineModel {
                indent: indent as int,
                kind: node@.kind,
                token: false,
                text: Seq::empty(),
            },
        ]);
    }
    let mut i: usize = 0;
    while i < node.children.len()
        invariant
            i <= node.children.len(),
            cs == node_model(*node).children,
            cs.len() == node.children@.len(),
            forall|j: int| 0 <= j < node.children@.len() ==> cs[j] == crate::tree::elem_model(
                node.children@[j],
            ),
            lines_model(out@) + render_children_spec(cs.skip(i as int), indent as int)
                == render_spec(node@, indent as int),
        decreases node.children.len() - i,
    {
        proof {
            lemma_render_children_skip(cs, i as int, indent as int);
        }
        let ghost out_before = lines_model(out@);
        match &node.children[i] {
            SyntaxElement::Token(t) => {
                out.push(
                    RenderLine { indent, kind: t.kind, token: true, text: t.text.clone() },
                );
                proof {
                    assert(lines_model(out@) =~~= out_before + render_elem_spec(
                        cs[i as int],
                        indent as int,
                    ));
                }
            },
            SyntaxElement::Node(m) => {
                proof {
                    assert(decreases_to!(*node => node.children));
                    assert(decreases_to!(node.children => node.children@));
                    assert(decreases_to!(node.children@ => node.children@[i as int]));
                    assert(decreases_to!(
                        node.children@[i as int] => node.children@[i as int]->Node_0));
                }
                let deeper: usize = if indent <= usize::MAX - 2 {
                    indent + 2
                } else {
                    indent
                };
                let mut sub = render(m, deeper);
                let ghost sub_model = lines_model(sub@);
                out.append(&mut sub);
                proof {
                    assert(lines_model(out@) =~~= out_before + sub_model);
                }
            },
        }
        proof {
            assert(lines_model(out@) + render_children_spec(cs.skip(i as int + 1), indent as int)
                =~~= render_spec(node@, indent as int));
        }
        i = i + 1;
    }
    proof {
        assert(cs.skip(cs.len() as int) =~= Seq::<ElemModel>::empty());
        assert(lines_model(out@) =~~= render_spec(node@, indent as int));
    }
    out
}

} // verus!
