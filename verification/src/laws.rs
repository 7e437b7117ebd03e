//! Text preservation: on inputs whose recursive splits never drop
//! whitespace and whose parenthesised operands are fully wrapped, the
//! tree's token texts concatenate back to the trimmed input.

use crate::parser::{
    find_op_spec,
    lemma_find_op_bounds,
    op_kind,
    parse_binary_spec,
    parse_expr_spec,
    parse_number_spec,
    parse_paren_spec,
    parse_spec,
};
use crate::eval::is_arith_kind;
use crate::kinds::SyntaxKind;
use crate::text::{lemma_trim_len, trim_spec};
use crate::tree::{ElemModel, NodeModel, TokenModel, elem_text, elems_text, node_text};
use vstd::prelude::*;

verus! {

/// Whether both operands of a split keep their text under the
/// re-parsing rules for the given operator: an operand that is
/// re-parsed as a full expression must itself be safe; a bare literal
/// operand always keeps its text.
pub open spec fn binary_safe(l: Seq<char>, op: char, r: Seq<char>) -> bool
    decreases l.len() + r.len() + 1, 2nat,
{
    let left_ok = if op == '+' || op == '-' {
        if l.contains('+') || l.contains('-') || l.contains('*') || l.contains('/')
            || l.contains('(') {
            text_safe(l)
        } else {
            true
        }
    } else {
        if l.contains('*') || l.contains('/') || l.contains('(') {
            text_safe(l)
        } else {
            true
        }
    };
    let right_ok = if r.contains('*') || r.contains('/') || r.contains('(') {
        text_safe(r)
    } else {
        true
    };
    left_ok && right_ok
}

/// Whether parsing the slice keeps its text: the slice needs no
/// trimming, and every recursive split keeps the operands' text.
pub open spec fn text_safe(t: Seq<char>) -> bool
    decreases t.len(), 3nat,
    via text_safe_dec
{
    &&& t == trim_spec(t)
    &&& if find_op_spec(t, seq!['+', '-']) is Some {
        let idx = find_op_spec(t, seq!['+', '-'])->Some_0;
        binary_safe(t.subrange(0, idx), t[idx], t.subrange(idx + 1, t.len() as int))
    } else if find_op_spec(t, seq!['*', '/']) is Some {
        let idx = find_op_spec(t, seq!['*', '/'])->Some_0;
        binary_safe(t.subrange(0, idx), t[idx], t.subrange(idx + 1, t.len() as int))
    } else if t.len() >= 1 && t[0] == '(' && t.last() == ')' {
        text_safe(t.subrange(1, t.len() - 1))
    } else {
        true
    }
}

#[via_fn]
proof fn text_safe_dec(t: Seq<char>) {
    lemma_find_op_bounds(t, seq!['+', '-']);
    lemma_find_op_bounds(t, seq!['*', '/']);
}

/// The concatenated token text of a three-child node.
proof fn lemma_elems_text3(a: ElemModel, b: ElemModel, c: ElemModel)
    ensures
        elems_text(seq![a, b, c]) == elem_text(a) + elem_text(b) + elem_text(c),
{
    reveal_with_fuel(elems_text, 5);
    let s = seq![a, b, c];
    assert(s.drop_first() =~= seq![b, c]);
    assert(seq![b, c].drop_first() =~= seq![c]);
    assert(seq![c].drop_first() =~= Seq::<ElemModel>::empty());
    assert(elems_text(seq![a, b, c]) =~= elem_text(a) + elem_text(b) + elem_text(c));
}

/// The concatenated token text of a one-child node.
proof fn lemma_elems_text1(a: ElemModel)
    ensures
        elems_text(seq![a]) == elem_text(a),
{
    reveal_with_fuel(elems_text, 3);
    assert(seq![a].drop_first() =~= Seq::<ElemModel>::empty());
    assert(elems_text(seq![a]) =~= elem_text(a));
}

/// A literal node's text is the slice verbatim.
proof fn lemma_number_text(t: Seq<char>)
    ensures
        node_text(parse_number_spec(t)) == t,
{
    lemma_elems_text1(ElemModel::Token(TokenModel { kind: SyntaxKind::Number, text: t }));
}

/// On a safe slice the parsed tree's token texts concatenate back to
/// the slice itself.
proof fn lemma_expr_text(t: Seq<char>)
    requires
        text_safe(t),
    ensures
        node_text(parse_expr_spec(t)) == t,
    decreases t.len(), 3nat,
{
    assert(trim_spec(t) == t);
    lemma_find_op_bounds(t, seq!['+', '-']);
    lemma_find_op_bounds(t, seq!['*', '/']);
    if find_op_spec(t, seq!['+', '-']) is Some {
        let idx = find_op_spec(t, seq!['+', '-'])->Some_0;
        let l = t.subrange(0, idx);
        let r = t.subrange(idx + 1, t.len() as int);
        lemma_binary_text(l, t[idx], r);
        assert(l + seq![t[idx]] + r =~= t);
    } else if find_op_spec(t, seq!['*', '/']) is Some {
        let idx = find_op_spec(t, seq!['*', '/'])->Some_0;
        let l = t.subrange(0, idx);
        let r = t.subrange(idx + 1, t.len() as int);
        lemma_binary_text(l, t[idx], r);
        assert(l + seq![t[idx]] + r =~= t);
    } else if t.len() >= 1 && t[0] == '(' && t.last() == ')' {
        lemma_paren_text(t);
    } else {
        lemma_number_text(t);
    }
}

/// On safe operands a binary node's token texts concatenate back to
/// left text, operator, right text.
proof fn lemma_binary_text(l: Seq<char>, op: char, r: Seq<char>)
    requires
        binary_safe(l, op, r),
    ensures
        node_text(parse_binary_spec(l, op, r)) == l + seq![op] + r,
    decreases l.len() + r.len() + 1, 2nat,
{
    let n = parse_binary_spec(l, op, r);
    let left_node = n.children[0]->Node_0;
    let right_node = n.children[2]->Node_0;
    if op == '+' || op == '-' {
        if l.contains('+') || l.contains('-') || l.contains('*') || l.contains('/')
            || l.contains('(') {
            lemma_expr_text(l);
        } else {
            lemma_number_text(l);
        }
    } else {
        if l.contains('*') || l.contains('/') || l.contains('(') {
            lemma_expr_text(l);
        } else {
            lemma_number_text(l);
        }
    }
    if r.contains('*') || r.contains('/') || r.contains('(') {
        lemma_expr_text(r);
    } else {
        lemma_number_text(r);
    }
    assert(node_text(left_node) == l);
    assert(node_text(right_node) == r);
    lemma_elems_text3(
        ElemModel::Node(left_node),
        ElemModel::Token(TokenModel { kind: op_kind(op), text: seq![op] }),
        ElemModel::Node(right_node),
    );
}

/// On a safe parenthesised operand the node's token texts concatenate
/// back to the operand.
proof fn lemma_paren_text(t: Seq<char>)
    requires
        t.len() >= 2,
        t[0] == '(',
        t.last() == ')',
        text_safe(t.subrange(1, t.len() - 1)),
    ensures
        node_text(parse_paren_spec(t)) == t,
    decreases t.len(), 1nat,
{
    let inner = t.subrange(1, t.len() - 1);
    assert(trim_spec(inner) == inner);
    lemma_expr_text(inner);
    lemma_elems_text3(
        ElemModel::Token(TokenModel { kind: SyntaxKind::LParen, text: seq!['('] }),
        ElemModel::Node(parse_expr_spec(inner)),
        ElemModel::Token(TokenModel { kind: SyntaxKind::RParen, text: seq![')'] }),
    );
    assert(seq!['('] + inner + seq![')'] =~= t);
}

/// Round-trip text preservation: concatenating all token texts of the
/// parsed tree in document order, ignoring structural nodes, yields
/// the whitespace-trimmed input exactly — on every input whose
/// recursive splits drop no whitespace and whose parenthesised
/// operands are fully wrapped.
pub proof fn lemma_round_trip(t: Seq<char>)
    requires
        text_safe(trim_spec(t)),
    ensures
        node_text(parse_spec(t)) == trim_spec(t),
{
    let s = trim_spec(t);
    assert(trim_spec(s) == s);
    lemma_expr_text(s);
    assert(parse_expr_spec(t) == parse_expr_spec(s));
    lemma_elems_text1(ElemModel::Node(parse_expr_spec(t)));
}

/// The shape every built node has: a literal holds one `Number`
/// token; a binary expression holds a node, an operator token and a
/// node; a parenthesised expression holds the parenthesis tokens
/// around one node.
pub open spec fn wf_expr_node(m: NodeModel) -> bool
    decreases m,
    via wf_expr_node_dec
{
    if m.kind == SyntaxKind::LiteralExpr {
        &&& m.children.len() == 1
        &&& m.children[0] is Token
        &&& m.children[0]->Token_0.kind == SyntaxKind::Number
    } else if m.kind == SyntaxKind::BinaryExpr {
        &&& m.children.len() == 3
        &&& m.children[0] is Node
        &&& wf_expr_node(m.children[0]->Node_0)
        &&& m.children[1] is Token
        &&& is_arith_kind(m.children[1]->Token_0.kind)
        &&& m.children[2] is Node
        &&& wf_expr_node(m.children[2]->Node_0)
    } else if m.kind == SyntaxKind::ParenExpr {
        &&& m.children.len() == 3
        &&& m.children[0] is Token
        &&& m.children[0]->Token_0.kind == SyntaxKind::LParen
        &&& m.children[1] is Node
        &&& wf_expr_node(m.children[1]->Node_0)
        &&& m.children[2] is Token
        &&& m.children[2]->Token_0.kind == SyntaxKind::RParen
    } else {
        false
    }
}

#[via_fn]
proof fn wf_expr_node_dec(m: NodeModel) {
    assert(decreases_to!(m => m.children));
    if m.children.len() == 3 {
        if m.children[0] is Node {
            assert(decreases_to!(m.children => m.children[0]));
            assert(decreases_to!(m.children[0] => m.children[0]->Node_0));
        }
        if m.children[1] is Node {
            assert(decreases_to!(m.children => m.children[1]));
            assert(decreases_to!(m.children[1] => m.children[1]->Node_0));
        }
        if m.children[2] is Node {
            assert(decreases_to!(m.children => m.children[2]));
            assert(decreases_to!(m.children[2] => m.children[2]->Node_0));
        }
    }
}

/// Every tree built for a parenthesised slice is well formed.
proof fn lemma_paren_wf(t: Seq<char>)
    ensures
        wf_expr_node(parse_paren_spec(t)),
    decreases t.len(), 1nat,
{
    if t.len() >= 2 {
        lemma_trim_len(t.subrange(1, t.len() - 1));
        lemma_expr_wf(trim_spec(t.subrange(1, t.len() - 1)));
    }
}

/// Every tree built for a binary split on an operator is well formed.
proof fn lemma_binary_wf(l: Seq<char>, op: char, r: Seq<char>)
    requires
        op == '+' || op == '-' || op == '*' || op == '/',
    ensures
        wf_expr_node(parse_binary_spec(l, op, r)),
    decreases l.len() + r.len() + 1, 2nat,
{
    reveal_with_fuel(wf_expr_node, 3);
    if op == '+' || op == '-' {
        if l.contains('+') || l.contains('-') || l.contains('*') || l.contains('/')
            || l.contains('(') {
            lemma_expr_wf(l);
        }
    } else {
        if l.contains('*') || l.contains('/') || l.contains('(') {
            lemma_expr_wf(l);
        }
    }
    if r.contains('*') || r.contains('/') || r.contains('(') {
        lemma_expr_wf(r);
    }
}

/// Every tree built for any slice is well formed.
proof fn lemma_expr_wf(t: Seq<char>)
    ensures
        wf_expr_node(parse_expr_spec(t)),
    decreases t.len(), 3nat,
{
    lemma_trim_len(t);
    let s = trim_spec(t);
    lemma_find_op_bounds(s, seq!['+', '-']);
    lemma_find_op_bounds(s, seq!['*', '/']);
    if find_op_spec(s, seq!['+', '-']) is Some {
        let idx = find_op_spec(s, seq!['+', '-'])->Some_0;
        let k = choose|k: int| 0 <= k < seq!['+', '-'].len() && seq!['+', '-'][k] == s[idx];
        assert(k == 0 || k == 1);
        lemma_binary_wf(s.subrange(0, idx), s[idx], s.subrange(idx + 1, s.len() as int));
    } else if find_op_spec(s, seq!['*', '/']) is Some {
        let idx = find_op_spec(s, seq!['*', '/'])->Some_0;
        let k = choose|k: int| 0 <= k < seq!['*', '/'].len() && seq!['*', '/'][k] == s[idx];
        assert(k == 0 || k == 1);
        lemma_binary_wf(s.subrange(0, idx), s[idx], s.subrange(idx + 1, s.len() as int));
    } else if s.len() >= 1 && s[0] == '(' && s.last() == ')' {
        lemma_paren_wf(s);
    }
}

/// Structural invariants of every built tree: the root holds exactly
/// one child, a node of an expression kind, and below it every literal,
/// binary and parenthesised node has its exact shape.
pub proof fn lemma_parse_well_formed(t: Seq<char>)
    ensures
        parse_spec(t).kind == SyntaxKind::Root,
        parse_spec(t).children.len() == 1,
        parse_spec(t).children[0] is Node,
        wf_expr_node(parse_spec(t).children[0]->Node_0),
{
    lemma_expr_wf(t);
}

} // verus!
