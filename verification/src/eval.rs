//! Recursive evaluation of a syntax tree: a post-order walk producing
//! a signed integer, or `None` on an unparseable literal, a malformed
//! node, division by zero or overflow.

use crate::kinds::SyntaxKind;
use crate::text::{trim_spec, trim_str};
use crate::tree::{ElemModel, NodeModel, SyntaxElement, SyntaxNode};
use crate::tree::{elems_model, lemma_elems_model_index, node_model};
use vstd::prelude::*;
use vstd::string::StrSliceExecFns;

verus! {

/// The `k0`-th node (counting from zero) among the elements at or
/// after position `i`.
pub open spec fn node_at(s: Seq<ElemModel>, i: int, k0: nat) -> Option<NodeModel>
    decreases s.len() - i,
{
    if i < 0 || i >= s.len() {
        None
    } else {
        match s[i] {
            ElemModel::Node(m) => if k0 == 0 {
                Some(m)
            } else {
                node_at(s, i + 1, (k0 - 1) as nat)
            },
            _ => node_at(s, i + 1, k0),
        }
    }
}

/// Whether a kind is an arithmetic operator token kind.
pub open spec fn is_arith_kind(k: SyntaxKind) -> bool {
    k == SyntaxKind::Plus || k == SyntaxKind::Minus || k == SyntaxKind::Star || k
        == SyntaxKind::Slash
}

/// Whether a kind is an expression node kind.
pub open spec fn is_expr_kind(k: SyntaxKind) -> bool {
    k == SyntaxKind::LiteralExpr || k == SyntaxKind::BinaryExpr || k == SyntaxKind::ParenExpr
}

/// The kind of the first arithmetic operator token at or after `i`.
pub open spec fn arith_token_at(s: Seq<ElemModel>, i: int) -> Option<SyntaxKind>
    decreases s.len() - i,
{
    if i < 0 || i >= s.len() {
        None
    } else {
        match s[i] {
            ElemModel::Token(t) => if is_arith_kind(t.kind) {
                Some(t.kind)
            } else {
                arith_token_at(s, i + 1)
            },
            _ => arith_token_at(s, i + 1),
        }
    }
}

/// The first node with an expression kind at or after `i`.
pub open spec fn expr_node_at(s: Seq<ElemModel>, i: int) -> Option<NodeModel>
    decreases s.len() - i,
{
    if i < 0 || i >= s.len() {
        None
    } else {
        match s[i] {
            ElemModel::Node(m) => if is_expr_kind(m.kind) {
                Some(m)
            } else {
                expr_node_at(s, i + 1)
            },
            _ => expr_node_at(s, i + 1),
        }
    }
}

/// The text of the first `Number` token at or after `i`.
pub open spec fn number_text_at(s: Seq<ElemModel>, i: int) -> Option<Seq<char>>
    decreases s.len() - i,
{
    if i < 0 || i >= s.len() {
        None
    } else {
        match s[i] {
            ElemModel::Token(t) => if t.kind == SyntaxKind::Number {
                Some(t.text)
            } else {
                number_text_at(s, i + 1)
            },
            _ => number_text_at(s, i + 1),
        }
    }
}

/// Whether a character is a decimal digit.
pub open spec fn is_digit(c: char) -> bool {
    c == '0' || c == '1' || c == '2' || c == '3' || c == '4' || c == '5' || c == '6' || c == '7'
        || c == '8' || c == '9'
}

/// The value of a decimal digit.
pub open spec fn digit_val(c: char) -> nat {
    if c == '1' {
        1
    } else if c == '2' {
        2
    } else if c == '3' {
        3
    } else if c == '4' {
        4
    } else if c == '5' {
        5
    } else if c == '6' {
        6
    } else if c == '7' {
        7
    } else if c == '8' {
        8
    } else if c == '9' {
        9
    } else {
        0
    }
}

/// Whether every character of the sequence is a decimal digit.
pub open spec fn all_digits(s: Seq<char>) -> bool {
    forall|i: int| 0 <= i < s.len() ==> is_digit(s[i])
}

/// The number a sequence of decimal digits denotes.
pub open spec fn digits_val(s: Seq<char>) -> nat
    decreases s.len(),
{
    if s.len() == 0 {
        0
    } else {
        digits_val(s.drop_last()) * 10 + digit_val(s.last())
    }
}

/// The signed integer a piece of text denotes: an optional sign, then
/// at least one decimal digit, the value within the `i32` range;
/// anything else denotes nothing.
pub open spec fn parse_i32_spec(s: Seq<char>) -> Option<i32> {
    if s.len() == 0 {
        None
    } else {
        let neg = s[0] == '-';
        let ds = if s[0] == '-' || s[0] == '+' {
            s.drop_first()
        } else {
            s
        };
        if ds.len() == 0 || !all_digits(ds) {
            None
        } else {
            let v = digits_val(ds) as int;
            if neg {
                if -v >= i32::MIN {
                    Some((-v) as i32)
                } else {
                    None
                }
            } else {
                if v <= i32::MAX {
                    Some(v as i32)
                } else {
                    None
                }
            }
        }
    }
}

/// The absolute value.
pub open spec fn abs_int(a: int) -> int {
    if a < 0 {
        -a
    } else {
        a
    }
}

/// Integer division truncated towards zero, as the machine divides.
pub open spec fn div_trunc(a: int, b: int) -> int
    recommends
        b != 0,
{
    if (a < 0) != (b < 0) {
        -(abs_int(a) / abs_int(b))
    } else {
        abs_int(a) / abs_int(b)
    }
}

/// The result of applying an operator token to two evaluated operands:
/// the exact value when it fits in an `i32`, `None` on overflow,
/// division by zero, or a kind that is no operator.
pub open spec fn apply_op(k: SyntaxKind, lv: i32, rv: i32) -> Option<i32> {
    if k == SyntaxKind::Plus {
        if i32::MIN <= lv + rv <= i32::MAX {
            Some((lv + rv) as i32)
        } else {
            None
        }
    } else if k == SyntaxKind::Minus {
        if i32::MIN <= lv - rv <= i32::MAX {
            Some((lv - rv) as i32)
        } else {
            None
        }
    } else if k == SyntaxKind::Star {
        if i32::MIN <= lv * rv <= i32::MAX {
            Some((lv * rv) as i32)
        } else {
            None
        }
    } else if k == SyntaxKind::Slash {
        if rv == 0 {
            None
        } else {
            let q = div_trunc(lv as int, rv as int);
            if i32::MIN <= q <= i32::MAX {
                Some(q as i32)
            } else {
                None
            }
        }
    } else {
        None
    }
}

/// The value a tree evaluates to.  A `Root` evaluates its first node
/// child; a `BinaryExpr` evaluates its first two node children and
/// applies its first operator token; a `ParenExpr` evaluates its first
/// expression child; a `LiteralExpr` reads its `Number` token with
/// surrounding whitespace ignored.  A
/// missing part, an unparseable literal, division by zero and overflow
/// all evaluate to `None`.
pub open spec fn eval_spec(n: NodeModel) -> Option<i32>
    decreases n,
    via eval_spec_dec
{
    if n.kind == SyntaxKind::Root {
        match node_at(n.children, 0, 0) {
            Some(c) => eval_spec(c),
            None => None,
        }
    } else if n.kind == SyntaxKind::BinaryExpr {
        match node_at(n.children, 0, 0) {
            Some(l) => match arith_token_at(n.children, 0) {
                Some(opk) => match node_at(n.children, 0, 1) {
                    Some(r) => match eval_spec(l) {
                        Some(lv) => match eval_spec(r) {
                            Some(rv) => apply_op(opk, lv, rv),
                            None => None,
                        },
                        None => None,
                    },
                    None => None,
                },
                None => None,
            },
            None => None,
        }
    } else if n.kind == SyntaxKind::ParenExpr {
        match expr_node_at(n.children, 0) {
            Some(c) => eval_spec(c),
            None => None,
        }
    } else if n.kind == SyntaxKind::LiteralExpr {
        match number_text_at(n.children, 0) {
            Some(txt) => parse_i32_spec(trim_spec(txt)),
            None => None,
        }
    } else {
        None
    }
}

/// A node found among the children sits below the node itself.
proof fn lemma_node_at_decreases(s: Seq<ElemModel>, i: int, k0: nat)
    requires
        0 <= i,
        node_at(s, i, k0) is Some,
    ensures
        decreases_to!(s => node_at(s, i, k0)->Some_0),
    decreases s.len() - i,
{
    if i < s.len() {
        match s[i] {
            ElemModel::Node(m) => {
                if k0 == 0 {
                    assert(decreases_to!(s => s[i]));
                    assert(decreases_to!(s[i] => s[i]->Node_0));
                } else {
                    lemma_node_at_decreases(s, i + 1, (k0 - 1) as nat);
                }
            },
            _ => {
                lemma_node_at_decreases(s, i + 1, k0);
            },
        }
    }
}

/// An expression node found among the children sits below the node
/// itself.
proof fn lemma_expr_node_at_decreases(s: Seq<ElemModel>, i: int)
    requires
        0 <= i,
        expr_node_at(s, i) is Some,
    ensures
        decreases_to!(s => expr_node_at(s, i)->Some_0),
    decreases s.len() - i,
{
    if i < s.len() {
        match s[i] {
            ElemModel::Node(m) => {
                if is_expr_kind(m.kind) {
                    assert(decreases_to!(s => s[i]));
                    assert(decreases_to!(s[i] => s[i]->Node_0));
                } else {
                    lemma_expr_node_at_decreases(s, i + 1);
                }
            },
            _ => {
                lemma_expr_node_at_decreases(s, i + 1);
            },
        }
    }
}

#[via_fn]
proof fn eval_spec_dec(n: NodeModel) {
    assert(decreases_to!(n => n.children));
    if node_at(n.children, 0, 0) is Some {
        lemma_node_at_decreases(n.children, 0, 0);
    }
    if node_at(n.children, 0, 1) is Some {
        lemma_node_at_decreases(n.children, 0, 1);
    }
    if expr_node_at(n.children, 0) is Some {
        lemma_expr_node_at_decreases(n.children, 0);
    }
}

/// Evaluating the same built tree twice yields the same result: the
/// walk is pure, so the outcome depends on the tree alone.
pub proof fn lemma_eval_idempotent(n: NodeModel, r1: Option<i32>, r2: Option<i32>)
    requires
        r1 == eval_spec(n),
        r2 == eval_spec(n),
    ensures
        r1 == r2,
{
}

/// Division by zero never yields a value: a binary node whose operator
/// is `Slash` and whose right operand evaluates to zero evaluates to
/// `None`.
pub proof fn lemma_division_by_zero(n: NodeModel)
    requires
        n.kind == SyntaxKind::BinaryExpr,
        arith_token_at(n.children, 0) == Some(SyntaxKind::Slash),
        node_at(n.children, 0, 1) is Some,
        eval_spec(node_at(n.children, 0, 1)->Some_0) == Some(0i32),
    ensures
        eval_spec(n) is None,
{
}

/// The position of the `k0`-th node child, if there is one.
fn nth_node_index(v: &Vec<SyntaxElement>, k0: usize) -> (r: Option<usize>)
    ensures
        match r {
            Some(j) => j < v@.len() && v@[j as int] is Node && node_at(elems_model(v@), 0, k0 as nat)
                == Some(node_model(v@[j as int]->Node_0)),
            None => node_at(elems_model(v@), 0, k0 as nat) is None,
        },
{
    let ghost cs = elems_model(v@);
    proof {
        lemma_elems_model_index(v@);
    }
    let mut i: usize = 0;
    let mut k: usize = k0;
    while i < v.len()
        invariant
            i <= v@.len(),
            k <= k0,
            cs == elems_model(v@),
            cs.len() == v@.len(),
            forall|j: int| 0 <= j < v@.len() ==> cs[j] == crate::tree::elem_model(v@[j]),
            node_at(cs, 0, k0 as nat) == node_at(cs, i as int, k as nat),
        decreases v@.len() - i,
    {
        match &v[i] {
            SyntaxElement::Node(_) => {
                if k == 0 {
                    return Some(i);
                }
                k = k - 1;
            },
            SyntaxElement::Token(_) => {},
        }
        i = i + 1;
    }
    None
}

/// The position of the first expression-kind node child, if there is
/// one.
fn expr_node_index(v: &Vec<SyntaxElement>) -> (r: Option<usize>)
    ensures
        match r {
            Some(j) => j < v@.len() && v@[j as int] is Node && expr_node_at(elems_model(v@), 0) == Some(
                node_model(v@[j as int]->Node_0),
            ),
            None => expr_node_at(elems_model(v@), 0) is None,
        },
{
    let ghost cs = elems_model(v@);
    proof {
        lemma_elems_model_index(v@);
    }
    let mut i: usize = 0;
    while i < v.len()
        invariant
            i <= v@.len(),
            cs == elems_model(v@),
            cs.len() == v@.len(),
            forall|j: int| 0 <= j < v@.len() ==> cs[j] == crate::tree::elem_model(v@[j]),
            expr_node_at(cs, 0) == expr_node_at(cs, i as int),
        decreases v@.len() - i,
    {
        match &v[i] {
            SyntaxElement::Node(m) => {
                if m.kind == SyntaxKind::LiteralExpr || m.kind == SyntaxKind::BinaryExpr || m.kind
                    == SyntaxKind::ParenExpr {
                    return Some(i);
                }
            },
            SyntaxElement::Token(_) => {},
        }
        i = i + 1;
    }
    None
}

/// The kind of the first arithmetic operator token child, if there is
/// one.
fn first_arith_token(v: &Vec<SyntaxElement>) -> (r: Option<SyntaxKind>)
    ensures
        r == arith_token_at(elems_model(v@), 0),
{
    let ghost cs = elems_model(v@);
    proof {
        lemma_elems_model_index(v@);
    }
    let mut i: usize = 0;
    while i < v.len()
        invariant
            i <= v@.len(),
            cs == elems_model(v@),
            cs.len() == v@.len(),
            forall|j: int| 0 <= j < v@.len() ==> cs[j] == crate::tree::elem_model(v@[j]),
            arith_token_at(cs, 0) == arith_token_at(cs, i as int),
        decreases v@.len() - i,
    {
        match &v[i] {
            SyntaxElement::Token(t) => {
                if t.kind == SyntaxKind::Plus || t.kind == SyntaxKind::Minus || t.kind
                    == SyntaxKind::Star || t.kind == SyntaxKind::Slash {
                    return Some(t.kind);
                }
            },
            SyntaxElement::Node(_) => {},
        }
        i = i + 1;
    }
    None
}

/// The text of the first `Number` token child, if there is one.
fn first_number_text<'a>(v: &'a Vec<SyntaxElement>) -> (r: Option<&'a String>)
    ensures
        match r {
            Some(s) => number_text_at(elems_model(v@), 0) == Some(s@),
            None => number_text_at(elems_model(v@), 0) is None,
        },
{
    let ghost cs = elems_model(v@);
    proof {
        lemma_elems_model_index(v@);
    }
    let mut i: usize = 0;
    while i < v.len()
        invariant
            i <= v@.len(),
            cs == elems_model(v@),
            cs.len() == v@.len(),
            forall|j: int| 0 <= j < v@.len() ==> cs[j] == crate::tree::elem_model(v@[j]),
            number_text_at(cs, 0) == number_text_at(cs, i as int),
        decreases v@.len() - i,
    {
        match &v[i] {
            SyntaxElement::Token(t) => {
                if t.kind == SyntaxKind::Number {
                    return Some(&t.text);
                }
            },
            SyntaxElement::Node(_) => {},
        }
        i = i + 1;
    }
    None
}

/// The value of a digit character; anything else is refused.
fn digit_of(c: char) -> (r: Option<u64>)
    ensures
        is_digit(c) ==> r == Some(digit_val(c) as u64),
        !is_digit(c) ==> r is None,
{
    if c == '0' {
        Some(0)
    } else if c == '1' {
        Some(1)
    } else if c == '2' {
        Some(2)
    } else if c == '3' {
        Some(3)
    } else if c == '4' {
        Some(4)
    } else if c == '5' {
        Some(5)
    } else if c == '6' {
        Some(6)
    } else if c == '7' {
        Some(7)
    } else if c == '8' {
        Some(8)
    } else if c == '9' {
        Some(9)
    } else {
        None
    }
}

/// Reads a slice as a signed decimal integer: an optional sign, then
/// at least one digit, the value within the `i32` range.
pub fn parse_i32(s: &str) -> (r: Option<i32>)
    ensures
        r == parse_i32_spec(s@),
{
    let n = s.unicode_len();
    if n == 0 {
        return None;
    }
    let first = s.get_char(0);
    let neg = first == '-';
    let start: usize = if first == '-' || first == '+' {
        1
    } else {
        0
    };
    if n == start {
        return None;
    }
    let ghost ds = if s@[0] == '-' || s@[0] == '+' {
        s@.drop_first()
    } else {
        s@
    };
    proof {
        assert(ds =~= s@.subrange(start as int, n as int));
        assert(s@.subrange(start as int, start as int) =~= Seq::<char>::empty());
    }
    let bound: u64 = 0x8000_0000;
    let mut acc: u64 = 0;
    let mut i: usize = start;
    while i < n
        invariant
            start <= i <= n,
            n == s@.len(),
            start < n,
            start <= 1,
            (start == 1) == (s@[0] == '-' || s@[0] == '+'),
            neg == (s@[0] == '-'),
            ds == s@.subrange(start as int, n as int),
            forall|j: int| start <= j < i ==> is_digit(s@[j]),
            bound == 0x8000_0000,
            acc <= 0x5_0000_0009,
            digits_val(s@.subrange(start as int, i as int)) <= bound as nat ==> acc == digits_val(
                s@.subrange(start as int, i as int),
            ),
            digits_val(s@.subrange(start as int, i as int)) > bound as nat ==> acc > bound,
        decreases n - i,
    {
        let c = s.get_char(i);
        let d = match digit_of(c) {
            Some(d) => d,
            None => {
                proof {
                    assert(ds[i - start] == s@[i as int]);
                    assert(!all_digits(ds));
                    assert(s@.drop_first() =~= s@.subrange(1, n as int));
                    assert(s@.subrange(0, n as int) =~= s@);
                }
                return None;
            },
        };
        proof {
            assert(s@.subrange(start as int, i as int + 1).drop_last() =~= s@.subrange(
                start as int,
                i as int,
            ));
            assert(s@.subrange(start as int, i as int + 1).last() == s@[i as int]);
        }
        if acc <= bound {
            acc = acc * 10 + d;
        }
        i = i + 1;
    }
    proof {
        assert(all_digits(ds));
        assert(s@.drop_first() =~= s@.subrange(1, n as int));
        assert(s@.subrange(0, n as int) =~= s@);
    }
    if neg {
        if acc <= bound {
            proof {
                assert(acc as nat == digits_val(ds));
            }
            Some((-(acc as i64)) as i32)
        } else {
            None
        }
    } else {
        if acc <= 0x7fff_ffff {
            proof {
                assert(acc as nat == digits_val(ds));
            }
            Some(acc as i32)
        } else {
            None
        }
    }
}

/// Applies an operator token kind to two evaluated operands.
fn apply_op_exec(k: SyntaxKind, lv: i32, rv: i32) -> (r: Option<i32>)
    ensures
        r == apply_op(k, lv, rv),
{
    match k {
        SyntaxKind::Plus => {
            let v: i64 = lv as i64 + rv as i64;
            if v >= i32::MIN as i64 && v <= i32::MAX as i64 {
                Some(v as i32)
            } else {
                None
            }
        },
        SyntaxKind::Minus => {
            let v: i64 = lv as i64 - rv as i64;
            if v >= i32::MIN as i64 && v <= i32::MAX as i64 {
                Some(v as i32)
            } else {
                None
            }
        },
        SyntaxKind::Star => {
            proof {
                assert(i64::MIN <= lv as int * rv as int <= i64::MAX) by (nonlinear_arith)
                    requires
                        -0x8000_0000 <= lv as int <= 0x7fff_ffff,
                        -0x8000_0000 <= rv as int <= 0x7fff_ffff,
                ;
            }
            let v: i64 = lv as i64 * rv as i64;
            if v >= i32::MIN as i64 && v <= i32::MAX as i64 {
                Some(v as i32)
            } else {
                None
            }
        },
        SyntaxKind::Slash => {
            if rv == 0 {
                None
            } else {
                let la: u32 = if lv < 0 {
                    (-(lv as i64)) as u32
                } else {
                    lv as u32
                };
                let ra: u32 = if rv < 0 {
                    (-(rv as i64)) as u32
                } else {
                    rv as u32
                };
                let q: u32 = la / ra;
                proof {
                    assert(la as int == abs_int(lv as int));
                    assert(ra as int == abs_int(rv as int));
                    assert(q as int <= la as int) by (nonlinear_arith)
                        requires
                            q as int == la as int / ra as int,
                            ra as int >= 1,
                            la as int >= 0,
                    ;
                }
                if (lv < 0) != (rv < 0) {
                    Some((-(q as i64)) as i32)
                } else {
                    if q <= 0x7fff_ffff {
                        Some(q as i32)
                    } else {
                        None
                    }
                }
            }
        },
        _ => None,
    }
}

/// Evaluates a tree: the computed integer, or `None` on any failure.
pub fn eval(node: &SyntaxNode) -> (r: Option<i32>)
    ensures
        r == eval_spec(node@),
    decreases *node,
{
    let kind = node.kind;
    if kind == SyntaxKind::Root {
        match nth_node_index(&node.children, 0) {
            Some(j) => {
                match &node.children[j] {
                    SyntaxElement::Node(m) => {
                        proof {
                            assert(decreases_to!(*node => node.children));
                            assert(decreases_to!(node.children => node.children@));
                            assert(decreases_to!(node.children@ => node.children@[j as int]));
                            assert(decreases_to!(
                                node.children@[j as int] => node.children@[j as int]->Node_0));
                        }
                        eval(m)
                    },
                    SyntaxElement::Token(_) => None,
                }
            },
            None => None,
        }
    } else if kind == SyntaxKind::BinaryExpr {
        let lj = match nth_node_index(&node.children, 0) {
            Some(j) => j,
            None => {
                return None;
            },
        };
        let opk = match first_arith_token(&node.children) {
            Some(k) => k,
            None => {
                return None;
            },
        };
        let rj = match nth_node_index(&node.children, 1) {
            Some(j) => j,
            None => {
                return None;
            },
        };
        let lv = match &node.children[lj] {
            SyntaxElement::Node(m) => {
                proof {
                    assert(decreases_to!(*node => node.children));
                    assert(decreases_to!(node.children => node.children@));
                    assert(decreases_to!(node.children@ => node.children@[lj as int]));
                    assert(decreases_to!(
                        node.children@[lj as int] => node.children@[lj as int]->Node_0));
                }
                match eval(m) {
                    Some(v) => v,
                    None => {
                        return None;
                    },
                }
            },
            SyntaxElement::Token(_) => {
                return None;
            },
        };
        let rv = match &node.children[rj] {
            SyntaxElement::Node(m) => {
                proof {
                    assert(decreases_to!(*node => node.children));
                    assert(decreases_to!(node.children => node.children@));
                    assert(decreases_to!(node.children@ => node.children@[rj as int]));
                    assert(decreases_to!(
                        node.children@[rj as int] => node.children@[rj as int]->Node_0));
                }
                match eval(m) {
                    Some(v) => v,
                    None => {
                        return None;
                    },
                }
            },
            SyntaxElement::Token(_) => {
                return None;
            },
        };
        apply_op_exec(opk, lv, rv)
    } else if kind == SyntaxKind::ParenExpr {
        match expr_node_index(&node.children) {
            Some(j) => {
                match &node.children[j] {
                    SyntaxElement::Node(m) => {
                        proof {
                            assert(decreases_to!(*node => node.children));
                            assert(decreases_to!(node.children => node.children@));
                            assert(decreases_to!(node.children@ => node.children@[j as int]));
                            assert(decreases_to!(
                                node.children@[j as int] => node.children@[j as int]->Node_0));
                        }
                        eval(m)
                    },
                    SyntaxElement::Token(_) => None,
                }
            },
            None => None,
        }
    } else if kind == SyntaxKind::LiteralExpr {
        match first_number_text(&node.children) {
            Some(text) => parse_i32(trim_str(text.as_str())),
            None => None,
        }
    } else {
        None
    }
}

} // verus!
