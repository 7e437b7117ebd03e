//! Precedence-aware recursive descent over raw text: each step trims
//! the working slice, splits it at the rightmost additive (then
//! multiplicative) operator outside parentheses, and recurses into the
//! operands.

use crate::builder::{TreeBuilder, push_child};
use crate::kinds::SyntaxKind;
use crate::text::{contains_char, slice_contains, trim_str};
use crate::text::{trim_spec, lemma_trim_len};
use crate::tree::{ElemModel, NodeModel, SyntaxNode, TokenModel};
use vstd::prelude::*;
use vstd::string::StrSliceExecFns;

verus! {

/// The token kind of an operator character.
pub open spec fn op_kind(c: char) -> SyntaxKind {
    if c == '+' {
        SyntaxKind::Plus
    } else if c == '-' {
        SyntaxKind::Minus
    } else if c == '*' {
        SyntaxKind::Star
    } else if c == '/' {
        SyntaxKind::Slash
    } else {
        SyntaxKind::Error
    }
}

/// The rightmost position at or before `i` holding one of `ops`
/// outside parentheses, scanning right to left with `level` open
/// parentheses seen so far (closing parentheses raise it, opening
/// ones lower it).
pub open spec fn find_op_from(t: Seq<char>, ops: Seq<char>, i: int, level: int) -> Option<int>
    decreases i + 1,
{
    if i < 0 {
        None
    } else if t[i] == ')' {
        find_op_from(t, ops, i - 1, level + 1)
    } else if t[i] == '(' {
        find_op_from(t, ops, i - 1, level - 1)
    } else if level == 0 && ops.contains(t[i]) {
        Some(i)
    } else {
        find_op_from(t, ops, i - 1, level)
    }
}

/// The rightmost position of one of `ops` outside parentheses.
pub open spec fn find_op_spec(t: Seq<char>, ops: Seq<char>) -> Option<int> {
    find_op_from(t, ops, t.len() - 1, 0)
}

/// A found position is in range and holds one of the sought characters.
pub proof fn lemma_find_op_from_bounds(t: Seq<char>, ops: Seq<char>, i: int, level: int)
    requires
        i < t.len(),
    ensures
        find_op_from(t, ops, i, level) is Some ==> {
            let j = find_op_from(t, ops, i, level)->Some_0;
            0 <= j <= i && ops.contains(t[j])
        },
    decreases i + 1,
{
    if i >= 0 {
        lemma_find_op_from_bounds(t, ops, i - 1, level + 1);
        lemma_find_op_from_bounds(t, ops, i - 1, level - 1);
        lemma_find_op_from_bounds(t, ops, i - 1, level);
    }
}

pub proof fn lemma_find_op_bounds(t: Seq<char>, ops: Seq<char>)
    ensures
        find_op_spec(t, ops) is Some ==> {
            let j = find_op_spec(t, ops)->Some_0;
            0 <= j < t.len() && ops.contains(t[j])
        },
{
    lemma_find_op_from_bounds(t, ops, t.len() - 1, 0);
}

/// The model of the tree built for a bare numeric literal: a
/// `LiteralExpr` node around one `Number` token carrying the slice
/// verbatim.
pub open spec fn parse_number_spec(t: Seq<char>) -> NodeModel {
    NodeModel {
        kind: SyntaxKind::LiteralExpr,
        children: seq![ElemModel::Token(TokenModel { kind: SyntaxKind::Number, text: t })],
    }
}

/// The model of the tree built for a parenthesised slice: the
/// parenthesis tokens around the trimmed inner expression.  A slice
/// too short to hold a parenthesis pair falls back to a literal.
pub open spec fn parse_paren_spec(t: Seq<char>) -> NodeModel
    decreases t.len(), 1nat,
    via parse_paren_spec_dec
{
    if t.len() >= 2 {
        NodeModel {
            kind: SyntaxKind::ParenExpr,
            children: seq![
                ElemModel::Token(TokenModel { kind: SyntaxKind::LParen, text: seq!['('] }),
                ElemModel::Node(parse_expr_spec(trim_spec(t.subrange(1, t.len() - 1)))),
                ElemModel::Token(TokenModel { kind: SyntaxKind::RParen, text: seq![')'] }),
            ],
        }
    } else {
        parse_number_spec(t)
    }
}

#[via_fn]
proof fn parse_paren_spec_dec(t: Seq<char>) {
    if t.len() >= 2 {
        lemma_trim_len(t.subrange(1, t.len() - 1));
    }
}

/// The model of the tree built for a binary expression: the left
/// operand, the operator token, the right operand.  An operand is
/// re-parsed as a full expression when it still holds an operator of
/// equal or lower precedence, as a parenthesised expression when it
/// holds a parenthesis, and as a literal otherwise.
pub open spec fn parse_binary_spec(l: Seq<char>, op: char, r: Seq<char>) -> NodeModel
    recommends
        op == '+' || op == '-' || op == '*' || op == '/',
    decreases l.len() + r.len() + 1, 2nat,
{
    let left_node = if op == '+' || op == '-' {
        if l.contains('+') || l.contains('-') || l.contains('*') || l.contains('/')
            || l.contains('(') {
            parse_expr_spec(l)
        } else {
            parse_number_spec(l)
        }
    } else {
        if l.contains('*') || l.contains('/') || l.contains('(') {
            parse_expr_spec(l)
        } else {
            parse_number_spec(l)
        }
    };
    let right_node = if op == '+' || op == '-' {
        if r.contains('*') || r.contains('/') || r.contains('(') {
            parse_expr_spec(r)
        } else {
            parse_number_spec(r)
        }
    } else {
        if r.contains('*') || r.contains('/') || r.contains('(') {
            parse_expr_spec(r)
        } else {
            parse_number_spec(r)
        }
    };
    NodeModel {
        kind: SyntaxKind::BinaryExpr,
        children: seq![
            ElemModel::Node(left_node),
            ElemModel::Token(TokenModel { kind: op_kind(op), text: seq![op] }),
            ElemModel::Node(right_node),
        ],
    }
}

/// The model of the tree built for an arbitrary slice: the slice is
/// trimmed and split at the rightmost additive operator outside
/// parentheses, else at the rightmost multiplicative one, else taken
/// as a parenthesised expression or a literal.
pub open spec fn parse_expr_spec(t: Seq<char>) -> NodeModel
    decreases t.len(), 3nat,
    via parse_expr_spec_dec
{
    let s = trim_spec(t);
    if find_op_spec(s, seq!['+', '-']) is Some {
        let idx = find_op_spec(s, seq!['+', '-'])->Some_0;
        parse_binary_spec(s.subrange(0, idx), s[idx], s.subrange(idx + 1, s.len() as int))
    } else if find_op_spec(s, seq!['*', '/']) is Some {
        let idx = find_op_spec(s, seq!['*', '/'])->Some_0;
        parse_binary_spec(s.subrange(0, idx), s[idx], s.subrange(idx + 1, s.len() as int))
    } else if s.len() >= 1 && s[0] == '(' && s.last() == ')' {
        parse_paren_spec(s)
    } else {
        parse_number_spec(s)
    }
}

#[via_fn]
proof fn parse_expr_spec_dec(t: Seq<char>) {
    lemma_trim_len(t);
    let s = trim_spec(t);
    lemma_find_op_bounds(s, seq!['+', '-']);
    lemma_find_op_bounds(s, seq!['*', '/']);
}

/// The model of the whole parse: a `Root` node around the expression.
pub open spec fn parse_spec(t: Seq<char>) -> NodeModel {
    NodeModel { kind: SyntaxKind::Root, children: seq![ElemModel::Node(parse_expr_spec(t))] }
}

/// The position of the rightmost occurrence of one of `ops` outside
/// parentheses, scanning right to left and counting parenthesis depth.
pub fn find_top_level_operator(text: &str, ops: &[char]) -> (r: Option<usize>)
    ensures
        match r {
            Some(u) => find_op_spec(text@, ops@) == Some(u as int),
            None => find_op_spec(text@, ops@) is None,
        },
{
    let n = text.unicode_len();
    let mut i: usize = n;
    let mut paren_level: i128 = 0;
    while i > 0
        invariant
            i <= n,
            n == text@.len(),
            -((n - i) as int) <= paren_level <= (n - i) as int,
            find_op_spec(text@, ops@) == find_op_from(text@, ops@, i as int - 1, paren_level as int),
        decreases i,
    {
        let c = text.get_char(i - 1);
        if c == ')' {
            paren_level = paren_level + 1;
        } else if c == '(' {
            paren_level = paren_level - 1;
        } else if paren_level == 0 && slice_contains(ops, c) {
            return Some(i - 1);
        }
        i = i - 1;
    }
    None
}

/// Appending a child to the node just started leaves the rest of the
/// stack alone.
proof fn lemma_push_child_on_push(stack: Seq<NodeModel>, n: NodeModel, e: ElemModel)
    ensures
        push_child(stack.push(n), e) == stack.push(
            NodeModel { kind: n.kind, children: n.children.push(e) },
        ),
{
    assert(push_child(stack.push(n), e) =~~= stack.push(
        NodeModel { kind: n.kind, children: n.children.push(e) },
    ));
}

/// The recursive-descent tree builder.
pub struct AstParser {
    pub builder: TreeBuilder,
}

impl AstParser {
    /// A parser with an empty builder.
    pub fn new() -> (p: Self)
        ensures
            p.builder@.stack.len() == 0,
            p.builder@.finished is None,
    {
        AstParser { builder: TreeBuilder::new() }
    }

    /// Emits a numeric literal node carrying the slice verbatim.
    pub fn parse_number(&mut self, text: &str)
        requires
            old(self).builder@.stack.len() > 0,
            old(self).builder@.finished is None,
        ensures
            final(self).builder@.stack == push_child(
                old(self).builder@.stack,
                ElemModel::Node(parse_number_spec(text@)),
            ),
            final(self).builder@.finished is None,
    {
        let ghost stack0 = old(self).builder@.stack;
        self.builder.start_node(SyntaxKind::LiteralExpr);
        self.builder.token(SyntaxKind::Number, text);
        proof {
            lemma_push_child_on_push(
                stack0,
                NodeModel { kind: SyntaxKind::LiteralExpr, children: Seq::empty() },
                ElemModel::Token(TokenModel { kind: SyntaxKind::Number, text: text@ }),
            );
        }
        self.builder.finish_node();
        proof {
            assert(self.builder@.stack == push_child(
                stack0,
                ElemModel::Node(
                    NodeModel {
                        kind: SyntaxKind::LiteralExpr,
                        children: Seq::empty().push(
                            ElemModel::Token(
                                TokenModel { kind: SyntaxKind::Number, text: text@ },
                            ),
                        ),
                    },
                ),
            ));
            assert(Seq::empty().push(
                ElemModel::Token(TokenModel { kind: SyntaxKind::Number, text: text@ }),
            ) =~= parse_number_spec(text@).children);
            assert(self.builder@.stack =~~= push_child(
                stack0,
                ElemModel::Node(parse_number_spec(text@)),
            ));
        }
    }

    /// Emits a parenthesised expression: the parenthesis tokens around
    /// the trimmed inner slice, parsed as a full expression.
    pub fn parse_paren_expr(&mut self, text: &str)
        requires
            old(self).builder@.stack.len() > 0,
            old(self).builder@.finished is None,
            text@.len() >= 2,
        ensures
            final(self).builder@.stack == push_child(
                old(self).builder@.stack,
                ElemModel::Node(parse_paren_spec(text@)),
            ),
            final(self).builder@.finished is None,
        decreases text@.len(), 1nat,
    {
        let ghost stack0 = old(self).builder@.stack;
        self.builder.start_node(SyntaxKind::ParenExpr);
        let sub = text.substring_char(1, text.unicode_len() - 1);
        let inner = trim_str(sub);
        self.builder.token(SyntaxKind::LParen, "(");
        proof {
            reveal_strlit("(");
            reveal_strlit(")");
            assert("("@ =~= seq!['(']);
            assert(")"@ =~= seq![')']);
            lemma_push_child_on_push(
                stack0,
                NodeModel { kind: SyntaxKind::ParenExpr, children: Seq::empty() },
                ElemModel::Token(TokenModel { kind: SyntaxKind::LParen, text: seq!['('] }),
            );
            lemma_trim_len(sub@);
        }
        self.parse_expr(inner);
        proof {
            lemma_push_child_on_push(
                stack0,
                NodeModel {
                    kind: SyntaxKind::ParenExpr,
                    children: Seq::empty().push(
                        ElemModel::Token(TokenModel { kind: SyntaxKind::LParen, text: seq!['('] }),
                    ),
                },
                ElemModel::Node(parse_expr_spec(inner@)),
            );
        }
        self.builder.token(SyntaxKind::RParen, ")");
        proof {
            lemma_push_child_on_push(
                stack0,
                NodeModel {
                    kind: SyntaxKind::ParenExpr,
                    children: Seq::empty().push(
                        ElemModel::Token(TokenModel { kind: SyntaxKind::LParen, text: seq!['('] }),
                    ).push(ElemModel::Node(parse_expr_spec(inner@))),
                },
                ElemModel::Token(TokenModel { kind: SyntaxKind::RParen, text: seq![')'] }),
            );
        }
        self.builder.finish_node();
        proof {
            assert(Seq::empty().push(
                ElemModel::Token(TokenModel { kind: SyntaxKind::LParen, text: seq!['('] }),
            ).push(ElemModel::Node(parse_expr_spec(inner@))).push(
                ElemModel::Token(TokenModel { kind: SyntaxKind::RParen, text: seq![')'] }),
            ) =~= parse_paren_spec(text@).children);
            assert(self.builder@.stack =~~= push_child(
                stack0,
                ElemModel::Node(parse_paren_spec(text@)),
            ));
        }
    }

    /// Emits a binary expression: the left operand, the operator token,
    /// the right operand, each operand re-parsed according to what it
    /// still holds.
    pub fn parse_binary_expr(&mut self, left: &str, op: &str, right: &str)
        requires
            old(self).builder@.stack.len() > 0,
            old(self).builder@.finished is None,
            op@.len() == 1,
            op@[0] == '+' || op@[0] == '-' || op@[0] == '*' || op@[0] == '/',
        ensures
            final(self).builder@.stack == push_child(
                old(self).builder@.stack,
                ElemModel::Node(parse_binary_spec(left@, op@[0], right@)),
            ),
            final(self).builder@.finished is None,
        decreases left@.len() + right@.len() + 1, 2nat,
    {
        let ghost stack0 = old(self).builder@.stack;
        let c = op.get_char(0);
        self.builder.start_node(SyntaxKind::BinaryExpr);

        // Parse the left operand.
        let plus_minus = c == '+' || c == '-';
        let left_reparse = if plus_minus {
            contains_char(left, '+') || contains_char(left, '-') || contains_char(left, '*')
                || contains_char(left, '/') || contains_char(left, '(')
        } else {
            contains_char(left, '*') || contains_char(left, '/') || contains_char(left, '(')
        };
        if left_reparse {
            self.parse_expr(left);
        } else {
            self.parse_number(left);
        }
        let ghost left_node = parse_binary_spec(left@, op@[0], right@).children[0]->Node_0;
        proof {
            assert(self.builder@.stack == push_child(
                stack0.push(NodeModel { kind: SyntaxKind::BinaryExpr, children: Seq::empty() }),
                ElemModel::Node(left_node),
            ));
            lemma_push_child_on_push(
                stack0,
                NodeModel { kind: SyntaxKind::BinaryExpr, children: Seq::empty() },
                ElemModel::Node(left_node),
            );
        }

        // Emit the operator token.
        if c == '+' {
            self.builder.token(SyntaxKind::Plus, op);
        } else if c == '-' {
            self.builder.token(SyntaxKind::Minus, op);
        } else if c == '*' {
            self.builder.token(SyntaxKind::Star, op);
        } else {
            self.builder.token(SyntaxKind::Slash, op);
        }
        proof {
            assert(op@ =~= seq![op@[0]]);
            lemma_push_child_on_push(
                stack0,
                NodeModel {
                    kind: SyntaxKind::BinaryExpr,
                    children: Seq::empty().push(ElemModel::Node(left_node)),
                },
                ElemModel::Token(TokenModel { kind: op_kind(op@[0]), text: op@ }),
            );
        }

        // Parse the right operand.
        let right_reparse = contains_char(right, '*') || contains_char(right, '/')
            || contains_char(right, '(');
        if right_reparse {
            self.parse_expr(right);
        } else {
            self.parse_number(right);
        }
        let ghost right_node = parse_binary_spec(left@, op@[0], right@).children[2]->Node_0;
        proof {
            assert(self.builder@.stack == push_child(
                stack0.push(
                    NodeModel {
                        kind: SyntaxKind::BinaryExpr,
                        children: Seq::empty().push(ElemModel::Node(left_node)).push(
                            ElemModel::Token(TokenModel { kind: op_kind(op@[0]), text: op@ }),
                        ),
                    },
                ),
                ElemModel::Node(right_node),
            ));
            lemma_push_child_on_push(
                stack0,
                NodeModel {
                    kind: SyntaxKind::BinaryExpr,
                    children: Seq::empty().push(ElemModel::Node(left_node)).push(
                        ElemModel::Token(TokenModel { kind: op_kind(op@[0]), text: op@ }),
                    ),
                },
                ElemModel::Node(right_node),
            );
        }

        self.builder.finish_node();
        proof {
            assert(Seq::empty().push(ElemModel::Node(left_node)).push(
                ElemModel::Token(TokenModel { kind: op_kind(op@[0]), text: op@ }),
            ).push(ElemModel::Node(right_node)) =~= parse_binary_spec(
                left@,
                op@[0],
                right@,
            ).children);
            assert(self.builder@.stack =~~= push_child(
                stack0,
                ElemModel::Node(parse_binary_spec(left@, op@[0], right@)),
            ));
        }
    }

    /// Parses any slice: trims it, splits it at the rightmost additive
    /// operator outside parentheses, else at the rightmost
    /// multiplicative one, else takes it as a parenthesised expression
    /// or a bare literal.
    pub fn parse_expr(&mut self, text: &str)
        requires
            old(self).builder@.stack.len() > 0,
            old(self).builder@.finished is None,
        ensures
            final(self).builder@.stack == push_child(
                old(self).builder@.stack,
                ElemModel::Node(parse_expr_spec(text@)),
            ),
            final(self).builder@.finished is None,
        decreases text@.len(), 3nat,
    {
        let t = trim_str(text);
        proof {
            lemma_trim_len(text@);
        }
        let ops_pm = vec!['+', '-'];
        let ops_md = vec!['*', '/'];
        proof {
            assert(ops_pm@ =~= seq!['+', '-']);
            assert(ops_md@ =~= seq!['*', '/']);
        }
        let found_pm = find_top_level_operator(t, ops_pm.as_slice());
        if let Some(idx) = found_pm {
            proof {
                lemma_find_op_bounds(t@, seq!['+', '-']);
                let k = choose|k: int|
                    0 <= k < seq!['+', '-'].len() && seq!['+', '-'][k] == t@[idx as int];
                assert(k == 0 || k == 1);
            }
            let n = t.unicode_len();
            let left = t.substring_char(0, idx);
            let op = t.substring_char(idx, idx + 1);
            let right = t.substring_char(idx + 1, n);
            self.parse_binary_expr(left, op, right);
        } else {
            let found_md = find_top_level_operator(t, ops_md.as_slice());
            if let Some(idx) = found_md {
                proof {
                    lemma_find_op_bounds(t@, seq!['*', '/']);
                    let k = choose|k: int|
                        0 <= k < seq!['*', '/'].len() && seq!['*', '/'][k] == t@[idx as int];
                    assert(k == 0 || k == 1);
                }
                let n = t.unicode_len();
                let left = t.substring_char(0, idx);
                let op = t.substring_char(idx, idx + 1);
                let right = t.substring_char(idx + 1, n);
                self.parse_binary_expr(left, op, right);
            } else {
                let n = t.unicode_len();
                if n >= 1 && t.get_char(0) == '(' && t.get_char(n - 1) == ')' {
                    self.parse_paren_expr(t);
                } else {
                    self.parse_number(t);
                }
            }
        }
    }

    /// Parses a complete expression: the parsed text wrapped in a
    /// single `Root` node.  The builder is left empty again, ready for
    /// the next parse.
    pub fn parse(&mut self, input: &str) -> (n: SyntaxNode)
        requires
            old(self).builder@.stack.len() == 0,
            old(self).builder@.finished is None,
        ensures
            n@ == parse_spec(input@),
            final(self).builder@.stack.len() == 0,
            final(self).builder@.finished is None,
    {
        self.builder.start_node(SyntaxKind::Root);
        self.parse_expr(input);
        proof {
            lemma_push_child_on_push(
                old(self).builder@.stack,
                NodeModel { kind: SyntaxKind::Root, children: Seq::empty() },
                ElemModel::Node(parse_expr_spec(input@)),
            );
        }
        self.builder.finish_node();
        proof {
            assert(Seq::empty().push(ElemModel::Node(parse_expr_spec(input@))) =~= parse_spec(
                input@,
            ).children);
            assert(self.builder@.finished =~~= Some(parse_spec(input@)));
        }
        self.builder.finish()
    }
}

} // verus!
