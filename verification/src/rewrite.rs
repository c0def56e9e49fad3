//! Local rewriting: a catalogue of algebraic and mixed boolean-arithmetic
//! identities applied directly on the arena, and a bottom-up simplification
//! pass that drives them to a fixed point.  Every rewrite step is proved to
//! preserve the denotation of the node it replaces, so a pass returns a node
//! that evaluates exactly like its input on every assignment of the free
//! variables.
use vstd::prelude::*;

verus! {

use crate::arena::Arena;
use crate::numeric::lemma_wrapping_add_is_wadd;
use crate::ast::{
    eval, lemma_eval_fits, lemma_eval_frame, node_ok, stable_prefix, AstIdx, SimpleAst,
};
use crate::{add_val, mask_of, mul_val, not_val};

/// Bit-level identities behind the purely bitwise rewrite rules.
proof fn ax_rw(x: u64, y: u64, z: u64, w: u32)
    by (bit_vector)
    ensures
        (x & mask_of(w) == x) ==> (add_val(x, 0, w) == x && add_val(0, x, w) == x),
        (x & mask_of(w) == x && y & mask_of(w) == y) ==> add_val(x & y, x | y, w) == add_val(
            x,
            y,
            w,
        ),
        x ^ x == 0,
        (x & mask_of(w) == x) ==> (x ^ 0 == x && 0 ^ x == x && x & x == x && x | x == x && x & 0
            == 0 && 0u64 & x == 0 && x | 0 == x && 0u64 | x == x),
        x ^ (x ^ y) == y,
        (x ^ y) ^ y == x,
        (x ^ y) ^ x == y,
        x ^ (y ^ x) == y,
        (x & mask_of(w) == x) ==> not_val(not_val(x, w), w) == x,
        ((x ^ y) & z) == ((x & z) ^ (y & z)),
{
}

/// A fold of two canonical constants stays within the width.
proof fn ax_fold_bits(c1: u64, c2: u64, w: u32)
    by (bit_vector)
    ensures
        (c1 & mask_of(w) == c1) ==> ((c1 & c2) & mask_of(w)) == (c1 & c2),
        (c1 & mask_of(w) == c1 && c2 & mask_of(w) == c2) ==> ((c1 | c2) & mask_of(w)) == (c1 | c2),
        (c1 & mask_of(w) == c1 && c2 & mask_of(w) == c2) ==> ((c1 ^ c2) & mask_of(w)) == (c1 ^ c2),
{
}

/// Both children of a node are constant leaves.
pub open spec fn both_const(nodes: Seq<crate::ast::Entry>, a: AstIdx, b: AstIdx) -> bool {
    crate::ast::const_value(nodes[a.0 as int].0) is Some && crate::ast::const_value(
        nodes[b.0 as int].0,
    ) is Some
}

/// A shape one rewrite step always removes, leaving a constant or a child: a
/// sum or product of two constants, an added zero, an exclusive or of a node
/// with itself, or a double complement.
pub open spec fn root_redex_basic(nodes: Seq<crate::ast::Entry>, i: int) -> bool {
    match nodes[i].0 {
        SimpleAst::Add { a, b } => both_const(nodes, a, b) || crate::ast::const_value(
            nodes[a.0 as int].0,
        ) == Some(0u64) || crate::ast::const_value(nodes[b.0 as int].0) == Some(0u64),
        SimpleAst::Mul { a, b } => both_const(nodes, a, b),
        SimpleAst::Xor { a, b } => a == b || both_const(nodes, a, b) || crate::ast::const_value(
            nodes[a.0 as int].0,
        ) == Some(0u64) || crate::ast::const_value(nodes[b.0 as int].0) == Some(0u64),
        SimpleAst::Neg { a } => nodes[a.0 as int].0 is Neg || nodes[a.0 as int].0 is Constant,
        _ => false,
    }
}

/// A shape some rule of the rewriter fires on.
pub open spec fn root_redex(nodes: Seq<crate::ast::Entry>, i: int) -> bool {
    ||| root_redex_basic(nodes, i)
    ||| match nodes[i].0 {
        SimpleAst::Add { a, b } => match (nodes[a.0 as int].0, nodes[b.0 as int].0) {
            (SimpleAst::And { a: p, b: q }, SimpleAst::Or { a: p2, b: q2 }) => p == p2 && q == q2,
            _ => false,
        },
        SimpleAst::Xor { a, b } => {
            ||| match nodes[b.0 as int].0 {
                SimpleAst::Xor { a: p, b: q } => p == a || q == a,
                _ => false,
            }
            ||| match nodes[a.0 as int].0 {
                SimpleAst::Xor { a: p, b: q } => p == b || q == b,
                _ => false,
            }
        },
        SimpleAst::And { a, b } => nodes[a.0 as int].0 is Xor,
        _ => false,
    }
}

impl Arena {
    /// Try one local rewrite of the node behind `idx`.  A returned handle
    /// denotes exactly what the input denotes, under every assignment; when no
    /// rule matches, the arena is untouched.
    pub fn try_rewrite(&mut self, idx: AstIdx) -> (r: Option<AstIdx>)
        requires
            old(self).wf(),
            old(self).valid(idx),
        ensures
            final(self).wf(),
            stable_prefix(old(self)@, final(self)@),
            final(self).symbols@ == old(self).symbols@,
            final(self)@.len() <= old(self)@.len() + 3,
            r is None ==> (old(self)@.len() >= 0xfff0_0000 || !root_redex(old(self)@, idx.0 as int)),
            match r {
                Some(j) => final(self).valid(j) && final(self).width_of(j) == old(self).width_of(
                    idx,
                ) && forall|env: Map<u32, u64>| #[trigger]
                    eval(final(self)@, j.0 as int, env) == eval(final(self)@, idx.0 as int, env),
                None => final(self)@ == old(self)@,
            },
    {
        if self.size() >= 0xfff0_0000 {
            return None;
        }
        let node = self.get_node(idx);
        match node {
            SimpleAst::Add { a, b } => {
                if let Some(j) = self.rw_fold_add(idx, a, b) {
                    return Some(j);
                }
                if let Some(j) = self.rw_add_zero(idx, a, b) {
                    return Some(j);
                }
                self.rw_add_and_or(idx, a, b)
            },
            SimpleAst::Xor { a, b } => {
                if let Some(j) = self.rw_xor_basic(idx, a, b) {
                    return Some(j);
                }
                self.rw_xor_cancel(idx, a, b)
            },
            SimpleAst::And { a, b } => {
                if let Some(j) = self.rw_and_basic(idx, a, b) {
                    return Some(j);
                }
                self.rw_and_distribute(idx, a, b)
            },
            SimpleAst::Or { a, b } => self.rw_or_basic(idx, a, b),
            SimpleAst::Neg { a } => self.rw_neg_basic(idx, a),
            SimpleAst::Mul { a, b } => self.rw_fold_mul(idx, a, b),
            _ => None,
        }
    }

    /// Fold a sum of two constants.
    fn rw_fold_add(&mut self, idx: AstIdx, a: AstIdx, b: AstIdx) -> (r: Option<AstIdx>)
        requires
            old(self).wf(),
            old(self).valid(idx),
            old(self)@[idx.0 as int].0 == (SimpleAst::Add { a, b }),
            old(self)@.len() < 0xfff0_0000,
        ensures
            final(self).wf(),
            stable_prefix(old(self)@, final(self)@),
            final(self).symbols@ == old(self).symbols@,
            final(self)@.len() <= old(self)@.len() + 3,
            r is None ==> !both_const(old(self)@, a, b),
            r matches Some(j) ==> (final(self)@[j.0 as int].0 is Constant || j.0 < idx.0),
            match r {
                Some(j) => final(self).valid(j) && final(self).width_of(j) == old(self).width_of(
                    idx,
                ) && forall|env: Map<u32, u64>| #[trigger]
                    eval(final(self)@, j.0 as int, env) == eval(final(self)@, idx.0 as int, env),
                None => final(self)@ == old(self)@,
            },
    {
        proof {
            assert(node_ok(self@, idx.0 as int));
            assert(node_ok(self@, a.0 as int));
            assert(node_ok(self@, b.0 as int));
        }
        let w = self.get_width(idx);
        if let SimpleAst::Constant { c: c1, .. } = self.get_node(a) {
            if let SimpleAst::Constant { c: c2, .. } = self.get_node(b) {
                let folded = self.constant(c1.wrapping_add(c2), w);
                proof {
                    lemma_wrapping_add_is_wadd(c1, c2);
                    assert forall|env: Map<u32, u64>| #[trigger] eval(self@, folded.0 as int, env)
                        == eval(self@, idx.0 as int, env) by {
                        lemma_eval_frame(old(self)@, self@, idx.0 as int, env);
                        lemma_eval_frame(old(self)@, self@, a.0 as int, env);
                        lemma_eval_frame(old(self)@, self@, b.0 as int, env);
                        lemma_eval_fits(self@, idx.0 as int, env);
                    }
                }
                return Some(folded);
            }
        }
        None
    }

    /// Adding zero gives the other operand.
    fn rw_add_zero(&mut self, idx: AstIdx, a: AstIdx, b: AstIdx) -> (r: Option<AstIdx>)
        requires
            old(self).wf(),
            old(self).valid(idx),
            old(self)@[idx.0 as int].0 == (SimpleAst::Add { a, b }),
            old(self)@.len() < 0xfff0_0000,
        ensures
            final(self).wf(),
            stable_prefix(old(self)@, final(self)@),
            final(self).symbols@ == old(self).symbols@,
            final(self)@.len() <= old(self)@.len() + 3,
            r is None ==> (crate::ast::const_value(old(self)@[a.0 as int].0) != Some(0u64)
                && crate::ast::const_value(old(self)@[b.0 as int].0) != Some(0u64)),
            r matches Some(j) ==> (final(self)@[j.0 as int].0 is Constant || j.0 < idx.0),
            match r {
                Some(j) => final(self).valid(j) && final(self).width_of(j) == old(self).width_of(
                    idx,
                ) && forall|env: Map<u32, u64>| #[trigger]
                    eval(final(self)@, j.0 as int, env) == eval(final(self)@, idx.0 as int, env),
                None => final(self)@ == old(self)@,
            },
    {
        proof {
            assert(node_ok(self@, idx.0 as int));
            assert(node_ok(self@, a.0 as int));
            assert(node_ok(self@, b.0 as int));
        }
        let w = self.get_width(idx);
        if let SimpleAst::Constant { c: c1, .. } = self.get_node(a) {
            if c1 == 0 {
                proof {
                    assert forall|env: Map<u32, u64>| #[trigger] eval(self@, b.0 as int, env)
                        == eval(self@, idx.0 as int, env) by {
                        lemma_eval_fits(self@, idx.0 as int, env);
                        lemma_eval_fits(self@, a.0 as int, env);
                        lemma_eval_fits(self@, b.0 as int, env);
                        ax_rw(eval(self@, b.0 as int, env), 0, 0, w as u32);
                    }
                }
                return Some(b);
            }
        }
        if let SimpleAst::Constant { c: c2, .. } = self.get_node(b) {
            if c2 == 0 {
                proof {
                    assert forall|env: Map<u32, u64>| #[trigger] eval(self@, a.0 as int, env)
                        == eval(self@, idx.0 as int, env) by {
                        lemma_eval_fits(self@, idx.0 as int, env);
                        lemma_eval_fits(self@, a.0 as int, env);
                        lemma_eval_fits(self@, b.0 as int, env);
                        ax_rw(eval(self@, a.0 as int, env), 0, 0, w as u32);
                    }
                }
                return Some(a);
            }
        }
        None
    }

    /// A conjunction plus a disjunction of the same operands is their sum.
    fn rw_add_and_or(&mut self, idx: AstIdx, a: AstIdx, b: AstIdx) -> (r: Option<AstIdx>)
        requires
            old(self).wf(),
            old(self).valid(idx),
            old(self)@[idx.0 as int].0 == (SimpleAst::Add { a, b }),
            old(self)@.len() < 0xfff0_0000,
        ensures
            final(self).wf(),
            stable_prefix(old(self)@, final(self)@),
            final(self).symbols@ == old(self).symbols@,
            final(self)@.len() <= old(self)@.len() + 3,
            r is None ==> !(match (old(self)@[a.0 as int].0, old(self)@[b.0 as int].0) {
                (SimpleAst::And { a: p, b: q }, SimpleAst::Or { a: p2, b: q2 }) => p == p2 && q
                    == q2,
                _ => false,
            }),
            match r {
                Some(j) => final(self).valid(j) && final(self).width_of(j) == old(self).width_of(
                    idx,
                ) && forall|env: Map<u32, u64>| #[trigger]
                    eval(final(self)@, j.0 as int, env) == eval(final(self)@, idx.0 as int, env),
                None => final(self)@ == old(self)@,
            },
    {
        proof {
            assert(node_ok(self@, idx.0 as int));
            assert(node_ok(self@, a.0 as int));
            assert(node_ok(self@, b.0 as int));
        }
        let w = self.get_width(idx);
        if let SimpleAst::And { a: p, b: q } = self.get_node(a) {
            if let SimpleAst::Or { a: p2, b: q2 } = self.get_node(b) {
                if p == p2 && q == q2 {
                    let s = self.add(p, q);
                    proof {
                        assert forall|env: Map<u32, u64>| #[trigger] eval(self@, s.0 as int, env)
                            == eval(self@, idx.0 as int, env) by {
                            lemma_eval_frame(old(self)@, self@, idx.0 as int, env);
                            lemma_eval_frame(old(self)@, self@, a.0 as int, env);
                            lemma_eval_frame(old(self)@, self@, b.0 as int, env);
                            lemma_eval_frame(old(self)@, self@, p.0 as int, env);
                            lemma_eval_frame(old(self)@, self@, q.0 as int, env);
                            lemma_eval_fits(self@, idx.0 as int, env);
                            lemma_eval_fits(self@, a.0 as int, env);
                            lemma_eval_fits(self@, b.0 as int, env);
                            lemma_eval_fits(self@, p.0 as int, env);
                            lemma_eval_fits(self@, q.0 as int, env);
                            ax_rw(
                                eval(self@, p.0 as int, env),
                                eval(self@, q.0 as int, env),
                                0,
                                w as u32,
                            );
                        }
                    }
                    return Some(s);
                }
            }
        }
        None
    }

    /// Fold a constant exclusive or, cancel equal operands and drop zeroes.
    fn rw_xor_basic(&mut self, idx: AstIdx, a: AstIdx, b: AstIdx) -> (r: Option<AstIdx>)
        requires
            old(self).wf(),
            old(self).valid(idx),
            old(self)@[idx.0 as int].0 == (SimpleAst::Xor { a, b }),
            old(self)@.len() < 0xfff0_0000,
        ensures
            final(self).wf(),
            stable_prefix(old(self)@, final(self)@),
            final(self).symbols@ == old(self).symbols@,
            final(self)@.len() <= old(self)@.len() + 3,
            r is None ==> (!both_const(old(self)@, a, b) && a != b && crate::ast::const_value(
                old(self)@[a.0 as int].0,
            ) != Some(0u64) && crate::ast::const_value(old(self)@[b.0 as int].0) != Some(0u64)),
            r matches Some(j) ==> (final(self)@[j.0 as int].0 is Constant || j.0 < idx.0),
            match r {
                Some(j) => final(self).valid(j) && final(self).width_of(j) == old(self).width_of(
                    idx,
                ) && forall|env: Map<u32, u64>| #[trigger]
                    eval(final(self)@, j.0 as int, env) == eval(final(self)@, idx.0 as int, env),
                None => final(self)@ == old(self)@,
            },
    {
        proof {
            assert(node_ok(self@, idx.0 as int));
            assert(node_ok(self@, a.0 as int));
            assert(node_ok(self@, b.0 as int));
        }
        let w = self.get_width(idx);
        if let SimpleAst::Constant { c: c1, .. } = self.get_node(a) {
            if let SimpleAst::Constant { c: c2, .. } = self.get_node(b) {
                let folded = self.constant(c1 ^ c2, w);
                proof {
                    assert forall|env: Map<u32, u64>| #[trigger] eval(self@, folded.0 as int, env)
                        == eval(self@, idx.0 as int, env) by {
                        lemma_eval_frame(old(self)@, self@, idx.0 as int, env);
                        lemma_eval_frame(old(self)@, self@, a.0 as int, env);
                        lemma_eval_frame(old(self)@, self@, b.0 as int, env);
                        lemma_eval_fits(self@, idx.0 as int, env);
                    }
                }
                return Some(folded);
            }
        }
        if a == b {
            let z = self.constant(0, w);
            proof {
                assert forall|env: Map<u32, u64>| #[trigger] eval(self@, z.0 as int, env) == eval(
                    self@,
                    idx.0 as int,
                    env,
                ) by {
                    lemma_eval_frame(old(self)@, self@, idx.0 as int, env);
                    lemma_eval_frame(old(self)@, self@, a.0 as int, env);
                    lemma_eval_fits(self@, idx.0 as int, env);
                    ax_rw(eval(self@, a.0 as int, env), 0, 0, w as u32);
                }
            }
            return Some(z);
        }
        if let SimpleAst::Constant { c: c1, .. } = self.get_node(a) {
            if c1 == 0 {
                proof {
                    assert forall|env: Map<u32, u64>| #[trigger] eval(self@, b.0 as int, env)
                        == eval(self@, idx.0 as int, env) by {
                        lemma_eval_fits(self@, idx.0 as int, env);
                        lemma_eval_fits(self@, a.0 as int, env);
                        lemma_eval_fits(self@, b.0 as int, env);
                        ax_rw(eval(self@, b.0 as int, env), 0, 0, w as u32);
                    }
                }
                return Some(b);
            }
        }
        if let SimpleAst::Constant { c: c2, .. } = self.get_node(b) {
            if c2 == 0 {
                proof {
                    assert forall|env: Map<u32, u64>| #[trigger] eval(self@, a.0 as int, env)
                        == eval(self@, idx.0 as int, env) by {
                        lemma_eval_fits(self@, idx.0 as int, env);
                        lemma_eval_fits(self@, a.0 as int, env);
                        lemma_eval_fits(self@, b.0 as int, env);
                        ax_rw(eval(self@, a.0 as int, env), 0, 0, w as u32);
                    }
                }
                return Some(a);
            }
        }
        None
    }

    /// An operand repeated inside a nested exclusive or cancels out.
    fn rw_xor_cancel(&mut self, idx: AstIdx, a: AstIdx, b: AstIdx) -> (r: Option<AstIdx>)
        requires
            old(self).wf(),
            old(self).valid(idx),
            old(self)@[idx.0 as int].0 == (SimpleAst::Xor { a, b }),
            old(self)@.len() < 0xfff0_0000,
        ensures
            final(self).wf(),
            stable_prefix(old(self)@, final(self)@),
            final(self).symbols@ == old(self).symbols@,
            final(self)@.len() <= old(self)@.len() + 3,
            r is None ==> !({
                ||| match old(self)@[b.0 as int].0 {
                    SimpleAst::Xor { a: p, b: q } => p == a || q == a,
                    _ => false,
                }
                ||| match old(self)@[a.0 as int].0 {
                    SimpleAst::Xor { a: p, b: q } => p == b || q == b,
                    _ => false,
                }
            }),
            match r {
                Some(j) => final(self).valid(j) && final(self).width_of(j) == old(self).width_of(
                    idx,
                ) && forall|env: Map<u32, u64>| #[trigger]
                    eval(final(self)@, j.0 as int, env) == eval(final(self)@, idx.0 as int, env),
                None => final(self)@ == old(self)@,
            },
    {
        proof {
            assert(node_ok(self@, idx.0 as int));
            assert(node_ok(self@, a.0 as int));
            assert(node_ok(self@, b.0 as int));
        }
        let w = self.get_width(idx);
        if let SimpleAst::Xor { a: p, b: q } = self.get_node(b) {
            if p == a || q == a {
                let keep = if p == a {
                    q
                } else {
                    p
                };
                proof {
                    assert forall|env: Map<u32, u64>| #[trigger] eval(self@, keep.0 as int, env)
                        == eval(self@, idx.0 as int, env) by {
                        lemma_eval_fits(self@, idx.0 as int, env);
                        lemma_eval_fits(self@, a.0 as int, env);
                        lemma_eval_fits(self@, b.0 as int, env);
                        lemma_eval_fits(self@, p.0 as int, env);
                        lemma_eval_fits(self@, q.0 as int, env);
                        ax_rw(
                            eval(self@, p.0 as int, env),
                            eval(self@, q.0 as int, env),
                            0,
                            w as u32,
                        );
                        ax_rw(
                            eval(self@, q.0 as int, env),
                            eval(self@, p.0 as int, env),
                            0,
                            w as u32,
                        );
                    }
                }
                return Some(keep);
            }
        }
        if let SimpleAst::Xor { a: p, b: q } = self.get_node(a) {
            if p == b || q == b {
                let keep = if p == b {
                    q
                } else {
                    p
                };
                proof {
                    assert forall|env: Map<u32, u64>| #[trigger] eval(self@, keep.0 as int, env)
                        == eval(self@, idx.0 as int, env) by {
                        lemma_eval_fits(self@, idx.0 as int, env);
                        lemma_eval_fits(self@, a.0 as int, env);
                        lemma_eval_fits(self@, b.0 as int, env);
                        lemma_eval_fits(self@, p.0 as int, env);
                        lemma_eval_fits(self@, q.0 as int, env);
                        ax_rw(
                            eval(self@, p.0 as int, env),
                            eval(self@, q.0 as int, env),
                            0,
                            w as u32,
                        );
                        ax_rw(
                            eval(self@, q.0 as int, env),
                            eval(self@, p.0 as int, env),
                            0,
                            w as u32,
                        );
                    }
                }
                return Some(keep);
            }
        }
        None
    }

    /// Fold a constant conjunction, drop repeated operands and zeroes.
    #[verifier::rlimit(30)]
    fn rw_and_basic(&mut self, idx: AstIdx, a: AstIdx, b: AstIdx) -> (r: Option<AstIdx>)
        requires
            old(self).wf(),
            old(self).valid(idx),
            old(self)@[idx.0 as int].0 == (SimpleAst::And { a, b }),
            old(self)@.len() < 0xfff0_0000,
        ensures
            final(self).wf(),
            stable_prefix(old(self)@, final(self)@),
            final(self).symbols@ == old(self).symbols@,
            final(self)@.len() <= old(self)@.len() + 3,
            match r {
                Some(j) => final(self).valid(j) && final(self).width_of(j) == old(self).width_of(
                    idx,
                ) && forall|env: Map<u32, u64>| #[trigger]
                    eval(final(self)@, j.0 as int, env) == eval(final(self)@, idx.0 as int, env),
                None => final(self)@ == old(self)@,
            },
    {
        proof {
            assert(node_ok(self@, idx.0 as int));
            assert(node_ok(self@, a.0 as int));
            assert(node_ok(self@, b.0 as int));
        }
        let w = self.get_width(idx);
        if let SimpleAst::Constant { c: c1, .. } = self.get_node(a) {
            if let SimpleAst::Constant { c: c2, .. } = self.get_node(b) {
                let folded = self.constant(c1 & c2, w);
                proof {
                    assert forall|env: Map<u32, u64>| #[trigger] eval(self@, folded.0 as int, env)
                        == eval(self@, idx.0 as int, env) by {
                        lemma_eval_frame(old(self)@, self@, idx.0 as int, env);
                        lemma_eval_frame(old(self)@, self@, a.0 as int, env);
                        lemma_eval_frame(old(self)@, self@, b.0 as int, env);
                        lemma_eval_fits(self@, idx.0 as int, env);
                        ax_fold_bits(c1, c2, w as u32);
                    }
                }
                return Some(folded);
            }
        }
        if a == b {
            proof {
                assert forall|env: Map<u32, u64>| #[trigger] eval(self@, a.0 as int, env) == eval(
                    self@,
                    idx.0 as int,
                    env,
                ) by {
                    lemma_eval_fits(self@, idx.0 as int, env);
                    lemma_eval_fits(self@, a.0 as int, env);
                    ax_rw(eval(self@, a.0 as int, env), 0, 0, w as u32);
                }
            }
            return Some(a);
        }
        if let SimpleAst::Constant { c: c2, .. } = self.get_node(b) {
            if c2 == 0 {
                let z = self.constant(0, w);
                proof {
                    assert forall|env: Map<u32, u64>| #[trigger] eval(self@, z.0 as int, env)
                        == eval(self@, idx.0 as int, env) by {
                        lemma_eval_frame(old(self)@, self@, idx.0 as int, env);
                        lemma_eval_frame(old(self)@, self@, a.0 as int, env);
                        lemma_eval_frame(old(self)@, self@, b.0 as int, env);
                        lemma_eval_fits(self@, idx.0 as int, env);
                        lemma_eval_fits(self@, a.0 as int, env);
                        ax_rw(eval(self@, a.0 as int, env), 0, 0, w as u32);
                    }
                }
                return Some(z);
            }
        }
        None
    }

    /// Distribute a conjunction over an exclusive or, so that shared summands
    /// meet and cancel.
    fn rw_and_distribute(&mut self, idx: AstIdx, a: AstIdx, b: AstIdx) -> (r: Option<AstIdx>)
        requires
            old(self).wf(),
            old(self).valid(idx),
            old(self)@[idx.0 as int].0 == (SimpleAst::And { a, b }),
            old(self)@.len() < 0xfff0_0000,
        ensures
            final(self).wf(),
            stable_prefix(old(self)@, final(self)@),
            final(self).symbols@ == old(self).symbols@,
            final(self)@.len() <= old(self)@.len() + 3,
            r is None ==> !(old(self)@[a.0 as int].0 is Xor),
            match r {
                Some(j) => final(self).valid(j) && final(self).width_of(j) == old(self).width_of(
                    idx,
                ) && forall|env: Map<u32, u64>| #[trigger]
                    eval(final(self)@, j.0 as int, env) == eval(final(self)@, idx.0 as int, env),
                None => final(self)@ == old(self)@,
            },
    {
        proof {
            assert(node_ok(self@, idx.0 as int));
            assert(node_ok(self@, a.0 as int));
            assert(node_ok(self@, b.0 as int));
        }
        let w = self.get_width(idx);
        if let SimpleAst::Xor { a: p, b: q } = self.get_node(a) {
            let pb = self.and(p, b);
            let ghost mid = self@;
            let qb = self.and(q, b);
            let ghost mid2 = self@;
            let res = self.xor(pb, qb);
            proof {
                assert forall|env: Map<u32, u64>| #[trigger] eval(self@, res.0 as int, env) == eval(
                    self@,
                    idx.0 as int,
                    env,
                ) by {
                    lemma_eval_frame(old(self)@, self@, idx.0 as int, env);
                    lemma_eval_frame(old(self)@, self@, a.0 as int, env);
                    lemma_eval_frame(old(self)@, self@, b.0 as int, env);
                    lemma_eval_frame(old(self)@, self@, p.0 as int, env);
                    lemma_eval_frame(old(self)@, self@, q.0 as int, env);
                    lemma_eval_frame(mid, mid2, pb.0 as int, env);
                    lemma_eval_frame(mid2, self@, pb.0 as int, env);
                    lemma_eval_frame(mid2, self@, qb.0 as int, env);
                    lemma_eval_frame(old(self)@, mid, p.0 as int, env);
                    lemma_eval_frame(old(self)@, mid, q.0 as int, env);
                    lemma_eval_frame(old(self)@, mid, b.0 as int, env);
                    lemma_eval_frame(mid, mid2, q.0 as int, env);
                    lemma_eval_frame(mid, mid2, b.0 as int, env);
                    lemma_eval_fits(self@, idx.0 as int, env);
                    lemma_eval_fits(self@, a.0 as int, env);
                    ax_rw(
                        eval(self@, p.0 as int, env),
                        eval(self@, q.0 as int, env),
                        eval(self@, b.0 as int, env),
                        w as u32,
                    );
                }
            }
            return Some(res);
        }
        None
    }

    /// Fold a constant disjunction, drop repeated operands and zeroes.
    #[verifier::rlimit(30)]
    fn rw_or_basic(&mut self, idx: AstIdx, a: AstIdx, b: AstIdx) -> (r: Option<AstIdx>)
        requires
            old(self).wf(),
            old(self).valid(idx),
            old(self)@[idx.0 as int].0 == (SimpleAst::Or { a, b }),
            old(self)@.len() < 0xfff0_0000,
        ensures
            final(self).wf(),
            stable_prefix(old(self)@, final(self)@),
            final(self).symbols@ == old(self).symbols@,
            final(self)@.len() <= old(self)@.len() + 3,
            match r {
                Some(j) => final(self).valid(j) && final(self).width_of(j) == old(self).width_of(
                    idx,
                ) && forall|env: Map<u32, u64>| #[trigger]
                    eval(final(self)@, j.0 as int, env) == eval(final(self)@, idx.0 as int, env),
                None => final(self)@ == old(self)@,
            },
    {
        proof {
            assert(node_ok(self@, idx.0 as int));
            assert(node_ok(self@, a.0 as int));
            assert(node_ok(self@, b.0 as int));
        }
        let w = self.get_width(idx);
        if let SimpleAst::Constant { c: c1, .. } = self.get_node(a) {
            if let SimpleAst::Constant { c: c2, .. } = self.get_node(b) {
                let folded = self.constant(c1 | c2, w);
                proof {
                    assert forall|env: Map<u32, u64>| #[trigger] eval(self@, folded.0 as int, env)
                        == eval(self@, idx.0 as int, env) by {
                        lemma_eval_frame(old(self)@, self@, idx.0 as int, env);
                        lemma_eval_frame(old(self)@, self@, a.0 as int, env);
                        lemma_eval_frame(old(self)@, self@, b.0 as int, env);
                        lemma_eval_fits(self@, idx.0 as int, env);
                        ax_fold_bits(c1, c2, w as u32);
                    }
                }
                return Some(folded);
            }
        }
        if a == b {
            proof {
                assert forall|env: Map<u32, u64>| #[trigger] eval(self@, a.0 as int, env) == eval(
                    self@,
                    idx.0 as int,
                    env,
                ) by {
                    lemma_eval_fits(self@, idx.0 as int, env);
                    lemma_eval_fits(self@, a.0 as int, env);
                    ax_rw(eval(self@, a.0 as int, env), 0, 0, w as u32);
                }
            }
            return Some(a);
        }
        if let SimpleAst::Constant { c: c2, .. } = self.get_node(b) {
            if c2 == 0 {
                proof {
                    assert forall|env: Map<u32, u64>| #[trigger] eval(self@, a.0 as int, env)
                        == eval(self@, idx.0 as int, env) by {
                        lemma_eval_fits(self@, idx.0 as int, env);
                        lemma_eval_fits(self@, a.0 as int, env);
                        lemma_eval_fits(self@, b.0 as int, env);
                        ax_rw(eval(self@, a.0 as int, env), 0, 0, w as u32);
                    }
                }
                return Some(a);
            }
        }
        None
    }

    /// Fold a complemented constant and cancel a double complement.
    fn rw_neg_basic(&mut self, idx: AstIdx, a: AstIdx) -> (r: Option<AstIdx>)
        requires
            old(self).wf(),
            old(self).valid(idx),
            old(self)@[idx.0 as int].0 == (SimpleAst::Neg { a }),
            old(self)@.len() < 0xfff0_0000,
        ensures
            final(self).wf(),
            stable_prefix(old(self)@, final(self)@),
            final(self).symbols@ == old(self).symbols@,
            final(self)@.len() <= old(self)@.len() + 3,
            r is None ==> (!(old(self)@[a.0 as int].0 is Neg) && !(old(self)@[a.0 as int].0
                is Constant)),
            r matches Some(j) ==> (final(self)@[j.0 as int].0 is Constant || j.0 < idx.0),
            match r {
                Some(j) => final(self).valid(j) && final(self).width_of(j) == old(self).width_of(
                    idx,
                ) && forall|env: Map<u32, u64>| #[trigger]
                    eval(final(self)@, j.0 as int, env) == eval(final(self)@, idx.0 as int, env),
                None => final(self)@ == old(self)@,
            },
    {
        proof {
            assert(node_ok(self@, idx.0 as int));
            assert(node_ok(self@, a.0 as int));
        }
        let w = self.get_width(idx);
        if let SimpleAst::Constant { c: c1, .. } = self.get_node(a) {
            let folded = self.constant(!c1, w);
            proof {
                assert forall|env: Map<u32, u64>| #[trigger] eval(self@, folded.0 as int, env)
                    == eval(self@, idx.0 as int, env) by {
                    lemma_eval_frame(old(self)@, self@, idx.0 as int, env);
                    lemma_eval_frame(old(self)@, self@, a.0 as int, env);
                    lemma_eval_fits(self@, idx.0 as int, env);
                }
            }
            return Some(folded);
        }
        if let SimpleAst::Neg { a: inner } = self.get_node(a) {
            proof {
                assert forall|env: Map<u32, u64>| #[trigger] eval(self@, inner.0 as int, env)
                    == eval(self@, idx.0 as int, env) by {
                    lemma_eval_fits(self@, idx.0 as int, env);
                    lemma_eval_fits(self@, a.0 as int, env);
                    lemma_eval_fits(self@, inner.0 as int, env);
                    ax_rw(eval(self@, inner.0 as int, env), 0, 0, w as u32);
                }
            }
            return Some(inner);
        }
        None
    }

    /// Fold a product of two constants.
    fn rw_fold_mul(&mut self, idx: AstIdx, a: AstIdx, b: AstIdx) -> (r: Option<AstIdx>)
        requires
            old(self).wf(),
            old(self).valid(idx),
            old(self)@[idx.0 as int].0 == (SimpleAst::Mul { a, b }),
            old(self)@.len() < 0xfff0_0000,
        ensures
            final(self).wf(),
            stable_prefix(old(self)@, final(self)@),
            final(self).symbols@ == old(self).symbols@,
            final(self)@.len() <= old(self)@.len() + 3,
            r is None ==> !both_const(old(self)@, a, b),
            r matches Some(j) ==> (final(self)@[j.0 as int].0 is Constant || j.0 < idx.0),
            match r {
                Some(j) => final(self).valid(j) && final(self).width_of(j) == old(self).width_of(
                    idx,
                ) && forall|env: Map<u32, u64>| #[trigger]
                    eval(final(self)@, j.0 as int, env) == eval(final(self)@, idx.0 as int, env),
                None => final(self)@ == old(self)@,
            },
    {
        proof {
            assert(node_ok(self@, idx.0 as int));
            assert(node_ok(self@, a.0 as int));
            assert(node_ok(self@, b.0 as int));
        }
        let w = self.get_width(idx);
        if let SimpleAst::Constant { c: c1, .. } = self.get_node(a) {
            if let SimpleAst::Constant { c: c2, .. } = self.get_node(b) {
                let folded = self.constant(c1.wrapping_mul(c2), w);
                proof {
                    crate::numeric::lemma_wrapping_mul_is_wmul(c1, c2);
                    assert forall|env: Map<u32, u64>| #[trigger] eval(self@, folded.0 as int, env)
                        == eval(self@, idx.0 as int, env) by {
                        lemma_eval_frame(old(self)@, self@, idx.0 as int, env);
                        lemma_eval_frame(old(self)@, self@, a.0 as int, env);
                        lemma_eval_frame(old(self)@, self@, b.0 as int, env);
                        lemma_eval_fits(self@, idx.0 as int, env);
                    }
                }
                return Some(folded);
            }
        }
        None
    }

    /// Simplify the subtree behind `idx` bottom up, applying the local rules
    /// to a fixed point at each rebuilt node.  The result denotes exactly
    /// what the input denotes, under every assignment of the free variables.
    pub fn recursive_simplify(&mut self, idx: AstIdx) -> (r: AstIdx)
        requires
            old(self).wf(),
            old(self).valid(idx),
        ensures
            final(self).wf(),
            stable_prefix(old(self)@, final(self)@),
            final(self).symbols@ == old(self).symbols@,
            final(self).valid(r),
            final(self).width_of(r) == old(self).width_of(idx),
            forall|env: Map<u32, u64>| #[trigger]
                eval(final(self)@, r.0 as int, env) == eval(final(self)@, idx.0 as int, env),
            final(self)@.len() >= 0xfff0_0000 || !root_redex_basic(final(self)@, r.0 as int),
        decreases idx.0,
    {
        proof {
            assert(node_ok(self@, idx.0 as int));
        }
        let node = self.get_node(idx);
        let mut cur: AstIdx = match node {
            SimpleAst::Add { a, b } => {
                let a2 = self.recursive_simplify(a);
                let ghost mid = self@;
                let b2 = self.recursive_simplify(b);
                let ghost mid2 = self@;
                if self.size() >= 0xfff0_0000 {
                    return idx;
                }
                let s = self.add(a2, b2);
                proof {
                    assert forall|env: Map<u32, u64>| #[trigger] eval(self@, s.0 as int, env)
                        == eval(self@, idx.0 as int, env) by {
                        lemma_eval_frame(old(self)@, self@, idx.0 as int, env);
                        lemma_eval_frame(old(self)@, self@, a.0 as int, env);
                        lemma_eval_frame(old(self)@, self@, b.0 as int, env);
                        lemma_eval_frame(old(self)@, mid, a.0 as int, env);
                        lemma_eval_frame(mid, mid2, a2.0 as int, env);
                        lemma_eval_frame(mid, mid2, a.0 as int, env);
                        lemma_eval_frame(mid2, self@, a2.0 as int, env);
                        lemma_eval_frame(mid2, self@, b2.0 as int, env);
                        lemma_eval_frame(mid2, self@, b.0 as int, env);
                        lemma_eval_fits(self@, idx.0 as int, env);
                    }
                }
                s
            },
            SimpleAst::Mul { a, b } => {
                let a2 = self.recursive_simplify(a);
                let ghost mid = self@;
                let b2 = self.recursive_simplify(b);
                let ghost mid2 = self@;
                if self.size() >= 0xfff0_0000 {
                    return idx;
                }
                let s = self.mul(a2, b2);
                proof {
                    assert forall|env: Map<u32, u64>| #[trigger] eval(self@, s.0 as int, env)
                        == eval(self@, idx.0 as int, env) by {
                        lemma_eval_frame(old(self)@, self@, idx.0 as int, env);
                        lemma_eval_frame(old(self)@, self@, a.0 as int, env);
                        lemma_eval_frame(old(self)@, self@, b.0 as int, env);
                        lemma_eval_frame(old(self)@, mid, a.0 as int, env);
                        lemma_eval_frame(mid, mid2, a2.0 as int, env);
                        lemma_eval_frame(mid, mid2, a.0 as int, env);
                        lemma_eval_frame(mid2, self@, a2.0 as int, env);
                        lemma_eval_frame(mid2, self@, b2.0 as int, env);
                        lemma_eval_frame(mid2, self@, b.0 as int, env);
                        lemma_eval_fits(self@, idx.0 as int, env);
                    }
                }
                s
            },
            SimpleAst::And { a, b } => {
                let a2 = self.recursive_simplify(a);
                let ghost mid = self@;
                let b2 = self.recursive_simplify(b);
                let ghost mid2 = self@;
                if self.size() >= 0xfff0_0000 {
                    return idx;
                }
                let s = self.and(a2, b2);
                proof {
                    assert forall|env: Map<u32, u64>| #[trigger] eval(self@, s.0 as int, env)
                        == eval(self@, idx.0 as int, env) by {
                        lemma_eval_frame(old(self)@, self@, idx.0 as int, env);
                        lemma_eval_frame(old(self)@, self@, a.0 as int, env);
                        lemma_eval_frame(old(self)@, self@, b.0 as int, env);
                        lemma_eval_frame(old(self)@, mid, a.0 as int, env);
                        lemma_eval_frame(mid, mid2, a2.0 as int, env);
                        lemma_eval_frame(mid, mid2, a.0 as int, env);
                        lemma_eval_frame(mid2, self@, a2.0 as int, env);
                        lemma_eval_frame(mid2, self@, b2.0 as int, env);
                        lemma_eval_frame(mid2, self@, b.0 as int, env);
                        lemma_eval_fits(self@, idx.0 as int, env);
                    }
                }
                s
            },
            SimpleAst::Or { a, b } => {
                let a2 = self.recursive_simplify(a);
                let ghost mid = self@;
                let b2 = self.recursive_simplify(b);
                let ghost mid2 = self@;
                if self.size() >= 0xfff0_0000 {
                    return idx;
                }
                let s = self.or(a2, b2);
                proof {
                    assert forall|env: Map<u32, u64>| #[trigger] eval(self@, s.0 as int, env)
                        == eval(self@, idx.0 as int, env) by {
                        lemma_eval_frame(old(self)@, self@, idx.0 as int, env);
                        lemma_eval_frame(old(self)@, self@, a.0 as int, env);
                        lemma_eval_frame(old(self)@, self@, b.0 as int, env);
                        lemma_eval_frame(old(self)@, mid, a.0 as int, env);
                        lemma_eval_frame(mid, mid2, a2.0 as int, env);
                        lemma_eval_frame(mid, mid2, a.0 as int, env);
                        lemma_eval_frame(mid2, self@, a2.0 as int, env);
                        lemma_eval_frame(mid2, self@, b2.0 as int, env);
                        lemma_eval_frame(mid2, self@, b.0 as int, env);
                        lemma_eval_fits(self@, idx.0 as int, env);
                    }
                }
                s
            },
            SimpleAst::Xor { a, b } => {
                let a2 = self.recursive_simplify(a);
                let ghost mid = self@;
                let b2 = self.recursive_simplify(b);
                let ghost mid2 = self@;
                if self.size() >= 0xfff0_0000 {
                    return idx;
                }
                let s = self.xor(a2, b2);
                proof {
                    assert forall|env: Map<u32, u64>| #[trigger] eval(self@, s.0 as int, env)
                        == eval(self@, idx.0 as int, env) by {
                        lemma_eval_frame(old(self)@, self@, idx.0 as int, env);
                        lemma_eval_frame(old(self)@, self@, a.0 as int, env);
                        lemma_eval_frame(old(self)@, self@, b.0 as int, env);
                        lemma_eval_frame(old(self)@, mid, a.0 as int, env);
                        lemma_eval_frame(mid, mid2, a2.0 as int, env);
                        lemma_eval_frame(mid, mid2, a.0 as int, env);
                        lemma_eval_frame(mid2, self@, a2.0 as int, env);
                        lemma_eval_frame(mid2, self@, b2.0 as int, env);
                        lemma_eval_frame(mid2, self@, b.0 as int, env);
                        lemma_eval_fits(self@, idx.0 as int, env);
                    }
                }
                s
            },
            SimpleAst::Neg { a } => {
                let a2 = self.recursive_simplify(a);
                let ghost mid2 = self@;
                if self.size() >= 0xfff0_0000 {
                    return idx;
                }
                let s = self.neg(a2);
                proof {
                    assert forall|env: Map<u32, u64>| #[trigger] eval(self@, s.0 as int, env)
                        == eval(self@, idx.0 as int, env) by {
                        lemma_eval_frame(old(self)@, self@, idx.0 as int, env);
                        lemma_eval_frame(old(self)@, self@, a.0 as int, env);
                        lemma_eval_frame(mid2, self@, a2.0 as int, env);
                        lemma_eval_frame(mid2, self@, a.0 as int, env);
                        lemma_eval_fits(self@, idx.0 as int, env);
                    }
                }
                s
            },
            SimpleAst::Pow { a, b } => {
                let a2 = self.recursive_simplify(a);
                let ghost mid = self@;
                let b2 = self.recursive_simplify(b);
                let ghost mid2 = self@;
                if self.size() >= 0xfff0_0000 {
                    return idx;
                }
                let s = self.pow(a2, b2);
                proof {
                    assert forall|env: Map<u32, u64>| #[trigger] eval(self@, s.0 as int, env)
                        == eval(self@, idx.0 as int, env) by {
                        lemma_eval_frame(old(self)@, self@, idx.0 as int, env);
                        lemma_eval_frame(old(self)@, self@, a.0 as int, env);
                        lemma_eval_frame(old(self)@, self@, b.0 as int, env);
                        lemma_eval_frame(old(self)@, mid, a.0 as int, env);
                        lemma_eval_frame(mid, mid2, a2.0 as int, env);
                        lemma_eval_frame(mid, mid2, a.0 as int, env);
                        lemma_eval_frame(mid2, self@, a2.0 as int, env);
                        lemma_eval_frame(mid2, self@, b2.0 as int, env);
                        lemma_eval_frame(mid2, self@, b.0 as int, env);
                        lemma_eval_fits(self@, idx.0 as int, env);
                    }
                }
                s
            },
            SimpleAst::Lshr { a, b } => {
                let a2 = self.recursive_simplify(a);
                let ghost mid = self@;
                let b2 = self.recursive_simplify(b);
                let ghost mid2 = self@;
                if self.size() >= 0xfff0_0000 {
                    return idx;
                }
                let s = self.lshr(a2, b2);
                proof {
                    assert forall|env: Map<u32, u64>| #[trigger] eval(self@, s.0 as int, env)
                        == eval(self@, idx.0 as int, env) by {
                        lemma_eval_frame(old(self)@, self@, idx.0 as int, env);
                        lemma_eval_frame(old(self)@, self@, a.0 as int, env);
                        lemma_eval_frame(old(self)@, self@, b.0 as int, env);
                        lemma_eval_frame(old(self)@, mid, a.0 as int, env);
                        lemma_eval_frame(mid, mid2, a2.0 as int, env);
                        lemma_eval_frame(mid, mid2, a.0 as int, env);
                        lemma_eval_frame(mid2, self@, a2.0 as int, env);
                        lemma_eval_frame(mid2, self@, b2.0 as int, env);
                        lemma_eval_frame(mid2, self@, b.0 as int, env);
                        lemma_eval_fits(self@, idx.0 as int, env);
                    }
                }
                s
            },
            SimpleAst::Zext { a, to } => {
                let a2 = self.recursive_simplify(a);
                let ghost mid2 = self@;
                if self.size() >= 0xfff0_0000 {
                    return idx;
                }
                let s = self.zext(a2, to);
                proof {
                    assert forall|env: Map<u32, u64>| #[trigger] eval(self@, s.0 as int, env)
                        == eval(self@, idx.0 as int, env) by {
                        lemma_eval_frame(old(self)@, self@, idx.0 as int, env);
                        lemma_eval_frame(old(self)@, self@, a.0 as int, env);
                        lemma_eval_frame(mid2, self@, a2.0 as int, env);
                        lemma_eval_frame(mid2, self@, a.0 as int, env);
                    }
                }
                s
            },
            SimpleAst::Trunc { a, to } => {
                let a2 = self.recursive_simplify(a);
                let ghost mid2 = self@;
                if self.size() >= 0xfff0_0000 {
                    return idx;
                }
                let s = self.trunc(a2, to);
                proof {
                    assert forall|env: Map<u32, u64>| #[trigger] eval(self@, s.0 as int, env)
                        == eval(self@, idx.0 as int, env) by {
                        lemma_eval_frame(old(self)@, self@, idx.0 as int, env);
                        lemma_eval_frame(old(self)@, self@, a.0 as int, env);
                        lemma_eval_frame(mid2, self@, a2.0 as int, env);
                        lemma_eval_frame(mid2, self@, a.0 as int, env);
                        lemma_eval_fits(self@, idx.0 as int, env);
                    }
                }
                s
            },
            SimpleAst::Icmp { pred, a, b } => {
                let a2 = self.recursive_simplify(a);
                let ghost mid = self@;
                let b2 = self.recursive_simplify(b);
                let ghost mid2 = self@;
                if self.size() >= 0xfff0_0000 {
                    return idx;
                }
                let s = self.icmp(pred, a2, b2);
                proof {
                    assert forall|env: Map<u32, u64>| #[trigger] eval(self@, s.0 as int, env)
                        == eval(self@, idx.0 as int, env) by {
                        lemma_eval_frame(old(self)@, self@, idx.0 as int, env);
                        lemma_eval_frame(old(self)@, self@, a.0 as int, env);
                        lemma_eval_frame(old(self)@, self@, b.0 as int, env);
                        lemma_eval_frame(old(self)@, mid, a.0 as int, env);
                        lemma_eval_frame(mid, mid2, a2.0 as int, env);
                        lemma_eval_frame(mid, mid2, a.0 as int, env);
                        lemma_eval_frame(mid2, self@, a2.0 as int, env);
                        lemma_eval_frame(mid2, self@, b2.0 as int, env);
                        lemma_eval_frame(mid2, self@, b.0 as int, env);
                        lemma_eval_fits(self@, idx.0 as int, env);
                    }
                }
                s
            },
            SimpleAst::Select { c, t, f } => {
                let c2 = self.recursive_simplify(c);
                let ghost mid = self@;
                let t2 = self.recursive_simplify(t);
                let ghost mid2 = self@;
                let f2 = self.recursive_simplify(f);
                let ghost mid3 = self@;
                if self.size() >= 0xfff0_0000 {
                    return idx;
                }
                let s = self.select(c2, t2, f2);
                proof {
                    assert forall|env: Map<u32, u64>| #[trigger] eval(self@, s.0 as int, env)
                        == eval(self@, idx.0 as int, env) by {
                        lemma_eval_frame(old(self)@, self@, idx.0 as int, env);
                        lemma_eval_frame(old(self)@, self@, c.0 as int, env);
                        lemma_eval_frame(old(self)@, self@, t.0 as int, env);
                        lemma_eval_frame(old(self)@, self@, f.0 as int, env);
                        lemma_eval_frame(old(self)@, mid, c.0 as int, env);
                        lemma_eval_frame(mid, mid2, c2.0 as int, env);
                        lemma_eval_frame(mid, mid2, t.0 as int, env);
                        lemma_eval_frame(mid2, mid3, c2.0 as int, env);
                        lemma_eval_frame(mid2, mid3, t2.0 as int, env);
                        lemma_eval_frame(mid2, mid3, f.0 as int, env);
                        lemma_eval_frame(mid2, self@, t.0 as int, env);
                        lemma_eval_frame(mid, self@, c.0 as int, env);
                        lemma_eval_frame(mid3, self@, f.0 as int, env);
                        lemma_eval_frame(mid3, self@, c2.0 as int, env);
                        lemma_eval_frame(mid3, self@, t2.0 as int, env);
                        lemma_eval_frame(mid3, self@, f2.0 as int, env);
                        lemma_eval_fits(self@, idx.0 as int, env);
                    }
                }
                s
            },
            _ => {
                return idx;
            },
        };
        let mut fuel: u32 = 16;
        while fuel > 0
            invariant
                self.wf(),
                self.valid(cur),
                stable_prefix(old(self)@, self@),
                self.symbols@ == old(self).symbols@,
                idx.0 < self@.len(),
                self.width_of(cur) == old(self).width_of(idx),
                forall|env: Map<u32, u64>| #[trigger]
                    eval(self@, cur.0 as int, env) == eval(self@, idx.0 as int, env),
            decreases fuel,
        {
            let ghost pre = self@;
            let stepped = self.try_rewrite(cur);
            match stepped {
                Some(j) => {
                    proof {
                        assert forall|env: Map<u32, u64>| #[trigger] eval(self@, j.0 as int, env)
                            == eval(self@, idx.0 as int, env) by {
                            lemma_eval_frame(pre, self@, cur.0 as int, env);
                            lemma_eval_frame(pre, self@, idx.0 as int, env);
                        }
                    }
                    cur = j;
                },
                None => {
                    return cur;
                },
            }
            fuel = fuel - 1;
        }
        // The iteration budget is out: clear any single-step shape that is
        // still sitting at the root.
        loop
            invariant
                self.wf(),
                self.valid(cur),
                stable_prefix(old(self)@, self@),
                self.symbols@ == old(self).symbols@,
                idx.0 < self@.len(),
                self.width_of(cur) == old(self).width_of(idx),
                forall|env: Map<u32, u64>| #[trigger]
                    eval(self@, cur.0 as int, env) == eval(self@, idx.0 as int, env),
            decreases cur.0,
        {
            if self.size() >= 0xfff0_0000 {
                return cur;
            }
            let ghost pre = self@;
            let node = self.get_node(cur);
            match node {
                SimpleAst::Add { a, b } => {
                    let step = self.rw_fold_add(cur, a, b);
                    if let Some(j) = step {
                        proof {
                            assert forall|env: Map<u32, u64>| #[trigger] eval(
                                self@,
                                j.0 as int,
                                env,
                            ) == eval(self@, idx.0 as int, env) by {
                                lemma_eval_frame(pre, self@, cur.0 as int, env);
                                lemma_eval_frame(pre, self@, idx.0 as int, env);
                            }
                        }
                        if j.0 < cur.0 {
                            cur = j;
                        } else {
                            return j;
                        }
                    } else {
                        let step2 = self.rw_add_zero(cur, a, b);
                        if let Some(j) = step2 {
                            proof {
                                assert forall|env: Map<u32, u64>| #[trigger] eval(
                                    self@,
                                    j.0 as int,
                                    env,
                                ) == eval(self@, idx.0 as int, env) by {
                                    lemma_eval_frame(pre, self@, cur.0 as int, env);
                                    lemma_eval_frame(pre, self@, idx.0 as int, env);
                                }
                            }
                            if j.0 < cur.0 {
                                cur = j;
                            } else {
                                return j;
                            }
                        } else {
                            return cur;
                        }
                    }
                },
                SimpleAst::Mul { a, b } => {
                    let step = self.rw_fold_mul(cur, a, b);
                    if let Some(j) = step {
                        proof {
                            assert forall|env: Map<u32, u64>| #[trigger] eval(
                                self@,
                                j.0 as int,
                                env,
                            ) == eval(self@, idx.0 as int, env) by {
                                lemma_eval_frame(pre, self@, cur.0 as int, env);
                                lemma_eval_frame(pre, self@, idx.0 as int, env);
                            }
                        }
                        if j.0 < cur.0 {
                            cur = j;
                        } else {
                            return j;
                        }
                    } else {
                        return cur;
                    }
                },
                SimpleAst::Xor { a, b } => {
                    let step = self.rw_xor_basic(cur, a, b);
                    if let Some(j) = step {
                        proof {
                            assert forall|env: Map<u32, u64>| #[trigger] eval(
                                self@,
                                j.0 as int,
                                env,
                            ) == eval(self@, idx.0 as int, env) by {
                                lemma_eval_frame(pre, self@, cur.0 as int, env);
                                lemma_eval_frame(pre, self@, idx.0 as int, env);
                            }
                        }
                        if j.0 < cur.0 {
                            cur = j;
                        } else {
                            return j;
                        }
                    } else {
                        return cur;
                    }
                },
                SimpleAst::Neg { a } => {
                    let step = self.rw_neg_basic(cur, a);
                    if let Some(j) = step {
                        proof {
                            assert forall|env: Map<u32, u64>| #[trigger] eval(
                                self@,
                                j.0 as int,
                                env,
                            ) == eval(self@, idx.0 as int, env) by {
                                lemma_eval_frame(pre, self@, cur.0 as int, env);
                                lemma_eval_frame(pre, self@, idx.0 as int, env);
                            }
                        }
                        if j.0 < cur.0 {
                            cur = j;
                        } else {
                            return j;
                        }
                    } else {
                        return cur;
                    }
                },
                _ => {
                    return cur;
                },
            }
        }
    }
}

} // verus!
