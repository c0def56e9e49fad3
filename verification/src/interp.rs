//! The executable reference interpreter: it evaluates an expression on
//! concrete symbol values and returns exactly the node's denotation, so a
//! caller can run what every contract of the library speaks about.
use vstd::prelude::*;

verus! {

use crate::arena::Arena;
use crate::ast::{eval, lemma_eval_fits, node_ok, AstIdx, SimpleAst};
use crate::numeric::{lemma_wrapping_add_is_wadd, lemma_wrapping_mul_is_wmul, Pow2};
use crate::known_bits::ax_icmp;
use crate::Predicate;

/// The assignment a vector of symbol values denotes: symbol `id` reads the
/// vector at position `id`.
pub open spec fn env_map(s: Seq<u64>) -> Map<u32, u64> {
    Map::new(|id: u32| (id as nat) < s.len(), |id: u32| s[id as int])
}

/// Every symbol leaf of the arena has an identifier below `n`.
pub open spec fn syms_bounded(nodes: Seq<crate::ast::Entry>, n: int) -> bool {
    forall|k: int|
        0 <= k < nodes.len() ==> match #[trigger] nodes[k].0 {
            SimpleAst::Symbol { id, .. } => id < n,
            _ => true,
        }
}

impl Arena {
    /// Evaluate the expression behind `i` on concrete symbol values.
    pub fn eval_exec(&self, i: AstIdx, env: &Vec<u64>) -> (r: u64)
        requires
            self.wf(),
            self.valid(i),
            syms_bounded(self@, env@.len() as int),
        ensures
            r == eval(self@, i.0 as int, env_map(env@)),
        decreases i.0,
    {
        proof {
            assert(node_ok(self@, i.0 as int));
        }
        let w = self.get_width(i);
        let mask = crate::get_modulo_mask(w);
        match self.get_node(i) {
            SimpleAst::Constant { c, .. } => c,
            SimpleAst::Symbol { id, .. } => env[id as usize] & mask,
            SimpleAst::Add { a, b } => {
                let x = self.eval_exec(a, env);
                let y = self.eval_exec(b, env);
                proof {
                    lemma_wrapping_add_is_wadd(x, y);
                }
                x.wrapping_add(y) & mask
            },
            SimpleAst::Mul { a, b } => {
                let x = self.eval_exec(a, env);
                let y = self.eval_exec(b, env);
                proof {
                    lemma_wrapping_mul_is_wmul(x, y);
                }
                x.wrapping_mul(y) & mask
            },
            SimpleAst::Pow { a, b } => {
                let x = self.eval_exec(a, env);
                let y = self.eval_exec(b, env);
                Pow2(x, y) & mask
            },
            SimpleAst::And { a, b } => self.eval_exec(a, env) & self.eval_exec(b, env),
            SimpleAst::Or { a, b } => self.eval_exec(a, env) | self.eval_exec(b, env),
            SimpleAst::Xor { a, b } => self.eval_exec(a, env) ^ self.eval_exec(b, env),
            SimpleAst::Neg { a } => !self.eval_exec(a, env) & mask,
            SimpleAst::Lshr { a, b } => {
                let x = self.eval_exec(a, env);
                let y = self.eval_exec(b, env);
                if y >= w as u64 {
                    0
                } else {
                    (x >> y) & mask
                }
            },
            SimpleAst::Zext { a, .. } => self.eval_exec(a, env),
            SimpleAst::Trunc { a, .. } => self.eval_exec(a, env) & mask,
            SimpleAst::Icmp { pred, a, b } => {
                proof {
                    assert(node_ok(self@, a.0 as int));
                }
                let x = self.eval_exec(a, env);
                let y = self.eval_exec(b, env);
                let cw = self.get_width(a);
                let cmask = crate::get_modulo_mask(cw);
                let sb = cmask & !(cmask >> 1u64);
                proof {
                    lemma_eval_fits(self@, a.0 as int, env_map(env@));
                    lemma_eval_fits(self@, b.0 as int, env_map(env@));
                    ax_icmp(x, y, cw as u32);
                }
                let holds: bool = match pred {
                    Predicate::Eq => x == y,
                    Predicate::Ne => x != y,
                    Predicate::Ugt => x > y,
                    Predicate::Uge => x >= y,
                    Predicate::Ult => x < y,
                    Predicate::Ule => x <= y,
                    Predicate::Sgt => (x ^ sb) > (y ^ sb),
                    Predicate::Sge => (x ^ sb) >= (y ^ sb),
                    Predicate::Slt => (x ^ sb) < (y ^ sb),
                    Predicate::Sle => (x ^ sb) <= (y ^ sb),
                };
                if holds {
                    1
                } else {
                    0
                }
            },
            SimpleAst::Select { c, t, f } => {
                let cv = self.eval_exec(c, env);
                if cv & 1 == 1 {
                    self.eval_exec(t, env)
                } else {
                    self.eval_exec(f, env)
                }
            },
        }
    }
}

} // verus!
