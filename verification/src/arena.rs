//! The hash-consed expression arena: an append-only store of nodes in which
//! every structurally distinct node has exactly one handle, every node's
//! metadata is the defined function of its subtree, and the attached
//! known-bits analysis is sound for the node's denotation.
use vstd::prelude::*;

verus! {

use crate::ast::{
    analysis_sound, contains_node, eval, is_const_node, lemma_eval_fits, lemma_eval_frame, lemma_masked_fits,
    max_class, no_dups, node_ok, nodes_ok, try_make_semilinear, AstClass, AstData, AstIdx, Entry,
    SimpleAst,
};
use crate::known_bits::KnownBits;
use crate::{add_val, mask_of, mul_val, not_val, Predicate};

pub struct Arena {
    pub elements: Vec<(SimpleAst, AstData)>,
    pub symbols: Vec<(String, u8, AstIdx)>,
}

impl View for Arena {
    type V = Seq<Entry>;

    open spec fn view(&self) -> Seq<Entry> {
        self.elements@
    }
}

impl Arena {
    /// The symbol table points at symbol nodes carrying the entry's own
    /// position as their identifier, and no name is registered twice at one
    /// width.
    pub open spec fn symbols_wf(self) -> bool {
        &&& self.symbols@.len() <= 0xffff_ffff
        &&& (forall|k: int|
            0 <= k < self.symbols@.len() ==> (#[trigger] self.symbols@[k]).2.0 < self@.len()
                && self@[self.symbols@[k].2.0 as int].0 == (SimpleAst::Symbol {
                id: k as u32,
                width: self.symbols@[k].1,
            }))
        &&& (forall|k1: int, k2: int|
            0 <= k1 < k2 < self.symbols@.len() ==> !((#[trigger] self.symbols@[k1]).0@
                == (#[trigger] self.symbols@[k2]).0@ && self.symbols@[k1].1
                == self.symbols@[k2].1))
    }

    /// The arena invariant: bounded size, structurally sound entries, hash
    /// consing, a sound analysis on every node, and a sound symbol table.
    pub open spec fn wf(self) -> bool {
        &&& self@.len() <= 0xffff_ffff
        &&& nodes_ok(self@)
        &&& no_dups(self@)
        &&& analysis_sound(self@)
        &&& self.symbols_wf()
    }

    /// A handle points at an entry.
    pub open spec fn valid(self, i: AstIdx) -> bool {
        i.0 < self@.len()
    }

    /// The width of the node behind a handle.
    pub open spec fn width_of(self, i: AstIdx) -> u8 {
        self@[i.0 as int].1.width
    }

    pub fn new() -> (r: Arena)
        ensures
            r.wf(),
            r@.len() == 0,
            r.num_symbols() == 0,
    {
        Arena { elements: Vec::new(), symbols: Vec::new() }
    }

    /// Drop every node and symbol.
    pub fn clear(&mut self)
        ensures
            final(self).wf(),
            final(self)@.len() == 0,
    {
        self.elements.clear();
        self.symbols.clear();
    }

    pub fn size(&self) -> (r: usize)
        ensures
            r == self@.len(),
    {
        self.elements.len()
    }

    #[verifier::when_used_as_spec(num_symbols_spec)]
    pub fn num_symbols(&self) -> (r: usize)
        ensures
            r == self.symbols@.len(),
    {
        self.symbols.len()
    }

    pub open spec fn num_symbols_spec(&self) -> usize {
        self.symbols@.len() as usize
    }

    /// Scan for an existing entry with the same shape.
    fn find_node(&self, node: SimpleAst) -> (r: Option<AstIdx>)
        requires
            self@.len() <= 0xffff_ffff,
        ensures
            match r {
                Some(i) => i.0 < self@.len() && self@[i.0 as int].0 == node,
                None => !contains_node(self@, node),
            },
    {
        let mut k: usize = 0;
        while k < self.elements.len()
            invariant
                self@.len() <= 0xffff_ffff,
                k <= self@.len(),
                forall|j: int| 0 <= j < k ==> (#[trigger] self@[j]).0 != node,
            decreases self@.len() - k,
        {
            let cand = self.elements[k].0;
            if cand == node {
                return Some(AstIdx(k as u32));
            }
            k += 1;
        }
        None
    }

    /// The node behind a handle.
    pub fn get_node(&self, i: AstIdx) -> (r: SimpleAst)
        requires
            self.valid(i),
        ensures
            r == self@[i.0 as int].0,
    {
        self.elements[i.0 as usize].0
    }

    /// The metadata behind a handle.
    pub fn get_data(&self, i: AstIdx) -> (r: AstData)
        requires
            self.valid(i),
        ensures
            r == self@[i.0 as int].1,
    {
        self.elements[i.0 as usize].1
    }

    pub fn get_width(&self, i: AstIdx) -> (r: u8)
        requires
            self.valid(i),
        ensures
            r == self.width_of(i),
    {
        self.get_data(i).width
    }

    pub fn get_cost(&self, i: AstIdx) -> (r: u32)
        requires
            self.valid(i),
        ensures
            r == self@[i.0 as int].1.cost,
    {
        self.get_data(i).cost
    }

    pub fn get_has_poly(&self, i: AstIdx) -> (r: bool)
        requires
            self.valid(i),
        ensures
            r == self@[i.0 as int].1.has_poly,
    {
        self.get_data(i).has_poly
    }

    pub fn get_class(&self, i: AstIdx) -> (r: AstClass)
        requires
            self.valid(i),
        ensures
            r == self@[i.0 as int].1.class,
    {
        self.get_data(i).class
    }

    pub fn get_known_bits(&self, i: AstIdx) -> (r: KnownBits)
        requires
            self.valid(i),
        ensures
            r == self@[i.0 as int].1.known_bits,
    {
        self.get_data(i).known_bits
    }

    /// Whether the node behind a handle is a constant leaf.
    pub fn is_constant(&self, i: AstIdx) -> (r: bool)
        requires
            self.valid(i),
        ensures
            r == is_const_node(self@[i.0 as int].0),
    {
        matches!(self.get_node(i), SimpleAst::Constant { .. })
    }

    /// Register a constant, canonicalised modulo two to the width; the result
    /// always denotes that canonical value.
    #[verifier::rlimit(30)]
    pub fn constant(&mut self, c: u64, width: u8) -> (r: AstIdx)
        requires
            old(self).wf(),
            1 <= width <= 64,
            old(self)@.len() < 0xffff_ffff,
        ensures
            final(self).wf(),
            final(self).valid(r),
            grows_by_at_most_one(old(self)@, final(self)@),
            final(self).symbols@ == old(self).symbols@,
            final(self)@[r.0 as int].0 == (SimpleAst::Constant {
                c: c & mask_of(width as u32),
                width,
            }),
            final(self).width_of(r) == width,
            contains_node(old(self)@, SimpleAst::Constant { c: c & mask_of(width as u32), width })
                ==> final(self)@ == old(self)@,
            forall|env: Map<u32, u64>| #[trigger]
                eval(final(self)@, r.0 as int, env) == c & mask_of(width as u32),
    {
        let mask = crate::get_modulo_mask(width);
        let cc = c & mask;
        let node = SimpleAst::Constant { c: cc, width };
        if let Some(i) = self.find_node(node) {
            proof {
                assert(node_ok(self@, i.0 as int));
            }
            return i;
        }
        let kb = KnownBits::constant(cc, width);
        let data = AstData { width, cost: 1, has_poly: false, class: AstClass::Bitwise, known_bits: kb };
        let r = AstIdx(self.elements.len() as u32);
        proof {
            let n1 = self@;
            let n2 = n1.push((node, data));
            lemma_masked_fits();
            assert(node_ok(n2, n1.len() as int));
            assert forall|env: Map<u32, u64>| #[trigger] data.known_bits.consistent(
                eval(n2, n1.len() as int, env),
            ) by {
                assert(eval(n2, n1.len() as int, env) == cc);
            }
            lemma_push_preserves(n1, node, data);
        }
        self.elements.push((node, data));
        r
    }

    /// Register a symbol leaf under a caller-chosen identifier.
    pub fn symbol(&mut self, id: u32, width: u8) -> (r: AstIdx)
        requires
            old(self).wf(),
            1 <= width <= 64,
            old(self)@.len() < 0xffff_ffff,
        ensures
            final(self).wf(),
            final(self).valid(r),
            grows_by_at_most_one(old(self)@, final(self)@),
            final(self).symbols@ == old(self).symbols@,
            final(self)@[r.0 as int].0 == (SimpleAst::Symbol { id, width }),
            final(self).width_of(r) == width,
            contains_node(old(self)@, SimpleAst::Symbol { id, width }) ==> final(self)@ == old(self)@,
            forall|env: Map<u32, u64>| #[trigger]
                eval(final(self)@, r.0 as int, env) == env[id] & mask_of(width as u32),
    {
        let node = SimpleAst::Symbol { id, width };
        if let Some(i) = self.find_node(node) {
            proof {
                assert(node_ok(self@, i.0 as int));
            }
            return i;
        }
        let kb = KnownBits::empty(width);
        let data = AstData { width, cost: 1, has_poly: false, class: AstClass::Bitwise, known_bits: kb };
        let r = AstIdx(self.elements.len() as u32);
        proof {
            let n1 = self@;
            let n2 = n1.push((node, data));
            assert(node_ok(n2, n1.len() as int));
            assert forall|env: Map<u32, u64>| #[trigger] data.known_bits.consistent(
                eval(n2, n1.len() as int, env),
            ) by {
                lemma_masked_fits();
            }
            lemma_push_preserves(n1, node, data);
        }
        self.elements.push((node, data));
        r
    }

    /// Build a sum node; the result denotes the sum of the children modulo
    /// two to the shared width.
    pub fn add(&mut self, a: AstIdx, b: AstIdx) -> (r: AstIdx)
        requires
            old(self).wf(),
            old(self).valid(a),
            old(self).valid(b),
            old(self).width_of(a) == old(self).width_of(b),
            old(self)@.len() < 0xffff_ffff,
        ensures
            final(self).wf(),
            final(self).valid(r),
            grows_by_at_most_one(old(self)@, final(self)@),
            final(self).symbols@ == old(self).symbols@,
            final(self)@[r.0 as int].0 == (SimpleAst::Add { a, b }),
            final(self).width_of(r) == old(self).width_of(a),
            contains_node(old(self)@, SimpleAst::Add { a, b }) ==> final(self)@ == old(self)@,
            forall|env: Map<u32, u64>| #[trigger]
                eval(final(self)@, r.0 as int, env) == add_val(
                    eval(final(self)@, a.0 as int, env),
                    eval(final(self)@, b.0 as int, env),
                    old(self).width_of(a) as u32,
                ),
    {
        let node = SimpleAst::Add { a, b };
        if let Some(i) = self.find_node(node) {
            proof {
                assert(node_ok(self@, i.0 as int));
            }
            return i;
        }
        let d1 = self.get_data(a);
        let d2 = self.get_data(b);
        proof {
            assert(node_ok(self@, a.0 as int));
            assert(node_ok(self@, b.0 as int));
        }
        let width = d1.width;
        let cost = 1u32.saturating_add(d1.cost.saturating_add(d2.cost));
        let has_poly = d1.has_poly || d2.has_poly;
        let cls = try_make_semilinear(max_class(d1.class, d2.class, AstClass::Linear), d1.class, d2.class);
        let kb = KnownBits::add(&d1.known_bits, &d2.known_bits);
        let data = AstData { width, cost, has_poly, class: cls, known_bits: kb };
        let r = AstIdx(self.elements.len() as u32);
        proof {
            let n1 = self@;
            let n2 = n1.push((node, data));
            assert(node_ok(n2, n1.len() as int));
            assert forall|env: Map<u32, u64>| #[trigger] data.known_bits.consistent(
                eval(n2, n1.len() as int, env),
            ) by {
                lemma_eval_frame(n1, n2, a.0 as int, env);
                lemma_eval_frame(n1, n2, b.0 as int, env);
                let x = eval(n2, a.0 as int, env);
                let y = eval(n2, b.0 as int, env);
                assert(d1.known_bits.consistent(x) && d2.known_bits.consistent(y));
                assert(eval(n2, n1.len() as int, env) == add_val(x, y, width as u32));
            }
            lemma_push_preserves(n1, node, data);
        }
        self.elements.push((node, data));
        r
    }
}

impl Arena {
    /// The classification a bitwise combination of two existing nodes takes.
    pub fn compute_bitwise_class(&self, a: AstIdx, b: AstIdx) -> (r: AstClass)
        requires
            self.valid(a),
            self.valid(b),
        ensures
            r == crate::ast::bitwise_class_spec(
                self@[a.0 as int].1.class,
                self@[b.0 as int].1.class,
                is_const_node(self@[a.0 as int].0) || is_const_node(self@[b.0 as int].0),
            ),
    {
        let has_const = self.is_constant(a) || self.is_constant(b);
        let m = max_class(
            self.get_class(a),
            self.get_class(b),
            if has_const {
                AstClass::BitwiseWithConstants
            } else {
                AstClass::Bitwise
            },
        );
        if matches!(m, AstClass::Bitwise) || matches!(m, AstClass::BitwiseWithConstants) {
            m
        } else {
            AstClass::Nonlinear
        }
    }

    /// Build a bitwise AND node.
    pub fn and(&mut self, a: AstIdx, b: AstIdx) -> (r: AstIdx)
        requires
            old(self).wf(),
            old(self).valid(a),
            old(self).valid(b),
            old(self).width_of(a) == old(self).width_of(b),
            old(self)@.len() < 0xffff_ffff,
        ensures
            final(self).wf(),
            final(self).valid(r),
            grows_by_at_most_one(old(self)@, final(self)@),
            final(self).symbols@ == old(self).symbols@,
            final(self)@[r.0 as int].0 == (SimpleAst::And { a, b }),
            final(self).width_of(r) == old(self).width_of(a),
            contains_node(old(self)@, SimpleAst::And { a, b }) ==> final(self)@ == old(self)@,
            forall|env: Map<u32, u64>| #[trigger]
                eval(final(self)@, r.0 as int, env) == (eval(final(self)@, a.0 as int, env) & eval(
                    final(self)@,
                    b.0 as int,
                    env,
                )),
    {
        let node = SimpleAst::And { a, b };
        if let Some(i) = self.find_node(node) {
            proof {
                assert(node_ok(self@, i.0 as int));
            }
            return i;
        }
        let d1 = self.get_data(a);
        let d2 = self.get_data(b);
        proof {
            assert(node_ok(self@, a.0 as int));
            assert(node_ok(self@, b.0 as int));
        }
        let width = d1.width;
        let cost = 1u32.saturating_add(d1.cost.saturating_add(d2.cost));
        let has_poly = d1.has_poly || d2.has_poly;
        let cls = self.compute_bitwise_class(a, b);
        let kb = KnownBits::and(&d1.known_bits, &d2.known_bits);
        let data = AstData { width, cost, has_poly, class: cls, known_bits: kb };
        let r = AstIdx(self.elements.len() as u32);
        proof {
            let n1 = self@;
            let n2 = n1.push((node, data));
            assert(node_ok(n2, n1.len() as int));
            assert forall|env: Map<u32, u64>| #[trigger] data.known_bits.consistent(
                eval(n2, n1.len() as int, env),
            ) by {
                lemma_eval_frame(n1, n2, a.0 as int, env);
                lemma_eval_frame(n1, n2, b.0 as int, env);
                let x = eval(n2, a.0 as int, env);
                let y = eval(n2, b.0 as int, env);
                assert(d1.known_bits.consistent(x) && d2.known_bits.consistent(y));
            }
            lemma_push_preserves(n1, node, data);
        }
        self.elements.push((node, data));
        r
    }

    /// Build a bitwise OR node.
    pub fn or(&mut self, a: AstIdx, b: AstIdx) -> (r: AstIdx)
        requires
            old(self).wf(),
            old(self).valid(a),
            old(self).valid(b),
            old(self).width_of(a) == old(self).width_of(b),
            old(self)@.len() < 0xffff_ffff,
        ensures
            final(self).wf(),
            final(self).valid(r),
            grows_by_at_most_one(old(self)@, final(self)@),
            final(self).symbols@ == old(self).symbols@,
            final(self)@[r.0 as int].0 == (SimpleAst::Or { a, b }),
            final(self).width_of(r) == old(self).width_of(a),
            contains_node(old(self)@, SimpleAst::Or { a, b }) ==> final(self)@ == old(self)@,
            forall|env: Map<u32, u64>| #[trigger]
                eval(final(self)@, r.0 as int, env) == (eval(final(self)@, a.0 as int, env) | eval(
                    final(self)@,
                    b.0 as int,
                    env,
                )),
    {
        let node = SimpleAst::Or { a, b };
        if let Some(i) = self.find_node(node) {
            proof {
                assert(node_ok(self@, i.0 as int));
            }
            return i;
        }
        let d1 = self.get_data(a);
        let d2 = self.get_data(b);
        proof {
            assert(node_ok(self@, a.0 as int));
            assert(node_ok(self@, b.0 as int));
        }
        let width = d1.width;
        let cost = 1u32.saturating_add(d1.cost.saturating_add(d2.cost));
        let has_poly = d1.has_poly || d2.has_poly;
        let cls = self.compute_bitwise_class(a, b);
        let kb = KnownBits::or(&d1.known_bits, &d2.known_bits);
        let data = AstData { width, cost, has_poly, class: cls, known_bits: kb };
        let r = AstIdx(self.elements.len() as u32);
        proof {
            let n1 = self@;
            let n2 = n1.push((node, data));
            assert(node_ok(n2, n1.len() as int));
            assert forall|env: Map<u32, u64>| #[trigger] data.known_bits.consistent(
                eval(n2, n1.len() as int, env),
            ) by {
                lemma_eval_frame(n1, n2, a.0 as int, env);
                lemma_eval_frame(n1, n2, b.0 as int, env);
                let x = eval(n2, a.0 as int, env);
                let y = eval(n2, b.0 as int, env);
                assert(d1.known_bits.consistent(x) && d2.known_bits.consistent(y));
            }
            lemma_push_preserves(n1, node, data);
        }
        self.elements.push((node, data));
        r
    }

    /// Build a bitwise XOR node.
    pub fn xor(&mut self, a: AstIdx, b: AstIdx) -> (r: AstIdx)
        requires
            old(self).wf(),
            old(self).valid(a),
            old(self).valid(b),
            old(self).width_of(a) == old(self).width_of(b),
            old(self)@.len() < 0xffff_ffff,
        ensures
            final(self).wf(),
            final(self).valid(r),
            grows_by_at_most_one(old(self)@, final(self)@),
            final(self).symbols@ == old(self).symbols@,
            final(self)@[r.0 as int].0 == (SimpleAst::Xor { a, b }),
            final(self).width_of(r) == old(self).width_of(a),
            contains_node(old(self)@, SimpleAst::Xor { a, b }) ==> final(self)@ == old(self)@,
            forall|env: Map<u32, u64>| #[trigger]
                eval(final(self)@, r.0 as int, env) == (eval(final(self)@, a.0 as int, env) ^ eval(
                    final(self)@,
                    b.0 as int,
                    env,
                )),
    {
        let node = SimpleAst::Xor { a, b };
        if let Some(i) = self.find_node(node) {
            proof {
                assert(node_ok(self@, i.0 as int));
            }
            return i;
        }
        let d1 = self.get_data(a);
        let d2 = self.get_data(b);
        proof {
            assert(node_ok(self@, a.0 as int));
            assert(node_ok(self@, b.0 as int));
        }
        let width = d1.width;
        let cost = 1u32.saturating_add(d1.cost.saturating_add(d2.cost));
        let has_poly = d1.has_poly || d2.has_poly;
        let cls = self.compute_bitwise_class(a, b);
        let kb = KnownBits::xor(&d1.known_bits, &d2.known_bits);
        let data = AstData { width, cost, has_poly, class: cls, known_bits: kb };
        let r = AstIdx(self.elements.len() as u32);
        proof {
            let n1 = self@;
            let n2 = n1.push((node, data));
            assert(node_ok(n2, n1.len() as int));
            assert forall|env: Map<u32, u64>| #[trigger] data.known_bits.consistent(
                eval(n2, n1.len() as int, env),
            ) by {
                lemma_eval_frame(n1, n2, a.0 as int, env);
                lemma_eval_frame(n1, n2, b.0 as int, env);
                let x = eval(n2, a.0 as int, env);
                let y = eval(n2, b.0 as int, env);
                assert(d1.known_bits.consistent(x) && d2.known_bits.consistent(y));
            }
            lemma_push_preserves(n1, node, data);
        }
        self.elements.push((node, data));
        r
    }

    /// Build a bitwise complement node.
    pub fn neg(&mut self, a: AstIdx) -> (r: AstIdx)
        requires
            old(self).wf(),
            old(self).valid(a),
            old(self)@.len() < 0xffff_ffff,
        ensures
            final(self).wf(),
            final(self).valid(r),
            grows_by_at_most_one(old(self)@, final(self)@),
            final(self).symbols@ == old(self).symbols@,
            final(self)@[r.0 as int].0 == (SimpleAst::Neg { a }),
            final(self).width_of(r) == old(self).width_of(a),
            contains_node(old(self)@, SimpleAst::Neg { a }) ==> final(self)@ == old(self)@,
            forall|env: Map<u32, u64>| #[trigger]
                eval(final(self)@, r.0 as int, env) == not_val(
                    eval(final(self)@, a.0 as int, env),
                    old(self).width_of(a) as u32,
                ),
    {
        let node = SimpleAst::Neg { a };
        if let Some(i) = self.find_node(node) {
            proof {
                assert(node_ok(self@, i.0 as int));
            }
            return i;
        }
        let d1 = self.get_data(a);
        proof {
            assert(node_ok(self@, a.0 as int));
        }
        let width = d1.width;
        let cost = 1u32.saturating_add(d1.cost);
        let has_poly = d1.has_poly;
        let has_const = self.is_constant(a);
        let m = max_class(
            d1.class,
            AstClass::Bitwise,
            if has_const {
                AstClass::BitwiseWithConstants
            } else {
                AstClass::Bitwise
            },
        );
        let cls = if matches!(m, AstClass::Bitwise) || matches!(m, AstClass::BitwiseWithConstants) {
            m
        } else {
            AstClass::Nonlinear
        };
        let kb = KnownBits::neg(&d1.known_bits);
        let data = AstData { width, cost, has_poly, class: cls, known_bits: kb };
        let r = AstIdx(self.elements.len() as u32);
        proof {
            let n1 = self@;
            let n2 = n1.push((node, data));
            assert(node_ok(n2, n1.len() as int));
            assert forall|env: Map<u32, u64>| #[trigger] data.known_bits.consistent(
                eval(n2, n1.len() as int, env),
            ) by {
                lemma_eval_frame(n1, n2, a.0 as int, env);
                let x = eval(n2, a.0 as int, env);
                assert(d1.known_bits.consistent(x));
            }
            lemma_push_preserves(n1, node, data);
        }
        self.elements.push((node, data));
        r
    }

    /// Build a logical-right-shift node.
    pub fn lshr(&mut self, a: AstIdx, b: AstIdx) -> (r: AstIdx)
        requires
            old(self).wf(),
            old(self).valid(a),
            old(self).valid(b),
            old(self).width_of(a) == old(self).width_of(b),
            old(self)@.len() < 0xffff_ffff,
        ensures
            final(self).wf(),
            final(self).valid(r),
            grows_by_at_most_one(old(self)@, final(self)@),
            final(self).symbols@ == old(self).symbols@,
            final(self)@[r.0 as int].0 == (SimpleAst::Lshr { a, b }),
            final(self).width_of(r) == old(self).width_of(a),
            contains_node(old(self)@, SimpleAst::Lshr { a, b }) ==> final(self)@ == old(self)@,
            forall|env: Map<u32, u64>| #[trigger]
                eval(final(self)@, r.0 as int, env) == crate::lshr_val(
                    eval(final(self)@, a.0 as int, env),
                    eval(final(self)@, b.0 as int, env),
                    old(self).width_of(a) as u32,
                ),
    {
        let node = SimpleAst::Lshr { a, b };
        if let Some(i) = self.find_node(node) {
            proof {
                assert(node_ok(self@, i.0 as int));
            }
            return i;
        }
        let d1 = self.get_data(a);
        let d2 = self.get_data(b);
        proof {
            assert(node_ok(self@, a.0 as int));
            assert(node_ok(self@, b.0 as int));
        }
        let width = d1.width;
        let cost = 3u32.saturating_add(d1.cost.saturating_add(d2.cost));
        let has_poly = d1.has_poly || d2.has_poly;
        let kb = KnownBits::lshr(&d1.known_bits, &d2.known_bits);
        let data = AstData {
            width,
            cost,
            has_poly,
            class: AstClass::Nonlinear,
            known_bits: kb,
        };
        let r = AstIdx(self.elements.len() as u32);
        proof {
            let n1 = self@;
            let n2 = n1.push((node, data));
            assert(node_ok(n2, n1.len() as int));
            assert forall|env: Map<u32, u64>| #[trigger] data.known_bits.consistent(
                eval(n2, n1.len() as int, env),
            ) by {
                lemma_eval_frame(n1, n2, a.0 as int, env);
                lemma_eval_frame(n1, n2, b.0 as int, env);
                let x = eval(n2, a.0 as int, env);
                let y = eval(n2, b.0 as int, env);
                assert(d1.known_bits.consistent(x) && d2.known_bits.consistent(y));
            }
            lemma_push_preserves(n1, node, data);
        }
        self.elements.push((node, data));
        r
    }
}

/// The node a product of two existing nodes collapses to: multiplying by one
/// gives the other operand, by zero the zero constant, and anything else an
/// interned product node.
pub open spec fn mul_result_node(nodes: Seq<Entry>, a: AstIdx, b: AstIdx) -> SimpleAst {
    let na = nodes[a.0 as int].0;
    let nb = nodes[b.0 as int].0;
    let w = nodes[a.0 as int].1.width;
    if crate::ast::const_value(na) == Some(1u64) {
        nb
    } else if crate::ast::const_value(na) == Some(0u64) {
        SimpleAst::Constant { c: 0, width: w }
    } else if crate::ast::const_value(nb) == Some(1u64) {
        na
    } else if crate::ast::const_value(nb) == Some(0u64) {
        SimpleAst::Constant { c: 0, width: w }
    } else {
        SimpleAst::Mul { a, b }
    }
}

/// The node a zero extension collapses to: a constant child folds, anything
/// else becomes an extension node.
pub open spec fn zext_result_node(nodes: Seq<Entry>, a: AstIdx, width: u8) -> SimpleAst {
    match crate::ast::const_value(nodes[a.0 as int].0) {
        Some(c) => SimpleAst::Constant { c, width },
        None => SimpleAst::Zext { a, to: width },
    }
}

/// The node a truncation collapses to: a constant child folds to its low
/// bits, anything else becomes a truncation node.
pub open spec fn trunc_result_node(nodes: Seq<Entry>, a: AstIdx, width: u8) -> SimpleAst {
    match crate::ast::const_value(nodes[a.0 as int].0) {
        Some(c) => SimpleAst::Constant { c: c & mask_of(width as u32), width },
        None => SimpleAst::Trunc { a, to: width },
    }
}

/// The node a power collapses to: two constant children fold, anything else
/// becomes an exponentiation node.
pub open spec fn pow_result_node(nodes: Seq<Entry>, a: AstIdx, b: AstIdx) -> SimpleAst {
    let w = nodes[a.0 as int].1.width;
    if crate::ast::const_value(nodes[a.0 as int].0) is Some && crate::ast::const_value(
        nodes[b.0 as int].0,
    ) is Some {
        SimpleAst::Constant {
            c: crate::ast::pow_val(
                crate::ast::const_value(nodes[a.0 as int].0)->Some_0,
                crate::ast::const_value(nodes[b.0 as int].0)->Some_0,
                w as u32,
            ),
            width: w,
        }
    } else {
        SimpleAst::Pow { a, b }
    }
}

impl Arena {
    /// Build a product node, collapsing units and zeroes and folding a
    /// product of two constants; the result always denotes the product of the
    /// children modulo two to the shared width.
    pub fn mul(&mut self, a: AstIdx, b: AstIdx) -> (r: AstIdx)
        requires
            old(self).wf(),
            old(self).valid(a),
            old(self).valid(b),
            old(self).width_of(a) == old(self).width_of(b),
            old(self)@.len() < 0xffff_ffff,
        ensures
            final(self).wf(),
            final(self).valid(r),
            grows_by_at_most_one(old(self)@, final(self)@),
            final(self).symbols@ == old(self).symbols@,
            final(self)@[r.0 as int].0 == mul_result_node(old(self)@, a, b),
            final(self).width_of(r) == old(self).width_of(a),
            forall|env: Map<u32, u64>| #[trigger]
                eval(final(self)@, r.0 as int, env) == mul_val(
                    eval(final(self)@, a.0 as int, env),
                    eval(final(self)@, b.0 as int, env),
                    old(self).width_of(a) as u32,
                ),
    {
        proof {
            assert(node_ok(self@, a.0 as int));
            assert(node_ok(self@, b.0 as int));
        }
        let width = self.get_width(a);
        let w32 = width as u32;
        let na = self.get_node(a);
        let nb = self.get_node(b);
        if let SimpleAst::Constant { c: c1, .. } = na {
            if c1 == 1 {
                proof {
                    assert forall|env: Map<u32, u64>| #[trigger] eval(self@, b.0 as int, env)
                        == mul_val(
                        eval(self@, a.0 as int, env),
                        eval(self@, b.0 as int, env),
                        w32,
                    ) by {
                        lemma_eval_fits(self@, b.0 as int, env);
                        crate::ast::lemma_mul_units();
                        let y = eval(self@, b.0 as int, env);
                        assert(((1u64 * y) as u64) == y);
                    }
                }
                return b;
            }
            if c1 == 0 {
                let r = self.constant(0, width);
                proof {
                    assert forall|env: Map<u32, u64>| #[trigger] eval(self@, r.0 as int, env)
                        == mul_val(
                        eval(self@, a.0 as int, env),
                        eval(self@, b.0 as int, env),
                        w32,
                    ) by {
                        lemma_eval_frame(old(self)@, self@, a.0 as int, env);
                        lemma_eval_frame(old(self)@, self@, b.0 as int, env);
                        crate::ast::lemma_mul_units();
                        let y = eval(self@, b.0 as int, env);
                        assert(((0u64 * y) as u64) == 0);
                    }
                }
                return r;
            }
        }
        if let SimpleAst::Constant { c: c1, .. } = nb {
            if c1 == 1 {
                proof {
                    assert forall|env: Map<u32, u64>| #[trigger] eval(self@, a.0 as int, env)
                        == mul_val(
                        eval(self@, a.0 as int, env),
                        eval(self@, b.0 as int, env),
                        w32,
                    ) by {
                        lemma_eval_fits(self@, a.0 as int, env);
                        crate::ast::lemma_mul_units();
                        let x = eval(self@, a.0 as int, env);
                        assert(((x * 1u64) as u64) == x);
                    }
                }
                return a;
            }
            if c1 == 0 {
                let r = self.constant(0, width);
                proof {
                    assert forall|env: Map<u32, u64>| #[trigger] eval(self@, r.0 as int, env)
                        == mul_val(
                        eval(self@, a.0 as int, env),
                        eval(self@, b.0 as int, env),
                        w32,
                    ) by {
                        lemma_eval_frame(old(self)@, self@, a.0 as int, env);
                        lemma_eval_frame(old(self)@, self@, b.0 as int, env);
                        crate::ast::lemma_mul_units();
                        let x = eval(self@, a.0 as int, env);
                        assert(((x * 0u64) as u64) == 0);
                    }
                }
                return r;
            }
        }
        let node = SimpleAst::Mul { a, b };
        if let Some(i) = self.find_node(node) {
            proof {
                assert(node_ok(self@, i.0 as int));
            }
            return i;
        }
        let d1 = self.get_data(a);
        let d2 = self.get_data(b);
        let is_one_part_constant = matches!(na, SimpleAst::Constant { .. }) || matches!(
            nb,
            SimpleAst::Constant { .. },
        );
        let cost = 1u32.saturating_add(d1.cost.saturating_add(d2.cost));
        let has_poly = !is_one_part_constant || (d1.has_poly || d2.has_poly);
        let m = max_class(
            d1.class,
            d2.class,
            if is_one_part_constant {
                AstClass::Linear
            } else {
                AstClass::Nonlinear
            },
        );
        let cls = try_make_semilinear(m, d1.class, d2.class);
        let kb = KnownBits::mul(&d1.known_bits, &d2.known_bits);
        let data = AstData { width, cost, has_poly, class: cls, known_bits: kb };
        let r = AstIdx(self.elements.len() as u32);
        proof {
            let n1 = self@;
            let n2 = n1.push((node, data));
            assert(node_ok(n2, n1.len() as int));
            assert forall|env: Map<u32, u64>| #[trigger] data.known_bits.consistent(
                eval(n2, n1.len() as int, env),
            ) by {
                lemma_eval_frame(n1, n2, a.0 as int, env);
                lemma_eval_frame(n1, n2, b.0 as int, env);
                let x = eval(n2, a.0 as int, env);
                let y = eval(n2, b.0 as int, env);
                assert(d1.known_bits.consistent(x) && d2.known_bits.consistent(y));
            }
            lemma_push_preserves(n1, node, data);
        }
        self.elements.push((node, data));
        r
    }

    /// Build an exponentiation node, folding a power of two constants; the
    /// result denotes the wrapping power reduced modulo two to the width.
    pub fn pow(&mut self, a: AstIdx, b: AstIdx) -> (r: AstIdx)
        requires
            old(self).wf(),
            old(self).valid(a),
            old(self).valid(b),
            old(self).width_of(a) == old(self).width_of(b),
            old(self)@.len() < 0xffff_ffff,
        ensures
            final(self).wf(),
            final(self).valid(r),
            grows_by_at_most_one(old(self)@, final(self)@),
            final(self).symbols@ == old(self).symbols@,
            final(self)@[r.0 as int].0 == pow_result_node(old(self)@, a, b),
            final(self).width_of(r) == old(self).width_of(a),
            forall|env: Map<u32, u64>| #[trigger]
                eval(final(self)@, r.0 as int, env) == crate::ast::pow_val(
                    eval(final(self)@, a.0 as int, env),
                    eval(final(self)@, b.0 as int, env),
                    old(self).width_of(a) as u32,
                ),
    {
        proof {
            assert(node_ok(self@, a.0 as int));
            assert(node_ok(self@, b.0 as int));
        }
        let width = self.get_width(a);
        let w32 = width as u32;
        let na = self.get_node(a);
        let nb = self.get_node(b);
        if let SimpleAst::Constant { c: c1, .. } = na {
            if let SimpleAst::Constant { c: c2, .. } = nb {
                let p = crate::numeric::Pow2(c1, c2);
                let r = self.constant(p, width);
                proof {
                    assert forall|env: Map<u32, u64>| #[trigger] eval(self@, r.0 as int, env)
                        == crate::ast::pow_val(
                        eval(self@, a.0 as int, env),
                        eval(self@, b.0 as int, env),
                        w32,
                    ) by {
                        lemma_eval_frame(old(self)@, self@, a.0 as int, env);
                        lemma_eval_frame(old(self)@, self@, b.0 as int, env);
                    }
                }
                return r;
            }
        }
        let node = SimpleAst::Pow { a, b };
        if let Some(i) = self.find_node(node) {
            proof {
                assert(node_ok(self@, i.0 as int));
            }
            return i;
        }
        let d1 = self.get_data(a);
        let d2 = self.get_data(b);
        let cost = 6u32.saturating_add(d1.cost.saturating_add(d2.cost));
        let kb = KnownBits::empty(width);
        let data = AstData {
            width,
            cost,
            has_poly: true,
            class: AstClass::Nonlinear,
            known_bits: kb,
        };
        let r = AstIdx(self.elements.len() as u32);
        proof {
            let n1 = self@;
            let n2 = n1.push((node, data));
            assert(node_ok(n2, n1.len() as int));
            assert forall|env: Map<u32, u64>| #[trigger] data.known_bits.consistent(
                eval(n2, n1.len() as int, env),
            ) by {
                let v = crate::ast::wpow(eval(n2, a.0 as int, env), eval(n2, b.0 as int, env));
                assert((v & mask_of(w32)) & mask_of(w32) == v & mask_of(w32)) by (bit_vector);
            }
            lemma_push_preserves(n1, node, data);
        }
        self.elements.push((node, data));
        r
    }

    /// Build a zero-extension node, folding a constant child; the result
    /// denotes the child's value unchanged at the wider width.
    pub fn zext(&mut self, a: AstIdx, width: u8) -> (r: AstIdx)
        requires
            old(self).wf(),
            old(self).valid(a),
            old(self).width_of(a) < width <= 64,
            old(self)@.len() < 0xffff_ffff,
        ensures
            final(self).wf(),
            final(self).valid(r),
            grows_by_at_most_one(old(self)@, final(self)@),
            final(self).symbols@ == old(self).symbols@,
            final(self)@[r.0 as int].0 == zext_result_node(old(self)@, a, width),
            final(self).width_of(r) == width,
            forall|env: Map<u32, u64>| #[trigger]
                eval(final(self)@, r.0 as int, env) == eval(final(self)@, a.0 as int, env),
    {
        proof {
            assert(node_ok(self@, a.0 as int));
        }
        let na = self.get_node(a);
        if let SimpleAst::Constant { c: c1, .. } = na {
            let r = self.constant(c1, width);
            proof {
                let cw = old(self).width_of(a) as u32;
                assert(c1 & mask_of(cw) == c1);
                assert((c1 & mask_of(cw) == c1 && 1 <= cw < width as u32 <= 64) ==> c1 & mask_of(
                    width as u32,
                ) == c1) by (bit_vector);
                assert forall|env: Map<u32, u64>| #[trigger] eval(self@, r.0 as int, env) == eval(
                    self@,
                    a.0 as int,
                    env,
                ) by {
                    lemma_eval_frame(old(self)@, self@, a.0 as int, env);
                }
            }
            return r;
        }
        let node = SimpleAst::Zext { a, to: width };
        if let Some(i) = self.find_node(node) {
            proof {
                assert(node_ok(self@, i.0 as int));
            }
            return i;
        }
        let d1 = self.get_data(a);
        let cost = 1u32.saturating_add(d1.cost);
        let cls = if class_rank_le_bwc(d1.class) {
            AstClass::BitwiseWithConstants
        } else {
            AstClass::Nonlinear
        };
        let kb = KnownBits::zext(&d1.known_bits, width as u32);
        let data = AstData { width, cost, has_poly: d1.has_poly, class: cls, known_bits: kb };
        let r = AstIdx(self.elements.len() as u32);
        proof {
            let n1 = self@;
            let n2 = n1.push((node, data));
            assert(node_ok(n2, n1.len() as int));
            assert forall|env: Map<u32, u64>| #[trigger] data.known_bits.consistent(
                eval(n2, n1.len() as int, env),
            ) by {
                lemma_eval_frame(n1, n2, a.0 as int, env);
                let x = eval(n2, a.0 as int, env);
                assert(d1.known_bits.consistent(x));
            }
            lemma_push_preserves(n1, node, data);
        }
        self.elements.push((node, data));
        r
    }

    /// Build a truncation node, folding a constant child; the result denotes
    /// the low bits of the child's value.
    pub fn trunc(&mut self, a: AstIdx, width: u8) -> (r: AstIdx)
        requires
            old(self).wf(),
            old(self).valid(a),
            1 <= width < old(self).width_of(a),
            old(self)@.len() < 0xffff_ffff,
        ensures
            final(self).wf(),
            final(self).valid(r),
            grows_by_at_most_one(old(self)@, final(self)@),
            final(self).symbols@ == old(self).symbols@,
            final(self)@[r.0 as int].0 == trunc_result_node(old(self)@, a, width),
            final(self).width_of(r) == width,
            forall|env: Map<u32, u64>| #[trigger]
                eval(final(self)@, r.0 as int, env) == crate::trunc_val(
                    eval(final(self)@, a.0 as int, env),
                    width as u32,
                ),
    {
        proof {
            assert(node_ok(self@, a.0 as int));
        }
        let na = self.get_node(a);
        if let SimpleAst::Constant { c: c1, .. } = na {
            let r = self.constant(c1, width);
            proof {
                assert forall|env: Map<u32, u64>| #[trigger] eval(self@, r.0 as int, env)
                    == crate::trunc_val(eval(self@, a.0 as int, env), width as u32) by {
                    lemma_eval_frame(old(self)@, self@, a.0 as int, env);
                }
            }
            return r;
        }
        let node = SimpleAst::Trunc { a, to: width };
        if let Some(i) = self.find_node(node) {
            proof {
                assert(node_ok(self@, i.0 as int));
            }
            return i;
        }
        let d1 = self.get_data(a);
        let cost = 1u32.saturating_add(d1.cost);
        let cls = if class_rank_le_bwc(d1.class) {
            AstClass::BitwiseWithConstants
        } else {
            AstClass::Nonlinear
        };
        let kb = KnownBits::trunc(&d1.known_bits, width as u32);
        let data = AstData { width, cost, has_poly: d1.has_poly, class: cls, known_bits: kb };
        let r = AstIdx(self.elements.len() as u32);
        proof {
            let n1 = self@;
            let n2 = n1.push((node, data));
            assert(node_ok(n2, n1.len() as int));
            assert forall|env: Map<u32, u64>| #[trigger] data.known_bits.consistent(
                eval(n2, n1.len() as int, env),
            ) by {
                lemma_eval_frame(n1, n2, a.0 as int, env);
                let x = eval(n2, a.0 as int, env);
                assert(d1.known_bits.consistent(x));
            }
            lemma_push_preserves(n1, node, data);
        }
        self.elements.push((node, data));
        r
    }

    /// Build a comparison node; the result is the one-bit truth value of the
    /// predicate on the children.
    pub fn icmp(&mut self, pred: Predicate, a: AstIdx, b: AstIdx) -> (r: AstIdx)
        requires
            old(self).wf(),
            old(self).valid(a),
            old(self).valid(b),
            old(self).width_of(a) == old(self).width_of(b),
            old(self)@.len() < 0xffff_ffff,
        ensures
            final(self).wf(),
            final(self).valid(r),
            grows_by_at_most_one(old(self)@, final(self)@),
            final(self).symbols@ == old(self).symbols@,
            final(self)@[r.0 as int].0 == (SimpleAst::Icmp { pred, a, b }),
            final(self).width_of(r) == 1,
            contains_node(old(self)@, SimpleAst::Icmp { pred, a, b }) ==> final(self)@ == old(
                self,
            )@,
            forall|env: Map<u32, u64>| #[trigger]
                eval(final(self)@, r.0 as int, env) == crate::icmp_val(
                    pred,
                    eval(final(self)@, a.0 as int, env),
                    eval(final(self)@, b.0 as int, env),
                    old(self).width_of(a) as u32,
                ),
    {
        let node = SimpleAst::Icmp { pred, a, b };
        if let Some(i) = self.find_node(node) {
            proof {
                assert(node_ok(self@, i.0 as int));
            }
            return i;
        }
        let d1 = self.get_data(a);
        let d2 = self.get_data(b);
        proof {
            assert(node_ok(self@, a.0 as int));
            assert(node_ok(self@, b.0 as int));
        }
        let cost = 6u32.saturating_add(d1.cost.saturating_add(d2.cost));
        let kb = KnownBits::icmp(pred, &d1.known_bits, &d2.known_bits);
        let data = AstData {
            width: 1,
            cost,
            has_poly: d1.has_poly || d2.has_poly,
            class: AstClass::Nonlinear,
            known_bits: kb,
        };
        let r = AstIdx(self.elements.len() as u32);
        proof {
            let n1 = self@;
            let n2 = n1.push((node, data));
            assert(node_ok(n2, n1.len() as int));
            assert forall|env: Map<u32, u64>| #[trigger] data.known_bits.consistent(
                eval(n2, n1.len() as int, env),
            ) by {
                lemma_eval_frame(n1, n2, a.0 as int, env);
                lemma_eval_frame(n1, n2, b.0 as int, env);
                let x = eval(n2, a.0 as int, env);
                let y = eval(n2, b.0 as int, env);
                assert(d1.known_bits.consistent(x) && d2.known_bits.consistent(y));
            }
            lemma_push_preserves(n1, node, data);
        }
        self.elements.push((node, data));
        r
    }

    /// Build a select node; a true one-bit condition picks the first arm.
    pub fn select(&mut self, c: AstIdx, t: AstIdx, f: AstIdx) -> (r: AstIdx)
        requires
            old(self).wf(),
            old(self).valid(c),
            old(self).valid(t),
            old(self).valid(f),
            old(self).width_of(c) == 1,
            old(self).width_of(t) == old(self).width_of(f),
            old(self)@.len() < 0xffff_ffff,
        ensures
            final(self).wf(),
            final(self).valid(r),
            grows_by_at_most_one(old(self)@, final(self)@),
            final(self).symbols@ == old(self).symbols@,
            final(self)@[r.0 as int].0 == (SimpleAst::Select { c, t, f }),
            final(self).width_of(r) == old(self).width_of(t),
            contains_node(old(self)@, SimpleAst::Select { c, t, f }) ==> final(self)@ == old(
                self,
            )@,
            forall|env: Map<u32, u64>| #[trigger]
                eval(final(self)@, r.0 as int, env) == crate::select_val(
                    eval(final(self)@, c.0 as int, env),
                    eval(final(self)@, t.0 as int, env),
                    eval(final(self)@, f.0 as int, env),
                ),
    {
        let node = SimpleAst::Select { c, t, f };
        if let Some(i) = self.find_node(node) {
            proof {
                assert(node_ok(self@, i.0 as int));
            }
            return i;
        }
        let dc = self.get_data(c);
        let dt = self.get_data(t);
        let df = self.get_data(f);
        proof {
            assert(node_ok(self@, c.0 as int));
            assert(node_ok(self@, t.0 as int));
            assert(node_ok(self@, f.0 as int));
        }
        let cost = 6u32.saturating_add(dc.cost.saturating_add(dt.cost.saturating_add(df.cost)));
        let kb = KnownBits::select(&dc.known_bits, &dt.known_bits, &df.known_bits);
        let data = AstData {
            width: dt.width,
            cost,
            has_poly: dc.has_poly || dt.has_poly || df.has_poly,
            class: AstClass::Nonlinear,
            known_bits: kb,
        };
        let r = AstIdx(self.elements.len() as u32);
        proof {
            let n1 = self@;
            let n2 = n1.push((node, data));
            assert(node_ok(n2, n1.len() as int));
            assert forall|env: Map<u32, u64>| #[trigger] data.known_bits.consistent(
                eval(n2, n1.len() as int, env),
            ) by {
                lemma_eval_frame(n1, n2, c.0 as int, env);
                lemma_eval_frame(n1, n2, t.0 as int, env);
                lemma_eval_frame(n1, n2, f.0 as int, env);
                let cv = eval(n2, c.0 as int, env);
                let tv = eval(n2, t.0 as int, env);
                let fv = eval(n2, f.0 as int, env);
                assert(dc.known_bits.consistent(cv) && dt.known_bits.consistent(tv)
                    && df.known_bits.consistent(fv));
            }
            lemma_push_preserves(n1, node, data);
        }
        self.elements.push((node, data));
        r
    }
}

/// Whether a class sits at or below the bitwise-with-constants level.
fn class_rank_le_bwc(c: AstClass) -> (r: bool)
    ensures
        r == (crate::ast::class_rank(c) <= crate::ast::class_rank(
            AstClass::BitwiseWithConstants,
        )),
{
    matches!(c, AstClass::Bitwise) || matches!(c, AstClass::BitwiseWithConstants)
}

/// The first arena is a stable prefix of the second, which holds at most one
/// extra node.
pub open spec fn grows_by_at_most_one(n1: Seq<Entry>, n2: Seq<Entry>) -> bool {
    &&& n2.len() <= n1.len() + 1
    &&& crate::ast::stable_prefix(n1, n2)
}

impl Arena {
    /// Register a symbol under a name, giving one identifier per distinct
    /// name-and-width pair: a second registration returns the first handle.
    pub fn symbol_with_name(&mut self, name: String, width: u8) -> (r: AstIdx)
        requires
            old(self).wf(),
            1 <= width <= 64,
            old(self)@.len() < 0xffff_ffff,
            old(self).symbols@.len() < 0xffff_ffff,
        ensures
            final(self).wf(),
            final(self).valid(r),
            grows_by_at_most_one(old(self)@, final(self)@),
            final(self)@[r.0 as int].0 is Symbol,
            final(self).width_of(r) == width,
            (exists|k: int|
                0 <= k < old(self).symbols@.len() && (#[trigger] old(self).symbols@[k]).0@ == name@
                    && old(self).symbols@[k].1 == width) ==> (final(self)@ == old(self)@
                && final(self).symbols@ == old(self).symbols@),
            forall|k: int|
                0 <= k < old(self).symbols@.len() && (#[trigger] old(self).symbols@[k]).0@ == name@
                    && old(self).symbols@[k].1 == width ==> r == old(self).symbols@[k].2,
            !(exists|k: int|
                0 <= k < old(self).symbols@.len() && (#[trigger] old(self).symbols@[k]).0@ == name@
                    && old(self).symbols@[k].1 == width) ==> (final(self).symbols@ == old(
                self,
            ).symbols@.push((name, width, r)) && final(self)@[r.0 as int].0 == (SimpleAst::Symbol {
                id: old(self).symbols@.len() as u32,
                width,
            })),
    {
        let mut k: usize = 0;
        let n = self.symbols.len();
        while k < n
            invariant
                n == self.symbols@.len(),
                k <= n,
                self.wf(),
                forall|j: int|
                    0 <= j < k ==> !((#[trigger] self.symbols@[j]).0@ == name@ && self.symbols@[j].1
                        == width),
            decreases n - k,
        {
            let entry_width = self.symbols[k].1;
            let matches_name = self.symbols[k].0 == name;
            if entry_width == width && matches_name {
                let r = self.symbols[k].2;
                proof {
                    assert(self.symbols@[k as int].2.0 < self@.len());
                    assert(node_ok(self@, self.symbols@[k as int].2.0 as int));
                    assert forall|j: int|
                        0 <= j < self.symbols@.len() && (#[trigger] self.symbols@[j]).0@ == name@
                            && self.symbols@[j].1 == width implies r == self.symbols@[j].2 by {
                        if j != k as int {
                            assert(self.symbols@[k as int].0@ == self.symbols@[j].0@);
                        }
                    }
                }
                return r;
            }
            k += 1;
        }
        let id = self.symbols.len() as u32;
        let idx = self.symbol(id, width);
        self.symbols.push((name, width, idx));
        proof {
            assert forall|j: int|
                0 <= j < self.symbols@.len() implies (#[trigger] self.symbols@[j]).2.0
                < self@.len() && self@[self.symbols@[j].2.0 as int].0 == (SimpleAst::Symbol {
                id: j as u32,
                width: self.symbols@[j].1,
            }) by {
                if j < old(self).symbols@.len() {
                    assert(self.symbols@[j] == old(self).symbols@[j]);
                }
            }
        }
        idx
    }

    /// The registered name of a symbol identifier.
    pub fn get_symbol_name(&self, symbol_id: u32) -> (r: String)
        requires
            symbol_id < self.symbols@.len(),
        ensures
            r@ == self.symbols@[symbol_id as int].0@,
    {
        self.symbols[symbol_id as usize].0.clone()
    }

    /// XOR a non-empty run of handles together from the left; the result
    /// denotes the XOR of all their denotations.
    pub fn xor_many(&mut self, xs: &Vec<AstIdx>) -> (r: AstIdx)
        requires
            old(self).wf(),
            xs@.len() >= 1,
            forall|k: int| 0 <= k < xs@.len() ==> old(self).valid(#[trigger] xs@[k]),
            forall|k: int|
                0 <= k < xs@.len() ==> old(self).width_of(#[trigger] xs@[k]) == old(self).width_of(
                    xs@[0],
                ),
            old(self)@.len() + xs@.len() <= 0xffff_ffff,
        ensures
            final(self).wf(),
            final(self).valid(r),
            crate::ast::stable_prefix(old(self)@, final(self)@),
            final(self)@.len() <= old(self)@.len() + xs@.len(),
            final(self).symbols@ == old(self).symbols@,
            final(self).width_of(r) == old(self).width_of(xs@[0]),
            forall|env: Map<u32, u64>| #[trigger]
                eval(final(self)@, r.0 as int, env) == crate::ast::xor_fold(final(self)@, xs@, env),
    {
        let mut acc = xs[0];
        let mut k: usize = 1;
        let n = xs.len();
        while k < n
            invariant
                n == xs@.len(),
                1 <= k <= n,
                self.wf(),
                self.valid(acc),
                crate::ast::stable_prefix(old(self)@, self@),
                self@.len() <= old(self)@.len() + k,
                self.symbols@ == old(self).symbols@,
                forall|j: int| 0 <= j < n ==> self.valid(#[trigger] xs@[j]),
                forall|j: int|
                    0 <= j < n ==> self.width_of(#[trigger] xs@[j]) == self.width_of(xs@[0]),
                self.width_of(acc) == self.width_of(xs@[0]),
                old(self)@.len() + n <= 0xffff_ffff,
                forall|env: Map<u32, u64>| #[trigger]
                    eval(self@, acc.0 as int, env) == crate::ast::xor_fold(
                        self@,
                        xs@.take(k as int),
                        env,
                    ),
            decreases n - k,
        {
            let ghost pre = self@;
            let next = xs[k];
            let acc2 = self.xor(acc, next);
            proof {
                assert forall|env: Map<u32, u64>| #[trigger] eval(self@, acc2.0 as int, env)
                    == crate::ast::xor_fold(self@, xs@.take(k as int + 1), env) by {
                    crate::ast::lemma_xor_fold_frame(pre, self@, xs@.take(k as int), env);
                    assert(xs@.take(k as int + 1).drop_last() =~= xs@.take(k as int));
                    assert(xs@.take(k as int + 1).last() == xs@[k as int]);
                    lemma_eval_frame(pre, self@, acc.0 as int, env);
                }
            }
            acc = acc2;
            k += 1;
        }
        proof {
            assert(xs@.take(n as int) =~= xs@);
        }
        acc
    }

    /// A small numeric code for the operator of a node.
    pub fn get_opcode(&self, i: AstIdx) -> (r: u8)
        requires
            self.valid(i),
        ensures
            r == opcode_of(self@[i.0 as int].0),
    {
        match self.get_node(i) {
            SimpleAst::Add { .. } => 1,
            SimpleAst::Mul { .. } => 2,
            SimpleAst::Pow { .. } => 3,
            SimpleAst::And { .. } => 4,
            SimpleAst::Or { .. } => 5,
            SimpleAst::Xor { .. } => 6,
            SimpleAst::Neg { .. } => 7,
            SimpleAst::Lshr { .. } => 8,
            SimpleAst::Constant { .. } => 9,
            SimpleAst::Symbol { .. } => 10,
            SimpleAst::Zext { .. } => 11,
            SimpleAst::Trunc { .. } => 12,
            SimpleAst::Icmp { .. } => 13,
            SimpleAst::Select { .. } => 14,
        }
    }

    /// The first operand of an operator node.
    pub fn get_op0(&self, i: AstIdx) -> (r: AstIdx)
        requires
            self.valid(i),
            !(self@[i.0 as int].0 is Constant),
            !(self@[i.0 as int].0 is Symbol),
        ensures
            Some(r) == op0_of(self@[i.0 as int].0),
    {
        match self.get_node(i) {
            SimpleAst::Add { a, .. } => a,
            SimpleAst::Mul { a, .. } => a,
            SimpleAst::Pow { a, .. } => a,
            SimpleAst::And { a, .. } => a,
            SimpleAst::Or { a, .. } => a,
            SimpleAst::Xor { a, .. } => a,
            SimpleAst::Neg { a } => a,
            SimpleAst::Lshr { a, .. } => a,
            SimpleAst::Zext { a, .. } => a,
            SimpleAst::Trunc { a, .. } => a,
            SimpleAst::Icmp { a, .. } => a,
            SimpleAst::Select { c, .. } => c,
            SimpleAst::Constant { .. } => AstIdx(0),
            SimpleAst::Symbol { .. } => AstIdx(0),
        }
    }

    /// The second operand of a binary node.
    pub fn get_op1(&self, i: AstIdx) -> (r: AstIdx)
        requires
            self.valid(i),
            op1_of(self@[i.0 as int].0) is Some,
        ensures
            Some(r) == op1_of(self@[i.0 as int].0),
    {
        match self.get_node(i) {
            SimpleAst::Add { b, .. } => b,
            SimpleAst::Mul { b, .. } => b,
            SimpleAst::Pow { b, .. } => b,
            SimpleAst::And { b, .. } => b,
            SimpleAst::Or { b, .. } => b,
            SimpleAst::Xor { b, .. } => b,
            SimpleAst::Lshr { b, .. } => b,
            SimpleAst::Icmp { b, .. } => b,
            SimpleAst::Select { t, .. } => t,
            _ => AstIdx(0),
        }
    }
}

/// The numeric operator code of a node shape.
pub open spec fn opcode_of(n: SimpleAst) -> u8 {
    match n {
        SimpleAst::Add { .. } => 1u8,
        SimpleAst::Mul { .. } => 2u8,
        SimpleAst::Pow { .. } => 3u8,
        SimpleAst::And { .. } => 4u8,
        SimpleAst::Or { .. } => 5u8,
        SimpleAst::Xor { .. } => 6u8,
        SimpleAst::Neg { .. } => 7u8,
        SimpleAst::Lshr { .. } => 8u8,
        SimpleAst::Constant { .. } => 9u8,
        SimpleAst::Symbol { .. } => 10u8,
        SimpleAst::Zext { .. } => 11u8,
        SimpleAst::Trunc { .. } => 12u8,
        SimpleAst::Icmp { .. } => 13u8,
        SimpleAst::Select { .. } => 14u8,
    }
}

/// The first operand of a node shape, where one exists.
pub open spec fn op0_of(n: SimpleAst) -> Option<AstIdx> {
    match n {
        SimpleAst::Add { a, .. } => Some(a),
        SimpleAst::Mul { a, .. } => Some(a),
        SimpleAst::Pow { a, .. } => Some(a),
        SimpleAst::And { a, .. } => Some(a),
        SimpleAst::Or { a, .. } => Some(a),
        SimpleAst::Xor { a, .. } => Some(a),
        SimpleAst::Neg { a } => Some(a),
        SimpleAst::Lshr { a, .. } => Some(a),
        SimpleAst::Zext { a, .. } => Some(a),
        SimpleAst::Trunc { a, .. } => Some(a),
        SimpleAst::Icmp { a, .. } => Some(a),
        SimpleAst::Select { c, .. } => Some(c),
        SimpleAst::Constant { .. } => None,
        SimpleAst::Symbol { .. } => None,
    }
}

/// The second operand of a node shape, where one exists.
pub open spec fn op1_of(n: SimpleAst) -> Option<AstIdx> {
    match n {
        SimpleAst::Add { b, .. } => Some(b),
        SimpleAst::Mul { b, .. } => Some(b),
        SimpleAst::Pow { b, .. } => Some(b),
        SimpleAst::And { b, .. } => Some(b),
        SimpleAst::Or { b, .. } => Some(b),
        SimpleAst::Xor { b, .. } => Some(b),
        SimpleAst::Lshr { b, .. } => Some(b),
        SimpleAst::Icmp { b, .. } => Some(b),
        SimpleAst::Select { t, .. } => Some(t),
        _ => None,
    }
}

/// Appending a structurally sound, analysis-sound, fresh node preserves the
/// arena invariants.
pub proof fn lemma_push_preserves(n1: Seq<Entry>, node: SimpleAst, data: AstData)
    requires
        nodes_ok(n1),
        no_dups(n1),
        analysis_sound(n1),
        !contains_node(n1, node),
        node_ok(n1.push((node, data)), n1.len() as int),
        forall|env: Map<u32, u64>| #[trigger]
            data.known_bits.consistent(eval(n1.push((node, data)), n1.len() as int, env)),
    ensures
        nodes_ok(n1.push((node, data))),
        no_dups(n1.push((node, data))),
        analysis_sound(n1.push((node, data))),
{
    let n2 = n1.push((node, data));
    assert forall|i: int| 0 <= i < n2.len() implies #[trigger] node_ok(n2, i) by {
        if i < n1.len() {
            assert(node_ok(n1, i));
            assert(n2[i] == n1[i]);
        }
    }
    assert forall|i: int, j: int| 0 <= i < j < n2.len() implies #[trigger] n2[i].0 != #[trigger] n2[j].0 by {
        if j < n1.len() {
            assert(n1[i].0 != n1[j].0);
        } else {
            assert(n2[j].0 == node);
            assert(!(exists|k: int| 0 <= k < n1.len() && #[trigger] n1[k].0 == node));
            assert(n2[i] == n1[i]);
        }
    }
    assert forall|i: int, env: Map<u32, u64>|
        0 <= i < n2.len() implies #[trigger] n2[i].1.known_bits.consistent(eval(n2, i, env)) by {
        if i < n1.len() {
            lemma_eval_frame(n1, n2, i, env);
            assert(n1[i].1.known_bits.consistent(eval(n1, i, env)));
        } else {
            assert(data.known_bits.consistent(eval(n2, n1.len() as int, env)));
        }
    }
}

} // verus!
