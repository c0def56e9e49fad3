//! Expression nodes, their metadata, and the mathematical meaning of a node
//! stored in an arena: `eval` is the denotation every other module speaks of.
use vstd::prelude::*;

verus! {

use crate::known_bits::{
    add_transfer, and_transfer, constant_transfer, empty_transfer, icmp_transfer, lshr_transfer,
    mul_transfer, neg_transfer, or_transfer, select_transfer, shl_transfer, trunc_transfer,
    xor_transfer, zext_transfer, KnownBits,
};
use crate::{
    add_val, fits, icmp_val, lshr_val, mask_of, mul_val, not_val, select_val, trunc_val, wmul,
    Predicate,
};

/// A unit marker returned where the original interface only signals presence.
#[derive(Debug, Copy, Clone, Hash, PartialEq, Eq, Structural)]
pub struct Empty();

/// Handle of a node in the arena; nodes are append-only, so a handle stays
/// valid until the arena is cleared.
#[derive(Debug, Copy, Clone, Hash, PartialEq, Eq, Structural)]
pub struct AstIdx(pub u32);

/// The shape of an expression node.  Children are arena handles; a child of a
/// well-formed arena always has a smaller handle than its parent.
#[derive(Debug, Copy, Clone, Hash, PartialEq, Eq, Structural)]
pub enum SimpleAst {
    Add { a: AstIdx, b: AstIdx },
    Mul { a: AstIdx, b: AstIdx },
    Pow { a: AstIdx, b: AstIdx },
    And { a: AstIdx, b: AstIdx },
    Or { a: AstIdx, b: AstIdx },
    Xor { a: AstIdx, b: AstIdx },
    Neg { a: AstIdx },
    Lshr { a: AstIdx, b: AstIdx },
    Constant { c: u64, width: u8 },
    Symbol { id: u32, width: u8 },
    Zext { a: AstIdx, to: u8 },
    Trunc { a: AstIdx, to: u8 },
    Icmp { pred: Predicate, a: AstIdx, b: AstIdx },
    Select { c: AstIdx, t: AstIdx, f: AstIdx },
}

/// The mixed boolean-arithmetic classification lattice, ordered from plain
/// bitwise expressions up to arbitrary nonlinear ones.
#[derive(Debug, Copy, Clone, Hash, PartialEq, Eq, Structural)]
pub enum AstClass {
    Bitwise,
    BitwiseWithConstants,
    Linear,
    Semilinear,
    Nonlinear,
}

/// The rank of a class in the lattice order.
pub open spec fn class_rank(c: AstClass) -> int {
    match c {
        AstClass::Bitwise => 0,
        AstClass::BitwiseWithConstants => 1,
        AstClass::Linear => 2,
        AstClass::Semilinear => 3,
        AstClass::Nonlinear => 4,
    }
}

/// The larger of two classes in the lattice order.
pub open spec fn class_join(a: AstClass, b: AstClass) -> AstClass {
    if class_rank(a) >= class_rank(b) {
        a
    } else {
        b
    }
}

fn class_rank_exec(c: AstClass) -> (r: u8)
    ensures
        r == class_rank(c),
{
    match c {
        AstClass::Bitwise => 0,
        AstClass::BitwiseWithConstants => 1,
        AstClass::Linear => 2,
        AstClass::Semilinear => 3,
        AstClass::Nonlinear => 4,
    }
}

/// The largest of three classes in the lattice order.
pub fn max_class(a: AstClass, b: AstClass, c: AstClass) -> (r: AstClass)
    ensures
        r == class_join(class_join(a, b), c),
{
    let ab = if class_rank_exec(a) >= class_rank_exec(b) {
        a
    } else {
        b
    };
    if class_rank_exec(ab) >= class_rank_exec(c) {
        ab
    } else {
        c
    }
}

/// The upgrade a sum or product takes when one operand mixes bitwise work
/// with constants: anything still at or below linear becomes semilinear.
pub open spec fn semilinear_upgrade(m: AstClass, c1: AstClass, c2: AstClass) -> AstClass {
    if class_rank(m) < class_rank(AstClass::Semilinear) && (c1 == AstClass::BitwiseWithConstants
        || c2 == AstClass::BitwiseWithConstants) {
        AstClass::Semilinear
    } else {
        m
    }
}

/// Apply the semilinear upgrade to a joined class.
pub fn try_make_semilinear(max: AstClass, c1: AstClass, c2: AstClass) -> (r: AstClass)
    ensures
        r == semilinear_upgrade(max, c1, c2),
{
    if class_rank_exec(max) < 3 {
        let is_sl = matches!(c1, AstClass::BitwiseWithConstants) || matches!(
            c2,
            AstClass::BitwiseWithConstants,
        );
        if is_sl {
            AstClass::Semilinear
        } else {
            max
        }
    } else {
        max
    }
}

/// The classification of a sum.
pub open spec fn add_class_spec(c1: AstClass, c2: AstClass) -> AstClass {
    semilinear_upgrade(class_join(class_join(c1, c2), AstClass::Linear), c1, c2)
}

/// The classification of a product; a product of two non-constants is
/// nonlinear.
pub open spec fn mul_class_spec(c1: AstClass, c2: AstClass, one_const: bool) -> AstClass {
    semilinear_upgrade(
        class_join(
            class_join(c1, c2),
            if one_const {
                AstClass::Linear
            } else {
                AstClass::Nonlinear
            },
        ),
        c1,
        c2,
    )
}

/// The classification of a bitwise operation: bitwise work stays bitwise,
/// constants make it bitwise-with-constants, anything richer is nonlinear.
pub open spec fn bitwise_class_spec(c1: AstClass, c2: AstClass, has_const: bool) -> AstClass {
    let m = class_join(
        class_join(c1, c2),
        if has_const {
            AstClass::BitwiseWithConstants
        } else {
            AstClass::Bitwise
        },
    );
    if class_rank(m) > class_rank(AstClass::BitwiseWithConstants) {
        AstClass::Nonlinear
    } else {
        m
    }
}

/// The metadata attached to every node: all of it is a pure function of the
/// node's subtree.
#[derive(Debug, Copy, Clone, Hash, PartialEq, Eq, Structural)]
pub struct AstData {
    pub width: u8,
    pub cost: u32,
    pub has_poly: bool,
    pub class: AstClass,
    pub known_bits: KnownBits,
}

/// One arena entry.
pub type Entry = (SimpleAst, AstData);

/// Wrapping 64-bit exponentiation by repeated multiplication.
pub open spec fn wpow(x: u64, y: u64) -> u64
    decreases y,
{
    if y == 0 {
        1u64
    } else {
        wmul(x, wpow(x, (y - 1) as u64))
    }
}

/// Exponentiation modulo two to the `width`.
pub open spec fn pow_val(x: u64, y: u64, width: u32) -> u64 {
    wpow(x, y) & mask_of(width)
}

/// Every child handle of the node is below the node's own position.
pub open spec fn children_lt(n: SimpleAst, i: int) -> bool {
    match n {
        SimpleAst::Add { a, b } => a.0 < i && b.0 < i,
        SimpleAst::Mul { a, b } => a.0 < i && b.0 < i,
        SimpleAst::Pow { a, b } => a.0 < i && b.0 < i,
        SimpleAst::And { a, b } => a.0 < i && b.0 < i,
        SimpleAst::Or { a, b } => a.0 < i && b.0 < i,
        SimpleAst::Xor { a, b } => a.0 < i && b.0 < i,
        SimpleAst::Neg { a } => a.0 < i,
        SimpleAst::Lshr { a, b } => a.0 < i && b.0 < i,
        SimpleAst::Constant { .. } => true,
        SimpleAst::Symbol { .. } => true,
        SimpleAst::Zext { a, .. } => a.0 < i,
        SimpleAst::Trunc { a, .. } => a.0 < i,
        SimpleAst::Icmp { a, b, .. } => a.0 < i && b.0 < i,
        SimpleAst::Select { c, t, f } => c.0 < i && t.0 < i && f.0 < i,
    }
}

/// The denotation of the node at position `i`: the value of the expression,
/// modulo two to its width, for a given assignment of symbol values.
pub open spec fn eval(nodes: Seq<Entry>, i: int, env: Map<u32, u64>) -> u64
    decreases i,
{
    if 0 <= i < nodes.len() {
        let n = nodes[i].0;
        let w = nodes[i].1.width as u32;
        if children_lt(n, i) {
            match n {
                SimpleAst::Constant { c, .. } => c,
                SimpleAst::Symbol { id, .. } => env[id] & mask_of(w),
                SimpleAst::Add { a, b } => add_val(
                    eval(nodes, a.0 as int, env),
                    eval(nodes, b.0 as int, env),
                    w,
                ),
                SimpleAst::Mul { a, b } => mul_val(
                    eval(nodes, a.0 as int, env),
                    eval(nodes, b.0 as int, env),
                    w,
                ),
                SimpleAst::Pow { a, b } => pow_val(
                    eval(nodes, a.0 as int, env),
                    eval(nodes, b.0 as int, env),
                    w,
                ),
                SimpleAst::And { a, b } => eval(nodes, a.0 as int, env) & eval(
                    nodes,
                    b.0 as int,
                    env,
                ),
                SimpleAst::Or { a, b } => eval(nodes, a.0 as int, env) | eval(
                    nodes,
                    b.0 as int,
                    env,
                ),
                SimpleAst::Xor { a, b } => eval(nodes, a.0 as int, env) ^ eval(
                    nodes,
                    b.0 as int,
                    env,
                ),
                SimpleAst::Neg { a } => not_val(eval(nodes, a.0 as int, env), w),
                SimpleAst::Lshr { a, b } => lshr_val(
                    eval(nodes, a.0 as int, env),
                    eval(nodes, b.0 as int, env),
                    w,
                ),
                SimpleAst::Zext { a, .. } => eval(nodes, a.0 as int, env),
                SimpleAst::Trunc { a, .. } => trunc_val(eval(nodes, a.0 as int, env), w),
                SimpleAst::Icmp { pred, a, b } => icmp_val(
                    pred,
                    eval(nodes, a.0 as int, env),
                    eval(nodes, b.0 as int, env),
                    nodes[a.0 as int].1.width as u32,
                ),
                SimpleAst::Select { c, t, f } => select_val(
                    eval(nodes, c.0 as int, env),
                    eval(nodes, t.0 as int, env),
                    eval(nodes, f.0 as int, env),
                ),
            }
        } else {
            0u64
        }
    } else {
        0u64
    }
}

/// The cost a node contributes on top of its children: an estimate of AST
/// size where shifts and nonlinear operators weigh more.
pub open spec fn op_cost(n: SimpleAst) -> u32 {
    match n {
        SimpleAst::Add { .. } => 1u32,
        SimpleAst::Mul { .. } => 1u32,
        SimpleAst::Pow { .. } => 6u32,
        SimpleAst::And { .. } => 1u32,
        SimpleAst::Or { .. } => 1u32,
        SimpleAst::Xor { .. } => 1u32,
        SimpleAst::Neg { .. } => 1u32,
        SimpleAst::Lshr { .. } => 3u32,
        SimpleAst::Constant { .. } => 1u32,
        SimpleAst::Symbol { .. } => 1u32,
        SimpleAst::Zext { .. } => 1u32,
        SimpleAst::Trunc { .. } => 1u32,
        SimpleAst::Icmp { .. } => 6u32,
        SimpleAst::Select { .. } => 6u32,
    }
}

/// The structural constraints on one arena entry: children sit below it,
/// widths agree as the node shape demands, constants are canonical, and the
/// metadata fields equal their defining functions of the children's metadata.
pub open spec fn node_ok(nodes: Seq<Entry>, i: int) -> bool {
    let n = nodes[i].0;
    let d = nodes[i].1;
    &&& children_lt(n, i)
    &&& 1 <= d.width <= 64
    &&& d.known_bits.wf()
    &&& d.known_bits.width == d.width as u32
    &&& match n {
        SimpleAst::Constant { c, width } => {
            &&& d.width == width
            &&& c & mask_of(width as u32) == c
            &&& d.cost == 1
            &&& !d.has_poly
            &&& d.class == AstClass::Bitwise
            &&& d.known_bits.is_const_spec()
            &&& d.known_bits.ones == c
            &&& d.known_bits == constant_transfer(c, width as u32)
        },
        SimpleAst::Symbol { width, .. } => {
            &&& d.width == width
            &&& d.cost == 1
            &&& !d.has_poly
            &&& d.class == AstClass::Bitwise
            &&& d.known_bits == empty_transfer(width as u32)
        },
        SimpleAst::Add { a, b } => bin_meta_ok(
            nodes,
            i,
            a,
            b,
            add_class_spec(nodes[a.0 as int].1.class, nodes[b.0 as int].1.class),
            nodes[a.0 as int].1.has_poly || nodes[b.0 as int].1.has_poly,
            add_transfer(nodes[a.0 as int].1.known_bits, nodes[b.0 as int].1.known_bits),
        ),
        SimpleAst::Mul { a, b } => {
            &&& bin_meta_ok(
                nodes,
                i,
                a,
                b,
                mul_class_spec(
                    nodes[a.0 as int].1.class,
                    nodes[b.0 as int].1.class,
                    is_const_node(nodes[a.0 as int].0) || is_const_node(nodes[b.0 as int].0),
                ),
                !(is_const_node(nodes[a.0 as int].0) || is_const_node(nodes[b.0 as int].0)) || (
                nodes[a.0 as int].1.has_poly || nodes[b.0 as int].1.has_poly),
                mul_transfer(nodes[a.0 as int].1.known_bits, nodes[b.0 as int].1.known_bits),
            )
            &&& const_value(nodes[a.0 as int].0) != Some(0u64)
            &&& const_value(nodes[a.0 as int].0) != Some(1u64)
            &&& const_value(nodes[b.0 as int].0) != Some(0u64)
            &&& const_value(nodes[b.0 as int].0) != Some(1u64)
        },
        SimpleAst::Pow { a, b } => {
            &&& bin_meta_ok(
                nodes,
                i,
                a,
                b,
                AstClass::Nonlinear,
                true,
                empty_transfer(d.width as u32),
            )
            &&& !(is_const_node(nodes[a.0 as int].0) && is_const_node(nodes[b.0 as int].0))
        },
        SimpleAst::And { a, b } => bin_meta_ok(
            nodes,
            i,
            a,
            b,
            bitwise_class_spec(
                nodes[a.0 as int].1.class,
                nodes[b.0 as int].1.class,
                is_const_node(nodes[a.0 as int].0) || is_const_node(nodes[b.0 as int].0),
            ),
            nodes[a.0 as int].1.has_poly || nodes[b.0 as int].1.has_poly,
            and_transfer(nodes[a.0 as int].1.known_bits, nodes[b.0 as int].1.known_bits),
        ),
        SimpleAst::Or { a, b } => bin_meta_ok(
            nodes,
            i,
            a,
            b,
            bitwise_class_spec(
                nodes[a.0 as int].1.class,
                nodes[b.0 as int].1.class,
                is_const_node(nodes[a.0 as int].0) || is_const_node(nodes[b.0 as int].0),
            ),
            nodes[a.0 as int].1.has_poly || nodes[b.0 as int].1.has_poly,
            or_transfer(nodes[a.0 as int].1.known_bits, nodes[b.0 as int].1.known_bits),
        ),
        SimpleAst::Xor { a, b } => bin_meta_ok(
            nodes,
            i,
            a,
            b,
            bitwise_class_spec(
                nodes[a.0 as int].1.class,
                nodes[b.0 as int].1.class,
                is_const_node(nodes[a.0 as int].0) || is_const_node(nodes[b.0 as int].0),
            ),
            nodes[a.0 as int].1.has_poly || nodes[b.0 as int].1.has_poly,
            xor_transfer(nodes[a.0 as int].1.known_bits, nodes[b.0 as int].1.known_bits),
        ),
        SimpleAst::Neg { a } => {
            &&& nodes[a.0 as int].1.width == d.width
            &&& d.cost == op_cost(n).saturating_add(nodes[a.0 as int].1.cost)
            &&& d.has_poly == nodes[a.0 as int].1.has_poly
            &&& d.class == bitwise_class_spec(
                nodes[a.0 as int].1.class,
                AstClass::Bitwise,
                is_const_node(nodes[a.0 as int].0),
            )
            &&& d.known_bits == neg_transfer(nodes[a.0 as int].1.known_bits)
        },
        SimpleAst::Lshr { a, b } => bin_meta_ok(
            nodes,
            i,
            a,
            b,
            AstClass::Nonlinear,
            nodes[a.0 as int].1.has_poly || nodes[b.0 as int].1.has_poly,
            lshr_transfer(nodes[a.0 as int].1.known_bits, nodes[b.0 as int].1.known_bits),
        ),
        SimpleAst::Zext { a, to } => {
            &&& d.width == to
            &&& nodes[a.0 as int].1.width < to
            &&& d.cost == op_cost(n).saturating_add(nodes[a.0 as int].1.cost)
            &&& d.has_poly == nodes[a.0 as int].1.has_poly
            &&& d.class == cast_class_spec(nodes[a.0 as int].1.class)
            &&& !is_const_node(nodes[a.0 as int].0)
            &&& d.known_bits == zext_transfer(nodes[a.0 as int].1.known_bits, to as u32)
        },
        SimpleAst::Trunc { a, to } => {
            &&& d.width == to
            &&& nodes[a.0 as int].1.width > to
            &&& d.cost == op_cost(n).saturating_add(nodes[a.0 as int].1.cost)
            &&& d.has_poly == nodes[a.0 as int].1.has_poly
            &&& d.class == cast_class_spec(nodes[a.0 as int].1.class)
            &&& !is_const_node(nodes[a.0 as int].0)
            &&& d.known_bits == trunc_transfer(nodes[a.0 as int].1.known_bits, to as u32)
        },
        SimpleAst::Icmp { pred, a, b } => {
            &&& d.width == 1
            &&& nodes[a.0 as int].1.width == nodes[b.0 as int].1.width
            &&& d.cost == op_cost(n).saturating_add(
                nodes[a.0 as int].1.cost.saturating_add(nodes[b.0 as int].1.cost),
            )
            &&& d.has_poly == (nodes[a.0 as int].1.has_poly || nodes[b.0 as int].1.has_poly)
            &&& d.class == AstClass::Nonlinear
            &&& d.known_bits == icmp_transfer(
                pred,
                nodes[a.0 as int].1.known_bits,
                nodes[b.0 as int].1.known_bits,
            )
        },
        SimpleAst::Select { c, t, f } => {
            &&& nodes[c.0 as int].1.width == 1
            &&& nodes[t.0 as int].1.width == d.width
            &&& nodes[f.0 as int].1.width == d.width
            &&& d.cost == op_cost(n).saturating_add(
                nodes[c.0 as int].1.cost.saturating_add(
                    nodes[t.0 as int].1.cost.saturating_add(nodes[f.0 as int].1.cost),
                ),
            )
            &&& d.has_poly == (nodes[c.0 as int].1.has_poly || nodes[t.0 as int].1.has_poly
                || nodes[f.0 as int].1.has_poly)
            &&& d.class == AstClass::Nonlinear
            &&& d.known_bits == select_transfer(
                nodes[c.0 as int].1.known_bits,
                nodes[t.0 as int].1.known_bits,
                nodes[f.0 as int].1.known_bits,
            )
        },
    }
}

/// The classification a width cast takes: it keeps bitwise shapes and turns
/// anything richer nonlinear.
pub open spec fn cast_class_spec(c: AstClass) -> AstClass {
    if class_rank(c) <= class_rank(AstClass::BitwiseWithConstants) {
        AstClass::BitwiseWithConstants
    } else {
        AstClass::Nonlinear
    }
}

/// The shared metadata constraints of a width-preserving binary node.
pub open spec fn bin_meta_ok(
    nodes: Seq<Entry>,
    i: int,
    a: AstIdx,
    b: AstIdx,
    class: AstClass,
    has_poly: bool,
    kb: KnownBits,
) -> bool {
    let d = nodes[i].1;
    &&& nodes[a.0 as int].1.width == d.width
    &&& nodes[b.0 as int].1.width == d.width
    &&& d.cost == op_cost(nodes[i].0).saturating_add(
        nodes[a.0 as int].1.cost.saturating_add(nodes[b.0 as int].1.cost),
    )
    &&& d.has_poly == has_poly
    &&& d.class == class
    &&& d.known_bits == kb
}

/// The node is a constant leaf.
pub open spec fn is_const_node(n: SimpleAst) -> bool {
    n is Constant
}

/// The payload of a constant leaf.
pub open spec fn const_value(n: SimpleAst) -> Option<u64> {
    match n {
        SimpleAst::Constant { c, .. } => Some(c),
        _ => None,
    }
}

/// Every entry is structurally sound.
pub open spec fn nodes_ok(nodes: Seq<Entry>) -> bool {
    forall|i: int| 0 <= i < nodes.len() ==> #[trigger] node_ok(nodes, i)
}

/// Hash consing: no two entries hold the same node shape.
pub open spec fn no_dups(nodes: Seq<Entry>) -> bool {
    forall|i: int, j: int| 0 <= i < j < nodes.len() ==> #[trigger] nodes[i].0 != #[trigger] nodes[j].0
}

/// The attached known-bits element of every node is sound for its denotation
/// under every assignment of symbol values.
pub open spec fn analysis_sound(nodes: Seq<Entry>) -> bool {
    forall|i: int, env: Map<u32, u64>|
        0 <= i < nodes.len() ==> #[trigger] nodes[i].1.known_bits.consistent(eval(nodes, i, env))
}

/// The node shape is present somewhere in the arena.
pub open spec fn contains_node(nodes: Seq<Entry>, n: SimpleAst) -> bool {
    exists|j: int| 0 <= j < nodes.len() && #[trigger] nodes[j].0 == n
}

/// The left-to-right XOR of the denotations of a run of handles.
pub open spec fn xor_fold(nodes: Seq<Entry>, xs: Seq<AstIdx>, env: Map<u32, u64>) -> u64
    decreases xs.len(),
{
    if xs.len() == 0 {
        0u64
    } else if xs.len() == 1 {
        eval(nodes, xs[0].0 as int, env)
    } else {
        xor_fold(nodes, xs.drop_last(), env) ^ eval(nodes, xs.last().0 as int, env)
    }
}

/// The second arena extends the first without touching its entries.
pub open spec fn stable_prefix(n1: Seq<Entry>, n2: Seq<Entry>) -> bool {
    &&& n1.len() <= n2.len()
    &&& forall|j: int| 0 <= j < n1.len() ==> n2[j] == #[trigger] n1[j]
}

/// Extending an arena never changes a fold over existing handles.
pub proof fn lemma_xor_fold_frame(
    n1: Seq<Entry>,
    n2: Seq<Entry>,
    xs: Seq<AstIdx>,
    env: Map<u32, u64>,
)
    requires
        stable_prefix(n1, n2),
        forall|k: int| 0 <= k < xs.len() ==> (#[trigger] xs[k]).0 < n1.len(),
    ensures
        xor_fold(n2, xs, env) == xor_fold(n1, xs, env),
    decreases xs.len(),
{
    if xs.len() == 1 {
        lemma_eval_frame(n1, n2, xs[0].0 as int, env);
    } else if xs.len() > 1 {
        lemma_xor_fold_frame(n1, n2, xs.drop_last(), env);
        lemma_eval_frame(n1, n2, xs.last().0 as int, env);
    }
}

/// The subtree behind a position is a linear mixed boolean-arithmetic form:
/// sums, bitwise operations, complements and width casts over leaves, where
/// every product has a constant operand — no exponentiation, shift,
/// comparison or select, and no product of two non-constants.
pub open spec fn linear_shape(nodes: Seq<Entry>, i: int) -> bool
    decreases i,
{
    if 0 <= i < nodes.len() && children_lt(nodes[i].0, i) {
        match nodes[i].0 {
            SimpleAst::Constant { .. } => true,
            SimpleAst::Symbol { .. } => true,
            SimpleAst::Add { a, b } => linear_shape(nodes, a.0 as int) && linear_shape(
                nodes,
                b.0 as int,
            ),
            SimpleAst::Mul { a, b } => (is_const_node(nodes[a.0 as int].0) || is_const_node(
                nodes[b.0 as int].0,
            )) && linear_shape(nodes, a.0 as int) && linear_shape(nodes, b.0 as int),
            SimpleAst::And { a, b } => linear_shape(nodes, a.0 as int) && linear_shape(
                nodes,
                b.0 as int,
            ),
            SimpleAst::Or { a, b } => linear_shape(nodes, a.0 as int) && linear_shape(
                nodes,
                b.0 as int,
            ),
            SimpleAst::Xor { a, b } => linear_shape(nodes, a.0 as int) && linear_shape(
                nodes,
                b.0 as int,
            ),
            SimpleAst::Neg { a } => linear_shape(nodes, a.0 as int),
            SimpleAst::Zext { a, .. } => linear_shape(nodes, a.0 as int),
            SimpleAst::Trunc { a, .. } => linear_shape(nodes, a.0 as int),
            _ => false,
        }
    } else {
        false
    }
}

/// Classification soundness: a node classified at or below linear holds a
/// linear mixed boolean-arithmetic subtree, and in particular no non-linear
/// monomial — no exponentiation and no product of two non-constants.
pub proof fn lemma_class_linear_shape(nodes: Seq<Entry>, i: int)
    requires
        nodes_ok(nodes),
        0 <= i < nodes.len(),
        class_rank(nodes[i].1.class) <= class_rank(AstClass::Linear),
    ensures
        linear_shape(nodes, i),
        !nodes[i].1.has_poly,
    decreases i,
{
    assert(node_ok(nodes, i));
    match nodes[i].0 {
        SimpleAst::Add { a, b } => {
            assert(node_ok(nodes, a.0 as int));
            assert(node_ok(nodes, b.0 as int));
            lemma_class_linear_shape(nodes, a.0 as int);
            lemma_class_linear_shape(nodes, b.0 as int);
        },
        SimpleAst::Mul { a, b } => {
            assert(node_ok(nodes, a.0 as int));
            assert(node_ok(nodes, b.0 as int));
            lemma_class_linear_shape(nodes, a.0 as int);
            lemma_class_linear_shape(nodes, b.0 as int);
        },
        SimpleAst::And { a, b } => {
            lemma_class_linear_shape(nodes, a.0 as int);
            lemma_class_linear_shape(nodes, b.0 as int);
        },
        SimpleAst::Or { a, b } => {
            lemma_class_linear_shape(nodes, a.0 as int);
            lemma_class_linear_shape(nodes, b.0 as int);
        },
        SimpleAst::Xor { a, b } => {
            lemma_class_linear_shape(nodes, a.0 as int);
            lemma_class_linear_shape(nodes, b.0 as int);
        },
        SimpleAst::Neg { a } => {
            lemma_class_linear_shape(nodes, a.0 as int);
        },
        SimpleAst::Zext { a, .. } => {
            lemma_class_linear_shape(nodes, a.0 as int);
        },
        SimpleAst::Trunc { a, .. } => {
            lemma_class_linear_shape(nodes, a.0 as int);
        },
        _ => {},
    }
}

/// Extending an arena never changes the denotation of an existing node.
pub proof fn lemma_eval_frame(n1: Seq<Entry>, n2: Seq<Entry>, i: int, env: Map<u32, u64>)
    requires
        n1.len() <= n2.len(),
        forall|j: int| 0 <= j < n1.len() ==> n2[j] == #[trigger] n1[j],
        0 <= i < n1.len(),
    ensures
        eval(n2, i, env) == eval(n1, i, env),
    decreases i,
{
    let n = n1[i].0;
    if children_lt(n, i) {
        match n {
            SimpleAst::Add { a, b } => {
                lemma_eval_frame(n1, n2, a.0 as int, env);
                lemma_eval_frame(n1, n2, b.0 as int, env);
            },
            SimpleAst::Mul { a, b } => {
                lemma_eval_frame(n1, n2, a.0 as int, env);
                lemma_eval_frame(n1, n2, b.0 as int, env);
            },
            SimpleAst::Pow { a, b } => {
                lemma_eval_frame(n1, n2, a.0 as int, env);
                lemma_eval_frame(n1, n2, b.0 as int, env);
            },
            SimpleAst::And { a, b } => {
                lemma_eval_frame(n1, n2, a.0 as int, env);
                lemma_eval_frame(n1, n2, b.0 as int, env);
            },
            SimpleAst::Or { a, b } => {
                lemma_eval_frame(n1, n2, a.0 as int, env);
                lemma_eval_frame(n1, n2, b.0 as int, env);
            },
            SimpleAst::Xor { a, b } => {
                lemma_eval_frame(n1, n2, a.0 as int, env);
                lemma_eval_frame(n1, n2, b.0 as int, env);
            },
            SimpleAst::Neg { a } => {
                lemma_eval_frame(n1, n2, a.0 as int, env);
            },
            SimpleAst::Lshr { a, b } => {
                lemma_eval_frame(n1, n2, a.0 as int, env);
                lemma_eval_frame(n1, n2, b.0 as int, env);
            },
            SimpleAst::Constant { .. } => {},
            SimpleAst::Symbol { .. } => {},
            SimpleAst::Zext { a, .. } => {
                lemma_eval_frame(n1, n2, a.0 as int, env);
            },
            SimpleAst::Trunc { a, .. } => {
                lemma_eval_frame(n1, n2, a.0 as int, env);
            },
            SimpleAst::Icmp { a, b, .. } => {
                lemma_eval_frame(n1, n2, a.0 as int, env);
                lemma_eval_frame(n1, n2, b.0 as int, env);
            },
            SimpleAst::Select { c, t, f } => {
                lemma_eval_frame(n1, n2, c.0 as int, env);
                lemma_eval_frame(n1, n2, t.0 as int, env);
                lemma_eval_frame(n1, n2, f.0 as int, env);
            },
        }
    }
}

/// The denotation of a structurally sound node fits its width.
pub proof fn lemma_eval_fits(nodes: Seq<Entry>, i: int, env: Map<u32, u64>)
    requires
        nodes_ok(nodes),
        0 <= i < nodes.len(),
    ensures
        fits(eval(nodes, i, env), nodes[i].1.width as u32),
    decreases i,
{
    let n = nodes[i].0;
    let w = nodes[i].1.width as u32;
    assert(node_ok(nodes, i));
    lemma_masked_fits();
    match n {
        SimpleAst::Constant { c, width } => {
            assert(fits(c, w));
        },
        SimpleAst::Zext { a, .. } => {
            lemma_eval_fits(nodes, a.0 as int, env);
            assert(node_ok(nodes, a.0 as int));
        },
        SimpleAst::And { a, b } => {
            lemma_eval_fits(nodes, a.0 as int, env);
            lemma_eval_fits(nodes, b.0 as int, env);
        },
        SimpleAst::Or { a, b } => {
            lemma_eval_fits(nodes, a.0 as int, env);
            lemma_eval_fits(nodes, b.0 as int, env);
        },
        SimpleAst::Xor { a, b } => {
            lemma_eval_fits(nodes, a.0 as int, env);
            lemma_eval_fits(nodes, b.0 as int, env);
        },
        SimpleAst::Select { c, t, f } => {
            lemma_eval_fits(nodes, t.0 as int, env);
            lemma_eval_fits(nodes, f.0 as int, env);
        },
        SimpleAst::Icmp { pred, a, b } => {
            let x = eval(nodes, a.0 as int, env);
            let y = eval(nodes, b.0 as int, env);
            let cw = nodes[a.0 as int].1.width as u32;
            let v = icmp_val(pred, x, y, cw);
            assert(v == 0 || v == 1);
        },
        _ => {},
    }
}

/// Common bit-level facts about masking, shared by the denotation lemmas and
/// the arena builders.
pub proof fn lemma_masked_fits()
    by (bit_vector)
    ensures
        forall|v: u64, m: u64| #[trigger] ((v & m) & m) == v & m,
        forall|w: u32| 0u64 & mask_of(w) == 0,
        forall|w: u32| 1 <= w <= 64 ==> 1u64 & #[trigger] mask_of(w) == 1,
        forall|v: u64, m: u64| #[trigger] (v & m) & !m == 0,
        forall|x: u64, cw: u32, w: u32|
            #![trigger x & mask_of(cw), mask_of(w)]
            (x & mask_of(cw) == x && 1 <= cw < w <= 64) ==> x & mask_of(w) == x,
        forall|x: u64, y: u64, m: u64|
            (x & m == x) ==> (#[trigger] ((x & y) & m)) == (x & y),
        forall|x: u64, y: u64, m: u64|
            (x & m == x && y & m == y) ==> (#[trigger] ((x | y) & m)) == (x | y),
        forall|x: u64, y: u64, m: u64|
            (x & m == x && y & m == y) ==> (#[trigger] ((x ^ y) & m)) == (x ^ y),
        forall|x: u64, y: u64, w: u32| #[trigger]
            (lshr_val(x, y, w) & mask_of(w)) == lshr_val(x, y, w),
        forall|v: u64| (v == 0 || v == 1) ==> (#[trigger] (v & mask_of(1))) == v,
{
}

/// Multiplying by zero or one wraps to the expected value.
pub proof fn lemma_mul_units()
    by (bit_vector)
    ensures
        forall|y: u64| (#[trigger] ((1u64 * y) as u64)) == y,
        forall|y: u64| (#[trigger] ((y * 1u64) as u64)) == y,
        forall|y: u64| (#[trigger] ((0u64 * y) as u64)) == 0,
        forall|y: u64| (#[trigger] ((y * 0u64) as u64)) == 0,
        forall|m: u64| (#[trigger] (0u64 & m)) == 0,
{
}

} // verus!
