//! A bit-level abstract interpreter: each value of `KnownBits` records, for a
//! value of some bit width, which bits are known to be zero and which are
//! known to be one.  Every transfer function carries its soundness statement:
//! any concrete operands consistent with the inputs give a result consistent
//! with the output.
use vstd::prelude::*;

verus! {

use crate::{add_val, fits, mask_of, mul_val, not_val, sub_val, Predicate};

/// A known-bits lattice element: within the low `width` bits, a bit set in
/// `zeroes` is known to be zero, a bit set in `ones` known to be one, and a
/// bit set in neither is unknown.
#[derive(Debug, Copy, Clone, Hash, PartialEq, Eq, Structural)]
pub struct KnownBits {
    pub width: u32,
    pub zeroes: u64,
    pub ones: u64,
}

/// The transfer functions of the abstract interpreter, named so that callers
/// can dispatch on an operator code.
#[derive(Debug, Copy, Clone, PartialEq, Eq, Structural)]
pub enum KnownBitsTransferOpcode {
    Add,
    Mul,
    Shl,
    And,
    Or,
    Xor,
    Neg,
}

/// The largest low mask (a value of shape 2^t - 1) whose bits all lie in
/// `v`, reached by growing from the empty mask one bit at a time.
pub open spec fn low_mask_rec(v: u64, m: u64, fuel: nat) -> u64
    decreases fuel,
{
    if fuel == 0 {
        m
    } else if m != 0xffff_ffff_ffff_ffffu64 && v & crate::wadd(m, 1) != 0 {
        low_mask_rec(v, (m << 1u64) | 1, (fuel - 1) as nat)
    } else {
        m
    }
}

/// The trailing-ones mask of a value.
pub open spec fn low_mask_of(v: u64) -> u64 {
    low_mask_rec(v, 0, 64)
}

/// The element of a constant, as a value.
pub open spec fn constant_transfer(c: u64, width: u32) -> KnownBits {
    KnownBits { width, zeroes: !c & mask_of(width), ones: c & mask_of(width) }
}

/// The all-unknown element, as a value.
pub open spec fn empty_transfer(width: u32) -> KnownBits {
    KnownBits { width, zeroes: 0, ones: 0 }
}

/// What the addition transfer returns: the sum is pinned on the low bits
/// where both operands are fully known.
pub open spec fn add_transfer(lhs: KnownBits, rhs: KnownBits) -> KnownBits {
    let m = low_mask_of((lhs.zeroes | lhs.ones) & (rhs.zeroes | rhs.ones));
    let s = crate::wadd(lhs.ones, rhs.ones);
    KnownBits { width: lhs.width, zeroes: !s & m, ones: s & m }
}

/// What the subtraction transfer returns.
pub open spec fn sub_transfer(lhs: KnownBits, rhs: KnownBits) -> KnownBits {
    let m = low_mask_of((lhs.zeroes | lhs.ones) & (rhs.zeroes | rhs.ones));
    let s = (lhs.ones + !rhs.ones + 1) as u64;
    KnownBits { width: lhs.width, zeroes: !s & m, ones: s & m }
}

/// What the multiplication transfer returns: a folded constant when both
/// operands are pinned, else the trailing zeroes of either operand.
pub open spec fn mul_transfer(lhs: KnownBits, rhs: KnownBits) -> KnownBits {
    if lhs.is_const_spec() && rhs.is_const_spec() {
        constant_transfer((lhs.ones * rhs.ones) as u64, lhs.width)
    } else {
        KnownBits {
            width: lhs.width,
            zeroes: low_mask_of(lhs.zeroes) | low_mask_of(rhs.zeroes),
            ones: 0,
        }
    }
}

/// What the AND transfer returns.
pub open spec fn and_transfer(lhs: KnownBits, rhs: KnownBits) -> KnownBits {
    KnownBits { width: lhs.width, zeroes: lhs.zeroes | rhs.zeroes, ones: lhs.ones & rhs.ones }
}

/// What the OR transfer returns.
pub open spec fn or_transfer(lhs: KnownBits, rhs: KnownBits) -> KnownBits {
    KnownBits { width: lhs.width, zeroes: lhs.zeroes & rhs.zeroes, ones: lhs.ones | rhs.ones }
}

/// What the XOR transfer returns.
pub open spec fn xor_transfer(lhs: KnownBits, rhs: KnownBits) -> KnownBits {
    KnownBits {
        width: lhs.width,
        zeroes: (lhs.zeroes & rhs.zeroes) | (lhs.ones & rhs.ones),
        ones: (lhs.ones & rhs.zeroes) | (lhs.zeroes & rhs.ones),
    }
}

/// What the complement transfer returns: the masks swap roles.
pub open spec fn neg_transfer(lhs: KnownBits) -> KnownBits {
    KnownBits { width: lhs.width, zeroes: lhs.ones, ones: lhs.zeroes }
}

/// What the left-shift transfer returns.
pub open spec fn shl_transfer(lhs: KnownBits, rhs: KnownBits) -> KnownBits {
    if rhs.is_const_spec() {
        let c = rhs.ones;
        if c >= lhs.width as u64 {
            constant_transfer(0, lhs.width)
        } else {
            KnownBits {
                width: lhs.width,
                zeroes: ((lhs.zeroes << c) | (((1u64 << c) - 1) as u64)) & mask_of(lhs.width),
                ones: (lhs.ones << c) & mask_of(lhs.width),
            }
        }
    } else {
        empty_transfer(lhs.width)
    }
}

/// What the right-shift transfer returns.
pub open spec fn lshr_transfer(lhs: KnownBits, rhs: KnownBits) -> KnownBits {
    if rhs.is_const_spec() {
        let c = rhs.ones;
        if c >= lhs.width as u64 {
            constant_transfer(0, lhs.width)
        } else {
            KnownBits {
                width: lhs.width,
                zeroes: (lhs.zeroes >> c) | (mask_of(lhs.width) & !(mask_of(lhs.width) >> c)),
                ones: lhs.ones >> c,
            }
        }
    } else {
        empty_transfer(lhs.width)
    }
}

/// What the zero-extension transfer returns.
pub open spec fn zext_transfer(lhs: KnownBits, width: u32) -> KnownBits {
    KnownBits {
        width,
        zeroes: lhs.zeroes | (mask_of(width) & !mask_of(lhs.width)),
        ones: lhs.ones,
    }
}

/// What the truncation transfer returns.
pub open spec fn trunc_transfer(lhs: KnownBits, width: u32) -> KnownBits {
    KnownBits { width, zeroes: lhs.zeroes & mask_of(width), ones: lhs.ones & mask_of(width) }
}

/// What the comparison transfer returns.
pub open spec fn icmp_transfer(pred: Predicate, lhs: KnownBits, rhs: KnownBits) -> KnownBits {
    if lhs.is_const_spec() && rhs.is_const_spec() {
        constant_transfer(crate::icmp_val(pred, lhs.ones, rhs.ones, lhs.width), 1)
    } else {
        empty_transfer(1)
    }
}

/// What the select transfer returns.
pub open spec fn select_transfer(cond: KnownBits, t: KnownBits, f: KnownBits) -> KnownBits {
    if cond.is_const_spec() {
        if cond.ones == 1 {
            t
        } else {
            f
        }
    } else {
        KnownBits { width: t.width, zeroes: t.zeroes & f.zeroes, ones: t.ones & f.ones }
    }
}

impl KnownBits {
    /// Well-formed: the width is in range, both masks lie within the width,
    /// and no bit is claimed to be both zero and one.
    pub open spec fn wf(self) -> bool {
        &&& 1 <= self.width <= 64
        &&& self.zeroes & self.ones == 0
        &&& self.zeroes & !mask_of(self.width) == 0
        &&& self.ones & !mask_of(self.width) == 0
    }

    /// A concrete value is consistent with the element when it fits the
    /// width, avoids every known-zero bit and has every known-one bit.
    pub open spec fn consistent(self, x: u64) -> bool {
        &&& fits(x, self.width)
        &&& x & self.zeroes == 0
        &&& self.ones & !x == 0
    }

    /// The bits of the width about which nothing is known.
    pub open spec fn unknown_spec(self) -> u64 {
        !(self.zeroes | self.ones) & mask_of(self.width)
    }

    /// The element pins every bit of the width.
    pub open spec fn is_const_spec(self) -> bool {
        self.unknown_spec() == 0
    }

    pub fn new(width: u8, zeroes: u64, ones: u64) -> (r: KnownBits)
        requires
            1 <= width <= 64,
            zeroes & ones == 0,
            zeroes & !mask_of(width as u32) == 0,
            ones & !mask_of(width as u32) == 0,
        ensures
            r.wf(),
            r.width == width,
            r.zeroes == zeroes,
            r.ones == ones,
            
    {
        KnownBits { width: width as u32, zeroes, ones }
    }

    /// The element with every bit of the width unknown; it is consistent with
    /// every value of the width.
    pub fn empty(width: u8) -> (r: KnownBits)
        requires
            1 <= width <= 64,
        ensures
            r.wf(),
            r.width == width,
            r.zeroes == 0,
            r.ones == 0,
            forall|x: u64| fits(x, width as u32) ==> r.consistent(x),
            r == empty_transfer(width as u32),
    {
        let r = KnownBits { width: width as u32, zeroes: 0, ones: 0 };
        proof {
            ax_empty(width as u32, 0);
            assert forall|x: u64| fits(x, width as u32) implies r.consistent(x) by {
                ax_empty(width as u32, x);
            }
        }
        r
    }

    /// The element of a constant: it is consistent with exactly the constant
    /// reduced modulo two to the width.
    pub fn constant(c: u64, width: u8) -> (r: KnownBits)
        requires
            1 <= width <= 64,
        ensures
            r.wf(),
            r.width == width,
            r.is_const_spec(),
            r.ones == c & mask_of(width as u32),
            forall|x: u64| r.consistent(x) <==> x == c & mask_of(width as u32),
            r == constant_transfer(c, width as u32),
    {
        let mask = crate::get_modulo_mask(width);
        let r = KnownBits { width: width as u32, zeroes: !c & mask, ones: c & mask };
        proof {
            ax_constant(c, mask, 0);
            assert forall|x: u64| r.consistent(x) <==> x == c & mask by {
                ax_constant(c, mask, x);
            }
        }
        r
    }

    /// The join used by an e-class merge: union both masks.  Any value
    /// consistent with both arguments is consistent with the union.
    pub fn union(&self, other: &KnownBits) -> (r: KnownBits)
        ensures
            r.width == self.width,
            r.zeroes == self.zeroes | other.zeroes,
            r.ones == self.ones | other.ones,
            forall|x: u64|
                self.consistent(x) && other.consistent(x) ==> #[trigger] r.consistent(x),
    {
        let r = KnownBits {
            width: self.width,
            zeroes: self.zeroes | other.zeroes,
            ones: self.ones | other.ones,
        };
        proof {
            let sz = self.zeroes;
            let so = self.ones;
            let oz = other.zeroes;
            let oo = other.ones;
            assert forall|x: u64|
                self.consistent(x) && other.consistent(x) implies #[trigger] r.consistent(x) by {
                assert((x & sz == 0 && x & oz == 0 && so & !x == 0 && oo & !x == 0) ==> (x & (sz
                    | oz) == 0 && (so | oo) & !x == 0)) by (bit_vector);
            }
        }
        r
    }

    /// The mask of unknown bits within the width.
    pub fn get_unknown_bits(&self) -> (r: u64)
        requires
            self.wf(),
        ensures
            r == self.unknown_spec(),
    {
        (!(self.zeroes | self.ones)) & crate::get_modulo_mask(self.width as u8)
    }

    /// True when every bit of the width is known.
    pub fn is_constant(&self) -> (r: bool)
        requires
            self.wf(),
        ensures
            r == self.is_const_spec(),
    {
        self.get_unknown_bits() == 0
    }

    /// The pinned value when every bit is known; a constant element is
    /// consistent only with its `ones` mask.
    pub fn as_constant(&self) -> (r: Option<u64>)
        requires
            self.wf(),
        ensures
            r == if self.is_const_spec() {
                Some(self.ones)
            } else {
                None::<u64>
            },
            self.is_const_spec() ==> forall|x: u64| self.consistent(x) ==> x == self.ones,
    {
        proof {
            if self.is_const_spec() {
                lemma_const_value(*self);
            }
        }
        if self.is_constant() {
            Some(self.ones)
        } else {
            None
        }
    }

    /// Bitwise AND transfer.  Sound: `x & y` is consistent with the result
    /// whenever `x` and `y` are consistent with the inputs.
    pub fn and(lhs: &KnownBits, rhs: &KnownBits) -> (r: KnownBits)
        requires
            lhs.wf(),
            rhs.wf(),
            lhs.width == rhs.width,
        ensures
            r.wf(),
            r.width == lhs.width,
            r == and_transfer(*lhs, *rhs),
            forall|x: u64, y: u64|
                lhs.consistent(x) && rhs.consistent(y) ==> #[trigger] r.consistent(x & y),
    {
        let r = KnownBits {
            width: lhs.width,
            zeroes: lhs.zeroes | rhs.zeroes,
            ones: lhs.ones & rhs.ones,
        };
        proof {
            let lz = lhs.zeroes;
            let lo = lhs.ones;
            let rz = rhs.zeroes;
            let ro = rhs.ones;
            let w = lhs.width;
            assert((lz & lo == 0 && rz & ro == 0 && lz & !mask_of(w) == 0 && rz & !mask_of(w) == 0
                && lo & !mask_of(w) == 0 && ro & !mask_of(w) == 0) ==> ((lz | rz) & (lo & ro) == 0
                && (lz | rz) & !mask_of(w) == 0 && (lo & ro) & !mask_of(w) == 0)) by (bit_vector);
            assert forall|x: u64, y: u64|
                lhs.consistent(x) && rhs.consistent(y) implies #[trigger] r.consistent(x & y) by {
                assert((x & mask_of(w) == x && y & mask_of(w) == y && x & lz == 0 && lo & !x == 0
                    && y & rz == 0 && ro & !y == 0) ==> ((x & y) & mask_of(w) == (x & y) && (x & y)
                    & (lz | rz) == 0 && (lo & ro) & !(x & y) == 0)) by (bit_vector);
            }
        }
        r
    }

    /// Bitwise OR transfer.
    pub fn or(lhs: &KnownBits, rhs: &KnownBits) -> (r: KnownBits)
        requires
            lhs.wf(),
            rhs.wf(),
            lhs.width == rhs.width,
        ensures
            r.wf(),
            r.width == lhs.width,
            r == or_transfer(*lhs, *rhs),
            forall|x: u64, y: u64|
                lhs.consistent(x) && rhs.consistent(y) ==> #[trigger] r.consistent(x | y),
    {
        let r = KnownBits {
            width: lhs.width,
            zeroes: lhs.zeroes & rhs.zeroes,
            ones: lhs.ones | rhs.ones,
        };
        proof {
            let lz = lhs.zeroes;
            let lo = lhs.ones;
            let rz = rhs.zeroes;
            let ro = rhs.ones;
            let w = lhs.width;
            assert((lz & lo == 0 && rz & ro == 0 && lz & !mask_of(w) == 0 && lo & !mask_of(w) == 0
                && ro & !mask_of(w) == 0) ==> ((lz & rz) & (lo | ro) == 0 && (lz & rz) & !mask_of(w)
                == 0 && (lo | ro) & !mask_of(w) == 0)) by (bit_vector);
            assert forall|x: u64, y: u64|
                lhs.consistent(x) && rhs.consistent(y) implies #[trigger] r.consistent(x | y) by {
                assert((x & mask_of(w) == x && y & mask_of(w) == y && x & lz == 0 && lo & !x == 0
                    && y & rz == 0 && ro & !y == 0) ==> ((x | y) & mask_of(w) == (x | y) && (x | y)
                    & (lz & rz) == 0 && (lo | ro) & !(x | y) == 0)) by (bit_vector);
            }
        }
        r
    }

    /// Bitwise XOR transfer.
    pub fn xor(lhs: &KnownBits, rhs: &KnownBits) -> (r: KnownBits)
        requires
            lhs.wf(),
            rhs.wf(),
            lhs.width == rhs.width,
        ensures
            r.wf(),
            r.width == lhs.width,
            r == xor_transfer(*lhs, *rhs),
            forall|x: u64, y: u64|
                lhs.consistent(x) && rhs.consistent(y) ==> #[trigger] r.consistent(x ^ y),
    {
        let r = KnownBits {
            width: lhs.width,
            zeroes: (lhs.zeroes & rhs.zeroes) | (lhs.ones & rhs.ones),
            ones: (lhs.ones & rhs.zeroes) | (lhs.zeroes & rhs.ones),
        };
        proof {
            let lz = lhs.zeroes;
            let lo = lhs.ones;
            let rz = rhs.zeroes;
            let ro = rhs.ones;
            let w = lhs.width;
            assert((lz & lo == 0 && rz & ro == 0 && lz & !mask_of(w) == 0 && lo & !mask_of(w) == 0
                && rz & !mask_of(w) == 0 && ro & !mask_of(w) == 0) ==> ((((lz & rz) | (lo & ro)) & (
            (lo & rz) | (lz & ro))) == 0 && ((lz & rz) | (lo & ro)) & !mask_of(w) == 0 && ((lo & rz)
                | (lz & ro)) & !mask_of(w) == 0)) by (bit_vector);
            assert forall|x: u64, y: u64|
                lhs.consistent(x) && rhs.consistent(y) implies #[trigger] r.consistent(x ^ y) by {
                assert((x & mask_of(w) == x && y & mask_of(w) == y && x & lz == 0 && lo & !x == 0
                    && y & rz == 0 && ro & !y == 0) ==> ((x ^ y) & mask_of(w) == (x ^ y) && (x ^ y)
                    & ((lz & rz) | (lo & ro)) == 0 && ((lo & rz) | (lz & ro)) & !(x ^ y) == 0))
                    by (bit_vector);
            }
        }
        r
    }

    /// Bitwise complement transfer: the two masks swap roles.
    pub fn neg(lhs: &KnownBits) -> (r: KnownBits)
        requires
            lhs.wf(),
        ensures
            r.wf(),
            r.width == lhs.width,
            r == neg_transfer(*lhs),
            forall|x: u64|
                lhs.consistent(x) ==> #[trigger] r.consistent(not_val(x, lhs.width)),
    {
        let r = KnownBits { width: lhs.width, zeroes: lhs.ones, ones: lhs.zeroes };
        proof {
            let lz = lhs.zeroes;
            let lo = lhs.ones;
            let w = lhs.width;
            assert((lz & lo == 0) ==> (lo & lz == 0)) by (bit_vector);
            assert forall|x: u64| lhs.consistent(x) implies #[trigger] r.consistent(
                not_val(x, w),
            ) by {
                assert((x & mask_of(w) == x && x & lz == 0 && lo & !x == 0 && lz & !mask_of(w) == 0)
                    ==> ((!x & mask_of(w)) & mask_of(w) == (!x & mask_of(w)) && (!x & mask_of(w))
                    & lo == 0 && lz & !(!x & mask_of(w)) == 0)) by (bit_vector);
            }
        }
        r
    }
}

/// A low mask: a value of the shape 2^t - 1.
pub open spec fn is_low_mask(m: u64) -> bool {
    m & crate::wadd(m, 1) == 0
}

/// The largest low mask whose bits all lie in `v`.
fn trailing_mask(v: u64) -> (m: u64)
    ensures
        m == low_mask_of(v),
        is_low_mask(m),
        m & !v == 0,
{
    proof {
        ax_low_mask(v, 0);
    }
    trailing_from(v, 0, 64)
}

/// Grow a low mask through `v` one bit at a time, for at most `fuel` steps.
fn trailing_from(v: u64, m: u64, fuel: u64) -> (r: u64)
    requires
        is_low_mask(m),
        m & !v == 0,
    ensures
        r == low_mask_rec(v, m, fuel as nat),
        is_low_mask(r),
        r & !v == 0,
    decreases fuel,
{
    if fuel == 0 {
        m
    } else if m != u64::MAX && (v & (m + 1)) != 0 {
        proof {
            ax_low_mask(v, m);
        }
        trailing_from(v, (m << 1u64) | 1, fuel - 1)
    } else {
        m
    }
}

/// Growing a low mask through `v` by one bit keeps it a low mask in `v`.
proof fn ax_low_mask(v: u64, m: u64)
    by (bit_vector)
    ensures
        0u64 & crate::wadd(0, 1) == 0,
        0u64 & !v == 0,
        (m & crate::wadd(m, 1) == 0 && m & !v == 0 && m != 0xffff_ffff_ffff_ffffu64 && v
            & crate::wadd(m, 1) != 0) ==> (((m << 1u64) | 1) & crate::wadd((m << 1u64) | 1, 1) == 0
            && ((m << 1u64) | 1) & !v == 0),
{
}

impl KnownBits {
    /// Addition transfer: the sum is pinned on the low bits where both
    /// operands are fully known, since no carry from above reaches them.
    pub fn add(lhs: &KnownBits, rhs: &KnownBits) -> (r: KnownBits)
        requires
            lhs.wf(),
            rhs.wf(),
            lhs.width == rhs.width,
        ensures
            r.wf(),
            r.width == lhs.width,
            r == add_transfer(*lhs, *rhs),
            forall|x: u64, y: u64|
                lhs.consistent(x) && rhs.consistent(y) ==> #[trigger] r.consistent(
                    add_val(x, y, lhs.width),
                ),
    {
        let known = (lhs.zeroes | lhs.ones) & (rhs.zeroes | rhs.ones);
        let m = trailing_mask(known);
        let s: u64 = ((lhs.ones as u128 + rhs.ones as u128) & 0xffff_ffff_ffff_ffffu128) as u64;
        let r = KnownBits { width: lhs.width, zeroes: !s & m, ones: s & m };
        proof {
            let lz = lhs.zeroes;
            let lo = lhs.ones;
            let rz = rhs.zeroes;
            let ro = rhs.ones;
            let w = lhs.width;
            ax_add(lz, lo, rz, ro, w, m, s, 0, 0);
            assert forall|x: u64, y: u64|
                lhs.consistent(x) && rhs.consistent(y) implies #[trigger] r.consistent(
                add_val(x, y, w),
            ) by {
                ax_add(lz, lo, rz, ro, w, m, s, x, y);
            }
        }
        r
    }

    /// Subtraction transfer, through the complement of the subtrahend.
    pub fn sub(lhs: &KnownBits, rhs: &KnownBits) -> (r: KnownBits)
        requires
            lhs.wf(),
            rhs.wf(),
            lhs.width == rhs.width,
        ensures
            r.wf(),
            r.width == lhs.width,
            r == sub_transfer(*lhs, *rhs),
            forall|x: u64, y: u64|
                lhs.consistent(x) && rhs.consistent(y) ==> #[trigger] r.consistent(
                    sub_val(x, y, lhs.width),
                ),
    {
        let known = (lhs.zeroes | lhs.ones) & (rhs.zeroes | rhs.ones);
        let m = trailing_mask(known);
        let s: u64 = ((lhs.ones as u128 + (!rhs.ones) as u128 + 1) & 0xffff_ffff_ffff_ffffu128)
            as u64;
        let r = KnownBits { width: lhs.width, zeroes: !s & m, ones: s & m };
        proof {
            let lz = lhs.zeroes;
            let lo = lhs.ones;
            let rz = rhs.zeroes;
            let ro = rhs.ones;
            let w = lhs.width;
            ax_sub(lz, lo, rz, ro, w, m, s, 0, 0);
            assert forall|x: u64, y: u64|
                lhs.consistent(x) && rhs.consistent(y) implies #[trigger] r.consistent(
                sub_val(x, y, w),
            ) by {
                ax_sub(lz, lo, rz, ro, w, m, s, x, y);
            }
        }
        r
    }

    /// Multiplication transfer: a product of two fully known operands is
    /// pinned; otherwise the trailing zero bits of either operand are kept as
    /// known zeroes of the product.
    pub fn mul(lhs: &KnownBits, rhs: &KnownBits) -> (r: KnownBits)
        requires
            lhs.wf(),
            rhs.wf(),
            lhs.width == rhs.width,
        ensures
            r.wf(),
            r.width == lhs.width,
            r == mul_transfer(*lhs, *rhs),
            forall|x: u64, y: u64|
                lhs.consistent(x) && rhs.consistent(y) ==> #[trigger] r.consistent(
                    mul_val(x, y, lhs.width),
                ),
    {
        let w = lhs.width;
        if lhs.is_constant() && rhs.is_constant() {
            proof {
                assert((lhs.ones as int) * (rhs.ones as int) < 0x1_0000_0000_0000_0000_0000_0000_0000_0000int)
                    by (nonlinear_arith)
                    requires
                        lhs.ones <= 0xffff_ffff_ffff_ffffu64,
                        rhs.ones <= 0xffff_ffff_ffff_ffffu64,
                ;
            }
            let p: u64 = ((lhs.ones as u128 * rhs.ones as u128) & 0xffff_ffff_ffff_ffffu128)
                as u64;
            let r = Self::constant(p, w as u8);
            proof {
                let lo = lhs.ones;
                let ro = rhs.ones;
                lemma_const_value(*lhs);
                lemma_const_value(*rhs);
                assert((((lo as u128 * ro as u128) as u128) & 0xffff_ffff_ffff_ffffu128) as u64 == (lo
                    * ro) as u64) by (bit_vector);
                assert forall|x: u64, y: u64|
                    lhs.consistent(x) && rhs.consistent(y) implies #[trigger] r.consistent(
                    mul_val(x, y, w),
                ) by {
                    assert(x == lo && y == ro);
                    assert(((lo * ro) as u64 & mask_of(w)) == (p & mask_of(w)));
                }
            }
            r
        } else {
            let ml = trailing_mask(lhs.zeroes);
            let mr = trailing_mask(rhs.zeroes);
            let r = KnownBits { width: w, zeroes: ml | mr, ones: 0 };
            proof {
                let lz = lhs.zeroes;
                let lo = lhs.ones;
                let rz = rhs.zeroes;
                let ro = rhs.ones;
                ax_mul_tz(lz, rz, w, ml, mr, 0, 0);
                assert forall|x: u64, y: u64|
                    lhs.consistent(x) && rhs.consistent(y) implies #[trigger] r.consistent(
                    mul_val(x, y, w),
                ) by {
                    ax_mul_tz(lz, rz, w, ml, mr, x, y);
                }
            }
            r
        }
    }
}

impl KnownBits {
    /// Left-shift transfer: a known shift amount moves both masks and makes
    /// the vacated low bits known zero; an unknown amount gives no knowledge.
    pub fn shl(lhs: &KnownBits, rhs: &KnownBits) -> (r: KnownBits)
        requires
            lhs.wf(),
            rhs.wf(),
            lhs.width == rhs.width,
        ensures
            r.wf(),
            r.width == lhs.width,
            r == shl_transfer(*lhs, *rhs),
            forall|x: u64, y: u64|
                lhs.consistent(x) && rhs.consistent(y) ==> #[trigger] r.consistent(
                    crate::shl_val(x, y, lhs.width),
                ),
    {
        let w = lhs.width;
        if rhs.is_constant() {
            let c = rhs.ones;
            proof {
                lemma_const_value(*rhs);
            }
            if c >= w as u64 {
                let r = Self::constant(0, w as u8);
                proof {
                    ax_shl(0, 0, w, 0, 0, 0);
                }
                r
            } else {
                let mask = crate::get_modulo_mask(w as u8);
                proof {
                    ax_shl(lhs.zeroes, lhs.ones, w, c, 0, 0);
                }
                let low: u64 = (1u64 << c) - 1;
                let r = KnownBits {
                    width: w,
                    zeroes: ((lhs.zeroes << c) | low) & mask,
                    ones: (lhs.ones << c) & mask,
                };
                proof {
                    let lz = lhs.zeroes;
                    let lo = lhs.ones;
                    assert forall|x: u64, y: u64|
                        lhs.consistent(x) && rhs.consistent(y) implies #[trigger] r.consistent(
                        crate::shl_val(x, y, w),
                    ) by {
                        assert(y == c);
                        ax_shl(lz, lo, w, c, x, y);
                    }
                }
                r
            }
        } else {
            let r = Self::empty(w as u8);
            proof {
                assert forall|x: u64, y: u64|
                    lhs.consistent(x) && rhs.consistent(y) implies #[trigger] r.consistent(
                    crate::shl_val(x, y, w),
                ) by {
                    ax_shl(0, 0, w, 0, x, y);
                }
            }
            r
        }
    }

    /// Logical-right-shift transfer: a known amount moves both masks down and
    /// makes the vacated high bits known zero.
    pub fn lshr(lhs: &KnownBits, rhs: &KnownBits) -> (r: KnownBits)
        requires
            lhs.wf(),
            rhs.wf(),
            lhs.width == rhs.width,
        ensures
            r.wf(),
            r.width == lhs.width,
            r == lshr_transfer(*lhs, *rhs),
            forall|x: u64, y: u64|
                lhs.consistent(x) && rhs.consistent(y) ==> #[trigger] r.consistent(
                    crate::lshr_val(x, y, lhs.width),
                ),
    {
        let w = lhs.width;
        if rhs.is_constant() {
            let c = rhs.ones;
            proof {
                lemma_const_value(*rhs);
            }
            if c >= w as u64 {
                let r = Self::constant(0, w as u8);
                proof {
                    ax_lshr(0, 0, w, 0, 0, 0);
                }
                r
            } else {
                let mask = crate::get_modulo_mask(w as u8);
                let r = KnownBits {
                    width: w,
                    zeroes: (lhs.zeroes >> c) | (mask & !(mask >> c)),
                    ones: lhs.ones >> c,
                };
                proof {
                    let lz = lhs.zeroes;
                    let lo = lhs.ones;
                    ax_lshr(lz, lo, w, c, 0, 0);
                    assert forall|x: u64, y: u64|
                        lhs.consistent(x) && rhs.consistent(y) implies #[trigger] r.consistent(
                        crate::lshr_val(x, y, w),
                    ) by {
                        assert(y == c);
                        ax_lshr(lz, lo, w, c, x, y);
                    }
                }
                r
            }
        } else {
            let r = Self::empty(w as u8);
            proof {
                assert forall|x: u64, y: u64|
                    lhs.consistent(x) && rhs.consistent(y) implies #[trigger] r.consistent(
                    crate::lshr_val(x, y, w),
                ) by {
                    ax_lshr(0, 0, w, 0, x, y);
                }
            }
            r
        }
    }

    /// Zero-extension transfer: the value is unchanged and every new high bit
    /// is known zero.
    pub fn zext(lhs: &KnownBits, width: u32) -> (r: KnownBits)
        requires
            lhs.wf(),
            lhs.width < width <= 64,
        ensures
            r.wf(),
            r.width == width,
            r == zext_transfer(*lhs, width),
            forall|x: u64| lhs.consistent(x) ==> #[trigger] r.consistent(x),
    {
        let mask = crate::get_modulo_mask(lhs.width as u8);
        let wide = crate::get_modulo_mask(width as u8);
        let r = KnownBits { width, zeroes: lhs.zeroes | (wide & !mask), ones: lhs.ones };
        proof {
            let lz = lhs.zeroes;
            let lo = lhs.ones;
            let lw = lhs.width;
            assert((lz & lo == 0 && lz & !mask_of(lw) == 0 && lo & !mask_of(lw) == 0 && lw < width
                <= 64) ==> ((lz | (mask_of(width) & !mask_of(lw))) & lo == 0 && (lz | (mask_of(
                width,
            ) & !mask_of(lw))) & !mask_of(width) == 0 && lo & !mask_of(width) == 0))
                by (bit_vector);
            assert forall|x: u64| lhs.consistent(x) implies #[trigger] r.consistent(x) by {
                assert((x & mask_of(lw) == x && x & lz == 0 && lo & !x == 0 && lw < width <= 64)
                    ==> (x & mask_of(width) == x && x & (lz | (mask_of(width) & !mask_of(lw))) == 0
                    && lo & !x == 0)) by (bit_vector);
            }
        }
        r
    }

    /// Truncation transfer: both masks are cut to the narrow width.
    pub fn trunc(lhs: &KnownBits, width: u32) -> (r: KnownBits)
        requires
            lhs.wf(),
            1 <= width < lhs.width,
        ensures
            r.wf(),
            r.width == width,
            r == trunc_transfer(*lhs, width),
            forall|x: u64|
                lhs.consistent(x) ==> #[trigger] r.consistent(crate::trunc_val(x, width)),
    {
        let wide = crate::get_modulo_mask(width as u8);
        let r = KnownBits { width, zeroes: lhs.zeroes & wide, ones: lhs.ones & wide };
        proof {
            let lz = lhs.zeroes;
            let lo = lhs.ones;
            assert((lz & lo == 0) ==> ((lz & mask_of(width)) & (lo & mask_of(width)) == 0 && (lz
                & mask_of(width)) & !mask_of(width) == 0 && (lo & mask_of(width)) & !mask_of(width)
                == 0)) by (bit_vector);
            assert forall|x: u64| lhs.consistent(x) implies #[trigger] r.consistent(
                crate::trunc_val(x, width),
            ) by {
                assert((x & lz == 0 && lo & !x == 0) ==> ((x & mask_of(width)) & mask_of(width) == x
                    & mask_of(width) && (x & mask_of(width)) & (lz & mask_of(width)) == 0 && (lo
                    & mask_of(width)) & !(x & mask_of(width)) == 0)) by (bit_vector);
            }
        }
        r
    }

    /// Comparison transfer: two fully known operands give a known one-bit
    /// result; anything else gives an unknown one-bit result.
    pub fn icmp(pred: Predicate, lhs: &KnownBits, rhs: &KnownBits) -> (r: KnownBits)
        requires
            lhs.wf(),
            rhs.wf(),
            lhs.width == rhs.width,
        ensures
            r.wf(),
            r.width == 1,
            r == icmp_transfer(pred, *lhs, *rhs),
            forall|x: u64, y: u64|
                lhs.consistent(x) && rhs.consistent(y) ==> #[trigger] r.consistent(
                    crate::icmp_val(pred, x, y, lhs.width),
                ),
    {
        let w = lhs.width;
        if lhs.is_constant() && rhs.is_constant() {
            let a = lhs.ones;
            let b = rhs.ones;
            let mask = crate::get_modulo_mask(w as u8);
            let sb = mask & !(mask >> 1u64);
            let holds: bool = match pred {
                Predicate::Eq => a == b,
                Predicate::Ne => a != b,
                Predicate::Ugt => a > b,
                Predicate::Uge => a >= b,
                Predicate::Ult => a < b,
                Predicate::Ule => a <= b,
                Predicate::Sgt => (a ^ sb) > (b ^ sb),
                Predicate::Sge => (a ^ sb) >= (b ^ sb),
                Predicate::Slt => (a ^ sb) < (b ^ sb),
                Predicate::Sle => (a ^ sb) <= (b ^ sb),
            };
            let r = Self::constant(
                if holds {
                    1
                } else {
                    0
                },
                1,
            );
            proof {
                lemma_const_value(*lhs);
                lemma_const_value(*rhs);
                ax_icmp(a, b, w);
                assert forall|x: u64, y: u64|
                    lhs.consistent(x) && rhs.consistent(y) implies #[trigger] r.consistent(
                    crate::icmp_val(pred, x, y, w),
                ) by {
                    assert(x == a && y == b);
                }
            }
            r
        } else {
            let r = Self::empty(1);
            proof {
                assert forall|x: u64, y: u64|
                    lhs.consistent(x) && rhs.consistent(y) implies #[trigger] r.consistent(
                    crate::icmp_val(pred, x, y, w),
                ) by {
                    ax_icmp(x, y, w);
                }
            }
            r
        }
    }

    /// Select transfer: a known condition picks one arm's element; an unknown
    /// condition keeps the knowledge common to both arms.
    pub fn select(cond: &KnownBits, t: &KnownBits, f: &KnownBits) -> (r: KnownBits)
        requires
            cond.wf(),
            t.wf(),
            f.wf(),
            cond.width == 1,
            t.width == f.width,
        ensures
            r.wf(),
            r.width == t.width,
            r == select_transfer(*cond, *t, *f),
            forall|c: u64, tv: u64, fv: u64|
                cond.consistent(c) && t.consistent(tv) && f.consistent(fv)
                    ==> #[trigger] r.consistent(crate::select_val(c, tv, fv)),
    {
        let w = t.width;
        if cond.is_constant() {
            proof {
                lemma_const_value(*cond);
                ax_select(0, 0, 0, 0, w, cond.ones, 0, 0);
            }
            if cond.ones == 1 {
                *t
            } else {
                *f
            }
        } else {
            let r = KnownBits {
                width: w,
                zeroes: t.zeroes & f.zeroes,
                ones: t.ones & f.ones,
            };
            proof {
                let tz = t.zeroes;
                let to = t.ones;
                let fz = f.zeroes;
                let fo = f.ones;
                ax_select(tz, to, fz, fo, w, 0, 0, 0);
                assert forall|c: u64, tv: u64, fv: u64|
                    cond.consistent(c) && t.consistent(tv) && f.consistent(
                        fv,
                    ) implies #[trigger] r.consistent(crate::select_val(c, tv, fv)) by {
                    ax_select(tz, to, fz, fo, w, 0, tv, fv);
                }
            }
            r
        }
    }
}

/// A constant element pins its value: any consistent value equals `ones`.
pub proof fn lemma_const_value(kb: KnownBits)
    requires
        kb.wf(),
        kb.is_const_spec(),
    ensures
        forall|x: u64| kb.consistent(x) ==> x == kb.ones,
{
    let z = kb.zeroes;
    let o = kb.ones;
    let w = kb.width;
    assert forall|x: u64| kb.consistent(x) implies x == kb.ones by {
        assert((!(z | o) & mask_of(w) == 0 && z & o == 0 && z & !mask_of(w) == 0 && o & !mask_of(w)
            == 0 && x & mask_of(w) == x && x & z == 0 && o & !x == 0) ==> x == o) by (bit_vector);
    }
}

/// Bit-level facts behind the addition transfer.
proof fn ax_add(lz: u64, lo: u64, rz: u64, ro: u64, w: u32, m: u64, s: u64, x: u64, y: u64)
    by (bit_vector)
    ensures
        (((lo as u128 + ro as u128) as u128) & 0xffff_ffff_ffff_ffffu128) as u64 == (lo + ro)
            as u64,
        (lz & !mask_of(w) == 0 && lo & !mask_of(w) == 0 && rz & !mask_of(w) == 0 && ro & !mask_of(
            w,
        ) == 0 && m & !((lz | lo) & (rz | ro)) == 0) ==> (m & !mask_of(w) == 0 && (!s & m) & (s
            & m) == 0 && (!s & m) & !mask_of(w) == 0 && (s & m) & !mask_of(w) == 0),
        (m & crate::wadd(m, 1) == 0 && m & !((lz | lo) & (rz | ro)) == 0 && m & !mask_of(w) == 0
            && x & mask_of(w) == x && x & lz == 0 && lo & !x == 0 && y & mask_of(w) == y && y & rz
            == 0 && ro & !y == 0 && s == (lo + ro) as u64) ==> ((((x + y) as u64 & mask_of(w)) & (!s
            & m) == 0) && ((s & m) & !((x + y) as u64 & mask_of(w)) == 0) && (((x + y) as u64
            & mask_of(w)) & mask_of(w) == (x + y) as u64 & mask_of(w))),
{
}

/// Bit-level facts behind the subtraction transfer.
proof fn ax_sub(lz: u64, lo: u64, rz: u64, ro: u64, w: u32, m: u64, s: u64, x: u64, y: u64)
    by (bit_vector)
    ensures
        (((lo as u128 + (!ro) as u128 + 1) as u128) & 0xffff_ffff_ffff_ffffu128) as u64 == (lo
            + !ro + 1) as u64,
        (lz & !mask_of(w) == 0 && lo & !mask_of(w) == 0 && rz & !mask_of(w) == 0 && ro & !mask_of(
            w,
        ) == 0 && m & !((lz | lo) & (rz | ro)) == 0) ==> (m & !mask_of(w) == 0 && (!s & m) & (s
            & m) == 0 && (!s & m) & !mask_of(w) == 0 && (s & m) & !mask_of(w) == 0),
        (m & crate::wadd(m, 1) == 0 && m & !((lz | lo) & (rz | ro)) == 0 && m & !mask_of(w) == 0
            && x & mask_of(w) == x && x & lz == 0 && lo & !x == 0 && y & mask_of(w) == y && y & rz
            == 0 && ro & !y == 0 && s == (lo + !ro + 1) as u64) ==> ((((x + ((!y + 1) as u64))
            as u64 & mask_of(w)) & (!s & m) == 0) && ((s & m) & !((x + ((!y + 1) as u64)) as u64
            & mask_of(w)) == 0) && (((x + ((!y + 1) as u64)) as u64 & mask_of(w)) & mask_of(w) == (x
            + ((!y + 1) as u64)) as u64 & mask_of(w))),
{
}

/// Bit-level facts behind the trailing-zero part of the product transfer.
proof fn ax_mul_tz(lz: u64, rz: u64, w: u32, ml: u64, mr: u64, x: u64, y: u64)
    by (bit_vector)
    ensures
        (lz & !mask_of(w) == 0 && rz & !mask_of(w) == 0 && ml & !lz == 0 && mr & !rz == 0) ==> ((ml
            | mr) & 0 == 0 && (ml | mr) & !mask_of(w) == 0 && 0u64 & !mask_of(w) == 0),
        (ml & crate::wadd(ml, 1) == 0 && ml & !lz == 0 && x & lz == 0) ==> ((x * y) as u64 & ml
            == 0),
        (mr & crate::wadd(mr, 1) == 0 && mr & !rz == 0 && y & rz == 0) ==> ((x * y) as u64 & mr
            == 0),
        ((x * y) as u64 & ml == 0 && (x * y) as u64 & mr == 0 && x & mask_of(w) == x) ==> (((x * y)
            as u64 & mask_of(w)) & (ml | mr) == 0 && 0u64 & !((x * y) as u64 & mask_of(w)) == 0 && (
        (x * y) as u64 & mask_of(w)) & mask_of(w) == (x * y) as u64 & mask_of(w)),
{
}

/// Bit-level facts behind the left-shift transfer.
proof fn ax_shl(lz: u64, lo: u64, w: u32, c: u64, x: u64, y: u64)
    by (bit_vector)
    ensures
        0u64 & mask_of(w) == 0,
        (c < 64) ==> ((1u64 << c) >= 1),
        (lz & lo == 0 && c < 64) ==> ((((lz << c) | (((1u64 << c) - 1) as u64)) & mask_of(w)) & ((lo
            << c) & mask_of(w)) == 0 && (((lz << c) | (((1u64 << c) - 1) as u64)) & mask_of(w))
            & !mask_of(w) == 0 && ((lo << c) & mask_of(w)) & !mask_of(w) == 0),
        (x & mask_of(w) == x && x & lz == 0 && lo & !x == 0 && c < w && w <= 64) ==> (((x << c)
            & mask_of(w)) & (((lz << c) | (((1u64 << c) - 1) as u64)) & mask_of(w)) == 0 && ((lo
            << c) & mask_of(w)) & !((x << c) & mask_of(w)) == 0 && ((x << c) & mask_of(w))
            & mask_of(w) == (x << c) & mask_of(w)),
        ((x << y) & mask_of(w)) & mask_of(w) == (x << y) & mask_of(w),
{
}

/// Bit-level facts behind the right-shift transfer.
proof fn ax_lshr(lz: u64, lo: u64, w: u32, c: u64, x: u64, y: u64)
    by (bit_vector)
    ensures
        0u64 & mask_of(w) == 0,
        (lz & lo == 0 && lz & !mask_of(w) == 0 && lo & !mask_of(w) == 0 && c < w && w <= 64) ==> ((
        (lz >> c) | (mask_of(w) & !(mask_of(w) >> c))) & (lo >> c) == 0 && ((lz >> c) | (mask_of(w)
            & !(mask_of(w) >> c))) & !mask_of(w) == 0 && (lo >> c) & !mask_of(w) == 0),
        (x & mask_of(w) == x && x & lz == 0 && lo & !x == 0 && c < w && w <= 64) ==> (((x >> c)
            & mask_of(w)) & ((lz >> c) | (mask_of(w) & !(mask_of(w) >> c))) == 0 && (lo >> c) & !((x
            >> c) & mask_of(w)) == 0 && ((x >> c) & mask_of(w)) & mask_of(w) == (x >> c) & mask_of(
            w,
        )),
        ((x >> y) & mask_of(w)) & mask_of(w) == (x >> y) & mask_of(w),
{
}

/// Bit-level facts behind the comparison transfer: the biased unsigned
/// comparison agrees with the signed reading, and one-bit values fit.
pub proof fn ax_icmp(a: u64, b: u64, w: u32)
    by (bit_vector)
    ensures
        (a & mask_of(w) == a && b & mask_of(w) == b && 1 <= w <= 64) ==> (((a ^ (mask_of(w)
            & !(mask_of(w) >> 1u64))) > (b ^ (mask_of(w) & !(mask_of(w) >> 1u64)))) == (
        crate::sint_of(a, w) > crate::sint_of(b, w)) && ((a ^ (mask_of(w) & !(mask_of(w)
            >> 1u64))) < (b ^ (mask_of(w) & !(mask_of(w) >> 1u64)))) == (crate::sint_of(a, w)
            < crate::sint_of(b, w))),
        1u64 & mask_of(1) == 1,
        0u64 & mask_of(1) == 0,
        (a & !mask_of(w) == 0) ==> a & mask_of(w) == a,
        (b & !mask_of(w) == 0) ==> b & mask_of(w) == b,
{
}

/// Bit-level facts behind the select transfer.
proof fn ax_select(tz: u64, to: u64, fz: u64, fo: u64, w: u32, o: u64, tv: u64, fv: u64)
    by (bit_vector)
    ensures
        (o & !mask_of(1) == 0) ==> (o == 0 || o == 1),
        1u64 & 1 == 1,
        0u64 & 1 == 0,
        (tz & to == 0 && tz & !mask_of(w) == 0 && to & !mask_of(w) == 0) ==> ((tz & fz) & (to & fo)
            == 0 && (tz & fz) & !mask_of(w) == 0 && (to & fo) & !mask_of(w) == 0),
        (tv & tz == 0 && to & !tv == 0 && fv & fz == 0 && fo & !fv == 0) ==> (tv & (tz & fz) == 0
            && (to & fo) & !tv == 0 && fv & (tz & fz) == 0 && (to & fo) & !fv == 0),
{
}

/// Bit-level facts behind the unknown element.
proof fn ax_empty(w: u32, x: u64)
    by (bit_vector)
    ensures
        0u64 & 0u64 == 0,
        0u64 & !mask_of(w) == 0,
        x & 0 == 0,
        0u64 & !x == 0,
{
}

/// Bit-level facts behind the constant element.
proof fn ax_constant(c: u64, mask: u64, x: u64)
    by (bit_vector)
    ensures
        (!c & mask) & (c & mask) == 0,
        (!c & mask) & !mask == 0,
        (c & mask) & !mask == 0,
        (!(((!c) & mask) | (c & mask)) & mask) == 0,
        (x & mask == x && x & (!c & mask) == 0 && (c & mask) & !x == 0) <==> x == (c & mask),
{
}

} // verus!
