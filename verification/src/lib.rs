use vstd::prelude::*;

pub mod arena;
pub mod ast;
pub mod interp;
pub mod numeric;
pub mod printer;
pub mod rewrite;
pub mod truth_table;
pub mod known_bits;

verus! {

/// Mask with the low `width` bits set; every operation on a node of that bit
/// width reduces its result with this mask.
pub open spec fn mask_of(width: u32) -> u64
    recommends
        1 <= width <= 64,
{
    if width == 64 {
        0xffff_ffff_ffff_ffffu64
    } else {
        ((1u64 << width) - 1) as u64
    }
}

/// A value fits a width when no bit above the width is set.
pub open spec fn fits(x: u64, width: u32) -> bool {
    x & mask_of(width) == x
}

/// Wrapping 64-bit sum.
pub open spec fn wadd(x: u64, y: u64) -> u64 {
    (x + y) as u64
}

/// Wrapping 64-bit product.
pub open spec fn wmul(x: u64, y: u64) -> u64 {
    (x * y) as u64
}

/// Addition modulo two to the `width`.
pub open spec fn add_val(x: u64, y: u64, width: u32) -> u64 {
    wadd(x, y) & mask_of(width)
}

/// Subtraction modulo two to the `width`, written through the complement so
/// that every intermediate stays a 64-bit value.
pub open spec fn sub_val(x: u64, y: u64, width: u32) -> u64 {
    wadd(x, wadd(!y, 1)) & mask_of(width)
}

/// Multiplication modulo two to the `width`.
pub open spec fn mul_val(x: u64, y: u64, width: u32) -> u64 {
    wmul(x, y) & mask_of(width)
}

/// Bitwise complement within the width.
pub open spec fn not_val(x: u64, width: u32) -> u64 {
    !x & mask_of(width)
}

/// Logical left shift within the width; shifting by the width or more gives 0.
pub open spec fn shl_val(x: u64, y: u64, width: u32) -> u64 {
    if y >= width as u64 {
        0u64
    } else {
        (x << y) & mask_of(width)
    }
}

/// Logical right shift within the width; shifting by the width or more gives 0.
pub open spec fn lshr_val(x: u64, y: u64, width: u32) -> u64 {
    if y >= width as u64 {
        0u64
    } else {
        (x >> y) & mask_of(width)
    }
}

/// Keep the low `to` bits of a value.
pub open spec fn trunc_val(x: u64, to: u32) -> u64 {
    x & mask_of(to)
}

/// The signed reading of a `width`-bit value.
pub open spec fn sint_of(x: u64, width: u32) -> int
    recommends
        1 <= width <= 64,
{
    if x & (mask_of(width) & !(mask_of(width) >> 1u64)) == 0 {
        x as int
    } else {
        x - mask_of(width) - 1
    }
}

/// The comparison predicates of an `Icmp` node; the plain forms compare the
/// unsigned readings, the `S` forms the signed readings of the operands.
#[derive(Debug, Copy, Clone, Hash, PartialEq, Eq, Structural)]
pub enum Predicate {
    Eq,
    Ne,
    Ugt,
    Uge,
    Ult,
    Ule,
    Sgt,
    Sge,
    Slt,
    Sle,
}

/// The one-bit result of a comparison of two `width`-bit values.
pub open spec fn icmp_val(p: Predicate, x: u64, y: u64, width: u32) -> u64 {
    let holds = match p {
        Predicate::Eq => x == y,
        Predicate::Ne => x != y,
        Predicate::Ugt => x > y,
        Predicate::Uge => x >= y,
        Predicate::Ult => x < y,
        Predicate::Ule => x <= y,
        Predicate::Sgt => sint_of(x, width) > sint_of(y, width),
        Predicate::Sge => sint_of(x, width) >= sint_of(y, width),
        Predicate::Slt => sint_of(x, width) < sint_of(y, width),
        Predicate::Sle => sint_of(x, width) <= sint_of(y, width),
    };
    if holds {
        1u64
    } else {
        0u64
    }
}

/// One-bit select: a true condition picks the first arm.
pub open spec fn select_val(c: u64, t: u64, f: u64) -> u64 {
    if c & 1 == 1 {
        t
    } else {
        f
    }
}

/// All operations reduce their result modulo 2 to the power of the node's
/// width; this returns the mask of bits that survive that reduction.
pub fn get_modulo_mask(width: u8) -> (r: u64)
    requires
        1 <= width <= 64,
    ensures
        r == mask_of(width as u32),
{
    if width == 64 {
        u64::MAX
    } else {
        assert((1u64 << width) >= 1 && (1u64 << width) > 0) by (bit_vector)
            requires
                1 <= width < 64,
        ;
        (1u64 << width) - 1
    }
}

} // verus!
