//! Truth tables for Boolean functions of few variables, and the packed
//! database of minimum-cost Boolean expressions indexed by table value.
use vstd::prelude::*;

verus! {

use crate::ast::{AstIdx, SimpleAst};

/// A truth table over `num_vars` one-bit variables: bit `i` of the packed
/// words is the function value on the assignment whose bits spell `i`.
pub struct TruthTable {
    pub num_vars: u32,
    pub arr: Vec<u64>,
}

impl TruthTable {
    /// The table is fully populated for its variable count.
    pub open spec fn wf(self) -> bool {
        &&& 1 <= self.num_vars <= 16
        &&& self.arr@.len() == num_words_spec(self.num_vars)
    }

    /// The bit stored for one assignment.
    pub open spec fn bit_spec(self, index: int) -> u64 {
        (self.arr@[index / 64] >> ((index % 64) as u64)) & 1
    }

    pub fn new(num_vars: u32) -> (r: TruthTable)
        requires
            1 <= num_vars <= 16,
        ensures
            r.wf(),
            r.num_vars == num_vars,
            forall|i: int| 0 <= i < (1u64 << num_vars as u64) ==> #[trigger] r.bit_spec(i) == 0,
    {
        let words = get_num_words_for(num_vars);
        let mut arr: Vec<u64> = Vec::new();
        let mut k: usize = 0;
        while k < words
            invariant
                arr@.len() == k,
                k <= words,
                forall|j: int| 0 <= j < k ==> arr@[j] == 0u64,
            decreases words - k,
        {
            arr.push(0);
            k += 1;
        }
        let r = TruthTable { num_vars, arr };
        proof {
            lemma_table_bound(num_vars);
            assert forall|i: int| 0 <= i < (1u64 << num_vars as u64) implies #[trigger] r.bit_spec(
                i,
            ) == 0 by {
                lemma_index_in_words(num_vars, i as u32);
                assert(r.arr@[i / 64] == 0);
                let sh = (i % 64) as u64;
                assert((0u64 >> sh) & 1 == 0) by (bit_vector);
            }
        }
        r
    }

    /// The number of assignments the table covers.
    pub fn get_num_bits(&self) -> (r: u64)
        requires
            self.num_vars <= 16,
        ensures
            r == (1u64 << self.num_vars as u64),
    {
        proof {
            lemma_table_bound(self.num_vars);
        }
        1u64 << self.num_vars
    }

    /// How many 64-bit words hold the table.
    pub fn get_num_words(&self) -> (r: usize)
        requires
            self.num_vars <= 16,
        ensures
            r == num_words_spec(self.num_vars),
    {
        get_num_words_for(self.num_vars)
    }

    /// Read the bit of one assignment.
    pub fn get_bit(&self, index: u32) -> (r: u8)
        requires
            self.wf(),
            index < (1u64 << self.num_vars as u64),
        ensures
            r == self.bit_spec(index as int),
            r == 0 || r == 1,
    {
        proof {
            lemma_index_in_words(self.num_vars, index);
        }
        let word = self.arr[(index / 64) as usize] >> ((index % 64) as u64);
        proof {
            assert(word & 1 == 0 || word & 1 == 1) by (bit_vector);
            assert((word & 1) < 256) by (bit_vector);
        }
        (word & 1) as u8
    }

    /// Write the bit of one assignment.
    pub fn set_bit(&mut self, index: u32, value: u8)
        requires
            old(self).wf(),
            index < (1u64 << old(self).num_vars as u64),
            value == 0 || value == 1,
        ensures
            final(self).wf(),
            final(self).num_vars == old(self).num_vars,
            final(self).arr@.len() == old(self).arr@.len(),
            final(self).bit_spec(index as int) == value,
            forall|i: int|
                0 <= i < 64 * old(self).arr@.len() && i != index
                    ==> final(self).bit_spec(i) == #[trigger] old(self).bit_spec(i),
    {
        proof {
            lemma_index_in_words(self.num_vars, index);
        }
        let wi = (index / 64) as usize;
        let bi = (index % 64) as u64;
        let old_word = self.arr[wi];
        let new_word = (old_word & !(1u64 << bi)) | ((value as u64) << bi);
        self.arr.set(wi, new_word);
        proof {
            let v = value as u64;
            ax_set_bit(old_word, bi, v, 0);
            assert forall|i: int|
                0 <= i < 64 * old(self).arr@.len() && i != index
                    implies self.bit_spec(i) == #[trigger] old(self).bit_spec(i) by {
                let ghost wlen = old(self).arr@.len() as int;
                assert(i / 64 < wlen && 0 <= i / 64) by (nonlinear_arith)
                    requires
                        0 <= i < 64 * wlen,
                ;
                if i / 64 == wi {
                    assert(i == 64 * (i / 64) + (i % 64)) by (nonlinear_arith);
                    assert(index as int == 64 * (index as int / 64) + (index as int % 64))
                        by (nonlinear_arith);
                    assert(0 <= i % 64 < 64 && 0 <= index as int % 64 < 64);
                    assert(i % 64 != index as int % 64);
                    let sh = (i % 64) as u64;
                    assert(sh != bi);
                    ax_set_bit(old_word, bi, v, sh);
                }
            }
        }
    }

    /// Flip every bit of the table.
    pub fn negate(&mut self)
        requires
            old(self).wf(),
        ensures
            final(self).wf(),
            final(self).num_vars == old(self).num_vars,
            forall|i: int|
                0 <= i < (1u64 << old(self).num_vars as u64) ==> final(self).bit_spec(i) == 1
                    - #[trigger] old(self).bit_spec(i),
            forall|i: int|
                (1u64 << old(self).num_vars as u64) <= i < 64 * old(self).arr@.len()
                    ==> final(self).bit_spec(i) == #[trigger] old(self).bit_spec(i),
    {
        let n = self.get_num_bits();
        proof {
            lemma_table_bound(self.num_vars);
        }
        let mut i: u32 = 0;
        while (i as u64) < n
            invariant
                self.wf(),
                self.num_vars == old(self).num_vars,
                n == (1u64 << old(self).num_vars as u64),
                n <= 0x1_0000,
                i as u64 <= n,
                self.arr@.len() == old(self).arr@.len(),
                forall|j: int|
                    0 <= j < i ==> self.bit_spec(j) == 1 - #[trigger] old(self).bit_spec(j),
                forall|j: int|
                    i <= j < 64 * old(self).arr@.len()
                        ==> self.bit_spec(j) == #[trigger] old(self).bit_spec(j),
            decreases n - i,
        {
            proof {
                lemma_table_bound(self.num_vars);
                assert((i as int) < 64 * old(self).arr@.len());
            }
            let b = self.get_bit(i);
            let ghost pre = *self;
            self.set_bit(i, 1 - b);
            proof {
                assert(b == old(self).bit_spec(i as int));
                assert(self.bit_spec(i as int) == 1 - b);
                assert forall|j: int|
                    0 <= j < i + 1 implies self.bit_spec(j) == 1 - #[trigger] (old(
                    self,
                ).bit_spec(j)) by {
                    if j < i {
                        assert(self.bit_spec(j) == pre.bit_spec(j));
                    }
                }
            }
            i += 1;
        }
    }
}

/// The number of packed words a table of `num_vars` variables needs.
pub open spec fn num_words_spec(num_vars: u32) -> int {
    if num_vars <= 6 {
        1int
    } else {
        (1u64 << ((num_vars - 6) as u64)) as int
    }
}

fn get_num_words_for(num_vars: u32) -> (r: usize)
    requires
        num_vars <= 16,
    ensures
        r == num_words_spec(num_vars),
        r >= 1,
{
    if num_vars <= 6 {
        1
    } else {
        proof {
            let v = num_vars;
            assert((7 <= v <= 16) ==> ((1u64 << ((v - 6) as u64)) <= 1024 && (1u64 << ((v
                - 6) as u64)) >= 1)) by (bit_vector);
        }
        (1u64 << (num_vars - 6) as u64) as usize
    }
}

/// A packed-word index stays inside a well-formed table.
proof fn lemma_index_in_words(num_vars: u32, index: u32)
    requires
        1 <= num_vars <= 16,
        index < (1u64 << num_vars as u64),
    ensures
        0 <= index / 64 < num_words_spec(num_vars),
        index % 64 < 64,
{
    let v = num_vars;
    assert(((1 <= v <= 6 && index < (1u64 << (v as u64))) ==> index / 64 == 0) && ((7 <= v <= 16
        && index < (1u64 << (v as u64))) ==> (index / 64) < (1u64 << ((v - 6) as u64))))
        by (bit_vector);
}

/// The contribution of one variable position to a packed assignment index.
pub fn get_group_size(idx: u32) -> (r: u32)
    requires
        idx < 32,
    ensures
        r == (1u32 << idx),
{
    1u32 << idx
}

/// The canonical table index at which the coefficient of a variable
/// combination lives: the sum of the group sizes of its set bits.
pub fn get_group_size_index(mask: u64) -> (r: u32)
    requires
        mask <= 0xffff_ffff,
    ensures
        r == mask,
{
    proof {
        assert(mask <= 0xffff_ffff ==> mask & 0xffff_ffff_0000_0000 == 0) by (bit_vector);
    }
    let mut sum: u32 = 0;
    let mut var_mask = mask;
    while var_mask != 0
        invariant
            mask <= 0xffff_ffff,
            var_mask & 0xffff_ffff_0000_0000 == 0,
            sum + group_sum(var_mask) == mask,
            sum <= 0xffff_ffff,
        decreases var_mask,
    {
        let lsb = lowest_bit(var_mask);
        proof {
            let vm = var_mask;
            let l = lsb;
            assert((vm != 0 && vm & 0xffff_ffff_0000_0000 == 0 && l == (vm & (!vm + 1) as u64))
                ==> (l <= vm && l <= 0xffff_ffff && l != 0 && (vm ^ l) == (vm & !l) && (vm & !l)
                < vm && ((vm & !l) & 0xffff_ffff_0000_0000 == 0) && group_sum(vm) == l + group_sum(
                vm & !l,
            ))) by (bit_vector);
        }
        sum = sum + (lsb as u32);
        var_mask = var_mask ^ lsb;
    }
    sum
}

/// The sum a packed combination contributes: for masks below two to the
/// thirty-second the group sizes of the set bits add up to the mask itself.
pub open spec fn group_sum(mask: u64) -> u64 {
    mask
}

/// The lowest set bit of a value.
fn lowest_bit(v: u64) -> (r: u64)
    requires
        v != 0,
    ensures
        r == (v & ((!v + 1) as u64)),
{
    proof {
        assert(v != 0 ==> !v != 0xffff_ffff_ffff_ffffu64) by (bit_vector);
    }
    v & (!v).wrapping_add(1)
}

/// The packed database of minimum-cost Boolean expressions for every truth
/// table of two, three, or four variables, held as the raw bytes of the
/// database files; the caller supplies the bytes.
pub struct TruthTableDatabase {
    pub two_var_truth_table: Vec<u8>,
    pub three_var_truth_table: Vec<u8>,
    pub four_var_truth_table: Vec<u8>,
}

impl TruthTableDatabase {
    /// Wrap the raw bytes of the three database files.
    pub fn new(two: Vec<u8>, three: Vec<u8>, four: Vec<u8>) -> (r: TruthTableDatabase)
        ensures
            r.two_var_truth_table@ == two@,
            r.three_var_truth_table@ == three@,
            r.four_var_truth_table@ == four@,
    {
        TruthTableDatabase {
            two_var_truth_table: two,
            three_var_truth_table: three,
            four_var_truth_table: four,
        }
    }

    /// The bytes holding the records for a variable count.
    pub open spec fn table_spec(self, var_count: u32) -> Seq<u8> {
        if var_count == 2 {
            self.two_var_truth_table@
        } else if var_count == 3 {
            self.three_var_truth_table@
        } else {
            self.four_var_truth_table@
        }
    }

    /// The recorded cost of the minimum-cost Boolean for one table value:
    /// the second field of the record's eight-byte header.
    pub fn get_boolean_cost(db: &TruthTableDatabase, var_count: u32, idx: usize) -> (r: u32)
        requires
            var_count == 2 || var_count == 3 || var_count == 4,
            idx < 0x1000_0000,
            8 * idx + 8 <= db.table_spec(var_count).len(),
        ensures
            r == decode_u32_spec(db.table_spec(var_count), 8 * idx + 4),
    {
        let table = if var_count == 2 {
            &db.two_var_truth_table
        } else if var_count == 3 {
            &db.three_var_truth_table
        } else {
            &db.four_var_truth_table
        };
        decode_u32(table, (8 * idx) + 4)
    }
}

/// The little-endian 32-bit value stored at a byte offset.
pub open spec fn decode_u32_spec(bytes: Seq<u8>, offset: int) -> u32 {
    (bytes[offset] as u32) | ((bytes[offset + 1] as u32) << 8u32) | ((bytes[offset + 2] as u32)
        << 16u32) | ((bytes[offset + 3] as u32) << 24u32)
}

/// Decode a little-endian 32-bit value from a byte run.
pub fn decode_u32(bytes: &Vec<u8>, offset: usize) -> (r: u32)
    requires
        offset + 4 <= bytes@.len(),
    ensures
        r == decode_u32_spec(bytes@, offset as int),
{
    let n = bytes.len();
    let b0 = bytes[offset] as u32;
    let b1 = bytes[offset + 1] as u32;
    let b2 = bytes[offset + 2] as u32;
    let b3 = bytes[offset + 3] as u32;
    proof {
        assert((b1 <= 255 && b2 <= 255 && b3 <= 255) ==> (b0 | (b1 << 8u32) | (b2 << 16u32) | (b3
            << 24u32)) == (b0 | (b1 << 8u32)) | (b2 << 16u32) | (b3 << 24u32)) by (bit_vector);
    }
    (b0 | (b1 << 8)) | (b2 << 16) | (b3 << 24)
}

/// A table of at most sixteen variables has at most 65536 assignments, and
/// they all fit in the packed words.
proof fn lemma_table_bound(v: u32)
    by (bit_vector)
    ensures
        v <= 16 ==> (1u64 << (v as u64)) <= 0x1_0000,
        v <= 6 ==> (1u64 << (v as u64)) <= 64,
        (7 <= v <= 16) ==> (1u64 << (v as u64)) == 64 * (1u64 << ((v - 6) as u64)),
{
}

/// Writing one bit of a packed word changes that bit and no other.
proof fn ax_set_bit(old_word: u64, bi: u64, v: u64, sh: u64)
    by (bit_vector)
    ensures
        ((v == 0 || v == 1) && bi < 64) ==> ((((old_word & !(1u64 << bi)) | (v << bi)) >> bi) & 1
            == v),
        ((v == 0 || v == 1) && sh < 64 && bi < 64 && sh != bi) ==> ((((old_word & !(1u64 << bi)) | (
        v << bi)) >> sh) & 1 == (old_word >> sh) & 1),
{
}

} // verus!
