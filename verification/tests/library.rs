use eqsat::arena::Arena;
use eqsat::ast::{AstClass, AstIdx, SimpleAst};
use eqsat::get_modulo_mask;
use eqsat::known_bits::KnownBits;
use eqsat::numeric::Pow2;
use eqsat::truth_table::{
    decode_u32, get_group_size, get_group_size_index, TruthTable, TruthTableDatabase,
};
use eqsat::Predicate;

#[test]
fn modulo_masks() {
    assert_eq!(get_modulo_mask(1), 1);
    assert_eq!(get_modulo_mask(8), 0xff);
    assert_eq!(get_modulo_mask(63), 0x7fff_ffff_ffff_ffff);
    assert_eq!(get_modulo_mask(64), u64::MAX);
}

#[test]
fn hash_consing_same_node_same_handle() {
    let mut arena = Arena::new();
    let x = arena.symbol(0, 64);
    let y = arena.symbol(1, 64);
    let s1 = arena.add(x, y);
    let before = arena.size();
    let s2 = arena.add(x, y);
    assert_eq!(s1, s2);
    assert_eq!(arena.size(), before);
    let x2 = arena.symbol(0, 64);
    assert_eq!(x, x2);
}

#[test]
fn hash_consing_via_named_symbols() {
    let mut arena = Arena::new();
    let a = arena.symbol_with_name(String::from("a"), 32);
    let b = arena.symbol_with_name(String::from("a"), 32);
    assert_eq!(a, b);
    let c = arena.symbol_with_name(String::from("a"), 16);
    assert!(a != c);
    assert_eq!(arena.get_symbol_name(0), String::from("a"));
}

#[test]
fn constants_canonicalised_modulo_width() {
    let mut arena = Arena::new();
    let c = arena.constant(0x1ff, 8);
    match arena.get_node(c) {
        SimpleAst::Constant { c: v, width } => {
            assert_eq!(v, 0xff);
            assert_eq!(width, 8);
        }
        _ => panic!("expected a constant"),
    }
    assert_eq!(arena.get_width(c), 8);
    assert_eq!(arena.get_cost(c), 1);
    assert!(!arena.get_has_poly(c));
    assert!(matches!(arena.get_class(c), AstClass::Bitwise));
}

#[test]
fn unit_and_zero_products_collapse() {
    let mut arena = Arena::new();
    let x = arena.symbol(0, 64);
    let one = arena.constant(1, 64);
    let zero = arena.constant(0, 64);
    assert_eq!(arena.mul(one, x), x);
    assert_eq!(arena.mul(x, one), x);
    let z = arena.mul(zero, x);
    assert!(matches!(
        arena.get_node(z),
        SimpleAst::Constant { c: 0, .. }
    ));
}

#[test]
fn pow_of_constants_folds() {
    let mut arena = Arena::new();
    let b = arena.constant(3, 64);
    let e = arena.constant(4, 64);
    let p = arena.pow(b, e);
    assert!(matches!(
        arena.get_node(p),
        SimpleAst::Constant { c: 81, .. }
    ));
}

#[test]
fn classification_of_mixed_terms() {
    let mut arena = Arena::new();
    let x = arena.symbol(0, 64);
    let y = arena.symbol(1, 64);
    let c = arena.constant(7, 64);
    assert!(matches!(arena.get_class(x), AstClass::Bitwise));
    let band = arena.and(x, y);
    assert!(matches!(arena.get_class(band), AstClass::Bitwise));
    let bandc = arena.and(x, c);
    assert!(matches!(
        arena.get_class(bandc),
        AstClass::BitwiseWithConstants
    ));
    let lin = arena.add(x, y);
    assert!(matches!(arena.get_class(lin), AstClass::Linear));
    let semi = arena.add(bandc, x);
    assert!(matches!(arena.get_class(semi), AstClass::Semilinear));
    let nl = arena.mul(x, y);
    assert!(matches!(arena.get_class(nl), AstClass::Nonlinear));
    assert!(arena.get_has_poly(nl));
    let p = arena.pow(x, y);
    assert!(matches!(arena.get_class(p), AstClass::Nonlinear));
    assert!(arena.get_has_poly(p));
}

#[test]
fn known_bits_constant_and_union() {
    let kb = KnownBits::constant(0b1010, 8);
    assert!(kb.is_constant());
    assert_eq!(kb.as_constant(), Some(0b1010));
    assert_eq!(kb.get_unknown_bits(), 0);
    let free = KnownBits::empty(8);
    assert_eq!(free.get_unknown_bits(), 0xff);
    assert_eq!(free.as_constant(), None);
    let joined = kb.union(&free);
    assert_eq!(joined.zeroes, kb.zeroes);
    assert_eq!(joined.ones, kb.ones);
}

#[test]
fn known_bits_transfers_on_constants() {
    let a = KnownBits::constant(200, 8);
    let b = KnownBits::constant(100, 8);
    let sum = KnownBits::add(&a, &b);
    assert_eq!(sum.as_constant(), Some((200u64 + 100) & 0xff));
    let diff = KnownBits::sub(&a, &b);
    assert_eq!(diff.as_constant(), Some(100));
    let prod = KnownBits::mul(&a, &b);
    assert_eq!(prod.as_constant(), Some((200u64 * 100) & 0xff));
    let anded = KnownBits::and(&a, &b);
    assert_eq!(anded.as_constant(), Some(200 & 100));
    let ored = KnownBits::or(&a, &b);
    assert_eq!(ored.as_constant(), Some(200 | 100));
    let xored = KnownBits::xor(&a, &b);
    assert_eq!(xored.as_constant(), Some(200 ^ 100));
    let negged = KnownBits::neg(&a);
    assert_eq!(negged.as_constant(), Some((!200u64) & 0xff));
}

#[test]
fn known_bits_shift_and_cast_transfers() {
    let a = KnownBits::constant(0b1100, 8);
    let two = KnownBits::constant(2, 8);
    let l = KnownBits::shl(&a, &two);
    assert_eq!(l.as_constant(), Some(0b110000));
    let r = KnownBits::lshr(&a, &two);
    assert_eq!(r.as_constant(), Some(0b11));
    let z = KnownBits::zext(&a, 16);
    assert_eq!(z.width, 16);
    assert_eq!(z.as_constant(), Some(0b1100));
    let t = KnownBits::trunc(&a, 2);
    assert_eq!(t.as_constant(), Some(0));
}

#[test]
fn known_bits_partial_sum_keeps_low_bits() {
    // Low two bits of both operands known; the sum's low bits are pinned.
    let a = KnownBits::new(8, 0b01, 0b10);
    let b = KnownBits::new(8, 0b10, 0b01);
    let sum = KnownBits::add(&a, &b);
    // 2 + 1 = 3 on the low two bits.
    assert_eq!(sum.ones & 0b11, 0b11);
    assert_eq!(sum.zeroes & 0b11, 0);
}

#[test]
fn known_bits_icmp_and_select() {
    let a = KnownBits::constant(250, 8);
    let b = KnownBits::constant(5, 8);
    let gt = KnownBits::icmp(Predicate::Ugt, &a, &b);
    assert_eq!(gt.as_constant(), Some(1));
    // Signed: 250 reads as a negative eight-bit value.
    let sgt = KnownBits::icmp(Predicate::Sgt, &a, &b);
    assert_eq!(sgt.as_constant(), Some(0));
    let c1 = KnownBits::constant(1, 1);
    let sel = KnownBits::select(&c1, &a, &b);
    assert_eq!(sel.as_constant(), Some(250));
}

#[test]
fn wrapping_power() {
    assert_eq!(Pow2(2, 10), 1024);
    assert_eq!(Pow2(3, 0), 1);
    assert_eq!(Pow2(7, 1), 7);
    assert_eq!(Pow2(2, 64), 0);
    assert_eq!(Pow2(0xffff_ffff_ffff_ffff, 2), 1);
}

#[test]
fn simplify_xor_cancellation_with_zero_sum() {
    // (x ^ (x ^ y)) + 0 simplifies to y.
    let mut arena = Arena::new();
    let x = arena.symbol_with_name(String::from("x"), 64);
    let y = arena.symbol_with_name(String::from("y"), 64);
    let inner = arena.xor(x, y);
    let outer = arena.xor(x, inner);
    let zero = arena.constant(0, 64);
    let e = arena.add(outer, zero);
    let s = arena.recursive_simplify(e);
    assert_eq!(s, y);
}

#[test]
fn simplify_double_complement() {
    // ~(~a) simplifies to a.
    let mut arena = Arena::new();
    let a = arena.symbol_with_name(String::from("a"), 64);
    let n1 = arena.neg(a);
    let n2 = arena.neg(n1);
    let s = arena.recursive_simplify(n2);
    assert_eq!(s, a);
}

#[test]
fn simplify_and_plus_or() {
    // (a & b) + (a | b) simplifies to a + b.
    let mut arena = Arena::new();
    let a = arena.symbol_with_name(String::from("a"), 64);
    let b = arena.symbol_with_name(String::from("b"), 64);
    let conj = arena.and(a, b);
    let disj = arena.or(a, b);
    let e = arena.add(conj, disj);
    let s = arena.recursive_simplify(e);
    let expected = arena.add(a, b);
    assert_eq!(s, expected);
}

#[test]
fn simplify_xor_of_distributed_and() {
    // ((a ^ b) & c) ^ ((a & c) ^ (b & c)) simplifies to the zero constant.
    let mut arena = Arena::new();
    let a = arena.symbol_with_name(String::from("a"), 64);
    let b = arena.symbol_with_name(String::from("b"), 64);
    let c = arena.symbol_with_name(String::from("c"), 64);
    let ab = arena.xor(a, b);
    let lhs = arena.and(ab, c);
    let ac = arena.and(a, c);
    let bc = arena.and(b, c);
    let rhs = arena.xor(ac, bc);
    let e = arena.xor(lhs, rhs);
    let s = arena.recursive_simplify(e);
    assert!(matches!(
        arena.get_node(s),
        SimpleAst::Constant { c: 0, .. }
    ));
}

#[test]
fn simplify_constant_folding() {
    let mut arena = Arena::new();
    let two = arena.constant(2, 8);
    let three = arena.constant(3, 8);
    let e = arena.add(two, three);
    let s = arena.recursive_simplify(e);
    assert!(matches!(
        arena.get_node(s),
        SimpleAst::Constant { c: 5, .. }
    ));
    let m = arena.mul(two, three);
    let sm = arena.recursive_simplify(m);
    assert!(matches!(
        arena.get_node(sm),
        SimpleAst::Constant { c: 6, .. }
    ));
}

#[test]
fn simplify_is_stable_on_repetition() {
    // Once a pass reaches a fixed point, further passes return the same node.
    let mut arena = Arena::new();
    let x = arena.symbol_with_name(String::from("x"), 64);
    let y = arena.symbol_with_name(String::from("y"), 64);
    let inner = arena.xor(x, y);
    let outer = arena.xor(x, inner);
    let zero = arena.constant(0, 64);
    let e = arena.add(outer, zero);
    let s1 = arena.recursive_simplify(e);
    let s2 = arena.recursive_simplify(s1);
    let s3 = arena.recursive_simplify(s2);
    assert_eq!(s1, s2);
    assert_eq!(s2, s3);
}

#[test]
fn introspection_of_operands() {
    let mut arena = Arena::new();
    let x = arena.symbol(0, 64);
    let y = arena.symbol(1, 64);
    let s = arena.add(x, y);
    assert_eq!(arena.get_opcode(s), 1);
    assert_eq!(arena.get_op0(s), x);
    assert_eq!(arena.get_op1(s), y);
    assert_eq!(arena.get_opcode(x), 10);
    let c = arena.constant(5, 64);
    assert_eq!(arena.get_opcode(c), 9);
    assert!(arena.is_constant(c));
    assert!(!arena.is_constant(x));
}

#[test]
fn truth_table_bits_and_negation() {
    let mut t = TruthTable::new(3);
    assert_eq!(t.get_num_bits(), 8);
    assert_eq!(t.get_num_words(), 1);
    t.set_bit(0, 1);
    t.set_bit(5, 1);
    assert_eq!(t.get_bit(0), 1);
    assert_eq!(t.get_bit(1), 0);
    assert_eq!(t.get_bit(5), 1);
    t.negate();
    assert_eq!(t.get_bit(0), 0);
    assert_eq!(t.get_bit(1), 1);
    assert_eq!(t.get_bit(5), 0);
    let big = TruthTable::new(8);
    assert_eq!(big.get_num_bits(), 256);
    assert_eq!(big.get_num_words(), 4);
}

#[test]
fn group_sizes_and_indices() {
    assert_eq!(get_group_size(0), 1);
    assert_eq!(get_group_size(3), 8);
    assert_eq!(get_group_size_index(0b101), 0b101);
    assert_eq!(get_group_size_index(0), 0);
    assert_eq!(get_group_size_index(0xffff), 0xffff);
}

#[test]
fn database_header_decoding() {
    // One record: offset 8, cost 3; then a second header.
    let bytes = vec![
        8, 0, 0, 0, 3, 0, 0, 0, //
        16, 0, 0, 0, 7, 1, 0, 0,
    ];
    assert_eq!(decode_u32(&bytes, 0), 8);
    assert_eq!(decode_u32(&bytes, 4), 3);
    let db = TruthTableDatabase::new(bytes.clone(), bytes.clone(), bytes);
    assert_eq!(TruthTableDatabase::get_boolean_cost(&db, 2, 0), 3);
    assert_eq!(TruthTableDatabase::get_boolean_cost(&db, 3, 1), 263);
}

#[test]
fn zext_and_trunc_of_symbols() {
    let mut arena = Arena::new();
    let x = arena.symbol(0, 8);
    let wide = arena.zext(x, 16);
    assert_eq!(arena.get_width(wide), 16);
    let narrow = arena.trunc(wide, 4);
    assert_eq!(arena.get_width(narrow), 4);
    let c = arena.constant(0xab, 8);
    let wc = arena.zext(c, 16);
    assert!(matches!(
        arena.get_node(wc),
        SimpleAst::Constant { c: 0xab, width: 16 }
    ));
    let tc = arena.trunc(c, 4);
    assert!(matches!(
        arena.get_node(tc),
        SimpleAst::Constant { c: 0xb, width: 4 }
    ));
}

#[test]
fn icmp_and_select_nodes() {
    let mut arena = Arena::new();
    let x = arena.symbol(0, 32);
    let y = arena.symbol(1, 32);
    let cmp = arena.icmp(Predicate::Ult, x, y);
    assert_eq!(arena.get_width(cmp), 1);
    let sel = arena.select(cmp, x, y);
    assert_eq!(arena.get_width(sel), 32);
    assert!(matches!(arena.get_class(sel), AstClass::Nonlinear));
}

#[test]
fn xor_many_folds_left() {
    let mut arena = Arena::new();
    let a = arena.constant(0b0011, 8);
    let b = arena.constant(0b0101, 8);
    let c = arena.constant(0b1001, 8);
    let xs = vec![a, b, c];
    let r = arena.xor_many(&xs);
    let simplified = arena.recursive_simplify(r);
    assert!(matches!(
        arena.get_node(simplified),
        SimpleAst::Constant { c: 0b1111, .. }
    ));
}

#[test]
fn arena_clear_resets() {
    let mut arena = Arena::new();
    let _ = arena.symbol(0, 8);
    assert!(arena.size() > 0);
    arena.clear();
    assert_eq!(arena.size(), 0);
}

#[test]
fn handles_are_plain_indices() {
    let i = AstIdx(5);
    assert_eq!(i.0, 5);
}

#[test]
fn interpreter_matches_expression_structure() {
    let mut arena = Arena::new();
    let x = arena.symbol(0, 8);
    let y = arena.symbol(1, 8);
    let sum = arena.add(x, y);
    let env = vec![200u64, 100u64];
    assert_eq!(arena.eval_exec(sum, &env), (200 + 100) & 0xff);
    let prod = arena.mul(x, y);
    assert_eq!(arena.eval_exec(prod, &env), (200 * 100) & 0xff);
    let band = arena.and(x, y);
    assert_eq!(arena.eval_exec(band, &env), 200 & 100);
    let comp = arena.neg(x);
    assert_eq!(arena.eval_exec(comp, &env), (!200u64) & 0xff);
    let two = arena.constant(2, 8);
    let shifted = arena.lshr(x, two);
    assert_eq!(arena.eval_exec(shifted, &env), 200 >> 2);
    let p = arena.pow(x, two);
    assert_eq!(arena.eval_exec(p, &env), (200u64 * 200) & 0xff);
    let cmp = arena.icmp(Predicate::Sgt, x, y);
    // 200 reads as a negative eight-bit value, 100 as positive.
    assert_eq!(arena.eval_exec(cmp, &env), 0);
    let sel = arena.select(cmp, x, y);
    assert_eq!(arena.eval_exec(sel, &env), 100);
}

#[test]
fn interpreter_agrees_with_simplifier() {
    let mut arena = Arena::new();
    let x = arena.symbol(0, 64);
    let y = arena.symbol(1, 64);
    let inner = arena.xor(x, y);
    let outer = arena.xor(x, inner);
    let zero = arena.constant(0, 64);
    let e = arena.add(outer, zero);
    let s = arena.recursive_simplify(e);
    for probe in [(3u64, 9u64), (0, u64::MAX), (0x1234_5678, 42)] {
        let env = vec![probe.0, probe.1];
        assert_eq!(arena.eval_exec(e, &env), arena.eval_exec(s, &env));
    }
}

#[test]
fn group_size_index_on_wide_masks() {
    assert_eq!(get_group_size_index(0x8000_0000), 0x8000_0000);
    assert_eq!(get_group_size_index(0xffff_ffff), 0xffff_ffff);
}

#[test]
fn symbol_registration_round_trips() {
    let mut arena = Arena::new();
    let a = arena.symbol_with_name(String::from("left"), 32);
    let b = arena.symbol_with_name(String::from("right"), 32);
    assert!(a != b);
    assert_eq!(arena.get_symbol_name(0), String::from("left"));
    assert_eq!(arena.get_symbol_name(1), String::from("right"));
}

#[test]
fn simplifier_leaves_no_constant_redex_at_root() {
    let mut arena = Arena::new();
    let two = arena.constant(2, 16);
    let three = arena.constant(3, 16);
    let t1 = arena.add(two, three);
    let t2 = arena.add(t1, two);
    let s = arena.recursive_simplify(t2);
    assert!(matches!(arena.get_node(s), SimpleAst::Constant { c: 7, .. }));
}

#[test]
fn printing_in_surface_syntax() {
    let mut arena = Arena::new();
    let x = arena.symbol_with_name(String::from("x"), 64);
    let y = arena.symbol_with_name(String::from("y"), 8);
    let c = arena.constant(0xffff_ffff_ffff_ffff, 64);
    assert_eq!(arena.ast_string(x), "x:i64");
    assert_eq!(arena.ast_string(c), "-1:i64");
    let small = arena.constant(42, 8);
    assert_eq!(arena.ast_string(small), "42:i8");
    let wide = arena.zext(y, 16);
    assert_eq!(arena.ast_string(wide), "(zx y:i8 16)");
    let s = arena.add(x, c);
    assert_eq!(arena.ast_string(s), "(+ x:i64 -1:i64)");
    let n = arena.neg(x);
    assert_eq!(arena.ast_string(n), "(~ x:i64)");
    let cmp = arena.icmp(Predicate::Sle, x, c);
    assert_eq!(arena.ast_string(cmp), "(icmp <=s x:i64 -1:i64)");
}
