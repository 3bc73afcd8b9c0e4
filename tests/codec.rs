use clvm_codec::coin_proof::{EveProof, LineageProof, Proof};
use clvm_codec::error::FromClvmError;
use clvm_codec::frame::{frame_from_clvm, frame_to_clvm, list_items_from_clvm, Repr};
use clvm_codec::integer::{
    i16_from_clvm, i32_from_clvm, i32_to_clvm, i64_from_clvm, i64_to_clvm, i8_from_clvm, i8_to_clvm,
    int_to_bytes, u16_from_clvm, u16_to_clvm, u32_from_clvm, u32_to_clvm, u64_from_clvm, u64_to_clvm,
    u8_from_clvm, u8_to_clvm,
};
use clvm_codec::policy::{ConditionPolicy, NoPolicy};
use clvm_codec::primitives::{
    array_from_clvm, array_to_clvm, bool_from_clvm, bool_to_clvm, bytes_from_clvm, bytes_to_clvm,
    is_nil, nil_to_clvm, option_from_clvm, string_from_clvm, string_to_clvm,
};
use clvm_codec::tagged::{tagged_from_clvm, tagged_to_clvm, DiscriminantType};
use clvmr::allocator::NodePtr;
use clvmr::serde::{node_from_bytes, node_to_bytes};
use clvmr::Allocator;

fn hex_of(a: &Allocator, n: NodePtr) -> String {
    hex::encode(node_to_bytes(a, n).unwrap())
}

fn node(a: &mut Allocator, h: &str) -> NodePtr {
    node_from_bytes(a, &hex::decode(h).unwrap()).unwrap()
}

fn lineage() -> LineageProof {
    LineageProof { parent_coin_info: [1; 32], inner_puzzle_hash: [2; 32], amount: 1000 }
}

fn eve() -> EveProof {
    EveProof { parent_coin_info: [3; 32], amount: 7 }
}

#[test]
fn integer_zero_is_nil() {
    let a = &mut Allocator::new();
    let n = i64_to_clvm(a, 0).unwrap();
    assert_eq!(hex_of(a, n), "80");
    assert!(is_nil(a, n));
    assert_eq!(int_to_bytes(0), Vec::<u8>::new());
}

#[test]
fn integer_minus_one_is_one_byte() {
    assert_eq!(int_to_bytes(-1), vec![0xff]);
    let a = &mut Allocator::new();
    let n = i8_to_clvm(a, -1).unwrap();
    assert_eq!(hex_of(a, n), "81ff");
}

#[test]
fn integer_exact_bytes() {
    assert_eq!(int_to_bytes(127), vec![0x7f]);
    assert_eq!(int_to_bytes(128), vec![0x00, 0x80]);
    assert_eq!(int_to_bytes(255), vec![0x00, 0xff]);
    assert_eq!(int_to_bytes(256), vec![0x01, 0x00]);
    assert_eq!(int_to_bytes(-128), vec![0x80]);
    assert_eq!(int_to_bytes(-129), vec![0xff, 0x7f]);
    assert_eq!(int_to_bytes(u64::MAX as i128), vec![0, 255, 255, 255, 255, 255, 255, 255, 255]);
    assert_eq!(int_to_bytes(i64::MIN as i128), vec![0x80, 0, 0, 0, 0, 0, 0, 0]);
}

#[test]
fn integer_round_trips_at_limits() {
    let a = &mut Allocator::new();
    for v in [0u64, 1, 127, 128, 255, 256, u64::MAX] {
        let n = u64_to_clvm(a, v).unwrap();
        assert_eq!(u64_from_clvm(a, n).unwrap(), v);
    }
    for v in [i64::MIN, -129, -128, -1, 0, 1, i64::MAX] {
        let n = i64_to_clvm(a, v).unwrap();
        assert_eq!(i64_from_clvm(a, n).unwrap(), v);
    }
    let n = u8_to_clvm(a, 200).unwrap();
    assert_eq!(u8_from_clvm(a, n).unwrap(), 200);
    let n = u16_to_clvm(a, 40000).unwrap();
    assert_eq!(u16_from_clvm(a, n).unwrap(), 40000);
    let n = u32_to_clvm(a, 3_000_000_000).unwrap();
    assert_eq!(u32_from_clvm(a, n).unwrap(), 3_000_000_000);
    let n = i32_to_clvm(a, i32::MIN).unwrap();
    assert_eq!(i32_from_clvm(a, n).unwrap(), i32::MIN);
}

#[test]
fn padded_atoms_normalize() {
    let a = &mut Allocator::new();
    let n = bytes_to_clvm(a, &[0, 0, 0, 5]).unwrap();
    assert_eq!(u8_from_clvm(a, n).unwrap(), 5);
    let n = bytes_to_clvm(a, &[0xff, 0xff, 0xff]).unwrap();
    assert_eq!(i16_from_clvm(a, n).unwrap(), -1);
    let long = [0u8; 40];
    let n = bytes_to_clvm(a, &long).unwrap();
    assert_eq!(u64_from_clvm(a, n).unwrap(), 0);
}

#[test]
fn integer_out_of_range() {
    let a = &mut Allocator::new();
    let n = u16_to_clvm(a, 256).unwrap();
    assert_eq!(u8_from_clvm(a, n), Err(FromClvmError::WrongAtomLength { expected: 1, found: 2 }));
    let n = i8_to_clvm(a, -1).unwrap();
    assert_eq!(u64_from_clvm(a, n), Err(FromClvmError::WrongAtomLength { expected: 8, found: 1 }));
    let n = u8_to_clvm(a, 128).unwrap();
    assert_eq!(i8_from_clvm(a, n), Err(FromClvmError::WrongAtomLength { expected: 1, found: 2 }));
    let big = [0x7f; 20];
    let n = bytes_to_clvm(a, &big).unwrap();
    assert_eq!(i64_from_clvm(a, n), Err(FromClvmError::WrongAtomLength { expected: 8, found: 20 }));
    let p = node(a, "ff0102");
    assert_eq!(u32_from_clvm(a, p), Err(FromClvmError::ExpectedAtom));
}

#[test]
fn booleans() {
    let a = &mut Allocator::new();
    let t = bool_to_clvm(a, true).unwrap();
    let f = bool_to_clvm(a, false).unwrap();
    assert_eq!(hex_of(a, t), "01");
    assert_eq!(hex_of(a, f), "80");
    assert_eq!(bool_from_clvm(a, t), Ok(true));
    assert_eq!(bool_from_clvm(a, f), Ok(false));
    let two = bytes_to_clvm(a, &[2]).unwrap();
    assert!(matches!(bool_from_clvm(a, two), Err(FromClvmError::Custom(_))));
    let padded = bytes_to_clvm(a, &[0, 1]).unwrap();
    assert!(matches!(bool_from_clvm(a, padded), Err(FromClvmError::Custom(_))));
}

#[test]
fn fixed_arrays() {
    let a = &mut Allocator::new();
    let n = array_to_clvm(a, &[9u8; 32]).unwrap();
    assert_eq!(array_from_clvm::<32>(a, n), Ok([9u8; 32]));
    let long = bytes_to_clvm(a, &[0u8; 33]).unwrap();
    assert_eq!(
        array_from_clvm::<32>(a, long),
        Err(FromClvmError::WrongAtomLength { expected: 32, found: 33 })
    );
    let p = node(a, "ff0102");
    assert_eq!(array_from_clvm::<32>(a, p), Err(FromClvmError::ExpectedAtom));
}

#[test]
fn byte_strings_and_text() {
    let a = &mut Allocator::new();
    let n = bytes_to_clvm(a, &[1, 2, 3]).unwrap();
    assert_eq!(hex_of(a, n), "83010203");
    assert_eq!(bytes_from_clvm(a, n), Ok(vec![1, 2, 3]));
    let s = string_to_clvm(a, "héllo").unwrap();
    assert_eq!(string_from_clvm(a, s), Ok("héllo".to_string()));
    let bad = bytes_to_clvm(a, &[0xc3]).unwrap();
    assert!(matches!(string_from_clvm(a, bad), Err(FromClvmError::Custom(_))));
}

#[test]
fn optional_values() {
    let a = &mut Allocator::new();
    let nil = nil_to_clvm(a).unwrap();
    assert_eq!(option_from_clvm(a, nil), None);
    let five = u8_to_clvm(a, 5).unwrap();
    assert_eq!(option_from_clvm(a, five), Some(five));
    let p = node(a, "ff8080");
    assert_eq!(option_from_clvm(a, p), Some(p));
}

#[test]
fn list_errors() {
    let a = &mut Allocator::new();
    let trailing = node(a, "ff01ff0203");
    assert_eq!(frame_from_clvm(a, trailing, Repr::List, 2), Err(FromClvmError::ExpectedNil));
    let short = node(a, "ff0180");
    assert_eq!(frame_from_clvm(a, short, Repr::List, 2), Err(FromClvmError::ExpectedPair));
    let atom = node(a, "05");
    assert_eq!(frame_from_clvm(a, atom, Repr::Tuple, 2), Err(FromClvmError::ExpectedPair));
    assert_eq!(frame_from_clvm(a, atom, Repr::Tuple, 0), Err(FromClvmError::ExpectedNil));
    assert_eq!(frame_from_clvm(a, atom, Repr::Curry, 1), Err(FromClvmError::InvalidCurryForm));
    let bad_op = node(a, "ff05ffff0134ff0180");
    assert_eq!(frame_from_clvm(a, bad_op, Repr::Curry, 1), Err(FromClvmError::InvalidCurryForm));
    let bad_end = node(a, "ff04ffff0134ff0280");
    assert_eq!(frame_from_clvm(a, bad_end, Repr::Curry, 1), Err(FromClvmError::InvalidCurryForm));
}

#[test]
fn empty_frames() {
    let a = &mut Allocator::new();
    let t = frame_to_clvm(a, Repr::Tuple, &vec![]).unwrap();
    let l = frame_to_clvm(a, Repr::List, &vec![]).unwrap();
    let c = frame_to_clvm(a, Repr::Curry, &vec![]).unwrap();
    assert_eq!(hex_of(a, t), "80");
    assert_eq!(hex_of(a, l), "80");
    assert_eq!(hex_of(a, c), "01");
    assert_eq!(frame_from_clvm(a, c, Repr::Curry, 0), Ok(vec![]));
}

#[test]
fn sequences() {
    let a = &mut Allocator::new();
    let mut items = Vec::new();
    for v in [1u32, 2, 300] {
        items.push(u32_to_clvm(a, v).unwrap());
    }
    let l = frame_to_clvm(a, Repr::List, &items).unwrap();
    assert_eq!(hex_of(a, l), "ff01ff02ff82012c80");
    let back = list_items_from_clvm(a, l).unwrap();
    let values: Vec<u32> = back.iter().map(|n| u32_from_clvm(a, *n).unwrap()).collect();
    assert_eq!(values, vec![1, 2, 300]);
    let improper = node(a, "ff0102");
    assert_eq!(list_items_from_clvm(a, improper), Err(FromClvmError::ExpectedNil));
    let nil = nil_to_clvm(a).unwrap();
    assert_eq!(list_items_from_clvm(a, nil), Ok(vec![]));
}

#[test]
fn unknown_discriminant_is_refused() {
    let a = &mut Allocator::new();
    let payload = nil_to_clvm(a).unwrap();
    let n = tagged_to_clvm(a, 7, payload).unwrap();
    assert_eq!(hex_of(a, n), "ff0780");
    let u8d = DiscriminantType::U8;
    assert_eq!(tagged_from_clvm(a, n, u8d, &vec![0, 1, 2]), Err(FromClvmError::WrongDiscriminant));
    let (i, _) = tagged_from_clvm(a, n, u8d, &vec![0, 7, 7]).unwrap();
    assert_eq!(i, 1);
    let atom = node(a, "07");
    assert_eq!(tagged_from_clvm(a, atom, u8d, &vec![7]), Err(FromClvmError::ExpectedPair));
    let wide = node(a, "ff820100ff8080");
    assert_eq!(
        tagged_from_clvm(a, wide, u8d, &vec![0]),
        Err(FromClvmError::WrongAtomLength { expected: 1, found: 2 })
    );
}

#[test]
fn proof_round_trips() {
    let a = &mut Allocator::new();
    for p in [Proof::Lineage(lineage()), Proof::Eve(eve())] {
        let n = p.to_clvm(a).unwrap();
        assert_eq!(Proof::from_clvm(a, n), Ok(p));
    }
}

#[test]
fn proof_exact_bytes() {
    let a = &mut Allocator::new();
    let n = Proof::Eve(eve()).to_clvm(a).unwrap();
    assert_eq!(hex_of(a, n), format!("ffa0{}ff0780", "03".repeat(32)));
    let n = Proof::Lineage(lineage()).to_clvm(a).unwrap();
    assert_eq!(hex_of(a, n), format!("ffa0{}ffa0{}ff8203e880", "01".repeat(32), "02".repeat(32)));
}

#[test]
fn proof_shapes_decide_the_variant() {
    let a = &mut Allocator::new();
    let three = node(a, &format!("ffa0{}ffa0{}ff0580", "01".repeat(32), "02".repeat(32)));
    assert!(matches!(Proof::from_clvm(a, three), Ok(Proof::Lineage(_))));
    let two = node(a, &format!("ffa0{}ff0580", "01".repeat(32)));
    assert_eq!(
        Proof::from_clvm(a, two),
        Ok(Proof::Eve(EveProof { parent_coin_info: [1; 32], amount: 5 }))
    );
    let four = node(a, &format!("ffa0{}ff05ff0680", "01".repeat(32)));
    assert_eq!(Proof::from_clvm(a, four), Err(FromClvmError::ExpectedNil));
    let atom = node(a, "05");
    assert_eq!(Proof::from_clvm(a, atom), Err(FromClvmError::ExpectedPair));
    let short_hash = node(a, "ff8201ffff0580");
    assert_eq!(
        Proof::from_clvm(a, short_hash),
        Err(FromClvmError::WrongAtomLength { expected: 32, found: 2 })
    );
}

#[test]
fn failed_trial_does_not_disturb_the_next() {
    let a = &mut Allocator::new();
    let n = Proof::Eve(eve()).to_clvm(a).unwrap();
    let before = hex_of(a, n);
    assert!(LineageProof::from_clvm(a, n).is_err());
    assert_eq!(EveProof::from_clvm(a, n), Ok(eve()));
    assert_eq!(Proof::from_clvm(a, n), Ok(Proof::Eve(eve())));
    assert_eq!(hex_of(a, n), before);
}

#[test]
fn no_policy_leaves_the_spend_alone() {
    let a = Allocator::new();
    let mut policy = NoPolicy;
    let mut spend: u32 = 5;
    ConditionPolicy::<u32, u8>::new_spend(&mut policy, &mut spend);
    ConditionPolicy::<u32, u8>::condition(&mut policy, &mut spend, &1);
    ConditionPolicy::<u32, u8>::post_spend(&mut policy, &a, &mut spend);
    assert_eq!(spend, 5);
}

#[test]
fn wider_discriminants() {
    let a = &mut Allocator::new();
    let payload = nil_to_clvm(a).unwrap();
    let n = tagged_to_clvm(a, 300, payload).unwrap();
    assert_eq!(hex_of(a, n), "ff82012c80");
    let (i, _) = tagged_from_clvm(a, n, DiscriminantType::U16, &vec![5, 300]).unwrap();
    assert_eq!(i, 1);
    assert_eq!(
        tagged_from_clvm(a, n, DiscriminantType::U8, &vec![5, 300]),
        Err(FromClvmError::WrongAtomLength { expected: 1, found: 2 })
    );
    let m = tagged_to_clvm(a, -1, payload).unwrap();
    assert_eq!(hex_of(a, m), "ff81ff80");
    let (j, _) = tagged_from_clvm(a, m, DiscriminantType::I8, &vec![0, -1]).unwrap();
    assert_eq!(j, 1);
    assert_eq!(
        tagged_from_clvm(a, m, DiscriminantType::U32, &vec![-1]),
        Err(FromClvmError::WrongAtomLength { expected: 4, found: 1 })
    );
}

#[test]
fn encoding_fails_only_without_room() {
    let a = &mut Allocator::new_limited(u32::MAX as usize, 2, 100);
    let l = Proof::Lineage(lineage()).to_clvm(a);
    assert_eq!(l, Err(clvm_codec::error::ToClvmError::LimitReached));
    let a = &mut Allocator::new_limited(u32::MAX as usize, 3, 100);
    let n = Proof::Lineage(lineage()).to_clvm(a).unwrap();
    assert_eq!(Proof::from_clvm(a, n), Ok(Proof::Lineage(lineage())));
    let a = &mut Allocator::new_limited(u32::MAX as usize, 2, 100);
    let e = Proof::Eve(eve()).to_clvm(a).unwrap();
    assert_eq!(Proof::from_clvm(a, e), Ok(Proof::Eve(eve())));
}
