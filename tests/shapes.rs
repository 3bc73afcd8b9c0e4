use clvm_codec::error::{FromClvmError, ToClvmError};
use clvm_codec::frame::{frame_from_clvm, frame_to_clvm, Repr};
use clvm_codec::integer::{i32_from_clvm, i32_to_clvm, u64_from_clvm, u64_to_clvm};
use clvm_codec::primitives::{string_from_clvm, string_to_clvm};
use clvm_codec::tagged::{tagged_from_clvm, tagged_to_clvm, DiscriminantType};
use clvmr::allocator::NodePtr;
use clvmr::serde::node_to_bytes;
use clvmr::Allocator;
use std::fmt;

type Enc = Result<NodePtr, ToClvmError>;
type Dec<T> = Result<T, FromClvmError>;

fn check<T: fmt::Debug + PartialEq>(
    value: T,
    enc: fn(&T, &mut Allocator) -> Enc,
    dec: fn(&Allocator, NodePtr) -> Dec<T>,
    expected: &str,
) {
    let a = &mut Allocator::new();
    let ptr = enc(&value, a).unwrap();
    let round_trip = dec(a, ptr).unwrap();
    assert_eq!(value, round_trip);
    let bytes = node_to_bytes(a, ptr).unwrap();
    assert_eq!(expected, hex::encode(bytes));
}

#[derive(Debug, PartialEq, Eq)]
struct TwoInts {
    a: u64,
    b: i32,
}

fn two_ints_to(v: &TwoInts, repr: Repr, a: &mut Allocator) -> Enc {
    let fields = vec![u64_to_clvm(a, v.a)?, i32_to_clvm(a, v.b)?];
    frame_to_clvm(a, repr, &fields)
}

fn two_ints_from(a: &Allocator, n: NodePtr, repr: Repr) -> Dec<TwoInts> {
    let f = frame_from_clvm(a, n, repr, 2)?;
    Ok(TwoInts { a: u64_from_clvm(a, f[0])?, b: i32_from_clvm(a, f[1])? })
}

#[test]
fn test_tuple() {
    check(
        TwoInts { a: 52, b: -32 },
        |v, a| two_ints_to(v, Repr::Tuple, a),
        |a, n| two_ints_from(a, n, Repr::Tuple),
        "ff3481e0",
    );
}

#[test]
fn test_list() {
    check(
        TwoInts { a: 52, b: -32 },
        |v, a| two_ints_to(v, Repr::List, a),
        |a, n| two_ints_from(a, n, Repr::List),
        "ff34ff81e080",
    );
}

#[test]
fn test_curry() {
    check(
        TwoInts { a: 52, b: -32 },
        |v, a| two_ints_to(v, Repr::Curry, a),
        |a, n| two_ints_from(a, n, Repr::Curry),
        "ff04ffff0134ffff04ffff0181e0ff018080",
    );
}

#[derive(Debug, PartialEq, Eq)]
struct UnnamedStruct(String, String);

#[test]
fn test_unnamed() {
    check(
        UnnamedStruct("A".to_string(), "B".to_string()),
        |v, a| {
            let fields = vec![string_to_clvm(a, &v.0)?, string_to_clvm(a, &v.1)?];
            frame_to_clvm(a, Repr::Tuple, &fields)
        },
        |a, n| {
            let f = frame_from_clvm(a, n, Repr::Tuple, 2)?;
            Ok(UnnamedStruct(string_from_clvm(a, f[0])?, string_from_clvm(a, f[1])?))
        },
        "ff4142",
    );
}

#[derive(Debug, PartialEq, Eq)]
struct NewTypeStruct(String);

#[test]
fn test_newtype() {
    check(
        NewTypeStruct("XYZ".to_string()),
        |v, a| {
            let fields = vec![string_to_clvm(a, &v.0)?];
            frame_to_clvm(a, Repr::Tuple, &fields)
        },
        |a, n| {
            let f = frame_from_clvm(a, n, Repr::Tuple, 1)?;
            Ok(NewTypeStruct(string_from_clvm(a, f[0])?))
        },
        "8358595a",
    );
}

#[derive(Debug, PartialEq, Eq)]
enum Enum {
    A(i32),
    B { x: i32 },
    C,
}

fn enum_to(v: &Enum, table: &[u8; 3], a: &mut Allocator) -> Enc {
    let (i, fields) = match v {
        Enum::A(x) => (0, vec![i32_to_clvm(a, *x)?]),
        Enum::B { x } => (1, vec![i32_to_clvm(a, *x)?]),
        Enum::C => (2, vec![]),
    };
    let payload = frame_to_clvm(a, Repr::Tuple, &fields)?;
    tagged_to_clvm(a, table[i] as i128, payload)
}

fn enum_from(a: &Allocator, n: NodePtr, table: &[u8; 3]) -> Dec<Enum> {
    let discriminants: Vec<i128> = table.iter().map(|d| *d as i128).collect();
    let (i, payload) = tagged_from_clvm(a, n, DiscriminantType::U8, &discriminants)?;
    match i {
        0 => {
            let f = frame_from_clvm(a, payload, Repr::Tuple, 1)?;
            Ok(Enum::A(i32_from_clvm(a, f[0])?))
        }
        1 => {
            let f = frame_from_clvm(a, payload, Repr::Tuple, 1)?;
            Ok(Enum::B { x: i32_from_clvm(a, f[0])? })
        }
        _ => {
            frame_from_clvm(a, payload, Repr::Tuple, 0)?;
            Ok(Enum::C)
        }
    }
}

#[test]
fn test_enum() {
    let enc: fn(&Enum, &mut Allocator) -> Enc = |v, a| enum_to(v, &[0, 1, 2], a);
    let dec: fn(&Allocator, NodePtr) -> Dec<Enum> = |a, n| enum_from(a, n, &[0, 1, 2]);
    check(Enum::A(32), enc, dec, "ff8020");
    check(Enum::B { x: -72 }, enc, dec, "ff0181b8");
    check(Enum::C, enc, dec, "ff0280");
}

#[test]
fn test_explicit_enum() {
    let enc: fn(&Enum, &mut Allocator) -> Enc = |v, a| enum_to(v, &[42, 34, 11], a);
    let dec: fn(&Allocator, NodePtr) -> Dec<Enum> = |a, n| enum_from(a, n, &[42, 34, 11]);
    check(Enum::A(32), enc, dec, "ff2a20");
    check(Enum::B { x: -72 }, enc, dec, "ff2281b8");
    check(Enum::C, enc, dec, "ff0b80");
}

#[derive(Debug, PartialEq, Eq)]
enum Untagged {
    A(i32),
    B { x: i32, y: i32 },
    C { curried_value: String },
}

fn untagged_to(v: &Untagged, a: &mut Allocator) -> Enc {
    match v {
        Untagged::A(x) => {
            let fields = vec![i32_to_clvm(a, *x)?];
            frame_to_clvm(a, Repr::Tuple, &fields)
        }
        Untagged::B { x, y } => {
            let fields = vec![i32_to_clvm(a, *x)?, i32_to_clvm(a, *y)?];
            frame_to_clvm(a, Repr::List, &fields)
        }
        Untagged::C { curried_value } => {
            let fields = vec![string_to_clvm(a, curried_value)?];
            frame_to_clvm(a, Repr::Curry, &fields)
        }
    }
}

fn untagged_from(a: &Allocator, n: NodePtr) -> Dec<Untagged> {
    let as_a = frame_from_clvm(a, n, Repr::Tuple, 1).and_then(|f| i32_from_clvm(a, f[0]));
    if let Ok(x) = as_a {
        return Ok(Untagged::A(x));
    }
    let as_b = frame_from_clvm(a, n, Repr::List, 2)
        .and_then(|f| Ok(Untagged::B { x: i32_from_clvm(a, f[0])?, y: i32_from_clvm(a, f[1])? }));
    if as_b.is_ok() {
        return as_b;
    }
    let f = frame_from_clvm(a, n, Repr::Curry, 1)?;
    Ok(Untagged::C { curried_value: string_from_clvm(a, f[0])? })
}

#[test]
fn test_untagged_enum() {
    check(Untagged::A(32), untagged_to, untagged_from, "20");
    check(Untagged::B { x: -72, y: 94 }, untagged_to, untagged_from, "ff81b8ff5e80");
    check(
        Untagged::C { curried_value: "Hello".to_string() },
        untagged_to,
        untagged_from,
        "ff04ffff018548656c6c6fff0180",
    );
}
