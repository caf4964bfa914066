use sierra_dec::ir::{EmitError, ScalarKind, TypeDesc, WrapperKind};
use sierra_dec::resolver::get_type_name;

fn scalars() -> Vec<TypeDesc> {
    vec![
        TypeDesc::Scalar(ScalarKind::Felt252),
        TypeDesc::Scalar(ScalarKind::GasBuiltin),
        TypeDesc::Scalar(ScalarKind::BuiltinCosts),
        TypeDesc::Scalar(ScalarKind::Uint8),
        TypeDesc::Scalar(ScalarKind::Uint16),
        TypeDesc::Scalar(ScalarKind::Uint32),
        TypeDesc::Scalar(ScalarKind::Uint64),
        TypeDesc::Scalar(ScalarKind::Uint128),
        TypeDesc::Scalar(ScalarKind::Uint128MulGuarantee),
        TypeDesc::Scalar(ScalarKind::Sint8),
        TypeDesc::Scalar(ScalarKind::Sint16),
        TypeDesc::Scalar(ScalarKind::Sint32),
        TypeDesc::Scalar(ScalarKind::Sint64),
        TypeDesc::Scalar(ScalarKind::Sint128),
        TypeDesc::Scalar(ScalarKind::RangeCheck),
        TypeDesc::Scalar(ScalarKind::RangeCheck96),
    ]
}

#[test]
fn scalar_keywords() {
    let types = scalars();
    let expected = [
        "felt252",
        "GasBuiltin",
        "BuiltinCosts",
        "u8",
        "u16",
        "u32",
        "u64",
        "u128",
        "Uint128MulGuarantee",
        "i8",
        "i16",
        "i32",
        "i64",
        "i128",
        "RangeCheck",
        "RangeCheck96",
    ];
    for (i, want) in expected.iter().enumerate() {
        assert_eq!(get_type_name(&types, i).unwrap(), *want);
    }
}

#[test]
fn nested_array() {
    let types = vec![
        TypeDesc::Scalar(ScalarKind::Uint32),
        TypeDesc::Array(0),
        TypeDesc::Array(1),
    ];
    assert_eq!(get_type_name(&types, 1).unwrap(), "Array<u32>");
    assert_eq!(get_type_name(&types, 2).unwrap(), "Array<Array<u32>>");
}

#[test]
fn wrappers() {
    let types = vec![
        TypeDesc::Scalar(ScalarKind::Felt252),
        TypeDesc::Wrapper(WrapperKind::NonZero, 0),
        TypeDesc::Wrapper(WrapperKind::Nullable, 0),
        TypeDesc::Wrapper(WrapperKind::Uninitialized, 0),
        TypeDesc::Wrapper(WrapperKind::Snapshot, 1),
    ];
    assert_eq!(get_type_name(&types, 1).unwrap(), "NonZero<felt252>");
    assert_eq!(get_type_name(&types, 2).unwrap(), "Nullable<felt252>");
    assert_eq!(get_type_name(&types, 3).unwrap(), "Uninitialized<felt252>");
    assert_eq!(get_type_name(&types, 4).unwrap(), "Snapshot<NonZero<felt252>>");
}

#[test]
fn record_members() {
    let types = vec![
        TypeDesc::Scalar(ScalarKind::Uint32),
        TypeDesc::Scalar(ScalarKind::Felt252),
        TypeDesc::Record(vec![0, 1, 0]),
        TypeDesc::Record(vec![]),
    ];
    assert_eq!(get_type_name(&types, 2).unwrap(), "(u32, felt252, u32)");
    assert_eq!(get_type_name(&types, 3).unwrap(), "()");
}

#[test]
fn union_variants() {
    let types = vec![
        TypeDesc::Scalar(ScalarKind::Uint32),
        TypeDesc::Record(vec![]),
        TypeDesc::Union(vec![0, 1]),
    ];
    assert_eq!(get_type_name(&types, 2).unwrap(), "Enum<u32, ()>");
}

#[test]
fn constant_decays_to_literal() {
    let types = vec![
        TypeDesc::Scalar(ScalarKind::Felt252),
        TypeDesc::ConstVal { digits: String::from("1234567890123456789"), inner: 0 },
    ];
    assert_eq!(get_type_name(&types, 1).unwrap(), "1234567890123456789");
}

#[test]
fn unknown_reference_is_reported() {
    let types = vec![TypeDesc::Scalar(ScalarKind::Uint32)];
    assert_eq!(get_type_name(&types, 7), Err(EmitError::TypeNotFound { id: 7 }));
}

#[test]
fn resolve_is_deterministic_and_idempotent() {
    let types = vec![
        TypeDesc::Scalar(ScalarKind::Uint32),
        TypeDesc::Array(0),
        TypeDesc::Union(vec![0, 1]),
    ];
    let first = get_type_name(&types, 2).unwrap();
    let second = get_type_name(&types, 2).unwrap();
    assert_eq!(first, second);
    assert_eq!(first, "Enum<u32, Array<u32>>");
}

#[test]
fn resolve_array_wraps_element() {
    let types = vec![
        TypeDesc::Scalar(ScalarKind::Uint64),
        TypeDesc::Array(0),
    ];
    let elem = get_type_name(&types, 0).unwrap();
    let arr = get_type_name(&types, 1).unwrap();
    assert_eq!(arr, format!("Array<{}>", elem));
}
