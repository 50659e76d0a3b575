use qas::err::CError;
use qas::builtin_ty::{BuiltinType, Dominant};
use qas::text::{chars_to_str, str_to_chars};
use qas::ty::FullType;

fn registry() -> Vec<FullType> {
    let mut types: Vec<FullType> = Vec::new();
    BuiltinType::add_all(&mut types);
    types
}

#[test]
fn dominance_orders_by_size_then_kind() {
    let types = registry();
    let int_ty = BuiltinType::SignedInt.as_id();
    let long_ty = BuiltinType::SignedLong.as_id();
    let uint_ty = BuiltinType::UnsignedInt.as_id();
    let float_ty = BuiltinType::Float.as_id();
    assert!(matches!(BuiltinType::dominant(&types, &int_ty, &long_ty), Dominant::B));
    assert!(matches!(BuiltinType::dominant(&types, &long_ty, &int_ty), Dominant::A));
    assert!(matches!(BuiltinType::dominant(&types, &float_ty, &int_ty), Dominant::A));
    assert!(matches!(BuiltinType::dominant(&types, &int_ty, &float_ty), Dominant::B));
    assert!(matches!(BuiltinType::dominant(&types, &int_ty, &uint_ty), Dominant::A));
    assert!(matches!(BuiltinType::dominant(&types, &uint_ty, &int_ty), Dominant::B));
    assert!(matches!(BuiltinType::dominant(&types, &int_ty, &int_ty), Dominant::Similar));
}

#[test]
fn converting_a_type_to_itself_returns_the_text_unchanged() {
    let types = registry();
    let int_ty = BuiltinType::SignedInt.as_id();
    let text = str_to_chars("(x + 1)");
    let out = BuiltinType::convert(&types, &int_ty, &int_ty, &text).unwrap();
    assert_eq!(chars_to_str(&out), "(x + 1)");
    let quoted = str_to_chars("\"kept\"");
    let same = BuiltinType::Void.as_id();
    let out2 = BuiltinType::convert(&types, &same, &same, &quoted).unwrap();
    assert_eq!(chars_to_str(&out2), "\"kept\"");
}

#[test]
fn plain_literals_move_between_integer_and_floating_textually() {
    let types = registry();
    let int_ty = BuiltinType::SignedInt.as_id();
    let float_ty = BuiltinType::Float.as_id();
    let no_dot = str_to_chars("5");
    let gained = BuiltinType::convert(&types, &int_ty, &float_ty, &no_dot).unwrap();
    assert_eq!(chars_to_str(&gained), "5.");
    let with_dot = str_to_chars("5.75");
    let trimmed = BuiltinType::convert(&types, &float_ty, &int_ty, &with_dot).unwrap();
    assert_eq!(chars_to_str(&trimmed), "5");
}

#[test]
fn non_literal_text_converts_through_a_cast() {
    let types = registry();
    let int_ty = BuiltinType::SignedInt.as_id();
    let long_ty = BuiltinType::SignedLong.as_id();
    let bare = str_to_chars("x");
    let cast = BuiltinType::convert(&types, &int_ty, &long_ty, &bare).unwrap();
    assert_eq!(chars_to_str(&cast), "(x as i64)");
    let compound = str_to_chars("x + 1");
    let wrapped = BuiltinType::convert(&types, &int_ty, &long_ty, &compound).unwrap();
    assert_eq!(chars_to_str(&wrapped), "((x + 1) as i64)");
}

#[test]
fn unit_type_conversions_are_fatal_both_ways() {
    let types = registry();
    let void_ty = BuiltinType::Void.as_id();
    let int_ty = BuiltinType::SignedInt.as_id();
    let text = str_to_chars("x");
    assert!(matches!(
        BuiltinType::convert(&types, &void_ty, &int_ty, &text),
        Err(CError::VoidToNonVoid)
    ));
    assert!(matches!(
        BuiltinType::convert(&types, &int_ty, &void_ty, &text),
        Err(CError::NonVoidToVoid)
    ));
}

#[test]
fn string_text_converted_to_a_value_type_is_fatal() {
    let types = registry();
    let char_ty = BuiltinType::UnsignedChar.as_id();
    let int_ty = BuiltinType::SignedInt.as_id();
    let text = str_to_chars("\"hey\"");
    assert!(matches!(
        BuiltinType::convert(&types, &char_ty, &int_ty, &text),
        Err(CError::StringToNonPtr)
    ));
}

#[test]
fn pointer_spellings_emit_one_level_marker_per_bit() {
    let types = registry();
    let base = BuiltinType::SignedInt.as_id();
    let one = qas::ty::TypeID {
        idx: base.idx,
        ptr: qas::bits::BitPtrIter::append(qas::bits::bits_new(), true),
        mutable: true,
    };
    assert_eq!(chars_to_str(&FullType::real_name(&types, &one)), "*mut i32");
    let two = qas::ty::TypeID {
        idx: base.idx,
        ptr: qas::bits::BitPtrIter::append(
            qas::bits::BitPtrIter::append(qas::bits::bits_new(), false),
            true,
        ),
        mutable: true,
    };
    assert_eq!(chars_to_str(&FullType::real_name(&types, &two)), "*const *mut i32");
}

#[test]
fn sizes_follow_the_registry() {
    let types = registry();
    let void_ty = BuiltinType::Void.as_id();
    let long_ty = BuiltinType::SignedLong.as_id();
    assert_eq!(FullType::size(&types, &void_ty), 0);
    assert_eq!(FullType::size(&types, &long_ty), 8);
}
