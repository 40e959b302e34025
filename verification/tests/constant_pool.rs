use kujav::constant_pool::{Constant, ConstantPool};
use kujav::errors::ErrorKind;

#[test]
fn add_utf8_never_deduplicates() {
    let mut pool = ConstantPool::new();
    let first = pool.add_utf8("x").unwrap();
    let second = pool.add_utf8("x").unwrap();
    assert_eq!(first, 1);
    assert_eq!(second, 2);
    assert_ne!(first, second);
    assert_eq!(pool.len(), 2);
    assert!(matches!(pool.get(1), Some(Constant::Utf8(s)) if s == "x"));
    assert!(matches!(pool.get(2), Some(Constant::Utf8(s)) if s == "x"));
}

#[test]
fn positions_are_one_based_and_sequential() {
    let mut pool = ConstantPool::new();
    assert_eq!(pool.add_utf8("java/lang/Object").unwrap(), 1);
    assert_eq!(pool.add_class(1).unwrap(), 2);
    assert_eq!(pool.add_string(1).unwrap(), 3);
    assert_eq!(pool.add_name_and_type(1, 1).unwrap(), 4);
    assert_eq!(pool.add_field_ref(2, 4).unwrap(), 5);
    assert_eq!(pool.add_method_ref(2, 4).unwrap(), 6);
    assert_eq!(pool.add_integer(100000).unwrap(), 7);
    assert!(pool.get(0).is_none());
    assert!(pool.get(8).is_none());
    assert!(matches!(pool.get(2), Some(Constant::Class(1))));
    assert!(matches!(
        pool.get(6),
        Some(Constant::MethodRef { class_index: 2, name_and_type_index: 4 })
    ));
}

#[test]
fn empty_pool_serializes_to_count_one() {
    let pool = ConstantPool::new();
    assert_eq!(pool.to_bytes(), vec![0x00, 0x01]);
}

#[test]
fn entries_serialize_with_their_tags() {
    let mut pool = ConstantPool::new();
    pool.add_utf8("Hi").unwrap();
    pool.add_class(1).unwrap();
    pool.add_string(1).unwrap();
    pool.add_field_ref(2, 5).unwrap();
    pool.add_method_ref(2, 5).unwrap();
    pool.add_name_and_type(1, 258).unwrap();
    pool.add_integer(-2).unwrap();
    let expected: Vec<u8> = vec![
        0x00, 0x08, // count = entries + 1
        1, 0x00, 0x02, b'H', b'i', // text
        7, 0x00, 0x01, // class
        8, 0x00, 0x01, // string
        9, 0x00, 0x02, 0x00, 0x05, // field
        10, 0x00, 0x02, 0x00, 0x05, // method
        12, 0x00, 0x01, 0x01, 0x02, // name and type
        3, 0xFF, 0xFF, 0xFF, 0xFE, // integer
    ];
    assert_eq!(pool.to_bytes(), expected);
}

#[test]
fn text_is_written_as_utf8() {
    let mut pool = ConstantPool::new();
    pool.add_utf8("ñ").unwrap();
    assert_eq!(pool.to_bytes(), vec![0x00, 0x02, 1, 0x00, 0x02, 0xC3, 0xB1]);
}

#[test]
fn too_long_text_is_refused() {
    let mut pool = ConstantPool::new();
    let long = "a".repeat(65536);
    let err = pool.add_utf8(&long).unwrap_err();
    assert_eq!(err.kind(), ErrorKind::Bytecode);
    assert_eq!(err.message(), "text constant is too long");
    assert_eq!(pool.len(), 0);
    let fits = "a".repeat(65535);
    assert_eq!(pool.add_utf8(&fits).unwrap(), 1);
}

#[test]
fn full_pool_is_refused() {
    let mut pool = ConstantPool::new();
    for i in 0..65534u32 {
        assert_eq!(pool.add_class(1).unwrap() as u32, i + 1);
    }
    let err = pool.add_class(1).unwrap_err();
    assert_eq!(err.kind(), ErrorKind::Bytecode);
    assert_eq!(err.message(), "constant pool is full");
    assert_eq!(pool.len(), 65534);
    let bytes = pool.to_bytes();
    assert_eq!(&bytes[0..2], &[0xFF, 0xFF]);
}

#[test]
fn truncate_cuts_back() {
    let mut pool = ConstantPool::new();
    pool.add_utf8("a").unwrap();
    pool.add_utf8("b").unwrap();
    pool.add_utf8("c").unwrap();
    pool.truncate(1);
    assert_eq!(pool.len(), 1);
    assert_eq!(pool.add_utf8("d").unwrap(), 2);
    pool.truncate(10);
    assert_eq!(pool.len(), 2);
}
