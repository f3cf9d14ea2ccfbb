use hrm_interpreter::script_object::value_box::{
    ParseValueBoxError, ParseValueBoxMemoryAddressError, ValueBox, ValueBoxMemoryAddress,
};

#[test]
fn test_value_box_from_i32() {
    let value = ValueBox::from(42);

    assert_eq!(value, ValueBox::Number(42));
}

#[test]
fn test_value_box_from_char() {
    let value = ValueBox::from('a');

    assert_eq!(value, ValueBox::Character('a'));
}

#[test]
fn test_value_box_to_string() {
    let value = ValueBox::from(42);

    assert_eq!(value.to_string(), "42");
}

#[test]
fn value_box_to_string_negative_and_extremes() {
    assert_eq!(ValueBox::from(-7).to_string(), "-7");
    assert_eq!(ValueBox::from(0).to_string(), "0");
    assert_eq!(ValueBox::from(i32::MIN).to_string(), "-2147483648");
    assert_eq!(ValueBox::from(i32::MAX).to_string(), "2147483647");
    assert_eq!(ValueBox::from('E').to_string(), "E");
}

#[test]
fn value_box_from_str_reads_numbers_and_characters() {
    assert_eq!(ValueBox::from_str("42").unwrap(), ValueBox::Number(42));
    assert_eq!(ValueBox::from_str(" -5 ").unwrap(), ValueBox::Number(-5));
    assert_eq!(ValueBox::from_str("+8").unwrap(), ValueBox::Number(8));
    assert_eq!(ValueBox::from_str("A").unwrap(), ValueBox::Character('A'));
    assert_eq!(ValueBox::from_str(" e").unwrap(), ValueBox::Character('e'));
    assert_eq!(ValueBox::from_str("-").unwrap(), ValueBox::Character('-'));
}

#[test]
fn value_box_from_str_rejects_words() {
    match ValueBox::from_str("A B") {
        Err(ParseValueBoxError::TooManyCharacters(s)) => assert_eq!(s, "AB"),
        other => panic!("unexpected {:?}", other),
    }
    assert!(ValueBox::from_str("2147483648").is_err());
    assert!(ValueBox::from_str("").is_err());
}

#[test]
fn test_value_box_mem_address_from_str() {
    let address = ValueBoxMemoryAddress::from_str("42").unwrap();

    assert_eq!(address, ValueBoxMemoryAddress::Pointer(42));
}

#[test]
fn test_value_box_mem_address_from_str_with_brackets() {
    let address = ValueBoxMemoryAddress::from_str("[42]").unwrap();

    assert_eq!(address, ValueBoxMemoryAddress::PointerAddress(42));
}

#[test]
fn test_value_box_mem_address_from_str_with_brackets_and_spaces() {
    let address = ValueBoxMemoryAddress::from_str("[ 42  ]").unwrap();

    assert_eq!(address, ValueBoxMemoryAddress::PointerAddress(42));
}

#[test]
#[should_panic]
fn test_value_box_mem_address_from_str_with_invalid_address() {
    let _address = ValueBoxMemoryAddress::from_str("invalid").unwrap();
}

#[test]
#[should_panic]
fn test_value_box_mem_address_from_str_with_negative_number() {
    let _address = ValueBoxMemoryAddress::from_str("[-25]").unwrap();
}

#[test]
fn mem_address_errors_carry_the_text_without_spaces() {
    match ValueBoxMemoryAddress::from_str("in valid") {
        Err(ParseValueBoxMemoryAddressError::InvalidPointer(s)) => assert_eq!(s, "invalid"),
        other => panic!("unexpected {:?}", other),
    }
    match ValueBoxMemoryAddress::from_str("[ -25 ]") {
        Err(ParseValueBoxMemoryAddressError::InvalidPointerAddress(s)) => assert_eq!(s, "[-25]"),
        other => panic!("unexpected {:?}", other),
    }
    assert!(matches!(
        ValueBoxMemoryAddress::from_str("["),
        Err(ParseValueBoxMemoryAddressError::InvalidPointer(_))
    ));
    assert!(matches!(
        ValueBoxMemoryAddress::from_str("[]"),
        Err(ParseValueBoxMemoryAddressError::InvalidPointerAddress(_))
    ));
}

#[test]
fn mem_address_bounds_of_usize() {
    assert_eq!(
        ValueBoxMemoryAddress::from_str("18446744073709551615").unwrap(),
        ValueBoxMemoryAddress::Pointer(usize::MAX)
    );
    assert!(ValueBoxMemoryAddress::from_str("18446744073709551616").is_err());
    assert_eq!(
        ValueBoxMemoryAddress::from_str("[[7]]").unwrap(),
        ValueBoxMemoryAddress::PointerAddress(7)
    );
}
