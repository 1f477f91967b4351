use parser::PrimitiveSolidityType;

fn array(inner: PrimitiveSolidityType, size: usize) -> PrimitiveSolidityType {
    PrimitiveSolidityType::Array(Box::new(inner), size)
}

fn dynamic(inner: PrimitiveSolidityType) -> PrimitiveSolidityType {
    PrimitiveSolidityType::DynamicArray(Box::new(inner))
}

fn map_of(key: PrimitiveSolidityType, value: PrimitiveSolidityType) -> PrimitiveSolidityType {
    PrimitiveSolidityType::Mapping { key: Box::new(key), value: Box::new(value) }
}

#[test]
fn words_are_read() {
    assert_eq!(PrimitiveSolidityType::from_string("bool"), Some(PrimitiveSolidityType::Bool));
    assert_eq!(PrimitiveSolidityType::from_string("string"), Some(PrimitiveSolidityType::String));
    assert_eq!(PrimitiveSolidityType::from_string("bytes"), Some(PrimitiveSolidityType::Bytes));
    assert_eq!(PrimitiveSolidityType::from_string("address"), Some(PrimitiveSolidityType::Address));
    assert_eq!(
        PrimitiveSolidityType::from_string("address payable"),
        Some(PrimitiveSolidityType::AddressPayable)
    );
}

#[test]
fn white_space_around_a_spelling_does_not_count() {
    assert_eq!(PrimitiveSolidityType::from_string("  bool\t"), Some(PrimitiveSolidityType::Bool));
    assert_eq!(
        PrimitiveSolidityType::from_string("\u{a0}uint8\u{3000}\n"),
        Some(PrimitiveSolidityType::Uint(8))
    );
    assert_eq!(PrimitiveSolidityType::from_string("address  payable"), None);
    assert_eq!(PrimitiveSolidityType::from_string("u int8"), None);
}

#[test]
fn integers_are_read_with_any_width_of_16_bits() {
    assert_eq!(PrimitiveSolidityType::from_string("uint256"), Some(PrimitiveSolidityType::Uint(256)));
    assert_eq!(PrimitiveSolidityType::from_string("int8"), Some(PrimitiveSolidityType::Int(8)));
    assert_eq!(PrimitiveSolidityType::from_string("uint0"), Some(PrimitiveSolidityType::Uint(0)));
    assert_eq!(PrimitiveSolidityType::from_string("uint7"), Some(PrimitiveSolidityType::Uint(7)));
    assert_eq!(
        PrimitiveSolidityType::from_string("uint65535"),
        Some(PrimitiveSolidityType::Uint(65535))
    );
    assert_eq!(PrimitiveSolidityType::from_string("uint65536"), None);
    assert_eq!(PrimitiveSolidityType::from_string("int0065535"), Some(PrimitiveSolidityType::Int(65535)));
    assert_eq!(PrimitiveSolidityType::from_string("uint+8"), None);
    assert_eq!(PrimitiveSolidityType::from_string("uint-8"), None);
    assert_eq!(PrimitiveSolidityType::from_string("uint"), None);
    assert_eq!(PrimitiveSolidityType::from_string("int"), None);
    assert_eq!(PrimitiveSolidityType::from_string("uint 8"), None);
    assert_eq!(PrimitiveSolidityType::from_string("uint8x"), None);
}

#[test]
fn fixed_bytes_run_from_1_to_32() {
    assert_eq!(PrimitiveSolidityType::from_string("bytes1"), Some(PrimitiveSolidityType::FixedBytes(1)));
    assert_eq!(PrimitiveSolidityType::from_string("bytes32"), Some(PrimitiveSolidityType::FixedBytes(32)));
    assert_eq!(PrimitiveSolidityType::from_string("bytes0"), None);
    assert_eq!(PrimitiveSolidityType::from_string("bytes33"), None);
    assert_eq!(PrimitiveSolidityType::from_string("bytes256"), None);
    assert_eq!(PrimitiveSolidityType::from_string("bytes032"), Some(PrimitiveSolidityType::FixedBytes(32)));
}

#[test]
fn arrays_are_read() {
    assert_eq!(
        PrimitiveSolidityType::from_string("uint256[]"),
        Some(dynamic(PrimitiveSolidityType::Uint(256)))
    );
    assert_eq!(
        PrimitiveSolidityType::from_string("address[3]"),
        Some(array(PrimitiveSolidityType::Address, 3))
    );
    assert_eq!(
        PrimitiveSolidityType::from_string("bool[0]"),
        Some(array(PrimitiveSolidityType::Bool, 0))
    );
    assert_eq!(
        PrimitiveSolidityType::from_string("bool [2]"),
        Some(array(PrimitiveSolidityType::Bool, 2))
    );
    assert_eq!(
        PrimitiveSolidityType::from_string("mapping(address=>bool)[4]"),
        Some(array(map_of(PrimitiveSolidityType::Address, PrimitiveSolidityType::Bool), 4))
    );
    assert_eq!(PrimitiveSolidityType::from_string("values[0]"), None);
    assert_eq!(PrimitiveSolidityType::from_string("[3]"), None);
    assert_eq!(PrimitiveSolidityType::from_string("bool[ ]"), None);
    assert_eq!(PrimitiveSolidityType::from_string("bool[x]"), None);
    assert_eq!(PrimitiveSolidityType::from_string("bool[3"), None);
    assert_eq!(PrimitiveSolidityType::from_string("bool["), None);
    assert_eq!(PrimitiveSolidityType::from_string("bool[+3]"), None);
    assert_eq!(PrimitiveSolidityType::from_string("bool]"), None);
    assert_eq!(PrimitiveSolidityType::from_string("bool[2]x"), None);
    assert_eq!(
        PrimitiveSolidityType::from_string("uint256[2][3]"),
        Some(array(array(PrimitiveSolidityType::Uint(256), 2), 3))
    );
    assert_eq!(
        PrimitiveSolidityType::from_string("uint256[][]"),
        Some(dynamic(dynamic(PrimitiveSolidityType::Uint(256))))
    );
    assert_eq!(
        PrimitiveSolidityType::from_string(" uint256 [ ] [4]"),
        None
    );
    assert_eq!(
        PrimitiveSolidityType::from_string(" uint256 [] [4] "),
        Some(array(dynamic(PrimitiveSolidityType::Uint(256)), 4))
    );
}

#[test]
fn mappings_are_read() {
    assert_eq!(
        PrimitiveSolidityType::from_string("mapping(address=>bool)"),
        Some(map_of(PrimitiveSolidityType::Address, PrimitiveSolidityType::Bool))
    );
    assert_eq!(
        PrimitiveSolidityType::from_string("mapping( address => uint256 )"),
        Some(map_of(PrimitiveSolidityType::Address, PrimitiveSolidityType::Uint(256)))
    );
    assert_eq!(
        PrimitiveSolidityType::from_string("mapping(address=>mapping(uint8=>bool))"),
        Some(map_of(
            PrimitiveSolidityType::Address,
            map_of(PrimitiveSolidityType::Uint(8), PrimitiveSolidityType::Bool)
        ))
    );
    assert_eq!(PrimitiveSolidityType::from_string("mapping(address=>thing)"), None);
    assert_eq!(PrimitiveSolidityType::from_string("mapping(thing=>bool)"), None);
    assert_eq!(PrimitiveSolidityType::from_string("mapping(address,bool)"), None);
    assert_eq!(PrimitiveSolidityType::from_string("mapping(address=>bool"), None);
    assert_eq!(PrimitiveSolidityType::from_string("mapping()"), None);
    assert_eq!(PrimitiveSolidityType::from_string("mapping(=>)"), None);
    assert_eq!(
        PrimitiveSolidityType::from_string("mapping(address=>uint256[])"),
        Some(map_of(PrimitiveSolidityType::Address, dynamic(PrimitiveSolidityType::Uint(256))))
    );
    assert_eq!(
        PrimitiveSolidityType::from_string("mapping(mapping(address=>bool)=>bool)"),
        Some(map_of(
            map_of(PrimitiveSolidityType::Address, PrimitiveSolidityType::Bool),
            PrimitiveSolidityType::Bool
        ))
    );
    assert_eq!(
        PrimitiveSolidityType::from_string("mapping(uint8[2]=>mapping(bool=>int8)[])"),
        Some(map_of(
            array(PrimitiveSolidityType::Uint(8), 2),
            dynamic(map_of(PrimitiveSolidityType::Bool, PrimitiveSolidityType::Int(8)))
        ))
    );
    assert_eq!(PrimitiveSolidityType::from_string("mapping((address=>bool)=>bool)"), None);
    assert_eq!(PrimitiveSolidityType::from_string("mapping(address)=>(bool)"), None);
}

#[test]
fn other_text_spells_no_type() {
    assert_eq!(PrimitiveSolidityType::from_string(""), None);
    assert_eq!(PrimitiveSolidityType::from_string("   "), None);
    assert_eq!(PrimitiveSolidityType::from_string("Bool"), None);
    assert_eq!(PrimitiveSolidityType::from_string("function"), None);
    assert_eq!(PrimitiveSolidityType::from_string("balances[user]"), None);
}

#[test]
fn every_variant_has_its_spelling() {
    assert_eq!(PrimitiveSolidityType::Bool.to_string(), "bool");
    assert_eq!(PrimitiveSolidityType::String.to_string(), "string");
    assert_eq!(PrimitiveSolidityType::Bytes.to_string(), "bytes");
    assert_eq!(PrimitiveSolidityType::FixedBytes(32).to_string(), "bytes32");
    assert_eq!(PrimitiveSolidityType::Int(8).to_string(), "int8");
    assert_eq!(PrimitiveSolidityType::Uint(256).to_string(), "uint256");
    assert_eq!(PrimitiveSolidityType::Uint(0).to_string(), "uint0");
    assert_eq!(PrimitiveSolidityType::Uint(65535).to_string(), "uint65535");
    assert_eq!(PrimitiveSolidityType::Address.to_string(), "address");
    assert_eq!(PrimitiveSolidityType::AddressPayable.to_string(), "address payable");
    assert_eq!(array(PrimitiveSolidityType::Address, 3).to_string(), "address[3]");
    assert_eq!(dynamic(PrimitiveSolidityType::Uint(256)).to_string(), "uint256[]");
    assert_eq!(
        map_of(PrimitiveSolidityType::Address, PrimitiveSolidityType::Bool).to_string(),
        "mapping(address=>bool)"
    );
    assert_eq!(PrimitiveSolidityType::Nested.to_string(), "");
    assert_eq!(
        array(array(PrimitiveSolidityType::Uint(256), 2), 3).to_string(),
        "uint256[2][3]"
    );
}

#[test]
fn spellings_are_read_back() {
    let types = vec![
        PrimitiveSolidityType::Bool,
        PrimitiveSolidityType::String,
        PrimitiveSolidityType::Bytes,
        PrimitiveSolidityType::FixedBytes(1),
        PrimitiveSolidityType::FixedBytes(17),
        PrimitiveSolidityType::FixedBytes(32),
        PrimitiveSolidityType::Int(0),
        PrimitiveSolidityType::Int(256),
        PrimitiveSolidityType::Uint(8),
        PrimitiveSolidityType::Uint(65535),
        PrimitiveSolidityType::Address,
        PrimitiveSolidityType::AddressPayable,
        array(PrimitiveSolidityType::AddressPayable, 0),
        array(PrimitiveSolidityType::Uint(256), 1000),
        dynamic(PrimitiveSolidityType::FixedBytes(4)),
        map_of(PrimitiveSolidityType::Address, PrimitiveSolidityType::Uint(256)),
        map_of(
            PrimitiveSolidityType::AddressPayable,
            map_of(PrimitiveSolidityType::Int(16), PrimitiveSolidityType::String),
        ),
        dynamic(map_of(PrimitiveSolidityType::Address, PrimitiveSolidityType::Bool)),
        array(
            map_of(
                PrimitiveSolidityType::Uint(8),
                map_of(PrimitiveSolidityType::Bool, PrimitiveSolidityType::Bytes),
            ),
            7,
        ),
        array(array(PrimitiveSolidityType::Uint(256), 2), 3),
        dynamic(dynamic(array(PrimitiveSolidityType::Bool, 0))),
        map_of(PrimitiveSolidityType::Address, dynamic(PrimitiveSolidityType::Uint(256))),
        map_of(
            map_of(PrimitiveSolidityType::Address, PrimitiveSolidityType::Bool),
            PrimitiveSolidityType::Bool,
        ),
        map_of(
            array(
                map_of(
                    dynamic(PrimitiveSolidityType::AddressPayable),
                    map_of(PrimitiveSolidityType::Bytes, PrimitiveSolidityType::FixedBytes(2)),
                ),
                5,
            ),
            dynamic(map_of(
                map_of(PrimitiveSolidityType::Int(8), PrimitiveSolidityType::Int(16)),
                array(PrimitiveSolidityType::String, 1),
            )),
        ),
    ];
    for t in types {
        let text = t.to_string();
        assert_eq!(PrimitiveSolidityType::from_string(&text), Some(t.clone()), "{}", text);
    }
}

#[test]
fn nested_and_bytes_outside_1_to_32_are_not_read_back() {
    let types = vec![
        PrimitiveSolidityType::Nested,
        PrimitiveSolidityType::FixedBytes(0),
        PrimitiveSolidityType::FixedBytes(33),
        PrimitiveSolidityType::FixedBytes(255),
        dynamic(PrimitiveSolidityType::Nested),
        array(PrimitiveSolidityType::FixedBytes(0), 2),
        map_of(PrimitiveSolidityType::Nested, PrimitiveSolidityType::Bool),
        map_of(PrimitiveSolidityType::Bool, PrimitiveSolidityType::FixedBytes(33)),
    ];
    for t in types {
        let text = t.to_string();
        assert_ne!(PrimitiveSolidityType::from_string(&text), Some(t.clone()), "{}", text);
    }
}

#[test]
fn clone_gives_an_equal_type() {
    let t = array(
        map_of(PrimitiveSolidityType::Address, dynamic(PrimitiveSolidityType::Uint(8))),
        3,
    );
    assert_eq!(t.clone(), t);
}

#[test]
fn signature_declares_its_parameters_in_order() {
    let inputs = PrimitiveSolidityType::parse_function_declaration(
        "function lambda(address user, uint256 id) returns (bool) {",
    )
    .unwrap();
    assert_eq!(inputs.len(), 2);
    assert_eq!(inputs.name_at(0).iter().collect::<String>(), "user");
    assert_eq!(inputs.value_at(0), &PrimitiveSolidityType::Address);
    assert_eq!(inputs.name_at(1).iter().collect::<String>(), "id");
    assert_eq!(inputs.value_at(1), &PrimitiveSolidityType::Uint(256));
}

#[test]
fn later_parameter_of_the_same_name_wins() {
    let inputs =
        PrimitiveSolidityType::parse_function_declaration("f(bool a, uint8 b, address a)").unwrap();
    assert_eq!(inputs.len(), 2);
    assert_eq!(inputs.get("a"), Some(&PrimitiveSolidityType::Address));
    assert_eq!(inputs.get("b"), Some(&PrimitiveSolidityType::Uint(8)));
    assert_eq!(inputs.name_at(0).iter().collect::<String>(), "a");
}

#[test]
fn signature_groups_are_split_on_any_white_space() {
    let inputs =
        PrimitiveSolidityType::parse_function_declaration("f(\tbool\u{a0}a ,uint8\t\tb)").unwrap();
    assert_eq!(inputs.len(), 2);
    assert_eq!(inputs.get("a"), Some(&PrimitiveSolidityType::Bool));
    assert_eq!(inputs.get("b"), Some(&PrimitiveSolidityType::Uint(8)));
}

#[test]
fn malformed_signature_is_refused_with_its_text() {
    for text in ["f", "f(bool a", "f bool a)", ")(", "f()", "f(bool)", "f(bool a b)", "f(a bool)", "f(bool a,,uint8 b)"] {
        let err = PrimitiveSolidityType::parse_function_declaration(text).unwrap_err();
        assert_eq!(err.kind, parser::ErrorKind::MalformedSignature, "{}", text);
        assert_eq!(err.text, text);
        assert_eq!(err.message(), format!("Invalid lambda signature: {}", text));
    }
}

#[test]
fn literals_have_their_types() {
    let address = "0x742d35Cc6634C0532925a3b844Bc454e4438f44e";
    assert_eq!(PrimitiveSolidityType::infer_type_from_value("true"), PrimitiveSolidityType::Bool);
    assert_eq!(PrimitiveSolidityType::infer_type_from_value(" false "), PrimitiveSolidityType::Bool);
    assert_eq!(PrimitiveSolidityType::infer_type_from_value(address), PrimitiveSolidityType::Address);
    assert_eq!(PrimitiveSolidityType::infer_type_from_value("\"hi\""), PrimitiveSolidityType::String);
    assert_eq!(PrimitiveSolidityType::infer_type_from_value("0x00"), PrimitiveSolidityType::FixedBytes(1));
    assert_eq!(PrimitiveSolidityType::infer_type_from_value("0x"), PrimitiveSolidityType::FixedBytes(0));
    assert_eq!(PrimitiveSolidityType::infer_type_from_value("0x123"), PrimitiveSolidityType::FixedBytes(1));
    assert_eq!(
        PrimitiveSolidityType::infer_type_from_value("0x742d35Cc6634C0532925a3b844Bc454e4438f44g"),
        PrimitiveSolidityType::FixedBytes(20)
    );
    assert_eq!(PrimitiveSolidityType::infer_type_from_value("-5"), PrimitiveSolidityType::Int(256));
    assert_eq!(PrimitiveSolidityType::infer_type_from_value("5"), PrimitiveSolidityType::Uint(256));
    assert_eq!(PrimitiveSolidityType::infer_type_from_value("name"), PrimitiveSolidityType::String);
    assert_eq!(PrimitiveSolidityType::infer_type_from_value("[1, 2]"), PrimitiveSolidityType::String);
    assert_eq!(PrimitiveSolidityType::infer_type_from_value(""), PrimitiveSolidityType::String);
}

#[test]
fn assignment_of_a_literal_gives_its_type() {
    assert!(PrimitiveSolidityType::is_assignment("x = 5"));
    assert_eq!(PrimitiveSolidityType::from_assignment("x = 5"), PrimitiveSolidityType::Uint(256));
    assert_eq!(PrimitiveSolidityType::from_assignment(" flag=true "), PrimitiveSolidityType::Bool);
    assert_eq!(PrimitiveSolidityType::from_assignment("x = -1"), PrimitiveSolidityType::Int(256));
    assert_eq!(PrimitiveSolidityType::from_assignment("a]b = 5"), PrimitiveSolidityType::Uint(256));
    assert_eq!(PrimitiveSolidityType::from_assignment("x = 5;"), PrimitiveSolidityType::String);
}

#[test]
fn assignment_to_an_indexed_name_gives_a_mapping() {
    assert!(PrimitiveSolidityType::is_assignment("map[0x00] = true"));
    assert_eq!(
        PrimitiveSolidityType::from_assignment("map[0x00] = true"),
        map_of(PrimitiveSolidityType::FixedBytes(1), PrimitiveSolidityType::Bool)
    );
    assert_eq!(
        PrimitiveSolidityType::from_assignment("arr[0]=\"v\""),
        map_of(PrimitiveSolidityType::Uint(256), PrimitiveSolidityType::String)
    );
    assert_eq!(
        PrimitiveSolidityType::from_assignment("m[a][7] = 1"),
        map_of(PrimitiveSolidityType::String, PrimitiveSolidityType::Uint(256))
    );
}

#[test]
fn texts_that_are_no_assignment_of_a_literal_are_told_apart() {
    assert!(!PrimitiveSolidityType::is_assignment("x"));
    assert!(!PrimitiveSolidityType::is_assignment("a = b = c"));
    assert!(!PrimitiveSolidityType::is_assignment("a] = 1"));
    assert!(!PrimitiveSolidityType::is_assignment("]a[ = 1"));
    assert!(PrimitiveSolidityType::is_assignment("a[ = 1"));
    assert!(PrimitiveSolidityType::is_assignment("= 1"));
}
