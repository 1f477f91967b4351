use parser::abi::{abi_from_json, AbiError};
use serde_json::Value;

#[test]
fn abi_member_is_taken_out_of_the_document() {
    let abi = abi_from_json("{\"abi\": [1, \"two\"], \"bytecode\": \"0x00\"}").unwrap();
    let expected = Value::Array(vec![Value::from(1), Value::from("two")]);
    assert_eq!(abi, expected);
}

#[test]
fn document_without_abi_member_fails() {
    let err = abi_from_json("{\"bytecode\": \"0x00\"}").unwrap_err();
    assert!(matches!(err, AbiError::MissingAbi));
    assert_eq!(err.message(), "ABI field not found in JSON");
}

#[test]
fn document_that_is_an_array_has_no_abi_member() {
    let err = abi_from_json("[\"abi\"]").unwrap_err();
    assert!(matches!(err, AbiError::MissingAbi));
}

#[test]
fn text_that_is_no_json_fails() {
    let err = abi_from_json("{\"abi\": ").unwrap_err();
    assert!(matches!(err, AbiError::InvalidJson(_)));
    assert!(!err.message().is_empty());
}
