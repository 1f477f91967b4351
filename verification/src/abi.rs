//! The interface description of a compiled contract, taken out of the
//! compiler's output.
use vstd::prelude::*;

verus! {

/// A JSON value of `serde_json`. Nothing is known of what it holds.
#[verifier::external_type_specification]
#[verifier::external_body]
pub struct ExJsonValue(serde_json::Value);

/// The error with which `serde_json` refuses a text. Nothing is known of
/// what it holds.
#[verifier::external_type_specification]
#[verifier::external_body]
pub struct ExJsonError(serde_json::Error);

/// Why a document gave no interface description.
#[derive(Debug)]
pub enum AbiError {
    /// The document is not a JSON text.
    InvalidJson(serde_json::Error),
    /// The document has no member `abi`.
    MissingAbi,
}

/// Whether `serde_json::from_str` reads `text` as a `serde_json::Value`.
pub uninterp spec fn json_accepts(text: Seq<char>) -> bool;

/// `serde_json::from_str` for a `serde_json::Value`: reads a JSON text.
/// Whether it reads the text or refuses it depends on the text alone;
/// nothing is claimed of the value or of the error.
#[verifier::external_body]
fn parse_json(content: &str) -> (r: Result<serde_json::Value, serde_json::Error>)
    ensures
        r is Ok == json_accepts(content@),
{
    serde_json::from_str(content)
}

/// `serde_json::Value::get` with a string index, and a clone of what it
/// found: the member `key` of the object `json`. Nothing is claimed of the
/// outcome.
#[verifier::external_body]
fn json_member(json: &serde_json::Value, key: &str) -> (r: Option<serde_json::Value>) {
    json.get(key).cloned()
}

/// The interface description, given the member `abi` as it was looked up:
/// the member where there is one, else the failure `MissingAbi`.
pub fn abi_of_member(member: Option<serde_json::Value>) -> (r: Result<serde_json::Value, AbiError>)
    ensures
        match member {
            Some(abi) => r == Ok::<_, AbiError>(abi),
            None => r == Err::<serde_json::Value, _>(AbiError::MissingAbi),
        },
{
    match member {
        Some(abi) => Ok(abi),
        None => Err(AbiError::MissingAbi),
    }
}

/// The interface description, given the document as it was read: a document
/// that was refused gives the failure `InvalidJson` with the error of the
/// refusal; one that was read gives its member `abi`, or the failure
/// `MissingAbi`.
pub fn abi_of_document(parsed: Result<serde_json::Value, serde_json::Error>) -> (r: Result<
    serde_json::Value,
    AbiError,
>)
    ensures
        match parsed {
            Ok(_) => r is Ok || r == Err::<serde_json::Value, _>(AbiError::MissingAbi),
            Err(e) => r == Err::<serde_json::Value, _>(AbiError::InvalidJson(e)),
        },
{
    match parsed {
        Ok(json) => abi_of_member(json_member(&json, "abi")),
        Err(e) => Err(AbiError::InvalidJson(e)),
    }
}

/// The interface description in the document `content`: a text that is no
/// JSON gives the failure `InvalidJson`; a JSON text gives its member
/// `abi`, or the failure `MissingAbi`.
pub fn abi_from_json(content: &str) -> (r: Result<serde_json::Value, AbiError>)
    ensures
        !json_accepts(content@) ==> r is Err && r->Err_0 is InvalidJson,
        json_accepts(content@) ==> r is Ok || r == Err::<serde_json::Value, _>(
            AbiError::MissingAbi,
        ),
{
    abi_of_document(parse_json(content))
}

impl AbiError {
    /// The failure in words.
    pub fn message(&self) -> (r: String)
        ensures
            self is MissingAbi ==> r@ == "ABI field not found in JSON"@,
    {
        match self {
            AbiError::InvalidJson(e) => error_text(e),
            AbiError::MissingAbi => "ABI field not found in JSON".to_owned(),
        }
    }
}

/// `ToString::to_string` on a `serde_json::Error`: the error in words.
/// Nothing is claimed of the outcome.
#[verifier::external_body]
fn error_text(e: &serde_json::Error) -> (r: String) {
    e.to_string()
}

} // verus!
