//! Trusted declarations around structured front-matter data: the JSON value
//! type carried through the pipeline and the YAML decoding of header text.

use vstd::prelude::*;

verus! {

#[verifier::external_type_specification]
#[verifier::external_body]
pub struct ExValue(serde_json::Value);

#[verifier::external_type_specification]
#[verifier::external_body]
pub struct ExYamlError(serde_yaml::Error);

/// Whether a JSON value is the null value, as `serde_json::Value::is_null`
/// reports it.
pub uninterp spec fn json_is_null(v: serde_json::Value) -> bool;

/// Relies on serde_json::Value::is_null: it returns true exactly for the
/// null value.
pub assume_specification[ serde_json::Value::is_null ](v: &serde_json::Value) -> (r: bool)
    ensures
        r == json_is_null(*v),
;

/// Relies on serde_json::Value's derived Clone: the clone equals its source.
pub assume_specification[ <serde_json::Value as Clone>::clone ](
    v: &serde_json::Value,
) -> (r: serde_json::Value)
    ensures
        r == *v,
;

/// Relies on serde_json::Value::Null being the null value, as
/// serde_json::Value::is_null reports it.
#[verifier::external_body]
pub fn json_null() -> (r: serde_json::Value)
    ensures
        json_is_null(r),
{
    serde_json::Value::Null
}

/// Whether `serde_yaml::from_str` decodes the text into a
/// `serde_json::Value`; the outcome depends on the text alone.
pub uninterp spec fn yaml_parses(s: Seq<char>) -> bool;

/// The value `serde_yaml::from_str` decodes the text into, when it
/// succeeds; the value depends on the text alone.
pub uninterp spec fn yaml_value_of(s: Seq<char>) -> serde_json::Value;

/// Relies on serde_yaml::from_str: it decodes YAML text into a
/// serde_json::Value, or fails, deterministically in the text.
#[verifier::external_body]
pub fn yaml_to_value(s: &str) -> (r: Result<serde_json::Value, serde_yaml::Error>)
    ensures
        r is Ok <==> yaml_parses(s@),
        r matches Ok(v) ==> v == yaml_value_of(s@),
{
    serde_yaml::from_str(s)
}

} // verus!
