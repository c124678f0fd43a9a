//! Body assertions: a path, an operator and an optional expected JSON value.
use vstd::prelude::*;

use crate::domain::error::{Refusal, ValidationError};
use crate::domain::json::{json_encoded_len, json_encoded_len_result, Json, JsonValue};

verus! {

pub const MAX_ASSERTION_PATH_BYTES: usize = 256;
pub const MAX_ASSERTION_VALUE: usize = 1024;

#[derive(Debug, Clone, Copy, PartialEq, Eq, Structural)]
pub enum AssertOp {
    Equals,
    NotEquals,
    Contains,
    Exists,
    Gt,
    Lt,
}

#[derive(Debug, Clone)]
pub struct Assertion {
    pub path: String,
    pub op: AssertOp,
    pub value: Option<JsonValue>,
}

#[derive(Debug, Clone)]
pub struct AssertionResult {
    pub path: String,
    pub op: AssertOp,
    pub ok: bool,
    pub expected: Option<JsonValue>,
    pub actual: Option<JsonValue>,
    pub reason: Option<String>,
}

/// The rule for an assertion: a path of 1 to 256 bytes; an array or object value of at most
/// 1024 bytes of JSON; a string value of at most 1024 characters.
pub open spec fn assertion_check(path: Seq<char>, value: Option<Json>) -> Result<(), Refusal> {
    if crate::text::byte_len(path) == 0 || crate::text::byte_len(path) > MAX_ASSERTION_PATH_BYTES {
        Err(Refusal::AssertionPath)
    } else {
        match value {
            Some(Json::Array(_)) | Some(Json::Object(_)) => if json_encoded_len_result(value->0) > MAX_ASSERTION_VALUE {
                Err(Refusal::AssertionValue)
            } else {
                Ok(())
            },
            Some(Json::Text(s)) => if s.len() > MAX_ASSERTION_VALUE {
                Err(Refusal::AssertionValue)
            } else {
                Ok(())
            },
            _ => Ok(()),
        }
    }
}

pub open spec fn opt_json(v: Option<JsonValue>) -> Option<Json> {
    match v {
        Some(j) => Some(j@),
        None => None,
    }
}

impl Assertion {
    pub open spec fn check_spec(&self) -> Result<(), Refusal> {
        assertion_check(self.path@, opt_json(self.value))
    }

    pub fn validate(&self) -> (r: Result<(), ValidationError>)
        ensures
            crate::domain::error::outcome_view(r) == self.check_spec(),
    {
        let path = self.path.as_str();
        if path.len() == 0 || path.len() > MAX_ASSERTION_PATH_BYTES {
            return Err(ValidationError::AssertionPath);
        }
        match &self.value {
            Some(v @ JsonValue::Array(_)) | Some(v @ JsonValue::Object(_)) => {
                if json_encoded_len(v) > MAX_ASSERTION_VALUE {
                    return Err(ValidationError::AssertionValue);
                }
            },
            Some(JsonValue::Text(s)) => {
                if crate::text::str_chars(s.as_str()).len() > MAX_ASSERTION_VALUE {
                    return Err(ValidationError::AssertionValue);
                }
            },
            _ => {},
        }
        Ok(())
    }
}

} // verus!
