//! A timezone-naive date/time calculation engine working in UTC.
//!
//! A start instant is read from text, a JSON array of calendar or fixed-duration
//! operations is applied to it in order, and the result is rendered in four
//! synchronized forms. A separate validator classifies and normalizes date texts.
use vstd::prelude::*;
use vstd::string::StringExecFns;

pub mod calc;
pub mod civil;
pub mod format;
pub mod instant;
pub mod json_utils;
mod text;
pub mod validate;

use crate::calc::calculation;
use crate::format::result_json;

verus! {

/// `{"error":"<message>"}`, with the message escaped for JSON.
pub open spec fn error_json(msg: Seq<char>) -> Seq<char> {
    "{\"error\":\""@ + json_utils::escape_text(msg) + "\"}"@
}

fn error_object(msg: &String) -> (r: String)
    ensures
        r@ == error_json(msg@),
{
    let mut out = String::from_str("{\"error\":\"");
    out.append(json_utils::json_escape(msg.as_str()).as_str());
    out.append("\"}");
    out
}

/// The calculation as JSON text: the four forms of the resulting instant, or
/// `{"error":"..."}` when the start text, the operations or the arithmetic fail.
pub fn calculate(start_date: &str, operations_json: &str) -> (r: String)
    ensures
        match calculation(start_date@, operations_json@) {
            Ok(x) => r@ == result_json(
                x as int,
                format::iso_text(x as int),
                format::rfc2822_text(x as int),
                format::human_text(x as int),
            ),
            Err(msg) => r@ == error_json(msg),
        },
{
    match calc::calculate(start_date, operations_json) {
        Ok(result) => result.to_json(),
        Err(e) => error_object(&e),
    }
}

/// The validation of a text as JSON: `{"valid":true,"normalized":".."}` with the
/// canonical form, or `{"valid":false,"error":".."}` with the reason.
pub fn validate_date(input: &str) -> (r: String)
    ensures
        match validate::normalize(text::trim(input@)) {
            Some(n) => r@ == "{\"valid\":true,\"normalized\":\""@ + json_utils::escape_text(n)
                + "\"}"@,
            None => exists|e: Seq<char>|
                r@ == "{\"valid\":false,\"error\":\""@ + json_utils::escape_text(e) + "\"}"@,
        },
        text::trim(input@).len() == 0 ==> r@ == "{\"valid\":false,\"error\":\""@
            + json_utils::escape_text(validate::empty_reason()) + "\"}"@,
{
    validate::validate(input).to_json()
}

} // verus!
