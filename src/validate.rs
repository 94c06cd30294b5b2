//! Pre-flight validation of a date or date-time text.
use vstd::prelude::*;
use vstd::string::StringExecFns;

use crate::civil::in_range;
use crate::format::{
    datetime_text, iso_date, iso_text, jiff_date_text, jiff_datetime_text, jiff_iso_text,
};
use crate::instant::{
    date_parse, datetime_parse, parse_civil_date, parse_civil_datetime, parse_timestamp,
    timestamp_parse,
};
use crate::json_utils::{escape_text, json_escape};
use crate::text::{chars_of, string_of_range, trim, trim_bounds};

verus! {

/// Whether a text is a date or date-time, and its canonical form when it is.
pub struct ValidationResult {
    pub valid: bool,
    pub error: Option<String>,
    pub normalized: Option<String>,
}

/// Whether a text carries a time of day: a `T`, `t` or space separator appears before
/// any `[` annotation (a bare date has none).
pub open spec fn has_time_part(t: Seq<char>) -> bool
    decreases t.len(),
{
    if t.len() == 0 || t[0] == '[' {
        false
    } else if t[0] == 'T' || t[0] == 't' || t[0] == ' ' {
        true
    } else {
        has_time_part(t.drop_first())
    }
}

/// The canonical form of a trimmed text, trying the grammars in the reader's order: an
/// instant with an offset, rendered in UTC; else a datetime without zone, rendered with
/// its time of day (a bare date keeps its date form); else a civil date; `None` when no
/// grammar accepts it.
pub open spec fn normalize(t: Seq<char>) -> Option<Seq<char>> {
    if t.len() == 0 {
        None
    } else if let Some(x) = timestamp_parse(t) {
        Some(iso_text(x as int))
    } else if let Some(dt) = datetime_parse(t) {
        if has_time_part(t) {
            Some(
                datetime_text(
                    dt.0 as int,
                    dt.1 as int,
                    dt.2 as int,
                    dt.3 as int,
                    dt.4 as int,
                    dt.5 as int,
                ),
            )
        } else {
            Some(iso_date(dt.0 as int, dt.1 as int, dt.2 as int))
        }
    } else if let Some(d) = date_parse(t) {
        Some(iso_date(d.0 as int, d.1 as int, d.2 as int))
    } else {
        None
    }
}

/// The reason given for a non-empty text that no grammar accepts.
pub open spec fn invalid_reason(t: Seq<char>) -> Seq<char> {
    "Invalid date input: '"@ + t + "'"@
}

pub open spec fn empty_reason() -> Seq<char> {
    "Input is empty"@
}

impl ValidationResult {
    /// Exactly one of `normalized` (when valid) and `error` (when not) is present.
    pub open spec fn well_formed(&self) -> bool {
        if self.valid {
            self.normalized is Some && self.error is None
        } else {
            self.error is Some && self.normalized is None
        }
    }

    fn ok(normalized: String) -> (r: ValidationResult)
        ensures
            r.valid,
            r.error is None,
            r.normalized == Some(normalized),
    {
        ValidationResult { valid: true, error: None, normalized: Some(normalized) }
    }

    fn err(msg: String) -> (r: ValidationResult)
        ensures
            !r.valid,
            r.error == Some(msg),
            r.normalized is None,
    {
        ValidationResult { valid: false, error: Some(msg), normalized: None }
    }

    /// `{"valid":true,"normalized":".."}` or `{"valid":false,"error":".."}`.
    pub fn to_json(&self) -> (r: String)
        ensures
            self.valid ==> r@ == "{\"valid\":true,\"normalized\":\""@ + escape_text(
                match self.normalized {
                    Some(n) => n@,
                    None => Seq::empty(),
                },
            ) + "\"}"@,
            !self.valid ==> r@ == "{\"valid\":false,\"error\":\""@ + escape_text(
                match self.error {
                    Some(e) => e@,
                    None => "Unknown error"@,
                },
            ) + "\"}"@,
    {
        if self.valid {
            let body = match &self.normalized {
                Some(n) => json_escape(n.as_str()),
                None => json_escape(""),
            };
            proof {
                reveal_strlit("");
            }
            let mut out = String::from_str("{\"valid\":true,\"normalized\":\"");
            out.append(body.as_str());
            out.append("\"}");
            out
        } else {
            let body = match &self.error {
                Some(e) => json_escape(e.as_str()),
                None => json_escape("Unknown error"),
            };
            let mut out = String::from_str("{\"valid\":false,\"error\":\"");
            out.append(body.as_str());
            out.append("\"}");
            out
        }
    }
}

/// Classifies a text as a date or date-time and gives its canonical form.
pub fn validate(input: &str) -> (r: ValidationResult)
    ensures
        r.well_formed(),
        r.valid == normalize(trim(input@)) is Some,
        r.valid ==> (r.normalized matches Some(n) && normalize(trim(input@)) == Some(n@)),
        trim(input@).len() == 0 ==> (r.error matches Some(e) && e@ == empty_reason()),
        trim(input@).len() != 0 && !r.valid ==> (r.error matches Some(e) && e@ == invalid_reason(
            trim(input@),
        )),
{
    let v = chars_of(input);
    let (lo, hi) = trim_bounds(&v);
    if lo == hi {
        return ValidationResult::err(String::from_str("Input is empty"));
    }
    let trimmed = string_of_range(&v, lo, hi);
    if let Some(ts) = parse_timestamp(trimmed.as_str()) {
        return ValidationResult::ok(jiff_iso_text(ts));
    }
    if let Some(dt) = parse_civil_datetime(trimmed.as_str()) {
        if has_time_part_exec(&v, lo, hi) {
            return ValidationResult::ok(
                jiff_datetime_text(dt.0, dt.1, dt.2, dt.3, dt.4, dt.5),
            );
        }
        return ValidationResult::ok(jiff_date_text(dt.0, dt.1, dt.2));
    }
    if let Some(d) = parse_civil_date(trimmed.as_str()) {
        return ValidationResult::ok(jiff_date_text(d.0, d.1, d.2));
    }
    let mut msg = String::from_str("Invalid date input: '");
    msg.append(trimmed.as_str());
    msg.append("'");
    ValidationResult::err(msg)
}

/// Whether `v@.subrange(lo, hi)` carries a time of day.
fn has_time_part_exec(v: &Vec<char>, lo: usize, hi: usize) -> (r: bool)
    requires
        lo <= hi <= v@.len(),
    ensures
        r == has_time_part(v@.subrange(lo as int, hi as int)),
{
    let mut i: usize = lo;
    while i < hi
        invariant
            lo <= i <= hi <= v@.len(),
            has_time_part(v@.subrange(lo as int, hi as int)) == has_time_part(
                v@.subrange(i as int, hi as int),
            ),
        decreases hi - i,
    {
        assert(v@.subrange(i as int, hi as int).drop_first() =~= v@.subrange(i + 1, hi as int));
        let c = v[i];
        if c == '[' {
            return false;
        }
        if c == 'T' || c == 't' || c == ' ' {
            return true;
        }
        i += 1;
    }
    false
}

} // verus!
