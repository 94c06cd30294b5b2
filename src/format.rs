//! Rendering of an instant in four synchronized textual forms, and their JSON.
use vstd::prelude::*;
use vstd::string::StringExecFns;

use crate::civil::{civil_of, in_range, valid_date, valid_time, weekday_of};
use crate::json_utils::{escape_text, json_escape};
use crate::text::push_char;

verus! {

pub open spec fn digit(n: int) -> char {
    ((48 + n) as u8) as char
}

pub open spec fn pad2(n: int) -> Seq<char> {
    seq![digit(n / 10), digit(n % 10)]
}

pub open spec fn pad4(n: int) -> Seq<char> {
    seq![digit(n / 1000), digit((n / 100) % 10), digit((n / 10) % 10), digit(n % 10)]
}

/// A year as the extended ISO form writes it: four digits, or `-00` and four digits.
pub open spec fn iso_year(y: int) -> Seq<char> {
    if y < 0 {
        seq!['-', '0', '0'] + pad4(-y)
    } else {
        pad4(y)
    }
}

pub open spec fn pad3(n: int) -> Seq<char> {
    seq![digit(n / 100), digit((n / 10) % 10), digit(n % 10)]
}

/// A year zero-padded to four characters, a leading `-` counting as one of them.
pub open spec fn plain_year(y: int) -> Seq<char> {
    if y < 0 {
        if -y < 1000 {
            seq!['-'] + pad3(-y)
        } else {
            seq!['-'] + pad4(-y)
        }
    } else {
        pad4(y)
    }
}

pub open spec fn clock(h: int, mi: int, s: int) -> Seq<char> {
    pad2(h) + seq![':'] + pad2(mi) + seq![':'] + pad2(s)
}

pub open spec fn iso_date(y: int, m: int, d: int) -> Seq<char> {
    iso_year(y) + seq!['-'] + pad2(m) + seq!['-'] + pad2(d)
}

/// `YYYY-MM-DDTHH:MM:SSZ` of instant `s`.
pub open spec fn iso_text(s: int) -> Seq<char> {
    let (y, m, d, h, mi, se) = civil_of(s);
    iso_date(y, m, d) + seq!['T'] + clock(h, mi, se) + seq!['Z']
}

pub open spec fn weekday_abbr(w: int) -> Seq<char> {
    if w == 0 {
        "Sun"@
    } else if w == 1 {
        "Mon"@
    } else if w == 2 {
        "Tue"@
    } else if w == 3 {
        "Wed"@
    } else if w == 4 {
        "Thu"@
    } else if w == 5 {
        "Fri"@
    } else {
        "Sat"@
    }
}

pub open spec fn month_abbr(m: int) -> Seq<char> {
    month_name(m).subrange(0, 3)
}

pub open spec fn month_name(m: int) -> Seq<char> {
    if m == 1 {
        "January"@
    } else if m == 2 {
        "February"@
    } else if m == 3 {
        "March"@
    } else if m == 4 {
        "April"@
    } else if m == 5 {
        "May"@
    } else if m == 6 {
        "June"@
    } else if m == 7 {
        "July"@
    } else if m == 8 {
        "August"@
    } else if m == 9 {
        "September"@
    } else if m == 10 {
        "October"@
    } else if m == 11 {
        "November"@
    } else {
        "December"@
    }
}

/// `<Dow>, <DD> <Mon> <YYYY> <HH>:<MM>:<SS> +0000` of instant `s`.
pub open spec fn rfc2822_text(s: int) -> Seq<char> {
    let (y, m, d, h, mi, se) = civil_of(s);
    weekday_abbr(weekday_of(s)) + ", "@ + pad2(d) + " "@ + month_abbr(m) + " "@ + plain_year(y)
        + " "@ + clock(h, mi, se) + " +0000"@
}

/// The hour on a 12-hour clock: noon and midnight are 12.
pub open spec fn hour12(h: int) -> int {
    if h % 12 == 0 {
        12
    } else {
        h % 12
    }
}

/// `<Month> <DD>, <YYYY> <hh>:<MM>:<SS> <AM|PM> UTC` of instant `s`.
pub open spec fn human_text(s: int) -> Seq<char> {
    let (y, m, d, h, mi, se) = civil_of(s);
    month_name(m) + " "@ + pad2(d) + ", "@ + plain_year(y) + " "@ + clock(hour12(h), mi, se)
        + (if h < 12 {
        " AM UTC"@
    } else {
        " PM UTC"@
    })
}

/// An instant in four forms that all denote it.
pub struct FormattedResult {
    pub unix_timestamp: i64,
    pub iso_8601: String,
    pub rfc_2822: String,
    pub local_human: String,
}

impl FormattedResult {
    /// The four forms denote the instant `s`.
    pub open spec fn denotes(&self, s: int) -> bool {
        &&& self.unix_timestamp == s
        &&& self.iso_8601@ == iso_text(s)
        &&& self.rfc_2822@ == rfc2822_text(s)
        &&& self.local_human@ == human_text(s)
    }
}

fn push_digit(out: &mut String, n: i64)
    requires
        0 <= n < 10,
    ensures
        final(out)@ == old(out)@.push(digit(n as int)),
{
    push_char(out, ((48 + n) as u8) as char);
}

/// Decimal digits of `n`, most significant first, without leading zeros.
pub open spec fn nat_digits(n: nat) -> Seq<char>
    decreases n,
{
    if n < 10 {
        seq![digit(n as int)]
    } else {
        nat_digits(n / 10).push(digit((n % 10) as int))
    }
}

/// `n` written in decimal, with a leading `-` when negative.
pub open spec fn decimal(n: int) -> Seq<char> {
    if n < 0 {
        seq!['-'] + nat_digits((-n) as nat)
    } else {
        nat_digits(n as nat)
    }
}

/// The JSON object `{"unixTimestamp":..,"iso8601":"..","rfc2822":"..","localHuman":".."}`.
pub open spec fn result_json(ts: int, iso: Seq<char>, rfc: Seq<char>, human: Seq<char>) -> Seq<char> {
    "{\"unixTimestamp\":"@ + decimal(ts) + ",\"iso8601\":\""@ + escape_text(iso)
        + "\",\"rfc2822\":\""@ + escape_text(rfc) + "\",\"localHuman\":\""@ + escape_text(
        human,
    ) + "\"}"@
}

fn push_digits(out: &mut String, n: u64)
    ensures
        final(out)@ == old(out)@ + nat_digits(n as nat),
    decreases n,
{
    if n >= 10 {
        push_digits(out, n / 10);
    }
    push_digit(out, (n % 10) as i64);
    assert(out@ =~= old(out)@ + nat_digits(n as nat));
}

pub(crate) fn push_decimal(out: &mut String, n: i64)
    ensures
        final(out)@ == old(out)@ + decimal(n as int),
{
    if n < 0 {
        push_char(out, '-');
        push_digits(out, (-(n as i128)) as u64);
    } else {
        push_digits(out, n as u64);
    }
    assert(out@ =~= old(out)@ + decimal(n as int));
}

/// The strftime pattern of the RFC 2822 form.
pub open spec fn rfc2822_pattern() -> Seq<char> {
    "%a, %d %b %Y %H:%M:%S +0000"@
}

/// The strftime pattern of the human-readable form.
pub open spec fn human_pattern() -> Seq<char> {
    "%B %d, %Y %I:%M:%S %p UTC"@
}

/// Relies on `jiff::Timestamp::from_second` and `Timestamp`'s `Display`: the instant in
/// UTC as `YYYY-MM-DDTHH:MM:SSZ` (a year before 0 as `-00YYYY`), with no fraction for
/// a whole second.
#[verifier::external_body]
pub(crate) fn jiff_iso_text(ts: i64) -> (r: String)
    requires
        in_range(ts as int),
    ensures
        r@ == iso_text(ts as int),
{
    match jiff::Timestamp::from_second(ts) {
        Ok(t) => t.to_string(),
        Err(_) => String::new(),
    }
}

/// Relies on `jiff::Timestamp::from_second` and `Timestamp::strftime`, which formats in
/// UTC: `%a`/`%b`/`%B` English names, `%d`/`%H`/`%I`/`%M`/`%S` two zero-padded digits
/// (`%I` on a 12-hour clock with 12 for hour 0), `%p` `AM`/`PM`, `%Y` the year
/// zero-padded to four characters including its sign.
#[verifier::external_body]
fn jiff_strftime(ts: i64, pattern: &str) -> (r: String)
    requires
        in_range(ts as int),
    ensures
        pattern@ == rfc2822_pattern() ==> r@ == rfc2822_text(ts as int),
        pattern@ == human_pattern() ==> r@ == human_text(ts as int),
{
    match jiff::Timestamp::from_second(ts) {
        Ok(t) => t.strftime(pattern).to_string(),
        Err(_) => String::new(),
    }
}

/// Relies on `jiff::civil::Date::new` and `Date`'s `Display`: `YYYY-MM-DD` (a year
/// before 0 as `-00YYYY`).
#[verifier::external_body]
pub(crate) fn jiff_date_text(y: i16, m: i8, d: i8) -> (r: String)
    requires
        valid_date(y as int, m as int, d as int),
    ensures
        r@ == iso_date(y as int, m as int, d as int),
{
    match jiff::civil::Date::new(y, m, d) {
        Ok(x) => x.to_string(),
        Err(_) => String::new(),
    }
}

/// Relies on `jiff::civil::DateTime::new` and `DateTime`'s `Display`:
/// `YYYY-MM-DDTHH:MM:SS`, with no fraction when the sub-second part is zero.
#[verifier::external_body]
pub(crate) fn jiff_datetime_text(y: i16, m: i8, d: i8, h: i8, mi: i8, s: i8) -> (r: String)
    requires
        valid_date(y as int, m as int, d as int),
        valid_time(h as int, mi as int, s as int),
    ensures
        r@ == datetime_text(y as int, m as int, d as int, h as int, mi as int, s as int),
{
    match jiff::civil::DateTime::new(y, m, d, h, mi, s, 0) {
        Ok(x) => x.to_string(),
        Err(_) => String::new(),
    }
}

impl FormattedResult {
    /// Renders instant `ts` (whole seconds since the epoch) in all four forms.
    pub fn from_timestamp(ts: i64) -> (r: FormattedResult)
        requires
            in_range(ts as int),
        ensures
            r.denotes(ts as int),
    {
        FormattedResult {
            unix_timestamp: ts,
            iso_8601: jiff_iso_text(ts),
            rfc_2822: jiff_strftime(ts, "%a, %d %b %Y %H:%M:%S +0000"),
            local_human: jiff_strftime(ts, "%B %d, %Y %I:%M:%S %p UTC"),
        }
    }

    /// The result as a JSON object with the four fields.
    pub fn to_json(&self) -> (r: String)
        ensures
            r@ == result_json(
                self.unix_timestamp as int,
                self.iso_8601@,
                self.rfc_2822@,
                self.local_human@,
            ),
    {
        let mut out = String::new();
        out.append("{\"unixTimestamp\":");
        push_decimal(&mut out, self.unix_timestamp);
        out.append(",\"iso8601\":\"");
        out.append(json_escape(self.iso_8601.as_str()).as_str());
        out.append("\",\"rfc2822\":\"");
        out.append(json_escape(self.rfc_2822.as_str()).as_str());
        out.append("\",\"localHuman\":\"");
        out.append(json_escape(self.local_human.as_str()).as_str());
        out.append("\"}");
        assert(out@ =~= result_json(
            self.unix_timestamp as int,
            self.iso_8601@,
            self.rfc_2822@,
            self.local_human@,
        ));
        out
    }
}

/// `YYYY-MM-DDTHH:MM:SS`, a civil datetime without offset.
pub open spec fn datetime_text(y: int, m: int, d: int, h: int, mi: int, se: int) -> Seq<char> {
    iso_date(y, m, d) + seq!['T'] + clock(h, mi, se)
}

} // verus!
