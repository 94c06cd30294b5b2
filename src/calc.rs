//! Decoding of the operations array, and the arithmetic engine that applies it.
use vstd::prelude::*;
use vstd::string::StringExecFns;

use crate::civil::{
    civil_of, days_in_month, in_range, secs_from_civil, MAX_SECS, MIN_SECS,
};
use crate::civil::{is_leap, valid_date};
use crate::format::{iso_date, iso_text, FormattedResult};
use crate::instant::{civil_secs, is_date_text, is_utc_text, read_instant, start_instant};
use crate::text::{
    chars_of, is_space, is_ws, range_is, string_of_range, sub_vec, trim, trim_bounds, trim_start,
};

verus! {

/// A single arithmetic operation to apply to an instant.
pub struct Operation {
    /// `add` or `subtract`
    pub op_type: String,
    /// `years`, `months`, `days`, `hours`, `minutes` or `seconds`
    pub unit: String,
    /// The signed amount of the unit
    pub value: i64,
}

/// What an operation is, as plain values.
pub struct OpSpec {
    pub op_type: Seq<char>,
    pub unit: Seq<char>,
    pub value: i64,
}

impl Operation {
    pub open spec fn view(&self) -> OpSpec {
        OpSpec { op_type: self.op_type@, unit: self.unit@, value: self.value }
    }
}

/// First index at or after `i` where `p` occurs in `s`.
pub open spec fn find_from(s: Seq<char>, p: Seq<char>, i: int) -> Option<int>
    decreases s.len() - i,
{
    if i < 0 || i >= s.len() {
        None
    } else if i + p.len() <= s.len() && s.subrange(i, i + p.len()) == p {
        Some(i)
    } else {
        find_from(s, p, i + 1)
    }
}

pub open spec fn quoted(key: Seq<char>) -> Seq<char> {
    seq!['"'] + key + seq!['"']
}

/// The text after `"key"`, blanks and a colon, with leading blanks removed.
pub open spec fn after_colon(json: Seq<char>, key: Seq<char>) -> Option<Seq<char>> {
    match find_from(json, quoted(key), 0) {
        None => None,
        Some(k) => {
            let a = trim_start(json.subrange(k + quoted(key).len(), json.len() as int));
            if a.len() == 0 || a[0] != ':' {
                None
            } else {
                Some(trim_start(a.drop_first()))
            }
        },
    }
}

/// The quoted text that follows `"key":`, up to the next quote.
pub open spec fn string_field(json: Seq<char>, key: Seq<char>) -> Option<Seq<char>> {
    match after_colon(json, key) {
        None => None,
        Some(b) => if b.len() == 0 || b[0] != '"' {
            None
        } else {
            match find_from(b.drop_first(), seq!['"'], 0) {
                None => None,
                Some(e) => Some(b.drop_first().subrange(0, e)),
            }
        },
    }
}

pub open spec fn is_num_char(c: char) -> bool {
    c == '-' || ('0' <= c <= '9')
}

/// `s` without its leading characters that are neither `-` nor digits.
pub open spec fn skip_to_num(s: Seq<char>) -> Seq<char>
    decreases s.len(),
{
    if s.len() > 0 && !is_num_char(s[0]) {
        skip_to_num(s.drop_first())
    } else {
        s
    }
}

/// The longest prefix of `s` made of `-` and digits.
pub open spec fn num_run(s: Seq<char>) -> Seq<char>
    decreases s.len(),
{
    if s.len() > 0 && is_num_char(s[0]) {
        seq![s[0]] + num_run(s.drop_first())
    } else {
        Seq::empty()
    }
}

pub open spec fn all_digits(s: Seq<char>) -> bool {
    forall|i: int| 0 <= i < s.len() ==> '0' <= #[trigger] s[i] <= '9'
}

/// The value of a string of decimal digits.
pub open spec fn digits_value(s: Seq<char>) -> int
    decreases s.len(),
{
    if s.len() == 0 {
        0
    } else {
        digits_value(s.drop_last()) * 10 + (s.last() as int - 48)
    }
}

/// A decimal integer with an optional leading `-`, when it fits in `i64`.
pub open spec fn int_value(s: Seq<char>) -> Option<i64> {
    if s.len() > 0 && s[0] == '-' {
        let d = s.drop_first();
        if d.len() > 0 && all_digits(d) && -digits_value(d) >= i64::MIN {
            Some((-digits_value(d)) as i64)
        } else {
            None
        }
    } else if s.len() > 0 && all_digits(s) && digits_value(s) <= i64::MAX {
        Some(digits_value(s) as i64)
    } else {
        None
    }
}

/// The integer that follows `"key":`: the first run of `-` and digits after the colon.
pub open spec fn number_field(json: Seq<char>, key: Seq<char>) -> Option<i64> {
    match after_colon(json, key) {
        None => None,
        Some(b) => int_value(num_run(skip_to_num(b))),
    }
}

pub open spec fn word_add() -> Seq<char> {
    seq!['a', 'd', 'd']
}

pub open spec fn word_subtract() -> Seq<char> {
    seq!['s', 'u', 'b', 't', 'r', 'a', 'c', 't']
}

pub open spec fn is_unit_word(u: Seq<char>) -> bool {
    u == seq!['y', 'e', 'a', 'r', 's'] || u == seq!['m', 'o', 'n', 't', 'h', 's'] || u == seq![
        'd',
        'a',
        'y',
        's',
    ] || u == seq!['h', 'o', 'u', 'r', 's'] || u == seq!['m', 'i', 'n', 'u', 't', 'e', 's'] || u
        == seq!['s', 'e', 'c', 'o', 'n', 'd', 's']
}

/// The operation an object text decodes to, or the error for the first missing field
/// (in the order type, unit, value), an unknown type, or an unknown unit.
pub open spec fn decode_object(json: Seq<char>) -> Result<OpSpec, Seq<char>> {
    let t = string_field(json, seq!['t', 'y', 'p', 'e']);
    let u = string_field(json, seq!['u', 'n', 'i', 't']);
    let v = number_field(json, seq!['v', 'a', 'l', 'u', 'e']);
    if t is None {
        Err("Missing 'type' field in operation"@)
    } else if u is None {
        Err("Missing 'unit' field in operation"@)
    } else if v is None {
        Err("Missing 'value' field in operation"@)
    } else if t->Some_0 != word_add() && t->Some_0 != word_subtract() {
        Err("Unknown operation type: '"@ + t->Some_0 + "'"@)
    } else if !is_unit_word(u->Some_0) {
        Err("Unknown unit: '"@ + u->Some_0 + "'"@)
    } else {
        Ok(OpSpec { op_type: t->Some_0, unit: u->Some_0, value: v->Some_0 })
    }
}

/// Position of `p` in `s`, searching from `i`.
fn find_exec(s: &Vec<char>, p: &Vec<char>, i: usize) -> (r: Option<usize>)
    requires
        i <= s@.len(),
    ensures
        r matches Some(k) ==> find_from(s@, p@, i as int) == Some(k as int),
        r is None ==> find_from(s@, p@, i as int) is None,
{
    let mut j: usize = i;
    while j < s.len()
        invariant
            i <= j <= s@.len(),
            find_from(s@, p@, i as int) == find_from(s@, p@, j as int),
        decreases s@.len() - j,
    {
        if p.len() <= s.len() - j {
            let mut k: usize = 0;
            let mut same = true;
            while k < p.len()
                invariant
                    j + p.len() <= s.len(),
                    k <= p@.len(),
                    same == (forall|q: int| 0 <= q < k ==> s@[j + q] == p@[q]),
                decreases p@.len() - k,
            {
                if s[j + k] != p[k] {
                    same = false;
                }
                k += 1;
            }
            if same {
                assert(s@.subrange(j as int, j + p@.len()) =~= p@);
                return Some(j);
            }
            assert(s@.subrange(j as int, j + p@.len()) != p@) by {
                let q = choose|q: int| 0 <= q < p@.len() && s@[j + q] != p@[q];
                assert(s@.subrange(j as int, j + p@.len())[q] != p@[q]);
            }
        }
        j += 1;
    }
    None
}

/// Index of the first character at or after `i` that is not white space.
fn skip_blanks(s: &Vec<char>, i: usize) -> (r: usize)
    requires
        i <= s@.len(),
    ensures
        i <= r <= s@.len(),
        s@.subrange(r as int, s@.len() as int) == trim_start(s@.subrange(i as int, s@.len() as int)),
{
    let mut j: usize = i;
    while j < s.len() && is_space(s[j])
        invariant
            i <= j <= s@.len(),
            trim_start(s@.subrange(j as int, s@.len() as int)) == trim_start(
                s@.subrange(i as int, s@.len() as int),
            ),
        decreases s@.len() - j,
    {
        assert(s@.subrange(j as int, s@.len() as int).drop_first() == s@.subrange(
            j + 1,
            s@.len() as int,
        ));
        j += 1;
    }
    j
}

/// `"` followed by the characters of `key` and `"`.
fn quoted_exec(key: &str) -> (r: Vec<char>)
    ensures
        r@ == quoted(key@),
{
    let k = chars_of(key);
    let mut r: Vec<char> = vec!['"'];
    let mut i: usize = 0;
    while i < k.len()
        invariant
            i <= k@.len(),
            r@ == seq!['"'] + k@.subrange(0, i as int),
        decreases k@.len() - i,
    {
        r.push(k[i]);
        i += 1;
        assert(r@ =~= seq!['"'] + k@.subrange(0, i as int));
    }
    r.push('"');
    assert(k@.subrange(0, k@.len() as int) == k@);
    assert(r@ =~= quoted(key@));
    r
}

/// Index just after `"key"`, blanks, a colon and blanks.
fn after_colon_exec(json: &Vec<char>, key: &str) -> (r: Option<usize>)
    ensures
        r matches Some(i) ==> i <= json@.len() && after_colon(json@, key@) == Some(
            json@.subrange(i as int, json@.len() as int),
        ),
        r is None ==> after_colon(json@, key@) is None,
{
    let pat = quoted_exec(key);
    let k = match find_exec(json, &pat, 0) {
        None => return None,
        Some(k) => k,
    };
    proof {
        lemma_find_facts(json@, pat@, 0);
        assert(find_from(json@, pat@, 0) == Some(k as int));
        assert(k + pat@.len() <= json.len());
    }
    let ghost a = trim_start(json@.subrange(k + pat@.len(), json@.len() as int));
    let a0 = skip_blanks(json, k + pat.len());
    if a0 >= json.len() || json[a0] != ':' {
        return None;
    }
    assert(a.drop_first() == json@.subrange(a0 + 1, json@.len() as int));
    let b0 = skip_blanks(json, a0 + 1);
    Some(b0)
}

/// Extracts the quoted value of `key` from an object text.
fn extract_string_field(json: &Vec<char>, key: &str) -> (r: Option<String>)
    ensures
        r matches Some(v) ==> string_field(json@, key@) == Some(v@),
        r is None ==> string_field(json@, key@) is None,
{
    let b0 = match after_colon_exec(json, key) {
        None => return None,
        Some(b0) => b0,
    };
    if b0 >= json.len() || json[b0] != '"' {
        return None;
    }
    let quote: Vec<char> = vec!['"'];
    let ghost c = json@.subrange(b0 + 1, json@.len() as int);
    assert(json@.subrange(b0 as int, json@.len() as int).drop_first() =~= c);
    let ghost b = json@.subrange(b0 as int, json@.len() as int);
    assert(after_colon(json@, key@) == Some(b));
    assert(b[0] == '"');
    assert(quote@ == seq!['"']);
    assert(b.drop_first() == c);
    let e = match find_exec(json, &quote, b0 + 1) {
        None => {
            proof {
                lemma_find_shift(json@, quote@, b0 + 1);
                assert(find_from(c, quote@, 0) is None);
            }
            return None;
        },
        Some(e) => e,
    };
    proof {
        lemma_find_shift(json@, quote@, b0 + 1);
        lemma_find_facts(json@, quote@, b0 + 1);
        assert(find_from(c, quote@, 0) == Some(e - (b0 + 1)));
    }
    let r = string_of_range(json, b0 + 1, e);
    assert(r@ =~= c.subrange(0, e - (b0 + 1)));
    Some(r)
}

/// Where a search succeeds, the pattern lies there, at or after the start.
proof fn lemma_find_facts(s: Seq<char>, p: Seq<char>, i: int)
    ensures
        find_from(s, p, i) matches Some(k) ==> i <= k && k + p.len() <= s.len() && s.subrange(
            k,
            k + p.len(),
        ) == p,
    decreases s.len() - i,
{
    if 0 <= i < s.len() && !(i + p.len() <= s.len() && s.subrange(i, i + p.len()) == p) {
        lemma_find_facts(s, p, i + 1);
    }
}

/// Searching in a suffix finds what searching from its start finds, shifted.
proof fn lemma_find_shift(s: Seq<char>, p: Seq<char>, i: int)
    requires
        0 <= i <= s.len(),
    ensures
        find_from(s.subrange(i, s.len() as int), p, 0) == (match find_from(s, p, i) {
            None => None,
            Some(k) => Some(k - i),
        }),
{
    lemma_find_shift_at(s, p, i, 0);
}

proof fn lemma_find_shift_at(s: Seq<char>, p: Seq<char>, i: int, j: int)
    requires
        0 <= i <= s.len(),
        0 <= j,
    ensures
        find_from(s.subrange(i, s.len() as int), p, j) == (match find_from(s, p, i + j) {
            None => None,
            Some(k) => Some(k - i),
        }),
    decreases s.len() - i - j,
{
    let t = s.subrange(i, s.len() as int);
    if i + j >= s.len() {
    } else {
        if i + j + p.len() <= s.len() {
            assert(t.subrange(j, j + p.len()) =~= s.subrange(i + j, i + j + p.len()));
        }
        lemma_find_shift_at(s, p, i, j + 1);
    }
}

/// Reads a decimal integer with an optional leading `-` from `v@.subrange(lo, hi)`.
fn read_int(v: &Vec<char>, lo: usize, hi: usize) -> (r: Option<i64>)
    requires
        lo <= hi <= v@.len(),
    ensures
        r == int_value(v@.subrange(lo as int, hi as int)),
{
    let ghost t = v@.subrange(lo as int, hi as int);
    if lo == hi {
        return None;
    }
    let neg = v[lo] == '-';
    assert(t[0] == v@[lo as int]);
    let start: usize = if neg { lo + 1 } else { lo };
    let ghost d = v@.subrange(start as int, hi as int);
    assert(neg ==> t.drop_first() =~= d);
    assert(!neg ==> t =~= d);
    if start == hi {
        return None;
    }
    // Magnitudes above 2^63 cannot be represented either way.
    let limit: u64 = 9223372036854775808;
    let mut acc: u64 = 0;
    let mut i: usize = start;
    while i < hi
        invariant
            lo <= start <= i <= hi <= v@.len(),
            limit == 9223372036854775808u64,
            t == v@.subrange(lo as int, hi as int),
            t.len() > 0 && t[0] == v@[lo as int],
            neg == (v@[lo as int] == '-'),
            neg ==> t.drop_first() == d && start == lo + 1,
            !neg ==> t == d && start == lo,
            d.len() > 0,
            d == v@.subrange(start as int, hi as int),
            all_digits(v@.subrange(start as int, i as int)),
            acc as int == digits_value(v@.subrange(start as int, i as int)),
            acc <= limit,
        decreases hi - i,
    {
        let c = v[i];
        assert(v@.subrange(start as int, i + 1).drop_last() =~= v@.subrange(start as int, i as int));
        if !('0' <= c && c <= '9') {
            assert(!all_digits(d)) by {
                assert(d[i - start] == c);
            }
            return None;
        }
        assert(48 <= (c as u32) <= 57);
        let dv: u64 = (c as u32 - 48) as u64;
        assert(dv as int == c as int - 48);
        if acc > (limit - dv) / 10 {
            proof {
                assert(digits_value(v@.subrange(start as int, i + 1)) == acc * 10 + dv);
                lemma_digits_grow(d, i - start + 1);
                assert(d.subrange(0, i - start + 1) =~= v@.subrange(start as int, i + 1));
                assert(d.subrange(0, d.len() as int) =~= d);
            }
            return None;
        }
        acc = acc * 10 + dv;
        i += 1;
        assert(all_digits(v@.subrange(start as int, i as int))) by {
            assert forall|q: int| 0 <= q < i - start implies '0' <= #[trigger] v@.subrange(
                start as int,
                i as int,
            )[q] <= '9' by {
                if q < i - 1 - start {
                    assert(v@.subrange(start as int, i as int)[q] == v@.subrange(
                        start as int,
                        i - 1,
                    )[q]);
                }
            }
        }
    }
    if neg {
        if acc == limit {
            Some(-9223372036854775807i64 - 1)
        } else {
            Some(-(acc as i64))
        }
    } else if acc < limit {
        Some(acc as i64)
    } else {
        None
    }
}

/// A longer string of digits never has a smaller value.
proof fn lemma_digits_grow(d: Seq<char>, k: int)
    requires
        0 <= k <= d.len(),
    ensures
        all_digits(d) ==> digits_value(d) >= digits_value(d.subrange(0, k)),
    decreases d.len() - k,
{
    if k < d.len() {
        lemma_digits_grow(d, k + 1);
        let a = d.subrange(0, k + 1);
        assert(a.drop_last() =~= d.subrange(0, k));
        if all_digits(d) {
            assert('0' <= d[k] <= '9');
            assert(digits_value(d.subrange(0, k)) >= 0) by {
                lemma_digits_nonneg(d.subrange(0, k));
            }
        }
    } else {
        assert(d.subrange(0, k) =~= d);
    }
}

proof fn lemma_digits_nonneg(d: Seq<char>)
    requires
        all_digits(d),
    ensures
        digits_value(d) >= 0,
    decreases d.len(),
{
    if d.len() > 0 {
        assert(all_digits(d.drop_last())) by {
            assert forall|q: int| 0 <= q < d.len() - 1 implies '0' <= #[trigger] d.drop_last()[q]
                <= '9' by {
                assert(d.drop_last()[q] == d[q]);
            }
        }
        lemma_digits_nonneg(d.drop_last());
        assert('0' <= d[d.len() - 1] <= '9');
    }
}

/// Extracts the integer value of `key` from an object text.
fn extract_number_field(json: &Vec<char>, key: &str) -> (r: Option<i64>)
    ensures
        r == number_field(json@, key@),
{
    let b0 = match after_colon_exec(json, key) {
        None => return None,
        Some(b0) => b0,
    };
    let n = json.len();
    let mut i: usize = b0;
    while i < n && !is_num(json[i])
        invariant
            b0 <= i <= n == json@.len(),
            skip_to_num(json@.subrange(b0 as int, n as int)) == skip_to_num(
                json@.subrange(i as int, n as int),
            ),
        decreases n - i,
    {
        assert(json@.subrange(i as int, n as int).drop_first() =~= json@.subrange(i + 1, n as int));
        i += 1;
    }
    let mut j: usize = i;
    while j < n && is_num(json[j])
        invariant
            i <= j <= n == json@.len(),
            num_run(json@.subrange(i as int, n as int)) == json@.subrange(i as int, j as int)
                + num_run(json@.subrange(j as int, n as int)),
        decreases n - j,
    {
        assert(json@.subrange(j as int, n as int).drop_first() =~= json@.subrange(j + 1, n as int));
        assert(json@.subrange(i as int, j + 1) =~= json@.subrange(i as int, j as int) + seq![
            json@[j as int],
        ]);
        j += 1;
    }
    assert(json@.subrange(i as int, j as int) + num_run(json@.subrange(j as int, n as int))
        =~= json@.subrange(i as int, j as int));
    read_int(json, i, j)
}

fn is_num(c: char) -> (r: bool)
    ensures
        r == is_num_char(c),
{
    c == '-' || ('0' <= c && c <= '9')
}

/// Whether `s` spells `w`.
fn text_is(s: &String, w: &str) -> (r: bool)
    ensures
        r == (s@ == w@),
{
    let v = chars_of(s.as_str());
    assert(v@.subrange(0, v@.len() as int) == v@);
    range_is(&v, 0, v.len(), w)
}

/// Decodes one object text into an operation.
fn parse_single_operation(json: &Vec<char>) -> (r: Result<Operation, String>)
    ensures
        match decode_object(json@) {
            Ok(o) => r matches Ok(op) && op.view() == o,
            Err(m) => r matches Err(e) && e@ == m,
        },
{
    proof {
        reveal_strlit("type");
        reveal_strlit("unit");
        reveal_strlit("value");
        reveal_strlit("add");
        reveal_strlit("subtract");
        reveal_strlit("years");
        reveal_strlit("months");
        reveal_strlit("days");
        reveal_strlit("hours");
        reveal_strlit("minutes");
        reveal_strlit("seconds");
    }
    assert("type"@ =~= seq!['t', 'y', 'p', 'e']);
    assert("unit"@ =~= seq!['u', 'n', 'i', 't']);
    assert("value"@ =~= seq!['v', 'a', 'l', 'u', 'e']);
    let op_type = match extract_string_field(json, "type") {
        Some(s) => s,
        None => return Err(String::from_str("Missing 'type' field in operation")),
    };
    let unit = match extract_string_field(json, "unit") {
        Some(s) => s,
        None => return Err(String::from_str("Missing 'unit' field in operation")),
    };
    let value = match extract_number_field(json, "value") {
        Some(v) => v,
        None => return Err(String::from_str("Missing 'value' field in operation")),
    };
    assert("add"@ =~= word_add());
    assert("subtract"@ =~= word_subtract());
    if !text_is(&op_type, "add") && !text_is(&op_type, "subtract") {
        let mut msg = String::from_str("Unknown operation type: '");
        msg.append(op_type.as_str());
        msg.append("'");
        return Err(msg);
    }
    assert("years"@ =~= seq!['y', 'e', 'a', 'r', 's']);
    assert("months"@ =~= seq!['m', 'o', 'n', 't', 'h', 's']);
    assert("days"@ =~= seq!['d', 'a', 'y', 's']);
    assert("hours"@ =~= seq!['h', 'o', 'u', 'r', 's']);
    assert("minutes"@ =~= seq!['m', 'i', 'n', 'u', 't', 'e', 's']);
    assert("seconds"@ =~= seq!['s', 'e', 'c', 'o', 'n', 'd', 's']);
    if !(text_is(&unit, "years") || text_is(&unit, "months") || text_is(&unit, "days")
        || text_is(&unit, "hours") || text_is(&unit, "minutes") || text_is(&unit, "seconds")) {
        let mut msg = String::from_str("Unknown unit: '");
        msg.append(unit.as_str());
        msg.append("'");
        return Err(msg);
    }
    Ok(Operation { op_type, unit, value })
}

pub open spec fn ops_view(v: Seq<Operation>) -> Seq<OpSpec> {
    v.map_values(|o: Operation| o.view())
}

/// The objects of the array interior `inner`, from position `i` on: a `}` that brings
/// the brace depth back to zero closes an object that began after the last top-level
/// separator; the error of the first object that does not decode.
pub open spec fn scan(inner: Seq<char>, i: int, depth: int, start: int, acc: Seq<OpSpec>) -> Result<
    Seq<OpSpec>,
    Seq<char>,
>
    decreases inner.len() - i,
{
    if i < 0 || i >= inner.len() {
        Ok(acc)
    } else if inner[i] == '{' {
        scan(inner, i + 1, depth + 1, start, acc)
    } else if inner[i] == '}' {
        if depth - 1 == 0 {
            match decode_object(trim(inner.subrange(start, i + 1))) {
                Err(m) => Err(m),
                Ok(o) => scan(inner, i + 1, 0, i + 1, acc.push(o)),
            }
        } else {
            scan(inner, i + 1, depth - 1, start, acc)
        }
    } else if inner[i] == ',' && depth == 0 {
        scan(inner, i + 1, depth, i + 1, acc)
    } else {
        scan(inner, i + 1, depth, start, acc)
    }
}

/// The operations a text decodes to, in order; the error when it is not an array or
/// when one of its objects does not decode.
pub open spec fn decode_operations(json: Seq<char>) -> Result<Seq<OpSpec>, Seq<char>> {
    let t = trim(json);
    if t.len() == 0 || t == seq!['[', ']'] {
        Ok(Seq::empty())
    } else if !(t[0] == '[' && t.last() == ']') {
        Err("Operations JSON must be an array"@)
    } else {
        let inner = trim(t.subrange(1, t.len() - 1));
        if inner.len() == 0 {
            Ok(Seq::empty())
        } else {
            scan(inner, 0, 0, 0, Seq::empty())
        }
    }
}

/// Decodes a JSON array of operation objects; empty text and `[]` give no operations.
pub fn parse_operations(json: &str) -> (r: Result<Vec<Operation>, String>)
    ensures
        match decode_operations(json@) {
            Ok(ops) => r matches Ok(v) && ops_view(v@) == ops,
            Err(m) => r matches Err(e) && e@ == m,
        },
{
    let all = chars_of(json);
    let (lo, hi) = trim_bounds(&all);
    let t = sub_vec(&all, lo, hi);
    if t.len() == 0 || (t.len() == 2 && t[0] == '[' && t[1] == ']') {
        assert(t.len() == 2 && t[0] == '[' && t[1] == ']' ==> t@ =~= seq!['[', ']']);
        return Ok(Vec::new());
    }
    assert(t@ != seq!['[', ']']) by {
        if t@ == seq!['[', ']'] {
            assert(t@.len() == 2 && t@[0] == '[' && t@[1] == ']');
        }
    }
    if !(t[0] == '[' && t[t.len() - 1] == ']') {
        return Err(String::from_str("Operations JSON must be an array"));
    }
    let body = sub_vec(&t, 1, t.len() - 1);
    let (ilo, ihi) = trim_bounds(&body);
    let inner = sub_vec(&body, ilo, ihi);
    if inner.len() == 0 {
        return Ok(Vec::new());
    }
    let mut operations: Vec<Operation> = Vec::new();
    let mut depth: i128 = 0;
    let mut start: usize = 0;
    let mut i: usize = 0;
    let ghost target = scan(inner@, 0, 0, 0, Seq::empty());
    assert(decode_operations(json@) == target);
    assert(ops_view(operations@) =~= Seq::<OpSpec>::empty());
    while i < inner.len()
        invariant
            i <= inner@.len(),
            start <= i,
            -(i as int) <= depth <= i as int,
            target == decode_operations(json@),
            target == scan(inner@, i as int, depth as int, start as int, ops_view(operations@)),
        decreases inner@.len() - i,
    {
        let ch = inner[i];
        if ch == '{' {
            depth = depth + 1;
        } else if ch == '}' {
            depth = depth - 1;
            if depth == 0 {
                let obj = sub_vec(&inner, start, i + 1);
                let (olo, ohi) = trim_bounds(&obj);
                let obj_t = sub_vec(&obj, olo, ohi);
                assert(obj_t@ == trim(inner@.subrange(start as int, i + 1)));
                let op = match parse_single_operation(&obj_t) {
                    Ok(op) => op,
                    Err(e) => return Err(e),
                };
                let ghost before = operations@;
                operations.push(op);
                assert(ops_view(operations@) =~= ops_view(before).push(op.view()));
                start = i + 1;
            }
        } else if ch == ',' && depth == 0 {
            start = i + 1;
        }
        i += 1;
    }
    Ok(operations)
}

/// Seconds in one fixed-duration unit (hours, minutes, seconds; days are 86400 s in UTC).
pub open spec fn unit_seconds(u: Seq<char>) -> int {
    if u == seq!['d', 'a', 'y', 's'] {
        86400
    } else if u == seq!['h', 'o', 'u', 'r', 's'] {
        3600
    } else if u == seq!['m', 'i', 'n', 'u', 't', 'e', 's'] {
        60
    } else if u == seq!['s', 'e', 'c', 'o', 'n', 'd', 's'] {
        1
    } else {
        0
    }
}

/// Months in one calendar unit (years, months).
pub open spec fn unit_months(u: Seq<char>) -> int {
    if u == seq!['y', 'e', 'a', 'r', 's'] {
        12
    } else if u == seq!['m', 'o', 'n', 't', 'h', 's'] {
        1
    } else {
        0
    }
}

/// The signed number of units an operation moves by.
pub open spec fn signed_amount(op: OpSpec) -> int {
    if op.op_type == word_add() {
        op.value as int
    } else {
        -(op.value as int)
    }
}

/// The day `d` clamped to the last day of month `m` of year `y`.
pub open spec fn clamp_day(y: int, m: int, d: int) -> int {
    if d > days_in_month(y, m) {
        days_in_month(y, m)
    } else {
        d
    }
}

/// Instant `s` moved by `k` calendar months: the day of month is clamped to the target
/// month's length and the time of day is kept; `None` for a span beyond 239976 months,
/// outside years -9999..=9999 or outside the range of instants.
pub open spec fn add_months(s: int, k: int) -> Option<i64> {
    let (y, m, d, h, mi, se) = civil_of(s);
    let idx = y * 12 + (m - 1) + k;
    let ty = idx / 12;
    let tm = idx % 12 + 1;
    if !(-239976 <= k <= 239976) || !(-9999 <= ty <= 9999) {
        None
    } else {
        let v = secs_from_civil(ty, tm, clamp_day(ty, tm, d), h, mi, se);
        if in_range(v) {
            Some(v as i64)
        } else {
            None
        }
    }
}

/// Instant `s` moved by `delta` seconds, when the result is in range.
pub open spec fn add_seconds(s: int, delta: int) -> Option<i64> {
    if in_range(s + delta) {
        Some((s + delta) as i64)
    } else {
        None
    }
}

/// The instant one operation takes `s` to.
#[verifier::opaque]
pub open spec fn apply_spec(s: int, op: OpSpec) -> Option<i64> {
    if op.op_type != word_add() && op.op_type != word_subtract() {
        None
    } else if unit_months(op.unit) != 0 {
        add_months(s, signed_amount(op) * unit_months(op.unit))
    } else if unit_seconds(op.unit) != 0 {
        add_seconds(s, signed_amount(op) * unit_seconds(op.unit))
    } else {
        None
    }
}

/// The error an operation that cannot be applied reports: an unknown unit first, then
/// an unknown type, else the out-of-range failure naming the operation.
pub open spec fn apply_error(op: OpSpec) -> Seq<char> {
    if !is_unit_word(op.unit) {
        "Unknown unit: '"@ + op.unit + "'"@
    } else if op.op_type != word_add() && op.op_type != word_subtract() {
        "Unknown operation type: '"@ + op.op_type + "'"@
    } else if op.op_type == word_add() {
        "Add operation failed: out of range"@
    } else {
        "Subtract operation failed: out of range"@
    }
}

/// One operation applied to `s`, or its error.
pub open spec fn apply_result(s: int, op: OpSpec) -> Result<i64, Seq<char>> {
    match apply_spec(s, op) {
        Some(v) => Ok(v),
        None => Err(apply_error(op)),
    }
}

/// The operations applied left to right from `s`; the first failing one's error.
pub open spec fn fold_ops(s: i64, ops: Seq<OpSpec>) -> Result<i64, Seq<char>>
    decreases ops.len(),
{
    if ops.len() == 0 {
        Ok(s)
    } else {
        match fold_ops(s, ops.drop_last()) {
            Err(m) => Err(m),
            Ok(x) => apply_result(x as int, ops.last()),
        }
    }
}

/// The error for a start text that no grammar accepts, citing the trimmed text.
pub open spec fn start_error(t: Seq<char>) -> Seq<char> {
    "Could not parse '"@ + t + "' as a date or datetime"@
}

/// The instant a calculation ends at: the start text read as an instant, then every
/// decoded operation applied in order; otherwise the error of the first step that fails.
pub open spec fn calculation(start: Seq<char>, ops: Seq<char>) -> Result<i64, Seq<char>> {
    match start_instant(trim(start)) {
        None => Err(start_error(trim(start))),
        Some(s) => match decode_operations(ops) {
            Err(m) => Err(m),
            Ok(os) => fold_ops(s, os),
        },
    }
}

/// Relies on `jiff::Timestamp::from_second`, `Timestamp::to_zoned` in UTC and
/// `Zoned::checked_add` with a span of `k` months: the civil date moves by `k` months with
/// the day clamped to the target month's length and the time of day kept; it fails
/// outside jiff's civil years -9999..=9999 and its timestamp range.
#[verifier::external_body]
fn jiff_add_months(ts: i64, k: i64) -> (r: Option<i64>)
    requires
        in_range(ts as int),
        -239976 <= k <= 239976,
    ensures
        r == add_months(ts as int, k as int),
{
    match jiff::Timestamp::from_second(ts) {
        Ok(t) => t.to_zoned(jiff::tz::TimeZone::UTC).checked_add(jiff::Span::new().months(k)).ok().map(
            |z| z.timestamp().as_second(),
        ),
        Err(_) => None,
    }
}

/// Moves instant `ts` by `k` calendar months, clamping the day of month.
pub fn shift_months(ts: i64, k: i128) -> (r: Option<i64>)
    requires
        in_range(ts as int),
    ensures
        r == add_months(ts as int, k as int),
{
    if k < -239976 || k > 239976 {
        return None;
    }
    jiff_add_months(ts, k as i64)
}

fn unit_months_exec(u: &String) -> (r: i128)
    ensures
        r == unit_months(u@),
{
    proof {
        reveal_strlit("years");
        reveal_strlit("months");
    }
    assert("years"@ =~= seq!['y', 'e', 'a', 'r', 's']);
    assert("months"@ =~= seq!['m', 'o', 'n', 't', 'h', 's']);
    if text_is(u, "years") {
        12
    } else if text_is(u, "months") {
        1
    } else {
        0
    }
}

fn unit_seconds_exec(u: &String) -> (r: i128)
    ensures
        r == unit_seconds(u@),
{
    proof {
        reveal_strlit("days");
        reveal_strlit("hours");
        reveal_strlit("minutes");
        reveal_strlit("seconds");
    }
    assert("days"@ =~= seq!['d', 'a', 'y', 's']);
    assert("hours"@ =~= seq!['h', 'o', 'u', 'r', 's']);
    assert("minutes"@ =~= seq!['m', 'i', 'n', 'u', 't', 'e', 's']);
    assert("seconds"@ =~= seq!['s', 'e', 'c', 'o', 'n', 'd', 's']);
    if text_is(u, "days") {
        86400
    } else if text_is(u, "hours") {
        3600
    } else if text_is(u, "minutes") {
        60
    } else if text_is(u, "seconds") {
        1
    } else {
        0
    }
}

/// Applies one operation to instant `ts`.
fn apply_operation(ts: i64, op: &Operation) -> (r: Result<i64, String>)
    requires
        in_range(ts as int),
    ensures
        match apply_result(ts as int, op.view()) {
            Ok(v) => r matches Ok(x) && x == v,
            Err(m) => r matches Err(e) && e@ == m,
        },
        r matches Ok(x) ==> in_range(x as int),
{
    reveal(apply_spec);
    let months = unit_months_exec(&op.unit);
    let secs = unit_seconds_exec(&op.unit);
    assert(is_unit_word(op.unit@) <==> (months != 0 || secs != 0));
    if months == 0 && secs == 0 {
        let mut msg = String::from_str("Unknown unit: '");
        msg.append(op.unit.as_str());
        msg.append("'");
        return Err(msg);
    }
    proof {
        reveal_strlit("add");
        reveal_strlit("subtract");
    }
    assert("add"@ =~= word_add());
    assert("subtract"@ =~= word_subtract());
    let add = text_is(&op.op_type, "add");
    let amount: i128 = if add {
        op.value as i128
    } else if text_is(&op.op_type, "subtract") {
        -(op.value as i128)
    } else {
        let mut msg = String::from_str("Unknown operation type: '");
        msg.append(op.op_type.as_str());
        msg.append("'");
        return Err(msg);
    };
    let failed = if add {
        "Add operation failed: out of range"
    } else {
        "Subtract operation failed: out of range"
    };
    if months != 0 {
        match shift_months(ts, amount * months) {
            Some(v) => Ok(v),
            None => Err(String::from_str(failed)),
        }
    } else {
        let v: i128 = ts as i128 + amount * secs;
        if MIN_SECS as i128 <= v && v <= MAX_SECS as i128 {
            Ok(v as i64)
        } else {
            Err(String::from_str(failed))
        }
    }
}

/// Reads the start instant, decodes the operations and applies them in order.
pub fn calculate(start_date: &str, operations_json: &str) -> (r: Result<FormattedResult, String>)
    ensures
        match calculation(start_date@, operations_json@) {
            Ok(x) => r matches Ok(f) && f.denotes(x as int),
            Err(m) => r matches Err(e) && e@ == m,
        },
{
    let ts = parse_start_date(start_date)?;
    let operations = parse_operations(operations_json)?;
    let ghost os = ops_view(operations@);
    assert(calculation(start_date@, operations_json@) == fold_ops(ts, os));
    let mut current = ts;
    let mut i: usize = 0;
    while i < operations.len()
        invariant
            i <= operations@.len(),
            os == ops_view(operations@),
            calculation(start_date@, operations_json@) == fold_ops(ts, os),
            in_range(current as int),
            fold_ops(ts, os.subrange(0, i as int)) == Ok::<i64, Seq<char>>(current),
        decreases operations@.len() - i,
    {
        let ghost prev = current;
        proof {
            assert(os.subrange(0, i + 1).drop_last() =~= os.subrange(0, i as int));
            assert(os.subrange(0, i + 1).last() == operations@[i as int].view());
            assert(fold_ops(ts, os.subrange(0, i + 1)) == apply_result(
                prev as int,
                operations@[i as int].view(),
            ));
        }
        current = match apply_operation(current, &operations[i]) {
            Ok(v) => v,
            Err(e) => {
                proof {
                    lemma_fold_stops(ts, os, i + 1);
                }
                return Err(e);
            },
        };
        i += 1;
    }
    assert(os.subrange(0, os.len() as int) =~= os);
    Ok(FormattedResult::from_timestamp(current))
}

/// Once a prefix of the operations fails, the whole list fails with that error.
proof fn lemma_fold_stops(s: i64, ops: Seq<OpSpec>, k: int)
    requires
        0 <= k <= ops.len(),
        fold_ops(s, ops.subrange(0, k)) is Err,
    ensures
        fold_ops(s, ops) == fold_ops(s, ops.subrange(0, k)),
    decreases ops.len() - k,
{
    if k < ops.len() {
        assert(ops.subrange(0, k + 1).drop_last() =~= ops.subrange(0, k));
        lemma_fold_stops(s, ops, k + 1);
    } else {
        assert(ops.subrange(0, k) =~= ops);
    }
}

/// Reads the start instant from text, ignoring surrounding white space.
pub fn parse_start_date(start_date: &str) -> (r: Result<i64, String>)
    ensures
        match start_instant(trim(start_date@)) {
            Some(x) => r matches Ok(v) && v == x && in_range(x as int),
            None => r matches Err(e) && e@ == start_error(trim(start_date@)),
        },
        forall|x: int| #[trigger]
            iso_text(x) == start_date@ && in_range(x) ==> (r matches Ok(v) && v == x),
        forall|y: int| #[trigger]
            is_date_text(start_date@, y, 2, 29) ==> (r is Ok <==> is_leap(y)),
        forall|y: int| #[trigger]
            is_utc_text(start_date@, y, 2, 29, 0, 0, 0) ==> (r is Ok <==> is_leap(y)),
{
    let v = chars_of(start_date);
    let (lo, hi) = trim_bounds(&v);
    let trimmed = string_of_range(&v, lo, hi);
    assert forall|x: int| #[trigger] iso_text(x) == start_date@ && in_range(x) implies trimmed@
        == iso_text(x) by {
        lemma_iso_text_untrimmed(x);
    }
    assert forall|y: int| #[trigger] is_date_text(start_date@, y, 2, 29) implies trimmed@
        == start_date@ && (valid_date(y, 2, 29) <==> is_leap(y)) && (is_leap(y) ==> civil_secs(
        y,
        2,
        29,
        0,
        0,
        0,
    ) is Some) by {
        lemma_date_text_untrimmed(y, 2, 29);
        lemma_leap_day_in_range(y);
    }
    assert forall|y: int| #[trigger] is_utc_text(start_date@, y, 2, 29, 0, 0, 0) implies trimmed@
        == start_date@ && (valid_date(y, 2, 29) <==> is_leap(y)) && (is_leap(y) ==> civil_secs(
        y,
        2,
        29,
        0,
        0,
        0,
    ) is Some) by {
        lemma_utc_text_untrimmed(y, 2, 29, 0, 0, 0);
        lemma_leap_day_in_range(y);
    }
    match read_instant(trimmed.as_str()) {
        Some(ts) => Ok(ts),
        None => {
            let mut msg = String::from_str("Could not parse '");
            msg.append(trimmed.as_str());
            msg.append("' as a date or datetime");
            Err(msg)
        },
    }
}

/// Calculating with `[]` gives what calculating with no operations text gives.
pub proof fn lemma_empty_array_is_no_operations(start: Seq<char>)
    ensures
        calculation(start, seq!['[', ']']) == calculation(start, Seq::empty()),
{
    let e = seq!['[', ']'];
    assert(trim_start(e) == e);
    assert(e.last() == ']');
    assert(crate::text::trim_end(e) == e);
    assert(trim(e) == e);
    let z = Seq::<char>::empty();
    assert(trim_start(z) == z);
    assert(crate::text::trim_end(z) == z);
    assert(decode_operations(e) == Ok::<Seq<OpSpec>, Seq<char>>(Seq::<OpSpec>::empty()));
    assert(decode_operations(z) == Ok::<Seq<OpSpec>, Seq<char>>(Seq::<OpSpec>::empty()));
}

/// The operation `kind` of `n` of unit `unit`.
pub open spec fn op_of(kind: Seq<char>, unit: Seq<char>, n: i64) -> OpSpec {
    OpSpec { op_type: kind, unit, value: n }
}

/// Adding `n` of a fixed-duration unit and then subtracting `n` of it returns to the
/// start, whenever the addition stays in range.
pub proof fn lemma_fixed_units_reverse(s: i64, unit: Seq<char>, n: i64)
    requires
        in_range(s as int),
        unit_seconds(unit) != 0,
        unit_months(unit) == 0,
    ensures
        apply_spec(s as int, op_of(word_add(), unit, n)) matches Some(t) ==> apply_spec(
            t as int,
            op_of(word_subtract(), unit, n),
        ) == Some(s),
{
    reveal(apply_spec);
    assert(word_add() != word_subtract()) by {
        assert(word_add().len() != word_subtract().len());
    }
}

/// Adding one month to the 31st of a month lands on the same time of day on the
/// following month's day 31 clamped to that month's length: its last day when the
/// month is shorter.
pub proof fn lemma_month_end_clamps(s: i64)
    requires
        in_range(s as int),
        civil_of(s as int).2 == 31,
    ensures
        ({
            let (y, m, d, h, mi, se) = civil_of(s as int);
            let ny = if m == 12 { y + 1 } else { y };
            let nm = if m == 12 { 1 } else { m + 1 };
            let v = secs_from_civil(ny, nm, days_in_month(ny, nm), h, mi, se);
            apply_spec(s as int, op_of(word_add(), seq!['m', 'o', 'n', 't', 'h', 's'], 1)) == (
            if ny <= 9999 && in_range(v) {
                Some(v as i64)
            } else {
                None
            })
        }),
{
    reveal(apply_spec);
    let (y, m, d, h, mi, se) = civil_of(s as int);
    crate::civil::lemma_year_of_instant(s as int);
    crate::civil::lemma_month_of_instant(s as int);
    let idx = y * 12 + (m - 1) + 1;
    if m == 12 {
        assert(idx / 12 == y + 1 && idx % 12 + 1 == 1);
    } else {
        assert(idx / 12 == y && idx % 12 + 1 == m + 1);
    }
    let mo = seq!['m', 'o', 'n', 't', 'h', 's'];
    assert(mo != seq!['y', 'e', 'a', 'r', 's']) by {
        assert(mo.len() != 5);
    }
    assert(unit_months(mo) == 1);
}

/// A text that neither starts nor ends with white space is its own trimmed form.
proof fn lemma_untrimmed(s: Seq<char>)
    requires
        s.len() > 0,
        !is_ws(s[0]),
        !is_ws(s.last()),
    ensures
        trim(s) == s,
{
    assert(trim_start(s) == s);
    assert(crate::text::trim_end(s) == s);
}

proof fn lemma_digit_not_ws(n: int)
    requires
        0 <= n < 10,
    ensures
        !is_ws(crate::format::digit(n)),
        '0' <= crate::format::digit(n) <= '9',
{
}

proof fn lemma_iso_text_untrimmed(x: int)
    requires
        in_range(x),
    ensures
        trim(iso_text(x)) == iso_text(x),
{
    let (y, m, d, h, mi, se) = civil_of(x);
    crate::civil::lemma_year_of_instant(x);
    let t = iso_text(x);
    if y >= 0 {
        lemma_digit_not_ws(y / 1000);
        assert(t[0] == crate::format::digit(y / 1000));
    } else {
        assert(t[0] == '-');
    }
    assert(t.last() == 'Z');
    lemma_untrimmed(t);
}

proof fn lemma_date_text_untrimmed(y: int, m: int, d: int)
    requires
        0 <= y <= 9999,
        0 <= m <= 99,
        0 <= d <= 99,
    ensures
        trim(iso_date(y, m, d)) == iso_date(y, m, d),
{
    let t = iso_date(y, m, d);
    lemma_digit_not_ws(y / 1000);
    lemma_digit_not_ws(d % 10);
    assert(t[0] == crate::format::digit(y / 1000));
    assert(t.last() == crate::format::digit(d % 10));
    lemma_untrimmed(t);
}

proof fn lemma_utc_text_untrimmed(y: int, m: int, d: int, h: int, mi: int, se: int)
    requires
        is_utc_text(iso_date(y, m, d) + seq!['T'] + crate::format::clock(h, mi, se) + seq!['Z'], y, m, d, h, mi, se),
    ensures
        ({
            let t = iso_date(y, m, d) + seq!['T'] + crate::format::clock(h, mi, se) + seq!['Z'];
            trim(t) == t
        }),
{
    let t = iso_date(y, m, d) + seq!['T'] + crate::format::clock(h, mi, se) + seq!['Z'];
    lemma_digit_not_ws(y / 1000);
    assert(t[0] == crate::format::digit(y / 1000));
    assert(t.last() == 'Z');
    lemma_untrimmed(t);
}

/// February 29 of a year 0..=9999 exists exactly in leap years, and is then in range.
pub proof fn lemma_leap_day_in_range(y: int)
    requires
        0 <= y <= 9999,
    ensures
        valid_date(y, 2, 29) <==> is_leap(y),
        is_leap(y) ==> civil_secs(y, 2, 29, 0, 0, 0) is Some,
{
    let y2 = y - 1 + 10400;
    let era = y2 / 400;
    let yoe = y2 % 400;
    assert(25 <= era <= 50);
    if era == 50 {
        assert(yoe <= 398);
    }
    let days = crate::civil::days_from_civil(y, 2, 29);
    assert(days == era * 146097 + yoe * 365 + yoe / 4 - yoe / 100 + 365 - 4517990);
    assert(-1000000 <= days <= 2932591);
}

} // verus!
