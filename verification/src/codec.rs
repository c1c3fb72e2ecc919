//! The type codec: from a value read out of a row and the declared type of
//! its column to the literal that inserts the same value again. A cell that
//! cannot be read as a value of its column's type is tried as an integer, as
//! a floating-point value and as a truth value before it is given up.

use crate::codec_laws::{is_sound_literal, lemma_literals_are_sound};
use crate::schema::ColumnInfo;
use crate::text::{
    contains_char, decimal_digits, int_text, joined, lower, lowered, push_joined, quote_with,
    quoted, same_text, signed_text, text_view, views,
};
use std::fmt::Write;
use vstd::prelude::*;
use vstd::string::*;

verus! {

// ---------------------------------------------------------------------------
// Values
// ---------------------------------------------------------------------------
/// The families of column types that the codec tells apart. `Text` is also
/// the family of every type that belongs to no other.
#[derive(Clone, Copy, Debug, PartialEq, Eq, Structural)]
pub enum TypeCategory {
    Integer,
    BigInt,
    SmallInt,
    Numeric,
    Real,
    Double,
    Boolean,
    Timestamp,
    TimestampTz,
    Date,
    Time,
    Network,
    Json,
    Text,
}

/// An arbitrary-precision decimal: `unscaled * 10^(-scale)`, the unscaled
/// integer in two's complement, most significant byte first.
#[derive(Clone, Debug)]
pub struct Decimal {
    pub unscaled: Vec<u8>,
    pub scale: i64,
}

/// A point in time: whole seconds since 1970-01-01 00:00:00 and the
/// nanoseconds into that second.
#[derive(Clone, Copy, Debug)]
pub struct Moment {
    pub seconds: i64,
    pub nanos: u32,
}

/// A time of day: whole seconds since midnight and the nanoseconds into that
/// second.
#[derive(Clone, Copy, Debug)]
pub struct TimeOfDay {
    pub seconds: u32,
    pub nanos: u32,
}

/// An address with the length of its network prefix.
#[derive(Clone, Copy, Debug)]
pub enum Network {
    V4 { a: u8, b: u8, c: u8, d: u8, prefix: u8 },
    V6 { bits: u128, prefix: u8 },
}

/// A value read out of a row. Floating-point values arrive as the text that
/// their reader printed them to; JSON documents arrive as text.
#[derive(Clone, Debug)]
pub enum ColumnValue {
    SmallInt(i16),
    Integer(i32),
    BigInt(i64),
    Numeric(Decimal),
    Real(String),
    Double(String),
    Boolean(bool),
    Timestamp(Moment),
    TimestampTz(Moment),
    Date(i32),
    Time(TimeOfDay),
    Network(Network),
    Json(String),
    Text(String),
}

impl ColumnValue {
    /// The family that a value belongs to.
    pub open spec fn category(self) -> TypeCategory {
        match self {
            ColumnValue::SmallInt(_) => TypeCategory::SmallInt,
            ColumnValue::Integer(_) => TypeCategory::Integer,
            ColumnValue::BigInt(_) => TypeCategory::BigInt,
            ColumnValue::Numeric(_) => TypeCategory::Numeric,
            ColumnValue::Real(_) => TypeCategory::Real,
            ColumnValue::Double(_) => TypeCategory::Double,
            ColumnValue::Boolean(_) => TypeCategory::Boolean,
            ColumnValue::Timestamp(_) => TypeCategory::Timestamp,
            ColumnValue::TimestampTz(_) => TypeCategory::TimestampTz,
            ColumnValue::Date(_) => TypeCategory::Date,
            ColumnValue::Time(_) => TypeCategory::Time,
            ColumnValue::Network(_) => TypeCategory::Network,
            ColumnValue::Json(_) => TypeCategory::Json,
            ColumnValue::Text(_) => TypeCategory::Text,
        }
    }

    /// The family that the value belongs to.
    pub fn kind(&self) -> (r: TypeCategory)
        ensures
            r == self.category(),
    {
        match self {
            ColumnValue::SmallInt(_) => TypeCategory::SmallInt,
            ColumnValue::Integer(_) => TypeCategory::Integer,
            ColumnValue::BigInt(_) => TypeCategory::BigInt,
            ColumnValue::Numeric(_) => TypeCategory::Numeric,
            ColumnValue::Real(_) => TypeCategory::Real,
            ColumnValue::Double(_) => TypeCategory::Double,
            ColumnValue::Boolean(_) => TypeCategory::Boolean,
            ColumnValue::Timestamp(_) => TypeCategory::Timestamp,
            ColumnValue::TimestampTz(_) => TypeCategory::TimestampTz,
            ColumnValue::Date(_) => TypeCategory::Date,
            ColumnValue::Time(_) => TypeCategory::Time,
            ColumnValue::Network(_) => TypeCategory::Network,
            ColumnValue::Json(_) => TypeCategory::Json,
            ColumnValue::Text(_) => TypeCategory::Text,
        }
    }
}

// ---------------------------------------------------------------------------
// Type names
// ---------------------------------------------------------------------------
/// The family of a type, by its name in lower case. The names are tried in
/// this order, and a name that is none of them belongs to `Text`.
pub open spec fn category_of(lowered: Seq<char>) -> TypeCategory {
    if lowered == "integer"@ || lowered == "int4"@ {
        TypeCategory::Integer
    } else if lowered == "bigint"@ || lowered == "int8"@ {
        TypeCategory::BigInt
    } else if lowered == "smallint"@ || lowered == "int2"@ {
        TypeCategory::SmallInt
    } else if lowered == "numeric"@ || lowered == "decimal"@ {
        TypeCategory::Numeric
    } else if lowered == "real"@ || lowered == "float4"@ {
        TypeCategory::Real
    } else if lowered == "double precision"@ || lowered == "float8"@ {
        TypeCategory::Double
    } else if lowered == "boolean"@ || lowered == "bool"@ {
        TypeCategory::Boolean
    } else if lowered == "timestamp"@ || lowered == "timestamp without time zone"@ {
        TypeCategory::Timestamp
    } else if lowered == "timestamp with time zone"@ || lowered == "timestamptz"@ {
        TypeCategory::TimestampTz
    } else if lowered == "date"@ {
        TypeCategory::Date
    } else if lowered == "time"@ || lowered == "time without time zone"@ {
        TypeCategory::Time
    } else if lowered == "inet"@ || lowered == "cidr"@ {
        TypeCategory::Network
    } else if lowered == "json"@ || lowered == "jsonb"@ {
        TypeCategory::Json
    } else {
        TypeCategory::Text
    }
}

/// The family of the type whose name, in lower case, is `lowered`.
pub fn classify_lowered(lowered: &str) -> (r: TypeCategory)
    ensures
        r == category_of(lowered@),
{
    if same_text(lowered, "integer") || same_text(lowered, "int4") {
        TypeCategory::Integer
    } else if same_text(lowered, "bigint") || same_text(lowered, "int8") {
        TypeCategory::BigInt
    } else if same_text(lowered, "smallint") || same_text(lowered, "int2") {
        TypeCategory::SmallInt
    } else if same_text(lowered, "numeric") || same_text(lowered, "decimal") {
        TypeCategory::Numeric
    } else if same_text(lowered, "real") || same_text(lowered, "float4") {
        TypeCategory::Real
    } else if same_text(lowered, "double precision") || same_text(lowered, "float8") {
        TypeCategory::Double
    } else if same_text(lowered, "boolean") || same_text(lowered, "bool") {
        TypeCategory::Boolean
    } else if same_text(lowered, "timestamp") || same_text(
        lowered,
        "timestamp without time zone",
    ) {
        TypeCategory::Timestamp
    } else if same_text(lowered, "timestamp with time zone") || same_text(
        lowered,
        "timestamptz",
    ) {
        TypeCategory::TimestampTz
    } else if same_text(lowered, "date") {
        TypeCategory::Date
    } else if same_text(lowered, "time") || same_text(lowered, "time without time zone") {
        TypeCategory::Time
    } else if same_text(lowered, "inet") || same_text(lowered, "cidr") {
        TypeCategory::Network
    } else if same_text(lowered, "json") || same_text(lowered, "jsonb") {
        TypeCategory::Json
    } else {
        TypeCategory::Text
    }
}

/// The family of a declared type, whatever the case of its name.
pub fn classify(data_type: &str) -> (r: TypeCategory)
    ensures
        r == category_of(lowered(data_type@)),
{
    let lowered = lower(data_type);
    classify_lowered(lowered.as_str())
}

// ---------------------------------------------------------------------------
// Renderings that other crates compute
// ---------------------------------------------------------------------------
/// What `bigdecimal` prints for the decimal `unscaled * 10^(-scale)`, the
/// unscaled integer given in two's complement, most significant byte first.
pub uninterp spec fn decimal_text(unscaled: Seq<u8>, scale: int) -> Seq<char>;

/// `BigDecimal::new` on `BigInt::from_signed_bytes_be(unscaled)` and `scale`,
/// printed by `BigDecimal`'s `Display`: plain or exponential notation, by
/// thresholds that are fixed when the crate is built. Both constructors take
/// every input. The contract only gives the printed text a name.
#[verifier::external_body]
fn render_decimal(unscaled: &[u8], scale: i64) -> (r: String)
    ensures
        r@ == decimal_text(unscaled@, scale as int),
{
    let digits = bigdecimal::num_bigint::BigInt::from_signed_bytes_be(unscaled);
    bigdecimal::BigDecimal::new(digits, scale).to_string()
}

/// What `chrono` prints for the date and time at `seconds` and `nanos` after
/// the epoch, by the format `pattern`; `None` where `chrono` has no such
/// moment or cannot print by that pattern.
pub uninterp spec fn timestamp_text(seconds: int, nanos: int, pattern: Seq<char>) -> Option<
    Seq<char>,
>;

/// `DateTime::from_timestamp`, which refuses seconds out of its range and
/// nanoseconds that are no part of that second, then `NaiveDateTime::format`
/// on the moment's date and time. A pattern that `chrono` cannot print by
/// ends in `None` too. The contract only gives the outcome a name.
#[verifier::external_body]
fn format_timestamp(seconds: i64, nanos: u32, pattern: &str) -> (r: Option<String>)
    ensures
        match timestamp_text(seconds as int, nanos as int, pattern@) {
            Some(t) => r matches Some(s) && s@ == t,
            None => r is None,
        },
{
    match chrono::DateTime::from_timestamp(seconds, nanos) {
        Some(moment) => {
            let mut out = String::new();
            match write!(out, "{}", moment.naive_utc().format(pattern)) {
                Ok(()) => Some(out),
                Err(_) => None,
            }
        },
        None => None,
    }
}

/// What `chrono` prints in the RFC 3339 form for the moment at `seconds` and
/// `nanos` after the epoch, in UTC; `None` where `chrono` has no such moment.
pub uninterp spec fn rfc3339_text(seconds: int, nanos: int) -> Option<Seq<char>>;

/// `DateTime::from_timestamp`, then `DateTime::<Utc>::to_rfc3339`, which
/// prints every moment in UTC. The contract only gives the outcome a name.
#[verifier::external_body]
fn format_rfc3339(seconds: i64, nanos: u32) -> (r: Option<String>)
    ensures
        match rfc3339_text(seconds as int, nanos as int) {
            Some(t) => r matches Some(s) && s@ == t,
            None => r is None,
        },
{
    match chrono::DateTime::from_timestamp(seconds, nanos) {
        Some(moment) => Some(moment.to_rfc3339()),
        None => None,
    }
}

/// What `chrono` prints for the date `days` days after 0000-12-31, by the
/// format `pattern`; `None` where `chrono` has no such date or cannot print
/// by that pattern.
pub uninterp spec fn date_text(days: int, pattern: Seq<char>) -> Option<Seq<char>>;

/// `NaiveDate::from_num_days_from_ce_opt`, which refuses days out of its
/// range, then `NaiveDate::format`. The contract only gives the outcome a
/// name.
#[verifier::external_body]
fn format_date(days: i32, pattern: &str) -> (r: Option<String>)
    ensures
        match date_text(days as int, pattern@) {
            Some(t) => r matches Some(s) && s@ == t,
            None => r is None,
        },
{
    match chrono::NaiveDate::from_num_days_from_ce_opt(days) {
        Some(date) => {
            let mut out = String::new();
            match write!(out, "{}", date.format(pattern)) {
                Ok(()) => Some(out),
                Err(_) => None,
            }
        },
        None => None,
    }
}

/// What `chrono` prints for the time of day `seconds` and `nanos` after
/// midnight, by the format `pattern`; `None` where `chrono` has no such time
/// or cannot print by that pattern.
pub uninterp spec fn time_text(seconds: int, nanos: int, pattern: Seq<char>) -> Option<Seq<char>>;

/// `NaiveTime::from_num_seconds_from_midnight_opt`, which refuses what lies
/// beyond the day, then `NaiveTime::format`. The contract only gives the
/// outcome a name.
#[verifier::external_body]
fn format_time(seconds: u32, nanos: u32, pattern: &str) -> (r: Option<String>)
    ensures
        match time_text(seconds as int, nanos as int, pattern@) {
            Some(t) => r matches Some(s) && s@ == t,
            None => r is None,
        },
{
    match chrono::NaiveTime::from_num_seconds_from_midnight_opt(seconds, nanos) {
        Some(time) => {
            let mut out = String::new();
            match write!(out, "{}", time.format(pattern)) {
                Ok(()) => Some(out),
                Err(_) => None,
            }
        },
        None => None,
    }
}

/// An IPv4 network in the usual notation: the four bytes of the address in
/// decimal with dots between them, a slash, and the prefix length.
pub open spec fn ipv4_network_text(a: int, b: int, c: int, d: int, prefix: int) -> Seq<char> {
    decimal_digits(a as nat) + "."@ + decimal_digits(b as nat) + "."@ + decimal_digits(c as nat)
        + "."@ + decimal_digits(d as nat) + "/"@ + decimal_digits(prefix as nat)
}

/// `Ipv4Network::new`, which accepts a prefix of at most 32 bits, printed by
/// its `Display`: the address as the standard library prints it, a slash and
/// the prefix.
#[verifier::external_body]
fn format_ipv4_network(a: u8, b: u8, c: u8, d: u8, prefix: u8) -> (r: Option<String>)
    ensures
        r is Some <==> prefix <= 32,
        r matches Some(s) ==> s@ == ipv4_network_text(
            a as int,
            b as int,
            c as int,
            d as int,
            prefix as int,
        ),
{
    match ipnetwork::Ipv4Network::new([a, b, c, d].into(), prefix) {
        Ok(network) => Some(network.to_string()),
        Err(_) => None,
    }
}

/// What `ipnetwork` prints for the IPv6 network with the address `bits` and
/// the prefix length `prefix`.
pub uninterp spec fn ipv6_network_text(bits: int, prefix: int) -> Seq<char>;

/// `Ipv6Network::new`, which accepts a prefix of at most 128 bits, printed by
/// its `Display`: the address as the standard library prints it, a slash and
/// the prefix. The contract gives the text a name.
#[verifier::external_body]
fn format_ipv6_network(bits: u128, prefix: u8) -> (r: Option<String>)
    ensures
        r is Some <==> prefix <= 128,
        r matches Some(s) ==> s@ == ipv6_network_text(bits as int, prefix as int),
{
    match ipnetwork::Ipv6Network::new(bits.into(), prefix) {
        Ok(network) => Some(network.to_string()),
        Err(_) => None,
    }
}

/// What `serde_json` prints for a document in its compact form; `None`
/// where its parser refuses the document.
pub uninterp spec fn json_compact_text(document: Seq<char>) -> Option<Seq<char>>;

/// `serde_json::from_str` into a `Value`, printed again by the `Display` of
/// `Value`, which writes the compact form. Where the parser fails, nothing
/// comes back. The contract only gives the outcome a name.
#[verifier::external_body]
fn compact_json(document: &str) -> (r: Option<String>)
    ensures
        match json_compact_text(document@) {
            Some(t) => r matches Some(s) && s@ == t,
            None => r is None,
        },
{
    match serde_json::from_str::<serde_json::Value>(document) {
        Ok(value) => Some(value.to_string()),
        Err(_) => None,
    }
}

// ---------------------------------------------------------------------------
// Literals of values
// ---------------------------------------------------------------------------
/// `s` as a string literal: between single quotes, each single quote inside
/// it doubled.
pub open spec fn string_literal(s: Seq<char>) -> Seq<char> {
    quoted(s, '\'')
}

/// `s` between single quotes, nothing in it changed.
pub open spec fn wrapped(s: Seq<char>) -> Seq<char> {
    "'"@ + s + "'"@
}

/// The literal of a truth value.
pub open spec fn bool_text(b: bool) -> Seq<char> {
    if b {
        "TRUE"@
    } else {
        "FALSE"@
    }
}

/// The literal of an absent value.
pub open spec fn null_text() -> Seq<char> {
    "NULL"@
}

/// A text that holds no single quote, so that it cannot end a literal that
/// it stands in.
pub open spec fn is_plain(s: Seq<char>) -> bool {
    !s.contains('\'')
}

/// A character that a number in decimal or exponential notation is written
/// with.
pub open spec fn is_number_char(c: char) -> bool {
    ||| c == '0'
    ||| c == '1'
    ||| c == '2'
    ||| c == '3'
    ||| c == '4'
    ||| c == '5'
    ||| c == '6'
    ||| c == '7'
    ||| c == '8'
    ||| c == '9'
    ||| c == '+'
    ||| c == '-'
    ||| c == '.'
    ||| c == 'e'
    ||| c == 'E'
}

/// A text that a floating-point value prints to: a number in decimal or
/// exponential notation, or one of `NaN`, `inf` and `-inf`.
pub open spec fn is_float_text(s: Seq<char>) -> bool {
    ||| s.len() > 0 && forall|k: int| 0 <= k < s.len() ==> is_number_char(#[trigger] s[k])
    ||| s == "NaN"@
    ||| s == "inf"@
    ||| s == "-inf"@
}

/// A text as a literal of its own, where it is plain.
pub open spec fn plain_if_any(text: Seq<char>) -> Option<Seq<char>> {
    if is_plain(text) {
        Some(text)
    } else {
        None
    }
}

/// A rendering between single quotes, where there is one and it is plain.
pub open spec fn wrapped_if_any(text: Option<Seq<char>>) -> Option<Seq<char>> {
    match text {
        Some(t) => if is_plain(t) {
            Some(wrapped(t))
        } else {
            None
        },
        None => None,
    }
}

/// The text of a network, where its prefix is no longer than its address.
pub open spec fn network_text(n: Network) -> Option<Seq<char>> {
    match n {
        Network::V4 { a, b, c, d, prefix } => if prefix <= 32 {
            Some(ipv4_network_text(a as int, b as int, c as int, d as int, prefix as int))
        } else {
            None
        },
        Network::V6 { bits, prefix } => if prefix <= 128 {
            Some(ipv6_network_text(bits as int, prefix as int))
        } else {
            None
        },
    }
}

/// The literal of a floating-point value that printed to `text`.
pub open spec fn float_literal(text: Seq<char>) -> Option<Seq<char>> {
    if is_float_text(text) {
        Some(text)
    } else {
        None
    }
}

/// The literal that inserts `v` again; `None` for a value that has none: a
/// moment, date or time outside the calendar, a network with too long a
/// prefix, a JSON document that does not parse, a text that no
/// floating-point value prints to, and any printed text that holds a single
/// quote where none is expected.
///
/// Integers are decimal numerals; truth values are `TRUE` and `FALSE`;
/// decimals and floating-point values are their printed text as it is;
/// dates, times and networks stand between single quotes; JSON documents and
/// text stand between single quotes with the single quotes inside doubled.
pub open spec fn literal_of(v: ColumnValue) -> Option<Seq<char>> {
    match v {
        ColumnValue::SmallInt(n) => Some(int_text(n as int)),
        ColumnValue::Integer(n) => Some(int_text(n as int)),
        ColumnValue::BigInt(n) => Some(int_text(n as int)),
        ColumnValue::Numeric(d) => plain_if_any(decimal_text(d.unscaled@, d.scale as int)),
        ColumnValue::Real(t) => float_literal(t@),
        ColumnValue::Double(t) => float_literal(t@),
        ColumnValue::Boolean(b) => Some(bool_text(b)),
        ColumnValue::Timestamp(m) => wrapped_if_any(
            timestamp_text(m.seconds as int, m.nanos as int, "%Y-%m-%d %H:%M:%S%.f"@),
        ),
        ColumnValue::TimestampTz(m) => wrapped_if_any(rfc3339_text(m.seconds as int, m.nanos as int)),
        ColumnValue::Date(days) => wrapped_if_any(date_text(days as int, "%Y-%m-%d"@)),
        ColumnValue::Time(t) => wrapped_if_any(
            time_text(t.seconds as int, t.nanos as int, "%H:%M:%S%.f"@),
        ),
        ColumnValue::Network(n) => wrapped_if_any(network_text(n)),
        ColumnValue::Json(document) => match json_compact_text(document@) {
            Some(compact) => Some(string_literal(compact)),
            None => None,
        },
        ColumnValue::Text(s) => Some(string_literal(s@)),
    }
}

fn wrap_if_any(text: Option<String>) -> (r: Option<String>)
    ensures
        text_view(r) == wrapped_if_any(text_view(text)),
{
    match text {
        Some(t) => {
            if contains_char(t.as_str(), '\'') {
                return None;
            }
            let mut out = String::from_str("'");
            out.append(t.as_str());
            out.append("'");
            Some(out)
        },
        None => None,
    }
}

fn plain_or_none(text: String) -> (r: Option<String>)
    ensures
        text_view(r) == plain_if_any(text@),
{
    if contains_char(text.as_str(), '\'') {
        None
    } else {
        Some(text)
    }
}

fn is_number_character(c: char) -> (r: bool)
    ensures
        r == is_number_char(c),
{
    c == '0' || c == '1' || c == '2' || c == '3' || c == '4' || c == '5' || c == '6' || c == '7'
        || c == '8' || c == '9' || c == '+' || c == '-' || c == '.' || c == 'e' || c == 'E'
}

/// Whether a floating-point value prints to `text`, as far as its characters
/// tell.
pub fn looks_like_float(text: &str) -> (r: bool)
    ensures
        r == is_float_text(text@),
{
    if same_text(text, "NaN") || same_text(text, "inf") || same_text(text, "-inf") {
        return true;
    }
    let mut any = false;
    for c in it: text.chars()
        invariant
            it.seq() == text@,
            text@ != "NaN"@,
            text@ != "inf"@,
            text@ != "-inf"@,
            any == (it.index() > 0),
            forall|k: int| 0 <= k < it.index() ==> is_number_char(#[trigger] text@[k]),
    {
        if !is_number_character(c) {
            assert(!is_number_char(text@[it.index() as int]));
            return false;
        }
        any = true;
    }
    any
}

fn encode_float(text: &String) -> (r: Option<String>)
    ensures
        text_view(r) == float_literal(text@),
{
    if looks_like_float(text.as_str()) {
        Some(text.clone())
    } else {
        None
    }
}

fn encode_network(n: &Network) -> (r: Option<String>)
    ensures
        text_view(r) == wrapped_if_any(network_text(*n)),
{
    let text = match n {
        Network::V4 { a, b, c, d, prefix } => format_ipv4_network(*a, *b, *c, *d, *prefix),
        Network::V6 { bits, prefix } => format_ipv6_network(*bits, *prefix),
    };
    wrap_if_any(text)
}

/// The literal that inserts `v` again, where `v` has one.
pub fn encode_value(v: &ColumnValue) -> (r: Option<String>)
    ensures
        text_view(r) == literal_of(*v),
{
    match v {
        ColumnValue::SmallInt(n) => Some(signed_text(*n as i64)),
        ColumnValue::Integer(n) => Some(signed_text(*n as i64)),
        ColumnValue::BigInt(n) => Some(signed_text(*n)),
        ColumnValue::Numeric(d) => plain_or_none(render_decimal(d.unscaled.as_slice(), d.scale)),
        ColumnValue::Real(t) => encode_float(t),
        ColumnValue::Double(t) => encode_float(t),
        ColumnValue::Boolean(b) => Some(
            if *b {
                String::from_str("TRUE")
            } else {
                String::from_str("FALSE")
            },
        ),
        ColumnValue::Timestamp(m) => wrap_if_any(
            format_timestamp(m.seconds, m.nanos, "%Y-%m-%d %H:%M:%S%.f"),
        ),
        ColumnValue::TimestampTz(m) => wrap_if_any(format_rfc3339(m.seconds, m.nanos)),
        ColumnValue::Date(days) => wrap_if_any(format_date(*days, "%Y-%m-%d")),
        ColumnValue::Time(t) => wrap_if_any(format_time(t.seconds, t.nanos, "%H:%M:%S%.f")),
        ColumnValue::Network(n) => encode_network(n),
        ColumnValue::Json(document) => match compact_json(document.as_str()) {
            Some(compact) => Some(quote_with(compact.as_str(), '\'')),
            None => None,
        },
        ColumnValue::Text(s) => Some(quote_with(s.as_str(), '\'')),
    }
}

// ---------------------------------------------------------------------------
// Cells
// ---------------------------------------------------------------------------
/// What further attempts to read a cell gave, for a cell that could not be
/// read as a value of its column's type: each is `Some` where that attempt
/// found a value. `confirmed_null` says that the cell was seen to hold no
/// value at all.
#[derive(Clone, Debug)]
pub struct FallbackReads {
    pub integer: Option<i64>,
    pub real: Option<String>,
    pub boolean: Option<bool>,
    pub confirmed_null: bool,
}

/// What reading one cell gave: under the declared type of its column either
/// a value, no value (`Ok(None)`), or the reader's complaint; and the further
/// attempts, where they were made.
#[derive(Debug)]
pub struct CellRead {
    pub declared: Result<Option<ColumnValue>, String>,
    pub fallback: FallbackReads,
}

/// A cell has no literal: it could be read neither as a value of the type
/// that its column declares nor in any other way, and was not seen to be
/// empty either.
#[derive(Clone, Debug, PartialEq, Eq)]
pub struct CodecError {
    pub column: String,
    pub data_type: String,
}

/// A `CodecError` with its texts as sequences of characters.
pub struct CodecErrorView {
    pub column: Seq<char>,
    pub data_type: Seq<char>,
}

impl View for CodecError {
    type V = CodecErrorView;

    open spec fn view(&self) -> CodecErrorView {
        CodecErrorView { column: self.column@, data_type: self.data_type@ }
    }
}

impl CodecErrorView {
    /// The error as one line of text.
    pub open spec fn message_text(self) -> Seq<char> {
        "Unsupported or unreadable data type '"@ + self.data_type + "' for column '"@
            + self.column + "'"@
    }
}

impl CodecError {
    /// The error as one line of text.
    pub fn message(&self) -> (r: String)
        ensures
            r@ == self@.message_text(),
    {
        let mut out = String::from_str("Unsupported or unreadable data type '");
        out.append(self.data_type.as_str());
        out.append("' for column '");
        out.append(self.column.as_str());
        out.append("'");
        out
    }
}

/// The literal that the read under the declared type gives for a cell of a
/// column of the family `category`: `NULL` for an absent value, and the
/// literal of a value of that family. A failed read, a value of another
/// family and a value without a literal give none.
pub open spec fn declared_literal(
    category: TypeCategory,
    declared: Result<Option<ColumnValue>, String>,
) -> Option<Seq<char>> {
    match declared {
        Ok(None) => Some(null_text()),
        Ok(Some(v)) => if v.category() == category {
            literal_of(v)
        } else {
            None
        },
        Err(_) => None,
    }
}

/// The floating-point value that the further attempts found, as the text
/// that it printed to.
pub open spec fn fallback_real(fallback: FallbackReads) -> Option<Seq<char>> {
    match fallback.real {
        Some(t) => float_literal(t@),
        None => None,
    }
}

/// The literal that the further attempts give: that of the first of
/// integer, floating-point value and truth value that was found; else `NULL`
/// where the cell was seen to be empty; else none.
pub open spec fn fallback_literal(fallback: FallbackReads) -> Option<Seq<char>> {
    match fallback.integer {
        Some(v) => Some(int_text(v as int)),
        None => match fallback_real(fallback) {
            Some(t) => Some(t),
            None => match fallback.boolean {
                Some(b) => Some(bool_text(b)),
                None => if fallback.confirmed_null {
                    Some(null_text())
                } else {
                    None
                },
            },
        },
    }
}

/// Whether a cell of a column of the family `category` calls for the further
/// attempts: it does where the read under the declared type gives no
/// literal.
pub open spec fn needs_fallback(
    category: TypeCategory,
    declared: Result<Option<ColumnValue>, String>,
) -> bool {
    declared_literal(category, declared) is None
}

/// The literal of a cell of a column of the family `category`: what the read
/// under the declared type gives, and where that gives nothing, what the
/// further attempts give.
pub open spec fn cell_literal(category: TypeCategory, cell: CellRead) -> Option<Seq<char>> {
    match declared_literal(category, cell.declared) {
        Some(t) => Some(t),
        None => fallback_literal(cell.fallback),
    }
}

/// An executable result with its texts as sequences of characters.
pub open spec fn result_view(r: Result<String, CodecError>) -> Result<Seq<char>, CodecErrorView> {
    match r {
        Ok(s) => Ok(s@),
        Err(e) => Err(e@),
    }
}

/// The result for a cell of the column `column`, declared as `data_type`, of
/// the family `category`: its literal, or the error that names the column
/// and its declared type.
pub open spec fn cell_result(
    category: TypeCategory,
    cell: CellRead,
    column: Seq<char>,
    data_type: Seq<char>,
) -> Result<Seq<char>, CodecErrorView> {
    match cell_literal(category, cell) {
        Some(t) => Ok(t),
        None => Err(CodecErrorView { column, data_type }),
    }
}

impl FallbackReads {
    /// The further attempts of a cell for which none was made.
    pub fn none() -> (r: FallbackReads)
        ensures
            r.integer is None,
            r.real is None,
            r.boolean is None,
            !r.confirmed_null,
    {
        FallbackReads { integer: None, real: None, boolean: None, confirmed_null: false }
    }
}

fn encode_declared(category: TypeCategory, declared: &Result<Option<ColumnValue>, String>) -> (r:
    Option<String>)
    ensures
        text_view(r) == declared_literal(category, *declared),
{
    match declared {
        Ok(None) => Some(String::from_str("NULL")),
        Ok(Some(v)) => {
            if v.kind() == category {
                encode_value(v)
            } else {
                None
            }
        },
        Err(_) => None,
    }
}

fn encode_fallback(fallback: &FallbackReads) -> (r: Option<String>)
    ensures
        text_view(r) == fallback_literal(*fallback),
{
    if let Some(v) = fallback.integer {
        return Some(signed_text(v));
    }
    if let Some(t) = &fallback.real {
        if let Some(literal) = encode_float(t) {
            return Some(literal);
        }
    }
    if let Some(b) = fallback.boolean {
        return Some(
            if b {
                String::from_str("TRUE")
            } else {
                String::from_str("FALSE")
            },
        );
    }
    if fallback.confirmed_null {
        Some(String::from_str("NULL"))
    } else {
        None
    }
}

/// Whether a cell of a column of the family `category`, read as `declared`,
/// calls for the further attempts.
pub fn wants_fallback(category: TypeCategory, declared: &Result<Option<ColumnValue>, String>) -> (r:
    bool)
    ensures
        r == needs_fallback(category, *declared),
{
    encode_declared(category, declared).is_none()
}

fn no_literal(column: &str, data_type: &str) -> (r: Result<String, CodecError>)
    ensures
        result_view(r) == Err::<Seq<char>, CodecErrorView>(
            CodecErrorView { column: column@, data_type: data_type@ },
        ),
{
    Err(CodecError { column: String::from_str(column), data_type: String::from_str(data_type) })
}

/// The literal of a cell of the column `column`, declared as `data_type`, of
/// the family `category`.
pub fn encode_cell(category: TypeCategory, cell: &CellRead, column: &str, data_type: &str) -> (r:
    Result<String, CodecError>)
    ensures
        result_view(r) == cell_result(category, *cell, column@, data_type@),
        cell.declared == Ok::<Option<ColumnValue>, String>(None) ==> result_view(r) == Ok::<
            Seq<char>,
            CodecErrorView,
        >(null_text()),
        r matches Ok(literal) ==> is_sound_literal(literal@),
{
    proof {
        lemma_literals_are_sound(category, *cell);
    }
    match encode_declared(category, &cell.declared) {
        Some(text) => Ok(text),
        None => match encode_fallback(&cell.fallback) {
            Some(text) => Ok(text),
            None => no_literal(column, data_type),
        },
    }
}

/// The literal of a cell of the column `column`, declared as `data_type`.
pub fn get_column_value_as_sql(cell: &CellRead, column: &str, data_type: &str) -> (r: Result<
    String,
    CodecError,
>)
    ensures
        result_view(r) == cell_result(
            category_of(lowered(data_type@)),
            *cell,
            column@,
            data_type@,
        ),
        cell.declared == Ok::<Option<ColumnValue>, String>(None) ==> result_view(r) == Ok::<
            Seq<char>,
            CodecErrorView,
        >(null_text()),
        r matches Ok(literal) ==> is_sound_literal(literal@),
{
    let category = classify(data_type);
    encode_cell(category, cell, column, data_type)
}

// ---------------------------------------------------------------------------
// Rows
// ---------------------------------------------------------------------------
/// The result for the cell of column `i` in a row: a column beyond the end
/// of the row has no cell, and so no literal.
pub open spec fn row_cell_result(row: Seq<CellRead>, columns: Seq<ColumnInfo>, i: int) -> Result<
    Seq<char>,
    CodecErrorView,
> {
    if i < row.len() {
        cell_result(
            category_of(lowered(columns[i].data_type@)),
            row[i],
            columns[i].name@,
            columns[i].data_type@,
        )
    } else {
        Err(CodecErrorView { column: columns[i].name@, data_type: columns[i].data_type@ })
    }
}

/// The first of the first `n` columns whose cell has no literal.
pub open spec fn first_unreadable(row: Seq<CellRead>, columns: Seq<ColumnInfo>, n: int) -> Option<
    int,
>
    decreases n,
{
    if n <= 0 {
        None
    } else {
        match first_unreadable(row, columns, n - 1) {
            Some(k) => Some(k),
            None => if row_cell_result(row, columns, n - 1) is Ok {
                None
            } else {
                Some(n - 1)
            },
        }
    }
}

/// The literals of the first `n` columns of a row.
pub open spec fn row_literals(row: Seq<CellRead>, columns: Seq<ColumnInfo>, n: int) -> Seq<
    Seq<char>,
> {
    Seq::new(
        n as nat,
        |i: int|
            match row_cell_result(row, columns, i) {
                Ok(t) => t,
                Err(_) => Seq::empty(),
            },
    )
}

/// The values of a row for an `INSERT` statement: the literals of its cells
/// in column order with `, ` between them, or the error of the first cell
/// that has no literal.
pub open spec fn row_result(row: Seq<CellRead>, columns: Seq<ColumnInfo>) -> Result<
    Seq<char>,
    CodecErrorView,
> {
    match first_unreadable(row, columns, columns.len() as int) {
        None => Ok(joined(row_literals(row, columns, columns.len() as int), ", "@)),
        Some(k) => Err(row_cell_result(row, columns, k)->Err_0),
    }
}

/// The values of one row for an `INSERT` statement: the literals of its
/// cells in column order, with `, ` between them. The first cell without a
/// literal ends the row with its error.
pub fn build_insert_values(row: &[CellRead], columns: &[ColumnInfo]) -> (r: Result<
    String,
    CodecError,
>)
    ensures
        result_view(r) == row_result(row@, columns@),
{
    let mut values: Vec<String> = Vec::new();
    let mut i: usize = 0;
    while i < columns.len()
        invariant
            i <= columns.len(),
            values.len() == i,
            first_unreadable(row@, columns@, i as int) is None,
            views(values@) == row_literals(row@, columns@, i as int),
        decreases columns.len() - i,
    {
        let col = &columns[i];
        let ghost before = values@;
        let encoded = if i < row.len() {
            get_column_value_as_sql(&row[i], col.name.as_str(), col.data_type.as_str())
        } else {
            no_literal(col.name.as_str(), col.data_type.as_str())
        };
        assert(result_view(encoded) == row_cell_result(row@, columns@, i as int));
        match encoded {
            Ok(text) => {
                values.push(text);
            },
            Err(error) => {
                proof {
                    lemma_first_unreadable_stays(row@, columns@, i + 1, columns@.len() as int);
                }
                return Err(error);
            },
        }
        proof {
            let want = row_literals(row@, columns@, i + 1);
            assert forall|j: int| 0 <= j < i + 1 implies views(values@)[j] == want[j] by {
                if j < i {
                    assert(views(before)[j] == row_literals(row@, columns@, i as int)[j]);
                }
            }
            assert(views(values@) =~= want);
        }
        i = i + 1;
    }
    let mut out = String::new();
    push_joined(&mut out, &values, ", ");
    Ok(out)
}

/// Once a column without a literal is found among the first `n`, it stays
/// the first however many more columns are looked at.
proof fn lemma_first_unreadable_stays(row: Seq<CellRead>, columns: Seq<ColumnInfo>, n: int, m: int)
    requires
        0 <= n <= m,
        first_unreadable(row, columns, n) is Some,
    ensures
        first_unreadable(row, columns, m) == first_unreadable(row, columns, n),
    decreases m - n,
{
    if n < m {
        lemma_first_unreadable_stays(row, columns, n, m - 1);
    }
}

} // verus!
