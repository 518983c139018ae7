//! The `is::` family of value checks: each takes the context and the call's
//! arguments, expects exactly one argument, coerces it to text, and returns
//! `True` or `False`.
//!
//! Character-class checks (`alphanum`, `alpha`, `numeric`) go by Unicode
//! properties through `char`'s own classifiers; `ascii` and `hexadecimal`
//! are decided here outright; `latitude` and `longitude` match the fixed
//! degree pattern `[-+]?([1-8]?\d(\.\d+)?|90(\.0+)?)`; `semver`, `uuid`,
//! `domain` and `email` defer to their parsers.

use vstd::prelude::*;
use crate::ctx::Context;
use crate::err::{Error, SpecError};
use crate::ipaddr::spec_hex_val;
use crate::strutil::chars_of;
use crate::value::{spec_as_string, SpecValue, Value};

verus! {

broadcast use vstd::std_specs::vec::group_vec_axioms, vstd::seq::group_seq_axioms;

/// The error every check returns when not given exactly one argument.
pub open spec fn spec_one_arg_err(name: Seq<char>) -> SpecError {
    SpecError::InvalidArguments { name: name, message: "Expected 1 argument."@ }
}

/// `True` or `False`.
pub open spec fn spec_bool_val(b: bool) -> SpecValue {
    if b {
        SpecValue::True
    } else {
        SpecValue::False
    }
}

/// The error value for a wrong argument count.
fn one_arg_err(name: &str) -> (r: Error)
    ensures
        r.deep_view() == spec_one_arg_err(name@),
{
    Error::InvalidArguments {
        name: String::from_str(name),
        message: String::from_str("Expected 1 argument."),
    }
}

/// The text of the single argument.
fn one_arg_text(args: &Vec<Value>) -> (r: String)
    requires
        args.deep_view().len() == 1,
    ensures
        r@ == spec_as_string(args.deep_view()[0]),
{
    args[0].as_string()
}

/// Whether this character counts as alphanumeric to Unicode. Relies on
/// char::is_alphanumeric: the result depends on the character alone.
pub uninterp spec fn spec_unicode_alphanumeric(c: char) -> bool;

/// Relies on char::is_alphanumeric: whether the character is a Unicode
/// letter or number.
pub assume_specification[ char::is_alphanumeric ](c: char) -> (r: bool)
    ensures
        r == spec_unicode_alphanumeric(c),
;

/// Whether this character counts as alphabetic to Unicode. Relies on
/// char::is_alphabetic: the result depends on the character alone.
pub uninterp spec fn spec_unicode_alphabetic(c: char) -> bool;

/// Relies on char::is_alphabetic: whether the character is a Unicode letter.
pub assume_specification[ char::is_alphabetic ](c: char) -> (r: bool)
    ensures
        r == spec_unicode_alphabetic(c),
;

/// Whether this character counts as numeric to Unicode. Relies on
/// char::is_numeric: the result depends on the character alone.
pub uninterp spec fn spec_unicode_numeric(c: char) -> bool;

/// Relies on char::is_numeric: whether the character is a Unicode number.
pub assume_specification[ char::is_numeric ](c: char) -> (r: bool)
    ensures
        r == spec_unicode_numeric(c),
;

/// Whether the text is a valid semantic version. Relies on
/// semver::Version::parse: the result depends on the text alone.
pub uninterp spec fn spec_is_semver(s: Seq<char>) -> bool;

/// Relies on semver::Version::parse: whether the text parses as a semantic
/// version.
#[verifier::external_body]
fn semver_valid(s: &str) -> (r: bool)
    ensures
        r == spec_is_semver(s@),
{
    semver::Version::parse(s).is_ok()
}

/// Whether the text is a valid UUID spelling. Relies on
/// uuid::Uuid::parse_str: the result depends on the text alone.
pub uninterp spec fn spec_is_uuid(s: Seq<char>) -> bool;

/// Relies on uuid::Uuid::parse_str: whether the text parses as a UUID.
#[verifier::external_body]
fn uuid_valid(s: &str) -> (r: bool)
    ensures
        r == spec_is_uuid(s@),
{
    uuid::Uuid::parse_str(s).is_ok()
}

/// Whether the text is a registrable domain name under the public suffix
/// list compiled into the addr crate. Relies on addr::parse_domain_name:
/// the result depends on the text alone.
pub uninterp spec fn spec_is_domain(s: Seq<char>) -> bool;

/// Relies on addr::parse_domain_name: whether the text parses as a domain
/// name.
#[verifier::external_body]
fn domain_valid(s: &str) -> (r: bool)
    ensures
        r == spec_is_domain(s@),
{
    addr::parse_domain_name(s).is_ok()
}

/// Whether the text is a well-formed email address. Relies on
/// addr::parse_email_address: the result depends on the text alone.
pub uninterp spec fn spec_is_email(s: Seq<char>) -> bool;

/// Relies on addr::parse_email_address: whether the text parses as an email
/// address.
#[verifier::external_body]
fn email_valid(s: &str) -> (r: bool)
    ensures
        r == spec_is_email(s@),
{
    addr::parse_email_address(s).is_ok()
}

/// Whether every character satisfies the Unicode-alphanumeric classifier.
pub open spec fn spec_all_alphanumeric(s: Seq<char>) -> bool {
    forall|i: int| 0 <= i < s.len() ==> spec_unicode_alphanumeric(s[i])
}

/// Whether every character satisfies the Unicode-alphabetic classifier.
pub open spec fn spec_all_alphabetic(s: Seq<char>) -> bool {
    forall|i: int| 0 <= i < s.len() ==> spec_unicode_alphabetic(s[i])
}

/// Whether every character satisfies the Unicode-numeric classifier.
pub open spec fn spec_all_numeric(s: Seq<char>) -> bool {
    forall|i: int| 0 <= i < s.len() ==> spec_unicode_numeric(s[i])
}

/// Whether every character is ASCII.
pub open spec fn spec_all_ascii(s: Seq<char>) -> bool {
    forall|i: int| 0 <= i < s.len() ==> (#[trigger] s[i] as u32) < 128
}

/// Whether every character is a hex digit.
pub open spec fn spec_all_hex(s: Seq<char>) -> bool {
    forall|i: int| 0 <= i < s.len() ==> spec_hex_val(s[i]) >= 0
}

/// Whether the argument list has exactly one entry; the shared arity check.
fn arity_one(args: &Vec<Value>) -> (r: bool)
    ensures
        r == (args.deep_view().len() == 1),
{
    args.len() == 1
}

/// Whether the single argument's text is all Unicode-alphanumeric.
#[verifier::loop_isolation(false)]
pub fn alphanum(ctx: &Context, args: Vec<Value>) -> (r: Result<Value, Error>)
    ensures
        args.deep_view().len() != 1 ==> r is Err && r->Err_0.deep_view() == spec_one_arg_err(
            "is::alphanum"@,
        ),
        args.deep_view().len() == 1 ==> r is Ok && r->Ok_0.deep_view() == spec_bool_val(
            spec_all_alphanumeric(spec_as_string(args.deep_view()[0])),
        ),
{
    let _ = ctx;
    if !arity_one(&args) {
        return Err(one_arg_err("is::alphanum"));
    }
    let s = one_arg_text(&args);
    let cs = chars_of(s.as_str());
    let mut i: usize = 0;
    while i < cs.len()
        invariant
            i <= cs@.len(),
            forall|k: int| 0 <= k < i ==> spec_unicode_alphanumeric(cs@[k]),
        decreases cs@.len() - i,
    {
        if !cs[i].is_alphanumeric() {
            return Ok(Value::False);
        }
        i = i + 1;
    }
    Ok(Value::True)
}

/// Whether the single argument's text is all Unicode-alphabetic.
#[verifier::loop_isolation(false)]
pub fn alpha(ctx: &Context, args: Vec<Value>) -> (r: Result<Value, Error>)
    ensures
        args.deep_view().len() != 1 ==> r is Err && r->Err_0.deep_view() == spec_one_arg_err(
            "is::alpha"@,
        ),
        args.deep_view().len() == 1 ==> r is Ok && r->Ok_0.deep_view() == spec_bool_val(
            spec_all_alphabetic(spec_as_string(args.deep_view()[0])),
        ),
{
    let _ = ctx;
    if !arity_one(&args) {
        return Err(one_arg_err("is::alpha"));
    }
    let s = one_arg_text(&args);
    let cs = chars_of(s.as_str());
    let mut i: usize = 0;
    while i < cs.len()
        invariant
            i <= cs@.len(),
            forall|k: int| 0 <= k < i ==> spec_unicode_alphabetic(cs@[k]),
        decreases cs@.len() - i,
    {
        if !cs[i].is_alphabetic() {
            return Ok(Value::False);
        }
        i = i + 1;
    }
    Ok(Value::True)
}

/// Whether the single argument's text is all ASCII.
#[verifier::loop_isolation(false)]
pub fn ascii(ctx: &Context, args: Vec<Value>) -> (r: Result<Value, Error>)
    ensures
        args.deep_view().len() != 1 ==> r is Err && r->Err_0.deep_view() == spec_one_arg_err(
            "is::ascii"@,
        ),
        args.deep_view().len() == 1 ==> r is Ok && r->Ok_0.deep_view() == spec_bool_val(
            spec_all_ascii(spec_as_string(args.deep_view()[0])),
        ),
{
    let _ = ctx;
    if !arity_one(&args) {
        return Err(one_arg_err("is::ascii"));
    }
    let s = one_arg_text(&args);
    let cs = chars_of(s.as_str());
    let mut i: usize = 0;
    while i < cs.len()
        invariant
            i <= cs@.len(),
            forall|k: int| 0 <= k < i ==> (#[trigger] cs@[k] as u32) < 128,
        decreases cs@.len() - i,
    {
        if cs[i] as u32 >= 128 {
            return Ok(Value::False);
        }
        i = i + 1;
    }
    Ok(Value::True)
}

/// Whether the single argument's text is all hex digits.
#[verifier::loop_isolation(false)]
pub fn hexadecimal(ctx: &Context, args: Vec<Value>) -> (r: Result<Value, Error>)
    ensures
        args.deep_view().len() != 1 ==> r is Err && r->Err_0.deep_view() == spec_one_arg_err(
            "is::hexadecimal"@,
        ),
        args.deep_view().len() == 1 ==> r is Ok && r->Ok_0.deep_view() == spec_bool_val(
            spec_all_hex(spec_as_string(args.deep_view()[0])),
        ),
{
    let _ = ctx;
    if !arity_one(&args) {
        return Err(one_arg_err("is::hexadecimal"));
    }
    let s = one_arg_text(&args);
    let cs = chars_of(s.as_str());
    let mut i: usize = 0;
    while i < cs.len()
        invariant
            i <= cs@.len(),
            forall|k: int| 0 <= k < i ==> spec_hex_val(cs@[k]) >= 0,
        decreases cs@.len() - i,
    {
        if crate::ipaddr::hex_val(cs[i]) < 0 {
            return Ok(Value::False);
        }
        i = i + 1;
    }
    Ok(Value::True)
}

/// Whether the single argument's text is all Unicode-numeric.
#[verifier::loop_isolation(false)]
pub fn numeric(ctx: &Context, args: Vec<Value>) -> (r: Result<Value, Error>)
    ensures
        args.deep_view().len() != 1 ==> r is Err && r->Err_0.deep_view() == spec_one_arg_err(
            "is::numeric"@,
        ),
        args.deep_view().len() == 1 ==> r is Ok && r->Ok_0.deep_view() == spec_bool_val(
            spec_all_numeric(spec_as_string(args.deep_view()[0])),
        ),
{
    let _ = ctx;
    if !arity_one(&args) {
        return Err(one_arg_err("is::numeric"));
    }
    let s = one_arg_text(&args);
    let cs = chars_of(s.as_str());
    let mut i: usize = 0;
    while i < cs.len()
        invariant
            i <= cs@.len(),
            forall|k: int| 0 <= k < i ==> spec_unicode_numeric(cs@[k]),
        decreases cs@.len() - i,
    {
        if !cs[i].is_numeric() {
            return Ok(Value::False);
        }
        i = i + 1;
    }
    Ok(Value::True)
}

/// Whether `c` is an ASCII decimal digit.
pub open spec fn spec_is_digit(c: char) -> bool {
    48 <= (c as u32) <= 57
}

/// Whether every character of `[a, b)` is a decimal digit and the range is
/// not empty.
pub open spec fn spec_digits1(s: Seq<char>, a: int, b: int) -> bool {
    b > a && forall|i: int| a <= i < b ==> spec_is_digit(s[i])
}

/// Whether `[a, b)` is an optional fraction: empty, or a dot followed by at
/// least one digit.
pub open spec fn spec_frac(s: Seq<char>, a: int, b: int) -> bool {
    a == b || (a < b && s[a] == '.' && spec_digits1(s, a + 1, b))
}

/// Whether `[a, b)` is an optional zero fraction: empty, or a dot followed
/// by at least one `0`.
pub open spec fn spec_zero_frac(s: Seq<char>, a: int, b: int) -> bool {
    a == b || (a < b && s[a] == '.' && b > a + 1 && forall|i: int|
        a + 1 <= i < b ==> s[i] == '0')
}

/// The unsigned degree pattern: `90` with an optional zero fraction, one
/// digit with an optional fraction, or a digit `1`-`8` and a digit with an
/// optional fraction.
pub open spec fn spec_degree_body(s: Seq<char>, a: int, b: int) -> bool {
    ||| (b - a >= 2 && s[a] == '9' && s[a + 1] == '0' && spec_zero_frac(s, a + 2, b))
    ||| (b - a >= 1 && spec_is_digit(s[a]) && spec_frac(s, a + 1, b))
    ||| (b - a >= 2 && 49 <= (s[a] as u32) <= 56 && spec_is_digit(s[a + 1]) && spec_frac(
        s,
        a + 2,
        b,
    ))
}

/// The degree pattern `[-+]?([1-8]?\d(\.\d+)?|90(\.0+)?)`.
pub open spec fn spec_degree(s: Seq<char>) -> bool {
    if s.len() >= 1 && (s[0] == '+' || s[0] == '-') {
        spec_degree_body(s, 1, s.len() as int)
    } else {
        spec_degree_body(s, 0, s.len() as int)
    }
}

/// Whether every character of `[a, b)` is a decimal digit, `b > a`.
#[verifier::loop_isolation(false)]
fn digits1(cs: &Vec<char>, a: usize, b: usize) -> (r: bool)
    requires
        a <= b <= cs@.len(),
    ensures
        r == spec_digits1(cs@, a as int, b as int),
{
    if a == b {
        return false;
    }
    let mut i = a;
    while i < b
        invariant
            a <= i <= b,
            forall|k: int| a <= k < i ==> spec_is_digit(cs@[k]),
        decreases b - i,
    {
        let u = cs[i] as u32;
        if !(48 <= u && u <= 57) {
            return false;
        }
        i = i + 1;
    }
    true
}

/// Whether `[a, b)` is an optional fraction.
fn frac(cs: &Vec<char>, a: usize, b: usize) -> (r: bool)
    requires
        a <= b <= cs@.len(),
    ensures
        r == spec_frac(cs@, a as int, b as int),
{
    if a == b {
        true
    } else if cs[a] == '.' {
        digits1(cs, a + 1, b)
    } else {
        false
    }
}

/// Whether `[a, b)` is an optional zero fraction.
#[verifier::loop_isolation(false)]
fn zero_frac(cs: &Vec<char>, a: usize, b: usize) -> (r: bool)
    requires
        a <= b <= cs@.len(),
    ensures
        r == spec_zero_frac(cs@, a as int, b as int),
{
    if a == b {
        return true;
    }
    if cs[a] != '.' || b <= a + 1 {
        return false;
    }
    let mut i = a + 1;
    while i < b
        invariant
            a + 1 <= i <= b,
            forall|k: int| a + 1 <= k < i ==> cs@[k] == '0',
        decreases b - i,
    {
        if cs[i] != '0' {
            return false;
        }
        i = i + 1;
    }
    true
}

/// Whether `[a, b)` matches the unsigned degree pattern.
fn degree_body(cs: &Vec<char>, a: usize, b: usize) -> (r: bool)
    requires
        a <= b <= cs@.len(),
    ensures
        r == spec_degree_body(cs@, a as int, b as int),
{
    let alt1 = b - a >= 2 && cs[a] == '9' && cs[a + 1] == '0' && zero_frac(cs, a + 2, b);
    if alt1 {
        return true;
    }
    let alt2 = b - a >= 1 && {
        let u = cs[a] as u32;
        48 <= u && u <= 57
    } && frac(cs, a + 1, b);
    if alt2 {
        return true;
    }
    b - a >= 2 && {
        let u = cs[a] as u32;
        49 <= u && u <= 56
    } && {
        let u2 = cs[a + 1] as u32;
        48 <= u2 && u2 <= 57
    } && frac(cs, a + 2, b)
}

/// Whether the text matches the degree pattern, sign included.
fn degree(cs: &Vec<char>) -> (r: bool)
    ensures
        r == spec_degree(cs@),
{
    if cs.len() >= 1 && (cs[0] == '+' || cs[0] == '-') {
        degree_body(cs, 1, cs.len())
    } else {
        degree_body(cs, 0, cs.len())
    }
}

/// Whether the single argument's text is a latitude in degrees.
pub fn latitude(ctx: &Context, args: Vec<Value>) -> (r: Result<Value, Error>)
    ensures
        args.deep_view().len() != 1 ==> r is Err && r->Err_0.deep_view() == spec_one_arg_err(
            "is::latitude"@,
        ),
        args.deep_view().len() == 1 ==> r is Ok && r->Ok_0.deep_view() == spec_bool_val(
            spec_degree(spec_as_string(args.deep_view()[0])),
        ),
{
    let _ = ctx;
    if !arity_one(&args) {
        return Err(one_arg_err("is::latitude"));
    }
    let s = one_arg_text(&args);
    let cs = chars_of(s.as_str());
    if degree(&cs) {
        Ok(Value::True)
    } else {
        Ok(Value::False)
    }
}

/// Whether the single argument's text is a longitude in degrees. The
/// pattern is the same degree pattern as latitude's.
pub fn longitude(ctx: &Context, args: Vec<Value>) -> (r: Result<Value, Error>)
    ensures
        args.deep_view().len() != 1 ==> r is Err && r->Err_0.deep_view() == spec_one_arg_err(
            "is::longitude"@,
        ),
        args.deep_view().len() == 1 ==> r is Ok && r->Ok_0.deep_view() == spec_bool_val(
            spec_degree(spec_as_string(args.deep_view()[0])),
        ),
{
    let _ = ctx;
    if !arity_one(&args) {
        return Err(one_arg_err("is::longitude"));
    }
    let s = one_arg_text(&args);
    let cs = chars_of(s.as_str());
    if degree(&cs) {
        Ok(Value::True)
    } else {
        Ok(Value::False)
    }
}

/// Whether the single argument's text is a valid semantic version.
pub fn semver(ctx: &Context, args: Vec<Value>) -> (r: Result<Value, Error>)
    ensures
        args.deep_view().len() != 1 ==> r is Err && r->Err_0.deep_view() == spec_one_arg_err(
            "is::semver"@,
        ),
        args.deep_view().len() == 1 ==> r is Ok && r->Ok_0.deep_view() == spec_bool_val(
            spec_is_semver(spec_as_string(args.deep_view()[0])),
        ),
{
    let _ = ctx;
    if !arity_one(&args) {
        return Err(one_arg_err("is::semver"));
    }
    let s = one_arg_text(&args);
    if semver_valid(s.as_str()) {
        Ok(Value::True)
    } else {
        Ok(Value::False)
    }
}

/// Whether the single argument's text is a valid UUID spelling.
pub fn uuid(ctx: &Context, args: Vec<Value>) -> (r: Result<Value, Error>)
    ensures
        args.deep_view().len() != 1 ==> r is Err && r->Err_0.deep_view() == spec_one_arg_err(
            "is::uuid"@,
        ),
        args.deep_view().len() == 1 ==> r is Ok && r->Ok_0.deep_view() == spec_bool_val(
            spec_is_uuid(spec_as_string(args.deep_view()[0])),
        ),
{
    let _ = ctx;
    if !arity_one(&args) {
        return Err(one_arg_err("is::uuid"));
    }
    let s = one_arg_text(&args);
    if uuid_valid(s.as_str()) {
        Ok(Value::True)
    } else {
        Ok(Value::False)
    }
}

/// Whether the single argument's text is a registrable domain name.
pub fn domain(ctx: &Context, args: Vec<Value>) -> (r: Result<Value, Error>)
    ensures
        args.deep_view().len() != 1 ==> r is Err && r->Err_0.deep_view() == spec_one_arg_err(
            "is::domain"@,
        ),
        args.deep_view().len() == 1 ==> r is Ok && r->Ok_0.deep_view() == spec_bool_val(
            spec_is_domain(spec_as_string(args.deep_view()[0])),
        ),
{
    let _ = ctx;
    if !arity_one(&args) {
        return Err(one_arg_err("is::domain"));
    }
    let s = one_arg_text(&args);
    if domain_valid(s.as_str()) {
        Ok(Value::True)
    } else {
        Ok(Value::False)
    }
}

/// Whether the single argument's text is a well-formed email address.
pub fn email(ctx: &Context, args: Vec<Value>) -> (r: Result<Value, Error>)
    ensures
        args.deep_view().len() != 1 ==> r is Err && r->Err_0.deep_view() == spec_one_arg_err(
            "is::email"@,
        ),
        args.deep_view().len() == 1 ==> r is Ok && r->Ok_0.deep_view() == spec_bool_val(
            spec_is_email(spec_as_string(args.deep_view()[0])),
        ),
{
    let _ = ctx;
    if !arity_one(&args) {
        return Err(one_arg_err("is::email"));
    }
    let s = one_arg_text(&args);
    if email_valid(s.as_str()) {
        Ok(Value::True)
    } else {
        Ok(Value::False)
    }
}

} // verus!
