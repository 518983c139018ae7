//! The `is::` value checks, on their documented examples.

use surreal_core::checks;
use surreal_core::ctx::Context;
use surreal_core::err::Error;
use surreal_core::value::Value;

fn s(v: &str) -> Value {
    Value::Strand(v.to_string())
}

#[test]
fn alphanum() {
    let value = checks::alphanum(&Context::default(), vec![s("abc123")]).unwrap();
    assert_eq!(value, Value::True);

    let value = checks::alphanum(&Context::default(), vec![s("y%*")]).unwrap();
    assert_eq!(value, Value::False);
}

#[test]
fn alpha() {
    let value = checks::alpha(&Context::default(), vec![s("abc")]).unwrap();
    assert_eq!(value, Value::True);

    let value = checks::alpha(&Context::default(), vec![s("1234")]).unwrap();
    assert_eq!(value, Value::False);
}

#[test]
fn ascii() {
    let value = checks::ascii(&Context::default(), vec![s("abc")]).unwrap();
    assert_eq!(value, Value::True);

    let value = checks::ascii(&Context::default(), vec![s("中国")]).unwrap();
    assert_eq!(value, Value::False);
}

#[test]
fn domain() {
    let value = checks::domain(&Context::default(), vec![s("食狮.中国")]).unwrap();
    assert_eq!(value, Value::True);

    let value = checks::domain(&Context::default(), vec![s("example-.com")]).unwrap();
    assert_eq!(value, Value::False);
}

#[test]
fn email() {
    let input = vec![s("user@[fd79:cdcb:38cc:9dd:f686:e06d:32f3:c123]")];
    let value = checks::email(&Context::default(), input).unwrap();
    assert_eq!(value, Value::True);

    let input = vec![s("john..doe@example.com")];
    let value = checks::email(&Context::default(), input).unwrap();
    assert_eq!(value, Value::False);
}

#[test]
fn hexadecimal() {
    let value = checks::hexadecimal(&Context::default(), vec![s("00FF00")]).unwrap();
    assert_eq!(value, Value::True);

    let value = checks::hexadecimal(&Context::default(), vec![s("SurrealDB")]).unwrap();
    assert_eq!(value, Value::False);
}

#[test]
fn latitude() {
    let value = checks::latitude(&Context::default(), vec![s("-0.118092")]).unwrap();
    assert_eq!(value, Value::True);

    let value = checks::latitude(&Context::default(), vec![Value::Int(12345)]).unwrap();
    assert_eq!(value, Value::False);
}

#[test]
fn longitude() {
    let value = checks::longitude(&Context::default(), vec![s("51.509865")]).unwrap();
    assert_eq!(value, Value::True);

    let value = checks::longitude(&Context::default(), vec![Value::Int(12345)]).unwrap();
    assert_eq!(value, Value::False);
}

#[test]
fn numeric() {
    let value = checks::numeric(&Context::default(), vec![Value::Int(12345)]).unwrap();
    assert_eq!(value, Value::True);

    let value = checks::numeric(&Context::default(), vec![s("abcde")]).unwrap();
    assert_eq!(value, Value::False);
}

#[test]
fn semver() {
    let value = checks::semver(&Context::default(), vec![s("1.0.0")]).unwrap();
    assert_eq!(value, Value::True);

    let value = checks::semver(&Context::default(), vec![s("1.0")]).unwrap();
    assert_eq!(value, Value::False);
}

#[test]
fn uuid() {
    let input = vec![s("123e4567-e89b-12d3-a456-426614174000")];
    let value = checks::uuid(&Context::default(), input).unwrap();
    assert_eq!(value, Value::True);

    let input = vec![s("foo-bar")];
    let value = checks::uuid(&Context::default(), input).unwrap();
    assert_eq!(value, Value::False);
}

#[test]
fn wrong_arity_is_reported() {
    let r = checks::alphanum(&Context::default(), vec![]);
    assert!(matches!(r, Err(Error::InvalidArguments { .. })));
    let r = checks::uuid(&Context::default(), vec![s("a"), s("b")]);
    assert!(matches!(r, Err(Error::InvalidArguments { .. })));
}
