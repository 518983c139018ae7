//! The parser, on its documented inputs: plain queries, trimming, comments,
//! unbalanced delimiters, nesting within and past the cap, and the byte
//! round trip of a parsed query.

use std::time::{Duration, Instant};
use surreal_core::err::Error;
use surreal_core::parser::{json, parse, thing};
use surreal_core::value::Value;
use surreal_core::statement::Query;

#[test]
fn no_ending() {
    let sql = "SELECT * FROM test";
    let res = parse(sql);
    assert!(res.is_ok());
}

#[test]
fn parse_query_string() {
    let sql = "SELECT * FROM test;";
    let res = parse(sql);
    assert!(res.is_ok());
}

#[test]
fn trim_query_string() {
    let sql = "    SELECT    *    FROM    test    ;    ";
    let res = parse(sql);
    assert!(res.is_ok());
}

#[test]
fn parse_complex_rubbish() {
    let sql = "    SELECT    *    FROM    test    ; /* shouldbespace */ ;;;    ";
    let res = parse(sql);
    assert!(res.is_ok());
}

#[test]
fn parse_complex_failure() {
    let sql = "    SELECT    *    FROM    { }} ";
    let res = parse(sql);
    assert!(res.is_err());
}

#[test]
fn parse_ok_recursion() {
    let sql = "SELECT * FROM ((SELECT * FROM (5))) * 5;";
    let res = parse(sql);
    assert!(res.is_ok());
}

#[test]
fn parse_also_ok_recursion() {
    let sql = "SELECT * FROM (((( SELECT * FROM ((5)) + ((5)) + ((5)) )))) * ((( function() {return 5;} )));";
    let start = Instant::now();
    let res = parse(sql);
    let elapsed = start.elapsed();
    assert!(res.is_ok());
    assert!(elapsed < Duration::from_millis(150), "previously took ~10ms in debug")
}

#[test]
fn parse_excessive_recursion() {
    let sql = "SELECT * FROM (((( SELECT * FROM (((( SELECT * FROM ((( ((( ((( (((5))) * 5 ))) * 5 ))) * 5 ))) )))) )))) * 5;";
    let start = Instant::now();
    let res = parse(sql);
    let elapsed = start.elapsed();
    assert!(
        matches!(res, Err(Error::TooManySubqueries)),
        "expected too many subqueries, got {:?}",
        res
    );
    assert!(elapsed < Duration::from_millis(150), "previously took ~1ms in debug")
}

#[test]
fn parse_also_excessive_recursion() {
    let mut sql = String::from("SELECT * FROM ");
    let n = 10000;
    for _ in 0..n {
        sql.push('(');
    }
    sql.push('5');
    for _ in 0..n {
        sql.push(')');
    }
    let start = Instant::now();
    let res = parse(&sql);
    let elapsed = start.elapsed();
    assert!(
        matches!(res, Err(Error::TooManySubqueries)),
        "expected too many subqueries, got {:?}",
        res
    );
    assert!(elapsed < Duration::from_millis(150), "previously took ~3ms in debug")
}

#[test]
fn parser_try() {
    let sql = "
		SELECT
			*,
			tags[$].value,
			3s as duration,
			1.345 AS number,
			test AS `some thing`,
			'2012-04-23T18:25:43.511Z' AS utctime,
			'2012-04-23T18:25:43.511-08:00' AS pacifictime,
			{ key: (3 + 1 + 2), other: 9 * 7, 'some thing': { otherkey: 'text', } } AS object
		FROM $param, test, temp, test:thingy, |test:10|, |test:1..10|
		WHERE IF true THEN 'YAY' ELSE 'OOPS' END
			AND (0.1341, 0.5719) INSIDE { type: 'Polygon', coordinates: [[[0.1341, 0.5719], [0.1341, 0.5719]]] }
			AND (3 + 3 * 4)=6
			AND 3 + 3 * 4 = 6
			AND ages CONTAINS 18
			AND if IS true
		SPLIT test.things
		VERSION '2019-01-01'
		TIMEOUT 2w;

		CREATE person SET name = 'Tobie', age += 18;
	";
    let res = parse(sql);
    assert!(res.is_ok());
    let tmp = res.unwrap();

    let enc: Vec<u8> = tmp.encode();
    let dec: Query = Query::decode(&enc).unwrap();
    assert_eq!(tmp, dec);
}

#[test]
fn parse_empty_inputs() {
    assert!(matches!(parse(""), Err(Error::QueryEmpty)));
    assert!(matches!(parse("   \n\t  "), Err(Error::QueryEmpty)));
    assert!(matches!(parse(";;;"), Err(Error::QueryEmpty)));
}

#[test]
fn parse_locates_failures() {
    let res = parse("SELECT * FROM t;\nSELECT * FROM { }} ");
    match res {
        Err(Error::InvalidQuery { line, character, sql }) => {
            assert_eq!(line, 2);
            assert_eq!(character, 17);
            assert_eq!(sql, "} ");
        },
        other => panic!("expected a located failure, got {:?}", other),
    }
}

#[test]
fn parse_string_hides_delimiters() {
    let res = parse("SELECT * FROM 'a ; } ( text';");
    assert!(res.is_ok());
    assert_eq!(res.unwrap().len(), 1);
}

#[test]
fn thing_parses_record_pointers() {
    let t = thing("person:tobie").unwrap();
    assert_eq!(t.tb, "person");
    assert_eq!(t.id, "tobie");
    assert!(matches!(thing(""), Err(Error::QueryEmpty)));
    assert!(matches!(thing("person"), Err(Error::InvalidQuery { .. })));
    assert!(matches!(thing("a:b:c"), Err(Error::InvalidQuery { .. })));
}

#[test]
fn json_parses_values() {
    assert_eq!(json("null").unwrap(), Value::Nil);
    assert_eq!(json(" true ").unwrap(), Value::True);
    assert_eq!(json("false").unwrap(), Value::False);
    assert_eq!(json("-42").unwrap(), Value::Int(-42));
    assert_eq!(json("\"hi\"").unwrap(), Value::Strand("hi".to_string()));
    assert_eq!(
        json("[1, \"a\", [true]]").unwrap(),
        Value::Array(vec![
            Value::Int(1),
            Value::Strand("a".to_string()),
            Value::Array(vec![Value::True]),
        ])
    );
    assert_eq!(
        json("{ \"k\": 1, \"m\": { \"n\": null } }").unwrap(),
        Value::Object(vec![
            ("k".to_string(), Value::Int(1)),
            (
                "m".to_string(),
                Value::Object(vec![("n".to_string(), Value::Nil)])
            ),
        ])
    );
}

#[test]
fn json_rejects_noise() {
    assert!(matches!(json(""), Err(Error::QueryEmpty)));
    assert!(matches!(json("  "), Err(Error::QueryEmpty)));
    assert!(matches!(json("nope"), Err(Error::InvalidQuery { .. })));
    assert!(matches!(json("[1,"), Err(Error::InvalidQuery { .. })));
    assert!(matches!(json("1 2"), Err(Error::InvalidQuery { .. })));
    let deep = format!("{}1{}", "[".repeat(40), "]".repeat(40));
    assert!(matches!(json(&deep), Err(Error::TooManySubqueries)));
}

#[test]
fn parse_is_reusable_after_failures() {
    // Depth accounting is per call: a parse that fails deep in nesting
    // leaves nothing behind, and the next parse starts clean.
    let deep = format!("SELECT * FROM {}5{}", "(".repeat(40), ")".repeat(40));
    assert!(matches!(parse(&deep), Err(Error::TooManySubqueries)));
    assert!(parse("SELECT * FROM test;").is_ok());
    assert!(parse("SELECT * FROM { }} ").is_err());
    assert!(parse("SELECT * FROM test;").is_ok());
}
