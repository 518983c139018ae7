//! A byte codec for queries, so a parsed query can be shipped or stored and
//! read back.
//!
//! Every number is eight bytes little-endian; every character is four; a
//! string is its length then its characters; tagged variants write one tag
//! byte. `encode` produces exactly this form, and `decode` accepts only
//! bytes that some query encodes to: whatever it returns re-encodes to the
//! input, byte for byte.

use vstd::prelude::*;
use crate::err::Error;
use crate::statement::{
    DataKind, DataStmt, Expr, Query, SpecDataKind, SpecDataStmt, SpecExpr, SpecStatement,
    Statement,
};
use crate::value::{SpecValue, Value};

verus! {

broadcast use vstd::std_specs::vec::group_vec_axioms, vstd::seq::group_seq_axioms;

/// The eight little-endian bytes of a number.
pub open spec fn enc_u64(n: u64) -> Seq<u8> {
    seq![
        (n >> 0) as u8,
        (n >> 8) as u8,
        (n >> 16) as u8,
        (n >> 24) as u8,
        (n >> 32) as u8,
        (n >> 40) as u8,
        (n >> 48) as u8,
        (n >> 56) as u8,
    ]
}

/// The four little-endian bytes of a character's code point.
pub open spec fn enc_char(c: char) -> Seq<u8> {
    seq![
        ((c as u32) >> 0) as u8,
        ((c as u32) >> 8) as u8,
        ((c as u32) >> 16) as u8,
        ((c as u32) >> 24) as u8,
    ]
}

/// The characters of a string, four bytes each.
pub open spec fn enc_chars(s: Seq<char>) -> Seq<u8>
    decreases s.len(),
{
    if s.len() == 0 {
        Seq::empty()
    } else {
        enc_chars(s.drop_last()) + enc_char(s.last())
    }
}

/// A string: its length, then its characters.
pub open spec fn enc_str(s: Seq<char>) -> Seq<u8> {
    enc_u64(s.len() as u64) + enc_chars(s)
}

/// An optional string: a presence byte, then the string when present.
pub open spec fn enc_opt_str(s: Option<Seq<char>>) -> Seq<u8> {
    match s {
        None => seq![0u8],
        Some(s) => seq![1u8] + enc_str(s),
    }
}

/// An optional number: a presence byte, then the number when present.
pub open spec fn enc_opt_u64(n: Option<u64>) -> Seq<u8> {
    match n {
        None => seq![0u8],
        Some(n) => seq![1u8] + enc_u64(n),
    }
}

/// A value, by tag: nil, the booleans, an integer, a string, a record
/// pointer, an array, an object.
pub open spec fn enc_value(v: SpecValue) -> Seq<u8>
    decreases v,
{
    match v {
        SpecValue::Nil => seq![0u8],
        SpecValue::True => seq![1u8],
        SpecValue::False => seq![2u8],
        SpecValue::Int(i) => seq![3u8] + enc_u64(i as u64),
        SpecValue::Strand(s) => seq![4u8] + enc_str(s),
        SpecValue::Thing { tb, id } => seq![5u8] + enc_str(tb) + enc_str(id),
        SpecValue::Array(items) => seq![6u8] + enc_u64(items.len() as u64) + enc_values(items),
        SpecValue::Object(fields) => seq![7u8] + enc_u64(fields.len() as u64) + enc_fields(
            fields,
        ),
    }
}

/// The values of an array, in order.
pub open spec fn enc_values(items: Seq<SpecValue>) -> Seq<u8>
    decreases items,
{
    if items.len() == 0 {
        Seq::empty()
    } else {
        enc_values(items.drop_last()) + enc_value(items.last())
    }
}

/// The fields of an object, in order.
pub open spec fn enc_fields(fields: Seq<(Seq<char>, SpecValue)>) -> Seq<u8>
    decreases fields,
{
    if fields.len() == 0 {
        Seq::empty()
    } else {
        enc_fields(fields.drop_last()) + enc_str(fields.last().0) + enc_value(fields.last().1)
    }
}

/// An expression: a literal value or a parameter name.
pub open spec fn enc_expr(e: SpecExpr) -> Seq<u8> {
    match e {
        SpecExpr::Literal(v) => seq![0u8] + enc_value(v),
        SpecExpr::Param(n) => seq![1u8] + enc_str(n),
    }
}

/// A data statement's core.
pub open spec fn enc_data_kind(k: SpecDataKind) -> Seq<u8> {
    match k {
        SpecDataKind::Create { tb, id } => seq![0u8] + enc_str(tb) + enc_opt_str(id),
        SpecDataKind::Select { tb } => seq![1u8] + enc_str(tb),
        SpecDataKind::Raw(s) => seq![2u8] + enc_str(s),
    }
}

/// A data statement: its core and its timeout.
pub open spec fn enc_data_stmt(d: SpecDataStmt) -> Seq<u8> {
    enc_data_kind(d.kind) + enc_opt_u64(d.timeout)
}

/// One statement, by tag.
pub open spec fn enc_stmt(st: SpecStatement) -> Seq<u8> {
    match st {
        SpecStatement::Begin => seq![0u8],
        SpecStatement::Commit => seq![1u8],
        SpecStatement::Cancel => seq![2u8],
        SpecStatement::Use { ns, db } => seq![3u8] + enc_opt_str(ns) + enc_opt_str(db),
        SpecStatement::Let { name, what } => seq![4u8] + enc_str(name) + enc_expr(what),
        SpecStatement::Opt { name, what } => seq![5u8] + enc_str(name) + seq![
            if what {
                1u8
            } else {
                0u8
            },
        ],
        SpecStatement::Output(e) => seq![6u8] + enc_expr(e),
        SpecStatement::Other(d) => seq![7u8] + enc_data_stmt(d),
    }
}

/// The statements of a query, in order.
pub open spec fn enc_stmts(sts: Seq<SpecStatement>) -> Seq<u8>
    decreases sts.len(),
{
    if sts.len() == 0 {
        Seq::empty()
    } else {
        enc_stmts(sts.drop_last()) + enc_stmt(sts.last())
    }
}

/// A whole query: its statement count, then its statements.
pub open spec fn enc_query(sts: Seq<SpecStatement>) -> Seq<u8> {
    enc_u64(sts.len() as u64) + enc_stmts(sts)
}

/// Appends the eight bytes of a number.
fn push_u64(out: &mut Vec<u8>, n: u64)
    ensures
        final(out)@ == old(out)@ + enc_u64(n),
{
    out.push((n >> 0) as u8);
    out.push((n >> 8) as u8);
    out.push((n >> 16) as u8);
    out.push((n >> 24) as u8);
    out.push((n >> 32) as u8);
    out.push((n >> 40) as u8);
    out.push((n >> 48) as u8);
    out.push((n >> 56) as u8);
    assert(out@ =~= old(out)@ + enc_u64(n));
}

/// Appends the four bytes of a character.
fn push_char_enc(out: &mut Vec<u8>, c: char)
    ensures
        final(out)@ == old(out)@ + enc_char(c),
{
    let u = c as u32;
    out.push((u >> 0) as u8);
    out.push((u >> 8) as u8);
    out.push((u >> 16) as u8);
    out.push((u >> 24) as u8);
    assert(out@ =~= old(out)@ + enc_char(c));
}

/// Appends a string.
#[verifier::loop_isolation(false)]
fn push_str_enc(out: &mut Vec<u8>, s: &str)
    ensures
        final(out)@ == old(out)@ + enc_str(s@),
{
    let cs = crate::strutil::chars_of(s);
    push_u64(out, cs.len() as u64);
    let mut i: usize = 0;
    while i < cs.len()
        invariant
            i <= cs@.len(),
            out@ == old(out)@ + enc_u64(cs@.len() as u64) + enc_chars(cs@.take(i as int)),
        decreases cs@.len() - i,
    {
        push_char_enc(out, cs[i]);
        proof {
            assert(cs@.take(i + 1 as int).drop_last() =~= cs@.take(i as int));
            assert(cs@.take(i + 1 as int).last() == cs@[i as int]);
            assert(out@ =~= old(out)@ + enc_u64(cs@.len() as u64) + enc_chars(
                cs@.take(i + 1 as int),
            ));
        }
        i = i + 1;
    }
    proof {
        assert(cs@.take(cs@.len() as int) =~= cs@);
    }
}

/// Appends an optional string.
fn push_opt_str(out: &mut Vec<u8>, s: &Option<String>)
    ensures
        final(out)@ == old(out)@ + enc_opt_str(s.deep_view()),
{
    match s {
        None => {
            out.push(0);
            assert(out@ =~= old(out)@ + enc_opt_str(s.deep_view()));
        },
        Some(s2) => {
            out.push(1);
            push_str_enc(out, s2.as_str());
            assert(out@ =~= old(out)@ + enc_opt_str(Some(s2@)));
        },
    }
}

/// Appends an optional number.
fn push_opt_u64(out: &mut Vec<u8>, n: &Option<u64>)
    ensures
        final(out)@ == old(out)@ + enc_opt_u64(*n),
{
    match n {
        None => {
            out.push(0);
            assert(out@ =~= old(out)@ + enc_opt_u64(None::<u64>));
        },
        Some(n2) => {
            out.push(1);
            push_u64(out, *n2);
            assert(out@ =~= old(out)@ + enc_opt_u64(Some(*n2)));
        },
    }
}

/// Appends one value.
#[verifier::loop_isolation(false)]
fn push_value(out: &mut Vec<u8>, v: &Value)
    ensures
        final(out)@ == old(out)@ + enc_value(v.deep_view()),
    decreases v,
{
    match v {
        Value::Nil => {
            out.push(0);
            assert(out@ =~= old(out)@ + enc_value(v.deep_view()));
        },
        Value::True => {
            out.push(1);
            assert(out@ =~= old(out)@ + enc_value(v.deep_view()));
        },
        Value::False => {
            out.push(2);
            assert(out@ =~= old(out)@ + enc_value(v.deep_view()));
        },
        Value::Int(i) => {
            out.push(3);
            push_u64(
                out,
                #[verifier::truncate]
                (*i as u64),
            );
            assert(out@ =~= old(out)@ + enc_value(v.deep_view()));
        },
        Value::Strand(s) => {
            out.push(4);
            push_str_enc(out, s.as_str());
            assert(out@ =~= old(out)@ + enc_value(v.deep_view()));
        },
        Value::Thing { tb, id } => {
            out.push(5);
            push_str_enc(out, tb.as_str());
            push_str_enc(out, id.as_str());
            assert(out@ =~= old(out)@ + enc_value(v.deep_view()));
        },
        Value::Array(items) => {
            out.push(6);
            push_u64(out, items.len() as u64);
            let ghost base = out@;
            let ghost iview = crate::value::arr_view(items@);
            let mut k: usize = 0;
            while k < items.len()
                invariant
                    k <= items@.len(),
                    out@ == base + enc_values(iview.take(k as int)),
                decreases items@.len() - k,
            {
                push_value(out, &items[k]);
                proof {
                    assert(iview.take(k + 1 as int).drop_last() =~= iview.take(k as int));
                    assert(iview.take(k + 1 as int).last() == iview[k as int]);
                    assert(out@ =~= base + enc_values(iview.take(k + 1 as int)));
                }
                k = k + 1;
            }
            proof {
                assert(iview.take(iview.len() as int) =~= iview);
                assert(out@ =~= old(out)@ + enc_value(v.deep_view()));
            }
        },
        Value::Object(fields) => {
            out.push(7);
            push_u64(out, fields.len() as u64);
            let ghost base = out@;
            let ghost fview = crate::value::obj_view(fields@);
            let mut k: usize = 0;
            while k < fields.len()
                invariant
                    k <= fields@.len(),
                    out@ == base + enc_fields(fview.take(k as int)),
                decreases fields@.len() - k,
            {
                push_str_enc(out, fields[k].0.as_str());
                push_value(out, &fields[k].1);
                proof {
                    assert(fview.take(k + 1 as int).drop_last() =~= fview.take(k as int));
                    assert(fview.take(k + 1 as int).last() == fview[k as int]);
                    assert(out@ =~= base + enc_fields(fview.take(k + 1 as int)));
                }
                k = k + 1;
            }
            proof {
                assert(fview.take(fview.len() as int) =~= fview);
                assert(out@ =~= old(out)@ + enc_value(v.deep_view()));
            }
        },
    }
}

/// Appends one expression.
fn push_expr(out: &mut Vec<u8>, e: &Expr)
    ensures
        final(out)@ == old(out)@ + enc_expr(e.deep_view()),
{
    match e {
        Expr::Literal(v) => {
            out.push(0);
            push_value(out, v);
            assert(out@ =~= old(out)@ + enc_expr(e.deep_view()));
        },
        Expr::Param(n) => {
            out.push(1);
            push_str_enc(out, n.as_str());
            assert(out@ =~= old(out)@ + enc_expr(e.deep_view()));
        },
    }
}

/// Appends one statement.
fn push_stmt(out: &mut Vec<u8>, st: &Statement)
    ensures
        final(out)@ == old(out)@ + enc_stmt(st.deep_view()),
{
    match st {
        Statement::Begin => {
            out.push(0);
            assert(out@ =~= old(out)@ + enc_stmt(st.deep_view()));
        },
        Statement::Commit => {
            out.push(1);
            assert(out@ =~= old(out)@ + enc_stmt(st.deep_view()));
        },
        Statement::Cancel => {
            out.push(2);
            assert(out@ =~= old(out)@ + enc_stmt(st.deep_view()));
        },
        Statement::Use { ns, db } => {
            out.push(3);
            push_opt_str(out, ns);
            push_opt_str(out, db);
            assert(out@ =~= old(out)@ + enc_stmt(st.deep_view()));
        },
        Statement::Let { name, what } => {
            out.push(4);
            push_str_enc(out, name.as_str());
            push_expr(out, what);
            assert(out@ =~= old(out)@ + enc_stmt(st.deep_view()));
        },
        Statement::Opt { name, what } => {
            out.push(5);
            push_str_enc(out, name.as_str());
            out.push(if *what {
                1
            } else {
                0
            });
            assert(out@ =~= old(out)@ + enc_stmt(st.deep_view()));
        },
        Statement::Output(e) => {
            out.push(6);
            push_expr(out, e);
            assert(out@ =~= old(out)@ + enc_stmt(st.deep_view()));
        },
        Statement::Other(d) => {
            out.push(7);
            match &d.kind {
                DataKind::Create { tb, id } => {
                    out.push(0);
                    push_str_enc(out, tb.as_str());
                    push_opt_str(out, id);
                },
                DataKind::Select { tb } => {
                    out.push(1);
                    push_str_enc(out, tb.as_str());
                },
                DataKind::Raw(s) => {
                    out.push(2);
                    push_str_enc(out, s.as_str());
                },
            }
            push_opt_u64(out, &d.timeout);
            assert(out@ =~= old(out)@ + enc_stmt(st.deep_view()));
        },
    }
}

impl Query {
    /// The byte form of the query.
    #[verifier::loop_isolation(false)]
    pub fn encode(&self) -> (r: Vec<u8>)
        ensures
            r@ == enc_query(self.deep_view()),
    {
        let mut out: Vec<u8> = Vec::new();
        push_u64(&mut out, self.stmts.len() as u64);
        let ghost base = out@;
        let ghost sview = self.deep_view();
        let mut k: usize = 0;
        while k < self.stmts.len()
            invariant
                k <= self.stmts@.len(),
                out@ == base + enc_stmts(sview.take(k as int)),
            decreases self.stmts@.len() - k,
        {
            push_stmt(&mut out, &self.stmts[k]);
            proof {
                assert(sview.take(k + 1 as int).drop_last() =~= sview.take(k as int));
                assert(sview.take(k + 1 as int).last() == sview[k as int]);
                assert(out@ =~= base + enc_stmts(sview.take(k + 1 as int)));
            }
            k = k + 1;
        }
        proof {
            assert(sview.take(sview.len() as int) =~= sview);
            assert(out@ =~= enc_query(self.deep_view()));
        }
        out
    }
}

/// Relies on char::from_u32: the character with this code point, or `None`
/// for a surrogate or out-of-range value.
#[verifier::external_body]
fn char_from_code(u: u32) -> (r: Option<char>)
    ensures
        r is Some ==> (r->0 as u32) == u,
{
    char::from_u32(u)
}

/// Reads eight little-endian bytes as a number.
fn read_u64(bytes: &Vec<u8>, pos: usize) -> (r: Option<(u64, usize)>)
    requires
        pos <= bytes@.len(),
    ensures
        match r {
            Some(p) => p.1 == pos + 8 && p.1 <= bytes@.len() && bytes@.subrange(
                pos as int,
                p.1 as int,
            ) == enc_u64(p.0),
            None => true,
        },
{
    if bytes.len() - pos < 8 {
        return None;
    }
    let b0 = bytes[pos];
    let b1 = bytes[pos + 1];
    let b2 = bytes[pos + 2];
    let b3 = bytes[pos + 3];
    let b4 = bytes[pos + 4];
    let b5 = bytes[pos + 5];
    let b6 = bytes[pos + 6];
    let b7 = bytes[pos + 7];
    let v: u64 = (b0 as u64) | ((b1 as u64) << 8) | ((b2 as u64) << 16) | ((b3 as u64) << 24)
        | ((b4 as u64) << 32) | ((b5 as u64) << 40) | ((b6 as u64) << 48) | ((b7 as u64) << 56);
    proof {
        assert((v >> 0) as u8 == b0 && (v >> 8) as u8 == b1 && (v >> 16) as u8 == b2 && (v
            >> 24) as u8 == b3 && (v >> 32) as u8 == b4 && (v >> 40) as u8 == b5 && (v >> 48)
            as u8 == b6 && (v >> 56) as u8 == b7) by (bit_vector)
            requires
                v == (b0 as u64) | ((b1 as u64) << 8) | ((b2 as u64) << 16) | ((b3 as u64)
                    << 24) | ((b4 as u64) << 32) | ((b5 as u64) << 40) | ((b6 as u64) << 48) | ((
                b7 as u64) << 56),
        ;
        assert(bytes@.subrange(pos as int, pos + 8 as int) =~= enc_u64(v));
    }
    Some((v, pos + 8))
}

/// Reads four little-endian bytes as a character.
fn read_char(bytes: &Vec<u8>, pos: usize) -> (r: Option<(char, usize)>)
    requires
        pos <= bytes@.len(),
    ensures
        match r {
            Some(p) => p.1 == pos + 4 && p.1 <= bytes@.len() && bytes@.subrange(
                pos as int,
                p.1 as int,
            ) == enc_char(p.0),
            None => true,
        },
{
    if bytes.len() - pos < 4 {
        return None;
    }
    let b0 = bytes[pos];
    let b1 = bytes[pos + 1];
    let b2 = bytes[pos + 2];
    let b3 = bytes[pos + 3];
    let u: u32 = (b0 as u32) | ((b1 as u32) << 8) | ((b2 as u32) << 16) | ((b3 as u32) << 24);
    let c = match char_from_code(u) {
        Some(c) => c,
        None => {
            return None;
        },
    };
    proof {
        let cu = c as u32;
        assert((cu >> 0) as u8 == b0 && (cu >> 8) as u8 == b1 && (cu >> 16) as u8 == b2 && (cu
            >> 24) as u8 == b3) by (bit_vector)
            requires
                cu == (b0 as u32) | ((b1 as u32) << 8) | ((b2 as u32) << 16) | ((b3 as u32)
                    << 24),
        ;
        assert(bytes@.subrange(pos as int, pos + 4 as int) =~= enc_char(c));
    }
    Some((c, pos + 4))
}

/// Reads a string: its length, then its characters.
#[verifier::loop_isolation(false)]
fn read_str(bytes: &Vec<u8>, pos: usize) -> (r: Option<(String, usize)>)
    requires
        pos <= bytes@.len(),
    ensures
        match r {
            Some(p) => pos < p.1 <= bytes@.len() && bytes@.subrange(pos as int, p.1 as int)
                == enc_str(p.0@),
            None => true,
        },
{
    let (n, p1) = match read_u64(bytes, pos) {
        Some(p) => p,
        None => {
            return None;
        },
    };
    if n > 0xFFFF_FFFFu64 || n > (bytes.len() - p1) as u64 / 4 {
        return None;
    }
    let nn = n as usize;
    proof {
        assert(nn == n);
    }
    let mut cs: Vec<char> = Vec::new();
    let mut p = p1;
    let mut k: usize = 0;
    while k < nn
        invariant
            k <= nn,
            cs@.len() == k,
            p1 <= p <= bytes@.len(),
            p == p1 + 4 * k,
            nn == n,
            n <= (bytes@.len() - p1) / 4,
            bytes@.subrange(p1 as int, p as int) == enc_chars(cs@),
        decreases nn - k,
    {
        let ghost pre = cs@;
        let (c, p2) = match read_char(bytes, p) {
            Some(x) => x,
            None => {
                return None;
            },
        };
        cs.push(c);
        proof {
            assert(cs@.drop_last() =~= pre);
            assert(bytes@.subrange(p1 as int, p2 as int) =~= bytes@.subrange(
                p1 as int,
                p as int,
            ) + bytes@.subrange(p as int, p2 as int));
        }
        p = p2;
        k = k + 1;
    }
    let s = crate::strutil::string_of_chars(&cs);
    proof {
        assert(bytes@.subrange(pos as int, p as int) =~= bytes@.subrange(pos as int, p1 as int)
            + bytes@.subrange(p1 as int, p as int));
        assert(bytes@.subrange(pos as int, p as int) =~= enc_str(s@));
    }
    Some((s, p))
}

/// Reads an optional string.
fn read_opt_str(bytes: &Vec<u8>, pos: usize) -> (r: Option<(Option<String>, usize)>)
    requires
        pos <= bytes@.len(),
    ensures
        match r {
            Some(p) => pos < p.1 <= bytes@.len() && bytes@.subrange(pos as int, p.1 as int)
                == enc_opt_str(p.0.deep_view()),
            None => true,
        },
{
    if pos >= bytes.len() {
        return None;
    }
    let tag = bytes[pos];
    if tag == 0 {
        proof {
            assert(bytes@.subrange(pos as int, pos + 1 as int) =~= enc_opt_str(
                None::<Seq<char>>,
            ));
        }
        Some((None, pos + 1))
    } else if tag == 1 {
        let (s, p2) = match read_str(bytes, pos + 1) {
            Some(x) => x,
            None => {
                return None;
            },
        };
        proof {
            assert(bytes@.subrange(pos as int, p2 as int) =~= seq![1u8] + bytes@.subrange(
                pos + 1 as int,
                p2 as int,
            ));
        }
        Some((Some(s), p2))
    } else {
        None
    }
}

/// Reads an optional number.
fn read_opt_u64(bytes: &Vec<u8>, pos: usize) -> (r: Option<(Option<u64>, usize)>)
    requires
        pos <= bytes@.len(),
    ensures
        match r {
            Some(p) => pos < p.1 <= bytes@.len() && bytes@.subrange(pos as int, p.1 as int)
                == enc_opt_u64(p.0),
            None => true,
        },
{
    if pos >= bytes.len() {
        return None;
    }
    let tag = bytes[pos];
    if tag == 0 {
        proof {
            assert(bytes@.subrange(pos as int, pos + 1 as int) =~= enc_opt_u64(None::<u64>));
        }
        Some((None, pos + 1))
    } else if tag == 1 {
        let (v, p2) = match read_u64(bytes, pos + 1) {
            Some(x) => x,
            None => {
                return None;
            },
        };
        proof {
            assert(bytes@.subrange(pos as int, p2 as int) =~= seq![1u8] + bytes@.subrange(
                pos + 1 as int,
                p2 as int,
            ));
        }
        Some((Some(v), p2))
    } else {
        None
    }
}

/// Reads one value.
#[verifier::loop_isolation(false)]
#[verifier::rlimit(60)]
fn read_value(bytes: &Vec<u8>, pos: usize) -> (r: Option<(Value, usize)>)
    requires
        pos <= bytes@.len(),
    ensures
        match r {
            Some(p) => pos < p.1 <= bytes@.len() && bytes@.subrange(pos as int, p.1 as int)
                == enc_value(p.0.deep_view()),
            None => true,
        },
    decreases bytes@.len() - pos,
{
    if pos >= bytes.len() {
        return None;
    }
    let tag = bytes[pos];
    let p1 = pos + 1;
    if tag == 0 {
        proof {
            assert(bytes@.subrange(pos as int, p1 as int) =~= enc_value(SpecValue::Nil));
        }
        Some((Value::Nil, p1))
    } else if tag == 1 {
        proof {
            assert(bytes@.subrange(pos as int, p1 as int) =~= enc_value(SpecValue::True));
        }
        Some((Value::True, p1))
    } else if tag == 2 {
        proof {
            assert(bytes@.subrange(pos as int, p1 as int) =~= enc_value(SpecValue::False));
        }
        Some((Value::False, p1))
    } else if tag == 3 {
        let (n, p2) = match read_u64(bytes, p1) {
            Some(x) => x,
            None => {
                return None;
            },
        };
        let i =
        #[verifier::truncate]
        (n as i64);
        proof {
            assert(
                #[verifier::truncate]
                ((i as u64)) == n) by (bit_vector)
                requires
                    i ==
                    #[verifier::truncate]
                    (n as i64),
            ;
            assert(bytes@.subrange(pos as int, p2 as int) =~= seq![3u8] + bytes@.subrange(
                p1 as int,
                p2 as int,
            ));
        }
        Some((Value::Int(i), p2))
    } else if tag == 4 {
        let (sv, p2) = match read_str(bytes, p1) {
            Some(x) => x,
            None => {
                return None;
            },
        };
        proof {
            assert(bytes@.subrange(pos as int, p2 as int) =~= seq![4u8] + bytes@.subrange(
                p1 as int,
                p2 as int,
            ));
        }
        Some((Value::Strand(sv), p2))
    } else if tag == 5 {
        let (tb, p2) = match read_str(bytes, p1) {
            Some(x) => x,
            None => {
                return None;
            },
        };
        let (id, p3) = match read_str(bytes, p2) {
            Some(x) => x,
            None => {
                return None;
            },
        };
        proof {
            assert(bytes@.subrange(pos as int, p3 as int) =~= seq![5u8] + bytes@.subrange(
                p1 as int,
                p2 as int,
            ) + bytes@.subrange(p2 as int, p3 as int));
        }
        Some((Value::Thing { tb, id }, p3))
    } else if tag == 6 {
        let (n, p2) = match read_u64(bytes, p1) {
            Some(x) => x,
            None => {
                return None;
            },
        };
        if n > (bytes.len() - p2) as u64 {
            return None;
        }
        let nn = n as usize;
        proof {
            assert(nn == n);
        }
        let mut items: Vec<Value> = Vec::new();
        let mut p = p2;
        let mut k: usize = 0;
        while k < nn
            invariant
                k <= nn,
                items@.len() == k,
                p2 <= p <= bytes@.len(),
                k < nn ==> p < bytes@.len() || p == bytes@.len(),
                bytes@.subrange(p2 as int, p as int) == enc_values(
                    crate::value::arr_view(items@),
                ),
            decreases nn - k,
        {
            let ghost preview = crate::value::arr_view(items@);
            let (v, pv) = match read_value(bytes, p) {
                Some(x) => x,
                None => {
                    return None;
                },
            };
            items.push(v);
            proof {
                assert(crate::value::arr_view(items@).drop_last() =~= preview);
                assert(crate::value::arr_view(items@).last() == items@.last().deep_view());
                assert(bytes@.subrange(p2 as int, pv as int) =~= bytes@.subrange(
                    p2 as int,
                    p as int,
                ) + bytes@.subrange(p as int, pv as int));
            }
            p = pv;
            k = k + 1;
        }
        proof {
            assert(crate::value::arr_view(items@).len() == nn);
            assert(bytes@.subrange(pos as int, p as int) =~= seq![6u8] + bytes@.subrange(
                p1 as int,
                p2 as int,
            ) + bytes@.subrange(p2 as int, p as int));
            assert(bytes@.subrange(pos as int, p as int) =~= enc_value(
                Value::Array(items).deep_view(),
            ));
        }
        Some((Value::Array(items), p))
    } else if tag == 7 {
        let (n, p2) = match read_u64(bytes, p1) {
            Some(x) => x,
            None => {
                return None;
            },
        };
        if n > (bytes.len() - p2) as u64 {
            return None;
        }
        let nn = n as usize;
        proof {
            assert(nn == n);
        }
        let mut fields: Vec<(String, Value)> = Vec::new();
        let mut p = p2;
        let mut k: usize = 0;
        while k < nn
            invariant
                k <= nn,
                fields@.len() == k,
                p2 <= p <= bytes@.len(),
                bytes@.subrange(p2 as int, p as int) == enc_fields(
                    crate::value::obj_view(fields@),
                ),
            decreases nn - k,
        {
            let ghost preview = crate::value::obj_view(fields@);
            let (key, pk) = match read_str(bytes, p) {
                Some(x) => x,
                None => {
                    return None;
                },
            };
            let (v, pv) = match read_value(bytes, pk) {
                Some(x) => x,
                None => {
                    return None;
                },
            };
            fields.push((key, v));
            proof {
                assert(crate::value::obj_view(fields@).drop_last() =~= preview);
                assert(bytes@.subrange(p2 as int, pv as int) =~= bytes@.subrange(
                    p2 as int,
                    p as int,
                ) + bytes@.subrange(p as int, pk as int) + bytes@.subrange(
                    pk as int,
                    pv as int,
                ));
            }
            p = pv;
            k = k + 1;
        }
        proof {
            assert(crate::value::obj_view(fields@).len() == nn);
            assert(bytes@.subrange(pos as int, p as int) =~= seq![7u8] + bytes@.subrange(
                p1 as int,
                p2 as int,
            ) + bytes@.subrange(p2 as int, p as int));
            assert(bytes@.subrange(pos as int, p as int) =~= enc_value(
                Value::Object(fields).deep_view(),
            ));
        }
        Some((Value::Object(fields), p))
    } else {
        None
    }
}

/// Reads one expression.
fn read_expr(bytes: &Vec<u8>, pos: usize) -> (r: Option<(Expr, usize)>)
    requires
        pos <= bytes@.len(),
    ensures
        match r {
            Some(p) => pos < p.1 <= bytes@.len() && bytes@.subrange(pos as int, p.1 as int)
                == enc_expr(p.0.deep_view()),
            None => true,
        },
{
    if pos >= bytes.len() {
        return None;
    }
    let tag = bytes[pos];
    if tag == 0 {
        let (v, p2) = match read_value(bytes, pos + 1) {
            Some(x) => x,
            None => {
                return None;
            },
        };
        proof {
            assert(bytes@.subrange(pos as int, p2 as int) =~= seq![0u8] + bytes@.subrange(
                pos + 1 as int,
                p2 as int,
            ));
        }
        Some((Expr::Literal(v), p2))
    } else if tag == 1 {
        let (n, p2) = match read_str(bytes, pos + 1) {
            Some(x) => x,
            None => {
                return None;
            },
        };
        proof {
            assert(bytes@.subrange(pos as int, p2 as int) =~= seq![1u8] + bytes@.subrange(
                pos + 1 as int,
                p2 as int,
            ));
        }
        Some((Expr::Param(n), p2))
    } else {
        None
    }
}

/// Reads one statement.
#[verifier::rlimit(60)]
fn read_stmt(bytes: &Vec<u8>, pos: usize) -> (r: Option<(Statement, usize)>)
    requires
        pos <= bytes@.len(),
    ensures
        match r {
            Some(p) => pos < p.1 <= bytes@.len() && bytes@.subrange(pos as int, p.1 as int)
                == enc_stmt(p.0.deep_view()),
            None => true,
        },
{
    if pos >= bytes.len() {
        return None;
    }
    let tag = bytes[pos];
    let p1 = pos + 1;
    if tag == 0 {
        proof {
            assert(bytes@.subrange(pos as int, p1 as int) =~= enc_stmt(SpecStatement::Begin));
        }
        Some((Statement::Begin, p1))
    } else if tag == 1 {
        proof {
            assert(bytes@.subrange(pos as int, p1 as int) =~= enc_stmt(SpecStatement::Commit));
        }
        Some((Statement::Commit, p1))
    } else if tag == 2 {
        proof {
            assert(bytes@.subrange(pos as int, p1 as int) =~= enc_stmt(SpecStatement::Cancel));
        }
        Some((Statement::Cancel, p1))
    } else if tag == 3 {
        let (ns, p2) = match read_opt_str(bytes, p1) {
            Some(x) => x,
            None => {
                return None;
            },
        };
        let (db, p3) = match read_opt_str(bytes, p2) {
            Some(x) => x,
            None => {
                return None;
            },
        };
        proof {
            assert(bytes@.subrange(pos as int, p3 as int) =~= seq![3u8] + bytes@.subrange(
                p1 as int,
                p2 as int,
            ) + bytes@.subrange(p2 as int, p3 as int));
        }
        Some((Statement::Use { ns, db }, p3))
    } else if tag == 4 {
        let (name, p2) = match read_str(bytes, p1) {
            Some(x) => x,
            None => {
                return None;
            },
        };
        let (what, p3) = match read_expr(bytes, p2) {
            Some(x) => x,
            None => {
                return None;
            },
        };
        proof {
            assert(bytes@.subrange(pos as int, p3 as int) =~= seq![4u8] + bytes@.subrange(
                p1 as int,
                p2 as int,
            ) + bytes@.subrange(p2 as int, p3 as int));
        }
        Some((Statement::Let { name, what }, p3))
    } else if tag == 5 {
        let (name, p2) = match read_str(bytes, p1) {
            Some(x) => x,
            None => {
                return None;
            },
        };
        if p2 >= bytes.len() {
            return None;
        }
        let wb = bytes[p2];
        let what = if wb == 1 {
            true
        } else if wb == 0 {
            false
        } else {
            return None;
        };
        proof {
            assert(bytes@.subrange(pos as int, p2 + 1 as int) =~= seq![5u8] + bytes@.subrange(
                p1 as int,
                p2 as int,
            ) + seq![if what { 1u8 } else { 0u8 }]);
        }
        Some((Statement::Opt { name, what }, p2 + 1))
    } else if tag == 6 {
        let (e, p2) = match read_expr(bytes, p1) {
            Some(x) => x,
            None => {
                return None;
            },
        };
        proof {
            assert(bytes@.subrange(pos as int, p2 as int) =~= seq![6u8] + bytes@.subrange(
                p1 as int,
                p2 as int,
            ));
        }
        Some((Statement::Output(e), p2))
    } else if tag == 7 {
        if p1 >= bytes.len() {
            return None;
        }
        let ktag = bytes[p1];
        let pk = p1 + 1;
        let (kind, p2): (DataKind, usize) = if ktag == 0 {
            let (tb, pa) = match read_str(bytes, pk) {
                Some(x) => x,
                None => {
                    return None;
                },
            };
            let (id, pb) = match read_opt_str(bytes, pa) {
                Some(x) => x,
                None => {
                    return None;
                },
            };
            proof {
                assert(bytes@.subrange(p1 as int, pb as int) =~= seq![0u8] + bytes@.subrange(
                    pk as int,
                    pa as int,
                ) + bytes@.subrange(pa as int, pb as int));
            }
            (DataKind::Create { tb, id }, pb)
        } else if ktag == 1 {
            let (tb, pa) = match read_str(bytes, pk) {
                Some(x) => x,
                None => {
                    return None;
                },
            };
            proof {
                assert(bytes@.subrange(p1 as int, pa as int) =~= seq![1u8] + bytes@.subrange(
                    pk as int,
                    pa as int,
                ));
            }
            (DataKind::Select { tb }, pa)
        } else if ktag == 2 {
            let (raw, pa) = match read_str(bytes, pk) {
                Some(x) => x,
                None => {
                    return None;
                },
            };
            proof {
                assert(bytes@.subrange(p1 as int, pa as int) =~= seq![2u8] + bytes@.subrange(
                    pk as int,
                    pa as int,
                ));
            }
            (DataKind::Raw(raw), pa)
        } else {
            return None;
        };
        let ghost kend = p2 as int;
        let (timeout, p3) = match read_opt_u64(bytes, p2) {
            Some(x) => x,
            None => {
                return None;
            },
        };
        let d = DataStmt { kind, timeout };
        proof {
            assert(bytes@.subrange(p1 as int, p2 as int) == enc_data_kind(d.kind.deep_view()));
            assert(bytes@.subrange(pos as int, p3 as int) =~= seq![7u8] + bytes@.subrange(
                p1 as int,
                p2 as int,
            ) + bytes@.subrange(p2 as int, p3 as int));
        }
        Some((Statement::Other(d), p3))
    } else {
        None
    }
}

impl Query {
    /// The query read back from its byte form: whatever comes back encodes
    /// to exactly the input bytes; anything else is refused.
    #[verifier::loop_isolation(false)]
    pub fn decode(bytes: &Vec<u8>) -> (r: Result<Query, Error>)
        ensures
            r is Ok ==> enc_query(r->Ok_0.deep_view()) == bytes@,
    {
        let (n, p1) = match read_u64(bytes, 0) {
            Some(x) => x,
            None => {
                return Err(Error::QueryEmpty);
            },
        };
        if n > (bytes.len() - p1) as u64 {
            return Err(Error::QueryEmpty);
        }
        let nn = n as usize;
        proof {
            assert(nn == n);
        }
        let mut stmts: Vec<Statement> = Vec::new();
        let mut p = p1;
        let mut k: usize = 0;
        while k < nn
            invariant
                k <= nn,
                stmts@.len() == k,
                p1 <= p <= bytes@.len(),
                bytes@.subrange(p1 as int, p as int) == enc_stmts(stmts.deep_view()),
            decreases nn - k,
        {
            let ghost preview = stmts.deep_view();
            let (st, p2) = match read_stmt(bytes, p) {
                Some(x) => x,
                None => {
                    return Err(Error::QueryEmpty);
                },
            };
            stmts.push(st);
            proof {
                assert(stmts.deep_view().drop_last() =~= preview);
                assert(bytes@.subrange(p1 as int, p2 as int) =~= bytes@.subrange(
                    p1 as int,
                    p as int,
                ) + bytes@.subrange(p as int, p2 as int));
            }
            p = p2;
            k = k + 1;
        }
        if p != bytes.len() {
            return Err(Error::QueryEmpty);
        }
        let q = Query { stmts };
        proof {
            assert(q.deep_view().len() == nn);
            assert(bytes@ =~= bytes@.subrange(0, p1 as int) + bytes@.subrange(
                p1 as int,
                p as int,
            ));
            assert(bytes@ =~= enc_query(q.deep_view()));
        }
        Ok(q)
    }
}

} // verus!
