//! Small verified helpers over strings and characters.
//!
//! Parsing and formatting in this crate work over `Vec<char>`, so the
//! bridge functions here convert between `&str`/`String` and character
//! vectors, and render integers as decimal text.

use vstd::prelude::*;
use vstd::std_specs::iter::IteratorSpec;
use vstd::string::*;

verus! {

broadcast use vstd::std_specs::vec::group_vec_axioms, vstd::seq::group_seq_axioms,
    vstd::string::group_string_axioms;

/// Relies on String::push: appends one character to the string.
#[verifier::external_body]
pub fn push_char(s: &mut String, c: char)
    ensures
        final(s)@ == old(s)@.push(c),
{
    s.push(c);
}

/// The characters of `s`, in order, as a vector.
#[verifier::loop_isolation(false)]
pub fn chars_of(s: &str) -> (v: Vec<char>)
    ensures
        v@ == s@,
{
    let mut v: Vec<char> = Vec::new();
    let mut it = s.chars();
    loop
        invariant
            it.decrease() is Some,
            v@ + it.remaining() == s@,
        decreases it.decrease()->0,
    {
        match it.next() {
            Some(c) => {
                v.push(c);
            },
            None => {
                break;
            },
        }
    }
    assert(v@ =~= s@);
    v
}

/// The characters `cs[from..to]` joined into a string.
#[verifier::loop_isolation(false)]
pub fn string_of_range(cs: &Vec<char>, from: usize, to: usize) -> (r: String)
    requires
        from <= to <= cs@.len(),
    ensures
        r@ == cs@.subrange(from as int, to as int),
{
    let mut r = String::new();
    let mut i: usize = from;
    while i < to
        invariant
            from <= i <= to,
            r@ == cs@.subrange(from as int, i as int),
        decreases to - i,
    {
        push_char(&mut r, cs[i]);
        assert(cs@.subrange(from as int, i as int).push(cs@[i as int])
            =~= cs@.subrange(from as int, i + 1 as int));
        i = i + 1;
    }
    r
}

/// The characters of `cs` joined into a string.
pub fn string_of_chars(cs: &Vec<char>) -> (r: String)
    ensures
        r@ == cs@,
{
    let r = string_of_range(cs, 0, cs.len());
    assert(cs@.subrange(0, cs@.len() as int) =~= cs@);
    r
}

/// Whether two string slices hold the same characters.
pub fn str_eq(a: &str, b: &str) -> (r: bool)
    ensures
        r == (a@ == b@),
{
    let x = String::from_str(a);
    let y = String::from_str(b);
    x == y
}

/// The decimal digit characters.
pub open spec fn spec_digit_char(d: int) -> char {
    if d == 0 {
        '0'
    } else if d == 1 {
        '1'
    } else if d == 2 {
        '2'
    } else if d == 3 {
        '3'
    } else if d == 4 {
        '4'
    } else if d == 5 {
        '5'
    } else if d == 6 {
        '6'
    } else if d == 7 {
        '7'
    } else if d == 8 {
        '8'
    } else {
        '9'
    }
}

/// The decimal rendering of a non-negative number, most significant digit
/// first, with no leading zeros (except for zero itself).
pub open spec fn spec_nat_str(n: int) -> Seq<char>
    decreases n,
{
    if n < 10 {
        seq![spec_digit_char(n)]
    } else {
        spec_nat_str(n / 10).push(spec_digit_char(n % 10))
    }
}

/// The decimal rendering of a signed number.
pub open spec fn spec_int_str(i: int) -> Seq<char> {
    if i < 0 {
        seq!['-'] + spec_nat_str(-i)
    } else {
        spec_nat_str(i)
    }
}

/// The character for one decimal digit.
pub fn digit_char(d: u64) -> (c: char)
    requires
        d < 10,
    ensures
        c == spec_digit_char(d as int),
{
    if d == 0 {
        '0'
    } else if d == 1 {
        '1'
    } else if d == 2 {
        '2'
    } else if d == 3 {
        '3'
    } else if d == 4 {
        '4'
    } else if d == 5 {
        '5'
    } else if d == 6 {
        '6'
    } else if d == 7 {
        '7'
    } else if d == 8 {
        '8'
    } else {
        '9'
    }
}

/// Appends the decimal rendering of `n` to `out`.
pub fn push_nat_str(out: &mut String, n: u64)
    ensures
        final(out)@ == old(out)@ + spec_nat_str(n as int),
    decreases n,
{
    if n < 10 {
        push_char(out, digit_char(n));
        assert(out@ =~= old(out)@ + spec_nat_str(n as int));
    } else {
        push_nat_str(out, n / 10);
        push_char(out, digit_char(n % 10));
        assert(out@ =~= old(out)@ + spec_nat_str(n as int));
    }
}

/// The decimal rendering of a signed 64-bit number.
pub fn int_to_string(i: i64) -> (r: String)
    ensures
        r@ == spec_int_str(i as int),
{
    let mut out = String::new();
    if i < 0 {
        push_char(&mut out, '-');
        let mag: u64 = (-(i + 1)) as u64 + 1;
        assert(mag == -(i as int));
        push_nat_str(&mut out, mag);
        assert(out@ =~= spec_int_str(i as int));
    } else {
        push_nat_str(&mut out, i as u64);
        assert(out@ =~= spec_int_str(i as int));
    }
    out
}

/// The uppercase form of one character, for ASCII letters only; every other
/// character stays itself.
pub open spec fn spec_ascii_upper(c: char) -> char {
    match c {
        'a' => 'A',
        'b' => 'B',
        'c' => 'C',
        'd' => 'D',
        'e' => 'E',
        'f' => 'F',
        'g' => 'G',
        'h' => 'H',
        'i' => 'I',
        'j' => 'J',
        'k' => 'K',
        'l' => 'L',
        'm' => 'M',
        'n' => 'N',
        'o' => 'O',
        'p' => 'P',
        'q' => 'Q',
        'r' => 'R',
        's' => 'S',
        't' => 'T',
        'u' => 'U',
        'v' => 'V',
        'w' => 'W',
        'x' => 'X',
        'y' => 'Y',
        'z' => 'Z',
        _ => c,
    }
}

/// The ASCII-uppercase image of a character sequence.
pub open spec fn spec_ascii_upper_seq(s: Seq<char>) -> Seq<char> {
    s.map_values(|c: char| spec_ascii_upper(c))
}

/// Uppercases one ASCII letter, leaving every other character alone.
pub fn ascii_upper(c: char) -> (r: char)
    ensures
        r == spec_ascii_upper(c),
{
    match c {
        'a' => 'A',
        'b' => 'B',
        'c' => 'C',
        'd' => 'D',
        'e' => 'E',
        'f' => 'F',
        'g' => 'G',
        'h' => 'H',
        'i' => 'I',
        'j' => 'J',
        'k' => 'K',
        'l' => 'L',
        'm' => 'M',
        'n' => 'N',
        'o' => 'O',
        'p' => 'P',
        'q' => 'Q',
        'r' => 'R',
        's' => 'S',
        't' => 'T',
        'u' => 'U',
        'v' => 'V',
        'w' => 'W',
        'x' => 'X',
        'y' => 'Y',
        'z' => 'Z',
        _ => c,
    }
}

/// The ASCII-uppercase image of a string.
#[verifier::loop_isolation(false)]
pub fn ascii_uppercase(s: &str) -> (r: String)
    ensures
        r@ == spec_ascii_upper_seq(s@),
{
    let cs = chars_of(s);
    let mut out = String::new();
    let mut i: usize = 0;
    while i < cs.len()
        invariant
            i <= cs@.len(),
            cs@ == s@,
            out@ == spec_ascii_upper_seq(s@).take(i as int),
        decreases cs@.len() - i,
    {
        let u = ascii_upper(cs[i]);
        push_char(&mut out, u);
        assert(spec_ascii_upper_seq(s@).take(i as int).push(spec_ascii_upper(s@[i as int]))
            =~= spec_ascii_upper_seq(s@).take(i + 1 as int));
        i = i + 1;
    }
    assert(spec_ascii_upper_seq(s@).take(s@.len() as int) =~= spec_ascii_upper_seq(s@));
    out
}

} // verus!
