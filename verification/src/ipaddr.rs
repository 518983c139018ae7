//! Textual IPv6 handling for the admission limiter.
//!
//! The limiter keys unauthenticated clients by address. An address that
//! reads as IPv6 is normalized: the low 80 bits are easy to vary, so only
//! the /48 prefix is kept, and the prefix is rendered canonically
//! (lowercase hex, no leading zeros, the trailing zero groups compressed to
//! `::`). Any other address string is used as it stands, with a trailing
//! `:port` stripped.
//!
//! The grammar accepted here: eight groups of one to four hex digits
//! separated by `:`, or fewer groups with one `::` standing for the missing
//! zero groups.

use vstd::prelude::*;
use crate::strutil::push_char;

verus! {

broadcast use vstd::std_specs::vec::group_vec_axioms, vstd::seq::group_seq_axioms;

/// The value of one hex digit, or -1.
pub open spec fn spec_hex_val(c: char) -> int {
    let u = c as u32;
    if 48 <= u <= 57 {
        u - 48
    } else if 97 <= u <= 102 {
        u - 87
    } else if 65 <= u <= 70 {
        u - 55
    } else {
        -1
    }
}

/// The value of a hex-digit group, or -1 when any character is not hex.
/// (The length bound is checked by `spec_group_val`.)
pub open spec fn spec_hex_seq_val(tok: Seq<char>) -> int
    decreases tok.len(),
{
    if tok.len() == 0 {
        0
    } else {
        let p = spec_hex_seq_val(tok.drop_last());
        let h = spec_hex_val(tok.last());
        if p < 0 || h < 0 {
            -1
        } else {
            p * 16 + h
        }
    }
}

/// The value of one address group: one to four hex digits, or -1.
pub open spec fn spec_group_val(tok: Seq<char>) -> int {
    if 1 <= tok.len() <= 4 {
        spec_hex_seq_val(tok)
    } else {
        -1
    }
}

/// A valid group's value is below 2^16.
pub proof fn lemma_hex_seq_val_bound(tok: Seq<char>)
    requires
        tok.len() <= 4,
    ensures
        spec_hex_seq_val(tok) < 0x10000,
    decreases tok.len(),
{
    if tok.len() > 0 {
        lemma_hex_seq_val_bound_n(tok, tok.len() as int);
    }
}

/// `spec_hex_seq_val` is bounded by 16^len.
proof fn lemma_hex_seq_val_bound_n(tok: Seq<char>, n: int)
    requires
        tok.len() == n,
        0 <= n <= 4,
    ensures
        spec_hex_seq_val(tok) < if n == 0 {
            1int
        } else if n == 1 {
            16int
        } else if n == 2 {
            256int
        } else if n == 3 {
            4096int
        } else {
            65536int
        },
    decreases n,
{
    if n > 0 {
        lemma_hex_seq_val_bound_n(tok.drop_last(), n - 1);
    }
}

/// The position of the first `:` at or after `from`, or the length.
pub open spec fn spec_find_colon(s: Seq<char>, from: int) -> int
    decreases s.len() - from,
{
    if from < 0 || from >= s.len() {
        s.len() as int
    } else if s[from] == ':' {
        from
    } else {
        spec_find_colon(s, from + 1)
    }
}

/// The tokens of `s` from `from`, split on single colons, empties kept.
pub open spec fn spec_tokens(s: Seq<char>, from: int) -> Seq<Seq<char>>
    decreases s.len() - from,
    via spec_tokens_dec
{
    let j = spec_find_colon(s, from);
    if j >= s.len() {
        seq![s.subrange(from, s.len() as int)]
    } else {
        seq![s.subrange(from, j)] + spec_tokens(s, j + 1)
    }
}

#[via_fn]
proof fn spec_tokens_dec(s: Seq<char>, from: int) {
    if 0 <= from <= s.len() {
        lemma_find_colon_bounds(s, from);
    }
}

/// `spec_find_colon` stays within `[from, len]`.
pub proof fn lemma_find_colon_bounds(s: Seq<char>, from: int)
    requires
        0 <= from <= s.len(),
    ensures
        from <= spec_find_colon(s, from) <= s.len(),
    decreases s.len() - from,
{
    if from < s.len() && s[from] != ':' {
        lemma_find_colon_bounds(s, from + 1);
    }
}

/// Whether every token in `[a, b)` is a valid group.
pub open spec fn spec_all_groups_valid(toks: Seq<Seq<char>>, a: int, b: int) -> bool {
    forall|i: int| a <= i < b ==> spec_group_val(toks[i]) >= 0
}

/// The eight groups assembled from `nleft` leading tokens, the tokens from
/// `rstart` on aligned to the right, and zeros in between — the `::` fill.
pub open spec fn spec_fill_groups(toks: Seq<Seq<char>>, nleft: int, rstart: int) -> Seq<int> {
    let nright = toks.len() - rstart;
    Seq::new(
        8,
        |i: int|
            if i < nleft {
                spec_group_val(toks[i])
            } else if i >= 8 - nright {
                spec_group_val(toks[i - (8 - nright) + rstart])
            } else {
                0
            },
    )
}

/// The group values of an address, given its colon tokens: `None` when the
/// token list is not a well-formed IPv6 spelling. A `::` tokenizes to one
/// empty token in the middle of the list, or two at either end; the plain
/// string `::` gives three.
pub open spec fn spec_groups_of_tokens(toks: Seq<Seq<char>>) -> Option<Seq<int>> {
    let len = toks.len() as int;
    let e1 = spec_first_empty(toks, 0);
    if e1 == len {
        // no empty token: the full eight-group form
        if len == 8 && spec_all_groups_valid(toks, 0, 8) {
            Some(spec_fill_groups(toks, 8, 8))
        } else {
            None
        }
    } else if e1 == 0 {
        // leading "::" (a bare ":" tokenizes to two empties and is refused)
        if len >= 3 && toks[1].len() == 0 {
            if len == 3 && toks[2].len() == 0 {
                // the whole string is "::"
                Some(spec_fill_groups(toks, 0, 3))
            } else if spec_first_empty(toks, 2) == len && len - 2 <= 7 && spec_all_groups_valid(
                toks,
                2,
                len,
            ) {
                Some(spec_fill_groups(toks, 0, 2))
            } else {
                None
            }
        } else {
            None
        }
    } else if e1 == len - 2 && toks[len - 1].len() == 0 {
        // trailing "::"
        if len - 2 <= 7 && spec_all_groups_valid(toks, 0, len - 2) {
            Some(spec_fill_groups(toks, len - 2, len))
        } else {
            None
        }
    } else if e1 < len - 1 && spec_first_empty(toks, e1 + 1) == len {
        // one "::" in the middle
        if len - 1 <= 7 && spec_all_groups_valid(toks, 0, e1) && spec_all_groups_valid(
            toks,
            e1 + 1,
            len,
        ) {
            Some(spec_fill_groups(toks, e1, e1 + 1))
        } else {
            None
        }
    } else {
        None
    }
}

/// The eight group values of `s` when it reads as IPv6.
pub open spec fn spec_parse_ipv6(s: Seq<char>) -> Option<Seq<int>> {
    spec_groups_of_tokens(spec_tokens(s, 0))
}

/// The first index at or after `from` whose token is empty, or the length.
pub open spec fn spec_first_empty(toks: Seq<Seq<char>>, from: int) -> int
    decreases toks.len() - from,
{
    if from < 0 || from >= toks.len() {
        toks.len() as int
    } else if toks[from].len() == 0 {
        from
    } else {
        spec_first_empty(toks, from + 1)
    }
}

/// Lowercase hex digits.
pub open spec fn spec_hex_digit_char(d: int) -> char {
    if d == 0 {
        '0'
    } else if d == 1 {
        '1'
    } else if d == 2 {
        '2'
    } else if d == 3 {
        '3'
    } else if d == 4 {
        '4'
    } else if d == 5 {
        '5'
    } else if d == 6 {
        '6'
    } else if d == 7 {
        '7'
    } else if d == 8 {
        '8'
    } else if d == 9 {
        '9'
    } else if d == 10 {
        'a'
    } else if d == 11 {
        'b'
    } else if d == 12 {
        'c'
    } else if d == 13 {
        'd'
    } else if d == 14 {
        'e'
    } else {
        'f'
    }
}

/// The lowercase hex rendering of a group value, no leading zeros.
pub open spec fn spec_hex_str(n: int) -> Seq<char>
    decreases n,
{
    if n < 16 {
        seq![spec_hex_digit_char(n)]
    } else {
        spec_hex_str(n / 16).push(spec_hex_digit_char(n % 16))
    }
}

/// The canonical /48-prefix key of an IPv6 address with groups `g`: the
/// first three groups in lowercase hex, with the trailing zero groups
/// (always at least the last five) compressed to `::`. Only `g[0]`, `g[1]`
/// and `g[2]` enter the result.
pub open spec fn spec_format48(g0: int, g1: int, g2: int) -> Seq<char> {
    if g0 == 0 && g1 == 0 && g2 == 0 {
        "::"@
    } else if g1 == 0 && g2 == 0 {
        spec_hex_str(g0) + "::"@
    } else if g2 == 0 {
        spec_hex_str(g0) + ":"@ + spec_hex_str(g1) + "::"@
    } else {
        spec_hex_str(g0) + ":"@ + spec_hex_str(g1) + ":"@ + spec_hex_str(g2) + "::"@
    }
}

/// The position after which a trailing `:port` would start: the last colon,
/// or the length when there is none.
pub open spec fn spec_last_colon(s: Seq<char>) -> int
    decreases s.len(),
{
    if s.len() == 0 {
        -1
    } else if s.last() == ':' {
        s.len() - 1
    } else {
        spec_last_colon(s.drop_last())
    }
}

/// The address part of `host:port`; the whole string when it has no colon.
pub open spec fn spec_strip_port(s: Seq<char>) -> Seq<char> {
    if spec_last_colon(s) >= 0 {
        s.take(spec_last_colon(s))
    } else {
        s
    }
}

/// The limiter's normalized address key: the canonical /48 prefix for an
/// IPv6 address, the port-stripped string for anything else.
pub open spec fn spec_normalize_ip(s: Seq<char>) -> Seq<char> {
    match spec_parse_ipv6(s) {
        Some(g) => spec_format48(g[0], g[1], g[2]),
        None => spec_strip_port(s),
    }
}

/// The value of one hex digit, or -1.
pub fn hex_val(c: char) -> (r: i32)
    ensures
        r as int == spec_hex_val(c),
{
    let u = c as u32;
    if 48 <= u && u <= 57 {
        (u - 48) as i32
    } else if 97 <= u && u <= 102 {
        (u - 87) as i32
    } else if 65 <= u && u <= 70 {
        (u - 55) as i32
    } else {
        -1
    }
}

/// The first `:` at or after `from`, or the length.
#[verifier::loop_isolation(false)]
fn find_colon(cs: &Vec<char>, from: usize) -> (r: usize)
    requires
        from <= cs@.len(),
    ensures
        r == spec_find_colon(cs@, from as int),
        from <= r <= cs@.len(),
{
    let mut i: usize = from;
    while i < cs.len()
        invariant
            from <= i <= cs@.len(),
            spec_find_colon(cs@, from as int) == spec_find_colon(cs@, i as int),
        decreases cs@.len() - i,
    {
        if cs[i] == ':' {
            return i;
        }
        i = i + 1;
    }
    cs.len()
}

/// The spans of the colon tokens of `cs`: `spec_tokens`, as index pairs.
#[verifier::loop_isolation(false)]
fn tokenize(cs: &Vec<char>) -> (spans: Vec<(usize, usize)>)
    ensures
        spec_tokens(cs@, 0) == Seq::new(
            spans@.len(),
            |k: int| cs@.subrange(spans@[k].0 as int, spans@[k].1 as int),
        ),
        forall|k: int| #![trigger spans@[k]] 0 <= k < spans@.len() ==> spans@[k].0 <= spans@[k].1 <= cs@.len(),
{
    let mut spans: Vec<(usize, usize)> = Vec::new();
    let mut pos: usize = 0;
    loop
        invariant
            pos <= cs@.len(),
            forall|k: int| #![trigger spans@[k]] 0 <= k < spans@.len() ==> spans@[k].0 <= spans@[k].1 <= cs@.len(),
            spec_tokens(cs@, 0) == Seq::new(
                spans@.len(),
                |k: int| cs@.subrange(spans@[k].0 as int, spans@[k].1 as int),
            ) + spec_tokens(cs@, pos as int),
        decreases cs@.len() - pos + 1,
    {
        let ghost prev = Seq::new(
            spans@.len(),
            |k: int| cs@.subrange(spans@[k].0 as int, spans@[k].1 as int),
        );
        let j = find_colon(cs, pos);
        spans.push((pos, j));
        proof {
            assert(Seq::new(
                spans@.len(),
                |k: int| cs@.subrange(spans@[k].0 as int, spans@[k].1 as int),
            ) =~= prev.push(cs@.subrange(pos as int, j as int)));
        }
        if j == cs.len() {
            proof {
                assert(spec_tokens(cs@, pos as int) =~= seq![
                    cs@.subrange(pos as int, cs@.len() as int),
                ]);
                assert(spec_tokens(cs@, 0) =~= prev.push(
                    cs@.subrange(pos as int, j as int),
                ));
            }
            break;
        } else {
            proof {
                assert(spec_tokens(cs@, pos as int) =~= seq![
                    cs@.subrange(pos as int, j as int),
                ] + spec_tokens(cs@, j + 1 as int));
                assert(prev.push(cs@.subrange(pos as int, j as int)) + spec_tokens(
                    cs@,
                    j + 1 as int,
                ) =~= prev + spec_tokens(cs@, pos as int));
            }
            pos = j + 1;
        }
    }
    spans
}

/// The first span at or after `from` that is empty, or the span count.
#[verifier::loop_isolation(false)]
fn first_empty(cs: &Vec<char>, spans: &Vec<(usize, usize)>, from: usize) -> (r: usize)
    requires
        from <= spans@.len(),
        forall|k: int| #![trigger spans@[k]] 0 <= k < spans@.len() ==> spans@[k].0 <= spans@[k].1 <= cs@.len(),
        spec_tokens(cs@, 0) == Seq::new(
            spans@.len(),
            |k: int| cs@.subrange(spans@[k].0 as int, spans@[k].1 as int),
        ),
    ensures
        r == spec_first_empty(spec_tokens(cs@, 0), from as int),
        from <= r <= spans@.len(),
{
    let ghost toks = spec_tokens(cs@, 0);
    let mut i: usize = from;
    while i < spans.len()
        invariant
            from <= i <= spans@.len(),
            spec_first_empty(toks, from as int) == spec_first_empty(toks, i as int),
        decreases spans@.len() - i,
    {
        if spans[i].1 == spans[i].0 {
            proof {
                assert(toks[i as int].len() == 0);
            }
            return i;
        }
        proof {
            assert(toks[i as int].len() != 0);
        }
        i = i + 1;
    }
    spans.len()
}

/// Whether every token in `[a, b)` is a valid group, by checking each.
#[verifier::loop_isolation(false)]
fn all_groups_valid(cs: &Vec<char>, spans: &Vec<(usize, usize)>, a: usize, b: usize) -> (r: bool)
    requires
        a <= b <= spans@.len(),
        forall|k: int| #![trigger spans@[k]] 0 <= k < spans@.len() ==> spans@[k].0 <= spans@[k].1 <= cs@.len(),
        spec_tokens(cs@, 0) == Seq::new(
            spans@.len(),
            |k: int| cs@.subrange(spans@[k].0 as int, spans@[k].1 as int),
        ),
    ensures
        r == spec_all_groups_valid(spec_tokens(cs@, 0), a as int, b as int),
{
    let ghost toks = spec_tokens(cs@, 0);
    let mut i: usize = a;
    while i < b
        invariant
            a <= i <= b,
            spec_all_groups_valid(toks, a as int, i as int),
        decreases b - i,
    {
        if group_val(cs, spans[i].0, spans[i].1) < 0 {
            proof {
                assert(spec_group_val(toks[i as int]) < 0);
            }
            return false;
        }
        proof {
            assert(spec_group_val(toks[i as int]) >= 0);
        }
        i = i + 1;
    }
    true
}

/// One group of the `::` fill, as a number.
#[verifier::loop_isolation(false)]
fn fill_group_at(
    cs: &Vec<char>,
    spans: &Vec<(usize, usize)>,
    nleft: usize,
    rstart: usize,
    i: usize,
) -> (r: u16)
    requires
        i < 8,
        nleft <= spans@.len(),
        rstart <= spans@.len(),
        spans@.len() - rstart <= 8,
        forall|k: int| #![trigger spans@[k]] 0 <= k < spans@.len() ==> spans@[k].0 <= spans@[k].1 <= cs@.len(),
        spec_tokens(cs@, 0) == Seq::new(
            spans@.len(),
            |k: int| cs@.subrange(spans@[k].0 as int, spans@[k].1 as int),
        ),
        i < nleft ==> spec_group_val(spec_tokens(cs@, 0)[i as int]) >= 0,
        i >= nleft && i + (spans@.len() - rstart) >= 8 ==> spec_group_val(
            spec_tokens(cs@, 0)[i - (8 - (spans@.len() - rstart)) + rstart],
        ) >= 0,
    ensures
        r as int == spec_fill_groups(spec_tokens(cs@, 0), nleft as int, rstart as int)[i as int],
{
    let nright = spans.len() - rstart;
    if i < nleft {
        let v = group_val(cs, spans[i].0, spans[i].1);
        v as u16
    } else if i + nright >= 8 {
        let k = i - (8 - nright) + rstart;
        let v = group_val(cs, spans[k].0, spans[k].1);
        v as u16
    } else {
        0
    }
}

/// The first three group values of `s` when it reads as IPv6 — all the /48
/// key needs.
#[verifier::loop_isolation(false)]
pub fn parse_ipv6_prefix(cs: &Vec<char>) -> (r: Option<(u16, u16, u16)>)
    ensures
        match spec_parse_ipv6(cs@) {
            Some(g) => r is Some && (r->0).0 as int == g[0] && (r->0).1 as int == g[1] && (
            r->0).2 as int == g[2],
            None => r is None,
        },
{
    let ghost toks = spec_tokens(cs@, 0);
    let spans = tokenize(cs);
    let len = spans.len();
    let e1 = first_empty(cs, &spans, 0);
    if e1 == len {
        if len == 8 && all_groups_valid(cs, &spans, 0, 8) {
            let g0 = fill_group_at(cs, &spans, 8, 8, 0);
            let g1 = fill_group_at(cs, &spans, 8, 8, 1);
            let g2 = fill_group_at(cs, &spans, 8, 8, 2);
            Some((g0, g1, g2))
        } else {
            None
        }
    } else if e1 == 0 {
        if len >= 3 && spans[1].1 == spans[1].0 {
            proof {
                assert(toks[1].len() == 0);
            }
            if len == 3 && spans[2].1 == spans[2].0 {
                proof {
                    assert(toks[2].len() == 0);
                }
                let g0 = fill_group_at(cs, &spans, 0, 3, 0);
                let g1 = fill_group_at(cs, &spans, 0, 3, 1);
                let g2 = fill_group_at(cs, &spans, 0, 3, 2);
                Some((g0, g1, g2))
            } else {
                proof {
                    if len == 3 {
                        assert(toks[2].len() != 0);
                    }
                }
                if first_empty(cs, &spans, 2) == len && len - 2 <= 7 && all_groups_valid(
                    cs,
                    &spans,
                    2,
                    len,
                ) {
                    let g0 = fill_group_at(cs, &spans, 0, 2, 0);
                    let g1 = fill_group_at(cs, &spans, 0, 2, 1);
                    let g2 = fill_group_at(cs, &spans, 0, 2, 2);
                    Some((g0, g1, g2))
                } else {
                    None
                }
            }
        } else {
            proof {
                if len >= 3 {
                    assert(spans@[1].1 != spans@[1].0 ==> toks[1].len() != 0);
                }
            }
            None
        }
    } else if e1 == len - 2 && spans[len - 1].1 == spans[len - 1].0 {
        proof {
            assert(toks[len - 1 as int].len() == 0);
        }
        if len - 2 <= 7 && all_groups_valid(cs, &spans, 0, len - 2) {
            let g0 = fill_group_at(cs, &spans, len - 2, len, 0);
            let g1 = fill_group_at(cs, &spans, len - 2, len, 1);
            let g2 = fill_group_at(cs, &spans, len - 2, len, 2);
            Some((g0, g1, g2))
        } else {
            None
        }
    } else if e1 < len - 1 && first_empty(cs, &spans, e1 + 1) == len {
        proof {
            if e1 == len - 2 {
                assert(spans@[len - 1 as int].1 != spans@[len - 1 as int].0);
                assert(toks[len - 1 as int].len() != 0);
            }
        }
        if len - 1 <= 7 && all_groups_valid(cs, &spans, 0, e1) && all_groups_valid(
            cs,
            &spans,
            e1 + 1,
            len,
        ) {
            let g0 = fill_group_at(cs, &spans, e1, e1 + 1, 0);
            let g1 = fill_group_at(cs, &spans, e1, e1 + 1, 1);
            let g2 = fill_group_at(cs, &spans, e1, e1 + 1, 2);
            Some((g0, g1, g2))
        } else {
            None
        }
    } else {
        proof {
            if e1 == len - 2 {
                assert(spans@[len - 1 as int].1 != spans@[len - 1 as int].0);
                assert(toks[len - 1 as int].len() != 0);
            }
        }
        None
    }
}

/// Appends the lowercase hex rendering of `n`.
fn push_hex_str(out: &mut String, n: u16)
    ensures
        final(out)@ == old(out)@ + spec_hex_str(n as int),
    decreases n,
{
    let d = n % 16;
    let c = if d == 0 {
        '0'
    } else if d == 1 {
        '1'
    } else if d == 2 {
        '2'
    } else if d == 3 {
        '3'
    } else if d == 4 {
        '4'
    } else if d == 5 {
        '5'
    } else if d == 6 {
        '6'
    } else if d == 7 {
        '7'
    } else if d == 8 {
        '8'
    } else if d == 9 {
        '9'
    } else if d == 10 {
        'a'
    } else if d == 11 {
        'b'
    } else if d == 12 {
        'c'
    } else if d == 13 {
        'd'
    } else if d == 14 {
        'e'
    } else {
        'f'
    };
    if n < 16 {
        push_char(out, c);
        assert(out@ =~= old(out)@ + spec_hex_str(n as int));
    } else {
        push_hex_str(out, n / 16);
        push_char(out, c);
        assert(out@ =~= old(out)@ + spec_hex_str(n as int));
    }
}

/// The canonical /48-prefix key for these first three groups.
pub fn format48(g0: u16, g1: u16, g2: u16) -> (r: String)
    ensures
        r@ == spec_format48(g0 as int, g1 as int, g2 as int),
{
    let mut out = String::new();
    if g0 == 0 && g1 == 0 && g2 == 0 {
        push_char(&mut out, ':');
        push_char(&mut out, ':');
        proof {
            reveal_strlit("::");
            assert(out@ =~= "::"@);
        }
    } else if g1 == 0 && g2 == 0 {
        push_hex_str(&mut out, g0);
        push_char(&mut out, ':');
        push_char(&mut out, ':');
        proof {
            reveal_strlit("::");
            assert(out@ =~= spec_hex_str(g0 as int) + "::"@);
        }
    } else if g2 == 0 {
        push_hex_str(&mut out, g0);
        push_char(&mut out, ':');
        push_hex_str(&mut out, g1);
        push_char(&mut out, ':');
        push_char(&mut out, ':');
        proof {
            reveal_strlit("::");
            reveal_strlit(":");
            assert(out@ =~= spec_hex_str(g0 as int) + ":"@ + spec_hex_str(g1 as int) + "::"@);
        }
    } else {
        push_hex_str(&mut out, g0);
        push_char(&mut out, ':');
        push_hex_str(&mut out, g1);
        push_char(&mut out, ':');
        push_hex_str(&mut out, g2);
        push_char(&mut out, ':');
        push_char(&mut out, ':');
        proof {
            reveal_strlit("::");
            reveal_strlit(":");
            assert(out@ =~= spec_hex_str(g0 as int) + ":"@ + spec_hex_str(g1 as int) + ":"@
                + spec_hex_str(g2 as int) + "::"@);
        }
    }
    out
}

/// The address part of `host:port`: everything before the last colon, or
/// the whole string when it has no colon.
#[verifier::loop_isolation(false)]
pub fn strip_port(cs: &Vec<char>) -> (r: String)
    ensures
        r@ == spec_strip_port(cs@),
{
    let mut i: usize = cs.len();
    assert(cs@.take(cs@.len() as int) =~= cs@);
    while i > 0
        invariant
            i <= cs@.len(),
            spec_last_colon(cs@) == spec_last_colon(cs@.take(i as int)),
        decreases i,
    {
        proof {
            assert(cs@.take(i as int).last() == cs@[i - 1]);
            assert(cs@.take(i as int).drop_last() =~= cs@.take(i - 1));
        }
        if cs[i - 1] == ':' {
            proof {
                assert(spec_last_colon(cs@) == i - 1);
            }
            let r = crate::strutil::string_of_range(cs, 0, i - 1);
            assert(cs@.subrange(0, i - 1) =~= cs@.take(i - 1));
            return r;
        }
        i = i - 1;
    }
    proof {
        assert(cs@.take(0) =~= Seq::<char>::empty());
        assert(spec_last_colon(cs@) == -1);
    }
    let r = crate::strutil::string_of_range(cs, 0, cs.len());
    assert(cs@.subrange(0, cs@.len() as int) =~= cs@);
    r
}

/// The limiter's normalized address key.
pub fn normalize_ip(ip: &str) -> (r: String)
    ensures
        r@ == spec_normalize_ip(ip@),
{
    let cs = crate::strutil::chars_of(ip);
    match parse_ipv6_prefix(&cs) {
        Some((g0, g1, g2)) => format48(g0, g1, g2),
        None => strip_port(&cs),
    }
}

/// Law: any two addresses that read as IPv6 and share their first three
/// groups — the /48 prefix — normalize to the same limiter key.
pub proof fn lemma_shared_prefix_same_key(a: Seq<char>, b: Seq<char>)
    requires
        spec_parse_ipv6(a) is Some,
        spec_parse_ipv6(b) is Some,
        spec_parse_ipv6(a)->0[0] == spec_parse_ipv6(b)->0[0],
        spec_parse_ipv6(a)->0[1] == spec_parse_ipv6(b)->0[1],
        spec_parse_ipv6(a)->0[2] == spec_parse_ipv6(b)->0[2],
    ensures
        spec_normalize_ip(a) == spec_normalize_ip(b),
{
}

/// The value of one address group token, or -1.
#[verifier::loop_isolation(false)]
pub fn group_val(cs: &Vec<char>, from: usize, to: usize) -> (r: i32)
    requires
        from <= to <= cs@.len(),
    ensures
        r as int == spec_group_val(cs@.subrange(from as int, to as int)),
        r < 0x10000,
{
    let ghost tok = cs@.subrange(from as int, to as int);
    proof {
        if tok.len() <= 4 {
            lemma_hex_seq_val_bound(tok);
        }
    }
    if to - from < 1 || to - from > 4 {
        return -1;
    }
    let mut acc: i32 = 0;
    let mut i: usize = from;
    while i < to
        invariant
            from <= i <= to,
            acc as int == spec_hex_seq_val(tok.take(i - from as int)),
            acc < 0x10000,
        decreases to - i,
    {
        proof {
            lemma_hex_seq_val_bound(tok.take(i + 1 - from as int));
            assert(tok.take(i + 1 - from as int).drop_last() =~= tok.take(i - from as int));
            assert(tok.take(i + 1 - from as int).last() == cs@[i as int]);
        }
        let h = hex_val(cs[i]);
        if h < 0 || acc < 0 {
            acc = -1;
        } else {
            acc = acc * 16 + h;
        }
        i = i + 1;
    }
    assert(tok.take(to - from as int) =~= tok);
    acc
}

} // verus!
