//! Reading a persisted document back: `parse_graph` gives the accepted
//! grammar its meaning, and `decode_graph` is the executable reader, proved
//! to return exactly what `parse_graph` denotes.
//!
//! The grammar is the JSON object of `codec::render_graph`, read tolerantly:
//! any inter-token whitespace, any member order, and a missing `nodes` or
//! `edges` member defaults to empty. Objects with members outside the schema,
//! duplicate members, duplicate node keys, numbers outside `u64`, and escaped
//! surrogate code points are rejected.

use vstd::prelude::*;

use crate::codec::{
    chars_to_string, collect_chars, digit_val, hex_val_opt, is_digit, is_ws, scalar_char,
    valid_scalar,
};
use crate::graph::{
    edges_view_of, keys_unique, nodes_view_of, Edge, EdgeView, Graph, GraphView, Node, NodeView,
};

verus! {

// ---------------------------------------------------------------------------
// The accepted grammar (specification)
// ---------------------------------------------------------------------------

/// The first position at or after `i` holding no whitespace.
pub open spec fn skip_ws(s: Seq<char>, i: int) -> int
    decreases s.len() - i,
{
    if 0 <= i < s.len() && is_ws(s[i]) {
        skip_ws(s, i + 1)
    } else {
        i
    }
}

/// Consumes decimal digits into `acc`; fails when the value leaves `u64`.
pub open spec fn parse_digits(s: Seq<char>, i: int, acc: u64) -> Option<(u64, int)>
    decreases s.len() - i,
{
    if 0 <= i < s.len() && is_digit(s[i]) {
        if acc * 10 + digit_val(s[i]) > u64::MAX {
            None
        } else {
            parse_digits(s, i + 1, (acc * 10 + digit_val(s[i])) as u64)
        }
    } else {
        Some((acc, i))
    }
}

/// A JSON number restricted to `u64`: either `0`, or a nonzero digit run.
pub open spec fn parse_u64_at(s: Seq<char>, i: int) -> Option<(u64, int)> {
    if 0 <= i < s.len() && is_digit(s[i]) {
        if s[i] == '0' {
            Some((0, i + 1))
        } else {
            parse_digits(s, i, 0)
        }
    } else {
        None
    }
}

/// Four hexadecimal digits.
pub open spec fn parse_hex4(s: Seq<char>, i: int) -> Option<u32> {
    if 0 <= i && i + 4 <= s.len() {
        match (hex_val_opt(s[i]), hex_val_opt(s[i + 1]), hex_val_opt(s[i + 2]), hex_val_opt(
            s[i + 3],
        )) {
            (Some(h0), Some(h1), Some(h2), Some(h3)) => Some(
                (h0 * 4096 + h1 * 256 + h2 * 16 + h3) as u32,
            ),
            _ => None,
        }
    } else {
        None
    }
}

/// Prepends a character to a string-body result.
pub open spec fn cons_str(c: char, r: Option<(Seq<char>, int)>) -> Option<(Seq<char>, int)> {
    match r {
        Some((t, j)) => Some((seq![c] + t, j)),
        None => None,
    }
}

/// The body of a string literal, read from just after the opening quote up
/// to and past the closing quote. Unescaped control characters are rejected;
/// the escapes are the closing quote, backslash, solidus, the five short
/// forms, and `u` followed by the four-digit code of a scalar value.
pub open spec fn parse_str_body(s: Seq<char>, i: int) -> Option<(Seq<char>, int)>
    decreases s.len() - i,
{
    if !(0 <= i < s.len()) {
        None
    } else if s[i] == '"' {
        Some((Seq::empty(), i + 1))
    } else if s[i] == '\\' {
        if i + 1 < s.len() {
            let e = s[i + 1];
            if e == '"' { cons_str('"', parse_str_body(s, i + 2)) }
            else if e == '\\' { cons_str('\\', parse_str_body(s, i + 2)) }
            else if e == '/' { cons_str('/', parse_str_body(s, i + 2)) }
            else if e == 'b' { cons_str('\u{8}', parse_str_body(s, i + 2)) }
            else if e == 'f' { cons_str('\u{c}', parse_str_body(s, i + 2)) }
            else if e == 'n' { cons_str('\n', parse_str_body(s, i + 2)) }
            else if e == 'r' { cons_str('\r', parse_str_body(s, i + 2)) }
            else if e == 't' { cons_str('\t', parse_str_body(s, i + 2)) }
            else if e == 'u' {
                match parse_hex4(s, i + 2) {
                    Some(v) => if valid_scalar(v) {
                        cons_str(scalar_char(v), parse_str_body(s, i + 6))
                    } else {
                        None
                    },
                    None => None,
                }
            } else { None }
        } else {
            None
        }
    } else if (s[i] as u32) < 0x20 {
        None
    } else {
        cons_str(s[i], parse_str_body(s, i + 1))
    }
}

/// A whole string literal.
pub open spec fn parse_string(s: Seq<char>, i: int) -> Option<(Seq<char>, int)> {
    if 0 <= i < s.len() && s[i] == '"' {
        parse_str_body(s, i + 1)
    } else {
        None
    }
}

/// A node key: the decimal digits of a `u64`, with no leading zero.
pub open spec fn key_to_u64(ks: Seq<char>) -> Option<u64> {
    if ks.len() == 0 {
        None
    } else if ks[0] == '0' {
        if ks.len() == 1 { Some(0) } else { None }
    } else {
        match parse_digits(ks, 0, 0) {
            Some((v, j)) => if j == ks.len() { Some(v) } else { None },
            None => None,
        }
    }
}

/// One member of a node object: `"id"` with a number, or `"name"` with a
/// string; exactly one side of the result is set.
pub open spec fn parse_node_field(s: Seq<char>, i: int) -> Option<
    (Option<u64>, Option<Seq<char>>, int),
> {
    match parse_string(s, i) {
        Some((key, j)) => {
            let j2 = skip_ws(s, j);
            if 0 <= j2 < s.len() && s[j2] == ':' {
                let j3 = skip_ws(s, j2 + 1);
                if key == seq!['i', 'd'] {
                    match parse_u64_at(s, j3) {
                        Some((v, j4)) => Some((Some(v), None, j4)),
                        None => None,
                    }
                } else if key == seq!['n', 'a', 'm', 'e'] {
                    match parse_string(s, j3) {
                        Some((t, j4)) => Some((None, Some(t), j4)),
                        None => None,
                    }
                } else {
                    None
                }
            } else {
                None
            }
        },
        None => None,
    }
}

/// A node object: both members, in either order, each exactly once.
pub open spec fn parse_node_obj(s: Seq<char>, i: int) -> Option<(NodeView, int)> {
    if 0 <= i < s.len() && s[i] == '{' {
        match parse_node_field(s, skip_ws(s, i + 1)) {
            Some((id1, name1, j1)) => {
                let j2 = skip_ws(s, j1);
                if 0 <= j2 < s.len() && s[j2] == ',' {
                    match parse_node_field(s, skip_ws(s, j2 + 1)) {
                        Some((id2, name2, j4)) => {
                            let j5 = skip_ws(s, j4);
                            if 0 <= j5 < s.len() && s[j5] == '}' {
                                match ((id1, name1), (id2, name2)) {
                                    ((Some(id), None), (None, Some(name))) => Some(
                                        ((NodeView { id, name }), j5 + 1),
                                    ),
                                    ((None, Some(name)), (Some(id), None)) => Some(
                                        ((NodeView { id, name }), j5 + 1),
                                    ),
                                    _ => None,
                                }
                            } else {
                                None
                            }
                        },
                        None => None,
                    }
                } else {
                    None
                }
            },
            None => None,
        }
    } else {
        None
    }
}

/// One member of the `nodes` object: a quoted key and a node object.
pub open spec fn parse_node_entry(s: Seq<char>, i: int) -> Option<((u64, NodeView), int)> {
    match parse_string(s, i) {
        Some((ks, j)) => match key_to_u64(ks) {
            Some(k) => {
                let j2 = skip_ws(s, j);
                if 0 <= j2 < s.len() && s[j2] == ':' {
                    match parse_node_obj(s, skip_ws(s, j2 + 1)) {
                        Some((nv, j3)) => Some(((k, nv), j3)),
                        None => None,
                    }
                } else {
                    None
                }
            },
            None => None,
        },
        None => None,
    }
}

/// The members of a non-empty `nodes` object, up to and past its closing
/// brace. `fuel` only bounds the recursion; any amount beyond the remaining
/// length gives the same answer.
pub open spec fn parse_node_entries(s: Seq<char>, i: int, fuel: nat) -> Option<
    (Seq<(u64, NodeView)>, int),
>
    decreases fuel,
{
    if fuel == 0 {
        None
    } else {
        match parse_node_entry(s, i) {
            Some((kv, j)) => {
                let j2 = skip_ws(s, j);
                if 0 <= j2 < s.len() && s[j2] == ',' {
                    match parse_node_entries(s, skip_ws(s, j2 + 1), (fuel - 1) as nat) {
                        Some((rest, j3)) => Some((seq![kv] + rest, j3)),
                        None => None,
                    }
                } else if 0 <= j2 < s.len() && s[j2] == '}' {
                    Some((seq![kv], j2 + 1))
                } else {
                    None
                }
            },
            None => None,
        }
    }
}

/// The value of the `nodes` member: an object of node entries.
pub open spec fn parse_nodes_value(s: Seq<char>, i: int, fuel: nat) -> Option<
    (Seq<(u64, NodeView)>, int),
> {
    if 0 <= i < s.len() && s[i] == '{' {
        let j = skip_ws(s, i + 1);
        if 0 <= j < s.len() && s[j] == '}' {
            Some((Seq::empty(), j + 1))
        } else {
            parse_node_entries(s, j, fuel)
        }
    } else {
        None
    }
}

/// One member of an edge object: `"from"` or `"to"` with a number, or
/// `"kind"` with a string; exactly one part of the result is set.
pub open spec fn parse_edge_field(s: Seq<char>, i: int) -> Option<
    (Option<u64>, Option<u64>, Option<Seq<char>>, int),
> {
    match parse_string(s, i) {
        Some((key, j)) => {
            let j2 = skip_ws(s, j);
            if 0 <= j2 < s.len() && s[j2] == ':' {
                let j3 = skip_ws(s, j2 + 1);
                if key == seq!['f', 'r', 'o', 'm'] {
                    match parse_u64_at(s, j3) {
                        Some((v, j4)) => Some((Some(v), None, None, j4)),
                        None => None,
                    }
                } else if key == seq!['t', 'o'] {
                    match parse_u64_at(s, j3) {
                        Some((v, j4)) => Some((None, Some(v), None, j4)),
                        None => None,
                    }
                } else if key == seq!['k', 'i', 'n', 'd'] {
                    match parse_string(s, j3) {
                        Some((t, j4)) => Some((None, None, Some(t), j4)),
                        None => None,
                    }
                } else {
                    None
                }
            } else {
                None
            }
        },
        None => None,
    }
}

/// The three members of an edge object in some order, each exactly once.
pub open spec fn merge_edge_fields(
    f1: (Option<u64>, Option<u64>, Option<Seq<char>>),
    f2: (Option<u64>, Option<u64>, Option<Seq<char>>),
    f3: (Option<u64>, Option<u64>, Option<Seq<char>>),
) -> Option<EdgeView> {
    match (f1, f2, f3) {
        ((Some(from), None, None), (None, Some(to), None), (None, None, Some(kind))) => Some(
            (EdgeView { from, to, kind }),
        ),
        ((Some(from), None, None), (None, None, Some(kind)), (None, Some(to), None)) => Some(
            (EdgeView { from, to, kind }),
        ),
        ((None, Some(to), None), (Some(from), None, None), (None, None, Some(kind))) => Some(
            (EdgeView { from, to, kind }),
        ),
        ((None, Some(to), None), (None, None, Some(kind)), (Some(from), None, None)) => Some(
            (EdgeView { from, to, kind }),
        ),
        ((None, None, Some(kind)), (Some(from), None, None), (None, Some(to), None)) => Some(
            (EdgeView { from, to, kind }),
        ),
        ((None, None, Some(kind)), (None, Some(to), None), (Some(from), None, None)) => Some(
            (EdgeView { from, to, kind }),
        ),
        _ => None,
    }
}

/// An edge object: three members separated by commas, then the closing brace.
pub open spec fn parse_edge_obj(s: Seq<char>, i: int) -> Option<(EdgeView, int)> {
    if 0 <= i < s.len() && s[i] == '{' {
        match parse_edge_field(s, skip_ws(s, i + 1)) {
            Some((a1, b1, c1, j1)) => {
                let j2 = skip_ws(s, j1);
                if 0 <= j2 < s.len() && s[j2] == ',' {
                    match parse_edge_field(s, skip_ws(s, j2 + 1)) {
                        Some((a2, b2, c2, j3)) => {
                            let j4 = skip_ws(s, j3);
                            if 0 <= j4 < s.len() && s[j4] == ',' {
                                match parse_edge_field(s, skip_ws(s, j4 + 1)) {
                                    Some((a3, b3, c3, j5)) => {
                                        let j6 = skip_ws(s, j5);
                                        if 0 <= j6 < s.len() && s[j6] == '}' {
                                            match merge_edge_fields(
                                                (a1, b1, c1),
                                                (a2, b2, c2),
                                                (a3, b3, c3),
                                            ) {
                                                Some(ev) => Some((ev, j6 + 1)),
                                                None => None,
                                            }
                                        } else {
                                            None
                                        }
                                    },
                                    None => None,
                                }
                            } else {
                                None
                            }
                        },
                        None => None,
                    }
                } else {
                    None
                }
            },
            None => None,
        }
    } else {
        None
    }
}

/// The elements of a non-empty `edges` array, up to and past its closing
/// bracket.
pub open spec fn parse_edge_elems(s: Seq<char>, i: int, fuel: nat) -> Option<(Seq<EdgeView>, int)>
    decreases fuel,
{
    if fuel == 0 {
        None
    } else {
        match parse_edge_obj(s, i) {
            Some((ev, j)) => {
                let j2 = skip_ws(s, j);
                if 0 <= j2 < s.len() && s[j2] == ',' {
                    match parse_edge_elems(s, skip_ws(s, j2 + 1), (fuel - 1) as nat) {
                        Some((rest, j3)) => Some((seq![ev] + rest, j3)),
                        None => None,
                    }
                } else if 0 <= j2 < s.len() && s[j2] == ']' {
                    Some((seq![ev], j2 + 1))
                } else {
                    None
                }
            },
            None => None,
        }
    }
}

/// The value of the `edges` member: an array of edge objects.
pub open spec fn parse_edges_value(s: Seq<char>, i: int, fuel: nat) -> Option<
    (Seq<EdgeView>, int),
> {
    if 0 <= i < s.len() && s[i] == '[' {
        let j = skip_ws(s, i + 1);
        if 0 <= j < s.len() && s[j] == ']' {
            Some((Seq::empty(), j + 1))
        } else {
            parse_edge_elems(s, j, fuel)
        }
    } else {
        None
    }
}

/// One member of the top-level object: `"nodes"` or `"edges"` with its
/// value; exactly one side of the result is set.
pub open spec fn parse_top_member(s: Seq<char>, i: int, fuel: nat) -> Option<
    (Option<Seq<(u64, NodeView)>>, Option<Seq<EdgeView>>, int),
> {
    match parse_string(s, i) {
        Some((key, j)) => {
            let j2 = skip_ws(s, j);
            if 0 <= j2 < s.len() && s[j2] == ':' {
                let j3 = skip_ws(s, j2 + 1);
                if key == seq!['n', 'o', 'd', 'e', 's'] {
                    match parse_nodes_value(s, j3, fuel) {
                        Some((ns, j4)) => Some((Some(ns), None, j4)),
                        None => None,
                    }
                } else if key == seq!['e', 'd', 'g', 'e', 's'] {
                    match parse_edges_value(s, j3, fuel) {
                        Some((es, j4)) => Some((None, Some(es), j4)),
                        None => None,
                    }
                } else {
                    None
                }
            } else {
                None
            }
        },
        None => None,
    }
}

/// The members of a non-empty top-level object, up to and past its closing
/// brace; each known member at most once.
pub open spec fn parse_top_members(s: Seq<char>, i: int, fuel: nat) -> Option<
    (Option<Seq<(u64, NodeView)>>, Option<Seq<EdgeView>>, int),
>
    decreases fuel,
{
    if fuel == 0 {
        None
    } else {
        match parse_top_member(s, i, fuel) {
            Some((ns1, es1, j)) => {
                let j2 = skip_ws(s, j);
                if 0 <= j2 < s.len() && s[j2] == ',' {
                    match parse_top_members(s, skip_ws(s, j2 + 1), (fuel - 1) as nat) {
                        Some((ns2, es2, j3)) => match ((ns1, es1), (ns2, es2)) {
                            ((Some(ns), None), (None, Some(es))) => Some(
                                (Some(ns), Some(es), j3),
                            ),
                            ((Some(ns), None), (None, None)) => Some((Some(ns), None, j3)),
                            ((None, Some(es)), (Some(ns), None)) => Some(
                                (Some(ns), Some(es), j3),
                            ),
                            ((None, Some(es)), (None, None)) => Some((None, Some(es), j3)),
                            _ => None,
                        },
                        None => None,
                    }
                } else if 0 <= j2 < s.len() && s[j2] == '}' {
                    Some((ns1, es1, j2 + 1))
                } else {
                    None
                }
            },
            None => None,
        }
    }
}

/// The graph a whole document denotes, if it is accepted: a top-level JSON
/// object whose `nodes` and `edges` members (each optional, defaulting to
/// empty) hold the node mapping and the edge sequence, followed by nothing
/// but whitespace; the node keys must be distinct.
pub open spec fn parse_graph(s: Seq<char>) -> Option<GraphView> {
    let i = skip_ws(s, 0);
    if 0 <= i < s.len() && s[i] == '{' {
        let j = skip_ws(s, i + 1);
        let body = if 0 <= j < s.len() && s[j] == '}' {
            Some((None::<Seq<(u64, NodeView)>>, None::<Seq<EdgeView>>, j + 1))
        } else {
            parse_top_members(s, j, (s.len() + 1) as nat)
        };
        match body {
            Some((ns, es, k)) => {
                if skip_ws(s, k) == s.len() {
                    let nodes = match ns {
                        Some(n) => n,
                        None => Seq::empty(),
                    };
                    let edges = match es {
                        Some(e) => e,
                        None => Seq::empty(),
                    };
                    if keys_unique(nodes) {
                        Some((GraphView { nodes, edges }))
                    } else {
                        None
                    }
                } else {
                    None
                }
            },
            None => None,
        }
    } else {
        None
    }
}

// ---------------------------------------------------------------------------
// The executable reader
// ---------------------------------------------------------------------------

/// Relies on `char::from_u32`: `Some` exactly for Unicode scalar values (no
/// surrogate, at most 0x10FFFF), and the returned character has the given
/// scalar value.
#[verifier::external_body]
fn char_from_u32(v: u32) -> (r: Option<char>)
    ensures
        r matches Some(c) ==> c as u32 == v,
        r is Some <==> valid_scalar(v),
{
    char::from_u32(v)
}

/// Two characters with one scalar value are one character.
pub(crate) proof fn lemma_scalar_char_of(ch: char, v: u32)
    requires
        ch as u32 == v,
    ensures
        scalar_char(v) == ch,
{
    let c2 = choose|c: char| (#[trigger] (c as u32)) == v;
    assert(c2 as u32 == v);
    vstd::utf8::char_u32_cast(ch, v);
    vstd::utf8::char_u32_cast(c2, v);
}

fn is_ws_x(c: char) -> (b: bool)
    ensures
        b == is_ws(c),
{
    c == ' ' || c == '\t' || c == '\n' || c == '\r'
}

fn is_digit_x(c: char) -> (b: bool)
    ensures
        b == is_digit(c),
{
    c == '0' || c == '1' || c == '2' || c == '3' || c == '4' || c == '5' || c == '6' || c == '7'
        || c == '8' || c == '9'
}

fn digit_value_x(c: char) -> (d: u64)
    requires
        is_digit(c),
    ensures
        d == digit_val(c),
{
    match c {
        '0' => 0, '1' => 1, '2' => 2, '3' => 3, '4' => 4,
        '5' => 5, '6' => 6, '7' => 7, '8' => 8, _ => 9,
    }
}

fn hex_value_x(c: char) -> (r: Option<u32>)
    ensures
        match r {
            Some(v) => hex_val_opt(c) == Some(v as nat),
            None => hex_val_opt(c) is None,
        },
{
    if is_digit_x(c) {
        Some(digit_value_x(c) as u32)
    } else {
        match c {
            'a' | 'A' => Some(10),
            'b' | 'B' => Some(11),
            'c' | 'C' => Some(12),
            'd' | 'D' => Some(13),
            'e' | 'E' => Some(14),
            'f' | 'F' => Some(15),
            _ => None,
        }
    }
}

fn px_skip_ws(s: &Vec<char>, i: usize) -> (j: usize)
    requires
        i <= s@.len(),
    ensures
        j == skip_ws(s@, i as int),
        i <= j <= s@.len(),
{
    let mut p = i;
    while p < s.len() && is_ws_x(s[p])
        invariant
            i <= p <= s@.len(),
            skip_ws(s@, i as int) == skip_ws(s@, p as int),
        decreases s@.len() - p,
    {
        p += 1;
    }
    p
}

/// Whether the parsed characters are exactly the given keyword.
fn chars_is(v: &Vec<char>, lit: &[char]) -> (b: bool)
    ensures
        b == (v@ == lit@),
{
    if v.len() != lit.len() {
        return false;
    }
    let mut i: usize = 0;
    while i < v.len()
        invariant
            i <= v@.len(),
            v@.len() == lit@.len(),
            forall|k: int| 0 <= k < i ==> v@[k] == lit@[k],
        decreases v@.len() - i,
    {
        if v[i] != lit[i] {
            return false;
        }
        i += 1;
    }
    assert(v@ =~= lit@);
    true
}

/// The executable digit run; exactly `parse_digits`.
fn px_digits(s: &Vec<char>, i: usize, acc0: u64) -> (r: Option<(u64, usize)>)
    requires
        i <= s@.len(),
    ensures
        match r {
            Some((v, j)) => parse_digits(s@, i as int, acc0) == Some((v, j as int)) && i <= j
                <= s@.len(),
            None => parse_digits(s@, i as int, acc0) is None,
        },
{
    let mut p = i;
    let mut acc = acc0;
    while p < s.len() && is_digit_x(s[p])
        invariant
            i <= p <= s@.len(),
            parse_digits(s@, i as int, acc0) == parse_digits(s@, p as int, acc),
        decreases s@.len() - p,
    {
        let d = digit_value_x(s[p]);
        if acc > (u64::MAX - d) / 10 {
            proof {
                vstd::arithmetic::div_mod::lemma_fundamental_div_mod(
                    (u64::MAX - d) as int,
                    10,
                );
                assert(acc * 10 + d > u64::MAX) by (nonlinear_arith)
                    requires
                        acc > (u64::MAX - d) / 10,
                        (u64::MAX - d) as int == 10 * ((u64::MAX - d) as int / 10) + (
                        u64::MAX - d) as int % 10,
                        0 <= (u64::MAX - d) as int % 10 < 10,
                ;
            }
            return None;
        }
        proof {
            vstd::arithmetic::div_mod::lemma_fundamental_div_mod((u64::MAX - d) as int, 10);
            assert(acc * 10 + d <= u64::MAX) by (nonlinear_arith)
                requires
                    d < 10,
                    acc <= (u64::MAX - d) / 10,
                    (u64::MAX - d) as int == 10 * ((u64::MAX - d) as int / 10) + (u64::MAX
                        - d) as int % 10,
                    0 <= (u64::MAX - d) as int % 10 < 10,
            ;
        }
        acc = acc * 10 + d;
        p += 1;
    }
    Some((acc, p))
}

/// A digit run never moves backwards and stays inside the text.
proof fn lemma_parse_digits_bounds(s: Seq<char>, i: int, acc: u64)
    requires
        0 <= i <= s.len(),
    ensures
        parse_digits(s, i, acc) matches Some(p) ==> i <= p.1 <= s.len(),
    decreases s.len() - i,
{
    if 0 <= i < s.len() && is_digit(s[i]) && !(acc * 10 + digit_val(s[i]) > u64::MAX) {
        lemma_parse_digits_bounds(s, i + 1, (acc * 10 + digit_val(s[i])) as u64);
    }
}

/// The executable number; exactly `parse_u64_at`.
fn px_u64(s: &Vec<char>, i: usize) -> (r: Option<(u64, usize)>)
    requires
        i <= s@.len(),
    ensures
        match r {
            Some((v, j)) => parse_u64_at(s@, i as int) == Some((v, j as int)) && i < j
                <= s@.len(),
            None => parse_u64_at(s@, i as int) is None,
        },
{
    if i < s.len() && is_digit_x(s[i]) {
        if s[i] == '0' {
            Some((0, i + 1))
        } else {
            match px_digits(s, i, 0) {
                Some((v, j)) => {
                    proof {
                        assert(parse_digits(s@, i as int, 0) == parse_digits(
                            s@,
                            i as int + 1,
                            (0 * 10 + digit_val(s@[i as int])) as u64,
                        ));
                        lemma_parse_digits_bounds(
                            s@,
                            i as int + 1,
                            (0 * 10 + digit_val(s@[i as int])) as u64,
                        );
                    }
                    Some((v, j))
                },
                None => None,
            }
        }
    } else {
        None
    }
}

/// Relates a loop's progress through a string body to the whole body.
spec fn body_step(s: Seq<char>, start: int, acc: Seq<char>, p: int) -> bool {
    parse_str_body(s, start) == (match parse_str_body(s, p) {
        Some((t, j)) => Some((acc + t, j)),
        None => None::<(Seq<char>, int)>,
    })
}

proof fn lemma_body_step(s: Seq<char>, start: int, acc: Seq<char>, p: int, ch: char, q: int)
    requires
        body_step(s, start, acc, p),
        parse_str_body(s, p) == cons_str(ch, parse_str_body(s, q)),
    ensures
        body_step(s, start, acc.push(ch), q),
{
    match parse_str_body(s, q) {
        Some((t, j)) => {
            assert(acc + (seq![ch] + t) =~= acc.push(ch) + t);
        },
        None => {},
    }
}

/// The executable string literal; exactly `parse_string`.
fn px_string(s: &Vec<char>, i: usize) -> (r: Option<(Vec<char>, usize)>)
    requires
        i <= s@.len(),
    ensures
        match r {
            Some(p) => parse_string(s@, i as int) == Some((p.0@, p.1 as int)) && i < p.1
                <= s@.len(),
            None => parse_string(s@, i as int) is None,
        },
{
    if !(i < s.len() && s[i] == '"') {
        return None;
    }
    let mut acc: Vec<char> = Vec::new();
    let mut p: usize = i + 1;
    assert(body_step(s@, i as int + 1, acc@, p as int));
    loop
        invariant
            i as int + 1 <= p as int <= s@.len(),
            body_step(s@, i as int + 1, acc@, p as int),
            i < s@.len(),
            s@[i as int] == '"',
        decreases s@.len() - p,
    {
        if p >= s.len() {
            return None;
        }
        let c = s[p];
        if c == '"' {
            assert(parse_str_body(s@, p as int) == Some((Seq::<char>::empty(), p as int + 1)));
            assert(acc@ + Seq::<char>::empty() =~= acc@);
            return Some((acc, p + 1));
        }
        if c == '\\' {
            if p + 1 >= s.len() {
                return None;
            }
            let e = s[p + 1];
            let ghost p0 = p as int;
            let ghost a0 = acc@;
            if e == '"' {
                acc.push('"');
                proof { lemma_body_step(s@, i as int + 1, a0, p0, '"', p0 + 2); assert(acc@ == a0.push('"')); }
                p += 2;
            } else if e == '\\' {
                acc.push('\\');
                proof { lemma_body_step(s@, i as int + 1, a0, p0, '\\', p0 + 2); assert(acc@ == a0.push('\\')); }
                p += 2;
            } else if e == '/' {
                acc.push('/');
                proof { lemma_body_step(s@, i as int + 1, a0, p0, '/', p0 + 2); assert(acc@ == a0.push('/')); }
                p += 2;
            } else if e == 'b' {
                acc.push('\u{8}');
                proof { lemma_body_step(s@, i as int + 1, a0, p0, '\u{8}', p0 + 2); assert(acc@ == a0.push('\u{8}')); }
                p += 2;
            } else if e == 'f' {
                acc.push('\u{c}');
                proof { lemma_body_step(s@, i as int + 1, a0, p0, '\u{c}', p0 + 2); assert(acc@ == a0.push('\u{c}')); }
                p += 2;
            } else if e == 'n' {
                acc.push('\n');
                proof { lemma_body_step(s@, i as int + 1, a0, p0, '\n', p0 + 2); assert(acc@ == a0.push('\n')); }
                p += 2;
            } else if e == 'r' {
                acc.push('\r');
                proof { lemma_body_step(s@, i as int + 1, a0, p0, '\r', p0 + 2); assert(acc@ == a0.push('\r')); }
                p += 2;
            } else if e == 't' {
                acc.push('\t');
                proof { lemma_body_step(s@, i as int + 1, a0, p0, '\t', p0 + 2); assert(acc@ == a0.push('\t')); }
                p += 2;
            } else if e == 'u' {
                match px_hex4(s, p + 2) {
                    Some(v) => {
                        if v < 0xD800 || v >= 0xE000 {
                            match char_from_u32(v) {
                                Some(ch) => {
                                    proof { lemma_scalar_char_of(ch, v); }
                                    acc.push(ch);
                                    proof {
                                        lemma_body_step(s@, i as int + 1, a0, p0, ch, p0 + 6);
                                        assert(acc@ == a0.push(ch));
                                    }
                                    p += 6;
                                },
                                None => {
                                    proof {
                                        assert(valid_scalar(v));
                                        assert(false);
                                    }
                                    return None;
                                },
                            }
                        } else {
                            return None;
                        }
                    },
                    None => {
                        return None;
                    },
                }
            } else {
                return None;
            }
        } else if (c as u32) < 0x20 {
            return None;
        } else {
            let ghost p0 = p as int;
            let ghost a0 = acc@;
            acc.push(c);
            proof { lemma_body_step(s@, i as int + 1, a0, p0, c, p0 + 1); assert(acc@ == a0.push(c)); }
            p += 1;
        }
    }
}

/// The executable four hexadecimal digits; exactly `parse_hex4`.
fn px_hex4(s: &Vec<char>, i: usize) -> (r: Option<u32>)
    requires
        i <= s@.len(),
    ensures
        match r {
            Some(v) => parse_hex4(s@, i as int) == Some(v),
            None => parse_hex4(s@, i as int) is None,
        },
{
    if s.len() - i < 4 {
        return None;
    }
    let h0 = hex_value_x(s[i]);
    let h1 = hex_value_x(s[i + 1]);
    let h2 = hex_value_x(s[i + 2]);
    let h3 = hex_value_x(s[i + 3]);
    match (h0, h1, h2, h3) {
        (Some(a), Some(b), Some(c), Some(d)) => Some(a * 4096 + b * 256 + c * 16 + d),
        _ => None,
    }
}

/// The executable node key; exactly `key_to_u64`.
fn px_key_u64(ks: &Vec<char>) -> (r: Option<u64>)
    ensures
        match r {
            Some(v) => key_to_u64(ks@) == Some(v),
            None => key_to_u64(ks@) is None,
        },
{
    if ks.len() == 0 {
        return None;
    }
    if ks[0] == '0' {
        if ks.len() == 1 {
            return Some(0);
        }
        return None;
    }
    match px_digits(ks, 0, 0) {
        Some((v, j)) => if j == ks.len() {
            Some(v)
        } else {
            None
        },
        None => None,
    }
}

/// The image of an optional text.
pub open spec fn opt_str_view(o: Option<String>) -> Option<Seq<char>> {
    match o {
        Some(t) => Some(t@),
        None => None,
    }
}

/// The image of a node-field result.
pub open spec fn node_field_res(r: Option<(Option<u64>, Option<String>, usize)>) -> Option<
    (Option<u64>, Option<Seq<char>>, int),
> {
    match r {
        Some((ido, nmo, j)) => Some((ido, opt_str_view(nmo), j as int)),
        None => None,
    }
}

/// The executable node-object member; exactly `parse_node_field`.
fn px_node_field(s: &Vec<char>, i: usize) -> (r: Option<(Option<u64>, Option<String>, usize)>)
    requires
        i <= s@.len(),
    ensures
        parse_node_field(s@, i as int) == node_field_res(r),
        r matches Some(p) ==> i < p.2 <= s@.len(),
{
    match px_string(s, i) {
        Some((key, j)) => {
            let j2 = px_skip_ws(s, j);
            if j2 < s.len() && s[j2] == ':' {
                let j3 = px_skip_ws(s, j2 + 1);
                if chars_is(&key, &['i', 'd']) {
                    assert(key@ == seq!['i', 'd']);
                    match px_u64(s, j3) {
                        Some((v, j4)) => Some((Some(v), None, j4)),
                        None => None,
                    }
                } else if chars_is(&key, &['n', 'a', 'm', 'e']) {
                    assert(key@ == seq!['n', 'a', 'm', 'e']);
                    match px_string(s, j3) {
                        Some((t, j4)) => Some((None, Some(chars_to_string(t)), j4)),
                        None => None,
                    }
                } else {
                    assert(key@ != seq!['i', 'd'] && key@ != seq!['n', 'a', 'm', 'e']);
                    None
                }
            } else {
                None
            }
        },
        None => None,
    }
}

/// The image of a node-object result.
pub open spec fn node_obj_res(r: Option<(Node, usize)>) -> Option<(NodeView, int)> {
    match r {
        Some((n, j)) => Some((n@, j as int)),
        None => None,
    }
}

/// The executable node object; exactly `parse_node_obj`.
fn px_node_obj(s: &Vec<char>, i: usize) -> (r: Option<(Node, usize)>)
    requires
        i <= s@.len(),
    ensures
        parse_node_obj(s@, i as int) == node_obj_res(r),
        r matches Some(p) ==> i < p.1 <= s@.len(),
{
    if !(i < s.len() && s[i] == '{') {
        return None;
    }
    let j0 = px_skip_ws(s, i + 1);
    match px_node_field(s, j0) {
        Some((id1, name1, j1)) => {
            let j2 = px_skip_ws(s, j1);
            if j2 < s.len() && s[j2] == ',' {
                let j3 = px_skip_ws(s, j2 + 1);
                match px_node_field(s, j3) {
                    Some((id2, name2, j4)) => {
                        let j5 = px_skip_ws(s, j4);
                        if j5 < s.len() && s[j5] == '}' {
                            match ((id1, name1), (id2, name2)) {
                                ((Some(id), None), (None, Some(name))) => Some(
                                    (Node { id, name }, j5 + 1),
                                ),
                                ((None, Some(name)), (Some(id), None)) => Some(
                                    (Node { id, name }, j5 + 1),
                                ),
                                _ => None,
                            }
                        } else {
                            None
                        }
                    },
                    None => None,
                }
            } else {
                None
            }
        },
        None => None,
    }
}

/// The image of a node-entry result.
pub open spec fn node_entry_res(r: Option<((u64, Node), usize)>) -> Option<((u64, NodeView), int)> {
    match r {
        Some(((k, n), j)) => Some(((k, n@), j as int)),
        None => None,
    }
}

/// The executable `nodes` member entry; exactly `parse_node_entry`.
fn px_node_entry(s: &Vec<char>, i: usize) -> (r: Option<((u64, Node), usize)>)
    requires
        i <= s@.len(),
    ensures
        parse_node_entry(s@, i as int) == node_entry_res(r),
        r matches Some(p) ==> i < p.1 <= s@.len(),
{
    match px_string(s, i) {
        Some((ks, j)) => match px_key_u64(&ks) {
            Some(k) => {
                let j2 = px_skip_ws(s, j);
                if j2 < s.len() && s[j2] == ':' {
                    let j3 = px_skip_ws(s, j2 + 1);
                    match px_node_obj(s, j3) {
                        Some((node, j4)) => Some(((k, node), j4)),
                        None => None,
                    }
                } else {
                    None
                }
            },
            None => None,
        },
        None => None,
    }
}

/// The image of a node-entries result.
pub open spec fn node_entries_res(r: Option<(Vec<(u64, Node)>, usize)>) -> Option<
    (Seq<(u64, NodeView)>, int),
> {
    match r {
        Some((v, j)) => Some((nodes_view_of(v@), j as int)),
        None => None,
    }
}

/// The executable members of a non-empty `nodes` object; exactly
/// `parse_node_entries`, whatever sufficient fuel it is given.
fn px_node_entries(s: &Vec<char>, i: usize) -> (r: Option<(Vec<(u64, Node)>, usize)>)
    requires
        i <= s@.len(),
    ensures
        r matches Some(p) ==> i < p.1 <= s@.len(),
        forall|f: nat|
            f > s@.len() - i ==> #[trigger] parse_node_entries(s@, i as int, f)
                == node_entries_res(r),
    decreases s@.len() - i,
{
    match px_node_entry(s, i) {
        Some(((k, node), j)) => {
            let j2 = px_skip_ws(s, j);
            if j2 < s.len() && s[j2] == ',' {
                let j3 = px_skip_ws(s, j2 + 1);
                match px_node_entries(s, j3) {
                    Some((mut rest, j4)) => {
                        let ghost rv = nodes_view_of(rest@);
                        rest.insert(0, (k, node));
                        proof {
                            assert(nodes_view_of(rest@) =~= seq![(k, node@)] + rv);
                            assert forall|f: nat| f > s@.len() - i implies #[trigger] parse_node_entries(
                                s@,
                                i as int,
                                f,
                            ) == Some((nodes_view_of(rest@), j4 as int)) by {
                                assert(parse_node_entries(s@, j3 as int, (f - 1) as nat)
                                    == Some((rv, j4 as int)));
                            }
                        }
                        Some((rest, j4))
                    },
                    None => {
                        proof {
                            assert forall|f: nat| f > s@.len() - i implies #[trigger] parse_node_entries(
                                s@,
                                i as int,
                                f,
                            ) is None by {
                                assert(parse_node_entries(s@, j3 as int, (f - 1) as nat) is None);
                            }
                        }
                        None
                    },
                }
            } else if j2 < s.len() && s[j2] == '}' {
                let mut v: Vec<(u64, Node)> = Vec::new();
                v.push((k, node));
                proof {
                    assert(nodes_view_of(v@) =~= seq![(k, node@)]);
                    assert forall|f: nat| f > s@.len() - i implies #[trigger] parse_node_entries(
                        s@,
                        i as int,
                        f,
                    ) == Some((nodes_view_of(v@), j2 as int + 1)) by {}
                }
                Some((v, j2 + 1))
            } else {
                proof {
                    assert forall|f: nat| f > s@.len() - i implies #[trigger] parse_node_entries(
                        s@,
                        i as int,
                        f,
                    ) is None by {}
                }
                None
            }
        },
        None => {
            proof {
                assert forall|f: nat| f > s@.len() - i implies #[trigger] parse_node_entries(
                    s@,
                    i as int,
                    f,
                ) is None by {}
            }
            None
        },
    }
}

/// The image of a nodes-value result.
pub open spec fn nodes_value_res(r: Option<(Vec<(u64, Node)>, usize)>) -> Option<
    (Seq<(u64, NodeView)>, int),
> {
    node_entries_res(r)
}

/// The executable `nodes` value; exactly `parse_nodes_value`, whatever
/// sufficient fuel it is given.
fn px_nodes_value(s: &Vec<char>, i: usize) -> (r: Option<(Vec<(u64, Node)>, usize)>)
    requires
        i <= s@.len(),
    ensures
        r matches Some(p) ==> i < p.1 <= s@.len(),
        forall|f: nat|
            f > s@.len() - i ==> #[trigger] parse_nodes_value(s@, i as int, f)
                == nodes_value_res(r),
{
    if !(i < s.len() && s[i] == '{') {
        return None;
    }
    let j = px_skip_ws(s, i + 1);
    if j < s.len() && s[j] == '}' {
        let v: Vec<(u64, Node)> = Vec::new();
        proof {
            assert(nodes_view_of(v@) =~= Seq::<(u64, NodeView)>::empty());
        }
        Some((v, j + 1))
    } else {
        let r = px_node_entries(s, j);
        proof {
            assert forall|f: nat| f > s@.len() - i implies #[trigger] parse_nodes_value(
                s@,
                i as int,
                f,
            ) == nodes_value_res(r) by {
                assert(parse_node_entries(s@, j as int, f) == node_entries_res(r));
            }
        }
        r
    }
}

/// The image of an edge-field result.
pub open spec fn edge_field_res(
    r: Option<(Option<u64>, Option<u64>, Option<String>, usize)>,
) -> Option<(Option<u64>, Option<u64>, Option<Seq<char>>, int)> {
    match r {
        Some((fo, to, ko, j)) => Some((fo, to, opt_str_view(ko), j as int)),
        None => None,
    }
}

/// The executable edge-object member; exactly `parse_edge_field`.
fn px_edge_field(s: &Vec<char>, i: usize) -> (r: Option<
    (Option<u64>, Option<u64>, Option<String>, usize),
>)
    requires
        i <= s@.len(),
    ensures
        parse_edge_field(s@, i as int) == edge_field_res(r),
        r matches Some(p) ==> i < p.3 <= s@.len(),
{
    match px_string(s, i) {
        Some((key, j)) => {
            let j2 = px_skip_ws(s, j);
            if j2 < s.len() && s[j2] == ':' {
                let j3 = px_skip_ws(s, j2 + 1);
                if chars_is(&key, &['f', 'r', 'o', 'm']) {
                    assert(key@ == seq!['f', 'r', 'o', 'm']);
                    match px_u64(s, j3) {
                        Some((v, j4)) => Some((Some(v), None, None, j4)),
                        None => None,
                    }
                } else if chars_is(&key, &['t', 'o']) {
                    assert(key@ == seq!['t', 'o']);
                    match px_u64(s, j3) {
                        Some((v, j4)) => Some((None, Some(v), None, j4)),
                        None => None,
                    }
                } else if chars_is(&key, &['k', 'i', 'n', 'd']) {
                    assert(key@ == seq!['k', 'i', 'n', 'd']);
                    match px_string(s, j3) {
                        Some((t, j4)) => Some((None, None, Some(chars_to_string(t)), j4)),
                        None => None,
                    }
                } else {
                    assert(key@ != seq!['f', 'r', 'o', 'm'] && key@ != seq!['t', 'o'] && key@
                        != seq!['k', 'i', 'n', 'd']);
                    None
                }
            } else {
                None
            }
        },
        None => None,
    }
}

/// The image of an edge-object result.
pub open spec fn edge_obj_res(r: Option<(Edge, usize)>) -> Option<(EdgeView, int)> {
    match r {
        Some((e, j)) => Some((e@, j as int)),
        None => None,
    }
}

/// The executable edge object; exactly `parse_edge_obj`.
fn px_edge_obj(s: &Vec<char>, i: usize) -> (r: Option<(Edge, usize)>)
    requires
        i <= s@.len(),
    ensures
        parse_edge_obj(s@, i as int) == edge_obj_res(r),
        r matches Some(p) ==> i < p.1 <= s@.len(),
{
    if !(i < s.len() && s[i] == '{') {
        return None;
    }
    let j0 = px_skip_ws(s, i + 1);
    match px_edge_field(s, j0) {
        Some((a1, b1, c1, j1)) => {
            let j2 = px_skip_ws(s, j1);
            if j2 < s.len() && s[j2] == ',' {
                let j3 = px_skip_ws(s, j2 + 1);
                match px_edge_field(s, j3) {
                    Some((a2, b2, c2, j4)) => {
                        let j5 = px_skip_ws(s, j4);
                        if j5 < s.len() && s[j5] == ',' {
                            let j6 = px_skip_ws(s, j5 + 1);
                            match px_edge_field(s, j6) {
                                Some((a3, b3, c3, j7)) => {
                                    let j8 = px_skip_ws(s, j7);
                                    if j8 < s.len() && s[j8] == '}' {
                                        match ((a1, b1, c1), (a2, b2, c2), (a3, b3, c3)) {
                                            (
                                                (Some(from), None, None),
                                                (None, Some(to), None),
                                                (None, None, Some(kind)),
                                            ) => Some((Edge { from, to, kind }, j8 + 1)),
                                            (
                                                (Some(from), None, None),
                                                (None, None, Some(kind)),
                                                (None, Some(to), None),
                                            ) => Some((Edge { from, to, kind }, j8 + 1)),
                                            (
                                                (None, Some(to), None),
                                                (Some(from), None, None),
                                                (None, None, Some(kind)),
                                            ) => Some((Edge { from, to, kind }, j8 + 1)),
                                            (
                                                (None, Some(to), None),
                                                (None, None, Some(kind)),
                                                (Some(from), None, None),
                                            ) => Some((Edge { from, to, kind }, j8 + 1)),
                                            (
                                                (None, None, Some(kind)),
                                                (Some(from), None, None),
                                                (None, Some(to), None),
                                            ) => Some((Edge { from, to, kind }, j8 + 1)),
                                            (
                                                (None, None, Some(kind)),
                                                (None, Some(to), None),
                                                (Some(from), None, None),
                                            ) => Some((Edge { from, to, kind }, j8 + 1)),
                                            _ => None,
                                        }
                                    } else {
                                        None
                                    }
                                },
                                None => None,
                            }
                        } else {
                            None
                        }
                    },
                    None => None,
                }
            } else {
                None
            }
        },
        None => None,
    }
}

/// The image of an edge-elements result.
pub open spec fn edge_elems_res(r: Option<(Vec<Edge>, usize)>) -> Option<(Seq<EdgeView>, int)> {
    match r {
        Some((v, j)) => Some((edges_view_of(v@), j as int)),
        None => None,
    }
}

/// The executable elements of a non-empty `edges` array; exactly
/// `parse_edge_elems`, whatever sufficient fuel it is given.
fn px_edge_elems(s: &Vec<char>, i: usize) -> (r: Option<(Vec<Edge>, usize)>)
    requires
        i <= s@.len(),
    ensures
        r matches Some(p) ==> i < p.1 <= s@.len(),
        forall|f: nat|
            f > s@.len() - i ==> #[trigger] parse_edge_elems(s@, i as int, f) == edge_elems_res(
                r,
            ),
    decreases s@.len() - i,
{
    match px_edge_obj(s, i) {
        Some((edge, j)) => {
            let j2 = px_skip_ws(s, j);
            if j2 < s.len() && s[j2] == ',' {
                let j3 = px_skip_ws(s, j2 + 1);
                match px_edge_elems(s, j3) {
                    Some((mut rest, j4)) => {
                        let ghost rv = edges_view_of(rest@);
                        rest.insert(0, edge);
                        proof {
                            assert(edges_view_of(rest@) =~= seq![edge@] + rv);
                            assert forall|f: nat| f > s@.len() - i implies #[trigger] parse_edge_elems(
                                s@,
                                i as int,
                                f,
                            ) == Some((edges_view_of(rest@), j4 as int)) by {
                                assert(parse_edge_elems(s@, j3 as int, (f - 1) as nat) == Some(
                                    (rv, j4 as int),
                                ));
                            }
                        }
                        Some((rest, j4))
                    },
                    None => {
                        proof {
                            assert forall|f: nat| f > s@.len() - i implies #[trigger] parse_edge_elems(
                                s@,
                                i as int,
                                f,
                            ) is None by {
                                assert(parse_edge_elems(s@, j3 as int, (f - 1) as nat) is None);
                            }
                        }
                        None
                    },
                }
            } else if j2 < s.len() && s[j2] == ']' {
                let mut v: Vec<Edge> = Vec::new();
                v.push(edge);
                proof {
                    assert(edges_view_of(v@) =~= seq![edge@]);
                    assert forall|f: nat| f > s@.len() - i implies #[trigger] parse_edge_elems(
                        s@,
                        i as int,
                        f,
                    ) == Some((edges_view_of(v@), j2 as int + 1)) by {}
                }
                Some((v, j2 + 1))
            } else {
                proof {
                    assert forall|f: nat| f > s@.len() - i implies #[trigger] parse_edge_elems(
                        s@,
                        i as int,
                        f,
                    ) is None by {}
                }
                None
            }
        },
        None => {
            proof {
                assert forall|f: nat| f > s@.len() - i implies #[trigger] parse_edge_elems(
                    s@,
                    i as int,
                    f,
                ) is None by {}
            }
            None
        },
    }
}

/// The image of an edges-value result.
pub open spec fn edges_value_res(r: Option<(Vec<Edge>, usize)>) -> Option<(Seq<EdgeView>, int)> {
    edge_elems_res(r)
}

/// The executable `edges` value; exactly `parse_edges_value`, whatever
/// sufficient fuel it is given.
fn px_edges_value(s: &Vec<char>, i: usize) -> (r: Option<(Vec<Edge>, usize)>)
    requires
        i <= s@.len(),
    ensures
        r matches Some(p) ==> i < p.1 <= s@.len(),
        forall|f: nat|
            f > s@.len() - i ==> #[trigger] parse_edges_value(s@, i as int, f)
                == edges_value_res(r),
{
    if !(i < s.len() && s[i] == '[') {
        return None;
    }
    let j = px_skip_ws(s, i + 1);
    if j < s.len() && s[j] == ']' {
        let v: Vec<Edge> = Vec::new();
        proof {
            assert(edges_view_of(v@) =~= Seq::<EdgeView>::empty());
        }
        Some((v, j + 1))
    } else {
        let r = px_edge_elems(s, j);
        proof {
            assert forall|f: nat| f > s@.len() - i implies #[trigger] parse_edges_value(
                s@,
                i as int,
                f,
            ) == edges_value_res(r) by {
                assert(parse_edge_elems(s@, j as int, f) == edge_elems_res(r));
            }
        }
        r
    }
}

/// The image of a top-member result.
pub open spec fn top_member_res(
    r: Option<(Option<Vec<(u64, Node)>>, Option<Vec<Edge>>, usize)>,
) -> Option<(Option<Seq<(u64, NodeView)>>, Option<Seq<EdgeView>>, int)> {
    match r {
        Some((ns, es, j)) => Some(
            (
                match ns {
                    Some(v) => Some(nodes_view_of(v@)),
                    None => None,
                },
                match es {
                    Some(v) => Some(edges_view_of(v@)),
                    None => None,
                },
                j as int,
            ),
        ),
        None => None,
    }
}

/// The executable top-level member; exactly `parse_top_member`, whatever
/// sufficient fuel it is given.
fn px_top_member(s: &Vec<char>, i: usize) -> (r: Option<
    (Option<Vec<(u64, Node)>>, Option<Vec<Edge>>, usize),
>)
    requires
        i <= s@.len(),
    ensures
        r matches Some(p) ==> i < p.2 <= s@.len(),
        forall|f: nat|
            f > s@.len() - i ==> #[trigger] parse_top_member(s@, i as int, f) == top_member_res(
                r,
            ),
{
    match px_string(s, i) {
        Some((key, j)) => {
            let j2 = px_skip_ws(s, j);
            if j2 < s.len() && s[j2] == ':' {
                let j3 = px_skip_ws(s, j2 + 1);
                if chars_is(&key, &['n', 'o', 'd', 'e', 's']) {
                    assert(key@ == seq!['n', 'o', 'd', 'e', 's']);
                    match px_nodes_value(s, j3) {
                        Some((ns, j4)) => {
                            let ghost nsv = nodes_view_of(ns@);
                            let r = Some((Some(ns), None, j4));
                            proof {
                                assert forall|f: nat| f > s@.len() - i implies #[trigger] parse_top_member(
                                    s@,
                                    i as int,
                                    f,
                                ) == top_member_res(r) by {
                                    assert(parse_nodes_value(s@, j3 as int, f) == Some(
                                        (nsv, j4 as int),
                                    ));
                                }
                            }
                            r
                        },
                        None => {
                            proof {
                                assert forall|f: nat| f > s@.len() - i implies #[trigger] parse_top_member(
                                    s@,
                                    i as int,
                                    f,
                                ) is None by {
                                    assert(parse_nodes_value(s@, j3 as int, f) is None);
                                }
                            }
                            None
                        },
                    }
                } else if chars_is(&key, &['e', 'd', 'g', 'e', 's']) {
                    assert(key@ == seq!['e', 'd', 'g', 'e', 's']);
                    match px_edges_value(s, j3) {
                        Some((es, j4)) => {
                            let ghost esv = edges_view_of(es@);
                            let r = Some((None, Some(es), j4));
                            proof {
                                assert forall|f: nat| f > s@.len() - i implies #[trigger] parse_top_member(
                                    s@,
                                    i as int,
                                    f,
                                ) == top_member_res(r) by {
                                    assert(parse_edges_value(s@, j3 as int, f) == Some(
                                        (esv, j4 as int),
                                    ));
                                }
                            }
                            r
                        },
                        None => {
                            proof {
                                assert forall|f: nat| f > s@.len() - i implies #[trigger] parse_top_member(
                                    s@,
                                    i as int,
                                    f,
                                ) is None by {
                                    assert(parse_edges_value(s@, j3 as int, f) is None);
                                }
                            }
                            None
                        },
                    }
                } else {
                    assert(key@ != seq!['n', 'o', 'd', 'e', 's'] && key@
                        != seq!['e', 'd', 'g', 'e', 's']);
                    None
                }
            } else {
                None
            }
        },
        None => None,
    }
}

/// The image of a top-members result.
pub open spec fn top_members_res(
    r: Option<(Option<Vec<(u64, Node)>>, Option<Vec<Edge>>, usize)>,
) -> Option<(Option<Seq<(u64, NodeView)>>, Option<Seq<EdgeView>>, int)> {
    top_member_res(r)
}

/// The executable members of a non-empty top-level object; exactly
/// `parse_top_members`, whatever sufficient fuel it is given.
fn px_top_members(s: &Vec<char>, i: usize) -> (r: Option<
    (Option<Vec<(u64, Node)>>, Option<Vec<Edge>>, usize),
>)
    requires
        i <= s@.len(),
    ensures
        r matches Some(p) ==> i < p.2 <= s@.len(),
        forall|f: nat|
            f > s@.len() - i ==> #[trigger] parse_top_members(s@, i as int, f)
                == top_members_res(r),
    decreases s@.len() - i,
{
    match px_top_member(s, i) {
        Some((ns1, es1, j)) => {
            let ghost ns1v = top_member_res(Some((ns1, es1, j)));
            let j2 = px_skip_ws(s, j);
            if j2 < s.len() && s[j2] == ',' {
                let j3 = px_skip_ws(s, j2 + 1);
                match px_top_members(s, j3) {
                    Some((ns2, es2, j4)) => {
                        let ghost restv = top_members_res(Some((ns2, es2, j4)));
                        let r = match ((ns1, es1), (ns2, es2)) {
                            ((Some(ns), None), (None, Some(es))) => Some(
                                (Some(ns), Some(es), j4),
                            ),
                            ((Some(ns), None), (None, None)) => Some((Some(ns), None, j4)),
                            ((None, Some(es)), (Some(ns), None)) => Some(
                                (Some(ns), Some(es), j4),
                            ),
                            ((None, Some(es)), (None, None)) => Some((None, Some(es), j4)),
                            _ => None,
                        };
                        proof {
                            assert forall|f: nat| f > s@.len() - i implies #[trigger] parse_top_members(
                                s@,
                                i as int,
                                f,
                            ) == top_members_res(r) by {
                                assert(parse_top_member(s@, i as int, f) == ns1v);
                                assert(parse_top_members(s@, j3 as int, (f - 1) as nat)
                                    == restv);
                            }
                        }
                        r
                    },
                    None => {
                        proof {
                            assert forall|f: nat| f > s@.len() - i implies #[trigger] parse_top_members(
                                s@,
                                i as int,
                                f,
                            ) is None by {
                                assert(parse_top_member(s@, i as int, f) == ns1v);
                                assert(parse_top_members(s@, j3 as int, (f - 1) as nat)
                                    is None);
                            }
                        }
                        None
                    },
                }
            } else if j2 < s.len() && s[j2] == '}' {
                let r = Some((ns1, es1, j2 + 1));
                proof {
                    assert forall|f: nat| f > s@.len() - i implies #[trigger] parse_top_members(
                        s@,
                        i as int,
                        f,
                    ) == top_members_res(r) by {
                        assert(parse_top_member(s@, i as int, f) == ns1v);
                    }
                }
                r
            } else {
                proof {
                    assert forall|f: nat| f > s@.len() - i implies #[trigger] parse_top_members(
                        s@,
                        i as int,
                        f,
                    ) is None by {
                        assert(parse_top_member(s@, i as int, f) == ns1v);
                    }
                }
                None
            }
        },
        None => {
            proof {
                assert forall|f: nat| f > s@.len() - i implies #[trigger] parse_top_members(
                    s@,
                    i as int,
                    f,
                ) is None by {
                    assert(parse_top_member(s@, i as int, f) is None);
                }
            }
            None
        },
    }
}

/// Whether the parsed node keys are distinct.
fn px_keys_unique(nodes: &Vec<(u64, Node)>) -> (b: bool)
    ensures
        b == keys_unique(nodes_view_of(nodes@)),
{
    let ghost nv = nodes_view_of(nodes@);
    let mut i: usize = 0;
    while i < nodes.len()
        invariant
            i <= nodes@.len(),
            nv == nodes_view_of(nodes@),
            forall|p: int, q: int| 0 <= p < q < nv.len() && p < i
                ==> (#[trigger] nv[p]).0 != (#[trigger] nv[q]).0,
        decreases nodes@.len() - i,
    {
        let mut j: usize = i + 1;
        while j < nodes.len()
            invariant
                i < j <= nodes@.len(),
                i < nodes@.len(),
                nv == nodes_view_of(nodes@),
                forall|q: int| i < q < j ==> (#[trigger] nv[q]).0 != nv[i as int].0,
            decreases nodes@.len() - j,
        {
            if nodes[j].0 == nodes[i].0 {
                assert(nv[j as int].0 == nv[i as int].0);
                return false;
            }
            j += 1;
        }
        i += 1;
    }
    true
}

/// Reads a persisted document. Returns the graph it denotes, well formed,
/// exactly when `parse_graph` accepts the text; otherwise nothing.
pub fn decode_graph(text: &str) -> (r: Option<Graph>)
    ensures
        match r {
            Some(g) => parse_graph(text@) == Some(g@) && g@.wf(),
            None => parse_graph(text@) is None,
        },
{
    let s = collect_chars(text);
    let i = px_skip_ws(&s, 0);
    if !(i < s.len() && s[i] == '{') {
        return None;
    }
    let j = px_skip_ws(&s, i + 1);
    let body: Option<(Option<Vec<(u64, Node)>>, Option<Vec<Edge>>, usize)> = if j < s.len()
        && s[j] == '}' {
        Some((None, None, j + 1))
    } else {
        let r = px_top_members(&s, j);
        proof {
            assert(parse_top_members(s@, j as int, (s@.len() + 1) as nat)
                == top_members_res(r));
        }
        r
    };
    match body {
        Some((ns, es, k)) => {
            let e = px_skip_ws(&s, k);
            if e == s.len() {
                let nodes: Vec<(u64, Node)> = match ns {
                    Some(v) => v,
                    None => Vec::new(),
                };
                let edges: Vec<Edge> = match es {
                    Some(v) => v,
                    None => Vec::new(),
                };
                proof {
                    assert(nodes_view_of(Seq::<(u64, Node)>::empty())
                        =~= Seq::<(u64, NodeView)>::empty());
                    assert(edges_view_of(Seq::<Edge>::empty()) =~= Seq::<EdgeView>::empty());
                }
                if px_keys_unique(&nodes) {
                    let g = Graph::from_parts(nodes, edges);
                    Some(g)
                } else {
                    None
                }
            } else {
                None
            }
        },
        None => None,
    }
}

} // verus!
