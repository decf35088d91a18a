//! The durable JSON representation of a graph.
//!
//! `render_graph` defines, character for character, the pretty-printed
//! document this library writes (single-space indentation); `parse_graph`
//! defines which documents are accepted when reading one back and what graph
//! they denote. Reading tolerates arbitrary inter-token whitespace, any
//! member order, and a missing `nodes` or `edges` member (each defaults to
//! empty), so a document written by an older producer still loads.

use vstd::prelude::*;

use crate::graph::{
    edges_view_of, keys_unique, nodes_view_of, Edge, EdgeView, Graph, GraphView, Node, NodeView,
};

verus! {

// ---------------------------------------------------------------------------
// Characters
// ---------------------------------------------------------------------------

/// JSON inter-token whitespace.
pub open spec fn is_ws(c: char) -> bool {
    c == ' ' || c == '\t' || c == '\n' || c == '\r'
}

/// A decimal digit.
pub open spec fn is_digit(c: char) -> bool {
    c == '0' || c == '1' || c == '2' || c == '3' || c == '4' || c == '5' || c == '6' || c == '7'
        || c == '8' || c == '9'
}

/// The value of a decimal digit.
pub open spec fn digit_val(c: char) -> nat {
    if c == '0' { 0 } else if c == '1' { 1 } else if c == '2' { 2 } else if c == '3' { 3 }
    else if c == '4' { 4 } else if c == '5' { 5 } else if c == '6' { 6 } else if c == '7' { 7 }
    else if c == '8' { 8 } else { 9 }
}

/// The character of a decimal digit value.
pub open spec fn dec_digit(d: nat) -> char {
    if d == 0 { '0' } else if d == 1 { '1' } else if d == 2 { '2' } else if d == 3 { '3' }
    else if d == 4 { '4' } else if d == 5 { '5' } else if d == 6 { '6' } else if d == 7 { '7' }
    else if d == 8 { '8' } else { '9' }
}

/// The lower-case character of a hexadecimal digit value.
pub open spec fn hex_digit(d: nat) -> char {
    if d == 0 { '0' } else if d == 1 { '1' } else if d == 2 { '2' } else if d == 3 { '3' }
    else if d == 4 { '4' } else if d == 5 { '5' } else if d == 6 { '6' } else if d == 7 { '7' }
    else if d == 8 { '8' } else if d == 9 { '9' } else if d == 10 { 'a' } else if d == 11 { 'b' }
    else if d == 12 { 'c' } else if d == 13 { 'd' } else if d == 14 { 'e' } else { 'f' }
}

/// The value of a hexadecimal digit character, either case.
pub open spec fn hex_val_opt(c: char) -> Option<nat> {
    if is_digit(c) { Some(digit_val(c)) }
    else if c == 'a' || c == 'A' { Some(10) } else if c == 'b' || c == 'B' { Some(11) }
    else if c == 'c' || c == 'C' { Some(12) } else if c == 'd' || c == 'D' { Some(13) }
    else if c == 'e' || c == 'E' { Some(14) } else if c == 'f' || c == 'F' { Some(15) }
    else { None }
}

/// Unicode scalar values: what a `char` can hold.
pub open spec fn valid_scalar(v: u32) -> bool {
    v < 0xD800 || (0xE000 <= v && v <= 0x10FFFF)
}

/// The character with the given scalar value.
pub open spec fn scalar_char(v: u32) -> char {
    choose|c: char| (#[trigger] (c as u32)) == v
}

// ---------------------------------------------------------------------------
// Rendering (what a save writes)
// ---------------------------------------------------------------------------

/// How one character appears inside a JSON string literal: the two quoting
/// characters and the control characters are escaped, five of them by their
/// short forms, the rest numerically; every other character stands for
/// itself.
pub open spec fn escape_char(c: char) -> Seq<char> {
    if c == '"' { seq!['\\', '"'] }
    else if c == '\\' { seq!['\\', '\\'] }
    else if c == '\u{8}' { seq!['\\', 'b'] }
    else if c == '\u{c}' { seq!['\\', 'f'] }
    else if c == '\n' { seq!['\\', 'n'] }
    else if c == '\r' { seq!['\\', 'r'] }
    else if c == '\t' { seq!['\\', 't'] }
    else if (c as u32) < 0x20 {
        seq!['\\', 'u', '0', '0', hex_digit((c as u32 / 16) as nat), hex_digit((c as u32 % 16) as nat)]
    } else { seq![c] }
}

/// The body of a JSON string literal for the given text.
pub open spec fn escape_string(s: Seq<char>) -> Seq<char>
    decreases s.len(),
{
    if s.len() == 0 { Seq::empty() } else { escape_char(s[0]) + escape_string(s.drop_first()) }
}

/// The decimal rendering of a number, most significant digit first.
pub open spec fn u64_dec(n: nat) -> Seq<char>
    decreases n,
{
    if n < 10 { seq![dec_digit(n)] } else { u64_dec(n / 10) + seq![dec_digit(n % 10)] }
}

/// One node object, at nesting depth two.
pub open spec fn render_node_obj(nv: NodeView) -> Seq<char> {
    seq!['{', '\n', ' ', ' ', ' ', '"', 'i', 'd', '"', ':', ' '] + u64_dec(nv.id as nat)
        + seq![',', '\n', ' ', ' ', ' ', '"', 'n', 'a', 'm', 'e', '"', ':', ' ', '"']
        + escape_string(nv.name) + seq!['"', '\n', ' ', ' ', '}']
}

/// One member of the `nodes` object: the key as a quoted decimal string,
/// then the node object.
pub open spec fn render_node_entry(key: u64, nv: NodeView) -> Seq<char> {
    seq!['"'] + u64_dec(key as nat) + seq!['"', ':', ' '] + render_node_obj(nv)
}

/// The members of a non-empty `nodes` object, comma-separated, each on its
/// own line at depth one.
pub open spec fn render_node_entries(ns: Seq<(u64, NodeView)>) -> Seq<char>
    decreases ns.len(),
{
    if ns.len() == 0 { Seq::empty() } else {
        seq!['\n', ' ', ' '] + render_node_entry(ns[0].0, ns[0].1) + (if ns.len() > 1 {
            seq![','] + render_node_entries(ns.drop_first())
        } else { Seq::empty() })
    }
}

/// The `nodes` object.
pub open spec fn render_nodes(ns: Seq<(u64, NodeView)>) -> Seq<char> {
    if ns.len() == 0 { seq!['{', '}'] } else {
        seq!['{'] + render_node_entries(ns) + seq!['\n', ' ', '}']
    }
}

/// One edge object, at nesting depth two.
pub open spec fn render_edge_obj(ev: EdgeView) -> Seq<char> {
    seq!['{', '\n', ' ', ' ', ' ', '"', 'f', 'r', 'o', 'm', '"', ':', ' ']
        + u64_dec(ev.from as nat)
        + seq![',', '\n', ' ', ' ', ' ', '"', 't', 'o', '"', ':', ' '] + u64_dec(ev.to as nat)
        + seq![',', '\n', ' ', ' ', ' ', '"', 'k', 'i', 'n', 'd', '"', ':', ' ', '"']
        + escape_string(ev.kind) + seq!['"', '\n', ' ', ' ', '}']
}

/// The elements of a non-empty `edges` array, comma-separated, each on its
/// own line at depth one.
pub open spec fn render_edge_elems(es: Seq<EdgeView>) -> Seq<char>
    decreases es.len(),
{
    if es.len() == 0 { Seq::empty() } else {
        seq!['\n', ' ', ' '] + render_edge_obj(es[0]) + (if es.len() > 1 {
            seq![','] + render_edge_elems(es.drop_first())
        } else { Seq::empty() })
    }
}

/// The `edges` array.
pub open spec fn render_edges(es: Seq<EdgeView>) -> Seq<char> {
    if es.len() == 0 { seq!['[', ']'] } else {
        seq!['['] + render_edge_elems(es) + seq!['\n', ' ', ']']
    }
}

/// The whole persisted document for a graph: a pretty-printed JSON object
/// with single-space indentation, `nodes` first, `edges` second, and no
/// trailing newline.
pub open spec fn render_graph(g: GraphView) -> Seq<char> {
    seq!['{', '\n', ' ', '"', 'n', 'o', 'd', 'e', 's', '"', ':', ' '] + render_nodes(g.nodes)
        + seq![',', '\n', ' ', '"', 'e', 'd', 'g', 'e', 's', '"', ':', ' ']
        + render_edges(g.edges) + seq!['\n', '}']
}

// ---------------------------------------------------------------------------
// Encoder
// ---------------------------------------------------------------------------

fn dec_digit_char(d: u64) -> (c: char)
    requires
        d < 10,
    ensures
        c == dec_digit(d as nat),
{
    match d {
        0 => '0', 1 => '1', 2 => '2', 3 => '3', 4 => '4',
        5 => '5', 6 => '6', 7 => '7', 8 => '8', _ => '9',
    }
}

fn hex_digit_char(d: u32) -> (c: char)
    requires
        d < 16,
    ensures
        c == hex_digit(d as nat),
{
    match d {
        0 => '0', 1 => '1', 2 => '2', 3 => '3', 4 => '4', 5 => '5', 6 => '6', 7 => '7',
        8 => '8', 9 => '9', 10 => 'a', 11 => 'b', 12 => 'c', 13 => 'd', 14 => 'e', _ => 'f',
    }
}

/// Appends the decimal rendering of `n`.
fn push_u64(out: &mut Vec<char>, n: u64)
    ensures
        final(out)@ == old(out)@ + u64_dec(n as nat),
    decreases n,
{
    if n < 10 {
        out.push(dec_digit_char(n));
        assert(final(out)@ =~= old(out)@ + u64_dec(n as nat));
    } else {
        push_u64(out, n / 10);
        out.push(dec_digit_char(n % 10));
        assert(final(out)@ =~= old(out)@ + u64_dec(n as nat));
    }
}

/// Appends the escaped form of one character.
fn push_escaped_char(out: &mut Vec<char>, c: char)
    ensures
        final(out)@ == old(out)@ + escape_char(c),
{
    if c == '"' {
        out.push('\\');
        out.push('"');
    } else if c == '\\' {
        out.push('\\');
        out.push('\\');
    } else if c == '\u{8}' {
        out.push('\\');
        out.push('b');
    } else if c == '\u{c}' {
        out.push('\\');
        out.push('f');
    } else if c == '\n' {
        out.push('\\');
        out.push('n');
    } else if c == '\r' {
        out.push('\\');
        out.push('r');
    } else if c == '\t' {
        out.push('\\');
        out.push('t');
    } else if (c as u32) < 0x20 {
        let v = c as u32;
        out.push('\\');
        out.push('u');
        out.push('0');
        out.push('0');
        out.push(hex_digit_char(v / 16));
        out.push(hex_digit_char(v % 16));
    } else {
        out.push(c);
    }
    assert(final(out)@ =~= old(out)@ + escape_char(c));
}

proof fn lemma_escape_string_snoc(s: Seq<char>, c: char)
    ensures
        escape_string(s.push(c)) == escape_string(s) + escape_char(c),
    decreases s.len(),
{
    if s.len() == 0 {
        assert(s.push(c).drop_first() =~= Seq::<char>::empty());
        assert(s.push(c)[0] == c);
        assert(escape_string(Seq::<char>::empty()) == Seq::<char>::empty());
        assert(escape_string(s.push(c)) == escape_char(c) + escape_string(Seq::<char>::empty()));
        assert(escape_string(s.push(c)) =~= escape_string(s) + escape_char(c));
    } else {
        assert(s.push(c).drop_first() =~= s.drop_first().push(c));
        lemma_escape_string_snoc(s.drop_first(), c);
        assert(escape_string(s.push(c)) == escape_char(s[0]) + escape_string(s.drop_first().push(c)));
        assert(escape_string(s) == escape_char(s[0]) + escape_string(s.drop_first()));
        assert(escape_string(s.push(c)) =~= escape_string(s) + escape_char(c));
    }
}

/// Appends the escaped body of a string literal for `s`.
fn push_escaped(out: &mut Vec<char>, s: &str)
    ensures
        final(out)@ == old(out)@ + escape_string(s@),
{
    let chars = collect_chars(s);
    let mut i: usize = 0;
    assert(out@ =~= old(out)@ + escape_string(chars@.subrange(0, 0)));
    while i < chars.len()
        invariant
            i <= chars.len(),
            chars@ == s@,
            out@ == old(out)@ + escape_string(chars@.subrange(0, i as int)),
        decreases chars.len() - i,
    {
        push_escaped_char(out, chars[i]);
        proof {
            lemma_escape_string_snoc(chars@.subrange(0, i as int), chars@[i as int]);
            assert(chars@.subrange(0, i as int).push(chars@[i as int]) =~= chars@.subrange(
                0,
                i as int + 1,
            ));
        }
        i += 1;
    }
    assert(chars@.subrange(0, chars@.len() as int) =~= s@);
}

/// Relies on `str::chars`: iterating a text yields exactly its characters,
/// in order.
#[verifier::external_body]
pub(crate) fn collect_chars(s: &str) -> (r: Vec<char>)
    ensures
        r@ == s@,
{
    s.chars().collect()
}

/// Relies on `String`'s `FromIterator<char>` implementation: collecting a
/// vector's characters yields the string of exactly those characters.
#[verifier::external_body]
pub(crate) fn chars_to_string(v: Vec<char>) -> (s: String)
    ensures
        s@ == v@,
{
    v.into_iter().collect()
}

/// Appends each character of a fixed punctuation run.
fn push_lit(out: &mut Vec<char>, lit: &[char])
    ensures
        final(out)@ == old(out)@ + lit@,
{
    let mut i: usize = 0;
    while i < lit.len()
        invariant
            i <= lit.len(),
            out@ == old(out)@ + lit@.subrange(0, i as int),
        decreases lit.len() - i,
    {
        out.push(lit[i]);
        assert(out@ =~= old(out)@ + lit@.subrange(0, i as int + 1));
        i += 1;
    }
    assert(lit@.subrange(0, lit@.len() as int) =~= lit@);
}

/// Appends one node object.
fn push_node_obj(out: &mut Vec<char>, node: &Node)
    ensures
        final(out)@ == old(out)@ + render_node_obj(node@),
{
    push_lit(out, &['{', '\n', ' ', ' ', ' ', '"', 'i', 'd', '"', ':', ' ']);
    push_u64(out, node.id);
    push_lit(out, &[',', '\n', ' ', ' ', ' ', '"', 'n', 'a', 'm', 'e', '"', ':', ' ', '"']);
    push_escaped(out, node.name.as_str());
    push_lit(out, &['"', '\n', ' ', ' ', '}']);
    assert(final(out)@ =~= old(out)@ + render_node_obj(node@));
}

/// Appends the members of a non-empty `nodes` object, from index `k` on.
fn push_node_entries(out: &mut Vec<char>, nodes: &Vec<(u64, Node)>, k: usize)
    requires
        k < nodes@.len(),
    ensures
        final(out)@ == old(out)@ + render_node_entries(
            nodes_view_of(nodes@).subrange(k as int, nodes@.len() as int),
        ),
    decreases nodes@.len() - k,
{
    let ghost tail = nodes_view_of(nodes@).subrange(k as int, nodes@.len() as int);
    push_lit(out, &['\n', ' ', ' ', '"']);
    push_u64(out, nodes[k].0);
    push_lit(out, &['"', ':', ' ']);
    push_node_obj(out, &nodes[k].1);
    if k < nodes.len() - 1 {
        push_lit(out, &[',']);
        push_node_entries(out, nodes, k + 1);
        proof {
            assert(tail.drop_first() =~= nodes_view_of(nodes@).subrange(
                k as int + 1,
                nodes@.len() as int,
            ));
            assert(final(out)@ =~= old(out)@ + render_node_entries(tail));
        }
    } else {
        assert(final(out)@ =~= old(out)@ + render_node_entries(tail));
    }
}

/// Appends one edge object.
fn push_edge_obj(out: &mut Vec<char>, edge: &Edge)
    ensures
        final(out)@ == old(out)@ + render_edge_obj(edge@),
{
    push_lit(out, &['{', '\n', ' ', ' ', ' ', '"', 'f', 'r', 'o', 'm', '"', ':', ' ']);
    push_u64(out, edge.from);
    push_lit(out, &[',', '\n', ' ', ' ', ' ', '"', 't', 'o', '"', ':', ' ']);
    push_u64(out, edge.to);
    push_lit(out, &[',', '\n', ' ', ' ', ' ', '"', 'k', 'i', 'n', 'd', '"', ':', ' ', '"']);
    push_escaped(out, edge.kind.as_str());
    push_lit(out, &['"', '\n', ' ', ' ', '}']);
    assert(final(out)@ =~= old(out)@ + render_edge_obj(edge@));
}

/// Appends the elements of a non-empty `edges` array, from index `k` on.
fn push_edge_elems(out: &mut Vec<char>, edges: &Vec<Edge>, k: usize)
    requires
        k < edges@.len(),
    ensures
        final(out)@ == old(out)@ + render_edge_elems(
            edges_view_of(edges@).subrange(k as int, edges@.len() as int),
        ),
    decreases edges@.len() - k,
{
    let ghost tail = edges_view_of(edges@).subrange(k as int, edges@.len() as int);
    push_lit(out, &['\n', ' ', ' ']);
    push_edge_obj(out, &edges[k]);
    if k < edges.len() - 1 {
        push_lit(out, &[',']);
        push_edge_elems(out, edges, k + 1);
        proof {
            assert(tail.drop_first() =~= edges_view_of(edges@).subrange(
                k as int + 1,
                edges@.len() as int,
            ));
            assert(final(out)@ =~= old(out)@ + render_edge_elems(tail));
        }
    } else {
        assert(final(out)@ =~= old(out)@ + render_edge_elems(tail));
    }
}

/// Produces the persisted document for a graph: exactly `render_graph` of
/// its image.
pub fn encode_graph(g: &Graph) -> (r: String)
    ensures
        r@ == render_graph(g@),
{
    let nodes = g.list_nodes();
    let edges = g.list_edges();
    proof {
        assert(nodes_view_of(nodes@) =~= g@.nodes);
        assert(edges_view_of(edges@) =~= g@.edges);
    }
    let mut out: Vec<char> = Vec::new();
    push_lit(&mut out, &['{', '\n', ' ', '"', 'n', 'o', 'd', 'e', 's', '"', ':', ' ']);
    if nodes.len() == 0 {
        push_lit(&mut out, &['{', '}']);
    } else {
        push_lit(&mut out, &['{']);
        push_node_entries(&mut out, &nodes, 0);
        proof {
            assert(nodes_view_of(nodes@).subrange(0, nodes@.len() as int) =~= nodes_view_of(
                nodes@,
            ));
        }
        push_lit(&mut out, &['\n', ' ', '}']);
    }
    assert(out@ =~= seq!['{', '\n', ' ', '"', 'n', 'o', 'd', 'e', 's', '"', ':', ' ']
        + render_nodes(g@.nodes));
    push_lit(&mut out, &[',', '\n', ' ', '"', 'e', 'd', 'g', 'e', 's', '"', ':', ' ']);
    if edges.len() == 0 {
        push_lit(&mut out, &['[', ']']);
    } else {
        push_lit(&mut out, &['[']);
        push_edge_elems(&mut out, &edges, 0);
        proof {
            assert(edges_view_of(edges@).subrange(0, edges@.len() as int) =~= edges_view_of(
                edges@,
            ));
        }
        push_lit(&mut out, &['\n', ' ', ']']);
    }
    push_lit(&mut out, &['\n', '}']);
    assert(out@ =~= render_graph(g@));
    chars_to_string(out)
}

} // verus!
