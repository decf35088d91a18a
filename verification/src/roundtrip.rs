//! The codec round trip: every document this library writes is accepted by
//! its own reader and denotes exactly the graph that was written.

use vstd::prelude::*;

use crate::codec::{
    dec_digit, digit_val, escape_char, escape_string, hex_digit, hex_val_opt, is_digit, is_ws,
    render_edge_elems, render_edge_obj, render_edges, render_graph, render_node_entries,
    render_node_entry, render_node_obj, render_nodes, scalar_char, u64_dec, valid_scalar,
};
use crate::graph::{keys_unique, EdgeView, GraphView, NodeView};
use crate::parse::{
    cons_str, key_to_u64, parse_digits, parse_edge_elems, parse_edge_field, parse_edge_obj,
    parse_edges_value, parse_graph, parse_hex4, parse_node_entries, parse_node_entry,
    parse_node_field, parse_node_obj, parse_nodes_value, parse_str_body, parse_string,
    parse_top_member, parse_top_members, parse_u64_at, skip_ws,
};

verus! {

// ---------------------------------------------------------------------------
// Whitespace and digits
// ---------------------------------------------------------------------------

/// Skipping stops exactly at the first non-whitespace position.
proof fn lemma_skip_ws_exact(s: Seq<char>, i: int, j: int)
    requires
        0 <= i <= j <= s.len(),
        forall|k: int| i <= k < j ==> is_ws(#[trigger] s[k]),
        j == s.len() || !is_ws(s[j]),
    ensures
        skip_ws(s, i) == j,
    decreases j - i,
{
    if i < j {
        lemma_skip_ws_exact(s, i + 1, j);
    }
}

/// A digit and its character correspond.
proof fn lemma_dec_digit_val(d: nat)
    requires
        d < 10,
    ensures
        is_digit(dec_digit(d)),
        digit_val(dec_digit(d)) == d,
{
}

/// The left fold a digit run denotes, starting from `acc`.
spec fn digits_val_from(acc: int, ds: Seq<char>) -> int
    decreases ds.len(),
{
    if ds.len() == 0 {
        acc
    } else {
        digits_val_from(acc * 10 + digit_val(ds[0]), ds.drop_first())
    }
}

proof fn lemma_dvf_snoc(acc: int, ds: Seq<char>, c: char)
    ensures
        digits_val_from(acc, ds.push(c)) == digits_val_from(acc, ds) * 10 + digit_val(c),
    decreases ds.len(),
{
    if ds.len() == 0 {
        assert(ds.push(c).drop_first() =~= Seq::<char>::empty());
        assert(ds.push(c)[0] == c);
        assert(digits_val_from(acc * 10 + digit_val(c), Seq::<char>::empty()) == acc * 10
            + digit_val(c));
    } else {
        assert(ds.push(c).drop_first() =~= ds.drop_first().push(c));
        assert(ds.push(c)[0] == ds[0]);
        lemma_dvf_snoc(acc * 10 + digit_val(ds[0]), ds.drop_first(), c);
        assert(digits_val_from(acc, ds) == digits_val_from(
            acc * 10 + digit_val(ds[0]),
            ds.drop_first(),
        ));
    }
}

proof fn lemma_dvf_lower_bound(acc: int, ds: Seq<char>)
    requires
        acc >= 0,
    ensures
        digits_val_from(acc, ds) >= acc,
    decreases ds.len(),
{
    if ds.len() > 0 {
        lemma_dvf_lower_bound(acc * 10 + digit_val(ds[0]), ds.drop_first());
    }
}

/// The decimal rendering of `n` is a digit run denoting `n`.
proof fn lemma_u64_dec_val(n: nat)
    ensures
        u64_dec(n).len() >= 1,
        forall|k: int| 0 <= k < u64_dec(n).len() ==> is_digit(#[trigger] u64_dec(n)[k]),
        digits_val_from(0, u64_dec(n)) == n,
    decreases n,
{
    if n < 10 {
        lemma_dec_digit_val(n);
        assert(u64_dec(n) == seq![dec_digit(n)]);
        assert(seq![dec_digit(n)].drop_first() =~= Seq::<char>::empty());
        assert(digits_val_from(0, u64_dec(n)) == digits_val_from(digit_val(dec_digit(n)) as int, Seq::<char>::empty()));
    } else {
        lemma_u64_dec_val(n / 10);
        lemma_dec_digit_val(n % 10);
        assert(u64_dec(n) =~= u64_dec(n / 10).push(dec_digit(n % 10)));
        lemma_dvf_snoc(0, u64_dec(n / 10), dec_digit(n % 10));
        assert(forall|k: int| 0 <= k < u64_dec(n).len() ==> is_digit(#[trigger] u64_dec(n)[k]))
            by {
            assert(forall|k: int| 0 <= k < u64_dec(n / 10).len() ==> u64_dec(n)[k] == u64_dec(
                n / 10,
            )[k]);
            assert(u64_dec(n).last() == dec_digit(n % 10));
        }
    }
}

/// A positive number renders with no leading zero.
proof fn lemma_u64_dec_first(n: nat)
    requires
        n >= 1,
    ensures
        u64_dec(n)[0] != '0',
    decreases n,
{
    if n < 10 {
        lemma_dec_digit_val(n);
    } else {
        lemma_u64_dec_first(n / 10);
        lemma_u64_dec_val(n / 10);
        assert(u64_dec(n)[0] == u64_dec(n / 10)[0]);
    }
}

/// Parsing a digit block that sits in `s` and is followed by a non-digit.
proof fn lemma_parse_digits_block(s: Seq<char>, i: int, acc: u64, ds: Seq<char>)
    requires
        0 <= i,
        i + ds.len() <= s.len(),
        s.subrange(i, i + ds.len()) == ds,
        forall|k: int| 0 <= k < ds.len() ==> is_digit(#[trigger] ds[k]),
        i + ds.len() == s.len() || !is_digit(s[i + ds.len()]),
        0 <= digits_val_from(acc as int, ds) <= u64::MAX,
    ensures
        parse_digits(s, i, acc) == Some(
            (digits_val_from(acc as int, ds) as u64, i + ds.len() as int),
        ),
    decreases ds.len(),
{
    if ds.len() == 0 {
    } else {
        assert(s[i] == ds[0]);
        let d = digit_val(ds[0]);
        let acc1 = acc * 10 + d;
        lemma_dvf_lower_bound(acc1 as int, ds.drop_first());
        assert(digits_val_from(acc as int, ds) == digits_val_from(acc1 as int, ds.drop_first()));
        assert(acc1 <= u64::MAX);
        assert(s.subrange(i + 1, i + ds.len()) =~= ds.drop_first());
        lemma_parse_digits_block(s, i + 1, acc1 as u64, ds.drop_first());
    }
}

/// Parsing the decimal rendering of `n`, when a non-digit follows it.
proof fn lemma_parse_u64_render(s: Seq<char>, i: int, n: u64)
    requires
        0 <= i,
        i + u64_dec(n as nat).len() <= s.len(),
        s.subrange(i, i + u64_dec(n as nat).len()) == u64_dec(n as nat),
        i + u64_dec(n as nat).len() == s.len() || !is_digit(s[i + u64_dec(n as nat).len()]),
    ensures
        parse_u64_at(s, i) == Some((n, i + u64_dec(n as nat).len() as int)),
{
    let ds = u64_dec(n as nat);
    lemma_u64_dec_val(n as nat);
    assert(s[i] == ds[0]);
    if n == 0 {
        assert(ds == seq![dec_digit(0)]);
        assert(s[i] == '0');
    } else {
        lemma_u64_dec_first(n as nat);
        assert(s[i] != '0');
        lemma_parse_digits_block(s, i, 0, ds);
    }
}

// ---------------------------------------------------------------------------
// Strings
// ---------------------------------------------------------------------------

/// A hexadecimal digit and its character correspond.
proof fn lemma_hex_digit_val(d: nat)
    requires
        d < 16,
    ensures
        hex_val_opt(hex_digit(d)) == Some(d),
{
}

/// Splits knowledge of a rendered region into its two parts.
proof fn lemma_sub_shift(s: Seq<char>, i: int, a: Seq<char>, b: Seq<char>)
    requires
        0 <= i,
        i + a.len() + b.len() <= s.len(),
        s.subrange(i, i + a.len() + b.len()) == a + b,
    ensures
        s.subrange(i, i + a.len()) == a,
        s.subrange(i + a.len(), i + a.len() + b.len()) == b,
{
    assert forall|k: int| 0 <= k < a.len() implies s.subrange(i, i + a.len() as int)[k]
        == a[k] by {
        assert(s.subrange(i, i + a.len() + b.len())[k] == (a + b)[k]);
    }
    assert(s.subrange(i, i + a.len() as int) =~= a);
    assert forall|k: int| 0 <= k < b.len() implies s.subrange(
        i + a.len(),
        i + a.len() + b.len(),
    )[k] == b[k] by {
        assert(s.subrange(i + a.len(), i + a.len() + b.len())[k] == s[i + a.len() + k]);
        assert(s.subrange(i, i + a.len() + b.len())[a.len() + k] == s[i + a.len() + k]);
        assert((a + b)[a.len() + k] == b[k]);
    }
    assert(s.subrange(i + a.len(), i + a.len() + b.len()) =~= b);
}

/// Parsing the escaped body of a string literal up to its closing quote
/// recovers exactly the text that was escaped.
proof fn lemma_parse_body_render(s: Seq<char>, i: int, t: Seq<char>)
    requires
        0 <= i,
        i + escape_string(t).len() + 1 <= s.len(),
        s.subrange(i, i + escape_string(t).len() + 1) == escape_string(t) + seq!['"'],
    ensures
        parse_str_body(s, i) == Some((t, i + escape_string(t).len() + 1)),
    decreases t.len(),
{
    let m = escape_string(t).len() as int;
    if t.len() == 0 {
        assert(escape_string(t) =~= Seq::<char>::empty());
        assert(s.subrange(i, i + 1)[0] == (escape_string(t) + seq!['"'])[0]);
        assert(s[i] == '"');
        assert(t =~= Seq::<char>::empty());
    } else {
        let c = t[0];
        let t1 = t.drop_first();
        let ec = escape_char(c);
        let m1 = escape_string(t1).len() as int;
        assert(escape_string(t) == ec + escape_string(t1));
        assert(escape_string(t) + seq!['"'] =~= ec + (escape_string(t1) + seq!['"']));
        lemma_sub_shift(s, i, ec, escape_string(t1) + seq!['"']);
        assert forall|k: int| 0 <= k < ec.len() implies s[i + k] == #[trigger] ec[k] by {
            assert(s.subrange(i, i + ec.len() as int)[k] == s[i + k]);
        }
        lemma_parse_body_render(s, i + ec.len(), t1);
        assert(seq![c] + t1 =~= t);
        let q = i + m + 1;
        if c == '"' {
            assert(s[i] == '\\' && s[i + 1] == '"');
            assert(parse_str_body(s, i) == cons_str('"', parse_str_body(s, i + 2)));
        } else if c == '\\' {
            assert(s[i] == '\\' && s[i + 1] == '\\');
            assert(parse_str_body(s, i) == cons_str('\\', parse_str_body(s, i + 2)));
        } else if c == '\u{8}' {
            assert(s[i] == '\\' && s[i + 1] == 'b');
            assert(parse_str_body(s, i) == cons_str('\u{8}', parse_str_body(s, i + 2)));
        } else if c == '\u{c}' {
            assert(s[i] == '\\' && s[i + 1] == 'f');
            assert(parse_str_body(s, i) == cons_str('\u{c}', parse_str_body(s, i + 2)));
        } else if c == '\n' {
            assert(s[i] == '\\' && s[i + 1] == 'n');
            assert(parse_str_body(s, i) == cons_str('\n', parse_str_body(s, i + 2)));
        } else if c == '\r' {
            assert(s[i] == '\\' && s[i + 1] == 'r');
            assert(parse_str_body(s, i) == cons_str('\r', parse_str_body(s, i + 2)));
        } else if c == '\t' {
            assert(s[i] == '\\' && s[i + 1] == 't');
            assert(parse_str_body(s, i) == cons_str('\t', parse_str_body(s, i + 2)));
        } else if (c as u32) < 0x20 {
            let cu = c as u32;
            assert(s[i] == '\\' && s[i + 1] == 'u' && s[i + 2] == '0' && s[i + 3] == '0'
                && s[i + 4] == hex_digit((cu / 16) as nat) && s[i + 5] == hex_digit(
                (cu % 16) as nat,
            ));
            lemma_hex_digit_val((cu / 16) as nat);
            lemma_hex_digit_val((cu % 16) as nat);
            vstd::arithmetic::div_mod::lemma_fundamental_div_mod(cu as int, 16);
            assert(parse_hex4(s, i + 2) == Some(cu));
            assert(valid_scalar(cu));
            crate::parse::lemma_scalar_char_of(c, cu);
            assert(parse_str_body(s, i) == cons_str(c, parse_str_body(s, i + 6)));
        } else {
            assert(s[i] == c);
            assert(parse_str_body(s, i) == cons_str(c, parse_str_body(s, i + 1)));
        }
    }
}

/// Parsing a whole rendered string literal.
proof fn lemma_parse_string_render(s: Seq<char>, i: int, t: Seq<char>)
    requires
        0 <= i,
        i + escape_string(t).len() + 2 <= s.len(),
        s.subrange(i, i + escape_string(t).len() + 2) == seq!['"'] + (escape_string(t)
            + seq!['"']),
    ensures
        parse_string(s, i) == Some((t, i + escape_string(t).len() + 2)),
{
    lemma_sub_shift(s, i, seq!['"'], escape_string(t) + seq!['"']);
    assert(s.subrange(i, i + 1)[0] == '"');
    assert(s[i] == '"');
    lemma_parse_body_render(s, i + 1, t);
}

// ---------------------------------------------------------------------------
// Objects
// ---------------------------------------------------------------------------

/// Turns a known rendered region into knowledge of its characters.
proof fn lemma_sub_index(s: Seq<char>, i: int, a: Seq<char>)
    requires
        0 <= i,
        i + a.len() <= s.len(),
        s.subrange(i, i + a.len()) == a,
    ensures
        forall|k: int| 0 <= k < a.len() ==> s[i + k] == #[trigger] a[k],
{
    assert forall|k: int| 0 <= k < a.len() implies s[i + k] == #[trigger] a[k] by {
        assert(s.subrange(i, i + a.len() as int)[k] == s[i + k]);
    }
}

/// Parsing a rendered node object.
#[verifier::rlimit(80)]
proof fn lemma_parse_node_obj_render(s: Seq<char>, i: int, nv: NodeView)
    requires
        0 <= i,
        i + render_node_obj(nv).len() <= s.len(),
        s.subrange(i, i + render_node_obj(nv).len()) == render_node_obj(nv),
    ensures
        parse_node_obj(s, i) == Some((nv, i + render_node_obj(nv).len())),
{
    let d = u64_dec(nv.id as nat);
    let e = escape_string(nv.name);
    let dl = d.len() as int;
    let el = e.len() as int;
    let rr = render_node_obj(nv);
    let ca = seq!['{', '\n', ' ', ' ', ' ', '"', 'i', 'd', '"', ':', ' '];
    let cb = seq![',', '\n', ' ', ' ', ' ', '"', 'n', 'a', 'm', 'e', '"', ':', ' ', '"'];
    let cc = seq!['"', '\n', ' ', ' ', '}'];
    let x3 = e + cc;
    let x2 = cb + x3;
    let x1 = d + x2;
    assert(rr =~= ca + x1);
    assert(rr.len() == 30 + dl + el);
    let p = i + 11 + dl;
    let q = p + 15 + el;
    assert(s.subrange(i, i + 11 + x1.len()) == ca + x1);
    lemma_sub_shift(s, i, ca, x1);
    lemma_sub_shift(s, i + 11, d, x2);
    lemma_sub_shift(s, p, cb, x3);
    lemma_sub_shift(s, p + 14, e, cc);
    lemma_sub_index(s, i, ca);
    lemma_sub_index(s, p, cb);
    lemma_sub_index(s, p + 14, e);
    lemma_sub_index(s, p + 14 + el, cc);
    // the fixed characters around the two members
    assert(s[i] == ca[0] && s[i + 1] == ca[1] && s[i + 2] == ca[2] && s[i + 3] == ca[3]
        && s[i + 4] == ca[4] && s[i + 5] == ca[5] && s[i + 6] == ca[6] && s[i + 7] == ca[7]
        && s[i + 8] == ca[8] && s[i + 9] == ca[9] && s[i + 10] == ca[10]);
    assert(s[p] == cb[0] && s[p + 1] == cb[1] && s[p + 2] == cb[2] && s[p + 3] == cb[3]
        && s[p + 4] == cb[4] && s[p + 5] == cb[5] && s[p + 6] == cb[6] && s[p + 7] == cb[7]
        && s[p + 8] == cb[8] && s[p + 9] == cb[9] && s[p + 10] == cb[10] && s[p + 11] == cb[11]
        && s[p + 12] == cb[12] && s[p + 13] == cb[13]);
    assert(s[q] == cc[1] && s[q + 1] == cc[2] && s[q + 2] == cc[3] && s[q + 3] == cc[4]);
    // the "id" key
    lemma_escape_plain(seq!['i', 'd']);
    assert(s.subrange(i + 5, i + 9) =~= seq!['"'] + (escape_string(seq!['i', 'd'])
        + seq!['"']));
    lemma_parse_string_render(s, i + 5, seq!['i', 'd']);
    // the id digits, delimited by the comma
    lemma_u64_dec_val(nv.id as nat);
    lemma_parse_u64_render(s, i + 11, nv.id);
    // the "name" key
    lemma_escape_plain(seq!['n', 'a', 'm', 'e']);
    assert(s.subrange(p + 5, p + 11) =~= seq!['"'] + (escape_string(seq!['n', 'a', 'm', 'e'])
        + seq!['"']));
    lemma_parse_string_render(s, p + 5, seq!['n', 'a', 'm', 'e']);
    // the name string
    assert(s.subrange(p + 13, p + 13 + el + 2) =~= seq!['"'] + (e + seq!['"']));
    lemma_parse_string_render(s, p + 13, nv.name);
    // whitespace steps
    lemma_skip_ws_exact(s, i + 1, i + 5);
    lemma_skip_ws_exact(s, i + 9, i + 9);
    lemma_skip_ws_exact(s, i + 10, i + 11);
    lemma_skip_ws_exact(s, p, p);
    lemma_skip_ws_exact(s, p + 1, p + 5);
    lemma_skip_ws_exact(s, p + 11, p + 11);
    lemma_skip_ws_exact(s, p + 12, p + 13);
    lemma_skip_ws_exact(s, q, q + 3);
    // the two members
    assert(seq!['i', 'd'] != seq!['n', 'a', 'm', 'e']);
    assert(parse_node_field(s, i + 5) == Some(
        (Some(nv.id), None::<Seq<char>>, p as int),
    ));
    assert(parse_node_field(s, p + 5) == Some((None::<u64>, Some(nv.name), q as int)));
    assert(parse_node_obj(s, i) == Some((nv, i + rr.len() as int)));
}

/// Parsing a rendered node key: the quoted decimal digits parse as a string
/// whose content denotes the key again.
proof fn lemma_parse_key_render(s: Seq<char>, i: int, key: u64)
    requires
        0 <= i,
        i + u64_dec(key as nat).len() + 2 <= s.len(),
        s.subrange(i, i + u64_dec(key as nat).len() + 2) == seq!['"'] + (u64_dec(key as nat)
            + seq!['"']),
    ensures
        parse_string(s, i) == Some((u64_dec(key as nat), i + u64_dec(key as nat).len() + 2)),
        key_to_u64(u64_dec(key as nat)) == Some(key),
{
    let d = u64_dec(key as nat);
    lemma_u64_dec_val(key as nat);
    assert forall|k: int|
        0 <= k < d.len() implies (#[trigger] d[k]) != '"' && d[k] != '\\' && (d[k] as u32)
        >= 0x20 by {
        assert(is_digit(d[k]));
    }
    lemma_escape_plain(d);
    lemma_parse_string_render(s, i, d);
    if key == 0 {
        lemma_dec_digit_val(0);
        assert(d == seq![dec_digit(0)]);
        assert(d[0] == '0' && d.len() == 1);
    } else {
        lemma_u64_dec_first(key as nat);
        assert(d.subrange(0, d.len() as int) =~= d);
        lemma_parse_digits_block(d, 0, 0, d);
    }
}

/// Parsing a rendered member of the `nodes` object.
#[verifier::rlimit(80)]
proof fn lemma_parse_node_entry_render(s: Seq<char>, i: int, key: u64, nv: NodeView)
    requires
        0 <= i,
        i + render_node_entry(key, nv).len() <= s.len(),
        s.subrange(i, i + render_node_entry(key, nv).len()) == render_node_entry(key, nv),
    ensures
        parse_node_entry(s, i) == Some(((key, nv), i + render_node_entry(key, nv).len())),
{
    let d = u64_dec(key as nat);
    let kl = d.len() as int;
    let ob = render_node_obj(nv);
    let rr = render_node_entry(key, nv);
    let cm = seq!['"', ':', ' '];
    assert(rr =~= (seq!['"'] + (d + seq!['"'])) + (seq![':', ' '] + ob));
    assert(rr.len() == kl + 4 + ob.len());
    assert(s.subrange(i, i + (kl + 2) + (2 + ob.len())) == (seq!['"'] + (d + seq!['"']))
        + (seq![':', ' '] + ob));
    lemma_sub_shift(s, i, seq!['"'] + (d + seq!['"']), seq![':', ' '] + ob);
    lemma_sub_shift(s, i + kl + 2, seq![':', ' '], ob);
    lemma_sub_index(s, i + kl + 2, seq![':', ' ']);
    lemma_sub_index(s, i + kl + 4, ob);
    assert(s[i + kl + 2] == seq![':', ' '][0] && s[i + kl + 3] == seq![':', ' '][1]);
    assert(s[i + kl + 4] == ob[0]);
    assert(ob[0] == '{') by {
        assert(ob =~= seq!['{', '\n', ' ', ' ', ' ', '"', 'i', 'd', '"', ':', ' '] + (u64_dec(
            nv.id as nat,
        ) + (seq![',', '\n', ' ', ' ', ' ', '"', 'n', 'a', 'm', 'e', '"', ':', ' ', '"']
            + (escape_string(nv.name) + seq!['"', '\n', ' ', ' ', '}']))));
    }
    lemma_parse_key_render(s, i, key);
    lemma_skip_ws_exact(s, i + kl + 2, i + kl + 2);
    lemma_skip_ws_exact(s, i + kl + 3, i + kl + 4);
    lemma_parse_node_obj_render(s, i + kl + 4, nv);
}

/// The text of a non-empty run of `nodes` members, read from the opening
/// quote of the first member up to and past the object's closing brace.
spec fn entries_from_quote(ns: Seq<(u64, NodeView)>) -> Seq<char>
    decreases ns.len(),
{
    if ns.len() == 0 {
        Seq::empty()
    } else {
        render_node_entry(ns[0].0, ns[0].1) + (if ns.len() > 1 {
            seq![',', '\n', ' ', ' '] + entries_from_quote(ns.drop_first())
        } else {
            seq!['\n', ' ', '}']
        })
    }
}

/// The two phrasings of the `nodes` members agree.
proof fn lemma_entries_bridge(ns: Seq<(u64, NodeView)>)
    requires
        ns.len() >= 1,
    ensures
        render_node_entries(ns) + seq!['\n', ' ', '}'] == seq!['\n', ' ', ' ']
            + entries_from_quote(ns),
    decreases ns.len(),
{
    if ns.len() == 1 {
        assert(render_node_entries(ns) + seq!['\n', ' ', '}'] =~= seq!['\n', ' ', ' ']
            + entries_from_quote(ns));
    } else {
        let rest = ns.drop_first();
        let en = render_node_entry(ns[0].0, ns[0].1);
        lemma_entries_bridge(rest);
        assert(render_node_entries(ns) + seq!['\n', ' ', '}'] =~= (seq!['\n', ' ', ' '] + en)
            + (seq![','] + (render_node_entries(rest) + seq!['\n', ' ', '}'])));
        assert((seq!['\n', ' ', ' '] + en) + (seq![','] + (seq!['\n', ' ', ' ']
            + entries_from_quote(rest))) =~= seq!['\n', ' ', ' '] + (en + (seq![
            ',',
            '\n',
            ' ',
            ' ',
        ] + entries_from_quote(rest))));
        assert(render_node_entries(ns) + seq!['\n', ' ', '}'] =~= seq!['\n', ' ', ' ']
            + entries_from_quote(ns));
    }
}

/// Parsing a non-empty run of `nodes` members.
#[verifier::rlimit(80)]
proof fn lemma_parse_node_entries_render(s: Seq<char>, i: int, ns: Seq<(u64, NodeView)>, fuel: nat)
    requires
        0 <= i,
        ns.len() >= 1,
        fuel > s.len() - i,
        i + entries_from_quote(ns).len() <= s.len(),
        s.subrange(i, i + entries_from_quote(ns).len()) == entries_from_quote(ns),
    ensures
        parse_node_entries(s, i, fuel) == Some((ns, i + entries_from_quote(ns).len())),
    decreases ns.len(),
{
    let en = render_node_entry(ns[0].0, ns[0].1);
    let el = en.len() as int;
    let q = entries_from_quote(ns);
    if ns.len() == 1 {
        assert(q == en + seq!['\n', ' ', '}']);
        lemma_sub_shift(s, i, en, seq!['\n', ' ', '}']);
        lemma_sub_index(s, i + el, seq!['\n', ' ', '}']);
        assert(s[i + el] == seq!['\n', ' ', '}'][0] && s[i + el + 1] == seq!['\n', ' ', '}'][1]
            && s[i + el + 2] == seq!['\n', ' ', '}'][2]);
        lemma_parse_node_entry_render(s, i, ns[0].0, ns[0].1);
        lemma_skip_ws_exact(s, i + el, i + el + 2);
        assert(seq![(ns[0].0, ns[0].1)] =~= ns);
        assert(parse_node_entries(s, i, fuel) == Some((ns, i + q.len() as int)));
    } else {
        let rest = ns.drop_first();
        let sep = seq![',', '\n', ' ', ' '];
        assert(q == en + (sep + entries_from_quote(rest)));
        lemma_sub_shift(s, i, en, sep + entries_from_quote(rest));
        lemma_sub_shift(s, i + el, sep, entries_from_quote(rest));
        lemma_sub_index(s, i + el, sep);
        assert(s[i + el] == sep[0] && s[i + el + 1] == sep[1] && s[i + el + 2] == sep[2]
            && s[i + el + 3] == sep[3]);
        lemma_parse_node_entry_render(s, i, ns[0].0, ns[0].1);
        lemma_skip_ws_exact(s, i + el, i + el);
        let r0 = entries_from_quote(rest);
        assert(r0.len() >= 1) by {
            assert(r0 == render_node_entry(rest[0].0, rest[0].1) + (if rest.len() > 1 {
                seq![',', '\n', ' ', ' '] + entries_from_quote(rest.drop_first())
            } else {
                seq!['\n', ' ', '}']
            }));
        }
        assert(s[i + el + 4] == r0[0]) by {
            assert(s.subrange(i + el + 4, i + el + 4 + r0.len())[0] == s[i + el + 4]);
        }
        assert(r0[0] == '"') by {
            assert(render_node_entry(rest[0].0, rest[0].1) =~= seq!['"'] + (u64_dec(
                rest[0].0 as nat,
            ) + (seq!['"', ':', ' '] + render_node_obj(rest[0].1))));
        }
        lemma_skip_ws_exact(s, i + el + 1, i + el + 4);
        lemma_parse_node_entries_render(s, i + el + 4, rest, (fuel - 1) as nat);
        assert(seq![(ns[0].0, ns[0].1)] + rest =~= ns);
        assert(parse_node_entries(s, i, fuel) == Some((ns, i + q.len() as int)));
    }
}

/// Parsing a rendered `nodes` object, empty or not.
#[verifier::rlimit(80)]
proof fn lemma_parse_nodes_value_render(s: Seq<char>, h: int, ns: Seq<(u64, NodeView)>, fuel: nat)
    requires
        0 <= h,
        fuel > s.len() - h,
        h + render_nodes(ns).len() <= s.len(),
        s.subrange(h, h + render_nodes(ns).len()) == render_nodes(ns),
    ensures
        parse_nodes_value(s, h, fuel) == Some((ns, h + render_nodes(ns).len())),
{
    if ns.len() == 0 {
        lemma_sub_index(s, h, seq!['{', '}']);
        assert(s[h] == seq!['{', '}'][0] && s[h + 1] == seq!['{', '}'][1]);
        lemma_skip_ws_exact(s, h + 1, h + 1);
        assert(parse_nodes_value(s, h, fuel) == Some(
            (Seq::<(u64, NodeView)>::empty(), h + 2),
        ));
        assert(ns =~= Seq::<(u64, NodeView)>::empty());
    } else {
        lemma_entries_bridge(ns);
        let q = entries_from_quote(ns);
        assert(render_nodes(ns) =~= seq!['{'] + (render_node_entries(ns) + seq!['\n', ' ', '}']));
        assert(seq!['{'] + (seq!['\n', ' ', ' '] + q) =~= seq!['{', '\n', ' ', ' '] + q);
        assert(render_nodes(ns) == seq!['{', '\n', ' ', ' '] + q);
        assert(s.subrange(h, h + 4 + q.len()) == seq!['{', '\n', ' ', ' '] + q);
        lemma_sub_shift(s, h, seq!['{', '\n', ' ', ' '], q);
        lemma_sub_index(s, h, seq!['{', '\n', ' ', ' ']);
        assert(s[h] == seq!['{', '\n', ' ', ' '][0] && s[h + 1] == seq!['{', '\n', ' ', ' '][1]
            && s[h + 2] == seq!['{', '\n', ' ', ' '][2] && s[h + 3] == seq!['{', '\n', ' ', ' '][3]);
        assert(q.len() >= 1);
        assert(s[h + 4] == q[0]) by {
            assert(s.subrange(h + 4, h + 4 + q.len())[0] == s[h + 4]);
        }
        assert(q[0] == '"') by {
            assert(render_node_entry(ns[0].0, ns[0].1) =~= seq!['"'] + (u64_dec(ns[0].0 as nat)
                + (seq!['"', ':', ' '] + render_node_obj(ns[0].1))));
        }
        lemma_skip_ws_exact(s, h + 1, h + 4);
        lemma_parse_node_entries_render(s, h + 4, ns, fuel);
    }
}

/// Parsing a rendered edge object.
#[verifier::rlimit(80)]
proof fn lemma_parse_edge_obj_render(s: Seq<char>, i: int, ev: EdgeView)
    requires
        0 <= i,
        i + render_edge_obj(ev).len() <= s.len(),
        s.subrange(i, i + render_edge_obj(ev).len()) == render_edge_obj(ev),
    ensures
        parse_edge_obj(s, i) == Some((ev, i + render_edge_obj(ev).len())),
{
    let df = u64_dec(ev.from as nat);
    let dt = u64_dec(ev.to as nat);
    let e = escape_string(ev.kind);
    let fl = df.len() as int;
    let tl = dt.len() as int;
    let el = e.len() as int;
    let rr = render_edge_obj(ev);
    let ca = seq!['{', '\n', ' ', ' ', ' ', '"', 'f', 'r', 'o', 'm', '"', ':', ' '];
    let cb = seq![',', '\n', ' ', ' ', ' ', '"', 't', 'o', '"', ':', ' '];
    let cc = seq![',', '\n', ' ', ' ', ' ', '"', 'k', 'i', 'n', 'd', '"', ':', ' ', '"'];
    let cd = seq!['"', '\n', ' ', ' ', '}'];
    let x5 = e + cd;
    let x4 = cc + x5;
    let x3 = dt + x4;
    let x2 = cb + x3;
    let x1 = df + x2;
    assert(rr =~= ca + x1);
    assert(rr.len() == 43 + fl + tl + el);
    let p = i + 13 + fl;
    let r = p + 11 + tl;
    let q = r + 15 + el;
    assert(s.subrange(i, i + 13 + x1.len()) == ca + x1);
    lemma_sub_shift(s, i, ca, x1);
    lemma_sub_shift(s, i + 13, df, x2);
    lemma_sub_shift(s, p, cb, x3);
    lemma_sub_shift(s, p + 11, dt, x4);
    lemma_sub_shift(s, r, cc, x5);
    lemma_sub_shift(s, r + 14, e, cd);
    lemma_sub_index(s, i, ca);
    lemma_sub_index(s, p, cb);
    lemma_sub_index(s, r, cc);
    lemma_sub_index(s, r + 14, e);
    lemma_sub_index(s, r + 14 + el, cd);
    assert(s[i] == ca[0] && s[i + 1] == ca[1] && s[i + 2] == ca[2] && s[i + 3] == ca[3]
        && s[i + 4] == ca[4] && s[i + 5] == ca[5] && s[i + 6] == ca[6] && s[i + 7] == ca[7]
        && s[i + 8] == ca[8] && s[i + 9] == ca[9] && s[i + 10] == ca[10] && s[i + 11] == ca[11]
        && s[i + 12] == ca[12]);
    assert(s[p] == cb[0] && s[p + 1] == cb[1] && s[p + 2] == cb[2] && s[p + 3] == cb[3]
        && s[p + 4] == cb[4] && s[p + 5] == cb[5] && s[p + 6] == cb[6] && s[p + 7] == cb[7]
        && s[p + 8] == cb[8] && s[p + 9] == cb[9] && s[p + 10] == cb[10]);
    assert(s[r] == cc[0] && s[r + 1] == cc[1] && s[r + 2] == cc[2] && s[r + 3] == cc[3]
        && s[r + 4] == cc[4] && s[r + 5] == cc[5] && s[r + 6] == cc[6] && s[r + 7] == cc[7]
        && s[r + 8] == cc[8] && s[r + 9] == cc[9] && s[r + 10] == cc[10] && s[r + 11] == cc[11]
        && s[r + 12] == cc[12] && s[r + 13] == cc[13]);
    assert(s[q] == cd[1] && s[q + 1] == cd[2] && s[q + 2] == cd[3] && s[q + 3] == cd[4]);
    // the three keys
    lemma_escape_plain(seq!['f', 'r', 'o', 'm']);
    assert(s.subrange(i + 5, i + 11) =~= seq!['"'] + (escape_string(seq!['f', 'r', 'o', 'm'])
        + seq!['"']));
    lemma_parse_string_render(s, i + 5, seq!['f', 'r', 'o', 'm']);
    lemma_escape_plain(seq!['t', 'o']);
    assert(s.subrange(p + 5, p + 9) =~= seq!['"'] + (escape_string(seq!['t', 'o'])
        + seq!['"']));
    lemma_parse_string_render(s, p + 5, seq!['t', 'o']);
    lemma_escape_plain(seq!['k', 'i', 'n', 'd']);
    assert(s.subrange(r + 5, r + 11) =~= seq!['"'] + (escape_string(seq!['k', 'i', 'n', 'd'])
        + seq!['"']));
    lemma_parse_string_render(s, r + 5, seq!['k', 'i', 'n', 'd']);
    // the two numbers and the kind string
    lemma_u64_dec_val(ev.from as nat);
    lemma_u64_dec_val(ev.to as nat);
    lemma_parse_u64_render(s, i + 13, ev.from);
    lemma_parse_u64_render(s, p + 11, ev.to);
    assert(s.subrange(r + 13, r + 13 + el + 2) =~= seq!['"'] + (e + seq!['"']));
    lemma_parse_string_render(s, r + 13, ev.kind);
    // whitespace steps
    lemma_skip_ws_exact(s, i + 1, i + 5);
    lemma_skip_ws_exact(s, i + 11, i + 11);
    lemma_skip_ws_exact(s, i + 12, i + 13);
    lemma_skip_ws_exact(s, p, p);
    lemma_skip_ws_exact(s, p + 1, p + 5);
    lemma_skip_ws_exact(s, p + 9, p + 9);
    lemma_skip_ws_exact(s, p + 10, p + 11);
    lemma_skip_ws_exact(s, r, r);
    lemma_skip_ws_exact(s, r + 1, r + 5);
    lemma_skip_ws_exact(s, r + 11, r + 11);
    lemma_skip_ws_exact(s, r + 12, r + 13);
    lemma_skip_ws_exact(s, q, q + 3);
    // the three members
    assert(seq!['f', 'r', 'o', 'm'] != seq!['t', 'o'] && seq!['f', 'r', 'o', 'm']
        != seq!['k', 'i', 'n', 'd'] && seq!['t', 'o'] != seq!['k', 'i', 'n', 'd']);
    assert(parse_edge_field(s, i + 5) == Some(
        (Some(ev.from), None::<u64>, None::<Seq<char>>, p as int),
    ));
    assert(parse_edge_field(s, p + 5) == Some(
        (None::<u64>, Some(ev.to), None::<Seq<char>>, r as int),
    ));
    assert(parse_edge_field(s, r + 5) == Some(
        (None::<u64>, None::<u64>, Some(ev.kind), q as int),
    ));
    assert(parse_edge_obj(s, i) == Some((ev, i + rr.len() as int)));
}

/// The text of a non-empty run of `edges` elements, read from the opening
/// brace of the first element up to and past the array's closing bracket.
spec fn elems_from_brace(es: Seq<EdgeView>) -> Seq<char>
    decreases es.len(),
{
    if es.len() == 0 {
        Seq::empty()
    } else {
        render_edge_obj(es[0]) + (if es.len() > 1 {
            seq![',', '\n', ' ', ' '] + elems_from_brace(es.drop_first())
        } else {
            seq!['\n', ' ', ']']
        })
    }
}

/// The two phrasings of the `edges` elements agree.
proof fn lemma_elems_bridge(es: Seq<EdgeView>)
    requires
        es.len() >= 1,
    ensures
        render_edge_elems(es) + seq!['\n', ' ', ']'] == seq!['\n', ' ', ' '] + elems_from_brace(
            es,
        ),
    decreases es.len(),
{
    if es.len() == 1 {
        assert(render_edge_elems(es) + seq!['\n', ' ', ']'] =~= seq!['\n', ' ', ' ']
            + elems_from_brace(es));
    } else {
        let rest = es.drop_first();
        let en = render_edge_obj(es[0]);
        lemma_elems_bridge(rest);
        assert(render_edge_elems(es) + seq!['\n', ' ', ']'] =~= (seq!['\n', ' ', ' '] + en)
            + (seq![','] + (render_edge_elems(rest) + seq!['\n', ' ', ']'])));
        assert((seq!['\n', ' ', ' '] + en) + (seq![','] + (seq!['\n', ' ', ' ']
            + elems_from_brace(rest))) =~= seq!['\n', ' ', ' '] + (en + (seq![
            ',',
            '\n',
            ' ',
            ' ',
        ] + elems_from_brace(rest))));
        assert(render_edge_elems(es) + seq!['\n', ' ', ']'] =~= seq!['\n', ' ', ' ']
            + elems_from_brace(es));
    }
}

/// Parsing a non-empty run of `edges` elements.
#[verifier::rlimit(80)]
proof fn lemma_parse_edge_elems_render(s: Seq<char>, i: int, es: Seq<EdgeView>, fuel: nat)
    requires
        0 <= i,
        es.len() >= 1,
        fuel > s.len() - i,
        i + elems_from_brace(es).len() <= s.len(),
        s.subrange(i, i + elems_from_brace(es).len()) == elems_from_brace(es),
    ensures
        parse_edge_elems(s, i, fuel) == Some((es, i + elems_from_brace(es).len())),
    decreases es.len(),
{
    let en = render_edge_obj(es[0]);
    let el = en.len() as int;
    let q = elems_from_brace(es);
    if es.len() == 1 {
        assert(q == en + seq!['\n', ' ', ']']);
        lemma_sub_shift(s, i, en, seq!['\n', ' ', ']']);
        lemma_sub_index(s, i + el, seq!['\n', ' ', ']']);
        assert(s[i + el] == seq!['\n', ' ', ']'][0] && s[i + el + 1] == seq!['\n', ' ', ']'][1]
            && s[i + el + 2] == seq!['\n', ' ', ']'][2]);
        lemma_parse_edge_obj_render(s, i, es[0]);
        lemma_skip_ws_exact(s, i + el, i + el + 2);
        assert(seq![es[0]] =~= es);
        assert(parse_edge_elems(s, i, fuel) == Some((es, i + q.len() as int)));
    } else {
        let rest = es.drop_first();
        let sep = seq![',', '\n', ' ', ' '];
        assert(q == en + (sep + elems_from_brace(rest)));
        lemma_sub_shift(s, i, en, sep + elems_from_brace(rest));
        lemma_sub_shift(s, i + el, sep, elems_from_brace(rest));
        lemma_sub_index(s, i + el, sep);
        assert(s[i + el] == sep[0] && s[i + el + 1] == sep[1] && s[i + el + 2] == sep[2]
            && s[i + el + 3] == sep[3]);
        lemma_parse_edge_obj_render(s, i, es[0]);
        lemma_skip_ws_exact(s, i + el, i + el);
        let r0 = elems_from_brace(rest);
        assert(r0.len() >= 1) by {
            assert(r0 == render_edge_obj(rest[0]) + (if rest.len() > 1 {
                seq![',', '\n', ' ', ' '] + elems_from_brace(rest.drop_first())
            } else {
                seq!['\n', ' ', ']']
            }));
        }
        assert(s[i + el + 4] == r0[0]) by {
            assert(s.subrange(i + el + 4, i + el + 4 + r0.len())[0] == s[i + el + 4]);
        }
        assert(r0[0] == '{') by {
            assert(render_edge_obj(rest[0]) =~= seq![
                '{',
                '\n',
                ' ',
                ' ',
                ' ',
                '"',
                'f',
                'r',
                'o',
                'm',
                '"',
                ':',
                ' ',
            ] + (u64_dec(rest[0].from as nat) + (seq![
                ',',
                '\n',
                ' ',
                ' ',
                ' ',
                '"',
                't',
                'o',
                '"',
                ':',
                ' ',
            ] + (u64_dec(rest[0].to as nat) + (seq![
                ',',
                '\n',
                ' ',
                ' ',
                ' ',
                '"',
                'k',
                'i',
                'n',
                'd',
                '"',
                ':',
                ' ',
                '"',
            ] + (escape_string(rest[0].kind) + seq!['"', '\n', ' ', ' ', '}']))))));
        }
        lemma_skip_ws_exact(s, i + el + 1, i + el + 4);
        lemma_parse_edge_elems_render(s, i + el + 4, rest, (fuel - 1) as nat);
        assert(seq![es[0]] + rest =~= es);
        assert(parse_edge_elems(s, i, fuel) == Some((es, i + q.len() as int)));
    }
}

/// Parsing a rendered `edges` array, empty or not.
#[verifier::rlimit(80)]
proof fn lemma_parse_edges_value_render(s: Seq<char>, h: int, es: Seq<EdgeView>, fuel: nat)
    requires
        0 <= h,
        fuel > s.len() - h,
        h + render_edges(es).len() <= s.len(),
        s.subrange(h, h + render_edges(es).len()) == render_edges(es),
    ensures
        parse_edges_value(s, h, fuel) == Some((es, h + render_edges(es).len())),
{
    if es.len() == 0 {
        lemma_sub_index(s, h, seq!['[', ']']);
        assert(s[h] == seq!['[', ']'][0] && s[h + 1] == seq!['[', ']'][1]);
        lemma_skip_ws_exact(s, h + 1, h + 1);
        assert(parse_edges_value(s, h, fuel) == Some((Seq::<EdgeView>::empty(), h + 2)));
        assert(es =~= Seq::<EdgeView>::empty());
    } else {
        lemma_elems_bridge(es);
        let q = elems_from_brace(es);
        assert(render_edges(es) =~= seq!['['] + (render_edge_elems(es) + seq!['\n', ' ', ']']));
        assert(seq!['['] + (seq!['\n', ' ', ' '] + q) =~= seq!['[', '\n', ' ', ' '] + q);
        assert(render_edges(es) == seq!['[', '\n', ' ', ' '] + q);
        assert(s.subrange(h, h + 4 + q.len()) == seq!['[', '\n', ' ', ' '] + q);
        lemma_sub_shift(s, h, seq!['[', '\n', ' ', ' '], q);
        lemma_sub_index(s, h, seq!['[', '\n', ' ', ' ']);
        assert(s[h] == seq!['[', '\n', ' ', ' '][0] && s[h + 1] == seq!['[', '\n', ' ', ' '][1]
            && s[h + 2] == seq!['[', '\n', ' ', ' '][2] && s[h + 3] == seq!['[', '\n', ' ', ' '][3]);
        assert(q.len() >= 1);
        assert(s[h + 4] == q[0]) by {
            assert(s.subrange(h + 4, h + 4 + q.len())[0] == s[h + 4]);
        }
        assert(q[0] == '{') by {
            assert(render_edge_obj(es[0]) =~= seq![
                '{',
                '\n',
                ' ',
                ' ',
                ' ',
                '"',
                'f',
                'r',
                'o',
                'm',
                '"',
                ':',
                ' ',
            ] + (u64_dec(es[0].from as nat) + (seq![',', '\n', ' ', ' ', ' ', '"', 't', 'o', '"', ':', ' ']
                + (u64_dec(es[0].to as nat) + (seq![
                ',',
                '\n',
                ' ',
                ' ',
                ' ',
                '"',
                'k',
                'i',
                'n',
                'd',
                '"',
                ':',
                ' ',
                '"',
            ] + (escape_string(es[0].kind) + seq!['"', '\n', ' ', ' ', '}']))))));
        }
        lemma_skip_ws_exact(s, h + 1, h + 4);
        lemma_parse_edge_elems_render(s, h + 4, es, fuel);
    }
}

/// Texts with no quoting or control character escape to themselves.
proof fn lemma_escape_plain(t: Seq<char>)
    requires
        forall|k: int|
            0 <= k < t.len() ==> (#[trigger] t[k]) != '"' && t[k] != '\\' && (t[k] as u32)
                >= 0x20,
    ensures
        escape_string(t) == t,
    decreases t.len(),
{
    if t.len() > 0 {
        assert(escape_char(t[0]) == seq![t[0]]);
        lemma_escape_plain(t.drop_first());
        assert(escape_string(t) =~= t);
    }
}

// ---------------------------------------------------------------------------
// The round trip
// ---------------------------------------------------------------------------
/// Parsing the rendered `"nodes"` member, from its key's opening quote.
#[verifier::rlimit(80)]
proof fn lemma_parse_member_nodes(s: Seq<char>, i: int, ns: Seq<(u64, NodeView)>, fuel: nat)
    requires
        0 <= i,
        fuel > s.len() - i,
        i + 9 + render_nodes(ns).len() <= s.len(),
        s.subrange(i, i + 9 + render_nodes(ns).len()) == seq!['"', 'n', 'o', 'd', 'e', 's', '"', ':', ' ']
            + render_nodes(ns),
    ensures
        parse_top_member(s, i, fuel) == Some(
            (Some(ns), None::<Seq<EdgeView>>, i + 9 + render_nodes(ns).len()),
        ),
{
    let lit = seq!['"', 'n', 'o', 'd', 'e', 's', '"', ':', ' '];
    let rn = render_nodes(ns);
    lemma_sub_shift(s, i, lit, rn);
    lemma_sub_index(s, i, lit);
    assert(s[i] == lit[0] && s[i + 1] == lit[1] && s[i + 2] == lit[2] && s[i + 3] == lit[3]
        && s[i + 4] == lit[4] && s[i + 5] == lit[5] && s[i + 6] == lit[6] && s[i + 7] == lit[7]
        && s[i + 8] == lit[8]);
    assert(s[i + 9] == rn[0]) by {
        assert(s.subrange(i + 9, i + 9 + rn.len() as int)[0] == s[i + 9]);
    }
    assert(rn[0] == '{') by {
        if ns.len() > 0 {
            assert(rn == seq!['{'] + render_node_entries(ns) + seq!['\n', ' ', '}']);
        }
    }
    lemma_escape_plain(seq!['n', 'o', 'd', 'e', 's']);
    assert(s.subrange(i, i + 7) =~= seq!['"'] + (escape_string(seq!['n', 'o', 'd', 'e', 's'])
        + seq!['"']));
    lemma_parse_string_render(s, i, seq!['n', 'o', 'd', 'e', 's']);
    lemma_skip_ws_exact(s, i + 7, i + 7);
    lemma_skip_ws_exact(s, i + 8, i + 9);
    lemma_parse_nodes_value_render(s, i + 9, ns, fuel);
}

/// Parsing the rendered `"edges"` member, from its key's opening quote.
#[verifier::rlimit(80)]
proof fn lemma_parse_member_edges(s: Seq<char>, i: int, es: Seq<EdgeView>, fuel: nat)
    requires
        0 <= i,
        fuel > s.len() - i,
        i + 9 + render_edges(es).len() <= s.len(),
        s.subrange(i, i + 9 + render_edges(es).len()) == seq!['"', 'e', 'd', 'g', 'e', 's', '"', ':', ' ']
            + render_edges(es),
    ensures
        parse_top_member(s, i, fuel) == Some(
            (None::<Seq<(u64, NodeView)>>, Some(es), i + 9 + render_edges(es).len()),
        ),
{
    let lit = seq!['"', 'e', 'd', 'g', 'e', 's', '"', ':', ' '];
    let re = render_edges(es);
    lemma_sub_shift(s, i, lit, re);
    lemma_sub_index(s, i, lit);
    assert(s[i] == lit[0] && s[i + 1] == lit[1] && s[i + 2] == lit[2] && s[i + 3] == lit[3]
        && s[i + 4] == lit[4] && s[i + 5] == lit[5] && s[i + 6] == lit[6] && s[i + 7] == lit[7]
        && s[i + 8] == lit[8]);
    assert(s[i + 9] == re[0]) by {
        assert(s.subrange(i + 9, i + 9 + re.len() as int)[0] == s[i + 9]);
    }
    assert(re[0] == '[') by {
        if es.len() > 0 {
            assert(re == seq!['['] + render_edge_elems(es) + seq!['\n', ' ', ']']);
        }
    }
    lemma_escape_plain(seq!['e', 'd', 'g', 'e', 's']);
    assert(seq!['n', 'o', 'd', 'e', 's'] != seq!['e', 'd', 'g', 'e', 's']);
    assert(s.subrange(i, i + 7) =~= seq!['"'] + (escape_string(seq!['e', 'd', 'g', 'e', 's'])
        + seq!['"']));
    lemma_parse_string_render(s, i, seq!['e', 'd', 'g', 'e', 's']);
    lemma_skip_ws_exact(s, i + 7, i + 7);
    lemma_skip_ws_exact(s, i + 8, i + 9);
    lemma_parse_edges_value_render(s, i + 9, es, fuel);
}
/// Assembles the whole-document walk from the facts about its pieces.
#[verifier::rlimit(80)]
proof fn lemma_assemble_document(
    s: Seq<char>,
    m1: int,
    m2: int,
    ns: Seq<(u64, NodeView)>,
    es: Seq<EdgeView>,
)
    requires
        keys_unique(ns),
        0 < s.len(),
        skip_ws(s, 0) == 0,
        s[0] == '{',
        skip_ws(s, 1) == 3,
        3 < s.len(),
        s[3] != '}',
        parse_top_member(s, 3, (s.len() + 1) as nat) == Some(
            (Some(ns), None::<Seq<EdgeView>>, m1),
        ),
        3 < m1 < s.len(),
        skip_ws(s, m1) == m1,
        s[m1] == ',',
        skip_ws(s, m1 + 1) == m1 + 3,
        m1 + 3 < s.len(),
        parse_top_member(s, m1 + 3, (s.len() + 1 - 1) as nat) == Some(
            (None::<Seq<(u64, NodeView)>>, Some(es), m2),
        ),
        m1 + 3 < m2,
        m2 + 1 < s.len(),
        skip_ws(s, m2) == m2 + 1,
        s[m2 + 1] == '}',
        m2 + 2 == s.len(),
        skip_ws(s, m2 + 2) == s.len(),
    ensures
        parse_graph(s) == Some((GraphView { nodes: ns, edges: es })),
{
    let fuel = (s.len() + 1) as nat;
    assert(parse_top_members(s, m1 + 3, (fuel - 1) as nat) == Some(
        (None::<Seq<(u64, NodeView)>>, Some(es), m2 + 2),
    ));
    assert(parse_top_members(s, 3, fuel) == Some((Some(ns), Some(es), m2 + 2)));
}

/// Splits the rendered document into its fixed punctuation and two members.
#[verifier::rlimit(80)]
proof fn lemma_graph_split(g: GraphView)
    ensures
        ({
            let s = render_graph(g);
            let rn = render_nodes(g.nodes);
            let re = render_edges(g.edges);
            let m1 = 12 + rn.len() as int;
            let m2 = m1 + 12 + re.len() as int;
            &&& s.len() == m2 + 2
            &&& s[0] == '{' && s[1] == '\n' && s[2] == ' '
            &&& s.subrange(3, m1) == seq!['"', 'n', 'o', 'd', 'e', 's', '"', ':', ' '] + rn
            &&& s[3] == '"'
            &&& s[m1] == ',' && s[m1 + 1] == '\n' && s[m1 + 2] == ' '
            &&& s.subrange(m1 + 3, m2) == seq!['"', 'e', 'd', 'g', 'e', 's', '"', ':', ' ']
                + re
            &&& s[m1 + 3] == '"'
            &&& s[m2] == '\n' && s[m2 + 1] == '}'
        }),
{
    let s = render_graph(g);
    let rn = render_nodes(g.nodes);
    let re = render_edges(g.edges);
    let ln = seq!['"', 'n', 'o', 'd', 'e', 's', '"', ':', ' '];
    let le = seq!['"', 'e', 'd', 'g', 'e', 's', '"', ':', ' '];
    let op = seq!['{', '\n', ' '];
    let sp = seq![',', '\n', ' '];
    let gc = seq!['\n', '}'];
    let segn = ln + rn;
    let sege = le + re;
    let m1 = 12 + rn.len() as int;
    let m2 = m1 + 12 + re.len() as int;
    assert(s =~= op + (segn + (sp + (sege + gc))));
    assert(s.subrange(0, s.len() as int) =~= s);
    assert(s.subrange(0, 3 + (segn + (sp + (sege + gc))).len() as int) == op + (segn + (sp
        + (sege + gc))));
    lemma_sub_shift(s, 0, op, segn + (sp + (sege + gc)));
    lemma_sub_shift(s, 3, segn, sp + (sege + gc));
    lemma_sub_shift(s, m1, sp, sege + gc);
    lemma_sub_shift(s, m1 + 3, sege, gc);
    lemma_sub_index(s, 0, op);
    lemma_sub_index(s, m1, sp);
    lemma_sub_index(s, m2, gc);
    assert(s[0] == op[0] && s[1] == op[1] && s[2] == op[2]);
    assert(s[m1] == sp[0] && s[m1 + 1] == sp[1] && s[m1 + 2] == sp[2]);
    assert(s[m2] == gc[0] && s[m2 + 1] == gc[1]);
    assert(s[3] == segn[0]) by {
        assert(s.subrange(3, 3 + segn.len() as int)[0] == s[3]);
    }
    assert(segn[0] == ln[0]);
    assert(s[m1 + 3] == sege[0]) by {
        assert(s.subrange(m1 + 3, m1 + 3 + sege.len() as int)[0] == s[m1 + 3]);
    }
    assert(sege[0] == le[0]);
}

/// Round-trip idempotence: the reader accepts every document the writer
/// produces for a well-formed graph, and the document denotes exactly the
/// graph that was written — the same node keys and names, the same edges in
/// the same order. With the store's contracts this carries over to a save
/// followed by a load of the written file.
#[verifier::rlimit(100)]
pub proof fn lemma_render_parse_round_trip(g: GraphView)
    requires
        g.wf(),
    ensures
        parse_graph(render_graph(g)) == Some(g),
{
    let s = render_graph(g);
    let rn = render_nodes(g.nodes);
    let re = render_edges(g.edges);
    let m1 = 12 + rn.len() as int;
    let m2 = m1 + 12 + re.len() as int;
    lemma_graph_split(g);
    lemma_skip_ws_exact(s, 0, 0);
    lemma_skip_ws_exact(s, 1, 3);
    lemma_skip_ws_exact(s, m1, m1);
    lemma_skip_ws_exact(s, m1 + 1, m1 + 3);
    lemma_skip_ws_exact(s, m2, m2 + 1);
    lemma_skip_ws_exact(s, s.len() as int, s.len() as int);
    let fuel = (s.len() + 1) as nat;
    lemma_parse_member_nodes(s, 3, g.nodes, fuel);
    lemma_parse_member_edges(s, m1 + 3, g.edges, (fuel - 1) as nat);
    lemma_assemble_document(s, m1, m2, g.nodes, g.edges);
    assert(g == (GraphView { nodes: g.nodes, edges: g.edges }));
}

} // verus!
