//! Reading back a serialized canvas document.
//!
//! A small JSON reader, specified here and proved against the serializer:
//! parsing the text that `spec_canvas_json` renders recovers exactly the
//! node count and the edge count of the document that was written. The reader
//! follows JSON's quoting rules — it walks over string values, honouring
//! escape sequences, and counts the objects of each top-level array.

use vstd::prelude::*;
use crate::canvas::{CanvasView, CanvasEdge, NodeView};
use crate::paths::is_char_prefix;
use crate::ids::spec_hex_digit;
use crate::json::{
    spec_escape, spec_escape_char, spec_json_string, spec_dec, spec_dec_digits, spec_node_json,
    spec_nodes_json, spec_edges_json, spec_canvas_json,
};

verus! {

/// Walk over the remainder of one object, from just after its `{` to just
/// past its matching `}`, honouring string quoting: a `}` inside a string
/// value does not close the object. Returns the text after the object, or
/// nothing when the object never closes.
pub open spec fn spec_skip_in_object(s: Seq<char>, in_string: bool, escaped: bool) -> Option<
    Seq<char>,
>
    decreases s.len(),
{
    if s.len() == 0 {
        None
    } else {
        let c = s.first();
        let rest = s.drop_first();
        if in_string {
            if escaped {
                spec_skip_in_object(rest, true, false)
            } else if c == '\\' {
                spec_skip_in_object(rest, true, true)
            } else if c == '"' {
                spec_skip_in_object(rest, false, false)
            } else {
                spec_skip_in_object(rest, true, false)
            }
        } else if c == '}' {
            Some(rest)
        } else if c == '"' {
            spec_skip_in_object(rest, true, false)
        } else {
            spec_skip_in_object(rest, false, false)
        }
    }
}

/// Whatever the walk returns is strictly shorter than its input.
proof fn lemma_skip_in_object_shrinks(s: Seq<char>, in_string: bool, escaped: bool)
    ensures
        match spec_skip_in_object(s, in_string, escaped) {
            Some(r) => r.len() < s.len(),
            None => true,
        },
    decreases s.len(),
{
    if s.len() > 0 {
        let rest = s.drop_first();
        lemma_skip_in_object_shrinks(rest, true, false);
        lemma_skip_in_object_shrinks(rest, true, true);
        lemma_skip_in_object_shrinks(rest, false, false);
    }
}

/// Count the objects of an array, from just after its `[` to just past its
/// `]`. Returns the count and the text after the array.
pub open spec fn spec_count_objects(s: Seq<char>) -> Option<(int, Seq<char>)>
    decreases s.len(),
    via spec_count_objects_decreases
{
    if s.len() == 0 {
        None
    } else if s.first() == ']' {
        Some((0, s.drop_first()))
    } else if s.first() == '{' {
        match spec_skip_in_object(s.drop_first(), false, false) {
            Some(r) => {
                if r.len() > 0 && r.first() == ',' {
                    match spec_count_objects(r.drop_first()) {
                        Some((c, rest)) => Some((c + 1, rest)),
                        None => None,
                    }
                } else if r.len() > 0 && r.first() == ']' {
                    Some((1, r.drop_first()))
                } else {
                    None
                }
            },
            None => None,
        }
    } else {
        None
    }
}

#[via_fn]
proof fn spec_count_objects_decreases(s: Seq<char>) {
    if s.len() > 0 && s.first() == '{' {
        lemma_skip_in_object_shrinks(s.drop_first(), false, false);
    }
}

/// Parse a serialized canvas document: expect the `nodes` array, then the
/// `edges` array, then the closing brace; return the two counts.
pub open spec fn spec_parse_counts(s: Seq<char>) -> Option<(int, int)> {
    if s.len() >= 10 && s.take(10) == "{\"nodes\":["@ {
        match spec_count_objects(s.skip(10)) {
            Some((node_count, r)) => {
                if r.len() >= 10 && r.take(10) == ",\"edges\":["@ {
                    match spec_count_objects(r.skip(10)) {
                        Some((edge_count, r2)) => {
                            if r2 == seq!['}'] {
                                Some((node_count, edge_count))
                            } else {
                                None
                            }
                        },
                        None => None,
                    }
                } else {
                    None
                }
            },
            None => None,
        }
    } else {
        None
    }
}

/// The escape of a string unfolds from the front as well.
proof fn lemma_escape_unfold_front(s: Seq<char>)
    requires
        s.len() > 0,
    ensures
        spec_escape(s) == spec_escape_char(s.first()) + spec_escape(s.drop_first()),
    decreases s.len(),
{
    if s.len() == 1 {
        assert(s.drop_last() =~= Seq::<char>::empty());
        assert(s.drop_first() =~= Seq::<char>::empty());
        assert(spec_escape(s) =~= spec_escape_char(s.first()) + spec_escape(s.drop_first()));
    } else {
        lemma_escape_unfold_front(s.drop_last());
        assert(s.drop_last().first() == s.first());
        assert(s.drop_last().drop_first() =~= s.drop_first().drop_last());
        assert(s.drop_first().last() == s.last());
        assert(spec_escape(s) =~= spec_escape_char(s.first()) + spec_escape(s.drop_first())) by {
            assert(spec_escape(s) == spec_escape(s.drop_last()) + spec_escape_char(s.last()));
            assert(spec_escape(s.drop_last()) == spec_escape_char(s.first()) + spec_escape(
                s.drop_first().drop_last(),
            ));
            assert(spec_escape(s.drop_first()) == spec_escape(s.drop_first().drop_last())
                + spec_escape_char(s.drop_first().last()));
            assert((spec_escape_char(s.first()) + spec_escape(s.drop_first().drop_last()))
                + spec_escape_char(s.last()) =~= spec_escape_char(s.first()) + (spec_escape(
                s.drop_first().drop_last(),
            ) + spec_escape_char(s.last())));
        }
    }
}

/// Hexadecimal digits are ordinary characters to the reader.
proof fn lemma_hex_digit_plain(d: int)
    ensures
        spec_hex_digit(d) != '"',
        spec_hex_digit(d) != '\\',
        spec_hex_digit(d) != '}',
{
}

/// A run of characters without `}` or `"` is walked over outside a string.
proof fn lemma_skip_plain_run(t: Seq<char>, r: Seq<char>)
    requires
        forall|i: int| 0 <= i < t.len() ==> t[i] != '}' && t[i] != '"',
    ensures
        spec_skip_in_object(t + r, false, false) == spec_skip_in_object(r, false, false),
    decreases t.len(),
{
    if t.len() == 0 {
        assert(t + r =~= r);
    } else {
        assert((t + r).first() == t[0]);
        assert((t + r).drop_first() =~= t.drop_first() + r);
        lemma_skip_plain_run(t.drop_first(), r);
    }
}

/// A run of characters without `"` or `\` is walked over inside a string.
proof fn lemma_skip_string_run(t: Seq<char>, r: Seq<char>)
    requires
        forall|i: int| 0 <= i < t.len() ==> t[i] != '"' && t[i] != '\\',
    ensures
        spec_skip_in_object(t + r, true, false) == spec_skip_in_object(r, true, false),
    decreases t.len(),
{
    if t.len() == 0 {
        assert(t + r =~= r);
    } else {
        assert((t + r).first() == t[0]);
        assert((t + r).drop_first() =~= t.drop_first() + r);
        lemma_skip_string_run(t.drop_first(), r);
    }
}

/// An escaped string body is walked over inside a string: every escape
/// sequence keeps the reader inside the string and moves it past the body.
proof fn lemma_skip_escaped_body(x: Seq<char>, r: Seq<char>)
    ensures
        spec_skip_in_object(spec_escape(x) + r, true, false) == spec_skip_in_object(
            r,
            true,
            false,
        ),
    decreases x.len(),
{
    if x.len() == 0 {
        assert(spec_escape(x) + r =~= r);
    } else {
        lemma_escape_unfold_front(x);
        let c = x.first();
        let e0 = spec_escape_char(c);
        let tail = spec_escape(x.drop_first()) + r;
        assert(spec_escape(x) + r =~= e0 + tail);
        if c == '"' || c == '\\' || c == '\n' || c == '\r' || c == '\t' {
            let s0 = e0 + tail;
            assert(s0.first() == '\\');
            assert(s0.drop_first() =~= seq![e0[1]] + tail);
            let s1 = seq![e0[1]] + tail;
            assert(s1.first() == e0[1]);
            assert(s1.drop_first() =~= tail);
            assert(spec_skip_in_object(s0, true, false) == spec_skip_in_object(s1, true, true));
            assert(spec_skip_in_object(s1, true, true) == spec_skip_in_object(tail, true, false));
        } else if (c as int) < 0x20 {
            let d = c as int;
            let h1 = spec_hex_digit(d / 16);
            let h2 = spec_hex_digit(d % 16);
            lemma_hex_digit_plain(d / 16);
            lemma_hex_digit_plain(d % 16);
            assert(e0 =~= seq!['\\', 'u', '0', '0', h1, h2]);
            let s0 = e0 + tail;
            assert(s0.first() == '\\');
            assert(s0.drop_first() =~= seq!['u', '0', '0', h1, h2] + tail);
            let s1 = seq!['u', '0', '0', h1, h2] + tail;
            assert(s1.first() == 'u');
            assert(s1.drop_first() =~= seq!['0', '0', h1, h2] + tail);
            assert(spec_skip_in_object(s0, true, false) == spec_skip_in_object(s1, true, true));
            assert(spec_skip_in_object(s1, true, true) == spec_skip_in_object(
                seq!['0', '0', h1, h2] + tail,
                true,
                false,
            ));
            lemma_skip_string_run(seq!['0', '0', h1, h2], tail);
        } else {
            assert(e0 =~= seq![c]);
            assert((e0 + tail).first() == c);
            assert((e0 + tail).drop_first() =~= tail);
        }
        lemma_skip_escaped_body(x.drop_first(), r);
    }
}

/// A whole JSON string literal is walked over from outside a string.
proof fn lemma_skip_json_string(x: Seq<char>, r: Seq<char>)
    ensures
        spec_skip_in_object(spec_json_string(x) + r, false, false) == spec_skip_in_object(
            r,
            false,
            false,
        ),
{
    let s0 = spec_json_string(x) + r;
    assert(s0.first() == '"');
    assert(s0.drop_first() =~= spec_escape(x) + (seq!['"'] + r));
    lemma_skip_escaped_body(x, seq!['"'] + r);
    let s1 = seq!['"'] + r;
    assert(s1.first() == '"');
    assert(s1.drop_first() =~= r);
    assert(spec_skip_in_object(s1, true, false) == spec_skip_in_object(r, false, false));
}

/// Escaping a string of ordinary characters leaves it unchanged.
proof fn lemma_escape_plain(t: Seq<char>)
    requires
        forall|i: int| 0 <= i < t.len() ==> 0x20 <= t[i] as int && t[i] != '"' && t[i] != '\\',
    ensures
        spec_escape(t) == t,
    decreases t.len(),
{
    if t.len() > 0 {
        lemma_escape_plain(t.drop_last());
        assert(spec_escape_char(t.last()) =~= seq![t.last()]);
        assert(spec_escape(t) =~= t);
    }
}

/// The decimal digits of a non-negative integer hold no `}` and no `"`.
proof fn lemma_dec_digits_plain(n: int)
    requires
        n >= 0,
    ensures
        forall|i: int|
            0 <= i < spec_dec_digits(n).len() ==> spec_dec_digits(n)[i] != '}'
                && spec_dec_digits(n)[i] != '"',
    decreases n,
{
    if n < 10 {
        lemma_hex_digit_plain(n);
        assert(spec_dec_digits(n)[0] == spec_hex_digit(n));
    } else {
        lemma_dec_digits_plain(n / 10);
        lemma_hex_digit_plain(n % 10);
        let prefix = spec_dec_digits(n / 10);
        assert forall|i: int| 0 <= i < spec_dec_digits(n).len() implies spec_dec_digits(n)[i]
            != '}' && spec_dec_digits(n)[i] != '"' by {
            if i < prefix.len() {
                assert(spec_dec_digits(n)[i] == prefix[i]);
            } else {
                assert(spec_dec_digits(n)[i] == spec_hex_digit(n % 10));
            }
        }
    }
}

/// A decimal rendering holds no `}` and no `"`.
proof fn lemma_dec_plain(v: int)
    ensures
        forall|i: int| 0 <= i < spec_dec(v).len() ==> spec_dec(v)[i] != '}' && spec_dec(v)[i]
            != '"',
{
    if v < 0 {
        lemma_dec_digits_plain(-v);
        assert forall|i: int| 0 <= i < spec_dec(v).len() implies spec_dec(v)[i] != '}' && spec_dec(
            v,
        )[i] != '"' by {
            if i > 0 {
                assert(spec_dec(v)[i] == spec_dec_digits(-v)[i - 1]);
            }
        }
    } else {
        lemma_dec_digits_plain(v);
    }
}

/// One string-valued field, with its separator, key and quoted value.
pub open spec fn spec_field_str(sep: Seq<char>, key: Seq<char>, v: Seq<char>) -> Seq<char> {
    sep + spec_json_string(key) + seq![':'] + spec_json_string(v)
}

/// One integer-valued field, with its comma, key and decimal value.
pub open spec fn spec_field_dec(key: Seq<char>, v: int) -> Seq<char> {
    seq![','] + spec_json_string(key) + seq![':'] + spec_dec(v)
}

/// A string-valued field is walked over outside a string.
proof fn lemma_skip_field_str(sep: Seq<char>, key: Seq<char>, v: Seq<char>, r: Seq<char>)
    requires
        forall|i: int| 0 <= i < sep.len() ==> sep[i] != '}' && sep[i] != '"',
    ensures
        spec_skip_in_object(spec_field_str(sep, key, v) + r, false, false) == spec_skip_in_object(
            r,
            false,
            false,
        ),
{
    let t3 = r;
    let t2 = spec_json_string(v) + t3;
    let t1 = seq![':'] + t2;
    let t0 = spec_json_string(key) + t1;
    assert(spec_field_str(sep, key, v) + r =~= sep + t0);
    lemma_skip_plain_run(sep, t0);
    lemma_skip_json_string(key, t1);
    lemma_skip_plain_run(seq![':'], t2);
    lemma_skip_json_string(v, t3);
}

/// An integer-valued field is walked over outside a string.
proof fn lemma_skip_field_dec(key: Seq<char>, v: int, r: Seq<char>)
    ensures
        spec_skip_in_object(spec_field_dec(key, v) + r, false, false) == spec_skip_in_object(
            r,
            false,
            false,
        ),
{
    let t3 = r;
    let t2 = spec_dec(v) + t3;
    let t1 = seq![':'] + t2;
    let t0 = spec_json_string(key) + t1;
    assert(spec_field_dec(key, v) + r =~= seq![','] + t0);
    lemma_skip_plain_run(seq![','], t0);
    lemma_skip_json_string(key, t1);
    lemma_skip_plain_run(seq![':'], t2);
    lemma_dec_plain(v);
    lemma_skip_plain_run(spec_dec(v), t3);
}

/// The flat rendering of a node reassociates into a right-nested chain.
#[verifier::rlimit(100)]
proof fn lemma_node_json_chain(n: NodeView, r: Seq<char>)
    ensures
        spec_node_json(n) + r == "{\"id\":"@ + (spec_json_string(n.id) + (",\"type\":"@ + (
        spec_json_string(n.node_type) + (",\"file\":"@ + (spec_json_string(n.file) + ((match n.subpath {
            Some(sp) => ",\"subpath\":"@ + spec_json_string(sp),
            None => Seq::<char>::empty(),
        }) + (",\"x\":"@ + (spec_dec(n.x) + (",\"y\":"@ + (spec_dec(n.y) + (",\"width\":"@ + (
        spec_dec(n.width) + (",\"height\":"@ + (spec_dec(n.height) + (seq!['}'] + r))))))))))))))),
        spec_node_json(n).len() >= 6,
        spec_node_json(n).first() == '{',
{
    reveal(spec_node_json);
    let v1 = spec_json_string(n.id);
    let v2 = spec_json_string(n.node_type);
    let v3 = spec_json_string(n.file);
    let sub = match n.subpath {
        Some(sp) => ",\"subpath\":"@ + spec_json_string(sp),
        None => Seq::<char>::empty(),
    };
    let r16 = seq!['}'] + r;
    let r15 = spec_dec(n.height) + r16;
    let r14 = ",\"height\":"@ + r15;
    let r13 = spec_dec(n.width) + r14;
    let r12 = ",\"width\":"@ + r13;
    let r11 = spec_dec(n.y) + r12;
    let r10 = ",\"y\":"@ + r11;
    let r9 = spec_dec(n.x) + r10;
    let r8 = ",\"x\":"@ + r9;
    let r7 = sub + r8;
    let r6 = v3 + r7;
    let r5 = ",\"file\":"@ + r6;
    let r4 = v2 + r5;
    let r3 = ",\"type\":"@ + r4;
    let r2 = v1 + r3;
    let r1 = "{\"id\":"@ + r2;
    let p1 = "{\"id\":"@ + v1;
    let p2 = p1 + ",\"type\":"@;
    let p3 = p2 + v2;
    let p4 = p3 + ",\"file\":"@;
    let p5 = p4 + v3;
    let p6 = p5 + sub;
    let p7 = p6 + ",\"x\":"@;
    let p8 = p7 + spec_dec(n.x);
    let p9 = p8 + ",\"y\":"@;
    let p10 = p9 + spec_dec(n.y);
    let p11 = p10 + ",\"width\":"@;
    let p12 = p11 + spec_dec(n.width);
    let p13 = p12 + ",\"height\":"@;
    let p14 = p13 + spec_dec(n.height);
    assert(spec_node_json(n) == p14 + seq!['}']);
    assert(p14 + seq!['}'] + r =~= p14 + r16);
    assert(p14 + r16 =~= p13 + r15);
    assert(p13 + r15 =~= p12 + r14);
    assert(p12 + r14 =~= p11 + r13);
    assert(p11 + r13 =~= p10 + r12);
    assert(p10 + r12 =~= p9 + r11);
    assert(p9 + r11 =~= p8 + r10);
    assert(p8 + r10 =~= p7 + r9);
    assert(p7 + r9 =~= p6 + r8);
    assert(p6 + r8 =~= p5 + r7);
    assert(p5 + r7 =~= p4 + r6);
    assert(p4 + r6 =~= p3 + r5);
    assert(p3 + r5 =~= p2 + r4);
    assert(p2 + r4 =~= p1 + r3);
    assert(p1 + r3 =~= r1);
    assert(spec_node_json(n).len() >= 6 && spec_node_json(n)[0] == '{') by {
        reveal_strlit("{\"id\":");
    }
}

/// A literal key segment is the quoted key between its separator and colon.
proof fn lemma_lit_id()
    ensures
        "{\"id\":"@.drop_first() == Seq::<char>::empty() + spec_json_string(seq!['i', 'd'])
            + seq![':'],
{
    reveal_strlit("{\"id\":");
    lemma_escape_plain(seq!['i', 'd']);
    assert("{\"id\":"@.drop_first() =~= Seq::<char>::empty() + spec_json_string(seq!['i', 'd'])
        + seq![':']);
}

/// As `lemma_lit_id`, for the `type` key.
proof fn lemma_lit_type()
    ensures
        ",\"type\":"@ == seq![','] + spec_json_string(seq!['t', 'y', 'p', 'e']) + seq![':'],
{
    reveal_strlit(",\"type\":");
    lemma_escape_plain(seq!['t', 'y', 'p', 'e']);
    assert(",\"type\":"@ =~= seq![','] + spec_json_string(seq!['t', 'y', 'p', 'e']) + seq![':']);
}

/// As `lemma_lit_id`, for the `file` key.
proof fn lemma_lit_file()
    ensures
        ",\"file\":"@ == seq![','] + spec_json_string(seq!['f', 'i', 'l', 'e']) + seq![':'],
{
    reveal_strlit(",\"file\":");
    lemma_escape_plain(seq!['f', 'i', 'l', 'e']);
    assert(",\"file\":"@ =~= seq![','] + spec_json_string(seq!['f', 'i', 'l', 'e']) + seq![':']);
}

/// As `lemma_lit_id`, for the `subpath` key.
proof fn lemma_lit_subpath()
    ensures
        ",\"subpath\":"@ == seq![','] + spec_json_string(seq!['s', 'u', 'b', 'p', 'a', 't', 'h'])
            + seq![':'],
{
    reveal_strlit(",\"subpath\":");
    lemma_escape_plain(seq!['s', 'u', 'b', 'p', 'a', 't', 'h']);
    assert(",\"subpath\":"@ =~= seq![','] + spec_json_string(
        seq!['s', 'u', 'b', 'p', 'a', 't', 'h'],
    ) + seq![':']);
}

/// As `lemma_lit_id`, for the `x` key.
proof fn lemma_lit_x()
    ensures
        ",\"x\":"@ == seq![','] + spec_json_string(seq!['x']) + seq![':'],
{
    reveal_strlit(",\"x\":");
    lemma_escape_plain(seq!['x']);
    assert(",\"x\":"@ =~= seq![','] + spec_json_string(seq!['x']) + seq![':']);
}

/// As `lemma_lit_id`, for the `y` key.
proof fn lemma_lit_y()
    ensures
        ",\"y\":"@ == seq![','] + spec_json_string(seq!['y']) + seq![':'],
{
    reveal_strlit(",\"y\":");
    lemma_escape_plain(seq!['y']);
    assert(",\"y\":"@ =~= seq![','] + spec_json_string(seq!['y']) + seq![':']);
}

/// As `lemma_lit_id`, for the `width` key.
proof fn lemma_lit_width()
    ensures
        ",\"width\":"@ == seq![','] + spec_json_string(seq!['w', 'i', 'd', 't', 'h'])
            + seq![':'],
{
    reveal_strlit(",\"width\":");
    lemma_escape_plain(seq!['w', 'i', 'd', 't', 'h']);
    assert(",\"width\":"@ =~= seq![','] + spec_json_string(seq!['w', 'i', 'd', 't', 'h'])
        + seq![':']);
}

/// As `lemma_lit_id`, for the `height` key.
proof fn lemma_lit_height()
    ensures
        ",\"height\":"@ == seq![','] + spec_json_string(seq!['h', 'e', 'i', 'g', 'h', 't'])
            + seq![':'],
{
    reveal_strlit(",\"height\":");
    lemma_escape_plain(seq!['h', 'e', 'i', 'g', 'h', 't']);
    assert(",\"height\":"@ =~= seq![','] + spec_json_string(seq!['h', 'e', 'i', 'g', 'h', 't'])
        + seq![':']);
}

/// A literal key segment followed by a quoted value is walked over.
proof fn lemma_skip_lit_field_str(
    lit: Seq<char>,
    sep: Seq<char>,
    key: Seq<char>,
    v: Seq<char>,
    rest: Seq<char>,
)
    requires
        lit == sep + spec_json_string(key) + seq![':'],
        forall|i: int| 0 <= i < sep.len() ==> sep[i] != '}' && sep[i] != '"',
    ensures
        spec_skip_in_object(lit + (spec_json_string(v) + rest), false, false)
            == spec_skip_in_object(rest, false, false),
{
    assert(lit + (spec_json_string(v) + rest) =~= spec_field_str(sep, key, v) + rest);
    lemma_skip_field_str(sep, key, v, rest);
}

/// A literal key segment followed by a decimal value is walked over.
proof fn lemma_skip_lit_field_dec(lit: Seq<char>, key: Seq<char>, v: int, rest: Seq<char>)
    requires
        lit == seq![','] + spec_json_string(key) + seq![':'],
    ensures
        spec_skip_in_object(lit + (spec_dec(v) + rest), false, false) == spec_skip_in_object(
            rest,
            false,
            false,
        ),
{
    assert(lit + (spec_dec(v) + rest) =~= spec_field_dec(key, v) + rest);
    lemma_skip_field_dec(key, v, rest);
}

/// A serialized node starts with `{`, and the reader walks over its whole
/// body to just past its closing `}`.
#[verifier::rlimit(100)]
proof fn lemma_skip_node(n: NodeView, r: Seq<char>)
    ensures
        spec_node_json(n).len() > 0,
        spec_node_json(n).first() == '{',
        spec_skip_in_object(spec_node_json(n).drop_first() + r, false, false) == Some(r),
{
    let v1 = spec_json_string(n.id);
    let v2 = spec_json_string(n.node_type);
    let v3 = spec_json_string(n.file);
    let sub = match n.subpath {
        Some(sp) => ",\"subpath\":"@ + spec_json_string(sp),
        None => Seq::<char>::empty(),
    };
    let r16 = seq!['}'] + r;
    let r15 = spec_dec(n.height) + r16;
    let r14 = ",\"height\":"@ + r15;
    let r13 = spec_dec(n.width) + r14;
    let r12 = ",\"width\":"@ + r13;
    let r11 = spec_dec(n.y) + r12;
    let r10 = ",\"y\":"@ + r11;
    let r9 = spec_dec(n.x) + r10;
    let r8 = ",\"x\":"@ + r9;
    let r7 = sub + r8;
    let r6 = v3 + r7;
    let r5 = ",\"file\":"@ + r6;
    let r4 = v2 + r5;
    let r3 = ",\"type\":"@ + r4;
    let r2 = v1 + r3;
    let r1 = "{\"id\":"@ + r2;
    lemma_node_json_chain(n, r);
    assert(spec_node_json(n) + r == r1);
    let s0 = spec_node_json(n).drop_first() + r;
    assert(s0 =~= "{\"id\":"@.drop_first() + r2) by {
        reveal_strlit("{\"id\":");
        assert(s0 =~= (spec_node_json(n) + r).drop_first());
        assert(("{\"id\":"@ + r2).drop_first() =~= "{\"id\":"@.drop_first() + r2);
    }
    lemma_lit_id();
    lemma_skip_lit_field_str(
        "{\"id\":"@.drop_first(),
        Seq::<char>::empty(),
        seq!['i', 'd'],
        n.id,
        r3,
    );
    lemma_lit_type();
    lemma_skip_lit_field_str(",\"type\":"@, seq![','], seq!['t', 'y', 'p', 'e'], n.node_type, r5);
    lemma_lit_file();
    lemma_skip_lit_field_str(",\"file\":"@, seq![','], seq!['f', 'i', 'l', 'e'], n.file, r7);
    match n.subpath {
        Some(sp) => {
            lemma_lit_subpath();
            assert(r7 =~= ",\"subpath\":"@ + (spec_json_string(sp) + r8));
            lemma_skip_lit_field_str(
                ",\"subpath\":"@,
                seq![','],
                seq!['s', 'u', 'b', 'p', 'a', 't', 'h'],
                sp,
                r8,
            );
        },
        None => {
            assert(r7 =~= r8);
        },
    }
    lemma_lit_x();
    lemma_skip_lit_field_dec(",\"x\":"@, seq!['x'], n.x, r10);
    lemma_lit_y();
    lemma_skip_lit_field_dec(",\"y\":"@, seq!['y'], n.y, r12);
    lemma_lit_width();
    lemma_skip_lit_field_dec(",\"width\":"@, seq!['w', 'i', 'd', 't', 'h'], n.width, r14);
    lemma_lit_height();
    lemma_skip_lit_field_dec(",\"height\":"@, seq!['h', 'e', 'i', 'g', 'h', 't'], n.height, r16);
    assert(r16.first() == '}');
    assert(r16.drop_first() =~= r);
}

/// The joined node texts unfold from the front.
proof fn lemma_nodes_json_front(s: Seq<NodeView>)
    requires
        s.len() >= 2,
    ensures
        spec_nodes_json(s) == spec_node_json(s.first()) + seq![','] + spec_nodes_json(
            s.drop_first(),
        ),
    decreases s.len(),
{
    if s.len() == 2 {
        assert(s.drop_last().len() == 1);
        assert(s.drop_last()[0] == s.first());
        assert(s.drop_first().len() == 1);
        assert(s.drop_first()[0] == s.last());
    } else {
        lemma_nodes_json_front(s.drop_last());
        assert(s.drop_last().first() == s.first());
        assert(s.drop_last().drop_first() =~= s.drop_first().drop_last());
        assert(s.drop_first().last() == s.last());
        assert(s.drop_first().len() >= 2);
        assert(spec_nodes_json(s) == spec_nodes_json(s.drop_last()) + seq![','] + spec_node_json(
            s.last(),
        ));
        assert(spec_nodes_json(s.drop_first()) == spec_nodes_json(s.drop_first().drop_last())
            + seq![','] + spec_node_json(s.drop_first().last()));
        assert((spec_node_json(s.first()) + seq![','] + spec_nodes_json(
            s.drop_first().drop_last(),
        )) + seq![','] + spec_node_json(s.last()) =~= spec_node_json(s.first()) + seq![','] + (
        spec_nodes_json(s.drop_first().drop_last()) + seq![','] + spec_node_json(s.last())));
    }
}

/// The reader counts exactly the serialized nodes of an array.
#[verifier::rlimit(100)]
proof fn lemma_count_nodes(nodes: Seq<NodeView>, r: Seq<char>)
    ensures
        spec_count_objects(spec_nodes_json(nodes) + seq![']'] + r) == Some(
            (nodes.len() as int, r),
        ),
    decreases nodes.len(),
{
    if nodes.len() == 0 {
        assert(spec_nodes_json(nodes) + seq![']'] + r =~= seq![']'] + r);
        assert((seq![']'] + r).first() == ']');
        assert((seq![']'] + r).drop_first() =~= r);
    } else if nodes.len() == 1 {
        lemma_skip_node(nodes[0], seq![']'] + r);
        let s = spec_nodes_json(nodes) + seq![']'] + r;
        assert(s =~= spec_node_json(nodes[0]) + (seq![']'] + r));
        assert(s.first() == '{');
        assert(s.drop_first() =~= spec_node_json(nodes[0]).drop_first() + (seq![']'] + r));
        let after = seq![']'] + r;
        assert(spec_skip_in_object(s.drop_first(), false, false) == Some(after));
        assert(after.first() == ']');
        assert(after.drop_first() =~= r);
    } else {
        lemma_nodes_json_front(nodes);
        let restnodes = nodes.drop_first();
        let s = spec_nodes_json(nodes) + seq![']'] + r;
        let after = seq![','] + (spec_nodes_json(restnodes) + seq![']'] + r);
        lemma_skip_node(nodes.first(), after);
        assert(s =~= spec_node_json(nodes.first()) + after);
        assert(s.first() == '{');
        assert(s.drop_first() =~= spec_node_json(nodes.first()).drop_first() + after);
        assert(spec_skip_in_object(s.drop_first(), false, false) == Some(after));
        assert(after.first() == ',');
        assert(after.drop_first() =~= spec_nodes_json(restnodes) + seq![']'] + r);
        lemma_count_nodes(restnodes, r);
    }
}

/// The joined connector texts unfold from the front.
proof fn lemma_edges_json_front(s: Seq<CanvasEdge>)
    requires
        s.len() >= 2,
    ensures
        spec_edges_json(s) == "{}"@ + seq![','] + spec_edges_json(s.drop_first()),
    decreases s.len(),
{
    if s.len() == 2 {
        assert(s.drop_last().len() == 1);
        assert(s.drop_first().len() == 1);
        assert(spec_edges_json(s.drop_last()) == "{}"@);
        assert(spec_edges_json(s.drop_first()) == "{}"@);
    } else {
        lemma_edges_json_front(s.drop_last());
        assert(s.drop_last().drop_first() =~= s.drop_first().drop_last());
        assert(s.drop_first().len() >= 2);
        assert(("{}"@ + seq![','] + spec_edges_json(s.drop_first().drop_last())) + seq![',']
            + "{}"@ =~= "{}"@ + seq![','] + (spec_edges_json(s.drop_first().drop_last())
            + seq![','] + "{}"@));
    }
}

/// The reader counts exactly the serialized connectors of an array.
proof fn lemma_count_edges(edges: Seq<CanvasEdge>, r: Seq<char>)
    ensures
        spec_count_objects(spec_edges_json(edges) + seq![']'] + r) == Some(
            (edges.len() as int, r),
        ),
    decreases edges.len(),
{
    reveal_strlit("{}");
    if edges.len() == 0 {
        assert(spec_edges_json(edges) + seq![']'] + r =~= seq![']'] + r);
        assert((seq![']'] + r).first() == ']');
        assert((seq![']'] + r).drop_first() =~= r);
    } else if edges.len() == 1 {
        let s = spec_edges_json(edges) + seq![']'] + r;
        let after = seq![']'] + r;
        assert(s =~= seq!['{', '}'] + after);
        assert(s.first() == '{');
        assert(s.drop_first() =~= seq!['}'] + after);
        assert((seq!['}'] + after).first() == '}');
        assert((seq!['}'] + after).drop_first() =~= after);
        assert(after.first() == ']');
        assert(after.drop_first() =~= r);
    } else {
        lemma_edges_json_front(edges);
        let restedges = edges.drop_first();
        let s = spec_edges_json(edges) + seq![']'] + r;
        let after = seq![','] + (spec_edges_json(restedges) + seq![']'] + r);
        assert(s =~= seq!['{', '}'] + after);
        assert(s.first() == '{');
        assert(s.drop_first() =~= seq!['}'] + after);
        assert((seq!['}'] + after).first() == '}');
        assert((seq!['}'] + after).drop_first() =~= after);
        assert(after.first() == ',');
        assert(after.drop_first() =~= spec_edges_json(restedges) + seq![']'] + r);
        lemma_count_edges(restedges, r);
    }
}

/// Round trip: parsing a serialized canvas document recovers exactly the
/// number of nodes and the number of edges of the document that was written.
pub proof fn lemma_round_trip(c: CanvasView)
    ensures
        spec_parse_counts(spec_canvas_json(c)) == Some(
            (c.nodes.len() as int, c.edges.len() as int),
        ),
{
    reveal_strlit("{\"nodes\":[");
    reveal_strlit("],\"edges\":[");
    reveal_strlit(",\"edges\":[");
    reveal_strlit("]}");
    let s = spec_canvas_json(c);
    let nodes_part = spec_nodes_json(c.nodes) + seq![']'] + (",\"edges\":["@ + (spec_edges_json(
        c.edges,
    ) + seq![']'] + seq!['}']));
    assert(s =~= "{\"nodes\":["@ + nodes_part);
    assert(s.len() >= 10);
    assert(s.take(10) =~= "{\"nodes\":["@);
    assert(s.skip(10) =~= nodes_part);
    let mid = ",\"edges\":["@ + (spec_edges_json(c.edges) + seq![']'] + seq!['}']);
    assert(nodes_part =~= spec_nodes_json(c.nodes) + seq![']'] + mid);
    lemma_count_nodes(c.nodes, mid);
    assert(mid.len() >= 10);
    assert(mid.take(10) =~= ",\"edges\":["@);
    assert(mid.skip(10) =~= spec_edges_json(c.edges) + seq![']'] + seq!['}']);
    lemma_count_edges(c.edges, seq!['}']);
}

/// Walk over one object, from just after its `{` at position `start`;
/// return the position just past its matching `}`.
fn skip_in_object(s: &str, start: usize) -> (r: Option<usize>)
    requires
        start <= s@.len(),
    ensures
        match r {
            Some(j) => j <= s@.len() && spec_skip_in_object(s@.skip(start as int), false, false)
                == Some(s@.skip(j as int)),
            None => spec_skip_in_object(s@.skip(start as int), false, false) is None,
        },
{
    let len = s.unicode_len();
    let mut i = start;
    let mut in_string = false;
    let mut escaped = false;
    while i < len
        invariant
            start <= i <= len,
            len == s@.len(),
            escaped ==> in_string,
            spec_skip_in_object(s@.skip(start as int), false, false) == spec_skip_in_object(
                s@.skip(i as int),
                in_string,
                escaped,
            ),
        decreases len - i,
    {
        let c = s.get_char(i);
        proof {
            assert(s@.skip(i as int).first() == s@[i as int]);
            assert(s@.skip(i as int).drop_first() =~= s@.skip(i as int + 1));
        }
        if in_string {
            if escaped {
                escaped = false;
            } else if c == '\\' {
                escaped = true;
            } else if c == '"' {
                in_string = false;
            }
        } else {
            if c == '}' {
                return Some(i + 1);
            } else if c == '"' {
                in_string = true;
            }
        }
        i += 1;
    }
    proof {
        assert(s@.skip(len as int).len() == 0);
    }
    None
}

/// Count the objects of an array, from just after its `[` at position
/// `start`; return the count and the position just past the `]`.
fn count_objects(s: &str, start: usize) -> (r: Option<(usize, usize)>)
    requires
        start <= s@.len(),
    ensures
        match r {
            Some((c, j)) => j <= s@.len() && spec_count_objects(s@.skip(start as int)) == Some(
                (c as int, s@.skip(j as int)),
            ),
            None => spec_count_objects(s@.skip(start as int)) is None,
        },
{
    let len = s.unicode_len();
    let mut i = start;
    let mut count: usize = 0;
    while i < len
        invariant
            start <= i <= len,
            len == s@.len(),
            count <= i - start,
            match spec_count_objects(s@.skip(i as int)) {
                Some((c2, rest)) => spec_count_objects(s@.skip(start as int)) == Some(
                    (count + c2, rest),
                ),
                None => spec_count_objects(s@.skip(start as int)) is None,
            },
        decreases len - i,
    {
        let c = s.get_char(i);
        proof {
            assert(s@.skip(i as int).first() == s@[i as int]);
            assert(s@.skip(i as int).drop_first() =~= s@.skip(i as int + 1));
        }
        if c == ']' {
            return Some((count, i + 1));
        }
        if c != '{' {
            return None;
        }
        match skip_in_object(s, i + 1) {
            None => {
                return None;
            },
            Some(j) => {
                proof {
                    lemma_skip_in_object_shrinks(s@.skip(i as int + 1), false, false);
                }
                if j >= len {
                    proof {
                        assert(s@.skip(j as int).len() == 0);
                    }
                    return None;
                }
                let c2 = s.get_char(j);
                proof {
                    assert(s@.skip(j as int).first() == s@[j as int]);
                    assert(s@.skip(j as int).drop_first() =~= s@.skip(j as int + 1));
                }
                if c2 == ',' {
                    count = count + 1;
                    i = j + 1;
                } else if c2 == ']' {
                    return Some((count + 1, j + 1));
                } else {
                    return None;
                }
            },
        }
    }
    proof {
        assert(s@.skip(len as int).len() == 0);
    }
    None
}

/// Parse a serialized canvas document: on the exact shape the serializer
/// emits, return how many nodes and how many edges it holds.
pub fn parse_canvas_counts(s: &str) -> (r: Option<(usize, usize)>)
    ensures
        match r {
            Some((nc, ec)) => spec_parse_counts(s@) == Some((nc as int, ec as int)),
            None => spec_parse_counts(s@) is None,
        },
{
    let len = s.unicode_len();
    proof {
        reveal_strlit("{\"nodes\":[");
        reveal_strlit(",\"edges\":[");
    }
    if !is_char_prefix(s, "{\"nodes\":[") {
        return None;
    }
    proof {
        assert(s@.take(10) == "{\"nodes\":["@);
    }
    match count_objects(s, 10) {
        None => {
            None
        },
        Some((node_count, j)) => {
            let rest = s.substring_char(j, len);
            proof {
                assert(rest@ =~= s@.skip(j as int));
            }
            if !is_char_prefix(rest, ",\"edges\":[") {
                return None;
            }
            proof {
                assert(s@.skip(j as int).take(10) == ",\"edges\":["@);
                assert(s@.skip(j as int).skip(10) =~= s@.skip(j as int + 10));
            }
            match count_objects(s, j + 10) {
                None => {
                    None
                },
                Some((edge_count, j2)) => {
                    if j2 < len {
                        let c3 = s.get_char(j2);
                        if len - j2 == 1 && c3 == '}' {
                            proof {
                                assert(s@.skip(j2 as int) =~= seq!['}']);
                            }
                            Some((node_count, edge_count))
                        } else {
                            proof {
                                assert(s@.skip(j2 as int)[0] == s@[j2 as int]);
                                assert(s@.skip(j2 as int).len() == len - j2);
                                assert(s@.skip(j2 as int) != seq!['}']);
                            }
                            None
                        }
                    } else {
                        proof {
                            assert(s@.skip(j2 as int).len() == 0);
                            assert(s@.skip(j2 as int) != seq!['}']);
                        }
                        None
                    }
                },
            }
        },
    }
}

} // verus!
