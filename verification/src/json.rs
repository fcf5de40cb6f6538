//! Serialization of a canvas document.
//!
//! The output is a JSON object with exactly two fields: `nodes`, an array of
//! node objects, and `edges`, an array of connector objects. A node object
//! carries `id`, `type`, `file`, `subpath`, `x`, `y`, `width` and `height`;
//! the `subpath` field is omitted entirely when absent, never written as
//! null. The serialized text is pinned down character for character by the
//! spec functions here.

use vstd::prelude::*;
use crate::canvas::{Canvas, CanvasNode, CanvasEdge, NodeView};
use crate::ids::{spec_hex_digit, hex_digit_str};

verus! {

/// The JSON escape of one character: quote, backslash and control
/// characters are escaped, every other character stands for itself.
pub open spec fn spec_escape_char(c: char) -> Seq<char> {
    if c == '"' {
        seq!['\\', '"']
    } else if c == '\\' {
        seq!['\\', '\\']
    } else if c == '\n' {
        seq!['\\', 'n']
    } else if c == '\r' {
        seq!['\\', 'r']
    } else if c == '\t' {
        seq!['\\', 't']
    } else if (c as int) < 0x20 {
        seq!['\\', 'u', '0', '0', spec_hex_digit(c as int / 16), spec_hex_digit(c as int % 16)]
    } else {
        seq![c]
    }
}

/// The JSON escape of a string's characters.
pub open spec fn spec_escape(s: Seq<char>) -> Seq<char>
    decreases s.len(),
{
    if s.len() == 0 {
        Seq::empty()
    } else {
        spec_escape(s.drop_last()) + spec_escape_char(s.last())
    }
}

/// A JSON string literal: the escaped characters between quotes.
pub open spec fn spec_json_string(s: Seq<char>) -> Seq<char> {
    seq!['"'] + spec_escape(s) + seq!['"']
}

/// The decimal digits of a non-negative integer, no leading zeros.
pub open spec fn spec_dec_digits(n: int) -> Seq<char>
    decreases n,
{
    if n < 10 {
        seq![spec_hex_digit(n)]
    } else {
        spec_dec_digits(n / 10).push(spec_hex_digit(n % 10))
    }
}

/// A signed integer in decimal notation.
pub open spec fn spec_dec(v: int) -> Seq<char> {
    if v < 0 {
        seq!['-'] + spec_dec_digits(-v)
    } else {
        spec_dec_digits(v)
    }
}

/// The serialized form of one node object.
#[verifier::opaque]
pub open spec fn spec_node_json(n: NodeView) -> Seq<char> {
    "{\"id\":"@ + spec_json_string(n.id) + ",\"type\":"@ + spec_json_string(n.node_type)
        + ",\"file\":"@ + spec_json_string(n.file) + (match n.subpath {
        Some(sp) => ",\"subpath\":"@ + spec_json_string(sp),
        None => Seq::<char>::empty(),
    }) + ",\"x\":"@ + spec_dec(n.x) + ",\"y\":"@ + spec_dec(n.y) + ",\"width\":"@ + spec_dec(
        n.width,
    ) + ",\"height\":"@ + spec_dec(n.height) + seq!['}']
}

/// The node objects joined with commas.
pub open spec fn spec_nodes_json(s: Seq<NodeView>) -> Seq<char>
    decreases s.len(),
{
    if s.len() == 0 {
        Seq::empty()
    } else if s.len() == 1 {
        spec_node_json(s[0])
    } else {
        spec_nodes_json(s.drop_last()) + seq![','] + spec_node_json(s.last())
    }
}

/// The connector objects joined with commas; a connector carries no data.
pub open spec fn spec_edges_json(s: Seq<CanvasEdge>) -> Seq<char>
    decreases s.len(),
{
    if s.len() == 0 {
        Seq::empty()
    } else if s.len() == 1 {
        "{}"@
    } else {
        spec_edges_json(s.drop_last()) + seq![','] + "{}"@
    }
}

/// The serialized form of a whole canvas document.
pub open spec fn spec_canvas_json(c: crate::canvas::CanvasView) -> Seq<char> {
    "{\"nodes\":["@ + spec_nodes_json(c.nodes) + "],\"edges\":["@ + spec_edges_json(c.edges)
        + "]}"@
}

/// Append the JSON escape of `s` to `out`.
fn append_escaped(out: &mut String, s: &str)
    ensures
        final(out)@ == old(out)@ + spec_escape(s@),
{
    let ghost out0 = out@;
    let n = s.unicode_len();
    let mut i: usize = 0;
    proof {
        assert(s@.take(0) =~= Seq::<char>::empty());
        assert(out@ =~= out0 + spec_escape(s@.take(0)));
    }
    while i < n
        invariant
            i <= n,
            n == s@.len(),
            out@ == out0 + spec_escape(s@.take(i as int)),
        decreases n - i,
    {
        let c = s.get_char(i);
        proof {
            assert(s@.take(i as int + 1).drop_last() =~= s@.take(i as int));
            assert(s@.take(i as int + 1).last() == s@[i as int]);
        }
        if c == '"' {
            out.append("\\\"");
            proof {
                reveal_strlit("\\\"");
                assert(out@ =~= out0 + spec_escape(s@.take(i as int + 1)));
            }
        } else if c == '\\' {
            out.append("\\\\");
            proof {
                reveal_strlit("\\\\");
                assert(out@ =~= out0 + spec_escape(s@.take(i as int + 1)));
            }
        } else if c == '\n' {
            out.append("\\n");
            proof {
                reveal_strlit("\\n");
                assert(out@ =~= out0 + spec_escape(s@.take(i as int + 1)));
            }
        } else if c == '\r' {
            out.append("\\r");
            proof {
                reveal_strlit("\\r");
                assert(out@ =~= out0 + spec_escape(s@.take(i as int + 1)));
            }
        } else if c == '\t' {
            out.append("\\t");
            proof {
                reveal_strlit("\\t");
                assert(out@ =~= out0 + spec_escape(s@.take(i as int + 1)));
            }
        } else if (c as u32) < 0x20 {
            out.append("\\u00");
            let d = c as u32;
            out.append(hex_digit_str((d / 16) as u64));
            out.append(hex_digit_str((d % 16) as u64));
            proof {
                reveal_strlit("\\u00");
                assert(out@ =~= out0 + spec_escape(s@.take(i as int + 1)));
            }
        } else {
            let piece = s.substring_char(i, i + 1);
            proof {
                assert(piece@ =~= seq![c]);
            }
            out.append(piece);
            proof {
                assert(out@ =~= out0 + spec_escape(s@.take(i as int + 1)));
            }
        }
        i += 1;
    }
    proof {
        assert(s@.take(n as int) =~= s@);
    }
}

/// Append `s` as a JSON string literal to `out`.
fn append_json_string(out: &mut String, s: &str)
    ensures
        final(out)@ == old(out)@ + spec_json_string(s@),
{
    let ghost out0 = out@;
    out.append("\"");
    append_escaped(out, s);
    out.append("\"");
    proof {
        reveal_strlit("\"");
        assert(out@ =~= out0 + spec_json_string(s@));
    }
}

/// Append the decimal digits of `n` to `out`.
fn append_dec_digits(out: &mut String, n: u64)
    ensures
        final(out)@ == old(out)@ + spec_dec_digits(n as int),
    decreases n,
{
    if n < 10 {
        out.append(hex_digit_str(n));
    } else {
        append_dec_digits(out, n / 10);
        out.append(hex_digit_str(n % 10));
        proof {
            assert(out@ =~= old(out)@ + spec_dec_digits(n as int));
        }
    }
}

/// Append a signed 32-bit integer in decimal notation to `out`.
fn append_dec_i32(out: &mut String, v: i32)
    ensures
        final(out)@ == old(out)@ + spec_dec(v as int),
{
    let ghost out0 = out@;
    if v < 0 {
        out.append("-");
        let wide: i64 = v as i64;
        let mag: u64 = (-wide) as u64;
        append_dec_digits(out, mag);
        proof {
            reveal_strlit("-");
            assert(out@ =~= out0 + spec_dec(v as int));
        }
    } else {
        append_dec_digits(out, v as u64);
    }
}

/// Append the serialized form of one node to `out`.
fn append_node_json(out: &mut String, n: &CanvasNode)
    ensures
        final(out)@ == old(out)@ + spec_node_json(n@),
{
    let ghost out0 = out@;
    out.append("{\"id\":");
    append_json_string(out, n.id.as_str());
    out.append(",\"type\":");
    append_json_string(out, n.node_type.as_str());
    out.append(",\"file\":");
    append_json_string(out, n.file.as_str());
    match &n.subpath {
        Some(sp) => {
            out.append(",\"subpath\":");
            append_json_string(out, sp.as_str());
        },
        None => {
        },
    }
    out.append(",\"x\":");
    append_dec_i32(out, n.x);
    out.append(",\"y\":");
    append_dec_i32(out, n.y);
    out.append(",\"width\":");
    append_dec_i32(out, n.width);
    out.append(",\"height\":");
    append_dec_i32(out, n.height);
    out.append("}");
    proof {
        reveal_strlit("}");
        reveal(spec_node_json);
        assert(out@ =~= out0 + spec_node_json(n@));
    }
}

/// Serialize a canvas document: two top-level arrays, `nodes` and `edges`,
/// with the `subpath` field of a node omitted when absent.
pub fn to_json(canvas: &Canvas) -> (r: String)
    ensures
        r@ == spec_canvas_json(canvas@),
{
    let mut out = String::from_str("{\"nodes\":[");
    let ghost nviews = canvas@.nodes;
    let n = canvas.nodes.len();
    let mut k: usize = 0;
    proof {
        assert(nviews.take(0) =~= Seq::<NodeView>::empty());
        assert(out@ =~= "{\"nodes\":["@ + spec_nodes_json(nviews.take(0)));
    }
    while k < n
        invariant
            k <= n,
            n == canvas.nodes@.len(),
            nviews == canvas@.nodes,
            out@ == "{\"nodes\":["@ + spec_nodes_json(nviews.take(k as int)),
        decreases n - k,
    {
        proof {
            assert(nviews.take(k as int + 1).drop_last() =~= nviews.take(k as int));
            assert(nviews.take(k as int + 1).last() == nviews[k as int]);
        }
        if k > 0 {
            out.append(",");
            proof {
                reveal_strlit(",");
            }
        }
        append_node_json(&mut out, &canvas.nodes[k]);
        proof {
            assert(out@ =~= "{\"nodes\":["@ + spec_nodes_json(nviews.take(k as int + 1)));
        }
        k += 1;
    }
    proof {
        assert(nviews.take(n as int) =~= nviews);
    }
    out.append("],\"edges\":[");
    let ghost eviews = canvas@.edges;
    let ghost mid = out@;
    let m = canvas.edges.len();
    let mut t: usize = 0;
    proof {
        assert(eviews.take(0) =~= Seq::<CanvasEdge>::empty());
        assert(out@ =~= mid + spec_edges_json(eviews.take(0)));
    }
    while t < m
        invariant
            t <= m,
            m == canvas.edges@.len(),
            eviews == canvas@.edges,
            out@ == mid + spec_edges_json(eviews.take(t as int)),
        decreases m - t,
    {
        proof {
            assert(eviews.take(t as int + 1).drop_last() =~= eviews.take(t as int));
        }
        if t > 0 {
            out.append(",");
            proof {
                reveal_strlit(",");
            }
        }
        out.append("{}");
        proof {
            reveal_strlit("{}");
            assert(out@ =~= mid + spec_edges_json(eviews.take(t as int + 1)));
        }
        t += 1;
    }
    proof {
        assert(eviews.take(m as int) =~= eviews);
    }
    out.append("]}");
    proof {
        assert(out@ =~= spec_canvas_json(canvas@));
    }
    out
}

} // verus!
