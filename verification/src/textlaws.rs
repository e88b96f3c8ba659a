//! The text-level round-trip law: parsing the serializer's output yields the
//! tree that was written, and therefore decoding the encoding of any
//! well-formed value (binary payloads set aside) yields that value, at the
//! level of the wire text itself.

use vstd::prelude::*;
use crate::values::{
    ValueSpec, MemberSpec, wf_value, lemma_wf_members_index, lemma_wf_values_index,
};
use crate::codec::{
    v2n_type, v2n_value, v2n_member, v2n_members, v2n_values, lemma_v2n_members_index,
    lemma_v2n_values_index,
};
use crate::laws::{no_base64, lemma_value_round_trip};
use crate::decode::n2v_value;
use crate::text::{int_text, lemma_dec_rep};
use crate::xml::{
    XNode, XContent, ser_node, ser_nodes, esc, esc_char, is_name_char, is_space, all_space,
    ws_count, name_count, sp_entity, sp_text, sp_close, sp_node, sp_children, sp_doc, sp_root,
    pro_end,
};

verus! {

/// A tree the serializer writes unambiguously: names are non-empty name
/// characters, text is non-empty, element lists are non-empty.
pub open spec fn wf_name(name: Seq<char>) -> bool {
    name.len() > 0 && forall|i: int| 0 <= i < name.len() ==> is_name_char(#[trigger] name[i])
}

pub open spec fn wf_xnode(n: XNode) -> bool
    decreases n, 0int,
{
    &&& wf_name(n.name)
    &&& match n.content {
        XContent::Empty => true,
        XContent::Text(t) => t.len() > 0,
        XContent::Elems(es) => es.len() > 0 && wf_xnodes(es),
    }
}

pub open spec fn wf_xnodes(es: Seq<XNode>) -> bool
    decreases es, 1int,
{
    es.len() == 0 || (wf_xnodes(es.drop_last()) && wf_xnode(es.last()))
}

pub proof fn lemma_wf_xnodes_index(es: Seq<XNode>)
    requires
        wf_xnodes(es),
    ensures
        forall|i: int| 0 <= i < es.len() ==> wf_xnode(#[trigger] es[i]),
    decreases es,
{
    if es.len() > 0 {
        lemma_wf_xnodes_index(es.drop_last());
        assert(forall|i: int| 0 <= i < es.len() - 1 ==> es.drop_last()[i] == es[i]);
    }
}

/// Element-wise well-formedness assembles a list's.
pub proof fn lemma_wf_xnodes_build(es: Seq<XNode>)
    requires
        forall|i: int| 0 <= i < es.len() ==> wf_xnode(#[trigger] es[i]),
    ensures
        wf_xnodes(es),
    decreases es,
{
    if es.len() > 0 {
        assert(forall|i: int| 0 <= i < es.len() - 1 ==> es.drop_last()[i] == es[i]);
        lemma_wf_xnodes_build(es.drop_last());
    }
}

/// Where every character of a window is a name character and the next one
/// is not, the name scan stops exactly at the window's end.
proof fn lemma_name_count_window(s: Seq<char>, a: int, b: int)
    requires
        0 <= a <= b <= s.len(),
        forall|i: int| a <= i < b ==> is_name_char(#[trigger] s[i]),
        b == s.len() || !is_name_char(s[b]),
    ensures
        name_count(s, a) == b - a,
    decreases b - a,
{
    if a < b {
        lemma_name_count_window(s, a + 1, b);
    }
}

/// The whitespace scan stops at or before any non-space character, stops on
/// a non-space character, and skips only spaces.
proof fn lemma_ws_count_props(s: Seq<char>, i: int)
    requires
        0 <= i <= s.len(),
    ensures
        i + ws_count(s, i) <= s.len(),
        i + ws_count(s, i) < s.len() ==> !is_space(s[i + ws_count(s, i)]),
        forall|m: int| i <= m < i + ws_count(s, i) ==> is_space(#[trigger] s[m]),
        forall|j: int| i <= j < s.len() && !is_space(#[trigger] s[j]) ==> i + ws_count(s, i) <= j,
    decreases s.len() - i,
{
    if i < s.len() && is_space(s[i]) {
        lemma_ws_count_props(s, i + 1);
    }
}

/// Escaped text decomposes from the front.
proof fn lemma_esc_front(t: Seq<char>)
    requires
        t.len() > 0,
    ensures
        esc(t) == esc_char(t[0]) + esc(t.drop_first()),
    decreases t,
{
    if t.len() == 1 {
        assert(t.drop_last() =~= Seq::<char>::empty());
        assert(t.drop_first() =~= Seq::<char>::empty());
        assert(esc(t) =~= esc_char(t[0]) + esc(t.drop_first()));
    } else {
        lemma_esc_front(t.drop_last());
        assert(t.drop_last()[0] == t[0]);
        assert(t.drop_last().drop_first() =~= t.drop_first().drop_last());
        assert(t.drop_first().last() == t.last());
        assert(esc(t.drop_first()) == esc(t.drop_first().drop_last()) + esc_char(
            t.drop_first().last(),
        ));
        assert(esc(t) =~= esc_char(t[0]) + esc(t.drop_first()));
    }
}

/// Escaped text never holds `<` or `&`-starts except as whole entities; in
/// particular no `<` at all, and it is empty only for empty input.
proof fn lemma_esc_shape(t: Seq<char>)
    ensures
        forall|i: int| 0 <= i < esc(t).len() ==> esc(t)[i] != '<',
        esc(t).len() >= t.len(),
        t.len() > 0 ==> esc(t).len() > 0,
    decreases t,
{
    if t.len() > 0 {
        lemma_esc_shape(t.drop_last());
    }
}

/// Whitespace is untouched by escaping.
proof fn lemma_esc_space(t: Seq<char>)
    requires
        all_space(t),
    ensures
        esc(t) == t,
    decreases t,
{
    if t.len() > 0 {
        assert(forall|i: int| 0 <= i < t.len() - 1 ==> t.drop_last()[i] == t[i]);
        lemma_esc_space(t.drop_last());
        assert(is_space(t.last()));
        assert(esc_char(t.last()) =~= seq![t.last()]);
        assert(esc(t) =~= t);
    }
}

/// Reading escaped text back yields the original text, stopping at the `<`
/// that follows it.
proof fn lemma_sp_text_print(s: Seq<char>, i: int, t: Seq<char>)
    requires
        0 <= i,
        i + esc(t).len() < s.len(),
        s.subrange(i, i + esc(t).len()) == esc(t),
        s[i + esc(t).len()] == '<',
    ensures
        sp_text(s, i) == Some((t, i + esc(t).len())),
    decreases t.len(),
{
    lemma_esc_shape(t);
    if t.len() == 0 {
        assert(esc(t).len() == 0);
        assert(s[i] == '<');
    } else {
        lemma_esc_front(t);
        let c = t[0];
        let rest = t.drop_first();
        let e0 = esc_char(c).len();
        let l = esc(t).len() as int;
        assert forall|k: int| 0 <= k < l implies s[i + k] == esc(t)[k] by {
            assert(s.subrange(i, i + l)[k] == s[i + k]);
        }
        assert(forall|k: int| 0 <= k < e0 ==> esc(t)[k] == esc_char(c)[k]);
        assert(forall|k: int| 0 <= k < esc(rest).len() ==> esc(t)[e0 + k] == esc(rest)[k]);
        assert(s.subrange(i + e0, i + l) =~= esc(rest));
        lemma_sp_text_print(s, i + e0, rest);
        assert(t =~= seq![c] + rest);
        if c == '&' {
            assert(s[i] == '&' && s[i + 1] == 'a' && s[i + 2] == 'm' && s[i + 3] == 'p' && s[i
                + 4] == ';');
            assert(sp_entity(s, i) == Some(('&', i + 5)));
        } else if c == '<' {
            assert(s[i] == '&' && s[i + 1] == 'l' && s[i + 2] == 't' && s[i + 3] == ';');
            assert(sp_entity(s, i) == Some(('<', i + 4)));
        } else if c == '>' {
            assert(s[i] == '&' && s[i + 1] == 'g' && s[i + 2] == 't' && s[i + 3] == ';');
            assert(sp_entity(s, i) == Some(('>', i + 4)));
        } else {
            assert(s[i] == c && c != '<' && c != '&');
        }
    }
}

/// Reading the closing tag written for a name succeeds just past it.
proof fn lemma_sp_close_print(s: Seq<char>, i: int, name: Seq<char>)
    requires
        0 <= i,
        i + 3 + name.len() <= s.len(),
        s.subrange(i, i + 3 + name.len()) == seq!['<', '/'] + name + seq!['>'],
    ensures
        sp_close(s, i, name) == Some(i + 3 + name.len()),
{
    let w = seq!['<', '/'] + name + seq!['>'];
    assert forall|k: int| 0 <= k < w.len() implies s[i + k] == w[k] by {
        assert(s.subrange(i, i + 3 + name.len())[k] == s[i + k]);
    }
    assert(w[0] == '<' && w[1] == '/');
    assert(s[i + 0] == w[0] && s[i + 1] == w[1]);
    assert(s[i] == '<' && s[i + 1] == '/');
    let e = i + 2 + name.len();
    assert(w[2 + name.len() as int] == '>');
    assert(s[i + 2 + name.len() as int] == w[2 + name.len() as int]);
    assert(s[e] == '>');
    assert forall|k: int| 0 <= k < name.len() implies s.subrange(i + 2, e)[k] == name[k] by {
        assert(s[i + (2 + k)] == w[2 + k]);
        assert(w[2 + k] == name[k]);
    }
    assert(s.subrange(i + 2, e) =~= name);
}

/// A serialized element list decomposes from the front.
proof fn lemma_ser_nodes_front(es: Seq<XNode>)
    requires
        es.len() > 0,
    ensures
        ser_nodes(es) == ser_node(es[0]) + ser_nodes(es.drop_first()),
    decreases es,
{
    if es.len() == 1 {
        assert(es.drop_last() =~= Seq::<XNode>::empty());
        assert(es.drop_first() =~= Seq::<XNode>::empty());
        assert(ser_nodes(es) =~= ser_node(es[0]) + ser_nodes(es.drop_first()));
    } else {
        lemma_ser_nodes_front(es.drop_last());
        assert(es.drop_last()[0] == es[0]);
        assert(es.drop_last().drop_first() =~= es.drop_first().drop_last());
        assert(es.drop_first().last() == es.last());
        assert(ser_nodes(es.drop_first()) == ser_nodes(es.drop_first().drop_last()) + ser_node(
            es.drop_first().last(),
        ));
        assert(ser_nodes(es) =~= ser_node(es[0]) + ser_nodes(es.drop_first()));
    }
}

/// Text whose escaped form is all whitespace was all whitespace.
proof fn lemma_esc_space_rev(t: Seq<char>)
    requires
        all_space(esc(t)),
    ensures
        all_space(t),
    decreases t,
{
    if t.len() > 0 {
        let p = esc(t.drop_last());
        let e = esc_char(t.last());
        assert(forall|k: int| 0 <= k < p.len() ==> esc(t)[k] == p[k]);
        assert(forall|k: int| 0 <= k < e.len() ==> esc(t)[p.len() + k] == e[k]);
        assert(all_space(p));
        lemma_esc_space_rev(t.drop_last());
        assert(is_space(e[0]));
        assert(is_space(t.last()));
        assert(forall|k: int| 0 <= k < t.len() - 1 ==> t.drop_last()[k] == t[k]);
    }
}

/// Parsing the exact wire text of a well-formed element, standing inside any
/// larger text, yields that element and stops just past it.
#[verifier::rlimit(100)]
pub proof fn lemma_sp_node_print(n: XNode, s: Seq<char>, pos: int)
    requires
        wf_xnode(n),
        0 <= pos,
        pos + ser_node(n).len() <= s.len(),
        s.subrange(pos, pos + ser_node(n).len()) == ser_node(n),
    ensures
        sp_node(s, pos) == Some((n, pos + ser_node(n).len())),
    decreases n, 0int,
{
    let w = ser_node(n);
    let l = w.len() as int;
    let name = n.name;
    let nl = name.len() as int;
    assert forall|k: int| 0 <= k < l implies s[pos + k] == w[k] by {
        assert(s.subrange(pos, pos + l)[k] == s[pos + k]);
    }
    assert(s[pos + 0] == w[0]);
    assert(s[pos] == '<');
    assert forall|m: int| pos + 1 <= m < pos + 1 + nl implies is_name_char(#[trigger] s[m]) by {
        let k = m - (pos + 1);
        assert(s[pos + (1 + k)] == w[1 + k]);
        assert(w[1 + k] == name[k]);
        assert(is_name_char(name[k]));
    }
    assert(s[pos + (1 + nl)] == w[1 + nl]);
    assert(w[1 + nl] == '/' || w[1 + nl] == '>');
    assert(!is_name_char(s[pos + 1 + nl]));
    lemma_name_count_window(s, pos + 1, pos + 1 + nl);
    let ne = pos + 1 + nl;
    assert forall|k: int| 0 <= k < nl implies s.subrange(pos + 1, ne)[k] == name[k] by {
        assert(s[pos + (1 + k)] == w[1 + k]);
    }
    assert(s.subrange(pos + 1, ne) =~= name);
    match n.content {
        XContent::Empty => {
            assert(w =~= seq!['<'] + name + seq!['/', '>']);
            assert(s[ne] == '/');
            assert(s[pos + (2 + nl)] == w[2 + nl]);
            assert(s[ne + 1] == '>');
        },
        XContent::Text(t) => {
            let e = esc(t).len() as int;
            assert(w =~= seq!['<'] + name + seq!['>'] + esc(t) + seq!['<', '/'] + name + seq![
                '>',
            ]);
            assert(s[ne] == '>');
            let body = ne + 1;
            assert forall|k: int| 0 <= k < e implies s[body + k] == esc(t)[k] by {
                assert(s[pos + (2 + nl + k)] == w[2 + nl + k]);
            }
            assert(s.subrange(body, body + e) =~= esc(t));
            assert(s[pos + (2 + nl + e)] == w[2 + nl + e]);
            assert(s[body + e] == '<');
            assert(s[pos + (3 + nl + e)] == w[3 + nl + e]);
            assert(s[body + e + 1] == '/');
            assert forall|k: int| 0 <= k < 3 + nl implies s.subrange(body + e, body + e + 3
                + nl)[k] == (seq!['<', '/'] + name + seq!['>'])[k] by {
                assert(s[pos + (2 + nl + e + k)] == w[2 + nl + e + k]);
            }
            assert(s.subrange(body + e, body + e + 3 + nl) =~= seq!['<', '/'] + name + seq![
                '>',
            ]);
            lemma_sp_close_print(s, body + e, name);
            lemma_ws_count_props(s, body);
            lemma_esc_shape(t);
            let ci = body + ws_count(s, body) as int;
            if all_space(esc(t)) {
                lemma_esc_space_rev(t);
                lemma_esc_space(t);
                assert forall|m: int| body <= m < body + e implies is_space(#[trigger] s[m]) by {
                    assert(s[m] == esc(t)[m - body]);
                }
                assert(ci <= body + e) by {
                    assert(!is_space(s[body + e]));
                }
                assert(ci == body + e) by {
                    if ci < body + e {
                        assert(is_space(s[ci]));
                        assert(!is_space(s[ci]));
                    }
                }
                assert(ci > body);
                assert forall|k: int| 0 <= k < e implies s.subrange(body, ci)[k] == t[k] by {
                    assert(s[body + k] == esc(t)[k]);
                }
                assert(s.subrange(body, ci) =~= t);
                assert(sp_node(s, pos) == Some((n, pos + l)));
            } else {
                let j = choose|j: int| 0 <= j < esc(t).len() && !is_space(esc(t)[j]);
                assert(!is_space(s[body + j]));
                assert(ci <= body + j);
                assert(ci < s.len());
                assert(!is_space(s[ci]));
                assert(s[ci] == esc(t)[ci - body]);
                assert(s[ci] != '<');
                lemma_sp_text_print(s, body, t);
                assert(sp_node(s, pos) == Some((n, pos + l)));
            }
        },
        XContent::Elems(es) => {
            let sn = ser_nodes(es).len() as int;
            assert(w =~= seq!['<'] + name + seq!['>'] + ser_nodes(es) + seq!['<', '/'] + name
                + seq!['>']);
            assert(s[ne] == '>');
            let body = ne + 1;
            assert forall|k: int| 0 <= k < sn implies s[body + k] == ser_nodes(es)[k] by {
                assert(s[pos + (2 + nl + k)] == w[2 + nl + k]);
            }
            assert(s.subrange(body, body + sn) =~= ser_nodes(es));
            assert(s[pos + (2 + nl + sn)] == w[2 + nl + sn]);
            assert(s[body + sn] == '<');
            assert(s[pos + (3 + nl + sn)] == w[3 + nl + sn]);
            assert(s[body + sn + 1] == '/');
            assert forall|k: int| 0 <= k < 3 + nl implies s.subrange(body + sn, body + sn + 3
                + nl)[k] == (seq!['<', '/'] + name + seq!['>'])[k] by {
                assert(s[pos + (2 + nl + sn + k)] == w[2 + nl + sn + k]);
            }
            assert(s.subrange(body + sn, body + sn + 3 + nl) =~= seq!['<', '/'] + name + seq![
                '>',
            ]);
            lemma_sp_close_print(s, body + sn, name);
            lemma_ser_nodes_front(es);
            lemma_wf_xnodes_index(es);
            let w0 = ser_node(es[0]);
            assert(forall|k: int| 0 <= k < w0.len() ==> ser_nodes(es)[k] == w0[k]);
            assert(s[body + 0] == ser_nodes(es)[0]);
            assert(w0[0] == '<');
            assert(s[body] == '<');
            assert(ws_count(s, body) == 0);
            let ci = body;
            assert(w0[1] == es[0].name[0]);
            assert(s[body + 1] == ser_nodes(es)[1]) by {
                assert(w0.len() >= 4);
            }
            assert(is_name_char(s[ci + 1]));
            assert(s[ci + 1] != '/');
            lemma_sp_children_print(es, s, ci);
            assert(sp_node(s, pos) == Some((n, pos + l)));
        },
    }
}

/// Parsing the exact wire text of a well-formed element list, followed by a
/// closing tag, yields those elements in order and stops at the `</`.
pub proof fn lemma_sp_children_print(es: Seq<XNode>, s: Seq<char>, i: int)
    requires
        wf_xnodes(es),
        0 <= i,
        i + ser_nodes(es).len() + 2 <= s.len(),
        s.subrange(i, i + ser_nodes(es).len()) == ser_nodes(es),
        s[i + ser_nodes(es).len()] == '<',
        s[i + ser_nodes(es).len() + 1] == '/',
    ensures
        sp_children(s, i) == Some((es, i + ser_nodes(es).len())),
    decreases es, 1int,
{
    let sn = ser_nodes(es).len() as int;
    assert forall|k: int| 0 <= k < sn implies s[i + k] == ser_nodes(es)[k] by {
        assert(s.subrange(i, i + sn)[k] == s[i + k]);
    }
    if es.len() == 0 {
        assert(s[i] == '<' && s[i + 1] == '/');
        assert(sp_children(s, i) == Some((Seq::<XNode>::empty(), i)));
        assert(Seq::<XNode>::empty() =~= es);
    } else {
        lemma_ser_nodes_front(es);
        lemma_wf_xnodes_index(es);
        let w0 = ser_node(es[0]);
        let l0 = w0.len() as int;
        let rest = es.drop_first();
        assert(forall|k: int| 0 <= k < l0 ==> ser_nodes(es)[k] == w0[k]);
        assert(forall|k: int|
            0 <= k < ser_nodes(rest).len() ==> ser_nodes(es)[l0 + k] == ser_nodes(rest)[k]);
        assert(s[i + 0] == w0[0]);
        assert(w0[0] == '<');
        assert(s[i] == '<');
        assert(w0[1] == es[0].name[0]);
        assert(s[i + 1] == w0[1]) by {
            assert(w0.len() >= 4);
        }
        assert(is_name_char(s[i + 1]));
        assert(s[i + 1] != '/');
        assert forall|k: int| 0 <= k < l0 implies s.subrange(i, i + l0)[k] == w0[k] by {
            assert(s[i + k] == ser_nodes(es)[k]);
        }
        assert(s.subrange(i, i + l0) =~= w0);
        lemma_sp_node_print(es[0], s, i);
        let j = i + l0;
        assert(j > i) by {
            assert(w0.len() >= 4);
        }
        assert forall|k: int| 0 <= k < ser_nodes(rest).len() implies s.subrange(j, j
            + ser_nodes(rest).len())[k] == ser_nodes(rest)[k] by {
            assert(s[i + (l0 + k)] == ser_nodes(es)[l0 + k]);
        }
        assert(s.subrange(j, j + ser_nodes(rest).len()) =~= ser_nodes(rest));
        assert(s[j + ser_nodes(rest).len()] == '<');
        assert(s[j + ser_nodes(rest).len() + 1] == '/');
        assert forall|k: int| 0 <= k < rest.len() implies wf_xnode(#[trigger] rest[k]) by {
            assert(rest[k] == es[k + 1]);
        }
        lemma_wf_xnodes_build(rest);
        lemma_sp_children_print(rest, s, j);
        assert(!is_space(s[j])) by {
            if rest.len() > 0 {
                lemma_ser_nodes_front(rest);
                assert(ser_nodes(rest)[0] == ser_node(rest[0])[0]);
                assert(ser_node(rest[0])[0] == '<');
                assert(s[j + 0] == ser_nodes(rest)[0]);
            } else {
                assert(ser_nodes(rest).len() == 0);
            }
        }
        assert(ws_count(s, j) == 0);
        assert(seq![es[0]] + rest =~= es);
        assert(sp_children(s, i) == Some((es, i + sn)));
    }
}

/// Parsing the exact document written for a well-formed element yields that
/// element: the parser inverts the serializer.
pub proof fn lemma_doc_print(n: XNode)
    requires
        wf_xnode(n),
    ensures
        sp_doc(ser_node(n)) == Some(n),
{
    let s = ser_node(n);
    let l = s.len() as int;
    assert(s.subrange(0, l) =~= s);
    lemma_sp_node_print(n, s, 0);
    assert(s[0] == '<') by {
        match n.content {
            XContent::Empty => {},
            XContent::Text(t) => {},
            XContent::Elems(es) => {},
        }
    }
    assert(ws_count(s, 0) == 0);
    assert(s[1] == n.name[0]) by {
        match n.content {
            XContent::Empty => {},
            XContent::Text(t) => {},
            XContent::Elems(es) => {},
        }
    }
    assert(is_name_char(s[1]));
    assert(s[1] != '?');
    assert(ws_count(s, l) == 0);
    assert(sp_root(s, 0) == Some(n));
}

proof fn lemma_tags_wf()
    ensures
        wf_name("value"@),
        wf_name("i4"@),
        wf_name("i8"@),
        wf_name("boolean"@),
        wf_name("string"@),
        wf_name("double"@),
        wf_name("dateTime.iso8601"@),
        wf_name("base64"@),
        wf_name("struct"@),
        wf_name("member"@),
        wf_name("name"@),
        wf_name("array"@),
        wf_name("data"@),
        wf_name("nil"@),
{
    reveal_strlit("value");
    reveal_strlit("i4");
    reveal_strlit("i8");
    reveal_strlit("boolean");
    reveal_strlit("string");
    reveal_strlit("double");
    reveal_strlit("dateTime.iso8601");
    reveal_strlit("base64");
    reveal_strlit("struct");
    reveal_strlit("member");
    reveal_strlit("name");
    reveal_strlit("array");
    reveal_strlit("data");
    reveal_strlit("nil");
}

/// The tree written for a well-formed value is itself well-formed.
#[verifier::rlimit(100)]
proof fn lemma_v2n_type_wf(v: ValueSpec)
    requires
        wf_value(v),
    ensures
        wf_xnode(v2n_type(v)),
    decreases v, 2int,
{
    lemma_tags_wf();
    let n = v2n_type(v);
    match v {
        ValueSpec::Integer(x) => {
            if x >= 0 {
                lemma_dec_rep(x as int);
            }
            assert(int_text(x as int).len() > 0);
        },
        ValueSpec::Long(x) => {
            if x >= 0 {
                lemma_dec_rep(x as int);
            }
            assert(int_text(x as int).len() > 0);
        },
        ValueSpec::Struct(ms) => {
            lemma_v2n_members_index(ms);
            lemma_wf_members_index(ms);
            let es = v2n_members(ms);
            if ms.len() > 0 {
                assert forall|i: int| 0 <= i < es.len() implies wf_xnode(#[trigger] es[i]) by {
                    assert(es[i] == v2n_member(ms[i]));
                    assert(wf_value(ms[i].value));
                    lemma_v2n_member_wf(ms[i]);
                }
                lemma_wf_xnodes_build(es);
            }
        },
        ValueSpec::Array(vs) => {
            lemma_v2n_values_index(vs);
            lemma_wf_values_index(vs);
            let ws = v2n_values(vs);
            if vs.len() > 0 {
                assert forall|i: int| 0 <= i < ws.len() implies wf_xnode(#[trigger] ws[i]) by {
                    assert(ws[i] == v2n_value(vs[i]));
                    assert(wf_value(vs[i]));
                    lemma_v2n_value_wf(vs[i]);
                }
                lemma_wf_xnodes_build(ws);
            }
            let dn = n.content->Elems_0[0];
            assert(wf_xnode(dn));
            assert(n.content->Elems_0 =~= seq![dn]);
            assert forall|i: int| 0 <= i < 1int implies wf_xnode(#[trigger] seq![dn][i]) by {
                assert(seq![dn][i] == dn);
            }
            lemma_wf_xnodes_build(seq![dn]);
        },
        _ => {},
    }
}

/// The `value` wrapper written for a well-formed value is well-formed.
proof fn lemma_v2n_value_wf(v: ValueSpec)
    requires
        wf_value(v),
    ensures
        wf_xnode(v2n_value(v)),
    decreases v, 3int,
{
    lemma_tags_wf();
    lemma_v2n_type_wf(v);
    let inner = v2n_type(v);
    assert forall|i: int| 0 <= i < 1int implies wf_xnode(#[trigger] seq![inner][i]) by {
        assert(seq![inner][i] == inner);
    }
    lemma_wf_xnodes_build(seq![inner]);
}

/// The `member` element written for a well-formed member is well-formed.
proof fn lemma_v2n_member_wf(m: MemberSpec)
    requires
        wf_value(m.value),
    ensures
        wf_xnode(v2n_member(m)),
    decreases m, 4int,
{
    lemma_tags_wf();
    lemma_v2n_value_wf(m.value);
    let kids = v2n_member(m).content->Elems_0;
    assert(kids.len() == 2);
    assert forall|i: int| 0 <= i < kids.len() implies wf_xnode(#[trigger] kids[i]) by {
        if i == 1 {
            assert(kids[1] == v2n_value(m.value));
        }
    }
    lemma_wf_xnodes_build(kids);
}

/// Decoding the encoding of a well-formed value without binary payloads
/// yields that value, at the level of the wire text itself: the document
/// parser inverts the serializer, and the tree decoder inverts the tree
/// encoder.
pub proof fn lemma_text_round_trip(v: ValueSpec)
    requires
        wf_value(v),
        no_base64(v),
    ensures
        sp_doc(ser_node(v2n_value(v))) == Some(v2n_value(v)),
        n2v_value(v2n_value(v)) == Some(v),
{
    lemma_v2n_value_wf(v);
    lemma_doc_print(v2n_value(v));
    lemma_value_round_trip(v);
}

} // verus!
