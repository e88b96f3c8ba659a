//! The wire decoder: the exact reading of an XML tree back into a value,
//! with the documented leniencies — `int` accepted for `i4`, and an empty
//! element accepted in both its self-closing and open/close form.

use vstd::prelude::*;
use crate::b64::{base64_decode_of, b64_decode};
use crate::text::{
    is_int_text, int_text_val, is_double_text, spec_parse_dt, chars_of, string_from_chars,
    parse_i32, parse_i64, parse_datetime, is_valid_double,
};
use crate::values::{Value, ValueSpec, Member, MemberSpec, Struct, Array, members_view, values_view};
use crate::xml::{XmlNode, XmlContent, XNode, XContent, nodes_view, lemma_nodes_view, chars_eq};
use crate::codec::{
    t_value, t_i4, t_int, t_i8, t_boolean, t_string, t_double, t_datetime, t_base64, t_struct,
    t_member, t_name, t_array, t_data, t_nil,
};

verus! {

/// What an element's text must denote for each tag, and how shapes map back
/// to values.  `None` is a decode failure.
pub open spec fn n2v_type(n: XNode) -> Option<ValueSpec>
    decreases n, 0int,
{
    if n.name == t_i4() || n.name == t_int() {
        match n.content {
            XContent::Text(t) => if is_int_text(t) && i32::MIN <= int_text_val(t) <= i32::MAX {
                Some(ValueSpec::Integer(int_text_val(t) as i32))
            } else {
                None
            },
            _ => None,
        }
    } else if n.name == t_i8() {
        match n.content {
            XContent::Text(t) => if is_int_text(t) && i64::MIN <= int_text_val(t) <= i64::MAX {
                Some(ValueSpec::Long(int_text_val(t) as i64))
            } else {
                None
            },
            _ => None,
        }
    } else if n.name == t_boolean() {
        match n.content {
            XContent::Text(t) => if t == seq!['1'] {
                Some(ValueSpec::Boolean(true))
            } else if t == seq!['0'] {
                Some(ValueSpec::Boolean(false))
            } else {
                None
            },
            _ => None,
        }
    } else if n.name == t_string() {
        match n.content {
            XContent::Empty => Some(ValueSpec::Str(Seq::empty())),
            XContent::Text(t) => Some(ValueSpec::Str(t)),
            _ => None,
        }
    } else if n.name == t_double() {
        match n.content {
            XContent::Text(t) => if is_double_text(t) {
                Some(ValueSpec::Double(t))
            } else {
                None
            },
            _ => None,
        }
    } else if n.name == t_datetime() {
        match n.content {
            XContent::Text(t) => match spec_parse_dt(t) {
                Some(d) => Some(ValueSpec::Date(d)),
                None => None,
            },
            _ => None,
        }
    } else if n.name == t_base64() {
        match n.content {
            XContent::Empty => Some(ValueSpec::Base64(Seq::empty())),
            XContent::Text(t) => match base64_decode_of(t) {
                Some(b) => Some(ValueSpec::Base64(b)),
                None => None,
            },
            _ => None,
        }
    } else if n.name == t_struct() {
        match n.content {
            XContent::Empty => Some(ValueSpec::Struct(Seq::empty())),
            XContent::Elems(es) => match n2v_members(es) {
                Some(ms) => Some(ValueSpec::Struct(ms)),
                None => None,
            },
            XContent::Text(t) => if crate::xml::all_space(t) {
                Some(ValueSpec::Struct(Seq::empty()))
            } else {
                None
            },
        }
    } else if n.name == t_array() {
        match n.content {
            XContent::Elems(es) => if es.len() == 1 && es[0].name == t_data() {
                match es[0].content {
                    XContent::Empty => Some(ValueSpec::Array(Seq::empty())),
                    XContent::Elems(vs) => match n2v_values(vs) {
                        Some(xs) => Some(ValueSpec::Array(xs)),
                        None => None,
                    },
                    XContent::Text(t) => if crate::xml::all_space(t) {
                        Some(ValueSpec::Array(Seq::empty()))
                    } else {
                        None
                    },
                }
            } else {
                None
            },
            _ => None,
        }
    } else if n.name == t_nil() {
        match n.content {
            XContent::Empty => Some(ValueSpec::Nil),
            _ => None,
        }
    } else {
        None
    }
}

/// A `value` wrapper holds exactly one typed element.
pub open spec fn n2v_value(n: XNode) -> Option<ValueSpec>
    decreases n, 1int,
{
    if n.name == t_value() {
        match n.content {
            XContent::Elems(es) => if es.len() == 1 {
                n2v_type(es[0])
            } else {
                None
            },
            _ => None,
        }
    } else {
        None
    }
}

/// A `name` element holds the member's name text.
pub open spec fn name_of(n: XNode) -> Option<Seq<char>> {
    if n.name == t_name() {
        match n.content {
            XContent::Empty => Some(Seq::empty()),
            XContent::Text(t) => Some(t),
            _ => None,
        }
    } else {
        None
    }
}

/// A `member` element holds a `name` element and a `value` wrapper, in that
/// order.
pub open spec fn n2v_member(n: XNode) -> Option<MemberSpec>
    decreases n, 2int,
{
    if n.name == t_member() {
        match n.content {
            XContent::Elems(es) => if es.len() == 2 {
                match name_of(es[0]) {
                    Some(nm) => match n2v_value(es[1]) {
                        Some(v) => Some(MemberSpec { name: nm, value: v }),
                        None => None,
                    },
                    None => None,
                }
            } else {
                None
            },
            _ => None,
        }
    } else {
        None
    }
}

pub open spec fn n2v_members(es: Seq<XNode>) -> Option<Seq<MemberSpec>>
    decreases es, 3int,
{
    if es.len() == 0 {
        Some(Seq::empty())
    } else {
        match n2v_member(es[0]) {
            Some(m) => match n2v_members(es.drop_first()) {
                Some(rest) => Some(seq![m] + rest),
                None => None,
            },
            None => None,
        }
    }
}

pub open spec fn n2v_values(es: Seq<XNode>) -> Option<Seq<ValueSpec>>
    decreases es, 3int,
{
    if es.len() == 0 {
        Some(Seq::empty())
    } else {
        match n2v_value(es[0]) {
            Some(v) => match n2v_values(es.drop_first()) {
                Some(rest) => Some(seq![v] + rest),
                None => None,
            },
            None => None,
        }
    }
}

pub proof fn lemma_n2v_members_index(es: Seq<XNode>)
    ensures
        n2v_members(es) is Some <==> (forall|i: int|
            0 <= i < es.len() ==> (#[trigger] n2v_member(es[i])) is Some),
        n2v_members(es) is Some ==> n2v_members(es).unwrap().len() == es.len(),
        n2v_members(es) is Some ==> forall|i: int|
            0 <= i < es.len() ==> n2v_members(es).unwrap()[i] == (#[trigger] n2v_member(
                es[i],
            )).unwrap(),
    decreases es,
{
    if es.len() > 0 {
        let rest = es.drop_first();
        lemma_n2v_members_index(rest);
        assert(forall|i: int| 0 <= i < rest.len() ==> rest[i] == es[i + 1]);
        if n2v_member(es[0]) is Some && n2v_members(rest) is Some {
            let m = n2v_member(es[0]).unwrap();
            let r2 = n2v_members(rest).unwrap();
            assert(n2v_members(es) == Some(seq![m] + r2));
            assert forall|i: int| 0 <= i < es.len() implies (#[trigger] n2v_member(es[i]))
                is Some by {
                if i > 0 {
                    assert(rest[i - 1] == es[i]);
                    assert(n2v_member(rest[i - 1]) is Some);
                }
            }
            assert forall|i: int| 0 <= i < es.len() implies (seq![m] + r2)[i] == (
            #[trigger] n2v_member(es[i])).unwrap() by {
                if i > 0 {
                    assert((seq![m] + r2)[i] == r2[i - 1]);
                    assert(rest[i - 1] == es[i]);
                }
            }
        } else if n2v_member(es[0]) is None {
            assert(n2v_members(es) is None);
            assert(0 < es.len() && !((#[trigger] n2v_member(es[0])) is Some));
        } else {
            assert(n2v_members(es) is None);
            let j = choose|j: int| 0 <= j < rest.len() && !((#[trigger] n2v_member(rest[j]))
                is Some);
            assert(rest[j] == es[j + 1]);
            assert(0 <= j + 1 < es.len() && !((#[trigger] n2v_member(es[j + 1])) is Some));
        }
    }
}

pub proof fn lemma_n2v_values_index(es: Seq<XNode>)
    ensures
        n2v_values(es) is Some <==> (forall|i: int|
            0 <= i < es.len() ==> (#[trigger] n2v_value(es[i])) is Some),
        n2v_values(es) is Some ==> n2v_values(es).unwrap().len() == es.len(),
        n2v_values(es) is Some ==> forall|i: int|
            0 <= i < es.len() ==> n2v_values(es).unwrap()[i] == (#[trigger] n2v_value(
                es[i],
            )).unwrap(),
    decreases es,
{
    if es.len() > 0 {
        let rest = es.drop_first();
        lemma_n2v_values_index(rest);
        assert(forall|i: int| 0 <= i < rest.len() ==> rest[i] == es[i + 1]);
        if n2v_value(es[0]) is Some && n2v_values(rest) is Some {
            let m = n2v_value(es[0]).unwrap();
            let r2 = n2v_values(rest).unwrap();
            assert(n2v_values(es) == Some(seq![m] + r2));
            assert forall|i: int| 0 <= i < es.len() implies (#[trigger] n2v_value(es[i]))
                is Some by {
                if i > 0 {
                    assert(rest[i - 1] == es[i]);
                    assert(n2v_value(rest[i - 1]) is Some);
                }
            }
            assert forall|i: int| 0 <= i < es.len() implies (seq![m] + r2)[i] == (
            #[trigger] n2v_value(es[i])).unwrap() by {
                if i > 0 {
                    assert((seq![m] + r2)[i] == r2[i - 1]);
                    assert(rest[i - 1] == es[i]);
                }
            }
        } else if n2v_value(es[0]) is None {
            assert(n2v_values(es) is None);
            assert(0 < es.len() && !((#[trigger] n2v_value(es[0])) is Some));
        } else {
            assert(n2v_values(es) is None);
            let j = choose|j: int| 0 <= j < rest.len() && !((#[trigger] n2v_value(rest[j]))
                is Some);
            assert(rest[j] == es[j + 1]);
            assert(0 <= j + 1 < es.len() && !((#[trigger] n2v_value(es[j + 1])) is Some));
        }
    }
}

/// Reads a typed element back as a value.
#[verifier::loop_isolation(false)]
pub fn node_to_type(n: &XmlNode) -> (r: Option<Value>)
    ensures
        match r {
            Some(v) => n2v_type(n@) == Some(v@),
            None => n2v_type(n@) is None,
        },
    decreases *n, 0int,
{
    if chars_eq(&n.name, &chars_of("i4")) || chars_eq(&n.name, &chars_of("int")) {
        match &n.content {
            XmlContent::Text(t) => {
                let s = string_from_chars(t);
                match parse_i32(s.as_str()) {
                    Some(v) => Some(Value::Integer(v)),
                    None => None,
                }
            },
            _ => None,
        }
    } else if chars_eq(&n.name, &chars_of("i8")) {
        match &n.content {
            XmlContent::Text(t) => {
                let s = string_from_chars(t);
                match parse_i64(s.as_str()) {
                    Some(v) => Some(Value::Long(v)),
                    None => None,
                }
            },
            _ => None,
        }
    } else if chars_eq(&n.name, &chars_of("boolean")) {
        match &n.content {
            XmlContent::Text(t) => {
                if t.len() == 1 && t[0] == '1' {
                    proof {
                        assert(t@ =~= seq!['1']);
                    }
                    Some(Value::Boolean(true))
                } else if t.len() == 1 && t[0] == '0' {
                    proof {
                        assert(t@ =~= seq!['0']);
                    }
                    Some(Value::Boolean(false))
                } else {
                    proof {
                        assert(t@ != seq!['1'] && t@ != seq!['0']);
                    }
                    None
                }
            },
            _ => None,
        }
    } else if chars_eq(&n.name, &chars_of("string")) {
        match &n.content {
            XmlContent::Empty => {
                let s = String::new();
                proof {
                    assert(s@ =~= Seq::<char>::empty());
                }
                Some(Value::Str(s))
            },
            XmlContent::Text(t) => Some(Value::Str(string_from_chars(t))),
            _ => None,
        }
    } else if chars_eq(&n.name, &chars_of("double")) {
        match &n.content {
            XmlContent::Text(t) => {
                let s = string_from_chars(t);
                if is_valid_double(s.as_str()) {
                    Some(Value::Double(s))
                } else {
                    None
                }
            },
            _ => None,
        }
    } else if chars_eq(&n.name, &chars_of("dateTime.iso8601")) {
        match &n.content {
            XmlContent::Text(t) => {
                match parse_datetime(t) {
                    Some(d) => Some(Value::Date(d)),
                    None => None,
                }
            },
            _ => None,
        }
    } else if chars_eq(&n.name, &chars_of("base64")) {
        match &n.content {
            XmlContent::Empty => {
                let b: Vec<u8> = Vec::new();
                proof {
                    assert(b@ =~= Seq::<u8>::empty());
                }
                Some(Value::Base64(b))
            },
            XmlContent::Text(t) => {
                let s = string_from_chars(t);
                match b64_decode(s.as_str()) {
                    Some(b) => Some(Value::Base64(b)),
                    None => None,
                }
            },
            _ => None,
        }
    } else if chars_eq(&n.name, &chars_of("struct")) {
        match &n.content {
            XmlContent::Empty => {
                let ms: Vec<Member> = Vec::new();
                proof {
                    assert(members_view(ms@) =~= Seq::<MemberSpec>::empty());
                }
                Some(Value::Struct(Struct { members: ms }))
            },
            XmlContent::Text(t) => {
                if crate::xml::chars_all_space(t) {
                    let ms: Vec<Member> = Vec::new();
                    proof {
                        assert(members_view(ms@) =~= Seq::<MemberSpec>::empty());
                    }
                    Some(Value::Struct(Struct { members: ms }))
                } else {
                    None
                }
            },
            XmlContent::Elems(es) => {
                let ghost vs = nodes_view(es@);
                proof {
                    lemma_nodes_view(es@);
                    lemma_n2v_members_index(vs);
                }
                let mut done: Vec<Member> = Vec::new();
                let mut i: usize = 0;
                while i < es.len()
                    invariant
                        i <= es.len(),
                        vs == nodes_view(es@),
                        vs.len() == es@.len(),
                        forall|k: int| 0 <= k < es@.len() ==> vs[k] == es@[k]@,
                        done@.len() == i,
                        forall|k: int|
                            0 <= k < i ==> (#[trigger] n2v_member(vs[k])) is Some && done@[k]@
                                == n2v_member(vs[k]).unwrap(),
                    decreases es.len() - i,
                {
                    proof {
                        assert(n.content == XmlContent::Elems(*es));
                        assert(decreases_to!(*n => n.content));
                        assert(decreases_to!(n.content => n.content->Elems_0));
                        assert(decreases_to!(*es => es@[i as int]));
                    }
                    match node_to_member(&es[i]) {
                        Some(m) => {
                            done.push(m);
                        },
                        None => {
                            proof {
                                assert(n2v_member(vs[i as int]) is None);
                                assert(n2v_members(vs) is None);
                            }
                            return None;
                        },
                    }
                    i += 1;
                }
                proof {
                    assert(n2v_members(vs) is Some);
                    crate::values::lemma_members_view(done@);
                    assert forall|k: int| 0 <= k < done@.len() implies members_view(done@)[k]
                        == n2v_members(vs).unwrap()[k] by {
                        assert(done@[k]@ == n2v_member(vs[k]).unwrap());
                    }
                    assert(members_view(done@) =~= n2v_members(vs).unwrap());
                }
                Some(Value::Struct(Struct { members: done }))
            },
        }
    } else if chars_eq(&n.name, &chars_of("array")) {
        match &n.content {
            XmlContent::Elems(es) => {
                proof {
                    lemma_nodes_view(es@);
                }
                if es.len() != 1 {
                    return None;
                }
                if !chars_eq(&es[0].name, &chars_of("data")) {
                    return None;
                }
                match &es[0].content {
                    XmlContent::Empty => {
                        let xs: Vec<Value> = Vec::new();
                        proof {
                            assert(values_view(xs@) =~= Seq::<ValueSpec>::empty());
                        }
                        Some(Value::Array(Array { values: xs }))
                    },
                    XmlContent::Elems(ws) => {
                        let ghost vs = nodes_view(ws@);
                        proof {
                            lemma_nodes_view(ws@);
                            lemma_n2v_values_index(vs);
                        }
                        let mut done: Vec<Value> = Vec::new();
                        let mut i: usize = 0;
                        while i < ws.len()
                            invariant
                                i <= ws.len(),
                                vs == nodes_view(ws@),
                                vs.len() == ws@.len(),
                                forall|k: int| 0 <= k < ws@.len() ==> vs[k] == ws@[k]@,
                                done@.len() == i,
                                forall|k: int|
                                    0 <= k < i ==> (#[trigger] n2v_value(vs[k])) is Some
                                        && done@[k]@ == n2v_value(vs[k]).unwrap(),
                            decreases ws.len() - i,
                        {
                            proof {
                                assert(n.content == XmlContent::Elems(*es));
                                assert(decreases_to!(*n => n.content));
                                assert(decreases_to!(n.content => n.content->Elems_0));
                                assert(decreases_to!(*es => es@[0int]));
                                assert(es@[0int].content == XmlContent::Elems(*ws));
                                assert(decreases_to!(es@[0int] => es@[0int].content));
                                assert(decreases_to!(es@[0int].content => es@[
                                    0int
                                ].content->Elems_0));
                                assert(decreases_to!(*ws => ws@[i as int]));
                            }
                            match node_to_value_node(&ws[i]) {
                                Some(v) => {
                                    done.push(v);
                                },
                                None => {
                                    proof {
                                        assert(n2v_value(vs[i as int]) is None);
                                        assert(n2v_values(vs) is None);
                                    }
                                    return None;
                                },
                            }
                            i += 1;
                        }
                        proof {
                            assert(n2v_values(vs) is Some);
                            crate::values::lemma_values_view(done@);
                            assert forall|k: int| 0 <= k < done@.len() implies values_view(
                                done@,
                            )[k] == n2v_values(vs).unwrap()[k] by {
                                assert(done@[k]@ == n2v_value(vs[k]).unwrap());
                            }
                            assert(values_view(done@) =~= n2v_values(vs).unwrap());
                        }
                        Some(Value::Array(Array { values: done }))
                    },
                    XmlContent::Text(t) => {
                        if crate::xml::chars_all_space(t) {
                            let xs: Vec<Value> = Vec::new();
                            proof {
                                assert(values_view(xs@) =~= Seq::<ValueSpec>::empty());
                            }
                            Some(Value::Array(Array { values: xs }))
                        } else {
                            None
                        }
                    },
                }
            },
            _ => None,
        }
    } else if chars_eq(&n.name, &chars_of("nil")) {
        match &n.content {
            XmlContent::Empty => Some(Value::Nil),
            _ => None,
        }
    } else {
        None
    }
}

/// Reads a `value` wrapper back as a value.
pub fn node_to_value_node(n: &XmlNode) -> (r: Option<Value>)
    ensures
        match r {
            Some(v) => n2v_value(n@) == Some(v@),
            None => n2v_value(n@) is None,
        },
    decreases *n, 1int,
{
    if !chars_eq(&n.name, &chars_of("value")) {
        return None;
    }
    match &n.content {
        XmlContent::Elems(es) => {
            proof {
                lemma_nodes_view(es@);
            }
            if es.len() != 1 {
                return None;
            }
            proof {
                assert(n.content == XmlContent::Elems(*es));
                assert(decreases_to!(*n => n.content));
                assert(decreases_to!(n.content => n.content->Elems_0));
                assert(decreases_to!(*es => es@[0int]));
            }
            node_to_type(&es[0])
        },
        _ => None,
    }
}

/// Reads a `member` element back as a member.
pub fn node_to_member(n: &XmlNode) -> (r: Option<Member>)
    ensures
        match r {
            Some(m) => n2v_member(n@) == Some(m@),
            None => n2v_member(n@) is None,
        },
    decreases *n, 2int,
{
    if !chars_eq(&n.name, &chars_of("member")) {
        return None;
    }
    match &n.content {
        XmlContent::Elems(es) => {
            proof {
                lemma_nodes_view(es@);
            }
            if es.len() != 2 {
                return None;
            }
            let nm: String;
            if chars_eq(&es[0].name, &chars_of("name")) {
                match &es[0].content {
                    XmlContent::Empty => {
                        nm = String::new();
                        proof {
                            assert(nm@ =~= Seq::<char>::empty());
                        }
                    },
                    XmlContent::Text(t) => {
                        nm = string_from_chars(t);
                    },
                    _ => {
                        return None;
                    },
                }
            } else {
                return None;
            }
            proof {
                assert(n.content == XmlContent::Elems(*es));
                assert(decreases_to!(*n => n.content));
                assert(decreases_to!(n.content => n.content->Elems_0));
                assert(decreases_to!(*es => es@[1int]));
            }
            match node_to_value_node(&es[1]) {
                Some(v) => Some(Member { name: nm, value: v }),
                None => None,
            }
        },
        _ => None,
    }
}

} // verus!

verus! {

/// Decodes the wire text of a `<value>` element.  Any failure is one
/// invalid-data error carrying the offending text.
pub fn decode_value(s: &str) -> (r: Result<Value, crate::client::DecodeError>)
    ensures
        match r {
            Ok(v) => crate::xml::sp_doc(s@) matches Some(n) && n2v_value(n) == Some(v@)
                && crate::values::wf_value(v@),
            Err(e) => e@ == crate::client::DecodeErrorSpec::InvalidData(s@) && !(
            crate::xml::sp_doc(s@) matches Some(n) && n2v_value(n) is Some),
        },
{
    match crate::xml::parse_document(s) {
        Some(node) => match node_to_value_node(&node) {
            Some(v) => {
                proof {
                    crate::laws::lemma_decoded_value_wf(node@);
                }
                Ok(v)
            },
            None => Err(crate::client::DecodeError::InvalidData { error: s.to_owned() }),
        },
        None => Err(crate::client::DecodeError::InvalidData { error: s.to_owned() }),
    }
}

/// Decodes the wire text of a `<struct>` element.
pub fn decode_struct(s: &str) -> (r: Result<Struct, crate::client::DecodeError>)
    ensures
        match r {
            Ok(st) => crate::xml::sp_doc(s@) matches Some(n) && n2v_type(n) == Some(
                ValueSpec::Struct(st@),
            ) && crate::values::wf_members(st@),
            Err(e) => e@ == crate::client::DecodeErrorSpec::InvalidData(s@) && !(
            crate::xml::sp_doc(s@) matches Some(n) && n2v_type(n) matches Some(w) && w
                is Struct),
        },
{
    match crate::xml::parse_document(s) {
        Some(node) => match node_to_type(&node) {
            Some(Value::Struct(st)) => {
                proof {
                    crate::laws::lemma_decoded_type_wf(node@);
                }
                Ok(st)
            },
            _ => Err(crate::client::DecodeError::InvalidData { error: s.to_owned() }),
        },
        None => Err(crate::client::DecodeError::InvalidData { error: s.to_owned() }),
    }
}

/// Decodes the wire text of an `<array>` element.
pub fn decode_array(s: &str) -> (r: Result<Array, crate::client::DecodeError>)
    ensures
        match r {
            Ok(a) => crate::xml::sp_doc(s@) matches Some(n) && n2v_type(n) == Some(
                ValueSpec::Array(a@),
            ) && crate::values::wf_values(a@),
            Err(e) => e@ == crate::client::DecodeErrorSpec::InvalidData(s@) && !(
            crate::xml::sp_doc(s@) matches Some(n) && n2v_type(n) matches Some(w) && w
                is Array),
        },
{
    match crate::xml::parse_document(s) {
        Some(node) => match node_to_type(&node) {
            Some(Value::Array(a)) => {
                proof {
                    crate::laws::lemma_decoded_type_wf(node@);
                }
                Ok(a)
            },
            _ => Err(crate::client::DecodeError::InvalidData { error: s.to_owned() }),
        },
        None => Err(crate::client::DecodeError::InvalidData { error: s.to_owned() }),
    }
}

/// Decodes the wire text of a `<member>` element.
pub fn decode_member(s: &str) -> (r: Result<Member, crate::client::DecodeError>)
    ensures
        match r {
            Ok(m) => crate::xml::sp_doc(s@) matches Some(n) && n2v_member(n) == Some(m@)
                && crate::values::wf_value(m@.value),
            Err(e) => e@ == crate::client::DecodeErrorSpec::InvalidData(s@) && !(
            crate::xml::sp_doc(s@) matches Some(n) && n2v_member(n) is Some),
        },
{
    match crate::xml::parse_document(s) {
        Some(node) => match node_to_member(&node) {
            Some(m) => {
                proof {
                    crate::laws::lemma_decoded_member_wf(node@);
                }
                Ok(m)
            },
            None => Err(crate::client::DecodeError::InvalidData { error: s.to_owned() }),
        },
        None => Err(crate::client::DecodeError::InvalidData { error: s.to_owned() }),
    }
}

} // verus!
