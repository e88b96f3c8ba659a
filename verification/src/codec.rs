//! The wire codec: the exact mapping between values and XML trees, and the
//! encoder producing the canonical wire text.

use vstd::prelude::*;
use crate::b64::{base64_of, b64_encode};
use crate::text::{int_text, dt_text, chars_of, fmt_i32, fmt_i64};
use crate::values::{Value, ValueSpec, Member, MemberSpec, Struct, Array, members_view, values_view};
use crate::xml::{XmlNode, XmlContent, XNode, XContent, nodes_view, lemma_nodes_view};

verus! {

pub open spec fn t_value() -> Seq<char> {
    "value"@
}

pub open spec fn t_i4() -> Seq<char> {
    "i4"@
}

pub open spec fn t_int() -> Seq<char> {
    "int"@
}

pub open spec fn t_i8() -> Seq<char> {
    "i8"@
}

pub open spec fn t_boolean() -> Seq<char> {
    "boolean"@
}

pub open spec fn t_string() -> Seq<char> {
    "string"@
}

pub open spec fn t_double() -> Seq<char> {
    "double"@
}

pub open spec fn t_datetime() -> Seq<char> {
    "dateTime.iso8601"@
}

pub open spec fn t_base64() -> Seq<char> {
    "base64"@
}

pub open spec fn t_struct() -> Seq<char> {
    "struct"@
}

pub open spec fn t_member() -> Seq<char> {
    "member"@
}

pub open spec fn t_name() -> Seq<char> {
    "name"@
}

pub open spec fn t_array() -> Seq<char> {
    "array"@
}

pub open spec fn t_data() -> Seq<char> {
    "data"@
}

pub open spec fn t_nil() -> Seq<char> {
    "nil"@
}

/// Text content, or nothing where the text is empty.
pub open spec fn text_or_empty(s: Seq<char>) -> XContent {
    if s.len() == 0 {
        XContent::Empty
    } else {
        XContent::Text(s)
    }
}

/// Child elements, or nothing where there are none.
pub open spec fn elems_or_empty(es: Seq<XNode>) -> XContent {
    if es.len() == 0 {
        XContent::Empty
    } else {
        XContent::Elems(es)
    }
}

/// The typed element written for a value: the exact tag mapping of the wire
/// format.  The encoder always writes `i4` for 32-bit integers.
pub open spec fn v2n_type(v: ValueSpec) -> XNode
    decreases v, 0int,
{
    match v {
        ValueSpec::Integer(n) => XNode { name: t_i4(), content: XContent::Text(int_text(n as int)) },
        ValueSpec::Long(n) => XNode { name: t_i8(), content: XContent::Text(int_text(n as int)) },
        ValueSpec::Boolean(b) => XNode {
            name: t_boolean(),
            content: XContent::Text(if b {
                seq!['1']
            } else {
                seq!['0']
            }),
        },
        ValueSpec::Str(s) => XNode { name: t_string(), content: text_or_empty(s) },
        ValueSpec::Double(t) => XNode { name: t_double(), content: text_or_empty(t) },
        ValueSpec::Date(d) => XNode { name: t_datetime(), content: XContent::Text(dt_text(d)) },
        ValueSpec::Base64(b) => XNode { name: t_base64(), content: text_or_empty(base64_of(b)) },
        ValueSpec::Struct(ms) => XNode {
            name: t_struct(),
            content: elems_or_empty(v2n_members(ms)),
        },
        ValueSpec::Array(vs) => XNode {
            name: t_array(),
            content: XContent::Elems(
                seq![XNode { name: t_data(), content: elems_or_empty(v2n_values(vs)) }],
            ),
        },
        ValueSpec::Nil => XNode { name: t_nil(), content: XContent::Empty },
    }
}

/// The `value` wrapper element written around a typed element.
pub open spec fn v2n_value(v: ValueSpec) -> XNode
    decreases v, 1int,
{
    XNode { name: t_value(), content: XContent::Elems(seq![v2n_type(v)]) }
}

/// The `member` element written for a struct member.
pub open spec fn v2n_member(m: MemberSpec) -> XNode
    decreases m, 0int,
{
    XNode {
        name: t_member(),
        content: XContent::Elems(
            seq![
                XNode { name: t_name(), content: text_or_empty(m.name) },
                v2n_value(m.value),
            ],
        ),
    }
}

pub open spec fn v2n_members(ms: Seq<MemberSpec>) -> Seq<XNode>
    decreases ms, 0int,
{
    if ms.len() == 0 {
        Seq::empty()
    } else {
        seq![v2n_member(ms[0])] + v2n_members(ms.drop_first())
    }
}

pub open spec fn v2n_values(vs: Seq<ValueSpec>) -> Seq<XNode>
    decreases vs, 0int,
{
    if vs.len() == 0 {
        Seq::empty()
    } else {
        seq![v2n_value(vs[0])] + v2n_values(vs.drop_first())
    }
}

pub proof fn lemma_v2n_members_index(ms: Seq<MemberSpec>)
    ensures
        v2n_members(ms).len() == ms.len(),
        forall|i: int| 0 <= i < ms.len() ==> v2n_members(ms)[i] == v2n_member(ms[i]),
    decreases ms,
{
    if ms.len() > 0 {
        lemma_v2n_members_index(ms.drop_first());
        assert(forall|i: int|
            0 <= i < ms.drop_first().len() ==> ms.drop_first()[i] == ms[i + 1]);
    }
}

pub proof fn lemma_v2n_values_index(vs: Seq<ValueSpec>)
    ensures
        v2n_values(vs).len() == vs.len(),
        forall|i: int| 0 <= i < vs.len() ==> v2n_values(vs)[i] == v2n_value(vs[i]),
    decreases vs,
{
    if vs.len() > 0 {
        lemma_v2n_values_index(vs.drop_first());
        assert(forall|i: int|
            0 <= i < vs.drop_first().len() ==> vs.drop_first()[i] == vs[i + 1]);
    }
}

/// Builds the typed element for a value.
#[verifier::loop_isolation(false)]
pub fn type_node_of(v: &Value) -> (r: XmlNode)
    requires
        crate::values::wf_value(v@),
    ensures
        r@ == v2n_type(v@),
    decreases *v, 0int,
{
    match v {
        Value::Integer(n) => {
            let s = fmt_i32(*n);
            XmlNode { name: chars_of("i4"), content: XmlContent::Text(chars_of(s.as_str())) }
        },
        Value::Long(n) => {
            let s = fmt_i64(*n);
            XmlNode { name: chars_of("i8"), content: XmlContent::Text(chars_of(s.as_str())) }
        },
        Value::Boolean(b) => {
            let t: Vec<char> = if *b {
                vec!['1']
            } else {
                vec!['0']
            };
            proof {
                if *b {
                    assert(t@ =~= seq!['1']);
                } else {
                    assert(t@ =~= seq!['0']);
                }
            }
            XmlNode { name: chars_of("boolean"), content: XmlContent::Text(t) }
        },
        Value::Str(s) => {
            let t = chars_of(s.as_str());
            if t.len() == 0 {
                XmlNode { name: chars_of("string"), content: XmlContent::Empty }
            } else {
                XmlNode { name: chars_of("string"), content: XmlContent::Text(t) }
            }
        },
        Value::Double(s) => {
            let t = chars_of(s.as_str());
            if t.len() == 0 {
                XmlNode { name: chars_of("double"), content: XmlContent::Empty }
            } else {
                XmlNode { name: chars_of("double"), content: XmlContent::Text(t) }
            }
        },
        Value::Date(d) => {
            let t = crate::text::fmt_datetime(d);
            XmlNode { name: chars_of("dateTime.iso8601"), content: XmlContent::Text(t) }
        },
        Value::Base64(b) => {
            let s = b64_encode(b);
            let t = chars_of(s.as_str());
            if t.len() == 0 {
                XmlNode { name: chars_of("base64"), content: XmlContent::Empty }
            } else {
                XmlNode { name: chars_of("base64"), content: XmlContent::Text(t) }
            }
        },
        Value::Struct(st) => {
            let mut kids: Vec<XmlNode> = Vec::new();
            let ghost ms = members_view(st.members@);
            proof {
                crate::values::lemma_members_view(st.members@);
                lemma_v2n_members_index(ms);
                crate::values::lemma_wf_members_index(ms);
            }
            let mut i: usize = 0;
            while i < st.members.len()
                invariant
                    i <= st.members.len(),
                    ms == members_view(st.members@),
                    ms.len() == st.members@.len(),
                    forall|k: int| 0 <= k < st.members@.len() ==> ms[k] == st.members@[k]@,
                    v2n_members(ms).len() == ms.len(),
                    forall|k: int| 0 <= k < ms.len() ==> v2n_members(ms)[k] == v2n_member(ms[k]),
                    kids@.len() == i,
                    forall|k: int| 0 <= k < i ==> kids@[k]@ == v2n_members(ms)[k],
                decreases st.members.len() - i,
            {
                proof {
                    assert(*v == Value::Struct(*st));
                    assert(decreases_to!(*v => *st));
                    assert(decreases_to!(*st => st.members));
                    assert(decreases_to!(st.members => st.members@[i as int]));
                }
                proof {
                    assert(ms[i as int] == st.members@[i as int]@);
                    assert(crate::values::wf_value(ms[i as int].value));
                }
                let kid = member_node_of(&st.members[i]);
                kids.push(kid);
                i += 1;
            }
            proof {
                lemma_nodes_view(kids@);
                assert(nodes_view(kids@) =~= v2n_members(ms));
            }
            if kids.len() == 0 {
                XmlNode { name: chars_of("struct"), content: XmlContent::Empty }
            } else {
                XmlNode { name: chars_of("struct"), content: XmlContent::Elems(kids) }
            }
        },
        Value::Array(ar) => {
            let mut kids: Vec<XmlNode> = Vec::new();
            let ghost vs = values_view(ar.values@);
            proof {
                crate::values::lemma_values_view(ar.values@);
                lemma_v2n_values_index(vs);
                crate::values::lemma_wf_values_index(vs);
            }
            let mut i: usize = 0;
            while i < ar.values.len()
                invariant
                    i <= ar.values.len(),
                    vs == values_view(ar.values@),
                    vs.len() == ar.values@.len(),
                    forall|k: int| 0 <= k < ar.values@.len() ==> vs[k] == ar.values@[k]@,
                    v2n_values(vs).len() == vs.len(),
                    forall|k: int| 0 <= k < vs.len() ==> v2n_values(vs)[k] == v2n_value(vs[k]),
                    kids@.len() == i,
                    forall|k: int| 0 <= k < i ==> kids@[k]@ == v2n_values(vs)[k],
                decreases ar.values.len() - i,
            {
                proof {
                    assert(*v == Value::Array(*ar));
                    assert(decreases_to!(*v => *ar));
                    assert(decreases_to!(*ar => ar.values));
                    assert(decreases_to!(ar.values => ar.values@[i as int]));
                }
                proof {
                    assert(vs[i as int] == ar.values@[i as int]@);
                    assert(crate::values::wf_value(vs[i as int]));
                }
                let kid = value_node_of(&ar.values[i]);
                kids.push(kid);
                i += 1;
            }
            proof {
                lemma_nodes_view(kids@);
                assert(nodes_view(kids@) =~= v2n_values(vs));
            }
            let data = if kids.len() == 0 {
                XmlNode { name: chars_of("data"), content: XmlContent::Empty }
            } else {
                XmlNode { name: chars_of("data"), content: XmlContent::Elems(kids) }
            };
            proof {
                assert(data@ == (XNode {
                    name: t_data(),
                    content: elems_or_empty(v2n_values(vs)),
                }));
            }
            let mut outer: Vec<XmlNode> = Vec::new();
            outer.push(data);
            proof {
                lemma_nodes_view(outer@);
                assert(nodes_view(outer@) =~= seq![
                    XNode { name: t_data(), content: elems_or_empty(v2n_values(vs)) },
                ]);
            }
            XmlNode { name: chars_of("array"), content: XmlContent::Elems(outer) }
        },
        Value::Nil => XmlNode { name: chars_of("nil"), content: XmlContent::Empty },
    }
}

/// Builds the `value` wrapper element for a value.
pub fn value_node_of(v: &Value) -> (r: XmlNode)
    requires
        crate::values::wf_value(v@),
    ensures
        r@ == v2n_value(v@),
    decreases *v, 1int,
{
    let inner = type_node_of(v);
    let mut kids: Vec<XmlNode> = Vec::new();
    kids.push(inner);
    proof {
        lemma_nodes_view(kids@);
        assert(nodes_view(kids@) =~= seq![v2n_type(v@)]);
    }
    XmlNode { name: chars_of("value"), content: XmlContent::Elems(kids) }
}

/// Builds the `member` element for a struct member.
pub fn member_node_of(m: &Member) -> (r: XmlNode)
    requires
        crate::values::wf_value(m@.value),
    ensures
        r@ == v2n_member(m@),
    decreases *m, 2int,
{
    let nm = chars_of(m.name.as_str());
    let name_node = if nm.len() == 0 {
        XmlNode { name: chars_of("name"), content: XmlContent::Empty }
    } else {
        XmlNode { name: chars_of("name"), content: XmlContent::Text(nm) }
    };
    proof {
        assert(decreases_to!(*m => m.value));
    }
    let val_node = value_node_of(&m.value);
    let mut kids: Vec<XmlNode> = Vec::new();
    kids.push(name_node);
    kids.push(val_node);
    proof {
        lemma_nodes_view(kids@);
        assert(nodes_view(kids@) =~= seq![
            XNode { name: t_name(), content: text_or_empty(m@.name) },
            v2n_value(m@.value),
        ]);
    }
    XmlNode { name: chars_of("member"), content: XmlContent::Elems(kids) }
}

/// Writes a node as a string.
fn node_to_string(n: &XmlNode) -> (r: String)
    ensures
        r@ == crate::xml::ser_node(n@),
{
    let mut out: Vec<char> = Vec::new();
    crate::xml::write_node(n, &mut out);
    crate::text::string_from_chars(&out)
}

/// Encodes a value as its wire text, a `<value>` element.
pub fn encode_value(v: &Value) -> (r: String)
    requires
        crate::values::wf_value(v@),
    ensures
        r@ == crate::xml::ser_node(v2n_value(v@)),
{
    let n = value_node_of(v);
    node_to_string(&n)
}

/// Encodes a struct as its wire text, a `<struct>` element; an empty struct
/// is written self-closing.
pub fn encode_struct(s: &Struct) -> (r: String)
    requires
        crate::values::wf_members(s@),
    ensures
        r@ == crate::xml::ser_node(v2n_type(ValueSpec::Struct(s@))),
{
    let v = Value::Struct(Struct { members: clone_members(&s.members) });
    let n = type_node_of(&v);
    node_to_string(&n)
}

/// Encodes an array as its wire text, an `<array>` element with one `<data>`
/// child; an empty array is written `<array><data/></array>`.
pub fn encode_array(a: &Array) -> (r: String)
    requires
        crate::values::wf_values(a@),
    ensures
        r@ == crate::xml::ser_node(v2n_type(ValueSpec::Array(a@))),
{
    let v = Value::Array(Array { values: clone_values(&a.values) });
    let n = type_node_of(&v);
    node_to_string(&n)
}

/// Encodes a member as its wire text, a `<member>` element.
pub fn encode_member(m: &Member) -> (r: String)
    requires
        crate::values::wf_value(m@.value),
    ensures
        r@ == crate::xml::ser_node(v2n_member(m@)),
{
    let n = member_node_of(m);
    node_to_string(&n)
}

/// A structural copy of a value.
#[verifier::loop_isolation(false)]
pub fn clone_value(v: &Value) -> (r: Value)
    ensures
        r@ == v@,
    decreases *v, 0int,
{
    match v {
        Value::Integer(n) => Value::Integer(*n),
        Value::Long(n) => Value::Long(*n),
        Value::Boolean(b) => Value::Boolean(*b),
        Value::Str(s) => Value::Str(s.clone()),
        Value::Double(s) => Value::Double(s.clone()),
        Value::Date(d) => Value::Date(*d),
        Value::Base64(b) => {
            let mut c: Vec<u8> = Vec::new();
            let mut i: usize = 0;
            while i < b.len()
                invariant
                    i <= b.len(),
                    c@ =~= b@.take(i as int),
                decreases b.len() - i,
            {
                c.push(b[i]);
                proof {
                    assert(c@ =~= b@.take(i + 1));
                }
                i += 1;
            }
            proof {
                assert(b@.take(b@.len() as int) =~= b@);
            }
            Value::Base64(c)
        },
        Value::Struct(st) => {
            proof {
                assert(decreases_to!(*v => *st));
                assert(decreases_to!(*st => st.members));
            }
            Value::Struct(Struct { members: clone_members(&st.members) })
        },
        Value::Array(ar) => {
            proof {
                assert(decreases_to!(*v => *ar));
                assert(decreases_to!(*ar => ar.values));
            }
            Value::Array(Array { values: clone_values(&ar.values) })
        },
        Value::Nil => Value::Nil,
    }
}

/// A structural copy of a member list.
#[verifier::loop_isolation(false)]
pub fn clone_members(ms: &Vec<Member>) -> (r: Vec<Member>)
    ensures
        members_view(r@) == members_view(ms@),
    decreases *ms, 0int,
{
    let mut r: Vec<Member> = Vec::new();
    let mut i: usize = 0;
    proof {
        crate::values::lemma_members_view(ms@);
    }
    while i < ms.len()
        invariant
            i <= ms.len(),
            r@.len() == i,
            forall|k: int| 0 <= k < ms@.len() ==> members_view(ms@)[k] == ms@[k]@,
            members_view(ms@).len() == ms@.len(),
            forall|k: int| 0 <= k < i ==> r@[k]@ == ms@[k]@,
        decreases ms.len() - i,
    {
        proof {
            assert(decreases_to!(*ms => ms@[i as int]));
            assert(decreases_to!(ms@[i as int] => ms@[i as int].value));
        }
        let m = &ms[i];
        let c = Member { name: m.name.clone(), value: clone_value(&m.value) };
        r.push(c);
        i += 1;
    }
    proof {
        crate::values::lemma_members_view(r@);
        assert(members_view(r@) =~= members_view(ms@));
    }
    r
}

/// A structural copy of a value list.
#[verifier::loop_isolation(false)]
pub fn clone_values(vs: &Vec<Value>) -> (r: Vec<Value>)
    ensures
        values_view(r@) == values_view(vs@),
    decreases *vs, 0int,
{
    let mut r: Vec<Value> = Vec::new();
    let mut i: usize = 0;
    proof {
        crate::values::lemma_values_view(vs@);
    }
    while i < vs.len()
        invariant
            i <= vs.len(),
            r@.len() == i,
            forall|k: int| 0 <= k < vs@.len() ==> values_view(vs@)[k] == vs@[k]@,
            values_view(vs@).len() == vs@.len(),
            forall|k: int| 0 <= k < i ==> r@[k]@ == vs@[k]@,
        decreases vs.len() - i,
    {
        proof {
            assert(decreases_to!(*vs => vs@[i as int]));
        }
        let c = clone_value(&vs[i]);
        r.push(c);
        i += 1;
    }
    proof {
        crate::values::lemma_values_view(r@);
        assert(values_view(r@) =~= values_view(vs@));
    }
    r
}

} // verus!
