//! Round-trip laws of the codec: reading back the tree written for a value
//! yields that value, for every well-formed value whose binary payloads are
//! set aside (their wire text is named, not interpreted, at the spec level).

use vstd::prelude::*;
use crate::values::{
    ValueSpec, MemberSpec, wf_value, lemma_wf_members_index, lemma_wf_values_index,
};
use crate::codec::{
    v2n_type, v2n_value, v2n_member, v2n_members, v2n_values, lemma_v2n_members_index,
    lemma_v2n_values_index,
};
use crate::decode::{
    n2v_type, n2v_value, n2v_member, n2v_members, n2v_values, name_of, lemma_n2v_members_index,
    lemma_n2v_values_index,
};
use crate::text::{lemma_int_text_round, lemma_dt_round, double_body};
use crate::xml::{XNode, XContent};

verus! {

/// No binary payload anywhere in the value.
pub open spec fn no_base64(v: ValueSpec) -> bool
    decreases v,
{
    match v {
        ValueSpec::Base64(_) => false,
        ValueSpec::Struct(ms) => no_base64_members(ms),
        ValueSpec::Array(vs) => no_base64_values(vs),
        _ => true,
    }
}

pub open spec fn no_base64_members(ms: Seq<MemberSpec>) -> bool
    decreases ms,
{
    ms.len() == 0 || (no_base64_members(ms.drop_last()) && no_base64(ms.last().value))
}

pub open spec fn no_base64_values(vs: Seq<ValueSpec>) -> bool
    decreases vs,
{
    vs.len() == 0 || (no_base64_values(vs.drop_last()) && no_base64(vs.last()))
}

pub proof fn lemma_no_base64_members_index(ms: Seq<MemberSpec>)
    requires
        no_base64_members(ms),
    ensures
        forall|i: int| 0 <= i < ms.len() ==> no_base64(#[trigger] ms[i].value),
    decreases ms,
{
    if ms.len() > 0 {
        lemma_no_base64_members_index(ms.drop_last());
        assert(forall|i: int| 0 <= i < ms.len() - 1 ==> ms.drop_last()[i] == ms[i]);
    }
}

pub proof fn lemma_no_base64_values_index(vs: Seq<ValueSpec>)
    requires
        no_base64_values(vs),
    ensures
        forall|i: int| 0 <= i < vs.len() ==> no_base64(#[trigger] vs[i]),
    decreases vs,
{
    if vs.len() > 0 {
        lemma_no_base64_values_index(vs.drop_last());
        assert(forall|i: int| 0 <= i < vs.len() - 1 ==> vs.drop_last()[i] == vs[i]);
    }
}

proof fn reveal_tags()
    ensures
        crate::codec::t_value() == "value"@,
        "i4"@.len() == 2,
        "int"@.len() == 3,
        "i8"@.len() == 2,
        "boolean"@.len() == 7,
        "string"@.len() == 6,
        "double"@.len() == 6,
        "dateTime.iso8601"@.len() == 16,
        "base64"@.len() == 6,
        "struct"@.len() == 6,
        "member"@.len() == 6,
        "name"@.len() == 4,
        "array"@.len() == 5,
        "data"@.len() == 4,
        "nil"@.len() == 3,
        "value"@.len() == 5,
        "i4"@ != "i8"@,
        "string"@ != "double"@,
        "string"@ != "base64"@,
        "string"@ != "struct"@,
        "double"@ != "base64"@,
        "double"@ != "struct"@,
        "base64"@ != "struct"@,
        "int"@ != "nil"@,
{
    reveal_strlit("value");
    reveal_strlit("i4");
    reveal_strlit("int");
    reveal_strlit("i8");
    reveal_strlit("boolean");
    reveal_strlit("string");
    reveal_strlit("double");
    reveal_strlit("dateTime.iso8601");
    reveal_strlit("base64");
    reveal_strlit("struct");
    reveal_strlit("member");
    reveal_strlit("name");
    reveal_strlit("array");
    reveal_strlit("data");
    reveal_strlit("nil");
    assert("i4"@[1] != "i8"@[1]);
    assert("string"@[0] != "double"@[0]);
    assert("string"@[0] != "base64"@[0]);
    assert("string"@[3] != "struct"@[3]);
    assert("double"@[0] != "base64"@[0]);
    assert("double"@[0] != "struct"@[0]);
    assert("base64"@[0] != "struct"@[0]);
    assert("int"@[0] != "nil"@[0]);
}

/// Reading back the typed element written for a well-formed value yields
/// that value.
#[verifier::rlimit(100)]
pub proof fn lemma_type_round_trip(v: ValueSpec)
    requires
        wf_value(v),
        no_base64(v),
    ensures
        n2v_type(v2n_type(v)) == Some(v),
    decreases v, 2int,
{
    reveal_tags();
    let n = v2n_type(v);
    match v {
        ValueSpec::Integer(x) => {
            lemma_int_text_round(x as int);
            assert(n2v_type(n) == Some(v));
        },
        ValueSpec::Long(x) => {
            lemma_int_text_round(x as int);
            assert(n2v_type(n) == Some(v));
        },
        ValueSpec::Boolean(b) => {
            assert(n2v_type(n) == Some(v));
        },
        ValueSpec::Str(s) => {
            if s.len() == 0 {
                assert(s =~= Seq::<char>::empty());
            }
            assert(n2v_type(n) == Some(v));
        },
        ValueSpec::Double(t) => {
            assert(t.len() > 0) by {
                if t.len() == 0 {
                    assert(double_body(t).len() == 0);
                }
            }
        },
        ValueSpec::Date(d) => {
            lemma_dt_round(d);
            assert(n2v_type(n) == Some(v));
        },
        ValueSpec::Base64(b) => {},
        ValueSpec::Struct(ms) => {
            lemma_v2n_members_index(ms);
            lemma_wf_members_index(ms);
            lemma_no_base64_members_index(ms);
            let es = v2n_members(ms);
            if ms.len() == 0 {
                assert(n.content == XContent::Empty);
                assert(n2v_type(n) == Some(ValueSpec::Struct(Seq::<MemberSpec>::empty())));
                assert(Seq::<MemberSpec>::empty() =~= ms);
            } else {
                assert forall|i: int| 0 <= i < es.len() implies (#[trigger] n2v_member(es[i]))
                    == Some(ms[i]) by {
                    assert(es[i] == v2n_member(ms[i]));
                    assert(wf_value(ms[i].value));
                    assert(no_base64(ms[i].value));
                    lemma_member_round_trip(ms[i]);
                }
                lemma_n2v_members_index(es);
                assert(n2v_members(es) is Some);
                assert forall|i: int| 0 <= i < ms.len() implies n2v_members(es).unwrap()[i]
                    == ms[i] by {
                    assert((#[trigger] n2v_member(es[i])) == Some(ms[i]));
                }
                assert(n2v_members(es).unwrap() =~= ms);
            }
        },
        ValueSpec::Array(vs) => {
            lemma_v2n_values_index(vs);
            lemma_wf_values_index(vs);
            lemma_no_base64_values_index(vs);
            let ws = v2n_values(vs);
            if vs.len() == 0 {
                assert(n2v_type(n) == Some(ValueSpec::Array(Seq::<ValueSpec>::empty())));
                assert(Seq::<ValueSpec>::empty() =~= vs);
            } else {
                assert forall|i: int| 0 <= i < ws.len() implies (#[trigger] n2v_value(ws[i]))
                    == Some(vs[i]) by {
                    assert(ws[i] == v2n_value(vs[i]));
                    assert(wf_value(vs[i]));
                    assert(no_base64(vs[i]));
                    lemma_value_round_trip(vs[i]);
                }
                lemma_n2v_values_index(ws);
                assert(n2v_values(ws) is Some);
                assert forall|i: int| 0 <= i < vs.len() implies n2v_values(ws).unwrap()[i]
                    == vs[i] by {
                    assert((#[trigger] n2v_value(ws[i])) == Some(vs[i]));
                }
                assert(n2v_values(ws).unwrap() =~= vs);
            }
        },
        ValueSpec::Nil => {
            assert(n2v_type(n) == Some(v));
        },
    }
}

/// Reading back the `value` wrapper written for a well-formed value yields
/// that value.
pub proof fn lemma_value_round_trip(v: ValueSpec)
    requires
        wf_value(v),
        no_base64(v),
    ensures
        n2v_value(v2n_value(v)) == Some(v),
    decreases v, 3int,
{
    reveal_tags();
    lemma_type_round_trip(v);
}

/// Reading back the `member` element written for a well-formed member
/// yields that member.
pub proof fn lemma_member_round_trip(m: MemberSpec)
    requires
        wf_value(m.value),
        no_base64(m.value),
    ensures
        n2v_member(v2n_member(m)) == Some(m),
    decreases m, 4int,
{
    reveal_tags();
    reveal_strlit("member");
    reveal_strlit("name");
    lemma_value_round_trip(m.value);
    let n = v2n_member(m);
    let es = n.content->Elems_0;
    assert(name_of(es[0]) == Some(m.name));
    assert(n2v_member(n) == Some(MemberSpec { name: m.name, value: m.value }));
}

} // verus!

verus! {

/// Whatever the decoder accepts is itself well-formed: decoding never
/// yields a value the encoder could not write back.
pub proof fn lemma_decoded_type_wf(n: XNode)
    ensures
        n2v_type(n) matches Some(v) ==> wf_value(v),
    decreases n, 2int,
{
    if n2v_type(n) is Some {
        let v = n2v_type(n).unwrap();
        match v {
            ValueSpec::Struct(ms) => {
                match n.content {
                    XContent::Elems(es) => {
                        lemma_n2v_members_index(es);
                        assert forall|i: int| 0 <= i < ms.len() implies wf_value(
                            #[trigger] ms[i].value,
                        ) by {
                            assert(ms[i] == n2v_member(es[i]).unwrap());
                            lemma_decoded_member_wf(es[i]);
                        }
                        crate::values::lemma_wf_members_build(ms);
                    },
                    _ => {},
                }
            },
            ValueSpec::Array(vs) => {
                match n.content {
                    XContent::Elems(es) => {
                        if es.len() == 1 {
                            match es[0].content {
                                XContent::Elems(ws) => {
                                    lemma_n2v_values_index(ws);
                                    assert forall|i: int| 0 <= i < vs.len() implies wf_value(
                                        #[trigger] vs[i],
                                    ) by {
                                        assert(vs[i] == n2v_value(ws[i]).unwrap());
                                        lemma_decoded_value_wf(ws[i]);
                                    }
                                    crate::values::lemma_wf_values_build(vs);
                                },
                                _ => {},
                            }
                        }
                    },
                    _ => {},
                }
            },
            _ => {},
        }
    }
}

/// Whatever the decoder accepts out of a `value` wrapper is well-formed.
pub proof fn lemma_decoded_value_wf(n: XNode)
    ensures
        n2v_value(n) matches Some(v) ==> wf_value(v),
    decreases n, 3int,
{
    if n2v_value(n) is Some {
        match n.content {
            XContent::Elems(es) => {
                if es.len() == 1 {
                    lemma_decoded_type_wf(es[0]);
                }
            },
            _ => {},
        }
    }
}

/// Whatever the decoder accepts out of a `member` element holds a
/// well-formed value.
pub proof fn lemma_decoded_member_wf(n: XNode)
    ensures
        n2v_member(n) matches Some(m) ==> wf_value(m.value),
    decreases n, 4int,
{
    if n2v_member(n) is Some {
        match n.content {
            XContent::Elems(es) => {
                if es.len() == 2 {
                    lemma_decoded_value_wf(es[1]);
                }
            },
            _ => {},
        }
    }
}

} // verus!
