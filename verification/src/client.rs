//! The client-side call pipeline: call serialization, the two-pass
//! response/fault resolution, the three-way error taxonomy, the local-socket
//! request fields and frame handling, and the multicall outcome decoder.

use vstd::prelude::*;
use crate::codec::v2n_value;
use crate::decode::n2v_value;
use crate::text::{chars_of, string_from_chars, fmt_usize, dec_rep};
use crate::values::{Value, ValueSpec, Member, MemberSpec, members_view, values_view, value_view, wf_values};
use crate::xml::{XmlNode, XmlContent, XNode, XContent, ser_node, nodes_view, lemma_nodes_view};

verus! {

pub open spec fn t_method_call() -> Seq<char> {
    "methodCall"@
}

pub open spec fn t_method_name() -> Seq<char> {
    "methodName"@
}

pub open spec fn t_params() -> Seq<char> {
    "params"@
}

pub open spec fn t_param() -> Seq<char> {
    "param"@
}

pub open spec fn t_method_response() -> Seq<char> {
    "methodResponse"@
}

pub open spec fn t_fault() -> Seq<char> {
    "fault"@
}

/// A server-declared application error: a numeric code and a message.
#[derive(Debug, PartialEq)]
pub struct Fault {
    pub code: i32,
    pub string: String,
}

/// Mathematical view of a fault.
pub ghost struct FaultSpec {
    pub code: i32,
    pub string: Seq<char>,
}

impl View for Fault {
    type V = FaultSpec;

    open spec fn view(&self) -> FaultSpec {
        FaultSpec { code: self.code, string: self.string@ }
    }
}

impl Fault {
    /// A fault from its code and message.
    pub fn new(code: i32, string: String) -> (r: Fault)
        ensures
            r@ == (FaultSpec { code, string: string@ }),
    {
        Fault { code, string }
    }
}

/// The two-member struct a fault is written as.
pub open spec fn fault_members(f: FaultSpec) -> Seq<MemberSpec> {
    seq![
        MemberSpec { name: "faultCode"@, value: ValueSpec::Integer(f.code) },
        MemberSpec { name: "faultString"@, value: ValueSpec::Str(f.string) },
    ]
}

impl Fault {
    /// The struct form of a fault: a `faultCode` member and a `faultString`
    /// member, in that order.
    pub fn to_struct(&self) -> (r: crate::values::Struct)
        ensures
            members_view(r.members@) == fault_members(self@),
    {
        let mut members: Vec<Member> = Vec::new();
        members.push(Member {
            name: "faultCode".to_owned(),
            value: Value::Integer(self.code),
        });
        members.push(Member {
            name: "faultString".to_owned(),
            value: Value::Str(self.string.clone()),
        });
        proof {
            crate::values::lemma_members_view(members@);
            assert(members_view(members@) =~= fault_members(self@));
        }
        crate::values::Struct { members }
    }
}

/// Reading a fault back out of its struct form yields the same fault; extra
/// members after the required two would be ignored.
pub proof fn lemma_fault_struct_round(f: FaultSpec)
    ensures
        fault_of_struct(fault_members(f)) == Some(f),
{
    reveal_strlit("faultCode");
    reveal_strlit("faultString");
    let ms = fault_members(f);
    assert("faultCode"@.len() != "faultString"@.len());
    assert(find_member_from(ms, "faultCode"@, 0) == Some(ValueSpec::Integer(f.code)));
    assert(find_member_from(ms, "faultString"@, 1) == Some(ValueSpec::Str(f.string)));
}

/// A decode failure: malformed wire data, a missing required field, or a
/// value of the wrong shape.
#[derive(Debug, PartialEq)]
pub enum DecodeError {
    InvalidData { error: String },
    MissingField { name: String, field: String },
    WrongType { expected: String },
}

/// Mathematical view of a decode failure.
pub ghost enum DecodeErrorSpec {
    InvalidData(Seq<char>),
    MissingField(Seq<char>, Seq<char>),
    WrongType(Seq<char>),
}

impl View for DecodeError {
    type V = DecodeErrorSpec;

    open spec fn view(&self) -> DecodeErrorSpec {
        match self {
            DecodeError::InvalidData { error } => DecodeErrorSpec::InvalidData(error@),
            DecodeError::MissingField { name, field } => DecodeErrorSpec::MissingField(
                name@,
                field@,
            ),
            DecodeError::WrongType { expected } => DecodeErrorSpec::WrongType(expected@),
        }
    }
}

/// The three caller-visible error kinds: a server-declared fault, a local
/// protocol/decode error, and a transport failure.
#[derive(Debug, PartialEq)]
pub enum ClientError {
    Fault { fault: Fault },
    RPC { error: DecodeError },
    Net { error: String },
}

/// Mathematical view of a client error.
pub ghost enum ClientErrorSpec {
    Fault(FaultSpec),
    Rpc(DecodeErrorSpec),
    Net(Seq<char>),
}

impl View for ClientError {
    type V = ClientErrorSpec;

    open spec fn view(&self) -> ClientErrorSpec {
        match self {
            ClientError::Fault { fault } => ClientErrorSpec::Fault(fault@),
            ClientError::RPC { error } => ClientErrorSpec::Rpc(error@),
            ClientError::Net { error } => ClientErrorSpec::Net(error@),
        }
    }
}

/// A method call: a method name and an ordered parameter list.
#[derive(Debug, PartialEq)]
pub struct MethodCall {
    pub name: String,
    pub params: Vec<Value>,
}

impl MethodCall {
    pub fn new(name: String, params: Vec<Value>) -> (r: MethodCall)
        ensures
            r.name@ == name@,
            values_view(r.params@) == values_view(params@),
    {
        MethodCall { name, params }
    }
}

/// A method response: exactly one returned value.
#[derive(Debug, PartialEq)]
pub struct MethodResponse {
    pub inner: Value,
}

impl MethodResponse {
    pub fn new(inner: Value) -> (r: MethodResponse)
        ensures
            r.inner@ == inner@,
    {
        MethodResponse { inner }
    }

    /// The single returned value.
    pub fn inner(self) -> (r: Value)
        ensures
            r@ == self.inner@,
    {
        self.inner
    }
}

/// The `param` wrapper element written for one call parameter.
pub open spec fn param_node(v: ValueSpec) -> XNode {
    XNode { name: t_param(), content: XContent::Elems(seq![v2n_value(v)]) }
}

pub open spec fn params_nodes(vs: Seq<ValueSpec>) -> Seq<XNode>
    decreases vs,
{
    if vs.len() == 0 {
        Seq::empty()
    } else {
        seq![param_node(vs[0])] + params_nodes(vs.drop_first())
    }
}

pub proof fn lemma_params_nodes_index(vs: Seq<ValueSpec>)
    ensures
        params_nodes(vs).len() == vs.len(),
        forall|i: int| 0 <= i < vs.len() ==> params_nodes(vs)[i] == param_node(vs[i]),
    decreases vs,
{
    if vs.len() > 0 {
        lemma_params_nodes_index(vs.drop_first());
        assert(forall|i: int|
            0 <= i < vs.drop_first().len() ==> vs.drop_first()[i] == vs[i + 1]);
    }
}

/// The `methodCall` document element for a call.
pub open spec fn call_node(name: Seq<char>, vs: Seq<ValueSpec>) -> XNode {
    XNode {
        name: t_method_call(),
        content: XContent::Elems(
            seq![
                XNode {
                    name: t_method_name(),
                    content: if name.len() == 0 {
                        XContent::Empty
                    } else {
                        XContent::Text(name)
                    },
                },
                XNode {
                    name: t_params(),
                    content: if vs.len() == 0 {
                        XContent::Empty
                    } else {
                        XContent::Elems(params_nodes(vs))
                    },
                },
            ],
        ),
    }
}

/// Builds the `methodCall` element of a call.
#[verifier::loop_isolation(false)]
pub fn method_call_node(c: &MethodCall) -> (r: XmlNode)
    requires
        wf_values(values_view(c.params@)),
    ensures
        r@ == call_node(c.name@, values_view(c.params@)),
{
    let nm = chars_of(c.name.as_str());
    let name_node = if nm.len() == 0 {
        XmlNode { name: chars_of("methodName"), content: XmlContent::Empty }
    } else {
        XmlNode { name: chars_of("methodName"), content: XmlContent::Text(nm) }
    };
    let ghost vs = values_view(c.params@);
    proof {
        crate::values::lemma_values_view(c.params@);
        lemma_params_nodes_index(vs);
        crate::values::lemma_wf_values_index(vs);
    }
    let mut kids: Vec<XmlNode> = Vec::new();
    let mut i: usize = 0;
    while i < c.params.len()
        invariant
            i <= c.params.len(),
            kids@.len() == i,
            forall|k: int| 0 <= k < i ==> kids@[k]@ == params_nodes(vs)[k],
        decreases c.params.len() - i,
    {
        proof {
            assert(vs[i as int] == c.params@[i as int]@);
            assert(crate::values::wf_value(vs[i as int]));
        }
        let inner = crate::codec::value_node_of(&c.params[i]);
        let mut pk: Vec<XmlNode> = Vec::new();
        pk.push(inner);
        proof {
            lemma_nodes_view(pk@);
            assert(nodes_view(pk@) =~= seq![v2n_value(vs[i as int])]);
        }
        let p = XmlNode { name: chars_of("param"), content: XmlContent::Elems(pk) };
        kids.push(p);
        i += 1;
    }
    let params_node = if kids.len() == 0 {
        XmlNode { name: chars_of("params"), content: XmlContent::Empty }
    } else {
        proof {
            lemma_nodes_view(kids@);
            assert(nodes_view(kids@) =~= params_nodes(vs));
        }
        XmlNode { name: chars_of("params"), content: XmlContent::Elems(kids) }
    };
    let mut top: Vec<XmlNode> = Vec::new();
    top.push(name_node);
    top.push(params_node);
    proof {
        lemma_nodes_view(top@);
        assert(nodes_view(top@) =~= call_node(c.name@, vs).content->Elems_0);
    }
    XmlNode { name: chars_of("methodCall"), content: XmlContent::Elems(top) }
}

/// Encodes a call as its wire text, a `<methodCall>` element.
pub fn encode_method_call(c: &MethodCall) -> (r: String)
    requires
        wf_values(values_view(c.params@)),
    ensures
        r@ == ser_node(call_node(c.name@, values_view(c.params@))),
{
    let n = method_call_node(c);
    let mut out: Vec<char> = Vec::new();
    crate::xml::write_node(&n, &mut out);
    string_from_chars(&out)
}

/// The request body sent on the wire: an XML declaration line, the
/// `<methodCall>` element, and a trailing newline.
pub fn request_to_body(c: &MethodCall) -> (r: String)
    requires
        wf_values(values_view(c.params@)),
    ensures
        r@ == "<?xml version=\"1.0\"?>"@ + "\n"@ + ser_node(
            call_node(c.name@, values_view(c.params@)),
        ) + "\n"@,
{
    let xml = encode_method_call(c);
    let mut out = String::new();
    out.append("<?xml version=\"1.0\"?>");
    out.append("\n");
    out.append(xml.as_str());
    out.append("\n");
    proof {
        assert(out@ =~= "<?xml version=\"1.0\"?>"@ + "\n"@ + ser_node(
            call_node(c.name@, values_view(c.params@)),
        ) + "\n"@);
    }
    out
}

/// The first member with this name, scanned in encounter order from `i`.
pub open spec fn find_member_from(ms: Seq<MemberSpec>, name: Seq<char>, i: int) -> Option<
    ValueSpec,
>
    decreases ms.len() - i,
{
    if i < 0 || i >= ms.len() {
        None
    } else if ms[i].name == name {
        Some(ms[i].value)
    } else {
        find_member_from(ms, name, i + 1)
    }
}

/// Reads the first member with this name out of a member list.
#[verifier::loop_isolation(false)]
pub fn find_member(ms: &Vec<Member>, name: &str) -> (r: Option<Value>)
    ensures
        match r {
            Some(v) => find_member_from(members_view(ms@), name@, 0) == Some(v@),
            None => find_member_from(members_view(ms@), name@, 0) is None,
        },
{
    let ghost mv = members_view(ms@);
    proof {
        crate::values::lemma_members_view(ms@);
    }
    let want = chars_of(name);
    let mut i: usize = 0;
    while i < ms.len()
        invariant
            i <= ms.len(),
            find_member_from(mv, name@, 0) == find_member_from(mv, name@, i as int),
        decreases ms.len() - i,
    {
        proof {
            assert(mv[i as int] == ms@[i as int]@);
        }
        let nm = chars_of(ms[i].name.as_str());
        if crate::xml::chars_eq(&nm, &want) {
            let v = crate::codec::clone_value(&ms[i].value);
            return Some(v);
        }
        i += 1;
    }
    None
}

/// The fault a two-member struct denotes: a `faultCode` integer and a
/// `faultString` string, other members ignored.
pub open spec fn fault_of_struct(ms: Seq<MemberSpec>) -> Option<FaultSpec> {
    match find_member_from(ms, "faultCode"@, 0) {
        Some(ValueSpec::Integer(c)) => match find_member_from(ms, "faultString"@, 0) {
            Some(ValueSpec::Str(s)) => Some(FaultSpec { code: c, string: s }),
            _ => None,
        },
        _ => None,
    }
}

/// The required member whose absence (or wrong shape) makes a struct no
/// fault.
pub open spec fn fault_missing_field(ms: Seq<MemberSpec>) -> Seq<char> {
    match find_member_from(ms, "faultCode"@, 0) {
        Some(ValueSpec::Integer(c)) => "faultString"@,
        _ => "faultCode"@,
    }
}

/// Reads a fault out of a struct's members.
pub fn fault_from_members(ms: &Vec<Member>) -> (r: Option<Fault>)
    ensures
        match r {
            Some(f) => fault_of_struct(members_view(ms@)) == Some(f@),
            None => fault_of_struct(members_view(ms@)) is None,
        },
{
    match find_member(ms, "faultCode") {
        Some(Value::Integer(c)) => {
            match find_member(ms, "faultString") {
                Some(Value::Str(s)) => Some(Fault { code: c, string: s }),
                _ => None,
            }
        },
        _ => None,
    }
}

/// The member list of the struct inside a `methodResponse`'s single `fault`
/// child, where that reading succeeds.
pub open spec fn fault_parse(n: XNode) -> Option<Seq<MemberSpec>> {
    if n.name == t_method_response() {
        match n.content {
            XContent::Elems(es) => if es.len() == 1 && es[0].name == t_fault() {
                match es[0].content {
                    XContent::Elems(ws) => if ws.len() == 1 {
                        match n2v_value(ws[0]) {
                            Some(ValueSpec::Struct(ms)) => Some(ms),
                            _ => None,
                        }
                    } else {
                        None
                    },
                    _ => None,
                }
            } else {
                None
            },
            _ => None,
        }
    } else {
        None
    }
}

/// The single value inside a `methodResponse`'s params container, where that
/// reading succeeds.
pub open spec fn response_parse(n: XNode) -> Option<ValueSpec> {
    if n.name == t_method_response() {
        match n.content {
            XContent::Elems(es) => if es.len() == 1 && es[0].name == t_params() {
                match es[0].content {
                    XContent::Elems(ps) => if ps.len() == 1 && ps[0].name == t_param() {
                        match ps[0].content {
                            XContent::Elems(ws) => if ws.len() == 1 {
                                n2v_value(ws[0])
                            } else {
                                None
                            },
                            _ => None,
                        }
                    } else {
                        None
                    },
                    _ => None,
                }
            } else {
                None
            },
            _ => None,
        }
    } else {
        None
    }
}

/// The resolution of a parsed response document, fault reading first.
pub ghost enum ResolveSpec {
    Value(ValueSpec),
    Fail(ClientErrorSpec),
}

/// Resolution order of a raw response: a readable `fault` element wins
/// and yields a fault (or, where its struct is no fault, a decode error);
/// only otherwise is the document read as a method response; anything else
/// is invalid data carrying the original text.
pub open spec fn spec_resolve(n: Option<XNode>, orig: Seq<char>) -> ResolveSpec {
    match n {
        Some(node) => match fault_parse(node) {
            Some(ms) => match fault_of_struct(ms) {
                Some(f) => ResolveSpec::Fail(ClientErrorSpec::Fault(f)),
                None => ResolveSpec::Fail(
                    ClientErrorSpec::Rpc(
                        DecodeErrorSpec::MissingField("Fault"@, fault_missing_field(ms)),
                    ),
                ),
            },
            None => match response_parse(node) {
                Some(v) => ResolveSpec::Value(v),
                None => ResolveSpec::Fail(
                    ClientErrorSpec::Rpc(DecodeErrorSpec::InvalidData(orig)),
                ),
            },
        },
        None => ResolveSpec::Fail(ClientErrorSpec::Rpc(DecodeErrorSpec::InvalidData(orig))),
    }
}

/// A readable fault always resolves to a failure, never to a value: the
/// fault reading takes precedence over the method-response reading.
pub proof fn lemma_fault_precedence(n: XNode, orig: Seq<char>)
    requires
        fault_parse(n) is Some,
    ensures
        spec_resolve(Some(n), orig) is Fail,
        fault_of_struct(fault_parse(n).unwrap()) is Some ==> spec_resolve(Some(n), orig)
            == ResolveSpec::Fail(
            ClientErrorSpec::Fault(fault_of_struct(fault_parse(n).unwrap()).unwrap()),
        ),
{
}

/// Text that reads neither as a fault response nor as a method response
/// resolves to an invalid-data error carrying the original text verbatim.
pub proof fn lemma_malformed_resolution(n: Option<XNode>, orig: Seq<char>)
    requires
        n is Some ==> fault_parse(n.unwrap()) is None && response_parse(n.unwrap()) is None,
    ensures
        spec_resolve(n, orig) == ResolveSpec::Fail(
            ClientErrorSpec::Rpc(DecodeErrorSpec::InvalidData(orig)),
        ),
{
}

/// Resolves a parsed response document.
#[verifier::rlimit(60)]
pub fn resolve_parsed(n: &Option<XmlNode>, contents: &str) -> (r: Result<MethodResponse,
    ClientError,
>)
    ensures
        ({
            let nv = match n {
                Some(node) => Some(node@),
                None => None,
            };
            match r {
                Ok(mr) => spec_resolve(nv, contents@) == ResolveSpec::Value(mr.inner@),
                Err(e) => spec_resolve(nv, contents@) == ResolveSpec::Fail(e@),
            }
        }),
{
    proof {
        reveal_strlit("fault");
        reveal_strlit("params");
        assert(t_fault().len() == 5);
        assert(t_params().len() == 6);
        assert(t_fault() != t_params());
    }
    match n {
        None => Err(
            ClientError::RPC {
                error: DecodeError::InvalidData { error: contents.to_owned() },
            },
        ),
        Some(node) => {
            proof {
                lemma_nodes_view(match node.content {
                    XmlContent::Elems(ref es) => es@,
                    _ => Seq::empty(),
                });
            }
            if crate::xml::chars_eq(&node.name, &chars_of("methodResponse")) {
                match &node.content {
                    XmlContent::Elems(es) => {
                        proof {
                            lemma_nodes_view(es@);
                        }
                        if es.len() == 1 && crate::xml::chars_eq(&es[0].name, &chars_of("fault")) {
                            // the fault reading
                            match &es[0].content {
                                XmlContent::Elems(ws) => {
                                    proof {
                                        lemma_nodes_view(ws@);
                                    }
                                    if ws.len() == 1 {
                                        match crate::decode::node_to_value_node(&ws[0]) {
                                            Some(Value::Struct(st)) => {
                                                return match fault_from_members(&st.members) {
                                                    Some(f) => Err(ClientError::Fault { fault: f }),
                                                    None => Err(
                                                        ClientError::RPC {
                                                            error: DecodeError::MissingField {
                                                                name: fault_name_string(),
                                                                field: fault_field_string(
                                                                    &st.members,
                                                                ),
                                                            },
                                                        },
                                                    ),
                                                };
                                            },
                                            _ => {
                                                return Err(
                                                    ClientError::RPC {
                                                        error: DecodeError::InvalidData {
                                                            error: contents.to_owned(),
                                                        },
                                                    },
                                                );
                                            },
                                        }
                                    }
                                    Err(
                                        ClientError::RPC {
                                            error: DecodeError::InvalidData {
                                                error: contents.to_owned(),
                                            },
                                        },
                                    )
                                },
                                _ => Err(
                                    ClientError::RPC {
                                        error: DecodeError::InvalidData {
                                            error: contents.to_owned(),
                                        },
                                    },
                                ),
                            }
                        } else if es.len() == 1 && crate::xml::chars_eq(
                            &es[0].name,
                            &chars_of("params"),
                        ) {
                            // the method-response reading
                            match &es[0].content {
                                XmlContent::Elems(ps) => {
                                    proof {
                                        lemma_nodes_view(ps@);
                                    }
                                    if ps.len() == 1 && crate::xml::chars_eq(
                                        &ps[0].name,
                                        &chars_of("param"),
                                    ) {
                                        match &ps[0].content {
                                            XmlContent::Elems(ws) => {
                                                proof {
                                                    lemma_nodes_view(ws@);
                                                }
                                                if ws.len() == 1 {
                                                    match crate::decode::node_to_value_node(
                                                        &ws[0],
                                                    ) {
                                                        Some(v) => {
                                                            return Ok(
                                                                MethodResponse { inner: v },
                                                            );
                                                        },
                                                        None => {
                                                            return Err(
                                                                ClientError::RPC {
                                                                    error: DecodeError::InvalidData {
                                                                        error: contents.to_owned(),
                                                                    },
                                                                },
                                                            );
                                                        },
                                                    }
                                                }
                                                Err(
                                                    ClientError::RPC {
                                                        error: DecodeError::InvalidData {
                                                            error: contents.to_owned(),
                                                        },
                                                    },
                                                )
                                            },
                                            _ => Err(
                                                ClientError::RPC {
                                                    error: DecodeError::InvalidData {
                                                        error: contents.to_owned(),
                                                    },
                                                },
                                            ),
                                        }
                                    } else {
                                        Err(
                                            ClientError::RPC {
                                                error: DecodeError::InvalidData {
                                                    error: contents.to_owned(),
                                                },
                                            },
                                        )
                                    }
                                },
                                _ => Err(
                                    ClientError::RPC {
                                        error: DecodeError::InvalidData {
                                            error: contents.to_owned(),
                                        },
                                    },
                                ),
                            }
                        } else {
                            Err(
                                ClientError::RPC {
                                    error: DecodeError::InvalidData { error: contents.to_owned() },
                                },
                            )
                        }
                    },
                    _ => Err(
                        ClientError::RPC {
                            error: DecodeError::InvalidData { error: contents.to_owned() },
                        },
                    ),
                }
            } else {
                Err(
                    ClientError::RPC {
                        error: DecodeError::InvalidData { error: contents.to_owned() },
                    },
                )
            }
        },
    }
}

/// The literal type name used in missing-field errors.
fn fault_name_string() -> (r: String)
    ensures
        r@ == "Fault"@,
{
    "Fault".to_owned()
}

/// Which required fault member is reported missing.
fn fault_field_string(ms: &Vec<Member>) -> (r: String)
    ensures
        r@ == fault_missing_field(members_view(ms@)),
{
    match find_member(ms, "faultCode") {
        Some(Value::Integer(_)) => "faultString".to_owned(),
        _ => "faultCode".to_owned(),
    }
}


/// The outcome one multicall response element denotes: a one-element
/// positional sequence is a success, a struct with the required fault
/// members is a failure, anything else is no outcome at all.
pub open spec fn outcome_of(v: ValueSpec) -> Option<Result<ValueSpec, FaultSpec>> {
    match v {
        ValueSpec::Array(vs) => if vs.len() == 1 {
            Some(Ok(vs[0]))
        } else {
            None
        },
        ValueSpec::Struct(ms) => match fault_of_struct(ms) {
            Some(f) => Some(Err(f)),
            None => None,
        },
        _ => None,
    }
}

/// The recorded outcomes of a multicall response, in order; elements
/// matching neither shape are skipped without error.
pub open spec fn outcomes_of(vs: Seq<ValueSpec>) -> Seq<Result<ValueSpec, FaultSpec>>
    decreases vs,
{
    if vs.len() == 0 {
        Seq::empty()
    } else {
        outcomes_of(vs.drop_last()) + (match outcome_of(vs.last()) {
            Some(o) => seq![o],
            None => Seq::empty(),
        })
    }
}

pub open spec fn results_view(rs: Seq<Result<Value, Fault>>) -> Seq<Result<ValueSpec, FaultSpec>>
    decreases rs,
{
    if rs.len() == 0 {
        Seq::empty()
    } else {
        results_view(rs.drop_last()).push(
            match rs.last() {
                Ok(v) => Ok(value_view(v)),
                Err(f) => Err(FaultSpec { code: f.code, string: f.string@ }),
            },
        )
    }
}

/// Decodes a batched response array into per-call outcomes, in order.  The
/// result's length is not checked against the number of submitted calls.
#[verifier::loop_isolation(false)]
pub fn multicall_outcomes(values: &Vec<Value>) -> (r: Vec<Result<Value, Fault>>)
    ensures
        results_view(r@) == outcomes_of(values_view(values@)),
{
    let ghost vs = values_view(values@);
    proof {
        crate::values::lemma_values_view(values@);
    }
    let mut r: Vec<Result<Value, Fault>> = Vec::new();
    let mut i: usize = 0;
    proof {
        assert(vs.take(0) =~= Seq::<ValueSpec>::empty());
        assert(results_view(r@) =~= outcomes_of(vs.take(0)));
    }
    while i < values.len()
        invariant
            i <= values.len(),
            results_view(r@) == outcomes_of(vs.take(i as int)),
        decreases values.len() - i,
    {
        proof {
            assert(vs.take(i + 1).drop_last() =~= vs.take(i as int));
            assert(vs.take(i + 1).last() == vs[i as int]);
            assert(vs[i as int] == values@[i as int]@);
        }
        let ghost r_pre = r@;
        match &values[i] {
            Value::Array(ar) => {
                proof {
                    crate::values::lemma_values_view(ar.values@);
                }
                if ar.values.len() == 1 {
                    let inner = crate::codec::clone_value(&ar.values[0]);
                    proof {
                        assert(values_view(ar.values@)[0] == ar.values@[0int]@);
                    }
                    r.push(Ok(inner));
                    proof {
                        assert(r@.drop_last() =~= r_pre);
                        assert(results_view(r@) =~= outcomes_of(vs.take(i + 1)));
                    }
                } else {
                    proof {
                        assert(outcome_of(vs[i as int]) is None);
                        assert(results_view(r@) =~= outcomes_of(vs.take(i + 1)));
                    }
                }
            },
            Value::Struct(st) => {
                match fault_from_members(&st.members) {
                    Some(f) => {
                        r.push(Err(f));
                        proof {
                            assert(r@.drop_last() =~= r_pre);
                            assert(results_view(r@) =~= outcomes_of(vs.take(i + 1)));
                        }
                    },
                    None => {
                        proof {
                            assert(outcome_of(vs[i as int]) is None);
                            assert(results_view(r@) =~= outcomes_of(vs.take(i + 1)));
                        }
                    },
                }
            },
            _ => {
                proof {
                    assert(outcome_of(vs[i as int]) is None);
                    assert(results_view(r@) =~= outcomes_of(vs.take(i + 1)));
                }
            },
        }
        i += 1;
    }
    proof {
        assert(vs.take(values@.len() as int) =~= vs);
    }
    r
}

/// The position of the first header with this name, scanning from `i`.
pub open spec fn header_index_from(
    hs: Seq<(String, String)>,
    name: Seq<char>,
    i: int,
) -> Option<int>
    decreases hs.len() - i,
{
    if i < 0 || i >= hs.len() {
        None
    } else if hs[i].0@ == name {
        Some(i)
    } else {
        header_index_from(hs, name, i + 1)
    }
}

/// What setting a header means: the first entry of that name is replaced in
/// place, or the pair is appended where none exists; nothing else changes.
pub open spec fn header_upserted(
    old_hs: Seq<(String, String)>,
    new_hs: Seq<(String, String)>,
    name: Seq<char>,
    value: Seq<char>,
) -> bool {
    match header_index_from(old_hs, name, 0) {
        Some(k) => {
            &&& new_hs.len() == old_hs.len()
            &&& (forall|j: int| 0 <= j < old_hs.len() && j != k ==> new_hs[j] == old_hs[j])
            &&& new_hs[k].0@ == name
            &&& new_hs[k].1@ == value
        },
        None => {
            &&& new_hs.len() == old_hs.len() + 1
            &&& new_hs.drop_last() == old_hs
            &&& new_hs.last().0@ == name
            &&& new_hs.last().1@ == value
        },
    }
}

/// Sets a header: replaces the first entry of that name, or appends.
#[verifier::loop_isolation(false)]
fn upsert_header(headers: Vec<(String, String)>, name: String, value: String) -> (r: Vec<
    (String, String),
>)
    ensures
        header_upserted(headers@, r@, name@, value@),
{
    let ghost h0 = headers@;
    let mut hs = headers;
    let mut i: usize = 0;
    while i < hs.len()
        invariant
            i <= hs.len(),
            hs@ == h0,
            header_index_from(h0, name@, 0) == header_index_from(h0, name@, i as int),
        decreases hs.len() - i,
    {
        if hs[i].0 == name {
            proof {
                assert(header_index_from(h0, name@, i as int) == Some(i as int));
            }
            hs.set(i, (name, value));
            return hs;
        }
        i += 1;
    }
    proof {
        assert(header_index_from(h0, name@, 0) is None);
    }
    let ghost pre = hs@;
    hs.push((name, value));
    proof {
        assert(hs@.drop_last() =~= pre);
    }
    hs
}

/// Builder holding a client's immutable configuration: the endpoint, the
/// fixed content type, and any caller headers.
#[derive(Debug, PartialEq)]
pub struct ClientBuilder {
    pub url: String,
    pub headers: Vec<(String, String)>,
    pub user_agent: Option<String>,
}

impl ClientBuilder {
    /// Starts a builder for this endpoint, with the fixed `text/xml`
    /// content type already set.
    pub fn new(url: String) -> (r: ClientBuilder)
        ensures
            r.url@ == url@,
            r.headers@.len() == 1,
            r.headers@[0].0@ == "Content-Type"@,
            r.headers@[0].1@ == "text/xml"@,
            r.user_agent is None,
    {
        let mut headers: Vec<(String, String)> = Vec::new();
        headers.push(("Content-Type".to_owned(), "text/xml".to_owned()));
        ClientBuilder { url, headers, user_agent: None }
    }

    /// Overrides the default user agent.
    pub fn user_agent(self, user_agent: &str) -> (r: ClientBuilder)
        ensures
            r.url@ == self.url@,
            r.headers@ == self.headers@,
            r.user_agent matches Some(ua) && ua@ == user_agent@,
    {
        ClientBuilder { user_agent: Some(user_agent.to_owned()), ..self }
    }

    /// Adds one caller-supplied header, replacing any existing header of
    /// the same name.
    pub fn add_header(self, name: String, value: String) -> (r: ClientBuilder)
        ensures
            r.url@ == self.url@,
            r.user_agent == self.user_agent,
            header_upserted(self.headers@, r.headers@, name@, value@),
    {
        let headers = upsert_header(self.headers, name, value);
        ClientBuilder { url: self.url, headers, user_agent: self.user_agent }
    }

    /// Finishes the client: the user agent, or the library default where
    /// none was set, replaces any caller-supplied `User-Agent` header.
    pub fn build(self) -> (r: Client)
        ensures
            r.url@ == self.url@,
            self.user_agent matches Some(ua) ==> header_upserted(
                self.headers@,
                r.headers@,
                "User-Agent"@,
                ua@,
            ),
            self.user_agent is None ==> header_upserted(
                self.headers@,
                r.headers@,
                "User-Agent"@,
                crate::DEFAULT_USER_AGENT@,
            ),
    {
        let ua: String = match self.user_agent {
            Some(u) => u,
            None => crate::DEFAULT_USER_AGENT.to_owned(),
        };
        let headers = upsert_header(self.headers, "User-Agent".to_owned(), ua);
        Client { url: self.url, headers }
    }
}

/// A client's immutable configuration; the transports in the surrounding
/// runtime read it for every call.
#[derive(Debug, PartialEq)]
pub struct Client {
    pub url: String,
    pub headers: Vec<(String, String)>,
}

impl Client {
    /// A client from an endpoint and ready-made headers.
    pub fn with_headers(url: String, headers: Vec<(String, String)>) -> (r: Client)
        ensures
            r.url@ == url@,
            r.headers@ == headers@,
    {
        Client { url, headers }
    }

    /// Whether the endpoint selects the local-socket transport: a
    /// `unix`-style scheme.
    pub fn uses_unix_socket(&self) -> (r: bool)
        ensures
            r == (self.url@.len() >= 5 && self.url@.subrange(0, 5) == "unix:"@),
    {
        url_is_unix(self.url.as_str())
    }
}

/// Whether a URL carries the `unix` scheme.
pub fn url_is_unix(url: &str) -> (r: bool)
    ensures
        r == (url@.len() >= 5 && url@.subrange(0, 5) == "unix:"@),
{
    proof {
        reveal_strlit("unix:");
    }
    let cs = chars_of(url);
    if cs.len() < 5 {
        return false;
    }
    let r = cs[0] == 'u' && cs[1] == 'n' && cs[2] == 'i' && cs[3] == 'x' && cs[4] == ':';
    proof {
        if r {
            assert(url@.subrange(0, 5) =~= "unix:"@);
        } else {
            assert(url@.subrange(0, 5) != "unix:"@) by {
                if url@.subrange(0, 5) == "unix:"@ {
                    assert(url@[0] == 'u' && url@[1] == 'n' && url@[2] == 'i' && url@[3] == 'x'
                        && url@[4] == ':') by {
                        assert(url@.subrange(0, 5)[0] == url@[0]);
                        assert(url@.subrange(0, 5)[1] == url@[1]);
                        assert(url@.subrange(0, 5)[2] == url@[2]);
                        assert(url@.subrange(0, 5)[3] == url@[3]);
                        assert(url@.subrange(0, 5)[4] == url@[4]);
                    }
                }
            }
        }
    }
    r
}

/// The fixed metadata fields sent ahead of a local-socket request body, in
/// order: the body's decimal byte length, the protocol-version marker, the
/// method, and the fixed request target.
pub fn scgi_request_fields(body_len: usize) -> (r: Vec<(String, String)>)
    ensures
        r@.len() == 4,
        r@[0].0@ == "CONTENT_LENGTH"@ && r@[0].1@ == dec_rep(body_len as int),
        r@[1].0@ == "SCGI"@ && r@[1].1@ == "1"@,
        r@[2].0@ == "REQUEST_METHOD"@ && r@[2].1@ == "POST"@,
        r@[3].0@ == "REQUEST_URI"@ && r@[3].1@ == "/RPC"@,
{
    let mut r: Vec<(String, String)> = Vec::new();
    r.push(("CONTENT_LENGTH".to_owned(), fmt_usize(body_len)));
    r.push(("SCGI".to_owned(), "1".to_owned()));
    r.push(("REQUEST_METHOD".to_owned(), "POST".to_owned()));
    r.push(("REQUEST_URI".to_owned(), "/RPC".to_owned()));
    r
}

/// The position of the first XML declaration in a frame, scanning from `i`.
pub open spec fn xml_start_from(s: Seq<char>, i: int) -> Option<int>
    decreases s.len() - i,
{
    if i < 0 || i + 5 > s.len() {
        None
    } else if s.subrange(i, i + 5) == "<?xml"@ {
        Some(i)
    } else {
        xml_start_from(s, i + 1)
    }
}

/// Cuts a received frame down to the XML document: everything before the
/// first `<?xml` marker is discarded, and a frame without the marker
/// contributes nothing.
#[verifier::loop_isolation(false)]
pub fn extract_xml_payload(frame: &str) -> (r: Option<String>)
    ensures
        match xml_start_from(frame@, 0) {
            Some(k) => r is Some && r.unwrap()@ == frame@.skip(k),
            None => r is None,
        },
{
    proof {
        reveal_strlit("<?xml");
    }
    let cs = chars_of(frame);
    let n = cs.len();
    let mut i: usize = 0;
    while n - i >= 5
        invariant
            i <= n,
            n == frame@.len(),
            xml_start_from(frame@, 0) == xml_start_from(frame@, i as int),
        decreases n - i,
    {
        if cs[i] == '<' && cs[i + 1] == '?' && cs[i + 2] == 'x' && cs[i + 3] == 'm' && cs[i + 4]
            == 'l' {
            proof {
                assert(frame@.subrange(i as int, i + 5) =~= "<?xml"@);
                assert(xml_start_from(frame@, i as int) == Some(i as int));
            }
            let mut out: Vec<char> = Vec::new();
            let mut j = i;
            while j < n
                invariant
                    i <= j <= n,
                    n == frame@.len(),
                    out@ =~= frame@.subrange(i as int, j as int),
                decreases n - j,
            {
                out.push(cs[j]);
                proof {
                    assert(out@ =~= frame@.subrange(i as int, j + 1));
                }
                j += 1;
            }
            proof {
                assert(frame@.subrange(i as int, n as int) =~= frame@.skip(i as int));
            }
            return Some(string_from_chars(&out));
        }
        proof {
            assert(frame@.subrange(i as int, i + 5) != "<?xml"@) by {
                if frame@.subrange(i as int, i + 5) == "<?xml"@ {
                    assert(frame@.subrange(i as int, i + 5)[0] == frame@[i as int]);
                    assert(frame@.subrange(i as int, i + 5)[1] == frame@[i + 1]);
                    assert(frame@.subrange(i as int, i + 5)[2] == frame@[i + 2]);
                    assert(frame@.subrange(i as int, i + 5)[3] == frame@[i + 3]);
                    assert(frame@.subrange(i as int, i + 5)[4] == frame@[i + 4]);
                }
            }
        }
        i += 1;
    }
    proof {
        assert(xml_start_from(frame@, i as int) is None);
    }
    None
}

/// Resolves raw response text: the document is parsed once, then read
/// fault-first; the result is completely determined by the text.
pub fn response_to_result(contents: &str) -> (r: Result<MethodResponse, ClientError>)
    ensures
        match r {
            Ok(mr) => spec_resolve(crate::xml::sp_doc(contents@), contents@)
                == ResolveSpec::Value(mr.inner@),
            Err(e) => spec_resolve(crate::xml::sp_doc(contents@), contents@)
                == ResolveSpec::Fail(e@),
        },
{
    let n = crate::xml::parse_document(contents);
    proof {
        match &n {
            Some(node) => {
                assert(crate::xml::sp_doc(contents@) == Some(node@));
            },
            None => {
                assert(crate::xml::sp_doc(contents@) is None);
            },
        }
    }
    resolve_parsed(&n, contents)
}

} // verus!
