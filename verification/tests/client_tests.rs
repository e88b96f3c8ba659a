use dxr::client::{
    encode_method_call, extract_xml_payload, multicall_outcomes, request_to_body,
    response_to_result, scgi_request_fields, url_is_unix, Client, ClientBuilder, ClientError,
    DecodeError, Fault, MethodCall,
};
use dxr::values::{Array, Member, Struct, Value};
use dxr::DEFAULT_USER_AGENT;

#[test]
fn call_serialization() {
    let call = MethodCall::new(String::from("hello"), vec![Value::string(String::from("DXR"))]);
    let expected = "<methodCall><methodName>hello</methodName><params><param><value><string>DXR</string></value></param></params></methodCall>";
    assert_eq!(encode_method_call(&call), expected);
}

#[test]
fn call_serialization_no_params() {
    let call = MethodCall::new(String::from("ping"), vec![]);
    let expected = "<methodCall><methodName>ping</methodName><params/></methodCall>";
    assert_eq!(encode_method_call(&call), expected);
}

#[test]
fn request_body_has_prologue() {
    let call = MethodCall::new(String::from("ping"), vec![]);
    let body = request_to_body(&call);
    assert_eq!(
        body,
        "<?xml version=\"1.0\"?>\n<methodCall><methodName>ping</methodName><params/></methodCall>\n"
    );
}

#[test]
fn end_to_end_response() {
    let call = MethodCall::new(String::from("hello"), vec![Value::string(String::from("DXR"))]);
    let expected = "<methodCall><methodName>hello</methodName><params><param><value><string>DXR</string></value></param></params></methodCall>";
    assert_eq!(encode_method_call(&call), expected);

    let response = "<methodResponse><params><param><value><string>Hello, DXR!</string></value></param></params></methodResponse>";
    let resolved = response_to_result(response).unwrap();
    let value = resolved.inner();
    assert_eq!(value.as_str(), Some(&String::from("Hello, DXR!")));
    assert_eq!(value, Value::string(String::from("Hello, DXR!")));
}

#[test]
fn fault_takes_precedence() {
    let response = "<methodResponse><fault><value><struct><member><name>faultCode</name><value><i4>4</i4></value></member><member><name>faultString</name><value><string>too many parameters</string></value></member></struct></value></fault></methodResponse>";
    match response_to_result(response) {
        Err(ClientError::Fault { fault }) => {
            assert_eq!(fault, Fault::new(4, String::from("too many parameters")));
        }
        other => panic!("expected a fault, got {:?}", other),
    }
}

#[test]
fn fault_with_extra_members_is_accepted() {
    let response = "<methodResponse><fault><value><struct><member><name>extra</name><value><i4>0</i4></value></member><member><name>faultCode</name><value><i4>1</i4></value></member><member><name>faultString</name><value><string>bad</string></value></member></struct></value></fault></methodResponse>";
    match response_to_result(response) {
        Err(ClientError::Fault { fault }) => {
            assert_eq!(fault, Fault::new(1, String::from("bad")));
        }
        other => panic!("expected a fault, got {:?}", other),
    }
}

#[test]
fn fault_missing_member_is_decode_error() {
    let response = "<methodResponse><fault><value><struct><member><name>faultCode</name><value><i4>1</i4></value></member></struct></value></fault></methodResponse>";
    match response_to_result(response) {
        Err(ClientError::RPC { error: DecodeError::MissingField { name, field } }) => {
            assert_eq!(name, "Fault");
            assert_eq!(field, "faultString");
        }
        other => panic!("expected a missing-field error, got {:?}", other),
    }
}

#[test]
fn malformed_response_keeps_original_text() {
    let garbage = "this is not XML-RPC at all";
    match response_to_result(garbage) {
        Err(ClientError::RPC { error: DecodeError::InvalidData { error } }) => {
            assert_eq!(error, garbage);
        }
        other => panic!("expected invalid data, got {:?}", other),
    }
}

#[test]
fn empty_method_response_is_invalid() {
    let response = "<methodResponse/>";
    match response_to_result(response) {
        Err(ClientError::RPC { error: DecodeError::InvalidData { error } }) => {
            assert_eq!(error, response);
        }
        other => panic!("expected invalid data, got {:?}", other),
    }
}

#[test]
fn multicall_ordering() {
    let values = vec![
        Value::array(Array::from_elements(vec![Value::string(String::from("ok"))])),
        Value::structure(Struct::from_members(vec![
            Member::new(String::from("faultCode"), Value::i4(1)),
            Member::new(String::from("faultString"), Value::string(String::from("bad"))),
        ])),
    ];
    let outcomes = multicall_outcomes(&values);
    assert_eq!(outcomes.len(), 2);
    assert_eq!(outcomes[0], Ok(Value::string(String::from("ok"))));
    assert_eq!(outcomes[1], Err(Fault::new(1, String::from("bad"))));
}

#[test]
fn multicall_skips_unrecognized_shapes() {
    let values = vec![
        Value::i4(3),
        Value::array(Array::from_elements(vec![Value::i4(1), Value::i4(2)])),
        Value::structure(Struct::from_members(vec![Member::new(
            String::from("faultCode"),
            Value::i4(1),
        )])),
        Value::array(Array::from_elements(vec![Value::boolean(true)])),
    ];
    let outcomes = multicall_outcomes(&values);
    assert_eq!(outcomes.len(), 1);
    assert_eq!(outcomes[0], Ok(Value::boolean(true)));
}

#[test]
fn builder_sets_default_headers() {
    let client = ClientBuilder::new(String::from("http://example.org/RPC2")).build();
    assert_eq!(client.url, "http://example.org/RPC2");
    assert_eq!(
        client.headers,
        vec![
            (String::from("Content-Type"), String::from("text/xml")),
            (String::from("User-Agent"), String::from(DEFAULT_USER_AGENT)),
        ]
    );
}

#[test]
fn builder_custom_user_agent_and_headers() {
    let client = ClientBuilder::new(String::from("http://example.org/RPC2"))
        .user_agent("my-agent")
        .add_header(String::from("X-Token"), String::from("abc"))
        .build();
    assert_eq!(
        client.headers,
        vec![
            (String::from("Content-Type"), String::from("text/xml")),
            (String::from("X-Token"), String::from("abc")),
            (String::from("User-Agent"), String::from("my-agent")),
        ]
    );
}

#[test]
fn unix_scheme_selects_local_socket() {
    let c = Client::with_headers(String::from("unix:/run/app.sock"), vec![]);
    assert!(c.uses_unix_socket());
    let h = Client::with_headers(String::from("http://example.org"), vec![]);
    assert!(!h.uses_unix_socket());
    assert!(url_is_unix("unix:/x"));
    assert!(!url_is_unix("uni"));
}

#[test]
fn scgi_fields_are_fixed_and_ordered() {
    let fields = scgi_request_fields(179);
    assert_eq!(
        fields,
        vec![
            (String::from("CONTENT_LENGTH"), String::from("179")),
            (String::from("SCGI"), String::from("1")),
            (String::from("REQUEST_METHOD"), String::from("POST")),
            (String::from("REQUEST_URI"), String::from("/RPC")),
        ]
    );
}

#[test]
fn frame_payload_extraction() {
    let framed = "junk bytes<?xml version=\"1.0\"?><a/>";
    assert_eq!(
        extract_xml_payload(framed).unwrap(),
        "<?xml version=\"1.0\"?><a/>"
    );
    assert_eq!(extract_xml_payload("no marker here"), None);
    assert_eq!(extract_xml_payload("<?xml/>").unwrap(), "<?xml/>");
}

#[test]
fn fault_struct_conversion_round_trip() {
    let fault = Fault::new(105, String::from("It faulted"));
    let st = fault.to_struct();
    assert_eq!(
        st,
        Struct::from_members(vec![
            Member::new(String::from("faultCode"), Value::i4(105)),
            Member::new(String::from("faultString"), Value::string(String::from("It faulted"))),
        ])
    );
    let outcomes = multicall_outcomes(&vec![Value::structure(st)]);
    assert_eq!(outcomes, vec![Err(Fault::new(105, String::from("It faulted")))]);
}

#[test]
fn add_header_replaces_same_name() {
    let client = ClientBuilder::new(String::from("http://example.org/RPC2"))
        .add_header(String::from("Content-Type"), String::from("text/plain"))
        .add_header(String::from("User-Agent"), String::from("caller-agent"))
        .build();
    assert_eq!(
        client.headers,
        vec![
            (String::from("Content-Type"), String::from("text/plain")),
            (String::from("User-Agent"), String::from(DEFAULT_USER_AGENT)),
        ]
    );
}
