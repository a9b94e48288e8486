use bunsan::json::{filter_json_fields, JsonValue};

fn s(x: &str) -> JsonValue {
    JsonValue::String(x.to_string())
}

fn obj(members: Vec<(&str, JsonValue)>) -> JsonValue {
    JsonValue::Object(members.into_iter().map(|(k, v)| (k.to_string(), v)).collect())
}

fn fields(f: &[&str]) -> Vec<String> {
    f.iter().map(|x| x.to_string()).collect()
}

fn render(j: &JsonValue) -> String {
    match j {
        JsonValue::Null => "null".to_string(),
        JsonValue::Bool(b) => b.to_string(),
        JsonValue::Number(n) => n.clone(),
        JsonValue::String(x) => format!("{:?}", x),
        JsonValue::Array(a) => format!("[{}]", a.iter().map(render).collect::<Vec<_>>().join(",")),
        JsonValue::Object(m) => format!(
            "{{{}}}",
            m.iter().map(|(k, v)| format!("{:?}:{}", k, render(v))).collect::<Vec<_>>().join(",")
        ),
    }
}

fn rpc_response() -> JsonValue {
    obj(vec![
        ("id", JsonValue::Number("1".to_string())),
        ("jsonrpc", s("2.0")),
        (
            "result",
            obj(vec![
                ("from", s("0xa")),
                ("hash", s("0xh")),
                ("nested", obj(vec![("hash", s("keep whole"))])),
                ("to", s("0xb")),
            ]),
        ),
    ])
}

#[test]
fn no_fields_leaves_document_unchanged() {
    let j = rpc_response();
    assert_eq!(render(&filter_json_fields(rpc_response(), &vec![])), render(&j));
}

#[test]
fn filter_keeps_result_and_listed_fields() {
    let out = filter_json_fields(rpc_response(), &fields(&["hash", "id"]));
    assert_eq!(render(&out), r#"{"id":1,"result":{"hash":"0xh"}}"#);
}

#[test]
fn filter_keeps_listed_member_whole() {
    let out = filter_json_fields(rpc_response(), &fields(&["nested"]));
    assert_eq!(render(&out), r#"{"result":{"nested":{"hash":"keep whole"}}}"#);
}

#[test]
fn filter_descends_into_arrays() {
    let j = JsonValue::Array(vec![
        obj(vec![("a", s("1")), ("b", s("2"))]),
        s("plain"),
        JsonValue::Array(vec![obj(vec![("b", JsonValue::Null)])]),
    ]);
    let out = filter_json_fields(j, &fields(&["a"]));
    assert_eq!(render(&out), r#"[{"a":"1"},"plain",[{}]]"#);
}

#[test]
fn filter_with_empty_field_name() {
    let out = filter_json_fields(rpc_response(), &fields(&[""]));
    assert_eq!(render(&out), r#"{"result":{}}"#);
}

#[test]
fn filter_leaves_scalars() {
    assert_eq!(render(&filter_json_fields(JsonValue::Bool(true), &fields(&["x"]))), "true");
    assert_eq!(render(&filter_json_fields(JsonValue::Null, &fields(&["x"]))), "null");
}

#[test]
fn filter_is_idempotent() {
    let f = fields(&["hash", "jsonrpc"]);
    let once = filter_json_fields(rpc_response(), &f);
    let rendered = render(&once);
    let twice = filter_json_fields(once, &f);
    assert_eq!(render(&twice), rendered);
}
