use mcp_authorization::json::{Json, JsonObject};
use mcp_authorization::registry::{AuthToolDef, Tool};
use mcp_authorization::server::{AuthorizedServer, NoAuth};
use mcp_authorization::{AuthContext, AuthToolRegistry, DenyByDefault, SchemaShaper};

// ---------------------------------------------------------------------------
// Building and reading JSON
// ---------------------------------------------------------------------------

fn s(x: &str) -> Json {
    Json::Str(x.to_string())
}

fn object(entries: Vec<(&str, Json)>) -> JsonObject {
    entries.into_iter().map(|(k, v)| (k.to_string(), v)).collect()
}

fn obj(entries: Vec<(&str, Json)>) -> Json {
    Json::Object(object(entries))
}

fn arr(items: Vec<Json>) -> Json {
    Json::Array(items)
}

fn get<'a>(o: &'a JsonObject, key: &str) -> Option<&'a Json> {
    o.iter().find(|(k, _)| k == key).map(|(_, v)| v)
}

fn as_object(v: &Json) -> &JsonObject {
    match v {
        Json::Object(o) => o,
        _ => panic!("not an object"),
    }
}

fn contains_key(o: &JsonObject, key: &str) -> bool {
    get(o, key).is_some()
}

fn quote(x: &str, out: &mut String) {
    out.push('"');
    for c in x.chars() {
        match c {
            '"' => out.push_str("\\\""),
            '\\' => out.push_str("\\\\"),
            _ => out.push(c),
        }
    }
    out.push('"');
}

fn write_json(v: &Json, out: &mut String) {
    match v {
        Json::Null => out.push_str("null"),
        Json::Bool(b) => out.push_str(if *b { "true" } else { "false" }),
        Json::Number(n) => out.push_str(n),
        Json::Str(x) => quote(x, out),
        Json::Array(items) => {
            out.push('[');
            for (i, item) in items.iter().enumerate() {
                if i > 0 {
                    out.push(',');
                }
                write_json(item, out);
            }
            out.push(']');
        }
        Json::Object(entries) => {
            out.push('{');
            for (i, (k, item)) in entries.iter().enumerate() {
                if i > 0 {
                    out.push(',');
                }
                quote(k, out);
                out.push(':');
                write_json(item, out);
            }
            out.push('}');
        }
    }
}

fn to_string(o: &JsonObject) -> String {
    let mut out = String::new();
    write_json(&Json::Object(o.clone()), &mut out);
    out
}

fn caps(names: &[&str]) -> AuthContext {
    AuthContext::new(names.iter().map(|x| x.to_string()).collect())
}

fn nullable(t: &str) -> Json {
    obj(vec![("type", arr(vec![s(t), s("null")]))])
}

fn string_type() -> Json {
    obj(vec![("type", s("string"))])
}

// ---------------------------------------------------------------------------
// The schemas that schemars generates for the types of the examples
// ---------------------------------------------------------------------------

/// `struct TestInput { name: String, public_field: String,
/// #[requires("view_secrets")] secret_field: Option<String>,
/// #[requires("admin")] admin_field: Option<i32> }`
fn test_input_schema() -> JsonObject {
    object(vec![
        ("$schema", s("https://json-schema.org/draft/2020-12/schema")),
        ("title", s("TestInput")),
        ("type", s("object")),
        (
            "properties",
            obj(vec![
                ("name", string_type()),
                ("public_field", string_type()),
                ("secret_field", nullable("string")),
                (
                    "admin_field",
                    obj(vec![
                        ("type", arr(vec![s("integer"), s("null")])),
                        ("format", s("int32")),
                    ]),
                ),
            ]),
        ),
        ("required", arr(vec![s("name"), s("public_field")])),
    ])
}

const TEST_INPUT_REQS: &[(&str, &str)] = &[("secret_field", "view_secrets"), ("admin_field", "admin")];

/// `struct NoAuthInput { name: String }`
fn no_auth_input_schema() -> JsonObject {
    object(vec![
        ("title", s("NoAuthInput")),
        ("type", s("object")),
        ("properties", obj(vec![("name", string_type())])),
        ("required", arr(vec![s("name")])),
    ])
}

const NO_REQS: &[(&str, &str)] = &[];

fn tagged_variant(tag: &str, fields: Vec<&str>) -> Json {
    let mut props = vec![("type", obj(vec![("type", s("string")), ("const", s(tag))]))];
    let mut required = vec![s("type")];
    for f in fields {
        props.push((f, string_type()));
        required.push(s(f));
    }
    obj(vec![("type", s("object")), ("properties", obj(props)), ("required", arr(required))])
}

/// `#[serde(tag = "type")] enum TestOutput { Success { id }, #[requires("admin")]
/// AdminDetail { id, secret }, Error { message } }`
fn test_output_schema() -> JsonObject {
    object(vec![
        ("$schema", s("https://json-schema.org/draft/2020-12/schema")),
        ("title", s("TestOutput")),
        (
            "oneOf",
            arr(vec![
                tagged_variant("Success", vec!["id"]),
                tagged_variant("AdminDetail", vec!["id", "secret"]),
                tagged_variant("Error", vec!["message"]),
            ]),
        ),
    ])
}

const TEST_OUTPUT_REQS: &[(&str, &str)] = &[("AdminDetail", "admin")];

/// `struct Input { name: String, #[requires("admin")] secret: Option<String> }`
fn input_schema() -> JsonObject {
    object(vec![
        ("title", s("Input")),
        ("type", s("object")),
        ("properties", obj(vec![("name", string_type()), ("secret", nullable("string"))])),
        ("required", arr(vec![s("name")])),
    ])
}

const INPUT_REQS: &[(&str, &str)] = &[("secret", "admin")];

/// `#[serde(tag = "type")] enum Output { Ok { id }, #[requires("admin")] AdminOk { id, detail } }`
fn output_schema() -> JsonObject {
    object(vec![
        ("title", s("Output")),
        (
            "oneOf",
            arr(vec![tagged_variant("Ok", vec!["id"]), tagged_variant("AdminOk", vec!["id", "detail"])]),
        ),
    ])
}

const OUTPUT_REQS: &[(&str, &str)] = &[("AdminOk", "admin")];

fn register_my_tool(reg: &mut AuthToolRegistry) {
    reg.register_typed(
        "my_tool".to_string(),
        "A tool".to_string(),
        input_schema(),
        Some(output_schema()),
        INPUT_REQS,
        OUTPUT_REQS,
    );
}

// ---------------------------------------------------------------------------
// Input shaping
// ---------------------------------------------------------------------------

#[test]
fn shape_input_removes_unauthorized_fields() {
    let auth = caps(&[]);
    let schema = SchemaShaper::shape_input(test_input_schema(), TEST_INPUT_REQS, &auth);

    let props = as_object(get(&schema, "properties").unwrap());
    assert!(contains_key(props, "name"));
    assert!(contains_key(props, "public_field"));
    assert!(!contains_key(props, "secret_field"));
    assert!(!contains_key(props, "admin_field"));
}

#[test]
fn shape_input_keeps_authorized_fields() {
    let auth = caps(&["view_secrets", "admin"]);
    let schema = SchemaShaper::shape_input(test_input_schema(), TEST_INPUT_REQS, &auth);

    let props = as_object(get(&schema, "properties").unwrap());
    assert!(contains_key(props, "name"));
    assert!(contains_key(props, "secret_field"));
    assert!(contains_key(props, "admin_field"));
}

#[test]
fn shape_input_partial_authorization() {
    let auth = caps(&["view_secrets"]);
    let schema = SchemaShaper::shape_input(test_input_schema(), TEST_INPUT_REQS, &auth);

    let props = as_object(get(&schema, "properties").unwrap());
    assert!(contains_key(props, "secret_field"));
    assert!(!contains_key(props, "admin_field"));
}

#[test]
fn shape_input_no_requirements_returns_full_schema() {
    let auth = caps(&[]);
    let shaped = SchemaShaper::shape_input(no_auth_input_schema(), NO_REQS, &auth);
    assert_eq!(shaped, no_auth_input_schema());
}

#[test]
fn shape_input_removes_from_required_array() {
    let auth = caps(&[]);
    let schema = SchemaShaper::shape_input(test_input_schema(), TEST_INPUT_REQS, &auth);

    if let Some(Json::Array(required)) = get(&schema, "required") {
        let names: Vec<&str> = required
            .iter()
            .filter_map(|v| match v {
                Json::Str(x) => Some(x.as_str()),
                _ => None,
            })
            .collect();
        assert!(!names.contains(&"secret_field"));
        assert!(!names.contains(&"admin_field"));
    }
}

#[test]
fn shape_input_takes_gated_fields_out_of_required() {
    let mut full = test_input_schema();
    for (k, v) in full.iter_mut() {
        if k == "required" {
            *v = arr(vec![s("name"), s("secret_field"), s("admin_field"), Json::Number("7".to_string())]);
        }
    }
    let schema = SchemaShaper::shape_input(full, TEST_INPUT_REQS, &caps(&["admin"]));
    assert_eq!(
        get(&schema, "required"),
        Some(&arr(vec![s("name"), s("admin_field"), Json::Number("7".to_string())]))
    );
}

#[test]
fn shape_input_recurses_into_composite_lists() {
    let full = object(vec![
        (
            "allOf",
            arr(vec![
                obj(vec![
                    ("properties", obj(vec![("secret_field", string_type()), ("x", string_type())])),
                    ("required", arr(vec![s("secret_field"), s("x")])),
                ]),
                s("not an object"),
            ]),
        ),
        (
            "anyOf",
            arr(vec![obj(vec![(
                "oneOf",
                arr(vec![obj(vec![("properties", obj(vec![("admin_field", string_type())]))])]),
            )])]),
        ),
    ]);
    let shaped = SchemaShaper::shape_input(full, TEST_INPUT_REQS, &caps(&[]));
    let expected = object(vec![
        (
            "allOf",
            arr(vec![
                obj(vec![("properties", obj(vec![("x", string_type())])), ("required", arr(vec![s("x")]))]),
                s("not an object"),
            ]),
        ),
        ("anyOf", arr(vec![obj(vec![("oneOf", arr(vec![obj(vec![("properties", obj(vec![]))])]))])])),
    ]);
    assert_eq!(shaped, expected);
}

#[test]
fn shape_input_leaves_non_object_properties_alone() {
    let full = object(vec![("properties", s("odd")), ("required", s("odd"))]);
    let shaped = SchemaShaper::shape_input(full, TEST_INPUT_REQS, &caps(&[]));
    assert_eq!(shaped, object(vec![("properties", s("odd")), ("required", s("odd"))]));
}

#[test]
fn shape_input_full_authorization_is_identity() {
    let auth = caps(&["view_secrets", "admin"]);
    let shaped = SchemaShaper::shape_input(test_input_schema(), TEST_INPUT_REQS, &auth);
    assert_eq!(shaped, test_input_schema());
}

// ---------------------------------------------------------------------------
// Output shaping
// ---------------------------------------------------------------------------

#[test]
fn shape_output_removes_unauthorized_variants() {
    let auth = caps(&[]);
    let schema = SchemaShaper::shape_output(test_output_schema(), TEST_OUTPUT_REQS, &auth);
    let schema_str = to_string(&schema);
    assert!(!schema_str.contains("AdminDetail"));
    assert!(schema_str.contains("Success"));
    assert!(schema_str.contains("Error"));
}

#[test]
fn shape_output_keeps_all_when_authorized() {
    let auth = caps(&["admin"]);
    let schema = SchemaShaper::shape_output(test_output_schema(), TEST_OUTPUT_REQS, &auth);
    let schema_str = to_string(&schema);
    assert!(schema_str.contains("AdminDetail"));
    assert!(schema_str.contains("Success"));
}

#[test]
fn shape_output_matches_title_ref_and_tag() {
    let full = object(vec![
        (
            "anyOf",
            arr(vec![
                obj(vec![("title", s("Secret"))]),
                obj(vec![("$ref", s("#/$defs/Rerouted"))]),
                obj(vec![("$ref", s("Plain"))]),
                obj(vec![("title", Json::Bool(true)), ("$ref", s("#/$defs/Kept"))]),
                Json::Null,
                obj(vec![("description", s("no name"))]),
            ]),
        ),
        ("allOf", arr(vec![obj(vec![("title", s("Secret"))])])),
        ("$defs", obj(vec![("Rerouted", obj(vec![])), ("Kept", obj(vec![])), ("Plain", obj(vec![]))])),
    ]);
    const REQS: &[(&str, &str)] = &[("Secret", "admin"), ("Rerouted", "admin"), ("Plain", "admin")];
    let shaped = SchemaShaper::shape_output(full, REQS, &caps(&[]));
    let expected = object(vec![
        (
            "anyOf",
            arr(vec![
                obj(vec![("title", Json::Bool(true)), ("$ref", s("#/$defs/Kept"))]),
                Json::Null,
                obj(vec![("description", s("no name"))]),
            ]),
        ),
        ("allOf", arr(vec![obj(vec![("title", s("Secret"))])])),
        ("$defs", obj(vec![("Kept", obj(vec![]))])),
    ]);
    assert_eq!(shaped, expected);
}

#[test]
fn shape_output_ref_with_trailing_slash_names_nothing_gated() {
    let full = object(vec![("oneOf", arr(vec![obj(vec![("$ref", s("#/$defs/"))])]))]);
    const REQS: &[(&str, &str)] = &[("defs", "admin")];
    let shaped = SchemaShaper::shape_output(full, REQS, &caps(&[]));
    assert_eq!(shaped, object(vec![("oneOf", arr(vec![obj(vec![("$ref", s("#/$defs/"))])]))]));
}

// ---------------------------------------------------------------------------
// Registry
// ---------------------------------------------------------------------------

#[test]
fn materialize_hides_unauthorized_tools() {
    let mut reg = AuthToolRegistry::new();
    register_my_tool(&mut reg);
    reg.set_authorization("my_tool", "admin");

    let no_auth = caps(&[]);
    assert!(reg.materialize(&no_auth).is_empty());

    let admin = caps(&["admin"]);
    assert_eq!(reg.materialize(&admin).len(), 1);
}

#[test]
fn materialize_shapes_input_schema() {
    let mut reg = AuthToolRegistry::new();
    register_my_tool(&mut reg);

    let no_auth = caps(&[]);
    let tools = reg.materialize(&no_auth);
    let schema = &tools[0].input_schema;
    let props = as_object(get(schema, "properties").unwrap());
    assert!(contains_key(props, "name"));
    assert!(!contains_key(props, "secret"));
}

#[test]
fn is_visible_checks_tool_authorization() {
    let mut reg = AuthToolRegistry::new();
    register_my_tool(&mut reg);
    reg.set_authorization("my_tool", "admin");

    let no_auth = caps(&[]);
    assert!(!reg.is_visible("my_tool", &no_auth));

    let admin = caps(&["admin"]);
    assert!(reg.is_visible("my_tool", &admin));
}

#[test]
fn materialize_shapes_output_schema() {
    let mut reg = AuthToolRegistry::new();
    register_my_tool(&mut reg);
    let tools = reg.materialize(&caps(&[]));
    let out = tools[0].output_schema.as_ref().unwrap();
    let text = to_string(out);
    assert!(!text.contains("AdminOk"));
    assert!(text.contains("\"Ok\""));

    let tools = reg.materialize(&caps(&["admin"]));
    assert_eq!(tools[0].output_schema, Some(output_schema()));
    assert_eq!(tools[0].input_schema, input_schema());
}

#[test]
fn materialize_keeps_registration_order_and_replaces_in_place() {
    let mut reg = AuthToolRegistry::new();
    for name in ["a", "b", "c"] {
        reg.register_typed(name.to_string(), "first".to_string(), input_schema(), None, NO_REQS, NO_REQS);
    }
    reg.register_typed("a".to_string(), "second".to_string(), input_schema(), None, NO_REQS, NO_REQS);
    let tools = reg.materialize(&caps(&[]));
    let names: Vec<&str> = tools.iter().map(|t| t.name.as_str()).collect();
    assert_eq!(names, vec!["a", "b", "c"]);
    assert_eq!(tools[0].description.as_deref(), Some("second"));
    assert_eq!(reg.get("a").unwrap().base_tool.description.as_deref(), Some("second"));
}

#[test]
fn set_authorization_on_unknown_tool_changes_nothing() {
    let mut reg = AuthToolRegistry::new();
    register_my_tool(&mut reg);
    reg.set_authorization("other", "admin");
    assert!(reg.is_visible("my_tool", &caps(&[])));
    assert!(!reg.is_visible("other", &caps(&["admin"])));
    assert!(reg.get("other").is_none());
}

#[test]
fn register_then_get_returns_definition() {
    let mut reg = AuthToolRegistry::default();
    let tool = Tool::new("t".to_string(), "d".to_string(), input_schema());
    reg.register(AuthToolDef {
        base_tool: tool,
        authorization: Some("ops"),
        input_requirements: INPUT_REQS,
        output_requirements: NO_REQS,
    });
    let def = reg.get("t").unwrap();
    assert_eq!(def.authorization, Some("ops"));
    assert_eq!(def.base_tool.input_schema, input_schema());
    assert!(def.base_tool.output_schema.is_none());
    assert!(!reg.is_visible("t", &caps(&[])));
    assert!(reg.is_visible("t", &caps(&["ops"])));
}

#[test]
fn empty_context_lists_only_ungated_tools() {
    let mut reg = AuthToolRegistry::new();
    for name in ["open", "gated", "open2"] {
        reg.register_typed(name.to_string(), "d".to_string(), input_schema(), None, NO_REQS, NO_REQS);
    }
    reg.set_authorization("gated", "admin");
    let names: Vec<String> = reg.materialize(&caps(&[])).into_iter().map(|t| t.name).collect();
    assert_eq!(names, vec!["open".to_string(), "open2".to_string()]);
    let names: Vec<String> = reg.materialize(&caps(&["admin"])).into_iter().map(|t| t.name).collect();
    assert_eq!(names, vec!["open".to_string(), "gated".to_string(), "open2".to_string()]);
}

#[test]
fn tool_clone_and_builder_keep_fields() {
    let t = Tool::new("x".to_string(), "y".to_string(), input_schema()).with_raw_output_schema(output_schema());
    let c = t.clone();
    assert_eq!(c, t);
    assert_eq!(c.title, None);
    assert_eq!(c.output_schema, Some(output_schema()));
    assert!(c.extra.is_empty());
}

// ---------------------------------------------------------------------------
// Server
// ---------------------------------------------------------------------------

struct Inner;

#[test]
fn server_gates_calls_like_the_listing() {
    let server: AuthorizedServer<Inner, NoAuth> = AuthorizedServer::new(Inner);
    let server = server
        .register("advance_step".to_string(), "Advance".to_string(), input_schema(), Some(output_schema()), INPUT_REQS, OUTPUT_REQS)
        .authorize("advance_step", "manage_workflows")
        .deny_by_default();

    let nobody = DenyByDefault.resolve(None);
    assert!(server.list_tools_for(&nobody).is_empty());
    let err = server.check_call("advance_step", &nobody).unwrap_err();
    assert_eq!(err.code, rmcp::model::ErrorCode::METHOD_NOT_FOUND);
    assert_eq!(err.message, "tool not found: advance_step");

    let operator = caps(&["manage_workflows"]);
    let tools = server.list_tools_for(&operator);
    assert_eq!(tools.len(), 1);
    assert!(server.check_call("advance_step", &operator).is_ok());
    assert!(server.check_call("unknown", &operator).is_err());
    let props = as_object(get(&tools[0].input_schema, "properties").unwrap());
    assert!(!contains_key(props, "secret"));
}

#[test]
fn server_with_auth_keeps_registry_and_provider() {
    let server = AuthorizedServer::new(Inner)
        .register("t".to_string(), "d".to_string(), input_schema(), None, NO_REQS, NO_REQS)
        .with_auth(7u32);
    assert_eq!(*server.provider(), 7);
    assert!(server.registry().get("t").is_some());
    let _inner: &Inner = server.inner();
}

#[test]
fn materialize_shapes_like_schema_shaper() {
    let nested_input = object(vec![(
        "allOf",
        arr(vec![obj(vec![("properties", obj(vec![("secret", obj(vec![])), ("name", string_type())]))])]),
    )]);
    let nested_output = object(vec![
        ("oneOf", arr(vec![obj(vec![("$ref", s("#/$defs/AdminOk"))]), obj(vec![("$ref", s("#/$defs/Ok"))])])),
        ("$defs", obj(vec![("AdminOk", obj(vec![])), ("Ok", obj(vec![]))])),
    ]);
    let mut reg = AuthToolRegistry::new();
    reg.register_typed(
        "t".to_string(),
        "d".to_string(),
        clone_obj(&nested_input),
        Some(clone_obj(&nested_output)),
        INPUT_REQS,
        OUTPUT_REQS,
    );
    let auth = caps(&[]);
    let tools = reg.materialize(&auth);
    assert_eq!(tools[0].input_schema, SchemaShaper::shape_input(nested_input, INPUT_REQS, &auth));
    assert_eq!(tools[0].output_schema, Some(SchemaShaper::shape_output(nested_output, OUTPUT_REQS, &auth)));
    let text = to_string(&tools[0].input_schema);
    assert!(!text.contains("secret"));
    assert!(text.contains("name"));
    let out = to_string(tools[0].output_schema.as_ref().unwrap());
    assert!(!out.contains("AdminOk"));
    assert!(out.contains("\"Ok\""));
}

fn clone_obj(o: &JsonObject) -> JsonObject {
    o.iter().map(|(k, v)| (k.clone(), v.clone())).collect()
}

#[test]
fn more_capabilities_never_hide_more() {
    let mut reg = AuthToolRegistry::new();
    for name in ["a", "b", "c"] {
        reg.register_typed(name.to_string(), "d".to_string(), input_schema(), Some(output_schema()), INPUT_REQS, OUTPUT_REQS);
    }
    reg.set_authorization("a", "ops");
    reg.set_authorization("c", "admin");
    let fewer = reg.materialize(&caps(&["ops"]));
    let more = reg.materialize(&caps(&["ops", "admin"]));
    let fewer_names: Vec<&str> = fewer.iter().map(|t| t.name.as_str()).collect();
    let more_names: Vec<&str> = more.iter().map(|t| t.name.as_str()).collect();
    assert_eq!(fewer_names, vec!["a", "b"]);
    assert_eq!(more_names, vec!["a", "b", "c"]);
    let props_fewer = as_object(get(&fewer[0].input_schema, "properties").unwrap());
    let props_more = as_object(get(&more[0].input_schema, "properties").unwrap());
    assert!(!contains_key(props_fewer, "secret"));
    assert!(contains_key(props_more, "secret"));
}

#[test]
fn shaping_twice_is_shaping_once() {
    let once = SchemaShaper::shape_input(test_input_schema(), TEST_INPUT_REQS, &caps(&["admin"]));
    let twice = SchemaShaper::shape_input(clone_obj(&once), TEST_INPUT_REQS, &caps(&["admin"]));
    assert_eq!(once, twice);
    const FIRST: &[(&str, &str)] = &[("secret_field", "view_secrets")];
    const SECOND: &[(&str, &str)] = &[("admin_field", "admin")];
    let step = SchemaShaper::shape_input(test_input_schema(), FIRST, &caps(&[]));
    let step = SchemaShaper::shape_input(step, SECOND, &caps(&[]));
    let all = SchemaShaper::shape_input(test_input_schema(), TEST_INPUT_REQS, &caps(&[]));
    assert_eq!(step, all);
}

#[test]
fn shape_output_keeps_definitions_still_referenced() {
    let full = object(vec![
        ("properties", obj(vec![("x", obj(vec![("$ref", s("#/$defs/A"))]))])),
        ("oneOf", arr(vec![obj(vec![("$ref", s("#/$defs/A"))]), obj(vec![("$ref", s("#/$defs/B"))])])),
        ("$defs", obj(vec![("A", obj(vec![])), ("B", obj(vec![])), ("C", obj(vec![("$ref", s("#/$defs/D"))])), ("D", obj(vec![]))])),
    ]);
    const REQS: &[(&str, &str)] = &[("A", "admin"), ("B", "admin"), ("D", "admin")];
    let shaped = SchemaShaper::shape_output(full, REQS, &caps(&[]));
    let expected = object(vec![
        ("properties", obj(vec![("x", obj(vec![("$ref", s("#/$defs/A"))]))])),
        ("oneOf", arr(vec![])),
        ("$defs", obj(vec![("A", obj(vec![])), ("C", obj(vec![("$ref", s("#/$defs/D"))])), ("D", obj(vec![]))])),
    ]);
    assert_eq!(shaped, expected);
}
