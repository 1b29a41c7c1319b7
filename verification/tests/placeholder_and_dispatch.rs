use apirun::descriptor::{
    parse_body_kind, parse_method, BodyKind, BodySource, Method, RequestDescriptor, RequestEntry,
};
use apirun::dispatch::{
    build_credential, build_url, form_fields_exec, prepare_request, response_body, should_persist,
    status_is_success, DispatchError, Payload,
};
use apirun::json::JsonValue;
use apirun::placeholder::{placeholder_names, substitute, variable_file_path};
use apirun::render::to_pretty_string;

fn text(s: &str) -> JsonValue {
    JsonValue::Text(String::from(s))
}

fn obj(members: Vec<(&str, JsonValue)>) -> JsonValue {
    JsonValue::Object(
        members
            .into_iter()
            .map(|(k, v)| (String::from(k), v))
            .collect(),
    )
}

fn entry(method: Method) -> RequestEntry {
    RequestEntry {
        tag: String::from("login"),
        title: String::from("Log in"),
        method,
        endpoint: String::from("/api/login"),
        params: None,
        body: None,
        token_path: None,
        token_save: None,
        token_type: None,
    }
}

#[test]
fn placeholder_is_substituted_and_other_members_kept() {
    let body = obj(vec![("token", text("{{REFRESH}}")), ("k", text("v"))]);
    let vars = vec![(String::from("REFRESH"), String::from("abc123\n"))];
    let rewritten = substitute(&body, &vars).expect("the variable is present");
    match &rewritten {
        JsonValue::Object(members) => {
            assert_eq!(members.len(), 2);
            assert_eq!(members[0].0, "token");
            match &members[0].1 {
                JsonValue::Text(s) => assert_eq!(s, "abc123"),
                _ => panic!("token must stay a string"),
            }
            assert_eq!(members[1].0, "k");
            match &members[1].1 {
                JsonValue::Text(s) => assert_eq!(s, "v"),
                _ => panic!("k must stay a string"),
            }
        },
        _ => panic!("the body must stay an object"),
    }
}

#[test]
fn missing_variable_fails_with_its_name() {
    let body = obj(vec![("token", text("{{REFRESH}}"))]);
    match substitute(&body, &vec![]) {
        Err(err) => assert_eq!(err.variable, "REFRESH"),
        Ok(_) => panic!("substitution must fail without the variable"),
    }
}

#[test]
fn substitution_does_not_recurse_into_nested_objects() {
    let body = obj(vec![("outer", obj(vec![("inner", text("{{NAME}}"))]))]);
    let rewritten = substitute(&body, &vec![]).expect("nested placeholders are not scanned");
    match &rewritten {
        JsonValue::Object(members) => match &members[0].1 {
            JsonValue::Object(inner) => match &inner[0].1 {
                JsonValue::Text(s) => assert_eq!(s, "{{NAME}}"),
                _ => panic!("inner value must be untouched"),
            },
            _ => panic!("outer value must stay an object"),
        },
        _ => panic!("the body must stay an object"),
    }
}

#[test]
fn non_object_bodies_pass_substitution_untouched() {
    let body = text("{{NAME}}");
    let rewritten = substitute(&body, &vec![]).expect("only objects are scanned");
    match &rewritten {
        JsonValue::Text(s) => assert_eq!(s, "{{NAME}}"),
        _ => panic!("the body must stay a string"),
    }
}

#[test]
fn braces_alone_are_not_a_placeholder() {
    let body = obj(vec![("a", text("{{")), ("b", text("}}")), ("c", text("{{}"))]);
    let rewritten = substitute(&body, &vec![]).expect("none of these is a placeholder");
    match &rewritten {
        JsonValue::Object(members) => {
            for (i, expected) in ["{{", "}}", "{{}"].iter().enumerate() {
                match &members[i].1 {
                    JsonValue::Text(s) => assert_eq!(s, expected),
                    _ => panic!("values must stay strings"),
                }
            }
        },
        _ => panic!("the body must stay an object"),
    }
}

#[test]
fn empty_placeholder_names_the_empty_variable() {
    let body = obj(vec![("a", text("{{}}"))]);
    match substitute(&body, &vec![]) {
        Err(err) => assert_eq!(err.variable, ""),
        Ok(_) => panic!("the empty variable is not in the table"),
    }
    let vars = vec![(String::new(), String::from("x"))];
    let rewritten = substitute(&body, &vars).expect("the empty variable is in the table");
    match &rewritten {
        JsonValue::Object(members) => match &members[0].1 {
            JsonValue::Text(s) => assert_eq!(s, "x"),
            _ => panic!("the value must become a string"),
        },
        _ => panic!("the body must stay an object"),
    }
}

#[test]
fn login_scenario_extracts_and_plans_token_write() {
    let mut e = entry(Method::Post);
    e.token_save = Some(true);
    e.token_path = Some(String::from("token.access_token"));
    let response = apirun::dispatch::response_body(Some(obj(vec![(
        "token",
        obj(vec![("access_token", text("tok-1"))]),
    )])));
    assert!(should_persist(200, &e.token_save, &e.token_path));
    let plan = apirun::store::plan_write(
        &response,
        &Some(String::from("vars/access_token.txt")),
        e.token_path.as_ref().unwrap(),
        false,
        &None,
    )
    .expect("the token path resolves");
    assert_eq!(plan.len(), 1);
    assert_eq!(plan[0].path, "vars/access_token.txt");
    assert_eq!(plan[0].content, "tok-1");
}

#[test]
fn placeholder_names_lists_only_placeholders() {
    let body = obj(vec![
        ("a", text("{{ONE}}")),
        ("b", text("plain")),
        ("c", JsonValue::Number(1)),
        ("d", text("{{TWO}}")),
    ]);
    assert_eq!(placeholder_names(&body), vec![String::from("ONE"), String::from("TWO")]);
}

#[test]
fn variable_file_path_follows_the_convention() {
    assert_eq!(variable_file_path("vars", "REFRESH"), "vars/REFRESH.txt");
}

#[test]
fn method_strings_parse_exactly() {
    assert_eq!(parse_method("GET"), Some(Method::Get));
    assert_eq!(parse_method("POST"), Some(Method::Post));
    assert_eq!(parse_method("PUT"), Some(Method::Put));
    assert_eq!(parse_method("DELETE"), Some(Method::Delete));
    assert_eq!(parse_method("PATCH"), None);
    assert_eq!(parse_method("get"), None);
}

#[test]
fn body_kind_defaults_to_json() {
    assert_eq!(parse_body_kind("FORM_DATA"), BodyKind::FormData);
    assert_eq!(parse_body_kind("JSON"), BodyKind::Json);
    assert_eq!(parse_body_kind("anything"), BodyKind::Json);
}

#[test]
fn url_is_plain_concatenation() {
    assert_eq!(
        build_url("https://api.example", "/v1/items", &Some(String::from("?page=2"))),
        "https://api.example/v1/items?page=2"
    );
    assert_eq!(build_url("https://api.example", "/v1/items", &None), "https://api.example/v1/items");
}

#[test]
fn credential_is_prefixed_and_trimmed() {
    assert_eq!(
        build_credential(&Some(String::from("Bearer")), &Some(String::from("tok123\n"))),
        "Bearer tok123"
    );
    assert_eq!(build_credential(&None, &Some(String::from("tok123"))), "tok123");
    assert_eq!(build_credential(&Some(String::from("Bearer")), &None), "Bearer");
    assert_eq!(build_credential(&None, &None), "");
}

#[test]
fn get_entry_plans_one_call_with_url_and_credential() {
    let descriptor = RequestDescriptor {
        base_url: String::from("https://api.example"),
        default_headers: vec![(String::from("Accept"), String::from("application/json"))],
        variable_dir: Some(String::from("vars")),
        access_token_file: Some(String::from("access_token.txt")),
        entries: vec![entry(Method::Get)],
    };
    let selected = descriptor.find_by_tag("login").expect("the tag exists");
    assert_eq!(selected, 0);
    let plan = prepare_request(
        &descriptor.entries[selected],
        descriptor.base_url.as_str(),
        &descriptor.default_headers,
        &Some(String::from("tok123\n")),
        &None,
        &vec![],
    )
    .expect("a GET entry always assembles");
    assert_eq!(plan.method, Method::Get);
    assert_eq!(plan.url, "https://api.example/api/login");
    assert_eq!(
        plan.headers,
        vec![
            (String::from("Accept"), String::from("application/json")),
            (String::from("Authorization"), String::from("tok123")),
        ]
    );
    assert_eq!(plan.payload, Payload::Empty);
    let response = response_body(Some(obj(vec![("status", text("ok"))])));
    assert_eq!(to_pretty_string(&response), "{\n  \"status\": \"ok\"\n}");
    assert!(!should_persist(200, &None, &Some(String::from("token.access_token"))));
    assert!(!should_persist(200, &Some(false), &Some(String::from("token.access_token"))));
}

#[test]
fn post_entry_renders_substituted_json_body() {
    let mut e = entry(Method::Post);
    e.body = Some(BodySource { kind: BodyKind::Json, file: String::from("body.json") });
    e.token_type = Some(String::from("Bearer"));
    let body = obj(vec![("token", text("{{REFRESH}}")), ("k", text("v"))]);
    let vars = vec![(String::from("REFRESH"), String::from("abc123\n"))];
    let plan = prepare_request(&e, "https://api.example", &vec![], &None, &Some(body), &vars)
        .expect("the variable is present");
    assert_eq!(plan.method, Method::Post);
    assert_eq!(
        plan.payload,
        Payload::JsonText(String::from("{\n  \"token\": \"abc123\",\n  \"k\": \"v\"\n}"))
    );
    assert_eq!(plan.headers, vec![(String::from("Authorization"), String::from("Bearer"))]);
}

#[test]
fn post_entry_with_missing_variable_reports_it() {
    let mut e = entry(Method::Post);
    e.body = Some(BodySource { kind: BodyKind::Json, file: String::from("body.json") });
    let body = obj(vec![("token", text("{{REFRESH}}"))]);
    let err = prepare_request(&e, "https://api.example", &vec![], &None, &Some(body), &vec![])
        .expect_err("the variable is absent");
    assert_eq!(err, DispatchError::MissingVariable { variable: String::from("REFRESH") });
}

#[test]
fn post_entry_without_body_sends_nothing() {
    let e = entry(Method::Post);
    let plan = prepare_request(&e, "https://api.example", &vec![], &None, &None, &vec![])
        .expect("no body to fail on");
    assert_eq!(plan.payload, Payload::Empty);
}

#[test]
fn form_body_flattens_scalars() {
    let body = obj(vec![
        ("name", text("ada")),
        ("admin", JsonValue::Bool(true)),
        ("age", JsonValue::Number(36)),
    ]);
    let fields = form_fields_exec(&body).expect("all members are scalar");
    assert_eq!(
        fields,
        vec![
            (String::from("name"), String::from("ada")),
            (String::from("admin"), String::from("true")),
            (String::from("age"), String::from("36")),
        ]
    );
}

#[test]
fn form_body_fails_clearly_on_non_scalar_field() {
    let body = obj(vec![("name", text("ada")), ("roles", JsonValue::Array(vec![]))]);
    let err = form_fields_exec(&body).expect_err("an array cannot be a form field");
    assert_eq!(err, DispatchError::NonScalarFormField { key: String::from("roles") });
}

#[test]
fn form_body_must_be_an_object() {
    let err = form_fields_exec(&text("plain")).expect_err("only objects form-encode");
    assert_eq!(err, DispatchError::FormBodyNotObject);
}

#[test]
fn put_entry_form_encodes_its_body() {
    let mut e = entry(Method::Put);
    e.body = Some(BodySource { kind: BodyKind::FormData, file: String::from("body.json") });
    let body = obj(vec![("name", text("ada"))]);
    let plan = prepare_request(&e, "https://api.example", &vec![], &None, &Some(body), &vec![])
        .expect("a scalar form body assembles");
    assert_eq!(plan.payload, Payload::Form(vec![(String::from("name"), String::from("ada"))]));
}

#[test]
fn unparsed_response_becomes_diagnostic_object() {
    let body = response_body(None);
    match &body {
        JsonValue::Object(members) => {
            assert_eq!(members.len(), 1);
            assert_eq!(members[0].0, "error");
            match &members[0].1 {
                JsonValue::Text(s) => assert_eq!(s, "Failed to parse response as JSON"),
                _ => panic!("the diagnostic member is a string"),
            }
        },
        _ => panic!("the diagnostic body is an object"),
    }
}

#[test]
fn status_success_bounds() {
    assert!(!status_is_success(199));
    assert!(status_is_success(200));
    assert!(status_is_success(299));
    assert!(!status_is_success(300));
    assert!(!status_is_success(404));
}

#[test]
fn persistence_needs_success_save_flag_and_path() {
    let path = Some(String::from("token.access_token"));
    assert!(should_persist(200, &Some(true), &path));
    assert!(should_persist(204, &Some(true), &path));
    assert!(!should_persist(401, &Some(true), &path));
    assert!(!should_persist(200, &Some(true), &None));
    assert!(!should_persist(200, &None, &path));
}

#[test]
fn find_by_tag_returns_first_match() {
    let mut d = RequestDescriptor {
        base_url: String::new(),
        default_headers: vec![],
        variable_dir: None,
        access_token_file: None,
        entries: vec![entry(Method::Get), entry(Method::Post)],
    };
    d.entries[1].tag = String::from("other");
    assert_eq!(d.find_by_tag("login"), Some(0));
    assert_eq!(d.find_by_tag("other"), Some(1));
    assert_eq!(d.find_by_tag("absent"), None);
}

#[test]
fn duplicate_tags_fail_validation() {
    let unique = RequestDescriptor {
        base_url: String::new(),
        default_headers: vec![],
        variable_dir: None,
        access_token_file: None,
        entries: vec![entry(Method::Get)],
    };
    assert!(unique.validate_tags());
    let duplicated = RequestDescriptor {
        base_url: String::new(),
        default_headers: vec![],
        variable_dir: None,
        access_token_file: None,
        entries: vec![entry(Method::Get), entry(Method::Post)],
    };
    assert!(!duplicated.validate_tags());
}
