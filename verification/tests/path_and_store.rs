use apirun::json::{string_form_exec, JsonValue};
use apirun::path::resolve;
use apirun::store::{
    expand_tilde, parse_structure_mappings, plan_login_variables, plan_write, FileWrite,
    WriteError,
};

fn text(s: &str) -> JsonValue {
    JsonValue::Text(String::from(s))
}

fn obj(members: Vec<(&str, JsonValue)>) -> JsonValue {
    JsonValue::Object(
        members
            .into_iter()
            .map(|(k, v)| (String::from(k), v))
            .collect(),
    )
}

#[test]
fn resolve_returns_terminal_value_of_existing_chain() {
    let body = obj(vec![(
        "token",
        obj(vec![("access_token", text("abc")), ("ttl", JsonValue::Number(60))]),
    )]);
    match resolve(&body, "token.access_token") {
        Some(JsonValue::Text(s)) => assert_eq!(s, "abc"),
        _ => panic!("expected the text value at token.access_token"),
    }
    match resolve(&body, "token.ttl") {
        Some(JsonValue::Number(n)) => assert_eq!(*n, 60),
        _ => panic!("expected the number value at token.ttl"),
    }
}

#[test]
fn resolve_returns_absence_for_missing_segment() {
    let body = obj(vec![("token", obj(vec![("access_token", text("abc"))]))]);
    assert!(resolve(&body, "token.refresh_token").is_none());
    assert!(resolve(&body, "missing.access_token").is_none());
    assert!(resolve(&body, "token.access_token.deeper").is_none());
}

#[test]
fn resolve_never_indexes_arrays() {
    let body = obj(vec![("items", JsonValue::Array(vec![text("zero")]))]);
    assert!(resolve(&body, "items.0").is_none());
}

#[test]
fn resolve_whole_body_with_single_key() {
    let body = obj(vec![("k", text("v"))]);
    match resolve(&body, "k") {
        Some(JsonValue::Text(s)) => assert_eq!(s, "v"),
        _ => panic!("expected the member value"),
    }
}

#[test]
fn expand_tilde_replaces_home() {
    let home = Some(String::from("/home/user"));
    assert_eq!(expand_tilde("~", &home), "/home/user");
    assert_eq!(expand_tilde("~/vars/token.txt", &home), "/home/user/vars/token.txt");
    assert_eq!(expand_tilde("/abs/path", &home), "/abs/path");
    assert_eq!(expand_tilde("rel/path", &home), "rel/path");
    assert_eq!(expand_tilde("~elsewhere", &home), "~elsewhere");
}

#[test]
fn expand_tilde_without_home_keeps_path() {
    assert_eq!(expand_tilde("~/vars", &None), "~/vars");
    assert_eq!(expand_tilde("~", &None), "~");
}

#[test]
fn structure_mappings_from_json_object() {
    let mappings = parse_structure_mappings("{\"a.txt\":\"x.y\",\"b/c.txt\":\"z\"}");
    assert_eq!(mappings.len(), 2);
    assert_eq!(mappings[0].filename, "a.txt");
    assert_eq!(mappings[0].json_path, "x.y");
    assert_eq!(mappings[1].filename, "b/c.txt");
    assert_eq!(mappings[1].json_path, "z");
}

#[test]
fn structure_fallback_matches_json_form() {
    let from_json = parse_structure_mappings("{\"a.txt\":\"x.y\",\"b.txt\":\"z\"}");
    let from_fallback = parse_structure_mappings("a.txt:x.y, b.txt:z");
    assert_eq!(from_json, from_fallback);
    assert_eq!(from_fallback.len(), 2);
    assert_eq!(from_fallback[0].filename, "a.txt");
    assert_eq!(from_fallback[0].json_path, "x.y");
    assert_eq!(from_fallback[1].filename, "b.txt");
    assert_eq!(from_fallback[1].json_path, "z");
}

#[test]
fn structure_json_object_skips_non_string_values() {
    let mappings = parse_structure_mappings("{\"a.txt\":\"x\",\"skip\":3,\"b.txt\":\"y\"}");
    assert_eq!(mappings.len(), 2);
    assert_eq!(mappings[0].filename, "a.txt");
    assert_eq!(mappings[1].filename, "b.txt");
}

#[test]
fn structure_fallback_skips_pieces_without_colon() {
    let mappings = parse_structure_mappings("a.txt:x, nocolon, b.txt:y");
    assert_eq!(mappings.len(), 2);
    assert_eq!(mappings[0].filename, "a.txt");
    assert_eq!(mappings[1].filename, "b.txt");
}

#[test]
fn structure_fallback_splits_on_first_colon_only() {
    let mappings = parse_structure_mappings("a.txt:x:y");
    assert_eq!(mappings.len(), 1);
    assert_eq!(mappings[0].filename, "a.txt");
    assert_eq!(mappings[0].json_path, "x:y");
}

#[test]
fn multi_file_write_plans_both_mappings() {
    let body = obj(vec![("x", obj(vec![("y", text("V1"))])), ("z", text("V2"))]);
    let plan = plan_write(
        &body,
        &Some(String::from("out")),
        "{\"a.txt\":\"x.y\",\"b/c.txt\":\"z\"}",
        true,
        &None,
    )
    .expect("both mappings resolve");
    assert_eq!(
        plan,
        vec![
            FileWrite { path: String::from("out/a.txt"), content: String::from("V1") },
            FileWrite { path: String::from("out/b/c.txt"), content: String::from("V2") },
        ]
    );
}

#[test]
fn multi_file_write_fails_fast_on_missing_path() {
    let body = obj(vec![("x", obj(vec![("y", text("V1"))]))]);
    let err = plan_write(
        &body,
        &Some(String::from("out")),
        "{\"a.txt\":\"x.y\",\"b.txt\":\"z\"}",
        true,
        &None,
    )
    .expect_err("the second mapping does not resolve");
    assert_eq!(err, WriteError::PathNotFound { json_path: String::from("z") });
}

#[test]
fn multi_file_write_rejects_filename_escaping_root() {
    let body = obj(vec![("x", text("V1"))]);
    let err = plan_write(
        &body,
        &Some(String::from("out")),
        "{\"../escape.txt\":\"x\"}",
        true,
        &None,
    )
    .expect_err("a .. segment must be rejected");
    assert_eq!(err, WriteError::UnsafeFilename { filename: String::from("../escape.txt") });
}

#[test]
fn single_file_write_plans_exact_content() {
    let body = obj(vec![("token", obj(vec![("access_token", text("  abc 123\n"))]))]);
    let plan = plan_write(
        &body,
        &Some(String::from("~/vars/token.txt")),
        "token.access_token",
        false,
        &Some(String::from("/home/user")),
    )
    .expect("the path resolves");
    assert_eq!(plan.len(), 1);
    assert_eq!(plan[0].path, "/home/user/vars/token.txt");
    assert_eq!(plan[0].content, "  abc 123\n");
}

#[test]
fn single_file_write_of_non_text_value_writes_empty_string() {
    let body = obj(vec![("n", JsonValue::Number(7))]);
    let plan = plan_write(&body, &Some(String::from("f.txt")), "n", false, &None)
        .expect("the path resolves");
    assert_eq!(plan[0].content, "");
    assert_eq!(string_form_exec(&JsonValue::Number(7)), "");
}

#[test]
fn single_file_write_fails_on_missing_path() {
    let body = obj(vec![("a", text("v"))]);
    let err = plan_write(&body, &Some(String::from("f.txt")), "b", false, &None)
        .expect_err("the path is absent");
    assert_eq!(err, WriteError::PathNotFound { json_path: String::from("b") });
}

#[test]
fn write_without_destination_plans_nothing() {
    let body = obj(vec![("a", text("v"))]);
    assert_eq!(plan_write(&body, &None, "a", false, &None), Ok(vec![]));
    assert_eq!(plan_write(&body, &Some(String::new()), "a", true, &None), Ok(vec![]));
}

#[test]
fn rerunning_the_same_write_plans_identical_output() {
    let body = obj(vec![("x", obj(vec![("y", text("V1"))])), ("z", text("V2"))]);
    let dest = Some(String::from("out"));
    let structure = "{\"a.txt\":\"x.y\",\"b.txt\":\"z\"}";
    let first = plan_write(&body, &dest, structure, true, &None).unwrap();
    let second = plan_write(&body, &dest, structure, true, &None).unwrap();
    assert_eq!(first, second);
}

#[test]
fn login_variables_plan_all_four_files() {
    let body = obj(vec![
        (
            "token",
            obj(vec![("access_token", text("AT")), ("refresh_token", text("RT"))]),
        ),
        ("user", obj(vec![("email", text("e@x")), ("id", text("42"))])),
    ]);
    let plan = plan_login_variables(&body, "vars", &None).expect("all four paths resolve");
    assert_eq!(
        plan,
        vec![
            FileWrite { path: String::from("vars/access_token.txt"), content: String::from("AT") },
            FileWrite { path: String::from("vars/refresh_token.txt"), content: String::from("RT") },
            FileWrite { path: String::from("vars/email.txt"), content: String::from("e@x") },
            FileWrite { path: String::from("vars/user_id.txt"), content: String::from("42") },
        ]
    );
}

#[test]
fn login_variables_fail_on_first_missing_field() {
    let body = obj(vec![("token", obj(vec![("access_token", text("AT"))]))]);
    let err = plan_login_variables(&body, "vars", &None).expect_err("refresh token is absent");
    assert_eq!(err, WriteError::PathNotFound { json_path: String::from("token.refresh_token") });
}
