use rocket_okapi::error::Error;
use rocket_okapi::path::{normalize_path, template_placeholders};

#[test]
fn path_without_placeholders_has_none() {
    assert_eq!(template_placeholders("/user"), Ok(vec![]));
    assert_eq!(template_placeholders(""), Ok(vec![]));
    assert_eq!(template_placeholders("/"), Ok(vec![]));
}

#[test]
fn placeholders_are_listed_in_order() {
    assert_eq!(template_placeholders("/user/{id}"), Ok(vec!["id".to_string()]));
    assert_eq!(
        template_placeholders("/user/{user_id}/post/{post_id}"),
        Ok(vec!["user_id".to_string(), "post_id".to_string()])
    );
    assert_eq!(template_placeholders("{a}{b}"), Ok(vec!["a".to_string(), "b".to_string()]));
    assert_eq!(template_placeholders("/f/{a}.{b}"), Ok(vec!["a".to_string(), "b".to_string()]));
}

#[test]
fn placeholder_names_may_hold_any_other_character() {
    assert_eq!(template_placeholders("/x/{na me}"), Ok(vec!["na me".to_string()]));
    assert_eq!(template_placeholders("/x/{n\u{e4}me}/y"), Ok(vec!["n\u{e4}me".to_string()]));
}

#[test]
fn unbalanced_braces_are_malformed() {
    assert_eq!(template_placeholders("/user/{id"), Err(Error::MalformedPathTemplate));
    assert_eq!(template_placeholders("/user/id}"), Err(Error::MalformedPathTemplate));
    assert_eq!(template_placeholders("/user/{"), Err(Error::MalformedPathTemplate));
    assert_eq!(template_placeholders("}"), Err(Error::MalformedPathTemplate));
    assert_eq!(template_placeholders("/user/{{id}}"), Err(Error::MalformedPathTemplate));
    assert_eq!(template_placeholders("/user/{id}}"), Err(Error::MalformedPathTemplate));
}

#[test]
fn empty_or_split_placeholders_are_malformed() {
    assert_eq!(template_placeholders("/user/{}"), Err(Error::MalformedPathTemplate));
    assert_eq!(template_placeholders("/user/{a/b}"), Err(Error::MalformedPathTemplate));
    assert_eq!(template_placeholders("/user/{a{b}"), Err(Error::MalformedPathTemplate));
}

#[test]
fn normalizing_drops_placeholder_names() {
    assert_eq!(normalize_path("/user/{id}"), "/user/{}");
    assert_eq!(normalize_path("/user/{name}"), "/user/{}");
    assert_eq!(normalize_path("/user/{id}/post/{post}"), "/user/{}/post/{}");
    assert_eq!(normalize_path("{a}{b}"), "{}{}");
}

#[test]
fn normalizing_keeps_literal_text() {
    assert_eq!(normalize_path("/user"), "/user");
    assert_eq!(normalize_path(""), "");
    assert_eq!(normalize_path("/caf\u{e9}/{x}"), "/caf\u{e9}/{}");
}

#[test]
fn normalizing_a_malformed_path_keeps_what_is_no_placeholder() {
    assert_eq!(normalize_path("/user/{id"), "/user/{id");
    assert_eq!(normalize_path("/user/{}"), "/user/{}");
    assert_eq!(normalize_path("/user/{a/b}"), "/user/{a/b}");
    assert_eq!(normalize_path("/u/{{id}}"), "/u/{{}}");
}

#[test]
fn paths_that_differ_only_in_names_normalize_alike() {
    assert_eq!(normalize_path("/user/{id}"), normalize_path("/user/{name}"));
    assert_ne!(normalize_path("/user/{id}"), normalize_path("/users/{id}"));
}
