use rocket_okapi::builder::build;
use rocket_okapi::error::Error;
use rocket_okapi::operation::{
    Method, OperationDescriptor, ParameterDescriptor, ParameterLocation, ResponseDescriptor,
    StatusCode,
};
use rocket_okapi::registry::SchemaRegistry;
use rocket_okapi::schema::SchemaRef;
use rocket_okapi::settings::{CollisionPolicy, Settings};
use rocket_okapi::shape::{Field, Primitive, TypeShape};

fn account() -> TypeShape {
    TypeShape::object(
        "Account",
        vec![
            Field::new("id", TypeShape::number(), true),
            Field::new("owner", TypeShape::string(), true),
        ],
    )
}

fn clashing_account() -> TypeShape {
    TypeShape::object("Account", vec![Field::new("iban", TypeShape::string(), true)])
}

fn path_param(name: &str) -> ParameterDescriptor {
    ParameterDescriptor::new(name, ParameterLocation::Path, true, TypeShape::number())
}

fn named(name: &str) -> SchemaRef {
    SchemaRef::Named(name.to_string())
}

#[test]
fn builds_an_operation_with_references_only() {
    let mut registry = SchemaRegistry::new(Settings::new());
    let descriptor = OperationDescriptor::new(Method::Put, "/account/{id}")
        .with_parameter(path_param("id"))
        .with_parameter(
            ParameterDescriptor::new("verbose", ParameterLocation::Query, false, TypeShape::boolean())
                .with_example("true"),
        )
        .with_request_body(account())
        .with_response(ResponseDescriptor::with_body(StatusCode::Code(200), account()))
        .with_response(ResponseDescriptor::empty(StatusCode::Code(404)))
        .with_response(
            ResponseDescriptor::with_body(StatusCode::Default, TypeShape::string())
                .with_content_type("text/plain"),
        )
        .with_tag("Accounts")
        .with_summary("Replace account")
        .with_description("Replaces a single account by ID.");
    let info = build(&descriptor, &mut registry).unwrap();
    assert_eq!(info.path, "/account/{id}");
    assert_eq!(info.method, Method::Put);
    assert!(!info.hidden);
    let op = &info.operation;
    assert_eq!(op.tags, vec!["Accounts".to_string()]);
    assert_eq!(op.summary, "Replace account");
    assert_eq!(op.description, "Replaces a single account by ID.");
    let body = op.request_body.as_ref().unwrap();
    assert_eq!(body.schema, named("Account"));
    assert_eq!(body.content_type, "application/json");
    assert_eq!(op.responses.len(), 3);
    assert_eq!(op.responses[0].status, StatusCode::Code(200));
    assert_eq!(op.responses[0].schema, Some(named("Account")));
    assert_eq!(op.responses[0].content_type, "application/json");
    assert_eq!(op.responses[1].status, StatusCode::Code(404));
    assert_eq!(op.responses[1].schema, None);
    assert_eq!(op.responses[2].status, StatusCode::Default);
    assert_eq!(op.responses[2].schema, Some(SchemaRef::Primitive(Primitive::String)));
    assert_eq!(op.responses[2].content_type, "text/plain");
    assert_eq!(op.parameters.len(), 2);
    assert_eq!(op.parameters[0].name, "id");
    assert_eq!(op.parameters[0].location, ParameterLocation::Path);
    assert!(op.parameters[0].required);
    assert_eq!(op.parameters[0].schema, SchemaRef::Primitive(Primitive::Number));
    assert_eq!(op.parameters[0].example, None);
    assert_eq!(op.parameters[1].name, "verbose");
    assert_eq!(op.parameters[1].example, Some("true".to_string()));
    assert_eq!(registry.len(), 1);
    assert_eq!(registry.entries()[0].name, "Account");
}

#[test]
fn default_content_type_comes_from_the_settings() {
    let settings = Settings::new().with_default_content_type("application/xml");
    let mut registry = SchemaRegistry::new(settings);
    let descriptor = OperationDescriptor::new(Method::Post, "/account")
        .with_request_body(account())
        .with_response(ResponseDescriptor::with_body(StatusCode::Code(201), account()));
    let info = build(&descriptor, &mut registry).unwrap();
    assert_eq!(info.operation.request_body.unwrap().content_type, "application/xml");
    assert_eq!(info.operation.responses[0].content_type, "application/xml");
}

#[test]
fn types_are_registered_body_first_then_responses_then_parameters() {
    let mut registry = SchemaRegistry::new(Settings::new());
    let a = TypeShape::object("A", vec![]);
    let b = TypeShape::object("B", vec![]);
    let c = TypeShape::object("C", vec![]);
    let descriptor = OperationDescriptor::new(Method::Post, "/x")
        .with_parameter(ParameterDescriptor::new("c", ParameterLocation::Query, true, c))
        .with_response(ResponseDescriptor::with_body(StatusCode::Code(200), b))
        .with_request_body(a);
    build(&descriptor, &mut registry).unwrap();
    let names: Vec<&str> = registry.entries().iter().map(|e| e.name.as_str()).collect();
    assert_eq!(names, vec!["A", "B", "C"]);
}

#[test]
fn malformed_path_is_rejected() {
    let mut registry = SchemaRegistry::new(Settings::new());
    let descriptor = OperationDescriptor::new(Method::Get, "/account/{id")
        .with_parameter(path_param("id"))
        .with_response(ResponseDescriptor::with_body(StatusCode::Code(200), account()));
    assert_eq!(build(&descriptor, &mut registry), Err(Error::MalformedPathTemplate));
    assert!(registry.is_empty());
}

#[test]
fn duplicate_parameter_is_rejected() {
    let mut registry = SchemaRegistry::new(Settings::new());
    let descriptor = OperationDescriptor::new(Method::Get, "/account/{id}")
        .with_parameter(path_param("id"))
        .with_parameter(ParameterDescriptor::new(
            "id",
            ParameterLocation::Query,
            false,
            TypeShape::string(),
        ));
    assert_eq!(build(&descriptor, &mut registry), Err(Error::DuplicateParameter));
}

#[test]
fn placeholder_without_parameter_is_a_mismatch() {
    let mut registry = SchemaRegistry::new(Settings::new());
    let descriptor = OperationDescriptor::new(Method::Get, "/account/{id}");
    assert_eq!(build(&descriptor, &mut registry), Err(Error::PathParameterMismatch));
    let query_only = OperationDescriptor::new(Method::Get, "/account/{id}").with_parameter(
        ParameterDescriptor::new("id", ParameterLocation::Query, true, TypeShape::number()),
    );
    assert_eq!(build(&query_only, &mut registry), Err(Error::PathParameterMismatch));
}

#[test]
fn path_parameter_without_placeholder_is_a_mismatch() {
    let mut registry = SchemaRegistry::new(Settings::new());
    let descriptor =
        OperationDescriptor::new(Method::Get, "/account").with_parameter(path_param("id"));
    assert_eq!(build(&descriptor, &mut registry), Err(Error::PathParameterMismatch));
    let wrong_name =
        OperationDescriptor::new(Method::Get, "/account/{id}").with_parameter(path_param("name"));
    assert_eq!(build(&wrong_name, &mut registry), Err(Error::PathParameterMismatch));
}

#[test]
fn malformed_path_is_reported_before_other_descriptor_errors() {
    let mut registry = SchemaRegistry::new(Settings::new());
    let descriptor = OperationDescriptor::new(Method::Get, "/account/{}")
        .with_parameter(path_param("id"))
        .with_parameter(path_param("id"));
    assert_eq!(build(&descriptor, &mut registry), Err(Error::MalformedPathTemplate));
    let twice = OperationDescriptor::new(Method::Get, "/account")
        .with_parameter(path_param("id"))
        .with_parameter(path_param("id"));
    assert_eq!(build(&twice, &mut registry), Err(Error::DuplicateParameter));
}

#[test]
fn one_placeholder_may_occur_twice() {
    let mut registry = SchemaRegistry::new(Settings::new());
    let descriptor =
        OperationDescriptor::new(Method::Get, "/a/{id}/b/{id}").with_parameter(path_param("id"));
    assert!(build(&descriptor, &mut registry).is_ok());
}

#[test]
fn collision_in_a_descriptor_leaves_the_registry_unchanged() {
    let mut registry = SchemaRegistry::new(Settings::new());
    let first = OperationDescriptor::new(Method::Get, "/account")
        .with_response(ResponseDescriptor::with_body(StatusCode::Code(200), account()));
    build(&first, &mut registry).unwrap();
    let snapshot = registry.clone();
    let fresh = TypeShape::object("Fresh", vec![]);
    let second = OperationDescriptor::new(Method::Post, "/account")
        .with_request_body(fresh)
        .with_response(ResponseDescriptor::with_body(StatusCode::Code(200), clashing_account()));
    assert_eq!(build(&second, &mut registry), Err(Error::NamingCollision));
    assert_eq!(registry, snapshot);
    assert_eq!(registry.position("Fresh"), None);
}

#[test]
fn collision_in_a_descriptor_is_mangled_under_mangle_policy() {
    let mut registry =
        SchemaRegistry::new(Settings::new().with_collision_policy(CollisionPolicy::Mangle));
    let descriptor = OperationDescriptor::new(Method::Post, "/account")
        .with_request_body(account())
        .with_response(ResponseDescriptor::with_body(StatusCode::Code(200), clashing_account()));
    let info = build(&descriptor, &mut registry).unwrap();
    assert_eq!(info.operation.request_body.unwrap().schema, named("Account"));
    assert_eq!(info.operation.responses[0].schema, Some(named("Account_2")));
}

#[test]
fn unresolved_reference_in_a_parameter_is_rejected() {
    let mut registry = SchemaRegistry::new(Settings::new());
    let descriptor = OperationDescriptor::new(Method::Get, "/account")
        .with_response(ResponseDescriptor::with_body(StatusCode::Code(200), account()))
        .with_parameter(ParameterDescriptor::new(
            "filter",
            ParameterLocation::Query,
            false,
            TypeShape::reference("Filter"),
        ));
    assert_eq!(build(&descriptor, &mut registry), Err(Error::UnresolvedReference));
    assert!(registry.is_empty());
}

#[test]
fn hidden_descriptor_is_built_and_flagged() {
    let mut registry = SchemaRegistry::new(Settings::new());
    let descriptor = OperationDescriptor::new(Method::Get, "/hidden")
        .with_response(ResponseDescriptor::with_body(StatusCode::Code(200), account()))
        .hidden();
    let info = build(&descriptor, &mut registry).unwrap();
    assert!(info.hidden);
    assert_eq!(registry.len(), 1);
}

#[test]
fn hidden_flag_changes_nothing_of_the_registry() {
    let visible = OperationDescriptor::new(Method::Get, "/account")
        .with_response(ResponseDescriptor::with_body(StatusCode::Code(200), account()));
    let hidden = visible.clone().hidden();
    let mut a = SchemaRegistry::new(Settings::new());
    let mut b = SchemaRegistry::new(Settings::new());
    let x = build(&visible, &mut a).unwrap();
    let y = build(&hidden, &mut b).unwrap();
    assert_eq!(a, b);
    assert_eq!(x.operation, y.operation);
}

#[test]
fn error_messages_differ() {
    let all = [
        Error::NamingCollision,
        Error::PathParameterMismatch,
        Error::DuplicateParameter,
        Error::DuplicateRoute,
        Error::MalformedPathTemplate,
        Error::UnresolvedReference,
    ];
    for (i, a) in all.iter().enumerate() {
        assert!(!a.message().is_empty());
        for b in &all[i + 1..] {
            assert_ne!(a.message(), b.message());
        }
    }
    assert_eq!(Error::DuplicateRoute.message(), "two operations share one path and method");
}
