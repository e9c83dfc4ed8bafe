use rocket_okapi::builder::build;
use rocket_okapi::document::{assemble, generate, Document};
use rocket_okapi::error::Error;
use rocket_okapi::operation::{
    Method, OperationDescriptor, ParameterDescriptor, ParameterLocation, ResponseDescriptor,
    StatusCode,
};
use rocket_okapi::registry::SchemaRegistry;
use rocket_okapi::schema::{pointer_to, SchemaRef};
use rocket_okapi::settings::{CollisionPolicy, Metadata, Settings};
use rocket_okapi::shape::{Field, TypeShape};

fn user() -> TypeShape {
    TypeShape::object(
        "User",
        vec![
            Field::new("userId", TypeShape::number(), true),
            Field::new("username", TypeShape::string(), true),
            Field::new("email", TypeShape::string(), false),
        ],
    )
}

fn post() -> TypeShape {
    TypeShape::object(
        "Post",
        vec![
            Field::new("post_id", TypeShape::number(), true),
            Field::new("title", TypeShape::string(), true),
            Field::new("summary", TypeShape::string(), false),
            Field::new("author", user(), true),
        ],
    )
}

fn named(name: &str) -> SchemaRef {
    SchemaRef::Named(name.to_string())
}

fn metadata() -> Metadata {
    Metadata::new("Users", "1.0.0").with_server("https://example.com/api")
}

fn get_all_users() -> OperationDescriptor {
    OperationDescriptor::new(Method::Get, "/user")
        .with_tag("Users")
        .with_summary("Get all users")
        .with_response(ResponseDescriptor::with_body(StatusCode::Code(200), TypeShape::array(user())))
}

fn create_user() -> OperationDescriptor {
    OperationDescriptor::new(Method::Post, "/user")
        .with_tag("Users")
        .with_summary("Create user")
        .with_request_body(user())
        .with_response(ResponseDescriptor::with_body(StatusCode::Code(200), user()))
}

fn get_user(placeholder: &str) -> OperationDescriptor {
    OperationDescriptor::new(Method::Get, &format!("/user/{{{}}}", placeholder))
        .with_parameter(ParameterDescriptor::new(
            placeholder,
            ParameterLocation::Path,
            true,
            TypeShape::number(),
        ))
        .with_response(ResponseDescriptor::with_body(StatusCode::Code(200), user()))
        .with_response(ResponseDescriptor::empty(StatusCode::Code(404)))
}

fn hidden_endpoint() -> OperationDescriptor {
    OperationDescriptor::new(Method::Get, "/hidden")
        .with_response(ResponseDescriptor::with_body(StatusCode::Code(200), user()))
        .hidden()
}

fn create_post() -> OperationDescriptor {
    OperationDescriptor::new(Method::Get, "/post_by_query")
        .with_tag("Posts")
        .with_parameter(ParameterDescriptor::new("post", ParameterLocation::Query, true, post()))
        .with_response(ResponseDescriptor::with_body(StatusCode::Code(200), post()))
}

fn routes(doc: &Document) -> Vec<(String, Method)> {
    doc.paths.iter().map(|op| (op.path.clone(), op.method)).collect()
}

fn every_reference_resolves(doc: &Document) -> bool {
    let registry = &doc.schemas;
    let in_entries = registry
        .entries()
        .iter()
        .all(|e| e.properties.iter().all(|p| registry.resolves(&p.schema)));
    let in_paths = doc.paths.iter().all(|info| {
        let op = &info.operation;
        op.parameters.iter().all(|p| registry.resolves(&p.schema))
            && op.request_body.iter().all(|b| registry.resolves(&b.schema))
            && op.responses.iter().all(|r| r.schema.iter().all(|s| registry.resolves(s)))
    });
    in_entries && in_paths
}

#[test]
fn end_to_end_user_api() {
    let doc = generate(&vec![get_all_users(), create_user()], Settings::new(), metadata()).unwrap();
    assert_eq!(doc.schemas.len(), 1);
    assert_eq!(doc.schemas.entries()[0].name, "User");
    assert_eq!(routes(&doc), vec![("/user".to_string(), Method::Get), ("/user".to_string(), Method::Post)]);
    let get = &doc.paths[0].operation;
    assert_eq!(get.request_body, None);
    assert_eq!(get.responses[0].schema, Some(SchemaRef::Array(Box::new(named("User")))));
    let post = &doc.paths[1].operation;
    assert_eq!(post.request_body.as_ref().unwrap().schema, named("User"));
    assert_eq!(post.responses[0].schema, Some(named("User")));
    assert_eq!(doc.info.title, "Users");
    assert_eq!(doc.info.version, "1.0.0");
    assert_eq!(doc.info.servers, vec!["https://example.com/api".to_string()]);
}

#[test]
fn operations_are_ordered_by_path_then_method() {
    let descriptors = vec![
        create_post(),
        create_user(),
        get_user("id"),
        OperationDescriptor::new(Method::Delete, "/user"),
        get_all_users(),
        OperationDescriptor::new(Method::Put, "/user"),
        OperationDescriptor::new(Method::Get, "/a"),
    ];
    let doc = generate(&descriptors, Settings::new(), metadata()).unwrap();
    assert_eq!(
        routes(&doc),
        vec![
            ("/a".to_string(), Method::Get),
            ("/post_by_query".to_string(), Method::Get),
            ("/user".to_string(), Method::Get),
            ("/user".to_string(), Method::Put),
            ("/user".to_string(), Method::Post),
            ("/user".to_string(), Method::Delete),
            ("/user/{id}".to_string(), Method::Get),
        ]
    );
}

#[test]
fn schemas_are_ordered_by_first_registration() {
    let doc =
        generate(&vec![create_post(), get_all_users()], Settings::new(), metadata()).unwrap();
    let names: Vec<&str> = doc.schemas.entries().iter().map(|e| e.name.as_str()).collect();
    assert_eq!(names, vec!["Post", "User"]);
    let doc =
        generate(&vec![get_all_users(), create_post()], Settings::new(), metadata()).unwrap();
    let names: Vec<&str> = doc.schemas.entries().iter().map(|e| e.name.as_str()).collect();
    assert_eq!(names, vec!["User", "Post"]);
}

#[test]
fn same_route_shape_is_a_duplicate_route() {
    let out = generate(&vec![get_user("id"), get_user("name")], Settings::new(), metadata());
    assert_eq!(out, Err(Error::DuplicateRoute));
}

#[test]
fn same_path_and_method_is_a_duplicate_route() {
    let out = generate(&vec![get_all_users(), create_user(), get_all_users()], Settings::new(), metadata());
    assert_eq!(out, Err(Error::DuplicateRoute));
}

#[test]
fn same_path_with_another_method_is_no_duplicate() {
    let other = OperationDescriptor::new(Method::Delete, "/user/{name}").with_parameter(
        ParameterDescriptor::new("name", ParameterLocation::Path, true, TypeShape::string()),
    );
    let doc = generate(&vec![other, get_user("id")], Settings::new(), metadata()).unwrap();
    assert_eq!(
        routes(&doc),
        vec![("/user/{id}".to_string(), Method::Get), ("/user/{name}".to_string(), Method::Delete)]
    );
}

#[test]
fn generation_is_deterministic() {
    let descriptors =
        vec![get_all_users(), get_user("id"), create_user(), hidden_endpoint(), create_post()];
    let settings = Settings::new().with_collision_policy(CollisionPolicy::Mangle);
    let first = generate(&descriptors, settings.clone(), metadata());
    let second = generate(&descriptors.clone(), settings, metadata());
    assert!(first.is_ok());
    assert_eq!(first, second);
    assert_eq!(format!("{:?}", first), format!("{:?}", second));
}

#[test]
fn hidden_operation_is_left_out_of_the_paths() {
    let descriptors = vec![get_all_users(), hidden_endpoint(), create_user()];
    let doc = generate(&descriptors, Settings::new(), metadata()).unwrap();
    assert_eq!(routes(&doc), vec![("/user".to_string(), Method::Get), ("/user".to_string(), Method::Post)]);
    assert!(doc.paths.iter().all(|op| !op.hidden));
}

#[test]
fn hidden_operation_with_known_types_adds_no_schema() {
    let with = generate(&vec![get_all_users(), hidden_endpoint(), create_user()], Settings::new(), metadata())
        .unwrap();
    let without = generate(&vec![get_all_users(), create_user()], Settings::new(), metadata()).unwrap();
    assert_eq!(with.schemas, without.schemas);
    assert_eq!(with, without);
}

#[test]
fn hidden_operation_still_registers_new_types() {
    let secret = OperationDescriptor::new(Method::Get, "/secret")
        .with_response(ResponseDescriptor::with_body(StatusCode::Code(200), post()))
        .hidden();
    let doc = generate(&vec![secret, get_all_users()], Settings::new(), metadata()).unwrap();
    let names: Vec<&str> = doc.schemas.entries().iter().map(|e| e.name.as_str()).collect();
    assert_eq!(names, vec!["Post", "User"]);
    assert_eq!(routes(&doc), vec![("/user".to_string(), Method::Get)]);
}

#[test]
fn hidden_operation_is_no_duplicate_of_a_visible_one() {
    let shadow = OperationDescriptor::new(Method::Get, "/user").hidden();
    let doc = generate(&vec![get_all_users(), shadow], Settings::new(), metadata()).unwrap();
    assert_eq!(routes(&doc), vec![("/user".to_string(), Method::Get)]);
    assert_eq!(doc.paths[0].operation.summary, "Get all users");
}

#[test]
fn no_reference_dangles() {
    let descriptors =
        vec![create_post(), get_all_users(), get_user("id"), create_user(), hidden_endpoint()];
    let doc = generate(&descriptors, Settings::new(), metadata()).unwrap();
    assert!(every_reference_resolves(&doc));
    let mangled = generate(
        &vec![
            get_all_users(),
            OperationDescriptor::new(Method::Get, "/other").with_response(
                ResponseDescriptor::with_body(
                    StatusCode::Code(200),
                    TypeShape::object("User", vec![Field::new("x", TypeShape::reference("User"), true)]),
                ),
            ),
        ],
        Settings::new().with_collision_policy(CollisionPolicy::Mangle),
        metadata(),
    )
    .unwrap();
    assert_eq!(mangled.schemas.len(), 2);
    assert!(every_reference_resolves(&mangled));
}

#[test]
fn first_failing_descriptor_ends_the_generation() {
    let broken = OperationDescriptor::new(Method::Get, "/user/{id");
    let out = generate(&vec![get_all_users(), broken, get_all_users()], Settings::new(), metadata());
    assert_eq!(out, Err(Error::MalformedPathTemplate));
    let clash = OperationDescriptor::new(Method::Get, "/clash").with_response(
        ResponseDescriptor::with_body(StatusCode::Code(200), TypeShape::object("User", vec![])),
    );
    let out = generate(&vec![get_all_users(), clash], Settings::new(), metadata());
    assert_eq!(out, Err(Error::NamingCollision));
}

#[test]
fn empty_descriptor_list_gives_an_empty_document() {
    let doc = generate(&vec![], Settings::new(), Metadata::new("Empty", "0.1.0")).unwrap();
    assert!(doc.paths.is_empty());
    assert!(doc.schemas.is_empty());
    assert!(doc.info.servers.is_empty());
}

#[test]
fn assemble_joins_operations_registry_and_metadata() {
    let mut registry = SchemaRegistry::new(Settings::new());
    let b = build(&create_user(), &mut registry).unwrap();
    let h = build(&hidden_endpoint(), &mut registry).unwrap();
    let a = build(&get_all_users(), &mut registry).unwrap();
    let doc = assemble(vec![b.clone(), h, a.clone()], registry.clone(), metadata()).unwrap();
    assert_eq!(doc.paths, vec![a, b]);
    assert_eq!(doc.schemas, registry);
    assert_eq!(doc.info, metadata());
}

#[test]
fn assemble_rejects_duplicate_routes() {
    let mut registry = SchemaRegistry::new(Settings::new());
    let a = build(&get_user("id"), &mut registry).unwrap();
    let b = build(&get_user("name"), &mut registry).unwrap();
    assert_eq!(assemble(vec![a, b], registry, metadata()), Err(Error::DuplicateRoute));
}

#[test]
fn method_ranks() {
    let all = [
        Method::Get,
        Method::Put,
        Method::Post,
        Method::Delete,
        Method::Options,
        Method::Head,
        Method::Patch,
        Method::Trace,
    ];
    let ranks: Vec<u8> = all.iter().map(|m| m.rank()).collect();
    assert_eq!(ranks, vec![0, 1, 2, 3, 4, 5, 6, 7]);
    let keys: Vec<&str> = all.iter().map(|m| m.key()).collect();
    assert_eq!(keys, vec!["get", "put", "post", "delete", "options", "head", "patch", "trace"]);
}

#[test]
fn status_and_location_keys() {
    assert_eq!(StatusCode::Code(200).key(), "200");
    assert_eq!(StatusCode::Code(404).key(), "404");
    assert_eq!(StatusCode::Code(0).key(), "0");
    assert_eq!(StatusCode::Code(u16::MAX).key(), "65535");
    assert_eq!(StatusCode::Default.key(), "default");
    assert_eq!(ParameterLocation::Path.key(), "path");
    assert_eq!(ParameterLocation::Query.key(), "query");
    assert_eq!(ParameterLocation::Header.key(), "header");
    assert_eq!(ParameterLocation::Cookie.key(), "cookie");
}

#[test]
fn reference_pointers() {
    assert_eq!(pointer_to("User"), "#/components/schemas/User");
    assert_eq!(pointer_to("User_2"), "#/components/schemas/User_2");
    assert_eq!(pointer_to(""), "#/components/schemas/");
}
