use rocket_okapi::error::Error;
use rocket_okapi::registry::SchemaRegistry;
use rocket_okapi::schema::SchemaRef;
use rocket_okapi::settings::{CollisionPolicy, Settings};
use rocket_okapi::shape::{Field, Primitive, TypeShape};

fn user() -> TypeShape {
    TypeShape::object(
        "User",
        vec![
            Field::new("userId", TypeShape::number(), true),
            Field::new("username", TypeShape::string(), true),
            Field::new("email", TypeShape::string(), false),
        ],
    )
}

fn other_user() -> TypeShape {
    TypeShape::object("User", vec![Field::new("id", TypeShape::string(), true)])
}

fn third_user() -> TypeShape {
    TypeShape::object("User", vec![Field::new("id", TypeShape::boolean(), true)])
}

fn mangling() -> SchemaRegistry {
    SchemaRegistry::new(Settings::new().with_collision_policy(CollisionPolicy::Mangle))
}

fn named(name: &str) -> SchemaRef {
    SchemaRef::Named(name.to_string())
}

#[test]
fn new_registry_is_empty() {
    let registry = SchemaRegistry::new(Settings::new());
    assert!(registry.is_empty());
    assert_eq!(registry.len(), 0);
    assert_eq!(registry.settings().collision_policy, CollisionPolicy::Fail);
    assert_eq!(registry.position("User"), None);
}

#[test]
fn primitives_stand_for_themselves() {
    let mut registry = SchemaRegistry::new(Settings::new());
    assert_eq!(registry.register(&TypeShape::string()), Ok(SchemaRef::Primitive(Primitive::String)));
    assert_eq!(registry.register(&TypeShape::number()), Ok(SchemaRef::Primitive(Primitive::Number)));
    assert_eq!(registry.register(&TypeShape::boolean()), Ok(SchemaRef::Primitive(Primitive::Boolean)));
    assert_eq!(registry.register(&TypeShape::null()), Ok(SchemaRef::Primitive(Primitive::Null)));
    assert!(registry.is_empty());
}

#[test]
fn object_is_stored_under_its_type_name() {
    let mut registry = SchemaRegistry::new(Settings::new());
    assert_eq!(registry.register(&user()), Ok(named("User")));
    assert_eq!(registry.len(), 1);
    let entry = &registry.entries()[0];
    assert_eq!(entry.name, "User");
    assert_eq!(entry.source, user());
    assert!(!entry.reserved);
    assert_eq!(entry.properties.len(), 3);
    assert_eq!(entry.properties[0].name, "userId");
    assert_eq!(entry.properties[0].schema, SchemaRef::Primitive(Primitive::Number));
    assert!(entry.properties[0].required);
    assert_eq!(entry.properties[2].name, "email");
    assert_eq!(entry.properties[2].schema, SchemaRef::Primitive(Primitive::String));
    assert!(!entry.properties[2].required);
    assert_eq!(registry.position("User"), Some(0));
}

#[test]
fn registering_twice_gives_the_same_reference() {
    let mut registry = SchemaRegistry::new(Settings::new());
    let shape = user();
    let first = registry.register(&shape);
    let snapshot = registry.clone();
    let second = registry.register(&shape);
    assert_eq!(first, second);
    assert_eq!(first, Ok(named("User")));
    assert_eq!(registry, snapshot);
}

#[test]
fn equal_shapes_share_one_entry() {
    let mut registry = SchemaRegistry::new(Settings::new());
    let a = user();
    let b = user();
    assert_eq!(registry.register(&a), Ok(named("User")));
    assert_eq!(registry.register(&b), Ok(named("User")));
    assert_eq!(registry.len(), 1);
}

#[test]
fn array_refers_to_its_items() {
    let mut registry = SchemaRegistry::new(Settings::new());
    let out = registry.register(&TypeShape::array(user()));
    assert_eq!(out, Ok(SchemaRef::Array(Box::new(named("User")))));
    assert_eq!(registry.len(), 1);
    assert_eq!(registry.register(&TypeShape::array(TypeShape::array(user()))),
        Ok(SchemaRef::Array(Box::new(SchemaRef::Array(Box::new(named("User")))))));
    assert_eq!(registry.len(), 1);
}

#[test]
fn collision_fails_under_fail_policy() {
    let mut registry = SchemaRegistry::new(Settings::new());
    assert_eq!(registry.register(&user()), Ok(named("User")));
    let snapshot = registry.clone();
    assert_eq!(registry.register(&other_user()), Err(Error::NamingCollision));
    assert_eq!(registry, snapshot);
}

#[test]
fn collision_is_mangled_under_mangle_policy() {
    let mut registry = mangling();
    assert_eq!(registry.register(&user()), Ok(named("User")));
    assert_eq!(registry.register(&other_user()), Ok(named("User_2")));
    assert_eq!(registry.register(&third_user()), Ok(named("User_3")));
    assert_eq!(registry.len(), 3);
    assert_eq!(registry.register(&other_user()), Ok(named("User_2")));
    assert_eq!(registry.register(&user()), Ok(named("User")));
    assert_eq!(registry.len(), 3);
    assert_eq!(registry.entries()[1].name, "User_2");
    assert_eq!(registry.entries()[1].source, other_user());
}

#[test]
fn mangling_skips_names_that_are_taken() {
    let mut registry = mangling();
    let taken = TypeShape::object("User_2", vec![]);
    assert_eq!(registry.register(&taken), Ok(named("User_2")));
    assert_eq!(registry.register(&user()), Ok(named("User")));
    assert_eq!(registry.register(&other_user()), Ok(named("User_3")));
}

#[test]
fn mangling_counts_past_nine() {
    let mut registry = mangling();
    for i in 0..12 {
        let shape = TypeShape::object(
            "T",
            vec![Field::new(&format!("f{}", i), TypeShape::string(), true)],
        );
        let expected = if i == 0 { "T".to_string() } else { format!("T_{}", i + 1) };
        assert_eq!(registry.register(&shape), Ok(SchemaRef::Named(expected)));
    }
    assert_eq!(registry.position("T_10"), Some(9));
    assert_eq!(registry.position("T_12"), Some(11));
    assert_eq!(registry.position("T_13"), None);
}

#[test]
fn nested_objects_are_registered_after_their_parent_is_reserved() {
    let mut registry = SchemaRegistry::new(Settings::new());
    let address = TypeShape::object("Address", vec![Field::new("city", TypeShape::string(), true)]);
    let person = TypeShape::object(
        "Person",
        vec![
            Field::new("home", address.clone(), true),
            Field::new("others", TypeShape::array(address.clone()), false),
        ],
    );
    assert_eq!(registry.register(&person), Ok(named("Person")));
    assert_eq!(registry.len(), 2);
    assert_eq!(registry.entries()[0].name, "Person");
    assert_eq!(registry.entries()[1].name, "Address");
    assert_eq!(registry.entries()[0].properties[0].schema, named("Address"));
    assert_eq!(
        registry.entries()[0].properties[1].schema,
        SchemaRef::Array(Box::new(named("Address")))
    );
    assert_eq!(registry.register(&address), Ok(named("Address")));
    assert_eq!(registry.len(), 2);
}

#[test]
fn self_reference_resolves_to_the_shape_itself() {
    let mut registry = SchemaRegistry::new(Settings::new());
    let node = TypeShape::object(
        "Node",
        vec![
            Field::new("value", TypeShape::number(), true),
            Field::new("next", TypeShape::reference("Node"), false),
            Field::new("children", TypeShape::array(TypeShape::reference("Node")), true),
        ],
    );
    assert_eq!(registry.register(&node), Ok(named("Node")));
    assert_eq!(registry.len(), 1);
    let entry = &registry.entries()[0];
    assert!(!entry.reserved);
    assert_eq!(entry.properties[1].schema, named("Node"));
    assert_eq!(entry.properties[2].schema, SchemaRef::Array(Box::new(named("Node"))));
    assert_eq!(registry.register(&node), Ok(named("Node")));
    assert_eq!(registry.len(), 1);
}

#[test]
fn self_reference_follows_a_mangled_name() {
    let mut registry = mangling();
    let plain = TypeShape::object("Node", vec![Field::new("value", TypeShape::number(), true)]);
    let linked = TypeShape::object(
        "Node",
        vec![Field::new("next", TypeShape::reference("Node"), false)],
    );
    assert_eq!(registry.register(&plain), Ok(named("Node")));
    assert_eq!(registry.register(&linked), Ok(named("Node_2")));
    assert_eq!(registry.entries()[1].properties[0].schema, named("Node_2"));
}

#[test]
fn reference_to_a_registered_name_resolves() {
    let mut registry = SchemaRegistry::new(Settings::new());
    assert_eq!(registry.register(&user()), Ok(named("User")));
    assert_eq!(registry.register(&TypeShape::reference("User")), Ok(named("User")));
    assert_eq!(registry.len(), 1);
}

#[test]
fn unknown_reference_is_rejected() {
    let mut registry = SchemaRegistry::new(Settings::new());
    assert_eq!(registry.register(&TypeShape::reference("Ghost")), Err(Error::UnresolvedReference));
    assert!(registry.is_empty());
}

#[test]
fn failed_registration_leaves_nothing_behind() {
    let mut registry = SchemaRegistry::new(Settings::new());
    let inner = TypeShape::object("Inner", vec![Field::new("x", TypeShape::string(), true)]);
    let outer = TypeShape::object(
        "Outer",
        vec![
            Field::new("inner", inner, true),
            Field::new("missing", TypeShape::reference("Nowhere"), true),
        ],
    );
    assert_eq!(registry.register(&outer), Err(Error::UnresolvedReference));
    assert!(registry.is_empty());
    assert_eq!(registry.position("Outer"), None);
    assert_eq!(registry.position("Inner"), None);
}

#[test]
fn nested_collision_fails_the_whole_registration() {
    let mut registry = SchemaRegistry::new(Settings::new());
    assert_eq!(registry.register(&user()), Ok(named("User")));
    let team = TypeShape::object("Team", vec![Field::new("lead", other_user(), true)]);
    assert_eq!(registry.register(&team), Err(Error::NamingCollision));
    assert_eq!(registry.len(), 1);
    assert_eq!(registry.position("Team"), None);
}

#[test]
fn resolves_tells_known_names_from_unknown() {
    let mut registry = SchemaRegistry::new(Settings::new());
    let schema = registry.register(&TypeShape::array(user())).unwrap();
    assert!(registry.resolves(&schema));
    assert!(registry.resolves(&SchemaRef::Primitive(Primitive::Null)));
    assert!(!registry.resolves(&named("Missing")));
    assert!(!registry.resolves(&SchemaRef::Array(Box::new(named("Missing")))));
}

#[test]
fn every_member_of_every_entry_resolves() {
    let mut registry = mangling();
    let address = TypeShape::object("Address", vec![Field::new("city", TypeShape::string(), true)]);
    let person = TypeShape::object(
        "Person",
        vec![
            Field::new("home", address, true),
            Field::new("friend", TypeShape::reference("Person"), false),
            Field::new("owner", user(), true),
        ],
    );
    registry.register(&person).unwrap();
    registry.register(&other_user()).unwrap();
    for entry in registry.entries() {
        for property in &entry.properties {
            assert!(registry.resolves(&property.schema));
        }
    }
}

#[test]
fn shapes_compare_by_structure() {
    assert!(user().same_as(&user()));
    assert!(!user().same_as(&other_user()));
    assert_eq!(user(), user().duplicate());
    assert_ne!(user(), other_user());
    assert_ne!(TypeShape::reference("User"), user());
    assert_ne!(TypeShape::array(user()), user());
    let renamed = TypeShape::object("Account", vec![Field::new("id", TypeShape::string(), true)]);
    assert_ne!(renamed, other_user());
    let optional = TypeShape::object("User", vec![Field::new("id", TypeShape::string(), false)]);
    assert_ne!(optional, other_user());
}

#[test]
fn schemas_compare_by_structure() {
    assert!(named("User").same_as(&named("User").duplicate()));
    assert!(!named("User").same_as(&named("Users")));
    assert_ne!(named("User"), SchemaRef::Array(Box::new(named("User"))));
    assert_eq!(SchemaRef::Array(Box::new(named("User"))).clone(), SchemaRef::Array(Box::new(named("User"))));
}
