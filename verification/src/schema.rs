//! Resolved schemas: what a shape becomes once every object in it has been
//! given a name in a registry.

use vstd::prelude::*;
use vstd::std_specs::cmp::PartialEqSpecImpl;
use crate::shape::Primitive;

verus! {

/// A schema in which every object is a reference by name.
#[derive(Debug)]
pub enum SchemaRef {
    /// A scalar.
    Primitive(Primitive),
    /// An array of items with one schema.
    Array(Box<SchemaRef>),
    /// A reference to the registry entry with this name.
    Named(String),
}

/// The mathematical value of a [`SchemaRef`].
pub enum SchemaRefView {
    Primitive(Primitive),
    Array(Box<SchemaRefView>),
    Named(Seq<char>),
}

/// The mathematical value of a schema.
pub open spec fn schema_view(r: &SchemaRef) -> SchemaRefView
    decreases r,
{
    match r {
        SchemaRef::Primitive(p) => SchemaRefView::Primitive(*p),
        SchemaRef::Array(inner) => SchemaRefView::Array(Box::new(schema_view(inner))),
        SchemaRef::Named(name) => SchemaRefView::Named(name@),
    }
}

impl View for SchemaRef {
    type V = SchemaRefView;

    open spec fn view(&self) -> SchemaRefView {
        schema_view(self)
    }
}

impl Clone for SchemaRef {
    fn clone(&self) -> (out: SchemaRef)
        ensures
            out@ == self@,
    {
        self.duplicate()
    }
}

impl PartialEq for SchemaRef {
    fn eq(&self, other: &SchemaRef) -> (same: bool) {
        self.same_as(other)
    }
}

impl Eq for SchemaRef {

}

impl PartialEqSpecImpl for SchemaRef {
    open spec fn obeys_eq_spec() -> bool {
        true
    }

    open spec fn eq_spec(&self, other: &SchemaRef) -> bool {
        self@ == other@
    }
}

impl SchemaRef {
    /// Whether two schemas are structurally equal.
    pub fn same_as(&self, other: &SchemaRef) -> (same: bool)
        ensures
            same == (self@ == other@),
        decreases self,
    {
        match (self, other) {
            (SchemaRef::Primitive(p), SchemaRef::Primitive(q)) => *p == *q,
            (SchemaRef::Array(a), SchemaRef::Array(b)) => a.same_as(b),
            (SchemaRef::Named(a), SchemaRef::Named(b)) => *a == *b,
            _ => false,
        }
    }

    /// A deep copy of this schema.
    pub fn duplicate(&self) -> (out: SchemaRef)
        ensures
            out@ == self@,
        decreases self,
    {
        match self {
            SchemaRef::Primitive(p) => SchemaRef::Primitive(*p),
            SchemaRef::Array(inner) => SchemaRef::Array(Box::new(inner.duplicate())),
            SchemaRef::Named(name) => SchemaRef::Named(name.clone()),
        }
    }
}

/// The pointer by which a document refers to the registry entry `name`.
pub open spec fn reference_pointer(name: Seq<char>) -> Seq<char> {
    "#/components/schemas/"@ + name
}

/// The pointer by which a document refers to the registry entry `name`:
/// the value of a `$ref`.
pub fn pointer_to(name: &str) -> (out: String)
    ensures
        out@ == reference_pointer(name@),
{
    let mut out = "#/components/schemas/".to_owned();
    out.append(name);
    out
}

/// The value of an optional schema.
pub open spec fn optional_schema(v: Option<SchemaRef>) -> Option<SchemaRefView> {
    match v {
        Some(r) => Some(r@),
        None => None,
    }
}

/// One member of a registered object schema.
#[derive(Clone, Debug, PartialEq, Eq)]
pub struct Property {
    /// The member's name.
    pub name: String,
    /// The member's schema.
    pub schema: SchemaRef,
    /// Whether the member must be present.
    pub required: bool,
}

/// The mathematical value of a [`Property`].
pub struct PropertyView {
    pub name: Seq<char>,
    pub schema: SchemaRefView,
    pub required: bool,
}

impl View for Property {
    type V = PropertyView;

    open spec fn view(&self) -> PropertyView {
        PropertyView { name: self.name@, schema: self.schema@, required: self.required }
    }
}

/// The values of a list of properties, in order.
pub open spec fn property_views(v: Seq<Property>) -> Seq<PropertyView> {
    v.map_values(|p: Property| p@)
}

} // verus!
