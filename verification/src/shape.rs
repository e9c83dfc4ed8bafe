//! Structural descriptions of data types.

use vstd::prelude::*;
use vstd::std_specs::cmp::PartialEqSpecImpl;

verus! {

/// The scalar kinds a schema can describe.
#[derive(Clone, Copy, Debug, PartialEq, Eq, Structural)]
pub enum Primitive {
    String,
    Number,
    Boolean,
    Null,
}

/// A structural description of a data type.
#[derive(Debug)]
pub enum TypeShape {
    /// A scalar.
    Primitive(Primitive),
    /// An array whose items all have one shape.
    Array(Box<TypeShape>),
    /// An object with a type name and named fields.
    Object { name: String, fields: Vec<Field> },
    /// A reference by name to a registered schema. It is how a shape refers
    /// to itself or to a shape around it.
    Reference(String),
}

/// One named member of an object shape.
#[derive(Clone, Debug, PartialEq, Eq)]
pub struct Field {
    pub name: String,
    pub shape: TypeShape,
    pub required: bool,
}

/// The mathematical value of a [`TypeShape`].
pub enum ShapeView {
    Primitive(Primitive),
    Array(Box<ShapeView>),
    Object { name: Seq<char>, fields: Seq<FieldView> },
    Reference(Seq<char>),
}

/// The mathematical value of a [`Field`].
pub struct FieldView {
    pub name: Seq<char>,
    pub shape: ShapeView,
    pub required: bool,
}

/// The mathematical value of a shape: names become character sequences and
/// field lists become sequences of field values.
pub open spec fn shape_view(s: &TypeShape) -> ShapeView
    decreases s,
{
    match s {
        TypeShape::Primitive(p) => ShapeView::Primitive(*p),
        TypeShape::Array(inner) => ShapeView::Array(Box::new(shape_view(inner))),
        TypeShape::Object { name, fields } => ShapeView::Object {
            name: name@,
            fields: Seq::new(
                fields.len() as nat,
                |i: int|
                    if 0 <= i < fields.len() {
                        FieldView {
                            name: fields[i].name@,
                            shape: shape_view(&fields[i].shape),
                            required: fields[i].required,
                        }
                    } else {
                        arbitrary()
                    },
            ),
        },
        TypeShape::Reference(name) => ShapeView::Reference(name@),
    }
}

impl View for TypeShape {
    type V = ShapeView;

    open spec fn view(&self) -> ShapeView {
        shape_view(self)
    }
}

/// The values of a list of fields, in order.
pub open spec fn field_views(v: Seq<Field>) -> Seq<FieldView> {
    v.map_values(|f: Field| f@)
}

impl View for Field {
    type V = FieldView;

    open spec fn view(&self) -> FieldView {
        FieldView { name: self.name@, shape: self.shape@, required: self.required }
    }
}

impl Clone for TypeShape {
    fn clone(&self) -> (out: TypeShape)
        ensures
            out@ == self@,
    {
        self.duplicate()
    }
}

impl PartialEq for TypeShape {
    fn eq(&self, other: &TypeShape) -> (same: bool) {
        self.same_as(other)
    }
}

impl Eq for TypeShape {

}

impl PartialEqSpecImpl for TypeShape {
    open spec fn obeys_eq_spec() -> bool {
        true
    }

    open spec fn eq_spec(&self, other: &TypeShape) -> bool {
        self@ == other@
    }
}

impl Field {
    /// A field with the given name, shape and required flag.
    pub fn new(name: &str, shape: TypeShape, required: bool) -> (out: Field)
        ensures
            out@ == (FieldView { name: name@, shape: shape@, required }),
    {
        Field { name: name.to_owned(), shape, required }
    }
}

impl TypeShape {
    /// The shape of a string.
    pub fn string() -> (out: TypeShape)
        ensures
            out@ == ShapeView::Primitive(Primitive::String),
    {
        TypeShape::Primitive(Primitive::String)
    }

    /// The shape of a number.
    pub fn number() -> (out: TypeShape)
        ensures
            out@ == ShapeView::Primitive(Primitive::Number),
    {
        TypeShape::Primitive(Primitive::Number)
    }

    /// The shape of a boolean.
    pub fn boolean() -> (out: TypeShape)
        ensures
            out@ == ShapeView::Primitive(Primitive::Boolean),
    {
        TypeShape::Primitive(Primitive::Boolean)
    }

    /// The shape of the null value.
    pub fn null() -> (out: TypeShape)
        ensures
            out@ == ShapeView::Primitive(Primitive::Null),
    {
        TypeShape::Primitive(Primitive::Null)
    }

    /// The shape of an array whose items have the shape `items`.
    pub fn array(items: TypeShape) -> (out: TypeShape)
        ensures
            out@ == ShapeView::Array(Box::new(items@)),
    {
        TypeShape::Array(Box::new(items))
    }

    /// The shape of an object with the given type name and fields.
    pub fn object(name: &str, fields: Vec<Field>) -> (out: TypeShape)
        ensures
            out@ == (ShapeView::Object { name: name@, fields: field_views(fields@) }),
    {
        let out = TypeShape::Object { name: name.to_owned(), fields };
        assert(out@->fields =~= field_views(fields@));
        out
    }

    /// A reference by name to a registered schema.
    pub fn reference(name: &str) -> (out: TypeShape)
        ensures
            out@ == ShapeView::Reference(name@),
    {
        TypeShape::Reference(name.to_owned())
    }

    /// Whether two shapes are structurally equal: the same variant, the
    /// same names and, field by field, equal members.
    #[verifier::loop_isolation(false)]
    pub fn same_as(&self, other: &TypeShape) -> (same: bool)
        ensures
            same == (self@ == other@),
        decreases self,
    {
        match (self, other) {
            (TypeShape::Primitive(p), TypeShape::Primitive(q)) => *p == *q,
            (TypeShape::Array(a), TypeShape::Array(b)) => a.same_as(b),
            (TypeShape::Reference(a), TypeShape::Reference(b)) => *a == *b,
            (
                TypeShape::Object { name, fields },
                TypeShape::Object { name: other_name, fields: other_fields },
            ) => {
                if !(*name == *other_name) {
                    return false;
                }
                if fields.len() != other_fields.len() {
                    assert(self@->fields.len() != other@->fields.len());
                    return false;
                }
                let mut i: usize = 0;
                while i < fields.len()
                    invariant
                        i <= fields.len(),
                        forall|k: int| 0 <= k < i ==> fields[k]@ == other_fields[k]@,
                    decreases fields.len() - i,
                {
                    let f = &fields[i];
                    let g = &other_fields[i];
                    if !(f.name == g.name) || f.required != g.required || !f.shape.same_as(&g.shape) {
                        assert(self@->fields[i as int] != other@->fields[i as int]);
                        return false;
                    }
                    i += 1;
                }
                assert(self@->fields =~= other@->fields);
                true
            },
            _ => false,
        }
    }

    /// A deep copy of this shape.
    #[verifier::loop_isolation(false)]
    pub fn duplicate(&self) -> (out: TypeShape)
        ensures
            out@ == self@,
        decreases self,
    {
        match self {
            TypeShape::Primitive(p) => TypeShape::Primitive(*p),
            TypeShape::Array(inner) => TypeShape::Array(Box::new(inner.duplicate())),
            TypeShape::Object { name, fields } => {
                let mut copy: Vec<Field> = Vec::new();
                let mut i: usize = 0;
                while i < fields.len()
                    invariant
                        i <= fields.len(),
                        copy.len() == i,
                        forall|k: int| 0 <= k < i ==> copy[k]@ == fields[k]@,
                    decreases fields.len() - i,
                {
                    let f = &fields[i];
                    copy.push(Field { name: f.name.clone(), shape: f.shape.duplicate(), required: f.required });
                    i += 1;
                }
                let out = TypeShape::Object { name: name.clone(), fields: copy };
                assert(out@->Object_fields =~= self@->Object_fields);
                out
            },
            TypeShape::Reference(name) => TypeShape::Reference(name.clone()),
        }
    }
}

} // verus!
