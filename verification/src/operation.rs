//! Endpoint descriptors as the caller declares them, and the operations
//! they resolve to.

use vstd::prelude::*;
use crate::schema::{SchemaRef, SchemaRefView, optional_schema};
use crate::shape::{ShapeView, TypeShape};
use crate::text::{append_decimal, decimal, optional_text, texts};

verus! {

/// The values of a list, item by item.
pub open spec fn views<T: View>(v: Seq<T>) -> Seq<T::V> {
    v.map_values(|x: T| x@)
}

/// An HTTP method.
#[derive(Clone, Copy, Debug, PartialEq, Eq, Structural)]
pub enum Method {
    Get,
    Put,
    Post,
    Delete,
    Options,
    Head,
    Patch,
    Trace,
}

/// The place of a method in the order in which a path lists its operations.
pub open spec fn method_rank(m: Method) -> int {
    match m {
        Method::Get => 0,
        Method::Put => 1,
        Method::Post => 2,
        Method::Delete => 3,
        Method::Options => 4,
        Method::Head => 5,
        Method::Patch => 6,
        Method::Trace => 7,
    }
}

impl Method {
    /// The place of the method in the order in which a path lists its
    /// operations.
    pub fn rank(self) -> (out: u8)
        ensures
            out == method_rank(self),
    {
        match self {
            Method::Get => 0,
            Method::Put => 1,
            Method::Post => 2,
            Method::Delete => 3,
            Method::Options => 4,
            Method::Head => 5,
            Method::Patch => 6,
            Method::Trace => 7,
        }
    }

    /// The key of the method in a document: its name in lower case.
    pub fn key(self) -> (out: &'static str)
        ensures
            out@ == method_key(self),
    {
        match self {
            Method::Get => "get",
            Method::Put => "put",
            Method::Post => "post",
            Method::Delete => "delete",
            Method::Options => "options",
            Method::Head => "head",
            Method::Patch => "patch",
            Method::Trace => "trace",
        }
    }
}

/// The key of a method in a document: its name in lower case.
pub open spec fn method_key(m: Method) -> Seq<char> {
    match m {
        Method::Get => "get"@,
        Method::Put => "put"@,
        Method::Post => "post"@,
        Method::Delete => "delete"@,
        Method::Options => "options"@,
        Method::Head => "head"@,
        Method::Patch => "patch"@,
        Method::Trace => "trace"@,
    }
}

/// Where a parameter is carried.
#[derive(Clone, Copy, Debug, PartialEq, Eq, Structural)]
pub enum ParameterLocation {
    Path,
    Query,
    Header,
    Cookie,
}

/// The word that a document uses for a parameter location.
pub open spec fn location_key(l: ParameterLocation) -> Seq<char> {
    match l {
        ParameterLocation::Path => "path"@,
        ParameterLocation::Query => "query"@,
        ParameterLocation::Header => "header"@,
        ParameterLocation::Cookie => "cookie"@,
    }
}

impl ParameterLocation {
    /// The word that a document uses for this location.
    pub fn key(self) -> (out: &'static str)
        ensures
            out@ == location_key(self),
    {
        match self {
            ParameterLocation::Path => "path",
            ParameterLocation::Query => "query",
            ParameterLocation::Header => "header",
            ParameterLocation::Cookie => "cookie",
        }
    }
}

/// The status that a response is declared for.
#[derive(Clone, Copy, Debug, PartialEq, Eq, Structural)]
pub enum StatusCode {
    /// A numeric HTTP status.
    Code(u16),
    /// Every status that is not declared on its own.
    Default,
}

/// The key of a status in a document: the decimal numeral of a numeric
/// status, and the word `default` for the default.
pub open spec fn status_key(s: StatusCode) -> Seq<char> {
    match s {
        StatusCode::Code(code) => decimal(code as nat),
        StatusCode::Default => "default"@,
    }
}

impl StatusCode {
    /// The key of the status in a document.
    pub fn key(self) -> (out: String)
        ensures
            out@ == status_key(self),
    {
        match self {
            StatusCode::Code(code) => {
                let mut out = String::new();
                append_decimal(&mut out, code as u128);
                assert(Seq::<char>::empty() + decimal(code as nat) =~= decimal(code as nat));
                out
            },
            StatusCode::Default => "default".to_owned(),
        }
    }
}

/// The value of an optional shape.
pub open spec fn optional_shape(v: Option<TypeShape>) -> Option<ShapeView> {
    match v {
        Some(s) => Some(s@),
        None => None,
    }
}

/// A parameter as declared.
#[derive(Clone, Debug, PartialEq, Eq)]
pub struct ParameterDescriptor {
    pub name: String,
    pub location: ParameterLocation,
    pub required: bool,
    pub shape: TypeShape,
    pub example: Option<String>,
}

/// The mathematical value of a [`ParameterDescriptor`].
pub struct ParameterDescriptorView {
    pub name: Seq<char>,
    pub location: ParameterLocation,
    pub required: bool,
    pub shape: ShapeView,
    pub example: Option<Seq<char>>,
}

impl View for ParameterDescriptor {
    type V = ParameterDescriptorView;

    open spec fn view(&self) -> ParameterDescriptorView {
        ParameterDescriptorView {
            name: self.name@,
            location: self.location,
            required: self.required,
            shape: self.shape@,
            example: optional_text(self.example),
        }
    }
}

impl ParameterDescriptor {
    /// A parameter without an example.
    pub fn new(name: &str, location: ParameterLocation, required: bool, shape: TypeShape) -> (out:
        ParameterDescriptor)
        ensures
            out@ == (ParameterDescriptorView {
                name: name@,
                location,
                required,
                shape: shape@,
                example: None,
            }),
    {
        ParameterDescriptor { name: name.to_owned(), location, required, shape, example: None }
    }

    /// The same parameter with an example value.
    pub fn with_example(self, example: &str) -> (out: ParameterDescriptor)
        ensures
            out@ == (ParameterDescriptorView { example: Some(example@), ..self@ }),
    {
        ParameterDescriptor {
            name: self.name,
            location: self.location,
            required: self.required,
            shape: self.shape,
            example: Some(example.to_owned()),
        }
    }
}

/// A response as declared.
#[derive(Clone, Debug, PartialEq, Eq)]
pub struct ResponseDescriptor {
    pub status: StatusCode,
    /// The content type of the body; the default of the settings if none.
    pub content_type: Option<String>,
    /// The shape of the body, if the response has one.
    pub body: Option<TypeShape>,
}

/// The mathematical value of a [`ResponseDescriptor`].
pub struct ResponseDescriptorView {
    pub status: StatusCode,
    pub content_type: Option<Seq<char>>,
    pub body: Option<ShapeView>,
}

impl View for ResponseDescriptor {
    type V = ResponseDescriptorView;

    open spec fn view(&self) -> ResponseDescriptorView {
        ResponseDescriptorView {
            status: self.status,
            content_type: optional_text(self.content_type),
            body: optional_shape(self.body),
        }
    }
}

impl ResponseDescriptor {
    /// A response without a body.
    pub fn empty(status: StatusCode) -> (out: ResponseDescriptor)
        ensures
            out@ == (ResponseDescriptorView { status, content_type: None, body: None }),
    {
        ResponseDescriptor { status, content_type: None, body: None }
    }

    /// A response with a body of the given shape and the default content type.
    pub fn with_body(status: StatusCode, body: TypeShape) -> (out: ResponseDescriptor)
        ensures
            out@ == (ResponseDescriptorView { status, content_type: None, body: Some(body@) }),
    {
        ResponseDescriptor { status, content_type: None, body: Some(body) }
    }

    /// The same response with the given content type.
    pub fn with_content_type(self, content_type: &str) -> (out: ResponseDescriptor)
        ensures
            out@ == (ResponseDescriptorView { content_type: Some(content_type@), ..self@ }),
    {
        ResponseDescriptor {
            status: self.status,
            content_type: Some(content_type.to_owned()),
            body: self.body,
        }
    }
}

/// One endpoint as declared: everything that is known of it before its
/// types are resolved.
#[derive(Clone, Debug, PartialEq, Eq)]
pub struct OperationDescriptor {
    pub method: Method,
    /// The path template; it may hold `{name}` placeholders.
    pub path: String,
    pub parameters: Vec<ParameterDescriptor>,
    pub request_body: Option<TypeShape>,
    pub responses: Vec<ResponseDescriptor>,
    pub tags: Vec<String>,
    pub summary: String,
    pub description: String,
    /// Whether the endpoint is kept out of the document.
    pub hidden: bool,
}

/// The mathematical value of an [`OperationDescriptor`].
pub struct OperationDescriptorView {
    pub method: Method,
    pub path: Seq<char>,
    pub parameters: Seq<ParameterDescriptorView>,
    pub request_body: Option<ShapeView>,
    pub responses: Seq<ResponseDescriptorView>,
    pub tags: Seq<Seq<char>>,
    pub summary: Seq<char>,
    pub description: Seq<char>,
    pub hidden: bool,
}

impl View for OperationDescriptor {
    type V = OperationDescriptorView;

    open spec fn view(&self) -> OperationDescriptorView {
        OperationDescriptorView {
            method: self.method,
            path: self.path@,
            parameters: views(self.parameters@),
            request_body: optional_shape(self.request_body),
            responses: views(self.responses@),
            tags: texts(self.tags@),
            summary: self.summary@,
            description: self.description@,
            hidden: self.hidden,
        }
    }
}

impl OperationDescriptor {
    /// A visible endpoint with the given method and path and nothing else.
    pub fn new(method: Method, path: &str) -> (out: OperationDescriptor)
        ensures
            out@ == (OperationDescriptorView {
                method,
                path: path@,
                parameters: Seq::empty(),
                request_body: None,
                responses: Seq::empty(),
                tags: Seq::empty(),
                summary: Seq::empty(),
                description: Seq::empty(),
                hidden: false,
            }),
    {
        let out = OperationDescriptor {
            method,
            path: path.to_owned(),
            parameters: Vec::new(),
            request_body: None,
            responses: Vec::new(),
            tags: Vec::new(),
            summary: String::new(),
            description: String::new(),
            hidden: false,
        };
        assert(out@.parameters =~= Seq::empty());
        assert(out@.responses =~= Seq::empty());
        assert(out@.tags =~= Seq::empty());
        out
    }

    /// The same endpoint with one more parameter at the end.
    pub fn with_parameter(self, parameter: ParameterDescriptor) -> (out: OperationDescriptor)
        ensures
            out@ == (OperationDescriptorView {
                parameters: self@.parameters.push(parameter@),
                ..self@
            }),
    {
        let mut out = self;
        out.parameters.push(parameter);
        assert(out@.parameters =~= self@.parameters.push(parameter@));
        out
    }

    /// The same endpoint with the given request body.
    pub fn with_request_body(self, body: TypeShape) -> (out: OperationDescriptor)
        ensures
            out@ == (OperationDescriptorView { request_body: Some(body@), ..self@ }),
    {
        let mut out = self;
        out.request_body = Some(body);
        out
    }

    /// The same endpoint with one more response at the end.
    pub fn with_response(self, response: ResponseDescriptor) -> (out: OperationDescriptor)
        ensures
            out@ == (OperationDescriptorView {
                responses: self@.responses.push(response@),
                ..self@
            }),
    {
        let mut out = self;
        out.responses.push(response);
        assert(out@.responses =~= self@.responses.push(response@));
        out
    }

    /// The same endpoint with one more tag at the end.
    pub fn with_tag(self, tag: &str) -> (out: OperationDescriptor)
        ensures
            out@ == (OperationDescriptorView { tags: self@.tags.push(tag@), ..self@ }),
    {
        let mut out = self;
        out.tags.push(tag.to_owned());
        assert(out@.tags =~= self@.tags.push(tag@));
        out
    }

    /// The same endpoint with the given summary.
    pub fn with_summary(self, summary: &str) -> (out: OperationDescriptor)
        ensures
            out@ == (OperationDescriptorView { summary: summary@, ..self@ }),
    {
        let mut out = self;
        out.summary = summary.to_owned();
        out
    }

    /// The same endpoint with the given description.
    pub fn with_description(self, description: &str) -> (out: OperationDescriptor)
        ensures
            out@ == (OperationDescriptorView { description: description@, ..self@ }),
    {
        let mut out = self;
        out.description = description.to_owned();
        out
    }

    /// The same endpoint, kept out of the document.
    pub fn hidden(self) -> (out: OperationDescriptor)
        ensures
            out@ == (OperationDescriptorView { hidden: true, ..self@ }),
    {
        let mut out = self;
        out.hidden = true;
        out
    }
}

/// A parameter whose type is resolved.
#[derive(Clone, Debug, PartialEq, Eq)]
pub struct Parameter {
    pub name: String,
    pub location: ParameterLocation,
    pub required: bool,
    pub schema: SchemaRef,
    pub example: Option<String>,
}

/// The mathematical value of a [`Parameter`].
pub struct ParameterView {
    pub name: Seq<char>,
    pub location: ParameterLocation,
    pub required: bool,
    pub schema: SchemaRefView,
    pub example: Option<Seq<char>>,
}

impl View for Parameter {
    type V = ParameterView;

    open spec fn view(&self) -> ParameterView {
        ParameterView {
            name: self.name@,
            location: self.location,
            required: self.required,
            schema: self.schema@,
            example: optional_text(self.example),
        }
    }
}

/// A request body whose type is resolved.
#[derive(Clone, Debug, PartialEq, Eq)]
pub struct RequestBody {
    pub content_type: String,
    pub schema: SchemaRef,
}

/// The mathematical value of a [`RequestBody`].
pub struct RequestBodyView {
    pub content_type: Seq<char>,
    pub schema: SchemaRefView,
}

impl View for RequestBody {
    type V = RequestBodyView;

    open spec fn view(&self) -> RequestBodyView {
        RequestBodyView { content_type: self.content_type@, schema: self.schema@ }
    }
}

/// The value of an optional request body.
pub open spec fn optional_body(v: Option<RequestBody>) -> Option<RequestBodyView> {
    match v {
        Some(b) => Some(b@),
        None => None,
    }
}

/// A response whose type is resolved.
#[derive(Clone, Debug, PartialEq, Eq)]
pub struct Response {
    pub status: StatusCode,
    pub content_type: String,
    pub schema: Option<SchemaRef>,
}

/// The mathematical value of a [`Response`].
pub struct ResponseView {
    pub status: StatusCode,
    pub content_type: Seq<char>,
    pub schema: Option<SchemaRefView>,
}

impl View for Response {
    type V = ResponseView;

    open spec fn view(&self) -> ResponseView {
        ResponseView {
            status: self.status,
            content_type: self.content_type@,
            schema: optional_schema(self.schema),
        }
    }
}

/// What a document says of one endpoint, with every type a schema that
/// refers to the registry.
#[derive(Clone, Debug, PartialEq, Eq)]
pub struct Operation {
    pub parameters: Vec<Parameter>,
    pub request_body: Option<RequestBody>,
    pub responses: Vec<Response>,
    pub tags: Vec<String>,
    pub summary: String,
    pub description: String,
}

/// The mathematical value of an [`Operation`].
pub struct OperationView {
    pub parameters: Seq<ParameterView>,
    pub request_body: Option<RequestBodyView>,
    pub responses: Seq<ResponseView>,
    pub tags: Seq<Seq<char>>,
    pub summary: Seq<char>,
    pub description: Seq<char>,
}

impl View for Operation {
    type V = OperationView;

    open spec fn view(&self) -> OperationView {
        OperationView {
            parameters: views(self.parameters@),
            request_body: optional_body(self.request_body),
            responses: views(self.responses@),
            tags: texts(self.tags@),
            summary: self.summary@,
            description: self.description@,
        }
    }
}

/// Contains information about an endpoint.
#[derive(Clone, Debug, PartialEq, Eq)]
pub struct OperationInfo {
    /// The path of the endpoint.
    pub path: String,
    /// The HTTP method of this endpoint.
    pub method: Method,
    /// What the documentation shows about this endpoint.
    pub operation: Operation,
    /// Whether the endpoint is kept out of the document.
    pub hidden: bool,
}

/// The mathematical value of an [`OperationInfo`].
pub struct OperationInfoView {
    pub path: Seq<char>,
    pub method: Method,
    pub operation: OperationView,
    pub hidden: bool,
}

impl View for OperationInfo {
    type V = OperationInfoView;

    open spec fn view(&self) -> OperationInfoView {
        OperationInfoView {
            path: self.path@,
            method: self.method,
            operation: self.operation@,
            hidden: self.hidden,
        }
    }
}

} // verus!
