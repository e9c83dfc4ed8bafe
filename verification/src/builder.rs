//! The operation builder: it validates one endpoint descriptor and
//! resolves its types through the registry.

use vstd::prelude::*;
use crate::error::Error;
use crate::model::{
    EntryView, consistent, extends, fresh_settled, lemma_reg_shape, lemma_resolves_kept,
    ref_resolves, reg_shape,
};
use crate::operation::{
    Operation, OperationDescriptor, OperationDescriptorView, OperationInfo, OperationInfoView,
    OperationView, Parameter, ParameterDescriptor, ParameterDescriptorView, ParameterLocation,
    ParameterView, RequestBody, RequestBodyView, Response, ResponseDescriptor,
    ResponseDescriptorView, ResponseView, optional_shape, views,
};
use crate::path::{placeholders, template_placeholders};
use crate::registry::SchemaRegistry;
use crate::schema::{SchemaRef, SchemaRefView, optional_schema};
use crate::settings::{CollisionPolicy, SettingsView};
use crate::shape::{ShapeView, TypeShape};
use crate::text::{copy_optional_text, copy_texts, texts};

verus! {

/// Two of the parameters have the same name.
pub open spec fn duplicate_names(params: Seq<ParameterDescriptorView>) -> bool {
    exists|i: int, j: int|
        0 <= i < j < params.len() && (#[trigger] params[i]).name == (#[trigger] params[j]).name
}

/// Some parameter carried in the path has the name `n`.
pub open spec fn path_parameter(params: Seq<ParameterDescriptorView>, n: Seq<char>) -> bool {
    exists|i: int|
        0 <= i < params.len() && (#[trigger] params[i]).location == ParameterLocation::Path
            && params[i].name == n
}

/// Every placeholder name is the name of a path parameter, and every path
/// parameter is named by a placeholder.
pub open spec fn parameters_match(names: Seq<Seq<char>>, params: Seq<ParameterDescriptorView>) -> bool {
    &&& forall|k: int| 0 <= k < names.len() ==> path_parameter(params, #[trigger] names[k])
    &&& forall|i: int|
        0 <= i < params.len() && (#[trigger] params[i]).location == ParameterLocation::Path
            ==> names.contains(params[i].name)
}

/// The error that the descriptor itself is rejected with, if it is: a
/// malformed path first, then a parameter name declared twice, then
/// placeholders and path parameters that disagree.
pub open spec fn descriptor_error(d: OperationDescriptorView) -> Option<Error> {
    match placeholders(d.path) {
        None => Some(Error::MalformedPathTemplate),
        Some(names) => if duplicate_names(d.parameters) {
            Some(Error::DuplicateParameter)
        } else if !parameters_match(names, d.parameters) {
            Some(Error::PathParameterMismatch)
        } else {
            None
        },
    }
}

/// What registering a shape that may be absent gives.
pub open spec fn reg_optional(es: Seq<EntryView>, s: Option<ShapeView>, policy: CollisionPolicy) -> Result<
    (Seq<EntryView>, Option<SchemaRefView>),
    Error,
> {
    match s {
        None => Ok((es, None)),
        Some(x) => match reg_shape(es, x, policy) {
            Ok((es1, r)) => Ok((es1, Some(r))),
            Err(e) => Err(e),
        },
    }
}

/// The content type of a response: its own, or the default.
pub open spec fn response_content_type(r: ResponseDescriptorView, settings: SettingsView) -> Seq<char> {
    match r.content_type {
        Some(c) => c,
        None => settings.default_content_type,
    }
}

/// What resolving the first `n` responses gives, in order.
pub open spec fn reg_responses(
    es: Seq<EntryView>,
    rs: Seq<ResponseDescriptorView>,
    n: nat,
    settings: SettingsView,
) -> Result<(Seq<EntryView>, Seq<ResponseView>), Error>
    decreases n,
{
    if n == 0 || n > rs.len() {
        Ok((es, Seq::empty()))
    } else {
        match reg_responses(es, rs, (n - 1) as nat, settings) {
            Err(e) => Err(e),
            Ok((es1, out)) => match reg_optional(es1, rs[n - 1].body, settings.collision_policy) {
                Err(e) => Err(e),
                Ok((es2, r)) => Ok(
                    (
                        es2,
                        out.push(
                            ResponseView {
                                status: rs[n - 1].status,
                                content_type: response_content_type(rs[n - 1], settings),
                                schema: r,
                            },
                        ),
                    ),
                ),
            },
        }
    }
}

/// What resolving the first `n` parameters gives, in order.
pub open spec fn reg_parameters(
    es: Seq<EntryView>,
    ps: Seq<ParameterDescriptorView>,
    n: nat,
    policy: CollisionPolicy,
) -> Result<(Seq<EntryView>, Seq<ParameterView>), Error>
    decreases n,
{
    if n == 0 || n > ps.len() {
        Ok((es, Seq::empty()))
    } else {
        match reg_parameters(es, ps, (n - 1) as nat, policy) {
            Err(e) => Err(e),
            Ok((es1, out)) => match reg_shape(es1, ps[n - 1].shape, policy) {
                Err(e) => Err(e),
                Ok((es2, r)) => Ok(
                    (
                        es2,
                        out.push(
                            ParameterView {
                                name: ps[n - 1].name,
                                location: ps[n - 1].location,
                                required: ps[n - 1].required,
                                schema: r,
                                example: ps[n - 1].example,
                            },
                        ),
                    ),
                ),
            },
        }
    }
}

/// The request body of an operation: the schema with the default content
/// type.
pub open spec fn body_of(r: Option<SchemaRefView>, settings: SettingsView) -> Option<RequestBodyView> {
    match r {
        Some(schema) => Some(RequestBodyView { content_type: settings.default_content_type, schema }),
        None => None,
    }
}

/// What building one descriptor gives: the grown entries and the
/// operation, or the error that stops it.
///
/// The descriptor is validated first. Then the request body is
/// registered, then the bodies of the responses in order, then the
/// parameters in order. Whether the descriptor is hidden changes nothing
/// but the flag of the operation.
pub open spec fn build_spec(es: Seq<EntryView>, d: OperationDescriptorView, settings: SettingsView) -> Result<
    (Seq<EntryView>, OperationInfoView),
    Error,
> {
    match descriptor_error(d) {
        Some(e) => Err(e),
        None => match reg_optional(es, d.request_body, settings.collision_policy) {
            Err(e) => Err(e),
            Ok((es1, body)) => match reg_responses(es1, d.responses, d.responses.len(), settings) {
                Err(e) => Err(e),
                Ok((es2, responses)) => match reg_parameters(
                    es2,
                    d.parameters,
                    d.parameters.len(),
                    settings.collision_policy,
                ) {
                    Err(e) => Err(e),
                    Ok((es3, parameters)) => Ok(
                        (
                            es3,
                            OperationInfoView {
                                path: d.path,
                                method: d.method,
                                operation: OperationView {
                                    parameters,
                                    request_body: body_of(body, settings),
                                    responses,
                                    tags: d.tags,
                                    summary: d.summary,
                                    description: d.description,
                                },
                                hidden: d.hidden,
                            },
                        ),
                    ),
                },
            },
        },
    }
}

/// A schema that may be absent refers only to names of entries.
pub open spec fn optional_resolves(es: Seq<EntryView>, r: Option<SchemaRefView>) -> bool {
    match r {
        Some(x) => ref_resolves(es, x),
        None => true,
    }
}

/// Every schema of the operation refers only to names of entries.
pub open spec fn operation_closed(es: Seq<EntryView>, op: OperationView) -> bool {
    &&& forall|i: int|
        0 <= i < op.parameters.len() ==> ref_resolves(es, #[trigger] op.parameters[i].schema)
    &&& forall|i: int|
        0 <= i < op.responses.len() ==> optional_resolves(es, #[trigger] op.responses[i].schema)
    &&& match op.request_body {
        Some(b) => ref_resolves(es, b.schema),
        None => true,
    }
}

/// What a successful registration of an optional shape guarantees.
pub proof fn lemma_reg_optional(es: Seq<EntryView>, s: Option<ShapeView>, policy: CollisionPolicy)
    requires
        consistent(es, policy),
    ensures
        match reg_optional(es, s, policy) {
            Ok((es1, r)) => {
                &&& consistent(es1, policy)
                &&& extends(es, es1)
                &&& fresh_settled(es, es1)
                &&& optional_resolves(es1, r)
            },
            Err(e) => true,
        },
{
    match s {
        Some(x) => {
            lemma_reg_shape(es, x, policy);
        },
        None => {},
    }
}

/// What a successful resolution of responses guarantees.
pub proof fn lemma_reg_responses(
    es: Seq<EntryView>,
    rs: Seq<ResponseDescriptorView>,
    n: nat,
    settings: SettingsView,
)
    requires
        consistent(es, settings.collision_policy),
        n <= rs.len(),
    ensures
        match reg_responses(es, rs, n, settings) {
            Ok((es1, out)) => {
                &&& consistent(es1, settings.collision_policy)
                &&& extends(es, es1)
                &&& fresh_settled(es, es1)
                &&& out.len() == n
                &&& forall|k: int| 0 <= k < n ==> optional_resolves(es1, #[trigger] out[k].schema)
            },
            Err(e) => true,
        },
    decreases n,
{
    if n > 0 {
        lemma_reg_responses(es, rs, (n - 1) as nat, settings);
        match reg_responses(es, rs, (n - 1) as nat, settings) {
            Err(e) => {},
            Ok((es1, out)) => {
                lemma_reg_optional(es1, rs[n - 1].body, settings.collision_policy);
                match reg_optional(es1, rs[n - 1].body, settings.collision_policy) {
                    Err(e) => {},
                    Ok((es2, r)) => {
                        let all = out.push(
                            ResponseView {
                                status: rs[n - 1].status,
                                content_type: response_content_type(rs[n - 1], settings),
                                schema: r,
                            },
                        );
                        assert forall|k: int| 0 <= k < n implies optional_resolves(
                            es2,
                            #[trigger] all[k].schema,
                        ) by {
                            if k < n - 1 {
                                match out[k].schema {
                                    Some(x) => {
                                        lemma_resolves_kept(es1, es2, x);
                                    },
                                    None => {},
                                }
                            }
                        }
                        lemma_extends_chain(es, es1, es2);
                    },
                }
            },
        }
    }
}

/// What a successful resolution of parameters guarantees.
pub proof fn lemma_reg_parameters(
    es: Seq<EntryView>,
    ps: Seq<ParameterDescriptorView>,
    n: nat,
    policy: CollisionPolicy,
)
    requires
        consistent(es, policy),
        n <= ps.len(),
    ensures
        match reg_parameters(es, ps, n, policy) {
            Ok((es1, out)) => {
                &&& consistent(es1, policy)
                &&& extends(es, es1)
                &&& fresh_settled(es, es1)
                &&& out.len() == n
                &&& forall|k: int| 0 <= k < n ==> ref_resolves(es1, #[trigger] out[k].schema)
            },
            Err(e) => true,
        },
    decreases n,
{
    if n > 0 {
        lemma_reg_parameters(es, ps, (n - 1) as nat, policy);
        match reg_parameters(es, ps, (n - 1) as nat, policy) {
            Err(e) => {},
            Ok((es1, out)) => {
                lemma_reg_shape(es1, ps[n - 1].shape, policy);
                match reg_shape(es1, ps[n - 1].shape, policy) {
                    Err(e) => {},
                    Ok((es2, r)) => {
                        let all = out.push(
                            ParameterView {
                                name: ps[n - 1].name,
                                location: ps[n - 1].location,
                                required: ps[n - 1].required,
                                schema: r,
                                example: ps[n - 1].example,
                            },
                        );
                        assert forall|k: int| 0 <= k < n implies ref_resolves(
                            es2,
                            #[trigger] all[k].schema,
                        ) by {
                            if k < n - 1 {
                                lemma_resolves_kept(es1, es2, out[k].schema);
                            }
                        }
                        lemma_extends_chain(es, es1, es2);
                    },
                }
            },
        }
    }
}

/// Growth composes: what extends an extension extends what was first, and
/// what both steps added is complete.
pub proof fn lemma_extends_chain(a: Seq<EntryView>, b: Seq<EntryView>, c: Seq<EntryView>)
    requires
        extends(a, b),
        extends(b, c),
    ensures
        extends(a, c),
        fresh_settled(a, b) && fresh_settled(b, c) ==> fresh_settled(a, c),
{
    assert forall|i: int| 0 <= i < a.len() implies #[trigger] c[i] == a[i] by {
        assert(b[i] == a[i]);
    }
    if fresh_settled(a, b) && fresh_settled(b, c) {
        assert forall|i: int| a.len() <= i < c.len() implies !(#[trigger] c[i]).reserved by {
            if i < b.len() {
                assert(c[i] == b[i]);
            }
        }
    }
}

/// Once resolving the first `n` responses has failed, resolving more of
/// them fails in the same way.
pub proof fn lemma_reg_responses_sticky(
    es: Seq<EntryView>,
    rs: Seq<ResponseDescriptorView>,
    n: nat,
    m: nat,
    settings: SettingsView,
)
    requires
        n <= m <= rs.len(),
        reg_responses(es, rs, n, settings) is Err,
    ensures
        reg_responses(es, rs, m, settings) == reg_responses(es, rs, n, settings),
    decreases m,
{
    if n < m {
        lemma_reg_responses_sticky(es, rs, n, (m - 1) as nat, settings);
    }
}

/// Once resolving the first `n` parameters has failed, resolving more of
/// them fails in the same way.
pub proof fn lemma_reg_parameters_sticky(
    es: Seq<EntryView>,
    ps: Seq<ParameterDescriptorView>,
    n: nat,
    m: nat,
    policy: CollisionPolicy,
)
    requires
        n <= m <= ps.len(),
        reg_parameters(es, ps, n, policy) is Err,
    ensures
        reg_parameters(es, ps, m, policy) == reg_parameters(es, ps, n, policy),
    decreases m,
{
    if n < m {
        lemma_reg_parameters_sticky(es, ps, n, (m - 1) as nat, policy);
    }
}

/// What a successful build guarantees: the entries stay consistent and
/// only grow, what was added is complete, and the operation refers only
/// to names of entries.
pub proof fn lemma_build(es: Seq<EntryView>, d: OperationDescriptorView, settings: SettingsView)
    requires
        consistent(es, settings.collision_policy),
    ensures
        match build_spec(es, d, settings) {
            Ok((es1, op)) => {
                &&& consistent(es1, settings.collision_policy)
                &&& extends(es, es1)
                &&& fresh_settled(es, es1)
                &&& operation_closed(es1, op.operation)
            },
            Err(e) => true,
        },
{
    let policy = settings.collision_policy;
    if descriptor_error(d) is None {
        lemma_reg_optional(es, d.request_body, policy);
        match reg_optional(es, d.request_body, policy) {
            Err(e) => {},
            Ok((es1, body)) => {
                lemma_reg_responses(es1, d.responses, d.responses.len(), settings);
                match reg_responses(es1, d.responses, d.responses.len(), settings) {
                    Err(e) => {},
                    Ok((es2, responses)) => {
                        lemma_reg_parameters(es2, d.parameters, d.parameters.len(), policy);
                        match reg_parameters(es2, d.parameters, d.parameters.len(), policy) {
                            Err(e) => {},
                            Ok((es3, parameters)) => {
                                lemma_extends_chain(es, es1, es2);
                                lemma_extends_chain(es, es2, es3);
                                lemma_extends_chain(es1, es2, es3);
                                match body {
                                    Some(x) => {
                                        lemma_resolves_kept(es1, es3, x);
                                    },
                                    None => {},
                                }
                                assert forall|i: int| 0 <= i < responses.len() implies optional_resolves(
                                    es3,
                                    #[trigger] responses[i].schema,
                                ) by {
                                    match responses[i].schema {
                                        Some(x) => {
                                            lemma_resolves_kept(es2, es3, x);
                                        },
                                        None => {},
                                    }
                                }
                            },
                        }
                    },
                }
            },
        }
    }
}

fn has_duplicate_names(params: &Vec<ParameterDescriptor>) -> (out: bool)
    ensures
        out == duplicate_names(views(params@)),
{
    let ghost ps = views(params@);
    let mut j: usize = 0;
    while j < params.len()
        invariant
            j <= params.len(),
            ps == views(params@),
            forall|a: int, b: int|
                0 <= a < b < j ==> (#[trigger] ps[a]).name != (#[trigger] ps[b]).name,
        decreases params.len() - j,
    {
        let mut i: usize = 0;
        while i < j
            invariant
                i <= j < params.len(),
                ps == views(params@),
                forall|a: int| 0 <= a < i ==> (#[trigger] ps[a]).name != ps[j as int].name,
            decreases j - i,
        {
            if params[i].name == params[j].name {
                assert(ps[i as int].name == ps[j as int].name);
                return true;
            }
            i += 1;
        }
        j += 1;
    }
    false
}

fn has_path_parameter(params: &Vec<ParameterDescriptor>, name: &String) -> (out: bool)
    ensures
        out == path_parameter(views(params@), name@),
{
    let ghost ps = views(params@);
    let mut i: usize = 0;
    while i < params.len()
        invariant
            i <= params.len(),
            ps == views(params@),
            forall|a: int|
                0 <= a < i ==> !((#[trigger] ps[a]).location == ParameterLocation::Path && ps[a].name
                    == name@),
        decreases params.len() - i,
    {
        if params[i].location == ParameterLocation::Path && params[i].name == *name {
            assert(ps[i as int].location == ParameterLocation::Path && ps[i as int].name == name@);
            return true;
        }
        i += 1;
    }
    false
}

fn has_text(names: &Vec<String>, name: &String) -> (out: bool)
    ensures
        out == texts(names@).contains(name@),
{
    let ghost ns = texts(names@);
    let mut i: usize = 0;
    while i < names.len()
        invariant
            i <= names.len(),
            ns == texts(names@),
            forall|a: int| 0 <= a < i ==> #[trigger] ns[a] != name@,
        decreases names.len() - i,
    {
        if names[i] == *name {
            assert(ns[i as int] == name@);
            return true;
        }
        i += 1;
    }
    false
}

fn placeholders_match(names: &Vec<String>, params: &Vec<ParameterDescriptor>) -> (out: bool)
    ensures
        out == parameters_match(texts(names@), views(params@)),
{
    let ghost ns = texts(names@);
    let ghost ps = views(params@);
    let mut k: usize = 0;
    while k < names.len()
        invariant
            k <= names.len(),
            ns == texts(names@),
            ps == views(params@),
            forall|a: int| 0 <= a < k ==> path_parameter(ps, #[trigger] ns[a]),
        decreases names.len() - k,
    {
        if !has_path_parameter(params, &names[k]) {
            assert(!path_parameter(ps, ns[k as int]));
            return false;
        }
        k += 1;
    }
    let mut i: usize = 0;
    while i < params.len()
        invariant
            i <= params.len(),
            ns == texts(names@),
            ps == views(params@),
            forall|a: int| 0 <= a < names.len() ==> path_parameter(ps, #[trigger] ns[a]),
            forall|a: int|
                0 <= a < i && (#[trigger] ps[a]).location == ParameterLocation::Path ==> ns.contains(
                    ps[a].name,
                ),
        decreases params.len() - i,
    {
        if params[i].location == ParameterLocation::Path && !has_text(names, &params[i].name) {
            assert(ps[i as int].location == ParameterLocation::Path && !ns.contains(
                ps[i as int].name,
            ));
            return false;
        }
        i += 1;
    }
    true
}

fn resolve_body(body: &Option<TypeShape>, registry: &mut SchemaRegistry) -> (out: Result<
    Option<SchemaRef>,
    Error,
>)
    requires
        consistent(old(registry)@.entries, old(registry)@.settings.collision_policy),
    ensures
        final(registry)@.settings == old(registry)@.settings,
        match reg_optional(
            old(registry)@.entries,
            optional_shape(*body),
            old(registry)@.settings.collision_policy,
        ) {
            Ok((es1, r)) => out matches Ok(x) && optional_schema(x) == r && final(registry)@.entries
                == es1,
            Err(e) => out == Err::<Option<SchemaRef>, Error>(e) && extends(
                old(registry)@.entries,
                final(registry)@.entries,
            ),
        },
{
    match body {
        None => Ok(None),
        Some(shape) => match registry.register(shape) {
            Ok(schema) => Ok(Some(schema)),
            Err(e) => Err(e),
        },
    }
}

#[verifier::loop_isolation(false)]
fn resolve_responses(declared: &Vec<ResponseDescriptor>, registry: &mut SchemaRegistry) -> (out:
    Result<Vec<Response>, Error>)
    requires
        consistent(old(registry)@.entries, old(registry)@.settings.collision_policy),
    ensures
        final(registry)@.settings == old(registry)@.settings,
        match reg_responses(
            old(registry)@.entries,
            views(declared@),
            declared.len() as nat,
            old(registry)@.settings,
        ) {
            Ok((es1, rs)) => out matches Ok(v) && views(v@) == rs && final(registry)@.entries == es1,
            Err(e) => out == Err::<Vec<Response>, Error>(e) && extends(
                old(registry)@.entries,
                final(registry)@.entries,
            ),
        },
{
    let ghost es = registry@.entries;
    let ghost settings = registry@.settings;
    let ghost policy = settings.collision_policy;
    let ghost ds = views(declared@);
    let default_type = registry.settings().default_content_type.clone();
    let mut responses: Vec<Response> = Vec::new();
    let mut i: usize = 0;
    assert(views(responses@) =~= Seq::<ResponseView>::empty());
    while i < declared.len()
        invariant
            i <= declared.len(),
            responses.len() == i,
            ds == views(declared@),
            policy == settings.collision_policy,
            default_type@ == settings.default_content_type,
            registry@.settings == settings,
            reg_responses(es, ds, i as nat, settings) == Ok::<
                (Seq<EntryView>, Seq<ResponseView>),
                Error,
            >((registry@.entries, views(responses@))),
            consistent(registry@.entries, policy),
            extends(es, registry@.entries),
        decreases declared.len() - i,
    {
        let ghost cur = registry@.entries;
        let ghost done = views(responses@);
        let item = &declared[i];
        assert(ds[i as int] == item@);
        proof {
            lemma_reg_optional(cur, item@.body, policy);
        }
        let schema = match resolve_body(&item.body, registry) {
            Ok(schema) => schema,
            Err(e) => {
                proof {
                    lemma_extends_chain(es, cur, registry@.entries);
                    lemma_reg_responses_sticky(es, ds, (i + 1) as nat, ds.len(), settings);
                }
                return Err(e);
            },
        };
        let content_type = match &item.content_type {
            Some(c) => c.clone(),
            None => default_type.clone(),
        };
        responses.push(Response { status: item.status, content_type, schema });
        proof {
            lemma_extends_chain(es, cur, registry@.entries);
            assert(views(responses@) =~= done.push(responses[i as int]@));
        }
        i += 1;
    }
    Ok(responses)
}

#[verifier::loop_isolation(false)]
fn resolve_parameters(declared: &Vec<ParameterDescriptor>, registry: &mut SchemaRegistry) -> (out:
    Result<Vec<Parameter>, Error>)
    requires
        consistent(old(registry)@.entries, old(registry)@.settings.collision_policy),
    ensures
        final(registry)@.settings == old(registry)@.settings,
        match reg_parameters(
            old(registry)@.entries,
            views(declared@),
            declared.len() as nat,
            old(registry)@.settings.collision_policy,
        ) {
            Ok((es1, ps)) => out matches Ok(v) && views(v@) == ps && final(registry)@.entries == es1,
            Err(e) => out == Err::<Vec<Parameter>, Error>(e) && extends(
                old(registry)@.entries,
                final(registry)@.entries,
            ),
        },
{
    let ghost es = registry@.entries;
    let ghost settings = registry@.settings;
    let ghost policy = settings.collision_policy;
    let ghost ds = views(declared@);
    let mut parameters: Vec<Parameter> = Vec::new();
    let mut j: usize = 0;
    assert(views(parameters@) =~= Seq::<ParameterView>::empty());
    while j < declared.len()
        invariant
            j <= declared.len(),
            parameters.len() == j,
            ds == views(declared@),
            policy == settings.collision_policy,
            registry@.settings == settings,
            reg_parameters(es, ds, j as nat, policy) == Ok::<
                (Seq<EntryView>, Seq<ParameterView>),
                Error,
            >((registry@.entries, views(parameters@))),
            consistent(registry@.entries, policy),
            extends(es, registry@.entries),
        decreases declared.len() - j,
    {
        let ghost cur = registry@.entries;
        let ghost done = views(parameters@);
        let item = &declared[j];
        assert(ds[j as int] == item@);
        proof {
            lemma_reg_shape(cur, item@.shape, policy);
        }
        let schema = match registry.register(&item.shape) {
            Ok(schema) => schema,
            Err(e) => {
                proof {
                    lemma_extends_chain(es, cur, registry@.entries);
                    lemma_reg_parameters_sticky(es, ds, (j + 1) as nat, ds.len(), policy);
                }
                return Err(e);
            },
        };
        parameters.push(
            Parameter {
                name: item.name.clone(),
                location: item.location,
                required: item.required,
                schema,
                example: copy_optional_text(&item.example),
            },
        );
        proof {
            lemma_extends_chain(es, cur, registry@.entries);
            assert(views(parameters@) =~= done.push(parameters[j as int]@));
        }
        j += 1;
    }
    Ok(parameters)
}

fn resolve_all(descriptor: &OperationDescriptor, registry: &mut SchemaRegistry) -> (out: Result<
    OperationInfo,
    Error,
>)
    requires
        consistent(old(registry)@.entries, old(registry)@.settings.collision_policy),
        descriptor_error(descriptor@) is None,
    ensures
        final(registry)@.settings == old(registry)@.settings,
        match build_spec(old(registry)@.entries, descriptor@, old(registry)@.settings) {
            Ok((es1, op)) => out matches Ok(x) && x@ == op && final(registry)@.entries == es1,
            Err(e) => out == Err::<OperationInfo, Error>(e) && extends(
                old(registry)@.entries,
                final(registry)@.entries,
            ),
        },
{
    let ghost es = registry@.entries;
    let ghost settings = registry@.settings;
    let ghost policy = settings.collision_policy;
    let ghost d = descriptor@;
    proof {
        lemma_reg_optional(es, d.request_body, policy);
    }
    let default_type = registry.settings().default_content_type.clone();
    let body = match resolve_body(&descriptor.request_body, registry) {
        Ok(body) => body,
        Err(e) => {
            return Err(e);
        },
    };
    let ghost es1 = registry@.entries;
    proof {
        lemma_reg_responses(es1, d.responses, d.responses.len(), settings);
    }
    let responses = match resolve_responses(&descriptor.responses, registry) {
        Ok(responses) => responses,
        Err(e) => {
            proof {
                lemma_extends_chain(es, es1, registry@.entries);
            }
            return Err(e);
        },
    };
    let ghost es2 = registry@.entries;
    proof {
        lemma_extends_chain(es, es1, es2);
    }
    let parameters = match resolve_parameters(&descriptor.parameters, registry) {
        Ok(parameters) => parameters,
        Err(e) => {
            proof {
                lemma_extends_chain(es, es2, registry@.entries);
            }
            return Err(e);
        },
    };
    let request_body = match body {
        Some(schema) => Some(RequestBody { content_type: default_type, schema }),
        None => None,
    };
    Ok(
        OperationInfo {
            path: descriptor.path.clone(),
            method: descriptor.method,
            operation: Operation {
                parameters,
                request_body,
                responses,
                tags: copy_texts(&descriptor.tags),
                summary: descriptor.summary.clone(),
                description: descriptor.description.clone(),
            },
            hidden: descriptor.hidden,
        },
    )
}

/// Builds the operation of one endpoint, registering its types.
///
/// On an error the registry is left as it was.
pub fn build(descriptor: &OperationDescriptor, registry: &mut SchemaRegistry) -> (out: Result<
    OperationInfo,
    Error,
>)
    ensures
        old(registry)@.wf(),
        final(registry)@.wf(),
        final(registry)@.settings == old(registry)@.settings,
        match build_spec(old(registry)@.entries, descriptor@, old(registry)@.settings) {
            Ok((es1, op)) => out matches Ok(x) && x@ == op && final(registry)@.entries == es1,
            Err(e) => out == Err::<OperationInfo, Error>(e) && final(registry)@.entries == old(
                registry,
            )@.entries,
        },
        extends(old(registry)@.entries, final(registry)@.entries),
        out matches Ok(x) ==> operation_closed(final(registry)@.entries, x@.operation),
{
    let ghost es = registry@.entries;
    let start = registry.len();
    proof {
        lemma_build(es, descriptor@, registry@.settings);
    }
    let names = match template_placeholders(descriptor.path.as_str()) {
        Ok(names) => names,
        Err(e) => {
            return Err(e);
        },
    };
    if has_duplicate_names(&descriptor.parameters) {
        return Err(Error::DuplicateParameter);
    }
    if !placeholders_match(&names, &descriptor.parameters) {
        return Err(Error::PathParameterMismatch);
    }
    let out = resolve_all(descriptor, registry);
    if out.is_err() {
        assert(registry@.entries.take(start as int) =~= es);
        registry.truncate(start);
    }
    out
}

} // verus!
