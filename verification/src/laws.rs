//! Laws of registration, building and assembly, proved from their models.

use vstd::prelude::*;
use crate::builder::{
    build_spec, descriptor_error, lemma_extends_chain, lemma_reg_optional, lemma_reg_parameters,
    lemma_reg_responses, operation_closed, reg_optional, reg_parameters, reg_responses,
};
use crate::document::{
    arrange, build_all, document_closed, duplicate_routes, generate_spec, lemma_arrange,
    lemma_build_all,
};
use crate::error::Error;
use crate::model::{
    EntryView, assigned_name, candidate, consistent, extends, fresh_settled, has_pending,
    has_source, lemma_assigned_name, lemma_reg_fields, lemma_reg_shape, lemma_reserve, name_used,
    reg_fields, reg_shape, register_spec, reserve, settled, source_index,
};
use crate::operation::{
    OperationDescriptor, OperationDescriptorView, OperationInfoView, ParameterDescriptorView,
    ResponseDescriptorView, views,
};
use crate::settings::{CollisionPolicy, Metadata, MetadataView, Settings, SettingsView};
use crate::shape::{FieldView, ShapeView, TypeShape};

verus! {

/// Registering a shape a second time gives the same schema as the first
/// time and changes nothing.
pub proof fn lemma_register_idempotent(es: Seq<EntryView>, s: ShapeView, policy: CollisionPolicy)
    requires
        consistent(es, policy),
        register_spec(es, s, policy).1 is Ok,
    ensures
        register_spec(register_spec(es, s, policy).0, s, policy) == register_spec(es, s, policy),
    decreases s,
{
    lemma_reg_shape(es, s, policy);
    match s {
        ShapeView::Array(inner) => {
            lemma_register_idempotent(es, *inner, policy);
        },
        _ => {},
    }
}

/// Two shapes that are structurally equal share one entry: registering
/// the second after the first gives the same schema and adds nothing, and
/// no two entries come from that shape.
pub proof fn lemma_structural_dedup(
    es: Seq<EntryView>,
    a: TypeShape,
    b: TypeShape,
    policy: CollisionPolicy,
)
    requires
        consistent(es, policy),
        a@ == b@,
        register_spec(es, a@, policy).1 is Ok,
    ensures
        register_spec(register_spec(es, a@, policy).0, b@, policy) == register_spec(es, a@, policy),
        forall|i: int, j: int|
            #![trigger register_spec(es, a@, policy).0[i], register_spec(es, a@, policy).0[j]]
            {
                let es1 = register_spec(es, a@, policy).0;
                0 <= i < es1.len() && 0 <= j < es1.len() && es1[i].source == a@ && es1[j].source
                    == b@ ==> i == j
            },
{
    lemma_register_idempotent(es, a@, policy);
    lemma_reg_shape(es, a@, policy);
    let es1 = register_spec(es, a@, policy).0;
    assert forall|i: int, j: int|
        0 <= i < es1.len() && 0 <= j < es1.len() && es1[i].source == a@ && es1[j].source
            == b@ implies i == j by {
        if i < j {
            assert(es1[i].source != es1[j].source);
        } else if j < i {
            assert(es1[j].source != es1[i].source);
        }
    }
}

/// Two different object shapes that ask for the same name: once the first
/// is registered, registering the second fails with a naming collision
/// under the failing policy; under the mangling policy it never fails
/// with one, and where it succeeds the two have different names.
pub proof fn lemma_collision(es: Seq<EntryView>, a: ShapeView, b: ShapeView, policy: CollisionPolicy)
    requires
        consistent(es, policy),
        a is Object,
        b is Object,
        a != b,
        candidate(a) == candidate(b),
        register_spec(es, a, policy).1 is Ok,
    ensures
        match register_spec(register_spec(es, a, policy).0, b, policy).1 {
            Ok(rb) => {
                &&& policy == CollisionPolicy::Mangle
                &&& register_spec(es, a, policy).1 matches Ok(ra)
                &&& ra is Named
                &&& rb is Named
                &&& ra != rb
            },
            Err(e) => match policy {
                CollisionPolicy::Fail => e == Error::NamingCollision,
                CollisionPolicy::Mangle => e == Error::UnresolvedReference,
            },
        },
{
    lemma_reg_shape(es, a, policy);
    let es1 = register_spec(es, a, policy).0;
    let ia = source_index(es1, a);
    lemma_reg_shape(es1, b, policy);
    if policy == CollisionPolicy::Fail {
        assert(es1[ia].name == candidate(a));
        if has_source(es1, b) {
            let ib = source_index(es1, b);
            assert(es1[ib].name == candidate(b));
            if ia < ib {
                assert(es1[ia].name != es1[ib].name);
            } else if ib < ia {
                assert(es1[ib].name != es1[ia].name);
            }
            assert(false);
        }
        assert(name_used(es1, candidate(b)));
        lemma_assigned_name(es1, candidate(b), policy);
    } else {
        match reg_shape(es1, b, policy) {
            Ok((es2, rb)) => {
                let ib = source_index(es2, b);
                assert(es2[ia] == es1[ia]);
                if ia < ib {
                    assert(es2[ia].name != es2[ib].name);
                } else if ib < ia {
                    assert(es2[ib].name != es2[ia].name);
                }
            },
            Err(e) => {},
        }
    }
}

/// The shape holds no reference by name.
pub open spec fn reference_free(s: ShapeView) -> bool
    decreases s, 0nat,
{
    match s {
        ShapeView::Primitive(_) => true,
        ShapeView::Array(inner) => reference_free(*inner),
        ShapeView::Reference(_) => false,
        ShapeView::Object { name, fields } => fields_reference_free(fields, fields.len()),
    }
}

/// The first `n` of the fields hold no reference by name.
pub open spec fn fields_reference_free(fields: Seq<FieldView>, n: nat) -> bool
    decreases fields, n,
{
    if n == 0 || n > fields.len() {
        true
    } else {
        fields_reference_free(fields, (n - 1) as nat) && reference_free(fields[n - 1].shape)
    }
}

/// Under the mangling policy, registering a shape without references
/// always succeeds.
pub proof fn lemma_mangle_succeeds(es: Seq<EntryView>, s: ShapeView)
    requires
        consistent(es, CollisionPolicy::Mangle),
        reference_free(s),
    ensures
        reg_shape(es, s, CollisionPolicy::Mangle) is Ok,
    decreases s, 0nat,
{
    let policy = CollisionPolicy::Mangle;
    match s {
        ShapeView::Primitive(_) => {},
        ShapeView::Array(inner) => {
            lemma_mangle_succeeds(es, *inner);
        },
        ShapeView::Reference(_) => {},
        ShapeView::Object { name, fields } => {
            if !has_source(es, s) {
                lemma_assigned_name(es, name, policy);
                let stable = assigned_name(es, name, policy)->Some_0;
                lemma_reserve(es, stable, s, policy);
                lemma_mangle_fields_succeed(reserve(es, stable, s), fields, fields.len());
            }
        },
    }
}

proof fn lemma_mangle_fields_succeed(es: Seq<EntryView>, fields: Seq<FieldView>, n: nat)
    requires
        consistent(es, CollisionPolicy::Mangle),
        n <= fields.len(),
        fields_reference_free(fields, n),
    ensures
        reg_fields(es, fields, n, CollisionPolicy::Mangle) is Ok,
    decreases fields, n,
{
    if n > 0 {
        lemma_mangle_fields_succeed(es, fields, (n - 1) as nat);
        lemma_reg_fields(es, fields, (n - 1) as nat, CollisionPolicy::Mangle);
        let es1 = reg_fields(es, fields, (n - 1) as nat, CollisionPolicy::Mangle)->Ok_0.0;
        lemma_mangle_succeeds(es1, fields[n - 1].shape);
    }
}

/// Under the mangling policy, two different object shapes without
/// references that ask for the same name are both registered, under two
/// different names.
pub proof fn lemma_mangle_distinct_names(es: Seq<EntryView>, a: ShapeView, b: ShapeView)
    requires
        consistent(es, CollisionPolicy::Mangle),
        a is Object,
        b is Object,
        a != b,
        candidate(a) == candidate(b),
        reference_free(a),
        reference_free(b),
    ensures
        register_spec(es, a, CollisionPolicy::Mangle).1 matches Ok(ra) && register_spec(
            register_spec(es, a, CollisionPolicy::Mangle).0,
            b,
            CollisionPolicy::Mangle,
        ).1 matches Ok(rb) && ra is Named && rb is Named && ra != rb,
{
    let policy = CollisionPolicy::Mangle;
    lemma_mangle_succeeds(es, a);
    lemma_reg_shape(es, a, policy);
    lemma_mangle_succeeds(register_spec(es, a, policy).0, b);
    lemma_collision(es, a, b, policy);
}

/// While entries grow, what was complete stays complete.
pub proof fn lemma_settled_grows(a: Seq<EntryView>, b: Seq<EntryView>)
    requires
        settled(a),
        extends(a, b),
        fresh_settled(a, b),
    ensures
        settled(b),
{
    assert forall|i: int| 0 <= i < b.len() implies !(#[trigger] b[i]).reserved by {
        if i < a.len() {
            assert(b[i] == a[i]);
        }
    }
}

/// Registering the shape changes nothing: every object in it has its
/// entry and every reference in it resolves.
pub open spec fn covered(es: Seq<EntryView>, s: ShapeView, policy: CollisionPolicy) -> bool {
    register_spec(es, s, policy).1 is Ok && register_spec(es, s, policy).0 == es
}

/// A shape that was registered is covered.
pub proof fn lemma_registered_covered(es: Seq<EntryView>, s: ShapeView, policy: CollisionPolicy)
    requires
        consistent(es, policy),
        register_spec(es, s, policy).1 is Ok,
    ensures
        covered(register_spec(es, s, policy).0, s, policy),
{
    lemma_register_idempotent(es, s, policy);
}

/// A covered shape stays covered, with the same schema, however the
/// registry grows.
pub proof fn lemma_covered_stable(
    a: Seq<EntryView>,
    b: Seq<EntryView>,
    s: ShapeView,
    policy: CollisionPolicy,
)
    requires
        consistent(a, policy),
        consistent(b, policy),
        settled(a),
        settled(b),
        extends(a, b),
        covered(a, s, policy),
    ensures
        covered(b, s, policy),
        register_spec(b, s, policy).1 == register_spec(a, s, policy).1,
    decreases s,
{
    lemma_reg_shape(a, s, policy);
    match s {
        ShapeView::Primitive(_) => {},
        ShapeView::Array(inner) => {
            lemma_covered_stable(a, b, *inner, policy);
        },
        ShapeView::Reference(n) => {
            assert(!has_pending(a, n));
            assert(!has_pending(b, n));
            let i = choose|i: int| 0 <= i < a.len() && (#[trigger] a[i]).name == n;
            assert(b[i].name == n);
        },
        ShapeView::Object { name, fields } => {
            let i = source_index(a, s);
            assert(b[i] == a[i]);
            assert(has_source(b, s));
            let j = source_index(b, s);
            if i < j {
                assert(b[i].source != b[j].source);
            } else if j < i {
                assert(b[j].source != b[i].source);
            }
        },
    }
}

/// The descriptor declares the shape `s`: as its request body, as the
/// body of a response or as the type of a parameter.
pub open spec fn declares(d: OperationDescriptorView, s: ShapeView) -> bool {
    ||| d.request_body == Some(s)
    ||| exists|i: int| 0 <= i < d.responses.len() && (#[trigger] d.responses[i]).body == Some(s)
    ||| exists|i: int| 0 <= i < d.parameters.len() && (#[trigger] d.parameters[i]).shape == s
}

proof fn lemma_responses_cover(
    es: Seq<EntryView>,
    rs: Seq<ResponseDescriptorView>,
    n: nat,
    settings: SettingsView,
)
    requires
        consistent(es, settings.collision_policy),
        settled(es),
        n <= rs.len(),
        reg_responses(es, rs, n, settings) is Ok,
    ensures
        forall|k: int, s: ShapeView|
            0 <= k < n && (#[trigger] rs[k]).body == Some(s) ==> #[trigger] covered(
                reg_responses(es, rs, n, settings)->Ok_0.0,
                s,
                settings.collision_policy,
            ),
    decreases n,
{
    let policy = settings.collision_policy;
    if n > 0 {
        let (es1, out) = reg_responses(es, rs, (n - 1) as nat, settings)->Ok_0;
        lemma_responses_cover(es, rs, (n - 1) as nat, settings);
        lemma_reg_responses(es, rs, (n - 1) as nat, settings);
        lemma_settled_grows(es, es1);
        lemma_reg_optional(es1, rs[n - 1].body, policy);
        let (es2, r) = reg_optional(es1, rs[n - 1].body, policy)->Ok_0;
        lemma_settled_grows(es1, es2);
        assert forall|k: int, s: ShapeView|
            0 <= k < n && (#[trigger] rs[k]).body == Some(s) implies #[trigger] covered(
            es2,
            s,
            policy,
        ) by {
            if k < n - 1 {
                assert(covered(es1, s, policy));
                lemma_covered_stable(es1, es2, s, policy);
            } else {
                lemma_registered_covered(es1, s, policy);
            }
        }
    }
}

proof fn lemma_parameters_cover(
    es: Seq<EntryView>,
    ps: Seq<ParameterDescriptorView>,
    n: nat,
    policy: CollisionPolicy,
)
    requires
        consistent(es, policy),
        settled(es),
        n <= ps.len(),
        reg_parameters(es, ps, n, policy) is Ok,
    ensures
        forall|k: int|
            0 <= k < n ==> covered(
                reg_parameters(es, ps, n, policy)->Ok_0.0,
                (#[trigger] ps[k]).shape,
                policy,
            ),
    decreases n,
{
    if n > 0 {
        let (es1, out) = reg_parameters(es, ps, (n - 1) as nat, policy)->Ok_0;
        lemma_parameters_cover(es, ps, (n - 1) as nat, policy);
        lemma_reg_parameters(es, ps, (n - 1) as nat, policy);
        lemma_settled_grows(es, es1);
        lemma_reg_shape(es1, ps[n - 1].shape, policy);
        let (es2, r) = reg_shape(es1, ps[n - 1].shape, policy)->Ok_0;
        lemma_settled_grows(es1, es2);
        assert forall|k: int| 0 <= k < n implies covered(es2, (#[trigger] ps[k]).shape, policy) by {
            if k < n - 1 {
                lemma_covered_stable(es1, es2, ps[k].shape, policy);
            } else {
                lemma_registered_covered(es1, ps[k].shape, policy);
            }
        }
    }
}

/// Once a descriptor is built, every shape it declares is covered.
pub proof fn lemma_build_covers(es: Seq<EntryView>, d: OperationDescriptorView, settings: SettingsView)
    requires
        consistent(es, settings.collision_policy),
        settled(es),
        build_spec(es, d, settings) is Ok,
    ensures
        forall|s: ShapeView|
            declares(d, s) ==> #[trigger] covered(
                build_spec(es, d, settings)->Ok_0.0,
                s,
                settings.collision_policy,
            ),
{
    let policy = settings.collision_policy;
    lemma_reg_optional(es, d.request_body, policy);
    let (es1, body) = reg_optional(es, d.request_body, policy)->Ok_0;
    lemma_settled_grows(es, es1);
    lemma_reg_responses(es1, d.responses, d.responses.len(), settings);
    let (es2, responses) = reg_responses(es1, d.responses, d.responses.len(), settings)->Ok_0;
    lemma_settled_grows(es1, es2);
    lemma_reg_parameters(es2, d.parameters, d.parameters.len(), policy);
    let (es3, parameters) = reg_parameters(es2, d.parameters, d.parameters.len(), policy)->Ok_0;
    lemma_settled_grows(es2, es3);
    lemma_extends_chain(es1, es2, es3);
    lemma_responses_cover(es1, d.responses, d.responses.len(), settings);
    lemma_parameters_cover(es2, d.parameters, d.parameters.len(), policy);
    assert forall|s: ShapeView| declares(d, s) implies #[trigger] covered(es3, s, policy) by {
        if d.request_body == Some(s) {
            lemma_registered_covered(es, s, policy);
            lemma_covered_stable(es1, es3, s, policy);
        } else if exists|i: int|
            0 <= i < d.responses.len() && (#[trigger] d.responses[i]).body == Some(s) {
            let i = choose|i: int|
                0 <= i < d.responses.len() && (#[trigger] d.responses[i]).body == Some(s);
            assert(covered(es2, s, policy));
            lemma_covered_stable(es2, es3, s, policy);
        } else {
            let i = choose|i: int|
                0 <= i < d.parameters.len() && (#[trigger] d.parameters[i]).shape == s;
            assert(covered(es3, d.parameters[i].shape, policy));
        }
    }
}

proof fn lemma_covered_responses(
    es: Seq<EntryView>,
    rs: Seq<ResponseDescriptorView>,
    n: nat,
    settings: SettingsView,
)
    requires
        n <= rs.len(),
        forall|k: int, s: ShapeView|
            0 <= k < rs.len() && (#[trigger] rs[k]).body == Some(s) ==> #[trigger] covered(
                es,
                s,
                settings.collision_policy,
            ),
    ensures
        reg_responses(es, rs, n, settings) is Ok,
        reg_responses(es, rs, n, settings)->Ok_0.0 == es,
    decreases n,
{
    if n > 0 {
        lemma_covered_responses(es, rs, (n - 1) as nat, settings);
        match rs[n - 1].body {
            Some(s) => {
                assert(covered(es, s, settings.collision_policy));
            },
            None => {},
        }
    }
}

proof fn lemma_covered_parameters(
    es: Seq<EntryView>,
    ps: Seq<ParameterDescriptorView>,
    n: nat,
    policy: CollisionPolicy,
)
    requires
        n <= ps.len(),
        forall|k: int| 0 <= k < ps.len() ==> covered(es, (#[trigger] ps[k]).shape, policy),
    ensures
        reg_parameters(es, ps, n, policy) is Ok,
        reg_parameters(es, ps, n, policy)->Ok_0.0 == es,
    decreases n,
{
    if n > 0 {
        lemma_covered_parameters(es, ps, (n - 1) as nat, policy);
        assert(covered(es, ps[n - 1].shape, policy));
    }
}

/// A valid descriptor whose shapes are all covered builds without
/// changing the registry.
pub proof fn lemma_covered_build(es: Seq<EntryView>, d: OperationDescriptorView, settings: SettingsView)
    requires
        descriptor_error(d) is None,
        forall|s: ShapeView| declares(d, s) ==> #[trigger] covered(es, s, settings.collision_policy),
    ensures
        build_spec(es, d, settings) is Ok,
        build_spec(es, d, settings)->Ok_0.0 == es,
{
    let policy = settings.collision_policy;
    match d.request_body {
        Some(s) => {
            assert(declares(d, s));
            assert(covered(es, s, policy));
        },
        None => {},
    }
    assert forall|k: int, s: ShapeView|
        0 <= k < d.responses.len() && (#[trigger] d.responses[k]).body == Some(s) implies #[trigger] covered(
        es,
        s,
        policy,
    ) by {
        assert(declares(d, s));
    }
    assert forall|k: int| 0 <= k < d.parameters.len() implies covered(
        es,
        (#[trigger] d.parameters[k]).shape,
        policy,
    ) by {
        assert(declares(d, d.parameters[k].shape));
    }
    lemma_covered_responses(es, d.responses, d.responses.len(), settings);
    lemma_covered_parameters(es, d.parameters, d.parameters.len(), policy);
}

/// A hidden endpoint whose types overlap with those of an endpoint built
/// before it leaves the registry as it is: if every shape that `h`
/// declares is declared by `v`, building `h` after `v` adds nothing.
pub proof fn lemma_hidden_overlap(
    es: Seq<EntryView>,
    v: OperationDescriptorView,
    h: OperationDescriptorView,
    settings: SettingsView,
)
    requires
        consistent(es, settings.collision_policy),
        settled(es),
        build_spec(es, v, settings) is Ok,
        descriptor_error(h) is None,
        forall|s: ShapeView| declares(h, s) ==> declares(v, s),
    ensures
        build_spec(build_spec(es, v, settings)->Ok_0.0, h, settings) is Ok,
        build_spec(build_spec(es, v, settings)->Ok_0.0, h, settings)->Ok_0.0 == build_spec(
            es,
            v,
            settings,
        )->Ok_0.0,
{
    let es1 = build_spec(es, v, settings)->Ok_0.0;
    lemma_build_covers(es, v, settings);
    assert forall|s: ShapeView| declares(h, s) implies #[trigger] covered(
        es1,
        s,
        settings.collision_policy,
    ) by {
        assert(declares(v, s));
    }
    lemma_covered_build(es1, h, settings);
}

/// Whether a descriptor is hidden changes nothing of what building it
/// does to the registry, and nothing of its operation but the flag.
pub proof fn lemma_hidden_same_registry(
    es: Seq<EntryView>,
    d: OperationDescriptorView,
    settings: SettingsView,
)
    ensures
        match (
            build_spec(es, d, settings),
            build_spec(es, OperationDescriptorView { hidden: !d.hidden, ..d }, settings),
        ) {
            (Ok((es1, op1)), Ok((es2, op2))) => es1 == es2 && op2 == (OperationInfoView {
                hidden: !d.hidden,
                ..op1
            }),
            (Err(e1), Err(e2)) => e1 == e2,
            _ => false,
        },
{
}

/// A hidden operation is in no assembled document, and every visible one
/// is in it.
pub proof fn lemma_hidden_excluded(ops: Seq<OperationInfoView>)
    requires
        arrange(ops) is Some,
    ensures
        forall|k: int| 0 <= k < arrange(ops)->Some_0.len() ==> !(#[trigger] arrange(ops)->Some_0[k]).hidden,
        forall|i: int|
            0 <= i < ops.len() && !(#[trigger] ops[i]).hidden ==> arrange(ops)->Some_0.contains(ops[i]),
{
    lemma_arrange(ops);
}

/// Two visible operations with the same normalized path and the same
/// method make the assembly fail, and nothing else does.
pub proof fn lemma_duplicate_route(ops: Seq<OperationInfoView>)
    ensures
        arrange(ops) is None <==> duplicate_routes(ops),
{
    lemma_arrange(ops);
}

/// No document that is generated holds a dangling reference: every name
/// that an operation or a schema refers to is the name of an entry of
/// the document's registry.
pub proof fn lemma_no_dangling(
    ds: Seq<OperationDescriptorView>,
    settings: SettingsView,
    metadata: MetadataView,
)
    requires
        generate_spec(ds, settings, metadata) is Ok,
    ensures
        document_closed(generate_spec(ds, settings, metadata)->Ok_0),
        generate_spec(ds, settings, metadata)->Ok_0.schemas.wf(),
{
    let empty = Seq::<EntryView>::empty();
    lemma_build_all(empty, ds, ds.len(), settings);
    let (es, ops) = build_all(empty, ds, ds.len(), settings)->Ok_0;
    lemma_arrange(ops);
    let doc = generate_spec(ds, settings, metadata)->Ok_0;
    assert forall|i: int| 0 <= i < doc.paths.len() implies operation_closed(
        doc.schemas.entries,
        (#[trigger] doc.paths[i]).operation,
    ) by {
        assert(ops.contains(doc.paths[i]));
        let k = choose|k: int| 0 <= k < ops.len() && ops[k] == doc.paths[i];
        assert(operation_closed(es, ops[k].operation));
    }
}

/// Generation is a function of its inputs: descriptors, settings and
/// metadata that are equal by value give equal results.
pub proof fn lemma_generate_deterministic(
    a: Seq<OperationDescriptor>,
    b: Seq<OperationDescriptor>,
    s1: Settings,
    s2: Settings,
    m1: Metadata,
    m2: Metadata,
)
    requires
        views(a) == views(b),
        s1@ == s2@,
        m1@ == m2@,
    ensures
        generate_spec(views(a), s1@, m1@) == generate_spec(views(b), s2@, m2@),
{
}

} // verus!
