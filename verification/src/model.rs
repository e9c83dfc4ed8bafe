//! The mathematical model of schema registration: what a registry holds,
//! what registering a shape does to it, and what follows from that.

use vstd::prelude::*;
use vstd::relations::injective_on;
use vstd::set_lib::{lemma_int_range, lemma_len_subset, lemma_map_size, set_int_range};
use crate::error::Error;
use crate::schema::{PropertyView, SchemaRefView};
use crate::settings::CollisionPolicy;
use crate::shape::{FieldView, ShapeView};
use crate::text::{decimal, lemma_decimal_injective};

verus! {

/// The mathematical value of one registry entry.
pub struct EntryView {
    /// The stable name under which the schema is referred to.
    pub name: Seq<char>,
    /// The object shape that was registered under the name.
    pub source: ShapeView,
    /// The members of the schema, every object among them a reference.
    pub properties: Seq<PropertyView>,
    /// Whether the name is only reserved: the shape's members are still
    /// being registered.
    pub reserved: bool,
}

/// Some entry has the name `n`.
pub open spec fn name_used(es: Seq<EntryView>, n: Seq<char>) -> bool {
    exists|i: int| 0 <= i < es.len() && (#[trigger] es[i]).name == n
}

/// Some entry was registered from the shape `s`.
pub open spec fn has_source(es: Seq<EntryView>, s: ShapeView) -> bool {
    exists|i: int| 0 <= i < es.len() && (#[trigger] es[i]).source == s
}

/// The position of an entry that was registered from the shape `s`.
pub open spec fn source_index(es: Seq<EntryView>, s: ShapeView) -> int {
    choose|i: int| 0 <= i < es.len() && (#[trigger] es[i]).source == s
}

/// The type name that an object shape asks for.
pub open spec fn candidate(s: ShapeView) -> Seq<char> {
    match s {
        ShapeView::Object { name, fields } => name,
        _ => Seq::empty(),
    }
}

/// The entry is the reserved name of an object whose type name is `n`.
pub open spec fn is_pending(e: EntryView, n: Seq<char>) -> bool {
    e.reserved && e.source is Object && candidate(e.source) == n
}

/// Some object with the type name `n` is being registered.
pub open spec fn has_pending(es: Seq<EntryView>, n: Seq<char>) -> bool {
    exists|i: int| 0 <= i < es.len() && is_pending(#[trigger] es[i], n)
}

/// Position `i` holds the innermost object being registered whose type name is `n`.
pub open spec fn is_last_pending(es: Seq<EntryView>, n: Seq<char>, i: int) -> bool {
    &&& 0 <= i < es.len()
    &&& is_pending(es[i], n)
    &&& forall|j: int| i < j < es.len() ==> !is_pending(#[trigger] es[j], n)
}

/// The name that a reference to `n` stands for: the reserved name of the
/// innermost object being registered with that type name, else `n` itself
/// if an entry has it, else nothing.
pub open spec fn resolve_reference(es: Seq<EntryView>, n: Seq<char>) -> Option<Seq<char>> {
    if has_pending(es, n) {
        Some(es[choose|i: int| is_last_pending(es, n, i)].name)
    } else if name_used(es, n) {
        Some(n)
    } else {
        None
    }
}

/// The name `base` with the numeric suffix `k`.
pub open spec fn mangled(base: Seq<char>, k: nat) -> Seq<char> {
    base + seq!['_'] + decimal(k)
}

/// `k` is the least suffix, from 2 on, that makes `base` an unused name.
pub open spec fn is_free_suffix(es: Seq<EntryView>, base: Seq<char>, k: nat) -> bool {
    &&& k >= 2
    &&& !name_used(es, mangled(base, k))
    &&& forall|j: nat| 2 <= j < k ==> name_used(es, #[trigger] mangled(base, j))
}

/// The least suffix, from 2 on, that makes `base` an unused name.
pub open spec fn free_suffix(es: Seq<EntryView>, base: Seq<char>) -> nat {
    choose|k: nat| is_free_suffix(es, base, k)
}

/// The name given to a new object shape that asks for `base`: `base` when
/// it is unused; else nothing under the failing policy, and `base` with
/// the least free suffix under the mangling policy.
pub open spec fn assigned_name(es: Seq<EntryView>, base: Seq<char>, policy: CollisionPolicy) -> Option<
    Seq<char>,
> {
    if !name_used(es, base) {
        Some(base)
    } else {
        match policy {
            CollisionPolicy::Fail => None,
            CollisionPolicy::Mangle => Some(mangled(base, free_suffix(es, base))),
        }
    }
}

/// The entries with one more at the end: `name` reserved for the shape `source`.
pub open spec fn reserve(es: Seq<EntryView>, name: Seq<char>, source: ShapeView) -> Seq<EntryView> {
    es.push(EntryView { name, source, properties: Seq::empty(), reserved: true })
}

/// The entries with the one at `idx` completed by its members.
pub open spec fn settle(es: Seq<EntryView>, idx: int, properties: Seq<PropertyView>) -> Seq<
    EntryView,
> {
    es.update(
        idx,
        EntryView { name: es[idx].name, source: es[idx].source, properties, reserved: false },
    )
}

/// What registering the shape `s` gives: the grown entries and the schema
/// that stands for `s`, or the error that stops it.
///
/// A scalar stands for itself and an array for the array of what its items
/// give. A reference gives the name it resolves to. An object that an entry
/// was registered from gives that entry's name. Any other object is
/// assigned a name, which is reserved at the end of the entries; then its
/// fields are registered in order; then the reserved entry is completed.
pub open spec fn reg_shape(es: Seq<EntryView>, s: ShapeView, policy: CollisionPolicy) -> Result<
    (Seq<EntryView>, SchemaRefView),
    Error,
>
    decreases s, 0nat,
{
    match s {
        ShapeView::Primitive(p) => Ok((es, SchemaRefView::Primitive(p))),
        ShapeView::Array(inner) => match reg_shape(es, *inner, policy) {
            Ok((es1, r)) => Ok((es1, SchemaRefView::Array(Box::new(r)))),
            Err(e) => Err(e),
        },
        ShapeView::Reference(n) => match resolve_reference(es, n) {
            Some(t) => Ok((es, SchemaRefView::Named(t))),
            None => Err(Error::UnresolvedReference),
        },
        ShapeView::Object { name, fields } => if has_source(es, s) {
            Ok((es, SchemaRefView::Named(es[source_index(es, s)].name)))
        } else {
            match assigned_name(es, name, policy) {
                None => Err(Error::NamingCollision),
                Some(stable) => match reg_fields(
                    reserve(es, stable, s),
                    fields,
                    fields.len(),
                    policy,
                ) {
                    Ok((es1, props)) => Ok(
                        (settle(es1, es.len() as int, props), SchemaRefView::Named(stable)),
                    ),
                    Err(e) => Err(e),
                },
            }
        },
    }
}

/// What registering the first `n` of the fields gives, in order: the grown
/// entries and the members that stand for those fields.
pub open spec fn reg_fields(
    es: Seq<EntryView>,
    fields: Seq<FieldView>,
    n: nat,
    policy: CollisionPolicy,
) -> Result<(Seq<EntryView>, Seq<PropertyView>), Error>
    decreases fields, n,
{
    if n == 0 || n > fields.len() {
        Ok((es, Seq::empty()))
    } else {
        match reg_fields(es, fields, (n - 1) as nat, policy) {
            Err(e) => Err(e),
            Ok((es1, props)) => match reg_shape(es1, fields[n - 1].shape, policy) {
                Err(e) => Err(e),
                Ok((es2, r)) => Ok(
                    (
                        es2,
                        props.push(
                            PropertyView {
                                name: fields[n - 1].name,
                                schema: r,
                                required: fields[n - 1].required,
                            },
                        ),
                    ),
                ),
            },
        }
    }
}

/// What one registration does as a whole: on success the grown entries
/// and the schema; on failure the entries as they were and the error.
pub open spec fn register_spec(es: Seq<EntryView>, s: ShapeView, policy: CollisionPolicy) -> (
    Seq<EntryView>,
    Result<SchemaRefView, Error>,
) {
    match reg_shape(es, s, policy) {
        Ok((es1, r)) => (es1, Ok(r)),
        Err(e) => (es, Err(e)),
    }
}

/// Every name that the schema refers to is the name of an entry.
pub open spec fn ref_resolves(es: Seq<EntryView>, r: SchemaRefView) -> bool
    decreases r,
{
    match r {
        SchemaRefView::Primitive(_) => true,
        SchemaRefView::Array(inner) => ref_resolves(es, *inner),
        SchemaRefView::Named(n) => name_used(es, n),
    }
}

/// Every member of the entry refers only to names of entries.
pub open spec fn entry_closed(es: Seq<EntryView>, e: EntryView) -> bool {
    forall|k: int| 0 <= k < e.properties.len() ==> ref_resolves(es, #[trigger] e.properties[k].schema)
}

/// No two entries share a name.
pub open spec fn names_distinct(es: Seq<EntryView>) -> bool {
    forall|i: int, j: int| 0 <= i < j < es.len() ==> (#[trigger] es[i]).name != (#[trigger] es[j]).name
}

/// No two entries were registered from the same shape.
pub open spec fn sources_distinct(es: Seq<EntryView>) -> bool {
    forall|i: int, j: int|
        0 <= i < j < es.len() ==> (#[trigger] es[i]).source != (#[trigger] es[j]).source
}

/// The invariant of the entries, also while a registration is under way:
/// names are unique, no shape has two names, every entry comes from an
/// object, no member refers to a missing name, and under the failing
/// policy every entry has the type name of its shape.
pub open spec fn consistent(es: Seq<EntryView>, policy: CollisionPolicy) -> bool {
    &&& names_distinct(es)
    &&& sources_distinct(es)
    &&& forall|i: int|
        0 <= i < es.len() ==> {
            &&& (#[trigger] es[i]).source is Object
            &&& entry_closed(es, es[i])
            &&& (policy == CollisionPolicy::Fail ==> es[i].name == candidate(es[i].source))
        }
}

/// No entry is merely reserved.
pub open spec fn settled(es: Seq<EntryView>) -> bool {
    forall|i: int| 0 <= i < es.len() ==> !(#[trigger] es[i]).reserved
}

/// `b` starts with the entries of `a`, unchanged.
pub open spec fn extends(a: Seq<EntryView>, b: Seq<EntryView>) -> bool {
    &&& a.len() <= b.len()
    &&& forall|i: int| 0 <= i < a.len() ==> #[trigger] b[i] == a[i]
}

/// The entries that `b` has beyond those of `a` are all complete.
pub open spec fn fresh_settled(a: Seq<EntryView>, b: Seq<EntryView>) -> bool {
    forall|i: int| a.len() <= i < b.len() ==> !(#[trigger] b[i]).reserved
}

/// `b` has at least the entries of `a`, under the same names.
pub open spec fn keeps_names(a: Seq<EntryView>, b: Seq<EntryView>) -> bool {
    &&& a.len() <= b.len()
    &&& forall|i: int| 0 <= i < a.len() ==> (#[trigger] b[i]).name == a[i].name
}

/// A schema that resolves keeps resolving while names are kept.
pub proof fn lemma_resolves_kept(a: Seq<EntryView>, b: Seq<EntryView>, r: SchemaRefView)
    requires
        keeps_names(a, b),
        ref_resolves(a, r),
    ensures
        ref_resolves(b, r),
    decreases r,
{
    match r {
        SchemaRefView::Primitive(_) => {},
        SchemaRefView::Array(inner) => {
            lemma_resolves_kept(a, b, *inner);
        },
        SchemaRefView::Named(n) => {
            let i = choose|i: int| 0 <= i < a.len() && (#[trigger] a[i]).name == n;
            assert(b[i].name == n);
        },
    }
}

/// A closed entry stays closed while names are kept.
pub proof fn lemma_closed_kept(a: Seq<EntryView>, b: Seq<EntryView>, e: EntryView)
    requires
        keeps_names(a, b),
        entry_closed(a, e),
    ensures
        entry_closed(b, e),
{
    assert forall|k: int| 0 <= k < e.properties.len() implies ref_resolves(
        b,
        #[trigger] e.properties[k].schema,
    ) by {
        lemma_resolves_kept(a, b, e.properties[k].schema);
    }
}

/// Different suffixes give different names.
pub proof fn lemma_mangled_injective(base: Seq<char>, a: nat, b: nat)
    requires
        mangled(base, a) == mangled(base, b),
    ensures
        a == b,
{
    let ma = mangled(base, a);
    let mb = mangled(base, b);
    assert(decimal(a) =~= ma.subrange(base.len() as int + 1, ma.len() as int));
    assert(decimal(b) =~= mb.subrange(base.len() as int + 1, mb.len() as int));
    lemma_decimal_injective(a, b);
}

/// If every suffix from 2 up to `k` is taken, there are at least `k - 2` entries.
pub proof fn lemma_suffix_bound(es: Seq<EntryView>, base: Seq<char>, k: nat)
    requires
        k >= 2,
        forall|j: nat| 2 <= j < k ==> name_used(es, #[trigger] mangled(base, j)),
    ensures
        k - 2 <= es.len(),
{
    let names = es.map_values(|e: EntryView| e.name);
    let all = names.to_set();
    vstd::seq_lib::seq_to_set_is_finite(names);
    names.lemma_cardinality_of_set();
    let dom = set_int_range(2, k as int);
    lemma_int_range(2, k as int);
    let f = |j: int| mangled(base, j as nat);
    assert(injective_on(f, dom)) by {
        assert forall|x: int, y: int|
            dom.contains(x) && dom.contains(y) && #[trigger] f(x) == #[trigger] f(y) implies x
            == y by {
            lemma_mangled_injective(base, x as nat, y as nat);
        }
    }
    let taken = dom.map(f);
    lemma_map_size(dom, taken, f);
    assert(taken.subset_of(all)) by {
        assert forall|t: Seq<char>| taken.contains(t) implies all.contains(t) by {
            let j = choose|j: int| dom.contains(j) && t == f(j);
            assert(name_used(es, mangled(base, j as nat)));
            let i = choose|i: int| 0 <= i < es.len() && (#[trigger] es[i]).name == t;
            assert(names[i] == t);
        }
    }
    lemma_len_subset(taken, all);
}

proof fn lemma_free_suffix_from(es: Seq<EntryView>, base: Seq<char>, k: nat)
    requires
        k >= 2,
        forall|j: nat| 2 <= j < k ==> name_used(es, #[trigger] mangled(base, j)),
    ensures
        exists|m: nat| is_free_suffix(es, base, m),
    decreases es.len() + 2 - k,
{
    lemma_suffix_bound(es, base, k);
    if !name_used(es, mangled(base, k)) {
        assert(is_free_suffix(es, base, k));
    } else {
        lemma_suffix_bound(es, base, k + 1);
        lemma_free_suffix_from(es, base, k + 1);
    }
}

/// Some suffix is free, so `free_suffix` names the least one.
pub proof fn lemma_free_suffix(es: Seq<EntryView>, base: Seq<char>)
    ensures
        is_free_suffix(es, base, free_suffix(es, base)),
{
    lemma_free_suffix_from(es, base, 2);
}

/// An assigned name is unused, and under the failing policy it is the
/// name that was asked for.
pub proof fn lemma_assigned_name(es: Seq<EntryView>, base: Seq<char>, policy: CollisionPolicy)
    ensures
        match assigned_name(es, base, policy) {
            Some(n) => !name_used(es, n) && (policy == CollisionPolicy::Fail ==> n == base),
            None => policy == CollisionPolicy::Fail && name_used(es, base),
        },
{
    lemma_free_suffix(es, base);
}

/// Reserving an unused name for an object that has no entry keeps the
/// entries consistent.
pub proof fn lemma_reserve(
    es: Seq<EntryView>,
    name: Seq<char>,
    source: ShapeView,
    policy: CollisionPolicy,
)
    requires
        consistent(es, policy),
        !name_used(es, name),
        !has_source(es, source),
        source is Object,
        policy == CollisionPolicy::Fail ==> name == candidate(source),
    ensures
        consistent(reserve(es, name, source), policy),
        extends(es, reserve(es, name, source)),
{
    let es1 = reserve(es, name, source);
    assert forall|i: int| 0 <= i < es1.len() implies entry_closed(es1, #[trigger] es1[i]) by {
        if i < es.len() {
            lemma_closed_kept(es, es1, es[i]);
        }
    }
}

/// Completing an entry with members that resolve keeps the entries
/// consistent.
pub proof fn lemma_settle(
    es: Seq<EntryView>,
    idx: int,
    props: Seq<PropertyView>,
    policy: CollisionPolicy,
)
    requires
        consistent(es, policy),
        0 <= idx < es.len(),
        forall|k: int| 0 <= k < props.len() ==> ref_resolves(es, #[trigger] props[k].schema),
    ensures
        consistent(settle(es, idx, props), policy),
        keeps_names(es, settle(es, idx, props)),
{
    let es1 = settle(es, idx, props);
    assert(keeps_names(es, es1));
    assert forall|i: int| 0 <= i < es1.len() implies entry_closed(es1, #[trigger] es1[i]) by {
        if i == idx {
            assert forall|k: int| 0 <= k < props.len() implies ref_resolves(
                es1,
                #[trigger] props[k].schema,
            ) by {
                lemma_resolves_kept(es, es1, props[k].schema);
            }
        } else {
            lemma_closed_kept(es, es1, es[i]);
        }
    }
    assert forall|i: int, j: int| 0 <= i < j < es1.len() implies (#[trigger] es1[i]).name != (
    #[trigger] es1[j]).name by {
        assert(es1[i].name == es[i].name);
        assert(es1[j].name == es[j].name);
    }
    assert forall|i: int, j: int| 0 <= i < j < es1.len() implies (#[trigger] es1[i]).source != (
    #[trigger] es1[j]).source by {
        assert(es1[i].source == es[i].source);
        assert(es1[j].source == es[j].source);
    }
}

/// What a successful registration of a shape guarantees, and which errors
/// an unsuccessful one can give.
pub proof fn lemma_reg_shape(es: Seq<EntryView>, s: ShapeView, policy: CollisionPolicy)
    requires
        consistent(es, policy),
    ensures
        match reg_shape(es, s, policy) {
            Ok((es1, r)) => {
                &&& consistent(es1, policy)
                &&& extends(es, es1)
                &&& fresh_settled(es, es1)
                &&& ref_resolves(es1, r)
                &&& (s is Object ==> has_source(es1, s) && r == SchemaRefView::Named(
                    es1[source_index(es1, s)].name,
                ))
                &&& (s is Object && !has_source(es, s) ==> es1.len() > es.len() && es1[es.len() as int].source == s)
            },
            Err(e) => e == Error::UnresolvedReference || (e == Error::NamingCollision && policy
                == CollisionPolicy::Fail),
        },
    decreases s, 0nat,
{
    match s {
        ShapeView::Primitive(p) => {},
        ShapeView::Array(inner) => {
            lemma_reg_shape(es, *inner, policy);
        },
        ShapeView::Reference(n) => {
            if has_pending(es, n) {
                let w = choose|i: int| 0 <= i < es.len() && is_pending(#[trigger] es[i], n);
                lemma_last_pending(es, n, es.len() as int);
                let i = choose|i: int| is_last_pending(es, n, i);
                assert(es[i].name == es[i].name);
            }
        },
        ShapeView::Object { name, fields } => {
            if has_source(es, s) {
                let i = source_index(es, s);
                assert(es[i].name == es[i].name);
            } else {
                lemma_assigned_name(es, name, policy);
                match assigned_name(es, name, policy) {
                    None => {},
                    Some(stable) => {
                        let idx = es.len() as int;
                        let es0 = reserve(es, stable, s);
                        lemma_reserve(es, stable, s, policy);
                        lemma_reg_fields(es0, fields, fields.len(), policy);
                        match reg_fields(es0, fields, fields.len(), policy) {
                            Err(e) => {},
                            Ok((es1, props)) => {
                                let es2 = settle(es1, idx, props);
                                lemma_settle(es1, idx, props, policy);
                                assert(es1[idx] == es0[idx]);
                                assert(es2[idx].source == s);
                                assert(es2[idx].name == stable);
                                assert(extends(es, es2)) by {
                                    assert forall|i: int| 0 <= i < es.len() implies #[trigger] es2[i]
                                        == es[i] by {
                                        assert(es1[i] == es0[i]);
                                    }
                                }
                                assert(fresh_settled(es, es2)) by {
                                    assert forall|i: int| es.len() <= i < es2.len() implies !(
                                    #[trigger] es2[i]).reserved by {
                                        if i > idx {
                                            assert(!es1[i].reserved);
                                        }
                                    }
                                }
                                assert(has_source(es2, s));
                                let j = source_index(es2, s);
                                assert(j == idx) by {
                                    if j < idx {
                                        assert(es2[j].source != es2[idx].source);
                                    } else if idx < j {
                                        assert(es2[idx].source != es2[j].source);
                                    }
                                }
                                assert(name_used(es2, stable));
                            },
                        }
                    },
                }
            }
        },
    }
}

/// If some object with the type name `n` is pending before position
/// `bound`, one of them is the last.
proof fn lemma_last_pending(es: Seq<EntryView>, n: Seq<char>, bound: int)
    requires
        0 <= bound <= es.len(),
        exists|i: int| 0 <= i < bound && is_pending(#[trigger] es[i], n),
        forall|j: int| bound <= j < es.len() ==> !is_pending(#[trigger] es[j], n),
    ensures
        exists|i: int| is_last_pending(es, n, i),
    decreases bound,
{
    if is_pending(es[bound - 1], n) {
        assert(is_last_pending(es, n, bound - 1));
    } else {
        lemma_last_pending(es, n, bound - 1);
    }
}

/// What a successful registration of fields guarantees, and which errors
/// an unsuccessful one can give.
pub proof fn lemma_reg_fields(
    es: Seq<EntryView>,
    fields: Seq<FieldView>,
    n: nat,
    policy: CollisionPolicy,
)
    requires
        consistent(es, policy),
        n <= fields.len(),
    ensures
        match reg_fields(es, fields, n, policy) {
            Ok((es1, props)) => {
                &&& consistent(es1, policy)
                &&& extends(es, es1)
                &&& fresh_settled(es, es1)
                &&& props.len() == n
                &&& forall|k: int| 0 <= k < n ==> ref_resolves(es1, #[trigger] props[k].schema)
            },
            Err(e) => e == Error::UnresolvedReference || (e == Error::NamingCollision && policy
                == CollisionPolicy::Fail),
        },
    decreases fields, n,
{
    if n > 0 {
        lemma_reg_fields(es, fields, (n - 1) as nat, policy);
        match reg_fields(es, fields, (n - 1) as nat, policy) {
            Err(e) => {},
            Ok((es1, props)) => {
                lemma_reg_shape(es1, fields[n - 1].shape, policy);
                match reg_shape(es1, fields[n - 1].shape, policy) {
                    Err(e) => {},
                    Ok((es2, r)) => {
                        let out = props.push(
                            PropertyView {
                                name: fields[n - 1].name,
                                schema: r,
                                required: fields[n - 1].required,
                            },
                        );
                        assert forall|k: int| 0 <= k < n implies ref_resolves(
                            es2,
                            #[trigger] out[k].schema,
                        ) by {
                            if k < n - 1 {
                                lemma_resolves_kept(es1, es2, props[k].schema);
                            }
                        }
                        assert(extends(es, es2)) by {
                            assert forall|i: int| 0 <= i < es.len() implies #[trigger] es2[i]
                                == es[i] by {
                                assert(es1[i] == es[i]);
                            }
                        }
                        assert(fresh_settled(es, es2)) by {
                            assert forall|i: int| es.len() <= i < es2.len() implies !(
                            #[trigger] es2[i]).reserved by {
                                if i < es1.len() {
                                    assert(es2[i] == es1[i]);
                                }
                            }
                        }
                    },
                }
            },
        }
    }
}

/// Once registering the first `n` fields has failed, registering more of
/// them fails in the same way.
pub proof fn lemma_reg_fields_sticky(
    es: Seq<EntryView>,
    fields: Seq<FieldView>,
    n: nat,
    m: nat,
    policy: CollisionPolicy,
)
    requires
        n <= m <= fields.len(),
        reg_fields(es, fields, n, policy) is Err,
    ensures
        reg_fields(es, fields, m, policy) == reg_fields(es, fields, n, policy),
    decreases m,
{
    if n < m {
        lemma_reg_fields_sticky(es, fields, n, (m - 1) as nat, policy);
    }
}

} // verus!
