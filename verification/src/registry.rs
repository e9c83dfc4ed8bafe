//! The schema registry: it gives every distinct object shape one stable
//! name and turns shapes into schemas that refer to those names.

use vstd::prelude::*;
use crate::error::Error;
use crate::model::{
    EntryView, assigned_name, candidate, consistent, extends, free_suffix, has_pending, has_source,
    is_free_suffix, is_last_pending, is_pending, lemma_free_suffix, lemma_reg_fields_sticky,
    lemma_reg_shape, lemma_reserve, lemma_suffix_bound, mangled, name_used,
    ref_resolves, reg_fields, reg_shape, register_spec, reserve, settle, settled,
    source_index, lemma_assigned_name,
};
use crate::schema::{Property, SchemaRef, SchemaRefView, property_views};
use crate::settings::{CollisionPolicy, Settings, SettingsView};
use crate::shape::TypeShape;
use crate::text::{append_decimal, optional_text};

verus! {

/// One registered schema.
#[derive(Clone, Debug, PartialEq, Eq)]
pub struct Entry {
    /// The stable name under which the schema is referred to.
    pub name: String,
    /// The object shape that was registered under the name.
    pub source: TypeShape,
    /// The members of the schema, every object among them a reference.
    pub properties: Vec<Property>,
    /// Whether the name is only reserved. Outside a registration no entry
    /// is.
    pub reserved: bool,
}

impl View for Entry {
    type V = EntryView;

    open spec fn view(&self) -> EntryView {
        EntryView {
            name: self.name@,
            source: self.source@,
            properties: property_views(self.properties@),
            reserved: self.reserved,
        }
    }
}

impl Entry {
    /// A deep copy of this entry.
    pub fn duplicate(&self) -> (out: Entry)
        ensures
            out@ == self@,
    {
        let mut properties: Vec<Property> = Vec::new();
        let mut i: usize = 0;
        while i < self.properties.len()
            invariant
                i <= self.properties.len(),
                properties.len() == i,
                forall|k: int| 0 <= k < i ==> properties[k]@ == self.properties[k]@,
            decreases self.properties.len() - i,
        {
            let p = &self.properties[i];
            properties.push(
                Property { name: p.name.clone(), schema: p.schema.duplicate(), required: p.required },
            );
            i += 1;
        }
        assert(property_views(properties@) =~= property_views(self.properties@));
        Entry {
            name: self.name.clone(),
            source: self.source.duplicate(),
            properties,
            reserved: self.reserved,
        }
    }
}

/// The values of a list of entries, in order.
pub open spec fn entry_views(v: Seq<Entry>) -> Seq<EntryView> {
    v.map_values(|e: Entry| e@)
}

/// The value of the result of a registration.
pub open spec fn schema_result(out: Result<SchemaRef, Error>) -> Result<SchemaRefView, Error> {
    match out {
        Ok(r) => Ok(r@),
        Err(e) => Err(e),
    }
}

/// The mathematical value of a [`SchemaRegistry`].
pub struct RegistryView {
    /// The settings the registry was made with.
    pub settings: SettingsView,
    /// The entries, in the order in which their names were assigned.
    pub entries: Seq<EntryView>,
}

impl RegistryView {
    /// The invariant of a registry between registrations.
    pub open spec fn wf(self) -> bool {
        consistent(self.entries, self.settings.collision_policy) && settled(self.entries)
    }
}

/// A growing collection of named object schemas.
#[derive(Debug, PartialEq, Eq)]
pub struct SchemaRegistry {
    settings: Settings,
    entries: Vec<Entry>,
}

impl View for SchemaRegistry {
    type V = RegistryView;

    closed spec fn view(&self) -> RegistryView {
        RegistryView { settings: self.settings@, entries: entry_views(self.entries@) }
    }
}

impl Clone for SchemaRegistry {
    fn clone(&self) -> (out: SchemaRegistry)
        ensures
            out@ == self@,
    {
        proof {
            use_type_invariant(self);
        }
        let mut entries: Vec<Entry> = Vec::new();
        let mut i: usize = 0;
        while i < self.entries.len()
            invariant
                i <= self.entries.len(),
                entries.len() == i,
                forall|k: int| 0 <= k < i ==> entries[k]@ == self.entries[k]@,
            decreases self.entries.len() - i,
        {
            entries.push(self.entries[i].duplicate());
            i += 1;
        }
        assert(entry_views(entries@) =~= entry_views(self.entries@));
        SchemaRegistry {
            settings: Settings {
                collision_policy: self.settings.collision_policy,
                default_content_type: self.settings.default_content_type.clone(),
            },
            entries,
        }
    }
}

fn find_name(entries: &Vec<Entry>, name: &String) -> (out: Option<usize>)
    ensures
        match out {
            Some(i) => i < entries.len() && entry_views(entries@)[i as int].name == name@,
            None => !name_used(entry_views(entries@), name@),
        },
{
    let mut i: usize = 0;
    while i < entries.len()
        invariant
            i <= entries.len(),
            forall|k: int| 0 <= k < i ==> (#[trigger] entry_views(entries@)[k]).name != name@,
        decreases entries.len() - i,
    {
        if entries[i].name == *name {
            return Some(i);
        }
        i += 1;
    }
    None
}

fn find_source(entries: &Vec<Entry>, shape: &TypeShape) -> (out: Option<usize>)
    ensures
        match out {
            Some(i) => i < entries.len() && entry_views(entries@)[i as int].source == shape@,
            None => !has_source(entry_views(entries@), shape@),
        },
{
    let mut i: usize = 0;
    while i < entries.len()
        invariant
            i <= entries.len(),
            forall|k: int| 0 <= k < i ==> (#[trigger] entry_views(entries@)[k]).source != shape@,
        decreases entries.len() - i,
    {
        if entries[i].source.same_as(shape) {
            return Some(i);
        }
        i += 1;
    }
    None
}

fn names_object(shape: &TypeShape, name: &String) -> (out: bool)
    ensures
        out == (shape@ is Object && candidate(shape@) == name@),
{
    match shape {
        TypeShape::Object { name: own, fields } => *own == *name,
        _ => false,
    }
}

fn find_pending(entries: &Vec<Entry>, name: &String) -> (out: Option<usize>)
    ensures
        match out {
            Some(i) => is_last_pending(entry_views(entries@), name@, i as int),
            None => !has_pending(entry_views(entries@), name@),
        },
{
    let mut i: usize = entries.len();
    while i > 0
        invariant
            i <= entries.len(),
            forall|k: int| i <= k < entries.len() ==> !is_pending(#[trigger] entry_views(entries@)[k], name@),
        decreases i,
    {
        i -= 1;
        if entries[i].reserved && names_object(&entries[i].source, name) {
            assert(is_pending(entry_views(entries@)[i as int], name@));
            return Some(i);
        }
    }
    None
}

fn pick_name(entries: &Vec<Entry>, base: &String, policy: CollisionPolicy) -> (out: Option<String>)
    ensures
        optional_text(out) == assigned_name(entry_views(entries@), base@, policy),
{
    let ghost es = entry_views(entries@);
    if find_name(entries, base).is_none() {
        return Some(base.clone());
    }
    match policy {
        CollisionPolicy::Fail => None,
        CollisionPolicy::Mangle => {
            let mut k: u128 = 2;
            proof {
                lemma_suffix_bound(es, base@, 2);
            }
            loop
                invariant
                    es == entry_views(entries@),
                    policy == CollisionPolicy::Mangle,
                    name_used(es, base@),
                    2 <= k,
                    k - 2 <= entries.len(),
                    forall|j: nat| 2 <= j < k ==> name_used(es, #[trigger] mangled(base@, j)),
                decreases entries.len() + 2 - k,
            {
                let mut name = base.clone();
                name.append("_");
                append_decimal(&mut name, k);
                proof {
                    reveal_strlit("_");
                    assert(name@ =~= mangled(base@, k as nat));
                }
                if find_name(entries, &name).is_none() {
                    proof {
                        assert(is_free_suffix(es, base@, k as nat));
                        lemma_free_suffix(es, base@);
                        let m = free_suffix(es, base@);
                        if m < k {
                            assert(name_used(es, mangled(base@, m)));
                        } else if k < m {
                            assert(name_used(es, mangled(base@, k as nat)));
                        }
                    }
                    return Some(name);
                }
                proof {
                    lemma_suffix_bound(es, base@, (k + 1) as nat);
                }
                k = k + 1;
            }
        },
    }
}

#[verifier::loop_isolation(false)]
fn register_shape(entries: &mut Vec<Entry>, policy: CollisionPolicy, shape: &TypeShape) -> (out:
    Result<SchemaRef, Error>)
    requires
        consistent(entry_views(old(entries)@), policy),
    ensures
        match reg_shape(entry_views(old(entries)@), shape@, policy) {
            Ok((es1, r)) => schema_result(out) == Ok::<SchemaRefView, Error>(r) && entry_views(
                final(entries)@,
            ) == es1,
            Err(e) => out == Err::<SchemaRef, Error>(e) && extends(
                entry_views(old(entries)@),
                entry_views(final(entries)@),
            ),
        },
    decreases shape,
{
    let ghost es = entry_views(entries@);
    match shape {
        TypeShape::Primitive(p) => Ok(SchemaRef::Primitive(*p)),
        TypeShape::Array(inner) => match register_shape(entries, policy, inner) {
            Ok(r) => Ok(SchemaRef::Array(Box::new(r))),
            Err(e) => Err(e),
        },
        TypeShape::Reference(n) => match find_pending(entries, n) {
            Some(i) => {
                proof {
                    let j = choose|j: int| is_last_pending(es, n@, j);
                    assert(is_last_pending(es, n@, i as int));
                    assert(is_pending(es[i as int], n@));
                    assert(j == i) by {
                        if j < i {
                            assert(!is_pending(es[i as int], n@));
                        } else if i < j {
                            assert(!is_pending(es[j], n@));
                        }
                    }
                }
                Ok(SchemaRef::Named(entries[i].name.clone()))
            },
            None => match find_name(entries, n) {
                Some(_) => Ok(SchemaRef::Named(n.clone())),
                None => Err(Error::UnresolvedReference),
            },
        },
        TypeShape::Object { name, fields } => {
            match find_source(entries, shape) {
                Some(i) => {
                    proof {
                        assert(es[i as int].source == shape@);
                        let j = source_index(es, shape@);
                        if j < i {
                            assert(es[j].source != es[i as int].source);
                        } else if i < j {
                            assert(es[i as int].source != es[j].source);
                        }
                    }
                    Ok(SchemaRef::Named(entries[i].name.clone()))
                },
                None => {
                    match pick_name(entries, name, policy) {
                        None => Err(Error::NamingCollision),
                        Some(stable) => {
                            let idx = entries.len();
                            let ghost fs = shape@->fields;
                            let ghost es0 = reserve(es, stable@, shape@);
                            let entry = Entry {
                                name: stable.clone(),
                                source: shape.duplicate(),
                                properties: Vec::new(),
                                reserved: true,
                            };
                            assert(entry@.properties =~= Seq::empty());
                            entries.push(entry);
                            proof {
                                assert(entry_views(entries@) =~= es0);
                                lemma_assigned_name(es, name@, policy);
                                lemma_reserve(es, stable@, shape@, policy);
                            }
                            let mut props: Vec<Property> = Vec::new();
                            let mut i: usize = 0;
                            while i < fields.len()
                                invariant
                                    i <= fields.len(),
                                    props.len() == i,
                                    fs.len() == fields.len(),
                                    reg_fields(es0, fs, i as nat, policy) == Ok::<
                                        (Seq<EntryView>, Seq<crate::schema::PropertyView>),
                                        Error,
                                    >((entry_views(entries@), property_views(props@))),
                                    consistent(entry_views(entries@), policy),
                                    extends(es0, entry_views(entries@)),
                                decreases fields.len() - i,
                            {
                                let ghost cur = entry_views(entries@);
                                let ghost cur_props = property_views(props@);
                                let field = &fields[i];
                                assert(fs[i as int] == field@);
                                proof {
                                    lemma_reg_shape(cur, field@.shape, policy);
                                }
                                match register_shape(entries, policy, &field.shape) {
                                    Err(e) => {
                                        proof {
                                            assert(reg_fields(es0, fs, (i + 1) as nat, policy) is Err);
                                            lemma_reg_fields_sticky(
                                                es0,
                                                fs,
                                                (i + 1) as nat,
                                                fs.len(),
                                                policy,
                                            );
                                            let now = entry_views(entries@);
                                            assert forall|k: int| 0 <= k < es.len() implies #[trigger] now[k]
                                                == es[k] by {
                                                assert(cur[k] == es0[k]);
                                            }
                                        }
                                        return Err(e);
                                    },
                                    Ok(r) => {
                                        props.push(
                                            Property {
                                                name: field.name.clone(),
                                                schema: r,
                                                required: field.required,
                                            },
                                        );
                                    },
                                }
                                proof {
                                    let now = entry_views(entries@);
                                    assert(property_views(props@) =~= cur_props.push(
                                        crate::schema::PropertyView {
                                            name: field@.name,
                                            schema: props[i as int]@.schema,
                                            required: field@.required,
                                        },
                                    ));
                                    assert forall|k: int| 0 <= k < es0.len() implies #[trigger] now[k]
                                        == es0[k] by {
                                        assert(cur[k] == es0[k]);
                                    }
                                }
                                i += 1;
                            }
                            let ghost es1 = entry_views(entries@);
                            let ghost pv = property_views(props@);
                            entries[idx].properties = props;
                            entries[idx].reserved = false;
                            proof {
                                assert(es1[idx as int] == es0[idx as int]);
                                assert(entry_views(entries@) =~= settle(es1, idx as int, pv));
                            }
                            Ok(SchemaRef::Named(stable))
                        },
                    }
                },
            }
        },
    }
}

impl SchemaRegistry {
    /// What holds of every registry at all times outside a registration:
    /// its entries are consistent and none is merely reserved.
    #[verifier::type_invariant]
    pub closed spec fn valid(self) -> bool {
        consistent(entry_views(self.entries@), self.settings.collision_policy) && settled(
            entry_views(self.entries@),
        )
    }

    /// A valid registry has a well-formed value.
    pub proof fn lemma_valid(self)
        requires
            self.valid(),
        ensures
            self@.wf(),
    {
    }

    /// An empty registry with the given settings.
    pub fn new(settings: Settings) -> (out: SchemaRegistry)
        ensures
            out@.settings == settings@,
            out@.entries == Seq::<EntryView>::empty(),
            out@.wf(),
    {
        let out = SchemaRegistry { settings, entries: Vec::new() };
        assert(out@.entries =~= Seq::<EntryView>::empty());
        out
    }

    /// The settings the registry was made with.
    pub fn settings(&self) -> (out: &Settings)
        ensures
            out@ == self@.settings,
            self@.wf(),
    {
        proof {
            use_type_invariant(self);
        }
        &self.settings
    }

    /// The number of entries.
    pub fn len(&self) -> (out: usize)
        ensures
            out == self@.entries.len(),
            self@.wf(),
    {
        proof {
            use_type_invariant(self);
        }
        self.entries.len()
    }

    /// Whether the registry has no entry.
    pub fn is_empty(&self) -> (out: bool)
        ensures
            out == (self@.entries.len() == 0),
    {
        self.entries.len() == 0
    }

    /// The entries, in the order in which their names were assigned.
    pub fn entries(&self) -> (out: &Vec<Entry>)
        ensures
            entry_views(out@) == self@.entries,
            self@.wf(),
    {
        proof {
            use_type_invariant(self);
        }
        &self.entries
    }

    /// The position of the entry with the given name, if there is one.
    pub fn position(&self, name: &str) -> (out: Option<usize>)
        ensures
            match out {
                Some(i) => i < self@.entries.len() && self@.entries[i as int].name == name@,
                None => !name_used(self@.entries, name@),
            },
    {
        let owned = name.to_owned();
        find_name(&self.entries, &owned)
    }

    /// Whether every name that the schema refers to is the name of an entry.
    pub fn resolves(&self, schema: &SchemaRef) -> (out: bool)
        ensures
            out == ref_resolves(self@.entries, schema@),
        decreases schema,
    {
        match schema {
            SchemaRef::Primitive(_) => true,
            SchemaRef::Array(inner) => self.resolves(inner),
            SchemaRef::Named(name) => match find_name(&self.entries, name) {
                Some(i) => {
                    true
                },
                None => false,
            },
        }
    }

    /// Registers a shape and returns the schema that stands for it.
    ///
    /// Objects that an entry was registered from are not registered again.
    /// On an error the registry is left as it was.
    pub fn register(&mut self, shape: &TypeShape) -> (out: Result<SchemaRef, Error>)
        ensures
            old(self)@.wf(),
            final(self)@.wf(),
            final(self)@.settings == old(self)@.settings,
            (final(self)@.entries, schema_result(out)) == register_spec(
                old(self)@.entries,
                shape@,
                old(self)@.settings.collision_policy,
            ),
            extends(old(self)@.entries, final(self)@.entries),
            out matches Ok(r) ==> ref_resolves(final(self)@.entries, r@),
            out matches Err(e) ==> e == Error::UnresolvedReference || (e == Error::NamingCollision
                && old(self)@.settings.collision_policy == CollisionPolicy::Fail),
    {
        proof {
            use_type_invariant(&*self);
        }
        let start = self.entries.len();
        let policy = self.settings.collision_policy;
        let ghost es = entry_views(self.entries@);
        proof {
            lemma_reg_shape(es, shape@, policy);
        }
        let mut entries: Vec<Entry> = Vec::new();
        assert(entry_views(entries@) =~= Seq::<EntryView>::empty());
        core::mem::swap(&mut self.entries, &mut entries);
        let out = register_shape(&mut entries, policy, shape);
        if out.is_err() {
            let ghost grown = entry_views(entries@);
            entries.truncate(start);
            assert(entry_views(entries@) =~= es) by {
                assert forall|k: int| 0 <= k < es.len() implies entry_views(entries@)[k]
                    == es[k] by {
                    assert(grown[k] == es[k]);
                }
            }
        }
        self.entries = entries;
        out
    }

    /// Drops every entry from position `len` on, where what stays is a
    /// state that the registry was in before.
    pub(crate) fn truncate(&mut self, len: usize)
        requires
            len <= old(self)@.entries.len(),
            (RegistryView {
                settings: old(self)@.settings,
                entries: old(self)@.entries.take(len as int),
            }).wf(),
        ensures
            final(self)@.settings == old(self)@.settings,
            final(self)@.entries == old(self)@.entries.take(len as int),
    {
        let ghost before = entry_views(self.entries@);
        let mut entries: Vec<Entry> = Vec::new();
        assert(entry_views(entries@) =~= Seq::<EntryView>::empty());
        core::mem::swap(&mut self.entries, &mut entries);
        entries.truncate(len);
        assert(entry_views(entries@) =~= before.take(len as int));
        self.entries = entries;
    }
}

} // verus!
