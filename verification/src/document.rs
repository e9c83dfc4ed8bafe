//! The document assembler: it orders the visible operations, rejects
//! duplicate routes and joins them with the registry and the metadata.

use vstd::prelude::*;
use crate::builder::{build, build_spec, lemma_build, lemma_extends_chain, operation_closed};
use crate::error::Error;
use crate::model::{EntryView, consistent, extends, lemma_resolves_kept, settled};
use crate::operation::{
    Method, OperationDescriptor, OperationDescriptorView, OperationInfo, OperationInfoView,
    method_rank, views,
};
use crate::path::{normalize_path, normalized};
use crate::registry::{RegistryView, SchemaRegistry};
use crate::settings::{Metadata, MetadataView, Settings, SettingsView};
use crate::text::{
    Position, chars_of, lemma_lex_lt_asymmetric, lemma_lex_lt_transitive, lemma_lex_total, lex_lt,
    lex_position,
};

verus! {

/// What identifies a route: its normalized path and its method.
pub struct RouteKey {
    pub path: Seq<char>,
    pub method: Method,
}

/// The key of an operation.
pub open spec fn route_key(op: OperationInfoView) -> RouteKey {
    RouteKey { path: normalized(op.path), method: op.method }
}

/// The order of routes in a document: by normalized path, then by method.
pub open spec fn key_lt(a: RouteKey, b: RouteKey) -> bool {
    lex_lt(a.path, b.path) || (a.path == b.path && method_rank(a.method) < method_rank(b.method))
}

/// Of two keys at most one comes before the other, and then they differ.
pub proof fn lemma_key_lt_asymmetric(a: RouteKey, b: RouteKey)
    requires
        key_lt(a, b),
    ensures
        !key_lt(b, a),
        a != b,
{
    if lex_lt(a.path, b.path) {
        lemma_lex_lt_asymmetric(a.path, b.path);
    }
    if lex_lt(b.path, a.path) {
        lemma_lex_lt_asymmetric(b.path, a.path);
    }
}

/// The order of keys is transitive.
pub proof fn lemma_key_lt_transitive(a: RouteKey, b: RouteKey, c: RouteKey)
    requires
        key_lt(a, b),
        key_lt(b, c),
    ensures
        key_lt(a, c),
{
    if lex_lt(a.path, b.path) && lex_lt(b.path, c.path) {
        lemma_lex_lt_transitive(a.path, b.path, c.path);
    }
}

/// Two keys are equal or one comes before the other.
pub proof fn lemma_key_total(a: RouteKey, b: RouteKey)
    ensures
        key_lt(a, b) || a == b || key_lt(b, a),
{
    lemma_lex_total(a.path, b.path);
}

/// The operations are in strictly increasing order of their keys.
pub open spec fn sorted(ops: Seq<OperationInfoView>) -> bool {
    forall|i: int, j: int|
        0 <= i < j < ops.len() ==> key_lt(route_key(#[trigger] ops[i]), route_key(#[trigger] ops[j]))
}

/// Some operation has the key `k`.
pub open spec fn has_key(ops: Seq<OperationInfoView>, k: RouteKey) -> bool {
    exists|i: int| 0 <= i < ops.len() && route_key(#[trigger] ops[i]) == k
}

/// Position `p` is where an operation with the key `k` belongs: what is
/// before it comes before `k`, what is from it on comes after.
pub open spec fn is_slot(ops: Seq<OperationInfoView>, k: RouteKey, p: int) -> bool {
    &&& 0 <= p <= ops.len()
    &&& forall|i: int| 0 <= i < p ==> key_lt(route_key(#[trigger] ops[i]), k)
    &&& forall|i: int| p <= i < ops.len() ==> key_lt(k, route_key(#[trigger] ops[i]))
}

/// The position where an operation with the key `k` belongs.
pub open spec fn slot(ops: Seq<OperationInfoView>, k: RouteKey) -> int {
    choose|p: int| is_slot(ops, k, p)
}

/// The operations of a document: the visible ones among `ops`, in the
/// order of their keys; nothing if two visible ones have the same key.
pub open spec fn arrange(ops: Seq<OperationInfoView>) -> Option<Seq<OperationInfoView>>
    decreases ops.len(),
{
    if ops.len() == 0 {
        Some(Seq::empty())
    } else {
        match arrange(ops.drop_first()) {
            None => None,
            Some(rest) => if ops[0].hidden {
                Some(rest)
            } else if has_key(rest, route_key(ops[0])) {
                None
            } else {
                Some(rest.insert(slot(rest, route_key(ops[0])), ops[0]))
            },
        }
    }
}

/// Two visible operations have the same normalized path and method.
pub open spec fn duplicate_routes(ops: Seq<OperationInfoView>) -> bool {
    exists|i: int, j: int|
        0 <= i < j < ops.len() && !(#[trigger] ops[i]).hidden && !(#[trigger] ops[j]).hidden
            && route_key(ops[i]) == route_key(ops[j])
}

/// No position is the slot of a key but one.
pub proof fn lemma_slot_unique(ops: Seq<OperationInfoView>, k: RouteKey, p: int, q: int)
    requires
        is_slot(ops, k, p),
        is_slot(ops, k, q),
    ensures
        p == q,
{
    if p < q {
        assert(key_lt(route_key(ops[p]), k));
        lemma_key_lt_asymmetric(route_key(ops[p]), k);
    } else if q < p {
        assert(key_lt(route_key(ops[q]), k));
        lemma_key_lt_asymmetric(route_key(ops[q]), k);
    }
}

/// In sorted operations without the key `k`, that key has a slot.
pub proof fn lemma_slot_exists(ops: Seq<OperationInfoView>, k: RouteKey)
    requires
        sorted(ops),
        !has_key(ops, k),
    ensures
        is_slot(ops, k, slot(ops, k)),
    decreases ops.len(),
{
    if ops.len() == 0 {
        assert(is_slot(ops, k, 0));
    } else {
        let front = ops.drop_last();
        let last = ops.last();
        assert forall|i: int, j: int| 0 <= i < j < front.len() implies key_lt(
            route_key(#[trigger] front[i]),
            route_key(#[trigger] front[j]),
        ) by {
            assert(front[i] == ops[i] && front[j] == ops[j]);
        }
        assert(!has_key(front, k)) by {
            if has_key(front, k) {
                let i = choose|i: int| 0 <= i < front.len() && route_key(#[trigger] front[i]) == k;
                assert(route_key(ops[i]) == k);
            }
        }
        lemma_slot_exists(front, k);
        let p = slot(front, k);
        lemma_key_total(route_key(last), k);
        assert(route_key(ops[ops.len() - 1]) != k);
        if key_lt(route_key(last), k) {
            assert forall|i: int| 0 <= i < ops.len() implies key_lt(route_key(#[trigger] ops[i]), k) by {
                if i < ops.len() - 1 {
                    assert(key_lt(route_key(ops[i]), route_key(ops[ops.len() - 1])));
                    lemma_key_lt_transitive(route_key(ops[i]), route_key(last), k);
                }
            }
            assert(is_slot(ops, k, ops.len() as int));
        } else {
            assert forall|i: int| 0 <= i < p implies key_lt(route_key(#[trigger] ops[i]), k) by {
                assert(front[i] == ops[i]);
            }
            assert forall|i: int| p <= i < ops.len() implies key_lt(k, route_key(#[trigger] ops[i])) by {
                if i < ops.len() - 1 {
                    assert(front[i] == ops[i]);
                }
            }
            assert(is_slot(ops, k, p));
        }
    }
}

/// Putting an operation into its slot keeps the order.
pub proof fn lemma_insert_sorted(ops: Seq<OperationInfoView>, op: OperationInfoView, p: int)
    requires
        sorted(ops),
        is_slot(ops, route_key(op), p),
    ensures
        sorted(ops.insert(p, op)),
{
    let out = ops.insert(p, op);
    assert forall|i: int, j: int| 0 <= i < j < out.len() implies key_lt(
        route_key(#[trigger] out[i]),
        route_key(#[trigger] out[j]),
    ) by {
        if j < p {
            assert(out[i] == ops[i] && out[j] == ops[j]);
        } else if j == p {
            assert(out[i] == ops[i]);
        } else if i < p {
            assert(out[i] == ops[i] && out[j] == ops[j - 1]);
        } else if i == p {
            assert(out[j] == ops[j - 1]);
        } else {
            assert(out[i] == ops[i - 1] && out[j] == ops[j - 1]);
        }
    }
}

/// What arranging gives: nothing exactly when two visible operations
/// have the same key; else the visible operations, each once, in
/// strictly increasing order of their keys.
pub proof fn lemma_arrange(ops: Seq<OperationInfoView>)
    ensures
        match arrange(ops) {
            None => duplicate_routes(ops),
            Some(out) => {
                &&& !duplicate_routes(ops)
                &&& sorted(out)
                &&& forall|i: int|
                    0 <= i < ops.len() && !(#[trigger] ops[i]).hidden ==> out.contains(ops[i])
                &&& forall|k: int|
                    0 <= k < out.len() ==> !(#[trigger] out[k]).hidden && ops.contains(out[k])
            },
        },
    decreases ops.len(),
{
    if ops.len() > 0 {
        let tail = ops.drop_first();
        let head = ops[0];
        lemma_arrange(tail);
        assert forall|i: int| 0 <= i < tail.len() implies #[trigger] tail[i] == ops[i + 1] by {}
        match arrange(tail) {
            None => {
                let (i, j) = choose|i: int, j: int|
                    0 <= i < j < tail.len() && !(#[trigger] tail[i]).hidden && !(
                    #[trigger] tail[j]).hidden && route_key(tail[i]) == route_key(tail[j]);
                assert(!ops[i + 1].hidden && !ops[j + 1].hidden && route_key(ops[i + 1])
                    == route_key(ops[j + 1]));
            },
            Some(rest) => {
                if head.hidden {
                    lemma_arrange_step(ops, rest, rest);
                } else if has_key(rest, route_key(head)) {
                    let k = choose|k: int|
                        0 <= k < rest.len() && route_key(#[trigger] rest[k]) == route_key(head);
                    assert(tail.contains(rest[k]));
                    let j = choose|j: int| 0 <= j < tail.len() && tail[j] == rest[k];
                    assert(!ops[0].hidden && !ops[j + 1].hidden && route_key(ops[0]) == route_key(
                        ops[j + 1],
                    ));
                } else {
                    lemma_slot_exists(rest, route_key(head));
                    let p = slot(rest, route_key(head));
                    lemma_insert_sorted(rest, head, p);
                    let out = rest.insert(p, head);
                    assert(out[p] == head);
                    assert forall|k: int| 0 <= k < rest.len() implies out.contains(
                        #[trigger] rest[k],
                    ) by {
                        if k < p {
                            assert(out[k] == rest[k]);
                        } else {
                            assert(out[k + 1] == rest[k]);
                        }
                    }
                    assert forall|k: int| 0 <= k < out.len() && k != p implies rest.contains(
                        #[trigger] out[k],
                    ) by {
                        if k < p {
                            assert(out[k] == rest[k]);
                        } else {
                            assert(out[k] == rest[k - 1]);
                        }
                    }
                    lemma_arrange_step(ops, rest, out);
                }
            },
        }
    }
}

/// The step of [`lemma_arrange`]: from what holds of the operations after
/// the first to what holds of all.
proof fn lemma_arrange_step(
    ops: Seq<OperationInfoView>,
    rest: Seq<OperationInfoView>,
    out: Seq<OperationInfoView>,
)
    requires
        ops.len() > 0,
        !duplicate_routes(ops.drop_first()),
        sorted(out),
        forall|i: int|
            0 <= i < ops.len() - 1 && !(#[trigger] ops.drop_first()[i]).hidden ==> rest.contains(
                ops.drop_first()[i],
            ),
        forall|k: int|
            0 <= k < rest.len() ==> !(#[trigger] rest[k]).hidden && ops.drop_first().contains(rest[k]),
        forall|k: int| 0 <= k < rest.len() ==> out.contains(#[trigger] rest[k]),
        ops[0].hidden ==> out == rest,
        !ops[0].hidden ==> {
            &&& !has_key(rest, route_key(ops[0]))
            &&& out.contains(ops[0])
            &&& forall|k: int|
                0 <= k < out.len() ==> #[trigger] out[k] == ops[0] || rest.contains(out[k])
        },
    ensures
        !duplicate_routes(ops),
        forall|i: int| 0 <= i < ops.len() && !(#[trigger] ops[i]).hidden ==> out.contains(ops[i]),
        forall|k: int| 0 <= k < out.len() ==> !(#[trigger] out[k]).hidden && ops.contains(out[k]),
{
    let tail = ops.drop_first();
    assert forall|i: int| 0 <= i < tail.len() implies #[trigger] tail[i] == ops[i + 1] by {}
    assert forall|i: int| 0 <= i < ops.len() && !(#[trigger] ops[i]).hidden implies out.contains(
        ops[i],
    ) by {
        if i > 0 {
            assert(tail[i - 1] == ops[i]);
            assert(rest.contains(tail[i - 1]));
            let k = choose|k: int| 0 <= k < rest.len() && rest[k] == ops[i];
            assert(out.contains(rest[k]));
        }
    }
    assert forall|k: int| 0 <= k < out.len() implies !(#[trigger] out[k]).hidden && ops.contains(
        out[k],
    ) by {
        if out[k] == ops[0] && !ops[0].hidden {
            assert(ops[0] == out[k]);
        } else {
            assert(rest.contains(out[k]));
            let r = choose|r: int| 0 <= r < rest.len() && rest[r] == out[k];
            assert(tail.contains(rest[r]));
            let t = choose|t: int| 0 <= t < tail.len() && tail[t] == rest[r];
            assert(ops[t + 1] == out[k]);
        }
    }
    if duplicate_routes(ops) {
        let (i, j) = choose|i: int, j: int|
            0 <= i < j < ops.len() && !(#[trigger] ops[i]).hidden && !(#[trigger] ops[j]).hidden
                && route_key(ops[i]) == route_key(ops[j]);
        if i > 0 {
            assert(tail[i - 1] == ops[i] && tail[j - 1] == ops[j]);
            assert(duplicate_routes(tail));
        } else {
            assert(tail[j - 1] == ops[j]);
            assert(rest.contains(tail[j - 1]));
            let r = choose|r: int| 0 <= r < rest.len() && rest[r] == ops[j];
            assert(route_key(rest[r]) == route_key(ops[0]));
            assert(has_key(rest, route_key(ops[0])));
        }
    }
}

/// Once arranging the operations from some position on has failed,
/// arranging them from any earlier position fails too.
pub proof fn lemma_arrange_sticky(ops: Seq<OperationInfoView>, n: int)
    requires
        0 <= n <= ops.len(),
        arrange(ops.skip(n)) is None,
    ensures
        arrange(ops) is None,
    decreases n,
{
    if n > 0 {
        assert(ops.skip(n - 1).drop_first() =~= ops.skip(n));
        lemma_arrange_sticky(ops, n - 1);
    } else {
        assert(ops.skip(0) =~= ops);
    }
}

/// The mathematical value of a [`Document`].
pub struct DocumentView {
    pub info: MetadataView,
    pub paths: Seq<OperationInfoView>,
    pub schemas: RegistryView,
}

/// No schema anywhere in the document refers to a name that the
/// document's registry lacks.
pub open spec fn document_closed(doc: DocumentView) -> bool {
    &&& forall|i: int|
        0 <= i < doc.paths.len() ==> operation_closed(
            doc.schemas.entries,
            (#[trigger] doc.paths[i]).operation,
        )
    &&& forall|i: int|
        0 <= i < doc.schemas.entries.len() ==> crate::model::entry_closed(
            doc.schemas.entries,
            #[trigger] doc.schemas.entries[i],
        )
}

/// The generated description of an API: its visible operations in the
/// order of their keys, the registry of its schemas and its metadata.
#[derive(Clone, Debug, PartialEq, Eq)]
pub struct Document {
    /// The top-level metadata.
    pub info: Metadata,
    /// The visible operations, by normalized path and then by method.
    pub paths: Vec<OperationInfo>,
    /// The schemas that the operations refer to, in registration order.
    pub schemas: SchemaRegistry,
}

impl View for Document {
    type V = DocumentView;

    open spec fn view(&self) -> DocumentView {
        DocumentView { info: self.info@, paths: views(self.paths@), schemas: self.schemas@ }
    }
}

fn key_position(a_path: &Vec<char>, a_method: Method, b_path: &Vec<char>, b_method: Method) -> (p:
    Position)
    ensures
        p == Position::Before <==> key_lt(
            RouteKey { path: a_path@, method: a_method },
            RouteKey { path: b_path@, method: b_method },
        ),
        p == Position::Same <==> a_path@ == b_path@ && a_method == b_method,
        p == Position::After <==> key_lt(
            RouteKey { path: b_path@, method: b_method },
            RouteKey { path: a_path@, method: a_method },
        ),
{
    let ghost a = RouteKey { path: a_path@, method: a_method };
    let ghost b = RouteKey { path: b_path@, method: b_method };
    proof {
        if key_lt(a, b) {
            lemma_key_lt_asymmetric(a, b);
        }
        if key_lt(b, a) {
            lemma_key_lt_asymmetric(b, a);
        }
    }
    match lex_position(a_path, b_path) {
        Position::Before => Position::Before,
        Position::After => Position::After,
        Position::Same => {
            let x = a_method.rank();
            let y = b_method.rank();
            if x < y {
                Position::Before
            } else if y < x {
                Position::After
            } else {
                Position::Same
            }
        },
    }
}

/// The slot of a key among sorted operations, or nothing if one of them
/// has the key.
fn find_slot(paths: &Vec<OperationInfo>, keys: &Vec<Vec<char>>, key: &Vec<char>, method: Method) -> (out:
    Option<usize>)
    requires
        sorted(views(paths@)),
        keys.len() == paths.len(),
        forall|i: int| 0 <= i < keys.len() ==> (#[trigger] keys[i])@ == normalized(paths[i]@.path),
    ensures
        match out {
            Some(p) => is_slot(views(paths@), RouteKey { path: key@, method }, p as int) && !has_key(
                views(paths@),
                RouteKey { path: key@, method },
            ),
            None => has_key(views(paths@), RouteKey { path: key@, method }),
        },
{
    let ghost ops = views(paths@);
    let ghost k = RouteKey { path: key@, method };
    let mut p: usize = 0;
    while p < paths.len()
        invariant
            p <= paths.len(),
            ops == views(paths@),
            sorted(ops),
            k == (RouteKey { path: key@, method }),
            keys.len() == paths.len(),
            forall|i: int| 0 <= i < keys.len() ==> (#[trigger] keys[i])@ == normalized(paths[i]@.path),
            forall|i: int| 0 <= i < p ==> key_lt(route_key(#[trigger] ops[i]), k),
        decreases paths.len() - p,
    {
        assert(route_key(ops[p as int]) == (RouteKey {
            path: keys[p as int]@,
            method: paths[p as int].method,
        }));
        match key_position(&keys[p], paths[p].method, key, method) {
            Position::Before => {
                p += 1;
            },
            Position::Same => {
                return None;
            },
            Position::After => {
                proof {
                    assert forall|i: int| p <= i < ops.len() implies key_lt(
                        k,
                        route_key(#[trigger] ops[i]),
                    ) by {
                        if i > p {
                            assert(key_lt(route_key(ops[p as int]), route_key(ops[i])));
                            lemma_key_lt_transitive(k, route_key(ops[p as int]), route_key(ops[i]));
                        }
                    }
                    lemma_no_key(ops, k, p as int);
                }
                return Some(p);
            },
        }
    }
    proof {
        lemma_no_key(ops, k, p as int);
    }
    Some(p)
}

/// Operations that have a slot for a key hold no operation with that key.
proof fn lemma_no_key(ops: Seq<OperationInfoView>, k: RouteKey, p: int)
    requires
        is_slot(ops, k, p),
    ensures
        !has_key(ops, k),
{
    assert forall|i: int| 0 <= i < ops.len() implies route_key(#[trigger] ops[i]) != k by {
        if i < p {
            lemma_key_lt_asymmetric(route_key(ops[i]), k);
        } else {
            lemma_key_lt_asymmetric(k, route_key(ops[i]));
        }
    }
}

/// Assembles a document from built operations, a registry and metadata.
///
/// Hidden operations are left out. The others are put in the order of
/// their keys: normalized path, then method. Two of them with the same
/// key are a duplicate route, the only error.
#[verifier::loop_isolation(false)]
pub fn assemble(operations: Vec<OperationInfo>, registry: SchemaRegistry, metadata: Metadata) -> (out:
    Result<Document, Error>)
    ensures
        match arrange(views(operations@)) {
            Some(paths) => out matches Ok(doc) && doc@ == (DocumentView {
                info: metadata@,
                paths,
                schemas: registry@,
            }),
            None => out matches Err(e) && e == Error::DuplicateRoute,
        },
        out is Err <==> duplicate_routes(views(operations@)),
        out matches Ok(doc) ==> {
            &&& sorted(doc@.paths)
            &&& forall|i: int|
                0 <= i < operations.len() && !(#[trigger] operations[i]).hidden ==> doc@.paths.contains(
                    operations[i]@,
                )
            &&& forall|k: int|
                0 <= k < doc@.paths.len() ==> !(#[trigger] doc@.paths[k]).hidden && views(
                    operations@,
                ).contains(doc@.paths[k])
        },
        registry@.wf(),
        out matches Ok(doc) ==> ((forall|i: int|
            0 <= i < operations.len() ==> operation_closed(
                registry@.entries,
                (#[trigger] operations[i])@.operation,
            )) ==> document_closed(doc@)),
{
    let ghost all = views(operations@);
    proof {
        use_type_invariant(&registry);
        registry.lemma_valid();
        lemma_arrange(all);
        assert(all.skip(all.len() as int) =~= Seq::<OperationInfoView>::empty());
    }
    let mut pending = operations;
    let mut paths: Vec<OperationInfo> = Vec::new();
    let mut keys: Vec<Vec<char>> = Vec::new();
    assert(views(paths@) =~= Seq::<OperationInfoView>::empty());
    while pending.len() > 0
        invariant
            pending.len() <= all.len(),
            views(pending@) == all.take(pending.len() as int),
            arrange(all.skip(pending.len() as int)) == Some(views(paths@)),
            sorted(views(paths@)),
            keys.len() == paths.len(),
            forall|i: int| 0 <= i < keys.len() ==> (#[trigger] keys[i])@ == normalized(paths[i]@.path),
        decreases pending.len(),
    {
        let ghost n = pending.len() as int;
        let ghost before = views(paths@);
        assert(views(pending@)[n - 1] == all[n - 1]);
        let op = pending.pop().unwrap();
        proof {
            assert(op@ == all[n - 1]);
            assert(all.skip(n - 1).drop_first() =~= all.skip(n));
            assert(all.skip(n - 1)[0] == all[n - 1]);
            assert(views(pending@) =~= all.take(n - 1));
        }
        if !op.hidden {
            let key = chars_of(normalize_path(op.path.as_str()).as_str());
            assert(route_key(op@) == (RouteKey { path: key@, method: op.method }));
            match find_slot(&paths, &keys, &key, op.method) {
                None => {
                    proof {
                        lemma_arrange_sticky(all, n - 1);
                    }
                    return Err(Error::DuplicateRoute);
                },
                Some(p) => {
                    proof {
                        lemma_slot_exists(before, route_key(op@));
                        lemma_slot_unique(before, route_key(op@), p as int, slot(before, route_key(op@)));
                        lemma_insert_sorted(before, op@, p as int);
                    }
                    paths.insert(p, op);
                    keys.insert(p, key);
                    proof {
                        assert(views(paths@) =~= before.insert(p as int, all[n - 1]));
                    }
                },
            }
        }
    }
    proof {
        assert(all.skip(0) =~= all);
    }
    let doc = Document { info: metadata, paths, schemas: registry };
    proof {
        assert forall|i: int|
            0 <= i < operations.len() && !(#[trigger] operations[i]).hidden implies doc@.paths.contains(
            operations[i]@,
        ) by {
            assert(all[i] == operations[i]@);
        }
        if (forall|i: int|
            0 <= i < operations.len() ==> operation_closed(
                registry@.entries,
                (#[trigger] operations[i])@.operation,
            )) {
            assert forall|k: int| 0 <= k < doc@.paths.len() implies operation_closed(
                doc@.schemas.entries,
                (#[trigger] doc@.paths[k]).operation,
            ) by {
                assert(all.contains(doc@.paths[k]));
                let i = choose|i: int| 0 <= i < all.len() && all[i] == doc@.paths[k];
                assert(all[i] == operations[i]@);
            }
        }
    }
    Ok(doc)
}

/// What building the first `n` descriptors in order gives: the grown
/// entries and the operations.
pub open spec fn build_all(
    es: Seq<EntryView>,
    ds: Seq<OperationDescriptorView>,
    n: nat,
    settings: SettingsView,
) -> Result<(Seq<EntryView>, Seq<OperationInfoView>), Error>
    decreases n,
{
    if n == 0 || n > ds.len() {
        Ok((es, Seq::empty()))
    } else {
        match build_all(es, ds, (n - 1) as nat, settings) {
            Err(e) => Err(e),
            Ok((es1, ops)) => match build_spec(es1, ds[n - 1], settings) {
                Err(e) => Err(e),
                Ok((es2, op)) => Ok((es2, ops.push(op))),
            },
        }
    }
}

/// The document that a list of descriptors generates: they are built in
/// order against an empty registry, and the operations are arranged.
pub open spec fn generate_spec(
    ds: Seq<OperationDescriptorView>,
    settings: SettingsView,
    metadata: MetadataView,
) -> Result<DocumentView, Error> {
    match build_all(Seq::empty(), ds, ds.len(), settings) {
        Err(e) => Err(e),
        Ok((es, ops)) => match arrange(ops) {
            None => Err(Error::DuplicateRoute),
            Some(paths) => Ok(
                DocumentView { info: metadata, paths, schemas: RegistryView { settings, entries: es } },
            ),
        },
    }
}

/// The value of the result of a generation.
pub open spec fn document_result(out: Result<Document, Error>) -> Result<DocumentView, Error> {
    match out {
        Ok(doc) => Ok(doc@),
        Err(e) => Err(e),
    }
}

/// An operation that refers only to names of entries keeps doing so
/// while the entries grow.
pub proof fn lemma_operation_closed_kept(
    a: Seq<EntryView>,
    b: Seq<EntryView>,
    op: crate::operation::OperationView,
)
    requires
        extends(a, b),
        operation_closed(a, op),
    ensures
        operation_closed(b, op),
{
    assert(crate::model::keeps_names(a, b));
    assert forall|i: int| 0 <= i < op.parameters.len() implies crate::model::ref_resolves(
        b,
        #[trigger] op.parameters[i].schema,
    ) by {
        lemma_resolves_kept(a, b, op.parameters[i].schema);
    }
    assert forall|i: int| 0 <= i < op.responses.len() implies crate::builder::optional_resolves(
        b,
        #[trigger] op.responses[i].schema,
    ) by {
        match op.responses[i].schema {
            Some(x) => {
                lemma_resolves_kept(a, b, x);
            },
            None => {},
        }
    }
    match op.request_body {
        Some(body) => {
            lemma_resolves_kept(a, b, body.schema);
        },
        None => {},
    }
}

/// What a successful build of a list of descriptors guarantees.
pub proof fn lemma_build_all(
    es: Seq<EntryView>,
    ds: Seq<OperationDescriptorView>,
    n: nat,
    settings: SettingsView,
)
    requires
        consistent(es, settings.collision_policy),
        settled(es),
        n <= ds.len(),
    ensures
        match build_all(es, ds, n, settings) {
            Ok((es1, ops)) => {
                &&& consistent(es1, settings.collision_policy)
                &&& settled(es1)
                &&& extends(es, es1)
                &&& ops.len() == n
                &&& forall|k: int|
                    0 <= k < n ==> operation_closed(es1, (#[trigger] ops[k]).operation)
            },
            Err(e) => true,
        },
    decreases n,
{
    if n > 0 {
        lemma_build_all(es, ds, (n - 1) as nat, settings);
        match build_all(es, ds, (n - 1) as nat, settings) {
            Err(e) => {},
            Ok((es1, ops)) => {
                lemma_build(es1, ds[n - 1], settings);
                match build_spec(es1, ds[n - 1], settings) {
                    Err(e) => {},
                    Ok((es2, op)) => {
                        lemma_extends_chain(es, es1, es2);
                        let all = ops.push(op);
                        assert forall|k: int| 0 <= k < n implies operation_closed(
                            es2,
                            (#[trigger] all[k]).operation,
                        ) by {
                            if k < n - 1 {
                                lemma_operation_closed_kept(es1, es2, ops[k].operation);
                            }
                        }
                        assert forall|i: int| 0 <= i < es2.len() implies !(#[trigger] es2[i]).reserved by {
                            if i < es1.len() {
                                assert(es2[i] == es1[i]);
                            }
                        }
                    },
                }
            },
        }
    }
}

/// Once building the first `n` descriptors has failed, building more of
/// them fails in the same way.
pub proof fn lemma_build_all_sticky(
    es: Seq<EntryView>,
    ds: Seq<OperationDescriptorView>,
    n: nat,
    m: nat,
    settings: SettingsView,
)
    requires
        n <= m <= ds.len(),
        build_all(es, ds, n, settings) is Err,
    ensures
        build_all(es, ds, m, settings) == build_all(es, ds, n, settings),
    decreases m,
{
    if n < m {
        lemma_build_all_sticky(es, ds, n, (m - 1) as nat, settings);
    }
}

/// Generates the document of a list of endpoint descriptors.
///
/// The descriptors are built in order against a new registry with the
/// given settings; the first error ends the generation. The operations
/// are then assembled with the registry and the metadata.
#[verifier::loop_isolation(false)]
pub fn generate(descriptors: &Vec<OperationDescriptor>, settings: Settings, metadata: Metadata) -> (out:
    Result<Document, Error>)
    ensures
        document_result(out) == generate_spec(views(descriptors@), settings@, metadata@),
        out matches Ok(doc) ==> {
            &&& doc@.schemas.wf()
            &&& document_closed(doc@)
            &&& sorted(doc@.paths)
            &&& forall|k: int| 0 <= k < doc@.paths.len() ==> !(#[trigger] doc@.paths[k]).hidden
        },
{
    let ghost ds = views(descriptors@);
    let ghost sv = settings@;
    let ghost empty = Seq::<EntryView>::empty();
    let mut registry = SchemaRegistry::new(settings);
    let mut operations: Vec<OperationInfo> = Vec::new();
    let mut i: usize = 0;
    assert(views(operations@) =~= Seq::<OperationInfoView>::empty());
    while i < descriptors.len()
        invariant
            i <= descriptors.len(),
            operations.len() == i,
            registry@.wf(),
            registry@.settings == sv,
            build_all(empty, ds, i as nat, sv) == Ok::<
                (Seq<EntryView>, Seq<OperationInfoView>),
                Error,
            >((registry@.entries, views(operations@))),
            forall|k: int|
                0 <= k < i ==> operation_closed(registry@.entries, (#[trigger] operations[k])@.operation),
        decreases descriptors.len() - i,
    {
        let ghost cur = registry@.entries;
        let ghost done = views(operations@);
        assert(ds[i as int] == descriptors[i as int]@);
        match build(&descriptors[i], &mut registry) {
            Err(e) => {
                proof {
                    lemma_build_all_sticky(empty, ds, (i + 1) as nat, ds.len(), sv);
                }
                return Err(e);
            },
            Ok(op) => {
                operations.push(op);
                proof {
                    assert(views(operations@) =~= done.push(operations[i as int]@));
                    assert forall|k: int| 0 <= k < i + 1 implies operation_closed(
                        registry@.entries,
                        (#[trigger] operations[k])@.operation,
                    ) by {
                        if k < i {
                            lemma_operation_closed_kept(cur, registry@.entries, operations[k]@.operation);
                        }
                    }
                }
            },
        }
        i += 1;
    }
    assemble(operations, registry, metadata)
}

} // verus!
