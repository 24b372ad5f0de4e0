use vstd::prelude::*;
use vstd::multiset::Multiset;
use crate::datatype::{
    named_types, types_clone, types_default, types_extend, ProcedureDataType, ProcedureDataTypeView,
};
use crate::naming::{
    ends_with_dot, invalid_normalized_prefix, invalid_procedure_name, is_invalid_procedure_name, is_invalid_router_prefix, normalized_prefix,
};
use crate::procedure_store::{distinct_keys, entries_map, ProcedureStore, StoreError};

verus! {

/// What a procedure runs when it is called: the resolver it ends in and the
/// middleware wrapped around it, outermost first. Resolvers and middleware
/// are referred to by the handles under which their code is kept.
pub struct Layer {
    pub resolver: u64,
    pub middleware: Vec<u64>,
}

/// A registered procedure: what it runs and how it is described.
pub struct Procedure {
    pub layer: Layer,
    pub ty: ProcedureDataType,
}

/// A procedure as contracts see it.
pub ghost struct ProcedureView {
    pub resolver: u64,
    pub middleware: Seq<u64>,
    pub ty: ProcedureDataTypeView,
}

/// The description `ty` given for a procedure, stored under the procedure's
/// key `key`.
pub open spec fn described(key: Seq<char>, ty: ProcedureDataType) -> ProcedureDataTypeView {
    ProcedureDataTypeView { key, input: ty.input, result: ty.result }
}

impl View for Procedure {
    type V = ProcedureView;

    open spec fn view(&self) -> ProcedureView {
        ProcedureView { resolver: self.layer.resolver, middleware: self.layer.middleware@, ty: self.ty@ }
    }
}

/// The procedures of a store as contracts see them.
pub open spec fn procedures(m: Map<Seq<char>, Procedure>) -> Map<Seq<char>, ProcedureView> {
    m.map_values(|p: Procedure| p@)
}

/// `p` wrapped in the middleware `mw` (outermost first).
pub open spec fn wrapped(mw: Seq<u64>, p: ProcedureView) -> ProcedureView {
    ProcedureView { resolver: p.resolver, middleware: mw + p.middleware, ty: p.ty }
}

/// The procedures of `other`, each under `prefix` followed by its key and
/// wrapped in `mw`.
pub open spec fn prefixed(
    prefix: Seq<char>,
    other: Map<Seq<char>, ProcedureView>,
    mw: Seq<u64>,
) -> Map<Seq<char>, ProcedureView> {
    Map::new(
        |k: Seq<char>|
            prefix.len() <= k.len() && k.subrange(0, prefix.len() as int) == prefix
                && other.dom().contains(k.subrange(prefix.len() as int, k.len() as int)),
        |k: Seq<char>| wrapped(mw, other[k.subrange(prefix.len() as int, k.len() as int)]),
    )
}

/// No key of `other`, put behind `prefix`, is taken in `own`.
pub open spec fn fits(
    own: Map<Seq<char>, ProcedureView>,
    prefix: Seq<char>,
    other: Map<Seq<char>, ProcedureView>,
) -> bool {
    forall|j: Seq<char>| #[trigger] other.dom().contains(j) ==> !own.dom().contains(prefix + j)
}

/// `key` is taken in `own` and is `prefix` followed by a key of `other`.
pub open spec fn clash(
    own: Map<Seq<char>, ProcedureView>,
    prefix: Seq<char>,
    other: Map<Seq<char>, ProcedureView>,
    key: Seq<char>,
) -> bool {
    own.dom().contains(key) && exists|j: Seq<char>| #[trigger] other.dom().contains(j) && key
        == prefix + j
}

/// `own` together with the procedures of `other` under `prefix`, wrapped in
/// `mw`.
pub open spec fn merged(
    own: Map<Seq<char>, ProcedureView>,
    prefix: Seq<char>,
    other: Map<Seq<char>, ProcedureView>,
    mw: Seq<u64>,
) -> Map<Seq<char>, ProcedureView> {
    own.union_prefer_right(prefixed(prefix, other, mw))
}

/// The settings of a router.
pub struct Config {
    /// Where the TypeScript bindings are written when the router is built.
    pub export_bindings_on_build: Option<String>,
}

impl Config {
    /// Settings under which no bindings are written.
    pub fn new() -> (res: Config)
        ensures
            res.export_bindings_on_build is None,
    {
        Config { export_bindings_on_build: None }
    }
}

/// Why a router could not be put together.
#[derive(Debug)]
pub enum RouterError {
    /// A procedure of the given kind was given a name that is not allowed.
    InvalidProcedureName { kind: String, key: String },
    /// A procedure of the given kind already has this name.
    DuplicateProcedure { kind: String, key: String },
    /// A router was merged under a prefix that is not allowed; the prefix is
    /// given as normalized to end in `.`, and `deprecated_dot` tells whether
    /// it was given ending in `.` already (a form to warn about).
    InvalidPrefix { prefix: String, deprecated_dot: bool },
}

/// A router that is still being put together.
pub struct RouterBuilder {
    pub config: Config,
    /// The middleware that procedures added from now on are wrapped in,
    /// outermost first.
    pub middleware: Vec<u64>,
    pub queries: ProcedureStore<Procedure>,
    pub mutations: ProcedureStore<Procedure>,
    pub subscriptions: ProcedureStore<Procedure>,
    pub typ_store: specta::Types,
}

/// A router that has been put together.
pub struct Router {
    pub config: Config,
    pub queries: ProcedureStore<Procedure>,
    pub mutations: ProcedureStore<Procedure>,
    pub subscriptions: ProcedureStore<Procedure>,
    pub typ_store: specta::Types,
}

/// Something that can be turned into a router builder.
pub trait RouterBuilderLike: Sized {
    fn expose(self) -> RouterBuilder;
}

impl RouterBuilderLike for RouterBuilder {
    fn expose(self) -> (res: RouterBuilder)
        ensures
            res == self,
    {
        self
    }
}

impl Router {
    /// A builder for a router with no procedures.
    pub fn new() -> (res: RouterBuilder)
        ensures
            res.empty(),
    {
        RouterBuilder::new()
    }
}

/// The concatenation of two lists of middleware.
fn concat_middleware(a: &Vec<u64>, b: &Vec<u64>) -> (res: Vec<u64>)
    ensures
        res@ == a@ + b@,
{
    let mut res: Vec<u64> = Vec::new();
    for i in 0..a.len()
        invariant
            res@ == a@.take(i as int),
    {
        res.push(a[i]);
    }
    for i in 0..b.len()
        invariant
            res@ == a@ + b@.take(i as int),
    {
        res.push(b[i]);
    }
    assert(a@.take(a@.len() as int) =~= a@);
    assert(b@.take(b@.len() as int) =~= b@);
    res
}

/// A copy of a list of middleware.
fn copy_middleware(a: &Vec<u64>) -> (res: Vec<u64>)
    ensures
        res@ == a@,
{
    let empty: Vec<u64> = Vec::new();
    let res = concat_middleware(a, &empty);
    assert(a@ + empty@ =~= a@);
    res
}

/// The named types of `parent` and `child` together; where both hold a type
/// under the same identity, `child`'s is kept.
fn merge_types(parent: specta::Types, child: &specta::Types) -> (res: specta::Types)
    ensures
        named_types(*child).subset_of(named_types(res)),
        named_types(res).subset_of(named_types(*child).add(named_types(parent))),
        named_types(parent).len() <= named_types(res).len(),
{
    let mut res = types_clone(child);
    types_extend(&mut res, &parent);
    res
}

/// Adds the procedure `key` running `resolver` inside `middleware` to `store`,
/// unless its name is not allowed or already taken.
fn attach(
    store: &mut ProcedureStore<Procedure>,
    middleware: &Vec<u64>,
    key: &str,
    resolver: u64,
    ty: ProcedureDataType,
) -> (res: Result<(), RouterError>)
    ensures
        final(store).kind_view() == old(store).kind_view(),
        res is Ok <==> !invalid_procedure_name(key@) && !old(store)@.dom().contains(key@),
        res is Ok ==> procedures(final(store)@) == procedures(old(store)@).insert(
            key@,
            ProcedureView { resolver, middleware: middleware@, ty: described(key@, ty) },
        ),
        res matches Err(RouterError::InvalidProcedureName { kind, key: k }) ==> invalid_procedure_name(
            key@,
        ) && k@ == key@ && kind@ == old(store).kind_view(),
        res matches Err(RouterError::DuplicateProcedure { kind, key: k }) ==> !invalid_procedure_name(
            key@,
        ) && k@ == key@ && kind@ == old(store).kind_view(),
        res matches Err(RouterError::InvalidPrefix { .. }) ==> false,
{
    if is_invalid_procedure_name(key) {
        return Err(RouterError::InvalidProcedureName { kind: store.kind().to_owned(), key: key.to_owned() });
    }
    let layer = Layer { resolver, middleware: copy_middleware(middleware) };
    let ty = ProcedureDataType { key: key.to_owned(), input: ty.input, result: ty.result };
    let procedure = Procedure { layer, ty };
    let ghost pv = procedure@;
    let ghost old_store = store@;
    match store.append(key.to_owned(), procedure) {
        Ok(()) => {
            assert(procedures(store@) =~= procedures(old_store).insert(key@, pv));
            Ok(())
        },
        Err(StoreError::DuplicateKey(k)) => {
            Err(RouterError::DuplicateProcedure { kind: store.kind().to_owned(), key: k })
        },
    }
}

/// `prefixed` over one more entry.
proof fn lemma_prefixed_insert(
    prefix: Seq<char>,
    other: Map<Seq<char>, ProcedureView>,
    mw: Seq<u64>,
    k: Seq<char>,
    v: ProcedureView,
)
    ensures
        prefixed(prefix, other.insert(k, v), mw) =~= prefixed(prefix, other, mw).insert(
            prefix + k,
            wrapped(mw, v),
        ),
{
    let pk = prefix + k;
    assert(pk.subrange(0, prefix.len() as int) =~= prefix);
    assert(pk.subrange(prefix.len() as int, pk.len() as int) =~= k);
    assert forall|x: Seq<char>|
        prefix.len() <= x.len() && x.subrange(0, prefix.len() as int) == prefix implies (x.subrange(
            prefix.len() as int,
            x.len() as int,
        ) == k <==> x == pk) by {
        if x.subrange(prefix.len() as int, x.len() as int) == k {
            assert(x =~= x.subrange(0, prefix.len() as int) + x.subrange(
                prefix.len() as int,
                x.len() as int,
            ));
        }
    }
}

/// Adds every entry of `src` to `dst` under `prefix` followed by its key,
/// wrapped in `mw`; stops at the first key that is already taken.
fn merge_store(
    dst: &mut ProcedureStore<Procedure>,
    prefix: &str,
    mw: &Vec<u64>,
    src: ProcedureStore<Procedure>,
) -> (res: Result<(), RouterError>)
    ensures
        final(dst).kind_view() == old(dst).kind_view(),
        res is Ok <==> fits(procedures(old(dst)@), prefix@, procedures(src@)),
        res is Ok ==> procedures(final(dst)@) == merged(
            procedures(old(dst)@),
            prefix@,
            procedures(src@),
            mw@,
        ),
        res matches Err(e) ==> e is DuplicateProcedure,
        res matches Err(RouterError::DuplicateProcedure { kind, key }) ==> kind@ == old(
            dst,
        ).kind_view() && clash(procedures(old(dst)@), prefix@, procedures(src@), key@),
{
    let ghost own = procedures(dst@);
    let ghost src_view = procedures(src@);
    let entries = src.into_entries();
    let ghost es = entries@;
    proof {
        crate::procedure_store::lemma_entries_map_dom(es);
        crate::procedure_store::lemma_entries_map_value(es);
    }
    for e in it: entries.into_iter()
        invariant
            it.seq() == es,
            distinct_keys(es),
            entries_map(es) == src@,
            src_view == procedures(src@),
            dst.kind_view() == old(dst).kind_view(),
            own == procedures(old(dst)@),
            fits(own, prefix@, procedures(entries_map(es.take(it.index() as int)))),
            procedures(dst@) == merged(
                own,
                prefix@,
                procedures(entries_map(es.take(it.index() as int))),
                mw@,
            ),
    {
        let ghost i = it.index() as int;
        let ghost done = es.take(i);
        let ghost next = es.take(i + 1);
        proof {
            assert(next.drop_last() =~= done);
            assert(next.last() == es[i]);
            assert(entries_map(next) == entries_map(done).insert(es[i].0@, es[i].1));
            assert(procedures(entries_map(next)) =~= procedures(entries_map(done)).insert(
                es[i].0@,
                es[i].1@,
            ));
            lemma_prefixed_insert(prefix@, procedures(entries_map(done)), mw@, es[i].0@, es[i].1@);
            crate::procedure_store::lemma_entries_map_dom(done);
            assert(!entries_map(done).dom().contains(es[i].0@)) by {
                if entries_map(done).dom().contains(es[i].0@) {
                    let j = choose|j: int| 0 <= j < done.len() && done[j].0@ == es[i].0@;
                    assert(done[j] == es[j]);
                }
            }
        }
        assert(e == es[i]);
        let (key, procedure) = e;
        let mut full_key: String = prefix.to_owned();
        full_key.append(key.as_str());
        assert(full_key@ == prefix@ + key@);
        let layer = Layer {
            resolver: procedure.layer.resolver,
            middleware: concat_middleware(mw, &procedure.layer.middleware),
        };
        let wrapped_procedure = Procedure { layer, ty: procedure.ty };
        let ghost before = dst@;
        let ghost wp = wrapped_procedure@;
        proof {
            let pk = prefix@ + key@;
            let pd = prefixed(prefix@, procedures(entries_map(done)), mw@);
            assert(pk.subrange(prefix@.len() as int, pk.len() as int) =~= key@);
            assert(!pd.dom().contains(pk));
            assert(procedures(before).dom() == before.dom());
            assert(before.dom().contains(full_key@) <==> own.dom().contains(pk));
        }
        match dst.append(full_key, wrapped_procedure) {
            Ok(()) => {
                proof {
                    let pk = prefix@ + key@;
                    assert(wp == wrapped(mw@, es[i].1@));
                    assert(procedures(dst@) =~= procedures(before).insert(pk, wp));
                    assert(procedures(entries_map(es.take(i + 1))) =~= procedures(
                        entries_map(done),
                    ).insert(key@, es[i].1@));
                    assert(procedures(dst@) =~= merged(
                        own,
                        prefix@,
                        procedures(entries_map(es.take(i + 1))),
                        mw@,
                    ));
                    assert forall|j: Seq<char>| #[trigger]
                        procedures(entries_map(es.take(i + 1))).dom().contains(
                            j,
                        ) implies !own.dom().contains(prefix@ + j) by {
                        if j != key@ {
                            assert(procedures(entries_map(done)).dom().contains(j));
                        }
                    }
                }
            },
            Err(StoreError::DuplicateKey(k)) => {
                proof {
                    assert(src_view.dom().contains(key@)) by {
                        crate::procedure_store::lemma_entries_map_dom(es);
                    }
                    assert(!fits(own, prefix@, src_view));
                    assert(k@ == prefix@ + key@);
                    assert(clash(own, prefix@, src_view, k@));
                }
                return Err(
                    RouterError::DuplicateProcedure { kind: dst.kind().to_owned(), key: k },
                );
            },
        }
    }
    proof {
        assert(es.take(es.len() as int) =~= es);
    }
    Ok(())
}

/// Merging a router that has no procedures of a kind leaves the procedures
/// of that kind as they were.
pub proof fn lemma_merge_without_procedures(
    own: Map<Seq<char>, ProcedureView>,
    prefix: Seq<char>,
    mw: Seq<u64>,
)
    ensures
        fits(own, prefix, Map::empty()),
        merged(own, prefix, Map::empty(), mw) == own,
{
    assert(merged(own, prefix, Map::empty(), mw) =~= own);
}

/// After a merge that fits, each procedure of the merged router is found
/// under the prefix followed by its key, running the same resolver inside
/// the middleware `mw` followed by its own middleware, with the same
/// description; each of the router's own procedures is found as it was; and
/// no other key is there.
pub proof fn lemma_merged_lookup(
    own: Map<Seq<char>, ProcedureView>,
    prefix: Seq<char>,
    other: Map<Seq<char>, ProcedureView>,
    mw: Seq<u64>,
)
    requires
        fits(own, prefix, other),
    ensures
        forall|k: Seq<char>|
            #![trigger other.dom().contains(k)]
            other.dom().contains(k) ==> merged(own, prefix, other, mw).dom().contains(prefix + k)
                && merged(own, prefix, other, mw)[prefix + k] == (ProcedureView {
                resolver: other[k].resolver,
                middleware: mw + other[k].middleware,
                ty: other[k].ty,
            }),
        forall|j: Seq<char>|
            #![trigger own.dom().contains(j)]
            own.dom().contains(j) ==> merged(own, prefix, other, mw).dom().contains(j) && merged(
                own,
                prefix,
                other,
                mw,
            )[j] == own[j],
        forall|x: Seq<char>|
            #![trigger merged(own, prefix, other, mw).dom().contains(x)]
            merged(own, prefix, other, mw).dom().contains(x) ==> own.dom().contains(x) || exists|
                k: Seq<char>,
            | #[trigger] other.dom().contains(k) && x == prefix + k,
{
    assert forall|k: Seq<char>| #[trigger] other.dom().contains(k) implies merged(
        own,
        prefix,
        other,
        mw,
    ).dom().contains(prefix + k) && merged(own, prefix, other, mw)[prefix + k] == (ProcedureView {
        resolver: other[k].resolver,
        middleware: mw + other[k].middleware,
        ty: other[k].ty,
    }) by {
        let pk = prefix + k;
        assert(pk.subrange(0, prefix.len() as int) =~= prefix);
        assert(pk.subrange(prefix.len() as int, pk.len() as int) =~= k);
    }
    assert forall|j: Seq<char>| #[trigger] own.dom().contains(j) implies merged(
        own,
        prefix,
        other,
        mw,
    ).dom().contains(j) && merged(own, prefix, other, mw)[j] == own[j] by {
        if prefixed(prefix, other, mw).dom().contains(j) {
            let k = j.subrange(prefix.len() as int, j.len() as int);
            assert(j =~= j.subrange(0, prefix.len() as int) + k);
            assert(j == prefix + k);
            assert(other.dom().contains(k));
        }
    }
    assert forall|x: Seq<char>| #[trigger]
        merged(own, prefix, other, mw).dom().contains(x) implies own.dom().contains(x) || exists|
        k: Seq<char>,
    | #[trigger] other.dom().contains(k) && x == prefix + k by {
        if !own.dom().contains(x) {
            let k = x.subrange(prefix.len() as int, x.len() as int);
            assert(x =~= x.subrange(0, prefix.len() as int) + k);
            assert(other.dom().contains(k));
        }
    }
}

/// Whether a merge fits depends only on the parent's keys that begin with
/// the prefix: a key that does not begin with it never blocks the merge.
pub proof fn lemma_fits_ignores_other_keys(
    own: Map<Seq<char>, ProcedureView>,
    prefix: Seq<char>,
    other: Map<Seq<char>, ProcedureView>,
    key: Seq<char>,
    v: ProcedureView,
)
    requires
        !(prefix.len() <= key.len() && key.subrange(0, prefix.len() as int) == prefix),
    ensures
        fits(own.insert(key, v), prefix, other) == fits(own, prefix, other),
{
    assert forall|j: Seq<char>| #[trigger] other.dom().contains(j) implies prefix + j != key by {
        if prefix + j == key {
            assert((prefix + j).subrange(0, prefix.len() as int) =~= prefix);
        }
    }
}

/// A merge into a router without procedures always fits, and a merge is
/// only ever refused for a key that is the prefix followed by a key of the
/// merged router and is taken in the parent.
pub proof fn lemma_fits_and_clash(
    own: Map<Seq<char>, ProcedureView>,
    prefix: Seq<char>,
    other: Map<Seq<char>, ProcedureView>,
    key: Seq<char>,
)
    ensures
        fits(Map::empty(), prefix, other),
        fits(own, prefix, other) <==> !(exists|j: Seq<char>|
            #[trigger] other.dom().contains(j) && own.dom().contains(prefix + j)),
        clash(own, prefix, other, key) ==> own.dom().contains(key) && prefix.len() <= key.len()
            && key.subrange(0, prefix.len() as int) == prefix && other.dom().contains(
            key.subrange(prefix.len() as int, key.len() as int),
        ),
{
    if clash(own, prefix, other, key) {
        let j = choose|j: Seq<char>| #[trigger] other.dom().contains(j) && key == prefix + j;
        assert(key.subrange(0, prefix.len() as int) =~= prefix);
        assert(key.subrange(prefix.len() as int, key.len() as int) =~= j);
    }
}

/// After a procedure `key` is added to a store with resolver `resolver`,
/// middleware `mw` and description `ty` (as `query`, `mutation` and
/// `subscription` state), it is found under `key`, runs `resolver` inside
/// `mw`, and is described under `key` with `ty`'s argument and result
/// datatypes; every other procedure is as it was.
pub proof fn lemma_added_procedure(
    before: Map<Seq<char>, Procedure>,
    after: Map<Seq<char>, Procedure>,
    key: Seq<char>,
    resolver: u64,
    mw: Seq<u64>,
    ty: ProcedureDataType,
)
    requires
        procedures(after) == procedures(before).insert(
            key,
            ProcedureView { resolver, middleware: mw, ty: described(key, ty) },
        ),
    ensures
        after.dom().contains(key),
        after[key].layer.resolver == resolver,
        after[key].layer.middleware@ == mw,
        after[key].ty.key@ == key,
        after[key].ty.input == ty.input,
        after[key].ty.result == ty.result,
        forall|j: Seq<char>|
            j != key ==> (#[trigger] after.dom().contains(j) <==> before.dom().contains(j)),
        forall|j: Seq<char>|
            j != key && #[trigger] before.dom().contains(j) ==> after[j]@ == before[j]@,
{
    assert(procedures(after).dom().contains(key));
    assert(procedures(after)[key] == after[key]@);
    assert forall|j: Seq<char>| j != key implies (#[trigger] after.dom().contains(j)
        <==> before.dom().contains(j)) by {
        assert(procedures(after).dom().contains(j) == after.dom().contains(j));
        assert(procedures(before).dom().contains(j) == before.dom().contains(j));
    }
    assert forall|j: Seq<char>| j != key && #[trigger] before.dom().contains(j) implies after[j]@
        == before[j]@ by {
        assert(procedures(after)[j] == after[j]@);
        assert(procedures(before)[j] == before[j]@);
    }
}

/// Merging wraps every procedure of the merged router, of each kind, in the
/// parent's whole middleware (outermost first) ahead of its own, under the
/// prefix followed by its key, with the same resolver and description.
pub proof fn lemma_merge_wraps_in_parent_middleware(
    parent: RouterBuilder,
    prefix: Seq<char>,
    router: RouterBuilder,
    res: RouterBuilder,
)
    requires
        parent.merge_fits(prefix, router),
        parent.merged_into(prefix, router, res),
    ensures
        forall|k: Seq<char>|
            #![trigger router.queries@.dom().contains(k)]
            router.queries@.dom().contains(k) ==> res.queries@.dom().contains(prefix + k)
                && res.queries@[prefix + k].layer.middleware@ == parent.middleware@
                + router.queries@[k].layer.middleware@ && res.queries@[prefix
                + k].layer.resolver == router.queries@[k].layer.resolver && res.queries@[prefix
                + k].ty@ == router.queries@[k].ty@,
        forall|k: Seq<char>|
            #![trigger router.mutations@.dom().contains(k)]
            router.mutations@.dom().contains(k) ==> res.mutations@.dom().contains(prefix + k)
                && res.mutations@[prefix + k].layer.middleware@ == parent.middleware@
                + router.mutations@[k].layer.middleware@ && res.mutations@[prefix
                + k].layer.resolver == router.mutations@[k].layer.resolver
                && res.mutations@[prefix + k].ty@ == router.mutations@[k].ty@,
        forall|k: Seq<char>|
            #![trigger router.subscriptions@.dom().contains(k)]
            router.subscriptions@.dom().contains(k) ==> res.subscriptions@.dom().contains(
                prefix + k,
            ) && res.subscriptions@[prefix + k].layer.middleware@ == parent.middleware@
                + router.subscriptions@[k].layer.middleware@ && res.subscriptions@[prefix
                + k].layer.resolver == router.subscriptions@[k].layer.resolver
                && res.subscriptions@[prefix + k].ty@ == router.subscriptions@[k].ty@,
{
    lemma_merged_lookup(
        procedures(parent.queries@),
        prefix,
        procedures(router.queries@),
        parent.middleware@,
    );
    lemma_merged_lookup(
        procedures(parent.mutations@),
        prefix,
        procedures(router.mutations@),
        parent.middleware@,
    );
    lemma_merged_lookup(
        procedures(parent.subscriptions@),
        prefix,
        procedures(router.subscriptions@),
        parent.middleware@,
    );
    assert forall|k: Seq<char>| #[trigger] router.queries@.dom().contains(k) implies res.queries@.dom().contains(prefix + k)
        && res.queries@[prefix + k]@ == (ProcedureView { resolver: router.queries@[k]@.resolver, middleware: parent.middleware@ + router.queries@[k]@.middleware, ty: router.queries@[k]@.ty }) by {
        assert(procedures(router.queries@).dom().contains(k));
        assert(procedures(res.queries@).dom().contains(prefix + k));
        assert(procedures(res.queries@)[prefix + k] == res.queries@[prefix + k]@);
    }
    assert forall|k: Seq<char>| #[trigger] router.mutations@.dom().contains(k) implies res.mutations@.dom().contains(prefix + k)
        && res.mutations@[prefix + k]@ == (ProcedureView { resolver: router.mutations@[k]@.resolver, middleware: parent.middleware@ + router.mutations@[k]@.middleware, ty: router.mutations@[k]@.ty }) by {
        assert(procedures(router.mutations@).dom().contains(k));
        assert(procedures(res.mutations@).dom().contains(prefix + k));
        assert(procedures(res.mutations@)[prefix + k] == res.mutations@[prefix + k]@);
    }
    assert forall|k: Seq<char>| #[trigger] router.subscriptions@.dom().contains(k) implies res.subscriptions@.dom().contains(prefix + k)
        && res.subscriptions@[prefix + k]@ == (ProcedureView { resolver: router.subscriptions@[k]@.resolver, middleware: parent.middleware@ + router.subscriptions@[k]@.middleware, ty: router.subscriptions@[k]@.ty }) by {
        assert(procedures(router.subscriptions@).dom().contains(k));
        assert(procedures(res.subscriptions@).dom().contains(prefix + k));
        assert(procedures(res.subscriptions@)[prefix + k] == res.subscriptions@[prefix + k]@);
    }
}

/// The multiset of names `r` equals `p` when it lies within `p` and has at
/// least as many.
proof fn lemma_sub_multiset_full(r: Multiset<Seq<char>>, p: Multiset<Seq<char>>)
    requires
        r.subset_of(p),
        p.len() <= r.len(),
    ensures
        r == p,
{
    let d = p.sub(r);
    assert(d.len() == p.len() - r.len());
    assert(d.len() == 0);
    vstd::multiset::lemma_multiset_empty_len(d);
    assert forall|v: Seq<char>| r.count(v) == p.count(v) by {
        assert(d.count(v) == 0);
    }
    assert(r =~= p);
}

/// The named types after a merge: all those of the merged router are there,
/// none that neither router had, at least as many as the parent had; so a
/// merge of a router without named types keeps exactly the parent's, and a
/// merge into a parent without named types brings exactly the router's.
pub proof fn lemma_merge_named_types(
    parent: RouterBuilder,
    prefix: Seq<char>,
    router: RouterBuilder,
    res: RouterBuilder,
)
    requires
        parent.merged_into(prefix, router, res),
    ensures
        forall|n: Seq<char>| named_types(router.typ_store).count(n) <= #[trigger] named_types(res.typ_store).count(n),
        forall|n: Seq<char>| #[trigger] named_types(res.typ_store).count(n)
            <= named_types(router.typ_store).count(n) + named_types(parent.typ_store).count(n),
        named_types(parent.typ_store).len() <= named_types(res.typ_store).len(),
        named_types(router.typ_store).len() == 0 ==> named_types(res.typ_store) == named_types(
            parent.typ_store,
        ),
        named_types(parent.typ_store).len() == 0 ==> named_types(res.typ_store) == named_types(
            router.typ_store,
        ),
{
    let c = named_types(router.typ_store);
    let p = named_types(parent.typ_store);
    let r = named_types(res.typ_store);
    if c.len() == 0 {
        vstd::multiset::lemma_multiset_empty_len(c);
        assert(c.add(p) =~= p);
        lemma_sub_multiset_full(r, p);
    }
    if p.len() == 0 {
        vstd::multiset::lemma_multiset_empty_len(p);
        assert(c.add(p) =~= c);
        assert(r.sub(c).len() == r.len() - c.len());
        lemma_sub_multiset_full(r, c);
    }
}

impl RouterBuilder {
    /// No procedures, no middleware, no named types, default settings, and
    /// stores for queries, mutations and subscriptions.
    pub open spec fn empty(self) -> bool {
        &&& self.config.export_bindings_on_build is None
        &&& self.middleware@ == Seq::<u64>::empty()
        &&& self.queries@ == Map::<Seq<char>, Procedure>::empty()
        &&& self.mutations@ == Map::<Seq<char>, Procedure>::empty()
        &&& self.subscriptions@ == Map::<Seq<char>, Procedure>::empty()
        &&& self.queries.kind_view() == seq!['q', 'u', 'e', 'r', 'y']
        &&& self.mutations.kind_view() == seq!['m', 'u', 't', 'a', 't', 'i', 'o', 'n']
        &&& self.subscriptions.kind_view() == seq![
            's', 'u', 'b', 's', 'c', 'r', 'i', 'p', 't', 'i', 'o', 'n',
        ]
        &&& named_types(self.typ_store) == Multiset::<Seq<char>>::empty()
    }

    /// A builder with no procedures and no middleware.
    pub fn new() -> (res: Self)
        ensures
            res.empty(),
    {
        proof {
            reveal_strlit("query");
            reveal_strlit("mutation");
            reveal_strlit("subscription");
        }
        let res = RouterBuilder {
            config: Config::new(),
            middleware: Vec::new(),
            queries: ProcedureStore::new("query"),
            mutations: ProcedureStore::new("mutation"),
            subscriptions: ProcedureStore::new("subscription"),
            typ_store: types_default(),
        };
        assert(res.queries.kind_view() =~= seq!['q', 'u', 'e', 'r', 'y']);
        assert(res.mutations.kind_view() =~= seq!['m', 'u', 't', 'a', 't', 'i', 'o', 'n']);
        assert(res.subscriptions.kind_view() =~= seq![
            's', 'u', 'b', 's', 'c', 'r', 'i', 'p', 't', 'i', 'o', 'n',
        ]);
        res
    }

    /// The queries, for direct changes.
    pub fn queries(&mut self) -> (res: &mut ProcedureStore<Procedure>)
        ensures
            *res == old(self).queries,
            *final(self) == (RouterBuilder { queries: *final(res), ..*old(self) }),
    {
        &mut self.queries
    }

    /// The mutations, for direct changes.
    pub fn mutations(&mut self) -> (res: &mut ProcedureStore<Procedure>)
        ensures
            *res == old(self).mutations,
            *final(self) == (RouterBuilder { mutations: *final(res), ..*old(self) }),
    {
        &mut self.mutations
    }

    /// The subscriptions, for direct changes.
    pub fn subscriptions(&mut self) -> (res: &mut ProcedureStore<Procedure>)
        ensures
            *res == old(self).subscriptions,
            *final(self) == (RouterBuilder { subscriptions: *final(res), ..*old(self) }),
    {
        &mut self.subscriptions
    }

    /// The collection of named types, for direct changes.
    pub fn typ_store(&mut self) -> (res: &mut specta::Types)
        ensures
            *res == old(self).typ_store,
            *final(self) == (RouterBuilder { typ_store: *final(res), ..*old(self) }),
    {
        &mut self.typ_store
    }

    /// The middleware that new procedures are wrapped in, for direct changes.
    pub fn prev_middleware(&mut self) -> (res: &mut Vec<u64>)
        ensures
            *res == old(self).middleware,
            *final(self) == (RouterBuilder { middleware: *final(res), ..*old(self) }),
    {
        &mut self.middleware
    }

    /// Replaces the settings; a later call overwrites an earlier one.
    pub fn config(self, config: Config) -> (res: Self)
        ensures
            res == (RouterBuilder { config, ..self }),
    {
        let mut b = self;
        b.config = config;
        b
    }

    /// Wraps the procedures added from now on in one more middleware `mw`,
    /// inside the middleware already there.
    pub fn middleware(self, mw: u64) -> (res: Self)
        ensures
            res.middleware@ == self.middleware@.push(mw),
            res.config == self.config,
            res.queries == self.queries,
            res.mutations == self.mutations,
            res.subscriptions == self.subscriptions,
            res.typ_store == self.typ_store,
    {
        let mut b = self;
        b.middleware.push(mw);
        b
    }

    /// Adds the query `key`, which runs `resolver` inside the current
    /// middleware and is described by `ty`, stored under the key `key`.
    /// Refused when the name is not allowed or already taken by a query.
    pub fn query(self, key: &str, resolver: u64, ty: ProcedureDataType) -> (res: Result<
        Self,
        RouterError,
    >)
        ensures
            res is Ok <==> !invalid_procedure_name(key@) && !self.queries@.dom().contains(key@),
            res matches Ok(b) ==> procedures(b.queries@) == procedures(self.queries@).insert(
                key@,
                ProcedureView { resolver, middleware: self.middleware@, ty: described(key@, ty) },
            ) && b.queries.kind_view() == self.queries.kind_view() && b.mutations
                == self.mutations && b.subscriptions == self.subscriptions && b.config
                == self.config && b.middleware == self.middleware && b.typ_store
                == self.typ_store,
            res matches Err(e) ==> (invalid_procedure_name(key@) <==> e is InvalidProcedureName),
            res matches Err(RouterError::InvalidProcedureName { kind, key: k }) ==> k@ == key@
                && kind@ == self.queries.kind_view(),
            res matches Err(RouterError::DuplicateProcedure { kind, key: k }) ==> k@ == key@
                && kind@ == self.queries.kind_view(),
            !(res matches Err(RouterError::InvalidPrefix { .. })),
    {
        let mut b = self;
        match attach(&mut b.queries, &b.middleware, key, resolver, ty) {
            Ok(()) => Ok(b),
            Err(e) => Err(e),
        }
    }

    /// Adds the mutation `key`, which runs `resolver` inside the current
    /// middleware and is described by `ty`, stored under the key `key`.
    /// Refused when the name is not allowed or already taken by a mutation.
    pub fn mutation(self, key: &str, resolver: u64, ty: ProcedureDataType) -> (res: Result<
        Self,
        RouterError,
    >)
        ensures
            res is Ok <==> !invalid_procedure_name(key@) && !self.mutations@.dom().contains(key@),
            res matches Ok(b) ==> procedures(b.mutations@) == procedures(self.mutations@).insert(
                key@,
                ProcedureView { resolver, middleware: self.middleware@, ty: described(key@, ty) },
            ) && b.mutations.kind_view() == self.mutations.kind_view() && b.queries
                == self.queries && b.subscriptions == self.subscriptions && b.config
                == self.config && b.middleware == self.middleware && b.typ_store
                == self.typ_store,
            res matches Err(e) ==> (invalid_procedure_name(key@) <==> e is InvalidProcedureName),
            res matches Err(RouterError::InvalidProcedureName { kind, key: k }) ==> k@ == key@
                && kind@ == self.mutations.kind_view(),
            res matches Err(RouterError::DuplicateProcedure { kind, key: k }) ==> k@ == key@
                && kind@ == self.mutations.kind_view(),
            !(res matches Err(RouterError::InvalidPrefix { .. })),
    {
        let mut b = self;
        match attach(&mut b.mutations, &b.middleware, key, resolver, ty) {
            Ok(()) => Ok(b),
            Err(e) => Err(e),
        }
    }

    /// Adds the subscription `key`, which runs `resolver` inside the current
    /// middleware and is described by `ty`, stored under the key `key`.
    /// Refused when the name is not allowed or already taken by a subscription.
    pub fn subscription(self, key: &str, resolver: u64, ty: ProcedureDataType) -> (res: Result<
        Self,
        RouterError,
    >)
        ensures
            res is Ok <==> !invalid_procedure_name(key@) && !self.subscriptions@.dom().contains(
                key@,
            ),
            res matches Ok(b) ==> procedures(b.subscriptions@) == procedures(
                self.subscriptions@,
            ).insert(key@, ProcedureView { resolver, middleware: self.middleware@, ty: described(key@, ty) })
                && b.subscriptions.kind_view() == self.subscriptions.kind_view() && b.queries
                == self.queries && b.mutations == self.mutations && b.config == self.config
                && b.middleware == self.middleware && b.typ_store == self.typ_store,
            res matches Err(e) ==> (invalid_procedure_name(key@) <==> e is InvalidProcedureName),
            res matches Err(RouterError::InvalidProcedureName { kind, key: k }) ==> k@ == key@
                && kind@ == self.subscriptions.kind_view(),
            res matches Err(RouterError::DuplicateProcedure { kind, key: k }) ==> k@ == key@
                && kind@ == self.subscriptions.kind_view(),
            !(res matches Err(RouterError::InvalidPrefix { .. })),
    {
        let mut b = self;
        match attach(&mut b.subscriptions, &b.middleware, key, resolver, ty) {
            Ok(()) => Ok(b),
            Err(e) => Err(e),
        }
    }

    /// Whether `router`'s procedures, each put behind `prefix`, fit beside
    /// this builder's own, kind by kind.
    pub open spec fn merge_fits(self, prefix: Seq<char>, router: RouterBuilder) -> bool {
        &&& fits(procedures(self.queries@), prefix, procedures(router.queries@))
        &&& fits(procedures(self.mutations@), prefix, procedures(router.mutations@))
        &&& fits(procedures(self.subscriptions@), prefix, procedures(router.subscriptions@))
    }

    /// Merging `router` under `prefix` is refused for the procedure `key` of
    /// kind `kind`: queries are merged first, then mutations, then
    /// subscriptions, and the first kind whose merge does not fit is the one
    /// reported.
    pub open spec fn clashes_at(self, prefix: Seq<char>, router: RouterBuilder, kind: Seq<char>, key: Seq<char>) -> bool {
        ||| kind == self.queries.kind_view() && clash(
            procedures(self.queries@),
            prefix,
            procedures(router.queries@),
            key,
        )
        ||| fits(procedures(self.queries@), prefix, procedures(router.queries@)) && kind
            == self.mutations.kind_view() && clash(
            procedures(self.mutations@),
            prefix,
            procedures(router.mutations@),
            key,
        )
        ||| fits(procedures(self.queries@), prefix, procedures(router.queries@)) && fits(
            procedures(self.mutations@),
            prefix,
            procedures(router.mutations@),
        ) && kind == self.subscriptions.kind_view() && clash(
            procedures(self.subscriptions@),
            prefix,
            procedures(router.subscriptions@),
            key,
        )
    }

    /// `res` holds this builder's procedures and, of each kind, `router`'s
    /// procedures under `prefix` wrapped in this builder's middleware.
    pub open spec fn merged_into(self, prefix: Seq<char>, router: RouterBuilder, res: RouterBuilder) -> bool {
        &&& procedures(res.queries@) == merged(
            procedures(self.queries@),
            prefix,
            procedures(router.queries@),
            self.middleware@,
        )
        &&& procedures(res.mutations@) == merged(
            procedures(self.mutations@),
            prefix,
            procedures(router.mutations@),
            self.middleware@,
        )
        &&& procedures(res.subscriptions@) == merged(
            procedures(self.subscriptions@),
            prefix,
            procedures(router.subscriptions@),
            self.middleware@,
        )
        &&& res.queries.kind_view() == self.queries.kind_view()
        &&& res.mutations.kind_view() == self.mutations.kind_view()
        &&& res.subscriptions.kind_view() == self.subscriptions.kind_view()
        &&& named_types(router.typ_store).subset_of(named_types(res.typ_store))
        &&& named_types(res.typ_store).subset_of(
            named_types(router.typ_store).add(named_types(self.typ_store)),
        )
        &&& named_types(self.typ_store).len() <= named_types(res.typ_store).len()
    }

    /// Adds all procedures of `router`, each under `prefix` followed by its
    /// key and wrapped in this builder's middleware, and the named types of
    /// `router`. Refused when a resulting key is already taken.
    pub fn merge(self, prefix: &str, router: RouterBuilder) -> (res: Result<Self, RouterError>)
        ensures
            res is Ok <==> self.merge_fits(prefix@, router),
            res matches Ok(b) ==> self.merged_into(prefix@, router, b) && b.config == self.config
                && b.middleware == self.middleware,
            res matches Err(e) ==> e is DuplicateProcedure,
            res matches Err(RouterError::DuplicateProcedure { kind, key }) ==> self.clashes_at(
                prefix@,
                router,
                kind@,
                key@,
            ),
    {
        let RouterBuilder {
            config,
            middleware,
            mut queries,
            mut mutations,
            mut subscriptions,
            typ_store,
        } = self;
        let router = router.expose();
        let RouterBuilder {
            queries: r_queries,
            mutations: r_mutations,
            subscriptions: r_subscriptions,
            typ_store: r_types,
            ..
        } = router;
        match merge_store(&mut queries, prefix, &middleware, r_queries) {
            Ok(()) => {},
            Err(e) => {
                return Err(e);
            },
        }
        match merge_store(&mut mutations, prefix, &middleware, r_mutations) {
            Ok(()) => {},
            Err(e) => {
                return Err(e);
            },
        }
        match merge_store(&mut subscriptions, prefix, &middleware, r_subscriptions) {
            Ok(()) => {},
            Err(e) => {
                return Err(e);
            },
        }
        let typ_store = merge_types(typ_store, &r_types);
        Ok(RouterBuilder { config, middleware, queries, mutations, subscriptions, typ_store })
    }

    /// Merging by the rules of earlier releases: the prefix is normalized to
    /// end in `.` and checked; then `router`'s procedures are added as by
    /// `merge` under the normalized prefix, and the builder's middleware
    /// becomes its own followed by `router`'s.
    pub fn legacy_merge(self, prefix: &str, router: RouterBuilder) -> (res: Result<
        Self,
        RouterError,
    >)
        ensures
            res is Ok <==> !invalid_normalized_prefix(normalized_prefix(prefix@))
                && self.merge_fits(normalized_prefix(prefix@), router),
            invalid_normalized_prefix(normalized_prefix(prefix@)) <==> (res matches Err(
                RouterError::InvalidPrefix { .. },
            )),
            res matches Err(RouterError::InvalidPrefix { prefix: p, deprecated_dot }) ==> p@
                == normalized_prefix(prefix@) && deprecated_dot == (prefix@.len() > 0
                && prefix@.last() == '.'),
            res matches Ok(b) ==> self.merged_into(normalized_prefix(prefix@), router, b)
                && b.config == self.config && b.middleware@ == self.middleware@
                + router.middleware@,
            res matches Err(RouterError::DuplicateProcedure { kind, key }) ==> self.clashes_at(
                normalized_prefix(prefix@),
                router,
                kind@,
                key@,
            ),
            !(res matches Err(RouterError::InvalidProcedureName { .. })),
    {
        let router = router.expose();
        let deprecated_dot = ends_with_dot(prefix);
        let (prefix, prefix_invalid) = is_invalid_router_prefix(prefix);
        if prefix_invalid {
            return Err(RouterError::InvalidPrefix { prefix, deprecated_dot });
        }
        let RouterBuilder {
            config,
            middleware,
            mut queries,
            mut mutations,
            mut subscriptions,
            typ_store,
        } = self;
        let RouterBuilder {
            middleware: r_middleware,
            queries: r_queries,
            mutations: r_mutations,
            subscriptions: r_subscriptions,
            typ_store: r_types,
            ..
        } = router;
        match merge_store(&mut queries, prefix.as_str(), &middleware, r_queries) {
            Ok(()) => {},
            Err(e) => {
                return Err(e);
            },
        }
        match merge_store(&mut mutations, prefix.as_str(), &middleware, r_mutations) {
            Ok(()) => {},
            Err(e) => {
                return Err(e);
            },
        }
        match merge_store(&mut subscriptions, prefix.as_str(), &middleware, r_subscriptions) {
            Ok(()) => {},
            Err(e) => {
                return Err(e);
            },
        }
        let typ_store = merge_types(typ_store, &r_types);
        let middleware = concat_middleware(&middleware, &r_middleware);
        Ok(RouterBuilder { config, middleware, queries, mutations, subscriptions, typ_store })
    }

    /// The router with this builder's settings, procedures and named types.
    /// Writing the bindings to `config.export_bindings_on_build`, when set,
    /// is left to the caller.
    pub fn build(self) -> (res: Router)
        ensures
            res.config == self.config,
            res.queries == self.queries,
            res.mutations == self.mutations,
            res.subscriptions == self.subscriptions,
            res.typ_store == self.typ_store,
    {
        let RouterBuilder { config, queries, mutations, subscriptions, typ_store, .. } = self;
        Router { config, queries, mutations, subscriptions, typ_store }
    }
}

} // verus!
