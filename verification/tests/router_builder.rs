use rspc_router::datatype::{typedef, ProcedureDataType};
use rspc_router::router_builder::{Config, Router, RouterBuilder, RouterBuilderLike, RouterError};
use specta::Type;

fn ty(key: &str) -> ProcedureDataType {
    let mut types = specta::Types::default();
    let input = <i32 as Type>::definition(&mut types);
    let result = <String as Type>::definition(&mut types);
    typedef(key, input, result).unwrap()
}

fn query_keys(b: &mut RouterBuilder) -> Vec<String> {
    let store = std::mem::replace(b.queries(), rspc_router::procedure_store::ProcedureStore::new("query"));
    let mut keys: Vec<String> = store.into_entries().into_iter().map(|(k, _)| k).collect();
    keys.sort();
    keys
}

#[test]
fn typedef_keeps_its_parts() {
    let mut types = specta::Types::default();
    let input = <i32 as Type>::definition(&mut types);
    let result = <String as Type>::definition(&mut types);
    let t = typedef("getUser", input.clone(), result.clone()).unwrap();
    assert_eq!(t.key, "getUser");
    assert_eq!(t.input, input);
    assert_eq!(t.result, result);
}

#[test]
fn new_builder_is_empty() {
    let b = Router::new();
    assert_eq!(b.queries.len(), 0);
    assert_eq!(b.mutations.len(), 0);
    assert_eq!(b.subscriptions.len(), 0);
    assert_eq!(b.queries.kind(), "query");
    assert_eq!(b.mutations.kind(), "mutation");
    assert_eq!(b.subscriptions.kind(), "subscription");
    assert!(b.middleware.is_empty());
    assert!(b.config.export_bindings_on_build.is_none());
    assert_eq!(b.typ_store.len(), 0);
}

#[test]
fn query_is_registered_with_current_middleware() {
    let b = RouterBuilder::new().middleware(7).middleware(8);
    let b = b.query("version", 1, ty("version")).unwrap();
    let p = b.queries.get(&"version".to_string()).unwrap();
    assert_eq!(p.layer.resolver, 1);
    assert_eq!(p.layer.middleware, vec![7, 8]);
    assert_eq!(p.ty.key, "version");
    assert_eq!(b.mutations.len(), 0);
}

#[test]
fn mutation_and_subscription_are_registered() {
    let b = RouterBuilder::new()
        .mutation("setName", 2, ty("setName"))
        .unwrap()
        .subscription("pings", 3, ty("pings"))
        .unwrap();
    assert_eq!(b.mutations.get(&"setName".to_string()).unwrap().layer.resolver, 2);
    assert_eq!(b.subscriptions.get(&"pings".to_string()).unwrap().layer.resolver, 3);
    assert_eq!(b.queries.len(), 0);
}

#[test]
fn invalid_procedure_name_is_refused() {
    match RouterBuilder::new().query("rpc.version", 1, ty("rpc.version")) {
        Err(RouterError::InvalidProcedureName { kind, key }) => {
            assert_eq!(kind, "query");
            assert_eq!(key, "rpc.version");
        }
        _ => panic!("expected an invalid name"),
    }
    match RouterBuilder::new().subscription("ws", 1, ty("ws")) {
        Err(RouterError::InvalidProcedureName { kind, .. }) => assert_eq!(kind, "subscription"),
        _ => panic!("expected an invalid name"),
    }
}

#[test]
fn duplicate_procedure_is_refused() {
    let b = RouterBuilder::new().mutation("save", 1, ty("save")).unwrap();
    match b.mutation("save", 2, ty("save")) {
        Err(RouterError::DuplicateProcedure { kind, key }) => {
            assert_eq!(kind, "mutation");
            assert_eq!(key, "save");
        }
        _ => panic!("expected a duplicate"),
    }
}

#[test]
fn same_name_in_two_kinds_is_fine() {
    let b = RouterBuilder::new()
        .query("user", 1, ty("user"))
        .unwrap()
        .mutation("user", 2, ty("user"))
        .unwrap();
    assert_eq!(b.queries.len(), 1);
    assert_eq!(b.mutations.len(), 1);
}

#[test]
fn merge_prefixes_and_wraps() {
    let child = RouterBuilder::new()
        .middleware(5)
        .query("list", 10, ty("list"))
        .unwrap()
        .subscription("changes", 11, ty("changes"))
        .unwrap();
    let parent = RouterBuilder::new()
        .middleware(1)
        .query("version", 2, ty("version"))
        .unwrap();
    let mut merged = parent.merge("users.", child).unwrap();
    let p = merged.queries.get(&"users.list".to_string()).unwrap();
    assert_eq!(p.layer.resolver, 10);
    assert_eq!(p.layer.middleware, vec![1, 5]);
    let s = merged.subscriptions.get(&"users.changes".to_string()).unwrap();
    assert_eq!(s.layer.middleware, vec![1, 5]);
    assert_eq!(merged.middleware, vec![1]);
    assert_eq!(query_keys(&mut merged), vec!["users.list".to_string(), "version".to_string()]);
}

#[test]
fn merge_takes_the_prefix_as_given() {
    let child = RouterBuilder::new().query("list", 10, ty("list")).unwrap();
    let merged = RouterBuilder::new().merge("users", child).unwrap();
    assert!(merged.queries.get(&"userslist".to_string()).is_some());
}

#[test]
fn merge_with_clash_is_refused() {
    let first = RouterBuilder::new().query("list", 1, ty("list")).unwrap();
    let child = RouterBuilder::new().query("list", 10, ty("list")).unwrap();
    let parent = RouterBuilder::new().merge("a.", first).unwrap();
    match parent.merge("a.", child) {
        Err(RouterError::DuplicateProcedure { kind, key }) => {
            assert_eq!(kind, "query");
            assert_eq!(key, "a.list");
        }
        _ => panic!("expected a clash"),
    }
}

#[test]
fn merge_clash_in_a_later_kind_names_that_kind() {
    let first = RouterBuilder::new().subscription("feed", 1, ty("feed")).unwrap();
    let child = RouterBuilder::new()
        .query("list", 2, ty("list"))
        .unwrap()
        .subscription("feed", 3, ty("feed"))
        .unwrap();
    let parent = RouterBuilder::new().merge("n.", first).unwrap();
    match parent.merge("n.", child) {
        Err(RouterError::DuplicateProcedure { kind, key }) => {
            assert_eq!(kind, "subscription");
            assert_eq!(key, "n.feed");
        }
        _ => panic!("expected a clash"),
    }
}

#[test]
fn merging_nothing_changes_nothing() {
    let parent = RouterBuilder::new().query("version", 2, ty("version")).unwrap();
    let mut merged = parent.merge("x.", RouterBuilder::new()).unwrap();
    assert_eq!(query_keys(&mut merged), vec!["version".to_string()]);
    assert_eq!(merged.mutations.len(), 0);
}

#[test]
fn merge_brings_named_types() {
    let mut child = RouterBuilder::new();
    let _ = <std::time::Duration as Type>::definition(child.typ_store());
    assert_eq!(child.typ_store.len(), 1);
    let merged = RouterBuilder::new().merge("c.", child).unwrap();
    assert_eq!(merged.typ_store.len(), 1);
}

#[test]
fn legacy_merge_merges_under_the_normalized_prefix() {
    for prefix in ["users", "users."] {
        let child = RouterBuilder::new()
            .middleware(9)
            .query("get", 10, ty("get"))
            .unwrap();
        let parent = RouterBuilder::new()
            .config(Config { export_bindings_on_build: Some("b.ts".to_string()) })
            .middleware(1);
        let mut merged = parent.legacy_merge(prefix, child).unwrap();
        assert_eq!(query_keys(&mut merged), vec!["users.get".to_string()]);
        assert_eq!(merged.mutations.len(), 0);
        assert_eq!(merged.subscriptions.len(), 0);
        assert_eq!(merged.middleware, vec![1, 9]);
        assert_eq!(merged.config.export_bindings_on_build.as_deref(), Some("b.ts"));
    }
}

#[test]
fn legacy_merge_wraps_in_the_parents_middleware() {
    let child = RouterBuilder::new().middleware(9).query("get", 10, ty("get")).unwrap();
    let merged = RouterBuilder::new().middleware(1).legacy_merge("users", child).unwrap();
    let p = merged.queries.get(&"users.get".to_string()).unwrap();
    assert_eq!(p.layer.middleware, vec![1, 9]);
    assert_eq!(p.ty.key, "get");
}

#[test]
fn legacy_merge_refuses_bad_prefixes() {
    for (prefix, normalized, dot) in
        [("ws", "ws.", false), ("rpc.", "rpc.", true), ("", ".", false), ("a.b", "a.b.", false)]
    {
        let child = RouterBuilder::new().query("list", 10, ty("list")).unwrap();
        match RouterBuilder::new().legacy_merge(prefix, child) {
            Err(RouterError::InvalidPrefix { prefix: p, deprecated_dot }) => {
                assert_eq!(p, normalized);
                assert_eq!(deprecated_dot, dot);
            }
            _ => panic!("legacy merge accepted {:?}", prefix),
        }
    }
}

#[test]
fn legacy_merge_with_clash_is_refused() {
    let first = RouterBuilder::new().mutation("set", 1, ty("set")).unwrap();
    let child = RouterBuilder::new().mutation("set", 2, ty("set")).unwrap();
    let parent = RouterBuilder::new().legacy_merge("m", first).unwrap();
    match parent.legacy_merge("m", child) {
        Err(RouterError::DuplicateProcedure { kind, key }) => {
            assert_eq!(kind, "mutation");
            assert_eq!(key, "m.set");
        }
        _ => panic!("expected a clash"),
    }
}

#[test]
fn description_is_stored_under_the_procedure_key() {
    let b = RouterBuilder::new().query("version", 1, ty("somethingElse")).unwrap();
    assert_eq!(b.queries.get(&"version".to_string()).unwrap().ty.key, "version");
}

#[test]
fn config_is_overwritten() {
    let first = Config { export_bindings_on_build: Some("a.ts".to_string()) };
    let second = Config { export_bindings_on_build: Some("b.ts".to_string()) };
    let b = RouterBuilder::new().config(first).config(second);
    assert_eq!(b.config.export_bindings_on_build.as_deref(), Some("b.ts"));
    assert!(Config::new().export_bindings_on_build.is_none());
}

#[test]
fn build_keeps_everything() {
    let b = RouterBuilder::new()
        .config(Config { export_bindings_on_build: Some("bindings.ts".to_string()) })
        .query("version", 1, ty("version"))
        .unwrap();
    let router = b.build();
    assert_eq!(router.queries.len(), 1);
    assert!(router.queries.get(&"version".to_string()).is_some());
    assert_eq!(router.config.export_bindings_on_build.as_deref(), Some("bindings.ts"));
}

#[test]
fn accessors_give_the_parts() {
    let mut b = RouterBuilder::new().middleware(3);
    b.prev_middleware().push(4);
    assert_eq!(b.middleware, vec![3, 4]);
    assert!(b.mutations().append("m".to_string(), {
        let exec = rspc_router::router_builder::Layer { resolver: 9, middleware: vec![] };
        rspc_router::router_builder::Procedure { layer: exec, ty: ty("m") }
    }).is_ok());
    assert_eq!(b.mutations.len(), 1);
    assert_eq!(b.subscriptions().len(), 0);
    let b = b.expose();
    assert_eq!(b.middleware, vec![3, 4]);
}
