# rspc_router

A verified core for an RPC router that serves typed procedures (queries,
mutations, subscriptions) to desktop-application windows.

- `src/naming.rs`: which procedure names and router prefixes are refused.
- `src/procedure_store.rs`: a store of procedures under distinct keys.
- `src/datatype.rs`: procedure descriptions and the `specta` type collection.
- `src/router_builder.rs`: the router builder: adding procedures, middleware,
  merging routers under a prefix, building.
- `src/integrations/tauri.rs`: the window plugin's decisions: which windows
  are open, which subscriptions they run, what a page load or a close request
  stops, how an event's payload is read, where responses go.
- `app/`: the runtime around it: resolver and middleware code, process exit on
  refused names, writing TypeScript bindings, and running the plugin's loop.
- `tests/`: tests of the library.
