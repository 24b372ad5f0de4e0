use rspc_router::integrations::tauri::{
    decode_payload, plugin, plugin_with_ctx, request_event, resolve_payload, response_event,
    same_request_id, JsonShape, PageLoad, PayloadError, Registration, RequestId,
    SubscriptionUpgrade, TauriOwnedSender, TauriSender, WindowEvent, WindowManager,
};

fn ids(v: &[RequestId]) -> Vec<String> {
    v.iter()
        .map(|id| match id {
            RequestId::Null => "null".to_string(),
            RequestId::Number(n) => n.to_string(),
            RequestId::String(s) => s.clone(),
        })
        .collect()
}

#[test]
fn request_ids_compare_by_value() {
    assert!(same_request_id(&RequestId::Null, &RequestId::Null));
    assert!(same_request_id(&RequestId::Number(3), &RequestId::Number(3)));
    assert!(!same_request_id(&RequestId::Number(3), &RequestId::Number(4)));
    assert!(same_request_id(&RequestId::String("a".into()), &RequestId::String("a".into())));
    assert!(!same_request_id(&RequestId::String("3".into()), &RequestId::Number(3)));
    assert!(!same_request_id(&RequestId::Null, &RequestId::Number(0)));
}

#[test]
fn first_page_load_listens() {
    let mut m = WindowManager::new();
    assert!(matches!(m.on_page_load(1), PageLoad::Listen));
    assert!(matches!(m.on_page_load(2), PageLoad::Listen));
}

#[test]
fn reload_stops_the_subscriptions() {
    let mut m = WindowManager::new();
    m.on_page_load(1);
    m.on_page_load(2);
    assert!(matches!(m.register_subscription(1, RequestId::Number(5)), Registration::Added));
    assert!(matches!(m.register_subscription(1, RequestId::String("s".into())), Registration::Added));
    assert!(matches!(m.register_subscription(2, RequestId::Number(9)), Registration::Added));
    match m.on_page_load(1) {
        PageLoad::Reload(stopped) => assert_eq!(ids(&stopped), vec!["5", "s"]),
        PageLoad::Listen => panic!("window 1 was open"),
    }
    match m.on_page_load(1) {
        PageLoad::Reload(stopped) => assert!(stopped.is_empty()),
        PageLoad::Listen => panic!("window 1 was open"),
    }
    match m.close_requested(2) {
        Some(stopped) => assert_eq!(ids(&stopped), vec!["9"]),
        None => panic!("window 2 was open"),
    }
}

#[test]
fn close_forgets_the_window() {
    let mut m = WindowManager::new();
    m.on_page_load(4);
    m.register_subscription(4, RequestId::Null);
    assert_eq!(ids(&m.close_requested(4).unwrap()), vec!["null"]);
    assert!(m.close_requested(4).is_none());
    assert!(matches!(m.on_page_load(4), PageLoad::Listen));
}

#[test]
fn closing_an_unknown_window_does_nothing() {
    let mut m = WindowManager::new();
    m.on_page_load(1);
    assert!(m.close_requested(2).is_none());
    assert!(matches!(m.on_page_load(1), PageLoad::Reload(_)));
}

#[test]
fn registration_rules() {
    let mut m = WindowManager::new();
    assert!(matches!(m.register_subscription(1, RequestId::Number(1)), Registration::UnknownWindow));
    m.on_page_load(1);
    assert!(matches!(m.register_subscription(1, RequestId::Number(1)), Registration::Added));
    assert!(matches!(m.register_subscription(1, RequestId::Number(1)), Registration::Replaced));
    assert_eq!(ids(&m.close_requested(1).unwrap()), vec!["1"]);
}

#[test]
fn register_then_remove_restores() {
    let mut m = WindowManager::new();
    m.on_page_load(1);
    m.register_subscription(1, RequestId::Number(1));
    m.register_subscription(1, RequestId::Number(2));
    assert!(m.remove_subscription(1, &RequestId::Number(2)));
    assert!(!m.remove_subscription(1, &RequestId::Number(2)));
    assert!(!m.remove_subscription(3, &RequestId::Number(1)));
    assert_eq!(ids(&m.close_requested(1).unwrap()), vec!["1"]);
}

#[test]
fn plugins_are_named_rspc() {
    let p = plugin();
    assert_eq!(p.name, "rspc");
    assert!(!p.context_from_window);
    let q = plugin_with_ctx();
    assert_eq!(q.name, "rspc");
    assert!(q.context_from_window);
}

#[test]
fn plugin_routes_window_events() {
    let mut p = plugin();
    assert!(matches!(p.on_page_load(1), PageLoad::Listen));
    p.windows.register_subscription(1, RequestId::Number(3));
    assert!(p.on_window_event(1, WindowEvent::Other).is_none());
    assert_eq!(ids(&p.on_window_event(1, WindowEvent::CloseRequested).unwrap()), vec!["3"]);
    assert!(p.on_window_event(1, WindowEvent::CloseRequested).is_none());
    assert!(matches!(p.on_page_load(1), PageLoad::Listen));
}

#[test]
fn event_names() {
    assert_eq!(request_event(), "plugin:rspc:transport");
    assert_eq!(response_event(), "plugin:rspc:transport:resp");
}

#[test]
fn senders_emit_to_their_window() {
    let e = TauriSender { window: 7 }.send(42u32);
    assert_eq!(e.window, 7);
    assert_eq!(e.event, "plugin:rspc:transport:resp");
    assert_eq!(e.payload, 42);
    match (TauriSender { window: 8 }).subscription() {
        SubscriptionUpgrade::Supported(mut owned, w) => {
            assert_eq!(w, 8);
            assert_eq!(owned.window, 8);
            let e = owned.send("x");
            assert_eq!(e.window, 8);
            assert_eq!(e.event, "plugin:rspc:transport:resp");
            assert_eq!(e.payload, "x");
        }
        SubscriptionUpgrade::Unsupported(_) => panic!("subscriptions are served"),
    }
    let mut owned = TauriOwnedSender { window: 2 };
    assert_eq!(owned.send(1u8).window, 2);
    assert_eq!(owned.window, 2);
}

#[test]
fn payload_missing() {
    assert!(matches!(decode_payload(None), Err(PayloadError::Empty)));
}

#[test]
fn payload_single_request() {
    let text = r#"{"jsonrpc":"2.0","id":1,"method":"query","params":{"path":"version"}}"#;
    let d = decode_payload(Some(text)).unwrap();
    assert_eq!(d.json, text);
    assert!(!d.batch);
}

#[test]
fn payload_batch() {
    let text = r#"[{"id":1},{"id":2}]"#;
    let d = decode_payload(Some(text)).unwrap();
    assert_eq!(d.json, text);
    assert!(d.batch);
}

#[test]
fn payload_wrapped_in_a_string() {
    let text = r#""[{\"id\":1}]""#;
    let d = decode_payload(Some(text)).unwrap();
    assert_eq!(d.json, r#"[{"id":1}]"#);
    assert!(d.batch);
    let text = r#""{\"id\":1}""#;
    let d = decode_payload(Some(text)).unwrap();
    assert_eq!(d.json, r#"{"id":1}"#);
    assert!(!d.batch);
}

#[test]
fn payload_malformed() {
    assert!(matches!(decode_payload(Some("{")), Err(PayloadError::Malformed)));
    assert!(matches!(decode_payload(Some(r#""not json""#)), Err(PayloadError::Malformed)));
}

#[test]
fn resolve_on_given_shapes() {
    let d = resolve_payload("x".into(), Some(JsonShape::Array), None).unwrap();
    assert_eq!(d.json, "x");
    assert!(d.batch);
    let d = resolve_payload("x".into(), Some(JsonShape::Other), Some(JsonShape::Array)).unwrap();
    assert_eq!(d.json, "x");
    assert!(!d.batch);
    let d = resolve_payload("x".into(), Some(JsonShape::Text("y".into())), Some(JsonShape::Array))
        .unwrap();
    assert_eq!(d.json, "y");
    assert!(d.batch);
    let d = resolve_payload("x".into(), Some(JsonShape::Text("y".into())), Some(JsonShape::Other))
        .unwrap();
    assert_eq!(d.json, "y");
    assert!(!d.batch);
    assert!(matches!(
        resolve_payload("x".into(), Some(JsonShape::Text("y".into())), None),
        Err(PayloadError::Malformed)
    ));
    assert!(matches!(resolve_payload("x".into(), None, None), Err(PayloadError::Malformed)));
}

#[test]
fn rewrapped_payload_reads_alike() {
    for inner in [r#"[{"id":1}]"#, r#"{"id":1}"#, "{"] {
        let outer = serde_json::to_string(inner).unwrap();
        let a = decode_payload(Some(inner));
        let b = decode_payload(Some(&outer));
        match (a, b) {
            (Ok(a), Ok(b)) => {
                assert_eq!(a.json, b.json);
                assert_eq!(a.batch, b.batch);
            }
            (Err(PayloadError::Malformed), Err(PayloadError::Malformed)) => {}
            _ => panic!("read differently: {:?}", inner),
        }
    }
}

#[test]
fn repeated_page_loads_listen_once() {
    let mut m = WindowManager::new();
    let mut listens = 0;
    for _ in 0..5 {
        if matches!(m.on_page_load(3), PageLoad::Listen) {
            listens += 1;
        }
    }
    assert_eq!(listens, 1);
    assert!(m.close_requested(3).is_some());
    assert!(m.close_requested(3).is_none());
}
