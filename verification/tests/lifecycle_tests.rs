use render_api::handshake::InitDisposition;
use render_api::lifecycle::{
    interpret_reconnect_reply, normalize_reply, ClientContext, EntryPoints, Phase, RawReply,
    ReconnectOutcome,
};
use render_api::stub;

fn all_entries() -> EntryPoints {
    EntryPoints {
        push_state: true,
        init: true,
        disconnect: true,
        reconnect: true,
        frame_callback: true,
        user_callback: true,
        attribute_resolver: true,
    }
}

fn handshake_meta() -> render_api::handshake::IncomingMetadata {
    render_api::handshake::IncomingMetadata {
        client_version: 0,
        supported_versions: vec![0],
        supported_extensions: vec![],
        enabled_extensions: vec![],
        extension_metadata: vec![],
    }
}

#[test]
fn reconnect_outcomes_are_distinguishable() {
    // The three reconnect replies map to three mutually distinct
    // outcomes: success, error message, and the re-init order.
    let ok = interpret_reconnect_reply(RawReply::Null);
    let empty = interpret_reconnect_reply(RawReply::Text(vec![]));
    let err = interpret_reconnect_reply(RawReply::Text(b"device lost".to_vec()));
    let reinit = interpret_reconnect_reply(RawReply::Negative);

    assert!(matches!(ok, ReconnectOutcome::Resumed));
    assert!(matches!(empty, ReconnectOutcome::Resumed));
    match err {
        ReconnectOutcome::Failed(m) => assert_eq!(m, b"device lost".to_vec()),
        _ => panic!("a non-empty message is the error outcome"),
    }
    assert!(matches!(reinit, ReconnectOutcome::ReinitRequired));
}

#[test]
fn empty_message_means_success() {
    assert_eq!(normalize_reply(None), None);
    assert_eq!(normalize_reply(Some(vec![])), None);
    assert_eq!(normalize_reply(Some(b"oops".to_vec())), Some(b"oops".to_vec()));
}

#[test]
fn missing_disconnect_entry_is_a_noop() {
    // A module without the optional disconnect entry point: disconnecting
    // is a silent no-op that reports no error.
    let mut entries = all_entries();
    entries.disconnect = false;

    let mut ctx = ClientContext::new();
    assert!(ctx.on_module_loaded(entries));
    let d = ctx.on_handshake_result(stub::expr_init(&handshake_meta()));
    assert_eq!(d, InitDisposition::Ready);
    ctx.activate();

    assert!(!ctx.request_disconnect());
    let err = ctx.complete_disconnect(None);
    assert_eq!(err, None);
    assert_eq!(ctx.phase(), Phase::Suspended);
}

#[test]
fn load_fails_without_required_push_state() {
    let mut entries = all_entries();
    entries.push_state = false;
    let mut ctx = ClientContext::new();
    assert!(!ctx.on_module_loaded(entries));
    assert_eq!(ctx.phase(), Phase::Unloaded);
}

#[test]
fn unusable_handshake_keeps_context_loaded() {
    let mut ctx = ClientContext::new();
    assert!(ctx.on_module_loaded(all_entries()));
    // The stub shares no version with a client that only speaks 9.
    let bad = stub::expr_init(&render_api::handshake::IncomingMetadata {
        client_version: 0,
        supported_versions: vec![9],
        supported_extensions: vec![],
        enabled_extensions: vec![],
        extension_metadata: vec![],
    });
    let d = ctx.on_handshake_result(bad);
    assert_eq!(d, InitDisposition::Unusable);
    assert_eq!(ctx.phase(), Phase::Loaded);
    assert_eq!(ctx.negotiated_version(), None);
}

#[test]
fn full_lifecycle_with_stub_server() {
    let mut ctx = ClientContext::new();
    assert!(ctx.on_module_loaded(all_entries()));
    assert_eq!(ctx.phase(), Phase::Loaded);

    let d = ctx.on_handshake_result(stub::expr_init(&handshake_meta()));
    assert_eq!(d, InitDisposition::Ready);
    assert_eq!(ctx.phase(), Phase::Negotiated);
    assert_eq!(ctx.negotiated_version(), Some(0));
    let token = ctx.handle_token().expect("a session exists");

    ctx.activate();
    assert!(ctx.can_push());

    // The stub accepts both callback registrations without error.
    assert_eq!(stub::expr_frame_callback(token), None);
    assert_eq!(stub::expr_user_callback(token), None);

    let state = render_api::state::State::empty(
        render_api::state::RenderContext::WorldTraversal,
        render_api::attr::AttributeSet::new(),
    );
    let reply = stub::expr_push_state(token, &state);
    assert_eq!(normalize_reply(reply), None);

    // Suspend, then resume through reconnect.
    assert!(ctx.request_disconnect());
    let err = ctx.complete_disconnect(stub::expr_disconnect(token));
    assert_eq!(err, None);
    assert_eq!(ctx.phase(), Phase::Suspended);

    assert!(ctx.request_reconnect());
    let outcome = ctx.complete_reconnect(stub::expr_reconnect(token));
    assert!(matches!(outcome, ReconnectOutcome::Resumed));
    assert_eq!(ctx.phase(), Phase::Active);

    // Tear down for good.
    assert!(ctx.request_disconnect());
    ctx.complete_disconnect(stub::expr_disconnect(token));
    ctx.shut_down();
    assert_eq!(ctx.phase(), Phase::Disconnected);
    assert_eq!(ctx.handle_token(), None);
}

#[test]
fn reinit_sentinel_sends_caller_back_to_handshake() {
    let mut ctx = ClientContext::new();
    assert!(ctx.on_module_loaded(all_entries()));
    let d = ctx.on_handshake_result(stub::expr_init(&handshake_meta()));
    assert_eq!(d, InitDisposition::Ready);
    ctx.activate();
    assert!(ctx.request_disconnect());
    ctx.complete_disconnect(None);

    let outcome = ctx.complete_reconnect(RawReply::Negative);
    assert!(matches!(outcome, ReconnectOutcome::ReinitRequired));
    // Back before the handshake: the session is gone.
    assert_eq!(ctx.phase(), Phase::Loaded);
    assert_eq!(ctx.negotiated_version(), None);

    // The handshake can be redone.
    let d = ctx.on_handshake_result(stub::expr_init(&handshake_meta()));
    assert_eq!(d, InitDisposition::Ready);
    assert_eq!(ctx.phase(), Phase::Negotiated);
}

#[test]
fn failed_reconnect_leaves_context_suspended() {
    let mut ctx = ClientContext::new();
    assert!(ctx.on_module_loaded(all_entries()));
    ctx.on_handshake_result(stub::expr_init(&handshake_meta()));
    ctx.activate();
    assert!(ctx.request_disconnect());
    ctx.complete_disconnect(None);

    let outcome = ctx.complete_reconnect(RawReply::Text(b"busy".to_vec()));
    match outcome {
        ReconnectOutcome::Failed(m) => assert_eq!(m, b"busy".to_vec()),
        _ => panic!("a non-empty message is the error outcome"),
    }
    assert_eq!(ctx.phase(), Phase::Suspended);
    // Still resumable afterwards.
    let outcome = ctx.complete_reconnect(RawReply::Null);
    assert!(matches!(outcome, ReconnectOutcome::Resumed));
    assert_eq!(ctx.phase(), Phase::Active);
}
