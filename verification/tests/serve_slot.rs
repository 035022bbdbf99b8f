use iroh_http::error::ErrorCode;
use iroh_http::fetch::self_route;
use iroh_http::serve_slot::{
    AttachAction, CloseStep, DrainWait, Registered, ServeHandle, ServeSlot,
};

#[test]
fn a_new_cycle_replaces_the_old_one_and_its_local_service() {
    let mut slot = ServeSlot::new();
    let first = slot.next_serve_token();
    assert_eq!(first.get(), 1);
    assert!(slot.set_serve_handle(first));
    assert_eq!(slot.register_serve_handle(first), Registered::Installed { replaced: None });
    assert_eq!(slot.register_serve_handle(first), Registered::AlreadyCurrent);
    assert!(!slot.set_serve_handle(first));
    assert!(slot.set_local_service_for(first, false));
    assert_eq!(slot.local_service(), Some(first));

    let second = slot.next_serve_token();
    assert!(second.get() > first.get());
    assert_eq!(
        slot.register_serve_handle(second),
        Registered::Installed { replaced: Some(first) }
    );
    assert_eq!(slot.local_service(), None);
    assert!(!slot.set_local_service_for(first, false));
    assert!(!slot.set_local_service_for(second, true));
    assert!(slot.set_local_service_for(second, false));
    assert_eq!(slot.stop_serve(), Some(second));
    assert_eq!((slot.local_service(), slot.stopped), (None, 2));
}

#[test]
fn a_fetch_to_oneself_needs_a_service() {
    let mut slot = ServeSlot::new();
    assert_eq!(self_route(&slot).unwrap_err().code, ErrorCode::ConnectionFailed);
    let token = slot.next_serve_token();
    slot.register_serve_handle(token);
    slot.set_local_service_for(token, false);
    assert_eq!(self_route(&slot).unwrap(), token);
    slot.clear_local_service();
    assert!(self_route(&slot).is_err());
}

#[test]
fn closing_ends_with_the_transport() {
    let mut slot = ServeSlot::new();
    let token = slot.next_serve_token();
    slot.register_serve_handle(token);
    let mut forced = slot;
    assert_eq!(
        slot.close(),
        vec![
            CloseStep::DrainServe(token),
            CloseStep::StopDnsProxies,
            CloseStep::ClearLocalService,
            CloseStep::CloseTransport,
            CloseStep::SignalClosed,
        ]
    );
    assert_eq!(
        forced.close_force(),
        vec![
            CloseStep::StopDnsProxies,
            CloseStep::AbortServe(token),
            CloseStep::ClearLocalService,
            CloseStep::CloseTransport,
            CloseStep::SignalClosed,
        ]
    );
    let mut empty = ServeSlot::new();
    assert_eq!(empty.close().len(), 4);
    empty.signal_closed();
    assert!(empty.closed);
}

#[test]
fn an_abort_before_the_task_is_attached_reaches_it() {
    let mut slot = ServeSlot::new();
    let token = slot.next_serve_token();
    let mut handle = ServeHandle::pending(token, 30_000);
    assert_eq!(handle.drain_timeout(), 30_000);
    assert!(!handle.abort());
    assert_eq!(handle.attach_join(), AttachAction::Abort);

    let mut handle = ServeHandle::pending(token, 30_000);
    assert_eq!(handle.attach_join(), AttachAction::Keep);
    assert!(!handle.is_shutdown_requested());
    assert_eq!(handle.drain(), DrainWait::Join);
    assert!(handle.is_shutdown_requested());
    assert_eq!(handle.drain(), DrainWait::DoneSignal);
    let other = ServeHandle::pending(slot.next_serve_token(), 1);
    assert!(!handle.is_same_cycle(&other));
    assert!(handle.is_same_cycle(&handle));
    handle.shutdown_and_close();
    assert!(handle.close_flag);
}
