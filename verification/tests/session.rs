use iroh_http::error::ErrorCode;
use iroh_http::handles::{HandleStore, StoreConfig};
use iroh_http::session::{
    datagram_error, is_connection_closed, op_failed, parse_connection_error, session_close,
    session_max_datagram_size, unexpected_alpn_error, ArrivalAction, ConnectionEnd, DatagramFault,
    EndKind, Session, SessionArrival, SessionOp,
};
use iroh_http::{ALPN, ALPN_DUPLEX};

fn store() -> HandleStore {
    HandleStore::new(StoreConfig::default())
}

fn end(kind: EndKind) -> ConnectionEnd {
    ConnectionEnd { kind, text: "words".to_string() }
}

#[test]
fn a_connection_that_ended_is_told_from_one_that_failed() {
    let closed = end(EndKind::ApplicationClosed { code: 7, reason: b"bye".to_vec() });
    assert!(is_connection_closed(&closed));
    assert_eq!(parse_connection_error(&closed), (7, "bye".to_string()));
    assert_eq!(parse_connection_error(&end(EndKind::TimedOut)), (0, "words".to_string()));
    let lossy = end(EndKind::ApplicationClosed { code: 1, reason: vec![0xff, b'a'] });
    assert_eq!(parse_connection_error(&lossy).1, "\u{fffd}a");
    assert!(!is_connection_closed(&end(EndKind::Other)));
    for kind in [EndKind::ConnectionClosed, EndKind::Reset, EndKind::LocallyClosed] {
        assert!(is_connection_closed(&end(kind)));
    }
}

#[test]
fn a_session_opens_ends_and_stays_ended() {
    let mut s = store();
    let session = Session::connect(&mut s, 0).unwrap();
    assert_eq!(Session::from_handle(session.handle()), session);
    assert!(session.ready(&s).is_ok());
    assert!(session.already_closed(&s).is_none());
    assert!(session.close(&s, 0, "").is_ok());
    let max: u64 = (1 << 62) - 1;
    let order = session.close(&s, max, "bye").unwrap();
    assert_eq!((order.code, order.reason), (max, b"bye".to_vec()));
    let e = session.close(&s, max + 1, "").unwrap_err();
    assert!(e.message.contains("VarInt"));
    let info = session.closed(&mut s, &end(EndKind::LocallyClosed));
    assert_eq!((info.close_code, info.reason.as_str()), (0, "words"));
    assert!(session.ready(&s).is_err());
    assert!(session.already_closed(&s).is_some());
    assert!(session_close(&mut s, session.handle(), 0, "").is_err());
}

#[test]
fn only_duplex_sessions_are_accepted() {
    let mut s = store();
    assert!(matches!(
        Session::accept(&mut s, SessionArrival::ShuttingDown, 0),
        ArrivalAction::Nothing
    ));
    match Session::accept(&mut s, SessionArrival::HandshakeFailed("x".to_string()), 0) {
        ArrivalAction::Failed(e) => assert_eq!(e.message, "accept session: x"),
        _ => panic!("a failed handshake fails"),
    }
    let arrival = SessionArrival::Connected { alpn: ALPN.to_vec() };
    match Session::accept(&mut s, arrival, 0) {
        ArrivalAction::Refuse(e) => {
            assert_eq!(e.message, "accept session: unexpected ALPN \"iroh-http/2\"")
        }
        _ => panic!("another protocol is refused"),
    }
    assert_eq!(unexpected_alpn_error("x").code, ErrorCode::ConnectionFailed);
    let arrival = SessionArrival::Connected { alpn: ALPN_DUPLEX.to_vec() };
    assert!(matches!(Session::accept(&mut s, arrival, 0), ArrivalAction::Opened(_)));
    assert_eq!(s.count_handles().2, 1);
}

#[test]
fn streams_of_a_session_get_handles() {
    let mut s = store();
    let session = Session::connect(&mut s, 0).unwrap();
    assert!(session.create_bidi_stream(&mut s, Ok(()), 0).is_ok());
    let e = session.create_bidi_stream(&mut s, Err("x".to_string()), 0).unwrap_err();
    assert_eq!(e.message, "open_bi: x");
    assert!(session.next_bidi_stream(&mut s, Ok(()), 0).unwrap().is_some());
    let over = session.next_bidi_stream(&mut s, Err(end(EndKind::Reset)), 0);
    assert!(over.unwrap().is_none());
    let e = session.next_bidi_stream(&mut s, Err(end(EndKind::Other)), 0).unwrap_err();
    assert_eq!(e.message, "accept_bi: words");
    let w = session.create_uni_stream(&mut s, Ok(()), 0).unwrap();
    assert!(s.finish_body(w).is_ok());
    let r = session.next_uni_stream(&mut s, Ok(()), 0).unwrap().unwrap();
    assert!(s.cancel_reader(r));
    assert_eq!(op_failed(SessionOp::Connect, "x").message, "connect session: x");
    let stranger = Session::from_handle(12345);
    assert!(stranger.create_uni_stream(&mut s, Ok(()), 0).is_err());
}

#[test]
fn datagrams_need_a_live_session() {
    let mut s = store();
    let session = Session::connect(&mut s, 0).unwrap();
    assert!(session.send_datagram(&s, Ok(())).is_ok());
    let e = session.send_datagram(&s, Err(DatagramFault::TooLarge)).unwrap_err();
    assert_eq!(e.code, ErrorCode::BodyTooLarge);
    assert_eq!(datagram_error(&DatagramFault::Other("x".to_string())).message, "send_datagram: x");
    assert_eq!(session.recv_datagram(&s, Ok(vec![1])).unwrap(), Some(vec![1]));
    assert_eq!(session.recv_datagram(&s, Err(end(EndKind::TimedOut))).unwrap(), None);
    assert!(session.recv_datagram(&s, Err(end(EndKind::Other))).is_err());
    assert_eq!(session_max_datagram_size(&s, session.handle(), Some(1200)).unwrap(), Some(1200));
    let other = Session::connect(&mut s, 0).unwrap();
    let order = session_close(&mut s, session.handle(), 7, "bye é").unwrap();
    assert_eq!((order.code, order.reason), (7, "bye é".as_bytes().to_vec()));
    let e = session_close(&mut s, session.handle(), 8, "again").unwrap_err();
    assert_eq!(e.code, ErrorCode::InvalidInput);
    assert!(other.ready(&s).is_ok());
    assert!(session.send_datagram(&s, Ok(())).is_err());
    assert!(session_max_datagram_size(&s, session.handle(), None).is_err());
}
