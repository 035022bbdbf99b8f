use iroh_http::error::ErrorCode;
use iroh_http::pumps::{FrameEvent, Pump, PumpAction, PUMP_READ_BUF};

#[test]
fn pump_round_trip_forwards_all_chunks() {
    let mut pump = Pump::new(None);
    for n in [3, 3, 3] {
        assert!(matches!(pump.on_frame(FrameEvent::Data(n)), PumpAction::Forward));
    }
    assert!(matches!(pump.on_frame(FrameEvent::NoData), PumpAction::Skip));
    assert!(matches!(pump.on_frame(FrameEvent::End), PumpAction::Stop));
    assert_eq!(PUMP_READ_BUF, 64 * 1024);
}

#[test]
fn pump_over_limit_fires_overflow_and_drains_rest() {
    let mut pump = Pump::new(Some(100));
    assert!(matches!(pump.on_frame(FrameEvent::Data(50)), PumpAction::Forward));
    assert!(matches!(pump.on_frame(FrameEvent::Data(50)), PumpAction::Forward));
    match pump.on_frame(FrameEvent::Data(50)) {
        PumpAction::Overflow(e) => assert_eq!(e.code, ErrorCode::BodyTooLarge),
        _ => panic!("the third frame overflows"),
    }
    assert!(matches!(pump.on_frame(FrameEvent::Data(50)), PumpAction::Skip));
    assert!(matches!(pump.on_frame(FrameEvent::End), PumpAction::Stop));
}

#[test]
fn pump_breaks_when_frame_read_times_out() {
    let mut pump = Pump::new(None);
    assert!(matches!(pump.on_frame(FrameEvent::Data(5)), PumpAction::Forward));
    match pump.on_frame(FrameEvent::TimedOut) {
        PumpAction::Abort(e) => assert_eq!(e.code, ErrorCode::Timeout),
        _ => panic!("a stalled body is aborted"),
    }
}

#[test]
fn pump_non_length_error_surfaces_internal_not_body_too_large() {
    let mut pump = Pump::new(None);
    pump.on_frame(FrameEvent::Data(7));
    match pump.on_frame(FrameEvent::Failed("connection reset by peer".to_string())) {
        PumpAction::Abort(e) => {
            assert_eq!(e.code, ErrorCode::Internal);
            assert!(e.message.contains("connection reset by peer"));
        }
        _ => panic!("a failed body is aborted"),
    }
}

#[test]
fn pump_length_limit_error_surfaces_body_too_large() {
    let mut pump = Pump::new(None);
    pump.on_frame(FrameEvent::Data(50));
    match pump.on_frame(FrameEvent::OverLimit) {
        PumpAction::Abort(e) => assert_eq!(e.code, ErrorCode::BodyTooLarge),
        _ => panic!("a body over its limit is aborted"),
    }
}
