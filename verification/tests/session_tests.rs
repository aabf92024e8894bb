use sniffer::session::CaptureSession;
use sniffer::session::CommandEvent;
use sniffer::session::ParserCommand;
use sniffer::session::SessionPhase;

fn tcp_frame() -> Vec<u8> {
    let mut f = vec![0xaa; 6];
    f.extend_from_slice(&[0x01, 0x02, 0x03, 0x04, 0x05, 0x06]);
    f.extend_from_slice(&[0x08, 0x00]);
    f.extend_from_slice(&[
        0x45, 0x00, 0x00, 0x28, 0x12, 0x34, 0x40, 0x00, 0x40, 0x06, 0xbe, 0xef,
    ]);
    f.extend_from_slice(&[127, 0, 0, 1]);
    f.extend_from_slice(&[10, 0, 0, 2]);
    f.extend_from_slice(&9000u16.to_be_bytes());
    f.extend_from_slice(&443u16.to_be_bytes());
    f.extend_from_slice(&1u32.to_be_bytes());
    f.extend_from_slice(&2u32.to_be_bytes());
    f.extend_from_slice(&[0x50, 0x18]);
    f.extend_from_slice(&0xffffu16.to_be_bytes());
    f.extend_from_slice(&0xcafeu16.to_be_bytes());
    f.extend_from_slice(&0u16.to_be_bytes());
    f
}

#[test]
fn start_then_stop_returns_to_stopped() {
    let mut s = CaptureSession::new(true);
    assert_eq!(s.phase(), SessionPhase::Stopped);
    s.observe_command(CommandEvent::Received(ParserCommand::Start));
    assert_eq!(s.phase(), SessionPhase::Running);
    s.observe_command(CommandEvent::Received(ParserCommand::Stop));
    assert_eq!(s.phase(), SessionPhase::Stopped);
}

#[test]
fn start_and_stop_are_idempotent() {
    let mut s = CaptureSession::new(false);
    s.observe_command(CommandEvent::Received(ParserCommand::Stop));
    assert_eq!(s.phase(), SessionPhase::Stopped);
    s.observe_command(CommandEvent::Received(ParserCommand::Start));
    s.observe_command(CommandEvent::Received(ParserCommand::Start));
    assert_eq!(s.phase(), SessionPhase::Running);
}

#[test]
fn idle_poll_keeps_running() {
    let mut s = CaptureSession::new(false);
    s.observe_command(CommandEvent::Received(ParserCommand::Start));
    s.observe_command(CommandEvent::Idle);
    assert_eq!(s.phase(), SessionPhase::Running);
}

#[test]
fn closed_channel_finishes_for_good() {
    let mut s = CaptureSession::new(false);
    s.observe_command(CommandEvent::Closed);
    assert_eq!(s.phase(), SessionPhase::Finished);
    s.observe_command(CommandEvent::Received(ParserCommand::Start));
    assert_eq!(s.phase(), SessionPhase::Finished);
    s.observe_command(CommandEvent::Received(ParserCommand::Stop));
    assert_eq!(s.phase(), SessionPhase::Finished);
}

#[test]
fn output_closed_finishes() {
    let mut s = CaptureSession::new(false);
    s.observe_command(CommandEvent::Received(ParserCommand::Start));
    s.on_output_closed();
    assert_eq!(s.phase(), SessionPhase::Finished);
}

#[test]
fn source_end_returns_to_stopped() {
    let mut s = CaptureSession::new(true);
    s.observe_command(CommandEvent::Received(ParserCommand::Start));
    s.on_source_end();
    assert_eq!(s.phase(), SessionPhase::Stopped);
    s.observe_command(CommandEvent::Received(ParserCommand::Start));
    assert_eq!(s.phase(), SessionPhase::Running);
}

#[test]
fn frames_decode_while_running() {
    let mut s = CaptureSession::new(true);
    s.observe_command(CommandEvent::Received(ParserCommand::Start));
    let frame = tcp_frame();
    let pac = s.on_frame(&frame, frame.len() as u32, "1.0".to_string());
    let pac = pac.expect("a well-formed frame decodes");
    assert_eq!(pac.dest_port, 443);
    assert_eq!(s.phase(), SessionPhase::Running);
}

#[test]
fn malformed_frames_are_skipped_silently() {
    let mut s = CaptureSession::new(true);
    s.observe_command(CommandEvent::Received(ParserCommand::Start));
    let r = s.on_frame(&[0u8; 5], 5, String::new());
    assert!(r.is_none());
    assert_eq!(s.phase(), SessionPhase::Running);
}

#[test]
fn persistence_setting_is_kept() {
    let s = CaptureSession::new(true);
    assert!(s.persist_enabled());
    let s = CaptureSession::new(false);
    assert!(!s.persist_enabled());
}
