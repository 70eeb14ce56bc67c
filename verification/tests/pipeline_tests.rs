use line_proto::Echo;
use line_proto::LineProto;
use line_proto::Message;
use line_proto::Pipeline;
use line_proto::PipelineState;
use line_proto::Service;

fn echo_pipeline() -> Pipeline<Echo> {
    let proto = LineProto;
    Pipeline::new(proto.bind_transport(), Echo)
}

#[test]
fn echo_returns_request_unchanged() {
    let req = Message::new(b"ping".to_vec()).unwrap();
    let resp = Echo.call(req).unwrap();
    assert_eq!(resp.as_bytes().as_slice(), &b"ping"[..]);
}

#[test]
fn responses_arrive_in_request_order() {
    let mut p = echo_pipeline();
    p.on_bytes(b"r1\nr2\nr3\n");
    assert_eq!(p.state(), PipelineState::AwaitingRequest);
    assert_eq!(p.take_output(), b"r1\nr2\nr3\n".to_vec());
    assert_eq!(p.take_output(), Vec::<u8>::new());
}

#[test]
fn partial_frame_produces_no_response() {
    let mut p = echo_pipeline();
    p.on_bytes(b"pi");
    assert_eq!(p.state(), PipelineState::AwaitingRequest);
    assert_eq!(p.take_output(), Vec::<u8>::new());
    p.on_bytes(b"ng\n");
    assert_eq!(p.state(), PipelineState::AwaitingRequest);
    assert_eq!(p.take_output(), b"ping\n".to_vec());
}

#[test]
fn malformed_frame_fails_the_connection() {
    let mut p = echo_pipeline();
    p.on_bytes(&[0xFF, b'\n']);
    assert_eq!(p.state(), PipelineState::Failed);
    assert_eq!(p.take_output(), Vec::<u8>::new(), "no response for a malformed frame");
}

#[test]
fn frames_before_a_malformed_one_are_answered() {
    let mut p = echo_pipeline();
    p.on_bytes(b"ok\n\xFF\nnever\n");
    assert_eq!(p.state(), PipelineState::Failed);
    assert_eq!(p.take_output(), b"ok\n".to_vec(), "handling stops at the bad frame");
}

#[test]
fn end_to_end_echo_session() {
    let mut p = echo_pipeline();

    p.on_bytes(b"ping\n");
    assert_eq!(p.state(), PipelineState::AwaitingRequest);
    assert_eq!(p.take_output(), b"ping\n".to_vec());

    p.on_bytes(b"\n");
    assert_eq!(p.state(), PipelineState::AwaitingRequest);
    assert_eq!(p.take_output(), b"\n".to_vec());

    p.on_eof();
    assert_eq!(p.state(), PipelineState::Closed);
    assert_eq!(p.take_output(), Vec::<u8>::new());
}

#[test]
fn eof_mid_frame_fails_the_connection() {
    let mut p = echo_pipeline();
    p.on_bytes(b"cut off");
    assert_eq!(p.state(), PipelineState::AwaitingRequest);
    p.on_eof();
    assert_eq!(p.state(), PipelineState::Failed);
}

#[test]
fn transport_binds_codec_to_empty_buffers() {
    let proto = LineProto;
    let mut t = proto.bind_transport();
    assert_eq!(t.in_len(), 0);
    assert_eq!(t.take_output(), Vec::<u8>::new());

    t.feed(b"one\ntwo");
    let first = t.try_receive().unwrap().unwrap();
    assert_eq!(first.as_bytes().as_slice(), &b"one"[..]);
    assert!(t.try_receive().unwrap().is_none());
    assert_eq!(t.in_len(), 3);

    t.send(first);
    assert_eq!(t.take_output(), b"one\n".to_vec());
}
