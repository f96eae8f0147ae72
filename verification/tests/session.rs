use jk::codec::{Code, Encoder, Frame};
use jk::command::encode_command;
use jk::demux::{process_download, process_download_split, demux_step, DemuxStep};
use jk::session::{
    download_request, plan_exchanges, session_step, status_is_success, upload_request, Cli, Phase,
    Server, SessionAction, SessionError, SessionEvent, Side,
};

fn server() -> Server {
    Server {
        url: "http://jenkins.example:8080".to_string(),
        username: "user".to_string(),
        password: "pass".to_string(),
        proxy: None,
    }
}

/// The download body a fake server answers with: the leading zero byte,
/// one standard-output frame, and an exit frame with the given code.
fn fake_download_body(out: &[u8], code: i32) -> Vec<u8> {
    let mut enc = Encoder::new();
    enc.frame(&Frame {
        op: Code::Stdout,
        data: out.to_vec(),
    });
    enc.frame(&Frame {
        op: Code::Exit,
        data: code.to_be_bytes().to_vec(),
    });
    let mut body = vec![0u8];
    body.extend_from_slice(&enc.buffer());
    body
}

#[test]
fn scenario_help_invocation() {
    // The server replies on the download exchange with one zero byte, a
    // standard-output frame, then an exit frame with code zero.
    let body = fake_download_body(b"usage: ...", 0);

    let (p, a) = session_step(Phase::Start, SessionEvent::Begin);
    assert_eq!(a, SessionAction::OpenDownload);
    let (p, a) = session_step(p, SessionEvent::DownloadStatus(200));
    assert_eq!(a, SessionAction::SendUpload);
    let upload = encode_command(&vec!["help".to_string()]);
    assert!(!upload.is_empty());
    let (p, a) = session_step(p, SessionEvent::UploadStatus(200));
    assert_eq!(a, SessionAction::ReadBody);
    assert_eq!(p, Phase::Established);

    let (output, code) = process_download(body).expect("a well-formed stream decodes");
    assert_eq!(output, b"usage: ...".to_vec());
    assert_eq!(code, 0);
}

#[test]
fn empty_args_synthesize_help() {
    let with_help = encode_command(&vec!["help".to_string()]);
    let with_none = encode_command(&Vec::new());
    assert_eq!(with_none, with_help);
}

#[test]
fn command_body_layout() {
    // One argument frame, the encoding frame, the locale frame, the
    // start frame, in that order.
    let body = encode_command(&vec!["help".to_string()]);
    let mut expected = Encoder::new();
    expected.string(Code::Arg, "help");
    expected.string(Code::Encoding, "utf-8");
    expected.string(Code::Locale, "en");
    expected.op(Code::Start);
    assert_eq!(body, expected.buffer());
}

#[test]
fn failed_download_stops_before_upload() {
    // A download exchange answered 401 fails the session; the machine
    // never asks for the upload to be sent.
    let (p, a) = session_step(Phase::Start, SessionEvent::Begin);
    assert_eq!(a, SessionAction::OpenDownload);
    let (p, a) = session_step(p, SessionEvent::DownloadStatus(401));
    assert_eq!(a, SessionAction::Stop);
    assert_eq!(p, Phase::Failed(SessionError::Download(401)));
    // Whatever the driver reports afterwards, the failed session asks
    // for nothing more.
    let (p, a) = session_step(p, SessionEvent::UploadStatus(200));
    assert_eq!(a, SessionAction::Stop);
    assert_eq!(p, Phase::Failed(SessionError::Download(401)));
}

#[test]
fn failed_upload_is_fatal() {
    let (p, _) = session_step(Phase::Start, SessionEvent::Begin);
    let (p, _) = session_step(p, SessionEvent::DownloadStatus(204));
    let (p, a) = session_step(p, SessionEvent::UploadStatus(500));
    assert_eq!(a, SessionAction::Stop);
    assert_eq!(p, Phase::Failed(SessionError::Upload(500)));
}

#[test]
fn status_success_is_the_2xx_range() {
    assert!(!status_is_success(199));
    assert!(status_is_success(200));
    assert!(status_is_success(299));
    assert!(!status_is_success(300));
    assert!(!status_is_success(401));
    assert!(!status_is_success(500));
}

#[test]
fn interleaved_output_keeps_server_order() {
    let mut enc = Encoder::new();
    let chunks: [(&[u8], Code); 5] = [
        (b"a", Code::Stdout),
        (b"bb", Code::Stderr),
        (b"c", Code::Stdout),
        (b"", Code::Stderr),
        (b"dd", Code::Stderr),
    ];
    for (data, op) in chunks {
        enc.frame(&Frame {
            op,
            data: data.to_vec(),
        });
    }
    enc.frame(&Frame {
        op: Code::Exit,
        data: vec![0, 0, 0, 7],
    });
    // Frames after the exit frame are never read.
    enc.frame(&Frame {
        op: Code::Stdout,
        data: b"late".to_vec(),
    });
    let mut body = vec![0u8];
    body.extend_from_slice(&enc.buffer());

    let (merged, code) = process_download(body.clone()).unwrap();
    assert_eq!(merged, b"abbcdd".to_vec());
    assert_eq!(code, 7);

    let cmd = process_download_split(body).unwrap();
    assert_eq!(cmd.out, b"ac".to_vec());
    assert_eq!(cmd.err, b"bbdd".to_vec());
    assert_eq!(cmd.exit_code, 7);
}

#[test]
fn control_frames_are_ignored() {
    let mut enc = Encoder::new();
    enc.frame(&Frame {
        op: Code::Stdin,
        data: b"zz".to_vec(),
    });
    enc.frame(&Frame {
        op: Code::Stdout,
        data: b"ok".to_vec(),
    });
    enc.frame(&Frame {
        op: Code::Exit,
        data: vec![0, 0, 0, 0],
    });
    let mut body = vec![0u8];
    body.extend_from_slice(&enc.buffer());
    let (merged, code) = process_download(body).unwrap();
    assert_eq!(merged, b"ok".to_vec());
    assert_eq!(code, 0);
}

#[test]
fn stream_without_exit_frame_is_truncated() {
    let mut enc = Encoder::new();
    enc.frame(&Frame {
        op: Code::Stdout,
        data: b"partial".to_vec(),
    });
    let mut body = vec![0u8];
    body.extend_from_slice(&enc.buffer());
    assert_eq!(
        process_download(body),
        Err(jk::codec::DecodeError::Truncated)
    );
}

#[test]
fn stream_without_leading_zero_fails() {
    assert_eq!(
        process_download(vec![7, 1, 2]),
        Err(jk::codec::DecodeError::LeadingByte(7))
    );
    assert_eq!(
        process_download(Vec::new()),
        Err(jk::codec::DecodeError::Truncated)
    );
}

#[test]
fn exit_frame_with_short_payload_fails() {
    let mut enc = Encoder::new();
    enc.frame(&Frame {
        op: Code::Exit,
        data: vec![0, 1],
    });
    let mut body = vec![0u8];
    body.extend_from_slice(&enc.buffer());
    assert_eq!(
        process_download(body),
        Err(jk::codec::DecodeError::ExitPayload)
    );
}

#[test]
fn demux_step_routes_by_op() {
    match demux_step(Frame {
        op: Code::Stdout,
        data: b"o".to_vec(),
    }) {
        Ok(DemuxStep::Stdout(d)) => assert_eq!(d, b"o".to_vec()),
        _ => panic!("the step did not match the frame"),
    }
    match demux_step(Frame {
        op: Code::Exit,
        data: vec![0, 0, 0, 3],
    }) {
        Ok(DemuxStep::Done(c)) => assert_eq!(c, 3),
        _ => panic!("the step did not match the frame"),
    }
    match demux_step(Frame {
        op: Code::Locale,
        data: Vec::new(),
    }) {
        Ok(DemuxStep::Ignored) => {}
        _ => panic!("the step did not match the frame"),
    }
}

#[test]
fn request_plans_share_the_session() {
    let cfg = server();
    let cli = Cli::new(cfg);
    let body = encode_command(&vec!["help".to_string()]);
    let (down, up) = plan_exchanges(&cli.cfg, body.clone());
    assert_eq!(down.url, "http://jenkins.example:8080/cli");
    assert_eq!(up.url, "http://jenkins.example:8080/cli");
    assert_eq!(down.session, up.session);
    assert_eq!(down.session.len(), 36);
    assert_eq!(down.side, Side::Download);
    assert_eq!(up.side, Side::Upload);
    assert!(down.body.is_empty());
    assert_eq!(up.body, body);
    assert_eq!(down.username, "user");
    assert_eq!(up.password, "pass");
}

#[test]
fn two_sessions_get_distinct_identifiers() {
    let cfg = server();
    let (down1, _) = plan_exchanges(&cfg, Vec::new());
    let (down2, _) = plan_exchanges(&cfg, Vec::new());
    assert_ne!(down1.session, down2.session);
}

#[test]
fn explicit_requests_carry_the_given_session() {
    let cfg = server();
    let session = "0000-1111".to_string();
    let down = download_request(&cfg, &session);
    let up = upload_request(&cfg, &session, b"body".to_vec());
    assert_eq!(down.session, "0000-1111");
    assert_eq!(up.session, "0000-1111");
    assert_eq!(up.body, b"body".to_vec());
    assert_eq!(down.side.header_value(), "download");
    assert_eq!(up.side.header_value(), "upload");
}
