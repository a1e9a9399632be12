use russh::error::{ConnectError, DispatchError, FramingError, HandshakeError};
use russh::handshake::{
    interpret, Action, Diagnostic, Event, Failure, Handshake, Level, Stage, MAX_LINE_LENGTH,
    VERSION,
};
use russh::kexinit::KexInitFields;
use russh::packet::Packet;

const PEER_LINE: &[u8] = b"SSH-2.0-OpenSSH_8.9\r\n";

fn string(body: &[u8]) -> Vec<u8> {
    let mut out = (body.len() as u32).to_be_bytes().to_vec();
    out.extend_from_slice(body);
    out
}

/// A wire record written by hand.
fn record(payload: &[u8], padding: usize) -> Vec<u8> {
    let mut out = ((1 + payload.len() + padding) as u32).to_be_bytes().to_vec();
    out.push(padding as u8);
    out.extend_from_slice(payload);
    out.extend(std::iter::repeat(0x5a).take(padding));
    out
}

/// The record of an algorithm negotiation with `packet_length` 300 and
/// `padding_length` 6: a cookie, ten name-lists, a boolean 0, a reserved 0.
fn kexinit_record() -> Vec<u8> {
    let mut payload = vec![20];
    payload.extend((1..=16u8).map(|i| i.wrapping_mul(37)));
    payload.extend(string(b"curve25519-sha256,diffie-hellman-group14-sha1"));
    payload.extend(string(b"ssh-ed25519,rsa-sha2-512,rsa-sha2-256"));
    payload.extend(string(b"chacha20-poly1305@openssh.com,aes128-ctr"));
    payload.extend(string(b"chacha20-poly1305@openssh.com,aes256-ctr"));
    payload.extend(string(b"hmac-sha2-256,hmac-sha1"));
    payload.extend(string(b"hmac-sha2-256"));
    payload.extend(string(b"none,zlib@openssh.com"));
    payload.extend(string(b"none"));
    payload.extend(string(b"en"));
    // The last list fills the payload up to 293 bytes with the trailer.
    let left = 293 - 5 - 4 - payload.len();
    payload.extend(string(&vec![b'x'; left]));
    payload.push(0);
    payload.extend_from_slice(&[0, 0, 0, 0]);
    assert_eq!(payload.len(), 293);
    let out = record(&payload, 6);
    assert_eq!(&out[..5], &[0, 0, 1, 0x2c, 6]);
    out
}

fn failure(stage: Stage, cause: ConnectError) -> Failure {
    Failure { stage, cause: HandshakeError::Connect(cause) }
}

/// Drives a handshake as a transport would that opens, takes what is written,
/// and yields `inbound` in reads of at most `chunk` bytes before it closes.
/// Gives the handshake at its end and what was written.
fn drive(inbound: &[u8], chunk: usize) -> (Handshake, Vec<u8>) {
    let mut h = Handshake::new();
    let mut at = 0;
    let mut written = Vec::new();
    for _ in 0..200_000 {
        match h.action() {
            Action::Open => h = h.step(Event::Done),
            Action::Write(bytes) => {
                written.extend(bytes);
                h = h.step(Event::Done);
            }
            Action::Read(limit) => {
                assert!(limit >= 1);
                let n = limit.min(chunk).min(inbound.len() - at);
                if n == 0 {
                    h = h.step(Event::Closed);
                } else {
                    h = h.step(Event::Received(inbound[at..at + n].to_vec()));
                    at += n;
                }
            }
            Action::Stop => return (h, written),
        }
    }
    panic!("the handshake does not end");
}

fn first_list(fields: &KexInitFields) -> Vec<&str> {
    fields.kex_algorithms.names.iter().map(|s| s.as_str()).collect()
}

#[test]
fn version_is_the_fixed_identification_string() {
    assert_eq!(VERSION, "SSH-2.0-russh_0.1");
    assert_eq!(MAX_LINE_LENGTH, 35000);
}

#[test]
fn handshake_decodes_the_algorithm_negotiation() {
    let mut inbound = PEER_LINE.to_vec();
    inbound.extend(kexinit_record());
    let fields = Handshake::replay(&inbound).unwrap();
    assert_eq!(first_list(&fields), vec!["curve25519-sha256", "diffie-hellman-group14-sha1"]);
    assert_eq!(fields.server_host_key_algorithms.names, vec![
        "ssh-ed25519",
        "rsa-sha2-512",
        "rsa-sha2-256"
    ]);
    assert_eq!(fields.compression_server_to_client.names, vec!["none"]);
    assert_eq!(fields.languages_client_to_server.names, vec!["en"]);
    assert_eq!(fields.languages_server_to_client.names.len(), 1);
}

#[test]
fn handshake_step_by_step() {
    let record = kexinit_record();
    let mut h = Handshake::new();
    assert_eq!(h.stage(), Stage::Connecting);
    assert_eq!(h.action(), Action::Open);
    assert_eq!(h.peer_version(), None);

    h = h.step(Event::Done);
    assert_eq!(h.stage(), Stage::AwaitingPeerVersion);
    assert_eq!(h.action(), Action::Read(1));

    h = h.step(Event::Received(b"SSH-2.0-Open".to_vec()));
    assert_eq!(h.stage(), Stage::AwaitingPeerVersion);
    assert_eq!(h.peer_version(), None);
    h = h.step(Event::Received(b"SSH_8.9\r\n".to_vec()));
    assert_eq!(h.stage(), Stage::SendingOwnVersion);
    assert_eq!(h.peer_version(), Some(b"SSH-2.0-OpenSSH_8.9".to_vec()));
    assert_eq!(h.action(), Action::Write(b"SSH-2.0-russh_0.1\r\n".to_vec()));

    h = h.step(Event::Done);
    assert_eq!(h.stage(), Stage::AwaitingFirstPacket);
    assert_eq!(h.action(), Action::Read(4));

    h = h.step(Event::Received(record[..3].to_vec()));
    assert_eq!(h.action(), Action::Read(1));
    h = h.step(Event::Received(record[3..4].to_vec()));
    assert_eq!(h.stage(), Stage::AwaitingFirstPacket);
    assert_eq!(h.action(), Action::Read(300));
    h = h.step(Event::Received(record[4..104].to_vec()));
    assert_eq!(h.action(), Action::Read(200));
    h = h.step(Event::Received(record[104..303].to_vec()));
    assert_eq!(h.action(), Action::Read(1));
    assert_eq!(h.failure(), None);
    h = h.step(Event::Received(record[303..].to_vec()));
    assert_eq!(h.stage(), Stage::DecodingKexInit);
    assert_eq!(h.action(), Action::Stop);
    assert_eq!(h.failure(), None);
    assert_eq!(h.peer_version(), Some(b"SSH-2.0-OpenSSH_8.9".to_vec()));

    let fields = h.finish().unwrap().unwrap();
    assert_eq!(first_list(&fields), vec!["curve25519-sha256", "diffie-hellman-group14-sha1"]);
}

#[test]
fn handshake_ends_the_same_however_the_reads_cut_the_stream() {
    let mut inbound = PEER_LINE.to_vec();
    inbound.extend(kexinit_record());
    let expected = Handshake::replay(&inbound).unwrap();
    for chunk in [1usize, 2, 3, 5, 7, 64, 299, 300, 301, 4096] {
        let (h, written) = drive(&inbound, chunk);
        assert_eq!(written, b"SSH-2.0-russh_0.1\r\n".to_vec());
        assert_eq!(h.finish(), Some(Ok(expected.clone())));
    }
    // Reads that pay no heed to the limit and cut the stream anywhere.
    for cut in 0..inbound.len() {
        let mut h = Handshake::new().step(Event::Done);
        h = h.step(Event::Received(inbound[..cut].to_vec()));
        if h.stage() == Stage::SendingOwnVersion {
            h = h.step(Event::Done);
        }
        h = h.step(Event::Received(inbound[cut..].to_vec()));
        if h.stage() == Stage::SendingOwnVersion {
            h = h.step(Event::Done);
        }
        assert_eq!(h.finish(), Some(Ok(expected.clone())));
    }
}

#[test]
fn handshake_writes_its_line_once_and_after_the_peers() {
    let mut inbound = PEER_LINE.to_vec();
    inbound.extend(kexinit_record());
    let mut h = Handshake::new();
    let mut at = 0;
    let mut writes = 0;
    let mut stages = vec![h.stage()];
    loop {
        match h.action() {
            Action::Open => h = h.step(Event::Done),
            Action::Write(_) => {
                assert_eq!(at, PEER_LINE.len());
                writes += 1;
                h = h.step(Event::Done);
            }
            Action::Read(limit) => {
                let n = limit.min(inbound.len() - at);
                h = h.step(Event::Received(inbound[at..at + n].to_vec()));
                at += n;
            }
            Action::Stop => break,
        }
        if *stages.last().unwrap() != h.stage() {
            stages.push(h.stage());
        }
    }
    assert_eq!(writes, 1);
    assert_eq!(at, inbound.len());
    assert_eq!(stages, vec![
        Stage::Connecting,
        Stage::AwaitingPeerVersion,
        Stage::SendingOwnVersion,
        Stage::AwaitingFirstPacket,
        Stage::DecodingKexInit
    ]);
}

#[test]
fn stream_closed_behind_the_version_line_is_closed() {
    let expected = failure(Stage::AwaitingFirstPacket, ConnectError::Closed);
    assert_eq!(Handshake::replay(PEER_LINE), Err(expected));
    for chunk in [1usize, 4, 100] {
        let (h, written) = drive(PEER_LINE, chunk);
        assert_eq!(h.stage(), Stage::Failed);
        assert_eq!(h.failure(), Some(expected));
        assert_eq!(written, b"SSH-2.0-russh_0.1\r\n".to_vec());
        assert_eq!(h.finish(), Some(Err(expected)));
    }
}

#[test]
fn stream_closed_before_a_newline_is_closed() {
    let expected = failure(Stage::AwaitingPeerVersion, ConnectError::Closed);
    assert_eq!(Handshake::replay(b""), Err(expected));
    assert_eq!(Handshake::replay(b"SSH-2.0-OpenSSH_8.9"), Err(expected));
    assert_eq!(Handshake::replay(b"SSH-2.0-OpenSSH_8.9\r"), Err(expected));
    let (h, written) = drive(b"SSH-2.0-Open", 5);
    assert_eq!(h.failure(), Some(expected));
    assert!(written.is_empty());
}

#[test]
fn first_message_other_than_the_negotiation_is_unhandled() {
    let mut inbound = PEER_LINE.to_vec();
    inbound.extend(record(&[21], 10));
    let expected = Failure {
        stage: Stage::Dispatching,
        cause: HandshakeError::Dispatch(DispatchError::UnhandledMessage(21)),
    };
    assert_eq!(Handshake::replay(&inbound), Err(expected));
    let (h, _) = drive(&inbound, 3);
    assert_eq!(h.failure(), Some(expected));

    for tag in [1u8, 2, 3, 4, 5, 6, 21] {
        // Behind the tag stands what would be name-lists; none is read.
        let mut payload = vec![tag];
        payload.extend([0xffu8; 40]);
        let mut inbound = PEER_LINE.to_vec();
        inbound.extend(record(&payload, 4));
        assert_eq!(
            Handshake::replay(&inbound),
            Err(Failure {
                stage: Stage::Dispatching,
                cause: HandshakeError::Dispatch(DispatchError::UnhandledMessage(tag)),
            })
        );
    }
}

#[test]
fn first_message_with_an_unknown_tag_is_unknown() {
    for tag in [0u8, 7, 19, 22, 100, 255] {
        let mut inbound = PEER_LINE.to_vec();
        inbound.extend(record(&[tag, 1, 2, 3], 4));
        assert_eq!(
            Handshake::replay(&inbound),
            Err(Failure {
                stage: Stage::Dispatching,
                cause: HandshakeError::Dispatch(DispatchError::UnknownMessage(tag)),
            })
        );
    }
}

#[test]
fn first_packet_without_a_payload_has_no_message_type() {
    let mut inbound = PEER_LINE.to_vec();
    inbound.extend(record(&[], 4));
    assert_eq!(
        Handshake::replay(&inbound),
        Err(failure(Stage::Dispatching, ConnectError::Protocol(FramingError::EmptyPayload)))
    );
}

#[test]
fn first_packet_that_breaks_the_format_is_a_protocol_error() {
    let cases: Vec<(Vec<u8>, FramingError)> = vec![
        (vec![0, 0, 0, 1, 5], FramingError::InvalidLength),
        (vec![0, 0, 0, 0], FramingError::InvalidLength),
        (vec![0, 0, 0x88, 0xb9], FramingError::InvalidLength),
        (vec![0xff, 0xff, 0xff, 0xff, 1, 2, 3], FramingError::InvalidLength),
        (vec![0, 0, 0, 2, 5, 0], FramingError::InvalidPadding),
        (vec![0, 0, 0, 5, 5, 0, 0, 0, 0], FramingError::InvalidPadding),
        (vec![0], FramingError::Truncated),
        (vec![0, 0, 0], FramingError::Truncated),
        (vec![0, 0, 0, 12, 4, 20, 1], FramingError::Truncated),
    ];
    for (packet, error) in cases {
        let mut inbound = PEER_LINE.to_vec();
        inbound.extend(&packet);
        let expected = failure(Stage::AwaitingFirstPacket, ConnectError::Protocol(error));
        assert_eq!(Handshake::replay(&inbound), Err(expected));
        for chunk in [1usize, 2, 1000] {
            let (h, _) = drive(&inbound, chunk);
            assert_eq!(h.failure(), Some(expected));
        }
    }
}

#[test]
fn negotiation_that_breaks_off_is_a_protocol_error() {
    let mut payload = vec![20];
    payload.extend([0u8; 16]);
    payload.extend(string(b"curve25519-sha256"));
    let mut inbound = PEER_LINE.to_vec();
    inbound.extend(record(&payload, 4));
    assert_eq!(
        Handshake::replay(&inbound),
        Err(failure(Stage::DecodingKexInit, ConnectError::Protocol(FramingError::OutOfBounds)))
    );

    let mut payload = vec![20];
    payload.extend([0u8; 16]);
    for _ in 0..10 {
        payload.extend(string(&[0xc3, 0x28]));
    }
    let mut inbound = PEER_LINE.to_vec();
    inbound.extend(record(&payload, 4));
    assert_eq!(
        Handshake::replay(&inbound),
        Err(failure(Stage::DecodingKexInit, ConnectError::Protocol(FramingError::Encoding)))
    );
}

#[test]
fn transport_that_does_not_open_is_unreachable() {
    let h = Handshake::new().step(Event::Failed);
    assert_eq!(h.stage(), Stage::Failed);
    assert_eq!(h.failure(), Some(failure(Stage::Connecting, ConnectError::Unreachable)));
    assert_eq!(h.action(), Action::Stop);
}

#[test]
fn transport_that_does_not_write_is_unreachable() {
    let h = Handshake::new()
        .step(Event::Done)
        .step(Event::Received(PEER_LINE.to_vec()))
        .step(Event::Failed);
    assert_eq!(h.failure(), Some(failure(Stage::SendingOwnVersion, ConnectError::Unreachable)));
    assert_eq!(h.peer_version(), None);
}

#[test]
fn transport_that_fails_to_read_is_as_good_as_closed() {
    let h = Handshake::new().step(Event::Done).step(Event::Failed);
    assert_eq!(h.failure(), Some(failure(Stage::AwaitingPeerVersion, ConnectError::Closed)));
    let open = Handshake::new()
        .step(Event::Done)
        .step(Event::Received(PEER_LINE.to_vec()))
        .step(Event::Done);
    assert_eq!(open.stage(), Stage::AwaitingFirstPacket);
    let h = open.step(Event::Failed);
    assert_eq!(h.failure(), Some(failure(Stage::AwaitingFirstPacket, ConnectError::Closed)));
    let h = Handshake::new()
        .step(Event::Done)
        .step(Event::Received(PEER_LINE.to_vec()))
        .step(Event::Done)
        .step(Event::Received(vec![0, 0]))
        .step(Event::Failed);
    assert_eq!(
        h.failure(),
        Some(failure(Stage::AwaitingFirstPacket, ConnectError::Protocol(FramingError::Truncated)))
    );
}

#[test]
fn peer_line_is_kept_as_it_came_without_its_end() {
    let lines: Vec<(&[u8], &[u8])> = vec![
        (b"SSH-2.0-OpenSSH_8.9\r\n", b"SSH-2.0-OpenSSH_8.9"),
        (b"SSH-2.0-OpenSSH_8.9\n", b"SSH-2.0-OpenSSH_8.9"),
        (b"SSH-2.0-x comment here\r\n", b"SSH-2.0-x comment here"),
        (b"\n", b""),
        (b"\r\n", b""),
        (b"not an identification string\n", b"not an identification string"),
        (b"two\r\r\n", b"two\r"),
        (b"\xff\xfe\n", b"\xff\xfe"),
    ];
    for (line, version) in lines {
        let h = Handshake::new().step(Event::Done).step(Event::Received(line.to_vec()));
        assert_eq!(h.stage(), Stage::SendingOwnVersion);
        assert_eq!(h.peer_version(), Some(version.to_vec()));
    }
}

#[test]
fn peer_line_ends_at_the_first_line_feed() {
    let mut inbound = b"SSH-2.0-a\n".to_vec();
    inbound.extend(record(&[21], 4));
    inbound.extend(b"\nmore\n");
    let h = Handshake::new().step(Event::Done).step(Event::Received(inbound)).step(Event::Done);
    assert_eq!(
        h.failure(),
        Some(Failure {
            stage: Stage::Dispatching,
            cause: HandshakeError::Dispatch(DispatchError::UnhandledMessage(21)),
        })
    );
}

#[test]
fn peer_line_over_the_ceiling_is_an_invalid_length() {
    let expected =
        failure(Stage::AwaitingPeerVersion, ConnectError::Protocol(FramingError::InvalidLength));
    let mut long = vec![b'a'; 35000];
    long.push(b'\n');
    assert_eq!(Handshake::replay(&long), Err(expected));
    assert_eq!(Handshake::replay(&vec![b'a'; 35000]), Err(expected));
    let (h, _) = drive(&long, 1);
    assert_eq!(h.failure(), Some(expected));
    let (h, _) = drive(&long, 1 << 20);
    assert_eq!(h.failure(), Some(expected));

    // A line of 35000 bytes with its line feed is within the bound.
    let mut fits = vec![b'a'; 34999];
    fits.push(b'\n');
    let h = Handshake::new().step(Event::Done).step(Event::Received(fits.clone()));
    assert_eq!(h.stage(), Stage::SendingOwnVersion);
    assert_eq!(h.peer_version().unwrap().len(), 34999);
    assert_eq!(
        Handshake::replay(&fits),
        Err(failure(Stage::AwaitingFirstPacket, ConnectError::Closed))
    );
    assert_eq!(
        Handshake::replay(&vec![b'a'; 34999]),
        Err(failure(Stage::AwaitingPeerVersion, ConnectError::Closed))
    );
}

#[test]
fn events_that_answer_nothing_change_nothing() {
    let h = Handshake::new();
    let h = h.step(Event::Received(vec![1, 2, 3]));
    assert_eq!(h, Handshake::new());
    let h = h.step(Event::Closed);
    assert_eq!(h, Handshake::new());

    let reading = Handshake::new().step(Event::Done).step(Event::Received(b"SSH".to_vec()));
    let same = Handshake::new()
        .step(Event::Done)
        .step(Event::Received(b"SSH".to_vec()))
        .step(Event::Done)
        .step(Event::Received(vec![]));
    assert_eq!(reading, same);
}

#[test]
fn handshake_that_has_ended_stays_as_it_is() {
    let mut inbound = PEER_LINE.to_vec();
    inbound.extend(kexinit_record());
    let (done, _) = drive(&inbound, 50);
    let fields = Handshake::replay(&inbound).unwrap();
    let mut h = done;
    for event in [Event::Done, Event::Failed, Event::Received(vec![1, 2]), Event::Closed] {
        h = h.step(event);
        assert_eq!(h.stage(), Stage::DecodingKexInit);
        assert_eq!(h.action(), Action::Stop);
    }
    assert_eq!(h.finish(), Some(Ok(fields)));

    let mut failed = Handshake::new().step(Event::Failed);
    let expected = failed.failure();
    for event in [Event::Done, Event::Failed, Event::Received(vec![1, 2]), Event::Closed] {
        failed = failed.step(event);
        assert_eq!(failed.stage(), Stage::Failed);
        assert_eq!(failed.failure(), expected);
    }
}

#[test]
fn handshake_that_has_not_ended_gives_no_result() {
    assert_eq!(Handshake::new().finish(), None);
    assert_eq!(Handshake::new().step(Event::Done).finish(), None);
    let mut inbound = PEER_LINE.to_vec();
    let record = kexinit_record();
    inbound.extend(&record[..record.len() - 1]);
    let h = Handshake::new().step(Event::Done).step(Event::Received(inbound)).step(Event::Done);
    assert_eq!(h.stage(), Stage::AwaitingFirstPacket);
    assert_eq!(h.action(), Action::Read(1));
    assert_eq!(h.finish(), None);
}

#[test]
fn interpret_decodes_a_negotiation_and_nothing_else() {
    let record = kexinit_record();
    let fields = interpret(Packet::read_from(&record).unwrap()).unwrap();
    assert_eq!(first_list(&fields), vec!["curve25519-sha256", "diffie-hellman-group14-sha1"]);

    let newkeys = Packet::new(vec![21], vec![0; 4]).unwrap();
    assert_eq!(
        interpret(newkeys),
        Err(Failure {
            stage: Stage::Dispatching,
            cause: HandshakeError::Dispatch(DispatchError::UnhandledMessage(21)),
        })
    );
    let unknown = Packet::new(vec![200, 1], vec![0; 4]).unwrap();
    assert_eq!(
        interpret(unknown),
        Err(Failure {
            stage: Stage::Dispatching,
            cause: HandshakeError::Dispatch(DispatchError::UnknownMessage(200)),
        })
    );
    let empty = Packet::new(vec![], vec![0; 4]).unwrap();
    assert_eq!(
        interpret(empty),
        Err(failure(Stage::Dispatching, ConnectError::Protocol(FramingError::EmptyPayload)))
    );
    let short = Packet::new(vec![20, 1, 2], vec![0; 4]).unwrap();
    assert_eq!(
        interpret(short),
        Err(failure(Stage::DecodingKexInit, ConnectError::Protocol(FramingError::OutOfBounds)))
    );
}

#[test]
fn diagnostic_tells_of_each_stage_that_is_left() {
    let h = Handshake::new();
    assert_eq!(h.diagnostic(Stage::Connecting), None);
    let h = h.step(Event::Done);
    assert_eq!(
        h.diagnostic(Stage::Connecting),
        Some(Diagnostic {
            level: Level::Debug,
            from: Stage::Connecting,
            to: Stage::AwaitingPeerVersion,
            failure: None,
        })
    );
    let h = h.step(Event::Received(b"SSH-2.0".to_vec()));
    assert_eq!(h.diagnostic(Stage::AwaitingPeerVersion), None);
    let h = h.step(Event::Closed);
    let expected = failure(Stage::AwaitingPeerVersion, ConnectError::Closed);
    assert_eq!(
        h.diagnostic(Stage::AwaitingPeerVersion),
        Some(Diagnostic {
            level: Level::Error,
            from: Stage::AwaitingPeerVersion,
            to: Stage::Failed,
            failure: Some(expected),
        })
    );
    assert_eq!(h.diagnostic(Stage::Failed), None);

    let mut inbound = PEER_LINE.to_vec();
    inbound.extend(record(&[21], 4));
    let h = Handshake::new()
        .step(Event::Done)
        .step(Event::Received(inbound))
        .step(Event::Done);
    assert_eq!(
        h.diagnostic(Stage::SendingOwnVersion),
        Some(Diagnostic {
            level: Level::Error,
            from: Stage::SendingOwnVersion,
            to: Stage::Failed,
            failure: Some(Failure {
                stage: Stage::Dispatching,
                cause: HandshakeError::Dispatch(DispatchError::UnhandledMessage(21)),
            }),
        })
    );
}

#[test]
fn crate_root_names_the_main_items() {
    let packet = russh::Packet::new(vec![20], vec![0; 4]).unwrap();
    assert_eq!(packet.msg_type(), Ok(russh::MSG_TYPE::SSH_MSG_KEXINIT.code()));
    assert_eq!(russh::VERSION, VERSION);
    assert_eq!(russh::Handshake::new().stage(), russh::Stage::Connecting);
}
