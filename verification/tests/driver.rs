use std::io::{self, Read, Write};

use clamav_client::{clean, get_version, ping, scan, shutdown, Action, Event, Exchange, PONG};

const OK_RESPONSE: &[u8] = b"stream: OK\0";
const SIZE_LIMIT_EXCEEDED_ERROR_RESPONSE: &[u8] = b"INSTREAM size limit exceeded. ERROR\0";

/// A peer in memory: it keeps what is written to it, up to a limit beyond
/// which it refuses writes, and answers with a reply that it was given.
struct Peer {
    received: Vec<u8>,
    accepts: usize,
    flushes: usize,
    reply: io::Cursor<Vec<u8>>,
}

impl Peer {
    fn new(reply: &[u8]) -> Peer {
        Peer::refusing_beyond(usize::MAX, reply)
    }

    fn refusing_beyond(accepts: usize, reply: &[u8]) -> Peer {
        Peer {
            received: Vec::new(),
            accepts,
            flushes: 0,
            reply: io::Cursor::new(reply.to_vec()),
        }
    }
}

impl Write for Peer {
    fn write(&mut self, bytes: &[u8]) -> io::Result<usize> {
        if self.received.len() + bytes.len() > self.accepts {
            return Err(io::Error::new(io::ErrorKind::BrokenPipe, "the peer has closed"));
        }
        self.received.extend_from_slice(bytes);
        Ok(bytes.len())
    }

    fn flush(&mut self) -> io::Result<()> {
        self.flushes += 1;
        Ok(())
    }
}

impl Read for Peer {
    fn read(&mut self, buffer: &mut [u8]) -> io::Result<usize> {
        self.reply.read(buffer)
    }
}

/// Input that fails once it has given what it holds.
struct Failing<'a>(&'a [u8]);

impl Read for Failing<'_> {
    fn read(&mut self, buffer: &mut [u8]) -> io::Result<usize> {
        if self.0.is_empty() {
            return Err(io::Error::new(io::ErrorKind::UnexpectedEof, "the disk is gone"));
        }
        self.0.read(buffer)
    }
}

/// Does on `stream` and with `input` what `exchange` asks for.
fn drive<R: Read, RW: Read + Write>(
    mut input: R,
    stream: &mut RW,
    mut exchange: Exchange,
) -> io::Result<Vec<u8>> {
    let mut buffer = Vec::new();
    let mut action = exchange.step(Event::Ready);
    loop {
        action = match action.expect("an action") {
            Action::Write(bytes) => match stream.write_all(&bytes) {
                Ok(()) => exchange.step(Event::Ready),
                Err(failure) => exchange.step(Event::Failed(failure)),
            },
            Action::Read(most) => {
                buffer.resize(most, 0);
                match input.read(&mut buffer[..]) {
                    Ok(len) => exchange.step(Event::Input(&buffer[..len])),
                    Err(failure) => exchange.step(Event::Failed(failure)),
                }
            }
            Action::Next => panic!("a reader has no chunks"),
            Action::Flush => match stream.flush() {
                Ok(()) => exchange.step(Event::Ready),
                Err(failure) => exchange.step(Event::Failed(failure)),
            },
            Action::ReadResponse => {
                let mut response = Vec::new();
                match stream.read_to_end(&mut response) {
                    Ok(_) => exchange.step(Event::Response(response)),
                    Err(failure) => exchange.step(Event::Failed(failure)),
                }
            }
            Action::Finish(outcome) => return outcome,
        };
    }
}

#[test]
fn ping_over_a_stream() {
    let mut peer = Peer::new(&PONG);
    let response = drive(io::empty(), &mut peer, ping()).expect("a response");
    assert_eq!(response, PONG);
    assert_eq!(peer.received, b"zPING\0");
    assert_eq!(peer.flushes, 1);
}

#[test]
fn version_over_a_stream() {
    let mut peer = Peer::new(b"ClamAV 1.4.1\0");
    let response = drive(io::empty(), &mut peer, get_version()).expect("a response");
    assert!(response.starts_with(b"ClamAV"));
    assert_eq!(peer.received, b"zVERSION\0");
}

#[test]
fn shutdown_over_a_stream() {
    let mut peer = Peer::new(b"");
    let response = drive(io::empty(), &mut peer, shutdown()).expect("a response");
    assert!(response.is_empty());
    assert_eq!(peer.received, b"zSHUTDOWN\0");
}

#[test]
fn buffer_is_scanned_over_a_stream() {
    let buffer: Vec<u8> = (0..10_000u32).map(|i| (i % 251) as u8).collect();
    let mut peer = Peer::new(OK_RESPONSE);
    let exchange = scan(None).expect("the default chunk size");
    let response = drive(&buffer[..], &mut peer, exchange).expect("a response");
    assert_eq!(clean(&response), Ok(true));
    let mut wire = b"zINSTREAM\0".to_vec();
    for piece in buffer.chunks(4096) {
        wire.extend_from_slice(&(piece.len() as u32).to_be_bytes());
        wire.extend_from_slice(piece);
    }
    wire.extend_from_slice(&[0, 0, 0, 0]);
    assert_eq!(peer.received, wire);
    assert_eq!(peer.flushes, 1);
}

#[test]
fn buffer_is_scanned_in_chunks_of_the_caller() {
    let buffer = b"0123456789";
    for limit in [1usize, 3, 10, 11] {
        let mut peer = Peer::new(OK_RESPONSE);
        let exchange = scan(Some(limit)).expect("a chunk size");
        drive(&buffer[..], &mut peer, exchange).expect("a response");
        let mut wire = b"zINSTREAM\0".to_vec();
        for piece in buffer.chunks(limit) {
            wire.extend_from_slice(&(piece.len() as u32).to_be_bytes());
            wire.extend_from_slice(piece);
        }
        wire.extend_from_slice(&[0, 0, 0, 0]);
        assert_eq!(peer.received, wire);
    }
}

#[test]
fn peer_that_closes_early_fails_the_scan() {
    let buffer = vec![7u8; 50_000];
    let mut peer = Peer::refusing_beyond(20_000, SIZE_LIMIT_EXCEEDED_ERROR_RESPONSE);
    let exchange = scan(None).expect("the default chunk size");
    let failure = drive(&buffer[..], &mut peer, exchange).expect_err("a failure");
    assert_eq!(failure.kind(), io::ErrorKind::BrokenPipe);
    assert!(peer.received.len() <= 20_000);
    assert!(!peer.received.ends_with(&[0, 0, 0, 0]));
    assert_eq!(peer.flushes, 0);
    assert_eq!(peer.reply.position(), 0);
}

#[test]
fn input_that_fails_sends_no_terminator() {
    let mut peer = Peer::new(OK_RESPONSE);
    let exchange = scan(Some(4)).expect("a chunk size");
    let failure = drive(Failing(b"abcdef"), &mut peer, exchange).expect_err("a failure");
    assert_eq!(failure.kind(), io::ErrorKind::UnexpectedEof);
    let mut wire = b"zINSTREAM\0".to_vec();
    wire.extend_from_slice(&[0, 0, 0, 4]);
    wire.extend_from_slice(b"abcd");
    wire.extend_from_slice(&[0, 0, 0, 2]);
    wire.extend_from_slice(b"ef");
    assert_eq!(peer.received, wire);
    assert_eq!(peer.flushes, 0);
    assert_eq!(peer.reply.position(), 0);
}
