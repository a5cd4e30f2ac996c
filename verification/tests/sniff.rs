use ztunnel::sniff::{judge_hello, Outcome, SniffStep, Sniffed, Sniffer, READ_SIZE};

fn extension(id: u16, body: &[u8]) -> Vec<u8> {
    let mut out = id.to_be_bytes().to_vec();
    out.extend_from_slice(&(body.len() as u16).to_be_bytes());
    out.extend_from_slice(body);
    out
}

fn client_hello(name: Option<&str>) -> Vec<u8> {
    let handshake = handshake(name, 0);
    let mut record = vec![0x16, 3, 1];
    record.extend_from_slice(&(handshake.len() as u16).to_be_bytes());
    record.extend_from_slice(&handshake);
    record
}

/// A handshake message in records of at most `size` bytes.
fn framed(handshake: &[u8], size: usize, minor: u8) -> Vec<u8> {
    let mut records = Vec::new();
    for fragment in handshake.chunks(size) {
        records.extend_from_slice(&[0x16, 3, minor]);
        records.extend_from_slice(&(fragment.len() as u16).to_be_bytes());
        records.extend_from_slice(fragment);
    }
    records
}

/// A client hello with so many bytes of padding.
fn handshake(name: Option<&str>, padding: usize) -> Vec<u8> {
    let mut extensions = Vec::new();
    if let Some(name) = name {
        let mut entry = vec![0];
        entry.extend_from_slice(&(name.len() as u16).to_be_bytes());
        entry.extend_from_slice(name.as_bytes());
        let mut list = (entry.len() as u16).to_be_bytes().to_vec();
        list.extend_from_slice(&entry);
        extensions.extend_from_slice(&extension(0, &list));
    }
    extensions.extend_from_slice(&extension(43, &[2, 3, 4]));
    extensions.extend_from_slice(&extension(10, &[0, 2, 0, 29]));
    extensions.extend_from_slice(&extension(13, &[0, 2, 4, 3]));
    let mut share = vec![0, 36, 0, 29, 0, 32];
    share.extend_from_slice(&[7; 32]);
    extensions.extend_from_slice(&extension(51, &share));
    if padding > 0 {
        extensions.extend_from_slice(&extension(21, &vec![0; padding]));
    }

    let mut body = vec![3, 3];
    body.extend_from_slice(&[9; 32]);
    body.push(0);
    body.extend_from_slice(&[0, 2, 0x13, 0x01]);
    body.extend_from_slice(&[1, 0]);
    body.extend_from_slice(&(extensions.len() as u16).to_be_bytes());
    body.extend_from_slice(&extensions);

    let mut handshake = vec![1, 0];
    handshake.extend_from_slice(&(body.len() as u16).to_be_bytes());
    handshake.extend_from_slice(&body);
    handshake
}

/// Feeds input in reads of at most `size` bytes. Input that runs out ends in a timeout.
fn sniff(input: &[u8], size: usize, max_bytes: usize) -> (Sniffed, Vec<u8>) {
    let mut sniffer = Sniffer::new(max_bytes);
    let mut rest = input;
    let mut step = sniffer.next();
    loop {
        match step {
            SniffStep::Read(limit) => {
                assert!(limit > 0 && limit <= READ_SIZE);
                if rest.is_empty() {
                    return (sniffer.time_out(), Vec::new());
                }
                let n = rest.len().min(size).min(limit);
                step = sniffer.feed(&rest[..n]);
                rest = &rest[n..];
            }
            SniffStep::Done(sni, outcome) => {
                return (sniffer.finish(sni, outcome), rest.to_vec());
            }
            SniffStep::Closed => panic!("closed"),
        }
    }
}

#[test]
fn segmented_client_hello_preserves_bytes() {
    for (name, split_records) in [
        ("example.com", false),
        ("other.example", true),
        ("127.0.0.1", false), // IP literals omit the SNI extension.
    ] {
        let expected_sni = (name != "127.0.0.1").then_some(name);
        let mut hello = client_hello(expected_sni);
        if split_records {
            assert_eq!(u16::from_be_bytes([hello[3], hello[4]]) as usize, hello.len() - 5);
            let mut records = Vec::new();
            for fragment in hello[5..].chunks(31) {
                records.extend_from_slice(&hello[..3]);
                records.extend_from_slice(&(fragment.len() as u16).to_be_bytes());
                records.extend_from_slice(fragment);
            }
            hello = records;
        }
        hello.extend_from_slice(b"following application bytes");
        for size in [1, 7, 4096] {
            let (result, rest) = sniff(&hello, size, 64 * 1024);
            assert_eq!(result.sni.as_deref(), expected_sni);
            assert!(!result.outcome.is_failure());
            assert_eq!(
                result.outcome,
                if expected_sni.is_some() { Outcome::SniFound } else { Outcome::SniNotFound }
            );
            let mut replay = result.data.to_vec();
            replay.extend_from_slice(&rest);
            assert_eq!(replay, hello);
        }
    }
}

#[test]
fn fallback_retains_data_and_never_sends_alerts() {
    for (input, max_bytes, outcome) in [
        (&b"GET / HTTP/1.1\r\n"[..], 1024, Outcome::NotTls),
        (&b"\x16\x03\x01"[..], 1024, Outcome::Timeout),
        (&b"\x16\x03\x01\0\x04\xff\0\0\0"[..], 1024, Outcome::ParseError),
        (&b"\x16\x03\x01"[..], 2, Outcome::TooLarge),
    ] {
        let (result, rest) = sniff(input, 128, max_bytes);
        assert_eq!(result.outcome, outcome);
        assert_eq!(result.outcome.is_failure(), outcome != Outcome::NotTls);
        assert!(result.sni.is_none());
        assert!(result.data.len() <= max_bytes);
        let mut replay = result.data.to_vec();
        replay.extend_from_slice(&rest);
        assert_eq!(replay, input);
    }
    assert_eq!(Sniffer::new(1024).feed(b""), SniffStep::Closed);
}

#[test]
fn a_closed_connection_is_told_at_any_time() {
    let mut sniffer = Sniffer::new(1024);
    assert_eq!(sniffer.feed(b"\x16\x03"), SniffStep::Read(1022));
    assert_eq!(sniffer.feed(b""), SniffStep::Closed);
    assert_eq!(&sniffer.time_out().data[..], b"\x16\x03");
}

#[test]
fn reads_stay_within_the_limits() {
    assert_eq!(Sniffer::new(100).next(), SniffStep::Read(100));
    assert_eq!(Sniffer::new(10000).next(), SniffStep::Read(4096));
    assert_eq!(Sniffer::new(0).next(), SniffStep::Done(None, Outcome::TooLarge));
    let mut sniffer = Sniffer::new(5000);
    let mut start = vec![0u8; 4096];
    start[..5].copy_from_slice(&[0x16, 3, 1, 0x3f, 0xff]);
    start[5..9].copy_from_slice(&[1, 0, 0x3f, 0]);
    assert_eq!(sniffer.feed(&start), SniffStep::Read(904));
    assert_eq!(sniffer.feed(&[0; 904]), SniffStep::Done(None, Outcome::TooLarge));
    let result = sniffer.finish(None, Outcome::TooLarge);
    assert_eq!(result.data.len(), 5000);
}

#[test]
fn plaintext_is_told_by_its_first_byte() {
    assert_eq!(Sniffer::new(10).feed(b"G"), SniffStep::Done(None, Outcome::NotTls));
    assert_eq!(Sniffer::new(10).feed(b"\x16"), SniffStep::Read(9));
}

#[test]
fn answers_of_the_acceptor_are_judged() {
    assert_eq!(judge_hello(Err(())), Some((None, Outcome::ParseError)));
    assert_eq!(judge_hello(Ok(None)), None);
    assert_eq!(judge_hello(Ok(Some(None))), Some((None, Outcome::SniNotFound)));
    let name = Some("a.example".to_string());
    assert_eq!(judge_hello(Ok(Some(name.clone()))), Some((name, Outcome::SniFound)));
}

#[test]
fn outcomes_have_labels() {
    for (outcome, label, failure) in [
        (Outcome::SniFound, "sni_found", false),
        (Outcome::SniNotFound, "sni_not_found", false),
        (Outcome::NotTls, "not_tls", false),
        (Outcome::ParseError, "parse_error", true),
        (Outcome::Timeout, "timeout", true),
        (Outcome::TooLarge, "too_large", true),
    ] {
        assert_eq!(outcome.as_str(), label);
        assert_eq!(outcome.is_failure(), failure);
    }
}

#[test]
fn record_splits_do_not_matter() {
    for name in [Some("split.example"), None] {
        let message = handshake(name, 0);
        for (size, minor) in [(1, 1), (2, 3), (5, 0), (31, 4), (300, 255), (16384, 1)] {
            let hello = framed(&message, size, minor);
            for follows in [&b""[..], b"\x16", b"\xff\xff\xff\xff\xff\xff", b"\x17\x03\x03\0\0"] {
                let mut stream = hello.clone();
                stream.extend_from_slice(follows);
                for reads in [1, 64, 4096] {
                    let (result, _) = sniff(&stream, reads, 64 * 1024);
                    assert_eq!(result.sni.as_deref(), name);
                    assert!(!result.outcome.is_failure());
                }
            }
        }
    }
}

#[test]
fn long_hellos_are_found_as_far_as_the_acceptor_holds_them() {
    let message = handshake(Some("long.example"), 60000);
    let stream = framed(&message, 16384, 1);
    assert!(stream.len() > 60000 && stream.len() <= 0xffff);
    // The same message in more records does not fit.
    let wide = framed(&message, 40, 1);
    assert!(wide.len() > 0xffff);
    for reads in [100, 4096] {
        let (result, _) = sniff(&stream, reads, 100_000);
        assert_eq!(result.sni.as_deref(), Some("long.example"));
        assert_eq!(result.data.len(), stream.len());
        let (result, rest) = sniff(&wide, reads, 100_000);
        assert_eq!((result.sni, result.outcome), (None, Outcome::ParseError));
        assert!(result.data.len() > 0xffff);
        let mut replay = result.data.to_vec();
        replay.extend_from_slice(&rest);
        assert_eq!(replay, wide);
    }
}

#[test]
fn a_message_may_fill_the_acceptor() {
    // The longest message whose records just fit, and one byte more.
    for (excess, outcome) in [(0, Outcome::SniFound), (1, Outcome::ParseError)] {
        let overhead = handshake(Some("full.example"), 1).len() - 1 + 4 * 5;
        let message = handshake(Some("full.example"), 0xffff - overhead + excess);
        let stream = framed(&message, 16384, 1);
        assert_eq!(stream.len(), 0xffff + excess);
        for reads in [999, 4096] {
            assert_eq!(sniff(&stream, reads, 100_000).0.outcome, outcome);
        }
    }
}

#[test]
fn bytes_behind_a_decided_search_are_no_hello() {
    let hello = client_hello(Some("a.example"));
    let mut sniffer = Sniffer::new(1024);
    let found = SniffStep::Done(Some("a.example".to_string()), Outcome::SniFound);
    assert_eq!(sniffer.feed(&hello), found);
    assert_eq!(sniffer.feed(&hello), SniffStep::Done(None, Outcome::ParseError));
    let mut sniffer = Sniffer::new(1024);
    assert_eq!(sniffer.feed(b"x"), SniffStep::Done(None, Outcome::NotTls));
    assert_eq!(sniffer.feed(b"\x16"), SniffStep::Done(None, Outcome::NotTls));
}

#[test]
fn unfinished_messages_are_read_on() {
    let hello = framed(&handshake(Some("a.example"), 0), 50, 1);
    for n in 1..hello.len() {
        let (result, rest) = sniff(&hello[..n], 16, 1024);
        assert_eq!((result.outcome, rest.len()), (Outcome::Timeout, 0));
        let (result, _) = sniff(&hello[..n], 16, n);
        assert_eq!(result.outcome, Outcome::TooLarge);
        assert_eq!(&result.data[..], &hello[..n]);
    }
    assert_eq!(Sniffer::new(2).feed(b"\x16\x03"), SniffStep::Done(None, Outcome::TooLarge));
}

#[test]
fn only_client_hellos_are_taken() {
    let hello = handshake(Some("a.example"), 0);
    for kind in [0u8, 2, 3, 4, 6, 8, 11, 15, 16, 20, 24, 254, 255] {
        let mut other = hello.clone();
        other[0] = kind;
        for message in [&other[..], &[kind, 0, 0, 0]] {
            let (result, _) = sniff(&framed(message, 40, 3), 7, 1024);
            assert_eq!((result.sni, result.outcome), (None, Outcome::ParseError));
        }
    }
}
