use hyperion::mail::{kind_of, FrameBuffer, Mail, MailKind, DATA, LOG};

fn frame(typ: u8, data: &[u8]) -> Mail {
    Mail::new(typ, data.to_vec())
}

#[test]
fn encode_puts_type_big_endian_length_then_payload() {
    let m = frame(DATA, &[0xAA, 0xBB]);
    assert_eq!(
        m.as_bytes_vec(),
        vec![1, 0, 0, 0, 0, 0, 0, 0, 2, 0xAA, 0xBB]
    );
}

#[test]
fn encode_length_field_is_big_endian() {
    let m = Mail { typ: LOG, size: 0x0102_0304_0506_0708, data: vec![] };
    assert_eq!(m.as_bytes_vec(), vec![0, 1, 2, 3, 4, 5, 6, 7, 8]);
}

#[test]
fn round_trip_single_frame() {
    let m = frame(LOG, b"hello");
    let mut buf = FrameBuffer::new();
    buf.feed(&m.as_bytes_vec());
    let out = buf.next_mail().expect("a whole frame");
    assert_eq!(out.typ, LOG);
    assert_eq!(out.size, 5);
    assert_eq!(out.data, b"hello".to_vec());
    assert!(buf.next_mail().is_none());
    assert_eq!(buf.len(), 0);
}

#[test]
fn empty_payload_round_trips() {
    let m = frame(DATA, &[]);
    let mut buf = FrameBuffer::new();
    buf.feed(&m.as_bytes_vec());
    let out = buf.next_mail().expect("a whole frame");
    assert_eq!(out.typ, DATA);
    assert_eq!(out.size, 0);
    assert!(out.data.is_empty());
}

#[test]
fn incomplete_header_waits_for_more() {
    let mut buf = FrameBuffer::new();
    buf.feed(&[1, 0, 0, 0]);
    assert!(buf.next_mail().is_none());
    assert_eq!(buf.len(), 4);
}

#[test]
fn incomplete_payload_waits_for_more() {
    let bytes = frame(DATA, &[9, 8, 7]).as_bytes_vec();
    let mut buf = FrameBuffer::new();
    buf.feed(&bytes[..10]);
    assert!(buf.next_mail().is_none());
    buf.feed(&bytes[10..]);
    let out = buf.next_mail().expect("complete now");
    assert_eq!(out.data, vec![9, 8, 7]);
}

#[test]
fn trailing_bytes_stay_for_next_frame() {
    let mut stream = frame(DATA, &[1, 2]).as_bytes_vec();
    stream.extend(frame(LOG, &[3]).as_bytes_vec());
    stream.extend(&[1, 0]);
    let mut buf = FrameBuffer::new();
    buf.feed(&stream);
    let a = buf.next_mail().unwrap();
    let b = buf.next_mail().unwrap();
    assert_eq!((a.typ, a.data), (DATA, vec![1, 2]));
    assert_eq!((b.typ, b.data), (LOG, vec![3]));
    assert!(buf.next_mail().is_none());
    assert_eq!(buf.len(), 2);
}

#[test]
fn any_chunking_gives_the_same_frames() {
    let sent = vec![frame(DATA, &[0xAA, 0xBB]), frame(LOG, b"log line"), frame(DATA, &[])];
    let mut stream = Vec::new();
    for m in &sent {
        stream.extend(m.as_bytes_vec());
    }
    for chunk in 1..=stream.len() {
        let mut buf = FrameBuffer::new();
        let mut got = Vec::new();
        for piece in stream.chunks(chunk) {
            buf.feed(piece);
            while let Some(m) = buf.next_mail() {
                got.push((m.typ, m.size, m.data));
            }
        }
        let want: Vec<(u8, u64, Vec<u8>)> =
            sent.iter().map(|m| (m.typ, m.size, m.data.clone())).collect();
        assert_eq!(got, want, "chunk size {}", chunk);
        assert_eq!(buf.len(), 0);
    }
}

#[test]
fn duplicate_keeps_every_field() {
    let m = frame(DATA, &[5, 6, 7]);
    let d = m.duplicate();
    assert_eq!((d.typ, d.size, d.data), (DATA, 3, vec![5, 6, 7]));
}

#[test]
fn frames_are_routed_by_type() {
    assert_eq!(kind_of(LOG), Some(MailKind::Log));
    assert_eq!(kind_of(DATA), Some(MailKind::Data));
    assert_eq!(kind_of(2), None);
    assert_eq!(kind_of(255), None);
}
