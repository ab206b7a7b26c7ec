use msq::error::ProtocolError;
use msq::session::{Address, QuerySession, MAX_DATAGRAM};

const HEADER: [u8; 6] = [0xFF, 0xFF, 0xFF, 0xFF, 0x66, 0x0A];

fn datagram(entries: &[(u8, u8, u8, u8, u16)], terminator: bool) -> Vec<u8> {
    let mut d = HEADER.to_vec();
    for &(a, b, c, dd, port) in entries {
        d.push(a);
        d.push(b);
        d.push(c);
        d.push(dd);
        d.push((port >> 8) as u8);
        d.push((port & 0xFF) as u8);
    }
    if terminator {
        d.extend_from_slice(&[0x00, 0x00, 0x00, 0x00, 0x00, 0x00]);
    }
    d
}

fn expected_request(region: u8, cursor: &str, filter: &[u8]) -> Vec<u8> {
    let mut r = vec![0x31, region];
    r.extend_from_slice(cursor.as_bytes());
    r.push(0x00);
    r.extend_from_slice(filter);
    r.push(0x00);
    r
}

#[test]
fn first_request_carries_zero_cursor() {
    let filter = b"\\appid\\240\\map\\de_dust2";
    let session = QuerySession::new(0x03, filter.to_vec());
    assert_eq!(
        session.next_request(),
        expected_request(0x03, "0.0.0.0:0", filter)
    );
}

#[test]
fn end_to_end_single_page() {
    // Request region Europe with a concrete filter; the directory answers
    // with one entry and the terminator.
    let filter = b"\\appid\\240\\map\\de_dust2";
    let mut session = QuerySession::new(0x03, filter.to_vec());
    assert_eq!(
        session.next_request(),
        expected_request(0x03, "0.0.0.0:0", filter)
    );

    let mut d = HEADER.to_vec();
    d.extend_from_slice(&[0x01, 0x02, 0x03, 0x04, 0x00, 0x1A]);
    d.extend_from_slice(&[0x00, 0x00, 0x00, 0x00, 0x00, 0x00]);

    let entries = session.handle_datagram(&d).unwrap();
    assert_eq!(entries.len(), 1);
    assert_eq!(entries[0].0, Address { a: 1, b: 2, c: 3, d: 4 });
    assert_eq!(entries[0].1, 26);
    // The terminator was seen: the session owes no second request.
    assert!(session.is_finished());
}

#[test]
fn empty_first_page_finishes_after_one_request() {
    let mut session = QuerySession::new(0xFF, b"".to_vec());
    let d = datagram(&[], true);
    let entries = session.handle_datagram(&d).unwrap();
    assert!(entries.is_empty());
    assert!(session.is_finished());
}

#[test]
fn cursor_continues_from_last_entry() {
    // Page one yields two addresses and no terminator; the second request
    // must carry the last of them as its cursor.
    let filter = b"\\appid\\240";
    let mut session = QuerySession::new(0xFF, filter.to_vec());
    let page1 = datagram(&[(1, 2, 3, 4, 100), (5, 6, 7, 8, 200)], false);
    let entries = session.handle_datagram(&page1).unwrap();
    assert_eq!(entries.len(), 2);
    assert!(!session.is_finished());
    assert_eq!(
        session.next_request(),
        expected_request(0xFF, "5.6.7.8:200", filter)
    );

    let page2 = datagram(&[], true);
    let entries = session.handle_datagram(&page2).unwrap();
    assert!(entries.is_empty());
    assert!(session.is_finished());
}

#[test]
fn empty_page_leaves_cursor_unchanged() {
    let filter = b"f";
    let mut session = QuerySession::new(0x00, filter.to_vec());
    let page1 = datagram(&[(9, 9, 9, 9, 9)], false);
    session.handle_datagram(&page1).unwrap();
    let page2 = datagram(&[], false);
    let entries = session.handle_datagram(&page2).unwrap();
    assert!(entries.is_empty());
    assert!(!session.is_finished());
    assert_eq!(
        session.next_request(),
        expected_request(0x00, "9.9.9.9:9", filter)
    );
}

#[test]
fn terminator_is_never_delivered() {
    // Entries after the terminator are not delivered either, and the
    // all-zero pair itself never appears among the results.
    let mut session = QuerySession::new(0x01, b"f".to_vec());
    let mut d = datagram(&[(1, 2, 3, 4, 100)], true);
    d.extend_from_slice(&[5, 6, 7, 8, 0x00, 0xC8]);
    let entries = session.handle_datagram(&d).unwrap();
    assert_eq!(entries.len(), 1);
    for (addr, _) in &entries {
        assert_ne!(*addr, Address { a: 0, b: 0, c: 0, d: 0 });
    }
    assert!(session.is_finished());
}

#[test]
fn terminator_port_bytes_are_ignored() {
    // The two bytes after the all-zero address may hold anything.
    let mut session = QuerySession::new(0x01, b"f".to_vec());
    let mut d = datagram(&[(1, 2, 3, 4, 100)], false);
    d.extend_from_slice(&[0x00, 0x00, 0x00, 0x00, 0xAB, 0xCD]);
    let entries = session.handle_datagram(&d).unwrap();
    assert_eq!(entries.len(), 1);
    assert!(session.is_finished());
    // The cursor stays on the last real entry, not the terminator.
    assert_eq!(
        session.next_request(),
        expected_request(0x01, "1.2.3.4:100", b"f")
    );
}

#[test]
fn short_trailing_run_is_not_an_error() {
    // Fewer than six bytes left after a full entry: decoding stops early,
    // the page is simply over without a terminator.
    let mut session = QuerySession::new(0x01, b"f".to_vec());
    let mut d = datagram(&[(1, 2, 3, 4, 100)], false);
    d.extend_from_slice(&[0x00, 0x00, 0x00, 0x00]);
    let entries = session.handle_datagram(&d).unwrap();
    assert_eq!(entries.len(), 1);
    assert!(!session.is_finished());
}

#[test]
fn header_mismatch_fails_and_delivers_nothing() {
    // Flip each header byte in turn: every variant must abort the session
    // with HeaderMismatch before any entry is delivered.
    for i in 0..6 {
        let mut session = QuerySession::new(0x03, b"f".to_vec());
        let mut d = datagram(&[(1, 2, 3, 4, 100)], true);
        d[i] ^= 0x01;
        assert_eq!(
            session.handle_datagram(&d),
            Err(ProtocolError::HeaderMismatch)
        );
        assert!(!session.is_finished());
    }
}

#[test]
fn truncated_header_is_eof() {
    let mut session = QuerySession::new(0x03, b"f".to_vec());
    assert_eq!(
        session.handle_datagram(&HEADER[..5]),
        Err(ProtocolError::UnexpectedEof)
    );
}

#[test]
fn oversized_datagram_is_malformed() {
    let mut session = QuerySession::new(0x03, b"f".to_vec());
    let mut d = datagram(&[], true);
    d.resize(MAX_DATAGRAM, 0x00);
    assert_eq!(
        session.handle_datagram(&d),
        Err(ProtocolError::MalformedResponse)
    );
}

#[test]
fn large_port_and_octets_render_in_decimal() {
    let mut session = QuerySession::new(0xFF, b"".to_vec());
    let page = datagram(&[(255, 0, 12, 101, 65535)], false);
    session.handle_datagram(&page).unwrap();
    assert_eq!(
        session.next_request(),
        expected_request(0xFF, "255.0.12.101:65535", b"")
    );
}

#[test]
fn default_address_is_terminator() {
    let addr = Address::default();
    assert!(addr.is_terminator());
    assert_eq!(addr, Address { a: 0, b: 0, c: 0, d: 0 });
    assert!(!Address { a: 0, b: 0, c: 0, d: 1 }.is_terminator());
}
