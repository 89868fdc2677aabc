use crowbar_a2s::errors::Error;
use crowbar_a2s::integrity::{accept_checked, decompress_payload};
use crowbar_a2s::packet::{frame, Framing};
use crowbar_a2s::query::{request_with_challenge, Phase, Query, Step};
use crowbar_a2s::reassembly::{Collected, Reassembler};
use crowbar_a2s::wire::{u16_at, u32_at, Cursor};
use crowbar_a2s::{Builder, PLAYER_REQUEST, RULES_REQUEST};
use std::io::Write;

fn fragment(id: i32, total: u8, number: u8, switch: u16, body: &[u8]) -> Vec<u8> {
    let mut d = vec![0xFE, 0xFF, 0xFF, 0xFF];
    d.extend_from_slice(&id.to_le_bytes());
    d.push(total);
    d.push(number);
    d.extend_from_slice(&switch.to_le_bytes());
    d.extend_from_slice(body);
    d
}

fn first_fragment(id: i32, total: u8, number: u8, switch: u16, body: &[u8]) -> Vec<u8> {
    let mut sub = vec![0xFF, 0xFF, 0xFF, 0xFF];
    sub.extend_from_slice(body);
    fragment(id, total, number, switch, &sub)
}

fn collect(r: &mut Reassembler, datagrams: &[Vec<u8>]) -> Result<Vec<u8>, Error> {
    for d in datagrams {
        match r.on_datagram(d)? {
            Collected::Payload(p) => return Ok(p),
            Collected::Need(_) => {}
        }
    }
    panic!("response incomplete");
}

fn bz2(data: &[u8]) -> Vec<u8> {
    let mut e = bzip2::write::BzEncoder::new(Vec::new(), bzip2::Compression::default());
    e.write_all(data).unwrap();
    e.finish().unwrap()
}

fn crc32(data: &[u8]) -> u32 {
    crc::Crc::<u32>::new(&crc::CRC_32_ISO_HDLC).checksum(data)
}

#[test]
fn little_endian_reads() {
    let b = [0x34, 0x12, 0x78, 0x56, 0xFF];
    assert_eq!(u16_at(&b, 0), 0x1234);
    assert_eq!(u32_at(&b, 0), 0x5678_1234);
    let mut c = Cursor::new(vec![0xFF, 0xFF, 0xFF, 0xFF, 0x01, 0, 0, 0, 0, 0, 0, 0x80]);
    assert_eq!(c.read_i32(), Ok(-1));
    assert_eq!(c.read_u64(), Ok(0x8000_0000_0000_0001));
    assert_eq!(c.read_u8(), Err(Error::InvalidResponse));
}

#[test]
fn cstring_reads_stop_at_zero_or_end() {
    let mut c = Cursor::new(b"abc\0de".to_vec());
    assert_eq!(c.read_cstring(), "abc");
    assert_eq!(c.pos, 4);
    assert_eq!(c.read_cstring(), "de");
    assert_eq!(c.read_cstring(), "");
    assert_eq!(c.pos, 6);
}

#[test]
fn cstring_decodes_invalid_utf8_lossily() {
    let mut c = Cursor::new(vec![b'a', 0xFF, b'b', 0]);
    assert_eq!(c.read_cstring(), "a\u{FFFD}b");
}

#[test]
fn single_packet_payload_is_the_rest() {
    let d = vec![0xFF, 0xFF, 0xFF, 0xFF, 0x49, 1, 2, 3];
    match frame(&d, 1400) {
        Ok(Framing::Single(p)) => assert_eq!(p, vec![0x49, 1, 2, 3]),
        _ => panic!("expected a single packet"),
    }
    let mut r = Reassembler::new(1400);
    assert_eq!(collect(&mut r, &[d]).unwrap(), vec![0x49, 1, 2, 3]);
}

#[test]
fn unknown_header_is_invalid() {
    assert!(matches!(frame(&[0x00, 0xFF, 0xFF, 0xFF, 1], 1400), Err(Error::InvalidResponse)));
    assert!(matches!(frame(&[0xFF, 0xFF], 1400), Err(Error::InvalidResponse)));
}

#[test]
fn fragments_reassemble_in_any_order() {
    let f0 = first_fragment(7, 3, 0, 1400, b"abc");
    let f1 = fragment(7, 3, 1, 1400, b"def");
    let f2 = fragment(7, 3, 2, 1400, b"gh");
    let mut a = Reassembler::new(1400);
    let in_order = collect(&mut a, &[f0.clone(), f1.clone(), f2.clone()]).unwrap();
    assert_eq!(in_order, b"abcdefgh".to_vec());
    let mut b = Reassembler::new(1400);
    let reordered = collect(&mut b, &[f0, f2, f1]).unwrap();
    assert_eq!(reordered, in_order);
}

#[test]
fn first_arrival_need_not_be_number_zero() {
    let f1 = fragment(9, 2, 1, 1400, b"second");
    let f0 = first_fragment(9, 2, 0, 1400, b"first-");
    let mut r = Reassembler::new(1400);
    assert_eq!(collect(&mut r, &[f1, f0]).unwrap(), b"first-second".to_vec());
}

#[test]
fn number_zero_arriving_last_keeps_its_offset() {
    let f0 = first_fragment(7, 3, 0, 1400, b"abc");
    let f1 = fragment(7, 3, 1, 1400, b"def");
    let f2 = fragment(7, 3, 2, 1400, b"gh");
    let mut r = Reassembler::new(1400);
    assert_eq!(collect(&mut r, &[f2, f1, f0]).unwrap(), b"abcdefgh".to_vec());
}

#[test]
fn compressed_size_comes_from_fragment_zero() {
    let plain = b"abc".to_vec();
    let id: i32 = 0x8000_0003u32 as i32;
    let mut head = Vec::new();
    head.extend_from_slice(&(2u32 * 1024 * 1024).to_le_bytes());
    head.extend_from_slice(&crc32(&plain).to_le_bytes());
    let zero = fragment(id, 2, 0, 1400, &head);
    let one = fragment(id, 2, 1, 1400, &[0u8; 8]);
    let mut r = Reassembler::new(1400);
    assert_eq!(collect(&mut r, &[one, zero]), Err(Error::InvalidBz2Size));
}

#[test]
fn receive_size_is_the_switch_size() {
    let mut r = Reassembler::new(1400);
    match r.on_datagram(&first_fragment(1, 2, 0, 1200, b"x")) {
        Ok(Collected::Need(n)) => assert_eq!(n, 1200),
        _ => panic!("expected a request for more"),
    }
}

#[test]
fn mismatched_id_fails() {
    let f0 = first_fragment(7, 2, 0, 1400, b"abc");
    let f1 = fragment(8, 2, 1, 1400, b"def");
    let mut r = Reassembler::new(1400);
    assert_eq!(collect(&mut r, &[f0, f1]), Err(Error::MismatchID));
    assert!(r.pending.is_none());
}

#[test]
fn short_fragment_fails() {
    let f0 = first_fragment(7, 2, 0, 1400, b"abc");
    let mut r = Reassembler::new(1400);
    assert_eq!(collect(&mut r, &[f0, vec![0xFE, 0xFF, 0xFF, 0xFF, 7, 0, 0, 0, 2]]), Err(Error::InvalidResponse));
}

#[test]
fn oversized_switch_size_fails() {
    let d = first_fragment(7, 2, 0, 1401, b"abc");
    assert!(matches!(frame(&d, 1400), Err(Error::InvalidResponse)));
    assert!(matches!(frame(&d, 1401), Ok(Framing::Multi(_))));
}

#[test]
fn too_many_fragments_fails() {
    let d = first_fragment(7, 33, 0, 1400, b"abc");
    assert!(matches!(frame(&d, 1400), Err(Error::InvalidResponse)));
    let d = first_fragment(7, 32, 0, 1400, b"abc");
    assert!(matches!(frame(&d, 1400), Ok(Framing::Multi(_))));
}

#[test]
fn compressed_transaction_is_decompressed_and_checked() {
    let plain = b"rules and more rules".to_vec();
    let packed = bz2(&plain);
    let id: i32 = 0x8000_0005u32 as i32;
    let mut head = Vec::new();
    head.extend_from_slice(&(plain.len() as u32).to_le_bytes());
    head.extend_from_slice(&crc32(&plain).to_le_bytes());
    // The first fragment carries only the declared size and checksum.
    let first = fragment(id, 2, 0, 1400, &head);
    let mut later_body = vec![0u8; 8];
    later_body.extend_from_slice(&packed);
    let second = fragment(id, 2, 1, 1400, &later_body);
    let mut r = Reassembler::new(1400);
    let joined = collect(&mut r, &[first, second]);
    // The first fragment's payload starts four bytes into its sub-header, so
    // the checksum bytes lead the joined stream, which no longer decodes.
    assert_eq!(joined, Err(Error::Decompress));
}

#[test]
fn decompression_checks_the_checksum() {
    let plain = b"payload".to_vec();
    let packed = bz2(&plain);
    let good = decompress_payload(&packed, plain.len() as u32, crc32(&plain));
    assert_eq!(good, Ok(plain.clone()));
    let bad = decompress_payload(&packed, plain.len() as u32, crc32(&plain) ^ 1);
    assert_eq!(bad, Err(Error::CheckSumMismatch));
}

#[test]
fn decompression_rejects_oversized_and_malformed() {
    assert_eq!(decompress_payload(&[1, 2, 3], 1024 * 1024 + 1, 0), Err(Error::InvalidBz2Size));
    assert_eq!(decompress_payload(&[1, 2, 3], 4, 0), Err(Error::Decompress));
    let packed = bz2(b"abc");
    assert_eq!(decompress_payload(&packed, 10, 0), Err(Error::Decompress));
}

#[test]
fn accept_checked_compares_checksums() {
    assert_eq!(accept_checked(vec![1, 2], 5, 5), Ok(vec![1, 2]));
    assert_eq!(accept_checked(vec![1, 2], 5, 6), Err(Error::CheckSumMismatch));
}

#[test]
fn challenge_triggers_one_resend() {
    let mut q = Query::new(&PLAYER_REQUEST);
    assert_eq!(q.first_request(), vec![0xFF, 0xFF, 0xFF, 0xFF, 0x55, 0xFF, 0xFF, 0xFF, 0xFF]);
    match q.on_payload(vec![0x41, 0x78, 0x56, 0x34, 0x12]) {
        Ok(Step::Send(req)) => {
            assert_eq!(req, vec![0xFF, 0xFF, 0xFF, 0xFF, 0x55, 0x78, 0x56, 0x34, 0x12])
        }
        _ => panic!("expected a resend"),
    }
    assert_eq!(q.phase, Phase::Challenged);
    match q.on_payload(vec![0x41, 1, 2, 3, 4]) {
        Ok(Step::Done(p)) => assert_eq!(p, vec![0x41, 1, 2, 3, 4]),
        _ => panic!("a second challenge is final"),
    }
}

#[test]
fn unchallenged_response_is_final() {
    let mut q = Query::new(&RULES_REQUEST);
    match q.on_payload(vec![0x45, 0, 0]) {
        Ok(Step::Done(p)) => assert_eq!(p, vec![0x45, 0, 0]),
        _ => panic!("expected the payload"),
    }
    assert_eq!(q.phase, Phase::Initial);
}

#[test]
fn short_challenge_is_invalid() {
    let mut q = Query::new(&RULES_REQUEST);
    assert!(matches!(q.on_payload(vec![0x41, 1, 2]), Err(Error::InvalidResponse)));
}

#[test]
fn challenge_request_layout() {
    assert_eq!(request_with_challenge(&[0x56], -2), vec![0x56, 0xFE, 0xFF, 0xFF, 0xFF]);
}

#[test]
fn builder_defaults_and_setters() {
    let b = Builder::new();
    assert_eq!(b.max_size, 1400);
    assert_eq!(b.app_id, 0);
    assert_eq!(b.timeout, std::time::Duration::new(5, 0));
    let mut b = Builder::new();
    b.max_size(2000).app_id(2400).timeout(std::time::Duration::from_millis(250));
    let c = b.build_async().unwrap();
    assert_eq!(c.max_size, 2000);
    assert_eq!(c.app_id, 2400);
    assert_eq!(c.timeout, std::time::Duration::from_millis(250));
}
