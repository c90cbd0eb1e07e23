//! Tests of the wire codec, hex encoding and request validation.

use plasma_stream::codec::{
    decode_object_header, encode_object_header, read_u16_le, read_u64_le, write_u16_le,
    write_u64_le, ReadOutcome,
};
use plasma_stream::errors::RequestError;
use plasma_stream::hexfmt::{hex_decode, hex_encode};
use plasma_stream::request::{PeerAddr, PeerRequest, Request};

fn id(b: u8) -> [u8; 20] {
    [b; 20]
}

#[test]
fn hex_round_trip() {
    let bytes = [
        1u8, 2, 3, 4, 5, 6, 7, 8, 9, 10, 11, 12, 13, 14, 15, 16, 17, 18, 19, 20,
    ];
    let encoded = hex_encode(&bytes);
    assert_eq!("0102030405060708090a0b0c0d0e0f1011121314", encoded);
    let decoded = hex_decode(&encoded).unwrap();
    assert_eq!(decoded, bytes.to_vec());
}

#[test]
fn hex_decode_rejects_bad_input() {
    assert!(hex_decode("0g").is_none());
    assert!(hex_decode("012").is_none());
    assert_eq!(hex_decode("ABCD").unwrap(), vec![0xab, 0xcd]);
}

#[test]
fn u16_le_round_trip() {
    let mut out = Vec::new();
    write_u16_le(0xbeef, &mut out);
    assert_eq!(out, vec![0xef, 0xbe]);
    let (x, end) = read_u16_le(&out, 0).unwrap();
    assert_eq!(x, 0xbeef);
    assert_eq!(end, 2);
}

#[test]
fn u64_le_round_trip() {
    let mut out = Vec::new();
    write_u64_le(0x0123456789abcdef, &mut out);
    assert_eq!(out, vec![0xef, 0xcd, 0xab, 0x89, 0x67, 0x45, 0x23, 0x01]);
    let (x, end) = read_u64_le(&out, 0).unwrap();
    assert_eq!(x, 0x0123456789abcdef);
    assert_eq!(end, 8);
}

#[test]
fn object_header_round_trip() {
    let header = encode_object_header(0x1234, 0x56789abcde);
    let (meta, data) = decode_object_header(header);
    assert_eq!(meta, 0x1234);
    assert_eq!(data, 0x56789abcde);
}

#[test]
fn copy_request_byte_round_trip() {
    // COPY, two ids
    let mut bytes: Vec<u8> = vec![2, 2, 0];
    bytes.extend_from_slice(&id(0xaa));
    bytes.extend_from_slice(&id(0xbb));
    match Request::read_from(&bytes, 0) {
        ReadOutcome::Done(req, end) => {
            assert_eq!(end, bytes.len());
            match &req {
                Request::Copy(ids) => {
                    assert_eq!(ids.len(), 2);
                    assert_eq!(ids[0], id(0xaa));
                    assert_eq!(ids[1], id(0xbb));
                }
                _ => panic!("expected COPY"),
            }
            let mut out = Vec::new();
            req.write_into(&mut out);
            assert_eq!(out, bytes, "re-encoding the request yields the input bytes");
        }
        _ => panic!("expected a complete request"),
    }
}

#[test]
fn take_request_byte_round_trip() {
    let mut bytes: Vec<u8> = vec![3, 1, 0];
    bytes.extend_from_slice(&id(0x07));
    match Request::read_from(&bytes, 0) {
        ReadOutcome::Done(req, end) => {
            assert_eq!(end, bytes.len());
            assert!(matches!(&req, Request::Take(ids) if ids.len() == 1));
            let mut out = Vec::new();
            req.write_into(&mut out);
            assert_eq!(out, bytes);
        }
        _ => panic!("expected a complete request"),
    }
}

#[test]
fn sync_request_byte_round_trip() {
    // SYNC with one COPY peer request from 10.1.2.3:513 and one TAKE from
    // the same peer, each naming one object
    let mut bytes: Vec<u8> = vec![1, 2, 0];
    bytes.extend_from_slice(&[2, 4, 1, 2, 10, 1, 2, 3, 1, 0]);
    bytes.extend_from_slice(&id(0x11));
    bytes.extend_from_slice(&[3, 4, 1, 2, 10, 1, 2, 3, 1, 0]);
    bytes.extend_from_slice(&id(0x22));
    match Request::read_from(&bytes, 0) {
        ReadOutcome::Done(req, end) => {
            assert_eq!(end, bytes.len());
            match &req {
                Request::Sync(prs) => {
                    assert_eq!(prs.len(), 2);
                    match &prs[0] {
                        PeerRequest::Copy { from, objects } => {
                            assert_eq!(from.octets, [10, 1, 2, 3]);
                            assert_eq!(from.port, 513);
                            assert_eq!(objects.len(), 1);
                            assert_eq!(objects[0], id(0x11));
                        }
                        _ => panic!("expected COPY peer request"),
                    }
                    assert!(matches!(&prs[1], PeerRequest::Take { .. }));
                }
                _ => panic!("expected SYNC"),
            }
            let mut out = Vec::new();
            req.write_into(&mut out);
            assert_eq!(out, bytes, "re-encoding the request yields the input bytes");
        }
        _ => panic!("expected a complete request"),
    }
}

#[test]
fn value_round_trip_through_bytes() {
    let req = Request::Sync(vec![PeerRequest::Copy {
        from: PeerAddr { octets: [127, 0, 0, 1], port: 2021 },
        objects: vec![id(1), id(2)],
    }]);
    let mut out = Vec::new();
    req.write_into(&mut out);
    match Request::read_from(&out, 0) {
        ReadOutcome::Done(req2, end) => {
            assert_eq!(end, out.len());
            let mut out2 = Vec::new();
            req2.write_into(&mut out2);
            assert_eq!(out, out2);
        }
        _ => panic!("expected a complete request"),
    }
}

#[test]
fn invalid_request_type_rejected() {
    let bytes: Vec<u8> = vec![9, 0, 0];
    assert!(matches!(
        Request::read_from(&bytes, 0),
        ReadOutcome::Failed(RequestError::InvalidRequestType(9))
    ));
}

#[test]
fn invalid_peer_request_type_rejected() {
    let bytes: Vec<u8> = vec![1, 1, 0, 7];
    assert!(matches!(
        Request::read_from(&bytes, 0),
        ReadOutcome::Failed(RequestError::InvalidPeerRequestType(7))
    ));
}

#[test]
fn ipv6_address_rejected() {
    // SYNC with one COPY peer request whose address family is IPv6
    let bytes: Vec<u8> = vec![1, 1, 0, 2, 6, 1, 2];
    assert!(matches!(
        Request::read_from(&bytes, 0),
        ReadOutcome::Failed(RequestError::InvalidPeerAddressType(6))
    ));
}

#[test]
fn truncated_request_is_incomplete() {
    let bytes: Vec<u8> = vec![2, 5, 0, 1, 2, 3];
    assert!(matches!(
        Request::read_from(&bytes, 0),
        ReadOutcome::Incomplete
    ));
    let empty: Vec<u8> = Vec::new();
    assert!(matches!(Request::read_from(&empty, 0), ReadOutcome::Incomplete));
}

#[test]
fn validate_rejects_empty_id_list() {
    let req = Request::Copy(Vec::new());
    assert!(matches!(
        req.validate(),
        Err(RequestError::ObjectIdListTooShort)
    ));
}

#[test]
fn validate_rejects_too_long_id_list() {
    let mut ids = Vec::new();
    for i in 0..65537usize {
        let mut v = [0u8; 20];
        v[0] = (i % 256) as u8;
        v[1] = ((i / 256) % 256) as u8;
        v[2] = (i / 65536) as u8;
        ids.push(v);
    }
    let req = Request::Copy(ids);
    assert!(matches!(
        req.validate(),
        Err(RequestError::ObjectIdListTooLong(65537))
    ));
}

#[test]
fn validate_rejects_duplicate_ids() {
    let req = Request::Copy(vec![id(1), id(2), id(1)]);
    assert!(matches!(
        req.validate(),
        Err(RequestError::DuplicateObjectIds)
    ));
}

#[test]
fn validate_rejects_empty_sync() {
    let req = Request::Sync(Vec::new());
    assert!(matches!(
        req.validate(),
        Err(RequestError::PeerRequestListTooShort)
    ));
}

#[test]
fn validate_rejects_too_many_peers() {
    let from = PeerAddr { octets: [127, 0, 0, 1], port: 1 };
    let mut prs = Vec::new();
    for i in 0..1025usize {
        let mut v = [0u8; 20];
        v[0] = (i % 256) as u8;
        v[1] = (i / 256) as u8;
        prs.push(PeerRequest::Copy { from, objects: vec![v] });
    }
    let req = Request::Sync(prs);
    assert!(matches!(
        req.validate(),
        Err(RequestError::PeerRequestListTooLong(1025))
    ));
}

#[test]
fn validate_rejects_duplicates_across_peers() {
    let from = PeerAddr { octets: [127, 0, 0, 1], port: 1 };
    let req = Request::Sync(vec![
        PeerRequest::Copy { from, objects: vec![id(1)] },
        PeerRequest::Take { from, objects: vec![id(1)] },
    ]);
    assert!(matches!(
        req.validate(),
        Err(RequestError::DuplicateObjectIds)
    ));
}

#[test]
fn validate_accepts_well_formed_sync() {
    let from = PeerAddr { octets: [127, 0, 0, 1], port: 1 };
    let req = Request::Sync(vec![
        PeerRequest::Copy { from, objects: vec![id(1), id(2)] },
        PeerRequest::Take { from, objects: vec![id(3)] },
    ]);
    assert!(req.validate().is_ok());
}
