//! End-to-end tests of the transfer engine: sender, receiver and
//! dispatcher run against in-memory stores.

use plasma_stream::client::{parse_request, parse_sync_response};
use plasma_stream::codec::write_u64_le;
use plasma_stream::dispatcher::Dispatcher;
use plasma_stream::errors::{ClientError, ObjectSendError, PeerResult, RequestError, SyncError};
use plasma_stream::listener::AcceptBackoff;
use plasma_stream::plasma::{ObjectId, PlasmaStore};
use plasma_stream::request::{PeerAddr, PeerRequest, Request};
use plasma_stream::status_codes;
use plasma_stream::store::Store;
use plasma_stream::utils::map_object_ids;

fn id(b: u8) -> [u8; 20] {
    [b; 20]
}

fn addr(d: u8, port: u16) -> PeerAddr {
    PeerAddr { octets: [127, 0, 0, d], port }
}

fn new_store() -> Store {
    Store::new(PlasmaStore::new(0), 10)
}

fn seal_object(store: &mut Store, raw: [u8; 20], data: &[u8], meta: &[u8]) {
    store
        .plasma
        .create_and_seal(ObjectId::new(raw), data, meta)
        .unwrap();
}

#[test]
fn copy_happy_path() {
    // peer A seals X; client asks B to SYNC-COPY X from A
    let mut peer_a = new_store();
    let x = id(0x2a);
    let data = [2u8; 16];
    let meta = [1u8, 2, 3, 4];
    seal_object(&mut peer_a, x, &data, &meta);

    let mut dispatcher = Dispatcher { store: new_store() };
    let requests = vec![PeerRequest::Copy { from: addr(1, 2021), objects: vec![x] }];
    let (response, result) = dispatcher.run(&requests, &addr(2, 2021), &mut peer_a);

    assert!(result.is_ok());
    assert_eq!(response, vec![status_codes::SUCCESS]);
    let ob = dispatcher
        .store
        .plasma
        .get(ObjectId::new(x), 5)
        .unwrap()
        .unwrap();
    assert_eq!(ob.data(), &data[..]);
    assert_eq!(ob.meta(), &meta[..]);
    // the source still holds the object after a COPY
    assert!(peer_a.plasma.contains(&ObjectId::new(x)).unwrap());
}

#[test]
fn take_removes_from_source() {
    let mut peer_a = new_store();
    let x = id(0x2b);
    let data = [2u8; 16];
    let meta = [1u8, 2, 3, 4];
    seal_object(&mut peer_a, x, &data, &meta);

    let mut dispatcher = Dispatcher { store: new_store() };
    let requests = vec![PeerRequest::Take { from: addr(1, 2021), objects: vec![x] }];
    let (response, result) = dispatcher.run(&requests, &addr(2, 2021), &mut peer_a);

    assert!(result.is_ok());
    assert_eq!(response, vec![status_codes::SUCCESS]);
    assert!(!peer_a.plasma.contains(&ObjectId::new(x)).unwrap());
    assert!(dispatcher.store.plasma.contains(&ObjectId::new(x)).unwrap());
}

#[test]
fn self_request_rejected() {
    let mut peer_a = new_store();
    let local = addr(2, 2021);
    let mut dispatcher = Dispatcher { store: new_store() };
    let requests = vec![PeerRequest::Copy { from: local, objects: vec![id(1)] }];
    let (response, result) = dispatcher.run(&requests, &local, &mut peer_a);

    assert!(matches!(result, Err(SyncError::PeerAddressIsSelf)));
    assert_eq!(response, vec![status_codes::PEER_CONNECTION_ERR]);
    // no transfer happened
    assert!(!dispatcher.store.plasma.contains(&ObjectId::new(id(1))).unwrap());
}

#[test]
fn already_in_store() {
    let mut peer_a = new_store();
    let x = id(0x2c);
    seal_object(&mut peer_a, x, &[2u8; 16], &[1u8, 2, 3, 4]);

    let mut local = new_store();
    seal_object(&mut local, x, &[2u8; 16], &[1u8, 2, 3, 4]);
    let mut dispatcher = Dispatcher { store: local };
    let requests = vec![PeerRequest::Copy { from: addr(1, 2021), objects: vec![x] }];
    let (response, result) = dispatcher.run(&requests, &addr(2, 2021), &mut peer_a);

    assert!(result.is_ok());
    assert_eq!(response, vec![status_codes::OB_ALREADY_IN_STORE_ERR]);
}

#[test]
fn oversize_data_rejected_by_receiver() {
    // a stream that announces a data size over the cap is rejected and
    // the object does not appear in the store
    let mut local = new_store();
    let x = id(0x2d);
    let receiver = local.build_receiver(addr(1, 2021), vec![x]);
    let mut input: Vec<u8> = vec![status_codes::BEGIN];
    let oversize: u64 = (1u64 << 44) + 1;
    write_u64_le(4 + oversize * 65536, &mut input);
    input.extend_from_slice(&[9, 9, 9, 9]);
    let err = receiver.run(&mut local, &input).unwrap_err();
    assert_eq!(err.response_code(), status_codes::OB_DATA_TOO_LARGE_ERR);
    assert!(!local.plasma.contains(&ObjectId::new(x)).unwrap());
}

#[test]
fn zero_length_data_rejected_by_receiver() {
    let mut local = new_store();
    let x = id(0x2e);
    let receiver = local.build_receiver(addr(1, 2021), vec![x]);
    let mut input: Vec<u8> = vec![status_codes::BEGIN];
    write_u64_le(4, &mut input);  // meta size 4, data size 0
    input.extend_from_slice(&[9, 9, 9, 9]);
    let err = receiver.run(&mut local, &input).unwrap_err();
    assert_eq!(err.response_code(), status_codes::OB_DATA_ZERO_LENGTH_ERR);
}

#[test]
fn oversize_meta_rejected_by_sender() {
    // the sender refuses to stream an object whose metadata exceeds the
    // cap, without writing any data-plane bytes
    let mut peer = new_store();
    let x = id(0x2f);
    let big_meta = vec![7u8; 65537];
    seal_object(&mut peer, x, &[1u8; 8], &big_meta);
    let sender = peer.build_sender(addr(1, 2021), vec![x], false);
    let (out, result) = sender.run(&mut peer);
    assert!(result.is_err());
    assert_eq!(out, vec![status_codes::OB_META_TOO_LARGE_ERR]);
}

#[test]
fn deletion_scheduled_blocks_sender() {
    let mut peer = new_store();
    let x = id(0x30);
    seal_object(&mut peer, x, &[1u8; 8], &[]);
    peer.deleting.insert(x);
    let sender = peer.build_sender(addr(1, 2021), vec![x], false);
    let (out, result) = sender.run(&mut peer);
    assert!(result.is_err());
    assert_eq!(out, vec![status_codes::OB_DELETION_SCHEDULED_ERR]);
}

#[test]
fn missing_objects_reported_by_sender() {
    let mut peer = new_store();
    let sender = peer.build_sender(addr(1, 2021), vec![id(0x31)], false);
    let (out, result) = sender.run(&mut peer);
    assert!(result.is_err());
    assert_eq!(out, vec![status_codes::OB_NOT_FOUND_ERR]);
}

#[test]
fn concurrent_duplicate_requests() {
    // two identical SYNCs, one after the other: the first succeeds, the
    // second finds the object already in the local store
    let mut peer_a = new_store();
    let x = id(0x32);
    seal_object(&mut peer_a, x, &[2u8; 16], &[1u8, 2, 3, 4]);

    let mut dispatcher = Dispatcher { store: new_store() };
    let requests = vec![PeerRequest::Copy { from: addr(1, 2021), objects: vec![x] }];
    let (response1, _) = dispatcher.run(&requests, &addr(2, 2021), &mut peer_a);
    let (response2, _) = dispatcher.run(&requests, &addr(2, 2021), &mut peer_a);

    assert_eq!(response1, vec![status_codes::SUCCESS]);
    assert_eq!(response2, vec![status_codes::OB_ALREADY_IN_STORE_ERR]);
    assert!(dispatcher.store.plasma.contains(&ObjectId::new(x)).unwrap());
}

#[test]
fn already_receiving_blocks_second_receiver() {
    let mut local = new_store();
    let x = id(0x33);
    let receiver1 = local.build_receiver(addr(1, 2021), vec![x]);
    let receiver2 = local.build_receiver(addr(3, 2021), vec![x]);
    assert!(receiver1.prepare(&mut local).is_ok());
    let err = receiver2.prepare(&mut local).unwrap_err();
    assert_eq!(err.response_code(), status_codes::OB_ALREADY_RECEIVING_ERR);
    // once the first receiver is done, the id can be claimed again
    receiver1.finish(&mut local);
    assert!(receiver2.prepare(&mut local).is_ok());
}

#[test]
fn peer_store_error_code_is_translated() {
    // a peer that reports its own store error comes back as
    // PEER_PLASMA_STORE_ERR in the response
    let mut local = new_store();
    let x = id(0x34);
    let receiver = local.build_receiver(addr(1, 2021), vec![x]);
    let input = vec![status_codes::PLASMA_STORE_ERR];
    let err = receiver.run(&mut local, &input).unwrap_err();
    assert_eq!(err.response_code(), status_codes::PEER_PLASMA_STORE_ERR);
}

#[test]
fn receiver_rolls_back_on_truncated_stream() {
    // a stream that breaks off mid-way leaves none of the expected
    // objects in the store
    let mut peer = new_store();
    let x1 = id(0x35);
    let x2 = id(0x36);
    seal_object(&mut peer, x1, &[5u8; 8], &[1u8]);
    // produce a valid single-object stream for x1 via a sender
    let sender = peer.build_sender(addr(1, 2021), vec![x1], false);
    let (mut stream, result) = sender.run(&mut peer);
    assert!(result.is_ok());
    // announce a second object but truncate its frame
    stream.extend_from_slice(&[9, 9, 9]);

    let mut local = new_store();
    let receiver = local.build_receiver(addr(1, 2021), vec![x1, x2]);
    let err = receiver.run(&mut local, &stream).unwrap_err();
    assert_eq!(err.response_code(), status_codes::PEER_CONNECTION_ERR);
    assert!(!local.plasma.contains(&ObjectId::new(x1)).unwrap());
    assert!(!local.plasma.contains(&ObjectId::new(x2)).unwrap());
}

#[test]
fn response_has_one_byte_per_peer_request() {
    let mut peer_a = new_store();
    let x = id(0x37);
    seal_object(&mut peer_a, x, &[2u8; 16], &[]);
    let mut dispatcher = Dispatcher { store: new_store() };
    let requests = vec![
        PeerRequest::Copy { from: addr(1, 2021), objects: vec![x] },
        PeerRequest::Copy { from: addr(1, 2021), objects: vec![id(0x38)] },
    ];
    let (response, result) = dispatcher.run(&requests, &addr(2, 2021), &mut peer_a);
    assert!(result.is_ok());
    assert_eq!(response.len(), requests.len());
    assert_eq!(
        response,
        vec![status_codes::SUCCESS, status_codes::OB_NOT_FOUND_ERR]
    );
}

#[test]
fn sync_response_parsing() {
    assert!(parse_sync_response(&[status_codes::SUCCESS, status_codes::SUCCESS]).is_ok());
    let err = parse_sync_response(&[status_codes::SUCCESS, status_codes::OB_NOT_FOUND_ERR])
        .unwrap_err();
    match err {
        ClientError::SyncError(results) => {
            assert_eq!(results.len(), 2);
            assert!(results[0].is_ok());
            assert!(matches!(results[1], PeerResult::ObjectsNotFound));
        }
        _ => panic!("expected a SyncError"),
    }
}

#[test]
fn peer_result_decoding() {
    assert!(matches!(PeerResult::from(0x41), PeerResult::Success));
    assert!(matches!(PeerResult::from(0x50), PeerResult::ObjectMetaTooLarge));
    assert!(matches!(PeerResult::from(0x51), PeerResult::ObjectDataTooLarge));
    assert!(matches!(PeerResult::from(0x52), PeerResult::ZeroLengthObjectData));
    assert!(matches!(PeerResult::from(0x60), PeerResult::PlasmaStoreError));
    assert!(matches!(PeerResult::from(0x61), PeerResult::PeerPlasmaStoreError));
    assert!(matches!(PeerResult::from(0x62), PeerResult::PeerRequestPanicked));
    assert!(matches!(PeerResult::from(0x70), PeerResult::ObjectDeletionScheduled));
    assert!(matches!(PeerResult::from(0x71), PeerResult::ObjectsNotFound));
    assert!(matches!(PeerResult::from(0x80), PeerResult::AlreadyReceiving));
    assert!(matches!(PeerResult::from(0x81), PeerResult::AlreadyInStore));
    assert!(matches!(PeerResult::from(0x90), PeerResult::PeerConnectionError));
    assert!(matches!(PeerResult::from(0xff), PeerResult::UnknownError));
}

#[test]
fn client_line_parsing() {
    let reqs =
        parse_request("COPY 127.0.0.1:2021 0102030405060708090a0b0c0d0e0f1011121314").unwrap();
    assert_eq!(reqs.len(), 1);
    match &reqs[0] {
        PeerRequest::Copy { from, objects } => {
            assert_eq!(from.octets, [127, 0, 0, 1]);
            assert_eq!(from.port, 2021);
            assert_eq!(objects.len(), 1);
            assert_eq!(
                objects[0],
                [1u8, 2, 3, 4, 5, 6, 7, 8, 9, 10, 11, 12, 13, 14, 15, 16, 17, 18, 19, 20]
            );
        }
        _ => panic!("expected a COPY peer request"),
    }
    let reqs = parse_request("take 10.0.0.2:99 0000000000000000000000000000000000000000").unwrap();
    assert!(matches!(&reqs[0], PeerRequest::Take { .. }));

    assert!(parse_request("COPY 127.0.0.1:2021").is_err());
    assert!(parse_request("MOVE 127.0.0.1:2021 00").is_err());
    assert!(parse_request("COPY not-an-address 00").is_err());
    assert!(parse_request("COPY 127.0.0.1:2021 xyz").is_err());
    assert!(parse_request("COPY 127.0.0.1:2021 0102").is_err());
}

#[test]
fn accept_backoff_gives_up_on_fifth_failure() {
    let mut backoff = AcceptBackoff::new();
    assert_eq!(backoff.on_error(), Some(1));
    assert_eq!(backoff.on_error(), Some(2));
    assert_eq!(backoff.on_error(), Some(3));
    assert_eq!(backoff.on_error(), Some(4));
    assert_eq!(backoff.on_error(), None);
}

#[test]
fn map_object_ids_keeps_bytes() {
    let raw = [id(1), id(2)];
    let mapped = map_object_ids(&raw);
    assert_eq!(mapped.len(), 2);
    assert_eq!(mapped[0].to_bytes(), id(1));
    assert_eq!(mapped[1].to_bytes(), id(2));
}

#[test]
fn error_messages_render_exactly() {
    assert_eq!(
        RequestError::InvalidRequestType(9).describe(),
        "invalid request type 9"
    );
    assert_eq!(
        RequestError::ObjectIdListTooLong(65537).describe(),
        "object ID list is too long 65537"
    );
    let err = ObjectSendError::ObjectsNotFound(addr(1, 2021), vec![id(1)]);
    assert_eq!(
        err.describe(),
        "failed to send objects to 127.0.0.1:2021; objects not found:\n0x0101010101010101010101010101010101010101"
    );
    assert_eq!(PeerResult::Success.describe(), "Ok");
    assert_eq!(
        PeerResult::ObjectDeletionScheduled.describe(),
        "requested object(s) scheduled for deletion"
    );
}

#[test]
fn request_text_rendering() {
    let req = Request::Copy(vec![id(2)]);
    assert_eq!(
        req.describe(),
        "COPY\n0x0202020202020202020202020202020202020202"
    );
    let req = Request::Sync(vec![PeerRequest::Take { from: addr(3, 7), objects: vec![id(4)] }]);
    assert_eq!(
        req.describe(),
        "SYNC\nTAKE 127.0.0.3:7\n0x0404040404040404040404040404040404040404"
    );
}

#[test]
fn store_conflict_reported_as_store_error() {
    // the receiver hits a store conflict when an id it was told to pull
    // already has an entry it did not know about
    let mut peer = new_store();
    let x = id(0x39);
    seal_object(&mut peer, x, &[5u8; 8], &[1u8]);
    let sender = peer.build_sender(addr(1, 2021), vec![x], false);
    let (stream, result) = sender.run(&mut peer);
    assert!(result.is_ok());

    let mut local = new_store();
    seal_object(&mut local, x, &[9u8; 2], &[]);
    let receiver = local.build_receiver(addr(1, 2021), vec![x]);
    let err = receiver.run(&mut local, &stream).unwrap_err();
    assert_eq!(err.response_code(), status_codes::PLASMA_STORE_ERR);
}

#[test]
fn later_requests_see_earlier_transfers() {
    // a TAKE followed by a COPY of the same id in one SYNC: the second
    // request finds the object already in the local store
    let mut peer_a = new_store();
    let x = id(0x3a);
    seal_object(&mut peer_a, x, &[2u8; 16], &[1u8, 2, 3, 4]);

    let mut dispatcher = Dispatcher { store: new_store() };
    let requests = vec![
        PeerRequest::Take { from: addr(1, 2021), objects: vec![x] },
        PeerRequest::Copy { from: addr(1, 2021), objects: vec![x] },
    ];
    let (response, result) = dispatcher.run(&requests, &addr(2, 2021), &mut peer_a);
    assert!(result.is_ok());
    assert_eq!(
        response,
        vec![status_codes::SUCCESS, status_codes::OB_ALREADY_IN_STORE_ERR]
    );
    assert!(!peer_a.plasma.contains(&ObjectId::new(x)).unwrap());
    assert!(dispatcher.store.plasma.contains(&ObjectId::new(x)).unwrap());
}

#[test]
fn mixed_case_keywords_rejected() {
    assert!(parse_request("CoPy 127.0.0.1:2021 0102030405060708090a0b0c0d0e0f1011121314").is_err());
    assert!(parse_request("Take 127.0.0.1:2021 0102030405060708090a0b0c0d0e0f1011121314").is_err());
}

#[test]
fn address_bounds_enforced() {
    let hex_id = "0102030405060708090a0b0c0d0e0f1011121314";
    // octets above 255 and ports above 65535 are rejected
    assert!(parse_request(&format!("COPY 256.0.0.1:1 {}", hex_id)).is_err());
    assert!(parse_request(&format!("COPY 1.2.3.4:65536 {}", hex_id)).is_err());
    // missing port separator or missing octet is rejected
    assert!(parse_request(&format!("COPY 1.2.3.4 {}", hex_id)).is_err());
    assert!(parse_request(&format!("COPY 1.2.3:4 {}", hex_id)).is_err());
    // boundary values parse to themselves
    let reqs = parse_request(&format!("TAKE 255.255.255.255:65535 {}", hex_id)).unwrap();
    match &reqs[0] {
        PeerRequest::Take { from, .. } => {
            assert_eq!(from.octets, [255, 255, 255, 255]);
            assert_eq!(from.port, 65535);
        }
        _ => panic!("expected a TAKE peer request"),
    }
}
