use blob_db::funcs::blob_hash;
use blob_db::serialize::{
    recv_request, recv_response, send_request, send_response, Request, Response,
};
use blob_db::types::Status;
use blob_db::wire::RecvError;

fn request_bytes(r: &Request) -> Vec<u8> {
    let mut out = Vec::new();
    send_request(&mut out, r);
    out
}

fn response_bytes(r: &Response) -> Vec<u8> {
    let mut out = Vec::new();
    send_response(&mut out, r);
    out
}

#[test]
fn requests_roundtrip() {
    let id = blob_hash(b"z");
    let requests = vec![
        Request::StoreCreate("s".to_string()),
        Request::StoreDestroy("s".to_string()),
        Request::BlobHash(b"blob".to_vec()),
        Request::BlobList("s".to_string()),
        Request::BlobInfo("s".to_string(), id),
        Request::BlobLoad("s".to_string(), id),
        Request::BlobSave("s".to_string(), b"blob".to_vec()),
        Request::BlobDelete("s".to_string(), id),
    ];
    for r in &requests {
        let mut bytes = request_bytes(r);
        let len = bytes.len();
        bytes.extend_from_slice(b"next");
        let (n, back) = recv_request(&bytes).unwrap();
        assert_eq!(n, len);
        let same = match (r, &back) {
            (Request::StoreCreate(a), Request::StoreCreate(b))
            | (Request::StoreDestroy(a), Request::StoreDestroy(b))
            | (Request::BlobList(a), Request::BlobList(b)) => a == b,
            (Request::BlobHash(a), Request::BlobHash(b)) => a == b,
            (Request::BlobInfo(a, x), Request::BlobInfo(b, y))
            | (Request::BlobLoad(a, x), Request::BlobLoad(b, y))
            | (Request::BlobDelete(a, x), Request::BlobDelete(b, y)) => a == b && x == y,
            (Request::BlobSave(a, x), Request::BlobSave(b, y)) => a == b && x == y,
            _ => false,
        };
        assert!(same);
    }
}

#[test]
fn request_codes() {
    let bytes = request_bytes(&Request::BlobDelete("s".to_string(), blob_hash(b"")));
    assert_eq!(&bytes[0..8], b"blobdel\0");
    let bytes = request_bytes(&Request::BlobHash(vec![7, 8]));
    assert_eq!(bytes, [b"blobhash".to_vec(), vec![2, 0, 0, 0, 0, 0, 0, 0, 7, 8]].concat());
    assert!(matches!(recv_request(b"storlist"), Err(RecvError::Failed(Status::InternalError))));
    assert!(matches!(recv_request(b"blobhash\x05\0\0\0\0\0\0\0ab"), Err(RecvError::Truncated)));
}

#[test]
fn responses_roundtrip() {
    let id = blob_hash(b"y");
    let save = Request::BlobSave("s".to_string(), b"y".to_vec());
    let load = Request::BlobLoad("s".to_string(), id);
    let list = Request::BlobList("s".to_string());
    let hash = Request::BlobHash(b"y".to_vec());

    let bytes = response_bytes(&Response::BlobSave(Status::Exists, id));
    let (n, back) = recv_response(&bytes, &save).unwrap();
    assert_eq!(n, 40);
    assert!(matches!(back, Response::BlobSave(Status::Exists, h) if h == id));

    let bytes = response_bytes(&Response::BlobLoad(b"yy".to_vec()));
    let (_, back) = recv_response(&bytes, &load).unwrap();
    assert!(matches!(back, Response::BlobLoad(b) if b == b"yy".to_vec()));

    let bytes = response_bytes(&Response::BlobList(vec![id, id]));
    let (_, back) = recv_response(&bytes, &list).unwrap();
    assert!(matches!(back, Response::BlobList(v) if v == vec![id, id]));

    let bytes = response_bytes(&Response::BlobHash(id));
    let (_, back) = recv_response(&bytes, &hash).unwrap();
    assert!(matches!(back, Response::BlobHash(h) if h == id));

    let bytes = response_bytes(&Response::Status(Status::NotFound));
    let (n, back) = recv_response(&bytes, &save).unwrap();
    assert_eq!(n, 8);
    assert!(matches!(back, Response::Status(Status::NotFound)));

    let bytes = response_bytes(&Response::Status(Status::BadArgument));
    let (_, back) = recv_response(&bytes, &load).unwrap();
    assert!(matches!(back, Response::Status(Status::BadArgument)));
}

#[test]
fn blob_info_response_carries_its_size() {
    let info = Request::BlobInfo("s".to_string(), blob_db::types::BlobId([0u8; 32]));
    let mut bytes = b"okaydoke".to_vec();
    bytes.extend_from_slice(&5u64.to_le_bytes());
    bytes.extend_from_slice(b"rest");
    let (n, back) = recv_response(&bytes, &info).unwrap();
    assert_eq!(n, 16);
    assert_eq!(&bytes[n..], b"rest");
    assert!(matches!(back, Response::BlobInfo(5)));

    let sent = response_bytes(&Response::BlobInfo(70000));
    assert_eq!(sent.len(), 16);
    let (n, back) = recv_response(&sent, &info).unwrap();
    assert_eq!(n, 16);
    assert!(matches!(back, Response::BlobInfo(70000)));

    assert!(matches!(recv_response(&bytes[..12], &info), Err(RecvError::Truncated)));
    let missing = response_bytes(&Response::Status(Status::NotFound));
    let (n, back) = recv_response(&missing, &info).unwrap();
    assert_eq!(n, 8);
    assert!(matches!(back, Response::Status(Status::NotFound)));
}

#[test]
fn refused_request_takes_its_code_alone() {
    let bytes = b"xxxxxxxxrest";
    assert!(matches!(recv_request(bytes), Err(RecvError::Failed(Status::InternalError))));
    assert!(matches!(recv_request(&bytes[..8]), Err(RecvError::Failed(Status::InternalError))));
    for cut in 0..8 {
        assert!(matches!(recv_request(&bytes[..cut]), Err(RecvError::Truncated)));
    }
    let mut bad_name = b"storenew".to_vec();
    bad_name.extend_from_slice(&[2, 0, 0xff, 0xfe]);
    bad_name.extend_from_slice(b"rest");
    assert!(matches!(recv_request(&bad_name[..12]), Err(RecvError::Failed(Status::InternalError))));
    for cut in 0..12 {
        assert!(matches!(recv_request(&bad_name[..cut]), Err(RecvError::Truncated)));
    }
}
