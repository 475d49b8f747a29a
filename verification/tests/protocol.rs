use blob_db::frames::{GreetCode, RequestCode, CODE_OPEN_DOOR, PROTO_VERSION};
use blob_db::funcs::blob_hash;
use blob_db::send_recv::{
    recv_open_door, recv_welcome, send_not_welcome, send_open_door, send_welcome, Recv, Send,
};
use blob_db::types::{
    BlobId, BlobStream, RequestIn, RequestOut, ResponseIn, ResponseOut, SaveStatus, Status,
};
use blob_db::wire::RecvError;

fn frame(value: &impl Send) -> Vec<u8> {
    let mut out = Vec::new();
    value.send(&mut out).unwrap();
    out
}

#[test]
fn primitives_are_little_endian() {
    assert_eq!(frame(&0x0102u16), vec![2, 1]);
    assert_eq!(frame(&0x0102030405060708u64), vec![8, 7, 6, 5, 4, 3, 2, 1]);
    assert_eq!(u16::recv(&[2, 1, 9]), Ok((2, 0x0102)));
    assert_eq!(u64::recv(&[8, 7, 6, 5, 4, 3, 2, 1]), Ok((8, 0x0102030405060708)));
    assert_eq!(u64::recv(&[1, 2, 3]), Err(RecvError::Truncated));
    assert_eq!(frame(&Status::Okay), b"okaydoke".to_vec());
    assert_eq!(frame(&GreetCode::Welcome), b"Welcome!".to_vec());
    assert_eq!(frame(&RequestCode::BlobDelete), b"blobdrop".to_vec());
    assert_eq!(frame(&SaveStatus::Exists), b"itexists".to_vec());
}

#[test]
fn store_name_frame() {
    let name: &str = "vidéos";
    let bytes = frame(&name);
    assert_eq!(bytes[0..2], [7, 0]);
    assert_eq!(&bytes[2..], "vidéos".as_bytes());
    let mut with_rest = bytes.clone();
    with_rest.extend_from_slice(b"more");
    let (n, back) = String::recv(&with_rest).unwrap();
    assert_eq!(n, 9);
    assert_eq!(back, "vidéos");
    assert_eq!(String::recv(&bytes[..5]), Err(RecvError::Truncated));
    assert_eq!(String::recv(&[2, 0, 0xff, 0xfe]), Err(RecvError::Failed(Status::InternalError)));
}

#[test]
fn store_name_too_long_is_refused() {
    let long = "a".repeat(0x10000);
    let name: &str = &long;
    let mut out = vec![1, 2, 3];
    assert_eq!(name.send(&mut out), Err(Status::InternalError));
    assert_eq!(out, vec![1, 2, 3]);
    let fits = "a".repeat(0xffff);
    let name: &str = &fits;
    assert_eq!(name.send(&mut out), Ok(()));
    assert_eq!(out.len(), 3 + 2 + 0xffff);
}

#[test]
fn store_list_frame_roundtrip() {
    let ids = vec!["a".to_string(), "".to_string(), "store".to_string()];
    let bytes = frame(&ids);
    assert_eq!(bytes.len(), 8 + 3 + 2 + 7);
    let (n, back) = Vec::<String>::recv(&bytes).unwrap();
    assert_eq!(n, bytes.len());
    assert_eq!(back, ids);
    assert_eq!(Vec::<String>::recv(&bytes[..bytes.len() - 1]), Err(RecvError::Truncated));
    let empty: Vec<String> = Vec::new();
    assert_eq!(frame(&empty), vec![0; 8]);
}

#[test]
fn blob_ids_frame_roundtrip() {
    let ids = vec![blob_hash(b"1"), blob_hash(b"2")];
    let bytes = frame(&ids);
    assert_eq!(bytes.len(), 8 + 64);
    assert_eq!(bytes[0..8], [2, 0, 0, 0, 0, 0, 0, 0]);
    assert_eq!(Vec::<BlobId>::recv(&bytes), Ok((72, ids.clone())));
    assert_eq!(Vec::<BlobId>::recv(&bytes[..40]), Err(RecvError::Truncated));
    let huge = [0xffu8; 8];
    assert_eq!(Vec::<BlobId>::recv(&huge), Err(RecvError::Failed(Status::InternalError)));
}

#[test]
fn blob_frame_and_stream() {
    let blob: &[u8] = b"contents";
    let bytes = frame(&blob);
    assert_eq!(bytes[0..8], [8, 0, 0, 0, 0, 0, 0, 0]);
    let (n, mut stream) = BlobStream::recv(&bytes).unwrap();
    assert_eq!(n, 8);
    assert_eq!(stream.bytes_remain, 8);
    assert_eq!(stream.slurp(&bytes[8..12]), Err(RecvError::Truncated));
    assert_eq!(stream.bytes_remain, 8);
    let (m, contents) = stream.slurp(&bytes[8..]).unwrap();
    assert_eq!(m, 8);
    assert_eq!(contents, b"contents".to_vec());
    assert_eq!(stream.bytes_remain, 0);
}

#[test]
fn greetings() {
    let mut out = Vec::new();
    send_open_door(&mut out).unwrap();
    assert_eq!(&out[0..8], b"OpenDoor");
    assert_eq!(out[8..], [1, 0, 0, 0]);
    assert_eq!(out.len(), 12);
    assert_eq!(recv_open_door(&out), Ok(12));
    assert_eq!(recv_open_door(&out[..11]), Err(RecvError::Truncated));
    let mut wrong_version = out.clone();
    wrong_version[8] = 2;
    assert_eq!(recv_open_door(&wrong_version), Err(RecvError::Failed(Status::BadArgument)));
    let mut wrong_code = out.clone();
    wrong_code[0] = b'X';
    assert_eq!(recv_open_door(&wrong_code), Err(RecvError::Failed(Status::BadArgument)));
    assert_eq!(CODE_OPEN_DOOR, u64::from_le_bytes(*b"OpenDoor"));
    assert_eq!(PROTO_VERSION, 1);

    let mut welcome = Vec::new();
    send_welcome(&mut welcome).unwrap();
    assert_eq!(welcome, b"Welcome!".to_vec());
    assert_eq!(recv_welcome(&welcome), Ok(8));
    let mut refusal = Vec::new();
    send_not_welcome(&mut refusal).unwrap();
    assert_eq!(refusal, [b"Go away!".to_vec(), vec![1, 0, 0, 0]].concat());
    assert_eq!(recv_welcome(&refusal), Err(RecvError::Failed(Status::BadArgument)));
    assert_eq!(recv_welcome(&refusal[..11]), Err(RecvError::Truncated));
    assert_eq!(recv_welcome(b"Hello!!!"), Err(RecvError::Failed(Status::InternalError)));
}

#[test]
fn requests_read_back() {
    let id = blob_hash(b"blob");
    let blob: &[u8] = b"blob";
    let requests = vec![
        RequestOut::StoreList(),
        RequestOut::StoreCreate("videos"),
        RequestOut::StoreDestroy("videos"),
        RequestOut::BlobHash(blob),
        RequestOut::BlobList("videos"),
        RequestOut::BlobInfo("videos", &id),
        RequestOut::BlobLoad("videos", &id),
        RequestOut::BlobSave("videos", blob),
        RequestOut::BlobDelete("videos", &id),
        RequestOut::Bye,
    ];
    for request in &requests {
        let bytes = frame(request);
        let (n, read) = RequestIn::recv(&bytes).unwrap();
        match (request, &read) {
            (RequestOut::StoreList(), RequestIn::StoreList()) => assert_eq!(n, 8),
            (RequestOut::Bye, RequestIn::Bye) => assert_eq!(n, 8),
            (RequestOut::StoreCreate(a), RequestIn::StoreCreate(b))
            | (RequestOut::StoreDestroy(a), RequestIn::StoreDestroy(b))
            | (RequestOut::BlobList(a), RequestIn::BlobList(b)) => {
                assert_eq!(*a, b.as_str());
                assert_eq!(n, bytes.len());
            }
            (RequestOut::BlobHash(a), RequestIn::BlobHash(s)) => {
                assert_eq!(s.bytes_remain, a.len());
                assert_eq!(&bytes[n..], *a);
            }
            (RequestOut::BlobSave(a, b), RequestIn::BlobSave(c, s)) => {
                assert_eq!(*a, c.as_str());
                assert_eq!(s.bytes_remain, b.len());
                assert_eq!(&bytes[n..], *b);
            }
            (RequestOut::BlobInfo(a, b), RequestIn::BlobInfo(c, d))
            | (RequestOut::BlobLoad(a, b), RequestIn::BlobLoad(c, d))
            | (RequestOut::BlobDelete(a, b), RequestIn::BlobDelete(c, d)) => {
                assert_eq!(*a, c.as_str());
                assert_eq!(*b, d);
                assert_eq!(n, bytes.len());
            }
            _ => panic!("request read back as another kind"),
        }
    }
}

#[test]
fn request_bytes_are_exact() {
    let bytes = frame(&RequestOut::StoreCreate("ab"));
    let mut expected = b"storenew".to_vec();
    expected.extend_from_slice(&[2, 0, b'a', b'b']);
    assert_eq!(bytes, expected);
    let bye = frame(&RequestOut::Bye);
    assert_eq!(bye, b"Goodbye!".to_vec());
}

#[test]
fn request_errors() {
    assert!(matches!(RequestIn::recv(b"storen"), Err(RecvError::Truncated)));
    assert!(matches!(
        RequestIn::recv(b"nonsense"),
        Err(RecvError::Failed(Status::InternalError))
    ));
    let bytes = frame(&RequestOut::StoreCreate("abc"));
    for cut in 0..bytes.len() {
        assert!(matches!(RequestIn::recv(&bytes[..cut]), Err(RecvError::Truncated)));
    }
    let long = "x".repeat(70000);
    let mut out = Vec::new();
    assert_eq!(RequestOut::BlobList(&long).send(&mut out), Err(Status::InternalError));
    assert_eq!(out, b"bloblist".to_vec());
    let mut out = Vec::new();
    assert_eq!(RequestOut::StoreCreate(&long).send(&mut out), Err(Status::InternalError));
    assert_eq!(out, b"storenew".to_vec());
}

#[test]
fn responses_read_back() {
    let id = blob_hash(b"blob");
    let store_list = RequestOut::StoreList();
    let blob_list = RequestOut::BlobList("s");
    let blob_save = RequestOut::BlobSave("s", b"blob");
    let blob_load = RequestOut::BlobLoad("s", &id);
    let blob_info = RequestOut::BlobInfo("s", &id);
    let blob_hash_req = RequestOut::BlobHash(b"blob");
    let create = RequestOut::StoreCreate("s");

    let bytes = frame(&ResponseOut::StoreList(vec!["x".to_string(), "y".to_string()]));
    let (n, r) = ResponseIn::recv(&bytes, &store_list).unwrap();
    assert_eq!(n, bytes.len());
    assert_eq!(r.store_list_result(), Ok(vec!["x".to_string(), "y".to_string()]));

    let bytes = frame(&ResponseOut::BlobList(vec![id]));
    let (_, r) = ResponseIn::recv(&bytes, &blob_list).unwrap();
    assert_eq!(r.blob_list_result(), Ok(vec![id]));

    let bytes = frame(&ResponseOut::BlobSave((SaveStatus::Exists, id)));
    let (_, r) = ResponseIn::recv(&bytes, &blob_save).unwrap();
    assert_eq!(r.blob_save_result(), Ok((SaveStatus::Exists, id)));
    let bytes = frame(&ResponseOut::BlobSave((SaveStatus::Created, id)));
    let (_, r) = ResponseIn::recv(&bytes, &blob_save).unwrap();
    assert_eq!(r.blob_save_result(), Ok((SaveStatus::Created, id)));

    let bytes = frame(&ResponseOut::BlobLoad(b"blob".to_vec()));
    let (n, r) = ResponseIn::recv(&bytes, &blob_load).unwrap();
    let stream = r.blob_load_result().unwrap();
    assert_eq!(stream.bytes_remain, 4);
    assert_eq!(&bytes[n..], b"blob");

    let bytes = frame(&ResponseOut::BlobInfo(4));
    let (_, r) = ResponseIn::recv(&bytes, &blob_info).unwrap();
    assert_eq!(r.blob_info_result(), Ok(4));

    let bytes = frame(&ResponseOut::BlobHash(id));
    let (_, r) = ResponseIn::recv(&bytes, &blob_hash_req).unwrap();
    assert_eq!(r.blob_hash_result(), Ok(id));

    let bytes = frame(&ResponseOut::Status(Status::NotFound));
    let (n, r) = ResponseIn::recv(&bytes, &blob_load).unwrap();
    assert_eq!(n, 8);
    assert!(matches!(r.blob_load_result(), Err(Status::NotFound)));

    let bytes = frame(&ResponseOut::Status(Status::Okay));
    let (_, r) = ResponseIn::recv(&bytes, &create).unwrap();
    assert_eq!(r.status_result(), Ok(()));
    let bytes = frame(&ResponseOut::Status(Status::Exists));
    let (_, r) = ResponseIn::recv(&bytes, &create).unwrap();
    assert_eq!(r.status_result(), Err(Status::Exists));
}

#[test]
fn client_results_on_wrong_values() {
    let id = blob_hash(b"");
    assert_eq!(ResponseIn::BlobHash(id).status_result(), Err(Status::InternalError));
    assert_eq!(ResponseIn::BlobInfo(3).blob_hash_result(), Err(Status::InternalError));
    assert_eq!(ResponseIn::Status(Status::NoSpace).blob_info_result(), Err(Status::NoSpace));
    assert_eq!(
        ResponseIn::BlobHash(id).store_list_result(),
        Err(Status::InternalError)
    );
    assert_eq!(ResponseIn::BlobHash(id).blob_list_result(), Err(Status::InternalError));
    assert_eq!(ResponseIn::BlobHash(id).blob_save_result(), Err(Status::InternalError));
    assert!(matches!(ResponseIn::BlobHash(id).blob_load_result(), Err(Status::InternalError)));
}

#[test]
fn reading_looks_no_further() {
    let bytes = frame(&RequestOut::BlobDelete("s", &blob_hash(b"q")));
    let mut longer = bytes.clone();
    longer.extend_from_slice(b"whatever follows");
    let (n1, _) = RequestIn::recv(&bytes).unwrap();
    let (n2, _) = RequestIn::recv(&longer).unwrap();
    assert_eq!(n1, n2);
    let mut bad = b"garbage!".to_vec();
    assert!(matches!(RequestIn::recv(&bad), Err(RecvError::Failed(Status::InternalError))));
    bad.extend_from_slice(&bytes);
    assert!(matches!(RequestIn::recv(&bad), Err(RecvError::Failed(Status::InternalError))));
}

#[test]
fn responses_cut_short_wait_for_more() {
    let list = RequestOut::StoreList();
    let bytes = frame(&ResponseOut::StoreList(vec!["ab".to_string(), "c".to_string()]));
    for cut in 0..bytes.len() {
        assert!(matches!(ResponseIn::recv(&bytes[..cut], &list), Err(RecvError::Truncated)));
    }
    let ids = RequestOut::BlobList("s");
    let bytes = frame(&ResponseOut::BlobList(vec![blob_hash(b"1")]));
    for cut in 0..bytes.len() {
        assert!(matches!(ResponseIn::recv(&bytes[..cut], &ids), Err(RecvError::Truncated)));
    }
    let mut door = Vec::new();
    send_open_door(&mut door).unwrap();
    for cut in 0..door.len() {
        assert_eq!(recv_open_door(&door[..cut]), Err(RecvError::Truncated));
    }
}

#[test]
fn blob_stream_reads_in_parts_and_stops_at_its_end() {
    let mut stream = BlobStream { bytes_remain: 8 };
    let input = b"contentsNEXTFRAME";
    assert_eq!(stream.read(input, 3), b"con".to_vec());
    assert_eq!(stream.bytes_remain, 5);
    assert_eq!(stream.read(&input[3..5], 10), b"te".to_vec());
    assert_eq!(stream.bytes_remain, 3);
    assert_eq!(stream.read(&input[5..], 100), b"nts".to_vec());
    assert_eq!(stream.bytes_remain, 0);
    assert_eq!(stream.read(&input[8..], 100), Vec::<u8>::new());
    assert_eq!(stream.bytes_remain, 0);
    let mut empty_room = BlobStream { bytes_remain: 4 };
    assert_eq!(empty_room.read(input, 0), Vec::<u8>::new());
    assert_eq!(empty_room.bytes_remain, 4);
}

#[test]
fn refused_greetings_take_code_and_version() {
    let mut refusal = Vec::new();
    send_not_welcome(&mut refusal).unwrap();
    assert_eq!(recv_welcome(&refusal), Err(RecvError::Failed(Status::BadArgument)));
    for cut in 0..12 {
        assert_eq!(recv_welcome(&refusal[..cut]), Err(RecvError::Truncated));
    }
    assert_eq!(recv_welcome(b"Hello!!!"), Err(RecvError::Failed(Status::InternalError)));
    for cut in 0..8 {
        assert_eq!(recv_welcome(&b"Hello!!!"[..cut]), Err(RecvError::Truncated));
    }
    let mut door = b"OpenDoor".to_vec();
    door.extend_from_slice(&[2, 0, 0, 0]);
    door.extend_from_slice(b"more");
    assert_eq!(recv_open_door(&door[..12]), Err(RecvError::Failed(Status::BadArgument)));
    for cut in 0..12 {
        assert_eq!(recv_open_door(&door[..cut]), Err(RecvError::Truncated));
    }
    let unknown = b"nonsense";
    assert!(matches!(RequestIn::recv(unknown), Err(RecvError::Failed(Status::InternalError))));
    for cut in 0..8 {
        assert!(matches!(RequestIn::recv(&unknown[..cut]), Err(RecvError::Truncated)));
    }
}
