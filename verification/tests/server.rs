use blob_db::funcs::blob_hash;
use blob_db::persister::{
    blob_ids_from_names, create_error_status, error_to_status, remove_error_status, save_result,
    IoErrorKind,
};
use blob_db::send_recv::{send_open_door, Send};
use blob_db::server::{respond, shake_hands, status_resp, Outcome};
use blob_db::types::{RequestOut, ResponseIn, ResponseOut, SaveStatus, Status};
use blob_db::funcs::hash_to_str;
use blob_db::wire::RecvError;

#[test]
fn shake_hands_welcomes_a_client() {
    let mut input = Vec::new();
    send_open_door(&mut input).unwrap();
    let mut out = Vec::new();
    assert_eq!(shake_hands(&input, &mut out), Ok(12));
    assert_eq!(out, b"Welcome!".to_vec());
}

#[test]
fn shake_hands_refuses_another_version() {
    let mut input = b"OpenDoor".to_vec();
    input.extend_from_slice(&[2, 0, 0, 0]);
    let mut out = Vec::new();
    assert_eq!(shake_hands(&input, &mut out), Err(RecvError::Failed(Status::BadArgument)));
    assert_eq!(out, [b"Go away!".to_vec(), vec![1, 0, 0, 0]].concat());
    let mut out = Vec::new();
    assert_eq!(shake_hands(&input[..5], &mut out), Err(RecvError::Truncated));
    assert!(out.is_empty());
}

#[test]
fn outcomes_are_answered() {
    assert!(matches!(status_resp(Ok(())), ResponseOut::Status(Status::Okay)));
    assert!(matches!(status_resp(Err(Status::NotFound)), ResponseOut::Status(Status::NotFound)));
    let id = blob_hash(b"k");
    assert!(matches!(respond(Outcome::Done(Err(Status::Exists))), ResponseOut::Status(Status::Exists)));
    assert!(matches!(respond(Outcome::BlobHash(Ok(id))), ResponseOut::BlobHash(h) if h == id));
    assert!(matches!(respond(Outcome::BlobInfo(Ok(5))), ResponseOut::BlobInfo(5)));
    assert!(matches!(respond(Outcome::BlobInfo(Err(Status::NotFound))), ResponseOut::Status(Status::NotFound)));
    assert!(matches!(
        respond(Outcome::BlobSave(Ok((SaveStatus::Created, id)))),
        ResponseOut::BlobSave((SaveStatus::Created, h)) if h == id
    ));
    assert!(matches!(respond(Outcome::BlobLoad(Ok(vec![1]))), ResponseOut::BlobLoad(v) if v == vec![1]));
    assert!(matches!(respond(Outcome::StoreList(Ok(vec![]))), ResponseOut::StoreList(v) if v.is_empty()));
    assert!(matches!(respond(Outcome::BlobList(Err(Status::InternalError))), ResponseOut::Status(Status::InternalError)));
}

#[test]
fn io_errors_become_statuses() {
    assert_eq!(error_to_status(IoErrorKind::NotFound), Status::NotFound);
    assert_eq!(error_to_status(IoErrorKind::AlreadyExists), Status::Exists);
    assert_eq!(error_to_status(IoErrorKind::Other), Status::InternalError);
    assert_eq!(create_error_status(IoErrorKind::AlreadyExists), Status::Exists);
    assert_eq!(create_error_status(IoErrorKind::NotFound), Status::InternalError);
    assert_eq!(remove_error_status(IoErrorKind::NotFound), Status::NotFound);
    assert_eq!(remove_error_status(IoErrorKind::AlreadyExists), Status::InternalError);
}

#[test]
fn save_results() {
    let id = blob_hash(b"s");
    assert_eq!(save_result(Ok(()), id), Ok((SaveStatus::Created, id)));
    assert_eq!(save_result(Err(Status::Exists), id), Ok((SaveStatus::Exists, id)));
    assert_eq!(save_result(Err(Status::NoSpace), id), Err(Status::NoSpace));
}

#[test]
fn blob_files_are_listed_by_identity() {
    let a = blob_hash(b"a");
    let b = blob_hash(b"b");
    let names = vec![hash_to_str(&a).to_vec(), hash_to_str(&b).to_vec()];
    assert_eq!(blob_ids_from_names(&names), Ok(vec![a, b]));
    let names = vec![hash_to_str(&a).to_vec(), b"tmp-file".to_vec()];
    assert_eq!(blob_ids_from_names(&names), Err(Status::InternalError));
    assert_eq!(blob_ids_from_names(&vec![]), Ok(vec![]));
}

#[test]
fn responses_to_outcomes_read_back_as_the_outcomes() {
    let id = blob_hash(b"contents");
    let save = RequestOut::BlobSave("s", b"contents");
    let load = RequestOut::BlobLoad("s", &id);
    let list = RequestOut::StoreList();
    let cases: Vec<(Outcome, &RequestOut)> = vec![
        (Outcome::BlobSave(Err(Status::NotFound)), &save),
        (Outcome::BlobSave(Ok((SaveStatus::Exists, id))), &save),
        (Outcome::BlobLoad(Err(Status::NotFound)), &load),
        (Outcome::BlobLoad(Ok(b"contents".to_vec())), &load),
        (Outcome::StoreList(Ok(vec!["a".to_string()])), &list),
        (Outcome::StoreList(Err(Status::InternalError)), &list),
    ];
    for (outcome, request) in cases {
        let expected_error = match &outcome {
            Outcome::BlobSave(Err(s)) | Outcome::BlobLoad(Err(s)) | Outcome::StoreList(Err(s)) => {
                Some(*s)
            }
            _ => None,
        };
        let mut out = Vec::new();
        respond(outcome).send(&mut out).unwrap();
        let (n, read) = ResponseIn::recv(&out, request).unwrap();
        match (expected_error, read) {
            (Some(s), ResponseIn::Status(t)) => {
                assert_eq!(s, t);
                assert_eq!(n, out.len());
            }
            (None, ResponseIn::BlobSave(v)) => assert_eq!(v, (SaveStatus::Exists, id)),
            (None, ResponseIn::BlobLoad(b)) => {
                assert_eq!(b.bytes_remain, 8);
                assert_eq!(&out[n..], b"contents");
            }
            (None, ResponseIn::StoreList(v)) => assert_eq!(v, vec!["a".to_string()]),
            _ => panic!("a response read back as another kind"),
        }
    }
}
