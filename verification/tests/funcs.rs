use blob_db::funcs::{blob_hash, code8, hash_to_str, str_to_hash};
use blob_db::types::{BlobId, SaveStatus, Status};

#[test]
fn code8_reads_little_endian() {
    assert_eq!(code8(b"okaydoke"), Status::Okay.code());
    assert_eq!(code8(b"itexists"), Status::Exists.code());
    assert_eq!(code8(b"notfound"), Status::NotFound.code());
    assert_eq!(code8(b"no-space"), Status::NoSpace.code());
    assert_eq!(code8(b"invalarg"), Status::BadArgument.code());
    assert_eq!(code8(b"internal"), Status::InternalError.code());
    assert_eq!(code8(&[1, 0, 0, 0, 0, 0, 0, 0]), 1);
    assert_eq!(code8(&[0, 1, 0, 0, 0, 0, 0, 0]), 256);
    assert_eq!(code8(&[0xff; 8]), u64::MAX);
}

#[test]
fn status_codes_read_back() {
    let all = [
        Status::Okay,
        Status::Exists,
        Status::NotFound,
        Status::NoSpace,
        Status::BadArgument,
        Status::InternalError,
    ];
    for s in all {
        assert_eq!(Status::from_code(s.code()), Some(s));
    }
    assert_eq!(Status::from_code(0), None);
    assert_eq!(SaveStatus::from_code(Status::Okay.code()), Some(SaveStatus::Created));
    assert_eq!(SaveStatus::from_code(Status::Exists.code()), Some(SaveStatus::Exists));
    assert_eq!(SaveStatus::from_code(Status::NotFound.code()), None);
    assert_eq!(SaveStatus::Created.code(), Status::Okay.code());
    assert_eq!(SaveStatus::Exists.code(), Status::Exists.code());
}

#[test]
fn blob_hash_is_sha256() {
    let id = blob_hash(b"abc");
    assert_eq!(
        &hash_to_str(&id)[..],
        &b"ba7816bf8f01cfea414140de5dae2223b00361a396177a9cb410ff61f20015ad"[..]
    );
    let empty = blob_hash(b"");
    assert_eq!(
        &hash_to_str(&empty)[..],
        &b"e3b0c44298fc1c149afbf4c8996fb92427ae41e4649b934ca495991b7852b855"[..]
    );
    assert_eq!(blob_hash(b"abc"), id);
    assert_ne!(blob_hash(b"abd"), id);
}

#[test]
fn hash_to_str_is_lowercase_hex() {
    let mut bytes = [0u8; 32];
    bytes[0] = 0xab;
    bytes[1] = 0x09;
    bytes[31] = 0xf0;
    let text = hash_to_str(&BlobId(bytes));
    assert_eq!(&text[0..4], b"ab09");
    assert_eq!(&text[60..64], b"00f0");
    assert!(text.iter().all(|c| c.is_ascii_hexdigit() && !c.is_ascii_uppercase()));
}

#[test]
fn str_to_hash_reads_back_hash_to_str() {
    let id = blob_hash(b"hello blob");
    let text = hash_to_str(&id);
    assert_eq!(str_to_hash(&text), Ok(id));
    let back = str_to_hash(&text).unwrap();
    assert_eq!(hash_to_str(&back), text);
}

#[test]
fn str_to_hash_refuses_bad_text() {
    let id = blob_hash(b"x");
    let text = hash_to_str(&id);
    assert_eq!(str_to_hash(&text[..63]), Err(Status::InternalError));
    let mut longer = text.to_vec();
    longer.push(b'0');
    assert_eq!(str_to_hash(&longer), Err(Status::InternalError));
    let mut upper = text;
    upper[5] = b'A';
    assert_eq!(str_to_hash(&upper), Err(Status::InternalError));
    let mut other = text;
    other[0] = b'g';
    assert_eq!(str_to_hash(&other), Err(Status::InternalError));
    assert_eq!(str_to_hash(b""), Err(Status::InternalError));
}

#[test]
fn code8_goes_back_to_its_bytes() {
    let names: [&[u8; 8]; 5] = [b"okaydoke", b"storenew", b"blobinfo", b"\0\0\0\0\0\0\0\0", &[0xff; 8]];
    for a in names {
        assert_eq!(code8(a).to_le_bytes(), *a);
        for b in names {
            assert_eq!(code8(a) == code8(b), a == b);
        }
    }
    assert_ne!(code8(b"blobinfo"), code8(b"blobinfp"));
}
