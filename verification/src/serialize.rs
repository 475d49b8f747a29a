//! A second, self-contained framing of requests and responses, in which a
//! blob travels inside its frame: no greeting and no store listing.
use vstd::prelude::*;
use crate::types::{BlobId, Status, StoreId, status_code};
use crate::wire::{
    Parsed, RecvError, refused_after, parse_u64, push_bytes, push_u64, read_u64, u64_bytes, u64_value,
};
use crate::frames::{
    name_end, name_bytes, name_fits, parse_name, parse_blob_id, parse_blob_ids, parse_status, blob_ids_bytes,
    ids_wf,
};
use crate::send_recv::{Recv, Send};
use crate::frame_laws::{
    lemma_blob_ids_roundtrip, lemma_name_on_prefix, lemma_name_roundtrip,
    lemma_status_code_read_back, lemma_u64_on_prefix, lemma_u64_read_back,
};
use crate::wire::lemma_u64_roundtrip;

verus! {

/// A store's name.
pub type StoreName = StoreId;

/// A blob's contents.
pub type Blob = Vec<u8>;

/// A blob's identity.
pub type Hash = BlobId;

/// Blob identities.
pub type Hashes = Vec<BlobId>;

/// A request; a blob travels inside it.
pub enum Request {
    StoreCreate(StoreName),
    StoreDestroy(StoreName),
    BlobHash(Blob),
    BlobList(StoreName),
    BlobInfo(StoreName, Hash),
    BlobLoad(StoreName, Hash),
    BlobSave(StoreName, Blob),
    BlobDelete(StoreName, Hash),
}

/// A response; a loaded blob travels inside it.
pub enum Response {
    Status(Status),
    BlobHash(Hash),
    BlobInfo(u64),
    BlobList(Hashes),
    BlobLoad(Blob),
    BlobSave(Status, Hash),
}

/// A request over plain values.
pub enum RequestValue {
    StoreCreate(Seq<char>),
    StoreDestroy(Seq<char>),
    BlobHash(Seq<u8>),
    BlobList(Seq<char>),
    BlobInfo(Seq<char>, Seq<u8>),
    BlobLoad(Seq<char>, Seq<u8>),
    BlobSave(Seq<char>, Seq<u8>),
    BlobDelete(Seq<char>, Seq<u8>),
}

/// A response over plain values.
pub enum ResponseValue {
    Status(Status),
    BlobHash(Seq<u8>),
    BlobInfo(u64),
    BlobList(Seq<Seq<u8>>),
    BlobLoad(Seq<u8>),
    BlobSave(Status, Seq<u8>),
}

impl View for Request {
    type V = RequestValue;

    open spec fn view(&self) -> RequestValue {
        match self {
            Request::StoreCreate(s) => RequestValue::StoreCreate(s@),
            Request::StoreDestroy(s) => RequestValue::StoreDestroy(s@),
            Request::BlobHash(b) => RequestValue::BlobHash(b@),
            Request::BlobList(s) => RequestValue::BlobList(s@),
            Request::BlobInfo(s, h) => RequestValue::BlobInfo(s@, h@),
            Request::BlobLoad(s, h) => RequestValue::BlobLoad(s@, h@),
            Request::BlobSave(s, b) => RequestValue::BlobSave(s@, b@),
            Request::BlobDelete(s, h) => RequestValue::BlobDelete(s@, h@),
        }
    }
}

impl View for Response {
    type V = ResponseValue;

    open spec fn view(&self) -> ResponseValue {
        match self {
            Response::Status(s) => ResponseValue::Status(*s),
            Response::BlobHash(h) => ResponseValue::BlobHash(h@),
            Response::BlobInfo(n) => ResponseValue::BlobInfo(*n),
            Response::BlobList(hs) => ResponseValue::BlobList(hs.deep_view()),
            Response::BlobLoad(b) => ResponseValue::BlobLoad(b@),
            Response::BlobSave(s, h) => ResponseValue::BlobSave(*s, h@),
        }
    }
}

/// The kinds of request of this framing.
#[derive(Debug, Copy, Clone, PartialEq, Eq, Structural)]
pub enum RequestKind {
    StoreCreate,
    StoreDestroy,
    BlobHash,
    BlobList,
    BlobInfo,
    BlobLoad,
    BlobSave,
    BlobDelete,
}

pub open spec fn kind_code(k: RequestKind) -> u64 {
    match k {
        RequestKind::StoreCreate => 0x77656e65726f7473,  // "storenew"
        RequestKind::StoreDestroy => 0x6c656465726f7473,  // "storedel"
        RequestKind::BlobHash => 0x68736168626f6c62,  // "blobhash"
        RequestKind::BlobList => 0x7473696c626f6c62,  // "bloblist"
        RequestKind::BlobInfo => 0x6f666e69626f6c62,  // "blobinfo"
        RequestKind::BlobLoad => 0x64616f6c626f6c62,  // "blobload"
        RequestKind::BlobSave => 0x65766173626f6c62,  // "blobsave"
        RequestKind::BlobDelete => 0x6c6564626f6c62,  // "blobdel\0"
    }
}

pub open spec fn kind_from_code(c: u64) -> Option<RequestKind> {
    if c == kind_code(RequestKind::StoreCreate) {
        Some(RequestKind::StoreCreate)
    } else if c == kind_code(RequestKind::StoreDestroy) {
        Some(RequestKind::StoreDestroy)
    } else if c == kind_code(RequestKind::BlobHash) {
        Some(RequestKind::BlobHash)
    } else if c == kind_code(RequestKind::BlobList) {
        Some(RequestKind::BlobList)
    } else if c == kind_code(RequestKind::BlobInfo) {
        Some(RequestKind::BlobInfo)
    } else if c == kind_code(RequestKind::BlobLoad) {
        Some(RequestKind::BlobLoad)
    } else if c == kind_code(RequestKind::BlobSave) {
        Some(RequestKind::BlobSave)
    } else if c == kind_code(RequestKind::BlobDelete) {
        Some(RequestKind::BlobDelete)
    } else {
        None
    }
}

pub open spec fn value_kind(r: RequestValue) -> RequestKind {
    match r {
        RequestValue::StoreCreate(_) => RequestKind::StoreCreate,
        RequestValue::StoreDestroy(_) => RequestKind::StoreDestroy,
        RequestValue::BlobHash(_) => RequestKind::BlobHash,
        RequestValue::BlobList(_) => RequestKind::BlobList,
        RequestValue::BlobInfo(_, _) => RequestKind::BlobInfo,
        RequestValue::BlobLoad(_, _) => RequestKind::BlobLoad,
        RequestValue::BlobSave(_, _) => RequestKind::BlobSave,
        RequestValue::BlobDelete(_, _) => RequestKind::BlobDelete,
    }
}

impl RequestKind {
    pub fn code(self) -> (c: u64)
        ensures
            c == kind_code(self),
    {
        match self {
            RequestKind::StoreCreate => 0x77656e65726f7473,
            RequestKind::StoreDestroy => 0x6c656465726f7473,
            RequestKind::BlobHash => 0x68736168626f6c62,
            RequestKind::BlobList => 0x7473696c626f6c62,
            RequestKind::BlobInfo => 0x6f666e69626f6c62,
            RequestKind::BlobLoad => 0x64616f6c626f6c62,
            RequestKind::BlobSave => 0x65766173626f6c62,
            RequestKind::BlobDelete => 0x6c6564626f6c62,
        }
    }

    pub fn from_code(c: u64) -> (r: Option<RequestKind>)
        ensures
            r == kind_from_code(c),
    {
        if c == 0x77656e65726f7473 {
            Some(RequestKind::StoreCreate)
        } else if c == 0x6c656465726f7473 {
            Some(RequestKind::StoreDestroy)
        } else if c == 0x68736168626f6c62 {
            Some(RequestKind::BlobHash)
        } else if c == 0x7473696c626f6c62 {
            Some(RequestKind::BlobList)
        } else if c == 0x6f666e69626f6c62 {
            Some(RequestKind::BlobInfo)
        } else if c == 0x64616f6c626f6c62 {
            Some(RequestKind::BlobLoad)
        } else if c == 0x65766173626f6c62 {
            Some(RequestKind::BlobSave)
        } else if c == 0x6c6564626f6c62 {
            Some(RequestKind::BlobDelete)
        } else {
            None
        }
    }
}

impl Request {
    /// The kind of this request.
    pub fn kind(&self) -> (k: RequestKind)
        ensures
            k == value_kind(self@),
    {
        match self {
            Request::StoreCreate(_) => RequestKind::StoreCreate,
            Request::StoreDestroy(_) => RequestKind::StoreDestroy,
            Request::BlobHash(_) => RequestKind::BlobHash,
            Request::BlobList(_) => RequestKind::BlobList,
            Request::BlobInfo(_, _) => RequestKind::BlobInfo,
            Request::BlobLoad(_, _) => RequestKind::BlobLoad,
            Request::BlobSave(_, _) => RequestKind::BlobSave,
            Request::BlobDelete(_, _) => RequestKind::BlobDelete,
        }
    }
}

// ---------------------------------------------------------------- format

/// The bytes of a blob: its size as a `u64`, then its contents.
pub open spec fn blob_bytes(b: Seq<u8>) -> Seq<u8> {
    u64_bytes(b.len() as u64) + b
}

/// Reads a blob with its contents.
pub open spec fn parse_blob(buf: Seq<u8>) -> Parsed<Seq<u8>> {
    if buf.len() < 8 {
        Err(RecvError::Truncated)
    } else if u64_value(buf) > usize::MAX {
        Err(RecvError::Failed(Status::InternalError))
    } else if buf.len() < 8 + u64_value(buf) {
        Err(RecvError::Truncated)
    } else {
        Ok((8 + u64_value(buf), buf.subrange(8, 8 + u64_value(buf))))
    }
}

/// The names and the blobs of a request fit its frame.
pub open spec fn request_fits(r: RequestValue) -> bool {
    match r {
        RequestValue::StoreCreate(s) => name_fits(s),
        RequestValue::StoreDestroy(s) => name_fits(s),
        RequestValue::BlobHash(b) => b.len() <= usize::MAX,
        RequestValue::BlobList(s) => name_fits(s),
        RequestValue::BlobInfo(s, h) => name_fits(s) && h.len() == 32,
        RequestValue::BlobLoad(s, h) => name_fits(s) && h.len() == 32,
        RequestValue::BlobSave(s, b) => name_fits(s) && b.len() <= usize::MAX,
        RequestValue::BlobDelete(s, h) => name_fits(s) && h.len() == 32,
    }
}

/// The bytes of a request: its code, then its fields.
pub open spec fn request_bytes(r: RequestValue) -> Seq<u8> {
    u64_bytes(kind_code(value_kind(r))) + request_fields_bytes(r)
}

/// The bytes of the fields of a request.
pub open spec fn request_fields_bytes(r: RequestValue) -> Seq<u8> {
    match r {
        RequestValue::StoreCreate(s) => name_bytes(s),
        RequestValue::StoreDestroy(s) => name_bytes(s),
        RequestValue::BlobHash(b) => blob_bytes(b),
        RequestValue::BlobList(s) => name_bytes(s),
        RequestValue::BlobInfo(s, h) => name_bytes(s) + h,
        RequestValue::BlobLoad(s, h) => name_bytes(s) + h,
        RequestValue::BlobSave(s, b) => name_bytes(s) + blob_bytes(b),
        RequestValue::BlobDelete(s, h) => name_bytes(s) + h,
    }
}

/// The bytes of a response: its status, then its value.
pub open spec fn response_bytes(r: ResponseValue) -> Seq<u8> {
    let okay = u64_bytes(status_code(Status::Okay));
    match r {
        ResponseValue::Status(s) => u64_bytes(status_code(s)),
        ResponseValue::BlobHash(h) => okay + h,
        ResponseValue::BlobInfo(n) => okay + u64_bytes(n),
        ResponseValue::BlobList(hs) => okay + blob_ids_bytes(hs),
        ResponseValue::BlobLoad(b) => okay + blob_bytes(b),
        ResponseValue::BlobSave(s, h) => u64_bytes(status_code(s)) + h,
    }
}

/// Reads a name, then a blob identity.
pub open spec fn parse_name_hash(buf: Seq<u8>) -> Parsed<(Seq<char>, Seq<u8>)> {
    match parse_name(buf) {
        Err(e) => Err(e),
        Ok((n, s)) => match parse_blob_id(buf.skip(n)) {
            Err(e) => Err(e),
            Ok((m, h)) => Ok((n + m, (s, h))),
        },
    }
}

/// Reads a name, then a blob.
pub open spec fn parse_name_blob(buf: Seq<u8>) -> Parsed<(Seq<char>, Seq<u8>)> {
    match parse_name(buf) {
        Err(e) => Err(e),
        Ok((n, s)) => match parse_blob(buf.skip(n)) {
            Err(e) => Err(e),
            Ok((m, b)) => Ok((n + m, (s, b))),
        },
    }
}

/// Reads what follows the code of a request of kind `k`.
#[verifier::opaque]
pub open spec fn parse_request_body(k: RequestKind, buf: Seq<u8>) -> Parsed<RequestValue> {
    match k {
        RequestKind::StoreCreate => match parse_name(buf) {
            Err(e) => Err(e),
            Ok((n, s)) => Ok((n, RequestValue::StoreCreate(s))),
        },
        RequestKind::StoreDestroy => match parse_name(buf) {
            Err(e) => Err(e),
            Ok((n, s)) => Ok((n, RequestValue::StoreDestroy(s))),
        },
        RequestKind::BlobList => match parse_name(buf) {
            Err(e) => Err(e),
            Ok((n, s)) => Ok((n, RequestValue::BlobList(s))),
        },
        RequestKind::BlobHash => match parse_blob(buf) {
            Err(e) => Err(e),
            Ok((n, b)) => Ok((n, RequestValue::BlobHash(b))),
        },
        RequestKind::BlobSave => match parse_name_blob(buf) {
            Err(e) => Err(e),
            Ok((n, (s, b))) => Ok((n, RequestValue::BlobSave(s, b))),
        },
        RequestKind::BlobInfo => match parse_name_hash(buf) {
            Err(e) => Err(e),
            Ok((n, (s, h))) => Ok((n, RequestValue::BlobInfo(s, h))),
        },
        RequestKind::BlobLoad => match parse_name_hash(buf) {
            Err(e) => Err(e),
            Ok((n, (s, h))) => Ok((n, RequestValue::BlobLoad(s, h))),
        },
        RequestKind::BlobDelete => match parse_name_hash(buf) {
            Err(e) => Err(e),
            Ok((n, (s, h))) => Ok((n, RequestValue::BlobDelete(s, h))),
        },
    }
}

/// Reads a request: its code, then its fields, blob contents included.
pub open spec fn parse_request(buf: Seq<u8>) -> Parsed<RequestValue> {
    if buf.len() < 8 {
        Err(RecvError::Truncated)
    } else {
        match kind_from_code(u64_value(buf)) {
            None => Err(RecvError::Failed(Status::InternalError)),
            Some(k) => match parse_request_body(k, buf.skip(8)) {
                Err(e) => Err(e),
                Ok((n, r)) => Ok((8 + n, r)),
            },
        }
    }
}

/// Reads what follows the status of a response to a request of kind `k`.
#[verifier::opaque]
pub open spec fn parse_response_body(s: Status, k: RequestKind, buf: Seq<u8>) -> Parsed<
    ResponseValue,
> {
    match (s, k) {
        (Status::BadArgument, _) => Ok((0, ResponseValue::Status(s))),
        (Status::Okay, RequestKind::BlobHash) => match parse_blob_id(buf) {
            Err(e) => Err(e),
            Ok((n, h)) => Ok((n, ResponseValue::BlobHash(h))),
        },
        (Status::Okay, RequestKind::BlobInfo) => match parse_u64(buf) {
            Err(e) => Err(e),
            Ok((n, size)) => Ok((n, ResponseValue::BlobInfo(size))),
        },
        (Status::Okay, RequestKind::BlobList) => match parse_blob_ids(buf) {
            Err(e) => Err(e),
            Ok((n, hs)) => Ok((n, ResponseValue::BlobList(hs))),
        },
        (Status::Okay, RequestKind::BlobLoad) => match parse_blob(buf) {
            Err(e) => Err(e),
            Ok((n, b)) => Ok((n, ResponseValue::BlobLoad(b))),
        },
        (Status::Okay, RequestKind::BlobSave) | (Status::Exists, RequestKind::BlobSave) => match parse_blob_id(buf) {
            Err(e) => Err(e),
            Ok((n, h)) => Ok((n, ResponseValue::BlobSave(s, h))),
        },
        (s, _) => Ok((0, ResponseValue::Status(s))),
    }
}

/// How many bytes of `buf` the body of a request of kind `k` has taken when
/// it is refused: up to the end of a name that is no UTF-8, or of a blob
/// size that does not fit a `usize`.
pub open spec fn body_refused_at(k: RequestKind, buf: Seq<u8>) -> int {
    match k {
        RequestKind::BlobHash => 8,
        RequestKind::BlobSave => match parse_name(buf) {
            Ok((n, _)) => n + 8,
            Err(_) => name_end(buf),
        },
        _ => name_end(buf),
    }
}

/// How many bytes of `buf` a refused request has taken: its code alone when
/// the code is unknown, else the code and the body up to the refused field.
pub open spec fn request_refused_at(buf: Seq<u8>) -> int {
    match kind_from_code(u64_value(buf)) {
        None => 8,
        Some(k) => 8 + body_refused_at(k, buf.skip(8)),
    }
}

/// Reads the response to a request of kind `k`: its status, then the value
/// that a success carries.
pub open spec fn parse_response(buf: Seq<u8>, k: RequestKind) -> Parsed<ResponseValue> {
    match parse_status(buf) {
        Err(e) => Err(e),
        Ok((n, s)) => match parse_response_body(s, k, buf.skip(n)) {
            Err(e) => Err(e),
            Ok((m, r)) => Ok((n + m, r)),
        },
    }
}

// ---------------------------------------------------------------- writing

fn send_name(out: &mut Vec<u8>, name: &StoreName)
    requires
        name_fits(name@),
    ensures
        final(out)@ == old(out)@ + name_bytes(name@),
{
    let name_ref: &str = name.as_str();
    let _ = name_ref.send(out);
}

fn send_blob(out: &mut Vec<u8>, blob: &Blob)
    ensures
        final(out)@ == old(out)@ + blob_bytes(blob@),
{
    push_u64(out, blob.len() as u64);
    push_bytes(out, blob.as_slice());
}

/// Appends the frame of a request to `out`. A store name must fit the
/// frame's 16-bit size.
pub fn send_request(out: &mut Vec<u8>, request: &Request)
    requires
        request_fits(request@),
    ensures
        final(out)@ == old(out)@ + request_bytes(request@),
{
    let ghost start = out@;
    push_u64(out, request.kind().code());
    match request {
        Request::StoreCreate(name) => send_name(out, name),
        Request::StoreDestroy(name) => send_name(out, name),
        Request::BlobHash(blob) => send_blob(out, blob),
        Request::BlobList(name) => send_name(out, name),
        Request::BlobInfo(name, hash) => {
            send_name(out, name);
            push_bytes(out, hash.0.as_slice());
        },
        Request::BlobLoad(name, hash) => {
            send_name(out, name);
            push_bytes(out, hash.0.as_slice());
        },
        Request::BlobSave(name, blob) => {
            send_name(out, name);
            send_blob(out, blob);
        },
        Request::BlobDelete(name, hash) => {
            send_name(out, name);
            push_bytes(out, hash.0.as_slice());
        },
    }
    assert(out@ =~= start + request_bytes(request@));
}

fn send_hashes(out: &mut Vec<u8>, hashes: &Hashes)
    ensures
        final(out)@ == old(out)@ + blob_ids_bytes(hashes.deep_view()),
{
    let n = hashes.len();
    assert(hashes@.len() == n);
    let _ = hashes.send(out);
}

/// Appends the frame of a response to `out`.
pub fn send_response(out: &mut Vec<u8>, response: &Response)
    ensures
        final(out)@ == old(out)@ + response_bytes(response@),
{
    let ghost start = out@;
    match response {
        Response::Status(status) => {
            push_u64(out, status.code());
        },
        Response::BlobHash(hash) => {
            push_u64(out, Status::Okay.code());
            push_bytes(out, hash.0.as_slice());
            assert(out@ =~= start + response_bytes(response@));
        },
        Response::BlobInfo(size) => {
            push_u64(out, Status::Okay.code());
            push_u64(out, *size);
            assert(out@ =~= start + response_bytes(response@));
        },
        Response::BlobList(hashes) => {
            push_u64(out, Status::Okay.code());
            send_hashes(out, hashes);
            assert(out@ =~= start + response_bytes(response@));
        },
        Response::BlobLoad(blob) => {
            push_u64(out, Status::Okay.code());
            send_blob(out, blob);
            assert(out@ =~= start + response_bytes(response@));
        },
        Response::BlobSave(status, hash) => {
            push_u64(out, status.code());
            push_bytes(out, hash.0.as_slice());
            assert(out@ =~= start + response_bytes(response@));
        },
    }
}

// ---------------------------------------------------------------- reading

fn recv_blob(buf: &[u8]) -> (r: Result<(usize, Blob), RecvError>)
    ensures
        match r {
            Ok((n, b)) => parse_blob(buf@) == Ok::<(int, Seq<u8>), RecvError>((n as int, b@)),
            Err(e) => parse_blob(buf@) == Err::<(int, Seq<u8>), RecvError>(e),
        },
        r matches Ok((n, _)) ==> n <= buf@.len(),
{
    let (_, size) = read_u64(buf)?;
    if size > usize::MAX as u64 {
        return Err(RecvError::Failed(Status::InternalError));
    }
    let size = size as usize;
    if buf.len() - 8 < size {
        return Err(RecvError::Truncated);
    }
    let blob = vstd::slice::slice_to_vec(vstd::slice::slice_subrange(buf, 8, 8 + size));
    Ok((8 + size, blob))
}

fn recv_name_hash(buf: &[u8]) -> (r: Result<(usize, StoreName, Hash), RecvError>)
    ensures
        match r {
            Ok((n, s, h)) => parse_name_hash(buf@) == Ok::<(int, (Seq<char>, Seq<u8>)), RecvError>(
                (n as int, (s@, h@)),
            ),
            Err(e) => parse_name_hash(buf@) == Err::<(int, (Seq<char>, Seq<u8>)), RecvError>(e),
        },
        r matches Ok((n, _, _)) ==> n <= buf@.len(),
{
    let (n, name) = StoreId::recv(buf)?;
    let rest = vstd::slice::slice_subrange(buf, n, buf.len());
    assert(rest@ =~= buf@.skip(n as int));
    let (m, hash) = BlobId::recv(rest)?;
    Ok((n + m, name, hash))
}

fn recv_name_blob(buf: &[u8]) -> (r: Result<(usize, StoreName, Blob), RecvError>)
    ensures
        match r {
            Ok((n, s, b)) => parse_name_blob(buf@) == Ok::<(int, (Seq<char>, Seq<u8>)), RecvError>(
                (n as int, (s@, b@)),
            ),
            Err(e) => parse_name_blob(buf@) == Err::<(int, (Seq<char>, Seq<u8>)), RecvError>(e),
        },
        r matches Ok((n, _, _)) ==> n <= buf@.len(),
{
    let (n, name) = StoreId::recv(buf)?;
    let rest = vstd::slice::slice_subrange(buf, n, buf.len());
    assert(rest@ =~= buf@.skip(n as int));
    let (m, blob) = recv_blob(rest)?;
    Ok((n + m, name, blob))
}

fn recv_request_body(kind: RequestKind, buf: &[u8]) -> (r: Result<(usize, Request), RecvError>)
    ensures
        match r {
            Ok((n, req)) => parse_request_body(kind, buf@) == Ok::<(int, RequestValue), RecvError>(
                (n as int, req@),
            ),
            Err(e) => parse_request_body(kind, buf@) == Err::<(int, RequestValue), RecvError>(e),
        },
        r matches Ok((n, _)) ==> n <= buf@.len(),
{
    reveal(parse_request_body);
    match kind {
        RequestKind::StoreCreate => {
            let (n, name) = StoreId::recv(buf)?;
            Ok((n, Request::StoreCreate(name)))
        },
        RequestKind::StoreDestroy => {
            let (n, name) = StoreId::recv(buf)?;
            Ok((n, Request::StoreDestroy(name)))
        },
        RequestKind::BlobList => {
            let (n, name) = StoreId::recv(buf)?;
            Ok((n, Request::BlobList(name)))
        },
        RequestKind::BlobHash => {
            let (n, blob) = recv_blob(buf)?;
            Ok((n, Request::BlobHash(blob)))
        },
        RequestKind::BlobSave => {
            let (n, name, blob) = recv_name_blob(buf)?;
            Ok((n, Request::BlobSave(name, blob)))
        },
        RequestKind::BlobInfo => {
            let (n, name, hash) = recv_name_hash(buf)?;
            Ok((n, Request::BlobInfo(name, hash)))
        },
        RequestKind::BlobLoad => {
            let (n, name, hash) = recv_name_hash(buf)?;
            Ok((n, Request::BlobLoad(name, hash)))
        },
        RequestKind::BlobDelete => {
            let (n, name, hash) = recv_name_hash(buf)?;
            Ok((n, Request::BlobDelete(name, hash)))
        },
    }
}

/// Reads a request, blob contents included, from the front of `buf`. A
/// refused request has taken the bytes that `request_refused_at` counts.
pub fn recv_request(buf: &[u8]) -> (r: Result<(usize, Request), RecvError>)
    ensures
        match r {
            Ok((n, req)) => parse_request(buf@) == Ok::<(int, RequestValue), RecvError>(
                (n as int, req@),
            ),
            Err(e) => parse_request(buf@) == Err::<(int, RequestValue), RecvError>(e),
        },
        r matches Err(RecvError::Failed(_)) ==> refused_after(
            (|b: Seq<u8>| parse_request(b)),
            buf@,
            request_refused_at(buf@),
        ),
{
    proof {
        if parse_request(buf@) matches Err(RecvError::Failed(_)) {
            lemma_request_refusal(buf@);
        }
    }
    let (_, code) = read_u64(buf)?;
    let kind = match RequestKind::from_code(code) {
        Some(kind) => kind,
        None => return Err(RecvError::Failed(Status::InternalError)),
    };
    let rest = vstd::slice::slice_subrange(buf, 8, buf.len());
    assert(rest@ =~= buf@.skip(8));
    let (n, request) = recv_request_body(kind, rest)?;
    Ok((8 + n, request))
}

fn recv_response_body(status: Status, kind: RequestKind, buf: &[u8]) -> (r: Result<
    (usize, Response),
    RecvError,
>)
    ensures
        match r {
            Ok((n, resp)) => parse_response_body(status, kind, buf@) == Ok::<
                (int, ResponseValue),
                RecvError,
            >((n as int, resp@)),
            Err(e) => parse_response_body(status, kind, buf@) == Err::<
                (int, ResponseValue),
                RecvError,
            >(e),
        },
        r matches Ok((n, _)) ==> n <= buf@.len(),
{
    reveal(parse_response_body);
    match (status, kind) {
        (Status::BadArgument, _) => Ok((0, Response::Status(status))),
        (Status::Okay, RequestKind::BlobHash) => {
            let (n, hash) = BlobId::recv(buf)?;
            Ok((n, Response::BlobHash(hash)))
        },
        (Status::Okay, RequestKind::BlobInfo) => {
            let (n, size) = read_u64(buf)?;
            Ok((n, Response::BlobInfo(size)))
        },
        (Status::Okay, RequestKind::BlobList) => {
            let (n, hashes) = Hashes::recv(buf)?;
            Ok((n, Response::BlobList(hashes)))
        },
        (Status::Okay, RequestKind::BlobLoad) => {
            let (n, blob) = recv_blob(buf)?;
            Ok((n, Response::BlobLoad(blob)))
        },
        (Status::Okay, RequestKind::BlobSave) | (Status::Exists, RequestKind::BlobSave) => {
            let (n, hash) = BlobId::recv(buf)?;
            Ok((n, Response::BlobSave(status, hash)))
        },
        (status, _) => Ok((0, Response::Status(status))),
    }
}

/// Reads the response to `request_context` from the front of `buf`.
pub fn recv_response(buf: &[u8], request_context: &Request) -> (r: Result<
    (usize, Response),
    RecvError,
>)
    ensures
        match r {
            Ok((n, resp)) => parse_response(buf@, value_kind(request_context@)) == Ok::<
                (int, ResponseValue),
                RecvError,
            >((n as int, resp@)),
            Err(e) => parse_response(buf@, value_kind(request_context@)) == Err::<
                (int, ResponseValue),
                RecvError,
            >(e),
        },
{
    let kind = request_context.kind();
    let (n, status) = Status::recv(buf)?;
    let rest = vstd::slice::slice_subrange(buf, n, buf.len());
    assert(rest@ =~= buf@.skip(n as int));
    let (m, response) = recv_response_body(status, kind, rest)?;
    Ok((n + m, response))
}


// ---------------------------------------------------------------- laws

/// A blob is read back from its bytes, whatever follows them.
pub proof fn lemma_blob_roundtrip(b: Seq<u8>, rest: Seq<u8>)
    requires
        b.len() <= usize::MAX,
    ensures
        parse_blob(blob_bytes(b) + rest) == Ok::<(int, Seq<u8>), RecvError>(
            (blob_bytes(b).len() as int, b),
        ),
{
    let buf = blob_bytes(b) + rest;
    lemma_u64_roundtrip(b.len() as u64);
    assert(buf =~= u64_bytes(b.len() as u64) + (b + rest));
    lemma_u64_read_back(b.len() as u64, b + rest);
    assert(buf.subrange(8, 8 + b.len() as int) =~= b);
}

proof fn lemma_name_hash_roundtrip(s: Seq<char>, h: Seq<u8>, rest: Seq<u8>)
    requires
        name_fits(s),
        h.len() == 32,
    ensures
        parse_name_hash(name_bytes(s) + h + rest) == Ok::<(int, (Seq<char>, Seq<u8>)), RecvError>(
            ((name_bytes(s).len() + 32) as int, (s, h)),
        ),
{
    let nb = name_bytes(s);
    assert(nb + h + rest =~= nb + (h + rest));
    lemma_name_roundtrip(s, h + rest);
    assert((nb + (h + rest)).skip(nb.len() as int) =~= h + rest);
    assert((h + rest).take(32) =~= h);
}

proof fn lemma_name_blob_roundtrip(s: Seq<char>, b: Seq<u8>, rest: Seq<u8>)
    requires
        name_fits(s),
        b.len() <= usize::MAX,
    ensures
        parse_name_blob(name_bytes(s) + blob_bytes(b) + rest) == Ok::<
            (int, (Seq<char>, Seq<u8>)),
            RecvError,
        >(((name_bytes(s).len() + blob_bytes(b).len()) as int, (s, b))),
{
    let nb = name_bytes(s);
    assert(nb + blob_bytes(b) + rest =~= nb + (blob_bytes(b) + rest));
    lemma_name_roundtrip(s, blob_bytes(b) + rest);
    assert((nb + (blob_bytes(b) + rest)).skip(nb.len() as int) =~= blob_bytes(b) + rest);
    lemma_blob_roundtrip(b, rest);
}

proof fn lemma_request_body_roundtrip(r: RequestValue, rest: Seq<u8>)
    requires
        request_fits(r),
    ensures
        parse_request_body(value_kind(r), request_fields_bytes(r) + rest) == Ok::<
            (int, RequestValue),
            RecvError,
        >((request_fields_bytes(r).len() as int, r)),
{
    reveal(parse_request_body);
    match r {
        RequestValue::StoreCreate(s) => {
            lemma_name_roundtrip(s, rest);
        },
        RequestValue::StoreDestroy(s) => {
            lemma_name_roundtrip(s, rest);
        },
        RequestValue::BlobList(s) => {
            lemma_name_roundtrip(s, rest);
        },
        RequestValue::BlobHash(b) => {
            lemma_blob_roundtrip(b, rest);
        },
        RequestValue::BlobSave(s, b) => {
            lemma_name_blob_roundtrip(s, b, rest);
        },
        RequestValue::BlobInfo(s, h) => {
            lemma_name_hash_roundtrip(s, h, rest);
        },
        RequestValue::BlobLoad(s, h) => {
            lemma_name_hash_roundtrip(s, h, rest);
        },
        RequestValue::BlobDelete(s, h) => {
            lemma_name_hash_roundtrip(s, h, rest);
        },
    }
}

/// A request that fits its frame is read back from its bytes, whatever
/// follows them.
pub proof fn lemma_request_frame_roundtrip(r: RequestValue, rest: Seq<u8>)
    requires
        request_fits(r),
    ensures
        parse_request(request_bytes(r) + rest) == Ok::<(int, RequestValue), RecvError>(
            (request_bytes(r).len() as int, r),
        ),
{
    let b = request_bytes(r);
    let k = value_kind(r);
    lemma_u64_roundtrip(kind_code(k));
    let body = request_fields_bytes(r);
    assert(b =~= u64_bytes(kind_code(k)) + body);
    assert(b + rest =~= u64_bytes(kind_code(k)) + (body + rest));
    lemma_u64_read_back(kind_code(k), body + rest);
    assert((b + rest).skip(8) =~= body + rest);
    lemma_request_body_roundtrip(r, rest);
}

/// A response answers a request of kind `k` when it is the value that such
/// a request asks for, or a status that is not read as the start of one.
pub open spec fn response_answers(r: ResponseValue, k: RequestKind) -> bool {
    match r {
        ResponseValue::Status(s) => match k {
            RequestKind::BlobHash | RequestKind::BlobInfo | RequestKind::BlobList
            | RequestKind::BlobLoad => s != Status::Okay,
            RequestKind::BlobSave => s != Status::Okay && s != Status::Exists,
            _ => true,
        },
        ResponseValue::BlobHash(h) => k == RequestKind::BlobHash && h.len() == 32,
        ResponseValue::BlobInfo(_) => k == RequestKind::BlobInfo,
        ResponseValue::BlobList(hs) => k == RequestKind::BlobList && ids_wf(hs) && 32 * hs.len()
            <= usize::MAX,
        ResponseValue::BlobLoad(b) => k == RequestKind::BlobLoad && b.len() <= usize::MAX,
        ResponseValue::BlobSave(s, h) => k == RequestKind::BlobSave && (s == Status::Okay || s
            == Status::Exists) && h.len() == 32,
    }
}

/// A response is read back from its bytes, whatever follows them, by a
/// reader that knows the request that it answers.
pub proof fn lemma_response_frame_roundtrip(r: ResponseValue, k: RequestKind, rest: Seq<u8>)
    requires
        response_answers(r, k),
    ensures
        parse_response(response_bytes(r) + rest, k) == Ok::<(int, ResponseValue), RecvError>(
            (response_bytes(r).len() as int, r),
        ),
{
    reveal(parse_response_body);
    let b = response_bytes(r);
    let st = match r {
        ResponseValue::Status(s) => s,
        ResponseValue::BlobSave(s, _) => s,
        _ => Status::Okay,
    };
    lemma_u64_roundtrip(status_code(st));
    let body = b.skip(8);
    assert(b =~= u64_bytes(status_code(st)) + body);
    assert(b + rest =~= u64_bytes(status_code(st)) + (body + rest));
    lemma_status_code_read_back(st, body + rest);
    assert((b + rest).skip(8) =~= body + rest);
    match r {
        ResponseValue::Status(_) => {},
        ResponseValue::BlobHash(h) => {
            assert(body + rest =~= h + rest);
            assert((h + rest).take(32) =~= h);
        },
        ResponseValue::BlobInfo(n) => {
            assert(body =~= u64_bytes(n));
            lemma_u64_read_back(n, rest);
        },
        ResponseValue::BlobSave(_, h) => {
            assert(body + rest =~= h + rest);
            assert((h + rest).take(32) =~= h);
        },
        ResponseValue::BlobList(hs) => {
            assert(body =~= blob_ids_bytes(hs));
            lemma_blob_ids_roundtrip(hs, rest);
        },
        ResponseValue::BlobLoad(bl) => {
            assert(body =~= blob_bytes(bl));
            lemma_blob_roundtrip(bl, rest);
        },
    }
}

// ---------------------------------------------------------------- refusals

proof fn lemma_blob_on_prefix(buf: Seq<u8>, k: int)
    requires
        0 <= k <= buf.len(),
        parse_blob(buf) matches Err(RecvError::Failed(_)),
    ensures
        k < 8 ==> parse_blob(buf.take(k)) == Err::<(int, Seq<u8>), RecvError>(RecvError::Truncated),
        k == 8 ==> parse_blob(buf.take(k)) == parse_blob(buf),
{
    if k == 8 {
        lemma_u64_on_prefix(buf, 8);
    }
}

proof fn lemma_name_blob_on_prefix(buf: Seq<u8>, k: int)
    requires
        0 <= k <= buf.len(),
        parse_name_blob(buf) matches Err(RecvError::Failed(_)),
    ensures
        k < body_refused_at(RequestKind::BlobSave, buf) ==> parse_name_blob(buf.take(k)) == Err::<
            (int, (Seq<char>, Seq<u8>)),
            RecvError,
        >(RecvError::Truncated),
        k == body_refused_at(RequestKind::BlobSave, buf) ==> parse_name_blob(buf.take(k))
            == parse_name_blob(buf),
{
    lemma_name_on_prefix(buf, k);
    match parse_name(buf) {
        Err(_) => {},
        Ok((n, _)) => {
            if k >= n {
                let tail = buf.skip(n);
                assert(buf.take(k).skip(n) =~= tail.take(k - n));
                if k == n + 8 {
                    lemma_blob_on_prefix(tail, 8);
                }
            }
        },
    }
}

/// The body of a request that is refused is refused once the bytes up to
/// the refused field have been read, and no sooner.
proof fn lemma_body_refusal(k: RequestKind, buf: Seq<u8>)
    requires
        parse_request_body(k, buf) matches Err(RecvError::Failed(_)),
    ensures
        0 <= body_refused_at(k, buf) <= buf.len(),
        parse_request_body(k, buf.take(body_refused_at(k, buf))) == parse_request_body(k, buf),
        forall|j: int|
            0 <= j < body_refused_at(k, buf) ==> #[trigger] parse_request_body(k, buf.take(j))
                == Err::<(int, RequestValue), RecvError>(RecvError::Truncated),
{
    reveal(parse_request_body);
    let a = body_refused_at(k, buf);
    match k {
        RequestKind::StoreCreate | RequestKind::StoreDestroy | RequestKind::BlobList => {
            lemma_name_on_prefix(buf, a);
            assert forall|j: int| 0 <= j < a implies #[trigger] parse_request_body(k, buf.take(j))
                == Err::<(int, RequestValue), RecvError>(RecvError::Truncated) by {
                lemma_name_on_prefix(buf, j);
            }
        },
        RequestKind::BlobInfo | RequestKind::BlobLoad | RequestKind::BlobDelete => {
            assert(parse_name(buf) matches Err(RecvError::Failed(_)));
            lemma_name_on_prefix(buf, a);
            assert forall|j: int| 0 <= j < a implies #[trigger] parse_request_body(k, buf.take(j))
                == Err::<(int, RequestValue), RecvError>(RecvError::Truncated) by {
                lemma_name_on_prefix(buf, j);
            }
        },
        RequestKind::BlobHash => {
            lemma_blob_on_prefix(buf, 8);
            assert forall|j: int| 0 <= j < a implies #[trigger] parse_request_body(k, buf.take(j))
                == Err::<(int, RequestValue), RecvError>(RecvError::Truncated) by {
                lemma_blob_on_prefix(buf, j);
            }
        },
        RequestKind::BlobSave => {
            lemma_name_blob_on_prefix(buf, a);
            assert forall|j: int| 0 <= j < a implies #[trigger] parse_request_body(k, buf.take(j))
                == Err::<(int, RequestValue), RecvError>(RecvError::Truncated) by {
                lemma_name_blob_on_prefix(buf, j);
            }
        },
    }
}

proof fn lemma_request_on_prefix(buf: Seq<u8>, k: RequestKind, j: int)
    requires
        8 <= j <= buf.len(),
        kind_from_code(u64_value(buf)) == Some(k),
    ensures
        parse_request(buf.take(j)) == match parse_request_body(k, buf.skip(8).take(j - 8)) {
            Err(e) => Err(e),
            Ok((n, r)) => Ok::<(int, RequestValue), RecvError>((8 + n, r)),
        },
{
    lemma_u64_on_prefix(buf, j);
    assert(buf.take(j).skip(8) =~= buf.skip(8).take(j - 8));
}

proof fn lemma_request_refusal_known(buf: Seq<u8>, k: RequestKind)
    requires
        parse_request(buf) matches Err(RecvError::Failed(_)),
        kind_from_code(u64_value(buf)) == Some(k),
    ensures
        refused_after(|b: Seq<u8>| parse_request(b), buf, request_refused_at(buf)),
{
    let a = request_refused_at(buf);
    let rest = buf.skip(8);
    assert(parse_request_body(k, rest) matches Err(RecvError::Failed(_)));
    lemma_body_refusal(k, rest);
    lemma_request_on_prefix(buf, k, a);
    assert forall|j: int| 0 <= j < a implies #[trigger] parse_request(buf.take(j)) == Err::<
        (int, RequestValue),
        RecvError,
    >(RecvError::Truncated) by {
        if j >= 8 {
            lemma_request_on_prefix(buf, k, j);
            assert(parse_request_body(k, rest.take(j - 8)) == Err::<(int, RequestValue), RecvError>(
                RecvError::Truncated,
            ));
        }
    }
}

/// A refused request is refused once its code, and its body up to the
/// refused field, have been read, and no sooner: an unknown code is refused
/// after its eight bytes.
pub proof fn lemma_request_refusal(buf: Seq<u8>)
    requires
        parse_request(buf) matches Err(RecvError::Failed(_)),
    ensures
        refused_after(|b: Seq<u8>| parse_request(b), buf, request_refused_at(buf)),
{
    match kind_from_code(u64_value(buf)) {
        None => lemma_u64_on_prefix(buf, 8),
        Some(k) => lemma_request_refusal_known(buf, k),
    }
}

} // verus!
