//! The frame format of the native protocol, over byte sequences: what each
//! frame's bytes are, and what reading the front of a byte sequence gives.
use vstd::prelude::*;
use vstd::utf8::*;
use crate::types::{
    RequestHead, ResponseHead, SaveStatus, Status, save_status_code, save_status_from_code,
    status_code, status_from_code,
};
use crate::wire::{
    Parsed, RecvError, parse_raw, parse_u64, u16_bytes, u16_value, u32_bytes, u32_value, u64_bytes,
    u64_value,
};

verus! {

/// The version of the protocol that this library speaks.
pub const PROTO_VERSION: u32 = 1;

/// The code that opens a session: "OpenDoor".
pub const CODE_OPEN_DOOR: u64 = 0x726f6f446e65704f;

/// The server's answer to a client that opens a session.
#[derive(Debug, Copy, Clone, PartialEq, Eq, Structural)]
pub enum GreetCode {
    Welcome,
    NotWelcome,
}

/// The kind of a request, as its first eight bytes say.
#[derive(Debug, Copy, Clone, PartialEq, Eq, Structural)]
pub enum RequestCode {
    StoreList,
    StoreCreate,
    StoreDestroy,
    BlobHash,
    BlobList,
    BlobInfo,
    BlobLoad,
    BlobSave,
    BlobDelete,
    Bye,
}

pub open spec fn greet_code(g: GreetCode) -> u64 {
    match g {
        GreetCode::Welcome => 0x21656d6f636c6557,  // "Welcome!"
        GreetCode::NotWelcome => 0x2179617761206f47,  // "Go away!"
    }
}

pub open spec fn greet_from_code(c: u64) -> Option<GreetCode> {
    if c == greet_code(GreetCode::Welcome) {
        Some(GreetCode::Welcome)
    } else if c == greet_code(GreetCode::NotWelcome) {
        Some(GreetCode::NotWelcome)
    } else {
        None
    }
}

pub open spec fn request_code(c: RequestCode) -> u64 {
    match c {
        RequestCode::StoreList => 0x7473696c726f7473,  // "storlist"
        RequestCode::StoreCreate => 0x77656e65726f7473,  // "storenew"
        RequestCode::StoreDestroy => 0x6c656465726f7473,  // "storedel"
        RequestCode::BlobHash => 0x68736168626f6c62,  // "blobhash"
        RequestCode::BlobList => 0x7473696c626f6c62,  // "bloblist"
        RequestCode::BlobInfo => 0x6f666e69626f6c62,  // "blobinfo"
        RequestCode::BlobLoad => 0x64616f6c626f6c62,  // "blobload"
        RequestCode::BlobSave => 0x65766173626f6c62,  // "blobsave"
        RequestCode::BlobDelete => 0x706f7264626f6c62,  // "blobdrop"
        RequestCode::Bye => 0x21657962646f6f47,  // "Goodbye!"
    }
}

pub open spec fn request_from_code(c: u64) -> Option<RequestCode> {
    if c == request_code(RequestCode::StoreList) {
        Some(RequestCode::StoreList)
    } else if c == request_code(RequestCode::StoreCreate) {
        Some(RequestCode::StoreCreate)
    } else if c == request_code(RequestCode::StoreDestroy) {
        Some(RequestCode::StoreDestroy)
    } else if c == request_code(RequestCode::BlobHash) {
        Some(RequestCode::BlobHash)
    } else if c == request_code(RequestCode::BlobList) {
        Some(RequestCode::BlobList)
    } else if c == request_code(RequestCode::BlobInfo) {
        Some(RequestCode::BlobInfo)
    } else if c == request_code(RequestCode::BlobLoad) {
        Some(RequestCode::BlobLoad)
    } else if c == request_code(RequestCode::BlobSave) {
        Some(RequestCode::BlobSave)
    } else if c == request_code(RequestCode::BlobDelete) {
        Some(RequestCode::BlobDelete)
    } else if c == request_code(RequestCode::Bye) {
        Some(RequestCode::Bye)
    } else {
        None
    }
}

impl DeepView for GreetCode {
    type V = GreetCode;

    open spec fn deep_view(&self) -> GreetCode {
        *self
    }
}

impl DeepView for RequestCode {
    type V = RequestCode;

    open spec fn deep_view(&self) -> RequestCode {
        *self
    }
}

impl GreetCode {
    pub fn code(self) -> (c: u64)
        ensures
            c == greet_code(self),
    {
        match self {
            GreetCode::Welcome => 0x21656d6f636c6557,
            GreetCode::NotWelcome => 0x2179617761206f47,
        }
    }

    pub fn from_code(c: u64) -> (r: Option<GreetCode>)
        ensures
            r == greet_from_code(c),
    {
        if c == 0x21656d6f636c6557 {
            Some(GreetCode::Welcome)
        } else if c == 0x2179617761206f47 {
            Some(GreetCode::NotWelcome)
        } else {
            None
        }
    }
}

impl RequestCode {
    pub fn code(self) -> (c: u64)
        ensures
            c == request_code(self),
    {
        match self {
            RequestCode::StoreList => 0x7473696c726f7473,
            RequestCode::StoreCreate => 0x77656e65726f7473,
            RequestCode::StoreDestroy => 0x6c656465726f7473,
            RequestCode::BlobHash => 0x68736168626f6c62,
            RequestCode::BlobList => 0x7473696c626f6c62,
            RequestCode::BlobInfo => 0x6f666e69626f6c62,
            RequestCode::BlobLoad => 0x64616f6c626f6c62,
            RequestCode::BlobSave => 0x65766173626f6c62,
            RequestCode::BlobDelete => 0x706f7264626f6c62,
            RequestCode::Bye => 0x21657962646f6f47,
        }
    }

    pub fn from_code(c: u64) -> (r: Option<RequestCode>)
        ensures
            r == request_from_code(c),
    {
        if c == 0x7473696c726f7473 {
            Some(RequestCode::StoreList)
        } else if c == 0x77656e65726f7473 {
            Some(RequestCode::StoreCreate)
        } else if c == 0x6c656465726f7473 {
            Some(RequestCode::StoreDestroy)
        } else if c == 0x68736168626f6c62 {
            Some(RequestCode::BlobHash)
        } else if c == 0x7473696c626f6c62 {
            Some(RequestCode::BlobList)
        } else if c == 0x6f666e69626f6c62 {
            Some(RequestCode::BlobInfo)
        } else if c == 0x64616f6c626f6c62 {
            Some(RequestCode::BlobLoad)
        } else if c == 0x65766173626f6c62 {
            Some(RequestCode::BlobSave)
        } else if c == 0x706f7264626f6c62 {
            Some(RequestCode::BlobDelete)
        } else if c == 0x21657962646f6f47 {
            Some(RequestCode::Bye)
        } else {
            None
        }
    }
}

/// The kind of a request header.
pub open spec fn head_kind(h: RequestHead) -> RequestCode {
    match h {
        RequestHead::StoreList => RequestCode::StoreList,
        RequestHead::StoreCreate(_) => RequestCode::StoreCreate,
        RequestHead::StoreDestroy(_) => RequestCode::StoreDestroy,
        RequestHead::BlobHash(_) => RequestCode::BlobHash,
        RequestHead::BlobList(_) => RequestCode::BlobList,
        RequestHead::BlobInfo(_, _) => RequestCode::BlobInfo,
        RequestHead::BlobLoad(_, _) => RequestCode::BlobLoad,
        RequestHead::BlobSave(_, _) => RequestCode::BlobSave,
        RequestHead::BlobDelete(_, _) => RequestCode::BlobDelete,
        RequestHead::Bye => RequestCode::Bye,
    }
}

// ---------------------------------------------------------------- values

/// A store name fits the frame when its UTF-8 encoding has at most
/// 65535 bytes.
pub open spec fn name_fits(s: Seq<char>) -> bool {
    encode_utf8(s).len() <= 0xffff
}

/// The bytes of a store name: its UTF-8 length as a `u16`, then its
/// UTF-8 encoding.
pub open spec fn name_bytes(s: Seq<char>) -> Seq<u8> {
    u16_bytes(encode_utf8(s).len() as u16) + encode_utf8(s)
}

pub open spec fn parse_name(buf: Seq<u8>) -> Parsed<Seq<char>> {
    if buf.len() < 2 {
        Err(RecvError::Truncated)
    } else {
        let n = u16_value(buf) as int;
        if buf.len() < 2 + n {
            Err(RecvError::Truncated)
        } else if valid_utf8(buf.subrange(2, 2 + n)) {
            Ok((2 + n, decode_utf8(buf.subrange(2, 2 + n))))
        } else {
            Err(RecvError::Failed(Status::InternalError))
        }
    }
}

/// All names fit the frame.
pub open spec fn names_fit(ss: Seq<Seq<char>>) -> bool {
    forall|i: int| 0 <= i < ss.len() ==> name_fits(#[trigger] ss[i])
}

/// The bytes of names, one after the other.
pub open spec fn names_bytes(ss: Seq<Seq<char>>) -> Seq<u8>
    decreases ss.len(),
{
    if ss.len() == 0 {
        Seq::empty()
    } else {
        name_bytes(ss[0]) + names_bytes(ss.drop_first())
    }
}

/// Reads `k` names one after the other.
pub open spec fn parse_names(buf: Seq<u8>, k: nat) -> Parsed<Seq<Seq<char>>>
    decreases k,
{
    if k == 0 {
        Ok((0, Seq::empty()))
    } else {
        match parse_name(buf) {
            Err(e) => Err(e),
            Ok((n, s)) => match parse_names(buf.skip(n), (k - 1) as nat) {
                Err(e) => Err(e),
                Ok((m, ss)) => Ok((n + m, seq![s] + ss)),
            },
        }
    }
}

/// The bytes of a list of store names: the count as a `u64`, then the
/// names.
pub open spec fn store_ids_bytes(ss: Seq<Seq<char>>) -> Seq<u8> {
    u64_bytes(ss.len() as u64) + names_bytes(ss)
}

pub open spec fn parse_store_ids(buf: Seq<u8>) -> Parsed<Seq<Seq<char>>> {
    if buf.len() < 8 {
        Err(RecvError::Truncated)
    } else if u64_value(buf) > usize::MAX {
        Err(RecvError::Failed(Status::InternalError))
    } else {
        match parse_names(buf.skip(8), u64_value(buf) as nat) {
            Err(e) => Err(e),
            Ok((n, ss)) => Ok((8 + n, ss)),
        }
    }
}

/// Reads the 32 bytes of a blob identity.
pub open spec fn parse_blob_id(buf: Seq<u8>) -> Parsed<Seq<u8>> {
    parse_raw(buf, 32)
}

/// All identities have 32 bytes.
pub open spec fn ids_wf(ids: Seq<Seq<u8>>) -> bool {
    forall|i: int| 0 <= i < ids.len() ==> (#[trigger] ids[i]).len() == 32
}

/// The bytes of blob identities, one after the other.
pub open spec fn ids_bytes(ids: Seq<Seq<u8>>) -> Seq<u8>
    decreases ids.len(),
{
    if ids.len() == 0 {
        Seq::empty()
    } else {
        ids[0] + ids_bytes(ids.drop_first())
    }
}

/// Cuts `k` identities of 32 bytes each out of `raw`.
pub open spec fn split_ids(raw: Seq<u8>, k: nat) -> Seq<Seq<u8>> {
    Seq::new(k, |i: int| raw.subrange(32 * i, 32 * i + 32))
}

/// The bytes of a list of blob identities: the count as a `u64`, then the
/// identities.
pub open spec fn blob_ids_bytes(ids: Seq<Seq<u8>>) -> Seq<u8> {
    u64_bytes(ids.len() as u64) + ids_bytes(ids)
}

/// Reads a list of blob identities. A count whose identities could not be
/// held in memory is refused.
pub open spec fn parse_blob_ids(buf: Seq<u8>) -> Parsed<Seq<Seq<u8>>> {
    if buf.len() < 8 {
        Err(RecvError::Truncated)
    } else if 32 * u64_value(buf) > usize::MAX {
        Err(RecvError::Failed(Status::InternalError))
    } else if buf.len() < 8 + 32 * u64_value(buf) {
        Err(RecvError::Truncated)
    } else {
        Ok(
            (
                8 + 32 * u64_value(buf),
                split_ids(buf.subrange(8, 8 + 32 * u64_value(buf)), u64_value(buf) as nat),
            ),
        )
    }
}

/// Reads the size that heads a blob.
pub open spec fn parse_blob_size(buf: Seq<u8>) -> Parsed<nat> {
    if buf.len() < 8 {
        Err(RecvError::Truncated)
    } else if u64_value(buf) > usize::MAX {
        Err(RecvError::Failed(Status::InternalError))
    } else {
        Ok((8, u64_value(buf) as nat))
    }
}

/// Reads a status.
pub open spec fn parse_status(buf: Seq<u8>) -> Parsed<Status> {
    if buf.len() < 8 {
        Err(RecvError::Truncated)
    } else {
        match status_from_code(u64_value(buf)) {
            Some(s) => Ok((8, s)),
            None => Err(RecvError::Failed(Status::InternalError)),
        }
    }
}

/// Reads a request kind.
pub open spec fn parse_request_code(buf: Seq<u8>) -> Parsed<RequestCode> {
    if buf.len() < 8 {
        Err(RecvError::Truncated)
    } else {
        match request_from_code(u64_value(buf)) {
            Some(c) => Ok((8, c)),
            None => Err(RecvError::Failed(Status::InternalError)),
        }
    }
}

/// Reads a greeting code.
pub open spec fn parse_greet_code(buf: Seq<u8>) -> Parsed<GreetCode> {
    if buf.len() < 8 {
        Err(RecvError::Truncated)
    } else {
        match greet_from_code(u64_value(buf)) {
            Some(g) => Ok((8, g)),
            None => Err(RecvError::Failed(Status::InternalError)),
        }
    }
}

/// Reads a save status.
pub open spec fn parse_save_status(buf: Seq<u8>) -> Parsed<SaveStatus> {
    if buf.len() < 8 {
        Err(RecvError::Truncated)
    } else {
        match save_status_from_code(u64_value(buf)) {
            Some(s) => Ok((8, s)),
            None => Err(RecvError::Failed(Status::InternalError)),
        }
    }
}

/// Reads a store name, then a blob identity.
pub open spec fn parse_name_id(buf: Seq<u8>) -> Parsed<(Seq<char>, Seq<u8>)> {
    match parse_name(buf) {
        Err(e) => Err(e),
        Ok((n, s)) => match parse_blob_id(buf.skip(n)) {
            Err(e) => Err(e),
            Ok((m, id)) => Ok((n + m, (s, id))),
        },
    }
}

/// Reads a store name, then the size that heads a blob.
pub open spec fn parse_name_size(buf: Seq<u8>) -> Parsed<(Seq<char>, nat)> {
    match parse_name(buf) {
        Err(e) => Err(e),
        Ok((n, s)) => match parse_blob_size(buf.skip(n)) {
            Err(e) => Err(e),
            Ok((m, z)) => Ok((n + m, (s, z))),
        },
    }
}

// ---------------------------------------------------------------- refusals

/// Where a name at the front of `buf` ends: its two size bytes, then its
/// bytes.
pub open spec fn name_end(buf: Seq<u8>) -> int {
    2 + u16_value(buf)
}

/// How many bytes of `buf` the fields of a request of kind `c` have taken
/// when they are refused: up to the end of a name that is no UTF-8, or of a
/// blob size that does not fit a `usize`.
pub open spec fn fields_refused_at(c: RequestCode, buf: Seq<u8>) -> int {
    match c {
        RequestCode::BlobHash => 8,
        RequestCode::BlobSave => match parse_name(buf) {
            Ok((n, _)) => n + 8,
            Err(_) => name_end(buf),
        },
        _ => name_end(buf),
    }
}

/// How many bytes of `buf` a refused request header has taken: its code
/// alone when the code is unknown, else the code and the fields up to the
/// one that is refused.
pub open spec fn request_refused_at(buf: Seq<u8>) -> int {
    match request_from_code(u64_value(buf)) {
        None => 8,
        Some(c) => 8 + fields_refused_at(c, buf.skip(8)),
    }
}

/// How many bytes of `buf` a refused server greeting has taken: an unknown
/// code alone, or a refusal together with the server's version.
pub open spec fn welcome_refused_at(buf: Seq<u8>) -> int {
    match greet_from_code(u64_value(buf)) {
        None => 8,
        Some(_) => 12,
    }
}

// ---------------------------------------------------------------- greetings

/// The bytes with which a client opens a session.
pub open spec fn open_door_bytes() -> Seq<u8> {
    u64_bytes(CODE_OPEN_DOOR) + u32_bytes(PROTO_VERSION)
}

/// What the server reads from a client that opens a session: the length of
/// the greeting, or `BadArgument` for another code or another version.
pub open spec fn parse_open_door(buf: Seq<u8>) -> Parsed<()> {
    if buf.len() < 12 {
        Err(RecvError::Truncated)
    } else if u64_value(buf) == CODE_OPEN_DOOR && u32_value(buf.skip(8)) == PROTO_VERSION {
        Ok((12, ()))
    } else {
        Err(RecvError::Failed(Status::BadArgument))
    }
}

pub open spec fn welcome_bytes() -> Seq<u8> {
    u64_bytes(greet_code(GreetCode::Welcome))
}

pub open spec fn not_welcome_bytes() -> Seq<u8> {
    u64_bytes(greet_code(GreetCode::NotWelcome)) + u32_bytes(PROTO_VERSION)
}

/// What a client reads from the server's greeting: welcome, or
/// `BadArgument` once the server's version has been read.
pub open spec fn parse_welcome(buf: Seq<u8>) -> Parsed<()> {
    match parse_greet_code(buf) {
        Err(e) => Err(e),
        Ok((_, GreetCode::Welcome)) => Ok((8, ())),
        Ok((_, GreetCode::NotWelcome)) => if buf.len() < 12 {
            Err(RecvError::Truncated)
        } else {
            Err(RecvError::Failed(Status::BadArgument))
        },
    }
}

// ---------------------------------------------------------------- requests

/// The bytes of a request header, if it can be written: every name must
/// fit, every identity have 32 bytes and every blob size fit a `u64`.
#[verifier::opaque]
pub open spec fn request_head_bytes(h: RequestHead) -> Option<Seq<u8>> {
    let code = u64_bytes(request_code(head_kind(h)));
    match h {
        RequestHead::StoreList => Some(code),
        RequestHead::Bye => Some(code),
        RequestHead::StoreCreate(s) => if name_fits(s) {
            Some(code + name_bytes(s))
        } else {
            None
        },
        RequestHead::StoreDestroy(s) => if name_fits(s) {
            Some(code + name_bytes(s))
        } else {
            None
        },
        RequestHead::BlobList(s) => if name_fits(s) {
            Some(code + name_bytes(s))
        } else {
            None
        },
        RequestHead::BlobHash(n) => if n <= u64::MAX {
            Some(code + u64_bytes(n as u64))
        } else {
            None
        },
        RequestHead::BlobSave(s, n) => if name_fits(s) && n <= u64::MAX {
            Some(code + name_bytes(s) + u64_bytes(n as u64))
        } else {
            None
        },
        RequestHead::BlobInfo(s, id) => if name_fits(s) && id.len() == 32 {
            Some(code + name_bytes(s) + id)
        } else {
            None
        },
        RequestHead::BlobLoad(s, id) => if name_fits(s) && id.len() == 32 {
            Some(code + name_bytes(s) + id)
        } else {
            None
        },
        RequestHead::BlobDelete(s, id) => if name_fits(s) && id.len() == 32 {
            Some(code + name_bytes(s) + id)
        } else {
            None
        },
    }
}

/// Reads what follows the code of a request of kind `c`.
#[verifier::opaque]
pub open spec fn parse_request_fields(c: RequestCode, buf: Seq<u8>) -> Parsed<RequestHead> {
    match c {
        RequestCode::StoreList => Ok((0, RequestHead::StoreList)),
        RequestCode::Bye => Ok((0, RequestHead::Bye)),
        RequestCode::StoreCreate => match parse_name(buf) {
            Err(e) => Err(e),
            Ok((n, s)) => Ok((n, RequestHead::StoreCreate(s))),
        },
        RequestCode::StoreDestroy => match parse_name(buf) {
            Err(e) => Err(e),
            Ok((n, s)) => Ok((n, RequestHead::StoreDestroy(s))),
        },
        RequestCode::BlobList => match parse_name(buf) {
            Err(e) => Err(e),
            Ok((n, s)) => Ok((n, RequestHead::BlobList(s))),
        },
        RequestCode::BlobHash => match parse_blob_size(buf) {
            Err(e) => Err(e),
            Ok((n, z)) => Ok((n, RequestHead::BlobHash(z))),
        },
        RequestCode::BlobSave => match parse_name_size(buf) {
            Err(e) => Err(e),
            Ok((n, (s, z))) => Ok((n, RequestHead::BlobSave(s, z))),
        },
        RequestCode::BlobInfo => match parse_name_id(buf) {
            Err(e) => Err(e),
            Ok((n, (s, id))) => Ok((n, RequestHead::BlobInfo(s, id))),
        },
        RequestCode::BlobLoad => match parse_name_id(buf) {
            Err(e) => Err(e),
            Ok((n, (s, id))) => Ok((n, RequestHead::BlobLoad(s, id))),
        },
        RequestCode::BlobDelete => match parse_name_id(buf) {
            Err(e) => Err(e),
            Ok((n, (s, id))) => Ok((n, RequestHead::BlobDelete(s, id))),
        },
    }
}

/// Reads a request header: its code, then its fields. A blob's contents
/// are not part of the header.
pub open spec fn parse_request_head(buf: Seq<u8>) -> Parsed<RequestHead> {
    match parse_request_code(buf) {
        Err(e) => Err(e),
        Ok((n, c)) => match parse_request_fields(c, buf.skip(n)) {
            Err(e) => Err(e),
            Ok((m, h)) => Ok((n + m, h)),
        },
    }
}

// ---------------------------------------------------------------- responses

/// The bytes of a response header, if it can be written.
#[verifier::opaque]
pub open spec fn response_head_bytes(h: ResponseHead) -> Option<Seq<u8>> {
    let okay = u64_bytes(status_code(Status::Okay));
    match h {
        ResponseHead::Status(s) => Some(u64_bytes(status_code(s))),
        ResponseHead::StoreList(ss) => if names_fit(ss) && ss.len() <= u64::MAX {
            Some(okay + store_ids_bytes(ss))
        } else {
            None
        },
        ResponseHead::BlobHash(id) => if id.len() == 32 {
            Some(okay + id)
        } else {
            None
        },
        ResponseHead::BlobList(ids) => if ids_wf(ids) && ids.len() <= u64::MAX {
            Some(okay + blob_ids_bytes(ids))
        } else {
            None
        },
        ResponseHead::BlobInfo(n) => Some(okay + u64_bytes(n)),
        ResponseHead::BlobLoad(n) => if n <= u64::MAX {
            Some(okay + u64_bytes(n as u64))
        } else {
            None
        },
        ResponseHead::BlobSave(s, id) => if id.len() == 32 {
            Some(u64_bytes(save_status_code(s)) + id)
        } else {
            None
        },
    }
}

/// Reads what follows the status of a response to a request of kind `c`.
#[verifier::opaque]
pub open spec fn parse_response_fields(s: Status, c: RequestCode, buf: Seq<u8>) -> Parsed<
    ResponseHead,
> {
    match (s, c) {
        (Status::Okay, RequestCode::StoreList) => match parse_store_ids(buf) {
            Err(e) => Err(e),
            Ok((n, ss)) => Ok((n, ResponseHead::StoreList(ss))),
        },
        (Status::Okay, RequestCode::BlobHash) => match parse_blob_id(buf) {
            Err(e) => Err(e),
            Ok((n, id)) => Ok((n, ResponseHead::BlobHash(id))),
        },
        (Status::Okay, RequestCode::BlobList) => match parse_blob_ids(buf) {
            Err(e) => Err(e),
            Ok((n, ids)) => Ok((n, ResponseHead::BlobList(ids))),
        },
        (Status::Okay, RequestCode::BlobInfo) => match parse_u64(buf) {
            Err(e) => Err(e),
            Ok((n, z)) => Ok((n, ResponseHead::BlobInfo(z))),
        },
        (Status::Okay, RequestCode::BlobLoad) => match parse_blob_size(buf) {
            Err(e) => Err(e),
            Ok((n, z)) => Ok((n, ResponseHead::BlobLoad(z))),
        },
        (Status::Okay, RequestCode::BlobSave) => match parse_blob_id(buf) {
            Err(e) => Err(e),
            Ok((n, id)) => Ok((n, ResponseHead::BlobSave(SaveStatus::Created, id))),
        },
        (Status::Exists, RequestCode::BlobSave) => match parse_blob_id(buf) {
            Err(e) => Err(e),
            Ok((n, id)) => Ok((n, ResponseHead::BlobSave(SaveStatus::Exists, id))),
        },
        (s, _) => Ok((0, ResponseHead::Status(s))),
    }
}

/// Reads the header of a response to a request of kind `c`: its status,
/// then, for a success that carries a value, the value.
pub open spec fn parse_response_head(buf: Seq<u8>, c: RequestCode) -> Parsed<ResponseHead> {
    match parse_status(buf) {
        Err(e) => Err(e),
        Ok((n, s)) => match parse_response_fields(s, c, buf.skip(n)) {
            Err(e) => Err(e),
            Ok((m, h)) => Ok((n + m, h)),
        },
    }
}

/// A response header answers a request of kind `c` when it is the value
/// that such a request asks for, or a status that a reader of such a
/// response does not take for the start of a value.
pub open spec fn answers(h: ResponseHead, c: RequestCode) -> bool {
    match h {
        ResponseHead::Status(s) => match c {
            RequestCode::StoreList | RequestCode::BlobHash | RequestCode::BlobList
            | RequestCode::BlobInfo | RequestCode::BlobLoad => s != Status::Okay,
            RequestCode::BlobSave => s != Status::Okay && s != Status::Exists,
            _ => true,
        },
        ResponseHead::StoreList(_) => c == RequestCode::StoreList,
        ResponseHead::BlobHash(_) => c == RequestCode::BlobHash,
        ResponseHead::BlobList(_) => c == RequestCode::BlobList,
        ResponseHead::BlobInfo(_) => c == RequestCode::BlobInfo,
        ResponseHead::BlobLoad(_) => c == RequestCode::BlobLoad,
        ResponseHead::BlobSave(_, _) => c == RequestCode::BlobSave,
    }
}

} // verus!
