//! The values of the protocol: statuses, identities, requests and
//! responses, with their views as plain values.
use vstd::prelude::*;
use crate::frames::RequestCode;

verus! {

/// The eight-byte code that the protocol uses for an enumerant.
pub type Code = u64;

/// The size of a blob, in bytes.
pub type BlobSize = u64;

/// The outcome of an operation that the protocol reports.
#[derive(Debug, Copy, Clone, PartialEq, Eq, Structural)]
pub enum Status {
    Okay,
    Exists,
    NotFound,
    NoSpace,
    BadArgument,
    InternalError,
}

/// The two outcomes of a successful save.
#[derive(Debug, Copy, Clone, PartialEq, Eq, Structural)]
pub enum SaveStatus {
    Created,
    Exists,
}

/// The code of each status on the wire: the eight ASCII bytes of its tag,
/// read as a little-endian integer.
pub open spec fn status_code(s: Status) -> u64 {
    match s {
        Status::Okay => 0x656b6f6479616b6f,  // "okaydoke"
        Status::Exists => 0x7374736978657469,  // "itexists"
        Status::NotFound => 0x646e756f66746f6e,  // "notfound"
        Status::NoSpace => 0x65636170732d6f6e,  // "no-space"
        Status::BadArgument => 0x6772616c61766e69,  // "invalarg"
        Status::InternalError => 0x6c616e7265746e69,  // "internal"
    }
}

/// The status whose code is `c`, if any.
pub open spec fn status_from_code(c: u64) -> Option<Status> {
    if c == status_code(Status::Okay) {
        Some(Status::Okay)
    } else if c == status_code(Status::Exists) {
        Some(Status::Exists)
    } else if c == status_code(Status::NotFound) {
        Some(Status::NotFound)
    } else if c == status_code(Status::NoSpace) {
        Some(Status::NoSpace)
    } else if c == status_code(Status::BadArgument) {
        Some(Status::BadArgument)
    } else if c == status_code(Status::InternalError) {
        Some(Status::InternalError)
    } else {
        None
    }
}

/// A save status shares its code with the status of the same name.
pub open spec fn save_status_code(s: SaveStatus) -> u64 {
    match s {
        SaveStatus::Created => status_code(Status::Okay),
        SaveStatus::Exists => status_code(Status::Exists),
    }
}

pub open spec fn save_status_from_code(c: u64) -> Option<SaveStatus> {
    if c == status_code(Status::Okay) {
        Some(SaveStatus::Created)
    } else if c == status_code(Status::Exists) {
        Some(SaveStatus::Exists)
    } else {
        None
    }
}

impl DeepView for Status {
    type V = Status;

    open spec fn deep_view(&self) -> Status {
        *self
    }
}

impl DeepView for SaveStatus {
    type V = SaveStatus;

    open spec fn deep_view(&self) -> SaveStatus {
        *self
    }
}

impl Status {
    pub fn code(self) -> (c: Code)
        ensures
            c == status_code(self),
    {
        match self {
            Status::Okay => 0x656b6f6479616b6f,
            Status::Exists => 0x7374736978657469,
            Status::NotFound => 0x646e756f66746f6e,
            Status::NoSpace => 0x65636170732d6f6e,
            Status::BadArgument => 0x6772616c61766e69,
            Status::InternalError => 0x6c616e7265746e69,
        }
    }

    pub fn from_code(c: Code) -> (r: Option<Status>)
        ensures
            r == status_from_code(c),
    {
        if c == 0x656b6f6479616b6f {
            Some(Status::Okay)
        } else if c == 0x7374736978657469 {
            Some(Status::Exists)
        } else if c == 0x646e756f66746f6e {
            Some(Status::NotFound)
        } else if c == 0x65636170732d6f6e {
            Some(Status::NoSpace)
        } else if c == 0x6772616c61766e69 {
            Some(Status::BadArgument)
        } else if c == 0x6c616e7265746e69 {
            Some(Status::InternalError)
        } else {
            None
        }
    }
}

impl SaveStatus {
    pub fn code(self) -> (c: Code)
        ensures
            c == save_status_code(self),
    {
        match self {
            SaveStatus::Created => 0x656b6f6479616b6f,
            SaveStatus::Exists => 0x7374736978657469,
        }
    }

    pub fn from_code(c: Code) -> (r: Option<SaveStatus>)
        ensures
            r == save_status_from_code(c),
    {
        if c == 0x656b6f6479616b6f {
            Some(SaveStatus::Created)
        } else if c == 0x7374736978657469 {
            Some(SaveStatus::Exists)
        } else {
            None
        }
    }
}

/// Decoding a status code gives back the status that was encoded.
pub proof fn lemma_status_code_roundtrip(s: Status)
    ensures
        status_from_code(status_code(s)) == Some(s),
{
}

/// Decoding a save-status code gives back the save status that was encoded.
pub proof fn lemma_save_status_code_roundtrip(s: SaveStatus)
    ensures
        save_status_from_code(save_status_code(s)) == Some(s),
{
}


/// The name of a store.
pub type StoreId = String;

/// The names of stores.
pub type StoreIds = Vec<StoreId>;

/// The identity of a blob: the sha256 hash of its contents.
#[derive(Debug, Copy, Clone, PartialEq, Eq, Hash)]
pub struct BlobId(pub [u8; 32]);

impl View for BlobId {
    type V = Seq<u8>;

    open spec fn view(&self) -> Seq<u8> {
        self.0@
    }
}

impl DeepView for BlobId {
    type V = Seq<u8>;

    open spec fn deep_view(&self) -> Seq<u8> {
        self.0@
    }
}

/// The identities of blobs.
pub type BlobIds = Vec<BlobId>;

/// A blob whose header has been read and whose `bytes_remain` bytes of
/// contents follow in the stream.
#[derive(Debug, Copy, Clone, PartialEq, Eq, Structural)]
pub struct BlobStream {
    pub bytes_remain: usize,
}

/// A request as a client sends it.
pub enum RequestOut<'a> {
    StoreList(),
    StoreCreate(&'a str),
    StoreDestroy(&'a str),
    BlobHash(&'a [u8]),
    BlobList(&'a str),
    BlobInfo(&'a str, &'a BlobId),
    BlobLoad(&'a str, &'a BlobId),
    BlobSave(&'a str, &'a [u8]),
    BlobDelete(&'a str, &'a BlobId),
    Bye,
}

/// A request as a server reads it: a blob's contents are not read with the
/// request, but left in the stream.
pub enum RequestIn {
    StoreList(),
    StoreCreate(StoreId),
    StoreDestroy(StoreId),
    BlobHash(BlobStream),
    BlobList(StoreId),
    BlobInfo(StoreId, BlobId),
    BlobLoad(StoreId, BlobId),
    BlobSave(StoreId, BlobStream),
    BlobDelete(StoreId, BlobId),
    Bye,
}

/// A response as a server sends it.
pub enum ResponseOut {
    Status(Status),
    StoreList(StoreIds),
    BlobHash(BlobId),
    BlobList(BlobIds),
    BlobInfo(BlobSize),
    BlobLoad(Vec<u8>),
    BlobSave((SaveStatus, BlobId)),
}

/// A response as a client reads it: a loaded blob's contents are left in
/// the stream.
pub enum ResponseIn {
    Status(Status),
    StoreList(StoreIds),
    BlobHash(BlobId),
    BlobList(BlobIds),
    BlobInfo(BlobSize),
    BlobLoad(BlobStream),
    BlobSave((SaveStatus, BlobId)),
}

/// The header of a request frame, over plain values: store names as
/// characters, blob identities as bytes, and blobs by their size.
pub enum RequestHead {
    StoreList,
    StoreCreate(Seq<char>),
    StoreDestroy(Seq<char>),
    BlobHash(nat),
    BlobList(Seq<char>),
    BlobInfo(Seq<char>, Seq<u8>),
    BlobLoad(Seq<char>, Seq<u8>),
    BlobSave(Seq<char>, nat),
    BlobDelete(Seq<char>, Seq<u8>),
    Bye,
}

/// The header of a response frame, over plain values.
pub enum ResponseHead {
    Status(Status),
    StoreList(Seq<Seq<char>>),
    BlobHash(Seq<u8>),
    BlobList(Seq<Seq<u8>>),
    BlobInfo(u64),
    BlobLoad(nat),
    BlobSave(SaveStatus, Seq<u8>),
}

impl<'a> RequestOut<'a> {
    /// The header that this request sends.
    pub open spec fn head(&self) -> RequestHead {
        match *self {
            RequestOut::StoreList() => RequestHead::StoreList,
            RequestOut::StoreCreate(s) => RequestHead::StoreCreate(s@),
            RequestOut::StoreDestroy(s) => RequestHead::StoreDestroy(s@),
            RequestOut::BlobHash(b) => RequestHead::BlobHash(b@.len()),
            RequestOut::BlobList(s) => RequestHead::BlobList(s@),
            RequestOut::BlobInfo(s, id) => RequestHead::BlobInfo(s@, id@),
            RequestOut::BlobLoad(s, id) => RequestHead::BlobLoad(s@, id@),
            RequestOut::BlobSave(s, b) => RequestHead::BlobSave(s@, b@.len()),
            RequestOut::BlobDelete(s, id) => RequestHead::BlobDelete(s@, id@),
            RequestOut::Bye => RequestHead::Bye,
        }
    }

    /// The kind of this request.
    pub open spec fn spec_kind(&self) -> RequestCode {
        match *self {
            RequestOut::StoreList() => RequestCode::StoreList,
            RequestOut::StoreCreate(_) => RequestCode::StoreCreate,
            RequestOut::StoreDestroy(_) => RequestCode::StoreDestroy,
            RequestOut::BlobHash(_) => RequestCode::BlobHash,
            RequestOut::BlobList(_) => RequestCode::BlobList,
            RequestOut::BlobInfo(_, _) => RequestCode::BlobInfo,
            RequestOut::BlobLoad(_, _) => RequestCode::BlobLoad,
            RequestOut::BlobSave(_, _) => RequestCode::BlobSave,
            RequestOut::BlobDelete(_, _) => RequestCode::BlobDelete,
            RequestOut::Bye => RequestCode::Bye,
        }
    }

    /// The blob contents that follow the header, if any.
    pub open spec fn body(&self) -> Seq<u8> {
        match *self {
            RequestOut::BlobHash(b) => b@,
            RequestOut::BlobSave(_, b) => b@,
            _ => Seq::empty(),
        }
    }
}

impl View for RequestIn {
    type V = RequestHead;

    open spec fn view(&self) -> RequestHead {
        match self {
            RequestIn::StoreList() => RequestHead::StoreList,
            RequestIn::StoreCreate(s) => RequestHead::StoreCreate(s@),
            RequestIn::StoreDestroy(s) => RequestHead::StoreDestroy(s@),
            RequestIn::BlobHash(b) => RequestHead::BlobHash(b.bytes_remain as nat),
            RequestIn::BlobList(s) => RequestHead::BlobList(s@),
            RequestIn::BlobInfo(s, id) => RequestHead::BlobInfo(s@, id@),
            RequestIn::BlobLoad(s, id) => RequestHead::BlobLoad(s@, id@),
            RequestIn::BlobSave(s, b) => RequestHead::BlobSave(s@, b.bytes_remain as nat),
            RequestIn::BlobDelete(s, id) => RequestHead::BlobDelete(s@, id@),
            RequestIn::Bye => RequestHead::Bye,
        }
    }
}

impl ResponseOut {
    /// The header that this response sends.
    pub open spec fn head(&self) -> ResponseHead {
        match self {
            ResponseOut::Status(s) => ResponseHead::Status(*s),
            ResponseOut::StoreList(ids) => ResponseHead::StoreList(ids.deep_view()),
            ResponseOut::BlobHash(id) => ResponseHead::BlobHash(id@),
            ResponseOut::BlobList(ids) => ResponseHead::BlobList(ids.deep_view()),
            ResponseOut::BlobInfo(n) => ResponseHead::BlobInfo(*n),
            ResponseOut::BlobLoad(b) => ResponseHead::BlobLoad(b@.len()),
            ResponseOut::BlobSave((s, id)) => ResponseHead::BlobSave(*s, id@),
        }
    }

    /// The blob contents that follow the header, if any.
    pub open spec fn body(&self) -> Seq<u8> {
        match self {
            ResponseOut::BlobLoad(b) => b@,
            _ => Seq::empty(),
        }
    }
}

impl View for ResponseIn {
    type V = ResponseHead;

    open spec fn view(&self) -> ResponseHead {
        match self {
            ResponseIn::Status(s) => ResponseHead::Status(*s),
            ResponseIn::StoreList(ids) => ResponseHead::StoreList(ids.deep_view()),
            ResponseIn::BlobHash(id) => ResponseHead::BlobHash(id@),
            ResponseIn::BlobList(ids) => ResponseHead::BlobList(ids.deep_view()),
            ResponseIn::BlobInfo(n) => ResponseHead::BlobInfo(*n),
            ResponseIn::BlobLoad(b) => ResponseHead::BlobLoad(b.bytes_remain as nat),
            ResponseIn::BlobSave((s, id)) => ResponseHead::BlobSave(*s, id@),
        }
    }
}

} // verus!
