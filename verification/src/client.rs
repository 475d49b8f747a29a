//! The client's reading of the responses it receives.
use vstd::prelude::*;
use crate::types::{BlobId, BlobIds, BlobSize, BlobStream, ResponseIn, SaveStatus, Status, StoreIds};

verus! {

impl ResponseIn {
    /// The result of an operation with no value: `Ok` for `Okay`, the
    /// status for any other, `InternalError` for a value.
    pub fn status_result(self) -> (r: Result<(), Status>)
        ensures
            match self {
                ResponseIn::Status(Status::Okay) => r is Ok,
                ResponseIn::Status(s) => r == Err::<(), Status>(s),
                _ => r == Err::<(), Status>(Status::InternalError),
            },
    {
        match self {
            ResponseIn::Status(status) => match status {
                Status::Okay => Ok(()),
                _ => Err(status),
            },
            _ => Err(Status::InternalError),
        }
    }

    /// The store names of a listing; the status of a failure;
    /// `InternalError` for another value.
    pub fn store_list_result(self) -> (r: Result<StoreIds, Status>)
        ensures
            match self {
                ResponseIn::StoreList(ids) => r matches Ok(v) && v.deep_view() == ids.deep_view(),
                ResponseIn::Status(s) => r == Err::<StoreIds, Status>(s),
                _ => r == Err::<StoreIds, Status>(Status::InternalError),
            },
    {
        match self {
            ResponseIn::StoreList(ids) => Ok(ids),
            ResponseIn::Status(status) => Err(status),
            _ => Err(Status::InternalError),
        }
    }

    /// The identity of a hashed blob; the status of a failure;
    /// `InternalError` for another value.
    pub fn blob_hash_result(self) -> (r: Result<BlobId, Status>)
        ensures
            match self {
                ResponseIn::BlobHash(id) => r == Ok::<BlobId, Status>(id),
                ResponseIn::Status(s) => r == Err::<BlobId, Status>(s),
                _ => r == Err::<BlobId, Status>(Status::InternalError),
            },
    {
        match self {
            ResponseIn::BlobHash(id) => Ok(id),
            ResponseIn::Status(status) => Err(status),
            _ => Err(Status::InternalError),
        }
    }

    /// The identities of a store's blobs; the status of a failure;
    /// `InternalError` for another value.
    pub fn blob_list_result(self) -> (r: Result<BlobIds, Status>)
        ensures
            match self {
                ResponseIn::BlobList(ids) => r matches Ok(v) && v.deep_view() == ids.deep_view(),
                ResponseIn::Status(s) => r == Err::<BlobIds, Status>(s),
                _ => r == Err::<BlobIds, Status>(Status::InternalError),
            },
    {
        match self {
            ResponseIn::BlobList(ids) => Ok(ids),
            ResponseIn::Status(status) => Err(status),
            _ => Err(Status::InternalError),
        }
    }

    /// The size of a blob; the status of a failure; `InternalError` for
    /// another value.
    pub fn blob_info_result(self) -> (r: Result<BlobSize, Status>)
        ensures
            match self {
                ResponseIn::BlobInfo(n) => r == Ok::<BlobSize, Status>(n),
                ResponseIn::Status(s) => r == Err::<BlobSize, Status>(s),
                _ => r == Err::<BlobSize, Status>(Status::InternalError),
            },
    {
        match self {
            ResponseIn::BlobInfo(n) => Ok(n),
            ResponseIn::Status(status) => Err(status),
            _ => Err(Status::InternalError),
        }
    }

    /// A loaded blob, whose contents follow in the stream; the status of a
    /// failure; `InternalError` for another value.
    pub fn blob_load_result(self) -> (r: Result<BlobStream, Status>)
        ensures
            match self {
                ResponseIn::BlobLoad(b) => r == Ok::<BlobStream, Status>(b),
                ResponseIn::Status(s) => r == Err::<BlobStream, Status>(s),
                _ => r == Err::<BlobStream, Status>(Status::InternalError),
            },
    {
        match self {
            ResponseIn::BlobLoad(b) => Ok(b),
            ResponseIn::Status(status) => Err(status),
            _ => Err(Status::InternalError),
        }
    }

    /// How a blob was saved, and its identity; the status of a failure;
    /// `InternalError` for another value.
    pub fn blob_save_result(self) -> (r: Result<(SaveStatus, BlobId), Status>)
        ensures
            match self {
                ResponseIn::BlobSave(v) => r == Ok::<(SaveStatus, BlobId), Status>(v),
                ResponseIn::Status(s) => r == Err::<(SaveStatus, BlobId), Status>(s),
                _ => r == Err::<(SaveStatus, BlobId), Status>(Status::InternalError),
            },
    {
        match self {
            ResponseIn::BlobSave(v) => Ok(v),
            ResponseIn::Status(status) => Err(status),
            _ => Err(Status::InternalError),
        }
    }
}

} // verus!
