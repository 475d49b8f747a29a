//! The store's rules on disk: how its failures are reported, how a save is
//! answered, and how the names of blob files are read back.
use vstd::prelude::*;
use crate::types::{BlobId, BlobIds, SaveStatus, Status};
use crate::funcs::{hex_text, parse_hash_text, str_to_hash, lemma_hash_text_roundtrip};

verus! {

/// The kinds of file-system failure that the store tells apart.
#[derive(Debug, Copy, Clone, PartialEq, Eq, Structural)]
pub enum IoErrorKind {
    NotFound,
    AlreadyExists,
    Other,
}

/// The status of a failure to open or to link a blob's file: a missing
/// file is `NotFound`, an existing one `Exists`, anything else
/// `InternalError`.
pub fn error_to_status(kind: IoErrorKind) -> (s: Status)
    ensures
        s == match kind {
            IoErrorKind::NotFound => Status::NotFound,
            IoErrorKind::AlreadyExists => Status::Exists,
            IoErrorKind::Other => Status::InternalError,
        },
{
    match kind {
        IoErrorKind::NotFound => Status::NotFound,
        IoErrorKind::AlreadyExists => Status::Exists,
        IoErrorKind::Other => Status::InternalError,
    }
}

/// The status of a failure to create a store: an existing one is
/// `Exists`, anything else `InternalError`.
pub fn create_error_status(kind: IoErrorKind) -> (s: Status)
    ensures
        s == if kind == IoErrorKind::AlreadyExists {
            Status::Exists
        } else {
            Status::InternalError
        },
{
    match kind {
        IoErrorKind::AlreadyExists => Status::Exists,
        _ => Status::InternalError,
    }
}

/// The status of a failure to remove or list what should be there: a
/// missing store or blob is `NotFound`, anything else `InternalError`.
pub fn remove_error_status(kind: IoErrorKind) -> (s: Status)
    ensures
        s == if kind == IoErrorKind::NotFound {
            Status::NotFound
        } else {
            Status::InternalError
        },
{
    match kind {
        IoErrorKind::NotFound => Status::NotFound,
        _ => Status::InternalError,
    }
}

/// The answer to a save, from the result of linking the blob's file under
/// its name: a new link creates the blob, an existing file means that the
/// blob was already there, any other failure is reported.
pub fn save_result(link: Result<(), Status>, blob_id: BlobId) -> (r: Result<
    (SaveStatus, BlobId),
    Status,
>)
    ensures
        match link {
            Ok(()) => r == Ok::<(SaveStatus, BlobId), Status>((SaveStatus::Created, blob_id)),
            Err(Status::Exists) => r == Ok::<(SaveStatus, BlobId), Status>(
                (SaveStatus::Exists, blob_id),
            ),
            Err(s) => r == Err::<(SaveStatus, BlobId), Status>(s),
        },
{
    match link {
        Ok(()) => Ok((SaveStatus::Created, blob_id)),
        Err(Status::Exists) => Ok((SaveStatus::Exists, blob_id)),
        Err(status) => Err(status),
    }
}

/// The file names of a store's directory all name blobs.
pub open spec fn all_named(names: Seq<Seq<u8>>) -> bool {
    forall|i: int| 0 <= i < names.len() ==> (#[trigger] parse_hash_text(names[i])) is Some
}

/// The blob identities that a store's file names stand for, in order.
pub open spec fn named_ids(names: Seq<Seq<u8>>) -> Seq<Seq<u8>> {
    Seq::new(names.len(), |i: int| parse_hash_text(names[i]).unwrap())
}

/// The identities of the blobs in a store, from the names of its files;
/// `InternalError` when a name does not name a blob.
pub fn blob_ids_from_names(names: &Vec<Vec<u8>>) -> (r: Result<BlobIds, Status>)
    ensures
        match r {
            Ok(ids) => all_named(names.deep_view()) && ids.deep_view() == named_ids(
                names.deep_view(),
            ),
            Err(s) => !all_named(names.deep_view()) && s == Status::InternalError,
        },
{
    let ghost view = names.deep_view();
    let mut ids: BlobIds = Vec::new();
    let mut i: usize = 0;
    while i < names.len()
        invariant
            i <= names@.len(),
            view == names.deep_view(),
            view.len() == names@.len(),
            forall|j: int| 0 <= j < i ==> (#[trigger] parse_hash_text(view[j])) is Some,
            ids.deep_view() =~= named_ids(view).take(i as int),
        decreases names@.len() - i,
    {
        assert(view[i as int] =~= names@[i as int]@);
        match str_to_hash(names[i].as_slice()) {
            Ok(id) => {
                let ghost before = ids.deep_view();
                ids.push(id);
                assert(ids.deep_view() =~= before.push(id@));
                assert(named_ids(view).take(i + 1) =~= named_ids(view).take(i as int).push(id@));
            },
            Err(status) => {
                assert(parse_hash_text(view[i as int]) is None);
                return Err(status);
            },
        }
        i = i + 1;
    }
    assert(named_ids(view).take(i as int) =~= named_ids(view));
    Ok(ids)
}

/// A store whose blobs are filed under the texts of their identities lists
/// exactly those identities.
pub proof fn lemma_listing_reads_back(ids: Seq<Seq<u8>>)
    requires
        forall|i: int| 0 <= i < ids.len() ==> (#[trigger] ids[i]).len() == 32,
    ensures
        all_named(ids.map_values(|id: Seq<u8>| hex_text(id))),
        named_ids(ids.map_values(|id: Seq<u8>| hex_text(id))) == ids,
{
    let names = ids.map_values(|id: Seq<u8>| hex_text(id));
    assert forall|i: int| 0 <= i < names.len() implies #[trigger] parse_hash_text(names[i])
        == Some(ids[i]) by {
        lemma_hash_text_roundtrip(ids[i]);
    }
    assert(named_ids(names) =~= ids);
}

} // verus!
