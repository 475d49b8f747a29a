//! The server's decisions: how a session opens, and how what the store did
//! with a request is answered.
use vstd::prelude::*;
use crate::types::{
    BlobId, BlobIds, BlobSize, ResponseHead, ResponseOut, SaveStatus, Status, StoreIds,
};
use crate::wire::RecvError;
use crate::frames::{RequestCode, answers, parse_open_door, welcome_bytes, not_welcome_bytes};
use crate::send_recv::{recv_open_door, send_not_welcome, send_welcome};

verus! {

/// What the store did with a request, as the server reports it.
pub enum Outcome {
    /// An operation with no value: store creation and destruction, and blob
    /// deletion.
    Done(Result<(), Status>),
    StoreList(Result<StoreIds, Status>),
    BlobHash(Result<BlobId, Status>),
    BlobList(Result<BlobIds, Status>),
    BlobInfo(Result<BlobSize, Status>),
    BlobLoad(Result<Vec<u8>, Status>),
    BlobSave(Result<(SaveStatus, BlobId), Status>),
}

/// The header of the response that reports an outcome: the value of a
/// success, or the status of a failure.
pub open spec fn outcome_head(o: &Outcome) -> ResponseHead {
    match o {
        Outcome::Done(Ok(())) => ResponseHead::Status(Status::Okay),
        Outcome::Done(Err(s)) => ResponseHead::Status(*s),
        Outcome::StoreList(Ok(ids)) => ResponseHead::StoreList(ids.deep_view()),
        Outcome::StoreList(Err(s)) => ResponseHead::Status(*s),
        Outcome::BlobHash(Ok(id)) => ResponseHead::BlobHash(id@),
        Outcome::BlobHash(Err(s)) => ResponseHead::Status(*s),
        Outcome::BlobList(Ok(ids)) => ResponseHead::BlobList(ids.deep_view()),
        Outcome::BlobList(Err(s)) => ResponseHead::Status(*s),
        Outcome::BlobInfo(Ok(n)) => ResponseHead::BlobInfo(*n),
        Outcome::BlobInfo(Err(s)) => ResponseHead::Status(*s),
        Outcome::BlobLoad(Ok(b)) => ResponseHead::BlobLoad(b@.len()),
        Outcome::BlobLoad(Err(s)) => ResponseHead::Status(*s),
        Outcome::BlobSave(Ok((ss, id))) => ResponseHead::BlobSave(*ss, id@),
        Outcome::BlobSave(Err(s)) => ResponseHead::Status(*s),
    }
}

/// The contents that follow the header of the response that reports an
/// outcome: those of a loaded blob.
pub open spec fn outcome_body(o: &Outcome) -> Seq<u8> {
    match o {
        Outcome::BlobLoad(Ok(b)) => b@,
        _ => Seq::empty(),
    }
}

/// The response to an operation with no value: `Okay`, or the failure.
pub fn status_resp(result: Result<(), Status>) -> (resp: ResponseOut)
    ensures
        resp.head() == ResponseHead::Status(
            match result {
                Ok(()) => Status::Okay,
                Err(s) => s,
            },
        ),
{
    ResponseOut::Status(
        match result {
            Ok(()) => Status::Okay,
            Err(status) => status,
        },
    )
}

/// The response that reports an outcome.
pub fn respond(outcome: Outcome) -> (resp: ResponseOut)
    ensures
        resp.head() == outcome_head(&outcome),
        resp.body() == outcome_body(&outcome),
        reports_outcome(&outcome, &resp),
{
    match outcome {
        Outcome::Done(result) => status_resp(result),
        Outcome::StoreList(Ok(ids)) => ResponseOut::StoreList(ids),
        Outcome::BlobHash(Ok(id)) => ResponseOut::BlobHash(id),
        Outcome::BlobList(Ok(ids)) => ResponseOut::BlobList(ids),
        Outcome::BlobInfo(Ok(n)) => ResponseOut::BlobInfo(n),
        Outcome::BlobLoad(Ok(b)) => ResponseOut::BlobLoad(b),
        Outcome::BlobSave(Ok(v)) => ResponseOut::BlobSave(v),
        Outcome::StoreList(Err(s)) | Outcome::BlobHash(Err(s)) | Outcome::BlobList(Err(s))
        | Outcome::BlobInfo(Err(s)) | Outcome::BlobLoad(Err(s)) | Outcome::BlobSave(Err(s)) => {
            ResponseOut::Status(s)
        },
    }
}

/// A response reports an outcome: an operation with no value that
/// succeeded is answered `Okay`; a success with a value is answered with
/// that very value (every listed name and identity, in the order listed);
/// a failure is answered with its own status.
pub open spec fn reports_outcome(o: &Outcome, resp: &ResponseOut) -> bool {
    &&& o matches Outcome::Done(Ok(())) ==> resp matches ResponseOut::Status(st) && st
        == Status::Okay
    &&& o matches Outcome::StoreList(Ok(ids)) ==> resp matches ResponseOut::StoreList(names)
        && names@.len() == ids@.len() && forall|i: int|
        0 <= i < ids@.len() ==> #[trigger] names@[i]@ == ids@[i]@
    &&& o matches Outcome::BlobHash(Ok(id)) ==> resp matches ResponseOut::BlobHash(h) && h@
        == id@
    &&& o matches Outcome::BlobList(Ok(ids)) ==> resp matches ResponseOut::BlobList(hs)
        && hs@.len() == ids@.len() && forall|i: int|
        0 <= i < ids@.len() ==> #[trigger] hs@[i]@ == ids@[i]@
    &&& o matches Outcome::BlobInfo(Ok(n)) ==> resp matches ResponseOut::BlobInfo(m) && m == n
    &&& o matches Outcome::BlobLoad(Ok(b)) ==> resp matches ResponseOut::BlobLoad(c) && c@
        == b@
    &&& o matches Outcome::BlobSave(Ok((ss, id))) ==> resp matches ResponseOut::BlobSave(v)
        && v.0 == ss && v.1@ == id@
    &&& failed_with(o) matches Some(s) ==> resp matches ResponseOut::Status(st) && st == s
}

/// The status with which an operation failed, if it did.
pub open spec fn failed_with(o: &Outcome) -> Option<Status> {
    match o {
        Outcome::Done(Err(s)) => Some(*s),
        Outcome::StoreList(Err(s)) => Some(*s),
        Outcome::BlobHash(Err(s)) => Some(*s),
        Outcome::BlobList(Err(s)) => Some(*s),
        Outcome::BlobInfo(Err(s)) => Some(*s),
        Outcome::BlobLoad(Err(s)) => Some(*s),
        Outcome::BlobSave(Err(s)) => Some(*s),
        _ => None,
    }
}

/// An outcome reports on a request of kind `c`: it is of the form that such
/// a request has, and a failure is not reported with a success status.
pub open spec fn reports_on(o: &Outcome, c: RequestCode) -> bool {
    match o {
        Outcome::Done(_) => c == RequestCode::StoreCreate || c == RequestCode::StoreDestroy || c
            == RequestCode::BlobDelete,
        Outcome::StoreList(r) => c == RequestCode::StoreList && r != Err::<StoreIds, Status>(
            Status::Okay,
        ),
        Outcome::BlobHash(r) => c == RequestCode::BlobHash && r != Err::<BlobId, Status>(
            Status::Okay,
        ),
        Outcome::BlobList(r) => c == RequestCode::BlobList && r != Err::<BlobIds, Status>(
            Status::Okay,
        ),
        Outcome::BlobInfo(r) => c == RequestCode::BlobInfo && r != Err::<BlobSize, Status>(
            Status::Okay,
        ),
        Outcome::BlobLoad(r) => c == RequestCode::BlobLoad && r != Err::<Vec<u8>, Status>(
            Status::Okay,
        ),
        Outcome::BlobSave(r) => c == RequestCode::BlobSave && r != Err::<
            (SaveStatus, BlobId),
            Status,
        >(Status::Okay) && r != Err::<(SaveStatus, BlobId), Status>(Status::Exists),
    }
}

/// The server's response to a request answers it, so that the client that
/// made the request reads it back: a failure is never taken for a value.
pub proof fn lemma_respond_answers(o: &Outcome, c: RequestCode)
    requires
        reports_on(o, c),
    ensures
        answers(outcome_head(o), c),
{
}

/// The header that reports an outcome says what happened: `Okay` for an
/// operation with no value that succeeded, every listed name and identity
/// of a listing in its order, the value of any other success, and the
/// failure's own status for a failure.
pub proof fn lemma_outcome_head_reports(o: &Outcome)
    ensures
        o matches Outcome::Done(Ok(())) ==> outcome_head(o) == ResponseHead::Status(Status::Okay),
        o matches Outcome::StoreList(Ok(ids)) ==> outcome_head(o) matches ResponseHead::StoreList(
            names,
        ) && names.len() == ids@.len() && forall|i: int|
            0 <= i < ids@.len() ==> #[trigger] names[i] == ids@[i]@,
        o matches Outcome::BlobList(Ok(ids)) ==> outcome_head(o) matches ResponseHead::BlobList(hs)
            && hs.len() == ids@.len() && forall|i: int|
            0 <= i < ids@.len() ==> #[trigger] hs[i] == ids@[i]@,
        o matches Outcome::BlobHash(Ok(id)) ==> outcome_head(o) == ResponseHead::BlobHash(id@),
        o matches Outcome::BlobInfo(Ok(n)) ==> outcome_head(o) == ResponseHead::BlobInfo(*n),
        o matches Outcome::BlobLoad(Ok(b)) ==> outcome_head(o) == ResponseHead::BlobLoad(b@.len()),
        o matches Outcome::BlobSave(Ok((ss, id))) ==> outcome_head(o) == ResponseHead::BlobSave(
            *ss,
            id@,
        ),
        failed_with(o) matches Some(s) ==> outcome_head(o) == ResponseHead::Status(s),
{
}

/// How the server opens a session with the bytes that a client sent: when
/// they hold this library's greeting, the server writes its welcome and the
/// session goes on after the greeting; when they hold another code or
/// version, it writes its refusal and the session ends with `BadArgument`;
/// otherwise it writes nothing.
pub fn shake_hands(input: &[u8], out: &mut Vec<u8>) -> (r: Result<usize, RecvError>)
    ensures
        match parse_open_door(input@) {
            Ok((n, ())) => r == Ok::<usize, RecvError>(n as usize) && final(out)@ == old(out)@
                + welcome_bytes(),
            Err(RecvError::Failed(Status::BadArgument)) => r == Err::<usize, RecvError>(
                RecvError::Failed(Status::BadArgument),
            ) && final(out)@ == old(out)@ + not_welcome_bytes(),
            Err(e) => r == Err::<usize, RecvError>(e) && final(out)@ == old(out)@,
        },
{
    match recv_open_door(input) {
        Ok(n) => {
            let _ = send_welcome(out);
            Ok(n)
        },
        Err(error) => {
            if error == RecvError::Failed(Status::BadArgument) {
                let _ = send_not_welcome(out);
            }
            Err(error)
        },
    }
}

} // verus!
