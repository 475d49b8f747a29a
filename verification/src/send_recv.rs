//! Writing and reading the frames of the native protocol.
use vstd::prelude::*;
use vstd::utf8::*;
use vstd::string::*;
use crate::types::{
    BlobId, BlobIds, BlobStream, RequestHead, RequestIn, RequestOut, ResponseHead, ResponseIn,
    ResponseOut, SaveStatus, Status, StoreId, StoreIds, save_status_code, status_code,
};
use crate::wire::{
    Parsed, RecvError, parse_u16, parse_u32, parse_u64, push_bytes, push_u16, push_u32, push_u64,
    read_u16, read_u32, read_u64, refused_after, u16_bytes, u32_bytes, u64_bytes, u64_value,
};
use crate::frames::{
    CODE_OPEN_DOOR, GreetCode, PROTO_VERSION, RequestCode, answers, greet_code, head_kind, ids_bytes,
    name_bytes, name_fits, names_bytes, names_fit, not_welcome_bytes, open_door_bytes,
    parse_blob_id, parse_blob_ids, parse_blob_size, parse_greet_code, parse_name, parse_name_id,
    parse_name_size, parse_names, parse_open_door, parse_request_code, parse_request_fields,
    parse_request_head, parse_response_fields, parse_response_head, parse_save_status,
    parse_status, parse_store_ids, parse_welcome, request_code, request_head_bytes,
    request_refused_at, response_head_bytes, split_ids, welcome_bytes, welcome_refused_at,
};
use crate::frame_laws::{
    lemma_open_door_refusal, lemma_request_refusal, lemma_welcome_refusal, lemma_request_roundtrip, lemma_response_roundtrip, request_sizes_fit, response_sizes_fit,
};

verus! {

/// Appending the bytes of two lists of names gives the bytes of the
/// joined list.
pub proof fn lemma_names_bytes_append(a: Seq<Seq<char>>, b: Seq<Seq<char>>)
    ensures
        names_bytes(a + b) == names_bytes(a) + names_bytes(b),
    decreases a.len(),
{
    if a.len() == 0 {
        assert(a + b =~= b);
    } else {
        assert((a + b).drop_first() =~= a.drop_first() + b);
        lemma_names_bytes_append(a.drop_first(), b);
    }
}

/// Appending the bytes of two lists of identities gives the bytes of the
/// joined list.
pub proof fn lemma_ids_bytes_append(a: Seq<Seq<u8>>, b: Seq<Seq<u8>>)
    ensures
        ids_bytes(a + b) == ids_bytes(a) + ids_bytes(b),
    decreases a.len(),
{
    if a.len() == 0 {
        assert(a + b =~= b);
    } else {
        assert((a + b).drop_first() =~= a.drop_first() + b);
        lemma_ids_bytes_append(a.drop_first(), b);
    }
}

proof fn lemma_names_bytes_one(s: Seq<char>)
    ensures
        names_bytes(seq![s]) == name_bytes(s),
{
    assert(seq![s].drop_first() =~= Seq::<Seq<char>>::empty());
    assert(names_bytes(Seq::<Seq<char>>::empty()) == Seq::<u8>::empty());
    assert(name_bytes(s) + Seq::<u8>::empty() =~= name_bytes(s));
}

proof fn lemma_ids_bytes_one(id: Seq<u8>)
    ensures
        ids_bytes(seq![id]) == id,
{
    assert(seq![id].drop_first() =~= Seq::<Seq<u8>>::empty());
    assert(ids_bytes(Seq::<Seq<u8>>::empty()) == Seq::<u8>::empty());
    assert(id + Seq::<u8>::empty() =~= id);
}

/// How many names, from the first, fit the frame before one does not.
pub open spec fn fitting_count(ss: Seq<Seq<char>>) -> nat
    decreases ss.len(),
{
    if ss.len() == 0 || !name_fits(ss[0]) {
        0
    } else {
        1 + fitting_count(ss.drop_first())
    }
}

/// When the first `i` names fit and the next does not, `i` of them fit.
proof fn lemma_fitting_count(ss: Seq<Seq<char>>, i: int)
    requires
        0 <= i < ss.len(),
        names_fit(ss.take(i)),
        !name_fits(ss[i]),
    ensures
        fitting_count(ss) == i,
    decreases i,
{
    if i > 0 {
        assert(ss.take(i)[0] == ss[0]);
        let t = ss.drop_first();
        assert(names_fit(t.take(i - 1))) by {
            assert forall|j: int| 0 <= j < i - 1 implies name_fits(#[trigger] t.take(i - 1)[j]) by {
                assert(t.take(i - 1)[j] == ss.take(i)[j + 1]);
            }
        }
        lemma_fitting_count(t, i - 1);
    }
}

/// A value that has a frame of its own, written at the end of a buffer.
pub trait Send {
    /// The bytes of this value's frame, or `None` when it cannot be framed.
    spec fn wire_bytes(&self) -> Option<Seq<u8>>;

    /// The bytes written before the writer finds that this value cannot be
    /// framed.
    spec fn failed_bytes(&self) -> Seq<u8>;

    /// Appends this value's frame to `out`. When the value cannot be framed,
    /// fails with `InternalError` once it has appended what precedes the
    /// part that cannot be written.
    fn send(&self, out: &mut Vec<u8>) -> (r: Result<(), Status>)
        ensures
            match self.wire_bytes() {
                Some(b) => r is Ok && final(out)@ == old(out)@ + b,
                None => r == Err::<(), Status>(Status::InternalError) && final(out)@ == old(
                    out,
                )@ + self.failed_bytes(),
            },
    ;
}

impl Send for u16 {
    open spec fn failed_bytes(&self) -> Seq<u8> {
        Seq::empty()
    }

    open spec fn wire_bytes(&self) -> Option<Seq<u8>> {
        Some(u16_bytes(*self))
    }

    fn send(&self, out: &mut Vec<u8>) -> (r: Result<(), Status>) {
        push_u16(out, *self);
        Ok(())
    }
}

impl Send for u32 {
    open spec fn failed_bytes(&self) -> Seq<u8> {
        Seq::empty()
    }

    open spec fn wire_bytes(&self) -> Option<Seq<u8>> {
        Some(u32_bytes(*self))
    }

    fn send(&self, out: &mut Vec<u8>) -> (r: Result<(), Status>) {
        push_u32(out, *self);
        Ok(())
    }
}

impl Send for u64 {
    open spec fn failed_bytes(&self) -> Seq<u8> {
        Seq::empty()
    }

    open spec fn wire_bytes(&self) -> Option<Seq<u8>> {
        Some(u64_bytes(*self))
    }

    fn send(&self, out: &mut Vec<u8>) -> (r: Result<(), Status>) {
        push_u64(out, *self);
        Ok(())
    }
}

impl Send for Status {
    open spec fn failed_bytes(&self) -> Seq<u8> {
        Seq::empty()
    }

    open spec fn wire_bytes(&self) -> Option<Seq<u8>> {
        Some(u64_bytes(status_code(*self)))
    }

    fn send(&self, out: &mut Vec<u8>) -> (r: Result<(), Status>) {
        push_u64(out, self.code());
        Ok(())
    }
}

impl Send for SaveStatus {
    open spec fn failed_bytes(&self) -> Seq<u8> {
        Seq::empty()
    }

    open spec fn wire_bytes(&self) -> Option<Seq<u8>> {
        Some(u64_bytes(save_status_code(*self)))
    }

    fn send(&self, out: &mut Vec<u8>) -> (r: Result<(), Status>) {
        push_u64(out, self.code());
        Ok(())
    }
}

impl Send for GreetCode {
    open spec fn failed_bytes(&self) -> Seq<u8> {
        Seq::empty()
    }

    open spec fn wire_bytes(&self) -> Option<Seq<u8>> {
        Some(u64_bytes(greet_code(*self)))
    }

    fn send(&self, out: &mut Vec<u8>) -> (r: Result<(), Status>) {
        push_u64(out, self.code());
        Ok(())
    }
}

impl Send for RequestCode {
    open spec fn failed_bytes(&self) -> Seq<u8> {
        Seq::empty()
    }

    open spec fn wire_bytes(&self) -> Option<Seq<u8>> {
        Some(u64_bytes(request_code(*self)))
    }

    fn send(&self, out: &mut Vec<u8>) -> (r: Result<(), Status>) {
        push_u64(out, self.code());
        Ok(())
    }
}

impl<'a> Send for &'a str {
    open spec fn failed_bytes(&self) -> Seq<u8> {
        Seq::empty()
    }

    open spec fn wire_bytes(&self) -> Option<Seq<u8>> {
        if name_fits((*self)@) {
            Some(name_bytes((*self)@))
        } else {
            None
        }
    }

    fn send(&self, out: &mut Vec<u8>) -> (r: Result<(), Status>) {
        let buffer = self.as_bytes();
        if buffer.len() > 0xffff {
            return Err(Status::InternalError);
        }
        push_u16(out, buffer.len() as u16);
        push_bytes(out, buffer);
        Ok(())
    }
}

impl Send for StoreIds {
    open spec fn wire_bytes(&self) -> Option<Seq<u8>> {
        if names_fit(self.deep_view()) && self@.len() <= u64::MAX {
            Some(u64_bytes(self@.len() as u64) + names_bytes(self.deep_view()))
        } else {
            None
        }
    }

    /// The count and the names before the first one that does not fit.
    open spec fn failed_bytes(&self) -> Seq<u8> {
        if self@.len() <= u64::MAX {
            u64_bytes(self@.len() as u64) + names_bytes(
                self.deep_view().take(fitting_count(self.deep_view()) as int),
            )
        } else {
            Seq::empty()
        }
    }

    fn send(&self, out: &mut Vec<u8>) -> (r: Result<(), Status>) {
        let ghost names = self.deep_view();
        if self.len() as u64 > u64::MAX {
            return Err(Status::InternalError);
        }
        push_u64(out, self.len() as u64);
        let mut i: usize = 0;
        while i < self.len()
            invariant
                i <= self@.len(),
                names == self.deep_view(),
                names.len() == self@.len(),
                self@.len() <= u64::MAX,
                names_fit(names.take(i as int)),
                out@ == old(out)@ + u64_bytes(self@.len() as u64) + names_bytes(
                    names.take(i as int),
                ),
            decreases self@.len() - i,
        {
            let name: &str = self[i].as_str();
            let r = name.send(out);
            if r.is_err() {
                proof {
                    lemma_fitting_count(names, i as int);
                    assert(!names_fit(names));
                }
                return Err(Status::InternalError);
            }
            proof {
                assert(names.take(i + 1) =~= names.take(i as int) + seq![names[i as int]]);
                lemma_names_bytes_append(names.take(i as int), seq![names[i as int]]);
                lemma_names_bytes_one(names[i as int]);
                assert forall|j: int| 0 <= j < i + 1 implies name_fits(
                    #[trigger] names.take(i + 1)[j],
                ) by {
                    if j < i {
                        assert(names.take(i + 1)[j] == names.take(i as int)[j]);
                    }
                }
            }
            i = i + 1;
        }
        assert(names.take(i as int) =~= names);
        Ok(())
    }
}

impl Send for BlobId {
    open spec fn failed_bytes(&self) -> Seq<u8> {
        Seq::empty()
    }

    open spec fn wire_bytes(&self) -> Option<Seq<u8>> {
        Some(self@)
    }

    fn send(&self, out: &mut Vec<u8>) -> (r: Result<(), Status>) {
        push_bytes(out, self.0.as_slice());
        Ok(())
    }
}

impl Send for BlobIds {
    open spec fn failed_bytes(&self) -> Seq<u8> {
        Seq::empty()
    }

    open spec fn wire_bytes(&self) -> Option<Seq<u8>> {
        if self@.len() <= u64::MAX {
            Some(u64_bytes(self@.len() as u64) + ids_bytes(self.deep_view()))
        } else {
            None
        }
    }

    fn send(&self, out: &mut Vec<u8>) -> (r: Result<(), Status>) {
        let ghost ids = self.deep_view();
        if self.len() as u64 > u64::MAX {
            return Err(Status::InternalError);
        }
        let mut frame: Vec<u8> = Vec::new();
        push_u64(&mut frame, self.len() as u64);
        let mut i: usize = 0;
        while i < self.len()
            invariant
                i <= self@.len(),
                ids == self.deep_view(),
                ids.len() == self@.len(),
                frame@ == u64_bytes(self@.len() as u64) + ids_bytes(ids.take(i as int)),
            decreases self@.len() - i,
        {
            push_bytes(&mut frame, self[i].0.as_slice());
            proof {
                assert(ids.take(i + 1) =~= ids.take(i as int) + seq![ids[i as int]]);
                lemma_ids_bytes_append(ids.take(i as int), seq![ids[i as int]]);
                lemma_ids_bytes_one(ids[i as int]);
            }
            i = i + 1;
        }
        assert(ids.take(i as int) =~= ids);
        out.append(&mut frame);
        Ok(())
    }
}

impl<'a> Send for &'a [u8] {
    open spec fn failed_bytes(&self) -> Seq<u8> {
        Seq::empty()
    }

    open spec fn wire_bytes(&self) -> Option<Seq<u8>> {
        if (*self)@.len() <= u64::MAX {
            Some(u64_bytes((*self)@.len() as u64) + (*self)@)
        } else {
            None
        }
    }

    fn send(&self, out: &mut Vec<u8>) -> (r: Result<(), Status>) {
        if self.len() as u64 > u64::MAX {
            return Err(Status::InternalError);
        }
        push_u64(out, self.len() as u64);
        push_bytes(out, self);
        Ok(())
    }
}


impl<'a> Send for RequestOut<'a> {
    open spec fn wire_bytes(&self) -> Option<Seq<u8>> {
        match request_head_bytes(self.head()) {
            Some(h) => Some(h + self.body()),
            None => None,
        }
    }

    /// The request's code, and the store name when it fits.
    open spec fn failed_bytes(&self) -> Seq<u8> {
        let code = u64_bytes(request_code(self.spec_kind()));
        match *self {
            RequestOut::BlobSave(s, _) | RequestOut::BlobInfo(s, _) | RequestOut::BlobLoad(s, _)
            | RequestOut::BlobDelete(s, _) => if name_fits(s@) {
                code + name_bytes(s@)
            } else {
                code
            },
            _ => code,
        }
    }

    fn send(&self, out: &mut Vec<u8>) -> (r: Result<(), Status>) {
        reveal(request_head_bytes);
        let ghost start = out@;
        let _ = self.kind().send(out);
        let r = match self {
            RequestOut::StoreList() => Ok(()),
            RequestOut::Bye => Ok(()),
            RequestOut::StoreCreate(store_id) => store_id.send(out),
            RequestOut::StoreDestroy(store_id) => store_id.send(out),
            RequestOut::BlobList(store_id) => store_id.send(out),
            RequestOut::BlobHash(blob) => blob.send(out),
            RequestOut::BlobSave(store_id, blob) => match store_id.send(out) {
                Ok(()) => blob.send(out),
                Err(e) => Err(e),
            },
            RequestOut::BlobInfo(store_id, blob_id) => match store_id.send(out) {
                Ok(()) => blob_id.send(out),
                Err(e) => Err(e),
            },
            RequestOut::BlobLoad(store_id, blob_id) => match store_id.send(out) {
                Ok(()) => blob_id.send(out),
                Err(e) => Err(e),
            },
            RequestOut::BlobDelete(store_id, blob_id) => match store_id.send(out) {
                Ok(()) => blob_id.send(out),
                Err(e) => Err(e),
            },
        };
        match r {
            Ok(()) => {
                assert(out@ =~= start + self.wire_bytes().unwrap());
                Ok(())
            },
            Err(_) => {
                assert(out@ =~= start + self.failed_bytes());
                Err(Status::InternalError)
            },
        }
    }
}

impl Send for ResponseOut {
    open spec fn wire_bytes(&self) -> Option<Seq<u8>> {
        match response_head_bytes(self.head()) {
            Some(h) => Some(h + self.body()),
            None => None,
        }
    }

    /// The success status, then what the listing wrote before a name that
    /// does not fit.
    open spec fn failed_bytes(&self) -> Seq<u8> {
        match self {
            ResponseOut::StoreList(ids) => u64_bytes(status_code(Status::Okay)) + ids.failed_bytes(),
            _ => Seq::empty(),
        }
    }

    fn send(&self, out: &mut Vec<u8>) -> (r: Result<(), Status>) {
        reveal(response_head_bytes);
        let ghost start = out@;
        match self {
            ResponseOut::StoreList(store_ids) => {
                let _ = Status::Okay.send(out);
                let r = store_ids.send(out);
                match r {
                    Ok(()) => {
                        assert(out@ =~= start + self.wire_bytes().unwrap());
                        Ok(())
                    },
                    Err(_) => {
                        assert(out@ =~= start + self.failed_bytes());
                        Err(Status::InternalError)
                    },
                }
            },
            _ => {
                let mut frame: Vec<u8> = Vec::new();
                let r = match self {
                    ResponseOut::Status(status) => status.send(&mut frame),
                    ResponseOut::BlobHash(blob_id) => {
                        let _ = Status::Okay.send(&mut frame);
                        blob_id.send(&mut frame)
                    },
                    ResponseOut::BlobList(blob_ids) => {
                        let _ = Status::Okay.send(&mut frame);
                        blob_ids.send(&mut frame)
                    },
                    ResponseOut::BlobInfo(blob_size) => {
                        let _ = Status::Okay.send(&mut frame);
                        blob_size.send(&mut frame)
                    },
                    ResponseOut::BlobLoad(blob) => {
                        let _ = Status::Okay.send(&mut frame);
                        blob.as_slice().send(&mut frame)
                    },
                    ResponseOut::BlobSave((status, blob_id)) => {
                        let _ = status.send(&mut frame);
                        blob_id.send(&mut frame)
                    },
                    ResponseOut::StoreList(_) => Err(Status::InternalError),
                };
                match r {
                    Ok(()) => {
                        assert(frame@ =~= self.wire_bytes().unwrap());
                        out.append(&mut frame);
                        Ok(())
                    },
                    Err(_) => Err(Status::InternalError),
                }
            },
        }
    }
}

/// Writes the greeting with which a client opens a session.
pub fn send_open_door(out: &mut Vec<u8>) -> (r: Result<(), Status>)
    ensures
        r is Ok,
        final(out)@ == old(out)@ + open_door_bytes(),
{
    let _ = CODE_OPEN_DOOR.send(out);
    let _ = PROTO_VERSION.send(out);
    assert(final(out)@ =~= old(out)@ + open_door_bytes());
    Ok(())
}

/// Writes the server's welcome.
pub fn send_welcome(out: &mut Vec<u8>) -> (r: Result<(), Status>)
    ensures
        r is Ok,
        final(out)@ == old(out)@ + welcome_bytes(),
{
    GreetCode::Welcome.send(out)
}

/// Writes the server's refusal, with the version that it speaks.
pub fn send_not_welcome(out: &mut Vec<u8>) -> (r: Result<(), Status>)
    ensures
        r is Ok,
        final(out)@ == old(out)@ + not_welcome_bytes(),
{
    let _ = GreetCode::NotWelcome.send(out);
    let _ = PROTO_VERSION.send(out);
    assert(final(out)@ =~= old(out)@ + not_welcome_bytes());
    Ok(())
}


/// A value that can be read from the front of a byte sequence.
pub trait Recv: Sized + DeepView {
    /// What reading this kind of value from the front of `buf` gives.
    spec fn wire_parse(buf: Seq<u8>) -> Parsed<<Self as DeepView>::V>;

    /// Reads a value from the front of `buf`: the number of bytes that it
    /// takes and the value, or why there is none.
    fn recv(buf: &[u8]) -> (r: Result<(usize, Self), RecvError>)
        ensures
            match r {
                Ok((n, v)) => Self::wire_parse(buf@) == Ok::<(int, <Self as DeepView>::V), RecvError>(
                    (n as int, v.deep_view()),
                ),
                Err(e) => Self::wire_parse(buf@) == Err::<(int, <Self as DeepView>::V), RecvError>(
                    e,
                ),
            },
            r matches Ok((n, _)) ==> n <= buf@.len(),
    ;
}

impl Recv for u16 {
    open spec fn wire_parse(buf: Seq<u8>) -> Parsed<u16> {
        parse_u16(buf)
    }

    fn recv(buf: &[u8]) -> (r: Result<(usize, u16), RecvError>) {
        read_u16(buf)
    }
}

impl Recv for u32 {
    open spec fn wire_parse(buf: Seq<u8>) -> Parsed<u32> {
        parse_u32(buf)
    }

    fn recv(buf: &[u8]) -> (r: Result<(usize, u32), RecvError>) {
        read_u32(buf)
    }
}

impl Recv for u64 {
    open spec fn wire_parse(buf: Seq<u8>) -> Parsed<u64> {
        parse_u64(buf)
    }

    fn recv(buf: &[u8]) -> (r: Result<(usize, u64), RecvError>) {
        read_u64(buf)
    }
}

impl Recv for Status {
    open spec fn wire_parse(buf: Seq<u8>) -> Parsed<Status> {
        parse_status(buf)
    }

    fn recv(buf: &[u8]) -> (r: Result<(usize, Status), RecvError>) {
        let (n, c) = read_u64(buf)?;
        match Status::from_code(c) {
            Some(s) => Ok((n, s)),
            None => Err(RecvError::Failed(Status::InternalError)),
        }
    }
}

impl Recv for SaveStatus {
    open spec fn wire_parse(buf: Seq<u8>) -> Parsed<SaveStatus> {
        parse_save_status(buf)
    }

    fn recv(buf: &[u8]) -> (r: Result<(usize, SaveStatus), RecvError>) {
        let (n, c) = read_u64(buf)?;
        match SaveStatus::from_code(c) {
            Some(s) => Ok((n, s)),
            None => Err(RecvError::Failed(Status::InternalError)),
        }
    }
}

impl Recv for GreetCode {
    open spec fn wire_parse(buf: Seq<u8>) -> Parsed<GreetCode> {
        parse_greet_code(buf)
    }

    fn recv(buf: &[u8]) -> (r: Result<(usize, GreetCode), RecvError>) {
        let (n, c) = read_u64(buf)?;
        match GreetCode::from_code(c) {
            Some(g) => Ok((n, g)),
            None => Err(RecvError::Failed(Status::InternalError)),
        }
    }
}

impl Recv for RequestCode {
    open spec fn wire_parse(buf: Seq<u8>) -> Parsed<RequestCode> {
        parse_request_code(buf)
    }

    fn recv(buf: &[u8]) -> (r: Result<(usize, RequestCode), RecvError>) {
        let (n, c) = read_u64(buf)?;
        match RequestCode::from_code(c) {
            Some(code) => Ok((n, code)),
            None => Err(RecvError::Failed(Status::InternalError)),
        }
    }
}

#[verifier::external_type_specification]
#[verifier::external_body]
pub struct ExUtf8Error(std::str::Utf8Error);

/// `std::str::from_utf8`: the bytes as a string slice when they are valid
/// UTF-8 (the slice's UTF-8 encoding is then the bytes themselves), and an
/// error exactly when they are not.
#[verifier::external_body]
fn str_from_utf8(bytes: &[u8]) -> (r: Result<&str, std::str::Utf8Error>)
    ensures
        r is Ok <==> valid_utf8(bytes@),
        r matches Ok(s) ==> s.spec_bytes() == bytes@,
{
    std::str::from_utf8(bytes)
}

impl Recv for StoreId {
    open spec fn wire_parse(buf: Seq<u8>) -> Parsed<Seq<char>> {
        parse_name(buf)
    }

    fn recv(buf: &[u8]) -> (r: Result<(usize, StoreId), RecvError>) {
        let (_, size) = read_u16(buf)?;
        let size = size as usize;
        if buf.len() - 2 < size {
            return Err(RecvError::Truncated);
        }
        let bytes = vstd::slice::slice_subrange(buf, 2, 2 + size);
        match str_from_utf8(bytes) {
            Ok(name) => {
                proof {
                    vstd::utf8::encode_utf8_decode_utf8(name@);
                }
                let store_id = name.to_owned();
                Ok((2 + size, store_id))
            },
            Err(_) => Err(RecvError::Failed(Status::InternalError)),
        }
    }
}

/// What reading `k` more names after `done` bytes and the names `got`
/// gives.
pub open spec fn names_after(got: Seq<Seq<char>>, done: int, rest: Parsed<Seq<Seq<char>>>) -> Parsed<
    Seq<Seq<char>>,
> {
    match rest {
        Ok((m, ss)) => Ok((done + m, got + ss)),
        Err(e) => Err(e),
    }
}

impl Recv for StoreIds {
    open spec fn wire_parse(buf: Seq<u8>) -> Parsed<Seq<Seq<char>>> {
        parse_store_ids(buf)
    }

    fn recv(buf: &[u8]) -> (r: Result<(usize, StoreIds), RecvError>) {
        let (_, count) = read_u64(buf)?;
        if count > usize::MAX as u64 {
            return Err(RecvError::Failed(Status::InternalError));
        }
        let ghost whole = buf@.skip(8);
        let mut store_ids: StoreIds = Vec::new();
        let mut pos: usize = 8;
        let mut i: u64 = 0;
        assert(names_after(Seq::empty(), 0, parse_names(whole, count as nat)) == parse_names(
            whole,
            count as nat,
        )) by {
            match parse_names(whole, count as nat) {
                Ok((m, ss)) => {
                    assert(Seq::<Seq<char>>::empty() + ss =~= ss);
                },
                Err(_) => {},
            }
        }
        assert(buf@.skip(pos as int) =~= whole);
        while i < count
            invariant
                8 <= pos <= buf@.len(),
                i <= count,
                count == u64_value(buf@),
                count <= usize::MAX,
                buf@.len() >= 8,
                whole == buf@.skip(8),
                store_ids.deep_view().len() == i,
                parse_names(whole, count as nat) == names_after(
                    store_ids.deep_view(),
                    pos - 8,
                    parse_names(buf@.skip(pos as int), (count - i) as nat),
                ),
            decreases count - i,
        {
            let rest = vstd::slice::slice_subrange(buf, pos, buf.len());
            assert(rest@ =~= buf@.skip(pos as int));
            let ghost before = store_ids.deep_view();
            match StoreId::recv(rest) {
                Ok((n, store_id)) => {
                    proof {
                        assert(buf@.skip(pos as int).skip(n as int) =~= buf@.skip(pos + n));
                    }
                    store_ids.push(store_id);
                    proof {
                        assert(store_ids.deep_view() =~= before.push(store_id@));
                        match parse_names(buf@.skip(pos + n), (count - i - 1) as nat) {
                            Ok((m, ss)) => {
                                assert(before + (seq![store_id@] + ss) =~= before.push(store_id@)
                                    + ss);
                            },
                            Err(_) => {},
                        }
                    }
                    pos = pos + n;
                    i = i + 1;
                },
                Err(e) => {
                    return Err(e);
                },
            }
        }
        Ok((pos, store_ids))
    }
}

impl Recv for BlobId {
    open spec fn wire_parse(buf: Seq<u8>) -> Parsed<Seq<u8>> {
        parse_blob_id(buf)
    }

    fn recv(buf: &[u8]) -> (r: Result<(usize, BlobId), RecvError>) {
        if buf.len() < 32 {
            return Err(RecvError::Truncated);
        }
        let mut hash = [0u8; 32];
        let mut i: usize = 0;
        while i < 32
            invariant
                i <= 32,
                buf@.len() >= 32,
                forall|j: int| 0 <= j < i ==> hash@[j] == buf@[j],
            decreases 32 - i,
        {
            hash[i] = buf[i];
            i = i + 1;
        }
        assert(hash@ =~= buf@.take(32));
        Ok((32, BlobId(hash)))
    }
}

impl Recv for BlobIds {
    open spec fn wire_parse(buf: Seq<u8>) -> Parsed<Seq<Seq<u8>>> {
        parse_blob_ids(buf)
    }

    fn recv(buf: &[u8]) -> (r: Result<(usize, BlobIds), RecvError>) {
        let (_, count) = read_u64(buf)?;
        if count > (usize::MAX / 32) as u64 {
            return Err(RecvError::Failed(Status::InternalError));
        }
        let size = count as usize * 32;
        if buf.len() - 8 < size {
            return Err(RecvError::Truncated);
        }
        let ghost raw = buf@.subrange(8, 8 + size as int);
        let mut blob_ids: BlobIds = Vec::new();
        let mut i: usize = 0;
        while i < count as usize
            invariant
                count <= usize::MAX / 32,
                size == count * 32,
                buf@.len() >= 8 + size,
                raw == buf@.subrange(8, 8 + size as int),
                i <= count,
                blob_ids.deep_view() =~= split_ids(raw, count as nat).take(i as int),
            decreases count - i,
        {
            let at = 8 + 32 * i;
            let chunk = vstd::slice::slice_subrange(buf, at, buf.len());
            let (_, blob_id) = BlobId::recv(chunk).unwrap();
            let ghost before = blob_ids.deep_view();
            blob_ids.push(blob_id);
            proof {
                assert(blob_id@ =~= raw.subrange(32 * i, 32 * i + 32));
                assert(blob_ids.deep_view() =~= before.push(blob_id@));
                assert(split_ids(raw, count as nat).take(i + 1) =~= split_ids(
                    raw,
                    count as nat,
                ).take(i as int).push(blob_id@));
            }
            i = i + 1;
        }
        assert(split_ids(raw, count as nat).take(i as int) =~= split_ids(raw, count as nat));
        Ok((8 + size, blob_ids))
    }
}


impl BlobStream {
    /// Reads the size that heads a blob; its contents stay in the stream.
    pub fn recv(buf: &[u8]) -> (r: Result<(usize, BlobStream), RecvError>)
        ensures
            match r {
                Ok((n, b)) => parse_blob_size(buf@) == Ok::<(int, nat), RecvError>(
                    (n as int, b.bytes_remain as nat),
                ),
                Err(e) => parse_blob_size(buf@) == Err::<(int, nat), RecvError>(e),
            },
    {
        let (n, blob_size) = read_u64(buf)?;
        if blob_size > usize::MAX as u64 {
            return Err(RecvError::Failed(Status::InternalError));
        }
        Ok((n, BlobStream { bytes_remain: blob_size as usize }))
    }

    /// Reads all the remaining contents of the blob from the front of `buf`:
    /// the number of bytes taken and the contents, after which nothing
    /// remains. With fewer bytes at hand, nothing is taken.
    pub fn slurp(&mut self, buf: &[u8]) -> (r: Result<(usize, Vec<u8>), RecvError>)
        ensures
            match r {
                Ok((n, contents)) => {
                    &&& buf@.len() >= old(self).bytes_remain
                    &&& n == old(self).bytes_remain
                    &&& contents@ == buf@.take(n as int)
                    &&& final(self).bytes_remain == 0
                },
                Err(e) => {
                    &&& buf@.len() < old(self).bytes_remain
                    &&& e == RecvError::Truncated
                    &&& *final(self) == *old(self)
                },
            },
    {
        if buf.len() < self.bytes_remain {
            return Err(RecvError::Truncated);
        }
        let n = self.bytes_remain;
        let contents = vstd::slice::slice_to_vec(vstd::slice::slice_subrange(buf, 0, n));
        self.bytes_remain = 0;
        Ok((n, contents))
    }

    /// Reads the next part of the blob's contents from the front of `input`
    /// into a buffer with room for `room` bytes: as much as the buffer holds
    /// and as much as is at hand, never past the end of the blob. What was
    /// read no longer remains.
    pub fn read(&mut self, input: &[u8], room: usize) -> (part: Vec<u8>)
        ensures
            part@.len() == read_goal(old(self).bytes_remain as nat, room as nat, input@.len()),
            part@.len() <= old(self).bytes_remain,
            part@.len() <= room,
            part@.len() <= input@.len(),
            part@.len() == old(self).bytes_remain || part@.len() == room || part@.len()
                == input@.len(),
            part@ == input@.take(part@.len() as int),
            final(self).bytes_remain == old(self).bytes_remain - part@.len(),
    {
        let mut goal = self.bytes_remain;
        if room < goal {
            goal = room;
        }
        if input.len() < goal {
            goal = input.len();
        }
        let part = vstd::slice::slice_to_vec(vstd::slice::slice_subrange(input, 0, goal));
        self.bytes_remain = self.bytes_remain - goal;
        part
    }
}

/// One read of a blob takes the least of what remains of the blob, the
/// room in the buffer and the bytes at hand: no more than any of them, and
/// all of one of them.
pub proof fn lemma_read_goal_is_least(remain: nat, room: nat, at_hand: nat)
    ensures
        read_goal(remain, room, at_hand) <= remain,
        read_goal(remain, room, at_hand) <= room,
        read_goal(remain, room, at_hand) <= at_hand,
        read_goal(remain, room, at_hand) == remain || read_goal(remain, room, at_hand) == room
            || read_goal(remain, room, at_hand) == at_hand,
{
}

/// How many bytes one read of a blob takes: the least of what remains of
/// the blob, the room in the buffer and the bytes at hand.
pub open spec fn read_goal(remain: nat, room: nat, at_hand: nat) -> nat {
    let goal = if room < remain { room } else { remain };
    if at_hand < goal { at_hand } else { goal }
}

/// Reads a store name, then a blob identity.
fn recv_name_id(buf: &[u8]) -> (r: Result<(usize, StoreId, BlobId), RecvError>)
    ensures
        match r {
            Ok((n, s, id)) => parse_name_id(buf@) == Ok::<(int, (Seq<char>, Seq<u8>)), RecvError>(
                (n as int, (s@, id@)),
            ),
            Err(e) => parse_name_id(buf@) == Err::<(int, (Seq<char>, Seq<u8>)), RecvError>(e),
        },
{
    let (n, store_id) = StoreId::recv(buf)?;
    let rest = vstd::slice::slice_subrange(buf, n, buf.len());
    assert(rest@ =~= buf@.skip(n as int));
    let (m, blob_id) = BlobId::recv(rest)?;
    Ok((n + m, store_id, blob_id))
}

/// Reads a store name, then the size that heads a blob.
fn recv_name_size(buf: &[u8]) -> (r: Result<(usize, StoreId, BlobStream), RecvError>)
    ensures
        match r {
            Ok((n, s, b)) => parse_name_size(buf@) == Ok::<(int, (Seq<char>, nat)), RecvError>(
                (n as int, (s@, b.bytes_remain as nat)),
            ),
            Err(e) => parse_name_size(buf@) == Err::<(int, (Seq<char>, nat)), RecvError>(e),
        },
{
    let (n, store_id) = StoreId::recv(buf)?;
    let rest = vstd::slice::slice_subrange(buf, n, buf.len());
    assert(rest@ =~= buf@.skip(n as int));
    let (m, blob) = BlobStream::recv(rest)?;
    Ok((n + m, store_id, blob))
}

impl RequestIn {
    /// Reads a request header from the front of `buf`. For a request that
    /// carries a blob, the blob's contents follow the header. A refused
    /// header has taken the bytes that `request_refused_at` counts.
    pub fn recv(buf: &[u8]) -> (r: Result<(usize, RequestIn), RecvError>)
        ensures
            match r {
                Ok((n, req)) => parse_request_head(buf@) == Ok::<(int, RequestHead), RecvError>(
                    (n as int, req@),
                ),
                Err(e) => parse_request_head(buf@) == Err::<(int, RequestHead), RecvError>(e),
            },
            r matches Err(RecvError::Failed(_)) ==> refused_after(
                (|b: Seq<u8>| parse_request_head(b)),
                buf@,
                request_refused_at(buf@),
            ),
    {
        proof {
            if parse_request_head(buf@) matches Err(RecvError::Failed(_)) {
                lemma_request_refusal(buf@);
            }
        }
        reveal(parse_request_fields);
        let (n, code) = RequestCode::recv(buf)?;
        let rest = vstd::slice::slice_subrange(buf, n, buf.len());
        assert(rest@ =~= buf@.skip(n as int));
        let (m, request) = match code {
            RequestCode::StoreList => (0, RequestIn::StoreList()),
            RequestCode::Bye => (0, RequestIn::Bye),
            RequestCode::StoreCreate => {
                let (m, store_id) = StoreId::recv(rest)?;
                (m, RequestIn::StoreCreate(store_id))
            },
            RequestCode::StoreDestroy => {
                let (m, store_id) = StoreId::recv(rest)?;
                (m, RequestIn::StoreDestroy(store_id))
            },
            RequestCode::BlobList => {
                let (m, store_id) = StoreId::recv(rest)?;
                (m, RequestIn::BlobList(store_id))
            },
            RequestCode::BlobHash => {
                let (m, blob) = BlobStream::recv(rest)?;
                (m, RequestIn::BlobHash(blob))
            },
            RequestCode::BlobSave => {
                let (m, store_id, blob) = recv_name_size(rest)?;
                (m, RequestIn::BlobSave(store_id, blob))
            },
            RequestCode::BlobInfo => {
                let (m, store_id, blob_id) = recv_name_id(rest)?;
                (m, RequestIn::BlobInfo(store_id, blob_id))
            },
            RequestCode::BlobLoad => {
                let (m, store_id, blob_id) = recv_name_id(rest)?;
                (m, RequestIn::BlobLoad(store_id, blob_id))
            },
            RequestCode::BlobDelete => {
                let (m, store_id, blob_id) = recv_name_id(rest)?;
                (m, RequestIn::BlobDelete(store_id, blob_id))
            },
        };
        assert(parse_request_fields(code, buf@.skip(n as int)) == Ok::<
            (int, RequestHead),
            RecvError,
        >((m as int, request@)));
        Ok((n + m, request))
    }
}

impl<'a> RequestOut<'a> {
    /// The kind of this request.
    pub fn kind(&self) -> (c: RequestCode)
        ensures
            c == self.spec_kind(),
            c == head_kind(self.head()),
    {
        match self {
            RequestOut::StoreList() => RequestCode::StoreList,
            RequestOut::StoreCreate(_) => RequestCode::StoreCreate,
            RequestOut::StoreDestroy(_) => RequestCode::StoreDestroy,
            RequestOut::BlobHash(_) => RequestCode::BlobHash,
            RequestOut::BlobList(_) => RequestCode::BlobList,
            RequestOut::BlobInfo(_, _) => RequestCode::BlobInfo,
            RequestOut::BlobLoad(_, _) => RequestCode::BlobLoad,
            RequestOut::BlobSave(_, _) => RequestCode::BlobSave,
            RequestOut::BlobDelete(_, _) => RequestCode::BlobDelete,
            RequestOut::Bye => RequestCode::Bye,
        }
    }
}

/// Reads what follows the status of a response to a request of kind `code`.
fn recv_response_fields(status: Status, code: RequestCode, rest: &[u8]) -> (r: Result<
    (usize, ResponseIn),
    RecvError,
>)
    ensures
        match r {
            Ok((n, resp)) => parse_response_fields(status, code, rest@) == Ok::<
                (int, ResponseHead),
                RecvError,
            >((n as int, resp@)),
            Err(e) => parse_response_fields(status, code, rest@) == Err::<
                (int, ResponseHead),
                RecvError,
            >(e),
        },
        r matches Ok((n, _)) ==> n <= rest@.len(),
{
    reveal(parse_response_fields);
    match (status, code) {
        (Status::Okay, RequestCode::StoreList) => {
            let (m, store_ids) = StoreIds::recv(rest)?;
            Ok((m, ResponseIn::StoreList(store_ids)))
        },
        (Status::Okay, RequestCode::BlobHash) => {
            let (m, blob_id) = BlobId::recv(rest)?;
            Ok((m, ResponseIn::BlobHash(blob_id)))
        },
        (Status::Okay, RequestCode::BlobList) => {
            let (m, blob_ids) = BlobIds::recv(rest)?;
            Ok((m, ResponseIn::BlobList(blob_ids)))
        },
        (Status::Okay, RequestCode::BlobInfo) => {
            let (m, blob_size) = u64::recv(rest)?;
            Ok((m, ResponseIn::BlobInfo(blob_size)))
        },
        (Status::Okay, RequestCode::BlobLoad) => {
            let (m, blob) = BlobStream::recv(rest)?;
            Ok((m, ResponseIn::BlobLoad(blob)))
        },
        (Status::Okay, RequestCode::BlobSave) => {
            let (m, blob_id) = BlobId::recv(rest)?;
            Ok((m, ResponseIn::BlobSave((SaveStatus::Created, blob_id))))
        },
        (Status::Exists, RequestCode::BlobSave) => {
            let (m, blob_id) = BlobId::recv(rest)?;
            Ok((m, ResponseIn::BlobSave((SaveStatus::Exists, blob_id))))
        },
        (status, _) => Ok((0, ResponseIn::Status(status))),
    }
}

/// Reads the header of a response to a request of kind `code`.
fn recv_response_head(buf: &[u8], code: RequestCode) -> (r: Result<(usize, ResponseIn), RecvError>)
    ensures
        match r {
            Ok((n, resp)) => parse_response_head(buf@, code) == Ok::<(int, ResponseHead), RecvError>(
                (n as int, resp@),
            ),
            Err(e) => parse_response_head(buf@, code) == Err::<(int, ResponseHead), RecvError>(e),
        },
{
    match Status::recv(buf) {
        Err(e) => Err(e),
        Ok((n, status)) => {
            let rest = vstd::slice::slice_subrange(buf, n, buf.len());
            assert(rest@ =~= buf@.skip(n as int));
            match recv_response_fields(status, code, rest) {
                Err(e) => Err(e),
                Ok((m, response)) => Ok((n + m, response)),
            }
        },
    }
}

impl ResponseIn {
    /// Reads the header of the response to `request_context` from the front
    /// of `buf`. For a loaded blob, its contents follow the header.
    pub fn recv(buf: &[u8], request_context: &RequestOut) -> (r: Result<(usize, ResponseIn), RecvError>)
        ensures
            match r {
                Ok((n, resp)) => parse_response_head(buf@, request_context.spec_kind())
                    == Ok::<(int, ResponseHead), RecvError>((n as int, resp@)),
                Err(e) => parse_response_head(buf@, request_context.spec_kind()) == Err::<
                    (int, ResponseHead),
                    RecvError,
                >(e),
            },
    {
        recv_response_head(buf, request_context.kind())
    }
}

/// Reads the greeting with which a client opens a session: its length, or
/// `BadArgument` when the code or the version is not this library's. A
/// refused greeting has taken its twelve bytes.
pub fn recv_open_door(buf: &[u8]) -> (r: Result<usize, RecvError>)
    ensures
        match r {
            Ok(n) => parse_open_door(buf@) == Ok::<(int, ()), RecvError>((n as int, ())),
            Err(e) => parse_open_door(buf@) == Err::<(int, ()), RecvError>(e),
        },
        r matches Err(RecvError::Failed(_)) ==> refused_after(
            (|b: Seq<u8>| parse_open_door(b)),
            buf@,
            12,
        ),
{
    proof {
        if parse_open_door(buf@) matches Err(RecvError::Failed(_)) {
            lemma_open_door_refusal(buf@);
        }
    }
    let (_, open_door) = u64::recv(buf)?;
    let rest = vstd::slice::slice_subrange(buf, 8, buf.len());
    assert(rest@ =~= buf@.skip(8));
    let (_, proto_version) = u32::recv(rest)?;
    if open_door == CODE_OPEN_DOOR && proto_version == PROTO_VERSION {
        Ok(12)
    } else {
        Err(RecvError::Failed(Status::BadArgument))
    }
}

/// Reads the server's greeting: its length when the client is welcome;
/// `BadArgument` once a refusal and the server's version have been read. A
/// refused greeting has taken the bytes that `welcome_refused_at` counts.
pub fn recv_welcome(buf: &[u8]) -> (r: Result<usize, RecvError>)
    ensures
        match r {
            Ok(n) => parse_welcome(buf@) == Ok::<(int, ()), RecvError>((n as int, ())),
            Err(e) => parse_welcome(buf@) == Err::<(int, ()), RecvError>(e),
        },
        r matches Err(RecvError::Failed(_)) ==> refused_after(
            (|b: Seq<u8>| parse_welcome(b)),
            buf@,
            welcome_refused_at(buf@),
        ),
{
    proof {
        if parse_welcome(buf@) matches Err(RecvError::Failed(_)) {
            lemma_welcome_refusal(buf@);
        }
    }
    let (n, code) = GreetCode::recv(buf)?;
    match code {
        GreetCode::Welcome => Ok(n),
        GreetCode::NotWelcome => {
            if buf.len() < 12 {
                Err(RecvError::Truncated)
            } else {
                Err(RecvError::Failed(Status::BadArgument))
            }
        },
    }
}


/// A request is of the kind of the header it is sent with, so that its
/// response is read as an answer to the request that was sent.
pub proof fn lemma_request_kind_is_sent(req: RequestOut)
    ensures
        req.spec_kind() == head_kind(req.head()),
{
}

/// What the server reads from a request that the client sent is a request
/// of the very kind with which the client reads the response, whatever
/// follows it.
pub proof fn lemma_request_read_as_sent(req: RequestOut, rest: Seq<u8>)
    requires
        request_head_bytes(req.head()) is Some,
    ensures
        parse_request_head(request_head_bytes(req.head()).unwrap() + rest) matches Ok((_, h))
            && h == req.head() && head_kind(h) == req.spec_kind(),
{
    lemma_request_sizes_fit(req);
    lemma_request_roundtrip(req.head(), rest);
}

/// The blobs of a request, being slices, have sizes that fit in memory.
proof fn lemma_request_sizes_fit(req: RequestOut)
    ensures
        request_sizes_fit(req.head()),
{
    match req {
        RequestOut::BlobHash(blob) => {
            assert(vstd::slice::spec_slice_len(blob) == blob@.len());
        },
        RequestOut::BlobSave(_, blob) => {
            assert(vstd::slice::spec_slice_len(blob) == blob@.len());
        },
        _ => {},
    }
}

/// What a client sends, a server reads: the request's header, then the
/// contents of the blob that it carries, whatever follows in the stream.
pub proof fn lemma_request_read_back(req: RequestOut, rest: Seq<u8>)
    requires
        req.wire_bytes() is Some,
    ensures
        ({
            let b = req.wire_bytes().unwrap();
            let n = b.len() - req.body().len();
            &&& parse_request_head(b + rest) == Ok::<(int, RequestHead), RecvError>((n, req.head()))
            &&& (b + rest).subrange(n, b.len() as int) == req.body()
        }),
{
    let h = req.head();
    let body = req.body();
    let hb = request_head_bytes(h).unwrap();
    let b = req.wire_bytes().unwrap();
    assert(b == hb + body);
    lemma_request_sizes_fit(req);
    assert(b + rest =~= hb + (body + rest));
    lemma_request_roundtrip(h, body + rest);
    assert((b + rest).subrange(hb.len() as int, b.len() as int) =~= body);
}

/// What a server sends in answer to a request, a client that made that
/// request reads: the response's header, then the contents of a loaded
/// blob, whatever follows in the stream.
pub proof fn lemma_response_read_back(resp: ResponseOut, c: RequestCode, rest: Seq<u8>)
    requires
        resp.wire_bytes() is Some,
        answers(resp.head(), c),
        response_sizes_fit(resp.head()),
    ensures
        ({
            let b = resp.wire_bytes().unwrap();
            let n = b.len() - resp.body().len();
            &&& parse_response_head(b + rest, c) == Ok::<(int, ResponseHead), RecvError>(
                (n, resp.head()),
            )
            &&& (b + rest).subrange(n, b.len() as int) == resp.body()
        }),
{
    let h = resp.head();
    let hb = response_head_bytes(h).unwrap();
    let b = resp.wire_bytes().unwrap();
    assert(b + rest =~= hb + (resp.body() + rest));
    lemma_response_roundtrip(h, c, resp.body() + rest);
    assert((b + rest).subrange(hb.len() as int, b.len() as int) =~= resp.body());
}

} // verus!
