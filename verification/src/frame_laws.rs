//! What the frame format promises: reading a frame gives back what was
//! written, and a frame that has been read, or refused, stays so whatever
//! bytes follow it.
use vstd::prelude::*;
use vstd::utf8::*;
use crate::types::{RequestHead, ResponseHead, SaveStatus, Status, save_status_code, status_code};
use crate::wire::{
    Parsed, RecvError, refused_after, lemma_u16_roundtrip, lemma_u32_roundtrip, lemma_u64_roundtrip, parse_u64,
    u16_bytes, u16_value, u32_bytes, u32_value,
    u64_bytes, u64_value,
};
use crate::frames::{
    CODE_OPEN_DOOR, GreetCode, PROTO_VERSION, RequestCode, answers, fields_refused_at,
    name_end, request_refused_at, welcome_refused_at, blob_ids_bytes, greet_code,
    head_kind, ids_bytes, ids_wf, name_bytes, name_fits, names_bytes, names_fit,
    not_welcome_bytes, open_door_bytes, parse_blob_id, parse_blob_ids, parse_blob_size,
    parse_greet_code, parse_name, parse_name_id, parse_name_size, parse_names, parse_open_door,
    parse_request_code, parse_request_fields, parse_request_head, parse_response_fields,
    parse_response_head, parse_status, parse_store_ids, parse_welcome, request_code,
    request_from_code, request_head_bytes, response_head_bytes, split_ids, store_ids_bytes,
    welcome_bytes,
};

verus! {

/// A reading is settled when it is not waiting for more bytes.
pub open spec fn settled<T>(p: Parsed<T>) -> bool {
    p != Err::<(int, T), RecvError>(RecvError::Truncated)
}

proof fn lemma_u16_prefix(a: Seq<u8>, b: Seq<u8>)
    requires
        a.len() >= 2,
    ensures
        u16_value(a + b) == u16_value(a),
{
    assert((a + b)[0] == a[0] && (a + b)[1] == a[1]);
}

proof fn lemma_u64_prefix(a: Seq<u8>, b: Seq<u8>)
    requires
        a.len() >= 8,
    ensures
        u64_value(a + b) == u64_value(a),
{
    assert((a + b)[0] == a[0] && (a + b)[1] == a[1] && (a + b)[2] == a[2] && (a + b)[3] == a[3]);
    assert((a + b)[4] == a[4] && (a + b)[5] == a[5] && (a + b)[6] == a[6] && (a + b)[7] == a[7]);
}

/// The value of the bytes of a `u16`, whatever follows them.
pub proof fn lemma_u16_read_back(v: u16, rest: Seq<u8>)
    ensures
        u16_value(u16_bytes(v) + rest) == v,
{
    lemma_u16_roundtrip(v);
    lemma_u16_prefix(u16_bytes(v), rest);
}

proof fn lemma_u32_prefix(a: Seq<u8>, b: Seq<u8>)
    requires
        a.len() >= 4,
    ensures
        u32_value(a + b) == u32_value(a),
{
    assert((a + b)[0] == a[0] && (a + b)[1] == a[1] && (a + b)[2] == a[2] && (a + b)[3] == a[3]);
}

/// The value of the bytes of a `u32`, whatever follows them.
pub proof fn lemma_u32_read_back(v: u32, rest: Seq<u8>)
    ensures
        u32_value(u32_bytes(v) + rest) == v,
{
    lemma_u32_roundtrip(v);
    lemma_u32_prefix(u32_bytes(v), rest);
}

/// The value of the bytes of a `u64`, whatever follows them.
pub proof fn lemma_u64_read_back(v: u64, rest: Seq<u8>)
    ensures
        u64_value(u64_bytes(v) + rest) == v,
{
    lemma_u64_roundtrip(v);
    lemma_u64_prefix(u64_bytes(v), rest);
}

/// A store name that fits is read back from its bytes, whatever follows.
pub proof fn lemma_name_roundtrip(s: Seq<char>, rest: Seq<u8>)
    requires
        name_fits(s),
    ensures
        parse_name(name_bytes(s) + rest) == Ok::<(int, Seq<char>), RecvError>(
            (name_bytes(s).len() as int, s),
        ),
{
    let e = encode_utf8(s);
    let buf = name_bytes(s) + rest;
    lemma_u16_roundtrip(e.len() as u16);
    lemma_u16_read_back(e.len() as u16, e + rest);
    assert(buf =~= u16_bytes(e.len() as u16) + (e + rest));
    assert(buf.subrange(2, 2 + e.len() as int) =~= e);
    encode_utf8_valid_utf8(s);
    encode_utf8_decode_utf8(s);
}

/// Names that fit are read back from their bytes, whatever follows.
pub proof fn lemma_names_roundtrip(ss: Seq<Seq<char>>, rest: Seq<u8>)
    requires
        names_fit(ss),
    ensures
        parse_names(names_bytes(ss) + rest, ss.len()) == Ok::<(int, Seq<Seq<char>>), RecvError>(
            (names_bytes(ss).len() as int, ss),
        ),
    decreases ss.len(),
{
    if ss.len() == 0 {
        assert(ss =~= Seq::<Seq<char>>::empty());
    } else {
        let first = name_bytes(ss[0]);
        let tail = ss.drop_first();
        assert(name_fits(ss[0]));
        assert(names_fit(tail)) by {
            assert forall|i: int| 0 <= i < tail.len() implies name_fits(#[trigger] tail[i]) by {
                assert(tail[i] == ss[i + 1]);
            }
        }
        let buf = names_bytes(ss) + rest;
        assert(buf =~= first + (names_bytes(tail) + rest));
        lemma_name_roundtrip(ss[0], names_bytes(tail) + rest);
        assert(buf.skip(first.len() as int) =~= names_bytes(tail) + rest);
        lemma_names_roundtrip(tail, rest);
        assert(seq![ss[0]] + tail =~= ss);
    }
}

/// A list of names that fit is read back from its bytes, whatever follows.
pub proof fn lemma_store_ids_roundtrip(ss: Seq<Seq<char>>, rest: Seq<u8>)
    requires
        names_fit(ss),
        ss.len() <= usize::MAX,
    ensures
        parse_store_ids(store_ids_bytes(ss) + rest) == Ok::<(int, Seq<Seq<char>>), RecvError>(
            (store_ids_bytes(ss).len() as int, ss),
        ),
{
    let buf = store_ids_bytes(ss) + rest;
    lemma_u64_roundtrip(ss.len() as u64);
    assert(buf =~= u64_bytes(ss.len() as u64) + (names_bytes(ss) + rest));
    lemma_u64_read_back(ss.len() as u64, names_bytes(ss) + rest);
    assert(buf.skip(8) =~= names_bytes(ss) + rest);
    lemma_names_roundtrip(ss, rest);
}

/// The bytes of identities of 32 bytes each: 32 bytes per identity, and
/// the `i`-th identity at `32 * i`.
pub proof fn lemma_ids_bytes_layout(ids: Seq<Seq<u8>>)
    requires
        ids_wf(ids),
    ensures
        ids_bytes(ids).len() == 32 * ids.len(),
        forall|i: int|
            0 <= i < ids.len() ==> #[trigger] ids_bytes(ids).subrange(32 * i, 32 * i + 32)
                == ids[i],
    decreases ids.len(),
{
    if ids.len() > 0 {
        let tail = ids.drop_first();
        assert(ids_wf(tail)) by {
            assert forall|i: int| 0 <= i < tail.len() implies (#[trigger] tail[i]).len() == 32 by {
                assert(tail[i] == ids[i + 1]);
            }
        }
        lemma_ids_bytes_layout(tail);
        assert(ids[0].len() == 32);
        assert forall|i: int| 0 <= i < ids.len() implies #[trigger] ids_bytes(ids).subrange(
            32 * i,
            32 * i + 32,
        ) == ids[i] by {
            if i == 0 {
                assert(ids_bytes(ids).subrange(0, 32) =~= ids[0]);
            } else {
                assert(ids_bytes(tail).subrange(32 * (i - 1), 32 * (i - 1) + 32) == tail[i - 1]);
                assert(ids_bytes(ids).subrange(32 * i, 32 * i + 32) =~= ids_bytes(tail).subrange(
                    32 * (i - 1),
                    32 * (i - 1) + 32,
                ));
            }
        }
    }
}

/// A list of identities is read back from its bytes, whatever follows, as
/// long as its bytes could be held in memory.
pub proof fn lemma_blob_ids_roundtrip(ids: Seq<Seq<u8>>, rest: Seq<u8>)
    requires
        ids_wf(ids),
        32 * ids.len() <= usize::MAX,
    ensures
        parse_blob_ids(blob_ids_bytes(ids) + rest) == Ok::<(int, Seq<Seq<u8>>), RecvError>(
            (blob_ids_bytes(ids).len() as int, ids),
        ),
{
    let buf = blob_ids_bytes(ids) + rest;
    lemma_ids_bytes_layout(ids);
    lemma_u64_roundtrip(ids.len() as u64);
    assert(buf =~= u64_bytes(ids.len() as u64) + (ids_bytes(ids) + rest));
    lemma_u64_read_back(ids.len() as u64, ids_bytes(ids) + rest);
    let raw = buf.subrange(8, 8 + 32 * ids.len() as int);
    assert(raw =~= ids_bytes(ids));
    assert(split_ids(raw, ids.len()) =~= ids) by {
        assert forall|i: int| 0 <= i < ids.len() implies #[trigger] split_ids(raw, ids.len())[i]
            == ids[i] by {
            assert(ids_bytes(ids).subrange(32 * i, 32 * i + 32) == ids[i]);
        }
    }
}


/// Each request kind is read back from its code.
pub proof fn lemma_request_code_roundtrip(c: RequestCode)
    ensures
        request_from_code(request_code(c)) == Some(c),
{
}

/// Each status is read back from its code.
pub proof fn lemma_status_code_read_back(st: Status, rest: Seq<u8>)
    ensures
        parse_status(u64_bytes(status_code(st)) + rest) == Ok::<(int, Status), RecvError>((8, st)),
{
    lemma_u64_roundtrip(status_code(st));
    lemma_u64_read_back(status_code(st), rest);
}

/// The sizes of the blobs that a request header announces could be held
/// in memory.
pub open spec fn request_sizes_fit(h: RequestHead) -> bool {
    match h {
        RequestHead::BlobHash(n) => n <= usize::MAX,
        RequestHead::BlobSave(_, n) => n <= usize::MAX,
        _ => true,
    }
}

/// The values in a response header could be held in memory.
pub open spec fn response_sizes_fit(h: ResponseHead) -> bool {
    match h {
        ResponseHead::StoreList(ss) => ss.len() <= usize::MAX,
        ResponseHead::BlobList(ids) => 32 * ids.len() <= usize::MAX,
        ResponseHead::BlobLoad(n) => n <= usize::MAX,
        _ => true,
    }
}

/// A name and an identity are read back from their bytes.
proof fn lemma_name_id_roundtrip(s: Seq<char>, id: Seq<u8>, rest: Seq<u8>)
    requires
        name_fits(s),
        id.len() == 32,
    ensures
        parse_name_id(name_bytes(s) + id + rest) == Ok::<(int, (Seq<char>, Seq<u8>)), RecvError>(
            ((name_bytes(s).len() + 32) as int, (s, id)),
        ),
{
    let nb = name_bytes(s);
    assert(nb + id + rest =~= nb + (id + rest));
    lemma_name_roundtrip(s, id + rest);
    assert((nb + (id + rest)).skip(nb.len() as int) =~= id + rest);
    assert((id + rest).take(32) =~= id);
}

/// A name and a blob size are read back from their bytes.
proof fn lemma_name_size_roundtrip(s: Seq<char>, n: nat, rest: Seq<u8>)
    requires
        name_fits(s),
        n <= usize::MAX,
    ensures
        parse_name_size(name_bytes(s) + u64_bytes(n as u64) + rest) == Ok::<
            (int, (Seq<char>, nat)),
            RecvError,
        >(((name_bytes(s).len() + 8) as int, (s, n))),
{
    let nb = name_bytes(s);
    assert(nb + u64_bytes(n as u64) + rest =~= nb + (u64_bytes(n as u64) + rest));
    lemma_name_roundtrip(s, u64_bytes(n as u64) + rest);
    assert((nb + (u64_bytes(n as u64) + rest)).skip(nb.len() as int) =~= u64_bytes(n as u64)
        + rest);
    lemma_u64_roundtrip(n as u64);
    lemma_u64_read_back(n as u64, rest);
}

/// The name that follows the code of a request header is read back.
proof fn lemma_request_name_fields_roundtrip(h: RequestHead, rest: Seq<u8>)
    requires
        request_head_bytes(h) is Some,
        h is StoreCreate || h is StoreDestroy || h is BlobList,
    ensures
        parse_request_fields(head_kind(h), request_head_bytes(h).unwrap().skip(8) + rest) == Ok::<
            (int, RequestHead),
            RecvError,
        >((request_head_bytes(h).unwrap().len() - 8, h)),
{
    reveal(request_head_bytes);
    reveal(parse_request_fields);
    let fields = request_head_bytes(h).unwrap().skip(8);
    match h {
        RequestHead::StoreCreate(s) | RequestHead::StoreDestroy(s) | RequestHead::BlobList(s) => {
            assert(fields =~= name_bytes(s));
            lemma_name_roundtrip(s, rest);
        },
        _ => {},
    }
}

proof fn lemma_request_name_id_fields_roundtrip(h: RequestHead, rest: Seq<u8>)
    requires
        request_head_bytes(h) is Some,
        h is BlobInfo || h is BlobLoad || h is BlobDelete,
    ensures
        parse_request_fields(head_kind(h), request_head_bytes(h).unwrap().skip(8) + rest) == Ok::<
            (int, RequestHead),
            RecvError,
        >((request_head_bytes(h).unwrap().len() - 8, h)),
{
    reveal(request_head_bytes);
    reveal(parse_request_fields);
    let fields = request_head_bytes(h).unwrap().skip(8);
    match h {
        RequestHead::BlobInfo(s, id) | RequestHead::BlobLoad(s, id) | RequestHead::BlobDelete(
            s,
            id,
        ) => {
            assert(fields =~= name_bytes(s) + id);
            lemma_name_id_roundtrip(s, id, rest);
        },
        _ => {},
    }
}

proof fn lemma_request_other_fields_roundtrip(h: RequestHead, rest: Seq<u8>)
    requires
        request_head_bytes(h) is Some,
        request_sizes_fit(h),
        h is BlobHash || h is BlobSave || h is StoreList || h is Bye,
    ensures
        parse_request_fields(head_kind(h), request_head_bytes(h).unwrap().skip(8) + rest) == Ok::<
            (int, RequestHead),
            RecvError,
        >((request_head_bytes(h).unwrap().len() - 8, h)),
{
    reveal(request_head_bytes);
    reveal(parse_request_fields);
    let fields = request_head_bytes(h).unwrap().skip(8);
    match h {
        RequestHead::BlobHash(n) => {
            assert(fields =~= u64_bytes(n as u64));
            lemma_u64_roundtrip(n as u64);
            lemma_u64_read_back(n as u64, rest);
        },
        RequestHead::BlobSave(s, n) => {
            assert(fields =~= name_bytes(s) + u64_bytes(n as u64));
            lemma_name_size_roundtrip(s, n, rest);
        },
        _ => {
            assert(fields.len() == 0);
        },
    }
}

/// What follows the code of a request header is read back.
proof fn lemma_request_fields_roundtrip(h: RequestHead, rest: Seq<u8>)
    requires
        request_head_bytes(h) is Some,
        request_sizes_fit(h),
    ensures
        parse_request_fields(head_kind(h), request_head_bytes(h).unwrap().skip(8) + rest) == Ok::<
            (int, RequestHead),
            RecvError,
        >((request_head_bytes(h).unwrap().len() - 8, h)),
{
    if h is StoreCreate || h is StoreDestroy || h is BlobList {
        lemma_request_name_fields_roundtrip(h, rest);
    } else if h is BlobInfo || h is BlobLoad || h is BlobDelete {
        lemma_request_name_id_fields_roundtrip(h, rest);
    } else {
        lemma_request_other_fields_roundtrip(h, rest);
    }
}

/// A request header starts with the code of its kind.
proof fn lemma_request_head_code(h: RequestHead)
    requires
        request_head_bytes(h) is Some,
    ensures
        request_head_bytes(h).unwrap().len() >= 8,
        request_head_bytes(h).unwrap().take(8) == u64_bytes(request_code(head_kind(h))),
{
    reveal(request_head_bytes);
    lemma_u64_roundtrip(request_code(head_kind(h)));
    let b = request_head_bytes(h).unwrap();
    assert(b.take(8) =~= u64_bytes(request_code(head_kind(h))));
}

/// A response header starts with the code of its status.
proof fn lemma_response_head_code(h: ResponseHead)
    requires
        response_head_bytes(h) is Some,
    ensures
        response_head_bytes(h).unwrap().len() >= 8,
        response_head_bytes(h).unwrap().take(8) == u64_bytes(
            match h {
                ResponseHead::Status(st) => status_code(st),
                ResponseHead::BlobSave(ss, _) => save_status_code(ss),
                _ => status_code(Status::Okay),
            },
        ),
{
    reveal(response_head_bytes);
    lemma_u64_roundtrip(status_code(Status::Okay));
    let b = response_head_bytes(h).unwrap();
    match h {
        ResponseHead::Status(st) => {
            lemma_u64_roundtrip(status_code(st));
            assert(b.take(8) =~= u64_bytes(status_code(st)));
        },
        ResponseHead::BlobSave(ss, _) => {
            lemma_u64_roundtrip(save_status_code(ss));
            assert(b.take(8) =~= u64_bytes(save_status_code(ss)));
        },
        _ => {
            assert(b.take(8) =~= u64_bytes(status_code(Status::Okay)));
        },
    }
}

/// A request header is read back from its bytes, whatever follows them
/// (in particular the contents of the blob that it announces).
pub proof fn lemma_request_roundtrip(h: RequestHead, rest: Seq<u8>)
    requires
        request_head_bytes(h) is Some,
        request_sizes_fit(h),
    ensures
        parse_request_head(request_head_bytes(h).unwrap() + rest) == Ok::<
            (int, RequestHead),
            RecvError,
        >((request_head_bytes(h).unwrap().len() as int, h)),
{
    let b = request_head_bytes(h).unwrap();
    let c = head_kind(h);
    let code = u64_bytes(request_code(c));
    let fields = b.skip(8);
    let buf = b + rest;
    lemma_u64_roundtrip(request_code(c));
    lemma_request_head_code(h);
    assert(b =~= code + fields);
    assert(buf =~= code + (fields + rest));
    lemma_u64_read_back(request_code(c), fields + rest);
    lemma_request_code_roundtrip(c);
    assert(parse_request_code(buf) == Ok::<(int, RequestCode), RecvError>((8, c)));
    assert(buf.skip(8) =~= fields + rest);
    lemma_request_fields_roundtrip(h, rest);
}

/// What follows the status of a response header is read back.
proof fn lemma_response_fields_roundtrip(h: ResponseHead, c: RequestCode, rest: Seq<u8>)
    requires
        response_head_bytes(h) is Some,
        answers(h, c),
        response_sizes_fit(h),
        !(h is Status),
        !(h is BlobSave),
    ensures
        parse_response_fields(Status::Okay, c, response_head_bytes(h).unwrap().skip(8) + rest)
            == Ok::<(int, ResponseHead), RecvError>((response_head_bytes(h).unwrap().len() - 8, h)),
{
    reveal(parse_response_fields);
    reveal(response_head_bytes);
    let b = response_head_bytes(h).unwrap();
    let fields = b.skip(8);
    match h {
        ResponseHead::StoreList(ss) => {
            assert(fields =~= store_ids_bytes(ss));
            lemma_store_ids_roundtrip(ss, rest);
        },
        ResponseHead::BlobHash(id) => {
            assert(fields =~= id);
            assert((id + rest).take(32) =~= id);
        },
        ResponseHead::BlobList(ids) => {
            assert(fields =~= blob_ids_bytes(ids));
            lemma_blob_ids_roundtrip(ids, rest);
        },
        ResponseHead::BlobInfo(n) => {
            assert(fields =~= u64_bytes(n));
            lemma_u64_roundtrip(n);
            lemma_u64_read_back(n, rest);
        },
        ResponseHead::BlobLoad(n) => {
            assert(fields =~= u64_bytes(n as u64));
            lemma_u64_roundtrip(n as u64);
            lemma_u64_read_back(n as u64, rest);
        },
        _ => {},
    }
}

/// A response header is read back from its bytes, whatever follows them,
/// by a reader that knows the kind of request that it answers.
pub proof fn lemma_response_roundtrip(h: ResponseHead, c: RequestCode, rest: Seq<u8>)
    requires
        response_head_bytes(h) is Some,
        answers(h, c),
        response_sizes_fit(h),
    ensures
        parse_response_head(response_head_bytes(h).unwrap() + rest, c) == Ok::<
            (int, ResponseHead),
            RecvError,
        >((response_head_bytes(h).unwrap().len() as int, h)),
{
    let b = response_head_bytes(h).unwrap();
    let buf = b + rest;
    let fields = b.skip(8);
    lemma_response_head_code(h);
    assert(buf.skip(8) =~= fields + rest);
    assert(b =~= b.take(8) + fields);
    assert(buf =~= b.take(8) + (fields + rest));
    match h {
        ResponseHead::Status(st) => {
            reveal(parse_response_fields);
            reveal(response_head_bytes);
            lemma_status_code_read_back(st, fields + rest);
            assert(fields.len() == 0);
            assert(fields + rest =~= rest);
        },
        ResponseHead::BlobSave(ss, id) => {
            reveal(parse_response_fields);
            reveal(response_head_bytes);
            let st = if ss == SaveStatus::Created {
                Status::Okay
            } else {
                Status::Exists
            };
            assert(save_status_code(ss) == status_code(st));
            lemma_status_code_read_back(st, fields + rest);
            assert(fields + rest =~= id + rest);
            assert((id + rest).take(32) =~= id);
        },
        _ => {
            lemma_status_code_read_back(Status::Okay, fields + rest);
            lemma_response_fields_roundtrip(h, c, rest);
        },
    }
}

/// The greeting with which a client opens a session is accepted, whatever
/// follows it.
pub proof fn lemma_open_door_roundtrip(rest: Seq<u8>)
    ensures
        parse_open_door(open_door_bytes() + rest) == Ok::<(int, ()), RecvError>((12, ())),
{
    let buf = open_door_bytes() + rest;
    lemma_u64_roundtrip(CODE_OPEN_DOOR);
    lemma_u32_roundtrip(PROTO_VERSION);
    assert(buf =~= u64_bytes(CODE_OPEN_DOOR) + (u32_bytes(PROTO_VERSION) + rest));
    lemma_u64_read_back(CODE_OPEN_DOOR, u32_bytes(PROTO_VERSION) + rest);
    assert(buf.skip(8) =~= u32_bytes(PROTO_VERSION) + rest);
    lemma_u32_read_back(PROTO_VERSION, rest);
}

/// The server's welcome lets the client in, and its refusal is read as
/// `BadArgument`, whatever follows them.
pub proof fn lemma_welcome_roundtrip(rest: Seq<u8>)
    ensures
        parse_welcome(welcome_bytes() + rest) == Ok::<(int, ()), RecvError>((8, ())),
        parse_welcome(not_welcome_bytes() + rest) == Err::<(int, ()), RecvError>(
            RecvError::Failed(Status::BadArgument),
        ),
{
    lemma_u64_roundtrip(greet_code(GreetCode::Welcome));
    lemma_u64_read_back(greet_code(GreetCode::Welcome), rest);
    lemma_u64_roundtrip(greet_code(GreetCode::NotWelcome));
    lemma_u32_roundtrip(PROTO_VERSION);
    assert(not_welcome_bytes() + rest =~= u64_bytes(greet_code(GreetCode::NotWelcome)) + (
    u32_bytes(PROTO_VERSION) + rest));
    lemma_u64_read_back(greet_code(GreetCode::NotWelcome), u32_bytes(PROTO_VERSION) + rest);
}

// ------------------------------------------------ reading looks no further

proof fn lemma_name_prefix(buf: Seq<u8>, more: Seq<u8>)
    requires
        settled(parse_name(buf)),
    ensures
        parse_name(buf + more) == parse_name(buf),
{
    lemma_u16_prefix(buf, more);
    let n = u16_value(buf) as int;
    assert((buf + more).subrange(2, 2 + n) =~= buf.subrange(2, 2 + n));
}

proof fn lemma_names_prefix(buf: Seq<u8>, more: Seq<u8>, k: nat)
    requires
        settled(parse_names(buf, k)),
    ensures
        parse_names(buf + more, k) == parse_names(buf, k),
    decreases k,
{
    if k > 0 {
        lemma_name_prefix(buf, more);
        if let Ok((n, _)) = parse_name(buf) {
            assert((buf + more).skip(n) =~= buf.skip(n) + more);
            lemma_names_prefix(buf.skip(n), more, (k - 1) as nat);
        }
    }
}

proof fn lemma_store_ids_prefix(buf: Seq<u8>, more: Seq<u8>)
    requires
        settled(parse_store_ids(buf)),
    ensures
        parse_store_ids(buf + more) == parse_store_ids(buf),
{
    lemma_u64_prefix(buf, more);
    assert((buf + more).skip(8) =~= buf.skip(8) + more);
    if u64_value(buf) <= usize::MAX {
        lemma_names_prefix(buf.skip(8), more, u64_value(buf) as nat);
    }
}

proof fn lemma_blob_id_prefix(buf: Seq<u8>, more: Seq<u8>)
    requires
        settled(parse_blob_id(buf)),
    ensures
        parse_blob_id(buf + more) == parse_blob_id(buf),
{
    assert((buf + more).take(32) =~= buf.take(32));
}

proof fn lemma_blob_ids_prefix(buf: Seq<u8>, more: Seq<u8>)
    requires
        settled(parse_blob_ids(buf)),
    ensures
        parse_blob_ids(buf + more) == parse_blob_ids(buf),
{
    lemma_u64_prefix(buf, more);
    let k = u64_value(buf);
    if 32 * k <= usize::MAX && buf.len() >= 8 + 32 * k {
        assert((buf + more).subrange(8, 8 + 32 * k) =~= buf.subrange(8, 8 + 32 * k));
    }
}

proof fn lemma_u64_parse_prefix(buf: Seq<u8>, more: Seq<u8>)
    requires
        settled(parse_u64(buf)),
    ensures
        parse_u64(buf + more) == parse_u64(buf),
        parse_blob_size(buf + more) == parse_blob_size(buf),
        parse_status(buf + more) == parse_status(buf),
        parse_request_code(buf + more) == parse_request_code(buf),
        parse_greet_code(buf + more) == parse_greet_code(buf),
{
    lemma_u64_prefix(buf, more);
}

proof fn lemma_name_id_prefix(buf: Seq<u8>, more: Seq<u8>)
    requires
        settled(parse_name_id(buf)),
    ensures
        parse_name_id(buf + more) == parse_name_id(buf),
{
    lemma_name_prefix(buf, more);
    if let Ok((n, _)) = parse_name(buf) {
        assert((buf + more).skip(n) =~= buf.skip(n) + more);
        lemma_blob_id_prefix(buf.skip(n), more);
    }
}

proof fn lemma_name_size_prefix(buf: Seq<u8>, more: Seq<u8>)
    requires
        settled(parse_name_size(buf)),
    ensures
        parse_name_size(buf + more) == parse_name_size(buf),
{
    lemma_name_prefix(buf, more);
    if let Ok((n, _)) = parse_name(buf) {
        assert((buf + more).skip(n) =~= buf.skip(n) + more);
        lemma_u64_parse_prefix(buf.skip(n), more);
    }
}

proof fn lemma_request_fields_prefix(c: RequestCode, buf: Seq<u8>, more: Seq<u8>)
    requires
        settled(parse_request_fields(c, buf)),
    ensures
        parse_request_fields(c, buf + more) == parse_request_fields(c, buf),
{
    reveal(parse_request_fields);
    match c {
        RequestCode::StoreCreate | RequestCode::StoreDestroy | RequestCode::BlobList => {
            lemma_name_prefix(buf, more);
        },
        RequestCode::BlobHash => {
            lemma_u64_parse_prefix(buf, more);
        },
        RequestCode::BlobSave => {
            lemma_name_size_prefix(buf, more);
        },
        RequestCode::BlobInfo | RequestCode::BlobLoad | RequestCode::BlobDelete => {
            lemma_name_id_prefix(buf, more);
        },
        _ => {},
    }
}

/// Reading a request header looks at no byte beyond the header: once the
/// bytes at hand give a header, or are refused, more bytes change nothing.
pub proof fn lemma_request_prefix(buf: Seq<u8>, more: Seq<u8>)
    requires
        settled(parse_request_head(buf)),
    ensures
        parse_request_head(buf + more) == parse_request_head(buf),
{
    lemma_u64_parse_prefix(buf, more);
    if let Ok((n, c)) = parse_request_code(buf) {
        assert((buf + more).skip(n) =~= buf.skip(n) + more);
        lemma_request_fields_prefix(c, buf.skip(n), more);
    }
}

proof fn lemma_response_fields_prefix(st: Status, c: RequestCode, buf: Seq<u8>, more: Seq<u8>)
    requires
        settled(parse_response_fields(st, c, buf)),
    ensures
        parse_response_fields(st, c, buf + more) == parse_response_fields(st, c, buf),
{
    reveal(parse_response_fields);
    lemma_store_ids_prefix_if(buf, more);
    lemma_blob_ids_prefix_if(buf, more);
    lemma_blob_id_prefix_if(buf, more);
    lemma_u64_parse_prefix_if(buf, more);
}

proof fn lemma_store_ids_prefix_if(buf: Seq<u8>, more: Seq<u8>)
    ensures
        settled(parse_store_ids(buf)) ==> parse_store_ids(buf + more) == parse_store_ids(buf),
{
    if settled(parse_store_ids(buf)) {
        lemma_store_ids_prefix(buf, more);
    }
}

proof fn lemma_blob_ids_prefix_if(buf: Seq<u8>, more: Seq<u8>)
    ensures
        settled(parse_blob_ids(buf)) ==> parse_blob_ids(buf + more) == parse_blob_ids(buf),
{
    if settled(parse_blob_ids(buf)) {
        lemma_blob_ids_prefix(buf, more);
    }
}

proof fn lemma_blob_id_prefix_if(buf: Seq<u8>, more: Seq<u8>)
    ensures
        settled(parse_blob_id(buf)) ==> parse_blob_id(buf + more) == parse_blob_id(buf),
{
    if settled(parse_blob_id(buf)) {
        lemma_blob_id_prefix(buf, more);
    }
}

proof fn lemma_u64_parse_prefix_if(buf: Seq<u8>, more: Seq<u8>)
    ensures
        settled(parse_u64(buf)) ==> {
            &&& parse_u64(buf + more) == parse_u64(buf)
            &&& parse_blob_size(buf + more) == parse_blob_size(buf)
        },
{
    if settled(parse_u64(buf)) {
        lemma_u64_parse_prefix(buf, more);
    }
}

/// Reading a response header looks at no byte beyond the header: once the
/// bytes at hand give a header, or are refused, more bytes change nothing.
pub proof fn lemma_response_prefix(buf: Seq<u8>, c: RequestCode, more: Seq<u8>)
    requires
        settled(parse_response_head(buf, c)),
    ensures
        parse_response_head(buf + more, c) == parse_response_head(buf, c),
{
    lemma_u64_parse_prefix(buf, more);
    if let Ok((n, st)) = parse_status(buf) {
        assert((buf + more).skip(n) =~= buf.skip(n) + more);
        lemma_response_fields_prefix(st, c, buf.skip(n), more);
    }
}

/// Reading the greetings looks at no byte beyond them.
pub proof fn lemma_greetings_prefix(buf: Seq<u8>, more: Seq<u8>)
    ensures
        settled(parse_open_door(buf)) ==> parse_open_door(buf + more) == parse_open_door(buf),
        settled(parse_welcome(buf)) ==> parse_welcome(buf + more) == parse_welcome(buf),
{
    if buf.len() >= 8 {
        lemma_u64_prefix(buf, more);
    }
    if buf.len() >= 12 {
        assert((buf + more).skip(8) =~= buf.skip(8) + more);
        lemma_u32_prefix(buf.skip(8), more);
    }
}


// ------------------------------------------------ a frame cut short waits

proof fn lemma_take_split(a: Seq<u8>, b: Seq<u8>, k: int)
    requires
        0 <= k <= a.len() + b.len(),
    ensures
        k < a.len() ==> (a + b).take(k) == a.take(k),
        k >= a.len() ==> (a + b).take(k) == a + b.take(k - a.len()),
{
    if k < a.len() {
        assert((a + b).take(k) =~= a.take(k));
    } else {
        assert((a + b).take(k) =~= a + b.take(k - a.len()));
    }
}

proof fn lemma_name_cut(s: Seq<char>, k: int)
    requires
        name_fits(s),
        0 <= k < name_bytes(s).len(),
    ensures
        parse_name(name_bytes(s).take(k)) == Err::<(int, Seq<char>), RecvError>(
            RecvError::Truncated,
        ),
{
    let e = encode_utf8(s);
    lemma_u16_roundtrip(e.len() as u16);
    if k >= 2 {
        let p = name_bytes(s).take(k);
        assert(p =~= u16_bytes(e.len() as u16) + e.take(k - 2));
        lemma_u16_read_back(e.len() as u16, e.take(k - 2));
    }
}

proof fn lemma_names_cut(ss: Seq<Seq<char>>, k: int)
    requires
        names_fit(ss),
        0 <= k < names_bytes(ss).len(),
    ensures
        parse_names(names_bytes(ss).take(k), ss.len()) == Err::<(int, Seq<Seq<char>>), RecvError>(
            RecvError::Truncated,
        ),
    decreases ss.len(),
{
    let first = name_bytes(ss[0]);
    let tail = ss.drop_first();
    assert(name_fits(ss[0]));
    assert(names_fit(tail)) by {
        assert forall|i: int| 0 <= i < tail.len() implies name_fits(#[trigger] tail[i]) by {
            assert(tail[i] == ss[i + 1]);
        }
    }
    let rest = names_bytes(tail);
    lemma_take_split(first, rest, k);
    if k < first.len() {
        lemma_name_cut(ss[0], k);
    } else {
        let r = rest.take(k - first.len());
        lemma_name_roundtrip(ss[0], r);
        assert((first + r).skip(first.len() as int) =~= r);
        lemma_names_cut(tail, k - first.len());
    }
}

proof fn lemma_u64_cut(v: u64, k: int)
    requires
        0 <= k < 8,
    ensures
        parse_u64(u64_bytes(v).take(k)) == Err::<(int, u64), RecvError>(RecvError::Truncated),
        parse_blob_size(u64_bytes(v).take(k)) == Err::<(int, nat), RecvError>(
            RecvError::Truncated,
        ),
        parse_status(u64_bytes(v).take(k)) == Err::<(int, Status), RecvError>(
            RecvError::Truncated,
        ),
        parse_request_code(u64_bytes(v).take(k)) == Err::<(int, RequestCode), RecvError>(
            RecvError::Truncated,
        ),
{
    lemma_u64_roundtrip(v);
}

proof fn lemma_name_then_cut(s: Seq<char>, tail: Seq<u8>, k: int) -> (r: Seq<u8>)
    requires
        name_fits(s),
        name_bytes(s).len() <= k < name_bytes(s).len() + tail.len(),
    ensures
        r == tail.take(k - name_bytes(s).len()),
        parse_name((name_bytes(s) + tail).take(k)) == Ok::<(int, Seq<char>), RecvError>(
            (name_bytes(s).len() as int, s),
        ),
        (name_bytes(s) + tail).take(k).skip(name_bytes(s).len() as int) == r,
{
    let nb = name_bytes(s);
    let r = tail.take(k - nb.len());
    lemma_take_split(nb, tail, k);
    lemma_name_roundtrip(s, r);
    assert((nb + r).skip(nb.len() as int) =~= r);
    r
}

proof fn lemma_name_id_cut(s: Seq<char>, id: Seq<u8>, k: int)
    requires
        name_fits(s),
        id.len() == 32,
        0 <= k < name_bytes(s).len() + 32,
    ensures
        parse_name_id((name_bytes(s) + id).take(k)) == Err::<
            (int, (Seq<char>, Seq<u8>)),
            RecvError,
        >(RecvError::Truncated),
{
    let nb = name_bytes(s);
    lemma_take_split(nb, id, k);
    if k < nb.len() {
        lemma_name_cut(s, k);
    } else {
        lemma_name_then_cut(s, id, k);
    }
}

proof fn lemma_name_size_cut(s: Seq<char>, n: nat, k: int)
    requires
        name_fits(s),
        n <= usize::MAX,
        0 <= k < name_bytes(s).len() + 8,
    ensures
        parse_name_size((name_bytes(s) + u64_bytes(n as u64)).take(k)) == Err::<
            (int, (Seq<char>, nat)),
            RecvError,
        >(RecvError::Truncated),
{
    let nb = name_bytes(s);
    lemma_u64_roundtrip(n as u64);
    lemma_take_split(nb, u64_bytes(n as u64), k);
    if k < nb.len() {
        lemma_name_cut(s, k);
    } else {
        lemma_name_then_cut(s, u64_bytes(n as u64), k);
        lemma_u64_cut(n as u64, k - nb.len());
    }
}

proof fn lemma_request_fields_cut(h: RequestHead, k: int)
    requires
        request_head_bytes(h) is Some,
        request_sizes_fit(h),
        0 <= k < request_head_bytes(h).unwrap().len() - 8,
    ensures
        parse_request_fields(head_kind(h), request_head_bytes(h).unwrap().skip(8).take(k))
            == Err::<(int, RequestHead), RecvError>(RecvError::Truncated),
{
    reveal(request_head_bytes);
    reveal(parse_request_fields);
    let fields = request_head_bytes(h).unwrap().skip(8);
    match h {
        RequestHead::StoreCreate(s) => {
            assert(fields =~= name_bytes(s));
            lemma_name_cut(s, k);
        },
        RequestHead::StoreDestroy(s) => {
            assert(fields =~= name_bytes(s));
            lemma_name_cut(s, k);
        },
        RequestHead::BlobList(s) => {
            assert(fields =~= name_bytes(s));
            lemma_name_cut(s, k);
        },
        RequestHead::BlobHash(n) => {
            assert(fields =~= u64_bytes(n as u64));
            lemma_u64_cut(n as u64, k);
        },
        RequestHead::BlobSave(s, n) => {
            assert(fields =~= name_bytes(s) + u64_bytes(n as u64));
            lemma_name_size_cut(s, n, k);
        },
        RequestHead::BlobInfo(s, id) => {
            assert(fields =~= name_bytes(s) + id);
            lemma_name_id_cut(s, id, k);
        },
        RequestHead::BlobLoad(s, id) => {
            assert(fields =~= name_bytes(s) + id);
            lemma_name_id_cut(s, id, k);
        },
        RequestHead::BlobDelete(s, id) => {
            assert(fields =~= name_bytes(s) + id);
            lemma_name_id_cut(s, id, k);
        },
        _ => {},
    }
}

/// A request header cut short is waited for, never refused: every strict
/// prefix of its bytes reads as `Truncated`.
pub proof fn lemma_request_cut_short(h: RequestHead, k: int)
    requires
        request_head_bytes(h) is Some,
        request_sizes_fit(h),
        0 <= k < request_head_bytes(h).unwrap().len(),
    ensures
        parse_request_head(request_head_bytes(h).unwrap().take(k)) == Err::<
            (int, RequestHead),
            RecvError,
        >(RecvError::Truncated),
{
    let b = request_head_bytes(h).unwrap();
    let c = head_kind(h);
    let code = u64_bytes(request_code(c));
    let fields = b.skip(8);
    lemma_request_head_code(h);
    lemma_u64_roundtrip(request_code(c));
    assert(b =~= code + fields);
    lemma_take_split(code, fields, k);
    if k < 8 {
        lemma_u64_cut(request_code(c), k);
    } else {
        let p = b.take(k);
        lemma_u64_read_back(request_code(c), fields.take(k - 8));
        lemma_request_code_roundtrip(c);
        assert(p.skip(8) =~= fields.take(k - 8));
        lemma_request_fields_cut(h, k - 8);
    }
}

proof fn lemma_store_ids_cut(ss: Seq<Seq<char>>, k: int)
    requires
        names_fit(ss),
        ss.len() <= usize::MAX,
        0 <= k < store_ids_bytes(ss).len(),
    ensures
        parse_store_ids(store_ids_bytes(ss).take(k)) == Err::<(int, Seq<Seq<char>>), RecvError>(
            RecvError::Truncated,
        ),
{
    let count = u64_bytes(ss.len() as u64);
    lemma_u64_roundtrip(ss.len() as u64);
    lemma_take_split(count, names_bytes(ss), k);
    if k >= 8 {
        let r = names_bytes(ss).take(k - 8);
        lemma_u64_read_back(ss.len() as u64, r);
        assert((count + r).skip(8) =~= r);
        lemma_names_cut(ss, k - 8);
    }
}

proof fn lemma_blob_ids_cut(ids: Seq<Seq<u8>>, k: int)
    requires
        ids_wf(ids),
        32 * ids.len() <= usize::MAX,
        0 <= k < blob_ids_bytes(ids).len(),
    ensures
        parse_blob_ids(blob_ids_bytes(ids).take(k)) == Err::<(int, Seq<Seq<u8>>), RecvError>(
            RecvError::Truncated,
        ),
{
    let count = u64_bytes(ids.len() as u64);
    lemma_u64_roundtrip(ids.len() as u64);
    lemma_ids_bytes_layout(ids);
    lemma_take_split(count, ids_bytes(ids), k);
    if k >= 8 {
        lemma_u64_read_back(ids.len() as u64, ids_bytes(ids).take(k - 8));
    }
}

/// The status with which a response header starts.
pub open spec fn head_status(h: ResponseHead) -> Status {
    match h {
        ResponseHead::Status(s) => s,
        ResponseHead::BlobSave(ss, _) => if ss == SaveStatus::Created {
            Status::Okay
        } else {
            Status::Exists
        },
        _ => Status::Okay,
    }
}

proof fn lemma_response_head_status(h: ResponseHead)
    requires
        response_head_bytes(h) is Some,
    ensures
        response_head_bytes(h).unwrap().len() >= 8,
        response_head_bytes(h).unwrap().take(8) == u64_bytes(status_code(head_status(h))),
        h is Status ==> response_head_bytes(h).unwrap().len() == 8,
{
    lemma_response_head_code(h);
    reveal(response_head_bytes);
    if let ResponseHead::Status(s) = h {
        lemma_u64_roundtrip(status_code(s));
    }
}

proof fn lemma_response_fields_cut(h: ResponseHead, c: RequestCode, k: int)
    requires
        response_head_bytes(h) is Some,
        answers(h, c),
        response_sizes_fit(h),
        !(h is Status),
        0 <= k < response_head_bytes(h).unwrap().len() - 8,
    ensures
        parse_response_fields(head_status(h), c, response_head_bytes(h).unwrap().skip(8).take(k))
            == Err::<(int, ResponseHead), RecvError>(RecvError::Truncated),
{
    reveal(parse_response_fields);
    reveal(response_head_bytes);
    let fields = response_head_bytes(h).unwrap().skip(8);
    match h {
        ResponseHead::StoreList(ss) => {
            assert(fields =~= store_ids_bytes(ss));
            lemma_store_ids_cut(ss, k);
        },
        ResponseHead::BlobList(ids) => {
            assert(fields =~= blob_ids_bytes(ids));
            lemma_blob_ids_cut(ids, k);
        },
        ResponseHead::BlobInfo(n) => {
            assert(fields =~= u64_bytes(n));
            lemma_u64_cut(n, k);
        },
        ResponseHead::BlobLoad(n) => {
            assert(fields =~= u64_bytes(n as u64));
            lemma_u64_cut(n as u64, k);
        },
        _ => {},
    }
}

/// A response header cut short is waited for, never refused, by a reader
/// that knows the request that it answers.
pub proof fn lemma_response_cut_short(h: ResponseHead, c: RequestCode, k: int)
    requires
        response_head_bytes(h) is Some,
        answers(h, c),
        response_sizes_fit(h),
        0 <= k < response_head_bytes(h).unwrap().len(),
    ensures
        parse_response_head(response_head_bytes(h).unwrap().take(k), c) == Err::<
            (int, ResponseHead),
            RecvError,
        >(RecvError::Truncated),
{
    let b = response_head_bytes(h).unwrap();
    let fields = b.skip(8);
    let st = head_status(h);
    lemma_response_head_status(h);
    let code = b.take(8);
    assert(b =~= code + fields);
    lemma_take_split(code, fields, k);
    if k < 8 {
        lemma_u64_cut(status_code(st), k);
    } else {
        let p = b.take(k);
        lemma_status_code_read_back(st, fields.take(k - 8));
        assert(p.skip(8) =~= fields.take(k - 8));
        lemma_response_fields_cut(h, c, k - 8);
    }
}

/// The greetings cut short are waited for, never refused.
pub proof fn lemma_greetings_cut_short(k: int)
    requires
        0 <= k,
    ensures
        k < 12 ==> parse_open_door(open_door_bytes().take(k)) == Err::<(int, ()), RecvError>(
            RecvError::Truncated,
        ),
        k < 8 ==> parse_welcome(welcome_bytes().take(k)) == Err::<(int, ()), RecvError>(
            RecvError::Truncated,
        ),
        k < 12 ==> parse_welcome(not_welcome_bytes().take(k)) == Err::<(int, ()), RecvError>(
            RecvError::Truncated,
        ),
{
    lemma_u64_roundtrip(CODE_OPEN_DOOR);
    lemma_u32_roundtrip(PROTO_VERSION);
    lemma_u64_roundtrip(greet_code(GreetCode::Welcome));
    lemma_u64_roundtrip(greet_code(GreetCode::NotWelcome));
    if 8 <= k < 12 {
        let code = u64_bytes(greet_code(GreetCode::NotWelcome));
        lemma_take_split(code, u32_bytes(PROTO_VERSION), k);
        lemma_u64_read_back(greet_code(GreetCode::NotWelcome), u32_bytes(PROTO_VERSION).take(k - 8));
    }
}

// ---------------------------------------------------------------- refusals

/// The value of a `u64` at the front of `buf` is that of any prefix that
/// holds its eight bytes.
pub proof fn lemma_u64_on_prefix(buf: Seq<u8>, k: int)
    requires
        8 <= k <= buf.len(),
    ensures
        u64_value(buf.take(k)) == u64_value(buf),
{
    assert(buf =~= buf.take(k) + buf.skip(k));
    lemma_u64_prefix(buf.take(k), buf.skip(k));
}

proof fn lemma_u32_on_prefix(buf: Seq<u8>, k: int)
    requires
        4 <= k <= buf.len(),
    ensures
        u32_value(buf.take(k)) == u32_value(buf),
{
    assert(buf =~= buf.take(k) + buf.skip(k));
    lemma_u32_prefix(buf.take(k), buf.skip(k));
}

/// A name read from the first `k` bytes of `buf`: cut before the name's end
/// it waits for more, and cut at or after its end it reads as from `buf`.
pub proof fn lemma_name_on_prefix(buf: Seq<u8>, k: int)
    requires
        0 <= k <= buf.len(),
    ensures
        k < 2 || k < name_end(buf) ==> parse_name(buf.take(k)) == Err::<(int, Seq<char>), RecvError>(
            RecvError::Truncated,
        ),
        k >= 2 && k >= name_end(buf) ==> parse_name(buf.take(k)) == parse_name(buf),
{
    if k >= 2 {
        assert(buf =~= buf.take(k) + buf.skip(k));
        lemma_u16_prefix(buf.take(k), buf.skip(k));
        let n = u16_value(buf) as int;
        if k >= 2 + n {
            assert(buf.take(k).subrange(2, 2 + n) =~= buf.subrange(2, 2 + n));
        }
    }
}

proof fn lemma_name_id_on_prefix(buf: Seq<u8>, k: int)
    requires
        0 <= k <= buf.len(),
        parse_name(buf) matches Err(RecvError::Failed(_)),
    ensures
        k < name_end(buf) ==> parse_name_id(buf.take(k)) == Err::<
            (int, (Seq<char>, Seq<u8>)),
            RecvError,
        >(RecvError::Truncated),
        k == name_end(buf) ==> parse_name_id(buf.take(k)) == parse_name_id(buf),
{
    lemma_name_on_prefix(buf, k);
}

proof fn lemma_name_size_on_prefix(buf: Seq<u8>, k: int)
    requires
        0 <= k <= buf.len(),
        parse_name_size(buf) matches Err(RecvError::Failed(_)),
    ensures
        k < fields_refused_at(RequestCode::BlobSave, buf) ==> parse_name_size(buf.take(k))
            == Err::<(int, (Seq<char>, nat)), RecvError>(RecvError::Truncated),
        k == fields_refused_at(RequestCode::BlobSave, buf) ==> parse_name_size(buf.take(k))
            == parse_name_size(buf),
{
    lemma_name_on_prefix(buf, k);
    match parse_name(buf) {
        Err(_) => {},
        Ok((n, _)) => {
            if k >= n {
                let tail = buf.skip(n);
                assert(buf.take(k).skip(n) =~= tail.take(k - n));
                if k >= n + 8 {
                    lemma_u64_on_prefix(tail, k - n);
                }
            }
        },
    }
}

/// The fields of a request that are refused are refused once the bytes up
/// to the refused field have been read, and no sooner.
proof fn lemma_fields_refusal(c: RequestCode, buf: Seq<u8>)
    requires
        parse_request_fields(c, buf) matches Err(RecvError::Failed(_)),
    ensures
        0 <= fields_refused_at(c, buf) <= buf.len(),
        parse_request_fields(c, buf.take(fields_refused_at(c, buf))) == parse_request_fields(c, buf),
        forall|k: int|
            0 <= k < fields_refused_at(c, buf) ==> #[trigger] parse_request_fields(c, buf.take(k))
                == Err::<(int, RequestHead), RecvError>(RecvError::Truncated),
{
    reveal(parse_request_fields);
    let a = fields_refused_at(c, buf);
    match c {
        RequestCode::StoreCreate | RequestCode::StoreDestroy | RequestCode::BlobList => {
            lemma_name_on_prefix(buf, a);
            assert forall|k: int| 0 <= k < a implies #[trigger] parse_request_fields(c, buf.take(k))
                == Err::<(int, RequestHead), RecvError>(RecvError::Truncated) by {
                lemma_name_on_prefix(buf, k);
            }
        },
        RequestCode::BlobInfo | RequestCode::BlobLoad | RequestCode::BlobDelete => {
            assert(parse_name(buf) matches Err(RecvError::Failed(_)));
            lemma_name_id_on_prefix(buf, a);
            assert forall|k: int| 0 <= k < a implies #[trigger] parse_request_fields(c, buf.take(k))
                == Err::<(int, RequestHead), RecvError>(RecvError::Truncated) by {
                lemma_name_id_on_prefix(buf, k);
            }
        },
        RequestCode::BlobHash => {
            lemma_u64_on_prefix(buf, 8);
        },
        RequestCode::BlobSave => {
            lemma_name_size_on_prefix(buf, a);
            assert forall|k: int| 0 <= k < a implies #[trigger] parse_request_fields(c, buf.take(k))
                == Err::<(int, RequestHead), RecvError>(RecvError::Truncated) by {
                lemma_name_size_on_prefix(buf, k);
            }
        },
        RequestCode::StoreList | RequestCode::Bye => {},
    }
}

/// A request header read from the first `k` bytes of `buf`, once its code
/// is at hand: the code of `buf`, then the fields read from what follows it
/// within those bytes.
proof fn lemma_request_head_on_prefix(buf: Seq<u8>, c: RequestCode, k: int)
    requires
        8 <= k <= buf.len(),
        request_from_code(u64_value(buf)) == Some(c),
    ensures
        parse_request_head(buf.take(k)) == match parse_request_fields(c, buf.skip(8).take(k - 8)) {
            Err(e) => Err(e),
            Ok((m, h)) => Ok::<(int, RequestHead), RecvError>((8 + m, h)),
        },
{
    lemma_u64_on_prefix(buf, k);
    assert(buf.take(k).skip(8) =~= buf.skip(8).take(k - 8));
}

proof fn lemma_request_refusal_unknown(buf: Seq<u8>)
    requires
        parse_request_head(buf) matches Err(RecvError::Failed(_)),
        request_from_code(u64_value(buf)) is None,
    ensures
        refused_after(|b: Seq<u8>| parse_request_head(b), buf, request_refused_at(buf)),
{
    lemma_u64_on_prefix(buf, 8);
}

proof fn lemma_request_refusal_known(buf: Seq<u8>, c: RequestCode)
    requires
        parse_request_head(buf) matches Err(RecvError::Failed(_)),
        request_from_code(u64_value(buf)) == Some(c),
    ensures
        refused_after(|b: Seq<u8>| parse_request_head(b), buf, request_refused_at(buf)),
{
    let a = request_refused_at(buf);
    let rest = buf.skip(8);
    assert(parse_request_fields(c, rest) matches Err(RecvError::Failed(_)));
    lemma_fields_refusal(c, rest);
    lemma_request_head_on_prefix(buf, c, a);
    assert forall|k: int| 0 <= k < a implies #[trigger] parse_request_head(buf.take(k)) == Err::<
        (int, RequestHead),
        RecvError,
    >(RecvError::Truncated) by {
        if k >= 8 {
            lemma_request_head_on_prefix(buf, c, k);
            assert(parse_request_fields(c, rest.take(k - 8)) == Err::<(int, RequestHead), RecvError>(
                RecvError::Truncated,
            ));
        }
    }
}

/// A refused request header is refused once its code, and its fields up to
/// the refused one, have been read, and no sooner: an unknown code is
/// refused after its eight bytes.
pub proof fn lemma_request_refusal(buf: Seq<u8>)
    requires
        parse_request_head(buf) matches Err(RecvError::Failed(_)),
    ensures
        refused_after(|b: Seq<u8>| parse_request_head(b), buf, request_refused_at(buf)),
{
    match request_from_code(u64_value(buf)) {
        None => lemma_request_refusal_unknown(buf),
        Some(c) => lemma_request_refusal_known(buf, c),
    }
}

/// A refused client greeting is refused once its twelve bytes, code and
/// version, have been read, and no sooner.
pub proof fn lemma_open_door_refusal(buf: Seq<u8>)
    requires
        parse_open_door(buf) matches Err(RecvError::Failed(_)),
    ensures
        refused_after(|b: Seq<u8>| parse_open_door(b), buf, 12),
{
    lemma_u64_on_prefix(buf, 12);
    assert(buf.take(12).skip(8) =~= buf.skip(8).take(4));
    lemma_u32_on_prefix(buf.skip(8), 4);
}

/// A refused server greeting is refused once an unknown code, or a refusal
/// and the server's version, have been read, and no sooner.
pub proof fn lemma_welcome_refusal(buf: Seq<u8>)
    requires
        parse_welcome(buf) matches Err(RecvError::Failed(_)),
    ensures
        refused_after(|b: Seq<u8>| parse_welcome(b), buf, welcome_refused_at(buf)),
{
    let a = welcome_refused_at(buf);
    lemma_u64_on_prefix(buf, a);
    assert forall|k: int| 0 <= k < a implies #[trigger] parse_welcome(buf.take(k)) == Err::<
        (int, ()),
        RecvError,
    >(RecvError::Truncated) by {
        if k >= 8 {
            lemma_u64_on_prefix(buf, k);
        }
    }
}

} // verus!
