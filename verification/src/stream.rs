//! What holds while a stream grows: an envelope that was read stays read,
//! and bytes that were rejected stay rejected. A reader may therefore decide
//! as soon as the bytes so far are complete or malformed, and needs to wait
//! only while they are incomplete.

use vstd::prelude::*;
use crate::codec::{fit, request_head, response_head, ping_bytes, pong_bytes,
    error_key, null_bytes, stuff_broke_bytes, codec_failure_bytes, io_failure_head, width_of,
    parse_text_head, parse_text, parse_message, parse_error, parse_request, parse_response};
use crate::round_trip::{lemma_fit_keeps, lemma_fit_apart};

verus! {

/// A byte string that is not found in the bytes so far is not found once
/// more bytes have come.
pub proof fn lemma_fit_off_stays(full: Seq<u8>, len: int, at: int, lit: Seq<u8>)
    requires
        0 <= at <= len <= full.len(),
        fit(full.take(len), at, lit) is Off,
    ensures
        fit(full, at, lit) is Off,
{
    let bytes = full.take(len);
    if at + lit.len() <= len {
        assert(bytes.subrange(at, at + lit.len()) =~= full.subrange(at, at + lit.len()));
    } else if at + lit.len() <= full.len() {
        if full.subrange(at, at + lit.len()) == lit {
            assert(bytes.subrange(at, len) =~= lit.subrange(0, len - at));
        }
    } else {
        if full.subrange(at, full.len() as int) == lit.subrange(0, full.len() - at) {
            assert(bytes.subrange(at, len) =~= lit.subrange(0, len - at));
        }
    }
}

/// A byte string of which all the bytes have come is found, or not found,
/// whatever follows.
proof fn lemma_fit_settled(full: Seq<u8>, len: int, at: int, lit: Seq<u8>)
    requires
        0 <= at,
        at + lit.len() <= len <= full.len(),
    ensures
        fit(full, at, lit) == fit(full.take(len), at, lit),
{
    let bytes = full.take(len);
    assert(bytes.subrange(at, at + lit.len()) =~= full.subrange(at, at + lit.len()));
}

/// A message tag that was read or rejected stays so when more bytes come.
pub proof fn lemma_message_stays(full: Seq<u8>, len: int, at: int)
    requires
        0 <= at <= len <= full.len(),
        !(parse_message(full.take(len), at) is Short),
    ensures
        parse_message(full, at) == parse_message(full.take(len), at),
{
    let bytes = full.take(len);
    if parse_message(bytes, at) is Done {
        lemma_fit_settled(full, len, at, ping_bytes());
        lemma_fit_settled(full, len, at, pong_bytes());
    } else {
        lemma_fit_off_stays(full, len, at, ping_bytes());
        lemma_fit_off_stays(full, len, at, pong_bytes());
    }
}

/// A text header that was read or rejected stays so when more bytes come.
pub proof fn lemma_text_head_stays(full: Seq<u8>, len: int, at: int)
    requires
        0 <= at <= len <= full.len(),
        !(parse_text_head(full.take(len), at) is Short),
    ensures
        parse_text_head(full, at) == parse_text_head(full.take(len), at),
{
    let bytes = full.take(len);
    assert(bytes[at] == full[at]);
    if 0x78 <= full[at] <= 0x7b {
        let width = width_of(full[at]);
        assert(bytes.subrange(at + 1, at + 1 + width) =~= full.subrange(at + 1, at + 1 + width));
    }
}

/// A text that was read or rejected stays so when more bytes come.
pub proof fn lemma_text_stays(full: Seq<u8>, len: int, at: int)
    requires
        0 <= at <= len <= full.len(),
        !(parse_text(full.take(len), at) is Short),
    ensures
        parse_text(full, at) == parse_text(full.take(len), at),
{
    let bytes = full.take(len);
    lemma_text_head_stays(full, len, at);
    if parse_text_head(bytes, at) is Done {
        let n = parse_text_head(bytes, at)->value;
        let from = parse_text_head(bytes, at)->end;
        assert(bytes.subrange(from, from + n) =~= full.subrange(from, from + n));
    }
}

/// A failure field that was read or rejected stays so when more bytes come.
#[verifier::rlimit(40)]
pub proof fn lemma_error_stays(full: Seq<u8>, len: int, at: int)
    requires
        0 <= at <= len <= full.len(),
        !(parse_error(full.take(len), at) is Short),
    ensures
        parse_error(full, at) == parse_error(full.take(len), at),
{
    let bytes = full.take(len);
    if fit(bytes, at, null_bytes()) is Whole {
        lemma_fit_keeps(full, len, at, null_bytes());
    } else if fit(bytes, at, stuff_broke_bytes()) is Whole {
        lemma_fit_keeps(full, len, at, stuff_broke_bytes());
        lemma_fit_apart(full, at, stuff_broke_bytes(), null_bytes());
    } else if fit(bytes, at, codec_failure_bytes()) is Whole {
        lemma_fit_keeps(full, len, at, codec_failure_bytes());
        lemma_fit_apart(full, at, codec_failure_bytes(), null_bytes());
        lemma_fit_apart(full, at, codec_failure_bytes(), stuff_broke_bytes());
    } else if fit(bytes, at, io_failure_head()) is Whole {
        lemma_fit_keeps(full, len, at, io_failure_head());
        lemma_fit_apart(full, at, io_failure_head(), null_bytes());
        lemma_fit_apart(full, at, io_failure_head(), stuff_broke_bytes());
        lemma_fit_apart(full, at, io_failure_head(), codec_failure_bytes());
        lemma_text_stays(full, len, at + 18);
    } else {
        lemma_fit_off_stays(full, len, at, null_bytes());
        lemma_fit_off_stays(full, len, at, stuff_broke_bytes());
        lemma_fit_off_stays(full, len, at, codec_failure_bytes());
        lemma_fit_off_stays(full, len, at, io_failure_head());
    }
}

/// Once the bytes so far hold a request or are malformed, more bytes change
/// nothing: the same request is read, or the bytes stay malformed.
pub proof fn lemma_request_stays(full: Seq<u8>, len: int)
    requires
        0 <= len <= full.len(),
        !(parse_request(full.take(len)) is Short),
    ensures
        parse_request(full) == parse_request(full.take(len)),
{
    let bytes = full.take(len);
    if fit(bytes, 0, request_head()) is Whole {
        lemma_fit_keeps(full, len, 0, request_head());
        lemma_message_stays(full, len, 9);
    } else {
        lemma_fit_off_stays(full, len, 0, request_head());
    }
}

/// Once the bytes so far hold a response or are malformed, more bytes change
/// nothing: the same response is read, or the bytes stay malformed.
#[verifier::rlimit(40)]
pub proof fn lemma_response_stays(full: Seq<u8>, len: int)
    requires
        0 <= len <= full.len(),
        !(parse_response(full.take(len)) is Short),
    ensures
        parse_response(full) == parse_response(full.take(len)),
{
    let bytes = full.take(len);
    if fit(bytes, 0, response_head()) is Whole {
        lemma_fit_keeps(full, len, 0, response_head());
        lemma_message_stays(full, len, 9);
        if parse_message(bytes, 9) is Done {
            let mid = parse_message(bytes, 9)->end;
            if fit(bytes, mid, error_key()) is Whole {
                lemma_fit_keeps(full, len, mid, error_key());
                lemma_error_stays(full, len, mid + 6);
            } else {
                lemma_fit_off_stays(full, len, mid, error_key());
            }
        }
    } else {
        lemma_fit_off_stays(full, len, 0, response_head());
    }
}

} // verus!
