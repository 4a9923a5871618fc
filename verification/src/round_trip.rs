//! What the wire codec guarantees: reading gives back what was written,
//! whatever follows it in the stream, and only what could have been written
//! is read.

use vstd::prelude::*;
use vstd::utf8::*;
use crate::message::{SocketMessage, ErrorView, SocketRequest, ResponseView};
use crate::codec::{Parse, Fit, fit, request_head, response_head, ping_bytes, pong_bytes,
    error_key, null_bytes, stuff_broke_bytes, codec_failure_bytes, io_failure_head, be_bytes,
    be_value, span, width_of, text_head, text_bytes, message_bytes, error_bytes,
    request_bytes, response_bytes, writable, parse_text_head, parse_text, parse_message,
    parse_error, parse_request, parse_response, lemma_span_values, starts_with_request,
    starts_with_response};

verus! {

/// Three byte strings in a row, grouped the other way; and what is left of
/// them after the first.
proof fn lemma_regroup(a: Seq<u8>, b: Seq<u8>, c: Seq<u8>)
    ensures
        a + b + c == a + (b + c),
        (a + b + c).skip(a.len() as int) == b + c,
{
    assert(a + b + c =~= a + (b + c));
    assert((a + b + c).skip(a.len() as int) =~= b + c);
}

/// A byte string that stands between two others is found whole at its place.
pub proof fn lemma_fit_whole(pre: Seq<u8>, lit: Seq<u8>, post: Seq<u8>)
    ensures
        fit(pre + lit + post, pre.len() as int, lit) is Whole,
{
    let bytes = pre + lit + post;
    assert(bytes.subrange(pre.len() as int, (pre.len() + lit.len()) as int) =~= lit);
}

/// Two byte strings of one length that differ are not both found at one place.
proof fn lemma_fit_other(pre: Seq<u8>, lit: Seq<u8>, post: Seq<u8>, other: Seq<u8>, i: int)
    requires
        0 <= i < lit.len(),
        i < other.len(),
        lit[i] != other[i],
    ensures
        !(fit(pre + lit + post, pre.len() as int, other) is Whole),
{
    let bytes = pre + lit + post;
    if pre.len() + other.len() <= bytes.len() {
        let got = bytes.subrange(pre.len() as int, (pre.len() + other.len()) as int);
        assert(got[i] == lit[i]);
    }
}

/// A message tag that was written is read back, whatever stands around it.
pub proof fn lemma_message_round_trip(pre: Seq<u8>, m: SocketMessage, post: Seq<u8>)
    ensures
        parse_message(pre + message_bytes(m) + post, pre.len() as int) == (Parse::Done {
            value: m,
            end: (pre.len() + message_bytes(m).len()) as int,
        }),
        message_bytes(m).len() == 5,
{
    lemma_fit_whole(pre, message_bytes(m), post);
    if m is Pong {
        lemma_fit_other(pre, pong_bytes(), post, ping_bytes(), 2);
    }
}

/// The digits of a number that its width can hold give the number back.
pub proof fn lemma_be_round_trip(n: nat, width: nat)
    requires
        n < span(width),
    ensures
        be_bytes(n, width).len() == width,
        be_value(be_bytes(n, width)) == n,
    decreases width,
{
    if width > 0 {
        let high = n / 256;
        assert(high < span((width - 1) as nat));
        lemma_be_round_trip(high, (width - 1) as nat);
        let digits = be_bytes(n, width);
        assert(digits.drop_last() =~= be_bytes(high, (width - 1) as nat));
        assert(digits.last() == (n % 256) as u8);
    }
}

/// The header of a text that was written gives the text's length back.
pub proof fn lemma_text_head_round_trip(pre: Seq<u8>, n: nat, post: Seq<u8>)
    requires
        n < span(8),
    ensures
        parse_text_head(pre + text_head(n) + post, pre.len() as int) == (Parse::Done {
            value: n,
            end: (pre.len() + text_head(n).len()) as int,
        }),
{
    lemma_span_values();
    let bytes = pre + text_head(n) + post;
    let at = pre.len() as int;
    assert(bytes[at] == text_head(n)[0]);
    if n >= 24 {
        let width = width_of(text_head(n)[0]);
        assert(n < span(width));
        lemma_be_round_trip(n, width);
        assert(text_head(n).len() == 1 + width);
        assert(bytes.subrange(at + 1, at + 1 + width) =~= be_bytes(n, width));
    }
}

/// A text that was written is read back, whatever stands around it.
pub proof fn lemma_text_round_trip(pre: Seq<u8>, text: Seq<char>, post: Seq<u8>)
    requires
        encode_utf8(text).len() < span(8),
    ensures
        parse_text(pre + text_bytes(text) + post, pre.len() as int) == (Parse::Done {
            value: text,
            end: (pre.len() + text_bytes(text).len()) as int,
        }),
{
    let raw = encode_utf8(text);
    let head = text_head(raw.len());
    let bytes = pre + text_bytes(text) + post;
    assert(bytes =~= pre + head + (raw + post));
    lemma_text_head_round_trip(pre, raw.len(), raw + post);
    let end = (pre.len() + head.len()) as int;
    assert(bytes.subrange(end, end + raw.len()) =~= raw);
    encode_utf8_valid_utf8(text);
    encode_utf8_decode_utf8(text);
}

/// A failure field that was written is read back, whatever stands around it.
#[verifier::rlimit(40)]
pub proof fn lemma_error_round_trip(pre: Seq<u8>, e: Option<ErrorView>, post: Seq<u8>)
    requires
        e matches Some(ErrorView::IoError { message }) ==> encode_utf8(message).len() < span(8),
    ensures
        parse_error(pre + error_bytes(e) + post, pre.len() as int) == (Parse::Done {
            value: e,
            end: (pre.len() + error_bytes(e).len()) as int,
        }),
        error_bytes(e).len() > 0,
{
    let bytes = pre + error_bytes(e) + post;
    let at = pre.len() as int;
    match e {
        None => {
            lemma_fit_whole(pre, null_bytes(), post);
        },
        Some(ErrorView::StuffBroke) => {
            lemma_fit_whole(pre, stuff_broke_bytes(), post);
            lemma_fit_other(pre, stuff_broke_bytes(), post, null_bytes(), 0);
        },
        Some(ErrorView::CborSerializationError) => {
            lemma_fit_whole(pre, codec_failure_bytes(), post);
            lemma_fit_other(pre, codec_failure_bytes(), post, null_bytes(), 0);
            lemma_fit_other(pre, codec_failure_bytes(), post, stuff_broke_bytes(), 0);
        },
        Some(ErrorView::IoError { message }) => {
            let text = text_bytes(message);
            assert(bytes =~= pre + io_failure_head() + (text + post));
            lemma_fit_whole(pre, io_failure_head(), text + post);
            lemma_fit_other(pre, io_failure_head(), text + post, null_bytes(), 0);
            lemma_fit_other(pre, io_failure_head(), text + post, stuff_broke_bytes(), 0);
            lemma_fit_other(pre, io_failure_head(), text + post, codec_failure_bytes(), 0);
            assert(bytes =~= (pre + io_failure_head()) + text + post);
            lemma_text_round_trip(pre + io_failure_head(), message, post);
        },
    }
}

/// Decoding the bytes of a request gives the request back and takes exactly
/// those bytes, whatever follows them.
pub proof fn lemma_request_round_trip(request: SocketRequest, rest: Seq<u8>)
    ensures
        parse_request(request_bytes(request) + rest) == (Parse::Done {
            value: request,
            end: request_bytes(request).len() as int,
        }),
{
    let bytes = request_bytes(request) + rest;
    let tag = message_bytes(request.message);
    assert(bytes =~= Seq::<u8>::empty() + request_head() + (tag + rest));
    lemma_fit_whole(Seq::empty(), request_head(), tag + rest);
    assert(bytes =~= request_head() + tag + rest);
    lemma_message_round_trip(request_head(), request.message, rest);
}

/// Decoding the bytes of a response gives the response back and takes exactly
/// those bytes, whatever follows them.
#[verifier::rlimit(40)]
pub proof fn lemma_response_round_trip(response: ResponseView, rest: Seq<u8>)
    requires
        writable(response),
    ensures
        parse_response(response_bytes(response) + rest) == (Parse::Done {
            value: response,
            end: response_bytes(response).len() as int,
        }),
{
    let bytes = response_bytes(response) + rest;
    let tag = message_bytes(response.message);
    let failure = error_bytes(response.error);
    assert(bytes =~= Seq::<u8>::empty() + response_head() + (tag + error_key() + failure + rest));
    lemma_fit_whole(Seq::empty(), response_head(), tag + error_key() + failure + rest);
    assert(bytes =~= response_head() + tag + (error_key() + failure + rest));
    lemma_message_round_trip(response_head(), response.message, error_key() + failure + rest);
    assert(bytes =~= (response_head() + tag) + error_key() + (failure + rest));
    lemma_fit_whole(response_head() + tag, error_key(), failure + rest);
    assert(bytes =~= (response_head() + tag + error_key()) + failure + rest);
    lemma_error_round_trip(response_head() + tag + error_key(), response.error, rest);
}

/// Two requests written one after the other are read back in order: the
/// first from the stream, the second from what the first left.
pub proof fn lemma_request_framing(first: SocketRequest, second: SocketRequest, rest: Seq<u8>)
    ensures
        parse_request(request_bytes(first) + request_bytes(second) + rest) == (Parse::Done {
            value: first,
            end: request_bytes(first).len() as int,
        }),
        parse_request(
            (request_bytes(first) + request_bytes(second) + rest).skip(
                request_bytes(first).len() as int,
            ),
        ) == (Parse::Done { value: second, end: request_bytes(second).len() as int }),
{
    lemma_regroup(request_bytes(first), request_bytes(second), rest);
    lemma_request_round_trip(first, request_bytes(second) + rest);
    lemma_request_round_trip(second, rest);
}

/// Two responses written one after the other are read back in order: the
/// first from the stream, the second from what the first left.
#[verifier::rlimit(40)]
pub proof fn lemma_response_framing(first: ResponseView, second: ResponseView, rest: Seq<u8>)
    requires
        writable(first),
        writable(second),
    ensures
        parse_response(response_bytes(first) + response_bytes(second) + rest) == (Parse::Done {
            value: first,
            end: response_bytes(first).len() as int,
        }),
        parse_response(
            (response_bytes(first) + response_bytes(second) + rest).skip(
                response_bytes(first).len() as int,
            ),
        ) == (Parse::Done { value: second, end: response_bytes(second).len() as int }),
{
    lemma_regroup(response_bytes(first), response_bytes(second), rest);
    lemma_response_round_trip(first, response_bytes(second) + rest);
    lemma_response_round_trip(second, rest);
}

/// A response written after a request, as on a connection seen from one
/// side, is read back after the request.
#[verifier::rlimit(40)]
pub proof fn lemma_mixed_framing(first: SocketRequest, second: ResponseView, rest: Seq<u8>)
    requires
        writable(second),
    ensures
        parse_request(request_bytes(first) + response_bytes(second) + rest) == (Parse::Done {
            value: first,
            end: request_bytes(first).len() as int,
        }),
        parse_response(
            (request_bytes(first) + response_bytes(second) + rest).skip(
                request_bytes(first).len() as int,
            ),
        ) == (Parse::Done { value: second, end: response_bytes(second).len() as int }),
{
    lemma_regroup(request_bytes(first), response_bytes(second), rest);
    lemma_request_round_trip(first, response_bytes(second) + rest);
    lemma_response_round_trip(second, rest);
}

/// The number that digits stand for has exactly those digits.
pub proof fn lemma_be_exact(digits: Seq<u8>)
    ensures
        be_value(digits) < span(digits.len()),
        be_bytes(be_value(digits), digits.len()) == digits,
    decreases digits.len(),
{
    if digits.len() > 0 {
        let high = digits.drop_last();
        lemma_be_exact(high);
        let n = be_value(digits);
        assert(n / 256 == be_value(high));
        assert(n % 256 == digits.last() as nat);
        assert(be_bytes(n, digits.len()) =~= digits);
    } else {
        assert(be_bytes(be_value(digits), digits.len()) =~= digits);
    }
}

/// A header that is read is the shortest header of the length it gives.
pub proof fn lemma_text_head_exact(bytes: Seq<u8>, at: int)
    requires
        parse_text_head(bytes, at) is Done,
    ensures
        0 <= at < parse_text_head(bytes, at)->end <= bytes.len(),
        parse_text_head(bytes, at)->value < span(8),
        bytes.subrange(at, parse_text_head(bytes, at)->end) == text_head(
            parse_text_head(bytes, at)->value,
        ),
{
    lemma_span_values();
    let n = parse_text_head(bytes, at)->value;
    let end = parse_text_head(bytes, at)->end;
    if bytes[at] >= 0x78 {
        let width = width_of(bytes[at]);
        let digits = bytes.subrange(at + 1, at + 1 + width);
        lemma_be_exact(digits);
        assert(bytes.subrange(at, end) =~= seq![bytes[at]] + digits);
    } else {
        assert(bytes.subrange(at, end) =~= text_head(n));
    }
}

/// A text that is read stands in the bytes in its written form.
pub proof fn lemma_text_exact(bytes: Seq<u8>, at: int)
    requires
        parse_text(bytes, at) is Done,
    ensures
        0 <= at < parse_text(bytes, at)->end <= bytes.len(),
        encode_utf8(parse_text(bytes, at)->value).len() < span(8),
        bytes.subrange(at, parse_text(bytes, at)->end) == text_bytes(
            parse_text(bytes, at)->value,
        ),
{
    lemma_text_head_exact(bytes, at);
    let n = parse_text_head(bytes, at)->value;
    let from = parse_text_head(bytes, at)->end;
    let raw = bytes.subrange(from, from + n);
    decode_utf8_encode_utf8(raw);
    assert(bytes.subrange(at, from + n) =~= bytes.subrange(at, from) + raw);
}

/// A message tag that is read stands in the bytes in its written form.
pub proof fn lemma_message_exact(bytes: Seq<u8>, at: int)
    requires
        parse_message(bytes, at) is Done,
    ensures
        0 <= at < parse_message(bytes, at)->end <= bytes.len(),
        bytes.subrange(at, parse_message(bytes, at)->end) == message_bytes(
            parse_message(bytes, at)->value,
        ),
{
}

/// A failure field that is read stands in the bytes in its written form.
#[verifier::rlimit(40)]
pub proof fn lemma_error_exact(bytes: Seq<u8>, at: int)
    requires
        parse_error(bytes, at) is Done,
    ensures
        0 <= at < parse_error(bytes, at)->end <= bytes.len(),
        parse_error(bytes, at)->value matches Some(ErrorView::IoError { message })
            ==> encode_utf8(message).len() < span(8),
        bytes.subrange(at, parse_error(bytes, at)->end) == error_bytes(
            parse_error(bytes, at)->value,
        ),
{
    if fit(bytes, at, null_bytes()) is Whole {
    } else if fit(bytes, at, stuff_broke_bytes()) is Whole {
    } else if fit(bytes, at, codec_failure_bytes()) is Whole {
    } else {
        lemma_text_exact(bytes, at + 18);
        let end = parse_error(bytes, at)->end;
        assert(bytes.subrange(at, end) =~= bytes.subrange(at, at + 18) + bytes.subrange(
            at + 18,
            end,
        ));
    }
}

/// Only what was written is read: where a request is decoded, the bytes that
/// it took are the wire form of that request.
pub proof fn lemma_request_exact(bytes: Seq<u8>)
    requires
        parse_request(bytes) is Done,
    ensures
        0 < parse_request(bytes)->end <= bytes.len(),
        bytes.subrange(0, parse_request(bytes)->end) == request_bytes(
            parse_request(bytes)->value,
        ),
{
    lemma_message_exact(bytes, 9);
    let end = parse_request(bytes)->end;
    assert(bytes.subrange(0, end) =~= bytes.subrange(0, 9) + bytes.subrange(9, end));
}

/// Only what was written is read: where a response is decoded, the bytes
/// that it took are the wire form of that response.
#[verifier::rlimit(40)]
pub proof fn lemma_response_exact(bytes: Seq<u8>)
    requires
        parse_response(bytes) is Done,
    ensures
        0 < parse_response(bytes)->end <= bytes.len(),
        writable(parse_response(bytes)->value),
        bytes.subrange(0, parse_response(bytes)->end) == response_bytes(
            parse_response(bytes)->value,
        ),
{
    lemma_message_exact(bytes, 9);
    let mid = parse_message(bytes, 9)->end;
    lemma_error_exact(bytes, mid + 6);
    let end = parse_response(bytes)->end;
    assert(bytes.subrange(0, end) =~= bytes.subrange(0, 9) + bytes.subrange(9, mid)
        + bytes.subrange(mid, mid + 6) + bytes.subrange(mid + 6, end));
}

/// No two values share a wire form: requests with the same bytes are equal.
pub proof fn lemma_request_bytes_injective(a: SocketRequest, b: SocketRequest)
    requires
        request_bytes(a) == request_bytes(b),
    ensures
        a == b,
{
    lemma_request_round_trip(a, Seq::empty());
    lemma_request_round_trip(b, Seq::empty());
}

/// No two values share a wire form: responses with the same bytes are equal.
pub proof fn lemma_response_bytes_injective(a: ResponseView, b: ResponseView)
    requires
        writable(a),
        writable(b),
        response_bytes(a) == response_bytes(b),
    ensures
        a == b,
{
    lemma_response_round_trip(a, Seq::empty());
    lemma_response_round_trip(b, Seq::empty());
}

/// Cutting the bytes short leaves a byte string that stood there whole, as
/// far as the cut allows; cut inside it, it is found cut.
pub proof fn lemma_fit_cut(full: Seq<u8>, len: int, at: int, lit: Seq<u8>)
    requires
        0 <= at <= len <= full.len(),
        fit(full, at, lit) is Whole,
    ensures
        fit(full.take(len), at, lit) == if at + lit.len() <= len {
            Fit::Whole
        } else {
            Fit::Cut
        },
{
    let bytes = full.take(len);
    if at + lit.len() <= len {
        assert(bytes.subrange(at, at + lit.len()) =~= full.subrange(at, at + lit.len()));
    } else {
        let whole = full.subrange(at, at + lit.len());
        assert(bytes.subrange(at, len) =~= whole.subrange(0, len - at));
    }
}

/// A byte string that is found whole in the bytes cut short stood there before.
pub proof fn lemma_fit_keeps(full: Seq<u8>, len: int, at: int, lit: Seq<u8>)
    requires
        0 <= len <= full.len(),
        fit(full.take(len), at, lit) is Whole,
    ensures
        fit(full, at, lit) is Whole,
{
    let bytes = full.take(len);
    assert(bytes.subrange(at, at + lit.len()) =~= full.subrange(at, at + lit.len()));
}

/// Two byte strings with different first bytes are not both found at one place.
pub proof fn lemma_fit_apart(bytes: Seq<u8>, at: int, one: Seq<u8>, other: Seq<u8>)
    requires
        one.len() > 0,
        other.len() > 0,
        one[0] != other[0],
        fit(bytes, at, one) is Whole,
    ensures
        !(fit(bytes, at, other) is Whole),
{
    assert(bytes.subrange(at, at + one.len())[0] == bytes[at]);
    if fit(bytes, at, other) is Whole {
        assert(bytes.subrange(at, at + other.len())[0] == bytes[at]);
    }
}

/// Cutting the bytes short does not change a message tag that was read, only
/// whether it is all there.
pub proof fn lemma_message_cut(full: Seq<u8>, len: int, at: int)
    requires
        0 <= at <= len <= full.len(),
        parse_message(full, at) is Done,
    ensures
        parse_message(full.take(len), at) == if parse_message(full, at)->end <= len {
            parse_message(full, at)
        } else {
            Parse::Short
        },
{
    let bytes = full.take(len);
    if fit(full, at, ping_bytes()) is Whole {
        lemma_fit_cut(full, len, at, ping_bytes());
        if fit(bytes, at, pong_bytes()) is Whole {
            lemma_fit_keeps(full, len, at, pong_bytes());
        }
    } else {
        lemma_fit_cut(full, len, at, pong_bytes());
        if fit(bytes, at, ping_bytes()) is Whole {
            lemma_fit_keeps(full, len, at, ping_bytes());
        }
    }
}

/// Cutting the bytes short does not change a header that was read, only
/// whether it is all there.
pub proof fn lemma_text_head_cut(full: Seq<u8>, len: int, at: int)
    requires
        0 <= at <= len <= full.len(),
        parse_text_head(full, at) is Done,
    ensures
        parse_text_head(full.take(len), at) == if parse_text_head(full, at)->end <= len {
            parse_text_head(full, at)
        } else {
            Parse::Short
        },
{
    let bytes = full.take(len);
    if at < len {
        assert(bytes[at] == full[at]);
        if full[at] >= 0x78 {
            let width = width_of(full[at]);
            if at + 1 + width <= len {
                assert(bytes.subrange(at + 1, at + 1 + width) =~= full.subrange(
                    at + 1,
                    at + 1 + width,
                ));
            }
        }
    }
}

/// Cutting the bytes short does not change a text that was read, only
/// whether it is all there.
pub proof fn lemma_text_cut(full: Seq<u8>, len: int, at: int)
    requires
        0 <= at <= len <= full.len(),
        parse_text(full, at) is Done,
    ensures
        parse_text(full.take(len), at) == if parse_text(full, at)->end <= len {
            parse_text(full, at)
        } else {
            Parse::Short
        },
{
    let bytes = full.take(len);
    lemma_text_head_cut(full, len, at);
    let n = parse_text_head(full, at)->value;
    let from = parse_text_head(full, at)->end;
    if from + n <= len {
        assert(bytes.subrange(from, from + n) =~= full.subrange(from, from + n));
    }
}

/// Cutting the bytes short does not change a failure field that was read,
/// only whether it is all there.
#[verifier::rlimit(40)]
pub proof fn lemma_error_cut(full: Seq<u8>, len: int, at: int)
    requires
        0 <= at <= len <= full.len(),
        parse_error(full, at) is Done,
    ensures
        parse_error(full.take(len), at) == if parse_error(full, at)->end <= len {
            parse_error(full, at)
        } else {
            Parse::Short
        },
{
    let bytes = full.take(len);
    let chosen = if fit(full, at, null_bytes()) is Whole {
        null_bytes()
    } else if fit(full, at, stuff_broke_bytes()) is Whole {
        stuff_broke_bytes()
    } else if fit(full, at, codec_failure_bytes()) is Whole {
        codec_failure_bytes()
    } else {
        io_failure_head()
    };
    lemma_fit_cut(full, len, at, chosen);
    if fit(bytes, at, null_bytes()) is Whole {
        lemma_fit_keeps(full, len, at, null_bytes());
        if chosen != null_bytes() {
            lemma_fit_apart(full, at, chosen, null_bytes());
        }
    }
    if fit(bytes, at, stuff_broke_bytes()) is Whole {
        lemma_fit_keeps(full, len, at, stuff_broke_bytes());
        if chosen != stuff_broke_bytes() {
            lemma_fit_apart(full, at, chosen, stuff_broke_bytes());
        }
    }
    if fit(bytes, at, codec_failure_bytes()) is Whole {
        lemma_fit_keeps(full, len, at, codec_failure_bytes());
        if chosen != codec_failure_bytes() {
            lemma_fit_apart(full, at, chosen, codec_failure_bytes());
        }
    }
    if fit(bytes, at, io_failure_head()) is Whole {
        lemma_fit_keeps(full, len, at, io_failure_head());
        if chosen != io_failure_head() {
            lemma_fit_apart(full, at, chosen, io_failure_head());
        }
        lemma_text_cut(full, len, at + 18);
    }
    if chosen == io_failure_head() {
        lemma_text_exact(full, at + 18);
    }
}

/// Cutting the bytes short does not change a request that was read, only
/// whether it is all there.
pub proof fn lemma_request_cut(full: Seq<u8>, len: int)
    requires
        0 <= len <= full.len(),
        parse_request(full) is Done,
    ensures
        parse_request(full.take(len)) == if parse_request(full)->end <= len {
            parse_request(full)
        } else {
            Parse::Short
        },
{
    lemma_fit_cut(full, len, 0, request_head());
    if 9 <= len {
        lemma_message_cut(full, len, 9);
    }
}

/// Cutting the bytes short does not change a response that was read, only
/// whether it is all there.
#[verifier::rlimit(40)]
pub proof fn lemma_response_cut(full: Seq<u8>, len: int)
    requires
        0 <= len <= full.len(),
        parse_response(full) is Done,
    ensures
        parse_response(full.take(len)) == if parse_response(full)->end <= len {
            parse_response(full)
        } else {
            Parse::Short
        },
{
    lemma_message_exact(full, 9);
    let mid = parse_message(full, 9)->end;
    lemma_error_exact(full, mid + 6);
    lemma_fit_cut(full, len, 0, response_head());
    if 9 <= len {
        lemma_message_cut(full, len, 9);
        if mid <= len {
            lemma_fit_cut(full, len, mid, error_key());
            if mid + 6 <= len {
                lemma_error_cut(full, len, mid + 6);
            }
        }
    }
}

/// A request whose bytes stop early reads as incomplete, never as a request
/// and never as malformed.
pub proof fn lemma_request_truncated(request: SocketRequest, len: int)
    requires
        0 <= len < request_bytes(request).len(),
    ensures
        parse_request(request_bytes(request).take(len)) is Short,
{
    let full = request_bytes(request);
    lemma_request_round_trip(request, Seq::empty());
    assert(full + Seq::<u8>::empty() =~= full);
    lemma_request_cut(full, len);
}

/// A response whose bytes stop early reads as incomplete, never as a
/// response and never as malformed.
pub proof fn lemma_response_truncated(response: ResponseView, len: int)
    requires
        writable(response),
        0 <= len < response_bytes(response).len(),
    ensures
        parse_response(response_bytes(response).take(len)) is Short,
{
    let full = response_bytes(response);
    lemma_response_round_trip(response, Seq::empty());
    assert(full + Seq::<u8>::empty() =~= full);
    lemma_response_cut(full, len);
}

/// A request is decoded exactly where the wire form of some request stands
/// at the front of the bytes.
pub proof fn lemma_request_done_iff(bytes: Seq<u8>)
    ensures
        parse_request(bytes) is Done <==> starts_with_request(bytes),
{
    if parse_request(bytes) is Done {
        lemma_request_exact(bytes);
        let r = parse_request(bytes)->value;
        assert(fit(bytes, 0, request_bytes(r)) is Whole);
    }
    if starts_with_request(bytes) {
        let r = choose|r: SocketRequest| fit(bytes, 0, #[trigger] request_bytes(r)) is Whole;
        let rest = bytes.skip(request_bytes(r).len() as int);
        assert(bytes =~= request_bytes(r) + rest);
        lemma_request_round_trip(r, rest);
    }
}

/// A response is decoded exactly where the wire form of some response stands
/// at the front of the bytes.
pub proof fn lemma_response_done_iff(bytes: Seq<u8>)
    ensures
        parse_response(bytes) is Done <==> starts_with_response(bytes),
{
    if parse_response(bytes) is Done {
        lemma_response_exact(bytes);
        let r = parse_response(bytes)->value;
        assert(writable(r) && fit(bytes, 0, response_bytes(r)) is Whole);
    }
    if starts_with_response(bytes) {
        let r = choose|r: ResponseView|
            writable(r) && fit(bytes, 0, #[trigger] response_bytes(r)) is Whole;
        let rest = bytes.skip(response_bytes(r).len() as int);
        assert(bytes =~= response_bytes(r) + rest);
        lemma_response_round_trip(r, rest);
    }
}

} // verus!
