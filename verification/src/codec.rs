//! The wire codec: each envelope as a self-delimiting CBOR item, written to
//! and read from plain bytes.
//!
//! A request is a map of one entry, a response a map of two; the keys are the
//! field names as text, a message tag is its name as text. An absent failure
//! is null, a failure without data is its name as text, and an I/O failure is
//! a map from its name to a map that holds its description. Lengths are
//! written in their shortest form, and only that form is read back.

use vstd::prelude::*;
use vstd::utf8::*;
use vstd::string::*;
use crate::message::{SocketMessage, CborSocketExampleError, ErrorView, SocketRequest,
    SocketResponse, ResponseView};
use crate::round_trip::{lemma_request_exact, lemma_response_exact, lemma_request_done_iff,
    lemma_response_done_iff};

verus! {

/// The outcome of reading one item from the front of a byte sequence.
pub enum Parse<T> {
    /// An item stands at the front; it ends before index `end`.
    Done { value: T, end: int },
    /// The bytes stop inside what may still become an item.
    Short,
    /// No item can start with these bytes.
    Bad,
}

/// How a fixed byte string lies in a byte sequence at some index.
#[derive(Clone, Copy, Debug, PartialEq, Eq, Structural)]
pub enum Fit {
    /// All of it stands there.
    Whole,
    /// The sequence ends inside it, and agrees with it up to there.
    Cut,
    /// It does not stand there.
    Off,
}

/// The header of a map of one entry, and the key `message`.
pub open spec fn request_head() -> Seq<u8> {
    seq![0xa1u8, 0x67, 0x6d, 0x65, 0x73, 0x73, 0x61, 0x67, 0x65]
}

/// The header of a map of two entries, and the key `message`.
pub open spec fn response_head() -> Seq<u8> {
    seq![0xa2u8, 0x67, 0x6d, 0x65, 0x73, 0x73, 0x61, 0x67, 0x65]
}

/// The text `Ping`.
pub open spec fn ping_bytes() -> Seq<u8> {
    seq![0x64u8, 0x50, 0x69, 0x6e, 0x67]
}

/// The text `Pong`.
pub open spec fn pong_bytes() -> Seq<u8> {
    seq![0x64u8, 0x50, 0x6f, 0x6e, 0x67]
}

/// The key `error`.
pub open spec fn error_key() -> Seq<u8> {
    seq![0x65u8, 0x65, 0x72, 0x72, 0x6f, 0x72]
}

/// The null item.
pub open spec fn null_bytes() -> Seq<u8> {
    seq![0xf6u8]
}

/// The text `StuffBroke`.
pub open spec fn stuff_broke_bytes() -> Seq<u8> {
    seq![0x6au8, 0x53, 0x74, 0x75, 0x66, 0x66, 0x42, 0x72, 0x6f, 0x6b, 0x65]
}

/// The text `CborSerializationError`.
pub open spec fn codec_failure_bytes() -> Seq<u8> {
    seq![
        0x76u8, 0x43, 0x62, 0x6f, 0x72, 0x53, 0x65, 0x72, 0x69, 0x61, 0x6c, 0x69,
        0x7a, 0x61, 0x74, 0x69, 0x6f, 0x6e, 0x45, 0x72, 0x72, 0x6f, 0x72,
    ]
}

/// A map of one entry with the key `IoError`, then a map of one entry with
/// the key `message`.
pub open spec fn io_failure_head() -> Seq<u8> {
    seq![
        0xa1u8, 0x67, 0x49, 0x6f, 0x45, 0x72, 0x72, 0x6f, 0x72,
        0xa1, 0x67, 0x6d, 0x65, 0x73, 0x73, 0x61, 0x67, 0x65,
    ]
}

/// The last `width` base-256 digits of `n`, the most significant first.
pub open spec fn be_bytes(n: nat, width: nat) -> Seq<u8>
    decreases width,
{
    if width == 0 {
        Seq::empty()
    } else {
        be_bytes(n / 256, (width - 1) as nat).push((n % 256) as u8)
    }
}

/// The number whose base-256 digits are `digits`, the most significant first.
pub open spec fn be_value(digits: Seq<u8>) -> nat
    decreases digits.len(),
{
    if digits.len() == 0 {
        0
    } else {
        be_value(digits.drop_last()) * 256 + digits.last() as nat
    }
}

/// The number of values that `width` base-256 digits can tell apart.
pub open spec fn span(width: nat) -> nat
    decreases width,
{
    if width == 0 {
        1
    } else {
        256 * span((width - 1) as nat)
    }
}

/// The least length that is written with `width` digits after the first byte.
pub open spec fn least_for(width: nat) -> nat {
    if width == 1 {
        24
    } else if width == 2 {
        0x100
    } else if width == 4 {
        0x1_0000
    } else {
        0x1_0000_0000
    }
}

/// The number of digits that follow the first byte `b` of a text header.
pub open spec fn width_of(b: u8) -> nat {
    if b == 0x78 {
        1
    } else if b == 0x79 {
        2
    } else if b == 0x7a {
        4
    } else {
        8
    }
}

/// The header of a text of `n` bytes, in its shortest form.
pub open spec fn text_head(n: nat) -> Seq<u8> {
    if n < 24 {
        seq![(0x60 + n) as u8]
    } else if n < 0x100 {
        seq![0x78u8] + be_bytes(n, 1)
    } else if n < 0x1_0000 {
        seq![0x79u8] + be_bytes(n, 2)
    } else if n < 0x1_0000_0000 {
        seq![0x7au8] + be_bytes(n, 4)
    } else {
        seq![0x7bu8] + be_bytes(n, 8)
    }
}

/// A text item: its header, then its characters in UTF-8.
pub open spec fn text_bytes(text: Seq<char>) -> Seq<u8> {
    text_head(encode_utf8(text).len()) + encode_utf8(text)
}

/// The wire form of a message tag.
pub open spec fn message_bytes(m: SocketMessage) -> Seq<u8> {
    match m {
        SocketMessage::Ping => ping_bytes(),
        SocketMessage::Pong => pong_bytes(),
    }
}

/// The wire form of the failure field of a response.
pub open spec fn error_bytes(e: Option<ErrorView>) -> Seq<u8> {
    match e {
        None => null_bytes(),
        Some(ErrorView::StuffBroke) => stuff_broke_bytes(),
        Some(ErrorView::CborSerializationError) => codec_failure_bytes(),
        Some(ErrorView::IoError { message }) => io_failure_head() + text_bytes(message),
    }
}

/// The wire form of a request.
pub open spec fn request_bytes(r: SocketRequest) -> Seq<u8> {
    request_head() + message_bytes(r.message)
}

/// The wire form of a response.
pub open spec fn response_bytes(r: ResponseView) -> Seq<u8> {
    response_head() + message_bytes(r.message) + error_key() + error_bytes(r.error)
}

/// Whether a response can be written: the UTF-8 form of its description, if
/// it has one, has a length that eight digits hold.
pub open spec fn writable(r: ResponseView) -> bool {
    r.error matches Some(ErrorView::IoError { message }) ==> encode_utf8(message).len() < span(8)
}

/// How `lit` lies in `bytes` at index `at`.
pub open spec fn fit(bytes: Seq<u8>, at: int, lit: Seq<u8>) -> Fit {
    if 0 <= at && at + lit.len() <= bytes.len() {
        if bytes.subrange(at, at + lit.len()) == lit {
            Fit::Whole
        } else {
            Fit::Off
        }
    } else if 0 <= at <= bytes.len() && bytes.subrange(at, bytes.len() as int) == lit.subrange(
        0,
        bytes.len() - at,
    ) {
        Fit::Cut
    } else {
        Fit::Off
    }
}

/// Whether the wire form of some request stands at the front of `bytes`.
pub open spec fn starts_with_request(bytes: Seq<u8>) -> bool {
    exists|r: SocketRequest| fit(bytes, 0, #[trigger] request_bytes(r)) is Whole
}

/// Whether the wire form of some response that can be written stands at the
/// front of `bytes`.
pub open spec fn starts_with_response(bytes: Seq<u8>) -> bool {
    exists|r: ResponseView| writable(r) && fit(bytes, 0, #[trigger] response_bytes(r)) is Whole
}

/// Reads the header of a text at index `at`: the length of the text in bytes.
pub open spec fn parse_text_head(bytes: Seq<u8>, at: int) -> Parse<nat> {
    if at < 0 || at >= bytes.len() {
        Parse::Short
    } else if 0x60 <= bytes[at] < 0x78 {
        Parse::Done { value: (bytes[at] - 0x60) as nat, end: at + 1 }
    } else if 0x78 <= bytes[at] <= 0x7b {
        let width = width_of(bytes[at]);
        if at + 1 + width > bytes.len() {
            Parse::Short
        } else {
            let n = be_value(bytes.subrange(at + 1, at + 1 + width));
            if n >= least_for(width) {
                Parse::Done { value: n, end: at + 1 + width }
            } else {
                Parse::Bad
            }
        }
    } else {
        Parse::Bad
    }
}

/// Reads a text item at index `at`.
pub open spec fn parse_text(bytes: Seq<u8>, at: int) -> Parse<Seq<char>> {
    match parse_text_head(bytes, at) {
        Parse::Done { value: n, end } => {
            if end + n > bytes.len() {
                Parse::Short
            } else if valid_utf8(bytes.subrange(end, end + n)) {
                Parse::Done { value: decode_utf8(bytes.subrange(end, end + n)), end: end + n }
            } else {
                Parse::Bad
            }
        },
        Parse::Short => Parse::Short,
        Parse::Bad => Parse::Bad,
    }
}

/// Reads a message tag at index `at`.
pub open spec fn parse_message(bytes: Seq<u8>, at: int) -> Parse<SocketMessage> {
    if fit(bytes, at, ping_bytes()) is Whole {
        Parse::Done { value: SocketMessage::Ping, end: at + 5 }
    } else if fit(bytes, at, pong_bytes()) is Whole {
        Parse::Done { value: SocketMessage::Pong, end: at + 5 }
    } else if fit(bytes, at, ping_bytes()) is Cut || fit(bytes, at, pong_bytes()) is Cut {
        Parse::Short
    } else {
        Parse::Bad
    }
}

/// Reads the failure field of a response at index `at`.
pub open spec fn parse_error(bytes: Seq<u8>, at: int) -> Parse<Option<ErrorView>> {
    if fit(bytes, at, null_bytes()) is Whole {
        Parse::Done { value: None, end: at + 1 }
    } else if fit(bytes, at, stuff_broke_bytes()) is Whole {
        Parse::Done { value: Some(ErrorView::StuffBroke), end: at + 11 }
    } else if fit(bytes, at, codec_failure_bytes()) is Whole {
        Parse::Done { value: Some(ErrorView::CborSerializationError), end: at + 23 }
    } else if fit(bytes, at, io_failure_head()) is Whole {
        match parse_text(bytes, at + 18) {
            Parse::Done { value, end } => Parse::Done {
                value: Some(ErrorView::IoError { message: value }),
                end,
            },
            Parse::Short => Parse::Short,
            Parse::Bad => Parse::Bad,
        }
    } else if fit(bytes, at, null_bytes()) is Cut || fit(bytes, at, stuff_broke_bytes()) is Cut
        || fit(bytes, at, codec_failure_bytes()) is Cut || fit(bytes, at, io_failure_head())
        is Cut {
        Parse::Short
    } else {
        Parse::Bad
    }
}

/// Reads one request from the front of `bytes`.
pub open spec fn parse_request(bytes: Seq<u8>) -> Parse<SocketRequest> {
    match fit(bytes, 0, request_head()) {
        Fit::Whole => match parse_message(bytes, 9) {
            Parse::Done { value, end } => Parse::Done {
                value: SocketRequest { message: value },
                end,
            },
            Parse::Short => Parse::Short,
            Parse::Bad => Parse::Bad,
        },
        Fit::Cut => Parse::Short,
        Fit::Off => Parse::Bad,
    }
}

/// Reads one response from the front of `bytes`.
pub open spec fn parse_response(bytes: Seq<u8>) -> Parse<ResponseView> {
    match fit(bytes, 0, response_head()) {
        Fit::Whole => match parse_message(bytes, 9) {
            Parse::Done { value: message, end } => match fit(bytes, end, error_key()) {
                Fit::Whole => match parse_error(bytes, end + 6) {
                    Parse::Done { value: error, end } => Parse::Done {
                        value: ResponseView { message, error },
                        end,
                    },
                    Parse::Short => Parse::Short,
                    Parse::Bad => Parse::Bad,
                },
                Fit::Cut => Parse::Short,
                Fit::Off => Parse::Bad,
            },
            Parse::Short => Parse::Short,
            Parse::Bad => Parse::Bad,
        },
        Fit::Cut => Parse::Short,
        Fit::Off => Parse::Bad,
    }
}

/// The outcome of decoding one envelope from the front of a buffer.
#[derive(Clone, Debug, PartialEq, Eq)]
pub enum Decoded<T> {
    /// An envelope, and the number of bytes that it took.
    Complete(T, usize),
    /// The buffer stops inside what may still become an envelope.
    Incomplete,
    /// No envelope can start with these bytes.
    Malformed,
}

impl<T: View> View for Decoded<T> {
    type V = Parse<T::V>;

    open spec fn view(&self) -> Parse<T::V> {
        match self {
            Decoded::Complete(value, end) => Parse::Done { value: value@, end: *end as int },
            Decoded::Incomplete => Parse::Short,
            Decoded::Malformed => Parse::Bad,
        }
    }
}

/// `core::str::from_utf8`, which accepts exactly the byte strings that are
/// well-formed UTF-8 and then gives the text that they encode; the text is
/// copied into a `String`.
#[verifier::external_body]
fn text_of_utf8(bytes: &[u8]) -> (text: Option<String>)
    ensures
        text is Some <==> valid_utf8(bytes@),
        text matches Some(s) ==> s@ == decode_utf8(bytes@),
{
    match core::str::from_utf8(bytes) {
        Ok(s) => Some(String::from(s)),
        Err(_) => None,
    }
}

fn request_head_vec() -> (v: Vec<u8>)
    ensures
        v@ == request_head(),
{
    let v = vec![0xa1u8, 0x67, 0x6d, 0x65, 0x73, 0x73, 0x61, 0x67, 0x65];
    assert(v@ =~= request_head());
    v
}

fn response_head_vec() -> (v: Vec<u8>)
    ensures
        v@ == response_head(),
{
    let v = vec![0xa2u8, 0x67, 0x6d, 0x65, 0x73, 0x73, 0x61, 0x67, 0x65];
    assert(v@ =~= response_head());
    v
}

fn ping_vec() -> (v: Vec<u8>)
    ensures
        v@ == ping_bytes(),
{
    let v = vec![0x64u8, 0x50, 0x69, 0x6e, 0x67];
    assert(v@ =~= ping_bytes());
    v
}

fn pong_vec() -> (v: Vec<u8>)
    ensures
        v@ == pong_bytes(),
{
    let v = vec![0x64u8, 0x50, 0x6f, 0x6e, 0x67];
    assert(v@ =~= pong_bytes());
    v
}

fn error_key_vec() -> (v: Vec<u8>)
    ensures
        v@ == error_key(),
{
    let v = vec![0x65u8, 0x65, 0x72, 0x72, 0x6f, 0x72];
    assert(v@ =~= error_key());
    v
}

fn null_vec() -> (v: Vec<u8>)
    ensures
        v@ == null_bytes(),
{
    let v = vec![0xf6u8];
    assert(v@ =~= null_bytes());
    v
}

fn stuff_broke_vec() -> (v: Vec<u8>)
    ensures
        v@ == stuff_broke_bytes(),
{
    let v = vec![0x6au8, 0x53, 0x74, 0x75, 0x66, 0x66, 0x42, 0x72, 0x6f, 0x6b, 0x65];
    assert(v@ =~= stuff_broke_bytes());
    v
}

fn codec_failure_vec() -> (v: Vec<u8>)
    ensures
        v@ == codec_failure_bytes(),
{
    let v = vec![
        0x76u8, 0x43, 0x62, 0x6f, 0x72, 0x53, 0x65, 0x72, 0x69, 0x61, 0x6c, 0x69,
        0x7a, 0x61, 0x74, 0x69, 0x6f, 0x6e, 0x45, 0x72, 0x72, 0x6f, 0x72,
    ];
    assert(v@ =~= codec_failure_bytes());
    v
}

fn io_failure_head_vec() -> (v: Vec<u8>)
    ensures
        v@ == io_failure_head(),
{
    let v = vec![
        0xa1u8, 0x67, 0x49, 0x6f, 0x45, 0x72, 0x72, 0x6f, 0x72,
        0xa1, 0x67, 0x6d, 0x65, 0x73, 0x73, 0x61, 0x67, 0x65,
    ];
    assert(v@ =~= io_failure_head());
    v
}

/// Appends `part` to `out`.
fn push_all(out: &mut Vec<u8>, part: &[u8])
    ensures
        final(out)@ == old(out)@ + part@,
{
    out.extend_from_slice(part);
    assert(out@ =~= old(out)@ + part@);
}

/// Appends the last `width` base-256 digits of `n` to `out`.
fn push_be(out: &mut Vec<u8>, n: u64, width: usize)
    ensures
        final(out)@ == old(out)@ + be_bytes(n as nat, width as nat),
    decreases width,
{
    if width > 0 {
        push_be(out, n / 256, width - 1);
        out.push((n % 256) as u8);
        assert(out@ =~= old(out)@ + be_bytes(n as nat, width as nat));
    } else {
        assert(out@ =~= old(out)@ + be_bytes(n as nat, width as nat));
    }
}

/// Appends the header of a text of `n` bytes to `out`.
fn push_text_head(out: &mut Vec<u8>, n: u64)
    ensures
        final(out)@ == old(out)@ + text_head(n as nat),
{
    if n < 24 {
        out.push((0x60 + n) as u8);
    } else if n < 0x100 {
        out.push(0x78u8);
        push_be(out, n, 1);
    } else if n < 0x1_0000 {
        out.push(0x79u8);
        push_be(out, n, 2);
    } else if n < 0x1_0000_0000 {
        out.push(0x7au8);
        push_be(out, n, 4);
    } else {
        out.push(0x7bu8);
        push_be(out, n, 8);
    }
    assert(out@ =~= old(out)@ + text_head(n as nat));
}

/// Appends `text` as a text item to `out`.
fn push_text(out: &mut Vec<u8>, text: &str)
    ensures
        final(out)@ == old(out)@ + text_bytes(text@),
        encode_utf8(text@).len() <= u64::MAX,
{
    let raw = text.as_bytes();
    push_text_head(out, raw.len() as u64);
    push_all(out, raw);
    assert(out@ =~= old(out)@ + text_bytes(text@));
}

/// Appends the wire form of a message tag to `out`.
fn push_message(out: &mut Vec<u8>, m: SocketMessage)
    ensures
        final(out)@ == old(out)@ + message_bytes(m),
{
    match m {
        SocketMessage::Ping => push_all(out, ping_vec().as_slice()),
        SocketMessage::Pong => push_all(out, pong_vec().as_slice()),
    }
}

/// The wire form of `request`.
pub fn encode_request(request: &SocketRequest) -> (out: Vec<u8>)
    ensures
        out@ == request_bytes(*request),
{
    let mut out = request_head_vec();
    push_message(&mut out, request.message);
    out
}

/// The wire form of `response`.
pub fn encode_response(response: &SocketResponse) -> (out: Vec<u8>)
    ensures
        out@ == response_bytes(response@),
        writable(response@),
{
    let mut out = response_head_vec();
    push_message(&mut out, response.message);
    push_all(&mut out, error_key_vec().as_slice());
    match &response.error {
        None => push_all(&mut out, null_vec().as_slice()),
        Some(CborSocketExampleError::StuffBroke) => push_all(
            &mut out,
            stuff_broke_vec().as_slice(),
        ),
        Some(CborSocketExampleError::CborSerializationError) => push_all(
            &mut out,
            codec_failure_vec().as_slice(),
        ),
        Some(CborSocketExampleError::IoError { message }) => {
            push_all(&mut out, io_failure_head_vec().as_slice());
            push_text(&mut out, message.as_str());
            proof {
                lemma_span_values();
            }
        },
    }
    assert(out@ =~= response_bytes(response@));
    out
}

/// The values of `span` at the widths that a header uses.
pub proof fn lemma_span_values()
    ensures
        span(0) == 1,
        span(1) == 0x100,
        span(2) == 0x1_0000,
        span(4) == 0x1_0000_0000,
        span(8) == 0x1_0000_0000_0000_0000,
{
    reveal_with_fuel(span, 9);
}

/// How `lit` lies in `bytes` at index `at`.
fn fit_at(bytes: &[u8], at: usize, lit: &[u8]) -> (r: Fit)
    requires
        at <= bytes.len(),
    ensures
        r == fit(bytes@, at as int, lit@),
{
    let rest = bytes.len() - at;
    let n = if lit.len() <= rest { lit.len() } else { rest };
    let mut i: usize = 0;
    while i < n
        invariant
            i <= n,
            n <= lit.len(),
            at + n <= bytes.len(),
            n == if lit.len() <= bytes.len() - at { lit.len() } else { (bytes.len() - at) as usize },
            forall|j: int| 0 <= j < i ==> bytes@[at + j] == lit@[j],
        decreases n - i,
    {
        if bytes[at + i] != lit[i] {
            proof {
                let got = bytes@.subrange(at as int, at + n);
                let want = lit@.subrange(0, n as int);
                assert(got[i as int] != want[i as int]);
            }
            return Fit::Off;
        }
        i += 1;
    }
    proof {
        assert(bytes@.subrange(at as int, at + n) =~= lit@.subrange(0, n as int));
        if lit.len() <= rest {
            assert(lit@.subrange(0, n as int) =~= lit@);
        }
    }
    if lit.len() <= rest {
        Fit::Whole
    } else {
        Fit::Cut
    }
}

/// The number whose base-256 digits are `bytes[from..to]`.
fn read_be(bytes: &[u8], from: usize, to: usize) -> (n: u64)
    requires
        from <= to <= bytes.len(),
        to - from <= 8,
    ensures
        n == be_value(bytes@.subrange(from as int, to as int)),
{
    let mut n: u64 = 0;
    let mut i: usize = from;
    proof {
        lemma_span_values();
        assert(bytes@.subrange(from as int, from as int).len() == 0);
    }
    while i < to
        invariant
            from <= i <= to <= bytes.len(),
            to - from <= 8,
            n == be_value(bytes@.subrange(from as int, i as int)),
            n < span((i - from) as nat),
        decreases to - i,
    {
        proof {
            let next = bytes@.subrange(from as int, i + 1);
            assert(next.drop_last() =~= bytes@.subrange(from as int, i as int));
            assert(next.last() == bytes@[i as int]);
            lemma_span_bound((i - from) as nat);
        }
        n = n * 256 + bytes[i] as u64;
        i += 1;
    }
    n
}

/// One more digit multiplies `span` by 256, and eight digits fit in 64 bits.
proof fn lemma_span_bound(width: nat)
    requires
        width < 8,
    ensures
        span(width) * 256 == span(width + 1),
        span(width + 1) <= 0x1_0000_0000_0000_0000,
{
    reveal_with_fuel(span, 9);
}

/// Reads the header of a text at index `at`.
fn read_text_head(bytes: &[u8], at: usize) -> (r: Decoded<u64>)
    requires
        at <= bytes.len(),
    ensures
        match r {
            Decoded::Complete(n, end) => parse_text_head(bytes@, at as int) == (Parse::Done {
                value: n as nat,
                end: end as int,
            }) && at < end <= bytes.len(),
            Decoded::Incomplete => parse_text_head(bytes@, at as int) is Short,
            Decoded::Malformed => parse_text_head(bytes@, at as int) is Bad,
        },
{
    if at >= bytes.len() {
        return Decoded::Incomplete;
    }
    let b = bytes[at];
    if 0x60 <= b && b < 0x78 {
        Decoded::Complete((b - 0x60) as u64, at + 1)
    } else if 0x78 <= b && b <= 0x7b {
        let width: usize = if b == 0x78 {
            1
        } else if b == 0x79 {
            2
        } else if b == 0x7a {
            4
        } else {
            8
        };
        let least: u64 = if b == 0x78 {
            24
        } else if b == 0x79 {
            0x100
        } else if b == 0x7a {
            0x1_0000
        } else {
            0x1_0000_0000
        };
        if bytes.len() - at - 1 < width {
            Decoded::Incomplete
        } else {
            let n = read_be(bytes, at + 1, at + 1 + width);
            if n >= least {
                Decoded::Complete(n, at + 1 + width)
            } else {
                Decoded::Malformed
            }
        }
    } else {
        Decoded::Malformed
    }
}

/// Reads a text item at index `at`.
fn read_text(bytes: &[u8], at: usize) -> (r: Decoded<String>)
    requires
        at <= bytes.len(),
    ensures
        r@ == parse_text(bytes@, at as int),
        r matches Decoded::Complete(_, end) ==> at < end <= bytes.len(),
{
    match read_text_head(bytes, at) {
        Decoded::Complete(n, end) => {
            if n > (bytes.len() - end) as u64 {
                Decoded::Incomplete
            } else {
                let stop = end + n as usize;
                match text_of_utf8(vstd::slice::slice_subrange(bytes, end, stop)) {
                    Some(text) => Decoded::Complete(text, stop),
                    None => Decoded::Malformed,
                }
            }
        },
        Decoded::Incomplete => Decoded::Incomplete,
        Decoded::Malformed => Decoded::Malformed,
    }
}

/// Reads a message tag at index `at`.
fn read_message(bytes: &[u8], at: usize) -> (r: Decoded<SocketMessage>)
    requires
        at <= bytes.len(),
    ensures
        r@ == parse_message(bytes@, at as int),
        r matches Decoded::Complete(_, end) ==> at < end <= bytes.len(),
{
    let ping = fit_at(bytes, at, ping_vec().as_slice());
    let pong = fit_at(bytes, at, pong_vec().as_slice());
    if ping == Fit::Whole {
        Decoded::Complete(SocketMessage::Ping, at + 5)
    } else if pong == Fit::Whole {
        Decoded::Complete(SocketMessage::Pong, at + 5)
    } else if ping == Fit::Cut || pong == Fit::Cut {
        Decoded::Incomplete
    } else {
        Decoded::Malformed
    }
}

/// Reads the failure field of a response at index `at`.
fn read_error(bytes: &[u8], at: usize) -> (r: Decoded<Option<CborSocketExampleError>>)
    requires
        at <= bytes.len(),
    ensures
        match r {
            Decoded::Complete(e, end) => parse_error(bytes@, at as int) == (Parse::Done {
                value: match e {
                    Some(e) => Some(e@),
                    None => None,
                },
                end: end as int,
            }) && at < end <= bytes.len(),
            Decoded::Incomplete => parse_error(bytes@, at as int) is Short,
            Decoded::Malformed => parse_error(bytes@, at as int) is Bad,
        },
{
    let null = fit_at(bytes, at, null_vec().as_slice());
    let stuff = fit_at(bytes, at, stuff_broke_vec().as_slice());
    let codec = fit_at(bytes, at, codec_failure_vec().as_slice());
    let io = fit_at(bytes, at, io_failure_head_vec().as_slice());
    if null == Fit::Whole {
        Decoded::Complete(None, at + 1)
    } else if stuff == Fit::Whole {
        Decoded::Complete(Some(CborSocketExampleError::StuffBroke), at + 11)
    } else if codec == Fit::Whole {
        Decoded::Complete(Some(CborSocketExampleError::CborSerializationError), at + 23)
    } else if io == Fit::Whole {
        match read_text(bytes, at + 18) {
            Decoded::Complete(message, end) => Decoded::Complete(
                Some(CborSocketExampleError::IoError { message }),
                end,
            ),
            Decoded::Incomplete => Decoded::Incomplete,
            Decoded::Malformed => Decoded::Malformed,
        }
    } else if null == Fit::Cut || stuff == Fit::Cut || codec == Fit::Cut || io == Fit::Cut {
        Decoded::Incomplete
    } else {
        Decoded::Malformed
    }
}

/// Reads one request from the front of `bytes`: the request and the number
/// of bytes that it took, or whether more bytes could still complete one.
pub fn scan_request(bytes: &[u8]) -> (r: Decoded<SocketRequest>)
    ensures
        r@ == parse_request(bytes@),
        r matches Decoded::Complete(_, end) ==> 0 < end <= bytes.len(),
{
    match fit_at(bytes, 0, request_head_vec().as_slice()) {
        Fit::Whole => match read_message(bytes, 9) {
            Decoded::Complete(message, end) => Decoded::Complete(SocketRequest { message }, end),
            Decoded::Incomplete => Decoded::Incomplete,
            Decoded::Malformed => Decoded::Malformed,
        },
        Fit::Cut => Decoded::Incomplete,
        Fit::Off => Decoded::Malformed,
    }
}

/// Reads one response from the front of `bytes`: the response and the number
/// of bytes that it took, or whether more bytes could still complete one.
pub fn scan_response(bytes: &[u8]) -> (r: Decoded<SocketResponse>)
    ensures
        r@ == parse_response(bytes@),
        r matches Decoded::Complete(_, end) ==> 0 < end <= bytes.len(),
{
    match fit_at(bytes, 0, response_head_vec().as_slice()) {
        Fit::Whole => match read_message(bytes, 9) {
            Decoded::Complete(message, end) => match fit_at(
                bytes,
                end,
                error_key_vec().as_slice(),
            ) {
                Fit::Whole => match read_error(bytes, end + 6) {
                    Decoded::Complete(error, end) => Decoded::Complete(
                        SocketResponse { message, error },
                        end,
                    ),
                    Decoded::Incomplete => Decoded::Incomplete,
                    Decoded::Malformed => Decoded::Malformed,
                },
                Fit::Cut => Decoded::Incomplete,
                Fit::Off => Decoded::Malformed,
            },
            Decoded::Incomplete => Decoded::Incomplete,
            Decoded::Malformed => Decoded::Malformed,
        },
        Fit::Cut => Decoded::Incomplete,
        Fit::Off => Decoded::Malformed,
    }
}

/// Decodes one request from the front of `bytes`, with the number of bytes
/// that it took. It succeeds exactly where the wire form of a request stands
/// at the front; anything else is a codec failure.
pub fn decode_request(bytes: &[u8]) -> (r: Result<(SocketRequest, usize), CborSocketExampleError>)
    ensures
        r is Ok <==> starts_with_request(bytes@),
        match r {
            Ok((request, end)) => parse_request(bytes@) == (Parse::Done {
                value: request,
                end: end as int,
            }) && 0 < end <= bytes.len() && bytes@.subrange(0, end as int) == request_bytes(
                request,
            ),
            Err(e) => !(parse_request(bytes@) is Done)
                && e@ == ErrorView::CborSerializationError,
        },
{
    proof {
        lemma_request_done_iff(bytes@);
    }
    match scan_request(bytes) {
        Decoded::Complete(request, end) => {
            proof {
                lemma_request_exact(bytes@);
            }
            Ok((request, end))
        },
        _ => Err(CborSocketExampleError::CborSerializationError),
    }
}

/// Decodes one response from the front of `bytes`, with the number of bytes
/// that it took. It succeeds exactly where the wire form of a response stands
/// at the front; anything else is a codec failure.
pub fn decode_response(bytes: &[u8]) -> (r: Result<
    (SocketResponse, usize),
    CborSocketExampleError,
>)
    ensures
        r is Ok <==> starts_with_response(bytes@),
        match r {
            Ok((response, end)) => parse_response(bytes@) == (Parse::Done {
                value: response@,
                end: end as int,
            }) && 0 < end <= bytes.len() && bytes@.subrange(0, end as int) == response_bytes(
                response@,
            ),
            Err(e) => !(parse_response(bytes@) is Done)
                && e@ == ErrorView::CborSerializationError,
        },
{
    proof {
        lemma_response_done_iff(bytes@);
    }
    match scan_response(bytes) {
        Decoded::Complete(response, end) => {
            proof {
                lemma_response_exact(bytes@);
            }
            Ok((response, end))
        },
        _ => Err(CborSocketExampleError::CborSerializationError),
    }
}

} // verus!
