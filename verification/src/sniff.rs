//! Reading the server name off the start of a TLS connection, without taking part in it.

use bytes::{Bytes, BytesMut};
use rustls::server::Acceptor;
use vstd::prelude::*;

verus! {

/// How the search for a server name ended.
#[derive(Clone, Copy, Debug, PartialEq, Eq, Structural)]
pub enum Outcome {
    SniFound,
    SniNotFound,
    NotTls,
    ParseError,
    Timeout,
    TooLarge,
}

impl Outcome {
    /// Whether the connection began as TLS and yet gave no client hello.
    pub open spec fn failed(self) -> bool {
        self == Outcome::ParseError || self == Outcome::Timeout || self == Outcome::TooLarge
    }

    /// The label that metrics use.
    pub open spec fn label(self) -> Seq<char> {
        match self {
            Outcome::SniFound => "sni_found"@,
            Outcome::SniNotFound => "sni_not_found"@,
            Outcome::NotTls => "not_tls"@,
            Outcome::ParseError => "parse_error"@,
            Outcome::Timeout => "timeout"@,
            Outcome::TooLarge => "too_large"@,
        }
    }

    /// Whether the connection began as TLS and yet gave no client hello.
    pub fn is_failure(self) -> (r: bool)
        ensures
            r == self.failed(),
    {
        matches!(self, Outcome::ParseError | Outcome::Timeout | Outcome::TooLarge)
    }

    /// The label that metrics use.
    pub fn as_str(self) -> (r: &'static str)
        ensures
            r@ == self.label(),
    {
        match self {
            Outcome::SniFound => "sni_found",
            Outcome::SniNotFound => "sni_not_found",
            Outcome::NotTls => "not_tls",
            Outcome::ParseError => "parse_error",
            Outcome::Timeout => "timeout",
            Outcome::TooLarge => "too_large",
        }
    }
}

/// `rustls`'s reader of client hellos.
#[verifier::external_type_specification]
#[verifier::external_body]
pub struct ExAcceptor(Acceptor);

/// The growing byte buffer of `bytes`.
#[verifier::external_type_specification]
#[verifier::external_body]
pub struct ExBytesMut(BytesMut);

/// The shared byte string of `bytes`.
#[verifier::external_type_specification]
#[verifier::external_body]
pub struct ExBytes(Bytes);

/// An answer of the acceptor: nothing yet, a client hello with or without a server name, or an
/// error.
pub type Hello = Result<Option<Option<Seq<char>>>, ()>;

/// Whether the acceptor has found nothing yet.
pub open spec fn unanswered(answer: Hello) -> bool {
    answer matches Ok(None)
}

/// The calls that an acceptor has had since it was made: the bytes on offer for each
/// `read_tls`, and `None` for each `accept`.
pub uninterp spec fn acceptor_calls(acceptor: Acceptor) -> Seq<Option<Seq<u8>>>;

/// How many of the offered bytes `Acceptor::read_tls` takes after earlier calls; `None` is an
/// error.
pub uninterp spec fn read_tls_result(calls: Seq<Option<Seq<u8>>>, offered: Seq<u8>) -> Option<
    usize,
>;

/// What `Acceptor::accept` finds in the bytes that the acceptor has taken, while no earlier call
/// has answered: nothing yet, a client hello with or without a server name, or an error.
pub uninterp spec fn accept_result(taken: Seq<u8>) -> Hello;

/// The bytes in a buffer.
pub uninterp spec fn buffer_bytes(buffer: BytesMut) -> Seq<u8>;

/// The bytes in a byte string.
pub uninterp spec fn shared_bytes(bytes: Bytes) -> Seq<u8>;

/// What the first bytes of a stream that are answered at all are answered.
pub open spec fn first_answer(bytes: Seq<u8>) -> Hello
    decreases bytes.len(),
{
    if bytes.len() == 0 {
        Ok(None)
    } else {
        match first_answer(bytes.drop_last()) {
            Ok(None) => accept_result(bytes),
            answer => answer,
        }
    }
}

/// The bytes that an acceptor has taken from what it was offered.
spec fn taken(calls: Seq<Option<Seq<u8>>>) -> Seq<u8>
    decreases calls.len(),
{
    if calls.len() == 0 {
        Seq::empty()
    } else {
        let front = calls.drop_last();
        match calls.last() {
            None => taken(front),
            Some(offered) => match read_tls_result(front, offered) {
                Some(n) => taken(front) + offered.take(n as int),
                None => taken(front),
            },
        }
    }
}

/// Whether no call of `accept` has answered yet.
spec fn waiting(calls: Seq<Option<Seq<u8>>>) -> bool
    decreases calls.len(),
{
    calls.len() > 0 ==> {
        let front = calls.drop_last();
        &&& waiting(front)
        &&& calls.last() is None ==> unanswered(accept_result(taken(front)))
    }
}

/// Whether `accept` has been called since the last read.
spec fn polled(calls: Seq<Option<Seq<u8>>>) -> bool {
    calls.len() == 0 || calls.last() is None
}

/// A handshake record: the minor version in its header, and what it carries.
#[verifier::ext_equal]
pub struct Record {
    pub minor: u8,
    pub payload: Seq<u8>,
}

/// The bytes of a record: its type, its version, the length of what it carries, and that.
pub open spec fn record_bytes(record: Record) -> Seq<u8> {
    seq![
        HANDSHAKE_RECORD,
        3,
        record.minor,
        (record.payload.len() / 256) as u8,
        (record.payload.len() % 256) as u8,
    ] + record.payload
}

/// The bytes of several records.
pub open spec fn framed(records: Seq<Record>) -> Seq<u8>
    decreases records.len(),
{
    if records.len() == 0 {
        Seq::empty()
    } else {
        framed(records.drop_last()) + record_bytes(records.last())
    }
}

/// What several records carry.
pub open spec fn message(records: Seq<Record>) -> Seq<u8>
    decreases records.len(),
{
    if records.len() == 0 {
        Seq::empty()
    } else {
        message(records.drop_last()) + records.last().payload
    }
}

/// The most bytes that the acceptor holds.
pub const HELLO_LIMIT: usize = 0xffff;

/// The most bytes that a record may carry.
pub const RECORD_LIMIT: usize = 16384;

/// The first byte of a client hello.
pub const CLIENT_HELLO: u8 = 1;

/// The length that the header of a handshake message gives for its body.
pub open spec fn body_len(message: Seq<u8>) -> int {
    message[1] * 65536 + message[2] * 256 + message[3]
}

/// Whether records carry one handshake message from its first byte to its last, and are no longer
/// than the acceptor holds.
pub open spec fn carry_message(records: Seq<Record>) -> bool {
    &&& forall|i: int|
        0 <= i < records.len() ==> 0 < (#[trigger] records[i]).payload.len() <= RECORD_LIMIT
    &&& message(records).len() >= 4
    &&& message(records).len() == 4 + body_len(message(records))
    &&& framed(records).len() <= HELLO_LIMIT
}

/// `Acceptor::default`: an acceptor that has had no call.
#[verifier::external_body]
fn acceptor_new() -> (r: Acceptor)
    ensures
        acceptor_calls(r) == Seq::<Option<Seq<u8>>>::empty(),
{
    Acceptor::default()
}

/// `Acceptor::read_tls` on a slice: takes some of the offered bytes, from the front, or fails.
/// What it does depends on the calls before it and on the bytes. It fails once `accept` has
/// answered. Where `accept` was called after each read and found nothing, at least one byte is
/// taken until the acceptor holds `HELLO_LIMIT` of them, and none after that.
#[verifier::external_body]
fn acceptor_read(acceptor: &mut Acceptor, offered: &[u8]) -> (r: Option<usize>)
    ensures
        r == read_tls_result(acceptor_calls(*old(acceptor)), offered@),
        r matches Some(n) ==> n <= offered@.len(),
        acceptor_calls(*final(acceptor)) == acceptor_calls(*old(acceptor)).push(Some(offered@)),
        !waiting(acceptor_calls(*old(acceptor))) ==> r is None,
        ({
            let calls = acceptor_calls(*old(acceptor));
            polled(calls) && waiting(calls) && offered@.len() > 0 ==> {
                &&& read_progress(r) <==> taken(calls).len() < HELLO_LIMIT
                &&& r matches Some(n) ==> taken(calls).len() + n <= HELLO_LIMIT
            }
        }),
{
    let mut rest = offered;
    acceptor.read_tls(&mut rest).ok()
}

/// `Acceptor::accept`, with the server name of the client hello that it yields. An error's alert
/// is dropped, so nothing is sent.
///
/// What it finds depends on the bytes that the acceptor has taken, however they were offered, and
/// bytes behind those that are answered do not change the answer. Once it has answered, it fails.
/// A handshake message that is not complete is not answered, and one that is complete always is,
/// in the same way however it is split over records. One that is no client hello is an error.
#[verifier::external_body]
fn acceptor_accept(acceptor: &mut Acceptor) -> (r: Result<Option<Option<String>>, ()>)
    ensures
        acceptor_calls(*final(acceptor)) == acceptor_calls(*old(acceptor)).push(None),
        !waiting(acceptor_calls(*old(acceptor))) ==> r is Err,
        waiting(acceptor_calls(*old(acceptor))) ==> {
            let bytes = taken(acceptor_calls(*old(acceptor)));
            &&& hello_view(r) == accept_result(bytes)
            &&& hello_view(r) == first_answer(bytes)
            &&& forall|a: Seq<Record>|
                carry_message(a) && bytes.len() < framed(a).len() && bytes.is_prefix_of(
                    #[trigger] framed(a),
                ) ==> unanswered(hello_view(r))
            &&& forall|a: Seq<Record>, b: Seq<Record>|
                #![trigger framed(a), framed(b)]
                carry_message(a) && carry_message(b) && message(a) == message(b)
                    && framed(a).is_prefix_of(bytes) ==> {
                    &&& hello_view(r) == first_answer(framed(b))
                    &&& !unanswered(hello_view(r))
                    &&& message(a)[0] != CLIENT_HELLO ==> r is Err
                }
        },
{
    match acceptor.accept() {
        Ok(Some(accepted)) => Ok(Some(accepted.client_hello().server_name().map(str::to_owned))),
        Ok(None) => Ok(None),
        Err(_) => Err(()),
    }
}

/// `BytesMut::new`: an empty buffer.
#[verifier::external_body]
fn buffer_new() -> (r: BytesMut)
    ensures
        buffer_bytes(r) == Seq::<u8>::empty(),
{
    BytesMut::new()
}

/// `BytesMut::len`: the number of bytes in the buffer.
#[verifier::external_body]
fn buffer_len(buffer: &BytesMut) -> (r: usize)
    ensures
        r == buffer_bytes(*buffer).len(),
{
    buffer.len()
}

/// Indexing through `BytesMut::deref`: the byte at a place in the buffer.
#[verifier::external_body]
fn buffer_byte(buffer: &BytesMut, i: usize) -> (r: u8)
    requires
        i < buffer_bytes(*buffer).len(),
    ensures
        r == buffer_bytes(*buffer)[i as int],
{
    buffer[i]
}

/// `BytesMut::extend_from_slice`: appends bytes. No buffer is longer than `isize::MAX`.
#[verifier::external_body]
fn buffer_extend(buffer: &mut BytesMut, more: &[u8])
    requires
        buffer_bytes(*old(buffer)).len() + more@.len() <= isize::MAX,
    ensures
        buffer_bytes(*final(buffer)) == buffer_bytes(*old(buffer)) + more@,
{
    buffer.extend_from_slice(more)
}

/// `BytesMut::freeze`: the same bytes, shared.
#[verifier::external_body]
fn buffer_freeze(buffer: BytesMut) -> (r: Bytes)
    ensures
        shared_bytes(r) == buffer_bytes(buffer),
{
    buffer.freeze()
}

/// An answer of the acceptor, with the name as a text.
pub open spec fn hello_view(r: Result<Option<Option<String>>, ()>) -> Hello {
    match r {
        Ok(Some(sni)) => Ok(Some(sni_view(sni))),
        Ok(None) => Ok(None),
        Err(e) => Err(e),
    }
}

/// An optional name as a text.
pub open spec fn sni_view(sni: Option<String>) -> Option<Seq<char>> {
    match sni {
        Some(name) => Some(name@),
        None => None,
    }
}

/// A server name, if there is one, and how the search ended.
pub type Finding = (Option<Seq<char>>, Outcome);

/// What a search found, with the name as a text.
pub open spec fn finding_view(r: Option<(Option<String>, Outcome)>) -> Option<Finding> {
    match r {
        Some((sni, outcome)) => Some((sni_view(sni), outcome)),
        None => None,
    }
}

/// What an answer of the acceptor means for the search; `None` lets it go on.
pub open spec fn hello_finding(answer: Hello) -> Option<Finding> {
    match answer {
        Err(_) => Some((None, Outcome::ParseError)),
        Ok(None) => None,
        Ok(Some(Some(name))) => Some((Some(name), Outcome::SniFound)),
        Ok(Some(None)) => Some((None, Outcome::SniNotFound)),
    }
}

/// What an answer of the acceptor means for the search.
pub fn judge_hello(answer: Result<Option<Option<String>>, ()>) -> (r: Option<
    (Option<String>, Outcome),
>)
    ensures
        finding_view(r) == hello_finding(hello_view(answer)),
{
    match answer {
        Err(_) => Some((None, Outcome::ParseError)),
        Ok(None) => None,
        Ok(Some(sni)) => {
            let outcome: Outcome = if sni.is_some() {
                Outcome::SniFound
            } else {
                Outcome::SniNotFound
            };
            Some((sni, outcome))
        },
    }
}

/// Whether a read took any bytes.
pub open spec fn read_progress(taken: Option<usize>) -> bool {
    taken matches Some(n) && n > 0
}

/// What is found in the bytes of a stream, if they decide the search: what they are answered, or
/// an error where the acceptor has no room for a message that goes on.
pub open spec fn stream_finding(data: Seq<u8>) -> Option<Finding> {
    if data.len() <= HELLO_LIMIT {
        hello_finding(first_answer(data))
    } else {
        match hello_finding(first_answer(data.take(HELLO_LIMIT as int))) {
            Some(finding) => Some(finding),
            None => Some((None, Outcome::ParseError)),
        }
    }
}

/// Whether a handshake message that a stream begins with decides the search, in the same way
/// however it is split over records and whatever follows it, and is an error where it is no
/// client hello.
pub open spec fn splits_agree(data: Seq<u8>) -> bool {
    forall|a: Seq<Record>, b: Seq<Record>|
        #![trigger framed(a), framed(b)]
        carry_message(a) && carry_message(b) && message(a) == message(b) && framed(
            a,
        ).is_prefix_of(data) ==> {
            &&& stream_finding(data) is Some
            &&& stream_finding(data) == hello_finding(first_answer(framed(b)))
            &&& message(a)[0] != CLIENT_HELLO ==> stream_finding(data) == Some(
                (None::<Seq<char>>, Outcome::ParseError),
            )
        }
}

/// Whether a stream that ends inside a handshake message leaves the search open.
pub open spec fn unfinished_waits(data: Seq<u8>) -> bool {
    forall|a: Seq<Record>|
        carry_message(a) && data.len() < framed(a).len() && data.is_prefix_of(
            #[trigger] framed(a),
        ) ==> stream_finding(data) is None
}

/// Whether an acceptor has taken all bytes of a stream, and they do not decide the search.
spec fn in_step(calls: Seq<Option<Seq<u8>>>, data: Seq<u8>) -> bool {
    &&& polled(calls)
    &&& waiting(calls)
    &&& taken(calls) == data
    &&& data.len() <= HELLO_LIMIT
    &&& stream_finding(data) is None
    &&& splits_agree(data)
}

/// The first byte of a TLS handshake record.
pub const HANDSHAKE_RECORD: u8 = 0x16;

/// The most bytes to read at once.
pub const READ_SIZE: usize = 4096;

/// What a [`Sniffer`] holds.
#[verifier::ext_equal]
pub struct SnifferView {
    /// The bytes consumed so far.
    pub data: Seq<u8>,
    /// How many bytes may be consumed.
    pub max_bytes: usize,
    /// Whether the consumed bytes decide the search.
    pub decided: bool,
}

/// What is to be done next.
#[derive(Debug, PartialEq, Eq)]
pub enum SniffStep {
    /// Read at least one byte and at most this many.
    Read(usize),
    /// The peer closed the connection, which ends it.
    Closed,
    /// The search is over.
    Done(Option<String>, Outcome),
}

/// A [`SniffStep`], with the name as a text.
pub enum StepView {
    Read(usize),
    Closed,
    Done(Finding),
}

impl View for SniffStep {
    type V = StepView;

    open spec fn view(&self) -> StepView {
        match self {
            SniffStep::Read(limit) => StepView::Read(*limit),
            SniffStep::Closed => StepView::Closed,
            SniffStep::Done(sni, outcome) => StepView::Done((sni_view(*sni), *outcome)),
        }
    }
}

/// The smaller of two numbers.
pub open spec fn lesser(a: int, b: int) -> int {
    if a <= b {
        a
    } else {
        b
    }
}

/// What to do while nothing is decided: read on within the limit, or give up at it.
pub open spec fn next_step(s: SnifferView) -> StepView {
    if s.data.len() < s.max_bytes {
        StepView::Read(
            lesser(
                lesser(s.max_bytes as int, READ_SIZE as int),
                s.max_bytes - s.data.len(),
            ) as usize,
        )
    } else {
        StepView::Done((None, Outcome::TooLarge))
    }
}

/// The sniffer after a read.
pub open spec fn after_chunk(s: SnifferView, chunk: Seq<u8>) -> SnifferView {
    let data = s.data + chunk;
    SnifferView {
        data,
        max_bytes: s.max_bytes,
        decided: s.decided || chunk.len() > 0 && (data[0] != HANDSHAKE_RECORD || stream_finding(
            data,
        ) is Some),
    }
}

/// What a read leads to. Plaintext is told by its first byte. Bytes behind those that decided a
/// search are no client hello.
pub open spec fn chunk_step(s: SnifferView, chunk: Seq<u8>) -> StepView {
    let data = s.data + chunk;
    if chunk.len() == 0 {
        StepView::Closed
    } else if data[0] != HANDSHAKE_RECORD {
        StepView::Done((None, Outcome::NotTls))
    } else if s.decided {
        StepView::Done((None, Outcome::ParseError))
    } else {
        match stream_finding(data) {
            Some(finding) => StepView::Done(finding),
            None => next_step(after_chunk(s, chunk)),
        }
    }
}

/// The result of a search, with every byte that it consumed.
pub struct Sniffed {
    pub sni: Option<String>,
    pub data: Bytes,
    pub outcome: Outcome,
}

/// A search for the server name in the bytes of a connection.
///
/// Collect optional metadata without completing a handshake or sending TLS alerts.
/// Every consumed byte is returned, including on timeout, invalid TLS or the size limit.
/// Socket errors and EOF still terminate the connection.
pub struct Sniffer {
    /// There until the search is decided.
    acceptor: Option<Acceptor>,
    data: BytesMut,
    max_bytes: usize,
}

impl View for Sniffer {
    type V = SnifferView;

    closed spec fn view(&self) -> SnifferView {
        SnifferView {
            data: buffer_bytes(self.data),
            max_bytes: self.max_bytes,
            decided: self.acceptor is None,
        }
    }
}

/// The records of a message are not empty, and begin with the type of a handshake record.
proof fn framed_begins(records: Seq<Record>)
    requires
        records.len() > 0,
    ensures
        framed(records).len() >= 5,
        framed(records)[0] == HANDSHAKE_RECORD,
    decreases records.len(),
{
    if records.len() > 1 {
        framed_begins(records.drop_last());
    } else {
        assert(framed(records.drop_last()) =~= Seq::<u8>::empty());
    }
}

/// An answer stands when more bytes follow.
pub proof fn answers_stand(bytes: Seq<u8>, more: Seq<u8>)
    requires
        !unanswered(first_answer(bytes)),
    ensures
        first_answer(bytes + more) == first_answer(bytes),
    decreases more.len(),
{
    if more.len() == 0 {
        assert(bytes + more =~= bytes);
    } else {
        answers_stand(bytes, more.drop_last());
        assert((bytes + more).drop_last() =~= bytes + more.drop_last());
    }
}

/// What a stream decides stands when more bytes follow.
pub proof fn findings_stand(data: Seq<u8>, more: Seq<u8>)
    requires
        stream_finding(data) is Some,
    ensures
        stream_finding(data + more) == stream_finding(data),
{
    let all = data + more;
    let n = lesser(data.len() as int, HELLO_LIMIT as int);
    let m = lesser(all.len() as int, HELLO_LIMIT as int);
    let head = data.take(n);
    assert(data.len() <= HELLO_LIMIT ==> head =~= data);
    assert(all.len() <= HELLO_LIMIT ==> all.take(m) =~= all);
    assert(all.take(m) =~= head + all.subrange(n, m));
    if !unanswered(first_answer(head)) {
        answers_stand(head, all.subrange(n, m));
    } else {
        assert(all.take(m) =~= head);
    }
}

/// Offers the next bytes of a stream to an acceptor until it has taken them all or the search is
/// decided.
fn offer(acceptor: &mut Acceptor, Ghost(before): Ghost<Seq<u8>>, chunk: &[u8]) -> (r: Option<
    (Option<String>, Outcome),
>)
    requires
        chunk@.len() > 0,
        in_step(acceptor_calls(*old(acceptor)), before),
    ensures
        finding_view(r) == stream_finding(before + chunk@),
        splits_agree(before + chunk@),
        unfinished_waits(before + chunk@),
        r is None ==> in_step(acceptor_calls(*final(acceptor)), before + chunk@),
{
    let ghost data = before + chunk@;
    let mut at: usize = 0;
    assert(before + chunk@.take(0) =~= before);
    while at < chunk.len()
        invariant
            at <= chunk@.len(),
            data == before + chunk@,
            in_step(acceptor_calls(*acceptor), before + chunk@.take(at as int)),
        decreases chunk.len() - at,
    {
        let ghost calls = acceptor_calls(*acceptor);
        let ghost had = before + chunk@.take(at as int);
        let rest: &[u8] = vstd::slice::slice_subrange(chunk, at, chunk.len());
        assert(rest@ =~= chunk@.skip(at as int));
        let n: usize = match acceptor_read(acceptor, rest) {
            None => 0,
            Some(n) => n,
        };
        if n == 0 {
            proof {
                assert(had.len() == HELLO_LIMIT);
                assert(data.take(HELLO_LIMIT as int) =~= had);
                assert(data =~= had + rest@);
                assert(data.len() > HELLO_LIMIT);
                full_streams_agree(had, rest@);
            }
            return Some((None, Outcome::ParseError));
        }
        let ghost has = before + chunk@.take(at + n);
        let ghost read = acceptor_calls(*acceptor);
        proof {
            assert(read.drop_last() =~= calls);
            assert(had + rest@.take(n as int) =~= has);
            assert(taken(read) == has);
            assert(waiting(read));
            assert(has.len() <= HELLO_LIMIT);
        }
        let answer: Result<Option<Option<String>>, ()> = acceptor_accept(acceptor);
        proof {
            assert(acceptor_calls(*acceptor).drop_last() =~= read);
            assert(data =~= has + chunk@.skip(at + n));
            answered_streams_agree(has, chunk@.skip(at + n), hello_view(answer));
        }
        let found: Option<(Option<String>, Outcome)> = judge_hello(answer);
        if found.is_some() {
            proof {
                findings_stand(has, chunk@.skip(at + n));
            }
            return found;
        }
        at = at + n;
    }
    assert(chunk@.take(at as int) =~= chunk@);
    None
}

/// Plaintext begins with no record.
proof fn plaintext_agrees(data: Seq<u8>)
    requires
        data.len() > 0,
        data[0] != HANDSHAKE_RECORD,
    ensures
        splits_agree(data),
        unfinished_waits(data),
{
    assert forall|a: Seq<Record>, b: Seq<Record>|
        #![trigger framed(a), framed(b)]
        carry_message(a) && carry_message(b) && message(a) == message(b) && framed(
            a,
        ).is_prefix_of(data) implies false by {
        framed_begins(a);
        assert(framed(a)[0] == data[0]);
    }
    assert forall|a: Seq<Record>|
        carry_message(a) && data.len() < framed(a).len() && data.is_prefix_of(
            #[trigger] framed(a),
        ) implies false by {
        framed_begins(a);
        assert(framed(a)[0] == data[0]);
    }
}

/// A stream that the acceptor has no room for is split in no way that it would take.
proof fn full_streams_agree(had: Seq<u8>, rest: Seq<u8>)
    requires
        had.len() == HELLO_LIMIT,
        splits_agree(had),
        stream_finding(had) is None,
    ensures
        splits_agree(had + rest),
{
    assert forall|a: Seq<Record>, b: Seq<Record>|
        #![trigger framed(a), framed(b)]
        carry_message(a) && carry_message(b) && message(a) == message(b) && framed(
            a,
        ).is_prefix_of(had + rest) implies false by {
        assert(framed(a) =~= had.subrange(0, framed(a).len() as int));
        assert(framed(a).is_prefix_of(had));
    }
}

/// What `accept` says of the bytes taken so far makes splits agree on them, and, where it is an
/// answer, on the whole stream.
proof fn answered_streams_agree(has: Seq<u8>, rest: Seq<u8>, answer: Hello)
    requires
        has.len() <= HELLO_LIMIT,
        answer == first_answer(has),
        forall|a: Seq<Record>|
            carry_message(a) && has.len() < framed(a).len() && has.is_prefix_of(
                #[trigger] framed(a),
            ) ==> unanswered(answer),
        forall|a: Seq<Record>, b: Seq<Record>|
            #![trigger framed(a), framed(b)]
            carry_message(a) && carry_message(b) && message(a) == message(b) && framed(
                a,
            ).is_prefix_of(has) ==> {
                &&& answer == first_answer(framed(b))
                &&& !unanswered(answer)
                &&& message(a)[0] != CLIENT_HELLO ==> answer is Err
            },
    ensures
        splits_agree(has),
        stream_finding(has) == hello_finding(answer),
        unfinished_waits(has),
        !unanswered(answer) ==> splits_agree(has + rest) && unfinished_waits(has + rest),
{
    let data = has + rest;
    if !unanswered(answer) {
        findings_stand(has, rest);
        assert forall|a: Seq<Record>, b: Seq<Record>|
            #![trigger framed(a), framed(b)]
            carry_message(a) && carry_message(b) && message(a) == message(b) && framed(
                a,
            ).is_prefix_of(data) implies {
            &&& stream_finding(data) is Some
            &&& stream_finding(data) == hello_finding(first_answer(framed(b)))
            &&& message(a)[0] != CLIENT_HELLO ==> stream_finding(data) == Some(
                (None::<Seq<char>>, Outcome::ParseError),
            )
        } by {
            let n = framed(a).len() as int;
            assert(framed(a) =~= data.subrange(0, n));
            if has.len() < n {
                assert(has =~= framed(a).subrange(0, has.len() as int));
                assert(has.is_prefix_of(framed(a)));
            } else {
                assert(framed(a) =~= has.subrange(0, n));
                assert(framed(a).is_prefix_of(has));
            }
        }
        assert forall|a: Seq<Record>|
            carry_message(a) && data.len() < framed(a).len() && data.is_prefix_of(
                #[trigger] framed(a),
            ) implies false by {
            assert(data =~= framed(a).subrange(0, data.len() as int));
            assert(has =~= framed(a).subrange(0, has.len() as int));
            assert(has.is_prefix_of(framed(a)));
        }
    }
}

impl Sniffer {
    /// While the search is not decided, the acceptor has taken every consumed byte.
    #[verifier::type_invariant]
    spec fn valid(self) -> bool {
        self.acceptor matches Some(acceptor) ==> in_step(
            acceptor_calls(acceptor),
            buffer_bytes(self.data),
        )
    }

    /// A search that has consumed nothing and may consume up to `max_bytes`.
    pub fn new(max_bytes: usize) -> (r: Sniffer)
        ensures
            r@ == (SnifferView { data: Seq::empty(), max_bytes, decided: false }),
    {
        let acceptor: Acceptor = acceptor_new();
        proof {
            assert forall|a: Seq<Record>, b: Seq<Record>|
                #![trigger framed(a), framed(b)]
                carry_message(a) && carry_message(b) && message(a) == message(b) && framed(
                    a,
                ).is_prefix_of(Seq::<u8>::empty()) implies false by {
                framed_begins(a);
            }
        }
        Sniffer { acceptor: Some(acceptor), data: buffer_new(), max_bytes }
    }

    /// What to do while nothing is decided.
    pub fn next(&self) -> (r: SniffStep)
        ensures
            r@ == next_step(self@),
    {
        let len: usize = buffer_len(&self.data);
        if len < self.max_bytes {
            let size: usize = if self.max_bytes <= READ_SIZE {
                self.max_bytes
            } else {
                READ_SIZE
            };
            let room: usize = self.max_bytes - len;
            SniffStep::Read(if size <= room { size } else { room })
        } else {
            SniffStep::Done(None, Outcome::TooLarge)
        }
    }

    /// Takes in what a read brought; no bytes mean that the peer closed the connection. What is
    /// found in a client hello depends neither on the sizes of the reads nor on how it is split
    /// over records nor on what follows it, and a message that is not complete yet leaves the
    /// search open.
    pub fn feed(&mut self, chunk: &[u8]) -> (r: SniffStep)
        requires
            old(self)@.data.len() + chunk@.len() <= old(self)@.max_bytes,
            old(self)@.data.len() + chunk@.len() <= isize::MAX,
        ensures
            r@ == chunk_step(old(self)@, chunk@),
            final(self)@ == after_chunk(old(self)@, chunk@),
            !old(self)@.decided ==> splits_agree(final(self)@.data),
            !old(self)@.decided ==> unfinished_waits(final(self)@.data),
    {
        proof {
            use_type_invariant(&*self);
        }
        if chunk.len() == 0 {
            assert(self@.data + chunk@ =~= self@.data);
            return SniffStep::Closed;
        }
        let ghost before = self@.data;
        let mut acceptor: Option<Acceptor> = None;
        std::mem::swap(&mut acceptor, &mut self.acceptor);
        let mut data: BytesMut = buffer_new();
        std::mem::swap(&mut data, &mut self.data);
        buffer_extend(&mut data, chunk);
        // A ClientHello starts with a TLS handshake record. Reject plaintext promptly.
        let plaintext: bool = buffer_byte(&data, 0) != HANDSHAKE_RECORD;
        self.data = data;
        if plaintext {
            proof {
                plaintext_agrees(self@.data);
            }
            return SniffStep::Done(None, Outcome::NotTls);
        }
        match acceptor {
            None => SniffStep::Done(None, Outcome::ParseError),
            Some(mut acceptor) => match offer(&mut acceptor, Ghost(before), chunk) {
                Some((sni, outcome)) => SniffStep::Done(sni, outcome),
                None => {
                    self.acceptor = Some(acceptor);
                    self.next()
                },
            },
        }
    }

    /// Ends the search with what it found, and hands out the consumed bytes.
    pub fn finish(self, sni: Option<String>, outcome: Outcome) -> (r: Sniffed)
        ensures
            r.sni == sni,
            r.outcome == outcome,
            shared_bytes(r.data) == self@.data,
    {
        Sniffed { sni, data: buffer_freeze(self.data), outcome }
    }

    /// Ends the search because time is up.
    pub fn time_out(self) -> (r: Sniffed)
        ensures
            r.sni is None,
            r.outcome == Outcome::Timeout,
            shared_bytes(r.data) == self@.data,
    {
        self.finish(None, Outcome::Timeout)
    }
}

/// The sniffer after several reads.
pub open spec fn after_chunks(s: SnifferView, chunks: Seq<Seq<u8>>) -> SnifferView
    decreases chunks.len(),
{
    if chunks.len() == 0 {
        s
    } else {
        after_chunk(after_chunks(s, chunks.drop_last()), chunks.last())
    }
}

/// Whatever the acceptor makes of them, the consumed bytes are all bytes that were read, in order.
pub proof fn consumed_bytes_are_kept(s: SnifferView, chunks: Seq<Seq<u8>>)
    ensures
        after_chunks(s, chunks).data == s.data + chunks.flatten(),
        after_chunks(s, chunks).max_bytes == s.max_bytes,
    decreases chunks.len(),
{
    broadcast use vstd::seq_lib::group_seq_properties;
    if chunks.len() == 0 {
        assert(s.data + chunks.flatten() =~= s.data);
    } else {
        let front = chunks.drop_last();
        consumed_bytes_are_kept(s, front);
        chunks.lemma_flatten_and_flatten_alt_are_equivalent();
        front.lemma_flatten_and_flatten_alt_are_equivalent();
        assert(chunks.flatten() =~= front.flatten() + chunks.last());
        assert(s.data + chunks.flatten() =~= (s.data + front.flatten()) + chunks.last());
    }
}

/// A read within the limit that a step asks for keeps the consumed bytes within `max_bytes`.
pub proof fn reads_stay_within_the_limit(s: SnifferView, chunk: Seq<u8>)
    requires
        next_step(s) matches StepView::Read(limit) && chunk.len() <= limit,
    ensures
        after_chunk(s, chunk).data.len() <= s.max_bytes,
        next_step(s) matches StepView::Read(limit) && 0 < limit <= READ_SIZE,
{
}

/// A search never reads on once `max_bytes` have been consumed.
pub proof fn the_limit_ends_the_search(s: SnifferView, chunk: Seq<u8>)
    requires
        s.data.len() + chunk.len() >= s.max_bytes,
    ensures
        !(chunk_step(s, chunk) is Read),
        !(next_step(after_chunk(s, chunk)) is Read),
{
}

/// A server name is reported exactly with the outcome `SniFound`.
pub proof fn name_comes_with_its_outcome(s: SnifferView, chunk: Seq<u8>)
    ensures
        chunk_step(s, chunk) matches StepView::Done(f) ==> (f.0 is Some <==> f.1
            == Outcome::SniFound),
{
}

/// Plaintext is told from its first byte, with the first read, and decides the search.
pub proof fn plaintext_is_told_at_once(s: SnifferView, chunk: Seq<u8>)
    requires
        s.data.len() == 0,
        chunk.len() > 0,
    ensures
        chunk_step(s, chunk) == StepView::Done((None, Outcome::NotTls)) <==> chunk[0]
            != HANDSHAKE_RECORD,
        chunk[0] != HANDSHAKE_RECORD ==> after_chunk(s, chunk).decided,
{
    assert((s.data + chunk)[0] == chunk[0]);
}

/// The step that ends a search over several reads: the first that does not read on.
pub open spec fn searched(s: SnifferView, chunks: Seq<Seq<u8>>) -> Option<StepView>
    decreases chunks.len(),
{
    if chunks.len() == 0 {
        None
    } else {
        match searched(s, chunks.drop_last()) {
            Some(step) => Some(step),
            None => {
                let step = chunk_step(after_chunks(s, chunks.drop_last()), chunks.last());
                if step is Read {
                    None
                } else {
                    Some(step)
                }
            },
        }
    }
}

/// How the bytes of a stream end a search that may consume `max_bytes`, if they do.
pub open spec fn verdict(data: Seq<u8>, max_bytes: usize) -> Option<StepView> {
    if data.len() == 0 {
        None
    } else if data[0] != HANDSHAKE_RECORD {
        Some(StepView::Done((None, Outcome::NotTls)))
    } else {
        match stream_finding(data) {
            Some(finding) => Some(StepView::Done(finding)),
            None => if data.len() < max_bytes {
                None
            } else {
                Some(StepView::Done((None, Outcome::TooLarge)))
            },
        }
    }
}

/// How a search ends depends on the bytes of the stream alone, and not on the sizes of the reads
/// that bring them.
pub proof fn read_sizes_do_not_matter(s: SnifferView, chunks: Seq<Seq<u8>>)
    requires
        s.data.len() == 0,
        !s.decided,
        forall|i: int| 0 <= i < chunks.len() ==> (#[trigger] chunks[i]).len() > 0,
        chunks.flatten().len() <= s.max_bytes,
    ensures
        searched(s, chunks) == verdict(chunks.flatten(), s.max_bytes),
        searched(s, chunks) is None ==> !after_chunks(s, chunks).decided,
    decreases chunks.len(),
{
    broadcast use vstd::seq_lib::group_seq_properties;

    consumed_bytes_are_kept(s, chunks);
    if chunks.len() == 0 {
        assert(chunks.flatten() =~= Seq::<u8>::empty());
    } else {
        let front = chunks.drop_last();
        let last = chunks.last();
        chunks.lemma_flatten_and_flatten_alt_are_equivalent();
        front.lemma_flatten_and_flatten_alt_are_equivalent();
        assert(chunks.flatten() =~= front.flatten() + last);
        assert(forall|i: int| 0 <= i < front.len() ==> front[i] == chunks[i]);
        assert(chunks[chunks.len() - 1] == last);
        read_sizes_do_not_matter(s, front);
        consumed_bytes_are_kept(s, front);
        let had = front.flatten();
        assert(s.data + had =~= had);
        assert(s.data + chunks.flatten() =~= chunks.flatten());
        if had.len() > 0 {
            assert(chunks.flatten()[0] == had[0]);
            if stream_finding(had) is Some {
                findings_stand(had, last);
            }
        }
    }
}

/// A client hello is found: where the first `n` bytes of a stream are answered, within what may
/// be consumed and what the acceptor holds, that answer ends the search, whatever follows them.
pub proof fn answered_streams_end_the_search(stream: Seq<u8>, n: int, max_bytes: usize)
    requires
        0 < n <= stream.len(),
        n <= HELLO_LIMIT,
        stream[0] == HANDSHAKE_RECORD,
        !unanswered(first_answer(stream.take(n))),
    ensures
        match first_answer(stream.take(n)) {
            Err(_) => verdict(stream, max_bytes) == Some(
                StepView::Done((None, Outcome::ParseError)),
            ),
            Ok(Some(Some(name))) => verdict(stream, max_bytes) == Some(
                StepView::Done((Some(name), Outcome::SniFound)),
            ),
            _ => verdict(stream, max_bytes) == Some(StepView::Done((None, Outcome::SniNotFound))),
        },
{
    findings_stand(stream.take(n), stream.skip(n));
    assert(stream.take(n) + stream.skip(n) =~= stream);
}

/// Neither the split over records nor what follows matters: two streams that begin with the same
/// handshake message end their searches alike, and they do end them, with an error where it is no
/// client hello. That splits agree on the
/// bytes of a stream is what [`Sniffer::feed`] ensures of those that it has consumed.
pub proof fn record_splits_do_not_matter(
    stream: Seq<u8>,
    other: Seq<u8>,
    a: Seq<Record>,
    b: Seq<Record>,
    max_bytes: usize,
    other_max_bytes: usize,
)
    requires
        carry_message(a),
        carry_message(b),
        message(a) == message(b),
        framed(a).is_prefix_of(stream),
        framed(b).is_prefix_of(other),
        splits_agree(stream),
        splits_agree(other),
    ensures
        verdict(stream, max_bytes) is Some,
        verdict(stream, max_bytes) == verdict(other, other_max_bytes),
        verdict(stream, max_bytes) == (match hello_finding(first_answer(framed(a))) {
            Some(finding) => Some(StepView::Done(finding)),
            None => None,
        }),
        message(a)[0] != CLIENT_HELLO ==> verdict(stream, max_bytes) == Some(
            StepView::Done((None, Outcome::ParseError)),
        ),
{
    framed_begins(a);
    framed_begins(b);
    assert(framed(a)[0] == stream[0]);
    assert(framed(b)[0] == other[0]);
    assert(stream_finding(stream) == hello_finding(first_answer(framed(a))));
    assert(stream_finding(other) == hello_finding(first_answer(framed(b))));
}

/// A handshake message that is not complete yet keeps the search going while more bytes may be
/// consumed, and ends it as too large when none may. That a stream which ends inside a message
/// leaves the search open is what [`Sniffer::feed`] ensures of the bytes that it has consumed.
pub proof fn unfinished_messages_are_read_on(stream: Seq<u8>, a: Seq<Record>, max_bytes: usize)
    requires
        carry_message(a),
        0 < stream.len() < framed(a).len(),
        stream.is_prefix_of(framed(a)),
        unfinished_waits(stream),
    ensures
        verdict(stream, max_bytes) == (if stream.len() < max_bytes {
            None
        } else {
            Some(StepView::Done((None, Outcome::TooLarge)))
        }),
{
    framed_begins(a);
    assert(framed(a)[0] == stream[0]);
}

/// A read asks for as much as it may: 4096 bytes, or as many as are left to consume.
pub proof fn reads_ask_for_all_they_may(s: SnifferView)
    ensures
        s.data.len() < s.max_bytes <==> next_step(s) is Read,
        next_step(s) matches StepView::Read(limit) ==> {
            &&& limit <= 4096
            &&& s.data.len() + limit <= s.max_bytes
            &&& limit == 4096 || s.data.len() + limit == s.max_bytes
        },
        !(next_step(s) is Read) ==> next_step(s) == StepView::Done((None, Outcome::TooLarge)),
{
}

/// What a stream decides is what its first bytes are answered, up to what the acceptor holds; one
/// that goes on beyond that without an answer is an error, and one that does not is open.
pub proof fn streams_decide_by_their_first_answer(data: Seq<u8>)
    ensures
        data.len() <= 0xffff ==> match first_answer(data) {
            Ok(None) => stream_finding(data) is None,
            Ok(Some(Some(name))) => stream_finding(data) == Some((Some(name), Outcome::SniFound)),
            Ok(Some(None)) => stream_finding(data) == Some(
                (None::<Seq<char>>, Outcome::SniNotFound),
            ),
            Err(_) => stream_finding(data) == Some((None::<Seq<char>>, Outcome::ParseError)),
        },
        data.len() > 0xffff ==> match first_answer(data.take(0xffff)) {
            Ok(Some(Some(name))) => stream_finding(data) == Some((Some(name), Outcome::SniFound)),
            Ok(Some(None)) => stream_finding(data) == Some(
                (None::<Seq<char>>, Outcome::SniNotFound),
            ),
            _ => stream_finding(data) == Some((None::<Seq<char>>, Outcome::ParseError)),
        },
{
}

/// How a stream ends a search: as plaintext exactly where its first byte is not that of a
/// handshake record, and as too large exactly where it is undecided and no more may be consumed.
pub proof fn verdicts_tell_plaintext_and_size(data: Seq<u8>, max_bytes: usize)
    requires
        data.len() > 0,
    ensures
        verdict(data, max_bytes) == Some(StepView::Done((None, Outcome::NotTls))) <==> data[0]
            != 0x16,
        verdict(data, max_bytes) == Some(StepView::Done((None, Outcome::TooLarge))) <==> data[0]
            == 0x16 && stream_finding(data) is None && data.len() >= max_bytes,
        verdict(data, max_bytes) is None <==> data[0] == 0x16 && stream_finding(data) is None
            && data.len() < max_bytes,
{
}

/// A read that brings nothing closes the connection and consumes nothing; any other is kept whole
/// and does not.
pub proof fn empty_reads_close(s: SnifferView, chunk: Seq<u8>)
    ensures
        chunk_step(s, chunk) is Closed <==> chunk.len() == 0,
        chunk.len() == 0 ==> after_chunk(s, chunk).data == s.data && after_chunk(s, chunk).decided
            == s.decided,
        after_chunk(s, chunk).data == s.data + chunk,
        after_chunk(s, chunk).max_bytes == s.max_bytes,
{
    if chunk.len() == 0 {
        assert(s.data + chunk =~= s.data);
    }
}

/// A search fails exactly where it ends without telling whether there is a server name, though
/// the connection began as TLS.
pub proof fn failures_are_undecided_tls(outcome: Outcome)
    ensures
        !outcome.failed() <==> outcome == Outcome::SniFound || outcome == Outcome::SniNotFound
            || outcome == Outcome::NotTls,
{
}

/// Names and steps are seen as what they hold.
pub proof fn names_and_steps_are_seen(name: String, outcome: Outcome, limit: usize)
    ensures
        sni_view(Some(name)) == Some(name@),
        sni_view(None) is None,
        SniffStep::Read(limit)@ == StepView::Read(limit),
        SniffStep::Closed@ == StepView::Closed,
        SniffStep::Done(Some(name), outcome)@ == StepView::Done((Some(name@), outcome)),
        SniffStep::Done(None, outcome)@ == StepView::Done((None, outcome)),
        hello_view(Ok(Some(Some(name)))) == Ok::<Option<Option<Seq<char>>>, ()>(Some(Some(name@))),
        hello_view(Ok(Some(None))) == Ok::<Option<Option<Seq<char>>>, ()>(Some(None)),
        hello_view(Ok(None)) == Ok::<Option<Option<Seq<char>>>, ()>(None),
        hello_view(Err(())) == Err::<Option<Option<Seq<char>>>, ()>(()),
        finding_view(Some((Some(name), outcome))) == Some((Some(name@), outcome)),
        finding_view(Some((None, outcome))) == Some((None::<Seq<char>>, outcome)),
        finding_view(None) is None,
{
}

/// An answer means for a search what it says: a name is found, or there is none, or the bytes are
/// no client hello, or nothing is decided.
pub proof fn answers_mean_what_they_say(name: Seq<char>)
    ensures
        hello_finding(Ok(Some(Some(name)))) == Some((Some(name), Outcome::SniFound)),
        hello_finding(Ok(Some(None))) == Some((None::<Seq<char>>, Outcome::SniNotFound)),
        hello_finding(Err(())) == Some((None::<Seq<char>>, Outcome::ParseError)),
        hello_finding(Ok(None)) is None,
{
}

} // verus!
