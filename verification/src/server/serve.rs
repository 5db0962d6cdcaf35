//! What the transport decides: which requests a body is read for and how much of it, which accept
//! failures are served through, and what of an object goes out.

use vstd::prelude::*;

use crate::outside;
use crate::server::http;
use crate::server::http::{Answer, AnswerBody, Answered, Method, Request, SUBMIT_PATH};
use crate::server::intake;
use crate::text;
use crate::wire::journal::{ERR, WARNING};
use crate::wire::pool::PoolId;

verus! {

/// What an accept failure was about.
#[derive(Debug, Clone, Copy, PartialEq, Eq, Structural)]
pub enum AcceptFailure {
    ConnectionAborted,
    Interrupted,
    NetworkDown,
    NetworkUnreachable,
    HostUnreachable,
    /// Anything else.
    Other,
}

/// Whether an accept failure was about the connection that failed rather than about this process's
/// ability to take any: an aborted connection, an interrupted call, and the pending network errors
/// that accept hands over with the connection that carried them. Each is dequeued with that
/// connection, so none can be handed back twice and none can spin the accept loop.
///
/// A refused permission is not here. It leaves the connection queued, so continuing would spin; and
/// it is host policy rather than one client.
pub open spec fn is_about_one(failure: AcceptFailure) -> bool {
    failure != AcceptFailure::Other
}

/// Whether an accept failure was about the connection that failed: see `is_about_one`.
pub fn about_one(failure: AcceptFailure) -> (r: bool)
    ensures
        r == is_about_one(failure),
{
    match failure {
        AcceptFailure::ConnectionAborted
        | AcceptFailure::Interrupted
        | AcceptFailure::NetworkDown
        | AcceptFailure::NetworkUnreachable
        | AcceptFailure::HostUnreachable => true,
        AcceptFailure::Other => false,
    }
}

/// Whether an accept failure was about the connection that failed, by the kind of failure it is.
pub fn one_connection(error: &std::io::Error) -> (r: bool)
    ensures
        r == is_about_one(outside::accept_failure_of(*error)),
{
    about_one(outside::accept_failure(error))
}

/// What is said of a connection that was not accepted.
pub fn not_accepted_line(error: &str) -> (r: String)
    ensures
        r@ == WARNING@ + "a connection was not accepted: "@ + error@,
{
    let mut r = String::from_str(WARNING);
    r.append("a connection was not accepted: ");
    r.append(error);
    r
}

/// What is said of a connection that ended early, which may have lost an acknowledgement.
pub fn ended_line(signer: Option<PoolId>, error: &str) -> (r: String)
    ensures
        r@ == WARNING@ + "the connection last answering "@ + http::signer_text(
            http::signer_view(signer),
        ) + " ended: "@ + error@,
{
    let mut r = String::from_str(WARNING);
    r.append("the connection last answering ");
    r.append(http::named(signer).as_str());
    r.append(" ended: ");
    r.append(error);
    r
}

/// What a client that reads nothing is said to do.
pub fn stalled_text(limit_ms: u64) -> (r: String)
    ensures
        r@ == "the client read nothing for "@ + text::decimal(limit_ms as int / 1000) + "s"@,
{
    let mut r = String::from_str("the client read nothing for ");
    r.append(text::decimal_of((limit_ms / 1000) as u128).as_str());
    r.append("s");
    r
}

/// Whose a submission is, where its headers decoded.
pub open spec fn submitter(request: Request) -> Option<Seq<u8>> {
    match request.submission {
        Ok(attributed) => Some(attributed.pool_id@),
        Err(_) => None,
    }
}

/// Whose body to read, where there is one to read: a body is read for one route, and only once its
/// headers have decoded. What a client declares is never allocated, and never waited for on a
/// request already answerable.
pub fn takes_a_body(request: &Request) -> (r: Option<PoolId>)
    ensures
        http::signer_view(r) == if request.method == Method::Post && http::path_of(request.target@)
            == SUBMIT_PATH@ {
            submitter(*request)
        } else {
            None
        },
{
    if request.method == Method::Post && text::same(request.path().as_str(), SUBMIT_PATH) {
        match &request.submission {
            Ok(attributed) => Some(attributed.pool_id()),
            Err(_) => None,
        }
    } else {
        None
    }
}

/// A body is read for exactly the requests that come to a submission.
pub proof fn a_body_is_read_to_be_taken_in(
    request: Request,
    named: Map<Seq<u8>, Seq<char>>,
    rows: int,
    shelf: http::Shelf,
)
    ensures
        http::turn_of(request.asked(), named, rows, shelf) is Submit <==> (request.method
            == Method::Post && http::path_of(request.target@) == SUBMIT_PATH@ && submitter(
            request,
        ) is Some),
{
    http::pages_shadow_no_route(shelf);
}

/// The length a request declares, where it declares one that reads.
pub fn declared_length(content_length: Option<&str>) -> (r: Option<u64>)
    ensures
        match r {
            Some(n) => content_length is Some && text::number(content_length->0@, u64::MAX as int)
                == Some(n as int),
            None => content_length is None || text::number(content_length->0@, u64::MAX as int)
                is None,
        },
{
    match content_length {
        Some(declared) => text::number_of(declared, u64::MAX),
        None => None,
    }
}

/// The answer to a body that passes its bound.
pub open spec fn over_bound(signer: Option<Seq<u8>>, found: int, max: int) -> http::Given {
    http::refused(signer, 413, (intake::Refusal::OversizedBody { found, max }).spelled(), None)
}

/// A body as it arrives, bounded. Stopping at the frame that crosses the bound is what bounds a
/// chunked body, which declares no length to refuse in advance.
#[derive(Debug)]
pub struct Incoming {
    pub collected: Vec<u8>,
    pub max: u64,
    pub signer: Option<PoolId>,
}

impl Incoming {
    /// Nothing read yet. A length declared over the bound is refused before a byte of it is read.
    pub fn new(signer: Option<PoolId>, declared: Option<u64>, max: u64) -> (r: Result<
        Incoming,
        Answered,
    >)
        requires
            declared is Some ==> declared->0 <= usize::MAX,
        ensures
            match r {
                Ok(incoming) => {
                    &&& !(declared is Some && declared->0 > max)
                    &&& incoming.collected@ == Seq::<u8>::empty()
                    &&& incoming.max == max
                    &&& incoming.signer == signer
                },
                Err(answered) => {
                    &&& declared is Some && declared->0 > max
                    &&& answered@ == over_bound(
                        http::signer_view(signer),
                        declared->0 as int,
                        max as int,
                    )
                },
            },
    {
        if let Some(declared) = declared {
            if declared > max {
                return Err(http::oversized(signer, declared as usize, max));
            }
        }
        Ok(Incoming { collected: Vec::new(), max, signer })
    }

    /// Take in one frame. An answer is the end of it: the body passed its bound.
    pub fn frame(&mut self, data: &[u8]) -> (r: Option<Answered>)
        ensures
            final(self).collected@ == old(self).collected@ + data@,
            final(self).max == old(self).max,
            final(self).signer == old(self).signer,
            match r {
                None => final(self).collected@.len() <= old(self).max,
                Some(answered) => final(self).collected@.len() > old(self).max && answered@
                    == over_bound(
                    http::signer_view(old(self).signer),
                    final(self).collected@.len() as int,
                    old(self).max as int,
                ),
            },
    {
        let ghost before = self.collected@;
        for i in 0..data.len()
            invariant
                self.collected@ == before + data@.take(i as int),
                self.max == old(self).max,
                self.signer == old(self).signer,
        {
            self.collected.push(data[i]);
            assert(self.collected@ =~= before + data@.take(i + 1));
        }
        assert(data@.take(data@.len() as int) =~= data@);
        let found: usize = self.collected.len();
        if found as u64 > self.max {
            Some(http::oversized(self.signer, found, self.max))
        } else {
            None
        }
    }

    /// The answer to a body that could not be read.
    pub fn unreadable(signer: Option<PoolId>, error: &str) -> (r: Answered)
        ensures
            r@ == http::refused(
                http::signer_view(signer),
                400,
                "could not read the request body: "@ + error@,
                None,
            ),
    {
        let mut reason = String::from_str("could not read the request body: ");
        reason.append(error);
        http::refuse(signer, 400, reason.as_str())
    }

    /// The answer to a body that did not arrive in time.
    pub fn late(signer: Option<PoolId>, read_timeout_ms: u64) -> (r: Answered)
        ensures
            r@ == http::refused(
                http::signer_view(signer),
                408,
                "the request body did not arrive within "@ + text::decimal(
                    read_timeout_ms as int / 1000,
                ) + "s"@,
                None,
            ),
    {
        let mut reason = String::from_str("the request body did not arrive within ");
        reason.append(text::decimal_of((read_timeout_ms / 1000) as u128).as_str());
        reason.append("s");
        http::refuse(signer, 408, reason.as_str())
    }
}

/// The answer to a request whose answering broke down, and what the journal is told. The client
/// gets a 503 rather than a dropped connection it would read as a network fault.
pub fn broke_down(error: &str) -> (r: (Answered, String))
    ensures
        r.0@ == http::refused(None, 503, "the server could not answer"@, None),
        r.1@ == ERR@ + "answering panicked: "@ + error@,
{
    let mut line = String::from_str(ERR);
    line.append("answering panicked: ");
    line.append(error);
    (http::refuse(None, 503, "the server could not answer"), line)
}

/// The header fields an answer is sent with: its content type, its own headers, and the length of a
/// stream. A body already in hand reports its own size; a stream does not, so what the archive
/// declared is stated instead.
pub open spec fn fields_of(reply: http::Reply) -> Seq<(Seq<char>, Seq<char>)> {
    seq![("content-type"@, reply.content_type)] + reply.headers + match reply.body {
        http::Written::Stream { length, .. } => seq![
            ("content-length"@, text::decimal(length as int)),
        ],
        http::Written::Bytes(_) => seq![],
    }
}

/// The header fields an answer is sent with: see `fields_of`.
pub fn fields(answer: &Answer) -> (r: Vec<(&'static str, String)>)
    ensures
        http::header_views(r@) == fields_of(answer@),
{
    let mut r: Vec<(&'static str, String)> = Vec::new();
    r.push(("content-type", String::from_str(answer.content_type)));
    let ghost head = seq![("content-type"@, answer.content_type@)];
    let ghost headers = http::header_views(answer.headers@);
    assert(http::header_views(r@) =~= head + headers.take(0));
    for i in 0..answer.headers.len()
        invariant
            headers == http::header_views(answer.headers@),
            http::header_views(r@) == head + headers.take(i as int),
    {
        let ghost before = r@;
        r.push((answer.headers[i].0, answer.headers[i].1.clone()));
        assert(http::header_views(r@) =~= http::header_views(before).push(headers[i as int]));
        assert(http::header_views(r@) =~= head + headers.take(i + 1));
    }
    assert(headers.take(headers.len() as int) =~= headers);
    if let AnswerBody::Stream { length, .. } = &answer.body {
        r.push(("content-length", text::decimal_of(*length as u128)));
    }
    assert(http::header_views(r@) =~= fields_of(answer@));
    r
}

/// An object going out. The head is out, its length with it, so nothing below can correct the
/// answer: what went wrong is a line for the journal, which names the key because the connection's
/// own cannot.
#[derive(Debug)]
pub struct Download {
    key: String,
    length: u64,
    sent: u64,
}

/// What to do with what was read of an object.
#[derive(Debug)]
pub enum Moved {
    /// Send it.
    Send,
    /// The object has ended, in full or with a line that says how far short.
    Ended { short: Option<String> },
    /// The object runs past what was declared. What would pass it is not sent: the transport would
    /// truncate it into a whole-looking answer that is not the object.
    Cut { line: String },
}

/// What a `Moved` is, over plain values.
pub enum Motion {
    Send,
    Ended { short: Option<Seq<char>> },
    Cut { line: Seq<char> },
}

impl View for Moved {
    type V = Motion;

    open spec fn view(&self) -> Motion {
        match *self {
            Moved::Send => Motion::Send,
            Moved::Ended { short } => Motion::Ended { short: text::view_of(short) },
            Moved::Cut { line } => Motion::Cut { line: line@ },
        }
    }
}

/// What a number of bytes read does to a download that has sent so many.
pub open spec fn motion_of(key: Seq<char>, length: int, sent: int, read: int) -> Motion {
    if read == 0 {
        Motion::Ended {
            short: if sent < length {
                Some(
                    ERR@ + "the download of "@ + key + " ended "@ + text::decimal(length - sent)
                        + " bytes short of the "@ + text::decimal(length) + " it declared"@,
                )
            } else {
                None
            },
        }
    } else if sent + read > length {
        Motion::Cut {
            line: ERR@ + "the download of "@ + key + " grew past the "@ + text::decimal(length)
                + " it declared; cut at "@ + text::decimal(sent) + " bytes"@,
        }
    } else {
        Motion::Send
    }
}

impl Download {
    #[verifier::type_invariant]
    spec fn well_formed(self) -> bool {
        self.sent <= self.length
    }

    /// The key, the length declared, and how much was sent.
    pub closed spec fn state(self) -> (Seq<char>, int, int) {
        (self.key@, self.length as int, self.sent as int)
    }

    /// Nothing sent yet.
    pub fn new(key: String, length: u64) -> (r: Download)
        ensures
            r.state() == (key@, length as int, 0int),
    {
        Download { key, length, sent: 0 }
    }

    /// What to do with the next bytes that were read; none is the object's end. What has been sent
    /// never passes what was declared.
    pub fn moved(&mut self, read: usize) -> (r: Moved)
        ensures
            r@ == motion_of(old(self).state().0, old(self).state().1, old(self).state().2, read as int),
            final(self).state() == (
                old(self).state().0,
                old(self).state().1,
                if r@ is Send {
                    old(self).state().2 + read
                } else {
                    old(self).state().2
                },
            ),
            final(self).state().2 <= final(self).state().1,
    {
        proof {
            use_type_invariant(&*self);
        }
        let left: u64 = self.length - self.sent;
        if read == 0 {
            if self.sent < self.length {
                let mut line = String::from_str(ERR);
                line.append("the download of ");
                line.append(self.key.as_str());
                line.append(" ended ");
                line.append(text::decimal_of(left as u128).as_str());
                line.append(" bytes short of the ");
                line.append(text::decimal_of(self.length as u128).as_str());
                line.append(" it declared");
                return Moved::Ended { short: Some(line) };
            }
            return Moved::Ended { short: None };
        }
        if read as u64 > left {
            let mut line = String::from_str(ERR);
            line.append("the download of ");
            line.append(self.key.as_str());
            line.append(" grew past the ");
            line.append(text::decimal_of(self.length as u128).as_str());
            line.append(" it declared; cut at ");
            line.append(text::decimal_of(self.sent as u128).as_str());
            line.append(" bytes");
            return Moved::Cut { line };
        }
        self.sent = self.sent + read as u64;
        Moved::Send
    }

    /// What is said of a download that could not be read on. Cutting the body short is the only
    /// report left to the client.
    pub fn stopped_line(&self, error: &str) -> (r: String)
        ensures
            r@ == ERR@ + "the download of "@ + self.state().0 + " stopped: "@ + error@,
    {
        let mut r = String::from_str(ERR);
        r.append("the download of ");
        r.append(self.key.as_str());
        r.append(" stopped: ");
        r.append(error);
        r
    }
}

/// A download that ends without a word sent exactly what it declared.
pub proof fn a_silent_end_is_the_whole_object(key: Seq<char>, length: int, sent: int, read: int)
    requires
        0 <= sent <= length,
    ensures
        motion_of(key, length, sent, read) == (Motion::Ended { short: None }) <==> read == 0 && sent
            == length,
{
}

/// A download sends what it reads up to the length that it declared and nothing past it: a read
/// that fits is sent, one that does not is cut off whole, and the end tells how much is missing.
pub proof fn a_download_sends_what_it_declared(key: Seq<char>, length: int, sent: int, read: int)
    requires
        0 <= sent <= length,
        0 <= read,
    ensures
        motion_of(key, length, sent, read) is Send <==> 0 < read <= length - sent,
        motion_of(key, length, sent, read) is Cut <==> read > length - sent && read > 0,
        motion_of(key, length, sent, read) is Ended <==> read == 0,
        read == 0 ==> (motion_of(key, length, sent, read)->short is Some <==> sent < length),
{
}

/// An answer is sent under its own content type and its own headers, and a stream says how long it
/// is.
pub proof fn a_stream_says_its_length(reply: http::Reply)
    ensures
        fields_of(reply)[0] == ("content-type"@, reply.content_type),
        fields_of(reply).subrange(1, 1 + reply.headers.len() as int) == reply.headers,
        reply.body matches http::Written::Stream { length, .. } ==> fields_of(reply).last() == (
            "content-length"@,
            text::decimal(length as int),
        ) && fields_of(reply).len() == reply.headers.len() + 2,
        reply.body is Bytes ==> fields_of(reply).len() == reply.headers.len() + 1,
{
    assert(fields_of(reply).subrange(1, 1 + reply.headers.len() as int) =~= reply.headers);
}

/// A length is declared by writing it: any that a counter holds is read back as it was written, and
/// without the header none is declared.
pub proof fn a_declared_length_reads_back(
    content_length: &str,
    n: int,
    given: Option<u64>,
    absent: Option<u64>,
)
    requires
        0 <= n,
        content_length@ == text::decimal(n),
        call_ensures(declared_length, (Some(content_length),), given),
        call_ensures(declared_length, (None,), absent),
    ensures
        n <= u64::MAX ==> given == Some(n as u64),
        n > u64::MAX ==> given is None,
        absent is None,
{
    text::a_number_reads_back(n, u64::MAX as int);
}

}
