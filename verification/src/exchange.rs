//! An HTTPS `GET` at one address, from the connection to the response.
//!
//! The exchange is a state machine: its state tells what is to be done next with the stream, and
//! takes in what came of it.

use vstd::prelude::*;
use vstd::string::*;
use vstd::utf8::encode_utf8;

use crate::error::{Error, ErrorView, IoFailure};
use crate::http::{
    build_request, complete_len, pairs_text, parsed, request_text, HttpResponse, HttpResponseView,
};
use crate::response_reader::{
    decided, fed, finished, joined, law_read_step, law_reads_do_not_matter, read_step, ReadEvent,
    ReadEventView, ResponseOutcome, ResponseReader,
};

verus! {

/// The port of HTTPS.
pub const HTTPS_PORT: u16 = 443;

/// What is to be done next.
pub enum GetAction<'a> {
    /// Connect to this port.
    Connect(u16),
    /// Write all of these bytes.
    Write(&'a [u8]),
    /// Flush what was written.
    Flush,
    /// Read some bytes.
    Read,
    /// Nothing: the exchange is over.
    Nothing,
}

/// What came of an action.
pub enum GetEvent {
    /// The connection was made, or not.
    Connected(Result<(), Error>),
    /// The bytes were written, or not.
    Written(Result<(), IoFailure>),
    /// What was written was flushed, or not.
    Flushed(Result<(), IoFailure>),
    /// Bytes were read, or not.
    Received(ReadEvent),
}

/// What is to be done next, as its view.
pub enum GetActionView {
    /// See [`GetAction::Connect`].
    Connect(u16),
    /// See [`GetAction::Write`].
    Write(Seq<u8>),
    /// See [`GetAction::Flush`].
    Flush,
    /// See [`GetAction::Read`].
    Read,
    /// See [`GetAction::Nothing`].
    Nothing,
}

/// What came of an action, as its view.
pub enum GetEventView {
    /// See [`GetEvent::Connected`].
    Connected(Result<(), ErrorView>),
    /// See [`GetEvent::Written`].
    Written(Result<(), ErrorView>),
    /// See [`GetEvent::Flushed`].
    Flushed(Result<(), ErrorView>),
    /// See [`GetEvent::Received`].
    Received(ReadEventView),
}

impl<'a> View for GetAction<'a> {
    type V = GetActionView;

    open spec fn view(&self) -> GetActionView {
        match *self {
            GetAction::Connect(port) => GetActionView::Connect(port),
            GetAction::Write(bytes) => GetActionView::Write(bytes@),
            GetAction::Flush => GetActionView::Flush,
            GetAction::Read => GetActionView::Read,
            GetAction::Nothing => GetActionView::Nothing,
        }
    }
}

/// The result of an I/O operation, with the failure as the error that it is to callers.
pub open spec fn io_view(r: Result<(), IoFailure>) -> Result<(), ErrorView> {
    match r {
        Ok(_) => Ok(()),
        Err(failure) => Err(failure.error()),
    }
}

impl View for GetEvent {
    type V = GetEventView;

    open spec fn view(&self) -> GetEventView {
        match *self {
            GetEvent::Connected(Ok(_)) => GetEventView::Connected(Ok(())),
            GetEvent::Connected(Err(error)) => GetEventView::Connected(Err(error@)),
            GetEvent::Written(r) => GetEventView::Written(io_view(r)),
            GetEvent::Flushed(r) => GetEventView::Flushed(io_view(r)),
            GetEvent::Received(event) => GetEventView::Received(event@),
        }
    }
}

/// Where the exchange stands.
enum Stage {
    /// The connection is to be made.
    Connecting,
    /// The request is to be written.
    Writing,
    /// The request is to be flushed.
    Flushing,
    /// The response is to be read.
    Reading(ResponseReader),
    /// The exchange is over.
    Over,
}

/// Where the exchange stands, as its view.
pub enum StageView {
    /// The connection is to be made.
    Connecting,
    /// The request is to be written.
    Writing,
    /// The request is to be flushed.
    Flushing,
    /// The response is to be read, of which these bytes have come.
    Reading(Seq<u8>),
    /// The exchange is over.
    Over,
}

/// The state of an exchange.
pub struct GetExchange {
    request: String,
    stage: Stage,
}

/// The state of an exchange, as its view.
pub struct GetExchangeView {
    /// The request.
    pub request: Seq<char>,
    /// Where the exchange stands.
    pub stage: StageView,
}

impl View for GetExchange {
    type V = GetExchangeView;

    closed spec fn view(&self) -> GetExchangeView {
        GetExchangeView {
            request: self.request@,
            stage: match self.stage {
                Stage::Connecting => StageView::Connecting,
                Stage::Writing => StageView::Writing,
                Stage::Flushing => StageView::Flushing,
                Stage::Reading(reader) => StageView::Reading(reader@),
                Stage::Over => StageView::Over,
            },
        }
    }
}

impl GetExchangeView {
    /// Nothing is decided by the bytes that were received so far.
    pub open spec fn wf(self) -> bool {
        self.stage matches StageView::Reading(received) ==> decided(received) is None
    }

    /// What is to be done next.
    pub open spec fn action(self) -> GetActionView {
        match self.stage {
            StageView::Connecting => GetActionView::Connect(HTTPS_PORT),
            StageView::Writing => GetActionView::Write(encode_utf8(self.request)),
            StageView::Flushing => GetActionView::Flush,
            StageView::Reading(_) => GetActionView::Read,
            StageView::Over => GetActionView::Nothing,
        }
    }

    /// The state at the stage `stage`.
    pub open spec fn at(self, stage: StageView) -> GetExchangeView {
        GetExchangeView { request: self.request, stage }
    }

    /// The state and the result after a step to `stage` that succeeded, or that failed.
    pub open spec fn advanced(self, r: Result<(), ErrorView>, stage: StageView) -> (
        GetExchangeView,
        Option<ResponseOutcome>,
    ) {
        match r {
            Ok(_) => (self.at(stage), None),
            Err(error) => (self.at(StageView::Over), Some(Err(error))),
        }
    }

    /// The state after `event`, and the result where there is one. An event that does not answer
    /// the action at hand changes nothing.
    pub open spec fn after(self, event: GetEventView) -> (GetExchangeView, Option<ResponseOutcome>) {
        match (self.stage, event) {
            (StageView::Connecting, GetEventView::Connected(r)) => self.advanced(
                r,
                StageView::Writing,
            ),
            (StageView::Writing, GetEventView::Written(r)) => self.advanced(r, StageView::Flushing),
            (StageView::Flushing, GetEventView::Flushed(r)) => self.advanced(
                r,
                StageView::Reading(seq![]),
            ),
            (StageView::Reading(received), GetEventView::Received(event)) => match read_step(
                received,
                event,
            ) {
                (_, Some(result)) => (self.at(StageView::Over), Some(result)),
                (rest, None) => (self.at(StageView::Reading(rest)), None),
            },
            _ => (self, None),
        }
    }
}

/// The exchange that gets `path` from `host`, with the further headers `headers`, at one address.
pub fn https_get_via_ip(host: &str, path: &str, headers: &[(String, String)]) -> (r: GetExchange)
    ensures
        r@.wf(),
        r@ == (GetExchangeView {
            request: request_text(host@, path@, pairs_text(headers@)),
            stage: StageView::Connecting,
        }),
{
    GetExchange { request: build_request(host, path, headers), stage: Stage::Connecting }
}

impl GetExchange {
    /// What is to be done next.
    pub fn action(&self) -> (r: GetAction<'_>)
        ensures
            r@ == self@.action(),
    {
        match &self.stage {
            Stage::Connecting => GetAction::Connect(HTTPS_PORT),
            Stage::Writing => GetAction::Write(self.request.as_str().as_bytes()),
            Stage::Flushing => GetAction::Flush,
            Stage::Reading(_) => GetAction::Read,
            Stage::Over => GetAction::Nothing,
        }
    }

    /// Takes in what came of the action at hand, and gives the response, or the error, once the
    /// exchange is over.
    pub fn step(&mut self, event: GetEvent) -> (r: Option<Result<HttpResponse, Error>>)
        requires
            old(self)@.wf(),
        ensures
            final(self)@.wf(),
            (final(self)@, finished(r)) == old(self)@.after(event@),
    {
        let mut stage = Stage::Over;
        std::mem::swap(&mut stage, &mut self.stage);
        match (stage, event) {
            (Stage::Connecting, GetEvent::Connected(Ok(_))) => {
                self.stage = Stage::Writing;
                None
            },
            (Stage::Connecting, GetEvent::Connected(Err(error))) => Some(Err(error)),
            (Stage::Writing, GetEvent::Written(Ok(_))) => {
                self.stage = Stage::Flushing;
                None
            },
            (Stage::Writing, GetEvent::Written(Err(failure))) => Some(Err(Error::from(failure))),
            (Stage::Flushing, GetEvent::Flushed(Ok(_))) => {
                self.stage = Stage::Reading(ResponseReader::new());
                None
            },
            (Stage::Flushing, GetEvent::Flushed(Err(failure))) => Some(Err(Error::from(failure))),
            (Stage::Reading(reader), GetEvent::Received(event)) => {
                let mut reader = reader;
                let r = reader.receive(event);
                if r.is_none() {
                    self.stage = Stage::Reading(reader);
                }
                r
            },
            (stage, _) => {
                self.stage = stage;
                None
            },
        }
    }
}

/// What an exchange comes to, where `events` come one after the other: `None` while it is not over.
pub open spec fn completed(exchange: GetExchangeView, events: Seq<GetEventView>) -> Option<
    ResponseOutcome,
>
    decreases events.len(),
{
    if events.len() == 0 {
        None
    } else {
        match exchange.after(events[0]) {
            (_, Some(result)) => Some(result),
            (next, None) => completed(next, events.skip(1)),
        }
    }
}

/// The reads of `pieces`, and then of the end of the stream.
pub open spec fn stream_events(pieces: Seq<Seq<u8>>) -> Seq<GetEventView>
    decreases pieces.len(),
{
    if pieces.len() == 0 {
        seq![GetEventView::Received(ReadEventView::Read(seq![]))]
    } else {
        seq![GetEventView::Received(ReadEventView::Read(pieces[0]))] + stream_events(
            pieces.skip(1),
        )
    }
}

/// Reading the stream comes to what the reader makes of it.
proof fn lemma_reading(exchange: GetExchangeView, received: Seq<u8>, pieces: Seq<Seq<u8>>)
    requires
        exchange.stage == StageView::Reading(received),
    ensures
        completed(exchange, stream_events(pieces)) == Some(fed(received, pieces)),
    decreases pieces.len(),
{
    if pieces.len() > 0 {
        let rest = stream_events(pieces.skip(1));
        assert(stream_events(pieces).skip(1) =~= rest);
        if let (next, None) = read_step(received, ReadEventView::Read(pieces[0])) {
            lemma_reading(exchange.at(StageView::Reading(next)), next, pieces.skip(1));
        }
    }
}

/// An exchange in which nothing fails gives the response that the stream spells, however the stream
/// is cut into reads.
#[verifier::rlimit(40)]
#[verifier::spinoff_prover]
pub proof fn law_exchange_gives_the_response(exchange: GetExchangeView, pieces: Seq<Seq<u8>>)
    requires
        exchange.stage == StageView::Connecting,
        forall|i: int| 0 <= i < pieces.len() ==> #[trigger] pieces[i].len() > 0,
    ensures
        completed(
            exchange,
            seq![
                GetEventView::Connected(Ok(())),
                GetEventView::Written(Ok(())),
                GetEventView::Flushed(Ok(())),
            ] + stream_events(pieces),
        ) == Some(parsed(joined(pieces))),
{
    let reads = stream_events(pieces);
    let events = seq![
        GetEventView::Connected(Ok(())),
        GetEventView::Written(Ok(())),
        GetEventView::Flushed(Ok(())),
    ] + reads;
    reveal_with_fuel(completed, 4);
    assert(events.skip(1).skip(1).skip(1) =~= reads);
    lemma_reading(exchange.at(StageView::Reading(seq![])), seq![], pieces);
    law_reads_do_not_matter(seq![], pieces);
    assert(Seq::<u8>::empty() + joined(pieces) =~= joined(pieces));
}

/// A step that fails ends the exchange with its error, and nothing more is done.
pub proof fn law_failure_ends_the_exchange(exchange: GetExchangeView, event: GetEventView)
    ensures
        exchange.after(event).1 is Some ==> exchange.after(event).0.action()
            == GetActionView::Nothing,
        exchange.stage == StageView::Over ==> exchange.after(event) == (
            exchange,
            None::<ResponseOutcome>,
        ),
{
}

/// An exchange connects to the port 443, writes its request, all of it, flushes it, and then reads, one step
/// after the other, each once the one before it has succeeded.
pub proof fn law_exchange_takes_its_steps(exchange: GetExchangeView)
    requires
        exchange.stage == StageView::Connecting,
    ensures
        ({
            let (connected, a) = exchange.after(GetEventView::Connected(Ok(())));
            let (written, b) = connected.after(GetEventView::Written(Ok(())));
            let (flushed, c) = written.after(GetEventView::Flushed(Ok(())));
            &&& exchange.action() == GetActionView::Connect(443)
            &&& a is None
            &&& connected.action() == GetActionView::Write(encode_utf8(exchange.request))
            &&& b is None
            &&& written.action() == GetActionView::Flush
            &&& c is None
            &&& flushed.action() == GetActionView::Read
        }),
{
}

/// A step that fails ends the exchange with its error: the connection, the writing, the flushing and each
/// read, however much was read before. Nothing is to be done then.
pub proof fn law_failed_step_is_the_outcome(
    exchange: GetExchangeView,
    received: Seq<u8>,
    error: ErrorView,
)
    requires
        exchange.stage == StageView::Connecting,
    ensures
        ({
            let (connected, _) = exchange.after(GetEventView::Connected(Ok(())));
            let (written, _) = connected.after(GetEventView::Written(Ok(())));
            let reading = GetExchangeView {
                request: exchange.request,
                stage: StageView::Reading(received),
            };
            let failed = Some(Err::<HttpResponseView, ErrorView>(error));
            let a = exchange.after(GetEventView::Connected(Err(error)));
            let b = connected.after(GetEventView::Written(Err(error)));
            let c = written.after(GetEventView::Flushed(Err(error)));
            let d = reading.after(GetEventView::Received(ReadEventView::Failed(error)));
            &&& a.1 == failed && a.0.action() == GetActionView::Nothing
            &&& b.1 == failed && b.0.action() == GetActionView::Nothing
            &&& c.1 == failed && c.0.action() == GetActionView::Nothing
            &&& d.1 == failed && d.0.action() == GetActionView::Nothing
        }),
{
}

/// What is read is put after what was received, until the response is complete: then it is the outcome at
/// once, cut off at its length, and nothing more is read. Until then reading goes on, and at the end of
/// the stream the outcome is what was received.
pub proof fn law_response_ends_the_exchange(
    request: Seq<char>,
    received: Seq<u8>,
    bytes: Seq<u8>,
)
    requires
        bytes.len() > 0,
    ensures
        ({
            let reading = GetExchangeView { request, stage: StageView::Reading(received) };
            let (next, out) = reading.after(GetEventView::Received(ReadEventView::Read(bytes)));
            let (over, end) = reading.after(GetEventView::Received(ReadEventView::Read(seq![])));
            &&& reading.action() == GetActionView::Read
            &&& match complete_len(received + bytes) {
                Ok(Some(len)) => out == Some(parsed((received + bytes).take(len))) && next.action()
                    == GetActionView::Nothing,
                Ok(None) => out is None && next == (GetExchangeView {
                    request,
                    stage: StageView::Reading(received + bytes),
                }),
                Err(error) => out == Some(Err::<HttpResponseView, ErrorView>(error))
                    && next.action() == GetActionView::Nothing,
            }
            &&& end == Some(parsed(received))
            &&& over.action() == GetActionView::Nothing
        }),
{
    law_read_step(received, bytes, ErrorView::Timeout);
    law_read_step(received, seq![], ErrorView::Timeout);
}

/// What is to be done and what came of it are seen as they are.
pub proof fn law_exchange_is_seen_whole(action: GetAction<'_>, event: GetEvent)
    ensures
        match action {
            GetAction::Connect(port) => action@ == GetActionView::Connect(port),
            GetAction::Write(bytes) => action@ == GetActionView::Write(bytes@),
            GetAction::Flush => action@ == GetActionView::Flush,
            GetAction::Read => action@ == GetActionView::Read,
            GetAction::Nothing => action@ == GetActionView::Nothing,
        },
        match event {
            GetEvent::Connected(Ok(_)) => event@ == GetEventView::Connected(Ok(())),
            GetEvent::Connected(Err(error)) => event@ == GetEventView::Connected(Err(error@)),
            GetEvent::Written(Ok(_)) => event@ == GetEventView::Written(Ok(())),
            GetEvent::Written(Err(failure)) => event@ == GetEventView::Written(
                Err(failure.error()),
            ),
            GetEvent::Flushed(Ok(_)) => event@ == GetEventView::Flushed(Ok(())),
            GetEvent::Flushed(Err(failure)) => event@ == GetEventView::Flushed(
                Err(failure.error()),
            ),
            GetEvent::Received(read) => event@ == GetEventView::Received(read@),
        },
{
}

/// What does not answer the action at hand changes nothing, and is no outcome.
pub proof fn law_events_out_of_turn(exchange: GetExchangeView, event: GetEventView)
    ensures
        ({
            let nothing = (exchange, None::<ResponseOutcome>);
            &&& exchange.action() is Connect && !(event is Connected) ==> exchange.after(event)
                == nothing
            &&& exchange.action() is Write && !(event is Written) ==> exchange.after(event)
                == nothing
            &&& exchange.action() is Flush && !(event is Flushed) ==> exchange.after(event)
                == nothing
            &&& exchange.action() is Read && !(event is Received) ==> exchange.after(event)
                == nothing
        }),
{
}

} // verus!
