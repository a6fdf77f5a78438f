//! Reading an HTTP response off a stream, piece by piece.

use vstd::prelude::*;

use crate::chunked::law_complete_body_decodes;
use crate::error::{Error, ErrorView, IoFailure};
use crate::http::{
    complete_len, http_response_complete_len, law_complete_len_stable,
    law_complete_response_parses, lemma_complete_len_bounds, metadata, parse_http_response, parsed,
    HttpResponse, HttpResponseView,
};

verus! {

/// What came of a read from the stream.
pub enum ReadEvent {
    /// The bytes that were read: none at the end of the stream.
    Read(Vec<u8>),
    /// The read failed.
    Failed(IoFailure),
}

/// What came of a read, as its view.
pub enum ReadEventView {
    /// See [`ReadEvent::Read`].
    Read(Seq<u8>),
    /// See [`ReadEvent::Failed`].
    Failed(ErrorView),
}

impl View for ReadEvent {
    type V = ReadEventView;

    open spec fn view(&self) -> ReadEventView {
        match *self {
            ReadEvent::Read(bytes) => ReadEventView::Read(bytes@),
            ReadEvent::Failed(failure) => ReadEventView::Failed(failure.error()),
        }
    }
}

/// What a finished exchange came to.
pub type ResponseOutcome = Result<HttpResponseView, ErrorView>;

/// A result as its view.
pub open spec fn outcome(r: Result<HttpResponse, Error>) -> ResponseOutcome {
    match r {
        Ok(response) => Ok(response@),
        Err(error) => Err(error@),
    }
}

/// A result that may not be there yet, as its view.
pub open spec fn finished(r: Option<Result<HttpResponse, Error>>) -> Option<ResponseOutcome> {
    match r {
        Some(result) => Some(outcome(result)),
        None => None,
    }
}

/// What the bytes `received` come to without a look at what follows: `None` where more is needed.
pub open spec fn decided(received: Seq<u8>) -> Option<ResponseOutcome> {
    match complete_len(received) {
        Err(error) => Some(Err(error)),
        Ok(Some(len)) => Some(parsed(received.take(len))),
        Ok(None) => None,
    }
}

/// What a read after the bytes `received` comes to: the bytes of which nothing is decided then, and
/// the result where there is one. The end of the stream ends the response. A failure of the stream
/// is the failure of the exchange: what was received before it was not a whole response.
pub open spec fn read_step(received: Seq<u8>, event: ReadEventView) -> (
    Seq<u8>,
    Option<ResponseOutcome>,
) {
    match event {
        ReadEventView::Failed(error) => (seq![], Some(Err(error))),
        ReadEventView::Read(bytes) => if bytes.len() == 0 {
            (seq![], Some(parsed(received)))
        } else {
            match decided(received + bytes) {
                Some(result) => (seq![], Some(result)),
                None => (received + bytes, None),
            }
        },
    }
}

/// The bytes of a response that have come in, of which nothing is decided yet.
pub struct ResponseReader {
    received: Vec<u8>,
}

impl View for ResponseReader {
    type V = Seq<u8>;

    closed spec fn view(&self) -> Seq<u8> {
        self.received@
    }
}

impl ResponseReader {
    /// Nothing is decided by the bytes that were received so far.
    pub open spec fn wf(&self) -> bool {
        decided(self@) is None
    }

    /// A reader that has received nothing.
    pub fn new() -> (r: ResponseReader)
        ensures
            r@ == Seq::<u8>::empty(),
            r.wf(),
    {
        proof {
            lemma_nothing_decided();
        }
        let r = ResponseReader { received: Vec::new() };
        assert(r@ =~= Seq::<u8>::empty());
        r
    }

    /// Takes the outcome of a read into account, and gives the response, or the error, once it is
    /// decided. The response is cut off at its own length as soon as that is known.
    pub fn receive(&mut self, event: ReadEvent) -> (r: Option<Result<HttpResponse, Error>>)
        requires
            old(self).wf(),
        ensures
            final(self).wf(),
            (final(self)@, finished(r)) == read_step(old(self)@, event@),
    {
        let mut received: Vec<u8> = Vec::new();
        proof {
            lemma_nothing_decided();
            assert(received@ =~= Seq::<u8>::empty());
        }
        std::mem::swap(&mut received, &mut self.received);
        match event {
            ReadEvent::Failed(failure) => Some(Err(Error::from(failure))),
            ReadEvent::Read(bytes) => {
                if bytes.len() == 0 {
                    return Some(parse_http_response(received.as_slice()));
                }
                let mut bytes = bytes;
                received.append(&mut bytes);
                match http_response_complete_len(received.as_slice()) {
                    Err(error) => Some(Err(error)),
                    Ok(Some(len)) => {
                        proof {
                            lemma_complete_len_bounds(received@);
                        }
                        let ghost all = received@;
                        received.truncate(len);
                        assert(received@ =~= all.take(len as int));
                        Some(parse_http_response(received.as_slice()))
                    },
                    Ok(None) => {
                        self.received = received;
                        None
                    },
                }
            },
        }
    }
}

/// No bytes decide nothing.
proof fn lemma_nothing_decided()
    ensures
        decided(Seq::<u8>::empty()) is None,
{
}

/// What is decided by the bytes at hand is not changed by bytes that arrive later.
pub proof fn law_decision_is_final(received: Seq<u8>, more: Seq<u8>)
    ensures
        decided(received) is Some ==> decided(received + more) == decided(received),
{
    law_complete_len_stable(received, more);
    lemma_complete_len_bounds(received);
    if let Ok(Some(len)) = complete_len(received) {
        assert((received + more).take(len) =~= received.take(len));
    }
}

/// What the reads of `pieces` and then of the end of the stream come to, after the bytes `received`.
pub open spec fn fed(received: Seq<u8>, pieces: Seq<Seq<u8>>) -> ResponseOutcome
    decreases pieces.len(),
{
    if pieces.len() == 0 {
        read_step(received, ReadEventView::Read(seq![])).1->0
    } else {
        match read_step(received, ReadEventView::Read(pieces[0])) {
            (_, Some(result)) => result,
            (rest, None) => fed(rest, pieces.skip(1)),
        }
    }
}

/// `pieces`, one after the other.
pub open spec fn joined(pieces: Seq<Seq<u8>>) -> Seq<u8>
    decreases pieces.len(),
{
    if pieces.len() == 0 {
        seq![]
    } else {
        pieces[0] + joined(pieces.skip(1))
    }
}

/// What is decided early is what the whole stream spells.
pub proof fn law_decision_is_the_parse(received: Seq<u8>)
    ensures
        decided(received) matches Some(result) ==> result == parsed(received),
{
    law_complete_response_parses(received);
    if let Ok(Some(m)) = metadata(received) {
        law_complete_body_decodes(received.skip(m.header_end + 4), 0);
    }
}

/// How a stream is cut into reads makes no difference: the response is what the whole stream
/// spells.
pub proof fn law_reads_do_not_matter(received: Seq<u8>, pieces: Seq<Seq<u8>>)
    requires
        decided(received) is None,
        forall|i: int| 0 <= i < pieces.len() ==> #[trigger] pieces[i].len() > 0,
    ensures
        fed(received, pieces) == parsed(received + joined(pieces)),
    decreases pieces.len(),
{
    if pieces.len() == 0 {
        assert(received + joined(pieces) =~= received);
    } else {
        let next = received + pieces[0];
        let rest = joined(pieces.skip(1));
        assert(received + joined(pieces) =~= next + rest);
        law_decision_is_final(next, rest);
        law_decision_is_the_parse(next + rest);
        if decided(next) is None {
            assert forall|i: int| 0 <= i < pieces.skip(1).len() implies #[trigger] pieces.skip(
                1,
            )[i].len() > 0 by {
                assert(pieces.skip(1)[i] == pieces[i + 1]);
            }
            law_reads_do_not_matter(next, pieces.skip(1));
        }
    }
}

/// What a read comes to. A failure is the outcome, whatever was received. The end of the stream gives what
/// the bytes that were received spell. Other bytes are put after those that were received; as soon as the
/// response is complete it is given, cut off at its length, as soon as it is broken the error is, and
/// until then nothing is lost.
pub proof fn law_read_step(received: Seq<u8>, bytes: Seq<u8>, error: ErrorView)
    ensures
        read_step(received, ReadEventView::Failed(error)).1 == Some(
            Err::<HttpResponseView, ErrorView>(error),
        ),
        bytes.len() == 0 ==> read_step(received, ReadEventView::Read(bytes)).1 == Some(
            parsed(received),
        ),
        bytes.len() > 0 ==> match complete_len(received + bytes) {
            Ok(Some(len)) => read_step(received, ReadEventView::Read(bytes)).1 == Some(
                parsed((received + bytes).take(len)),
            ),
            Ok(None) => read_step(received, ReadEventView::Read(bytes)) == (
                received + bytes,
                None::<ResponseOutcome>,
            ),
            Err(e) => read_step(received, ReadEventView::Read(bytes)).1 == Some(
                Err::<HttpResponseView, ErrorView>(e),
            ),
        },
{
}

/// What is read, and what came of an exchange, is seen whole.
pub proof fn law_reads_are_seen_whole(event: ReadEvent, r: Result<HttpResponse, Error>)
    ensures
        match event {
            ReadEvent::Read(bytes) => event@ == ReadEventView::Read(bytes@),
            ReadEvent::Failed(failure) => event@ == ReadEventView::Failed(failure.error()),
        },
        match r {
            Ok(response) => outcome(r) == Ok::<HttpResponseView, ErrorView>(response@),
            Err(error) => outcome(r) == Err::<HttpResponseView, ErrorView>(error@),
        },
        finished(Some(r)) == Some(outcome(r)),
        finished(None) is None,
{
}

} // verus!
