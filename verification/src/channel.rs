//! The channel between a sidecar and its host.
//!
//! The host offers calls that move bytes and answer with a status. They are handed in as functions;
//! what is made of their answers is decided here.

use vstd::prelude::*;
use vstd::string::*;

use crate::error::{Error, ErrorView};
use crate::host_request::{encoded_view, Encoded};
use crate::number::{signed_decimal, signed_decimal_text};
use crate::text::{join2, join3};

verus! {

/// Whether the paired slide is on screen, by the status that the host gives.
pub fn channel_active(status: i32) -> (r: bool)
    ensures
        r == (status != 0),
{
    status != 0
}

/// The error for the host call `call` that failed with the status `status`.
pub open spec fn call_failure(call: Seq<char>, status: int) -> ErrorView {
    ErrorView::Io("host "@ + call + " failed with status "@ + signed_decimal(status))
}

/// The error for the host call `call` that failed with the status `status`.
fn failed_call(call: &str, status: i32) -> (r: Error)
    ensures
        r@ == call_failure(call@, status as int),
{
    let head = join3("host ", call, " failed with status ");
    Error::Io(join2(head.as_str(), signed_decimal_text(status).as_str()))
}

/// What the host's answer comes to, where the call that reads it gave the status `status` and left
/// `buffer`: as many bytes of it as the status counts, or all if there are fewer.
pub open spec fn answer_read(status: i32, buffer: Seq<u8>) -> Encoded {
    if status < 0 {
        Err(call_failure("network_response_read"@, status as int))
    } else if status < buffer.len() {
        Ok(buffer.take(status as int))
    } else {
        Ok(buffer)
    }
}

/// What the host's answer comes to, by the status of the call that reads it and the buffer that it
/// left.
///
/// # Errors
///
/// Returns [`Error::Io`] if the status is negative.
pub fn read_answer(status: i32, buffer: Vec<u8>) -> (r: Result<Vec<u8>, Error>)
    ensures
        encoded_view(r) == answer_read(status, buffer@),
{
    if status < 0 {
        return Err(failed_call("network_response_read", status));
    }
    let mut answer = buffer;
    answer.truncate(status as usize);
    assert(status <= buffer@.len() ==> answer@ =~= buffer@.take(status as int));
    assert(buffer@.take(buffer@.len() as int) =~= buffer@);
    Ok(answer)
}

/// Whether an answer of `len` bytes can come to `out`, where `read` fills a buffer with it and gives
/// a status.
pub open spec fn fetched<R: FnOnce(Vec<u8>) -> (i32, Vec<u8>)>(
    read: R,
    len: i32,
    out: Encoded,
) -> bool {
    exists|empty: Vec<u8>, status: i32, filled: Vec<u8>|
        empty@ == Seq::new(len as nat, |i: int| 0u8) && #[trigger] call_ensures(
            read,
            (empty,),
            (status, filled),
        ) && out == answer_read(status, filled@)
}

/// Whether a request that the host has accepted can come to `out`, where `response_len` tells the
/// length of the answer.
pub open spec fn accepted<L: FnOnce() -> i32, R: FnOnce(Vec<u8>) -> (i32, Vec<u8>)>(
    response_len: L,
    read: R,
    out: Encoded,
) -> bool {
    exists|len: i32|
        #[trigger] call_ensures(response_len, (), len) && if len < 0 {
            out == Err::<Seq<u8>, ErrorView>(call_failure("network_response_len"@, len as int))
        } else {
            fetched(read, len, out)
        }
}

/// Whether `submit` can answer the request `request` with the status `status`.
pub open spec fn submitted<S: FnOnce(&[u8]) -> i32>(
    submit: S,
    request: Seq<u8>,
    status: i32,
) -> bool {
    exists|b: &[u8]| b@ == request && #[trigger] call_ensures(submit, (b,), status)
}

/// Whether the request `request` can come to `out`, where `submit` hands it to the host.
pub open spec fn roundtripped<
    S: FnOnce(&[u8]) -> i32,
    L: FnOnce() -> i32,
    R: FnOnce(Vec<u8>) -> (i32, Vec<u8>),
>(submit: S, response_len: L, read: R, request: Seq<u8>, out: Encoded) -> bool {
    exists|status: i32|
        #[trigger] submitted(submit, request, status) && if status != 0 {
            out == Err::<Seq<u8>, ErrorView>(call_failure("network_request"@, status as int))
        } else {
            accepted(response_len, read, out)
        }
}

/// Sends `request` to the host and receives its answer. `submit` hands the request over,
/// `response_len` tells the length of the answer, and `read` fills a buffer with it; each gives a
/// status. After a call that failed no other is made.
///
/// # Errors
///
/// Returns [`Error::Io`] with the first call that failed and its status.
pub fn network_roundtrip<
    S: FnOnce(&[u8]) -> i32,
    L: FnOnce() -> i32,
    R: FnOnce(Vec<u8>) -> (i32, Vec<u8>),
>(request: &[u8], submit: S, response_len: L, read: R) -> (r: Result<Vec<u8>, Error>)
    requires
        forall|b: &[u8]| b@ == request@ ==> #[trigger] call_requires(submit, (b,)),
        submitted(submit, request@, 0) ==> call_requires(response_len, ()),
        forall|len: i32, b: Vec<u8>|
            #![trigger call_ensures(response_len, (), len), call_requires(read, (b,))]
            call_ensures(response_len, (), len) && 0 <= len && b@ == Seq::new(
                len as nat,
                |i: int| 0u8,
            ) ==> call_requires(read, (b,)),
    ensures
        roundtripped(submit, response_len, read, request@, encoded_view(r)),
{
    let status: i32 = submit(request);
    assert(submitted(submit, request@, status));
    if status != 0 {
        return Err(failed_call("network_request", status));
    }
    let len: i32 = response_len();
    if len < 0 {
        return Err(failed_call("network_response_len", len));
    }
    let empty: Vec<u8> = vec![0u8; len as usize];
    assert(empty@ =~= Seq::new(len as nat, |i: int| 0u8));
    let (status, filled) = read(empty);
    let answer = read_answer(status, filled);
    assert(fetched(read, len, encoded_view(answer)));
    answer
}

/// The answer is never longer than the buffer that the host filled.
pub proof fn law_answer_fits_buffer(status: i32, buffer: Seq<u8>)
    ensures
        answer_read(status, buffer) matches Ok(answer) ==> answer.is_prefix_of(buffer),
        answer_read(status, buffer) is Ok <==> status >= 0,
{
    if 0 <= status < buffer.len() {
        assert(buffer.take(status as int) =~= buffer.subrange(0, status as int));
    }
}

/// What is read of the host's answer: for a negative status an error with the call and the status, and
/// else as many bytes of the buffer, from its start and byte for byte, as the status counts, but no more
/// than there are.
pub proof fn law_answer_is_read(status: i32, buffer: Seq<u8>, r: Result<Vec<u8>, Error>)
    ensures
        status < 0 ==> answer_read(status, buffer) == Err::<Seq<u8>, ErrorView>(
            ErrorView::Io(
                "host network_response_read failed with status "@ + signed_decimal(status as int),
            ),
        ),
        status >= 0 ==> (answer_read(status, buffer) matches Ok(answer) && answer.len() == (if status
            < buffer.len() {
            status as int
        } else {
            buffer.len() as int
        }) && forall|i: int| 0 <= i < answer.len() ==> answer[i] == #[trigger] buffer[i]),
        match r {
            Ok(bytes) => encoded_view(r) == Ok::<Seq<u8>, ErrorView>(bytes@),
            Err(error) => encoded_view(r) == Err::<Seq<u8>, ErrorView>(error@),
        },
{
    lemma_call_texts();
    assert("host "@ + "network_response_read"@ + " failed with status "@
        =~= "host network_response_read failed with status "@);
}

/// What the literals of the failed calls hold.
proof fn lemma_call_texts()
    ensures
        "host "@ + "network_request"@ + " failed with status "@
            == "host network_request failed with status "@,
        "host "@ + "network_response_len"@ + " failed with status "@
            == "host network_response_len failed with status "@,
        "host "@ + "network_response_read"@ + " failed with status "@
            == "host network_response_read failed with status "@,
{
    reveal_strlit("host ");
    reveal_strlit(" failed with status ");
    reveal_strlit("network_request");
    reveal_strlit("network_response_len");
    reveal_strlit("network_response_read");
    reveal_strlit("host network_request failed with status ");
    reveal_strlit("host network_response_len failed with status ");
    reveal_strlit("host network_response_read failed with status ");
    assert("host "@ + "network_request"@ + " failed with status "@
        =~= "host network_request failed with status "@);
    assert("host "@ + "network_response_len"@ + " failed with status "@
        =~= "host network_response_len failed with status "@);
    assert("host "@ + "network_response_read"@ + " failed with status "@
        =~= "host network_response_read failed with status "@);
}

/// A round trip hands the request to the host as it is. Where the host takes it, which is the status zero,
/// the length of the answer is asked for, and where that is not negative, a buffer of that length, all
/// zero, is filled and its answer read. A call that fails ends it with an error that names the call and
/// its status.
pub proof fn law_roundtrip<
    S: FnOnce(&[u8]) -> i32,
    L: FnOnce() -> i32,
    R: FnOnce(Vec<u8>) -> (i32, Vec<u8>),
>(submit: S, response_len: L, read: R, request: Seq<u8>, out: Encoded)
    requires
        roundtripped(submit, response_len, read, request, out),
    ensures
        exists|b: &[u8], status: i32|
            {
                &&& #[trigger] call_ensures(submit, (b,), status)
                &&& b@ == request
                &&& status != 0 ==> out == Err::<Seq<u8>, ErrorView>(
                    ErrorView::Io(
                        "host network_request failed with status "@ + signed_decimal(status as int),
                    ),
                )
                &&& status == 0 ==> exists|len: i32|
                    {
                        &&& #[trigger] call_ensures(response_len, (), len)
                        &&& len < 0 ==> out == Err::<Seq<u8>, ErrorView>(
                            ErrorView::Io(
                                "host network_response_len failed with status "@ + signed_decimal(
                                    len as int,
                                ),
                            ),
                        )
                        &&& len >= 0 ==> exists|empty: Vec<u8>, code: i32, filled: Vec<u8>|
                            {
                                &&& #[trigger] call_ensures(read, (empty,), (code, filled))
                                &&& empty@.len() == len
                                &&& forall|i: int| 0 <= i < len ==> (#[trigger] empty@[i]) == 0
                                &&& out == answer_read(code, filled@)
                            }
                    }
            },
{
    lemma_call_texts();
    let status = choose|status: i32|
        #[trigger] submitted(submit, request, status) && if status != 0 {
            out == Err::<Seq<u8>, ErrorView>(call_failure("network_request"@, status as int))
        } else {
            accepted(response_len, read, out)
        };
    let b = choose|b: &[u8]| b@ == request && #[trigger] call_ensures(submit, (b,), status);
    assert(call_ensures(submit, (b,), status));
    if status == 0 {
        let len = choose|len: i32|
            #[trigger] call_ensures(response_len, (), len) && if len < 0 {
                out == Err::<Seq<u8>, ErrorView>(call_failure("network_response_len"@, len as int))
            } else {
                fetched(read, len, out)
            };
        assert(call_ensures(response_len, (), len));
        if len >= 0 {
            let (empty, code, filled) = choose|empty: Vec<u8>, code: i32, filled: Vec<u8>|
                empty@ == Seq::new(len as nat, |i: int| 0u8) && #[trigger] call_ensures(
                    read,
                    (empty,),
                    (code, filled),
                ) && out == answer_read(code, filled@);
            assert(call_ensures(read, (empty,), (code, filled)));
        }
    }
}

} // verus!
