//! What the answers of the server mean, and how a write goes on after each
//! of them.

use crate::client::{answered, written, ClientError, ClientErrorView};
use crate::hurl::{outcome_of, Outcome, Response};
use crate::text::{digits, push_digits};
use vstd::prelude::*;
use vstd::string::StringExecFns;

verus! {

/// The text of the error for a status that the protocol does not name.
pub open spec fn unexpected_text(status: u16, body: Seq<char>) -> Seq<char> {
    "Unexpected response. Status: "@ + digits(status as nat) + "; Body: \""@ + body + "\""@
}

/// What the answer to a write means: status 204 alone is success, 200 says
/// that the server could not complete the write, 400 that it could not read
/// it; a failure of the transport is reported as such.
pub open spec fn classified_write(outcome: Outcome) -> Result<(), ClientErrorView> {
    match outcome {
        Err(e) => Err(ClientErrorView::Communication(e)),
        Ok(response) => if response.status == 204 {
            Ok(())
        } else if response.status == 200 {
            Err(ClientErrorView::CouldNotComplete(response.body))
        } else if response.status == 400 {
            Err(ClientErrorView::Syntax(response.body))
        } else {
            Err(ClientErrorView::Unexpected(unexpected_text(response.status, response.body)))
        },
    }
}

/// What the answer to a query means: status 200 hands the body on as it is,
/// 400 says that the server could not read the query; a failure of the
/// transport is reported as such.
pub open spec fn classified_query(outcome: Outcome) -> Result<Seq<char>, ClientErrorView> {
    match outcome {
        Err(e) => Err(ClientErrorView::Communication(e)),
        Ok(response) => if response.status == 200 {
            Ok(response.body)
        } else if response.status == 400 {
            Err(ClientErrorView::Syntax(response.body))
        } else {
            Err(ClientErrorView::Unexpected(unexpected_text(response.status, response.body)))
        },
    }
}

fn unexpected(response: &Response) -> (r: ClientError)
    ensures
        r@ == ClientErrorView::Unexpected(unexpected_text(response.status, response.body@)),
{
    let mut text = "Unexpected response. Status: ".to_owned();
    push_digits(&mut text, response.status as u64);
    text.append("; Body: \"");
    text.append(response.body.as_str());
    text.append("\"");
    ClientError::Unexpected(text)
}

/// Says what the answer to a write means.
pub fn classify_write(outcome: Result<Response, String>) -> (r: Result<(), ClientError>)
    ensures
        written(r) == classified_write(outcome_of(outcome)),
{
    match outcome {
        Err(e) => Err(ClientError::Communication(e)),
        Ok(response) => {
            if response.status == 204 {
                Ok(())
            } else if response.status == 200 {
                Err(ClientError::CouldNotComplete(response.body))
            } else if response.status == 400 {
                Err(ClientError::Syntax(response.body))
            } else {
                Err(unexpected(&response))
            }
        },
    }
}

/// Says what the answer to a query means.
pub fn classify_query(outcome: Result<Response, String>) -> (r: Result<String, ClientError>)
    ensures
        answered(r) == classified_query(outcome_of(outcome)),
{
    match outcome {
        Err(e) => Err(ClientError::Communication(e)),
        Ok(response) => {
            if response.status == 200 {
                Ok(response.body)
            } else if response.status == 400 {
                Err(ClientError::Syntax(response.body))
            } else {
                Err(unexpected(&response))
            }
        },
    }
}

/// What a sequential write comes to when the transport answers the chunks
/// with `outcomes`, one for each chunk in order: how many requests are sent,
/// and the result. The first answer that is no success ends the write; no
/// later chunk is sent.
pub open spec fn sequential_write(outcomes: Seq<Outcome>) -> (nat, Result<(), ClientErrorView>)
    decreases outcomes.len(),
{
    if outcomes.len() == 0 {
        (0, Ok(()))
    } else {
        match classified_write(outcomes[0]) {
            Err(e) => (1, Err(e)),
            Ok(_) => {
                let rest = sequential_write(outcomes.drop_first());
                (rest.0 + 1, rest.1)
            },
        }
    }
}

/// The transport answered with status 204.
pub open spec fn no_content(outcome: Outcome) -> bool {
    outcome matches Ok(response) && response.status == 204
}

/// Where every chunk is answered with status 204, the write succeeds and one
/// request was sent for each chunk.
pub proof fn lemma_write_succeeds(outcomes: Seq<Outcome>)
    requires
        forall|i: int| 0 <= i < outcomes.len() ==> no_content(#[trigger] outcomes[i]),
    ensures
        sequential_write(outcomes) == (outcomes.len(), Ok::<(), ClientErrorView>(())),
    decreases outcomes.len(),
{
    if outcomes.len() > 0 {
        assert(no_content(outcomes[0]));
        let rest = outcomes.drop_first();
        assert forall|i: int| 0 <= i < rest.len() implies no_content(#[trigger] rest[i]) by {
            assert(rest[i] == outcomes[i + 1]);
        }
        lemma_write_succeeds(rest);
    }
}

/// Where chunk `failed` is the first that is not answered with status 204,
/// the write fails with what that answer means, and no chunk after it is
/// sent.
pub proof fn lemma_write_fails_fast(outcomes: Seq<Outcome>, failed: int)
    requires
        0 <= failed < outcomes.len(),
        forall|i: int| 0 <= i < failed ==> no_content(#[trigger] outcomes[i]),
        !no_content(outcomes[failed]),
    ensures
        sequential_write(outcomes) == ((failed + 1) as nat, classified_write(outcomes[failed])),
        sequential_write(outcomes).1 is Err,
    decreases outcomes.len(),
{
    if failed > 0 {
        assert(no_content(outcomes[0]));
        let rest = outcomes.drop_first();
        assert forall|i: int| 0 <= i < failed - 1 implies no_content(#[trigger] rest[i]) by {
            assert(rest[i] == outcomes[i + 1]);
        }
        assert(rest[failed - 1] == outcomes[failed]);
        lemma_write_fails_fast(rest, failed - 1);
    }
}

/// The views of the transport's answers.
pub open spec fn outcomes_of(answers: Seq<Result<Response, String>>) -> Seq<Outcome> {
    answers.map_values(|a: Result<Response, String>| outcome_of(a))
}

/// The result of a write whose requests were all sent at once: the
/// answers stand in the order of the chunks, and the first that is no
/// success gives the error, whichever answer came in first.
pub fn first_failure(answers: Vec<Result<Response, String>>) -> (r: Result<(), ClientError>)
    ensures
        written(r) == sequential_write(outcomes_of(answers@)).1,
{
    let ghost all = outcomes_of(answers@);
    let mut pending = answers;
    let mut checked: Vec<Result<Response, String>> = Vec::new();
    // Take the answers from the back, so that the earliest failure is the
    // one that is kept.
    let mut result: Result<(), ClientError> = Ok(());
    proof {
        assert(all.skip(all.len() as int) =~= Seq::<Outcome>::empty());
    }
    while pending.len() > 0
        invariant
            all == outcomes_of(answers@),
            outcomes_of(pending@) == all.take(pending.len() as int),
            pending.len() <= all.len(),
            written(result) == sequential_write(all.skip(pending.len() as int)).1,
        decreases pending.len(),
    {
        let ghost before = pending@;
        let answer = pending.pop().unwrap();
        let ghost k = pending.len() as int;
        proof {
            assert(outcomes_of(before)[k] == outcome_of(answer));
            assert(all.take(k + 1)[k] == all[k]);
            assert(outcomes_of(pending@) =~= all.take(k));
            assert(all.skip(k)[0] == all[k]);
            assert(all.skip(k).drop_first() =~= all.skip(k + 1));
        }
        match classify_write(answer) {
            Ok(_) => {},
            Err(e) => {
                result = Err(e);
            },
        }
    }
    proof {
        assert(all.skip(0) =~= all);
    }
    result
}

/// What the driver of a sequential write does next.
#[derive(Debug)]
pub enum WriteStep {
    /// Send the request for the chunk with this index.
    Send(usize),
    /// The write is over, with this result.
    Done(Result<(), ClientError>),
}

/// What a `WriteStep` stands for.
pub enum WriteStepView {
    Send(usize),
    Done(Result<(), ClientErrorView>),
}

impl View for WriteStep {
    type V = WriteStepView;

    open spec fn view(&self) -> WriteStepView {
        match *self {
            WriteStep::Send(i) => WriteStepView::Send(i),
            WriteStep::Done(r) => WriteStepView::Done(written(r)),
        }
    }
}

/// The step that follows when chunks `0..next` were written: the next chunk
/// is sent, or the write is over and has succeeded.
pub open spec fn step_at(chunk_count: usize, next: int) -> WriteStepView {
    if next < chunk_count {
        WriteStepView::Send(next as usize)
    } else {
        WriteStepView::Done(Ok(()))
    }
}

/// The step that follows the answer to chunk `sent`: an answer that is no
/// success ends the write with its error, any other lets the write go on.
pub open spec fn step_after(chunk_count: usize, sent: usize, outcome: Outcome) -> WriteStepView {
    match classified_write(outcome) {
        Err(e) => WriteStepView::Done(Err(e)),
        Ok(_) => step_at(chunk_count, sent + 1),
    }
}

/// The first step of a write of `chunk_count` chunks.
pub fn first_step(chunk_count: usize) -> (r: WriteStep)
    ensures
        r@ == step_at(chunk_count, 0),
{
    if chunk_count > 0 {
        WriteStep::Send(0)
    } else {
        WriteStep::Done(Ok(()))
    }
}

/// The step after the transport has answered the request for chunk `sent`.
pub fn next_step(chunk_count: usize, sent: usize, outcome: Result<Response, String>) -> (r:
    WriteStep)
    requires
        sent < chunk_count,
    ensures
        r@ == step_after(chunk_count, sent, outcome_of(outcome)),
{
    match classify_write(outcome) {
        Err(e) => WriteStep::Done(Err(e)),
        Ok(_) => {
            if sent + 1 < chunk_count {
                WriteStep::Send(sent + 1)
            } else {
                WriteStep::Done(Ok(()))
            }
        },
    }
}

/// Following the steps with the answers `outcomes`, from the step at chunk
/// `next` on: how many requests are sent and how the write ends. The write
/// stops at the first answer that the outcomes do not hold.
pub open spec fn follow_steps(chunk_count: usize, next: int, outcomes: Seq<Outcome>) -> (
    nat,
    Result<(), ClientErrorView>,
)
    decreases chunk_count - next,
{
    if 0 <= next < chunk_count && next < outcomes.len() {
        match step_after(chunk_count, next as usize, outcomes[next]) {
            WriteStepView::Done(r) => (1, r),
            WriteStepView::Send(_) => {
                let rest = follow_steps(chunk_count, next + 1, outcomes);
                (rest.0 + 1, rest.1)
            },
        }
    } else {
        (0, Ok(()))
    }
}

/// Driving the steps comes to the same as `sequential_write` says: with one
/// answer on hand for each chunk, the same number of requests is sent and
/// the write ends in the same way.
pub proof fn lemma_steps_write_sequentially(chunk_count: usize, next: int, outcomes: Seq<Outcome>)
    requires
        0 <= next <= chunk_count,
        outcomes.len() == chunk_count,
    ensures
        follow_steps(chunk_count, next, outcomes) == sequential_write(outcomes.skip(next)),
    decreases chunk_count - next,
{
    let rest = outcomes.skip(next);
    if next < chunk_count {
        assert(rest[0] == outcomes[next]);
        assert(rest.drop_first() =~= outcomes.skip(next + 1));
        lemma_steps_write_sequentially(chunk_count, next + 1, outcomes);
    }
}

/// The first answer that is not status 204, or the number of answers where
/// there is none.
pub open spec fn first_to_fail(outcomes: Seq<Outcome>) -> int
    decreases outcomes.len(),
{
    if outcomes.len() == 0 || !no_content(outcomes[0]) {
        0
    } else {
        1 + first_to_fail(outcomes.drop_first())
    }
}

/// Up to the first answer that is not status 204 all answers are.
pub proof fn lemma_sent_until_failure(outcomes: Seq<Outcome>, failed: int)
    requires
        0 <= failed < outcomes.len(),
        !no_content(outcomes[failed]),
    ensures
        0 <= first_to_fail(outcomes) <= failed,
        !no_content(outcomes[first_to_fail(outcomes)]),
        forall|i: int| 0 <= i < first_to_fail(outcomes) ==> no_content(#[trigger] outcomes[i]),
    decreases outcomes.len(),
{
    if no_content(outcomes[0]) {
        let rest = outcomes.drop_first();
        assert(rest[failed - 1] == outcomes[failed]);
        lemma_sent_until_failure(rest, failed - 1);
        let first = first_to_fail(rest);
        assert(rest[first] == outcomes[first + 1]);
        assert forall|i: int| 0 <= i < first + 1 implies no_content(#[trigger] outcomes[i]) by {
            if i > 0 {
                assert(outcomes[i] == rest[i - 1]);
            }
        }
    }
}

} // verus!
