//! The decisions of a running download: who may start it, what happens to
//! each progress event, and how failures are worded.
use crate::error::ToPyError;
use crate::text::topic_message;
use vstd::prelude::*;
use vstd::string::StringExecFns;

verus! {

/// What the loop that watches a download learns next.
pub enum LoopInput {
    /// The download itself has ended.
    Finished,
    /// A progress event has arrived.
    Event,
    /// The event channel has closed.
    Closed,
}

/// What the loop does about it.
pub enum LoopAction {
    /// Leave the loop with the download's result.
    Stop,
    /// Hand the event to the callback.
    Deliver,
    /// Let the event go.
    Drop,
    /// Leave the loop once the download's result is there.
    AwaitResult,
}

/// The loop's answer to what it learns: an ended download ends the loop, an
/// event goes to the callback when there is one, and a closed channel leaves
/// only the download's result to wait for.
pub fn next_action(has_callback: bool, input: LoopInput) -> (a: LoopAction)
    ensures
        match input {
            LoopInput::Finished => a is Stop,
            LoopInput::Event => if has_callback {
                a is Deliver
            } else {
                a is Drop
            },
            LoopInput::Closed => a is AwaitResult,
        },
{
    match input {
        LoopInput::Finished => LoopAction::Stop,
        LoopInput::Event => if has_callback {
            LoopAction::Deliver
        } else {
            LoopAction::Drop
        },
        LoopInput::Closed => LoopAction::AwaitResult,
    }
}

/// Takes the event receiver for a new start. It is missing while the task
/// runs, and then the start is refused with `Download task is running`.
pub fn take_rx<R>(slot: &mut Option<R>) -> (r: Result<R, String>)
    ensures
        *final(slot) == None::<R>,
        match *old(slot) {
            Some(rx) => r == Ok::<R, String>(rx),
            None => r matches Err(m) && m@ == "Download task is running"@,
        },
{
    let taken = slot.take();
    taken.convert_err("Download task is running")
}

/// The result of a finished download; a failure reads `Download task failed: `
/// and its reason.
pub fn download_outcome<T>(res: Result<T, String>) -> (r: Result<T, String>)
    ensures
        match res {
            Ok(v) => r == Ok::<T, String>(v),
            Err(e) => r matches Err(m) && m@ == topic_message("Download task failed"@, e@),
        },
{
    res.convert_err("Download task failed")
}

/// The result of a prefetch; a failure reads `Prefetch Failed: ` and its
/// reason.
pub fn prefetch_outcome<T>(res: Result<T, String>) -> (r: Result<T, String>)
    ensures
        match res {
            Ok(v) => r == Ok::<T, String>(v),
            Err(e) => r matches Err(m) && m@ == topic_message("Prefetch Failed"@, e@),
        },
{
    res.convert_err("Prefetch Failed")
}

/// The message of a prefetch stopped by its cancellation token.
pub fn prefetch_cancelled() -> (msg: String)
    ensures
        msg@ == "Prefetch Cancelled"@,
{
    String::from_str("Prefetch Cancelled")
}

} // verus!
