//! Download progress events, flattened into the record that the binding
//! hands to its callback.
use crate::text::{debug_count, debug_opt_count, debug_opt_pair, debug_opt_text, debug_pair, debug_text};
use vstd::prelude::*;
use vstd::string::StringExecFns;

verus! {

/// What the downloader reports while it works. Worker ids are counts,
/// ranges are `(start, end)` byte offsets.
pub enum DownloadEvent {
    PrefetchError(String),
    Pulling(usize),
    PullError(usize, String),
    PullTimeout(usize),
    PullProgress(usize, (u64, u64)),
    Pushing(usize, (u64, u64)),
    PushError(usize, (u64, u64), String),
    PushProgress(usize, (u64, u64)),
    Flushing,
    FlushError(String),
    Finished(usize),
}

/// The name of an event's kind.
pub open spec fn kind_name(e: DownloadEvent) -> Seq<char> {
    match e {
        DownloadEvent::PrefetchError(_) => "PrefetchError"@,
        DownloadEvent::Pulling(_) => "Pulling"@,
        DownloadEvent::PullError(_, _) => "PullError"@,
        DownloadEvent::PullTimeout(_) => "PullTimeout"@,
        DownloadEvent::PullProgress(_, _) => "PullProgress"@,
        DownloadEvent::Pushing(_, _) => "Pushing"@,
        DownloadEvent::PushError(_, _, _) => "PushError"@,
        DownloadEvent::PushProgress(_, _) => "PushProgress"@,
        DownloadEvent::Flushing => "Flushing"@,
        DownloadEvent::FlushError(_) => "FlushError"@,
        DownloadEvent::Finished(_) => "Finished"@,
    }
}

/// The worker an event is about, if any.
pub open spec fn worker_of(e: DownloadEvent) -> Option<usize> {
    match e {
        DownloadEvent::Pulling(id) => Some(id),
        DownloadEvent::PullError(id, _) => Some(id),
        DownloadEvent::PullTimeout(id) => Some(id),
        DownloadEvent::PullProgress(id, _) => Some(id),
        DownloadEvent::Pushing(id, _) => Some(id),
        DownloadEvent::PushError(id, _, _) => Some(id),
        DownloadEvent::PushProgress(id, _) => Some(id),
        DownloadEvent::Finished(id) => Some(id),
        _ => None,
    }
}

/// The error message an event carries, if any.
pub open spec fn message_of(e: DownloadEvent) -> Option<String> {
    match e {
        DownloadEvent::PrefetchError(m) => Some(m),
        DownloadEvent::PullError(_, m) => Some(m),
        DownloadEvent::PushError(_, _, m) => Some(m),
        DownloadEvent::FlushError(m) => Some(m),
        _ => None,
    }
}

/// The byte range an event is about, if any.
pub open spec fn range_of(e: DownloadEvent) -> Option<(u64, u64)> {
    match e {
        DownloadEvent::PullProgress(_, r) => Some(r),
        DownloadEvent::Pushing(_, r) => Some(r),
        DownloadEvent::PushError(_, r, _) => Some(r),
        DownloadEvent::PushProgress(_, r) => Some(r),
        _ => None,
    }
}

/// The text of an optional string.
pub open spec fn opt_text(v: Option<String>) -> Option<Seq<char>> {
    match v {
        Some(t) => Some(t@),
        None => None,
    }
}

/// One progress report: its kind, and the worker, error text and byte range
/// when the kind has them.
pub struct Event {
    pub event_type: String,
    pub id: Option<usize>,
    pub message: Option<String>,
    pub range: Option<(u64, u64)>,
}

/// The text that represents an event.
pub open spec fn event_repr(ty: Seq<char>, id: Option<usize>, message: Option<Seq<char>>, range: Option<(u64, u64)>) -> Seq<char> {
    "Event(type='"@ + ty + "', id="@ + debug_opt_count(id) + ", message='"@ + debug_opt_text(message)
        + "', range="@ + debug_opt_pair(range) + ")"@
}

impl Event {
    /// The record of a downloader event: its kind's name, and its worker,
    /// error text and range where it has them.
    pub fn from(value: DownloadEvent) -> (ev: Event)
        ensures
            ev.event_type@ == kind_name(value),
            ev.id == worker_of(value),
            ev.message == message_of(value),
            ev.range == range_of(value),
            value matches DownloadEvent::PrefetchError(m) ==> ev.id is None && ev.message == Some(m)
                && ev.range is None,
            value matches DownloadEvent::Pulling(i) ==> ev.id == Some(i) && ev.message is None
                && ev.range is None,
            value matches DownloadEvent::PullError(i, m) ==> ev.id == Some(i) && ev.message == Some(m)
                && ev.range is None,
            value matches DownloadEvent::PullTimeout(i) ==> ev.id == Some(i) && ev.message is None
                && ev.range is None,
            value matches DownloadEvent::PullProgress(i, r) ==> ev.id == Some(i) && ev.message is None
                && ev.range == Some(r),
            value matches DownloadEvent::Pushing(i, r) ==> ev.id == Some(i) && ev.message is None
                && ev.range == Some(r),
            value matches DownloadEvent::PushError(i, r, m) ==> ev.id == Some(i) && ev.message == Some(
                m,
            ) && ev.range == Some(r),
            value matches DownloadEvent::PushProgress(i, r) ==> ev.id == Some(i) && ev.message is None
                && ev.range == Some(r),
            value matches DownloadEvent::Flushing ==> ev.id is None && ev.message is None
                && ev.range is None,
            value matches DownloadEvent::FlushError(m) ==> ev.id is None && ev.message == Some(m)
                && ev.range is None,
            value matches DownloadEvent::Finished(i) ==> ev.id == Some(i) && ev.message is None
                && ev.range is None,
    {
        match value {
            DownloadEvent::PrefetchError(e) => Event {
                event_type: String::from_str("PrefetchError"),
                id: None,
                message: Some(e),
                range: None,
            },
            DownloadEvent::Pulling(id) => Event {
                event_type: String::from_str("Pulling"),
                id: Some(id),
                message: None,
                range: None,
            },
            DownloadEvent::PullError(id, e) => Event {
                event_type: String::from_str("PullError"),
                id: Some(id),
                message: Some(e),
                range: None,
            },
            DownloadEvent::PullTimeout(id) => Event {
                event_type: String::from_str("PullTimeout"),
                id: Some(id),
                message: None,
                range: None,
            },
            DownloadEvent::PullProgress(id, range) => Event {
                event_type: String::from_str("PullProgress"),
                id: Some(id),
                message: None,
                range: Some(range),
            },
            DownloadEvent::Pushing(id, range) => Event {
                event_type: String::from_str("Pushing"),
                id: Some(id),
                message: None,
                range: Some(range),
            },
            DownloadEvent::PushError(id, range, e) => Event {
                event_type: String::from_str("PushError"),
                id: Some(id),
                message: Some(e),
                range: Some(range),
            },
            DownloadEvent::PushProgress(id, range) => Event {
                event_type: String::from_str("PushProgress"),
                id: Some(id),
                message: None,
                range: Some(range),
            },
            DownloadEvent::Flushing => Event {
                event_type: String::from_str("Flushing"),
                id: None,
                message: None,
                range: None,
            },
            DownloadEvent::FlushError(e) => Event {
                event_type: String::from_str("FlushError"),
                id: None,
                message: Some(e),
                range: None,
            },
            DownloadEvent::Finished(id) => Event {
                event_type: String::from_str("Finished"),
                id: Some(id),
                message: None,
                range: None,
            },
        }
    }

    /// The text that represents the event:
    /// `Event(type='…', id=…, message='…', range=…)`, with the id, message and
    /// range in their debug forms.
    pub fn repr(&self) -> (s: String)
        ensures
            s@ == event_repr(self.event_type@, self.id, opt_text(self.message), self.range),
    {
        let mut s = String::from_str("Event(type='");
        s.append(self.event_type.as_str());
        s.append("', id=");
        let id = debug_count(self.id);
        s.append(id.as_str());
        s.append(", message='");
        let message = debug_text(&self.message);
        s.append(message.as_str());
        s.append("', range=");
        let range = debug_pair(self.range);
        s.append(range.as_str());
        s.append(")");
        proof {
            assert(opt_text(self.message) == match &self.message {
                Some(t) => Some(t@),
                None => None::<Seq<char>>,
            });
        }
        s
    }
}

/// The position of an event's kind in the list of kinds.
pub open spec fn kind_index(e: DownloadEvent) -> int {
    match e {
        DownloadEvent::PrefetchError(_) => 0,
        DownloadEvent::Pulling(_) => 1,
        DownloadEvent::PullError(_, _) => 2,
        DownloadEvent::PullTimeout(_) => 3,
        DownloadEvent::PullProgress(_, _) => 4,
        DownloadEvent::Pushing(_, _) => 5,
        DownloadEvent::PushError(_, _, _) => 6,
        DownloadEvent::PushProgress(_, _) => 7,
        DownloadEvent::Flushing => 8,
        DownloadEvent::FlushError(_) => 9,
        DownloadEvent::Finished(_) => 10,
    }
}

/// Different kinds have different names.
proof fn lemma_kind_names_differ(a: DownloadEvent, b: DownloadEvent)
    requires
        kind_name(a) == kind_name(b),
    ensures
        kind_index(a) == kind_index(b),
{
    reveal_strlit("PrefetchError");
    reveal_strlit("Pulling");
    reveal_strlit("PullError");
    reveal_strlit("PullTimeout");
    reveal_strlit("PullProgress");
    reveal_strlit("Pushing");
    reveal_strlit("PushError");
    reveal_strlit("PushProgress");
    reveal_strlit("Flushing");
    reveal_strlit("FlushError");
    reveal_strlit("Finished");
    assert("Pulling"@[2] != "Pushing"@[2]);
    assert("PullError"@[2] != "PushError"@[2]);
    assert("PullProgress"@[2] != "PushProgress"@[2]);
    assert("Flushing"@[1] != "Finished"@[1]);
    assert("PrefetchError"@.len() == 13);
    assert("Pulling"@.len() == 7);
    assert("PullError"@.len() == 9);
    assert("PullTimeout"@.len() == 11);
    assert("PullProgress"@.len() == 12);
    assert("Pushing"@.len() == 7);
    assert("PushError"@.len() == 9);
    assert("PushProgress"@.len() == 12);
    assert("Flushing"@.len() == 8);
    assert("FlushError"@.len() == 10);
    assert("Finished"@.len() == 8);
    if kind_index(a) != kind_index(b) {
        assert(kind_name(a).len() == kind_name(b).len());
        assert(false) by {
            if kind_name(a).len() == 7 {
                assert(kind_name(a)[2] == kind_name(b)[2]);
            } else if kind_name(a).len() == 9 {
                assert(kind_name(a)[2] == kind_name(b)[2]);
            } else if kind_name(a).len() == 12 {
                assert(kind_name(a)[2] == kind_name(b)[2]);
            } else if kind_name(a).len() == 8 {
                assert(kind_name(a)[1] == kind_name(b)[1]);
            }
        }
    }
}

/// Law: the record of an event determines the event. Two events with the same
/// kind name, worker, message and range are the same event, so the event can
/// always be rebuilt from what [`Event::from`] makes of it.
pub proof fn law_record_determines_event(a: DownloadEvent, b: DownloadEvent)
    requires
        kind_name(a) == kind_name(b),
        worker_of(a) == worker_of(b),
        message_of(a) == message_of(b),
        range_of(a) == range_of(b),
    ensures
        a == b,
{
    lemma_kind_names_differ(a, b);
}

/// Law: an event's worker is the id it carries, whatever the id is, and
/// events without a worker have none.
pub proof fn law_worker_is_the_carried_id(e: DownloadEvent)
    ensures
        match e {
            DownloadEvent::Pulling(i) => worker_of(e) == Some(i),
            DownloadEvent::PullError(i, _) => worker_of(e) == Some(i),
            DownloadEvent::PullTimeout(i) => worker_of(e) == Some(i),
            DownloadEvent::PullProgress(i, _) => worker_of(e) == Some(i),
            DownloadEvent::Pushing(i, _) => worker_of(e) == Some(i),
            DownloadEvent::PushError(i, _, _) => worker_of(e) == Some(i),
            DownloadEvent::PushProgress(i, _) => worker_of(e) == Some(i),
            DownloadEvent::Finished(i) => worker_of(e) == Some(i),
            _ => worker_of(e) is None,
        },
{
}

/// Law: an event's range is the `(start, end)` it carries, unchanged, and
/// events without a range have none.
pub proof fn law_range_is_the_carried_range(e: DownloadEvent)
    ensures
        match e {
            DownloadEvent::PullProgress(_, r) => range_of(e) == Some(r),
            DownloadEvent::Pushing(_, r) => range_of(e) == Some(r),
            DownloadEvent::PushError(_, r, _) => range_of(e) == Some(r),
            DownloadEvent::PushProgress(_, r) => range_of(e) == Some(r),
            _ => range_of(e) is None,
        },
        range_of(e) matches Some(r) ==> r == match e {
            DownloadEvent::PullProgress(_, x) => x,
            DownloadEvent::Pushing(_, x) => x,
            DownloadEvent::PushError(_, x, _) => x,
            DownloadEvent::PushProgress(_, x) => x,
            _ => r,
        },
{
}

} // verus!
