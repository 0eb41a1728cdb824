use fastdown::event::{DownloadEvent, Event};

fn parts(e: &Event) -> (String, Option<usize>, Option<String>, Option<(u64, u64)>) {
    (e.event_type.clone(), e.id, e.message.clone(), e.range)
}

#[test]
fn every_kind_keeps_its_fields() {
    let cases = vec![
        (DownloadEvent::PrefetchError("e".into()), ("PrefetchError", None, Some("e"), None)),
        (DownloadEvent::Pulling(1), ("Pulling", Some(1), None, None)),
        (DownloadEvent::PullError(2, "bad".into()), ("PullError", Some(2), Some("bad"), None)),
        (DownloadEvent::PullTimeout(3), ("PullTimeout", Some(3), None, None)),
        (DownloadEvent::PullProgress(4, (0, 10)), ("PullProgress", Some(4), None, Some((0, 10)))),
        (DownloadEvent::Pushing(5, (10, 20)), ("Pushing", Some(5), None, Some((10, 20)))),
        (DownloadEvent::PushError(6, (20, 30), "disk".into()), ("PushError", Some(6), Some("disk"), Some((20, 30)))),
        (DownloadEvent::PushProgress(7, (30, 40)), ("PushProgress", Some(7), None, Some((30, 40)))),
        (DownloadEvent::Flushing, ("Flushing", None, None, None)),
        (DownloadEvent::FlushError("full".into()), ("FlushError", None, Some("full"), None)),
        (DownloadEvent::Finished(8), ("Finished", Some(8), None, None)),
    ];
    for (input, (ty, id, msg, range)) in cases {
        let e = Event::from(input);
        assert_eq!(parts(&e), (ty.to_string(), id, msg.map(|m: &str| m.to_string()), range));
    }
}

#[test]
fn repr_of_an_event() {
    let e = Event::from(DownloadEvent::Pulling(3));
    assert_eq!(e.repr(), "Event(type='Pulling', id=Some(3), message='None', range=None)");
    let e = Event::from(DownloadEvent::PushError(1, (5, 9), "no \"space\"".into()));
    assert_eq!(
        e.repr(),
        "Event(type='PushError', id=Some(1), message='Some(\"no \\\"space\\\"\")', range=Some((5, 9)))"
    );
    let e = Event::from(DownloadEvent::Flushing);
    assert_eq!(e.repr(), "Event(type='Flushing', id=None, message='None', range=None)");
}

#[test]
fn repr_matches_the_debug_forms() {
    let e = Event::from(DownloadEvent::PushProgress(12, (100, 2000)));
    let expected = format!(
        "Event(type='{}', id={:?}, message='{:?}', range={:?})",
        e.event_type, e.id, e.message, e.range
    );
    assert_eq!(e.repr(), expected);
}

#[test]
fn different_events_give_different_records() {
    let events = vec![
        DownloadEvent::PrefetchError("e".into()),
        DownloadEvent::PullError(1, "e".into()),
        DownloadEvent::PushError(1, (0, 1), "e".into()),
        DownloadEvent::FlushError("e".into()),
        DownloadEvent::Pulling(1),
        DownloadEvent::Pushing(1, (0, 1)),
        DownloadEvent::PullProgress(1, (0, 1)),
        DownloadEvent::PushProgress(1, (0, 1)),
        DownloadEvent::PullTimeout(1),
        DownloadEvent::Finished(1),
        DownloadEvent::Flushing,
    ];
    let records: Vec<_> = events.into_iter().map(|e| parts(&Event::from(e))).collect();
    for i in 0..records.len() {
        for j in 0..records.len() {
            assert_eq!(i == j, records[i] == records[j]);
        }
    }
}
