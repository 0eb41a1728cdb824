use fastdown::error::ToPyError;
use fastdown::session::{
    download_outcome, next_action, prefetch_cancelled, prefetch_outcome, take_rx, LoopAction, LoopInput,
};
use fastdown::target::parse_target;

#[test]
fn loop_decisions() {
    assert!(matches!(next_action(true, LoopInput::Finished), LoopAction::Stop));
    assert!(matches!(next_action(false, LoopInput::Finished), LoopAction::Stop));
    assert!(matches!(next_action(true, LoopInput::Event), LoopAction::Deliver));
    assert!(matches!(next_action(false, LoopInput::Event), LoopAction::Drop));
    assert!(matches!(next_action(true, LoopInput::Closed), LoopAction::AwaitResult));
    assert!(matches!(next_action(false, LoopInput::Closed), LoopAction::AwaitResult));
}

#[test]
fn second_start_is_refused() {
    let mut slot = Some(5u32);
    assert_eq!(take_rx(&mut slot), Ok(5));
    assert_eq!(slot, None);
    assert_eq!(take_rx(&mut slot), Err("Download task is running".to_string()));
}

#[test]
fn outcomes_name_the_failure() {
    assert_eq!(download_outcome::<u8>(Ok(1)), Ok(1));
    assert_eq!(
        download_outcome::<u8>(Err("IO error: gone".to_string())),
        Err("Download task failed: IO error: gone".to_string())
    );
    assert_eq!(
        prefetch_outcome::<u8>(Err("Task is already running".to_string())),
        Err("Prefetch Failed: Task is already running".to_string())
    );
}

#[test]
fn convert_err_on_results_and_options() {
    assert_eq!(Ok::<u8, String>(3).convert_err("t"), Ok(3));
    assert_eq!(Err::<u8, String>("e".to_string()).convert_err("t"), Err("t: e".to_string()));
    assert_eq!(Some(4u8).convert_err("t"), Ok(4));
    assert_eq!(None::<u8>.convert_err("t"), Err("t".to_string()));
}

#[test]
fn urls_are_parsed() {
    let u = parse_target("https://example.com/file.bin").unwrap();
    assert_eq!(u.as_str(), "https://example.com/file.bin");
    assert_eq!(
        parse_target("not a url").unwrap_err(),
        "Invalid URL: relative URL without a base"
    );
    assert_eq!(parse_target("http://").unwrap_err(), "Invalid URL: empty host");
}

#[test]
fn cancelled_prefetch_is_worded() {
    assert_eq!(prefetch_cancelled(), "Prefetch Cancelled");
}
