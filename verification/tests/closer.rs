use autostart::closer::{with_timeouts, CloseOutcome, CloseTarget};
use autostart::error::AppError;
use autostart::models::OnClose;

fn target(item_id: &str, process_name: &str) -> CloseTarget {
    CloseTarget { item_id: item_id.into(), process_name: process_name.into(), on_close: OnClose::Graceful }
}

#[test]
fn unfinished_targets_get_one_timeout_each_in_target_order() {
    let finished = vec![("b".to_owned(), CloseOutcome::ClosedGracefully)];
    let all = with_timeouts(finished, &[target("a", "A.exe"), target("b", "B.exe"), target("c", "C.exe")]);
    assert_eq!(
        all,
        vec![
            ("b".to_owned(), CloseOutcome::ClosedGracefully),
            ("a".to_owned(), CloseOutcome::Failed(AppError::CloseTimedOut("A.exe".into()))),
            ("c".to_owned(), CloseOutcome::Failed(AppError::CloseTimedOut("C.exe".into()))),
        ]
    );
}

#[test]
fn a_finished_batch_gets_no_timeouts() {
    let finished = vec![("a".to_owned(), CloseOutcome::Kept), ("b".to_owned(), CloseOutcome::NotRunning)];
    let all = with_timeouts(finished, &[target("b", "B.exe"), target("a", "A.exe")]);
    assert_eq!(all, vec![("a".to_owned(), CloseOutcome::Kept), ("b".to_owned(), CloseOutcome::NotRunning)]);
}

#[test]
fn a_repeated_target_id_times_out_once() {
    let all = with_timeouts(Vec::new(), &[target("a", "A.exe"), target("a", "Other.exe")]);
    assert_eq!(all, vec![("a".to_owned(), CloseOutcome::Failed(AppError::CloseTimedOut("A.exe".into())))]);
}
