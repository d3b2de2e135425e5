//! Deduplication, scheduling under the concurrency cap, per-transfer
//! state, the progress registry, and the final tally.

use osudl::dedup::{collect_existing_ids, parse_leading_id, remove_duplicates};
use osudl::game_mode::GameModeOption;
use osudl::outcome::{tally, FailureReason, Summary, TransferOutcome};
use osudl::progress::ProgressLog;
use osudl::scheduler::Scheduler;
use osudl::transfer::{build_download_url, TransferPhase, TransferRequest, TransferTask};

fn bytes(s: &str) -> Vec<u8> {
    s.as_bytes().to_vec()
}

#[test]
fn no_local_library_keeps_everything() {
    // with no discoverable library, every requested identifier is attempted
    let (kept, removed) = remove_duplicates(vec![5, 6, 5, 7], None);
    assert_eq!(kept, vec![5, 6, 5, 7]);
    assert_eq!(removed, 0);
}

#[test]
fn dedup_drops_present_ids() {
    // the end-to-end dedup scenario
    let existing = vec![202];
    let (kept, removed) = remove_duplicates(vec![101, 202, 303], Some(&existing));
    assert_eq!(kept, vec![101, 303]);
    assert_eq!(removed, 1);
}

#[test]
fn dedup_counts_every_occurrence() {
    let existing = vec![1, 2];
    let (kept, removed) = remove_duplicates(vec![1, 3, 1, 2, 3], Some(&existing));
    assert_eq!(kept, vec![3, 3]);
    assert_eq!(removed, 3);
}

#[test]
fn parse_leading_id_variants() {
    assert_eq!(parse_leading_id(&bytes("123 Artist - Title")), Some(123));
    assert_eq!(parse_leading_id(&bytes("789")), Some(789));
    assert_eq!(parse_leading_id(&bytes("+12 x")), Some(12));
    assert_eq!(parse_leading_id(&bytes("4294967295 max")), Some(u32::MAX));
    assert_eq!(parse_leading_id(&bytes("4294967296 too big")), None);
    assert_eq!(parse_leading_id(&bytes("no id here")), None);
    assert_eq!(parse_leading_id(&bytes("456stuff")), None);
    assert_eq!(parse_leading_id(&bytes(" 5")), None);
    assert_eq!(parse_leading_id(&bytes("")), None);
}

#[test]
fn collect_existing_ids_skips_non_numeric() {
    let names = vec![bytes("123 Foo"), bytes("bar"), bytes("77 Baz"), bytes("")];
    assert_eq!(collect_existing_ids(&names), vec![123, 77]);
}

#[test]
fn scheduler_respects_cap() {
    // with more work than slots, at most the cap is ever active
    let mut s = Scheduler::new(vec![1, 2, 3, 4, 5, 6, 7], 3);
    let mut launched = Vec::new();
    while s.can_launch() {
        launched.push(s.launch());
        assert!(s.active_count() <= 3);
    }
    assert_eq!(launched, vec![1, 2, 3]);
    assert_eq!(s.active_count(), 3);
    assert!(!s.can_launch());

    // finishing one frees exactly one slot
    let slot = s.find_active_slot(2).unwrap();
    s.complete(slot, TransferOutcome::Success(2));
    assert_eq!(s.active_count(), 2);
    assert!(s.can_launch());
}

#[test]
fn one_failure_does_not_stop_the_rest() {
    let ids = vec![10, 20, 30, 40];
    let mut s = Scheduler::new(ids.clone(), 2);
    let mut finished = 0;
    while !s.is_done() {
        while s.can_launch() {
            s.launch();
        }
        // finish the oldest active transfer; 30 suffers a transport fault
        let slot = 0;
        let id = {
            let mut found = None;
            for candidate in &ids {
                if let Some(i) = s.find_active_slot(*candidate) {
                    if i == slot {
                        found = Some(*candidate);
                        break;
                    }
                }
            }
            found.unwrap()
        };
        let outcome = if id == 30 {
            TransferOutcome::Failure(id, FailureReason::Transport)
        } else {
            TransferOutcome::Success(id)
        };
        s.complete(slot, outcome);
        finished += 1;
    }
    assert_eq!(finished, 4);
    let summary = s.summary();
    // every identifier is counted exactly once: the fault is isolated
    assert_eq!(summary, Summary { succeeded: 3, failed: 1 });
}

#[test]
fn tally_counts_each_outcome_once() {
    let outcomes = vec![
        TransferOutcome::Success(1),
        TransferOutcome::Failure(2, FailureReason::Io),
        TransferOutcome::Failure(3, FailureReason::Unexpected),
        TransferOutcome::Success(4),
    ];
    let summary = tally(&outcomes);
    assert_eq!(summary.succeeded, 2);
    assert_eq!(summary.failed, 2);
}

#[test]
fn missing_length_is_a_failure_not_a_panic() {
    let mut t = TransferTask::start(9);
    let accepted = t.on_response(None);
    assert!(!accepted);
    assert_eq!(t.current_phase(), TransferPhase::Finished);
    assert_eq!(t.outcome(), TransferOutcome::Failure(9, FailureReason::MissingLength));
}

#[test]
fn zero_length_is_a_failure_not_a_panic() {
    let mut t = TransferTask::start(9);
    let accepted = t.on_response(Some(0));
    assert!(!accepted);
    assert_eq!(t.outcome(), TransferOutcome::Failure(9, FailureReason::EmptyContent));
}

#[test]
fn chunks_advance_and_clamp() {
    let mut t = TransferTask::start(5);
    assert!(t.on_response(Some(10)));
    assert_eq!(t.current_phase(), TransferPhase::Streaming);
    assert_eq!(t.on_chunk(7, true), 7);
    // a server sending more than it declared is clamped at the total
    assert_eq!(t.on_chunk(7, true), 10);
    t.on_body_end();
    assert_eq!(t.outcome(), TransferOutcome::Success(5));
}

#[test]
fn failed_write_is_an_io_failure() {
    let mut t = TransferTask::start(6);
    t.on_response(Some(4));
    t.on_chunk(4, false);
    assert_eq!(t.outcome(), TransferOutcome::Failure(6, FailureReason::Io));
}

#[test]
fn broken_stream_is_a_transport_failure() {
    let mut t = TransferTask::start(7);
    t.on_response(Some(4));
    t.on_chunk(2, true);
    t.on_body_error();
    assert_eq!(t.outcome(), TransferOutcome::Failure(7, FailureReason::Transport));
}

#[test]
fn request_error_is_a_transport_failure() {
    let mut t = TransferTask::start(8);
    t.on_request_error();
    assert_eq!(t.outcome(), TransferOutcome::Failure(8, FailureReason::Transport));
}

#[test]
fn download_url_substitutes_the_id() {
    assert_eq!(
        build_download_url(8098),
        bytes("https://txy1.sayobot.cn/beatmaps/download/mini/8098?server=auto")
    );
    let req = TransferRequest::new(1);
    assert_eq!(req.id, 1);
    assert_eq!(req.url, bytes("https://txy1.sayobot.cn/beatmaps/download/mini/1?server=auto"));
}

#[test]
fn progress_entries_are_isolated() {
    let mut log = ProgressLog::new();
    let a = log.register(1, 100);
    let b = log.register(2, 50);
    assert_eq!(a, 0);
    assert_eq!(b, 1);
    log.advance(b, 25);
    let ea = log.entry_at(a);
    let eb = log.entry_at(b);
    // only the advanced entry moved
    assert_eq!(ea.downloaded, 0);
    assert_eq!(eb.downloaded, 25);
    log.finish(a);
    assert!(log.entry_at(a).finished);
    assert!(!log.entry_at(b).finished);
    assert_eq!(log.len(), 2);
}

#[test]
fn game_mode_names_and_choices() {
    assert_eq!(GameModeOption::Mania.name(), "Mania");
    assert_eq!(GameModeOption::all().len(), 4);
    assert_eq!(GameModeOption::from_choice(1), Some(GameModeOption::Mania));
    assert_eq!(GameModeOption::from_choice(2), None);
}
