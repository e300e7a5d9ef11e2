use branchwater_server::admission::{
    refusal, slot_held, AdmissionControl, Event, Phase, CONCURRENCY_CEILING, TIME_BUDGET_SECS,
};
use branchwater_server::failure::{Failure, FailureKind};
use branchwater_server::reply::{failure_reply, health_reply, report_reply, search_reply, Reply};
use branchwater_server::gateway::{check_body_size, first_sketch, MAX_BODY_BYTES};
use branchwater_server::settings::{
    derive_threshold, health, mark_location, selection_parameters, signal_location,
};

#[test]
fn a_body_over_the_ceiling_is_refused() {
    assert_eq!(MAX_BODY_BYTES, 5_120_000);
    let refused = check_body_size(MAX_BODY_BYTES + 1).unwrap_err();
    assert_eq!(refused, Failure::PayloadTooLarge);
    assert_eq!(refused.kind(), FailureKind::MalformedInput);
    assert_eq!(refused.status(), 413);
    assert!(refused.status() >= 400 && refused.status() < 500);
    assert_eq!(refused.message(), "Request payload is too large");
    assert_eq!(check_body_size(u64::MAX), Err(Failure::PayloadTooLarge));
}

#[test]
fn a_body_up_to_the_ceiling_is_accepted() {
    assert_eq!(check_body_size(0), Ok(()));
    assert_eq!(check_body_size(1), Ok(()));
    assert_eq!(check_body_size(MAX_BODY_BYTES), Ok(()));
}

#[test]
fn an_empty_container_is_malformed() {
    let failure = first_sketch(Vec::<String>::new()).unwrap_err();
    assert_eq!(failure, Failure::MalformedInput("the container holds no sketch".to_string()));
    assert_eq!(failure.kind(), FailureKind::MalformedInput);
    assert_eq!(failure.status(), 400);
    assert_eq!(failure.message(), "Error parsing signature: the container holds no sketch");
}

#[test]
fn the_first_sketch_of_a_container_is_taken() {
    assert_eq!(first_sketch(vec!["only"]), Ok("only"));
    assert_eq!(first_sketch(vec![3, 1, 2]), Ok(3));
    assert_eq!(first_sketch(vec!["a".to_string(), "b".to_string()]), Ok("a".to_string()));
}

#[test]
fn each_failure_has_its_kind_status_and_text() {
    let cases: Vec<(Failure, FailureKind, u16, &str)> = vec![
        (
            Failure::PayloadTooLarge,
            FailureKind::MalformedInput,
            413,
            "Request payload is too large",
        ),
        (
            Failure::MalformedInput("expected value at line 1 column 1".to_string()),
            FailureKind::MalformedInput,
            400,
            "Error parsing signature: expected value at line 1 column 1",
        ),
        (
            Failure::IncompatibleSketch("cannot upsample".to_string()),
            FailureKind::IncompatibleSketch,
            400,
            "Error parsing signature: cannot upsample",
        ),
        (
            Failure::IncomparableQuery,
            FailureKind::IncomparableQuery,
            500,
            "Something went wrong: Could not extract compatible sketch to compare",
        ),
        (
            Failure::SearchFailed("task panicked".to_string()),
            FailureKind::InternalError,
            500,
            "Something went wrong: task panicked",
        ),
        (
            Failure::StaticAsset("no such file".to_string()),
            FailureKind::InternalError,
            500,
            "Unhandled static serve error: no such file",
        ),
        (
            Failure::Overloaded,
            FailureKind::Overloaded,
            503,
            "service is overloaded, try again later",
        ),
        (Failure::TimedOut, FailureKind::TimedOut, 408, "request timed out"),
        (
            Failure::Unhandled("boom".to_string()),
            FailureKind::InternalError,
            500,
            "Unhandled internal error: boom",
        ),
    ];
    for (failure, kind, status, text) in cases {
        assert_eq!(failure.kind(), kind);
        assert_eq!(failure.status(), status);
        assert_eq!(failure.message(), text);
        assert_eq!(
            failure_reply(&failure),
            Reply {
                status,
                content_type: "text/plain; charset=utf-8",
                body: text.to_string()
            }
        );
    }
}

#[test]
fn an_empty_detail_leaves_the_bare_prefix() {
    assert_eq!(Failure::Unhandled(String::new()).message(), "Unhandled internal error: ");
    assert_eq!(Failure::MalformedInput(String::new()).message(), "Error parsing signature: ");
}

#[test]
fn requests_beyond_the_ceiling_are_shed() {
    assert_eq!(CONCURRENCY_CEILING, 200);
    let mut control = AdmissionControl::new(CONCURRENCY_CEILING);
    assert_eq!(control.ceiling(), 200);
    let mut admitted = Vec::new();
    for _ in 0..CONCURRENCY_CEILING {
        let phase = control.step(Phase::Pending, Event::Arrive);
        assert_eq!(phase, Phase::Admitted);
        admitted.push(control.step(phase, Event::Start));
    }
    assert_eq!(control.in_flight(), 200);
    assert!(admitted.iter().all(|p| *p == Phase::Running));

    for _ in 0..25 {
        let phase = control.step(Phase::Pending, Event::Arrive);
        assert_eq!(phase, Phase::Shed);
        assert_eq!(control.in_flight(), 200);
        let failure = refusal(phase).unwrap();
        assert_eq!(failure, Failure::Overloaded);
        assert_eq!(failure.status(), 503);
        assert_eq!(control.step(phase, Event::Start), Phase::Shed);
        assert_eq!(control.in_flight(), 200);
    }

    assert_eq!(control.step(admitted[0], Event::Finish), Phase::Completed);
    assert_eq!(control.in_flight(), 199);
    assert_eq!(control.step(Phase::Pending, Event::Arrive), Phase::Admitted);
    assert_eq!(control.in_flight(), 200);
    assert_eq!(control.step(Phase::Pending, Event::Arrive), Phase::Shed);
}

#[test]
fn a_request_over_its_time_is_timed_out() {
    assert_eq!(TIME_BUDGET_SECS, 3600);
    let mut control = AdmissionControl::new(2);
    let phase = control.step(Phase::Pending, Event::Arrive);
    let phase = control.step(phase, Event::Start);
    assert_eq!(phase, Phase::Running);
    assert_eq!(control.in_flight(), 1);
    let phase = control.step(phase, Event::Deadline);
    assert_eq!(phase, Phase::TimedOut);
    assert_eq!(control.in_flight(), 0);
    let failure = refusal(phase).unwrap();
    assert_eq!(failure, Failure::TimedOut);
    assert_eq!(failure.status(), 408);
    assert_eq!(failure.message(), "request timed out");
    assert_eq!(control.step(phase, Event::Finish), Phase::TimedOut);
    assert_eq!(control.in_flight(), 0);
}

#[test]
fn a_request_goes_through_its_phases() {
    let mut control = AdmissionControl::new(1);
    assert_eq!(control.in_flight(), 0);
    let phase = control.step(Phase::Pending, Event::Start);
    assert_eq!(phase, Phase::Pending);
    let phase = control.step(phase, Event::Arrive);
    assert_eq!(phase, Phase::Admitted);
    assert_eq!(control.in_flight(), 1);
    assert_eq!(control.step(phase, Event::Finish), Phase::Admitted);
    assert_eq!(control.step(phase, Event::Deadline), Phase::Admitted);
    let phase = control.step(phase, Event::Start);
    assert_eq!(phase, Phase::Running);
    assert_eq!(control.in_flight(), 1);
    assert_eq!(control.step(phase, Event::Arrive), Phase::Running);
    let failed = control.step(phase, Event::Fail);
    assert_eq!(failed, Phase::Failed);
    assert_eq!(control.in_flight(), 0);
    assert_eq!(refusal(failed), None);
    assert_eq!(refusal(Phase::Completed), None);
    assert_eq!(refusal(Phase::Running), None);
}

#[test]
fn a_ceiling_of_zero_sheds_everything() {
    let mut control = AdmissionControl::new(0);
    assert_eq!(control.step(Phase::Pending, Event::Arrive), Phase::Shed);
    assert_eq!(control.in_flight(), 0);
}

#[test]
fn a_request_that_holds_no_slot_frees_none() {
    let mut control = AdmissionControl::new(3);
    assert_eq!(control.step(Phase::Running, Event::Finish), Phase::Completed);
    assert_eq!(control.in_flight(), 0);
}

#[test]
fn slots_are_held_while_admitted_or_running() {
    assert!(slot_held(Phase::Admitted));
    assert!(slot_held(Phase::Running));
    for phase in [Phase::Pending, Phase::Completed, Phase::TimedOut, Phase::Shed, Phase::Failed] {
        assert!(!slot_held(phase));
    }
}

#[test]
fn the_threshold_is_the_cut_off_over_the_sampling_rate() {
    assert_eq!(derive_threshold(50000, 1000), 50);
    assert_eq!(derive_threshold(50000, 100), 500);
    assert_eq!(derive_threshold(999, 1000), 0);
    assert_eq!(derive_threshold(1999, 1000), 1);
    assert_eq!(derive_threshold(0, 7), 0);
    assert_eq!(derive_threshold(usize::MAX, 1), usize::MAX);
}

#[test]
fn the_selection_takes_the_k_mer_size_and_the_sampling_rate() {
    let selection = selection_parameters(21, 1000);
    assert_eq!(selection.ksize, 21);
    assert_eq!(selection.scaled, 1000);
    let selection = selection_parameters(255, u32::MAX as usize);
    assert_eq!(selection.ksize, 255);
    assert_eq!(selection.scaled, u32::MAX);
    let wide: u64 = (1u64 << 32) + 5;
    assert_eq!(selection_parameters(31, wide as usize).scaled, wide as usize as u32);
    assert_eq!(selection_parameters(0, 0).scaled, 0);
}

#[test]
fn a_location_is_marked_as_archive_or_directory() {
    assert_eq!(mark_location("sigs.zip", true), "zip://sigs.zip");
    assert_eq!(mark_location("/data/sigs", false), "fs:///data/sigs");
    assert_eq!(mark_location("", false), "fs://");
}

#[test]
fn a_location_is_an_archive_where_its_last_component_is_dot_zip() {
    assert_eq!(signal_location("data/.zip"), "zip://data/.zip");
    assert_eq!(signal_location(".zip"), "zip://.zip");
    assert_eq!(signal_location("data/sigs.zip"), "fs://data/sigs.zip");
    assert_eq!(signal_location("/data/sigs"), "fs:///data/sigs");
}

#[test]
fn health_reports_the_number_of_indices() {
    let report = health(3);
    assert_eq!(report.status, "ok");
    assert_eq!(report.db_count, 3);
    assert_eq!(health(0).db_count, 0);
}

#[test]
fn a_report_is_sent_as_plain_text() {
    let reply = report_reply("SRA accession,containment\nSRR1,0.5".to_string());
    assert_eq!(reply.status, 200);
    assert_eq!(reply.content_type, "text/plain; charset=utf-8");
    assert_eq!(reply.body, "SRA accession,containment\nSRR1,0.5");
    assert_eq!(search_reply(Ok("SRA accession,containment".to_string())).status, 200);
    assert_eq!(search_reply(Ok(String::new())).body, "");
}

#[test]
fn a_failed_search_is_answered_with_its_failure() {
    let reply = search_reply(Err(Failure::IncomparableQuery));
    assert_eq!(reply.status, 500);
    assert_eq!(reply.content_type, "text/plain; charset=utf-8");
    assert_eq!(
        reply.body,
        "Something went wrong: Could not extract compatible sketch to compare"
    );
    let reply = search_reply(Err(Failure::SearchFailed("index is gone".to_string())));
    assert_eq!(reply.status, 500);
    assert_eq!(reply.body, "Something went wrong: index is gone");
}

#[test]
fn the_liveness_reply_is_json() {
    let reply = health_reply("{\"status\":\"ok\",\"db_count\":2}".to_string());
    assert_eq!(reply.status, 200);
    assert_eq!(reply.content_type, "application/json");
    assert_eq!(reply.body, "{\"status\":\"ok\",\"db_count\":2}");
}
