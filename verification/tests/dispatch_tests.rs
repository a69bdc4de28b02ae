use job_mailer::dispatch::clamp_delay;
use job_mailer::dispatch::next_delay;
use job_mailer::dispatch::record_attempt;
use job_mailer::dispatch::run_scripted;
use job_mailer::dispatch::BulkRun;
use job_mailer::dispatch::RunParams;
use job_mailer::dispatch::SendOutcome;
use job_mailer::SentLog;

fn addresses(list: &[&str]) -> Vec<String> {
    list.iter().map(|s| s.to_string()).collect()
}

fn stamps(n: usize) -> Vec<String> {
    (0..n).map(|i| format!("2024-05-01 10:0{}:00", i)).collect()
}

#[test]
fn single_failure_is_recorded_not_raised() {
    let mut log = SentLog::new();
    let rec = record_attempt(
        &mut log,
        "one@example.com".to_string(),
        "2024-05-01 10:00:00".to_string(),
        SendOutcome::Failed("mailbox full".to_string()),
    );
    assert!(!rec.success);
    assert_eq!(log.records.len(), 1);
    assert_eq!(log.records[0].email, "one@example.com");
    assert!(!log.records[0].success);
    assert_eq!(log.records[0].error, Some("mailbox full".to_string()));

    let s = log.summarize();
    assert_eq!(s.failures, 1);
    assert_eq!(s.successes, 0);
}

#[test]
fn bulk_appends_in_input_order() {
    let mut log = SentLog::new();
    let recipients = addresses(&["a@example.com", "b@example.com", "c@example.com"]);
    let outcomes = vec![SendOutcome::Delivered, SendOutcome::Delivered, SendOutcome::Delivered];
    let params = RunParams { min_delay: 0, max_delay: 0 };
    let (run, _) = run_scripted(recipients, params, stamps(3), outcomes, &mut log);

    assert_eq!(log.records.len(), 3);
    assert_eq!(log.records[0].email, "a@example.com");
    assert_eq!(log.records[1].email, "b@example.com");
    assert_eq!(log.records[2].email, "c@example.com");
    assert_eq!(run.successes, 3);
    assert_eq!(run.failures, 0);
}

#[test]
fn one_recipient_draws_no_delay() {
    let mut log = SentLog::new();
    let params = RunParams { min_delay: 5, max_delay: 9 };
    let (run, delays) = run_scripted(
        addresses(&["only@example.com"]),
        params,
        stamps(1),
        vec![SendOutcome::Delivered],
        &mut log,
    );
    assert_eq!(run.delays_drawn, 0);
    assert!(delays.is_empty());
}

#[test]
fn n_recipients_draw_n_minus_one_delays() {
    let mut log = SentLog::new();
    let params = RunParams { min_delay: 1, max_delay: 3 };
    let outcomes = vec![
        SendOutcome::Delivered,
        SendOutcome::Failed("greylisted".to_string()),
        SendOutcome::Delivered,
        SendOutcome::Delivered,
    ];
    let (run, delays) = run_scripted(
        addresses(&["a@x.com", "b@x.com", "c@x.com", "d@x.com"]),
        params,
        stamps(4),
        outcomes,
        &mut log,
    );
    assert_eq!(delays.len(), 3);
    assert_eq!(run.delays_drawn, 3);
    for d in delays {
        assert!((1..=3).contains(&d));
    }
    assert_eq!(run.successes, 3);
    assert_eq!(run.failures, 1);
}

#[test]
fn empty_recipient_list_is_a_no_op() {
    let mut log = SentLog::new();
    log.append(job_mailer::SentRecord {
        email: "old@example.com".to_string(),
        sent_at: "2024-04-30 09:00:00".to_string(),
        success: true,
        error: None,
    });
    let params = RunParams { min_delay: 30, max_delay: 60 };
    let (run, delays) = run_scripted(addresses(&[]), params, vec![], vec![], &mut log);

    assert_eq!(log.records.len(), 1);
    assert_eq!(log.records[0].email, "old@example.com");
    assert_eq!(run.successes, 0);
    assert_eq!(run.failures, 0);
    assert_eq!(run.records.len(), 0);
    assert!(delays.is_empty());
    let t = run.tally();
    assert_eq!((t.total, t.successes, t.failures), (0, 0, 0));
}

#[test]
fn stepwise_run_reports_next_recipient_and_completion() {
    let params = RunParams { min_delay: 0, max_delay: 0 };
    let mut run = BulkRun::new(addresses(&["a@x.com", "b@x.com"]), params);
    let mut log = SentLog::new();

    assert!(!run.is_done());
    assert_eq!(run.next_recipient().unwrap().as_str(), "a@x.com");
    let d1 = run.record_outcome(&mut log, "t1".to_string(), SendOutcome::Delivered);
    assert_eq!(d1, Some(0));

    assert_eq!(run.next_recipient().unwrap().as_str(), "b@x.com");
    let d2 = run.record_outcome(&mut log, "t2".to_string(), SendOutcome::Delivered);
    assert_eq!(d2, None);

    assert!(run.is_done());
    assert!(run.next_recipient().is_none());
    assert_eq!(log.records.len(), 2);
}

#[test]
fn fixed_interval_yields_fixed_delay() {
    let params = RunParams { min_delay: 4, max_delay: 4 };
    for _ in 0..20 {
        assert_eq!(next_delay(&params), 4);
    }
}

#[test]
fn randomized_delays_stay_within_bounds() {
    let params = RunParams { min_delay: 2, max_delay: 5 };
    for _ in 0..200 {
        let d = next_delay(&params);
        assert!((2..=5).contains(&d));
    }
}

#[test]
fn clamp_delay_pins_out_of_range_values() {
    let params = RunParams { min_delay: 3, max_delay: 6 };
    assert_eq!(clamp_delay(&params, 1), 3);
    assert_eq!(clamp_delay(&params, 9), 6);
    assert_eq!(clamp_delay(&params, 5), 5);
}
