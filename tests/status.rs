use ya_market::status::{payment_status_outcome, platform_selected, PaymentStatusOutcome};

type Outcome = PaymentStatusOutcome<u32, &'static str>;

fn describe(o: Outcome) -> String {
    match o {
        PaymentStatusOutcome::Both { zk, plain } => format!("both {} {}", zk, plain),
        PaymentStatusOutcome::ZkOnly { zk } => format!("zk {}", zk),
        PaymentStatusOutcome::PlainOnly { plain } => format!("plain {}", plain),
        PaymentStatusOutcome::Failed { error } => format!("failed {}", error),
    }
}

#[test]
fn both_platforms_answer() {
    assert_eq!(describe(payment_status_outcome(Ok(1), Ok(2), true, true)), "both 1 2");
}

#[test]
fn error_of_used_platform_fails() {
    assert_eq!(describe(payment_status_outcome(Err("zk"), Ok(2), true, false)), "failed zk");
    assert_eq!(describe(payment_status_outcome(Ok(1), Err("plain"), false, true)), "failed plain");
    assert_eq!(describe(payment_status_outcome(Err("zk"), Err("plain"), true, true)), "failed zk");
    assert_eq!(describe(payment_status_outcome(Err("zk"), Err("plain"), false, true)), "failed plain");
}

#[test]
fn error_of_other_platform_shows_empty() {
    assert_eq!(describe(payment_status_outcome(Ok(1), Err("plain"), true, false)), "zk 1");
    assert_eq!(describe(payment_status_outcome(Err("zk"), Ok(2), false, true)), "plain 2");
    assert_eq!(describe(payment_status_outcome(Err("zk"), Err("plain"), false, false)), "failed zk");
}

#[test]
fn platform_selection() {
    assert!(platform_selected(None, "zk"));
    assert!(platform_selected(Some("zk"), "zk"));
    assert!(!platform_selected(Some("plain"), "zk"));
}
