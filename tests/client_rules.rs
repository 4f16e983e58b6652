use td_client::endpoint::{endpoint_with_protocol, with_protocol};
use td_client::error::TreasureDataError;
use td_client::poller::{parse_job_status, JobStatus};

#[test]
fn endpoint() {
    assert_eq!("https://foo.com", endpoint_with_protocol("https://foo.com"));
    assert_eq!("http://bar.com", endpoint_with_protocol("http://bar.com"));
    assert_eq!("https://baz.com", endpoint_with_protocol("baz.com"));
}

#[test]
fn endpoint_scheme_must_lead() {
    assert_eq!("https://x.com/http://", endpoint_with_protocol("x.com/http://"));
    assert_eq!("https://", endpoint_with_protocol(""));
}

#[test]
fn job_status_body_is_read() {
    assert_eq!(parse_job_status(r#"{"status":"running","job_id":"1"}"#), Ok(JobStatus::Running));
    assert_eq!(parse_job_status(r#"{"status":"success"}"#), Ok(JobStatus::Success));
}

#[test]
fn job_status_body_errors() {
    assert!(matches!(parse_job_status("not json"), Err(TreasureDataError::JsonParseError(_))));
    assert!(matches!(parse_job_status(r#"{"state":"running"}"#), Err(TreasureDataError::JsonDecodeError(_))));
    assert!(matches!(parse_job_status(r#"{"status":3}"#), Err(TreasureDataError::JsonDecodeError(_))));
    assert_eq!(
        parse_job_status(r#"{"status":"paused"}"#),
        Err(TreasureDataError::JsonDecodeError("paused".to_string()))
    );
}

#[test]
fn protocol_is_added_only_when_missing() {
    assert_eq!(with_protocol("a.com", false), "https://a.com");
    assert_eq!(with_protocol("http://a.com", true), "http://a.com");
}

#[test]
fn deeply_nested_status_body_is_refused() {
    let body = "[".repeat(100_000);
    assert!(matches!(parse_job_status(&body), Err(TreasureDataError::JsonDecodeError(_))));
}

#[test]
fn brackets_inside_strings_do_not_count() {
    let body = format!(r#"{{"status":"killed","note":"{}"}}"#, "[{".repeat(5000));
    assert_eq!(parse_job_status(&body), Ok(JobStatus::Killed));
    let body = r#"{"x":"\"[[[ \\","status":"queued"}"#;
    assert_eq!(parse_job_status(&body), Ok(JobStatus::Queued));
}

#[test]
fn moderately_nested_status_body_is_read() {
    let body = format!(r#"{{"status":"error","x":{}1{}}}"#, "[".repeat(300), "]".repeat(300));
    assert_eq!(parse_job_status(&body), Ok(JobStatus::Error));
}
