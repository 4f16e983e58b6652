use td_client::error::{InvalidArgument, TreasureDataError};
use td_client::poller::{str_eq, wait_step, JobStatus};
use td_client::transport::{parse_content_length, DownloadProgress};

/// Runs polls through `wait_step` as a waiting loop would; gives the result and the number of
/// sleeps taken before it.
fn run_wait(polls: Vec<Result<JobStatus, TreasureDataError>>) -> (Result<JobStatus, TreasureDataError>, usize) {
    let mut sleeps = 0;
    for poll in polls {
        match wait_step(poll) {
            Some(r) => return (r, sleeps),
            None => sleeps += 1,
        }
    }
    panic!("polls ran out before the wait ended");
}

#[test]
fn wait_ends_on_success_after_three_sleeps() {
    let (r, sleeps) = run_wait(vec![
        Ok(JobStatus::Queued),
        Ok(JobStatus::Running),
        Ok(JobStatus::Running),
        Ok(JobStatus::Success),
    ]);
    assert_eq!(r, Ok(JobStatus::Success));
    assert_eq!(sleeps, 3);
}

#[test]
fn wait_rides_over_transient_errors() {
    let (r, sleeps) = run_wait(vec![
        Err(TreasureDataError::HttpError("connection reset".to_string())),
        Err(TreasureDataError::ApiError(503, "busy".to_string())),
        Ok(JobStatus::Success),
    ]);
    assert_eq!(r, Ok(JobStatus::Success));
    assert_eq!(sleeps, 2);
}

#[test]
fn wait_stops_at_once_on_decode_error() {
    let (r, sleeps) = run_wait(vec![
        Err(TreasureDataError::JsonDecodeError("done".to_string())),
        Ok(JobStatus::Success),
    ]);
    assert_eq!(r, Err(TreasureDataError::JsonDecodeError("done".to_string())));
    assert_eq!(sleeps, 0);
}

#[test]
fn wait_ends_on_every_final_status() {
    for s in [JobStatus::Success, JobStatus::Error, JobStatus::Killed] {
        assert_eq!(wait_step(Ok(s)), Some(Ok(s)));
        assert!(s.is_terminal());
    }
    for s in [JobStatus::Queued, JobStatus::Running] {
        assert_eq!(wait_step(Ok(s)), None);
        assert!(!s.is_terminal());
    }
}

#[test]
fn status_names() {
    assert_eq!(JobStatus::from_str("queued"), Ok(JobStatus::Queued));
    assert_eq!(JobStatus::from_str("running"), Ok(JobStatus::Running));
    assert_eq!(JobStatus::from_str("success"), Ok(JobStatus::Success));
    assert_eq!(JobStatus::from_str("killed"), Ok(JobStatus::Killed));
    assert_eq!(JobStatus::from_str("error"), Ok(JobStatus::Error));
    assert_eq!(
        JobStatus::from_str("booting"),
        Err(TreasureDataError::JsonDecodeError("booting".to_string()))
    );
    assert_eq!(
        JobStatus::from_str("Success"),
        Err(TreasureDataError::JsonDecodeError("Success".to_string()))
    );
}

#[test]
fn string_equality() {
    assert!(str_eq("abc", "abc"));
    assert!(!str_eq("abc", "abd"));
    assert!(!str_eq("abc", "ab"));
    assert!(str_eq("", ""));
}

#[test]
fn content_length_is_read() {
    assert_eq!(parse_content_length(Some(b"123")), Ok(123));
    assert_eq!(parse_content_length(Some(b"+7")), Ok(7));
    assert_eq!(parse_content_length(Some(b"0")), Ok(0));
    assert_eq!(
        parse_content_length(Some(b"18446744073709551615")),
        Ok(usize::MAX)
    );
}

#[test]
fn missing_content_length_fails() {
    assert!(matches!(
        parse_content_length(None),
        Err(TreasureDataError::TransportError(_))
    ));
}

#[test]
fn unreadable_content_length_fails() {
    for h in [&b""[..], b"+", b"12a", b"-1", b" 1", b"18446744073709551616"] {
        assert!(
            matches!(parse_content_length(Some(h)), Err(TreasureDataError::TransportError(_))),
            "{:?}",
            h
        );
    }
}

#[test]
fn download_within_declared_length() {
    let mut p = DownloadProgress::new(10);
    assert!(!p.is_done());
    assert_eq!(p.record(4), Ok(4));
    assert_eq!(p.record(6), Ok(6));
    assert!(p.is_done());
    assert!(!p.overran());
}

#[test]
fn download_overrun_is_cut_and_flagged() {
    let mut p = DownloadProgress::new(10);
    assert_eq!(p.record(8), Ok(8));
    assert_eq!(p.record(8), Ok(2));
    assert!(p.is_done());
    assert!(p.overran());
}

#[test]
fn download_cut_short_is_an_error() {
    let mut p = DownloadProgress::new(10);
    assert_eq!(p.record(3), Ok(3));
    assert!(matches!(p.record(0), Err(TreasureDataError::IoError(_))));
    let mut empty = DownloadProgress::new(0);
    assert!(empty.is_done());
    assert_eq!(empty.record(0), Ok(0));
}

#[test]
fn invalid_argument_converts() {
    let e = TreasureDataError::from(InvalidArgument {
        key: "src_table_name".to_string(),
        value: "not found".to_string(),
    });
    assert!(matches!(e, TreasureDataError::InvalidArgumentError(ref a) if a.key == "src_table_name"));
}
