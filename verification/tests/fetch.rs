use f1_led_circuit::fetch::{FetchError, FetchJob, Request, Response, SessionWindow};
use f1_led_circuit::telemetry::{RawRecord, Sample};
use f1_led_circuit::track::Position;

const WINDOW: SessionWindow = SessionWindow { session_key: 9149, from_ms: 1_693_141_136_200, until_ms: 1_693_142_454_300 };

fn record(participant_id: u32, x: i32, second: u32) -> RawRecord {
    RawRecord { x, y: 7, date: format!("1970-01-01T00:00:{:02}Z", second), participant_id }
}

fn sample(participant_id: u32, x: i32, second: u32) -> Sample {
    Sample { participant_id, position: Position { x, y: 7 }, timestamp_ms: second as i64 * 1_000 }
}

fn page(participant_id: u32, count: u32) -> Vec<RawRecord> {
    (0..count).map(|k| record(participant_id, 1 + k as i32, k)).collect()
}

/// Runs a job against a source that answers each participant from a script.
fn run(mut job: FetchJob, answer: &dyn Fn(&Request, usize) -> Response) -> (Vec<Request>, Result<Vec<Sample>, FetchError>) {
    let mut asked: Vec<Request> = Vec::new();
    while let Some(request) = job.next_request() {
        let nth = asked.iter().filter(|r| r.participant_id == request.participant_id).count();
        asked.push(request);
        job = job.on_response(answer(&request, nth));
        assert!(asked.len() < 1_000);
    }
    assert!(job.is_over());
    (asked, job.finish())
}

#[test]
fn a_job_needs_batches_of_at_least_one() {
    assert!(FetchJob::new(WINDOW, vec![1, 2], 0, 10).is_none());
    assert!(FetchJob::new(WINDOW, Vec::new(), 0, 0).is_none());
    assert!(FetchJob::new(WINDOW, vec![1, 2], 1, 10).is_some());
}

#[test]
fn every_participant_is_asked_in_order_and_in_batches() {
    let job = FetchJob::new(WINDOW, vec![1, 2, 4, 10, 11, 14, 16], 3, 2).unwrap();
    let (asked, result) = run(job, &|request, _| Response::Records(page(request.participant_id, 2)));
    let who: Vec<(u32, usize)> = asked.iter().map(|r| (r.participant_id, r.batch)).collect();
    assert_eq!(who, vec![(1, 0), (2, 0), (4, 0), (10, 1), (11, 1), (14, 1), (16, 2)]);
    for request in &asked {
        assert_eq!(request.window, WINDOW);
    }
    let samples = result.unwrap();
    assert_eq!(samples.len(), 14);
    assert_eq!(samples[0], sample(1, 1, 0));
    assert_eq!(samples[1], sample(1, 2, 1));
    assert_eq!(samples[13], sample(16, 2, 1));
}

#[test]
fn a_participant_is_asked_until_the_limit_is_reached() {
    let job = FetchJob::new(WINDOW, vec![5, 6], 2, 5).unwrap();
    let (asked, result) = run(job, &|request, _| Response::Records(page(request.participant_id, 2)));
    let who: Vec<u32> = asked.iter().map(|r| r.participant_id).collect();
    // Two samples a page: the third page brings each participant to six.
    assert_eq!(who, vec![5, 5, 5, 6, 6, 6]);
    assert_eq!(result.unwrap().len(), 12);
}

#[test]
fn a_page_past_the_limit_is_kept_whole() {
    let job = FetchJob::new(WINDOW, vec![5], 1, 3).unwrap();
    let (asked, result) = run(job, &|request, _| Response::Records(page(request.participant_id, 10)));
    assert_eq!(asked.len(), 1);
    assert_eq!(result.unwrap().len(), 10);
}

#[test]
fn only_valid_samples_count_towards_the_limit() {
    let job = FetchJob::new(WINDOW, vec![5], 1, 2).unwrap();
    let mixed = vec![
        RawRecord { x: 0, y: 0, date: "1970-01-01T00:00:01Z".to_string(), participant_id: 5 },
        RawRecord { x: 3, y: 3, date: "soon".to_string(), participant_id: 5 },
        record(5, 9, 4),
    ];
    let (asked, result) = run(job, &|_, _| Response::Records(mixed.clone()));
    assert_eq!(asked.len(), 2);
    assert_eq!(result.unwrap(), vec![sample(5, 9, 4), sample(5, 9, 4)]);
}

#[test]
fn an_empty_page_ends_the_participant() {
    let job = FetchJob::new(WINDOW, vec![5, 6], 3, 100).unwrap();
    let (asked, result) = run(job, &|request, nth| {
        if nth == 0 {
            Response::Records(page(request.participant_id, 3))
        } else {
            Response::Records(Vec::new())
        }
    });
    let who: Vec<u32> = asked.iter().map(|r| r.participant_id).collect();
    assert_eq!(who, vec![5, 5, 6, 6]);
    assert_eq!(result.unwrap().len(), 6);
}

#[test]
fn a_source_that_has_nothing_gives_no_samples() {
    let job = FetchJob::new(WINDOW, vec![1, 2, 3], 3, 120).unwrap();
    let (asked, result) = run(job, &|_, _| Response::Records(Vec::new()));
    assert_eq!(asked.len(), 3);
    assert_eq!(result, Ok(Vec::new()));
}

#[test]
fn a_source_error_for_one_of_five_leaves_the_other_four() {
    let job = FetchJob::new(WINDOW, vec![1, 2, 3, 4, 5], 5, 2).unwrap();
    let (asked, result) = run(job, &|request, _| {
        if request.participant_id == 3 {
            Response::SourceError(500)
        } else {
            Response::Records(page(request.participant_id, 2))
        }
    });
    let who: Vec<u32> = asked.iter().map(|r| r.participant_id).collect();
    assert_eq!(who, vec![1, 2, 3, 4, 5]);
    let samples = result.unwrap();
    let owners: Vec<u32> = samples.iter().map(|s| s.participant_id).collect();
    assert_eq!(owners, vec![1, 1, 2, 2, 4, 4, 5, 5]);
}

#[test]
fn a_source_error_keeps_what_the_participant_gave_before() {
    let job = FetchJob::new(WINDOW, vec![8, 9], 1, 10).unwrap();
    let (asked, result) = run(job, &|request, nth| {
        if request.participant_id == 8 && nth == 1 {
            Response::SourceError(429)
        } else if nth < 2 {
            Response::Records(page(request.participant_id, 5))
        } else {
            Response::Records(Vec::new())
        }
    });
    let who: Vec<(u32, usize)> = asked.iter().map(|r| (r.participant_id, r.batch)).collect();
    assert_eq!(who, vec![(8, 0), (8, 0), (9, 1), (9, 1)]);
    let owners: Vec<u32> = result.unwrap().iter().map(|s| s.participant_id).collect();
    assert_eq!(owners, vec![8, 8, 8, 8, 8, 9, 9, 9, 9, 9, 9, 9, 9, 9, 9]);
}

#[test]
fn a_transport_failure_ends_the_job() {
    let job = FetchJob::new(WINDOW, vec![1, 2, 3], 3, 2).unwrap();
    let (asked, result) = run(job, &|request, _| {
        if request.participant_id == 2 {
            Response::TransportError("connection reset".to_string())
        } else {
            Response::Records(page(request.participant_id, 2))
        }
    });
    let who: Vec<u32> = asked.iter().map(|r| r.participant_id).collect();
    assert_eq!(who, vec![1, 2]);
    assert_eq!(result, Err(FetchError::Transport("connection reset".to_string())));
}

#[test]
fn a_limit_of_zero_asks_nobody() {
    let job = FetchJob::new(WINDOW, vec![1, 2, 3], 3, 0).unwrap();
    assert!(job.is_over());
    assert_eq!(job.next_request(), None);
    assert_eq!(job.finish(), Ok(Vec::new()));
}

#[test]
fn no_participants_give_no_requests() {
    let job = FetchJob::new(WINDOW, Vec::new(), 3, 120).unwrap();
    assert_eq!(job.next_request(), None);
    assert_eq!(job.finish(), Ok(Vec::new()));
}

#[test]
fn a_job_that_is_over_takes_nothing_in() {
    let job = FetchJob::new(WINDOW, vec![1], 1, 1).unwrap();
    let job = job.on_response(Response::Records(page(1, 1)));
    assert!(job.is_over());
    assert_eq!(job.collected(), 1);
    let job = job.on_response(Response::Records(page(1, 4)));
    assert_eq!(job.collected(), 1);
    let job = job.on_response(Response::TransportError("late".to_string()));
    assert_eq!(job.finish(), Ok(vec![sample(1, 1, 0)]));
}

#[test]
fn samples_come_back_in_arrival_order_not_sorted() {
    let job = FetchJob::new(WINDOW, vec![1, 2], 2, 2).unwrap();
    let (_, result) = run(job, &|request, _| {
        if request.participant_id == 1 {
            Response::Records(vec![record(1, 1, 30), record(1, 2, 10)])
        } else {
            Response::Records(vec![record(2, 3, 20), record(2, 4, 5)])
        }
    });
    let times: Vec<i64> = result.unwrap().iter().map(|s| s.timestamp_ms).collect();
    assert_eq!(times, vec![30_000, 10_000, 20_000, 5_000]);
}

#[test]
fn the_request_names_the_pending_participant() {
    let job = FetchJob::new(WINDOW, vec![7, 8, 9], 2, 1).unwrap();
    assert_eq!(job.next_request(), Some(Request { window: WINDOW, participant_id: 7, batch: 0 }));
    let job = job.on_response(Response::SourceError(404));
    assert_eq!(job.next_request(), Some(Request { window: WINDOW, participant_id: 8, batch: 0 }));
    let job = job.on_response(Response::Records(page(8, 1)));
    assert_eq!(job.next_request(), Some(Request { window: WINDOW, participant_id: 9, batch: 1 }));
    assert!(!job.is_over());
    assert_eq!(job.collected(), 1);
}

#[test]
fn a_job_ends_within_limit_times_participants_responses() {
    // One valid sample a page is the slowest way to the limit.
    let job = FetchJob::new(WINDOW, vec![1, 2, 3, 4], 3, 7).unwrap();
    let (asked, result) = run(job, &|request, _| Response::Records(page(request.participant_id, 1)));
    assert_eq!(asked.len(), 4 * 7);
    assert_eq!(result.unwrap().len(), 28);
}

#[test]
fn a_page_without_a_valid_sample_ends_the_participant() {
    let job = FetchJob::new(WINDOW, vec![1, 2], 1, 3).unwrap();
    let blank = vec![
        RawRecord { x: 0, y: 0, date: "1970-01-01T00:00:01Z".to_string(), participant_id: 1 },
        RawRecord { x: 4, y: 4, date: "not a time".to_string(), participant_id: 1 },
    ];
    let job = job.on_response(Response::Records(page(1, 2)));
    assert_eq!(job.next_request(), Some(Request { window: WINDOW, participant_id: 1, batch: 0 }));
    let job = job.on_response(Response::Records(blank));
    assert_eq!(job.next_request(), Some(Request { window: WINDOW, participant_id: 2, batch: 1 }));
    assert_eq!(job.collected(), 2);
    let job = job.on_response(Response::Records(page(2, 3)));
    assert_eq!(job.next_request(), None);
    assert_eq!(job.collected(), 5);
}

#[test]
fn a_job_ends_whatever_the_source_answers() {
    let blank = vec![RawRecord { x: 0, y: 0, date: "1970-01-01T00:00:01Z".to_string(), participant_id: 1 }];
    let answers = [
        Response::Records(page(1, 1)),
        Response::Records(blank),
        Response::SourceError(500),
        Response::Records(Vec::new()),
        Response::Records(page(1, 2)),
    ];
    for seed in 0..50usize {
        let mut job = FetchJob::new(WINDOW, vec![1, 2, 3, 4, 5], 2, 6).unwrap();
        let mut taken = 0;
        while job.next_request().is_some() {
            job = job.on_response(answers[(seed + taken * (seed % 7 + 1)) % answers.len()].clone());
            taken += 1;
            assert!(taken <= 5 * 6);
        }
        assert!(job.finish().is_ok());
    }
}
