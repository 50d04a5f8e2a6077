use balancebeam::handler::{
    classify_read_error, handle_request_read, handle_upstream_result, RelayDecision, Request,
    RequestAction, RequestDecision, RequestError, Response, UpstreamEvent, STATUS_BAD_GATEWAY,
    STATUS_BAD_REQUEST, STATUS_PAYLOAD_TOO_LARGE, STATUS_TOO_MANY_REQUESTS,
};
use balancebeam::health::{health_cycle, ProbeOutcome};
use balancebeam::limiter::RateLimiter;
use balancebeam::pool::UpstreamPool;
use balancebeam::selector::{
    acquire_begin, acquire_step, pick_upstream, AcquireState, ConnectOutcome,
};

fn pool_of(addrs: &[&str]) -> UpstreamPool {
    UpstreamPool::new(addrs.iter().map(|a| a.to_string()).collect())
}

fn all_healthy(pool: &mut UpstreamPool) {
    let outcomes: Vec<ProbeOutcome> = pool
        .configured
        .iter()
        .map(|_| ProbeOutcome::Responded { status: 200 })
        .collect();
    health_cycle(pool, &outcomes);
}

fn simple_request() -> Request {
    Request {
        method: "GET".to_string(),
        target: "/".to_string(),
        headers: vec![("host".to_string(), "example".to_string())],
        body: Vec::new(),
    }
}

#[test]
fn healthy_set_starts_empty_and_fills_after_first_cycle() {
    let mut pool = pool_of(&["u1:80", "u2:80"]);
    assert_eq!(pool.snapshot().len(), 0);
    all_healthy(&mut pool);
    let snap = pool.snapshot();
    assert_eq!(snap, vec!["u1:80".to_string(), "u2:80".to_string()]);
}

#[test]
fn pick_returns_a_member_of_the_snapshot() {
    let mut pool = pool_of(&["u1:80", "u2:80", "u3:80"]);
    all_healthy(&mut pool);
    for _ in 0..32 {
        let picked = pick_upstream(&pool).expect("healthy set is non-empty");
        assert!(pool.snapshot().contains(&picked));
    }
}

#[test]
fn pick_on_empty_pool_is_none() {
    let pool = pool_of(&["u1:80"]);
    assert!(pick_upstream(&pool).is_none());
}

#[test]
fn failover_tries_exactly_one_alternate_and_demotes_the_failed_address() {
    let mut pool = pool_of(&["u1:80", "u2:80"]);
    all_healthy(&mut pool);
    let st = acquire_begin(&pool);
    let first = match st {
        AcquireState::FirstAttempt { ref addr } => addr.clone(),
        _ => panic!("expected a first attempt"),
    };
    let st2 = acquire_step(&mut pool, st, ConnectOutcome::Refused);
    // The failed address is out of the healthy set at once.
    assert!(!pool.snapshot().contains(&first));
    let second = match st2 {
        AcquireState::SecondAttempt { ref addr } => addr.clone(),
        _ => panic!("expected a second attempt"),
    };
    assert_ne!(second, first);
    // A second refusal surfaces failure; nothing further is tried.
    let st3 = acquire_step(&mut pool, st2, ConnectOutcome::Refused);
    assert!(matches!(st3, AcquireState::Unavailable));
}

#[test]
fn failover_with_no_alternate_is_unavailable() {
    let mut pool = pool_of(&["u1:80"]);
    all_healthy(&mut pool);
    let st = acquire_begin(&pool);
    assert!(matches!(st, AcquireState::FirstAttempt { .. }));
    let st2 = acquire_step(&mut pool, st, ConnectOutcome::Refused);
    assert!(matches!(st2, AcquireState::Unavailable));
    assert_eq!(pool.snapshot().len(), 0);
}

#[test]
fn acquire_succeeds_on_first_connect() {
    let mut pool = pool_of(&["u1:80"]);
    all_healthy(&mut pool);
    let st = acquire_begin(&pool);
    let st2 = acquire_step(&mut pool, st, ConnectOutcome::Connected);
    match st2 {
        AcquireState::Connected { addr } => assert_eq!(addr, "u1:80"),
        _ => panic!("expected a connection"),
    }
}

#[test]
fn scenario_no_healthy_upstream_yields_bad_gateway() {
    // Zero upstreams healthy: every backoff retry comes back empty-handed,
    // and the handler answers 502 once the driver gives up.
    let pool = pool_of(&["u1:80", "u2:80"]);
    let mut gave_up = true;
    for _ in 0..3 {
        match acquire_begin(&pool) {
            AcquireState::Choosing => continue,
            _ => {
                gave_up = false;
                break;
            }
        }
    }
    assert!(gave_up);
    assert_eq!(STATUS_BAD_GATEWAY, 502);
}

#[test]
fn health_cycle_excludes_non_200_probes() {
    let mut pool = pool_of(&["u1:80", "u2:80"]);
    let outcomes = vec![
        ProbeOutcome::Responded { status: 200 },
        ProbeOutcome::Responded { status: 500 },
    ];
    health_cycle(&mut pool, &outcomes);
    let snap = pool.snapshot();
    assert_eq!(snap, vec!["u1:80".to_string()]);
}

#[test]
fn health_cycle_replaces_instead_of_merging() {
    let mut pool = pool_of(&["u1:80", "u2:80"]);
    all_healthy(&mut pool);
    assert!(pool.snapshot().contains(&"u2:80".to_string()));
    // Next cycle: u2 stops answering its probe.
    let outcomes = vec![
        ProbeOutcome::Responded { status: 200 },
        ProbeOutcome::ConnectFailed,
    ];
    health_cycle(&mut pool, &outcomes);
    assert!(!pool.snapshot().contains(&"u2:80".to_string()));
    assert!(pool.snapshot().contains(&"u1:80".to_string()));
    // And a recovered upstream comes back within one cycle.
    all_healthy(&mut pool);
    assert!(pool.snapshot().contains(&"u2:80".to_string()));
}

#[test]
fn health_cycle_excludes_send_and_read_failures() {
    let mut pool = pool_of(&["u1:80", "u2:80", "u3:80"]);
    let outcomes = vec![
        ProbeOutcome::SendFailed,
        ProbeOutcome::ReadFailed,
        ProbeOutcome::Responded { status: 200 },
    ];
    health_cycle(&mut pool, &outcomes);
    assert_eq!(pool.snapshot(), vec!["u3:80".to_string()]);
}

#[test]
fn pool_remove_is_a_noop_on_absent_addresses() {
    let mut pool = pool_of(&["u1:80", "u2:80"]);
    all_healthy(&mut pool);
    pool.remove(&"u3:80".to_string());
    assert_eq!(pool.snapshot().len(), 2);
    pool.remove(&"u1:80".to_string());
    pool.remove(&"u1:80".to_string());
    assert_eq!(pool.snapshot(), vec!["u2:80".to_string()]);
}

#[test]
fn pool_add_is_idempotent() {
    let mut pool = pool_of(&["u1:80", "u2:80"]);
    all_healthy(&mut pool);
    pool.add("u1:80".to_string());
    assert_eq!(pool.snapshot().len(), 2);
}

#[test]
fn scenario_request_is_forwarded_with_client_ip_appended() {
    // Two healthy upstreams, one client, one request: the forward carries
    // the client's address in x-forwarded-for.
    let mut pool = pool_of(&["u1:80", "u2:80"]);
    all_healthy(&mut pool);
    let st = acquire_begin(&pool);
    let st2 = acquire_step(&mut pool, st, ConnectOutcome::Connected);
    assert!(matches!(st2, AcquireState::Connected { .. }));

    let mut limiter = RateLimiter::new(0);
    let client_ip = "10.1.2.3".to_string();
    let d = handle_request_read(Ok(simple_request()), &mut limiter, &client_ip, 0);
    let fwd = match d {
        RequestDecision::Forward { request } => request,
        _ => panic!("expected a forward"),
    };
    let xff: Vec<&(String, String)> = fwd
        .headers
        .iter()
        .filter(|p| p.0 == "x-forwarded-for")
        .collect();
    assert_eq!(xff.len(), 1);
    assert_eq!(xff[0].1, "10.1.2.3");

    // The relayed response passes through unmodified.
    let resp = Response { status: 200, headers: Vec::new(), body: b"ok".to_vec() };
    match handle_upstream_result(UpstreamEvent::Response { response: resp }) {
        RelayDecision::Relay { response } => {
            assert_eq!(response.status, 200);
            assert_eq!(response.body, b"ok".to_vec());
        }
        _ => panic!("expected a relay"),
    }
}

#[test]
fn forwarded_for_appends_to_a_prior_hop() {
    let mut req = simple_request();
    req.headers.push(("x-forwarded-for".to_string(), "192.168.0.9".to_string()));
    req.extend_header_value("x-forwarded-for", "10.1.2.3");
    let vals: Vec<&(String, String)> = req
        .headers
        .iter()
        .filter(|p| p.0 == "x-forwarded-for")
        .collect();
    assert_eq!(vals.len(), 1);
    assert_eq!(vals[0].1, "192.168.0.9, 10.1.2.3");
}

#[test]
fn scenario_third_request_in_a_second_is_rate_limited() {
    // Limit 2/minute; three requests within one second: forwarded,
    // forwarded, 429.
    let mut limiter = RateLimiter::new(2);
    let ip = "10.0.0.1".to_string();
    let d1 = handle_request_read(Ok(simple_request()), &mut limiter, &ip, 0);
    assert!(matches!(d1, RequestDecision::Forward { .. }));
    let d2 = handle_request_read(Ok(simple_request()), &mut limiter, &ip, 500);
    assert!(matches!(d2, RequestDecision::Forward { .. }));
    let d3 = handle_request_read(Ok(simple_request()), &mut limiter, &ip, 1000);
    match d3 {
        RequestDecision::Reject { status } => assert_eq!(status, STATUS_TOO_MANY_REQUESTS),
        _ => panic!("expected a 429 rejection"),
    }
}

#[test]
fn rate_limiter_admits_first_n_and_drains_after_a_minute() {
    let mut limiter = RateLimiter::new(3);
    let ip = "10.0.0.1".to_string();
    let mut verdicts = Vec::new();
    for k in 0..5u64 {
        verdicts.push(limiter.allow(&ip, 1000 + k));
    }
    assert_eq!(verdicts, vec![true, true, true, false, false]);
    // A full window with no request from the client: admitted again.
    assert!(limiter.allow(&ip, 1004 + 60001));
}

#[test]
fn rate_limiter_tracks_clients_separately() {
    let mut limiter = RateLimiter::new(1);
    let a = "10.0.0.1".to_string();
    let b = "10.0.0.2".to_string();
    assert!(limiter.allow(&a, 0));
    assert!(limiter.allow(&b, 1));
    assert!(!limiter.allow(&a, 2));
    assert!(!limiter.allow(&b, 3));
}

#[test]
fn rate_limit_of_zero_admits_everything() {
    let mut limiter = RateLimiter::new(0);
    let ip = "10.0.0.1".to_string();
    for k in 0..100u64 {
        assert!(limiter.allow(&ip, k));
    }
}

#[test]
fn scenario_malformed_request_gets_400_and_connection_stays_open() {
    let mut limiter = RateLimiter::new(0);
    let ip = "10.0.0.1".to_string();
    let d = handle_request_read(Err(RequestError::Malformed), &mut limiter, &ip, 0);
    match d {
        RequestDecision::Reject { status } => assert_eq!(status, STATUS_BAD_REQUEST),
        _ => panic!("expected a 400 rejection, not a close"),
    }
    // The connection is still serving: a valid follow-up request goes through.
    let d2 = handle_request_read(Ok(simple_request()), &mut limiter, &ip, 1);
    assert!(matches!(d2, RequestDecision::Forward { .. }));
}

#[test]
fn read_error_classification_matches_the_status_map() {
    assert!(matches!(
        classify_read_error(&RequestError::Incomplete { bytes: 0 }),
        RequestAction::Close
    ));
    assert!(matches!(
        classify_read_error(&RequestError::Connection),
        RequestAction::Close
    ));
    for (e, want) in [
        (RequestError::Incomplete { bytes: 7 }, STATUS_BAD_REQUEST),
        (RequestError::Malformed, STATUS_BAD_REQUEST),
        (RequestError::InvalidContentLength, STATUS_BAD_REQUEST),
        (RequestError::ContentLengthMismatch, STATUS_BAD_REQUEST),
        (RequestError::BodyTooLarge, STATUS_PAYLOAD_TOO_LARGE),
    ] {
        match classify_read_error(&e) {
            RequestAction::Respond { status } => assert_eq!(status, want),
            _ => panic!("expected a response"),
        }
    }
}

#[test]
fn upstream_failures_become_502_and_close() {
    for ev in [UpstreamEvent::WriteFailed, UpstreamEvent::ReadFailed] {
        match handle_upstream_result(ev) {
            RelayDecision::FailClose { status } => assert_eq!(status, STATUS_BAD_GATEWAY),
            _ => panic!("expected a failing close"),
        }
    }
}
