//! Requests to LibreNMS and what is made of the replies.
use lnms_invoice::librenms::{
    after_reply, decode_error, parse_error, LibreNmsClient, Next, Pause, Reply, MAX_RETRIES,
};
use lnms_invoice::Error;

fn status(code: u16, words: &str, body: &str, retry_after: Option<&str>) -> Reply {
    Reply::Status {
        code,
        status: words.to_string(),
        retry_after: retry_after.map(|s| s.to_string()),
        body: body.to_string(),
    }
}

/// Sends requests that are all answered alike; how many were sent, the pauses, and the error.
fn drive(url: &str, reply: &Reply) -> (usize, Vec<Pause>, Option<Error>) {
    let mut attempt = 0;
    let mut sent = 0;
    let mut pauses = vec![];
    loop {
        sent += 1;
        match after_reply(attempt, url, reply) {
            Next::Accept => return (sent, pauses, None),
            Next::Retry { pause, attempt: n } => {
                pauses.push(pause);
                attempt = n;
            }
            Next::Fail { pause, error } => {
                pauses.push(pause);
                return (sent, pauses, Some(error));
            }
        }
    }
}

#[test]
fn addresses_below_the_server() {
    let cli = LibreNmsClient::new("https://nms.example//", "tok");
    assert_eq!(cli.base_url(), "https://nms.example");
    assert_eq!(cli.token(), "tok");
    assert_eq!(cli.bills_url(), "https://nms.example/api/v0/bills");
    assert_eq!(cli.bill_url(42), "https://nms.example/api/v0/bills/42");
    assert_eq!(cli.history_url(7), "https://nms.example/api/v0/bills/7/history");
}

#[test]
fn test_401_fails_immediately() {
    let cli = LibreNmsClient::new("http://127.0.0.1:1/", "bad-token");
    let (sent, _, err) =
        drive(&cli.bills_url(), &status(401, "401 Unauthorized", "Unauthorized", None));
    let msg = err.unwrap().message();
    assert!(msg.contains("auth failed"), "got: {msg}");
    assert!(msg.contains("401"), "got: {msg}");
    assert_eq!(sent, 1);
    assert_eq!(
        msg,
        "librenms api error: auth failed (401 Unauthorized) for http://127.0.0.1:1/api/v0/bills: Unauthorized"
    );
}

#[test]
fn test_404_fails_immediately() {
    let cli = LibreNmsClient::new("http://127.0.0.1:1", "tok");
    let (sent, _, err) = drive(&cli.bill_url(999), &status(404, "404 Not Found", "not found", None));
    assert!(err.unwrap().message().contains("404"));
    assert_eq!(sent, 1);
}

#[test]
fn test_429_retries_then_exhausts() {
    let cli = LibreNmsClient::new("http://127.0.0.1:1", "tok");
    let (sent, pauses, err) =
        drive(&cli.bills_url(), &status(429, "429 Too Many Requests", "", Some("0")));
    assert!(err.unwrap().message().contains("429 retries exhausted"));
    assert_eq!(sent, 4);
    assert_eq!(pauses, vec![Pause { seconds: 0, millis: 0 }; 4]);
}

#[test]
fn test_500_retries_then_fails() {
    let cli = LibreNmsClient::new("http://127.0.0.1:1", "tok");
    let (sent, pauses, err) =
        drive(&cli.bills_url(), &status(500, "500 Internal Server Error", "oops", None));
    let msg = err.unwrap().message();
    assert!(msg.contains("after 3 retries"), "got: {msg}");
    assert_eq!(sent, 4);
    let waits: Vec<u64> = pauses.iter().map(|p| p.millis).collect();
    assert_eq!(waits, vec![500, 2000, 8000, 0]);
    assert_eq!(
        msg,
        "librenms api error: HTTP 500 Internal Server Error after 3 retries for http://127.0.0.1:1/api/v0/bills: oops"
    );
}

#[test]
fn a_refused_connection_is_tried_four_times() {
    let (sent, _, err) = drive("u", &Reply::Transport("refused".to_string()));
    assert_eq!(sent, 4);
    assert_eq!(
        err.unwrap().message(),
        "librenms api error: transport error after 3 retries for u: refused"
    );
}

#[test]
fn success_is_accepted_and_403_is_final() {
    assert!(matches!(after_reply(0, "u", &status(204, "", "", None)), Next::Accept));
    assert!(matches!(after_reply(9, "u", &status(299, "", "", None)), Next::Accept));
    assert!(matches!(
        after_reply(0, "u", &status(403, "", "", None)),
        Next::Fail { error: Error::LibreNms(_), .. }
    ));
    assert!(matches!(
        after_reply(0, "u", &status(301, "", "", None)),
        Next::Retry { attempt: 1, .. }
    ));
}

#[test]
fn a_server_may_ask_for_a_pause() {
    let five = Pause { seconds: 5, millis: 0 };
    let pause = |v: Option<&str>| match after_reply(0, "u", &status(429, "", "", v)) {
        Next::Retry { pause, attempt } => {
            assert_eq!(attempt, 1);
            pause
        }
        _ => panic!("expected another request"),
    };
    assert_eq!(pause(Some("17")), Pause { seconds: 17, millis: 0 });
    assert_eq!(pause(Some("+3")), Pause { seconds: 3, millis: 0 });
    assert_eq!(pause(Some("soon")), five);
    assert_eq!(pause(Some("18446744073709551616")), five);
    assert_eq!(pause(None), five);
    match after_reply(MAX_RETRIES, "u", &status(429, "", "", Some("2"))) {
        Next::Fail { pause, .. } => assert_eq!(pause, Pause { seconds: 2, millis: 0 }),
        _ => panic!("expected the end"),
    }
}

#[test]
fn what_cannot_be_read_is_said() {
    assert_eq!(
        decode_error("u", "eof").message(),
        "librenms api error: decode JSON from u: eof"
    );
    assert_eq!(
        parse_error("u", "no bills").message(),
        "librenms api error: parse JSON from u: no bills"
    );
}
