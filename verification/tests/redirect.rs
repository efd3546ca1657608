use webdu::error::{ErrorKind, RequestMethod};
use webdu::listing::UrlParts;
use webdu::redirect::{redirect_decide, RedirectStep, ResponseHead};
use webdu::Settings;

fn url_at(host: &str, path: &str) -> UrlParts {
    UrlParts {
        scheme: "http".to_string(),
        host: Some(host.to_string()),
        port: Some(80),
        path: path.to_string(),
        serialized: format!("http://{}{}", host, path),
    }
}

fn resp(status: u16, location: Option<&str>) -> ResponseHead {
    ResponseHead {
        status,
        location: location.map(|s| s.to_string()),
        content_type: None,
        content_length: None,
    }
}

#[test]
fn success_returns_current_url() {
    let settings = Settings { max_redirections: 16 };
    let step = redirect_decide(&settings, RequestMethod::Get, url_at("h", "/"), 0, &resp(200, None));
    match step {
        RedirectStep::Done(u) => assert_eq!(u.serialized, "http://h/"),
        _ => panic!("expected success"),
    }
}

#[test]
fn redirect_resolves_location_against_current_url() {
    let settings = Settings { max_redirections: 16 };
    let step = redirect_decide(
        &settings,
        RequestMethod::Get,
        url_at("h", "/old/"),
        0,
        &resp(301, Some("/new/place/")),
    );
    match step {
        RedirectStep::Follow(u, c) => {
            assert_eq!(u.serialized, "http://h/new/place/");
            assert_eq!(c, 1);
        },
        _ => panic!("expected a followed redirect"),
    }
}

#[test]
fn always_redirecting_server_exhausts_bound_after_max_plus_one_requests() {
    let settings = Settings { max_redirections: 3 };
    let mut url = url_at("h", "/");
    let mut count: u64 = 0;
    let mut requests: u64 = 0;
    loop {
        requests += 1;
        assert!(requests < 100);
        match redirect_decide(&settings, RequestMethod::Get, url, count, &resp(302, Some("/r"))) {
            RedirectStep::Follow(u, c) => {
                url = u;
                count = c;
            },
            RedirectStep::Failed(e) => {
                match e.kind {
                    ErrorKind::TooManyRedirections(n) => assert_eq!(n, 4),
                    _ => panic!("expected the redirect bound to be exhausted"),
                }
                assert_eq!(e.trail.len(), 1);
                assert_eq!(e.trail[0].url, "http://h/r");
                assert_eq!(e.trail[0].method, RequestMethod::Get);
                break;
            },
            RedirectStep::Done(_) => panic!("server never succeeds"),
        }
    }
    assert_eq!(requests, 4);
}

#[test]
fn negative_bound_follows_past_any_count() {
    let settings = Settings { max_redirections: -1 };
    let mut url = url_at("h", "/");
    let mut count: u64 = 0;
    for _ in 0..10 {
        match redirect_decide(&settings, RequestMethod::Head, url, count, &resp(302, Some("/r"))) {
            RedirectStep::Follow(u, c) => {
                url = u;
                count = c;
            },
            _ => panic!("an unbounded crawl keeps following"),
        }
    }
    match redirect_decide(&settings, RequestMethod::Head, url, count, &resp(200, None)) {
        RedirectStep::Done(u) => assert_eq!(u.serialized, "http://h/r"),
        _ => panic!("expected terminal success"),
    }
}

#[test]
fn zero_bound_fails_on_first_redirect() {
    let settings = Settings { max_redirections: 0 };
    let step = redirect_decide(
        &settings,
        RequestMethod::Get,
        url_at("h", "/"),
        0,
        &resp(302, Some("/r")),
    );
    match step {
        RedirectStep::Failed(e) => match e.kind {
            ErrorKind::TooManyRedirections(n) => assert_eq!(n, 1),
            _ => panic!("expected the redirect bound to be exhausted"),
        },
        _ => panic!("expected a failure"),
    }
}

#[test]
fn redirect_without_location_fails() {
    let settings = Settings { max_redirections: 16 };
    let step = redirect_decide(&settings, RequestMethod::Get, url_at("h", "/"), 0, &resp(301, None));
    match step {
        RedirectStep::Failed(e) => {
            assert!(matches!(e.kind, ErrorKind::MissingLocation));
            assert_eq!(e.trail[0].url, "http://h/");
        },
        _ => panic!("expected a failure"),
    }
}

#[test]
fn unresolvable_location_fails() {
    let settings = Settings { max_redirections: 16 };
    let step = redirect_decide(
        &settings,
        RequestMethod::Get,
        url_at("h", "/"),
        0,
        &resp(301, Some("http://[bad")),
    );
    match step {
        RedirectStep::Failed(e) => assert!(matches!(e.kind, ErrorKind::InvalidRedirectTarget)),
        _ => panic!("expected a failure"),
    }
}

#[test]
fn non_redirect_non_success_statuses_fail() {
    let settings = Settings { max_redirections: 16 };
    for status in [100u16, 404, 500] {
        let step = redirect_decide(
            &settings,
            RequestMethod::Get,
            url_at("h", "/x"),
            0,
            &resp(status, None),
        );
        match step {
            RedirectStep::Failed(e) => match e.kind {
                ErrorKind::UnexpectedStatus(s) => assert_eq!(s, status),
                _ => panic!("expected the status to be reported"),
            },
            _ => panic!("expected a failure"),
        }
    }
}
