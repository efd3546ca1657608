use webdu::aggregate::{child_contribution, directory_subtotal};
use webdu::content::{content_length_value, decode_listing_body};
use webdu::error::{Error, ErrorKind, RequestMethod};
use webdu::listing::{SubdirTok, UrlParts};

fn url_at(host: &str, path: &str) -> UrlParts {
    UrlParts {
        scheme: "http".to_string(),
        host: Some(host.to_string()),
        port: Some(80),
        path: path.to_string(),
        serialized: format!("http://{}{}", host, path),
    }
}

fn serials(v: &[UrlParts]) -> Vec<String> {
    let mut s: Vec<String> = v.iter().map(|u| u.serialized.clone()).collect();
    s.sort();
    s
}

#[test]
fn scenario_two_level_tree_totals() {
    // Root lists one file of 100 bytes and one subdirectory holding one file
    // of 50 bytes; the subdirectory subtotals 50 and the root 150.
    let root_html = decode_listing_body(
        &Some("text/html; charset=utf-8".to_string()),
        br#"<a href="a.txt">a</a><a href="sub/">sub</a>"#,
    )
    .unwrap();
    let root = SubdirTok::from_body(url_at("h", "/"), &root_html);
    assert_eq!(serials(&root.files), vec!["http://h/a.txt".to_string()]);
    assert_eq!(serials(&root.subdirectories), vec!["http://h/sub/".to_string()]);

    let a_size = content_length_value(&Some("100".to_string()), 200);
    assert_eq!(*a_size.as_ref().unwrap(), 100);

    let sub = SubdirTok::from_body(url_at("h", "/sub/"), r#"<a href="b.txt">b</a>"#);
    assert_eq!(serials(&sub.files), vec!["http://h/sub/b.txt".to_string()]);
    let b_size = content_length_value(&Some("50".to_string()), 200);
    let sub_total = directory_subtotal(&vec![b_size]);
    assert_eq!(sub_total, 50);

    let root_total = directory_subtotal(&vec![a_size, Ok(sub_total)]);
    assert_eq!(root_total, 150);
}

#[test]
fn scenario_escaping_link_never_visited_and_subtotal_unaffected() {
    // A child link under `sub/` pointing out of the subtree is rejected at
    // extraction, so it is never fetched and contributes nothing.
    let sub = SubdirTok::from_body(
        url_at("h", "/sub/"),
        r#"<a href="../escape/">out</a><a href="b.txt">b</a>"#,
    );
    assert!(sub.subdirectories.is_empty());
    assert_eq!(serials(&sub.files), vec!["http://h/sub/b.txt".to_string()]);
    let total = directory_subtotal(&vec![content_length_value(&Some("50".to_string()), 200)]);
    assert_eq!(total, 50);
}

#[test]
fn scenario_missing_content_length_contributes_zero() {
    // A HEAD response without Content-Length fails for its own branch only:
    // it adds 0 and its sibling's 100 bytes still count.
    let missing = content_length_value(&None, 200);
    let e = missing.as_ref().unwrap_err();
    assert!(matches!(e.kind, ErrorKind::MissingOrInvalidContentLength(200)));
    assert_eq!(child_contribution(&missing), 0);
    let total = directory_subtotal(&vec![missing, Ok(100)]);
    assert_eq!(total, 100);
}

#[test]
fn subtotal_is_order_insensitive() {
    let a: Vec<Result<u64, Error>> =
        vec![Ok(1), Ok(2), Err(Error::new(ErrorKind::TransportError))];
    let b: Vec<Result<u64, Error>> =
        vec![Err(Error::new(ErrorKind::TransportError)), Ok(2), Ok(1)];
    assert_eq!(directory_subtotal(&a), directory_subtotal(&b));
    assert_eq!(directory_subtotal(&a), 3);
}

#[test]
fn subtotal_saturates_instead_of_wrapping() {
    let total = directory_subtotal(&vec![Ok(u64::MAX), Ok(1)]);
    assert_eq!(total, u64::MAX);
}

#[test]
fn transport_failure_is_isolated_with_its_context() {
    let e = Error::new(ErrorKind::TransportError)
        .in_context("http://h/x.txt".to_string(), RequestMethod::Head)
        .in_context("http://h/".to_string(), RequestMethod::Get);
    assert_eq!(e.trail.len(), 2);
    assert_eq!(e.trail[0].url, "http://h/x.txt");
    assert_eq!(e.trail[1].url, "http://h/");
    assert_eq!(child_contribution(&Err(e)), 0);
}
