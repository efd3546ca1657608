use webdu::listing::{
    classify_candidate, Classification, HtmlAttr, HtmlElement, SubdirTok, UrlParts,
};

fn url_at(host: &str, path: &str) -> UrlParts {
    UrlParts {
        scheme: "http".to_string(),
        host: Some(host.to_string()),
        port: Some(80),
        path: path.to_string(),
        serialized: format!("http://{}{}", host, path),
    }
}

fn serials(v: &[UrlParts]) -> Vec<String> {
    let mut s: Vec<String> = v.iter().map(|u| u.serialized.clone()).collect();
    s.sort();
    s
}

#[test]
fn listing_round_trip() {
    let html = r#"<html><body>
        <a href="sub1/">one</a>
        <a href="sub2/">two</a>
        <a href="file.txt">file</a>
    </body></html>"#;
    let tok = SubdirTok::from_body(url_at("h", "/dir/"), html);
    assert_eq!(
        serials(&tok.subdirectories),
        vec!["http://h/dir/sub1/".to_string(), "http://h/dir/sub2/".to_string()]
    );
    assert_eq!(serials(&tok.files), vec!["http://h/dir/file.txt".to_string()]);
}

#[test]
fn listing_dedup_identical_hrefs() {
    let html = r#"<a href="a/">x</a><a href="a/">y</a><a href="f.txt">x</a><a href="f.txt">y</a>"#;
    let tok = SubdirTok::from_body(url_at("h", "/dir/"), html);
    assert_eq!(tok.subdirectories.len(), 1);
    assert_eq!(tok.files.len(), 1);
}

#[test]
fn listing_rejects_escaping_directory_link() {
    let html = r#"<a href="../escape/">up</a><a href="b.txt">b</a>"#;
    let tok = SubdirTok::from_body(url_at("h", "/sub/"), html);
    assert!(tok.subdirectories.is_empty());
    assert_eq!(serials(&tok.files), vec!["http://h/sub/b.txt".to_string()]);
}

#[test]
fn listing_rejects_parent_and_self_links() {
    let html = r#"<a href="../">parent</a><a href="./">self</a><a href="c/">child</a>"#;
    let tok = SubdirTok::from_body(url_at("h", "/a/b/"), html);
    assert_eq!(serials(&tok.subdirectories), vec!["http://h/a/b/c/".to_string()]);
}

#[test]
fn listing_rejects_other_origin_directories() {
    let html = r#"<a href="http://other/dir/x/">o</a><a href="https://h/dir/x/">s</a><a href="x/">k</a>"#;
    let tok = SubdirTok::from_body(url_at("h", "/dir/"), html);
    assert_eq!(serials(&tok.subdirectories), vec!["http://h/dir/x/".to_string()]);
}

#[test]
fn listing_strips_query_and_fragment() {
    let html = r#"<a href="file.txt?x=1">q</a><a href="file.txt#frag">f</a>"#;
    let tok = SubdirTok::from_body(url_at("h", "/dir/"), html);
    assert_eq!(serials(&tok.files), vec!["http://h/dir/file.txt".to_string()]);
}

#[test]
fn listing_skips_unresolvable_href_but_keeps_the_rest() {
    let html = r#"<a href="http://[bad">broken</a><a href="ok.txt">ok</a>"#;
    let tok = SubdirTok::from_body(url_at("h", "/dir/"), html);
    assert_eq!(serials(&tok.files), vec!["http://h/dir/ok.txt".to_string()]);
}

#[test]
fn from_elements_reads_only_anchor_hrefs() {
    let elements = vec![
        HtmlElement {
            name: "a".to_string(),
            attrs: vec![
                HtmlAttr { name: "class".to_string(), value: "x".to_string() },
                HtmlAttr { name: "href".to_string(), value: "b/".to_string() },
            ],
        },
        HtmlElement {
            name: "link".to_string(),
            attrs: vec![HtmlAttr { name: "href".to_string(), value: "c/".to_string() }],
        },
    ];
    let tok = SubdirTok::from_elements(url_at("h", "/a/"), &elements);
    assert_eq!(serials(&tok.subdirectories), vec!["http://h/a/b/".to_string()]);
    assert!(tok.files.is_empty());
}

#[test]
fn new_starts_empty() {
    let tok = SubdirTok::new(url_at("h", "/a/"));
    assert!(tok.subdirectories.is_empty());
    assert!(tok.files.is_empty());
    assert_eq!(tok.current_url.serialized, "http://h/a/");
}

#[test]
fn classify_file_links_anywhere() {
    let cur = url_at("h", "/dir/");
    let other = UrlParts {
        scheme: "http".to_string(),
        host: Some("elsewhere".to_string()),
        port: Some(80),
        path: "/f.txt".to_string(),
        serialized: "http://elsewhere/f.txt".to_string(),
    };
    assert_eq!(classify_candidate(&cur, &other), Classification::File);
}

#[test]
fn classify_directory_checks_origin_and_containment() {
    let cur = url_at("h", "/dir/");
    assert_eq!(
        classify_candidate(&cur, &url_at("h", "/dir/sub/")),
        Classification::Subdirectory
    );
    assert_eq!(classify_candidate(&cur, &url_at("h", "/dir/")), Classification::Rejected);
    assert_eq!(classify_candidate(&cur, &url_at("h", "/other/")), Classification::Rejected);
    assert_eq!(
        classify_candidate(&cur, &url_at("elsewhere", "/dir/sub/")),
        Classification::Rejected
    );
}
