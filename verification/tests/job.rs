use kprint::model::{copies_integer, job_attributes, AttrValue, ColorMode, DuplexMode, PrintOptions};
use kprint::registry::{backend_address, backend_names};
use kprint::reply::{find_in_groups, find_named, job_link, rewrite_link, success_reply};
use kprint::model::JobAttribute;
use kprint::submit::{backend_failure, prepare_job, resolve, unknown_backend, KprintError};

fn options(pages: &str, copies: u32) -> PrintOptions {
    PrintOptions {
        sides: DuplexMode::TwoSidedLongEdge,
        color_mode: ColorMode::Grayscale,
        pages: pages.to_string(),
        copies,
        title: "report".to_string(),
    }
}

fn backends() -> Vec<String> {
    vec!["alpha".to_string(), "beta".to_string()]
}

fn uri_attr(name: &str, uri: &str) -> JobAttribute {
    JobAttribute { name: name.to_string(), value: AttrValue::Uri(uri.to_string()) }
}

fn int_attr(name: &str, v: i32) -> JobAttribute {
    JobAttribute { name: name.to_string(), value: AttrValue::Integer(v) }
}

#[test]
fn duplex_keywords() {
    assert_eq!(DuplexMode::OneSided.keyword(), "one-sided");
    assert_eq!(DuplexMode::TwoSidedLongEdge.keyword(), "two-sided-long-edge");
    assert_eq!(DuplexMode::TwoSidedShortEdge.keyword(), "two-sided-short-edge");
}

#[test]
fn color_keywords() {
    assert_eq!(ColorMode::Grayscale.keyword(), "grayscale");
    assert_eq!(ColorMode::Color.keyword(), "color");
}

#[test]
fn copies_wrap_like_a_signed_integer() {
    assert_eq!(copies_integer(0), 0);
    assert_eq!(copies_integer(3), 3);
    assert_eq!(copies_integer(2147483647), i32::MAX);
    assert_eq!(copies_integer(2147483648), i32::MIN);
    assert_eq!(copies_integer(u32::MAX), -1);
}

#[test]
fn attributes_without_ranges() {
    let attrs = job_attributes(DuplexMode::OneSided, ColorMode::Color, &vec![], 2);
    assert_eq!(attrs.len(), 3);
    assert_eq!(attrs[0].name, "sides");
    assert!(matches!(&attrs[0].value, AttrValue::Keyword(k) if k == "one-sided"));
    assert_eq!(attrs[1].name, "print-color-mode");
    assert!(matches!(&attrs[1].value, AttrValue::Keyword(k) if k == "color"));
    assert_eq!(attrs[2].name, "copies");
    assert!(matches!(&attrs[2].value, AttrValue::Integer(2)));
}

#[test]
fn attributes_with_ranges() {
    let attrs = job_attributes(
        DuplexMode::TwoSidedShortEdge,
        ColorMode::Grayscale,
        &vec![(1, 5), (10, 12)],
        1,
    );
    assert_eq!(attrs.len(), 5);
    assert_eq!(attrs[2].name, "page-ranges");
    assert!(matches!(&attrs[2].value, AttrValue::RangeOfInteger { min: 1, max: 5 }));
    assert_eq!(attrs[3].name, "page-ranges");
    assert!(matches!(&attrs[3].value, AttrValue::RangeOfInteger { min: 10, max: 12 }));
    assert_eq!(attrs[4].name, "copies");
}

#[test]
fn unknown_backend_is_not_found() {
    match prepare_job(&backends(), "gamma", "ada", &options("1-3", 1)) {
        Err(e) => {
            assert_eq!(e.status_code(), 404);
            assert_eq!(e.response_body(), "Printer named gamma doesn't exist!");
            assert_eq!(e.message(), "Actix error: Printer named gamma doesn't exist!");
        }
        Ok(_) => panic!("an unknown backend was accepted"),
    }
}

#[test]
fn unknown_backend_comes_before_the_pages() {
    match prepare_job(&backends(), "gamma", "ada", &options("abc", 1)) {
        Err(e) => assert_eq!(e.status_code(), 404),
        Ok(_) => panic!("an unknown backend was accepted"),
    }
}

#[test]
fn bad_pages_are_a_failed_precondition() {
    match prepare_job(&backends(), "beta", "ada", &options("1-3,abc", 1)) {
        Err(e) => {
            assert_eq!(e.status_code(), 412);
            assert!(matches!(&e, KprintError::PageRange(r) if r.bad_range() == "abc"));
            assert_eq!(
                e.response_body(),
                "Page range parse failure: Range Parsing Error: invalid digit found in string in abc"
            );
        }
        Ok(_) => panic!("a bad page specification was accepted"),
    }
}

#[test]
fn job_is_laid_out() {
    match prepare_job(&backends(), "beta", "ada", &options("1-3,2-5,10-12", 4)) {
        Ok((at, job)) => {
            assert_eq!(at, 1);
            assert_eq!(job.user_name, "ada");
            assert_eq!(job.title, "report");
            assert_eq!(job.attributes.len(), 5);
            assert!(matches!(
                &job.attributes[0].value,
                AttrValue::Keyword(k) if k == "two-sided-long-edge"
            ));
            assert!(matches!(&job.attributes[1].value, AttrValue::Keyword(k) if k == "grayscale"));
            assert!(matches!(
                &job.attributes[2].value,
                AttrValue::RangeOfInteger { min: 1, max: 5 }
            ));
            assert!(matches!(
                &job.attributes[3].value,
                AttrValue::RangeOfInteger { min: 10, max: 12 }
            ));
            assert!(matches!(&job.attributes[4].value, AttrValue::Integer(4)));
        }
        Err(e) => panic!("unexpected failure: {}", e.message()),
    }
}

#[test]
fn blank_pages_give_no_range_attribute() {
    match prepare_job(&backends(), "alpha", "ada", &options("  ", 1)) {
        Ok((at, job)) => {
            assert_eq!(at, 0);
            assert_eq!(job.attributes.len(), 3);
            assert!(job.attributes.iter().all(|a| a.name != "page-ranges"));
        }
        Err(e) => panic!("unexpected failure: {}", e.message()),
    }
}

#[test]
fn backend_failure_is_internal() {
    let e = backend_failure("connection reset".to_string());
    assert_eq!(e.status_code(), 500);
    assert_eq!(e.response_body(), "an unspecified internal error occurred");
    assert_eq!(
        e.message(),
        "an unspecified internal error occurred: connection reset"
    );
}

#[test]
fn unknown_backend_text() {
    let e = unknown_backend("x");
    assert_eq!(e.status_code(), 404);
    assert_eq!(e.response_body(), "Printer named x doesn't exist!");
}

#[test]
fn resolve_finds_the_first() {
    let names = vec!["a".to_string(), "b".to_string(), "a".to_string()];
    assert_eq!(resolve(&names, "a"), Some(0));
    assert_eq!(resolve(&names, "b"), Some(1));
    assert_eq!(resolve(&names, "c"), None);
    assert_eq!(resolve(&vec![], "a"), None);
}

#[test]
fn http_link_becomes_https() {
    assert_eq!(
        rewrite_link("http://printer.local:631/jobs/12"),
        Some("https://printer.local:631/jobs/12".to_string())
    );
}

#[test]
fn other_schemes_become_https() {
    assert_eq!(
        rewrite_link("ipp://cups.internal/jobs/7?x=1"),
        Some("https://cups.internal/jobs/7?x=1".to_string())
    );
    assert_eq!(
        rewrite_link("https://cups.internal/jobs/7"),
        Some("https://cups.internal/jobs/7".to_string())
    );
}

#[test]
fn what_is_no_absolute_uri_gives_no_link() {
    assert_eq!(rewrite_link("not a uri"), None);
    assert_eq!(rewrite_link(""), None);
    assert_eq!(rewrite_link("/jobs/12"), None);
}

#[test]
fn job_link_is_taken_from_the_first_group_that_has_one() {
    let groups = vec![
        vec![int_attr("job-id", 12)],
        vec![int_attr("job-state", 3), uri_attr("job-uri", "http://a.example/jobs/12")],
        vec![uri_attr("job-uri", "http://b.example/jobs/13")],
    ];
    assert_eq!(job_link(&groups), Some("https://a.example/jobs/12".to_string()));
    let reply = success_reply(&groups);
    assert_eq!(reply.message, "lmao");
    assert_eq!(reply.job_link, Some("https://a.example/jobs/12".to_string()));
}

#[test]
fn no_job_location_gives_no_link() {
    let groups = vec![vec![int_attr("job-id", 12)], vec![]];
    assert_eq!(job_link(&groups), None);
    assert_eq!(job_link(&vec![]), None);
    assert_eq!(success_reply(&groups).job_link, None);
}

#[test]
fn job_location_of_another_kind_gives_no_link() {
    let groups = vec![
        vec![int_attr("job-uri", 5)],
        vec![uri_attr("job-uri", "http://b.example/jobs/13")],
    ];
    assert_eq!(job_link(&groups), None);
}

#[test]
fn lookup_in_groups() {
    let group = vec![int_attr("a", 1), int_attr("b", 2), int_attr("a", 3)];
    assert!(matches!(find_named(&group, "a"), Some(AttrValue::Integer(1))));
    assert!(matches!(find_named(&group, "b"), Some(AttrValue::Integer(2))));
    assert!(find_named(&group, "c").is_none());
    let groups = vec![vec![], group];
    assert!(matches!(find_in_groups(&groups, "b"), Some(AttrValue::Integer(2))));
    assert!(find_in_groups(&groups, "z").is_none());
}

#[test]
fn backend_list() {
    assert_eq!(backend_names("alpha beta"), vec!["alpha".to_string(), "beta".to_string()]);
    assert_eq!(backend_names("solo"), vec!["solo".to_string()]);
    assert_eq!(backend_names(""), vec!["".to_string()]);
    assert_eq!(
        backend_names("a  b "),
        vec!["a".to_string(), "".to_string(), "b".to_string(), "".to_string()]
    );
}

#[test]
fn backend_addresses() {
    assert_eq!(
        backend_address("http://cups:631", "alpha"),
        "http://cups:631/printers/alpha"
    );
}
