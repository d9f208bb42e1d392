use topcoat::cli::export::app::{parse_ready, ready_outcome, ReadyError, ReadyEvent, ReadyReport};
use topcoat::cli::export::output::{backup_dir, file_for_asset, staging_dir, OutputFormat, OutputPathError};
use topcoat::cli::export::site::{
    check_fetched, check_listing_response, lay_out, listing_url, page_failure, request_url, Claimed, ExportError,
    ListedPage, Listing,
};
use topcoat::cli::export::{plural, ExportCommand};
use topcoat::percent::percent_encode;
use topcoat::router::dev::tooling_enabled;

fn directory(url: &str) -> String {
    OutputFormat::Directory.file_for(url).unwrap()
}

fn file(url: &str) -> String {
    OutputFormat::File.file_for(url).unwrap()
}

#[test]
fn nouns_agree_with_their_count() {
    assert_eq!(plural(1, "page"), "page");
    assert_eq!(plural(0, "page"), "pages");
    assert_eq!(plural(2, "asset"), "assets");
}

#[test]
fn the_root_is_always_the_index() {
    assert_eq!(directory("/"), "index.html");
    assert_eq!(file("/"), "index.html");
}

#[test]
fn directory_format_nests_an_index() {
    assert_eq!(directory("/about"), "about/index.html");
    assert_eq!(directory("/blog/hello"), "blog/hello/index.html");
}

#[test]
fn file_format_appends_html() {
    assert_eq!(file("/about"), "about.html");
    assert_eq!(file("/blog/hello"), "blog/hello.html");
}

#[test]
fn a_trailing_slash_does_not_add_a_segment() {
    assert_eq!(directory("/about/"), "about/index.html");
    assert_eq!(file("/about/"), "about.html");
}

#[test]
fn assets_keep_their_url() {
    assert_eq!(file_for_asset("/_topcoat/assets/logo-1a2b.png").unwrap(), "_topcoat/assets/logo-1a2b.png");
}

#[test]
fn traversal_segments_are_rejected() {
    for url in ["/../secret", "/blog/../../etc/passwd", "/a/./b"] {
        assert!(OutputFormat::Directory.file_for(url).is_err(), "accepted `{url}`");
    }
}

#[test]
fn an_asset_url_must_name_a_file() {
    assert_eq!(file_for_asset("/"), Err(OutputPathError::Empty { url: "/".to_owned() }));
}

#[test]
fn the_staging_and_backup_directories_sit_beside_the_output() {
    let out = "/tmp/site/dist";
    assert_eq!(staging_dir(out), "/tmp/site/.dist.topcoat-export");
    assert_eq!(backup_dir(out), "/tmp/site/.dist.topcoat-export-prev");
}

#[test]
fn a_bare_output_name_gets_hidden_siblings() {
    assert_eq!(staging_dir("dist"), ".dist.topcoat-export");
    assert_eq!(backup_dir("dist"), ".dist.topcoat-export-prev");
    assert_ne!(staging_dir("site/out"), "site/out");
    assert_ne!(staging_dir("site/out"), backup_dir("site/out"));
}

#[test]
fn an_unsafe_segment_is_named() {
    let error = OutputFormat::File.file_for("/a/../b").unwrap_err();
    assert_eq!(
        error,
        OutputPathError::UnsafeSegment { url: "/a/../b".to_owned(), segment: "..".to_owned() }
    );
}

#[test]
fn request_paths_are_escaped_but_keep_their_separators() {
    assert_eq!(percent_encode("/blog/hello world", true), "/blog/hello%20world");
    assert_eq!(request_url("http://127.0.0.1:8080", "/blog/hello world"), "http://127.0.0.1:8080/blog/hello%20world");
}

#[test]
fn a_segment_escapes_its_separators() {
    assert_eq!(percent_encode("a/b c", false), "a%2Fb%20c");
    assert_eq!(percent_encode("é", false), "%C3%A9");
}

#[test]
fn the_listing_is_read_from_the_tooling_route() {
    assert_eq!(listing_url("http://127.0.0.1:1"), "http://127.0.0.1:1/_topcoat/routes/static");
}

#[test]
fn distinct_files_are_all_claimed() {
    let mut claimed = Claimed::default();
    claimed.claim("about/index.html", "/about").unwrap();
    claimed.claim("_topcoat/assets/a.png", "/_topcoat/assets/a.png").unwrap();
}

#[test]
fn a_second_url_cannot_claim_a_taken_file() {
    let mut claimed = Claimed::default();
    claimed.claim("about/index.html", "/about").unwrap();
    let error = claimed.claim("about/index.html", "/about/index.html").unwrap_err();
    let message = error.to_string();
    assert!(message.contains("`/about`"), "{message}");
    assert!(message.contains("`/about/index.html`"), "{message}");
}

#[test]
fn a_rejection_reports_the_applications_own_message() {
    let error = ExportError::Rejected {
        message: "page `/blog/{slug}`: generated parameters do not include `slug`".to_owned(),
    };
    assert!(error.to_string().contains("do not include `slug`"), "{}", error.to_string());
}

#[test]
fn the_listing_answer_is_judged_by_its_status() {
    assert!(check_listing_response("u", 200, b"{}").is_ok());
    assert!(matches!(check_listing_response("u", 404, b""), Err(ExportError::ListingUnavailable)));
    match check_listing_response("u", 500, b"both generate the static path `/`") {
        Err(ExportError::Rejected { message }) => assert_eq!(message, "both generate the static path `/`"),
        _ => panic!("a 500 is a rejection"),
    }
    assert!(matches!(check_listing_response("u", 502, b""), Err(ExportError::Status { status: 502, .. })));
}

#[test]
fn only_a_200_has_a_body_to_write() {
    assert!(check_fetched("/about", 200).is_ok());
    assert!(matches!(check_fetched("/about", 404), Err(ExportError::Status { status: 404, .. })));
}

#[test]
fn a_failing_page_names_its_route() {
    let page = ListedPage { path: "/blog/a".to_owned(), route: "/blog/{slug}".to_owned() };
    let error = page_failure(&page, ExportError::Status { url: "/blog/a".to_owned(), status: 500 });
    let message = error.to_string();
    assert!(message.contains("/blog/{slug}"), "{message}");
}

#[test]
fn the_layout_places_pages_and_assets() {
    let listing = Listing {
        pages: vec![
            ListedPage { path: "/".to_owned(), route: "/".to_owned() },
            ListedPage { path: "/about".to_owned(), route: "/about".to_owned() },
        ],
        assets: vec!["/_topcoat/assets/a.png".to_owned()],
    };
    let layout = lay_out(&listing, OutputFormat::File).unwrap();
    assert_eq!(layout.pages, vec!["index.html", "about.html"]);
    assert_eq!(layout.assets, vec!["_topcoat/assets/a.png"]);
    let summary = listing.summary();
    assert_eq!((summary.pages, summary.assets), (2, 1));
}

#[test]
fn a_page_and_an_asset_at_one_file_collide() {
    let listing = Listing {
        pages: vec![ListedPage { path: "/about".to_owned(), route: "/about".to_owned() }],
        assets: vec!["/about/index.html".to_owned()],
    };
    let error = lay_out(&listing, OutputFormat::Directory).unwrap_err();
    assert!(matches!(error, ExportError::Collision { .. }));
}

#[test]
fn the_output_format_reads_as_its_name() {
    assert_eq!(OutputFormat::Directory.to_string(), "directory");
    assert_eq!(OutputFormat::File.to_string(), "file");
    assert_eq!(OutputFormat::default(), OutputFormat::Directory);
    let command = ExportCommand::default();
    assert_eq!(command.out, "dist");
    assert_eq!(command.format, OutputFormat::Directory);
}

#[test]
fn a_bare_ready_message_reports_no_address() {
    assert_eq!(parse_ready("ready"), Some(ReadyReport::Bare));
}

#[test]
fn a_ready_message_carries_the_listener_address() {
    assert_eq!(parse_ready("ready 127.0.0.1:8080"), Some(ReadyReport::Reported("127.0.0.1:8080".to_owned())));
}

#[test]
fn an_unparsable_address_reports_no_address() {
    // The library hands the address over as text; reading it as a socket
    // address, and falling back when it is not one, is the caller's part.
    assert_eq!(parse_ready("ready not-an-address"), Some(ReadyReport::Reported("not-an-address".to_owned())));
}

#[test]
fn other_messages_are_ignored() {
    assert_eq!(parse_ready("reload"), None);
    assert_eq!(parse_ready(""), None);
    assert_eq!(parse_ready("readying"), None);
}

#[test]
fn waiting_ends_with_what_happened_first() {
    assert_eq!(ready_outcome(ReadyEvent::Reported(Some(8080u16))).unwrap(), 8080);
    assert!(matches!(ready_outcome::<u16>(ReadyEvent::Reported(None)), Err(ReadyError::NoAddress)));
    assert!(matches!(ready_outcome::<u16>(ReadyEvent::Closed), Err(ReadyError::Timeout)));
    assert!(matches!(ready_outcome::<u16>(ReadyEvent::TimedOut), Err(ReadyError::Timeout)));
    match ready_outcome::<u16>(ReadyEvent::Exited("exit status: 1".to_owned())) {
        Err(ReadyError::Exited { status }) => assert_eq!(status, "exit status: 1"),
        _ => panic!("an exit is reported"),
    }
}

#[test]
fn readiness_failures_explain_themselves() {
    assert_eq!(
        ReadyError::Exited { status: "exit status: 1".to_owned() }.to_string(),
        "the application exited before serving any pages (exit status: 1)"
    );
    assert_eq!(
        ReadyError::NoAddress.to_string(),
        "the application is not listening on a TCP address, so its pages cannot be fetched"
    );
    assert_eq!(
        ReadyError::Timeout.to_string(),
        "the application did not start serving within 30s; it must serve with `topcoat::serve` or `topcoat::start` to be exported"
    );
}

#[test]
fn the_tooling_is_enabled_under_the_cli() {
    assert!(tooling_enabled(Some("http://127.0.0.1:3000")));
    assert!(!tooling_enabled(None));
}

#[test]
fn a_segment_encodes_alike_with_or_without_separators() {
    assert_eq!(percent_encode("a b?", true), percent_encode("a b?", false));
    assert_eq!(
        percent_encode("/x y/z", true),
        format!("{}/{}", percent_encode("/x y", true), percent_encode("z", true))
    );
}
