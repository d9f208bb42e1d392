use topcoat::router::path::{Path, PathSegment};
use topcoat::router::static_export::error::StaticExportError;
use topcoat::router::static_export::params::StaticParams;
use topcoat::router::static_export::route::{
    collect_paths, expand_path, listing_response_head, page_step, PageStep, StaticPage, StaticPath, StaticRoutes,
};

fn params(pairs: &[(&str, &str)]) -> StaticParams {
    StaticParams::from_pairs(pairs)
}

fn expand(route: &str, pairs: &[(&str, &str)]) -> Result<String, StaticExportError> {
    expand_path(&Path::new(route), &params(pairs))
}

// -- StaticExportError --

#[test]
fn missing_names_the_page_and_the_parameter() {
    let error = StaticExportError::MissingParam {
        route: "/blog/{slug}".to_owned(),
        name: "slug".to_owned(),
    };
    let message = error.to_string();
    assert!(message.contains("/blog/{slug}"), "{message}");
    assert!(message.contains("`slug`"), "{message}");
}

#[test]
fn conflicting_paths_names_both_pages() {
    let error = StaticExportError::ConflictingPaths {
        first: "/blog/{slug}".to_owned(),
        second: "/blog/hello".to_owned(),
        path: "/blog/hello".to_owned(),
    };
    let message = error.to_string();
    assert!(message.contains("/blog/{slug}"), "{message}");
    assert!(message.contains("/blog/hello"), "{message}");
}

#[test]
fn invalid_param_suggests_a_catch_all() {
    let error = StaticExportError::InvalidParam {
        route: "/files/{name}".to_owned(),
        name: "name".to_owned(),
        value: "a/b".to_owned(),
    };
    assert!(error.to_string().contains("{*name}"), "{}", error.to_string());
}

#[test]
fn every_error_message_is_spelled_out() {
    let error = StaticExportError::DuplicatePath { route: "/{slug}".to_owned(), path: "/a".to_owned() };
    assert_eq!(error.to_string(), "page `/{slug}` generates the static path `/a` more than once");
    let error = StaticExportError::NotExportable { route: "/signup/{id}".to_owned() };
    assert_eq!(
        error.to_string(),
        "page `/signup/{id}` declares `generate_static` but does not answer `GET`, so it cannot be exported"
    );
    let error = StaticExportError::Generator { route: "/blog/{slug}".to_owned(), message: "down".to_owned() };
    assert_eq!(error.to_string(), "page `/blog/{slug}`: `generate_static` failed: down");
}

// -- StaticParams --

#[test]
fn new_is_empty() {
    let params = StaticParams::new();
    assert!(params.is_empty());
    assert_eq!(params.len(), 0);
    assert_eq!(params.get("id"), None);
}

#[test]
fn with_builds_a_set() {
    let params = StaticParams::new().with("year", "2026").with("slug", "hello");
    assert_eq!(params.len(), 2);
    assert_eq!(params.get("year"), Some("2026"));
    assert_eq!(params.get("slug"), Some("hello"));
}

#[test]
fn from_array_preserves_order() {
    let params = StaticParams::from_pairs(&[("a", "1"), ("b", "2")]);
    assert_eq!(params.iter(), vec![("a", "1"), ("b", "2")]);
}

#[test]
fn collects_from_an_iterator() {
    let params = StaticParams::from_pairs(&[("id", "7")]);
    assert_eq!(params.get("id"), Some("7"));
}

#[test]
fn a_repeated_name_is_kept_rather_than_overwritten() {
    let params = StaticParams::new().with("id", "1").with("id", "2");
    assert_eq!(params.len(), 2);
}

#[test]
fn the_first_value_of_a_repeated_name_is_read() {
    let mut params = StaticParams::new();
    params.insert("id", "1");
    params.insert("id", "2");
    assert_eq!(params.get("id"), Some("1"));
    assert_eq!(params.iter(), vec![("id", "1"), ("id", "2")]);
}

// -- expand_path --

#[test]
fn fixed_path_expands_to_itself() {
    assert_eq!(expand("/about", &[]).unwrap(), "/about");
    assert_eq!(expand("/", &[]).unwrap(), "/");
}

#[test]
fn group_segments_are_stripped() {
    assert_eq!(expand("/(marketing)/pricing", &[]).unwrap(), "/pricing");
    assert_eq!(expand("/(marketing)", &[]).unwrap(), "/");
}

#[test]
fn params_are_substituted() {
    assert_eq!(
        expand("/blog/{year}/{slug}", &[("year", "2026"), ("slug", "hi")]).unwrap(),
        "/blog/2026/hi"
    );
}

#[test]
fn parent_and_child_params_are_both_required() {
    let error = expand("/blog/{year}/{slug}", &[("slug", "hi")]).unwrap_err();
    assert_eq!(
        error,
        StaticExportError::MissingParam {
            route: "/blog/{year}/{slug}".to_owned(),
            name: "year".to_owned(),
        }
    );
}

#[test]
fn unknown_params_are_rejected() {
    let error = expand("/blog/{slug}", &[("slug", "hi"), ("id", "1")]).unwrap_err();
    assert_eq!(
        error,
        StaticExportError::UnknownParam {
            route: "/blog/{slug}".to_owned(),
            name: "id".to_owned(),
        }
    );
}

#[test]
fn a_fixed_page_rejects_any_param() {
    let error = expand("/about", &[("id", "1")]).unwrap_err();
    assert!(matches!(error, StaticExportError::UnknownParam { .. }));
}

#[test]
fn repeated_params_are_rejected() {
    let error = expand("/blog/{slug}", &[("slug", "a"), ("slug", "b")]).unwrap_err();
    assert_eq!(
        error,
        StaticExportError::DuplicateParam {
            route: "/blog/{slug}".to_owned(),
            name: "slug".to_owned(),
        }
    );
}

#[test]
fn empty_values_are_rejected() {
    let error = expand("/blog/{slug}", &[("slug", "")]).unwrap_err();
    assert!(matches!(error, StaticExportError::EmptyParam { .. }));
}

#[test]
fn a_param_may_not_span_segments() {
    let error = expand("/files/{name}", &[("name", "a/b")]).unwrap_err();
    assert!(matches!(error, StaticExportError::InvalidParam { .. }));
}

#[test]
fn a_catch_all_may_span_segments() {
    assert_eq!(expand("/files/{*rest}", &[("rest", "a/b/c")]).unwrap(), "/files/a/b/c");
    assert_eq!(expand("/files/{*rest}", &[("rest", "/a/b/")]).unwrap(), "/files/a/b");
}

#[test]
fn a_catch_all_of_separators_alone_is_empty() {
    let error = expand("/files/{*rest}", &[("rest", "//")]).unwrap_err();
    assert!(matches!(error, StaticExportError::EmptyParam { .. }));
}

// -- collect_paths --

fn collect(pages: &[(&str, &[&str])]) -> Result<Vec<StaticPath>, StaticExportError> {
    collect_paths(
        pages
            .iter()
            .map(|(route, urls)| ((*route).to_owned(), urls.iter().map(|url| (*url).to_owned()).collect()))
            .collect(),
    )
}

#[test]
fn paths_are_sorted() {
    let paths = collect(&[("/{slug}", &["/b", "/a"])]).unwrap();
    assert_eq!(paths.iter().map(|p| p.path.as_str()).collect::<Vec<_>>(), vec!["/a", "/b"]);
    assert_eq!(paths[0].route, "/{slug}");
}

#[test]
fn one_page_generating_a_path_twice_is_rejected() {
    let error = collect(&[("/{slug}", &["/a", "/a"])]).unwrap_err();
    assert_eq!(
        error,
        StaticExportError::DuplicatePath {
            route: "/{slug}".to_owned(),
            path: "/a".to_owned(),
        }
    );
}

#[test]
fn two_pages_generating_the_same_path_are_rejected() {
    let error = collect(&[("/{slug}", &["/about"]), ("/about", &["/about"])]).unwrap_err();
    assert_eq!(
        error,
        StaticExportError::ConflictingPaths {
            first: "/{slug}".to_owned(),
            second: "/about".to_owned(),
            path: "/about".to_owned(),
        }
    );
}

// -- StaticPage::expand --

fn two_posts() -> Option<Result<Vec<StaticParams>, String>> {
    Some(Ok(vec![StaticParams::from_pairs(&[("slug", "a")]), StaticParams::from_pairs(&[("slug", "b")])]))
}

#[test]
fn a_fixed_page_exports_without_a_generator() {
    let urls = StaticPage::new("/about", true, None).expand().unwrap();
    assert_eq!(urls, vec!["/about".to_owned()]);
}

#[test]
fn a_dynamic_page_without_a_generator_is_skipped() {
    let urls = StaticPage::new("/blog/{slug}", true, None).expand().unwrap();
    assert!(urls.is_empty());
}

#[test]
fn a_non_get_page_without_a_generator_is_skipped() {
    let urls = StaticPage::new("/signup", false, None).expand().unwrap();
    assert!(urls.is_empty());
}

#[test]
fn a_generator_expands_every_parameter_set() {
    let urls = StaticPage::new("/blog/{slug}", true, two_posts()).expand().unwrap();
    assert_eq!(urls, vec!["/blog/a".to_owned(), "/blog/b".to_owned()]);
}

#[test]
fn a_non_get_page_with_a_generator_is_an_error() {
    let error = StaticPage::new("/signup/{id}", false, two_posts()).expand().unwrap_err();
    assert!(matches!(error, StaticExportError::NotExportable { .. }));
}

#[test]
fn a_failing_generator_reports_the_page_and_the_error() {
    let page = StaticPage::new("/blog/{slug}", true, Some(Err("database unreachable".to_owned())));
    let error = page.expand().unwrap_err();
    let message = error.to_string();
    assert!(message.contains("/blog/{slug}"), "{message}");
    assert!(message.contains("database unreachable"), "{message}");
}

#[test]
fn only_a_get_page_with_a_generator_runs_it() {
    assert!(matches!(page_step("/blog/{slug}", true, true), PageStep::RunGenerator));
    match page_step("/signup/{id}", false, true) {
        PageStep::Settled(Err(StaticExportError::NotExportable { route })) => assert_eq!(route, "/signup/{id}"),
        other => panic!("{other:?}"),
    }
    match page_step("/about", true, false) {
        PageStep::Settled(Ok(urls)) => assert_eq!(urls, vec!["/about".to_owned()]),
        other => panic!("{other:?}"),
    }
    match page_step("/blog/{slug}", true, false) {
        PageStep::Settled(Ok(urls)) => assert!(urls.is_empty()),
        other => panic!("{other:?}"),
    }
}

// -- StaticRoutes --

#[test]
fn the_listing_sorts_pages_and_assets() {
    let routes = StaticRoutes::new(
        vec![StaticPage::new("/blog/{slug}", true, two_posts()), StaticPage::new("/about", true, None)],
        vec!["/_topcoat/assets/b.css".to_owned(), "/_topcoat/assets/a.png".to_owned()],
    );
    let listing = routes.listing().unwrap();
    assert_eq!(
        listing.pages.iter().map(|p| p.path.as_str()).collect::<Vec<_>>(),
        vec!["/about", "/blog/a", "/blog/b"]
    );
    assert_eq!(listing.assets, vec!["/_topcoat/assets/a.png", "/_topcoat/assets/b.css"]);
}

#[test]
fn a_page_at_a_static_file_url_is_rejected() {
    let routes = StaticRoutes::new(
        vec![StaticPage::new("/_topcoat/assets/a.png", true, None)],
        vec!["/_topcoat/assets/a.png".to_owned()],
    );
    let error = routes.listing().unwrap_err();
    assert!(matches!(error, StaticExportError::ConflictsWithStaticFile { .. }), "{}", error.to_string());
}

#[test]
fn the_listing_names_the_route_each_page_came_from() {
    let routes = StaticRoutes::new(vec![StaticPage::new("/blog/{slug}", true, two_posts())], Vec::new());
    let listing = routes.listing().unwrap();
    assert_eq!(listing.pages[0].path, "/blog/a");
    assert_eq!(listing.pages[0].route, "/blog/{slug}");
}

#[test]
fn a_repeated_asset_is_listed_once() {
    let routes = StaticRoutes::new(Vec::new(), vec!["/a.png".to_owned(), "/a.png".to_owned()]);
    assert_eq!(routes.listing().unwrap().assets, vec!["/a.png"]);
}

#[test]
fn an_expanded_url_is_matched_by_its_route() {
    let route = Path::new("/blog/{year}/{*rest}");
    let url = expand_path(&route, &params(&[("year", "2026"), ("rest", "/a/b/")])).unwrap();
    assert_eq!(url, "/blog/2026/a/b");
    assert!(route.matches(&url));
    assert!(!route.matches("/blog/2026"));
    assert!(!route.matches("/news/2026/a"));
}

#[test]
fn a_route_reads_as_its_segments() {
    let route = Path::new("/(site)/blog/{slug}/{*rest}");
    assert_eq!(
        route.segments(),
        vec![
            PathSegment::Group("site".to_owned()),
            PathSegment::Static("blog".to_owned()),
            PathSegment::Param("slug".to_owned()),
            PathSegment::CatchAll("rest".to_owned()),
        ]
    );
    assert_eq!(route.as_str(), "/(site)/blog/{slug}/{*rest}");
}

#[test]
fn a_generator_with_no_sets_leaves_the_page_out() {
    let urls = StaticPage::new("/blog/{slug}", true, Some(Ok(Vec::new()))).expand().unwrap();
    assert!(urls.is_empty());
}

#[test]
fn the_listing_answer_is_json_or_the_reason_as_text() {
    let ok = StaticRoutes::new(vec![StaticPage::new("/about", true, None)], vec![]).listing();
    let (status, content_type, body) = listing_response_head(&ok);
    assert_eq!((status, content_type, body), (200, "application/json", None));

    let failing = StaticRoutes::new(vec![StaticPage::new("/signup/{id}", false, two_posts())], vec![]).listing();
    let message = failing.as_ref().unwrap_err().to_string();
    let (status, content_type, body) = listing_response_head(&failing);
    assert_eq!((status, content_type), (500, "text/plain; charset=utf-8"));
    assert_eq!(body, Some(message));
}
