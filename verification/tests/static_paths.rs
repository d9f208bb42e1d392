use topcoat::router::path::Path;
use topcoat::router::static_export::{
    collect_static_paths, expand_automatic_page, expand_explicit_page, expand_explicit_params, Candidate,
    ModuleExpansion, ModuleStep, Router, SegmentCache, StaticExportError, StaticFile, StaticPage, StaticPageSegment,
    StaticPageSource, StaticParams, StaticSegmentValue,
};

/// Runs a module-derived page's expansion with a fresh cache, answering each
/// generator request with `generate`, and counting the requests.
fn expand_module(
    route: &str,
    segments: Vec<StaticPageSegment>,
    generate: &dyn Fn(usize, &Candidate) -> Result<Vec<StaticSegmentValue>, String>,
) -> (Result<Vec<String>, StaticExportError>, usize) {
    let mut cache = SegmentCache::new();
    expand_module_with(route, segments, &mut cache, generate)
}

/// Runs a module-derived page's expansion with `cache`, answering each
/// generator request with `generate`, and counting the requests.
fn expand_module_with(
    route: &str,
    segments: Vec<StaticPageSegment>,
    cache: &mut SegmentCache,
    generate: &dyn Fn(usize, &Candidate) -> Result<Vec<StaticSegmentValue>, String>,
) -> (Result<Vec<String>, StaticExportError>, usize) {
    let mut expansion = ModuleExpansion::new(&Path::new(route), segments);
    let mut calls = 0;
    loop {
        match expansion.next(cache) {
            ModuleStep::Generate { generator, candidate } => {
                calls += 1;
                if let Err(error) = expansion.supply(cache, generate(generator, &candidate)) {
                    return (Err(error), calls);
                }
            },
            ModuleStep::Done(urls) => return (Ok(urls), calls),
            ModuleStep::Failed(error) => return (Err(error), calls),
        }
    }
}

fn literal(s: &str) -> StaticPageSegment {
    StaticPageSegment::Static(s.to_owned())
}

fn param(name: &str, generator: Option<usize>) -> StaticPageSegment {
    StaticPageSegment::Param { name: name.to_owned(), generator }
}

fn catch_all(name: &str, generator: Option<usize>) -> StaticPageSegment {
    StaticPageSegment::CatchAll { name: name.to_owned(), generator }
}

/// The generators of the products app: product ids, review ids derived from
/// the product, and documentation paths.
fn products(generator: usize, candidate: &Candidate) -> Result<Vec<StaticSegmentValue>, String> {
    match generator {
        0 => Ok(vec![StaticSegmentValue::param("7"), StaticSegmentValue::param("42")]),
        1 => {
            let product = &candidate.params()[0].1;
            Ok(vec![StaticSegmentValue::param(&format!("{product}0"))])
        },
        2 => Ok(vec![StaticSegmentValue::catch_all(&["guide", "start"]), StaticSegmentValue::catch_all(&["reference"])]),
        _ => Err("no such generator".to_owned()),
    }
}

#[test]
fn module_segments_generate_concrete_static_paths() {
    let mut cache = SegmentCache::new();
    let (product, product_calls) = expand_module_with(
        "/products/{product_id}",
        vec![literal("products"), param("product_id", Some(0))],
        &mut cache,
        &products,
    );
    let (reviews, review_calls) = expand_module_with(
        "/products/{product_id}/reviews/{review_id}",
        vec![literal("products"), param("product_id", Some(0)), literal("reviews"), param("review_id", Some(1))],
        &mut cache,
        &products,
    );
    let (docs, _) =
        expand_module_with("/docs/{*path}", vec![literal("docs"), catch_all("path", Some(2))], &mut cache, &products);
    let home = expand_automatic_page(&Path::new("/")).unwrap();
    let generated = vec![
        ("/".to_owned(), home),
        ("/products/{product_id}".to_owned(), product.unwrap()),
        ("/products/{product_id}/reviews/{review_id}".to_owned(), reviews.unwrap()),
        ("/docs/{*path}".to_owned(), docs.unwrap()),
    ];
    let paths = collect_static_paths(generated).unwrap();
    let urls: Vec<&str> = paths.iter().map(|p| p.url_path()).collect();
    assert_eq!(
        urls,
        [
            "/",
            "/docs/guide/start",
            "/docs/reference",
            "/products/42",
            "/products/42/reviews/420",
            "/products/7",
            "/products/7/reviews/70",
        ]
    );
    assert_eq!(paths[1].route().as_str(), "/docs/{*path}");
    // The product ids are generated once, for the first page; the second
    // page reuses them and only runs the review generator per product.
    assert_eq!(product_calls, 1);
    assert_eq!(review_calls, 2);
}

#[test]
fn the_cache_keeps_what_a_generator_gave_for_a_url() {
    let mut cache = SegmentCache::new();
    assert!(cache.lookup(0, "/products").is_none());
    cache.record(0, "/products", &vec![StaticSegmentValue::param("7")]);
    assert_eq!(cache.lookup(0, "/products"), Some(vec![StaticSegmentValue::param("7")]));
    assert!(cache.lookup(1, "/products").is_none());
    assert!(cache.lookup(0, "/docs").is_none());
    cache.record(0, "/products", &vec![StaticSegmentValue::param("8")]);
    assert_eq!(cache.lookup(0, "/products"), Some(vec![StaticSegmentValue::param("8")]));
}

#[test]
fn a_generator_runs_once_per_candidate() {
    let (urls, calls) = expand_module(
        "/products/{product_id}/reviews/{review_id}",
        vec![literal("products"), param("product_id", Some(0)), literal("reviews"), param("review_id", Some(1))],
        &products,
    );
    assert_eq!(urls.unwrap(), vec!["/products/7/reviews/70", "/products/42/reviews/420"]);
    // Once for the product ids, then once per product for its reviews.
    assert_eq!(calls, 3);
}

#[test]
fn candidates_carry_the_values_chosen_so_far() {
    let mut expansion = ModuleExpansion::new(
        &Path::new("/docs/{*path}/{page}"),
        vec![literal("docs"), catch_all("path", Some(2)), param("page", Some(0))],
    );
    let mut cache = SegmentCache::new();
    match expansion.next(&cache) {
        ModuleStep::Generate { generator, candidate } => {
            assert_eq!(generator, 2);
            assert_eq!(candidate.url_path(), "/docs");
            assert!(candidate.params().is_empty());
            expansion.supply(&mut cache, products(2, &candidate)).unwrap();
        },
        _ => panic!("expected a generator request"),
    }
    match expansion.next(&cache) {
        ModuleStep::Generate { generator, candidate } => {
            assert_eq!(generator, 0);
            assert_eq!(candidate.url_path(), "/docs/guide/start");
            assert_eq!(candidate.params(), &vec![("path".to_owned(), "guide/start".to_owned())]);
        },
        _ => panic!("expected a generator request"),
    }
}

#[test]
fn module_values_are_percent_encoded() {
    let (urls, _) = expand_module(
        "/tags/{tag}",
        vec![literal("tags"), param("tag", Some(9))],
        &|_, _| Ok(vec![StaticSegmentValue::param("a b"), StaticSegmentValue::param("c/d")]),
    );
    assert_eq!(urls.unwrap(), vec!["/tags/a%20b", "/tags/c%2Fd"]);
}

#[test]
fn a_segment_without_a_generator_is_reported() {
    let (error, _) = expand_module("/users/{id}", vec![literal("users"), param("id", None)], &products);
    assert_eq!(
        error.unwrap_err().to_string(),
        "dynamic segment `id` in route `/users/{id}` has no `generate_static` function"
    );
}

#[test]
fn a_failing_segment_generator_is_reported() {
    let (error, calls) = expand_module("/users/{id}", vec![literal("users"), param("id", Some(5))], &products);
    assert_eq!(
        error.unwrap_err().to_string(),
        "failed to generate static values for `id` in route `/users/{id}`: no such generator"
    );
    assert_eq!(calls, 1);
}

#[test]
fn a_parameter_value_must_be_one_component() {
    let (error, _) = expand_module("/users/{id}", vec![literal("users"), param("id", Some(2))], &products);
    assert_eq!(
        error.unwrap_err().to_string(),
        "static value for `id` in route `/users/{id}` must contain exactly one path component"
    );
}

#[test]
fn a_catch_all_value_needs_a_component() {
    let (error, _) =
        expand_module("/docs/{*path}", vec![literal("docs"), catch_all("path", Some(3))], &|_, _| {
            Ok(vec![StaticSegmentValue::catch_all(&[])])
        });
    assert_eq!(
        error.unwrap_err().to_string(),
        "static value for `path` in route `/docs/{*path}` must contain one or more path component"
    );
}

#[test]
fn an_empty_component_is_rejected() {
    let (error, _) =
        expand_module("/docs/{*path}", vec![literal("docs"), catch_all("path", Some(3))], &|_, _| {
            Ok(vec![StaticSegmentValue::catch_all(&["a", ""])])
        });
    assert_eq!(
        error.unwrap_err().to_string(),
        "static value for `path` in route `/docs/{*path}` contains an empty path component"
    );
}

#[test]
fn a_generator_with_no_values_leaves_the_page_out() {
    let (urls, _) = expand_module("/users/{id}", vec![literal("users"), param("id", Some(4))], &|_, _| Ok(Vec::new()));
    assert!(urls.unwrap().is_empty());
}

#[test]
fn groups_add_nothing_to_a_module_page() {
    let (urls, calls) = expand_module("/(shop)/cart", vec![StaticPageSegment::Group, literal("cart")], &products);
    assert_eq!(urls.unwrap(), vec!["/cart"]);
    assert_eq!(calls, 0);
}

// -- explicitly pathed pages --

fn catalog() -> Vec<StaticParams> {
    vec![
        StaticParams::new().param("category", "books").catch_all("slug", &["rust", "async"]),
        StaticParams::new().param("category", "home and garden").catch_all("slug", &["lighting"]),
    ]
}

#[test]
fn explicit_pages_generate_complete_parameter_sets() {
    let route = Path::new("/catalog/{category}/{*slug}");
    let urls = expand_explicit_page(&route, Ok(catalog())).unwrap();
    assert_eq!(urls, vec!["/catalog/books/rust/async", "/catalog/home%20and%20garden/lighting"]);
}

#[test]
fn explicit_dynamic_pages_require_a_generator() {
    let error = expand_automatic_page(&Path::new("/missing/{value}")).unwrap_err();
    assert!(error.to_string().contains("requires `generate_static` on `#[page]`"));
    assert_eq!(
        error.to_string(),
        "dynamic segment `value` in explicit route `/missing/{value}` requires `generate_static` on `#[page]`"
    );
}

#[test]
fn a_fixed_page_is_exported_at_its_route() {
    assert_eq!(expand_automatic_page(&Path::new("/(marketing)/pricing")).unwrap(), vec!["/pricing"]);
    assert_eq!(expand_automatic_page(&Path::new("/")).unwrap(), vec!["/"]);
}

#[test]
fn duplicate_concrete_urls_are_rejected() {
    let dynamic = expand_explicit_page(&Path::new("/blog/{slug}"), Ok(vec![StaticParams::new().param("slug", "featured")]))
        .unwrap();
    let fixed = expand_automatic_page(&Path::new("/blog/featured")).unwrap();
    let error = collect_static_paths(vec![("/blog/{slug}".to_owned(), dynamic), ("/blog/featured".to_owned(), fixed)])
        .unwrap_err();
    assert!(error.to_string().contains("multiple pages generate the static URL `/blog/featured`"));
}

#[test]
fn the_smallest_duplicate_url_is_reported() {
    let error = collect_static_paths(vec![
        ("/{a}".to_owned(), vec!["/z".to_owned(), "/b".to_owned()]),
        ("/{b}".to_owned(), vec!["/z".to_owned(), "/b".to_owned()]),
    ])
    .unwrap_err();
    assert_eq!(error.to_string(), "multiple pages generate the static URL `/b`");
}

#[test]
fn a_failing_parameter_generator_is_reported() {
    let error = expand_explicit_page(&Path::new("/blog/{slug}"), Err("database unreachable".to_owned())).unwrap_err();
    assert_eq!(
        error.to_string(),
        "failed to generate static parameters for route `/blog/{slug}`: database unreachable"
    );
}

#[test]
fn a_set_missing_a_parameter_is_rejected() {
    let route = Path::new("/blog/{year}/{slug}");
    let error = expand_explicit_params(&route, &StaticParams::new().param("slug", "hi")).unwrap_err();
    assert_eq!(error.to_string(), "static parameters for route `/blog/{year}/{slug}` are missing `year`");
}

#[test]
fn a_set_naming_an_unknown_parameter_is_rejected() {
    let route = Path::new("/blog/{slug}");
    let params = StaticParams::new().param("slug", "hi").param("id", "1");
    let error = expand_explicit_params(&route, &params).unwrap_err();
    assert_eq!(error.to_string(), "static parameters for route `/blog/{slug}` contain unknown parameter `id`");
}

#[test]
fn a_set_naming_a_parameter_twice_is_rejected() {
    let route = Path::new("/blog/{slug}");
    let params = StaticParams::new().param("slug", "a").param("slug", "b");
    let error = expand_explicit_params(&route, &params).unwrap_err();
    assert_eq!(error.to_string(), "static parameters for route `/blog/{slug}` contain duplicate `slug` values");
}

#[test]
fn a_literal_needing_escapes_does_not_match_its_route() {
    let route = Path::new("/a b/{x}");
    let error = expand_explicit_params(&route, &StaticParams::new().param("x", "1")).unwrap_err();
    assert_eq!(error.to_string(), "generated URL `/a%20b/1` does not match route `/a b/{x}`");
}

#[test]
fn parameter_sets_keep_their_order() {
    let urls = expand_explicit_page(
        &Path::new("/blog/{slug}"),
        Ok(vec![StaticParams::new().param("slug", "b"), StaticParams::new().param("slug", "a")]),
    )
    .unwrap();
    assert_eq!(urls, vec!["/blog/b", "/blog/a"]);
}

// -- the router's files and pages --

#[test]
fn declared_static_files_are_listed() {
    let file = StaticFile::new("/_topcoat/assets/logo-1a2b3c4d.png", "assets/logo.png");
    let router = Router::new(
        vec![StaticPage::new(Path::new("/"), None), StaticPage::new(Path::new("/g/{x}"), Some(StaticPageSource::Explicit(3)))],
        vec![file],
    );
    assert_eq!(router.static_files().len(), 1);
    assert_eq!(router.static_files()[0].url_path(), "/_topcoat/assets/logo-1a2b3c4d.png");
    assert_eq!(router.static_files()[0].source_path(), "assets/logo.png");
    assert_eq!(router.static_pages().len(), 2);
    assert_eq!(router.static_pages()[1].path().as_str(), "/g/{x}");
    assert!(matches!(router.static_pages()[1].source(), Some(StaticPageSource::Explicit(3))));
}

#[test]
fn segment_values_hold_their_components() {
    assert_eq!(StaticSegmentValue::param("7").components(), &vec!["7".to_owned()]);
    assert_eq!(StaticSegmentValue::catch_all(&["a", "b"]).components(), &vec!["a".to_owned(), "b".to_owned()]);
    assert_eq!(Candidate::root().url_path(), "/");
}

#[test]
fn a_complete_set_expands_to_a_url_its_route_matches() {
    let route = Path::new("/(shop)/catalog/{category}/{*slug}");
    let params = StaticParams::new().param("category", "books").catch_all("slug", &["rust", "async"]);
    let url = expand_explicit_params(&route, &params).unwrap();
    assert_eq!(url, "/catalog/books/rust/async");
    assert!(route.matches(&url));
}
