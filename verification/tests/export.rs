use topcoat::export::{
    check_rendered, config_from_values, page_output_path, plan_export, reserve_output, static_file_output_path,
    url_to_relative_path, EnvValue, ExportConfig, ExportPathStyle, ExportReport, Outputs,
};

fn strings(v: &[&str]) -> Vec<String> {
    v.iter().map(|s| (*s).to_owned()).collect()
}

#[test]
fn exports_pages_and_registered_static_files() {
    let plan = plan_export(&strings(&["/", "/404", "/about"]), &strings(&["/assets/source.txt"]), ExportPathStyle::Directory)
        .unwrap();
    assert_eq!(plan.pages, vec!["index.html", "404.html", "about/index.html"]);
    assert!(!plan.default_404);
    assert_eq!(plan.files, vec!["assets/source.txt"]);
    let report = plan.report("dist");
    assert_eq!(report.pages(), 3);
    assert_eq!(report.files(), 1);
    assert_eq!(report.out_dir(), "dist");
}

#[test]
fn html_file_style_writes_flat_page_names_and_a_default_404() {
    let plan = plan_export(&strings(&["/", "/about"]), &Vec::new(), ExportPathStyle::HtmlFile).unwrap();
    assert_eq!(plan.pages, vec!["index.html", "about.html"]);
    assert!(plan.default_404);
    assert_eq!(plan.report("dist").pages(), 3);
}

#[test]
fn reports_page_and_static_file_output_collisions_before_writing() {
    let error = plan_export(&strings(&["/about"]), &strings(&["/about"]), ExportPathStyle::Directory).unwrap_err();
    assert!(error.to_string().contains("static outputs"));
    assert_eq!(
        error.to_string(),
        "static outputs `about/index.html` and `about` conflict; they are generated by `/about` and `/about`"
    );
}

#[test]
fn an_output_inside_another_is_reserved_once() {
    let mut outputs = Outputs::new();
    reserve_output(&mut outputs, "a/b", "/one").unwrap();
    assert!(reserve_output(&mut outputs, "a/b/c", "/two").is_err());
    assert!(reserve_output(&mut outputs, "a", "/three").is_err());
    reserve_output(&mut outputs, "a/bc", "/four").unwrap();
}

#[test]
fn urls_map_to_paths_inside_the_export() {
    assert_eq!(url_to_relative_path("/blog/post").unwrap(), "blog/post");
    assert_eq!(url_to_relative_path("blog").unwrap_err().to_string(), "static URL `blog` must start with `/`");
    assert_eq!(url_to_relative_path("/a/").unwrap_err().to_string(), "static URL `/a/` is not a canonical path");
    assert_eq!(url_to_relative_path("/a?b").unwrap_err().to_string(), "static URL `/a?b` is not a canonical path");
    assert_eq!(
        url_to_relative_path("/../x").unwrap_err().to_string(),
        "static URL `/../x` would escape the export directory"
    );
}

#[test]
fn pages_are_written_by_their_style() {
    assert_eq!(page_output_path("/", ExportPathStyle::HtmlFile).unwrap(), "index.html");
    assert_eq!(page_output_path("/404", ExportPathStyle::Directory).unwrap(), "404.html");
    assert_eq!(page_output_path("/docs/intro", ExportPathStyle::Directory).unwrap(), "docs/intro/index.html");
    assert_eq!(page_output_path("/docs/intro", ExportPathStyle::HtmlFile).unwrap(), "docs/intro.html");
    assert_eq!(static_file_output_path("/assets/app.css").unwrap(), "assets/app.css");
}

#[test]
fn the_configuration_comes_from_the_environment() {
    let export = EnvValue::Present("export".to_owned());
    let one = EnvValue::Present("1".to_owned());
    assert!(config_from_values(&EnvValue::NotPresent, &one, Some("dist"), &EnvValue::NotPresent).unwrap().is_none());
    assert!(config_from_values(&EnvValue::Present("serve".to_owned()), &one, Some("dist"), &EnvValue::NotPresent)
        .unwrap()
        .is_none());
    let config = config_from_values(&export, &one, Some("dist"), &EnvValue::Present("html-file".to_owned()))
        .unwrap()
        .unwrap();
    assert_eq!(config.out_dir(), "dist");
    assert_eq!(config.style(), ExportPathStyle::HtmlFile);
    let error = config_from_values(&export, &EnvValue::Present("2".to_owned()), Some("dist"), &EnvValue::NotPresent)
        .unwrap_err();
    assert_eq!(error.to_string(), "unsupported static export protocol `2`");
    let error = config_from_values(&export, &one, None, &EnvValue::NotPresent).unwrap_err();
    assert_eq!(error.to_string(), "TOPCOAT_EXPORT_OUT is required for export");
    let error = config_from_values(&export, &one, Some("dist"), &EnvValue::Present("flat".to_owned())).unwrap_err();
    assert_eq!(error.to_string(), "TOPCOAT_EXPORT_PATH_STYLE must be `directory` or `html-file`, got `flat`");
}

#[test]
fn a_config_defaults_to_directories() {
    let config = ExportConfig::new("out");
    assert_eq!(config.style(), ExportPathStyle::Directory);
    assert_eq!(ExportConfig::new("out").path_style(ExportPathStyle::HtmlFile).style(), ExportPathStyle::HtmlFile);
    let report = ExportReport::new("out", 2, 5);
    assert_eq!((report.out_dir(), report.pages(), report.files()), ("out", 2, 5));
}

#[test]
fn only_plain_html_pages_are_exported() {
    assert!(check_rendered("/a", 200, Some("text/html; charset=utf-8"), false, false).is_ok());
    assert!(check_rendered("/a", 200, Some(" TEXT/HTML "), false, false).is_ok());
    assert_eq!(
        check_rendered("/a", 404, Some("text/html"), false, false).unwrap_err().to_string(),
        "static request for `/a` returned 404 Not Found"
    );
    assert_eq!(
        check_rendered("/a", 200, Some("application/json"), false, false).unwrap_err().to_string(),
        "static request for `/a` must return `text/html`, got `application/json`"
    );
    assert_eq!(
        check_rendered("/a", 200, None, false, false).unwrap_err().to_string(),
        "static request for `/a` must return `text/html`, got `<missing>`"
    );
    assert_eq!(
        check_rendered("/a", 200, Some("text/html"), true, false).unwrap_err().to_string(),
        "static request for `/a` returned `Set-Cookie`, which cannot be exported"
    );
    assert_eq!(
        check_rendered("/a", 200, Some("text/html"), false, true).unwrap_err().to_string(),
        "static request for `/a` returned encoded content, which cannot be exported"
    );
}

#[test]
fn a_leading_dot_or_root_is_a_component_of_its_own() {
    let mut outputs = Outputs::new();
    reserve_output(&mut outputs, "a", "/one").unwrap();
    reserve_output(&mut outputs, "./a", "/two").unwrap();
    reserve_output(&mut outputs, "/a", "/three").unwrap();
    assert!(reserve_output(&mut outputs, "a/.", "/four").is_err());
    assert!(reserve_output(&mut outputs, "./a/b", "/five").is_err());
    assert!(reserve_output(&mut outputs, "//a/./b", "/six").is_err());
}
