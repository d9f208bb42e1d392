use topcoat::router::grammar::{
    check_page_fn, check_page_option, check_path_param_item, check_path_param_options, check_segment_options,
    path_param_segment_for, PathParamOption, SegmentOption,
};

fn kind(v: &str) -> SegmentOption {
    SegmentOption::Kind(v.to_owned())
}

fn generate(v: &str) -> SegmentOption {
    SegmentOption::GenerateStatic(v.to_owned())
}

#[test]
fn an_unknown_page_option_is_rejected() {
    let err = check_page_option("revalidate", false).unwrap_err();
    assert!(err.to_string().contains("unknown `page` option"), "{}", err.to_string());
    assert_eq!(err.to_string(), "unknown `page` option `revalidate`; expected `generate_static`");
}

#[test]
fn nothing_may_follow_generate_static() {
    let err = check_page_option("generate_static", true).unwrap_err();
    assert!(err.to_string().contains("unexpected tokens"), "{}", err.to_string());
}

#[test]
fn generate_static_is_the_page_option() {
    assert!(check_page_option("generate_static", false).is_ok());
}

#[test]
fn a_page_fn_must_be_async() {
    assert!(check_page_fn(false, true).unwrap_err().to_string().contains("must be async"));
}

#[test]
fn a_page_fn_must_declare_a_return_type() {
    assert!(check_page_fn(true, false).unwrap_err().to_string().contains("must declare a return type"));
    assert!(check_page_fn(true, true).is_ok());
}

#[test]
fn a_segment_option_may_be_given_once() {
    let err = check_segment_options(&[kind("Param"), SegmentOption::Rename("id".to_owned()), kind("Param")]).unwrap_err();
    assert_eq!(err.to_string(), "duplicate attribute `kind`");
}

#[test]
fn generate_static_needs_a_dynamic_kind() {
    assert_eq!(
        check_segment_options(&[generate("gen")]).unwrap_err().to_string(),
        "`generate_static` requires `kind = Param` or `kind = CatchAll`"
    );
    assert_eq!(
        check_segment_options(&[kind("Static"), generate("gen")]).unwrap_err().to_string(),
        "`generate_static` is only valid for `Param` and `CatchAll` segments"
    );
    assert!(check_segment_options(&[generate("gen"), kind("CatchAll")]).is_ok());
    assert!(check_segment_options(&[kind("Static")]).is_ok());
}

#[test]
fn a_path_param_segment_is_named_in_snake_case() {
    let opts = path_param_segment_for("ProductId", Some("generate_product_ids"));
    assert_eq!(
        opts,
        vec![
            SegmentOption::Kind("Param".to_owned()),
            SegmentOption::Rename("product_id".to_owned()),
            SegmentOption::GenerateStatic("generate_product_ids".to_owned()),
        ]
    );
    assert!(check_segment_options(&opts).is_ok());
    assert_eq!(path_param_segment_for("ReviewId", None).len(), 2);
}

#[test]
fn a_path_param_option_may_be_given_once() {
    assert_eq!(
        check_path_param_options(&[PathParamOption::GenerateStatic, PathParamOption::Error, PathParamOption::GenerateStatic])
            .unwrap_err()
            .to_string(),
        "duplicate attribute `generate_static`"
    );
    assert_eq!(
        check_path_param_options(&[PathParamOption::Error, PathParamOption::Error]).unwrap_err().to_string(),
        "duplicate attribute `error`"
    );
    assert!(check_path_param_options(&[PathParamOption::Error, PathParamOption::GenerateStatic]).is_ok());
}

#[test]
fn a_path_param_must_be_a_one_field_tuple_struct() {
    assert_eq!(
        check_path_param_item(false, None, false, false, false, false).unwrap_err().to_string(),
        "path_param can only be applied to a tuple struct with one unnamed field"
    );
    assert_eq!(
        check_path_param_item(true, Some(2), false, false, false, false).unwrap_err().to_string(),
        "path_param structs must have exactly one unnamed field"
    );
    assert_eq!(
        check_path_param_item(true, Some(1), true, true, false, false).unwrap_err().to_string(),
        "`error` cannot be used with a `&str` path parameter, which borrows the raw segment and cannot fail"
    );
    assert_eq!(
        check_path_param_item(true, Some(1), false, false, true, true).unwrap_err().to_string(),
        "`generate_static` cannot be used on a generic path parameter"
    );
    assert!(check_path_param_item(true, Some(1), true, false, true, false).is_ok());
}
