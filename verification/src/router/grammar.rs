//! The checks the `#[page]`, `#[path_param]` and `segment!` attributes make
//! of what they were given, once it has been read into plain values.
//!
//! Reading the tokens, and writing the code each attribute expands to, is
//! the macros' own part; what is accepted, and what each rejection says, is
//! decided here.

use vstd::prelude::*;

use crate::text::{push_str, str_eq};

verus! {

/// Why an attribute was rejected.
#[derive(Debug, Clone, PartialEq, Eq)]
pub struct GrammarError {
    message: String,
}

impl View for GrammarError {
    type V = Seq<char>;

    closed spec fn view(&self) -> Seq<char> {
        self.message@
    }
}

impl GrammarError {
    fn new(message: String) -> (e: Self)
        ensures
            e@ == message@,
    {
        GrammarError { message }
    }

    /// The text the rejection is reported with.
    pub fn to_string(&self) -> (m: String)
        ensures
            m@ == self@,
    {
        self.message.clone()
    }
}

/// One option of a `segment!` declaration: `kind = ...`, `rename = "..."`,
/// or `generate_static = ...`, with the text of its value.
#[derive(Debug, Clone, PartialEq, Eq)]
pub enum SegmentOption {
    Kind(String),
    Rename(String),
    GenerateStatic(String),
}

/// The abstract form of a [`SegmentOption`].
pub enum SegmentOptionView {
    Kind(Seq<char>),
    Rename(Seq<char>),
    GenerateStatic(Seq<char>),
}

impl View for SegmentOption {
    type V = SegmentOptionView;

    open spec fn view(&self) -> SegmentOptionView {
        match self {
            SegmentOption::Kind(v) => SegmentOptionView::Kind(v@),
            SegmentOption::Rename(v) => SegmentOptionView::Rename(v@),
            SegmentOption::GenerateStatic(v) => SegmentOptionView::GenerateStatic(v@),
        }
    }
}

/// The keyword an option is written with.
pub open spec fn keyword_of(o: SegmentOptionView) -> Seq<char> {
    match o {
        SegmentOptionView::Kind(_) => "kind"@,
        SegmentOptionView::Rename(_) => "rename"@,
        SegmentOptionView::GenerateStatic(_) => "generate_static"@,
    }
}

/// The views of a list of options.
pub open spec fn option_views(v: Seq<SegmentOption>) -> Seq<SegmentOptionView> {
    v.map_values(|o: SegmentOption| o@)
}

/// Whether the `i`-th option's keyword was already given by an earlier one.
pub open spec fn keyword_repeated(opts: Seq<SegmentOptionView>, i: int) -> bool {
    exists|k: int| 0 <= k < i && keyword_of(#[trigger] opts[k]) == keyword_of(opts[i])
}

/// The first option, from position `i` on, whose keyword an earlier one gave.
pub open spec fn first_repeated_keyword(opts: Seq<SegmentOptionView>, i: int) -> Option<Seq<char>>
    decreases opts.len() - i,
{
    if i < 0 || i >= opts.len() {
        None
    } else if keyword_repeated(opts, i) {
        Some(keyword_of(opts[i]))
    } else {
        first_repeated_keyword(opts, i + 1)
    }
}

/// The kind the options declare, if any: the value of the first `kind`.
pub open spec fn declared_kind(opts: Seq<SegmentOptionView>) -> Option<Seq<char>>
    decreases opts.len(),
{
    if opts.len() == 0 {
        None
    } else if opts[0] is Kind {
        Some(opts[0]->Kind_0)
    } else {
        declared_kind(opts.drop_first())
    }
}

/// Whether the options include `generate_static`.
pub open spec fn generates_static(opts: Seq<SegmentOptionView>) -> bool {
    exists|i: int| 0 <= i < opts.len() && (#[trigger] opts[i]) is GenerateStatic
}

/// What a `segment!` declaration with the options `opts` comes to: accepted,
/// or the message it is rejected with. No option may be given twice, and
/// `generate_static` needs a `Param` or `CatchAll` kind.
pub open spec fn segment_verdict(opts: Seq<SegmentOptionView>) -> Option<Seq<char>> {
    if first_repeated_keyword(opts, 0) is Some {
        Some("duplicate attribute `"@ + first_repeated_keyword(opts, 0)->Some_0 + "`"@)
    } else if generates_static(opts) {
        match declared_kind(opts) {
            None => Some("`generate_static` requires `kind = Param` or `kind = CatchAll`"@),
            Some(kind) => if kind == "Param"@ || kind == "CatchAll"@ {
                None
            } else {
                Some("`generate_static` is only valid for `Param` and `CatchAll` segments"@)
            },
        }
    } else {
        None
    }
}

fn keyword(o: &SegmentOption) -> (k: &'static str)
    ensures
        k@ == keyword_of(o@),
{
    match o {
        SegmentOption::Kind(_) => "kind",
        SegmentOption::Rename(_) => "rename",
        SegmentOption::GenerateStatic(_) => "generate_static",
    }
}

proof fn lemma_first_repeated_keyword_skip(opts: Seq<SegmentOptionView>, k: int)
    requires
        0 <= k <= opts.len(),
        forall|m: int| 0 <= m < k ==> !keyword_repeated(opts, m),
    ensures
        first_repeated_keyword(opts, 0) == first_repeated_keyword(opts, k),
    decreases k,
{
    if k > 0 {
        lemma_first_repeated_keyword_skip(opts, k - 1);
    }
}

proof fn lemma_declared_kind_skip(opts: Seq<SegmentOptionView>, k: int)
    requires
        0 <= k <= opts.len(),
        forall|m: int| 0 <= m < k ==> !(#[trigger] opts[m] is Kind),
    ensures
        declared_kind(opts) == declared_kind(opts.skip(k)),
    decreases k,
{
    if k > 0 {
        lemma_declared_kind_skip(opts, k - 1);
        assert(opts.skip(k - 1).drop_first() =~= opts.skip(k));
        assert(opts.skip(k - 1)[0] == opts[k - 1]);
    } else {
        assert(opts.skip(0) =~= opts);
    }
}

/// Checks the options of a `segment!` declaration, as [`segment_verdict`]
/// describes.
pub fn check_segment_options(opts: &[SegmentOption]) -> (r: Result<(), GrammarError>)
    ensures
        match segment_verdict(option_views(opts@)) {
            None => r is Ok,
            Some(m) => r matches Err(e) && e@ == m,
        },
{
    proof {
        reveal_strlit("kind");
        reveal_strlit("rename");
        reveal_strlit("generate_static");
        reveal_strlit("Param");
        reveal_strlit("CatchAll");
    }
    let ghost ov = option_views(opts@);
    // A keyword given twice.
    let mut i: usize = 0;
    while i < opts.len()
        invariant
            i <= opts@.len(),
            ov == option_views(opts@),
            forall|m: int| 0 <= m < i ==> !keyword_repeated(ov, m),
        decreases opts@.len() - i,
    {
        let mut j: usize = 0;
        while j < i
            invariant
                j <= i < opts@.len(),
                ov == option_views(opts@),
                forall|m: int| 0 <= m < j ==> keyword_of(#[trigger] ov[m]) != keyword_of(ov[i as int]),
                forall|m: int| 0 <= m < i ==> !keyword_repeated(ov, m),
            decreases i - j,
        {
            assert(ov[j as int] == opts@[j as int]@ && ov[i as int] == opts@[i as int]@);
            if str_eq(keyword(&opts[j]), keyword(&opts[i])) {
                proof {
                    assert(keyword_repeated(ov, i as int));
                    lemma_first_repeated_keyword_skip(ov, i as int);
                }
                let mut m = String::new();
                push_str(&mut m, "duplicate attribute `");
                push_str(&mut m, keyword(&opts[i]));
                push_str(&mut m, "`");
                return Err(GrammarError::new(m));
            }
            j = j + 1;
        }
        assert(!keyword_repeated(ov, i as int));
        i = i + 1;
    }
    proof {
        lemma_first_repeated_keyword_skip(ov, i as int);
    }
    // `generate_static`, and the first `kind`.
    let mut generate = false;
    let mut kind: Option<&String> = None;
    let mut k: usize = 0;
    while k < opts.len()
        invariant
            k <= opts@.len(),
            ov == option_views(opts@),
            generate == exists|m: int| 0 <= m < k && (#[trigger] ov[m]) is GenerateStatic,
            match kind {
                None => forall|m: int| 0 <= m < k ==> !(#[trigger] ov[m] is Kind),
                Some(v) => declared_kind(ov) == Some(v@),
            },
        decreases opts@.len() - k,
    {
        assert(ov[k as int] == opts@[k as int]@);
        match &opts[k] {
            SegmentOption::GenerateStatic(_) => {
                generate = true;
            },
            SegmentOption::Kind(v) => {
                if kind.is_none() {
                    proof {
                        lemma_declared_kind_skip(ov, k as int);
                        assert(ov.skip(k as int)[0] == ov[k as int]);
                    }
                    kind = Some(v);
                }
            },
            SegmentOption::Rename(_) => {},
        }
        k = k + 1;
    }
    if !generate {
        return Ok(());
    }
    match kind {
        None => {
            proof {
                lemma_declared_kind_skip(ov, k as int);
                assert(ov.skip(k as int) =~= Seq::<SegmentOptionView>::empty());
            }
            let mut m = String::new();
            push_str(&mut m, "`generate_static` requires `kind = Param` or `kind = CatchAll`");
            Err(GrammarError::new(m))
        },
        Some(v) => {
            if str_eq(v.as_str(), "Param") || str_eq(v.as_str(), "CatchAll") {
                Ok(())
            } else {
                let mut m = String::new();
                push_str(&mut m, "`generate_static` is only valid for `Param` and `CatchAll` segments");
                Err(GrammarError::new(m))
            }
        },
    }
}

/// The name `heck` gives a string in snake case: `ProductId` as
/// `product_id`.
pub uninterp spec fn snake_case(s: Seq<char>) -> Seq<char>;

/// Calls `heck::ToSnakeCase::to_snake_case`. The result is named
/// `snake_case` of the input; how words are split is `heck`'s own and is
/// left unsaid.
#[verifier::external_body]
fn to_snake_case(s: &str) -> (r: String)
    ensures
        r@ == snake_case(s@),
{
    heck::ToSnakeCase::to_snake_case(s)
}

/// The options of the segment a `#[path_param]` struct named `ident`
/// declares, given its `snake_case` name: a parameter under that name, with
/// a generator when the struct has one.
pub open spec fn path_param_options(name: Seq<char>, generator: Option<Seq<char>>) -> Seq<SegmentOptionView> {
    match generator {
        None => seq![SegmentOptionView::Kind("Param"@), SegmentOptionView::Rename(name)],
        Some(g) => seq![
            SegmentOptionView::Kind("Param"@),
            SegmentOptionView::Rename(name),
            SegmentOptionView::GenerateStatic(g),
        ],
    }
}

/// The segment options a `#[path_param]` struct declares, from the struct's
/// name in snake case and the path of its generator, if any.
pub fn path_param_segment(snake_name: &str, generator: Option<&str>) -> (opts: Vec<SegmentOption>)
    ensures
        option_views(opts@) == path_param_options(snake_name@, match generator {
            None => None,
            Some(g) => Some(g@),
        }),
{
    proof {
        reveal_strlit("Param");
    }
    let mut opts: Vec<SegmentOption> = Vec::new();
    opts.push(SegmentOption::Kind("Param".to_owned()));
    opts.push(SegmentOption::Rename(snake_name.to_owned()));
    match generator {
        Some(g) => {
            opts.push(SegmentOption::GenerateStatic(g.to_owned()));
        },
        None => {},
    }
    assert(option_views(opts@) =~= path_param_options(snake_name@, match generator {
        None => None,
        Some(g) => Some(g@),
    }));
    opts
}

/// The segment options a `#[path_param]` struct named `ident` declares: a
/// parameter named after the struct in snake case.
pub fn path_param_segment_for(ident: &str, generator: Option<&str>) -> (opts: Vec<SegmentOption>)
    ensures
        option_views(opts@) == path_param_options(snake_case(ident@), match generator {
            None => None,
            Some(g) => Some(g@),
        }),
{
    let name = to_snake_case(ident);
    path_param_segment(name.as_str(), generator)
}

/// The segment a `#[path_param]` declares is one `segment!` accepts.
pub proof fn lemma_path_param_segments_are_accepted(name: Seq<char>, generator: Option<Seq<char>>)
    ensures
        segment_verdict(path_param_options(name, generator)) is None,
{
    reveal_strlit("kind");
    reveal_strlit("rename");
    reveal_strlit("generate_static");
    reveal_strlit("Param");
    let opts = path_param_options(name, generator);
    assert forall|i: int| 0 <= i < opts.len() implies !keyword_repeated(opts, i) by {
        assert forall|k: int| 0 <= k < i implies keyword_of(#[trigger] opts[k]) != keyword_of(opts[i]) by {
            assert(keyword_of(opts[0]) == "kind"@);
            assert(keyword_of(opts[1]) == "rename"@);
            if opts.len() == 3 {
                assert(keyword_of(opts[2]) == "generate_static"@);
            }
        }
    }
    lemma_first_repeated_keyword_skip(opts, opts.len() as int);
    assert(declared_kind(opts) == Some("Param"@));
}

/// The options of a `#[path_param]` attribute: `error = ...` and
/// `generate_static = ...`.
#[derive(Debug, Clone, Copy, PartialEq, Eq)]
pub enum PathParamOption {
    Error,
    GenerateStatic,
}

/// The message of a `#[path_param]` option given twice, if one is: the first
/// option, in order, that an earlier one already gave.
pub open spec fn path_param_verdict(opts: Seq<PathParamOption>) -> Option<Seq<char>> {
    match first_repeated_option(opts, 0) {
        None => None,
        Some(PathParamOption::Error) => Some("duplicate attribute `error`"@),
        Some(PathParamOption::GenerateStatic) => Some("duplicate attribute `generate_static`"@),
    }
}

/// The first option, from position `i` on, that an earlier one gave.
pub open spec fn first_repeated_option(opts: Seq<PathParamOption>, i: int) -> Option<PathParamOption>
    decreases opts.len() - i,
{
    if i < 0 || i >= opts.len() {
        None
    } else if exists|k: int| 0 <= k < i && #[trigger] opts[k] == opts[i] {
        Some(opts[i])
    } else {
        first_repeated_option(opts, i + 1)
    }
}

/// Checks the options of a `#[path_param]` attribute: none may be given
/// twice.
pub fn check_path_param_options(opts: &[PathParamOption]) -> (r: Result<(), GrammarError>)
    ensures
        match path_param_verdict(opts@) {
            None => r is Ok,
            Some(m) => r matches Err(e) && e@ == m,
        },
{
    let mut error = false;
    let mut generate = false;
    let mut i: usize = 0;
    while i < opts.len()
        invariant
            i <= opts@.len(),
            error == exists|k: int| 0 <= k < i && #[trigger] opts@[k] == PathParamOption::Error,
            generate == exists|k: int| 0 <= k < i && #[trigger] opts@[k] == PathParamOption::GenerateStatic,
            first_repeated_option(opts@, 0) == first_repeated_option(opts@, i as int),
        decreases opts@.len() - i,
    {
        match opts[i] {
            PathParamOption::Error => {
                if error {
                    let mut m = String::new();
                    push_str(&mut m, "duplicate attribute `error`");
                    return Err(GrammarError::new(m));
                }
                error = true;
            },
            PathParamOption::GenerateStatic => {
                if generate {
                    let mut m = String::new();
                    push_str(&mut m, "duplicate attribute `generate_static`");
                    return Err(GrammarError::new(m));
                }
                generate = true;
            },
        }
        i = i + 1;
    }
    Ok(())
}

/// What a `#[path_param]` struct must be, given its shape: a tuple struct
/// with one unnamed field, without `error = ...` when that field is a `&str`
/// borrowing the raw segment, and without generics when it declares a
/// generator. `unnamed_fields` is the number of unnamed fields of a struct
/// with unnamed fields, and `None` for any other item.
pub open spec fn path_param_item_verdict(
    is_struct: bool,
    unnamed_fields: Option<usize>,
    has_error: bool,
    borrows_raw_segment: bool,
    has_generator: bool,
    generic: bool,
) -> Option<Seq<char>> {
    if !is_struct || unnamed_fields is None {
        Some("path_param can only be applied to a tuple struct with one unnamed field"@)
    } else if unnamed_fields->Some_0 != 1 {
        Some("path_param structs must have exactly one unnamed field"@)
    } else if has_error && borrows_raw_segment {
        Some(
            "`error` cannot be used with a `&str` path parameter, which borrows the raw segment and cannot fail"@,
        )
    } else if has_generator && generic {
        Some("`generate_static` cannot be used on a generic path parameter"@)
    } else {
        None
    }
}

/// Checks a `#[path_param]` struct against its attribute, as
/// [`path_param_item_verdict`] describes.
pub fn check_path_param_item(
    is_struct: bool,
    unnamed_fields: Option<usize>,
    has_error: bool,
    borrows_raw_segment: bool,
    has_generator: bool,
    generic: bool,
) -> (r: Result<(), GrammarError>)
    ensures
        match path_param_item_verdict(
            is_struct,
            unnamed_fields,
            has_error,
            borrows_raw_segment,
            has_generator,
            generic,
        ) {
            None => r is Ok,
            Some(m) => r matches Err(e) && e@ == m,
        },
{
    let mut m = String::new();
    if !is_struct || unnamed_fields.is_none() {
        push_str(&mut m, "path_param can only be applied to a tuple struct with one unnamed field");
        return Err(GrammarError::new(m));
    }
    if unnamed_fields != Some(1usize) {
        push_str(&mut m, "path_param structs must have exactly one unnamed field");
        return Err(GrammarError::new(m));
    }
    if has_error && borrows_raw_segment {
        push_str(
            &mut m,
            "`error` cannot be used with a `&str` path parameter, which borrows the raw segment and cannot fail",
        );
        return Err(GrammarError::new(m));
    }
    if has_generator && generic {
        push_str(&mut m, "`generate_static` cannot be used on a generic path parameter");
        return Err(GrammarError::new(m));
    }
    Ok(())
}

/// What the option after a `#[page]` attribute's methods and path comes to:
/// only `generate_static = ...` is accepted, and nothing may follow it.
/// `name` is the option's name, and `trailing` whether anything follows its
/// value.
pub open spec fn page_option_verdict(name: Seq<char>, trailing: bool) -> Option<Seq<char>> {
    if name != "generate_static"@ {
        Some("unknown `page` option `"@ + name + "`; expected `generate_static`"@)
    } else if trailing {
        Some("unexpected tokens after `generate_static`"@)
    } else {
        None
    }
}

/// Checks the option after a `#[page]` attribute's methods and path.
pub fn check_page_option(name: &str, trailing: bool) -> (r: Result<(), GrammarError>)
    ensures
        match page_option_verdict(name@, trailing) {
            None => r is Ok,
            Some(m) => r matches Err(e) && e@ == m,
        },
{
    proof {
        reveal_strlit("generate_static");
    }
    let mut m = String::new();
    if !str_eq(name, "generate_static") {
        push_str(&mut m, "unknown `page` option `");
        push_str(&mut m, name);
        push_str(&mut m, "`; expected `generate_static`");
        return Err(GrammarError::new(m));
    }
    if trailing {
        push_str(&mut m, "unexpected tokens after `generate_static`");
        return Err(GrammarError::new(m));
    }
    Ok(())
}

/// What a `#[page]` function must be: `async`, with a declared return type.
pub open spec fn page_fn_verdict(is_async: bool, declares_return: bool) -> Option<Seq<char>> {
    if !is_async {
        Some("page functions must be async"@)
    } else if !declares_return {
        Some("page functions must declare a return type"@)
    } else {
        None
    }
}

/// Checks the function a `#[page]` attribute is applied to.
pub fn check_page_fn(is_async: bool, declares_return: bool) -> (r: Result<(), GrammarError>)
    ensures
        match page_fn_verdict(is_async, declares_return) {
            None => r is Ok,
            Some(m) => r matches Err(e) && e@ == m,
        },
{
    let mut m = String::new();
    if !is_async {
        push_str(&mut m, "page functions must be async");
        return Err(GrammarError::new(m));
    }
    if !declares_return {
        push_str(&mut m, "page functions must declare a return type");
        return Err(GrammarError::new(m));
    }
    Ok(())
}

} // verus!
