//! Laying out the exported site and judging the application's answers.
//!
//! The requests and the file writes happen around this module: it decides
//! which file each listed URL is written to, which URL each request goes to,
//! and what a response status means.

use vstd::prelude::*;

use super::output::{
    file_for_asset, page_file, url_segments, OutputFormat, OutputPathError, OutputPathErrorView,
};
use crate::percent::{percent_encode, percent_encoded};
use crate::router::static_export::params::{lemma_lookup_some, lookup};
use crate::text::{decimal, join, push_decimal, push_str, str_eq, string_views};

verus! {

/// URL path of the application's development-only static route listing.
pub const STATIC_ROUTES_PATH: &'static str = "/_topcoat/routes/static";

/// Header marking a request as one made by the export, so a page renders
/// without the development tooling's own additions.
pub const EXPORT_HEADER: &'static str = "x-topcoat-export";

#[verifier::external_type_specification]
#[verifier::external_body]
pub struct ExUreqError(ureq::Error);

#[verifier::external_type_specification]
#[verifier::external_body]
pub struct ExJsonError(serde_json::Error);

#[verifier::external_type_specification]
#[verifier::external_body]
pub struct ExIoError(std::io::Error);

/// Renders a `ureq::Error` with its `Display` impl. Nothing is claimed of the
/// text, which the outside crate composes.
#[verifier::external_body]
fn ureq_error_text(error: &ureq::Error) -> String {
    error.to_string()
}

/// Renders a `serde_json::Error` with its `Display` impl. Nothing is claimed
/// of the text, which the outside crate composes.
#[verifier::external_body]
fn json_error_text(error: &serde_json::Error) -> String {
    error.to_string()
}

/// Renders a `std::io::Error` with its `Display` impl. Nothing is claimed of
/// the text, which depends on the operating system.
#[verifier::external_body]
fn io_error_text(error: &std::io::Error) -> String {
    error.to_string()
}

/// The name given to `String::from_utf8_lossy` of `bytes`.
pub uninterp spec fn utf8_lossy(bytes: Seq<u8>) -> Seq<char>;

/// Calls `String::from_utf8_lossy`. The result is named `utf8_lossy` of the
/// bytes; its documentation gives that valid UTF-8 is decoded as it stands.
/// How invalid sequences are replaced is left unsaid.
#[verifier::external_body]
fn from_utf8_lossy(bytes: &[u8]) -> (r: String)
    ensures
        r@ == utf8_lossy(bytes@),
        vstd::utf8::valid_utf8(bytes@) ==> r@ == vstd::utf8::decode_utf8(bytes@),
{
    String::from_utf8_lossy(bytes).into_owned()
}

/// What an export wrote.
#[derive(Debug, Clone, Copy, PartialEq, Eq)]
pub struct ExportSummary {
    /// The number of pages rendered into the site.
    pub pages: usize,
    /// The number of assets copied into the site.
    pub assets: usize,
}

/// One page in the application's static route listing.
#[derive(Debug, Clone, PartialEq, Eq)]
pub struct ListedPage {
    /// The concrete URL to render, e.g. `/blog/hello`.
    pub path: String,
    /// The route the page is registered at, e.g. `/blog/{slug}`.
    pub route: String,
}

/// The application's static route listing.
#[derive(Debug, Clone, PartialEq, Eq)]
pub struct Listing {
    /// Every page to render.
    pub pages: Vec<ListedPage>,
    /// Every URL to copy verbatim.
    pub assets: Vec<String>,
}

impl Listing {
    /// What the export reports having written once every listed page and
    /// asset succeeded.
    pub fn summary(&self) -> (s: ExportSummary)
        ensures
            s.pages == self.pages@.len(),
            s.assets == self.assets@.len(),
    {
        ExportSummary { pages: self.pages.len(), assets: self.assets.len() }
    }
}

/// The abstract form of an [`ExportError`]: its variants with the views of
/// their strings. The outside errors some variants carry have no view.
pub enum ExportErrorView {
    Request { url: Seq<char> },
    Status { url: Seq<char>, status: u16 },
    ListingUnavailable,
    Listing,
    Rejected { message: Seq<char> },
    Page { path: Seq<char>, route: Seq<char>, source: Box<ExportErrorView> },
    Path(OutputPathErrorView),
    Collision { file: Seq<char>, first: Seq<char>, second: Seq<char> },
    Io { path: Seq<char> },
}

/// The text of a [`ExportErrorView::Status`].
pub open spec fn status_message(url: Seq<char>, status: u16) -> Seq<char> {
    "`"@ + url + "` answered "@ + decimal(status as nat) + ", expected 200"@
}

/// The text reported when the application does not serve the listing.
pub open spec fn listing_unavailable_message() -> Seq<char> {
    "the application does not serve `/_topcoat/routes/static`; it is available only while the application runs under the topcoat tooling"@
}

impl ExportErrorView {
    /// Whether `m` is the text the error is reported with. Where an outside
    /// error supplies the tail of the text, only the head is fixed.
    pub open spec fn describes(self, m: Seq<char>) -> bool
        decreases self,
    {
        match self {
            ExportErrorView::Request { url } => m.take(("request to `"@ + url + "` failed: "@).len() as int)
                == "request to `"@ + url + "` failed: "@,
            ExportErrorView::Status { url, status } => m == status_message(url, status),
            ExportErrorView::ListingUnavailable => m == listing_unavailable_message(),
            ExportErrorView::Listing => m.take(("could not read the static route listing: "@).len() as int)
                == "could not read the static route listing: "@,
            ExportErrorView::Rejected { message } => m == message,
            ExportErrorView::Page { path, route, source } => {
                let head = "page `"@ + route + "` at `"@ + path + "`: "@;
                m.take(head.len() as int) == head && (*source).describes(m.skip(head.len() as int))
            },
            ExportErrorView::Path(e) => m == e.message(),
            ExportErrorView::Collision { file, first, second } => m == "`"@ + first + "` and `"@
                + second + "` are both written to "@ + file,
            ExportErrorView::Io { path } => m.take(("failed to write "@ + path + ": "@).len() as int)
                == "failed to write "@ + path + ": "@,
        }
    }
}

/// A reason an export could not be completed.
#[derive(Debug)]
pub enum ExportError {
    /// A request to the application failed to complete.
    Request {
        /// The URL that was requested.
        url: String,
        /// The underlying transport error.
        source: Box<ureq::Error>,
    },
    /// A request completed with a status other than `200 OK`.
    Status {
        /// The URL that was requested.
        url: String,
        /// The status the application answered with.
        status: u16,
    },
    /// The application does not serve the static route listing.
    ListingUnavailable,
    /// The listing could not be parsed.
    Listing {
        /// The underlying deserialization error.
        source: Box<serde_json::Error>,
    },
    /// The application reported that its pages cannot be exported as they
    /// stand.
    Rejected {
        /// The explanation the application gave.
        message: String,
    },
    /// A page could not be rendered.
    Page {
        /// The URL the page was requested at.
        path: String,
        /// The route the page is registered at.
        route: String,
        /// What went wrong fetching it.
        source: Box<ExportError>,
    },
    /// A listed URL cannot be written to a file.
    Path(OutputPathError),
    /// Two listed URLs are written to the same file.
    Collision {
        /// The file both URLs name.
        file: String,
        /// The URL that claimed it first.
        first: String,
        /// The URL that would have overwritten it.
        second: String,
    },
    /// The site could not be written to disk.
    Io {
        /// The file or directory being written.
        path: String,
        /// The underlying I/O error.
        source: std::io::Error,
    },
}

/// The view of an [`ExportError`].
pub open spec fn export_error_view(e: ExportError) -> ExportErrorView
    decreases e,
{
    match e {
        ExportError::Request { url, .. } => ExportErrorView::Request { url: url@ },
        ExportError::Status { url, status } => ExportErrorView::Status { url: url@, status },
        ExportError::ListingUnavailable => ExportErrorView::ListingUnavailable,
        ExportError::Listing { .. } => ExportErrorView::Listing,
        ExportError::Rejected { message } => ExportErrorView::Rejected { message: message@ },
        ExportError::Page { path, route, source } => ExportErrorView::Page {
            path: path@,
            route: route@,
            source: Box::new(export_error_view(*source)),
        },
        ExportError::Path(p) => ExportErrorView::Path(p@),
        ExportError::Collision { file, first, second } => ExportErrorView::Collision {
            file: file@,
            first: first@,
            second: second@,
        },
        ExportError::Io { path, .. } => ExportErrorView::Io { path: path@ },
    }
}

impl View for ExportError {
    type V = ExportErrorView;

    open spec fn view(&self) -> ExportErrorView {
        export_error_view(*self)
    }
}

impl From<OutputPathError> for ExportError {
    fn from(value: OutputPathError) -> (r: Self)
        ensures
            r == ExportError::Path(value),
    {
        ExportError::Path(value)
    }
}

impl vstd::std_specs::convert::FromSpecImpl<OutputPathError> for ExportError {
    open spec fn obeys_from_spec() -> bool {
        true
    }

    open spec fn from_spec(value: OutputPathError) -> Self {
        ExportError::Path(value)
    }
}

impl ExportError {
    /// The text the error is reported with.
    pub fn to_string(&self) -> (m: String)
        ensures
            self@.describes(m@),
        decreases self,
    {
        let mut m = String::new();
        match self {
            ExportError::Request { url, source } => {
                push_str(&mut m, "request to `");
                push_str(&mut m, url.as_str());
                push_str(&mut m, "` failed: ");
                let ghost head = m@;
                let text = ureq_error_text(source);
                push_str(&mut m, text.as_str());
                assert(m@.take(head.len() as int) =~= head);
            },
            ExportError::Status { url, status } => {
                push_str(&mut m, "`");
                push_str(&mut m, url.as_str());
                push_str(&mut m, "` answered ");
                push_decimal(&mut m, *status as u64);
                push_str(&mut m, ", expected 200");
            },
            ExportError::ListingUnavailable => {
                push_str(
                    &mut m,
                    "the application does not serve `/_topcoat/routes/static`; it is available only while the application runs under the topcoat tooling",
                );
            },
            ExportError::Listing { source } => {
                push_str(&mut m, "could not read the static route listing: ");
                let ghost head = m@;
                let text = json_error_text(source);
                push_str(&mut m, text.as_str());
                assert(m@.take(head.len() as int) =~= head);
            },
            ExportError::Rejected { message } => {
                push_str(&mut m, message.as_str());
            },
            ExportError::Page { path, route, source } => {
                push_str(&mut m, "page `");
                push_str(&mut m, route.as_str());
                push_str(&mut m, "` at `");
                push_str(&mut m, path.as_str());
                push_str(&mut m, "`: ");
                let ghost head = m@;
                let text = source.to_string();
                push_str(&mut m, text.as_str());
                assert(m@.take(head.len() as int) =~= head);
                assert(m@.skip(head.len() as int) =~= text@);
            },
            ExportError::Path(error) => {
                let text = error.to_string();
                push_str(&mut m, text.as_str());
            },
            ExportError::Collision { file, first, second } => {
                push_str(&mut m, "`");
                push_str(&mut m, first.as_str());
                push_str(&mut m, "` and `");
                push_str(&mut m, second.as_str());
                push_str(&mut m, "` are both written to ");
                push_str(&mut m, file.as_str());
            },
            ExportError::Io { path, source } => {
                push_str(&mut m, "failed to write ");
                push_str(&mut m, path.as_str());
                push_str(&mut m, ": ");
                let ghost head = m@;
                let text = io_error_text(source);
                push_str(&mut m, text.as_str());
                assert(m@.take(head.len() as int) =~= head);
            },
        }
        m
    }
}

/// The files the site's URLs have been laid out into, so that no two URLs
/// are written to the same one.
#[derive(Debug)]
pub struct Claimed {
    files: Vec<(String, String)>,
}

impl View for Claimed {
    type V = Seq<(Seq<char>, Seq<char>)>;

    /// Each claimed file with the URL that claimed it, in order.
    closed spec fn view(&self) -> Seq<(Seq<char>, Seq<char>)> {
        self.files@.map_values(|c: (String, String)| (c.0@, c.1@))
    }
}

impl Default for Claimed {
    fn default() -> (r: Self)
        ensures
            r@ == Seq::<(Seq<char>, Seq<char>)>::empty(),
    {
        let r = Claimed { files: Vec::new() };
        assert(r@ =~= Seq::<(Seq<char>, Seq<char>)>::empty());
        r
    }
}

/// Whether no two claims name the same file.
pub open spec fn files_distinct(claims: Seq<(Seq<char>, Seq<char>)>) -> bool {
    forall|i: int, j: int| 0 <= i < j < claims.len() ==> (#[trigger] claims[i]).0 != (#[trigger] claims[j]).0
}

impl Claimed {
    /// Record that `url` is written to `file`.
    ///
    /// Returns [`ExportError::Collision`], naming the URL that claimed it
    /// first, if another URL already writes there.
    pub fn claim(&mut self, file: &str, url: &str) -> (r: Result<(), ExportError>)
        ensures
            match lookup(old(self)@, file@) {
                Some(first) => r matches Err(e) && e@ == (ExportErrorView::Collision {
                    file: file@,
                    first,
                    second: url@,
                }) && final(self)@ == old(self)@,
                None => r is Ok && final(self)@ == old(self)@.push((file@, url@)),
            },
    {
        let mut i: usize = 0;
        while i < self.files.len()
            invariant
                i <= self.files@.len(),
                forall|k: int| 0 <= k < i ==> (#[trigger] self@[k]).0 != file@,
            decreases self.files@.len() - i,
        {
            assert(self@[i as int] == (self.files@[i as int].0@, self.files@[i as int].1@));
            if str_eq(self.files[i].0.as_str(), file) {
                proof {
                    crate::router::static_export::params::lemma_lookup_skip(self@, file@, i as int);
                }
                return Err(ExportError::Collision {
                    file: file.to_owned(),
                    first: self.files[i].1.clone(),
                    second: url.to_owned(),
                });
            }
            i = i + 1;
        }
        proof {
            crate::router::static_export::params::lemma_lookup_skip(self@, file@, i as int);
        }
        let ghost before = self.files@;
        self.files.push((file.to_owned(), url.to_owned()));
        assert(self@ =~= before.map_values(|c: (String, String)| (c.0@, c.1@)).push((file@, url@)));
        Ok(())
    }
}

/// A successful claim keeps every file claimed once: claiming only succeeds
/// for a file no earlier URL claimed.
pub proof fn lemma_claims_stay_distinct(claims: Seq<(Seq<char>, Seq<char>)>, file: Seq<char>, url: Seq<char>)
    requires
        files_distinct(claims),
        lookup(claims, file) is None,
    ensures
        files_distinct(claims.push((file, url))),
{
    lemma_lookup_some(claims, file);
    let after = claims.push((file, url));
    assert forall|i: int, j: int| 0 <= i < j < after.len() implies (#[trigger] after[i]).0 != (#[trigger] after[j]).0 by {
        if j == claims.len() {
            assert(after[i] == claims[i]);
        } else {
            assert(after[i] == claims[i] && after[j] == claims[j]);
        }
    }
}

/// A site that lays out writes every listed URL to a file of its own: no two
/// claims name the same file.
pub proof fn lemma_laid_out_files_are_distinct(format: OutputFormat, items: Seq<(Seq<char>, bool)>, n: int)
    requires
        lay_out_items(format, items, n) is Ok,
    ensures
        files_distinct(lay_out_items(format, items, n)->Ok_0),
    decreases n,
{
    if n > 0 {
        if lay_out_items(format, items, n - 1) is Err {
            assert(lay_out_items(format, items, n) is Err);
        }
        lemma_laid_out_files_are_distinct(format, items, n - 1);
        let claims = lay_out_items(format, items, n - 1)->Ok_0;
        let (url, is_page) = items[n - 1];
        let file = item_file(format, url, is_page)->Ok_0;
        lemma_claims_stay_distinct(claims, file, url);
    } else {
        assert(lay_out_items(format, items, n)->Ok_0 =~= Seq::<(Seq<char>, Seq<char>)>::empty());
    }
}

/// The file a listed URL is written to: a page's as [`page_file`] lays it
/// out, an asset's under its own URL.
pub open spec fn item_file(format: OutputFormat, url: Seq<char>, is_page: bool) -> Result<Seq<char>, OutputPathErrorView> {
    match url_segments(url) {
        Err(e) => Err(e),
        Ok(segs) => if is_page {
            Ok(page_file(format, segs))
        } else if segs.len() == 0 {
            Err(OutputPathErrorView::Empty { url })
        } else {
            Ok(join(segs, '/'))
        },
    }
}

/// The claims made laying out the first `n` items, or the first item's
/// problem: a URL that names no safe file, or a file an earlier URL claimed.
pub open spec fn lay_out_items(format: OutputFormat, items: Seq<(Seq<char>, bool)>, n: int) -> Result<
    Seq<(Seq<char>, Seq<char>)>,
    ExportErrorView,
>
    decreases n,
{
    if n <= 0 {
        Ok(Seq::<(Seq<char>, Seq<char>)>::empty())
    } else {
        match lay_out_items(format, items, n - 1) {
            Err(e) => Err(e),
            Ok(claims) => {
                let (url, is_page) = items[n - 1];
                match item_file(format, url, is_page) {
                    Err(e) => Err(ExportErrorView::Path(e)),
                    Ok(file) => match lookup(claims, file) {
                        Some(first) => Err(ExportErrorView::Collision { file, first, second: url }),
                        None => Ok(claims.push((file, url))),
                    },
                }
            },
        }
    }
}

proof fn lemma_lay_out_err(format: OutputFormat, items: Seq<(Seq<char>, bool)>, n: int, m: int)
    requires
        n <= m,
        lay_out_items(format, items, n) is Err,
    ensures
        lay_out_items(format, items, m) == lay_out_items(format, items, n),
    decreases m - n,
{
    if n < m {
        lemma_lay_out_err(format, items, n, m - 1);
    }
}

/// The listed URLs in the order they are laid out: the pages, then the
/// assets.
pub open spec fn listing_items(listing: Listing) -> Seq<(Seq<char>, bool)> {
    listing.pages@.map_values(|p: ListedPage| (p.path@, true)) + listing.assets@.map_values(
        |a: String| (a@, false),
    )
}

/// Where every listed page and asset is written.
#[derive(Debug, Clone, PartialEq, Eq)]
pub struct SiteLayout {
    /// The file of each listed page, in listing order.
    pub pages: Vec<String>,
    /// The file of each listed asset, in listing order.
    pub assets: Vec<String>,
}

/// Lays out the whole site before anything is fetched: the file every page
/// and asset is written to.
///
/// Two URLs the application serves separately can name one file (a page at
/// `/about` written to `about/index.html` and an asset at
/// `/about/index.html`, say), so the first URL to claim a file keeps it and
/// a later one is reported, rather than one URL overwriting the other.
#[verifier::loop_isolation(false)]
pub fn lay_out(listing: &Listing, format: OutputFormat) -> (r: Result<SiteLayout, ExportError>)
    ensures
        ({
            let items = listing_items(*listing);
            match lay_out_items(format, items, items.len() as int) {
                Err(e) => r matches Err(x) && x@ == e,
                Ok(claims) => r matches Ok(l) && string_views(l.pages@) + string_views(l.assets@)
                    == claims.map_values(|c: (Seq<char>, Seq<char>)| c.0),
            }
        }),
{
    let ghost items = listing_items(*listing);
    let ghost np = listing.pages@.len();
    let mut claimed = Claimed::default();
    let mut pages: Vec<String> = Vec::new();
    let mut i: usize = 0;
    while i < listing.pages.len()
        invariant
            i <= listing.pages@.len(),
            lay_out_items(format, items, i as int) == Ok::<Seq<(Seq<char>, Seq<char>)>, ExportErrorView>(claimed@),
            string_views(pages@) == claimed@.map_values(|c: (Seq<char>, Seq<char>)| c.0),
        decreases listing.pages@.len() - i,
    {
        let url = listing.pages[i].path.as_str();
        assert(items[i as int] == (url@, true));
        let file = match format.file_for(url) {
            Ok(f) => f,
            Err(e) => {
                proof {
                    lemma_lay_out_err(format, items, i + 1, items.len() as int);
                }
                return Err(ExportError::Path(e));
            },
        };
        let ghost before = claimed@;
        match claimed.claim(file.as_str(), url) {
            Ok(()) => {},
            Err(e) => {
                proof {
                    lemma_lay_out_err(format, items, i + 1, items.len() as int);
                }
                return Err(e);
            },
        }
        let ghost bp = string_views(pages@);
        pages.push(file);
        assert(string_views(pages@) =~= bp.push(before.push((file@, url@)).last().0));
        assert(claimed@.map_values(|c: (Seq<char>, Seq<char>)| c.0) =~= before.map_values(|c: (Seq<char>, Seq<char>)| c.0).push(file@));
        i = i + 1;
    }
    let mut assets: Vec<String> = Vec::new();
    let mut j: usize = 0;
    assert(string_views(assets@) =~= Seq::<Seq<char>>::empty());
    while j < listing.assets.len()
        invariant
            j <= listing.assets@.len(),
            i == np,
            lay_out_items(format, items, np + j) == Ok::<Seq<(Seq<char>, Seq<char>)>, ExportErrorView>(claimed@),
            string_views(pages@) + string_views(assets@) == claimed@.map_values(|c: (Seq<char>, Seq<char>)| c.0),
        decreases listing.assets@.len() - j,
    {
        let url = listing.assets[j].as_str();
        assert(items[np + j] == (url@, false));
        let file = match file_for_asset(url) {
            Ok(f) => f,
            Err(e) => {
                proof {
                    lemma_lay_out_err(format, items, np + j + 1, items.len() as int);
                }
                return Err(ExportError::Path(e));
            },
        };
        let ghost before = claimed@;
        match claimed.claim(file.as_str(), url) {
            Ok(()) => {},
            Err(e) => {
                proof {
                    lemma_lay_out_err(format, items, np + j + 1, items.len() as int);
                }
                return Err(e);
            },
        }
        let ghost ba = string_views(assets@);
        assets.push(file);
        assert(string_views(assets@) =~= ba.push(file@));
        assert(claimed@.map_values(|c: (Seq<char>, Seq<char>)| c.0) =~= before.map_values(|c: (Seq<char>, Seq<char>)| c.0).push(file@));
        assert(string_views(pages@) + string_views(assets@) =~= (string_views(pages@) + ba).push(file@));
        j = j + 1;
    }
    Ok(SiteLayout { pages, assets })
}

/// The URL a listed path is requested at: the path appended to the
/// application's base URL, with anything that has a meaning in a URL escaped
/// except the `/` between its segments.
///
/// The listing carries decoded URL paths, since those are what the exported
/// files are named after.
pub fn request_url(base_url: &str, path: &str) -> (r: String)
    ensures
        r@ == base_url@ + percent_encoded(path@, true),
{
    let mut r = base_url.to_owned();
    let encoded = percent_encode(path, true);
    push_str(&mut r, encoded.as_str());
    r
}

/// The URL of the application's static route listing.
pub fn listing_url(base_url: &str) -> (r: String)
    ensures
        r@ == base_url@ + STATIC_ROUTES_PATH@,
{
    let mut r = base_url.to_owned();
    push_str(&mut r, STATIC_ROUTES_PATH);
    r
}

/// Judges the answer to a page or asset request: only `200 OK` has a body to
/// write.
pub fn check_fetched(path: &str, status: u16) -> (r: Result<(), ExportError>)
    ensures
        status == 200 ==> r is Ok,
        status != 200 ==> (r matches Err(e) && e@ == (ExportErrorView::Status { url: path@, status })),
{
    if status != 200 {
        return Err(ExportError::Status { url: path.to_owned(), status });
    }
    Ok(())
}

/// Judges the answer to the listing request at `url`. A `200 OK` carries the
/// listing to parse; the route is missing (`404`) when the application does
/// not run under the topcoat tooling; a `500` is the application rejecting
/// its own export, with the body saying why; anything else is unexpected.
pub fn check_listing_response(url: &str, status: u16, body: &[u8]) -> (r: Result<(), ExportError>)
    ensures
        status == 200 ==> r is Ok,
        status == 404 ==> (r matches Err(e) && e@ == ExportErrorView::ListingUnavailable),
        status == 500 ==> (r matches Err(e) && e@ == (ExportErrorView::Rejected { message: utf8_lossy(body@) })),
        status != 200 && status != 404 && status != 500 ==> (r matches Err(e) && e@ == (ExportErrorView::Status { url: url@, status })),
{
    if status == 200 {
        Ok(())
    } else if status == 404 {
        Err(ExportError::ListingUnavailable)
    } else if status == 500 {
        Err(ExportError::Rejected { message: from_utf8_lossy(body) })
    } else {
        Err(ExportError::Status { url: url.to_owned(), status })
    }
}

/// Attributes a failed fetch to the page it was rendering: a page that fails
/// names the route it came from, since that is what the application declared
/// and what has to be fixed.
pub fn page_failure(page: &ListedPage, source: ExportError) -> (r: ExportError)
    ensures
        r@ == (ExportErrorView::Page { path: page.path@, route: page.route@, source: Box::new(source@) }),
{
    ExportError::Page { path: page.path.clone(), route: page.route.clone(), source: Box::new(source) }
}

} // verus!
