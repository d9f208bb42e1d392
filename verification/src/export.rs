//! Rendering a router into static files: what an in-process export decides.
//!
//! An export renders every statically selectable page and copies the files
//! registered with the router. Before anything is written, every page and
//! file is given its place under the output directory, and two outputs that
//! would overwrite or contain each other are reported. Each rendered response
//! must be a plain `200 OK` HTML page.

use vstd::prelude::*;

use crate::cli::export::output::{file_name_of, path_file_name, path_with_file_name, plain_file_name, with_file_name};
use crate::text::{
    char_views, chars_eq_ignore_ascii_case, components_of, decimal, eq_ignore_ascii_case, push_decimal,
    trim_whitespace, trim_ws, chars_eq, chars_of, contains_char, push_char, push_str, split_chars, split_on,
    str_eq, string_of,
};

verus! {

/// The environment variable selecting an internal command.
pub const INTERNAL_COMMAND_ENV: &'static str = "TOPCOAT_INTERNAL_COMMAND";

/// The internal command that runs an export.
pub const EXPORT_COMMAND: &'static str = "export";

/// The environment variable naming the export protocol.
pub const EXPORT_PROTOCOL_ENV: &'static str = "TOPCOAT_EXPORT_PROTOCOL";

/// The only export protocol understood.
pub const EXPORT_PROTOCOL: &'static str = "1";

/// The environment variable naming the output directory.
pub const EXPORT_OUT_ENV: &'static str = "TOPCOAT_EXPORT_OUT";

/// The environment variable selecting the path style.
pub const EXPORT_PATH_STYLE_ENV: &'static str = "TOPCOAT_EXPORT_PATH_STYLE";

/// The page written when the router has no `/404` page of its own.
pub const DEFAULT_404: &'static str = "<!doctype html><html><head><meta charset=\"utf-8\"><title>Not Found</title></head><body><h1>404 Not Found</h1></body></html>";

/// An error encountered while producing a static export.
#[derive(Debug)]
pub struct ExportError {
    message: String,
}

impl View for ExportError {
    type V = Seq<char>;

    /// The text the error is reported with.
    closed spec fn view(&self) -> Seq<char> {
        self.message@
    }
}

impl ExportError {
    /// An error reported as `message`.
    pub fn new(message: String) -> (e: Self)
        ensures
            e@ == message@,
    {
        ExportError { message }
    }

    /// The text the error is reported with.
    pub fn to_string(&self) -> (m: String)
        ensures
            m@ == self@,
    {
        self.message.clone()
    }
}

/// How page URLs map to files in a static export.
#[derive(Debug, Clone, Copy, PartialEq, Eq)]
pub enum ExportPathStyle {
    /// Write `/about` to `about/index.html`.
    Directory,
    /// Write `/about` to `about.html`.
    HtmlFile,
}

impl Default for ExportPathStyle {
    fn default() -> (r: Self)
        ensures
            r == ExportPathStyle::Directory,
    {
        ExportPathStyle::Directory
    }
}

/// The text reported for a path style the environment names wrongly.
pub open spec fn bad_path_style_message(value: Seq<char>) -> Seq<char> {
    "TOPCOAT_EXPORT_PATH_STYLE"@ + " must be `directory` or `html-file`, got `"@ + value + "`"@
}

impl ExportPathStyle {
    /// Reads the path style from the value of `TOPCOAT_EXPORT_PATH_STYLE`.
    pub fn from_env(value: &str) -> (r: Result<Self, ExportError>)
        ensures
            value@ == "directory"@ ==> r == Ok::<Self, ExportError>(ExportPathStyle::Directory),
            value@ == "html-file"@ ==> r == Ok::<Self, ExportError>(ExportPathStyle::HtmlFile),
            value@ != "directory"@ && value@ != "html-file"@ ==> (r matches Err(e) && e@ == bad_path_style_message(value@)),
    {
        proof {
            reveal_strlit("directory");
            reveal_strlit("html-file");
            assert("directory"@[0] != "html-file"@[0]);
        }
        if str_eq(value, "directory") {
            Ok(ExportPathStyle::Directory)
        } else if str_eq(value, "html-file") {
            Ok(ExportPathStyle::HtmlFile)
        } else {
            let mut m = String::new();
            push_str(&mut m, EXPORT_PATH_STYLE_ENV);
            push_str(&mut m, " must be `directory` or `html-file`, got `");
            push_str(&mut m, value);
            push_str(&mut m, "`");
            proof {
                reveal_strlit("TOPCOAT_EXPORT_PATH_STYLE");
                assert(EXPORT_PATH_STYLE_ENV@ == "TOPCOAT_EXPORT_PATH_STYLE"@);
            }
            Err(ExportError::new(m))
        }
    }
}

/// Configuration for rendering a router into static files.
#[derive(Debug, Clone)]
pub struct ExportConfig {
    out_dir: String,
    path_style: ExportPathStyle,
}

impl ExportConfig {
    /// Creates an export writing into `out_dir`, with the default path style.
    pub fn new(out_dir: &str) -> (c: Self)
        ensures
            c.out_dir_view() == out_dir@,
            c.path_style_view() == ExportPathStyle::Directory,
    {
        ExportConfig { out_dir: out_dir.to_owned(), path_style: ExportPathStyle::Directory }
    }

    /// The destination directory.
    pub closed spec fn out_dir_view(&self) -> Seq<char> {
        self.out_dir@
    }

    /// How non-root page URLs map to files.
    pub closed spec fn path_style_view(&self) -> ExportPathStyle {
        self.path_style
    }

    /// Selects how non-root page URLs map to HTML files.
    pub fn path_style(self, path_style: ExportPathStyle) -> (c: Self)
        ensures
            c.out_dir_view() == self.out_dir_view(),
            c.path_style_view() == path_style,
    {
        ExportConfig { out_dir: self.out_dir, path_style }
    }

    /// Returns the destination directory.
    pub fn out_dir(&self) -> (d: &str)
        ensures
            d@ == self.out_dir_view(),
    {
        self.out_dir.as_str()
    }

    /// Returns how non-root page URLs map to files.
    pub fn style(&self) -> (s: ExportPathStyle)
        ensures
            s == self.path_style_view(),
    {
        self.path_style
    }
}

/// Summary of a completed static export.
#[derive(Debug, Clone, PartialEq, Eq)]
pub struct ExportReport {
    out_dir: String,
    pages: usize,
    files: usize,
}

impl ExportReport {
    /// The report of an export into `out_dir` that rendered `pages` pages and
    /// copied `files` static files.
    pub fn new(out_dir: &str, pages: usize, files: usize) -> (r: Self)
        ensures
            r.out_dir_view() == out_dir@,
            r.pages_view() == pages,
            r.files_view() == files,
    {
        ExportReport { out_dir: out_dir.to_owned(), pages, files }
    }

    /// The destination directory.
    pub closed spec fn out_dir_view(&self) -> Seq<char> {
        self.out_dir@
    }

    /// The number of rendered pages.
    pub closed spec fn pages_view(&self) -> usize {
        self.pages
    }

    /// The number of copied static files.
    pub closed spec fn files_view(&self) -> usize {
        self.files
    }

    /// Returns the destination directory.
    pub fn out_dir(&self) -> (d: &str)
        ensures
            d@ == self.out_dir_view(),
    {
        self.out_dir.as_str()
    }

    /// Returns the number of rendered pages, including the generated 404 page.
    pub fn pages(&self) -> (n: usize)
        ensures
            n == self.pages_view(),
    {
        self.pages
    }

    /// Returns the number of copied static files.
    pub fn files(&self) -> (n: usize)
        ensures
            n == self.files_view(),
    {
        self.files
    }
}

/// What reading an environment variable gave.
#[derive(Debug, Clone, PartialEq, Eq)]
pub enum EnvValue {
    /// The variable is set to this text.
    Present(String),
    /// The variable is not set.
    NotPresent,
    /// The variable is set but not to valid Unicode; the text describes the
    /// failure.
    NotUnicode(String),
}

/// `name`, then `must be valid Unicode: `, then the failure.
pub open spec fn not_unicode_message(name: Seq<char>, error: Seq<char>) -> Seq<char> {
    name + " must be valid Unicode: "@ + error
}

fn not_unicode(name: &str, error: &String) -> (e: ExportError)
    ensures
        e@ == not_unicode_message(name@, error@),
{
    let mut m = name.to_owned();
    push_str(&mut m, " must be valid Unicode: ");
    push_str(&mut m, error.as_str());
    ExportError::new(m)
}

/// The outcome of reading the export configuration from the values of its
/// environment variables.
pub open spec fn config_outcome(
    command: EnvValue,
    protocol: EnvValue,
    out_dir: Option<Seq<char>>,
    path_style: EnvValue,
) -> Result<Option<(Seq<char>, ExportPathStyle)>, Seq<char>> {
    match command {
        EnvValue::NotUnicode(e) => Err(not_unicode_message("TOPCOAT_INTERNAL_COMMAND"@, e@)),
        EnvValue::NotPresent => Ok(None),
        EnvValue::Present(c) => if c@ != "export"@ {
            Ok(None)
        } else {
            match protocol {
                EnvValue::NotUnicode(e) => Err(not_unicode_message("TOPCOAT_EXPORT_PROTOCOL"@, e@)),
                EnvValue::NotPresent => Err("TOPCOAT_EXPORT_PROTOCOL"@ + " is required for export"@),
                EnvValue::Present(p) => if p@ != "1"@ {
                    Err("unsupported static export protocol `"@ + p@ + "`"@)
                } else {
                    match out_dir {
                        None => Err("TOPCOAT_EXPORT_OUT"@ + " is required for export"@),
                        Some(out) => match path_style {
                            EnvValue::NotUnicode(e) => Err(
                                not_unicode_message("TOPCOAT_EXPORT_PATH_STYLE"@, e@),
                            ),
                            EnvValue::NotPresent => Ok(Some((out, ExportPathStyle::Directory))),
                            EnvValue::Present(s) => if s@ == "directory"@ {
                                Ok(Some((out, ExportPathStyle::Directory)))
                            } else if s@ == "html-file"@ {
                                Ok(Some((out, ExportPathStyle::HtmlFile)))
                            } else {
                                Err(bad_path_style_message(s@))
                            },
                        },
                    }
                },
            }
        },
    }
}

/// The export configuration the environment asks for, from the values of
/// `TOPCOAT_INTERNAL_COMMAND`, `TOPCOAT_EXPORT_PROTOCOL`,
/// `TOPCOAT_EXPORT_OUT` and `TOPCOAT_EXPORT_PATH_STYLE`.
///
/// No export is asked for unless the internal command is `export`; then the
/// protocol must be `1` and the output directory must be given, and the path
/// style defaults to the directory style.
pub fn config_from_values(
    command: &EnvValue,
    protocol: &EnvValue,
    out_dir: Option<&str>,
    path_style: &EnvValue,
) -> (r: Result<Option<ExportConfig>, ExportError>)
    ensures
        match config_outcome(*command, *protocol, match out_dir {
            None => None,
            Some(o) => Some(o@),
        }, *path_style) {
            Err(m) => r matches Err(e) && e@ == m,
            Ok(None) => r matches Ok(None),
            Ok(Some((out, style))) => r matches Ok(Some(c)) && c.out_dir_view() == out
                && c.path_style_view() == style,
        },
{
    proof {
        reveal_strlit("TOPCOAT_INTERNAL_COMMAND");
        reveal_strlit("TOPCOAT_EXPORT_PROTOCOL");
        reveal_strlit("TOPCOAT_EXPORT_OUT");
        reveal_strlit("TOPCOAT_EXPORT_PATH_STYLE");
        assert(INTERNAL_COMMAND_ENV@ == "TOPCOAT_INTERNAL_COMMAND"@);
        assert(EXPORT_PROTOCOL_ENV@ == "TOPCOAT_EXPORT_PROTOCOL"@);
        assert(EXPORT_OUT_ENV@ == "TOPCOAT_EXPORT_OUT"@);
        assert(EXPORT_PATH_STYLE_ENV@ == "TOPCOAT_EXPORT_PATH_STYLE"@);
        assert(EXPORT_COMMAND@ == "export"@);
        assert(EXPORT_PROTOCOL@ == "1"@);
        reveal_strlit("directory");
        reveal_strlit("html-file");
    }
    match command {
        EnvValue::NotUnicode(error) => {
            return Err(not_unicode(INTERNAL_COMMAND_ENV, error));
        },
        EnvValue::NotPresent => {
            return Ok(None);
        },
        EnvValue::Present(c) => {
            if !str_eq(c.as_str(), EXPORT_COMMAND) {
                return Ok(None);
            }
        },
    }
    match protocol {
        EnvValue::NotUnicode(error) => {
            return Err(not_unicode(EXPORT_PROTOCOL_ENV, error));
        },
        EnvValue::NotPresent => {
            let mut m = EXPORT_PROTOCOL_ENV.to_owned();
            push_str(&mut m, " is required for export");
            return Err(ExportError::new(m));
        },
        EnvValue::Present(p) => {
            if !str_eq(p.as_str(), EXPORT_PROTOCOL) {
                let mut m = "unsupported static export protocol `".to_owned();
                push_str(&mut m, p.as_str());
                push_str(&mut m, "`");
                return Err(ExportError::new(m));
            }
        },
    }
    let out = match out_dir {
        None => {
            let mut m = EXPORT_OUT_ENV.to_owned();
            push_str(&mut m, " is required for export");
            return Err(ExportError::new(m));
        },
        Some(o) => o,
    };
    let style = match path_style {
        EnvValue::NotUnicode(error) => {
            return Err(not_unicode(EXPORT_PATH_STYLE_ENV, error));
        },
        EnvValue::NotPresent => ExportPathStyle::Directory,
        EnvValue::Present(s) => match ExportPathStyle::from_env(s.as_str()) {
            Ok(style) => style,
            Err(e) => {
                return Err(e);
            },
        },
    };
    Ok(Some(ExportConfig::new(out).path_style(style)))
}

/// Whether the relative path `rel` leaves the directory it is taken in, read
/// the way `Path::components` reads a Unix path: a leading `/` is the root, a
/// leading `.` piece is the current directory, any `..` piece is the parent,
/// and every other `.` piece and empty piece is dropped.
pub open spec fn escapes_dir(rel: Seq<char>) -> bool {
    (rel.len() > 0 && rel[0] == '/') || split_on(rel, '/')[0] == seq!['.'] || split_on(
        rel,
        '/',
    ).contains(seq!['.', '.'])
}

/// The path, relative to the export directory, that a URL maps to: the URL
/// without its leading `/`, when it is canonical and stays inside.
pub open spec fn relative_path(url: Seq<char>) -> Result<Seq<char>, Seq<char>> {
    if url.len() == 0 || url[0] != '/' {
        Err("static URL `"@ + url + "` must start with `/`"@)
    } else {
        let rel = url.drop_first();
        if (rel.len() > 0 && rel.last() == '/') || rel.contains('?') || rel.contains('#') {
            Err("static URL `"@ + url + "` is not a canonical path"@)
        } else if escapes_dir(rel) {
            Err("static URL `"@ + url + "` would escape the export directory"@)
        } else {
            Ok(rel)
        }
    }
}

fn url_message(url: &str, tail: &str) -> (e: ExportError)
    ensures
        e@ == "static URL `"@ + url@ + tail@,
{
    let mut m = "static URL `".to_owned();
    push_str(&mut m, url);
    push_str(&mut m, tail);
    ExportError::new(m)
}

/// Maps a URL to the path, relative to the export directory, that it is
/// written under.
///
/// The URL must start with `/`, must not end with `/` or hold a query or a
/// fragment, and must not climb out of the export directory.
pub fn url_to_relative_path(url_path: &str) -> (r: Result<String, ExportError>)
    ensures
        match relative_path(url_path@) {
            Ok(rel) => r matches Ok(p) && p@ == rel,
            Err(m) => r matches Err(e) && e@ == m,
        },
{
    let chars = chars_of(url_path);
    if chars.len() == 0 || chars[0] != '/' {
        return Err(url_message(url_path, "` must start with `/`"));
    }
    let mut rel: Vec<char> = Vec::new();
    let mut i: usize = 1;
    while i < chars.len()
        invariant
            1 <= i <= chars@.len(),
            rel@ == chars@.subrange(1, i as int),
        decreases chars@.len() - i,
    {
        rel.push(chars[i]);
        i = i + 1;
        assert(rel@ =~= chars@.subrange(1, i as int));
    }
    assert(rel@ =~= url_path@.drop_first());
    let n = rel.len();
    if (n > 0 && rel[n - 1] == '/') || contains_char(&rel, '?') || contains_char(&rel, '#') {
        return Err(url_message(url_path, "` is not a canonical path"));
    }
    let pieces = split_chars(&rel, '/');
    proof {
        crate::text::lemma_split_nonempty(rel@, '/');
        assert(char_views(pieces@)[0] == pieces@[0]@);
    }
    let dot = chars_of(".");
    let dots = chars_of("..");
    proof {
        reveal_strlit(".");
        reveal_strlit("..");
        assert(dot@ =~= seq!['.']);
        assert(dots@ =~= seq!['.', '.']);
    }
    let mut escapes = (n > 0 && rel[0] == '/') || chars_eq(&pieces[0], &dot);
    let mut k: usize = 0;
    while k < pieces.len()
        invariant
            k <= pieces@.len(),
            char_views(pieces@) == split_on(rel@, '/'),
            dots@ == seq!['.', '.'],
            escapes == ((rel@.len() > 0 && rel@[0] == '/') || split_on(rel@, '/')[0] == seq!['.']
                || exists|j: int| 0 <= j < k && (#[trigger] char_views(pieces@)[j]) == seq!['.', '.']),
        decreases pieces@.len() - k,
    {
        assert(char_views(pieces@)[k as int] == pieces@[k as int]@);
        if chars_eq(&pieces[k], &dots) {
            escapes = true;
        }
        k = k + 1;
    }
    if escapes {
        return Err(url_message(url_path, "` would escape the export directory"));
    }
    Ok(string_of(&rel))
}

/// The file, relative to the export directory, that a page URL is written
/// to: `/` is always `index.html` and `/404` always `404.html`; any other
/// URL's path gains `index.html` in the directory style, or has `.html`
/// appended to its file name in the file style.
pub open spec fn page_output(url: Seq<char>, style: ExportPathStyle) -> Result<Seq<char>, Seq<char>> {
    if url == seq!['/'] {
        Ok("index.html"@)
    } else if url == "/404"@ {
        Ok("404.html"@)
    } else {
        match relative_path(url) {
            Err(m) => Err(m),
            Ok(rel) => match style {
                ExportPathStyle::Directory => Ok(rel + "/index.html"@),
                ExportPathStyle::HtmlFile => match path_file_name(rel) {
                    None => Err("invalid static URL `"@ + url + "`"@),
                    Some(name) => Ok(path_with_file_name(rel, name + ".html"@)),
                },
            },
        }
    }
}

/// The file a page URL is written to, as [`page_output`] describes. In the
/// file style, a page whose file name is plain is written to a file named
/// after it with `.html` appended.
pub fn page_output_path(url_path: &str, path_style: ExportPathStyle) -> (r: Result<String, ExportError>)
    ensures
        match page_output(url_path@, path_style) {
            Ok(f) => r matches Ok(p) && p@ == f,
            Err(m) => r matches Err(e) && e@ == m,
        },
        (path_style is HtmlFile && url_path@ != seq!['/'] && url_path@ != "/404"@) ==> match (r, relative_path(url_path@)) {
            (Ok(p), Ok(rel)) => match path_file_name(rel) {
                Some(n) => plain_file_name(n + ".html"@) ==> path_file_name(p@) == Some(n + ".html"@),
                None => true,
            },
            _ => true,
        },
{
    proof {
        reveal_strlit("/");
        reveal_strlit("/404");
        assert("/"@ =~= seq!['/']);
    }
    if str_eq(url_path, "/") {
        return Ok("index.html".to_owned());
    }
    if str_eq(url_path, "/404") {
        return Ok("404.html".to_owned());
    }
    let rel = match url_to_relative_path(url_path) {
        Ok(r) => r,
        Err(e) => {
            return Err(e);
        },
    };
    match path_style {
        ExportPathStyle::Directory => {
            let mut path = rel;
            push_str(&mut path, "/index.html");
            Ok(path)
        },
        ExportPathStyle::HtmlFile => {
            let name = match file_name_of(rel.as_str()) {
                Some(n) => n,
                None => {
                    let mut m = "invalid static URL `".to_owned();
                    push_str(&mut m, url_path);
                    push_str(&mut m, "`");
                    return Err(ExportError::new(m));
                },
            };
            let mut file = name;
            push_str(&mut file, ".html");
            Ok(with_file_name(rel.as_str(), file.as_str()))
        },
    }
}

/// The file a registered static file is copied to: its URL's path, which
/// must name something other than the export directory itself.
pub open spec fn static_file_output(url: Seq<char>) -> Result<Seq<char>, Seq<char>> {
    match relative_path(url) {
        Err(m) => Err(m),
        Ok(rel) => if rel.len() == 0 {
            Err("a static file cannot be registered at `/`"@)
        } else {
            Ok(rel)
        },
    }
}

/// The file a registered static file is copied to, as
/// [`static_file_output`] describes.
pub fn static_file_output_path(url_path: &str) -> (r: Result<String, ExportError>)
    ensures
        match static_file_output(url_path@) {
            Ok(f) => r matches Ok(p) && p@ == f,
            Err(m) => r matches Err(e) && e@ == m,
        },
{
    let rel = match url_to_relative_path(url_path) {
        Ok(r) => r,
        Err(e) => {
            return Err(e);
        },
    };
    if rel.as_str().is_empty() {
        return Err(ExportError::new("a static file cannot be registered at `/`".to_owned()));
    }
    Ok(rel)
}

/// The component a path begins with before its names, as `Path::components`
/// reads a Unix path: the root, written `/`, for a path beginning with `/`;
/// the current directory, written `.`, for one whose first piece is `.`;
/// none otherwise.
pub open spec fn leading_component(p: Seq<char>) -> Seq<Seq<char>> {
    if p.len() > 0 && p[0] == '/' {
        seq![seq!['/']]
    } else if split_on(p, '/')[0] == seq!['.'] {
        seq![seq!['.']]
    } else {
        Seq::<Seq<char>>::empty()
    }
}

/// The components of a path, as `Path::components` reads a Unix path, which
/// `Path`'s `==` and `starts_with` compare: its leading component, if any,
/// then its non-empty pieces other than `.`.
pub open spec fn normal_components(p: Seq<char>) -> Seq<Seq<char>> {
    leading_component(p) + normal_pieces(split_on(p, '/'))
}

/// The pieces that are neither empty nor `.`.
pub open spec fn normal_pieces(pieces: Seq<Seq<char>>) -> Seq<Seq<char>>
    decreases pieces.len(),
{
    if pieces.len() == 0 {
        Seq::<Seq<char>>::empty()
    } else {
        let rest = normal_pieces(pieces.drop_last());
        if pieces.last().len() == 0 || pieces.last() == seq!['.'] {
            rest
        } else {
            rest.push(pieces.last())
        }
    }
}

/// Whether `a` is a prefix of `b`, counting equal sequences.
pub open spec fn is_prefix(a: Seq<Seq<char>>, b: Seq<Seq<char>>) -> bool {
    a.len() <= b.len() && b.take(a.len() as int) == a
}

/// Whether two output paths would collide: one is the other, or lies inside
/// it, component by component.
pub open spec fn overlaps(a: Seq<char>, b: Seq<char>) -> bool {
    is_prefix(normal_components(a), normal_components(b)) || is_prefix(normal_components(b), normal_components(a))
}

/// The first reserved output, from position `i` on, that `path` collides
/// with.
pub open spec fn first_overlap(outputs: Seq<(Seq<char>, Seq<char>)>, path: Seq<char>, i: int) -> Option<int>
    decreases outputs.len() - i,
{
    if i < 0 || i >= outputs.len() {
        None
    } else if overlaps(outputs[i].0, path) {
        Some(i)
    } else {
        first_overlap(outputs, path, i + 1)
    }
}

/// The text reported when two outputs collide.
pub open spec fn conflict_message(existing: (Seq<char>, Seq<char>), path: Seq<char>, source: Seq<char>) -> Seq<char> {
    "static outputs `"@ + existing.0 + "` and `"@ + path + "` conflict; they are generated by `"@
        + existing.1 + "` and `"@ + source + "`"@
}

/// The components of `p`.
fn normal_components_of(p: &str) -> (r: Vec<Vec<char>>)
    ensures
        char_views(r@) == normal_components(p@),
{
    let chars = chars_of(p);
    let pieces = split_chars(&chars, '/');
    let ghost pv = char_views(pieces@);
    let dot = chars_of(".");
    proof {
        reveal_strlit(".");
        assert(dot@ =~= seq!['.']);
        crate::text::lemma_split_nonempty(p@, '/');
        assert(pv[0] == pieces@[0]@);
    }
    let mut r: Vec<Vec<char>> = Vec::new();
    if chars.len() > 0 && chars[0] == '/' {
        let mut root: Vec<char> = Vec::new();
        root.push('/');
        r.push(root);
        assert(char_views(r@) =~= seq![seq!['/']]);
    } else if chars_eq(&pieces[0], &dot) {
        r.push(dot.clone());
        assert(char_views(r@) =~= seq![seq!['.']]);
    } else {
        assert(char_views(r@) =~= Seq::<Seq<char>>::empty());
    }
    let ghost lead = char_views(r@);
    assert(lead == leading_component(p@));
    assert(normal_pieces(pv.take(0)) =~= Seq::<Seq<char>>::empty());
    assert(char_views(r@) =~= lead + normal_pieces(pv.take(0)));
    let mut i: usize = 0;
    while i < pieces.len()
        invariant
            i <= pieces@.len(),
            pv == char_views(pieces@),
            pv == split_on(p@, '/'),
            dot@ == seq!['.'],
            char_views(r@) == lead + normal_pieces(pv.take(i as int)),
        decreases pieces@.len() - i,
    {
        assert(pv[i as int] == pieces@[i as int]@);
        assert(pv.take(i + 1 as int).drop_last() =~= pv.take(i as int));
        if pieces[i].len() > 0 && !chars_eq(&pieces[i], &dot) {
            let ghost before = char_views(r@);
            r.push(pieces[i].clone());
            assert(char_views(r@) =~= before.push(pv[i as int]));
            assert(lead + normal_pieces(pv.take(i + 1 as int)) =~= (lead + normal_pieces(pv.take(i as int))).push(pv[i as int]));
        }
        i = i + 1;
    }
    assert(pv.take(i as int) =~= pv);
    r
}

/// Whether `a` is a prefix of `b`.
fn prefix_of(a: &Vec<Vec<char>>, b: &Vec<Vec<char>>) -> (r: bool)
    ensures
        r == is_prefix(char_views(a@), char_views(b@)),
{
    if a.len() > b.len() {
        return false;
    }
    let mut i: usize = 0;
    while i < a.len()
        invariant
            i <= a@.len() <= b@.len(),
            forall|k: int| 0 <= k < i ==> char_views(a@)[k] == char_views(b@)[k],
        decreases a@.len() - i,
    {
        assert(char_views(a@)[i as int] == a@[i as int]@ && char_views(b@)[i as int] == b@[i as int]@);
        if !chars_eq(&a[i], &b[i]) {
            return false;
        }
        i = i + 1;
    }
    assert(char_views(b@).take(char_views(a@).len() as int) =~= char_views(a@));
    true
}

/// The outputs reserved so far, each with what generates it.
#[derive(Debug, Clone)]
pub struct Outputs {
    entries: Vec<(String, String)>,
}

impl View for Outputs {
    type V = Seq<(Seq<char>, Seq<char>)>;

    closed spec fn view(&self) -> Seq<(Seq<char>, Seq<char>)> {
        self.entries@.map_values(|e: (String, String)| (e.0@, e.1@))
    }
}

impl Outputs {
    /// No output reserved yet.
    pub fn new() -> (r: Self)
        ensures
            r@ == Seq::<(Seq<char>, Seq<char>)>::empty(),
    {
        let r = Outputs { entries: Vec::new() };
        assert(r@ =~= Seq::<(Seq<char>, Seq<char>)>::empty());
        r
    }
}

/// Reserves `relative` for `source`, rejecting it when it is an output
/// already reserved, lies inside one, or contains one. The first such
/// reservation, in the order they were made, is reported.
pub fn reserve_output(outputs: &mut Outputs, relative: &str, source: &str) -> (r: Result<(), ExportError>)
    ensures
        match first_overlap(old(outputs)@, relative@, 0) {
            Some(k) => r matches Err(e) && e@ == conflict_message(old(outputs)@[k], relative@, source@)
                && final(outputs)@ == old(outputs)@,
            None => r is Ok && final(outputs)@ == old(outputs)@.push((relative@, source@)),
        },
{
    let ghost ov = outputs@;
    let mine = normal_components_of(relative);
    let mut i: usize = 0;
    while i < outputs.entries.len()
        invariant
            i <= outputs.entries@.len(),
            ov == outputs@,
            char_views(mine@) == normal_components(relative@),
            first_overlap(ov, relative@, 0) == first_overlap(ov, relative@, i as int),
        decreases outputs.entries@.len() - i,
    {
        assert(ov[i as int] == (outputs.entries@[i as int].0@, outputs.entries@[i as int].1@));
        let theirs = normal_components_of(outputs.entries[i].0.as_str());
        if prefix_of(&mine, &theirs) || prefix_of(&theirs, &mine) {
            let mut m = "static outputs `".to_owned();
            push_str(&mut m, outputs.entries[i].0.as_str());
            push_str(&mut m, "` and `");
            push_str(&mut m, relative);
            push_str(&mut m, "` conflict; they are generated by `");
            push_str(&mut m, outputs.entries[i].1.as_str());
            push_str(&mut m, "` and `");
            push_str(&mut m, source);
            push_str(&mut m, "`");
            return Err(ExportError::new(m));
        }
        i = i + 1;
    }
    let ghost before = outputs.entries@;
    outputs.entries.push((relative.to_owned(), source.to_owned()));
    assert(outputs@ =~= before.map_values(|e: (String, String)| (e.0@, e.1@)).push((relative@, source@)));
    Ok(())
}

/// Whether no two reserved outputs collide.
pub open spec fn outputs_disjoint(outputs: Seq<(Seq<char>, Seq<char>)>) -> bool {
    forall|i: int, j: int| 0 <= i < j < outputs.len() ==> !overlaps(#[trigger] outputs[i].0, #[trigger] outputs[j].0)
}

proof fn lemma_first_overlap_none(outputs: Seq<(Seq<char>, Seq<char>)>, path: Seq<char>, i: int)
    requires
        0 <= i <= outputs.len(),
        first_overlap(outputs, path, i) is None,
    ensures
        forall|k: int| i <= k < outputs.len() ==> !overlaps(#[trigger] outputs[k].0, path),
    decreases outputs.len() - i,
{
    if i < outputs.len() {
        lemma_first_overlap_none(outputs, path, i + 1);
    }
}

/// Reserving keeps the outputs collision-free: a page and a static file, or
/// two pages, never write the same output path, and none is written inside
/// another.
pub proof fn lemma_reservations_stay_disjoint(
    outputs: Seq<(Seq<char>, Seq<char>)>,
    path: Seq<char>,
    source: Seq<char>,
)
    requires
        outputs_disjoint(outputs),
        first_overlap(outputs, path, 0) is None,
    ensures
        outputs_disjoint(outputs.push((path, source))),
{
    lemma_first_overlap_none(outputs, path, 0);
    let after = outputs.push((path, source));
    assert forall|i: int, j: int| 0 <= i < j < after.len() implies !overlaps(#[trigger] after[i].0, #[trigger] after[j].0) by {
        if j == outputs.len() {
            assert(after[i] == outputs[i]);
        } else {
            assert(after[i] == outputs[i] && after[j] == outputs[j]);
        }
    }
}

/// What an export writes: a page for each selected URL, the fallback
/// `404.html` when the router has no `/404` page, and a copy of each
/// registered static file.
pub enum ExportItem {
    /// The page at this URL.
    Page(Seq<char>),
    /// The fallback not-found page.
    Default404,
    /// The static file registered at this URL.
    File(Seq<char>),
}

/// Whether the selected URLs include `/404`.
pub open spec fn renders_404(paths: Seq<Seq<char>>) -> bool {
    paths.contains("/404"@)
}

/// Everything an export writes, in the order the outputs are reserved.
pub open spec fn export_items(paths: Seq<Seq<char>>, files: Seq<Seq<char>>) -> Seq<ExportItem> {
    paths.map_values(|p: Seq<char>| ExportItem::Page(p)) + (if renders_404(paths) {
        Seq::<ExportItem>::empty()
    } else {
        seq![ExportItem::Default404]
    }) + files.map_values(|f: Seq<char>| ExportItem::File(f))
}

/// The output an item is written to, and what the conflict report names it
/// by.
pub open spec fn item_output(item: ExportItem, style: ExportPathStyle) -> Result<(Seq<char>, Seq<char>), Seq<char>> {
    match item {
        ExportItem::Page(url) => match page_output(url, style) {
            Err(m) => Err(m),
            Ok(f) => Ok((f, url)),
        },
        ExportItem::Default404 => Ok(("404.html"@, "generated 404 page"@)),
        ExportItem::File(url) => match static_file_output(url) {
            Err(m) => Err(m),
            Ok(f) => Ok((f, url)),
        },
    }
}

/// The outputs reserved for the first `n` items, or the first problem.
pub open spec fn reserve_items(items: Seq<ExportItem>, style: ExportPathStyle, n: int) -> Result<
    Seq<(Seq<char>, Seq<char>)>,
    Seq<char>,
>
    decreases n,
{
    if n <= 0 {
        Ok(Seq::<(Seq<char>, Seq<char>)>::empty())
    } else {
        match reserve_items(items, style, n - 1) {
            Err(m) => Err(m),
            Ok(outputs) => match item_output(items[n - 1], style) {
                Err(m) => Err(m),
                Ok((f, source)) => match first_overlap(outputs, f, 0) {
                    Some(k) => Err(conflict_message(outputs[k], f, source)),
                    None => Ok(outputs.push((f, source))),
                },
            },
        }
    }
}

proof fn lemma_reserve_items_err(items: Seq<ExportItem>, style: ExportPathStyle, n: int, m: int)
    requires
        n <= m,
        reserve_items(items, style, n) is Err,
    ensures
        reserve_items(items, style, m) == reserve_items(items, style, n),
    decreases m - n,
{
    if n < m {
        lemma_reserve_items_err(items, style, n, m - 1);
    }
}

/// Every output an export plans is neither the same as, nor inside, nor
/// around another: no two of them can overwrite each other.
pub proof fn lemma_planned_outputs_are_disjoint(items: Seq<ExportItem>, style: ExportPathStyle, n: int)
    requires
        reserve_items(items, style, n) is Ok,
    ensures
        outputs_disjoint(reserve_items(items, style, n)->Ok_0),
    decreases n,
{
    if n > 0 {
        if reserve_items(items, style, n - 1) is Err {
            assert(reserve_items(items, style, n) is Err);
        }
        lemma_planned_outputs_are_disjoint(items, style, n - 1);
        let outputs = reserve_items(items, style, n - 1)->Ok_0;
        let (f, source) = item_output(items[n - 1], style)->Ok_0;
        lemma_reservations_stay_disjoint(outputs, f, source);
    } else {
        assert(reserve_items(items, style, n)->Ok_0 =~= Seq::<(Seq<char>, Seq<char>)>::empty());
    }
}

/// Where an export writes everything, decided before anything is written.
#[derive(Debug, Clone, PartialEq, Eq)]
pub struct ExportPlan {
    /// The output of each selected page, in order.
    pub pages: Vec<String>,
    /// Whether the fallback `404.html` is written.
    pub default_404: bool,
    /// The output of each registered static file, in order.
    pub files: Vec<String>,
}

impl ExportPlan {
    /// The report of carrying out this plan into `out_dir`: the pages,
    /// including a generated 404 page, and the copied files.
    pub fn report(&self, out_dir: &str) -> (r: ExportReport)
        requires
            self.pages@.len() + 1 <= usize::MAX,
        ensures
            r.out_dir_view() == out_dir@,
            r.pages_view() == self.pages@.len() + (if self.default_404 { 1int } else { 0int }),
            r.files_view() == self.files@.len(),
    {
        let pages = if self.default_404 {
            self.pages.len() + 1
        } else {
            self.pages.len()
        };
        ExportReport::new(out_dir, pages, self.files.len())
    }
}

/// Decides every output of an export before anything is written: the file
/// of each selected page URL in `paths`, the fallback `404.html` unless one
/// of them is `/404`, and the copy of each static file registered at a URL
/// in `files`. The first output that cannot be placed, or that collides with
/// one reserved before it, is reported.
#[verifier::rlimit(40)]
pub fn plan_export(paths: &Vec<String>, files: &Vec<String>, style: ExportPathStyle) -> (r: Result<
    ExportPlan,
    ExportError,
>)
    ensures
        ({
            let items = export_items(string_views_of(paths@), string_views_of(files@));
            match reserve_items(items, style, items.len() as int) {
                Err(m) => r matches Err(e) && e@ == m,
                Ok(outputs) => r matches Ok(plan) && plan.default_404 == !renders_404(string_views_of(paths@))
                    && plan.pages@.len() == paths@.len() && plan.files@.len() == files@.len()
                    && string_views_of(plan.pages@) == outputs.take(paths@.len() as int).map_values(|o: (Seq<char>, Seq<char>)| o.0)
                    && string_views_of(plan.files@) == outputs.skip(outputs.len() - files@.len()).map_values(|o: (Seq<char>, Seq<char>)| o.0)
                    && outputs_disjoint(outputs),
            }
        }),
{
    let ghost pv = string_views_of(paths@);
    let ghost fv = string_views_of(files@);
    let ghost items = export_items(pv, fv);
    let ghost np = paths@.len();
    let mut outputs = Outputs::new();
    let mut pages: Vec<String> = Vec::new();
    let mut rendered_404 = false;
    proof {
        reveal_strlit("/404");
    }
    let mut i: usize = 0;
    assert(string_views_of(pages@) =~= Seq::<Seq<char>>::empty());
    while i < paths.len()
        invariant
            i <= np,
            np == paths@.len(),
            pv == string_views_of(paths@),
            fv == string_views_of(files@),
            items == export_items(pv, fv),
            reserve_items(items, style, i as int) == Ok::<Seq<(Seq<char>, Seq<char>)>, Seq<char>>(outputs@),
            outputs_disjoint(outputs@),
            outputs@.len() == i,
            string_views_of(pages@) == outputs@.map_values(|o: (Seq<char>, Seq<char>)| o.0),
            rendered_404 == pv.take(i as int).contains("/404"@),
        decreases np - i,
    {
        let url = paths[i].as_str();
        assert(pv[i as int] == url@);
        assert(items[i as int] == ExportItem::Page(url@));
        let relative = match page_output_path(url, style) {
            Ok(f) => f,
            Err(e) => {
                proof {
                    lemma_reserve_items_err(items, style, i + 1, items.len() as int);
                }
                return Err(e);
            },
        };
        let ghost before = outputs@;
        match reserve_output(&mut outputs, relative.as_str(), url) {
            Ok(()) => {},
            Err(e) => {
                proof {
                    lemma_reserve_items_err(items, style, i + 1, items.len() as int);
                }
                return Err(e);
            },
        }
        proof {
            lemma_reservations_stay_disjoint(before, relative@, url@);
        }
        let ghost bp = string_views_of(pages@);
        pages.push(relative);
        assert(string_views_of(pages@) =~= bp.push(outputs@.last().0));
        assert(outputs@.map_values(|o: (Seq<char>, Seq<char>)| o.0) =~= before.map_values(|o: (Seq<char>, Seq<char>)| o.0).push(outputs@.last().0));
        let is_404 = str_eq(url, "/404");
        proof {
            let t = pv.take(i + 1 as int);
            assert(t =~= pv.take(i as int).push(url@));
            if is_404 {
                assert(t[i as int] == "/404"@);
            } else if t.contains("/404"@) {
                let k = choose|k: int| 0 <= k < t.len() && t[k] == "/404"@;
                assert(pv.take(i as int)[k] == "/404"@);
            }
            if rendered_404 {
                let k = choose|k: int| 0 <= k < i && pv.take(i as int)[k] == "/404"@;
                assert(t[k] == "/404"@);
            }
        }
        rendered_404 = rendered_404 || is_404;
        i = i + 1;
    }
    assert(pv.take(np as int) =~= pv);
    let ghost after_pages = outputs@;
    assert(after_pages.take(np as int) =~= after_pages);
    let ghost n404: int = if rendered_404 { 0 } else { 1 };
    if !rendered_404 {
        assert(items[np as int] == ExportItem::Default404);
        let ghost before = outputs@;
        match reserve_output(&mut outputs, "404.html", "generated 404 page") {
            Ok(()) => {},
            Err(e) => {
                proof {
                    lemma_reserve_items_err(items, style, np + 1 as int, items.len() as int);
                }
                return Err(e);
            },
        }
        proof {
            lemma_reservations_stay_disjoint(before, "404.html"@, "generated 404 page"@);
        }
    }
    let ghost base = outputs@;
    assert(base.len() == np + n404);
    let mut copies: Vec<String> = Vec::new();
    let mut j: usize = 0;
    assert(string_views_of(copies@) =~= Seq::<Seq<char>>::empty());
    while j < files.len()
        invariant
            j <= files@.len(),
            np == paths@.len(),
            pv == string_views_of(paths@),
            fv == string_views_of(files@),
            items == export_items(pv, fv),
            n404 == (if renders_404(pv) { 0int } else { 1int }),
            reserve_items(items, style, np + n404 + j) == Ok::<Seq<(Seq<char>, Seq<char>)>, Seq<char>>(outputs@),
            outputs_disjoint(outputs@),
            outputs@.len() == np + n404 + j,
            outputs@.take(np + n404) == base,
            string_views_of(copies@) == outputs@.skip(np + n404).map_values(|o: (Seq<char>, Seq<char>)| o.0),
        decreases files@.len() - j,
    {
        let url = files[j].as_str();
        assert(fv[j as int] == url@);
        assert(items[np + n404 + j] == ExportItem::File(url@));
        let relative = match static_file_output_path(url) {
            Ok(f) => f,
            Err(e) => {
                proof {
                    lemma_reserve_items_err(items, style, np + n404 + j + 1, items.len() as int);
                }
                return Err(e);
            },
        };
        let ghost before = outputs@;
        match reserve_output(&mut outputs, relative.as_str(), url) {
            Ok(()) => {},
            Err(e) => {
                proof {
                    lemma_reserve_items_err(items, style, np + n404 + j + 1, items.len() as int);
                }
                return Err(e);
            },
        }
        proof {
            lemma_reservations_stay_disjoint(before, relative@, url@);
        }
        let ghost bc = string_views_of(copies@);
        copies.push(relative);
        assert(string_views_of(copies@) =~= bc.push(relative@));
        assert(outputs@.take(np + n404) =~= before.take(np + n404));
        assert(outputs@.skip(np + n404) =~= before.skip(np + n404).push((relative@, url@)));
        assert(outputs@.skip(np + n404).map_values(|o: (Seq<char>, Seq<char>)| o.0) =~= before.skip(np + n404).map_values(|o: (Seq<char>, Seq<char>)| o.0).push(relative@));
        j = j + 1;
    }
    assert(items.len() == np + n404 + files@.len());
    assert(outputs@.take(np as int) =~= base.take(np as int));
    assert(base.take(np as int) =~= after_pages);
    Ok(ExportPlan { pages, default_404: !rendered_404, files: copies })
}

/// The views of a list of strings.
pub open spec fn string_views_of(v: Seq<String>) -> Seq<Seq<char>> {
    crate::text::string_views(v)
}

/// The name given to the canonical reason phrase `http` knows for a status
/// code, if it knows one.
pub uninterp spec fn status_reason(code: u16) -> Option<Seq<char>>;

/// Calls `http::StatusCode::from_u16` and `StatusCode::canonical_reason`.
/// The contract claims only that the reason is the one `status_reason` names:
/// the `http` crate looks it up in a fixed table. A code the crate rejects has
/// no reason.
#[verifier::external_body]
fn canonical_reason(code: u16) -> (r: Option<&'static str>)
    ensures
        match r {
            None => status_reason(code) is None,
            Some(reason) => status_reason(code) == Some(reason@),
        },
{
    http::StatusCode::from_u16(code).ok().and_then(|status| status.canonical_reason())
}

/// How `http` displays a status: its code, a space, and its reason phrase.
pub open spec fn status_display(code: u16) -> Seq<char> {
    decimal(code as nat) + " "@ + match status_reason(code) {
        Some(reason) => reason,
        None => "<unknown status code>"@,
    }
}

/// Whether a `Content-Type` value declares HTML: its media type, before any
/// `;` and without surrounding white space, is `text/html` in any ASCII case.
pub open spec fn declares_html(content_type: Seq<char>) -> bool {
    eq_ignore_ascii_case(trim_ws(split_on(content_type, ';')[0]), "text/html"@)
}

/// Whether a rendered page can be exported, and why not: it must answer
/// `200 OK` with an HTML body, and must neither set a cookie nor encode its
/// content.
pub open spec fn rendered_outcome(
    url: Seq<char>,
    status: u16,
    content_type: Option<Seq<char>>,
    set_cookie: bool,
    content_encoding: bool,
) -> Result<(), Seq<char>> {
    if status != 200 {
        Err("static request for `"@ + url + "` returned "@ + status_display(status))
    } else if !(content_type matches Some(t) && declares_html(t)) {
        Err("static request for `"@ + url + "` must return `text/html`, got `"@ + match content_type {
            Some(t) => t,
            None => "<missing>"@,
        } + "`"@)
    } else if set_cookie {
        Err("static request for `"@ + url + "` returned `Set-Cookie`, which cannot be exported"@)
    } else if content_encoding {
        Err("static request for `"@ + url + "` returned encoded content, which cannot be exported"@)
    } else {
        Ok(())
    }
}

/// Judges a page rendered for the export from its response: the status, the
/// `Content-Type` header when it is present and readable as text, and whether
/// `Set-Cookie` and `Content-Encoding` headers are present.
pub fn check_rendered(
    url_path: &str,
    status: u16,
    content_type: Option<&str>,
    set_cookie: bool,
    content_encoding: bool,
) -> (r: Result<(), ExportError>)
    ensures
        match rendered_outcome(url_path@, status, match content_type {
            None => None,
            Some(t) => Some(t@),
        }, set_cookie, content_encoding) {
            Ok(()) => r is Ok,
            Err(m) => r matches Err(e) && e@ == m,
        },
{
    if status != 200 {
        let mut m = "static request for `".to_owned();
        push_str(&mut m, url_path);
        push_str(&mut m, "` returned ");
        push_decimal(&mut m, status as u64);
        push_str(&mut m, " ");
        match canonical_reason(status) {
            Some(reason) => push_str(&mut m, reason),
            None => push_str(&mut m, "<unknown status code>"),
        }
        return Err(ExportError::new(m));
    }
    let html = match content_type {
        None => false,
        Some(t) => {
            let pieces = split_chars(&chars_of(t), ';');
            proof {
                crate::text::lemma_split_nonempty(t@, ';');
                assert(char_views(pieces@)[0] == pieces@[0]@);
            }
            let mime = trim_whitespace(&pieces[0]);
            let expected = chars_of("text/html");
            chars_eq_ignore_ascii_case(&mime, &expected)
        },
    };
    if !html {
        let mut m = "static request for `".to_owned();
        push_str(&mut m, url_path);
        push_str(&mut m, "` must return `text/html`, got `");
        match content_type {
            Some(t) => push_str(&mut m, t),
            None => push_str(&mut m, "<missing>"),
        }
        push_str(&mut m, "`");
        return Err(ExportError::new(m));
    }
    if set_cookie {
        let mut m = "static request for `".to_owned();
        push_str(&mut m, url_path);
        push_str(&mut m, "` returned `Set-Cookie`, which cannot be exported");
        return Err(ExportError::new(m));
    }
    if content_encoding {
        let mut m = "static request for `".to_owned();
        push_str(&mut m, url_path);
        push_str(&mut m, "` returned encoded content, which cannot be exported");
        return Err(ExportError::new(m));
    }
    Ok(())
}

} // verus!
