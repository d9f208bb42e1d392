//! How the URLs of an exported site become files under the output directory.

use vstd::prelude::*;

use crate::text::{
    split_on,
    char_views, chars_of, chars_eq, components, components_of, contains_char, join, join_chars,
    lemma_components, lemma_components_join, push_str, string_of,
};

verus! {

/// The abstract form of an [`OutputPathError`].
pub enum OutputPathErrorView {
    UnsafeSegment { url: Seq<char>, segment: Seq<char> },
    Empty { url: Seq<char> },
}

impl OutputPathErrorView {
    /// The text the error is reported with.
    pub open spec fn message(self) -> Seq<char> {
        match self {
            OutputPathErrorView::UnsafeSegment { url, segment } => "`"@ + url
                + "` cannot be written to a file: the segment `"@ + segment
                + "` would escape the output directory"@,
            OutputPathErrorView::Empty { url } => "`"@ + url + "` names no file to write"@,
        }
    }
}

/// A URL that cannot be turned into a file in the exported site.
#[derive(Debug, Clone, PartialEq, Eq)]
pub enum OutputPathError {
    /// A URL segment would escape the output directory or cannot name a file.
    UnsafeSegment {
        /// The URL the segment came from.
        url: String,
        /// The rejected segment.
        segment: String,
    },
    /// A verbatim URL had no segments at all, so it names no file.
    Empty {
        /// The offending URL.
        url: String,
    },
}

impl View for OutputPathError {
    type V = OutputPathErrorView;

    open spec fn view(&self) -> OutputPathErrorView {
        match self {
            OutputPathError::UnsafeSegment { url, segment } => OutputPathErrorView::UnsafeSegment {
                url: url@,
                segment: segment@,
            },
            OutputPathError::Empty { url } => OutputPathErrorView::Empty { url: url@ },
        }
    }
}

impl OutputPathError {
    /// The text the error is reported with.
    pub fn to_string(&self) -> (m: String)
        ensures
            m@ == self@.message(),
    {
        let mut m = String::new();
        match self {
            OutputPathError::UnsafeSegment { url, segment } => {
                push_str(&mut m, "`");
                push_str(&mut m, url.as_str());
                push_str(&mut m, "` cannot be written to a file: the segment `");
                push_str(&mut m, segment.as_str());
                push_str(&mut m, "` would escape the output directory");
            },
            OutputPathError::Empty { url } => {
                push_str(&mut m, "`");
                push_str(&mut m, url.as_str());
                push_str(&mut m, "` names no file to write");
            },
        }
        m
    }
}

/// Whether a URL segment would escape the output directory or cannot name a
/// file: `.`, `..`, or one holding a backslash or a NUL.
pub open spec fn is_unsafe_segment(p: Seq<char>) -> bool {
    p == seq!['.'] || p == seq!['.', '.'] || p.contains('\\') || p.contains('\0')
}

/// The first unsafe piece from position `i` on.
pub open spec fn first_unsafe(pieces: Seq<Seq<char>>, i: int) -> Option<Seq<char>>
    decreases pieces.len() - i,
{
    if i < 0 || i >= pieces.len() {
        None
    } else if is_unsafe_segment(pieces[i]) {
        Some(pieces[i])
    } else {
        first_unsafe(pieces, i + 1)
    }
}

/// The segments naming the file of `url`: its non-empty `/`-separated
/// pieces, or the first unsafe one among them.
pub open spec fn url_segments(url: Seq<char>) -> Result<Seq<Seq<char>>, OutputPathErrorView> {
    let pieces = components(url, '/');
    match first_unsafe(pieces, 0) {
        Some(segment) => Err(OutputPathErrorView::UnsafeSegment { url, segment }),
        None => Ok(pieces),
    }
}

/// No unsafe piece is found in pieces that are all safe, and conversely.
proof fn lemma_first_unsafe(pieces: Seq<Seq<char>>, i: int)
    requires
        0 <= i <= pieces.len(),
    ensures
        first_unsafe(pieces, i) is None <==> forall|k: int| i <= k < pieces.len() ==> !is_unsafe_segment(#[trigger] pieces[k]),
    decreases pieces.len() - i,
{
    if i < pieces.len() {
        lemma_first_unsafe(pieces, i + 1);
    }
}

/// Whether `p` is `.`, `..`, or holds a backslash or a NUL.
fn unsafe_segment(p: &Vec<char>) -> (r: bool)
    ensures
        r == is_unsafe_segment(p@),
{
    let dot = chars_of(".");
    let dots = chars_of("..");
    proof {
        reveal_strlit(".");
        reveal_strlit("..");
        assert(dot@ =~= seq!['.']);
        assert(dots@ =~= seq!['.', '.']);
    }
    chars_eq(p, &dot) || chars_eq(p, &dots) || contains_char(p, '\\') || contains_char(p, '\0')
}

/// Splits a URL path into the segments naming its file, rejecting anything
/// that would escape the output directory or name an unwritable file.
///
/// A page's generated parameters are application data, so `..` in one would
/// otherwise write outside the output directory.
pub fn segments(url: &str) -> (r: Result<Vec<String>, OutputPathError>)
    ensures
        match r {
            Ok(segs) => url_segments(url@) == Ok::<Seq<Seq<char>>, OutputPathErrorView>(crate::text::string_views(segs@)),
            Err(e) => url_segments(url@) == Err::<Seq<Seq<char>>, OutputPathErrorView>(e@),
        },
{
    let pieces = components_of(&chars_of(url), '/');
    let ghost pv = char_views(pieces@);
    let mut segs: Vec<String> = Vec::new();
    let mut i: usize = 0;
    while i < pieces.len()
        invariant
            i <= pieces@.len(),
            pv == char_views(pieces@),
            pv == components(url@, '/'),
            first_unsafe(pv, 0) == first_unsafe(pv, i as int),
            crate::text::string_views(segs@) == pv.take(i as int),
        decreases pieces@.len() - i,
    {
        assert(pv[i as int] == pieces@[i as int]@);
        if unsafe_segment(&pieces[i]) {
            return Err(OutputPathError::UnsafeSegment { url: url.to_owned(), segment: string_of(&pieces[i]) });
        }
        let ghost before = crate::text::string_views(segs@);
        segs.push(string_of(&pieces[i]));
        assert(crate::text::string_views(segs@) =~= before.push(pv[i as int]));
        assert(pv.take(i + 1 as int) =~= pv.take(i as int).push(pv[i as int]));
        i = i + 1;
    }
    assert(pv.take(i as int) =~= pv);
    Ok(segs)
}

/// How a page URL becomes a file in the exported site.
///
/// Static hosts serve a directory URL either by looking for an `index.html`
/// inside a directory of that name, or by appending `.html` to the URL. The
/// two conventions cover essentially every host, so the export writes one or
/// the other.
#[derive(Clone, Copy, Debug, PartialEq, Eq)]
pub enum OutputFormat {
    /// Clean directory URLs: `/about` is written to `about/index.html`. This
    /// is the default, and what GitHub Pages, Netlify, Cloudflare Pages, and
    /// S3 website hosting expect.
    Directory,
    /// HTML files: `/about` is written to `about.html`, for hosts that resolve
    /// an extensionless URL by appending `.html`.
    File,
}

impl Default for OutputFormat {
    fn default() -> (r: Self)
        ensures
            r == OutputFormat::Directory,
    {
        OutputFormat::Directory
    }
}

/// The file, relative to the output directory, that a page with the segments
/// `segs` is written to. The root URL is always `index.html`.
pub open spec fn page_file(format: OutputFormat, segs: Seq<Seq<char>>) -> Seq<char> {
    if segs.len() == 0 {
        "index.html"@
    } else {
        match format {
            OutputFormat::Directory => join(segs.push("index.html"@), '/'),
            OutputFormat::File => join(segs.drop_last().push(segs.last() + ".html"@), '/'),
        }
    }
}

impl OutputFormat {
    /// The name the format is given on the command line.
    pub fn to_string(&self) -> (s: String)
        ensures
            s@ == (match self {
                OutputFormat::Directory => "directory"@,
                OutputFormat::File => "file"@,
            }),
    {
        match self {
            OutputFormat::Directory => "directory".to_owned(),
            OutputFormat::File => "file".to_owned(),
        }
    }

    /// The file, relative to the output directory, that `url` is written to,
    /// with `/` between its components.
    ///
    /// The root URL is always `index.html`, whichever format is in use, since
    /// a site's entry point has no name to take.
    ///
    /// Returns [`OutputPathError`] if a URL segment cannot be written to a
    /// file safely, which a page's generated parameters could otherwise cause.
    pub fn file_for(self, url: &str) -> (r: Result<String, OutputPathError>)
        ensures
            match url_segments(url@) {
                Err(e) => r matches Err(x) && x@ == e,
                Ok(segs) => r matches Ok(f) && f@ == page_file(self, segs),
            },
    {
        let segs = match segments(url) {
            Ok(s) => s,
            Err(e) => {
                return Err(e);
            },
        };
        let ghost sv = crate::text::string_views(segs@);
        if segs.len() == 0 {
            let index = "index.html".to_owned();
            return Ok(index);
        }
        let mut parts: Vec<Vec<char>> = Vec::new();
        let mut i: usize = 0;
        while i < segs.len() - 1
            invariant
                segs@.len() >= 1,
                i + 1 <= segs@.len(),
                sv == crate::text::string_views(segs@),
                char_views(parts@) == sv.take(i as int),
            decreases segs@.len() - i,
        {
            assert(sv[i as int] == segs@[i as int]@);
            let ghost before = char_views(parts@);
            parts.push(chars_of(segs[i].as_str()));
            assert(char_views(parts@) =~= before.push(sv[i as int]));
            assert(sv.take(i + 1 as int) =~= sv.take(i as int).push(sv[i as int]));
            i = i + 1;
        }
        assert(sv.take(i as int) =~= sv.drop_last());
        let last = segs.len() - 1;
        assert(sv[last as int] == segs@[last as int]@ && sv.last() == sv[last as int]);
        let ghost before = char_views(parts@);
        match self {
            OutputFormat::Directory => {
                parts.push(chars_of(segs[last].as_str()));
                parts.push(chars_of("index.html"));
                assert(char_views(parts@) =~= before.push(sv.last()).push("index.html"@));
                assert(sv.drop_last().push(sv.last()) =~= sv);
                assert(char_views(parts@) =~= sv.push("index.html"@));
            },
            OutputFormat::File => {
                let mut name = segs[last].clone();
                push_str(&mut name, ".html");
                parts.push(chars_of(name.as_str()));
                assert(char_views(parts@) =~= sv.drop_last().push(sv.last() + ".html"@));
            },
        }
        Ok(join_chars(&parts, '/'))
    }
}

/// The file, relative to the output directory, that a verbatim URL (an asset)
/// is written to: its segments, joined with `/`.
///
/// Assets keep the exact URL the application serves them at, so their
/// content-hashed names line up with the links in the exported pages.
///
/// Returns [`OutputPathError`] if a URL segment cannot be written to a file
/// safely, or if the URL names no file at all.
pub fn file_for_asset(url: &str) -> (r: Result<String, OutputPathError>)
    ensures
        match url_segments(url@) {
            Err(e) => r matches Err(x) && x@ == e,
            Ok(segs) => if segs.len() == 0 {
                r matches Err(x) && x@ == (OutputPathErrorView::Empty { url: url@ })
            } else {
                r matches Ok(f) && f@ == join(segs, '/')
            },
        },
{
    let segs = match segments(url) {
        Ok(s) => s,
        Err(e) => {
            return Err(e);
        },
    };
    if segs.len() == 0 {
        return Err(OutputPathError::Empty { url: url.to_owned() });
    }
    let ghost sv = crate::text::string_views(segs@);
    let mut parts: Vec<Vec<char>> = Vec::new();
    let mut i: usize = 0;
    while i < segs.len()
        invariant
            i <= segs@.len(),
            sv == crate::text::string_views(segs@),
            char_views(parts@) == sv.take(i as int),
        decreases segs@.len() - i,
    {
        assert(sv[i as int] == segs@[i as int]@);
        let ghost before = char_views(parts@);
        parts.push(chars_of(segs[i].as_str()));
        assert(char_views(parts@) =~= before.push(sv[i as int]));
        assert(sv.take(i + 1 as int) =~= sv.take(i as int).push(sv[i as int]));
        i = i + 1;
    }
    assert(sv.take(i as int) =~= sv);
    Ok(join_chars(&parts, '/'))
}

/// A trailing slash does not add a segment: a URL ending in `/` is written
/// to the same file as the URL without it, under either format, and is
/// rejected exactly when that one is.
pub proof fn lemma_a_trailing_slash_adds_no_segment(format: OutputFormat, url: Seq<char>)
    ensures
        components(url.push('/'), '/') == components(url, '/'),
        url_segments(url.push('/')) is Ok <==> url_segments(url) is Ok,
        url_segments(url) is Ok ==> url_segments(url.push('/')) == url_segments(url) && page_file(
            format,
            url_segments(url.push('/'))->Ok_0,
        ) == page_file(format, url_segments(url)->Ok_0),
{
    assert(url.push('/').drop_last() =~= url);
    assert(split_on(url.push('/'), '/') == split_on(url, '/').push(Seq::<char>::empty()));
    assert(split_on(url.push('/'), '/').drop_last() =~= split_on(url, '/'));
}

/// A URL's file never escapes the output directory: every component of the
/// file a page or an asset is written to is a non-empty name that is neither
/// `.` nor `..` and holds no backslash or NUL, and the components of a page's
/// file are the URL's segments followed by the file's own name.
pub proof fn lemma_files_stay_inside_the_output(format: OutputFormat, url: Seq<char>)
    requires
        url_segments(url) is Ok,
    ensures
        ({
            let segs = url_segments(url)->Ok_0;
            let file = page_file(format, segs);
            &&& forall|i: int| 0 <= i < components(file, '/').len() ==> !is_unsafe_segment(#[trigger] components(file, '/')[i])
            &&& segs.len() > 0 ==> forall|i: int| 0 <= i < components(join(segs, '/'), '/').len()
                ==> !is_unsafe_segment(#[trigger] components(join(segs, '/'), '/')[i])
            &&& (segs.len() > 0 && format == OutputFormat::Directory) ==> components(file, '/') == segs.push("index.html"@)
        }),
{
    let segs = url_segments(url)->Ok_0;
    let pieces = components(url, '/');
    lemma_components(url, '/');
    lemma_first_unsafe(pieces, 0);
    reveal_strlit("index.html");
    reveal_strlit(".html");
    reveal_strlit(".");
    reveal_strlit("..");
    if segs.len() == 0 {
        let file = page_file(format, segs);
        assert(file =~= seq!['i', 'n', 'd', 'e', 'x', '.', 'h', 't', 'm', 'l']);
        lemma_components_join(seq![file], '/');
        assert(join(seq![file], '/') == file);
        assert(!file.contains('/')) by {
            if file.contains('/') {
                let k = choose|k: int| 0 <= k < file.len() && file[k] == '/';
            }
        }
        assert(!is_unsafe_segment(file)) by {
            assert(file != seq!['.']);
            assert(file != seq!['.', '.']);
            if file.contains('\\') {
                let k = choose|k: int| 0 <= k < file.len() && file[k] == '\\';
            }
            if file.contains('\0') {
                let k = choose|k: int| 0 <= k < file.len() && file[k] == '\0';
            }
        }
    } else {
        lemma_components_join(segs, '/');
        let name: Seq<char> = match format {
            OutputFormat::Directory => "index.html"@,
            OutputFormat::File => segs.last() + ".html"@,
        };
        let parts = match format {
            OutputFormat::Directory => segs.push(name),
            OutputFormat::File => segs.drop_last().push(name),
        };
        assert(segs[segs.len() - 1] == segs.last());
        assert(!name.contains('/') && name.len() > 0 && !is_unsafe_segment(name)) by {
            if name.contains('/') {
                let k = choose|k: int| 0 <= k < name.len() && name[k] == '/';
                if format == OutputFormat::File && k < segs.last().len() {
                    assert(segs.last()[k] == '/');
                }
            }
            if name.contains('\\') {
                let k = choose|k: int| 0 <= k < name.len() && name[k] == '\\';
                if format == OutputFormat::File && k < segs.last().len() {
                    assert(segs.last()[k] == '\\');
                }
            }
            if name.contains('\0') {
                let k = choose|k: int| 0 <= k < name.len() && name[k] == '\0';
                if format == OutputFormat::File && k < segs.last().len() {
                    assert(segs.last()[k] == '\0');
                }
            }
            assert(name.len() >= 5);
            assert(name != seq!['.']);
            assert(name != seq!['.', '.']);
        }
        assert forall|i: int| 0 <= i < parts.len() implies (#[trigger] parts[i]).len() > 0 && !parts[i].contains('/') && !is_unsafe_segment(parts[i]) by {
            if i < parts.len() - 1 {
                assert(parts[i] == segs[i]);
            } else {
                assert(parts[i] == name);
            }
        }
        lemma_components_join(parts, '/');
    }
}

/// `Path::file_name`: the final component of `path`, if it is a normal one,
/// under the path conventions of the target the library is built for.
pub uninterp spec fn path_file_name(path: Seq<char>) -> Option<Seq<char>>;

/// `Path::with_file_name`: `path` with its final component replaced by
/// `name`, or with `name` pushed when it has none, under the path conventions
/// of the target the library is built for.
pub uninterp spec fn path_with_file_name(path: Seq<char>, name: Seq<char>) -> Seq<char>;

/// Calls `std::path::Path::file_name` on `path`. The contract claims only
/// that the result is the one `path_file_name` names: the standard library
/// computes it from the path alone, by the conventions of the build target.
/// Which component that is, is left unsaid.
#[verifier::external_body]
pub(crate) fn file_name_of(path: &str) -> (r: Option<String>)
    ensures
        match r {
            None => path_file_name(path@) is None,
            Some(name) => path_file_name(path@) == Some(name@),
        },
{
    std::path::Path::new(path).file_name().map(|name| name.to_string_lossy().into_owned())
}

/// Whether `name` is a plain file name on any target: not empty, not `.` or
/// `..`, and free of `/`, `\\` and `:`.
pub open spec fn plain_file_name(name: Seq<char>) -> bool {
    name.len() > 0 && name != seq!['.'] && name != seq!['.', '.'] && !name.contains('/') && !name.contains('\\')
        && !name.contains(':')
}

/// Whether `name` is a file name of this target (one that `Path::file_name`
/// gives for some path) with a `.` in front and a nonempty tail of plain
/// characters behind: `.NAME.tail`, as the staging and backup directories
/// are named.
pub open spec fn hides_a_file_name(name: Seq<char>) -> bool {
    exists|p: Seq<char>|
        #[trigger] path_file_name(p) is Some && {
            let n = path_file_name(p)->0;
            &&& name.len() > n.len() + 1
            &&& name[0] == '.'
            &&& name.subrange(1, n.len() + 1int) == n
            &&& plain_name_chars(name.subrange(n.len() + 1int, name.len() as int))
        }
}

/// Calls `std::path::Path::with_file_name` on `path` and `name`. The contract
/// claims that the result is the one `path_with_file_name` names, since the
/// standard library computes it from the two arguments alone, by the
/// conventions of the build target; and, as `PathBuf::set_file_name`
/// documents, that `name` becomes the result's file name when it is one
/// component: a plain name, or a file name of this target (never empty, `.`
/// or `..`, and free of this target's separators) behind a `.` and before a
/// tail of plain characters, which no target reads as a prefix. How the name
/// replaces the last component is left unsaid.
#[verifier::external_body]
pub(crate) fn with_file_name(path: &str, name: &str) -> (r: String)
    ensures
        r@ == path_with_file_name(path@, name@),
        plain_file_name(name@) ==> path_file_name(r@) == Some(name@),
        hides_a_file_name(name@) ==> path_file_name(r@) == Some(name@),
{
    std::path::Path::new(path).with_file_name(name).to_string_lossy().into_owned()
}

/// `Path::parent`: `path` without its final component, if it has one, under
/// the path conventions of the target the library is built for.
pub uninterp spec fn path_parent(path: Seq<char>) -> Option<Seq<char>>;

/// Calls `std::path::Path::parent` on `path`. The contract claims that the
/// result is the one `path_parent` names, and, since the parent is `path`
/// with its final component cut off, that it is shorter than `path`.
#[verifier::external_body]
pub(crate) fn parent_of(path: &str) -> (r: Option<String>)
    ensures
        match r {
            None => path_parent(path@) is None,
            Some(p) => path_parent(path@) == Some(p@) && p@.len() < path@.len(),
        },
{
    std::path::Path::new(path).parent().map(|p| p.to_string_lossy().into_owned())
}

/// Whether `name` holds none of the characters that some target reads as a
/// separator or a prefix: `/`, `\\` and `:`.
pub open spec fn plain_name_chars(name: Seq<char>) -> bool {
    !name.contains('/') && !name.contains('\\') && !name.contains(':')
}

/// The name of the directory beside `out` that ends in `suffix`: `out`'s own
/// name (or `export` when it has none), hidden with a leading `.`.
pub open spec fn sibling_name(out: Seq<char>, suffix: Seq<char>) -> Seq<char> {
    let name = match path_file_name(out) {
        Some(n) => n,
        None => "export"@,
    };
    "."@ + name + "."@ + suffix
}

proof fn lemma_hidden_name_is_plain(n: Seq<char>, suffix: Seq<char>)
    requires
        plain_name_chars(n),
        plain_name_chars(suffix),
        suffix.len() > 0,
    ensures
        plain_file_name("."@ + n + "."@ + suffix),
{
    reveal_strlit(".");
    let s = "."@ + n + "."@ + suffix;
    assert(s.len() == n.len() + suffix.len() + 2);
    assert forall|i: int| 0 <= i < s.len() implies s[i] != '/' && s[i] != '\\' && s[i] != ':' by {
        if i == 0 {
            assert(s[i] == '.');
        } else if i < n.len() + 1 {
            assert(s[i] == n[i - 1]);
            assert(n.contains(n[i - 1]));
        } else if i == n.len() + 1 {
            assert(s[i] == '.');
        } else {
            assert(s[i] == suffix[i - n.len() - 2]);
            assert(suffix.contains(suffix[i - n.len() - 2]));
        }
    }
    if s.contains('/') {
        let k = choose|k: int| 0 <= k < s.len() && s[k] == '/';
    }
    if s.contains('\\') {
        let k = choose|k: int| 0 <= k < s.len() && s[k] == '\\';
    }
    if s.contains(':') {
        let k = choose|k: int| 0 <= k < s.len() && s[k] == ':';
    }
}

fn sibling(out: &str, suffix: &str) -> (r: String)
    requires
        plain_name_chars(suffix@),
        suffix@.len() > 0,
    ensures
        r@ == path_with_file_name(out@, sibling_name(out@, suffix@)),
        path_file_name(r@) == Some(sibling_name(out@, suffix@)),
        r@ != out@,
{
    let name = match file_name_of(out) {
        Some(n) => n,
        None => "export".to_owned(),
    };
    let mut file = ".".to_owned();
    push_str(&mut file, name.as_str());
    push_str(&mut file, ".");
    push_str(&mut file, suffix);
    proof {
        reveal_strlit("export");
        reveal_strlit(".");
        if path_file_name(out@) is None {
            assert forall|i: int| 0 <= i < "export"@.len() implies "export"@[i] != '/' && "export"@[i]
                != '\\' && "export"@[i] != ':' by {}
            assert(plain_name_chars("export"@));
            lemma_hidden_name_is_plain(name@, suffix@);
        } else {
            let n = name@;
            let f = file@;
            assert(f.subrange(1, n.len() + 1int) =~= n);
            let tail = f.subrange(n.len() + 1int, f.len() as int);
            assert(tail =~= "."@ + suffix@);
            assert forall|i: int| 0 <= i < tail.len() implies tail[i] != '/' && tail[i] != '\\' && tail[i] != ':' by {
                if i > 0 {
                    assert(tail[i] == suffix@[i - 1]);
                    assert(suffix@.contains(suffix@[i - 1]));
                }
            }
            if tail.contains('/') {
                let k = choose|k: int| 0 <= k < tail.len() && tail[k] == '/';
            }
            if tail.contains('\\') {
                let k = choose|k: int| 0 <= k < tail.len() && tail[k] == '\\';
            }
            if tail.contains(':') {
                let k = choose|k: int| 0 <= k < tail.len() && tail[k] == ':';
            }
            assert(path_file_name(out@) is Some && path_file_name(out@)->0 == n);
            assert(hides_a_file_name(f));
        }
    }
    let r = with_file_name(out, file.as_str());
    proof {
        assert(sibling_name(out@, suffix@).len() == name@.len() + suffix@.len() + 2);
    }
    r
}

/// The staging directory an export is written to before it replaces `out`.
///
/// It sits beside the output directory so the final move is a rename within
/// one filesystem, which either happens or does not. Its file name is
/// `.NAME.topcoat-export`, so it is never `out` itself.
pub fn staging_dir(out: &str) -> (r: String)
    ensures
        r@ == path_with_file_name(out@, sibling_name(out@, "topcoat-export"@)),
        path_file_name(r@) == Some(sibling_name(out@, "topcoat-export"@)),
        r@ != out@,
{
    proof {
        reveal_strlit("topcoat-export");
        assert forall|i: int| 0 <= i < "topcoat-export"@.len() implies "topcoat-export"@[i] != '/'
            && "topcoat-export"@[i] != '\\' && "topcoat-export"@[i] != ':' by {}
    }
    sibling(out, "topcoat-export")
}

/// Where the previous export is moved to while the fresh one takes its place.
/// Its file name is `.NAME.topcoat-export-prev`, so it is never `out`
/// itself.
pub fn backup_dir(out: &str) -> (r: String)
    ensures
        r@ == path_with_file_name(out@, sibling_name(out@, "topcoat-export-prev"@)),
        path_file_name(r@) == Some(sibling_name(out@, "topcoat-export-prev"@)),
        r@ != out@,
{
    proof {
        reveal_strlit("topcoat-export-prev");
        assert forall|i: int| 0 <= i < "topcoat-export-prev"@.len() implies "topcoat-export-prev"@[i] != '/'
            && "topcoat-export-prev"@[i] != '\\' && "topcoat-export-prev"@[i] != ':' by {}
    }
    sibling(out, "topcoat-export-prev")
}

/// The staging and backup directories of one output directory differ: paths
/// whose file names are the staging and the backup name of `out` are two
/// paths, since `.NAME.topcoat-export` and `.NAME.topcoat-export-prev` differ.
pub proof fn lemma_staging_and_backup_stand_apart(out: Seq<char>, staging: Seq<char>, backup: Seq<char>)
    requires
        path_file_name(staging) == Some(sibling_name(out, "topcoat-export"@)),
        path_file_name(backup) == Some(sibling_name(out, "topcoat-export-prev"@)),
    ensures
        staging != backup,
{
    reveal_strlit("topcoat-export");
    reveal_strlit("topcoat-export-prev");
    assert(sibling_name(out, "topcoat-export"@).len() != sibling_name(out, "topcoat-export-prev"@).len());
}

} // verus!
