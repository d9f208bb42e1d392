//! Problems that stop a page from being exported to a static site.

use vstd::prelude::*;

use crate::text::push_str;

verus! {

/// The abstract form of a [`StaticExportError`]: the same variants, with the
/// views of their strings.
pub enum StaticExportErrorView {
    MissingParam { route: Seq<char>, name: Seq<char> },
    UnknownParam { route: Seq<char>, name: Seq<char> },
    DuplicateParam { route: Seq<char>, name: Seq<char> },
    EmptyParam { route: Seq<char>, name: Seq<char> },
    InvalidParam { route: Seq<char>, name: Seq<char>, value: Seq<char> },
    DuplicatePath { route: Seq<char>, path: Seq<char> },
    ConflictingPaths { first: Seq<char>, second: Seq<char>, path: Seq<char> },
    ConflictsWithStaticFile { route: Seq<char>, path: Seq<char> },
    NotExportable { route: Seq<char> },
    Generator { route: Seq<char>, message: Seq<char> },
}

impl StaticExportErrorView {
    /// The text the error is reported with.
    pub open spec fn message(self) -> Seq<char> {
        match self {
            StaticExportErrorView::MissingParam { route, name } => "page `"@ + route
                + "`: generated parameters do not include `"@ + name
                + "`; every set must name each dynamic segment of the page's path, including the segments its parent modules contribute"@,
            StaticExportErrorView::UnknownParam { route, name } => "page `"@ + route
                + "`: generated parameters include `"@ + name
                + "`, which the page's path does not declare"@,
            StaticExportErrorView::DuplicateParam { route, name } => "page `"@ + route
                + "`: generated parameters name `"@ + name + "` more than once"@,
            StaticExportErrorView::EmptyParam { route, name } => "page `"@ + route
                + "`: generated parameter `"@ + name
                + "` is empty, which matches no URL segment"@,
            StaticExportErrorView::InvalidParam { route, name, value } => "page `"@ + route
                + "`: generated parameter `"@ + name + "` is `"@ + value
                + "`, which spans more than one URL segment; only a `{*"@ + name
                + "}` catch-all may contain a `/`"@,
            StaticExportErrorView::DuplicatePath { route, path } => "page `"@ + route
                + "` generates the static path `"@ + path + "` more than once"@,
            StaticExportErrorView::ConflictingPaths { first, second, path } => "pages `"@ + first
                + "` and `"@ + second + "` both generate the static path `"@ + path + "`"@,
            StaticExportErrorView::ConflictsWithStaticFile { route, path } => "page `"@ + route
                + "` generates the static path `"@ + path
                + "`, which is already served as a static file"@,
            StaticExportErrorView::NotExportable { route } => "page `"@ + route
                + "` declares `generate_static` but does not answer `GET`, so it cannot be exported"@,
            StaticExportErrorView::Generator { route, message } => "page `"@ + route
                + "`: `generate_static` failed: "@ + message,
        }
    }
}

/// A problem that stops a page from being exported to a static site.
///
/// Every variant names the page's route path, so a failure points at the page
/// whose `generate_static` function produced it.
#[derive(Debug, Clone, PartialEq, Eq)]
#[non_exhaustive]
pub enum StaticExportError {
    /// A generated parameter set left one of the page's dynamic segments
    /// unnamed.
    MissingParam {
        /// The page's route path, e.g. `/blog/{year}/{slug}`.
        route: String,
        /// The name of the unnamed segment.
        name: String,
    },
    /// A generated parameter set named something the page's path does not
    /// declare.
    UnknownParam {
        /// The page's route path.
        route: String,
        /// The unrecognized parameter name.
        name: String,
    },
    /// A generated parameter set named the same parameter twice.
    DuplicateParam {
        /// The page's route path.
        route: String,
        /// The repeated parameter name.
        name: String,
    },
    /// A generated parameter had an empty value, which addresses no URL
    /// segment.
    EmptyParam {
        /// The page's route path.
        route: String,
        /// The parameter with the empty value.
        name: String,
    },
    /// A `{name}` parameter's value spanned more than one URL segment. Only a
    /// `{*name}` catch-all may contain a `/`.
    InvalidParam {
        /// The page's route path.
        route: String,
        /// The offending parameter name.
        name: String,
        /// The value that could not be placed in a single segment.
        value: String,
    },
    /// One page generated the same URL twice.
    DuplicatePath {
        /// The page's route path.
        route: String,
        /// The URL generated more than once.
        path: String,
    },
    /// Two different pages generated the same URL.
    ConflictingPaths {
        /// The route path of the page that generated the URL first.
        first: String,
        /// The route path of the page that generated it again.
        second: String,
        /// The URL both pages generated.
        path: String,
    },
    /// A page generated a URL that is already served as a static file, so the
    /// two would be written to the same place.
    ConflictsWithStaticFile {
        /// The page's route path.
        route: String,
        /// The URL both claim.
        path: String,
    },
    /// A page declared `generate_static` but does not answer `GET`, so it has
    /// no static representation.
    NotExportable {
        /// The page's route path.
        route: String,
    },
    /// A page's `generate_static` function returned an error.
    Generator {
        /// The page's route path.
        route: String,
        /// The error the generator reported.
        message: String,
    },
}

impl View for StaticExportError {
    type V = StaticExportErrorView;

    open spec fn view(&self) -> StaticExportErrorView {
        match self {
            StaticExportError::MissingParam { route, name } => StaticExportErrorView::MissingParam {
                route: route@,
                name: name@,
            },
            StaticExportError::UnknownParam { route, name } => StaticExportErrorView::UnknownParam {
                route: route@,
                name: name@,
            },
            StaticExportError::DuplicateParam { route, name } => StaticExportErrorView::DuplicateParam {
                route: route@,
                name: name@,
            },
            StaticExportError::EmptyParam { route, name } => StaticExportErrorView::EmptyParam {
                route: route@,
                name: name@,
            },
            StaticExportError::InvalidParam { route, name, value } => StaticExportErrorView::InvalidParam {
                route: route@,
                name: name@,
                value: value@,
            },
            StaticExportError::DuplicatePath { route, path } => StaticExportErrorView::DuplicatePath {
                route: route@,
                path: path@,
            },
            StaticExportError::ConflictingPaths { first, second, path } => StaticExportErrorView::ConflictingPaths {
                first: first@,
                second: second@,
                path: path@,
            },
            StaticExportError::ConflictsWithStaticFile { route, path } => StaticExportErrorView::ConflictsWithStaticFile {
                route: route@,
                path: path@,
            },
            StaticExportError::NotExportable { route } => StaticExportErrorView::NotExportable {
                route: route@,
            },
            StaticExportError::Generator { route, message } => StaticExportErrorView::Generator {
                route: route@,
                message: message@,
            },
        }
    }
}

impl StaticExportError {
    /// The text the error is reported with, naming the page it concerns.
    pub fn to_string(&self) -> (m: String)
        ensures
            m@ == self@.message(),
    {
        let mut m = String::new();
        match self {
            StaticExportError::MissingParam { route, name } => {
                push_str(&mut m, "page `");
                push_str(&mut m, route.as_str());
                push_str(&mut m, "`: generated parameters do not include `");
                push_str(&mut m, name.as_str());
                push_str(
                    &mut m,
                    "`; every set must name each dynamic segment of the page's path, including the segments its parent modules contribute",
                );
            },
            StaticExportError::UnknownParam { route, name } => {
                push_str(&mut m, "page `");
                push_str(&mut m, route.as_str());
                push_str(&mut m, "`: generated parameters include `");
                push_str(&mut m, name.as_str());
                push_str(&mut m, "`, which the page's path does not declare");
            },
            StaticExportError::DuplicateParam { route, name } => {
                push_str(&mut m, "page `");
                push_str(&mut m, route.as_str());
                push_str(&mut m, "`: generated parameters name `");
                push_str(&mut m, name.as_str());
                push_str(&mut m, "` more than once");
            },
            StaticExportError::EmptyParam { route, name } => {
                push_str(&mut m, "page `");
                push_str(&mut m, route.as_str());
                push_str(&mut m, "`: generated parameter `");
                push_str(&mut m, name.as_str());
                push_str(&mut m, "` is empty, which matches no URL segment");
            },
            StaticExportError::InvalidParam { route, name, value } => {
                push_str(&mut m, "page `");
                push_str(&mut m, route.as_str());
                push_str(&mut m, "`: generated parameter `");
                push_str(&mut m, name.as_str());
                push_str(&mut m, "` is `");
                push_str(&mut m, value.as_str());
                push_str(&mut m, "`, which spans more than one URL segment; only a `{*");
                push_str(&mut m, name.as_str());
                push_str(&mut m, "}` catch-all may contain a `/`");
            },
            StaticExportError::DuplicatePath { route, path } => {
                push_str(&mut m, "page `");
                push_str(&mut m, route.as_str());
                push_str(&mut m, "` generates the static path `");
                push_str(&mut m, path.as_str());
                push_str(&mut m, "` more than once");
            },
            StaticExportError::ConflictingPaths { first, second, path } => {
                push_str(&mut m, "pages `");
                push_str(&mut m, first.as_str());
                push_str(&mut m, "` and `");
                push_str(&mut m, second.as_str());
                push_str(&mut m, "` both generate the static path `");
                push_str(&mut m, path.as_str());
                push_str(&mut m, "`");
            },
            StaticExportError::ConflictsWithStaticFile { route, path } => {
                push_str(&mut m, "page `");
                push_str(&mut m, route.as_str());
                push_str(&mut m, "` generates the static path `");
                push_str(&mut m, path.as_str());
                push_str(&mut m, "`, which is already served as a static file");
            },
            StaticExportError::NotExportable { route } => {
                push_str(&mut m, "page `");
                push_str(&mut m, route.as_str());
                push_str(
                    &mut m,
                    "` declares `generate_static` but does not answer `GET`, so it cannot be exported",
                );
            },
            StaticExportError::Generator { route, message } => {
                push_str(&mut m, "page `");
                push_str(&mut m, route.as_str());
                push_str(&mut m, "`: `generate_static` failed: ");
                push_str(&mut m, message.as_str());
            },
        }
        m
    }
}

} // verus!
