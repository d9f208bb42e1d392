//! `topcoat export`: what the command computes around the HTTP requests and
//! file writes it makes.
//!
//! An export asks the running application what it can render statically,
//! fetches every listed page and asset over HTTP, and writes the responses to
//! a staging directory that replaces the output only once everything
//! succeeded.

pub mod app;
pub mod output;
pub mod site;
pub mod swap;

use vstd::prelude::*;

use crate::text::push_str;
use output::OutputFormat;

verus! {

/// `noun`, made plural unless `count` is one.
pub open spec fn plural_of(count: usize, noun: Seq<char>) -> Seq<char> {
    if count == 1 {
        noun
    } else {
        noun + "s"@
    }
}

/// The noun to report `count` things with: `noun` itself for one, and with an
/// `s` appended otherwise.
pub fn plural(count: usize, noun: &str) -> (r: String)
    ensures
        r@ == plural_of(count, noun@),
{
    if count == 1 {
        noun.to_owned()
    } else {
        let mut r = noun.to_owned();
        push_str(&mut r, "s");
        r
    }
}

/// The output directory an export writes to unless told otherwise.
pub const DEFAULT_OUT_DIR: &'static str = "dist";

/// The options of `topcoat export` besides those of the build: the output
/// directory for the exported site, and how page URLs map to files.
#[derive(Debug, Clone)]
pub struct ExportCommand {
    /// Output directory for the exported site.
    pub out: String,
    /// How page URLs map to files: clean directory URLs, or `.html` files.
    pub format: OutputFormat,
}

impl ExportCommand {
    /// The options writing to `out` in `format`.
    pub fn new(out: &str, format: OutputFormat) -> (c: Self)
        ensures
            c.out@ == out@,
            c.format == format,
    {
        ExportCommand { out: out.to_owned(), format }
    }
}

impl Default for ExportCommand {
    /// Writing to `dist`, with clean directory URLs.
    fn default() -> (c: Self)
        ensures
            c.out@ == DEFAULT_OUT_DIR@,
            c.format == OutputFormat::Directory,
    {
        ExportCommand { out: DEFAULT_OUT_DIR.to_owned(), format: OutputFormat::Directory }
    }
}

} // verus!
