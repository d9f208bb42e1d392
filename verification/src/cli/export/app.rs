//! Starting the application an export renders its pages from, and hearing
//! back from it.
//!
//! The application is handed the URL of a local server and, once it is
//! listening, reports in over it: `ready` on its own, or `ready <addr>` when
//! it listens on a TCP address. What the export makes of that report, of the
//! application exiting first, or of a timeout is decided here.

use vstd::prelude::*;

use crate::text::{push_decimal, push_str, str_eq};

verus! {

/// How long, in seconds, the already-built application gets to bind its
/// listener and report in.
pub const READY_TIMEOUT_SECS: u64 = 30;

/// What a readiness message reports: that the application serves, and the
/// address it gave, if it gave one (still to be read as a socket address).
#[derive(Debug, Clone, PartialEq, Eq)]
pub enum ReadyReport {
    /// `ready` on its own: the application serves, but not over TCP.
    Bare,
    /// `ready <addr>`: the text of the address it listens on.
    Reported(String),
}

/// The abstract form of a [`ReadyReport`].
pub enum ReadyReportView {
    Bare,
    Reported(Seq<char>),
}

impl View for ReadyReport {
    type V = ReadyReportView;

    open spec fn view(&self) -> ReadyReportView {
        match self {
            ReadyReport::Bare => ReadyReportView::Bare,
            ReadyReport::Reported(a) => ReadyReportView::Reported(a@),
        }
    }
}

/// How a message from the application reads: `ready` alone, `ready `
/// followed by an address, or anything else, which is no readiness message.
pub open spec fn ready_message(text: Seq<char>) -> Option<ReadyReportView> {
    if text == "ready"@ {
        Some(ReadyReportView::Bare)
    } else if text.len() >= 6 && text.take(6) == "ready "@ {
        Some(ReadyReportView::Reported(text.skip(6)))
    } else {
        None
    }
}

/// Reads a message from the application: `ready` on its own, or `ready
/// <addr>` when it listens on a TCP address.
pub fn parse_ready(text: &str) -> (r: Option<ReadyReport>)
    ensures
        match r {
            Some(report) => ready_message(text@) == Some(report@),
            None => ready_message(text@) is None,
        },
{
    proof {
        reveal_strlit("ready");
        reveal_strlit("ready ");
    }
    if str_eq(text, "ready") {
        return Some(ReadyReport::Bare);
    }
    let n = text.unicode_len();
    if n >= 6 {
        let head = text.substring_char(0, 6);
        if str_eq(head, "ready ") {
            let addr = text.substring_char(6, n);
            assert(head@ == text@.subrange(0, 6));
            assert(text@.take(6) =~= text@.subrange(0, 6));
            assert(text@.skip(6) =~= text@.subrange(6, n as int));
            return Some(ReadyReport::Reported(addr.to_owned()));
        }
        assert(text@.take(6) =~= text@.subrange(0, 6));
    }
    None
}

/// The reason an application never became ready to export from.
#[derive(Debug)]
pub enum ReadyError {
    /// The application exited before reporting in.
    Exited {
        /// How the process ended.
        status: String,
    },
    /// The application reported in without a TCP address.
    NoAddress,
    /// The application did not report in before the timeout.
    Timeout,
}

/// The abstract form of a [`ReadyError`].
pub enum ReadyErrorView {
    Exited { status: Seq<char> },
    NoAddress,
    Timeout,
}

impl View for ReadyError {
    type V = ReadyErrorView;

    open spec fn view(&self) -> ReadyErrorView {
        match self {
            ReadyError::Exited { status } => ReadyErrorView::Exited { status: status@ },
            ReadyError::NoAddress => ReadyErrorView::NoAddress,
            ReadyError::Timeout => ReadyErrorView::Timeout,
        }
    }
}

impl ReadyErrorView {
    /// The text the error is reported with.
    pub open spec fn message(self) -> Seq<char> {
        match self {
            ReadyErrorView::Exited { status } => "the application exited before serving any pages ("@ + status
                + ")"@,
            ReadyErrorView::NoAddress =>
                "the application is not listening on a TCP address, so its pages cannot be fetched"@,
            ReadyErrorView::Timeout => "the application did not start serving within "@ + crate::text::decimal(
                READY_TIMEOUT_SECS as nat,
            ) + "s; it must serve with `topcoat::serve` or `topcoat::start` to be exported"@,
        }
    }
}

impl ReadyError {
    /// The text the error is reported with.
    pub fn to_string(&self) -> (m: String)
        ensures
            m@ == self@.message(),
    {
        let mut m = String::new();
        match self {
            ReadyError::Exited { status } => {
                push_str(&mut m, "the application exited before serving any pages (");
                push_str(&mut m, status.as_str());
                push_str(&mut m, ")");
            },
            ReadyError::NoAddress => {
                push_str(
                    &mut m,
                    "the application is not listening on a TCP address, so its pages cannot be fetched",
                );
            },
            ReadyError::Timeout => {
                push_str(&mut m, "the application did not start serving within ");
                push_decimal(&mut m, READY_TIMEOUT_SECS);
                push_str(&mut m, "s; it must serve with `topcoat::serve` or `topcoat::start` to be exported");
            },
        }
        m
    }
}

/// What happened first while waiting for the application: it reported in
/// (with the address it listens on, if any), the channel its report comes
/// over closed, it exited (and how), or the timeout passed.
pub enum ReadyEvent<A> {
    Reported(Option<A>),
    Closed,
    Exited(String),
    TimedOut,
}

/// What waiting for the application comes to, given what happened first:
/// the address it reported, or why there is none.
pub fn ready_outcome<A>(event: ReadyEvent<A>) -> (r: Result<A, ReadyError>)
    ensures
        match event {
            ReadyEvent::Reported(Some(addr)) => r == Ok::<A, ReadyError>(addr),
            ReadyEvent::Reported(None) => r matches Err(ReadyError::NoAddress),
            ReadyEvent::Closed => r matches Err(ReadyError::Timeout),
            ReadyEvent::Exited(status) => r matches Err(ReadyError::Exited { status: s }) && s@ == status@,
            ReadyEvent::TimedOut => r matches Err(ReadyError::Timeout),
        },
{
    match event {
        ReadyEvent::Reported(Some(addr)) => Ok(addr),
        ReadyEvent::Reported(None) => Err(ReadyError::NoAddress),
        ReadyEvent::Closed => Err(ReadyError::Timeout),
        ReadyEvent::Exited(status) => Err(ReadyError::Exited { status }),
        ReadyEvent::TimedOut => Err(ReadyError::Timeout),
    }
}

} // verus!
