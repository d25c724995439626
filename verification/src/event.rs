//! The typed events that a session's background activity pushes to the
//! caller.

use vstd::prelude::*;

verus! {

/// An event of a pseudo-terminal session.
#[derive(Clone, Debug, PartialEq, Eq)]
pub enum PtyEvent {
    /// Bytes arrived from the terminal.
    Output { data: Vec<u8> },
    /// The session ended; nothing follows.
    Exit {  },
    /// Reading from the terminal failed irrecoverably.
    Error { message: String },
}

/// A `PtyEvent` as a mathematical value.
pub enum PtyEventView {
    Output { data: Seq<u8> },
    Exit,
    Error { message: Seq<char> },
}

impl View for PtyEvent {
    type V = PtyEventView;

    open spec fn view(&self) -> PtyEventView {
        match self {
            PtyEvent::Output { data } => PtyEventView::Output { data: data@ },
            PtyEvent::Exit {  } => PtyEventView::Exit,
            PtyEvent::Error { message } => PtyEventView::Error { message: message@ },
        }
    }
}

/// An event of a directory watch.
#[derive(Clone, Debug, PartialEq, Eq)]
pub enum WatchEvent {
    /// A file was modified; `content` is its text when the event was handled,
    /// or empty when it could not be read.
    Changed { path: String, content: String },
    /// A file or directory was created.
    Created { path: String },
    /// A file or directory was removed.
    Removed { path: String },
    /// The watch itself reported an error; it keeps running.
    Error { message: String },
}

/// A `WatchEvent` as a mathematical value.
pub enum WatchEventView {
    Changed { path: Seq<char>, content: Seq<char> },
    Created { path: Seq<char> },
    Removed { path: Seq<char> },
    Error { message: Seq<char> },
}

impl View for WatchEvent {
    type V = WatchEventView;

    open spec fn view(&self) -> WatchEventView {
        match self {
            WatchEvent::Changed { path, content } => WatchEventView::Changed {
                path: path@,
                content: content@,
            },
            WatchEvent::Created { path } => WatchEventView::Created { path: path@ },
            WatchEvent::Removed { path } => WatchEventView::Removed { path: path@ },
            WatchEvent::Error { message } => WatchEventView::Error { message: message@ },
        }
    }
}

} // verus!
