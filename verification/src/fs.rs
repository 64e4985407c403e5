//! The library's view of the filesystem.
//!
//! The library never touches the filesystem. Its caller reports what lies at a
//! path as a `Probe`, and receives the changes to make as a list of `FsOp`,
//! to be carried out in order.

use vstd::prelude::*;

verus! {

/// What lies at a path itself. A link is reported as a link, whether or not
/// anything lies where it points to: links are not followed.
#[derive(Debug, PartialEq, Eq)]
pub enum Probe {
    /// Nothing lies at the path.
    Nothing,
    /// A symbolic link lies at the path; it points to the path given.
    Link(String),
    /// Something else lies at the path: a file, a directory, or a link that
    /// could not be read.
    Other,
}

/// What a `Probe` stands for.
pub enum ProbeView {
    Nothing,
    Link(Seq<char>),
    Other,
}

impl View for Probe {
    type V = ProbeView;

    open spec fn view(&self) -> ProbeView {
        match self {
            Probe::Nothing => ProbeView::Nothing,
            Probe::Link(destination) => ProbeView::Link(destination@),
            Probe::Other => ProbeView::Other,
        }
    }
}

/// One change to the filesystem.
#[derive(Debug, PartialEq, Eq)]
pub enum FsOp {
    /// Create the directory and every missing directory above it.
    CreateDirAll(String),
    /// Create a symbolic link at `link` that points to `destination`.
    Symlink { destination: String, link: String },
    /// Remove the file or link at the path.
    RemoveFile(String),
    /// Move what lies at `from` to `to`, replacing what lies there.
    Rename { from: String, to: String },
}

/// What an `FsOp` stands for.
pub enum FsOpView {
    CreateDirAll(Seq<char>),
    Symlink { destination: Seq<char>, link: Seq<char> },
    RemoveFile(Seq<char>),
    Rename { from: Seq<char>, to: Seq<char> },
}

impl View for FsOp {
    type V = FsOpView;

    open spec fn view(&self) -> FsOpView {
        match self {
            FsOp::CreateDirAll(dir) => FsOpView::CreateDirAll(dir@),
            FsOp::Symlink { destination, link } => FsOpView::Symlink {
                destination: destination@,
                link: link@,
            },
            FsOp::RemoveFile(path) => FsOpView::RemoveFile(path@),
            FsOp::Rename { from, to } => FsOpView::Rename { from: from@, to: to@ },
        }
    }
}

/// The changes that a list of operations stands for.
pub open spec fn plan_of(ops: Seq<FsOp>) -> Seq<FsOpView> {
    ops.map_values(|op: FsOp| op@)
}

} // verus!
