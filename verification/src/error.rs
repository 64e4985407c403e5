//! The errors that the dotfile operations report.

use vstd::prelude::*;

verus! {

/// Why a path cannot be taken under management.
#[derive(Clone, Copy, Debug, PartialEq, Eq, Structural)]
pub enum InvalidTarget {
    /// The path is the store directory or lies inside it.
    InStore,
    /// The path does not lie inside the home directory.
    OutsideHome,
    /// The path's remainder below the home directory does not begin with `.`.
    NotDotfile,
}

/// An error of a dotfile operation.
#[derive(Debug, PartialEq, Eq)]
pub enum AppError {
    /// The given path names no dotfile of the store.
    NotFound(String),
    /// The given target already belongs to a dotfile of the store.
    AlreadyManaged(String),
    /// The target is occupied by something other than the expected link.
    Blocked(String),
    /// The given path cannot become a dotfile.
    InvalidTarget(InvalidTarget),
    /// A filesystem operation failed; the text describes the cause.
    IoFailure(String),
}

/// What an `AppError` stands for.
pub enum AppErrorView {
    NotFound(Seq<char>),
    AlreadyManaged(Seq<char>),
    Blocked(Seq<char>),
    InvalidTarget(InvalidTarget),
    IoFailure(Seq<char>),
}

impl View for AppError {
    type V = AppErrorView;

    open spec fn view(&self) -> AppErrorView {
        match self {
            AppError::NotFound(reference) => AppErrorView::NotFound(reference@),
            AppError::AlreadyManaged(target) => AppErrorView::AlreadyManaged(target@),
            AppError::Blocked(target) => AppErrorView::Blocked(target@),
            AppError::InvalidTarget(reason) => AppErrorView::InvalidTarget(*reason),
            AppError::IoFailure(cause) => AppErrorView::IoFailure(cause@),
        }
    }
}

impl InvalidTarget {
    /// The reason in words.
    pub open spec fn text(self) -> Seq<char> {
        match self {
            InvalidTarget::InStore => "Target cannot be in store path."@,
            InvalidTarget::OutsideHome => "Target must be in the home directory."@,
            InvalidTarget::NotDotfile => "Target must be a dotfile."@,
        }
    }

    /// The reason in words.
    pub fn message(&self) -> (r: String)
        ensures
            r@ == self.text(),
    {
        match self {
            InvalidTarget::InStore => String::from_str("Target cannot be in store path."),
            InvalidTarget::OutsideHome => String::from_str("Target must be in the home directory."),
            InvalidTarget::NotDotfile => String::from_str("Target must be a dotfile."),
        }
    }
}

impl AppErrorView {
    /// The error in words: a sentence about the path, or the cause itself.
    pub open spec fn text(self) -> Seq<char> {
        match self {
            AppErrorView::NotFound(reference) => "Path `"@ + reference
                + "` is not a dotfile of the store."@,
            AppErrorView::AlreadyManaged(target) => "Target `"@ + target
                + "` is already managed."@,
            AppErrorView::Blocked(target) => "Target `"@ + target
                + "` is blocked by an existing file."@,
            AppErrorView::InvalidTarget(reason) => reason.text(),
            AppErrorView::IoFailure(cause) => cause,
        }
    }
}

impl AppError {
    /// The error in words.
    pub fn message(&self) -> (r: String)
        ensures
            r@ == self@.text(),
    {
        match self {
            AppError::NotFound(reference) => quoted(
                "Path `",
                reference.as_str(),
                "` is not a dotfile of the store.",
            ),
            AppError::AlreadyManaged(target) => quoted(
                "Target `",
                target.as_str(),
                "` is already managed.",
            ),
            AppError::Blocked(target) => quoted(
                "Target `",
                target.as_str(),
                "` is blocked by an existing file.",
            ),
            AppError::InvalidTarget(reason) => reason.message(),
            AppError::IoFailure(cause) => cause.clone(),
        }
    }
}

fn quoted(before: &str, path: &str, after: &str) -> (r: String)
    ensures
        r@ == before@ + path@ + after@,
{
    let mut text = String::from_str(before);
    text.append(path);
    text.append(after);
    text
}

} // verus!
