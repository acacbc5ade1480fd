use vstd::prelude::*;

verus! {

/// What can go wrong while pulling an image or starting a container.
#[derive(Debug, PartialEq, Eq, Clone)]
pub enum ContainerError {
    /// The transport failed, or the registry answered with a status that
    /// stands for failure.
    Http(String),
    /// The registry answered the first probe with a status other than
    /// 200 and 401.
    UnhandledStatusCode(u16),
    /// A URL of the session could not be built, or the registry's
    /// challenge could not be used.
    Auth(&'static str),
    /// A manifest was decoded but breaks the contract of its media type.
    Manifest(&'static str),
    /// The local file system refused an operation.
    Io(String),
}

/// The mathematical value of a [`ContainerError`]: the same variants, with
/// every text as a sequence of characters.
pub enum ContainerErrorView {
    Http(Seq<char>),
    UnhandledStatusCode(u16),
    Auth(Seq<char>),
    Manifest(Seq<char>),
    Io(Seq<char>),
}

impl View for ContainerError {
    type V = ContainerErrorView;

    open spec fn view(&self) -> ContainerErrorView {
        match *self {
            ContainerError::Http(text) => ContainerErrorView::Http(text@),
            ContainerError::UnhandledStatusCode(code) => ContainerErrorView::UnhandledStatusCode(code),
            ContainerError::Auth(text) => ContainerErrorView::Auth(text@),
            ContainerError::Manifest(text) => ContainerErrorView::Manifest(text@),
            ContainerError::Io(text) => ContainerErrorView::Io(text@),
        }
    }
}

} // verus!
