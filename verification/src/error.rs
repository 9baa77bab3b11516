//! What can go wrong.
use crate::text;
use vstd::prelude::*;

verus! {

/// An error, with what it is about in words.
#[derive(Debug, Clone)]
pub enum Error {
    Config(String),
    Io(String),
    Toml(String),
    Env(String),
    Database(String),
    LibreNms(String),
    Template(String),
    NotImplemented(String),
    NotFound(String),
    InvalidTransition(String),
    AlreadyExists(String),
    Internal(String),
}

/// The mathematical value of an `Error`.
pub enum ErrorView {
    Config(Seq<char>),
    Io(Seq<char>),
    Toml(Seq<char>),
    Env(Seq<char>),
    Database(Seq<char>),
    LibreNms(Seq<char>),
    Template(Seq<char>),
    NotImplemented(Seq<char>),
    NotFound(Seq<char>),
    InvalidTransition(Seq<char>),
    AlreadyExists(Seq<char>),
    Internal(Seq<char>),
}

impl View for Error {
    type V = ErrorView;

    open spec fn view(&self) -> ErrorView {
        match self {
            Error::Config(m) => ErrorView::Config(m@),
            Error::Io(m) => ErrorView::Io(m@),
            Error::Toml(m) => ErrorView::Toml(m@),
            Error::Env(m) => ErrorView::Env(m@),
            Error::Database(m) => ErrorView::Database(m@),
            Error::LibreNms(m) => ErrorView::LibreNms(m@),
            Error::Template(m) => ErrorView::Template(m@),
            Error::NotImplemented(m) => ErrorView::NotImplemented(m@),
            Error::NotFound(m) => ErrorView::NotFound(m@),
            Error::InvalidTransition(m) => ErrorView::InvalidTransition(m@),
            Error::AlreadyExists(m) => ErrorView::AlreadyExists(m@),
            Error::Internal(m) => ErrorView::Internal(m@),
        }
    }
}

impl ErrorView {
    /// The error in words: its kind, a colon, what it is about.
    pub open spec fn message(self) -> Seq<char> {
        match self {
            ErrorView::Config(m) => "config error: "@ + m,
            ErrorView::Io(m) => "io error: "@ + m,
            ErrorView::Toml(m) => "toml parse error: "@ + m,
            ErrorView::Env(m) => "env var error: "@ + m,
            ErrorView::Database(m) => "database error: "@ + m,
            ErrorView::LibreNms(m) => "librenms api error: "@ + m,
            ErrorView::Template(m) => "template error: "@ + m,
            ErrorView::NotImplemented(m) => "not implemented yet: "@ + m,
            ErrorView::NotFound(m) => "not found: "@ + m,
            ErrorView::InvalidTransition(m) => "invalid state transition: "@ + m,
            ErrorView::AlreadyExists(m) => "already exists: "@ + m,
            ErrorView::Internal(m) => "internal: "@ + m,
        }
    }
}

/// The result of what can fail.
pub type Result<T> = core::result::Result<T, Error>;

impl Error {
    /// The error in words.
    pub fn message(&self) -> (r: String)
        ensures
            r@ == self@.message(),
    {
        match self {
            Error::Config(m) => text::cat2("config error: ", m),
            Error::Io(m) => text::cat2("io error: ", m),
            Error::Toml(m) => text::cat2("toml parse error: ", m),
            Error::Env(m) => text::cat2("env var error: ", m),
            Error::Database(m) => text::cat2("database error: ", m),
            Error::LibreNms(m) => text::cat2("librenms api error: ", m),
            Error::Template(m) => text::cat2("template error: ", m),
            Error::NotImplemented(m) => text::cat2("not implemented yet: ", m),
            Error::NotFound(m) => text::cat2("not found: ", m),
            Error::InvalidTransition(m) => text::cat2("invalid state transition: ", m),
            Error::AlreadyExists(m) => text::cat2("already exists: ", m),
            Error::Internal(m) => text::cat2("internal: ", m),
        }
    }
}

// ---------------------------------------------------------------------------
// Laws
// ---------------------------------------------------------------------------

/// Every error says something.
pub proof fn law_message_says_something(e: ErrorView)
    ensures
        !text::is_blank(e.message()),
{
    reveal_strlit("config error: ");
    reveal_strlit("io error: ");
    reveal_strlit("toml parse error: ");
    reveal_strlit("env var error: ");
    reveal_strlit("database error: ");
    reveal_strlit("librenms api error: ");
    reveal_strlit("template error: ");
    reveal_strlit("not implemented yet: ");
    reveal_strlit("not found: ");
    reveal_strlit("invalid state transition: ");
    reveal_strlit("already exists: ");
    reveal_strlit("internal: ");
    text::lemma_not_blank(e.message());
}

/// An error names its kind in front of what it is about, and nothing behind that.
pub proof fn law_message_names_the_kind(m: Seq<char>)
    ensures
        ErrorView::Config(m).message() == "config error: "@ + m,
        ErrorView::Io(m).message() == "io error: "@ + m,
        ErrorView::Toml(m).message() == "toml parse error: "@ + m,
        ErrorView::Env(m).message() == "env var error: "@ + m,
        ErrorView::Database(m).message() == "database error: "@ + m,
        ErrorView::LibreNms(m).message() == "librenms api error: "@ + m,
        ErrorView::Template(m).message() == "template error: "@ + m,
        ErrorView::NotImplemented(m).message() == "not implemented yet: "@ + m,
        ErrorView::NotFound(m).message() == "not found: "@ + m,
        ErrorView::InvalidTransition(m).message() == "invalid state transition: "@ + m,
        ErrorView::AlreadyExists(m).message() == "already exists: "@ + m,
        ErrorView::Internal(m).message() == "internal: "@ + m,
{
}

/// An error keeps its kind and its words.
pub proof fn law_error_is_seen_whole(m: String)
    ensures
        Error::Config(m)@ == ErrorView::Config(m@),
        Error::Io(m)@ == ErrorView::Io(m@),
        Error::Toml(m)@ == ErrorView::Toml(m@),
        Error::Env(m)@ == ErrorView::Env(m@),
        Error::Database(m)@ == ErrorView::Database(m@),
        Error::LibreNms(m)@ == ErrorView::LibreNms(m@),
        Error::Template(m)@ == ErrorView::Template(m@),
        Error::NotImplemented(m)@ == ErrorView::NotImplemented(m@),
        Error::NotFound(m)@ == ErrorView::NotFound(m@),
        Error::InvalidTransition(m)@ == ErrorView::InvalidTransition(m@),
        Error::AlreadyExists(m)@ == ErrorView::AlreadyExists(m@),
        Error::Internal(m)@ == ErrorView::Internal(m@),
{
}

} // verus!
