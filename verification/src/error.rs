//! Error classes. Every user-facing failure is one of these, and each maps to
//! a stable exit code so that agents driving the command line can branch on
//! the outcome without parsing prose.

use vstd::prelude::*;

use crate::text::opt_view;

verus! {

/// Logical error categories.
#[derive(Debug, Clone, Copy, PartialEq, Eq, Structural)]
pub enum ErrorClass {
    UsageError,
    RepositoryError,
    SessionError,
    NetworkError,
    ProtocolError,
    ConflictError,
    GitError,
    IntegrityError,
    UnsupportedError,
    PersistenceError,
}

impl ErrorClass {
    /// The exit code a class stands for.
    pub open spec fn code(self) -> i32 {
        match self {
            ErrorClass::UsageError => 2,
            ErrorClass::RepositoryError => 3,
            ErrorClass::SessionError => 4,
            ErrorClass::NetworkError => 5,
            ErrorClass::ProtocolError => 6,
            ErrorClass::ConflictError => 7,
            ErrorClass::GitError => 8,
            ErrorClass::IntegrityError => 9,
            ErrorClass::UnsupportedError => 10,
            ErrorClass::PersistenceError => 11,
        }
    }

    /// The name a class goes by.
    pub open spec fn name(self) -> Seq<char> {
        match self {
            ErrorClass::UsageError => "UsageError"@,
            ErrorClass::RepositoryError => "RepositoryError"@,
            ErrorClass::SessionError => "SessionError"@,
            ErrorClass::NetworkError => "NetworkError"@,
            ErrorClass::ProtocolError => "ProtocolError"@,
            ErrorClass::ConflictError => "ConflictError"@,
            ErrorClass::GitError => "GitError"@,
            ErrorClass::IntegrityError => "IntegrityError"@,
            ErrorClass::UnsupportedError => "UnsupportedError"@,
            ErrorClass::PersistenceError => "PersistenceError"@,
        }
    }

    /// Stable process exit code for this class.
    pub fn exit_code(self) -> (code: i32)
        ensures
            code == self.code(),
    {
        match self {
            ErrorClass::UsageError => 2,
            ErrorClass::RepositoryError => 3,
            ErrorClass::SessionError => 4,
            ErrorClass::NetworkError => 5,
            ErrorClass::ProtocolError => 6,
            ErrorClass::ConflictError => 7,
            ErrorClass::GitError => 8,
            ErrorClass::IntegrityError => 9,
            ErrorClass::UnsupportedError => 10,
            ErrorClass::PersistenceError => 11,
        }
    }

    pub fn as_str(self) -> (name: &'static str)
        ensures
            name@ == self.name(),
    {
        match self {
            ErrorClass::UsageError => "UsageError",
            ErrorClass::RepositoryError => "RepositoryError",
            ErrorClass::SessionError => "SessionError",
            ErrorClass::NetworkError => "NetworkError",
            ErrorClass::ProtocolError => "ProtocolError",
            ErrorClass::ConflictError => "ConflictError",
            ErrorClass::GitError => "GitError",
            ErrorClass::IntegrityError => "IntegrityError",
            ErrorClass::UnsupportedError => "UnsupportedError",
            ErrorClass::PersistenceError => "PersistenceError",
        }
    }
}

/// An error's content as plain sequences.
pub struct ErrorView {
    pub class: ErrorClass,
    pub message: Seq<char>,
    pub detail: Option<Seq<char>>,
}

/// A Weave error: a class, a headline, and optional actionable detail.
#[derive(Debug)]
pub struct WeaveError {
    pub class: ErrorClass,
    pub message: String,
    pub detail: Option<String>,
}

impl View for WeaveError {
    type V = ErrorView;

    open spec fn view(&self) -> ErrorView {
        ErrorView { class: self.class, message: self.message@, detail: opt_view(self.detail) }
    }
}

impl Clone for WeaveError {
    fn clone(&self) -> (copy: WeaveError)
        ensures
            copy == *self,
    {
        WeaveError {
            class: self.class,
            message: self.message.clone(),
            detail: match &self.detail {
                Some(d) => Some(d.clone()),
                None => None,
            },
        }
    }
}

impl WeaveError {
    pub fn new(class: ErrorClass, message: String) -> (e: WeaveError)
        ensures
            e == (WeaveError { class, message, detail: None }),
    {
        WeaveError { class, message, detail: None }
    }

    pub fn with_detail(self, detail: String) -> (e: WeaveError)
        ensures
            e == (WeaveError { class: self.class, message: self.message, detail: Some(detail) }),
    {
        WeaveError { class: self.class, message: self.message, detail: Some(detail) }
    }

    pub fn exit_code(&self) -> (code: i32)
        ensures
            code == self.class.code(),
    {
        self.class.exit_code()
    }

    /// The error as a person reads it: the headline, then the detail after a
    /// blank line.
    pub fn display(&self) -> (text: String)
        ensures
            text@ == match self.detail {
                Some(d) => self.message@ + "\n\n"@ + d@,
                None => self.message@,
            },
    {
        let mut out = self.message.clone();
        if let Some(d) = &self.detail {
            out.push_str("\n\n");
            out.push_str(d.as_str());
        }
        out
    }
}

pub type Result<T> = std::result::Result<T, WeaveError>;

/// What an error of `class` with headline `message` and no detail looks like.
pub open spec fn plain(class: ErrorClass, message: Seq<char>) -> ErrorView {
    ErrorView { class, message, detail: None }
}

/// What an error of `class` with a headline and a detail looks like.
pub open spec fn detailed(class: ErrorClass, message: Seq<char>, detail: Seq<char>) -> ErrorView {
    ErrorView { class, message, detail: Some(detail) }
}

pub fn usage(message: &str) -> (e: WeaveError)
    ensures
        e@ == plain(ErrorClass::UsageError, message@),
{
    WeaveError::new(ErrorClass::UsageError, message.to_owned())
}

pub fn repository(message: &str) -> (e: WeaveError)
    ensures
        e@ == plain(ErrorClass::RepositoryError, message@),
{
    WeaveError::new(ErrorClass::RepositoryError, message.to_owned())
}

pub fn session(message: &str) -> (e: WeaveError)
    ensures
        e@ == plain(ErrorClass::SessionError, message@),
{
    WeaveError::new(ErrorClass::SessionError, message.to_owned())
}

pub fn network(message: &str) -> (e: WeaveError)
    ensures
        e@ == plain(ErrorClass::NetworkError, message@),
{
    WeaveError::new(ErrorClass::NetworkError, message.to_owned())
}

pub fn protocol(message: &str) -> (e: WeaveError)
    ensures
        e@ == plain(ErrorClass::ProtocolError, message@),
{
    WeaveError::new(ErrorClass::ProtocolError, message.to_owned())
}

pub fn conflict(message: &str) -> (e: WeaveError)
    ensures
        e@ == plain(ErrorClass::ConflictError, message@),
{
    WeaveError::new(ErrorClass::ConflictError, message.to_owned())
}

pub fn git(message: &str) -> (e: WeaveError)
    ensures
        e@ == plain(ErrorClass::GitError, message@),
{
    WeaveError::new(ErrorClass::GitError, message.to_owned())
}

pub fn integrity(message: &str) -> (e: WeaveError)
    ensures
        e@ == plain(ErrorClass::IntegrityError, message@),
{
    WeaveError::new(ErrorClass::IntegrityError, message.to_owned())
}

pub fn unsupported(message: &str) -> (e: WeaveError)
    ensures
        e@ == plain(ErrorClass::UnsupportedError, message@),
{
    WeaveError::new(ErrorClass::UnsupportedError, message.to_owned())
}

pub fn persistence(message: &str) -> (e: WeaveError)
    ensures
        e@ == plain(ErrorClass::PersistenceError, message@),
{
    WeaveError::new(ErrorClass::PersistenceError, message.to_owned())
}

/// Distinct classes never share an exit code, and none of them is success.
pub proof fn exit_codes_identify_the_class(a: ErrorClass, b: ErrorClass)
    ensures
        a.code() == b.code() ==> a == b,
        a.code() != 0,
{
}

} // verus!
