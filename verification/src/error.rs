//! The error type shared by every operation of the library.

use vstd::prelude::*;
use vstd::string::*;

verus! {

/// Everything that can go wrong while creating a project.
///
/// Payloads are plain text: the project or template name, or the message of
/// the underlying failure.
#[derive(Debug, Clone, PartialEq, Eq)]
pub enum ProconError {
    /// The destination of the new project is already present.
    ProjectExists(String),
    /// An operation was attempted outside a project directory.
    ProjectNotFound,
    /// No template of that name, or a template lacking a required file.
    TemplateNotFound(String),
    /// The project could not be created, with the reason.
    ProjectCreationFailed(String),
    /// A configuration key or value was not accepted.
    ConfigError(String),
    /// A filesystem operation failed, with its message.
    Io(String),
    /// A configuration file could not be parsed, with the parser's message.
    TomlParse(String),
    /// A configuration could not be serialized, with the serializer's message.
    TomlSerialize(String),
}

/// The mathematical value of a [`ProconError`]: the same variants over
/// character sequences.
pub enum ErrorView {
    ProjectExists(Seq<char>),
    ProjectNotFound,
    TemplateNotFound(Seq<char>),
    ProjectCreationFailed(Seq<char>),
    ConfigError(Seq<char>),
    Io(Seq<char>),
    TomlParse(Seq<char>),
    TomlSerialize(Seq<char>),
}

impl View for ProconError {
    type V = ErrorView;

    open spec fn view(&self) -> ErrorView {
        match *self {
            ProconError::ProjectExists(name) => ErrorView::ProjectExists(name@),
            ProconError::ProjectNotFound => ErrorView::ProjectNotFound,
            ProconError::TemplateNotFound(name) => ErrorView::TemplateNotFound(name@),
            ProconError::ProjectCreationFailed(reason) => ErrorView::ProjectCreationFailed(reason@),
            ProconError::ConfigError(reason) => ErrorView::ConfigError(reason@),
            ProconError::Io(reason) => ErrorView::Io(reason@),
            ProconError::TomlParse(reason) => ErrorView::TomlParse(reason@),
            ProconError::TomlSerialize(reason) => ErrorView::TomlSerialize(reason@),
        }
    }
}

impl ErrorView {
    /// The text shown to the user for this error.
    pub open spec fn message(self) -> Seq<char> {
        match self {
            ErrorView::ProjectExists(name) => "Project '"@ + name + "' already exists"@,
            ErrorView::ProjectNotFound => "Project directory not found"@,
            ErrorView::TemplateNotFound(name) => "Template '"@ + name + "' not found"@,
            ErrorView::ProjectCreationFailed(reason) => "Failed to create project: "@ + reason,
            ErrorView::ConfigError(reason) => "Configuration error: "@ + reason,
            ErrorView::Io(reason) => "IO error: "@ + reason,
            ErrorView::TomlParse(reason) => "TOML parse error: "@ + reason,
            ErrorView::TomlSerialize(reason) => "TOML serialize error: "@ + reason,
        }
    }
}

/// Makes `std::io::Error` known to the verifier as a type of which nothing
/// is seen: a value is only handed on.
#[verifier::external_type_specification]
#[verifier::external_body]
pub struct ExIoError(std::io::Error);

/// The message of `error` as the `Display` impl of `std::io::Error` writes
/// it. Taken on trust: the call returns. What the message says is up to the
/// error and the operating system, so nothing is claimed of it.
#[verifier::external_body]
fn io_error_text(error: &std::io::Error) -> (text: String) {
    format!("{}", error)
}

impl From<std::io::Error> for ProconError {
    /// An I/O failure becomes the `Io` variant with the failure's message.
    fn from(error: std::io::Error) -> (converted: ProconError)
        ensures
            converted is Io,
    {
        ProconError::Io(io_error_text(&error))
    }
}

/// The conversion is no function of what the verifier sees of an I/O error,
/// so it has no specification beyond the clause on `from`.
impl vstd::std_specs::convert::FromSpecImpl<std::io::Error> for ProconError {
    open spec fn obeys_from_spec() -> bool {
        false
    }

    open spec fn from_spec(error: std::io::Error) -> ProconError {
        arbitrary()
    }
}

impl ProconError {
    /// The text shown to the user for this error.
    pub fn message(&self) -> (text: String)
        ensures
            text@ == self@.message(),
    {
        match self {
            ProconError::ProjectExists(name) => {
                String::from_str("Project '").concat(name.as_str()).concat("' already exists")
            },
            ProconError::ProjectNotFound => String::from_str("Project directory not found"),
            ProconError::TemplateNotFound(name) => {
                String::from_str("Template '").concat(name.as_str()).concat("' not found")
            },
            ProconError::ProjectCreationFailed(reason) => {
                String::from_str("Failed to create project: ").concat(reason.as_str())
            },
            ProconError::ConfigError(reason) => {
                String::from_str("Configuration error: ").concat(reason.as_str())
            },
            ProconError::Io(reason) => String::from_str("IO error: ").concat(reason.as_str()),
            ProconError::TomlParse(reason) => {
                String::from_str("TOML parse error: ").concat(reason.as_str())
            },
            ProconError::TomlSerialize(reason) => {
                String::from_str("TOML serialize error: ").concat(reason.as_str())
            },
        }
    }
}

} // verus!
