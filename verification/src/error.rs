//! The errors of the framework.
use vstd::prelude::*;

verus! {

/// What a tool asks to be allowed to do.
#[derive(Debug, Clone, Copy, PartialEq, Eq, Structural)]
pub enum SandboxCapability {
    Read,
    Write,
    Exec,
    Network,
}

/// A refusal by a sandbox.
#[derive(Debug, Clone, PartialEq, Eq)]
pub struct SandboxPermissionDenied {
    pub tool_name: String,
    pub execution_kind: String,
    pub capability: SandboxCapability,
    pub target: String,
    pub diagnostic: String,
}

/// The errors that the framework's parts report.
#[derive(Debug, Clone, PartialEq, Eq)]
pub enum FrameworkError {
    Config(String),
    Provider(String),
    Tool(String),
    Io(String),
    Sandbox(SandboxPermissionDenied),
}

/// What an error says.
pub enum ErrorView {
    Config(Seq<char>),
    Provider(Seq<char>),
    Tool(Seq<char>),
    Io(Seq<char>),
    Sandbox {
        tool_name: Seq<char>,
        execution_kind: Seq<char>,
        capability: SandboxCapability,
        target: Seq<char>,
        diagnostic: Seq<char>,
    },
}

impl View for FrameworkError {
    type V = ErrorView;

    open spec fn view(&self) -> ErrorView {
        match self {
            FrameworkError::Config(message) => ErrorView::Config(message@),
            FrameworkError::Provider(message) => ErrorView::Provider(message@),
            FrameworkError::Tool(message) => ErrorView::Tool(message@),
            FrameworkError::Io(message) => ErrorView::Io(message@),
            FrameworkError::Sandbox(denied) => ErrorView::Sandbox {
                tool_name: denied.tool_name@,
                execution_kind: denied.execution_kind@,
                capability: denied.capability,
                target: denied.target@,
                diagnostic: denied.diagnostic@,
            },
        }
    }
}

impl ErrorView {
    /// The text of the error: its message, or what the sandbox wrote.
    pub open spec fn message(self) -> Seq<char> {
        match self {
            ErrorView::Config(message) => message,
            ErrorView::Provider(message) => message,
            ErrorView::Tool(message) => message,
            ErrorView::Io(message) => message,
            ErrorView::Sandbox { diagnostic, .. } => diagnostic,
        }
    }
}

impl FrameworkError {
    /// The text of the error.
    pub fn message(&self) -> (r: String)
        ensures
            r@ == self@.message(),
    {
        match self {
            FrameworkError::Config(message) => message.clone(),
            FrameworkError::Provider(message) => message.clone(),
            FrameworkError::Tool(message) => message.clone(),
            FrameworkError::Io(message) => message.clone(),
            FrameworkError::Sandbox(denied) => denied.diagnostic.clone(),
        }
    }
}

/// What a result with a text says.
pub open spec fn text_result(r: Result<String, FrameworkError>) -> Result<Seq<char>, ErrorView> {
    match r {
        Ok(value) => Ok(value@),
        Err(error) => Err(error@),
    }
}

/// What a result without a value says.
pub open spec fn unit_result(r: Result<(), FrameworkError>) -> Result<(), ErrorView> {
    match r {
        Ok(_) => Ok(()),
        Err(error) => Err(error@),
    }
}

/// A configuration error with a fixed message.
pub fn config_error(message: &str) -> (r: FrameworkError)
    ensures
        r@ == ErrorView::Config(message@),
{
    FrameworkError::Config(message.to_owned())
}

/// A tool error with a fixed message.
pub fn tool_error(message: &str) -> (r: FrameworkError)
    ensures
        r@ == ErrorView::Tool(message@),
{
    FrameworkError::Tool(message.to_owned())
}

/// An error says what it was made with: the message it was given, or what the sandbox found.
pub proof fn law_errors_say_their_message(message: Seq<char>, error: FrameworkError)
    ensures
        ErrorView::Config(message).message() == message,
        ErrorView::Provider(message).message() == message,
        ErrorView::Tool(message).message() == message,
        ErrorView::Io(message).message() == message,
        error matches FrameworkError::Sandbox(denied) ==> error@.message() == denied.diagnostic@,
        error matches FrameworkError::Tool(given) ==> error@ == ErrorView::Tool(given@),
        error matches FrameworkError::Config(given) ==> error@ == ErrorView::Config(given@),
        error matches FrameworkError::Provider(given) ==> error@ == ErrorView::Provider(given@),
        error matches FrameworkError::Io(given) ==> error@ == ErrorView::Io(given@),
{
}

} // verus!
