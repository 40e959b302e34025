//! The error type every stage of the pipeline reports with.
use vstd::prelude::*;
use vstd::string::*;

verus! {

/// The stage or resource an error came from.
#[derive(Clone, Copy, Debug, PartialEq, Eq, Structural)]
pub enum ErrorKind {
    Syntax,
    Semantic,
    Type,
    Dependency,
    Bytecode,
    Io,
    Toml,
}

/// An error with its kind and a message for the user.
#[derive(Debug)]
pub enum KujavError {
    Syntax(String),
    Semantic(String),
    Type(String),
    Dependency(String),
    Bytecode(String),
    Io(String),
    Toml(String),
}

/// What a stage of the pipeline gives back.
pub type KujavResult<T> = Result<T, KujavError>;

/// What an error says: its kind and the characters of its message.
pub struct ErrorModel {
    pub kind: ErrorKind,
    pub message: Seq<char>,
}

/// The label that stands between the brackets of a rendered error.
pub open spec fn kind_label(kind: ErrorKind) -> Seq<char> {
    match kind {
        ErrorKind::Syntax => "SyntaxError"@,
        ErrorKind::Semantic => "SemanticError"@,
        ErrorKind::Type => "TypeError"@,
        ErrorKind::Dependency => "DependencyError"@,
        ErrorKind::Bytecode => "BytecodeError"@,
        ErrorKind::Io => "IoError"@,
        ErrorKind::Toml => "TomlError"@,
    }
}

/// The text shown to the user for an error.
pub open spec fn rendered(e: ErrorModel) -> Seq<char> {
    "Error["@ + kind_label(e.kind) + "]:\n"@ + e.message
}

impl View for KujavError {
    type V = ErrorModel;

    open spec fn view(&self) -> ErrorModel {
        match self {
            KujavError::Syntax(m) => ErrorModel { kind: ErrorKind::Syntax, message: m@ },
            KujavError::Semantic(m) => ErrorModel { kind: ErrorKind::Semantic, message: m@ },
            KujavError::Type(m) => ErrorModel { kind: ErrorKind::Type, message: m@ },
            KujavError::Dependency(m) => ErrorModel { kind: ErrorKind::Dependency, message: m@ },
            KujavError::Bytecode(m) => ErrorModel { kind: ErrorKind::Bytecode, message: m@ },
            KujavError::Io(m) => ErrorModel { kind: ErrorKind::Io, message: m@ },
            KujavError::Toml(m) => ErrorModel { kind: ErrorKind::Toml, message: m@ },
        }
    }
}

impl KujavError {
    /// An error of the tokens or the grammar.
    pub fn syntax(msg: &str) -> (e: KujavError)
        ensures
            e@ == (ErrorModel { kind: ErrorKind::Syntax, message: msg@ }),
    {
        KujavError::Syntax(String::from_str(msg))
    }

    /// An error of the names.
    pub fn semantic(msg: &str) -> (e: KujavError)
        ensures
            e@ == (ErrorModel { kind: ErrorKind::Semantic, message: msg@ }),
    {
        KujavError::Semantic(String::from_str(msg))
    }

    /// An error of the types.
    pub fn type_error(msg: &str) -> (e: KujavError)
        ensures
            e@ == (ErrorModel { kind: ErrorKind::Type, message: msg@ }),
    {
        KujavError::Type(String::from_str(msg))
    }

    /// An error of what the project needs from outside.
    pub fn dependency(msg: &str) -> (e: KujavError)
        ensures
            e@ == (ErrorModel { kind: ErrorKind::Dependency, message: msg@ }),
    {
        KujavError::Dependency(String::from_str(msg))
    }

    /// An error of the class file or the archive.
    pub fn bytecode(msg: &str) -> (e: KujavError)
        ensures
            e@ == (ErrorModel { kind: ErrorKind::Bytecode, message: msg@ }),
    {
        KujavError::Bytecode(String::from_str(msg))
    }

    /// An error of input or output.
    pub fn io(msg: &str) -> (e: KujavError)
        ensures
            e@ == (ErrorModel { kind: ErrorKind::Io, message: msg@ }),
    {
        KujavError::Io(String::from_str(msg))
    }

    /// An error of the project configuration.
    pub fn toml(msg: &str) -> (e: KujavError)
        ensures
            e@ == (ErrorModel { kind: ErrorKind::Toml, message: msg@ }),
    {
        KujavError::Toml(String::from_str(msg))
    }

    /// The kind of this error.
    pub fn kind(&self) -> (k: ErrorKind)
        ensures
            k == self@.kind,
    {
        match self {
            KujavError::Syntax(_) => ErrorKind::Syntax,
            KujavError::Semantic(_) => ErrorKind::Semantic,
            KujavError::Type(_) => ErrorKind::Type,
            KujavError::Dependency(_) => ErrorKind::Dependency,
            KujavError::Bytecode(_) => ErrorKind::Bytecode,
            KujavError::Io(_) => ErrorKind::Io,
            KujavError::Toml(_) => ErrorKind::Toml,
        }
    }

    /// The message of this error, without its kind.
    pub fn message(&self) -> (m: &str)
        ensures
            m@ == self@.message,
    {
        match self {
            KujavError::Syntax(m) => m.as_str(),
            KujavError::Semantic(m) => m.as_str(),
            KujavError::Type(m) => m.as_str(),
            KujavError::Dependency(m) => m.as_str(),
            KujavError::Bytecode(m) => m.as_str(),
            KujavError::Io(m) => m.as_str(),
            KujavError::Toml(m) => m.as_str(),
        }
    }

    /// The text shown to the user: the kind between brackets, then the
    /// message on a line of its own.
    pub fn render(&self) -> (s: String)
        ensures
            s@ == rendered(self@),
    {
        let label = match self.kind() {
            ErrorKind::Syntax => "SyntaxError",
            ErrorKind::Semantic => "SemanticError",
            ErrorKind::Type => "TypeError",
            ErrorKind::Dependency => "DependencyError",
            ErrorKind::Bytecode => "BytecodeError",
            ErrorKind::Io => "IoError",
            ErrorKind::Toml => "TomlError",
        };
        let mut s = String::from_str("Error[");
        s.append(label);
        s.append("]:\n");
        s.append(self.message());
        s
    }
}

} // verus!
