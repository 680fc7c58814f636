//! Errors of loading, parsing and resolving GPML.
use vstd::prelude::*;

verus! {

#[derive(Debug, Clone, PartialEq, Eq)]
pub enum GPMLError {
    ParseError { message: String, line: usize, column: usize },
    FileNotFound { path: String },
    IoError { message: String },
    ComponentNotFound { name: String },
    ImportError { message: String },
    RenderError { message: String },
    InvalidAttributeValue { message: String },
    ParameterMismatch { expected: usize, actual: usize },
    CircularDependency { path: String },
    SyntaxError { message: String },
    TypeError { message: String },
}

pub type GPMLResult<T> = Result<T, GPMLError>;


/// The character of the decimal digit `d`.
pub open spec fn digit_char(d: nat) -> char {
    (48 + d) as char
}

/// The decimal numeral of `n`, without leading zeros.
pub open spec fn decimal(n: nat) -> Seq<char>
    decreases n,
{
    if n < 10 {
        seq![digit_char(n)]
    } else {
        decimal(n / 10).push(digit_char(n % 10))
    }
}

/// The character of a decimal digit.
fn digit_of(d: usize) -> (c: char)
    requires
        d < 10,
    ensures
        c == digit_char(d as nat),
{
    (48u8 + d as u8) as char
}

/// The decimal numeral of `n`.
pub fn decimal_text(n: usize) -> (s: String)
    ensures
        s@ == decimal(n as nat),
{
    let mut m: usize = n;
    let mut acc: Vec<char> = Vec::new();
    assert(decimal(n as nat) =~= decimal(m as nat) + acc@);
    while m >= 10
        invariant
            decimal(n as nat) == decimal(m as nat) + acc@,
        decreases m,
    {
        let c = digit_of(m % 10);
        acc.insert(0, c);
        assert(decimal(m as nat) == decimal((m / 10) as nat).push(c));
        assert(decimal(n as nat) =~= decimal((m / 10) as nat) + acc@);
        m = m / 10;
    }
    let c = digit_of(m);
    acc.insert(0, c);
    assert(decimal(n as nat) =~= acc@);
    crate::text::string_of(acc.as_slice())
}

/// The message of an error.
pub open spec fn error_text(e: GPMLError) -> Seq<char> {
    match e {
        GPMLError::ParseError { message, line, column } => "Parse error: "@ + message@ + " at line "@
            + decimal(line as nat) + ", column "@ + decimal(column as nat),
        GPMLError::FileNotFound { path } => "File not found: "@ + path@,
        GPMLError::IoError { message } => "IO error: "@ + message@,
        GPMLError::ComponentNotFound { name } => "Component '"@ + name@ + "' not found"@,
        GPMLError::ImportError { message } => "Import error: "@ + message@,
        GPMLError::RenderError { message } => "Render error: "@ + message@,
        GPMLError::InvalidAttributeValue { message } => "Invalid attribute value: "@ + message@,
        GPMLError::ParameterMismatch { expected, actual } => "Parameter mismatch: expected "@ + decimal(
            expected as nat,
        ) + ", got "@ + decimal(actual as nat),
        GPMLError::CircularDependency { path } => "Circular dependency detected: "@ + path@,
        GPMLError::SyntaxError { message } => "Syntax error: "@ + message@,
        GPMLError::TypeError { message } => "Type error: "@ + message@,
    }
}

impl GPMLError {
    /// The message of the error, as it is shown to a user.
    pub fn describe(&self) -> (s: String)
        ensures
            s@ == error_text(*self),
    {
        match self {
            GPMLError::ParseError { message, line, column } => {
                let mut s = String::from_str("Parse error: ");
                s.append(message.as_str());
                s.append(" at line ");
                s.append(decimal_text(*line).as_str());
                s.append(", column ");
                s.append(decimal_text(*column).as_str());
                s
            },
            GPMLError::FileNotFound { path } => String::from_str("File not found: ").concat(path.as_str()),
            GPMLError::IoError { message } => String::from_str("IO error: ").concat(message.as_str()),
            GPMLError::ComponentNotFound { name } => {
                let s = String::from_str("Component '").concat(name.as_str());
                s.concat("' not found")
            },
            GPMLError::ImportError { message } => String::from_str("Import error: ").concat(message.as_str()),
            GPMLError::RenderError { message } => String::from_str("Render error: ").concat(message.as_str()),
            GPMLError::InvalidAttributeValue { message } => String::from_str("Invalid attribute value: ").concat(
                message.as_str(),
            ),
            GPMLError::ParameterMismatch { expected, actual } => {
                let mut s = String::from_str("Parameter mismatch: expected ");
                s.append(decimal_text(*expected).as_str());
                s.append(", got ");
                s.append(decimal_text(*actual).as_str());
                s
            },
            GPMLError::CircularDependency { path } => String::from_str("Circular dependency detected: ").concat(
                path.as_str(),
            ),
            GPMLError::SyntaxError { message } => String::from_str("Syntax error: ").concat(message.as_str()),
            GPMLError::TypeError { message } => String::from_str("Type error: ").concat(message.as_str()),
        }
    }
}

} // verus!
