//! Structured error types for the gglang engine.
use vstd::prelude::*;

verus! {

/// The stage at which something went wrong, with a message for the user.
#[derive(Debug, Clone)]
pub enum GglangError {
    Parse { message: String },
    Compile { message: String },
    Data { message: String },
    Render { message: String },
    Export { message: String },
}

/// The text with which each kind of error introduces its message.
pub open spec fn error_prefix(e: GglangError) -> Seq<char> {
    match e {
        GglangError::Parse { .. } => "Parse error: "@,
        GglangError::Compile { .. } => "Compile error: "@,
        GglangError::Data { .. } => "Data error: "@,
        GglangError::Render { .. } => "Render error: "@,
        GglangError::Export { .. } => "Export error: "@,
    }
}

/// The message that an error carries.
pub open spec fn error_message(e: GglangError) -> Seq<char> {
    match e {
        GglangError::Parse { message } => message@,
        GglangError::Compile { message } => message@,
        GglangError::Data { message } => message@,
        GglangError::Render { message } => message@,
        GglangError::Export { message } => message@,
    }
}

impl GglangError {
    /// The text shown for this error: its kind's prefix, then its message.
    pub fn describe(&self) -> (r: String)
        ensures
            r@ == error_prefix(*self) + error_message(*self),
    {
        let (prefix, message) = match self {
            GglangError::Parse { message } => ("Parse error: ", message),
            GglangError::Compile { message } => ("Compile error: ", message),
            GglangError::Data { message } => ("Data error: ", message),
            GglangError::Render { message } => ("Render error: ", message),
            GglangError::Export { message } => ("Export error: ", message),
        };
        let mut r = prefix.to_owned();
        r.append(message.as_str());
        r
    }
}

/// A parse error with the given message.
pub fn parse_failure(message: &str) -> (e: GglangError)
    ensures
        e is Parse,
        error_message(e) == message@,
{
    GglangError::Parse { message: message.to_owned() }
}

/// A compile error with the given message.
pub fn compile_failure(message: &str) -> (e: GglangError)
    ensures
        e is Compile,
        error_message(e) == message@,
{
    GglangError::Compile { message: message.to_owned() }
}

/// An error of the given message followed by a detail, such as the offending name.
pub fn error_with_detail(kind_parse: bool, message: &str, detail: &str) -> (e: GglangError)
    ensures
        kind_parse ==> e is Parse,
        !kind_parse ==> e is Compile,
        error_message(e) == message@ + detail@,
{
    let mut m = message.to_owned();
    m.append(detail);
    if kind_parse {
        GglangError::Parse { message: m }
    } else {
        GglangError::Compile { message: m }
    }
}

/// A compile error about a theme key: `Theme key '<key>`, the complaint,
/// then a detail (such as the value refused).
pub fn theme_key_error(key: &str, complaint: &str, detail: &str) -> (e: GglangError)
    ensures
        e is Compile,
        error_message(e) == "Theme key '"@ + key@ + complaint@ + detail@,
{
    let mut m = "Theme key '".to_owned();
    m.append(key);
    m.append(complaint);
    m.append(detail);
    GglangError::Compile { message: m }
}

} // verus!
