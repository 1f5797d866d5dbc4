use vstd::prelude::*;

verus! {

/// Library-wide error type for configuration and synchronisation failures.
#[derive(Debug, PartialEq, Eq)]
pub enum AppError {
    /// User-facing misconfiguration (missing home directory, catalogue
    /// already exists, no local catalogue discoverable, malformed document
    /// shape).
    Config(String),
    /// A required environment variable is not set.
    MissingEnv(String),
    /// An expected file is absent when a non-autocreating read was asked for.
    MissingFile(String),
    /// Out-of-band I/O failure, reported by the caller that did the I/O.
    Io(String),
    /// A JSON document could not be parsed or was not shaped as expected.
    Json(String),
    /// A TOML document could not be parsed.
    Toml(String),
}

impl AppError {
    /// Build a configuration error from a message.
    pub fn config(message: String) -> (r: AppError)
        ensures
            r == AppError::Config(message),
    {
        AppError::Config(message)
    }

    /// Build a missing-file error from a path.
    pub fn missing_file(path: String) -> (r: AppError)
        ensures
            r == AppError::MissingFile(path),
    {
        AppError::MissingFile(path)
    }

    /// One-line description of the error, for callers that print it: a
    /// fixed prefix naming the kind, then the detail.
    pub fn message(&self) -> (r: String)
        ensures
            r@ == match self {
                AppError::Config(m) => "configuration error: "@ + m@,
                AppError::MissingEnv(m) => "environment variable not set: "@ + m@,
                AppError::MissingFile(m) => "expected file not found: "@ + m@,
                AppError::Io(m) => "i/o error: "@ + m@,
                AppError::Json(m) => "json error: "@ + m@,
                AppError::Toml(m) => "toml error: "@ + m@,
            },
    {
        let prefix = match self {
            AppError::Config(_) => "configuration error: ",
            AppError::MissingEnv(_) => "environment variable not set: ",
            AppError::MissingFile(_) => "expected file not found: ",
            AppError::Io(_) => "i/o error: ",
            AppError::Json(_) => "json error: ",
            AppError::Toml(_) => "toml error: ",
        };
        let detail = match self {
            AppError::Config(m) => m,
            AppError::MissingEnv(m) => m,
            AppError::MissingFile(m) => m,
            AppError::Io(m) => m,
            AppError::Json(m) => m,
            AppError::Toml(m) => m,
        };
        let mut out = prefix.to_owned();
        out.append(detail.as_str());
        out
    }
}

} // verus!
