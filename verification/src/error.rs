//! What can be wrong with a config.
use crate::number::{decimal, decimal_of, NumberError};
use vstd::prelude::*;

verus! {

#[derive(Debug)]
pub enum Error {
    /// A line is no header and has no `=`.
    NotKeyValue { line: usize, text: String },
    /// A pair stands before the first header.
    BeforeHeader { line: usize },
    UnknownBlock { name: String },
    UnknownAppKind { app: String, value: String },
    UnknownAppKey { app: String, key: String },
    AppWithoutName,
    AppWithoutCommand { app: String },
    WebAppWithoutUrl { app: String },
    UnknownKillKey { key: String },
    KillWithoutPattern,
    UnknownTextKey { key: String },
    TextWithoutTarget,
    TextWithoutCommands { target: String },
    UnknownRefreshAction { value: String },
    UnknownRefreshKey { key: String },
    RefreshWithoutTarget,
    RefreshWithoutAfter { target: String },
    UnknownRerunKey { key: String },
    RerunWithoutAfter,
    /// A text command has no `:`.
    CommandWithoutKind { segment: String },
    UnknownCommand { kind: String },
    UnknownUnit { duration: String },
    InvalidBool { value: String },
    Number { error: NumberError },
    /// No app has the name that a text entry or a timer is for.
    UnknownTarget { name: String },
    EmptyVariableName,
    InvalidVariableName { name: String },
}

#[verifier::ext_equal]
pub enum ErrorView {
    NotKeyValue { line: usize, text: Seq<char> },
    BeforeHeader { line: usize },
    UnknownBlock { name: Seq<char> },
    UnknownAppKind { app: Seq<char>, value: Seq<char> },
    UnknownAppKey { app: Seq<char>, key: Seq<char> },
    AppWithoutName,
    AppWithoutCommand { app: Seq<char> },
    WebAppWithoutUrl { app: Seq<char> },
    UnknownKillKey { key: Seq<char> },
    KillWithoutPattern,
    UnknownTextKey { key: Seq<char> },
    TextWithoutTarget,
    TextWithoutCommands { target: Seq<char> },
    UnknownRefreshAction { value: Seq<char> },
    UnknownRefreshKey { key: Seq<char> },
    RefreshWithoutTarget,
    RefreshWithoutAfter { target: Seq<char> },
    UnknownRerunKey { key: Seq<char> },
    RerunWithoutAfter,
    CommandWithoutKind { segment: Seq<char> },
    UnknownCommand { kind: Seq<char> },
    UnknownUnit { duration: Seq<char> },
    InvalidBool { value: Seq<char> },
    Number { error: NumberError },
    UnknownTarget { name: Seq<char> },
    EmptyVariableName,
    InvalidVariableName { name: Seq<char> },
}

impl DeepView for Error {
    type V = ErrorView;

    open spec fn deep_view(&self) -> ErrorView {
        match self {
            Error::NotKeyValue { line, text } => ErrorView::NotKeyValue { line: *line, text: text@ },
            Error::BeforeHeader { line } => ErrorView::BeforeHeader { line: *line },
            Error::UnknownBlock { name } => ErrorView::UnknownBlock { name: name@ },
            Error::UnknownAppKind { app, value } => ErrorView::UnknownAppKind {
                app: app@,
                value: value@,
            },
            Error::UnknownAppKey { app, key } => ErrorView::UnknownAppKey { app: app@, key: key@ },
            Error::AppWithoutName => ErrorView::AppWithoutName,
            Error::AppWithoutCommand { app } => ErrorView::AppWithoutCommand { app: app@ },
            Error::WebAppWithoutUrl { app } => ErrorView::WebAppWithoutUrl { app: app@ },
            Error::UnknownKillKey { key } => ErrorView::UnknownKillKey { key: key@ },
            Error::KillWithoutPattern => ErrorView::KillWithoutPattern,
            Error::UnknownTextKey { key } => ErrorView::UnknownTextKey { key: key@ },
            Error::TextWithoutTarget => ErrorView::TextWithoutTarget,
            Error::TextWithoutCommands { target } => ErrorView::TextWithoutCommands {
                target: target@,
            },
            Error::UnknownRefreshAction { value } => ErrorView::UnknownRefreshAction {
                value: value@,
            },
            Error::UnknownRefreshKey { key } => ErrorView::UnknownRefreshKey { key: key@ },
            Error::RefreshWithoutTarget => ErrorView::RefreshWithoutTarget,
            Error::RefreshWithoutAfter { target } => ErrorView::RefreshWithoutAfter {
                target: target@,
            },
            Error::UnknownRerunKey { key } => ErrorView::UnknownRerunKey { key: key@ },
            Error::RerunWithoutAfter => ErrorView::RerunWithoutAfter,
            Error::CommandWithoutKind { segment } => ErrorView::CommandWithoutKind {
                segment: segment@,
            },
            Error::UnknownCommand { kind } => ErrorView::UnknownCommand { kind: kind@ },
            Error::UnknownUnit { duration } => ErrorView::UnknownUnit { duration: duration@ },
            Error::InvalidBool { value } => ErrorView::InvalidBool { value: value@ },
            Error::Number { error } => ErrorView::Number { error: *error },
            Error::UnknownTarget { name } => ErrorView::UnknownTarget { name: name@ },
            Error::EmptyVariableName => ErrorView::EmptyVariableName,
            Error::InvalidVariableName { name } => ErrorView::InvalidVariableName { name: name@ },
        }
    }
}

/// A result with its value and its error seen as mathematical values.
pub open spec fn outcome<T: DeepView>(r: Result<T, Error>) -> Result<T::V, ErrorView> {
    match r {
        Ok(value) => Ok(value.deep_view()),
        Err(error) => Err(error.deep_view()),
    }
}

impl NumberError {
    pub open spec fn text(self) -> Seq<char> {
        match self {
            NumberError::Empty => "cannot parse integer from empty string"@,
            NumberError::InvalidDigit => "invalid digit found in string"@,
            NumberError::TooLarge => "number too large to fit in target type"@,
        }
    }
}

impl ErrorView {
    /// The message that tells a user of the error.
    pub open spec fn text(self) -> Seq<char> {
        match self {
            ErrorView::NotKeyValue { line, text } => "line "@ + decimal_of(line as nat)
                + " is not key=value: "@ + text,
            ErrorView::BeforeHeader { line } => "line "@ + decimal_of(line as nat)
                + " appears before a block header"@,
            ErrorView::UnknownBlock { name } => "unknown block ["@ + name + "]"@,
            ErrorView::UnknownAppKind { app, value } => "unknown app kind for "@ + app + ": "@
                + value,
            ErrorView::UnknownAppKey { app, key } => "unknown app key for "@ + app + ": "@ + key,
            ErrorView::AppWithoutName => "[app] requires name"@,
            ErrorView::AppWithoutCommand { app } => "app "@ + app + " requires command"@,
            ErrorView::WebAppWithoutUrl { app } => "web app "@ + app + " requires url"@,
            ErrorView::UnknownKillKey { key } => "unknown kill key: "@ + key,
            ErrorView::KillWithoutPattern => "[kill] requires pattern"@,
            ErrorView::UnknownTextKey { key } => "unknown text key: "@ + key,
            ErrorView::TextWithoutTarget => "[text] requires target"@,
            ErrorView::TextWithoutCommands { target } => "text entry for "@ + target
                + " requires commands"@,
            ErrorView::UnknownRefreshAction { value } => "unknown refresh action: "@ + value,
            ErrorView::UnknownRefreshKey { key } => "unknown refresh key: "@ + key,
            ErrorView::RefreshWithoutTarget => "[refresh] requires target"@,
            ErrorView::RefreshWithoutAfter { target } => "refresh for "@ + target
                + " requires after"@,
            ErrorView::UnknownRerunKey { key } => "unknown rerun key: "@ + key,
            ErrorView::RerunWithoutAfter => "[rerun] requires after"@,
            ErrorView::CommandWithoutKind { segment } => "text command must be kind:value: "@
                + segment,
            ErrorView::UnknownCommand { kind } => "unknown text command: "@ + kind,
            ErrorView::UnknownUnit { duration } => "unsupported duration unit: "@ + duration,
            ErrorView::InvalidBool { value } => "invalid bool: "@ + value,
            ErrorView::Number { error } => error.text(),
            ErrorView::UnknownTarget { name } => "unknown app target: "@ + name,
            ErrorView::EmptyVariableName => "empty environment variable name"@,
            ErrorView::InvalidVariableName { name } => "invalid environment variable name: "@
                + name,
        }
    }
}

impl NumberError {
    pub fn message(&self) -> (s: String)
        ensures
            s@ == self.text(),
    {
        let text = match self {
            NumberError::Empty => "cannot parse integer from empty string",
            NumberError::InvalidDigit => "invalid digit found in string",
            NumberError::TooLarge => "number too large to fit in target type",
        };
        text.to_owned()
    }
}

impl Error {
    pub fn message(&self) -> (s: String)
        ensures
            s@ == self.deep_view().text(),
    {
        match self {
            Error::NotKeyValue { line, text } => "line ".to_owned().concat(&decimal(*line as u64)).concat(
                " is not key=value: ",
            ).concat(text),
            Error::BeforeHeader { line } => "line ".to_owned().concat(&decimal(*line as u64)).concat(
                " appears before a block header",
            ),
            Error::UnknownBlock { name } => "unknown block [".to_owned().concat(name).concat("]"),
            Error::UnknownAppKind { app, value } => "unknown app kind for ".to_owned().concat(
                app,
            ).concat(": ").concat(value),
            Error::UnknownAppKey { app, key } => "unknown app key for ".to_owned().concat(
                app,
            ).concat(": ").concat(key),
            Error::AppWithoutName => "[app] requires name".to_owned(),
            Error::AppWithoutCommand { app } => "app ".to_owned().concat(app).concat(
                " requires command",
            ),
            Error::WebAppWithoutUrl { app } => "web app ".to_owned().concat(app).concat(
                " requires url",
            ),
            Error::UnknownKillKey { key } => "unknown kill key: ".to_owned().concat(key),
            Error::KillWithoutPattern => "[kill] requires pattern".to_owned(),
            Error::UnknownTextKey { key } => "unknown text key: ".to_owned().concat(key),
            Error::TextWithoutTarget => "[text] requires target".to_owned(),
            Error::TextWithoutCommands { target } => "text entry for ".to_owned().concat(
                target,
            ).concat(" requires commands"),
            Error::UnknownRefreshAction { value } => "unknown refresh action: ".to_owned().concat(
                value,
            ),
            Error::UnknownRefreshKey { key } => "unknown refresh key: ".to_owned().concat(key),
            Error::RefreshWithoutTarget => "[refresh] requires target".to_owned(),
            Error::RefreshWithoutAfter { target } => "refresh for ".to_owned().concat(
                target,
            ).concat(" requires after"),
            Error::UnknownRerunKey { key } => "unknown rerun key: ".to_owned().concat(key),
            Error::RerunWithoutAfter => "[rerun] requires after".to_owned(),
            Error::CommandWithoutKind { segment } => "text command must be kind:value: ".to_owned().concat(
            segment),
            Error::UnknownCommand { kind } => "unknown text command: ".to_owned().concat(kind),
            Error::UnknownUnit { duration } => "unsupported duration unit: ".to_owned().concat(
                duration,
            ),
            Error::InvalidBool { value } => "invalid bool: ".to_owned().concat(value),
            Error::Number { error } => error.message(),
            Error::UnknownTarget { name } => "unknown app target: ".to_owned().concat(name),
            Error::EmptyVariableName => "empty environment variable name".to_owned(),
            Error::InvalidVariableName { name } => "invalid environment variable name: ".to_owned().concat(
            name),
        }
    }
}

/// Every message names what it is about: the line with its number, and the app, the key or the value
/// as it was written, whatever they are.
pub proof fn law_messages(n: usize, a: Seq<char>, b: Seq<char>)
    ensures
        (ErrorView::NotKeyValue { line: n, text: a }).text() == "line "@ + decimal_of(n as nat)
            + " is not key=value: "@ + a,
        (ErrorView::BeforeHeader { line: n }).text() == "line "@ + decimal_of(n as nat)
            + " appears before a block header"@,
        (ErrorView::UnknownBlock { name: a }).text() == "unknown block ["@ + a + "]"@,
        (ErrorView::UnknownAppKind { app: a, value: b }).text() == "unknown app kind for "@ + a
            + ": "@ + b,
        (ErrorView::UnknownAppKey { app: a, key: b }).text() == "unknown app key for "@ + a + ": "@
            + b,
        ErrorView::AppWithoutName.text() == "[app] requires name"@,
        (ErrorView::AppWithoutCommand { app: a }).text() == "app "@ + a + " requires command"@,
        (ErrorView::WebAppWithoutUrl { app: a }).text() == "web app "@ + a + " requires url"@,
        (ErrorView::UnknownKillKey { key: a }).text() == "unknown kill key: "@ + a,
        ErrorView::KillWithoutPattern.text() == "[kill] requires pattern"@,
        (ErrorView::UnknownTextKey { key: a }).text() == "unknown text key: "@ + a,
        ErrorView::TextWithoutTarget.text() == "[text] requires target"@,
        (ErrorView::TextWithoutCommands { target: a }).text() == "text entry for "@ + a
            + " requires commands"@,
        (ErrorView::UnknownRefreshAction { value: a }).text() == "unknown refresh action: "@ + a,
        (ErrorView::UnknownRefreshKey { key: a }).text() == "unknown refresh key: "@ + a,
        ErrorView::RefreshWithoutTarget.text() == "[refresh] requires target"@,
        (ErrorView::RefreshWithoutAfter { target: a }).text() == "refresh for "@ + a
            + " requires after"@,
        (ErrorView::UnknownRerunKey { key: a }).text() == "unknown rerun key: "@ + a,
        ErrorView::RerunWithoutAfter.text() == "[rerun] requires after"@,
        (ErrorView::CommandWithoutKind { segment: a }).text() == "text command must be kind:value: "@
            + a,
        (ErrorView::UnknownCommand { kind: a }).text() == "unknown text command: "@ + a,
        (ErrorView::UnknownUnit { duration: a }).text() == "unsupported duration unit: "@ + a,
        (ErrorView::InvalidBool { value: a }).text() == "invalid bool: "@ + a,
        (ErrorView::Number { error: NumberError::Empty }).text()
            == "cannot parse integer from empty string"@,
        (ErrorView::Number { error: NumberError::InvalidDigit }).text()
            == "invalid digit found in string"@,
        (ErrorView::Number { error: NumberError::TooLarge }).text()
            == "number too large to fit in target type"@,
        (ErrorView::UnknownTarget { name: a }).text() == "unknown app target: "@ + a,
        ErrorView::EmptyVariableName.text() == "empty environment variable name"@,
        (ErrorView::InvalidVariableName { name: a }).text() == "invalid environment variable name: "@
            + a,
{
}

} // verus!
