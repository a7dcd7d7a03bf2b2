//! The errors of the engine and the text each one is reported with.

use crate::paths::CommandDefPath;
use crate::text::concat;
use vstd::prelude::*;
use vstd::string::*;

verus! {

#[derive(Debug)]
pub enum SmeltErr {
    Unknown,
    /// A filesystem or process operation failed; the text is the cause.
    IoError(String),
    /// The command list could not be parsed; the text is the parser's.
    SerdeYamlError(String),
    CommandCacheMiss,
    BadTargetType(String),
    ExecutorFailed(String),
    MissingCommandDependency { missing_dep_name: String },
    MissingFileDependency { missing_file_name: String },
    CommandSettingFailed { reason: String },
    DuplicateCommandName { name: String },
    DuplicateOutput { output: CommandDefPath },
    BadArtifactName,
    InvalidConfig { reason: String },
}

impl SmeltErr {
    /// The text the error is reported with.
    pub open spec fn message(&self) -> Seq<char> {
        self@.message()
    }

    /// The text the error is reported with.
    pub fn to_string(&self) -> (out: String)
        ensures
            out@ == self.message(),
    {
        match self {
            SmeltErr::Unknown => String::from_str("unknown error"),
            SmeltErr::IoError(cause) => concat("IoError ", cause.as_str()),
            SmeltErr::SerdeYamlError(cause) => concat("Serde yaml error ", cause.as_str()),
            SmeltErr::CommandCacheMiss => String::from_str("Command cache miss"),
            SmeltErr::BadTargetType(given) => concat("Invalid target type ", given.as_str()),
            SmeltErr::ExecutorFailed(cause) => concat(
                "Executor failed to execute with error : ",
                cause.as_str(),
            ),
            SmeltErr::MissingCommandDependency { missing_dep_name } => {
                let mut out = concat("Dependency for a command named ", missing_dep_name.as_str());
                out.append(" was found, but no such command was declared");
                out
            },
            SmeltErr::MissingFileDependency { missing_file_name } => {
                let mut out = concat("Dependency for a command named ", missing_file_name.as_str());
                out.append(" was found, but no such command was declared");
                out
            },
            SmeltErr::CommandSettingFailed { reason } => concat(
                "Setting commands failed; reason is ",
                reason.as_str(),
            ),
            SmeltErr::DuplicateCommandName { name } => {
                let mut out = concat("Two commands with the same name ", name.as_str());
                out.append(" where declared");
                out
            },
            SmeltErr::DuplicateOutput { output } => concat(
                output.0.as_str(),
                " was declared twice!",
            ),
            SmeltErr::BadArtifactName => String::from_str("Artifact name cannot be parsed out"),
            SmeltErr::InvalidConfig { reason } => concat("Invalid configuration: ", reason.as_str()),
        }
    }
}

impl Clone for SmeltErr {
    fn clone(&self) -> (out: Self)
        ensures
            out == *self,
    {
        match self {
            SmeltErr::Unknown => SmeltErr::Unknown,
            SmeltErr::IoError(cause) => SmeltErr::IoError(cause.clone()),
            SmeltErr::SerdeYamlError(cause) => SmeltErr::SerdeYamlError(cause.clone()),
            SmeltErr::CommandCacheMiss => SmeltErr::CommandCacheMiss,
            SmeltErr::BadTargetType(given) => SmeltErr::BadTargetType(given.clone()),
            SmeltErr::ExecutorFailed(cause) => SmeltErr::ExecutorFailed(cause.clone()),
            SmeltErr::MissingCommandDependency { missing_dep_name } =>
                SmeltErr::MissingCommandDependency { missing_dep_name: missing_dep_name.clone() },
            SmeltErr::MissingFileDependency { missing_file_name } =>
                SmeltErr::MissingFileDependency { missing_file_name: missing_file_name.clone() },
            SmeltErr::CommandSettingFailed { reason } => SmeltErr::CommandSettingFailed {
                reason: reason.clone(),
            },
            SmeltErr::DuplicateCommandName { name } => SmeltErr::DuplicateCommandName {
                name: name.clone(),
            },
            SmeltErr::DuplicateOutput { output } => SmeltErr::DuplicateOutput {
                output: output.clone(),
            },
            SmeltErr::BadArtifactName => SmeltErr::BadArtifactName,
            SmeltErr::InvalidConfig { reason } => SmeltErr::InvalidConfig { reason: reason.clone() },
        }
    }
}

/// What a [`SmeltErr`] says, as plain values.
pub enum SmeltErrView {
    Unknown,
    IoError(Seq<char>),
    SerdeYamlError(Seq<char>),
    CommandCacheMiss,
    BadTargetType(Seq<char>),
    ExecutorFailed(Seq<char>),
    MissingCommandDependency { missing_dep_name: Seq<char> },
    MissingFileDependency { missing_file_name: Seq<char> },
    CommandSettingFailed { reason: Seq<char> },
    DuplicateCommandName { name: Seq<char> },
    DuplicateOutput { output: Seq<char> },
    BadArtifactName,
    InvalidConfig { reason: Seq<char> },
}

impl SmeltErrView {
    /// The text the error is reported with.
    pub open spec fn message(self) -> Seq<char> {
        match self {
            SmeltErrView::Unknown => "unknown error"@,
            SmeltErrView::IoError(cause) => "IoError "@ + cause,
            SmeltErrView::SerdeYamlError(cause) => "Serde yaml error "@ + cause,
            SmeltErrView::CommandCacheMiss => "Command cache miss"@,
            SmeltErrView::BadTargetType(given) => "Invalid target type "@ + given,
            SmeltErrView::ExecutorFailed(cause) => "Executor failed to execute with error : "@
                + cause,
            SmeltErrView::MissingCommandDependency { missing_dep_name } =>
                "Dependency for a command named "@ + missing_dep_name
                    + " was found, but no such command was declared"@,
            SmeltErrView::MissingFileDependency { missing_file_name } =>
                "Dependency for a command named "@ + missing_file_name
                    + " was found, but no such command was declared"@,
            SmeltErrView::CommandSettingFailed { reason } => "Setting commands failed; reason is "@
                + reason,
            SmeltErrView::DuplicateCommandName { name } => "Two commands with the same name "@
                + name + " where declared"@,
            SmeltErrView::DuplicateOutput { output } => output + " was declared twice!"@,
            SmeltErrView::BadArtifactName => "Artifact name cannot be parsed out"@,
            SmeltErrView::InvalidConfig { reason } => "Invalid configuration: "@ + reason,
        }
    }
}

impl DeepView for SmeltErr {
    type V = SmeltErrView;

    open spec fn deep_view(&self) -> SmeltErrView {
        match self {
            SmeltErr::Unknown => SmeltErrView::Unknown,
            SmeltErr::IoError(cause) => SmeltErrView::IoError(cause@),
            SmeltErr::SerdeYamlError(cause) => SmeltErrView::SerdeYamlError(cause@),
            SmeltErr::CommandCacheMiss => SmeltErrView::CommandCacheMiss,
            SmeltErr::BadTargetType(given) => SmeltErrView::BadTargetType(given@),
            SmeltErr::ExecutorFailed(cause) => SmeltErrView::ExecutorFailed(cause@),
            SmeltErr::MissingCommandDependency { missing_dep_name } =>
                SmeltErrView::MissingCommandDependency { missing_dep_name: missing_dep_name@ },
            SmeltErr::MissingFileDependency { missing_file_name } =>
                SmeltErrView::MissingFileDependency { missing_file_name: missing_file_name@ },
            SmeltErr::CommandSettingFailed { reason } => SmeltErrView::CommandSettingFailed {
                reason: reason@,
            },
            SmeltErr::DuplicateCommandName { name } => SmeltErrView::DuplicateCommandName {
                name: name@,
            },
            SmeltErr::DuplicateOutput { output } => SmeltErrView::DuplicateOutput {
                output: output@,
            },
            SmeltErr::BadArtifactName => SmeltErrView::BadArtifactName,
            SmeltErr::InvalidConfig { reason } => SmeltErrView::InvalidConfig { reason: reason@ },
        }
    }
}

impl View for SmeltErr {
    type V = SmeltErrView;

    open spec fn view(&self) -> SmeltErrView {
        self.deep_view()
    }
}

} // verus!
