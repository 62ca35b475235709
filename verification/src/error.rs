//! What can go wrong: a configuration that is refused before anything
//! starts, and a port that cannot be opened.

use vstd::prelude::*;
use vstd::string::*;

verus! {

/// The options of the command line that take a value.
#[derive(Clone, Copy, Debug, PartialEq, Eq, Structural)]
pub enum Flag {
    /// `-d`, `--directory`: where the output store is put.
    Directory,
    /// `-b`, `--default-baud`: the baud rate of ports that name none.
    DefaultBaud,
    /// `-p`, `--port`: a port to read from.
    Port,
}

/// The long name of a flag, as messages give it.
pub open spec fn flag_name(flag: Flag) -> Seq<char> {
    match flag {
        Flag::Directory => "--directory"@,
        Flag::DefaultBaud => "--default-baud"@,
        Flag::Port => "--port"@,
    }
}

/// A configuration that cannot be run. It is found before any port is opened
/// and before the output store is made.
#[derive(Clone, Debug, PartialEq, Eq)]
pub enum ConfigurationError {
    /// A flag stands last, with no value behind it.
    MissingValue(Flag),
    /// The value of the default baud rate is no number.
    InvalidBaud(String),
    /// An argument that is no known option.
    UnknownArgument(String),
    /// No output directory was given, or an empty one.
    MissingDirectory,
    /// No port was given.
    NoPorts,
    /// More ports were given than the pipeline takes.
    TooManyPorts,
}

/// A configuration error as contracts see it.
pub enum ConfigurationErrorView {
    MissingValue(Flag),
    InvalidBaud(Seq<char>),
    UnknownArgument(Seq<char>),
    MissingDirectory,
    NoPorts,
    TooManyPorts,
}

impl View for ConfigurationError {
    type V = ConfigurationErrorView;

    open spec fn view(&self) -> ConfigurationErrorView {
        match self {
            ConfigurationError::MissingValue(flag) => ConfigurationErrorView::MissingValue(*flag),
            ConfigurationError::InvalidBaud(value) => ConfigurationErrorView::InvalidBaud(value@),
            ConfigurationError::UnknownArgument(arg) => ConfigurationErrorView::UnknownArgument(
                arg@,
            ),
            ConfigurationError::MissingDirectory => ConfigurationErrorView::MissingDirectory,
            ConfigurationError::NoPorts => ConfigurationErrorView::NoPorts,
            ConfigurationError::TooManyPorts => ConfigurationErrorView::TooManyPorts,
        }
    }
}

impl ConfigurationErrorView {
    /// The sentence that tells the user what is wrong.
    pub open spec fn message(self) -> Seq<char> {
        match self {
            ConfigurationErrorView::MissingValue(flag) => flag_name(flag)
                + " requires an argument"@,
            ConfigurationErrorView::InvalidBaud(value) => "Invalid baud rate: "@ + value,
            ConfigurationErrorView::UnknownArgument(arg) => "Unknown argument: "@ + arg,
            ConfigurationErrorView::MissingDirectory => "--directory is required"@,
            ConfigurationErrorView::NoPorts => "At least one --port argument is required"@,
            ConfigurationErrorView::TooManyPorts => "Maximum 8 ports supported"@,
        }
    }
}

impl ConfigurationError {
    /// The sentence that tells the user what is wrong.
    pub fn message(&self) -> (text: String)
        ensures
            text@ == self@.message(),
    {
        match self {
            ConfigurationError::MissingValue(flag) => {
                let mut text = match flag {
                    Flag::Directory => String::from_str("--directory"),
                    Flag::DefaultBaud => String::from_str("--default-baud"),
                    Flag::Port => String::from_str("--port"),
                };
                text.append(" requires an argument");
                text
            },
            ConfigurationError::InvalidBaud(value) => {
                let mut text = String::from_str("Invalid baud rate: ");
                text.append(value.as_str());
                text
            },
            ConfigurationError::UnknownArgument(arg) => {
                let mut text = String::from_str("Unknown argument: ");
                text.append(arg.as_str());
                text
            },
            ConfigurationError::MissingDirectory => String::from_str("--directory is required"),
            ConfigurationError::NoPorts => String::from_str(
                "At least one --port argument is required",
            ),
            ConfigurationError::TooManyPorts => String::from_str("Maximum 8 ports supported"),
        }
    }
}

/// A port that could not be opened. Only the reader of that port ends; the
/// other readers and the writer go on.
#[derive(Clone, Debug, PartialEq, Eq)]
pub struct PortOpenError {
    /// The identifier of the port.
    pub identifier: String,
    /// What the transport said of the failure.
    pub description: String,
}

/// A failure to open a port as contracts see it.
pub struct PortOpenErrorView {
    pub identifier: Seq<char>,
    pub description: Seq<char>,
}

impl View for PortOpenError {
    type V = PortOpenErrorView;

    open spec fn view(&self) -> PortOpenErrorView {
        PortOpenErrorView { identifier: self.identifier@, description: self.description@ }
    }
}

impl PortOpenErrorView {
    /// The sentence that reports the failure.
    pub open spec fn message(self) -> Seq<char> {
        "Failed to open serial port "@ + self.identifier + ": "@ + self.description
    }
}

impl PortOpenError {
    /// The sentence that reports the failure.
    pub fn message(&self) -> (text: String)
        ensures
            text@ == self@.message(),
    {
        let mut text = String::from_str("Failed to open serial port ");
        text.append(self.identifier.as_str());
        text.append(": ");
        text.append(self.description.as_str());
        text
    }
}

} // verus!
