//! The error taxonomy: structured errors attached to results as data, and
//! infrastructure errors returned to the caller during setup.

use vstd::prelude::*;

use crate::value::KvMap;

verus! {

/// A class of error: a numeric code, a stable identifier and a human label.
#[derive(Debug, PartialEq)]
pub struct ErrorType {
    pub code: u16,
    pub msgid: &'static str,
    pub label: &'static str,
}

/// The error classes this framework distinguishes.
#[derive(Clone, Copy, Debug, PartialEq, Eq, Structural)]
pub enum ErrorKind {
    Configuration,
    Validation,
    NotFound,
    NotImplemented,
    Internal,
    Io,
    Serialization,
    Transport,
}

impl ErrorKind {
    /// The numeric class of this kind of error.
    pub open spec fn spec_code(&self) -> u16 {
        match self {
            ErrorKind::Configuration => 500,
            ErrorKind::Validation => 400,
            ErrorKind::NotFound => 404,
            ErrorKind::NotImplemented => 501,
            ErrorKind::Internal => 500,
            ErrorKind::Io => 500,
            ErrorKind::Serialization => 500,
            ErrorKind::Transport => 500,
        }
    }

    /// The stable identifier of this kind of error.
    pub open spec fn spec_msgid(&self) -> Seq<char> {
        match self {
            ErrorKind::Configuration => "Err-15160"@,
            ErrorKind::Validation => "Err-05612"@,
            ErrorKind::NotFound => "Err-85941"@,
            ErrorKind::NotImplemented => "Err-04766"@,
            ErrorKind::Internal => "Err-15452"@,
            ErrorKind::Io => "Err-11553"@,
            ErrorKind::Serialization => "Err-31807"@,
            ErrorKind::Transport => "Err-02932"@,
        }
    }

    /// The human label of this kind of error.
    pub open spec fn spec_label(&self) -> Seq<char> {
        match self {
            ErrorKind::Configuration => "Invalid Configuration"@,
            ErrorKind::Validation => "Validation Error"@,
            ErrorKind::NotFound => "Not Found"@,
            ErrorKind::NotImplemented => "Not Implemented"@,
            ErrorKind::Internal => "Generic Error"@,
            ErrorKind::Io => "IO Error"@,
            ErrorKind::Serialization => "Serialization Error"@,
            ErrorKind::Transport => "Kafka Error"@,
        }
    }

    /// The [`ErrorType`] of this kind of error.
    pub fn as_type(&self) -> (r: ErrorType)
        ensures
            r.code == self.spec_code(),
            r.msgid@ == self.spec_msgid(),
            r.label@ == self.spec_label(),
    {
        match self {
            ErrorKind::Configuration => ErrorType {
                code: 500,
                msgid: "Err-15160",
                label: "Invalid Configuration",
            },
            ErrorKind::Validation => ErrorType {
                code: 400,
                msgid: "Err-05612",
                label: "Validation Error",
            },
            ErrorKind::NotFound => ErrorType { code: 404, msgid: "Err-85941", label: "Not Found" },
            ErrorKind::NotImplemented => ErrorType {
                code: 501,
                msgid: "Err-04766",
                label: "Not Implemented",
            },
            ErrorKind::Internal => ErrorType {
                code: 500,
                msgid: "Err-15452",
                label: "Generic Error",
            },
            ErrorKind::Io => ErrorType { code: 500, msgid: "Err-11553", label: "IO Error" },
            ErrorKind::Serialization => ErrorType {
                code: 500,
                msgid: "Err-31807",
                label: "Serialization Error",
            },
            ErrorKind::Transport => ErrorType {
                code: 500,
                msgid: "Err-02932",
                label: "Kafka Error",
            },
        }
    }
}

/// The broker-specific error classes, with lookup by stable identifier.
pub struct KserTypeErrors;

impl KserTypeErrors {
    /// The class of broker transport errors.
    pub fn kafka_error() -> (r: ErrorType)
        ensures
            r.code == 500,
            r.msgid@ == "Err-02932"@,
            r.label@ == "Kafka Error"@,
    {
        ErrorKind::Transport.as_type()
    }

    /// Resolves a stable identifier back to its class; unknown identifiers
    /// fall back to the generic internal class.
    pub fn from_msgid(msgid: &str) -> (r: ErrorType)
        ensures
            msgid@ == "Err-02932"@ ==> r.msgid@ == "Err-02932"@ && r.code == 500 && r.label@
                == "Kafka Error"@,
            msgid@ != "Err-02932"@ ==> r.msgid@ == ErrorKind::Internal.spec_msgid() && r.code
                == 500 && r.label@ == "Generic Error"@,
    {
        if crate::value::str_eq(msgid, "Err-02932") {
            KserTypeErrors::kafka_error()
        } else {
            ErrorKind::Internal.as_type()
        }
    }
}

/// A structured error attached to a result: code, stable identifier, human
/// message and optional structured context.
#[derive(Debug, PartialEq)]
pub struct ErrorInfo {
    pub code: u16,
    pub msgid: String,
    pub message: String,
    pub extra: Option<KvMap>,
}

/// The mathematical model of an [`ErrorInfo`].
pub struct ErrorInfoV {
    pub code: u16,
    pub msgid: Seq<char>,
    pub message: Seq<char>,
    pub extra: Option<Seq<(Seq<char>, crate::value::ValueV)>>,
}

impl View for ErrorInfo {
    type V = ErrorInfoV;

    open spec fn view(&self) -> ErrorInfoV {
        ErrorInfoV {
            code: self.code,
            msgid: self.msgid@,
            message: self.message@,
            extra: match self.extra {
                Some(ref m) => Some(m@),
                None => None,
            },
        }
    }
}

impl ErrorInfoV {
    /// Every map this error carries has distinct keys.
    pub open spec fn wf(&self) -> bool {
        match self.extra {
            Some(m) => crate::value::keys_distinct(m),
            None => true,
        }
    }
}

impl ErrorInfo {
    /// Every map this error carries is well formed.
    pub open spec fn wf(&self) -> bool {
        self@.wf()
    }

    /// An error of class `kind` with the given human message and no context.
    pub fn new(kind: ErrorKind, message: String) -> (r: ErrorInfo)
        ensures
            r.code == kind.spec_code(),
            r.msgid@ == kind.spec_msgid(),
            r.message@ == message@,
            r.extra.is_none(),
            r.wf(),
    {
        let t = kind.as_type();
        ErrorInfo { code: t.code, msgid: t.msgid.to_owned(), message, extra: None }
    }

    /// A deep copy with the same model.
    pub fn duplicate(&self) -> (r: ErrorInfo)
        ensures
            r@ == self@,
    {
        ErrorInfo {
            code: self.code,
            msgid: self.msgid.clone(),
            message: self.message.clone(),
            extra: match self.extra {
                Some(ref m) => Some(m.duplicate()),
                None => None,
            },
        }
    }
}

/// Infrastructure failures surfaced to the operator during setup, never
/// encoded into a message's result.
#[derive(Debug, PartialEq)]
pub enum KserErrors {
    IoError(String),
    ConfigurationError(String),
    KafkaError(String),
    JSONError(String),
}

impl KserErrors {
    /// The numeric class of this error.
    pub fn code(&self) -> (r: u16)
        ensures
            r == match self {
                KserErrors::IoError(_) => ErrorKind::Io.spec_code(),
                KserErrors::ConfigurationError(_) => ErrorKind::Configuration.spec_code(),
                KserErrors::KafkaError(_) => ErrorKind::Transport.spec_code(),
                KserErrors::JSONError(_) => ErrorKind::Serialization.spec_code(),
            },
    {
        match self {
            KserErrors::IoError(_) => 500,
            KserErrors::ConfigurationError(_) => 500,
            KserErrors::KafkaError(_) => 500,
            KserErrors::JSONError(_) => 500,
        }
    }

    /// The stable identifier of this error's class.
    pub fn msgid(&self) -> (r: &'static str)
        ensures
            r@ == match self {
                KserErrors::IoError(_) => ErrorKind::Io.spec_msgid(),
                KserErrors::ConfigurationError(_) => ErrorKind::Configuration.spec_msgid(),
                KserErrors::KafkaError(_) => ErrorKind::Transport.spec_msgid(),
                KserErrors::JSONError(_) => ErrorKind::Serialization.spec_msgid(),
            },
    {
        match self {
            KserErrors::IoError(_) => "Err-11553",
            KserErrors::ConfigurationError(_) => "Err-15160",
            KserErrors::KafkaError(_) => "Err-02932",
            KserErrors::JSONError(_) => "Err-31807",
        }
    }

    /// The human detail this error carries.
    pub fn message(&self) -> (r: &String)
        ensures
            r@ == match self {
                KserErrors::IoError(m) => m@,
                KserErrors::ConfigurationError(m) => m@,
                KserErrors::KafkaError(m) => m@,
                KserErrors::JSONError(m) => m@,
            },
    {
        match self {
            KserErrors::IoError(m) => m,
            KserErrors::ConfigurationError(m) => m,
            KserErrors::KafkaError(m) => m,
            KserErrors::JSONError(m) => m,
        }
    }

    /// Structured context; infrastructure errors carry none.
    pub fn extra(&self) -> (r: Option<KvMap>)
        ensures
            r.is_none(),
    {
        None
    }
}

} // verus!
