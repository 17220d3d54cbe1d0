use vstd::prelude::*;

verus! {

/// Syslog facility of a kernel record, in the order of the standard numbering.
#[derive(Clone, Copy, Debug, PartialEq, Eq, Structural)]
pub enum LogFacility {
    Kern,
    User,
    Mail,
    Daemon,
    Auth,
    Syslog,
    Lpr,
    News,
    Uucp,
    Cron,
    AuthPriv,
    Ftp,
    Ntp,
    Audit,
    Alert,
    Clock,
    Local0,
    Local1,
    Local2,
    Local3,
    Local4,
    Local5,
    Local6,
    Local7,
}

/// Syslog severity, from Emergency (0) to Debug (7).
#[derive(Clone, Copy, Debug, PartialEq, Eq, Structural)]
pub enum LogLevel {
    Emergency,
    Alert,
    Critical,
    Error,
    Warning,
    Notice,
    Info,
    Debug,
}

impl LogFacility {
    /// The standard number of a facility.
    pub open spec fn index(self) -> nat {
        match self {
            LogFacility::Kern => 0,
            LogFacility::User => 1,
            LogFacility::Mail => 2,
            LogFacility::Daemon => 3,
            LogFacility::Auth => 4,
            LogFacility::Syslog => 5,
            LogFacility::Lpr => 6,
            LogFacility::News => 7,
            LogFacility::Uucp => 8,
            LogFacility::Cron => 9,
            LogFacility::AuthPriv => 10,
            LogFacility::Ftp => 11,
            LogFacility::Ntp => 12,
            LogFacility::Audit => 13,
            LogFacility::Alert => 14,
            LogFacility::Clock => 15,
            LogFacility::Local0 => 16,
            LogFacility::Local1 => 17,
            LogFacility::Local2 => 18,
            LogFacility::Local3 => 19,
            LogFacility::Local4 => 20,
            LogFacility::Local5 => 21,
            LogFacility::Local6 => 22,
            LogFacility::Local7 => 23,
        }
    }

    /// The facility with the given number, if there is one.
    pub fn from_u32(n: u32) -> (r: Option<LogFacility>)
        ensures
            r is Some <==> n < 24,
            r matches Some(f) ==> f.index() == n,
    {
        match n {
            0 => Some(LogFacility::Kern),
            1 => Some(LogFacility::User),
            2 => Some(LogFacility::Mail),
            3 => Some(LogFacility::Daemon),
            4 => Some(LogFacility::Auth),
            5 => Some(LogFacility::Syslog),
            6 => Some(LogFacility::Lpr),
            7 => Some(LogFacility::News),
            8 => Some(LogFacility::Uucp),
            9 => Some(LogFacility::Cron),
            10 => Some(LogFacility::AuthPriv),
            11 => Some(LogFacility::Ftp),
            12 => Some(LogFacility::Ntp),
            13 => Some(LogFacility::Audit),
            14 => Some(LogFacility::Alert),
            15 => Some(LogFacility::Clock),
            16 => Some(LogFacility::Local0),
            17 => Some(LogFacility::Local1),
            18 => Some(LogFacility::Local2),
            19 => Some(LogFacility::Local3),
            20 => Some(LogFacility::Local4),
            21 => Some(LogFacility::Local5),
            22 => Some(LogFacility::Local6),
            23 => Some(LogFacility::Local7),
            _ => None,
        }
    }
}

impl LogLevel {
    /// The standard number of a severity.
    pub open spec fn index(self) -> nat {
        match self {
            LogLevel::Emergency => 0,
            LogLevel::Alert => 1,
            LogLevel::Critical => 2,
            LogLevel::Error => 3,
            LogLevel::Warning => 4,
            LogLevel::Notice => 5,
            LogLevel::Info => 6,
            LogLevel::Debug => 7,
        }
    }

    /// The severity with the given number, if there is one.
    pub fn from_u32(n: u32) -> (r: Option<LogLevel>)
        ensures
            r is Some <==> n < 8,
            r matches Some(l) ==> l.index() == n,
    {
        match n {
            0 => Some(LogLevel::Emergency),
            1 => Some(LogLevel::Alert),
            2 => Some(LogLevel::Critical),
            3 => Some(LogLevel::Error),
            4 => Some(LogLevel::Warning),
            5 => Some(LogLevel::Notice),
            6 => Some(LogLevel::Info),
            7 => Some(LogLevel::Debug),
            _ => None,
        }
    }
}

/// A parsed kernel record.
#[derive(Clone, Debug, PartialEq, Eq)]
pub struct KMsg {
    pub facility: LogFacility,
    pub level: LogLevel,
    /// Microseconds since the Unix epoch: the reader's system start time
    /// plus the record's offset since boot.
    pub timestamp: i128,
    pub message: String,
}

/// The mathematical content of a `KMsg`.
pub struct KMsgView {
    pub facility: LogFacility,
    pub level: LogLevel,
    pub timestamp: int,
    pub message: Seq<char>,
}

impl View for KMsg {
    type V = KMsgView;

    open spec fn view(&self) -> KMsgView {
        KMsgView {
            facility: self.facility,
            level: self.level,
            timestamp: self.timestamp as int,
            message: self.message@,
        }
    }
}

} // verus!
