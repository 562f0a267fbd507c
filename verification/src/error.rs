use vstd::prelude::*;
use vstd::std_specs::convert::FromSpecImpl;

verus! {

/// Why a decimal number could not be read.
#[derive(Debug, Clone, Copy, PartialEq, Eq, Structural)]
pub enum ParseIntError {
    /// The text holds no character at all.
    Empty,
    /// After an optional leading `+` there is no digit, or something that is no digit.
    InvalidDigit,
    /// The digits denote a number above the target type's maximum.
    PosOverflow,
}

/// Why a kind letter could not be read.
#[derive(Debug, Clone, Copy, PartialEq, Eq, Structural)]
pub enum ParseSectorTypeError {
    UnknownType,
}

/// Why a sector, `<id>:<name>:<kind-letter>`, could not be read.
#[derive(Debug, Clone, Copy, PartialEq, Eq, Structural)]
pub enum ParseSectorError {
    Id(ParseIntError),
    Type(ParseSectorTypeError),
    BadFormat,
}

/// Why a `<id>:<login>` or `<id>:<login>|<gid>` item could not be read.
#[derive(Debug, Clone, Copy, PartialEq, Eq, Structural)]
pub enum ParseMemberError {
    Id(ParseIntError),
    Gid(ParseIntError),
    /// A separator, and with it a field, is missing.
    BadFormat,
}

/// Why a sector line could not be read: the field that failed, with its reason.
#[derive(Debug, Clone, Copy, PartialEq, Eq, Structural)]
pub enum ParseSectorGroupError {
    Sector(ParseSectorError),
    Gid(ParseIntError),
    Member(ParseMemberError),
}

/// Why a frame could not be read: as a request or a divided frame, or as a reply.
#[derive(Debug, Clone, Copy, PartialEq, Eq, Structural)]
pub enum ParseMessageError {
    ParseClientMessageError,
    ParseDaemonMessageError,
}

/// Why what the administrator has set cannot be used.
#[derive(Debug, Clone, Copy, PartialEq, Eq, Structural)]
pub enum ConfigError {
    /// There is no authentication token.
    MissingToken,
    /// There is no organization.
    MissingOrg,
}

/// Why nothing was written into a caller's buffer.
#[derive(Debug, Clone, Copy, PartialEq, Eq, Structural)]
pub enum BufferError {
    /// What was to be written would have ended beyond the buffer.
    OutOfSpace,
}

/// What can go wrong between the remote service, the disk and the socket.
#[derive(Debug)]
pub enum SectoraError {
    Serde(serde_json::Error),
    Io(std::io::Error),
    Toml(toml::de::Error),
    ParseMessageError(ParseMessageError),
}

impl From<serde_json::Error> for SectoraError {
    fn from(err: serde_json::Error) -> (r: SectoraError) {
        SectoraError::Serde(err)
    }
}

impl FromSpecImpl<serde_json::Error> for SectoraError {
    open spec fn obeys_from_spec() -> bool {
        true
    }

    open spec fn from_spec(err: serde_json::Error) -> SectoraError {
        SectoraError::Serde(err)
    }
}

impl From<std::io::Error> for SectoraError {
    fn from(err: std::io::Error) -> (r: SectoraError) {
        SectoraError::Io(err)
    }
}

impl FromSpecImpl<std::io::Error> for SectoraError {
    open spec fn obeys_from_spec() -> bool {
        true
    }

    open spec fn from_spec(err: std::io::Error) -> SectoraError {
        SectoraError::Io(err)
    }
}

impl From<toml::de::Error> for SectoraError {
    fn from(err: toml::de::Error) -> (r: SectoraError) {
        SectoraError::Toml(err)
    }
}

impl FromSpecImpl<toml::de::Error> for SectoraError {
    open spec fn obeys_from_spec() -> bool {
        true
    }

    open spec fn from_spec(err: toml::de::Error) -> SectoraError {
        SectoraError::Toml(err)
    }
}

impl From<ParseMessageError> for SectoraError {
    fn from(err: ParseMessageError) -> (r: SectoraError) {
        SectoraError::ParseMessageError(err)
    }
}

impl FromSpecImpl<ParseMessageError> for SectoraError {
    open spec fn obeys_from_spec() -> bool {
        true
    }

    open spec fn from_spec(err: ParseMessageError) -> SectoraError {
        SectoraError::ParseMessageError(err)
    }
}

} // verus!
