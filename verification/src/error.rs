//! The failures of configuration resolution.

use vstd::prelude::*;

verus! {

/// Why a `$NAME` or `${NAME}` reference could not be read.
#[derive(Clone, Copy, Debug, PartialEq, Eq, Structural)]
pub enum ReferenceFault {
    /// No name follows the `$`, or the braces are empty.
    EmptyName,
    /// A character that cannot be part of a name stands inside the braces.
    InvalidCharacter(char),
    /// The text ends before the closing brace.
    Unterminated,
}

/// Every way in which resolving a configuration can fail.
#[derive(Clone, Debug)]
pub enum AsteriskError {
    /// A variable reference is not well formed.
    MalformedReference(ReferenceFault),
    /// The named variable is neither cached nor set in the environment.
    UnresolvedVariable(String),
    /// The profile store holds no profile.
    EmptyProfileSet,
    /// The default profile names no profile of the store.
    UnknownDefaultProfile(String),
    /// The named profile has an empty URL.
    EmptyProfileUrl(String),
    /// A header entry has no `:`; the first field names the profile it
    /// was found in, if any, the second is the entry itself.
    MalformedHeaderEntry(Option<String>, String),
    /// The header name is not one that can be sent.
    InvalidHeaderName(String),
    /// The header value is not one that can be sent.
    InvalidHeaderValue(String),
    /// The selected profile is not in the store.
    ProfileNotFound(String),
}

/// The mathematical value of an [`AsteriskError`]: the same cases over
/// sequences of characters.
pub ghost enum ErrorModel {
    MalformedReference(ReferenceFault),
    UnresolvedVariable(Seq<char>),
    EmptyProfileSet,
    UnknownDefaultProfile(Seq<char>),
    EmptyProfileUrl(Seq<char>),
    MalformedHeaderEntry(Option<Seq<char>>, Seq<char>),
    InvalidHeaderName(Seq<char>),
    InvalidHeaderValue(Seq<char>),
    ProfileNotFound(Seq<char>),
}

impl View for AsteriskError {
    type V = ErrorModel;

    open spec fn view(&self) -> ErrorModel {
        match *self {
            AsteriskError::MalformedReference(fault) => ErrorModel::MalformedReference(fault),
            AsteriskError::UnresolvedVariable(name) => ErrorModel::UnresolvedVariable(name@),
            AsteriskError::EmptyProfileSet => ErrorModel::EmptyProfileSet,
            AsteriskError::UnknownDefaultProfile(name) => ErrorModel::UnknownDefaultProfile(name@),
            AsteriskError::EmptyProfileUrl(name) => ErrorModel::EmptyProfileUrl(name@),
            AsteriskError::MalformedHeaderEntry(profile, entry) => ErrorModel::MalformedHeaderEntry(
                match profile {
                    Some(name) => Some(name@),
                    None => None,
                },
                entry@,
            ),
            AsteriskError::InvalidHeaderName(name) => ErrorModel::InvalidHeaderName(name@),
            AsteriskError::InvalidHeaderValue(value) => ErrorModel::InvalidHeaderValue(value@),
            AsteriskError::ProfileNotFound(name) => ErrorModel::ProfileNotFound(name@),
        }
    }
}

} // verus!
