use crate::username::UserNameError;
use argon2::password_hash::Error as HashError;
use vstd::prelude::*;

verus! {

#[verifier::external_type_specification]
#[verifier::external_body]
pub struct ExIoError(std::io::Error);

/// Why the credentials file could not be loaded.
#[derive(Debug)]
pub enum LoadUsersError {
    /// The length segment of a record is not a base-ten number that fits.
    BadHashLength,
    /// The input ended inside a record.
    IncompleteHash,
    /// A record's hash is followed by this character instead of a newline.
    InvalidEntrySep(char),
    /// A record does not start with the separator `$`.
    InvalidEntry,
    /// A record's username is empty or holds a character that is not allowed.
    InvalidUserName(UserNameError),
    /// A record's hash is not a well-formed PHC string.
    InvalidHash(HashError),
    /// The file could not be read or created.
    IoError(std::io::Error),
}

/// Why a registration was refused. None of these changes the store.
#[derive(Debug)]
pub enum RegisterError {
    /// The username is taken.
    ExistingUser,
    /// The password holds a character outside ASCII.
    NonAsciiPassword,
    /// The username is empty or holds a character that is not allowed.
    InvalidName(UserNameError),
    /// Hashing the password failed.
    HashError(HashError),
    /// Appending the record to the credentials file failed.
    IoError(std::io::Error),
}

/// Why a login was refused.
#[derive(Debug, Clone, Copy, PartialEq, Eq)]
pub enum LoginError {
    /// The password holds a character outside ASCII.
    NonAsciiPassword,
    /// No user has this name.
    UnknownUser,
    /// The password does not match the stored hash.
    WrongPassword,
}

/// The kind of a load failure, with the payloads that the format decides.
pub enum LoadFault {
    BadHashLength,
    IncompleteHash,
    InvalidEntrySep(char),
    InvalidEntry,
    InvalidUserName(UserNameError),
    InvalidHash,
    Io,
}

/// The kind of a registration failure.
pub enum RegisterFault {
    ExistingUser,
    NonAsciiPassword,
    InvalidName(UserNameError),
    Hash,
    Io,
}

impl LoadUsersError {
    pub open spec fn fault(&self) -> LoadFault {
        match self {
            LoadUsersError::BadHashLength => LoadFault::BadHashLength,
            LoadUsersError::IncompleteHash => LoadFault::IncompleteHash,
            LoadUsersError::InvalidEntrySep(c) => LoadFault::InvalidEntrySep(*c),
            LoadUsersError::InvalidEntry => LoadFault::InvalidEntry,
            LoadUsersError::InvalidUserName(e) => LoadFault::InvalidUserName(*e),
            LoadUsersError::InvalidHash(_) => LoadFault::InvalidHash,
            LoadUsersError::IoError(_) => LoadFault::Io,
        }
    }
}

impl RegisterError {
    pub open spec fn fault(&self) -> RegisterFault {
        match self {
            RegisterError::ExistingUser => RegisterFault::ExistingUser,
            RegisterError::NonAsciiPassword => RegisterFault::NonAsciiPassword,
            RegisterError::InvalidName(e) => RegisterFault::InvalidName(*e),
            RegisterError::HashError(_) => RegisterFault::Hash,
            RegisterError::IoError(_) => RegisterFault::Io,
        }
    }
}

} // verus!
