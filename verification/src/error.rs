//! What can go wrong.

use vstd::prelude::*;

verus! {

/// Why a request could not be met.
#[derive(Debug, PartialEq, Eq)]
pub enum Error {
    /// There is nobody to encrypt to.
    NoRecipients,
    /// A recipient is not the text of a public key.
    InvalidRecipient { recipient: String, fault: String },
    /// age refused the recipients.
    Encryptor,
    /// There is nothing to decrypt with.
    NoIdentities,
    /// The ciphertext does not start with a readable age header.
    Header { cause: String },
    /// The ciphertext was made for none of the identities.
    NoMatchingIdentity { cause: String },
    /// The ciphertext cannot be read to its end.
    Payload { cause: String },
    /// A line of an identity file is not the text of a secret key.
    InvalidIdentity { fault: String },
}

/// What `error` tells its reader.
pub open spec fn words(error: Error) -> Seq<char> {
    match error {
        Error::NoRecipients =>
            "no recipients given — see `cryptenv keygen` and `.cryptenv-recipients`"@,
        Error::InvalidRecipient { recipient, fault } => "invalid recipient '"@ + recipient@ + "': "@
            + fault@,
        Error::Encryptor => "building encryptor (need at least one recipient)"@,
        Error::NoIdentities => "no identities given — see `cryptenv keygen`"@,
        Error::Header { .. } => "reading age header"@,
        Error::NoMatchingIdentity { .. } => "no matching identity for this ciphertext's recipients"@,
        Error::Payload { cause } => cause@,
        Error::InvalidIdentity { .. } => "parsing identity file"@,
    }
}

/// What `error` came from, where it came from another one.
pub open spec fn origin(error: Error) -> Option<Seq<char>> {
    match error {
        Error::Header { cause } => Some(cause@),
        Error::NoMatchingIdentity { cause } => Some(cause@),
        Error::InvalidIdentity { fault } => Some("invalid identity line: "@ + fault@),
        _ => None,
    }
}

impl Error {
    /// What the error tells its reader.
    pub fn message(&self) -> (out: String)
        ensures
            out@ == words(*self),
    {
        match self {
            Error::NoRecipients =>
                "no recipients given — see `cryptenv keygen` and `.cryptenv-recipients`".to_owned(),
            Error::InvalidRecipient { recipient, fault } => {
                let mut out = "invalid recipient '".to_owned();
                out.append(recipient.as_str());
                out.append("': ");
                out.append(fault.as_str());
                out
            },
            Error::Encryptor => "building encryptor (need at least one recipient)".to_owned(),
            Error::NoIdentities => "no identities given — see `cryptenv keygen`".to_owned(),
            Error::Header { .. } => "reading age header".to_owned(),
            Error::NoMatchingIdentity { .. } =>
                "no matching identity for this ciphertext's recipients".to_owned(),
            Error::Payload { cause } => cause.clone(),
            Error::InvalidIdentity { .. } => "parsing identity file".to_owned(),
        }
    }

    /// What the error came from, where it came from another one.
    pub fn cause(&self) -> (out: Option<String>)
        ensures
            match out {
                Some(cause) => origin(*self) == Some(cause@),
                None => origin(*self) is None,
            },
    {
        match self {
            Error::Header { cause } => Some(cause.clone()),
            Error::NoMatchingIdentity { cause } => Some(cause.clone()),
            Error::InvalidIdentity { fault } => {
                let mut out = "invalid identity line: ".to_owned();
                out.append(fault.as_str());
                Some(out)
            },
            _ => None,
        }
    }
}

} // verus!
