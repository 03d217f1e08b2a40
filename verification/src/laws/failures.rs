//! Laws of how failures are told.

use crate::error::Error;
use vstd::prelude::*;

verus! {

/// What each failure tells its reader.
pub proof fn law_failures_are_told(error: &Error, message: String)
    requires
        call_ensures(Error::message, (error,), message),
    ensures
        error is NoRecipients ==> message@
            == "no recipients given — see `cryptenv keygen` and `.cryptenv-recipients`"@,
        error matches Error::InvalidRecipient { recipient, fault } ==> message@
            == "invalid recipient '"@ + recipient@ + "': "@ + fault@,
        error is Encryptor ==> message@ == "building encryptor (need at least one recipient)"@,
        error is NoIdentities ==> message@ == "no identities given — see `cryptenv keygen`"@,
        error is Header ==> message@ == "reading age header"@,
        error is NoMatchingIdentity ==> message@
            == "no matching identity for this ciphertext's recipients"@,
        error matches Error::Payload { cause } ==> message@ == cause@,
        error is InvalidIdentity ==> message@ == "parsing identity file"@,
{
}

/// What each failure says that it came from.
pub proof fn law_failures_tell_their_cause(error: &Error, cause: Option<String>)
    requires
        call_ensures(Error::cause, (error,), cause),
    ensures
        error matches Error::Header { cause: inner } ==> (cause matches Some(told) && told@
            == inner@),
        error matches Error::NoMatchingIdentity { cause: inner } ==> (cause matches Some(told)
            && told@ == inner@),
        error matches Error::InvalidIdentity { fault } ==> (cause matches Some(told) && told@
            == "invalid identity line: "@ + fault@),
        error is NoRecipients || error is InvalidRecipient || error is Encryptor
            || error is NoIdentities || error is Payload ==> cause is None,
{
}

} // verus!
