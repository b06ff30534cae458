//! Declarations of the outside types that the hub carries through, and of
//! the one std function on strings that needs a contract.
use futures::channel::mpsc::UnboundedSender;
use ntex::util::Bytes;
use vstd::prelude::*;

verus! {

/// A frame as it travels on a subscriber's channel.
#[verifier::external_type_specification]
#[verifier::external_body]
pub struct ExBytes(Bytes);

/// The write end of a subscriber's channel.
#[verifier::external_type_specification]
#[verifier::external_body]
#[verifier::reject_recursive_types(T)]
pub struct ExUnboundedSender<T>(UnboundedSender<T>);

/// The structured payload of an event.
#[verifier::external_type_specification]
#[verifier::external_body]
pub struct ExValue(serde_json::Value);

/// Relies on String::push: it appends one character.
#[verifier::external_body]
pub(crate) fn push_char(s: &mut String, c: char)
    ensures
        final(s)@ == old(s)@.push(c),
{
    s.push(c);
}

} // verus!
