//! The sender and reader under their second names.

use vstd::prelude::*;
use crate::json::{deserialize_json, serialize_json};
use crate::model::{encode, normalize, parse_value};
use crate::types::{Json, Receiver, Sender};

verus! {

/// Sends `value` to `sender`; the same as [`serialize_json`].
pub fn serialise_json(value: &Json, sender: &mut Sender)
    ensures
        final(sender)@ == old(sender)@ + encode(value@),
{
    serialize_json(value, sender);
}

/// Receives one value from `receiver` and builds it; the same as
/// [`deserialize_json`].
pub fn deserialise_json(receiver: Receiver) -> (value: Json)
    requires
        parse_value(receiver@) is Some,
    ensures
        parse_value(receiver@) matches Some((v, _)) ==> value@ == normalize(v),
{
    deserialize_json(receiver)
}

} // verus!
