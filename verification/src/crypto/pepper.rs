//! The hardware pepper: a value bound to the machine, mixed into the hybrid key
//! when a container asks for it.
use vstd::prelude::*;

use crate::crypto::primitives::{sha3_256, sha3_256_digest};
use crate::utils::text::concat_str;

verus! {

/// The pepper of a machine: the SHA3-256 digest of its unique identifier, as the
/// operating system reports it (the app asks for the identifier; a failure to get
/// it comes as the error text).
pub fn get_hardware_pepper(machine_uid: Result<String, String>) -> (res: Result<Vec<u8>, String>)
    ensures
        match machine_uid {
            Ok(uid) => res is Ok && res->Ok_0@ == sha3_256_digest(vstd::utf8::encode_utf8(uid@)),
            Err(e) => res is Err && res->Err_0@
                == "Error al obtener el identificador único del hardware: "@ + e@,
        },
{
    match machine_uid {
        Ok(uid) => Ok(sha3_256(uid.as_str().as_bytes())),
        Err(e) => Err(concat_str("Error al obtener el identificador único del hardware: ", e.as_str())),
    }
}

} // verus!
