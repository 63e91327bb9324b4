//! Decoding of revert payloads returned by failed contract executions.

use vstd::prelude::*;
use vstd::slice::slice_subrange;
use vstd::string::StringSliceAdditionalSpecFns;

verus! {

/// Wrapping byte sum of a sequence.
pub open spec fn byte_sum(s: Seq<u8>) -> u8
    decreases s,
{
    if s.len() == 0 {
        0u8
    } else {
        ((byte_sum(s.drop_last()) + s.last()) % 256) as u8
    }
}

/// Extracts the message of an encoded revert payload: after a 4-byte
/// selector, a 32-byte offset and a 32-byte length block, the message runs
/// for as many bytes as the wrapping sum of the length block. A payload too
/// short for its own message yields a fixed error text.
pub fn decode_revert_message(encoded: &[u8]) -> (r: &[u8])
    ensures
        ({
            let n = encoded@.len();
            let m = byte_sum(encoded@.subrange(36, 68)) as int;
            if n > 68 && n >= 68 + m {
                r@ == encoded@.subrange(68, 68 + m)
            } else {
                r@ == "decode_revert_message: error".spec_bytes()
            }
        }),
{
    let encoded_len = encoded.len();
    if encoded_len > 68 {
        let mut acc: u8 = 0;
        let mut j: usize = 36;
        while j < 68
            invariant
                36 <= j <= 68,
                encoded@.len() > 68,
                acc == byte_sum(encoded@.subrange(36, j as int)),
            decreases 68 - j,
        {
            let b = *vstd::slice::slice_index_get(encoded, j);
            acc = (((acc as u16 + b as u16) % 256) as u8);
            proof {
                assert(encoded@.subrange(36, j + 1).drop_last() =~= encoded@.subrange(
                    36,
                    j as int,
                ));
                assert(encoded@.subrange(36, j + 1).last() == encoded@[j as int]);
            }
            j = j + 1;
        }
        let message_len = acc as usize;
        if encoded_len >= 68 + message_len {
            return slice_subrange(encoded, 68, 68 + message_len);
        }
    }
    "decode_revert_message: error".as_bytes()
}

} // verus!
