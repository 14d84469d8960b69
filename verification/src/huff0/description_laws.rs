//! Weight descriptions in data that is cut short: a description is read
//! the same whatever follows it, and is refused as short input if the data
//! ends within it.

use vstd::prelude::*;
use crate::decoding::bits::spec_is_prefix;
use crate::errors::DecodeError;
use crate::huff0::table_spec::{
    spec_build_decoder, spec_compressed_weights, spec_direct_weights, spec_read_weights,
    HuffmanTableView,
};

verus! {

/// The weights in data that is cut short are either read as in the whole
/// data or refused as short input; and a description that is read lies
/// within the data.
pub proof fn lemma_read_weights_prefix(part: Seq<u8>, whole: Seq<u8>)
    requires
        spec_is_prefix(part, whole),
    ensures
        spec_read_weights(part) == Err::<(Seq<u8>, u32), DecodeError>(DecodeError::ShortInput)
            || spec_read_weights(part) == spec_read_weights(whole),
        spec_read_weights(part) matches Ok((weights, bytes)) ==> bytes <= part.len(),
{
    if part.len() > 0 {
        assert(part[0] == whole.subrange(0, part.len() as int)[0]);
        if part[0] < 128 {
            let size = part[0] as int;
            if part.len() >= 1 + size {
                assert(part.subrange(1, 1 + size) =~= whole.subrange(1, 1 + size));
            }
        } else {
            let count = (part[0] - 127) as nat;
            let bytes = (count + 1) / 2;
            if part.len() >= 1 + bytes {
                assert forall|j: int| 0 <= j < part.len() implies #[trigger] part[j] == whole[j] by {
                    assert(part[j] == whole.subrange(0, part.len() as int)[j]);
                }
                assert(spec_direct_weights(part, count) =~= spec_direct_weights(whole, count));
            }
        }
    }
}

/// A Huffman table in data that is cut short is either built as from the
/// whole data or refused as short input; and the description of a table
/// that is built lies within the data.
pub proof fn lemma_build_decoder_prefix(part: Seq<u8>, whole: Seq<u8>)
    requires
        spec_is_prefix(part, whole),
    ensures
        spec_build_decoder(part) == Err::<(HuffmanTableView, u32), DecodeError>(
            DecodeError::ShortInput,
        ) || spec_build_decoder(part) == spec_build_decoder(whole),
        spec_build_decoder(part) matches Ok((table, bytes)) ==> bytes <= part.len(),
{
    reveal(spec_build_decoder);
    lemma_read_weights_prefix(part, whole);
}

} // verus!
