use vstd::prelude::*;

verus! {

/// Size of one archive block, in bytes.
pub const BLOCK_SIZE: usize = 512;

/// Offset of the archive magic within a block.
pub const MAGIC_OFFSET: usize = 257;

/// The five magic bytes `ustar` that mark a metadata block.
pub open spec fn magic() -> Seq<u8> {
    seq![0x75u8, 0x73u8, 0x74u8, 0x61u8, 0x72u8]
}

/// A block is metadata when it is a full block and carries the magic at its fixed offset.
pub open spec fn is_metadata(block: Seq<u8>) -> bool {
    &&& block.len() == BLOCK_SIZE
    &&& block.subrange(MAGIC_OFFSET as int, MAGIC_OFFSET + 5) == magic()
}

/// Classifies the valid bytes of one block: `true` for an archive metadata block.
pub fn is_tar_header(block: &[u8]) -> (r: bool)
    ensures
        r == is_metadata(block@),
{
    if block.len() != BLOCK_SIZE {
        return false;
    }
    let m: [u8; 5] = [0x75u8, 0x73u8, 0x74u8, 0x61u8, 0x72u8];
    let mut i: usize = 0;
    while i < 5
        invariant
            block@.len() == BLOCK_SIZE,
            m@ == magic(),
            0 <= i <= 5,
            forall|j: int| 0 <= j < i ==> block@[MAGIC_OFFSET + j] == magic()[j],
        decreases 5 - i,
    {
        if block[MAGIC_OFFSET + i] != m[i] {
            assert(block@.subrange(MAGIC_OFFSET as int, MAGIC_OFFSET + 5)[i as int] != magic()[i as int]);
            return false;
        }
        i = i + 1;
    }
    assert(block@.subrange(MAGIC_OFFSET as int, MAGIC_OFFSET + 5) =~= magic());
    true
}

} // verus!
