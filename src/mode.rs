use vstd::prelude::*;
use vstd::string::StringSliceAdditionalSpecFns;

verus! {

/// How the decompressed stream of one file is split into lines.
#[derive(Clone, Copy, Debug, PartialEq, Eq, Structural)]
pub enum Mode {
    /// A plain text stream, split on newlines.
    Plain,
    /// A stream wrapped in archive blocks, whose metadata blocks are removed.
    Archive,
}

/// The archive marker `.tar` that ends the stem of an archive file's name.
pub open spec fn archive_suffix() -> Seq<u8> {
    seq![0x2eu8, 0x74u8, 0x61u8, 0x72u8]
}

/// `s` ends with `suffix`.
pub open spec fn ends_with(s: Seq<u8>, suffix: Seq<u8>) -> bool {
    suffix.len() <= s.len() && s.subrange(s.len() - suffix.len(), s.len() as int) == suffix
}

/// The mode of a file whose name, without its outer compression extension, is `stem`.
pub open spec fn mode_of(stem: Seq<u8>) -> Mode {
    if ends_with(stem, archive_suffix()) {
        Mode::Archive
    } else {
        Mode::Plain
    }
}

/// Selects the mode of a file from the stem of its name (the name without the outer
/// compression extension): archive mode where the stem ends with `.tar`.
pub fn mode_for_stem(stem: &str) -> (r: Mode)
    ensures
        r == mode_of(stem.spec_bytes()),
{
    let b = stem.as_bytes();
    let suffix: [u8; 4] = [0x2eu8, 0x74u8, 0x61u8, 0x72u8];
    let len = b.len();
    if len < 4 {
        return Mode::Plain;
    }
    let start = len - 4;
    let mut i: usize = 0;
    while i < 4
        invariant
            b@ == stem.spec_bytes(),
            suffix@ == archive_suffix(),
            start + 4 == len,
            len == b@.len(),
            0 <= i <= 4,
            forall|j: int| 0 <= j < i ==> b@[start + j] == archive_suffix()[j],
        decreases 4 - i,
    {
        if b[start + i] != suffix[i] {
            assert(b@.subrange(start as int, b@.len() as int)[i as int] != archive_suffix()[i as int]);
            return Mode::Plain;
        }
        i = i + 1;
    }
    assert(b@.subrange(start as int, b@.len() as int) =~= archive_suffix());
    Mode::Archive
}

} // verus!
