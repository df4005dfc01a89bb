//! What tells a module image from other files.

use vstd::prelude::*;

verus! {

/// The four bytes with which a module image begins.
pub open spec fn jimage_magic() -> Seq<u8> {
    seq![0xdau8, 0xdau8, 0xfeu8, 0xcau8]
}

/// Is a file with this beginning a module image? `header` holds the first
/// bytes of the file, four of them or more; a shorter file is none.
pub fn is_jimage_file(header: &[u8]) -> (b: bool)
    ensures
        b == (header@.len() >= 4 && header@.take(4) == jimage_magic()),
{
    if header.len() < 4 {
        return false;
    }
    let b = header[0] == 0xda && header[1] == 0xda && header[2] == 0xfe && header[3] == 0xca;
    proof {
        if b {
            assert(header@.take(4) =~= jimage_magic());
        } else {
            assert(header@.take(4)[0] == header@[0]);
            assert(header@.take(4)[1] == header@[1]);
            assert(header@.take(4)[2] == header@[2]);
            assert(header@.take(4)[3] == header@[3]);
        }
    }
    b
}

} // verus!
