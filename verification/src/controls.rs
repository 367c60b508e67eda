//! What the keyboard changes in the rendering.

use vstd::prelude::*;

verus! {

/// The color mode after the key with text `key` was pressed: the keys `0`,
/// `1` and `2` select that mode, every other key keeps the mode `current`.
pub fn color_mode_for_key(key: &[u8], current: i32) -> (r: i32)
    ensures
        key@ == seq![0x30u8] ==> r == 0,
        key@ == seq![0x31u8] ==> r == 1,
        key@ == seq![0x32u8] ==> r == 2,
        key@ != seq![0x30u8] && key@ != seq![0x31u8] && key@ != seq![0x32u8] ==> r == current,
{
    if key.len() != 1 {
        proof {
            assert(key@ != seq![0x30u8]);
            assert(key@ != seq![0x31u8]);
            assert(key@ != seq![0x32u8]);
        }
        return current;
    }
    let c = key[0];
    proof {
        assert(key@ == seq![0x30u8] <==> c == 0x30u8) by {
            if c == 0x30u8 {
                assert(key@ =~= seq![0x30u8]);
            }
        }
        assert(key@ == seq![0x31u8] <==> c == 0x31u8) by {
            if c == 0x31u8 {
                assert(key@ =~= seq![0x31u8]);
            }
        }
        assert(key@ == seq![0x32u8] <==> c == 0x32u8) by {
            if c == 0x32u8 {
                assert(key@ =~= seq![0x32u8]);
            }
        }
    }
    if c == 0x30 {
        0
    } else if c == 0x31 {
        1
    } else if c == 0x32 {
        2
    } else {
        current
    }
}

} // verus!
