//! The ASCII luminance ramp.
use vstd::prelude::*;

verus! {

/// ASCII luminance ramp from darkest to brightest.
pub const ASCII_RAMP: [u8; 12] = [46, 44, 39, 58, 59, 33, 43, 42, 61, 35, 36, 64];

/// The ramp as characters, darkest first.
pub open spec fn ramp() -> Seq<char> {
    seq!['.', ',', '\'', ':', ';', '!', '+', '*', '=', '#', '$', '@']
}

/// The ramp position used for a quantized brightness level: levels past the
/// end of the ramp select its brightest entry.
pub open spec fn ramp_position(level: nat) -> nat {
    if level < 11 {
        level
    } else {
        11
    }
}

/// The ramp character for a quantized brightness level; levels past the end
/// of the ramp select its brightest character.
pub fn ramp_char(level: usize) -> (c: char)
    ensures
        c == ramp()[ramp_position(level as nat) as int],
{
    let idx = if level < 11 { level } else { 11 };
    assert(ASCII_RAMP@ =~= seq![46u8, 44, 39, 58, 59, 33, 43, 42, 61, 35, 36, 64]);
    ASCII_RAMP[idx] as char
}

/// The ramp has twelve distinct levels, from `'.'` (darkest) to `'@'`
/// (brightest), and `ASCII_RAMP` holds exactly these characters.
pub proof fn lemma_ramp_levels()
    ensures
        ramp().len() == 12,
        ramp().no_duplicates(),
        ramp()[0] == '.',
        ramp()[11] == '@',
        forall|i: int| 0 <= i < 12 ==> (#[trigger] ASCII_RAMP@[i]) as char == ramp()[i],
{
    assert(ASCII_RAMP@ =~= seq![46u8, 44, 39, 58, 59, 33, 43, 42, 61, 35, 36, 64]);
}

/// A brighter level never selects a darker character: ramp positions grow
/// with the level and always lie on the ramp.
pub proof fn lemma_ramp_position_monotone(lower: nat, higher: nat)
    requires
        lower <= higher,
    ensures
        ramp_position(lower) <= ramp_position(higher),
        ramp_position(higher) < ramp().len(),
{
}

} // verus!
