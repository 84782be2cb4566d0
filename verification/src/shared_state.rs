//! The on/off flag shared between processes: how the flag is stored in the
//! shared 32-bit word.
use vstd::prelude::*;

verus! {

/// The word stored for a flag value.
pub open spec fn spec_flag_word(value: bool) -> u32 {
    if value {
        1
    } else {
        0
    }
}

/// The flag value a stored word stands for: any non-zero word is "on".
pub open spec fn spec_flag_value(word: u32) -> bool {
    word != 0
}

/// The word to store for a flag value.
pub fn flag_word(value: bool) -> (w: u32)
    ensures
        w == spec_flag_word(value),
{
    if value {
        1
    } else {
        0
    }
}

/// The flag value of a stored word.
pub fn flag_value(word: u32) -> (v: bool)
    ensures
        v == spec_flag_value(word),
{
    word != 0
}

/// A read gives back what the last write stored.
pub proof fn lemma_flag_roundtrip(value: bool)
    ensures
        spec_flag_value(spec_flag_word(value)) == value,
{
}

/// A freshly created (zero-filled) mapping reads as "off".
pub proof fn lemma_fresh_flag_off()
    ensures
        !spec_flag_value(0),
{
}

/// Toggling twice gives back the stored value.
pub proof fn lemma_toggle_twice(value: bool)
    ensures
        spec_flag_value(spec_flag_word(!spec_flag_value(spec_flag_word(!value)))) == value,
{
}

} // verus!
