//! Plain-value halves of the host window interface.
//!
//! The host windowing facility takes packed flag words and raw key codes;
//! the values themselves are fixed data this library owns, so composing
//! them is done (and checked) here, and only the final numbers cross to
//! the host.

use vstd::prelude::*;

verus! {

/// A window configuration flag.
#[derive(Clone, Copy, Debug, PartialEq, Eq, Structural)]
pub enum ConfigFlags {
    /// Ask for 4x multisampling.
    Msaa4xHint,
    /// Let the window be resized.
    WindowResizable,
}

/// The bit a configuration flag contributes to the packed flag word.
pub open spec fn spec_flag_bits(f: ConfigFlags) -> u32 {
    match f {
        ConfigFlags::Msaa4xHint => 0x20u32,
        ConfigFlags::WindowResizable => 0x4u32,
    }
}

impl ConfigFlags {
    /// The bit this flag contributes to the packed flag word.
    pub fn bits(&self) -> (r: u32)
        ensures
            r == spec_flag_bits(*self),
    {
        match self {
            ConfigFlags::Msaa4xHint => 0x20,
            ConfigFlags::WindowResizable => 0x4,
        }
    }
}

/// The packed word of the flags from rank `i` on, bitwise-or'ed together.
pub open spec fn spec_flags_value(fs: Seq<ConfigFlags>, i: int) -> u32
    recommends
        0 <= i,
    decreases fs.len() - i when 0 <= i
{
    if i >= fs.len() {
        0u32
    } else {
        spec_flag_bits(fs[i]) | spec_flags_value(fs, i + 1)
    }
}

/// Packs a list of configuration flags into the single word the host
/// windowing call takes.
pub fn config_flags_value(flags: &Vec<ConfigFlags>) -> (r: u32)
    ensures
        r == spec_flags_value(flags@, 0),
{
    let n = flags.len();
    let mut value: u32 = 0;
    let mut i: usize = n;
    while i > 0
        invariant
            i <= n,
            n == flags@.len(),
            value == spec_flags_value(flags@, i as int),
        decreases i,
    {
        i -= 1;
        value = flags[i].bits() | value;
    }
    value
}

/// A keyboard key the playback controls listen for.
#[derive(Clone, Copy, Debug, PartialEq, Eq, Structural)]
pub enum KeyboardKey {
    Space,
    Minus,
    Equal,
    R,
}

/// The raw key code the host input facility uses for a key.
pub open spec fn spec_key_code(k: KeyboardKey) -> i32 {
    match k {
        KeyboardKey::Space => 32,
        KeyboardKey::Minus => 45,
        KeyboardKey::Equal => 61,
        KeyboardKey::R => 82,
    }
}

impl KeyboardKey {
    /// The raw key code the host input facility uses for this key.
    pub fn code(&self) -> (r: i32)
        ensures
            r == spec_key_code(*self),
    {
        match self {
            KeyboardKey::Space => 32,
            KeyboardKey::Minus => 45,
            KeyboardKey::Equal => 61,
            KeyboardKey::R => 82,
        }
    }
}

} // verus!
