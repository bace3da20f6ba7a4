use vstd::prelude::*;

verus! {

/// The lowest virtual-key code of the platform's key space.
pub const VK_MIN: u32 = 0x01;

/// The highest virtual-key code of the platform's key space.
pub const VK_MAX: u32 = 0xFE;

/// Virtual-key code of the `A` key.
pub const KEY_A: u8 = 0x41;

/// Virtual-key code of the `B` key.
pub const KEY_B: u8 = 0x42;

/// Virtual-key code of the right shift key.
pub const RSHIFT: u8 = 0xA1;

/// A key of the platform's virtual-key space.
///
/// Codes outside `VK_MIN..=VK_MAX` are folded into `Unmapped`, so that
/// classification never fails.
#[derive(Clone, Copy, Debug, PartialEq, Eq, Structural)]
pub enum KeyIdentity {
    Virtual(u8),
    Unmapped,
}

/// Whether a key went down or came up.
#[derive(Clone, Copy, Debug, PartialEq, Eq, Structural)]
pub enum KeyTransition {
    Pressed,
    Released,
}

/// A well-formed identity: a `Virtual` code lies inside the key space.
pub open spec fn valid_identity(k: KeyIdentity) -> bool {
    match k {
        KeyIdentity::Virtual(c) => VK_MIN <= c && c <= VK_MAX,
        KeyIdentity::Unmapped => true,
    }
}

/// The identity that a raw key code stands for.
pub open spec fn spec_identity_of(raw: u32) -> KeyIdentity {
    if VK_MIN <= raw && raw <= VK_MAX {
        KeyIdentity::Virtual(raw as u8)
    } else {
        KeyIdentity::Unmapped
    }
}

/// The transition that a raw status word stands for: its lowest bit is set
/// on a key coming up.
pub open spec fn spec_transition_of(raw: u32) -> KeyTransition {
    if raw % 2 == 0 {
        KeyTransition::Pressed
    } else {
        KeyTransition::Released
    }
}

/// The code under which an identity is stored: `Unmapped` takes 0, which no
/// virtual key uses.
pub open spec fn spec_code(k: KeyIdentity) -> u8 {
    match k {
        KeyIdentity::Virtual(c) => c,
        KeyIdentity::Unmapped => 0,
    }
}

/// The status bit of a transition, as the packed history stores it.
pub open spec fn spec_status_bit(t: KeyTransition) -> u32 {
    match t {
        KeyTransition::Pressed => 0,
        KeyTransition::Released => 1,
    }
}

/// Classifies a raw key code; total over `u32`.
pub fn identity_of(raw: u32) -> (r: KeyIdentity)
    ensures
        r == spec_identity_of(raw),
        valid_identity(r),
{
    if VK_MIN <= raw && raw <= VK_MAX {
        KeyIdentity::Virtual(raw as u8)
    } else {
        KeyIdentity::Unmapped
    }
}

/// Classifies a raw status word by its lowest bit; total over `u32`.
pub fn transition_of(raw: u32) -> (r: KeyTransition)
    ensures
        r == spec_transition_of(raw),
{
    if raw % 2 == 0 {
        KeyTransition::Pressed
    } else {
        KeyTransition::Released
    }
}

impl KeyIdentity {
    /// The storage code of this identity.
    pub fn code(&self) -> (r: u8)
        ensures
            r == spec_code(*self),
    {
        match self {
            KeyIdentity::Virtual(c) => *c,
            KeyIdentity::Unmapped => 0,
        }
    }
}

impl KeyTransition {
    /// The status bit of this transition: 0 when pressed, 1 when released.
    pub fn status_bit(&self) -> (r: u32)
        ensures
            r == spec_status_bit(*self),
    {
        match self {
            KeyTransition::Pressed => 0,
            KeyTransition::Released => 1,
        }
    }
}

} // verus!
