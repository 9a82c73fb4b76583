//! Embed colours (RGB) used by the bot's messages.
use vstd::prelude::*;

verus! {

/// Gold, the colour of an embed that sets none.
pub const GOLD: u32 = 0xF1C40F;

/// Red.
pub const RED: u32 = 0xE74C3C;

/// Luminous vivid pink.
pub const LUMINOUS_VIVID_PINK: u32 = 0xE91E63;

} // verus!
