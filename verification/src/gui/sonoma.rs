//! Sonoma boards as the front end lists them, and their address ranges.

use vstd::prelude::*;
use crate::sonoma::{bad_core_message, board_ip, vicor_wiring};
use crate::text::dec_chars;

verus! {

/// A Sonoma board found on the network.
#[derive(Debug)]
pub struct SonomaBoardInfo {
    pub ip: String,
    pub alive: bool,
    pub hostname: String,
}

/// The DAC channel and MIO pin of a VICOR core (1-6).
pub fn vicor_map(core: u8) -> (r: Result<(u8, u8), String>)
    ensures
        1 <= core <= 6 ==> r == Ok::<(u8, u8), String>(vicor_wiring(core as int)),
        !(1 <= core <= 6) ==> (r matches Err(m) && m@ == bad_core_message(core)),
{
    crate::sonoma::vicor_map(core)
}

/// The board addresses `172.16.0.start` to `172.16.0.end`.
pub fn expand_ip_range(start: u8, end: u8) -> (r: Result<Vec<String>, String>)
    ensures
        start <= end ==> (r matches Ok(v) && v@.len() == end - start + 1 && forall|k: int|
            0 <= k < v@.len() ==> (#[trigger] v@[k])@ == board_ip(start + k)),
        start > end ==> (r matches Err(m) && m@ == "Start "@ + dec_chars(start as nat) + " > end "@
            + dec_chars(end as nat) + " in range"@),
{
    crate::sonoma::ip_range(start, end)
}

} // verus!
