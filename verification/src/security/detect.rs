//! Risk score of the environment.
use vstd::prelude::*;

verus! {

/// Forensic environment detection.
pub struct ForensicDetector;

impl ForensicDetector {
    /// Whether any of the probed indicators is present (an emulator or root indicator found).
    pub fn any_present(present: &[bool]) -> (r: bool)
        ensures
            r == exists|i: int| 0 <= i < present@.len() && present@[i],
    {
        let mut i: usize = 0;
        while i < present.len()
            invariant
                i <= present@.len(),
                forall|j: int| 0 <= j < i ==> !present@[j],
            decreases present@.len() - i,
        {
            if present[i] {
                return true;
            }
            i = i + 1;
        }
        false
    }

    /// The risk score: 2 for an emulator, 3 for a rooted device, added.
    pub fn risk_level(is_emulator: bool, is_rooted: bool) -> (r: u8)
        ensures
            r == (if is_emulator { 2u8 } else { 0u8 }) + (if is_rooted { 3u8 } else { 0u8 }),
    {
        let mut score: u8 = 0;
        if is_emulator {
            score = score + 2;
        }
        if is_rooted {
            score = score + 3;
        }
        score
    }
}

} // verus!
