use vstd::prelude::*;
use vstd::string::StringSliceAdditionalSpecFns;

verus! {

/// Which of the two programs the executable runs.
#[derive(Clone, Copy, Debug, PartialEq, Eq, Structural)]
pub enum SimulationType {
    /// The interactive mechanism, validated against a loaded grid.
    Main,
    /// The offline sweep that builds the collision grid.
    Grid,
}

/// The program named by the UTF-8 bytes of a command-line word: the bytes
/// of `"main"` or of `"grid"`.
pub open spec fn simulation_of(b: Seq<u8>) -> Option<SimulationType> {
    if b == seq![109u8, 97u8, 105u8, 110u8] {
        Some(SimulationType::Main)
    } else if b == seq![103u8, 114u8, 105u8, 100u8] {
        Some(SimulationType::Grid)
    } else {
        None
    }
}

impl SimulationType {
    /// `"main"` and `"grid"` name a program; every other word names none.
    pub fn from_str(s: &str) -> (r: Option<SimulationType>)
        ensures
            r == simulation_of(s.spec_bytes()),
    {
        let b = s.as_bytes();
        if b.len() != 4 {
            return None;
        }
        if b[0] == 109u8 && b[1] == 97u8 && b[2] == 105u8 && b[3] == 110u8 {
            assert(b@ =~= seq![109u8, 97u8, 105u8, 110u8]);
            Some(SimulationType::Main)
        } else if b[0] == 103u8 && b[1] == 114u8 && b[2] == 105u8 && b[3] == 100u8 {
            assert(b@ =~= seq![103u8, 114u8, 105u8, 100u8]);
            Some(SimulationType::Grid)
        } else {
            None
        }
    }
}

} // verus!
