//! A stochastic hill-climbing image synthesizer: random lines and rectangles
//! are proposed over a canvas and kept only where they lower the local color
//! error against a target raster.

pub mod adapt;
pub mod generate;
pub mod palette;
pub mod raster;
pub mod scoring;
pub mod search;
pub mod shapes;

use vstd::prelude::*;

verus! {

/// The version banner: name, `semver`, target triple, build date and the
/// copy-privilege line.
pub fn version(semver: &str, target: &str, date: &str) -> (v: String)
    ensures
        v@ == "ReDraw "@ + semver@ + " ("@ + target@ + "), compiled on "@ + date@
            + ".\nCheck your copy-privilege. \u{1F12F}  2017"@,
{
    let mut v = String::from_str("ReDraw ");
    v.append(semver);
    v.append(" (");
    v.append(target);
    v.append("), compiled on ");
    v.append(date);
    v.append(".\nCheck your copy-privilege. \u{1F12F}  2017");
    v
}

} // verus!
