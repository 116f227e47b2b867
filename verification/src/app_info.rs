//! The managed apps' descriptors: name, banner lines, brand color and
//! releases endpoint.

use vstd::prelude::*;

verus! {

/// An RGB color for the banner.
#[derive(Debug, Clone, Copy, PartialEq, Eq, Structural)]
pub struct Color(pub u8, pub u8, pub u8);

/// A managed app: its binary-name prefix, banner text, color and
/// releases endpoint.
#[derive(Debug, Clone, Copy)]
pub struct AppInfo {
    pub name: &'static str,
    pub line_1: &'static str,
    pub line_2: &'static str,
    pub bg: Color,
    pub link: &'static str,
}

/// The learning app.
pub fn learn() -> (r: AppInfo)
    ensures
        r.name@ == ("ri-lab")@,
        r.link@ == ("https://api.github.com/repos/rustinsight/lab/releases")@,
        r.bg == Color(255, 61, 0),
{
    AppInfo {
        name: "ri-lab",
        line_1: "  Ri!  ",
        line_2: "  Lab  ",
        bg: Color(255, 61, 0),
        link: "https://api.github.com/repos/rustinsight/lab/releases",
    }
}

} // verus!
