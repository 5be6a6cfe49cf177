//! Where an executable is looked for when the settings name none, and which
//! executables are shortcuts that have to be followed before launching.
use vstd::prelude::*;
use vstd::string::StringExecFns;
use crate::text::{chars_of, ends_with, matches_at};

verus! {

/// The conventional install location of the executable for `version`:
/// releases of the 2.x line start `blender.exe`, the others start
/// `blender-launcher.exe`.
pub open spec fn install_path(version: Seq<char>) -> Seq<char> {
    "C:\\Program Files\\Blender Foundation\\Blender "@ + version + if version.len() > 0
        && version[0] == '2' {
        "\\blender.exe"@
    } else {
        "\\blender-launcher.exe"@
    }
}

/// The path at which the installer puts the executable for `version`.
pub fn default_install_path(version: &str) -> (r: String)
    ensures
        r@ == install_path(version@),
{
    let c = chars_of(version);
    let mut r = String::from_str("C:\\Program Files\\Blender Foundation\\Blender ");
    r.append(version);
    if c.len() > 0 && c[0] == '2' {
        r.append("\\blender.exe");
    } else {
        r.append("\\blender-launcher.exe");
    }
    r
}

/// The file name extension of a shortcut.
pub open spec fn shortcut_extension() -> Seq<char> {
    seq!['.', 'l', 'n', 'k']
}

/// Whether `executable` names a shortcut (it ends with `.lnk`), whose target
/// and arguments have to be read before launching.
pub fn is_shortcut(executable: &str) -> (r: bool)
    ensures
        r == ends_with(executable@, shortcut_extension()),
{
    let c = chars_of(executable);
    let ext: Vec<char> = vec!['.', 'l', 'n', 'k'];
    if c.len() < 4 {
        return false;
    }
    let r = matches_at(&c, c.len() - 4, &ext);
    assert(c@.skip(c@.len() - 4) =~= c@.subrange(c@.len() - 4, c@.len() as int));
    r
}

} // verus!
