//! Platform trivia with a uniform face: package-runner names, the modal
//! popup, the foreground-window test and the data-directory name.  Where a
//! platform has no hook thread, popup or window query, these answer as
//! that platform does.

use vstd::prelude::*;

verus! {

/// The yarn binary's name: Windows launches the shell wrapper.
pub fn get_yarn(windows: bool) -> (r: &'static str)
    ensures
        windows ==> r@ == "yarn.cmd"@,
        !windows ==> r@ == "yarn"@,
{
    if windows {
        "yarn.cmd"
    } else {
        "yarn"
    }
}

/// The npm binary's name: Windows launches the shell wrapper.
pub fn get_npm(windows: bool) -> (r: &'static str)
    ensures
        windows ==> r@ == "npm.cmd"@,
        !windows ==> r@ == "npm"@,
{
    if windows {
        "npm.cmd"
    } else {
        "npm"
    }
}

/// Shows a modal information popup; a no-op where the platform offers
/// none.
pub fn simple_popup(title: &str, caption: &str) {
}

/// Whether the foreground window belongs to the given process or one of
/// its descendants; without a window system to ask, nothing is ever in
/// focus.
pub fn client_in_focus(process_id: u32) -> (r: bool)
    ensures
        r == false,
{
    false
}

/// An upper-case ASCII letter folded to lower case; everything else kept.
pub open spec fn lower_byte(b: u8) -> u8 {
    if 'A' as u8 <= b <= 'Z' as u8 {
        (b + 32) as u8
    } else {
        b
    }
}

/// Folds ASCII letters to lower case, byte for byte.
pub fn ascii_lowercase(s: &[u8]) -> (r: Vec<u8>)
    ensures
        r@ == s@.map_values(|b: u8| lower_byte(b)),
{
    let mut r: Vec<u8> = Vec::new();
    let mut i: usize = 0;
    proof {
        assert(r@ =~= s@.take(0).map_values(|b: u8| lower_byte(b)));
    }
    while i < s.len()
        invariant
            i <= s@.len(),
            r@ == s@.take(i as int).map_values(|b: u8| lower_byte(b)),
        decreases s@.len() - i,
    {
        let b = s[i];
        if b >= 'A' as u8 && b <= 'Z' as u8 {
            r.push(b + 32);
        } else {
            r.push(b);
        }
        proof {
            assert(s@.take(i + 1).map_values(|b: u8| lower_byte(b)) =~= s@.take(
                i as int,
            ).map_values(|b: u8| lower_byte(b)).push(lower_byte(s@[i as int])));
        }
        i += 1;
    }
    proof {
        assert(s@.take(i as int) =~= s@);
    }
    r
}

/// The directory name the launcher's data lives under: the application
/// name as given on Windows, folded to lower case elsewhere.
pub fn platform_app_dir_name(app_name: &[u8], windows: bool) -> (r: Vec<u8>)
    ensures
        windows ==> r@ == app_name@,
        !windows ==> r@ == app_name@.map_values(|b: u8| lower_byte(b)),
{
    if windows {
        vstd::slice::slice_to_vec(app_name)
    } else {
        ascii_lowercase(app_name)
    }
}

} // verus!
