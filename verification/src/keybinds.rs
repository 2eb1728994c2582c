//! Global-input bookkeeping: which keys interest the renderer, the one-shot
//! accept-all mode, and the mouse-click counter behind the activity probe.

use vstd::prelude::*;

verus! {

/// Mathematical model of the keybind state.
pub ghost struct KeybindsV {
    pub accept_all: bool,
    pub interested: Seq<u64>,
    pub mouse_clicks: nat,
}

/// Shared keybind state: the interested key codes, the one-shot accept-all
/// flag, and how many left-button releases have been seen.
pub struct Keybinds {
    pub accept_all: bool,
    pub interested: Vec<u64>,
    pub mouse_clicks: usize,
}

impl View for Keybinds {
    type V = KeybindsV;

    open spec fn view(&self) -> KeybindsV {
        KeybindsV {
            accept_all: self.accept_all,
            interested: self.interested@,
            mouse_clicks: self.mouse_clicks as nat,
        }
    }
}

impl Default for Keybinds {
    /// Nothing interests a fresh listener and nothing has been clicked.
    fn default() -> (r: Keybinds)
        ensures
            r@.accept_all == false,
            r@.interested == Seq::<u64>::empty(),
            r@.mouse_clicks == 0,
    {
        Keybinds { accept_all: false, interested: Vec::new(), mouse_clicks: 0 }
    }
}

/// Whether a key code is in a list of interesting codes.
fn contains_code(v: &Vec<u64>, code: u64) -> (r: bool)
    ensures
        r == v@.contains(code),
{
    let mut i: usize = 0;
    while i < v.len()
        invariant
            i <= v@.len(),
            forall|j: int| 0 <= j < i ==> v@[j] != code,
        decreases v@.len() - i,
    {
        if v[i] == code {
            proof {
                assert(v@[i as int] == code);
            }
            return true;
        }
        i += 1;
    }
    proof {
        assert(forall|j: int| 0 <= j < v@.len() ==> v@[j] != code);
    }
    false
}

impl Keybinds {
    /// Decides whether a key event is published to subscribers: only keys
    /// in the interested set pass, unless accept-all mode is on, which a
    /// single published key switches off again.
    pub fn key_event(&mut self, code: u64) -> (publish: bool)
        ensures
            publish == (old(self)@.interested.contains(code) || old(self)@.accept_all),
            final(self)@.accept_all == (old(self)@.accept_all && !publish),
            final(self)@.interested == old(self)@.interested,
            final(self)@.mouse_clicks == old(self)@.mouse_clicks,
    {
        let hit = contains_code(&self.interested, code) || self.accept_all;
        if hit {
            self.accept_all = false;
        }
        hit
    }

    /// Counts one left-button release.
    pub fn mouse_click(&mut self)
        requires
            old(self)@.mouse_clicks < usize::MAX,
        ensures
            final(self)@.mouse_clicks == old(self)@.mouse_clicks + 1,
            final(self)@.accept_all == old(self)@.accept_all,
            final(self)@.interested == old(self)@.interested,
    {
        self.mouse_clicks += 1;
    }

    /// Replaces the interested set, unless more keys arrive than the
    /// configured bound allows; a refused request leaves the set untouched.
    pub fn set_interesting_keys(&mut self, keys: Vec<u64>, max_keybinds: u64) -> (accepted: bool)
        ensures
            accepted == (keys@.len() <= max_keybinds),
            accepted ==> final(self)@.interested == keys@,
            !accepted ==> final(self)@.interested == old(self)@.interested,
            final(self)@.accept_all == old(self)@.accept_all,
            final(self)@.mouse_clicks == old(self)@.mouse_clicks,
    {
        if keys.len() as u64 > max_keybinds {
            return false;
        }
        self.interested = keys;
        true
    }
}

/// A handle for the key-listener thread; stopping posts the sentinel that
/// ends its message loop, a no-op where no hook thread runs.
pub struct KeyListenerTask {
    pub thread_id: usize,
}

impl KeyListenerTask {
    /// Asks the listener thread to unhook and exit.
    pub fn stop(&self) {
    }
}

} // verus!
