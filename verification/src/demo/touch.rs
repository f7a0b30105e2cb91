//! Movement keys and the virtual buttons that press them.
use vstd::prelude::*;

verus! {

/// Virtual buttons shown on touch devices.
#[derive(Clone, Copy, PartialEq, Eq, Debug, Structural)]
pub enum ButtonId {
    Forward,
    Back,
    Left,
    Right,
    Up,
    Down,
}

/// Which movement keys are held.
#[derive(Default, Debug, Clone, Copy, PartialEq, Eq, Structural)]
pub struct Keys {
    pub w: bool,
    pub a: bool,
    pub s: bool,
    pub d: bool,
    pub space: bool,
    pub lctrl: bool,
}

/// Presses or releases the movement key a button stands for: forward W,
/// back S, left A, right D, up Space, down left Ctrl.
pub fn set_button_key(keys: &mut Keys, button: ButtonId, pressed: bool)
    ensures
        *final(keys) == (match button {
            ButtonId::Forward => Keys { w: pressed, ..*old(keys) },
            ButtonId::Back => Keys { s: pressed, ..*old(keys) },
            ButtonId::Left => Keys { a: pressed, ..*old(keys) },
            ButtonId::Right => Keys { d: pressed, ..*old(keys) },
            ButtonId::Up => Keys { space: pressed, ..*old(keys) },
            ButtonId::Down => Keys { lctrl: pressed, ..*old(keys) },
        }),
{
    match button {
        ButtonId::Forward => keys.w = pressed,
        ButtonId::Back => keys.s = pressed,
        ButtonId::Left => keys.a = pressed,
        ButtonId::Right => keys.d = pressed,
        ButtonId::Up => keys.space = pressed,
        ButtonId::Down => keys.lctrl = pressed,
    }
}

/// Pressing a button and releasing it again leaves the keys as they were
/// when its key was up before.
pub proof fn law_press_release(k0: Keys, k1: Keys, k2: Keys, button: ButtonId)
    requires
        k1 == (match button {
            ButtonId::Forward => Keys { w: true, ..k0 },
            ButtonId::Back => Keys { s: true, ..k0 },
            ButtonId::Left => Keys { a: true, ..k0 },
            ButtonId::Right => Keys { d: true, ..k0 },
            ButtonId::Up => Keys { space: true, ..k0 },
            ButtonId::Down => Keys { lctrl: true, ..k0 },
        }),
        k2 == (match button {
            ButtonId::Forward => Keys { w: false, ..k1 },
            ButtonId::Back => Keys { s: false, ..k1 },
            ButtonId::Left => Keys { a: false, ..k1 },
            ButtonId::Right => Keys { d: false, ..k1 },
            ButtonId::Up => Keys { space: false, ..k1 },
            ButtonId::Down => Keys { lctrl: false, ..k1 },
        }),
        (match button {
            ButtonId::Forward => !k0.w,
            ButtonId::Back => !k0.s,
            ButtonId::Left => !k0.a,
            ButtonId::Right => !k0.d,
            ButtonId::Up => !k0.space,
            ButtonId::Down => !k0.lctrl,
        }),
    ensures
        k2 == k0,
{
}

} // verus!
