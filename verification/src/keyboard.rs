//! Key repeat timing, and the keys that shortcuts are matched on when they
//! follow the keyboard layout.

use vstd::prelude::*;

use crate::input::{
    KEY_B, KEY_BACKSPACE, KEY_C, KEY_DOWN, KEY_ENTER, KEY_ESC, KEY_F, KEY_G, KEY_H, KEY_HOME, KEY_J,
    KEY_K, KEY_KPENTER, KEY_L, KEY_LEFT, KEY_LEFTBRACE, KEY_M, KEY_N, KEY_P, KEY_PAGEDOWN, KEY_PAGEUP,
    KEY_RIGHT, KEY_TAB, KEY_U, KEY_UP, KEY_V, KEY_W,
};

verus! {

/// `std::time::Instant`, carried through unopened.
#[verifier::external_type_specification]
#[verifier::external_body]
pub struct ExInstant(std::time::Instant);

/// `Instant::now`: the current time; nothing is stated of it.
#[verifier::external_body]
fn instant_now() -> std::time::Instant {
    std::time::Instant::now()
}

/// `Instant::saturating_duration_since`: the time from `earlier` to `later`,
/// zero when `earlier` is not before `later`; nothing is stated of it here.
#[verifier::external_body]
fn saturating_duration_since(later: &std::time::Instant, earlier: std::time::Instant) -> std::time::Duration {
    later.saturating_duration_since(earlier)
}

/// Per-key repeat tracking.
#[derive(Debug)]
pub struct RepeatInfo {
    /// Repeat rate in events per second; 0 means repeat is disabled.
    pub rate: i32,
    /// Initial delay before the first repeat event, in milliseconds.
    pub delay_ms: i32,
    /// `true` while a key is held and repeat is armed.
    pub active: bool,
    /// XKB keycode of the key being repeated (`evdev_key + 8`).
    pub keycode: u32,
    /// Monotonic deadline for the next repeat event.
    pub next: std::time::Instant,
}

impl Default for RepeatInfo {
    /// Repeat off (rate 0), a 200 ms delay, nothing held; the deadline is now.
    fn default() -> (r: Self)
        ensures
            r.rate == 0,
            r.delay_ms == 200,
            !r.active,
            r.keycode == 0,
    {
        RepeatInfo { rate: 0, delay_ms: 200, active: false, keycode: 0, next: instant_now() }
    }
}

impl RepeatInfo {
    /// The time left until the next repeat event (zero when it is overdue),
    /// or `None` when no repeat is scheduled: no key is held or repeat is off.
    pub fn timeout(&self) -> (r: Option<std::time::Duration>)
        ensures
            r is None <==> (!self.active || self.rate == 0),
    {
        if !self.active || self.rate == 0 {
            return None;
        }
        let now = instant_now();
        Some(saturating_duration_since(&self.next, now))
    }
}

pub const KEYSYM_BACKSPACE: u32 = 0xff08;
pub const KEYSYM_TAB: u32 = 0xff09;
pub const KEYSYM_RETURN: u32 = 0xff0d;
pub const KEYSYM_ESCAPE: u32 = 0xff1b;
pub const KEYSYM_HOME: u32 = 0xff50;
pub const KEYSYM_LEFT: u32 = 0xff51;
pub const KEYSYM_UP: u32 = 0xff52;
pub const KEYSYM_RIGHT: u32 = 0xff53;
pub const KEYSYM_DOWN: u32 = 0xff54;
pub const KEYSYM_PAGE_UP: u32 = 0xff55;
pub const KEYSYM_PAGE_DOWN: u32 = 0xff56;
pub const KEYSYM_KP_ENTER: u32 = 0xff8d;
pub const KEYSYM_ISO_LEFT_TAB: u32 = 0xfe20;
pub const KEYSYM_BRACKETLEFT: u32 = 0x5b;
pub const KEYSYM_B: u32 = 0x62;
pub const KEYSYM_C: u32 = 0x63;
pub const KEYSYM_F: u32 = 0x66;
pub const KEYSYM_G: u32 = 0x67;
pub const KEYSYM_H: u32 = 0x68;
pub const KEYSYM_J: u32 = 0x6a;
pub const KEYSYM_K: u32 = 0x6b;
pub const KEYSYM_L: u32 = 0x6c;
pub const KEYSYM_M: u32 = 0x6d;
pub const KEYSYM_N: u32 = 0x6e;
pub const KEYSYM_P: u32 = 0x70;
pub const KEYSYM_U: u32 = 0x75;
pub const KEYSYM_V: u32 = 0x76;
pub const KEYSYM_W: u32 = 0x77;

/// The Linux key code that a keysym stands for in shortcuts, or `u32::MAX`
/// for a keysym that no shortcut uses.
pub open spec fn spec_keysym_to_linux_key(sym: u32) -> u32 {
    if sym == KEYSYM_BACKSPACE { KEY_BACKSPACE }
    else if sym == KEYSYM_W { KEY_W }
    else if sym == KEYSYM_U { KEY_U }
    else if sym == KEYSYM_V { KEY_V }
    else if sym == KEYSYM_LEFT { KEY_LEFT }
    else if sym == KEYSYM_RIGHT { KEY_RIGHT }
    else if sym == KEYSYM_UP { KEY_UP }
    else if sym == KEYSYM_ISO_LEFT_TAB { KEY_TAB }
    else if sym == KEYSYM_H { KEY_H }
    else if sym == KEYSYM_K { KEY_K }
    else if sym == KEYSYM_P { KEY_P }
    else if sym == KEYSYM_DOWN { KEY_DOWN }
    else if sym == KEYSYM_TAB { KEY_TAB }
    else if sym == KEYSYM_L { KEY_L }
    else if sym == KEYSYM_J { KEY_J }
    else if sym == KEYSYM_N { KEY_N }
    else if sym == KEYSYM_B { KEY_B }
    else if sym == KEYSYM_F { KEY_F }
    else if sym == KEYSYM_HOME { KEY_HOME }
    else if sym == KEYSYM_PAGE_UP { KEY_PAGEUP }
    else if sym == KEYSYM_PAGE_DOWN { KEY_PAGEDOWN }
    else if sym == KEYSYM_ESCAPE { KEY_ESC }
    else if sym == KEYSYM_C { KEY_C }
    else if sym == KEYSYM_BRACKETLEFT { KEY_LEFTBRACE }
    else if sym == KEYSYM_G { KEY_G }
    else if sym == KEYSYM_RETURN { KEY_ENTER }
    else if sym == KEYSYM_KP_ENTER { KEY_KPENTER }
    else if sym == KEYSYM_M { KEY_M }
    else { u32::MAX }
}

/// Maps a keysym (its raw value) to the Linux key code that shortcuts are
/// matched on, for shortcuts that follow the keyboard layout.
pub fn keysym_to_linux_key(sym: u32) -> (k: u32)
    ensures
        k == spec_keysym_to_linux_key(sym),
{
    match sym {
        KEYSYM_BACKSPACE => KEY_BACKSPACE,
        KEYSYM_W => KEY_W,
        KEYSYM_U => KEY_U,
        KEYSYM_V => KEY_V,
        KEYSYM_LEFT => KEY_LEFT,
        KEYSYM_RIGHT => KEY_RIGHT,
        KEYSYM_UP => KEY_UP,
        KEYSYM_ISO_LEFT_TAB => KEY_TAB,
        KEYSYM_H => KEY_H,
        KEYSYM_K => KEY_K,
        KEYSYM_P => KEY_P,
        KEYSYM_DOWN => KEY_DOWN,
        KEYSYM_TAB => KEY_TAB,
        KEYSYM_L => KEY_L,
        KEYSYM_J => KEY_J,
        KEYSYM_N => KEY_N,
        KEYSYM_B => KEY_B,
        KEYSYM_F => KEY_F,
        KEYSYM_HOME => KEY_HOME,
        KEYSYM_PAGE_UP => KEY_PAGEUP,
        KEYSYM_PAGE_DOWN => KEY_PAGEDOWN,
        KEYSYM_ESCAPE => KEY_ESC,
        KEYSYM_C => KEY_C,
        KEYSYM_BRACKETLEFT => KEY_LEFTBRACE,
        KEYSYM_G => KEY_G,
        KEYSYM_RETURN => KEY_ENTER,
        KEYSYM_KP_ENTER => KEY_KPENTER,
        KEYSYM_M => KEY_M,
        _ => u32::MAX,
    }
}

} // verus!
