use vstd::prelude::*;

verus! {

/// The keyboard's layout.
#[derive(Clone, Copy, Debug, PartialEq, Eq, Structural)]
pub enum KeyboardLayout {
    Qwerty,
    Qwertz,
}

/// What the status bar shows.
pub struct SystemStatus {
    pub wifi_strength: u8,
    /// Weather icon, 0 to 4.
    pub weather_icon: u8,
    pub time_str: String,
}

/// Settings shared by all pages.
pub struct Context {
    pub dark_mode: bool,
    pub layout: KeyboardLayout,
    pub status: SystemStatus,
    /// The chosen offset from UTC, as the time-zone page names it.
    pub timezone: String,
}

impl Context {
    /// Light mode, QWERTY, an empty status (no signal, icon 0, "00:00"),
    /// time zone "UTC".
    pub fn new() -> (c: Self)
        ensures
            !c.dark_mode,
            c.layout == KeyboardLayout::Qwerty,
            c.status.wifi_strength == 0,
            c.status.weather_icon == 0,
            c.status.time_str@ == seq!['0', '0', ':', '0', '0'],
            c.timezone@ == seq!['U', 'T', 'C'],
    {
        let time_str = "00:00".to_owned();
        let timezone = "UTC".to_owned();
        proof {
            reveal_strlit("00:00");
            reveal_strlit("UTC");
        }
        Context {
            dark_mode: false,
            layout: KeyboardLayout::Qwerty,
            status: SystemStatus { wifi_strength: 0, weather_icon: 0, time_str },
            timezone,
        }
    }
}

} // verus!
