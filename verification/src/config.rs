//! Configuration data the compositor is started with: keybinding
//! patterns, the actions they trigger, keyboard (xkb) settings, per-output
//! modes, and the defaults used when the configuration file leaves a field
//! out. Reading and parsing the file is the configuration collaborator's
//! job; the values arrive here as plain data.

use vstd::prelude::*;

verus! {

/// A configured output mode: logical size plus an optional refresh rate in
/// whole hertz.
#[derive(Clone, Copy, Debug)]
pub struct OutputConfig(pub (i32, i32), pub Option<u32>);

impl OutputConfig {
    /// The configured mode size.
    pub fn mode_size(&self) -> (r: (i32, i32))
        ensures
            r == self.0,
    {
        self.0
    }

    /// The configured refresh rate in millihertz; 60 Hz when none is
    /// configured.
    pub fn mode_refresh(&self) -> (r: u32)
        requires
            self.1 matches Some(hz) ==> hz <= u32::MAX / 1000,
        ensures
            r == match self.1 {
                Some(hz) => (hz * 1000) as u32,
                None => 60000u32,
            },
    {
        match self.1 {
            Some(hz) => hz * 1000,
            None => 60000,
        }
    }
}

/// One keyboard modifier.
#[derive(Clone, Copy, Debug, PartialEq, Eq, Structural)]
pub enum KeyModifier {
    Ctrl,
    Alt,
    Shift,
    Super,
}

/// The set of modifiers a key binding expects.
#[derive(Clone, Copy, Debug, PartialEq, Eq, Structural)]
pub struct KeyModifiers {
    pub ctrl: bool,
    pub alt: bool,
    pub shift: bool,
    pub logo: bool,
}

/// A modifier set as the configuration file writes it: a plain list.
#[derive(Clone, Debug)]
pub struct KeyModifiersDef(pub Vec<KeyModifier>);

/// The modifier set a list denotes: each flag is on exactly when the list
/// names it.
pub open spec fn spec_modifiers_of(list: Seq<KeyModifier>) -> KeyModifiers {
    KeyModifiers {
        ctrl: list.contains(KeyModifier::Ctrl),
        alt: list.contains(KeyModifier::Alt),
        shift: list.contains(KeyModifier::Shift),
        logo: list.contains(KeyModifier::Super),
    }
}

impl From<KeyModifiersDef> for KeyModifiers {
    /// Fold the listed modifiers into the flag set.
    fn from(src: KeyModifiersDef) -> (r: KeyModifiers) {
        let list = src.0;
        let mut r = KeyModifiers { ctrl: false, alt: false, shift: false, logo: false };
        let mut k: usize = 0;
        while k < list.len()
            invariant
                0 <= k <= list@.len(),
                r.ctrl == exists|j: int| 0 <= j < k && list@[j] == KeyModifier::Ctrl,
                r.alt == exists|j: int| 0 <= j < k && list@[j] == KeyModifier::Alt,
                r.shift == exists|j: int| 0 <= j < k && list@[j] == KeyModifier::Shift,
                r.logo == exists|j: int| 0 <= j < k && list@[j] == KeyModifier::Super,
            decreases list@.len() - k,
        {
            match list[k] {
                KeyModifier::Ctrl => {
                    r.ctrl = true;
                },
                KeyModifier::Alt => {
                    r.alt = true;
                },
                KeyModifier::Shift => {
                    r.shift = true;
                },
                KeyModifier::Super => {
                    r.logo = true;
                },
            }
            proof {
                assert(list@[k as int] == list@[k as int]);
            }
            k = k + 1;
        }
        r
    }
}

impl vstd::std_specs::convert::FromSpecImpl<KeyModifiersDef> for KeyModifiers {
    open spec fn obeys_from_spec() -> bool {
        true
    }

    open spec fn from_spec(t: KeyModifiersDef) -> KeyModifiers {
        spec_modifiers_of(t.0@)
    }
}

/// A key combination the compositor handles: the expected modifiers plus
/// the key itself, as an xkb keysym code.
#[derive(Clone, Copy, Debug, PartialEq, Eq, Structural)]
pub struct KeyPattern {
    /// What modifiers are expected to be pressed alongside the key.
    pub modifiers: KeyModifiers,
    /// The actual key that was pressed.
    pub key: u32,
}

/// What a key binding does.
#[derive(Clone, Debug, PartialEq, Eq)]
pub enum Action {
    Quit,
    Debug,
    Close,
    Workspace(u8),
    MoveWindow(u8),
    MoveAndSwitch(u8),
    ToggleWindowFloating,
    VTSwitch(i32),
    Spawn(String),
}

/// Keyboard layout settings handed to the input collaborator.
#[derive(Clone, Debug)]
pub struct XkbConfig {
    pub rules: String,
    pub model: String,
    pub layout: String,
    pub variant: String,
    pub options: Option<String>,
}

impl Default for XkbConfig {
    /// Empty settings: the system defaults.
    fn default() -> (r: Self)
        ensures
            r.rules@ == Seq::<char>::empty(),
            r.model@ == Seq::<char>::empty(),
            r.layout@ == Seq::<char>::empty(),
            r.variant@ == Seq::<char>::empty(),
            r.options is None,
    {
        XkbConfig {
            rules: String::new(),
            model: String::new(),
            layout: String::new(),
            variant: String::new(),
            options: None,
        }
    }
}

/// The gap configuration used when the file names none: five logical
/// units outside the tiled area and five between windows.
pub open spec fn spec_default_gaps() -> (i32, i32) {
    (5i32, 5i32)
}

/// The gap configuration used when the file names none.
pub fn default_gaps() -> (r: (i32, i32))
    ensures
        r == spec_default_gaps(),
{
    (5, 5)
}

/// The keyboard settings used when the file names none.
pub fn default_xkb() -> (r: XkbConfig)
    ensures
        r.rules@ == Seq::<char>::empty(),
        r.options is None,
{
    XkbConfig::default()
}

/// The autostart list used when the file names none: nothing is started.
pub fn default_autostart() -> (r: Vec<String>)
    ensures
        r@.len() == 0,
{
    Vec::new()
}

} // verus!
