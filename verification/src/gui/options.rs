//! The frontend's switches: their safe defaults, and what flipping one does.

use vstd::prelude::*;

verus! {

/// The switches of the Settings window.
#[derive(Debug, Clone, Copy, PartialEq, Eq, Structural)]
pub struct Options {
    /// Also list devices without media (empty card readers).
    pub show_all: bool,
    /// Allow selecting non-removable disks; enabling it is warning-gated.
    pub advanced: bool,
    /// Select the first removable disk with media at startup; enabling it is
    /// warning-gated (the first removable disk may not be the intended card).
    pub select_first_removable: bool,
    /// Re-read and compare after every write.
    pub verify: bool,
    /// Eject the card after a successful write of the selection.
    pub eject_after_write: bool,
    /// Narrow the selection to what needs writing after a status scan.
    pub select_needed: bool,
    /// Hide slots with no content, name, or image from the slot map.
    pub hide_empty_slots: bool,
    /// Hide the log pane at the bottom of the window.
    pub hide_log: bool,
    /// Show the equivalent command line for every operation.
    pub developer_mode: bool,
}

pub open spec fn safe_options() -> Options {
    Options {
        show_all: false,
        advanced: false,
        select_first_removable: false,
        verify: true,
        eject_after_write: true,
        select_needed: true,
        hide_empty_slots: false,
        hide_log: false,
        developer_mode: false,
    }
}

impl Default for Options {
    /// The safe defaults, also behind "Reset all settings".
    fn default() -> (r: Options)
        ensures
            r == safe_options(),
    {
        Options {
            show_all: false,
            advanced: false,
            select_first_removable: false,
            verify: true,
            eject_after_write: true,
            select_needed: true,
            hide_empty_slots: false,
            hide_log: false,
            developer_mode: false,
        }
    }
}

/// A row of the Settings window.
#[derive(Debug, Clone, Copy, PartialEq, Eq, Structural)]
pub enum Switch {
    ShowAll,
    Advanced,
    AutoSelect,
    Verify,
    Eject,
    Needed,
    HideEmpty,
    HideLog,
    Developer,
}

/// A dangerous option that the user is warned of first.
#[derive(Debug, Clone, Copy, PartialEq, Eq, Structural)]
pub enum Warning {
    Advanced,
    AutoSelect,
}

/// What else a flipped switch calls for.
#[derive(Debug, Clone, Copy, PartialEq, Eq, Structural)]
pub struct Flipped {
    /// Ask the user first; the option is unchanged until they confirm.
    pub ask: Option<Warning>,
    /// The selected device may not be allowed any more.
    pub prune_device: bool,
    /// Slots that are hidden now must not stay ticked.
    pub prune_slots: bool,
    /// Write the settings back.
    pub save: bool,
}

impl Options {
    /// The options after a switch was flipped.
    pub open spec fn flipped(self, switch: Switch, on: bool) -> Options {
        match switch {
            Switch::ShowAll => Options { show_all: on, ..self },
            Switch::Advanced => if on {
                self
            } else {
                Options { advanced: false, ..self }
            },
            Switch::AutoSelect => if on {
                self
            } else {
                Options { select_first_removable: false, ..self }
            },
            Switch::Verify => Options { verify: on, ..self },
            Switch::Eject => Options { eject_after_write: on, ..self },
            Switch::Needed => Options { select_needed: on, ..self },
            Switch::HideEmpty => Options { hide_empty_slots: on, ..self },
            Switch::HideLog => Options { hide_log: on, ..self },
            Switch::Developer => Options { developer_mode: on, ..self },
        }
    }

    /// What a flipped switch calls for.
    pub open spec fn flip_effect(switch: Switch, on: bool) -> Flipped {
        let ask = match switch {
            Switch::Advanced => if on {
                Some(Warning::Advanced)
            } else {
                None
            },
            Switch::AutoSelect => if on {
                Some(Warning::AutoSelect)
            } else {
                None
            },
            _ => None,
        };
        Flipped {
            ask,
            prune_device: switch == Switch::ShowAll || (switch == Switch::Advanced && !on),
            prune_slots: switch == Switch::HideEmpty && on,
            save: ask is None,
        }
    }

    /// The options once a warning was confirmed.
    pub open spec fn confirmed(self, warning: Warning) -> Options {
        match warning {
            Warning::Advanced => Options { advanced: true, ..self },
            Warning::AutoSelect => Options { select_first_removable: true, ..self },
        }
    }

    /// Flip a switch.
    pub fn flip(&mut self, switch: Switch, on: bool) -> (r: Flipped)
        ensures
            *final(self) == old(self).flipped(switch, on),
            r == Options::flip_effect(switch, on),
    {
        let mut r = Flipped { ask: None, prune_device: false, prune_slots: false, save: true };
        match switch {
            Switch::ShowAll => {
                self.show_all = on;
                r.prune_device = true;
            },
            Switch::Advanced => {
                if on {
                    r.ask = Some(Warning::Advanced);
                    r.save = false;
                } else {
                    self.advanced = false;
                    r.prune_device = true;
                }
            },
            Switch::AutoSelect => {
                if on {
                    r.ask = Some(Warning::AutoSelect);
                    r.save = false;
                } else {
                    self.select_first_removable = false;
                }
            },
            Switch::Verify => {
                self.verify = on;
            },
            Switch::Eject => {
                self.eject_after_write = on;
            },
            Switch::Needed => {
                self.select_needed = on;
            },
            Switch::HideEmpty => {
                self.hide_empty_slots = on;
                r.prune_slots = on;
            },
            Switch::HideLog => {
                self.hide_log = on;
            },
            Switch::Developer => {
                self.developer_mode = on;
            },
        }
        r
    }

    /// Enable an option whose warning was confirmed. Returns what to log.
    pub fn enable(&mut self, warning: Warning) -> (r: &'static str)
        ensures
            *final(self) == old(self).confirmed(warning),
            r@ == (match warning {
                Warning::Advanced => "advanced mode enabled: non-removable disks are selectable"@,
                Warning::AutoSelect => "first removable disk will be auto-selected at startup"@,
            }),
    {
        match warning {
            Warning::Advanced => {
                self.advanced = true;
                "advanced mode enabled: non-removable disks are selectable"
            },
            Warning::AutoSelect => {
                self.select_first_removable = true;
                "first removable disk will be auto-selected at startup"
            },
        }
    }
}

/// The dangerous options take effect only after their warning is confirmed:
/// flipping a switch never turns one on.
pub proof fn dangerous_options_need_confirmation(o: Options, switch: Switch, on: bool)
    ensures
        o.flipped(switch, on).advanced ==> o.advanced,
        o.flipped(switch, on).select_first_removable ==> o.select_first_removable,
        Options::flip_effect(switch, on).ask is Some ==> o.flipped(switch, on) == o,
{
}

} // verus!
