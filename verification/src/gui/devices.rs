//! The frontend's view of one enumerated block device, and which devices it
//! lets the user choose.

use vstd::prelude::*;
use vstd::string::*;

use crate::device::DeviceInfo;
use crate::text::cat5;
use crate::units::{bytes_text, format_bytes};

verus! {

#[derive(Debug)]
pub struct DeviceEntry {
    pub path: String,
    pub model: String,
    pub bus: String,
    pub size_bytes: Option<u64>,
    pub removable: Option<bool>,
    pub system: bool,
}

pub struct DeviceEntryView {
    pub path: Seq<char>,
    pub model: Seq<char>,
    pub bus: Seq<char>,
    pub size_bytes: Option<u64>,
    pub removable: Option<bool>,
    pub system: bool,
}

impl View for DeviceEntry {
    type V = DeviceEntryView;

    open spec fn view(&self) -> DeviceEntryView {
        DeviceEntryView {
            path: self.path@,
            model: self.model@,
            bus: self.bus@,
            size_bytes: self.size_bytes,
            removable: self.removable,
            system: self.system,
        }
    }
}

impl DeviceEntryView {
    pub open spec fn label(self) -> Seq<char> {
        self.model + " — "@ + (match self.size_bytes {
            Some(n) => bytes_text(n),
            None => "?"@,
        }) + " ("@ + self.bus + ")"@ + (if self.removable == Some(true) {
            ", removable"@
        } else {
            ""@
        }) + (if self.system {
            " [SYSTEM DISK]"@
        } else {
            ""@
        })
    }

    pub open spec fn has_media(self) -> bool {
        self.size_bytes matches Some(n) && n > 0
    }

    pub open spec fn is_removable(self) -> bool {
        self.removable == Some(true)
    }

    /// May this device be the target? The system disk never may; a disk that is
    /// not removable needs advanced mode; without media there is nothing to
    /// write.
    pub open spec fn selectable(self, advanced: bool) -> bool {
        self.has_media() && !self.system && (self.is_removable() || advanced)
    }

    /// Why a device is not selectable.
    pub open spec fn block_reason(self) -> Seq<char> {
        if !self.has_media() {
            "no media"@
        } else if self.system {
            "system disk — never writable"@
        } else if !self.is_removable() {
            "non-removable — enable Advanced"@
        } else {
            ""@
        }
    }
}

impl Clone for DeviceEntry {
    fn clone(&self) -> (r: DeviceEntry)
        ensures
            r == *self,
    {
        DeviceEntry {
            path: self.path.clone(),
            model: self.model.clone(),
            bus: self.bus.clone(),
            size_bytes: self.size_bytes,
            removable: self.removable,
            system: self.system,
        }
    }
}

impl DeviceEntry {
    /// The entry for an enumerated device.
    pub fn of(d: DeviceInfo) -> (r: DeviceEntry)
        ensures
            r@ == (DeviceEntryView {
                path: d.path@,
                model: d.model@,
                bus: d.bus@,
                size_bytes: d.size_bytes,
                removable: d.removable,
                system: d.system,
            }),
    {
        DeviceEntry {
            path: d.path,
            model: d.model,
            bus: d.bus,
            size_bytes: d.size_bytes,
            removable: d.removable,
            system: d.system,
        }
    }

    pub fn label(&self) -> (r: String)
        ensures
            r@ == self@.label(),
    {
        let size = match self.size_bytes {
            Some(n) => format_bytes(n),
            None => "?".to_owned(),
        };
        let mut s = cat5(&self.model, " — ", &size, " (", &self.bus);
        s.append(")");
        match self.removable {
            Some(true) => s.append(", removable"),
            _ => s.append(""),
        }
        if self.system {
            s.append(" [SYSTEM DISK]");
        } else {
            s.append("");
        }
        s
    }

    /// A card reader with no card reports no (or zero) capacity.
    pub fn has_media(&self) -> (r: bool)
        ensures
            r == self@.has_media(),
    {
        match self.size_bytes {
            Some(n) => n > 0,
            None => false,
        }
    }

    /// Anything not positively known to be removable is treated as
    /// non-removable.
    pub fn is_removable(&self) -> (r: bool)
        ensures
            r == self@.is_removable(),
    {
        match self.removable {
            Some(b) => b,
            None => false,
        }
    }

    /// May this device be chosen as the target?
    pub fn selectable(&self, advanced: bool) -> (r: bool)
        ensures
            r == self@.selectable(advanced),
    {
        self.has_media() && !self.system && (self.is_removable() || advanced)
    }

    /// Why a device is not selectable, for the grayed-out entry.
    pub fn block_reason(&self) -> (r: &'static str)
        ensures
            r@ == self@.block_reason(),
    {
        if !self.has_media() {
            "no media"
        } else if self.system {
            "system disk — never writable"
        } else if !self.is_removable() {
            "non-removable — enable Advanced"
        } else {
            ""
        }
    }
}

/// The system disk is never selectable, whatever the mode.
pub proof fn system_disk_is_never_selectable(d: DeviceEntryView, advanced: bool)
    requires
        d.system,
    ensures
        !d.selectable(advanced),
{
}

/// Every device that cannot be chosen outside advanced mode has a reason to
/// show.
pub proof fn blocked_devices_have_a_reason(d: DeviceEntryView)
    requires
        !d.selectable(false),
    ensures
        d.block_reason().len() > 0,
{
    reveal_strlit("no media");
    reveal_strlit("system disk — never writable");
    reveal_strlit("non-removable — enable Advanced");
}

} // verus!
