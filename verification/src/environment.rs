//! Decisions that are made when an app is started.
use vstd::prelude::*;

pub mod class_order;
pub mod laws;
pub mod load_order;

use crate::text::{after_prefix, same_text, without_prefix};

verus! {

/// How the device is held.
#[derive(Clone, Copy, Debug, PartialEq, Eq, Structural)]
pub enum DeviceOrientation {
    Portrait,
    LandscapeLeft,
    LandscapeRight,
}

/// How the device is held for an app that needs an orientation of its
/// interface.
///
/// Orientations of the interface are flipped relative to those of the device:
/// content has to rotate in the opposite direction to how the device rotates.
pub open spec fn device_orientation(interface: Seq<char>) -> DeviceOrientation {
    if interface == "UIInterfaceOrientationLandscapeLeft"@ {
        DeviceOrientation::LandscapeRight
    } else if interface == "UIInterfaceOrientationLandscapeRight"@ {
        DeviceOrientation::LandscapeLeft
    } else if interface == "UIInterfaceOrientationLandscape"@ {
        DeviceOrientation::LandscapeLeft
    } else {
        DeviceOrientation::Portrait
    }
}

/// Whether a text is in a list.
pub open spec fn lists_text(texts: Seq<String>, text: Seq<char>) -> bool {
    exists|i: int| 0 <= i < texts.len() && (#[trigger] texts[i])@ == text
}

/// How the device is held when an app starts.
///
/// A non-portrait orientation is only forced when the app explicitly does not
/// advertise portrait support. Then it is the first one that the app lists.
pub fn startup_orientation(
    initial: DeviceOrientation,
    supported: &Vec<String>,
) -> (orientation: DeviceOrientation)
    ensures
        orientation == if initial == DeviceOrientation::Portrait && supported@.len() > 0
            && !lists_text(supported@, "UIInterfaceOrientationPortrait"@) {
            device_orientation(supported@[0]@)
        } else {
            initial
        },
{
    if initial != DeviceOrientation::Portrait || supported.len() == 0 {
        return initial;
    }
    let mut i: usize = 0;
    while i < supported.len()
        invariant
            i <= supported@.len(),
            forall|k: int|
                0 <= k < i ==> (#[trigger] supported@[k])@ != "UIInterfaceOrientationPortrait"@,
        decreases supported@.len() - i,
    {
        if same_text(supported[i].as_str(), "UIInterfaceOrientationPortrait") {
            return initial;
        }
        i = i + 1;
    }
    let interface = supported[0].as_str();
    if same_text(interface, "UIInterfaceOrientationLandscapeLeft") {
        DeviceOrientation::LandscapeRight
    } else if same_text(interface, "UIInterfaceOrientationLandscapeRight") {
        DeviceOrientation::LandscapeLeft
    } else if same_text(interface, "UIInterfaceOrientationLandscape") {
        DeviceOrientation::LandscapeLeft
    } else {
        DeviceOrientation::Portrait
    }
}

/// Which device an app is shown.
#[derive(Clone, Copy, Debug, PartialEq, Eq, Structural)]
pub enum FamilyChoice {
    /// The one that the user asked for.
    Override,
    DefaultPhone,
    DefaultIpad,
}

/// Chooses the device. What the user asks for counts if the app supports
/// devices of that kind. Otherwise phones are preferred.
pub fn choose_device_family(
    override_is_ipad: Option<bool>,
    supports_phone: bool,
    supports_ipad: bool,
) -> (choice: FamilyChoice)
    ensures
        choice == if override_is_ipad == Some(true) && supports_ipad {
            FamilyChoice::Override
        } else if override_is_ipad == Some(false) && supports_phone {
            FamilyChoice::Override
        } else if !supports_phone && supports_ipad {
            FamilyChoice::DefaultIpad
        } else {
            FamilyChoice::DefaultPhone
        },
{
    if let Some(is_ipad) = override_is_ipad {
        if is_ipad && supports_ipad {
            return FamilyChoice::Override;
        }
        if !is_ipad && supports_phone {
            return FamilyChoice::Override;
        }
    }
    if supports_phone {
        FamilyChoice::DefaultPhone
    } else if supports_ipad {
        FamilyChoice::DefaultIpad
    } else {
        FamilyChoice::DefaultPhone
    }
}

/// Where the bundled libraries are loaded. They have their base addresses from
/// before iOS 3.1, or were built with one. `None` for a library that is not
/// known.
pub open spec fn slide_of(name: Seq<char>) -> Option<u32> {
    if name == "libstdc++.6.dylib"@ || name == "libstdc++.6.0.9.dylib"@ {
        Some(0x3748_a000)
    } else if name == "libc++.1.dylib"@ {
        Some(0x3800_0000)
    } else if name == "libc++abi.dylib"@ {
        Some(0x3810_0000)
    } else if name == "libiconv.2.dylib"@ {
        Some(0x3200_0000)
    } else if name == "libgcc_s.1.dylib"@ {
        Some(0x3000_0000)
    } else if name == "libz.1.dylib"@ || name == "libz.1.2.3.dylib"@ || name == "libz.dylib"@
        || name == "libz.1.1.3.dylib"@ || name == "libsqlite3.dylib"@ || name
        == "libsqlite3.0.dylib"@ {
        Some(0)
    } else {
        None
    }
}

/// By how much a bundled library is moved when it is loaded.
pub fn dylib_slide(name: &str) -> (slide: Option<u32>)
    ensures
        slide == slide_of(name@),
{
    if same_text(name, "libstdc++.6.dylib") || same_text(name, "libstdc++.6.0.9.dylib") {
        Some(0x3748_a000)
    } else if same_text(name, "libc++.1.dylib") {
        Some(0x3800_0000)
    } else if same_text(name, "libc++abi.dylib") {
        Some(0x3810_0000)
    } else if same_text(name, "libiconv.2.dylib") {
        Some(0x3200_0000)
    } else if same_text(name, "libgcc_s.1.dylib") {
        Some(0x3000_0000)
    } else if same_text(name, "libz.1.dylib") || same_text(name, "libz.1.2.3.dylib") || same_text(
        name,
        "libz.dylib",
    ) || same_text(name, "libz.1.1.3.dylib") || same_text(name, "libsqlite3.dylib") || same_text(
        name,
        "libsqlite3.0.dylib",
    ) {
        Some(0)
    } else {
        None
    }
}

/// Whether memory is zeroed out on free for an app. A few games need it on
/// allocation instead.
pub fn zero_memory_on_free(bundle_identifier: &str) -> (on_free: bool)
    ensures
        on_free == !(after_prefix(bundle_identifier@, "com.ea.spore"@) is Some || after_prefix(
            bundle_identifier@,
            "com.capybaragames.CritterCrunch"@,
        ) is Some || after_prefix(bundle_identifier@, "com.go.starwave.CritterCrunch"@) is Some),
{
    let is_spore = without_prefix(bundle_identifier, "com.ea.spore").is_some();
    let is_critter_crunch = without_prefix(
        bundle_identifier,
        "com.capybaragames.CritterCrunch",
    ).is_some() || without_prefix(bundle_identifier, "com.go.starwave.CritterCrunch").is_some();
    !is_spore && !is_critter_crunch
}

/// If/what a thread is blocked by.
pub enum ThreadBlock {
    /// Default state. (thread is not blocked)
    NotBlocked,
    /// Thread is sleeping, until a point in time.
    Sleeping(u64),
    /// Thread is waiting for a mutex to unlock.
    Mutex(u64),
    /// Thread is waiting on a semaphore.
    Semaphore(u32),
    /// Thread is waiting on a condition variable, for some time at most.
    Condition(u32, Option<u64>),
    /// Thread is waiting for another thread to finish (joining).
    Joining(usize, u32),
    /// Thread has hit a CPU error, and is waiting to be debugged.
    WaitingForDebugger,
    /// Thread is suspended. We keep a suspend count and a previous thread
    /// state, which would be restored upon resuming.
    Suspended(usize, Box<ThreadBlock>),
}

/// A thread of the guest.
pub struct Thread {
    pub active: bool,
    pub blocked_by: ThreadBlock,
}

impl Thread {
    pub fn is_blocked(&self) -> (blocked: bool)
        ensures
            blocked == !(self.blocked_by is NotBlocked),
    {
        match self.blocked_by {
            ThreadBlock::NotBlocked => false,
            _ => true,
        }
    }
}

} // verus!
