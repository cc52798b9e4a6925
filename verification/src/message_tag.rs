//! The part of the desktop that a message belongs to.

use crate::message::{interface_display, path_display, view_of, Message, MessageView};
use vstd::prelude::*;

verus! {

/// Whether `pattern` stands somewhere in `text`.
pub open spec fn contains_text(text: Seq<char>, pattern: Seq<char>) -> bool {
    exists|i: int|
        0 <= i <= text.len() - pattern.len() && #[trigger] text.subrange(i, i + pattern.len())
            == pattern
}

/// `str::contains` with a string as the pattern: whether the pattern matches
/// a part of the text.
#[verifier::external_body]
fn text_contains(text: &str, pattern: &str) -> (found: bool)
    ensures
        found == contains_text(text@, pattern@),
{
    text.contains(pattern)
}

/// The component that an object path and an interface point to: the first
/// of the known marks that one of them bears.
pub open spec fn guess_tag(path: Seq<char>, interface: Seq<char>) -> MessageTag {
    if contains_text(path, "/org/a11y/bus"@) || contains_text(interface, "org.a11y.Bus"@) {
        MessageTag::Accessibility
    } else if contains_text(path, "/org/bluez"@) {
        MessageTag::Bluetooth
    } else if contains_text(path, "/org/freedesktop/Flatpak"@) || contains_text(
        interface,
        "org.freedesktop.Flatpak"@,
    ) {
        MessageTag::Flatpak
    } else if contains_text(path, "/org/freedesktop/GeoClue"@) {
        MessageTag::Geoclue
    } else if contains_text(interface, "org.gtk.Actions"@) || contains_text(
        path,
        "/org/gtk/Settings"@,
    ) {
        MessageTag::Gtk
    } else if contains_text(path, "/org/gtk/vfs"@) || contains_text(
        path,
        "/org/gtk/Private/RemoteVolumeMonitor"@,
    ) {
        MessageTag::Gvfs
    } else if contains_text(path, "/org/freedesktop/IBus"@) {
        MessageTag::IBus
    } else if contains_text(path, "/org/freedesktop/login"@) {
        MessageTag::Logind
    } else if contains_text(path, "/org/freedesktop/NetworkManager"@) || contains_text(
        path,
        "/fi/w1/wpa_supplicant"@,
    ) {
        MessageTag::NetworkManager
    } else if contains_text(path, "/org/freedesktop/PolicyKit"@) {
        MessageTag::PolicyKit
    } else if contains_text(path, "/org/freedesktop/portal"@) || contains_text(
        path,
        "/org/freedesktop/impl/portal"@,
    ) {
        MessageTag::Portals
    } else if contains_text(interface, "org.gnome.Shell.SearchProvider"@) {
        MessageTag::SearchProvider
    } else if contains_text(path, "/org/gnome/SessionManager"@) {
        MessageTag::SessionManager
    } else if contains_text(path, "/org/gnome/Shell"@) || contains_text(path, "/org/gnome/Mutter"@) {
        MessageTag::Shell
    } else if contains_text(path, "/org/freedesktop/systemd"@) {
        MessageTag::Systemd
    } else if contains_text(path, "/org/freedesktop/Tracker"@) {
        MessageTag::Tracker
    } else if contains_text(path, "/org/freedesktop/UPower"@) {
        MessageTag::UPower
    } else {
        MessageTag::Unknown
    }
}

/// The component that a message points to, by the path and the interface
/// that are shown for it.
pub open spec fn guess_tag_of(message: MessageView, associated: Option<MessageView>) -> MessageTag {
    guess_tag(path_display(message, associated), interface_display(message, associated))
}

/// The component that a message most likely belongs to.
#[derive(Debug, Clone, Copy, PartialEq, Eq, Hash, Structural)]
pub enum MessageTag {
    Accessibility,
    Bluetooth,
    Flatpak,
    Geoclue,
    Gtk,
    Gvfs,
    IBus,
    Logind,
    NetworkManager,
    PolicyKit,
    Portals,
    SearchProvider,
    SessionManager,
    Shell,
    Systemd,
    Tracker,
    UPower,
    Unknown,
}

impl MessageTag {
    /// Guesses the component of a message from its object path and its
    /// interface; for a reply, from those of the call it answers.
    pub fn guess(message: &Message, associated: Option<&Message>) -> (tag: Self)
        ensures
            tag == guess_tag_of(message@, view_of(associated)),
    {
        let object_path = message.path_display(associated);
        let interface = message.interface_display(associated);
        MessageTag::guess_from(object_path.as_str(), interface.as_str())
    }

    /// Guesses the component from an object path and an interface.
    pub fn guess_from(object_path: &str, interface: &str) -> (tag: Self)
        ensures
            tag == guess_tag(object_path@, interface@),
    {
        if text_contains(object_path, "/org/a11y/bus") || text_contains(interface, "org.a11y.Bus") {
            MessageTag::Accessibility
        } else if text_contains(object_path, "/org/bluez") {
            MessageTag::Bluetooth
        } else if text_contains(object_path, "/org/freedesktop/Flatpak") || text_contains(
            interface,
            "org.freedesktop.Flatpak",
        ) {
            MessageTag::Flatpak
        } else if text_contains(object_path, "/org/freedesktop/GeoClue") {
            MessageTag::Geoclue
        } else if text_contains(interface, "org.gtk.Actions") || text_contains(
            object_path,
            "/org/gtk/Settings",
        ) {
            MessageTag::Gtk
        } else if text_contains(object_path, "/org/gtk/vfs") || text_contains(
            object_path,
            "/org/gtk/Private/RemoteVolumeMonitor",
        ) {
            MessageTag::Gvfs
        } else if text_contains(object_path, "/org/freedesktop/IBus") {
            MessageTag::IBus
        } else if text_contains(object_path, "/org/freedesktop/login") {
            MessageTag::Logind
        } else if text_contains(object_path, "/org/freedesktop/NetworkManager") || text_contains(
            object_path,
            "/fi/w1/wpa_supplicant",
        ) {
            MessageTag::NetworkManager
        } else if text_contains(object_path, "/org/freedesktop/PolicyKit") {
            MessageTag::PolicyKit
        } else if text_contains(object_path, "/org/freedesktop/portal") || text_contains(
            object_path,
            "/org/freedesktop/impl/portal",
        ) {
            MessageTag::Portals
        } else if text_contains(interface, "org.gnome.Shell.SearchProvider") {
            MessageTag::SearchProvider
        } else if text_contains(object_path, "/org/gnome/SessionManager") {
            MessageTag::SessionManager
        } else if text_contains(object_path, "/org/gnome/Shell") || text_contains(
            object_path,
            "/org/gnome/Mutter",
        ) {
            MessageTag::Shell
        } else if text_contains(object_path, "/org/freedesktop/systemd") {
            MessageTag::Systemd
        } else if text_contains(object_path, "/org/freedesktop/Tracker") {
            MessageTag::Tracker
        } else if text_contains(object_path, "/org/freedesktop/UPower") {
            MessageTag::UPower
        } else {
            MessageTag::Unknown
        }
    }

    /// The name of the component in English.
    pub fn name(self) -> (name: String)
        ensures
            name@ == tag_name(self),
    {
        match self {
            MessageTag::Accessibility => "Accessibility".to_owned(),
            MessageTag::Bluetooth => "Bluetooth".to_owned(),
            MessageTag::Flatpak => "Flatpak".to_owned(),
            MessageTag::Geoclue => "Geolocalization".to_owned(),
            MessageTag::Gtk => "GTK".to_owned(),
            MessageTag::Gvfs => "GVFS".to_owned(),
            MessageTag::IBus => "Input".to_owned(),
            MessageTag::Logind => "Login".to_owned(),
            MessageTag::NetworkManager => "Network".to_owned(),
            MessageTag::PolicyKit => "Policy Control".to_owned(),
            MessageTag::Portals => "Portals".to_owned(),
            MessageTag::SearchProvider => "Search Provider".to_owned(),
            MessageTag::SessionManager => "Session".to_owned(),
            MessageTag::Shell => "Shell".to_owned(),
            MessageTag::Systemd => "systemd".to_owned(),
            MessageTag::Tracker => "Tracker".to_owned(),
            MessageTag::UPower => "Power".to_owned(),
            MessageTag::Unknown => "Unknown".to_owned(),
        }
    }
}

/// The name of a component in English.
pub open spec fn tag_name(tag: MessageTag) -> Seq<char> {
    match tag {
        MessageTag::Accessibility => "Accessibility"@,
        MessageTag::Bluetooth => "Bluetooth"@,
        MessageTag::Flatpak => "Flatpak"@,
        MessageTag::Geoclue => "Geolocalization"@,
        MessageTag::Gtk => "GTK"@,
        MessageTag::Gvfs => "GVFS"@,
        MessageTag::IBus => "Input"@,
        MessageTag::Logind => "Login"@,
        MessageTag::NetworkManager => "Network"@,
        MessageTag::PolicyKit => "Policy Control"@,
        MessageTag::Portals => "Portals"@,
        MessageTag::SearchProvider => "Search Provider"@,
        MessageTag::SessionManager => "Session"@,
        MessageTag::Shell => "Shell"@,
        MessageTag::Systemd => "systemd"@,
        MessageTag::Tracker => "Tracker"@,
        MessageTag::UPower => "Power"@,
        MessageTag::Unknown => "Unknown"@,
    }
}

impl Default for MessageTag {
    fn default() -> (r: Self)
        ensures
            r is Unknown,
    {
        MessageTag::Unknown
    }
}

} // verus!
