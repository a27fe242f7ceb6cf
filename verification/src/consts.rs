//! Names that several parts agree on.

use vstd::prelude::*;

verus! {

pub const APP_DIR_NAME: &'static str = "multicliprelay";

/// Key of the local markers that hold back files just received.
pub const FILE_SUPPRESS_KEY: &'static str = "application/x-multicliprelay-file";

pub const URI_LIST_MIME: &'static str = "text/uri-list";

/// Dolphin may offer this beside `text/uri-list`, or in its place.
pub const KDE_URI_LIST_MIME: &'static str = "application/x-kde4-urilist";

pub const GNOME_COPIED_FILES_MIME: &'static str = "x-special/gnome-copied-files";

/// Set on clipboard content that came from the relay. While it is present the
/// content is not published again.
pub const APPLIED_MARKER_MIME: &'static str = "application/x-multicliprelay-applied";

/// Set by the sync between X11 and Wayland, with the side the content came from
/// in the payload: `from=x11` on Wayland, `from=wl` on X11. Not sent over the
/// network.
pub const X11_SYNC_MARKER_MIME: &'static str = "application/x-multicliprelay-x11-sync";

pub const TAR_MIME: &'static str = "application/x-tar";

} // verus!
