//! Clipboard relay: the wire format, the relay's rooms, the node's clipboard
//! rules and the control panels' decisions, with their contracts.

// Text, bytes, numbers, paths and maps.
pub mod bytes;
pub mod number;
pub mod order;
pub mod path;
pub mod text;
pub mod textmap;

// Messages and the relay.
pub mod frame;
pub mod hash;
pub mod message;
pub mod relay;
pub mod wire;

// What a node keeps, and where.
pub mod consts;
pub mod dedup;
pub mod history;
pub mod node;
pub mod paths;
pub mod suppress;

// Images, files and archives.
pub mod archive;
pub mod bundle;
pub mod codec;
pub mod files;
pub mod image_mode;
pub mod images;
pub mod send;
pub mod win_image;

// The clipboard: receiving and publishing.
pub mod apply;
pub mod clip;
pub mod loops;
pub mod publish;
pub mod received;
pub mod watch;

// The clipboard of Windows, and the sync with X11.
pub mod win_clipboard;
pub mod win_round;
pub mod win_sync;
pub mod x11_owner;
pub mod x11_poll;
pub mod x11_sync;

// The control panels and the trays.
pub mod autostart;
pub mod config;
pub mod i18n;
pub mod panel;
pub mod procs;
pub mod services;
pub mod systemd;
pub mod tray;
pub mod tray_config;
pub mod tray_i18n;
