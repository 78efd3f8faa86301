//! Verified core of the OpenUUYC client: plugin descriptor sections, clipboard
//! bitmap conversion, device power rules, operation notices, the node-graph
//! editor's rules, the stream settings window's state, and the small
//! decision functions behind the native windows.
mod bytes;

pub mod analysis;
pub mod annotation_color;
pub mod clipboard;
pub mod device_picker;
pub mod dialogs;
pub mod editor;
pub mod effects;
pub mod graph_session;
pub mod dib;
pub mod listing;
pub mod metadata;
pub mod node_library;
pub mod notices;
pub mod numeric;
pub mod power;
pub mod sdk;
pub mod stream_menu;
pub mod text;
pub mod watch;
pub mod window;
