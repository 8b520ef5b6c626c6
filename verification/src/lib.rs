//! Verified core of the ZeptoClaw runtime edges: the Cloudflare tunnel, the
//! native command runtime and the WebSocket event stream of the panel.
pub mod header;
pub mod launch;
pub mod native;
pub mod perms;
pub mod slots;
pub mod text;
pub mod tunnel;
pub mod url;
pub mod ws;
