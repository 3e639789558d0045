//! Pickle: the verified core of a small voice and text chat client.
//!
//! The wire protocol, identities and their storage, the audio path's
//! bookkeeping, the connection rules and the desktop client's decisions. What
//! touches a socket, a file or a sound card lives outside this library.

pub mod audio;
pub mod client;
pub mod desktop;
pub mod identity;
pub mod octets;
pub mod proto;
pub mod text;
