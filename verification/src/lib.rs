//! The logic of a MiBand TOTP plugin for AstroBox, verified with Verus:
//! reading account URIs, Google Authenticator exports and QR images into
//! TOTP accounts, writing the message that pushes them to the watch, and
//! the screen state and steps of the plugin's device operations.
pub mod text;
pub mod percent;
pub mod encoding;
pub mod totp;
pub mod uri;
pub mod proto;
pub mod base32;
pub mod input;
pub mod migration;
pub mod json;
pub mod payload;
pub mod qr;
pub mod ui;
pub mod flow;
pub mod reimport;
