//! Episode resolution and comment normalisation for a danmaku overlay.

pub mod danmaku;
pub mod emby;
pub mod fingerprint;
pub mod linkage;
pub mod options;
pub mod reconcile;
pub mod reconcile_laws;
pub mod requests;
pub mod session;
pub mod text;
