//! GameShare: the decisions and the arithmetic of a peer-to-peer screen-sharing application.

pub mod audio;
pub mod audio_win;
pub mod capture;
pub mod capture_win;
pub mod encoder;
pub mod h264;
pub mod mf_encoder;
pub mod pixels;
pub mod session;
pub mod setup;
pub mod signaling;
pub mod stream;
pub mod text;
pub mod webrtc_session;
