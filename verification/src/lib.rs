//! Wire formats of the angelfish server core: the outer frame of the
//! Bedrock ("RakNet") handshake packets, and the SPP message frame with
//! its string-id mapper.

pub mod bufs;

pub mod wire;
pub mod text;
pub mod packet;
pub mod mapper;
pub mod msg;
pub mod prelude;
