//! Builders for the few server-side packets this core sends itself.
use vstd::prelude::*;
use crate::rw::{Writer, packet_spec, u32_of_i32};
use vstd::bytes::spec_u32_to_le_bytes;

verus! {

/// Packet id of a client-to-server keepalive ping.
pub const OSU_PING: u16 = 4;

/// Packet id of the server's login reply carrying the player id.
pub const SRV_USER_ID: u16 = 5;

/// Packet id of the server's answer to a ping.
pub const SRV_PONG: u16 = 8;

/// Packet id telling the client to restart and log in again.
pub const SRV_RESTART: u16 = 86;

/// Builds a server-restart packet carrying a delay in milliseconds.
pub fn server_restart(time: &u32) -> (r: Vec<u8>)
    ensures
        r@ == packet_spec(SRV_RESTART, spec_u32_to_le_bytes(*time)),
{
    proof {
        vstd::bytes::lemma_auto_spec_u32_to_from_le_bytes();
    }
    let mut w = Writer::new(SRV_RESTART);
    w.write_int(time);
    w.build()
}

/// Builds the empty-payload answer to a keepalive ping.
pub fn ping() -> (r: Vec<u8>)
    ensures
        r@ == packet_spec(SRV_PONG, Seq::<u8>::empty()),
{
    Writer::new(SRV_PONG).build()
}

/// Builds the login reply that confirms a player's identity by id.
pub fn login_reply(user_id: &i32) -> (r: Vec<u8>)
    ensures
        r@ == packet_spec(SRV_USER_ID, spec_u32_to_le_bytes(u32_of_i32(*user_id))),
{
    proof {
        vstd::bytes::lemma_auto_spec_u32_to_from_le_bytes();
    }
    let mut w = Writer::new(SRV_USER_ID);
    w.write_int(user_id);
    w.build()
}

} // verus!
