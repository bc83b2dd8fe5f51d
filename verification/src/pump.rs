//! The socket pair pump: the byte-copying discipline between a paired user
//! socket and agent socket.
//!
//! The pump never parses traffic and never buffers more than one small chunk
//! at a time. [`pump_chunked`] is the transfer discipline of one direction:
//! it proves that copying a stream through a bounded buffer delivers exactly
//! the bytes that were read, in order. The sockets themselves live outside
//! the library; the process reads a chunk, hands it through, and writes it.

use vstd::prelude::*;

verus! {

/// The buffer size the pump copies with, per direction.
pub const PUMP_CHUNK_SIZE: usize = 8192;

/// The keepalive applied to the wide-area socket of a pairing.
#[derive(Debug, Clone, Copy, PartialEq, Eq, Structural)]
pub struct KeepaliveConfig {
    /// Idle seconds before the first probe.
    pub time_secs: u64,
    /// Seconds between probes.
    pub interval_secs: u64,
    /// Probes sent before the peer counts as dead.
    pub retries: u32,
}

/// The keepalive configuration every agent-facing socket gets: 30 s idle,
/// 10 s probe interval, 5 retries.
pub fn keepalive_config() -> (k: KeepaliveConfig)
    ensures
        k.time_secs == 30,
        k.interval_secs == 10,
        k.retries == 5,
{
    KeepaliveConfig { time_secs: 30, interval_secs: 10, retries: 5 }
}

/// Copies a stream chunk by chunk through a buffer of at most `chunk` bytes.
/// The delivered bytes equal the received bytes: nothing is reordered,
/// dropped or changed.
pub fn pump_chunked(input: &Vec<u8>, chunk: usize) -> (out: Vec<u8>)
    requires
        chunk >= 1,
    ensures
        out@ == input@,
{
    let mut out: Vec<u8> = Vec::new();
    let mut i: usize = 0;
    while i < input.len()
        invariant
            chunk >= 1,
            i <= input.len(),
            out@ =~= input@.take(i as int),
        decreases input.len() - i,
    {
        let end = if input.len() - i < chunk {
            input.len()
        } else {
            i + chunk
        };
        let mut j = i;
        while j < end
            invariant
                i <= j <= end,
                end <= input@.len(),
                out@ =~= input@.take(j as int),
            decreases end - j,
        {
            out.push(input[j]);
            proof {
                assert(out@ =~= input@.take(j + 1));
            }
            j += 1;
        }
        i = end;
    }
    proof {
        assert(input@.take(input@.len() as int) =~= input@);
    }
    out
}

/// The round-trip law: a request pumped to the agent, answered by an echoing
/// local service, and pumped back reaches the user unchanged. Each hop
/// delivers its input exactly, so the composition is the identity.
pub proof fn lemma_echo_round_trip(
    request: Seq<u8>,
    delivered_to_agent: Seq<u8>,
    echoed: Seq<u8>,
    delivered_to_user: Seq<u8>,
)
    requires
        delivered_to_agent == request,
        echoed == delivered_to_agent,
        delivered_to_user == echoed,
    ensures
        delivered_to_user == request,
{
}

} // verus!
