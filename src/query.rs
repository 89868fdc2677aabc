//! Request framing and the challenge handshake.
use crate::errors::Error;
use crate::wire::{i32_le_bytes, le_i32, u32_at};
use vstd::prelude::*;

verus! {

/// The first byte of a response that asks for the request again with a challenge.
pub const CHALLENGE_MARKER: u8 = 0x41;

/// The challenge value of a request that has none yet.
pub const NO_CHALLENGE: i32 = -1;

/// A response that asks for the request again with the challenge it carries.
pub open spec fn is_challenge(p: Seq<u8>) -> bool {
    p.len() >= 1 && p[0] == CHALLENGE_MARKER
}

/// `template` with `challenge` appended in little-endian order.
pub fn request_with_challenge(template: &[u8], challenge: i32) -> (r: Vec<u8>)
    ensures
        r@ == template@ + i32_le_bytes(challenge),
{
    let mut out: Vec<u8> = Vec::new();
    crate::wire::extend_bytes(&mut out, template);
    let u = challenge as u32;
    out.push((u % 256) as u8);
    out.push(((u / 256) % 256) as u8);
    out.push(((u / 65536) % 256) as u8);
    out.push((u / 16777216) as u8);
    proof {
        assert(out@ =~= template@ + i32_le_bytes(challenge));
    }
    out
}

/// Where a query stands in the handshake.
#[derive(Debug, Clone, Copy, PartialEq, Eq, Structural)]
pub enum Phase {
    /// The request went out without a challenge.
    Initial,
    /// The request went out again with the server's challenge.
    Challenged,
}

/// What to do with a whole response payload.
pub enum Step {
    /// Send this request and collect a new response.
    Send(Vec<u8>),
    /// The final payload, for the decoder.
    Done(Vec<u8>),
}

/// One query: its request template and its place in the handshake.
pub struct Query {
    pub template: Vec<u8>,
    pub phase: Phase,
}

impl Query {
    pub fn new(template: &[u8]) -> (r: Query)
        ensures
            r.template@ == template@,
            r.phase == Phase::Initial,
    {
        let mut t: Vec<u8> = Vec::new();
        crate::wire::extend_bytes(&mut t, template);
        proof {
            assert(t@ =~= template@);
        }
        Query { template: t, phase: Phase::Initial }
    }

    /// The first request: the template with no challenge.
    pub fn first_request(&self) -> (r: Vec<u8>)
        ensures
            r@ == self.template@ + i32_le_bytes(NO_CHALLENGE),
    {
        request_with_challenge(self.template.as_slice(), NO_CHALLENGE)
    }

    /// Takes a whole response payload `p`. The first challenge-marked answer
    /// makes the request go out once more with the challenge it carries in
    /// bytes one to four; any other payload is final, a second challenge too.
    pub fn on_payload(&mut self, p: Vec<u8>) -> (r: Result<Step, Error>)
        ensures
            final(self).template@ == old(self).template@,
            old(self).phase == Phase::Initial && is_challenge(p@) && p@.len() < 5 ==> r == Err::<Step, Error>(
                Error::InvalidResponse,
            ),
            old(self).phase == Phase::Initial && is_challenge(p@) && p@.len() >= 5 ==> (r matches Ok(Step::Send(q))
                && q@ == old(self).template@ + i32_le_bytes(le_i32(p@, 1))) && final(self).phase
                == Phase::Challenged,
            !(old(self).phase == Phase::Initial && is_challenge(p@)) ==> (r matches Ok(Step::Done(q)) && q@ == p@)
                && final(self).phase == old(self).phase,
    {
        if self.phase == Phase::Initial && p.len() >= 1 && p[0] == CHALLENGE_MARKER {
            if p.len() < 5 {
                return Err(Error::InvalidResponse);
            }
            let challenge = u32_at(p.as_slice(), 1) as i32;
            self.phase = Phase::Challenged;
            Ok(Step::Send(request_with_challenge(self.template.as_slice(), challenge)))
        } else {
            Ok(Step::Done(p))
        }
    }
}

} // verus!
