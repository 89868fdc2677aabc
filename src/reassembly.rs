//! Collects the datagrams of one response into its payload.
use crate::errors::Error;
use crate::packet::{
    completion, declared_of, fragment_of, frags_view, frame, frame_error, id_compressed, Framing,
    Transaction, OFS_MP_ID, OFS_MP_SS_TOTAL, OFS_SP_PAYLOAD, SINGLE_PACKET,
};
use crate::wire::le_i32;
use vstd::prelude::*;

verus! {

/// What a datagram leaves the reassembly with.
pub enum Collected {
    /// The response is whole: its payload.
    Payload(Vec<u8>),
    /// More fragments are due: receive a datagram of up to this many bytes.
    Need(usize),
}

/// `r` finishes the response with `expected`; a refused buffer reservation is
/// admitted only where `may_refuse`.
pub open spec fn completes(r: Result<Collected, Error>, expected: Result<Seq<u8>, Error>, may_refuse: bool) -> bool {
    match r {
        Ok(Collected::Payload(p)) => expected == Ok::<Seq<u8>, Error>(p@),
        Ok(Collected::Need(_)) => false,
        Err(e) => expected == Err::<Seq<u8>, Error>(e) || (may_refuse && e == Error::AllocationFailure),
    }
}

/// The reassembly of one response: between datagrams, the transaction whose
/// fragments are still due, if any.
pub struct Reassembler {
    pub max_size: usize,
    pub pending: Option<Transaction>,
}

impl Reassembler {
    pub open spec fn wf(&self) -> bool {
        self.pending matches Some(t) ==> t.wf() && !t.complete()
    }

    pub fn new(max_size: usize) -> (r: Reassembler)
        ensures
            r.max_size == max_size,
            r.pending is None,
            r.wf(),
    {
        Reassembler { max_size, pending: None }
    }

    /// Takes the transaction `t`, which has just collected a fragment.
    fn settle(&mut self, t: Transaction) -> (r: Result<Collected, Error>)
        requires
            t.wf(),
        ensures
            final(self).max_size == old(self).max_size,
            final(self).wf(),
            t.complete() ==> final(self).pending is None && completes(r, t.result(), t.compressed()),
            !t.complete() ==> (r matches Ok(Collected::Need(n)) && n == t.switch_size && final(self).pending == Some(t)),
    {
        if t.is_complete() {
            self.pending = None;
            match t.finish() {
                Ok(p) => Ok(Collected::Payload(p)),
                Err(e) => Err(e),
            }
        } else {
            let n = t.switch_size;
            self.pending = Some(t);
            Ok(Collected::Need(n))
        }
    }

    /// Takes the next datagram `d` of the response. Any failure discards the
    /// transaction in progress. Each fragment's payload offset, and the
    /// declared size and checksum of a compressed response, follow from its
    /// sequence number, not from the order of arrival.
    pub fn on_datagram(&mut self, d: &[u8]) -> (r: Result<Collected, Error>)
        requires
            old(self).wf(),
        ensures
            final(self).max_size == old(self).max_size,
            final(self).wf(),
            r is Err ==> final(self).pending is None,
            r matches Ok(Collected::Payload(_)) ==> final(self).pending is None,
            old(self).pending is None ==> match frame_error(d@, old(self).max_size as int) {
                Some(e) => r == Err::<Collected, Error>(e),
                None => if le_i32(d@, 0) == SINGLE_PACKET {
                    r matches Ok(Collected::Payload(p)) && p@ == d@.subrange(OFS_SP_PAYLOAD as int, d@.len() as int)
                } else {
                    let c = id_compressed(le_i32(d@, OFS_MP_ID as int));
                    if d@[OFS_MP_SS_TOTAL as int] == 1 {
                        completes(r, completion(c, declared_of(d@, c), seq![fragment_of(d@, c)]), true)
                    } else {
                        r == Err::<Collected, Error>(Error::AllocationFailure) || (r matches Ok(Collected::Need(n))
                            && final(self).pending matches Some(t) && t.opened_by(d@) && n == t.switch_size)
                    }
                },
            },
            old(self).pending matches Some(t) ==> match t.add_error(d@) {
                Some(e) => r == Err::<Collected, Error>(e),
                None => {
                    let f = frags_view(t.fragments@).push(fragment_of(d@, t.compressed()));
                    if f.len() == t.total {
                        completes(r, completion(t.compressed(), t.declared_after(d@), f), t.compressed())
                    } else {
                        &&& (r matches Ok(Collected::Need(n)) && n == t.switch_size)
                        &&& (final(self).pending matches Some(u) && u.id == t.id && u.total == t.total
                            && u.switch_size == t.switch_size && u.declared == t.declared_after(d@)
                            && frags_view(u.fragments@) == f)
                    }
                },
            },
    {
        let pending = self.pending.take();
        match pending {
            None => match frame(d, self.max_size) {
                Err(e) => Err(e),
                Ok(Framing::Single(p)) => Ok(Collected::Payload(p)),
                Ok(Framing::Multi(t)) => self.settle(t),
            },
            Some(t) => {
                let mut t = t;
                match t.add(d) {
                    Err(e) => Err(e),
                    Ok(()) => self.settle(t),
                }
            },
        }
    }
}

} // verus!
