//! Response framing and multi-packet reassembly.
use crate::errors::Error;
use crate::integrity::{decompress_payload, decompressed, outcome};
use crate::wire::{le16, le32, le_i32, u16_at, u32_at, tail_from, extend_bytes};
use vstd::prelude::*;

verus! {

pub const SINGLE_PACKET: i32 = -1;
pub const MULTI_PACKET: i32 = -2;

pub const OFS_HEADER: usize = 0;
pub const OFS_SP_PAYLOAD: usize = 4;
pub const OFS_MP_ID: usize = 4;
pub const OFS_MP_SS_TOTAL: usize = 8;
pub const OFS_MP_SS_NUMBER: usize = 9;
pub const OFS_MP_SS_SIZE: usize = 10;
pub const OFS_MP_SS_BZ2_SIZE: usize = 12;
pub const OFS_MP_SS_BZ2_CRC: usize = 16;
pub const OFS_MP_SS_PAYLOAD: usize = 12;
pub const OFS_MP_SS_PAYLOAD_BZ2: usize = 20;

/// The payload of the fragment numbered zero starts four bytes later than
/// that of an uncompressed later fragment: it carries an extra sub-header.
pub const OFS_MP_FIRST_PAYLOAD: usize = 16;

/// The most fragments a transaction may declare.
pub const MAX_FRAGMENTS: usize = 32;

/// One datagram's share of a multi-packet response.
#[derive(Debug)]
pub struct PacketFragment {
    pub number: u8,
    pub payload: Vec<u8>,
}

/// A fragment as a sequence number and its payload bytes.
pub open spec fn frag_view(f: PacketFragment) -> (u8, Seq<u8>) {
    (f.number, f.payload@)
}

pub open spec fn frags_view(fs: Seq<PacketFragment>) -> Seq<(u8, Seq<u8>)> {
    fs.map_values(|f: PacketFragment| frag_view(f))
}

/// The payloads of the fragments numbered `k`, in arrival order, concatenated.
pub open spec fn payloads_numbered(f: Seq<(u8, Seq<u8>)>, k: int) -> Seq<u8>
    decreases f.len(),
{
    if f.len() == 0 {
        Seq::empty()
    } else {
        payloads_numbered(f.drop_last(), k) + (if f.last().0 as int == k {
            f.last().1
        } else {
            Seq::empty()
        })
    }
}

/// The payloads of the fragments numbered below `k`, ordered by number.
pub open spec fn assembled_below(f: Seq<(u8, Seq<u8>)>, k: int) -> Seq<u8>
    decreases k,
{
    if k <= 0 {
        Seq::empty()
    } else {
        assembled_below(f, k - 1) + payloads_numbered(f, k - 1)
    }
}

/// The payloads of all fragments, ordered by sequence number ascending
/// (fragments that share a number keep their arrival order).
pub open spec fn assembled(f: Seq<(u8, Seq<u8>)>) -> Seq<u8> {
    assembled_below(f, 256)
}

/// Whether a transaction id flags a compressed stream (its top bit).
pub open spec fn id_compressed(id: i32) -> bool {
    id < 0
}

/// How the first datagram of a response is framed.
pub enum Framing {
    /// The whole response: the bytes after the header.
    Single(Vec<u8>),
    /// The first fragment to arrive of a multi-packet response.
    Multi(Transaction),
}

/// The fragments collected so far for one transaction id.
pub struct Transaction {
    pub id: i32,
    pub total: usize,
    pub switch_size: usize,
    /// The decompressed size and checksum that the fragment numbered zero
    /// of a compressed transaction declares, once it has arrived.
    pub declared: Option<(u32, u32)>,
    pub fragments: Vec<PacketFragment>,
}

/// Where the payload of a fragment numbered `number` starts.
pub open spec fn frag_offset(number: u8, compressed: bool) -> int {
    if number == 0 {
        OFS_MP_FIRST_PAYLOAD as int
    } else if compressed {
        OFS_MP_SS_PAYLOAD_BZ2 as int
    } else {
        OFS_MP_SS_PAYLOAD as int
    }
}

/// The shortest a datagram numbered `number` may be: up to its payload, and,
/// for fragment zero of a compressed transaction, up to its checksum's end.
pub open spec fn frag_min_len(number: u8, compressed: bool) -> int {
    if number == 0 && compressed {
        OFS_MP_SS_PAYLOAD_BZ2 as int
    } else {
        frag_offset(number, compressed)
    }
}

/// The fragment that the datagram `d` carries: its sequence number and payload.
pub open spec fn fragment_of(d: Seq<u8>, compressed: bool) -> (u8, Seq<u8>) {
    let n = d[OFS_MP_SS_NUMBER as int];
    (n, d.subrange(frag_offset(n, compressed), d.len() as int))
}

/// The decompressed size and checksum that `d` declares, where it is fragment
/// zero of a compressed transaction.
pub open spec fn declared_of(d: Seq<u8>, compressed: bool) -> Option<(u32, u32)> {
    if compressed && d[OFS_MP_SS_NUMBER as int] == 0 {
        Some((le32(d, OFS_MP_SS_BZ2_SIZE as int) as u32, le32(d, OFS_MP_SS_BZ2_CRC as int) as u32))
    } else {
        None
    }
}

/// What a complete transaction gives from its fragments `f`: their payloads
/// in order, and, for a compressed one, those decompressed and checked against
/// what fragment zero declared.
pub open spec fn completion(compressed: bool, declared: Option<(u32, u32)>, f: Seq<(u8, Seq<u8>)>) -> Result<
    Seq<u8>,
    Error,
> {
    if !compressed {
        Ok(assembled(f))
    } else {
        match declared {
            None => Err(Error::InvalidResponse),
            Some((size, crc)) => decompressed(assembled(f), size, crc),
        }
    }
}

/// The sub-header of a multi-packet first datagram `d` is whole and within
/// bounds: a switch size of at most `max_size`, between one and the bound of
/// fragments, and the length its sequence number asks for.
pub open spec fn first_fields_ok(d: Seq<u8>, max_size: int) -> bool {
    &&& d.len() >= OFS_MP_SS_PAYLOAD
    &&& le16(d, OFS_MP_SS_SIZE as int) <= max_size
    &&& 1 <= d[OFS_MP_SS_TOTAL as int] <= MAX_FRAGMENTS
    &&& d.len() >= frag_min_len(d[OFS_MP_SS_NUMBER as int], id_compressed(le_i32(d, OFS_MP_ID as int)))
}

/// The error that the first datagram `d` of a response gives, if any.
pub open spec fn frame_error(d: Seq<u8>, max_size: int) -> Option<Error> {
    if d.len() < 4 {
        Some(Error::InvalidResponse)
    } else if le_i32(d, OFS_HEADER as int) == SINGLE_PACKET {
        None
    } else if le_i32(d, OFS_HEADER as int) == MULTI_PACKET && first_fields_ok(d, max_size) {
        None
    } else {
        Some(Error::InvalidResponse)
    }
}

/// The payload offset and the least length of a fragment numbered `number`.
fn fragment_bounds(number: u8, compressed: bool) -> (r: (usize, usize))
    ensures
        r.0 as int == frag_offset(number, compressed),
        r.1 as int == frag_min_len(number, compressed),
        r.0 <= r.1,
{
    if number == 0 {
        if compressed {
            (OFS_MP_FIRST_PAYLOAD, OFS_MP_SS_PAYLOAD_BZ2)
        } else {
            (OFS_MP_FIRST_PAYLOAD, OFS_MP_FIRST_PAYLOAD)
        }
    } else if compressed {
        (OFS_MP_SS_PAYLOAD_BZ2, OFS_MP_SS_PAYLOAD_BZ2)
    } else {
        (OFS_MP_SS_PAYLOAD, OFS_MP_SS_PAYLOAD)
    }
}

/// The size and checksum that the datagram `d` declares, if any.
fn declared_in(d: &[u8], compressed: bool) -> (r: Option<(u32, u32)>)
    requires
        d@.len() >= frag_min_len(d@[OFS_MP_SS_NUMBER as int], compressed),
        d@.len() > OFS_MP_SS_NUMBER,
    ensures
        r == declared_of(d@, compressed),
{
    if compressed && d[OFS_MP_SS_NUMBER] == 0 {
        Some((u32_at(d, OFS_MP_SS_BZ2_SIZE), u32_at(d, OFS_MP_SS_BZ2_CRC)))
    } else {
        None
    }
}

/// Reads the framing of the first datagram `d` of a response. A single packet
/// is the whole response; a multi-packet one opens a transaction whose
/// declared sizes are checked against `max_size` and the fragment bound
/// before any storage is reserved; one that declares no fragments at all, or
/// is too short for its sub-header, is malformed too.
pub fn frame(d: &[u8], max_size: usize) -> (r: Result<Framing, Error>)
    ensures
        frame_error(d@, max_size as int) matches Some(e) ==> (r matches Err(x) && x == e),
        frame_error(d@, max_size as int) is None && le_i32(d@, 0) == SINGLE_PACKET ==> (r matches Ok(
            Framing::Single(p),
        ) && p@ == d@.subrange(OFS_SP_PAYLOAD as int, d@.len() as int)),
        frame_error(d@, max_size as int) is None && le_i32(d@, 0) != SINGLE_PACKET ==> match r {
            Ok(Framing::Multi(t)) => t.opened_by(d@) && t.wf(),
            Ok(Framing::Single(_)) => false,
            Err(e) => e == Error::AllocationFailure,
        },
{
    let len = d.len();
    if len < 4 {
        return Err(Error::InvalidResponse);
    }
    let header = u32_at(d, OFS_HEADER) as i32;
    if header == SINGLE_PACKET {
        return Ok(Framing::Single(tail_from(d, OFS_SP_PAYLOAD)));
    }
    if header != MULTI_PACKET || len < OFS_MP_SS_PAYLOAD {
        return Err(Error::InvalidResponse);
    }
    let id = u32_at(d, OFS_MP_ID) as i32;
    let total = d[OFS_MP_SS_TOTAL] as usize;
    let switch_size = u16_at(d, OFS_MP_SS_SIZE) as usize;
    if switch_size > max_size || total > MAX_FRAGMENTS || total == 0 {
        return Err(Error::InvalidResponse);
    }
    let compressed = id < 0;
    let number = d[OFS_MP_SS_NUMBER];
    let (ofs, min) = fragment_bounds(number, compressed);
    if len < min {
        return Err(Error::InvalidResponse);
    }
    let mut fragments: Vec<PacketFragment> = Vec::new();
    if fragments.try_reserve(total).is_err() {
        return Err(Error::AllocationFailure);
    }
    let declared = declared_in(d, compressed);
    let f = PacketFragment { number, payload: tail_from(d, ofs) };
    fragments.push(f);
    proof {
        assert(frags_view(fragments@) =~= seq![frag_view(f)]);
    }
    Ok(Framing::Multi(Transaction { id, total, switch_size, declared, fragments }))
}

proof fn lemma_payloads_numbered_step(f: Seq<(u8, Seq<u8>)>, j: int, k: int)
    requires
        0 <= j < f.len(),
    ensures
        payloads_numbered(f.take(j + 1), k) == payloads_numbered(f.take(j), k) + (if f[j].0 as int == k {
            f[j].1
        } else {
            Seq::empty()
        }),
{
    assert(f.take(j + 1).drop_last() =~= f.take(j));
}

/// No two fragments of `f` share a sequence number.
pub open spec fn distinct_numbers(f: Seq<(u8, Seq<u8>)>) -> bool {
    forall|i: int, j: int| 0 <= i < f.len() && 0 <= j < f.len() && i != j ==> f[i].0 != f[j].0
}

/// Every fragment of `f` is one of `g`.
pub open spec fn all_within(f: Seq<(u8, Seq<u8>)>, g: Seq<(u8, Seq<u8>)>) -> bool {
    forall|i: int| 0 <= i < f.len() ==> exists|j: int| 0 <= j < g.len() && g[j] == #[trigger] f[i]
}

proof fn lemma_numbered_absent(f: Seq<(u8, Seq<u8>)>, k: int)
    requires
        forall|i: int| 0 <= i < f.len() ==> f[i].0 as int != k,
    ensures
        payloads_numbered(f, k) == Seq::<u8>::empty(),
    decreases f.len(),
{
    if f.len() > 0 {
        lemma_numbered_absent(f.drop_last(), k);
    }
}

proof fn lemma_numbered_single(f: Seq<(u8, Seq<u8>)>, k: int, i: int)
    requires
        distinct_numbers(f),
        0 <= i < f.len(),
        f[i].0 as int == k,
    ensures
        payloads_numbered(f, k) == f[i].1,
    decreases f.len(),
{
    let d = f.drop_last();
    if i == f.len() - 1 {
        assert forall|j: int| 0 <= j < d.len() implies d[j].0 as int != k by {
            assert(f[j].0 != f[i].0);
        }
        lemma_numbered_absent(d, k);
        assert(payloads_numbered(f, k) =~= f[i].1);
    } else {
        lemma_numbered_single(d, k, i);
        assert(f.last().0 != f[i].0);
        assert(payloads_numbered(f, k) =~= f[i].1);
    }
}

proof fn lemma_numbered_same(f: Seq<(u8, Seq<u8>)>, g: Seq<(u8, Seq<u8>)>, k: int)
    requires
        distinct_numbers(f),
        distinct_numbers(g),
        all_within(f, g),
        all_within(g, f),
    ensures
        payloads_numbered(f, k) == payloads_numbered(g, k),
{
    if exists|i: int| 0 <= i < f.len() && f[i].0 as int == k {
        let i = choose|i: int| 0 <= i < f.len() && f[i].0 as int == k;
        let j = choose|j: int| 0 <= j < g.len() && g[j] == f[i];
        lemma_numbered_single(f, k, i);
        lemma_numbered_single(g, k, j);
    } else if exists|j: int| 0 <= j < g.len() && g[j].0 as int == k {
        let j = choose|j: int| 0 <= j < g.len() && g[j].0 as int == k;
        let i = choose|i: int| 0 <= i < f.len() && f[i] == g[j];
        assert(f[i].0 as int == k);
    } else {
        lemma_numbered_absent(f, k);
        lemma_numbered_absent(g, k);
    }
}

proof fn lemma_assembled_below_same(f: Seq<(u8, Seq<u8>)>, g: Seq<(u8, Seq<u8>)>, k: int)
    requires
        distinct_numbers(f),
        distinct_numbers(g),
        all_within(f, g),
        all_within(g, f),
    ensures
        assembled_below(f, k) == assembled_below(g, k),
    decreases k,
{
    if k > 0 {
        lemma_assembled_below_same(f, g, k - 1);
        lemma_numbered_same(f, g, k - 1);
    }
}

/// Reassembled payloads do not depend on arrival order: the same fragments,
/// with distinct sequence numbers, collected in any two orders give the same
/// buffer.
pub proof fn lemma_assembly_order_free(f: Seq<(u8, Seq<u8>)>, g: Seq<(u8, Seq<u8>)>)
    requires
        distinct_numbers(f),
        distinct_numbers(g),
        all_within(f, g),
        all_within(g, f),
    ensures
        assembled(f) == assembled(g),
{
    lemma_assembled_below_same(f, g, 256);
}

/// The datagrams of `a` each carry a sequence number, no two the same.
pub open spec fn numbered_datagrams(a: Seq<Seq<u8>>) -> bool {
    &&& forall|i: int| 0 <= i < a.len() ==> (#[trigger] a[i]).len() > OFS_MP_SS_NUMBER
    &&& forall|i: int, j: int|
        0 <= i < a.len() && 0 <= j < a.len() && i != j ==> a[i][OFS_MP_SS_NUMBER as int] != a[j][OFS_MP_SS_NUMBER as int]
}

/// Every datagram of `a` is one of `b`.
pub open spec fn datagrams_within(a: Seq<Seq<u8>>, b: Seq<Seq<u8>>) -> bool {
    forall|i: int| 0 <= i < a.len() ==> exists|j: int| 0 <= j < b.len() && b[j] == #[trigger] a[i]
}

/// The fragments that the datagrams `a` carry, in arrival order.
pub open spec fn fragments_of(a: Seq<Seq<u8>>, compressed: bool) -> Seq<(u8, Seq<u8>)> {
    a.map_values(|d: Seq<u8>| fragment_of(d, compressed))
}

/// The size and checksum that the datagrams `a` declare, the last one that
/// declares any winning.
pub open spec fn declared_among(a: Seq<Seq<u8>>, compressed: bool) -> Option<(u32, u32)>
    decreases a.len(),
{
    if a.len() == 0 {
        None
    } else {
        match declared_of(a.last(), compressed) {
            Some(v) => Some(v),
            None => declared_among(a.drop_last(), compressed),
        }
    }
}

proof fn lemma_declared_absent(a: Seq<Seq<u8>>, compressed: bool)
    requires
        forall|i: int| 0 <= i < a.len() ==> (#[trigger] a[i])[OFS_MP_SS_NUMBER as int] != 0,
    ensures
        declared_among(a, compressed) is None,
    decreases a.len(),
{
    if a.len() > 0 {
        assert(a.last() == a[a.len() - 1]);
        assert forall|i: int| 0 <= i < a.drop_last().len() implies (#[trigger] a.drop_last()[i])[OFS_MP_SS_NUMBER as int] != 0 by {
            assert(a.drop_last()[i] == a[i]);
        }
        lemma_declared_absent(a.drop_last(), compressed);
    }
}

proof fn lemma_declared_single(a: Seq<Seq<u8>>, compressed: bool, i: int)
    requires
        numbered_datagrams(a),
        0 <= i < a.len(),
        a[i][OFS_MP_SS_NUMBER as int] == 0,
    ensures
        declared_among(a, compressed) == declared_of(a[i], compressed),
    decreases a.len(),
{
    let d = a.drop_last();
    assert forall|k: int| 0 <= k < d.len() implies (#[trigger] d[k]).len() > OFS_MP_SS_NUMBER by {
        assert(d[k] == a[k]);
    }
    assert forall|k: int, l: int| 0 <= k < d.len() && 0 <= l < d.len() && k != l implies d[k][OFS_MP_SS_NUMBER as int]
        != d[l][OFS_MP_SS_NUMBER as int] by {
        assert(d[k] == a[k] && d[l] == a[l]);
    }
    if i == a.len() - 1 {
        assert(a.last() == a[i]);
        assert forall|k: int| 0 <= k < d.len() implies (#[trigger] d[k])[OFS_MP_SS_NUMBER as int] != 0 by {
            assert(d[k] == a[k]);
        }
        lemma_declared_absent(d, compressed);
    } else {
        assert(a.last() == a[a.len() - 1]);
        assert(a[a.len() - 1][OFS_MP_SS_NUMBER as int] != 0);
        assert(d[i] == a[i]);
        lemma_declared_single(d, compressed, i);
    }
}

/// Collecting the same datagrams of one transaction (distinct sequence
/// numbers) in any two orders gives the same fragments' payload and the same
/// declared size and checksum, so the same response.
pub proof fn lemma_arrival_order_free(a: Seq<Seq<u8>>, b: Seq<Seq<u8>>, compressed: bool)
    requires
        numbered_datagrams(a),
        numbered_datagrams(b),
        datagrams_within(a, b),
        datagrams_within(b, a),
    ensures
        assembled(fragments_of(a, compressed)) == assembled(fragments_of(b, compressed)),
        declared_among(a, compressed) == declared_among(b, compressed),
        completion(compressed, declared_among(a, compressed), fragments_of(a, compressed)) == completion(
            compressed,
            declared_among(b, compressed),
            fragments_of(b, compressed),
        ),
{
    let f = fragments_of(a, compressed);
    let g = fragments_of(b, compressed);
    assert forall|i: int, j: int| 0 <= i < f.len() && 0 <= j < f.len() && i != j implies f[i].0 != f[j].0 by {
        assert(f[i] == fragment_of(a[i], compressed));
        assert(f[j] == fragment_of(a[j], compressed));
    }
    assert forall|i: int, j: int| 0 <= i < g.len() && 0 <= j < g.len() && i != j implies g[i].0 != g[j].0 by {
        assert(g[i] == fragment_of(b[i], compressed));
        assert(g[j] == fragment_of(b[j], compressed));
    }
    assert forall|i: int| 0 <= i < f.len() implies exists|j: int| 0 <= j < g.len() && g[j] == #[trigger] f[i] by {
        let j = choose|j: int| 0 <= j < b.len() && b[j] == a[i];
        assert(g[j] == fragment_of(b[j], compressed));
    }
    assert forall|i: int| 0 <= i < g.len() implies exists|j: int| 0 <= j < f.len() && f[j] == #[trigger] g[i] by {
        let j = choose|j: int| 0 <= j < a.len() && a[j] == b[i];
        assert(f[j] == fragment_of(a[j], compressed));
    }
    lemma_assembly_order_free(f, g);
    if exists|i: int| 0 <= i < a.len() && a[i][OFS_MP_SS_NUMBER as int] == 0 {
        let i = choose|i: int| 0 <= i < a.len() && a[i][OFS_MP_SS_NUMBER as int] == 0;
        let j = choose|j: int| 0 <= j < b.len() && b[j] == a[i];
        lemma_declared_single(a, compressed, i);
        lemma_declared_single(b, compressed, j);
    } else {
        assert forall|j: int| 0 <= j < b.len() implies (#[trigger] b[j])[OFS_MP_SS_NUMBER as int] != 0 by {
            let i = choose|i: int| 0 <= i < a.len() && a[i] == b[j];
        }
        lemma_declared_absent(a, compressed);
        lemma_declared_absent(b, compressed);
    }
}

impl Transaction {
    /// Every fragment of the transaction has arrived.
    pub open spec fn complete(&self) -> bool {
        self.fragments@.len() == self.total
    }

    pub open spec fn wf(&self) -> bool {
        &&& 1 <= self.total <= MAX_FRAGMENTS
        &&& 1 <= self.fragments@.len() <= self.total
    }

    /// The transaction that the first datagram `d` opens.
    pub open spec fn opened_by(&self, d: Seq<u8>) -> bool {
        let compressed = id_compressed(le_i32(d, OFS_MP_ID as int));
        &&& self.id == le_i32(d, OFS_MP_ID as int)
        &&& self.total == d[OFS_MP_SS_TOTAL as int] as usize
        &&& self.switch_size == le16(d, OFS_MP_SS_SIZE as int) as usize
        &&& self.declared == declared_of(d, compressed)
        &&& frags_view(self.fragments@) == seq![fragment_of(d, compressed)]
    }

    pub open spec fn compressed(&self) -> bool {
        id_compressed(self.id)
    }

    /// Whether `d` could be collected as a further fragment of this transaction;
    /// `None` where it could, else the error.
    pub open spec fn add_error(&self, d: Seq<u8>) -> Option<Error> {
        if d.len() < 10 {
            Some(Error::InvalidResponse)
        } else if le_i32(d, OFS_MP_ID as int) != self.id {
            Some(Error::MismatchID)
        } else if d.len() < frag_min_len(d[OFS_MP_SS_NUMBER as int], self.compressed()) {
            Some(Error::InvalidResponse)
        } else {
            None
        }
    }

    /// The declared size and checksum once `d` is collected.
    pub open spec fn declared_after(&self, d: Seq<u8>) -> Option<(u32, u32)> {
        match declared_of(d, self.compressed()) {
            Some(v) => Some(v),
            None => self.declared,
        }
    }

    /// The payloads of the collected fragments, ordered by sequence number.
    #[verifier::rlimit(40)]
    pub fn assemble(&self) -> (r: Vec<u8>)
        ensures
            r@ == assembled(frags_view(self.fragments@)),
    {
        let ghost f = frags_view(self.fragments@);
        let mut out: Vec<u8> = Vec::new();
        let mut k: usize = 0;
        while k < 256
            invariant
                k <= 256,
                f == frags_view(self.fragments@),
                out@ == assembled_below(f, k as int),
            decreases 256 - k,
        {
            let mut j: usize = 0;
            while j < self.fragments.len()
                invariant
                    k < 256,
                    j <= self.fragments@.len(),
                    f == frags_view(self.fragments@),
                    out@ == assembled_below(f, k as int) + payloads_numbered(f.take(j as int), k as int),
                decreases self.fragments@.len() - j,
            {
                proof {
                    lemma_payloads_numbered_step(f, j as int, k as int);
                }
                if self.fragments[j].number as usize == k {
                    extend_bytes(&mut out, self.fragments[j].payload.as_slice());
                }
                j = j + 1;
                proof {
                    assert(out@ =~= assembled_below(f, k as int) + payloads_numbered(f.take(j as int), k as int));
                }
            }
            proof {
                assert(f.take(j as int) =~= f);
            }
            k = k + 1;
        }
        out
    }

    /// What the collected fragments give.
    pub open spec fn result(&self) -> Result<Seq<u8>, Error> {
        completion(self.compressed(), self.declared, frags_view(self.fragments@))
    }

    /// Joins the collected fragments into the response payload.
    pub fn finish(&self) -> (r: Result<Vec<u8>, Error>)
        ensures
            outcome(r, self.result()),
            !self.compressed() ==> (r matches Ok(v) && v@ == assembled(frags_view(self.fragments@))),
    {
        let joined = self.assemble();
        if self.id < 0 {
            match self.declared {
                None => Err(Error::InvalidResponse),
                Some((size, crc)) => decompress_payload(joined.as_slice(), size, crc),
            }
        } else {
            Ok(joined)
        }
    }

    pub fn is_complete(&self) -> (r: bool)
        ensures
            r == self.complete(),
    {
        self.fragments.len() == self.total
    }

    /// Collects a further datagram `d` of the transaction. On failure the
    /// transaction is to be discarded.
    pub fn add(&mut self, d: &[u8]) -> (r: Result<(), Error>)
        requires
            old(self).wf(),
            !old(self).complete(),
        ensures
            final(self).id == old(self).id,
            final(self).total == old(self).total,
            final(self).switch_size == old(self).switch_size,
            final(self).wf(),
            match old(self).add_error(d@) {
                Some(e) => r == Err::<(), Error>(e) && final(self).fragments@ == old(self).fragments@
                    && final(self).declared == old(self).declared,
                None => r == Ok::<(), Error>(()) && frags_view(final(self).fragments@) == frags_view(
                    old(self).fragments@,
                ).push(fragment_of(d@, old(self).compressed())) && final(self).declared == old(
                    self,
                ).declared_after(d@),
            },
    {
        let len = d.len();
        if len <= 9 {
            return Err(Error::InvalidResponse);
        }
        let packet_id = u32_at(d, OFS_MP_ID) as i32;
        if packet_id != self.id {
            return Err(Error::MismatchID);
        }
        let compressed = self.id < 0;
        let number = d[OFS_MP_SS_NUMBER];
        let (ofs, min) = fragment_bounds(number, compressed);
        if len < min {
            return Err(Error::InvalidResponse);
        }
        if let Some(v) = declared_in(d, compressed) {
            self.declared = Some(v);
        }
        let payload = tail_from(d, ofs);
        let f = PacketFragment { number, payload };
        self.fragments.push(f);
        proof {
            assert(frags_view(self.fragments@) =~= frags_view(old(self).fragments@).push(frag_view(f)));
        }
        Ok(())
    }
}

} // verus!
