//! The rule list: decoding, and the wire form of a list.
use crate::errors::Error;
use crate::wire::{cstr_bytes, cstr_len, cstr_next, cstr_terminated, extend_bytes, lemma_cstr_len_exact, le16, no_zero, text_of, Cursor};
use vstd::prelude::*;
use vstd::utf8::{decode_utf8, encode_utf8, encode_utf8_decode_utf8, encode_utf8_valid_utf8, valid_utf8};

verus! {

pub const RULES_REQUEST: [u8; 5] = [0xFF, 0xFF, 0xFF, 0xFF, 0x56];

/// The type tag of a rules response.
pub const RULES_TAG: u8 = 0x45;

/// One server configuration entry.
#[derive(Debug, Clone, PartialEq, Eq)]
pub struct Rule {
    /// Name of the rule.
    pub name: String,
    /// Value of the rule.
    pub value: String,
}

/// A rule as its name and value.
pub open spec fn rule_view(r: Rule) -> (Seq<char>, Seq<char>) {
    (r.name@, r.value@)
}

pub open spec fn rules_view(rs: Seq<Rule>) -> Seq<(Seq<char>, Seq<char>)> {
    rs.map_values(|r: Rule| rule_view(r))
}

/// The position after `n` rules read from `s` at `p`.
pub open spec fn rules_end(s: Seq<u8>, p: int, n: nat) -> int
    decreases n,
{
    if n == 0 {
        p
    } else {
        let q = rules_end(s, p, (n - 1) as nat);
        cstr_next(s, cstr_next(s, q))
    }
}

/// The `n` rules read from `s` at `p`: each a name then a value string.
pub open spec fn rules_at(s: Seq<u8>, p: int, n: nat) -> Seq<(Seq<char>, Seq<char>)>
    decreases n,
{
    if n == 0 {
        Seq::empty()
    } else {
        let q = rules_end(s, p, (n - 1) as nat);
        rules_at(s, p, (n - 1) as nat).push(
            (text_of(cstr_bytes(s, q)), text_of(cstr_bytes(s, cstr_next(s, q)))),
        )
    }
}

/// The name and the value of the rule at `q` each end with a zero byte.
pub open spec fn rule_fits(s: Seq<u8>, q: int) -> bool {
    cstr_terminated(s, q) && cstr_terminated(s, cstr_next(s, q))
}

/// The first `n` rules read from `s` at `p` are whole.
pub open spec fn rules_whole(s: Seq<u8>, p: int, n: nat) -> bool
    decreases n,
{
    n == 0 || (rules_whole(s, p, (n - 1) as nat) && rule_fits(s, rules_end(s, p, (n - 1) as nat)))
}

/// The rule list that a rules response `s` read from `p` holds: a tag byte, a
/// 16-bit little-endian count and the rules; `None` where the tag is wrong,
/// the header is cut short, or an announced rule is missing or unterminated.
pub open spec fn decode_rules(s: Seq<u8>, p: int) -> Option<Seq<(Seq<char>, Seq<char>)>> {
    if p < 0 || p + 3 > s.len() || s[p] != RULES_TAG {
        None
    } else if !rules_whole(s, p + 3, le16(s, p + 1) as nat) {
        None
    } else {
        Some(rules_at(s, p + 3, le16(s, p + 1) as nat))
    }
}

proof fn lemma_rules_cut_short(s: Seq<u8>, p: int, i: nat, n: nat)
    requires
        i < n,
        !rules_whole(s, p, i + 1),
    ensures
        !rules_whole(s, p, n),
    decreases n - i,
{
    if i + 1 < n {
        lemma_rules_cut_short(s, p, i + 1, n);
    }
}

/// The wire form of one rule: name, zero byte, value, zero byte.
pub open spec fn rule_bytes(r: Rule) -> Seq<u8> {
    encode_utf8(r.name@) + seq![0u8] + encode_utf8(r.value@) + seq![0u8]
}

/// The wire forms of the rules of `rs`, one after another.
pub open spec fn rules_bytes(rs: Seq<Rule>) -> Seq<u8>
    decreases rs.len(),
{
    if rs.len() == 0 {
        Seq::empty()
    } else {
        rules_bytes(rs.drop_last()) + rule_bytes(rs.last())
    }
}

/// The `k` little-endian bytes of `n` (its low ones, where `n` needs more).
pub open spec fn le_bytes(n: nat, k: nat) -> Seq<u8>
    decreases k,
{
    if k == 0 {
        Seq::empty()
    } else {
        seq![(n % 256) as u8] + le_bytes(n / 256, (k - 1) as nat)
    }
}

/// The bytes of `n`, lowest first, as many as a `usize` has.
fn usize_le_bytes(n: usize) -> (r: Vec<u8>)
    ensures
        r@ == le_bytes(n as nat, vstd::layout::size_of::<usize>()),
{
    let width = core::mem::size_of::<usize>();
    let mut out: Vec<u8> = Vec::new();
    let mut v: usize = n;
    let mut i: usize = 0;
    while i < width
        invariant
            i <= width,
            width as nat == vstd::layout::size_of::<usize>(),
            out@ + le_bytes(v as nat, (width - i) as nat) == le_bytes(n as nat, width as nat),
        decreases width - i,
    {
        let ghost before = out@;
        out.push((v % 256) as u8);
        proof {
            assert(le_bytes(v as nat, (width - i) as nat) == seq![((v as nat) % 256) as u8] + le_bytes(
                (v as nat) / 256,
                (width - i - 1) as nat,
            ));
            assert(out@ + le_bytes((v / 256) as nat, (width - i - 1) as nat) =~= before + le_bytes(
                v as nat,
                (width - i) as nat,
            ));
        }
        v = v / 256;
        i = i + 1;
    }
    proof {
        assert(out@ =~= out@ + le_bytes(v as nat, 0));
    }
    out
}

/// The header of the wire form of a rule list: the single-packet marker and
/// the rules tag.
pub const RULES_WIRE_HEADER: [u8; 5] = [0xFF, 0xFF, 0xFF, 0xFF, 0x45];

impl Rule {
    /// The wire form of a whole rule list, as a single-packet response: the
    /// marker, the tag, the count as the little-endian bytes of a `usize`, then
    /// each rule.
    pub fn vec_to_bytes(rules: Vec<Self>) -> (r: Vec<u8>)
        ensures
            r@ == RULES_WIRE_HEADER@ + le_bytes(rules@.len(), vstd::layout::size_of::<usize>()) + rules_bytes(
                rules@,
            ),
    {
        let mut bytes: Vec<u8> = Vec::new();
        let header = RULES_WIRE_HEADER;
        extend_bytes(&mut bytes, header.as_slice());
        let count = usize_le_bytes(rules.len());
        extend_bytes(&mut bytes, count.as_slice());
        let ghost start = bytes@;
        let mut i: usize = 0;
        while i < rules.len()
            invariant
                i <= rules@.len(),
                bytes@ == start + rules_bytes(rules@.take(i as int)),
            decreases rules@.len() - i,
        {
            let b = rules[i].to_bytes();
            extend_bytes(&mut bytes, b.as_slice());
            proof {
                assert(rules@.take(i + 1).drop_last() =~= rules@.take(i as int));
            }
            i = i + 1;
            proof {
                assert(bytes@ =~= start + rules_bytes(rules@.take(i as int)));
            }
        }
        proof {
            assert(rules@.take(i as int) =~= rules@);
            assert(header@ =~= RULES_WIRE_HEADER@);
        }
        bytes
    }

    /// The wire form of this rule: name, zero byte, value, zero byte.
    pub fn to_bytes(&self) -> (r: Vec<u8>)
        ensures
            r@ == rule_bytes(*self),
    {
        let mut bytes: Vec<u8> = Vec::new();
        extend_bytes(&mut bytes, self.name.as_str().as_bytes());
        bytes.push(0);
        extend_bytes(&mut bytes, self.value.as_str().as_bytes());
        bytes.push(0);
        proof {
            assert(bytes@ =~= rule_bytes(*self));
        }
        bytes
    }

    /// Decodes a rules response read from the cursor's position. A rule that
    /// the count announces but the buffer does not hold whole is an error.
    pub fn from_cursor(data: Cursor) -> (r: Result<Vec<Rule>, Error>)
        ensures
            match decode_rules(data.data@, data.pos as int) {
                None => r == Err::<Vec<Rule>, Error>(Error::InvalidResponse),
                Some(v) => r matches Ok(rs) && rules_view(rs@) == v,
            },
    {
        let mut cur = data;
        let ghost s = data.data@;
        let ghost p = data.pos as int;
        let tag = match cur.read_u8() {
            Ok(t) => t,
            Err(e) => return Err(e),
        };
        if tag != RULES_TAG {
            return Err(Error::InvalidResponse);
        }
        let count = match cur.read_u16() {
            Ok(c) => c,
            Err(e) => return Err(e),
        };
        let mut rules: Vec<Rule> = Vec::new();
        let mut i: u16 = 0;
        while i < count
            invariant
                cur.data@ == s,
                s == data.data@,
                p == data.pos as int,
                0 <= p,
                p + 3 <= s.len(),
                s[p] == RULES_TAG,
                count as int == le16(s, p + 1),
                i <= count,
                cur.pos as int == rules_end(s, p + 3, i as nat),
                cur.pos <= s.len(),
                rules_whole(s, p + 3, i as nat),
                rules_view(rules@) == rules_at(s, p + 3, i as nat),
            decreases count - i,
        {
            if !cur.has_cstring() {
                proof {
                    lemma_rules_cut_short(s, p + 3, i as nat, count as nat);
                }
                return Err(Error::InvalidResponse);
            }
            let name = cur.read_cstring();
            if !cur.has_cstring() {
                proof {
                    lemma_rules_cut_short(s, p + 3, i as nat, count as nat);
                }
                return Err(Error::InvalidResponse);
            }
            let value = cur.read_cstring();
            let rule = Rule { name, value };
            rules.push(rule);
            i = i + 1;
            proof {
                assert(rules_view(rules@) =~= rules_at(s, p + 3, i as nat));
            }
        }
        Ok(rules)
    }
}

} // verus!
