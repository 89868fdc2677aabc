//! Little-endian primitives and null-terminated strings over a byte buffer.
use crate::errors::Error;
use vstd::prelude::*;
use vstd::utf8::{decode_utf8, valid_utf8};

verus! {

/// The unsigned 16-bit little-endian value at `i`.
pub open spec fn le16(s: Seq<u8>, i: int) -> int {
    s[i] as int + 256 * (s[i + 1] as int)
}

/// The unsigned 32-bit little-endian value at `i`.
pub open spec fn le32(s: Seq<u8>, i: int) -> int {
    le16(s, i) + 65536 * le16(s, i + 2)
}

/// The unsigned 64-bit little-endian value at `i`.
pub open spec fn le64(s: Seq<u8>, i: int) -> int {
    le32(s, i) + 4294967296 * le32(s, i + 4)
}

/// The signed 32-bit little-endian value at `i`.
pub open spec fn le_i32(s: Seq<u8>, i: int) -> i32 {
    le32(s, i) as u32 as i32
}

/// The four little-endian bytes of a signed 32-bit value.
pub open spec fn i32_le_bytes(v: i32) -> Seq<u8> {
    let u = v as u32 as int;
    seq![(u % 256) as u8, ((u / 256) % 256) as u8, ((u / 65536) % 256) as u8, (u / 16777216) as u8]
}

/// The number of bytes of the string starting at `i`, up to its zero byte or
/// the end of the buffer.
pub open spec fn cstr_len(s: Seq<u8>, i: int) -> int
    decreases s.len() - i,
{
    if i < 0 || i >= s.len() || s[i] == 0 {
        0
    } else {
        1 + cstr_len(s, i + 1)
    }
}

/// The position after the string that starts at `i` and its terminator, if any.
pub open spec fn cstr_next(s: Seq<u8>, i: int) -> int {
    let e = i + cstr_len(s, i);
    if e < s.len() {
        e + 1
    } else {
        e
    }
}

/// The bytes of the string that starts at `i`; none where `i` is past the end.
pub open spec fn cstr_bytes(s: Seq<u8>, i: int) -> Seq<u8> {
    if 0 <= i <= s.len() {
        s.subrange(i, i + cstr_len(s, i))
    } else {
        Seq::empty()
    }
}

/// A string that starts at `i` ends with its zero byte inside the buffer.
pub open spec fn cstr_terminated(s: Seq<u8>, i: int) -> bool {
    0 <= i && i + cstr_len(s, i) < s.len()
}

/// What lossy UTF-8 decoding makes of bytes that are not valid UTF-8.
pub uninterp spec fn utf8_lossy(b: Seq<u8>) -> Seq<char>;

/// The text that lossy UTF-8 decoding makes of `b`.
pub open spec fn text_of(b: Seq<u8>) -> Seq<char> {
    if valid_utf8(b) {
        decode_utf8(b)
    } else {
        utf8_lossy(b)
    }
}

/// Relies on `String::from_utf8_lossy`: valid UTF-8 comes back as the text it
/// encodes; otherwise the result depends on the bytes alone.
#[verifier::external_body]
pub(crate) fn lossy_string(b: &[u8]) -> (r: String)
    ensures
        r@ == (if valid_utf8(b@) { decode_utf8(b@) } else { utf8_lossy(b@) }),
{
    String::from_utf8_lossy(b).into_owned()
}

pub proof fn lemma_cstr_len_bounds(s: Seq<u8>, i: int)
    requires
        0 <= i <= s.len(),
    ensures
        0 <= cstr_len(s, i) <= s.len() - i,
        i + cstr_len(s, i) < s.len() ==> s[i + cstr_len(s, i)] == 0,
        forall|k: int| i <= k < i + cstr_len(s, i) ==> s[k] != 0,
    decreases s.len() - i,
{
    if i < s.len() && s[i] != 0 {
        lemma_cstr_len_bounds(s, i + 1);
    }
}

/// No byte of `b` is zero.
pub open spec fn no_zero(b: Seq<u8>) -> bool {
    forall|k: int| 0 <= k < b.len() ==> b[k] != 0
}

pub proof fn lemma_cstr_len_exact(s: Seq<u8>, i: int, m: int)
    requires
        0 <= i,
        0 <= m,
        i + m < s.len(),
        s[i + m] == 0,
        forall|k: int| i <= k < i + m ==> s[k] != 0,
    ensures
        cstr_len(s, i) == m,
        cstr_next(s, i) == i + m + 1,
    decreases m,
{
    if m > 0 {
        lemma_cstr_len_exact(s, i + 1, m - 1);
    }
}

/// A reading position over a byte buffer.
pub struct Cursor {
    pub data: Vec<u8>,
    pub pos: usize,
}

impl Cursor {
    pub fn new(data: Vec<u8>) -> (r: Cursor)
        ensures
            r.data@ == data@,
            r.pos == 0,
    {
        Cursor { data, pos: 0 }
    }

    /// Whether `n` more bytes can be read.
    pub open spec fn has(&self, n: int) -> bool {
        self.pos + n <= self.data@.len()
    }

    fn remaining_at_least(&self, n: usize) -> (r: bool)
        ensures
            r == self.has(n as int),
            r ==> self.pos + n <= usize::MAX,
    {
        let len = self.data.len();
        self.pos <= len && len - self.pos >= n
    }

    pub fn read_u8(&mut self) -> (r: Result<u8, Error>)
        ensures
            final(self).data@ == old(self).data@,
            old(self).has(1) ==> r == Ok::<u8, Error>(old(self).data@[old(self).pos as int])
                && final(self).pos == old(self).pos + 1,
            !old(self).has(1) ==> r == Err::<u8, Error>(Error::InvalidResponse)
                && final(self).pos == old(self).pos,
    {
        if !self.remaining_at_least(1) {
            return Err(Error::InvalidResponse);
        }
        let v = self.data[self.pos];
        self.pos = self.pos + 1;
        Ok(v)
    }

    pub fn read_u16(&mut self) -> (r: Result<u16, Error>)
        ensures
            final(self).data@ == old(self).data@,
            old(self).has(2) ==> r == Ok::<u16, Error>(le16(old(self).data@, old(self).pos as int) as u16)
                && final(self).pos == old(self).pos + 2,
            !old(self).has(2) ==> r == Err::<u16, Error>(Error::InvalidResponse)
                && final(self).pos == old(self).pos,
    {
        if !self.remaining_at_least(2) {
            return Err(Error::InvalidResponse);
        }
        let v = u16_at(&self.data, self.pos);
        self.pos = self.pos + 2;
        Ok(v)
    }

    pub fn read_u32(&mut self) -> (r: Result<u32, Error>)
        ensures
            final(self).data@ == old(self).data@,
            old(self).has(4) ==> r == Ok::<u32, Error>(le32(old(self).data@, old(self).pos as int) as u32)
                && final(self).pos == old(self).pos + 4,
            !old(self).has(4) ==> r == Err::<u32, Error>(Error::InvalidResponse)
                && final(self).pos == old(self).pos,
    {
        if !self.remaining_at_least(4) {
            return Err(Error::InvalidResponse);
        }
        let v = u32_at(&self.data, self.pos);
        self.pos = self.pos + 4;
        Ok(v)
    }

    pub fn read_i32(&mut self) -> (r: Result<i32, Error>)
        ensures
            final(self).data@ == old(self).data@,
            old(self).has(4) ==> r == Ok::<i32, Error>(le_i32(old(self).data@, old(self).pos as int))
                && final(self).pos == old(self).pos + 4,
            !old(self).has(4) ==> r == Err::<i32, Error>(Error::InvalidResponse)
                && final(self).pos == old(self).pos,
    {
        let r = self.read_u32();
        match r {
            Ok(v) => Ok(v as i32),
            Err(e) => Err(e),
        }
    }

    pub fn read_u64(&mut self) -> (r: Result<u64, Error>)
        ensures
            final(self).data@ == old(self).data@,
            old(self).has(8) ==> r == Ok::<u64, Error>(le64(old(self).data@, old(self).pos as int) as u64)
                && final(self).pos == old(self).pos + 8,
            !old(self).has(8) ==> r == Err::<u64, Error>(Error::InvalidResponse)
                && final(self).pos == old(self).pos,
    {
        if !self.remaining_at_least(8) {
            return Err(Error::InvalidResponse);
        }
        let lo = u32_at(&self.data, self.pos) as u64;
        let hi = u32_at(&self.data, self.pos + 4) as u64;
        self.pos = self.pos + 8;
        Ok(lo + 4294967296 * hi)
    }

    /// Whether a string that ends with its zero byte starts at the position.
    pub fn has_cstring(&self) -> (r: bool)
        ensures
            r == cstr_terminated(self.data@, self.pos as int),
    {
        let ghost s = self.data@;
        let ghost start = self.pos as int;
        if self.pos >= self.data.len() {
            return false;
        }
        proof {
            lemma_cstr_len_bounds(s, start);
        }
        let mut i: usize = self.pos;
        while i < self.data.len()
            invariant
                self.data@ == s,
                0 <= start <= i <= s.len(),
                start == self.pos as int,
                i <= start + cstr_len(s, start),
                0 <= cstr_len(s, start) <= s.len() - start,
                start + cstr_len(s, start) < s.len() ==> s[start + cstr_len(s, start)] == 0,
                forall|k: int| start <= k < start + cstr_len(s, start) ==> s[k] != 0,
            decreases s.len() - i,
        {
            if self.data[i] == 0 {
                proof {
                    if (i as int) < start + cstr_len(s, start) {
                        assert(s[i as int] != 0);
                    }
                }
                return true;
            }
            i = i + 1;
        }
        false
    }

    /// Reads bytes up to a zero byte or the end of the buffer, and decodes them
    /// as lossy UTF-8. The terminator is consumed; the read never fails.
    pub fn read_cstring(&mut self) -> (r: String)
        ensures
            final(self).data@ == old(self).data@,
            r@ == text_of(cstr_bytes(old(self).data@, old(self).pos as int)),
            final(self).pos == cstr_next(old(self).data@, old(self).pos as int),
            old(self).pos <= old(self).data@.len() ==> final(self).pos <= final(self).data@.len(),
    {
        let ghost s = self.data@;
        let ghost start = self.pos as int;
        if self.pos >= self.data.len() {
            let none: Vec<u8> = Vec::new();
            proof {
                assert(cstr_bytes(s, start) =~= none@);
            }
            return lossy_string(none.as_slice());
        }
        proof {
            lemma_cstr_len_bounds(s, start);
        }
        let mut bytes: Vec<u8> = Vec::new();
        let mut done = false;
        while self.pos < self.data.len() && !done
            invariant
                self.data@ == s,
                start <= self.pos <= s.len(),
                0 <= start <= s.len(),
                !done ==> self.pos <= start + cstr_len(s, start),
                !done ==> bytes@ == s.subrange(start, self.pos as int),
                done ==> bytes@ == cstr_bytes(s, start) && self.pos == cstr_next(s, start),
                0 <= cstr_len(s, start) <= s.len() - start,
                start + cstr_len(s, start) < s.len() ==> s[start + cstr_len(s, start)] == 0,
                forall|k: int| start <= k < start + cstr_len(s, start) ==> s[k] != 0,
            decreases s.len() - self.pos + (if done { 0int } else { 1int }),
        {
            let b = self.data[self.pos];
            self.pos = self.pos + 1;
            if b == 0 {
                done = true;
            } else {
                bytes.push(b);
            }
        }
        proof {
            if !done {
                assert(self.pos == s.len());
            }
        }
        lossy_string(bytes.as_slice())
    }
}

/// A copy of the bytes from `from` to the end.
pub fn tail_from(b: &[u8], from: usize) -> (r: Vec<u8>)
    requires
        from <= b@.len(),
    ensures
        r@ == b@.subrange(from as int, b@.len() as int),
{
    let mut out: Vec<u8> = Vec::new();
    let mut i: usize = from;
    while i < b.len()
        invariant
            from <= i <= b@.len(),
            out@ == b@.subrange(from as int, i as int),
        decreases b@.len() - i,
    {
        out.push(b[i]);
        i = i + 1;
        proof {
            assert(out@ =~= b@.subrange(from as int, i as int));
        }
    }
    out
}

/// Appends the bytes of `b` to `out`.
pub fn extend_bytes(out: &mut Vec<u8>, b: &[u8])
    ensures
        final(out)@ == old(out)@ + b@,
{
    let mut i: usize = 0;
    while i < b.len()
        invariant
            0 <= i <= b@.len(),
            out@ == old(out)@ + b@.subrange(0, i as int),
        decreases b@.len() - i,
    {
        out.push(b[i]);
        i = i + 1;
        proof {
            assert(out@ =~= old(out)@ + b@.subrange(0, i as int));
        }
    }
    proof {
        assert(b@.subrange(0, b@.len() as int) =~= b@);
    }
}

pub fn u16_at(b: &[u8], i: usize) -> (r: u16)
    requires
        i + 2 <= b@.len(),
    ensures
        r as int == le16(b@, i as int),
{
    b[i] as u16 + 256 * (b[i + 1] as u16)
}

pub fn u32_at(b: &[u8], i: usize) -> (r: u32)
    requires
        i + 4 <= b@.len(),
    ensures
        r as int == le32(b@, i as int),
{
    let _len = b.len();
    let lo = u16_at(b, i) as u32;
    let hi = u16_at(b, i + 2) as u32;
    lo + 65536 * hi
}

} // verus!
