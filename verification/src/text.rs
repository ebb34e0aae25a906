use vstd::prelude::*;
use vstd::string::StringSliceAdditionalSpecFns;

verus! {

/// The byte that a character cell or a saved file holds for `c`: its code point modulo 256.
pub open spec fn low_byte(c: char) -> u8 {
    ((c as u32) % 256) as u8
}

/// `s`, cut down to its first `n` items when it is longer than that.
pub open spec fn capped<T>(s: Seq<T>, n: int) -> Seq<T> {
    if s.len() <= n {
        s
    } else {
        s.take(n)
    }
}

/// Cutting down before appending and after it is the same as cutting down once.
pub proof fn lemma_capped_append<T>(s: Seq<T>, t: Seq<T>, n: int)
    requires
        0 <= n,
    ensures
        capped(capped(s, n) + t, n) == capped(s + t, n),
{
    if s.len() <= n {
    } else {
        assert((s.take(n) + t).take(n) =~= s.take(n));
        assert((s + t).take(n) =~= s.take(n));
        if t.len() == 0 {
            assert(s.take(n) + t =~= s.take(n));
        }
    }
}

/// The low byte of a character.
pub fn char_byte(c: char) -> (b: u8)
    ensures
        b == low_byte(c),
{
    ((c as u32) % 256) as u8
}

/// The character whose code is `b`. Its low byte is `b` again.
pub fn byte_char(b: u8) -> (c: char)
    ensures
        c == b as char,
        low_byte(c) == b,
{
    let c = b as char;
    assert(low_byte(c) == b) by {
        assert(c as u32 == b as u32);
        assert((b as u32) % 256 == b as u32);
    }
    c
}

/// Whether `bytes` are well-formed UTF-8. This is `core::str::from_utf8` of the standard
/// library, which gives `Ok` exactly for the byte slices that are valid UTF-8; the contract
/// says so in terms of the definition of valid UTF-8 that the verified library ships. It is
/// believed, not proved.
#[verifier::external_body]
pub(crate) fn is_utf8(bytes: &[u8]) -> (ok: bool)
    ensures
        ok == vstd::utf8::valid_utf8(bytes@),
{
    core::str::from_utf8(bytes).is_ok()
}

/// A byte string that holds at most `N` bytes. Appending to a full string does nothing.
#[derive(Clone, Copy, Debug)]
pub struct ByteString<const N: usize> {
    buffer: [u8; N],
    len: usize,
}

impl<const N: usize> View for ByteString<N> {
    type V = Seq<u8>;

    closed spec fn view(&self) -> Seq<u8> {
        self.buffer@.subrange(0, self.len as int)
    }
}

impl<const N: usize> ByteString<N> {
    pub closed spec fn wf(&self) -> bool {
        self.len <= N
    }

    /// A well-formed string never holds more than `N` bytes.
    pub proof fn lemma_len_bounded(&self)
        requires
            self.wf(),
        ensures
            self@.len() <= N,
    {
    }

    pub fn new() -> (s: Self)
        ensures
            s.wf(),
            s@ == Seq::<u8>::empty(),
    {
        ByteString { buffer: [0u8; N], len: 0 }
    }

    /// Builds a string from the first `N` bytes of `bytes`.
    pub fn from_bytes(bytes: &[u8]) -> (s: Self)
        ensures
            s.wf(),
            s@ == capped(bytes@, N as int),
    {
        let mut s = Self::new();
        s.push_all(bytes);
        s
    }

    pub fn len(&self) -> (n: usize)
        requires
            self.wf(),
        ensures
            n == self@.len(),
            n <= N,
    {
        self.len
    }

    pub fn clear(&mut self)
        ensures
            final(self).wf(),
            final(self)@ == Seq::<u8>::empty(),
    {
        self.len = 0;
    }

    /// The byte at index `i`.
    pub fn byte(&self, i: usize) -> (b: u8)
        requires
            self.wf(),
            i < self@.len(),
        ensures
            b == self@[i as int],
    {
        self.buffer[i]
    }

    /// Appends one byte if there is room for it.
    pub fn push(&mut self, b: u8)
        requires
            old(self).wf(),
        ensures
            final(self).wf(),
            final(self)@ == capped(old(self)@.push(b), N as int),
    {
        if self.len < N {
            self.buffer[self.len] = b;
            self.len += 1;
            assert(self@ =~= old(self)@.push(b));
        } else {
            assert(old(self)@.push(b).take(N as int) =~= old(self)@);
        }
    }

    /// Appends the low byte of `c` if there is room for it.
    pub fn push_char(&mut self, c: char)
        requires
            old(self).wf(),
        ensures
            final(self).wf(),
            final(self)@ == capped(old(self)@.push(low_byte(c)), N as int),
    {
        self.push(char_byte(c));
    }

    /// Appends `bytes` in order, dropping what does not fit.
    pub fn push_all(&mut self, bytes: &[u8])
        requires
            old(self).wf(),
        ensures
            final(self).wf(),
            final(self)@ == capped(old(self)@ + bytes@, N as int),
    {
        let mut i: usize = 0;
        while i < bytes.len()
            invariant
                i <= bytes.len(),
                self.wf(),
                self@ == capped(old(self)@ + bytes@.take(i as int), N as int),
            decreases bytes.len() - i,
        {
            let ghost before = self@;
            self.push(bytes[i]);
            proof {
                let a = old(self)@ + bytes@.take(i as int);
                let b = old(self)@ + bytes@.take(i + 1);
                assert(b =~= a.push(bytes@[i as int]));
                if a.len() <= N {
                    assert(before == a);
                } else {
                    assert(before == a.take(N as int));
                    assert(before.push(bytes@[i as int]).take(N as int) =~= before);
                    assert(b.take(N as int) =~= a.take(N as int));
                }
            }
            i += 1;
        }
        assert(bytes@.take(bytes@.len() as int) =~= bytes@);
    }

    /// Appends the bytes of `s` in order, dropping what does not fit.
    pub fn push_str(&mut self, s: &str)
        requires
            old(self).wf(),
        ensures
            final(self).wf(),
            final(self)@ == capped(old(self)@ + s.spec_bytes(), N as int),
    {
        self.push_all(s.as_bytes());
    }

    /// The bytes held, as a slice.
    pub fn as_slice(&self) -> (s: &[u8])
        requires
            self.wf(),
        ensures
            s@ == self@,
    {
        vstd::slice::slice_subrange(self.buffer.as_slice(), 0, self.len)
    }

    /// The bytes held, as a vector.
    pub fn to_vec(&self) -> (v: Vec<u8>)
        requires
            self.wf(),
        ensures
            v@ == self@,
    {
        let mut v: Vec<u8> = Vec::new();
        let mut i: usize = 0;
        while i < self.len
            invariant
                self.wf(),
                i <= self.len,
                v@ == self@.take(i as int),
            decreases self.len - i,
        {
            v.push(self.buffer[i]);
            assert(self@.take(i + 1) =~= self@.take(i as int).push(self@[i as int]));
            i += 1;
        }
        assert(self@.take(self.len as int) =~= self@);
        v
    }
}

} // verus!
