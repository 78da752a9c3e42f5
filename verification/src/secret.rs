//! Owners of secret bytes and text that wipe what they hold when they go out of scope.
use vstd::prelude::*;
use vstd::utf8::*;
use zeroize::Zeroize;

verus! {

/// Calls `Zeroize::zeroize` of `Vec<u8>`: the bytes and the spare capacity are overwritten with
/// zeros, and the vector is left empty.
#[verifier::external_body]
fn wipe_bytes(bytes: &mut Vec<u8>)
    ensures
        final(bytes)@ == Seq::<u8>::empty(),
    opens_invariants none
    no_unwind
{
    bytes.zeroize()
}

/// Calls `Zeroize::zeroize` of `String`: the text is overwritten with zeros and left empty.
#[verifier::external_body]
fn wipe_text(text: &mut String)
    ensures
        final(text)@ == Seq::<char>::empty(),
    opens_invariants none
    no_unwind
{
    text.zeroize()
}

/// Calls `Zeroize::zeroize` of a byte array: every byte becomes zero.
#[verifier::external_body]
fn wipe_array<const N: usize>(bytes: &mut [u8; N])
    ensures
        final(bytes)@ == Seq::new(N as nat, |i: int| 0u8),
    opens_invariants none
    no_unwind
{
    bytes.zeroize()
}

/// Calls `Vec::capacity`, which is no less than the length. How large it is, is not stated.
#[verifier::external_body]
fn bytes_capacity(bytes: &Vec<u8>) -> (n: usize)
    ensures
        n >= bytes@.len(),
{
    bytes.capacity()
}

/// Calls `String::capacity`, which is no less than the length in bytes. How large it is, is not
/// stated.
#[verifier::external_body]
fn text_capacity(text: &String) -> (n: usize)
    ensures
        n >= encode_utf8(text@).len(),
{
    text.capacity()
}

/// Secret bytes of any length.
pub struct SecretBytes {
    bytes: Vec<u8>,
}

impl View for SecretBytes {
    type V = Seq<u8>;

    closed spec fn view(&self) -> Seq<u8> {
        self.bytes@
    }
}

impl SecretBytes {
    /// Takes over the bytes.
    pub fn new(bytes: Vec<u8>) -> (secret: Self)
        ensures
            secret@ == bytes@,
    {
        SecretBytes { bytes }
    }

    /// A copy of some bytes.
    pub fn copy_of(bytes: &[u8]) -> (secret: Self)
        ensures
            secret@ == bytes@,
    {
        let mut copy: Vec<u8> = Vec::with_capacity(bytes.len());
        copy.extend_from_slice(bytes);
        assert(copy@ =~= bytes@);
        SecretBytes { bytes: copy }
    }

    /// The number of bytes.
    pub fn len(&self) -> (n: usize)
        ensures
            n == self@.len(),
    {
        self.bytes.len()
    }

    /// How many bytes there is room for before the buffer would grow.
    pub fn capacity(&self) -> (n: usize)
        ensures
            n >= self@.len(),
    {
        bytes_capacity(&self.bytes)
    }

    /// The bytes.
    pub fn as_slice(&self) -> (bytes: &[u8])
        ensures
            bytes@ == self@,
    {
        self.bytes.as_slice()
    }

    /// Appends a byte.
    pub fn push(&mut self, byte: u8)
        ensures
            final(self)@ == old(self)@.push(byte),
    {
        self.bytes.push(byte)
    }

    /// Appends bytes.
    pub fn extend_from_slice(&mut self, bytes: &[u8])
        ensures
            final(self)@ == old(self)@ + bytes@,
    {
        self.bytes.extend_from_slice(bytes);
        assert(self.bytes@ =~= old(self).bytes@ + bytes@);
    }

    /// Puts bytes at a position.
    pub fn insert_at(&mut self, at: usize, added: &[u8])
        requires
            at <= old(self)@.len(),
            old(self)@.len() + added@.len() <= usize::MAX,
        ensures
            final(self)@ == old(self)@.take(at as int) + added@ + old(self)@.skip(at as int),
    {
        let len: usize = self.bytes.len();
        let n: usize = added.len();
        let ghost before = self.bytes@;
        self.bytes.resize(len + n, 0);
        let mut i: usize = len;
        while i > at
            invariant
                at <= i <= len,
                before.len() == len,
                len + n <= usize::MAX,
                self.bytes@.len() == len + n,
                forall|k: int| 0 <= k < i ==> self.bytes@[k] == before[k],
                forall|k: int| i <= k < len ==> self.bytes@[k + n] == #[trigger] before[k],
            decreases i,
        {
            i -= 1;
            let byte: u8 = self.bytes[i];
            self.bytes[i + n] = byte;
        }
        let mut i: usize = 0;
        while i < n
            invariant
                i <= n,
                n == added@.len(),
                at <= len,
                before.len() == len,
                len + n <= usize::MAX,
                self.bytes@.len() == len + n,
                forall|k: int| 0 <= k < at ==> self.bytes@[k] == before[k],
                forall|k: int| at <= k < len ==> self.bytes@[k + n] == #[trigger] before[k],
                forall|k: int| 0 <= k < i ==> self.bytes@[at + k] == #[trigger] added@[k],
            decreases n - i,
        {
            self.bytes[at + i] = added[i];
            i += 1;
        }
        proof {
            let expected = before.take(at as int) + added@ + before.skip(at as int);
            assert forall|k: int| 0 <= k < len + n implies self.bytes@[k] == expected[k] by {
                if at <= k < at + n {
                    assert(added@[k - at] == expected[k]);
                } else if at + n <= k {
                    assert(before[k - n] == expected[k]);
                }
            }
            assert(self.bytes@ =~= expected);
        }
    }

    /// Removes bytes at a position. The room that they leave is wiped.
    pub fn remove_at(&mut self, at: usize, n: usize)
        requires
            at + n <= old(self)@.len(),
        ensures
            final(self)@ == old(self)@.take(at as int) + old(self)@.skip(at + n),
    {
        let len: usize = self.bytes.len();
        let ghost before = self.bytes@;
        let mut i: usize = at;
        while i < len - n
            invariant
                at <= i <= len - n,
                n <= len,
                before.len() == len,
                self.bytes@.len() == len,
                forall|k: int| 0 <= k < at ==> self.bytes@[k] == before[k],
                forall|k: int| at <= k < i ==> #[trigger] self.bytes@[k] == before[k + n],
                forall|k: int| i <= k < len ==> self.bytes@[k] == before[k],
            decreases len - n - i,
        {
            let byte: u8 = self.bytes[i + n];
            self.bytes[i] = byte;
            i += 1;
        }
        let mut i: usize = len - n;
        while i < len
            invariant
                len - n <= i <= len,
                at <= len - n,
                n <= len,
                before.len() == len,
                self.bytes@.len() == len,
                forall|k: int| 0 <= k < at ==> self.bytes@[k] == before[k],
                forall|k: int| at <= k < len - n ==> #[trigger] self.bytes@[k] == before[k + n],
            decreases len - i,
        {
            self.bytes[i] = 0;
            i += 1;
        }
        self.bytes.truncate(len - n);
        assert(self.bytes@ =~= before.take(at as int) + before.skip(at + n));
    }

    /// The buffer itself, to be changed in place.
    pub fn buffer(&mut self) -> (bytes: &mut Vec<u8>)
        ensures
            bytes@ == old(self)@,
            final(self)@ == final(bytes)@,
    {
        &mut self.bytes
    }

    /// Overwrites the bytes with zeros and forgets them.
    pub fn wipe(&mut self)
        ensures
            final(self)@ == Seq::<u8>::empty(),
    {
        wipe_bytes(&mut self.bytes)
    }
}

impl Drop for SecretBytes {
    fn drop(&mut self)
        opens_invariants none
        no_unwind
    {
        wipe_bytes(&mut self.bytes)
    }
}

/// Secret text.
pub struct SecretText {
    text: String,
}

impl View for SecretText {
    type V = Seq<char>;

    closed spec fn view(&self) -> Seq<char> {
        self.text@
    }
}

impl SecretText {
    /// Takes over the text.
    pub fn new(text: String) -> (secret: Self)
        ensures
            secret@ == text@,
    {
        SecretText { text }
    }

    /// The text.
    pub fn as_str(&self) -> (text: &str)
        ensures
            text@ == self@,
    {
        self.text.as_str()
    }

    /// How many bytes there is room for before the buffer would grow.
    pub fn capacity(&self) -> (n: usize)
        ensures
            n >= encode_utf8(self@).len(),
    {
        text_capacity(&self.text)
    }

    /// Overwrites the text with zeros and forgets it.
    pub fn wipe(&mut self)
        ensures
            final(self)@ == Seq::<char>::empty(),
    {
        wipe_text(&mut self.text)
    }
}

impl Drop for SecretText {
    fn drop(&mut self)
        opens_invariants none
        no_unwind
    {
        wipe_text(&mut self.text)
    }
}

/// A secret byte array.
pub struct SecretArray<const N: usize> {
    bytes: [u8; N],
}

impl<const N: usize> View for SecretArray<N> {
    type V = Seq<u8>;

    closed spec fn view(&self) -> Seq<u8> {
        self.bytes@
    }
}

impl<const N: usize> SecretArray<N> {
    /// The number of bytes is fixed.
    pub proof fn lemma_len(&self)
        ensures
            self@.len() == N,
    {
    }

    /// Takes over the bytes.
    pub fn new(bytes: [u8; N]) -> (secret: Self)
        ensures
            secret@ == bytes@,
    {
        SecretArray { bytes }
    }

    /// The bytes.
    pub fn as_array(&self) -> (bytes: &[u8; N])
        ensures
            bytes@ == self@,
            self@.len() == N,
    {
        &self.bytes
    }

    /// The bytes themselves.
    pub(crate) fn as_mut_array(&mut self) -> (bytes: &mut [u8; N])
        ensures
            bytes@ == old(self)@,
            final(self)@ == final(bytes)@,
    {
        &mut self.bytes
    }

    /// Overwrites the bytes with zeros.
    pub fn wipe(&mut self)
        ensures
            final(self)@ == Seq::new(N as nat, |i: int| 0u8),
    {
        wipe_array(&mut self.bytes)
    }
}

impl<const N: usize> Drop for SecretArray<N> {
    fn drop(&mut self)
        opens_invariants none
        no_unwind
    {
        wipe_array(&mut self.bytes)
    }
}

} // verus!
