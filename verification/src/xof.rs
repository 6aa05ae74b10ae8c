//! BLAKE3 as an extendable-output function, and the reading of its output as machine words.

use vstd::endian::{endianness, EndianNat};
use vstd::prelude::*;

verus! {

/// The number of bytes in one machine word.
pub const WORD_BYTES: usize = (usize::BITS / 8) as usize;

/// The first `len` bytes of the extendable output of an unkeyed BLAKE3 hasher that has absorbed
/// exactly `input`.
pub uninterp spec fn blake3_xof(input: Seq<u8>, len: nat) -> Seq<u8>;

/// The word that the bytes `b` make when they are read in the byte order of the running machine.
pub open spec fn word_from_ne_bytes(b: Seq<u8>) -> usize {
    EndianNat::<u8>::new(endianness(), b.map_values(|x: u8| x as int)).to_nat() as usize
}

/// The first `n` words of `b`, each read from `WORD_BYTES` consecutive bytes in the byte order of
/// the running machine.
pub open spec fn words_from_ne_bytes(b: Seq<u8>, n: nat) -> Seq<usize> {
    Seq::new(
        n,
        |i: int| word_from_ne_bytes(b.subrange(i * WORD_BYTES, (i + 1) * WORD_BYTES)),
    )
}

/// A hasher with extendable output, from which a filter takes the bit indices of its items.
///
/// `absorbed` is what the hasher has taken in, and `output(input, len)` the first `len` bytes
/// that a hasher which took in `input` hands out. The filter's guarantees hold for a type whose
/// methods keep these promises.
pub trait Hasher: Sized {
    /// The bytes this hasher has taken in.
    spec fn absorbed(&self) -> Seq<u8>;

    /// The first `len` output bytes of a hasher that took in `input`.
    spec fn output(input: Seq<u8>, len: nat) -> Seq<u8>;

    /// Takes in `data`.
    fn update(&mut self, data: &[u8])
        ensures
            final(self).absorbed() == old(self).absorbed() + data@,
    ;

    /// Fills all of `out` with output bytes.
    fn finalize_xof_into(self, out: &mut [u8])
        ensures
            final(out)@.len() == old(out)@.len(),
            final(out)@ == Self::output(self.absorbed(), old(out)@.len() as nat),
    ;

    /// A second hasher in the same state.
    fn duplicate(&self) -> (r: Self)
        ensures
            r.absorbed() == self.absorbed(),
    ;
}

/// Calls `blake3::Hasher::new`, `update` with `input`, `finalize_xof` and `OutputReader::fill`,
/// which writes every byte of `out`: the first `out.len()` bytes of the extendable output of an
/// unkeyed BLAKE3 hasher that has absorbed `input`.
#[verifier::external_body]
fn blake3_xof_fill(input: &[u8], out: &mut [u8])
    ensures
        final(out)@.len() == old(out)@.len(),
        final(out)@ == blake3_xof(input@, old(out)@.len() as nat),
{
    blake3::Hasher::new().update(input).finalize_xof().fill(out);
}

/// An unkeyed BLAKE3 hasher, kept as the bytes it has absorbed: BLAKE3 absorbs a stream, so its
/// output after several updates is its output for their concatenation.
pub struct Blake3 {
    input: Vec<u8>,
}

impl Blake3 {
    /// A hasher that has absorbed nothing.
    pub fn new() -> (h: Self)
        ensures
            h.absorbed() == Seq::<u8>::empty(),
    {
        Blake3 { input: Vec::new() }
    }
}

impl Default for Blake3 {
    fn default() -> (h: Self)
        ensures
            h.absorbed() == Seq::<u8>::empty(),
    {
        Blake3::new()
    }
}

impl Clone for Blake3 {
    fn clone(&self) -> (r: Self)
        ensures
            r.absorbed() == self.absorbed(),
    {
        self.duplicate()
    }
}

impl Hasher for Blake3 {
    closed spec fn absorbed(&self) -> Seq<u8> {
        self.input@
    }

    open spec fn output(input: Seq<u8>, len: nat) -> Seq<u8> {
        blake3_xof(input, len)
    }

    fn update(&mut self, data: &[u8]) {
        let ghost before = self.input@;
        let mut i: usize = 0;
        while i < data.len()
            invariant
                i <= data@.len(),
                self.input@ == before + data@.take(i as int),
            decreases data@.len() - i,
        {
            self.input.push(data[i]);
            i = i + 1;
            assert(data@.take(i as int) =~= data@.take(i - 1) + seq![data@[i - 1]]);
        }
        assert(data@.take(data@.len() as int) =~= data@);
    }

    fn finalize_xof_into(self, out: &mut [u8]) {
        blake3_xof_fill(self.input.as_slice(), out);
    }

    fn duplicate(&self) -> (r: Self) {
        Blake3 { input: self.input.clone() }
    }
}

/// Calls `bytemuck::cast_slice_mut` from `usize` to `u8`, which never fails for this pair of
/// types: the same memory seen as `WORD_BYTES` bytes per word, in the byte order of the running
/// machine, so that what is written through the bytes is what the words then hold.
#[verifier::external_body]
pub(crate) fn words_as_bytes_mut(words: &mut [usize]) -> (bytes: &mut [u8])
    ensures
        bytes@.len() == old(words)@.len() * WORD_BYTES,
        words_from_ne_bytes(bytes@, old(words)@.len() as nat) == old(words)@,
        final(bytes)@.len() == bytes@.len() ==> final(words)@ == words_from_ne_bytes(
            final(bytes)@,
            old(words)@.len() as nat,
        ),
{
    bytemuck::cast_slice_mut(words)
}

} // verus!
