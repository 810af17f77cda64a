//! The deterministic pseudo-random stream used by breeding, and the helpers
//! that turn an agreed 256-bit seed into that stream.
//!
//! Determinism is the whole point: the stream is a function of the seed words
//! alone, so every node that replays the same commands draws the same values.

use vstd::prelude::*;

verus! {

use crate::data_layout::be_u32_spec;

/// The generator type of the rand crate that backs the stream.
#[verifier::external_type_specification]
#[verifier::external_body]
pub struct ExIsaacRng(rand::IsaacRng);

/// The value the generator yields at position `pos` of the stream seeded by
/// `seed`. Named, not spelled out: only a trusted wrapper says anything
/// about it.
pub uninterp spec fn isaac_word(seed: Seq<u32>, pos: nat) -> u32;

/// A deterministic stream of 32-bit words, modelled by its seed and by how
/// many words have been drawn.
pub(crate) struct DnaStream {
    rng: rand::IsaacRng,
    seed: Ghost<Seq<u32>>,
    pos: Ghost<nat>,
}

impl DnaStream {
    /// The four seed words the stream was built from.
    pub(crate) closed spec fn seed(&self) -> Seq<u32> {
        self.seed@
    }

    /// How many words have been drawn so far.
    pub(crate) closed spec fn pos(&self) -> nat {
        self.pos@
    }

    /// Build the stream for the given seed words: no word drawn yet.
    pub(crate) fn from_seed_words(words: &[u32; 4]) -> (r: DnaStream)
        ensures
            r.seed() == words@,
            r.pos() == 0,
    {
        DnaStream { rng: isaac_from_words(words), seed: Ghost(words@), pos: Ghost(0 as nat) }
    }

    /// Relies on rand's `Rng::next_u32` on `IsaacRng`: the next value of the
    /// sequence that the seed determines. The pairing of the hidden generator
    /// with the ghost seed is kept by this module alone: both fields are
    /// private and every constructor seeds them together.
    #[verifier::external_body]
    pub(crate) fn next_word(&mut self) -> (r: u32)
        ensures
            final(self).seed() == old(self).seed(),
            final(self).pos() == old(self).pos() + 1,
            r == isaac_word(old(self).seed(), old(self).pos()),
    {
        rand::Rng::next_u32(&mut self.rng)
    }
}

/// Relies on rand's `IsaacRng::from_seed`: a generator constructed with a
/// given seed generates the same sequence of values as all other generators
/// constructed with that seed. What that sequence is, only
/// [`DnaStream::next_word`] states, through [`isaac_word`].
#[verifier::external_body]
fn isaac_from_words(words: &[u32; 4]) -> (r: rand::IsaacRng)
{
    <rand::IsaacRng as rand::SeedableRng<&[u32]>>::from_seed(words.as_slice())
}

/// Relies on byteorder's `BigEndian::read_u32`: the first four bytes of the
/// tail of `bs` at `pos`, read in big-endian order.
#[verifier::external_body]
pub(crate) fn read_u32_be(bs: &[u8], pos: usize) -> (r: u32)
    requires
        pos + 4 <= bs@.len(),
    ensures
        r == be_u32_spec(bs@, pos as int),
{
    <byteorder::BigEndian as byteorder::ByteOrder>::read_u32(&bs[pos..])
}

/// The four 32-bit big-endian words at the front of a 256-bit seed.
pub open spec fn seed_words_spec(seed: Seq<u8>) -> Seq<u32> {
    seq![
        be_u32_spec(seed, 0),
        be_u32_spec(seed, 4),
        be_u32_spec(seed, 8),
        be_u32_spec(seed, 12),
    ]
}

/// Split an agreed 256-bit seed into the four words that seed the stream.
pub fn seed_words(seed: &[u8; 32]) -> (r: [u32; 4])
    ensures
        r@ == seed_words_spec(seed@),
{
    let s = seed.as_slice();
    let r = [read_u32_be(s, 0), read_u32_be(s, 4), read_u32_be(s, 8), read_u32_be(s, 12)];
    proof {
        assert(r@ =~= seed_words_spec(seed@));
    }
    r
}

/// Whether bit `i` of the child DNA is set, given the parents' genomes and
/// the stream word `w` drawn for that bit. If the parents' bits agree, the
/// child keeps that value on eight of ten draws and flips it on the other
/// two; if they differ, the draw decides evenly.
pub open spec fn child_bit_set(g0: u32, g1: u32, w: u32, i: u32) -> bool {
    let mask = 1u32 << i;
    let fg = g0 & mask;
    let mg = g1 & mask;
    if fg == mg {
        if w % 10 < 8 {
            fg != 0
        } else {
            fg == 0
        }
    } else {
        w % 2 == 1
    }
}

/// The low `n` bits of the child DNA drawn in round `round` of the stream
/// seeded by `seed`. Bit `i` consumes the stream word at position
/// `round * 32 + i`.
pub open spec fn child_dna_prefix(g0: u32, g1: u32, seed: Seq<u32>, round: nat, n: u32) -> u32
    decreases n,
{
    if n == 0 {
        0u32
    } else {
        let i = (n - 1) as u32;
        let w = isaac_word(seed, round * 32 + i as nat);
        let rest = child_dna_prefix(g0, g1, seed, round, i);
        if child_bit_set(g0, g1, w, i) {
            rest | (1u32 << i)
        } else {
            rest
        }
    }
}

/// The child DNA drawn in round `round`: a function of the parents' genomes,
/// the seed and the round alone.
pub open spec fn child_dna(g0: u32, g1: u32, seed: Seq<u32>, round: nat) -> u32 {
    child_dna_prefix(g0, g1, seed, round, 32)
}

/// Draw one candidate child DNA from the stream, mixing the two parent
/// genomes bit by bit.
pub(crate) fn draw_dna(stream: &mut DnaStream, g0: u32, g1: u32, Ghost(round): Ghost<nat>) -> (r:
    u32)
    requires
        old(stream).pos() == round * 32,
    ensures
        final(stream).seed() == old(stream).seed(),
        final(stream).pos() == round * 32 + 32,
        r == child_dna(g0, g1, old(stream).seed(), round),
{
    let mut dna: u32 = 0;
    let mut i: u32 = 0;
    while i < 32
        invariant
            i <= 32,
            stream.seed() == old(stream).seed(),
            stream.pos() == round * 32 + i,
            dna == child_dna_prefix(g0, g1, old(stream).seed(), round, i),
        decreases 32 - i,
    {
        let w = stream.next_word();
        let mask = 1u32 << i;
        let fg = g0 & mask;
        let mg = g1 & mask;
        let set_bit: bool = if fg == mg {
            if w % 10 < 8 {
                fg != 0
            } else {
                fg == 0
            }
        } else {
            w % 2 == 1
        };
        if set_bit {
            dna = dna | mask;
        }
        i = i + 1;
    }
    dna
}

} // verus!
