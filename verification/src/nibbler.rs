//! Splitting a byte slice into its 4-bit halves ("nibbles").

use vstd::prelude::*;

verus! {

/// The high nibble (bits 7-4) of a byte.
pub open spec fn high_nibble(b: u8) -> u8 {
    (b & 0xf0u8) >> 4u8
}

/// The low nibble (bits 3-0) of a byte.
pub open spec fn low_nibble(b: u8) -> u8 {
    b & 0x0fu8
}

/// All nibbles of `bytes`, in order: for each byte its high nibble first,
/// then its low nibble.
pub open spec fn nibbles_of(bytes: Seq<u8>) -> Seq<u8> {
    Seq::new(
        2 * bytes.len(),
        |i: int|
            if i % 2 == 0 {
                high_nibble(bytes[i / 2])
            } else {
                low_nibble(bytes[i / 2])
            },
    )
}

/// The nibbles of a non-empty byte sequence are those of its first byte
/// followed by the nibbles of the rest.
pub proof fn lemma_nibbles_of_unfold(bytes: Seq<u8>)
    requires
        bytes.len() > 0,
    ensures
        nibbles_of(bytes) =~= seq![high_nibble(bytes[0]), low_nibble(bytes[0])] + nibbles_of(
            bytes.drop_first(),
        ),
{
    let lhs = nibbles_of(bytes);
    let rhs = seq![high_nibble(bytes[0]), low_nibble(bytes[0])] + nibbles_of(bytes.drop_first());
    assert forall|i: int| 0 <= i < lhs.len() implies lhs[i] == rhs[i] by {
        if i >= 2 {
            assert((i - 2) / 2 == i / 2 - 1);
            assert((i - 2) % 2 == i % 2);
        }
    }
}

/// Every nibble fits in four bits.
pub proof fn lemma_nibbles_below_16(bytes: Seq<u8>)
    ensures
        forall|i: int| 0 <= i < nibbles_of(bytes).len() ==> #[trigger] nibbles_of(bytes)[i] < 16,
{
    assert forall|i: int| 0 <= i < nibbles_of(bytes).len() implies #[trigger] nibbles_of(bytes)[i]
        < 16 by {
        let b = bytes[i / 2];
        assert((b & 0xf0u8) >> 4u8 < 16u8) by (bit_vector);
        assert(b & 0x0fu8 < 16u8) by (bit_vector);
    }
}

/// Splitting into nibbles loses nothing: the high nibble of byte `i`
/// times 16 plus its low nibble gives the byte back.
pub proof fn lemma_nibbles_reassemble(bytes: Seq<u8>, i: int)
    requires
        0 <= i < bytes.len(),
    ensures
        nibbles_of(bytes)[2 * i] * 16 + nibbles_of(bytes)[2 * i + 1] == bytes[i],
{
    let b = bytes[i];
    assert((2 * i) / 2 == i);
    assert((2 * i + 1) / 2 == i);
    assert(((b & 0xf0u8) >> 4u8) * 16 + (b & 0x0fu8) == b) by (bit_vector);
}

/// An iterator-like cursor that hands out the nibbles of a byte slice,
/// the high nibble of each byte before its low nibble.
pub struct Nibbler<'a> {
    bytes: &'a [u8],
    pos: usize,
    pending_nibble: Option<u8>,
}

impl<'a> Nibbler<'a> {
    #[verifier::type_invariant]
    spec fn well_formed(self) -> bool {
        &&& self.pos <= self.bytes@.len()
        &&& (self.pending_nibble matches Some(n) ==> n < 16)
    }

    /// The nibbles that are still to come, in order.
    pub closed spec fn remaining(self) -> Seq<u8> {
        let rest = nibbles_of(self.bytes@.skip(self.pos as int));
        match self.pending_nibble {
            Some(n) => seq![n] + rest,
            None => rest,
        }
    }

    /// Creates a nibble cursor over `bytes`.
    pub fn new(bytes: &'a [u8]) -> (res: Self)
        ensures
            res@ == nibbles_of(bytes@),
    {
        let res = Nibbler { bytes, pos: 0, pending_nibble: None };
        assert(bytes@.skip(0) =~= bytes@);
        res
    }

    /// Hands out the next nibble, or `None` once all have been handed out
    /// (and from then on).
    pub fn next(&mut self) -> (res: Option<u8>)
        ensures
            old(self)@.len() == 0 ==> res is None && final(self)@.len() == 0,
            old(self)@.len() > 0 ==> res == Some(old(self)@[0]) && final(self)@ == old(
                self,
            )@.drop_first(),
            res matches Some(n) ==> n < 16,
    {
        proof {
            use_type_invariant(&*self);
            lemma_nibbles_below_16(self.bytes@.skip(self.pos as int));
        }
        if let Some(nibble) = self.pending_nibble {
            self.pending_nibble = None;
            assert(old(self)@ =~= seq![nibble] + self@);
            Some(nibble)
        } else if self.pos < self.bytes.len() {
            let byte = self.bytes[self.pos];
            let high_nibble = (byte & 0xf0) >> 4;
            let low_nibble = byte & 0x0f;
            proof {
                let rest = self.bytes@.skip(self.pos as int);
                lemma_nibbles_of_unfold(rest);
                assert(rest.drop_first() =~= self.bytes@.skip(self.pos + 1));
                assert(byte & 0x0fu8 < 16u8) by (bit_vector);
                assert((byte & 0xf0u8) >> 4u8 < 16u8) by (bit_vector);
            }
            self.pos = self.pos + 1;
            self.pending_nibble = Some(low_nibble);
            assert(old(self)@ =~= seq![high_nibble] + self@);
            Some(high_nibble)
        } else {
            assert(self.bytes@.skip(self.pos as int) =~= Seq::<u8>::empty());
            None
        }
    }

    /// Hands out all remaining nibbles at once.
    pub fn collect(self) -> (res: Vec<u8>)
        ensures
            res@ == self@,
    {
        let mut it = self;
        let mut res: Vec<u8> = Vec::new();
        loop
            invariant
                res@ + it@ == self@,
            decreases it@.len(),
        {
            match it.next() {
                Some(n) => {
                    res.push(n);
                },
                None => {
                    assert(res@ =~= self@);
                    return res;
                },
            }
        }
    }
}

impl<'a> View for Nibbler<'a> {
    type V = Seq<u8>;

    closed spec fn view(&self) -> Seq<u8> {
        self.remaining()
    }
}

} // verus!
