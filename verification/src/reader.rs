//! Reading a byte string from the front.

use crate::field::{le_bytes, le_value};
use crate::snark::codec::{byte_range, lemma_byte_range_grows};
use vstd::prelude::*;
use vstd::slice::slice_subrange;

verus! {

/// A byte string that is read from the front.
pub struct Reader<'a> {
    bytes: &'a [u8],
    position: usize,
}

impl<'a> View for Reader<'a> {
    type V = Seq<u8>;

    /// The bytes that have not been read yet.
    closed spec fn view(&self) -> Seq<u8> {
        self.bytes@.skip(self.position as int)
    }
}

impl<'a> Reader<'a> {
    #[verifier::type_invariant]
    spec fn well_formed(self) -> bool {
        self.position <= self.bytes@.len()
    }

    /// A reader at the front of `bytes`.
    pub fn new(bytes: &'a [u8]) -> (r: Reader<'a>)
        ensures
            r@ == bytes@,
    {
        let r = Reader { bytes, position: 0 };
        assert(bytes@.skip(0) =~= bytes@);
        r
    }

    /// The number of bytes that have not been read yet.
    pub fn remaining(&self) -> (r: usize)
        ensures
            r == self@.len(),
    {
        proof {
            use_type_invariant(self);
        }
        self.bytes.len() - self.position
    }

    /// Reads the next `n` bytes. Where fewer are left, nothing is read.
    pub fn take(&mut self, n: usize) -> (r: Option<&'a [u8]>)
        ensures
            r is Some <==> n <= old(self)@.len(),
            r is Some ==> r.unwrap()@ == old(self)@.take(n as int) && final(self)@ == old(self)@.skip(
                n as int,
            ),
            r is None ==> final(self)@ == old(self)@,
    {
        proof {
            use_type_invariant(&*self);
        }
        if n <= self.bytes.len() - self.position {
            let chunk = slice_subrange(self.bytes, self.position, self.position + n);
            proof {
                assert(chunk@ =~= old(self)@.take(n as int));
                assert(self.bytes@.skip(self.position + n) =~= old(self)@.skip(n as int));
            }
            self.position = self.position + n;
            Some(chunk)
        } else {
            None
        }
    }
}

impl<'a> Reader<'a> {
    /// Reads the next byte.
    pub fn take_byte(&mut self) -> (r: Option<u8>)
        ensures
            r is Some <==> old(self)@.len() >= 1,
            r is Some ==> r.unwrap() == old(self)@[0] && final(self)@ == old(self)@.skip(1),
            r is None ==> final(self)@ == old(self)@,
    {
        match self.take(1) {
            Some(chunk) => Some(chunk[0]),
            None => None,
        }
    }
}

/// Appends the `size` low bytes of `value`, least significant first, to
/// `writer`.
pub fn write_uint(writer: &mut Vec<u8>, value: u128, size: usize)
    ensures
        final(writer)@ == old(writer)@ + le_bytes(value as nat, size as nat),
{
    let ghost start = writer@;
    let mut rest = value;
    let mut i: usize = 0;
    while i < size
        invariant
            i <= size,
            writer@ + le_bytes(rest as nat, (size - i) as nat) == start + le_bytes(
                value as nat,
                size as nat,
            ),
        decreases size - i,
    {
        let byte = (rest % 256) as u8;
        proof {
            let tail = le_bytes((rest / 256) as nat, (size - i - 1) as nat);
            assert(writer@.push(byte) + tail =~= writer@ + (seq![byte] + tail));
        }
        writer.push(byte);
        rest = rest / 256;
        i += 1;
    }
    assert(writer@ + Seq::<u8>::empty() =~= writer@);
}

/// The integer that at most 16 little-endian bytes spell.
pub fn read_uint(chunk: &[u8]) -> (r: u128)
    requires
        chunk@.len() <= 16,
    ensures
        r == le_value(chunk@),
        r < byte_range(chunk@.len()),
{
    let n = chunk.len();
    let mut value: u128 = 0;
    let mut i: usize = n;
    proof {
        assert(chunk@.skip(n as int) =~= Seq::<u8>::empty());
        reveal_with_fuel(byte_range, 17);
    }
    while i > 0
        invariant
            i <= n <= 16,
            n == chunk@.len(),
            value == le_value(chunk@.skip(i as int)),
            value < byte_range((n - i) as nat),
            byte_range(16) == 340282366920938463463374607431768211456nat,
        decreases i,
    {
        i -= 1;
        proof {
            let tail = chunk@.skip(i as int);
            assert(tail.drop_first() =~= chunk@.skip(i + 1));
            assert(tail[0] == chunk@[i as int]);
            lemma_byte_range_grows((n - i) as nat, 16);
        }
        value = value * 256 + chunk[i] as u128;
    }
    assert(chunk@.skip(0) =~= chunk@);
    value
}

} // verus!
