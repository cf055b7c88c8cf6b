//! A bitmap over a byte buffer: bit `i` lives in byte `i / 8`, at position `i % 8`.

use bit_field::BitField;
use vstd::prelude::*;

verus! {

/// Whether bit `bit` of `byte` is set.
pub open spec fn bit_of(byte: u8, bit: usize) -> bool {
    (byte & (1u8 << bit)) != 0
}

/// `byte` with bit `bit` set to `value`.
pub open spec fn with_bit(byte: u8, bit: usize, value: bool) -> u8 {
    if value {
        byte | (1u8 << bit)
    } else {
        byte & !(1u8 << bit)
    }
}

/// The bits that a byte buffer holds, lowest bit of the first byte first.
pub open spec fn bits_of(bytes: Seq<u8>) -> Seq<bool> {
    Seq::new((bytes.len() * 8) as nat, |i: int| bit_of(bytes[i / 8], (i % 8) as usize))
}

/// Calls `bit_field::BitField::get_bit` on a `u8`. For a position below 8 it
/// returns whether the byte, masked with one shifted left by the position, is
/// not zero; for any other position it would panic.
#[verifier::external_body]
fn byte_get_bit(byte: u8, bit: usize) -> (set: bool)
    requires
        bit < 8,
    ensures
        set == bit_of(byte, bit),
{
    byte.get_bit(bit)
}

/// Calls `bit_field::BitField::set_bit` on a `u8`. For a position below 8 it
/// ors one shifted left by the position into the byte when `value` holds and
/// masks it out when not; for any other position it would panic.
#[verifier::external_body]
fn byte_set_bit(byte: u8, bit: usize, value: bool) -> (changed: u8)
    requires
        bit < 8,
    ensures
        changed == with_bit(byte, bit, value),
{
    let mut changed = byte;
    changed.set_bit(bit, value);
    changed
}

/// Reading back position `j` of a byte after position `i` was written.
pub proof fn lemma_with_bit(byte: u8, i: usize, j: usize, value: bool)
    requires
        i < 8,
        j < 8,
    ensures
        bit_of(with_bit(byte, i, value), j) == (if i == j {
            value
        } else {
            bit_of(byte, j)
        }),
{
    assert(((byte | (1u8 << i)) & (1u8 << i)) != 0) by (bit_vector)
        requires
            i < 8,
    ;
    assert(((byte & !(1u8 << i)) & (1u8 << i)) == 0) by (bit_vector)
        requires
            i < 8,
    ;
    assert(i != j ==> ((byte | (1u8 << i)) & (1u8 << j)) == (byte & (1u8 << j))) by (bit_vector)
        requires
            i < 8,
            j < 8,
    ;
    assert(i != j ==> ((byte & !(1u8 << i)) & (1u8 << j)) == (byte & (1u8 << j))) by (bit_vector)
        requires
            i < 8,
            j < 8,
    ;
}

/// No bit of the zero byte is set.
pub proof fn lemma_zero_byte(j: usize)
    requires
        j < 8,
    ensures
        !bit_of(0u8, j),
{
    assert((0u8 & (1u8 << j)) == 0) by (bit_vector);
}

/// A bitmap that owns its byte buffer.
pub struct Bitmap {
    inner: Vec<u8>,
}

impl View for Bitmap {
    type V = Seq<bool>;

    closed spec fn view(&self) -> Seq<bool> {
        bits_of(self.inner@)
    }
}

impl Bitmap {
    /// Takes the buffer over and clears every bit of it.
    pub fn new(inner: Vec<u8>) -> (bitmap: Self)
        ensures
            bitmap@.len() == inner@.len() * 8,
            forall|i: int| 0 <= i < bitmap@.len() ==> !bitmap@[i],
    {
        let mut inner = inner;
        let n = inner.len();
        let mut k: usize = 0;
        while k < n
            invariant
                k <= n,
                inner@.len() == n,
                forall|b: int| 0 <= b < k ==> inner@[b] == 0u8,
            decreases n - k,
        {
            inner.set(k, 0u8);
            k += 1;
        }
        let bitmap = Bitmap { inner };
        proof {
            assert forall|i: int| 0 <= i < bitmap@.len() implies !bitmap@[i] by {
                lemma_zero_byte((i % 8) as usize);
            }
        }
        bitmap
    }

    /// The number of bytes in the buffer; the bitmap has eight bits for each.
    pub fn len(&self) -> (n: usize)
        ensures
            n * 8 == self@.len(),
    {
        self.inner.len()
    }

    /// Whether bit `index` is set.
    pub fn get(&self, index: usize) -> (set: bool)
        requires
            index < self@.len(),
        ensures
            set == self@[index as int],
    {
        let byte = self.inner[index / 8];
        byte_get_bit(byte, index % 8)
    }

    /// Sets bit `index` to `value` and leaves every other bit as it was.
    pub fn set(&mut self, index: usize, value: bool)
        requires
            index < old(self)@.len(),
        ensures
            final(self)@ == old(self)@.update(index as int, value),
    {
        let byte = self.inner[index / 8];
        let changed = byte_set_bit(byte, index % 8, value);
        self.inner.set(index / 8, changed);
        proof {
            let before = old(self)@;
            let after = self@;
            assert(after.len() == before.len());
            assert forall|i: int| 0 <= i < after.len() implies after[i] == before.update(
                index as int,
                value,
            )[i] by {
                if i / 8 == (index / 8) as int {
                    lemma_with_bit(byte, (index % 8) as usize, (i % 8) as usize, value);
                }
            }
            assert(after =~= before.update(index as int, value));
        }
    }
}

} // verus!
