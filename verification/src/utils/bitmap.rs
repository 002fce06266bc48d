//! Bits packed into bytes.

use vstd::prelude::*;

verus! {

/// Bit `i` of `byte`, counted from the least significant.
pub open spec fn byte_bit(byte: u8, i: u8) -> bool {
    byte & (1u8 << i) != 0
}

/// A fixed number of bits, eight to a byte.
#[derive(Debug, Clone)]
pub struct Bitmap {
    data: Vec<u8>,
}

impl View for Bitmap {
    type V = Seq<bool>;

    /// The bits in order: bit `k` lives in byte `k / 8` at position `k % 8`.
    closed spec fn view(&self) -> Seq<bool> {
        Seq::new(
            (self.data@.len() * 8) as nat,
            |k: int| byte_bit(self.data@[k / 8], (k % 8) as u8),
        )
    }
}

impl Bitmap {
    /// The bytes behind the bits.
    pub closed spec fn bytes(&self) -> Seq<u8> {
        self.data@
    }

    /// How the bits are read from the bytes.
    pub proof fn lemma_view(&self)
        ensures
            self@.len() == self.bytes().len() * 8,
            forall|k: int|
                0 <= k < self@.len() ==> self@[k] == byte_bit(
                    #[trigger] self.bytes()[k / 8],
                    (k % 8) as u8,
                ),
    {
    }

    /// A bitmap of at least `l` bits, rounded up to whole bytes, all clear.
    pub fn new(l: u64) -> (b: Self)
        requires
            l / 8 + 1 <= usize::MAX,
        ensures
            b@.len() == 8 * ((l + 7) / 8),
            b@.len() >= l,
            forall|k: int| 0 <= k < b@.len() ==> !b@[k],
    {
        let r: u64 = if l % 8 == 0 {
            0
        } else {
            1
        };
        let n: usize = (l / 8 + r) as usize;
        let mut v: Vec<u8> = Vec::new();
        let mut i: usize = 0;
        while i < n
            invariant
                i <= n,
                v@.len() == i,
                forall|j: int| 0 <= j < i ==> v@[j] == 0u8,
            decreases n - i,
        {
            v.push(0u8);
            i = i + 1;
        }
        let b = Bitmap { data: v };
        proof {
            assert forall|k: int| 0 <= k < b@.len() implies !b@[k] by {
                let i = (k % 8) as u8;
                assert(!byte_bit(0u8, i)) by (bit_vector);
            }
        }
        b
    }

    /// The bitmap over the given bytes.
    pub fn from_bytes(data: Vec<u8>) -> (b: Self)
        ensures
            b.bytes() == data@,
    {
        Bitmap { data }
    }

    /// A copy of the bytes.
    pub fn to_bytes(&self) -> (data: Vec<u8>)
        ensures
            data@ == self.bytes(),
    {
        self.data.clone()
    }

    /// A bitmap with the same bits.
    pub fn duplicate(&self) -> (b: Self)
        ensures
            b@ == self@,
            b.bytes() == self.bytes(),
    {
        Bitmap { data: self.data.clone() }
    }

    /// The number of bytes.
    pub fn len(&self) -> (n: usize)
        ensures
            n == self.bytes().len(),
            n * 8 == self@.len(),
    {
        self.data.len()
    }

    /// Bit `k`.
    pub fn get(&self, k: u64) -> (r: bool)
        requires
            k < self@.len(),
        ensures
            r == self@[k as int],
    {
        let byte_idx: u64 = k / 8;
        let bit_idx: u64 = k % 8;
        let n: usize = self.data.len();
        assert(byte_idx < n);
        let byte: u8 = self.data[byte_idx as usize];
        Bitmap::get_bit(byte, bit_idx)
    }

    /// Sets bit `k` to `v` and leaves every other bit as it was.
    pub fn set(&mut self, k: u64, v: bool)
        requires
            k < old(self)@.len(),
        ensures
            final(self)@ == old(self)@.update(k as int, v),
    {
        let byte_idx: u64 = k / 8;
        let bit_idx: u64 = k % 8;
        let n: usize = self.data.len();
        assert(byte_idx < n);
        let byte: u8 = self.data[byte_idx as usize];
        let updated: u8 = Bitmap::set_bit(byte, bit_idx, v);
        self.data.set(byte_idx as usize, updated);
        proof {
            let before = old(self)@;
            let after = self@;
            assert(after.len() == before.len());
            assert forall|j: int| 0 <= j < after.len() implies after[j] == before.update(
                k as int,
                v,
            )[j] by {
                assert(after[j] == byte_bit(self.data@[j / 8], (j % 8) as u8));
                assert(before[j] == byte_bit(old(self).data@[j / 8], (j % 8) as u8));
                if j / 8 == byte_idx as int {
                    assert(j % 8 == bit_idx as int <==> j == k as int);
                    assert(byte_bit(updated, (j % 8) as u8) == (if (j % 8) as u8 == bit_idx {
                        v
                    } else {
                        byte_bit(byte, (j % 8) as u8)
                    }));
                }
            }
            assert(after =~= before.update(k as int, v));
        }
    }

    /// Bit `bit_idx` of `byte`.
    pub fn get_bit(byte: u8, bit_idx: u64) -> (r: bool)
        requires
            bit_idx < 8,
        ensures
            r == byte_bit(byte, bit_idx as u8),
    {
        let i: u8 = bit_idx as u8;
        let mask: u8 = 1u8 << i;
        (byte & mask) != 0
    }

    /// `byte` with bit `bit_idx` set to `v` and the other bits unchanged.
    pub fn set_bit(byte: u8, bit_idx: u64, v: bool) -> (r: u8)
        requires
            bit_idx < 8,
        ensures
            forall|j: u8|
                j < 8 ==> #[trigger] byte_bit(r, j) == (if j == bit_idx {
                    v
                } else {
                    byte_bit(byte, j)
                }),
    {
        let i: u8 = bit_idx as u8;
        let mask: u8 = 1u8 << i;
        if v {
            let r: u8 = byte | mask;
            assert(forall|j: u8|
                j < 8 ==> #[trigger] byte_bit(r, j) == (if j == i {
                    true
                } else {
                    byte_bit(byte, j)
                })) by (bit_vector)
                requires
                    i < 8,
                    mask == 1u8 << i,
                    r == byte | mask,
            ;
            r
        } else {
            let r: u8 = byte & !mask;
            assert(forall|j: u8|
                j < 8 ==> #[trigger] byte_bit(r, j) == (if j == i {
                    false
                } else {
                    byte_bit(byte, j)
                })) by (bit_vector)
                requires
                    i < 8,
                    mask == 1u8 << i,
                    r == byte & !mask,
            ;
            r
        }
    }
}

} // verus!
