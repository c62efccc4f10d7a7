use vstd::prelude::*;
use vstd::arithmetic::power2::{pow2, lemma_pow2_unfold, lemma_pow2_strictly_increases, lemma2_to64, lemma2_to64_rest};

verus! {

/// The capacity, in bytes, of a fresh dynamic buffer.
pub const INITIAL_CAPACITY: u64 = 2048;

/// The least power of two that is at least `n` (1 for 0 and 1).
pub open spec fn next_power_of_two(n: nat) -> nat
    decreases n,
{
    if n <= 1 {
        1
    } else {
        2 * next_power_of_two(((n + 1) / 2) as nat)
    }
}

/// `n` is a power of two.
pub open spec fn is_power_of_two(n: nat) -> bool {
    exists|e: nat| pow2(e) == n
}

/// Law: `next_power_of_two(n)` is a power of two, it is at least `n`, and no
/// power of two that is at least `n` is smaller.
pub proof fn lemma_next_power_of_two(n: nat)
    ensures
        is_power_of_two(next_power_of_two(n)),
        n <= next_power_of_two(n),
        forall|e: nat| n <= pow2(e) ==> next_power_of_two(n) <= #[trigger] pow2(e),
        n >= 1 ==> next_power_of_two(n) < 2 * n,
    decreases n,
{
    lemma2_to64();
    if n <= 1 {
        assert(pow2(0) == next_power_of_two(n));
        assert forall|e: nat| n <= pow2(e) implies next_power_of_two(n) <= #[trigger] pow2(e) by {
            if e > 0 {
                lemma_pow2_strictly_increases(0, e);
            }
        }
    } else {
        let m = ((n + 1) / 2) as nat;
        lemma_next_power_of_two(m);
        let e0 = choose|e: nat| pow2(e) == next_power_of_two(m);
        lemma_pow2_unfold(e0 + 1);
        assert(pow2(e0 + 1) == next_power_of_two(n));
        assert forall|e: nat| n <= pow2(e) implies next_power_of_two(n) <= #[trigger] pow2(e) by {
            if e == 0 {
                assert(false);
            } else {
                lemma_pow2_unfold(e);
                assert(m <= pow2((e - 1) as nat));
            }
        }
        if next_power_of_two(n) >= 2 * n {
            lemma_pow2_unfold(e0 + 1);
            assert(n <= pow2(e0));
            assert(next_power_of_two(n) <= pow2(e0));
            assert(false);
        }
    }
}

/// The least power of two that is at least `n`, for `n` up to 2^63.
pub fn next_power_of_two_u64(n: u64) -> (p: u64)
    requires
        n <= 0x8000_0000_0000_0000u64,
    ensures
        p == next_power_of_two(n as nat),
    decreases n,
{
    if n <= 1 {
        1
    } else {
        let m = n / 2 + n % 2;
        assert(m == (n + 1) / 2);
        proof {
            lemma2_to64_rest();
            lemma_next_power_of_two(m as nat);
        }
        let q = next_power_of_two_u64(m);
        2 * q
    }
}

/// A growable GPU buffer, as far as deciding its size goes: it starts at
/// `INITIAL_CAPACITY` bytes, and whenever more data must be written than it
/// holds, it grows to the larger of the next power of two of the data size
/// and twice its capacity. The GPU buffer itself lives with the device.
pub struct DynBuffer {
    capacity: u64,
    /// The `wgpu::BufferUsages` bits that the buffer is created with.
    usage: u32,
    label: String,
}

/// The capacity after writing `data_size` bytes to a buffer of capacity `cap`.
pub open spec fn grown_capacity(cap: nat, data_size: nat) -> nat {
    if data_size <= cap {
        cap
    } else {
        let p = next_power_of_two(data_size);
        if p >= 2 * cap {
            p
        } else {
            2 * cap
        }
    }
}

impl DynBuffer {
    /// The buffer's capacity is a power of two, at least the initial one.
    #[verifier::type_invariant]
    spec fn capacity_inv(self) -> bool {
        &&& is_power_of_two(self.capacity as nat)
        &&& INITIAL_CAPACITY <= self.capacity
    }

    pub closed spec fn spec_capacity(&self) -> u64 {
        self.capacity
    }

    pub closed spec fn spec_usage(&self) -> u32 {
        self.usage
    }

    pub closed spec fn spec_label(&self) -> Seq<char> {
        self.label@
    }

    /// A buffer of `INITIAL_CAPACITY` bytes, with the given usage and label.
    pub fn new(usage: u32, label: &str) -> (b: Self)
        ensures
            b.spec_capacity() == INITIAL_CAPACITY,
            b.spec_usage() == usage,
            b.spec_label() == label@,
    {
        proof {
            lemma2_to64();
            assert(pow2(11) == INITIAL_CAPACITY);
        }
        DynBuffer { capacity: INITIAL_CAPACITY, usage, label: label.to_string() }
    }

    /// The capacity, in bytes. It is always a power of two, and at least
    /// `INITIAL_CAPACITY`.
    pub fn capacity(&self) -> (c: u64)
        ensures
            c == self.spec_capacity(),
            is_power_of_two(c as nat),
            INITIAL_CAPACITY <= c,
    {
        proof {
            use_type_invariant(self);
        }
        self.capacity
    }

    pub fn usage(&self) -> (u: u32)
        ensures
            u == self.spec_usage(),
    {
        self.usage
    }

    pub fn label(&self) -> (l: &str)
        ensures
            l@ == self.spec_label(),
    {
        self.label.as_str()
    }

    /// Makes room for writing `data_size` bytes. Returns the size of the new
    /// GPU buffer to create, when the current one is too small; the data is
    /// then written at offset 0 of the (possibly new) buffer.
    pub fn write_data(&mut self, data_size: u64) -> (resize: Option<u64>)
        requires
            data_size <= 0x8000_0000_0000_0000u64,
        ensures
            final(self).spec_capacity() == grown_capacity(old(self).spec_capacity() as nat, data_size as nat),
            final(self).spec_usage() == old(self).spec_usage(),
            final(self).spec_label() == old(self).spec_label(),
            resize == (if data_size > old(self).spec_capacity() {
                Some(final(self).spec_capacity())
            } else {
                None
            }),
    {
        proof {
            use_type_invariant(&*self);
        }
        if data_size > self.capacity {
            let p = next_power_of_two_u64(data_size);
            proof {
                lemma2_to64_rest();
                let e = choose|e: nat| pow2(e) == self.capacity as nat;
                if e >= 63 {
                    if e > 63 {
                        lemma_pow2_strictly_increases(63, e);
                    }
                    assert(false);
                }
                if e < 62 {
                    lemma_pow2_strictly_increases(e, 62);
                }
                lemma_pow2_unfold(e + 1);
                lemma_next_power_of_two(data_size as nat);
            }
            let doubled = self.capacity * 2;
            let cap = if p >= doubled { p } else { doubled };
            self.capacity = cap;
            Some(cap)
        } else {
            None
        }
    }
}

/// Law: after writing `data_size` bytes to a buffer of capacity `cap`, the
/// capacity holds the data, has not shrunk, and stays unchanged when the data
/// already fit.
pub proof fn lemma_grown_capacity(cap: nat, data_size: nat)
    ensures
        data_size <= grown_capacity(cap, data_size),
        cap <= grown_capacity(cap, data_size),
        data_size <= cap ==> grown_capacity(cap, data_size) == cap,
        data_size > cap ==> is_power_of_two(grown_capacity(cap, data_size)) || grown_capacity(cap, data_size) == 2 * cap,
        data_size > cap ==> grown_capacity(cap, data_size) >= 2 * cap,
        data_size > cap ==> grown_capacity(cap, data_size) == 2 * cap || grown_capacity(cap, data_size) < 2 * data_size,
        data_size > cap ==> forall|e: nat| data_size <= pow2(e) && 2 * cap <= pow2(e) ==> grown_capacity(cap, data_size) <= #[trigger] pow2(e),
{
    lemma_next_power_of_two(data_size);
}

} // verus!
