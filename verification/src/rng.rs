use vstd::prelude::*;
use vstd::string::StringSliceAdditionalSpecFns;

verus! {

/// FNV-1a offset basis.
pub const FNV_OFFSET: u64 = 0xcbf29ce484222325;

/// FNV-1a prime.
pub const FNV_PRIME: u64 = 0x100000001b3;

/// One FNV-1a step: xor the byte in, then multiply modulo 2^64.
pub open spec fn fnv_step(hash: u64, byte: u8) -> u64 {
    ((((hash ^ (byte as u64)) as nat) * (FNV_PRIME as nat)) % 0x1_0000_0000_0000_0000nat) as u64
}

/// FNV-1a over a byte sequence, starting from `hash`.
pub open spec fn fnv_fold(hash: u64, bytes: Seq<u8>) -> u64
    decreases bytes.len(),
{
    if bytes.len() == 0 {
        hash
    } else {
        fnv_fold(fnv_step(hash, bytes[0]), bytes.drop_first())
    }
}

/// The eight little-endian bytes of a `u64`.
pub open spec fn le_bytes(x: u64) -> Seq<u8> {
    Seq::new(8, |k: int| ((x >> ((8 * k) as u64)) & 0xff) as u8)
}

/// The seed state derived from a phrase and a generation number; a zero hash becomes 1.
pub open spec fn phrase_state(phrase: Seq<u8>, generation: u64) -> u64 {
    let h = fnv_fold(FNV_OFFSET, phrase + le_bytes(generation));
    if h == 0 {
        1
    } else {
        h
    }
}

/// One xorshift64 step.
pub open spec fn xorshift(s: u64) -> u64 {
    let a = s ^ (s << 13u64);
    let b = a ^ (a >> 7u64);
    b ^ (b << 17u64)
}

/// The state after `n` xorshift steps.
pub open spec fn xorshift_n(s: u64, n: nat) -> u64
    decreases n,
{
    if n == 0 {
        s
    } else {
        xorshift_n(xorshift(s), (n - 1) as nat)
    }
}

/// A deterministic xorshift64 pseudo-random generator.
pub struct Rng(u64);

impl View for Rng {
    type V = u64;

    closed spec fn view(&self) -> u64 {
        self.0
    }
}

proof fn lemma_fnv_fold_step(hash: u64, bytes: Seq<u8>, i: int)
    requires
        0 <= i < bytes.len(),
    ensures
        fnv_fold(hash, bytes.skip(i)) == fnv_fold(fnv_step(hash, bytes[i]), bytes.skip(i + 1)),
{
    assert(bytes.skip(i).drop_first() =~= bytes.skip(i + 1));
}

/// Xorshift never maps a nonzero state to zero.
proof fn lemma_xorshift_nonzero(s: u64)
    requires
        s != 0,
    ensures
        xorshift(s) != 0,
{
    let a = s ^ (s << 13u64);
    let b = a ^ (a >> 7u64);
    assert(s != 0 ==> (s ^ (s << 13u64)) != 0) by (bit_vector);
    assert(a != 0 ==> (a ^ (a >> 7u64)) != 0) by (bit_vector);
    assert(b != 0 ==> (b ^ (b << 17u64)) != 0) by (bit_vector);
}

/// A generator seeded from a phrase never draws zero, however many draws it makes, so it
/// never gets stuck.
pub proof fn seeded_draws_never_zero(phrase: Seq<u8>, generation: u64, n: nat)
    ensures
        xorshift_n(phrase_state(phrase, generation), n) != 0,
    decreases n,
{
    lemma_draws_nonzero(phrase_state(phrase, generation), n);
}

proof fn lemma_draws_nonzero(s: u64, n: nat)
    requires
        s != 0,
    ensures
        xorshift_n(s, n) != 0,
    decreases n,
{
    if n > 0 {
        lemma_xorshift_nonzero(s);
        lemma_draws_nonzero(xorshift(s), (n - 1) as nat);
    }
}

impl Rng {
    /// Seeds the generator with the FNV-1a hash of the phrase's UTF-8 bytes followed by the
    /// little-endian bytes of `generation`; a zero hash is replaced by 1.
    pub fn from_phrase(phrase: &str, generation: u64) -> (r: Rng)
        ensures
            r@ == phrase_state(phrase.spec_bytes(), generation),
            r@ != 0,
    {
        let bytes = phrase.as_bytes();
        let ghost all = bytes@ + le_bytes(generation);
        let ghost target = fnv_fold(FNV_OFFSET, all);
        let mut hash: u64 = FNV_OFFSET;
        let mut i: usize = 0;
        assert(all.skip(0) =~= all);
        while i < bytes.len()
            invariant
                i <= bytes@.len(),
                all == bytes@ + le_bytes(generation),
                target == fnv_fold(FNV_OFFSET, all),
                fnv_fold(hash, all.skip(i as int)) == target,
            decreases bytes@.len() - i,
        {
            proof {
                lemma_fnv_fold_step(hash, all, i as int);
            }
            let byte = bytes[i];
            hash = (hash ^ (byte as u64)).wrapping_mul(FNV_PRIME);
            i = i + 1;
        }
        let mut k: u64 = 0;
        while k < 8
            invariant
                k <= 8,
                i == bytes@.len(),
                all == bytes@ + le_bytes(generation),
                fnv_fold(hash, all.skip(i + k)) == target,
            decreases 8 - k,
        {
            proof {
                lemma_fnv_fold_step(hash, all, i + k);
            }
            let masked = (generation >> (8 * k)) & 0xff;
            assert(masked <= 0xff) by (bit_vector)
                requires
                    masked == (generation >> (8 * k)) & 0xff,
            ;
            let byte = masked as u8;
            assert(all[i + k] == byte);
            hash = (hash ^ (byte as u64)).wrapping_mul(FNV_PRIME);
            k = k + 1;
        }
        assert(all.skip(all.len() as int) =~= Seq::<u8>::empty());
        if hash == 0 {
            Rng(1)
        } else {
            Rng(hash)
        }
    }

    /// Advances the generator by one xorshift64 step and returns the new state.
    pub fn next(&mut self) -> (r: u64)
        ensures
            r == xorshift(old(self)@),
            final(self)@ == r,
    {
        self.0 = self.0 ^ (self.0 << 13u64);
        self.0 = self.0 ^ (self.0 >> 7u64);
        self.0 = self.0 ^ (self.0 << 17u64);
        self.0
    }

    /// Draws the next value and reduces it modulo `end`.
    pub fn range(&mut self, end: usize) -> (r: usize)
        requires
            end > 0,
        ensures
            final(self)@ == xorshift(old(self)@),
            r as int == (final(self)@ as int) % (end as int),
            r < end,
    {
        let v = self.next();
        (v % (end as u64)) as usize
    }
}

} // verus!
