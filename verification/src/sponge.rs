use vstd::arithmetic::div_mod::lemma_small_mod;
use vstd::prelude::*;

use crate::field::{add_mod, all_valid, limb_base, mul_mod, prime, vals, Felt};

verus! {

/// Number of rate slots of the sponge; the permutation width is one more.
pub const RATE: usize = 3;

/// What the fixed width-4 Poseidon2 permutation over the BN256 scalar
/// field returns, as a function of the four input values alone.
pub uninterp spec fn perm(s: Seq<nat>) -> Seq<nat>;

/// Relies on bn254_blackbox_solver's `poseidon2_permutation`: the fixed
/// width-4 Poseidon2 permutation over the BN256 scalar field, whose
/// output is a function of the four input values alone, and whose output
/// values are canonical representatives.
#[verifier::external_body]
fn permute(state: &Vec<Felt>) -> (r: Vec<Felt>)
    requires
        state.len() == 4,
        all_valid(state@),
    ensures
        r.len() == 4,
        all_valid(r@),
        vals(r@) == perm(vals(state@)),
{
    let conv = |f: &Felt| {
        acir_field::FieldElement::from_be_bytes_reduce(
            &[f.l3, f.l2, f.l1, f.l0].map(u64::to_be_bytes).concat(),
        )
    };
    let input: Vec<_> = state.iter().map(conv).collect();
    let out = bn254_blackbox_solver::poseidon2_permutation(&input, 4).unwrap();
    out.iter().map(|f| {
        let b = f.to_be_bytes();
        let l = |k: usize| u64::from_be_bytes(b[k * 8..k * 8 + 8].try_into().unwrap());
        Felt { l3: l(0), l2: l(1), l1: l(2), l0: l(3) }
    }).collect()
}

/// The mathematical state of a sponge: the permutation state, the live
/// part of the cache, and the direction it is currently working in.
#[verifier::ext_equal]
pub struct SpongeModel {
    pub state: Seq<nat>,
    pub cache: Seq<nat>,
    pub squeezing: bool,
}

/// The live cache padded with zeros to the full rate width.
pub open spec fn zero_pad(cache: Seq<nat>) -> Seq<nat> {
    Seq::new(3, |i: int| if i < cache.len() { cache[i] } else { 0 })
}

/// One duplex operation: add the zero-padded cache into the rate portion
/// of the state and run the permutation.
pub open spec fn spec_duplex(state: Seq<nat>, cache: Seq<nat>) -> Seq<nat> {
    perm(
        Seq::new(
            4,
            |i: int| if i < 3 {
                add_mod(state[i], zero_pad(cache)[i])
            } else {
                state[i]
            },
        ),
    )
}

/// Absorbing one value: on a full cache first compress it with a duplex
/// (discarding the output), on a squeezing sponge switch back to
/// absorbing; either way the value becomes the sole or next cache entry.
pub open spec fn spec_absorb(m: SpongeModel, x: nat) -> SpongeModel {
    if !m.squeezing && m.cache.len() == 3 {
        SpongeModel { state: spec_duplex(m.state, m.cache), cache: seq![x], squeezing: false }
    } else if !m.squeezing {
        SpongeModel { state: m.state, cache: m.cache.push(x), squeezing: false }
    } else {
        SpongeModel { state: m.state, cache: seq![x], squeezing: false }
    }
}

/// The sponge just before an output value is popped: an exhausted
/// squeezing sponge falls back to absorbing, and an absorbing sponge runs
/// one duplex and loads its output into the cache.
pub open spec fn squeeze_ready(m: SpongeModel) -> SpongeModel {
    let m1 = if m.squeezing && m.cache.len() == 0 {
        SpongeModel { state: m.state, cache: m.cache, squeezing: false }
    } else {
        m
    };
    if !m1.squeezing {
        let ns = spec_duplex(m1.state, m1.cache);
        SpongeModel { state: ns, cache: ns.take(3), squeezing: true }
    } else {
        m1
    }
}

/// The value one squeeze returns.
pub open spec fn spec_squeeze_out(m: SpongeModel) -> nat {
    squeeze_ready(m).cache[0]
}

/// The sponge after one squeeze: the returned value leaves the cache.
pub open spec fn spec_squeeze_model(m: SpongeModel) -> SpongeModel {
    let m2 = squeeze_ready(m);
    SpongeModel { state: m2.state, cache: m2.cache.skip(1), squeezing: true }
}

/// A fresh sponge: zero state except for the capacity slot, which holds
/// the initialization value; empty cache; absorbing.
pub open spec fn start_model(iv: nat) -> SpongeModel {
    SpongeModel { state: seq![0nat, 0nat, 0nat, iv], cache: Seq::<nat>::empty(), squeezing: false }
}

/// Absorbing a whole sequence, in order.
pub open spec fn spec_absorb_seq(m: SpongeModel, input: Seq<nat>) -> SpongeModel
    decreases input.len(),
{
    if input.len() == 0 {
        m
    } else {
        spec_absorb(spec_absorb_seq(m, input.drop_last()), input.last())
    }
}

/// The initialization value encoding the input length: `n * 2^64` in the
/// field, so that inputs of different lengths never share an IV.
pub open spec fn iv_of(n: nat) -> nat {
    mul_mod(n, limb_base())
}

/// The hash of an input sequence: absorb every element (plus the constant
/// one as a domain separator if the input is variable-length) into a
/// fresh sponge whose IV encodes the input length, then squeeze once.
pub open spec fn sponge_hash(input: Seq<nat>, variable_length: bool) -> nat {
    let padded = if variable_length {
        input.push(1nat)
    } else {
        input
    };
    spec_squeeze_out(spec_absorb_seq(start_model(iv_of(input.len())), padded))
}

/// The absorb/duplex/squeeze state machine over the BN256 scalar field.
pub struct Poseidon2Hash {
    cache: Vec<Felt>,
    state: Vec<Felt>,
    cache_size: usize,
    squeeze_mode: bool,
}

impl Poseidon2Hash {
    /// The representation holds exactly the construction's shapes: a
    /// rate-wide cache, a state one wider, and canonical elements only.
    pub closed spec fn wf(self) -> bool {
        &&& self.cache.len() == 3
        &&& self.state.len() == 4
        &&& self.cache_size <= 3
        &&& all_valid(self.cache@)
        &&& all_valid(self.state@)
    }

    /// The mathematical sponge this value stands for.
    pub closed spec fn model(self) -> SpongeModel {
        SpongeModel {
            state: vals(self.state@),
            cache: vals(self.cache@).take(self.cache_size as int),
            squeezing: self.squeeze_mode,
        }
    }

    fn new(iv: Felt) -> (r: Poseidon2Hash)
        requires
            iv.valid(),
        ensures
            r.wf(),
            r.model() == start_model(iv.val()),
    {
        let mut cache: Vec<Felt> = Vec::new();
        cache.push(Felt::zero());
        cache.push(Felt::zero());
        cache.push(Felt::zero());
        let mut state: Vec<Felt> = Vec::new();
        state.push(Felt::zero());
        state.push(Felt::zero());
        state.push(Felt::zero());
        state.push(iv);
        let r = Poseidon2Hash { cache, state, cache_size: 0, squeeze_mode: false };
        proof {
            assert(vals(r.state@) =~= seq![0nat, 0nat, 0nat, iv.val()]);
            assert(r.model() =~= start_model(iv.val()));
        }
        r
    }

    #[verifier::loop_isolation(false)]
    fn perform_duplex(&mut self) -> (out: Vec<Felt>)
        requires
            old(self).wf(),
        ensures
            final(self).wf(),
            final(self).model().state == spec_duplex(
                old(self).model().state,
                old(self).model().cache,
            ),
            final(self).model().cache == old(self).model().cache,
            final(self).model().squeezing == old(self).model().squeezing,
            out.len() == 3,
            all_valid(out@),
            vals(out@) == final(self).model().state.take(3),
    {
        let ghost m0 = self.model();
        // Zero-pad the unused tail of the cache.
        let mut i: usize = self.cache_size;
        while i < 3
            invariant
                self.cache_size <= i <= 3,
                self.cache.len() == 3,
                forall|k: int| 0 <= k < self.cache_size ==> self.cache@[k] == old(self).cache@[k],
                forall|k: int| self.cache_size <= k < i ==> (#[trigger] self.cache@[k]).val() == 0
                    && self.cache@[k].valid(),
                all_valid(self.cache@),
                self.state == old(self).state,
                self.cache_size == old(self).cache_size,
                self.squeeze_mode == old(self).squeeze_mode,
            decreases 3 - i,
        {
            self.cache.set(i, Felt::zero());
            i += 1;
        }
        proof {
            assert(vals(self.cache@) =~= zero_pad(m0.cache));
            assert(self.model().cache =~= m0.cache);
        }
        // Add the cache into the rate portion of the state.
        let ghost padded = vals(self.cache@);
        let mut j: usize = 0;
        while j < 3
            invariant
                0 <= j <= 3,
                self.state.len() == 4,
                vals(self.cache@) == padded,
                self.cache.len() == 3,
                all_valid(self.cache@),
                all_valid(self.state@),
                forall|k: int| 0 <= k < j ==> (#[trigger] self.state@[k]).val() == add_mod(
                    m0.state[k],
                    padded[k],
                ),
                forall|k: int| j <= k < 4 ==> self.state@[k] == old(self).state@[k],
                self.cache_size == old(self).cache_size,
                self.squeeze_mode == old(self).squeeze_mode,
                self.model().cache == m0.cache,
            decreases 3 - j,
        {
            let sum = self.state[j].add(&self.cache[j]);
            self.state.set(j, sum);
            j += 1;
        }
        proof {
            assert(vals(self.state@) =~= Seq::new(
                4,
                |i: int| if i < 3 {
                    add_mod(m0.state[i], zero_pad(m0.cache)[i])
                } else {
                    m0.state[i]
                },
            ));
        }
        let new_state = permute(&self.state);
        self.state = new_state;
        let mut out: Vec<Felt> = Vec::new();
        out.push(self.state[0]);
        out.push(self.state[1]);
        out.push(self.state[2]);
        proof {
            assert(vals(out@) =~= vals(self.state@).take(3));
            assert(self.model().cache =~= m0.cache);
        }
        out
    }

    fn absorb(&mut self, input: Felt)
        requires
            old(self).wf(),
            input.valid(),
        ensures
            final(self).wf(),
            final(self).model() == spec_absorb(old(self).model(), input.val()),
    {
        if !self.squeeze_mode && self.cache_size == RATE {
            // Absorbing with a full cache: compress it, then start a fresh
            // cache holding only the new value.
            let _ = self.perform_duplex();
            self.cache.set(0, input);
            self.cache_size = 1;
        } else if !self.squeeze_mode && self.cache_size != RATE {
            // Absorbing with room to spare: append to the cache.
            let cs = self.cache_size;
            self.cache.set(cs, input);
            self.cache_size = cs + 1;
        } else {
            // Squeezing: switch back to absorbing with a fresh cache.
            self.cache.set(0, input);
            self.cache_size = 1;
            self.squeeze_mode = false;
        }
        proof {
            assert(self.model().cache =~= spec_absorb(old(self).model(), input.val()).cache);
            assert(self.model() =~= spec_absorb(old(self).model(), input.val()));
        }
    }

    #[verifier::loop_isolation(false)]
    fn squeeze(&mut self) -> (r: Felt)
        requires
            old(self).wf(),
        ensures
            final(self).wf(),
            final(self).model() == spec_squeeze_model(old(self).model()),
            r.val() == spec_squeeze_out(old(self).model()),
            r.valid(),
    {
        if self.squeeze_mode && self.cache_size == 0 {
            // Nothing left to emit from the current permutation output:
            // fall back to absorbing.
            self.squeeze_mode = false;
        }
        if !self.squeeze_mode {
            // Compress the cache and load the duplex output as the new
            // cache of pending output values.
            let out = self.perform_duplex();
            self.squeeze_mode = true;
            self.cache = out;
            self.cache_size = RATE;
            proof {
                assert(self.model().cache =~= squeeze_ready(old(self).model()).cache);
            }
        }
        let ghost ready = squeeze_ready(old(self).model());
        let result = self.cache[0];
        let ghost popped = self.cache@;
        let ghost before_pop = *self;
        proof {
            assert(ready.cache =~= vals(popped).take(self.cache_size as int));
            assert(all_valid(popped));
        }
        // Shift the remaining pending values left by one.
        let mut i: usize = 1;
        while i < self.cache_size
            invariant
                1 <= i <= self.cache_size,
                self.cache_size <= 3,
                self.cache.len() == 3,
                self.state == before_pop.state,
                self.cache_size == before_pop.cache_size,
                self.squeeze_mode == before_pop.squeeze_mode,
                forall|k: int| 0 <= k < i - 1 ==> self.cache@[k] == popped[k + 1],
                forall|k: int| i - 1 <= k < 3 ==> self.cache@[k] == popped[k],
            decreases self.cache_size - i,
        {
            let v = self.cache[i];
            self.cache.set(i - 1, v);
            i += 1;
        }
        self.cache_size = self.cache_size - 1;
        let cs = self.cache_size;
        self.cache.set(cs, Felt::zero());
        proof {
            assert forall|k: int| 0 <= k < self.cache.len() implies (
            #[trigger] self.cache@[k]).valid() by {
                if k < cs {
                    assert(self.cache@[k] == popped[k + 1]);
                } else if k > cs {
                    assert(self.cache@[k] == popped[k]);
                }
            }
            assert(self.model().cache =~= ready.cache.skip(1));
            assert(self.model() =~= spec_squeeze_model(old(self).model()));
        }
        result
    }

    /// One-shot hash of a sequence of field elements, optionally marked
    /// variable-length; the only entry point, and bit-exact with the
    /// circuit reference construction.
    #[verifier::loop_isolation(false)]
    pub fn hash(input: &[Felt], is_variable_length: bool) -> (r: Felt)
        requires
            all_valid(input@),
        ensures
            r.val() == sponge_hash(vals(input@), is_variable_length),
            r.valid(),
    {
        let len = input.len();
        let iv = Felt::from_u64(len as u64).mul(&Felt::two_to_64());
        let ghost m0 = start_model(iv_of(input@.len()));
        let mut sponge = Poseidon2Hash::new(iv);
        let mut i: usize = 0;
        while i < len
            invariant
                0 <= i <= len,
                sponge.wf(),
                sponge.model() == spec_absorb_seq(m0, vals(input@).take(i as int)),
            decreases len - i,
        {
            let x = input[i];
            sponge.absorb(x);
            proof {
                assert(vals(input@).take(i + 1).drop_last() =~= vals(input@).take(i as int));
                assert(vals(input@).take(i + 1).last() == input@[i as int].val());
            }
            i += 1;
        }
        proof {
            assert(vals(input@).take(len as int) =~= vals(input@));
        }
        if is_variable_length {
            // An explicit domain separator keeps a variable-length input
            // from colliding with a fixed-length input of the same
            // content.
            sponge.absorb(Felt::one());
            proof {
                assert(vals(input@).push(1nat).drop_last() =~= vals(input@));
            }
        }
        sponge.squeeze()
    }
}

/// Determinism: the hash is a pure function of the input values and the
/// variable-length flag, with no other influence on the result.
pub proof fn lemma_hash_deterministic(a: Seq<nat>, b: Seq<nat>, variable_length: bool)
    requires
        a == b,
    ensures
        sponge_hash(a, variable_length) == sponge_hash(b, variable_length),
{
}

/// Length domain separation: two inputs of different lengths start their
/// sponges from different initialization values, since `n * 2^64` stays
/// below the prime and is injective for every realizable length.
pub proof fn lemma_iv_length_separation(n: nat, m: nat)
    requires
        n != m,
        n < limb_base(),
        m < limb_base(),
    ensures
        iv_of(n) != iv_of(m),
{
    let b = limb_base();
    assert(n * b != m * b && n * b < b * b && m * b < b * b) by (nonlinear_arith)
        requires
            n != m,
            n < b,
            m < b,
            b > 0,
    ;
    assert(b * b < prime());
    lemma_small_mod((n * b) as nat, prime());
    lemma_small_mod((m * b) as nat, prime());
}

} // verus!
