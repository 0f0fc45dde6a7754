//! What the generator draws, in ordinary arithmetic, and how the queries of trials differ.
#[allow(unused_imports)]
use crate::byte_laws::lemma_odd_multiple_tells;
use crate::kinds::Level;
#[allow(unused_imports)]
use crate::random::{
    dpf_seed, merkle_seed, query_of, query_seed, splitmix_draw, splitmix_mix, splitmix_next,
    splitmix_state, target_of,
};
#[allow(unused_imports)]
use vstd::arithmetic::div_mod::{
    lemma_fundamental_div_mod, lemma_fundamental_div_mod_converse, lemma_mod_bound,
};
use vstd::prelude::*;

verus! {

/// The state grows by one constant with every number that is drawn, modulo 2^64.
pub proof fn law_state_after_draws(seed: u64, n: nat)
    ensures
        splitmix_state(seed, n) == (seed + n * 0x9e37_79b9_7f4a_7c15) % 0x1_0000_0000_0000_0000,
    decreases n,
{
    if n > 0 {
        law_state_after_draws(seed, (n - 1) as nat);
        let m: int = 0x1_0000_0000_0000_0000;
        let step: int = 0x9e37_79b9_7f4a_7c15;
        let before = seed + (n - 1) * step;
        assert(before + step == seed + n * step);
        let q = before / m;
        let r = before % m;
        lemma_fundamental_div_mod(before, m);
        lemma_mod_bound(before, m);
        assert(before == q * m + r);
        if r + step >= m {
            assert((q + 1) * m == q * m + m);
            lemma_fundamental_div_mod_converse(before + step, m, q + 1, r + step - m);
        } else {
            lemma_fundamental_div_mod_converse(before + step, m, q, r + step);
        }
    }
}

/// A number is made of its state by two products modulo 2^64, each of a number combined with its
/// own quotient by a power of two, and a last such combination.
pub proof fn law_number_of_state(state: u64)
    ensures
        ({
            let a = (((state ^ (state / 0x4000_0000)) * 0xbf58_476d_1ce4_e5b9)
                % 0x1_0000_0000_0000_0000) as u64;
            let b = (((a ^ (a / 0x800_0000)) * 0x94d0_49bb_1331_11eb)
                % 0x1_0000_0000_0000_0000) as u64;
            splitmix_mix(state) == b ^ (b / 0x8000_0000)
        }),
{
    assert(state >> 30 == state / 0x4000_0000) by (bit_vector);
    let a = (((state ^ (state / 0x4000_0000)) * 0xbf58_476d_1ce4_e5b9)
        % 0x1_0000_0000_0000_0000) as u64;
    assert(a >> 27 == a / 0x800_0000) by (bit_vector);
    let b = (((a ^ (a / 0x800_0000)) * 0x94d0_49bb_1331_11eb) % 0x1_0000_0000_0000_0000) as u64;
    assert(b >> 31 == b / 0x8000_0000) by (bit_vector);
}

/// Different states have different numbers.
pub proof fn law_different_states_draw_different_numbers(x: u64, y: u64)
    requires
        x != y,
    ensures
        splitmix_mix(x) != splitmix_mix(y),
{
    assert(x != y ==> x ^ (x >> 30) != y ^ (y >> 30)) by (bit_vector);
    lemma_odd_multiple_tells(
        x ^ (x >> 30),
        y ^ (y >> 30),
        0xbf58_476d_1ce4_e5b9,
        0x96de1b173f119089,
    );
    let a = (x ^ (x >> 30)).wrapping_mul(0xbf58_476d_1ce4_e5b9);
    let b = (y ^ (y >> 30)).wrapping_mul(0xbf58_476d_1ce4_e5b9);
    assert(a != b ==> a ^ (a >> 27) != b ^ (b >> 27)) by (bit_vector);
    lemma_odd_multiple_tells(
        a ^ (a >> 27),
        b ^ (b >> 27),
        0x94d0_49bb_1331_11eb,
        0x319642b2d24d8ec3,
    );
    let c = (a ^ (a >> 27)).wrapping_mul(0x94d0_49bb_1331_11eb);
    let d = (b ^ (b >> 27)).wrapping_mul(0x94d0_49bb_1331_11eb);
    assert(c != d ==> c ^ (c >> 31) != d ^ (d >> 31)) by (bit_vector);
}

/// The number that is drawn with the index `n` belongs to the state after `n + 1` steps, and
/// drawing goes from one state to the next.
pub proof fn law_draws(seed: u64, n: nat)
    ensures
        splitmix_next(seed) == (seed + 0x9e37_79b9_7f4a_7c15) % 0x1_0000_0000_0000_0000,
        splitmix_draw(seed, n) == splitmix_mix(
            ((seed + (n + 1) * 0x9e37_79b9_7f4a_7c15) % 0x1_0000_0000_0000_0000) as u64,
        ),
{
    law_state_after_draws(seed, n + 1);
}

/// The seeds: a constant of each protocol, combined with the trial and the group, each times a
/// constant modulo 2^64, with the number of bins, and with the size, the level or the permutation
/// in the upper bits.
pub proof fn law_seeds(
    trial_index: usize,
    group: usize,
    bins_per_table: usize,
    size: usize,
    level: Level,
    backend_id: u8,
)
    ensures
        ({
            let trial = ((trial_index * 0x1000_0000_01b3) % 0x1_0000_0000_0000_0000) as u64;
            let of_group = ((group * 0x9e37) % 0x1_0000_0000_0000_0000) as u64;
            let bins = bins_per_table as u64;
            let sized = ((size * 0x1_0000_0000) % 0x1_0000_0000_0000_0000) as u64;
            let of_level: u64 = match level {
                Level::Index => 0,
                Level::Chunk => 0x100_0000_0000_0000,
            };
            let of_backend = (backend_id * 0x100_0000_0000_0000) as u64;
            &&& dpf_seed(trial_index, bins_per_table, size) == 0x4250_4952_4450_4600u64 ^ trial
                ^ bins ^ sized
            &&& merkle_seed(trial_index, group, bins_per_table, level)
                == 0x4250_4952_4d45_5200u64 ^ trial ^ of_group ^ bins ^ of_level
            &&& query_seed(trial_index, group, bins_per_table, size, backend_id)
                == 0x4250_4952_484f_4e00u64 ^ trial ^ of_group ^ bins ^ sized ^ of_backend
        }),
{
    let s = size as u64;
    assert(s << 32 == ((s * 0x1_0000_0000) % 0x1_0000_0000_0000_0000) as u64) by (bit_vector);
    let id = backend_id as u64;
    assert(id < 0x100 ==> id << 56 == (id * 0x100_0000_0000_0000) as u64) by (bit_vector);
    assert(0u64 << 56 == 0 && 1u64 << 56 == 0x100_0000_0000_0000) by (bit_vector);
}

/// What a group queries is the first number that its seed draws, modulo the number of bins.
pub proof fn law_queries_are_drawn(
    trial_index: usize,
    group: usize,
    bins_per_table: usize,
    size: usize,
    level: Level,
    backend_id: u8,
)
    requires
        bins_per_table > 0,
    ensures
        target_of(trial_index, group, bins_per_table, level) == splitmix_mix(
            ((merkle_seed(trial_index, group, bins_per_table, level) + 0x9e37_79b9_7f4a_7c15)
                % 0x1_0000_0000_0000_0000) as u64,
        ) % (bins_per_table as u64),
        query_of(trial_index, group, bins_per_table, size, backend_id) == splitmix_mix(
            ((query_seed(trial_index, group, bins_per_table, size, backend_id)
                + 0x9e37_79b9_7f4a_7c15) % 0x1_0000_0000_0000_0000) as u64,
        ) % (bins_per_table as u64),
{
    law_draws(merkle_seed(trial_index, group, bins_per_table, level), 0);
    law_draws(query_seed(trial_index, group, bins_per_table, size, backend_id), 0);
}

/// Different trials of one table have different seeds.
pub proof fn law_trials_have_different_seeds(
    a: usize,
    b: usize,
    group: usize,
    bins_per_table: usize,
    size: usize,
    level: Level,
    backend_id: u8,
)
    requires
        a != b,
    ensures
        dpf_seed(a, bins_per_table, size) != dpf_seed(b, bins_per_table, size),
        merkle_seed(a, group, bins_per_table, level) != merkle_seed(
            b,
            group,
            bins_per_table,
            level,
        ),
        query_seed(a, group, bins_per_table, size, backend_id) != query_seed(
            b,
            group,
            bins_per_table,
            size,
            backend_id,
        ),
{
    lemma_odd_multiple_tells(a as u64, b as u64, 0x1000_0000_01b3, 0xb46dd957aff6957b);
    let x = (a as u64).wrapping_mul(0x1000_0000_01b3);
    let y = (b as u64).wrapping_mul(0x1000_0000_01b3);
    let g = (group as u64).wrapping_mul(0x9e37);
    let n = bins_per_table as u64;
    let s = (size as u64) << 32;
    let l = level.number() << 56;
    let i = (backend_id as u64) << 56;
    let c: u64 = 0x4250_4952_4450_4600;
    assert(x != y ==> c ^ x ^ n ^ s != c ^ y ^ n ^ s) by (bit_vector);
    let c: u64 = 0x4250_4952_4d45_5200;
    assert(x != y ==> c ^ x ^ g ^ n ^ l != c ^ y ^ g ^ n ^ l) by (bit_vector);
    let c: u64 = 0x4250_4952_484f_4e00;
    assert(x != y ==> c ^ x ^ g ^ n ^ s ^ i != c ^ y ^ g ^ n ^ s ^ i) by (bit_vector);
}

} // verus!
