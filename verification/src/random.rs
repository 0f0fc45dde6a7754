//! The deterministic generator that picks what a trial queries.
use crate::kinds::{Backend, BackendIds, Level};
use vstd::prelude::*;

verus! {

/// The state that follows `state`.
pub open spec fn splitmix_next(state: u64) -> u64 {
    state.wrapping_add(0x9e3779b97f4a7c15)
}

/// The number that belongs to `state`.
pub open spec fn splitmix_mix(state: u64) -> u64 {
    let a = (state ^ (state >> 30)).wrapping_mul(0xbf58476d1ce4e5b9);
    let b = (a ^ (a >> 27)).wrapping_mul(0x94d049bb133111eb);
    b ^ (b >> 31)
}

/// The state after `n` numbers have been drawn from the generator seeded with `seed`.
pub open spec fn splitmix_state(seed: u64, n: nat) -> u64
    decreases n,
{
    if n == 0 {
        seed
    } else {
        splitmix_next(splitmix_state(seed, (n - 1) as nat))
    }
}

/// The number with index `n` of those that the generator seeded with `seed` yields.
pub open spec fn splitmix_draw(seed: u64, n: nat) -> u64 {
    splitmix_mix(splitmix_state(seed, n + 1))
}

/// Draws one number.
pub fn splitmix64(state: &mut u64) -> (r: u64)
    ensures
        *final(state) == splitmix_next(*old(state)),
        r == splitmix_mix(*final(state)),
{
    *state = state.wrapping_add(0x9e3779b97f4a7c15);
    let mut z: u64 = *state;
    z = (z ^ (z >> 30)).wrapping_mul(0xbf58476d1ce4e5b9);
    z = (z ^ (z >> 27)).wrapping_mul(0x94d049bb133111eb);
    z ^ (z >> 31)
}

/// The seed of the queries of one trial of the two-server round.
pub open spec fn dpf_seed(trial_index: usize, bins_per_table: usize, result_size: usize) -> u64 {
    0x4250_4952_4450_4600u64 ^ (trial_index as u64).wrapping_mul(0x1000_0000_01b3) ^ (
    bins_per_table as u64) ^ ((result_size as u64) << 32)
}

/// The seed of the queries of one trial of the two-server round.
pub fn trial_seed(trial_index: usize, bins_per_table: usize, result_size: usize) -> (r: u64)
    ensures
        r == dpf_seed(trial_index, bins_per_table, result_size),
{
    0x4250_4952_4450_4600u64 ^ (trial_index as u64).wrapping_mul(0x1000_0000_01b3) ^ (
    bins_per_table as u64) ^ ((result_size as u64) << 32)
}

/// The seed of the bin that one group queries in one trial of the Merkle round.
pub open spec fn merkle_seed(
    trial_index: usize,
    group: usize,
    bins_per_table: usize,
    level: Level,
) -> u64 {
    0x4250_4952_4d45_5200u64 ^ (trial_index as u64).wrapping_mul(0x1000_0000_01b3) ^ (
    group as u64).wrapping_mul(0x9e37) ^ (bins_per_table as u64) ^ (level.number() << 56)
}

/// The bin that one group queries in one trial of the Merkle round.
pub open spec fn target_of(
    trial_index: usize,
    group: usize,
    bins_per_table: usize,
    level: Level,
) -> nat {
    (splitmix_draw(merkle_seed(trial_index, group, bins_per_table, level), 0)
        % bins_per_table as u64) as nat
}

/// The bin that one group queries in one trial of the Merkle round.
pub fn target_bin(trial_index: usize, group: usize, bins_per_table: usize, level: Level) -> (r:
    usize)
    requires
        bins_per_table > 0,
    ensures
        r == target_of(trial_index, group, bins_per_table, level),
        r < bins_per_table,
{
    let number: u64 = match level {
        Level::Index => 0,
        Level::Chunk => 1,
    };
    let mut state: u64 = 0x4250_4952_4d45_5200u64 ^ (trial_index as u64).wrapping_mul(
        0x1000_0000_01b3,
    ) ^ (group as u64).wrapping_mul(0x9e37) ^ (bins_per_table as u64) ^ (number << 56);
    proof {
        reveal_with_fuel(splitmix_state, 2);
    }
    (splitmix64(&mut state) % bins_per_table as u64) as usize
}

/// The seed of the entry that one group queries in one trial of the hint protocol.
pub open spec fn query_seed(
    trial_index: usize,
    group: usize,
    bins_per_table: usize,
    entry_size: usize,
    backend_id: u8,
) -> u64 {
    0x4250_4952_484f_4e00u64 ^ (trial_index as u64).wrapping_mul(0x1000_0000_01b3) ^ (
    group as u64).wrapping_mul(0x9e37) ^ (bins_per_table as u64) ^ ((entry_size as u64) << 32) ^ ((
    backend_id as u64) << 56)
}

/// The entry that one group queries in one trial of the hint protocol.
pub open spec fn query_of(
    trial_index: usize,
    group: usize,
    bins_per_table: usize,
    entry_size: usize,
    backend_id: u8,
) -> nat {
    (splitmix_draw(query_seed(trial_index, group, bins_per_table, entry_size, backend_id), 0)
        % bins_per_table as u64) as nat
}

/// The entry that one group queries in one trial of the hint protocol.
pub fn query_for_trial(
    trial_index: usize,
    group: usize,
    bins_per_table: usize,
    entry_size: usize,
    backend: Backend,
    ids: &BackendIds,
) -> (r: usize)
    requires
        bins_per_table > 0,
    ensures
        r == query_of(trial_index, group, bins_per_table, entry_size, backend.spec_id(*ids)),
        r < bins_per_table,
{
    let id: u8 = backend.id(ids);
    let mut state: u64 = 0x4250_4952_484f_4e00u64 ^ (trial_index as u64).wrapping_mul(
        0x1000_0000_01b3,
    ) ^ (group as u64).wrapping_mul(0x9e37) ^ (bins_per_table as u64) ^ ((entry_size as u64) << 32)
        ^ ((id as u64) << 56);
    proof {
        reveal_with_fuel(splitmix_state, 2);
    }
    (splitmix64(&mut state) % bins_per_table as u64) as usize
}

} // verus!
