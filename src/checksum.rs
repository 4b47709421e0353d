use vstd::prelude::*;

use crate::input::Input;
use crate::world::{lemma_rollback_replay, simulate, Entity, World, WorldState};

verus! {

/// One round of the rotate-xor hash: rotate the running value left by five
/// bits, then fold in the next word.
pub open spec fn mix(h: u64, v: u64) -> u64 {
    ((h << 5u64) | (h >> 59u64)) ^ v
}

/// The bit pattern of a coordinate, widened to a hash word.
pub open spec fn word(v: i32) -> u64 {
    (v as u32) as u64
}

/// Folds position then velocity of an entity into the running value.
pub open spec fn mix_entity(h: u64, e: Entity) -> u64 {
    mix(mix(mix(mix(h, word(e.x)), word(e.y)), word(e.vx)), word(e.vy))
}

pub open spec fn hash_players(h: u64, s: Seq<Entity>) -> u64
    decreases s.len(),
{
    if s.len() == 0 {
        h
    } else {
        mix_entity(hash_players(h, s.drop_last()), s.last())
    }
}

/// The checksum of a state: the frame counter, then every entity in order.
pub open spec fn checksum_spec(w: WorldState) -> u64 {
    hash_players(w.frame as u64, w.players)
}

/// The two entities are the same but for exactly one of position x,
/// position y, velocity x and velocity y.
pub open spec fn differ_in_one_field(a: Entity, b: Entity) -> bool {
    &&& a.handle == b.handle
    &&& {
        ||| (a.x != b.x && a.y == b.y && a.vx == b.vx && a.vy == b.vy)
        ||| (a.x == b.x && a.y != b.y && a.vx == b.vx && a.vy == b.vy)
        ||| (a.x == b.x && a.y == b.y && a.vx != b.vx && a.vy == b.vy)
        ||| (a.x == b.x && a.y == b.y && a.vx == b.vx && a.vy != b.vy)
    }
}

proof fn lemma_mix_injective(h1: u64, h2: u64, v1: u64, v2: u64)
    ensures
        h1 != h2 ==> mix(h1, v1) != mix(h2, v1),
        v1 != v2 ==> mix(h1, v1) != mix(h1, v2),
{
    assert(h1 != h2 ==> ((h1 << 5u64) | (h1 >> 59u64)) ^ v1 != ((h2 << 5u64) | (h2 >> 59u64))
        ^ v1) by (bit_vector);
    assert(v1 != v2 ==> ((h1 << 5u64) | (h1 >> 59u64)) ^ v1 != ((h1 << 5u64) | (h1 >> 59u64))
        ^ v2) by (bit_vector);
}

proof fn lemma_word_injective(a: i32, b: i32)
    ensures
        a != b ==> word(a) != word(b),
{
    assert(a != b ==> (a as u32) as u64 != (b as u32) as u64) by (bit_vector);
}

proof fn lemma_mix_entity_injective(h1: u64, h2: u64, e: Entity)
    ensures
        h1 != h2 ==> mix_entity(h1, e) != mix_entity(h2, e),
{
    let (wx, wy, wvx, wvy) = (word(e.x), word(e.y), word(e.vx), word(e.vy));
    lemma_mix_injective(h1, h2, wx, wx);
    lemma_mix_injective(mix(h1, wx), mix(h2, wx), wy, wy);
    lemma_mix_injective(mix(mix(h1, wx), wy), mix(mix(h2, wx), wy), wvx, wvx);
    lemma_mix_injective(mix(mix(mix(h1, wx), wy), wvx), mix(mix(mix(h2, wx), wy), wvx), wvy, wvy);
}

proof fn lemma_mix_entity_sensitive(h: u64, a: Entity, b: Entity)
    requires
        differ_in_one_field(a, b),
    ensures
        mix_entity(h, a) != mix_entity(h, b),
{
    lemma_word_injective(a.x, b.x);
    lemma_word_injective(a.y, b.y);
    lemma_word_injective(a.vx, b.vx);
    lemma_word_injective(a.vy, b.vy);
    let h1a = mix(h, word(a.x));
    let h1b = mix(h, word(b.x));
    lemma_mix_injective(h, h, word(a.x), word(b.x));
    let h2a = mix(h1a, word(a.y));
    let h2b = mix(h1b, word(b.y));
    lemma_mix_injective(h1a, h1b, word(a.y), word(a.y));
    lemma_mix_injective(h1a, h1a, word(a.y), word(b.y));
    let h3a = mix(h2a, word(a.vx));
    let h3b = mix(h2b, word(b.vx));
    lemma_mix_injective(h2a, h2b, word(a.vx), word(a.vx));
    lemma_mix_injective(h2a, h2a, word(a.vx), word(b.vx));
    lemma_mix_injective(h3a, h3b, word(a.vy), word(a.vy));
    lemma_mix_injective(h3a, h3a, word(a.vy), word(b.vy));
}

proof fn lemma_hash_players_sensitive(h: u64, s: Seq<Entity>, i: int, e: Entity)
    requires
        0 <= i < s.len(),
        differ_in_one_field(s[i], e),
    ensures
        hash_players(h, s) != hash_players(h, s.update(i, e)),
    decreases s.len(),
{
    let t = s.update(i, e);
    assert(t.drop_last() =~= if i == s.len() - 1 {
        s.drop_last()
    } else {
        s.drop_last().update(i, e)
    });
    if i == s.len() - 1 {
        lemma_mix_entity_sensitive(hash_players(h, s.drop_last()), s.last(), e);
    } else {
        lemma_hash_players_sensitive(h, s.drop_last(), i, e);
        lemma_mix_entity_injective(
            hash_players(h, s.drop_last()),
            hash_players(h, t.drop_last()),
            s.last(),
        );
    }
}

/// Changing one field of one entity (position or velocity, by any amount,
/// a single bit included) changes the checksum.
pub proof fn lemma_checksum_sensitivity(w: WorldState, i: int, e: Entity)
    requires
        0 <= i < w.players.len(),
        differ_in_one_field(w.players[i], e),
    ensures
        checksum_spec(w) != checksum_spec(WorldState { players: w.players.update(i, e), ..w }),
{
    lemma_hash_players_sensitive(w.frame as u64, w.players, i, e);
}

/// Simulating frames `[0, n)` straight through, or up to frame `k`, then
/// rolling back to that snapshot and replaying `[k, n)`, ends in the same
/// state and so with the same checksum.
pub proof fn lemma_replay_checksum(w: WorldState, frames: Seq<Seq<Input>>, k: int)
    requires
        0 <= k <= frames.len(),
    ensures
        checksum_spec(simulate(w, frames)) == checksum_spec(
            simulate(simulate(w, frames.subrange(0, k)), frames.subrange(k, frames.len() as int)),
        ),
{
    lemma_rollback_replay(w, frames, k);
}

fn mix_exec(h: u64, v: u64) -> (r: u64)
    ensures
        r == mix(h, v),
{
    ((h << 5u64) | (h >> 59u64)) ^ v
}

fn word_exec(v: i32) -> (r: u64)
    ensures
        r == word(v),
{
    (v as u32) as u64
}

/// Computes the checksum of a world state.
pub fn checksum(w: &World) -> (r: u64)
    ensures
        r == checksum_spec(w@),
{
    let mut h: u64 = w.frame as u64;
    let mut k: usize = 0;
    while k < w.players.len()
        invariant
            k <= w.players.len(),
            h == hash_players(w.frame as u64, w.players@.subrange(0, k as int)),
        decreases w.players.len() - k,
    {
        let e = w.players[k];
        h = mix_exec(h, word_exec(e.x));
        h = mix_exec(h, word_exec(e.y));
        h = mix_exec(h, word_exec(e.vx));
        h = mix_exec(h, word_exec(e.vy));
        proof {
            let s = w.players@.subrange(0, k + 1);
            assert(s.drop_last() =~= w.players@.subrange(0, k as int));
        }
        k = k + 1;
    }
    proof {
        assert(w.players@.subrange(0, k as int) =~= w.players@);
    }
    h
}

/// Whether a local and a remote checksum for the same frame agree.
pub fn checksums_match(local: u64, remote: u64) -> (r: bool)
    ensures
        r == (local == remote),
{
    local == remote
}

} // verus!
