//! The ports on which the proxy tries to listen for the players of an allocation.
use std::collections::hash_map::DefaultHasher;
use std::hash::Hasher;

use vstd::prelude::*;
use vstd::std_specs::hash::DefaultHasherAdditionalSpecFns;

verus! {

/// How many ports are tried.
pub const BIND_ATTEMPTS: usize = 10;

/// There is a port from `first` to `last`, and their number fits in sixteen bits.
pub open spec fn is_port_range(first: u16, last: u16) -> bool {
    first <= last && last - first < u16::MAX
}

/// The port of the range that a hash selects.
pub open spec fn selected_port(first: u16, last: u16, hash: u64) -> int {
    first + (hash as int % 0x1_0000) % (last - first + 1)
}

/// What a hasher was fed after the numbers of the first attempts, from zero, were added to the seed,
/// each as four bytes with the least significant first.
pub open spec fn seeded(seed: Seq<Seq<u8>>, attempts: nat) -> Seq<Seq<u8>>
    decreases attempts,
{
    if attempts == 0 {
        seed
    } else {
        seeded(seed, (attempts - 1) as nat).push(seq![(attempts - 1) as u8, 0, 0, 0])
    }
}

/// The port that is tried in an attempt.
pub open spec fn candidate(first: u16, last: u16, seed: Seq<Seq<u8>>, attempt: nat) -> int {
    selected_port(first, last, DefaultHasher::spec_finish(seeded(seed, attempt + 1)))
}

/// Tests whether ports can be selected from a range.
pub fn check_port_range(first: u16, last: u16) -> (res: bool)
    ensures
        res == is_port_range(first, last),
{
    first <= last && last - first < u16::MAX
}

/// Selects a port of the range by a hash.
pub fn select_port(first: u16, last: u16, hash: u64) -> (res: u16)
    requires
        is_port_range(first, last),
    ensures
        res as int == selected_port(first, last, hash),
        first <= res <= last,
{
    let ports_len: u16 = last - first + 1;
    let low: u16 = (hash % 0x1_0000) as u16;
    first + low % ports_len
}

/// The ports to try, one after the other. They depend on the seed, so that the same seed leads to
/// the same ports.
pub fn candidate_ports(first: u16, last: u16, seed: DefaultHasher) -> (res: Vec<u16>)
    requires
        is_port_range(first, last),
    ensures
        res@.len() == BIND_ATTEMPTS,
        forall|i: int|
            0 <= i < BIND_ATTEMPTS ==> #[trigger] res@[i] as int == candidate(
                first,
                last,
                seed@,
                i as nat,
            ),
{
    let mut hasher = seed;
    let mut ports: Vec<u16> = Vec::new();
    let mut attempt: u8 = 0;
    while attempt < BIND_ATTEMPTS as u8
        invariant
            is_port_range(first, last),
            attempt <= BIND_ATTEMPTS,
            ports@.len() == attempt,
            hasher@ == seeded(seed@, attempt as nat),
            forall|i: int|
                0 <= i < attempt ==> #[trigger] ports@[i] as int == candidate(
                    first,
                    last,
                    seed@,
                    i as nat,
                ),
        decreases BIND_ATTEMPTS - attempt,
    {
        let bytes: [u8; 4] = [attempt, 0, 0, 0];
        hasher.write(bytes.as_slice());
        proof {
            assert(bytes@ =~= seq![attempt, 0, 0, 0]);
        }
        ports.push(select_port(first, last, hasher.finish()));
        attempt = attempt + 1;
    }
    ports
}

/// Every port that is tried is in the range, whatever the seed.
pub proof fn law_candidates_in_range(first: u16, last: u16, seed: Seq<Seq<u8>>, attempt: nat)
    requires
        is_port_range(first, last),
    ensures
        first <= candidate(first, last, seed, attempt) <= last,
{
}

/// A port of the range is selected for every hash. A hash that is less than the number of ports
/// selects the port so many places behind the first, hashes that differ by the number of ports select
/// the same one, and only the last sixteen bits of a hash count. So every port of the range can be
/// selected.
pub proof fn law_every_port_can_be_selected(
    first: u16,
    last: u16,
    hash: u64,
    selected: u16,
    other: u64,
    selected_for_other: u16,
)
    requires
        first <= last,
        last - first < 0xffff,
        call_ensures(select_port, (first, last, hash), selected),
        call_ensures(select_port, (first, last, other), selected_for_other),
    ensures
        first <= selected <= last,
        hash <= last - first ==> selected == first + hash,
        hash < 0x1_0000 && other == hash + (last - first + 1) && other < 0x1_0000 ==> selected
            == selected_for_other,
        other as int % 0x1_0000 == hash as int % 0x1_0000 ==> selected == selected_for_other,
{
    let count = last - first + 1;
    if hash <= last - first {
        vstd::arithmetic::div_mod::lemma_small_mod(hash as nat, count as nat);
    }
    if hash < 0x1_0000 && other == hash + count && other < 0x1_0000 {
        assert(other as int % count == hash as int % count) by {
            vstd::arithmetic::div_mod::lemma_mod_add_multiples_vanish(hash as int, count);
        }
    }
}

/// Ten ports are tried. Each is the one that is selected by the hash of the seed and of the numbers of
/// the attempts so far, so that the same seed leads to the same ports and another number of attempts
/// to another hash.
pub proof fn law_each_attempt_has_its_hash(
    first: u16,
    last: u16,
    seed: DefaultHasher,
    tried: Vec<u16>,
    attempt: int,
    selected: u16,
)
    requires
        first <= last,
        last - first < 0xffff,
        call_ensures(candidate_ports, (first, last, seed), tried),
        0 <= attempt < 10,
        call_ensures(
            select_port,
            (
                first,
                last,
                DefaultHasher::spec_finish(
                    seed@ + Seq::new(
                        (attempt + 1) as nat,
                        |number: int| seq![number as u8, 0u8, 0u8, 0u8],
                    ),
                ),
            ),
            selected,
        ),
    ensures
        tried@.len() == 10,
        tried@[attempt] == selected,
{
    lemma_seeded(seed@, (attempt + 1) as nat);
}

/// What a hasher was fed after some attempts.
proof fn lemma_seeded(seed: Seq<Seq<u8>>, attempts: nat)
    ensures
        seeded(seed, attempts) == seed + Seq::new(
            attempts,
            |number: int| seq![number as u8, 0u8, 0u8, 0u8],
        ),
    decreases attempts,
{
    if attempts > 0 {
        lemma_seeded(seed, (attempts - 1) as nat);
    }
    assert(seeded(seed, attempts) =~= seed + Seq::new(
        attempts,
        |number: int| seq![number as u8, 0u8, 0u8, 0u8],
    ));
}

/// Ports can be selected from every range that is not empty, unless it is that of all ports.
pub proof fn law_which_ranges_have_ports(first: u16, last: u16, res: bool)
    requires
        call_ensures(check_port_range, (first, last), res),
    ensures
        res == (first <= last && !(first == 0 && last == 0xffff)),
{
}

} // verus!
