//! What this crate takes on trust: the calls into `itertools`, `smallvec` and
//! `rand`, each behind a small function whose contract restates the
//! documentation of the function it calls. Nothing here is proved; everything
//! else in the crate is.

use crate::cluster::Cluster;
use crate::note::Note;
use itertools::Itertools;
use rand::rngs::StdRng;
use rand::{Rng, SeedableRng};
use smallvec::SmallVec;
use std::collections::HashMap;
use vstd::prelude::*;

verus! {

/// A sequence with every run of equal neighbours cut down to one element.
pub open spec fn without_repeats(values: Seq<u8>) -> Seq<u8>
    decreases values.len(),
{
    if values.len() == 0 {
        values
    } else {
        let front = without_repeats(values.drop_last());
        if values.len() >= 2 && values[values.len() - 2] == values.last() {
            front
        } else {
            front.push(values.last())
        }
    }
}

/// `Itertools::sorted`: the same elements, each as often as before, in
/// ascending order.
#[verifier::external_body]
pub(crate) fn sorted_ascending(values: Vec<u8>) -> (sorted: Vec<u8>)
    ensures
        sorted@.to_multiset() == values@.to_multiset(),
        forall|i: int, j: int| 0 <= i < j < sorted@.len() ==> sorted@[i] <= sorted@[j],
{
    values.into_iter().sorted().collect()
}

/// `Itertools::dedup`: of each run of equal neighbours one element stays, and
/// the order of what stays is kept.
#[verifier::external_body]
pub(crate) fn dedup_adjacent(values: Vec<u8>) -> (kept: Vec<u8>)
    ensures
        kept@ == without_repeats(values@),
{
    values.into_iter().dedup().collect()
}

/// `parts` with `separator` between each two neighbours, as one text.
pub open spec fn joined_text(parts: Seq<Seq<char>>, separator: Seq<char>) -> Seq<char>
    decreases parts.len(),
{
    if parts.len() == 0 {
        Seq::empty()
    } else if parts.len() == 1 {
        parts[0]
    } else {
        joined_text(parts.drop_last(), separator) + separator + parts.last()
    }
}

/// `Itertools::counts`: a map that holds each value that occurs, with the
/// number of times it occurs.
#[verifier::external_body]
pub(crate) fn count_each(values: Vec<u8>) -> (counts: HashMap<u8, usize>)
    ensures
        forall|v: u8| #[trigger] counts@.contains_key(v) <==> values@.contains(v),
        forall|v: u8|
            counts@.contains_key(v) ==> #[trigger] counts@[v] == values@.to_multiset().count(v),
{
    values.into_iter().counts()
}

/// `Itertools::join` on texts: the parts in order, with the separator between
/// each two neighbours.
#[verifier::external_body]
pub(crate) fn join_texts(parts: &Vec<&'static str>, separator: &str) -> (joined: String)
    ensures
        joined@ == joined_text(parts@.map_values(|part: &'static str| part@), separator@),
{
    parts.iter().join(separator)
}

/// The notes that a cluster holds, in the order of its small vector.
pub uninterp spec fn held_notes(cluster: Cluster) -> Seq<Note>;

/// `SmallVec::from_vec`: a small vector of the same elements in the same
/// order.
#[verifier::external_body]
pub(crate) fn cluster_from_vec(notes: Vec<Note>) -> (cluster: Cluster)
    ensures
        held_notes(cluster) == notes@,
{
    Cluster { notes: SmallVec::from_vec(notes) }
}

/// `SmallVec::as_slice`: the elements as a slice.
#[verifier::external_body]
pub(crate) fn cluster_as_slice(cluster: &Cluster) -> (slice: &[Note])
    ensures
        slice@ == held_notes(*cluster),
{
    cluster.notes.as_slice()
}

/// `rand::rngs::StdRng`, the standard generator of pseudo-random numbers.
#[verifier::external_type_specification]
#[verifier::external_body]
pub struct ExStdRng(StdRng);

/// `SeedableRng::seed_from_u64` for `StdRng`: a generator made from a seed.
/// Which numbers it will give is not stated.
#[verifier::external_body]
pub(crate) fn seeded_generator(seed: u64) -> (generator: StdRng) {
    StdRng::seed_from_u64(seed)
}

/// `Rng::gen_range` on `0..bound` for `usize`: a number below `bound`.
#[verifier::external_body]
pub(crate) fn draw_index(generator: &mut StdRng, bound: usize) -> (drawn: usize)
    requires
        bound > 0,
    ensures
        drawn < bound,
{
    generator.gen_range(0..bound)
}

/// `Rng::gen_range` on `0..bound` for `i32`: a number from 0 up to, not
/// including, `bound`.
#[verifier::external_body]
pub(crate) fn draw_number(generator: &mut StdRng, bound: i32) -> (drawn: i32)
    requires
        bound > 0,
    ensures
        0 <= drawn < bound,
{
    generator.gen_range(0..bound)
}

} // verus!
