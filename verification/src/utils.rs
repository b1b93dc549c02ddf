//! Choosing one text out of a pool.

use vstd::prelude::*;

verus! {

/// `rand::random::<usize>()` draws a number from the thread's generator.
/// Nothing is claimed of the number that comes back.
#[verifier::external_body]
pub(crate) fn random_draw() -> usize {
    rand::random::<usize>()
}

/// The member of the pool that a draw selects: the draw counts round the
/// pool. An empty pool has no member to select.
pub open spec fn selected(pool: Seq<Seq<char>>, draw: int) -> Option<Seq<char>> {
    if pool.len() == 0 {
        None
    } else {
        Some(pool[draw % pool.len() as int])
    }
}

/// The member of the pool that `draw` selects.
pub fn element_at(pool: &Vec<String>, draw: usize) -> (chosen: Option<String>)
    ensures
        chosen.deep_view() == selected(pool.deep_view(), draw as int),
{
    if pool.len() == 0 {
        return None;
    }
    let index = draw % pool.len();
    Some(pool[index].clone())
}

/// A member of the pool chosen at random, or nothing for an empty pool.
pub fn random_element(vec: Vec<String>) -> (chosen: Option<String>)
    ensures
        chosen is None <==> vec.len() == 0,
        chosen matches Some(text) ==> vec.deep_view().contains(text@),
{
    let draw = random_draw();
    let chosen = element_at(&vec, draw);
    proof {
        if vec.len() > 0 {
            let index = draw as int % vec.len() as int;
            assert(vec.deep_view()[index] == chosen->0@);
        }
    }
    chosen
}

} // verus!
