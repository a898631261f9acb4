//! The line of devices on which the gradient runs: 1 -- 2 -- 3 -- 4 -- 5.
//!
//! Every device counts itself among its neighbours, at range 0.

use vstd::prelude::*;

verus! {

/// The identifier of the first device of the line.
pub const FIRST_DEVICE: i32 = 1;

/// The identifier of the last device of the line.
pub const LAST_DEVICE: i32 = 5;

/// Whether a device `n` stands on the line.
pub open spec fn on_line(n: int) -> bool {
    FIRST_DEVICE <= n <= LAST_DEVICE
}

/// The device `n` alone if it stands on the line, else no device.
pub open spec fn if_on_line(n: int) -> Seq<i32> {
    if on_line(n) {
        seq![n as i32]
    } else {
        Seq::empty()
    }
}

/// The neighbours of `id`: of the device before it, `id` itself and the
/// device behind it, those that stand on the line, in this order.
pub open spec fn neighbors_on_line(id: int) -> Seq<i32> {
    if_on_line(id - 1) + if_on_line(id) + if_on_line(id + 1)
}

/// The neighbours of device `id` on the line.
pub fn line_neighbors(id: i32) -> (nbrs: Vec<i32>)
    ensures
        nbrs@ == neighbors_on_line(id as int),
{
    let mut nbrs: Vec<i32> = Vec::new();
    if FIRST_DEVICE < id && id <= LAST_DEVICE + 1 {
        nbrs.push(id - 1);
    }
    if FIRST_DEVICE <= id && id <= LAST_DEVICE {
        nbrs.push(id);
    }
    if FIRST_DEVICE - 1 <= id && id < LAST_DEVICE {
        nbrs.push(id + 1);
    }
    assert(nbrs@ =~= neighbors_on_line(id as int));
    nbrs
}

/// The number of hops between two devices of the line.
pub open spec fn hops(id: int, nbr: int) -> int {
    if id <= nbr {
        nbr - id
    } else {
        id - nbr
    }
}

/// The range at which device `id` senses its neighbour `nbr`.
pub fn nbr_range(id: i32, nbr: i32) -> (range: i32)
    requires
        hops(id as int, nbr as int) <= i32::MAX,
    ensures
        range == hops(id as int, nbr as int),
{
    if id <= nbr {
        nbr - id
    } else {
        id - nbr
    }
}

/// The neighbours of device `id` on the line, each with the range at which
/// the device senses it.
pub fn line_ranges(id: i32) -> (ranges: Vec<(i32, i32)>)
    ensures
        ranges@.len() == neighbors_on_line(id as int).len(),
        forall|i: int|
            0 <= i < ranges@.len() ==> (#[trigger] ranges@[i]) == (
                neighbors_on_line(id as int)[i],
                hops(id as int, neighbors_on_line(id as int)[i] as int) as i32,
            ),
{
    let nbrs = line_neighbors(id);
    let mut ranges: Vec<(i32, i32)> = Vec::new();
    let mut i: usize = 0;
    while i < nbrs.len()
        invariant
            i <= nbrs.len(),
            nbrs@ == neighbors_on_line(id as int),
            ranges@.len() == i,
            forall|j: int|
                0 <= j < i ==> (#[trigger] ranges@[j]) == (
                    nbrs@[j],
                    hops(id as int, nbrs@[j] as int) as i32,
                ),
        decreases nbrs.len() - i,
    {
        let nbr = nbrs[i];
        proof {
            law_neighbors_are_near(id, i as int);
        }
        ranges.push((nbr, nbr_range(id, nbr)));
        i = i + 1;
    }
    ranges
}

/// On the line a device senses each of its neighbours at range 0 or 1.
pub proof fn law_neighbors_are_near(id: i32, i: int)
    requires
        0 <= i < neighbors_on_line(id as int).len(),
    ensures
        on_line(neighbors_on_line(id as int)[i] as int),
        0 <= hops(id as int, neighbors_on_line(id as int)[i] as int) <= 1,
{
}

} // verus!
