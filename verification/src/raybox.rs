//! Rays against boxes.

use crate::binary64::{is_max, is_min, Binary64};
use vstd::prelude::*;

verus! {

/// The bits of 1e30, a distance beyond every hit.
pub const FAR_BITS: u64 = 0x4629_3e59_39a0_8cea;

/// Where a ray meets the two planes of a box across each axis, in units of its
/// direction.
#[derive(Clone, Copy, Debug, PartialEq, Eq, Structural)]
pub struct Slabs {
    pub x0: Binary64,
    pub x1: Binary64,
    pub y0: Binary64,
    pub y1: Binary64,
    pub z0: Binary64,
    pub z1: Binary64,
}

/// None of the six is a NaN.
pub open spec fn slabs_are_numbers(s: Slabs) -> bool {
    &&& !s.x0.nan() && !s.x1.nan()
    &&& !s.y0.nan() && !s.y1.nan()
    &&& !s.z0.nan() && !s.z1.nan()
}

/// The ray is between the two planes of one axis at `t`.
pub open spec fn within(a: Binary64, b: Binary64, t: Binary64) -> bool {
    (a.at_most(t) && t.at_most(b)) || (b.at_most(t) && t.at_most(a))
}

/// The ray is in the box at `t`.
pub open spec fn inside_at(s: Slabs, t: Binary64) -> bool {
    within(s.x0, s.x1, t) && within(s.y0, s.y1, t) && within(s.z0, s.z1, t)
}

/// `low` is the last of the three places where a ray comes between two planes. A
/// NaN gives way to a number.
pub open spec fn is_entry(s: Slabs, low: Binary64) -> bool {
    exists|x: Binary64, y: Binary64, z: Binary64, xy: Binary64|
        {
            &&& #[trigger] is_min(s.x0, s.x1, x)
            &&& #[trigger] is_min(s.y0, s.y1, y)
            &&& #[trigger] is_min(s.z0, s.z1, z)
            &&& is_max(x, y, xy)
            &&& #[trigger] is_max(xy, z, low)
        }
}

/// `high` is the first of the three places where a ray leaves between two planes.
pub open spec fn is_exit(s: Slabs, high: Binary64) -> bool {
    exists|x: Binary64, y: Binary64, z: Binary64, xy: Binary64|
        {
            &&& #[trigger] is_max(s.x0, s.x1, x)
            &&& #[trigger] is_max(s.y0, s.y1, y)
            &&& #[trigger] is_max(s.z0, s.z1, z)
            &&& is_min(x, y, xy)
            &&& #[trigger] is_min(xy, z, high)
        }
}

/// Where a ray enters a box and where it leaves it, were it a line.
pub fn interval(s: &Slabs) -> (r: (Binary64, Binary64))
    ensures
        is_entry(*s, r.0),
        is_exit(*s, r.1),
{
    let ax = s.x0.min(s.x1);
    let ay = s.y0.min(s.y1);
    let az = s.z0.min(s.z1);
    let axy = ax.max(ay);
    let low = axy.max(az);
    let bx = s.x0.max(s.x1);
    let by = s.y0.max(s.y1);
    let bz = s.z0.max(s.z1);
    let bxy = bx.min(by);
    let high = bxy.min(bz);
    proof {
        assert(is_entry(*s, low)) by {
            assert(is_min(s.x0, s.x1, ax) && is_min(s.y0, s.y1, ay) && is_min(s.z0, s.z1, az));
            assert(is_max(ax, ay, axy) && is_max(axy, az, low));
        }
        assert(is_exit(*s, high)) by {
            assert(is_max(s.x0, s.x1, bx) && is_max(s.y0, s.y1, by) && is_max(s.z0, s.z1, bz));
            assert(is_min(bx, by, bxy) && is_min(bxy, bz, high));
        }
    }
    (low, high)
}

/// A line is in a box exactly from where it enters to where it leaves.
pub proof fn law_interval_is_the_inside(s: Slabs, low: Binary64, high: Binary64, t: Binary64)
    requires
        slabs_are_numbers(s),
        is_entry(s, low),
        is_exit(s, high),
    ensures
        !low.nan() && !high.nan(),
        inside_at(s, t) <==> low.at_most(t) && t.at_most(high),
{
}

/// `t` is where the ray hits the box: where it enters, or where it leaves from
/// within.
pub open spec fn is_hit(low: Binary64, high: Binary64, t: Binary64) -> bool {
    &&& !high.less(Binary64 { bits: 0 })
    &&& !high.less(low)
    &&& t == if (Binary64 { bits: 0 }).less(low) {
        low
    } else {
        high
    }
}

/// The ray misses the box: the box lies behind it, or it never enters it.
pub open spec fn is_miss(low: Binary64, high: Binary64) -> bool {
    high.less(Binary64 { bits: 0 }) || high.less(low)
}

/// Where a ray hits a box, given where it enters and leaves it.
pub fn hit_of(low: Binary64, high: Binary64) -> (r: Option<Binary64>)
    ensures
        r is None <==> is_miss(low, high),
        r matches Some(t) ==> is_hit(low, high, t),
{
    if high.lt(Binary64::zero()) || high.lt(low) {
        return None;
    }
    if Binary64::zero().lt(low) {
        Some(low)
    } else {
        Some(high)
    }
}

/// Where a ray meets a box is in the box and not behind the ray.
pub proof fn law_hit_lies_in_box(s: Slabs, low: Binary64, high: Binary64, t: Binary64)
    requires
        slabs_are_numbers(s),
        is_entry(s, low),
        is_exit(s, high),
        is_hit(low, high, t),
    ensures
        inside_at(s, t),
        (Binary64 { bits: 0 }).at_most(t),
{
    law_interval_is_the_inside(s, low, high, t);
}

/// A ray that misses a box is nowhere in it, in front of its origin.
pub proof fn law_miss_means_outside(s: Slabs, low: Binary64, high: Binary64, t: Binary64)
    requires
        slabs_are_numbers(s),
        is_entry(s, low),
        is_exit(s, high),
        is_miss(low, high),
        (Binary64 { bits: 0 }).at_most(t),
    ensures
        !inside_at(s, t),
{
    law_interval_is_the_inside(s, low, high, t);
}

/// `t` is nearer than the far limit.
pub open spec fn in_reach(t: Option<Binary64>) -> bool {
    t is Some && t->0.less(Binary64 { bits: FAR_BITS })
}

/// `i` is the box that a ray meets first: of the hits in reach none is nearer, and
/// none before it is as near.
pub open spec fn is_nearest(hits: Seq<Option<Binary64>>, i: int) -> bool {
    &&& 0 <= i < hits.len()
    &&& in_reach(hits[i])
    &&& forall|k: int| 0 <= k < hits.len() && in_reach(#[trigger] hits[k]) ==> hits[i]->0.at_most(hits[k]->0)
    &&& forall|k: int| 0 <= k < i && in_reach(#[trigger] hits[k]) ==> hits[i]->0.less(hits[k]->0)
}

/// No box is in reach.
pub open spec fn none_in_reach(hits: Seq<Option<Binary64>>) -> bool {
    forall|k: int| 0 <= k < hits.len() ==> !in_reach(#[trigger] hits[k])
}

/// The number of the box that a ray meets first, or -1.
pub fn nearest_box(hits: &Vec<Option<Binary64>>) -> (r: i32)
    requires
        hits@.len() <= i32::MAX,
    ensures
        r == -1 <==> forall|k: int| 0 <= k < hits@.len() ==> !in_reach(#[trigger] hits@[k]),
        r != -1 ==> is_nearest(hits@, r as int),
        r == -1 <==> none_in_reach(hits@),
{
    let mut best = Binary64::from_bits(FAR_BITS);
    let mut id: i32 = -1;
    let mut i: usize = 0;
    proof {
        assert(!(Binary64 { bits: FAR_BITS }).nan());
    }
    while i < hits.len()
        invariant
            hits@.len() <= i32::MAX,
            i <= hits@.len(),
            !best.nan(),
            -1 <= id < i,
            id == -1 ==> best.bits == FAR_BITS && forall|k: int| 0 <= k < i ==> !in_reach(#[trigger] hits@[k]),
            id != -1 ==> {
                &&& in_reach(hits@[id as int])
                &&& hits@[id as int] == Some(best)
                &&& forall|k: int| 0 <= k < i && in_reach(#[trigger] hits@[k]) ==> best.at_most(hits@[k]->0)
                &&& forall|k: int| 0 <= k < id && in_reach(#[trigger] hits@[k]) ==> best.less(hits@[k]->0)
            },
        decreases hits@.len() - i,
    {
        if let Some(t) = hits[i] {
            if t.lt(best) {
                best = t;
                id = i as i32;
            }
        }
        i += 1;
    }
    id
}

/// How many rays hit something.
pub fn count_hits(ids: &Vec<i32>) -> (r: usize)
    ensures
        r == ids@.filter(|h: i32| h >= 0).len(),
{
    let ghost p = |h: i32| h >= 0;
    let mut n: usize = 0;
    let mut i: usize = 0;
    proof {
        reveal(Seq::filter);
    }
    while i < ids.len()
        invariant
            p == (|h: i32| h >= 0),
            i <= ids@.len(),
            n <= i,
            n == ids@.take(i as int).filter(p).len(),
        decreases ids@.len() - i,
    {
        proof {
            crate::pipeline::lemma_filter_step(ids@, p, i as int);
        }
        if ids[i] >= 0 {
            n += 1;
        }
        i += 1;
    }
    assert(ids@.take(i as int) =~= ids@);
    n
}

/// Blocks of a launch that covers `n` items.
pub open spec fn blocks_for(n: int, block: int) -> int {
    (n + block - 1) / block
}

/// Blocks of a launch that covers `n` items.
pub fn launch_blocks(n: u32, block: u32) -> (r: u32)
    requires
        block > 0,
        n + block - 1 <= u32::MAX,
    ensures
        r == blocks_for(n as int, block as int),
{
    (n + (block - 1)) / block
}

/// A launch covers every item, and no block of it is idle.
pub proof fn law_launch_covers_all(n: int, block: int)
    requires
        n >= 0,
        block > 0,
    ensures
        n <= blocks_for(n, block) * block < n + block,
{
    let q = blocks_for(n, block);
    vstd::arithmetic::div_mod::lemma_fundamental_div_mod(n + block - 1, block);
    vstd::arithmetic::mul::lemma_mul_is_commutative(block, q);
}

/// The interval of a ray in a box is where the ray is inside it, and the point that
/// is hit is the first inside that lies ahead, or where the ray leaves the box that
/// it starts in; a ray without such a point never is inside ahead.
#[verifier::spinoff_prover]
#[verifier::rlimit(60)]
pub proof fn law_ray_hits_the_box_it_enters(
    s: &Slabs,
    i: (Binary64, Binary64),
    hit: Option<Binary64>,
    t: Binary64,
)
    requires
        call_ensures(interval, (s,), i),
        call_ensures(hit_of, (i.0, i.1), hit),
        slabs_are_numbers(*s),
    ensures
        hit matches Some(h) ==> inside_at(*s, h) && !h.nan() && h.scaled() >= 0,
        hit matches Some(h) ==> if i.0.scaled() > 0 {
            h == i.0
        } else {
            h == i.1
        },
        hit matches Some(h) ==> (inside_at(*s, t) && t.scaled() > 0 && t.scaled() < h.scaled() ==> inside_at(
            *s,
            (Binary64 { bits: 0 }),
        )),
        hit is None && !t.nan() && t.scaled() >= 0 ==> !inside_at(*s, t),
        !(Binary64 { bits: 0 }).nan(),
{
    match hit {
        Some(h) => {
            assert(inside_at(*s, h) && (Binary64 { bits: 0 }).at_most(h)) by {
                law_hit_lies_in_box(*s, i.0, i.1, h);
            }
            assert(inside_at(*s, t) ==> i.0.at_most(t)) by {
                law_interval_is_the_inside(*s, i.0, i.1, t);
            }
            assert(i.0.at_most(Binary64 { bits: 0 }) && (Binary64 { bits: 0 }).at_most(i.1) ==> inside_at(
                *s,
                (Binary64 { bits: 0 }),
            )) by {
                law_interval_is_the_inside(*s, i.0, i.1, Binary64 { bits: 0 });
            }
            assert(!i.0.nan() && !i.1.nan()) by {
                law_interval_is_the_inside(*s, i.0, i.1, t);
            }
        },
        None => {
            if !t.nan() && t.scaled() >= 0 {
                law_miss_means_outside(*s, i.0, i.1, t);
            }
        },
    }
}

/// Where some box is hit, the one that is told is the nearest of those that are.
pub proof fn law_nearest_box_is_the_nearest(hits: &Vec<Option<Binary64>>, r: i32, k: int)
    requires
        call_ensures(nearest_box, (hits,), r),
        0 <= k < hits@.len(),
        hits@[k] is Some,
        hits@[k]->0.less(Binary64 { bits: FAR_BITS }),
    ensures
        r != -1,
        r != -1 ==> 0 <= r < hits@.len() && hits@[r as int] is Some && hits@[r as int]->0.scaled()
            <= hits@[k]->0.scaled(),
        r != -1 && k < r ==> hits@[r as int]->0.scaled() < hits@[k]->0.scaled(),
{
    assert(in_reach(hits@[k]));
}

/// The hits that are counted are the rays with a box, and enough blocks are launched
/// for all rays with fewer than one block to spare.
pub proof fn law_hits_and_blocks(
    ids: &Vec<i32>,
    longer: &Vec<i32>,
    id: i32,
    a: usize,
    b: usize,
    n: u32,
    block: u32,
    blocks: u32,
)
    requires
        call_ensures(count_hits, (ids,), a),
        call_ensures(count_hits, (longer,), b),
        longer@ == ids@.push(id),
        call_ensures(launch_blocks, (n, block), blocks),
        block > 0,
    ensures
        b - a == if id >= 0 {
            1int
        } else {
            0
        },
        n <= blocks * block < n + block,
{
    reveal(Seq::filter);
    assert(longer@.drop_last() =~= ids@);
    law_launch_covers_all(n as int, block as int);
}

} // verus!
