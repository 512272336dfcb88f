use vstd::prelude::*;

use rand::RngExt;

use crate::fields::Room;
use crate::selection::Selection;

verus! {

/// An axis-aligned box of voxel indices, `min` inclusive, `max` exclusive
/// where a placement range is meant (see `random_rooms`).
pub struct RectPrism {
    pub min: (usize, usize, usize),
    pub max: (usize, usize, usize),
}

// The pseudorandom source is rand_chacha's ChaCha12 generator — a seeded,
// stream-based cipher RNG, chosen for cross-platform reproducibility.  The
// type is declared opaquely; the two calls the library makes are wrapped
// below.  Nothing is assumed of the drawn values beyond their range, so
// everything proved here holds for every stream the generator can produce.

#[verifier::external_type_specification]
#[verifier::external_body]
pub struct ExChaCha12Rng(rand_chacha::ChaCha12Rng);

/// Relies on `rand::SeedableRng::seed_from_u64`: builds a generator from a
/// 64-bit seed.
#[verifier::external_body]
fn rng_from_seed(seed: u64) -> (r: rand_chacha::ChaCha12Rng) {
    <rand_chacha::ChaCha12Rng as rand::SeedableRng>::seed_from_u64(seed)
}

/// Relies on `rand::RngExt::random_range` over `lo..hi`: a draw uniformly
/// distributed in that half-open range (it panics on an empty range, which
/// the precondition rules out).
#[verifier::external_body]
fn rng_range(rng: &mut rand_chacha::ChaCha12Rng, lo: usize, hi: usize) -> (r: usize)
    requires
        lo < hi,
    ensures
        lo <= r < hi,
{
    rng.random_range(lo..hi)
}

/// The dense axis-aligned box of coordinates at `p` of size `s`.
pub open spec fn cuboid(p: (int, int, int), s: (int, int, int)) -> Set<(i64, i64, i64)> {
    Set::new(
        |c: (i64, i64, i64)|
            p.0 <= c.0 < p.0 + s.0 && p.1 <= c.1 < p.1 + s.1 && p.2 <= c.2 < p.2 + s.2,
    )
}

/// The union of all the rooms' member sets.
pub open spec fn rooms_union(rooms: Seq<Room>) -> Set<(i64, i64, i64)>
    decreases rooms.len(),
{
    if rooms.len() == 0 {
        Set::<(i64, i64, i64)>::empty()
    } else {
        rooms_union(rooms.drop_last()) + rooms.last().members@
    }
}

/// Every room's members are contained in the rooms' union.
pub proof fn lemma_rooms_union_contains(rooms: Seq<Room>, i: int)
    requires
        0 <= i < rooms.len(),
    ensures
        rooms[i].members@.subset_of(rooms_union(rooms)),
    decreases rooms.len(),
{
    if i == rooms.len() - 1 {
    } else {
        lemma_rooms_union_contains(rooms.drop_last(), i);
        assert(rooms.drop_last()[i] == rooms[i]);
    }
}

/// One placed room is acceptable when it is a cuboid drawn from the size
/// range, positioned so that it lies inside the placement region, with its
/// center at the integer midpoint.
pub open spec fn room_shaped(r: Room, within: RectPrism, sized: RectPrism) -> bool {
    exists|p: (int, int, int), s: (int, int, int)|
        {
            &&& sized.min.0 <= s.0 <= sized.max.0
            &&& sized.min.1 <= s.1 <= sized.max.1
            &&& sized.min.2 <= s.2 <= sized.max.2
            &&& within.min.0 <= p.0 && p.0 + s.0 < within.max.0
            &&& within.min.1 <= p.1 && p.1 + s.1 < within.max.1
            &&& within.min.2 <= p.2 && p.2 + s.2 < within.max.2
            &&& r.members@ == #[trigger] cuboid(p, s)
            &&& r.center == Some(
                (
                    (p.0 + s.0 / 2) as i64,
                    (p.1 + s.1 / 2) as i64,
                    (p.2 + s.2 / 2) as i64,
                ),
            )
        }
}

/// The dense member set of one room: every voxel of the cuboid at
/// `(px, py, pz)` of size `(sx, sy, sz)`.
fn cuboid_members(px: usize, py: usize, pz: usize, sx: usize, sy: usize, sz: usize) -> (r:
    Selection)
    requires
        px + sx <= 0x4000_0000,
        py + sy <= 0x4000_0000,
        pz + sz <= 0x4000_0000,
    ensures
        r.inv(),
        r@ == cuboid((px as int, py as int, pz as int), (sx as int, sy as int, sz as int)),
{
    let mut out = Selection::new();
    let mut x: usize = 0;
    while x < sx
        invariant
            out.inv(),
            px + sx <= 0x4000_0000,
            py + sy <= 0x4000_0000,
            pz + sz <= 0x4000_0000,
            x <= sx,
            forall|c: (i64, i64, i64)| #[trigger]
                out@.contains(c) <==> (px <= c.0 < px + x && py <= c.1 < py + sy && pz <= c.2 < pz
                    + sz),
        decreases sx - x,
    {
        let mut y: usize = 0;
        while y < sy
            invariant
                out.inv(),
                px + sx <= 0x4000_0000,
                py + sy <= 0x4000_0000,
                pz + sz <= 0x4000_0000,
                x < sx,
                y <= sy,
                forall|c: (i64, i64, i64)| #[trigger]
                    out@.contains(c) <==> ((px <= c.0 < px + x && py <= c.1 < py + sy && pz <= c.2
                        < pz + sz) || (c.0 == px + x && py <= c.1 < py + y && pz <= c.2 < pz + sz)),
            decreases sy - y,
        {
            let mut z: usize = 0;
            while z < sz
                invariant
                    out.inv(),
                    px + sx <= 0x4000_0000,
                    py + sy <= 0x4000_0000,
                    pz + sz <= 0x4000_0000,
                    x < sx,
                    y < sy,
                    z <= sz,
                    forall|c: (i64, i64, i64)| #[trigger]
                        out@.contains(c) <==> ((px <= c.0 < px + x && py <= c.1 < py + sy && pz
                            <= c.2 < pz + sz) || (c.0 == px + x && py <= c.1 < py + y && pz <= c.2
                            < pz + sz) || (c.0 == px + x && c.1 == py + y && pz <= c.2 < pz + z)),
                decreases sz - z,
            {
                out.insert(((px + x) as i64, (py + y) as i64, (pz + z) as i64));
                z += 1;
            }
            y += 1;
        }
        x += 1;
    }
    proof {
        assert(out@ =~= cuboid(
            (px as int, py as int, pz as int),
            (sx as int, sy as int, sz as int),
        ));
    }
    out
}

/// The stateless holder of the generation algorithms.
pub struct AlgorithmHelper {}

impl AlgorithmHelper {
    /// Places up to `count` rooms by seeded random draws: per attempt, a
    /// size uniform in `sized`'s per-axis ranges (inclusive), then a
    /// position uniform in `within` such that the room fits.  Without
    /// `allow_overlap` a candidate is kept only when disjoint from all
    /// rooms so far; a safety bound of `2 × count` attempts caps the loop,
    /// so fewer than `count` rooms may come back (not an error).  The
    /// second component is the union of all members.
    pub fn random_rooms(
        count: i64,
        seed: i64,
        within: RectPrism,
        sized: RectPrism,
        allow_overlap: bool,
    ) -> (r: Result<(Vec<Room>, Selection), String>)
        requires
            0 <= count <= 0x4000_0000,
            sized.min.0 <= sized.max.0,
            sized.min.1 <= sized.max.1,
            sized.min.2 <= sized.max.2,
            sized.max.0 < within.max.0 - within.min.0,
            sized.max.1 < within.max.1 - within.min.1,
            sized.max.2 < within.max.2 - within.min.2,
            within.max.0 <= 0x2000_0000,
            within.max.1 <= 0x2000_0000,
            within.max.2 <= 0x2000_0000,
        ensures
            r matches Ok(pair) && {
                let (rooms, uni) = pair;
                &&& rooms@.len() <= count
                &&& allow_overlap ==> rooms@.len() == count
                &&& count >= 1 ==> rooms@.len() >= 1
                &&& uni.inv()
                &&& uni@ == rooms_union(rooms@)
                &&& forall|i: int|
                    0 <= i < rooms@.len() ==> (#[trigger] rooms@[i]).wf() && room_shaped(
                        rooms@[i],
                        within,
                        sized,
                    )
                &&& !allow_overlap ==> forall|i: int, j: int|
                    0 <= i < j < rooms@.len() ==> (#[trigger] rooms@[i]).members@.disjoint(
                        (#[trigger] rooms@[j]).members@,
                    )
            },
    {
        let mut rms: Vec<Room> = Vec::new();
        let mut uni = Selection::new();
        let mut random = rng_from_seed(seed as u64);

        let mut safety: i64 = count * 2;

        while safety > 0 && (rms.len() as i64) < count
            invariant
                0 <= count <= 0x4000_0000,
                sized.min.0 <= sized.max.0,
                sized.min.1 <= sized.max.1,
                sized.min.2 <= sized.max.2,
                sized.max.0 < within.max.0 - within.min.0,
                sized.max.1 < within.max.1 - within.min.1,
                sized.max.2 < within.max.2 - within.min.2,
                within.max.0 <= 0x2000_0000,
                within.max.1 <= 0x2000_0000,
                within.max.2 <= 0x2000_0000,
                uni.inv(),
                uni@ == rooms_union(rms@),
                rms@.len() <= count,
                safety <= 2 * count,
                allow_overlap ==> rms@.len() == 2 * count - safety,
                safety < 2 * count ==> rms@.len() >= 1,
                forall|i: int|
                    0 <= i < rms@.len() ==> (#[trigger] rms@[i]).wf() && room_shaped(
                        rms@[i],
                        within,
                        sized,
                    ),
                !allow_overlap ==> forall|i: int, j: int|
                    0 <= i < j < rms@.len() ==> (#[trigger] rms@[i]).members@.disjoint(
                        (#[trigger] rms@[j]).members@,
                    ),
            decreases safety,
        {
            safety = safety - 1;

            let sx = rng_range(&mut random, sized.min.0, sized.max.0 + 1);
            let sy = rng_range(&mut random, sized.min.1, sized.max.1 + 1);
            let sz = rng_range(&mut random, sized.min.2, sized.max.2 + 1);

            let px = rng_range(&mut random, within.min.0, within.max.0 - sx);
            let py = rng_range(&mut random, within.min.1, within.max.1 - sy);
            let pz = rng_range(&mut random, within.min.2, within.max.2 - sz);

            let center = (
                (px + sx / 2) as i64,
                (py + sy / 2) as i64,
                (pz + sz / 2) as i64,
            );
            let members = cuboid_members(px, py, pz, sx, sy, sz);

            if allow_overlap || uni.is_disjoint(&members) {
                let ghost prev = rms@;
                proof {
                    if prev.len() == 0 {
                    }
                }
                let ghost m = members@;
                let ghost uni_before = uni@;
                uni = uni.union_with(&members);
                let room = Room { members, center: Some(center) };
                proof {
                    assert(room_shaped(room, within, sized)) by {
                        let p = (px as int, py as int, pz as int);
                        let s = (sx as int, sy as int, sz as int);
                        assert(room.members@ == cuboid(p, s));
                    }
                }
                rms.push(room);
                proof {
                    assert(rms@.drop_last() == prev);
                    assert(uni@ =~= rooms_union(rms@));
                    if !allow_overlap {
                        assert forall|i: int, j: int| 0 <= i < j < rms@.len() implies (
                        #[trigger] rms@[i]).members@.disjoint((#[trigger] rms@[j]).members@) by {
                            if j == rms@.len() - 1 {
                                lemma_rooms_union_contains(prev, i);
                                assert(prev[i] == rms@[i]);
                                assert(uni_before.disjoint(m));
                                assert(rms@[i].members@.subset_of(uni_before));
                                assert(rms@[j].members@ == m);
                            } else {
                                assert(prev[i] == rms@[i] && prev[j] == rms@[j]);
                            }
                        }
                    }
                }
            }
        }

        proof {
            if allow_overlap && rms@.len() < count {
                assert(safety <= 0);
                assert(rms@.len() == 2 * count - safety);
                assert(false);
            }
        }
        Ok((rms, uni))
    }
}

} // verus!
