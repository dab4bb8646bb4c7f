//! The hexagonal map: which hexes it holds, and the order its tiles come in.

use vstd::prelude::*;
use crate::components::{Hex, WorldSize};

verus! {

/// Whether `h` is a tile of the hexagonal map of half-width `w`.
pub open spec fn on_map(h: Hex, w: int) -> bool {
    -w <= h.q <= w && -w <= h.r <= w && -w <= h.q + h.r <= w
}

/// The order of the tiles: by `q`, and by `r` where `q` is the same.
pub open spec fn comes_before(a: Hex, b: Hex) -> bool {
    a.q < b.q || (a.q == b.q && a.r < b.r)
}

/// Whether `h` comes before the place `(q, r)`.
pub open spec fn passed(h: Hex, q: int, r: int) -> bool {
    h.q < q || (h.q == q && h.r < r)
}

/// Lists the tiles of the map of the given half-width: every hex of the map
/// once, ordered by `q` and then by `r`.
pub fn generate_map(world_size: WorldSize) -> (map: Vec<Hex>)
    ensures
        forall|k: int| 0 <= k < map@.len() ==> on_map(#[trigger] map@[k], world_size.0 as int),
        forall|h: Hex| on_map(h, world_size.0 as int) ==> map@.contains(h),
        forall|a: int, b: int|
            0 <= a < b < map@.len() ==> comes_before(#[trigger] map@[a], #[trigger] map@[b]),
{
    let w: i64 = world_size.0 as i64;
    let mut map: Vec<Hex> = Vec::new();
    let mut i: i64 = -w;
    while i <= w
        invariant
            w == world_size.0,
            -w <= i <= w + 1,
            forall|k: int| 0 <= k < map@.len() ==> on_map(#[trigger] map@[k], w as int) && map@[k].q < i,
            forall|h: Hex| on_map(h, w as int) && h.q < i ==> map@.contains(h),
            forall|a: int, b: int|
                0 <= a < b < map@.len() ==> comes_before(#[trigger] map@[a], #[trigger] map@[b]),
        decreases w + 1 - i,
    {
        let mut j: i64 = -w;
        while j <= w
            invariant
                w == world_size.0,
                -w <= i <= w,
                -w <= j <= w + 1,
                forall|k: int|
                    0 <= k < map@.len() ==> on_map(#[trigger] map@[k], w as int) && passed(
                        map@[k],
                        i as int,
                        j as int,
                    ),
                forall|h: Hex| on_map(h, w as int) && passed(h, i as int, j as int) ==> map@.contains(h),
                forall|a: int, b: int|
                    0 <= a < b < map@.len() ==> comes_before(#[trigger] map@[a], #[trigger] map@[b]),
            decreases w + 1 - j,
        {
            let sum = i + j;
            if -w <= sum && sum <= w {
                let ghost listed = map@;
                let tile = Hex { q: i, r: j };
                map.push(tile);
                assert forall|h: Hex| on_map(h, w as int) && passed(h, i as int, j + 1) implies map@.contains(
                    h,
                ) by {
                    if passed(h, i as int, j as int) {
                        let k = choose|k: int| 0 <= k < listed.len() && listed[k] == h;
                        assert(map@[k] == h);
                    } else {
                        assert(map@[listed.len() as int] == h);
                    }
                }
            }
            j += 1;
        }
        i += 1;
    }
    map
}

} // verus!
