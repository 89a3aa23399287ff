//! Deterministic grid layout of regions in shared world space.
//!
//! The layout is a pure function of the set of region ids: ids are
//! sorted ascending and deduplicated, a single region sits at the
//! origin, and `n >= 2` regions fill a `ceil(sqrt(n))`-sided square
//! grid row by row, centered on the origin with a fixed spacing. It is
//! recomputed from scratch whenever the region set changes, so adding a
//! region may move existing ones — the accepted cost of determinism.

use vstd::prelude::*;
use vstd::arithmetic::div_mod::*;
use vstd::arithmetic::mul::*;

verus! {

/// Distance between neighboring grid cells, in world units. Region
/// extent (256 m) stays below it, so footprints never overlap.
pub const REGION_SPACING: i64 = 300;

/// Half the grid spacing; cell centers sit on whole multiples of it.
pub const HALF_SPACING: i64 = 150;

/// A region's assigned position in shared world space.
#[derive(Clone, Copy, Debug, PartialEq, Eq, Structural)]
pub struct WorldPlacement {
    pub region_id: i64,
    pub x: i64,
    pub y: i64,
    pub z: i64,
}

/// Strictly ascending: sorted with no duplicates.
pub open spec fn strictly_sorted(s: Seq<i64>) -> bool {
    forall|i: int, j: int| 0 <= i < j < s.len() ==> s[i] < s[j]
}

/// `g` is the side of the smallest square grid with at least `n` cells:
/// `g == ceil(sqrt(n))` for `n >= 1`.
pub open spec fn is_grid_dim(n: int, g: int) -> bool {
    &&& 1 <= g
    &&& n <= g * g
    &&& (g - 1) * (g - 1) < n
}

/// The grid side is a function of the region count alone.
pub proof fn lemma_grid_dim_unique(n: int, g1: int, g2: int)
    requires
        is_grid_dim(n, g1),
        is_grid_dim(n, g2),
    ensures
        g1 == g2,
{
    if g1 < g2 {
        lemma_mul_inequality(g1, g2 - 1, g1);
        lemma_mul_inequality(g1, g2 - 1, g2 - 1);
        lemma_mul_is_commutative(g2 - 1, g1);
    }
    if g2 < g1 {
        lemma_mul_inequality(g2, g1 - 1, g2);
        lemma_mul_inequality(g2, g1 - 1, g1 - 1);
        lemma_mul_is_commutative(g1 - 1, g2);
    }
}

/// World position of sorted index `i` in an `n`-region layout on a grid
/// of side `g`: a single region sits at the origin; otherwise row
/// `i / g`, column `i % g`, centered by half the grid side.
pub open spec fn spec_grid_pos(n: int, g: int, i: int) -> (int, int) {
    if n == 1 {
        ((0, 0))
    } else {
        (((2 * (i % g) - g) * HALF_SPACING, (2 * (i / g) - g) * HALF_SPACING))
    }
}

/// The id each placement carries, in layout order.
pub open spec fn spec_region_ids(r: Seq<WorldPlacement>) -> Seq<i64> {
    r.map_values(|p: WorldPlacement| p.region_id)
}

/// Every placement sits on its grid cell.
pub open spec fn positions_on_grid(r: Seq<WorldPlacement>, g: int) -> bool {
    forall|i: int|
        0 <= i < r.len() ==> ((#[trigger] r[i]).x == spec_grid_pos(r.len() as int, g, i).0 && r[i].z
            == spec_grid_pos(r.len() as int, g, i).1)
}

/// What `compute_layout` promises of its output `r` on an input id set
/// `ids`: one placement per distinct id, ordered by id ascending, at
/// height zero, each on its cell of the unique `ceil(sqrt(n))` grid.
/// This pins the output down completely, so the layout is a
/// deterministic, order-independent function of the id set.
pub open spec fn layout_ok(ids: Set<i64>, r: Seq<WorldPlacement>) -> bool {
    &&& r.len() == ids.len()
    &&& strictly_sorted(spec_region_ids(r))
    &&& forall|x: i64| ids.contains(x) <==> spec_region_ids(r).contains(x)
    &&& forall|i: int| 0 <= i < r.len() ==> (#[trigger] r[i]).y == 0
    &&& r.len() >= 1 ==> exists|g: int|
        #[trigger] is_grid_dim(r.len() as int, g) && positions_on_grid(r, g)
}

/// Two strictly sorted sequences holding the same values are equal.
proof fn lemma_sorted_same_set(a: Seq<i64>, b: Seq<i64>)
    requires
        strictly_sorted(a),
        strictly_sorted(b),
        forall|x: i64| a.contains(x) <==> b.contains(x),
    ensures
        a == b,
    decreases a.len(),
{
    if a.len() == 0 {
        if b.len() > 0 {
            assert(b.contains(b[0]));
        }
        assert(a =~= b);
    } else {
        let la = a.last();
        assert(a.contains(la));
        assert(b.contains(la));
        if b.len() == 0 {
            assert(false);
        }
        let lb = b.last();
        assert(b.contains(lb));
        let ia = choose|i: int| 0 <= i < a.len() && a[i] == lb;
        assert(la >= a[ia]);
        let ib = choose|i: int| 0 <= i < b.len() && b[i] == la;
        assert(lb >= b[ib]);
        assert(la == lb);
        let a1 = a.drop_last();
        let b1 = b.drop_last();
        assert forall|x: i64| a1.contains(x) implies b1.contains(x) by {
            let i = choose|i: int| 0 <= i < a1.len() && a1[i] == x;
            assert(a[i] == x);
            assert(x < la);
            assert(b.contains(x));
            let j = choose|j: int| 0 <= j < b.len() && b[j] == x;
            assert(j != b.len() - 1);
            assert(b1[j] == x);
        }
        assert forall|x: i64| b1.contains(x) implies a1.contains(x) by {
            let i = choose|i: int| 0 <= i < b1.len() && b1[i] == x;
            assert(b[i] == x);
            assert(x < lb);
            assert(a.contains(x));
            let j = choose|j: int| 0 <= j < a.len() && a[j] == x;
            assert(j != a.len() - 1);
            assert(a1[j] == x);
        }
        lemma_sorted_same_set(a1, b1);
        assert(a =~= b) by {
            assert(a1.len() == b1.len());
            assert(forall|i: int| 0 <= i < a.len() - 1 ==> a[i] == a1[i] && b[i] == b1[i]);
        }
    }
}

/// Layout determinism: any two outputs meeting the layout contract for
/// the same id set are equal — so the layout never depends on the order
/// in which ids were inserted or listed.
pub proof fn lemma_layout_deterministic(
    ids: Set<i64>,
    r1: Seq<WorldPlacement>,
    r2: Seq<WorldPlacement>,
)
    requires
        layout_ok(ids, r1),
        layout_ok(ids, r2),
    ensures
        r1 == r2,
{
    let s1 = spec_region_ids(r1);
    let s2 = spec_region_ids(r2);
    assert forall|x: i64| s1.contains(x) implies s2.contains(x) by {
        assert(ids.contains(x));
    }
    assert forall|x: i64| s2.contains(x) implies s1.contains(x) by {
        assert(ids.contains(x));
    }
    lemma_sorted_same_set(s1, s2);
    assert(r1.len() == s1.len() && r2.len() == s2.len());
    let n = r1.len() as int;
    assert forall|i: int| 0 <= i < n implies r1[i] == r2[i] by {
        assert(r1[i].region_id == s1[i] && r2[i].region_id == s2[i]);
        if n >= 1 {
            let g1 = choose|g: int| is_grid_dim(n, g) && positions_on_grid(r1, g);
            let g2 = choose|g: int| is_grid_dim(n, g) && positions_on_grid(r2, g);
            lemma_grid_dim_unique(n, g1, g2);
        }
    }
    assert(r1 =~= r2);
}

/// Smallest grid side whose square holds at least `n` cells.
pub fn grid_size(n: usize) -> (g: usize)
    requires
        n >= 1,
    ensures
        is_grid_dim(n as int, g as int),
        g <= n,
{
    let n128 = n as u128;
    let mut g: u128 = 1;
    let mut sq: u128 = 1;
    while sq < n128
        invariant
            1 <= g <= n128,
            n128 == n,
            sq == g * g,
            (g - 1) * (g - 1) < n128,
            g <= 0x1_0000_0000,
        decreases n128 - g,
    {
        proof {
            assert(g < 0x1_0000_0000) by (nonlinear_arith)
                requires
                    sq == g * g,
                    sq < n128,
                    n128 <= 0xFFFF_FFFF_FFFF_FFFFu128,
                    g >= 1,
            ;
            assert((g + 1) * (g + 1) == g * g + 2 * g + 1) by (nonlinear_arith);
            lemma_mul_inequality(1, g as int, g as int);
        }
        sq = sq + 2 * g + 1;
        g = g + 1;
    }
    g as usize
}

/// Sorted, duplicate-free copy of the ids: the canonical order the
/// layout places regions in.
pub fn sorted_unique_ids(ids: &Vec<i64>) -> (r: Vec<i64>)
    ensures
        strictly_sorted(r@),
        forall|x: i64| r@.contains(x) <==> ids@.contains(x),
{
    let mut r: Vec<i64> = Vec::new();
    let mut i: usize = 0;
    while i < ids.len()
        invariant
            i <= ids@.len(),
            strictly_sorted(r@),
            forall|x: i64| r@.contains(x) <==> ids@.subrange(0, i as int).contains(x),
        decreases ids@.len() - i,
    {
        let ghost prefix = ids@.subrange(0, i as int);
        insert_unique_sorted(&mut r, ids[i]);
        proof {
            assert(ids@.subrange(0, i + 1) =~= prefix.push(ids@[i as int]));
            assert forall|x: i64| r@.contains(x) implies ids@.subrange(0, i + 1).contains(x) by {
                if x == ids@[i as int] {
                    assert(ids@.subrange(0, i + 1).last() == x);
                } else {
                    let j = choose|j: int| 0 <= j < prefix.len() && prefix[j] == x;
                    assert(ids@.subrange(0, i + 1)[j] == x);
                }
            }
            assert forall|x: i64| ids@.subrange(0, i + 1).contains(x) implies r@.contains(x) by {
                let sub = ids@.subrange(0, i + 1);
                let j = choose|j: int| 0 <= j < sub.len() && #[trigger] sub[j] == x;
                if j < i {
                    assert(prefix[j] == x);
                }
            }
        }
        i = i + 1;
    }
    proof {
        assert(ids@.subrange(0, ids@.len() as int) =~= ids@);
    }
    r
}

/// Insert an id into a strictly sorted vector, keeping it strictly
/// sorted; an id already present is left alone.
fn insert_unique_sorted(r: &mut Vec<i64>, val: i64)
    requires
        strictly_sorted(old(r)@),
    ensures
        strictly_sorted(final(r)@),
        forall|x: i64| final(r)@.contains(x) <==> (old(r)@.contains(x) || x == val),
{
    let ghost orig = r@;
    let mut idx: usize = 0;
    while idx < r.len() && r[idx] < val
        invariant
            r@ == orig,
            strictly_sorted(r@),
            idx <= r@.len(),
            forall|j: int| 0 <= j < idx ==> r@[j] < val,
        decreases r@.len() - idx,
    {
        idx = idx + 1;
    }
    if idx < r.len() {
        let found = r[idx];
        if found == val {
            proof {
                assert(r@.contains(val));
            }
            return ;
        }
    }
    proof {
        // everything at or after idx is above val
        assert forall|j: int| idx <= j < orig.len() implies orig[j] > val by {
            assert(orig[idx as int] > val);
            if j > idx {
                assert(orig[idx as int] < orig[j]);
            }
        }
    }
    r.insert(idx, val);
    proof {
        orig.insert_ensures(idx as int, val);
        let now = r@;
        assert forall|i: int, j: int| 0 <= i < j < now.len() implies now[i] < now[j] by {
            if j < idx {
                assert(now[i] == orig[i] && now[j] == orig[j]);
            } else if i > idx {
                assert(now[i] == orig[i - 1] && now[j] == orig[j - 1]);
            } else if i < idx && j == idx {
                assert(now[i] == orig[i] && now[j] == val);
            } else if i == idx && j > idx {
                assert(now[i] == val && now[j] == orig[j - 1]);
            } else if i < idx && j > idx {
                assert(now[i] == orig[i] && now[j] == orig[j - 1]);
            }
        }
        assert forall|x: i64| now.contains(x) implies (orig.contains(x) || x == val) by {
            let i = choose|i: int| 0 <= i < now.len() && now[i] == x;
            if i < idx {
                assert(orig[i] == x);
            } else if i == idx {
            } else {
                assert(orig[i - 1] == x);
            }
        }
        assert forall|x: i64| orig.contains(x) || x == val implies now.contains(x) by {
            if x == val {
                assert(now[idx as int] == val);
            } else {
                let i = choose|i: int| 0 <= i < orig.len() && orig[i] == x;
                if i < idx {
                    assert(now[i] == x);
                } else {
                    assert(now[i + 1] == x);
                }
            }
        }
    }
}

/// Assign every known region a deterministic, non-overlapping world
/// position: a pure function of the set of ids, whatever order they
/// arrive in. A single region sits at the origin; `n >= 2` regions fill
/// a `ceil(sqrt(n))` grid ordered by id.
pub fn compute_layout(ids: &Vec<i64>) -> (r: Vec<WorldPlacement>)
    ensures
        layout_ok(ids@.to_set(), r@),
        r@.len() == 1 ==> r@[0].x == 0 && r@[0].y == 0 && r@[0].z == 0,
{
    let sorted = sorted_unique_ids(ids);
    proof {
        lemma_seq_set_equiv(sorted@, ids@);
    }
    let n = sorted.len();
    let mut r: Vec<WorldPlacement> = Vec::new();
    if n == 0 {
        proof {
            assert(ids@.to_set() =~= Set::<i64>::empty()) by {
                assert forall|x: i64| !ids@.to_set().contains(x) by {
                    if ids@.contains(x) {
                        assert(sorted@.contains(x));
                    }
                }
            }
            assert(spec_region_ids(r@) =~= Seq::<i64>::empty());
        }
        return r;
    }
    let g = grid_size(n);
    proof {
        lemma_grid_bounds(n as int, g as int);
    }
    let mut i: usize = 0;
    while i < n
        invariant
            i <= n,
            n == sorted@.len(),
            r@.len() == i,
            n >= 1,
            1 <= g <= 0x1_0000_0000,
            is_grid_dim(n as int, g as int),
            strictly_sorted(sorted@),
            forall|k: int| 0 <= k < i ==> (#[trigger] r@[k]).region_id == sorted@[k],
            forall|k: int| 0 <= k < i ==> (#[trigger] r@[k]).y == 0,
            forall|k: int|
                0 <= k < i ==> (#[trigger] r@[k]).x == spec_grid_pos(n as int, g as int, k).0
                    && r@[k].z == spec_grid_pos(n as int, g as int, k).1,
        decreases n - i,
    {
        let col = i % g;
        let row = i / g;
        proof {
            lemma_mod_division_less_than_divisor(i as int, g as int);
            assert((i as int) < (g as int) * (g as int));
            lemma_multiply_divide_lt(i as int, g as int, g as int);
            lemma_div_pos_is_pos(i as int, g as int);
        }
        let (x, z) = if n == 1 {
            (0i64, 0i64)
        } else {
            (
                (2 * (col as i64) - g as i64) * HALF_SPACING,
                (2 * (row as i64) - g as i64) * HALF_SPACING,
            )
        };
        r.push(WorldPlacement { region_id: sorted[i], x, y: 0, z });
        i = i + 1;
    }
    proof {
        let ids_set = ids@.to_set();
        assert(spec_region_ids(r@) =~= sorted@);
        assert forall|x: i64| ids_set.contains(x) <==> spec_region_ids(r@).contains(x) by {
            assert(ids_set.contains(x) == ids@.contains(x));
        }
        assert(sorted@.no_duplicates());
        sorted@.unique_seq_to_set();
        assert(ids_set =~= sorted@.to_set()) by {
            assert(forall|x: i64| ids_set.contains(x) == ids@.contains(x));
            assert(forall|x: i64| sorted@.to_set().contains(x) == sorted@.contains(x));
        }
        assert(r@.len() == ids_set.len());
        assert(is_grid_dim(r@.len() as int, g as int) && positions_on_grid(r@, g as int));
    }
    r
}

/// Sequence/set membership agreement used by `compute_layout`.
proof fn lemma_seq_set_equiv(a: Seq<i64>, b: Seq<i64>)
    requires
        forall|x: i64| a.contains(x) <==> b.contains(x),
    ensures
        a.to_set() =~= b.to_set(),
{
}

/// Bounds that let the grid coordinates fit machine integers: the grid
/// side of any representable region count stays below `2^32`.
proof fn lemma_grid_bounds(n: int, g: int)
    requires
        is_grid_dim(n, g),
        n <= 0xFFFF_FFFF_FFFF_FFFF,
    ensures
        g <= 0x1_0000_0000,
{
    if g > 0x1_0000_0000 {
        lemma_mul_inequality(0x1_0000_0000, g - 1, g - 1);
        lemma_mul_inequality(0x1_0000_0000, 0x1_0000_0000, g - 1);
        lemma_mul_is_commutative(0x1_0000_0000, g - 1);
    }
}

} // verus!
