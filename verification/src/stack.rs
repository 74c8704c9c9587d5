//! The shape of a layer stack as the scene keeps it, and why moving a layer
//! and moving it back, as unwinding the move does, gives the stack back.

use vstd::prelude::*;

use crate::comms::SceneEvent;
use crate::events::{unwind_spec, unwind_step, with_layers};
use crate::geom::Rect;
use crate::layer::LayerModel;
use crate::scene::{
    add_layer_result, at_extreme, default_layers, first_negative, layers_with, layers_without, insert_pos_desc, layer_pos, lemma_first_negative, lemma_layer_pos,
    move_layer_result, move_layer_safe, move_fits, moved_heights, normal_z, normalise,
    remove_layer_result, renumber, restore_layer_result,
    signum, sort_layers_spec, with_z, SceneModel,
};
use crate::Id;

verus! {

/// The height renumbering gives position `k` of a stack with `p` layers
/// above the grid: those count down to 1, the others from -1 downwards.
pub open spec fn height_at(p: int, k: int) -> int {
    if k < p {
        p - k
    } else {
        -(k - p + 1)
    }
}

/// The layers with the heights of a stack with `p` layers above the grid.
pub open spec fn with_heights(s: Seq<LayerModel>, p: int) -> Seq<LayerModel> {
    Seq::new(s.len(), |k: int| with_z(s[k], height_at(p, k)))
}

/// The layers have the heights of a stack with `p` layers above the grid.
pub open spec fn normal_with(s: Seq<LayerModel>, p: int) -> bool {
    0 <= p <= s.len() && s == with_heights(s, p)
}

/// Heights fall strictly down the stack.
pub open spec fn strictly_desc(s: Seq<LayerModel>) -> bool {
    forall|a: int, b: int| 0 <= a < b < s.len() ==> s[a].z > s[b].z
}

/// No two layers share an id.
pub open spec fn unique_ids(s: Seq<LayerModel>) -> bool {
    forall|a: int, b: int| 0 <= a < s.len() && 0 <= b < s.len() && a != b ==> s[a].id != s[b].id
}

/// The layers with those at positions `j` and `j + 1` exchanged.
pub open spec fn swap(s: Seq<LayerModel>, j: int) -> Seq<LayerModel> {
    s.update(j, s[j + 1]).update(j + 1, s[j])
}

proof fn lemma_insert_pos_at(s: Seq<LayerModel>, key: i32, j: int)
    requires
        0 <= j <= s.len(),
        forall|k: int| 0 <= k < j ==> s[k].z >= key,
        j < s.len() ==> s[j].z < key,
    ensures
        insert_pos_desc(s, key) == j,
    decreases s.len(),
{
    if s.len() > 0 && j > 0 {
        let t = s.drop_first();
        assert forall|k: int| 0 <= k < j - 1 implies t[k].z >= key by {
            assert(t[k] == s[k + 1]);
        }
        if j - 1 < t.len() {
            assert(t[j - 1] == s[j]);
        }
        lemma_insert_pos_at(t, key, j - 1);
    }
}

/// Sorting a stack whose heights already fall strictly changes nothing.
pub proof fn lemma_sort_sorted(t: Seq<LayerModel>)
    requires
        strictly_desc(t),
    ensures
        sort_layers_spec(t) == t,
    decreases t.len(),
{
    if t.len() > 0 {
        let d = t.drop_last();
        assert(strictly_desc(d)) by {
            assert forall|a: int, b: int| 0 <= a < b < d.len() implies d[a].z > d[b].z by {
                assert(d[a] == t[a] && d[b] == t[b]);
            }
        }
        lemma_sort_sorted(d);
        assert forall|k: int| 0 <= k < d.len() implies d[k].z >= t.last().z by {
            assert(d[k] == t[k]);
        }
        lemma_insert_pos_at(d, t.last().z, d.len() as int);
        assert(d.insert(d.len() as int, t.last()) =~= t);
    }
}

/// Sorting a strictly falling stack with two neighbours exchanged puts them
/// back.
pub proof fn lemma_sort_swapped(u: Seq<LayerModel>, j: int)
    requires
        strictly_desc(u),
        0 <= j,
        j + 1 < u.len(),
    ensures
        sort_layers_spec(swap(u, j)) == u,
    decreases u.len(),
{
    let t = swap(u, j);
    let n = u.len() as int;
    let d = t.drop_last();
    if j + 1 < n - 1 {
        let ud = u.drop_last();
        assert(strictly_desc(ud)) by {
            assert forall|a: int, b: int| 0 <= a < b < ud.len() implies ud[a].z > ud[b].z by {
                assert(ud[a] == u[a] && ud[b] == u[b]);
            }
        }
        assert(d =~= swap(ud, j));
        lemma_sort_swapped(ud, j);
        assert(t.last() == u.last());
        assert forall|k: int| 0 <= k < ud.len() implies ud[k].z >= u.last().z by {
            assert(ud[k] == u[k]);
        }
        lemma_insert_pos_at(ud, u.last().z, ud.len() as int);
        assert(ud.insert(ud.len() as int, u.last()) =~= u);
    } else {
        assert(d =~= u.drop_last().update(j, u[j + 1]));
        assert(strictly_desc(d)) by {
            assert forall|a: int, b: int| 0 <= a < b < d.len() implies d[a].z > d[b].z by {
                if b == j {
                    assert(d[a] == u[a] && d[b] == u[j + 1]);
                    assert(u[a].z > u[j + 1].z);
                } else {
                    assert(d[a] == u[a] && d[b] == u[b]);
                }
            }
        }
        lemma_sort_sorted(d);
        assert(t.last() == u[j]);
        assert forall|k: int| 0 <= k < j implies d[k].z >= u[j].z by {
            assert(d[k] == u[k]);
        }
        assert(d[j] == u[j + 1]);
        assert(u[j].z > u[j + 1].z);
        lemma_insert_pos_at(d, u[j].z, j);
        assert(d.insert(j, u[j]) =~= u);
    }
}

/// Renumbering a stack whose first `p` heights are at least 0 and whose
/// `p`-th is below the grid gives the heights of a stack with `p` layers
/// above the grid.
pub proof fn lemma_renumber_with(t: Seq<LayerModel>, p: int)
    requires
        0 <= p <= t.len(),
        forall|k: int| 0 <= k < p ==> t[k].z >= 0,
        p < t.len() ==> t[p].z < 0,
    ensures
        renumber(t) == with_heights(t, p),
{
    lemma_first_negative(t);
    match first_negative(t) {
        Some(i) => {
            assert(i == p) by {
                if i < p {
                    assert(t[i].z >= 0);
                }
                if i > p {
                    assert(t[p].z >= 0);
                }
            }
        },
        None => {
            if p < t.len() {
                assert(t[p].z >= 0);
            }
        },
    }
    assert forall|k: int| 0 <= k < t.len() implies normal_z(t, k) == height_at(p, k) by {}
    assert(renumber(t) =~= with_heights(t, p));
}

/// The stack after the layer at position `i` of a stack with `p` layers
/// above the grid moves one step: across the grid when it is the last
/// layer on its side, past its neighbour otherwise; `None` when it is at
/// the top (or bottom) already and on that side of the grid.
pub open spec fn normal_move(s: Seq<LayerModel>, p: int, i: int, up: bool) -> Option<Seq<LayerModel>> {
    let n = s.len() as int;
    if up {
        if i == 0 {
            if p == 0 {
                Some(with_heights(s, 1))
            } else {
                None
            }
        } else if i == p {
            Some(with_heights(s, p + 1))
        } else {
            Some(with_heights(swap(s, i - 1), p))
        }
    } else {
        if i == n - 1 {
            if p == n {
                Some(with_heights(s, n - 1))
            } else {
                None
            }
        } else if i == p - 1 {
            Some(with_heights(s, p - 1))
        } else {
            Some(with_heights(swap(s, i), p))
        }
    }
}

/// Two stacks that differ at most in their heights.
pub open spec fn same_but_heights(x: Seq<LayerModel>, y: Seq<LayerModel>) -> bool {
    x.len() == y.len() && forall|k: int| 0 <= k < x.len() ==> with_z(#[trigger] x[k], 0) == with_z(y[k], 0)
}

proof fn lemma_heights_override(x: Seq<LayerModel>, y: Seq<LayerModel>, q: int)
    requires
        same_but_heights(x, y),
    ensures
        with_heights(x, q) == with_heights(y, q),
{
    assert forall|k: int| 0 <= k < x.len() implies #[trigger] with_heights(x, q)[k] == with_heights(y, q)[k] by {
        assert(with_z(x[k], 0) == with_z(y[k], 0));
        assert(x[k].id == y[k].id && x[k].title == y[k].title && x[k].visible == y[k].visible);
        assert(x[k].locked == y[k].locked && x[k].sprites == y[k].sprites);
        assert(x[k].removed_sprites == y[k].removed_sprites && x[k].z_min == y[k].z_min
            && x[k].z_max == y[k].z_max);
    }
    assert(with_heights(x, q) =~= with_heights(y, q));
}

/// The heights of a stack with `p` layers above the grid fall strictly, are
/// above the grid for the first `p` layers and below it for the others.
proof fn lemma_heights_shape(x: Seq<LayerModel>, p: int)
    requires
        0 <= p <= x.len(),
        x.len() < i32::MAX,
    ensures
        strictly_desc(with_heights(x, p)),
        forall|k: int| 0 <= k < x.len() ==> #[trigger] with_heights(x, p)[k].z == height_at(p, k),
        forall|k: int| 0 <= k < p ==> #[trigger] with_heights(x, p)[k].z > 0,
        forall|k: int| p <= k < x.len() ==> #[trigger] with_heights(x, p)[k].z < 0,
{
    let w = with_heights(x, p);
    assert forall|k: int| 0 <= k < x.len() implies #[trigger] w[k].z == height_at(p, k) by {}
    assert forall|a: int, b: int| 0 <= a < b < w.len() implies w[a].z > w[b].z by {
        assert(w[a].z == height_at(p, a));
        assert(w[b].z == height_at(p, b));
    }
}

proof fn lemma_same_but_heights_refl(x: Seq<LayerModel>, q: int)
    ensures
        same_but_heights(x, with_heights(x, q)),
        with_heights(with_heights(x, q), q) == with_heights(x, q),
{
    assert(with_heights(with_heights(x, q), q) =~= with_heights(x, q));
}

/// How moving a layer acts on a stack kept as the scene keeps it.
pub proof fn lemma_normal_move(s: Seq<LayerModel>, p: int, i: int, up: bool)
    requires
        normal_with(s, p),
        0 <= i < s.len(),
        s.len() < i32::MAX,
    ensures
        (moved_heights(s, i, up) is None) == (normal_move(s, p, i, up) is None),
        moved_heights(s, i, up) is Some ==> normalise(moved_heights(s, i, up).unwrap()) == normal_move(
            s,
            p,
            i,
            up,
        ).unwrap(),
        move_fits(s, i, up),
{
    let n = s.len() as int;
    lemma_heights_shape(s, p);
    assert forall|k: int| 0 <= k < n implies #[trigger] s[k].z == height_at(p, k) by {
        assert(s[k] == with_heights(s, p)[k]);
    }
    if up {
        if i == 0 {
            if p == 0 {
                let t = moved_heights(s, i, up).unwrap();
                assert(t == s.update(0, with_z(s[0], 1)));
                assert(strictly_desc(t)) by {
                    assert forall|a: int, b: int| 0 <= a < b < t.len() implies t[a].z > t[b].z by {
                        if a == 0 {
                            assert(t[b] == s[b]);
                        } else {
                            assert(t[a] == s[a] && t[b] == s[b]);
                        }
                    }
                }
                lemma_sort_sorted(t);
                if n > 1 {
                    assert(t[1] == s[1]);
                }
                lemma_renumber_with(t, 1);
                assert(same_but_heights(t, s)) by {
                    assert forall|k: int| 0 <= k < t.len() implies with_z(#[trigger] t[k], 0) == with_z(s[k], 0) by {}
                }
                lemma_heights_override(t, s, 1);
            }
        } else if i == p {
            let t = moved_heights(s, i, up).unwrap();
            assert(s[i - 1].z == 1 && s[i].z == -1);
            assert(signum(s[i].z) != signum(s[i - 1].z));
            let expect = Seq::new(
                s.len(),
                |k: int|
                    if k == i {
                        with_z(s[k], 1)
                    } else if k <= i - 1 {
                        with_z(s[k], s[k].z + 1)
                    } else {
                        s[k]
                    },
            );
            assert(t == expect);
            let tz = |k: int| if k < p { p - k + 1 } else if k == p { 1 } else { -(k - p + 1) };
            assert forall|k: int| 0 <= k < n implies #[trigger] t[k].z == tz(k) by {
                assert(t[k] == expect[k]);
                assert(s[k].z == height_at(p, k));
                if k < i {
                    assert(p - k + 1 <= i32::MAX);
                    assert(with_z(s[k], s[k].z + 1).z == p - k + 1);
                } else if k == i {
                    assert(with_z(s[k], 1).z == 1);
                }
            }
            assert(strictly_desc(t)) by {
                assert forall|a: int, b: int| 0 <= a < b < t.len() implies t[a].z > t[b].z by {
                    assert(t[a].z == tz(a) && t[b].z == tz(b));
                }
            }
            lemma_sort_sorted(t);
            lemma_renumber_with(t, p + 1);
            assert(same_but_heights(t, s)) by {
                assert forall|k: int| 0 <= k < t.len() implies with_z(#[trigger] t[k], 0) == with_z(s[k], 0) by {}
            }
            lemma_heights_override(t, s, p + 1);
        } else {
            let o = i - 1;
            let t = moved_heights(s, i, up).unwrap();
            let u = with_heights(swap(s, o), p);
            lemma_heights_shape(swap(s, o), p);
            assert(t =~= swap(u, o));
            lemma_sort_swapped(u, o);
            lemma_renumber_with(u, p);
            lemma_same_but_heights_refl(swap(s, o), p);
        }
    } else {
        if i == n - 1 {
            if p == n {
                let t = moved_heights(s, i, up).unwrap();
                assert(t == s.update(n - 1, with_z(s[n - 1], -1)));
                assert(strictly_desc(t)) by {
                    assert forall|a: int, b: int| 0 <= a < b < t.len() implies t[a].z > t[b].z by {
                        if b == n - 1 {
                            assert(t[a] == s[a]);
                        } else {
                            assert(t[a] == s[a] && t[b] == s[b]);
                        }
                    }
                }
                lemma_sort_sorted(t);
                assert forall|k: int| 0 <= k < n - 1 implies t[k].z >= 0 by {
                    assert(t[k] == s[k]);
                }
                lemma_renumber_with(t, n - 1);
                assert(same_but_heights(t, s)) by {
                    assert forall|k: int| 0 <= k < t.len() implies with_z(#[trigger] t[k], 0) == with_z(s[k], 0) by {}
                }
                lemma_heights_override(t, s, n - 1);
            }
        } else if i == p - 1 {
            let t = moved_heights(s, i, up).unwrap();
            assert(s[i + 1].z == -1 && s[i].z == 1);
            assert(signum(s[i].z) != signum(s[i + 1].z));
            let expect = Seq::new(
                s.len(),
                |k: int|
                    if k == i {
                        with_z(s[k], -1)
                    } else if k >= i + 1 {
                        with_z(s[k], s[k].z - 1)
                    } else {
                        s[k]
                    },
            );
            assert(t == expect);
            let tz = |k: int| if k < p - 1 { p - k } else if k == p - 1 { -1 } else { -(k - p + 2) };
            assert forall|k: int| 0 <= k < n implies #[trigger] t[k].z == tz(k) by {
                assert(t[k] == expect[k]);
                assert(s[k].z == height_at(p, k));
                if k > i {
                    assert(-(k - p + 2) >= i32::MIN);
                    assert(with_z(s[k], s[k].z - 1).z == -(k - p + 2));
                } else if k == i {
                    assert(with_z(s[k], -1).z == -1);
                }
            }
            assert(strictly_desc(t)) by {
                assert forall|a: int, b: int| 0 <= a < b < t.len() implies t[a].z > t[b].z by {
                    assert(t[a].z == tz(a) && t[b].z == tz(b));
                }
            }
            lemma_sort_sorted(t);
            lemma_renumber_with(t, p - 1);
            assert(same_but_heights(t, s)) by {
                assert forall|k: int| 0 <= k < t.len() implies with_z(#[trigger] t[k], 0) == with_z(s[k], 0) by {}
            }
            lemma_heights_override(t, s, p - 1);
        } else {
            let t = moved_heights(s, i, up).unwrap();
            let u = with_heights(swap(s, i), p);
            lemma_heights_shape(swap(s, i), p);
            assert(t =~= swap(u, i));
            lemma_sort_swapped(u, i);
            lemma_renumber_with(u, p);
            lemma_same_but_heights_refl(swap(s, i), p);
        }
    }
}

/// The stack as the scene keeps it, sorted and renumbered, has the heights
/// of a stack with some number of layers above the grid.
pub proof fn lemma_kept_is_normal(s: Seq<LayerModel>) -> (p: int)
    requires
        s == normalise(s),
    ensures
        normal_with(s, p),
{
    let sorted = sort_layers_spec(s);
    lemma_first_negative(sorted);
    let p = match first_negative(sorted) {
        Some(i) => i,
        None => sorted.len() as int,
    };
    assert(renumber(sorted) =~= with_heights(sorted, p));
    assert(with_heights(s, p) =~= s);
    p
}

proof fn lemma_swap_heights(x: Seq<LayerModel>, q: int, j: int)
    requires
        0 <= j,
        j + 1 < x.len(),
    ensures
        with_heights(swap(with_heights(swap(x, j), q), j), q) == with_heights(x, q),
        swap(x, j).len() == x.len(),
{
    let y = swap(with_heights(swap(x, j), q), j);
    assert(same_but_heights(y, x)) by {
        assert forall|k: int| 0 <= k < y.len() implies with_z(#[trigger] y[k], 0) == with_z(x[k], 0) by {}
    }
    lemma_heights_override(y, x, q);
}

proof fn lemma_unique_pos(s: Seq<LayerModel>, id: Id, k: int)
    requires
        unique_ids(s),
        0 <= k < s.len(),
        s[k].id == id,
    ensures
        layer_pos(s, id) == Some(k),
{
    lemma_layer_pos(s, id);
    if layer_pos(s, id) is None {
        assert(s[k].id != id);
    }
    let q = layer_pos(s, id).unwrap();
    if q != k {
        assert(s[q].id == s[k].id);
    }
}

proof fn lemma_heights_keep_ids(x: Seq<LayerModel>, q: int)
    requires
        unique_ids(x),
    ensures
        unique_ids(with_heights(x, q)),
        forall|k: int| 0 <= k < x.len() ==> #[trigger] with_heights(x, q)[k].id == x[k].id,
{
}

proof fn lemma_swap_keeps_ids(x: Seq<LayerModel>, j: int)
    requires
        unique_ids(x),
        0 <= j,
        j + 1 < x.len(),
    ensures
        unique_ids(swap(x, j)),
{
    let y = swap(x, j);
    assert forall|a: int, b: int| 0 <= a < y.len() && 0 <= b < y.len() && a != b implies y[a].id
        != y[b].id by {
        let fa = if a == j { j + 1 } else if a == j + 1 { j } else { a };
        let fb = if b == j { j + 1 } else if b == j + 1 { j } else { b };
        assert(y[a] == x[fa] && y[b] == x[fb]);
    }
}

/// Moving a layer and then moving it back the other way gives the stack
/// back, for a stack as the scene keeps it (sorted and renumbered) whose
/// layers have distinct ids.
pub proof fn law_move_layer_undone(s: Seq<LayerModel>, id: Id, up: bool)
    requires
        s == normalise(s),
        unique_ids(s),
        s.len() < i32::MAX,
        move_layer_result(s, id, up) is Some,
    ensures
        move_layer_result(move_layer_result(s, id, up).unwrap().0, id, !up) matches Some(back) && back.0
            == s,
        move_layer_result(s, id, up).unwrap().1 matches SceneEvent::LayerMove(moved, _, dir) && moved
            == id && dir == up,
        move_layer_safe(move_layer_result(s, id, up).unwrap().0, id, !up),
{
    let n = s.len() as int;
    let p = lemma_kept_is_normal(s);
    lemma_layer_pos(s, id);
    let i = layer_pos(s, id).unwrap();
    lemma_normal_move(s, p, i, up);
    let r = normal_move(s, p, i, up).unwrap();
    assert(move_layer_result(s, id, up).unwrap().0 == r);
    let (q, j) = if up {
        if i == 0 {
            (1, 0)
        } else if i == p {
            (p + 1, i)
        } else {
            (p, i - 1)
        }
    } else {
        if i == n - 1 {
            (n - 1, i)
        } else if i == p - 1 {
            (p - 1, i)
        } else {
            (p, i + 1)
        }
    };
    // The moved stack has the heights of a stack with `q` layers above the
    // grid, and the moved layer is at `j`.
    if up && i != 0 && i != p {
        lemma_swap_keeps_ids(s, i - 1);
        lemma_heights_keep_ids(swap(s, i - 1), p);
        lemma_same_but_heights_refl(swap(s, i - 1), p);
        lemma_swap_heights(s, p, i - 1);
    } else if !up && i != n - 1 && i != p - 1 {
        lemma_swap_keeps_ids(s, i);
        lemma_heights_keep_ids(swap(s, i), p);
        lemma_same_but_heights_refl(swap(s, i), p);
        lemma_swap_heights(s, p, i);
    } else {
        lemma_heights_keep_ids(s, q);
        lemma_same_but_heights_refl(s, q);
    }
    assert(normal_with(r, q));
    assert(r[j].id == id);
    lemma_unique_pos(r, id, j);
    lemma_normal_move(r, q, j, !up);
    let back = normal_move(r, q, j, !up).unwrap();
    if up && i != 0 && i != p {
        assert(back == with_heights(swap(r, i - 1), p));
    } else if !up && i != n - 1 && i != p - 1 {
        assert(back == with_heights(swap(r, i), p));
    } else {
        lemma_same_but_heights_refl(s, q);
        assert(same_but_heights(r, s)) by {
            assert forall|k: int| 0 <= k < r.len() implies with_z(#[trigger] r[k], 0) == with_z(s[k], 0) by {}
        }
        lemma_heights_override(r, s, p);
    }
    assert(back == s);
    if at_extreme(n, i, up) {
        assert(r[i].id == s[i].id);
    }
}

/// Unwinding the event that moving a layer gives brings the scene back,
/// for layers as the scene keeps them (sorted and renumbered) with
/// distinct ids.
pub proof fn law_unwind_move_layer<F: Fn(Rect, Rect, Rect) -> Rect>(
    m: SceneModel,
    id: Id,
    up: bool,
    shift: F,
)
    requires
        m.layers == normalise(m.layers),
        unique_ids(m.layers),
        m.layers.len() < i32::MAX,
        move_layer_result(m.layers, id, up) is Some,
    ensures
        unwind_spec(
            with_layers(m, move_layer_result(m.layers, id, up).unwrap().0),
            move_layer_result(m.layers, id, up).unwrap().1,
            shift,
        ) == Some(m),
{
    law_move_layer_undone(m.layers, id, up);
    let r = move_layer_result(m.layers, id, up).unwrap();
    let moved = with_layers(m, r.0);
    assert(with_layers(moved, move_layer_result(r.0, id, !up).unwrap().0) == m);
}

/// Sorting and renumbering layers a second time changes nothing.
pub proof fn law_sort_layers_idempotent(s: Seq<LayerModel>)
    requires
        s.len() < i32::MAX,
    ensures
        normalise(normalise(s)) == normalise(s),
{
    let sorted = sort_layers_spec(s);
    crate::scene::lemma_sort_layers_len(s);
    lemma_first_negative(sorted);
    let p = match first_negative(sorted) {
        Some(i) => i,
        None => sorted.len() as int,
    };
    assert(renumber(sorted) =~= with_heights(sorted, p));
    let x = normalise(s);
    lemma_heights_shape(sorted, p);
    lemma_sort_sorted(x);
    lemma_renumber_with(x, p);
    lemma_same_but_heights_refl(sorted, p);
}

/// A new scene's layers are kept as the scene keeps them, sorted and
/// renumbered, with distinct ids: the laws about moving layers hold of it.
pub proof fn law_default_layers_kept()
    ensures
        normalise(default_layers()) == default_layers(),
        unique_ids(default_layers()),
{
    let d = default_layers();
    assert(strictly_desc(d));
    lemma_sort_sorted(d);
    lemma_renumber_with(d, 1);
    assert(with_heights(d, 1) =~= d);
}

/// With distinct ids, the layers without the one at position `k` are the
/// others in order, and it is the only one with its id.
proof fn lemma_filter_unique(s: Seq<LayerModel>, k: int)
    requires
        unique_ids(s),
        0 <= k < s.len(),
    ensures
        layers_without(s, s[k].id) == s.remove(k),
        layers_with(s, s[k].id) == seq![s[k]],
    decreases s.len(),
{
    reveal_with_fuel(Seq::<_>::filter, 1);
    let id = s[k].id;
    let d = s.drop_last();
    if k == s.len() - 1 {
        assert forall|j: int| 0 <= j < d.len() implies d[j].id != id by {
            assert(d[j] == s[j]);
        }
        lemma_filter_absent(d, id);
        assert(d =~= s.remove(k));
    } else {
        assert(unique_ids(d)) by {
            assert forall|a: int, b: int| 0 <= a < d.len() && 0 <= b < d.len() && a != b implies d[a].id
                != d[b].id by {
                assert(d[a] == s[a] && d[b] == s[b]);
            }
        }
        assert(d[k] == s[k]);
        lemma_filter_unique(d, k);
        assert(s.last().id != id);
        assert(d.remove(k).push(s.last()) =~= s.remove(k));
    }
}

proof fn lemma_filter_absent(s: Seq<LayerModel>, id: Id)
    requires
        forall|j: int| 0 <= j < s.len() ==> s[j].id != id,
    ensures
        layers_without(s, id) == s,
        layers_with(s, id).len() == 0,
    decreases s.len(),
{
    reveal_with_fuel(Seq::<_>::filter, 1);
    if s.len() > 0 {
        let d = s.drop_last();
        assert forall|j: int| 0 <= j < d.len() implies d[j].id != id by {
            assert(d[j] == s[j]);
        }
        lemma_filter_absent(d, id);
        assert(d.push(s.last()) =~= s);
    }
}

/// Bringing back a layer that was just removed, as unwinding the removal
/// does, gives the layers back, for layers as the scene keeps them with
/// distinct ids and no removed layer of that id kept from before.
#[verifier::spinoff_prover]
#[verifier::rlimit(40)]
pub proof fn law_restore_undoes_remove(m: SceneModel, id: Id)
    requires
        m.layers == normalise(m.layers),
        unique_ids(m.layers),
        m.layers.len() < i32::MAX,
        layers_with(m.removed_layers, id).len() == 0,
        remove_layer_result(m, id).1,
    ensures
        restore_layer_result(remove_layer_result(m, id).0, id) == (m, true),
{
    let s = m.layers;
    let p = lemma_kept_is_normal(s);
    lemma_heights_shape(s, p);
    lemma_layer_pos(s, id);
    let k = if layer_pos(s, id) is Some {
        layer_pos(s, id).unwrap()
    } else {
        lemma_filter_absent(s, id);
        0
    };
    lemma_filter_unique(s, k);
    let rest = s.remove(k);
    let m1 = remove_layer_result(m, id).0;
    assert(m1.layers == rest);
    assert(m1.removed_layers == m.removed_layers.push(s[k]));
    // The removed layers hold the one layer with this id.
    reveal_with_fuel(Seq::<_>::filter, 1);
    assert(m.removed_layers.push(s[k]).drop_last() =~= m.removed_layers);
    lemma_filter_absent_len(m.removed_layers, id);
    assert(layers_with(m1.removed_layers, id) == seq![s[k]]);
    assert(layers_without(m1.removed_layers, id) == m.removed_layers);
    // No other layer has the id, so the layer is added back.
    assert forall|j: int| 0 <= j < rest.len() implies rest[j].id != id by {
        if j < k {
            assert(rest[j] == s[j]);
        } else {
            assert(rest[j] == s[j + 1]);
        }
    }
    lemma_layer_pos(rest, id);
    let t = rest.push(s[k]);
    assert(strictly_desc(rest)) by {
        assert forall|a: int, b: int| 0 <= a < b < rest.len() implies rest[a].z > rest[b].z by {
            let fa = if a < k { a } else { a + 1 };
            let fb = if b < k { b } else { b + 1 };
            assert(rest[a] == s[fa] && rest[b] == s[fb]);
        }
    }
    lemma_sort_sorted(rest);
    assert(t.drop_last() =~= rest);
    assert forall|j: int| 0 <= j < k implies rest[j].z >= s[k].z by {
        assert(rest[j] == s[j]);
    }
    if k < rest.len() {
        assert(rest[k] == s[k + 1]);
    }
    lemma_insert_pos_at(rest, s[k].z, k);
    assert(rest.insert(k, s[k]) =~= s);
    assert(sort_layers_spec(t) == s);
    lemma_renumber_with(s, p);
    assert(normalise(t) == s);
    assert(restore_layer_result(m1, id).0 =~~= m);
}

proof fn lemma_filter_absent_len(s: Seq<LayerModel>, id: Id)
    requires
        layers_with(s, id).len() == 0,
    ensures
        layers_without(s, id) == s,
{
    crate::scene::lemma_layers_without_absent(s, id);
}

/// Unwinding the removal of a layer gives the scene back, for layers as
/// the scene keeps them with distinct ids and no removed layer of that id
/// kept from before.
pub proof fn law_unwind_remove_layer<F: Fn(Rect, Rect, Rect) -> Rect>(m: SceneModel, id: Id, shift: F)
    requires
        m.layers == normalise(m.layers),
        unique_ids(m.layers),
        m.layers.len() < i32::MAX,
        layers_with(m.removed_layers, id).len() == 0,
        remove_layer_result(m, id).1,
    ensures
        unwind_spec(remove_layer_result(m, id).0, SceneEvent::LayerRemove(id), shift) == Some(m),
{
    law_restore_undoes_remove(m, id);
    let m1 = remove_layer_result(m, id).0;
    assert(m1.layers.len() < m.layers.len()) by {
        crate::scene::lemma_layers_with_id(m.layers, id);
        lemma_layer_pos(m.layers, id);
        let k = layer_pos(m.layers, id).unwrap();
        lemma_filter_unique(m.layers, k);
    }
}

} // verus!
