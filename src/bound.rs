use crate::mesh::{cell_faces, cell_faces_upto, face_visible, faces_of_cells, mesh_of, Face};
use crate::world::{all_directions, solids_upto, Block, Direction, SolidBlock, World, WorldDimension, WorldPosition};
use vstd::prelude::*;

verus! {

/// A face of a solid cell of `w`, pointing in a visible direction.
spec fn face_of_world(w: &World, f: Face) -> bool {
    &&& f.direction < 6
    &&& w.spec_dims().contains(f.position)
    &&& w.spec_test(f.position)
    &&& face_visible(w, f.position, all_directions()[f.direction as int])
}

/// Faces `f` comes before `g`: its cell has a smaller index, or it is the
/// same cell and `f` has the smaller direction.
spec fn face_before(dims: WorldDimension, f: Face, g: Face) -> bool {
    ||| dims.spec_idx(f.position) < dims.spec_idx(g.position)
    ||| (f.position == g.position && f.direction < g.direction)
}

proof fn lemma_solids_ordered(w: &World, n: nat)
    requires
        w.wf(),
        n <= w@.len(),
    ensures
        forall|i: int|
            0 <= i < solids_upto(w.spec_dims(), w@, n).len() ==> {
                let e = #[trigger] solids_upto(w.spec_dims(), w@, n)[i];
                &&& w.spec_dims().contains(e.0)
                &&& w.spec_dims().spec_idx(e.0) < n
                &&& w.cell(e.0) == Block::Solid(e.1)
            },
        forall|i: int, j: int|
            0 <= i < j < solids_upto(w.spec_dims(), w@, n).len() ==> w.spec_dims().spec_idx(
                #[trigger] solids_upto(w.spec_dims(), w@, n)[i].0,
            ) < w.spec_dims().spec_idx(#[trigger] solids_upto(w.spec_dims(), w@, n)[j].0),
    decreases n,
{
    let dims = w.spec_dims();
    if n > 0 {
        lemma_solids_ordered(w, (n - 1) as nat);
        dims.lemma_pos_in_range(n - 1);
        let prev = solids_upto(dims, w@, (n - 1) as nat);
        let cur = solids_upto(dims, w@, n);
        assert forall|i: int| 0 <= i < cur.len() implies {
            let e = #[trigger] cur[i];
            &&& dims.contains(e.0)
            &&& dims.spec_idx(e.0) < n
            &&& w.cell(e.0) == Block::Solid(e.1)
        } by {
            if i < prev.len() {
                assert(cur[i] == prev[i]);
            }
        }
        assert forall|i: int, j: int| 0 <= i < j < cur.len() implies dims.spec_idx(
            #[trigger] cur[i].0,
        ) < dims.spec_idx(#[trigger] cur[j].0) by {
            assert(cur[i] == prev[i]);
            if j < prev.len() {
                assert(cur[j] == prev[j]);
            }
        }
    }
}

proof fn lemma_cell_faces_shape(w: &World, p: WorldPosition, c: SolidBlock, n: nat)
    requires
        n <= 6,
    ensures
        forall|k: int|
            0 <= k < cell_faces_upto(w, p, c, n).len() ==> {
                let f = #[trigger] cell_faces_upto(w, p, c, n)[k];
                &&& f.position == p
                &&& f.direction < n
                &&& face_visible(w, p, all_directions()[f.direction as int])
            },
        forall|i: int, j: int|
            0 <= i < j < cell_faces_upto(w, p, c, n).len() ==> (#[trigger] cell_faces_upto(
                w,
                p,
                c,
                n,
            )[i]).direction < (#[trigger] cell_faces_upto(w, p, c, n)[j]).direction,
    decreases n,
{
    if n > 0 {
        lemma_cell_faces_shape(w, p, c, (n - 1) as nat);
        let prev = cell_faces_upto(w, p, c, (n - 1) as nat);
        let cur = cell_faces_upto(w, p, c, n);
        let d = all_directions()[n - 1];
        assert(d.spec_id() == n - 1);
        assert forall|k: int| 0 <= k < cur.len() implies {
            let f = #[trigger] cur[k];
            &&& f.position == p
            &&& f.direction < n
            &&& face_visible(w, p, all_directions()[f.direction as int])
        } by {
            if k < prev.len() {
                assert(cur[k] == prev[k]);
            }
        }
        assert forall|i: int, j: int| 0 <= i < j < cur.len() implies (#[trigger] cur[i]).direction < (
        #[trigger] cur[j]).direction by {
            assert(cur[i] == prev[i]);
            if j < prev.len() {
                assert(cur[j] == prev[j]);
            }
        }
    }
}

/// The cells of `s` are solid cells of `w`, in strictly increasing index
/// order.
spec fn solid_cells_in_order(w: &World, s: Seq<(WorldPosition, SolidBlock)>) -> bool {
    &&& forall|i: int|
        0 <= i < s.len() ==> {
            &&& w.spec_dims().contains(#[trigger] s[i].0)
            &&& w.cell(s[i].0) == Block::Solid(s[i].1)
        }
    &&& forall|i: int, j: int|
        0 <= i < j < s.len() ==> w.spec_dims().spec_idx(#[trigger] s[i].0) < w.spec_dims().spec_idx(
            #[trigger] s[j].0,
        )
}

proof fn lemma_faces_of_cells_ordered(w: &World, s: Seq<(WorldPosition, SolidBlock)>)
    requires
        w.wf(),
        solid_cells_in_order(w, s),
    ensures
        forall|k: int|
            0 <= k < faces_of_cells(w, s).len() ==> {
                let f = #[trigger] faces_of_cells(w, s)[k];
                &&& face_of_world(w, f)
                &&& w.spec_dims().spec_idx(f.position) <= w.spec_dims().spec_idx(s.last().0)
            },
        forall|i: int, j: int|
            0 <= i < j < faces_of_cells(w, s).len() ==> face_before(
                w.spec_dims(),
                #[trigger] faces_of_cells(w, s)[i],
                #[trigger] faces_of_cells(w, s)[j],
            ),
    decreases s.len(),
{
    let dims = w.spec_dims();
    if s.len() > 0 {
        let t = s.drop_last();
        let (p, c) = s.last();
        assert(solid_cells_in_order(w, t)) by {
            assert forall|i: int| 0 <= i < t.len() implies {
                &&& dims.contains(#[trigger] t[i].0)
                &&& w.cell(t[i].0) == Block::Solid(t[i].1)
            } by {
                assert(t[i] == s[i]);
            }
            assert forall|i: int, j: int| 0 <= i < j < t.len() implies dims.spec_idx(#[trigger] t[i].0)
                < dims.spec_idx(#[trigger] t[j].0) by {
                assert(t[i] == s[i] && t[j] == s[j]);
            }
        }
        lemma_faces_of_cells_ordered(w, t);
        lemma_cell_faces_shape(w, p, c, 6);
        assert(dims.contains(s[s.len() - 1].0));
        assert(w.cell(p) == Block::Solid(c));
        let prev = faces_of_cells(w, t);
        let mine = cell_faces(w, p, c);
        let cur = faces_of_cells(w, s);
        assert(cur == prev + mine);
        if t.len() > 0 {
            assert(dims.spec_idx(t.last().0) < dims.spec_idx(p)) by {
                assert(t.last() == s[s.len() - 2]);
            }
        } else {
            assert(prev.len() == 0);
        }
        assert forall|k: int| 0 <= k < cur.len() implies {
            let f = #[trigger] cur[k];
            &&& face_of_world(w, f)
            &&& dims.spec_idx(f.position) <= dims.spec_idx(s.last().0)
        } by {
            if k < prev.len() {
                assert(cur[k] == prev[k]);
            } else {
                assert(cur[k] == mine[k - prev.len()]);
            }
        }
        assert forall|i: int, j: int| 0 <= i < j < cur.len() implies face_before(
            dims,
            #[trigger] cur[i],
            #[trigger] cur[j],
        ) by {
            if j < prev.len() {
                assert(cur[i] == prev[i] && cur[j] == prev[j]);
            } else if i < prev.len() {
                assert(cur[i] == prev[i] && cur[j] == mine[j - prev.len()]);
            } else {
                assert(cur[i] == mine[i - prev.len()] && cur[j] == mine[j - prev.len()]);
            }
        }
    }
}

/// Mixed-radix number with digits `a`, `b`, `c` and radices `ra`, `rb`.
spec fn mixed(a: int, b: int, c: int, ra: int, rb: int) -> int {
    a + ra * (b + rb * c)
}

proof fn lemma_mixed_bound(a: int, b: int, c: int, ra: int, rb: int, rc: int)
    requires
        0 <= a < ra,
        0 <= b < rb,
        0 <= c < rc,
    ensures
        0 <= mixed(a, b, c, ra, rb) < ra * rb * rc,
{
    assert(0 <= b + rb * c <= rb * rc - 1) by (nonlinear_arith)
        requires
            0 <= b < rb,
            0 <= c < rc,
    ;
    let m = b + rb * c;
    assert(0 <= a + ra * m <= ra * (rb * rc) - 1) by (nonlinear_arith)
        requires
            0 <= a < ra,
            0 <= m <= rb * rc - 1,
    ;
    assert(ra * (rb * rc) == ra * rb * rc) by (nonlinear_arith);
}

proof fn lemma_mixed_unique(a: int, b: int, c: int, a2: int, b2: int, c2: int, ra: int, rb: int)
    requires
        0 <= a < ra,
        0 <= a2 < ra,
        0 <= b < rb,
        0 <= b2 < rb,
        0 <= c,
        0 <= c2,
        mixed(a, b, c, ra, rb) == mixed(a2, b2, c2, ra, rb),
    ensures
        a == a2,
        b == b2,
        c == c2,
{
    let m = b + rb * c;
    let m2 = b2 + rb * c2;
    let i = mixed(a, b, c, ra, rb);
    assert(i == m * ra + a && i == m2 * ra + a2) by (nonlinear_arith)
        requires
            i == a + ra * m,
            i == a2 + ra * m2,
    ;
    vstd::arithmetic::div_mod::lemma_fundamental_div_mod_converse(i, ra, m, a);
    vstd::arithmetic::div_mod::lemma_fundamental_div_mod_converse(i, ra, m2, a2);
    assert(m == c * rb + b && m2 == c2 * rb + b2) by (nonlinear_arith)
        requires
            m == b + rb * c,
            m2 == b2 + rb * c2,
    ;
    vstd::arithmetic::div_mod::lemma_fundamental_div_mod_converse(m, rb, c, b);
    vstd::arithmetic::div_mod::lemma_fundamental_div_mod_converse(m, rb, c2, b2);
}

/// A slot for each place a face can be in a grid of extents `dims`: first
/// the planes between cells along x, then along y, then along z. Opposite
/// faces of two neighboring cells share a slot.
spec fn face_slot(dims: WorldDimension, f: Face) -> int {
    let (x, y, z) = (dims.0 as int, dims.1 as int, dims.2 as int);
    let (a, b, c) = (f.position.0 as int, f.position.1 as int, f.position.2 as int);
    let base_y = (x + 1) * y * z;
    let base_z = base_y + x * (y + 1) * z;
    if f.direction == 3 {
        mixed(a, b, c, x + 1, y)
    } else if f.direction == 2 {
        mixed(a + 1, b, c, x + 1, y)
    } else if f.direction == 5 {
        base_y + mixed(a, b, c, x, y + 1)
    } else if f.direction == 4 {
        base_y + mixed(a, b + 1, c, x, y + 1)
    } else if f.direction == 0 {
        base_z + mixed(a, b, c, x, y)
    } else {
        base_z + mixed(a, b, c + 1, x, y)
    }
}

proof fn lemma_slot_range(dims: WorldDimension, f: Face)
    requires
        dims.contains(f.position),
        f.direction < 6,
    ensures
        0 <= face_slot(dims, f) < dims.spec_max_faces(),
        (f.direction == 2 || f.direction == 3) ==> face_slot(dims, f) < (dims.0 + 1) * dims.1 * dims.2,
        (f.direction == 4 || f.direction == 5) ==> (dims.0 + 1) * dims.1 * dims.2 <= face_slot(dims, f) < (
        dims.0 + 1) * dims.1 * dims.2 + dims.0 * (dims.1 + 1) * dims.2,
        (f.direction == 0 || f.direction == 1) ==> (dims.0 + 1) * dims.1 * dims.2 + dims.0 * (dims.1 + 1)
            * dims.2 <= face_slot(dims, f),
{
    let (x, y, z) = (dims.0 as int, dims.1 as int, dims.2 as int);
    let (a, b, c) = (f.position.0 as int, f.position.1 as int, f.position.2 as int);
    let base_y = (x + 1) * y * z;
    let base_z = base_y + x * (y + 1) * z;
    assert(base_z + x * y * (z + 1) == x * y * z * 3 + x * y + x * z + y * z) by (nonlinear_arith)
        requires
            base_y == (x + 1) * y * z,
            base_z == base_y + x * (y + 1) * z,
    ;
    assert(0 <= base_y && base_y <= base_z) by (nonlinear_arith)
        requires
            base_y == (x + 1) * y * z,
            base_z == base_y + x * (y + 1) * z,
            x >= 0,
            y >= 0,
            z >= 0,
    ;
    if f.direction == 3 {
        lemma_mixed_bound(a, b, c, x + 1, y, z);
    } else if f.direction == 2 {
        lemma_mixed_bound(a + 1, b, c, x + 1, y, z);
    } else if f.direction == 5 {
        lemma_mixed_bound(a, b, c, x, y + 1, z);
    } else if f.direction == 4 {
        lemma_mixed_bound(a, b + 1, c, x, y + 1, z);
    } else if f.direction == 0 {
        lemma_mixed_bound(a, b, c, x, y, z + 1);
    } else {
        lemma_mixed_bound(a, b, c + 1, x, y, z + 1);
    }
}

proof fn lemma_slot_injective(w: &World, f: Face, g: Face)
    requires
        w.wf(),
        face_of_world(w, f),
        face_of_world(w, g),
        face_slot(w.spec_dims(), f) == face_slot(w.spec_dims(), g),
    ensures
        f.position == g.position,
        f.direction == g.direction,
{
    let dims = w.spec_dims();
    let (x, y, z) = (dims.0 as int, dims.1 as int, dims.2 as int);
    let (a, b, c) = (f.position.0 as int, f.position.1 as int, f.position.2 as int);
    let (a2, b2, c2) = (g.position.0 as int, g.position.1 as int, g.position.2 as int);
    let base_y = (x + 1) * y * z;
    let base_z = base_y + x * (y + 1) * z;
    lemma_slot_range(dims, f);
    lemma_slot_range(dims, g);
    let df = f.direction;
    let dg = g.direction;
    let ef: int = if df == 2 || df == 4 || df == 1 { 1 } else { 0 };
    let eg: int = if dg == 2 || dg == 4 || dg == 1 { 1 } else { 0 };
    if (df == 2 || df == 3) && (dg == 2 || dg == 3) {
        lemma_mixed_unique(a + ef, b, c, a2 + eg, b2, c2, x + 1, y);
    } else if (df == 4 || df == 5) && (dg == 4 || dg == 5) {
        lemma_mixed_unique(a, b + ef, c, a2, b2 + eg, c2, x, y + 1);
    } else if (df == 0 || df == 1) && (dg == 0 || dg == 1) {
        lemma_mixed_unique(a, b, c + ef, a2, b2, c2 + eg, x, y);
    }
    assert(all_directions()[0] == Direction::North);
    assert(all_directions()[1] == Direction::South);
    assert(all_directions()[2] == Direction::East);
    assert(all_directions()[3] == Direction::West);
    assert(all_directions()[4] == Direction::Up);
    assert(all_directions()[5] == Direction::Down);
    if df != dg {
        // The two faces would be the opposite faces of neighboring cells,
        // and a face toward a solid neighbor is not visible.
        if df == 3 && dg == 2 {
            assert(Direction::East.spec_apply(dims, g.position) == Some(f.position));
        } else if df == 2 && dg == 3 {
            assert(Direction::East.spec_apply(dims, f.position) == Some(g.position));
        } else if df == 5 && dg == 4 {
            assert(Direction::Up.spec_apply(dims, g.position) == Some(f.position));
        } else if df == 4 && dg == 5 {
            assert(Direction::Up.spec_apply(dims, f.position) == Some(g.position));
        } else if df == 0 && dg == 1 {
            assert(Direction::South.spec_apply(dims, g.position) == Some(f.position));
        } else if df == 1 && dg == 0 {
            assert(Direction::South.spec_apply(dims, f.position) == Some(g.position));
        }
    }
}

/// The visible faces of a world never outnumber `max_faces` of its
/// extents, so a face buffer of that length always suffices.
pub proof fn lemma_mesh_within_max_faces(w: &World)
    requires
        w.wf(),
    ensures
        mesh_of(w).len() <= w.spec_dims().spec_max_faces(),
{
    let dims = w.spec_dims();
    lemma_solids_ordered(w, w@.len());
    let s = w.solids();
    assert(solid_cells_in_order(w, s));
    lemma_faces_of_cells_ordered(w, s);
    let m = mesh_of(w);
    let slots = m.map_values(|f: Face| face_slot(dims, f));
    assert forall|i: int, j: int| 0 <= i < slots.len() && 0 <= j < slots.len() && i != j implies slots[i]
        != slots[j] by {
        if slots[i] == slots[j] {
            lemma_slot_injective(w, m[i], m[j]);
            if i < j {
                assert(face_before(dims, m[i], m[j]));
            } else {
                assert(face_before(dims, m[j], m[i]));
            }
        }
    }
    assert(slots.no_duplicates());
    slots.unique_seq_to_set();
    let bound = dims.spec_max_faces();
    assert(bound >= 0) by (nonlinear_arith)
        requires
            bound == (dims.0 as int) * (dims.1 as int) * (dims.2 as int) * 3 + (dims.0 as int) * (
            dims.1 as int) + (dims.0 as int) * (dims.2 as int) + (dims.1 as int) * (dims.2 as int),
            dims.0 >= 0,
            dims.1 >= 0,
            dims.2 >= 0,
    ;
    vstd::set_lib::lemma_int_range(0, bound);
    assert forall|v: int| slots.to_set().contains(v) implies vstd::set_lib::set_int_range(0, bound).contains(v) by {
        let k = choose|k: int| 0 <= k < slots.len() && slots[k] == v;
        lemma_slot_range(dims, m[k]);
    }
    vstd::set_lib::lemma_len_subset(slots.to_set(), vstd::set_lib::set_int_range(0, bound));
}

} // verus!
