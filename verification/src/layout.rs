//! Icon grid geometry: item and cell sizes, how many rows fit, column-major
//! grid placement, free placement with saved positions, drag-and-drop
//! repositioning, keyboard navigation between icons, and label truncation.

use vstd::prelude::*;
use crate::positions::Positions;
use crate::text::{chars_of, string_from_chars, slice_chars};
use crate::uri::strings_view;

verus! {

/// Margin around the grid, in pixels.
pub const GRID_MARGIN: i32 = 8;

/// Horizontal gap between icons.
pub const ICON_GAP_X: i32 = 4;

/// Vertical gap between icons.
pub const ICON_GAP_Y: i32 = 4;

/// Icon sizes for which every size computed here fits in an `i32`.
pub open spec fn icon_size_ok(icon_size: i32) -> bool {
    icon_size <= i32::MAX - 56
}

/// Whether an icon size is one for which every size computed here fits.
pub fn icon_size_fits(icon_size: i32) -> (r: bool)
    ensures
        r == icon_size_ok(icon_size),
{
    icon_size <= i32::MAX - 56
}

/// The size of one icon item: the icon plus room for its label.
pub fn item_size(icon_size: i32) -> (r: (i32, i32))
    requires
        icon_size_ok(icon_size),
    ensures
        r.0 == icon_size + 48,
        r.1 == icon_size + 52,
{
    (icon_size + 48, icon_size + 52)
}

/// The size of one grid cell: an item plus the gaps.
pub fn cell_size(icon_size: i32) -> (r: (i32, i32))
    requires
        icon_size_ok(icon_size),
    ensures
        r.0 == icon_size + 48 + ICON_GAP_X,
        r.1 == icon_size + 52 + ICON_GAP_Y,
{
    let (iw, ih) = item_size(icon_size);
    (iw + ICON_GAP_X, ih + ICON_GAP_Y)
}

/// How many rows fit: while the height is unknown (not positive) every icon
/// gets a row (one column); otherwise the usable height divided by the cell
/// height, at least one.
pub open spec fn rows_spec(area_height: i32, icon_size: i32, icons: i32) -> int {
    let ch = icon_size + 56;
    if area_height <= 0 || ch <= 0 {
        if icons >= 1 {
            icons as int
        } else {
            1
        }
    } else if (area_height - 2 * GRID_MARGIN) / ch >= 1 {
        (area_height - 2 * GRID_MARGIN) / ch
    } else {
        1
    }
}

/// Rows of the column-major grid for a usable height.
pub fn rows(area_height: i32, icon_size: i32, icons: i32) -> (r: i32)
    requires
        icon_size_ok(icon_size),
    ensures
        r == rows_spec(area_height, icon_size, icons),
        r >= 1,
{
    let (_, ch) = cell_size(icon_size);
    if area_height <= 0 || ch <= 0 {
        return if icons >= 1 { icons } else { 1 };
    }
    let usable = area_height - 2 * GRID_MARGIN;
    if usable < ch {
        proof {
            if usable >= 0 {
                assert((usable as int) / (ch as int) == 0) by (nonlinear_arith)
                    requires 0 <= usable < ch;
            } else {
                assert((usable as int) / (ch as int) < 0) by (nonlinear_arith)
                    requires usable < 0 < ch;
            }
        }
        1
    } else {
        proof {
            assert((usable as int) / (ch as int) >= 1) by (nonlinear_arith)
                requires usable >= ch > 0;
        }
        usable / ch
    }
}

/// The top-left corner of grid cell `index`: cells fill each column top to
/// bottom before the next column to the right.
pub open spec fn grid_position_spec(index: int, rows: int, icon_size: i32) -> (int, int) {
    (GRID_MARGIN + (index / rows) * (icon_size + 56 - 4), GRID_MARGIN + (index % rows) * (
    icon_size + 56))
}

/// The cells whose corners fit in an `i32`.
pub open spec fn grid_fits(index: int, rows: int, icon_size: i32) -> bool {
    let p = grid_position_spec(index, rows, icon_size);
    i32::MIN <= p.0 <= i32::MAX && i32::MIN <= p.1 <= i32::MAX
}

/// The top-left corner of grid cell `index`.
pub fn grid_position(index: i32, rows: i32, icon_size: i32) -> (r: (i32, i32))
    requires
        icon_size_ok(icon_size),
        0 <= index,
        rows >= 1,
        grid_fits(index as int, rows as int, icon_size),
    ensures
        r.0 == grid_position_spec(index as int, rows as int, icon_size).0,
        r.1 == grid_position_spec(index as int, rows as int, icon_size).1,
{
    let (cw, ch) = cell_size(icon_size);
    let col = index / rows;
    let row = index % rows;
    proof {
        assert(0 <= col <= index) by (nonlinear_arith)
            requires col == index / rows, index >= 0, rows >= 1;
        assert(0 <= row < rows) by (nonlinear_arith)
            requires row == index % rows, index >= 0, rows >= 1;
    }
    let x = GRID_MARGIN as i64 + (col as i64) * (cw as i64);
    let y = GRID_MARGIN as i64 + (row as i64) * (ch as i64);
    proof {
        assert(col as int * cw as int == (col as i64) * (cw as i64));
        assert(cw as int == icon_size + 56 - 4);
    }
    (x as i32, y as i32)
}

/// A grid corner as `i32` coordinates.
pub open spec fn grid_i32(index: int, rows: int, icon_size: i32) -> (i32, i32) {
    (grid_position_spec(index, rows, icon_size).0 as i32, grid_position_spec(index, rows, icon_size).1 as i32)
}

/// Every cell up to `n` fits in an `i32`.
pub open spec fn grid_fits_upto(n: int, rows: int, icon_size: i32) -> bool {
    forall|i: int| 0 <= i < n ==> #[trigger] grid_fits(i, rows, icon_size)
}

proof fn lemma_scaled_between(q: int, qmax: int, c: int)
    requires
        0 <= q <= qmax,
    ensures
        c >= 0 ==> 0 <= q * c <= qmax * c,
        c < 0 ==> qmax * c <= q * c <= 0,
{
    if c >= 0 {
        assert(0 <= q * c <= qmax * c) by (nonlinear_arith)
            requires 0 <= q <= qmax, c >= 0;
    } else {
        assert(qmax * c <= q * c <= 0) by (nonlinear_arith)
            requires 0 <= q <= qmax, c < 0;
    }
}

/// The cells up to `n` fit in an `i32` exactly when the farthest column
/// and the farthest row do.
proof fn lemma_grid_extremes(n: int, rows: int, icon_size: i32)
    requires
        n >= 1,
        rows >= 1,
    ensures
        grid_fits_upto(n, rows, icon_size) <==> (
            i32::MIN <= GRID_MARGIN + ((n - 1) / rows) * (icon_size + 52) <= i32::MAX
            && i32::MIN <= GRID_MARGIN + (if n - 1 < rows { n - 1 } else { rows - 1 }) * (icon_size + 56)
                <= i32::MAX),
{
    let qmax = (n - 1) / rows;
    let rmax = if n - 1 < rows { n - 1 } else { rows - 1 };
    let cw = icon_size + 52;
    let ch = icon_size + 56;
    assert(qmax >= 0) by (nonlinear_arith)
        requires qmax == (n - 1) / rows, n >= 1, rows >= 1;
    if grid_fits_upto(n, rows, icon_size) {
        assert(grid_fits(n - 1, rows, icon_size));
        let k = rmax;
        if n - 1 < rows {
            assert(k % rows == k) by (nonlinear_arith)
                requires 0 <= k < rows;
        } else {
            assert(k % rows == k) by (nonlinear_arith)
                requires 0 <= k < rows;
        }
        assert(grid_fits(k, rows, icon_size));
    }
    if i32::MIN <= GRID_MARGIN + qmax * cw <= i32::MAX && i32::MIN <= GRID_MARGIN + rmax * ch <= i32::MAX {
        assert forall|i: int| 0 <= i < n implies #[trigger] grid_fits(i, rows, icon_size) by {
            let q = i / rows;
            let r = i % rows;
            assert(0 <= q <= qmax) by (nonlinear_arith)
                requires q == i / rows, qmax == (n - 1) / rows, 0 <= i < n, rows >= 1;
            assert(0 <= r < rows && r <= i) by (nonlinear_arith)
                requires r == i % rows, 0 <= i, rows >= 1;
            assert(0 <= r <= rmax);
            lemma_scaled_between(q, qmax, cw);
            lemma_scaled_between(r, rmax, ch);
        }
    }
}

/// Whether `layout_positions` can lay out `n` icons in `rows` rows of
/// icons of `icon_size`: every size and grid corner fits in an `i32`.
pub fn layout_fits(n: usize, rows: i32, icon_size: i32) -> (r: bool)
    ensures
        r == (icon_size_ok(icon_size) && rows >= 1 && n <= i32::MAX && grid_fits_upto(
            n as int,
            rows as int,
            icon_size,
        )),
{
    if icon_size > i32::MAX - 56 || rows < 1 || n > 0x7fff_ffff {
        return false;
    }
    if n == 0 {
        return true;
    }
    let last = (n - 1) as i64;
    let rw = rows as i64;
    let qmax = last / rw;
    let rmax = if last < rw { last } else { rw - 1 };
    let cw = icon_size as i64 + 52;
    let ch = icon_size as i64 + 56;
    proof {
        assert(0 <= qmax <= last) by (nonlinear_arith)
            requires qmax == last / rw, last >= 0, rw >= 1;
        assert(-0x8000_0000_0000_0000 < qmax * cw < 0x8000_0000_0000_0000 - 8) by (nonlinear_arith)
            requires 0 <= qmax <= 0x7fff_ffff, -0x8000_0000 + 52 <= cw <= 0x8000_0000;
        assert(-0x8000_0000_0000_0000 < rmax * ch < 0x8000_0000_0000_0000 - 8) by (nonlinear_arith)
            requires 0 <= rmax <= 0x7fff_ffff, -0x8000_0000 + 56 <= ch <= 0x8000_0000;
        lemma_grid_extremes(n as int, rows as int, icon_size);
    }
    let x = 8 + qmax * cw;
    let y = 8 + rmax * ch;
    -0x8000_0000 <= x && x <= 0x7fff_ffff && -0x8000_0000 <= y && y <= 0x7fff_ffff
}

// ---------------------------------------------------------------------------
// laying out all icons
// ---------------------------------------------------------------------------

/// Saved positions after free placement of `names` in order: a name without
/// a saved position is given its grid cell.
pub open spec fn seeded(
    m: Map<Seq<char>, (i32, i32)>,
    names: Seq<Seq<char>>,
    rows: int,
    icon_size: i32,
) -> Map<Seq<char>, (i32, i32)>
    decreases names.len(),
{
    if names.len() == 0 {
        m
    } else {
        let m2 = seeded(m, names.drop_last(), rows, icon_size);
        let n = names.last();
        if m2.dom().contains(n) {
            m2
        } else {
            m2.insert(n, grid_i32(names.len() - 1, rows, icon_size))
        }
    }
}

/// Seeding never changes a position that is already saved, and every name
/// ends up with one.
pub proof fn lemma_seeded(m: Map<Seq<char>, (i32, i32)>, names: Seq<Seq<char>>, rows: int, icon_size: i32)
    ensures
        forall|k: Seq<char>|
            #[trigger] m.dom().contains(k) ==> seeded(m, names, rows, icon_size).dom().contains(k)
                && seeded(m, names, rows, icon_size)[k] == m[k],
        forall|i: int|
            0 <= i < names.len() ==> seeded(m, names, rows, icon_size).dom().contains(#[trigger] names[i]),
        forall|k: Seq<char>| #[trigger] seeded(m, names, rows, icon_size).dom().contains(k) ==> m.dom().contains(k)
            || names.contains(k),
    decreases names.len(),
{
    if names.len() > 0 {
        lemma_seeded(m, names.drop_last(), rows, icon_size);
        assert forall|i: int| 0 <= i < names.len() implies seeded(m, names, rows, icon_size).dom().contains(
            #[trigger] names[i],
        ) by {
            if i < names.len() - 1 {
                assert(names.drop_last()[i] == names[i]);
            }
        }
        assert forall|k: Seq<char>| #[trigger] seeded(m, names, rows, icon_size).dom().contains(k) implies m.dom().contains(k)
            || names.contains(k) by {
            if seeded(m, names.drop_last(), rows, icon_size).dom().contains(k) {
                if names.drop_last().contains(k) {
                    let j = choose|j: int| 0 <= j < names.drop_last().len() && names.drop_last()[j] == k;
                    assert(names[j] == k);
                }
            } else {
                assert(names[names.len() - 1] == k);
            }
        }
    }
}

/// Whether the usable height of the view is known yet: before the window
/// is allocated it reads as zero.
pub fn area_known(area_height: i32) -> (r: bool)
    ensures
        r == (area_height > 0),
{
    area_height > 0
}

/// Where each icon goes, in order. Automatic arrangement puts icon `i` in
/// grid cell `i` and leaves the saved positions alone; free placement uses
/// each icon's saved position and gives an icon without one its grid cell.
/// That cell is saved only once the usable area is known (`area_known`):
/// a layout made before (one column, as the height is unknown) must not
/// overwrite the saved free layout.
pub fn layout_positions(
    names: &Vec<String>,
    positions: &mut Positions,
    free: bool,
    area_known: bool,
    rows: i32,
    icon_size: i32,
) -> (r: Vec<(i32, i32)>)
    requires
        icon_size_ok(icon_size),
        rows >= 1,
        names@.len() <= i32::MAX,
        grid_fits_upto(names@.len() as int, rows as int, icon_size),
    ensures
        r@.len() == names@.len(),
        final(positions).path_view() == old(positions).path_view(),
        !free ==> final(positions)@ == old(positions)@,
        !free ==> forall|i: int| 0 <= i < r@.len() ==> #[trigger] r@[i] == grid_i32(i, rows as int, icon_size),
        free && area_known ==> final(positions)@ == seeded(
            old(positions)@,
            strings_view(names@),
            rows as int,
            icon_size,
        ),
        free && area_known ==> forall|i: int|
            0 <= i < names@.len() ==> final(positions)@.dom().contains(#[trigger] names@[i]@),
        free && area_known ==> forall|i: int|
            0 <= i < r@.len() ==> #[trigger] r@[i] == final(positions)@[names@[i]@],
        free && !area_known ==> final(positions)@ == old(positions)@,
        free && !area_known ==> forall|i: int|
            0 <= i < r@.len() ==> #[trigger] r@[i] == (if old(positions)@.dom().contains(names@[i]@) {
                old(positions)@[names@[i]@]
            } else {
                grid_i32(i, rows as int, icon_size)
            }),
{
    let ghost nv = strings_view(names@);
    let ghost m0 = positions@;
    let mut out: Vec<(i32, i32)> = Vec::new();
    let mut i: usize = 0;
    assert(nv.take(0) =~= Seq::<Seq<char>>::empty());
    while i < names.len()
        invariant
            i <= names@.len(),
            names@.len() <= i32::MAX,
            icon_size_ok(icon_size),
            rows >= 1,
            grid_fits_upto(names@.len() as int, rows as int, icon_size),
            nv == strings_view(names@),
            out@.len() == i,
            positions.path_view() == old(positions).path_view(),
            m0 == old(positions)@,
            !free ==> positions@ == m0,
            !free ==> forall|j: int| 0 <= j < i ==> #[trigger] out@[j] == grid_i32(j, rows as int, icon_size),
            free && area_known ==> positions@ == seeded(m0, nv.take(i as int), rows as int, icon_size),
            free && area_known ==> forall|j: int| 0 <= j < i ==> positions@.dom().contains(#[trigger] nv[j]),
            free && area_known ==> forall|j: int| 0 <= j < i ==> #[trigger] out@[j] == positions@[nv[j]],
            free && !area_known ==> positions@ == m0,
            free && !area_known ==> forall|j: int|
                0 <= j < i ==> #[trigger] out@[j] == (if m0.dom().contains(nv[j]) {
                    m0[nv[j]]
                } else {
                    grid_i32(j, rows as int, icon_size)
                }),
        decreases names.len() - i,
    {
        assert(grid_fits(i as int, rows as int, icon_size));
        assert(nv[i as int] == names@[i as int]@);
        let ghost before = positions@;
        let ghost old_out = out@;
        let p = if free {
            match positions.get(names[i].as_str()) {
                Some(p) => p,
                None => {
                    let g = grid_position(i as i32, rows, icon_size);
                    if area_known {
                        positions.set(names[i].as_str(), g.0, g.1);
                    }
                    g
                },
            }
        } else {
            grid_position(i as i32, rows, icon_size)
        };
        out.push(p);
        proof {
            assert(nv.take(i + 1).drop_last() =~= nv.take(i as int));
            assert(nv.take(i + 1).last() == nv[i as int]);
            if free && area_known {
                assert forall|j: int| 0 <= j < i + 1 implies positions@.dom().contains(#[trigger] nv[j]) by {
                    if j < i {
                        assert(before.dom().contains(nv[j]));
                    }
                }
                assert forall|j: int| 0 <= j < i + 1 implies #[trigger] out@[j] == positions@[nv[j]] by {
                    if j < i {
                        assert(old_out[j] == before[nv[j]]);
                        assert(before.dom().contains(nv[j]));
                        assert(out@[j] == old_out[j]);
                    }
                }
            }
        }
        i = i + 1;
    }
    assert(nv.take(names@.len() as int) =~= nv);
    assert forall|k: int| 0 <= k < names@.len() implies #[trigger] nv[k] == names@[k]@ by {}
    assert forall|k: int| 0 <= k < names@.len() && free && area_known implies positions@.dom().contains(
        #[trigger] names@[k]@,
    ) by {
        assert(nv[k] == names@[k]@);
    }
    out
}

// ---------------------------------------------------------------------------
// dragging and dropping
// ---------------------------------------------------------------------------

/// Half of `v`, rounded toward zero (integer division of Rust).
pub open spec fn half_toward_zero(v: int) -> int {
    if v >= 0 {
        v / 2
    } else {
        -((-v) / 2)
    }
}

/// Half of `v`, rounded toward zero.
fn half(v: i64) -> (r: i64)
    requires
        v > i64::MIN,
    ensures
        r == half_toward_zero(v as int),
{
    if v >= 0 {
        v / 2
    } else {
        -((-v) / 2)
    }
}

/// The cell corner for a drop at `(x, y)`: the cell is centered on the
/// pointer, clamped to the view.
pub open spec fn drop_origin_spec(x: i32, y: i32, icon_size: i32) -> (int, int) {
    let nx = x - half_toward_zero(icon_size + 52);
    let ny = y - half_toward_zero(icon_size + 56);
    (if nx > 0 { nx } else { 0 }, if ny > 0 { ny } else { 0 })
}

/// Drop points whose cell corner fits in an `i32`.
pub open spec fn drop_ok(x: i32, y: i32, icon_size: i32) -> bool {
    &&& icon_size_ok(icon_size)
    &&& i32::MIN <= x - half_toward_zero(icon_size + 52) <= i32::MAX
    &&& i32::MIN <= y - half_toward_zero(icon_size + 56) <= i32::MAX
}

/// The cell corner for a drop at `(x, y)`.
pub fn drop_origin(x: i32, y: i32, icon_size: i32) -> (r: (i32, i32))
    requires
        drop_ok(x, y, icon_size),
    ensures
        r.0 == drop_origin_spec(x, y, icon_size).0,
        r.1 == drop_origin_spec(x, y, icon_size).1,
{
    let (cw, ch) = cell_size(icon_size);
    let nx = x as i64 - half(cw as i64);
    let ny = y as i64 - half(ch as i64);
    (if nx > 0 { nx as i32 } else { 0 }, if ny > 0 { ny as i32 } else { 0 })
}

/// `v` clamped below at 0.
pub open spec fn clamp0(v: int) -> int {
    if v > 0 {
        v
    } else {
        0
    }
}

/// Where the `i`-th imported file is placed for a drop at `(x, y)`: the
/// drop cell shifted by 16 pixels per file, clamped to the view.
pub open spec fn import_position_spec(x: i32, y: i32, i: int, icon_size: i32) -> (int, int) {
    (
        clamp0(x - half_toward_zero(icon_size + 52) + i * 16),
        clamp0(y - half_toward_zero(icon_size + 56) + i * 16),
    )
}

/// The `i`-th file of a drop at `(x, y)` lands at a position that fits in
/// an `i32`.
pub open spec fn import_ok(x: i32, y: i32, i: int, icon_size: i32) -> bool {
    &&& icon_size_ok(icon_size)
    &&& 0 <= i
    &&& i32::MIN <= x - half_toward_zero(icon_size + 52) + i * 16 <= i32::MAX
    &&& i32::MIN <= y - half_toward_zero(icon_size + 56) + i * 16 <= i32::MAX
}

/// Where the `i`-th imported file is placed for a drop at `(x, y)`.
pub fn import_position(x: i32, y: i32, i: i32, icon_size: i32) -> (r: (i32, i32))
    requires
        import_ok(x, y, i as int, icon_size),
    ensures
        r.0 == import_position_spec(x, y, i as int, icon_size).0,
        r.1 == import_position_spec(x, y, i as int, icon_size).1,
{
    let (cw, ch) = cell_size(icon_size);
    let ax = x as i64 - half(cw as i64) + (i as i64) * 16;
    let ay = y as i64 - half(ch as i64) + (i as i64) * 16;
    (if ax > 0 { ax as i32 } else { 0 }, if ay > 0 { ay as i32 } else { 0 })
}

/// The positions of a dragged group dropped with its anchor at `(nx, ny)`:
/// each member still on the desktop moves by its offset from the anchor,
/// clamped to the view.
pub open spec fn group_moves_spec(
    group: Seq<(Seq<char>, i32, i32)>,
    names: Seq<Seq<char>>,
    nx: i32,
    ny: i32,
) -> Seq<(Seq<char>, int, int)>
    decreases group.len(),
{
    if group.len() == 0 {
        seq![]
    } else {
        let g = group.last();
        let rest = group_moves_spec(group.drop_last(), names, nx, ny);
        if names.contains(g.0) {
            rest.push((g.0, clamp0(nx + g.1), clamp0(ny + g.2)))
        } else {
            rest
        }
    }
}

/// A dragged group as plain values.
pub open spec fn group_view(g: Seq<(String, i32, i32)>) -> Seq<(Seq<char>, i32, i32)> {
    g.map_values(|e: (String, i32, i32)| (e.0@, e.1, e.2))
}

/// Moves as plain values.
pub open spec fn moves_view(m: Seq<(String, i32, i32)>) -> Seq<(Seq<char>, int, int)> {
    m.map_values(|e: (String, i32, i32)| (e.0@, e.1 as int, e.2 as int))
}

/// `m` with every move applied in order.
pub open spec fn apply_moves(m: Map<Seq<char>, (i32, i32)>, mv: Seq<(Seq<char>, int, int)>) -> Map<
    Seq<char>,
    (i32, i32),
>
    decreases mv.len(),
{
    if mv.len() == 0 {
        m
    } else {
        apply_moves(m, mv.drop_last()).insert(mv.last().0, (mv.last().1 as i32, mv.last().2 as i32))
    }
}

/// A dropped group never leaves the view: every member still on the
/// desktop lands at its offset from the drop cell, each coordinate raised
/// to 0 when it would fall left of or above the view, so every move has
/// both coordinates non-negative, and only members still on the desktop
/// move.
pub proof fn law_group_drop_stays_in_view(
    group: Seq<(Seq<char>, i32, i32)>,
    names: Seq<Seq<char>>,
    nx: i32,
    ny: i32,
)
    ensures
        forall|i: int|
            0 <= i < group_moves_spec(group, names, nx, ny).len() ==> 0 <= (#[trigger] group_moves_spec(
                group,
                names,
                nx,
                ny,
            )[i]).1 && 0 <= group_moves_spec(group, names, nx, ny)[i].2,
        forall|i: int|
            0 <= i < group_moves_spec(group, names, nx, ny).len() ==> names.contains(
                (#[trigger] group_moves_spec(group, names, nx, ny)[i]).0,
            ),
        forall|k: int|
            0 <= k < group.len() && names.contains(#[trigger] group[k].0) ==> exists|i: int|
                0 <= i < group_moves_spec(group, names, nx, ny).len() && #[trigger] group_moves_spec(
                    group,
                    names,
                    nx,
                    ny,
                )[i] == (group[k].0, if nx + group[k].1 > 0 {
                    nx + group[k].1
                } else {
                    0
                }, if ny + group[k].2 > 0 {
                    ny + group[k].2
                } else {
                    0
                }),
    decreases group.len(),
{
    if group.len() > 0 {
        let g = group.last();
        let pre = group.drop_last();
        law_group_drop_stays_in_view(pre, names, nx, ny);
        let rest = group_moves_spec(pre, names, nx, ny);
        let mv = group_moves_spec(group, names, nx, ny);
        assert forall|k: int| 0 <= k < group.len() && names.contains(#[trigger] group[k].0) implies exists|i: int|
            0 <= i < mv.len() && #[trigger] mv[i] == (group[k].0, if nx + group[k].1 > 0 {
                nx + group[k].1
            } else {
                0
            }, if ny + group[k].2 > 0 {
                ny + group[k].2
            } else {
                0
            }) by {
            if k < group.len() - 1 {
                assert(pre[k] == group[k]);
                let i = choose|i: int|
                    0 <= i < rest.len() && #[trigger] rest[i] == (pre[k].0, if nx + pre[k].1 > 0 {
                        nx + pre[k].1
                    } else {
                        0
                    }, if ny + pre[k].2 > 0 {
                        ny + pre[k].2
                    } else {
                        0
                    });
                assert(mv[i] == rest[i]);
            } else {
                assert(mv[rest.len() as int] == (g.0, clamp0(nx + g.1), clamp0(ny + g.2)));
            }
        }
    }
}

/// Dropping a group saves only positions inside the view: after the moves
/// are applied, every member that moved is recorded at non-negative
/// coordinates, whatever the store held before.
pub proof fn law_group_drop_saves_in_view(
    base: Map<Seq<char>, (i32, i32)>,
    group: Seq<(Seq<char>, i32, i32)>,
    names: Seq<Seq<char>>,
    nx: i32,
    ny: i32,
)
    requires
        forall|k: int| 0 <= k < group.len() ==> nx + (#[trigger] group[k]).1 <= i32::MAX && ny + group[k].2 <= i32::MAX,
    ensures
        forall|i: int|
            0 <= i < group_moves_spec(group, names, nx, ny).len() ==> ({
                let n = (#[trigger] group_moves_spec(group, names, nx, ny)[i]).0;
                let saved = apply_moves(base, group_moves_spec(group, names, nx, ny));
                &&& saved.dom().contains(n)
                &&& 0 <= saved[n].0
                &&& 0 <= saved[n].1
            }),
{
    lemma_group_moves_fit(group, names, nx, ny);
    lemma_applied_moves_in_view(base, group_moves_spec(group, names, nx, ny));
}

/// Every move of a dropped group lies between 0 and `i32::MAX`.
proof fn lemma_group_moves_fit(group: Seq<(Seq<char>, i32, i32)>, names: Seq<Seq<char>>, nx: i32, ny: i32)
    requires
        forall|k: int| 0 <= k < group.len() ==> nx + (#[trigger] group[k]).1 <= i32::MAX && ny + group[k].2 <= i32::MAX,
    ensures
        forall|i: int|
            0 <= i < group_moves_spec(group, names, nx, ny).len() ==> 0 <= (#[trigger] group_moves_spec(
                group,
                names,
                nx,
                ny,
            )[i]).1 <= i32::MAX && 0 <= group_moves_spec(group, names, nx, ny)[i].2 <= i32::MAX,
    decreases group.len(),
{
    if group.len() > 0 {
        let pre = group.drop_last();
        assert forall|k: int| 0 <= k < pre.len() implies nx + (#[trigger] pre[k]).1 <= i32::MAX && ny + pre[k].2
            <= i32::MAX by {
            assert(pre[k] == group[k]);
        }
        lemma_group_moves_fit(pre, names, nx, ny);
        assert(group.last() == group[group.len() - 1]);
        let rest = group_moves_spec(pre, names, nx, ny);
        let mv = group_moves_spec(group, names, nx, ny);
        assert forall|i: int| 0 <= i < mv.len() implies 0 <= (#[trigger] mv[i]).1 <= i32::MAX && 0 <= mv[i].2
            <= i32::MAX by {
            if i < rest.len() {
                assert(mv[i] == rest[i]);
            }
        }
    }
}

/// Applying moves that lie between 0 and `i32::MAX` records each moved name
/// at non-negative coordinates.
proof fn lemma_applied_moves_in_view(base: Map<Seq<char>, (i32, i32)>, mv: Seq<(Seq<char>, int, int)>)
    requires
        forall|i: int| 0 <= i < mv.len() ==> 0 <= (#[trigger] mv[i]).1 <= i32::MAX && 0 <= mv[i].2 <= i32::MAX,
    ensures
        forall|i: int|
            0 <= i < mv.len() ==> ({
                let n = (#[trigger] mv[i]).0;
                &&& apply_moves(base, mv).dom().contains(n)
                &&& 0 <= apply_moves(base, mv)[n].0
                &&& 0 <= apply_moves(base, mv)[n].1
            }),
    decreases mv.len(),
{
    if mv.len() > 0 {
        let pre = mv.drop_last();
        assert forall|i: int| 0 <= i < pre.len() implies 0 <= (#[trigger] pre[i]).1 <= i32::MAX && 0 <= pre[i].2
            <= i32::MAX by {
            assert(pre[i] == mv[i]);
        }
        lemma_applied_moves_in_view(base, pre);
        let l = mv.last();
        assert(l == mv[mv.len() - 1]);
        assert forall|i: int| 0 <= i < mv.len() implies ({
            let n = (#[trigger] mv[i]).0;
            &&& apply_moves(base, mv).dom().contains(n)
            &&& 0 <= apply_moves(base, mv)[n].0
            &&& 0 <= apply_moves(base, mv)[n].1
        }) by {
            if i < mv.len() - 1 && mv[i].0 != l.0 {
                assert(pre[i] == mv[i]);
            }
        }
    }
}

/// A single dragged icon is dropped inside the view: its cell corner has
/// non-negative coordinates.
pub proof fn law_drop_origin_in_view(x: i32, y: i32, icon_size: i32)
    ensures
        0 <= drop_origin_spec(x, y, icon_size).0,
        0 <= drop_origin_spec(x, y, icon_size).1,
{
}

fn contains_name(names: &Vec<String>, n: &String) -> (r: bool)
    ensures
        r == strings_view(names@).contains(n@),
{
    let mut i: usize = 0;
    while i < names.len()
        invariant
            i <= names@.len(),
            forall|j: int| 0 <= j < i ==> names@[j]@ != n@,
        decreases names.len() - i,
    {
        if names[i] == *n {
            assert(strings_view(names@)[i as int] == n@);
            return true;
        }
        i = i + 1;
    }
    proof {
        if strings_view(names@).contains(n@) {
            let j = choose|j: int| 0 <= j < strings_view(names@).len() && strings_view(names@)[j] == n@;
            assert(names@[j]@ == n@);
        }
    }
    false
}

/// Whether a drop at `(x, y)` is one `drop_origin` and `reposition_drop`
/// accept.
pub fn drop_fits(x: i32, y: i32, icon_size: i32) -> (r: bool)
    ensures
        r == drop_ok(x, y, icon_size),
{
    if icon_size > i32::MAX - 56 {
        return false;
    }
    let nx = x as i64 - half(icon_size as i64 + 52);
    let ny = y as i64 - half(icon_size as i64 + 56);
    -0x8000_0000 <= nx && nx <= 0x7fff_ffff && -0x8000_0000 <= ny && ny <= 0x7fff_ffff
}

/// Whether every member of a dragged group lands at a position that fits
/// in an `i32` when the group is dropped at `(x, y)`.
pub fn group_fits(x: i32, y: i32, icon_size: i32, group: &Vec<(String, i32, i32)>) -> (r: bool)
    requires
        drop_ok(x, y, icon_size),
    ensures
        r == forall|i: int|
            0 <= i < group@.len() ==> i32::MIN <= drop_origin_spec(x, y, icon_size).0 + (#[trigger] group@[i]).1
                <= i32::MAX && i32::MIN <= drop_origin_spec(x, y, icon_size).1 + group@[i].2 <= i32::MAX,
{
    let (nx, ny) = drop_origin(x, y, icon_size);
    let mut i: usize = 0;
    while i < group.len()
        invariant
            i <= group@.len(),
            nx == drop_origin_spec(x, y, icon_size).0,
            ny == drop_origin_spec(x, y, icon_size).1,
            forall|k: int|
                0 <= k < i ==> i32::MIN <= nx + (#[trigger] group@[k]).1 <= i32::MAX && i32::MIN <= ny
                    + group@[k].2 <= i32::MAX,
        decreases group.len() - i,
    {
        let gx = nx as i64 + group[i].1 as i64;
        let gy = ny as i64 + group[i].2 as i64;
        if gx < -0x8000_0000 || gx > 0x7fff_ffff || gy < -0x8000_0000 || gy > 0x7fff_ffff {
            return false;
        }
        i = i + 1;
    }
    true
}

/// Whether `import_position` accepts the `i`-th file of a drop at `(x, y)`.
pub fn import_fits(x: i32, y: i32, i: i32, icon_size: i32) -> (r: bool)
    ensures
        r == import_ok(x, y, i as int, icon_size),
{
    if icon_size > i32::MAX - 56 || i < 0 {
        return false;
    }
    let ax = x as i64 - half(icon_size as i64 + 52) + i as i64 * 16;
    let ay = y as i64 - half(icon_size as i64 + 56) + i as i64 * 16;
    -0x8000_0000 <= ax && ax <= 0x7fff_ffff && -0x8000_0000 <= ay && ay <= 0x7fff_ffff
}

/// The result of dropping an icon dragged within the desktop.
pub struct DropOutcome {
    /// The arrangement switched from automatic to free placement.
    pub switched_to_free: bool,
    /// The icons to move, with their new positions.
    pub moves: Vec<(String, i32, i32)>,
}

/// Drops icons dragged within the desktop at `(x, y)`: switches to free
/// placement (saving every icon's grid cell that has no position) when the
/// arrangement was automatic, then places the dragged icon, or each member
/// of a dragged group by its offset, and saves the new positions.
pub fn reposition_drop(
    settings: &mut crate::config::Settings,
    positions: &mut Positions,
    names: &Vec<String>,
    rows: i32,
    item: &String,
    group: Option<&Vec<(String, i32, i32)>>,
    x: i32,
    y: i32,
) -> (r: DropOutcome)
    requires
        drop_ok(x, y, old(settings).icon_size),
        rows >= 1,
        names@.len() <= i32::MAX,
        grid_fits_upto(names@.len() as int, rows as int, old(settings).icon_size),
        group matches Some(g) ==> forall|i: int|
            0 <= i < g@.len() ==> i32::MIN <= drop_origin_spec(x, y, old(settings).icon_size).0 + (
            #[trigger] g@[i]).1 <= i32::MAX && i32::MIN <= drop_origin_spec(x, y, old(settings).icon_size).1
                + g@[i].2 <= i32::MAX,
    ensures
        r.switched_to_free == (old(settings).arrange_mode@ != "free"@),
        final(settings)@ == (crate::config::SettingsView { arrange_mode: "free"@, ..old(settings)@ }),
        final(positions).path_view() == old(positions).path_view(),
        ({
            let base = if r.switched_to_free {
                seeded(old(positions)@, strings_view(names@), rows as int, old(settings).icon_size)
            } else {
                old(positions)@
            };
            let o = drop_origin_spec(x, y, old(settings).icon_size);
            let mv = match group {
                Some(g) => group_moves_spec(group_view(g@), strings_view(names@), o.0 as i32, o.1 as i32),
                None => seq![(item@, o.0, o.1)],
            };
            &&& moves_view(r.moves@) == mv
            &&& final(positions)@ == apply_moves(base, mv)
        }),
{
    proof {
        reveal_strlit("free");
    }
    let icon_size = settings.icon_size;
    let free_w = chars_of("free");
    let cur = chars_of(settings.arrange_mode.as_str());
    let switched = !crate::text::chars_eq(&cur, &free_w);
    if switched {
        settings.arrange_mode = String::from_str("free");
        let _ = layout_positions(names, positions, true, true, rows, icon_size);
    } else {
        assert(settings.arrange_mode@ == "free"@);
    }
    let ghost base = positions@;
    let (nx, ny) = drop_origin(x, y, icon_size);
    let mut moves: Vec<(String, i32, i32)> = Vec::new();
    match group {
        Some(g) => {
            let ghost gv = group_view(g@);
            let ghost nv = strings_view(names@);
            let mut i: usize = 0;
            assert(gv.take(0) =~= Seq::<(Seq<char>, i32, i32)>::empty());
            assert(moves_view(moves@) =~= Seq::<(Seq<char>, int, int)>::empty());
            while i < g.len()
                invariant
                    i <= g@.len(),
                    gv == group_view(g@),
                    nv == strings_view(names@),
                    nx == drop_origin_spec(x, y, icon_size).0,
                    ny == drop_origin_spec(x, y, icon_size).1,
                    forall|k: int|
                        0 <= k < g@.len() ==> i32::MIN <= nx + (#[trigger] g@[k]).1 <= i32::MAX
                            && i32::MIN <= ny + g@[k].2 <= i32::MAX,
                    moves_view(moves@) == group_moves_spec(gv.take(i as int), nv, nx, ny),
                    positions@ == apply_moves(base, group_moves_spec(gv.take(i as int), nv, nx, ny)),
                    positions.path_view() == old(positions).path_view(),
                decreases g.len() - i,
            {
                let (fname, ox, oy) = &g[i];
                let ghost mv0 = group_moves_spec(gv.take(i as int), nv, nx, ny);
                proof {
                    assert(gv.take(i + 1).drop_last() =~= gv.take(i as int));
                    assert(gv.take(i + 1).last() == (fname@, *ox, *oy));
                }
                if contains_name(names, fname) {
                    let sx = nx as i64 + *ox as i64;
                    let sy = ny as i64 + *oy as i64;
                    let gx: i32 = if sx > 0 { sx as i32 } else { 0 };
                    let gy: i32 = if sy > 0 { sy as i32 } else { 0 };
                    positions.set(fname.as_str(), gx, gy);
                    let ghost mb = moves@;
                    moves.push((fname.clone(), gx, gy));
                    proof {
                        assert(moves_view(moves@) =~= moves_view(mb).push((fname@, gx as int, gy as int)));
                        let mv1 = group_moves_spec(gv.take(i + 1), nv, nx, ny);
                        assert(mv1 == mv0.push((fname@, clamp0(nx + *ox), clamp0(ny + *oy))));
                        assert(mv1.drop_last() =~= mv0);
                    }
                }
                i = i + 1;
            }
            assert(gv.take(g@.len() as int) =~= gv);
        },
        None => {
            positions.set(item.as_str(), nx, ny);
            moves.push((item.clone(), nx, ny));
            proof {
                let mv = seq![(item@, nx as int, ny as int)];
                assert(moves_view(moves@) =~= mv);
                assert(mv.drop_last() =~= Seq::<(Seq<char>, int, int)>::empty());
                assert(apply_moves(base, mv) == apply_moves(base, Seq::<(Seq<char>, int, int)>::empty()).insert(item@, (nx, ny)));
            }
        },
    }
    DropOutcome { switched_to_free: switched, moves }
}

// ---------------------------------------------------------------------------
// keyboard navigation
// ---------------------------------------------------------------------------

/// How far icon `c` lies in direction `(dx, dy)` from the current icon at
/// `cur` and how far off that axis, both doubled (centres are given as
/// twice their coordinates, so every value is an integer); `None` for a
/// direction other than the four arrows.
pub open spec fn direction_parts(cur: (i64, i64), c: (i64, i64), dx: i32, dy: i32) -> Option<(int, int)> {
    let ax = c.0 - cur.0;
    let ay = c.1 - cur.1;
    let abs_x = if ax >= 0 { ax } else { -ax };
    let abs_y = if ay >= 0 { ay } else { -ay };
    if dx == 1 && dy == 0 {
        Some((ax, abs_y))
    } else if dx == -1 && dy == 0 {
        Some((-ax, abs_y))
    } else if dx == 0 && dy == 1 {
        Some((ay, abs_x))
    } else if dx == 0 && dy == -1 {
        Some((-ay, abs_x))
    } else {
        None
    }
}

/// Whether icon `k` is a candidate: another icon with known bounds lying
/// more than one pixel in the requested direction.
pub open spec fn is_candidate(centres: Seq<Option<(i64, i64)>>, cur: int, k: int, dx: i32, dy: i32) -> bool {
    &&& 0 <= k < centres.len()
    &&& k != cur
    &&& centres[k] is Some
    &&& direction_parts(centres[cur]->0, centres[k]->0, dx, dy) matches Some(p) && p.0 > 2
}

/// The (doubled) score of a candidate: the distance along the direction
/// plus twice the distance off it.
pub open spec fn score(centres: Seq<Option<(i64, i64)>>, cur: int, k: int, dx: i32, dy: i32) -> int {
    let p = direction_parts(centres[cur]->0, centres[k]->0, dx, dy)->0;
    p.0 + 2 * p.1
}

/// Centres small enough that every score fits comfortably in an `i64`.
pub open spec fn centres_ok(centres: Seq<Option<(i64, i64)>>) -> bool {
    forall|k: int|
        0 <= k < centres.len() ==> (#[trigger] centres[k] matches Some(c) ==> -0x1000_0000_0000 <= c.0
            <= 0x1000_0000_0000 && -0x1000_0000_0000 <= c.1 <= 0x1000_0000_0000)
}

/// Whether icon centres are small enough for `move_target`.
pub fn centres_fit(centres: &Vec<Option<(i64, i64)>>) -> (r: bool)
    ensures
        r == centres_ok(centres@),
{
    let mut i: usize = 0;
    while i < centres.len()
        invariant
            i <= centres@.len(),
            forall|k: int|
                0 <= k < i ==> (#[trigger] centres@[k] matches Some(c) ==> -0x1000_0000_0000 <= c.0
                    <= 0x1000_0000_0000 && -0x1000_0000_0000 <= c.1 <= 0x1000_0000_0000),
        decreases centres.len() - i,
    {
        match centres[i] {
            Some(c) => {
                if c.0 < -0x1000_0000_0000 || c.0 > 0x1000_0000_0000 || c.1 < -0x1000_0000_0000 || c.1
                    > 0x1000_0000_0000 {
                    return false;
                }
            },
            None => {},
        }
        i = i + 1;
    }
    true
}

/// What `move_target` answers: the candidate with the smallest score, the
/// first of equals, or `None` when there is no candidate.
pub open spec fn is_move_choice(
    centres: Seq<Option<(i64, i64)>>,
    cur: int,
    dx: i32,
    dy: i32,
    r: Option<usize>,
) -> bool {
    match r {
        Some(j) => {
            &&& is_candidate(centres, cur, j as int, dx, dy)
            &&& forall|k: int| #[trigger] is_candidate(centres, cur, k, dx, dy) ==> score(
                centres,
                cur,
                j as int,
                dx,
                dy,
            ) <= score(centres, cur, k, dx, dy)
            &&& forall|k: int| 0 <= k < j && #[trigger] is_candidate(centres, cur, k, dx, dy) ==> score(
                centres,
                cur,
                j as int,
                dx,
                dy,
            ) < score(centres, cur, k, dx, dy)
        },
        None => forall|k: int| !#[trigger] is_candidate(centres, cur, k, dx, dy),
    }
}

/// The icon an arrow key moves the selection to: among the other icons
/// lying in that direction, the one with the smallest score (the first of
/// equals); `None` when no icon lies that way.
pub fn move_target(centres: &Vec<Option<(i64, i64)>>, cur: usize, dx: i32, dy: i32) -> (r: Option<usize>)
    requires
        cur < centres@.len(),
        centres@[cur as int] is Some,
        centres_ok(centres@),
    ensures
        is_move_choice(centres@, cur as int, dx, dy, r),
{
    let c0 = centres[cur].unwrap();
    assert(centres@[cur as int] matches Some(c) && -0x1000_0000_0000 <= c.0 <= 0x1000_0000_0000);
    let mut best: Option<(i64, usize)> = None;
    let mut i: usize = 0;
    while i < centres.len()
        invariant
            i <= centres@.len(),
            cur < centres@.len(),
            centres@[cur as int] == Some(c0),
            centres_ok(centres@),
            -0x1000_0000_0000 <= c0.0 <= 0x1000_0000_0000,
            -0x1000_0000_0000 <= c0.1 <= 0x1000_0000_0000,
            match best {
                Some((s, j)) => {
                    &&& j < i
                    &&& is_candidate(centres@, cur as int, j as int, dx, dy)
                    &&& s == score(centres@, cur as int, j as int, dx, dy)
                    &&& forall|k: int| 0 <= k < i && #[trigger] is_candidate(centres@, cur as int, k, dx, dy)
                        ==> s <= score(centres@, cur as int, k, dx, dy)
                    &&& forall|k: int| 0 <= k < j && #[trigger] is_candidate(centres@, cur as int, k, dx, dy)
                        ==> s < score(centres@, cur as int, k, dx, dy)
                },
                None => forall|k: int| 0 <= k < i ==> !#[trigger] is_candidate(centres@, cur as int, k, dx, dy),
            },
        decreases centres.len() - i,
    {
        if i != cur {
            match centres[i] {
                Some(c) => {
                    assert(centres@[i as int] matches Some(cc) && -0x1000_0000_0000 <= cc.0
                        <= 0x1000_0000_0000 && -0x1000_0000_0000 <= cc.1 <= 0x1000_0000_0000);
                    let ax = c.0 - c0.0;
                    let ay = c.1 - c0.1;
                    let abs_x = if ax >= 0 { ax } else { -ax };
                    let abs_y = if ay >= 0 { ay } else { -ay };
                    let parts: Option<(i64, i64)> = if dx == 1 && dy == 0 {
                        Some((ax, abs_y))
                    } else if dx == -1 && dy == 0 {
                        Some((-ax, abs_y))
                    } else if dx == 0 && dy == 1 {
                        Some((ay, abs_x))
                    } else if dx == 0 && dy == -1 {
                        Some((-ay, abs_x))
                    } else {
                        None
                    };
                    match parts {
                        Some((main, off)) => {
                            if main > 2 {
                                let sc = main + 2 * off;
                                assert(is_candidate(centres@, cur as int, i as int, dx, dy));
                                assert(sc == score(centres@, cur as int, i as int, dx, dy));
                                let better = match best {
                                    Some((s, _)) => sc < s,
                                    None => true,
                                };
                                if better {
                                    best = Some((sc, i));
                                }
                            }
                        },
                        None => {},
                    }
                },
                None => {},
            }
        }
        i = i + 1;
    }
    match best {
        Some((_, j)) => Some(j),
        None => None,
    }
}

/// The four arrow directions.
pub open spec fn is_arrow(dx: i32, dy: i32) -> bool {
    ||| dx == 1 && dy == 0
    ||| dx == -1 && dy == 0
    ||| dx == 0 && dy == 1
    ||| dx == 0 && dy == -1
}

/// How far the point `c` lies from `o` in the direction of the arrow
/// `(dx, dy)` (negative when it lies the other way).
pub open spec fn along_arrow(o: (i64, i64), c: (i64, i64), dx: i32, dy: i32) -> int {
    if dx == 1 {
        c.0 - o.0
    } else if dx == -1 {
        o.0 - c.0
    } else if dy == 1 {
        c.1 - o.1
    } else {
        o.1 - c.1
    }
}

/// How far the point `c` lies off the line through `o` along the arrow
/// `(dx, dy)`.
pub open spec fn across_arrow(o: (i64, i64), c: (i64, i64), dx: i32, dy: i32) -> int {
    let d = if dx != 0 {
        c.1 - o.1
    } else {
        c.0 - o.0
    };
    if d >= 0 {
        d
    } else {
        -d
    }
}

/// An arrow key moves the selection to the nearest other icon lying that
/// way (more than one pixel along the arrow): no icon that way has a
/// smaller distance along the arrow plus twice the distance off it, so of
/// two icons equally far along the arrow the one nearer its line wins; of
/// equals the first wins; when no icon lies that way nothing is chosen.
pub proof fn law_move_target_nearest(
    centres: Seq<Option<(i64, i64)>>,
    cur: int,
    dx: i32,
    dy: i32,
    r: Option<usize>,
)
    requires
        0 <= cur < centres.len(),
        centres[cur] is Some,
        is_arrow(dx, dy),
        is_move_choice(centres, cur, dx, dy, r),
    ensures
        ({
            let o = centres[cur]->0;
            match r {
                Some(j) => {
                    let cj = centres[j as int]->0;
                    &&& j < centres.len()
                    &&& j != cur
                    &&& centres[j as int] is Some
                    &&& along_arrow(o, cj, dx, dy) > 2
                    &&& forall|k: int|
                        0 <= k < centres.len() && k != cur && #[trigger] centres[k] is Some && along_arrow(
                            o,
                            centres[k]->0,
                            dx,
                            dy,
                        ) > 2 ==> along_arrow(o, cj, dx, dy) + 2 * across_arrow(o, cj, dx, dy) <= along_arrow(
                            o,
                            centres[k]->0,
                            dx,
                            dy,
                        ) + 2 * across_arrow(o, centres[k]->0, dx, dy)
                    &&& forall|k: int|
                        0 <= k < centres.len() && k != cur && #[trigger] centres[k] is Some && along_arrow(
                            o,
                            centres[k]->0,
                            dx,
                            dy,
                        ) == along_arrow(o, cj, dx, dy) ==> across_arrow(o, cj, dx, dy) <= across_arrow(
                            o,
                            centres[k]->0,
                            dx,
                            dy,
                        )
                    &&& forall|k: int|
                        0 <= k < j && k != cur && #[trigger] centres[k] is Some && along_arrow(
                            o,
                            centres[k]->0,
                            dx,
                            dy,
                        ) > 2 ==> along_arrow(o, cj, dx, dy) + 2 * across_arrow(o, cj, dx, dy) < along_arrow(
                            o,
                            centres[k]->0,
                            dx,
                            dy,
                        ) + 2 * across_arrow(o, centres[k]->0, dx, dy)
                },
                None => forall|k: int|
                    0 <= k < centres.len() && k != cur && #[trigger] centres[k] is Some ==> along_arrow(
                        o,
                        centres[k]->0,
                        dx,
                        dy,
                    ) <= 2,
            }
        }),
{
    let o = centres[cur]->0;
    assert forall|k: int| 0 <= k < centres.len() && #[trigger] centres[k] is Some implies ({
        let ck = centres[k]->0;
        &&& direction_parts(o, ck, dx, dy) == Some((along_arrow(o, ck, dx, dy), across_arrow(o, ck, dx, dy)))
        &&& (k != cur && along_arrow(o, ck, dx, dy) > 2 <==> is_candidate(centres, cur, k, dx, dy))
        &&& score(centres, cur, k, dx, dy) == along_arrow(o, ck, dx, dy) + 2 * across_arrow(o, ck, dx, dy)
    }) by {}
    match r {
        Some(j) => {
            assert(is_candidate(centres, cur, j as int, dx, dy));
            assert forall|k: int|
                0 <= k < centres.len() && k != cur && #[trigger] centres[k] is Some && along_arrow(
                    o,
                    centres[k]->0,
                    dx,
                    dy,
                ) > 2 implies is_candidate(centres, cur, k, dx, dy) by {}
        },
        None => {
            assert forall|k: int| 0 <= k < centres.len() && k != cur && #[trigger] centres[k] is Some implies along_arrow(
                o,
                centres[k]->0,
                dx,
                dy,
            ) <= 2 by {
                assert(!is_candidate(centres, cur, k, dx, dy));
            }
        },
    }
}

/// A key other than the four arrows never moves the selection.
pub proof fn law_move_target_other_keys(
    centres: Seq<Option<(i64, i64)>>,
    cur: int,
    dx: i32,
    dy: i32,
    r: Option<usize>,
)
    requires
        !is_arrow(dx, dy),
        is_move_choice(centres, cur, dx, dy, r),
    ensures
        r is None,
{
    if let Some(j) = r {
        assert(is_candidate(centres, cur, j as int, dx, dy));
    }
}

// ---------------------------------------------------------------------------
// labels and clicks
// ---------------------------------------------------------------------------

/// The horizontal ellipsis.
pub open spec fn ellipsis() -> char {
    '\u{2026}'
}

/// A label cut to `limit` characters: unchanged when it fits, otherwise its
/// first `limit` characters followed by `…`.
pub open spec fn truncate_spec(text: Seq<char>, limit: nat) -> Seq<char> {
    if text.len() <= limit {
        text
    } else {
        text.take(limit as int).push(ellipsis())
    }
}

/// `truncate`: shortens an icon label.
pub fn truncate(text: &str, limit: usize) -> (r: String)
    ensures
        r@ == truncate_spec(text@, limit as nat),
{
    let cs = chars_of(text);
    if cs.len() <= limit {
        return string_from_chars(&cs);
    }
    let mut v = slice_chars(&cs, 0, limit);
    v.push('\u{2026}');
    string_from_chars(&v)
}

/// Whether a primary-button release with `n_press` clicks launches the item:
/// one click in single-click mode, two otherwise.
pub fn click_launches(launch_single_click: bool, n_press: i32) -> (r: bool)
    ensures
        r == (n_press == (if launch_single_click { 1i32 } else { 2i32 })),
{
    let launch_at = if launch_single_click { 1 } else { 2 };
    n_press == launch_at
}

// ---------------------------------------------------------------------------
// laws
// ---------------------------------------------------------------------------

/// Different icons never share a grid cell (for any icon size whose cells
/// have a width, and a height when there is more than one row).
pub proof fn law_grid_cells_distinct(i: int, j: int, rows: int, icon_size: i32)
    requires
        0 <= i,
        0 <= j,
        i != j,
        rows >= 1,
        icon_size + 52 != 0,
        rows == 1 || icon_size + 56 != 0,
    ensures
        grid_position_spec(i, rows, icon_size) != grid_position_spec(j, rows, icon_size),
{
    let cw = icon_size + 52;
    let ch = icon_size + 56;
    if i / rows == j / rows && i % rows == j % rows {
        assert(i == rows * (i / rows) + i % rows) by (nonlinear_arith)
            requires rows >= 1;
        assert(j == rows * (j / rows) + j % rows) by (nonlinear_arith)
            requires rows >= 1;
    } else if i / rows != j / rows {
        assert((i / rows) * cw != (j / rows) * cw) by (nonlinear_arith)
            requires i / rows != j / rows, cw != 0;
    } else {
        if rows == 1 {
            assert(i % rows == 0 && j % rows == 0) by (nonlinear_arith)
                requires rows == 1;
        }
        assert((i % rows) * ch != (j % rows) * ch) by (nonlinear_arith)
            requires i % rows != j % rows, ch != 0;
    }
}

/// The grid fills the first column top to bottom: the first `rows` icons sit
/// at the left margin, one cell height apart, and icon `rows` starts the
/// second column at the top.
pub proof fn law_grid_column_major(i: int, rows: int, icon_size: i32)
    requires
        0 <= i < rows,
    ensures
        grid_position_spec(i, rows, icon_size) == (GRID_MARGIN as int, GRID_MARGIN + i * (icon_size + 56)),
        grid_position_spec(rows, rows, icon_size) == (GRID_MARGIN + (icon_size + 52), GRID_MARGIN as int),
{
    assert(i / rows == 0 && i % rows == i) by (nonlinear_arith)
        requires 0 <= i < rows;
    assert(rows / rows == 1 && rows % rows == 0) by (nonlinear_arith)
        requires 0 < rows;
}

/// Free placement keeps every saved position, gives every laid-out icon one,
/// and adds none for other names.
pub proof fn law_free_layout_keeps_positions(
    m: Map<Seq<char>, (i32, i32)>,
    names: Seq<Seq<char>>,
    rows: int,
    icon_size: i32,
)
    ensures
        forall|k: Seq<char>|
            #[trigger] m.dom().contains(k) ==> seeded(m, names, rows, icon_size).dom().contains(k)
                && seeded(m, names, rows, icon_size)[k] == m[k],
        forall|i: int|
            0 <= i < names.len() ==> seeded(m, names, rows, icon_size).dom().contains(#[trigger] names[i]),
        forall|k: Seq<char>| #[trigger] seeded(m, names, rows, icon_size).dom().contains(k) ==> m.dom().contains(k)
            || names.contains(k),
{
    lemma_seeded(m, names, rows, icon_size);
}

} // verus!
