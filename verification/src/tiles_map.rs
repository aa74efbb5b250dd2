//! The tile layer: one coordinated batch for each diagonal of the grid and
//! each terrain sprite, kept in step with what is known of the map.
//!
//! Every cell has its entry from construction on, dark until the cell is
//! revealed. Diagonals are painted in ascending order, so that nearer cells
//! cover farther ones.

use vstd::prelude::*;
use crate::coordinated::{lemma_slot_unique, slot_of, swap_removed, CoordinatedInstance, DrawEntry, Tint, VisualizerError};
use crate::geometry::{diagonal_count, grid_cells, iso, tile_position, Point, MAX_MAP_SIZE, SPRITE_UNITS, STEP_Y};
use crate::textures::{tile_texture, Texture, BLOCK_COUNT};
use crate::tile::{is_square, Tile};

verus! {

/// Number of entries in the batches of one diagonal.
pub open spec fn row_total(row: Seq<CoordinatedInstance>) -> nat
    decreases row.len(),
{
    if row.len() == 0 {
        0
    } else {
        row_total(row.drop_last()) + row.last().spec_len()
    }
}

/// Number of entries in the batches of all diagonals.
pub open spec fn grid_total(rows: Seq<Vec<CoordinatedInstance>>) -> nat
    decreases rows.len(),
{
    if rows.len() == 0 {
        0
    } else {
        grid_total(rows.drop_last()) + row_total(rows.last()@)
    }
}

/// Number of cells on diagonal `k` of a grid of side `n`.
pub open spec fn diagonal_len(n: int, k: int) -> int {
    if k < n {
        k + 1
    } else {
        2 * n - 1 - k
    }
}

/// Number of cells on the diagonals before `k`.
pub open spec fn cells_before(n: int, k: int) -> int
    decreases k,
{
    if k <= 0 {
        0
    } else {
        cells_before(n, k - 1) + diagonal_len(n, k - 1)
    }
}

/// The first column of diagonal `k`.
pub open spec fn diagonal_start(n: int, k: int) -> int {
    if k < n {
        0
    } else {
        k - (n - 1)
    }
}

/// The cells of diagonal `k` of a grid of side `n`, as `(col, row)` pairs
/// from the top right end of the diagonal to the bottom left one.
pub open spec fn diagonal_cells(n: int, k: int) -> Seq<(usize, usize)> {
    Seq::new(
        diagonal_len(n, k) as nat,
        |i: int| ((diagonal_start(n, k) + i) as usize, (k - diagonal_start(n, k) - i) as usize),
    )
}

/// The position of a cell's sprite in the sprite table.
pub open spec fn sprite_slot(grid: Seq<Vec<Tile>>, coord: (usize, usize)) -> int {
    tile_texture(grid[coord.1 as int]@[coord.0 as int]).spec_index()
}

/// The test that picks, from a list of cells, those whose sprite stands at
/// position `t` of the sprite table.
pub open spec fn of_sprite(grid: Seq<Vec<Tile>>, t: int) -> spec_fn((usize, usize)) -> bool {
    |c: (usize, usize)| sprite_slot(grid, c) == t
}

/// Every slot of a batch holds the dark entry of its cell.
pub open spec fn all_hidden(n: int, batch: CoordinatedInstance) -> bool {
    forall|i: int|
        0 <= i < batch.coords().len() ==> #[trigger] batch.entries()[i] == hidden_entry(
            n,
            batch.coords()[i],
        )
}

/// The entry of a cell that has not been revealed.
pub open spec fn hidden_entry(n: int, coord: (usize, usize)) -> DrawEntry {
    DrawEntry { dest: iso(n, coord.1 as int, coord.0 as int), tint: Tint::Hidden }
}

/// The entry of a cell that has been revealed.
pub open spec fn revealed_entry(n: int, coord: (usize, usize)) -> DrawEntry {
    DrawEntry { dest: iso(n, coord.1 as int, coord.0 as int), tint: Tint::Revealed }
}

/// Replacing one batch of a diagonal changes the diagonal's count by the
/// difference of the two batches.
proof fn lemma_row_total_update(row: Seq<CoordinatedInstance>, t: int, batch: CoordinatedInstance)
    requires
        0 <= t < row.len(),
    ensures
        row_total(row.update(t, batch)) == row_total(row) - row[t].spec_len() + batch.spec_len(),
    decreases row.len(),
{
    let updated = row.update(t, batch);
    if t == row.len() - 1 {
        assert(updated.drop_last() =~= row.drop_last());
    } else {
        lemma_row_total_update(row.drop_last(), t, batch);
        assert(updated.drop_last() =~= row.drop_last().update(t, batch));
    }
}

/// Replacing one diagonal changes the count by the difference of the two
/// diagonals.
proof fn lemma_grid_total_update(
    rows: Seq<Vec<CoordinatedInstance>>,
    k: int,
    row: Vec<CoordinatedInstance>,
)
    requires
        0 <= k < rows.len(),
    ensures
        grid_total(rows.update(k, row)) == grid_total(rows) - row_total(rows[k]@) + row_total(row@),
    decreases rows.len(),
{
    let updated = rows.update(k, row);
    if k == rows.len() - 1 {
        assert(updated.drop_last() =~= rows.drop_last());
    } else {
        lemma_grid_total_update(rows.drop_last(), k, row);
        assert(updated.drop_last() =~= rows.drop_last().update(k, row));
    }
}

/// The diagonals of a grid of side `n` hold `n * n` cells between them.
pub proof fn lemma_cells_before(n: int, k: int)
    requires
        0 < n,
        0 <= k <= 2 * n - 1,
    ensures
        k <= n ==> 2 * cells_before(n, k) == k * (k + 1),
        k >= n ==> 2 * cells_before(n, k) == 2 * n * n - (2 * n - 1 - k) * (2 * n - k),
        k == 2 * n - 1 ==> cells_before(n, k) == n * n,
    decreases k,
{
    if k > 0 {
        lemma_cells_before(n, k - 1);
        assert(k <= n ==> 2 * cells_before(n, k) == k * (k + 1)) by (nonlinear_arith)
            requires
                k - 1 <= n ==> 2 * cells_before(n, k - 1) == (k - 1) * k,
                k <= n ==> cells_before(n, k) == cells_before(n, k - 1) + k,
                0 < k,
        ;
        assert(k >= n ==> 2 * cells_before(n, k) == 2 * n * n - (2 * n - 1 - k) * (2 * n - k))
            by (nonlinear_arith)
            requires
                k - 1 <= n ==> 2 * cells_before(n, k - 1) == (k - 1) * k,
                k - 1 >= n ==> 2 * cells_before(n, k - 1) == 2 * n * n - (2 * n - k) * (2 * n - k
                    + 1),
                k <= n ==> cells_before(n, k) == cells_before(n, k - 1) + k,
                k > n ==> cells_before(n, k) == cells_before(n, k - 1) + 2 * n - k,
                0 < k,
                0 < n,
        ;
        assert(k == 2 * n - 1 ==> (2 * n - 1 - k) * (2 * n - k) == 0) by (nonlinear_arith);
        assert(2 * n * n == 2 * (n * n)) by (nonlinear_arith);
    }
}

/// The cells of diagonal `k` of a grid of side `n`, as `(col, row)` pairs
/// from the top right end of the diagonal to the bottom left one.
pub fn diagonal_coordinates(n: usize, k: usize) -> (diagonal: Vec<(usize, usize)>)
    requires
        0 < n <= MAX_MAP_SIZE,
        k <= 2 * n - 2,
    ensures
        diagonal@ == diagonal_cells(n as int, k as int),
        diagonal@.len() == diagonal_len(n as int, k as int),
        forall|c: (usize, usize)|
            diagonal@.contains(c) <==> (c.0 < n && c.1 < n && c.0 + c.1 == k),
        diagonal@.no_duplicates(),
{
    let start: usize = if k < n { 0 } else { k - (n - 1) };
    let end: usize = if k < n { k } else { n - 1 };
    let mut diagonal: Vec<(usize, usize)> = Vec::new();
    let mut x: usize = start;
    while x <= end
        invariant
            0 < n <= MAX_MAP_SIZE,
            k <= 2 * n - 2,
            start == diagonal_start(n as int, k as int),
            end == start + diagonal_len(n as int, k as int) - 1,
            end < n,
            end <= k,
            start <= x <= end + 1,
            diagonal@.len() == x - start,
            forall|i: int|
                0 <= i < diagonal@.len() ==> #[trigger] diagonal@[i] == ((start + i) as usize, (k
                    - start - i) as usize),
        decreases end + 1 - x,
    {
        diagonal.push((x, k - x));
        x += 1;
    }
    proof {
        assert forall|c: (usize, usize)| (c.0 < n && c.1 < n && c.0 + c.1 == k) implies diagonal@.contains(
            c,
        ) by {
            assert(diagonal@[c.0 - start] == c);
        }
        assert(diagonal@ =~= diagonal_cells(n as int, k as int));
    }
    diagonal
}

/// What showing one cell does to the coordinate lists of the batches, given
/// by diagonal and sprite position. Where the cell's sprite moves from
/// position `previous` to `current`, the batch at `previous` on the cell's
/// diagonal loses the cell, the last slot taking its place, and the batch at
/// `current` gains it in a new last slot. Where the sprite stays, so do the
/// lists.
pub open spec fn slots_after_cell(
    slots: Seq<Seq<Seq<(usize, usize)>>>,
    cell: (usize, usize),
    previous: int,
    current: int,
) -> Seq<Seq<Seq<(usize, usize)>>> {
    if previous == current {
        slots
    } else {
        let k = cell.0 + cell.1;
        let row = slots[k];
        slots.update(
            k,
            row.update(previous, swap_removed(row[previous], slot_of(row[previous], cell))).update(
                current,
                row[current].push(cell),
            ),
        )
    }
}

/// The coordinate lists of the batches once the first `done` cells of the
/// grid, row by row, have been shown as the snapshot knows them.
pub open spec fn slots_after(
    slots: Seq<Seq<Seq<(usize, usize)>>>,
    grid: Seq<Vec<Tile>>,
    snapshot: Seq<Vec<Option<Tile>>>,
    done: nat,
) -> Seq<Seq<Seq<(usize, usize)>>>
    decreases done,
{
    if done == 0 {
        slots
    } else {
        let earlier = slots_after(slots, grid, snapshot, (done - 1) as nat);
        let cell = grid_cells(grid.len() as int)[done - 1];
        match snapshot[cell.1 as int]@[cell.0 as int] {
            Some(tile) => slots_after_cell(
                earlier,
                cell,
                sprite_slot(grid, cell),
                tile_texture(tile).spec_index(),
            ),
            None => earlier,
        }
    }
}

/// Whether what is known of a cell leaves it its sprite: the cell is not
/// known, or its known tile has the sprite of the retained one.
pub open spec fn keeps_sprite(retained: Tile, known: Option<Tile>) -> bool {
    known matches Some(tile) ==> tile_texture(tile) == tile_texture(retained)
}

/// The tile that a cell retains once a snapshot has been taken in: the
/// snapshot's, where it knows the cell.
pub open spec fn shown_tile(retained: Tile, known: Option<Tile>) -> Tile {
    match known {
        Some(tile) => tile,
        None => retained,
    }
}

/// The entry of a cell once a snapshot has been taken in: without the dark
/// overlay where the snapshot knows the cell, as before where it does not.
/// The position never changes.
pub open spec fn shown_entry(entry: Option<DrawEntry>, known: Option<Tile>) -> Option<DrawEntry> {
    match entry {
        Some(e) => Some(
            DrawEntry { dest: e.dest, tint: if known is Some { Tint::Revealed } else { e.tint } },
        ),
        None => None,
    }
}

/// A snapshot covers a grid of side `n`: `n` rows of `n` cells.
pub open spec fn has_side<T>(snapshot: Seq<Vec<T>>, n: nat) -> bool {
    snapshot.len() == n && is_square(snapshot)
}

/// Whether a snapshot covers a grid of side `n`.
pub fn has_side_of<T>(snapshot: &Vec<Vec<T>>, n: usize) -> (covers: bool)
    ensures
        covers == has_side(snapshot@, n as nat),
{
    if snapshot.len() != n {
        return false;
    }
    let mut row: usize = 0;
    while row < n
        invariant
            snapshot@.len() == n,
            row <= n,
            forall|r: int| 0 <= r < row ==> (#[trigger] snapshot@[r]).len() == n,
        decreases n - row,
    {
        if snapshot[row].len() != n {
            return false;
        }
        row += 1;
    }
    true
}

/// Whether diagonal `k` is in view: its sprites, a sprite's height tall from
/// the diagonal's top edge, reach into the window from above, and the top
/// edge lies above the window's lower edge.
pub open spec fn diagonal_in_view(k: int, param: TilesMapComponentParam) -> bool {
    let top = STEP_Y * k * param.scale - param.origin.y;
    top + SPRITE_UNITS * param.scale >= 0 && top < param.window_size.y
}

/// Whether one batch is painted before another: its diagonal comes first,
/// or on one diagonal its sprite does.
pub open spec fn painted_before(first: (usize, usize), second: (usize, usize)) -> bool {
    first.0 < second.0 || (first.0 == second.0 && first.1 < second.1)
}

/// Whether diagonal `k` is in view.
pub fn is_diagonal_in_view(k: usize, param: &TilesMapComponentParam) -> (in_view: bool)
    requires
        k <= 2 * MAX_MAP_SIZE,
    ensures
        in_view == diagonal_in_view(k as int, *param),
{
    let scale: i128 = param.scale as i128;
    let depth: i128 = STEP_Y as i128 * k as i128;
    proof {
        assert(-0x1_0000_0000_0000_0000_0000_0000 <= depth * scale <= 0x1_0000_0000_0000_0000_0000_0000)
            by (nonlinear_arith)
            requires
                0 <= depth <= 0x1_0000_0000,
                -0x8000_0000_0000_0000 <= scale <= 0x8000_0000_0000_0000,
        ;
        assert(STEP_Y * k * param.scale == depth * scale) by (nonlinear_arith)
            requires
                depth == STEP_Y * k,
                scale == param.scale,
        ;
    }
    let top: i128 = depth * scale - param.origin.y as i128;
    let side: i128 = SPRITE_UNITS as i128;
    proof {
        assert(-0x1_0000_0000_0000_0000_0000 <= side * scale <= 0x1_0000_0000_0000_0000_0000)
            by (nonlinear_arith)
            requires
                side == 64,
                -0x8000_0000_0000_0000 <= scale <= 0x8000_0000_0000_0000,
        ;
    }
    let tall: i128 = side * scale;
    top + tall >= 0 && top < param.window_size.y as i128
}

/// What the tile layer needs to decide which diagonals are in view: the
/// camera's origin and scale and the size of the window, in screen units.
#[derive(Clone, Copy, Debug)]
pub struct TilesMapComponentParam {
    pub origin: Point,
    pub window_size: Point,
    pub scale: i64,
}

impl TilesMapComponentParam {
    /// The parameters of one draw pass.
    pub fn new(origin: Point, window_size: Point, scale: i64) -> (param: TilesMapComponentParam)
        ensures
            param.origin == origin,
            param.window_size == window_size,
            param.scale == scale,
    {
        TilesMapComponentParam { origin, window_size, scale }
    }
}

/// What the tile layer takes in on an update: the map as far as it is known.
#[derive(Debug)]
pub struct TilesMapComponentUpdateParam {
    pub current_map: Vec<Vec<Option<Tile>>>,
}

impl TilesMapComponentUpdateParam {
    /// The parameters of one update.
    pub fn new(current_map: Vec<Vec<Option<Tile>>>) -> (param: TilesMapComponentUpdateParam)
        ensures
            param.current_map == current_map,
    {
        TilesMapComponentUpdateParam { current_map }
    }

    /// The map as far as it is known.
    pub fn current_map(&self) -> (current_map: &Vec<Vec<Option<Tile>>>)
        ensures
            *current_map == self.current_map,
    {
        &self.current_map
    }
}

/// Whether `coord` is one of the first `i` coordinates of `diagonal`.
spec fn listed_before(diagonal: Seq<(usize, usize)>, i: int, coord: (usize, usize)) -> bool {
    exists|j: int| 0 <= j < i && diagonal[j] == coord
}

/// The batches of one diagonal hold exactly the cells of that diagonal,
/// each once, in the batch of its sprite and at its isometric position.
pub open spec fn row_holds_diagonal(
    grid: Seq<Vec<Tile>>,
    row: Seq<CoordinatedInstance>,
    k: int,
) -> bool {
    &&& row.len() == BLOCK_COUNT
    &&& forall|t: int| 0 <= t < BLOCK_COUNT ==> (#[trigger] row[t]).wf() && row[t].distinct()
    &&& forall|t: int, c: (usize, usize)|
        0 <= t < BLOCK_COUNT ==> (#[trigger] row[t].holds(c) <==> (c.0 < grid.len() && c.1
            < grid.len() && c.0 + c.1 == k && sprite_slot(grid, c) == t))
    &&& forall|t: int, c: (usize, usize)|
        0 <= t < BLOCK_COUNT && #[trigger] row[t].holds(c) ==> row[t].lookup(c) is Some
            && row[t].lookup(c).unwrap().dest == iso(grid.len() as int, c.1 as int, c.0 as int)
}

/// The tile layer.
#[derive(Debug)]
pub struct TilesMapComponent {
    map: Vec<Vec<Tile>>,
    instances: Vec<Vec<CoordinatedInstance>>,
}

impl TilesMapComponent {
    /// The retained copy of the terrain, by row.
    pub closed spec fn grid(&self) -> Seq<Vec<Tile>> {
        self.map@
    }

    /// The batches, by diagonal and then by sprite.
    pub closed spec fn rows(&self) -> Seq<Vec<CoordinatedInstance>> {
        self.instances@
    }

    /// The side of the grid.
    pub open spec fn size(&self) -> nat {
        self.grid().len()
    }

    /// The retained tile of a cell.
    pub open spec fn tile_at(&self, row: int, col: int) -> Tile {
        self.grid()[row]@[col]
    }

    /// The batch of diagonal `k` and of the sprite at position `t`.
    pub open spec fn batch(&self, k: int, t: int) -> CoordinatedInstance {
        self.rows()[k]@[t]
    }

    /// The draw entry of a cell: the one that the batch of its diagonal and
    /// sprite keeps for it.
    pub open spec fn entry_at(&self, row: int, col: int) -> Option<DrawEntry> {
        self.batch(row + col, tile_texture(self.tile_at(row, col)).spec_index()).lookup(
            (col as usize, row as usize),
        )
    }

    /// Number of entries in all batches.
    pub open spec fn total_elements(&self) -> nat {
        grid_total(self.rows())
    }

    /// The layer is consistent: the grid is square, there is one row of
    /// batches for each diagonal, every cell has exactly one entry, in the
    /// batch of its diagonal and sprite and at its isometric position, and no
    /// batch holds anything else.
    pub open spec fn wf(&self) -> bool {
        &&& self.size() <= MAX_MAP_SIZE
        &&& is_square(self.grid())
        &&& self.rows().len() == diagonal_count(self.size() as int)
        &&& forall|k: int|
            0 <= k < self.rows().len() ==> row_holds_diagonal(self.grid(), (#[trigger] self.rows()[k])@, k)
        &&& self.total_elements() == self.size() * self.size()
    }

    /// The layer is as `from_map` builds it: every batch holds the cells of
    /// its diagonal and sprite in the order of the diagonal, each with its
    /// dark entry.
    pub open spec fn is_fresh(&self) -> bool {
        forall|k: int, t: int|
            0 <= k < diagonal_count(self.size() as int) && 0 <= t < BLOCK_COUNT ==> {
                &&& (#[trigger] self.batch(k, t)).coords() == diagonal_cells(self.size() as int, k).filter(
                    of_sprite(self.grid(), t),
                )
                &&& all_hidden(self.size() as int, self.batch(k, t))
            }
    }

    /// The coordinate lists of all batches, by diagonal and sprite position.
    pub open spec fn slots(&self) -> Seq<Seq<Seq<(usize, usize)>>> {
        Seq::new(
            self.rows().len(),
            |k: int| Seq::new(BLOCK_COUNT as nat, |t: int| self.batch(k, t).coords()),
        )
    }

    /// Every batch has the coordinates that it has in `before`, slot by
    /// slot: no entry has changed its batch or its slot.
    pub open spec fn same_slots(&self, before: &TilesMapComponent) -> bool {
        &&& self.rows().len() == before.rows().len()
        &&& forall|k: int, t: int|
            0 <= k < before.rows().len() && 0 <= t < BLOCK_COUNT ==> (#[trigger] self.batch(
                k,
                t,
            )).coords() == before.batch(k, t).coords()
    }

    /// Whether a snapshot takes no entry out of the batch of diagonal `k`
    /// and sprite position `t`: every cell of the batch that it knows keeps
    /// its sprite.
    pub open spec fn keeps_batch(&self, k: int, t: int, snapshot: Seq<Vec<Option<Tile>>>) -> bool {
        forall|c: (usize, usize)| #[trigger]
            self.batch(k, t).holds(c) ==> keeps_sprite(
                self.tile_at(c.1 as int, c.0 as int),
                snapshot[c.1 as int]@[c.0 as int],
            )
    }

    /// The test that picks the cells that a snapshot brings into the batch
    /// of diagonal `k` and sprite position `t`: cells of that diagonal that
    /// the snapshot knows with that sprite and that had another.
    pub open spec fn arriving(&self, k: int, t: int, snapshot: Seq<Vec<Option<Tile>>>) -> spec_fn(
        (usize, usize),
    ) -> bool {
        |c: (usize, usize)|
            c.0 + c.1 == k && sprite_slot(self.grid(), c) != t && (snapshot[c.1 as int]@[c.0 as int] matches Some(
                tile,
            ) && tile_texture(tile).spec_index() == t)
    }

    /// Whether a snapshot changes no sprite: every cell that it knows has
    /// the sprite that the layer keeps for it.
    pub open spec fn steady(&self, snapshot: Seq<Vec<Option<Tile>>>) -> bool {
        forall|row: int, col: int|
            0 <= row < self.size() && 0 <= col < self.size() ==> keeps_sprite(
                #[trigger] self.tile_at(row, col),
                snapshot[row]@[col],
            )
    }

    /// What an update does to a layer: each cell that the snapshot knows
    /// takes the snapshot's tile and loses its dark overlay, every other
    /// cell stays as it was. The cells are shown row by row, each as
    /// `slots_after_cell` says, which fixes every slot. In particular, a
    /// batch that loses no entry keeps its entries
    /// in their slots, followed by those that it gains in the order of the
    /// grid's rows; where the snapshot changes no sprite at all, every entry
    /// keeps its batch and its slot.
    pub open spec fn updated_from(&self, before: &TilesMapComponent, snapshot: Seq<Vec<Option<Tile>>>) -> bool {
        &&& self.size() == before.size()
        &&& forall|row: int, col: int|
            0 <= row < before.size() && 0 <= col < before.size() ==> {
                &&& #[trigger] self.tile_at(row, col) == shown_tile(
                    before.tile_at(row, col),
                    snapshot[row]@[col],
                )
                &&& self.entry_at(row, col) == shown_entry(
                    before.entry_at(row, col),
                    snapshot[row]@[col],
                )
            }
        &&& self.slots() == slots_after(
            before.slots(),
            before.grid(),
            snapshot,
            before.size() * before.size(),
        )
        &&& before.steady(snapshot) ==> self.same_slots(before)
        &&& forall|k: int, t: int|
            0 <= k < before.rows().len() && 0 <= t < BLOCK_COUNT && before.keeps_batch(k, t, snapshot)
                ==> (#[trigger] self.batch(k, t)).coords() == before.batch(k, t).coords() + grid_cells(
                before.size() as int,
            ).filter(before.arriving(k, t, snapshot))
    }

    /// Builds the batches of one diagonal: an empty batch for each terrain
    /// sprite, then a dark entry for each listed cell, appended to the batch
    /// of the cell's sprite.
    pub fn create_diagonal_instances(map: &Vec<Vec<Tile>>, diagonal: &Vec<(usize, usize)>) -> (instances:
        Vec<CoordinatedInstance>)
        requires
            is_square(map@),
            map@.len() <= MAX_MAP_SIZE,
            forall|i: int|
                0 <= i < diagonal@.len() ==> (#[trigger] diagonal@[i]).0 < map@.len() && diagonal@[i].1
                    < map@.len(),
            diagonal@.no_duplicates(),
        ensures
            instances@.len() == BLOCK_COUNT,
            forall|t: int|
                0 <= t < BLOCK_COUNT ==> (#[trigger] instances@[t]).wf() && instances@[t].distinct(),
            forall|t: int, c: (usize, usize)|
                0 <= t < BLOCK_COUNT ==> (#[trigger] instances@[t].holds(c) <==> (diagonal@.contains(c)
                    && sprite_slot(map@, c) == t)),
            forall|t: int, c: (usize, usize)|
                0 <= t < BLOCK_COUNT && #[trigger] instances@[t].holds(c) ==> instances@[t].lookup(c)
                    == Some(hidden_entry(map@.len() as int, c)),
            row_total(instances@) == diagonal@.len(),
            forall|t: int|
                0 <= t < BLOCK_COUNT ==> (#[trigger] instances@[t]).coords() == diagonal@.filter(
                    of_sprite(map@, t),
                ),
            forall|t: int| 0 <= t < BLOCK_COUNT ==> all_hidden(map@.len() as int, #[trigger] instances@[t]),
    {
        let n = map.len();
        let blocks = Texture::get_blocks();
        let mut instances: Vec<CoordinatedInstance> = Vec::new();
        let mut t: usize = 0;
        while t < blocks.len()
            invariant
                blocks@.len() == BLOCK_COUNT,
                t <= BLOCK_COUNT,
                instances@.len() == t,
                forall|u: int|
                    0 <= u < t ==> (#[trigger] instances@[u]).wf() && instances@[u].distinct()
                        && instances@[u].spec_len() == 0,
                forall|u: int, c: (usize, usize)| 0 <= u < t ==> !(#[trigger] instances@[u].holds(c)),
                forall|u: int| 0 <= u < t ==> (#[trigger] instances@[u]).coords().len() == 0,
                row_total(instances@) == 0,
            decreases BLOCK_COUNT - t,
        {
            let ghost before = instances@;
            instances.push(CoordinatedInstance::new());
            proof {
                assert(instances@.drop_last() =~= before);
            }
            t += 1;
        }
        proof {
            reveal(Seq::filter);
            assert(diagonal@.subrange(0, 0) =~= Seq::<(usize, usize)>::empty());
            assert forall|u: int| 0 <= u < BLOCK_COUNT implies (#[trigger] instances@[u]).coords()
                == diagonal@.subrange(0, 0).filter(of_sprite(map@, u)) by {
                assert(instances@[u].coords() =~= Seq::<(usize, usize)>::empty());
            }
        }
        let mut i: usize = 0;
        while i < diagonal.len()
            invariant
                forall|u: int|
                    0 <= u < BLOCK_COUNT ==> (#[trigger] instances@[u]).coords() == diagonal@.subrange(
                        0,
                        i as int,
                    ).filter(of_sprite(map@, u)),
                forall|u: int|
                    0 <= u < BLOCK_COUNT ==> all_hidden(map@.len() as int, #[trigger] instances@[u]),
                n == map@.len(),
                is_square(map@),
                map@.len() <= MAX_MAP_SIZE,
                forall|j: int|
                    0 <= j < diagonal@.len() ==> (#[trigger] diagonal@[j]).0 < map@.len()
                        && diagonal@[j].1 < map@.len(),
                diagonal@.no_duplicates(),
                i <= diagonal@.len(),
                instances@.len() == BLOCK_COUNT,
                forall|u: int|
                    0 <= u < BLOCK_COUNT ==> (#[trigger] instances@[u]).wf() && instances@[u].distinct(),
                forall|u: int, c: (usize, usize)|
                    0 <= u < BLOCK_COUNT ==> (#[trigger] instances@[u].holds(c) <==> (listed_before(
                        diagonal@,
                        i as int,
                        c,
                    ) && sprite_slot(map@, c) == u)),
                forall|u: int, c: (usize, usize)|
                    0 <= u < BLOCK_COUNT && #[trigger] instances@[u].holds(c) ==> instances@[u].lookup(c)
                        == Some(hidden_entry(map@.len() as int, c)),
                row_total(instances@) == i,
            decreases diagonal@.len() - i,
        {
            let coord = diagonal[i];
            let x = coord.0;
            let y = coord.1;
            let texture = Texture::from_tile(&map[y][x]);
            let slot = texture.index();
            let position = tile_position(n, y, x);
            let entry = DrawEntry { dest: position, tint: Tint::Hidden };
            let ghost before = instances@;
            proof {
                assert(coord == (x, y));
                assert(sprite_slot(map@, coord) == slot);
                if before[slot as int].holds(coord) {
                    let j = choose|j: int| 0 <= j < i && diagonal@[j] == coord;
                    assert(false);
                }
            }
            instances[slot].append((x, y), entry);
            proof {
                let after = instances@;
                assert(after =~= before.update(slot as int, after[slot as int]));
                lemma_row_total_update(before, slot as int, after[slot as int]);
                assert forall|c: (usize, usize)| listed_before(diagonal@, i + 1, c) <==> (listed_before(
                    diagonal@,
                    i as int,
                    c,
                ) || c == coord) by {
                    if listed_before(diagonal@, i as int, c) {
                        let j = choose|j: int| 0 <= j < i && diagonal@[j] == c;
                        assert(0 <= j < i + 1 && diagonal@[j] == c);
                    }
                    if c == coord {
                        assert(0 <= i < i + 1 && diagonal@[i as int] == c);
                    }
                }
                assert forall|u: int, c: (usize, usize)| 0 <= u < BLOCK_COUNT implies (
                #[trigger] after[u].holds(c) <==> (listed_before(diagonal@, i + 1, c) && sprite_slot(
                    map@,
                    c,
                ) == u)) by {
                    assert(before[u].holds(c) <==> (listed_before(diagonal@, i as int, c)
                        && sprite_slot(map@, c) == u));
                }
                assert forall|u: int, c: (usize, usize)|
                    0 <= u < BLOCK_COUNT && #[trigger] after[u].holds(c) implies after[u].lookup(c)
                    == Some(hidden_entry(map@.len() as int, c)) by {
                    if u == slot && c == coord {
                    } else {
                        assert(before[u].holds(c));
                    }
                }
                let shorter = diagonal@.subrange(0, i as int);
                let longer = diagonal@.subrange(0, i + 1);
                assert(longer.drop_last() =~= shorter);
                assert(longer.last() == coord);
                assert forall|u: int| 0 <= u < BLOCK_COUNT implies (#[trigger] after[u]).coords()
                    == longer.filter(of_sprite(map@, u)) by {
                    reveal(Seq::filter);
                    assert(before[u].coords() == shorter.filter(of_sprite(map@, u)));
                }
                assert forall|u: int| 0 <= u < BLOCK_COUNT implies all_hidden(
                    map@.len() as int,
                    #[trigger] after[u],
                ) by {
                    assert(all_hidden(map@.len() as int, before[u]));
                    assert forall|m: int| 0 <= m < after[u].coords().len() implies #[trigger] after[u].entries()[m]
                        == hidden_entry(map@.len() as int, after[u].coords()[m]) by {
                        if m < before[u].coords().len() {
                            assert(before[u].entries()[m] == hidden_entry(
                                map@.len() as int,
                                before[u].coords()[m],
                            ));
                        }
                    }
                }
            }
            i += 1;
        }
        proof {
            assert forall|c: (usize, usize)| listed_before(diagonal@, i as int, c)
                <==> diagonal@.contains(c) by {
                if diagonal@.contains(c) {
                    let j = choose|j: int| 0 <= j < diagonal@.len() && diagonal@[j] == c;
                    assert(0 <= j < i && diagonal@[j] == c);
                }
            }
            assert(diagonal@.subrange(0, i as int) =~= diagonal@);
        }
        instances
    }

    /// Builds the layer from the initial grid: for each diagonal in
    /// ascending order, the batches of that diagonal. Every cell gets one
    /// dark entry at its isometric position.
    pub fn from_map(map: Vec<Vec<Tile>>) -> (layer: TilesMapComponent)
        requires
            is_square(map@),
            map@.len() <= MAX_MAP_SIZE,
        ensures
            layer.wf(),
            layer.grid() == map@,
            layer.total_elements() == map@.len() * map@.len(),
            layer.is_fresh(),
            forall|row: int, col: int|
                0 <= row < map@.len() && 0 <= col < map@.len() ==> #[trigger] layer.entry_at(row, col)
                    == Some(hidden_entry(map@.len() as int, (col as usize, row as usize))),
            forall|k: int, t: int|
                0 <= k < diagonal_count(map@.len() as int) && 0 <= t < BLOCK_COUNT ==> {
                    &&& (#[trigger] layer.batch(k, t)).coords() == diagonal_cells(
                        map@.len() as int,
                        k,
                    ).filter(of_sprite(map@, t))
                    &&& all_hidden(map@.len() as int, layer.batch(k, t))
                },
    {
        let n = map.len();
        let mut instances: Vec<Vec<CoordinatedInstance>> = Vec::new();
        if n > 0 {
            let mut k: usize = 0;
            while k < 2 * n - 1
                invariant
                    n == map@.len(),
                    0 < n <= MAX_MAP_SIZE,
                    is_square(map@),
                    k <= 2 * n - 1,
                    instances@.len() == k,
                    forall|j: int|
                        0 <= j < k ==> row_holds_diagonal(map@, (#[trigger] instances@[j])@, j),
                    forall|j: int, t: int, c: (usize, usize)|
                        0 <= j < k && 0 <= t < BLOCK_COUNT && #[trigger] instances@[j]@[t].holds(c)
                            ==> instances@[j]@[t].lookup(c) == Some(hidden_entry(n as int, c)),
                    grid_total(instances@) == cells_before(n as int, k as int),
                    forall|j: int, t: int|
                        0 <= j < k && 0 <= t < BLOCK_COUNT ==> {
                            &&& (#[trigger] instances@[j]@[t]).coords() == diagonal_cells(
                                n as int,
                                j,
                            ).filter(of_sprite(map@, t))
                            &&& all_hidden(n as int, instances@[j]@[t])
                        },
                decreases 2 * n - 1 - k,
            {
                let diagonal = diagonal_coordinates(n, k);
                let row = Self::create_diagonal_instances(&map, &diagonal);
                let ghost before = instances@;
                instances.push(row);
                proof {
                    assert(instances@.drop_last() =~= before);
                    assert forall|t: int, c: (usize, usize)|
                        0 <= t < BLOCK_COUNT && #[trigger] instances@[k as int]@[t].holds(c) implies instances@[k as int]@[t].lookup(
                        c,
                    ) is Some && instances@[k as int]@[t].lookup(c).unwrap().dest == iso(
                        n as int,
                        c.1 as int,
                        c.0 as int,
                    ) by {}
                }
                k += 1;
            }
            proof {
                lemma_cells_before(n as int, 2 * n - 1);
            }
        }
        let layer = TilesMapComponent { map, instances };
        proof {
            assert forall|row: int, col: int|
                0 <= row < n && 0 <= col < n implies #[trigger] layer.entry_at(row, col) == Some(
                hidden_entry(n as int, (col as usize, row as usize)),
            ) by {
                let c = (col as usize, row as usize);
                let k = row + col;
                let t = sprite_slot(layer.grid(), c);
                assert(row_holds_diagonal(layer.grid(), layer.rows()[k]@, k));
                assert(layer.rows()[k]@[t].holds(c));
            }
        }
        layer
    }

    /// The side of the grid.
    pub fn map_size(&self) -> (n: usize)
        ensures
            n == self.size(),
    {
        self.map.len()
    }

    /// The retained tile of a cell.
    pub fn tile(&self, row: usize, col: usize) -> (tile: Tile)
        requires
            self.wf(),
            row < self.size(),
            col < self.size(),
        ensures
            tile == self.tile_at(row as int, col as int),
    {
        self.map[row][col]
    }

    /// The batches, by diagonal in painting order and then by sprite, each
    /// sprite at its position in the sprite table.
    pub fn instances(&self) -> (rows: &Vec<Vec<CoordinatedInstance>>)
        ensures
            rows@ == self.rows(),
    {
        &self.instances
    }

    /// The draw entry of a cell.
    pub fn entry(&self, row: usize, col: usize) -> (entry: Option<DrawEntry>)
        requires
            self.wf(),
            row < self.size(),
            col < self.size(),
        ensures
            entry == self.entry_at(row as int, col as int),
            entry is Some,
            entry.unwrap().dest == iso(self.size() as int, row as int, col as int),
    {
        let slot = Texture::from_tile(&self.map[row][col]).index();
        proof {
            let c = (col, row);
            assert(row_holds_diagonal(self.grid(), self.rows()[row + col]@, row + col));
            assert(self.rows()[row + col]@[slot as int].holds(c));
        }
        self.instances[row + col][slot].get((col, row))
    }

    /// Number of entries in all batches.
    pub fn element_count(&self) -> (count: u64)
        requires
            self.wf(),
        ensures
            count == self.total_elements(),
            count == self.size() * self.size(),
    {
        let mut count: u64 = 0;
        let mut k: usize = 0;
        proof {
            assert(self.size() * self.size() <= MAX_MAP_SIZE * MAX_MAP_SIZE) by (nonlinear_arith)
                requires
                    self.size() <= MAX_MAP_SIZE,
            ;
            assert(self.instances@.subrange(0, 0) =~= Seq::<Vec<CoordinatedInstance>>::empty());
        }
        while k < self.instances.len()
            invariant
                self.wf(),
                k <= self.instances@.len(),
                count == grid_total(self.instances@.subrange(0, k as int)),
                grid_total(self.instances@) <= MAX_MAP_SIZE * MAX_MAP_SIZE,
            decreases self.instances@.len() - k,
        {
            let row = &self.instances[k];
            let mut t: usize = 0;
            let mut in_row: u64 = 0;
            proof {
                assert(row_holds_diagonal(self.grid(), self.rows()[k as int]@, k as int));
                assert(row@.subrange(0, 0) =~= Seq::<CoordinatedInstance>::empty());
                lemma_grid_total_prefix(self.instances@, k as int + 1);
                assert(self.instances@.subrange(0, k as int + 1).drop_last() =~= self.instances@.subrange(
                    0,
                    k as int,
                ));
            }
            while t < row.len()
                invariant
                    row@.len() == BLOCK_COUNT,
                    forall|u: int| 0 <= u < BLOCK_COUNT ==> (#[trigger] row@[u]).wf(),
                    t <= row@.len(),
                    in_row == row_total(row@.subrange(0, t as int)),
                    row_total(row@) <= MAX_MAP_SIZE * MAX_MAP_SIZE,
                decreases row@.len() - t,
            {
                proof {
                    lemma_row_total_prefix(row@, t as int + 1);
                    assert(row@.subrange(0, t as int + 1).drop_last() =~= row@.subrange(0, t as int));
                }
                in_row = in_row + row[t].len() as u64;
                t += 1;
            }
            proof {
                assert(row@.subrange(0, t as int) =~= row@);
            }
            count = count + in_row;
            k += 1;
        }
        proof {
            assert(self.instances@.subrange(0, k as int) =~= self.instances@);
        }
        count
    }

    /// Puts `batch` in the place of the batch of diagonal `k` and sprite
    /// position `t`, and hands the former one out.
    fn replace_batch(&mut self, k: usize, t: usize, batch: CoordinatedInstance) -> (previous:
        CoordinatedInstance)
        requires
            k < old(self).rows().len(),
            t < old(self).rows()[k as int]@.len(),
        ensures
            final(self).grid() == old(self).grid(),
            final(self).rows().len() == old(self).rows().len(),
            forall|j: int|
                0 <= j < old(self).rows().len() ==> (#[trigger] final(self).rows()[j])@.len() == old(
                    self,
                ).rows()[j]@.len(),
            previous == old(self).batch(k as int, t as int),
            final(self).batch(k as int, t as int) == batch,
            forall|j: int, u: int|
                0 <= j < old(self).rows().len() && 0 <= u < old(self).rows()[j]@.len() && (j != k || u
                    != t) ==> #[trigger] final(self).batch(j, u) == old(self).batch(j, u),
            final(self).total_elements() == old(self).total_elements() - previous.spec_len()
                + batch.spec_len(),
    {
        let ghost before = self.instances@;
        let mut held = batch;
        std::mem::swap(&mut held, &mut self.instances[k][t]);
        proof {
            let after = self.instances@;
            assert(after =~= before.update(k as int, after[k as int]));
            assert(after[k as int]@ =~= before[k as int]@.update(t as int, batch));
            lemma_row_total_update(before[k as int]@, t as int, batch);
            lemma_grid_total_update(before, k as int, after[k as int]);
        }
        held
    }

    /// Replaces the retained tile of one cell.
    fn set_tile(&mut self, row: usize, col: usize, tile: Tile)
        requires
            is_square(old(self).grid()),
            row < old(self).size(),
            col < old(self).size(),
        ensures
            final(self).rows() == old(self).rows(),
            final(self).size() == old(self).size(),
            is_square(final(self).grid()),
            final(self).tile_at(row as int, col as int) == tile,
            forall|r: int, c: int|
                0 <= r < old(self).size() && 0 <= c < old(self).size() && (r != row || c != col)
                    ==> #[trigger] final(self).tile_at(r, c) == old(self).tile_at(r, c),
    {
        let ghost before = self.map@;
        self.map[row][col] = tile;
        proof {
            let after = self.map@;
            assert(after =~= before.update(row as int, after[row as int]));
            assert(after[row as int]@ =~= before[row as int]@.update(col as int, tile));
        }
    }

    /// Overwrites the entry of `coord` in the batch of diagonal `k` and
    /// sprite position `t`. No entry changes its slot or its batch.
    fn retouch(&mut self, k: usize, t: usize, coord: (usize, usize), entry: DrawEntry)
        requires
            k < old(self).rows().len(),
            t < old(self).rows()[k as int]@.len(),
            old(self).batch(k as int, t as int).wf(),
            old(self).batch(k as int, t as int).holds(coord),
        ensures
            final(self).grid() == old(self).grid(),
            final(self).rows().len() == old(self).rows().len(),
            forall|j: int|
                0 <= j < old(self).rows().len() ==> (#[trigger] final(self).rows()[j])@.len() == old(
                    self,
                ).rows()[j]@.len(),
            forall|j: int, u: int|
                0 <= j < old(self).rows().len() && 0 <= u < old(self).rows()[j]@.len() && (j != k || u
                    != t) ==> #[trigger] final(self).batch(j, u) == old(self).batch(j, u),
            final(self).batch(k as int, t as int).wf(),
            final(self).batch(k as int, t as int).coords() == old(self).batch(
                k as int,
                t as int,
            ).coords(),
            final(self).batch(k as int, t as int).lookup(coord) == Some(entry),
            forall|c: (usize, usize)|
                c != coord ==> final(self).batch(k as int, t as int).lookup(c) == old(self).batch(
                    k as int,
                    t as int,
                ).lookup(c),
            final(self).total_elements() == old(self).total_elements(),
    {
        let ghost start = *self;
        let mut batch = self.replace_batch(k, t, CoordinatedInstance::new());
        let ghost middle = *self;
        let _ = batch.update(coord, entry);
        let _ = self.replace_batch(k, t, batch);
        proof {
            assert forall|j: int, u: int|
                0 <= j < start.rows().len() && 0 <= u < start.rows()[j]@.len() && (j != k || u
                    != t) implies #[trigger] self.batch(j, u) == start.batch(j, u) by {
                assert(middle.rows()[j]@.len() == start.rows()[j]@.len());
                assert(middle.batch(j, u) == start.batch(j, u));
            }
            assert forall|j: int| 0 <= j < start.rows().len() implies (#[trigger] self.rows()[j])@.len()
                == start.rows()[j]@.len() by {
                assert(middle.rows()[j]@.len() == start.rows()[j]@.len());
            }
        }
    }

    /// Moves the entry of `coord` on diagonal `k` from the batch at sprite
    /// position `from` to the one at `to`. No other entry changes its batch.
    fn move_entry(&mut self, k: usize, from: usize, to: usize, coord: (usize, usize))
        requires
            k < old(self).rows().len(),
            from < old(self).rows()[k as int]@.len(),
            to < old(self).rows()[k as int]@.len(),
            from != to,
            old(self).batch(k as int, from as int).wf(),
            old(self).batch(k as int, from as int).distinct(),
            old(self).batch(k as int, from as int).holds(coord),
            old(self).batch(k as int, to as int).wf(),
            old(self).batch(k as int, to as int).distinct(),
            !old(self).batch(k as int, to as int).holds(coord),
        ensures
            final(self).grid() == old(self).grid(),
            final(self).rows().len() == old(self).rows().len(),
            forall|j: int|
                0 <= j < old(self).rows().len() ==> (#[trigger] final(self).rows()[j])@.len() == old(
                    self,
                ).rows()[j]@.len(),
            forall|j: int, u: int|
                0 <= j < old(self).rows().len() && 0 <= u < old(self).rows()[j]@.len() && (j != k || (u
                    != from && u != to)) ==> #[trigger] final(self).batch(j, u) == old(self).batch(
                    j,
                    u,
                ),
            final(self).batch(k as int, from as int).wf(),
            final(self).batch(k as int, from as int).distinct(),
            !final(self).batch(k as int, from as int).holds(coord),
            forall|c: (usize, usize)|
                c != coord ==> final(self).batch(k as int, from as int).holds(c) == old(self).batch(
                    k as int,
                    from as int,
                ).holds(c) && final(self).batch(k as int, from as int).lookup(c) == old(self).batch(
                    k as int,
                    from as int,
                ).lookup(c),
            final(self).batch(k as int, from as int).coords() == swap_removed(
                old(self).batch(k as int, from as int).coords(),
                slot_of(old(self).batch(k as int, from as int).coords(), coord),
            ),
            final(self).batch(k as int, to as int).coords() == old(self).batch(
                k as int,
                to as int,
            ).coords().push(coord),
            final(self).batch(k as int, to as int).wf(),
            final(self).batch(k as int, to as int).distinct(),
            final(self).batch(k as int, to as int).holds(coord),
            final(self).batch(k as int, to as int).lookup(coord) == old(self).batch(
                k as int,
                from as int,
            ).lookup(coord),
            forall|c: (usize, usize)|
                c != coord ==> final(self).batch(k as int, to as int).holds(c) == old(self).batch(
                    k as int,
                    to as int,
                ).holds(c),
            forall|c: (usize, usize)|
                old(self).batch(k as int, to as int).holds(c) ==> final(self).batch(
                    k as int,
                    to as int,
                ).lookup(c) == old(self).batch(k as int, to as int).lookup(c),
            final(self).total_elements() == old(self).total_elements(),
    {
        let ghost start = *self;
        let mut source = self.replace_batch(k, from, CoordinatedInstance::new());
        let ghost first = *self;
        let mut target = self.replace_batch(k, to, CoordinatedInstance::new());
        let ghost second = *self;
        let _ = source.remove_and_move_to(coord, &mut target);
        let _ = self.replace_batch(k, to, target);
        let ghost third = *self;
        let _ = self.replace_batch(k, from, source);
        proof {
            assert forall|j: int| 0 <= j < start.rows().len() implies (#[trigger] self.rows()[j])@.len()
                == start.rows()[j]@.len() by {
                assert(first.rows()[j]@.len() == start.rows()[j]@.len());
                assert(second.rows()[j]@.len() == start.rows()[j]@.len());
                assert(third.rows()[j]@.len() == start.rows()[j]@.len());
            }
            assert forall|j: int, u: int|
                0 <= j < start.rows().len() && 0 <= u < start.rows()[j]@.len() && (j != k || (u
                    != from && u != to)) implies #[trigger] self.batch(j, u) == start.batch(j, u) by {
                assert(first.rows()[j]@.len() == start.rows()[j]@.len());
                assert(second.rows()[j]@.len() == start.rows()[j]@.len());
                assert(third.rows()[j]@.len() == start.rows()[j]@.len());
                assert(first.batch(j, u) == start.batch(j, u));
                assert(second.batch(j, u) == first.batch(j, u));
                assert(third.batch(j, u) == second.batch(j, u));
            }
            assert(first.rows()[k as int]@.len() == start.rows()[k as int]@.len());
            assert(second.rows()[k as int]@.len() == start.rows()[k as int]@.len());
            assert(third.rows()[k as int]@.len() == start.rows()[k as int]@.len());
            assert(first.batch(k as int, to as int) == start.batch(k as int, to as int));
            assert(self.batch(k as int, to as int) == third.batch(k as int, to as int));
        }
    }

    /// Shows one cell as it is now known: its entry loses the dark overlay
    /// and, where the sprite of the cell has changed, moves to the batch of
    /// the new sprite; the retained tile becomes `tile`. No other cell
    /// changes.
    #[verifier::rlimit(40)]
    fn show_tile(&mut self, row: usize, col: usize, tile: Tile)
        requires
            old(self).wf(),
            row < old(self).size(),
            col < old(self).size(),
        ensures
            final(self).wf(),
            final(self).size() == old(self).size(),
            final(self).tile_at(row as int, col as int) == tile,
            final(self).entry_at(row as int, col as int) == Some(
                revealed_entry(old(self).size() as int, (col, row)),
            ),
            final(self).slots() == slots_after_cell(
                old(self).slots(),
                (col, row),
                sprite_slot(old(self).grid(), (col, row)),
                tile_texture(tile).spec_index(),
            ),
            tile_texture(tile) == tile_texture(old(self).tile_at(row as int, col as int))
                ==> final(self).same_slots(old(self)),
            forall|j: int, u: int|
                0 <= j < old(self).rows().len() && 0 <= u < BLOCK_COUNT && (j != row + col || u
                    != sprite_slot(old(self).grid(), (col, row)) || tile_texture(tile)
                    == tile_texture(old(self).tile_at(row as int, col as int))) ==> (
                #[trigger] final(self).batch(j, u)).coords() == (if j == row + col && u
                    == tile_texture(tile).spec_index() && tile_texture(tile) != tile_texture(
                    old(self).tile_at(row as int, col as int),
                ) {
                    old(self).batch(j, u).coords().push((col, row))
                } else {
                    old(self).batch(j, u).coords()
                }),
            forall|r: int, c: int|
                0 <= r < old(self).size() && 0 <= c < old(self).size() && (r != row || c != col)
                    ==> #[trigger] final(self).tile_at(r, c) == old(self).tile_at(r, c),
            forall|r: int, c: int|
                0 <= r < old(self).size() && 0 <= c < old(self).size() && (r != row || c != col)
                    ==> #[trigger] final(self).entry_at(r, c) == old(self).entry_at(r, c),
    {
        let n = self.map.len();
        let k = row + col;
        let coord = (col, row);
        let previous = Texture::from_tile(&self.map[row][col]).index();
        let current = Texture::from_tile(&tile).index();
        let revealed = DrawEntry { dest: tile_position(n, row, col), tint: Tint::Revealed };
        let ghost start = *self;
        proof {
            assert(row_holds_diagonal(start.grid(), start.rows()[k as int]@, k as int));
            assert(start.batch(k as int, previous as int).holds(coord));
            assert(!start.batch(k as int, current as int).holds(coord) || current == previous);
        }
        self.retouch(k, previous, coord, revealed);
        let ghost shown = *self;
        if previous != current {
            proof {
                assert(shown.rows()[k as int]@.len() == start.rows()[k as int]@.len());
                assert(shown.batch(k as int, current as int) == start.batch(k as int, current as int));
            }
            self.move_entry(k, previous, current, coord);
        }
        let ghost moved = *self;
        self.set_tile(row, col, tile);
        proof {
            let g0 = start.grid();
            let g1 = self.grid();
            assert forall|c: (usize, usize)|
                c.0 < n && c.1 < n && c != coord implies sprite_slot(g1, c) == sprite_slot(g0, c) by {
                assert(self.tile_at(c.1 as int, c.0 as int) == start.tile_at(c.1 as int, c.0 as int));
            }
            assert(sprite_slot(g1, coord) == current) by {
                assert(self.tile_at(row as int, col as int) == tile);
            }
            assert forall|j: int| 0 <= j < start.rows().len() implies (#[trigger] moved.rows()[j])@.len()
                == BLOCK_COUNT by {
                assert(row_holds_diagonal(g0, start.rows()[j]@, j));
                assert(shown.rows()[j]@.len() == start.rows()[j]@.len());
            }
            assert forall|j: int, u: int|
                0 <= j < start.rows().len() && 0 <= u < BLOCK_COUNT && (j != k || (u != previous
                    && u != current)) implies #[trigger] moved.batch(j, u) == start.batch(j, u) by {
                assert(row_holds_diagonal(g0, start.rows()[j]@, j));
                assert(shown.rows()[j]@.len() == start.rows()[j]@.len());
                assert(shown.batch(j, u) == start.batch(j, u));
            }
            assert forall|j: int| 0 <= j < self.rows().len() implies row_holds_diagonal(
                g1,
                (#[trigger] self.rows()[j])@,
                j,
            ) by {
                assert(row_holds_diagonal(g0, start.rows()[j]@, j));
                let old_row = start.rows()[j]@;
                let new_row = self.rows()[j]@;
                assert forall|u: int| 0 <= u < BLOCK_COUNT implies (#[trigger] new_row[u]).wf()
                    && new_row[u].distinct() by {
                    assert(new_row[u] == moved.batch(j, u));
                    assert(old_row[u] == start.batch(j, u));
                    assert(old_row[u].wf() && old_row[u].distinct());
                    assert(shown.batch(k as int, previous as int).distinct());
                }
                assert forall|u: int, c: (usize, usize)| 0 <= u < BLOCK_COUNT implies (
                #[trigger] new_row[u].holds(c) <==> (c.0 < g1.len() && c.1 < g1.len() && c.0 + c.1
                    == j && sprite_slot(g1, c) == u)) by {
                    assert(new_row[u] == moved.batch(j, u));
                    assert(old_row[u] == start.batch(j, u));
                    assert(old_row[u].holds(c) <==> (c.0 < g0.len() && c.1 < g0.len() && c.0 + c.1
                        == j && sprite_slot(g0, c) == u));
                    assert(old_row[previous as int] == start.batch(j, previous as int));
                    assert(old_row[current as int] == start.batch(j, current as int));
                    assert(shown.batch(k as int, previous as int).holds(c) == start.batch(
                        k as int,
                        previous as int,
                    ).holds(c));
                }
                assert forall|u: int, c: (usize, usize)|
                    0 <= u < BLOCK_COUNT && #[trigger] new_row[u].holds(c) implies new_row[u].lookup(
                    c,
                ) is Some && new_row[u].lookup(c).unwrap().dest == iso(
                    g1.len() as int,
                    c.1 as int,
                    c.0 as int,
                ) by {
                    assert(new_row[u] == moved.batch(j, u));
                    assert(old_row[u] == start.batch(j, u));
                    assert(old_row[previous as int] == start.batch(j, previous as int));
                    assert(old_row[current as int] == start.batch(j, current as int));
                    if c != coord {
                        assert(old_row[u].holds(c));
                        assert(shown.batch(k as int, previous as int).lookup(c) == start.batch(
                            k as int,
                            previous as int,
                        ).lookup(c));
                    }
                }
            }
            assert forall|r: int, c: int|
                0 <= r < n && 0 <= c < n && (r != row || c != col) implies #[trigger] self.entry_at(r, c)
                == start.entry_at(r, c) by {
                let cc = (c as usize, r as usize);
                let u = sprite_slot(g0, cc);
                assert(self.tile_at(r, c) == start.tile_at(r, c));
                assert(row_holds_diagonal(g0, start.rows()[r + c]@, r + c));
                assert(start.rows()[r + c]@[u] == start.batch(r + c, u));
                assert(start.batch(r + c, u).holds(cc));
                assert(self.batch(r + c, u) == moved.batch(r + c, u));
                assert(shown.rows()[r + c]@.len() == start.rows()[r + c]@.len());
                if r + c != k || (u != previous && u != current) {
                    assert(moved.batch(r + c, u) == start.batch(r + c, u));
                } else {
                    assert(shown.batch(k as int, previous as int).lookup(cc) == start.batch(
                        k as int,
                        previous as int,
                    ).lookup(cc));
                }
            }
            assert(self.entry_at(row as int, col as int) == Some(revealed)) by {
                assert(self.batch(k as int, current as int) == moved.batch(k as int, current as int));
            }
            assert(previous == current <==> tile_texture(tile) == tile_texture(
                start.tile_at(row as int, col as int),
            )) by {
                crate::textures::lemma_index_is_injective(
                    tile_texture(tile),
                    tile_texture(start.tile_at(row as int, col as int)),
                );
            }
            assert forall|j: int, u: int|
                0 <= j < start.rows().len() && 0 <= u < BLOCK_COUNT && (j != k || u != previous
                    || previous == current) implies (#[trigger] self.batch(j, u)).coords() == (if j == k
                && u == current && previous != current {
                start.batch(j, u).coords().push(coord)
            } else {
                start.batch(j, u).coords()
            }) by {
                assert(row_holds_diagonal(g0, start.rows()[j]@, j));
                assert(shown.rows()[j]@.len() == start.rows()[j]@.len());
                assert(self.batch(j, u) == moved.batch(j, u));
                assert(shown.batch(k as int, previous as int).coords() == start.batch(
                    k as int,
                    previous as int,
                ).coords());
                if j != k || u != previous {
                    assert(shown.batch(j, u) == start.batch(j, u));
                }
            }
            assert(self.batch(k as int, previous as int) == moved.batch(k as int, previous as int));
            assert(shown.batch(k as int, previous as int).coords() == start.batch(
                k as int,
                previous as int,
            ).coords());
            assert(self.rows().len() == start.rows().len());
            assert(self.slots() =~~= slots_after_cell(
                start.slots(),
                coord,
                previous as int,
                current as int,
            ));
            if previous == current {
                assert forall|j: int, u: int|
                    0 <= j < start.rows().len() && 0 <= u < BLOCK_COUNT implies (#[trigger] self.batch(
                    j,
                    u,
                )).coords() == start.batch(j, u).coords() by {
                    assert(row_holds_diagonal(g0, start.rows()[j]@, j));
                    assert(shown.rows()[j]@.len() == start.rows()[j]@.len());
                    assert(self.batch(j, u) == shown.batch(j, u));
                    if j != k || u != previous {
                        assert(shown.batch(j, u) == start.batch(j, u));
                    }
                }
            }
        }
    }

    /// Takes in what is now known of the map. Every cell that the snapshot
    /// knows loses its dark overlay for good, and takes the snapshot's tile
    /// as its retained tile; where that changes the cell's sprite, its entry
    /// moves to the batch of the new sprite on the same diagonal. Cells that
    /// the snapshot does not know stay as they are. A snapshot of another
    /// size than the grid is refused and changes nothing.
    #[verifier::rlimit(40)]
    pub fn reveal_and_diff(&mut self, current_map: &Vec<Vec<Option<Tile>>>) -> (result: Result<
        (),
        VisualizerError,
    >)
        requires
            old(self).wf(),
        ensures
            final(self).wf(),
            final(self).size() == old(self).size(),
            result is Ok <==> has_side(current_map@, old(self).size()),
            result matches Err(e) ==> e == VisualizerError::OutOfBounds && *final(self) == *old(self),
            result is Ok ==> final(self).updated_from(old(self), current_map@),
    {
        let n = self.map.len();
        if !has_side_of(current_map, n) {
            return Err(VisualizerError::OutOfBounds);
        }
        let ghost start = *self;
        proof {
            reveal(Seq::filter);
            assert(0 * n == 0) by (nonlinear_arith);
            assert(grid_cells(n as int).subrange(0, 0) =~= Seq::<(usize, usize)>::empty());
            assert forall|k: int, t: int|
                0 <= k < start.rows().len() && 0 <= t < BLOCK_COUNT implies (#[trigger] start.batch(
                k,
                t,
            )).coords() == start.batch(k, t).coords() + grid_cells(n as int).subrange(0, 0).filter(
                start.arriving(k, t, current_map@),
            ) by {
                assert(start.batch(k, t).coords() + Seq::<(usize, usize)>::empty() =~= start.batch(
                    k,
                    t,
                ).coords());
            }
        }
        let mut y: usize = 0;
        while y < n
            invariant
                start.wf(),
                self.wf(),
                n == start.size(),
                self.size() == n,
                has_side(current_map@, n as nat),
                y <= n,
                self.slots() == slots_after(start.slots(), start.grid(), current_map@, (y * n) as nat),
                (forall|row: int, col: int|
                    0 <= row < y && 0 <= col < n ==> keeps_sprite(
                        #[trigger] start.tile_at(row, col),
                        current_map@[row]@[col],
                    )) ==> self.same_slots(&start),
                forall|k: int, t: int|
                    0 <= k < start.rows().len() && 0 <= t < BLOCK_COUNT && (forall|c: (usize, usize)|
                        #[trigger] start.batch(k, t).holds(c) && c.1 < y ==> keeps_sprite(
                            start.tile_at(c.1 as int, c.0 as int),
                            current_map@[c.1 as int]@[c.0 as int],
                        )) ==> (#[trigger] self.batch(k, t)).coords() == start.batch(k, t).coords()
                        + grid_cells(n as int).subrange(0, y * n).filter(
                        start.arriving(k, t, current_map@),
                    ),
                forall|row: int, col: int|
                    0 <= row < n && 0 <= col < n ==> {
                        &&& #[trigger] self.tile_at(row, col) == (if row < y {
                            shown_tile(start.tile_at(row, col), current_map@[row]@[col])
                        } else {
                            start.tile_at(row, col)
                        })
                        &&& self.entry_at(row, col) == (if row < y {
                            shown_entry(start.entry_at(row, col), current_map@[row]@[col])
                        } else {
                            start.entry_at(row, col)
                        })
                    },
            decreases n - y,
        {
            let mut x: usize = 0;
            while x < n
                invariant
                    start.wf(),
                    self.wf(),
                    n == start.size(),
                    self.size() == n,
                    has_side(current_map@, n as nat),
                    y < n,
                    x <= n,
                    self.slots() == slots_after(
                        start.slots(),
                        start.grid(),
                        current_map@,
                        (y * n + x) as nat,
                    ),
                    (forall|row: int, col: int|
                        0 <= row < n && 0 <= col < n && (row < y || (row == y && col < x))
                            ==> keeps_sprite(
                            #[trigger] start.tile_at(row, col),
                            current_map@[row]@[col],
                        )) ==> self.same_slots(&start),
                    forall|k: int, t: int|
                        0 <= k < start.rows().len() && 0 <= t < BLOCK_COUNT && (forall|
                            c: (usize, usize),
                        | #[trigger]
                            start.batch(k, t).holds(c) && (c.1 < y || (c.1 == y && c.0 < x))
                                ==> keeps_sprite(
                                start.tile_at(c.1 as int, c.0 as int),
                                current_map@[c.1 as int]@[c.0 as int],
                            )) ==> (#[trigger] self.batch(k, t)).coords() == start.batch(
                            k,
                            t,
                        ).coords() + grid_cells(n as int).subrange(0, y * n + x).filter(
                            start.arriving(k, t, current_map@),
                        ),
                    forall|row: int, col: int|
                        0 <= row < n && 0 <= col < n ==> {
                            &&& #[trigger] self.tile_at(row, col) == (if row < y || (row == y && col
                                < x) {
                                shown_tile(start.tile_at(row, col), current_map@[row]@[col])
                            } else {
                                start.tile_at(row, col)
                            })
                            &&& self.entry_at(row, col) == (if row < y || (row == y && col < x) {
                                shown_entry(start.entry_at(row, col), current_map@[row]@[col])
                            } else {
                                start.entry_at(row, col)
                            })
                        },
                decreases n - x,
            {
                proof {
                    assert(current_map@[y as int]@.len() == n);
                    start.lemma_every_cell_has_an_entry(y as int, x as int);
                }
                let ghost before = *self;
                match current_map[y][x] {
                    Some(tile) => {
                        self.show_tile(y, x, tile);
                    },
                    None => {},
                }
                proof {
                    if forall|row: int, col: int|
                        0 <= row < n && 0 <= col < n && (row < y || (row == y && col < x + 1))
                            ==> keeps_sprite(
                            #[trigger] start.tile_at(row, col),
                            current_map@[row]@[col],
                        ) {
                        assert(keeps_sprite(
                            start.tile_at(y as int, x as int),
                            current_map@[y as int]@[x as int],
                        ));
                        assert(before.tile_at(y as int, x as int) == start.tile_at(y as int, x as int));
                        assert(before.same_slots(&start));
                        assert(self.same_slots(&before));
                        assert forall|k: int, t: int|
                            0 <= k < start.rows().len() && 0 <= t < BLOCK_COUNT implies (
                        #[trigger] self.batch(k, t)).coords() == start.batch(k, t).coords() by {
                            assert(before.batch(k, t).coords() == start.batch(k, t).coords());
                        }
                    }
                    let here = y * n + x;
                    let cell = (x, y);
                    assert(0 <= here < n * n) by (nonlinear_arith)
                        requires
                            here == y * n + x,
                            0 <= x < n,
                            0 <= y < n,
                    ;
                    vstd::arithmetic::div_mod::lemma_fundamental_div_mod_converse(
                        here,
                        n as int,
                        y as int,
                        x as int,
                    );
                    let shorter = grid_cells(n as int).subrange(0, here);
                    let longer = grid_cells(n as int).subrange(0, here + 1);
                    assert(longer.drop_last() =~= shorter);
                    assert(longer.last() == cell);
                    assert(grid_cells(n as int)[here] == cell);
                    assert(before.slots() == slots_after(
                        start.slots(),
                        start.grid(),
                        current_map@,
                        here as nat,
                    ));
                    assert(before.tile_at(y as int, x as int) == start.tile_at(y as int, x as int));
                    assert(sprite_slot(before.grid(), cell) == sprite_slot(start.grid(), cell));
                    assert(self.slots() == slots_after(
                        start.slots(),
                        start.grid(),
                        current_map@,
                        (here + 1) as nat,
                    ));
                    assert forall|k: int, t: int|
                        0 <= k < start.rows().len() && 0 <= t < BLOCK_COUNT && (forall|
                            c: (usize, usize),
                        | #[trigger]
                            start.batch(k, t).holds(c) && (c.1 < y || (c.1 == y && c.0 < x + 1))
                                ==> keeps_sprite(
                                start.tile_at(c.1 as int, c.0 as int),
                                current_map@[c.1 as int]@[c.0 as int],
                            )) implies (#[trigger] self.batch(k, t)).coords() == start.batch(k, t).coords()
                        + longer.filter(start.arriving(k, t, current_map@)) by {
                        reveal(Seq::filter);
                        let a = start.batch(k, t).coords();
                        let arrives = start.arriving(k, t, current_map@);
                        let m = before.batch(k, t).coords();
                        let z = self.batch(k, t).coords();
                        assert(m == a + shorter.filter(arrives));
                        assert(row_holds_diagonal(start.grid(), start.rows()[k]@, k));
                        assert(start.rows()[k]@[t] == start.batch(k, t));
                        assert(before.tile_at(y as int, x as int) == start.tile_at(y as int, x as int));
                        assert(sprite_slot(before.grid(), cell) == sprite_slot(start.grid(), cell));
                        if k == y + x && t == sprite_slot(start.grid(), cell) {
                            assert(start.batch(k, t).holds(cell));
                        }
                        assert(before.rows().len() == start.rows().len());
                        match current_map@[y as int]@[x as int] {
                            Some(tile) => {
                                crate::textures::lemma_index_is_injective(
                                    tile_texture(tile),
                                    tile_texture(start.tile_at(y as int, x as int)),
                                );
                                if arrives(cell) {
                                    assert(z == m.push(cell));
                                    assert(z =~= a + shorter.filter(arrives).push(cell));
                                } else {
                                    assert(z == m);
                                }
                            },
                            None => {
                                assert(z == m);
                            },
                        }
                    }
                    assert forall|row: int, col: int| 0 <= row < n && 0 <= col < n implies {
                        &&& #[trigger] self.tile_at(row, col) == (if row < y || (row == y && col < x
                            + 1) {
                            shown_tile(start.tile_at(row, col), current_map@[row]@[col])
                        } else {
                            start.tile_at(row, col)
                        })
                        &&& self.entry_at(row, col) == (if row < y || (row == y && col < x + 1) {
                            shown_entry(start.entry_at(row, col), current_map@[row]@[col])
                        } else {
                            start.entry_at(row, col)
                        })
                    } by {
                        assert(before.tile_at(row, col) == (if row < y || (row == y && col < x) {
                            shown_tile(start.tile_at(row, col), current_map@[row]@[col])
                        } else {
                            start.tile_at(row, col)
                        }));
                        if row != y || col != x {
                            if current_map@[y as int]@[x as int] is Some {
                                assert(self.tile_at(row, col) == before.tile_at(row, col));
                                assert(self.entry_at(row, col) == before.entry_at(row, col));
                            }
                        }
                    }
                }
                x += 1;
            }
            proof {
                assert(y * n + n == (y + 1) * n) by (nonlinear_arith);
            }
            y += 1;
        }
        proof {
            assert(grid_cells(n as int).subrange(0, n * n) =~= grid_cells(n as int));
        }
        Ok(())
    }

    /// Takes in what is now known of the map, as `reveal_and_diff` does.
    pub fn update(&mut self, update_param: TilesMapComponentUpdateParam) -> (result: Result<
        (),
        VisualizerError,
    >)
        requires
            old(self).wf(),
        ensures
            final(self).wf(),
            final(self).size() == old(self).size(),
            result is Ok <==> has_side(update_param.current_map@, old(self).size()),
            result matches Err(e) ==> e == VisualizerError::OutOfBounds && *final(self) == *old(self),
            result is Ok ==> final(self).updated_from(old(self), update_param.current_map@),
    {
        self.reveal_and_diff(update_param.current_map())
    }

    /// What the draw pass paints: the batches that hold something and whose
    /// diagonal is in view, by diagonal in ascending order, so that cells
    /// nearer to the viewer are painted over farther ones, and on one
    /// diagonal by position in the sprite table. Each batch is named by its
    /// diagonal and its position in the sprite table.
    pub open spec fn draws(&self, param: TilesMapComponentParam, batches: Seq<(usize, usize)>) -> bool {
        &&& forall|i: int|
            0 <= i < batches.len() ==> {
                &&& (#[trigger] batches[i]).0 < self.rows().len()
                &&& batches[i].1 < BLOCK_COUNT
                &&& self.batch(batches[i].0 as int, batches[i].1 as int).spec_len() > 0
                &&& diagonal_in_view(batches[i].0 as int, param)
            }
        &&& forall|k: usize, t: usize|
            k < self.rows().len() && t < BLOCK_COUNT && self.batch(k as int, t as int).spec_len() > 0
                && diagonal_in_view(k as int, param) ==> batches.contains((k, t))
        &&& forall|i: int, j: int|
            0 <= i < j < batches.len() ==> painted_before(batches[i], batches[j])
    }

    /// Lists the batches to paint, in painting order.
    pub fn draw(&self, component_param: TilesMapComponentParam) -> (batches: Vec<(usize, usize)>)
        requires
            self.wf(),
        ensures
            self.draws(component_param, batches@),
    {
        let mut batches: Vec<(usize, usize)> = Vec::new();
        let mut k: usize = 0;
        while k < self.instances.len()
            invariant
                self.wf(),
                k <= self.instances@.len(),
                forall|i: int|
                    0 <= i < batches@.len() ==> {
                        &&& (#[trigger] batches@[i]).0 < k
                        &&& batches@[i].1 < BLOCK_COUNT
                        &&& self.batch(batches@[i].0 as int, batches@[i].1 as int).spec_len() > 0
                        &&& diagonal_in_view(batches@[i].0 as int, component_param)
                    },
                forall|d: usize, t: usize|
                    d < k && t < BLOCK_COUNT && self.batch(d as int, t as int).spec_len() > 0
                        && diagonal_in_view(d as int, component_param) ==> batches@.contains((d, t)),
                forall|i: int, j: int|
                    0 <= i < j < batches@.len() ==> painted_before(batches@[i], batches@[j]),
            decreases self.instances@.len() - k,
        {
            proof {
                assert(row_holds_diagonal(self.grid(), self.rows()[k as int]@, k as int));
            }
            if is_diagonal_in_view(k, &component_param) {
                let row = &self.instances[k];
                let mut t: usize = 0;
                while t < row.len()
                    invariant
                        self.wf(),
                        k < self.instances@.len(),
                        *row == self.instances@[k as int],
                        row@.len() == BLOCK_COUNT,
                        forall|u: int| 0 <= u < BLOCK_COUNT ==> (#[trigger] row@[u]).wf(),
                        diagonal_in_view(k as int, component_param),
                        t <= BLOCK_COUNT,
                        forall|i: int|
                            0 <= i < batches@.len() ==> {
                                &&& ((#[trigger] batches@[i]).0 < k || (batches@[i].0 == k
                                    && batches@[i].1 < t))
                                &&& batches@[i].1 < BLOCK_COUNT
                                &&& self.batch(batches@[i].0 as int, batches@[i].1 as int).spec_len()
                                    > 0
                                &&& diagonal_in_view(batches@[i].0 as int, component_param)
                            },
                        forall|d: usize, u: usize|
                            (d < k || (d == k && u < t)) && u < BLOCK_COUNT && self.batch(
                                d as int,
                                u as int,
                            ).spec_len() > 0 && diagonal_in_view(d as int, component_param)
                                ==> batches@.contains((d, u)),
                        forall|i: int, j: int|
                            0 <= i < j < batches@.len() ==> painted_before(batches@[i], batches@[j]),
                    decreases BLOCK_COUNT - t,
                {
                    if !row[t].is_empty() {
                        let ghost before = batches@;
                        batches.push((k, t));
                        proof {
                            assert forall|d: usize, u: usize|
                                (d < k || (d == k && u < t + 1)) && u < BLOCK_COUNT && self.batch(
                                    d as int,
                                    u as int,
                                ).spec_len() > 0 && diagonal_in_view(
                                    d as int,
                                    component_param,
                                ) implies batches@.contains((d, u)) by {
                                if d == k && u == t {
                                    assert(batches@[before.len() as int] == (d, u));
                                } else {
                                    assert(before.contains((d, u)));
                                    let i = choose|i: int| 0 <= i < before.len() && before[i] == (d, u);
                                    assert(batches@[i] == (d, u));
                                }
                            }
                        }
                    }
                    t += 1;
                }
            }
            k += 1;
        }
        batches
    }

    /// In a consistent layer every cell has an entry, at its isometric
    /// position.
    pub proof fn lemma_every_cell_has_an_entry(&self, row: int, col: int)
        requires
            self.wf(),
            0 <= row < self.size(),
            0 <= col < self.size(),
        ensures
            self.entry_at(row, col) is Some,
            self.entry_at(row, col).unwrap().dest == iso(self.size() as int, row, col),
    {
        let c = (col as usize, row as usize);
        assert(row_holds_diagonal(self.grid(), self.rows()[row + col]@, row + col));
        assert(self.rows()[row + col]@[sprite_slot(self.grid(), c)].holds(c));
    }

    /// In a consistent layer every slot of every batch holds a cell of the
    /// grid, and the entry in the slot is the entry of that cell.
    pub proof fn lemma_slot_is_entry(&self, k: int, t: int, i: int)
        requires
            self.wf(),
            0 <= k < self.rows().len(),
            0 <= t < BLOCK_COUNT,
            0 <= i < self.batch(k, t).coords().len(),
        ensures
            self.batch(k, t).coords()[i].0 < self.size(),
            self.batch(k, t).coords()[i].1 < self.size(),
            self.entry_at(
                self.batch(k, t).coords()[i].1 as int,
                self.batch(k, t).coords()[i].0 as int,
            ) == Some(self.batch(k, t).entries()[i]),
    {
        let batch = self.batch(k, t);
        let c = batch.coords()[i];
        assert(row_holds_diagonal(self.grid(), self.rows()[k]@, k));
        assert(self.rows()[k]@[t] == batch);
        assert(batch.holds(c));
        assert(batch.distinct());
        lemma_slot_unique(batch.coords(), c, i);
    }
}

/// Updating twice with one snapshot shows what updating once shows: the
/// second update changes no tile and no entry, and leaves every entry in its
/// batch and its slot.
pub proof fn lemma_update_is_idempotent(
    before: TilesMapComponent,
    once: TilesMapComponent,
    twice: TilesMapComponent,
    snapshot: Seq<Vec<Option<Tile>>>,
)
    requires
        once.updated_from(&before, snapshot),
        twice.updated_from(&once, snapshot),
    ensures
        forall|row: int, col: int|
            0 <= row < before.size() && 0 <= col < before.size() ==> #[trigger] twice.tile_at(row, col)
                == once.tile_at(row, col) && twice.entry_at(row, col) == once.entry_at(row, col),
        twice.same_slots(&once),
        once.wf() && twice.wf() ==> forall|k: int, t: int|
            0 <= k < once.rows().len() && 0 <= t < BLOCK_COUNT ==> (#[trigger] twice.batch(
                k,
                t,
            )).entries() == once.batch(k, t).entries(),
{
    assert forall|row: int, col: int|
        0 <= row < before.size() && 0 <= col < before.size() implies #[trigger] twice.tile_at(row, col)
        == once.tile_at(row, col) && twice.entry_at(row, col) == once.entry_at(row, col) by {
        assert(once.tile_at(row, col) == shown_tile(before.tile_at(row, col), snapshot[row]@[col]));
    }
    assert(once.steady(snapshot)) by {
        assert forall|row: int, col: int| 0 <= row < once.size() && 0 <= col < once.size() implies keeps_sprite(
            #[trigger] once.tile_at(row, col),
            snapshot[row]@[col],
        ) by {
            assert(once.tile_at(row, col) == shown_tile(before.tile_at(row, col), snapshot[row]@[col]));
        }
    }
    if once.wf() && twice.wf() {
        assert forall|k: int, t: int|
            0 <= k < once.rows().len() && 0 <= t < BLOCK_COUNT implies (#[trigger] twice.batch(
            k,
            t,
        )).entries() == once.batch(k, t).entries() by {
            let a = once.batch(k, t);
            let b = twice.batch(k, t);
            assert(row_holds_diagonal(once.grid(), once.rows()[k]@, k));
            assert(row_holds_diagonal(twice.grid(), twice.rows()[k]@, k));
            assert(once.rows()[k]@[t] == a);
            assert(twice.rows()[k]@[t] == b);
            assert(b.coords() == a.coords());
            assert forall|i: int| 0 <= i < a.entries().len() implies a.entries()[i] == b.entries()[i] by {
                once.lemma_slot_is_entry(k, t, i);
                twice.lemma_slot_is_entry(k, t, i);
                let c = a.coords()[i];
                assert(twice.entry_at(c.1 as int, c.0 as int) == once.entry_at(c.1 as int, c.0 as int));
            }
            assert(b.entries() =~= a.entries());
        }
    }
}

/// An update never brings the dark overlay back: a cell that was shown
/// without it is shown without it after any update.
pub proof fn lemma_update_never_hides(
    before: TilesMapComponent,
    after: TilesMapComponent,
    snapshot: Seq<Vec<Option<Tile>>>,
    row: int,
    col: int,
)
    requires
        after.updated_from(&before, snapshot),
        0 <= row < before.size(),
        0 <= col < before.size(),
        before.entry_at(row, col) matches Some(e) && e.tint == Tint::Revealed,
    ensures
        after.entry_at(row, col) == before.entry_at(row, col),
{
    assert(after.tile_at(row, col) == shown_tile(before.tile_at(row, col), snapshot[row]@[col]));
}

/// The batches of the first diagonals hold no more entries than all of them.
proof fn lemma_grid_total_prefix(rows: Seq<Vec<CoordinatedInstance>>, k: int)
    requires
        0 <= k <= rows.len(),
    ensures
        grid_total(rows.subrange(0, k)) <= grid_total(rows),
    decreases rows.len(),
{
    if k == rows.len() {
        assert(rows.subrange(0, k) =~= rows);
    } else {
        lemma_grid_total_prefix(rows.drop_last(), k);
        assert(rows.drop_last().subrange(0, k) =~= rows.subrange(0, k));
    }
}

/// The first batches of a diagonal hold no more entries than all of them.
proof fn lemma_row_total_prefix(row: Seq<CoordinatedInstance>, t: int)
    requires
        0 <= t <= row.len(),
    ensures
        row_total(row.subrange(0, t)) <= row_total(row),
    decreases row.len(),
{
    if t == row.len() {
        assert(row.subrange(0, t) =~= row);
    } else {
        lemma_row_total_prefix(row.drop_last(), t);
        assert(row.drop_last().subrange(0, t) =~= row.subrange(0, t));
    }
}

} // verus!
