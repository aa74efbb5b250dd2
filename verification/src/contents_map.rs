//! The content layer: one coordinated batch for each content sprite. A cell
//! has an entry exactly while it holds a content that is drawn.

use vstd::prelude::*;
use crate::coordinated::{lemma_slot_unique, slot_of, swap_removed, CoordinatedInstance, DrawEntry, Tint, VisualizerError};
use crate::geometry::{grid_cells, iso_x, iso_y, tile_position, Point, MAX_MAP_SIZE, SUBPIXELS};
use crate::textures::{content_texture, Texture, BLOCK_COUNT, CONTENT_COUNT, TEXTURE_COUNT};
use crate::tile::{is_low, is_square, Content, Tile, HIGH_ELEVATION};
use crate::tiles_map::{has_side, has_side_of};

verus! {

/// How far above the cell's position a content is drawn: two pixels on low
/// ground, six on high ground.
pub open spec fn content_lift(elevation: usize) -> int {
    if is_low(elevation) {
        2 * SUBPIXELS
    } else {
        6 * SUBPIXELS
    }
}

/// The world position of the content of a cell.
pub open spec fn content_dest(n: int, row: int, col: int, elevation: usize) -> Point {
    Point { x: iso_x(n, row, col) as i64, y: (iso_y(row, col) - content_lift(elevation)) as i64 }
}

/// The position in the sprite table of the sprite of a cell's content.
pub open spec fn content_slot(grid: Seq<Vec<Tile>>, coord: (usize, usize)) -> Option<int> {
    match content_texture(grid[coord.1 as int]@[coord.0 as int].content) {
        Some(texture) => Some(texture.spec_index()),
        None => None,
    }
}

/// The batches hold exactly the cells that have a drawn content, each once,
/// in the batch of its sprite and at its position.
pub open spec fn batches_hold_contents(grid: Seq<Vec<Tile>>, batches: Seq<CoordinatedInstance>) -> bool {
    &&& batches.len() == TEXTURE_COUNT
    &&& forall|t: int| 0 <= t < TEXTURE_COUNT ==> (#[trigger] batches[t]).wf() && batches[t].distinct()
    &&& forall|t: int, c: (usize, usize)|
        0 <= t < TEXTURE_COUNT ==> (#[trigger] batches[t].holds(c) <==> (c.0 < grid.len() && c.1
            < grid.len() && content_slot(grid, c) == Some(t)))
    &&& forall|t: int, c: (usize, usize)|
        0 <= t < TEXTURE_COUNT && #[trigger] batches[t].holds(c) ==> batches[t].lookup(c) is Some
            && batches[t].lookup(c).unwrap().dest == content_dest(
            grid.len() as int,
            c.1 as int,
            c.0 as int,
            grid[c.1 as int]@[c.0 as int].elevation,
        )
}

/// The test that picks, from a list of cells, those whose content has the
/// sprite at position `t` of the sprite table.
pub open spec fn of_content(grid: Seq<Vec<Tile>>, t: int) -> spec_fn((usize, usize)) -> bool {
    |c: (usize, usize)| content_slot(grid, c) == Some(t)
}

/// The dark entry of the content of a cell.
pub open spec fn hidden_content(grid: Seq<Vec<Tile>>, coord: (usize, usize)) -> DrawEntry {
    DrawEntry {
        dest: content_dest(
            grid.len() as int,
            coord.1 as int,
            coord.0 as int,
            grid[coord.1 as int]@[coord.0 as int].elevation,
        ),
        tint: Tint::Hidden,
    }
}

/// Whether a snapshot shows, at a cell, the content sprite that the layer
/// keeps for that cell.
pub open spec fn confirms(retained: Tile, known: Option<Tile>) -> bool {
    known matches Some(tile) && content_texture(tile.content) is Some && content_texture(
        tile.content,
    ) == content_texture(retained.content)
}

/// Whether a snapshot shows, at a cell, a content sprite that the layer does
/// not keep for that cell.
pub open spec fn contradicts(retained: Tile, known: Option<Tile>) -> bool {
    known matches Some(tile) && content_texture(tile.content) is Some && content_texture(
        tile.content,
    ) != content_texture(retained.content)
}

/// An entry after a reveal: without the dark overlay where the snapshot
/// confirms it, unchanged where it does not.
pub open spec fn revealed_if(entry: Option<DrawEntry>, confirmed: bool) -> Option<DrawEntry> {
    match entry {
        Some(e) => Some(DrawEntry { dest: e.dest, tint: if confirmed { Tint::Revealed } else { e.tint } }),
        None => None,
    }
}

/// The tile that a cell retains once its content has changed: the new
/// content on the old terrain where the cell had an entry, the old tile
/// where it had none.
pub open spec fn replaced_tile(retained: Tile, new: Tile) -> Tile {
    if content_texture(retained.content) is Some {
        Tile { content: new.content, ..retained }
    } else {
        retained
    }
}

/// The entry of a cell once its content has changed: the old one where the
/// new content is drawn, none where it is not.
pub open spec fn replaced_entry(entry: Option<DrawEntry>, new: Tile) -> Option<DrawEntry> {
    if content_texture(new.content) is Some {
        entry
    } else {
        None
    }
}

/// What the move of one entry does to the lists of the batches. In the
/// batch at `from` the last slot takes the place of the entry's slot and the
/// lists shrink by one; in the batch at `to`, if there is one, the entry is
/// appended with its coordinate; every other batch stays as it was.
pub open spec fn lists_after_move(
    before: Seq<CoordinatedInstance>,
    after: Seq<CoordinatedInstance>,
    from: int,
    to: Option<int>,
    coord: (usize, usize),
) -> bool {
    let slot = slot_of(before[from].coords(), coord);
    &&& after.len() == before.len()
    &&& after[from].coords() == swap_removed(before[from].coords(), slot)
    &&& after[from].entries() == swap_removed(before[from].entries(), slot)
    &&& to matches Some(t) ==> {
        &&& after[t].coords() == before[t].coords().push(coord)
        &&& after[t].entries() == before[t].entries().push(before[from].entries()[slot])
    }
    &&& forall|u: int|
        0 <= u < before.len() && u != from && to != Some(u) ==> #[trigger] after[u] == before[u]
}

/// Two contents with one sprite are one content.
pub proof fn lemma_sprite_tells_content(a: Content, b: Content)
    requires
        content_texture(a) is Some,
        content_texture(a) == content_texture(b),
    ensures
        a == b,
{
}

/// The world position of the content of the cell at `(row, col)`.
pub fn content_position(n: usize, row: usize, col: usize, elevation: usize) -> (position: Point)
    requires
        n <= MAX_MAP_SIZE,
        row < n,
        col < n,
    ensures
        position == content_dest(n as int, row as int, col as int, elevation),
{
    let base = tile_position(n, row, col);
    let lift: i64 = if elevation < HIGH_ELEVATION { 2 * SUBPIXELS } else { 6 * SUBPIXELS };
    Point { x: base.x, y: base.y - lift }
}

/// The content layer.
#[derive(Debug)]
pub struct ContentsMapComponent {
    map: Vec<Vec<Tile>>,
    instances: Vec<CoordinatedInstance>,
}

/// What the content layer needs to draw: the camera's scale.
#[derive(Clone, Copy, Debug)]
pub struct ContentsMapComponentParam {
    pub scale: i64,
}

/// The two kinds of update that the content layer takes.
#[derive(Debug)]
pub enum ContentsMapComponentUpdateType {
    /// The map as far as it is known.
    WorldVisibility(Vec<Vec<Option<Tile>>>),
    /// The tile of one cell, at `(row, col)`, whose content has changed.
    ContentChange(Tile, (usize, usize)),
}

/// What the content layer takes in on an update.
#[derive(Debug)]
pub struct ContentsMapComponentUpdateParam {
    pub _type: ContentsMapComponentUpdateType,
}

impl ContentsMapComponentParam {
    /// The parameters of one draw pass.
    pub fn new(scale: i64) -> (param: ContentsMapComponentParam)
        ensures
            param.scale == scale,
    {
        ContentsMapComponentParam { scale }
    }
}

impl ContentsMapComponentUpdateParam {
    /// The parameters of one update.
    pub fn new(_type: ContentsMapComponentUpdateType) -> (param: ContentsMapComponentUpdateParam)
        ensures
            param._type == _type,
    {
        ContentsMapComponentUpdateParam { _type }
    }
}

impl ContentsMapComponent {
    /// The retained copy of the grid, by row.
    pub closed spec fn grid(&self) -> Seq<Vec<Tile>> {
        self.map@
    }

    /// The batches, by position in the sprite table.
    pub closed spec fn batches(&self) -> Seq<CoordinatedInstance> {
        self.instances@
    }

    /// The side of the grid.
    pub open spec fn size(&self) -> nat {
        self.grid().len()
    }

    /// The retained tile of a cell.
    pub open spec fn tile_at(&self, row: int, col: int) -> Tile {
        self.grid()[row]@[col]
    }

    /// The draw entry of a cell's content, if the cell has one.
    pub open spec fn entry_at(&self, row: int, col: int) -> Option<DrawEntry> {
        match content_texture(self.tile_at(row, col).content) {
            Some(texture) => self.batches()[texture.spec_index()].lookup((col as usize, row as usize)),
            None => None,
        }
    }

    /// The layer is consistent: the grid is square and the batches hold
    /// exactly the cells that have a drawn content.
    pub open spec fn wf(&self) -> bool {
        &&& self.size() <= MAX_MAP_SIZE
        &&& is_square(self.grid())
        &&& batches_hold_contents(self.grid(), self.batches())
    }

    /// The layer is as `from_map` builds it: every batch holds the cells
    /// with its sprite in the order of the grid's rows, each with its dark
    /// entry.
    pub open spec fn is_fresh(&self) -> bool {
        &&& forall|t: int|
            0 <= t < TEXTURE_COUNT ==> (#[trigger] self.batches()[t]).coords() == grid_cells(
                self.size() as int,
            ).filter(of_content(self.grid(), t))
        &&& forall|t: int, i: int|
            0 <= t < TEXTURE_COUNT && 0 <= i < self.batches()[t].coords().len()
                ==> #[trigger] self.batches()[t].entries()[i] == hidden_content(
                self.grid(),
                self.batches()[t].coords()[i],
            )
    }

    /// Every batch has the coordinates that it has in `before`, slot by
    /// slot: no entry has changed its batch or its slot.
    pub open spec fn same_slots(&self, before: &ContentsMapComponent) -> bool {
        &&& self.batches().len() == before.batches().len()
        &&& forall|t: int|
            0 <= t < before.batches().len() ==> (#[trigger] self.batches()[t]).coords()
                == before.batches()[t].coords()
    }

    /// What a reveal does to a layer: the grid stays, every entry keeps its
    /// batch and its slot, and each entry loses its dark overlay exactly
    /// where the snapshot confirms it.
    pub open spec fn revealed_from(&self, before: &ContentsMapComponent, snapshot: Seq<Vec<Option<Tile>>>) -> bool {
        &&& self.grid() == before.grid()
        &&& self.same_slots(before)
        &&& forall|row: int, col: int|
            0 <= row < before.size() && 0 <= col < before.size() ==> #[trigger] self.entry_at(row, col)
                == revealed_if(
                before.entry_at(row, col),
                confirms(before.tile_at(row, col), snapshot[row]@[col]),
            )
    }

    /// Whether a snapshot shows no content sprite that the layer does not
    /// keep: every entry that a reveal looks for is there.
    pub open spec fn agrees_with(&self, snapshot: Seq<Vec<Option<Tile>>>) -> bool {
        forall|row: int, col: int|
            0 <= row < self.size() && 0 <= col < self.size() ==> !contradicts(
                #[trigger] self.tile_at(row, col),
                snapshot[row]@[col],
            )
    }

    /// What the change of one cell's content does to a layer. `coords` is
    /// the cell as `(row, col)`. Where the cell had an entry, its retained
    /// content becomes the new one, and the entry is kept, in the batch of
    /// the new sprite, where the new content is drawn, and dropped where it
    /// is not. A cell without an entry stays as it was, and so does every
    /// other cell.
    pub open spec fn changed_from(&self, before: &ContentsMapComponent, tile: Tile, coords: (usize, usize)) -> bool {
        &&& self.size() == before.size()
        &&& self.tile_at(coords.0 as int, coords.1 as int) == replaced_tile(
            before.tile_at(coords.0 as int, coords.1 as int),
            tile,
        )
        &&& self.entry_at(coords.0 as int, coords.1 as int) == replaced_entry(
            before.entry_at(coords.0 as int, coords.1 as int),
            tile,
        )
        &&& forall|r: int, c: int|
            0 <= r < before.size() && 0 <= c < before.size() && (r != coords.0 || c != coords.1)
                ==> #[trigger] self.tile_at(r, c) == before.tile_at(r, c)
        &&& forall|r: int, c: int|
            0 <= r < before.size() && 0 <= c < before.size() && (r != coords.0 || c != coords.1)
                ==> #[trigger] self.entry_at(r, c) == before.entry_at(r, c)
        &&& match content_texture(before.tile_at(coords.0 as int, coords.1 as int).content) {
            Some(previous) => if content_texture(tile.content) == Some(previous) {
                self.batches() == before.batches()
            } else {
                lists_after_move(
                    before.batches(),
                    self.batches(),
                    previous.spec_index(),
                    match content_texture(tile.content) {
                        Some(current) => Some(current.spec_index()),
                        None => None,
                    },
                    (coords.1, coords.0),
                )
            },
            None => self.batches() == before.batches(),
        }
    }

    /// In a consistent layer a cell has an entry exactly when its content is
    /// drawn, and the entry sits at the content's position.
    pub proof fn lemma_entry_follows_content(&self, row: int, col: int)
        requires
            self.wf(),
            0 <= row < self.size(),
            0 <= col < self.size(),
        ensures
            self.entry_at(row, col) is Some <==> content_texture(self.tile_at(row, col).content) is Some,
            self.entry_at(row, col) matches Some(e) ==> e.dest == content_dest(
                self.size() as int,
                row,
                col,
                self.tile_at(row, col).elevation,
            ),
    {
        let c = (col as usize, row as usize);
        match content_texture(self.tile_at(row, col).content) {
            Some(texture) => {
                crate::textures::lemma_index_is_injective(texture, texture);
                assert(self.batches()[texture.spec_index()].holds(c));
            },
            None => {},
        }
    }

    /// In a consistent layer every slot of every batch holds a cell of the
    /// grid, and the entry in the slot is the entry of that cell.
    pub proof fn lemma_slot_is_entry(&self, t: int, i: int)
        requires
            self.wf(),
            0 <= t < TEXTURE_COUNT,
            0 <= i < self.batches()[t].coords().len(),
        ensures
            self.batches()[t].coords()[i].0 < self.size(),
            self.batches()[t].coords()[i].1 < self.size(),
            self.entry_at(
                self.batches()[t].coords()[i].1 as int,
                self.batches()[t].coords()[i].0 as int,
            ) == Some(self.batches()[t].entries()[i]),
    {
        let batch = self.batches()[t];
        let c = batch.coords()[i];
        assert(batch.holds(c));
        assert(batch.distinct());
        lemma_slot_unique(batch.coords(), c, i);
        match content_texture(self.tile_at(c.1 as int, c.0 as int).content) {
            Some(texture) => {
                crate::textures::lemma_index_is_injective(texture, texture);
            },
            None => {},
        }
    }

    /// Builds the layer from the initial grid: row by row, a dark entry for
    /// every cell whose content is drawn, in the batch of the content's
    /// sprite.
    pub fn from_map(map: Vec<Vec<Tile>>) -> (layer: ContentsMapComponent)
        requires
            is_square(map@),
            map@.len() <= MAX_MAP_SIZE,
        ensures
            layer.wf(),
            layer.grid() == map@,
            layer.is_fresh(),
            forall|row: int, col: int|
                0 <= row < map@.len() && 0 <= col < map@.len() ==> #[trigger] layer.entry_at(row, col)
                    == (if content_texture(map@[row]@[col].content) is Some {
                    Some(
                        DrawEntry {
                            dest: content_dest(map@.len() as int, row, col, map@[row]@[col].elevation),
                            tint: Tint::Hidden,
                        },
                    )
                } else {
                    None
                }),
            forall|t: int|
                0 <= t < TEXTURE_COUNT ==> (#[trigger] layer.batches()[t]).coords() == grid_cells(
                    map@.len() as int,
                ).filter(of_content(map@, t)),
            forall|t: int, i: int|
                0 <= t < TEXTURE_COUNT && 0 <= i < layer.batches()[t].coords().len()
                    ==> #[trigger] layer.batches()[t].entries()[i] == hidden_content(
                    map@,
                    layer.batches()[t].coords()[i],
                ),
    {
        let n = map.len();
        let mut instances: Vec<CoordinatedInstance> = Vec::new();
        let mut t: usize = 0;
        while t < TEXTURE_COUNT
            invariant
                t <= TEXTURE_COUNT,
                instances@.len() == t,
                forall|u: int| 0 <= u < t ==> (#[trigger] instances@[u]).wf() && instances@[u].distinct(),
                forall|u: int, c: (usize, usize)| 0 <= u < t ==> !(#[trigger] instances@[u].holds(c)),
                forall|u: int| 0 <= u < t ==> (#[trigger] instances@[u]).coords().len() == 0,
            decreases TEXTURE_COUNT - t,
        {
            instances.push(CoordinatedInstance::new());
            t += 1;
        }
        proof {
            reveal(Seq::filter);
            assert(grid_cells(n as int).subrange(0, 0) =~= Seq::<(usize, usize)>::empty());
            assert forall|u: int| 0 <= u < TEXTURE_COUNT implies (#[trigger] instances@[u]).coords()
                == grid_cells(n as int).subrange(0, 0).filter(of_content(map@, u)) by {
                assert(instances@[u].coords() =~= Seq::<(usize, usize)>::empty());
            }
            assert(0 * n == 0) by (nonlinear_arith);
        }
        let mut y: usize = 0;
        while y < n
            invariant
                forall|u: int|
                    0 <= u < TEXTURE_COUNT ==> (#[trigger] instances@[u]).coords() == grid_cells(
                        n as int,
                    ).subrange(0, y * n).filter(of_content(map@, u)),
                n == map@.len(),
                n <= MAX_MAP_SIZE,
                is_square(map@),
                y <= n,
                instances@.len() == TEXTURE_COUNT,
                forall|u: int|
                    0 <= u < TEXTURE_COUNT ==> (#[trigger] instances@[u]).wf() && instances@[u].distinct(),
                forall|u: int, c: (usize, usize)|
                    0 <= u < TEXTURE_COUNT ==> (#[trigger] instances@[u].holds(c) <==> (c.0 < n && c.1
                        < y && content_slot(map@, c) == Some(u))),
                forall|u: int, c: (usize, usize)|
                    0 <= u < TEXTURE_COUNT && #[trigger] instances@[u].holds(c) ==> instances@[u].lookup(c)
                        == Some(
                        DrawEntry {
                            dest: content_dest(
                                n as int,
                                c.1 as int,
                                c.0 as int,
                                map@[c.1 as int]@[c.0 as int].elevation,
                            ),
                            tint: Tint::Hidden,
                        },
                    ),
            decreases n - y,
        {
            let mut x: usize = 0;
            while x < n
                invariant
                    forall|u: int|
                        0 <= u < TEXTURE_COUNT ==> (#[trigger] instances@[u]).coords() == grid_cells(
                            n as int,
                        ).subrange(0, y * n + x).filter(of_content(map@, u)),
                    n == map@.len(),
                    n <= MAX_MAP_SIZE,
                    is_square(map@),
                    y < n,
                    x <= n,
                    instances@.len() == TEXTURE_COUNT,
                    forall|u: int|
                        0 <= u < TEXTURE_COUNT ==> (#[trigger] instances@[u]).wf()
                            && instances@[u].distinct(),
                    forall|u: int, c: (usize, usize)|
                        0 <= u < TEXTURE_COUNT ==> (#[trigger] instances@[u].holds(c) <==> (c.0 < n && (
                        c.1 < y || (c.1 == y && c.0 < x)) && content_slot(map@, c) == Some(u))),
                    forall|u: int, c: (usize, usize)|
                        0 <= u < TEXTURE_COUNT && #[trigger] instances@[u].holds(c)
                            ==> instances@[u].lookup(c) == Some(
                            DrawEntry {
                                dest: content_dest(
                                    n as int,
                                    c.1 as int,
                                    c.0 as int,
                                    map@[c.1 as int]@[c.0 as int].elevation,
                                ),
                                tint: Tint::Hidden,
                            },
                        ),
                decreases n - x,
            {
                let tile = map[y][x];
                let ghost unfilled = instances@;
                proof {
                    let here = y * n + x;
                    assert(0 <= here < n * n) by (nonlinear_arith)
                        requires
                            here == y * n + x,
                            0 <= x < n,
                            0 <= y < n,
                    ;
                    vstd::arithmetic::div_mod::lemma_fundamental_div_mod_converse(
                        here,
                        n as int,
                        y as int,
                        x as int,
                    );
                    assert(grid_cells(n as int)[here] == (x, y));
                }
                match Texture::from_content(&tile.content) {
                    Some(texture) => {
                        let slot = texture.index();
                        let entry = DrawEntry {
                            dest: content_position(n, y, x, tile.elevation),
                            tint: Tint::Hidden,
                        };
                        let ghost before = instances@;
                        instances[slot].append((x, y), entry);
                        proof {
                            let after = instances@;
                            assert(after =~= before.update(slot as int, after[slot as int]));
                            assert forall|u: int, c: (usize, usize)|
                                0 <= u < TEXTURE_COUNT && #[trigger] after[u].holds(c) implies after[u].lookup(
                                c,
                            ) == Some(
                                DrawEntry {
                                    dest: content_dest(
                                        n as int,
                                        c.1 as int,
                                        c.0 as int,
                                        map@[c.1 as int]@[c.0 as int].elevation,
                                    ),
                                    tint: Tint::Hidden,
                                },
                            ) by {
                                if u == slot && c == (x, y) {
                                } else {
                                    assert(before[u].holds(c));
                                }
                            }
                        }
                    },
                    None => {},
                }
                proof {
                    let here = y * n + x;
                    let shorter = grid_cells(n as int).subrange(0, here);
                    let longer = grid_cells(n as int).subrange(0, here + 1);
                    assert(longer.drop_last() =~= shorter);
                    assert(longer.last() == (x, y));
                    assert forall|u: int| 0 <= u < TEXTURE_COUNT implies (#[trigger] instances@[u]).coords()
                        == longer.filter(of_content(map@, u)) by {
                        reveal(Seq::filter);
                        assert(unfilled[u].coords() == shorter.filter(of_content(map@, u)));
                        match content_texture(map@[y as int]@[x as int].content) {
                            Some(texture) => {
                                crate::textures::lemma_index_is_injective(texture, texture);
                            },
                            None => {},
                        }
                    }
                }
                x += 1;
            }
            proof {
                assert(y * n + n == (y + 1) * n) by (nonlinear_arith);
            }
            y += 1;
        }
        proof {
            assert(grid_cells(n as int).subrange(0, n * n) =~= grid_cells(n as int));
        }
        let layer = ContentsMapComponent { map, instances };
        proof {
            assert forall|t: int, i: int|
                0 <= t < TEXTURE_COUNT && 0 <= i < layer.batches()[t].coords().len()
                implies #[trigger] layer.batches()[t].entries()[i] == hidden_content(
                layer.grid(),
                layer.batches()[t].coords()[i],
            ) by {
                layer.lemma_slot_is_entry(t, i);
                let c = layer.batches()[t].coords()[i];
                assert(layer.batches()[t].holds(c));
            }
            assert forall|row: int, col: int|
                0 <= row < n && 0 <= col < n implies #[trigger] layer.entry_at(row, col) == (
            if content_texture(layer.grid()[row]@[col].content) is Some {
                Some(
                    DrawEntry {
                        dest: content_dest(n as int, row, col, layer.grid()[row]@[col].elevation),
                        tint: Tint::Hidden,
                    },
                )
            } else {
                None
            }) by {
                let c = (col as usize, row as usize);
                match content_texture(layer.grid()[row]@[col].content) {
                    Some(texture) => {
                        assert(layer.batches()[texture.spec_index()].holds(c));
                    },
                    None => {},
                }
            }
        }
        layer
    }

    /// The side of the grid.
    pub fn map_size(&self) -> (n: usize)
        ensures
            n == self.size(),
    {
        self.map.len()
    }

    /// The retained tile of a cell.
    pub fn tile(&self, row: usize, col: usize) -> (tile: Tile)
        requires
            self.wf(),
            row < self.size(),
            col < self.size(),
        ensures
            tile == self.tile_at(row as int, col as int),
    {
        self.map[row][col]
    }

    /// The batches, each sprite's at the sprite's position in the sprite
    /// table.
    pub fn instances(&self) -> (batches: &Vec<CoordinatedInstance>)
        ensures
            batches@ == self.batches(),
    {
        &self.instances
    }

    /// The batch of one sprite.
    pub fn instance(&self, texture: Texture) -> (batch: &CoordinatedInstance)
        requires
            self.wf(),
        ensures
            *batch == self.batches()[texture.spec_index()],
    {
        &self.instances[texture.index()]
    }

    /// The draw entry of a cell's content, if the cell has one.
    pub fn entry(&self, row: usize, col: usize) -> (entry: Option<DrawEntry>)
        requires
            self.wf(),
            row < self.size(),
            col < self.size(),
        ensures
            entry == self.entry_at(row as int, col as int),
    {
        match Texture::from_content(&self.map[row][col].content) {
            Some(texture) => self.instances[texture.index()].get((col, row)),
            None => None,
        }
    }

    /// What the draw pass paints: the batches of the content sprites that
    /// hold something, in the order of the sprite table.
    pub open spec fn draws(&self, textures: Seq<Texture>) -> bool {
        &&& forall|i: int|
            0 <= i < textures.len() ==> (#[trigger] textures[i]).is_content() && self.batches()[textures[i].spec_index()].spec_len()
                > 0
        &&& forall|t: Texture|
            t.is_content() && self.batches()[t.spec_index()].spec_len() > 0 ==> textures.contains(t)
        &&& forall|i: int, j: int|
            0 <= i < j < textures.len() ==> textures[i].spec_index() < textures[j].spec_index()
    }

    /// Lists the sprites whose batches are to be painted.
    pub fn draw(&self, component_param: ContentsMapComponentParam) -> (textures: Vec<Texture>)
        requires
            self.wf(),
        ensures
            self.draws(textures@),
    {
        let contents = Texture::get_contents();
        let mut textures: Vec<Texture> = Vec::new();
        let mut i: usize = 0;
        while i < contents.len()
            invariant
                self.wf(),
                contents@.len() == CONTENT_COUNT,
                forall|j: int|
                    0 <= j < CONTENT_COUNT ==> (#[trigger] contents@[j]).spec_index() == BLOCK_COUNT + j,
                i <= CONTENT_COUNT,
                forall|j: int|
                    0 <= j < textures@.len() ==> (#[trigger] textures@[j]).is_content()
                        && textures@[j].spec_index() < BLOCK_COUNT + i && self.batches()[textures@[j].spec_index()].spec_len()
                        > 0,
                forall|t: Texture|
                    t.is_content() && t.spec_index() < BLOCK_COUNT + i && self.batches()[t.spec_index()].spec_len()
                        > 0 ==> textures@.contains(t),
                forall|a: int, b: int|
                    0 <= a < b < textures@.len() ==> textures@[a].spec_index() < textures@[b].spec_index(),
            decreases CONTENT_COUNT - i,
        {
            let texture = contents[i];
            if !self.instances[texture.index()].is_empty() {
                let ghost before = textures@;
                textures.push(texture);
                proof {
                    assert forall|t: Texture|
                        t.is_content() && t.spec_index() < BLOCK_COUNT + i + 1 && self.batches()[t.spec_index()].spec_len()
                            > 0 implies textures@.contains(t) by {
                        if t.spec_index() == BLOCK_COUNT + i {
                            crate::textures::lemma_index_is_injective(t, texture);
                            assert(textures@[before.len() as int] == t);
                        } else {
                            assert(before.contains(t));
                            let j = choose|j: int| 0 <= j < before.len() && before[j] == t;
                            assert(textures@[j] == t);
                        }
                    }
                }
            } else {
                proof {
                    assert forall|t: Texture|
                        t.is_content() && t.spec_index() < BLOCK_COUNT + i + 1 && self.batches()[t.spec_index()].spec_len()
                            > 0 implies textures@.contains(t) by {
                        if t.spec_index() == BLOCK_COUNT + i {
                            crate::textures::lemma_index_is_injective(t, texture);
                        }
                    }
                }
            }
            i += 1;
        }
        textures
    }

    /// Puts `batch` in the place of the batch at sprite position `t`, and
    /// hands the former one out.
    fn replace_batch(&mut self, t: usize, batch: CoordinatedInstance) -> (previous: CoordinatedInstance)
        requires
            t < old(self).batches().len(),
        ensures
            final(self).grid() == old(self).grid(),
            final(self).batches() == old(self).batches().update(t as int, batch),
            previous == old(self).batches()[t as int],
    {
        let ghost before = self.instances@;
        let mut held = batch;
        std::mem::swap(&mut held, &mut self.instances[t]);
        proof {
            assert(self.instances@ =~= before.update(t as int, batch));
        }
        held
    }

    /// Replaces the retained content of one cell.
    fn set_content(&mut self, row: usize, col: usize, content: Content)
        requires
            is_square(old(self).grid()),
            row < old(self).size(),
            col < old(self).size(),
        ensures
            final(self).batches() == old(self).batches(),
            final(self).size() == old(self).size(),
            is_square(final(self).grid()),
            final(self).tile_at(row as int, col as int) == (Tile {
                content,
                ..old(self).tile_at(row as int, col as int)
            }),
            forall|r: int, c: int|
                0 <= r < old(self).size() && 0 <= c < old(self).size() && (r != row || c != col)
                    ==> #[trigger] final(self).tile_at(r, c) == old(self).tile_at(r, c),
    {
        let ghost before = self.map@;
        let tile = self.map[row][col];
        self.map[row][col] = Tile { tile_type: tile.tile_type, content, elevation: tile.elevation };
        proof {
            let after = self.map@;
            assert(after =~= before.update(row as int, after[row as int]));
            assert(after[row as int]@ =~= before[row as int]@.update(
                col as int,
                after[row as int]@[col as int],
            ));
        }
    }

    /// Takes the dark overlay off the entry of `coord` in the batch at sprite
    /// position `t`. No entry changes its slot, its batch or its position.
    fn reveal_entry(&mut self, t: usize, coord: (usize, usize))
        requires
            old(self).wf(),
            t < TEXTURE_COUNT,
            old(self).batches()[t as int].holds(coord),
        ensures
            final(self).wf(),
            final(self).grid() == old(self).grid(),
            final(self).same_slots(old(self)),
            final(self).entry_at(coord.1 as int, coord.0 as int) == revealed_if(
                old(self).entry_at(coord.1 as int, coord.0 as int),
                true,
            ),
            forall|r: int, c: int|
                0 <= r < old(self).size() && 0 <= c < old(self).size() && (r != coord.1 || c
                    != coord.0) ==> #[trigger] final(self).entry_at(r, c) == old(self).entry_at(r, c),
    {
        let ghost start = *self;
        let mut batch = self.replace_batch(t, CoordinatedInstance::new());
        let entry = batch.get(coord);
        match entry {
            Some(e) => {
                let _ = batch.update(coord, DrawEntry { dest: e.dest, tint: Tint::Revealed });
            },
            None => {},
        }
        let _ = self.replace_batch(t, batch);
        proof {
            let b0 = start.batches();
            let b1 = self.batches();
            assert(b1 =~= b0.update(t as int, b1[t as int]));
            assert forall|u: int, c: (usize, usize)|
                0 <= u < TEXTURE_COUNT && #[trigger] b1[u].holds(c) implies b1[u].lookup(c) is Some
                && b1[u].lookup(c).unwrap().dest == b0[u].lookup(c).unwrap().dest by {
                assert(b0[u].holds(c));
            }
            assert forall|u: int, c: (usize, usize)| 0 <= u < TEXTURE_COUNT implies (
            #[trigger] b1[u].holds(c) <==> b0[u].holds(c)) by {}
            assert forall|r: int, c: int|
                0 <= r < start.size() && 0 <= c < start.size() && (r != coord.1 || c
                    != coord.0) implies #[trigger] self.entry_at(r, c) == start.entry_at(r, c) by {
                let cc = (c as usize, r as usize);
                match content_texture(start.tile_at(r, c).content) {
                    Some(texture) => {
                        assert(b0[texture.spec_index()].holds(cc));
                    },
                    None => {},
                }
            }
            match content_texture(start.tile_at(coord.1 as int, coord.0 as int).content) {
                Some(texture) => {
                    crate::textures::lemma_index_is_injective(texture, texture);
                },
                None => {},
            }
        }
    }

    /// Moves the entry of `coord` from the batch at sprite position `from`
    /// to the one at `to`, or drops it where `to` is `None`, and makes
    /// `content` the retained content of the cell. No other cell changes.
    fn move_entry(&mut self, from: usize, to: Option<usize>, coord: (usize, usize), content: Content)
        requires
            old(self).wf(),
            coord.0 < old(self).size(),
            coord.1 < old(self).size(),
            content_slot(old(self).grid(), coord) == Some(from as int),
            match to {
                Some(t) => content_texture(content) matches Some(texture) && texture.spec_index() == t
                    && t != from,
                None => content_texture(content) is None,
            },
        ensures
            final(self).wf(),
            final(self).size() == old(self).size(),
            lists_after_move(
                old(self).batches(),
                final(self).batches(),
                from as int,
                match to {
                    Some(t) => Some(t as int),
                    None => None,
                },
                coord,
            ),
            final(self).tile_at(coord.1 as int, coord.0 as int) == (Tile {
                content,
                ..old(self).tile_at(coord.1 as int, coord.0 as int)
            }),
            final(self).entry_at(coord.1 as int, coord.0 as int) == (if to is Some {
                old(self).entry_at(coord.1 as int, coord.0 as int)
            } else {
                None
            }),
            forall|r: int, c: int|
                0 <= r < old(self).size() && 0 <= c < old(self).size() && (r != coord.1 || c
                    != coord.0) ==> #[trigger] final(self).tile_at(r, c) == old(self).tile_at(r, c),
            forall|r: int, c: int|
                0 <= r < old(self).size() && 0 <= c < old(self).size() && (r != coord.1 || c
                    != coord.0) ==> #[trigger] final(self).entry_at(r, c) == old(self).entry_at(r, c),
    {
        let ghost start = *self;
        proof {
            assert(start.batches()[from as int].holds(coord));
            match content_texture(start.tile_at(coord.1 as int, coord.0 as int).content) {
                Some(texture) => {
                    crate::textures::lemma_index_is_injective(texture, texture);
                },
                None => {},
            }
        }
        let mut source = self.replace_batch(from, CoordinatedInstance::new());
        match to {
            Some(t) => {
                proof {
                    assert(!start.batches()[t as int].holds(coord));
                }
                let mut target = self.replace_batch(t, CoordinatedInstance::new());
                let _ = source.remove_and_move_to(coord, &mut target);
                let _ = self.replace_batch(t, target);
            },
            None => {
                let _ = source.remove(coord);
            },
        }
        let _ = self.replace_batch(from, source);
        let ghost moved = *self;
        self.set_content(coord.1, coord.0, content);
        proof {
            let g0 = start.grid();
            let g1 = self.grid();
            let b0 = start.batches();
            let b1 = self.batches();
            let n = start.size();
            assert(b1.len() == TEXTURE_COUNT);
            assert forall|c: (usize, usize)| c.0 < n && c.1 < n && c != coord implies content_slot(g1, c)
                == content_slot(g0, c) && g1[c.1 as int]@[c.0 as int] == g0[c.1 as int]@[c.0 as int] by {
                assert(self.tile_at(c.1 as int, c.0 as int) == start.tile_at(c.1 as int, c.0 as int));
            }
            assert(self.tile_at(coord.1 as int, coord.0 as int).content == content);
            assert(content_slot(g1, coord) == match to {
                Some(t) => Some(t as int),
                None => None,
            });
            assert forall|u: int| 0 <= u < TEXTURE_COUNT && u != from && to != Some(
                u as usize,
            ) implies b1[u] == b0[u] by {}
            assert forall|u: int| 0 <= u < TEXTURE_COUNT implies (#[trigger] b1[u]).wf()
                && b1[u].distinct() by {
                assert(b0[u].wf() && b0[u].distinct());
            }
            assert forall|u: int, c: (usize, usize)| 0 <= u < TEXTURE_COUNT implies (
            #[trigger] b1[u].holds(c) <==> (c.0 < g1.len() && c.1 < g1.len() && content_slot(g1, c)
                == Some(u))) by {
                assert(b0[u].holds(c) <==> (c.0 < g0.len() && c.1 < g0.len() && content_slot(g0, c)
                    == Some(u)));
            }
            assert forall|u: int, c: (usize, usize)|
                0 <= u < TEXTURE_COUNT && #[trigger] b1[u].holds(c) implies b1[u].lookup(c) is Some
                && b1[u].lookup(c).unwrap().dest == content_dest(
                g1.len() as int,
                c.1 as int,
                c.0 as int,
                g1[c.1 as int]@[c.0 as int].elevation,
            ) by {
                if c != coord {
                    assert(b0[u].holds(c));
                } else {
                    assert(b0[from as int].holds(c));
                }
            }
            assert forall|r: int, c: int|
                0 <= r < n && 0 <= c < n && (r != coord.1 || c != coord.0) implies #[trigger] self.entry_at(
                r,
                c,
            ) == start.entry_at(r, c) by {
                let cc = (c as usize, r as usize);
                assert(self.tile_at(r, c) == start.tile_at(r, c));
                match content_texture(start.tile_at(r, c).content) {
                    Some(texture) => {
                        assert(b0[texture.spec_index()].holds(cc));
                    },
                    None => {},
                }
            }
        }
    }

    /// Takes in what is now known of the map. For each cell that the
    /// snapshot knows and shows with a drawn content, the cell's entry is
    /// looked up in the batch of that content's sprite and loses its dark
    /// overlay; its position stays. A cell whose entry is not found there is
    /// passed over and the call reports `MissingElement` once all cells have
    /// been seen. A snapshot of another size than the grid is refused and
    /// changes nothing.
    pub fn reveal_known(&mut self, snapshot: &Vec<Vec<Option<Tile>>>) -> (result: Result<
        (),
        VisualizerError,
    >)
        requires
            old(self).wf(),
        ensures
            final(self).wf(),
            !has_side(snapshot@, old(self).size()) ==> result == Err::<(), VisualizerError>(
                VisualizerError::OutOfBounds,
            ) && *final(self) == *old(self),
            has_side(snapshot@, old(self).size()) ==> {
                &&& final(self).revealed_from(old(self), snapshot@)
                &&& result is Ok <==> old(self).agrees_with(snapshot@)
                &&& result matches Err(e) ==> e == VisualizerError::MissingElement
            },
    {
        let n = self.map.len();
        if !has_side_of(snapshot, n) {
            return Err(VisualizerError::OutOfBounds);
        }
        let ghost start = *self;
        let mut missed = false;
        let mut y: usize = 0;
        while y < n
            invariant
                start.wf(),
                self.wf(),
                n == start.size(),
                self.grid() == start.grid(),
                self.same_slots(&start),
                has_side(snapshot@, n as nat),
                y <= n,
                forall|row: int, col: int|
                    0 <= row < n && 0 <= col < n ==> #[trigger] self.entry_at(row, col) == (if row
                        < y {
                        revealed_if(
                            start.entry_at(row, col),
                            confirms(start.tile_at(row, col), snapshot@[row]@[col]),
                        )
                    } else {
                        start.entry_at(row, col)
                    }),
                !missed <==> forall|row: int, col: int|
                    0 <= row < y && 0 <= col < n ==> !contradicts(
                        #[trigger] start.tile_at(row, col),
                        snapshot@[row]@[col],
                    ),
            decreases n - y,
        {
            let mut x: usize = 0;
            while x < n
                invariant
                    start.wf(),
                    self.wf(),
                    n == start.size(),
                    self.grid() == start.grid(),
                    self.same_slots(&start),
                    has_side(snapshot@, n as nat),
                    y < n,
                    x <= n,
                    forall|row: int, col: int|
                        0 <= row < n && 0 <= col < n ==> #[trigger] self.entry_at(row, col) == (
                        if row < y || (row == y && col < x) {
                            revealed_if(
                                start.entry_at(row, col),
                                confirms(start.tile_at(row, col), snapshot@[row]@[col]),
                            )
                        } else {
                            start.entry_at(row, col)
                        }),
                    !missed <==> forall|row: int, col: int|
                        0 <= row < n && 0 <= col < n && (row < y || (row == y && col < x))
                            ==> !contradicts(#[trigger] start.tile_at(row, col), snapshot@[row]@[col]),
                decreases n - x,
            {
                let ghost before = *self;
                let ghost missed_before = missed;
                proof {
                    assert(snapshot@[y as int]@.len() == n);
                    start.lemma_entry_follows_content(y as int, x as int);
                }
                match snapshot[y][x] {
                    Some(tile) => {
                        match Texture::from_content(&tile.content) {
                            Some(texture) => {
                                let slot = texture.index();
                                proof {
                                    match content_texture(start.tile_at(y as int, x as int).content) {
                                        Some(kept) => {
                                            crate::textures::lemma_index_is_injective(kept, texture);
                                        },
                                        None => {},
                                    }
                                }
                                match self.instances[slot].find((x, y)) {
                                    Some(_) => {
                                        self.reveal_entry(slot, (x, y));
                                    },
                                    None => {
                                        missed = true;
                                    },
                                }
                            },
                            None => {},
                        }
                    },
                    None => {},
                }
                proof {
                    let hit = confirms(start.tile_at(y as int, x as int), snapshot@[y as int]@[x as int]);
                    let miss = contradicts(
                        start.tile_at(y as int, x as int),
                        snapshot@[y as int]@[x as int],
                    );
                    assert(missed == (missed_before || miss));
                    assert(self.entry_at(y as int, x as int) == revealed_if(
                        start.entry_at(y as int, x as int),
                        hit,
                    ));
                    assert forall|row: int, col: int|
                        0 <= row < n && 0 <= col < n implies #[trigger] self.entry_at(row, col) == (
                    if row < y || (row == y && col < x + 1) {
                        revealed_if(
                            start.entry_at(row, col),
                            confirms(start.tile_at(row, col), snapshot@[row]@[col]),
                        )
                    } else {
                        start.entry_at(row, col)
                    }) by {
                        if row != y || col != x {
                            assert(self.entry_at(row, col) == before.entry_at(row, col));
                        }
                    }
                    if !missed {
                        assert forall|row: int, col: int|
                            0 <= row < n && 0 <= col < n && (row < y || (row == y && col < x + 1))
                            implies !contradicts(
                            #[trigger] start.tile_at(row, col),
                            snapshot@[row]@[col],
                        ) by {}
                    } else if miss {
                        assert(contradicts(
                            start.tile_at(y as int, x as int),
                            snapshot@[y as int]@[x as int],
                        ));
                    } else {
                        assert(missed_before);
                    }
                }
                x += 1;
            }
            y += 1;
        }
        if missed {
            Err(VisualizerError::MissingElement)
        } else {
            Ok(())
        }
    }

    /// Takes in the change of one cell's content. `coords` is the cell as
    /// `(row, col)`. Where the cell has an entry and the new content has
    /// another sprite, the entry moves to that sprite's batch, position and
    /// overlay unchanged; where the new content is not drawn, the entry is
    /// dropped; in both cases the retained content becomes the new one. A
    /// cell without an entry stays as it is. A cell outside the grid is
    /// refused and changes nothing.
    pub fn update_content(&mut self, tile: &Tile, coords: (usize, usize)) -> (result: Result<
        (),
        VisualizerError,
    >)
        requires
            old(self).wf(),
        ensures
            final(self).wf(),
            final(self).size() == old(self).size(),
            result is Ok <==> coords.0 < old(self).size() && coords.1 < old(self).size(),
            result matches Err(e) ==> e == VisualizerError::OutOfBounds && *final(self) == *old(self),
            result is Ok ==> final(self).changed_from(old(self), *tile, coords),
    {
        let n = self.map.len();
        let y = coords.0;
        let x = coords.1;
        if y >= n || x >= n {
            return Err(VisualizerError::OutOfBounds);
        }
        proof {
            self.lemma_entry_follows_content(y as int, x as int);
        }
        let previous_texture = Texture::from_content(&self.map[y][x].content);
        let current_texture = Texture::from_content(&tile.content);
        match previous_texture {
            Some(previous) => {
                match current_texture {
                    Some(current) => {
                        if previous.index() != current.index() {
                            self.move_entry(previous.index(), Some(current.index()), (x, y), tile.content);
                        } else {
                            proof {
                                crate::textures::lemma_index_is_injective(previous, current);
                                lemma_sprite_tells_content(self.tile_at(y as int, x as int).content, tile.content);
                            }
                        }
                    },
                    None => {
                        self.move_entry(previous.index(), None, (x, y), tile.content);
                    },
                }
            },
            None => {},
        }
        Ok(())
    }

    /// Takes in an update of either kind: what is now known of the map, as
    /// `reveal_known` does, or the change of one cell's content, as
    /// `update_content` does.
    pub fn update(&mut self, update_param: ContentsMapComponentUpdateParam) -> (result: Result<
        (),
        VisualizerError,
    >)
        requires
            old(self).wf(),
        ensures
            final(self).wf(),
            final(self).size() == old(self).size(),
            match update_param._type {
                ContentsMapComponentUpdateType::WorldVisibility(snapshot) => {
                    &&& !has_side(snapshot@, old(self).size()) ==> result == Err::<
                        (),
                        VisualizerError,
                    >(VisualizerError::OutOfBounds) && *final(self) == *old(self)
                    &&& has_side(snapshot@, old(self).size()) ==> {
                        &&& final(self).revealed_from(old(self), snapshot@)
                        &&& result is Ok <==> old(self).agrees_with(snapshot@)
                        &&& result matches Err(e) ==> e == VisualizerError::MissingElement
                    }
                },
                ContentsMapComponentUpdateType::ContentChange(tile, coords) => {
                    &&& result is Ok <==> coords.0 < old(self).size() && coords.1 < old(self).size()
                    &&& result matches Err(e) ==> e == VisualizerError::OutOfBounds && *final(self)
                        == *old(self)
                    &&& result is Ok ==> final(self).changed_from(old(self), tile, coords)
                },
            },
    {
        match update_param._type {
            ContentsMapComponentUpdateType::WorldVisibility(current_world) => {
                self.reveal_known(&current_world)
            },
            ContentsMapComponentUpdateType::ContentChange(tile, coords) => {
                self.update_content(&tile, coords)
            },
        }
    }
}

/// Revealing twice with one snapshot shows what revealing once shows: the
/// second reveal changes no entry, and leaves every entry in its batch and
/// its slot.
pub proof fn lemma_reveal_is_idempotent(
    before: ContentsMapComponent,
    once: ContentsMapComponent,
    twice: ContentsMapComponent,
    snapshot: Seq<Vec<Option<Tile>>>,
)
    requires
        once.revealed_from(&before, snapshot),
        twice.revealed_from(&once, snapshot),
    ensures
        twice.grid() == once.grid(),
        forall|row: int, col: int|
            0 <= row < before.size() && 0 <= col < before.size() ==> #[trigger] twice.entry_at(row, col)
                == once.entry_at(row, col),
        twice.same_slots(&once),
        once.wf() && twice.wf() ==> forall|t: int|
            0 <= t < TEXTURE_COUNT ==> (#[trigger] twice.batches()[t]).entries() == once.batches()[t].entries(),
{
    assert forall|row: int, col: int|
        0 <= row < before.size() && 0 <= col < before.size() implies #[trigger] twice.entry_at(row, col)
        == once.entry_at(row, col) by {
        assert(once.entry_at(row, col) == revealed_if(
            before.entry_at(row, col),
            confirms(before.tile_at(row, col), snapshot[row]@[col]),
        ));
        assert(once.tile_at(row, col) == before.tile_at(row, col));
    }
    if once.wf() && twice.wf() {
        assert forall|t: int| 0 <= t < TEXTURE_COUNT implies (#[trigger] twice.batches()[t]).entries()
            == once.batches()[t].entries() by {
            let a = once.batches()[t];
            let b = twice.batches()[t];
            assert(b.coords() == a.coords());
            assert forall|i: int| 0 <= i < a.entries().len() implies a.entries()[i] == b.entries()[i] by {
                once.lemma_slot_is_entry(t, i);
                twice.lemma_slot_is_entry(t, i);
                let c = a.coords()[i];
                assert(twice.entry_at(c.1 as int, c.0 as int) == once.entry_at(c.1 as int, c.0 as int));
            }
            assert(b.entries() =~= a.entries());
        }
    }
}

/// A reveal never brings the dark overlay back: an entry that was shown
/// without it is shown without it after any reveal.
pub proof fn lemma_reveal_never_hides(
    before: ContentsMapComponent,
    after: ContentsMapComponent,
    snapshot: Seq<Vec<Option<Tile>>>,
    row: int,
    col: int,
)
    requires
        after.revealed_from(&before, snapshot),
        0 <= row < before.size(),
        0 <= col < before.size(),
        before.entry_at(row, col) matches Some(e) && e.tint == Tint::Revealed,
    ensures
        after.entry_at(row, col) == before.entry_at(row, col),
{
    assert(after.entry_at(row, col) == revealed_if(
        before.entry_at(row, col),
        confirms(before.tile_at(row, col), snapshot[row]@[col]),
    ));
}

} // verus!
