//! Which textures of still images are uploaded, drawn and let go of. Large images are drawn in
//! tiles.
use vstd::prelude::*;

use crate::com::displayable::ImageWithRes;
use crate::com::image::Image;
use crate::com::res::Res;
use crate::double::{divide_half_even, round_half_even};

verus! {

/// The width and the height of tiles.
pub const TILE_SIZE: u32 = 512;

/// The width and the height up to which images are not drawn in tiles.
pub const MAX_UNTILED_SIZE: u32 = 8192;

/// Textures that can be used again for another image.
#[derive(Debug)]
pub enum AllocatedTextures<T> {
    Nothing,
    Single(T),
    Tiles(Vec<T>),
}

/// What textures there are that can be used again.
pub enum AllocatedTexturesView<T> {
    Nothing,
    Single(T),
    Tiles(Seq<T>),
}

impl<T> View for AllocatedTextures<T> {
    type V = AllocatedTexturesView<T>;

    open spec fn view(&self) -> AllocatedTexturesView<T> {
        match *self {
            AllocatedTextures::Nothing => AllocatedTexturesView::Nothing,
            AllocatedTextures::Single(t) => AllocatedTexturesView::Single(t),
            AllocatedTextures::Tiles(v) => AllocatedTexturesView::Tiles(v@),
        }
    }
}

/// The texture of a whole image: uploaded, or only there.
#[derive(Debug)]
pub enum SingleTexture<T> {
    Nothing,
    Current(T),
    Allocated(T),
}

/// The textures of an image.
#[derive(Debug)]
pub enum TextureLayout<T> {
    Single(SingleTexture<T>),
    Tiled {
        any_uploaded: bool,
        /// The uploaded tiles by row and column.
        tiles: Vec<Vec<Option<T>>>,
        reuse_cache: Vec<T>,
    },
}

/// A still image with its textures.
#[derive(Debug)]
pub struct StaticImage<T> {
    pub texture: TextureLayout<T>,
    pub image: ImageWithRes,
}

/// What to load while nothing else is done.
#[derive(Debug)]
pub enum PreloadTask {
    Nothing,
    AnimationFrame(usize),
    WholeImage,
    Tiles(Vec<(usize, usize)>),
}

/// How much of something can be seen.
#[derive(Clone, Copy, Debug, PartialEq, Eq, Structural)]
pub enum Visibility {
    Complete,
    Partial,
    /// Nothing, but that may change with the next step of scrolling.
    Preload,
    Offscreen,
    /// Nothing, and it is more than a tile away.
    Unload,
}

impl Visibility {
    /// How much of something can be seen, by how much of it can be across and down.
    pub open spec fn combined(self, b: Visibility) -> Visibility {
        if self is Offscreen || b is Offscreen {
            Visibility::Offscreen
        } else if self is Unload || b is Unload {
            Visibility::Unload
        } else if self is Preload || b is Preload {
            Visibility::Preload
        } else if self is Partial || b is Partial {
            Visibility::Partial
        } else {
            Visibility::Complete
        }
    }

    /// How much of something can be seen, by how much of it can be across and down.
    pub fn combine(self, b: Visibility) -> (r: Visibility)
        ensures
            r == self.combined(b),
    {
        match (self, b) {
            (Visibility::Offscreen, _) | (_, Visibility::Offscreen) => Visibility::Offscreen,
            (Visibility::Unload, _) | (_, Visibility::Unload) => Visibility::Unload,
            (Visibility::Preload, _) | (_, Visibility::Preload) => Visibility::Preload,
            (Visibility::Partial, _) | (_, Visibility::Partial) => Visibility::Partial,
            (Visibility::Complete, Visibility::Complete) => Visibility::Complete,
        }
    }

    pub open spec fn seen(self) -> bool {
        self is Complete || self is Partial
    }
}

/// How much of something can be seen in one direction, by its first and last pixel on the display,
/// the size of a tile and of the display, and by how many pixels a step of scrolling scrolls.
pub open spec fn visible_1d(start: int, end: int, tile: int, size: int, step: int) -> Visibility {
    if start - tile > size - 1 || end + tile < 0 {
        Visibility::Unload
    } else if start - step > size - 1 || end + step < 0 {
        Visibility::Offscreen
    } else if start > size - 1 || end < 0 {
        Visibility::Preload
    } else if start >= 0 && end <= size - 1 {
        Visibility::Complete
    } else {
        Visibility::Partial
    }
}

/// How much of something can be seen in one direction.
pub fn is_visible_1d(start: i32, end: i32, tile: i32, size: u32, step: i32) -> (r: Visibility)
    ensures
        r == visible_1d(start as int, end as int, tile as int, size as int, step as int),
{
    let (s, e, t): (i64, i64, i64) = (start as i64, end as i64, tile as i64);
    let (last, step): (i64, i64) = (size as i64 - 1, step as i64);
    if s - t > last || e + t < 0 {
        Visibility::Unload
    } else if s - step > last || e + step < 0 {
        Visibility::Offscreen
    } else if s > last || e < 0 {
        Visibility::Preload
    } else if s >= 0 && e <= last {
        Visibility::Complete
    } else {
        Visibility::Partial
    }
}

/// Where an image and its tiles are on the display, in pixels of it.
#[derive(Debug)]
pub struct Placement {
    /// Whether the image has no size there.
    pub empty: bool,
    /// Whether the image is much larger than it is shown, so that it waits to be scaled down.
    pub too_large: bool,
    /// The first and the last column and row of the image.
    pub columns: (i32, i32),
    pub rows: (i32, i32),
    /// The first and the last column of each column of tiles.
    pub tile_columns: Vec<(i32, i32)>,
    /// The first and the last row of each row of tiles.
    pub tile_rows: Vec<(i32, i32)>,
    /// The size of a tile.
    pub tile: i32,
    pub display: Res,
    /// By how many pixels a step of scrolling scrolls.
    pub step: i32,
}

impl Placement {
    pub open spec fn column(self, span: (i32, i32)) -> Visibility {
        visible_1d(
            span.0 as int,
            span.1 as int,
            self.tile as int,
            self.display.w as int,
            self.step as int,
        )
    }

    pub open spec fn row(self, span: (i32, i32)) -> Visibility {
        visible_1d(
            span.0 as int,
            span.1 as int,
            self.tile as int,
            self.display.h as int,
            self.step as int,
        )
    }

    /// How much of the image can be seen.
    pub open spec fn whole(self) -> Visibility {
        self.column(self.columns).combined(self.row(self.rows))
    }

    /// What becomes of a tile. Rows that are not needed are left or let go of as they are.
    pub open spec fn tile_at(self, x: int, y: int) -> Visibility {
        let r = self.row(self.tile_rows@[y]);
        if r is Offscreen || r is Unload {
            r
        } else {
            r.combined(self.column(self.tile_columns@[x]))
        }
    }

    fn column_visibility(&self, span: (i32, i32)) -> (r: Visibility)
        ensures
            r == self.column(span),
    {
        is_visible_1d(span.0, span.1, self.tile, self.display.w, self.step)
    }

    fn row_visibility(&self, span: (i32, i32)) -> (r: Visibility)
        ensures
            r == self.row(span),
    {
        is_visible_1d(span.0, span.1, self.tile, self.display.h, self.step)
    }
}

/// A tile to draw, and whether it is to be uploaded first.
#[derive(Debug)]
pub struct TileDraw<T> {
    pub x: usize,
    pub y: usize,
    pub upload: bool,
    /// A texture to upload it to, if there is one already.
    pub texture: Option<T>,
}

/// How to draw an image.
#[derive(Debug)]
pub enum DrawPlan<T> {
    /// Do not draw it.
    Skip(PreloadTask),
    /// Draw it as a whole, and upload it first if asked to.
    Whole(bool),
    /// Draw these tiles, and load others in advance.
    Tiles(Vec<TileDraw<T>>, Vec<(usize, usize)>),
}

/// The unit in the last place of a number as a float of 24 bits.
pub open spec fn single_unit(n: nat) -> nat
    decreases n,
{
    if n < 0x100_0000 {
        1
    } else {
        2 * single_unit(n / 2)
    }
}

/// A number as a float of 24 bits.
pub open spec fn as_single(n: nat) -> nat {
    let u = single_unit(n);
    (round_half_even(n as int, u as int) * u) as nat
}

/// How many tiles a size takes.
pub open spec fn tile_count(size: u32) -> nat {
    ((as_single(size as nat) + TILE_SIZE - 1) / TILE_SIZE as int) as nat
}

/// How many tiles a size takes.
pub fn count_tiles(size: u32) -> (r: usize)
    ensures
        r == tile_count(size),
{
    let mut unit: u64 = 1;
    let mut rest: u64 = size as u64;
    while rest >= 0x100_0000
        invariant
            unit * single_unit(rest as nat) == single_unit(size as nat),
            1 <= unit,
            unit * rest <= size,
        decreases rest,
    {
        proof {
            let (u, r, k) = (unit as int, rest as int, single_unit((rest / 2) as nat) as int);
            assert(single_unit(rest as nat) == 2 * k);
            assert(u * (2 * k) == (u * 2) * k) by (nonlinear_arith);
            assert((u * 2) * (r / 2) <= u * r) by (nonlinear_arith)
                requires
                    u >= 1,
                    r >= 0,
            ;
            assert(u <= u * r) by (nonlinear_arith)
                requires
                    u >= 1,
                    r >= 1,
            ;
        }
        unit = unit * 2;
        rest = rest / 2;
    }
    proof {
        let u = unit as int;
        assert(single_unit(rest as nat) == 1);
        assert(u * 1 == u) by (nonlinear_arith);
    }
    assert(unit == single_unit(size as nat));
    let q: u128 = divide_half_even(size as u128, unit as u128);
    proof {
        let (n, u) = (size as int, unit as int);
        assert(rest < 0x100_0000);
        lemma_single_bound(size as nat);
        assert(q * unit == as_single(size as nat));
    }
    let n: u64 = (q as u64) * unit;
    ((n + (TILE_SIZE as u64) - 1) / (TILE_SIZE as u64)) as usize
}

/// A number as a float is not much larger than the number.
proof fn lemma_single_bound(n: nat)
    requires
        n <= u32::MAX,
    ensures
        1 <= single_unit(n) <= 0x100,
        0 <= round_half_even(n as int, single_unit(n) as int) <= n + 1,
        0 <= round_half_even(n as int, single_unit(n) as int) * single_unit(n) <= n + 0x100,
{
    vstd::arithmetic::power2::lemma2_to64();
    lemma_single_unit(n, 8);
    let (m, u) = (n as int, single_unit(n) as int);
    let q = m / u;
    assert(0 <= q <= m && q * u <= m && (q + 1) * u <= m + u) by (nonlinear_arith)
        requires
            q == m / u,
            u >= 1,
            m >= 0,
    ;
    assert(0 <= q * u && 0 <= (q + 1) * u) by (nonlinear_arith)
        requires
            q >= 0,
            u >= 1,
    ;
    assert(q <= m) by (nonlinear_arith)
        requires
            q * u <= m,
            q >= 0,
            u >= 1,
    ;
    let r = round_half_even(m, u);
    assert(r == q || r == q + 1);
}

proof fn lemma_single_unit(n: nat, k: nat)
    requires
        n < 0x100_0000 * vstd::arithmetic::power2::pow2(k),
    ensures
        1 <= single_unit(n) <= vstd::arithmetic::power2::pow2(k),
    decreases k,
{
    vstd::arithmetic::power2::lemma2_to64();
    if n >= 0x100_0000 {
        if k == 0 {
            assert(false);
        }
        vstd::arithmetic::power2::lemma_pow2_unfold(k);
        lemma_single_unit(n / 2, (k - 1) as nat);
    } else {
        vstd::arithmetic::power2::lemma_pow2_pos(k);
    }
}

/// The uploaded tiles among the first ones of a row that fall under a condition.
pub open spec fn row_textures<T>(row: Seq<Option<T>>, taken: spec_fn(int) -> bool, n: int) -> Seq<T>
    decreases n,
{
    if n <= 0 {
        seq![]
    } else {
        let before = row_textures(row, taken, n - 1);
        match row[n - 1] {
            Some(t) => if taken(n - 1) {
                before.push(t)
            } else {
                before
            },
            None => before,
        }
    }
}

/// The uploaded tiles of the first rows that fall under a condition.
pub open spec fn tile_textures<T>(
    tiles: Seq<Vec<Option<T>>>,
    taken: spec_fn(int, int) -> bool,
    n: int,
) -> Seq<T>
    decreases n,
{
    if n <= 0 {
        seq![]
    } else {
        tile_textures(tiles, taken, n - 1) + row_textures(
            tiles[n - 1]@,
            |x: int| taken(x, n - 1),
            tiles[n - 1]@.len() as int,
        )
    }
}

/// A row without the tiles that fall under a condition.
pub open spec fn row_without<T>(row: Seq<Option<T>>, taken: spec_fn(int) -> bool) -> Seq<
    Option<T>,
> {
    Seq::new(
        row.len(),
        |x: int|
            if taken(x) {
                None
            } else {
                row[x]
            },
    )
}

/// Whether tiles are those that were there but for the ones that fall under a condition.
pub open spec fn without<T>(
    before: Seq<Vec<Option<T>>>,
    after: Seq<Vec<Option<T>>>,
    taken: spec_fn(int, int) -> bool,
) -> bool {
    &&& after.len() == before.len()
    &&& forall|y: int|
        0 <= y < after.len() ==> (#[trigger] after[y])@ == row_without(
            before[y]@,
            |x: int| taken(x, y),
        )
}

/// Takes the tiles of a row that fall under a condition, which is given for each.
fn take_row<T>(row: &mut Vec<Option<T>>, which: &Vec<bool>, cache: &mut Vec<T>)
    requires
        which@.len() == old(row)@.len(),
    ensures
        final(row)@ == row_without(old(row)@, |x: int| which@[x]),
        final(cache)@ == old(cache)@ + row_textures(
            old(row)@,
            |x: int| which@[x],
            old(row)@.len() as int,
        ),
{
    let ghost before = row@;
    let ghost kept = cache@;
    let ghost f = |x: int| which@[x];
    let mut x: usize = 0;
    assert(kept + row_textures(before, f, 0) =~= kept);
    while x < row.len()
        invariant
            x <= row@.len(),
            row@.len() == before.len(),
            which@.len() == before.len(),
            f == (|x: int| which@[x]),
            forall|i: int|
                0 <= i < x ==> #[trigger] row@[i] == (if which@[i] {
                    None
                } else {
                    before[i]
                }),
            forall|i: int| x <= i < before.len() ==> #[trigger] row@[i] == before[i],
            cache@ == kept + row_textures(before, f, x as int),
        decreases row.len() - x,
    {
        if which[x] {
            let t: Option<T> = row[x].take();
            if let Some(t) = t {
                cache.push(t);
            }
        }
        x += 1;
        assert(cache@ =~= kept + row_textures(before, f, x as int));
    }
    assert(row@ =~= row_without(before, f));
}

/// What was found out about some tiles: those to draw, and the textures that others can be uploaded
/// to.
pub type TilePass<T> = (Seq<TileDraw<T>>, Seq<T>);

/// What becomes of a tile. One that is far from being seen is let go of, and its texture is kept for
/// others. One that is seen and was not uploaded yet takes the texture that was kept last.
pub open spec fn pass_tile<T>(
    tile: Option<T>,
    at: Placement,
    x: int,
    y: int,
    was: TilePass<T>,
) -> TilePass<T> {
    let (draws, cache) = was;
    let v = at.tile_at(x, y);
    let (x, y) = (x as usize, y as usize);
    match tile {
        Some(t) => if v is Unload {
            (draws, cache.push(t))
        } else if v.seen() {
            (draws.push(TileDraw { x, y, upload: false, texture: None }), cache)
        } else {
            was
        },
        None => if !v.seen() {
            was
        } else if cache.len() > 0 {
            (
                draws.push(TileDraw { x, y, upload: true, texture: Some(cache.last()) }),
                cache.drop_last(),
            )
        } else {
            (draws.push(TileDraw { x, y, upload: true, texture: None }), cache)
        },
    }
}

/// What becomes of the first tiles of a row, one after the other.
pub open spec fn pass_row<T>(
    row: Seq<Option<T>>,
    at: Placement,
    y: int,
    n: int,
    was: TilePass<T>,
) -> TilePass<T>
    decreases n,
{
    if n <= 0 {
        was
    } else {
        pass_tile(row[n - 1], at, n - 1, y, pass_row(row, at, y, n - 1, was))
    }
}

/// What becomes of the tiles of the first rows, one row after the other.
pub open spec fn pass_tiles<T>(
    tiles: Seq<Vec<Option<T>>>,
    at: Placement,
    n: int,
    was: TilePass<T>,
) -> TilePass<T>
    decreases n,
{
    if n <= 0 {
        was
    } else {
        pass_row(
            tiles[n - 1]@,
            at,
            n - 1,
            tiles[n - 1]@.len() as int,
            pass_tiles(tiles, at, n - 1, was),
        )
    }
}

/// The tiles to load in advance among the first ones of a row.
pub open spec fn row_preloads<T>(row: Seq<Option<T>>, at: Placement, y: int, n: int) -> Seq<
    (usize, usize),
>
    decreases n,
{
    if n <= 0 {
        seq![]
    } else {
        let before = row_preloads(row, at, y, n - 1);
        if at.tile_at(n - 1, y) is Preload && row[n - 1] is None {
            before.push(((n - 1) as usize, y as usize))
        } else {
            before
        }
    }
}

/// The tiles to load in advance of the first rows.
pub open spec fn tile_preloads<T>(tiles: Seq<Vec<Option<T>>>, at: Placement, n: int) -> Seq<
    (usize, usize),
>
    decreases n,
{
    if n <= 0 {
        seq![]
    } else {
        tile_preloads(tiles, at, n - 1) + row_preloads(
            tiles[n - 1]@,
            at,
            n - 1,
            tiles[n - 1]@.len() as int,
        )
    }
}

/// Finds out what becomes of the tiles of a row.
fn plan_row<T>(
    row: &mut Vec<Option<T>>,
    cache: &mut Vec<T>,
    at: &Placement,
    y: usize,
    draws: &mut Vec<TileDraw<T>>,
    preloads: &mut Vec<(usize, usize)>,
)
    requires
        y < at.tile_rows@.len(),
        old(row)@.len() == at.tile_columns@.len(),
    ensures
        final(row)@ == row_without(old(row)@, |x: int| at.tile_at(x, y as int) is Unload),
        (final(draws)@, final(cache)@) == pass_row(
            old(row)@,
            *at,
            y as int,
            old(row)@.len() as int,
            (old(draws)@, old(cache)@),
        ),
        final(preloads)@ == old(preloads)@ + row_preloads(
            old(row)@,
            *at,
            y as int,
            old(row)@.len() as int,
        ),
{
    let ghost before = row@;
    let ghost was = (draws@, cache@);
    let ghost p0 = preloads@;
    let r = at.row_visibility(at.tile_rows[y]);
    let mut x: usize = 0;
    assert(p0 + row_preloads(before, *at, y as int, 0) =~= p0);
    while x < row.len()
        invariant
            x <= row@.len(),
            row@.len() == before.len(),
            before.len() == at.tile_columns@.len(),
            y < at.tile_rows@.len(),
            r == at.row(at.tile_rows@[y as int]),
            forall|i: int|
                0 <= i < x ==> #[trigger] row@[i] == (if at.tile_at(i, y as int) is Unload {
                    None
                } else {
                    before[i]
                }),
            forall|i: int| x <= i < before.len() ==> #[trigger] row@[i] == before[i],
            (draws@, cache@) == pass_row(before, *at, y as int, x as int, was),
            preloads@ == p0 + row_preloads(before, *at, y as int, x as int),
        decreases row.len() - x,
    {
        let v = match r {
            Visibility::Offscreen | Visibility::Unload => r,
            _ => r.combine(at.column_visibility(at.tile_columns[x])),
        };
        assert(v == at.tile_at(x as int, y as int));
        let missing: bool = row[x].is_none();
        match v {
            Visibility::Complete | Visibility::Partial => {
                let texture: Option<T> = if missing {
                    cache.pop()
                } else {
                    None
                };
                draws.push(TileDraw { x, y, upload: missing, texture });
            },
            Visibility::Preload => {
                if missing {
                    preloads.push((x, y));
                }
            },
            Visibility::Offscreen => {},
            Visibility::Unload => {
                let t: Option<T> = row[x].take();
                if let Some(t) = t {
                    cache.push(t);
                }
            },
        }
        x += 1;
        assert(preloads@ =~= p0 + row_preloads(before, *at, y as int, x as int));
    }
    let ghost g = |x: int| at.tile_at(x, y as int) is Unload;
    assert(row@ =~= row_without(before, g));
}

proof fn lemma_same_row<T>(
    row: Seq<Option<T>>,
    f: spec_fn(int) -> bool,
    g: spec_fn(int) -> bool,
    n: int,
)
    requires
        forall|x: int| 0 <= x < n ==> #[trigger] f(x) == g(x),
    ensures
        row_textures(row, f, n) == row_textures(row, g, n),
    decreases n,
{
    if n > 0 {
        lemma_same_row(row, f, g, n - 1);
        assert(f(n - 1) == g(n - 1));
    }
}

/// Finds out what becomes of tiles.
fn plan_tiles<T>(tiles: &mut Vec<Vec<Option<T>>>, cache: &mut Vec<T>, at: &Placement) -> (r: (
    Vec<TileDraw<T>>,
    Vec<(usize, usize)>,
))
    requires
        old(tiles)@.len() == at.tile_rows@.len(),
        forall|y: int|
            0 <= y < old(tiles)@.len() ==> (#[trigger] old(tiles)@[y])@.len()
                == at.tile_columns@.len(),
    ensures
        without(old(tiles)@, final(tiles)@, |x: int, y: int| at.tile_at(x, y) is Unload),
        (r.0@, final(cache)@) == pass_tiles(
            old(tiles)@,
            *at,
            old(tiles)@.len() as int,
            (seq![], old(cache)@),
        ),
        r.1@ == tile_preloads(old(tiles)@, *at, old(tiles)@.len() as int),
{
    let ghost before = tiles@;
    let ghost was: TilePass<T> = (seq![], cache@);
    let ghost f = |x: int, y: int| at.tile_at(x, y) is Unload;
    let mut draws: Vec<TileDraw<T>> = Vec::new();
    let mut preloads: Vec<(usize, usize)> = Vec::new();
    let mut y: usize = 0;
    assert(draws@ =~= seq![]);
    while y < tiles.len()
        invariant
            y <= tiles@.len(),
            tiles@.len() == before.len(),
            before.len() == at.tile_rows@.len(),
            f == (|x: int, y: int| at.tile_at(x, y) is Unload),
            forall|i: int|
                0 <= i < before.len() ==> (#[trigger] before[i])@.len() == at.tile_columns@.len(),
            forall|i: int| y <= i < before.len() ==> #[trigger] tiles@[i] == before[i],
            forall|i: int|
                0 <= i < y ==> (#[trigger] tiles@[i])@ == row_without(
                    before[i]@,
                    |x: int| f(x, i),
                ),
            (draws@, cache@) == pass_tiles(before, *at, y as int, was),
            preloads@ == tile_preloads(before, *at, y as int),
        decreases tiles.len() - y,
    {
        let ghost now = tiles@;
        assert(now[y as int] == before[y as int]);
        plan_row(&mut tiles[y], cache, at, y, &mut draws, &mut preloads);
        proof {
            let g = |x: int| at.tile_at(x, y as int) is Unload;
            let h = |x: int| f(x, y as int);
            assert(g =~= h);
            assert(preloads@ =~= tile_preloads(before, *at, y + 1));
        }
        y += 1;
    }
    (draws, preloads)
}

impl<T> StaticImage<T> {
    /// Whether there are as many tiles as the image takes.
    pub open spec fn wf(self) -> bool {
        self.texture matches TextureLayout::Tiled { tiles, .. } ==> {
            &&& tiles@.len() == tile_count(self.image.img.res.h)
            &&& forall|y: int|
                0 <= y < tiles@.len() ==> (#[trigger] tiles@[y])@.len() == tile_count(
                    self.image.img.res.w,
                )
        }
    }

    /// Whether a placement is one for the tiles of the image.
    pub open spec fn placed(self, at: Placement) -> bool {
        &&& at.tile_columns@.len() == tile_count(self.image.img.res.w)
        &&& at.tile_rows@.len() == tile_count(self.image.img.res.h)
    }

    /// Whether all tiles are missing.
    pub open spec fn no_tiles(tiles: Seq<Vec<Option<T>>>) -> bool {
        forall|y: int, x: int|
            #![trigger tiles[y]@[x]]
            0 <= y < tiles.len() && 0 <= x < tiles[y]@.len() ==> tiles[y]@[x] is None
    }

    /// Whether it is an image of which nothing was uploaded, with textures to use again.
    pub open spec fn is_new(self, image: ImageWithRes, at: AllocatedTexturesView<T>) -> bool {
        &&& self.image == image
        &&& if image.img.res.h <= MAX_UNTILED_SIZE && image.img.res.w <= MAX_UNTILED_SIZE {
            self.texture == TextureLayout::Single(
                match at {
                    AllocatedTexturesView::Single(t) => SingleTexture::Allocated(t),
                    _ => SingleTexture::Nothing,
                },
            )
        } else {
            &&& self.texture matches TextureLayout::Tiled { any_uploaded, tiles, reuse_cache }
            &&& !any_uploaded
            &&& Self::no_tiles(tiles@)
            &&& reuse_cache@ == match at {
                AllocatedTexturesView::Tiles(v) => v,
                _ => Seq::<T>::empty(),
            }
        }
    }

    /// An image, with textures to use again.
    pub fn new(image: ImageWithRes, allocated: AllocatedTextures<T>) -> (r: Self)
        ensures
            r.wf(),
            r.is_new(image, allocated@),
    {
        let res = image.img.res;
        if res.h <= MAX_UNTILED_SIZE && res.w <= MAX_UNTILED_SIZE {
            let single = match allocated {
                AllocatedTextures::Single(t) => SingleTexture::Allocated(t),
                _ => SingleTexture::Nothing,
            };
            return StaticImage { texture: TextureLayout::Single(single), image };
        }
        let rows: usize = count_tiles(res.h);
        let columns: usize = count_tiles(res.w);
        let mut tiles: Vec<Vec<Option<T>>> = Vec::new();
        while tiles.len() < rows
            invariant
                tiles@.len() <= rows,
                columns == tile_count(res.w),
                forall|y: int| 0 <= y < tiles@.len() ==> (#[trigger] tiles@[y])@.len() == columns,
                Self::no_tiles(tiles@),
            decreases rows - tiles.len(),
        {
            let mut row: Vec<Option<T>> = Vec::new();
            while row.len() < columns
                invariant
                    row@.len() <= columns,
                    forall|x: int| 0 <= x < row@.len() ==> #[trigger] row@[x] is None,
                decreases columns - row.len(),
            {
                row.push(None);
            }
            tiles.push(row);
        }
        let reuse_cache: Vec<T> = match allocated {
            AllocatedTextures::Tiles(v) => v,
            _ => Vec::new(),
        };
        StaticImage {
            texture: TextureLayout::Tiled { any_uploaded: false, tiles, reuse_cache },
            image,
        }
    }

    pub open spec fn spec_needs_preload(self) -> bool {
        match self.texture {
            TextureLayout::Single(s) => !(s is Current),
            TextureLayout::Tiled { any_uploaded, reuse_cache, .. } => !any_uploaded
                && reuse_cache@.len() == 0,
        }
    }

    /// Whether nothing was uploaded yet.
    pub fn needs_preload(&self) -> (r: bool)
        ensures
            r == self.spec_needs_preload(),
    {
        match &self.texture {
            TextureLayout::Single(SingleTexture::Current(_)) => false,
            TextureLayout::Single(_) => true,
            TextureLayout::Tiled { any_uploaded, reuse_cache, .. } => !*any_uploaded
                && reuse_cache.len() == 0,
        }
    }

    /// Whether another image is this one after textures to use again were given to it. It takes
    /// them only if they fit and it has none.
    pub open spec fn attached(
        self,
        allocated: AllocatedTextures<T>,
        after: StaticImage<T>,
    ) -> bool {
        &&& after.image == self.image
        &&& match (self.texture, allocated) {
            (
                TextureLayout::Single(SingleTexture::Nothing),
                AllocatedTextures::Single(t),
            ) => after.texture == TextureLayout::Single(SingleTexture::Allocated(t)),
            (
                TextureLayout::Tiled { any_uploaded, tiles, reuse_cache },
                AllocatedTextures::Tiles(v),
            ) => if !any_uploaded && reuse_cache@.len() == 0 {
                after.texture == (TextureLayout::Tiled { any_uploaded, tiles, reuse_cache: v })
            } else {
                after.texture == self.texture
            },
            _ => after.texture == self.texture,
        }
    }

    /// Attaches textures to use again, where they are of use.
    pub fn attach_textures(&mut self, allocated: AllocatedTextures<T>)
        ensures
            old(self).wf() ==> final(self).wf(),
            old(self).attached(allocated, *final(self)),
    {
        match &mut self.texture {
            TextureLayout::Single(single) => {
                if let SingleTexture::Nothing = single {
                    if let AllocatedTextures::Single(t) = allocated {
                        *single = SingleTexture::Allocated(t);
                    }
                }
            },
            TextureLayout::Tiled { any_uploaded, reuse_cache, .. } => {
                if !*any_uploaded && reuse_cache.len() == 0 {
                    if let AllocatedTextures::Tiles(v) = allocated {
                        *reuse_cache = v;
                    }
                }
            },
        }
    }
}

impl<T> SingleTexture<T> {
    pub open spec fn texture(self) -> Option<T> {
        match self {
            SingleTexture::Current(t) => Some(t),
            SingleTexture::Allocated(t) => Some(t),
            SingleTexture::Nothing => None,
        }
    }

    /// Takes the texture, if there is one.
    pub fn take_texture(&mut self) -> (r: Option<T>)
        ensures
            r == old(self).texture(),
            *final(self) is Nothing,
    {
        let mut old = SingleTexture::Nothing;
        std::mem::swap(self, &mut old);
        match old {
            SingleTexture::Current(t) => Some(t),
            SingleTexture::Allocated(t) => Some(t),
            SingleTexture::Nothing => None,
        }
    }
}

impl<T> StaticImage<T> {
    /// The textures that are there, for another image.
    pub open spec fn textures(self) -> AllocatedTexturesView<T> {
        match self.texture {
            TextureLayout::Single(s) => match s.texture() {
                Some(t) => AllocatedTexturesView::Single(t),
                None => AllocatedTexturesView::Nothing,
            },
            TextureLayout::Tiled { any_uploaded, tiles, reuse_cache } => if any_uploaded
                || reuse_cache@.len() > 0 {
                AllocatedTexturesView::Tiles(
                    reuse_cache@ + tile_textures(
                        tiles@,
                        |x: int, y: int| true,
                        tiles@.len() as int,
                    ),
                )
            } else {
                AllocatedTexturesView::Nothing
            },
        }
    }

    /// Whether another image is this one after all of its textures were taken.
    pub open spec fn emptied(self, after: StaticImage<T>) -> bool {
        &&& after.image == self.image
        &&& match self.texture {
            TextureLayout::Single(_) => after.texture == TextureLayout::Single(
                SingleTexture::<T>::Nothing,
            ),
            TextureLayout::Tiled { any_uploaded, tiles, reuse_cache } => {
                &&& after.texture matches TextureLayout::Tiled {
                    any_uploaded: u,
                    tiles: t,
                    reuse_cache: c,
                }
                &&& !u
                &&& c@.len() == 0
                &&& if any_uploaded || reuse_cache@.len() > 0 {
                    Self::no_tiles(t@)
                } else {
                    t == tiles
                }
            },
        }
    }

    /// Takes the textures for another image.
    pub fn take_textures(&mut self) -> (r: AllocatedTextures<T>)
        requires
            old(self).wf(),
        ensures
            final(self).wf(),
            final(self).image == old(self).image,
            r@ == old(self).textures(),
            old(self).emptied(*final(self)),
    {
        let ghost w = tile_count(self.image.img.res.w);
        match &mut self.texture {
            TextureLayout::Single(s) => match s.take_texture() {
                Some(t) => AllocatedTextures::Single(t),
                None => AllocatedTextures::Nothing,
            },
            TextureLayout::Tiled { any_uploaded, tiles, reuse_cache } => {
                if !*any_uploaded && reuse_cache.len() == 0 {
                    return AllocatedTextures::Nothing;
                }
                *any_uploaded = false;
                let mut cache: Vec<T> = Vec::new();
                cache.append(reuse_cache);
                take_all(tiles, &mut cache, Ghost(w));
                AllocatedTextures::Tiles(cache)
            },
        }
    }

    /// Whether another image is this one after it let go of its textures.
    pub open spec fn cleared(self, after: StaticImage<T>) -> bool {
        &&& after.image == self.image
        &&& match self.texture {
            TextureLayout::Single(_) => after.texture == TextureLayout::Single(
                SingleTexture::<T>::Nothing,
            ),
            TextureLayout::Tiled { any_uploaded, tiles, .. } => {
                &&& after.texture matches TextureLayout::Tiled {
                    any_uploaded: u,
                    tiles: t,
                    reuse_cache: c,
                }
                &&& !u
                &&& c@.len() == 0
                &&& if any_uploaded {
                    Self::no_tiles(t@)
                } else {
                    t == tiles
                }
            },
        }
    }

    /// Lets go of all textures.
    pub fn invalidate(&mut self)
        requires
            old(self).wf(),
        ensures
            final(self).wf(),
            old(self).cleared(*final(self)),
    {
        let ghost w = tile_count(self.image.img.res.w);
        match &mut self.texture {
            TextureLayout::Single(s) => {
                *s = SingleTexture::Nothing;
            },
            TextureLayout::Tiled { any_uploaded, tiles, reuse_cache } => {
                if *any_uploaded {
                    let mut gone: Vec<T> = Vec::new();
                    take_all(tiles, &mut gone, Ghost(w));
                    *any_uploaded = false;
                }
                *reuse_cache = Vec::new();
            },
        }
    }

    /// Finds out how to draw the image, and lets go of what is far from being seen. An image that
    /// is seen as a whole is not drawn in tiles, however large it is.
    pub fn draw(&mut self, at: &Placement) -> (plan: DrawPlan<T>)
        requires
            old(self).wf(),
            old(self).placed(*at),
        ensures
            final(self).wf(),
            final(self).image == old(self).image,
            old(self).drawn(*at, plan, final(self).texture),
    {
        if at.empty || at.too_large {
            return DrawPlan::Skip(PreloadTask::Nothing);
        }
        let whole = at.column_visibility(at.columns).combine(at.row_visibility(at.rows));
        let seen: bool = match whole {
            Visibility::Complete | Visibility::Partial => true,
            _ => false,
        };
        match &mut self.texture {
            TextureLayout::Single(s) => {
                if seen {
                    let current: bool = match s {
                        SingleTexture::Current(_) => true,
                        _ => false,
                    };
                    return DrawPlan::Whole(!current);
                }
                match whole {
                    Visibility::Preload => {
                        let current: bool = match s {
                            SingleTexture::Current(_) => true,
                            _ => false,
                        };
                        return DrawPlan::Skip(
                            if current {
                                PreloadTask::Nothing
                            } else {
                                PreloadTask::WholeImage
                            },
                        );
                    },
                    Visibility::Unload => {},
                    _ => return DrawPlan::Skip(PreloadTask::Nothing),
                }
            },
            TextureLayout::Tiled { any_uploaded, tiles, reuse_cache } => match whole {
                Visibility::Complete => {},
                Visibility::Partial => {
                    *any_uploaded = true;
                    let (draws, preloads) = plan_tiles(tiles, reuse_cache, at);
                    return DrawPlan::Tiles(draws, preloads);
                },
                Visibility::Preload => {
                    let (draws, preloads) = plan_tiles(tiles, reuse_cache, at);
                    return DrawPlan::Tiles(draws, preloads);
                },
                Visibility::Offscreen => return DrawPlan::Skip(PreloadTask::Nothing),
                Visibility::Unload => {},
            },
        }
        if seen {
            self.texture = TextureLayout::Single(SingleTexture::Nothing);
            return DrawPlan::Whole(true);
        }
        self.invalidate();
        DrawPlan::Skip(PreloadTask::Nothing)
    }

    /// Whether a plan is how to draw the image, and textures are those that are left.
    pub open spec fn drawn(self, at: Placement, plan: DrawPlan<T>, after: TextureLayout<T>) -> bool {
        let unload = |x: int, y: int| at.tile_at(x, y) is Unload;
        if at.empty || at.too_large {
            plan matches DrawPlan::Skip(PreloadTask::Nothing) && after == self.texture
        } else {
            match (self.texture, at.whole()) {
                (TextureLayout::Single(s), Visibility::Complete | Visibility::Partial) => {
                    plan == DrawPlan::<T>::Whole(!(s is Current)) && after == self.texture
                },
                (TextureLayout::Tiled { .. }, Visibility::Complete) => {
                    plan == DrawPlan::<T>::Whole(true) && after == TextureLayout::Single(
                        SingleTexture::<T>::Nothing,
                    )
                },
                (
                    TextureLayout::Tiled { any_uploaded, tiles, reuse_cache },
                    Visibility::Partial | Visibility::Preload,
                ) => {
                    &&& plan matches DrawPlan::Tiles(draws, preloads)
                    &&& preloads@ == tile_preloads(tiles@, at, tiles@.len() as int)
                    &&& after matches TextureLayout::Tiled {
                        any_uploaded: u,
                        tiles: t,
                        reuse_cache: c,
                    }
                    &&& u == (any_uploaded || at.whole() is Partial)
                    &&& without(tiles@, t@, unload)
                    &&& (draws@, c@) == pass_tiles(
                        tiles@,
                        at,
                        tiles@.len() as int,
                        (seq![], reuse_cache@),
                    )
                },
                (TextureLayout::Single(s), Visibility::Preload) => {
                    &&& plan matches DrawPlan::Skip(task)
                    &&& if s is Current {
                        task is Nothing
                    } else {
                        task is WholeImage
                    }
                    &&& after == self.texture
                },
                (_, Visibility::Offscreen) => {
                    plan matches DrawPlan::Skip(PreloadTask::Nothing) && after == self.texture
                },
                (TextureLayout::Single(_), Visibility::Unload) => {
                    plan matches DrawPlan::Skip(PreloadTask::Nothing) && after
                        == TextureLayout::Single(SingleTexture::<T>::Nothing)
                },
                (TextureLayout::Tiled { any_uploaded, tiles, .. }, Visibility::Unload) => {
                    &&& plan matches DrawPlan::Skip(PreloadTask::Nothing)
                    &&& after matches TextureLayout::Tiled {
                        any_uploaded: u,
                        tiles: t,
                        reuse_cache: c,
                    }
                    &&& !u
                    &&& c@.len() == 0
                    &&& if any_uploaded {
                        Self::no_tiles(t@)
                    } else {
                        t == tiles
                    }
                },
            }
        }
    }

    /// Takes the texture that the whole image is uploaded to, if there is one already.
    pub fn take_whole(&mut self) -> (r: Option<T>)
        requires
            old(self).texture is Single,
        ensures
            r == old(self).texture->Single_0.texture(),
            final(self).texture == TextureLayout::Single(SingleTexture::<T>::Nothing),
            final(self).image == old(self).image,
    {
        match &mut self.texture {
            TextureLayout::Single(s) => s.take_texture(),
            TextureLayout::Tiled { .. } => None,
        }
    }

    /// The whole image was uploaded to a texture.
    pub fn set_whole(&mut self, t: T)
        requires
            old(self).texture is Single,
        ensures
            final(self).texture == TextureLayout::Single(SingleTexture::Current(t)),
            final(self).image == old(self).image,
    {
        self.texture = TextureLayout::Single(SingleTexture::Current(t));
    }

    /// Takes a texture that a tile can be uploaded to, if there is one already.
    pub fn take_tile(&mut self) -> (r: Option<T>)
        requires
            old(self).wf(),
        ensures
            final(self).wf(),
            final(self).image == old(self).image,
            match old(self).texture {
                TextureLayout::Single(_) => r is None && final(self).texture == old(self).texture,
                TextureLayout::Tiled { any_uploaded, tiles, reuse_cache } => {
                    &&& final(self).texture matches TextureLayout::Tiled {
                        any_uploaded: u,
                        tiles: t,
                        reuse_cache: c,
                    }
                    &&& u == any_uploaded
                    &&& t == tiles
                    &&& if reuse_cache@.len() > 0 {
                        r == Some(reuse_cache@.last()) && c@ == reuse_cache@.drop_last()
                    } else {
                        r is None && c@ == reuse_cache@
                    }
                },
            },
    {
        match &mut self.texture {
            TextureLayout::Single(_) => None,
            TextureLayout::Tiled { reuse_cache, .. } => reuse_cache.pop(),
        }
    }

    /// A tile was uploaded to a texture.
    pub fn set_tile(&mut self, x: usize, y: usize, texture: T)
        requires
            old(self).wf(),
            old(self).texture is Tiled,
            x < tile_count(old(self).image.img.res.w),
            y < tile_count(old(self).image.img.res.h),
        ensures
            final(self).wf(),
            final(self).image == old(self).image,
            final(self).texture matches TextureLayout::Tiled { any_uploaded, tiles, reuse_cache }
                && any_uploaded == old(self).texture->any_uploaded && reuse_cache == old(
                self,
            ).texture->reuse_cache && tiles@.len() == old(self).texture->tiles@.len() && (forall|
                j: int,
                i: int,
            |
                #![trigger tiles@[j]@[i]]
                0 <= j < tiles@.len() && 0 <= i < tiles@[j]@.len() ==> tiles@[j]@[i] == (if i == x
                    && j == y {
                    Some(texture)
                } else {
                    old(self).texture->tiles@[j]@[i]
                })),
    {
        match &mut self.texture {
            TextureLayout::Single(_) => {},
            TextureLayout::Tiled { tiles, .. } => {
                tiles[y][x] = Some(texture);
            },
        }
    }

    /// Tiles are uploaded in advance.
    pub fn mark_uploaded(&mut self)
        ensures
            final(self).image == old(self).image,
            old(self).wf() ==> final(self).wf(),
            match old(self).texture {
                TextureLayout::Single(_) => final(self).texture == old(self).texture,
                TextureLayout::Tiled { tiles, reuse_cache, .. } => final(self).texture
                    == (TextureLayout::Tiled { any_uploaded: true, tiles, reuse_cache }),
            },
    {
        match &mut self.texture {
            TextureLayout::Single(_) => {},
            TextureLayout::Tiled { any_uploaded, .. } => {
                *any_uploaded = true;
            },
        }
    }
}

/// Takes all tiles.
fn take_all<T>(tiles: &mut Vec<Vec<Option<T>>>, cache: &mut Vec<T>, Ghost(w): Ghost<nat>)
    requires
        forall|y: int| 0 <= y < old(tiles)@.len() ==> (#[trigger] old(tiles)@[y])@.len() == w,
    ensures
        final(tiles)@.len() == old(tiles)@.len(),
        forall|y: int| 0 <= y < final(tiles)@.len() ==> (#[trigger] final(tiles)@[y])@.len() == w,
        StaticImage::<T>::no_tiles(final(tiles)@),
        final(cache)@ == old(cache)@ + tile_textures(
            old(tiles)@,
            |x: int, y: int| true,
            old(tiles)@.len() as int,
        ),
{
    let ghost before = tiles@;
    let ghost c0 = cache@;
    let ghost all = |x: int, y: int| true;
    let mut y: usize = 0;
    assert(c0 + tile_textures(before, all, 0) =~= c0);
    while y < tiles.len()
        invariant
            y <= tiles@.len(),
            tiles@.len() == before.len(),
            all == (|x: int, y: int| true),
            forall|i: int| 0 <= i < before.len() ==> (#[trigger] before[i])@.len() == w,
            forall|i: int| y <= i < before.len() ==> #[trigger] tiles@[i] == before[i],
            forall|i: int| 0 <= i < y ==> (#[trigger] tiles@[i])@.len() == w,
            forall|j: int, i: int|
                #![trigger tiles@[j]@[i]]
                0 <= j < y && 0 <= i < tiles@[j]@.len() ==> tiles@[j]@[i] is None,
            cache@ == c0 + tile_textures(before, all, y as int),
        decreases tiles.len() - y,
    {
        let mut which: Vec<bool> = Vec::new();
        let n: usize = tiles[y].len();
        while which.len() < n
            invariant
                which@.len() <= n,
                forall|i: int| 0 <= i < which@.len() ==> #[trigger] which@[i],
            decreases n - which.len(),
        {
            which.push(true);
        }
        take_row(&mut tiles[y], &which, cache);
        proof {
            let f = |x: int| which@[x];
            let g = |x: int| all(x, y as int);
            lemma_same_row(before[y as int]@, f, g, before[y as int]@.len() as int);
            assert(cache@ =~= c0 + tile_textures(before, all, y + 1));
        }
        y += 1;
    }
}

/// The size of the part of an image that a tile shows.
pub fn tile_size(res: Res, x: u32, y: u32) -> (r: (u32, u32))
    requires
        x <= res.w,
        y <= res.h,
    ensures
        r.0 == if res.w - x < TILE_SIZE {
            res.w - x
        } else {
            TILE_SIZE as int
        },
        r.1 == if res.h - y < TILE_SIZE {
            res.h - y
        } else {
            TILE_SIZE as int
        },
{
    let (w, h): (u32, u32) = (res.w - x, res.h - y);
    (
        if w < TILE_SIZE {
            w
        } else {
            TILE_SIZE
        },
        if h < TILE_SIZE {
            h
        } else {
            TILE_SIZE
        },
    )
}

/// Taking the textures of an image leaves none that could be taken again.
pub proof fn law_textures_taken_once<T>(before: StaticImage<T>, after: StaticImage<T>)
    requires
        match before.texture {
            TextureLayout::Single(_) => after.texture == TextureLayout::Single(
                SingleTexture::<T>::Nothing,
            ),
            TextureLayout::Tiled { .. } => after.texture matches TextureLayout::Tiled {
                any_uploaded,
                reuse_cache,
                ..
            } && !any_uploaded && reuse_cache@.len() == 0,
        },
    ensures
        after.textures() is Nothing,
{
}

/// Whether a texture that is there already is used for a whole image, by its size.
pub fn reuses_whole(existing: Option<Res>, res: Res) -> (r: bool)
    ensures
        r == (existing == Some(res)),
{
    match existing {
        Some(e) => e.w == res.w && e.h == res.h,
        None => false,
    }
}

/// The part of an image that is uploaded for a tile: where it begins, and its size.
#[derive(Clone, Copy, Debug, PartialEq, Eq, Structural)]
pub struct TileSource {
    pub x: u32,
    pub y: u32,
    pub w: u32,
    pub h: u32,
}

impl TileSource {
    /// Whether it is the part that the tile of a column and a row shows.
    pub open spec fn shows(self, res: Res, column: nat, row: nat) -> bool {
        &&& self.x == column * TILE_SIZE
        &&& self.y == row * TILE_SIZE
        &&& self.w == if res.w - self.x < TILE_SIZE {
            res.w - self.x
        } else {
            TILE_SIZE as int
        }
        &&& self.h == if res.h - self.y < TILE_SIZE {
            res.h - self.y
        } else {
            TILE_SIZE as int
        }
    }

    /// The place of the byte that a row of it begins with.
    pub open spec fn row_start(self, stride: nat, channels: nat, row: nat) -> int {
        (self.y + row) * stride + self.x * channels
    }
}

/// The part of an image that is uploaded for the tile of a column and a row.
pub fn tile_source(res: Res, column: u32, row: u32) -> (r: TileSource)
    requires
        column * TILE_SIZE <= res.w,
        row * TILE_SIZE <= res.h,
    ensures
        r.shows(res, column as nat, row as nat),
{
    let (x, y): (u32, u32) = (column * TILE_SIZE, row * TILE_SIZE);
    let (w, h): (u32, u32) = tile_size(res, x, y);
    TileSource { x, y, w, h }
}

/// The bytes that are uploaded for a tile are those of the image, and none after them.
pub proof fn law_tile_is_inside(img: Image, t: TileSource, column: nat, row: nat, line: nat)
    requires
        img.wf(),
        t.shows(img.res, column, row),
        t.x <= img.res.w,
        t.y <= img.res.h,
        line < t.h,
    ensures
        0 <= t.row_start(img.stride as nat, img.data().spec_channels(), line),
        t.row_start(img.stride as nat, img.data().spec_channels(), line) + t.w
            * img.data().spec_channels() <= img.data().spec_bytes().len(),
{
    let c = img.data().spec_channels();
    let (w, h) = (img.res.w as int, img.res.h as int);
    let (x, y, tw) = (t.x as int, t.y as int, t.w as int);
    let k = line as int;
    let stride = img.stride as int;
    assert(0 <= (y + k) * stride + x * c) by (nonlinear_arith)
        requires
            0 <= y,
            0 <= k,
            0 <= stride,
            0 <= x,
            0 <= c,
    ;
    assert((y + k) * stride + x * c + tw * c <= (w * h) * c) by (nonlinear_arith)
        requires
            stride == w * c,
            0 <= c,
            0 <= x,
            0 <= tw,
            x + tw <= w,
            0 <= y,
            0 <= k,
            y + k + 1 <= h,
    ;
}

/// Something can be seen if a part of it lies on the display, and as a whole if all of it does.
/// What lies beside the display is loaded in advance if a step of scrolling may show it, and let
/// go of if it is more than a tile away.
pub proof fn law_what_can_be_seen(start: int, end: int, tile: int, size: int, step: int)
    requires
        start <= end,
        0 <= step <= tile,
        0 < size,
    ensures
        visible_1d(start, end, tile, size, step) is Complete <==> 0 <= start && end < size,
        visible_1d(start, end, tile, size, step).seen() <==> exists|p: int|
            start <= p <= end && #[trigger] on_display(p, size),
        visible_1d(start, end, tile, size, step) is Unload <==> start - size >= tile || end
            < -tile,
        visible_1d(start, end, tile, size, step) is Preload <==> size <= start < size + step
            || -step <= end < 0,
{
    if start < size && end >= 0 {
        let p: int = if start > 0 {
            start
        } else {
            0
        };
        assert(on_display(p, size));
    }
}

/// Whether a row or a column is on a display of a size.
pub open spec fn on_display(p: int, size: int) -> bool {
    0 <= p < size
}

/// Something is seen if it is both across and down, and seen as a whole if it is so in both
/// directions. Being far away in one direction is enough to be let go of or not to be loaded.
pub proof fn law_seen_in_both_directions(a: Visibility, b: Visibility)
    ensures
        a.combined(b) == b.combined(a),
        a.combined(b).seen() <==> a.seen() && b.seen(),
        a.combined(b) is Complete <==> a is Complete && b is Complete,
        a.combined(b) is Preload ==> (a is Preload || a.seen()) && (b is Preload || b.seen()),
        a is Preload && (b is Preload || b.seen()) ==> a.combined(b) is Preload,
        a.seen() <==> a is Complete || a is Partial,
        a.combined(b) is Unload <==> (a is Unload || b is Unload) && !(a is Offscreen) && !(b
            is Offscreen),
{
}

/// Tiles cover an image, and none is left over. Sizes are told apart as floats are.
pub proof fn law_tiles_cover_the_image(size: u32)
    requires
        0 < size < 0x100_0000,
    ensures
        (tile_count(size) - 1) * 512 < size <= tile_count(size) * 512,
{
    let n = size as nat;
    assert(single_unit(n) == 1);
    assert(round_half_even(n as int, 1) == n) by {
        assert(n as int / 1 == n);
        assert(n as int % 1 == 0);
    }
    assert(as_single(n) == n);
}

/// Whether a tile is among some to draw, to be uploaded first or not.
pub open spec fn is_drawn<T>(draws: Seq<TileDraw<T>>, x: int, y: int, upload: bool) -> bool {
    exists|i: int|
        0 <= i < draws.len() && (#[trigger] draws[i]).x == x && draws[i].y == y && draws[i].upload
            == upload
}

proof fn lemma_drawn_push<T>(
    draws: Seq<TileDraw<T>>,
    d: TileDraw<T>,
    x: int,
    y: int,
    upload: bool,
)
    ensures
        is_drawn(draws.push(d), x, y, upload) <==> is_drawn(draws, x, y, upload) || (d.x == x
            && d.y == y && d.upload == upload),
{
    let more = draws.push(d);
    if is_drawn(draws, x, y, upload) {
        let i = choose|i: int|
            0 <= i < draws.len() && (#[trigger] draws[i]).x == x && draws[i].y == y
                && draws[i].upload == upload;
        assert(more[i] == draws[i]);
    }
    if d.x == x && d.y == y && d.upload == upload {
        assert(more[draws.len() as int] == d);
    }
    if is_drawn(more, x, y, upload) {
        let i = choose|i: int|
            0 <= i < more.len() && (#[trigger] more[i]).x == x && more[i].y == y
                && more[i].upload == upload;
        if i < draws.len() {
            assert(draws[i] == more[i]);
        }
    }
}

proof fn lemma_row_drawn<T>(
    row: Seq<Option<T>>,
    at: Placement,
    y: int,
    n: int,
    was: TilePass<T>,
    tx: int,
    ty: int,
    upload: bool,
)
    requires
        0 <= y <= usize::MAX,
        0 <= n <= usize::MAX,
        n <= row.len(),
    ensures
        is_drawn(pass_row(row, at, y, n, was).0, tx, ty, upload) <==> is_drawn(
            was.0,
            tx,
            ty,
            upload,
        ) || (ty == y && 0 <= tx < n && at.tile_at(tx, ty).seen() && upload == (row[tx] is None)),
    decreases n,
{
    if n > 0 {
        lemma_row_drawn(row, at, y, n - 1, was, tx, ty, upload);
        let before = pass_row(row, at, y, n - 1, was);
        let after = pass_row(row, at, y, n, was);
        if after.0.len() > before.0.len() {
            lemma_drawn_push(before.0, after.0.last(), tx, ty, upload);
            assert(after.0 =~= before.0.push(after.0.last()));
        } else {
            assert(after.0 == before.0);
        }
    }
}

proof fn lemma_tiles_drawn<T>(
    tiles: Seq<Vec<Option<T>>>,
    at: Placement,
    n: int,
    was: TilePass<T>,
    x: int,
    y: int,
    upload: bool,
)
    requires
        0 <= n <= tiles.len(),
        tiles.len() <= usize::MAX,
        forall|k: int| 0 <= k < tiles.len() ==> (#[trigger] tiles[k])@.len() <= usize::MAX,
    ensures
        is_drawn(pass_tiles(tiles, at, n, was).0, x, y, upload) <==> is_drawn(was.0, x, y, upload)
            || (0 <= y < n && 0 <= x < tiles[y]@.len() && at.tile_at(x, y).seen() && upload == (
        tiles[y]@[x] is None)),
    decreases n,
{
    if n > 0 {
        lemma_tiles_drawn(tiles, at, n - 1, was, x, y, upload);
        lemma_row_drawn(
            tiles[n - 1]@,
            at,
            n - 1,
            tiles[n - 1]@.len() as int,
            pass_tiles(tiles, at, n - 1, was),
            x,
            y,
            upload,
        );
    }
}

/// The tiles that are drawn are those that are seen, and those are uploaded first that were not
/// before.
pub proof fn law_seen_tiles_are_drawn<T>(
    image: StaticImage<T>,
    at: Placement,
    draws: Vec<TileDraw<T>>,
    preloads: Vec<(usize, usize)>,
    after: TextureLayout<T>,
    x: int,
    y: int,
)
    requires
        image.drawn(at, DrawPlan::Tiles(draws, preloads), after),
        image.texture matches TextureLayout::Tiled { tiles, .. } && tiles@.len() <= usize::MAX
            && 0 <= y < tiles@.len() && 0 <= x < tiles@[y]@.len() && forall|k: int|
            0 <= k < tiles@.len() ==> (#[trigger] tiles@[k])@.len() <= usize::MAX,
    ensures
        image.texture matches TextureLayout::Tiled { tiles, .. } && {
            &&& is_drawn(draws@, x, y, true) <==> at.tile_at(x, y).seen() && tiles@[y]@[x] is None
            &&& is_drawn(draws@, x, y, false) <==> at.tile_at(x, y).seen() && tiles@[y]@[x] is Some
        },
{
    match image.texture {
        TextureLayout::Tiled { tiles, reuse_cache, .. } => {
            let was = (Seq::<TileDraw<T>>::empty(), reuse_cache@);
            assert(!is_drawn(was.0, x, y, true));
            assert(!is_drawn(was.0, x, y, false));
            lemma_tiles_drawn(tiles@, at, tiles@.len() as int, was, x, y, true);
            lemma_tiles_drawn(tiles@, at, tiles@.len() as int, was, x, y, false);
        },
        _ => {},
    }
}

proof fn lemma_row_preloads<T>(row: Seq<Option<T>>, at: Placement, y: int, n: int, x: int, ty: int)
    requires
        0 <= y <= usize::MAX,
        0 <= n <= usize::MAX,
        0 <= x <= usize::MAX,
        0 <= ty <= usize::MAX,
    ensures
        row_preloads(row, at, y, n).contains((x as usize, ty as usize)) <==> ty == y && x < n
            && at.tile_at(x, y) is Preload && row[x] is None,
    decreases n,
{
    if n > 0 {
        lemma_row_preloads(row, at, y, n - 1, x, ty);
        let before = row_preloads(row, at, y, n - 1);
        let after = row_preloads(row, at, y, n);
        let it = (x as usize, ty as usize);
        if before.contains(it) {
            let i = before.index_of(it);
            assert(after[i] == it);
        }
        if after.len() > before.len() {
            let l = before.len() as int;
            assert(after[l] == ((n - 1) as usize, y as usize));
            if after.contains(it) {
                let i = after.index_of(it);
                if i < l {
                    assert(before[i] == it);
                }
            }
        }
    }
}

proof fn lemma_tile_preloads<T>(
    tiles: Seq<Vec<Option<T>>>,
    at: Placement,
    n: int,
    x: int,
    y: int,
)
    requires
        0 <= n <= tiles.len(),
        tiles.len() <= usize::MAX,
        forall|k: int| 0 <= k < tiles.len() ==> (#[trigger] tiles[k])@.len() <= usize::MAX,
        0 <= x <= usize::MAX,
        0 <= y <= usize::MAX,
    ensures
        tile_preloads(tiles, at, n).contains((x as usize, y as usize)) <==> y < n && x
            < tiles[y]@.len() && at.tile_at(x, y) is Preload && tiles[y]@[x] is None,
    decreases n,
{
    if n > 0 {
        lemma_tile_preloads(tiles, at, n - 1, x, y);
        let row = tiles[n - 1]@;
        lemma_row_preloads(row, at, n - 1, row.len() as int, x, y);
        let a = tile_preloads(tiles, at, n - 1);
        let b = row_preloads(row, at, n - 1, row.len() as int);
        let it = (x as usize, y as usize);
        if a.contains(it) {
            assert((a + b)[a.index_of(it)] == it);
        }
        if b.contains(it) {
            assert((a + b)[a.len() + b.index_of(it)] == it);
        }
        if (a + b).contains(it) {
            let i = (a + b).index_of(it);
            if i < a.len() {
                assert(a[i] == it);
            } else {
                assert(b[i - a.len()] == it);
            }
        }
    }
}

/// The tiles that are loaded in advance are those that a step of scrolling may show and that were
/// not uploaded yet.
pub proof fn law_tiles_loaded_in_advance<T>(
    image: StaticImage<T>,
    at: Placement,
    draws: Vec<TileDraw<T>>,
    preloads: Vec<(usize, usize)>,
    after: TextureLayout<T>,
    x: usize,
    y: usize,
)
    requires
        image.drawn(at, DrawPlan::Tiles(draws, preloads), after),
        image.texture matches TextureLayout::Tiled { tiles, .. } && tiles@.len() <= usize::MAX
            && forall|k: int| 0 <= k < tiles@.len() ==> (#[trigger] tiles@[k])@.len() <= usize::MAX,
    ensures
        image.texture matches TextureLayout::Tiled { tiles, .. } && (preloads@.contains((x, y))
            <==> y < tiles@.len() && x < tiles@[y as int]@.len() && at.tile_at(x as int, y as int)
            is Preload && tiles@[y as int]@[x as int] is None),
{
    match image.texture {
        TextureLayout::Tiled { tiles, .. } => {
            lemma_tile_preloads(tiles@, at, tiles@.len() as int, x as int, y as int);
        },
        _ => {},
    }
}

/// An image is drawn if it is seen, and as a whole if it is not in tiles or seen as a whole. What
/// was uploaded is not uploaded again. Far away from the display nothing is kept of it.
pub proof fn law_how_images_are_drawn<T>(
    image: StaticImage<T>,
    at: Placement,
    plan: DrawPlan<T>,
    after: TextureLayout<T>,
)
    requires
        image.drawn(at, plan, after),
        !at.empty,
        !at.too_large,
    ensures
        at.whole().seen() ==> !(plan is Skip),
        image.texture is Single ==> (plan is Whole <==> at.whole().seen()),
        image.texture is Tiled && at.whole() is Complete ==> plan is Whole && after is Single,
        image.texture is Tiled && at.whole() is Partial ==> plan is Tiles && after is Tiled,
        image.texture matches TextureLayout::Single(s) ==> {
            &&& plan matches DrawPlan::Whole(upload) ==> upload == !(s is Current)
            &&& at.whole() is Preload && !(s is Current) ==> plan == DrawPlan::<T>::Skip(
                PreloadTask::WholeImage,
            )
            &&& !(at.whole() is Unload) ==> after == image.texture
            &&& at.whole() is Unload ==> after == TextureLayout::Single(SingleTexture::<T>::Nothing)
        },
        at.whole() is Offscreen ==> plan == DrawPlan::<T>::Skip(PreloadTask::Nothing) && after
            == image.texture,
        at.whole() is Unload ==> plan == DrawPlan::<T>::Skip(PreloadTask::Nothing),
{
}

/// An image that is not shown, or that is much larger than it is shown, is left as it is.
pub proof fn law_images_that_are_not_drawn<T>(
    image: StaticImage<T>,
    at: Placement,
    plan: DrawPlan<T>,
    after: TextureLayout<T>,
)
    requires
        image.drawn(at, plan, after),
        at.empty || at.too_large,
    ensures
        plan == DrawPlan::<T>::Skip(PreloadTask::Nothing),
        after == image.texture,
{
}

/// Images are drawn in tiles if they are larger than 8192 pixels in a direction. They take up the
/// textures that they are given if those are of the same kind.
pub proof fn law_large_images_have_tiles<T>(
    image: StaticImage<T>,
    i: ImageWithRes,
    at: AllocatedTexturesView<T>,
)
    requires
        image.is_new(i, at),
    ensures
        image.image == i,
        image.texture is Tiled <==> i.img.res.w > 8192 || i.img.res.h > 8192,
        image.texture is Single ==> (image.textures() == at || image.textures() is Nothing),
        image.texture is Single && at is Single ==> image.textures() == at,
        image.spec_needs_preload() || (image.texture is Tiled && at is Tiles),
        match (image.texture, at) {
            (
                TextureLayout::Tiled { reuse_cache, .. },
                AllocatedTexturesView::Tiles(v),
            ) => reuse_cache@ == v,
            (TextureLayout::Tiled { reuse_cache, .. }, _) => reuse_cache@.len() == 0,
            _ => true,
        },
{
}

/// Across and down, a tile is where its column and its row are.
pub proof fn law_tiles_are_seen_in_both_directions(at: Placement, x: int, y: int)
    ensures
        at.tile_at(x, y).seen() <==> at.row(at.tile_rows@[y]).seen() && at.column(
            at.tile_columns@[x],
        ).seen(),
        at.whole().seen() <==> at.row(at.rows).seen() && at.column(at.columns).seen(),
        at.row(at.tile_rows@[y]) is Unload ==> at.tile_at(x, y) is Unload,
        at.row(at.rows) == visible_1d(
            at.rows.0 as int,
            at.rows.1 as int,
            at.tile as int,
            at.display.h as int,
            at.step as int,
        ),
        at.column(at.columns) == visible_1d(
            at.columns.0 as int,
            at.columns.1 as int,
            at.tile as int,
            at.display.w as int,
            at.step as int,
        ),
{
}

/// What let go of its textures has none, and is the same image.
pub proof fn law_cleared_images_have_no_textures<T>(before: StaticImage<T>, after: StaticImage<T>)
    requires
        before.cleared(after),
    ensures
        after.image == before.image,
        after.textures() is Nothing,
        after.spec_needs_preload(),
        after.texture is Tiled <==> before.texture is Tiled,
{
}

/// Textures are attached to an image that has none, if they are of its kind, and never take the
/// place of others.
pub proof fn law_attached_textures<T>(
    before: StaticImage<T>,
    t: AllocatedTextures<T>,
    after: StaticImage<T>,
)
    requires
        before.attached(t, after),
    ensures
        after.image == before.image,
        !(before.textures() is Nothing) && !(before.texture is Tiled) ==> after.texture
            == before.texture,
        before.texture is Single && before.textures() is Nothing && t is Single
            ==> after.textures() == t@,
        before.texture is Single && !(t is Single) ==> after.texture == before.texture,
        before.texture is Tiled && !(t is Tiles) ==> after.texture == before.texture,
        before.texture is Tiled && !before.spec_needs_preload() ==> after.texture
            == before.texture,
        match (before.texture, t, after.texture) {
            (
                TextureLayout::Tiled { tiles, .. },
                AllocatedTextures::Tiles(v),
                TextureLayout::Tiled { tiles: now, reuse_cache, .. },
            ) => now == tiles && (before.spec_needs_preload() ==> reuse_cache == v),
            (TextureLayout::Tiled { .. }, _, TextureLayout::Single(_)) => false,
            _ => true,
        },
{
}

/// Each pixel of an image is shown by one tile, that of its column and row, in steps of 512 pixels.
pub proof fn law_each_pixel_has_its_tile(
    t: TileSource,
    res: Res,
    column: nat,
    row: nat,
    px: nat,
    py: nat,
)
    requires
        t.shows(res, column, row),
        px < res.w,
        py < res.h,
    ensures
        (t.x <= px < t.x + t.w && t.y <= py < t.y + t.h) <==> (px / 512 == column && py / 512
            == row),
{
}

/// A line of a tile begins with the bytes of its first pixel.
pub proof fn law_lines_of_tiles(t: TileSource, w: nat, channels: nat, line: nat)
    ensures
        t.row_start(w * channels, channels, line) == ((t.y + line) * w + t.x) * channels,
{
    let y = t.y + line;
    assert(y * (w * channels) + t.x * channels == (y * w + t.x) * channels) by (nonlinear_arith);
}

/// How many of some tiles take a texture that was there.
pub open spec fn taken_textures<T>(draws: Seq<TileDraw<T>>) -> nat
    decreases draws.len(),
{
    if draws.len() == 0 {
        0
    } else {
        taken_textures(draws.drop_last()) + if draws.last().texture is Some {
            1nat
        } else {
            0
        }
    }
}

proof fn lemma_taken_push<T>(draws: Seq<TileDraw<T>>, d: TileDraw<T>)
    ensures
        taken_textures(draws.push(d)) == taken_textures(draws) + if d.texture is Some {
            1nat
        } else {
            0
        },
{
    assert(draws.push(d).drop_last() =~= draws);
}

/// No texture is lost on a tile: one that is let go of goes to the textures to use again, one that
/// is taken for another tile comes from there, and a tile that was uploaded takes none.
pub proof fn law_textures_of_tiles_are_kept<T>(
    tile: Option<T>,
    at: Placement,
    x: int,
    y: int,
    was: TilePass<T>,
)
    ensures
        ({
            let now = pass_tile(tile, at, x, y, was);
            &&& now.1.len() + taken_textures(now.0) == was.1.len() + taken_textures(was.0) + if tile
                is Some && at.tile_at(x, y) is Unload {
                1int
            } else {
                0
            }
            &&& tile is Some && at.tile_at(x, y) is Unload ==> now.1 == was.1.push(tile->0)
            &&& tile is None && at.tile_at(x, y).seen() && was.1.len() > 0
                ==> now.0.last().texture == Some(was.1.last()) && now.1 == was.1.drop_last()
        }),
{
    let now = pass_tile(tile, at, x, y, was);
    if now.0.len() > was.0.len() {
        lemma_taken_push(was.0, now.0.last());
        assert(now.0 =~= was.0.push(now.0.last()));
    }
}

/// Tiles that are far away are let go of, and all others stay.
pub proof fn law_far_tiles_are_let_go<T>(
    before: Seq<Vec<Option<T>>>,
    after: Seq<Vec<Option<T>>>,
    at: Placement,
    x: int,
    y: int,
)
    requires
        without(before, after, |x: int, y: int| at.tile_at(x, y) is Unload),
        0 <= y < before.len(),
        0 <= x < before[y]@.len(),
    ensures
        after.len() == before.len(),
        after[y]@.len() == before[y]@.len(),
        at.tile_at(x, y) is Unload ==> after[y]@[x] is None,
        !(at.tile_at(x, y) is Unload) ==> after[y]@[x] == before[y]@[x],
{
    assert(after[y]@.len() == before[y]@.len());
}

} // verus!
