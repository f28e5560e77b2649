//! The layout of a guest surface, and packing a rendered picture into it.
//!
//! A surface in thin tiles is cut into squares of eight by eight texels.  The squares
//! follow one another row by row, and each is stored as a block of 64 texels.  Which
//! place a texel has in its block is the reader's convention: a `TileOrder` holds it.

use vstd::prelude::*;

use crate::gpu::commands::Tiling;

verus! {

/// How the texels of a packed surface are ordered.
#[derive(Clone, Copy, Debug, PartialEq, Eq, Structural)]
pub enum SurfaceTiling {
    /// Row after row.
    LinearGeneral,
    /// Small square tiles, each stored as a block.
    Thin1d,
}

/// A guest surface of 32-bit texels.  `width` is its row stride in texels.
#[derive(Clone, Copy, Debug, PartialEq, Eq, Structural)]
pub struct SurfaceLayout {
    pub width: u32,
    pub height: u32,
    pub tiling: SurfaceTiling,
}

/// The pixels handed over are too few for the surface.
#[derive(Clone, Copy, Debug, PartialEq, Eq, Structural)]
pub struct ShortBuffer {
    pub got: usize,
    pub expected: usize,
}

/// The place of each texel of a tile in the tile's block: texel `x` of the tile's row `y`
/// has place `rank[y * 8 + x]`.
#[derive(Debug)]
pub struct TileOrder {
    pub rank: Vec<usize>,
}

/// Every texel of a tile has a place, and no two have the same.
pub open spec fn is_order(rank: Seq<usize>) -> bool {
    &&& rank.len() == 64
    &&& forall|i: int| 0 <= i < 64 ==> #[trigger] rank[i] < 64
    &&& forall|i: int, j: int| 0 <= i < j < 64 ==> #[trigger] rank[i] != #[trigger] rank[j]
}

impl TileOrder {
    pub open spec fn wf(&self) -> bool {
        is_order(self.rank@)
    }

    /// An order from its places, if they are one.
    pub fn new(rank: Vec<usize>) -> (order: Option<Self>)
        ensures
            order is Some <==> is_order(rank@),
            order matches Some(o) ==> o.rank@ == rank@,
    {
        if rank.len() != 64 {
            return None;
        }
        let mut i: usize = 0;
        while i < 64
            invariant
                i <= 64,
                rank@.len() == 64,
                forall|k: int| 0 <= k < i ==> #[trigger] rank@[k] < 64,
                forall|j: int, k: int| 0 <= j < k < i ==> #[trigger] rank@[j] != #[trigger] rank@[k],
            decreases 64 - i,
        {
            if rank[i] >= 64 {
                return None;
            }
            let mut k: usize = 0;
            while k < i
                invariant
                    k <= i < 64,
                    rank@.len() == 64,
                    forall|j: int| 0 <= j < k ==> #[trigger] rank@[j] != rank@[i as int],
                decreases i - k,
            {
                if rank[k] == rank[i] {
                    return None;
                }
                k = k + 1;
            }
            i = i + 1;
        }
        Some(TileOrder { rank })
    }
}

/// What a tile-mode index stands for.
#[derive(Clone, Copy, Debug, PartialEq, Eq, Structural)]
pub enum TileKind {
    Linear,
    Thin1d,
    LinearAligned,
    Macro2d,
}

pub open spec fn tile_kind_of(index: int) -> TileKind {
    if index == 0 {
        TileKind::Linear
    } else if index < 8 {
        TileKind::Thin1d
    } else if index == 8 {
        TileKind::LinearAligned
    } else {
        TileKind::Macro2d
    }
}

pub fn tile_kind(index: u8) -> (kind: TileKind)
    ensures
        kind == tile_kind_of(index as int),
{
    if index == 0 {
        TileKind::Linear
    } else if index < 8 {
        TileKind::Thin1d
    } else if index == 8 {
        TileKind::LinearAligned
    } else {
        TileKind::Macro2d
    }
}

/// The layout a `w` by `h` picture is packed into on a surface with this row stride and
/// tiling, or `None` where no honest byte can be written: a stride too narrow for the
/// picture, no texel at all, macro tiles, or an index that is no tile mode.
pub open spec fn surface_layout(w: u32, h: u32, pitch: u32, tiling: Tiling) -> Option<
    SurfaceLayout,
> {
    if pitch < w || w == 0 || h == 0 {
        None
    } else {
        let index = match tiling {
            Tiling::Linear => 0,
            Tiling::Tiled { tile_mode_index } => tile_mode_index as int,
        };
        match tile_kind_of(index) {
            TileKind::Linear | TileKind::LinearAligned => Some(
                SurfaceLayout { width: pitch, height: h, tiling: SurfaceTiling::LinearGeneral },
            ),
            TileKind::Thin1d => Some(
                SurfaceLayout { width: pitch, height: h, tiling: SurfaceTiling::Thin1d },
            ),
            TileKind::Macro2d => None,
        }
    }
}

pub fn guest_surface_layout(w: u32, h: u32, pitch: u32, tiling: Tiling) -> (layout: Option<
    SurfaceLayout,
>)
    ensures
        layout == surface_layout(w, h, pitch, tiling),
{
    if pitch < w || w == 0 || h == 0 {
        return None;
    }
    let index: u8 = match tiling {
        Tiling::Linear => 0,
        Tiling::Tiled { tile_mode_index } => {
            if tile_mode_index > 0xFF {
                return None;
            }
            tile_mode_index as u8
        },
    };
    match tile_kind(index) {
        TileKind::Linear | TileKind::LinearAligned => Some(
            SurfaceLayout { width: pitch, height: h, tiling: SurfaceTiling::LinearGeneral },
        ),
        TileKind::Thin1d => Some(
            SurfaceLayout { width: pitch, height: h, tiling: SurfaceTiling::Thin1d },
        ),
        TileKind::Macro2d => None,
    }
}

/// Byte `c` of texel `x` of row `y`, in rows of `stride` texels.
pub open spec fn texel_byte(stride: int, x: int, y: int, c: int) -> int {
    (y * stride + x) * 4 + c
}

/// `rows` holds the `w` by `h` picture `content` in rows of `stride` texels, with zeros
/// behind each row's last texel.
pub open spec fn is_padded(rows: Seq<u8>, content: Seq<u8>, w: int, h: int, stride: int) -> bool {
    &&& rows.len() == stride * h * 4
    &&& forall|x: int, y: int, c: int|
        0 <= x < stride && 0 <= y < h && 0 <= c < 4 ==> #[trigger] rows[texel_byte(
            stride,
            x,
            y,
            c,
        )] == (if x < w {
            content[texel_byte(w, x, y, c)]
        } else {
            0u8
        })
}

/// A texel's bytes lie inside its rows.
proof fn lemma_texel_in_bounds(stride: int, h: int, x: int, y: int, c: int)
    requires
        0 <= x < stride,
        0 <= y < h,
        0 <= c < 4,
    ensures
        0 <= texel_byte(stride, x, y, c) < stride * h * 4,
        y * stride <= y * stride + x < (y + 1) * stride <= h * stride,
{
    assert((y + 1) * stride == y * stride + stride) by (nonlinear_arith);
    assert((y + 1) * stride <= h * stride) by (nonlinear_arith)
        requires
            y + 1 <= h,
            0 <= stride,
    ;
    assert(0 <= y * stride) by (nonlinear_arith)
        requires
            0 <= y,
            0 <= stride,
    ;
    assert(h * stride == stride * h) by (nonlinear_arith);
}

/// The tiles it takes to cover `n` texels.
pub open spec fn tiles(n: int) -> int {
    (n + 7) / 8
}

/// The place of texel `x` of row `y` on a surface of tiles, `across` to a row, counted in
/// texels.
pub open spec fn tiled_place(across: int, rank: Seq<usize>, x: int, y: int) -> int {
    ((y / 8) * across + x / 8) * 64 + rank[(y % 8) * 8 + x % 8]
}

/// `bytes` holds the `w` by `h` picture `content` on a surface in thin tiles, `stride`
/// texels wide, with zeros wherever the picture has no texel.
pub open spec fn is_tiled(
    bytes: Seq<u8>,
    content: Seq<u8>,
    w: int,
    h: int,
    stride: int,
    rank: Seq<usize>,
) -> bool {
    &&& bytes.len() == tiles(h) * tiles(stride) * 64 * 4
    &&& forall|x: int, y: int, c: int|
        0 <= x < tiles(stride) * 8 && 0 <= y < tiles(h) * 8 && 0 <= c < 4
            ==> #[trigger] bytes[tiled_place(tiles(stride), rank, x, y) * 4 + c] == (if x < w && y
            < h {
            content[texel_byte(w, x, y, c)]
        } else {
            0u8
        })
}

/// `bytes` holds the picture as a surface with this layout does.
pub open spec fn is_packed(
    bytes: Seq<u8>,
    content: Seq<u8>,
    w: int,
    h: int,
    layout: SurfaceLayout,
    rank: Seq<usize>,
) -> bool {
    match layout.tiling {
        SurfaceTiling::LinearGeneral => is_padded(bytes, content, w, h, layout.width as int),
        SurfaceTiling::Thin1d => is_tiled(bytes, content, w, h, layout.width as int, rank),
    }
}

/// The rows of a linear surface.
fn pad_rows(content: &[u8], w: u32, h: u32, width: u32) -> (out: Vec<u8>)
    requires
        0 < width,
        w <= width,
        width * h * 4 <= usize::MAX,
        content@.len() >= w * h * 4,
    ensures
        is_padded(out@, content@, w as int, h as int, width as int),
{
    let mut out: Vec<u8> = Vec::new();
    let stride: usize = width as usize;
    let cols: usize = w as usize;
    let rows: usize = h as usize;
    assert(width * h == stride * rows);
    assert(w * h == cols * rows);
    let mut y: usize = 0;
    assert(stride * 0 * 4 == 0) by (nonlinear_arith);
    while y < rows
        invariant
            y <= rows,
            0 < stride,
            cols <= stride,
            stride * rows * 4 <= usize::MAX,
            content@.len() >= cols * rows * 4,
            is_padded(out@, content@, cols as int, y as int, stride as int),
        decreases rows - y,
    {
        let ghost done = out@;
        let mut x: usize = 0;
        assert(cols * y + cols == cols * (y + 1)) by (nonlinear_arith);
        assert(stride * y + stride == stride * (y + 1)) by (nonlinear_arith);
        assert(cols * (y + 1) <= cols * rows) by (nonlinear_arith)
            requires
                y + 1 <= rows,
                0 <= cols,
        ;
        assert(stride * (y + 1) <= stride * rows) by (nonlinear_arith)
            requires
                y + 1 <= rows,
                0 <= stride,
        ;
        assert(cols * rows <= stride * rows) by (nonlinear_arith)
            requires
                cols <= stride,
                0 <= rows,
        ;
        assert(cols * y <= stride * y) by (nonlinear_arith)
            requires
                cols <= stride,
                0 <= y,
        ;
        assert(y * cols == cols * y) by (nonlinear_arith);
        let row_start: usize = y * cols;
        while x < stride
            invariant
                x <= stride,
                y < rows,
                cols <= stride,
                row_start == cols * y,
                row_start + cols <= cols * rows,
                stride * rows * 4 <= usize::MAX,
                cols * rows <= stride * rows,
                content@.len() >= cols * rows * 4,
                done.len() == stride * y * 4,
                out@.len() == done.len() + x * 4,
                out@.take(done.len() as int) == done,
                forall|k: int, c: int|
                    0 <= k < x && 0 <= c < 4 ==> #[trigger] out@[done.len() + k * 4 + c] == (if k
                        < cols {
                        content@[(cols * y + k) * 4 + c]
                    } else {
                        0u8
                    }),
            decreases stride - x,
        {
            let ghost before = out@;
            if x < cols {
                let at: usize = (row_start + x) * 4;
                out.push(content[at]);
                out.push(content[at + 1]);
                out.push(content[at + 2]);
                out.push(content[at + 3]);
            } else {
                out.push(0);
                out.push(0);
                out.push(0);
                out.push(0);
            }
            assert(out@.take(done.len() as int) =~= done);
            assert forall|k: int, c: int| 0 <= k < x + 1 && 0 <= c < 4 implies #[trigger] out@[done.len()
                + k * 4 + c] == (if k < cols {
                content@[(cols * y + k) * 4 + c]
            } else {
                0u8
            }) by {
                if k < x {
                    assert(before[done.len() + k * 4 + c] == out@[done.len() + k * 4 + c]);
                }
            }
            x = x + 1;
        }
        assert(stride * (y + 1) * 4 == stride * y * 4 + stride * 4) by (nonlinear_arith);
        assert forall|k: int, r: int, c: int|
            0 <= k < stride && 0 <= r < y + 1 && 0 <= c < 4 implies #[trigger] out@[texel_byte(
            stride as int,
            k,
            r,
            c,
        )] == (if k < cols {
            content@[texel_byte(cols as int, k, r, c)]
        } else {
            0u8
        }) by {
            let at = texel_byte(stride as int, k, r, c);
            assert(r * stride == stride * r) by (nonlinear_arith);
            assert(r * cols == cols * r) by (nonlinear_arith);
            if r < y {
                lemma_texel_in_bounds(stride as int, y as int, k, r, c);
                assert(done[at] == out@.take(done.len() as int)[at]);
            } else {
                assert((stride * y + k) * 4 + c == stride * y * 4 + k * 4 + c) by (nonlinear_arith);
                assert(at == done.len() + k * 4 + c);
            }
        }
        y = y + 1;
    }
    out
}

/// No two texels of a surface have the same place, and every place lies on the surface.
proof fn lemma_places(across: int, down: int, rank: Seq<usize>, x: int, y: int, u: int, v: int)
    requires
        is_order(rank),
        0 <= x < across * 8,
        0 <= y < down * 8,
        0 <= u < across * 8,
        0 <= v < down * 8,
    ensures
        0 <= tiled_place(across, rank, x, y) < down * across * 64,
        tiled_place(across, rank, x, y) == tiled_place(across, rank, u, v) ==> x == u && y == v,
{
    lemma_tile_bound(across, down, x, y);
    lemma_tile_bound(across, down, u, v);
    let i = (y % 8) * 8 + x % 8;
    let j = (v % 8) * 8 + u % 8;
    assert(rank[i] < 64 && rank[j] < 64);
    let t = (y / 8) * across + x / 8;
    let s = (v / 8) * across + u / 8;
    if tiled_place(across, rank, x, y) == tiled_place(across, rank, u, v) {
        assert(t == s && rank[i] == rank[j]);
        assert(i == j) by {
            if i < j {
                assert(rank[i] != rank[j]);
            } else if j < i {
                assert(rank[j] != rank[i]);
            }
        }
        assert(y / 8 == v / 8) by (nonlinear_arith)
            requires
                (y / 8) * across + x / 8 == (v / 8) * across + u / 8,
                0 <= x / 8 < across,
                0 <= u / 8 < across,
        ;
        assert((y / 8) * across == (v / 8) * across);
    }
}

/// A texel's tile is one of the surface's.
proof fn lemma_tile_bound(across: int, down: int, x: int, y: int)
    requires
        0 <= x < across * 8,
        0 <= y < down * 8,
    ensures
        0 <= x / 8 < across,
        0 <= y / 8 < down,
        0 <= (y / 8) * across + x / 8 < down * across,
{
    let row = y / 8;
    assert(0 <= row * across && row * across + across <= down * across) by (nonlinear_arith)
        requires
            0 <= row,
            row + 1 <= down,
            0 <= across,
    ;
}

/// The tiles of a surface in thin tiles.
fn cut_tiles(content: &[u8], w: u32, h: u32, width: u32, order: &TileOrder) -> (out: Vec<u8>)
    requires
        order.wf(),
        w <= width,
        tiles(h as int) * tiles(width as int) * 64 * 4 <= usize::MAX,
        content@.len() >= w * h * 4,
        w * h * 4 <= usize::MAX,
    ensures
        is_tiled(out@, content@, w as int, h as int, width as int, order.rank@),
{
    let across: usize = width as usize / 8 + if width % 8 == 0 {
        0
    } else {
        1
    };
    let down: usize = h as usize / 8 + if h % 8 == 0 {
        0
    } else {
        1
    };
    assert(across == tiles(width as int));
    assert(down == tiles(h as int));
    let count: usize = down * across;
    let mut out: Vec<u8> = vec![0u8; count * 256];
    let cols: usize = w as usize;
    let rows: usize = h as usize;
    assert(w * h == cols * rows);
    let ghost rank = order.rank@;
    let mut y: usize = 0;
    assert forall|u: int, v: int, c: int|
        0 <= u < across * 8 && 0 <= v < down * 8 && 0 <= c < 4 implies #[trigger] out@[tiled_place(
        across as int,
        rank,
        u,
        v,
    ) * 4 + c] == 0u8 by {
        lemma_places(across as int, down as int, rank, u, v, u, v);
    }
    while y < rows
        invariant
            y <= rows <= down * 8,
            cols <= across * 8,
            order.wf(),
            rank == order.rank@,
            content@.len() >= cols * rows * 4,
            cols * rows * 4 <= usize::MAX,
            count == down * across,
            count * 256 <= usize::MAX,
            out@.len() == count * 256,
            forall|u: int, v: int, c: int|
                0 <= u < across * 8 && 0 <= v < down * 8 && 0 <= c < 4
                    ==> #[trigger] out@[tiled_place(across as int, rank, u, v) * 4 + c] == (if u
                    < cols && v < y {
                    content@[texel_byte(cols as int, u, v, c)]
                } else {
                    0u8
                }),
        decreases rows - y,
    {
        assert(y * cols + cols <= cols * rows) by (nonlinear_arith)
            requires
                y + 1 <= rows,
                0 <= cols,
        ;
        let row_start: usize = y * cols;
        let mut x: usize = 0;
        while x < cols
            invariant
                y < rows <= down * 8,
                x <= cols <= across * 8,
                order.wf(),
                rank == order.rank@,
                row_start == y * cols,
                row_start + cols <= cols * rows,
                content@.len() >= cols * rows * 4,
                cols * rows * 4 <= usize::MAX,
                count == down * across,
                count * 256 <= usize::MAX,
                out@.len() == count * 256,
                forall|u: int, v: int, c: int|
                    0 <= u < across * 8 && 0 <= v < down * 8 && 0 <= c < 4
                        ==> #[trigger] out@[tiled_place(across as int, rank, u, v) * 4 + c] == (if u
                        < cols && (v < y || v == y && u < x) {
                        content@[texel_byte(cols as int, u, v, c)]
                    } else {
                        0u8
                    }),
            decreases cols - x,
        {
            let ghost before = out@;
            let ghost place = tiled_place(across as int, rank, x as int, y as int);
            proof {
                lemma_places(
                    across as int,
                    down as int,
                    rank,
                    x as int,
                    y as int,
                    x as int,
                    y as int,
                );
                lemma_tile_bound(across as int, down as int, x as int, y as int);
                assert(rank[(y as int % 8) * 8 + x as int % 8] < 64);
            }
            let tile: usize = (y / 8) * across + x / 8;
            let at: usize = (tile * 64 + order.rank[(y % 8) * 8 + x % 8]) * 4;
            assert(at == place * 4);
            let from: usize = (row_start + x) * 4;
            assert(from == texel_byte(cols as int, x as int, y as int, 0));
            out.set(at, content[from]);
            out.set(at + 1, content[from + 1]);
            out.set(at + 2, content[from + 2]);
            out.set(at + 3, content[from + 3]);
            assert forall|u: int, v: int, c: int|
                0 <= u < across * 8 && 0 <= v < down * 8 && 0 <= c < 4 implies #[trigger] out@[
            tiled_place(across as int, rank, u, v) * 4 + c] == (if u < cols && (v < y || v == y && u
                < x + 1) {
                content@[texel_byte(cols as int, u, v, c)]
            } else {
                0u8
            }) by {
                lemma_places(across as int, down as int, rank, u, v, x as int, y as int);
                let other = tiled_place(across as int, rank, u, v);
                if other != place {
                    assert(out@[other * 4 + c] == before[other * 4 + c]);
                } else {
                    assert(u == x && v == y);
                }
            }
            x = x + 1;
        }
        y = y + 1;
    }
    out
}

/// Pack the `w` by `h` picture into the surface `layout` names.  Texels of the surface
/// that the picture does not cover are written as zeros.
pub fn pack_guest_surface(
    content: &[u8],
    w: u32,
    h: u32,
    layout: &SurfaceLayout,
    order: &TileOrder,
) -> (r: Result<Vec<u8>, ShortBuffer>)
    requires
        order.wf(),
        0 < layout.width,
        w <= layout.width,
        layout.width * h * 4 <= usize::MAX,
        layout.tiling == SurfaceTiling::Thin1d ==> tiles(h as int) * tiles(layout.width as int) * 64
            * 4 <= usize::MAX,
    ensures
        content@.len() >= w * h * 4 ==> r is Ok && is_packed(
            r->Ok_0@,
            content@,
            w as int,
            h as int,
            *layout,
            order.rank@,
        ),
        content@.len() < w * h * 4 ==> r == Err::<Vec<u8>, ShortBuffer>(
            ShortBuffer { got: content@.len() as usize, expected: (w * h * 4) as usize },
        ),
{
    assert(w * h <= layout.width * h) by (nonlinear_arith)
        requires
            w <= layout.width,
            0 <= h,
    ;
    let texels: usize = (w as usize) * (h as usize);
    let expected: usize = texels * 4;
    if content.len() < expected {
        return Err(ShortBuffer { got: content.len(), expected });
    }
    match layout.tiling {
        SurfaceTiling::LinearGeneral => Ok(pad_rows(content, w, h, layout.width)),
        SurfaceTiling::Thin1d => Ok(cut_tiles(content, w, h, layout.width, order)),
    }
}

/// The place of byte `c` of texel `x` of row `y` on a surface with this layout.
pub open spec fn surface_byte(
    layout: SurfaceLayout,
    rank: Seq<usize>,
    x: int,
    y: int,
    c: int,
) -> int {
    match layout.tiling {
        SurfaceTiling::LinearGeneral => texel_byte(layout.width as int, x, y, c),
        SurfaceTiling::Thin1d => tiled_place(tiles(layout.width as int), rank, x, y) * 4 + c,
    }
}

/// The `w` by `h` picture a reader of the surface finds on it.
pub open spec fn read_surface(
    bytes: Seq<u8>,
    w: int,
    h: int,
    layout: SurfaceLayout,
    rank: Seq<usize>,
) -> Seq<u8> {
    Seq::new(
        (w * h * 4) as nat,
        |i: int| bytes[surface_byte(layout, rank, i / 4 % w, i / 4 / w, i % 4)],
    )
}

/// A packed surface, linear or tiled, gives its reader exactly the picture that was packed.
pub proof fn law_packed_surface_reads_back(
    bytes: Seq<u8>,
    content: Seq<u8>,
    w: int,
    h: int,
    layout: SurfaceLayout,
    rank: Seq<usize>,
)
    requires
        0 < w <= layout.width,
        0 < h,
        content.len() == w * h * 4,
        is_packed(bytes, content, w, h, layout, rank),
    ensures
        read_surface(bytes, w, h, layout, rank) == content,
{
    let read = read_surface(bytes, w, h, layout, rank);
    assert forall|i: int| 0 <= i < w * h * 4 implies #[trigger] read[i] == content[i] by {
        let texel = i / 4;
        let x = texel % w;
        let y = texel / w;
        let c = i % 4;
        assert(texel == y * w + x && 0 <= x < w && 0 <= y) by (nonlinear_arith)
            requires
                0 < w,
                0 <= texel,
                x == texel % w,
                y == texel / w,
        ;
        assert(y < h) by (nonlinear_arith)
            requires
                0 < w,
                0 <= x,
                y * w + x < w * h,
        ;
        assert(texel_byte(w, x, y, c) == i);
        match layout.tiling {
            SurfaceTiling::LinearGeneral => {
                assert(bytes[texel_byte(layout.width as int, x, y, c)] == content[i]);
            },
            SurfaceTiling::Thin1d => {
                assert(x < tiles(layout.width as int) * 8);
                assert(y < tiles(h) * 8);
                assert(bytes[tiled_place(tiles(layout.width as int), rank, x, y) * 4 + c]
                    == content[i]);
            },
        }
    }
}

/// A reader that takes a packed surface apart into rows of the surface's stride gets each row
/// of the picture, and zeros behind it.  A linear surface without padding is the picture as
/// it is, byte for byte.
pub proof fn law_packed_surface_detiles(
    bytes: Seq<u8>,
    content: Seq<u8>,
    w: u32,
    h: u32,
    pitch: u32,
    tiling: Tiling,
    layout: SurfaceLayout,
    rank: Seq<usize>,
)
    requires
        surface_layout(w, h, pitch, tiling) == Some(layout),
        content.len() == w * h * 4,
        is_packed(bytes, content, w as int, h as int, layout, rank),
    ensures
        is_padded(
            read_surface(bytes, pitch as int, h as int, layout, rank),
            content,
            w as int,
            h as int,
            pitch as int,
        ),
        layout.tiling == SurfaceTiling::LinearGeneral && pitch == w ==> bytes == content,
{
    let stride = pitch as int;
    let rows = read_surface(bytes, stride, h as int, layout, rank);
    assert(0 <= stride * h) by (nonlinear_arith)
        requires
            0 <= stride,
            0 <= h,
    ;
    assert forall|x: int, y: int, c: int|
        0 <= x < stride && 0 <= y < h && 0 <= c < 4 implies #[trigger] rows[texel_byte(
        stride,
        x,
        y,
        c,
    )] == (if x < w {
        content[texel_byte(w as int, x, y, c)]
    } else {
        0u8
    }) by {
        let i = texel_byte(stride, x, y, c);
        lemma_texel_in_bounds(stride, h as int, x, y, c);
        let texel = y * stride + x;
        assert(i / 4 == texel && i % 4 == c);
        assert(texel / stride == y && texel % stride == x) by {
            vstd::arithmetic::div_mod::lemma_fundamental_div_mod_converse(texel, stride, y, x);
        }
        match layout.tiling {
            SurfaceTiling::LinearGeneral => {
                assert(rows[i] == bytes[texel_byte(stride, x, y, c)]);
            },
            SurfaceTiling::Thin1d => {
                assert(x < tiles(stride) * 8);
                assert(y < tiles(h as int) * 8);
                assert(rows[i] == bytes[tiled_place(tiles(stride), rank, x, y) * 4 + c]);
            },
        }
    }
    if layout.tiling == SurfaceTiling::LinearGeneral && pitch == w {
        law_packed_surface_reads_back(bytes, content, w as int, h as int, layout, rank);
        assert forall|i: int| 0 <= i < bytes.len() implies #[trigger] bytes[i] == content[i] by {
            let texel = i / 4;
            let x = texel % stride;
            let y = texel / stride;
            assert(texel == y * stride + x && 0 <= x < stride && 0 <= y) by (nonlinear_arith)
                requires
                    0 < stride,
                    0 <= texel,
                    x == texel % stride,
                    y == texel / stride,
            ;
            assert(read_surface(bytes, stride, h as int, layout, rank)[i] == bytes[texel_byte(
                stride,
                x,
                y,
                i % 4,
            )]);
            assert(texel_byte(stride, x, y, i % 4) == i);
        }
        assert(bytes =~= content);
    }
}

/// A picture can be packed exactly where it has texels, the rows of the surface hold its own,
/// and the tile mode is linear (0 and 8) or thin (1 to 7); the surface has the stride that was
/// given and the rows of the picture.
pub proof fn law_layouts(w: u32, h: u32, pitch: u32, tiling: Tiling)
    ensures
        ({
            let mode = match tiling {
                Tiling::Linear => 0u32,
                Tiling::Tiled { tile_mode_index } => tile_mode_index,
            };
            let layout = surface_layout(w, h, pitch, tiling);
            &&& layout is Some <==> 0 < w <= pitch && 0 < h && mode <= 8
            &&& layout matches Some(l) ==> l.width == pitch && l.height == h && (
            l.tiling is LinearGeneral <==> mode == 0 || mode == 8)
        }),
{
}

/// On a linear surface texel `x` of row `y` lies behind `y` whole rows and `x` texels.  On a
/// tiled one it lies in the block of the tile that covers it, behind all tiles of the rows of
/// tiles above and those to the left, at the place that the order gives it.  Where the picture
/// has no texel there are zeros.
pub proof fn law_texels_have_their_places(
    bytes: Seq<u8>,
    content: Seq<u8>,
    w: int,
    h: int,
    layout: SurfaceLayout,
    rank: Seq<usize>,
    x: int,
    y: int,
    c: int,
)
    requires
        0 < w <= layout.width,
        0 < h,
        0 <= x < layout.width,
        0 <= y < h,
        0 <= c < 4,
        is_packed(bytes, content, w, h, layout, rank),
    ensures
        ({
            let texel = if x < w {
                content[(y * w + x) * 4 + c]
            } else {
                0u8
            };
            let across = (layout.width + 7) / 8;
            let down = (h + 7) / 8;
            &&& layout.tiling is LinearGeneral ==> bytes.len() == layout.width * h * 4 && bytes[(y
                * layout.width + x) * 4 + c] == texel
            &&& layout.tiling is Thin1d ==> bytes.len() == down * across * 256 && bytes[(((y / 8)
                * across + x / 8) * 64 + rank[(y % 8) * 8 + x % 8]) * 4 + c] == texel
        }),
{
    match layout.tiling {
        SurfaceTiling::LinearGeneral => {
            assert(bytes[texel_byte(layout.width as int, x, y, c)] == (if x < w {
                content[texel_byte(w, x, y, c)]
            } else {
                0u8
            }));
        },
        SurfaceTiling::Thin1d => {
            assert(bytes[tiled_place(tiles(layout.width as int), rank, x, y) * 4 + c] == (if x < w {
                content[texel_byte(w, x, y, c)]
            } else {
                0u8
            }));
        },
    }
}

/// The blocks behind the last row, and behind the stride, are filled up with zeros.
pub proof fn law_tiles_are_filled_up(
    bytes: Seq<u8>,
    content: Seq<u8>,
    w: int,
    h: int,
    layout: SurfaceLayout,
    rank: Seq<usize>,
    x: int,
    y: int,
    c: int,
)
    requires
        0 < w <= layout.width,
        0 < h,
        layout.tiling is Thin1d,
        0 <= x < (layout.width + 7) / 8 * 8,
        0 <= y < (h + 7) / 8 * 8,
        x >= w || y >= h,
        0 <= c < 4,
        is_packed(bytes, content, w, h, layout, rank),
    ensures
        bytes[(((y / 8) * ((layout.width + 7) / 8) + x / 8) * 64 + rank[(y % 8) * 8 + x % 8]) * 4
            + c] == 0,
{
    assert(bytes[tiled_place(tiles(layout.width as int), rank, x, y) * 4 + c] == 0u8);
}

} // verus!
