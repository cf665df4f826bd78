use vstd::prelude::*;
use vstd::arithmetic::div_mod::{lemma_fundamental_div_mod, lemma_fundamental_div_mod_converse};

verus! {

/// Row, inside an 8-row tile, that 16-byte element `i` of the tile comes from.
pub open spec fn gob_row(i: u32) -> u32 {
    ((i >> 1u32) & 6u32) | (i & 1u32)
}

/// Byte offset, inside a 64-byte tile row, that element `i` of the tile comes from.
pub open spec fn gob_col_bytes(i: u32) -> u32 {
    ((i << 3u32) & 0x10u32) | ((i << 1u32) & 0x20u32)
}

/// The element of a tile that holds row `r` and 16-byte column `q`.
pub open spec fn gob_elem(r: u32, q: u32) -> u32 {
    (r & 1u32) | ((q & 1u32) << 1u32) | ((r & 2u32) << 1u32) | ((r & 4u32) << 1u32) | ((q
        & 2u32) << 3u32)
}

/// Top pixel row of tile `t`, with `g` tiles to a block and `wb` blocks across.
pub open spec fn tile_top(g: int, wb: int, t: int) -> int {
    (t / g / wb) * (8 * g) + (t % g) * 8
}

/// Leftmost word column of tile `t`.
pub open spec fn tile_left(g: int, wb: int, t: int) -> int {
    ((t / g) % wb) * 16
}

/// Index in the linear buffer (`rw` words a row) of the word at index `o` of the tiled buffer.
pub open spec fn tiled_source(rw: int, g: int, o: int) -> int {
    let t = o / 128;
    let e = ((o % 128) / 4) as u32;
    tile_top(g, rw / 16, t) * rw + gob_row(e) as int * rw + tile_left(g, rw / 16, t) + gob_col_bytes(
        e,
    ) as int / 4 + o % 4
}

/// Index in the tiled buffer of the word at index `j` of the linear buffer.
pub open spec fn tiled_dest(rw: int, g: int, j: int) -> int {
    let row = j / rw;
    let col = j % rw;
    let t = ((row / (8 * g)) * (rw / 16) + col / 16) * g + (row % (8 * g)) / 8;
    let e = gob_elem((row % 8) as u32, ((col % 16) / 4) as u32);
    t * 128 + e as int * 4 + col % 4
}

/// Shape of a buffer pair: `rw` words a row, `ah` rows, blocks of `g` tiles.
pub open spec fn shape_ok(rw: int, g: int, height: int, ah: int) -> bool {
    &&& rw % 16 == 0
    &&& rw >= 0
    &&& 1 <= g
    &&& 0 <= height <= ah
    &&& ah % (8 * g) == 0
}

/// `tiled` holds the tiled layout of `lin` in every tile that starts above `height`,
/// and `prev` elsewhere, past the end of `lin` included.
pub open spec fn is_tiled_of(
    tiled: Seq<u32>,
    lin: Seq<u32>,
    prev: Seq<u32>,
    rw: int,
    g: int,
    height: int,
) -> bool {
    &&& tiled.len() == prev.len()
    &&& forall|o: int|
        #![trigger tiled[o]]
        0 <= o < tiled.len() ==> tiled[o] == if o < lin.len() && tile_top(g, rw / 16, o / 128)
            < height {
            lin[tiled_source(rw, g, o)]
        } else {
            prev[o]
        }
}

/// `lin` holds, in each row above `height`, the words of `tiled` put back in linear order,
/// and `prev` elsewhere.
pub open spec fn is_linear_of(
    lin: Seq<u32>,
    tiled: Seq<u32>,
    prev: Seq<u32>,
    rw: int,
    g: int,
    height: int,
) -> bool {
    &&& lin.len() == prev.len()
    &&& forall|j: int|
        #![trigger lin[j]]
        0 <= j < lin.len() ==> lin[j] == if j / rw < height {
            tiled[tiled_dest(rw, g, j)]
        } else {
            prev[j]
        }
}

proof fn lemma_gob_bits(i: u32)
    requires
        i < 32,
    ensures
        gob_row(i) < 8,
        gob_col_bytes(i) % 16 == 0,
        gob_col_bytes(i) <= 48,
{
    assert(gob_row(i) < 8) by (bit_vector)
        requires
            i < 32,
    ;
    assert(gob_col_bytes(i) % 16 == 0 && gob_col_bytes(i) <= 48) by (bit_vector)
        requires
            i < 32,
    ;
}

proof fn lemma_gob_elem(r: u32, q: u32)
    requires
        r < 8,
        q < 4,
    ensures
        gob_elem(r, q) < 32,
        gob_row(gob_elem(r, q)) == r,
        gob_col_bytes(gob_elem(r, q)) == 16 * q,
{
    assert(gob_elem(r, q) < 32) by (bit_vector)
        requires
            r < 8,
            q < 4,
    ;
    assert(gob_row(gob_elem(r, q)) == r) by (bit_vector)
        requires
            r < 8,
            q < 4,
    ;
    assert(gob_col_bytes(gob_elem(r, q)) == 16 * q) by (bit_vector)
        requires
            r < 8,
            q < 4,
    ;
}

/// Copies one 512-byte tile from the linear buffer, starting at word `in_base`, into
/// `out[out_base..out_base + 128]`, in the tile's fixed element order.
fn convert_buffers_gob_impl(
    out: &mut Vec<u32>,
    out_base: usize,
    input: &Vec<u32>,
    in_base: usize,
    rw: usize,
)
    requires
        out_base + 128 <= old(out).len(),
        in_base + 7 * rw + 16 <= input.len(),
    ensures
        final(out).len() == old(out).len(),
        forall|o: int|
            #![trigger final(out)[o]]
            0 <= o < old(out).len() ==> final(out)[o] == if out_base <= o < out_base + 128 {
                input[in_base + gob_row(((o - out_base) / 4) as u32) as int * rw + gob_col_bytes(
                    ((o - out_base) / 4) as u32,
                ) as int / 4 + (o - out_base) % 4]
            } else {
                old(out)[o]
            },
{
    let mut w: usize = 0;
    while w < 128
        invariant
            out_base + 128 <= out.len(),
            out.len() == old(out).len(),
            in_base + 7 * rw + 16 <= input.len(),
            w <= 128,
            forall|o: int|
                #![trigger out[o]]
                0 <= o < old(out).len() ==> out[o] == if out_base <= o < out_base + w {
                    input[in_base + gob_row(((o - out_base) / 4) as u32) as int * rw
                        + gob_col_bytes(((o - out_base) / 4) as u32) as int / 4 + (o - out_base)
                        % 4]
                } else {
                    old(out)[o]
                },
        decreases 128 - w,
    {
        let e = (w / 4) as u32;
        let y = ((e >> 1) & 6) | (e & 1);
        let x = ((e << 3) & 0x10) | ((e << 1) & 0x20);
        proof {
            lemma_gob_bits(e);
            assert(y as int * rw <= 7 * rw) by (nonlinear_arith)
                requires
                    y < 8,
            ;
        }
        let src = in_base + (y as usize) * rw + (x / 4) as usize + w % 4;
        out.set(out_base + w, input[src]);
        w = w + 1;
    }
}

proof fn lemma_tile_bounds(rw: int, g: int, ah: int, t: int)
    requires
        shape_ok(rw, g, 0, ah),
        0 <= t,
        t * 128 < rw * ah,
    ensures
        tile_top(g, rw / 16, t) + 8 <= ah,
        tile_left(g, rw / 16, t) + 16 <= rw,
        0 <= tile_top(g, rw / 16, t),
        0 <= tile_left(g, rw / 16, t),
        tile_top(g, rw / 16, t) * rw + tile_left(g, rw / 16, t) + 7 * rw + 16 <= rw * ah,
        8 * g <= ah,
        0 <= (t / g / (rw / 16)) * (8 * g) <= tile_top(g, rw / 16, t),
{
    let wb = rw / 16;
    let hb = ah / (8 * g);
    assert(rw == 16 * wb);
    assert(ah == hb * (8 * g)) by {
        lemma_fundamental_div_mod(ah, 8 * g);
    }
    assert(wb > 0 && hb > 0) by (nonlinear_arith)
        requires
            t * 128 < rw * ah,
            0 <= t,
            rw == 16 * wb,
            ah == hb * (8 * g),
            g >= 1,
            rw >= 0,
            ah >= 0,
    ;
    let by_ = t / g / wb;
    let gy = t % g;
    let bx = (t / g) % wb;
    assert(t < hb * wb * g) by (nonlinear_arith)
        requires
            t * 128 < rw * ah,
            rw == 16 * wb,
            ah == hb * (8 * g),
    ;
    assert(by_ < hb) by (nonlinear_arith)
        requires
            t < hb * wb * g,
            by_ == t / g / wb,
            t >= 0,
            g >= 1,
            wb >= 1,
    ;
    assert(0 <= gy < g);
    assert(0 <= bx < wb);
    assert(0 <= by_) by (nonlinear_arith)
        requires
            by_ == t / g / wb,
            t >= 0,
            g >= 1,
            wb >= 1,
    ;
    assert((by_ + 1) * (8 * g) <= hb * (8 * g)) by (nonlinear_arith)
        requires
            by_ + 1 <= hb,
            g >= 1,
    ;
    assert(8 * g <= ah) by (nonlinear_arith)
        requires
            1 <= hb,
            g >= 1,
            ah == hb * (8 * g),
    ;
    assert(by_ * (8 * g) + gy * 8 + 8 <= ah) by (nonlinear_arith)
        requires
            (by_ + 1) * (8 * g) <= ah,
            gy < g,
    ;
    assert(bx * 16 + 16 <= rw) by (nonlinear_arith)
        requires
            bx < wb,
            rw == 16 * wb,
    ;
    let top = tile_top(g, wb, t);
    let left = tile_left(g, wb, t);
    assert(top >= 0) by (nonlinear_arith)
        requires
            top == by_ * (8 * g) + gy * 8,
            by_ >= 0,
            gy >= 0,
            g >= 1,
    ;
    assert(top * rw + left + 7 * rw + 16 <= rw * ah) by (nonlinear_arith)
        requires
            top + 8 <= ah,
            left + 16 <= rw,
            rw >= 0,
    ;
}

/// Lays the linear buffer `input` (`stride` bytes a row, rows below `height` unused) out
/// in tiled order into `out`, which may be longer. Tiles that start at or below `height`,
/// and the words past the length of `input`, are left as they were.
pub fn convert_buffers_impl(
    out: &mut Vec<u32>,
    input: &Vec<u32>,
    stride: u32,
    height: u32,
    gobs: u32,
    aligned_height: u32,
)
    requires
        shape_ok((stride / 4) as int, gobs as int, height as int, aligned_height as int),
        stride % 64 == 0,
        input.len() == (stride / 4) as int * aligned_height,
        old(out).len() >= input.len(),
    ensures
        is_tiled_of(final(out)@, input@, old(out)@, (stride / 4) as int, gobs as int, height as int),
{
    let rw = (stride / 4) as usize;
    let wb = rw / 16;
    let g = gobs as usize;
    let n = input.len() / 128;
    let ghost ah = aligned_height as int;
    let ghost prev = out@;
    proof {
        lemma_fundamental_div_mod(ah, 8 * gobs);
        let k = (rw / 16) as int * (ah / (8 * gobs)) * gobs;
        assert(input.len() == 128 * k) by (nonlinear_arith)
            requires
                input.len() == rw * ah,
                rw == 16 * (rw / 16),
                ah == (8 * gobs) * (ah / (8 * gobs)),
                k == (rw / 16) as int * (ah / (8 * gobs)) * gobs,
        ;
        lemma_fundamental_div_mod_converse(input.len() as int, 128, k, 0);
    }
    let mut t: usize = 0;
    while t < n
        invariant
            shape_ok(rw as int, g as int, height as int, ah),
            ah == aligned_height,
            rw == stride / 4,
            wb == rw / 16,
            g == gobs,
            input.len() == rw * ah,
            n * 128 == input.len(),
            out.len() == prev.len(),
            out.len() >= input.len(),
            t <= n,
            forall|o: int|
                #![trigger out[o]]
                0 <= o < out.len() ==> out[o] == if o < t * 128 && tile_top(
                    g as int,
                    wb as int,
                    o / 128,
                ) < height {
                    input[tiled_source(rw as int, g as int, o)]
                } else {
                    prev[o]
                },
        decreases n - t,
    {
        proof {
            lemma_tile_bounds(rw as int, g as int, ah, t as int);
            assert(ah <= u32::MAX);
            assert(8 * g <= ah);
            assert((t / g / wb) * (8 * g) <= ah);
        }
        let top = (t / g / wb) * (8 * g) + (t % g) * 8;
        let left = ((t / g) % wb) * 16;
        let ghost pre = out@;
        if top < height as usize {
            convert_buffers_gob_impl(out, t * 128, input, top * rw + left, rw);
        }
        proof {
            assert forall|o: int|
                #![trigger out[o]]
                0 <= o < out.len() implies out[o] == if o < (t + 1) * 128 && tile_top(
                    g as int,
                    wb as int,
                    o / 128,
                ) < height {
                    input[tiled_source(rw as int, g as int, o)]
                } else {
                    prev[o]
                } by {
                if t * 128 <= o < (t + 1) * 128 {
                    lemma_fundamental_div_mod_converse(o, 128, t as int, o - t * 128);
                    lemma_fundamental_div_mod(o, 4);
                } else {
                    assert(pre[o] == if o < t * 128 && tile_top(g as int, wb as int, o / 128)
                        < height {
                        input[tiled_source(rw as int, g as int, o)]
                    } else {
                        prev[o]
                    });
                }
            }
        }
        t = t + 1;
    }
}


pub(crate) proof fn lemma_dest(rw: int, g: int, height: int, ah: int, j: int)
    requires
        shape_ok(rw, g, height, ah),
        0 <= j < rw * ah,
        j / rw < height,
    ensures
        0 <= tiled_dest(rw, g, j),
        tiled_dest(rw, g, j) / 128 * 128 + 128 <= rw * ah,
        tiled_dest(rw, g, j) < rw * ah,
        tiled_source(rw, g, tiled_dest(rw, g, j)) == j,
        tile_top(g, rw / 16, tiled_dest(rw, g, j) / 128) < height,
        8 * g <= ah,
        0 <= (j / rw) / (8 * g) * (rw / 16),
        ((j / rw) / (8 * g) * (rw / 16) + (j % rw) / 16) * g + ((j / rw) % (8 * g)) / 8 + 1
            <= tiled_dest(rw, g, j) / 128 + 1,
        (j / rw) / (8 * g) * (rw / 16) <= ((j / rw) / (8 * g) * (rw / 16) + (j % rw) / 16) * g,
{
    let wb = rw / 16;
    let bh = 8 * g;
    let hb = ah / bh;
    lemma_fundamental_div_mod(ah, bh);
    assert(rw > 0) by (nonlinear_arith)
        requires
            0 <= j < rw * ah,
            rw >= 0,
            ah >= 0,
    ;
    lemma_fundamental_div_mod(j, rw);
    let row = j / rw;
    let col = j % rw;
    assert(0 <= row);
    let by_ = row / bh;
    let rb = row % bh;
    lemma_fundamental_div_mod(row, bh);
    let gy = rb / 8;
    let ry = rb % 8;
    lemma_fundamental_div_mod(rb, 8);
    assert(gy < g);
    let bx = col / 16;
    let cw = col % 16;
    lemma_fundamental_div_mod(col, 16);
    let q = cw / 4;
    let k = cw % 4;
    lemma_fundamental_div_mod(cw, 4);
    assert(bx < wb);
    assert(by_ < hb) by (nonlinear_arith)
        requires
            row < height <= ah,
            ah == bh * hb,
            row == bh * by_ + rb,
            0 <= rb,
            bh > 0,
    ;
    lemma_gob_elem(ry as u32, q as u32);
    let e = gob_elem(ry as u32, q as u32) as int;
    let tb = by_ * wb + bx;
    let t = tb * g + gy;
    let o = t * 128 + e * 4 + k;
    assert(row == 8 * (by_ * g + gy) + ry) by (nonlinear_arith)
        requires
            row == bh * by_ + rb,
            rb == 8 * gy + ry,
            bh == 8 * g,
    ;
    lemma_fundamental_div_mod_converse(row, 8, by_ * g + gy, ry);
    lemma_fundamental_div_mod_converse(col, 4, 4 * bx + q, k);
    assert(o == tiled_dest(rw, g, j));
    assert(8 * g <= ah) by (nonlinear_arith)
        requires
            by_ < hb,
            by_ >= 0,
            ah == bh * hb,
            bh == 8 * g,
            g >= 1,
    ;
    assert(by_ * wb <= tb * g) by (nonlinear_arith)
        requires
            tb == by_ * wb + bx,
            bx >= 0,
            by_ >= 0,
            wb >= 0,
            g >= 1,
    ;
    assert(0 <= by_ * wb) by (nonlinear_arith)
        requires
            by_ >= 0,
            wb >= 0,
    ;
    lemma_fundamental_div_mod_converse(o, 128, t, e * 4 + k);
    lemma_fundamental_div_mod_converse(e * 4 + k, 4, e, k);
    lemma_fundamental_div_mod_converse(t, g, tb, gy);
    lemma_fundamental_div_mod_converse(tb, wb, by_, bx);
    assert(0 <= tb) by (nonlinear_arith)
        requires
            tb == by_ * wb + bx,
            by_ >= 0,
            bx >= 0,
            wb >= 0,
    ;
    assert(0 <= t) by (nonlinear_arith)
        requires
            t == tb * g + gy,
            tb >= 0,
            gy >= 0,
            g >= 0,
    ;
    assert(t + 1 <= hb * wb * g) by (nonlinear_arith)
        requires
            t == (by_ * wb + bx) * g + gy,
            by_ + 1 <= hb,
            bx + 1 <= wb,
            gy + 1 <= g,
            by_ >= 0,
            bx >= 0,
            gy >= 0,
    ;
    assert(t * 128 + 128 <= rw * ah) by (nonlinear_arith)
        requires
            t + 1 <= hb * wb * g,
            rw == 16 * wb,
            ah == bh * hb,
            bh == 8 * g,
    ;
    assert(tile_top(g, wb, t) == by_ * bh + gy * 8);
    assert(tile_left(g, wb, t) == bx * 16);
    assert(tiled_source(rw, g, o) == (by_ * bh + gy * 8) * rw + ry * rw + bx * 16 + q * 4 + k);
    assert((by_ * bh + gy * 8) * rw + ry * rw + bx * 16 + q * 4 + k == j) by (nonlinear_arith)
        requires
            j == rw * row + col,
            row == bh * by_ + rb,
            rb == 8 * gy + ry,
            col == 16 * bx + cw,
            cw == 4 * q + k,
    ;
    assert(by_ * bh + gy * 8 <= row);
}

/// Puts the tiled buffer `tiled` back in linear order into `out`, row by row for every row
/// above `height`; the rows below are left as they were.
pub fn convert_buffers_inverse(
    out: &mut Vec<u32>,
    tiled: &Vec<u32>,
    stride: u32,
    height: u32,
    gobs: u32,
    aligned_height: u32,
)
    requires
        shape_ok((stride / 4) as int, gobs as int, height as int, aligned_height as int),
        stride % 64 == 0,
        tiled.len() >= (stride / 4) as int * aligned_height,
        old(out).len() == (stride / 4) as int * aligned_height,
    ensures
        is_linear_of(final(out)@, tiled@, old(out)@, (stride / 4) as int, gobs as int, height as int),
{
    let rw = (stride / 4) as usize;
    let wb = rw / 16;
    let g = gobs as usize;
    let n = out.len();
    let ghost ah = aligned_height as int;
    let ghost prev = out@;
    let mut j: usize = 0;
    while j < n
        invariant
            shape_ok(rw as int, g as int, height as int, ah),
            ah == aligned_height,
            rw == stride / 4,
            wb == rw / 16,
            g == gobs,
            n == rw * ah,
            tiled.len() >= rw * ah,
            out.len() == n,
            prev.len() == n,
            j <= n,
            forall|i: int|
                #![trigger out[i]]
                0 <= i < n ==> out[i] == if i < j && i / (rw as int) < height {
                    tiled[tiled_dest(rw as int, g as int, i)]
                } else {
                    prev[i]
                },
        decreases n - j,
    {
        proof {
            assert(rw > 0) by (nonlinear_arith)
                requires
                    0 <= j < rw * ah,
                    ah >= 0,
            ;
        }
        let row = j / rw;
        if row < height as usize {
            proof {
                lemma_dest(rw as int, g as int, height as int, ah, j as int);
                lemma_fundamental_div_mod(row as int, 8 * g);
                lemma_fundamental_div_mod(j as int, rw as int);
            }
            let col = j % rw;
            let t = ((row / (8 * g)) * wb + col / 16) * g + (row % (8 * g)) / 8;
            let r = (row % 8) as u32;
            let q = ((col % 16) / 4) as u32;
            let e = (r & 1) | ((q & 1) << 1) | ((r & 2) << 1) | ((r & 4) << 1) | ((q & 2) << 3);
            proof {
                lemma_gob_elem(r, q);
            }
            let dest = t * 128 + (e as usize) * 4 + col % 4;
            out.set(j, tiled[dest]);
        }
        j = j + 1;
    }
}

/// Tiling a linear buffer and putting the result back in linear order gives back every
/// word of every row above the image height.
pub proof fn lemma_tiling_round_trip(
    lin: Seq<u32>,
    prev_tiled: Seq<u32>,
    tiled: Seq<u32>,
    prev_back: Seq<u32>,
    back: Seq<u32>,
    rw: int,
    g: int,
    height: int,
    ah: int,
)
    requires
        shape_ok(rw, g, height, ah),
        lin.len() == rw * ah,
        prev_tiled.len() >= lin.len(),
        is_tiled_of(tiled, lin, prev_tiled, rw, g, height),
        is_linear_of(back, tiled, prev_back, rw, g, height),
        prev_back.len() == lin.len(),
    ensures
        forall|j: int| 0 <= j < lin.len() && j / rw < height ==> #[trigger] back[j] == lin[j],
{
    assert forall|j: int| 0 <= j < lin.len() && j / rw < height implies #[trigger] back[j]
        == lin[j] by {
        lemma_dest(rw, g, height, ah, j);
        let o = tiled_dest(rw, g, j);
        assert(tiled[o] == lin[tiled_source(rw, g, o)]);
    }
}

} // verus!
