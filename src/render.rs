use vstd::prelude::*;
use vstd::arithmetic::div_mod::lemma_fundamental_div_mod_converse;
use crate::color::{RGBA8, blend, unpack};
use crate::tiling::{convert_buffers_impl, is_tiled_of};

verus! {

/// The largest supported block height, as a power of two of tiles.
pub const MAX_BLOCK_HEIGHT_LOG2: u32 = 5;

/// Number of 8-row tiles stacked in one block: `2^log2`.
pub open spec fn gobs_per_block(log2: nat) -> nat
    decreases log2,
{
    if log2 == 0 {
        1
    } else {
        2 * gobs_per_block((log2 - 1) as nat)
    }
}

/// Number of pixel rows in one block.
pub open spec fn block_rows(log2: nat) -> int {
    8 * gobs_per_block(log2) as int
}

/// The smallest multiple of `m` that is at least `v`.
pub open spec fn align_up(v: int, m: int) -> int {
    ((v + m - 1) / m) * m
}

/// Bytes per row: four bytes per pixel, rounded up to a multiple of 64.
pub open spec fn stride_spec(width: int) -> int {
    align_up(4 * width, 64)
}

/// `v` clamped into `[0, max]`.
pub open spec fn clamp_spec(max: int, v: int) -> int {
    if v < 0 {
        0
    } else if v > max {
        max
    } else {
        v
    }
}

/// Whether pixel `(px, py)` lies in rectangle `[x, x+w) × [y, y+h)` clipped to `width × height`.
pub open spec fn covers(width: int, height: int, x: int, y: int, w: int, h: int, px: int, py: int) -> bool {
    clamp_spec(width, x) <= px < clamp_spec(width, x + w) && clamp_spec(height, y) <= py
        < clamp_spec(height, y + h)
}

/// The packed pixel `color` leaves when blended over the packed pixel `old`.
pub open spec fn blended_word(color: RGBA8, old: u32) -> u32 {
    blend(color, unpack(old)).packed()
}

/// `after` is `before` with `color` blended over every pixel of the clipped rectangle
/// `[x, x+w) × [y, y+h)`, rows being `rw` words long.
pub open spec fn rect_drawn(
    after: Seq<u32>,
    before: Seq<u32>,
    rw: int,
    width: int,
    height: int,
    x: int,
    y: int,
    w: int,
    h: int,
    color: RGBA8,
) -> bool {
    &&& after.len() == before.len()
    &&& forall|i: int|
        #![trigger after[i]]
        0 <= i < before.len() ==> after[i] == if covers(width, height, x, y, w, h, i % rw, i / rw) {
            blended_word(color, before[i])
        } else {
            before[i]
        }
}

/// An opaque color covers whatever lies under it.
pub proof fn lemma_opaque_covers(color: RGBA8, old: u32)
    requires
        color.a == 255,
    ensures
        blended_word(color, old) == color.packed(),
{
    let u = unpack(old);
    assert(crate::color::blend_channel(color.r, u.r, 255) == color.r);
    assert(crate::color::blend_channel(color.g, u.g, 255) == color.g);
    assert(crate::color::blend_channel(color.b, u.b, 255) == color.b);
    assert(blend(color, u) == color);
}

/// Of two opaque rectangles drawn one after the other, the later one shows wherever it lies,
/// and the earlier one wherever only it lies.
pub proof fn lemma_later_rect_on_top(
    b0: Seq<u32>,
    b1: Seq<u32>,
    b2: Seq<u32>,
    rw: int,
    width: int,
    height: int,
    x1: int,
    y1: int,
    w1: int,
    h1: int,
    c1: RGBA8,
    x2: int,
    y2: int,
    w2: int,
    h2: int,
    c2: RGBA8,
)
    requires
        rect_drawn(b1, b0, rw, width, height, x1, y1, w1, h1, c1),
        rect_drawn(b2, b1, rw, width, height, x2, y2, w2, h2, c2),
        c1.a == 255,
        c2.a == 255,
    ensures
        forall|i: int|
            #![trigger b2[i]]
            0 <= i < b0.len() && covers(width, height, x2, y2, w2, h2, i % rw, i / rw)
                ==> b2[i] == c2.packed(),
        forall|i: int|
            #![trigger b2[i]]
            0 <= i < b0.len() && covers(width, height, x1, y1, w1, h1, i % rw, i / rw) && !covers(
                width,
                height,
                x2,
                y2,
                w2,
                h2,
                i % rw,
                i / rw,
            ) ==> b2[i] == c1.packed(),
{
    assert forall|i: int| 0 <= i < b0.len() implies #[trigger] b2[i] == if covers(
        width,
        height,
        x2,
        y2,
        w2,
        h2,
        i % rw,
        i / rw,
    ) {
        c2.packed()
    } else if covers(width, height, x1, y1, w1, h1, i % rw, i / rw) {
        c1.packed()
    } else {
        b0[i]
    } by {
        lemma_opaque_covers(c1, b0[i]);
        lemma_opaque_covers(c2, b1[i]);
    }
}

fn gobs_for(log2: u32) -> (g: u32)
    requires
        log2 <= MAX_BLOCK_HEIGHT_LOG2,
    ensures
        g == gobs_per_block(log2 as nat),
        1 <= g <= 32,
{
    let mut g: u32 = 1;
    let mut i: u32 = 0;
    while i < log2
        invariant
            i <= log2 <= MAX_BLOCK_HEIGHT_LOG2,
            g == gobs_per_block(i as nat),
        decreases log2 - i,
    {
        proof {
            lemma_gobs_mono(i as nat, 4);
            reveal_with_fuel(gobs_per_block, 5);
        }
        g = g * 2;
        i = i + 1;
    }
    proof {
        lemma_gobs_mono(0, log2 as nat);
        lemma_gobs_mono(log2 as nat, 5);
        reveal_with_fuel(gobs_per_block, 6);
    }
    g
}

pub(crate) proof fn lemma_gobs_mono(a: nat, b: nat)
    requires
        a <= b,
    ensures
        gobs_per_block(a) <= gobs_per_block(b),
    decreases b - a,
{
    if a < b {
        lemma_gobs_mono(a, (b - 1) as nat);
    }
}

/// Bytes per row of a frame `width` pixels wide.
pub fn compute_stride(width: u32) -> (s: u32)
    requires
        4 * width + 63 <= u32::MAX,
    ensures
        s == stride_spec(width as int),
        s % 64 == 0,
        s >= 4 * width,
{
    let s = (4 * width + 63) / 64 * 64;
    assert(s % 64 == 0 && s >= 4 * width) by (nonlinear_arith)
        requires
            s == (4 * width + 63) / 64 * 64,
    ;
    s
}

/// Rows of the scratch buffer: `height` rounded up to whole blocks.
pub fn compute_aligned_height(height: u32, block_height_log2: u32) -> (h: u32)
    requires
        block_height_log2 <= MAX_BLOCK_HEIGHT_LOG2,
        align_up(height as int, block_rows(block_height_log2 as nat)) <= u32::MAX,
    ensures
        h == align_up(height as int, block_rows(block_height_log2 as nat)),
        h >= height,
        h as int % block_rows(block_height_log2 as nat) == 0,
{
    let rows = 8 * gobs_for(block_height_log2);
    let blocks = (height as u64 + rows as u64 - 1) / rows as u64;
    assert(blocks as int * rows as int >= height as int && (blocks as int * rows as int) % (rows as int) == 0) by (nonlinear_arith)
        requires
            blocks as int == (height as int + rows as int - 1) / rows as int,
            rows >= 8,
    ;
    assert(blocks * rows <= u32::MAX);
    (blocks * rows as u64) as u32
}

/// The shape of the surface a renderer draws for.
#[derive(Clone, Copy, PartialEq, Eq, Structural, Debug)]
pub struct SurfaceDesc {
    pub width: u32,
    pub height: u32,
    pub color_format: u32,
    pub block_height_log2: u32,
}

impl SurfaceDesc {
    /// Whether a scratch buffer for this surface can be addressed on this machine.
    pub open spec fn valid(self) -> bool {
        &&& self.block_height_log2 <= MAX_BLOCK_HEIGHT_LOG2
        &&& 4 * self.width + 63 <= u32::MAX
        &&& align_up(self.height as int, block_rows(self.block_height_log2 as nat)) <= u32::MAX
        &&& stride_spec(self.width as int) / 4 * align_up(
            self.height as int,
            block_rows(self.block_height_log2 as nat),
        ) <= usize::MAX
    }

    pub fn is_valid(&self) -> (r: bool)
        ensures
            r == self.valid(),
    {
        if self.block_height_log2 > MAX_BLOCK_HEIGHT_LOG2 || self.width > (u32::MAX - 63) / 4 {
            return false;
        }
        let rows = 8 * gobs_for(self.block_height_log2) as u64;
        let blocks = (self.height as u64 + rows - 1) / rows;
        assert(blocks * rows <= self.height + rows - 1) by (nonlinear_arith)
            requires
                blocks as int == (self.height as int + rows as int - 1) / rows as int,
                rows >= 8,
        ;
        let ah = blocks * rows;
        if ah > u32::MAX as u64 {
            return false;
        }
        let stride = compute_stride(self.width);
        assert((stride / 4) as u64 * ah <= 0x4000_0000 * 0x1_0000_0000) by (nonlinear_arith)
            requires
                stride <= u32::MAX,
                ah <= u32::MAX,
        ;
        let words = (stride / 4) as u64 * ah;
        words <= usize::MAX as u64
    }
}

/// A CPU-side frame: a linear buffer of packed pixels, `stride` bytes per row.
pub struct Renderer {
    linear_buf: Vec<u32>,
    stride: u32,
    width: u32,
    height: u32,
    aligned_height: u32,
    block_height_log2: u32,
    color_format: u32,
}

impl Renderer {
    pub closed spec fn buf(self) -> Seq<u32> {
        self.linear_buf@
    }

    pub closed spec fn stride(self) -> u32 {
        self.stride
    }

    pub closed spec fn width(self) -> u32 {
        self.width
    }

    pub closed spec fn height(self) -> u32 {
        self.height
    }

    pub closed spec fn aligned_height(self) -> u32 {
        self.aligned_height
    }

    pub closed spec fn block_height_log2(self) -> u32 {
        self.block_height_log2
    }

    pub closed spec fn color_format(self) -> u32 {
        self.color_format
    }

    /// Pixels per row of the buffer.
    pub open spec fn row_words(self) -> int {
        self.stride() as int / 4
    }

    pub open spec fn wf(self) -> bool {
        &&& self.block_height_log2() <= MAX_BLOCK_HEIGHT_LOG2
        &&& self.stride() == stride_spec(self.width() as int)
        &&& self.stride() >= 4 * self.width()
        &&& self.stride() % 64 == 0
        &&& self.aligned_height() == align_up(
            self.height() as int,
            block_rows(self.block_height_log2() as nat),
        )
        &&& self.aligned_height() >= self.height()
        &&& self.aligned_height() as int % block_rows(self.block_height_log2() as nat) == 0
        &&& self.buf().len() == self.row_words() * self.aligned_height()
    }

    /// Same surface shape as `other`.
    pub open spec fn same_shape(self, other: Renderer) -> bool {
        &&& self.stride() == other.stride()
        &&& self.width() == other.width()
        &&& self.height() == other.height()
        &&& self.aligned_height() == other.aligned_height()
        &&& self.block_height_log2() == other.block_height_log2()
        &&& self.color_format() == other.color_format()
    }

    /// Index of pixel `(x, y)` in the buffer.
    pub open spec fn index_of(self, x: int, y: int) -> int {
        y * self.row_words() + x
    }

    /// Creates a renderer for a surface, with a zeroed scratch buffer.
    pub fn from(desc: &SurfaceDesc) -> (r: Self)
        requires
            desc.valid(),
        ensures
            r.wf(),
            r.width() == desc.width,
            r.height() == desc.height,
            r.color_format() == desc.color_format,
            r.block_height_log2() == desc.block_height_log2,
            forall|i: int| 0 <= i < r.buf().len() ==> r.buf()[i] == 0,
    {
        let stride = compute_stride(desc.width);
        let aligned_height = compute_aligned_height(desc.height, desc.block_height_log2);
        let n: usize = ((stride / 4) as usize) * (aligned_height as usize);
        let mut linear_buf: Vec<u32> = Vec::new();
        while linear_buf.len() < n
            invariant
                linear_buf.len() <= n,
                forall|i: int| 0 <= i < linear_buf.len() ==> linear_buf[i] == 0,
            decreases n - linear_buf.len(),
        {
            linear_buf.push(0);
        }
        Renderer {
            linear_buf,
            stride,
            width: desc.width,
            height: desc.height,
            aligned_height,
            block_height_log2: desc.block_height_log2,
            color_format: desc.color_format,
        }
    }

    pub fn get_width(&self) -> (w: u32)
        ensures
            w == self.width(),
    {
        self.width
    }

    pub fn get_height(&self) -> (h: u32)
        ensures
            h == self.height(),
    {
        self.height
    }

    pub fn get_stride(&self) -> (s: u32)
        ensures
            s == self.stride(),
    {
        self.stride
    }

    pub fn get_aligned_height(&self) -> (h: u32)
        ensures
            h == self.aligned_height(),
    {
        self.aligned_height
    }

    pub fn get_color_format(&self) -> (f: u32)
        ensures
            f == self.color_format(),
    {
        self.color_format
    }

    /// The packed pixel at `(x, y)`.
    pub fn pixel(&self, x: u32, y: u32) -> (p: u32)
        requires
            self.wf(),
            x < self.width(),
            y < self.height(),
        ensures
            p == self.buf()[self.index_of(x as int, y as int)],
    {
        let i = self.index(x, y);
        self.linear_buf[i]
    }

    /// The scratch buffer, row by row.
    pub fn buffer(&self) -> (b: &Vec<u32>)
        ensures
            b@ == self.buf(),
    {
        &self.linear_buf
    }

    fn index(&self, x: u32, y: u32) -> (i: usize)
        requires
            self.wf(),
            x < self.width(),
            y < self.height(),
        ensures
            i == self.index_of(x as int, y as int),
            i < self.buf().len(),
    {
        let rw = (self.stride / 4) as usize;
        proof {
            lemma_index_in_range(x as int, y as int, rw as int, self.aligned_height as int);
        }
        assert(y * rw + x < self.linear_buf.len());
        (y as usize) * rw + x as usize
    }

    /// Fills every word of the scratch buffer with `color`.
    pub fn clear(&mut self, color: RGBA8)
        requires
            old(self).wf(),
        ensures
            final(self).wf(),
            final(self).same_shape(*old(self)),
            final(self).buf().len() == old(self).buf().len(),
            forall|i: int| 0 <= i < final(self).buf().len() ==> final(self).buf()[i] == color.packed(),
    {
        let w = color.encode();
        let n = self.linear_buf.len();
        let mut i: usize = 0;
        while i < n
            invariant
                self.wf(),
                self.same_shape(*old(self)),
                self.linear_buf.len() == n,
                i <= n,
                forall|j: int| 0 <= j < i ==> self.linear_buf[j] == w,
            decreases n - i,
        {
            self.linear_buf.set(i, w);
            i = i + 1;
        }
    }

    /// Blends `color` over the pixel at `(x, y)`.
    pub fn draw_single(&mut self, x: u32, y: u32, color: RGBA8)
        requires
            old(self).wf(),
            x < old(self).width(),
            y < old(self).height(),
        ensures
            final(self).wf(),
            final(self).same_shape(*old(self)),
            final(self).buf() == old(self).buf().update(
                old(self).index_of(x as int, y as int),
                blended_word(color, old(self).buf()[old(self).index_of(x as int, y as int)]),
            ),
    {
        let i = self.index(x, y);
        let old_color = RGBA8::from(self.linear_buf[i]);
        let new_color = color.blend_with(old_color);
        self.linear_buf.set(i, new_color.encode());
    }

    fn clamp(max: i64, value: i64) -> (r: i64)
        requires
            max >= 0,
        ensures
            r == clamp_spec(max as int, value as int),
    {
        if value < 0 {
            return 0;
        }
        if value > max {
            return max;
        }
        value
    }

    /// Blends `color` over every pixel of `[x, x+width) × [y, y+height)` that lies on the surface.
    pub fn draw(&mut self, x: i32, y: i32, width: i32, height: i32, color: RGBA8)
        requires
            old(self).wf(),
        ensures
            final(self).wf(),
            final(self).same_shape(*old(self)),
            rect_drawn(
                final(self).buf(),
                old(self).buf(),
                old(self).row_words(),
                old(self).width() as int,
                old(self).height() as int,
                x as int,
                y as int,
                width as int,
                height as int,
                color,
            ),
    {
        let ghost ob = self.linear_buf@;
        let ghost rw = self.row_words();
        let ghost (sw, sh) = (self.width as int, self.height as int);
        let x0 = Self::clamp(self.width as i64, x as i64);
        let x1 = Self::clamp(self.width as i64, x as i64 + width as i64);
        let y0 = Self::clamp(self.height as i64, y as i64);
        let y1 = Self::clamp(self.height as i64, y as i64 + height as i64);
        let mut py = y0;
        while py < y1
            invariant
                self.wf(),
                self.same_shape(*old(self)),
                rw == self.row_words(),
                sw == self.width(),
                sh == self.height(),
                x0 == clamp_spec(sw, x as int),
                x1 == clamp_spec(sw, x + width),
                y0 == clamp_spec(sh, y as int),
                y1 == clamp_spec(sh, y + height),
                y0 <= py,
                self.buf().len() == ob.len(),
                forall|i: int|
                    #![trigger self.buf()[i]]
                    0 <= i < ob.len() ==> self.buf()[i] == if covers(sw, sh, x as int, y as int, width as int, height as int, i % rw, i / rw) && i / rw < py {
                        blended_word(color, ob[i])
                    } else {
                        ob[i]
                    },
            decreases y1 - py,
        {
            let mut px = x0;
            while px < x1
                invariant
                    self.wf(),
                    self.same_shape(*old(self)),
                    rw == self.row_words(),
                    sw == self.width(),
                    sh == self.height(),
                    x0 == clamp_spec(sw, x as int),
                    x1 == clamp_spec(sw, x + width),
                    y0 == clamp_spec(sh, y as int),
                    y1 == clamp_spec(sh, y + height),
                    y0 <= py < y1,
                    x0 <= px,
                    self.buf().len() == ob.len(),
                    forall|i: int|
                        #![trigger self.buf()[i]]
                        0 <= i < ob.len() ==> self.buf()[i] == if covers(sw, sh, x as int, y as int, width as int, height as int, i % rw, i / rw) && (i / rw < py || (i / rw == py && i % rw < px)) {
                            blended_word(color, ob[i])
                        } else {
                            ob[i]
                        },
                decreases x1 - px,
            {
                let ghost pre = self.linear_buf@;
                assert(self.index_of(px as u32 as int, py as u32 as int) == py * rw + px);
                proof {
                    assert(rw >= sw);
                    lemma_fundamental_div_mod_converse(py * rw + px, rw, py as int, px as int);
                }
                self.draw_single(px as u32, py as u32, color);
                proof {
                    let idx = py * rw + px;
                    lemma_index_in_range(px as int, py as int, rw, self.aligned_height as int);
                    assert forall|i: int|
                        #![trigger self.buf()[i]]
                        0 <= i < ob.len() && i != idx implies !(i / rw == py && i % rw == px) by {
                        vstd::arithmetic::div_mod::lemma_fundamental_div_mod(i, rw);
                        if i / rw == py {
                            assert(rw * (i / rw) == py * rw) by (nonlinear_arith)
                                requires
                                    i / rw == py,
                            ;
                        }
                    }
                    assert forall|i: int|
                        #![trigger self.buf()[i]]
                        0 <= i < ob.len() implies self.buf()[i] == if covers(sw, sh, x as int, y as int, width as int, height as int, i % rw, i / rw) && (i / rw < py || (i / rw == py && i % rw < px + 1)) {
                            blended_word(color, ob[i])
                        } else {
                            ob[i]
                        } by {
                        assert(pre[i] == if covers(sw, sh, x as int, y as int, width as int, height as int, i % rw, i / rw) && (i / rw < py || (i / rw == py && i % rw < px)) {
                            blended_word(color, ob[i])
                        } else {
                            ob[i]
                        });
                        if i == idx {
                            assert(i % rw == px && i / rw == py);
                            assert(self.buf()[i] == blended_word(color, pre[i]));
                        } else {
                            assert(self.buf()[i] == pre[i]);
                        }
                    }
                }
                px = px + 1;
            }
            py = py + 1;
        }
    }
}

impl Renderer {
    /// Lays the frame out in the GPU's tiled order into `out`, a buffer at least the frame's
    /// size; words past the frame's size are left as they were.
    pub fn end(&self, out: &mut Vec<u32>)
        requires
            self.wf(),
            old(out).len() >= self.buf().len(),
        ensures
            is_tiled_of(
                final(out)@,
                self.buf(),
                old(out)@,
                self.row_words(),
                gobs_per_block(self.block_height_log2() as nat) as int,
                self.height() as int,
            ),
    {
        let g = gobs_for(self.block_height_log2);
        convert_buffers_impl(out, &self.linear_buf, self.stride, self.height, g, self.aligned_height);
    }

    /// Blends `color`, with `coverage` as its alpha, over pixel `(x, y)` if it lies on the surface.
    pub fn draw_coverage(&mut self, x: i64, y: i64, coverage: u8, color: RGBA8)
        requires
            old(self).wf(),
        ensures
            final(self).wf(),
            final(self).same_shape(*old(self)),
            final(self).buf() == if 0 <= x < old(self).width() && 0 <= y < old(self).height() {
                old(self).buf().update(
                    old(self).index_of(x as int, y as int),
                    blended_word(
                        RGBA8 { a: coverage, ..color },
                        old(self).buf()[old(self).index_of(x as int, y as int)],
                    ),
                )
            } else {
                old(self).buf()
            },
    {
        if 0 <= x && x < self.width as i64 && 0 <= y && y < self.height as i64 {
            let pix_color = RGBA8 { a: coverage, ..color };
            self.draw_single(x as u32, y as u32, pix_color);
        }
    }
}

proof fn lemma_index_in_range(x: int, y: int, rw: int, ah: int)
    requires
        0 <= x < rw,
        0 <= y < ah,
    ensures
        0 <= y * rw + x < rw * ah,
{
    assert(y * rw + x < rw * ah) by (nonlinear_arith)
        requires
            0 <= x < rw,
            0 <= y < ah,
    ;
    assert(0 <= y * rw) by (nonlinear_arith)
        requires
            0 <= x < rw,
            0 <= y,
    ;
}

} // verus!
