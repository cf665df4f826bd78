use vstd::prelude::*;
use crate::color::RGBA8;
use crate::event::{RenderContext, fired};
use crate::object::{Button, Object, button_color};
use crate::render::{
    Renderer, SurfaceDesc, covers, gobs_per_block, lemma_gobs_mono, lemma_later_rect_on_top,
    rect_drawn,
};
use crate::tiling::{is_tiled_of, lemma_dest, tiled_dest, tiled_source};
use crate::scene::Scene;

verus! {

/// Whether each renderer of `states` is what drawing object `k` of `objects` onto
/// `states[k]` may leave, in scene order.
pub open spec fn painted_in_order<O: Object>(objects: Seq<O>, states: Seq<Renderer>) -> bool {
    &&& states.len() == objects.len() + 1
    &&& forall|k: int| 0 <= k < objects.len() ==> #[trigger] painted_step(objects, states, k)
}

/// Whether `states[k + 1]` is what drawing `objects[k]` onto `states[k]` may leave.
pub open spec fn painted_step<O: Object>(objects: Seq<O>, states: Seq<Renderer>, k: int) -> bool {
    objects[k].renders(states[k], states[k + 1]) && states[k + 1].same_shape(states[k])
}

/// In a scene of two buttons, the later one shows wherever it lies, over the earlier one
/// too, and the earlier one shows wherever only it lies.
pub proof fn lemma_later_button_on_top(objects: Seq<Button>, states: Seq<Renderer>)
    requires
        objects.len() == 2,
        painted_in_order(objects, states),
    ensures
        forall|i: int|
            #![trigger states[2].buf()[i]]
            0 <= i < states[0].buf().len() && covers(
                states[0].width() as int,
                states[0].height() as int,
                objects[1].bounds().0 as int,
                objects[1].bounds().1 as int,
                objects[1].bounds().2 as i32 as int,
                objects[1].bounds().3 as i32 as int,
                i % states[0].row_words(),
                i / states[0].row_words(),
            ) ==> states[2].buf()[i] == button_color().packed(),
        forall|i: int|
            #![trigger states[2].buf()[i]]
            0 <= i < states[0].buf().len() && covers(
                states[0].width() as int,
                states[0].height() as int,
                objects[0].bounds().0 as int,
                objects[0].bounds().1 as int,
                objects[0].bounds().2 as i32 as int,
                objects[0].bounds().3 as i32 as int,
                i % states[0].row_words(),
                i / states[0].row_words(),
            ) ==> states[2].buf()[i] == button_color().packed(),
{
    assert(painted_step(objects, states, 0));
    assert(painted_step(objects, states, 1));
    let (b0, o0) = (objects[0].bounds(), objects[1].bounds());
    lemma_later_rect_on_top(
        states[0].buf(),
        states[1].buf(),
        states[2].buf(),
        states[0].row_words(),
        states[0].width() as int,
        states[0].height() as int,
        b0.0 as int,
        b0.1 as int,
        b0.2 as i32 as int,
        b0.3 as i32 as int,
        button_color(),
        o0.0 as int,
        o0.1 as int,
        o0.2 as i32 as int,
        o0.3 as i32 as int,
        button_color(),
    );
}

/// Of two objects that each fill a rectangle with an opaque color, painted in scene order,
/// the later one's color shows wherever its rectangle lies on the surface, over the earlier
/// one too, both in the frame and at the matching word of the frame's tiled layout; the
/// earlier one's color shows wherever only its rectangle lies.
pub proof fn lemma_later_object_on_top<O: Object>(
    objects: Seq<O>,
    states: Seq<Renderer>,
    x1: int,
    y1: int,
    w1: int,
    h1: int,
    c1: RGBA8,
    x2: int,
    y2: int,
    w2: int,
    h2: int,
    c2: RGBA8,
    tiled: Seq<u32>,
    prev: Seq<u32>,
)
    requires
        objects.len() == 2,
        painted_in_order(objects, states),
        states[0].wf(),
        forall|b: Renderer, a: Renderer|
            #[trigger] objects[0].renders(b, a) ==> rect_drawn(
                a.buf(),
                b.buf(),
                b.row_words(),
                b.width() as int,
                b.height() as int,
                x1,
                y1,
                w1,
                h1,
                c1,
            ),
        forall|b: Renderer, a: Renderer|
            #[trigger] objects[1].renders(b, a) ==> rect_drawn(
                a.buf(),
                b.buf(),
                b.row_words(),
                b.width() as int,
                b.height() as int,
                x2,
                y2,
                w2,
                h2,
                c2,
            ),
        c1.a == 255,
        c2.a == 255,
        prev.len() >= states[0].buf().len(),
        is_tiled_of(
            tiled,
            states[2].buf(),
            prev,
            states[0].row_words(),
            gobs_per_block(states[0].block_height_log2() as nat) as int,
            states[0].height() as int,
        ),
    ensures
        forall|i: int|
            #![trigger states[2].buf()[i]]
            0 <= i < states[0].buf().len() && covers(
                states[0].width() as int,
                states[0].height() as int,
                x2,
                y2,
                w2,
                h2,
                i % states[0].row_words(),
                i / states[0].row_words(),
            ) ==> states[2].buf()[i] == c2.packed(),
        forall|i: int|
            #![trigger states[2].buf()[i]]
            0 <= i < states[0].buf().len() && covers(
                states[0].width() as int,
                states[0].height() as int,
                x1,
                y1,
                w1,
                h1,
                i % states[0].row_words(),
                i / states[0].row_words(),
            ) && !covers(
                states[0].width() as int,
                states[0].height() as int,
                x2,
                y2,
                w2,
                h2,
                i % states[0].row_words(),
                i / states[0].row_words(),
            ) ==> states[2].buf()[i] == c1.packed(),
        forall|i: int|
            0 <= i < states[0].buf().len() && covers(
                states[0].width() as int,
                states[0].height() as int,
                x2,
                y2,
                w2,
                h2,
                i % states[0].row_words(),
                i / states[0].row_words(),
            ) ==> #[trigger] tiled[tiled_dest(
                states[0].row_words(),
                gobs_per_block(states[0].block_height_log2() as nat) as int,
                i,
            )] == c2.packed(),
{
    assert(painted_step(objects, states, 0));
    assert(painted_step(objects, states, 1));
    let r0 = states[0];
    let rw = r0.row_words();
    let g = gobs_per_block(r0.block_height_log2() as nat) as int;
    lemma_later_rect_on_top(
        r0.buf(),
        states[1].buf(),
        states[2].buf(),
        rw,
        r0.width() as int,
        r0.height() as int,
        x1,
        y1,
        w1,
        h1,
        c1,
        x2,
        y2,
        w2,
        h2,
        c2,
    );
    lemma_gobs_mono(0, r0.block_height_log2() as nat);
    assert forall|i: int|
        0 <= i < r0.buf().len() && covers(
            r0.width() as int,
            r0.height() as int,
            x2,
            y2,
            w2,
            h2,
            i % rw,
            i / rw,
        ) implies #[trigger] tiled[tiled_dest(rw, g, i)] == c2.packed() by {
        lemma_dest(rw, g, r0.height() as int, r0.aligned_height() as int, i);
        let o = tiled_dest(rw, g, i);
        assert(tiled[o] == states[2].buf()[tiled_source(rw, g, o)]);
    }
}

/// The state of the present loop: scenes, the active one, whether the loop runs, the clear
/// color, and the renderer.
pub struct Gui<O: Object> {
    renderer: Renderer,
    scenes: Vec<Scene<O>>,
    clear_color: RGBA8,
    current_scene_idx: usize,
    is_shown: bool,
}

impl<O: Object> Gui<O> {
    pub closed spec fn renderer(&self) -> Renderer {
        self.renderer
    }

    pub closed spec fn scenes(&self) -> Seq<Scene<O>> {
        self.scenes@
    }

    pub closed spec fn clear_color(&self) -> RGBA8 {
        self.clear_color
    }

    pub closed spec fn current_scene_idx(&self) -> usize {
        self.current_scene_idx
    }

    pub closed spec fn is_shown(&self) -> bool {
        self.is_shown
    }

    pub open spec fn wf(&self) -> bool {
        self.renderer().wf()
    }

    /// Whether a scene exists at `current_scene_idx`. Scenes are never removed, so once
    /// true this stays true, whatever callbacks do.
    pub open spec fn has_active_scene(&self) -> bool {
        self.current_scene_idx() < self.scenes().len()
    }

    /// Whether a frame of scene `current_scene_idx` is to be run.
    pub open spec fn frame_due(&self) -> bool {
        self.is_shown() && self.has_active_scene()
    }

    /// A loop over a renderer for `desc`, with no scenes, white clear color, not shown.
    pub fn new(desc: &SurfaceDesc) -> (g: Self)
        requires
            desc.valid(),
        ensures
            g.wf(),
            g.renderer().width() == desc.width,
            g.renderer().height() == desc.height,
            g.renderer().color_format() == desc.color_format,
            g.renderer().block_height_log2() == desc.block_height_log2,
            forall|i: int| 0 <= i < g.renderer().buf().len() ==> g.renderer().buf()[i] == 0,
            g.scenes() == Seq::<Scene<O>>::empty(),
            g.clear_color() == (RGBA8 { r: 255, g: 255, b: 255, a: 255 }),
            g.current_scene_idx() == 0,
            !g.is_shown(),
    {
        Gui {
            renderer: Renderer::from(desc),
            scenes: Vec::new(),
            clear_color: RGBA8::new_rgb(0xFF, 0xFF, 0xFF),
            current_scene_idx: 0,
            is_shown: false,
        }
    }

    pub fn get_renderer(&self) -> (r: &Renderer)
        ensures
            *r == self.renderer(),
    {
        &self.renderer
    }

    /// The renderer, for drawing into the frame between `render_frame` and `end_frame`.
    pub fn get_renderer_mut(&mut self) -> (r: &mut Renderer)
        ensures
            *r == old(self).renderer(),
            final(self).renderer() == *final(r),
            final(self).scenes() == old(self).scenes(),
            final(self).clear_color() == old(self).clear_color(),
            final(self).current_scene_idx() == old(self).current_scene_idx(),
            final(self).is_shown() == old(self).is_shown(),
    {
        &mut self.renderer
    }

    pub fn add_scene(&mut self, scene: Scene<O>)
        ensures
            final(self).scenes() == old(self).scenes().push(scene),
            final(self).renderer() == old(self).renderer(),
            final(self).clear_color() == old(self).clear_color(),
            final(self).current_scene_idx() == old(self).current_scene_idx(),
            final(self).is_shown() == old(self).is_shown(),
    {
        self.scenes.push(scene);
    }

    pub fn set_clear_color(&mut self, clear_color: RGBA8)
        ensures
            final(self).clear_color() == clear_color,
            final(self).scenes() == old(self).scenes(),
            final(self).renderer() == old(self).renderer(),
            final(self).current_scene_idx() == old(self).current_scene_idx(),
            final(self).is_shown() == old(self).is_shown(),
    {
        self.clear_color = clear_color;
    }

    /// Marks the loop as running.
    pub fn begin_show(&mut self)
        ensures
            final(self).is_shown(),
            final(self).clear_color() == old(self).clear_color(),
            final(self).scenes() == old(self).scenes(),
            final(self).renderer() == old(self).renderer(),
            final(self).current_scene_idx() == old(self).current_scene_idx(),
    {
        self.is_shown = true;
    }

    /// Stops the loop at its next check; a frame in progress completes.
    pub fn close(&mut self)
        ensures
            !final(self).is_shown(),
            final(self).clear_color() == old(self).clear_color(),
            final(self).scenes() == old(self).scenes(),
            final(self).renderer() == old(self).renderer(),
            final(self).current_scene_idx() == old(self).current_scene_idx(),
    {
        self.is_shown = false;
    }

    pub fn get_is_shown(&self) -> (r: bool)
        ensures
            r == self.is_shown(),
    {
        self.is_shown
    }

    /// Whether the loop runs another frame: it is shown and a scene exists at the current
    /// index. A missing scene ends the loop without clearing the shown flag.
    pub fn next_frame(&self) -> (r: bool)
        ensures
            r == self.frame_due(),
    {
        self.is_shown && self.current_scene_idx < self.scenes.len()
    }

    /// Number of objects in the active scene.
    pub fn object_count(&self) -> (n: usize)
        requires
            self.has_active_scene(),
        ensures
            n == self.scenes()[self.current_scene_idx() as int].view().len(),
    {
        self.scenes[self.current_scene_idx].len()
    }

    /// The callbacks that object `k` of the active scene fires in a frame with input `ctx`,
    /// in registration order; the caller runs them before dispatching to object `k + 1`.
    pub fn dispatch_events(&self, k: usize, ctx: &RenderContext) -> (r: Vec<usize>)
        requires
            self.has_active_scene(),
            k < self.scenes()[self.current_scene_idx() as int].view().len(),
        ensures
            r@ == fired(self.scenes()[self.current_scene_idx() as int].view()[k as int].events(), *ctx),
    {
        self.scenes[self.current_scene_idx].get_objects()[k].on_event_handle(ctx)
    }

    /// Object `k` of the active scene, for a callback to change.
    pub fn active_object_mut(&mut self, k: usize) -> (r: &mut O)
        requires
            old(self).has_active_scene(),
            k < old(self).scenes()[old(self).current_scene_idx() as int].view().len(),
        ensures
            *r == old(self).scenes()[old(self).current_scene_idx() as int].view()[k as int],
            final(self).renderer() == old(self).renderer(),
            final(self).current_scene_idx() == old(self).current_scene_idx(),
            final(self).is_shown() == old(self).is_shown(),
            final(self).scenes().len() == old(self).scenes().len(),
            final(self).scenes()[old(self).current_scene_idx() as int].view() == old(self).scenes()[old(self).current_scene_idx() as int].view().update(k as int, *final(r)),
    {
        let i = self.current_scene_idx;
        let scene = &mut self.scenes[i];
        scene.get_object_mut(k)
    }

    /// Paints a frame: clears to the clear color, then draws every object of the active scene
    /// in order, so that later objects cover earlier ones.
    pub fn render_frame(&mut self)
        requires
            old(self).wf(),
            old(self).has_active_scene(),
        ensures
            final(self).wf(),
            final(self).renderer().same_shape(old(self).renderer()),
            final(self).scenes() == old(self).scenes(),
            final(self).clear_color() == old(self).clear_color(),
            final(self).current_scene_idx() == old(self).current_scene_idx(),
            final(self).is_shown() == old(self).is_shown(),
            exists|states: Seq<Renderer>|
                {
                    &&& painted_in_order(
                        old(self).scenes()[old(self).current_scene_idx() as int].view(),
                        states,
                    )
                    &&& states[0].wf()
                    &&& states[0].same_shape(old(self).renderer())
                    &&& states[0].buf().len() == old(self).renderer().buf().len()
                    &&& (forall|i: int|
                        0 <= i < states[0].buf().len() ==> #[trigger] states[0].buf()[i]
                            == old(self).clear_color().packed())
                    &&& states.last() == final(self).renderer()
                },
    {
        self.renderer.clear(self.clear_color);
        let ghost first = self.renderer;
        let ghost mut states: Seq<Renderer> = seq![self.renderer];
        let idx = self.current_scene_idx;
        let n = self.scenes[idx].len();
        let ghost objects = self.scenes@[idx as int].view();
        let mut k: usize = 0;
        while k < n
            invariant
                self.renderer.wf(),
                self.renderer.same_shape(old(self).renderer()),
                self.scenes@ == old(self).scenes@,
                self.clear_color == old(self).clear_color,
                self.current_scene_idx == old(self).current_scene_idx,
                self.is_shown == old(self).is_shown,
                idx == self.current_scene_idx,
                idx < self.scenes@.len(),
                objects == self.scenes@[idx as int].view(),
                n == objects.len(),
                k <= n,
                states.len() == k + 1,
                states[0] == first,
                states.last() == self.renderer,
                forall|j: int| 0 <= j < k ==> #[trigger] painted_step(objects, states, j),
            decreases n - k,
        {
            self.scenes[idx].get_objects()[k].on_render(&mut self.renderer);
            proof {
                let prev = states;
                states = states.push(self.renderer);
                assert forall|j: int| 0 <= j < k + 1 implies #[trigger] painted_step(
                    objects,
                    states,
                    j,
                ) by {
                    if j < k {
                        assert(painted_step(objects, prev, j));
                        assert(states[j] == prev[j] && states[j + 1] == prev[j + 1]);
                    }
                }
            }
            k = k + 1;
        }
        assert(painted_in_order(objects, states));
    }

    /// Lays the painted frame out in the GPU's tiled order into `out`.
    pub fn end_frame(&self, out: &mut Vec<u32>)
        requires
            self.wf(),
            old(out).len() >= self.renderer().buf().len(),
        ensures
            crate::tiling::is_tiled_of(
                final(out)@,
                self.renderer().buf(),
                old(out)@,
                self.renderer().row_words(),
                crate::render::gobs_per_block(self.renderer().block_height_log2() as nat) as int,
                self.renderer().height() as int,
            ),
    {
        self.renderer.end(out);
    }
}

} // verus!
