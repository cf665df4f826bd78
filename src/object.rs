use vstd::prelude::*;
use crate::color::RGBA8;
use crate::event::{KeyEvent, KeyMode, RenderContext, fired, fired_events};
use crate::render::{Renderer, rect_drawn};

verus! {

/// A drawable, interactive unit of a scene.
pub trait Object {
    /// Position and size: `(x, y, width, height)`.
    spec fn bounds(&self) -> (i32, i32, u32, u32);

    /// The registered events, in registration order.
    spec fn events(&self) -> Seq<KeyEvent>;

    /// Whether `after` is what drawing this object onto `before` may leave.
    spec fn renders(&self, before: Renderer, after: Renderer) -> bool;

    fn get_x(&self) -> (r: i32)
        ensures
            r == self.bounds().0,
    ;

    fn get_y(&self) -> (r: i32)
        ensures
            r == self.bounds().1,
    ;

    fn get_width(&self) -> (r: u32)
        ensures
            r == self.bounds().2,
    ;

    fn get_height(&self) -> (r: u32)
        ensures
            r == self.bounds().3,
    ;

    /// Draws the object onto the renderer's frame.
    fn on_render(&self, renderer: &mut Renderer)
        requires
            old(renderer).wf(),
        ensures
            final(renderer).wf(),
            final(renderer).same_shape(*old(renderer)),
            self.renders(*old(renderer), *final(renderer)),
    ;

    fn get_registered_events(&self) -> (r: &Vec<KeyEvent>)
        ensures
            r@ == self.events(),
    ;

    /// Appends an event to the table; events are never removed.
    fn register_event(&mut self, event: KeyEvent)
        ensures
            final(self).events() == old(self).events().push(event),
            final(self).bounds() == old(self).bounds(),
    ;

    fn get_position(&self) -> (r: (i32, i32))
        ensures
            r == (self.bounds().0, self.bounds().1),
    {
        (self.get_x(), self.get_y())
    }

    fn get_size(&self) -> (r: (u32, u32))
        ensures
            r == (self.bounds().2, self.bounds().3),
    {
        (self.get_width(), self.get_height())
    }

    fn get_click_bounds(&self) -> (r: (i32, i32, u32, u32))
        ensures
            r == self.bounds(),
    {
        let pos = self.get_position();
        let size = self.get_size();
        (pos.0, pos.1, size.0, size.1)
    }

    /// The callbacks that this object's events fire in a frame with input `ctx`, in
    /// registration order; the caller runs them.
    fn on_event_handle(&self, ctx: &RenderContext) -> (r: Vec<usize>)
        ensures
            r@ == fired(self.events(), *ctx),
    {
        fired_events(self.get_registered_events(), ctx)
    }

    fn on_keys_down(&mut self, keys: u64, callback: usize)
        ensures
            final(self).events() == old(self).events().push(
                KeyEvent { key: keys, mode: KeyMode::Down, callback },
            ),
            final(self).bounds() == old(self).bounds(),
    {
        self.register_event(KeyEvent::new(keys, KeyMode::Down, callback));
    }

    fn on_keys_up(&mut self, keys: u64, callback: usize)
        ensures
            final(self).events() == old(self).events().push(
                KeyEvent { key: keys, mode: KeyMode::Up, callback },
            ),
            final(self).bounds() == old(self).bounds(),
    {
        self.register_event(KeyEvent::new(keys, KeyMode::Up, callback));
    }

    fn on_keys_held(&mut self, keys: u64, callback: usize)
        ensures
            final(self).events() == old(self).events().push(
                KeyEvent { key: keys, mode: KeyMode::Held, callback },
            ),
            final(self).bounds() == old(self).bounds(),
    {
        self.register_event(KeyEvent::new(keys, KeyMode::Held, callback));
    }
}

/// The color a button fills its bounds with.
pub open spec fn button_color() -> RGBA8 {
    RGBA8 { r: 0xFF, g: 0, b: 0xFF, a: 0xFF }
}

/// A flat rectangle with a label.
pub struct Button {
    events: Vec<KeyEvent>,
    x: i32,
    y: i32,
    width: u32,
    height: u32,
    text: String,
}

impl Button {
    pub closed spec fn text(&self) -> Seq<char> {
        self.text@
    }

    pub fn new(x: i32, y: i32, width: u32, height: u32, text: String) -> (b: Self)
        ensures
            b.bounds() == (x, y, width, height),
            b.events() == Seq::<KeyEvent>::empty(),
            b.text() == text@,
    {
        Button { events: Vec::new(), x, y, width, height, text }
    }

    pub fn get_text(&self) -> (t: &String)
        ensures
            t@ == self.text(),
    {
        &self.text
    }

    pub fn set_text(&mut self, text: String)
        ensures
            final(self).text() == text@,
            final(self).bounds() == old(self).bounds(),
            final(self).events() == old(self).events(),
    {
        self.text = text;
    }

    pub fn set_x(&mut self, x: i32)
        ensures
            final(self).bounds() == (x, old(self).bounds().1, old(self).bounds().2, old(self).bounds().3),
            final(self).events() == old(self).events(),
            final(self).text() == old(self).text(),
    {
        self.x = x;
    }

    pub fn set_y(&mut self, y: i32)
        ensures
            final(self).bounds() == (old(self).bounds().0, y, old(self).bounds().2, old(self).bounds().3),
            final(self).events() == old(self).events(),
            final(self).text() == old(self).text(),
    {
        self.y = y;
    }

    pub fn set_width(&mut self, width: u32)
        ensures
            final(self).bounds() == (old(self).bounds().0, old(self).bounds().1, width, old(self).bounds().3),
            final(self).events() == old(self).events(),
            final(self).text() == old(self).text(),
    {
        self.width = width;
    }

    pub fn set_height(&mut self, height: u32)
        ensures
            final(self).bounds() == (old(self).bounds().0, old(self).bounds().1, old(self).bounds().2, height),
            final(self).events() == old(self).events(),
            final(self).text() == old(self).text(),
    {
        self.height = height;
    }
}

impl Object for Button {
    closed spec fn bounds(&self) -> (i32, i32, u32, u32) {
        (self.x, self.y, self.width, self.height)
    }

    closed spec fn events(&self) -> Seq<KeyEvent> {
        self.events@
    }

    /// A button fills its bounds with `button_color`, clipped to the surface.
    open spec fn renders(&self, before: Renderer, after: Renderer) -> bool {
        rect_drawn(
            after.buf(),
            before.buf(),
            before.row_words(),
            before.width() as int,
            before.height() as int,
            self.bounds().0 as int,
            self.bounds().1 as int,
            self.bounds().2 as i32 as int,
            self.bounds().3 as i32 as int,
            button_color(),
        )
    }

    fn get_x(&self) -> (r: i32) {
        self.x
    }

    fn get_y(&self) -> (r: i32) {
        self.y
    }

    fn get_width(&self) -> (r: u32) {
        self.width
    }

    fn get_height(&self) -> (r: u32) {
        self.height
    }

    fn on_render(&self, renderer: &mut Renderer) {
        renderer.draw(self.x, self.y, self.width as i32, self.height as i32, RGBA8::new_rgb(0xFF, 0x0, 0xFF));
    }

    fn get_registered_events(&self) -> (r: &Vec<KeyEvent>) {
        &self.events
    }

    fn register_event(&mut self, event: KeyEvent) {
        self.events.push(event);
    }
}

} // verus!
