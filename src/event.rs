use vstd::prelude::*;

verus! {

/// The key-mask bit of the touch screen.
pub const KEY_TOUCH: u64 = 0x1000_0000;

/// Whether key mask `keys` holds every key of `mask`.
pub open spec fn keys_contain(keys: u64, mask: u64) -> bool {
    keys & mask == mask
}

/// Whether key mask `keys` holds every key of `mask`.
pub fn contains(keys: u64, mask: u64) -> (r: bool)
    ensures
        r == keys_contain(keys, mask),
{
    keys & mask == mask
}

/// The controllers a frame's input can be read from.
#[derive(Clone, Copy, PartialEq, Eq, Structural, Debug)]
pub enum ControllerId {
    Player1,
    Handheld,
}

/// The controller to read a frame's keys from: player one when connected, else the handheld.
pub fn input_controller(player1_connected: bool) -> (c: ControllerId)
    ensures
        c == if player1_connected {
            ControllerId::Player1
        } else {
            ControllerId::Handheld
        },
{
    if player1_connected {
        ControllerId::Player1
    } else {
        ControllerId::Handheld
    }
}

/// A point the touch screen reported.
#[derive(Clone, Copy, PartialEq, Eq, Structural, Debug)]
pub struct TouchPoint {
    pub x: u32,
    pub y: u32,
}

/// The input of one frame: keys that went down, went up and are held, and the touch point.
#[derive(Clone, Copy, PartialEq, Eq, Structural, Debug)]
pub struct RenderContext {
    pub keys_down: u64,
    pub keys_up: u64,
    pub keys_held: u64,
    pub touch_data: Option<TouchPoint>,
}

impl RenderContext {
    /// Whether a frame whose held keys are `keys_held` carries a touch point.
    pub fn needs_touch(keys_held: u64) -> (r: bool)
        ensures
            r == keys_contain(keys_held, KEY_TOUCH),
    {
        contains(keys_held, KEY_TOUCH)
    }

    /// The context of one frame; the touch point is kept only while the touch key is held.
    pub fn new(keys_down: u64, keys_up: u64, keys_held: u64, touch: Option<TouchPoint>) -> (c: Self)
        ensures
            c.keys_down == keys_down,
            c.keys_up == keys_up,
            c.keys_held == keys_held,
            c.touch_data == if keys_contain(keys_held, KEY_TOUCH) {
                touch
            } else {
                None
            },
    {
        let touch_data = if Self::needs_touch(keys_held) {
            touch
        } else {
            None
        };
        RenderContext { keys_down, keys_up, keys_held, touch_data }
    }
}

/// Which key transition an event waits for.
#[derive(Clone, Copy, PartialEq, Eq, Structural, Debug)]
pub enum KeyMode {
    Down,
    Up,
    Held,
}

/// A registered event: when the keys of `key` are all in the mask that `mode` selects,
/// callback number `callback` of its object runs.
#[derive(Clone, Copy, PartialEq, Eq, Structural, Debug)]
pub struct KeyEvent {
    pub key: u64,
    pub mode: KeyMode,
    pub callback: usize,
}

/// The key mask of `ctx` that `mode` selects.
pub open spec fn selected_keys(ctx: RenderContext, mode: KeyMode) -> u64 {
    match mode {
        KeyMode::Down => ctx.keys_down,
        KeyMode::Up => ctx.keys_up,
        KeyMode::Held => ctx.keys_held,
    }
}

/// Whether `e` fires in a frame with input `ctx`.
pub open spec fn triggered(e: KeyEvent, ctx: RenderContext) -> bool {
    keys_contain(selected_keys(ctx, e.mode), e.key)
}

/// The callbacks that the events fire, in registration order.
pub open spec fn fired(events: Seq<KeyEvent>, ctx: RenderContext) -> Seq<usize>
    decreases events.len(),
{
    if events.len() == 0 {
        Seq::empty()
    } else {
        let last = events.last();
        let before = fired(events.drop_last(), ctx);
        if triggered(last, ctx) {
            before.push(last.callback)
        } else {
            before
        }
    }
}

/// Something that, in a frame whose input it matches, asks for a callback to run.
pub trait Event {
    /// Whether the event matches a frame with input `ctx`.
    spec fn fires_on(&self, ctx: RenderContext) -> bool;

    /// The callback the event asks for.
    spec fn callback_id(&self) -> usize;

    fn get_callback(&self) -> (c: usize)
        ensures
            c == self.callback_id(),
    ;

    fn handle(&self, ctx: &RenderContext) -> (r: bool)
        ensures
            r == self.fires_on(*ctx),
    ;
}

impl KeyEvent {
    pub fn new(key: u64, mode: KeyMode, callback: usize) -> (e: Self)
        ensures
            e == (KeyEvent { key, mode, callback }),
    {
        KeyEvent { key, mode, callback }
    }
}

impl Event for KeyEvent {
    open spec fn fires_on(&self, ctx: RenderContext) -> bool {
        triggered(*self, ctx)
    }

    open spec fn callback_id(&self) -> usize {
        self.callback
    }

    fn get_callback(&self) -> (c: usize) {
        self.callback
    }

    /// Whether every key of this event is in the mask of `ctx` that its mode selects.
    fn handle(&self, ctx: &RenderContext) -> (r: bool) {
        let keys = match self.mode {
            KeyMode::Down => ctx.keys_down,
            KeyMode::Up => ctx.keys_up,
            KeyMode::Held => ctx.keys_held,
        };
        assert(keys == selected_keys(*ctx, self.mode));
        assert(self.fires_on(*ctx) == triggered(*self, *ctx));
        contains(keys, self.key)
    }
}

/// The callbacks that `events` fire in a frame with input `ctx`, in registration order.
pub fn fired_events(events: &Vec<KeyEvent>, ctx: &RenderContext) -> (r: Vec<usize>)
    ensures
        r@ == fired(events@, *ctx),
{
    let mut r: Vec<usize> = Vec::new();
    let mut i: usize = 0;
    while i < events.len()
        invariant
            i <= events.len(),
            r@ == fired(events@.subrange(0, i as int), *ctx),
        decreases events.len() - i,
    {
        proof {
            assert(events@.subrange(0, i + 1).drop_last() == events@.subrange(0, i as int));
        }
        if events[i].handle(ctx) {
            r.push(events[i].callback);
        }
        i = i + 1;
    }
    proof {
        assert(events@.subrange(0, events.len() as int) == events@);
    }
    r
}

/// An object whose only event waits for `key` to go down fires its callback once in a
/// frame where `key` went down, and not at all otherwise, whatever keys are held or released.
pub proof fn lemma_key_down_fires_once(key: u64, callback: usize, ctx: RenderContext)
    ensures
        fired(seq![KeyEvent { key, mode: KeyMode::Down, callback }], ctx) == if keys_contain(
            ctx.keys_down,
            key,
        ) {
            seq![callback]
        } else {
            Seq::<usize>::empty()
        },
{
    let events = seq![KeyEvent { key, mode: KeyMode::Down, callback }];
    assert(events.drop_last() =~= Seq::<KeyEvent>::empty());
    assert(fired(Seq::<KeyEvent>::empty(), ctx) == Seq::<usize>::empty());
    assert(Seq::<usize>::empty().push(callback) =~= seq![callback]);
}

/// Registering one more event leaves what the earlier ones fire as it was, and appends the
/// new event's callback exactly when it matches.
pub proof fn lemma_fired_push(events: Seq<KeyEvent>, e: KeyEvent, ctx: RenderContext)
    ensures
        fired(events.push(e), ctx) == if triggered(e, ctx) {
            fired(events, ctx).push(e.callback)
        } else {
            fired(events, ctx)
        },
{
    assert(events.push(e).drop_last() =~= events);
}

} // verus!
