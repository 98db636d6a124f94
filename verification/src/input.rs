//! The input context, its ingestion cycle, and the query surface.
//!
//! An `InputContext` holds the window size, the pointer position and the
//! per-key / per-button state. Once per frame the embedding drains the host's
//! event streams and folds them in, either event by event (`begin_cycle`,
//! `apply_key_event`, ...) or in one call (`ingest`), and then dispatches the
//! returned callback records to the application. Between cycles any thread
//! may read the context through the query methods.
//!
//! Coordinates are carried as the IEEE-754 bit patterns of the host's 32-bit
//! float values; the library never computes on them, it stores and returns
//! them, so the embedding converts at the boundary.

use vstd::prelude::*;

use crate::button::ButtonMap;
use crate::button::ButtonState;
use crate::button::Transition;
use crate::button::cleared;
use crate::button::default_state;
use crate::button::transition_state;

verus! {

/// A two-component vector; each component is the bit pattern of a 32-bit
/// float of the host.
#[derive(Clone, Copy, PartialEq, Eq, Structural, Debug)]
pub struct Vec2 {
    pub x: u32,
    pub y: u32,
}

/// Start-up configuration: the initial window dimensions, as bit patterns of
/// the host's 32-bit float values.
#[derive(Clone, Copy, PartialEq, Eq, Structural, Debug)]
pub struct Config {
    pub width: u32,
    pub height: u32,
}

/// One keyboard event of an ingestion cycle.
#[derive(Clone, Copy, PartialEq, Eq, Structural, Debug)]
pub struct KeyEvent {
    pub key: u32,
    pub scan_code: u32,
    pub transition: Transition,
}

/// One mouse-button event of an ingestion cycle.
#[derive(Clone, Copy, PartialEq, Eq, Structural, Debug)]
pub struct ButtonEvent {
    pub button: u32,
    pub transition: Transition,
}

/// Everything the host loop hands to one ingestion cycle, each category in
/// arrival order.
pub struct CycleEvents {
    pub keyboard: Vec<KeyEvent>,
    pub mouse_buttons: Vec<ButtonEvent>,
    pub mouse_motion: Vec<Vec2>,
    pub cursor_motion: Vec<Vec2>,
    pub resizes: Vec<Vec2>,
    pub close_requested: bool,
}

/// One keyboard callback the embedding owes the application after a cycle:
/// the event as it arrived, plus the repeat flag (the key was already down
/// when its press was folded in).
#[derive(Clone, Copy, PartialEq, Eq, Structural, Debug)]
pub struct KeyAction {
    pub key: u32,
    pub scan_code: u32,
    pub transition: Transition,
    pub repeat: bool,
}

/// The callbacks one ingestion cycle asks the embedding to dispatch, each
/// category in arrival order.
pub struct CycleActions {
    pub keyboard: Vec<KeyAction>,
    pub mouse_buttons: Vec<ButtonEvent>,
    pub mouse_motion: Vec<Vec2>,
    pub cursor_motion: Vec<Vec2>,
    pub resizes: Vec<Vec2>,
    pub invoke_close: bool,
}

/// The keyboard events as (identifier, transition) pairs.
pub open spec fn key_pairs(s: Seq<KeyEvent>) -> Seq<(u32, Transition)> {
    s.map(|i: int, e: KeyEvent| (e.key, e.transition))
}

/// The mouse-button events as (identifier, transition) pairs.
pub open spec fn button_pairs(s: Seq<ButtonEvent>) -> Seq<(u32, Transition)> {
    s.map(|i: int, e: ButtonEvent| (e.button, e.transition))
}

/// The state of key or button `k` after folding the events of one cycle, in
/// order, into starting state `b0`.
pub open spec fn state_after(
    b0: ButtonState,
    events: Seq<(u32, Transition)>,
    k: u32,
) -> ButtonState
    decreases events.len(),
{
    if events.len() == 0 {
        b0
    } else if events.last().0 == k {
        transition_state(events.last().1)
    } else {
        state_after(b0, events.drop_last(), k)
    }
}

pub proof fn lemma_state_after_push(
    b0: ButtonState,
    events: Seq<(u32, Transition)>,
    p: (u32, Transition),
    k: u32,
)
    ensures
        state_after(b0, events.push(p), k) == (if p.0 == k {
            transition_state(p.1)
        } else {
            state_after(b0, events, k)
        }),
{
    assert(events.push(p).drop_last() =~= events);
    assert(events.push(p).last() == p);
}

pub proof fn lemma_state_after_untouched(
    b0: ButtonState,
    events: Seq<(u32, Transition)>,
    k: u32,
)
    requires
        forall|m: int| 0 <= m < events.len() ==> (#[trigger] events[m]).0 != k,
    ensures
        state_after(b0, events, k) == b0,
    decreases events.len(),
{
    if events.len() > 0 {
        lemma_state_after_untouched(b0, events.drop_last(), k);
    }
}

pub proof fn lemma_state_after_last_event(
    b0: ButtonState,
    events: Seq<(u32, Transition)>,
    k: u32,
    i: int,
)
    requires
        0 <= i < events.len(),
        events[i].0 == k,
        forall|m: int| i < m < events.len() ==> (#[trigger] events[m]).0 != k,
    ensures
        state_after(b0, events, k) == transition_state(events[i].1),
    decreases events.len(),
{
    if i == events.len() - 1 {
        assert(events.last() == events[i]);
    } else {
        assert(events.last().0 != k);
        lemma_state_after_last_event(b0, events.drop_last(), k, i);
    }
}

/// The aggregate input state: window size, pointer position and the state of
/// every key and mouse button referenced so far.
pub struct InputContext {
    pub window_size: Vec2,
    pub mouse_position: Vec2,
    pub keys: ButtonMap,
    pub mouse_buttons: ButtonMap,
}

impl InputContext {
    pub open spec fn wf(self) -> bool {
        self.keys.wf() && self.mouse_buttons.wf()
    }

    /// The state currently recorded for key `k`.
    pub open spec fn key_view(self, k: u32) -> ButtonState {
        self.keys.state_of(k)
    }

    /// The state currently recorded for mouse button `b`.
    pub open spec fn button_view(self, b: u32) -> ButtonState {
        self.mouse_buttons.state_of(b)
    }

    /// The context at system start: window size from the configuration, the
    /// pointer at the origin, and no key or button referenced.
    pub fn new(config: &Config) -> (r: Self)
        ensures
            r.wf(),
            r.window_size == (Vec2 { x: config.width, y: config.height }),
            r.mouse_position == (Vec2 { x: 0, y: 0 }),
            forall|k: u32| #[trigger] r.key_view(k) == default_state(),
            forall|b: u32| #[trigger] r.button_view(b) == default_state(),
    {
        InputContext {
            window_size: Vec2 { x: config.width, y: config.height },
            mouse_position: Vec2 { x: 0, y: 0 },
            keys: ButtonMap::new(),
            mouse_buttons: ButtonMap::new(),
        }
    }

    pub fn window_size(&self) -> (r: Vec2)
        ensures
            r == self.window_size,
    {
        self.window_size
    }

    pub fn mouse_position(&self) -> (r: Vec2)
        ensures
            r == self.mouse_position,
    {
        self.mouse_position
    }

    pub fn is_key_down(&self, key: u32) -> (r: bool)
        ensures
            r == self.key_view(key).down,
    {
        self.keys.get(key).down
    }

    pub fn is_key_pressed(&self, key: u32) -> (r: bool)
        ensures
            r == self.key_view(key).pressed,
    {
        self.keys.get(key).pressed
    }

    pub fn is_key_released(&self, key: u32) -> (r: bool)
        ensures
            r == self.key_view(key).released,
    {
        self.keys.get(key).released
    }

    pub fn is_mouse_button_down(&self, mb: u32) -> (r: bool)
        ensures
            r == self.button_view(mb).down,
    {
        self.mouse_buttons.get(mb).down
    }

    pub fn is_mouse_button_pressed(&self, mb: u32) -> (r: bool)
        ensures
            r == self.button_view(mb).pressed,
    {
        self.mouse_buttons.get(mb).pressed
    }

    pub fn is_mouse_button_released(&self, mb: u32) -> (r: bool)
        ensures
            r == self.button_view(mb).released,
    {
        self.mouse_buttons.get(mb).released
    }

    /// Start an ingestion cycle: clear every cycle-local edge flag, so that
    /// `pressed` and `released` only ever report transitions of the current
    /// cycle. Level flags and the rest of the context are untouched.
    pub fn begin_cycle(&mut self)
        requires
            old(self).wf(),
        ensures
            final(self).wf(),
            forall|k: u32| #[trigger] final(self).key_view(k) == cleared(old(self).key_view(k)),
            forall|b: u32|
                #[trigger] final(self).button_view(b) == cleared(old(self).button_view(b)),
            final(self).window_size == old(self).window_size,
            final(self).mouse_position == old(self).mouse_position,
    {
        self.keys.clear_edges();
        self.mouse_buttons.clear_edges();
    }

    /// Fold one keyboard event into the context. Returns the repeat flag the
    /// keyboard callback is owed: true iff this was a press of a key that was
    /// already down.
    pub fn apply_key_event(&mut self, event: KeyEvent) -> (repeat: bool)
        requires
            old(self).wf(),
        ensures
            final(self).wf(),
            final(self).key_view(event.key) == transition_state(event.transition),
            forall|j: u32|
                j != event.key ==> #[trigger] final(self).key_view(j) == old(self).key_view(j),
            forall|b: u32| #[trigger] final(self).button_view(b) == old(self).button_view(b),
            final(self).window_size == old(self).window_size,
            final(self).mouse_position == old(self).mouse_position,
            repeat == (event.transition is Pressed && old(self).key_view(event.key).down),
    {
        let was_down = self.keys.apply_transition(event.key, event.transition);
        match event.transition {
            Transition::Pressed => was_down,
            Transition::Released => false,
        }
    }

    /// Fold one mouse-button event into the context.
    pub fn apply_mouse_button_event(&mut self, event: ButtonEvent)
        requires
            old(self).wf(),
        ensures
            final(self).wf(),
            final(self).button_view(event.button) == transition_state(event.transition),
            forall|j: u32|
                j != event.button ==> #[trigger] final(self).button_view(j) == old(
                    self,
                ).button_view(j),
            forall|k: u32| #[trigger] final(self).key_view(k) == old(self).key_view(k),
            final(self).window_size == old(self).window_size,
            final(self).mouse_position == old(self).mouse_position,
    {
        let _ = self.mouse_buttons.apply_transition(event.button, event.transition);
    }

    /// Record a cursor-position event.
    pub fn set_mouse_position(&mut self, pos: Vec2)
        ensures
            final(self).mouse_position == pos,
            final(self).window_size == old(self).window_size,
            final(self).keys == old(self).keys,
            final(self).mouse_buttons == old(self).mouse_buttons,
    {
        self.mouse_position = pos;
    }

    /// Record a resize event.
    pub fn set_window_size(&mut self, size: Vec2)
        ensures
            final(self).window_size == size,
            final(self).mouse_position == old(self).mouse_position,
            final(self).keys == old(self).keys,
            final(self).mouse_buttons == old(self).mouse_buttons,
    {
        self.window_size = size;
    }

    /// One whole ingestion cycle: clear the edge flags, then fold every event
    /// stream in arrival order. Returns the callbacks the embedding owes the
    /// application: each event echoed back, the keyboard ones with their
    /// repeat flags, and `invoke_close` iff a close was requested.
    pub fn ingest(&mut self, events: CycleEvents) -> (actions: CycleActions)
        requires
            old(self).wf(),
        ensures
            final(self).wf(),
            forall|k: u32|
                #[trigger] final(self).key_view(k) == state_after(
                    cleared(old(self).key_view(k)),
                    key_pairs(events.keyboard@),
                    k,
                ),
            forall|b: u32|
                #[trigger] final(self).button_view(b) == state_after(
                    cleared(old(self).button_view(b)),
                    button_pairs(events.mouse_buttons@),
                    b,
                ),
            final(self).window_size == (if events.resizes@.len() == 0 {
                old(self).window_size
            } else {
                events.resizes@.last()
            }),
            final(self).mouse_position == (if events.cursor_motion@.len() == 0 {
                old(self).mouse_position
            } else {
                events.cursor_motion@.last()
            }),
            actions.keyboard@.len() == events.keyboard@.len(),
            forall|i: int|
                0 <= i < events.keyboard@.len() ==> #[trigger] actions.keyboard@[i] == (KeyAction {
                    key: events.keyboard@[i].key,
                    scan_code: events.keyboard@[i].scan_code,
                    transition: events.keyboard@[i].transition,
                    repeat: events.keyboard@[i].transition is Pressed && state_after(
                        cleared(old(self).key_view(events.keyboard@[i].key)),
                        key_pairs(events.keyboard@).take(i),
                        events.keyboard@[i].key,
                    ).down,
                }),
            actions.mouse_buttons@ == events.mouse_buttons@,
            actions.mouse_motion@ == events.mouse_motion@,
            actions.cursor_motion@ == events.cursor_motion@,
            actions.resizes@ == events.resizes@,
            actions.invoke_close == events.close_requested,
    {
        self.begin_cycle();
        proof {
            assert(key_pairs(events.keyboard@).take(0) =~= Seq::<(u32, Transition)>::empty());
            assert(button_pairs(events.mouse_buttons@).take(0) =~= Seq::<(
                u32,
                Transition,
            )>::empty());
        }

        let kb_len = events.keyboard.len();
        let mut key_actions: Vec<KeyAction> = Vec::new();
        let mut i: usize = 0;
        while i < kb_len
            invariant
                i <= kb_len,
                kb_len == events.keyboard@.len(),
                self.wf(),
                forall|k: u32|
                    #[trigger] self.key_view(k) == state_after(
                        cleared(old(self).key_view(k)),
                        key_pairs(events.keyboard@).take(i as int),
                        k,
                    ),
                forall|b: u32| #[trigger] self.button_view(b) == cleared(old(self).button_view(b)),
                self.window_size == old(self).window_size,
                self.mouse_position == old(self).mouse_position,
                key_actions@.len() == i,
                forall|m: int|
                    0 <= m < i ==> #[trigger] key_actions@[m] == (KeyAction {
                        key: events.keyboard@[m].key,
                        scan_code: events.keyboard@[m].scan_code,
                        transition: events.keyboard@[m].transition,
                        repeat: events.keyboard@[m].transition is Pressed && state_after(
                            cleared(old(self).key_view(events.keyboard@[m].key)),
                            key_pairs(events.keyboard@).take(m),
                            events.keyboard@[m].key,
                        ).down,
                    }),
            decreases kb_len - i,
        {
            let e = events.keyboard[i];
            let repeat = self.apply_key_event(e);
            key_actions.push(
                KeyAction { key: e.key, scan_code: e.scan_code, transition: e.transition, repeat },
            );
            proof {
                let kp = key_pairs(events.keyboard@);
                assert(kp[i as int] == (e.key, e.transition));
                assert(kp.take(i as int + 1) =~= kp.take(i as int).push((e.key, e.transition)));
                assert forall|k: u32|
                    #[trigger] self.key_view(k) == state_after(
                        cleared(old(self).key_view(k)),
                        kp.take(i as int + 1),
                        k,
                    ) by {
                    lemma_state_after_push(
                        cleared(old(self).key_view(k)),
                        kp.take(i as int),
                        (e.key, e.transition),
                        k,
                    );
                }
            }
            i = i + 1;
        }
        proof {
            assert(key_pairs(events.keyboard@).take(kb_len as int) =~= key_pairs(
                events.keyboard@,
            ));
        }

        let mb_len = events.mouse_buttons.len();
        let mut i2: usize = 0;
        while i2 < mb_len
            invariant
                i2 <= mb_len,
                mb_len == events.mouse_buttons@.len(),
                self.wf(),
                forall|k: u32|
                    #[trigger] self.key_view(k) == state_after(
                        cleared(old(self).key_view(k)),
                        key_pairs(events.keyboard@),
                        k,
                    ),
                forall|b: u32|
                    #[trigger] self.button_view(b) == state_after(
                        cleared(old(self).button_view(b)),
                        button_pairs(events.mouse_buttons@).take(i2 as int),
                        b,
                    ),
                self.window_size == old(self).window_size,
                self.mouse_position == old(self).mouse_position,
            decreases mb_len - i2,
        {
            let e = events.mouse_buttons[i2];
            self.apply_mouse_button_event(e);
            proof {
                let bp = button_pairs(events.mouse_buttons@);
                assert(bp[i2 as int] == (e.button, e.transition));
                assert(bp.take(i2 as int + 1) =~= bp.take(i2 as int).push((e.button, e.transition)));
                assert forall|b: u32|
                    #[trigger] self.button_view(b) == state_after(
                        cleared(old(self).button_view(b)),
                        bp.take(i2 as int + 1),
                        b,
                    ) by {
                    lemma_state_after_push(
                        cleared(old(self).button_view(b)),
                        bp.take(i2 as int),
                        (e.button, e.transition),
                        b,
                    );
                }
            }
            i2 = i2 + 1;
        }
        proof {
            assert(button_pairs(events.mouse_buttons@).take(mb_len as int) =~= button_pairs(
                events.mouse_buttons@,
            ));
        }

        let cm_len = events.cursor_motion.len();
        let mut i3: usize = 0;
        while i3 < cm_len
            invariant
                i3 <= cm_len,
                cm_len == events.cursor_motion@.len(),
                self.wf(),
                forall|k: u32|
                    #[trigger] self.key_view(k) == state_after(
                        cleared(old(self).key_view(k)),
                        key_pairs(events.keyboard@),
                        k,
                    ),
                forall|b: u32|
                    #[trigger] self.button_view(b) == state_after(
                        cleared(old(self).button_view(b)),
                        button_pairs(events.mouse_buttons@),
                        b,
                    ),
                self.window_size == old(self).window_size,
                self.mouse_position == (if i3 == 0 {
                    old(self).mouse_position
                } else {
                    events.cursor_motion@[i3 as int - 1]
                }),
            decreases cm_len - i3,
        {
            let ghost prev = *self;
            let pos = events.cursor_motion[i3];
            self.set_mouse_position(pos);
            proof {
                assert forall|k: u32|
                    #[trigger] self.key_view(k) == state_after(
                        cleared(old(self).key_view(k)),
                        key_pairs(events.keyboard@),
                        k,
                    ) by {
                    assert(self.key_view(k) == prev.key_view(k));
                }
                assert forall|b: u32|
                    #[trigger] self.button_view(b) == state_after(
                        cleared(old(self).button_view(b)),
                        button_pairs(events.mouse_buttons@),
                        b,
                    ) by {
                    assert(self.button_view(b) == prev.button_view(b));
                }
            }
            i3 = i3 + 1;
        }

        let rs_len = events.resizes.len();
        let mut i4: usize = 0;
        while i4 < rs_len
            invariant
                i4 <= rs_len,
                rs_len == events.resizes@.len(),
                self.wf(),
                forall|k: u32|
                    #[trigger] self.key_view(k) == state_after(
                        cleared(old(self).key_view(k)),
                        key_pairs(events.keyboard@),
                        k,
                    ),
                forall|b: u32|
                    #[trigger] self.button_view(b) == state_after(
                        cleared(old(self).button_view(b)),
                        button_pairs(events.mouse_buttons@),
                        b,
                    ),
                self.mouse_position == (if events.cursor_motion@.len() == 0 {
                    old(self).mouse_position
                } else {
                    events.cursor_motion@.last()
                }),
                self.window_size == (if i4 == 0 {
                    old(self).window_size
                } else {
                    events.resizes@[i4 as int - 1]
                }),
            decreases rs_len - i4,
        {
            let ghost prev = *self;
            let size = events.resizes[i4];
            self.set_window_size(size);
            proof {
                assert forall|k: u32|
                    #[trigger] self.key_view(k) == state_after(
                        cleared(old(self).key_view(k)),
                        key_pairs(events.keyboard@),
                        k,
                    ) by {
                    assert(self.key_view(k) == prev.key_view(k));
                }
                assert forall|b: u32|
                    #[trigger] self.button_view(b) == state_after(
                        cleared(old(self).button_view(b)),
                        button_pairs(events.mouse_buttons@),
                        b,
                    ) by {
                    assert(self.button_view(b) == prev.button_view(b));
                }
            }
            i4 = i4 + 1;
        }

        CycleActions {
            keyboard: key_actions,
            mouse_buttons: events.mouse_buttons,
            mouse_motion: events.mouse_motion,
            cursor_motion: events.cursor_motion,
            resizes: events.resizes,
            invoke_close: events.close_requested,
        }
    }
}

/// Law: a cycle whose only event for key `k` is a press, starting with `k`
/// up, leaves `k` down and pressed but not released, and reports no repeat
/// (the repeat flag handed to the callback is the level flag just before the
/// event, here the second conclusion).
pub proof fn lemma_press_from_up(
    b0: ButtonState,
    events: Seq<(u32, Transition)>,
    k: u32,
    i: int,
)
    requires
        !b0.down,
        0 <= i < events.len(),
        events[i] == (k, Transition::Pressed),
        forall|m: int| 0 <= m < events.len() && m != i ==> (#[trigger] events[m]).0 != k,
    ensures
        state_after(cleared(b0), events, k) == (ButtonState {
            down: true,
            pressed: true,
            released: false,
        }),
        !state_after(cleared(b0), events.take(i), k).down,
{
    lemma_state_after_last_event(cleared(b0), events, k, i);
    lemma_state_after_untouched(cleared(b0), events.take(i), k);
}

/// Law: a cycle whose only event for key `k` is a press, starting with `k`
/// already down, reports a repeat to the callback (second conclusion) and
/// leaves `k` down.
pub proof fn lemma_press_while_down(
    b0: ButtonState,
    events: Seq<(u32, Transition)>,
    k: u32,
    i: int,
)
    requires
        b0.down,
        0 <= i < events.len(),
        events[i] == (k, Transition::Pressed),
        forall|m: int| 0 <= m < events.len() && m != i ==> (#[trigger] events[m]).0 != k,
    ensures
        state_after(cleared(b0), events, k).down,
        state_after(cleared(b0), events.take(i), k).down,
{
    lemma_state_after_last_event(cleared(b0), events, k, i);
    lemma_state_after_untouched(cleared(b0), events.take(i), k);
}

/// Law: edge flags are cycle-local. After a cycle whose last event for `k`
/// is a press, `k` reads as pressed; one further cycle with no event for `k`
/// clears `pressed` while `down` persists.
pub proof fn lemma_edge_flags_cycle_local(
    b0: ButtonState,
    cycle1: Seq<(u32, Transition)>,
    cycle2: Seq<(u32, Transition)>,
    k: u32,
    i: int,
)
    requires
        0 <= i < cycle1.len(),
        cycle1[i] == (k, Transition::Pressed),
        forall|m: int| i < m < cycle1.len() ==> (#[trigger] cycle1[m]).0 != k,
        forall|m: int| 0 <= m < cycle2.len() ==> (#[trigger] cycle2[m]).0 != k,
    ensures
        state_after(cleared(b0), cycle1, k).pressed,
        ({
            let s1 = state_after(cleared(b0), cycle1, k);
            let s2 = state_after(cleared(s1), cycle2, k);
            !s2.pressed && s2.down
        }),
{
    lemma_state_after_last_event(cleared(b0), cycle1, k, i);
    let s1 = state_after(cleared(b0), cycle1, k);
    lemma_state_after_untouched(cleared(s1), cycle2, k);
}

/// Law: a cycle whose last event for `k` is a release always leaves `k` up
/// and released, with `pressed` cleared, whatever came before.
pub proof fn lemma_release(b0: ButtonState, events: Seq<(u32, Transition)>, k: u32, i: int)
    requires
        0 <= i < events.len(),
        events[i] == (k, Transition::Released),
        forall|m: int| i < m < events.len() ==> (#[trigger] events[m]).0 != k,
    ensures
        state_after(cleared(b0), events, k) == (ButtonState {
            down: false,
            pressed: false,
            released: true,
        }),
{
    lemma_state_after_last_event(cleared(b0), events, k, i);
}

/// Law: a key or button no cycle ever references keeps the all-false default
/// state, so queries on it return false without creating anything visible.
pub proof fn lemma_unreferenced_stays_default(events: Seq<(u32, Transition)>, k: u32)
    requires
        forall|m: int| 0 <= m < events.len() ==> (#[trigger] events[m]).0 != k,
    ensures
        state_after(cleared(default_state()), events, k) == default_state(),
{
    lemma_state_after_untouched(cleared(default_state()), events, k);
}

} // verus!
