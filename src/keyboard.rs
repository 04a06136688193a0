//! Buttons of the front panel: their flags, the key events they produce, and
//! the press / release / auto-repeat decisions of one button, fed with the
//! level of its pin and the time.
use vstd::prelude::*;

use crate::gui::UiEvent;

verus! {

/// A set of buttons, one bit each.
#[derive(Debug, Clone, Copy, PartialEq, Eq, Structural)]
pub struct ButtonFlags {
    pub bits: u8,
}

/// No button.
pub const FLAG_NONE: u8 = 0b0000_0000;

/// The configuration button.
pub const FLAG_CONFIG: u8 = 0b0000_0001;

/// The enter button.
pub const FLAG_ENTER: u8 = 0b0000_0010;

/// The down button.
pub const FLAG_DOWN: u8 = 0b0000_0100;

/// The up button.
pub const FLAG_UP: u8 = 0b0000_1000;

/// Up and down together.
pub const FLAG_EXIT: u8 = 0b0000_1100;

/// Configuration, enter and down together.
pub const FLAG_MANUFACTURE: u8 = 0b0000_0111;

impl ButtonFlags {
    /// The set whose bits are `bits`.
    pub fn from_bits(bits: u8) -> (r: ButtonFlags)
        ensures
            r.bits == bits,
    {
        ButtonFlags { bits }
    }

    /// The event that a press of exactly these buttons means to the user
    /// interface: enter is Enter, up moves right, down moves left; any
    /// other combination means nothing.
    pub open spec fn spec_ui_event(button: ButtonFlags) -> Option<UiEvent> {
        if button.bits == FLAG_ENTER {
            Some(UiEvent::Enter)
        } else if button.bits == FLAG_UP {
            Some(UiEvent::Right)
        } else if button.bits == FLAG_DOWN {
            Some(UiEvent::Left)
        } else {
            None
        }
    }

    /// The user-interface event of a press of `button`.
    pub fn to_ui_event(button: ButtonFlags) -> (r: Option<UiEvent>)
        ensures
            r == ButtonFlags::spec_ui_event(button),
    {
        if button.bits == FLAG_ENTER {
            Some(UiEvent::Enter)
        } else if button.bits == FLAG_UP {
            Some(UiEvent::Right)
        } else if button.bits == FLAG_DOWN {
            Some(UiEvent::Left)
        } else {
            None
        }
    }
}

/// A button going down (or repeating while held) or coming up.
#[derive(Debug, Clone, Copy, PartialEq, Eq, Structural)]
pub enum ButtonEvent {
    Pressed(ButtonFlags),
    Released(ButtonFlags),
}

/// Time in ticks from a press to its first repetition.
pub const REPEAT_DELAY: u64 = 1000;

/// Time in ticks between repetitions while a button is held.
pub const REPEAT_INTERVAL: u64 = 150;

/// `now + d`, or the largest tick where that would overflow.
pub open spec fn later(now: u64, d: u64) -> u64 {
    if now > u64::MAX - d {
        u64::MAX
    } else {
        (now + d) as u64
    }
}

/// What a button that is `held` (repeating at tick `next`) reports when
/// polled at tick `now` with its pin `low` or not.
pub open spec fn poll_event(held: bool, next: u64, flag: ButtonFlags, low: bool, now: u64) -> Option<
    ButtonEvent,
> {
    if low && !held {
        Some(ButtonEvent::Pressed(flag))
    } else if !low && held {
        Some(ButtonEvent::Released(flag))
    } else if held && now >= next {
        Some(ButtonEvent::Pressed(flag))
    } else {
        None
    }
}

/// The buttons held after `event`, starting from `pressed` (nothing known
/// counts as none held): a press adds its buttons, a release toggles its
/// buttons off.
pub open spec fn combine(pressed: Option<ButtonFlags>, event: ButtonEvent) -> ButtonFlags {
    let base: u8 = match pressed {
        Some(b) => b.bits,
        None => 0,
    };
    match event {
        ButtonEvent::Pressed(p) => ButtonFlags { bits: base | p.bits },
        ButtonEvent::Released(r) => ButtonFlags { bits: base ^ r.bits },
    }
}

/// One button on input pin `IN`.
pub struct Button<IN> {
    button: IN,
    flag: ButtonFlags,
    state: bool,
    active: u64,
}

impl<IN> Button<IN> {
    /// The flag the button reports.
    pub closed spec fn spec_flag(&self) -> ButtonFlags {
        self.flag
    }

    /// Whether the button is held.
    pub closed spec fn spec_held(&self) -> bool {
        self.state
    }

    /// The tick at which a held button repeats.
    pub closed spec fn spec_next_repeat(&self) -> u64 {
        self.active
    }

    /// A released button on `button` that reports `flag`.
    pub fn new(button: IN, flag: ButtonFlags) -> (r: Self)
        ensures
            r.spec_flag() == flag,
            !r.spec_held(),
            r.spec_next_repeat() == 0,
    {
        Button { button, flag, state: false, active: 0 }
    }

    /// The input pin, for reading its level.
    pub fn pin_mut(&mut self) -> &mut IN {
        &mut self.button
    }

    /// Decides what the button reports at tick `now`, its pin being low
    /// (pressed) or not: going low reports a press and arms the first
    /// repetition; going high reports a release; held until the armed tick
    /// reports a press again and arms the next one; otherwise nothing.
    pub fn poll(&mut self, low: bool, now: u64) -> (r: Option<ButtonEvent>)
        ensures
            final(self).spec_flag() == old(self).spec_flag(),
            r == poll_event(
                old(self).spec_held(),
                old(self).spec_next_repeat(),
                old(self).spec_flag(),
                low,
                now,
            ),
            low && !old(self).spec_held() ==> r == Some(ButtonEvent::Pressed(old(self).spec_flag()))
                && final(self).spec_held() && final(self).spec_next_repeat() == later(
                now,
                REPEAT_DELAY,
            ),
            !low && old(self).spec_held() ==> r == Some(ButtonEvent::Released(old(self).spec_flag()))
                && !final(self).spec_held() && final(self).spec_next_repeat() == old(
                self).spec_next_repeat(),
            low == old(self).spec_held() && old(self).spec_held() && now >= old(
                self,
            ).spec_next_repeat() ==> r == Some(ButtonEvent::Pressed(old(self).spec_flag()))
                && final(self).spec_held() && final(self).spec_next_repeat() == later(
                now,
                REPEAT_INTERVAL,
            ),
            low == old(self).spec_held() && !(old(self).spec_held() && now >= old(
                self,
            ).spec_next_repeat()) ==> r is None && final(self).spec_held() == old(self).spec_held()
                && final(self).spec_next_repeat() == old(self).spec_next_repeat(),
    {
        if low && !self.state {
            self.state = true;
            self.active = if now > u64::MAX - REPEAT_DELAY {
                u64::MAX
            } else {
                now + REPEAT_DELAY
            };
            return Some(ButtonEvent::Pressed(self.flag));
        } else if !low && self.state {
            self.state = false;
            return Some(ButtonEvent::Released(self.flag));
        }
        if self.state && now >= self.active {
            self.active = if now > u64::MAX - REPEAT_INTERVAL {
                u64::MAX
            } else {
                now + REPEAT_INTERVAL
            };
            return Some(ButtonEvent::Pressed(self.flag));
        }
        None
    }
}

/// The four buttons of the panel and the set of buttons held.
pub struct Keyboard<SET, ENTER, DOWN, UP> {
    button_set: Button<SET>,
    button_enter: Button<ENTER>,
    button_down: Button<DOWN>,
    button_up: Button<UP>,
    pressed: Option<ButtonFlags>,
}

/// The event of the last of four polls that reported one.
pub open spec fn last_event(
    a: Option<ButtonEvent>,
    b: Option<ButtonEvent>,
    c: Option<ButtonEvent>,
    d: Option<ButtonEvent>,
) -> Option<ButtonEvent> {
    if d is Some {
        d
    } else if c is Some {
        c
    } else if b is Some {
        b
    } else {
        a
    }
}

impl<SET, ENTER, DOWN, UP> Keyboard<SET, ENTER, DOWN, UP> {
    /// The buttons known to be held.
    pub closed spec fn spec_pressed(&self) -> Option<ButtonFlags> {
        self.pressed
    }

    /// The configuration button.
    pub closed spec fn set_button(&self) -> Button<SET> {
        self.button_set
    }

    /// The enter button.
    pub closed spec fn enter_button(&self) -> Button<ENTER> {
        self.button_enter
    }

    /// The down button.
    pub closed spec fn down_button(&self) -> Button<DOWN> {
        self.button_down
    }

    /// The up button.
    pub closed spec fn up_button(&self) -> Button<UP> {
        self.button_up
    }

    /// A keyboard on four pins, nothing held.
    pub fn new(button_set: SET, button_enter: ENTER, button_down: DOWN, button_up: UP) -> (r: Self)
        ensures
            r.spec_pressed() is None,
            r.set_button().spec_flag().bits == FLAG_CONFIG,
            r.enter_button().spec_flag().bits == FLAG_ENTER,
            r.down_button().spec_flag().bits == FLAG_DOWN,
            r.up_button().spec_flag().bits == FLAG_UP,
            !r.set_button().spec_held() && !r.enter_button().spec_held()
                && !r.down_button().spec_held() && !r.up_button().spec_held(),
    {
        Keyboard {
            button_set: Button::new(button_set, ButtonFlags::from_bits(FLAG_CONFIG)),
            button_enter: Button::new(button_enter, ButtonFlags::from_bits(FLAG_ENTER)),
            button_down: Button::new(button_down, ButtonFlags::from_bits(FLAG_DOWN)),
            button_up: Button::new(button_up, ButtonFlags::from_bits(FLAG_UP)),
            pressed: None,
        }
    }

    /// Polls the four buttons at tick `now` with the levels of their pins
    /// (configuration, enter, down, up; low is pressed). Of the events
    /// reported, the last in the order configuration, enter, up, down
    /// updates the set of held buttons, and a non-empty set is reported as
    /// pressed.
    pub fn read_keys(&mut self, set_low: bool, enter_low: bool, down_low: bool, up_low: bool, now: u64) -> (r:
        Option<ButtonEvent>)
        ensures
            ({
                let e = last_event(
                    poll_event(
                        old(self).set_button().spec_held(),
                        old(self).set_button().spec_next_repeat(),
                        old(self).set_button().spec_flag(),
                        set_low,
                        now,
                    ),
                    poll_event(
                        old(self).enter_button().spec_held(),
                        old(self).enter_button().spec_next_repeat(),
                        old(self).enter_button().spec_flag(),
                        enter_low,
                        now,
                    ),
                    poll_event(
                        old(self).up_button().spec_held(),
                        old(self).up_button().spec_next_repeat(),
                        old(self).up_button().spec_flag(),
                        up_low,
                        now,
                    ),
                    poll_event(
                        old(self).down_button().spec_held(),
                        old(self).down_button().spec_next_repeat(),
                        old(self).down_button().spec_flag(),
                        down_low,
                        now,
                    ),
                );
                match e {
                    Some(ev) => {
                        let pres = combine(old(self).spec_pressed(), ev);
                        &&& final(self).spec_pressed() == Some(pres)
                        &&& r == if pres.bits != FLAG_NONE {
                            Some(ButtonEvent::Pressed(pres))
                        } else {
                            None
                        }
                    },
                    None => final(self).spec_pressed() == old(self).spec_pressed() && r is None,
                }
            }),
    {
        let mut event = self.button_set.poll(set_low, now);
        if let Some(btn) = self.button_enter.poll(enter_low, now) {
            event = Some(btn);
        }
        if let Some(btn) = self.button_up.poll(up_low, now) {
            event = Some(btn);
        }
        if let Some(btn) = self.button_down.poll(down_low, now) {
            event = Some(btn);
        }
        if let Some(btn) = event {
            let mut pressed: u8 = FLAG_NONE;
            let mut released: u8 = FLAG_NONE;
            match btn {
                ButtonEvent::Pressed(p) => pressed = p.bits,
                ButtonEvent::Released(r) => released = r.bits,
            }
            let base: u8 = match self.pressed {
                Some(b) => b.bits,
                None => FLAG_NONE,
            };
            let pres = ButtonFlags { bits: (base | pressed) ^ released };
            proof {
                assert((base | 0u8) ^ 0u8 == base) by (bit_vector);
                assert((base | pressed) ^ 0u8 == base | pressed) by (bit_vector);
                assert((base | 0u8) ^ released == base ^ released) by (bit_vector);
            }
            self.pressed = Some(pres);
            if pres.bits != FLAG_NONE {
                return Some(ButtonEvent::Pressed(pres));
            }
        }
        None
    }

    /// Polls the buttons as `read_keys` does and turns a reported press into
    /// a user-interface event; releases mean nothing.
    pub fn read_ui_keys(&mut self, set_low: bool, enter_low: bool, down_low: bool, up_low: bool, now: u64) -> (r:
        Option<UiEvent>)
    {
        match self.read_keys(set_low, enter_low, down_low, up_low, now) {
            Some(ButtonEvent::Pressed(press)) => ButtonFlags::to_ui_event(press),
            _ => None,
        }
    }
}

} // verus!
