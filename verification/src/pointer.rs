//! Turning pointer button events of the compositor into picking input.
use vstd::prelude::*;
use crate::seq_facts::{lemma_push_fresh, lemma_take_next};

verus! {

/// A mouse button as the compositor reports it.
#[derive(Clone, Copy, Debug, PartialEq, Eq, Structural)]
pub enum MouseButton {
    Left,
    Right,
    Middle,
    Back,
    Forward,
    Other(u16),
}

/// The buttons that picking knows.
#[derive(Clone, Copy, Debug, PartialEq, Eq, Structural)]
pub enum PointerButton {
    Primary,
    Secondary,
    Middle,
}

/// A button pressed or released; `button` is `None` for a code that maps to
/// no mouse button.
#[derive(Clone, Copy, Debug, PartialEq, Eq, Structural)]
pub struct ButtonChange {
    pub button: Option<MouseButton>,
    pub pressed: bool,
}

/// The picking input a button change produces.
#[derive(Clone, Copy, Debug, PartialEq, Eq, Structural)]
pub enum ButtonAction {
    Press(PointerButton),
    Release(PointerButton),
}

/// The picking button of a mouse button, if picking knows it.
pub open spec fn spec_picking_button(b: MouseButton) -> Option<PointerButton> {
    match b {
        MouseButton::Left => Some(PointerButton::Primary),
        MouseButton::Right => Some(PointerButton::Secondary),
        MouseButton::Middle => Some(PointerButton::Middle),
        _ => None,
    }
}

/// Law: picking knows the left button as its primary, the right button as
/// its secondary and the middle button as its middle button, and no other.
pub proof fn lemma_picking_buttons(b: MouseButton)
    ensures
        spec_picking_button(b) == Some(PointerButton::Primary) <==> b == MouseButton::Left,
        spec_picking_button(b) == Some(PointerButton::Secondary) <==> b == MouseButton::Right,
        spec_picking_button(b) == Some(PointerButton::Middle) <==> b == MouseButton::Middle,
        spec_picking_button(b) is None <==> (b != MouseButton::Left && b != MouseButton::Right && b
            != MouseButton::Middle),
{
}

/// The picking button of a mouse button, if picking knows it.
pub fn picking_button(b: MouseButton) -> (res: Option<PointerButton>)
    ensures
        res == spec_picking_button(b),
{
    match b {
        MouseButton::Left => Some(PointerButton::Primary),
        MouseButton::Right => Some(PointerButton::Secondary),
        MouseButton::Middle => Some(PointerButton::Middle),
        _ => None,
    }
}

/// The mouse buttons held down, each listed once.
#[derive(Debug)]
pub struct HeldButtons {
    buttons: Vec<MouseButton>,
}

impl HeldButtons {
    #[verifier::type_invariant]
    spec fn listed_once(self) -> bool {
        self.buttons@.no_duplicates()
    }

    /// No button held.
    pub fn new() -> (res: Self)
        ensures
            res@ == Set::<MouseButton>::empty(),
    {
        let res = HeldButtons { buttons: Vec::new() };
        proof {
            assert(res.buttons@.to_set() =~= Set::<MouseButton>::empty());
        }
        res
    }

    /// The buttons of `buttons`, a button listed twice held once.
    pub fn from_buttons(buttons: Vec<MouseButton>) -> (res: Self)
        ensures
            res@ == buttons@.to_set(),
    {
        let mut held: Vec<MouseButton> = Vec::new();
        let mut i: usize = 0;
        while i < buttons.len()
            invariant
                i <= buttons@.len(),
                held@.no_duplicates(),
                forall|x: MouseButton| #[trigger] held@.contains(x) <==> buttons@.take(i as int).contains(x),
            decreases buttons@.len() - i,
        {
            proof {
                lemma_take_next(buttons@, i as int);
            }
            let b = buttons[i];
            if !contains_button(&held, b) {
                proof {
                    lemma_push_fresh(held@, b);
                }
                held.push(b);
            }
            i += 1;
        }
        proof {
            assert(buttons@.take(buttons@.len() as int) =~= buttons@);
            assert(held@.to_set() =~= buttons@.to_set());
        }
        HeldButtons { buttons: held }
    }

    /// Whether `b` is held.
    pub fn contains(&self, b: MouseButton) -> (res: bool)
        ensures
            res == self@.contains(b),
    {
        contains_button(&self.buttons, b)
    }

    /// The held buttons, each once.
    pub fn buttons(&self) -> (res: Vec<MouseButton>)
        ensures
            res@.no_duplicates(),
            res@.to_set() == self@,
    {
        proof {
            use_type_invariant(self);
        }
        self.buttons.clone()
    }
}

impl View for HeldButtons {
    type V = Set<MouseButton>;

    closed spec fn view(&self) -> Set<MouseButton> {
        self.buttons@.to_set()
    }
}

/// Whether `v` lists `b`.
fn contains_button(v: &Vec<MouseButton>, b: MouseButton) -> (res: bool)
    ensures
        res == v@.contains(b),
{
    let mut i: usize = 0;
    while i < v.len()
        invariant
            i <= v@.len(),
            forall|j: int| 0 <= j < i ==> v@[j] != b,
        decreases v@.len() - i,
    {
        if v[i] == b {
            proof {
                assert(v@[i as int] == b);
            }
            return true;
        }
        i += 1;
    }
    false
}

/// What a pointer event's button change does.
#[derive(Debug)]
pub struct ButtonOutcome {
    /// The buttons held after the event.
    pub pressed: HeldButtons,
    /// The picking input to send.
    pub action: Option<ButtonAction>,
    /// Whether the event's pointer sample is kept as the latest one; a press
    /// or release of a button picking does not know drops the sample.
    pub commit: bool,
}

/// Applies a button change to the held buttons: a press adds the button, a
/// release removes it, and either sends the matching picking input when
/// picking knows the button.
pub fn apply_button_change(pressed: &HeldButtons, change: Option<ButtonChange>) -> (out: ButtonOutcome)
    ensures
        match change {
            Some(ButtonChange { button: Some(b), pressed: down }) => {
                &&& out.pressed@ == (if down {
                    pressed@.insert(b)
                } else {
                    pressed@.remove(b)
                })
                &&& out.commit == (spec_picking_button(b) is Some)
                &&& out.action == (match spec_picking_button(b) {
                    Some(pb) => Some(if down { ButtonAction::Press(pb) } else { ButtonAction::Release(pb) }),
                    None => None,
                })
            },
            _ => out.pressed@ == pressed@ && out.action is None && out.commit,
        },
{
    proof {
        use_type_invariant(pressed);
    }
    let (b, down) = match change {
        Some(ButtonChange { button: Some(b), pressed: down }) => (b, down),
        _ => {
            let same = HeldButtons { buttons: pressed.buttons.clone() };
            return ButtonOutcome { pressed: same, action: None, commit: true };
        },
    };
    let held = &pressed.buttons;
    let mut out: Vec<MouseButton> = Vec::new();
    let mut i: usize = 0;
    while i < held.len()
        invariant
            i <= held@.len(),
            held@.no_duplicates(),
            out@.no_duplicates(),
            forall|x: MouseButton| #[trigger] out@.contains(x) <==> (held@.take(i as int).contains(x) && x != b),
        decreases held@.len() - i,
    {
        proof {
            lemma_take_next(held@, i as int);
        }
        let x = held[i];
        if x != b {
            proof {
                lemma_push_fresh(out@, x);
            }
            out.push(x);
        }
        i += 1;
    }
    proof {
        assert(held@.take(held@.len() as int) =~= held@);
    }
    if down {
        proof {
            lemma_push_fresh(out@, b);
        }
        out.push(b);
        proof {
            assert(out@.to_set() =~= pressed@.insert(b));
        }
    } else {
        proof {
            assert(out@.to_set() =~= pressed@.remove(b));
        }
    }
    let action = match picking_button(b) {
        Some(pb) => Some(if down { ButtonAction::Press(pb) } else { ButtonAction::Release(pb) }),
        None => None,
    };
    let commit = action.is_some();
    ButtonOutcome { pressed: HeldButtons { buttons: out }, action, commit }
}

} // verus!
