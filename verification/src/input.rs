use vstd::prelude::*;

verus! {

/// A key of the host keyboard, as far as the keypad mapping tells keys
/// apart.
#[derive(Clone, Copy, Debug, PartialEq, Eq, Structural)]
pub enum HostKey {
    Num1,
    Num2,
    Num3,
    Num4,
    Q,
    W,
    E,
    R,
    A,
    S,
    D,
    F,
    Z,
    X,
    C,
    V,
    /// Any other key.
    Other,
}

/// An input event of the host window.
#[derive(Clone, Copy, Debug, PartialEq, Eq, Structural)]
pub enum InputEvent {
    /// The window was closed.
    Quit,
    /// A key went down.
    KeyDown(HostKey),
    /// A key went up.
    KeyUp(HostKey),
    /// Anything else.
    Other,
}

/// The CHIP-8 key that a host key stands for, laid out as
/// ```text
/// 1 2 3 4      1 2 3 C
/// Q W E R  ->  4 5 6 D
/// A S D F      7 8 9 E
/// Z X C V      A 0 B F
/// ```
pub open spec fn keymap(key: HostKey) -> Option<usize> {
    match key {
        HostKey::Num1 => Some(0x1),
        HostKey::Num2 => Some(0x2),
        HostKey::Num3 => Some(0x3),
        HostKey::Num4 => Some(0xC),
        HostKey::Q => Some(0x4),
        HostKey::W => Some(0x5),
        HostKey::E => Some(0x6),
        HostKey::R => Some(0xD),
        HostKey::A => Some(0x7),
        HostKey::S => Some(0x8),
        HostKey::D => Some(0x9),
        HostKey::F => Some(0xE),
        HostKey::Z => Some(0xA),
        HostKey::X => Some(0x0),
        HostKey::C => Some(0xB),
        HostKey::V => Some(0xF),
        HostKey::Other => None,
    }
}

/// The keypad after one event.
pub open spec fn apply_event(keys: Seq<bool>, e: InputEvent) -> Seq<bool> {
    match e {
        InputEvent::KeyDown(h) => match keymap(h) {
            Some(k) => keys.update(k as int, true),
            None => keys,
        },
        InputEvent::KeyUp(h) => match keymap(h) {
            Some(k) => keys.update(k as int, false),
            None => keys,
        },
        _ => keys,
    }
}

/// The keypad after a run of events, taken in order.
pub open spec fn keys_after(keys: Seq<bool>, events: Seq<InputEvent>) -> Seq<bool>
    decreases events.len(),
{
    if events.len() == 0 {
        keys
    } else {
        apply_event(keys_after(keys, events.drop_last()), events.last())
    }
}

/// How many of the events press a key that stands for no CHIP-8 key.
pub open spec fn unmapped_presses(events: Seq<InputEvent>) -> nat
    decreases events.len(),
{
    if events.len() == 0 {
        0
    } else {
        unmapped_presses(events.drop_last()) + (match events.last() {
            InputEvent::KeyDown(h) => if keymap(h) is None {
                1nat
            } else {
                0nat
            },
            _ => 0nat,
        })
    }
}

/// Whether one of the events closes the window.
pub open spec fn has_quit(events: Seq<InputEvent>) -> bool {
    exists|j: int| 0 <= j < events.len() && events[j] == InputEvent::Quit
}

/// The host key that stands for CHIP-8 key `k`.
pub open spec fn host_key_for(k: usize) -> HostKey {
    if k == 0x0 {
        HostKey::X
    } else if k == 0x1 {
        HostKey::Num1
    } else if k == 0x2 {
        HostKey::Num2
    } else if k == 0x3 {
        HostKey::Num3
    } else if k == 0x4 {
        HostKey::Q
    } else if k == 0x5 {
        HostKey::W
    } else if k == 0x6 {
        HostKey::E
    } else if k == 0x7 {
        HostKey::A
    } else if k == 0x8 {
        HostKey::S
    } else if k == 0x9 {
        HostKey::D
    } else if k == 0xA {
        HostKey::Z
    } else if k == 0xB {
        HostKey::C
    } else if k == 0xC {
        HostKey::Num4
    } else if k == 0xD {
        HostKey::R
    } else if k == 0xE {
        HostKey::F
    } else if k == 0xF {
        HostKey::V
    } else {
        HostKey::Other
    }
}

/// The mapping is one to one between the sixteen mapped host keys and the
/// sixteen CHIP-8 keys: every mapped host key yields a key below 16 and is
/// the one host key for it, every CHIP-8 key has its host key, and every
/// other host key stands for none.
pub proof fn lemma_keymap_bijective()
    ensures
        forall|a: HostKey|
            #[trigger] keymap(a) is Some ==> keymap(a)->0 < 16 && host_key_for(keymap(a)->0) == a,
        forall|k: usize| k < 16 ==> keymap(#[trigger] host_key_for(k)) == Some(k),
        forall|a: HostKey| (#[trigger] keymap(a) is None) == (a == HostKey::Other),
{
}


/// One event on the keypad: a mapped key going up releases its CHIP-8 key
/// and a mapped key going down presses it, whatever that key held before;
/// no other CHIP-8 key changes, and every other event leaves the keypad as
/// it was.
pub proof fn lemma_event_sets_key(keys: Seq<bool>, e: InputEvent)
    requires
        keys.len() == 16,
    ensures
        apply_event(keys, e).len() == 16,
        forall|h: HostKey|
            e == InputEvent::KeyUp(h) && #[trigger] keymap(h) is Some ==> {
                let k = keymap(h)->0 as int;
                &&& apply_event(keys, e)[k] == false
                &&& forall|j: int|
                    0 <= j < 16 && j != k ==> #[trigger] apply_event(keys, e)[j] == keys[j]
            },
        forall|h: HostKey|
            e == InputEvent::KeyDown(h) && #[trigger] keymap(h) is Some ==> {
                let k = keymap(h)->0 as int;
                &&& apply_event(keys, e)[k] == true
                &&& forall|j: int|
                    0 <= j < 16 && j != k ==> #[trigger] apply_event(keys, e)[j] == keys[j]
            },
        (forall|h: HostKey|
            e != InputEvent::KeyUp(h) && e != InputEvent::KeyDown(h) || #[trigger] keymap(h) is None)
            ==> apply_event(keys, e) == keys,
{
}

/// After a batch of events, a mapped host key's CHIP-8 key is down exactly
/// when the last event of the batch about that host key pressed it: a last
/// `KeyUp` leaves it released, a last `KeyDown` leaves it pressed, whatever
/// came before and whatever the other keys did.
pub proof fn lemma_last_event_decides_key(keys: Seq<bool>, events: Seq<InputEvent>, h: HostKey, j: int)
    requires
        keys.len() == 16,
        keymap(h) is Some,
        0 <= j < events.len(),
        events[j] == InputEvent::KeyUp(h) || events[j] == InputEvent::KeyDown(h),
        forall|i: int|
            j < i < events.len() ==> #[trigger] events[i] != InputEvent::KeyUp(h) && events[i]
                != InputEvent::KeyDown(h),
    ensures
        keys_after(keys, events)[keymap(h)->0 as int] == (events[j] == InputEvent::KeyDown(h)),
    decreases events.len(),
{
    lemma_keymap_bijective();
    let k = keymap(h)->0 as int;
    let prev = keys_after(keys, events.drop_last());
    lemma_keys_after_len(keys, events.drop_last());
    let last = events.last();
    if j == events.len() - 1 {
    } else {
        assert(events.drop_last()[j] == events[j]);
        assert forall|i: int| j < i < events.drop_last().len() implies #[trigger] events.drop_last()[i]
            != InputEvent::KeyUp(h) && events.drop_last()[i] != InputEvent::KeyDown(h) by {
            assert(events.drop_last()[i] == events[i]);
        }
        lemma_last_event_decides_key(keys, events.drop_last(), h, j);
        assert(events[events.len() - 1] == last);
        match last {
            InputEvent::KeyUp(h2) => {
                if keymap(h2) is Some {
                    assert(h2 != h);
                    assert(keymap(h2)->0 != k);
                }
            },
            InputEvent::KeyDown(h2) => {
                if keymap(h2) is Some {
                    assert(h2 != h);
                    assert(keymap(h2)->0 != k);
                }
            },
            _ => {},
        }
    }
}

/// The keypad keeps its sixteen keys through any batch of events.
pub proof fn lemma_keys_after_len(keys: Seq<bool>, events: Seq<InputEvent>)
    requires
        keys.len() == 16,
    ensures
        keys_after(keys, events).len() == 16,
    decreases events.len(),
{
    if events.len() > 0 {
        lemma_keys_after_len(keys, events.drop_last());
    }
}


/// The host keyboard's left-hand 4 x 4 block, read row by row (`1 2 3 4`,
/// `Q W E R`, `A S D F`, `Z X C V`), lands on the CHIP-8 keypad read row by
/// row (`1 2 3 C`, `4 5 6 D`, `7 8 9 E`, `A 0 B F`).
pub proof fn lemma_keypad_layout()
    ensures
        ({
            let host = seq![
                HostKey::Num1, HostKey::Num2, HostKey::Num3, HostKey::Num4,
                HostKey::Q, HostKey::W, HostKey::E, HostKey::R,
                HostKey::A, HostKey::S, HostKey::D, HostKey::F,
                HostKey::Z, HostKey::X, HostKey::C, HostKey::V,
            ];
            let pad = seq![
                0x1usize, 0x2, 0x3, 0xC,
                0x4, 0x5, 0x6, 0xD,
                0x7, 0x8, 0x9, 0xE,
                0xA, 0x0, 0xB, 0xF,
            ];
            forall|j: int| 0 <= j < 16 ==> keymap(#[trigger] host[j]) == Some(pad[j])
        }),
{
    let host = seq![
        HostKey::Num1, HostKey::Num2, HostKey::Num3, HostKey::Num4,
        HostKey::Q, HostKey::W, HostKey::E, HostKey::R,
        HostKey::A, HostKey::S, HostKey::D, HostKey::F,
        HostKey::Z, HostKey::X, HostKey::C, HostKey::V,
    ];
    let pad = seq![
        0x1usize, 0x2, 0x3, 0xC,
        0x4, 0x5, 0x6, 0xD,
        0x7, 0x8, 0x9, 0xE,
        0xA, 0x0, 0xB, 0xF,
    ];
    assert forall|j: int| 0 <= j < 16 implies keymap(#[trigger] host[j]) == Some(pad[j]) by {
        assert(host[j] == host[j]);
    }
}

/// One more event adds one to the count of unmapped presses exactly when it
/// is a press of a key outside the mapping, and makes the batch a quitting
/// one exactly when it quits or the batch already did.
pub proof fn lemma_one_more_event(events: Seq<InputEvent>, e: InputEvent)
    ensures
        unmapped_presses(events.push(e)) == unmapped_presses(events) + (if e == InputEvent::KeyDown(
            HostKey::Other,
        ) {
            1nat
        } else {
            0nat
        }),
        has_quit(events.push(e)) == (has_quit(events) || e == InputEvent::Quit),
{
    assert(events.push(e).drop_last() =~= events);
    let pe = events.push(e);
    if has_quit(events) {
        let j = choose|j: int| 0 <= j < events.len() && events[j] == InputEvent::Quit;
        assert(pe[j] == events[j]);
    }
    if e == InputEvent::Quit {
        assert(pe[events.len() as int] == e);
    }
    if has_quit(pe) {
        let j = choose|j: int| 0 <= j < pe.len() && pe[j] == InputEvent::Quit;
        if j < events.len() {
            assert(pe[j] == events[j]);
        }
    }
}

} // verus!
