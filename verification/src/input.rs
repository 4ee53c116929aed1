//! Keyboard state: what the window events say is held down, and, once per
//! frame, which keys went down or came up since the previous frame.

use vstd::prelude::*;

verus! {

/// The keys the game reads.
#[derive(Clone, Copy, PartialEq, Eq, Structural, Debug)]
pub enum GameKey {
    W,
    A,
    S,
    D,
    Shift,
    Space,
    Esc,
    Tab,
    Ctrl,
}

/// Number of keys the game reads.
pub const KEY_COUNT: usize = 9;

/// Slot of a key in the per-key arrays.
pub open spec fn key_index(k: GameKey) -> int {
    match k {
        GameKey::W => 0,
        GameKey::A => 1,
        GameKey::S => 2,
        GameKey::D => 3,
        GameKey::Shift => 4,
        GameKey::Space => 5,
        GameKey::Esc => 6,
        GameKey::Tab => 7,
        GameKey::Ctrl => 8,
    }
}

pub fn key_slot(k: GameKey) -> (r: usize)
    ensures
        r == key_index(k),
        r < KEY_COUNT,
{
    match k {
        GameKey::W => 0,
        GameKey::A => 1,
        GameKey::S => 2,
        GameKey::D => 3,
        GameKey::Shift => 4,
        GameKey::Space => 5,
        GameKey::Esc => 6,
        GameKey::Tab => 7,
        GameKey::Ctrl => 8,
    }
}

/// The key a character key event stands for: the letters w, a, s and d, in
/// either case; any other text is no key the game reads.
pub open spec fn spec_character_key(text: Seq<char>) -> Option<GameKey> {
    if text.len() != 1 {
        None
    } else if text[0] == 'w' || text[0] == 'W' {
        Some(GameKey::W)
    } else if text[0] == 'a' || text[0] == 'A' {
        Some(GameKey::A)
    } else if text[0] == 's' || text[0] == 'S' {
        Some(GameKey::S)
    } else if text[0] == 'd' || text[0] == 'D' {
        Some(GameKey::D)
    } else {
        None
    }
}

/// The key a name looks up: "space", "shift", "tab", "esc" and "ctrl" name
/// the named keys, and a character key is looked up by its lower-case letter
/// ("w", "a", "s", "d"); any other name, an upper-case letter among them,
/// names no key that is ever held.
pub open spec fn spec_key_from_name(name: Seq<char>) -> Option<GameKey> {
    if name == seq!['s', 'p', 'a', 'c', 'e'] {
        Some(GameKey::Space)
    } else if name == seq!['s', 'h', 'i', 'f', 't'] {
        Some(GameKey::Shift)
    } else if name == seq!['t', 'a', 'b'] {
        Some(GameKey::Tab)
    } else if name == seq!['e', 's', 'c'] {
        Some(GameKey::Esc)
    } else if name == seq!['c', 't', 'r', 'l'] {
        Some(GameKey::Ctrl)
    } else if name == seq!['w'] {
        Some(GameKey::W)
    } else if name == seq!['a'] {
        Some(GameKey::A)
    } else if name == seq!['s'] {
        Some(GameKey::S)
    } else if name == seq!['d'] {
        Some(GameKey::D)
    } else {
        None
    }
}

/// The lower-case form of an ASCII letter; any other character is its own.
pub open spec fn ascii_lower(ch: char) -> char {
    if 'A' <= ch <= 'Z' {
        (ch as int + 32) as char
    } else {
        ch
    }
}

/// Character keys fold case: a one-character key stands for the same game
/// key as its lower-case form, and that is the key the lower-case letter
/// names; so "W" and "w" both move forward, and "A", "a", "S", "s", "D", "d"
/// likewise.
pub proof fn lemma_character_key_folds_case(text: Seq<char>)
    requires
        text.len() == 1,
    ensures
        spec_character_key(text) == spec_character_key(seq![ascii_lower(text[0])]),
        spec_character_key(text) == spec_key_from_name(seq![ascii_lower(text[0])]),
{
    let ch = text[0];
    let l = ascii_lower(ch);
    if 'A' <= ch <= 'Z' {
        assert(l as int == ch as int + 32);
        assert('a' <= l <= 'z');
    }
    assert(seq![l] =~= seq![l]);
    if l != 'w' && l != 'a' && l != 's' && l != 'd' {
        assert(seq![l] != seq!['s', 'p', 'a', 'c', 'e']);
        assert(seq![l] != seq!['s', 'h', 'i', 'f', 't']);
        assert(seq![l] != seq!['t', 'a', 'b']);
        assert(seq![l] != seq!['e', 's', 'c']);
        assert(seq![l] != seq!['c', 't', 'r', 'l']);
    }
    if l == 'w' {
        assert(seq![l] =~= seq!['w']);
    }
    if l == 'a' {
        assert(seq![l] =~= seq!['a']);
    }
    if l == 's' {
        assert(seq![l] =~= seq!['s']);
    }
    if l == 'd' {
        assert(seq![l] =~= seq!['d']);
    }
}

/// Whether `text` is exactly the characters of `word`.
fn text_is(text: &str, word: &[char]) -> (r: bool)
    ensures
        r == (text@ == word@),
{
    let n = text.unicode_len();
    if n != word.len() {
        return false;
    }
    let mut i: usize = 0;
    while i < n
        invariant
            n == text@.len(),
            n == word@.len(),
            i <= n,
            forall|j: int| 0 <= j < i ==> text@[j] == word@[j],
        decreases n - i,
    {
        if text.get_char(i) != word[i] {
            return false;
        }
        i = i + 1;
    }
    proof {
        assert(text@ =~= word@);
    }
    true
}

/// The key a character key event stands for, folding case.
pub fn character_key(text: &str) -> (r: Option<GameKey>)
    ensures
        r == spec_character_key(text@),
{
    if text.unicode_len() != 1 {
        return None;
    }
    let c = text.get_char(0);
    if c == 'w' || c == 'W' {
        Some(GameKey::W)
    } else if c == 'a' || c == 'A' {
        Some(GameKey::A)
    } else if c == 's' || c == 'S' {
        Some(GameKey::S)
    } else if c == 'd' || c == 'D' {
        Some(GameKey::D)
    } else {
        None
    }
}

/// The key a name looks up in the per-frame state.
pub fn key_from_name(name: &str) -> (r: Option<GameKey>)
    ensures
        r == spec_key_from_name(name@),
{
    let space = ['s', 'p', 'a', 'c', 'e'];
    let shift = ['s', 'h', 'i', 'f', 't'];
    let tab = ['t', 'a', 'b'];
    let esc = ['e', 's', 'c'];
    let ctrl = ['c', 't', 'r', 'l'];
    let w = ['w'];
    let a = ['a'];
    let s = ['s'];
    let d = ['d'];
    proof {
        assert(space@ =~= seq!['s', 'p', 'a', 'c', 'e']);
        assert(shift@ =~= seq!['s', 'h', 'i', 'f', 't']);
        assert(tab@ =~= seq!['t', 'a', 'b']);
        assert(esc@ =~= seq!['e', 's', 'c']);
        assert(ctrl@ =~= seq!['c', 't', 'r', 'l']);
        assert(w@ =~= seq!['w']);
        assert(a@ =~= seq!['a']);
        assert(s@ =~= seq!['s']);
        assert(d@ =~= seq!['d']);
    }
    if text_is(name, space.as_slice()) {
        Some(GameKey::Space)
    } else if text_is(name, shift.as_slice()) {
        Some(GameKey::Shift)
    } else if text_is(name, tab.as_slice()) {
        Some(GameKey::Tab)
    } else if text_is(name, esc.as_slice()) {
        Some(GameKey::Esc)
    } else if text_is(name, ctrl.as_slice()) {
        Some(GameKey::Ctrl)
    } else if text_is(name, w.as_slice()) {
        Some(GameKey::W)
    } else if text_is(name, a.as_slice()) {
        Some(GameKey::A)
    } else if text_is(name, s.as_slice()) {
        Some(GameKey::S)
    } else if text_is(name, d.as_slice()) {
        Some(GameKey::D)
    } else {
        None
    }
}

/// The held state of the movement and menu keys.
pub struct InputState {
    pub key_w: bool,
    pub key_a: bool,
    pub key_s: bool,
    pub key_d: bool,
    pub key_shift: bool,
    pub key_space: bool,
    pub key_esc: bool,
    pub key_tab: bool,
}

impl InputState {
    /// No key held.
    pub fn new() -> (r: Self)
        ensures
            !r.key_w && !r.key_a && !r.key_s && !r.key_d,
            !r.key_shift && !r.key_space && !r.key_esc && !r.key_tab,
    {
        InputState {
            key_w: false,
            key_a: false,
            key_s: false,
            key_d: false,
            key_shift: false,
            key_space: false,
            key_esc: false,
            key_tab: false,
        }
    }

    /// Record that `key` is now held or released; a key without a field is
    /// ignored.
    pub fn set_key_state(&mut self, key: GameKey, pressed: bool)
        ensures
            final(self).key_w == if key == GameKey::W { pressed } else { old(self).key_w },
            final(self).key_a == if key == GameKey::A { pressed } else { old(self).key_a },
            final(self).key_s == if key == GameKey::S { pressed } else { old(self).key_s },
            final(self).key_d == if key == GameKey::D { pressed } else { old(self).key_d },
            final(self).key_shift == if key == GameKey::Shift { pressed } else { old(self).key_shift },
            final(self).key_space == if key == GameKey::Space { pressed } else { old(self).key_space },
            final(self).key_esc == if key == GameKey::Esc { pressed } else { old(self).key_esc },
            final(self).key_tab == if key == GameKey::Tab { pressed } else { old(self).key_tab },
    {
        match key {
            GameKey::W => self.key_w = pressed,
            GameKey::A => self.key_a = pressed,
            GameKey::S => self.key_s = pressed,
            GameKey::D => self.key_d = pressed,
            GameKey::Shift => self.key_shift = pressed,
            GameKey::Space => self.key_space = pressed,
            GameKey::Esc => self.key_esc = pressed,
            GameKey::Tab => self.key_tab = pressed,
            GameKey::Ctrl => {},
        }
    }
}

/// The keys held according to the window events so far.
pub struct EventDrivenInput {
    pub key_pressed: [bool; 9],
}

impl EventDrivenInput {
    /// No key held.
    pub fn new() -> (r: Self)
        ensures
            forall|i: int| 0 <= i < 9 ==> !r.key_pressed[i],
    {
        EventDrivenInput { key_pressed: [false; 9] }
    }

    /// Record that `key` is now held or released.
    pub fn set_key_state(&mut self, key: GameKey, pressed: bool)
        ensures
            final(self).key_pressed@ == old(self).key_pressed@.update(key_index(key), pressed),
    {
        let k = key_slot(key);
        self.key_pressed[k] = pressed;
    }
}

/// The keys held this frame, and those that went down or came up since the
/// previous frame.
pub struct FrameDrivenInput {
    pub key_pressed: [bool; 9],
    pub key_down: [bool; 9],
    pub key_up: [bool; 9],
}

impl FrameDrivenInput {
    /// No key held, none went down or up.
    pub fn new() -> (r: Self)
        ensures
            forall|i: int| 0 <= i < 9 ==> !r.key_pressed[i] && !r.key_down[i] && !r.key_up[i],
    {
        FrameDrivenInput { key_pressed: [false; 9], key_down: [false; 9], key_up: [false; 9] }
    }

    /// Start a frame: take the held keys from the events, and mark the keys
    /// that went down (held now, not in the previous frame) or came up (held
    /// in the previous frame, not now).
    pub fn update(&mut self, event_driven_input: &EventDrivenInput)
        ensures
            final(self).key_pressed == event_driven_input.key_pressed,
            forall|i: int|
                0 <= i < 9 ==> (#[trigger] final(self).key_down[i] <==> (event_driven_input.key_pressed[i]
                    && !old(self).key_pressed[i])),
            forall|i: int|
                0 <= i < 9 ==> (#[trigger] final(self).key_up[i] <==> (!event_driven_input.key_pressed[i]
                    && old(self).key_pressed[i])),
    {
        let previous_key_pressed = self.key_pressed;
        self.key_pressed = event_driven_input.key_pressed;
        let mut down = [false; 9];
        let mut up = [false; 9];
        let mut k: usize = 0;
        while k < KEY_COUNT
            invariant
                k <= KEY_COUNT,
                forall|i: int| 0 <= i < k ==> (down[i] <==> (event_driven_input.key_pressed[i] && !previous_key_pressed[i])),
                forall|i: int| 0 <= i < k ==> (up[i] <==> (!event_driven_input.key_pressed[i] && previous_key_pressed[i])),
            decreases KEY_COUNT - k,
        {
            let is_pressed = event_driven_input.key_pressed[k];
            let was_pressed = previous_key_pressed[k];
            down[k] = is_pressed && !was_pressed;
            up[k] = !is_pressed && was_pressed;
            k = k + 1;
        }
        self.key_down = down;
        self.key_up = up;
    }

    /// Whether `key` is held this frame.
    pub fn get_key_pressed(&self, key: GameKey) -> (r: bool)
        ensures
            r == self.key_pressed[key_index(key)],
    {
        self.key_pressed[key_slot(key)]
    }

    /// Whether `key` went down at the start of this frame.
    pub fn get_key_down(&self, key: GameKey) -> (r: bool)
        ensures
            r == self.key_down[key_index(key)],
    {
        self.key_down[key_slot(key)]
    }

    /// Whether `key` came up at the start of this frame.
    pub fn get_key_up(&self, key: GameKey) -> (r: bool)
        ensures
            r == self.key_up[key_index(key)],
    {
        self.key_up[key_slot(key)]
    }

    /// The walking direction the held keys ask for, one unit per axis: w and
    /// s along +y and -y, d and a along +x and -x, space and shift along +z
    /// and -z; opposite keys cancel.
    pub fn movement_direction(&self) -> (r: [i8; 3])
        ensures
            r[0] == (if self.key_pressed[3] { 1int } else { 0 }) - (if self.key_pressed[1] { 1int } else { 0 }),
            r[1] == (if self.key_pressed[0] { 1int } else { 0 }) - (if self.key_pressed[2] { 1int } else { 0 }),
            r[2] == (if self.key_pressed[5] { 1int } else { 0 }) - (if self.key_pressed[4] { 1int } else { 0 }),
    {
        let mut direction: [i8; 3] = [0, 0, 0];
        if self.get_key_pressed(GameKey::W) {
            direction[1] = direction[1] + 1;
        }
        if self.get_key_pressed(GameKey::A) {
            direction[0] = direction[0] - 1;
        }
        if self.get_key_pressed(GameKey::S) {
            direction[1] = direction[1] - 1;
        }
        if self.get_key_pressed(GameKey::D) {
            direction[0] = direction[0] + 1;
        }
        if self.get_key_pressed(GameKey::Space) {
            direction[2] = direction[2] + 1;
        }
        if self.get_key_pressed(GameKey::Shift) {
            direction[2] = direction[2] - 1;
        }
        direction
    }
}

/// A key never both goes down and comes up in the same frame, a key that went
/// down is held, and a key that came up is not.
pub proof fn lemma_down_up_exclusive(before: FrameDrivenInput, events: EventDrivenInput, after: FrameDrivenInput, k: GameKey)
    requires
        after.key_pressed == events.key_pressed,
        forall|i: int|
            0 <= i < 9 ==> (#[trigger] after.key_down[i] <==> (events.key_pressed[i] && !before.key_pressed[i])),
        forall|i: int|
            0 <= i < 9 ==> (#[trigger] after.key_up[i] <==> (!events.key_pressed[i] && before.key_pressed[i])),
    ensures
        !(after.key_down[key_index(k)] && after.key_up[key_index(k)]),
        after.key_down[key_index(k)] ==> after.key_pressed[key_index(k)],
        after.key_up[key_index(k)] ==> !after.key_pressed[key_index(k)],
{
    let i = key_index(k);
    assert(after.key_down[i] <==> (events.key_pressed[i] && !before.key_pressed[i]));
    assert(after.key_up[i] <==> (!events.key_pressed[i] && before.key_pressed[i]));
}

} // verus!
