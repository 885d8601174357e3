use vstd::prelude::*;

verus! {

/// Physical keys the game understands. The platform layer maps raw
/// events into these; gameplay code never touches real keyboards.
#[derive(Clone, Copy, PartialEq, Eq, Hash, Debug, Structural)]
pub enum KeyCode {
    A,
    D,
    X,
    C,
    Left,
    Right,
    Up,
    Down,
    BracketLeft,
    BracketRight,
    Enter,
    Escape,
}

/// Number of distinct key codes.
pub const KEY_COUNT: usize = 12;

/// Position of a key in the dense key tables.
pub open spec fn key_slot(k: KeyCode) -> int {
    match k {
        KeyCode::A => 0,
        KeyCode::D => 1,
        KeyCode::X => 2,
        KeyCode::C => 3,
        KeyCode::Left => 4,
        KeyCode::Right => 5,
        KeyCode::Up => 6,
        KeyCode::Down => 7,
        KeyCode::BracketLeft => 8,
        KeyCode::BracketRight => 9,
        KeyCode::Enter => 10,
        KeyCode::Escape => 11,
    }
}

impl KeyCode {
    fn slot(&self) -> (r: usize)
        ensures
            r == key_slot(*self),
            r < KEY_COUNT,
    {
        match self {
            KeyCode::A => 0,
            KeyCode::D => 1,
            KeyCode::X => 2,
            KeyCode::C => 3,
            KeyCode::Left => 4,
            KeyCode::Right => 5,
            KeyCode::Up => 6,
            KeyCode::Down => 7,
            KeyCode::BracketLeft => 8,
            KeyCode::BracketRight => 9,
            KeyCode::Enter => 10,
            KeyCode::Escape => 11,
        }
    }
}

/// The key a browser `KeyboardEvent.key()` name denotes, if any.
pub open spec fn key_named(name: Seq<char>) -> Option<KeyCode> {
    if name == "a"@ || name == "A"@ {
        Some(KeyCode::A)
    } else if name == "d"@ || name == "D"@ {
        Some(KeyCode::D)
    } else if name == "x"@ || name == "X"@ {
        Some(KeyCode::X)
    } else if name == "c"@ || name == "C"@ {
        Some(KeyCode::C)
    } else if name == "ArrowLeft"@ {
        Some(KeyCode::Left)
    } else if name == "ArrowRight"@ {
        Some(KeyCode::Right)
    } else if name == "ArrowUp"@ {
        Some(KeyCode::Up)
    } else if name == "ArrowDown"@ {
        Some(KeyCode::Down)
    } else if name == "["@ {
        Some(KeyCode::BracketLeft)
    } else if name == "]"@ {
        Some(KeyCode::BracketRight)
    } else if name == "Enter"@ {
        Some(KeyCode::Enter)
    } else if name == "Escape"@ {
        Some(KeyCode::Escape)
    } else {
        None
    }
}

/// Character-wise equality of two string slices.
fn same_text(a: &str, b: &str) -> (r: bool)
    ensures
        r == (a@ == b@),
{
    let n = a.unicode_len();
    let m = b.unicode_len();
    if n != m {
        return false;
    }
    let mut i: usize = 0;
    while i < n
        invariant
            n == a@.len(),
            m == b@.len(),
            n == m,
            i <= n,
            forall|j: int| 0 <= j < i ==> a@[j] == b@[j],
        decreases n - i,
    {
        if a.get_char(i) != b.get_char(i) {
            return false;
        }
        i += 1;
    }
    assert(a@ =~= b@);
    true
}

impl KeyCode {
    /// Convert a browser `KeyboardEvent.key()` string into a `KeyCode`.
    pub fn from_name(name: &str) -> (r: Option<KeyCode>)
        ensures
            r == key_named(name@),
    {
        if same_text(name, "a") || same_text(name, "A") {
            Some(KeyCode::A)
        } else if same_text(name, "d") || same_text(name, "D") {
            Some(KeyCode::D)
        } else if same_text(name, "x") || same_text(name, "X") {
            Some(KeyCode::X)
        } else if same_text(name, "c") || same_text(name, "C") {
            Some(KeyCode::C)
        } else if same_text(name, "ArrowLeft") {
            Some(KeyCode::Left)
        } else if same_text(name, "ArrowRight") {
            Some(KeyCode::Right)
        } else if same_text(name, "ArrowUp") {
            Some(KeyCode::Up)
        } else if same_text(name, "ArrowDown") {
            Some(KeyCode::Down)
        } else if same_text(name, "[") {
            Some(KeyCode::BracketLeft)
        } else if same_text(name, "]") {
            Some(KeyCode::BracketRight)
        } else if same_text(name, "Enter") {
            Some(KeyCode::Enter)
        } else if same_text(name, "Escape") {
            Some(KeyCode::Escape)
        } else {
            None
        }
    }
}

/// A set of keys, held as one flag per key code.
pub struct KeySet {
    flags: [bool; KEY_COUNT],
}

impl View for KeySet {
    type V = Set<KeyCode>;

    closed spec fn view(&self) -> Set<KeyCode> {
        Set::new(|k: KeyCode| self.flags@[key_slot(k)])
    }
}

/// Every key code, in slot order.
spec fn key_at_slot(i: int) -> KeyCode {
    if i == 0 {
        KeyCode::A
    } else if i == 1 {
        KeyCode::D
    } else if i == 2 {
        KeyCode::X
    } else if i == 3 {
        KeyCode::C
    } else if i == 4 {
        KeyCode::Left
    } else if i == 5 {
        KeyCode::Right
    } else if i == 6 {
        KeyCode::Up
    } else if i == 7 {
        KeyCode::Down
    } else if i == 8 {
        KeyCode::BracketLeft
    } else if i == 9 {
        KeyCode::BracketRight
    } else if i == 10 {
        KeyCode::Enter
    } else {
        KeyCode::Escape
    }
}

proof fn lemma_slot_roundtrip(i: int)
    requires
        0 <= i < 12,
    ensures
        key_slot(key_at_slot(i)) == i,
{
}

impl KeySet {
    /// The empty set.
    pub fn new() -> (r: KeySet)
        ensures
            r@ == Set::<KeyCode>::empty(),
    {
        let r = KeySet { flags: [false; KEY_COUNT] };
        assert(r@ =~= Set::<KeyCode>::empty());
        r
    }

    /// Adds `key`; true when it was not already present.
    pub fn insert(&mut self, key: KeyCode) -> (r: bool)
        ensures
            final(self)@ == old(self)@.insert(key),
            r == !old(self)@.contains(key),
    {
        let i = key.slot();
        let was = self.flags[i];
        self.flags[i] = true;
        assert(final(self)@ =~= old(self)@.insert(key));
        !was
    }

    /// Removes `key`; true when it was present.
    pub fn remove(&mut self, key: &KeyCode) -> (r: bool)
        ensures
            final(self)@ == old(self)@.remove(*key),
            r == old(self)@.contains(*key),
    {
        let i = key.slot();
        let was = self.flags[i];
        self.flags[i] = false;
        assert(final(self)@ =~= old(self)@.remove(*key));
        was
    }

    /// Membership test.
    pub fn contains(&self, key: &KeyCode) -> (r: bool)
        ensures
            r == self@.contains(*key),
    {
        self.flags[key.slot()]
    }

    /// True when no key is present.
    pub fn is_empty(&self) -> (r: bool)
        ensures
            r == (self@ == Set::<KeyCode>::empty()),
    {
        let mut i: usize = 0;
        while i < KEY_COUNT
            invariant
                i <= KEY_COUNT,
                forall|j: int| 0 <= j < i ==> !self.flags@[j],
            decreases KEY_COUNT - i,
        {
            if self.flags[i] {
                proof {
                    lemma_slot_roundtrip(i as int);
                    assert(self@.contains(key_at_slot(i as int)));
                }
                return false;
            }
            i += 1;
        }
        assert(self@ =~= Set::<KeyCode>::empty());
        true
    }
}

impl Default for KeySet {
    fn default() -> (r: KeySet)
        ensures
            r@ == Set::<KeyCode>::empty(),
    {
        KeySet::new()
    }
}

/// Abstract state of an [`InputState`]: held keys and the edges gathered
/// since the last frame began.
pub struct InputModel {
    pub down: Set<KeyCode>,
    pub pressed: Set<KeyCode>,
    pub released: Set<KeyCode>,
}

/// Abstract content of a [`FrameInput`].
pub struct EdgesModel {
    pub pressed: Set<KeyCode>,
    pub released: Set<KeyCode>,
}

/// The state in which nothing is held and no edge is pending.
pub open spec fn idle_model() -> InputModel {
    InputModel {
        down: Set::empty(),
        pressed: Set::empty(),
        released: Set::empty(),
    }
}

/// A key-down event: a key that was not held becomes held and is recorded
/// as pressed; a repeated key-down of a held key changes nothing.
pub open spec fn key_down_model(m: InputModel, k: KeyCode) -> InputModel {
    if m.down.contains(k) {
        m
    } else {
        InputModel { down: m.down.insert(k), pressed: m.pressed.insert(k), released: m.released }
    }
}

/// A key-up event: a held key stops being held and is recorded as
/// released; a key-up of a key that is not held changes nothing.
pub open spec fn key_up_model(m: InputModel, k: KeyCode) -> InputModel {
    if m.down.contains(k) {
        InputModel { down: m.down.remove(k), pressed: m.pressed, released: m.released.insert(k) }
    } else {
        m
    }
}

/// The edges a frame that begins in state `m` reports.
pub open spec fn frame_edges_model(m: InputModel) -> EdgesModel {
    EdgesModel { pressed: m.pressed, released: m.released }
}

/// The state after a frame begins: held keys stay, pending edges are cleared.
pub open spec fn after_frame_model(m: InputModel) -> InputModel {
    InputModel { down: m.down, pressed: Set::empty(), released: Set::empty() }
}

/// Accumulates key state between frames. The platform feeds raw
/// key-down / key-up events; simulation drains per-frame edge sets.
pub struct InputState {
    down: KeySet,
    pressed: KeySet,
    released: KeySet,
}

impl View for InputState {
    type V = InputModel;

    closed spec fn view(&self) -> InputModel {
        InputModel { down: self.down@, pressed: self.pressed@, released: self.released@ }
    }
}

impl InputState {
    pub fn new() -> (r: InputState)
        ensures
            r@ == idle_model(),
    {
        InputState { down: KeySet::new(), pressed: KeySet::new(), released: KeySet::new() }
    }

    pub fn key_down(&mut self, key: KeyCode)
        ensures
            final(self)@ == key_down_model(old(self)@, key),
    {
        if self.down.insert(key) {
            self.pressed.insert(key);
        } else {
            assert(old(self)@.down.insert(key) =~= old(self)@.down);
        }
    }

    pub fn key_up(&mut self, key: KeyCode)
        ensures
            final(self)@ == key_up_model(old(self)@, key),
    {
        if self.down.remove(&key) {
            self.released.insert(key);
        } else {
            assert(old(self)@.down.remove(key) =~= old(self)@.down);
        }
    }

    pub fn is_down(&self, key: KeyCode) -> (r: bool)
        ensures
            r == self@.down.contains(key),
    {
        self.down.contains(&key)
    }

    /// Snapshot the current frame's edges, clearing them for the next frame.
    pub fn begin_frame(&mut self) -> (r: FrameInput)
        ensures
            r@ == frame_edges_model(old(self)@),
            final(self)@ == after_frame_model(old(self)@),
    {
        let mut pressed = KeySet::new();
        let mut released = KeySet::new();
        std::mem::swap(&mut pressed, &mut self.pressed);
        std::mem::swap(&mut released, &mut self.released);
        FrameInput { pressed, released }
    }
}

impl Default for InputState {
    fn default() -> (r: InputState)
        ensures
            r@ == idle_model(),
    {
        InputState::new()
    }
}

/// Edges for a single simulated frame: what was pressed / released this
/// tick. Held state is queried via `InputState::is_down`.
pub struct FrameInput {
    pub pressed: KeySet,
    pub released: KeySet,
}

impl View for FrameInput {
    type V = EdgesModel;

    open spec fn view(&self) -> EdgesModel {
        EdgesModel { pressed: self.pressed@, released: self.released@ }
    }
}

impl FrameInput {
    pub fn pressed(&self, key: KeyCode) -> (r: bool)
        ensures
            r == self@.pressed.contains(key),
    {
        self.pressed.contains(&key)
    }
}

impl Default for FrameInput {
    fn default() -> (r: FrameInput)
        ensures
            r@.pressed == Set::<KeyCode>::empty(),
            r@.released == Set::<KeyCode>::empty(),
    {
        FrameInput { pressed: KeySet::new(), released: KeySet::new() }
    }
}

/// Edges are reported once: a frame begun right after another one, with no
/// key event in between, reports no pressed and no released key.
pub proof fn law_edges_reported_once(m: InputModel)
    ensures
        frame_edges_model(after_frame_model(m)).pressed == Set::<KeyCode>::empty(),
        frame_edges_model(after_frame_model(m)).released == Set::<KeyCode>::empty(),
{
}

/// Pressing a key that is not held is reported by the next frame, and the
/// key stays held after that frame begins.
pub proof fn law_press_reported(m: InputModel, k: KeyCode)
    requires
        !m.down.contains(k),
    ensures
        frame_edges_model(key_down_model(m, k)).pressed.contains(k),
        after_frame_model(key_down_model(m, k)).down.contains(k),
{
}

/// A key that is still held is not reported as pressed again: once a frame
/// has begun, a repeated key-down of a held key adds no edge and the key
/// stays held.
pub proof fn law_held_key_not_pressed_again(m: InputModel, k: KeyCode)
    requires
        m.down.contains(k),
    ensures
        !frame_edges_model(key_down_model(after_frame_model(m), k)).pressed.contains(k),
        key_down_model(after_frame_model(m), k).down.contains(k),
{
}

/// Releasing a held key is reported by the next frame and clears its held
/// state.
pub proof fn law_release_reported(m: InputModel, k: KeyCode)
    requires
        m.down.contains(k),
    ensures
        frame_edges_model(key_up_model(m, k)).released.contains(k),
        !key_up_model(m, k).down.contains(k),
{
}

/// Beginning a frame never changes which keys are held.
pub proof fn law_frame_keeps_held_keys(m: InputModel)
    ensures
        after_frame_model(m).down == m.down,
{
}

/// A raw input event, as the platform feeds them to an [`InputState`].
#[derive(Clone, Copy, PartialEq, Eq, Debug, Structural)]
pub enum InputEvent {
    KeyDown(KeyCode),
    KeyUp(KeyCode),
    BeginFrame,
}

/// The model after one event.
pub open spec fn event_model(m: InputModel, e: InputEvent) -> InputModel {
    match e {
        InputEvent::KeyDown(k) => key_down_model(m, k),
        InputEvent::KeyUp(k) => key_up_model(m, k),
        InputEvent::BeginFrame => after_frame_model(m),
    }
}

/// The model of an `InputState::new()` fed `events` in order.
pub open spec fn history_model(events: Seq<InputEvent>) -> InputModel
    decreases events.len(),
{
    if events.len() == 0 {
        idle_model()
    } else {
        event_model(history_model(events.drop_last()), events.last())
    }
}

/// No key-up of `k` comes after position `i` in `events`.
pub open spec fn not_released_after(events: Seq<InputEvent>, i: int, k: KeyCode) -> bool {
    forall|j: int| i < j < events.len() ==> #[trigger] events[j] != InputEvent::KeyUp(k)
}

/// Position `i` of `events` is a key-down of `k` that no key-up of `k`
/// follows.
pub open spec fn unreleased_down_at(events: Seq<InputEvent>, i: int, k: KeyCode) -> bool {
    &&& 0 <= i < events.len()
    &&& events[i] == InputEvent::KeyDown(k)
    &&& not_released_after(events, i, k)
}

/// `k` had a key-down in `events` that no later key-up of `k` followed.
pub open spec fn pressed_and_not_released(events: Seq<InputEvent>, k: KeyCode) -> bool {
    exists|i: int| #[trigger] unreleased_down_at(events, i, k)
}

/// An earlier position keeps its status when one event is appended exactly
/// when that event is not a key-up of `k`.
proof fn lemma_unreleased_down_extend(events: Seq<InputEvent>, i: int, k: KeyCode)
    requires
        events.len() > 0,
        0 <= i < events.len() - 1,
    ensures
        unreleased_down_at(events, i, k) == (unreleased_down_at(events.drop_last(), i, k)
            && events.last() != InputEvent::KeyUp(k)),
{
    let prev = events.drop_last();
    let n = events.len() - 1;
    assert(events[i] == prev[i]);
    if not_released_after(events, i, k) {
        assert forall|j: int| i < j < prev.len() implies #[trigger] prev[j] != InputEvent::KeyUp(k) by {
            assert(prev[j] == events[j]);
        }
        assert(events[n] != InputEvent::KeyUp(k));
    }
    if not_released_after(prev, i, k) && events.last() != InputEvent::KeyUp(k) {
        assert forall|j: int| i < j < events.len() implies #[trigger] events[j] != InputEvent::KeyUp(k) by {
            if j < n {
                assert(prev[j] == events[j]);
            }
        }
    }
}

/// One event holds a key exactly when it is a key-down of that key, or the
/// key was held and the event is not its key-up.
proof fn lemma_event_holds(m: InputModel, e: InputEvent, k: KeyCode)
    ensures
        event_model(m, e).down.contains(k) == (e == InputEvent::KeyDown(k) || (m.down.contains(k)
            && e != InputEvent::KeyUp(k))),
{
    match e {
        InputEvent::KeyDown(x) => {
            if !m.down.contains(x) {
                assert(m.down.insert(x).contains(k) == (x == k || m.down.contains(k)));
            }
        },
        InputEvent::KeyUp(x) => {
            if m.down.contains(x) {
                assert(m.down.remove(x).contains(k) == (x != k && m.down.contains(k)));
            }
        },
        InputEvent::BeginFrame => {},
    }
}

/// Held state follows the event history: after any sequence of key-downs,
/// key-ups and frame starts, a key is held exactly when it had a key-down
/// that no key-up of the same key followed. Frame starts never change it.
pub proof fn law_held_iff_last_event_was_key_down(events: Seq<InputEvent>, k: KeyCode)
    ensures
        history_model(events).down.contains(k) == pressed_and_not_released(events, k),
    decreases events.len(),
{
    if events.len() > 0 {
        let prev = events.drop_last();
        let n = events.len() - 1;
        let e = events[n];
        law_held_iff_last_event_was_key_down(prev, k);
        lemma_event_holds(history_model(prev), e, k);
        assert(history_model(events) == event_model(history_model(prev), e));
        if pressed_and_not_released(prev, k) && e != InputEvent::KeyUp(k) {
            let i = choose|i: int| #[trigger] unreleased_down_at(prev, i, k);
            lemma_unreleased_down_extend(events, i, k);
            assert(unreleased_down_at(events, i, k));
        }
        if e == InputEvent::KeyDown(k) {
            assert(unreleased_down_at(events, n, k));
        }
        if pressed_and_not_released(events, k) {
            let i = choose|i: int| #[trigger] unreleased_down_at(events, i, k);
            if i < n {
                lemma_unreleased_down_extend(events, i, k);
                assert(unreleased_down_at(prev, i, k));
            }
        }
    }
}

/// A key-down of `k` makes `k` held and touches no other key: `k` is
/// recorded as pressed exactly when it was not held before, every other
/// key's held state and pressed edge stay as they were, and every pending
/// release (of any key) is kept.
pub proof fn law_key_down_effect(m: InputModel, k: KeyCode, other: KeyCode)
    ensures
        key_down_model(m, k).down.contains(k),
        key_down_model(m, k).pressed.contains(k) == (m.pressed.contains(k) || !m.down.contains(k)),
        other != k ==> key_down_model(m, k).down.contains(other) == m.down.contains(other),
        other != k ==> key_down_model(m, k).pressed.contains(other) == m.pressed.contains(other),
        key_down_model(m, k).released.contains(other) == m.released.contains(other),
{
}

/// A key-up of `k` releases `k` and touches no other key: `k` stops being
/// held, it is recorded as released exactly when it was held before, every
/// release already recorded in the frame is kept, every other key's held
/// state stays, and no pressed edge changes.
pub proof fn law_key_up_effect(m: InputModel, k: KeyCode, other: KeyCode)
    ensures
        !key_up_model(m, k).down.contains(k),
        key_up_model(m, k).released.contains(k) == (m.released.contains(k) || m.down.contains(k)),
        other != k ==> key_up_model(m, k).down.contains(other) == m.down.contains(other),
        other != k ==> key_up_model(m, k).released.contains(other) == m.released.contains(other),
        key_up_model(m, k).pressed.contains(other) == m.pressed.contains(other),
{
}

/// A name denotes a key exactly when it is one of that key's names:
/// "a"/"A", "d"/"D", "x"/"X", "c"/"C", "ArrowLeft", "ArrowRight", "ArrowUp",
/// "ArrowDown", "[", "]", "Enter" and "Escape"; every other string denotes
/// no key.
pub proof fn law_key_names(name: Seq<char>)
    ensures
        (key_named(name) == Some(KeyCode::A)) == (name == "a"@ || name == "A"@),
        (key_named(name) == Some(KeyCode::D)) == (name == "d"@ || name == "D"@),
        (key_named(name) == Some(KeyCode::X)) == (name == "x"@ || name == "X"@),
        (key_named(name) == Some(KeyCode::C)) == (name == "c"@ || name == "C"@),
        (key_named(name) == Some(KeyCode::Left)) == (name == "ArrowLeft"@),
        (key_named(name) == Some(KeyCode::Right)) == (name == "ArrowRight"@),
        (key_named(name) == Some(KeyCode::Up)) == (name == "ArrowUp"@),
        (key_named(name) == Some(KeyCode::Down)) == (name == "ArrowDown"@),
        (key_named(name) == Some(KeyCode::BracketLeft)) == (name == "["@),
        (key_named(name) == Some(KeyCode::BracketRight)) == (name == "]"@),
        (key_named(name) == Some(KeyCode::Enter)) == (name == "Enter"@),
        (key_named(name) == Some(KeyCode::Escape)) == (name == "Escape"@),
{
    broadcast use vstd::string::group_string_axioms;

    reveal_strlit("a");
    reveal_strlit("A");
    reveal_strlit("d");
    reveal_strlit("D");
    reveal_strlit("x");
    reveal_strlit("X");
    reveal_strlit("c");
    reveal_strlit("C");
    reveal_strlit("ArrowLeft");
    reveal_strlit("ArrowRight");
    reveal_strlit("ArrowUp");
    reveal_strlit("ArrowDown");
    reveal_strlit("[");
    reveal_strlit("]");
    reveal_strlit("Enter");
    reveal_strlit("Escape");
    assert("a"@.len() == 1);
    assert("A"@.len() == 1);
    assert("d"@.len() == 1);
    assert("D"@.len() == 1);
    assert("x"@.len() == 1);
    assert("X"@.len() == 1);
    assert("c"@.len() == 1);
    assert("C"@.len() == 1);
    assert("ArrowLeft"@.len() == 9);
    assert("ArrowRight"@.len() == 10);
    assert("ArrowUp"@.len() == 7);
    assert("ArrowDown"@.len() == 9);
    assert("["@.len() == 1);
    assert("]"@.len() == 1);
    assert("Enter"@.len() == 5);
    assert("Escape"@.len() == 6);
    assert("a"@[0] == 'a');
    assert("A"@[0] == 'A');
    assert("d"@[0] == 'd');
    assert("D"@[0] == 'D');
    assert("x"@[0] == 'x');
    assert("X"@[0] == 'X');
    assert("c"@[0] == 'c');
    assert("C"@[0] == 'C');
    assert("ArrowLeft"@[0] == 'A');
    assert("ArrowLeft"@[1] == 'r');
    assert("ArrowLeft"@[2] == 'r');
    assert("ArrowLeft"@[3] == 'o');
    assert("ArrowLeft"@[4] == 'w');
    assert("ArrowLeft"@[5] == 'L');
    assert("ArrowRight"@[0] == 'A');
    assert("ArrowRight"@[1] == 'r');
    assert("ArrowRight"@[2] == 'r');
    assert("ArrowRight"@[3] == 'o');
    assert("ArrowRight"@[4] == 'w');
    assert("ArrowRight"@[5] == 'R');
    assert("ArrowUp"@[0] == 'A');
    assert("ArrowUp"@[1] == 'r');
    assert("ArrowUp"@[2] == 'r');
    assert("ArrowUp"@[3] == 'o');
    assert("ArrowUp"@[4] == 'w');
    assert("ArrowUp"@[5] == 'U');
    assert("ArrowDown"@[0] == 'A');
    assert("ArrowDown"@[1] == 'r');
    assert("ArrowDown"@[2] == 'r');
    assert("ArrowDown"@[3] == 'o');
    assert("ArrowDown"@[4] == 'w');
    assert("ArrowDown"@[5] == 'D');
    assert("["@[0] == '[');
    assert("]"@[0] == ']');
    assert("Enter"@[0] == 'E');
    assert("Enter"@[1] == 'n');
    assert("Enter"@[2] == 't');
    assert("Enter"@[3] == 'e');
    assert("Enter"@[4] == 'r');
    assert("Escape"@[0] == 'E');
    assert("Escape"@[1] == 's');
    assert("Escape"@[2] == 'c');
    assert("Escape"@[3] == 'a');
    assert("Escape"@[4] == 'p');
    assert("Escape"@[5] == 'e');
}

} // verus!
