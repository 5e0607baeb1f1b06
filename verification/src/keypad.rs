//! Matrix keypads with an optional hook switch.
use crate::text::char_at;
use vstd::prelude::*;

verus! {

/// A key of a keypad, or the hook.
#[derive(Debug, Clone, Copy, PartialEq, Eq, Hash, Structural)]
pub enum Key {
    Char(char),
    Hook,
}

/// Which way a key moved.
#[derive(Debug, Clone, Copy, PartialEq, Eq, Structural)]
pub enum KeyTransition {
    Up,
    Down,
}

/// A key that moved.
#[derive(Debug, Clone, Copy, PartialEq, Eq, Structural)]
pub struct KeypadEvent {
    pub key: Key,
    pub transition: KeyTransition,
}

/// How many keys may be down at once.
pub const MAX_ACTIVE_KEYS: usize = 4;

/// A keypad as a mathematical value.
#[verifier::ext_equal]
pub struct KeypadModel {
    pub rows: usize,
    pub cols: usize,
    /// The keys row by row, with the hook at the end where there is one.
    pub keys: Seq<Key>,
    /// The keys that are down.
    pub down: Set<Key>,
    /// When the hook was last seen to be on.
    pub hook_last_active_ms: Option<u64>,
}

/// The events of the keys of `keys` that move when those that are down change from `down` to
/// `active`, in the order of `keys`, each key once.
pub open spec fn transitions(keys: Seq<Key>, down: Set<Key>, active: Set<Key>) -> Seq<KeypadEvent>
    decreases keys.len(),
{
    if keys.len() == 0 {
        Seq::empty()
    } else {
        let before = transitions(keys.drop_last(), down, active);
        let key = keys.last();
        if keys.drop_last().contains(key) || down.contains(key) == active.contains(key) {
            before
        } else {
            before.push(
                KeypadEvent {
                    key,
                    transition: if active.contains(key) {
                        KeyTransition::Down
                    } else {
                        KeyTransition::Up
                    },
                },
            )
        }
    }
}

/// The keys that read as down, row by row.
pub open spec fn keys_read(keys: Seq<Key>, readings: Seq<bool>) -> Set<Key> {
    Set::new(
        |key: Key|
            exists|i: int|
                0 <= i < readings.len() && i < keys.len() && #[trigger] readings[i] && keys[i] == key,
    )
}

impl KeypadModel {
    /// What holds of every keypad: every place has a key that is not the hook, and behind them
    /// there is at most the hook.
    pub open spec fn sound(self) -> bool {
        &&& self.rows * self.cols <= self.keys.len() <= self.rows * self.cols + 1
        &&& forall|i: int| 0 <= i < self.rows * self.cols ==> #[trigger] self.keys[i] != Key::Hook
        &&& self.keys.len() > self.rows * self.cols ==> self.keys.last() == Key::Hook
        &&& forall|key: Key| #[trigger] self.down.contains(key) ==> self.keys.contains(key)
    }

    /// The key at a place, where there is one.
    pub open spec fn at(self, row: int, col: int) -> Option<Key> {
        if 0 <= row < self.rows && 0 <= col < self.cols {
            Some(self.keys[row * self.cols + col])
        } else {
            None
        }
    }

    /// The keypad once exactly the keys of `active` are down. With too many keys down at once
    /// nothing can be told apart, and nothing changes.
    pub open spec fn with_active(self, active: Set<Key>) -> KeypadModel {
        if active.len() > MAX_ACTIVE_KEYS {
            self
        } else {
            KeypadModel {
                down: Set::new(|key: Key| self.keys.contains(key) && active.contains(key)),
                ..self
            }
        }
    }

    /// The events that tell so.
    pub open spec fn events_of(self, active: Set<Key>) -> Seq<KeypadEvent> {
        if active.len() > MAX_ACTIVE_KEYS {
            Seq::empty()
        } else {
            transitions(self.keys, self.down, active)
        }
    }

    /// Whether the hook counts as on: it is, or it was a moment ago.
    pub open spec fn hook_counts(self, hook_on: Option<bool>, now_ms: u64) -> bool {
        match hook_on {
            Some(true) => true,
            Some(false) => self.down.contains(Key::Hook) && match self.hook_last_active_ms {
                Some(last) => now_ms < last || now_ms - last < MatrixKeypad::HOOK_DEBOUNCE_MS,
                None => false,
            },
            None => false,
        }
    }

    /// The keypad with the time kept at which the hook was seen on, or let go.
    pub open spec fn with_hook_seen(self, hook_on: Option<bool>, now_ms: u64) -> KeypadModel {
        if hook_on == Some(true) || (hook_on == Some(false) && self.down.contains(Key::Hook)
            && !self.hook_counts(hook_on, now_ms)) {
            KeypadModel { hook_last_active_ms: Some(now_ms), ..self }
        } else {
            self
        }
    }

    /// The keys that are down by what was read.
    pub open spec fn scanned_keys(
        self,
        readings: Seq<bool>,
        hook_on: Option<bool>,
        now_ms: u64,
    ) -> Set<Key> {
        if self.hook_counts(hook_on, now_ms) {
            keys_read(self.keys, readings).insert(Key::Hook)
        } else {
            keys_read(self.keys, readings)
        }
    }

    /// The keypad after a scan.
    pub open spec fn scanned(
        self,
        readings: Seq<bool>,
        hook_on: Option<bool>,
        now_ms: u64,
    ) -> KeypadModel {
        self.with_hook_seen(hook_on, now_ms).with_active(
            self.scanned_keys(readings, hook_on, now_ms),
        )
    }

    /// The events of a scan.
    pub open spec fn scan_events(
        self,
        readings: Seq<bool>,
        hook_on: Option<bool>,
        now_ms: u64,
    ) -> Seq<KeypadEvent> {
        self.events_of(self.scanned_keys(readings, hook_on, now_ms))
    }
}

/// A keypad whose keys are read row by row.
#[derive(Debug, Clone)]
pub struct MatrixKeypad {
    rows: usize,
    cols: usize,
    key_map: Vec<Key>,
    down: Vec<Key>,
    hook_last_active_ms: Option<u64>,
}

impl PartialEq for MatrixKeypad {
    fn eq(&self, other: &Self) -> (same: bool) {
        let same = self.rows == other.rows && self.cols == other.cols && same_keys(
            &self.key_map,
            &other.key_map,
        ) && holds_all(&self.down, &other.down) && holds_all(&other.down, &self.down)
            && self.hook_last_active_ms == other.hook_last_active_ms;
        proof {
            if same {
                assert(self.down@.to_set() =~= other.down@.to_set());
            } else {
                if self@ == other@ {
                    assert forall|key: Key| self.down@.contains(key) == other.down@.contains(
                        key,
                    ) by {
                        assert(self.down@.to_set().contains(key) == other.down@.to_set().contains(
                            key,
                        ));
                    }
                }
            }
        }
        same
    }
}

impl vstd::std_specs::cmp::PartialEqSpecImpl for MatrixKeypad {
    open spec fn obeys_eq_spec() -> bool {
        true
    }

    open spec fn eq_spec(&self, other: &Self) -> bool {
        self@ == other@
    }
}

impl Eq for MatrixKeypad {

}

/// Whether two lists hold the same keys in the same order.
fn same_keys(left: &[Key], right: &[Key]) -> (same: bool)
    ensures
        same == (left@ == right@),
{
    if left.len() != right.len() {
        return false;
    }
    let mut i: usize = 0;
    while i < left.len()
        invariant
            i <= left@.len() == right@.len(),
            forall|j: int| 0 <= j < i ==> left@[j] == right@[j],
        decreases left.len() - i,
    {
        if left[i] != right[i] {
            return false;
        }
        i += 1;
    }
    assert(left@ =~= right@);
    true
}

/// Whether every key of `part` is among `keys`.
fn holds_all(keys: &[Key], part: &[Key]) -> (all: bool)
    ensures
        all == (forall|key: Key| #[trigger] part@.contains(key) ==> keys@.contains(key)),
{
    let mut i: usize = 0;
    while i < part.len()
        invariant
            i <= part@.len(),
            forall|j: int| 0 <= j < i ==> keys@.contains(#[trigger] part@[j]),
        decreases part.len() - i,
    {
        if !holds_key(keys, part[i]) {
            assert(part@.contains(part@[i as int]));
            return false;
        }
        i += 1;
    }
    true
}

/// Whether a key is among keys.
pub fn holds_key(keys: &[Key], key: Key) -> (found: bool)
    ensures
        found == keys@.contains(key),
{
    let mut i: usize = 0;
    while i < keys.len()
        invariant
            i <= keys@.len(),
            forall|j: int| 0 <= j < i ==> keys@[j] != key,
        decreases keys.len() - i,
    {
        if keys[i] == key {
            return true;
        }
        i += 1;
    }
    false
}

/// The keys without those that came before.
fn distinct_keys(keys: &[Key]) -> (distinct: Vec<Key>)
    ensures
        distinct@.no_duplicates(),
        distinct@.to_set() == keys@.to_set(),
{
    let mut distinct: Vec<Key> = Vec::new();
    let mut i: usize = 0;
    while i < keys.len()
        invariant
            i <= keys@.len(),
            distinct@.no_duplicates(),
            forall|key: Key|
                #![trigger distinct@.contains(key)]
                #![trigger keys@.take(i as int).contains(key)]
                distinct@.contains(key) == keys@.take(i as int).contains(key),
        decreases keys.len() - i,
    {
        let key = keys[i];
        let known = holds_key(&distinct, key);
        let ghost before = distinct@;
        if !known {
            distinct.push(key);
        }
        proof {
            assert forall|other: Key| distinct@.contains(other) == keys@.take(i + 1).contains(
                other,
            ) by {
                let longer = keys@.take(i + 1);
                assert(longer =~= keys@.take(i as int).push(key));
                if before.contains(other) {
                    let k = choose|k: int| 0 <= k < before.len() && before[k] == other;
                    assert(distinct@[k] == other);
                    let m = choose|m: int|
                        0 <= m < keys@.take(i as int).len() && keys@.take(i as int)[m] == other;
                    assert(longer[m] == other);
                }
                if other == key {
                    assert(longer[i as int] == key);
                    if !known {
                        assert(distinct@[before.len() as int] == key);
                    }
                }
                if longer.contains(other) && other != key {
                    let m = choose|m: int| 0 <= m < longer.len() && longer[m] == other;
                    assert(keys@.take(i as int)[m] == other);
                }
                if distinct@.contains(other) && other != key {
                    let k = choose|k: int| 0 <= k < distinct@.len() && distinct@[k] == other;
                    assert(before[k] == other);
                }
            }
        }
        i += 1;
    }
    assert(keys@.take(i as int) =~= keys@);
    assert(distinct@.to_set() =~= keys@.to_set());
    distinct
}

impl MatrixKeypad {
    pub const GPIO_4X4_ROW_PINS: [u8; 4] = [21, 20, 16, 12];
    pub const GPIO_4X4_COL_PINS: [u8; 4] = [26, 19, 13, 6];
    pub const GPIO_4X4_HOOK_PIN: u8 = 5;
    pub const GPIO_5X5_ROW_PINS: [u8; 5] = [21, 20, 16, 12, 7];
    pub const GPIO_5X5_COL_PINS: [u8; 5] = [26, 19, 13, 6, 5];
    pub const GPIO_5X5_HOOK_PIN: u8 = 11;
    pub const SCAN_INTERVAL_MS: u64 = 20;
    pub const HOOK_DEBOUNCE_MS: u64 = 150;

    /// The keypad as a mathematical value.
    pub closed spec fn view(&self) -> KeypadModel {
        KeypadModel {
            rows: self.rows,
            cols: self.cols,
            keys: self.key_map@,
            down: self.down@.to_set(),
            hook_last_active_ms: self.hook_last_active_ms,
        }
    }

    /// What holds of every keypad.
    pub open spec fn wf(&self) -> bool {
        self@.sound()
    }

    /// A keypad of four rows of four keys.
    pub fn gpio_4x4() -> (keypad: Self)
        ensures
            keypad.wf(),
            keypad@ == KeypadModel::fresh(
                4,
                4,
                keys_4x4(),
            ),
    {
        let keys: [char; 16] = [
            '1',
            '2',
            '3',
            'A',
            '4',
            '5',
            '6',
            'B',
            '7',
            '8',
            '9',
            'C',
            '*',
            '0',
            '#',
            'D',
        ];
        assert(keys@.len() == 16);
        let keypad = MatrixKeypad::new(4, 4, &keys);
        assert(keypad@.keys =~= keys_4x4());
        keypad
    }

    /// A keypad of five rows of five keys.
    pub fn gpio_5x5() -> (keypad: Self)
        ensures
            keypad.wf(),
            keypad@ == KeypadModel::fresh(
                5,
                5,
                keys_5x5(),
            ),
    {
        let keys: [char; 25] = [
            'P',
            'R',
            'M',
            '-',
            '+',
            '1',
            '2',
            '3',
            'A',
            'B',
            '4',
            '5',
            '6',
            'C',
            'D',
            '7',
            '8',
            '9',
            'E',
            'F',
            '*',
            '0',
            '#',
            'N',
            'K',
        ];
        assert(keys@.len() == 25);
        let keypad = MatrixKeypad::new(5, 5, &keys);
        assert(keypad@.keys =~= keys_5x5());
        keypad
    }

    /// A keypad with the given keys, row by row, none of which is down.
    pub fn new(rows: usize, cols: usize, key_map: &[char]) -> (keypad: Self)
        requires
            rows * cols == key_map@.len(),
        ensures
            keypad.wf(),
            are_keys_of(keypad@.keys, key_map@),
            keypad@ == KeypadModel::fresh(rows, cols, keypad@.keys),
    {
        let mut keys: Vec<Key> = Vec::new();
        let mut i: usize = 0;
        while i < key_map.len()
            invariant
                i <= key_map@.len(),
                keys@.len() == i,
                forall|j: int| 0 <= j < i ==> keys@[j] == Key::Char(key_map@[j]),
            decreases key_map.len() - i,
        {
            keys.push(Key::Char(char_at(key_map, i)));
            i += 1;
        }
        let keypad = MatrixKeypad {
            rows,
            cols,
            key_map: keys,
            down: Vec::new(),
            hook_last_active_ms: None,
        };
        assert(keypad@.down =~= Set::<Key>::empty());
        keypad
    }

    /// The keypad with a hook.
    pub fn with_hook(self) -> (keypad: Self)
        requires
            self.wf(),
        ensures
            keypad.wf(),
            keypad@ == self@.hooked(),
    {
        if holds_key(&self.key_map, Key::Hook) {
            return self;
        }
        let ghost before = self@;
        let mut keypad = self;
        keypad.key_map.push(Key::Hook);
        proof {
            assert forall|key: Key| keypad@.down.contains(key) implies keypad@.keys.contains(
                key,
            ) by {
                assert(before.keys.contains(key));
                let i = choose|i: int| 0 <= i < before.keys.len() && before.keys[i] == key;
                assert(keypad@.keys[i] == key);
            }
        }
        keypad
    }

    /// How many rows there are.
    pub fn rows(&self) -> (rows: usize)
        ensures
            rows == self@.rows,
    {
        self.rows
    }

    /// How many keys each row has.
    pub fn cols(&self) -> (cols: usize)
        ensures
            cols == self@.cols,
    {
        self.cols
    }

    /// The key at a place, where there is one.
    pub fn key_at(&self, row: usize, col: usize) -> (key: Option<Key>)
        requires
            self.wf(),
        ensures
            key == self@.at(row as int, col as int),
    {
        if row >= self.rows || col >= self.cols {
            return None;
        }
        assert(row * self.cols + col < self.rows * self.cols) by (nonlinear_arith)
            requires
                row < self.rows,
                col < self.cols,
        ;
        assert(row * self.cols <= row * self.cols + col) by (nonlinear_arith)
            requires
                0 <= col,
        ;
        let count = self.key_map.len();
        assert(row * self.cols + col < count);
        Some(self.key_map[row * self.cols + col])
    }

    /// Whether a key is down.
    pub fn is_down(&self, key: Key) -> (down: bool)
        ensures
            down == self@.down.contains(key),
    {
        let down = holds_key(&self.down, key);
        assert(down == self.down@.to_set().contains(key));
        down
    }

    /// Whether a key is up.
    pub fn is_up(&self, key: Key) -> (up: bool)
        ensures
            up == !self@.down.contains(key),
    {
        !self.is_down(key)
    }

    /// Takes exactly these keys to be down, and tells which keys moved. With too many of them
    /// nothing changes.
    pub fn update_active_keys(&mut self, active_keys: &[Key]) -> (events: Vec<KeypadEvent>)
        requires
            old(self).wf(),
        ensures
            final(self).wf(),
            final(self)@ == old(self)@.with_active(active_keys@.to_set()),
            events@ == old(self)@.events_of(active_keys@.to_set()),
    {
        let distinct = distinct_keys(active_keys);
        let ghost active = active_keys@.to_set();
        proof {
            distinct@.unique_seq_to_set();
        }
        if distinct.len() > MAX_ACTIVE_KEYS {
            return Vec::new();
        }
        let ghost model = self@;
        let mut events: Vec<KeypadEvent> = Vec::new();
        let mut down: Vec<Key> = Vec::new();
        let mut i: usize = 0;
        while i < self.key_map.len()
            invariant
                i <= self.key_map@.len(),
                *self == *old(self),
                model == self@,
                active == active_keys@.to_set(),
                distinct@.to_set() == active,
                events@ == transitions(model.keys.take(i as int), model.down, active),
                forall|key: Key|
                    #![trigger down@.contains(key)]
                    down@.contains(key) == (model.keys.take(i as int).contains(key)
                        && active.contains(key)),
            decreases self.key_map.len() - i,
        {
            let key = self.key_map[i];
            let is_active = holds_key(&distinct, key);
            assert(is_active == active.contains(key)) by {
                assert(distinct@.to_set().contains(key) == distinct@.contains(key));
            }
            let was_active = self.is_down(key);
            let ghost shorter = model.keys.take(i as int);
            let ghost longer = model.keys.take(i + 1);
            assert(longer.drop_last() =~= shorter);
            assert(longer.last() == key);
            let seen = self.seen_before(i);
            if !seen && was_active != is_active {
                events.push(
                    KeypadEvent {
                        key,
                        transition: if is_active {
                            KeyTransition::Down
                        } else {
                            KeyTransition::Up
                        },
                    },
                );
            }
            let ghost down_before = down@;
            if is_active {
                down.push(key);
            }
            proof {
                assert forall|other: Key| down@.contains(other) == (longer.contains(other)
                    && active.contains(other)) by {
                    if down_before.contains(other) {
                        let k = choose|k: int| 0 <= k < down_before.len() && down_before[k] == other;
                        assert(down@[k] == other);
                        let m = choose|m: int| 0 <= m < shorter.len() && shorter[m] == other;
                        assert(longer[m] == other);
                    }
                    if other == key {
                        assert(longer[i as int] == key);
                        if is_active {
                            assert(down@[down_before.len() as int] == key);
                        }
                    }
                    if longer.contains(other) && other != key {
                        let m = choose|m: int| 0 <= m < longer.len() && longer[m] == other;
                        assert(shorter[m] == other);
                    }
                    if down@.contains(other) && other != key {
                        let k = choose|k: int| 0 <= k < down@.len() && down@[k] == other;
                        assert(down_before[k] == other);
                    }
                }
            }
            i += 1;
        }
        assert(model.keys.take(i as int) =~= model.keys);
        self.down = down;
        assert(self@.down =~= model.with_active(active).down);
        assert(self@ =~= model.with_active(active));
        events
    }

    /// Whether the key at a place of the key map has another place before.
    fn seen_before(&self, index: usize) -> (seen: bool)
        requires
            index < self.key_map@.len(),
        ensures
            seen == self.key_map@.take(index as int).contains(self.key_map@[index as int]),
    {
        let key = self.key_map[index];
        let ghost before = self.key_map@.take(index as int);
        let mut i: usize = 0;
        while i < index
            invariant
                i <= index < self.key_map@.len(),
                before == self.key_map@.take(index as int),
                key == self.key_map@[index as int],
                forall|j: int| 0 <= j < i ==> before[j] != key,
            decreases index - i,
        {
            if self.key_map[i] == key {
                assert(before[i as int] == key);
                return true;
            }
            i += 1;
        }
        false
    }

    /// Takes what was read of every key, row by row, and of the hook, and tells which keys
    /// moved. A hook that was just let go still counts as on for a while.
    pub fn apply_readings(
        &mut self,
        readings: &[bool],
        hook_on: Option<bool>,
        now_ms: u64,
    ) -> (events: Vec<KeypadEvent>)
        requires
            old(self).wf(),
            readings@.len() == old(self)@.rows * old(self)@.cols,
        ensures
            final(self).wf(),
            final(self)@ == old(self)@.scanned(readings@, hook_on, now_ms),
            events@ == old(self)@.scan_events(readings@, hook_on, now_ms),
    {
        let ghost model = self@;
        let mut active_keys: Vec<Key> = Vec::new();
        let mut i: usize = 0;
        while i < readings.len()
            invariant
                i <= readings@.len() <= self.key_map@.len(),
                *self == *old(self),
                model == self@,
                forall|key: Key|
                    #![trigger active_keys@.contains(key)]
                    active_keys@.contains(key) == keys_read(
                        model.keys,
                        readings@.take(i as int),
                    ).contains(key),
            decreases readings.len() - i,
        {
            let ghost before = active_keys@;
            let ghost shorter = readings@.take(i as int);
            let ghost longer = readings@.take(i + 1);
            let key = self.key_map[i];
            if readings[i] {
                active_keys.push(key);
            }
            proof {
                assert forall|other: Key| active_keys@.contains(other) == keys_read(
                    model.keys,
                    longer,
                ).contains(other) by {
                    if before.contains(other) {
                        let k = choose|k: int| 0 <= k < before.len() && before[k] == other;
                        assert(active_keys@[k] == other);
                        assert(keys_read(model.keys, shorter).contains(other));
                        let m = choose|m: int|
                            0 <= m < shorter.len() && m < model.keys.len() && #[trigger] shorter[m]
                                && model.keys[m] == other;
                        assert(longer[m] && model.keys[m] == other);
                    }
                    if readings@[i as int] && other == key {
                        assert(longer[i as int]);
                        assert(active_keys@[before.len() as int] == key);
                    }
                    if keys_read(model.keys, longer).contains(other) {
                        let m = choose|m: int|
                            0 <= m < longer.len() && m < model.keys.len() && #[trigger] longer[m]
                                && model.keys[m] == other;
                        if m < i {
                            assert(shorter[m] && model.keys[m] == other);
                        }
                    }
                    if active_keys@.contains(other) && !before.contains(other) {
                        let k = choose|k: int|
                            0 <= k < active_keys@.len() && active_keys@[k] == other;
                        if k < before.len() {
                            assert(before[k] == other);
                        }
                    }
                }
            }
            i += 1;
        }
        assert(readings@.take(i as int) =~= readings@);
        let ghost read = keys_read(model.keys, readings@);
        assert(active_keys@.to_set() =~= read);
        match hook_on {
            Some(true) => {
                let ghost before = active_keys@;
                active_keys.push(Key::Hook);
                assert(active_keys@.to_set() =~= before.to_set().insert(Key::Hook)) by {
                    lemma_pushed_set(before, Key::Hook);
                }
                self.hook_last_active_ms = Some(now_ms);
            },
            Some(false) => {
                if self.is_down(Key::Hook) {
                    let elapsed: u64 = match self.hook_last_active_ms {
                        Some(last) => now_ms.saturating_sub(last),
                        None => u64::MAX,
                    };
                    if elapsed < MatrixKeypad::HOOK_DEBOUNCE_MS {
                        let ghost before = active_keys@;
                        active_keys.push(Key::Hook);
                        assert(active_keys@.to_set() =~= before.to_set().insert(Key::Hook)) by {
                            lemma_pushed_set(before, Key::Hook);
                        }
                    } else {
                        self.hook_last_active_ms = Some(now_ms);
                    }
                }
            },
            None => {},
        }
        assert(self@ =~= model.with_hook_seen(hook_on, now_ms));
        assert(active_keys@.to_set() == model.scanned_keys(readings@, hook_on, now_ms));
        self.update_active_keys(&active_keys)
    }

    /// Reads every key by `read_col`, row by row, and tells which keys moved.
    pub fn scan_matrix_at<F: Fn(usize, usize) -> bool>(
        &mut self,
        read_col: F,
        hook_on: Option<bool>,
        now_ms: u64,
    ) -> (events: Vec<KeypadEvent>)
        requires
            old(self).wf(),
            forall|row: usize, col: usize|
                row < old(self)@.rows && col < old(self)@.cols ==> call_requires(
                    read_col,
                    (row, col),
                ),
        ensures
            final(self).wf(),
            exists|readings: Seq<bool>|
                {
                    &&& #[trigger] readings.len() == old(self)@.rows * old(self)@.cols
                    &&& forall|i: int|
                        0 <= i < readings.len() ==> call_ensures(
                            read_col,
                            (row_of(i, old(self)@.cols), col_of(i, old(self)@.cols)),
                            #[trigger] readings[i],
                        )
                    &&& final(self)@ == old(self)@.scanned(readings, hook_on, now_ms)
                    &&& events@ == old(self)@.scan_events(readings, hook_on, now_ms)
                },
    {
        let mut readings: Vec<bool> = Vec::new();
        let cells = self.cell_count();
        let mut i: usize = 0;
        while i < cells
            invariant
                i <= cells,
                cells == self@.rows * self@.cols,
                *self == *old(self),
                readings@.len() == i,
                forall|row: usize, col: usize|
                    row < self@.rows && col < self@.cols ==> call_requires(read_col, (row, col)),
                forall|j: int|
                    0 <= j < i ==> call_ensures(
                        read_col,
                        (row_of(j, self@.cols), col_of(j, self@.cols)),
                        #[trigger] readings@[j],
                    ),
            decreases cells - i,
        {
            proof {
                lemma_cell_place(i as int, self@.rows as int, self@.cols as int);
            }
            let row = i / self.cols;
            let col = i % self.cols;
            let reading = read_col(row, col);
            readings.push(reading);
            i += 1;
        }
        let events = self.apply_readings(&readings, hook_on, now_ms);
        assert(readings@.len() == old(self)@.rows * old(self)@.cols);
        events
    }

    /// How many places for keys there are.
    fn cell_count(&self) -> (count: usize)
        requires
            self.wf(),
        ensures
            count == self@.rows * self@.cols,
    {
        let _ = self.key_map.len();
        self.rows * self.cols
    }
}

/// The row of a place, counted row by row.
pub open spec fn row_of(place: int, cols: usize) -> usize {
    (place / cols as int) as usize
}

/// The column of a place, counted row by row.
pub open spec fn col_of(place: int, cols: usize) -> usize {
    (place % cols as int) as usize
}

proof fn lemma_cell_place(place: int, rows: int, cols: int)
    requires
        0 <= place < rows * cols,
        0 <= rows,
        0 <= cols,
    ensures
        cols > 0,
        0 <= place / cols < rows,
        0 <= place % cols < cols,
{
    assert(cols > 0) by (nonlinear_arith)
        requires
            0 <= place < rows * cols,
            0 <= cols,
    ;
    assert(0 <= place / cols < rows) by (nonlinear_arith)
        requires
            0 <= place < rows * cols,
            cols > 0,
    ;
}

proof fn lemma_pushed_set(keys: Seq<Key>, key: Key)
    ensures
        keys.push(key).to_set() == keys.to_set().insert(key),
{
    let longer = keys.push(key);
    assert forall|other: Key| longer.to_set().contains(other) == keys.to_set().insert(key).contains(
        other,
    ) by {
        if keys.contains(other) {
            let k = choose|k: int| 0 <= k < keys.len() && keys[k] == other;
            assert(longer[k] == other);
        }
        if other == key {
            assert(longer[keys.len() as int] == key);
        }
        if longer.contains(other) && other != key {
            let k = choose|k: int| 0 <= k < longer.len() && longer[k] == other;
            assert(keys[k] == other);
        }
    }
    assert(longer.to_set() =~= keys.to_set().insert(key));
}

/// Whether `keys` are the keys with the characters of `chars`.
pub open spec fn are_keys_of(keys: Seq<Key>, chars: Seq<char>) -> bool {
    &&& keys.len() == chars.len()
    &&& forall|i: int| 0 <= i < chars.len() ==> #[trigger] keys[i] == Key::Char(chars[i])
}

/// The keys of the keypad with four rows of four.
pub open spec fn keys_4x4() -> Seq<Key> {
    seq![
        Key::Char('1'),
        Key::Char('2'),
        Key::Char('3'),
        Key::Char('A'),
        Key::Char('4'),
        Key::Char('5'),
        Key::Char('6'),
        Key::Char('B'),
        Key::Char('7'),
        Key::Char('8'),
        Key::Char('9'),
        Key::Char('C'),
        Key::Char('*'),
        Key::Char('0'),
        Key::Char('#'),
        Key::Char('D'),
    ]
}

/// The keys of the keypad with five rows of five.
pub open spec fn keys_5x5() -> Seq<Key> {
    seq![
        Key::Char('P'),
        Key::Char('R'),
        Key::Char('M'),
        Key::Char('-'),
        Key::Char('+'),
        Key::Char('1'),
        Key::Char('2'),
        Key::Char('3'),
        Key::Char('A'),
        Key::Char('B'),
        Key::Char('4'),
        Key::Char('5'),
        Key::Char('6'),
        Key::Char('C'),
        Key::Char('D'),
        Key::Char('7'),
        Key::Char('8'),
        Key::Char('9'),
        Key::Char('E'),
        Key::Char('F'),
        Key::Char('*'),
        Key::Char('0'),
        Key::Char('#'),
        Key::Char('N'),
        Key::Char('K'),
    ]
}

impl KeypadModel {
    /// A keypad none of whose keys is down.
    pub open spec fn fresh(rows: usize, cols: usize, keys: Seq<Key>) -> KeypadModel {
        KeypadModel {
            rows,
            cols,
            keys,
            down: Set::empty(),
            hook_last_active_ms: None,
        }
    }

    /// The keypad with a hook.
    pub open spec fn hooked(self) -> KeypadModel {
        if self.keys.contains(Key::Hook) {
            self
        } else {
            KeypadModel { keys: self.keys.push(Key::Hook), ..self }
        }
    }
}

/// Where the keys of a keypad are read.
pub trait MatrixKeypadBackend: Sized {
    /// Whether reading a place can give `reading` and leave the backend as `after`.
    open spec fn reads(self, row: usize, col: usize, reading: bool, after: Self) -> bool {
        true
    }

    /// Whether reading the hook can give `hook_on` and leave the backend as `after`.
    open spec fn reads_hook(self, hook_on: Option<bool>, after: Self) -> bool {
        true
    }

    /// Whether the key at a place is down.
    fn read_col(&mut self, row: usize, col: usize) -> (reading: bool)
        ensures
            old(self).reads(row, col, reading, *final(self)),
    ;

    /// Whether the hook is on, where there is one.
    fn hook_on(&mut self) -> (hook_on: Option<bool>)
        ensures
            old(self).reads_hook(hook_on, *final(self)),
    ;
}

/// Whether reading the places one after another can give `readings` and lead from one state of
/// a backend to another.
pub open spec fn reads_all<B: MatrixKeypadBackend>(
    before: B,
    cols: usize,
    readings: Seq<bool>,
    after: B,
) -> bool
    decreases readings.len(),
{
    if readings.len() == 0 {
        after == before
    } else {
        let place = readings.len() - 1;
        exists|middle: B|
            {
                &&& reads_all(before, cols, readings.drop_last(), middle)
                &&& #[trigger] middle.reads(
                    row_of(place, cols),
                    col_of(place, cols),
                    readings.last(),
                    after,
                )
            }
    }
}

/// A keypad and where its keys are read.
#[derive(Debug, Clone)]
pub struct MatrixKeypadScanner<B> {
    pub keypad: MatrixKeypad,
    pub backend: B,
}

impl<B> MatrixKeypadScanner<B> {
    /// A keypad that is read by `backend`.
    pub fn new(keypad: MatrixKeypad, backend: B) -> (scanner: Self)
        ensures
            scanner.keypad == keypad,
            scanner.backend == backend,
    {
        MatrixKeypadScanner { keypad, backend }
    }

    /// The keypad.
    pub fn keypad(&self) -> (keypad: &MatrixKeypad)
        ensures
            *keypad == self.keypad,
    {
        &self.keypad
    }

    /// The keypad, to be changed in place.
    pub fn keypad_mut(&mut self) -> (keypad: &mut MatrixKeypad)
        ensures
            *keypad == old(self).keypad,
            *final(self) == (MatrixKeypadScanner { keypad: *final(keypad), ..*old(self) }),
    {
        &mut self.keypad
    }

    /// Where the keys are read.
    pub fn backend(&self) -> (backend: &B)
        ensures
            *backend == self.backend,
    {
        &self.backend
    }

    /// Where the keys are read, to be changed in place.
    pub fn backend_mut(&mut self) -> (backend: &mut B)
        ensures
            *backend == old(self).backend,
            *final(self) == (MatrixKeypadScanner { backend: *final(backend), ..*old(self) }),
    {
        &mut self.backend
    }

    /// The keypad and where its keys are read.
    pub fn into_parts(self) -> (parts: (MatrixKeypad, B))
        ensures
            parts == (self.keypad, self.backend),
    {
        (self.keypad, self.backend)
    }
}

impl<B: MatrixKeypadBackend> MatrixKeypadScanner<B> {
    /// Reads the hook, then every key row by row, and tells which keys moved.
    pub fn poll_at(&mut self, now_ms: u64) -> (events: Vec<KeypadEvent>)
        requires
            old(self).keypad.wf(),
        ensures
            final(self).keypad.wf(),
            exists|hook_on: Option<bool>, middle: B, readings: Seq<bool>|
                {
                    &&& #[trigger] old(self).backend.reads_hook(hook_on, middle)
                    &&& readings.len() == old(self).keypad@.rows * old(self).keypad@.cols
                    &&& #[trigger] reads_all(
                        middle,
                        old(self).keypad@.cols,
                        readings,
                        final(self).backend,
                    )
                    &&& final(self).keypad@ == old(self).keypad@.scanned(readings, hook_on, now_ms)
                    &&& events@ == old(self).keypad@.scan_events(readings, hook_on, now_ms)
                },
    {
        let hook_on = self.backend.hook_on();
        let ghost middle = self.backend;
        let mut readings: Vec<bool> = Vec::new();
        let cells = self.keypad.cell_count();
        let cols = self.keypad.cols();
        let mut i: usize = 0;
        while i < cells
            invariant
                i <= cells,
                cells == self.keypad@.rows * self.keypad@.cols,
                cols == self.keypad@.cols,
                self.keypad == old(self).keypad,
                readings@.len() == i,
                old(self).backend.reads_hook(hook_on, middle),
                reads_all(middle, cols, readings@, self.backend),
            decreases cells - i,
        {
            proof {
                lemma_cell_place(i as int, self.keypad@.rows as int, self.keypad@.cols as int);
            }
            let row = i / cols;
            let col = i % cols;
            let ghost before = self.backend;
            let ghost shorter = readings@;
            let reading = self.backend.read_col(row, col);
            readings.push(reading);
            proof {
                assert(readings@.drop_last() =~= shorter);
                assert(before.reads(
                    row_of(i as int, cols),
                    col_of(i as int, cols),
                    readings@.last(),
                    self.backend,
                ));
            }
            i += 1;
        }
        let events = self.keypad.apply_readings(&readings, hook_on, now_ms);
        assert(old(self).backend.reads_hook(hook_on, middle));
        assert(reads_all(middle, old(self).keypad@.cols, readings@, self.backend));
        events
    }
}

/// What the events of a change tell is what changed: a key is down afterwards exactly if it
/// was told to go down, or was down and was not told to go up.
pub proof fn law_events_tell_the_change(keypad: KeypadModel, active: Set<Key>, key: Key)
    requires
        keypad.sound(),
    ensures
        keypad.with_active(active).down.contains(key) == (keypad.events_of(active).contains(
            KeypadEvent { key, transition: KeyTransition::Down },
        ) || (keypad.down.contains(key) && !keypad.events_of(active).contains(
            KeypadEvent { key, transition: KeyTransition::Up },
        ))),
{
    if active.len() <= MAX_ACTIVE_KEYS {
        lemma_transitions(keypad.keys, keypad.down, active, key);
    } else {
        assert forall|event: KeypadEvent| !keypad.events_of(active).contains(event) by {}
    }
}

proof fn lemma_transitions(keys: Seq<Key>, down: Set<Key>, active: Set<Key>, key: Key)
    ensures
        transitions(keys, down, active).contains(
            KeypadEvent { key, transition: KeyTransition::Down },
        ) == (keys.contains(key) && active.contains(key) && !down.contains(key)),
        transitions(keys, down, active).contains(
            KeypadEvent { key, transition: KeyTransition::Up },
        ) == (keys.contains(key) && !active.contains(key) && down.contains(key)),
    decreases keys.len(),
{
    if keys.len() > 0 {
        let rest = keys.drop_last();
        lemma_transitions(rest, down, active, key);
        let before = transitions(rest, down, active);
        let after = transitions(keys, down, active);
        if keys.contains(key) && !rest.contains(key) {
            let i = choose|i: int| 0 <= i < keys.len() && keys[i] == key;
            if i < rest.len() {
                assert(rest[i] == key);
            }
            assert(keys.last() == key);
        }
        if rest.contains(key) {
            let i = choose|i: int| 0 <= i < rest.len() && rest[i] == key;
            assert(keys[i] == key);
        }
        if keys.last() == key {
            assert(keys[keys.len() - 1] == key);
        }
        assert forall|event: KeypadEvent| after.contains(event) == (before.contains(event) || (
        after.len() > before.len() && event == after.last())) by {
            if before.contains(event) {
                let i = choose|i: int| 0 <= i < before.len() && before[i] == event;
                assert(after[i] == event);
            }
            if after.len() > before.len() && event == after.last() {
                assert(after[after.len() - 1] == event);
            }
            if after.contains(event) {
                let i = choose|i: int| 0 <= i < after.len() && after[i] == event;
                if i < before.len() {
                    assert(before[i] == event);
                }
            }
        }
    }
}

/// Reading the same again brings no events.
pub proof fn law_settled_keys_bring_no_events(keypad: KeypadModel, active: Set<Key>)
    requires
        keypad.sound(),
        active.len() <= MAX_ACTIVE_KEYS,
    ensures
        keypad.with_active(active).events_of(active) == Seq::<KeypadEvent>::empty(),
{
    let after = keypad.with_active(active);
    lemma_settled(after.keys, after.down, active);
}

proof fn lemma_settled(keys: Seq<Key>, down: Set<Key>, active: Set<Key>)
    requires
        forall|key: Key| #[trigger] keys.contains(key) ==> down.contains(key) == active.contains(key),
    ensures
        transitions(keys, down, active) == Seq::<KeypadEvent>::empty(),
    decreases keys.len(),
{
    if keys.len() > 0 {
        let rest = keys.drop_last();
        assert forall|key: Key| #[trigger] rest.contains(key) implies down.contains(key)
            == active.contains(key) by {
            let i = choose|i: int| 0 <= i < rest.len() && rest[i] == key;
            assert(keys[i] == key);
            assert(keys.contains(key));
        }
        lemma_settled(rest, down, active);
        assert(keys.contains(keys.last()));
    }
}

proof fn lemma_hook_comes_last(keys: Seq<Key>, down: Set<Key>, active: Set<Key>)
    requires
        keys.len() > 0,
        keys.last() == Key::Hook,
        !keys.drop_last().contains(Key::Hook),
    ensures
        ({
            let events = transitions(keys, down, active);
            if down.contains(Key::Hook) == active.contains(Key::Hook) {
                no_hook_event(events)
            } else {
                &&& events.len() > 0
                &&& no_hook_event(events.drop_last())
                &&& events.last().key == Key::Hook
                &&& (events.last().transition == KeyTransition::Down) == active.contains(Key::Hook)
            }
        }),
{
    let rest = keys.drop_last();
    let before = transitions(rest, down, active);
    lemma_transitions(rest, down, active, Key::Hook);
    assert forall|i: int| 0 <= i < before.len() implies (#[trigger] before[i]).key
        != Key::Hook by {
        assert(before.contains(before[i]));
    }
    if down.contains(Key::Hook) != active.contains(Key::Hook) {
        assert(transitions(keys, down, active).drop_last() =~= before);
    }
}

/// Whether no event is one of the hook.
pub open spec fn no_hook_event(events: Seq<KeypadEvent>) -> bool {
    forall|i: int| 0 <= i < events.len() ==> (#[trigger] events[i]).key != Key::Hook
}

/// Whether exactly one event is one of the hook, that it moved so, and it comes last.
pub open spec fn one_hook_event(events: Seq<KeypadEvent>, transition: KeyTransition) -> bool {
    &&& events.len() > 0
    &&& events.last() == KeypadEvent { key: Key::Hook, transition }
    &&& no_hook_event(events.drop_last())
}

/// After every scan whose keys can be told apart the hook is down exactly if it counts as on;
/// exactly one event tells that it moved, after those of the keys, and none that it did not.
pub proof fn law_hook_moves_last(
    keypad: KeypadModel,
    readings: Seq<bool>,
    hook_on: Option<bool>,
    now_ms: u64,
)
    requires
        keypad.sound(),
        keypad.keys.contains(Key::Hook),
        readings.len() == keypad.rows * keypad.cols,
        keypad.scanned_keys(readings, hook_on, now_ms).len() <= MAX_ACTIVE_KEYS,
    ensures
        ({
            let counts = keypad.hook_counts(hook_on, now_ms);
            let events = keypad.scan_events(readings, hook_on, now_ms);
            &&& keypad.scanned(readings, hook_on, now_ms).down.contains(Key::Hook) == counts
            &&& if keypad.down.contains(Key::Hook) == counts {
                no_hook_event(events)
            } else if counts {
                one_hook_event(events, KeyTransition::Down)
            } else {
                one_hook_event(events, KeyTransition::Up)
            }
        }),
{
    let keys = keypad.keys;
    let place = choose|i: int| 0 <= i < keys.len() && keys[i] == Key::Hook;
    assert(keys.len() == keypad.rows * keypad.cols + 1);
    assert forall|i: int| 0 <= i < keys.len() - 1 implies #[trigger] keys.drop_last()[i]
        != Key::Hook by {
        assert(keys[i] != Key::Hook);
    }
    assert(!keys_read(keys, readings).contains(Key::Hook));
    lemma_hook_comes_last(
        keys,
        keypad.down,
        keypad.scanned_keys(readings, hook_on, now_ms),
    );
}

/// Three keys of the matrix can always be told apart, whatever the hook does.
pub proof fn law_three_keys_can_be_told_apart(
    keypad: KeypadModel,
    readings: Seq<bool>,
    hook_on: Option<bool>,
    now_ms: u64,
)
    requires
        keys_read(keypad.keys, readings).len() <= 3,
    ensures
        keypad.scanned_keys(readings, hook_on, now_ms).len() <= MAX_ACTIVE_KEYS,
{
    let read = keys_read(keypad.keys, readings);
    assert forall|key: Key| read.contains(key) implies keypad.keys.to_set().contains(key) by {
        let i = choose|i: int|
            0 <= i < readings.len() && i < keypad.keys.len() && #[trigger] readings[i]
                && keypad.keys[i] == key;
        assert(keypad.keys[i] == key);
    }
    assert(read.subset_of(keypad.keys.to_set()));
    keypad.keys.lemma_cardinality_of_set();
    vstd::set_lib::lemma_len_subset(read, keypad.keys.to_set());
    if read.contains(Key::Hook) {
        assert(read.insert(Key::Hook) =~= read);
    }
}

/// A hook that is let go stays on until the debounce time is over, whatever keys are read
/// meanwhile, as long as they can be told apart: before that no event is one of the hook, from
/// then on exactly one is, that it went up, and it comes after those of the keys. That the hook
/// went down is told in the same way, unless it was down.
pub proof fn law_hook_is_debounced(
    keypad: KeypadModel,
    first: Seq<bool>,
    on_ms: u64,
    second: Seq<bool>,
    off_ms: u64,
)
    requires
        keypad.sound(),
        keypad.keys.contains(Key::Hook),
        first.len() == keypad.rows * keypad.cols,
        second.len() == keypad.rows * keypad.cols,
        on_ms <= off_ms,
        keypad.scanned_keys(first, Some(true), on_ms).len() <= MAX_ACTIVE_KEYS,
        keypad.scanned(first, Some(true), on_ms).scanned_keys(second, Some(false), off_ms).len()
            <= MAX_ACTIVE_KEYS,
    ensures
        ({
            let on = keypad.scanned(first, Some(true), on_ms);
            let on_events = keypad.scan_events(first, Some(true), on_ms);
            let off = on.scanned(second, Some(false), off_ms);
            let off_events = on.scan_events(second, Some(false), off_ms);
            &&& on.down.contains(Key::Hook)
            &&& if keypad.down.contains(Key::Hook) {
                no_hook_event(on_events)
            } else {
                one_hook_event(on_events, KeyTransition::Down)
            }
            &&& if off_ms - on_ms < MatrixKeypad::HOOK_DEBOUNCE_MS {
                off.down.contains(Key::Hook) && no_hook_event(off_events)
            } else {
                !off.down.contains(Key::Hook) && one_hook_event(off_events, KeyTransition::Up)
            }
        }),
{
    let on = keypad.scanned(first, Some(true), on_ms);
    law_hook_moves_last(keypad, first, Some(true), on_ms);
    assert(on.hook_last_active_ms == Some(on_ms));
    law_hook_moves_last(on, second, Some(false), off_ms);
}

/// A key counts as pressed exactly where one of its contacts is closed.
pub proof fn law_closed_contacts_are_keys(keys: Seq<Key>, readings: Seq<bool>, key: Key)
    ensures
        keys_read(keys, readings).contains(key) <==> exists|place: int|
            {
                &&& 0 <= place < readings.len()
                &&& place < keys.len()
                &&& #[trigger] readings[place]
                &&& keys[place] == key
            },
{
}

/// Up to four keys that are pressed at once are all down, and no others; with more than four
/// nothing changes and nothing is told.
pub proof fn law_four_keys_can_be_pressed(keypad: KeypadModel, active: Set<Key>, key: Key)
    ensures
        active.len() <= 4 ==> (keypad.with_active(active).down.contains(key) <==> (
        keypad.keys.contains(key) && active.contains(key))),
        active.len() > 4 ==> keypad.with_active(active) == keypad,
        active.len() > 4 ==> keypad.events_of(active).len() == 0,
        keypad.with_active(active).keys == keypad.keys,
        keypad.with_active(active).rows == keypad.rows,
        keypad.with_active(active).cols == keypad.cols,
        keypad.with_active(active).hook_last_active_ms == keypad.hook_last_active_ms,
{
}

/// The keys stand row by row: the contact of a row and a column is the one that is read for it.
pub proof fn law_contacts_are_read_row_by_row(place: int, cols: usize, rows: usize)
    requires
        cols > 0,
        0 <= place < rows * cols,
    ensures
        row_of(place, cols) < rows,
        col_of(place, cols) < cols,
        row_of(place, cols) * cols + col_of(place, cols) == place,
{
    let row = place / cols as int;
    vstd::arithmetic::div_mod::lemma_fundamental_div_mod(place, cols as int);
    assert(0 <= row < rows) by (nonlinear_arith)
        requires
            place == cols * row + place % (cols as int),
            0 <= place % (cols as int) < cols,
            0 <= place < rows * cols,
            cols > 0,
    ;
    assert(row * cols == cols * row) by (nonlinear_arith);
}

/// A receiver that is let go counts as down for less than 150 milliseconds after it was last
/// seen down; one that is down counts at once, and a keypad without one has none.
pub proof fn law_receiver_counts_a_while(keypad: KeypadModel, now_ms: u64)
    ensures
        keypad.hook_counts(Some(true), now_ms),
        !keypad.hook_counts(None, now_ms),
        !keypad.down.contains(Key::Hook) ==> !keypad.hook_counts(Some(false), now_ms),
        keypad.down.contains(Key::Hook) ==> (keypad.hook_last_active_ms matches Some(last)
            ==> last <= now_ms ==> (keypad.hook_counts(Some(false), now_ms) <==> now_ms - last
            < 150)),
        keypad.hook_last_active_ms is None ==> !keypad.hook_counts(Some(false), now_ms),
{
}

/// When the receiver was last seen down is noted whenever it is; letting it go notes nothing
/// until it counts as up.
pub proof fn law_receiver_is_noted(keypad: KeypadModel, hook_on: Option<bool>, now_ms: u64)
    ensures
        hook_on == Some(true) ==> keypad.with_hook_seen(hook_on, now_ms).hook_last_active_ms
            == Some(now_ms),
        hook_on is None ==> keypad.with_hook_seen(hook_on, now_ms) == keypad,
        hook_on == Some(false) && keypad.hook_counts(hook_on, now_ms) ==> keypad.with_hook_seen(
            hook_on,
            now_ms,
        ) == keypad,
        hook_on == Some(false) && !keypad.down.contains(Key::Hook) ==> keypad.with_hook_seen(
            hook_on,
            now_ms,
        ) == keypad,
        hook_on == Some(false) && keypad.down.contains(Key::Hook) && !keypad.hook_counts(
            hook_on,
            now_ms,
        ) ==> keypad.with_hook_seen(hook_on, now_ms).hook_last_active_ms == Some(now_ms),
        keypad.with_hook_seen(hook_on, now_ms).down == keypad.down,
        keypad.with_hook_seen(hook_on, now_ms).keys == keypad.keys,
{
}

/// A scan finds the keys whose contacts are closed, and the receiver where it counts as down.
pub proof fn law_scan_finds_keys_and_receiver(
    keypad: KeypadModel,
    readings: Seq<bool>,
    hook_on: Option<bool>,
    now_ms: u64,
    key: Key,
)
    requires
        key is Char,
    ensures
        keypad.scanned_keys(readings, hook_on, now_ms).contains(key) <==> keys_read(
            keypad.keys,
            readings,
        ).contains(key),
        keypad.hook_counts(hook_on, now_ms) ==> keypad.scanned_keys(
            readings,
            hook_on,
            now_ms,
        ).contains(Key::Hook),
        !keypad.keys.contains(Key::Hook) && !keypad.hook_counts(hook_on, now_ms)
            ==> !keypad.scanned_keys(readings, hook_on, now_ms).contains(Key::Hook),
{
}

/// A keypad gets its receiver behind its other keys, and only once.
pub proof fn law_receiver_is_added_once(keypad: KeypadModel)
    ensures
        keypad.hooked().keys.contains(Key::Hook),
        keypad.hooked().hooked() == keypad.hooked(),
        !keypad.keys.contains(Key::Hook) ==> keypad.hooked().keys.drop_last() == keypad.keys
            && keypad.hooked().keys.last() == Key::Hook,
        keypad.keys.contains(Key::Hook) ==> keypad.hooked() == keypad,
        keypad.hooked().down == keypad.down,
{
    if !keypad.keys.contains(Key::Hook) {
        assert(keypad.keys.push(Key::Hook).drop_last() =~= keypad.keys);
        assert(keypad.hooked().keys[keypad.keys.len() as int] == Key::Hook);
    }
}

/// The contacts are read one after another, each at its row and column, and the board is left as
/// the last reading left it.
pub proof fn law_contacts_are_read_in_order<B: MatrixKeypadBackend>(
    before: B,
    cols: usize,
    readings: Seq<bool>,
    middle: B,
    reading: bool,
    after: B,
)
    requires
        cols > 0,
        reads_all(before, cols, readings, middle),
        middle.reads(
            (readings.len() as int / cols as int) as usize,
            (readings.len() as int % cols as int) as usize,
            reading,
            after,
        ),
    ensures
        reads_all(before, cols, readings.push(reading), after),
        reads_all(before, cols, Seq::empty(), before),
{
    let all = readings.push(reading);
    assert(all.drop_last() =~= readings);
    assert(middle.reads(
        row_of(all.len() - 1, cols),
        col_of(all.len() - 1, cols),
        all.last(),
        after,
    ));
}

} // verus!
