//! Character displays of two rows of sixteen characters.
use crate::text::{char_at, chars_of, text_of};
use vstd::prelude::*;

verus! {

/// What a display shows, as a mathematical value.
#[verifier::ext_equal]
pub struct LcdModel {
    pub top: Seq<char>,
    pub bottom: Seq<char>,
    pub sleeping: bool,
}

/// A row with no characters but spaces.
pub open spec fn blank_row() -> Seq<char> {
    seq![' ', ' ', ' ', ' ', ' ', ' ', ' ', ' ', ' ', ' ', ' ', ' ', ' ', ' ', ' ', ' ']
}

/// Whether `after` is `row` with `text` written over it from column `col` to the end of the
/// row: what is too long is cut off, and what is left is filled with spaces.
pub open spec fn is_printed(row: Seq<char>, text: Seq<char>, col: int, after: Seq<char>) -> bool {
    &&& after.len() == row.len()
    &&& forall|i: int|
        0 <= i < row.len() ==> #[trigger] after[i] == (if i < col {
            row[i]
        } else if i - col < text.len() {
            text[i - col]
        } else {
            ' '
        })
}

impl LcdModel {
    /// What holds of every display: both rows are full.
    pub open spec fn sound(self) -> bool {
        self.top.len() == Lcd1602Buffer::COLS && self.bottom.len() == Lcd1602Buffer::COLS
    }

    /// The display with both rows blank.
    pub open spec fn cleared(self) -> LcdModel {
        LcdModel { top: blank_row(), bottom: blank_row(), ..self }
    }

    /// The display awake, and blank if it slept.
    pub open spec fn woken(self) -> LcdModel {
        if self.sleeping {
            LcdModel { sleeping: false, ..self.cleared() }
        } else {
            self
        }
    }

    /// Whether printing a text at a place leads from one display to another: the display is
    /// awake, and the row, the last one where there is no such row, is written over from the
    /// column, the last one where there is no such column.
    pub open spec fn prints(self, text: Seq<char>, x: int, y: int, after: LcdModel) -> bool {
        let awake = self.woken();
        let col = if x < Lcd1602Buffer::COLS {
            x
        } else {
            Lcd1602Buffer::COLS - 1
        };
        &&& after.sleeping == awake.sleeping
        &&& if y == 0 {
            is_printed(awake.top, text, col, after.top) && after.bottom == awake.bottom
        } else {
            is_printed(awake.bottom, text, col, after.bottom) && after.top == awake.top
        }
    }
}

/// A display that only keeps what it would show.
#[derive(Debug, PartialEq, Eq)]
pub struct Lcd1602Buffer {
    top: String,
    bottom: String,
    sleeping: bool,
}

/// A row with no characters but spaces.
fn blank_lcd_row() -> (row: String)
    ensures
        row@ == blank_row(),
{
    let row = "                ".to_owned();
    proof {
        reveal_strlit("                ");
        assert(row@ =~= blank_row());
    }
    row
}

/// A row written over with a text.
fn print_row(row: &str, value: &str, col: usize) -> (after: String)
    ensures
        is_printed(row@, value@, col as int, after@),
{
    let old_chars = chars_of(row);
    let new_chars = chars_of(value);
    let mut after = String::new();
    let mut i: usize = 0;
    while i < old_chars.len()
        invariant
            i <= old_chars@.len(),
            old_chars@ == row@,
            new_chars@ == value@,
            after@.len() == i,
            forall|j: int|
                0 <= j < i ==> #[trigger] after@[j] == (if j < col {
                    row@[j]
                } else if j - col < value@.len() {
                    value@[j - col]
                } else {
                    ' '
                }),
        decreases old_chars.len() - i,
    {
        let ch = if i < col {
            char_at(&old_chars, i)
        } else if i - col < new_chars.len() {
            char_at(&new_chars, i - col)
        } else {
            ' '
        };
        after.push(ch);
        i += 1;
    }
    after
}

impl Lcd1602Buffer {
    pub const COLS: usize = 16;
    pub const ROWS: usize = 2;
    pub const DEFAULT_ADDR: u8 = 0x27;
    pub const DEFAULT_I2C_CH: u8 = 1;

    /// What the display shows.
    pub closed spec fn view(&self) -> LcdModel {
        LcdModel { top: self.top@, bottom: self.bottom@, sleeping: self.sleeping }
    }

    /// What holds of every display.
    pub open spec fn wf(&self) -> bool {
        self@.sound()
    }

    /// A display that is awake and blank.
    pub fn new() -> (lcd: Self)
        ensures
            lcd.wf(),
            lcd@ == (LcdModel { top: blank_row(), bottom: blank_row(), sleeping: false }),
    {
        Lcd1602Buffer { top: blank_lcd_row(), bottom: blank_lcd_row(), sleeping: false }
    }

    /// Prints a text at a place. A display that sleeps is woken first.
    pub fn print(&mut self, value: &str, x: usize, y: usize)
        requires
            old(self).wf(),
        ensures
            final(self).wf(),
            old(self)@.prints(value@, x as int, y as int, final(self)@),
    {
        if self.sleeping {
            self.wake();
        }
        let col: usize = if x < Lcd1602Buffer::COLS {
            x
        } else {
            Lcd1602Buffer::COLS - 1
        };
        if y == 0 {
            self.top = print_row(self.top.as_str(), value, col);
        } else {
            self.bottom = print_row(self.bottom.as_str(), value, col);
        }
    }

    /// Blanks both rows.
    pub fn clear(&mut self)
        ensures
            final(self).wf(),
            final(self)@ == old(self)@.cleared(),
    {
        self.top = blank_lcd_row();
        self.bottom = blank_lcd_row();
    }

    /// Puts the display to sleep, blank.
    pub fn sleep(&mut self)
        ensures
            final(self).wf(),
            final(self)@ == (LcdModel { sleeping: true, ..old(self)@.cleared() }),
    {
        self.sleeping = true;
        self.clear();
    }

    /// Wakes the display, blank.
    pub fn wake(&mut self)
        ensures
            final(self).wf(),
            final(self)@ == (LcdModel { sleeping: false, ..old(self)@.cleared() }),
    {
        self.sleeping = false;
        self.clear();
    }

    /// Whether the display sleeps.
    pub fn is_sleeping(&self) -> (sleeping: bool)
        ensures
            sleeping == self@.sleeping,
    {
        self.sleeping
    }

    /// A row, where there is one.
    pub fn row(&self, row: usize) -> (text: Option<&str>)
        ensures
            match text {
                Some(text) => (row == 0 && text@ == self@.top) || (row == 1 && text@
                    == self@.bottom),
                None => row >= Lcd1602Buffer::ROWS,
            },
    {
        if row == 0 {
            Some(self.top.as_str())
        } else if row == 1 {
            Some(self.bottom.as_str())
        } else {
            None
        }
    }
}

impl Default for Lcd1602Buffer {
    fn default() -> (lcd: Self)
        ensures
            lcd.wf(),
            lcd@ == (LcdModel { top: blank_row(), bottom: blank_row(), sleeping: false }),
    {
        Lcd1602Buffer::new()
    }
}

impl Clone for Lcd1602Buffer {
    fn clone(&self) -> (copy: Self)
        ensures
            copy@ == self@,
    {
        Lcd1602Buffer {
            top: self.top.clone(),
            bottom: self.bottom.clone(),
            sleeping: self.sleeping,
        }
    }
}

/// A display that texts are printed on.
pub trait Lcd1602Display {
    /// What holds of every display of this kind.
    open spec fn sound(&self) -> bool {
        arbitrary()
    }

    /// Whether the display sleeps.
    open spec fn asleep(&self) -> bool {
        arbitrary()
    }

    /// Prints a text at a place. A display that sleeps is woken.
    fn print(&mut self, value: &str, x: usize, y: usize)
        requires
            old(self).sound(),
        ensures
            final(self).sound(),
            !final(self).asleep(),
    ;

    /// Blanks the display.
    fn clear(&mut self)
        requires
            old(self).sound(),
        ensures
            final(self).sound(),
            !old(self).asleep() ==> !final(self).asleep(),
    ;

    /// Puts the display to sleep.
    fn sleep(&mut self)
        requires
            old(self).sound(),
        ensures
            final(self).sound(),
            final(self).asleep(),
    ;

    /// Wakes the display.
    fn wake(&mut self)
        requires
            old(self).sound(),
        ensures
            final(self).sound(),
            !final(self).asleep(),
    ;

    /// Whether the display sleeps.
    fn is_sleeping(&self) -> (sleeping: bool)
        ensures
            sleeping == self.asleep(),
    ;
}

impl Lcd1602Display for Lcd1602Buffer {
    open spec fn sound(&self) -> bool {
        self.wf()
    }

    open spec fn asleep(&self) -> bool {
        self@.sleeping
    }

    fn print(&mut self, value: &str, x: usize, y: usize)
        ensures
            old(self)@.prints(value@, x as int, y as int, final(self)@),
    {
        Lcd1602Buffer::print(self, value, x, y);
    }

    fn clear(&mut self)
        ensures
            final(self)@ == old(self)@.cleared(),
    {
        Lcd1602Buffer::clear(self);
    }

    fn sleep(&mut self)
        ensures
            final(self)@ == (LcdModel { sleeping: true, ..old(self)@.cleared() }),
    {
        Lcd1602Buffer::sleep(self);
    }

    fn wake(&mut self)
        ensures
            final(self)@ == (LcdModel { sleeping: false, ..old(self)@.cleared() }),
    {
        Lcd1602Buffer::wake(self);
    }

    fn is_sleeping(&self) -> (sleeping: bool) {
        Lcd1602Buffer::is_sleeping(self)
    }
}

/// A display in front of a buffer.
#[derive(Debug, Clone, PartialEq, Eq)]
pub struct BufferedLcd1602 {
    pub buffer: Lcd1602Buffer,
}

impl Default for BufferedLcd1602 {
    fn default() -> (lcd: Self)
        ensures
            lcd.buffer.wf(),
            lcd.buffer@ == (LcdModel { top: blank_row(), bottom: blank_row(), sleeping: false }),
    {
        BufferedLcd1602::new()
    }
}

impl BufferedLcd1602 {
    /// A display that is awake and blank.
    pub fn new() -> (lcd: Self)
        ensures
            lcd.buffer.wf(),
            lcd.buffer@ == (LcdModel { top: blank_row(), bottom: blank_row(), sleeping: false }),
    {
        BufferedLcd1602 { buffer: Lcd1602Buffer::new() }
    }

    /// The buffer.
    pub fn buffer(&self) -> (buffer: &Lcd1602Buffer)
        ensures
            *buffer == self.buffer,
    {
        &self.buffer
    }

    /// The buffer, to be changed in place.
    pub fn buffer_mut(&mut self) -> (buffer: &mut Lcd1602Buffer)
        ensures
            *buffer == old(self).buffer,
            *final(self) == (BufferedLcd1602 { buffer: *final(buffer) }),
    {
        &mut self.buffer
    }

    /// The buffer.
    pub fn into_buffer(self) -> (buffer: Lcd1602Buffer)
        ensures
            buffer == self.buffer,
    {
        self.buffer
    }
}

impl Lcd1602Display for BufferedLcd1602 {
    open spec fn sound(&self) -> bool {
        self.buffer.wf()
    }

    open spec fn asleep(&self) -> bool {
        self.buffer@.sleeping
    }

    fn print(&mut self, value: &str, x: usize, y: usize)
        ensures
            old(self).buffer@.prints(value@, x as int, y as int, final(self).buffer@),
    {
        self.buffer.print(value, x, y);
    }

    fn clear(&mut self)
        ensures
            final(self).buffer@ == old(self).buffer@.cleared(),
    {
        self.buffer.clear();
    }

    fn sleep(&mut self)
        ensures
            final(self).buffer@ == (LcdModel { sleeping: true, ..old(self).buffer@.cleared() }),
    {
        self.buffer.sleep();
    }

    fn wake(&mut self)
        ensures
            final(self).buffer@ == (LcdModel { sleeping: false, ..old(self).buffer@.cleared() }),
    {
        self.buffer.wake();
    }

    fn is_sleeping(&self) -> (sleeping: bool) {
        self.buffer.is_sleeping()
    }
}

/// What is done on the bus of a display.
pub enum BusStep {
    /// A byte is written.
    Byte(u8),
    /// The pulse time is waited for.
    Pulse,
}

/// The bus of a display.
pub trait Lcd1602Bus: Sized {
    type Error;

    /// What was done on the bus, in order, with what failed.
    open spec fn steps(&self) -> Seq<BusStep> {
        arbitrary()
    }

    /// An error as text.
    open spec fn error_text(error: Self::Error) -> Seq<char> {
        arbitrary()
    }

    /// Whether writing a byte can come out this way and lead from one bus to another.
    open spec fn writes(self, byte: u8, written: Result<(), Self::Error>, after: Self) -> bool {
        true
    }

    /// Whether waiting for the pulse time can lead from one bus to another.
    open spec fn waits(self, after: Self) -> bool {
        true
    }

    /// Writes a byte.
    fn write_byte(&mut self, byte: u8) -> (written: Result<(), Self::Error>)
        ensures
            old(self).writes(byte, written, *final(self)),
            final(self).steps() == old(self).steps().push(BusStep::Byte(byte)),
    ;

    /// Waits for the pulse time.
    fn wait_pulse(&mut self)
        ensures
            old(self).waits(*final(self)),
            final(self).steps() == old(self).steps().push(BusStep::Pulse),
    ;

    /// An error as text.
    fn error_message(error: &Self::Error) -> (text: String)
        ensures
            text@ == Self::error_text(*error),
    ;
}

/// The steps that bring half a byte to a display.
pub open spec fn nibble_steps(nibble: u8, mode: u8, backlight: u8) -> Seq<BusStep> {
    seq![
        BusStep::Byte((nibble | mode | LCD_FLAG_ENABLE) | backlight),
        BusStep::Pulse,
        BusStep::Byte((nibble | mode) | backlight),
    ]
}

/// The upper half of a byte, in the place where a display reads it.
pub open spec fn upper_nibble(value: u8) -> u8 {
    value & 0xF0
}

/// The lower half of a byte, in the place where a display reads it.
pub open spec fn lower_nibble(value: u8) -> u8 {
    (value & 0x0F) << 4u8
}

/// The steps that bring a byte to a display.
pub open spec fn byte_steps(value: u8, mode: u8, backlight: u8) -> Seq<BusStep> {
    nibble_steps(upper_nibble(value), mode, backlight) + nibble_steps(
        lower_nibble(value),
        mode,
        backlight,
    )
}

/// The steps that set a display up.
pub open spec fn init_steps(backlight: u8) -> Seq<BusStep> {
    byte_steps(0x33, 0x00, backlight) + byte_steps(0x32, 0x00, backlight) + byte_steps(
        0x28,
        0x00,
        backlight,
    ) + byte_steps(0x0C, 0x00, backlight) + byte_steps(0x01, 0x00, backlight)
}

/// The steps that print the characters from `start` on, sixteen in all, with spaces behind the
/// text.
pub open spec fn char_steps(text: Seq<char>, start: int, backlight: u8) -> Seq<BusStep>
    decreases Lcd1602Buffer::COLS - start,
{
    if start >= Lcd1602Buffer::COLS {
        Seq::empty()
    } else {
        byte_steps(
            if start < text.len() {
                text[start] as u8
            } else {
                ' ' as u8
            },
            0x01,
            backlight,
        ) + char_steps(text, start + 1, backlight)
    }
}

/// The command that moves to a place, the last row or column where there is no such one.
pub open spec fn place_command(x: int, y: int) -> u8 {
    let row = if y < Lcd1602Buffer::ROWS {
        y
    } else {
        Lcd1602Buffer::ROWS - 1
    };
    let col = if x < Lcd1602Buffer::COLS {
        x
    } else {
        Lcd1602Buffer::COLS - 1
    };
    (0x80 + 0x40 * row + col) as u8
}

/// The steps that print a text. A display whose light is off is set up anew first.
pub open spec fn print_steps(text: Seq<char>, x: int, y: int, backlight: u8) -> Seq<BusStep> {
    let before = if backlight == LCD_BACKLIGHT_OFF {
        init_steps(LCD_BACKLIGHT_ON)
    } else {
        Seq::empty()
    };
    let light = if backlight == LCD_BACKLIGHT_OFF {
        LCD_BACKLIGHT_ON
    } else {
        backlight
    };
    before + byte_steps(place_command(x, y), 0x00, light) + char_steps(text, 0, light)
}

/// The light of a display that was written to: one that was off is on.
pub open spec fn lit(backlight: u8) -> u8 {
    if backlight == LCD_BACKLIGHT_OFF {
        LCD_BACKLIGHT_ON
    } else {
        backlight
    }
}

/// The steps that blank both rows: an empty text is printed in each.
pub open spec fn clear_steps(backlight: u8) -> Seq<BusStep> {
    print_steps(Seq::empty(), 0, 0, backlight) + print_steps(Seq::empty(), 0, 1, lit(backlight))
}

/// Whether doing `steps` led from `before` to `after`: all of them where nothing failed, else
/// those up to the one that failed.
pub open spec fn did_steps(
    before: Seq<BusStep>,
    steps: Seq<BusStep>,
    done: bool,
    after: Seq<BusStep>,
) -> bool {
    if done {
        after == before + steps
    } else {
        exists|count: int|
            0 < count <= steps.len() && after == before + #[trigger] steps.take(count)
    }
}

/// What failed, if anything did.
pub open spec fn failure_of<E>(outcome: Result<(), E>) -> Option<E> {
    match outcome {
        Ok(_) => None,
        Err(error) => Some(error),
    }
}

/// Whether doing `steps` one after another can come out this way and lead from one bus to
/// another: the first byte that is not written ends it with the error of the bus, and where
/// every byte is written nothing fails.
pub open spec fn bus_runs<B: Lcd1602Bus>(
    bus: B,
    steps: Seq<BusStep>,
    failure: Option<B::Error>,
    after: B,
) -> bool
    decreases steps.len(),
{
    if steps.len() == 0 {
        failure is None && after == bus
    } else {
        match steps[0] {
            BusStep::Byte(byte) => exists|written: Result<(), B::Error>, next: B|
                {
                    &&& #[trigger] bus.writes(byte, written, next)
                    &&& next.steps() == bus.steps().push(steps[0])
                    &&& match written {
                        Ok(_) => bus_runs(next, steps.skip(1), failure, after),
                        Err(error) => failure == Some(error) && after == next,
                    }
                },
            BusStep::Pulse => exists|next: B|
                {
                    &&& #[trigger] bus.waits(next)
                    &&& next.steps() == bus.steps().push(steps[0])
                    &&& bus_runs(next, steps.skip(1), failure, after)
                },
        }
    }
}

/// Whether doing `steps` one after another can fail with an error.
pub open spec fn bus_fails<B: Lcd1602Bus>(bus: B, steps: Seq<BusStep>, error: B::Error) -> bool {
    exists|after: B| #[trigger] bus_runs(bus, steps, Some(error), after)
}

proof fn lemma_byte_runs<B: Lcd1602Bus>(
    bus: B,
    steps: Seq<BusStep>,
    byte: u8,
    written: Result<(), B::Error>,
    next: B,
    failure: Option<B::Error>,
    after: B,
)
    requires
        steps.len() > 0,
        steps[0] == BusStep::Byte(byte),
        bus.writes(byte, written, next),
        next.steps() == bus.steps().push(steps[0]),
        match written {
            Ok(_) => bus_runs(next, steps.skip(1), failure, after),
            Err(error) => failure == Some(error) && after == next,
        },
    ensures
        bus_runs(bus, steps, failure, after),
{
    assert(steps[0]->Byte_0 == byte);
    assert(bus_runs(bus, steps, failure, after) == exists|found: Result<(), B::Error>, last: B|
        {
            &&& #[trigger] bus.writes(byte, found, last)
            &&& last.steps() == bus.steps().push(steps[0])
            &&& match found {
                Ok(_) => bus_runs(last, steps.skip(1), failure, after),
                Err(error) => failure == Some(error) && after == last,
            }
        });
}

proof fn lemma_runs_joined<B: Lcd1602Bus>(
    bus: B,
    first: Seq<BusStep>,
    middle: B,
    second: Seq<BusStep>,
    failure: Option<B::Error>,
    after: B,
)
    requires
        bus_runs(bus, first, None, middle),
        bus_runs(middle, second, failure, after),
    ensures
        bus_runs(bus, first + second, failure, after),
    decreases first.len(),
{
    if first.len() == 0 {
        assert(first + second =~= second);
    } else {
        let rest = first.skip(1);
        assert((first + second).skip(1) =~= rest + second);
        match first[0] {
            BusStep::Byte(byte) => {
                let (written, next) = choose|written: Result<(), B::Error>, next: B|
                    {
                        &&& #[trigger] bus.writes(byte, written, next)
                        &&& next.steps() == bus.steps().push(first[0])
                        &&& match written {
                            Ok(_) => bus_runs(next, rest, None, middle),
                            Err(_) => false,
                        }
                    };
                lemma_runs_joined(next, rest, middle, second, failure, after);
                assert(bus.writes(byte, written, next));
            },
            BusStep::Pulse => {
                let next = choose|next: B|
                    {
                        &&& #[trigger] bus.waits(next)
                        &&& next.steps() == bus.steps().push(first[0])
                        &&& bus_runs(next, rest, None, middle)
                    };
                lemma_runs_joined(next, rest, middle, second, failure, after);
                assert(bus.waits(next));
            },
        }
    }
}

proof fn lemma_runs_ended<B: Lcd1602Bus>(
    bus: B,
    first: Seq<BusStep>,
    second: Seq<BusStep>,
    failure: Option<B::Error>,
    after: B,
)
    requires
        bus_runs(bus, first, failure, after),
        failure is Some,
    ensures
        bus_runs(bus, first + second, failure, after),
    decreases first.len(),
{
    if first.len() > 0 {
        let rest = first.skip(1);
        assert((first + second).skip(1) =~= rest + second);
        match first[0] {
            BusStep::Byte(byte) => {
                let (written, next) = choose|written: Result<(), B::Error>, next: B|
                    {
                        &&& #[trigger] bus.writes(byte, written, next)
                        &&& next.steps() == bus.steps().push(first[0])
                        &&& match written {
                            Ok(_) => bus_runs(next, rest, failure, after),
                            Err(error) => failure == Some(error) && after == next,
                        }
                    };
                if written is Ok {
                    lemma_runs_ended(next, rest, second, failure, after);
                }
                assert(bus.writes(byte, written, next));
            },
            BusStep::Pulse => {
                let next = choose|next: B|
                    {
                        &&& #[trigger] bus.waits(next)
                        &&& next.steps() == bus.steps().push(first[0])
                        &&& bus_runs(next, rest, failure, after)
                    };
                lemma_runs_ended(next, rest, second, failure, after);
                assert(bus.waits(next));
            },
        }
    }
}

/// What was done on the bus is what was to be done, up to the step that failed.
pub proof fn law_bus_does_its_steps<B: Lcd1602Bus>(
    bus: B,
    steps: Seq<BusStep>,
    failure: Option<B::Error>,
    after: B,
)
    requires
        bus_runs(bus, steps, failure, after),
    ensures
        did_steps(bus.steps(), steps, failure is None, after.steps()),
    decreases steps.len(),
{
    let before = bus.steps();
    if steps.len() == 0 {
        assert(before + steps =~= before);
    } else {
        let rest = steps.skip(1);
        let first = steps.take(1);
        match steps[0] {
            BusStep::Byte(byte) => {
                let (written, next) = choose|written: Result<(), B::Error>, next: B|
                    {
                        &&& #[trigger] bus.writes(byte, written, next)
                        &&& next.steps() == bus.steps().push(steps[0])
                        &&& match written {
                            Ok(_) => bus_runs(next, rest, failure, after),
                            Err(error) => failure == Some(error) && after == next,
                        }
                    };
                assert(next.steps() =~= before + first);
                if written is Ok {
                    law_bus_does_its_steps(next, rest, failure, after);
                    lemma_steps_joined(before, first, rest, failure is None, after.steps());
                    assert(first + rest =~= steps);
                }
            },
            BusStep::Pulse => {
                let next = choose|next: B|
                    {
                        &&& #[trigger] bus.waits(next)
                        &&& next.steps() == bus.steps().push(steps[0])
                        &&& bus_runs(next, rest, failure, after)
                    };
                assert(next.steps() =~= before + first);
                law_bus_does_its_steps(next, rest, failure, after);
                lemma_steps_joined(before, first, rest, failure is None, after.steps());
                assert(first + rest =~= steps);
            },
        }
    }
}

proof fn lemma_steps_joined(
    before: Seq<BusStep>,
    first: Seq<BusStep>,
    second: Seq<BusStep>,
    done: bool,
    after: Seq<BusStep>,
)
    requires
        did_steps(before + first, second, done, after),
    ensures
        did_steps(before, first + second, done, after),
{
    let all = first + second;
    if done {
        assert((before + first) + second =~= before + all);
    } else {
        let count = choose|count: int|
            0 < count <= second.len() && after == (before + first) + #[trigger] second.take(count);
        assert(all.take(first.len() + count) =~= first + second.take(count));
        assert(before + all.take(first.len() + count) =~= (before + first) + second.take(count));
    }
}

/// The light is on.
pub const LCD_BACKLIGHT_ON: u8 = 0x08;

/// The light is off.
pub const LCD_BACKLIGHT_OFF: u8 = 0x00;

/// The flag that makes a display read.
pub const LCD_FLAG_ENABLE: u8 = 0x04;

/// A display on a bus.
#[derive(Debug, Clone)]
pub struct I2cLcd1602<B> {
    pub bus: B,
    pub backlight: u8,
    pub last_error: Option<String>,
}

impl<B> I2cLcd1602<B> {
    pub const MODE_CMD: u8 = 0x00;
    pub const MODE_CHR: u8 = 0x01;
    pub const ROW_1: u8 = 0x80;
    pub const ROW_2: u8 = 0xC0;
    pub const BACKLIGHT_ON: u8 = 0x08;
    pub const BACKLIGHT_OFF: u8 = 0x00;
    pub const FLAG_ENABLE: u8 = 0x04;
    pub const FLAG_RS: u8 = 0x01;
    pub const CMD_INIT1: u8 = 0x33;
    pub const CMD_INIT2: u8 = 0x32;
    pub const CMD_CLEAR: u8 = 0x01;

    /// How long a pulse takes, in microseconds.
    pub const T_PULSE_US: u64 = 500;

    /// The bus.
    pub fn bus(&self) -> (bus: &B)
        ensures
            *bus == self.bus,
    {
        &self.bus
    }

    /// The bus, to be changed in place.
    pub fn bus_mut(&mut self) -> (bus: &mut B)
        ensures
            *bus == old(self).bus,
            *final(self) == (I2cLcd1602 { bus: *final(bus), ..*old(self) }),
    {
        &mut self.bus
    }

    /// The bus.
    pub fn into_bus(self) -> (bus: B)
        ensures
            bus == self.bus,
    {
        self.bus
    }

    /// What failed last, as text.
    pub fn last_error(&self) -> (error: Option<&str>)
        ensures
            match error {
                Some(error) => self.last_error is Some && error@ == self.last_error->0@,
                None => self.last_error is None,
            },
    {
        match &self.last_error {
            Some(error) => Some(error.as_str()),
            None => None,
        }
    }
}

impl<B: Lcd1602Bus> I2cLcd1602<B> {
    /// A display that is set up, with its light on. Where a byte is not written there is the
    /// error of the bus instead.
    pub fn new(bus: B) -> (display: Result<Self, B::Error>)
        ensures
            display matches Ok(display) ==> {
                &&& bus_runs(bus, init_steps(LCD_BACKLIGHT_ON), None, display.bus)
                &&& display.bus.steps() == bus.steps() + init_steps(LCD_BACKLIGHT_ON)
                &&& display.backlight == LCD_BACKLIGHT_ON
                &&& display.last_error is None
            },
            display matches Err(error) ==> bus_fails(bus, init_steps(LCD_BACKLIGHT_ON), error),
    {
        let mut display = I2cLcd1602 { bus, backlight: LCD_BACKLIGHT_ON, last_error: None };
        match display.init_display() {
            Ok(()) => {
                proof {
                    let steps = init_steps(LCD_BACKLIGHT_ON);
                    law_bus_does_its_steps(bus, steps, None, display.bus);
                }
                Ok(display)
            },
            Err(error) => {
                assert(bus_fails(bus, init_steps(LCD_BACKLIGHT_ON), error)) by {
                    assert(bus_runs(bus, init_steps(LCD_BACKLIGHT_ON), Some(error), display.bus));
                }
                Err(error)
            },
        }
    }

    /// Whether a call ran `steps` on the bus, up to the one that failed and with its error,
    /// and left the light as given.
    pub open spec fn after_steps(
        self,
        steps: Seq<BusStep>,
        backlight: u8,
        outcome: Result<(), B::Error>,
        after: Self,
    ) -> bool {
        &&& bus_runs(self.bus, steps, failure_of(outcome), after.bus)
        &&& after.backlight == backlight
        &&& after.last_error == self.last_error
    }

    /// Whether a call ran `steps` on the bus, up to the one that failed, left the light as
    /// given, and keeps the text of what failed, if anything did.
    pub open spec fn noted_steps(self, steps: Seq<BusStep>, backlight: u8, after: Self) -> bool {
        exists|failure: Option<B::Error>|
            {
                &&& #[trigger] bus_runs(self.bus, steps, failure, after.bus)
                &&& after.backlight == backlight
                &&& match failure {
                    None => after.last_error is None,
                    Some(error) => after.last_error matches Some(text) && text@ == B::error_text(
                        error,
                    ),
                }
            }
    }

    /// Prints a text at a place.
    pub fn try_print(&mut self, value: &str, x: usize, y: usize) -> (outcome: Result<(), B::Error>)
        ensures
            old(self).after_steps(
                print_steps(value@, x as int, y as int, old(self).backlight),
                lit(old(self).backlight),
                outcome,
                *final(self),
            ),
    {
        let ghost bus = self.bus;
        let ghost init = if self.backlight == LCD_BACKLIGHT_OFF {
            init_steps(LCD_BACKLIGHT_ON)
        } else {
            Seq::empty()
        };
        let ghost light = lit(self.backlight);
        let ghost place = byte_steps(place_command(x as int, y as int), 0x00, light);
        let ghost chars_part = char_steps(value@, 0, light);
        if self.backlight == LCD_BACKLIGHT_OFF {
            match self.try_wake() {
                Ok(()) => {},
                Err(error) => {
                    proof {
                        lemma_runs_ended(bus, init, place, Some(error), self.bus);
                        lemma_runs_ended(bus, init + place, chars_part, Some(error), self.bus);
                    }
                    return Err(error);
                },
            }
        }
        let ghost awake = self.bus;
        assert(bus_runs(bus, init, None, awake));
        let row: u8 = if y == 0 {
            0
        } else {
            1
        };
        let col: u8 = if x < Lcd1602Buffer::COLS {
            x as u8
        } else {
            15
        };
        let command: u8 = 0x80 + 0x40 * row + col;
        assert(command == place_command(x as int, y as int));
        match self.send_command(command) {
            Ok(()) => {},
            Err(error) => {
                proof {
                    lemma_runs_joined(bus, init, awake, place, Some(error), self.bus);
                    lemma_runs_ended(bus, init + place, chars_part, Some(error), self.bus);
                }
                return Err(error);
            },
        }
        let chars = chars_of(value);
        let mut done: Ghost<Seq<BusStep>> = Ghost(Seq::empty());
        let mut i: usize = 0;
        proof {
            lemma_runs_joined(bus, init, awake, place, None, self.bus);
            assert((init + place) + done@ =~= init + place);
            assert(done@ + char_steps(value@, 0, light) =~= chars_part);
        }
        while i < Lcd1602Buffer::COLS
            invariant
                i <= Lcd1602Buffer::COLS,
                chars@ == value@,
                bus == old(self).bus,
                bus_runs(bus, (init + place) + done@, None, self.bus),
                init + place + chars_part == print_steps(
                    value@,
                    x as int,
                    y as int,
                    old(self).backlight,
                ),
                done@ + char_steps(value@, i as int, light) == chars_part,
                self.backlight == light,
                light == lit(old(self).backlight),
                self.last_error == old(self).last_error,
            decreases Lcd1602Buffer::COLS - i,
        {
            let data: u8 = if i < chars.len() {
                let ch = char_at(&chars, i);
                low_byte(ch)
            } else {
                low_byte(' ')
            };
            let ghost part = byte_steps(data, 0x01, light);
            let ghost rest = char_steps(value@, i + 1, light);
            let ghost reached = (init + place) + done@;
            let ghost before = self.bus;
            assert(char_steps(value@, i as int, light) == part + rest);
            match self.send_data(data) {
                Ok(()) => {},
                Err(error) => {
                    proof {
                        lemma_runs_joined(bus, reached, before, part, Some(error), self.bus);
                        lemma_runs_ended(bus, reached + part, rest, Some(error), self.bus);
                        assert((reached + part) + rest =~= init + place + (done@ + (part + rest)));
                    }
                    return Err(error);
                },
            }
            proof {
                lemma_runs_joined(bus, reached, before, part, None, self.bus);
                assert(reached + part =~= (init + place) + (done@ + part));
                assert((done@ + part) + rest =~= done@ + (part + rest));
                done@ = done@ + part;
            }
            i += 1;
        }
        assert(done@ =~= chars_part);
        Ok(())
    }

    /// Blanks both rows.
    pub fn try_clear(&mut self) -> (outcome: Result<(), B::Error>)
        ensures
            old(self).after_steps(
                clear_steps(old(self).backlight),
                lit(old(self).backlight),
                outcome,
                *final(self),
            ),
    {
        let ghost bus = self.bus;
        let ghost light = lit(self.backlight);
        let ghost first = print_steps(Seq::empty(), 0, 0, self.backlight);
        let ghost second = print_steps(Seq::empty(), 0, 1, light);
        proof {
            reveal_strlit("");
            assert(""@ =~= Seq::<char>::empty());
        }
        match self.try_print("", 0, 0) {
            Ok(()) => {},
            Err(error) => {
                proof {
                    lemma_runs_ended(bus, first, second, Some(error), self.bus);
                }
                return Err(error);
            },
        }
        let ghost middle = self.bus;
        let outcome = self.try_print("", 0, 1);
        proof {
            lemma_runs_joined(bus, first, middle, second, failure_of(outcome), self.bus);
        }
        outcome
    }

    /// Blanks the display and turns its light off.
    pub fn try_sleep(&mut self) -> (outcome: Result<(), B::Error>)
        ensures
            old(self).after_steps(
                byte_steps(0x01, 0x00, LCD_BACKLIGHT_OFF),
                LCD_BACKLIGHT_OFF,
                outcome,
                *final(self),
            ),
    {
        self.backlight = LCD_BACKLIGHT_OFF;
        self.send_command(0x01)
    }

    /// Sets the display up anew, with its light on.
    pub fn try_wake(&mut self) -> (outcome: Result<(), B::Error>)
        ensures
            old(self).after_steps(
                init_steps(LCD_BACKLIGHT_ON),
                LCD_BACKLIGHT_ON,
                outcome,
                *final(self),
            ),
    {
        self.backlight = LCD_BACKLIGHT_ON;
        self.init_display()
    }

    fn init_display(&mut self) -> (outcome: Result<(), B::Error>)
        ensures
            old(self).after_steps(
                init_steps(old(self).backlight),
                old(self).backlight,
                outcome,
                *final(self),
            ),
    {
        let commands: [u8; 5] = [0x33, 0x32, 0x28, 0x0C, 0x01];
        let ghost bus = self.bus;
        let ghost light = self.backlight;
        let ghost p0 = byte_steps(0x33, 0x00, light);
        let ghost p1 = byte_steps(0x32, 0x00, light);
        let ghost p2 = byte_steps(0x28, 0x00, light);
        let ghost p3 = byte_steps(0x0C, 0x00, light);
        let ghost p4 = byte_steps(0x01, 0x00, light);
        match self.send_command(commands[0]) {
            Ok(()) => {},
            Err(error) => {
                proof {
                    lemma_runs_ended(bus, p0, p1, Some(error), self.bus);
                    lemma_runs_ended(bus, p0 + p1, p2, Some(error), self.bus);
                    lemma_runs_ended(bus, p0 + p1 + p2, p3, Some(error), self.bus);
                    lemma_runs_ended(bus, p0 + p1 + p2 + p3, p4, Some(error), self.bus);
                }
                return Err(error);
            },
        }
        let ghost bus1 = self.bus;
        match self.send_command(commands[1]) {
            Ok(()) => {},
            Err(error) => {
                proof {
                    lemma_runs_joined(bus, p0, bus1, p1, Some(error), self.bus);
                    lemma_runs_ended(bus, p0 + p1, p2, Some(error), self.bus);
                    lemma_runs_ended(bus, p0 + p1 + p2, p3, Some(error), self.bus);
                    lemma_runs_ended(bus, p0 + p1 + p2 + p3, p4, Some(error), self.bus);
                }
                return Err(error);
            },
        }
        let ghost bus2 = self.bus;
        proof {
            lemma_runs_joined(bus, p0, bus1, p1, None, bus2);
        }
        match self.send_command(commands[2]) {
            Ok(()) => {},
            Err(error) => {
                proof {
                    lemma_runs_joined(bus, p0 + p1, bus2, p2, Some(error), self.bus);
                    lemma_runs_ended(bus, p0 + p1 + p2, p3, Some(error), self.bus);
                    lemma_runs_ended(bus, p0 + p1 + p2 + p3, p4, Some(error), self.bus);
                }
                return Err(error);
            },
        }
        let ghost bus3 = self.bus;
        proof {
            lemma_runs_joined(bus, p0 + p1, bus2, p2, None, bus3);
        }
        match self.send_command(commands[3]) {
            Ok(()) => {},
            Err(error) => {
                proof {
                    lemma_runs_joined(bus, p0 + p1 + p2, bus3, p3, Some(error), self.bus);
                    lemma_runs_ended(bus, p0 + p1 + p2 + p3, p4, Some(error), self.bus);
                }
                return Err(error);
            },
        }
        let ghost bus4 = self.bus;
        proof {
            lemma_runs_joined(bus, p0 + p1 + p2, bus3, p3, None, bus4);
        }
        let outcome = self.send_command(commands[4]);
        proof {
            lemma_runs_joined(bus, p0 + p1 + p2 + p3, bus4, p4, failure_of(outcome), self.bus);
        }
        outcome
    }

    fn send_command(&mut self, command: u8) -> (outcome: Result<(), B::Error>)
        ensures
            old(self).after_steps(
                byte_steps(command, 0x00, old(self).backlight),
                old(self).backlight,
                outcome,
                *final(self),
            ),
    {
        self.send_nibbles(command, 0x00)
    }

    fn send_data(&mut self, data: u8) -> (outcome: Result<(), B::Error>)
        ensures
            old(self).after_steps(
                byte_steps(data, 0x01, old(self).backlight),
                old(self).backlight,
                outcome,
                *final(self),
            ),
    {
        self.send_nibbles(data, 0x01)
    }

    fn send_nibbles(&mut self, value: u8, mode: u8) -> (outcome: Result<(), B::Error>)
        ensures
            old(self).after_steps(
                byte_steps(value, mode, old(self).backlight),
                old(self).backlight,
                outcome,
                *final(self),
            ),
    {
        let ghost bus = self.bus;
        let ghost first = nibble_steps(upper_nibble(value), mode, self.backlight);
        let ghost second = nibble_steps(lower_nibble(value), mode, self.backlight);
        match self.send_nibble(value & 0xF0, mode) {
            Ok(()) => {},
            Err(error) => {
                proof {
                    lemma_runs_ended(bus, first, second, Some(error), self.bus);
                }
                return Err(error);
            },
        }
        let ghost middle = self.bus;
        let outcome = self.send_nibble((value & 0x0F) << 4u8, mode);
        proof {
            lemma_runs_joined(bus, first, middle, second, failure_of(outcome), self.bus);
        }
        outcome
    }

    fn send_nibble(&mut self, nibble: u8, mode: u8) -> (outcome: Result<(), B::Error>)
        ensures
            old(self).after_steps(
                nibble_steps(nibble, mode, old(self).backlight),
                old(self).backlight,
                outcome,
                *final(self),
            ),
    {
        let ghost steps = nibble_steps(nibble, mode, self.backlight);
        let ghost bus = self.bus;
        let ghost upper = (nibble | mode | LCD_FLAG_ENABLE) | self.backlight;
        let ghost lower = (nibble | mode) | self.backlight;
        let raising = self.send_byte(nibble | mode | LCD_FLAG_ENABLE);
        let ghost raised = self.bus;
        match raising {
            Ok(()) => {},
            Err(error) => {
                proof {
                    lemma_byte_runs(bus, steps, upper, raising, raised, Some(error), raised);
                }
                return Err(error);
            },
        }
        self.bus.wait_pulse();
        let ghost waited = self.bus;
        let outcome = self.send_byte(nibble | mode);
        proof {
            let failure = failure_of(outcome);
            let last = steps.skip(1).skip(1);
            lemma_byte_runs(waited, last, lower, outcome, self.bus, failure, self.bus);
            assert(raised.waits(waited));
            assert(bus_runs(raised, steps.skip(1), failure, self.bus));
            lemma_byte_runs(bus, steps, upper, raising, raised, failure, self.bus);
        }
        outcome
    }

    fn send_byte(&mut self, byte: u8) -> (outcome: Result<(), B::Error>)
        ensures
            final(self).bus.steps() == old(self).bus.steps().push(
                BusStep::Byte(byte | old(self).backlight),
            ),
            final(self).backlight == old(self).backlight,
            final(self).last_error == old(self).last_error,
            old(self).bus.writes(byte | old(self).backlight, outcome, final(self).bus),
    {
        self.bus.write_byte(byte | self.backlight)
    }

    /// Keeps what failed, or that nothing did.
    fn note(&mut self, outcome: Result<(), B::Error>)
        ensures
            final(self).bus == old(self).bus,
            final(self).backlight == old(self).backlight,
            match outcome {
                Ok(_) => final(self).last_error is None,
                Err(error) => final(self).last_error is Some && final(self).last_error->0@
                    == B::error_text(error),
            },
    {
        self.last_error = match outcome {
            Ok(()) => None,
            Err(error) => Some(B::error_message(&error)),
        };
    }
}

/// The byte that stands for a character on a display: its lowest eight bits.
fn low_byte(ch: char) -> (byte: u8)
    ensures
        byte == ch as u8,
{
    #[verifier::truncate]
    (ch as u8)
}

impl<B: Lcd1602Bus> Lcd1602Display for I2cLcd1602<B> {
    open spec fn sound(&self) -> bool {
        true
    }

    open spec fn asleep(&self) -> bool {
        self.backlight == LCD_BACKLIGHT_OFF
    }

    fn print(&mut self, value: &str, x: usize, y: usize)
        ensures
            old(self).noted_steps(
                print_steps(value@, x as int, y as int, old(self).backlight),
                lit(old(self).backlight),
                *final(self),
            ),
    {
        let ghost steps = print_steps(value@, x as int, y as int, self.backlight);
        let outcome = self.try_print(value, x, y);
        self.note(outcome);
        assert(bus_runs(old(self).bus, steps, failure_of(outcome), self.bus));
    }

    fn clear(&mut self)
        ensures
            old(self).noted_steps(
                clear_steps(old(self).backlight),
                lit(old(self).backlight),
                *final(self),
            ),
    {
        let ghost steps = clear_steps(self.backlight);
        let outcome = self.try_clear();
        self.note(outcome);
        assert(bus_runs(old(self).bus, steps, failure_of(outcome), self.bus));
    }

    fn sleep(&mut self)
        ensures
            old(self).noted_steps(
                byte_steps(0x01, 0x00, LCD_BACKLIGHT_OFF),
                LCD_BACKLIGHT_OFF,
                *final(self),
            ),
    {
        let ghost steps = byte_steps(0x01, 0x00, LCD_BACKLIGHT_OFF);
        let outcome = self.try_sleep();
        self.note(outcome);
        assert(bus_runs(old(self).bus, steps, failure_of(outcome), self.bus));
    }

    fn wake(&mut self)
        ensures
            old(self).noted_steps(
                init_steps(LCD_BACKLIGHT_ON),
                LCD_BACKLIGHT_ON,
                *final(self),
            ),
    {
        let ghost steps = init_steps(LCD_BACKLIGHT_ON);
        let outcome = self.try_wake();
        self.note(outcome);
        assert(bus_runs(old(self).bus, steps, failure_of(outcome), self.bus));
    }

    fn is_sleeping(&self) -> (sleeping: bool) {
        self.backlight == LCD_BACKLIGHT_OFF
    }
}

/// On a bus whose writes all succeed nothing fails, and all the steps are done.
pub proof fn law_willing_bus_fails_nothing<B: Lcd1602Bus>(
    bus: B,
    steps: Seq<BusStep>,
    failure: Option<B::Error>,
    after: B,
)
    requires
        bus_runs(bus, steps, failure, after),
        forall|here: B, byte: u8, written: Result<(), B::Error>, next: B| #[trigger]
            here.writes(byte, written, next) ==> written is Ok,
    ensures
        failure is None,
        after.steps() == bus.steps() + steps,
    decreases steps.len(),
{
    law_bus_does_its_steps(bus, steps, failure, after);
    if steps.len() > 0 {
        match steps[0] {
            BusStep::Byte(byte) => {
                let (written, next) = choose|written: Result<(), B::Error>, next: B|
                    {
                        &&& #[trigger] bus.writes(byte, written, next)
                        &&& next.steps() == bus.steps().push(steps[0])
                        &&& match written {
                            Ok(_) => bus_runs(next, steps.skip(1), failure, after),
                            Err(error) => failure == Some(error) && after == next,
                        }
                    };
                law_willing_bus_fails_nothing(next, steps.skip(1), failure, after);
            },
            BusStep::Pulse => {
                let next = choose|next: B|
                    {
                        &&& #[trigger] bus.waits(next)
                        &&& next.steps() == bus.steps().push(steps[0])
                        &&& bus_runs(next, steps.skip(1), failure, after)
                    };
                law_willing_bus_fails_nothing(next, steps.skip(1), failure, after);
            },
        }
    }
}

/// The two halves in which a byte reaches a display make up the byte.
pub proof fn law_nibbles_make_up_the_byte(value: u8)
    ensures
        (upper_nibble(value) | (lower_nibble(value) >> 4u8)) == value,
        upper_nibble(value) & 0x0F == 0,
        lower_nibble(value) & 0x0F == 0,
{
    assert(((value & 0xF0) | (((value & 0x0F) << 4u8) >> 4u8)) == value) by (bit_vector);
    assert((value & 0xF0) & 0x0F == 0) by (bit_vector);
    assert(((value & 0x0F) << 4u8) & 0x0F == 0) by (bit_vector);
}

/// Printing leaves both rows full and wakes the display.
pub proof fn law_printing_keeps_rows_full(before: LcdModel, text: Seq<char>, x: int, y: int, after: LcdModel)
    requires
        before.sound(),
        before.prints(text, x, y, after),
    ensures
        after.sound(),
        !after.sleeping,
{
}

/// What is printed at the start of a row is what the row starts with, as far as it fits.
pub proof fn law_printed_text_is_shown(before: LcdModel, text: Seq<char>, after: LcdModel)
    requires
        before.sound(),
        before.prints(text, 0, 0, after),
        text.len() <= Lcd1602Buffer::COLS,
    ensures
        after.top.take(text.len() as int) == text,
        forall|i: int| text.len() <= i < Lcd1602Buffer::COLS ==> #[trigger] after.top[i] == ' ',
{
    assert(after.top.take(text.len() as int) =~= text);
}

/// Printing puts the text into the row from its place on, and blanks the rest of the row; what
/// stands before the place, and the other row, stay.
pub proof fn law_text_is_printed_at_its_place(
    before: LcdModel,
    text: Seq<char>,
    x: int,
    y: int,
    after: LcdModel,
    place: int,
)
    requires
        before.sound(),
        !before.sleeping,
        0 <= x < 16,
        0 <= y < 2,
        0 <= place < 16,
        before.prints(text, x, y, after),
    ensures
        ({
            let row = if y == 0 {
                before.top
            } else {
                before.bottom
            };
            let printed = if y == 0 {
                after.top
            } else {
                after.bottom
            };
            let other = if y == 0 {
                before.bottom
            } else {
                before.top
            };
            let other_after = if y == 0 {
                after.bottom
            } else {
                after.top
            };
            &&& other_after == other
            &&& place < x ==> printed[place] == row[place]
            &&& x <= place < x + text.len() ==> printed[place] == text[place - x]
            &&& place >= x && place >= x + text.len() ==> printed[place] == ' '
        }),
        !after.sleeping,
{
}

/// A display that sleeps is blanked before anything is printed on it.
pub proof fn law_sleeping_display_is_blanked(
    before: LcdModel,
    text: Seq<char>,
    x: int,
    y: int,
    after: LcdModel,
    place: int,
)
    requires
        before.sound(),
        before.sleeping,
        0 <= x < 16,
        0 <= place < 16,
        before.prints(text, x, y, after),
    ensures
        !after.sleeping,
        y == 0 ==> after.bottom[place] == ' ',
        y != 0 ==> after.top[place] == ' ',
        y == 0 && place < x ==> after.top[place] == ' ',
        y != 0 && place < x ==> after.bottom[place] == ' ',
{
}

/// Clearing blanks both rows and changes nothing else.
pub proof fn law_cleared_display_is_blank(display: LcdModel, place: int)
    requires
        0 <= place < 16,
    ensures
        display.cleared().top[place] == ' ',
        display.cleared().bottom[place] == ' ',
        display.cleared().sound(),
        display.cleared().sleeping == display.sleeping,
{
}

/// The cursor is set to the row and the column of the text, as far as the display has them.
pub proof fn law_cursor_is_set_to_the_place(x: int, y: int)
    requires
        0 <= x,
        0 <= y,
    ensures
        y == 0 && x < 16 ==> place_command(x, y) == 0x80 + x,
        y == 1 && x < 16 ==> place_command(x, y) == 0xC0 + x,
        y >= 2 ==> place_command(x, y) == place_command(x, 1),
        x >= 16 ==> place_command(x, y) == place_command(15, y),
{
}

/// A byte reaches the display in two halves, the upper one first, each set, held and released.
pub proof fn law_byte_is_clocked_in_halves(value: u8, mode: u8, backlight: u8)
    ensures
        byte_steps(value, mode, backlight).len() == 6,
        byte_steps(value, mode, backlight).take(3) == nibble_steps(
            value & 0xF0,
            mode,
            backlight,
        ),
        byte_steps(value, mode, backlight).skip(3) == nibble_steps(
            (value & 0x0F) << 4u8,
            mode,
            backlight,
        ),
        nibble_steps(value, mode, backlight) == seq![
            BusStep::Byte((value | mode | 0x04u8) | backlight),
            BusStep::Pulse,
            BusStep::Byte((value | mode) | backlight),
        ],
{
    assert(byte_steps(value, mode, backlight).take(3) =~= nibble_steps(
        value & 0xF0,
        mode,
        backlight,
    ));
    assert(byte_steps(value, mode, backlight).skip(3) =~= nibble_steps(
        (value & 0x0F) << 4u8,
        mode,
        backlight,
    ));
}

/// A line of text is written in full: sixteen characters, blanks behind the text.
pub proof fn law_whole_row_is_written(text: Seq<char>, start: int, backlight: u8, place: int)
    requires
        0 <= start <= place < 16,
    ensures
        char_steps(text, start, backlight).len() == 6 * (16 - start),
        char_steps(text, start, backlight).subrange(
            6 * (place - start),
            6 * (place - start) + 6,
        ) == byte_steps(
            if place < text.len() {
                text[place] as u8
            } else {
                ' ' as u8
            },
            0x01,
            backlight,
        ),
    decreases 16 - start,
{
    let all = char_steps(text, start, backlight);
    let rest = char_steps(text, start + 1, backlight);
    let first = byte_steps(
        if start < text.len() {
            text[start] as u8
        } else {
            ' ' as u8
        },
        0x01,
        backlight,
    );
    assert(all == first + rest);
    if start < 15 {
        law_whole_row_is_written(
            text,
            start + 1,
            backlight,
            if place > start {
                place
            } else {
                start + 1
            },
        );
    }
    if place == start {
        assert(all.subrange(0, 6) =~= first);
    } else {
        assert(all.subrange(6 * (place - start), 6 * (place - start) + 6) =~= rest.subrange(
            6 * (place - start - 1),
            6 * (place - start - 1) + 6,
        ));
    }
}

/// Printing sets the cursor and writes the row. A dark display is set up anew first, with its
/// light on, and stays lit.
pub proof fn law_printing_lights_the_display(text: Seq<char>, x: int, y: int, backlight: u8)
    ensures
        backlight != 0 ==> print_steps(text, x, y, backlight) == byte_steps(
            place_command(x, y),
            0x00,
            backlight,
        ) + char_steps(text, 0, backlight),
        print_steps(text, x, y, 0) == init_steps(0x08) + print_steps(text, x, y, 0x08),
        lit(backlight) == (if backlight == 0 {
            0x08u8
        } else {
            backlight
        }),
        clear_steps(backlight) == print_steps(Seq::empty(), 0, 0, backlight) + print_steps(
            Seq::empty(),
            0,
            1,
            lit(backlight),
        ),
{
    let none = Seq::<BusStep>::empty();
    let set = byte_steps(place_command(x, y), 0x00, backlight);
    assert(none + set + char_steps(text, 0, backlight) =~= set + char_steps(text, 0, backlight));
    let on = byte_steps(place_command(x, y), 0x00, 0x08);
    let row = char_steps(text, 0, 0x08);
    assert(init_steps(0x08) + on + row =~= init_steps(0x08) + (none + on + row));
}

/// What fails on the bus is kept as text, and what succeeds takes an older failure back; the light
/// is left as it was set either way.
pub proof fn law_failure_is_noted<B: Lcd1602Bus>(
    display: I2cLcd1602<B>,
    steps: Seq<BusStep>,
    backlight: u8,
    after: I2cLcd1602<B>,
)
    requires
        display.noted_steps(steps, backlight, after),
    ensures
        after.backlight == backlight,
        after.last_error is None ==> after.bus.steps() == display.bus.steps() + steps,
        after.last_error matches Some(text) ==> exists|error: B::Error|
            #[trigger] bus_runs(display.bus, steps, Some(error), after.bus) && text@
                == B::error_text(error),
{
    let failure = choose|failure: Option<B::Error>|
        {
            &&& #[trigger] bus_runs(display.bus, steps, failure, after.bus)
            &&& match failure {
                None => after.last_error is None,
                Some(error) => after.last_error matches Some(text) && text@ == B::error_text(error),
            }
        };
    law_bus_does_its_steps(display.bus, steps, failure, after.bus);
}

/// A call on the display does all its steps where it succeeds, and tells the error of the bus where
/// it does not.
pub proof fn law_successful_call_does_its_steps<B: Lcd1602Bus>(
    display: I2cLcd1602<B>,
    steps: Seq<BusStep>,
    backlight: u8,
    outcome: Result<(), B::Error>,
    after: I2cLcd1602<B>,
)
    requires
        display.after_steps(steps, backlight, outcome, after),
    ensures
        outcome is Ok ==> after.bus.steps() == display.bus.steps() + steps,
        outcome matches Err(error) ==> bus_runs(display.bus, steps, Some(error), after.bus),
        after.backlight == backlight,
        after.last_error == display.last_error,
{
    law_bus_does_its_steps(display.bus, steps, failure_of(outcome), after.bus);
}

/// A display is set up by five commands: two that wake it, that it has two rows, that it is on
/// without a cursor, and that it is to be blank.
pub proof fn law_display_is_set_up(backlight: u8)
    ensures
        init_steps(backlight).len() == 30,
        init_steps(backlight).subrange(0, 6) == byte_steps(0x33, 0x00, backlight),
        init_steps(backlight).subrange(6, 12) == byte_steps(0x32, 0x00, backlight),
        init_steps(backlight).subrange(12, 18) == byte_steps(0x28, 0x00, backlight),
        init_steps(backlight).subrange(18, 24) == byte_steps(0x0C, 0x00, backlight),
        init_steps(backlight).subrange(24, 30) == byte_steps(0x01, 0x00, backlight),
{
    let all = init_steps(backlight);
    assert(all.subrange(0, 6) =~= byte_steps(0x33, 0x00, backlight));
    assert(all.subrange(6, 12) =~= byte_steps(0x32, 0x00, backlight));
    assert(all.subrange(12, 18) =~= byte_steps(0x28, 0x00, backlight));
    assert(all.subrange(18, 24) =~= byte_steps(0x0C, 0x00, backlight));
    assert(all.subrange(24, 30) =~= byte_steps(0x01, 0x00, backlight));
}

} // verus!
