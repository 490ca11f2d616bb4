//! The parallel bus to the digit drivers: eight data lines and three control
//! lines, driven one step at a time.

use vstd::prelude::*;

verus! {

/// Microseconds that a strobe is held high, the least the latch accepts.
pub const HOLD_MICROS: u64 = 2;

/// Number of data lines.
pub const DATA_LINES: usize = 8;

/// The logic level of one line.
#[derive(Clone, Copy, Debug, PartialEq, Eq, Structural)]
pub enum Level {
    Low,
    High,
}

impl Level {
    /// High for `true`, low for `false`.
    pub open spec fn of(bit: bool) -> Level {
        if bit {
            Level::High
        } else {
            Level::Low
        }
    }

    /// Whether the level is high.
    pub fn is_high(self) -> (high: bool)
        ensures
            high == (self == Level::High),
    {
        match self {
            Level::High => true,
            Level::Low => false,
        }
    }
}

impl From<bool> for Level {
    /// High for `true`, low for `false`.
    fn from(bit: bool) -> (level: Level) {
        if bit {
            Level::High
        } else {
            Level::Low
        }
    }
}

impl vstd::std_specs::convert::FromSpecImpl<bool> for Level {
    open spec fn obeys_from_spec() -> bool {
        true
    }

    open spec fn from_spec(bit: bool) -> Level {
        Level::of(bit)
    }
}

/// One thing that the task driving the bus does.
#[derive(Clone, Copy, Debug, PartialEq, Eq, Structural)]
pub enum Step {
    /// Drive the enable strobe.
    Enable(Level),
    /// Drive the write line; low means write.
    Write(Level),
    /// Drive the address strobe.
    AddrSel(Level),
    /// Drive one data line, numbered from the least significant bit.
    Data(usize, Level),
    /// Keep every line as it is for at least this many microseconds, without
    /// giving up the processor.
    Hold(u64),
    /// Let other tasks run for this many milliseconds.
    Sleep(u64),
}

/// Bit `i` of `value`, counted from the least significant.
pub open spec fn bit(value: u8, i: int) -> bool {
    (value >> (i as u8)) & 1 != 0
}

/// The levels that put `value` on the data lines.
pub open spec fn data_levels(value: u8) -> Seq<Level> {
    Seq::new(DATA_LINES as nat, |i: int| Level::of(bit(value, i)))
}

/// The steps that put `value` on the data lines, least significant bit first.
pub open spec fn data_steps(value: u8) -> Seq<Step> {
    Seq::new(DATA_LINES as nat, |i: int| Step::Data(i as usize, Level::of(bit(value, i))))
}

/// The steps that transfer `data` to the latch at `addr`: the address is put on
/// the data lines and strobed in, then the data byte.
pub open spec fn write_steps(addr: u8, data: u8) -> Seq<Step> {
    seq![Step::Enable(Level::Low), Step::Write(Level::Low), Step::AddrSel(Level::Low)]
        + data_steps(addr)
        + seq![Step::AddrSel(Level::High), Step::Hold(HOLD_MICROS), Step::AddrSel(Level::Low)]
        + data_steps(data)
        + seq![Step::Enable(Level::High), Step::Hold(HOLD_MICROS), Step::Enable(Level::Low)]
}

/// The levels of the eleven lines.
pub struct Lines {
    pub data: Seq<Level>,
    pub enable: Level,
    pub addr_sel: Level,
    pub write: Level,
}

impl Lines {
    /// The lines after one step.
    pub open spec fn after(self, step: Step) -> Lines {
        match step {
            Step::Enable(level) => Lines { enable: level, ..self },
            Step::Write(level) => Lines { write: level, ..self },
            Step::AddrSel(level) => Lines { addr_sel: level, ..self },
            Step::Data(i, level) => if i < self.data.len() {
                Lines { data: self.data.update(i as int, level), ..self }
            } else {
                self
            },
            Step::Hold(_) => self,
            Step::Sleep(_) => self,
        }
    }

    /// The lines after a sequence of steps, taken in order.
    pub open spec fn after_all(self, steps: Seq<Step>) -> Lines
        decreases steps.len(),
    {
        if steps.len() == 0 {
            self
        } else {
            self.after_all(steps.drop_last()).after(steps.last())
        }
    }
}

/// The bus as its driver last left it.
pub struct LedBus {
    data: [Level; 8],
    enable: Level,
    addr_sel: Level,
    write: Level,
}

impl View for LedBus {
    type V = Lines;

    closed spec fn view(&self) -> Lines {
        Lines { data: self.data@, enable: self.enable, addr_sel: self.addr_sel, write: self.write }
    }
}

impl LedBus {
    /// A bus whose lines stand at the given levels.
    pub fn new(data: [Level; 8], enable: Level, addr_sel: Level, write: Level) -> (bus: LedBus)
        ensures
            bus@ == (Lines { data: data@, enable, addr_sel, write }),
    {
        LedBus { data, enable, addr_sel, write }
    }

    /// The level of data line `i`.
    pub fn data_level(&self, i: usize) -> (level: Level)
        requires
            i < DATA_LINES,
        ensures
            level == self@.data[i as int],
    {
        self.data[i]
    }

    /// The level of the enable strobe.
    pub fn enable_level(&self) -> (level: Level)
        ensures
            level == self@.enable,
    {
        self.enable
    }

    /// The level of the address strobe.
    pub fn addr_sel_level(&self) -> (level: Level)
        ensures
            level == self@.addr_sel,
    {
        self.addr_sel
    }

    /// The level of the write line.
    pub fn write_level(&self) -> (level: Level)
        ensures
            level == self@.write,
    {
        self.write
    }

    /// Drives one line as `step` says; a wait leaves the lines alone.
    fn drive(&mut self, step: Step)
        requires
            step matches Step::Data(i, _) ==> i < DATA_LINES,
        ensures
            final(self)@ == old(self)@.after(step),
    {
        match step {
            Step::Enable(level) => {
                self.enable = level;
            },
            Step::Write(level) => {
                self.write = level;
            },
            Step::AddrSel(level) => {
                self.addr_sel = level;
            },
            Step::Data(i, level) => {
                self.data[i] = level;
            },
            Step::Hold(_) => {},
            Step::Sleep(_) => {},
        }
    }

    /// Drives one control line, or waits, and notes the step.
    fn step(&mut self, step: Step, steps: &mut Vec<Step>)
        requires
            !(step is Data),
        ensures
            final(self)@ == old(self)@.after(step),
            final(steps)@ == old(steps)@.push(step),
            forall|origin: Lines|
                origin.after_all(old(steps)@) == old(self)@ ==> origin.after_all(final(steps)@)
                    == final(self)@,
    {
        proof {
            assert forall|origin: Lines| origin.after_all(old(steps)@) == old(self)@ implies (
            #[trigger] origin.after_all(old(steps)@.push(step))) == old(self)@.after(step) by {
                lemma_after_all_push(origin, old(steps)@, step);
            }
        }
        self.drive(step);
        steps.push(step);
    }

    /// Puts `value` on the data lines, least significant bit first.
    fn set_data_pins(&mut self, value: u8) -> (steps: Vec<Step>)
        ensures
            steps@ == data_steps(value),
            final(self)@ == old(self)@.after_all(steps@),
            final(self)@ == (Lines { data: data_levels(value), ..old(self)@ }),
    {
        let mut steps: Vec<Step> = Vec::new();
        let mut rest: u8 = value;
        let mut i: usize = 0;
        assert(value >> 0u8 == value) by (bit_vector);
        while i < 8
            invariant
                i <= 8,
                rest == value >> (i as u8),
                steps@.len() == i,
                forall|k: int| 0 <= k < i ==> steps@[k] == data_steps(value)[k],
                forall|k: int| 0 <= k < i ==> self@.data[k] == data_levels(value)[k],
                self@ == old(self)@.after_all(steps@),
                self@.data.len() == 8,
                self@.enable == old(self)@.enable,
                self@.addr_sel == old(self)@.addr_sel,
                self@.write == old(self)@.write,
            decreases 8 - i,
        {
            let step = Step::Data(i, Level::from(rest & 1 != 0));
            proof {
                let n: u8 = i as u8;
                assert((value >> n) >> 1u8 == value >> ((n + 1) as u8)) by (bit_vector)
                    requires
                        n < 8,
                ;
                lemma_after_all_push(old(self)@, steps@, step);
            }
            self.drive(step);
            steps.push(step);
            rest = rest >> 1;
            i = i + 1;
        }
        assert(steps@ =~= data_steps(value));
        assert(self@.data =~= data_levels(value));
        steps
    }

    /// Transfers `data` to the latch at `addr`.
    ///
    /// The returned steps are to be carried out on the lines in order; the bus
    /// afterwards stands as they leave it: `data` on the data lines, the three
    /// control lines low.
    pub fn write_data(&mut self, addr: u8, data: u8) -> (steps: Vec<Step>)
        ensures
            steps@ == write_steps(addr, data),
            final(self)@ == old(self)@.after_all(steps@),
            final(self)@ == (Lines {
                data: data_levels(data),
                enable: Level::Low,
                addr_sel: Level::Low,
                write: Level::Low,
            }),
    {
        let mut steps: Vec<Step> = Vec::new();
        self.step(Step::Enable(Level::Low), &mut steps);
        self.step(Step::Write(Level::Low), &mut steps);
        self.step(Step::AddrSel(Level::Low), &mut steps);
        let mut addr_steps = self.set_data_pins(addr);
        proof {
            lemma_after_all_concat(old(self)@, steps@, addr_steps@);
        }
        steps.append(&mut addr_steps);
        self.step(Step::AddrSel(Level::High), &mut steps);
        self.step(Step::Hold(HOLD_MICROS), &mut steps);
        self.step(Step::AddrSel(Level::Low), &mut steps);
        let mut data_steps = self.set_data_pins(data);
        proof {
            lemma_after_all_concat(old(self)@, steps@, data_steps@);
        }
        steps.append(&mut data_steps);
        self.step(Step::Enable(Level::High), &mut steps);
        self.step(Step::Hold(HOLD_MICROS), &mut steps);
        self.step(Step::Enable(Level::Low), &mut steps);
        assert(steps@ =~= write_steps(addr, data));
        steps
    }
}

/// Taking one more step after a sequence is taking the longer sequence.
pub proof fn lemma_after_all_push(lines: Lines, steps: Seq<Step>, step: Step)
    ensures
        lines.after_all(steps.push(step)) == lines.after_all(steps).after(step),
{
    assert(steps.push(step).drop_last() =~= steps);
}

/// Taking two sequences of steps one after the other is taking their
/// concatenation.
pub proof fn lemma_after_all_concat(lines: Lines, first: Seq<Step>, second: Seq<Step>)
    ensures
        lines.after_all(first + second) == lines.after_all(first).after_all(second),
    decreases second.len(),
{
    if second.len() == 0 {
        assert(first + second =~= first);
    } else {
        lemma_after_all_concat(lines, first, second.drop_last());
        assert((first + second).drop_last() =~= first + second.drop_last());
    }
}

/// What a transfer leaves on the lines: the data byte on the data lines, the
/// three control lines low, whatever stood there before.
pub proof fn lemma_write_steps_settle(lines: Lines, addr: u8, data: u8)
    requires
        lines.data.len() == DATA_LINES,
    ensures
        lines.after_all(write_steps(addr, data)) == (Lines {
            data: data_levels(data),
            enable: Level::Low,
            addr_sel: Level::Low,
            write: Level::Low,
        }),
{
    let head = seq![Step::Enable(Level::Low), Step::Write(Level::Low), Step::AddrSel(Level::Low)];
    let mid = seq![Step::AddrSel(Level::High), Step::Hold(HOLD_MICROS), Step::AddrSel(Level::Low)];
    let tail = seq![Step::Enable(Level::High), Step::Hold(HOLD_MICROS), Step::Enable(Level::Low)];
    lemma_after_all_concat(lines, head + data_steps(addr) + mid + data_steps(data), tail);
    lemma_after_all_concat(lines, head + data_steps(addr) + mid, data_steps(data));
    lemma_after_all_concat(lines, head + data_steps(addr), mid);
    lemma_after_all_concat(lines, head, data_steps(addr));
    let l1 = lines.after_all(head);
    lemma_three_steps(lines, head);
    let l2 = l1.after_all(data_steps(addr));
    lemma_data_steps_settle(l1, addr);
    let l3 = l2.after_all(mid);
    lemma_three_steps(l2, mid);
    let l4 = l3.after_all(data_steps(data));
    lemma_data_steps_settle(l3, data);
    lemma_three_steps(l4, tail);
}

/// Three steps, taken one by one.
proof fn lemma_three_steps(lines: Lines, steps: Seq<Step>)
    requires
        steps.len() == 3,
    ensures
        lines.after_all(steps) == lines.after(steps[0]).after(steps[1]).after(steps[2]),
{
    let two = steps.drop_last();
    let one = two.drop_last();
    assert(lines.after_all(one.drop_last()) == lines);
    assert(lines.after_all(one) == lines.after(steps[0]));
    assert(lines.after_all(two) == lines.after_all(one).after(steps[1]));
    assert(lines.after_all(steps) == lines.after_all(two).after(steps[2]));
}

/// The data steps of a byte leave its bits on the data lines and the control
/// lines as they were.
pub proof fn lemma_data_steps_settle(lines: Lines, value: u8)
    requires
        lines.data.len() == DATA_LINES,
    ensures
        lines.after_all(data_steps(value)) == (Lines { data: data_levels(value), ..lines }),
{
    lemma_data_prefix(lines, value, 8);
    assert(data_steps(value).subrange(0, 8) =~= data_steps(value));
    assert(lines.after_all(data_steps(value)).data =~= data_levels(value));
}

/// After the first `n` data steps of a byte, the first `n` data lines carry its
/// bits and every other line is as it was.
proof fn lemma_data_prefix(lines: Lines, value: u8, n: int)
    requires
        lines.data.len() == DATA_LINES,
        0 <= n <= DATA_LINES,
    ensures
        ({
            let reached = lines.after_all(data_steps(value).subrange(0, n));
            &&& reached.data.len() == DATA_LINES
            &&& forall|k: int| 0 <= k < n ==> reached.data[k] == data_levels(value)[k]
            &&& forall|k: int| n <= k < DATA_LINES ==> reached.data[k] == lines.data[k]
            &&& reached.enable == lines.enable
            &&& reached.addr_sel == lines.addr_sel
            &&& reached.write == lines.write
        }),
    decreases n,
{
    let prefix = data_steps(value).subrange(0, n);
    if n > 0 {
        lemma_data_prefix(lines, value, n - 1);
        assert(prefix.drop_last() =~= data_steps(value).subrange(0, n - 1));
        assert(prefix.last() == data_steps(value)[n - 1]);
    }
}

} // verus!
