//! The executable machine: the playfield, the data stack, the instruction
//! pointer, and the single-step interpreter, each specified against the
//! abstract model in `semantics`.

use vstd::prelude::*;

use crate::semantics::{
    advanced, arith_ok, bottom0, div_trunc, input_ok, lemma_load_err_final, load_fold,
    load_result, low_byte, need_of, rest, step_match, top0, InputV, LoadSt, State,
};

verus! {

/// A run-ending fault. Every fault is terminal: the machine performs no
/// rollback and the caller is expected to stop the run.
#[derive(Debug)]
pub enum Error {
    /// An output value outside the ASCII range was handed to the character
    /// output instruction.
    InvalidCharacter(i64),
    /// A byte with no meaning as an instruction was dispatched.
    InvalidInstruction(u8),
    /// A line of text could not be read as a base-10 integer; carries the
    /// raw line.
    InvalidNumeric(String),
    /// An input or output channel failed; carries a description. The
    /// verified machine never raises this itself: it is produced by the
    /// driver that owns the channels.
    IOError(String),
    /// A source line had more than 80 characters.
    PlayfieldTooWide,
    /// A source had more than 25 lines.
    PlayfieldTooTall,
}

/// Ghost mirror of `Error`, with text as character sequences.
pub ghost enum ErrV {
    InvalidCharacter(i64),
    InvalidInstruction(u8),
    InvalidNumeric(Seq<char>),
    IOError(Seq<char>),
    PlayfieldTooWide,
    PlayfieldTooTall,
}

impl View for Error {
    type V = ErrV;

    open spec fn view(&self) -> ErrV {
        match self {
            Error::InvalidCharacter(n) => ErrV::InvalidCharacter(*n),
            Error::InvalidInstruction(b) => ErrV::InvalidInstruction(*b),
            Error::InvalidNumeric(s) => ErrV::InvalidNumeric(s@),
            Error::IOError(s) => ErrV::IOError(s@),
            Error::PlayfieldTooWide => ErrV::PlayfieldTooWide,
            Error::PlayfieldTooTall => ErrV::PlayfieldTooTall,
        }
    }
}

/// The direction in which the instruction pointer advances each step.
#[derive(Copy, Clone, Debug, PartialEq, Eq, Structural)]
pub enum Direction {
    Up,
    Down,
    Left,
    Right,
}

/// What the next step needs from the driver before it can run: nothing, a
/// uniformly random value in `[0, 4)`, one line of text, or one raw input
/// byte.
#[derive(Copy, Clone, Debug, PartialEq, Eq, Structural)]
pub enum Need {
    Nothing,
    Random,
    InputLine,
    InputByte,
}

/// The input a step is handed, of the kind `need` announced: nothing, a
/// drawn random value, a raw line read from the input channel, or a single
/// byte read from it.
#[derive(Clone, Debug)]
pub enum StepInput {
    Nothing,
    Random(u8),
    Line(String),
    Byte(u8),
}

impl View for StepInput {
    type V = InputV;

    open spec fn view(&self) -> InputV {
        match self {
            StepInput::Nothing => InputV::Nothing,
            StepInput::Random(r) => InputV::Random(*r),
            StepInput::Line(l) => InputV::Line(l@),
            StepInput::Byte(b) => InputV::Byte(*b),
        }
    }
}

/// What a step asks the driver to emit: nothing, the decimal rendering of
/// a value followed by one space, or a single ASCII byte.
#[derive(Copy, Clone, Debug, PartialEq, Eq, Structural)]
pub enum Effect {
    Quiet,
    PrintNumber(i64),
    PrintByte(u8),
}

/// The machine. The playfield is stored row-major as 25 * 80 bytes; the
/// stack grows at the end of its vector.
#[derive(Clone, Debug)]
pub struct B93 {
    playfield: Vec<u8>,
    stack: Vec<i64>,
    i: u8,
    j: u8,
    dir: Direction,
    bridge: bool,
    string: bool,
}

impl View for B93 {
    type V = State;

    closed spec fn view(&self) -> State {
        State {
            grid: self.playfield@,
            stack: self.stack@,
            i: self.i as nat,
            j: self.j as nat,
            dir: self.dir,
            bridge: self.bridge,
            string: self.string,
        }
    }
}

impl B93 {
    /// Well-formedness of the concrete machine: its abstraction is a
    /// well-formed state.
    pub open spec fn wf(&self) -> bool {
        self@.wf()
    }

    /// Builds a machine over the given playfield: empty stack, instruction
    /// pointer at the origin, moving right, both mode flags clear.
    pub fn new(playfield: [[u8; 80]; 25]) -> (vm: Self)
        ensures
            vm.wf(),
            vm@.stack.len() == 0,
            vm@.i == 0,
            vm@.j == 0,
            vm@.dir == Direction::Right,
            !vm@.bridge,
            !vm@.string,
            forall|r: int, c: int|
                0 <= r < 25 && 0 <= c < 80 ==> vm@.grid[r * 80 + c]
                    == playfield[r][c],
    {
        let mut grid: Vec<u8> = Vec::new();
        let mut r: usize = 0;
        while r < 25
            invariant
                r <= 25,
                grid@.len() == r * 80,
                forall|ri: int, c: int|
                    0 <= ri < r && 0 <= c < 80 ==> grid@[ri * 80 + c]
                        == playfield[ri][c],
            decreases 25 - r,
        {
            let mut c: usize = 0;
            while c < 80
                invariant
                    r < 25,
                    c <= 80,
                    grid@.len() == r * 80 + c,
                    forall|ri: int, ci: int|
                        0 <= ri < r && 0 <= ci < 80 ==> grid@[ri * 80 + ci]
                            == playfield[ri][ci],
                    forall|ci: int|
                        0 <= ci < c ==> grid@[r as int * 80 + ci] == playfield[r as int][ci],
                decreases 80 - c,
            {
                grid.push(playfield[r][c]);
                c += 1;
            }
            r += 1;
        }
        B93 {
            playfield: grid,
            stack: Vec::new(),
            i: 0,
            j: 0,
            dir: Direction::Right,
            bridge: false,
            string: false,
        }
    }

    /// Loads a source into a fresh machine. Lines are delimited by a line
    /// feed or by a carriage return and line feed pair; each line fills one
    /// playfield row from column 0, and cells no line reaches keep the
    /// blank (space) value. A character on a row past the 25th fails with
    /// `PlayfieldTooTall`; one past the 80th column of its line fails with
    /// `PlayfieldTooWide`. On success the machine starts with an empty
    /// stack, the instruction pointer at the origin, moving right, and both
    /// mode flags clear.
    pub fn from_stream(src: &[u8]) -> (r: Result<Self, Error>)
        ensures
            match load_result(src@) {
                Ok(g) => r matches Ok(vm) && vm.wf() && vm@.grid == g && vm@.stack.len() == 0
                    && vm@.i == 0 && vm@.j == 0 && vm@.dir == Direction::Right && !vm@.bridge
                    && !vm@.string,
                Err(e) => r matches Err(err) && err@ == e,
            },
    {
        let mut grid: Vec<u8> = vec![32u8; 2000];
        let mut i: usize = 0;
        let mut j: usize = 0;
        let mut prev_cr: bool = false;
        let mut k: usize = 0;
        proof {
            assert(load_fold(src@, 0).grid =~= grid@);
        }
        while k < src.len()
            invariant
                k <= src@.len(),
                i <= k,
                j <= k,
                grid@.len() == 2000,
                load_fold(src@, k as int) == (LoadSt {
                    grid: grid@,
                    i: i as nat,
                    j: j as nat,
                    prev_cr: prev_cr,
                    err: None,
                }),
            decreases src@.len() - k,
        {
            let ghost pre = load_fold(src@, k as int);
            let b = src[k];
            if prev_cr && b == 10 {
                prev_cr = false;
            } else if b == 13 || b == 10 {
                prev_cr = b == 13;
                i = i + 1;
                j = 0;
            } else if i >= 25 {
                proof {
                    assert(load_fold(src@, k + 1).err == Some(ErrV::PlayfieldTooTall));
                    lemma_load_err_final(src@, k + 1, src@.len() as int);
                }
                return Err(Error::PlayfieldTooTall);
            } else if j >= 80 {
                proof {
                    assert(load_fold(src@, k + 1).err == Some(ErrV::PlayfieldTooWide));
                    lemma_load_err_final(src@, k + 1, src@.len() as int);
                }
                return Err(Error::PlayfieldTooWide);
            } else {
                grid[i * 80 + j] = b;
                j = j + 1;
                prev_cr = false;
            }
            k = k + 1;
            proof {
                assert(load_fold(src@, k as int) =~= (LoadSt {
                    grid: grid@,
                    i: i as nat,
                    j: j as nat,
                    prev_cr: prev_cr,
                    err: None,
                }));
            }
        }
        Ok(
            B93 {
                playfield: grid,
                stack: Vec::new(),
                i: 0,
                j: 0,
                dir: Direction::Right,
                bridge: false,
                string: false,
            },
        )
    }

    /// The byte under the instruction pointer.
    pub fn next_instruction(&self) -> (b: u8)
        requires
            self.wf(),
        ensures
            b == self@.cell(),
    {
        self.playfield[self.i as usize * 80 + self.j as usize]
    }

    /// Moves the instruction pointer one cell in the current direction,
    /// wrapping toroidally at every edge.
    pub fn advance_pc(&mut self)
        requires
            old(self).wf(),
        ensures
            final(self).wf(),
            final(self)@ == advanced(old(self)@),
    {
        match self.dir {
            Direction::Up => self.i = if self.i == 0 { 24 } else { self.i - 1 },
            Direction::Down => self.i = (self.i + 1) % 25,
            Direction::Left => self.j = if self.j == 0 { 79 } else { self.j - 1 },
            Direction::Right => self.j = (self.j + 1) % 80,
        }
    }

    /// Pushes a value onto the stack.
    pub fn push(&mut self, val: i64)
        requires
            old(self).wf(),
        ensures
            final(self).wf(),
            final(self)@ == (State { stack: old(self)@.stack.push(val), ..old(self)@ }),
    {
        self.stack.push(val);
    }

    /// Pops the top of the stack. Popping from an empty stack yields 0 and
    /// leaves the machine unchanged: stack underflow never faults.
    pub fn pop(&mut self) -> (r: i64)
        requires
            old(self).wf(),
        ensures
            final(self).wf(),
            r == top0(old(self)@.stack),
            final(self)@ == (State { stack: rest(old(self)@.stack), ..old(self)@ }),
            old(self)@.stack.len() == 0 ==> r == 0 && final(self)@ == old(self)@,
    {
        let r = match self.stack.pop() {
            Some(v) => v,
            None => 0,
        };
        proof {
            assert(self@ =~= (State { stack: rest(old(self)@.stack), ..old(self)@ }));
        }
        r
    }

    /// The value the duplicate instruction copies: the **bottom** of the
    /// stack, or 0 when the stack is empty. Duplicating the bottom rather
    /// than the top is the machine's documented behaviour and is preserved
    /// as such.
    pub fn peek(&self) -> (r: i64)
        requires
            self.wf(),
        ensures
            r == bottom0(self@.stack),
    {
        if self.stack.len() == 0 {
            0
        } else {
            self.stack[0]
        }
    }

    /// The current direction of the instruction pointer.
    pub fn direction(&self) -> (d: Direction)
        ensures
            d == self@.dir,
    {
        self.dir
    }

    /// The current position of the instruction pointer, as (row, column).
    pub fn position(&self) -> (p: (u8, u8))
        ensures
            p.0 as nat == self@.i,
            p.1 as nat == self@.j,
    {
        (self.i, self.j)
    }

    /// How many values the stack holds.
    pub fn stack_len(&self) -> (n: usize)
        ensures
            n == self@.stack.len(),
    {
        self.stack.len()
    }

    /// What the next step needs from the driver: a drawn random value for
    /// the random-direction instruction, a line of text for numeric input,
    /// a raw byte for character input, and nothing otherwise (a pending
    /// bridge and string mode dispatch no instruction).
    pub fn need(&self) -> (nd: Need)
        requires
            self.wf(),
        ensures
            nd == need_of(self@),
    {
        if self.bridge || self.string {
            return Need::Nothing;
        }
        match self.next_instruction() {
            63 => Need::Random,
            38 => Need::InputLine,
            126 => Need::InputByte,
            _ => Need::Nothing,
        }
    }

    /// Whether the arithmetic of the pending instruction is representable:
    /// sums, differences and products of the two values it would pop fit in
    /// 64 signed bits, and a division or remainder neither divides by zero
    /// nor overflows. True on every other instruction. The host traps on
    /// exactly these operations, so `step` requires this.
    pub fn check_arith(&self) -> (ok: bool)
        requires
            self.wf(),
        ensures
            ok == arith_ok(self@),
    {
        if self.bridge || self.string {
            return true;
        }
        let c = self.next_instruction();
        if c == 43 || c == 45 || c == 42 || c == 47 || c == 37 {
            let n = self.stack.len();
            let x: i64 = if n >= 1 { self.stack[n - 1] } else { 0 };
            let y: i64 = if n >= 2 { self.stack[n - 2] } else { 0 };
            proof {
                assert(x == top0(self@.stack));
                assert(y == top0(rest(self@.stack)));
            }
            if c == 43 {
                x.checked_add(y).is_some()
            } else if c == 45 {
                x.checked_sub(y).is_some()
            } else if c == 42 {
                x.checked_mul(y).is_some()
            } else {
                y != 0 && !(x == i64::MIN && y == -1)
            }
        } else {
            true
        }
    }

    /// Advances the machine by one step, realising exactly the abstract
    /// transition `step_spec`: a pending bridge consumes the step; in
    /// string mode the cell is pushed as a character code or the quote
    /// delimiter leaves string mode; otherwise the cell is dispatched as an
    /// instruction. `Ok(Some(effect))` asks the driver to emit the effect
    /// and continue, `Ok(None)` reports that the program halted, and
    /// `Err(fault)` aborts the run, keeping whatever the step had already
    /// done to the stack and the playfield.
    #[verifier::rlimit(60)]
    pub fn step(&mut self, input: StepInput) -> (r: Result<Option<Effect>, Error>)
        requires
            old(self).wf(),
            input_ok(old(self)@, input@),
            arith_ok(old(self)@),
        ensures
            final(self).wf(),
            step_match(old(self)@, input@, final(self)@, r),
    {
        if self.bridge {
            self.bridge = false;
            self.advance_pc();
            return Ok(Some(Effect::Quiet));
        }
        if self.string {
            let c = self.next_instruction();
            if c == 34 {
                self.string = false;
            } else {
                self.push(c as i64);
            }
            self.advance_pc();
            return Ok(Some(Effect::Quiet));
        }
        let c = self.next_instruction();
        let mut eff = Effect::Quiet;
        match c {
            32 => {},  // space: no-op
            64 => {  // @: halt
                return Ok(None);
            },
            94 => {  // ^
                self.dir = Direction::Up;
            },
            118 => {  // v
                self.dir = Direction::Down;
            },
            60 => {  // <
                self.dir = Direction::Left;
            },
            62 => {  // >
                self.dir = Direction::Right;
            },
            63 => {  // ?: random direction
                match input {
                    StepInput::Random(r) => {
                        self.dir = match r {
                            0 => Direction::Up,
                            1 => Direction::Down,
                            2 => Direction::Left,
                            _ => Direction::Right,
                        };
                    },
                    _ => {},
                }
            },
            34 => {  // ": enter string mode
                self.string = true;
            },
            43 => {  // +
                let x = self.pop();
                let y = self.pop();
                self.push(x + y);
            },
            45 => {  // -
                let x = self.pop();
                let y = self.pop();
                self.push(x - y);
            },
            42 => {  // *
                let x = self.pop();
                let y = self.pop();
                self.push(x * y);
            },
            47 => {  // /
                let x = self.pop();
                let y = self.pop();
                proof {
                    lemma_div_fits(x, y);
                }
                let q = match x.checked_div(y) {
                    Some(q) => q,
                    None => 0,
                };
                self.push(q);
            },
            37 => {  // %
                let x = self.pop();
                let y = self.pop();
                let m = match x.checked_rem(y) {
                    Some(m) => m,
                    None => 0,
                };
                self.push(m);
            },
            33 => {  // !: logical not
                let v = self.pop();
                if v != 0 {
                    self.push(0);
                } else {
                    self.push(1);
                }
            },
            95 => {  // _: horizontal branch
                let v = self.pop();
                self.dir = if v != 0 { Direction::Left } else { Direction::Right };
            },
            124 => {  // |: vertical branch
                let v = self.pop();
                self.dir = if v != 0 { Direction::Up } else { Direction::Down };
            },
            38 => {  // &: numeric input
                match input {
                    StepInput::Line(line) => {
                        match crate::numeric::parse_i64(line.as_str()) {
                            Some(v) => {
                                self.push(v);
                            },
                            None => {
                                return Err(Error::InvalidNumeric(line));
                            },
                        }
                    },
                    _ => {},
                }
            },
            126 => {  // ~: byte input
                match input {
                    StepInput::Byte(b) => {
                        self.push(b as i64);
                    },
                    _ => {},
                }
            },
            46 => {  // .: numeric output
                let v = self.pop();
                eff = Effect::PrintNumber(v);
            },
            44 => {  // ,: character output
                let v = self.pop();
                if v < 0 || v > 127 {
                    return Err(Error::InvalidCharacter(v));
                }
                eff = Effect::PrintByte(v as u8);
            },
            35 => {  // #: bridge
                self.bridge = true;
            },
            58 => {  // :: duplicate the bottom of the stack
                let b = self.peek();
                self.push(b);
            },
            36 => {  // $: discard
                let _ = self.pop();
            },
            92 => {  // \: swap the top two values
                let x = self.pop();
                let y = self.pop();
                self.push(x);
                self.push(y);
            },
            96 => {  // `: greater-than
                let x = self.pop();
                let y = self.pop();
                if x > y {
                    self.push(1);
                } else {
                    self.push(0);
                }
            },
            103 => {  // g: playfield read; first pop is the column
                let col = self.pop();
                let row = self.pop();
                if col < 0 || col >= 80 || row < 0 || row >= 25 {
                    self.push(32);
                } else {
                    let b = self.playfield[row as usize * 80 + col as usize];
                    self.push(b as i64);
                }
            },
            112 => {  // p: playfield write; first pop is the column
                let col = self.pop();
                let row = self.pop();
                let v = self.pop();
                if col >= 0 && col < 80 && row >= 0 && row < 25 {
                    let m = match v.checked_rem(256) {
                        Some(m) => m,
                        None => 0,
                    };
                    let b: u8 = if m < 0 { (m + 256) as u8 } else { m as u8 };
                    proof {
                        assert(b == low_byte(top0(rest(rest(old(self)@.stack)))));
                    }
                    self.playfield[row as usize * 80 + col as usize] = b;
                }
            },
            other => {
                return Err(Error::InvalidInstruction(other));
            },
        }
        self.advance_pc();
        Ok(Some(eff))
    }
}

/// The quotient of a truncating division within the allowed operands fits
/// in 64 signed bits, so the division instruction cannot overflow.
proof fn lemma_div_fits(x: i64, y: i64)
    requires
        y != 0,
        !(x == i64::MIN && y == -1),
    ensures
        i64::MIN <= div_trunc(x as int, y as int) <= i64::MAX,
{
    broadcast use vstd::arithmetic::div_mod::lemma_div_nonincreasing;
    broadcast use vstd::arithmetic::div_mod::lemma_div_pos_is_pos;

    let xi = x as int;
    let yi = y as int;
    if xi != 0 {
        if xi > 0 && yi > 0 {
            assert(0 <= xi / yi <= xi);
        } else if xi < 0 && yi < 0 {
            let a = xi * -1;
            let d = yi * -1;
            assert(0 <= a / d <= a);
            if a == 0x8000_0000_0000_0000 {
                assert(d >= 2);
                vstd::arithmetic::div_mod::lemma_div_is_ordered_by_denominator(a, 2, d);
                assert(a / d <= a / 2);
            }
        } else if xi < 0 {
            let a = xi * -1;
            assert(0 <= a / yi <= a);
        } else {
            let d = yi * -1;
            assert(0 <= xi / d <= xi);
        }
    }
}

impl Default for B93 {
    /// A machine over an all-blank playfield.
    fn default() -> (vm: Self)
        ensures
            vm.wf(),
            vm@.stack.len() == 0,
            vm@.i == 0,
            vm@.j == 0,
            vm@.dir == Direction::Right,
            !vm@.bridge,
            !vm@.string,
            forall|k: int| 0 <= k < vm@.grid.len() ==> vm@.grid[k] == 32u8,
    {
        let row: [u8; 80] = [32u8; 80];
        let pf: [[u8; 80]; 25] = [row; 25];
        let vm = B93::new(pf);
        proof {
            broadcast use vstd::array::group_array_axioms;

            assert forall|k: int| 0 <= k < vm@.grid.len() implies vm@.grid[k] == 32u8 by {
                let r = k / 80;
                let c = k % 80;
                assert(vm@.grid[r * 80 + c] == pf[r][c]);
                assert(pf[r] == row);
                assert(row[c] == 32u8);
            }
        }
        vm
    }
}

} // verus!
