//! The mathematical model of the machine: the abstract state, the
//! instruction-pointer movement, and the stack discipline. The executable
//! machine in `b93` is specified against these definitions.

use vstd::prelude::*;

use crate::b93::{Direction, Effect, ErrV, Need};
use crate::numeric::parsed;

verus! {

/// Abstract machine state: the playfield as a row-major sequence of
/// 25 * 80 bytes, the data stack with its top at the end of the
/// sequence, the instruction pointer `(i, j)`, the current direction, and
/// the two transient mode flags.
#[verifier::ext_equal]
pub ghost struct State {
    pub grid: Seq<u8>,
    pub stack: Seq<i64>,
    pub i: nat,
    pub j: nat,
    pub dir: Direction,
    pub bridge: bool,
    pub string: bool,
}

impl State {
    /// Well-formedness: the playfield has exactly 25 * 80 cells and the
    /// instruction pointer lies inside it.
    pub open spec fn wf(self) -> bool {
        &&& self.grid.len() == 2000
        &&& self.i < 25
        &&& self.j < 80
    }

    /// The byte under the instruction pointer.
    pub open spec fn cell(self) -> u8 {
        self.grid[self.i as int * 80 + self.j as int]
    }
}

/// The state after moving the instruction pointer one cell in its current
/// direction, wrapping toroidally at every edge.
pub open spec fn advanced(s: State) -> State {
    match s.dir {
        Direction::Up => State { i: if s.i == 0 { 24 } else { (s.i - 1) as nat }, ..s },
        Direction::Down => State { i: ((s.i + 1) % 25), ..s },
        Direction::Left => State { j: if s.j == 0 { 79 } else { (s.j - 1) as nat }, ..s },
        Direction::Right => State { j: ((s.j + 1) % 80), ..s },
    }
}

/// The value a pop yields: the top of the stack, or 0 when the stack is
/// empty. Popping from an empty stack never faults.
pub open spec fn top0(stack: Seq<i64>) -> i64 {
    if stack.len() == 0 {
        0
    } else {
        stack.last()
    }
}

/// The stack after a pop: unchanged when empty, else without its top.
pub open spec fn rest(stack: Seq<i64>) -> Seq<i64> {
    if stack.len() == 0 {
        stack
    } else {
        stack.drop_last()
    }
}

/// The value the duplicate instruction copies: the bottom of the stack, or
/// 0 when the stack is empty.
pub open spec fn bottom0(stack: Seq<i64>) -> i64 {
    if stack.len() == 0 {
        0
    } else {
        stack[0]
    }
}

/// Intermediate loader state: the grid filled so far, the row and column
/// the next character would land on, whether the previous byte was a
/// carriage return, and the first fault met, if any. Once a fault is
/// recorded the remaining bytes have no effect.
#[verifier::ext_equal]
pub ghost struct LoadSt {
    pub grid: Seq<u8>,
    pub i: nat,
    pub j: nat,
    pub prev_cr: bool,
    pub err: Option<ErrV>,
}

/// The loader's starting state: an all-blank grid, at the origin.
pub open spec fn load_init() -> LoadSt {
    LoadSt { grid: Seq::new(2000, |k: int| 32u8), i: 0, j: 0, prev_cr: false, err: None }
}

/// One byte of loading. A line feed right after a carriage return is part
/// of the same line terminator. Either terminator alone moves to the start
/// of the next row. Any other byte is written at the current position:
/// a character on a row past the last is `PlayfieldTooTall`, one past the
/// last column is `PlayfieldTooWide`.
pub open spec fn load_byte(st: LoadSt, b: u8) -> LoadSt {
    if st.err is Some {
        st
    } else if st.prev_cr && b == 10 {
        LoadSt { prev_cr: false, ..st }
    } else if b == 13 || b == 10 {
        LoadSt { prev_cr: b == 13, i: st.i + 1, j: 0, ..st }
    } else if st.i >= 25 {
        LoadSt { prev_cr: false, err: Some(ErrV::PlayfieldTooTall), ..st }
    } else if st.j >= 80 {
        LoadSt { prev_cr: false, err: Some(ErrV::PlayfieldTooWide), ..st }
    } else {
        LoadSt {
            grid: st.grid.update(st.i as int * 80 + st.j as int, b),
            j: st.j + 1,
            prev_cr: false,
            ..st
        }
    }
}

/// The loader state after the first `n` source bytes.
pub open spec fn load_fold(bytes: Seq<u8>, n: int) -> LoadSt
    decreases n,
{
    if n <= 0 {
        load_init()
    } else {
        load_byte(load_fold(bytes, n - 1), bytes[n - 1])
    }
}

/// What loading a whole source yields: the finished grid, or the first
/// fault met.
pub open spec fn load_result(bytes: Seq<u8>) -> Result<Seq<u8>, ErrV> {
    let st = load_fold(bytes, bytes.len() as int);
    match st.err {
        Some(e) => Err(e),
        None => Ok(st.grid),
    }
}

/// A recorded loader fault is final: folding further bytes keeps it.
pub proof fn lemma_load_err_final(bytes: Seq<u8>, k: int, n: int)
    requires
        0 <= k <= n,
        load_fold(bytes, k).err is Some,
    ensures
        load_fold(bytes, n).err == load_fold(bytes, k).err,
        load_fold(bytes, n) == load_fold(bytes, k),
    decreases n - k,
{
    if n > k {
        lemma_load_err_final(bytes, k, n - 1);
    }
}

/// Quotient of `x / y` with truncation toward zero: the machine's division
/// instruction computes the host's signed integer division.
pub open spec fn div_trunc(x: int, y: int) -> int {
    if x == 0 {
        0
    } else if x > 0 && y > 0 {
        x / y
    } else if x < 0 && y < 0 {
        (x * -1) / (y * -1)
    } else if x < 0 {
        ((x * -1) / y) * -1
    } else {
        (x / (y * -1)) * -1
    }
}

/// Remainder of `x / y` with the dividend's sign: the machine's remainder
/// instruction computes the host's signed integer remainder.
pub open spec fn mod_trunc(x: int, y: int) -> int {
    if x == 0 {
        0
    } else if x > 0 && y > 0 {
        x % y
    } else if x < 0 && y < 0 {
        ((x * -1) % (y * -1)) * -1
    } else if x < 0 {
        ((x * -1) % y) * -1
    } else {
        x % (y * -1)
    }
}

/// The low byte of `v`, as the playfield write instruction truncates the
/// value it stores.
pub open spec fn low_byte(v: i64) -> u8 {
    let r = mod_trunc(v as int, 256);
    if r < 0 {
        (r + 256) as u8
    } else {
        r as u8
    }
}

/// The direction the random-direction instruction picks for a drawn value:
/// 0 is up, 1 is down, 2 is left and 3 is right.
pub open spec fn rand_dir(r: u8) -> Direction {
    if r == 0 {
        Direction::Up
    } else if r == 1 {
        Direction::Down
    } else if r == 2 {
        Direction::Left
    } else {
        Direction::Right
    }
}

/// What the next step needs from the driver: nothing, a random value in
/// `[0, 4)`, a line of text, or a single input byte.
pub open spec fn need_of(s: State) -> Need {
    if s.bridge || s.string {
        Need::Nothing
    } else if s.cell() == 63 {
        Need::Random
    } else if s.cell() == 38 {
        Need::InputLine
    } else if s.cell() == 126 {
        Need::InputByte
    } else {
        Need::Nothing
    }
}

/// Ghost mirror of the input a step is handed, with text as a character
/// sequence.
pub ghost enum InputV {
    Nothing,
    Random(u8),
    Line(Seq<char>),
    Byte(u8),
}

/// Whether the input handed to a step is of the kind the step needs. A
/// drawn random value must lie in `[0, 4)`.
pub open spec fn input_ok(s: State, inp: InputV) -> bool {
    match need_of(s) {
        Need::Nothing => inp is Nothing,
        Need::Random => inp matches InputV::Random(r) && r < 4,
        Need::InputLine => inp is Line,
        Need::InputByte => inp is Byte,
    }
}

/// Whether the arithmetic the pending instruction would do is
/// representable: the sum, difference or product of the two values it pops
/// fits in 64 signed bits, and a division or remainder neither divides by
/// zero nor overflows. On other instructions, always. A step on a state
/// where this fails would trap on the host, so the machine requires it.
pub open spec fn arith_ok(s: State) -> bool {
    if s.bridge || s.string {
        true
    } else {
        let c = s.cell();
        let x = top0(s.stack);
        let y = top0(rest(s.stack));
        if c == 43 {
            i64::MIN <= x + y <= i64::MAX
        } else if c == 45 {
            i64::MIN <= x - y <= i64::MAX
        } else if c == 42 {
            i64::MIN <= x * y <= i64::MAX
        } else if c == 47 || c == 37 {
            y != 0 && !(x == i64::MIN && y == -1)
        } else {
            true
        }
    }
}

/// The outcome of one step: the next state together with what was emitted,
/// a halt (which changes nothing), or a fault together with the state as
/// the fault left it (work already done in the same step is kept).
pub ghost enum Transition {
    Next { post: State, eff: Effect },
    Halt,
    Fail { post: State, err: ErrV },
}

/// A quiet transition into `post`.
pub open spec fn next_quiet(post: State) -> Transition {
    Transition::Next { post: post, eff: Effect::Quiet }
}

/// The dispatch of one instruction cell, outside string mode and with no
/// bridge pending. `x` names the first value popped, `y` the second.
pub open spec fn dispatch(s: State, inp: InputV) -> Transition {
    let c = s.cell();
    let x = top0(s.stack);
    let s1 = rest(s.stack);
    let y = top0(s1);
    let s2 = rest(s1);
    if c == 32 {  // space: no-op
        next_quiet(advanced(s))
    } else if c == 64 {  // @: halt
        Transition::Halt
    } else if c == 94 {  // ^
        next_quiet(advanced(State { dir: Direction::Up, ..s }))
    } else if c == 118 {  // v
        next_quiet(advanced(State { dir: Direction::Down, ..s }))
    } else if c == 60 {  // <
        next_quiet(advanced(State { dir: Direction::Left, ..s }))
    } else if c == 62 {  // >
        next_quiet(advanced(State { dir: Direction::Right, ..s }))
    } else if c == 63 {  // ?: random direction
        match inp {
            InputV::Random(r) => next_quiet(advanced(State { dir: rand_dir(r), ..s })),
            // an input of the wrong kind never reaches a step; see input_ok
            _ => Transition::Halt,
        }
    } else if c == 34 {  // ": enter string mode
        next_quiet(advanced(State { string: true, ..s }))
    } else if c == 43 {  // +
        next_quiet(advanced(State { stack: s2.push(((x + y) as i64)), ..s }))
    } else if c == 45 {  // -
        next_quiet(advanced(State { stack: s2.push(((x - y) as i64)), ..s }))
    } else if c == 42 {  // *
        next_quiet(advanced(State { stack: s2.push(((x * y) as i64)), ..s }))
    } else if c == 47 {  // /
        next_quiet(advanced(State { stack: s2.push((div_trunc(x as int, y as int) as i64)), ..s }))
    } else if c == 37 {  // %
        next_quiet(advanced(State { stack: s2.push((mod_trunc(x as int, y as int) as i64)), ..s }))
    } else if c == 33 {  // !: logical not
        next_quiet(advanced(State { stack: s1.push(if x != 0 { 0i64 } else { 1i64 }), ..s }))
    } else if c == 95 {  // _: horizontal branch
        next_quiet(advanced(State { stack: s1, dir: if x != 0 { Direction::Left } else { Direction::Right }, ..s }))
    } else if c == 124 {  // |: vertical branch
        next_quiet(advanced(State { stack: s1, dir: if x != 0 { Direction::Up } else { Direction::Down }, ..s }))
    } else if c == 38 {  // &: numeric input
        match inp {
            InputV::Line(l) => match parsed(l) {
                Some(v) => next_quiet(advanced(State { stack: s.stack.push(v), ..s })),
                None => Transition::Fail { post: s, err: ErrV::InvalidNumeric(l) },
            },
            // an input of the wrong kind never reaches a step; see input_ok
            _ => Transition::Halt,
        }
    } else if c == 126 {  // ~: byte input
        match inp {
            InputV::Byte(b) => next_quiet(advanced(State { stack: s.stack.push(b as i64), ..s })),
            // an input of the wrong kind never reaches a step; see input_ok
            _ => Transition::Halt,
        }
    } else if c == 46 {  // .: numeric output
        Transition::Next { post: advanced(State { stack: s1, ..s }), eff: Effect::PrintNumber(x) }
    } else if c == 44 {  // ,: character output
        if x < 0 || x > 127 {
            Transition::Fail { post: State { stack: s1, ..s }, err: ErrV::InvalidCharacter(x) }
        } else {
            Transition::Next { post: advanced(State { stack: s1, ..s }), eff: Effect::PrintByte(x as u8) }
        }
    } else if c == 35 {  // #: bridge
        next_quiet(advanced(State { bridge: true, ..s }))
    } else if c == 58 {  // :: duplicate the bottom of the stack
        next_quiet(advanced(State { stack: s.stack.push(bottom0(s.stack)), ..s }))
    } else if c == 36 {  // $: discard
        next_quiet(advanced(State { stack: s1, ..s }))
    } else if c == 92 {  // \: swap the top two values
        next_quiet(advanced(State { stack: s2.push(x).push(y), ..s }))
    } else if c == 96 {  // `: greater-than
        next_quiet(advanced(State { stack: s2.push(if x > y { 1i64 } else { 0i64 }), ..s }))
    } else if c == 103 {  // g: playfield read; x is the column, y the row
        let v = if x < 0 || x >= 80 || y < 0 || y >= 25 {
            32i64
        } else {
            s.grid[y as int * 80 + x as int] as i64
        };
        next_quiet(advanced(State { stack: s2.push(v), ..s }))
    } else if c == 112 {  // p: playfield write; x is the column, y the row
        let v = top0(s2);
        let s3 = rest(s2);
        let g = if 0 <= x < 80 && 0 <= y < 25 {
            s.grid.update(y as int * 80 + x as int, low_byte(v))
        } else {
            s.grid
        };
        next_quiet(advanced(State { grid: g, stack: s3, ..s }))
    } else {
        Transition::Fail { post: s, err: ErrV::InvalidInstruction(c) }
    }
}

/// The single-step transition. A pending bridge consumes the step without
/// dispatch; in string mode the cell is pushed as a character code, or the
/// quote delimiter leaves string mode; otherwise the cell is dispatched as
/// an instruction. The instruction pointer advances on every non-halting,
/// non-faulting step.
pub open spec fn step_spec(s: State, inp: InputV) -> Transition {
    if s.bridge {
        next_quiet(advanced(State { bridge: false, ..s }))
    } else if s.string {
        let c = s.cell();
        if c == 34 {
            next_quiet(advanced(State { string: false, ..s }))
        } else {
            next_quiet(advanced(State { stack: s.stack.push(c as i64), ..s }))
        }
    } else {
        dispatch(s, inp)
    }
}

/// How the machine's step relates to the transition function: the result
/// and the state after the call realise exactly what `step_spec` says.
pub open spec fn step_match(
    pre: State,
    inp: InputV,
    post: State,
    r: Result<Option<Effect>, crate::b93::Error>,
) -> bool {
    match step_spec(pre, inp) {
        Transition::Next { post: p, eff } => post == p && (r matches Ok(Some(e)) && e == eff),
        Transition::Halt => post == pre && (r matches Ok(o) && o is None),
        Transition::Fail { post: p, err } => post == p && (r matches Err(e) && e@ == err),
    }
}

/// A step whose cell is the halt instruction, outside string mode and with
/// no bridge pending, halts at once, with no effect and no change to the
/// machine: so the first step of any program whose playfield holds the
/// halt instruction at the origin halts with no side effects, whatever
/// input the driver supplies.
pub proof fn lemma_halt_is_silent(s: State, inp: InputV)
    requires
        s.wf(),
        !s.bridge,
        !s.string,
        s.cell() == 64,
    ensures
        step_spec(s, inp) == Transition::Halt,
{
}

/// Toroidal wraparound of the instruction pointer, at every edge and from
/// every state: moving up from row 0 lands on row 24, left from column 0
/// on column 79, down from row 24 on row 0, and right from column 79 on
/// column 0. The other coordinate never changes.
pub proof fn lemma_wraparound(s: State)
    requires
        s.wf(),
    ensures
        s.dir == Direction::Up && s.i == 0 ==> advanced(s).i == 24,
        s.dir == Direction::Left && s.j == 0 ==> advanced(s).j == 79,
        s.dir == Direction::Down && s.i == 24 ==> advanced(s).i == 0,
        s.dir == Direction::Right && s.j == 79 ==> advanced(s).j == 0,
        s.dir == Direction::Up || s.dir == Direction::Down ==> advanced(s).j == s.j,
        s.dir == Direction::Left || s.dir == Direction::Right ==> advanced(s).i == s.i,
{
}

/// Advancing preserves well-formedness: the pointer stays inside the
/// playfield from every state.
pub proof fn lemma_advanced_wf(s: State)
    requires
        s.wf(),
    ensures
        advanced(s).wf(),
{
}

/// Every step keeps the machine well-formed: the playfield keeps its
/// 25 * 80 cells and the instruction pointer stays inside it, whatever
/// the transition did.
pub proof fn lemma_step_preserves_wf(s: State, inp: InputV)
    requires
        s.wf(),
    ensures
        match step_spec(s, inp) {
            Transition::Next { post, eff } => post.wf(),
            Transition::Halt => true,
            Transition::Fail { post, err } => post.wf(),
        },
{
}

} // verus!
