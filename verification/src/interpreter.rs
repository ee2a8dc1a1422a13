//! The program executor: the line-number-indexed instruction table, the
//! dispatch step over one instruction, and a pure driver that runs a program
//! against a queue of input lines, collecting what it prints and draws.

use vstd::prelude::*;

use crate::lexer::{Instruction, InstructionV};
use crate::parser::{spec_parse_and_eval, tok_pairs_view};
use crate::token::{Token, TokenV};
use crate::value_type::{EvalError, EvalErrorV, ValueType, ValueV, VariableStore};

verus! {

/// The views of a sequence of instructions.
pub open spec fn insts_view(s: Seq<Instruction>) -> Seq<InstructionV> {
    s.map_values(|i: Instruction| i@)
}

/// Line numbers strictly ascend through the table.
pub open spec fn lines_sorted(p: Seq<InstructionV>) -> bool {
    forall|i: int, j: int|
        0 <= i < j < p.len() ==> (#[trigger] p[i]).line_number < (#[trigger] p[j]).line_number
}

/// The position of the instruction at a line number, if the program has one.
pub open spec fn spec_find_line(p: Seq<InstructionV>, n: u32) -> Option<int>
    decreases p.len(),
{
    if p.len() == 0 {
        None
    } else if p.first().line_number == n {
        Some(0)
    } else {
        match spec_find_line(p.drop_first(), n) {
            Some(i) => Some(i + 1),
            None => None,
        }
    }
}

proof fn lemma_find_line_at(p: Seq<InstructionV>, n: u32, i: int)
    requires
        0 <= i <= p.len(),
        forall|k: int| 0 <= k < i ==> (#[trigger] p[k]).line_number != n,
        i < p.len() ==> p[i].line_number == n,
    ensures
        spec_find_line(p, n) == (if i < p.len() {
            Some(i)
        } else {
            None::<int>
        }),
    decreases p.len(),
{
    if p.len() > 0 {
        if p.first().line_number == n {
            assert(p[0].line_number == n);
        } else {
            let q = p.drop_first();
            assert(forall|k: int| 0 <= k < i - 1 ==> (#[trigger] q[k]).line_number != n);
            assert(i >= 1);
            assert(i - 1 < q.len() ==> q[i - 1].line_number == n);
            lemma_find_line_at(q, n, i - 1);
        }
    }
}

/// Inserting a tokenized statement into the table: a statement at a line the
/// table already holds replaces the earlier one; otherwise it takes its place
/// in ascending line-number order.
pub open spec fn spec_insert_inst(p: Seq<InstructionV>, inst: InstructionV) -> Seq<InstructionV>
    decreases p.len(),
{
    if p.len() == 0 {
        seq![inst]
    } else if inst.line_number < p.first().line_number {
        seq![inst] + p
    } else if inst.line_number == p.first().line_number {
        seq![inst] + p.drop_first()
    } else {
        seq![p.first()] + spec_insert_inst(p.drop_first(), inst)
    }
}

/// The table a sequence of tokenized statements loads to, first to last.
pub open spec fn spec_load(instrs: Seq<InstructionV>) -> Seq<InstructionV>
    decreases instrs.len(),
{
    if instrs.len() == 0 {
        Seq::empty()
    } else {
        spec_insert_inst(spec_load(instrs.drop_last()), instrs.last())
    }
}

/// Positional form of [`spec_insert_inst`]: with everything before `idx`
/// below the new line number and everything from `idx` at or above it, the
/// insertion splices at `idx`, dropping the replaced statement when the line
/// numbers match.
proof fn lemma_insert_inst_at(p: Seq<InstructionV>, inst: InstructionV, idx: int)
    requires
        0 <= idx <= p.len(),
        forall|k: int| 0 <= k < idx ==> (#[trigger] p[k]).line_number < inst.line_number,
        idx < p.len() ==> p[idx].line_number >= inst.line_number,
    ensures
        spec_insert_inst(p, inst) == (if idx < p.len() && p[idx].line_number == inst.line_number {
            p.take(idx) + seq![inst] + p.skip(idx + 1)
        } else {
            p.take(idx) + seq![inst] + p.skip(idx)
        }),
    decreases p.len(),
{
    if p.len() == 0 {
        assert(p.take(0) + seq![inst] + p.skip(0) =~= seq![inst]);
    } else if inst.line_number < p.first().line_number {
        assert(idx == 0);
        assert(p.take(0) + seq![inst] + p.skip(0) =~= seq![inst] + p);
    } else if inst.line_number == p.first().line_number {
        assert(idx == 0);
        assert(p.take(0) + seq![inst] + p.skip(1) =~= seq![inst] + p.drop_first());
    } else {
        assert(idx >= 1);
        let q = p.drop_first();
        assert(forall|k: int| 0 <= k < idx - 1 ==> (#[trigger] q[k]).line_number
            < inst.line_number);
        lemma_insert_inst_at(q, inst, idx - 1);
        if idx < p.len() && p[idx].line_number == inst.line_number {
            assert(q[idx - 1].line_number == inst.line_number);
            assert(seq![p.first()] + (q.take(idx - 1) + seq![inst] + q.skip(idx)) =~= p.take(idx)
                + seq![inst] + p.skip(idx + 1));
        } else {
            assert(seq![p.first()] + (q.take(idx - 1) + seq![inst] + q.skip(idx - 1)) =~= p.take(
                idx,
            ) + seq![inst] + p.skip(idx));
        }
    }
}

/// The program table: tokenized statements in ascending line-number order,
/// built once at load time and queried for jump targets for the whole run.
#[derive(Debug)]
pub struct Program {
    entries: Vec<Instruction>,
}

impl View for Program {
    type V = Seq<InstructionV>;

    closed spec fn view(&self) -> Seq<InstructionV> {
        insts_view(self.entries@)
    }
}

impl Program {
    /// Line numbers strictly ascend through the table.
    pub open spec fn wf(&self) -> bool {
        lines_sorted(self@)
    }

    /// Builds the table from tokenized statements in source order; a later
    /// statement at an already-loaded line number replaces the earlier one.
    #[verifier::loop_isolation(false)]
    pub fn load(instructions: Vec<Instruction>) -> (r: Program)
        ensures
            r.wf(),
            r@ == spec_load(insts_view(instructions@)),
    {
        let mut program = Program { entries: Vec::new() };
        let ghost all = insts_view(instructions@);
        let n = instructions.len();
        proof {
            assert(insts_view(program.entries@) =~= Seq::<InstructionV>::empty());
            assert(all.take(0) =~= Seq::<InstructionV>::empty());
            assert(spec_load(all.take(0)) =~= Seq::<InstructionV>::empty());
        }
        let mut rest = instructions;
        let mut k: usize = 0;
        while rest.len() > 0
            invariant
                k + rest@.len() == n,
                n == all.len(),
                forall|j: int| 0 <= j < rest@.len() ==> (#[trigger] rest@[j])@ == all[k + j],
                program.wf(),
                program@ == spec_load(all.take(k as int)),
            decreases rest@.len(),
        {
            let ghost rest0 = rest@;
            let inst = rest.remove(0);
            proof {
                assert(inst@ == all[k as int]);
                assert(forall|j: int| 0 <= j < rest@.len() ==> rest@[j] == rest0[j + 1]);
            }
            program.insert(inst);
            proof {
                assert(all.take(k + 1).drop_last() =~= all.take(k as int));
                assert(all.take(k + 1).last() == all[k as int]);
                assert(spec_load(all.take(k + 1)) == spec_insert_inst(
                    spec_load(all.take(k as int)),
                    all[k as int],
                ));
            }
            k += 1;
        }
        proof {
            assert(all.take(n as int) =~= all);
        }
        program
    }

    /// Inserts one tokenized statement, replacing any earlier statement at
    /// the same line number.
    #[verifier::loop_isolation(false)]
    fn insert(&mut self, inst: Instruction)
        requires
            old(self).wf(),
        ensures
            final(self).wf(),
            final(self)@ == spec_insert_inst(old(self)@, inst@),
    {
        let ghost p = self@;
        let ghost instv = inst@;
        let n = self.entries.len();
        let mut idx: usize = 0;
        while idx < n && self.entries[idx].line_number < inst.line_number
            invariant
                0 <= idx <= n,
                n == self.entries@.len(),
                forall|k: int| 0 <= k < idx ==> (#[trigger] p[k]).line_number < instv.line_number,
        decreases n - idx,
        {
            proof {
                assert(p[idx as int] == self.entries@[idx as int]@);
            }
            idx += 1;
        }
        proof {
            assert(idx < n ==> p[idx as int] == self.entries@[idx as int]@);
            lemma_insert_inst_at(p, instv, idx as int);
        }
        let replace = idx < n && self.entries[idx].line_number == inst.line_number;
        if replace {
            let _ = self.entries.remove(idx);
        }
        let ghost mid = self.entries@;
        self.entries.insert(idx, inst);
        proof {
            if replace {
                assert(insts_view(self.entries@) =~= p.take(idx as int) + seq![instv] + p.skip(
                    idx as int + 1,
                ));
            } else {
                assert(insts_view(self.entries@) =~= p.take(idx as int) + seq![instv] + p.skip(
                    idx as int,
                ));
            }
            let newv = insts_view(self.entries@);
            assert(newv == spec_insert_inst(p, instv));
            // sortedness: everything before sits below, everything after above
            assert forall|a: int, b: int| 0 <= a < b < newv.len() implies (
            #[trigger] newv[a]).line_number < (#[trigger] newv[b]).line_number by {
                let shift: int = if replace {
                    1
                } else {
                    0
                };
                if b < idx {
                    assert(newv[a] == p[a] && newv[b] == p[b]);
                } else if b == idx {
                    assert(newv[a] == p[a] && newv[b] == instv);
                } else {
                    assert(newv[b] == p[b - 1 + shift]);
                    assert(idx <= b - 1 + shift < p.len());
                    if a < idx {
                        assert(newv[a] == p[a]);
                        assert(a < b - 1 + shift);
                    } else if a == idx {
                        assert(newv[a] == instv);
                        assert(instv.line_number <= p[idx as int].line_number);
                        if !replace {
                            assert(instv.line_number < p[idx as int].line_number);
                        }
                        assert(p[idx as int].line_number <= p[b - 1 + shift].line_number);
                        if replace {
                            assert(idx < b - 1 + shift);
                        }
                    } else {
                        assert(newv[a] == p[a - 1 + shift]);
                        assert(a - 1 + shift < b - 1 + shift);
                    }
                }
            }
        }
    }

    /// Resolves a line number to its position in the table, if present.
    #[verifier::loop_isolation(false)]
    pub fn find_line(&self, n: u32) -> (r: Option<usize>)
        ensures
            match r {
                Some(i) => spec_find_line(self@, n) == Some(i as int) && i < self@.len(),
                None => spec_find_line(self@, n) is None,
            },
    {
        let len = self.entries.len();
        let mut i: usize = 0;
        while i < len
            invariant
                0 <= i <= len,
                len == self.entries@.len(),
                forall|k: int| 0 <= k < i ==> (#[trigger] self@[k]).line_number != n,
            decreases len - i,
        {
            proof {
                assert(self@[i as int] == self.entries@[i as int]@);
            }
            if self.entries[i].line_number == n {
                proof {
                    lemma_find_line_at(self@, n, i as int);
                }
                return Some(i);
            }
            i += 1;
        }
        proof {
            lemma_find_line_at(self@, n, len as int);
        }
        None
    }
}

} // verus!

use crate::value_type::value_text;

verus! {

/// A drawing command forwarded to the rendering collaborator.
#[derive(Debug, Clone, Copy, PartialEq, Eq, Structural)]
pub enum DrawCommand {
    Screen { width: i32, height: i32 },
    Clear { red: i32, green: i32, blue: i32 },
    Dot { x: i32, y: i32 },
    Line { x1: i32, y1: i32, x2: i32, y2: i32 },
    Circle { x: i32, y: i32, radius: i32 },
}

/// What one executed statement asks of the surroundings.
#[derive(Debug)]
pub enum Action {
    /// Nothing: a blank statement, a comment, an assignment or a jump.
    Noop,
    /// A line to print.
    Print(String),
    /// One input line is wanted, to be bound to this variable (see
    /// [`Executor::provide_input`]).
    NeedInput { name: String },
    /// A drawing command for the rendering collaborator.
    Draw(DrawCommand),
    /// The run has ended successfully.
    Halt,
}

/// The mathematical image of an [`Action`].
pub enum ActionV {
    Noop,
    Print(Seq<char>),
    NeedInput { name: Seq<char> },
    Draw(DrawCommand),
    Halt,
}

impl View for Action {
    type V = ActionV;

    open spec fn view(&self) -> ActionV {
        match self {
            Action::Noop => ActionV::Noop,
            Action::Print(s) => ActionV::Print(s@),
            Action::NeedInput { name } => ActionV::NeedInput { name: name@ },
            Action::Draw(d) => ActionV::Draw(*d),
            Action::Halt => ActionV::Halt,
        }
    }
}

/// Why a statement failed.
#[derive(Debug)]
pub enum RunErrorKind {
    /// The statement's tokens do not match its grammar.
    Syntax,
    /// Its expression failed to parse or evaluate.
    Eval(EvalError),
    /// An IF condition that is not a boolean.
    NonBooleanCondition,
    /// A GOTO or IF jump to a line number absent from the program.
    JumpTarget { target: u32 },
    /// An INPUT statement reached with no input line left to give it.
    InputExhausted,
}

/// The mathematical image of a [`RunErrorKind`].
pub enum RunErrorKindV {
    Syntax,
    Eval(EvalErrorV),
    NonBooleanCondition,
    JumpTarget { target: u32 },
    InputExhausted,
}

impl View for RunErrorKind {
    type V = RunErrorKindV;

    open spec fn view(&self) -> RunErrorKindV {
        match self {
            RunErrorKind::Syntax => RunErrorKindV::Syntax,
            RunErrorKind::Eval(e) => RunErrorKindV::Eval(e@),
            RunErrorKind::NonBooleanCondition => RunErrorKindV::NonBooleanCondition,
            RunErrorKind::JumpTarget { target } => RunErrorKindV::JumpTarget { target: *target },
            RunErrorKind::InputExhausted => RunErrorKindV::InputExhausted,
        }
    }
}

/// A statement-level failure: the originating line number and source column,
/// and why. Any such failure aborts the whole run.
#[derive(Debug)]
pub struct RunError {
    pub line: u32,
    pub column: u32,
    pub kind: RunErrorKind,
}

/// The mathematical image of a [`RunError`].
pub struct RunErrorV {
    pub line: u32,
    pub column: u32,
    pub kind: RunErrorKindV,
}

impl View for RunError {
    type V = RunErrorV;

    open spec fn view(&self) -> RunErrorV {
        RunErrorV { line: self.line, column: self.column, kind: self.kind@ }
    }
}

/// The view of an action-or-error result.
pub open spec fn action_result_view(r: Result<Action, RunError>) -> Result<ActionV, RunErrorV> {
    match r {
        Ok(a) => Ok(a@),
        Err(e) => Err(e@),
    }
}

/// The executor's whole state: the loaded program, the variable bindings, the
/// instruction pointer, and whether the run has ended.
pub struct ExecutorV {
    pub program: Seq<InstructionV>,
    pub variables: Map<Seq<char>, ValueV>,
    pub index: int,
    pub halted: bool,
}

pub open spec fn halted_state(s: ExecutorV) -> ExecutorV {
    ExecutorV { halted: true, ..s }
}

pub open spec fn advanced(s: ExecutorV) -> ExecutorV {
    ExecutorV { index: s.index + 1, ..s }
}

pub open spec fn jumped(s: ExecutorV, target_index: int) -> ExecutorV {
    ExecutorV { index: target_index, ..s }
}

/// A failing step: the run aborts (the executor halts) with the error.
pub open spec fn failed(s: ExecutorV, line: u32, column: u32, kind: RunErrorKindV) -> (
    ExecutorV,
    Result<ActionV, RunErrorV>,
) {
    (halted_state(s), Err(RunErrorV { line, column, kind }))
}

/// Exactly two numeric arguments: `n , n` after the leading keyword, with
/// nothing trailing.
pub open spec fn spec_args2(toks: Seq<(u32, TokenV)>) -> Option<(i32, i32)> {
    if toks.len() == 4 {
        match (toks[1].1, toks[2].1, toks[3].1) {
            (TokenV::Number(a), TokenV::Comma, TokenV::Number(b)) => Some((a, b)),
            _ => None,
        }
    } else {
        None
    }
}

/// Exactly three numeric arguments: `n , n , n` after the leading keyword,
/// with nothing trailing.
pub open spec fn spec_args3(toks: Seq<(u32, TokenV)>) -> Option<(i32, i32, i32)> {
    if toks.len() == 6 {
        match (toks[1].1, toks[2].1, toks[3].1, toks[4].1, toks[5].1) {
            (
                TokenV::Number(a),
                TokenV::Comma,
                TokenV::Number(b),
                TokenV::Comma,
                TokenV::Number(c),
            ) => Some((a, b, c)),
            _ => None,
        }
    } else {
        None
    }
}

/// The LINE statement's exact arguments: `n , n TO n , n` after the keyword,
/// with nothing trailing.
pub open spec fn spec_args_line(toks: Seq<(u32, TokenV)>) -> Option<(i32, i32, i32, i32)> {
    if toks.len() == 8 {
        match (toks[1].1, toks[2].1, toks[3].1, toks[4].1, toks[5].1, toks[6].1, toks[7].1) {
            (
                TokenV::Number(x1),
                TokenV::Comma,
                TokenV::Number(y1),
                TokenV::To,
                TokenV::Number(x2),
                TokenV::Comma,
                TokenV::Number(y2),
            ) => Some((x1, y1, x2, y2)),
            _ => None,
        }
    } else {
        None
    }
}

/// One step of the dispatch loop: fetch the statement under the instruction
/// pointer and dispatch on its leading token, per the statement table. A
/// pointer past the last statement, or an executed END, ends the run
/// successfully; any statement-level error aborts it. A jump re-resolves its
/// target line number against the program table at jump time; a non-jump
/// statement advances the pointer by one. Statements hand their outward
/// effects back as the action. Every statement's tokens must match its shape
/// exactly: a token left over past the shape is a syntax error at its column.
pub open spec fn spec_step(s: ExecutorV) -> (ExecutorV, Result<ActionV, RunErrorV>) {
    if s.halted || s.index < 0 || s.index >= s.program.len() {
        (halted_state(s), Ok(ActionV::Halt))
    } else {
        let inst = s.program[s.index];
        let toks = inst.tokens;
        if toks.len() == 0 {
            (advanced(s), Ok(ActionV::Noop))
        } else {
            let line = inst.line_number;
            let pos = toks[0].0;
            match toks[0].1 {
                TokenV::Print => match spec_parse_and_eval(toks, 1, s.variables) {
                    Ok(p) => if p.1 == toks.len() {
                        (advanced(s), Ok(ActionV::Print(value_text(p.0))))
                    } else {
                        failed(s, line, toks[p.1].0, RunErrorKindV::Syntax)
                    },
                    Err(e) => failed(s, line, pos, RunErrorKindV::Eval(e)),
                },
                TokenV::Input => if toks.len() >= 2 {
                    match toks[1].1 {
                        TokenV::Variable(name) => if toks.len() == 2 {
                            (advanced(s), Ok(ActionV::NeedInput { name }))
                        } else {
                            failed(s, line, toks[2].0, RunErrorKindV::Syntax)
                        },
                        _ => failed(
                            s,
                            line,
                            vstd::wrapping::u32_specs::wrapping_add(pos, 5),
                            RunErrorKindV::Syntax,
                        ),
                    }
                } else {
                    failed(
                        s,
                        line,
                        vstd::wrapping::u32_specs::wrapping_add(pos, 5),
                        RunErrorKindV::Syntax,
                    )
                },
                TokenV::Let => match spec_parse_and_eval(toks, 3, s.variables) {
                    Err(e) => failed(s, line, pos, RunErrorKindV::Eval(e)),
                    Ok(p) => if toks.len() >= 3 {
                        match (toks[1].1, toks[2].1) {
                            (TokenV::Variable(name), TokenV::Equals) => if p.1 == toks.len() {
                                (
                                    ExecutorV {
                                        variables: s.variables.insert(name, p.0),
                                        index: s.index + 1,
                                        ..s
                                    },
                                    Ok(ActionV::Noop),
                                )
                            } else {
                                failed(s, line, toks[p.1].0, RunErrorKindV::Syntax)
                            },
                            _ => failed(s, line, pos, RunErrorKindV::Syntax),
                        }
                    } else {
                        failed(s, line, pos, RunErrorKindV::Syntax)
                    },
                },
                TokenV::If => match spec_parse_and_eval(toks, 1, s.variables) {
                    Err(e) => failed(s, line, pos, RunErrorKindV::Eval(e)),
                    Ok(p) => match p.0 {
                        ValueV::Bool(b) => {
                            let stop = p.1;
                            if stop + 2 == toks.len() && toks[stop].1 == TokenV::Then {
                                match toks[stop + 1].1 {
                                    TokenV::Number(t) => if b {
                                        let target = t as u32;
                                        match spec_find_line(s.program, target) {
                                            Some(j) => (jumped(s, j), Ok(ActionV::Noop)),
                                            None => failed(
                                                s,
                                                line,
                                                pos,
                                                RunErrorKindV::JumpTarget { target },
                                            ),
                                        }
                                    } else {
                                        (advanced(s), Ok(ActionV::Noop))
                                    },
                                    _ => failed(s, line, pos, RunErrorKindV::Syntax),
                                }
                            } else {
                                failed(s, line, pos, RunErrorKindV::Syntax)
                            }
                        },
                        _ => failed(s, line, pos, RunErrorKindV::NonBooleanCondition),
                    },
                },
                TokenV::Goto => if toks.len() >= 2 {
                    match toks[1].1 {
                        TokenV::Number(t) => if toks.len() == 2 {
                            let target = t as u32;
                            match spec_find_line(s.program, target) {
                                Some(j) => (jumped(s, j), Ok(ActionV::Noop)),
                                None => failed(
                                    s,
                                    line,
                                    toks[1].0,
                                    RunErrorKindV::JumpTarget { target },
                                ),
                            }
                        } else {
                            failed(s, line, toks[2].0, RunErrorKindV::Syntax)
                        },
                        _ => failed(s, line, toks[1].0, RunErrorKindV::Syntax),
                    }
                } else {
                    failed(
                        s,
                        line,
                        vstd::wrapping::u32_specs::wrapping_add(pos, 4),
                        RunErrorKindV::Syntax,
                    )
                },
                TokenV::Screen => match spec_args2(toks) {
                    Some(args) => (
                        advanced(s),
                        Ok(ActionV::Draw(DrawCommand::Screen { width: args.0, height: args.1 })),
                    ),
                    None => failed(s, line, pos, RunErrorKindV::Syntax),
                },
                TokenV::Clear => match spec_args3(toks) {
                    Some(args) => (
                        advanced(s),
                        Ok(
                            ActionV::Draw(
                                DrawCommand::Clear { red: args.0, green: args.1, blue: args.2 },
                            ),
                        ),
                    ),
                    None => failed(s, line, pos, RunErrorKindV::Syntax),
                },
                TokenV::Dot => match spec_args2(toks) {
                    Some(args) => (
                        advanced(s),
                        Ok(ActionV::Draw(DrawCommand::Dot { x: args.0, y: args.1 })),
                    ),
                    None => failed(s, line, pos, RunErrorKindV::Syntax),
                },
                TokenV::Line => match spec_args_line(toks) {
                    Some(args) => (
                        advanced(s),
                        Ok(
                            ActionV::Draw(
                                DrawCommand::Line {
                                    x1: args.0,
                                    y1: args.1,
                                    x2: args.2,
                                    y2: args.3,
                                },
                            ),
                        ),
                    ),
                    None => failed(s, line, pos, RunErrorKindV::Syntax),
                },
                TokenV::Circle => match spec_args3(toks) {
                    Some(args) => (
                        advanced(s),
                        Ok(
                            ActionV::Draw(
                                DrawCommand::Circle { x: args.0, y: args.1, radius: args.2 },
                            ),
                        ),
                    ),
                    None => failed(s, line, pos, RunErrorKindV::Syntax),
                },
                TokenV::Rem => (advanced(s), Ok(ActionV::Noop)),
                TokenV::End => (halted_state(s), Ok(ActionV::Halt)),
                _ => failed(
                    s,
                    line,
                    vstd::wrapping::u32_specs::wrapping_add(pos, 4),
                    RunErrorKindV::Syntax,
                ),
            }
        }
    }
}

} // verus!

verus! {

/// The program executor: owns the program table, the variable store and the
/// instruction pointer, and executes one statement per step.
#[derive(Debug)]
pub struct Executor {
    program: Program,
    variables: VariableStore,
    index: usize,
    halted: bool,
}

impl View for Executor {
    type V = ExecutorV;

    closed spec fn view(&self) -> ExecutorV {
        ExecutorV {
            program: self.program@,
            variables: self.variables@,
            index: self.index as int,
            halted: self.halted,
        }
    }
}

impl Executor {
    /// The program table stays sorted and the variable store consistent.
    pub closed spec fn wf(&self) -> bool {
        self.program.wf() && self.variables.wf()
    }

    /// An executor over a loaded program: empty variable store, pointer at
    /// the first statement, not yet halted.
    pub fn new(program: Program) -> (r: Executor)
        requires
            program.wf(),
        ensures
            r.wf(),
            r@ == (ExecutorV {
                program: program@,
                variables: Map::<Seq<char>, ValueV>::empty(),
                index: 0,
                halted: false,
            }),
    {
        Executor { program, variables: VariableStore::new(), index: 0, halted: false }
    }

    /// Binds one input line to a variable, as an INPUT statement asked
    /// (see [`Action::NeedInput`]); the caller hands the line bare, without
    /// its end-of-line terminator.
    pub fn provide_input(&mut self, name: &str, input: String)
        requires
            old(self).wf(),
        ensures
            final(self).wf(),
            final(self)@ == (ExecutorV {
                variables: old(self)@.variables.insert(name@, ValueV::Text(input@)),
                ..old(self)@
            }),
    {
        let ghost iv = input@;
        self.variables.set(name, ValueType::Text(input));
    }

    /// Executes the statement under the instruction pointer and yields the
    /// action it asks for, per [`spec_step`].
    pub fn step(&mut self) -> (r: Result<Action, RunError>)
        requires
            old(self).wf(),
        ensures
            final(self).wf(),
            final(self)@ == spec_step(old(self)@).0,
            action_result_view(r) == spec_step(old(self)@).1,
    {
        let ghost s = self@;
        if self.halted {
            return Ok(Action::Halt);
        }
        let len = self.program.entries.len();
        proof {
            assert(s.program.len() == len);
        }
        if self.index >= len {
            self.halted = true;
            return Ok(Action::Halt);
        }
        proof {
            assert(s.program[s.index] == self.program.entries@[self.index as int]@);
        }
        let inst = &self.program.entries[self.index];
        let line = inst.line_number;
        let ghost toks = s.program[s.index].tokens;
        let tlen = inst.tokens.len();
        proof {
            assert(toks.len() == tlen);
        }
        if tlen == 0 {
            self.index += 1;
            return Ok(Action::Noop);
        }
        proof {
            assert(toks[0] == (inst.tokens@[0].0, inst.tokens@[0].1@));
        }
        let pos = inst.tokens[0].0;
        match &inst.tokens[0].1 {
            Token::Print => {
                match crate::parser::parse_and_eval(inst.tokens.as_slice(), 1, &self.variables) {
                    Ok((v, stop)) => {
                        if stop == tlen {
                            let text = v.to_text();
                            self.index += 1;
                            Ok(Action::Print(text))
                        } else {
                            proof {
                                assert(toks[stop as int] == (
                                    inst.tokens@[stop as int].0,
                                    inst.tokens@[stop as int].1@,
                                ));
                            }
                            let leftover = inst.tokens[stop].0;
                            self.halted = true;
                            Err(RunError { line, column: leftover, kind: RunErrorKind::Syntax })
                        }
                    },
                    Err(e) => {
                        self.halted = true;
                        Err(RunError { line, column: pos, kind: RunErrorKind::Eval(e) })
                    },
                }
            },
            Token::Input => {
                if tlen >= 2 {
                    proof {
                        assert(toks[1] == (inst.tokens@[1].0, inst.tokens@[1].1@));
                    }
                    match &inst.tokens[1].1 {
                        Token::Variable(name) => {
                            if tlen == 2 {
                                let name_copy = name.clone();
                                self.index += 1;
                                Ok(Action::NeedInput { name: name_copy })
                            } else {
                                proof {
                                    assert(toks[2] == (inst.tokens@[2].0, inst.tokens@[2].1@));
                                }
                                let leftover = inst.tokens[2].0;
                                self.halted = true;
                                Err(
                                    RunError {
                                        line,
                                        column: leftover,
                                        kind: RunErrorKind::Syntax,
                                    },
                                )
                            }
                        },
                        _ => {
                            self.halted = true;
                            Err(
                                RunError {
                                    line,
                                    column: pos.wrapping_add(5),
                                    kind: RunErrorKind::Syntax,
                                },
                            )
                        },
                    }
                } else {
                    self.halted = true;
                    Err(RunError { line, column: pos.wrapping_add(5), kind: RunErrorKind::Syntax })
                }
            },
            Token::Let => {
                let start = if tlen < 3 {
                    tlen
                } else {
                    3
                };
                proof {
                    if tlen < 3 {
                        // both starting points lie at or past the end: the
                        // expression is empty either way
                        assert(spec_parse_and_eval(toks, 3, s.variables) == spec_parse_and_eval(
                            toks,
                            start as int,
                            s.variables,
                        )) by {
                            let e = Seq::<TokenV>::empty();
                            assert(crate::parser::spec_parse_loop(toks, 3, e, e) == Ok::<
                                _,
                                EvalErrorV,
                            >((e, 3int)));
                            assert(crate::parser::spec_parse_loop(toks, start as int, e, e)
                                == Ok::<_, EvalErrorV>((e, start as int)));
                            assert(crate::parser::spec_eval_rpn(e, 0, s.variables, Seq::empty())
                                == Err::<ValueV, _>(EvalErrorV::MalformedExpression));
                        }
                    }
                }
                match crate::parser::parse_and_eval(
                    inst.tokens.as_slice(),
                    start,
                    &self.variables,
                ) {
                    Err(e) => {
                        self.halted = true;
                        Err(RunError { line, column: pos, kind: RunErrorKind::Eval(e) })
                    },
                    Ok((value, stop)) => {
                        if tlen >= 3 {
                            proof {
                                assert(toks[1] == (inst.tokens@[1].0, inst.tokens@[1].1@));
                                assert(toks[2] == (inst.tokens@[2].0, inst.tokens@[2].1@));
                            }
                            let bind = match (&inst.tokens[1].1, &inst.tokens[2].1) {
                                (Token::Variable(name), Token::Equals) => Some(name.clone()),
                                _ => None,
                            };
                            match bind {
                                Some(name) => {
                                    if stop == tlen {
                                        self.variables.set(name.as_str(), value);
                                        self.index += 1;
                                        Ok(Action::Noop)
                                    } else {
                                        proof {
                                            assert(toks[stop as int] == (
                                                inst.tokens@[stop as int].0,
                                                inst.tokens@[stop as int].1@,
                                            ));
                                        }
                                        let leftover = inst.tokens[stop].0;
                                        self.halted = true;
                                        Err(
                                            RunError {
                                                line,
                                                column: leftover,
                                                kind: RunErrorKind::Syntax,
                                            },
                                        )
                                    }
                                },
                                None => {
                                    self.halted = true;
                                    Err(
                                        RunError {
                                            line,
                                            column: pos,
                                            kind: RunErrorKind::Syntax,
                                        },
                                    )
                                },
                            }
                        } else {
                            self.halted = true;
                            Err(RunError { line, column: pos, kind: RunErrorKind::Syntax })
                        }
                    },
                }
            },
            Token::If => {
                match crate::parser::parse_and_eval(inst.tokens.as_slice(), 1, &self.variables) {
                    Err(e) => {
                        self.halted = true;
                        Err(RunError { line, column: pos, kind: RunErrorKind::Eval(e) })
                    },
                    Ok((value, stop)) => {
                        match value {
                            ValueType::Bool(b) => {
                                if tlen >= 2 && stop == tlen - 2 && matches!(
                                    &inst.tokens[stop].1,
                                    Token::Then,
                                ) {
                                    proof {
                                        assert(toks[stop as int] == (
                                            inst.tokens@[stop as int].0,
                                            inst.tokens@[stop as int].1@,
                                        ));
                                        assert(toks[stop + 1] == (
                                            inst.tokens@[stop + 1].0,
                                            inst.tokens@[stop + 1].1@,
                                        ));
                                    }
                                    match &inst.tokens[stop + 1].1 {
                                        Token::Number(t) => {
                                            if b {
                                                let target = #[verifier::truncate] (*t as u32);
                                                match self.program.find_line(target) {
                                                    Some(j) => {
                                                        self.index = j;
                                                        Ok(Action::Noop)
                                                    },
                                                    None => {
                                                        self.halted = true;
                                                        Err(
                                                            RunError {
                                                                line,
                                                                column: pos,
                                                                kind: RunErrorKind::JumpTarget {
                                                                    target,
                                                                },
                                                            },
                                                        )
                                                    },
                                                }
                                            } else {
                                                self.index += 1;
                                                Ok(Action::Noop)
                                            }
                                        },
                                        _ => {
                                            self.halted = true;
                                            Err(
                                                RunError {
                                                    line,
                                                    column: pos,
                                                    kind: RunErrorKind::Syntax,
                                                },
                                            )
                                        },
                                    }
                                } else {
                                    self.halted = true;
                                    Err(RunError { line, column: pos, kind: RunErrorKind::Syntax })
                                }
                            },
                            _ => {
                                self.halted = true;
                                Err(
                                    RunError {
                                        line,
                                        column: pos,
                                        kind: RunErrorKind::NonBooleanCondition,
                                    },
                                )
                            },
                        }
                    },
                }
            },
            Token::Goto => {
                if tlen >= 2 {
                    proof {
                        assert(toks[1] == (inst.tokens@[1].0, inst.tokens@[1].1@));
                    }
                    let target_column = inst.tokens[1].0;
                    match &inst.tokens[1].1 {
                        Token::Number(t) => {
                            if tlen == 2 {
                                let target = #[verifier::truncate] (*t as u32);
                                match self.program.find_line(target) {
                                    Some(j) => {
                                        self.index = j;
                                        Ok(Action::Noop)
                                    },
                                    None => {
                                        self.halted = true;
                                        Err(
                                            RunError {
                                                line,
                                                column: target_column,
                                                kind: RunErrorKind::JumpTarget { target },
                                            },
                                        )
                                    },
                                }
                            } else {
                                proof {
                                    assert(toks[2] == (inst.tokens@[2].0, inst.tokens@[2].1@));
                                }
                                let leftover = inst.tokens[2].0;
                                self.halted = true;
                                Err(
                                    RunError {
                                        line,
                                        column: leftover,
                                        kind: RunErrorKind::Syntax,
                                    },
                                )
                            }
                        },
                        _ => {
                            self.halted = true;
                            Err(
                                RunError {
                                    line,
                                    column: target_column,
                                    kind: RunErrorKind::Syntax,
                                },
                            )
                        },
                    }
                } else {
                    self.halted = true;
                    Err(RunError { line, column: pos.wrapping_add(4), kind: RunErrorKind::Syntax })
                }
            },
            Token::Screen => {
                match args2(&inst.tokens) {
                    Some((width, height)) => {
                        self.index += 1;
                        Ok(Action::Draw(DrawCommand::Screen { width, height }))
                    },
                    None => {
                        self.halted = true;
                        Err(RunError { line, column: pos, kind: RunErrorKind::Syntax })
                    },
                }
            },
            Token::Clear => {
                match args3(&inst.tokens) {
                    Some((red, green, blue)) => {
                        self.index += 1;
                        Ok(Action::Draw(DrawCommand::Clear { red, green, blue }))
                    },
                    None => {
                        self.halted = true;
                        Err(RunError { line, column: pos, kind: RunErrorKind::Syntax })
                    },
                }
            },
            Token::Dot => {
                match args2(&inst.tokens) {
                    Some((x, y)) => {
                        self.index += 1;
                        Ok(Action::Draw(DrawCommand::Dot { x, y }))
                    },
                    None => {
                        self.halted = true;
                        Err(RunError { line, column: pos, kind: RunErrorKind::Syntax })
                    },
                }
            },
            Token::Line => {
                match args_line(&inst.tokens) {
                    Some((x1, y1, x2, y2)) => {
                        self.index += 1;
                        Ok(Action::Draw(DrawCommand::Line { x1, y1, x2, y2 }))
                    },
                    None => {
                        self.halted = true;
                        Err(RunError { line, column: pos, kind: RunErrorKind::Syntax })
                    },
                }
            },
            Token::Circle => {
                match args3(&inst.tokens) {
                    Some((x, y, radius)) => {
                        self.index += 1;
                        Ok(Action::Draw(DrawCommand::Circle { x, y, radius }))
                    },
                    None => {
                        self.halted = true;
                        Err(RunError { line, column: pos, kind: RunErrorKind::Syntax })
                    },
                }
            },
            Token::Rem => {
                self.index += 1;
                Ok(Action::Noop)
            },
            Token::End => {
                self.halted = true;
                Ok(Action::Halt)
            },
            _ => {
                self.halted = true;
                Err(RunError { line, column: pos.wrapping_add(4), kind: RunErrorKind::Syntax })
            },
        }
    }
}

fn args2(toks: &Vec<(u32, Token)>) -> (r: Option<(i32, i32)>)
    ensures
        r == spec_args2(tok_pairs_view(toks@)),
{
    if toks.len() != 4 {
        return None;
    }
    proof {
        assert(tok_pairs_view(toks@)[1] == (toks@[1].0, toks@[1].1@));
        assert(tok_pairs_view(toks@)[2] == (toks@[2].0, toks@[2].1@));
        assert(tok_pairs_view(toks@)[3] == (toks@[3].0, toks@[3].1@));
    }
    match (&toks[1].1, &toks[2].1, &toks[3].1) {
        (Token::Number(a), Token::Comma, Token::Number(b)) => Some((*a, *b)),
        _ => None,
    }
}

fn args3(toks: &Vec<(u32, Token)>) -> (r: Option<(i32, i32, i32)>)
    ensures
        r == spec_args3(tok_pairs_view(toks@)),
{
    if toks.len() != 6 {
        return None;
    }
    proof {
        assert(tok_pairs_view(toks@)[1] == (toks@[1].0, toks@[1].1@));
        assert(tok_pairs_view(toks@)[2] == (toks@[2].0, toks@[2].1@));
        assert(tok_pairs_view(toks@)[3] == (toks@[3].0, toks@[3].1@));
        assert(tok_pairs_view(toks@)[4] == (toks@[4].0, toks@[4].1@));
        assert(tok_pairs_view(toks@)[5] == (toks@[5].0, toks@[5].1@));
    }
    match (&toks[1].1, &toks[2].1, &toks[3].1, &toks[4].1, &toks[5].1) {
        (Token::Number(a), Token::Comma, Token::Number(b), Token::Comma, Token::Number(c)) => Some(
            (*a, *b, *c),
        ),
        _ => None,
    }
}

fn args_line(toks: &Vec<(u32, Token)>) -> (r: Option<(i32, i32, i32, i32)>)
    ensures
        r == spec_args_line(tok_pairs_view(toks@)),
{
    if toks.len() != 8 {
        return None;
    }
    proof {
        assert(tok_pairs_view(toks@)[1] == (toks@[1].0, toks@[1].1@));
        assert(tok_pairs_view(toks@)[2] == (toks@[2].0, toks@[2].1@));
        assert(tok_pairs_view(toks@)[3] == (toks@[3].0, toks@[3].1@));
        assert(tok_pairs_view(toks@)[4] == (toks@[4].0, toks@[4].1@));
        assert(tok_pairs_view(toks@)[5] == (toks@[5].0, toks@[5].1@));
        assert(tok_pairs_view(toks@)[6] == (toks@[6].0, toks@[6].1@));
        assert(tok_pairs_view(toks@)[7] == (toks@[7].0, toks@[7].1@));
    }
    match (
        &toks[1].1,
        &toks[2].1,
        &toks[3].1,
        &toks[4].1,
        &toks[5].1,
        &toks[6].1,
        &toks[7].1,
    ) {
        (
            Token::Number(x1),
            Token::Comma,
            Token::Number(y1),
            Token::To,
            Token::Number(x2),
            Token::Comma,
            Token::Number(y2),
        ) => Some((*x1, *y1, *x2, *y2)),
        _ => None,
    }
}

} // verus!

verus! {

/// The views of a sequence of strings.
pub open spec fn strs_view(s: Seq<String>) -> Seq<Seq<char>> {
    s.map_values(|x: String| x@)
}

/// The line number and leading column of the statement under the pointer.
pub open spec fn spec_position(s: ExecutorV) -> (u32, u32) {
    if 0 <= s.index < s.program.len() && s.program[s.index].tokens.len() > 0 {
        (s.program[s.index].line_number, s.program[s.index].tokens[0].0)
    } else {
        (0, 0)
    }
}

/// What one whole run leaves behind: everything printed, every drawing
/// command issued, and the error that aborted the run, if one did.
#[derive(Debug)]
pub struct RunOutcome {
    pub printed: Vec<String>,
    pub drawn: Vec<DrawCommand>,
    pub error: Option<RunError>,
}

/// The mathematical image of a [`RunOutcome`].
pub struct RunOutcomeV {
    pub printed: Seq<Seq<char>>,
    pub drawn: Seq<DrawCommand>,
    pub error: Option<RunErrorV>,
}

impl View for RunOutcome {
    type V = RunOutcomeV;

    open spec fn view(&self) -> RunOutcomeV {
        RunOutcomeV {
            printed: strs_view(self.printed@),
            drawn: self.drawn@,
            error: match self.error {
                Some(e) => Some(e@),
                None => None,
            },
        }
    }
}

/// The run that `fuel` further steps allow, with everything printed and drawn
/// so far and the input lines not yet consumed: a halt ends it successfully,
/// an erring statement aborts it, an INPUT statement consumes the next input
/// line (and aborts the run when none is left); nothing yields the run out of
/// fuel. Every terminating run is `spec_run` at every sufficient fuel.
pub open spec fn spec_run(
    s: ExecutorV,
    inputs: Seq<Seq<char>>,
    printed: Seq<Seq<char>>,
    drawn: Seq<DrawCommand>,
    fuel: nat,
) -> Option<RunOutcomeV>
    decreases fuel,
{
    if fuel == 0 {
        None
    } else {
        let stepped = spec_step(s);
        match stepped.1 {
            Ok(ActionV::Halt) => Some(RunOutcomeV { printed, drawn, error: None }),
            Ok(ActionV::Noop) => spec_run(stepped.0, inputs, printed, drawn, (fuel - 1) as nat),
            Ok(ActionV::Print(t)) => spec_run(
                stepped.0,
                inputs,
                printed.push(t),
                drawn,
                (fuel - 1) as nat,
            ),
            Ok(ActionV::Draw(d)) => spec_run(
                stepped.0,
                inputs,
                printed,
                drawn.push(d),
                (fuel - 1) as nat,
            ),
            Ok(ActionV::NeedInput { name }) => if inputs.len() > 0 {
                spec_run(
                    ExecutorV {
                        variables: stepped.0.variables.insert(name, ValueV::Text(inputs.first())),
                        ..stepped.0
                    },
                    inputs.drop_first(),
                    printed,
                    drawn,
                    (fuel - 1) as nat,
                )
            } else {
                Some(
                    RunOutcomeV {
                        printed,
                        drawn,
                        error: Some(
                            RunErrorV {
                                line: spec_position(s).0,
                                column: spec_position(s).1,
                                kind: RunErrorKindV::InputExhausted,
                            },
                        ),
                    },
                )
            },
            Err(e) => Some(RunOutcomeV { printed, drawn, error: Some(e) }),
        }
    }
}

impl Executor {
    /// The line number and leading column of the statement under the pointer,
    /// used to place an error that no statement raised itself.
    pub fn current_position(&self) -> (r: (u32, u32))
        ensures
            r == spec_position(self@),
    {
        if self.index < self.program.entries.len() {
            proof {
                assert(self@.program[self@.index] == self.program.entries@[self.index as int]@);
            }
            let inst = &self.program.entries[self.index];
            if inst.tokens.len() > 0 {
                proof {
                    assert(self@.program[self@.index].tokens[0] == (
                        inst.tokens@[0].0,
                        inst.tokens@[0].1@,
                    ));
                }
                (inst.line_number, inst.tokens[0].0)
            } else {
                (0, 0)
            }
        } else {
            (0, 0)
        }
    }
}

/// The view of an optional run outcome.
pub open spec fn option_outcome_view(r: Option<RunOutcome>) -> Option<RunOutcomeV> {
    match r {
        Some(o) => Some(o@),
        None => None,
    }
}

/// Loads the tokenized statements and runs the program, feeding INPUT
/// statements from the given lines in order: the dispatch loop of the
/// executor, without its outward effects. `fuel` bounds how many statements
/// may execute; a run that has not ended within the bound yields nothing.
/// The result is exactly what [`spec_run`] gives the loaded program.
#[verifier::loop_isolation(false)]
pub fn interpret(instructions: Vec<Instruction>, inputs: Vec<String>, fuel: u64) -> (r: Option<
    RunOutcome,
>)
    ensures
        ({
            let init = ExecutorV {
                program: spec_load(insts_view(instructions@)),
                variables: Map::<Seq<char>, ValueV>::empty(),
                index: 0,
                halted: false,
            };
            option_outcome_view(r) == spec_run(
                init,
                strs_view(inputs@),
                Seq::empty(),
                Seq::empty(),
                fuel as nat,
            )
        }),
{
    let ghost all_inputs = strs_view(inputs@);
    let program = Program::load(instructions);
    let mut exec = Executor::new(program);
    let ghost init = exec@;
    let mut printed: Vec<String> = Vec::new();
    let mut drawn: Vec<DrawCommand> = Vec::new();
    let mut inputs_left = inputs;
    let mut fuel_left = fuel;
    proof {
        assert(strs_view(printed@) =~= Seq::<Seq<char>>::empty());
        assert(drawn@ =~= Seq::<DrawCommand>::empty());
    }
    while fuel_left > 0
        invariant
            exec.wf(),
            spec_run(exec@, strs_view(inputs_left@), strs_view(printed@), drawn@, fuel_left as nat)
                == spec_run(init, all_inputs, Seq::empty(), Seq::empty(), fuel as nat),
        decreases fuel_left,
    {
        let ghost pre = exec@;
        let ghost pre_inputs = strs_view(inputs_left@);
        let ghost pre_printed = strs_view(printed@);
        let ghost pre_drawn = drawn@;
        let ghost pre_fuel = fuel_left as nat;
        let (err_line, err_column) = exec.current_position();
        fuel_left = fuel_left - 1;
        let step_result = exec.step();
        match step_result {
            Ok(Action::Halt) => {
                let outcome = RunOutcome { printed, drawn, error: None };
                proof {
                    assert(spec_run(pre, pre_inputs, pre_printed, pre_drawn, pre_fuel) == Some(
                        outcome@,
                    ));
                }
                return Some(outcome);
            },
            Ok(Action::Noop) => {
                proof {
                    assert(spec_run(pre, pre_inputs, pre_printed, pre_drawn, pre_fuel) == spec_run(
                        exec@,
                        pre_inputs,
                        pre_printed,
                        pre_drawn,
                        fuel_left as nat,
                    ));
                }
            },
            Ok(Action::Print(text)) => {
                printed.push(text);
                proof {
                    assert(strs_view(printed@) =~= pre_printed.push(printed@.last()@));
                    assert(spec_run(pre, pre_inputs, pre_printed, pre_drawn, pre_fuel) == spec_run(
                        exec@,
                        pre_inputs,
                        strs_view(printed@),
                        pre_drawn,
                        fuel_left as nat,
                    ));
                }
            },
            Ok(Action::Draw(command)) => {
                drawn.push(command);
                proof {
                    assert(drawn@ =~= pre_drawn.push(command));
                    assert(spec_run(pre, pre_inputs, pre_printed, pre_drawn, pre_fuel) == spec_run(
                        exec@,
                        pre_inputs,
                        pre_printed,
                        drawn@,
                        fuel_left as nat,
                    ));
                }
            },
            Ok(Action::NeedInput { name }) => {
                if inputs_left.len() > 0 {
                    let next_input = inputs_left.remove(0);
                    proof {
                        assert(next_input@ == pre_inputs.first());
                        assert(strs_view(inputs_left@) =~= pre_inputs.drop_first());
                    }
                    exec.provide_input(name.as_str(), next_input);
                    proof {
                        assert(spec_run(pre, pre_inputs, pre_printed, pre_drawn, pre_fuel)
                            == spec_run(
                            exec@,
                            strs_view(inputs_left@),
                            pre_printed,
                            pre_drawn,
                            fuel_left as nat,
                        ));
                    }
                } else {
                    let outcome = RunOutcome {
                        printed,
                        drawn,
                        error: Some(
                            RunError {
                                line: err_line,
                                column: err_column,
                                kind: RunErrorKind::InputExhausted,
                            },
                        ),
                    };
                    proof {
                        assert(pre_inputs.len() == 0);
                        assert(spec_run(pre, pre_inputs, pre_printed, pre_drawn, pre_fuel) == Some(
                            outcome@,
                        ));
                    }
                    return Some(outcome);
                }
            },
            Err(e) => {
                let outcome = RunOutcome { printed, drawn, error: Some(e) };
                proof {
                    assert(spec_run(pre, pre_inputs, pre_printed, pre_drawn, pre_fuel) == Some(
                        outcome@,
                    ));
                }
                return Some(outcome);
            },
        }
    }
    proof {
        assert(spec_run(exec@, strs_view(inputs_left@), strs_view(printed@), drawn@, 0nat)
            is None);
    }
    None
}

} // verus!

verus! {

/// A GOTO to a line number absent from the program always aborts the run with
/// a jump error naming the statement's source line and the target's column.
pub proof fn lemma_goto_absent_target_fails(s: ExecutorV, target: i32)
    requires
        !s.halted,
        0 <= s.index < s.program.len(),
        s.program[s.index].tokens.len() == 2,
        s.program[s.index].tokens[0].1 == TokenV::Goto,
        s.program[s.index].tokens[1].1 == TokenV::Number(target),
        spec_find_line(s.program, target as u32) is None,
    ensures
        spec_step(s).1 == Err::<ActionV, RunErrorV>(
            RunErrorV {
                line: s.program[s.index].line_number,
                column: s.program[s.index].tokens[1].0,
                kind: RunErrorKindV::JumpTarget { target: target as u32 },
            },
        ),
        spec_step(s).0.halted,
{
}

/// A failing step aborts the whole run: the step's error is the run's
/// outcome, and no later statement adds to what was printed or drawn.
pub proof fn lemma_failed_step_aborts_run(
    s: ExecutorV,
    inputs: Seq<Seq<char>>,
    printed: Seq<Seq<char>>,
    drawn: Seq<DrawCommand>,
    fuel: nat,
    e: RunErrorV,
)
    requires
        fuel > 0,
        spec_step(s).1 == Err::<ActionV, RunErrorV>(e),
    ensures
        spec_run(s, inputs, printed, drawn, fuel) == Some(
            RunOutcomeV { printed, drawn, error: Some(e) },
        ),
{
}

/// An IF whose condition holds and whose THEN target line number is absent
/// from the program always aborts the run with a jump error naming the
/// statement's source line and leading column.
pub proof fn lemma_if_absent_target_fails(s: ExecutorV, stop: int, target: i32)
    requires
        !s.halted,
        0 <= s.index < s.program.len(),
        s.program[s.index].tokens.len() > 0,
        s.program[s.index].tokens[0].1 == TokenV::If,
        spec_parse_and_eval(s.program[s.index].tokens, 1, s.variables) == Ok::<_, EvalErrorV>(
            (ValueV::Bool(true), stop),
        ),
        stop + 2 == s.program[s.index].tokens.len(),
        s.program[s.index].tokens[stop].1 == TokenV::Then,
        s.program[s.index].tokens[stop + 1].1 == TokenV::Number(target),
        spec_find_line(s.program, target as u32) is None,
    ensures
        spec_step(s).1 == Err::<ActionV, RunErrorV>(
            RunErrorV {
                line: s.program[s.index].line_number,
                column: s.program[s.index].tokens[0].0,
                kind: RunErrorKindV::JumpTarget { target: target as u32 },
            },
        ),
        spec_step(s).0.halted,
{
}

} // verus!
