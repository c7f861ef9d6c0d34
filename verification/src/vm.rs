//! The virtual machine: instruction set, operand stack, call frames, heap
//! arena, and the dispatch loop.
//!
//! Execution is specified by a small-step interpreter over ghost machine
//! states (`step`, iterated by `run`); the executable dispatch loop is
//! proved to implement it. Heap objects live in an arena owned by the
//! machine and are referenced by handle, so a heap reference can never
//! dangle; the intrusive allocation list is the chain of `next` handles
//! rooted at the machine's head.

use vstd::prelude::*;

use crate::compiler::CompiledBlock;
use crate::double::{
    double_add_bits, double_div_bits, double_mul_bits, double_rem_bits, double_sub_bits,
};
use crate::value::{HeapValue, HeapValueType, Value, ValueKind};

verus! {

/// One operation of a compiled unit's code. Operands are embedded: a
/// 32-bit constant-pool index, a 32-bit local-slot index, a signed 32-bit
/// branch offset relative to the instruction's own position, or an 8-bit
/// argument count.
///
/// `Concat`, `Neg`, the six comparisons and `Put` are reserved: they are
/// part of the vocabulary for a complete language, are never emitted by
/// the compiler, and the machine rejects them with a runtime error rather
/// than treating them as silent no-ops.
#[derive(Clone, Copy, Debug, PartialEq, Eq, Structural)]
pub enum Instruction {
    Add,
    Sub,
    Mul,
    Div,
    Mod,
    Concat,
    Neg,
    Lt,
    LtEq,
    Gt,
    GtEq,
    Eq,
    NEq,
    LoadConst(u32),
    LoadLocal(u32),
    StoreLocal(u32),
    BranchTrue(i32),
    BranchFalse(i32),
    Jump(i32),
    Pop,
    Return,
    Put,
    Call(u8),
}

/// The function a frame of execution runs: the unit handed to `execute`
/// itself, or a function-kind heap object, by handle.
#[derive(Clone, Copy, Debug, PartialEq, Eq, Structural)]
pub enum FuncId {
    Main,
    Heap(usize),
}

/// Saved caller state, pushed on a call and popped on the matching
/// return: the caller's local-slot array, its instruction index (the call
/// site), and its function identity.
pub struct CallInfo {
    locals: Vec<Value>,
    ip: usize,
    func: FuncId,
}

/// The mathematical content of a call frame.
#[verifier::ext_equal]
pub ghost struct FrameView {
    pub locals: Seq<Value>,
    pub ip: int,
    pub func: FuncId,
}

impl View for CallInfo {
    type V = FrameView;

    closed spec fn view(&self) -> FrameView {
        FrameView { locals: self.locals@, ip: self.ip as int, func: self.func }
    }
}

/// The reason a runtime failure halted execution.
#[derive(Clone, Copy, Debug, PartialEq, Eq, Structural)]
pub enum RuntimeFault {
    /// An instruction needed more operands than the stack held.
    StackUnderflow,
    /// A binary operation met operands that are not both integers nor
    /// both doubles; the tags are the left and right operand's.
    OperandTypeMismatch(ValueKind, ValueKind),
    /// The callee of a call was not a heap reference to a function-kind
    /// object.
    NotCallable,
    /// An integer division or remainder met a zero divisor.
    DivisionByZero,
    /// A call carried more arguments than the callee declares local
    /// slots, so the arguments could not be copied into slots.
    ArityMismatch,
    /// A reserved instruction reached the dispatch loop.
    ReservedInstruction,
}

/// A runtime failure: the instruction index and opcode at which execution
/// halted, and the fault.
#[derive(Clone, Copy, Debug, PartialEq, Eq, Structural)]
pub struct RuntimeError {
    pub ip: usize,
    pub instruction: Instruction,
    pub fault: RuntimeFault,
}

/// How a bounded execution ended without failing: the program returned
/// from its outermost frame, or the step budget ran out first.
#[derive(Clone, Copy, Debug, PartialEq, Eq, Structural)]
pub enum Completion {
    Halted,
    OutOfSteps,
}

/// Whether the instruction at position `pos` is valid for a unit whose
/// code positions are below `limit`, with `nconsts` pool entries and
/// `nlocals` local slots: embedded indices are in range, branch targets
/// land below `limit`, and an instruction that can fall through has a
/// successor below `limit`.
pub open spec fn instr_ok_at(
    i: Instruction,
    pos: int,
    limit: int,
    nconsts: int,
    nlocals: int,
) -> bool {
    match i {
        Instruction::LoadConst(c) => c < nconsts && pos + 1 < limit,
        Instruction::LoadLocal(l) => l < nlocals && pos + 1 < limit,
        Instruction::StoreLocal(l) => l < nlocals && pos + 1 < limit,
        Instruction::Add => pos + 1 < limit,
        Instruction::Sub => pos + 1 < limit,
        Instruction::Mul => pos + 1 < limit,
        Instruction::Div => pos + 1 < limit,
        Instruction::Mod => pos + 1 < limit,
        Instruction::Pop => pos + 1 < limit,
        Instruction::BranchTrue(d) => 0 <= pos + d < limit && pos + 1 < limit,
        Instruction::BranchFalse(d) => 0 <= pos + d < limit && pos + 1 < limit,
        Instruction::Jump(d) => 0 <= pos + d < limit,
        Instruction::Call(_) => pos + 1 < limit,
        Instruction::Return => true,
        _ => true,
    }
}

/// Well-formed code for a unit with `nconsts` pool entries and `nlocals`
/// local slots: non-empty, every instruction valid at its position with
/// the code's own length as the limit. The dispatch loop never leaves the
/// code of a well-formed unit.
pub open spec fn wf_code(code: Seq<Instruction>, nconsts: int, nlocals: int) -> bool {
    &&& code.len() > 0
    &&& forall|p: int|
        0 <= p < code.len() ==> instr_ok_at(#[trigger] code[p], p, code.len() as int, nconsts, nlocals)
}

/// A well-formed compiled unit: its code is well-formed for its own pool
/// and local table.
pub open spec fn wf_unit(b: CompiledBlock) -> bool {
    wf_code(b.code@, b.consts@.len() as int, b.locals@.len() as int)
}

/// Every function-kind object of the heap wraps a well-formed unit.
pub open spec fn funcs_wf(heap: Seq<HeapValue>) -> bool {
    forall|h: int|
        0 <= h < heap.len() ==> match #[trigger] heap[h].kind {
            HeapValueType::Function(b) => wf_unit(b),
            _ => true,
        }
}

/// The allocation links of the arena: the machine's head names the newest
/// object, and every object links to the one allocated just before it.
/// Walking the links from the head therefore visits every allocated
/// object exactly once, newest first.
pub open spec fn links_wf(heap: Seq<HeapValue>, head: Option<usize>) -> bool {
    &&& head == if heap.len() == 0 {
        Option::<usize>::None
    } else {
        Option::<usize>::Some((heap.len() - 1) as usize)
    }
    &&& forall|h: int|
        0 <= h < heap.len() ==> #[trigger] heap[h].next == if h == 0 {
            Option::<usize>::None
        } else {
            Option::<usize>::Some((h - 1) as usize)
        }
}

/// Whether `f` names a function the machine can run: the main unit, or a
/// live handle to a function-kind heap object.
pub open spec fn valid_func(main: CompiledBlock, heap: Seq<HeapValue>, f: FuncId) -> bool {
    match f {
        FuncId::Main => true,
        FuncId::Heap(h) => h < heap.len() && (heap[h as int].kind matches HeapValueType::Function(
            _,
        )),
    }
}

/// The unit `f` names; meaningful only when `valid_func` holds.
pub open spec fn unit_of(main: CompiledBlock, heap: Seq<HeapValue>, f: FuncId) -> CompiledBlock {
    match f {
        FuncId::Main => main,
        FuncId::Heap(h) => match heap[h as int].kind {
            HeapValueType::Function(b) => b,
            _ => main,
        },
    }
}

/// One ghost state of the dispatch loop: the shared operand stack, the
/// call-frame stack, and the running frame's local slots, instruction
/// index and function identity.
#[verifier::ext_equal]
pub ghost struct ExecState {
    pub stack: Seq<Value>,
    pub frames: Seq<FrameView>,
    pub locals: Seq<Value>,
    pub ip: int,
    pub func: FuncId,
}

/// The result of one dispatch step.
pub ghost enum Step {
    /// Execution continues in the given state.
    Next(ExecState),
    /// A return met an empty call-frame stack: the machine halts with
    /// this final state.
    Halt(ExecState),
    /// A runtime failure halts execution.
    Failed(RuntimeError),
    /// The state does not admit a step (the instruction index or an
    /// embedded index is out of range). Unreachable from a well-formed
    /// unit, which the safety clauses of `execute` prove.
    Stuck,
}

/// The result of a bounded run.
pub ghost enum Outcome {
    /// The budget ran out with execution still going.
    Ongoing(ExecState),
    /// The machine halted in the given state.
    Halted(ExecState),
    /// A runtime failure.
    Failed(RuntimeError),
    /// A stuck state was reached; unreachable from a well-formed unit.
    Stuck,
}

/// Truncated (round-toward-zero) division of `a` by `b`, wrapped to the
/// 128-bit signed range: the single overflowing case, the minimum value
/// divided by minus one, wraps to the minimum value.
pub open spec fn vm_div_val(a: i128, b: i128) -> i128 {
    let x = a as int;
    let d = b as int;
    let output = if x == 0 {
        0
    } else if x > 0 && d > 0 {
        x / d
    } else if x < 0 && d < 0 {
        ((x * -1) / (d * -1))
    } else if x < 0 {
        ((x * -1) / d) * -1
    } else {
        (x / (d * -1)) * -1
    };
    if output < i128::MIN || output > i128::MAX {
        i128::MIN
    } else {
        output as i128
    }
}

/// Truncated remainder of `a` by `b` (the counterpart of `vm_div_val`):
/// the sign follows the dividend; the minimum value modulo minus one is
/// zero.
pub open spec fn vm_rem_val(a: i128, b: i128) -> i128 {
    if a == i128::MIN && b == -1 {
        0
    } else {
        let x = a as int;
        let d = b as int;
        let output = if x == 0 {
            0
        } else if x > 0 && d > 0 {
            x % d
        } else if x < 0 && d < 0 {
            ((x * -1) % (d * -1)) * -1
        } else if x < 0 {
            ((x * -1) % d) * -1
        } else {
            x % (d * -1)
        };
        if output < i128::MIN || output > i128::MAX {
            0
        } else {
            output as i128
        }
    }
}

/// The value a binary instruction produces from left operand `l` and
/// right operand `r`, or the fault it raises: both operands must be
/// integers, or both doubles. Integer addition, subtraction and
/// multiplication wrap on overflow; integer division and remainder fault
/// on a zero divisor. Double arithmetic is IEEE-754, by bit pattern.
pub open spec fn binop_spec(op: Instruction, l: Value, r: Value) -> Result<Value, RuntimeFault> {
    match (l, r) {
        (Value::Int(a), Value::Int(b)) => match op {
            Instruction::Add => Ok(Value::Int(vstd::wrapping::i128_specs::wrapping_add(a, b))),
            Instruction::Sub => Ok(Value::Int(vstd::wrapping::i128_specs::wrapping_sub(a, b))),
            Instruction::Mul => Ok(Value::Int(vstd::wrapping::i128_specs::wrapping_mul(a, b))),
            Instruction::Div => if b == 0 {
                Err(RuntimeFault::DivisionByZero)
            } else {
                Ok(Value::Int(vm_div_val(a, b)))
            },
            Instruction::Mod => if b == 0 {
                Err(RuntimeFault::DivisionByZero)
            } else {
                Ok(Value::Int(vm_rem_val(a, b)))
            },
            _ => Err(RuntimeFault::ReservedInstruction),
        },
        (Value::Double(a), Value::Double(b)) => match op {
            Instruction::Add => Ok(Value::Double(double_add_bits(a, b))),
            Instruction::Sub => Ok(Value::Double(double_sub_bits(a, b))),
            Instruction::Mul => Ok(Value::Double(double_mul_bits(a, b))),
            Instruction::Div => Ok(Value::Double(double_div_bits(a, b))),
            Instruction::Mod => Ok(Value::Double(double_rem_bits(a, b))),
            _ => Err(RuntimeFault::ReservedInstruction),
        },
        _ => Err(RuntimeFault::OperandTypeMismatch(l.kind_spec(), r.kind_spec())),
    }
}

/// Whether an instruction is one of the five binary arithmetic
/// operations.
pub open spec fn is_binop(i: Instruction) -> bool {
    match i {
        Instruction::Add => true,
        Instruction::Sub => true,
        Instruction::Mul => true,
        Instruction::Div => true,
        Instruction::Mod => true,
        _ => false,
    }
}

/// Whether an instruction is reserved: declared in the vocabulary but
/// rejected by the machine.
pub open spec fn is_reserved(i: Instruction) -> bool {
    match i {
        Instruction::Concat => true,
        Instruction::Neg => true,
        Instruction::Lt => true,
        Instruction::LtEq => true,
        Instruction::Gt => true,
        Instruction::GtEq => true,
        Instruction::Eq => true,
        Instruction::NEq => true,
        Instruction::Put => true,
        _ => false,
    }
}

/// One dispatch step of the machine running `main` against `heap`, from
/// state `s`. Branch and jump instructions set the instruction index
/// themselves; every other continuing instruction advances it by one.
pub open spec fn step(main: CompiledBlock, heap: Seq<HeapValue>, s: ExecState) -> Step {
    if !valid_func(main, heap, s.func) {
        Step::Stuck
    } else {
        let unit = unit_of(main, heap, s.func);
        let code = unit.code@;
        if !(0 <= s.ip < code.len()) {
            Step::Stuck
        } else {
            let op = code[s.ip];
            let err = |fault: RuntimeFault| Step::Failed(
                RuntimeError { ip: s.ip as usize, instruction: op, fault },
            );
            match op {
                Instruction::LoadConst(c) => if c < unit.consts@.len() {
                    Step::Next(
                        ExecState { stack: s.stack.push(unit.consts@[c as int]), ip: s.ip + 1, ..s },
                    )
                } else {
                    Step::Stuck
                },
                Instruction::LoadLocal(l) => if l < s.locals.len() {
                    Step::Next(
                        ExecState { stack: s.stack.push(s.locals[l as int]), ip: s.ip + 1, ..s },
                    )
                } else {
                    Step::Stuck
                },
                Instruction::StoreLocal(l) => if s.stack.len() == 0 {
                    err(RuntimeFault::StackUnderflow)
                } else if l < s.locals.len() {
                    Step::Next(
                        ExecState {
                            stack: s.stack.drop_last(),
                            locals: s.locals.update(l as int, s.stack.last()),
                            ip: s.ip + 1,
                            ..s
                        },
                    )
                } else {
                    Step::Stuck
                },
                Instruction::BranchTrue(d) => if s.stack.len() == 0 {
                    err(RuntimeFault::StackUnderflow)
                } else {
                    let target = if s.stack.last().truthy() {
                        s.ip + d
                    } else {
                        s.ip + 1
                    };
                    Step::Next(ExecState { stack: s.stack.drop_last(), ip: target, ..s })
                },
                Instruction::BranchFalse(d) => if s.stack.len() == 0 {
                    err(RuntimeFault::StackUnderflow)
                } else {
                    let target = if !s.stack.last().truthy() {
                        s.ip + d
                    } else {
                        s.ip + 1
                    };
                    Step::Next(ExecState { stack: s.stack.drop_last(), ip: target, ..s })
                },
                Instruction::Jump(d) => Step::Next(ExecState { ip: s.ip + d, ..s }),
                Instruction::Pop => if s.stack.len() == 0 {
                    err(RuntimeFault::StackUnderflow)
                } else {
                    Step::Next(ExecState { stack: s.stack.drop_last(), ip: s.ip + 1, ..s })
                },
                Instruction::Return => if s.frames.len() == 0 {
                    Step::Halt(s)
                } else {
                    let fr = s.frames.last();
                    Step::Next(
                        ExecState {
                            stack: s.stack,
                            frames: s.frames.drop_last(),
                            locals: fr.locals,
                            ip: fr.ip + 1,
                            func: fr.func,
                        },
                    )
                },
                Instruction::Call(n) => if s.stack.len() < n + 1 {
                    err(RuntimeFault::StackUnderflow)
                } else {
                    let base = s.stack.len() - n - 1;
                    match s.stack[base as int] {
                        Value::HeapValue(h) => if h < heap.len() && (heap[h as int].kind matches
                            HeapValueType::Function(_)) {
                            let callee = unit_of(main, heap, FuncId::Heap(h));
                            let nloc = callee.locals@.len();
                            if n > nloc {
                                err(RuntimeFault::ArityMismatch)
                            } else {
                                let new_locals = Seq::new(
                                    nloc,
                                    |i: int|
                                        if i < n {
                                            s.stack[base as int + 1 + i]
                                        } else {
                                            Value::Nil
                                        },
                                );
                                Step::Next(
                                    ExecState {
                                        stack: s.stack.take(base as int),
                                        frames: s.frames.push(
                                            FrameView { locals: s.locals, ip: s.ip, func: s.func },
                                        ),
                                        locals: new_locals,
                                        ip: 0,
                                        func: FuncId::Heap(h),
                                    },
                                )
                            }
                        } else {
                            err(RuntimeFault::NotCallable)
                        },
                        _ => err(RuntimeFault::NotCallable),
                    }
                },
                _ => if s.stack.len() < 2 {
                    if is_binop(op) {
                        err(RuntimeFault::StackUnderflow)
                    } else {
                        err(RuntimeFault::ReservedInstruction)
                    }
                } else if is_reserved(op) {
                    err(RuntimeFault::ReservedInstruction)
                } else {
                    let r = s.stack.last();
                    let l = s.stack[s.stack.len() - 2];
                    match binop_spec(op, l, r) {
                        Ok(v) => Step::Next(
                            ExecState {
                                stack: s.stack.drop_last().drop_last().push(v),
                                ip: s.ip + 1,
                                ..s
                            },
                        ),
                        Err(fault) => err(fault),
                    }
                },
            }
        }
    }
}

/// `steps` dispatch steps from `s`, or fewer when the machine halts,
/// fails, or gets stuck first.
pub open spec fn run(main: CompiledBlock, heap: Seq<HeapValue>, s: ExecState, steps: nat) -> Outcome
    decreases steps,
{
    if steps == 0 {
        Outcome::Ongoing(s)
    } else {
        match step(main, heap, s) {
            Step::Next(s2) => run(main, heap, s2, (steps - 1) as nat),
            Step::Halt(s2) => Outcome::Halted(s2),
            Step::Failed(e) => Outcome::Failed(e),
            Step::Stuck => Outcome::Stuck,
        }
    }
}

/// The state a machine with operand stack `stack` starts in when asked to
/// execute `main`: no call frames, the local slots sized to the unit's
/// declared count and undefined (null) until first assignment, the
/// instruction index at zero.
pub open spec fn init_state(stack: Seq<Value>, main: CompiledBlock) -> ExecState {
    ExecState {
        stack: stack,
        frames: Seq::empty(),
        locals: Seq::new(main.locals@.len(), |i: int| Value::Nil),
        ip: 0,
        func: FuncId::Main,
    }
}

/// The virtual machine: one growable operand stack shared by every call
/// frame, the call-frame stack, and the heap arena with the head of the
/// allocation list.
pub struct VirtualMachine {
    stack: Vec<Value>,
    calls: Vec<CallInfo>,
    heap: Vec<HeapValue>,
    next: Option<usize>,
}

impl VirtualMachine {
    /// The machine's internal invariant: every function object on the
    /// heap is well-formed, and the allocation links chain the arena
    /// newest-first.
    pub open spec fn inv(self) -> bool {
        &&& funcs_wf(self.heap_view())
        &&& links_wf(self.heap_view(), self.head_spec())
    }

    /// The operand stack.
    pub closed spec fn stack_view(self) -> Seq<Value> {
        self.stack@
    }

    /// The call frames, bottom to top.
    pub closed spec fn frames_view(self) -> Seq<FrameView> {
        self.calls@.map_values(|c: CallInfo| c@)
    }

    /// The heap arena, in allocation order.
    pub closed spec fn heap_view(self) -> Seq<HeapValue> {
        self.heap@
    }

    /// The head of the allocation list.
    pub closed spec fn head_spec(self) -> Option<usize> {
        self.next
    }

    /// A fresh machine: empty stack, no frames, nothing allocated.
    pub fn new() -> (vm: VirtualMachine)
        ensures
            vm.inv(),
            vm.stack_view() == Seq::<Value>::empty(),
            vm.frames_view() == Seq::<FrameView>::empty(),
            vm.heap_view() == Seq::<HeapValue>::empty(),
            vm.head_spec() == Option::<usize>::None,
    {
        let vm = VirtualMachine { stack: Vec::new(), calls: Vec::new(), heap: Vec::new(), next: None };
        proof {
            assert(vm.frames_view() =~= Seq::<FrameView>::empty());
        }
        vm
    }

    /// Read access to the operand stack.
    pub fn stack(&self) -> (s: &Vec<Value>)
        ensures
            s@ == self.stack_view(),
    {
        &self.stack
    }

    /// The current call nesting depth.
    pub fn call_depth(&self) -> (d: usize)
        ensures
            d == self.frames_view().len(),
    {
        self.calls.len()
    }

    /// The number of objects ever allocated by this machine.
    pub fn heap_len(&self) -> (n: usize)
        ensures
            n == self.heap_view().len(),
    {
        self.heap.len()
    }

    /// The head of the allocation list: the newest allocation, or `None`
    /// when nothing was allocated yet.
    pub fn head(&self) -> (h: Option<usize>)
        ensures
            h == self.head_spec(),
    {
        self.next
    }

    /// The forward allocation link of the object at handle `h`.
    pub fn heap_next(&self, h: usize) -> (n: Option<usize>)
        requires
            h < self.heap_view().len(),
        ensures
            n == self.heap_view()[h as int].next,
    {
        self.heap[h].next
    }

    /// Constructs a new heap object around `kind`, links it at the head
    /// of the allocation list, and returns a heap reference to it. No
    /// collection is ever triggered; the list exists as the traversal
    /// path of a future collector. A function object must wrap a
    /// well-formed unit, so that executing it stays safe.
    pub fn allocate(&mut self, kind: HeapValueType) -> (v: Value)
        requires
            old(self).inv(),
            match kind {
                HeapValueType::Function(b) => wf_unit(b),
                _ => true,
            },
        ensures
            final(self).inv(),
            v == Value::HeapValue(old(self).heap_view().len() as usize),
            final(self).heap_view().len() == old(self).heap_view().len() + 1,
            final(self).heap_view()[old(self).heap_view().len() as int].kind == kind,
            final(self).heap_view()[old(self).heap_view().len() as int].next == old(self).head_spec(),
            forall|i: int|
                0 <= i < old(self).heap_view().len() ==> final(self).heap_view()[i] == old(
                    self,
                ).heap_view()[i],
            final(self).head_spec() == Option::<usize>::Some(old(self).heap_view().len() as usize),
            final(self).stack_view() == old(self).stack_view(),
            final(self).frames_view() == old(self).frames_view(),
    {
        let handle = self.heap.len();
        let object = HeapValue { next: self.next, kind };
        self.heap.push(object);
        self.next = Some(handle);
        Value::HeapValue(handle)
    }

    /// The instruction at position `i` of the unit `f` names.
    fn unit_instr(&self, main: &CompiledBlock, f: FuncId, i: usize) -> (r: Instruction)
        requires
            valid_func(*main, self.heap_view(), f),
            i < unit_of(*main, self.heap_view(), f).code@.len(),
        ensures
            r == unit_of(*main, self.heap_view(), f).code@[i as int],
    {
        match f {
            FuncId::Main => main.code[i],
            FuncId::Heap(h) => match &self.heap[h].kind {
                HeapValueType::Function(b) => b.code[i],
                _ => {
                    proof {
                        assert(false);
                    }
                    Instruction::Return
                },
            },
        }
    }

    /// The constant at pool index `c` of the unit `f` names.
    fn unit_const(&self, main: &CompiledBlock, f: FuncId, c: usize) -> (r: Value)
        requires
            valid_func(*main, self.heap_view(), f),
            c < unit_of(*main, self.heap_view(), f).consts@.len(),
        ensures
            r == unit_of(*main, self.heap_view(), f).consts@[c as int],
    {
        match f {
            FuncId::Main => main.consts[c],
            FuncId::Heap(h) => match &self.heap[h].kind {
                HeapValueType::Function(b) => b.consts[c],
                _ => {
                    proof {
                        assert(false);
                    }
                    Value::Nil
                },
            },
        }
    }

    /// The code length of the unit `f` names.
    fn unit_code_len(&self, main: &CompiledBlock, f: FuncId) -> (r: usize)
        requires
            valid_func(*main, self.heap_view(), f),
        ensures
            r == unit_of(*main, self.heap_view(), f).code@.len(),
    {
        match f {
            FuncId::Main => main.code.len(),
            FuncId::Heap(h) => match &self.heap[h].kind {
                HeapValueType::Function(b) => b.code.len(),
                _ => {
                    proof {
                        assert(false);
                    }
                    0
                },
            },
        }
    }

    /// The declared local-slot count of the unit `f` names.
    fn unit_nlocals(&self, main: &CompiledBlock, f: FuncId) -> (r: usize)
        requires
            valid_func(*main, self.heap_view(), f),
        ensures
            r == unit_of(*main, self.heap_view(), f).locals@.len(),
    {
        match f {
            FuncId::Main => main.locals.len(),
            FuncId::Heap(h) => match &self.heap[h].kind {
                HeapValueType::Function(b) => b.locals.len(),
                _ => {
                    proof {
                        assert(false);
                    }
                    0
                },
            },
        }
    }
}

/// Validity of one saved call frame: it names a runnable function, its
/// saved local array matches that function's slot count, and the resume
/// position (one past the saved call site) is inside that function's code.
pub open spec fn frame_ok(main: CompiledBlock, heap: Seq<HeapValue>, fr: FrameView) -> bool {
    &&& valid_func(main, heap, fr.func)
    &&& 0 <= fr.ip
    &&& fr.ip + 1 < unit_of(main, heap, fr.func).code@.len()
    &&& fr.locals.len() == unit_of(main, heap, fr.func).locals@.len()
}

/// The dispatch loop's state invariant: the running function is valid,
/// the instruction index is inside its code, the local array matches its
/// slot count, and every saved frame is valid. Together with
/// well-formedness of every unit in play, it rules out stuck states.
pub open spec fn state_inv(main: CompiledBlock, heap: Seq<HeapValue>, s: ExecState) -> bool {
    &&& valid_func(main, heap, s.func)
    &&& 0 <= s.ip < unit_of(main, heap, s.func).code@.len()
    &&& s.locals.len() == unit_of(main, heap, s.func).locals@.len()
    &&& forall|k: int| 0 <= k < s.frames.len() ==> frame_ok(main, heap, #[trigger] s.frames[k])
}

/// Every function in play is well-formed: the one `f` names included.
pub proof fn lemma_unit_wf(main: CompiledBlock, heap: Seq<HeapValue>, f: FuncId)
    requires
        wf_unit(main),
        funcs_wf(heap),
        valid_func(main, heap, f),
    ensures
        wf_unit(unit_of(main, heap, f)),
{
    match f {
        FuncId::Main => {},
        FuncId::Heap(h) => {
            assert(heap[h as int].kind matches HeapValueType::Function(_));
        },
    }
}

/// The value a binary instruction produces, or the fault it raises,
/// exactly as `binop_spec` describes.
fn binop_exec(op: Instruction, l: Value, r: Value) -> (res: Result<Value, RuntimeFault>)
    requires
        is_binop(op),
    ensures
        res == binop_spec(op, l, r),
{
    match (l, r) {
        (Value::Int(a), Value::Int(b)) => match op {
            Instruction::Add => Ok(Value::Int(a.wrapping_add(b))),
            Instruction::Sub => Ok(Value::Int(a.wrapping_sub(b))),
            Instruction::Mul => Ok(Value::Int(a.wrapping_mul(b))),
            Instruction::Div => {
                if b == 0 {
                    Err(RuntimeFault::DivisionByZero)
                } else {
                    match a.checked_div(b) {
                        Some(v) => Ok(Value::Int(v)),
                        None => Ok(Value::Int(i128::MIN)),
                    }
                }
            },
            Instruction::Mod => {
                if b == 0 {
                    Err(RuntimeFault::DivisionByZero)
                } else {
                    match a.checked_rem(b) {
                        Some(v) => Ok(Value::Int(v)),
                        None => Ok(Value::Int(0)),
                    }
                }
            },
            _ => Err(RuntimeFault::ReservedInstruction),
        },
        (Value::Double(a), Value::Double(b)) => match op {
            Instruction::Add => Ok(Value::Double(crate::double::double_add(a, b))),
            Instruction::Sub => Ok(Value::Double(crate::double::double_sub(a, b))),
            Instruction::Mul => Ok(Value::Double(crate::double::double_mul(a, b))),
            Instruction::Div => Ok(Value::Double(crate::double::double_div(a, b))),
            Instruction::Mod => Ok(Value::Double(crate::double::double_rem(a, b))),
            _ => Err(RuntimeFault::ReservedInstruction),
        },
        _ => Err(RuntimeFault::OperandTypeMismatch(l.kind(), r.kind())),
    }
}

impl VirtualMachine {
    /// Executes `main` for at most `max_steps` dispatch steps, exactly as
    /// the small-step interpreter `run` describes from the initial state:
    /// the machine halts when a return meets an empty call-frame stack
    /// (the operand stack then holds the program's result), stops early
    /// when the step budget runs out, or surfaces the runtime failure
    /// `run` yields. The heap is never touched, and a well-formed unit
    /// never gets stuck: the interpreter's `Stuck` outcome is proved
    /// unreachable here.
    #[verifier::loop_isolation(false)]
    #[verifier::rlimit(60)]
    pub fn execute(&mut self, main: &CompiledBlock, max_steps: u64) -> (r: Result<
        Completion,
        RuntimeError,
    >)
        requires
            old(self).inv(),
            wf_unit(*main),
            old(self).frames_view().len() == 0,
        ensures
            final(self).inv(),
            final(self).heap_view() == old(self).heap_view(),
            final(self).head_spec() == old(self).head_spec(),
            match run(
                *main,
                old(self).heap_view(),
                init_state(old(self).stack_view(), *main),
                max_steps as nat,
            ) {
                Outcome::Ongoing(s) => r == Ok::<Completion, RuntimeError>(Completion::OutOfSteps)
                    && final(self).stack_view() == s.stack && final(self).frames_view() == s.frames,
                Outcome::Halted(s) => r == Ok::<Completion, RuntimeError>(Completion::Halted)
                    && final(self).stack_view() == s.stack && final(self).frames_view() == s.frames
                    && s.frames.len() == 0,
                Outcome::Failed(e) => r == Err::<Completion, RuntimeError>(e),
                Outcome::Stuck => false,
            },
    {
        let ghost heap0 = self.heap_view();
        let ghost init = init_state(self.stack_view(), *main);
        let mut locals: Vec<Value> = vec![Value::Nil; main.locals.len()];
        let mut ip: usize = 0;
        let mut cur: FuncId = FuncId::Main;
        let mut remaining: u64 = max_steps;
        proof {
            assert(self.frames_view() =~= init.frames);
            assert(locals@ =~= init.locals);
            assert((ExecState {
                stack: self.stack_view(),
                frames: self.frames_view(),
                locals: locals@,
                ip: ip as int,
                func: cur,
            }) =~= init);
        }
        while remaining > 0
            invariant
                self.heap_view() == heap0,
                self.head_spec() == old(self).head_spec(),
                state_inv(
                    *main,
                    heap0,
                    (ExecState {
                        stack: self.stack_view(),
                        frames: self.frames_view(),
                        locals: locals@,
                        ip: ip as int,
                        func: cur,
                    }),
                ),
                run(*main, heap0, init, max_steps as nat) == run(
                    *main,
                    heap0,
                    (ExecState {
                        stack: self.stack_view(),
                        frames: self.frames_view(),
                        locals: locals@,
                        ip: ip as int,
                        func: cur,
                    }),
                    remaining as nat,
                ),
            decreases remaining,
        {
            let ghost s0 = ExecState {
                stack: self.stack_view(),
                frames: self.frames_view(),
                locals: locals@,
                ip: ip as int,
                func: cur,
            };
            let ghost rem0 = remaining as nat;
            let ghost unit = unit_of(*main, heap0, cur);
            let op = self.unit_instr(main, cur, ip);
            let _code_len = self.unit_code_len(main, cur);
            proof {
                lemma_unit_wf(*main, heap0, cur);
                assert(instr_ok_at(
                    unit.code@[ip as int],
                    ip as int,
                    unit.code@.len() as int,
                    unit.consts@.len() as int,
                    unit.locals@.len() as int,
                ));
            }
            remaining = remaining - 1;
            match op {
                Instruction::LoadConst(c) => {
                    let v = self.unit_const(main, cur, c as usize);
                    self.stack.push(v);
                    ip = ip + 1;
                },
                Instruction::LoadLocal(l) => {
                    let v = locals[l as usize];
                    self.stack.push(v);
                    ip = ip + 1;
                },
                Instruction::StoreLocal(l) => {
                    let len = self.stack.len();
                    if len == 0 {
                        return Err(RuntimeError {
                            ip,
                            instruction: op,
                            fault: RuntimeFault::StackUnderflow,
                        });
                    }
                    let v = self.stack[len - 1];
                    self.stack.truncate(len - 1);
                    locals[l as usize] = v;
                    ip = ip + 1;
                    proof {
                        assert(self.stack_view() =~= s0.stack.drop_last());
                    }
                },
                Instruction::BranchTrue(d) => {
                    let len = self.stack.len();
                    if len == 0 {
                        return Err(RuntimeError {
                            ip,
                            instruction: op,
                            fault: RuntimeFault::StackUnderflow,
                        });
                    }
                    let c = self.stack[len - 1];
                    self.stack.truncate(len - 1);
                    proof {
                        assert(self.stack_view() =~= s0.stack.drop_last());
                    }
                    if c.is_truthy() {
                        let t: i128 = ip as i128 + d as i128;
                        proof {
                            assert(0 <= t < unit.code@.len());
                        }
                        ip = #[verifier::truncate] (t as usize);
                    } else {
                        ip = ip + 1;
                    }
                },
                Instruction::BranchFalse(d) => {
                    let len = self.stack.len();
                    if len == 0 {
                        return Err(RuntimeError {
                            ip,
                            instruction: op,
                            fault: RuntimeFault::StackUnderflow,
                        });
                    }
                    let c = self.stack[len - 1];
                    self.stack.truncate(len - 1);
                    proof {
                        assert(self.stack_view() =~= s0.stack.drop_last());
                    }
                    if !c.is_truthy() {
                        let t: i128 = ip as i128 + d as i128;
                        proof {
                            assert(0 <= t < unit.code@.len());
                        }
                        ip = #[verifier::truncate] (t as usize);
                    } else {
                        ip = ip + 1;
                    }
                },
                Instruction::Jump(d) => {
                    let t: i128 = ip as i128 + d as i128;
                    proof {
                        assert(0 <= t < unit.code@.len());
                    }
                    ip = #[verifier::truncate] (t as usize);
                },
                Instruction::Pop => {
                    let len = self.stack.len();
                    if len == 0 {
                        return Err(RuntimeError {
                            ip,
                            instruction: op,
                            fault: RuntimeFault::StackUnderflow,
                        });
                    }
                    self.stack.truncate(len - 1);
                    ip = ip + 1;
                    proof {
                        assert(self.stack_view() =~= s0.stack.drop_last());
                    }
                },
                Instruction::Return => {
                    match self.calls.pop() {
                        Some(frame) => {
                            proof {
                                assert(s0.frames.last() == frame@);
                                assert(self.frames_view() =~= s0.frames.drop_last());
                                assert(frame_ok(*main, heap0, frame@));
                            }
                            let CallInfo { locals: saved_locals, ip: saved_ip, func: saved_func } =
                                frame;
                            let _resumed_len = self.unit_code_len(main, saved_func);
                            locals = saved_locals;
                            ip = saved_ip + 1;
                            cur = saved_func;
                        },
                        None => {
                            proof {
                                assert(s0.frames.len() == 0);
                                assert(step(*main, heap0, s0) == Step::Halt(s0));
                            }
                            return Ok(Completion::Halted);
                        },
                    }
                },
                Instruction::Call(n) => {
                    let n_args = n as usize;
                    let len = self.stack.len();
                    if len < n_args + 1 {
                        return Err(RuntimeError {
                            ip,
                            instruction: op,
                            fault: RuntimeFault::StackUnderflow,
                        });
                    }
                    let base = len - n_args - 1;
                    let callee = self.stack[base];
                    match callee {
                        Value::HeapValue(h) => {
                            let callable = h < self.heap.len() && matches!(
                                &self.heap[h].kind,
                                HeapValueType::Function(_)
                            );
                            if !callable {
                                return Err(RuntimeError {
                                    ip,
                                    instruction: op,
                                    fault: RuntimeFault::NotCallable,
                                });
                            }
                            let nloc = self.unit_nlocals(main, FuncId::Heap(h));
                            if n_args > nloc {
                                return Err(RuntimeError {
                                    ip,
                                    instruction: op,
                                    fault: RuntimeFault::ArityMismatch,
                                });
                            }
                            let mut new_locals: Vec<Value> = vec![Value::Nil; nloc];
                            let mut i: usize = 0;
                            while i < n_args
                                invariant
                                    i <= n_args,
                                    new_locals@.len() == nloc,
                                    forall|j: int|
                                        0 <= j < i ==> new_locals@[j] == s0.stack[base + 1 + j],
                                    forall|j: int|
                                        i <= j < nloc ==> new_locals@[j] == Value::Nil,
                                    self.stack_view() == s0.stack,
                                decreases n_args - i,
                            {
                                new_locals[i] = self.stack[base + 1 + i];
                                i = i + 1;
                            }
                            self.stack.truncate(base);
                            let saved = CallInfo { locals, ip, func: cur };
                            self.calls.push(saved);
                            locals = new_locals;
                            cur = FuncId::Heap(h);
                            ip = 0;
                            proof {
                                let callee_unit = unit_of(*main, heap0, FuncId::Heap(h));
                                lemma_unit_wf(*main, heap0, FuncId::Heap(h));
                                assert(self.stack_view() =~= s0.stack.take(base as int));
                                assert(self.frames_view() =~= s0.frames.push(
                                    FrameView { locals: s0.locals, ip: s0.ip, func: s0.func },
                                ));
                                assert(locals@ =~= Seq::new(
                                    callee_unit.locals@.len(),
                                    |j: int|
                                        if j < n_args {
                                            s0.stack[base + 1 + j]
                                        } else {
                                            Value::Nil
                                        },
                                ));
                            }
                        },
                        _ => {
                            return Err(RuntimeError {
                                ip,
                                instruction: op,
                                fault: RuntimeFault::NotCallable,
                            });
                        },
                    }
                },
                Instruction::Add
                | Instruction::Sub
                | Instruction::Mul
                | Instruction::Div
                | Instruction::Mod => {
                    let len = self.stack.len();
                    if len < 2 {
                        return Err(RuntimeError {
                            ip,
                            instruction: op,
                            fault: RuntimeFault::StackUnderflow,
                        });
                    }
                    let rv = self.stack[len - 1];
                    let lv = self.stack[len - 2];
                    match binop_exec(op, lv, rv) {
                        Ok(v) => {
                            self.stack.truncate(len - 2);
                            self.stack.push(v);
                            ip = ip + 1;
                            proof {
                                assert(self.stack_view() =~= s0.stack.drop_last().drop_last().push(
                                    v,
                                ));
                            }
                        },
                        Err(fault) => {
                            return Err(RuntimeError { ip, instruction: op, fault });
                        },
                    }
                },
                _ => {
                    return Err(RuntimeError {
                        ip,
                        instruction: op,
                        fault: RuntimeFault::ReservedInstruction,
                    });
                },
            }
            proof {
                let s1 = ExecState {
                    stack: self.stack_view(),
                    frames: self.frames_view(),
                    locals: locals@,
                    ip: ip as int,
                    func: cur,
                };
                assert(step(*main, heap0, s0) == Step::Next(s1));
                assert(run(*main, heap0, s0, rem0) == run(*main, heap0, s1, (rem0 - 1) as nat));
            }
        }
        proof {
            assert(run(*main, heap0, init, max_steps as nat) == Outcome::Ongoing(
                ExecState {
                    stack: self.stack_view(),
                    frames: self.frames_view(),
                    locals: locals@,
                    ip: ip as int,
                    func: cur,
                },
            ));
        }
        Ok(Completion::OutOfSteps)
    }
}

/// A forward branch-on-false patched to skip a span of `n` instructions
/// (the patch protocol stores offset `n + 1` for a placeholder reserved
/// at the branch's position and patched after `n` more instructions):
/// when the popped condition is falsy the branch is taken, and execution
/// resumes at the branch's position plus `n + 1` — exactly one past the
/// skipped span.
pub proof fn lemma_branch_false_skips_span(
    main: CompiledBlock,
    heap: Seq<HeapValue>,
    s: ExecState,
    n: int,
)
    requires
        valid_func(main, heap, s.func),
        0 <= s.ip < unit_of(main, heap, s.func).code@.len(),
        unit_of(main, heap, s.func).code@[s.ip] == Instruction::BranchFalse((n + 1) as i32),
        0 <= n + 1 <= i32::MAX,
        s.stack.len() > 0,
        !s.stack.last().truthy(),
    ensures
        step(main, heap, s) == Step::Next(
            ExecState { stack: s.stack.drop_last(), ip: s.ip + n + 1, ..s },
        ),
{
}

/// The branch-on-true counterpart of `lemma_branch_false_skips_span`:
/// with a truthy popped condition, execution resumes exactly one past the
/// `n` skipped instructions.
pub proof fn lemma_branch_true_skips_span(
    main: CompiledBlock,
    heap: Seq<HeapValue>,
    s: ExecState,
    n: int,
)
    requires
        valid_func(main, heap, s.func),
        0 <= s.ip < unit_of(main, heap, s.func).code@.len(),
        unit_of(main, heap, s.func).code@[s.ip] == Instruction::BranchTrue((n + 1) as i32),
        0 <= n + 1 <= i32::MAX,
        s.stack.len() > 0,
        s.stack.last().truthy(),
    ensures
        step(main, heap, s) == Step::Next(
            ExecState { stack: s.stack.drop_last(), ip: s.ip + n + 1, ..s },
        ),
{
}

/// A jump emitted against a captured target carries the offset from its
/// own position to that target; executing it resumes at precisely the
/// captured position.
pub proof fn lemma_jump_resumes_at_target(
    main: CompiledBlock,
    heap: Seq<HeapValue>,
    s: ExecState,
    target: int,
)
    requires
        valid_func(main, heap, s.func),
        0 <= s.ip < unit_of(main, heap, s.func).code@.len(),
        unit_of(main, heap, s.func).code@[s.ip] == Instruction::Jump((target - s.ip) as i32),
        i32::MIN <= target - s.ip <= i32::MAX,
    ensures
        step(main, heap, s) == Step::Next(ExecState { ip: target, ..s }),
{
}

/// A call to a function-kind heap object pushes exactly one frame
/// capturing the caller's local array, call-site index and function
/// identity — the call depth grows by one — and enters the callee at
/// instruction zero, its local array sized to the callee's declared count
/// with the arguments in the first slots; the callee and its arguments
/// leave the operand stack.
pub proof fn lemma_call_saves_caller(
    main: CompiledBlock,
    heap: Seq<HeapValue>,
    s: ExecState,
    n: u8,
    h: usize,
)
    requires
        valid_func(main, heap, s.func),
        0 <= s.ip < unit_of(main, heap, s.func).code@.len(),
        unit_of(main, heap, s.func).code@[s.ip] == Instruction::Call(n),
        s.stack.len() >= n + 1,
        s.stack[s.stack.len() - n - 1] == Value::HeapValue(h),
        valid_func(main, heap, FuncId::Heap(h)),
        n <= unit_of(main, heap, FuncId::Heap(h)).locals@.len(),
    ensures
        step(main, heap, s) == Step::Next(
            ExecState {
                stack: s.stack.take(s.stack.len() - n - 1),
                frames: s.frames.push(FrameView { locals: s.locals, ip: s.ip, func: s.func }),
                locals: Seq::new(
                    unit_of(main, heap, FuncId::Heap(h)).locals@.len(),
                    |i: int|
                        if i < n {
                            s.stack[s.stack.len() - n - 1 + 1 + i]
                        } else {
                            Value::Nil
                        },
                ),
                ip: 0,
                func: FuncId::Heap(h),
            },
        ),
{
}

/// A return above at least one frame pops exactly that frame and restores
/// the saved local array, function identity and instruction index: the
/// call depth shrinks by one and execution resumes one past the saved
/// call site.
pub proof fn lemma_return_restores_caller(main: CompiledBlock, heap: Seq<HeapValue>, s: ExecState)
    requires
        valid_func(main, heap, s.func),
        0 <= s.ip < unit_of(main, heap, s.func).code@.len(),
        unit_of(main, heap, s.func).code@[s.ip] == Instruction::Return,
        s.frames.len() > 0,
    ensures
        step(main, heap, s) == Step::Next(
            ExecState {
                stack: s.stack,
                frames: s.frames.drop_last(),
                locals: s.frames.last().locals,
                ip: s.frames.last().ip + 1,
                func: s.frames.last().func,
            },
        ),
{
}

/// A return with no frame below halts the machine; the operand stack's
/// contents at that point are the program's result.
pub proof fn lemma_return_at_depth_zero_halts(
    main: CompiledBlock,
    heap: Seq<HeapValue>,
    s: ExecState,
)
    requires
        valid_func(main, heap, s.func),
        0 <= s.ip < unit_of(main, heap, s.func).code@.len(),
        unit_of(main, heap, s.func).code@[s.ip] == Instruction::Return,
        s.frames.len() == 0,
    ensures
        step(main, heap, s) == Step::Halt(s),
{
}

/// A binary operation over operands that are not both integers nor both
/// doubles always faults, carrying the left and right operand's tags:
/// mixed operands are never coerced.
pub proof fn lemma_mixed_operands_mismatch(op: Instruction, l: Value, r: Value)
    requires
        is_binop(op),
        !(l matches Value::Int(_) && r matches Value::Int(_)),
        !(l matches Value::Double(_) && r matches Value::Double(_)),
    ensures
        binop_spec(op, l, r) == Err::<Value, RuntimeFault>(
            RuntimeFault::OperandTypeMismatch(l.kind_spec(), r.kind_spec()),
        ),
{
}

/// The handles visited by walking the forward allocation links from
/// `from`, stopping at the end of the chain or after `fuel` hops.
pub open spec fn walk_links(heap: Seq<HeapValue>, from: Option<usize>, fuel: nat) -> Seq<int>
    decreases fuel,
{
    match from {
        None => Seq::empty(),
        Some(h) => if fuel == 0 || h >= heap.len() {
            Seq::empty()
        } else {
            seq![h as int] + walk_links(heap, heap[h as int].next, (fuel - 1) as nat)
        },
    }
}

/// Walking the chain from handle `h` visits `h, h - 1, ..., 0` in order.
proof fn lemma_walk_from(heap: Seq<HeapValue>, h: int, fuel: nat)
    requires
        links_wf(heap, if heap.len() == 0 {
            Option::<usize>::None
        } else {
            Option::<usize>::Some((heap.len() - 1) as usize)
        }),
        heap.len() <= usize::MAX as int,
        0 <= h < heap.len(),
        fuel >= h + 1,
    ensures
        walk_links(heap, Some(h as usize), fuel) =~= Seq::new((h + 1) as nat, |i: int| h - i),
    decreases h,
{
    if h > 0 {
        lemma_walk_from(heap, h - 1, (fuel - 1) as nat);
        assert(heap[h].next == Some((h - 1) as usize));
        assert(walk_links(heap, Some(h as usize), fuel) =~= seq![h] + walk_links(
            heap,
            Some((h - 1) as usize),
            (fuel - 1) as nat,
        ));
    } else {
        assert(heap[0].next == Option::<usize>::None);
        assert(walk_links(heap, Option::<usize>::None, (fuel - 1) as nat) == Seq::<int>::empty());
        assert(walk_links(heap, Some(0usize), fuel) =~= seq![0int]);
    }
}

/// The law of the allocation list: each allocation prepends, so walking
/// the forward links from the machine's head visits every object the
/// machine ever allocated exactly once, most recently allocated first.
pub proof fn lemma_walk_visits_all_newest_first(heap: Seq<HeapValue>, head: Option<usize>)
    requires
        links_wf(heap, head),
        heap.len() <= usize::MAX as int,
    ensures
        walk_links(heap, head, heap.len()).len() == heap.len(),
        forall|i: int|
            0 <= i < heap.len() ==> walk_links(heap, head, heap.len())[i] == heap.len() - 1 - i,
        walk_links(heap, head, heap.len()).no_duplicates(),
{
    if heap.len() > 0 {
        lemma_walk_from(heap, heap.len() as int - 1, heap.len());
    }
    let walk = walk_links(heap, head, heap.len());
    assert forall|i: int, j: int|
        0 <= i < walk.len() && 0 <= j < walk.len() && i != j implies walk[i] != walk[j] by {}
}

} // verus!
