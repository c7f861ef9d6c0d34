//! Lowering of a program tree into a compiled unit.
//!
//! A [`Compiler`] owns the in-progress code buffer, constant pool and
//! symbol table for one function body. Every emission operation is
//! described exactly by a functional model (`lower_expr`, `lower_stmt`,
//! `lower_block`, `compile_main_model`) over a [`CompilerView`]; the
//! executable methods are proved to implement that model.

use vstd::prelude::*;

use crate::ast::{Expression, Operator, Statement};
use crate::value::Value;
use crate::vm::Instruction;

verus! {

/// A compile-time failure. Compilation of a function body aborts on the
/// first failure; no partial compiled unit is ever returned.
#[derive(Clone, Copy, Debug, PartialEq, Eq, Structural)]
pub enum CompileError {
    /// A local name was declared a second time in the same function.
    RedeclaredLocal,
    /// A referenced name was never declared.
    UndeclaredLocal,
    /// The constant pool outgrew its 32-bit index encoding.
    ConstantPoolOverflow,
    /// The local slots outgrew their 32-bit index encoding.
    LocalOverflow,
    /// A branch offset does not fit the signed 32-bit encoding.
    BranchOutOfRange,
    /// The tree holds a node the compiler does not lower.
    UnsupportedConstruct,
}

/// The immutable artifact of compiling one function body: a name, an
/// instruction sequence, a constant pool, and the local-name table (slot
/// index to declared name, for introspection only).
#[derive(Debug)]
pub struct CompiledBlock {
    pub name: String,
    pub code: Vec<Instruction>,
    pub consts: Vec<Value>,
    pub locals: Vec<String>,
}

impl CompiledBlock {
    /// The declared local names, by slot index.
    pub open spec fn local_names(self) -> Seq<Seq<char>> {
        self.locals@.map_values(|s: String| s@)
    }
}

/// The mathematical state of a compiler: its code buffer, constant pool
/// and symbol table (the name of slot `i` is `locals[i]`).
#[verifier::ext_equal]
pub ghost struct CompilerView {
    pub code: Seq<Instruction>,
    pub consts: Seq<Value>,
    pub locals: Seq<Seq<char>>,
}

/// An opaque handle to a reserved branch instruction awaiting its offset.
#[derive(Clone, Copy)]
pub struct JumpPatch {
    pos: usize,
}

impl JumpPatch {
    /// The code-buffer position of the reserved branch.
    pub closed spec fn pos(self) -> int {
        self.pos as int
    }
}

/// An opaque handle to an already-known code position, the destination of
/// a later backward jump.
#[derive(Clone, Copy)]
pub struct BranchTarget {
    pos: usize,
}

impl BranchTarget {
    /// The captured code-buffer position.
    pub closed spec fn pos(self) -> int {
        self.pos as int
    }
}

/// The slot index of `name` in the symbol table `locals`: the first index
/// holding `name`, or `-1` when `name` is unbound.
pub open spec fn find_slot(locals: Seq<Seq<char>>, name: Seq<char>) -> int
    decreases locals.len(),
{
    if locals.len() == 0 {
        -1
    } else if locals[0] == name {
        0
    } else {
        let r = find_slot(locals.skip(1), name);
        if r == -1 {
            -1
        } else {
            r + 1
        }
    }
}

/// What `find_slot` returns: either `-1` and the name is nowhere in the
/// table, or the first index at which the name stands.
pub proof fn lemma_find_slot(locals: Seq<Seq<char>>, name: Seq<char>)
    ensures
        find_slot(locals, name) == -1 ==> forall|j: int|
            0 <= j < locals.len() ==> locals[j] != name,
        find_slot(locals, name) != -1 ==> {
            &&& 0 <= find_slot(locals, name) < locals.len()
            &&& locals[find_slot(locals, name)] == name
            &&& forall|j: int| 0 <= j < find_slot(locals, name) ==> locals[j] != name
        },
    decreases locals.len(),
{
    if locals.len() > 0 && locals[0] != name {
        lemma_find_slot(locals.skip(1), name);
        assert forall|j: int| 1 <= j < locals.len() implies locals.skip(1)[j - 1] == locals[j] by {}
    }
}

/// Appending `v` to the constant pool and emitting the load of it, unless
/// the pool has outgrown its 32-bit index encoding.
pub open spec fn load_const_step(cv: CompilerView, v: Value) -> Result<CompilerView, CompileError> {
    if cv.consts.len() > u32::MAX as int {
        Err(CompileError::ConstantPoolOverflow)
    } else {
        Ok(
            CompilerView {
                code: cv.code.push(Instruction::LoadConst(cv.consts.len() as u32)),
                consts: cv.consts.push(v),
                locals: cv.locals,
            },
        )
    }
}

/// Binding `name` to the next sequential slot, unless it is already bound
/// or the slots have outgrown their 32-bit index encoding.
pub open spec fn declare_step(cv: CompilerView, name: Seq<char>) -> Result<
    (CompilerView, u32),
    CompileError,
> {
    if cv.locals.len() > u32::MAX as int {
        Err(CompileError::LocalOverflow)
    } else if find_slot(cv.locals, name) != -1 {
        Err(CompileError::RedeclaredLocal)
    } else {
        Ok(
            (
                CompilerView { code: cv.code, consts: cv.consts, locals: cv.locals.push(name) },
                cv.locals.len() as u32,
            ),
        )
    }
}

/// The arithmetic instruction an operator lowers to, or `None` for an
/// operator the compiler does not lower.
pub open spec fn op_instruction(op: Operator) -> Option<Instruction> {
    match op {
        Operator::Add => Some(Instruction::Add),
        Operator::Sub => Some(Instruction::Sub),
        Operator::Mul => Some(Instruction::Mul),
        Operator::Div => Some(Instruction::Div),
        Operator::Mod => Some(Instruction::Mod),
        _ => None,
    }
}

/// Lowering one expression: literals load a constant, an identifier loads
/// its slot, a binary expression lowers its left operand, then its right
/// operand, then the matching arithmetic instruction. Any other node
/// fails. The symbol table is never changed by an expression.
pub open spec fn lower_expr(e: Expression, cv: CompilerView) -> Result<
    CompilerView,
    CompileError,
>
    decreases e,
{
    match e {
        Expression::Int(a) => load_const_step(cv, Value::Int(a as i128)),
        Expression::Double(bits) => load_const_step(cv, Value::Double(bits)),
        Expression::Identifier(name) => {
            let s = find_slot(cv.locals, name@);
            if s == -1 {
                Err(CompileError::UndeclaredLocal)
            } else {
                Ok(
                    CompilerView {
                        code: cv.code.push(Instruction::LoadLocal(s as u32)),
                        consts: cv.consts,
                        locals: cv.locals,
                    },
                )
            }
        },
        Expression::Binary(l, op, r) => match lower_expr(*l, cv) {
            Err(er) => Err(er),
            Ok(cv1) => match lower_expr(*r, cv1) {
                Err(er) => Err(er),
                Ok(cv2) => match op_instruction(op) {
                    Some(instr) => Ok(
                        CompilerView {
                            code: cv2.code.push(instr),
                            consts: cv2.consts,
                            locals: cv2.locals,
                        },
                    ),
                    None => Err(CompileError::UnsupportedConstruct),
                },
            },
        },
        _ => Err(CompileError::UnsupportedConstruct),
    }
}

/// Lowering one statement: a declaration with an initializer lowers the
/// initializer, declares the local, and stores to the new slot; a bare
/// declaration only reserves the slot; an expression statement lowers the
/// expression and leaves its value on the operand stack. Any other form
/// fails.
pub open spec fn lower_stmt(s: Statement, cv: CompilerView) -> Result<
    CompilerView,
    CompileError,
> {
    match s {
        Statement::Expression(e) => lower_expr(e, cv),
        Statement::Variable(name, initializer) => match initializer {
            None => match declare_step(cv, name@) {
                Err(er) => Err(er),
                Ok((cv1, _slot)) => Ok(cv1),
            },
            Some(init) => match lower_expr(init, cv) {
                Err(er) => Err(er),
                Ok(cv1) => match declare_step(cv1, name@) {
                    Err(er) => Err(er),
                    Ok((cv2, slot)) => Ok(
                        CompilerView {
                            code: cv2.code.push(Instruction::StoreLocal(slot)),
                            consts: cv2.consts,
                            locals: cv2.locals,
                        },
                    ),
                },
            },
        },
        _ => Err(CompileError::UnsupportedConstruct),
    }
}

/// Lowering a statement sequence in order, stopping at the first failure.
pub open spec fn lower_block(stmts: Seq<Statement>, cv: CompilerView) -> Result<
    CompilerView,
    CompileError,
>
    decreases stmts.len(),
{
    if stmts.len() == 0 {
        Ok(cv)
    } else {
        match lower_stmt(stmts[0], cv) {
            Err(er) => Err(er),
            Ok(cv1) => lower_block(stmts.skip(1), cv1),
        }
    }
}

/// Lowering a whole function body: every statement in order, then the
/// implicit epilogue that loads the null value and returns, so that every
/// compiled unit has a well-defined result.
pub open spec fn compile_main_model(stmts: Seq<Statement>, cv: CompilerView) -> Result<
    CompilerView,
    CompileError,
> {
    match lower_block(stmts, cv) {
        Err(er) => Err(er),
        Ok(cv1) => match load_const_step(cv1, Value::Nil) {
            Err(er) => Err(er),
            Ok(cv2) => Ok(
                CompilerView {
                    code: cv2.code.push(Instruction::Return),
                    consts: cv2.consts,
                    locals: cv2.locals,
                },
            ),
        },
    }
}

/// The instruction a placeholder at `pos` is overwritten with when the
/// offset `delta` is patched in: the same branch kind, carrying `delta`.
pub open spec fn repatched(i: Instruction, delta: i32) -> Instruction {
    match i {
        Instruction::Jump(_) => Instruction::Jump(delta),
        Instruction::BranchTrue(_) => Instruction::BranchTrue(delta),
        Instruction::BranchFalse(_) => Instruction::BranchFalse(delta),
        _ => i,
    }
}

/// Whether an instruction is one of the three patchable branch kinds.
pub open spec fn is_patchable(i: Instruction) -> bool {
    match i {
        Instruction::Jump(_) => true,
        Instruction::BranchTrue(_) => true,
        Instruction::BranchFalse(_) => true,
        _ => false,
    }
}

/// The compiler for one function body. It exclusively owns its in-progress
/// buffers during one compilation and must not be reused across bodies.
pub struct Compiler {
    locals: Vec<String>,
    code: Vec<Instruction>,
    consts: Vec<Value>,
}

impl View for Compiler {
    type V = CompilerView;

    closed spec fn view(&self) -> CompilerView {
        CompilerView {
            code: self.code@,
            consts: self.consts@,
            locals: self.locals@.map_values(|s: String| s@),
        }
    }
}

impl Compiler {
    /// The compiler's internal bound: the symbol table never outgrows the
    /// 32-bit slot encoding by more than the one check `declare_local`
    /// performs, so every stored slot index fits in 32 bits.
    pub open spec fn wf(self) -> bool {
        self@.locals.len() <= u32::MAX as int + 1
    }

    /// A fresh compiler with empty buffers.
    pub fn new() -> (c: Compiler)
        ensures
            c.wf(),
            c@.code == Seq::<Instruction>::empty(),
            c@.consts == Seq::<Value>::empty(),
            c@.locals == Seq::<Seq<char>>::empty(),
    {
        let c = Compiler { locals: Vec::new(), code: Vec::new(), consts: Vec::new() };
        proof {
            assert(c@.locals =~= Seq::<Seq<char>>::empty());
        }
        c
    }

    /// Binds `name` to the next sequential slot index: dense, zero-based,
    /// never reused. Fails with `RedeclaredLocal` when `name` is already
    /// bound, and with `LocalOverflow` when the slot count would exceed
    /// the 32-bit index encoding.
    #[verifier::loop_isolation(false)]
    pub fn declare_local(&mut self, name: &str) -> (r: Result<u32, CompileError>)
        ensures
            old(self).wf() ==> final(self).wf(),
            final(self)@.code == old(self)@.code,
            final(self)@.consts == old(self)@.consts,
            match declare_step(old(self)@, name@) {
                Ok((cv, slot)) => r == Ok::<u32, CompileError>(slot) && final(self)@ == cv,
                Err(er) => r == Err::<u32, CompileError>(er) && final(self)@ == old(self)@,
            },
    {
        let index = self.locals.len();
        if index > u32::MAX as usize {
            proof {
                assert(self@ =~= old(self)@);
            }
            return Err(CompileError::LocalOverflow);
        }
        let name_owned: String = name.to_owned();
        let ghost locals0 = self@.locals;
        let mut j: usize = 0;
        while j < self.locals.len()
            invariant
                *self == *old(self),
                self@.locals == locals0,
                j <= self.locals.len(),
                name_owned@ == name@,
                forall|k: int| 0 <= k < j ==> locals0[k] != name@,
            decreases self.locals.len() - j,
        {
            proof {
                assert(locals0[j as int] == self.locals@.map_values(|s: String| s@)[j as int]);
            }
            if self.locals[j] == name_owned {
                proof {
                    assert(locals0[j as int] == name@);
                    lemma_find_slot(locals0, name@);
                    assert(find_slot(locals0, name@) != -1);
                    assert(old(self)@.locals.len() <= u32::MAX as int);
                    assert(self@ =~= old(self)@);
                }
                return Err(CompileError::RedeclaredLocal);
            }
            j += 1;
        }
        proof {
            lemma_find_slot(locals0, name@);
        }
        self.locals.push(name_owned);
        proof {
            assert(self@.locals =~= locals0.push(name@));
            assert(self@ =~= match declare_step(old(self)@, name@) {
                Ok((cv, _)) => cv,
                Err(_) => self@,
            });
        }
        Ok(index as u32)
    }

    /// Resolves a previously declared name to its slot index; fails with
    /// `UndeclaredLocal` when the name is unbound.
    #[verifier::loop_isolation(false)]
    pub fn fetch_local(&mut self, name: &str) -> (r: Result<u32, CompileError>)
        requires
            old(self).wf(),
        ensures
            *final(self) == *old(self),
            match r {
                Ok(slot) => slot as int == find_slot(final(self)@.locals, name@),
                Err(er) => er == CompileError::UndeclaredLocal && find_slot(final(self)@.locals, name@)
                    == -1,
            },
    {
        let name_owned: String = name.to_owned();
        let ghost locals0 = self@.locals;
        let mut j: usize = 0;
        while j < self.locals.len()
            invariant
                *self == *old(self),
                self@.locals == locals0,
                j <= self.locals.len(),
                name_owned@ == name@,
                forall|k: int| 0 <= k < j ==> locals0[k] != name@,
            decreases self.locals.len() - j,
        {
            proof {
                assert(locals0[j as int] == self.locals@.map_values(|s: String| s@)[j as int]);
            }
            if self.locals[j] == name_owned {
                proof {
                    assert(locals0[j as int] == name@);
                    lemma_find_slot_first(locals0, name@, j as int);
                    assert(j <= u32::MAX as usize);
                }
                return Ok(j as u32);
            }
            j += 1;
        }
        proof {
            lemma_find_slot(locals0, name@);
        }
        Err(CompileError::UndeclaredLocal)
    }

    /// Appends one instruction to the in-progress code buffer; always
    /// succeeds.
    pub fn emit(&mut self, instr: Instruction)
        ensures
            final(self)@.code == old(self)@.code.push(instr),
            final(self)@.consts == old(self)@.consts,
            final(self)@.locals == old(self)@.locals,
    {
        self.code.push(instr);
    }

    /// Appends `value` to the constant pool and emits the load of it;
    /// fails with `ConstantPoolOverflow` when the pool would exceed the
    /// 32-bit index encoding.
    pub fn emit_load_constant(&mut self, value: Value) -> (r: Result<(), CompileError>)
        ensures
            final(self)@.locals == old(self)@.locals,
            match load_const_step(old(self)@, value) {
                Ok(cv) => r == Ok::<(), CompileError>(()) && final(self)@ == cv,
                Err(er) => r == Err::<(), CompileError>(er) && final(self)@ == old(self)@,
            },
    {
        let index = self.consts.len();
        if index > u32::MAX as usize {
            return Err(CompileError::ConstantPoolOverflow);
        }
        self.consts.push(value);
        self.emit(Instruction::LoadConst(index as u32));
        Ok(())
    }

    /// Reserves a branch-on-false placeholder carrying a zero offset and
    /// returns the handle identifying its position for a later patch.
    pub fn emit_branch_false(&mut self) -> (p: JumpPatch)
        ensures
            p.pos() == old(self)@.code.len(),
            final(self)@.code == old(self)@.code.push(Instruction::BranchFalse(0)),
            final(self)@.consts == old(self)@.consts,
            final(self)@.locals == old(self)@.locals,
    {
        let result = JumpPatch { pos: self.code.len() };
        self.emit(Instruction::BranchFalse(0));
        result
    }

    /// Reserves a branch-on-true placeholder carrying a zero offset and
    /// returns the handle identifying its position for a later patch.
    pub fn emit_branch_true(&mut self) -> (p: JumpPatch)
        ensures
            p.pos() == old(self)@.code.len(),
            final(self)@.code == old(self)@.code.push(Instruction::BranchTrue(0)),
            final(self)@.consts == old(self)@.consts,
            final(self)@.locals == old(self)@.locals,
    {
        let result = JumpPatch { pos: self.code.len() };
        self.emit(Instruction::BranchTrue(0));
        result
    }

    /// Records the current code length as the destination of a later
    /// backward jump.
    pub fn save_branch_target(&self) -> (t: BranchTarget)
        ensures
            t.pos() == self@.code.len(),
    {
        BranchTarget { pos: self.code.len() }
    }

    /// Overwrites the placeholder reserved at `patch` with the offset from
    /// its position to the current code length, preserving which branch
    /// kind it was. Fails with `BranchOutOfRange` when that offset does
    /// not fit the signed 32-bit encoding.
    pub fn patch_jump(&mut self, patch: JumpPatch) -> (r: Result<(), CompileError>)
        requires
            patch.pos() < old(self)@.code.len(),
            is_patchable(old(self)@.code[patch.pos()]),
        ensures
            final(self)@.consts == old(self)@.consts,
            final(self)@.locals == old(self)@.locals,
            ({
                let delta = old(self)@.code.len() - patch.pos();
                if i32::MIN <= delta <= i32::MAX {
                    r == Ok::<(), CompileError>(()) && final(self)@.code == old(self)@.code.update(
                        patch.pos(),
                        repatched(old(self)@.code[patch.pos()], delta as i32),
                    )
                } else {
                    r == Err::<(), CompileError>(CompileError::BranchOutOfRange) && final(self)@.code
                        == old(self)@.code
                }
            }),
    {
        let current = self.code.len();
        let branch_pos = patch.pos;
        let delta_wide: i128 = current as i128 - branch_pos as i128;
        if delta_wide > i32::MAX as i128 || delta_wide < i32::MIN as i128 {
            return Err(CompileError::BranchOutOfRange);
        }
        let delta = delta_wide as i32;
        let patched = match self.code[branch_pos] {
            Instruction::Jump(_) => Instruction::Jump(delta),
            Instruction::BranchTrue(_) => Instruction::BranchTrue(delta),
            Instruction::BranchFalse(_) => Instruction::BranchFalse(delta),
            other => other,
        };
        self.code[branch_pos] = patched;
        Ok(())
    }

    /// Emits an unconditional jump whose offset leads from its own
    /// position back to the captured `target`. Fails with
    /// `BranchOutOfRange` when the offset does not fit the signed 32-bit
    /// encoding.
    pub fn emit_jump_to(&mut self, target: BranchTarget) -> (r: Result<(), CompileError>)
        ensures
            final(self)@.consts == old(self)@.consts,
            final(self)@.locals == old(self)@.locals,
            ({
                let delta = target.pos() - old(self)@.code.len();
                if i32::MIN <= delta <= i32::MAX {
                    r == Ok::<(), CompileError>(()) && final(self)@.code == old(self)@.code.push(
                        Instruction::Jump(delta as i32),
                    )
                } else {
                    r == Err::<(), CompileError>(CompileError::BranchOutOfRange) && final(self)@.code
                        == old(self)@.code
                }
            }),
    {
        let current = self.code.len();
        let delta_wide: i128 = target.pos as i128 - current as i128;
        if delta_wide > i32::MAX as i128 || delta_wide < i32::MIN as i128 {
            return Err(CompileError::BranchOutOfRange);
        }
        let delta = delta_wide as i32;
        self.emit(Instruction::Jump(delta));
        Ok(())
    }

    /// Lowers one statement, as `lower_stmt` describes.
    pub fn compile_statement(&mut self, statement: &Statement) -> (r: Result<(), CompileError>)
        requires
            old(self).wf(),
        ensures
            final(self).wf(),
            match lower_stmt(*statement, old(self)@) {
                Ok(cv) => r == Ok::<(), CompileError>(()) && final(self)@ == cv,
                Err(er) => r == Err::<(), CompileError>(er),
            },
    {
        match statement {
            Statement::Expression(e) => self.compile_expression(e),
            Statement::Variable(name, initializer) => match initializer {
                None => match self.declare_local(name.as_str()) {
                    Ok(_) => Ok(()),
                    Err(er) => Err(er),
                },
                Some(init) => match self.compile_expression(init) {
                    Err(er) => Err(er),
                    Ok(()) => match self.declare_local(name.as_str()) {
                        Err(er) => Err(er),
                        Ok(slot) => {
                            self.emit(Instruction::StoreLocal(slot));
                            Ok(())
                        },
                    },
                },
            },
            _ => Err(CompileError::UnsupportedConstruct),
        }
    }

    /// Lowers one expression, as `lower_expr` describes. The symbol table
    /// is never changed by an expression.
    pub fn compile_expression(&mut self, expression: &Expression) -> (r: Result<(), CompileError>)
        requires
            old(self).wf(),
        ensures
            final(self).wf(),
            final(self)@.locals == old(self)@.locals,
            match lower_expr(*expression, old(self)@) {
                Ok(cv) => r == Ok::<(), CompileError>(()) && final(self)@ == cv,
                Err(er) => r == Err::<(), CompileError>(er),
            },
        decreases *expression,
    {
        match expression {
            Expression::Int(a) => self.emit_load_constant(
                Value::Int(#[verifier::truncate] (*a as i128)),
            ),
            Expression::Double(bits) => self.emit_load_constant(Value::Double(*bits)),
            Expression::Identifier(name) => match self.fetch_local(name.as_str()) {
                Err(er) => Err(er),
                Ok(slot) => {
                    self.emit(Instruction::LoadLocal(slot));
                    Ok(())
                },
            },
            Expression::Binary(l, op, r) => match self.compile_expression(l) {
                Err(er) => Err(er),
                Ok(()) => match self.compile_expression(r) {
                    Err(er) => Err(er),
                    Ok(()) => match op {
                        Operator::Add => {
                            self.emit(Instruction::Add);
                            Ok(())
                        },
                        Operator::Sub => {
                            self.emit(Instruction::Sub);
                            Ok(())
                        },
                        Operator::Mul => {
                            self.emit(Instruction::Mul);
                            Ok(())
                        },
                        Operator::Div => {
                            self.emit(Instruction::Div);
                            Ok(())
                        },
                        Operator::Mod => {
                            self.emit(Instruction::Mod);
                            Ok(())
                        },
                        _ => Err(CompileError::UnsupportedConstruct),
                    },
                },
            },
            _ => Err(CompileError::UnsupportedConstruct),
        }
    }

    /// Lowers every statement of `block` in order, appends the implicit
    /// epilogue (load null, return), and packages the result as an
    /// immutable compiled unit named `name`, draining the symbol table
    /// into the unit's index-ordered local-name table. On failure no unit
    /// is returned.
    #[verifier::loop_isolation(false)]
    pub fn compile_main(&mut self, block: &Vec<Statement>, name: &str) -> (r: Result<
        CompiledBlock,
        CompileError,
    >)
        requires
            old(self).wf(),
        ensures
            match compile_main_model(block@, old(self)@) {
                Ok(cv) => match r {
                    Ok(unit) => {
                        &&& unit.name@ == name@
                        &&& unit.code@ == cv.code
                        &&& unit.consts@ == cv.consts
                        &&& unit.local_names() == cv.locals
                    },
                    Err(_) => false,
                },
                Err(er) => r == Err::<CompiledBlock, CompileError>(er),
            },
            match r {
                Ok(unit) => buffer_ok(old(self)@) ==> crate::vm::wf_unit(unit),
                Err(_) => true,
            },
    {
        let ghost cv0 = self@;
        proof {
            assert(block@.skip(0) =~= block@);
        }
        let mut k: usize = 0;
        while k < block.len()
            invariant
                k <= block.len(),
                self.wf(),
                lower_block(block@, cv0) == lower_block(block@.skip(k as int), self@),
            decreases block.len() - k,
        {
            let ghost pre = self@;
            let ghost rest = block@.skip(k as int);
            proof {
                assert(rest.len() == block@.len() - k);
                assert(rest[0] == block@[k as int]);
            }
            match self.compile_statement(&block[k]) {
                Ok(()) => {},
                Err(er) => {
                    proof {
                        assert(lower_block(rest, pre) == Err::<CompilerView, CompileError>(er));
                    }
                    return Err(er);
                },
            }
            proof {
                assert(block@.skip(k as int).skip(1) =~= block@.skip(k as int + 1));
            }
            k += 1;
        }
        proof {
            assert(block@.skip(block@.len() as int) =~= Seq::<Statement>::empty());
            assert(lower_block(block@, cv0) == Ok::<CompilerView, CompileError>(self@));
        }
        match self.emit_load_constant(Value::Nil) {
            Ok(()) => {},
            Err(er) => {
                return Err(er);
            },
        }
        self.emit(Instruction::Return);
        let mut code: Vec<Instruction> = Vec::new();
        let mut consts: Vec<Value> = Vec::new();
        let mut locals: Vec<String> = Vec::new();
        core::mem::swap(&mut code, &mut self.code);
        core::mem::swap(&mut consts, &mut self.consts);
        core::mem::swap(&mut locals, &mut self.locals);
        let unit = CompiledBlock { name: name.to_owned(), code, consts, locals };
        proof {
            assert(unit.local_names() =~= match compile_main_model(block@, cv0) {
                Ok(cv) => cv.locals,
                Err(_) => unit.local_names(),
            });
            if buffer_ok(cv0) {
                lemma_compiled_unit_wf(block@, cv0);
            }
        }
        Ok(unit)
    }
}

/// A buffer whose instructions are all valid when judged one position
/// past the current length: embedded indices within the current pool and
/// symbol table, branch targets and fall-throughs no further than the
/// current end. Every emission of the compiler keeps this; appending more
/// code can only widen the limits. A fresh compiler's empty buffer has it
/// trivially.
pub open spec fn buffer_ok(cv: CompilerView) -> bool {
    forall|p: int|
        0 <= p < cv.code.len() ==> crate::vm::instr_ok_at(
            #[trigger] cv.code[p],
            p,
            cv.code.len() as int + 1,
            cv.consts.len() as int,
            cv.locals.len() as int,
        )
}

/// Validity of an instruction at a position is kept when the limits only
/// widen.
proof fn lemma_instr_ok_widen(
    i: Instruction,
    pos: int,
    limit1: int,
    nconsts1: int,
    nlocals1: int,
    limit2: int,
    nconsts2: int,
    nlocals2: int,
)
    requires
        crate::vm::instr_ok_at(i, pos, limit1, nconsts1, nlocals1),
        limit1 <= limit2,
        nconsts1 <= nconsts2,
        nlocals1 <= nlocals2,
    ensures
        crate::vm::instr_ok_at(i, pos, limit2, nconsts2, nlocals2),
{
}

/// Lowering an expression only appends code and constants, never touches
/// the symbol table, and keeps the buffer valid.
proof fn lemma_lower_expr_ok(e: Expression, cv: CompilerView)
    ensures
        match lower_expr(e, cv) {
            Ok(cv1) => {
                &&& cv1.locals == cv.locals
                &&& cv1.code.len() >= cv.code.len()
                &&& cv1.consts.len() >= cv.consts.len()
                &&& buffer_ok(cv) ==> buffer_ok(cv1)
            },
            Err(_) => true,
        },
    decreases e,
{
    match e {
        Expression::Identifier(name) => {
            lemma_find_slot(cv.locals, name@);
        },
        Expression::Binary(l, op, r) => {
            lemma_lower_expr_ok(*l, cv);
            if let Ok(cv1) = lower_expr(*l, cv) {
                lemma_lower_expr_ok(*r, cv1);
                if let Ok(cv2) = lower_expr(*r, cv1) {
                    if let Some(instr) = op_instruction(op) {
                        assert forall|p: int|
                            buffer_ok(cv) && 0 <= p < cv2.code.push(instr).len() implies
                            crate::vm::instr_ok_at(
                                #[trigger] cv2.code.push(instr)[p],
                                p,
                                cv2.code.push(instr).len() as int + 1,
                                cv2.consts.len() as int,
                                cv2.locals.len() as int,
                            ) by {
                            if p < cv2.code.len() {
                                assert(cv2.code.push(instr)[p] == cv2.code[p]);
                                lemma_instr_ok_widen(
                                    cv2.code[p],
                                    p,
                                    cv2.code.len() as int + 1,
                                    cv2.consts.len() as int,
                                    cv2.locals.len() as int,
                                    cv2.code.len() as int + 2,
                                    cv2.consts.len() as int,
                                    cv2.locals.len() as int,
                                );
                            }
                        }
                    }
                }
            }
        },
        _ => {},
    }
}

/// Lowering a statement can only append code and constants and grow the
/// symbol table, and keeps the buffer valid.
proof fn lemma_lower_stmt_ok(s: Statement, cv: CompilerView)
    ensures
        match lower_stmt(s, cv) {
            Ok(cv1) => {
                &&& cv1.locals.len() >= cv.locals.len()
                &&& cv1.code.len() >= cv.code.len()
                &&& cv1.consts.len() >= cv.consts.len()
                &&& buffer_ok(cv) ==> buffer_ok(cv1)
            },
            Err(_) => true,
        },
{
    match s {
        Statement::Expression(e) => {
            lemma_lower_expr_ok(e, cv);
        },
        Statement::Variable(name, initializer) => {
            match initializer {
                None => {},
                Some(init) => {
                    lemma_lower_expr_ok(init, cv);
                    if let Ok(cv1) = lower_expr(init, cv) {
                        if let Ok((cv2, slot)) = declare_step(cv1, name@) {
                            let pushed = cv2.code.push(Instruction::StoreLocal(slot));
                            assert forall|p: int|
                                buffer_ok(cv) && 0 <= p < pushed.len() implies
                                crate::vm::instr_ok_at(
                                    #[trigger] pushed[p],
                                    p,
                                    pushed.len() as int + 1,
                                    cv2.consts.len() as int,
                                    cv2.locals.len() as int,
                                ) by {
                                if p < cv2.code.len() {
                                    assert(pushed[p] == cv2.code[p]);
                                    lemma_instr_ok_widen(
                                        cv2.code[p],
                                        p,
                                        cv2.code.len() as int + 1,
                                        cv1.consts.len() as int,
                                        cv1.locals.len() as int,
                                        cv2.code.len() as int + 2,
                                        cv2.consts.len() as int,
                                        cv2.locals.len() as int,
                                    );
                                } else {
                                    assert(pushed[p] == Instruction::StoreLocal(slot));
                                    assert(slot < cv2.locals.len());
                                }
                            }
                        }
                    }
                },
            }
        },
        _ => {},
    }
}

/// Lowering a whole statement sequence keeps the buffer valid.
proof fn lemma_lower_block_ok(stmts: Seq<Statement>, cv: CompilerView)
    ensures
        match lower_block(stmts, cv) {
            Ok(cv1) => {
                &&& cv1.locals.len() >= cv.locals.len()
                &&& cv1.code.len() >= cv.code.len()
                &&& cv1.consts.len() >= cv.consts.len()
                &&& buffer_ok(cv) ==> buffer_ok(cv1)
            },
            Err(_) => true,
        },
    decreases stmts.len(),
{
    if stmts.len() > 0 {
        lemma_lower_stmt_ok(stmts[0], cv);
        if let Ok(cv1) = lower_stmt(stmts[0], cv) {
            lemma_lower_block_ok(stmts.skip(1), cv1);
        }
    }
}

/// The compiler's safety theorem: from a valid buffer (a fresh compiler's
/// in particular), whatever unit `compile_main` produces is well-formed,
/// so the virtual machine can run it without ever getting stuck.
pub proof fn lemma_compiled_unit_wf(stmts: Seq<Statement>, cv: CompilerView)
    requires
        buffer_ok(cv),
    ensures
        match compile_main_model(stmts, cv) {
            Ok(cvf) => crate::vm::wf_code(cvf.code, cvf.consts.len() as int, cvf.locals.len() as int),
            Err(_) => true,
        },
{
    lemma_lower_block_ok(stmts, cv);
    if let Ok(cv1) = lower_block(stmts, cv) {
        if let Ok(cv2) = load_const_step(cv1, Value::Nil) {
            let code_f = cv2.code.push(Instruction::Return);
            let nconsts = cv2.consts.len() as int;
            let nlocals = cv2.locals.len() as int;
            assert forall|p: int| 0 <= p < code_f.len() implies crate::vm::instr_ok_at(
                #[trigger] code_f[p],
                p,
                code_f.len() as int,
                nconsts,
                nlocals,
            ) by {
                if p < cv1.code.len() {
                    assert(code_f[p] == cv1.code[p]);
                    lemma_instr_ok_widen(
                        cv1.code[p],
                        p,
                        cv1.code.len() as int + 1,
                        cv1.consts.len() as int,
                        cv1.locals.len() as int,
                        code_f.len() as int,
                        nconsts,
                        nlocals,
                    );
                } else if p == cv1.code.len() {
                    assert(code_f[p] == Instruction::LoadConst(cv1.consts.len() as u32));
                } else {
                    assert(code_f[p] == Instruction::Return);
                }
            }
        }
    }
}

/// A name found at index `at` with no earlier occurrence is exactly what
/// `find_slot` returns.
proof fn lemma_find_slot_first(locals: Seq<Seq<char>>, name: Seq<char>, at: int)
    requires
        0 <= at < locals.len(),
        locals[at] == name,
        forall|j: int| 0 <= j < at ==> locals[j] != name,
    ensures
        find_slot(locals, name) == at,
    decreases locals.len(),
{
    if at > 0 {
        assert forall|j: int| 0 <= j < at - 1 implies locals.skip(1)[j] != name by {
            assert(locals.skip(1)[j] == locals[j + 1]);
        }
        assert(locals.skip(1)[at - 1] == locals[at]);
        lemma_find_slot_first(locals.skip(1), name, at - 1);
    }
}

} // verus!
