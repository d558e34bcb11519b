use vstd::prelude::*;

use crate::arithmetic::{dispatch, Proc};
use crate::ast::{copy_from, lemma_views_of, views_of, Expr, SExpr};
use crate::error::{CompileError, CompileFault, RuntimeError};
use crate::value::{Value, ValueType};
use crate::laws::law_normalize_two_and_idempotent;
use crate::words::{find_word, lookup, normalized, Registry, Word};

verus! {

/// How deeply a normalised expression may nest.
pub const MAX_DEPTH: usize = 256;

/// The runtime value stack.
#[derive(Debug)]
pub struct Stack(Vec<Value>);

impl View for Stack {
    type V = Seq<Value>;

    closed spec fn view(&self) -> Seq<Value> {
        self.0@
    }
}

impl Stack {
    pub fn new() -> (r: Stack)
        ensures
            r@ == Seq::<Value>::empty(),
    {
        Stack(Vec::new())
    }

    /// Pops the two top values; the deeper one comes first.
    pub fn consume_two(&mut self) -> (r: Result<(Value, Value), RuntimeError>)
        ensures
            old(self)@.len() < 2 ==> r == Err::<(Value, Value), RuntimeError>(
                RuntimeError::StackUnderflow,
            ) && final(self)@ == old(self)@,
            old(self)@.len() >= 2 ==> r == Ok::<(Value, Value), RuntimeError>(
                (old(self)@[old(self)@.len() - 2], old(self)@.last()),
            ) && final(self)@ == old(self)@.drop_last().drop_last(),
    {
        if self.0.len() < 2 {
            return Err(RuntimeError::StackUnderflow);
        }
        let b = self.0.pop().unwrap();
        let a = self.0.pop().unwrap();
        Ok((a, b))
    }

    pub fn push(&mut self, val: Value)
        ensures
            final(self)@ == old(self)@.push(val),
    {
        self.0.push(val)
    }
}

/// One step of a compiled program.
#[derive(Clone, Copy, Debug, PartialEq, Eq, Structural)]
pub enum Instruction {
    /// Push a constant.
    Literal(Value),
    /// Run a procedure on the top of the stack.
    Proc(Proc),
}

/// The stack after one instruction ran on `stack`.
pub open spec fn step(stack: Seq<Value>, ins: Instruction) -> Result<Seq<Value>, RuntimeError> {
    match ins {
        Instruction::Literal(v) => Ok(stack.push(v)),
        Instruction::Proc(p) => p.run_on(stack),
    }
}

/// The stack after `prog` ran from `stack`, or the first runtime error.
pub open spec fn run(prog: Seq<Instruction>, stack: Seq<Value>) -> Result<Seq<Value>, RuntimeError>
    decreases prog.len(),
{
    if prog.len() == 0 {
        Ok(stack)
    } else {
        match run(prog.drop_last(), stack) {
            Ok(s) => step(s, prog.last()),
            Err(e) => Err(e),
        }
    }
}

/// What evaluating `prog` on an empty stack gives: the top of the final stack,
/// if any.
pub open spec fn outcome(prog: Seq<Instruction>) -> Result<Option<Value>, RuntimeError> {
    match run(prog, Seq::empty()) {
        Ok(s) => Ok(
            if s.len() == 0 {
                None
            } else {
                Some(s.last())
            },
        ),
        Err(e) => Err(e),
    }
}

/// A compiled program: an immutable sequence of instructions.
#[derive(Debug)]
pub struct Program(Vec<Instruction>);

impl View for Program {
    type V = Seq<Instruction>;

    closed spec fn view(&self) -> Seq<Instruction> {
        self.0@
    }
}

/// The compiler's state: the instructions so far and the static types of the
/// values they leave on the stack.
pub struct BuildState {
    pub instructions: Seq<Instruction>,
    pub typestack: Seq<ValueType>,
}

/// The state before anything was compiled.
pub open spec fn empty_state() -> BuildState {
    BuildState { instructions: Seq::empty(), typestack: Seq::empty() }
}

/// The state after a literal was compiled.
pub open spec fn literal_spec(st: BuildState, v: Value) -> BuildState {
    BuildState {
        instructions: st.instructions.push(Instruction::Literal(v)),
        typestack: st.typestack.push(v.value_type()),
    }
}

/// The state after word `w` emitted its procedure for the two top types.
pub open spec fn emit_spec(w: Word, st: BuildState) -> Result<BuildState, CompileFault> {
    let ts = st.typestack;
    if ts.len() < 2 {
        Err(CompileFault::TypeStackUnderflow)
    } else {
        let a = ts[ts.len() - 2];
        let b = ts.last();
        match dispatch(w, a, b) {
            Some(p) => Ok(
                BuildState {
                    instructions: st.instructions.push(Instruction::Proc(p)),
                    typestack: ts.drop_last().drop_last().push(p.spec_output()),
                },
            ),
            None => Err(CompileFault::TypeMismatch(w, a, b)),
        }
    }
}

/// The state after one expression was compiled from `st`, with `depth`
/// levels of nesting left, or the first compile error.
pub open spec fn compile_expr(reg: Seq<Word>, e: SExpr, st: BuildState, depth: nat) -> Result<
    BuildState,
    CompileFault,
>
    decreases depth, 0nat,
{
    match e {
        SExpr::Literal(v) => Ok(literal_spec(st, v)),
        SExpr::Atom(name) => Err(CompileFault::UnexpectedAtom(name)),
        SExpr::List(items) => {
            if items.len() == 0 {
                Err(CompileFault::MalformedList)
            } else {
                match items[0] {
                    SExpr::Atom(name) => match find_word(reg, name) {
                        None => Err(CompileFault::UnknownOperator(name)),
                        Some(w) => {
                            let args = items.drop_first();
                            if args.len() < 2 {
                                Err(CompileFault::ArityMismatch(w, 2, args.len()))
                            } else if depth == 0 {
                                Err(CompileFault::NestingTooDeep)
                            } else {
                                match compile_seq(
                                    reg,
                                    normalized(w.spec_name(), args),
                                    st,
                                    (depth - 1) as nat,
                                ) {
                                    Ok(s) => emit_spec(w, s),
                                    Err(f) => Err(f),
                                }
                            }
                        },
                    },
                    _ => Err(CompileFault::MalformedList),
                }
            }
        },
    }
}

/// The state after a sequence of expressions was compiled from `st`, left
/// to right, or the first compile error.
pub open spec fn compile_seq(reg: Seq<Word>, es: Seq<SExpr>, st: BuildState, depth: nat) -> Result<
    BuildState,
    CompileFault,
>
    decreases depth, es.len() + 1,
{
    if es.len() == 0 {
        Ok(st)
    } else {
        match compile_seq(reg, es.drop_last(), st, depth) {
            Ok(s) => compile_expr(reg, es.last(), s, depth),
            Err(f) => Err(f),
        }
    }
}

/// Compiling top-level expressions from an empty state.
pub open spec fn compile(reg: Seq<Word>, es: Seq<SExpr>) -> Result<BuildState, CompileFault> {
    compile_seq(reg, es, empty_state(), MAX_DEPTH as nat)
}

/// `r` and `after` are what a step that yields `expected` returns and leaves.
pub open spec fn matches_result(
    expected: Result<BuildState, CompileFault>,
    r: Result<(), CompileError>,
    after: BuildState,
) -> bool {
    match expected {
        Ok(s) => r is Ok && after == s,
        Err(f) => r is Err && r->Err_0@ == f,
    }
}

pub open spec fn emit_result(
    w: Word,
    before: BuildState,
    r: Result<(), CompileError>,
    after: BuildState,
) -> bool {
    matches_result(emit_spec(w, before), r, after)
}

/// `after` keeps the instructions and the type stack of `before` as its
/// prefixes: nothing compiled earlier was removed or changed.
pub open spec fn extends(before: BuildState, after: BuildState) -> bool {
    &&& before.instructions.len() <= after.instructions.len()
    &&& after.instructions.take(before.instructions.len() as int) == before.instructions
    &&& before.typestack.len() <= after.typestack.len()
    &&& after.typestack.take(before.typestack.len() as int) == before.typestack
}

/// Compiles expression trees into a [`Program`].
pub struct ProgramBuilder<'a> {
    instructions: Vec<Instruction>,
    typestack: Vec<ValueType>,
    registry: &'a Registry,
}

impl<'a> View for ProgramBuilder<'a> {
    type V = BuildState;

    closed spec fn view(&self) -> BuildState {
        BuildState { instructions: self.instructions@, typestack: self.typestack@ }
    }
}

impl<'a> ProgramBuilder<'a> {
    /// The words the builder compiles with.
    pub closed spec fn registry(&self) -> Seq<Word> {
        self.registry@
    }

    pub fn new(registry: &'a Registry) -> (r: ProgramBuilder<'a>)
        ensures
            r@ == empty_state(),
            r.registry() == registry@,
    {
        ProgramBuilder { instructions: Vec::new(), typestack: Vec::new(), registry }
    }

    pub fn build(self) -> (r: Program)
        ensures
            r@ == self@.instructions,
    {
        Program(self.instructions)
    }

    /// Compiles `expressions` left to right, appending their instructions.
    /// On an error the builder is left exactly as it was.
    pub fn ingest(&mut self, expressions: &[Expr]) -> (r: Result<(), CompileError>)
        ensures
            final(self).registry() == old(self).registry(),
            matches_result(
                compile_seq(old(self).registry(), views_of(expressions@), old(self)@, MAX_DEPTH as nat),
                r,
                final(self)@,
            ),
            r is Err ==> final(self)@ == old(self)@,
    {
        let ghost before = self@;
        let n_instructions = self.instructions.len();
        let n_types = self.typestack.len();
        let r = self.ingest_within(expressions, MAX_DEPTH);
        if r.is_err() {
            self.instructions.truncate(n_instructions);
            self.typestack.truncate(n_types);
            proof {
                assert(self@.instructions =~= before.instructions);
                assert(self@.typestack =~= before.typestack);
            }
        }
        r
    }

    fn ingest_within(&mut self, expressions: &[Expr], depth: usize) -> (r: Result<(), CompileError>)
        ensures
            final(self).registry() == old(self).registry(),
            extends(old(self)@, final(self)@),
            r is Ok ==> final(self)@.typestack.len() == old(self)@.typestack.len()
                + expressions@.len(),
            matches_result(
                compile_seq(old(self).registry(), views_of(expressions@), old(self)@, depth as nat),
                r,
                final(self)@,
            ),
        decreases depth, 1nat,
    {
        let ghost reg = self.registry();
        let ghost st0 = self@;
        let ghost es = views_of(expressions@);
        proof {
            lemma_views_of(expressions@);
            lemma_extends_refl(st0);
        }
        let mut i: usize = 0;
        while i < expressions.len()
            invariant
                i <= expressions@.len(),
                reg == old(self).registry(),
                st0 == old(self)@,
                es == views_of(expressions@),
                es.len() == expressions@.len(),
                forall|j: int| 0 <= j < es.len() ==> #[trigger] es[j] == expressions@[j]@,
                self.registry() == reg,
                extends(st0, self@),
                self@.typestack.len() == st0.typestack.len() + i,
                compile_seq(reg, es.take(i as int), st0, depth as nat) == Ok::<
                    BuildState,
                    CompileFault,
                >(self@),
            decreases expressions@.len() - i,
        {
            proof {
                assert(es.take(i as int + 1).drop_last() =~= es.take(i as int));
            }
            let ghost mid = self@;
            let r = self.ingest_expr(&expressions[i], depth);
            assert(es.take(i as int + 1).last() == expressions@[i as int]@);
            proof {
                lemma_extends_trans(st0, mid, self@);
            }
            if r.is_err() {
                proof {
                    lemma_compile_seq_err_extends(reg, es, i as int + 1, st0, depth as nat);
                }
                return r;
            }
            i = i + 1;
        }
        proof {
            assert(es.take(es.len() as int) =~= es);
        }
        Ok(())
    }

    fn ingest_expr(&mut self, e: &Expr, depth: usize) -> (r: Result<(), CompileError>)
        ensures
            final(self).registry() == old(self).registry(),
            extends(old(self)@, final(self)@),
            r is Ok ==> final(self)@.typestack.len() == old(self)@.typestack.len() + 1,
            matches_result(
                compile_expr(old(self).registry(), e@, old(self)@, depth as nat),
                r,
                final(self)@,
            ),
        decreases depth, 0nat,
    {
        let ghost before = self@;
        proof {
            lemma_extends_refl(before);
        }
        match e {
            Expr::Literal(v) => {
                self.typestack.push(ValueType::from(v));
                self.instructions.push(Instruction::Literal(*v));
                proof {
                    assert(self@.instructions.take(before.instructions.len() as int)
                        =~= before.instructions);
                    assert(self@.typestack.take(before.typestack.len() as int) =~= before.typestack);
                }
                Ok(())
            },
            Expr::Atom(name) => Err(CompileError::UnexpectedAtom { name: name.clone() }),
            Expr::List(items) => {
                proof {
                    lemma_views_of(items@);
                }
                if items.len() == 0 {
                    return Err(CompileError::MalformedList);
                }
                let name = match &items[0] {
                    Expr::Atom(name) => name,
                    _ => return Err(CompileError::MalformedList),
                };
                let word = match lookup(self.registry, name.as_str()) {
                    Some(w) => w,
                    None => return Err(CompileError::UnknownOperator { name: name.clone() }),
                };
                let args = copy_from(items.as_slice(), 1);
                proof {
                    lemma_views_of(args@);
                    assert(views_of(items@).skip(1) =~= views_of(items@).drop_first());
                }
                if args.len() < 2 {
                    return Err(
                        CompileError::ArityMismatch { operator: word, expected: 2, got: args.len() },
                    );
                }
                if depth == 0 {
                    return Err(CompileError::NestingTooDeep);
                }
                let normalized_args = word.normalize(args.as_slice());
                proof {
                    law_normalize_two_and_idempotent(word.spec_name(), views_of(args@));
                    lemma_views_of(normalized_args@);
                }
                let traversed = word.traverse(normalized_args.as_slice(), self, depth - 1);
                if traversed.is_err() {
                    return traversed;
                }
                let ghost mid = self@;
                let emitted = word.emit(self);
                proof {
                    if emitted is Ok {
                        assert(normalized_args@.len() == 2);
                        assert(self@.instructions.take(before.instructions.len() as int)
                            =~= mid.instructions.take(before.instructions.len() as int));
                        assert(self@.typestack.take(before.typestack.len() as int)
                            =~= mid.typestack.take(before.typestack.len() as int));
                    }
                }
                emitted
            },
        }
    }

    /// The static types of the two top stack entries, the deeper one first.
    pub fn peek_two(&self) -> (r: Result<(ValueType, ValueType), CompileError>)
        ensures
            self@.typestack.len() < 2 ==> r is Err && r->Err_0@ == CompileFault::TypeStackUnderflow,
            self@.typestack.len() >= 2 ==> r == Ok::<(ValueType, ValueType), CompileError>(
                (self@.typestack[self@.typestack.len() - 2], self@.typestack.last()),
            ),
    {
        let n = self.typestack.len();
        if n < 2 {
            return Err(CompileError::TypeStackUnderflow);
        }
        Ok((self.typestack[n - 2], self.typestack[n - 1]))
    }

    /// Pops the two top static types, the deeper one first.
    pub fn consume_two(&mut self) -> (r: Result<(ValueType, ValueType), CompileError>)
        ensures
            final(self).registry() == old(self).registry(),
            final(self)@.instructions == old(self)@.instructions,
            old(self)@.typestack.len() < 2 ==> r is Err && r->Err_0@
                == CompileFault::TypeStackUnderflow,
            old(self)@.typestack.len() >= 2 ==> r == Ok::<(ValueType, ValueType), CompileError>(
                (old(self)@.typestack[old(self)@.typestack.len() - 2], old(self)@.typestack.last()),
            ) && final(self)@.typestack == old(self)@.typestack.drop_last().drop_last(),
    {
        if self.typestack.len() < 2 {
            return Err(CompileError::TypeStackUnderflow);
        }
        let b = self.typestack.pop().unwrap();
        let a = self.typestack.pop().unwrap();
        Ok((a, b))
    }

    /// Appends a call of `proc` and records the type of its result.
    pub fn push_proc(&mut self, proc: Proc)
        ensures
            final(self).registry() == old(self).registry(),
            final(self)@.instructions == old(self)@.instructions.push(Instruction::Proc(proc)),
            final(self)@.typestack == old(self)@.typestack.push(proc.spec_output()),
    {
        self.typestack.push(proc.output());
        self.instructions.push(Instruction::Proc(proc))
    }
}

impl Word {
    /// Compiles the (normalised) arguments of the word left to right, with
    /// `depth` levels of nesting left.
    pub fn traverse(&self, args: &[Expr], builder: &mut ProgramBuilder, depth: usize) -> (r: Result<
        (),
        CompileError,
    >)
        ensures
            final(builder).registry() == old(builder).registry(),
            extends(old(builder)@, final(builder)@),
            r is Ok ==> final(builder)@.typestack.len() == old(builder)@.typestack.len()
                + args@.len(),
            matches_result(
                compile_seq(old(builder).registry(), views_of(args@), old(builder)@, depth as nat),
                r,
                final(builder)@,
            ),
        decreases depth, 2nat,
    {
        builder.ingest_within(args, depth)
    }
}

/// Every state extends itself.
pub proof fn lemma_extends_refl(a: BuildState)
    ensures
        extends(a, a),
{
    assert(a.instructions.take(a.instructions.len() as int) =~= a.instructions);
    assert(a.typestack.take(a.typestack.len() as int) =~= a.typestack);
}

/// Extension is transitive.
pub proof fn lemma_extends_trans(a: BuildState, b: BuildState, c: BuildState)
    requires
        extends(a, b),
        extends(b, c),
    ensures
        extends(a, c),
{
    assert(c.instructions.take(a.instructions.len() as int) =~= b.instructions.take(
        a.instructions.len() as int,
    ));
    assert(c.typestack.take(a.typestack.len() as int) =~= b.typestack.take(
        a.typestack.len() as int,
    ));
}

/// An error found while compiling a prefix of `es` is the error of all of `es`.
pub proof fn lemma_compile_seq_err_extends(
    reg: Seq<Word>,
    es: Seq<SExpr>,
    k: int,
    st: BuildState,
    depth: nat,
)
    requires
        0 <= k <= es.len(),
        compile_seq(reg, es.take(k), st, depth) is Err,
    ensures
        compile_seq(reg, es, st, depth) == compile_seq(reg, es.take(k), st, depth),
    decreases es.len(),
{
    if k == es.len() {
        assert(es.take(k) =~= es);
    } else {
        assert(es.drop_last().take(k) =~= es.take(k));
        lemma_compile_seq_err_extends(reg, es.drop_last(), k, st, depth);
    }
}

/// An error met while running a prefix of `prog` is the error of all of `prog`.
pub proof fn lemma_run_err_extends(prog: Seq<Instruction>, k: int, stack: Seq<Value>)
    requires
        0 <= k <= prog.len(),
        run(prog.take(k), stack) is Err,
    ensures
        run(prog, stack) == run(prog.take(k), stack),
    decreases prog.len(),
{
    if k == prog.len() {
        assert(prog.take(k) =~= prog);
    } else {
        assert(prog.drop_last().take(k) =~= prog.take(k));
        lemma_run_err_extends(prog.drop_last(), k, stack);
    }
}

/// One run of a program on a stack machine.
#[derive(Debug)]
pub struct Execution<'a> {
    program: &'a Program,
    instruction_ptr: usize,
    stack: Stack,
}

impl<'a> Execution<'a> {
    fn eval(&mut self) -> (r: Result<Option<Value>, RuntimeError>)
        requires
            old(self).instruction_ptr == 0,
            old(self).stack@ == Seq::<Value>::empty(),
        ensures
            r == outcome(old(self).program@),
            final(self).program == old(self).program,
            r is Ok ==> final(self).instruction_ptr == old(self).program@.len(),
            r is Err ==> {
                let p = final(self).instruction_ptr as int;
                &&& p < old(self).program@.len()
                &&& run(old(self).program@.take(p), Seq::empty()) is Ok
                &&& run(old(self).program@.take(p + 1), Seq::empty()) is Err
            },
    {
        let ghost prog = self.program@;
        while self.instruction_ptr < self.program.0.len()
            invariant
                prog == self.program@,
                prog == old(self).program@,
                self.program == old(self).program,
                self.instruction_ptr <= prog.len(),
                run(prog.take(self.instruction_ptr as int), Seq::empty()) == Ok::<
                    Seq<Value>,
                    RuntimeError,
                >(self.stack@),
            decreases prog.len() - self.instruction_ptr,
        {
            let ghost i = self.instruction_ptr as int;
            proof {
                assert(prog.take(i + 1).drop_last() =~= prog.take(i));
            }
            match &self.program.0[self.instruction_ptr] {
                Instruction::Literal(lit) => self.stack.push(*lit),
                Instruction::Proc(p) => {
                    let r = p.execute(&mut self.stack);
                    if let Err(e) = r {
                        proof {
                            assert(prog.take(i + 1).last() == prog[i]);
                            lemma_run_err_extends(prog, i + 1, Seq::empty());
                        }
                        return Err(e);
                    }
                },
            }
            self.instruction_ptr = self.instruction_ptr + 1;
        }
        proof {
            assert(prog.take(prog.len() as int) =~= prog);
        }
        Ok(self.stack.0.pop())
    }
}

impl Program {
    /// Runs the program on an empty stack and returns the value left on top.
    /// The program is left as it was, so every run gives the same result.
    pub fn eval(&mut self) -> (r: Result<Option<Value>, RuntimeError>)
        ensures
            final(self)@ == old(self)@,
            r == outcome(old(self)@),
    {
        let mut exec = Execution { program: self, instruction_ptr: 0, stack: Stack::new() };
        exec.eval()
    }

    /// Compiles top-level expressions with the words of `registry`.
    pub fn from_ast(registry: &Registry, ast: &[Expr]) -> (r: Result<Program, CompileError>)
        ensures
            match compile(registry@, views_of(ast@)) {
                Ok(st) => r is Ok && r->Ok_0@ == st.instructions,
                Err(f) => r is Err && r->Err_0@ == f,
            },
    {
        let mut builder = ProgramBuilder::new(registry);
        match builder.ingest(ast) {
            Ok(()) => Ok(builder.build()),
            Err(e) => Err(e),
        }
    }

    /// The instructions of the program, in order.
    pub fn instructions(&self) -> (r: &Vec<Instruction>)
        ensures
            r@ == self@,
    {
        &self.0
    }
}

} // verus!
