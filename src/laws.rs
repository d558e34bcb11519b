use vstd::prelude::*;

use crate::arithmetic::Proc;
use crate::ast::SExpr;
use crate::cvm::{
    compile, compile_expr, compile_seq, emit_spec, empty_state, literal_spec, run, BuildState,
    Instruction, MAX_DEPTH,
};
use crate::error::{CompileFault, RuntimeError};
use crate::value::{types_of, Value, ValueType};
use crate::words::{find_word, normalized, Word};

verus! {

/// The type stack that running `prog` from a stack of types `ts` leaves,
/// or `None` where some procedure would find operands of another type.
pub open spec fn type_run(prog: Seq<Instruction>, ts: Seq<ValueType>) -> Option<Seq<ValueType>>
    decreases prog.len(),
{
    if prog.len() == 0 {
        Some(ts)
    } else {
        match type_run(prog.drop_last(), ts) {
            Some(t) => type_step(t, prog.last()),
            None => None,
        }
    }
}

/// The type stack after one instruction.
pub open spec fn type_step(ts: Seq<ValueType>, ins: Instruction) -> Option<Seq<ValueType>> {
    match ins {
        Instruction::Literal(v) => Some(ts.push(v.value_type())),
        Instruction::Proc(p) => {
            if ts.len() >= 2 && ts[ts.len() - 2] == p.spec_output() && ts.last()
                == p.spec_output() {
                Some(ts.drop_last().drop_last().push(p.spec_output()))
            } else {
                None
            }
        },
    }
}

/// The fold of two or more arguments leaves exactly two, and folding the
/// result again gives it back unchanged.
pub proof fn law_normalize_two_and_idempotent(name: Seq<char>, args: Seq<SExpr>)
    requires
        args.len() >= 2,
    ensures
        normalized(name, args).len() == 2,
        normalized(name, normalized(name, args)) == normalized(name, args),
    decreases args.len(),
{
    if args.len() > 2 {
        let n = args.len();
        let next = args.take(n - 2).push(
            SExpr::List(seq![SExpr::Atom(name), args[n - 2], args[n - 1]]),
        );
        law_normalize_two_and_idempotent(name, next);
    }
}

/// Dispatch of `+` on the two top static types: two signed operands get
/// the signed procedure, two unsigned operands the unsigned one, and
/// operands of different types fail with a type mismatch, never coerced.
/// The signed and the unsigned procedure compute the exact sum, or report
/// an overflow where it does not fit.
pub proof fn law_add_dispatch(st: BuildState, i: i128, j: i128, u: u128, v: u128)
    requires
        st.typestack.len() >= 2,
    ensures
        ({
            let a = st.typestack[st.typestack.len() - 2];
            let b = st.typestack.last();
            let rest = st.typestack.drop_last().drop_last();
            &&& (a == ValueType::Int && b == ValueType::Int) ==> emit_spec(Word::Add, st) == Ok::<
                BuildState,
                CompileFault,
            >(
                BuildState {
                    instructions: st.instructions.push(Instruction::Proc(Proc::AddInt)),
                    typestack: rest.push(ValueType::Int),
                },
            )
            &&& (a == ValueType::UInt && b == ValueType::UInt) ==> emit_spec(Word::Add, st) == Ok::<
                BuildState,
                CompileFault,
            >(
                BuildState {
                    instructions: st.instructions.push(Instruction::Proc(Proc::AddUInt)),
                    typestack: rest.push(ValueType::UInt),
                },
            )
            &&& a != b ==> emit_spec(Word::Add, st) == Err::<BuildState, CompileFault>(
                CompileFault::TypeMismatch(Word::Add, a, b),
            )
        }),
        Proc::AddInt.apply(Value::Int(i), Value::Int(j)) == if i128::MIN <= i + j <= i128::MAX {
            Ok::<Value, RuntimeError>(Value::Int((i + j) as i128))
        } else {
            Err::<Value, RuntimeError>(RuntimeError::Overflow)
        },
        Proc::AddUInt.apply(Value::UInt(u), Value::UInt(v)) == if u + v <= u128::MAX {
            Ok::<Value, RuntimeError>(Value::UInt((u + v) as u128))
        } else {
            Err::<Value, RuntimeError>(RuntimeError::Overflow)
        },
{
}

/// `(+ a b)` compiles its operands, then lets the static types they leave
/// choose the procedure: with both operands signed it appends the signed
/// addition, with both unsigned the unsigned one, and with one of each it
/// fails with a type mismatch. A failure inside the operands is the failure
/// of the whole.
pub proof fn law_add_expression(
    reg: Seq<Word>,
    a: SExpr,
    b: SExpr,
    st: BuildState,
    depth: nat,
)
    requires
        find_word(reg, seq!['+']) == Some(Word::Add),
        depth > 0,
    ensures
        ({
            let e = SExpr::List(seq![SExpr::Atom(seq!['+']), a, b]);
            match compile_seq(reg, seq![a, b], st, (depth - 1) as nat) {
                Err(f) => compile_expr(reg, e, st, depth) == Err::<BuildState, CompileFault>(f),
                Ok(s) => {
                    let x = s.typestack[s.typestack.len() - 2];
                    let y = s.typestack.last();
                    let rest = s.typestack.drop_last().drop_last();
                    &&& s.typestack.len() >= 2
                    &&& (x == ValueType::Int && y == ValueType::Int) ==> compile_expr(reg, e, st, depth)
                        == Ok::<BuildState, CompileFault>(
                        BuildState {
                            instructions: s.instructions.push(Instruction::Proc(Proc::AddInt)),
                            typestack: rest.push(ValueType::Int),
                        },
                    )
                    &&& (x == ValueType::UInt && y == ValueType::UInt) ==> compile_expr(
                        reg,
                        e,
                        st,
                        depth,
                    ) == Ok::<BuildState, CompileFault>(
                        BuildState {
                            instructions: s.instructions.push(Instruction::Proc(Proc::AddUInt)),
                            typestack: rest.push(ValueType::UInt),
                        },
                    )
                    &&& x != y ==> compile_expr(reg, e, st, depth) == Err::<BuildState, CompileFault>(
                        CompileFault::TypeMismatch(Word::Add, x, y),
                    )
                },
            }
        }),
{
    let items = seq![SExpr::Atom(seq!['+']), a, b];
    assert(items.drop_first() =~= seq![a, b]);
    if let Ok(s) = compile_seq(reg, seq![a, b], st, (depth - 1) as nat) {
        lemma_compile_seq_grows(reg, seq![a, b], st, (depth - 1) as nat);
    }
}

/// Each expression that compiles adds exactly one entry to the type stack.
proof fn lemma_compile_expr_grows(reg: Seq<Word>, e: SExpr, st: BuildState, depth: nat)
    requires
        compile_expr(reg, e, st, depth) is Ok,
    ensures
        compile_expr(reg, e, st, depth)->Ok_0.typestack.len() == st.typestack.len() + 1,
    decreases depth, 0nat,
{
    if let SExpr::List(items) = e {
        if let SExpr::Atom(name) = items[0] {
            let w = find_word(reg, name)->Some_0;
            let args = items.drop_first();
            law_normalize_two_and_idempotent(w.spec_name(), args);
            lemma_compile_seq_grows(reg, normalized(w.spec_name(), args), st, (depth - 1) as nat);
        }
    }
}

proof fn lemma_compile_seq_grows(reg: Seq<Word>, es: Seq<SExpr>, st: BuildState, depth: nat)
    requires
        compile_seq(reg, es, st, depth) is Ok,
    ensures
        compile_seq(reg, es, st, depth)->Ok_0.typestack.len() == st.typestack.len() + es.len(),
    decreases depth, es.len() + 1,
{
    if es.len() > 0 {
        lemma_compile_seq_grows(reg, es.drop_last(), st, depth);
        lemma_compile_expr_grows(
            reg,
            es.last(),
            compile_seq(reg, es.drop_last(), st, depth)->Ok_0,
            depth,
        );
    }
}

/// The word found under `name` is written `name`.
pub proof fn lemma_find_word_name(words: Seq<Word>, name: Seq<char>)
    requires
        find_word(words, name) is Some,
    ensures
        find_word(words, name)->Some_0.spec_name() == name,
    decreases words.len(),
{
    if find_word(words.drop_last(), name) is Some {
        lemma_find_word_name(words.drop_last(), name);
    }
}

/// A list headed by a word compiles exactly as the list of its folded
/// arguments: `(+ 1 2 3)` and `(+ 1 (+ 2 3))` give the same instructions,
/// types and errors.
pub proof fn law_grouping(
    reg: Seq<Word>,
    name: Seq<char>,
    args: Seq<SExpr>,
    st: BuildState,
    depth: nat,
)
    ensures
        compile_expr(reg, SExpr::List(seq![SExpr::Atom(name)] + args), st, depth) == compile_expr(
            reg,
            SExpr::List(seq![SExpr::Atom(name)] + normalized(name, args)),
            st,
            depth,
        ),
{
    let l1 = seq![SExpr::Atom(name)] + args;
    let l2 = seq![SExpr::Atom(name)] + normalized(name, args);
    assert(l1.drop_first() =~= args);
    assert(l2.drop_first() =~= normalized(name, args));
    assert(l1[0] == SExpr::Atom(name));
    assert(l2[0] == SExpr::Atom(name));
    if find_word(reg, name) is Some {
        lemma_find_word_name(reg, name);
        if args.len() >= 2 {
            law_normalize_two_and_idempotent(name, args);
        }
    }
}

/// `st` holds the instructions of `base` followed by instructions that,
/// run from the type stack of `base`, leave the type stack of `st`.
pub open spec fn typed_from(base: BuildState, st: BuildState) -> bool {
    let k = base.instructions.len() as int;
    &&& k <= st.instructions.len()
    &&& st.instructions.take(k) == base.instructions
    &&& type_run(st.instructions.skip(k), base.typestack) == Some(st.typestack)
}

/// Appending one instruction whose type step succeeds keeps a state typed.
proof fn lemma_append_typed(base: BuildState, s: BuildState, s2: BuildState, ins: Instruction)
    requires
        typed_from(base, s),
        s2.instructions == s.instructions.push(ins),
        type_step(s.typestack, ins) == Some(s2.typestack),
    ensures
        typed_from(base, s2),
{
    let k = base.instructions.len() as int;
    assert(s2.instructions.take(k) =~= s.instructions.take(k));
    assert(s2.instructions.skip(k).drop_last() =~= s.instructions.skip(k));
}

proof fn lemma_compile_expr_typed(
    base: BuildState,
    reg: Seq<Word>,
    e: SExpr,
    st: BuildState,
    depth: nat,
)
    requires
        typed_from(base, st),
        compile_expr(reg, e, st, depth) is Ok,
    ensures
        typed_from(base, compile_expr(reg, e, st, depth)->Ok_0),
    decreases depth, 0nat,
{
    match e {
        SExpr::Literal(v) => {
            lemma_append_typed(base, st, literal_spec(st, v), Instruction::Literal(v));
        },
        SExpr::List(items) => {
            if let SExpr::Atom(name) = items[0] {
                let w = find_word(reg, name)->Some_0;
                let args = items.drop_first();
                let na = normalized(w.spec_name(), args);
                lemma_compile_seq_typed(base, reg, na, st, (depth - 1) as nat);
                let s = compile_seq(reg, na, st, (depth - 1) as nat)->Ok_0;
                let s2 = emit_spec(w, s)->Ok_0;
                lemma_append_typed(base, s, s2, s2.instructions.last());
            }
        },
        SExpr::Atom(_) => {},
    }
}

proof fn lemma_compile_seq_typed(
    base: BuildState,
    reg: Seq<Word>,
    es: Seq<SExpr>,
    st: BuildState,
    depth: nat,
)
    requires
        typed_from(base, st),
        compile_seq(reg, es, st, depth) is Ok,
    ensures
        typed_from(base, compile_seq(reg, es, st, depth)->Ok_0),
    decreases depth, es.len() + 1,
{
    if es.len() > 0 {
        lemma_compile_seq_typed(base, reg, es.drop_last(), st, depth);
        lemma_compile_expr_typed(
            base,
            reg,
            es.last(),
            compile_seq(reg, es.drop_last(), st, depth)->Ok_0,
            depth,
        );
    }
}

/// Every state is typed from itself.
proof fn lemma_typed_from_self(st: BuildState)
    ensures
        typed_from(st, st),
{
    let k = st.instructions.len() as int;
    assert(st.instructions.take(k) =~= st.instructions);
    assert(st.instructions.skip(k) =~= Seq::<Instruction>::empty());
}

/// A program whose type run succeeds from the types of `vs` runs from `vs`
/// either to a stack of exactly the predicted types, or to an overflow.
pub proof fn lemma_typed_run(prog: Seq<Instruction>, vs: Seq<Value>)
    requires
        type_run(prog, types_of(vs)) is Some,
    ensures
        match run(prog, vs) {
            Ok(out) => types_of(out) == type_run(prog, types_of(vs))->Some_0,
            Err(e) => e == RuntimeError::Overflow,
        },
    decreases prog.len(),
{
    if prog.len() > 0 {
        lemma_typed_run(prog.drop_last(), vs);
        if let Ok(s) = run(prog.drop_last(), vs) {
            let t = type_run(prog.drop_last(), types_of(vs))->Some_0;
            match prog.last() {
                Instruction::Literal(v) => {
                    assert(types_of(s.push(v)) =~= t.push(v.value_type()));
                },
                Instruction::Proc(p) => {
                    let n = s.len();
                    assert(types_of(s)[n - 2] == s[n - 2].value_type());
                    assert(types_of(s)[n - 1] == s[n - 1].value_type());
                    if let Ok(r) = p.apply(s[n - 2], s[n - 1]) {
                        assert(types_of(s.drop_last().drop_last().push(r)) =~= t.drop_last().drop_last().push(
                            p.spec_output(),
                        ));
                    }
                },
            }
        }
    }
}

/// Every prefix of a well-typed program is well typed.
pub proof fn lemma_type_run_prefix(prog: Seq<Instruction>, ts: Seq<ValueType>, k: int)
    requires
        0 <= k <= prog.len(),
        type_run(prog, ts) is Some,
    ensures
        type_run(prog.take(k), ts) is Some,
    decreases prog.len(),
{
    if k == prog.len() {
        assert(prog.take(k) =~= prog);
    } else {
        assert(prog.drop_last().take(k) =~= prog.take(k));
        lemma_type_run_prefix(prog.drop_last(), ts, k);
    }
}

/// Compiling from any state keeps the compile-time and run-time stacks in
/// step: the instructions compiled so far are kept, and the new ones, run
/// from any stack of values whose types are the type stack before, never
/// underflow or meet operands of the wrong type, and leave values of exactly
/// the types of the type stack after (unless an arithmetic result overflows).
pub proof fn law_compile_parity_from(
    reg: Seq<Word>,
    es: Seq<SExpr>,
    st: BuildState,
    depth: nat,
    vs: Seq<Value>,
)
    requires
        compile_seq(reg, es, st, depth) is Ok,
        types_of(vs) == st.typestack,
    ensures
        ({
            let after = compile_seq(reg, es, st, depth)->Ok_0;
            let k = st.instructions.len() as int;
            &&& k <= after.instructions.len()
            &&& after.instructions.take(k) == st.instructions
            &&& type_run(after.instructions.skip(k), st.typestack) == Some(after.typestack)
            &&& match run(after.instructions.skip(k), vs) {
                Ok(out) => types_of(out) == after.typestack,
                Err(e) => e == RuntimeError::Overflow,
            }
        }),
{
    let after = compile_seq(reg, es, st, depth)->Ok_0;
    lemma_typed_from_self(st);
    lemma_compile_seq_typed(st, reg, es, st, depth);
    lemma_typed_run(after.instructions.skip(st.instructions.len() as int), vs);
}

/// Compile-time and run-time stacks agree: for a program the compiler
/// accepted, the type stack it predicts is the one its instructions produce,
/// and running any prefix of the program from an empty stack leaves values
/// of exactly the types that the same prefix predicts, in that order, unless
/// an arithmetic result overflows. No accepted program underflows the stack
/// or hands a procedure operands of the wrong type.
pub proof fn law_type_stack_parity(reg: Seq<Word>, es: Seq<SExpr>)
    requires
        compile(reg, es) is Ok,
    ensures
        type_run(compile(reg, es)->Ok_0.instructions, Seq::empty()) == Some(
            compile(reg, es)->Ok_0.typestack,
        ),
        match run(compile(reg, es)->Ok_0.instructions, Seq::empty()) {
            Ok(out) => types_of(out) == compile(reg, es)->Ok_0.typestack,
            Err(e) => e == RuntimeError::Overflow,
        },
        forall|k: int|
            0 <= k <= compile(reg, es)->Ok_0.instructions.len() ==> {
                let prefix = #[trigger] compile(reg, es)->Ok_0.instructions.take(k);
                &&& type_run(prefix, Seq::empty()) is Some
                &&& match run(prefix, Seq::empty()) {
                    Ok(out) => types_of(out) == type_run(prefix, Seq::empty())->Some_0,
                    Err(e) => e == RuntimeError::Overflow,
                }
            },
{
    let st = compile(reg, es)->Ok_0;
    lemma_typed_from_self(empty_state());
    lemma_compile_seq_typed(empty_state(), reg, es, empty_state(), MAX_DEPTH as nat);
    assert(st.instructions.skip(0) =~= st.instructions);
    assert(types_of(Seq::<Value>::empty()) =~= Seq::<ValueType>::empty());
    lemma_typed_run(st.instructions, Seq::empty());
    assert forall|k: int| 0 <= k <= st.instructions.len() implies {
        let prefix = #[trigger] st.instructions.take(k);
        &&& type_run(prefix, Seq::empty()) is Some
        &&& match run(prefix, Seq::empty()) {
            Ok(out) => types_of(out) == type_run(prefix, Seq::empty())->Some_0,
            Err(e) => e == RuntimeError::Overflow,
        }
    } by {
        lemma_type_run_prefix(st.instructions, Seq::empty(), k);
        lemma_typed_run(st.instructions.take(k), Seq::empty());
    }
}

} // verus!
