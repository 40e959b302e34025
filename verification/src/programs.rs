//! The proof that programs made of bindings and prints of integer
//! expressions print, on the model of the target machine, the values that
//! the expressions have.
use vstd::prelude::*;
use crate::ast::{ExprModel, StmtModel};
use crate::constant_pool::{ConstantModel, MAX_ENTRIES, entries_error};
use crate::emit::lemma_entries_error_concat;
use crate::lowering::{
    Lowered,
    MAX_LOCALS,
    Scope,
    as_lowered,
    binding,
    bound,
    chain_lowered,
    constants,
    lower_block,
    lower_expr,
    lower_print,
    lower_stmt,
    op3,
    passed_as,
    pool_len,
    qualified_entries,
    static_type,
    store,
    then,
    then_lowered,
};
use crate::machine::{
    Machine,
    Printed,
    Value,
    agrees,
    computed,
    cost,
    eval,
    holds,
    lemma_be16_reads_back,
    lemma_expression_is_computed,
    lemma_holds_within,
    lemma_run_on,
    lemma_valued_is_no_text,
    names_class,
    names_member,
    names_pair,
    names_text,
    numbers_fit,
    run,
    step,
};
use crate::types::{TypeModel, is_reference_type};

verus! {

/// What a program of bindings and prints does: the values that its
/// variables end with, and the values that it prints, in order. A program
/// that holds anything else, or an expression without a value, does
/// nothing that is said here.
pub open spec fn interpret(env: Map<Seq<char>, int>, program: Seq<StmtModel>) -> Option<
    (Map<Seq<char>, int>, Seq<Printed>),
>
    decreases program.len(),
{
    if program.len() == 0 {
        Some((env, Seq::empty()))
    } else {
        match program[0] {
            StmtModel::Let(name, e, _) => match eval(env, e) {
                Some(v) => interpret(env.insert(name, v), program.drop_first()),
                None => None,
            },
            StmtModel::Print(e) => match (eval(env, e), interpret(env, program.drop_first())) {
                (Some(v), Some((after, printed))) => Some((after, seq![Printed::Number(v)] + printed)),
                _ => None,
            },
            _ => None,
        }
    }
}

/// The values that a program prints, in order.
pub open spec fn values_printed(env: Map<Seq<char>, int>, program: Seq<StmtModel>) -> Seq<Printed> {
    match interpret(env, program) {
        Some((_, out)) => out,
        None => Seq::empty(),
    }
}

/// The values that the variables of a program end with.
pub open spec fn final_values(env: Map<Seq<char>, int>, program: Seq<StmtModel>) -> Map<
    Seq<char>,
    int,
> {
    match interpret(env, program) {
        Some((after, _)) => after,
        None => env,
    }
}

/// The number of instructions that the code of a program takes.
pub open spec fn program_cost(program: Seq<StmtModel>) -> nat
    decreases program.len(),
{
    if program.len() == 0 {
        0
    } else {
        (match program[0] {
            StmtModel::Let(_, e, _) => cost(e) + 1,
            StmtModel::Print(e) => cost(e) + 2,
            _ => 0,
        }) + program_cost(program.drop_first())
    }
}

/// Whether every number in the program fits in 32 signed bits.
pub open spec fn program_fits(program: Seq<StmtModel>) -> bool {
    forall|i: int|
        0 <= i < program.len() ==> match #[trigger] program[i] {
            StmtModel::Let(_, e, _) => numbers_fit(e),
            StmtModel::Print(e) => numbers_fit(e),
            _ => true,
        }
}

/// Whether no two names share a slot, and every slot in use lies below the
/// next free one.
pub open spec fn tidy(scope: Scope) -> bool {
    &&& 0 <= scope.next_slot <= MAX_LOCALS
    &&& forall|a: Seq<char>, b: Seq<char>|
        scope.slots.contains_key(a) && scope.slots.contains_key(b) && a != b
            ==> #[trigger] scope.slots[a] != #[trigger] scope.slots[b]
    &&& forall|a: Seq<char>|
        scope.slots.contains_key(a) ==> (#[trigger] scope.slots[a]) < scope.next_slot
}

/// A part in front of another: where both stand.
proof fn lemma_split<T>(code: Seq<T>, at: int, a: Seq<T>, b: Seq<T>)
    requires
        holds(code, at, a + b),
    ensures
        holds(code, at, a),
        holds(code, at + a.len(), b),
{
    assert((a + b).subrange(0, a.len() as int) =~= a);
    assert((a + b).subrange(a.len() as int, a.len() as int + b.len()) =~= b);
    lemma_holds_within(code, at, a + b, 0, a);
    lemma_holds_within(code, at, a + b, a.len() as int, b);
}

/// The entries that name a class and a member of it do name them.
proof fn lemma_member_is_named(
    pool: Seq<ConstantModel>,
    base: int,
    method: bool,
    class: Seq<char>,
    name: Seq<char>,
    desc: Seq<char>,
)
    requires
        0 <= base,
        holds(pool, base, qualified_entries(base, method, class, name, desc)),
    ensures
        names_member(pool, base + 6, method, class, name, desc),
{
    let entries = qualified_entries(base, method, class, name, desc);
    assert(entries.len() == 6);
    let part = pool.subrange(base, base + 6);
    assert(part == entries);
    assert(pool[base] == part[0]);
    assert(pool[base + 1] == part[1]);
    assert(pool[base + 2] == part[2]);
    assert(pool[base + 3] == part[3]);
    assert(pool[base + 4] == part[4]);
    assert(pool[base + 5] == part[5]);
    assert(names_text(pool, base + 1, class));
    assert(names_class(pool, base + 2, class));
    assert(names_text(pool, base + 3, name));
    assert(names_text(pool, base + 4, desc));
    assert(names_pair(pool, base + 5, name, desc));
}

/// The entries that name a class and a member of it are six, and a pool
/// that can take them has room for their positions in two bytes.
proof fn lemma_member_fits(base: int, method: bool, class: Seq<char>, name: Seq<char>, desc: Seq<char>)
    requires
        0 <= base,
        entries_error(base, qualified_entries(base, method, class, name, desc)) is None,
    ensures
        qualified_entries(base, method, class, name, desc).len() == 6,
        base + 6 <= MAX_ENTRIES,
{
    let entries = qualified_entries(base, method, class, name, desc);
    let head = entries.take(5);
    let tail = seq![entries[5]];
    assert(entries =~= head + tail);
    lemma_entries_error_concat(base, head, tail);
    crate::emit::lemma_entries_error_one(base + 5, entries[5]);
}

/// An expression with a value is taken to be a number.
proof fn lemma_valued_is_a_number(scope: Scope, env: Map<Seq<char>, int>, e: ExprModel)
    requires
        eval(env, e) is Some,
        forall|name: Seq<char>| #[trigger]
            env.contains_key(name) ==> scope.types.contains_key(name) && !is_reference_type(
                scope.types[name],
            ),
    ensures
        !is_reference_type(static_type(scope, e)),
{
    lemma_valued_is_no_text(scope, env, e);
}

/// One instruction after a run is one longer run.
proof fn lemma_then_step(code: Seq<u8>, pool: Seq<ConstantModel>, m: Machine, steps: nat)
    requires
        run(code, pool, m, steps) is Some,
    ensures
        run(code, pool, m, steps + 1) == step(code, pool, run(code, pool, m, steps)->0),
{
    lemma_run_on(code, pool, m, steps, 1);
    reveal_with_fuel(run, 2);
}

/// The machine after a binding: the value is in the slot of the name, and
/// nothing else changed.
pub open spec fn stored(m: Machine, length: int, slot: u8, value: int) -> Machine {
    Machine { pc: m.pc + length, locals: m.locals.insert(slot as int, value), ..m }
}

/// What the parts of a binding are.
proof fn lemma_let_unfolds(
    class: Seq<char>,
    scope: Scope,
    base: int,
    name: Seq<char>,
    e: ExprModel,
    declared: Option<Seq<char>>,
)
    requires
        lower_stmt(class, scope, base, StmtModel::Let(name, e, declared)) is Ok,
    ensures
        lower_expr(class, scope, base, e) is Ok,
        binding(scope, name, static_type(scope, e)) is Ok,
        lower_stmt(class, scope, base, StmtModel::Let(name, e, declared))->Ok_0 == (Lowered {
            scope: bound(scope, name, static_type(scope, e)),
            pool: lower_expr(class, scope, base, e)->Ok_0.pool,
            code: lower_expr(class, scope, base, e)->Ok_0.code + store(
                static_type(scope, e),
                bound(scope, name, static_type(scope, e)).slots[name],
            ),
            methods: Seq::empty(),
        }),
{
    let x = lower_expr(class, scope, base, e);
    let b = binding(scope, name, static_type(scope, e));
    assert(lower_stmt(class, scope, base, StmtModel::Let(name, e, declared)) == then_lowered(
        as_lowered(scope, x),
        b,
    ));
    let l = then_lowered(as_lowered(scope, x), b)->Ok_0;
    assert(l.pool =~= x->Ok_0.pool);
    assert(l.methods =~= Seq::<crate::lowering::MethodModel>::empty());
}

/// A binding keeps the slots apart, and the local variables in agreement
/// with the values of the variables.
proof fn lemma_binding_agrees(
    scope: Scope,
    name: Seq<char>,
    t: TypeModel,
    env: Map<Seq<char>, int>,
    locals: Map<int, int>,
    v: int,
)
    requires
        agrees(scope, env, locals),
        tidy(scope),
        !is_reference_type(t),
        binding(scope, name, t) is Ok,
    ensures
        tidy(bound(scope, name, t)),
        agrees(
            bound(scope, name, t),
            env.insert(name, v),
            locals.insert(bound(scope, name, t).slots[name] as int, v),
        ),
{
    let after = bound(scope, name, t);
    let slot = after.slots[name];
    assert forall|n: Seq<char>| #[trigger] env.insert(name, v).contains_key(n) implies {
        &&& after.slots.contains_key(n)
        &&& after.types.contains_key(n)
        &&& !is_reference_type(after.types[n])
        &&& locals.insert(slot as int, v).contains_key(after.slots[n] as int)
        &&& locals.insert(slot as int, v)[after.slots[n] as int] == env.insert(name, v)[n]
    } by {
        if n != name {
            assert(env.contains_key(n));
            assert(scope.slots.contains_key(n));
            assert(after.slots[n] == scope.slots[n]);
            if scope.slots.contains_key(name) {
                assert(scope.slots[n] != scope.slots[name]);
            } else {
                assert(scope.slots[n] < scope.next_slot);
            }
        }
    }
    assert(tidy(after)) by {
        if !scope.slots.contains_key(name) {
            assert forall|a: Seq<char>, b: Seq<char>|
                after.slots.contains_key(a) && after.slots.contains_key(b) && a != b implies (
            #[trigger] after.slots[a]) != (#[trigger] after.slots[b]) by {
                if a != name {
                    assert(scope.slots[a] < scope.next_slot);
                }
                if b != name {
                    assert(scope.slots[b] < scope.next_slot);
                }
            }
        }
    }
}

/// The instruction that stores the number on top of the stack.
proof fn lemma_value_is_stored(
    code: Seq<u8>,
    pool: Seq<ConstantModel>,
    t: TypeModel,
    slot: u8,
    below: Machine,
    v: int,
    m: Machine,
)
    requires
        !is_reference_type(t),
        holds(code, m.pc, store(t, slot)),
        m.stack == below.stack.push(Value::Int(v)),
        m.locals == below.locals,
        m.texts == below.texts,
        m.output == below.output,
    ensures
        step(code, pool, m) == Some(
            Machine { pc: m.pc + 2, locals: below.locals.insert(slot as int, v), ..below },
        ),
{
    let part = code.subrange(m.pc, m.pc + 2);
    assert(part == store(t, slot));
    assert(code[m.pc] == part[0]);
    assert(code[m.pc + 1] == part[1]);
    assert(m.stack.drop_last() =~= below.stack);
}

/// The code of a binding leaves the value of the expression in the slot of
/// the name, and nothing else changed.
proof fn lemma_let_runs(
    class: Seq<char>,
    scope: Scope,
    base: int,
    name: Seq<char>,
    e: ExprModel,
    declared: Option<Seq<char>>,
    env: Map<Seq<char>, int>,
    code: Seq<u8>,
    pool: Seq<ConstantModel>,
    m: Machine,
)
    requires
        0 <= base,
        numbers_fit(e),
        eval(env, e) is Some,
        agrees(scope, env, m.locals),
        lower_stmt(class, scope, base, StmtModel::Let(name, e, declared)) is Ok,
        holds(
            code,
            m.pc,
            lower_stmt(class, scope, base, StmtModel::Let(name, e, declared))->Ok_0.code,
        ),
        holds(
            pool,
            base,
            lower_stmt(class, scope, base, StmtModel::Let(name, e, declared))->Ok_0.pool,
        ),
    ensures
        run(code, pool, m, cost(e) + 1) == Some(
            stored(
                m,
                lower_stmt(
                    class,
                    scope,
                    base,
                    StmtModel::Let(name, e, declared),
                )->Ok_0.code.len() as int,
                bound(scope, name, static_type(scope, e)).slots[name],
                eval(env, e)->0,
            ),
        ),
{
    lemma_let_unfolds(class, scope, base, name, e, declared);
    lemma_valued_is_a_number(scope, env, e);
    let x = lower_expr(class, scope, base, e)->Ok_0;
    let t = static_type(scope, e);
    let slot = bound(scope, name, t).slots[name];
    let v = eval(env, e)->0;
    lemma_split(code, m.pc, x.code, store(t, slot));
    lemma_expression_is_computed(class, scope, base, e, env, code, pool, m);
    let m1 = computed(m, x.code.len() as int, v);
    lemma_value_is_stored(code, pool, t, slot, m, v, m1);
    lemma_then_step(code, pool, m, cost(e));
}

/// The code of a binding leaves the value of the expression in the slot of
/// the name, and nothing else changed.
pub proof fn lemma_let_is_executed(
    class: Seq<char>,
    scope: Scope,
    base: int,
    name: Seq<char>,
    e: ExprModel,
    declared: Option<Seq<char>>,
    env: Map<Seq<char>, int>,
    code: Seq<u8>,
    pool: Seq<ConstantModel>,
    m: Machine,
)
    requires
        0 <= base,
        numbers_fit(e),
        eval(env, e) is Some,
        agrees(scope, env, m.locals),
        tidy(scope),
        lower_stmt(class, scope, base, StmtModel::Let(name, e, declared)) is Ok,
        holds(
            code,
            m.pc,
            lower_stmt(class, scope, base, StmtModel::Let(name, e, declared))->Ok_0.code,
        ),
        holds(
            pool,
            base,
            lower_stmt(class, scope, base, StmtModel::Let(name, e, declared))->Ok_0.pool,
        ),
    ensures
        ({
            let l = lower_stmt(class, scope, base, StmtModel::Let(name, e, declared))->Ok_0;
            let v = eval(env, e)->0;
            let after = stored(m, l.code.len() as int, l.scope.slots[name], v);
            &&& run(code, pool, m, cost(e) + 1) == Some(after)
            &&& agrees(l.scope, env.insert(name, v), after.locals)
            &&& tidy(l.scope)
        }),
{
    lemma_let_unfolds(class, scope, base, name, e, declared);
    lemma_let_runs(class, scope, base, name, e, declared, env, code, pool, m);
    lemma_valued_is_a_number(scope, env, e);
    lemma_binding_agrees(scope, name, static_type(scope, e), env, m.locals, eval(env, e)->0);
}

/// The machine after a print: the value is behind what was printed, and
/// nothing else changed.
pub open spec fn printed(m: Machine, length: int, value: int) -> Machine {
    Machine { pc: m.pc + length, output: m.output.push(Printed::Number(value)), ..m }
}

/// The descriptor of the method that prints a number.
proof fn lemma_print_descriptor(t: TypeModel)
    requires
        !is_reference_type(t),
    ensures
        "("@ + passed_as(t) + ")V"@ == "(I)V"@,
{
    reveal_strlit("(");
    reveal_strlit("I");
    reveal_strlit(")V");
    reveal_strlit("(I)V");
    assert("("@ + "I"@ + ")V"@ =~= "(I)V"@);
}

/// What the parts of a print are.
proof fn lemma_print_unfolds(class: Seq<char>, scope: Scope, base: int, e: ExprModel)
    requires
        0 <= base,
        lower_stmt(class, scope, base, StmtModel::Print(e)) is Ok,
    ensures
        lower_expr(class, scope, base + 6, e) is Ok,
        base + 12 + lower_expr(class, scope, base + 6, e)->Ok_0.pool.len() <= MAX_ENTRIES,
        lower_stmt(class, scope, base, StmtModel::Print(e))->Ok_0 == (Lowered {
            scope,
            pool: qualified_entries(
                base,
                false,
                "java/lang/System"@,
                "out"@,
                "Ljava/io/PrintStream;"@,
            ) + lower_expr(class, scope, base + 6, e)->Ok_0.pool + qualified_entries(
                base + 6 + lower_expr(class, scope, base + 6, e)->Ok_0.pool.len(),
                true,
                "java/io/PrintStream"@,
                "println"@,
                "("@ + passed_as(static_type(scope, e)) + ")V"@,
            ),
            code: op3(0xB2, base + 6) + lower_expr(class, scope, base + 6, e)->Ok_0.code + op3(
                0xB6,
                base + 12 + lower_expr(class, scope, base + 6, e)->Ok_0.pool.len(),
            ),
            methods: Seq::empty(),
        }),
{
    let first = qualified_entries(
        base,
        false,
        "java/lang/System"@,
        "out"@,
        "Ljava/io/PrintStream;"@,
    );
    let out = constants(base, first, op3(0xB2, base + 6));
    let value = lower_expr(class, scope, base + 6, e);
    let second = qualified_entries(
        base + 6 + pool_len(value),
        true,
        "java/io/PrintStream"@,
        "println"@,
        "("@ + passed_as(static_type(scope, e)) + ")V"@,
    );
    let call = constants(base + 6 + pool_len(value), second, op3(0xB6, base + 12 + pool_len(value)));
    assert(lower_print(class, scope, base, e) == then(out, then(value, call)));
    assert(lower_stmt(class, scope, base, StmtModel::Print(e)) == as_lowered(
        scope,
        lower_print(class, scope, base, e),
    ));
    lemma_member_fits(
        base + 6 + pool_len(value),
        true,
        "java/io/PrintStream"@,
        "println"@,
        "("@ + passed_as(static_type(scope, e)) + ")V"@,
    );
    let l = lower_stmt(class, scope, base, StmtModel::Print(e))->Ok_0;
    let x = value->Ok_0;
    assert(l.pool =~= first + x.pool + second);
    assert(l.code =~= op3(0xB2, base + 6) + x.code + op3(0xB6, base + 12 + x.pool.len()));
}

/// The instruction that fetches the stream that printed values go to.
proof fn lemma_stream_is_fetched(code: Seq<u8>, pool: Seq<ConstantModel>, base: int, m: Machine)
    requires
        0 <= base,
        base + 6 <= MAX_ENTRIES,
        holds(code, m.pc, op3(0xB2, base + 6)),
        holds(
            pool,
            base,
            qualified_entries(
                base,
                false,
                "java/lang/System"@,
                "out"@,
                "Ljava/io/PrintStream;"@,
            ),
        ),
    ensures
        step(code, pool, m) == Some(
            Machine { pc: m.pc + 3, stack: m.stack.push(Value::Stream), ..m },
        ),
{
    let part = code.subrange(m.pc, m.pc + 3);
    assert(part == op3(0xB2, base + 6));
    assert(code[m.pc] == part[0]);
    assert(code[m.pc + 1] == part[1]);
    assert(code[m.pc + 2] == part[2]);
    lemma_be16_reads_back(base + 6);
    lemma_member_is_named(
        pool,
        base,
        false,
        "java/lang/System"@,
        "out"@,
        "Ljava/io/PrintStream;"@,
    );
}

/// The instruction that prints the number on top of the stack.
proof fn lemma_number_is_printed(
    code: Seq<u8>,
    pool: Seq<ConstantModel>,
    base: int,
    below: Machine,
    v: int,
    m: Machine,
)
    requires
        0 <= base,
        base + 6 <= MAX_ENTRIES,
        holds(code, m.pc, op3(0xB6, base + 6)),
        holds(
            pool,
            base,
            qualified_entries(base, true, "java/io/PrintStream"@, "println"@, "(I)V"@),
        ),
        m.stack == below.stack.push(Value::Stream).push(Value::Int(v)),
        m.locals == below.locals,
        m.texts == below.texts,
        m.output == below.output,
    ensures
        step(code, pool, m) == Some(
            Machine { pc: m.pc + 3, output: below.output.push(Printed::Number(v)), ..below },
        ),
{
    let part = code.subrange(m.pc, m.pc + 3);
    assert(part == op3(0xB6, base + 6));
    assert(code[m.pc] == part[0]);
    assert(code[m.pc + 1] == part[1]);
    assert(code[m.pc + 2] == part[2]);
    lemma_be16_reads_back(base + 6);
    lemma_member_is_named(pool, base, true, "java/io/PrintStream"@, "println"@, "(I)V"@);
    assert(m.stack.take(m.stack.len() - 2) =~= below.stack);
}

/// The code of a print puts the value of the expression behind what was
/// printed, and changes nothing else.
pub proof fn lemma_print_is_executed(
    class: Seq<char>,
    scope: Scope,
    base: int,
    e: ExprModel,
    env: Map<Seq<char>, int>,
    code: Seq<u8>,
    pool: Seq<ConstantModel>,
    m: Machine,
)
    requires
        0 <= base,
        numbers_fit(e),
        eval(env, e) is Some,
        agrees(scope, env, m.locals),
        lower_stmt(class, scope, base, StmtModel::Print(e)) is Ok,
        holds(code, m.pc, lower_stmt(class, scope, base, StmtModel::Print(e))->Ok_0.code),
        holds(pool, base, lower_stmt(class, scope, base, StmtModel::Print(e))->Ok_0.pool),
    ensures
        run(code, pool, m, cost(e) + 2) == Some(
            printed(
                m,
                lower_stmt(class, scope, base, StmtModel::Print(e))->Ok_0.code.len() as int,
                eval(env, e)->0,
            ),
        ),
        lower_stmt(class, scope, base, StmtModel::Print(e))->Ok_0.scope == scope,
{
    lemma_print_unfolds(class, scope, base, e);
    lemma_valued_is_a_number(scope, env, e);
    lemma_print_descriptor(static_type(scope, e));
    let l = lower_stmt(class, scope, base, StmtModel::Print(e))->Ok_0;
    let x = lower_expr(class, scope, base + 6, e)->Ok_0;
    let v = eval(env, e)->0;
    let first = qualified_entries(
        base,
        false,
        "java/lang/System"@,
        "out"@,
        "Ljava/io/PrintStream;"@,
    );
    let second = qualified_entries(
        base + 6 + x.pool.len(),
        true,
        "java/io/PrintStream"@,
        "println"@,
        "(I)V"@,
    );
    let fetch = op3(0xB2, base + 6);
    let call = op3(0xB6, base + 12 + x.pool.len());
    lemma_split(code, m.pc, fetch + x.code, call);
    lemma_split(code, m.pc, fetch, x.code);
    lemma_split(pool, base, first + x.pool, second);
    lemma_split(pool, base, first, x.pool);
    lemma_stream_is_fetched(code, pool, base, m);
    let m1 = Machine { pc: m.pc + 3, stack: m.stack.push(Value::Stream), ..m };
    lemma_expression_is_computed(class, scope, base + 6, e, env, code, pool, m1);
    let m2 = computed(m1, x.code.len() as int, v);
    lemma_number_is_printed(code, pool, base + 6 + x.pool.len(), m, v, m2);
    assert(run(code, pool, m, 1) == Some(m1)) by {
        reveal_with_fuel(run, 2);
    }
    lemma_run_on(code, pool, m, 1, cost(e));
    lemma_then_step(code, pool, m, 1 + cost(e));
}

/// What the parts of the code of a program that has a first statement
/// are.
proof fn lemma_block_unfolds(class: Seq<char>, scope: Scope, base: int, program: Seq<StmtModel>)
    requires
        program.len() > 0,
        lower_block(class, scope, base, program) is Ok,
    ensures
        lower_stmt(class, scope, base, program[0]) is Ok,
        lower_block(
            class,
            lower_stmt(class, scope, base, program[0])->Ok_0.scope,
            base + lower_stmt(class, scope, base, program[0])->Ok_0.pool.len(),
            program.drop_first(),
        ) is Ok,
        lower_block(class, scope, base, program)->Ok_0 == chain_lowered(
            lower_stmt(class, scope, base, program[0])->Ok_0,
            lower_block(
                class,
                lower_stmt(class, scope, base, program[0])->Ok_0.scope,
                base + lower_stmt(class, scope, base, program[0])->Ok_0.pool.len(),
                program.drop_first(),
            ),
        )->Ok_0,
{
}

/// Whether the machine `f` is what `m` becomes by code of the given
/// length that prints `out` and leaves the stack as it was.
pub open spec fn has_printed(m: Machine, f: Machine, length: int, out: Seq<Printed>) -> bool {
    f.pc == m.pc + length && f.stack == m.stack && f.output == m.output + out
}

/// One run after another prints what both print.
proof fn lemma_runs_combine(
    code: Seq<u8>,
    pool: Seq<ConstantModel>,
    m: Machine,
    first_cost: nat,
    first_len: int,
    first_out: Seq<Printed>,
    rest_cost: nat,
    rest_len: int,
    rest_out: Seq<Printed>,
)
    requires
        run(code, pool, m, first_cost) is Some,
        has_printed(m, run(code, pool, m, first_cost)->0, first_len, first_out),
        run(code, pool, run(code, pool, m, first_cost)->0, rest_cost) is Some,
        has_printed(
            run(code, pool, m, first_cost)->0,
            run(code, pool, run(code, pool, m, first_cost)->0, rest_cost)->0,
            rest_len,
            rest_out,
        ),
    ensures
        run(code, pool, m, first_cost + rest_cost) == run(
            code,
            pool,
            run(code, pool, m, first_cost)->0,
            rest_cost,
        ),
        has_printed(
            m,
            run(code, pool, m, first_cost + rest_cost)->0,
            first_len + rest_len,
            first_out + rest_out,
        ),
{
    lemma_run_on(code, pool, m, first_cost, rest_cost);
    assert(m.output + first_out + rest_out =~= m.output + (first_out + rest_out));
}

/// What a program that starts with a binding does.
proof fn lemma_interpret_let(env: Map<Seq<char>, int>, program: Seq<StmtModel>)
    requires
        program.len() > 0,
        program[0] is Let,
        interpret(env, program) is Some,
    ensures
        eval(env, program[0]->Let_1) is Some,
        interpret(env, program) == interpret(
            env.insert(program[0]->Let_0, eval(env, program[0]->Let_1)->0),
            program.drop_first(),
        ),
        program_cost(program) == cost(program[0]->Let_1) + 1 + program_cost(program.drop_first()),
{
}

/// What a program that starts with a print does.
proof fn lemma_interpret_print(env: Map<Seq<char>, int>, program: Seq<StmtModel>)
    requires
        program.len() > 0,
        program[0] is Print,
        interpret(env, program) is Some,
    ensures
        eval(env, program[0]->Print_0) is Some,
        interpret(env, program.drop_first()) is Some,
        final_values(env, program) == final_values(env, program.drop_first()),
        values_printed(env, program) == seq![Printed::Number(eval(env, program[0]->Print_0)->0)] + values_printed(
            env,
            program.drop_first(),
        ),
        program_cost(program) == cost(program[0]->Print_0) + 2 + program_cost(
            program.drop_first(),
        ),
{
}

/// What is left of a program without its first statement fits as well.
proof fn lemma_rest_fits(program: Seq<StmtModel>)
    requires
        program.len() > 0,
        program_fits(program),
    ensures
        program_fits(program.drop_first()),
        match program[0] {
            StmtModel::Let(_, e, _) => numbers_fit(e),
            StmtModel::Print(e) => numbers_fit(e),
            _ => true,
        },
{
    let rest = program.drop_first();
    assert forall|i: int| 0 <= i < rest.len() implies match #[trigger] rest[i] {
        StmtModel::Let(_, e, _) => numbers_fit(e),
        StmtModel::Print(e) => numbers_fit(e),
        _ => true,
    } by {
        assert(rest[i] == program[i + 1]);
    }
}

/// Where the parts of the code of a program that has a first statement
/// stand.
proof fn lemma_block_layout(
    class: Seq<char>,
    scope: Scope,
    base: int,
    program: Seq<StmtModel>,
    code: Seq<u8>,
    pool: Seq<ConstantModel>,
    at: int,
)
    requires
        program.len() > 0,
        lower_block(class, scope, base, program) is Ok,
        holds(code, at, lower_block(class, scope, base, program)->Ok_0.code),
        holds(pool, base, lower_block(class, scope, base, program)->Ok_0.pool),
    ensures
        lower_stmt(class, scope, base, program[0]) is Ok,
        lower_block(
            class,
            lower_stmt(class, scope, base, program[0])->Ok_0.scope,
            base + lower_stmt(class, scope, base, program[0])->Ok_0.pool.len(),
            program.drop_first(),
        ) is Ok,
        holds(code, at, lower_stmt(class, scope, base, program[0])->Ok_0.code),
        holds(pool, base, lower_stmt(class, scope, base, program[0])->Ok_0.pool),
        holds(
            code,
            at + lower_stmt(class, scope, base, program[0])->Ok_0.code.len(),
            lower_block(
                class,
                lower_stmt(class, scope, base, program[0])->Ok_0.scope,
                base + lower_stmt(class, scope, base, program[0])->Ok_0.pool.len(),
                program.drop_first(),
            )->Ok_0.code,
        ),
        holds(
            pool,
            base + lower_stmt(class, scope, base, program[0])->Ok_0.pool.len(),
            lower_block(
                class,
                lower_stmt(class, scope, base, program[0])->Ok_0.scope,
                base + lower_stmt(class, scope, base, program[0])->Ok_0.pool.len(),
                program.drop_first(),
            )->Ok_0.pool,
        ),
        lower_block(class, scope, base, program)->Ok_0.code.len() == lower_stmt(
            class,
            scope,
            base,
            program[0],
        )->Ok_0.code.len() + lower_block(
            class,
            lower_stmt(class, scope, base, program[0])->Ok_0.scope,
            base + lower_stmt(class, scope, base, program[0])->Ok_0.pool.len(),
            program.drop_first(),
        )->Ok_0.code.len(),
        lower_block(class, scope, base, program)->Ok_0.scope == lower_block(
            class,
            lower_stmt(class, scope, base, program[0])->Ok_0.scope,
            base + lower_stmt(class, scope, base, program[0])->Ok_0.pool.len(),
            program.drop_first(),
        )->Ok_0.scope,
{
    lemma_block_unfolds(class, scope, base, program);
    let first = lower_stmt(class, scope, base, program[0])->Ok_0;
    let tail = lower_block(class, first.scope, base + first.pool.len(), program.drop_first())->Ok_0;
    let whole = lower_block(class, scope, base, program)->Ok_0;
    assert(whole.code == first.code + tail.code);
    assert(whole.pool == first.pool + tail.pool);
    lemma_split(code, at, first.code, tail.code);
    lemma_split(pool, base, first.pool, tail.pool);
}

/// The code of a program made of bindings and prints of integer
/// expressions prints the values that the expressions have, in order.
///
/// Every expression is made of numbers of 32 signed bits, of variables and
/// of the four operations, which are those of numbers of 32 signed bits,
/// and has a value. The code stands in `code` where the machine stands,
/// the entries it needs stand in `pool` behind the first `base`, and the
/// local variables hold the values of the variables. The run takes
/// `program_cost(program)` instructions, leaves the stack as it was, and
/// leaves the local variables holding the values that the variables end
/// with.
pub proof fn lemma_program_prints(
    class: Seq<char>,
    scope: Scope,
    base: int,
    program: Seq<StmtModel>,
    env: Map<Seq<char>, int>,
    code: Seq<u8>,
    pool: Seq<ConstantModel>,
    m: Machine,
)
    requires
        0 <= base,
        program_fits(program),
        interpret(env, program) is Some,
        agrees(scope, env, m.locals),
        tidy(scope),
        lower_block(class, scope, base, program) is Ok,
        holds(code, m.pc, lower_block(class, scope, base, program)->Ok_0.code),
        holds(pool, base, lower_block(class, scope, base, program)->Ok_0.pool),
    ensures
        run(code, pool, m, program_cost(program)) is Some,
        has_printed(
            m,
            run(code, pool, m, program_cost(program))->0,
            lower_block(class, scope, base, program)->Ok_0.code.len() as int,
            values_printed(env, program),
        ),
        agrees(
            lower_block(class, scope, base, program)->Ok_0.scope,
            final_values(env, program),
            run(code, pool, m, program_cost(program))->0.locals,
        ),
        tidy(lower_block(class, scope, base, program)->Ok_0.scope),
    decreases program.len(),
{
    if program.len() == 0 {
        assert(m.output + Seq::<Printed>::empty() =~= m.output);
    } else {
        lemma_block_layout(class, scope, base, program, code, pool, m.pc);
        lemma_rest_fits(program);
        let first = lower_stmt(class, scope, base, program[0])->Ok_0;
        let rest = program.drop_first();
        let tail = lower_block(class, first.scope, base + first.pool.len(), rest)->Ok_0;
        match program[0] {
            StmtModel::Let(name, e, declared) => {
                lemma_interpret_let(env, program);
                let v = eval(env, e)->0;
                lemma_let_is_executed(class, scope, base, name, e, declared, env, code, pool, m);
                let m1 = stored(m, first.code.len() as int, first.scope.slots[name], v);
                assert(has_printed(m, m1, first.code.len() as int, Seq::empty())) by {
                    assert(m.output + Seq::<Printed>::empty() =~= m.output);
                }
                lemma_program_prints(
                    class,
                    first.scope,
                    base + first.pool.len(),
                    rest,
                    env.insert(name, v),
                    code,
                    pool,
                    m1,
                );
                lemma_runs_combine(
                    code,
                    pool,
                    m,
                    cost(e) + 1,
                    first.code.len() as int,
                    Seq::empty(),
                    program_cost(rest),
                    tail.code.len() as int,
                    values_printed(env.insert(name, v), rest),
                );
                assert(Seq::<Printed>::empty() + values_printed(env.insert(name, v), rest)
                    =~= values_printed(env, program));
            },
            StmtModel::Print(e) => {
                lemma_interpret_print(env, program);
                let v = eval(env, e)->0;
                lemma_print_is_executed(class, scope, base, e, env, code, pool, m);
                let m1 = printed(m, first.code.len() as int, v);
                assert(has_printed(m, m1, first.code.len() as int, seq![Printed::Number(v)])) by {
                    assert(m.output + seq![Printed::Number(v)] =~= m.output.push(Printed::Number(v)));
                }
                lemma_program_prints(
                    class,
                    first.scope,
                    base + first.pool.len(),
                    rest,
                    env,
                    code,
                    pool,
                    m1,
                );
                lemma_runs_combine(
                    code,
                    pool,
                    m,
                    cost(e) + 2,
                    first.code.len() as int,
                    seq![Printed::Number(v)],
                    program_cost(rest),
                    tail.code.len() as int,
                    values_printed(env, rest),
                );
            },
            _ => {},
        }
    }
}

/// The machine before the first instruction of an entry point: nothing
/// on the stack, nothing in the local variables, and nothing printed.
pub open spec fn fresh() -> Machine {
    Machine {
        pc: 0,
        stack: Seq::empty(),
        locals: Map::empty(),
        texts: Map::empty(),
        output: Seq::empty(),
    }
}

/// The entry point of a program made of bindings and prints of integer
/// expressions prints the values that the expressions have, in order, and
/// then stands at the return that ends it.
///
/// `code` is the code of the entry point, and `pool` holds the entries of
/// the program behind the seven that every pool starts with.
pub proof fn lemma_entry_point_prints(
    class: Seq<char>,
    program: Seq<StmtModel>,
    code: Seq<u8>,
    pool: Seq<ConstantModel>,
)
    requires
        program_fits(program),
        interpret(Map::empty(), program) is Some,
        lower_block(class, crate::codegen::Compiler::start(class).scope, 7, program) is Ok,
        code == lower_block(
            class,
            crate::codegen::Compiler::start(class).scope,
            7,
            program,
        )->Ok_0.code.push(0xB1u8),
        holds(
            pool,
            7,
            lower_block(class, crate::codegen::Compiler::start(class).scope, 7, program)->Ok_0.pool,
        ),
    ensures
        run(code, pool, fresh(), program_cost(program)) is Some,
        run(code, pool, fresh(), program_cost(program))->0.pc == code.len() - 1,
        code[code.len() - 1] == 0xB1u8,
        run(code, pool, fresh(), program_cost(program))->0.output == values_printed(
            Map::empty(),
            program,
        ),
        run(code, pool, fresh(), program_cost(program))->0.stack == Seq::<Value>::empty(),
{
    let scope = crate::codegen::Compiler::start(class).scope;
    let l = lower_block(class, scope, 7, program)->Ok_0;
    assert(code.subrange(0, l.code.len() as int) =~= l.code);
    lemma_program_prints(class, scope, 7, program, Map::empty(), code, pool, fresh());
    assert(Seq::<Printed>::empty() + values_printed(Map::empty(), program) =~= values_printed(
        Map::empty(),
        program,
    ));
}

/// A number that is bound to a name and printed right away is what is
/// printed.
pub proof fn lemma_literal_is_printed_back(name: Seq<char>, v: int, declared: Option<Seq<char>>)
    ensures
        values_printed(
            Map::empty(),
            seq![
                StmtModel::Let(name, ExprModel::Number(v), declared),
                StmtModel::Print(ExprModel::Identifier(name)),
            ],
        ) == seq![Printed::Number(v)],
{
    let program = seq![
        StmtModel::Let(name, ExprModel::Number(v), declared),
        StmtModel::Print(ExprModel::Identifier(name)),
    ];
    let env = Map::<Seq<char>, int>::empty().insert(name, v);
    reveal_with_fuel(interpret, 3);
    assert(program.drop_first() =~= seq![StmtModel::Print(ExprModel::Identifier(name))]);
    assert(program.drop_first().drop_first() =~= Seq::<StmtModel>::empty());
    assert(interpret(env, program.drop_first().drop_first()) == Some(
        (env, Seq::<Printed>::empty()),
    ));
    assert(seq![Printed::Number(v)] + Seq::<Printed>::empty() =~= seq![Printed::Number(v)]);
}

/// The descriptor of the method that prints a text, which is not that of
/// the method that prints a number.
proof fn lemma_text_descriptor()
    ensures
        "("@ + passed_as(TypeModel::Text) + ")V"@ == "(Ljava/lang/String;)V"@,
        "(Ljava/lang/String;)V"@ != "(I)V"@,
{
    reveal_strlit("(");
    reveal_strlit("Ljava/lang/String;");
    reveal_strlit(")V");
    reveal_strlit("(Ljava/lang/String;)V");
    reveal_strlit("(I)V");
    assert("("@ + "Ljava/lang/String;"@ + ")V"@ =~= "(Ljava/lang/String;)V"@);
    assert("(Ljava/lang/String;)V"@.len() != "(I)V"@.len());
}

/// The instruction that pushes a text constant.
proof fn lemma_text_is_pushed(
    class: Seq<char>,
    scope: Scope,
    base: int,
    s: Seq<char>,
    code: Seq<u8>,
    pool: Seq<ConstantModel>,
    m: Machine,
)
    requires
        0 <= base,
        lower_expr(class, scope, base, ExprModel::Text(s)) is Ok,
        holds(code, m.pc, lower_expr(class, scope, base, ExprModel::Text(s))->Ok_0.code),
        holds(pool, base, lower_expr(class, scope, base, ExprModel::Text(s))->Ok_0.pool),
    ensures
        lower_expr(class, scope, base, ExprModel::Text(s))->Ok_0.code.len() == 2,
        lower_expr(class, scope, base, ExprModel::Text(s))->Ok_0.pool.len() == 2,
        step(code, pool, m) == Some(
            Machine { pc: m.pc + 2, stack: m.stack.push(Value::Text(s)), ..m },
        ),
{
    let em = lower_expr(class, scope, base, ExprModel::Text(s))->Ok_0;
    let part = code.subrange(m.pc, m.pc + 2);
    assert(part == em.code);
    assert(code[m.pc] == part[0]);
    assert(code[m.pc + 1] == part[1]);
    let entries = pool.subrange(base, base + 2);
    assert(entries == em.pool);
    assert(pool[base] == entries[0]);
    assert(pool[base + 1] == entries[1]);
}

/// The instruction that stores the text on top of the stack.
proof fn lemma_text_is_stored(
    code: Seq<u8>,
    pool: Seq<ConstantModel>,
    slot: u8,
    below: Machine,
    s: Seq<char>,
    m: Machine,
)
    requires
        holds(code, m.pc, store(TypeModel::Text, slot)),
        m.stack == below.stack.push(Value::Text(s)),
        m.locals == below.locals,
        m.texts == below.texts,
        m.output == below.output,
    ensures
        step(code, pool, m) == Some(
            Machine { pc: m.pc + 2, texts: below.texts.insert(slot as int, s), ..below },
        ),
{
    let part = code.subrange(m.pc, m.pc + 2);
    assert(part == store(TypeModel::Text, slot));
    assert(code[m.pc] == part[0]);
    assert(code[m.pc + 1] == part[1]);
    assert(m.stack.drop_last() =~= below.stack);
}

/// The instruction that loads a text from a local variable.
proof fn lemma_text_is_loaded(
    scope: Scope,
    name: Seq<char>,
    code: Seq<u8>,
    pool: Seq<ConstantModel>,
    m: Machine,
)
    requires
        scope.types.contains_key(name),
        scope.types[name] is Text,
        m.texts.contains_key(scope.slots[name] as int),
        holds(code, m.pc, crate::lowering::load(scope, name)),
    ensures
        step(code, pool, m) == Some(
            Machine {
                pc: m.pc + 2,
                stack: m.stack.push(Value::Text(m.texts[scope.slots[name] as int])),
                ..m
            },
        ),
{
    let part = code.subrange(m.pc, m.pc + 2);
    assert(part == crate::lowering::load(scope, name));
    assert(code[m.pc] == part[0]);
    assert(code[m.pc + 1] == part[1]);
}

/// The instruction that prints the text on top of the stack.
proof fn lemma_line_is_printed(
    code: Seq<u8>,
    pool: Seq<ConstantModel>,
    base: int,
    below: Machine,
    s: Seq<char>,
    m: Machine,
)
    requires
        0 <= base,
        base + 6 <= MAX_ENTRIES,
        holds(code, m.pc, op3(0xB6, base + 6)),
        holds(
            pool,
            base,
            qualified_entries(
                base,
                true,
                "java/io/PrintStream"@,
                "println"@,
                "(Ljava/lang/String;)V"@,
            ),
        ),
        m.stack == below.stack.push(Value::Stream).push(Value::Text(s)),
        m.locals == below.locals,
        m.texts == below.texts,
        m.output == below.output,
    ensures
        step(code, pool, m) == Some(
            Machine { pc: m.pc + 3, output: below.output.push(Printed::Text(s)), ..below },
        ),
{
    let part = code.subrange(m.pc, m.pc + 3);
    assert(part == op3(0xB6, base + 6));
    assert(code[m.pc] == part[0]);
    assert(code[m.pc + 1] == part[1]);
    assert(code[m.pc + 2] == part[2]);
    lemma_be16_reads_back(base + 6);
    lemma_member_is_named(
        pool,
        base,
        true,
        "java/io/PrintStream"@,
        "println"@,
        "(Ljava/lang/String;)V"@,
    );
    lemma_text_descriptor();
    let entries = pool.subrange(base, base + 6);
    assert(entries == qualified_entries(
        base,
        true,
        "java/io/PrintStream"@,
        "println"@,
        "(Ljava/lang/String;)V"@,
    ));
    assert(pool[base + 3] == entries[3]);
    assert(pool[base + 4] == entries[4]);
    assert(pool[base + 5] == entries[5]);
    assert(!names_member(pool, base + 6, true, "java/io/PrintStream"@, "println"@, "(I)V"@));
    assert(m.stack.take(m.stack.len() - 2) =~= below.stack);
}

/// The code of a binding of a text leaves the text in the slot of the
/// name, and nothing else changed.
proof fn lemma_text_is_bound(
    class: Seq<char>,
    scope: Scope,
    base: int,
    name: Seq<char>,
    s: Seq<char>,
    declared: Option<Seq<char>>,
    code: Seq<u8>,
    pool: Seq<ConstantModel>,
    m: Machine,
)
    requires
        0 <= base,
        lower_stmt(class, scope, base, StmtModel::Let(name, ExprModel::Text(s), declared)) is Ok,
        holds(
            code,
            m.pc,
            lower_stmt(
                class,
                scope,
                base,
                StmtModel::Let(name, ExprModel::Text(s), declared),
            )->Ok_0.code,
        ),
        holds(
            pool,
            base,
            lower_stmt(
                class,
                scope,
                base,
                StmtModel::Let(name, ExprModel::Text(s), declared),
            )->Ok_0.pool,
        ),
    ensures
        ({
            let l = lower_stmt(
                class,
                scope,
                base,
                StmtModel::Let(name, ExprModel::Text(s), declared),
            )->Ok_0;
            &&& l.code.len() == 4
            &&& l.pool.len() == 2
            &&& l.scope == bound(scope, name, TypeModel::Text)
            &&& run(code, pool, m, 2) == Some(
                Machine {
                    pc: m.pc + 4,
                    texts: m.texts.insert(l.scope.slots[name] as int, s),
                    ..m
                },
            )
        }),
{
    let e = ExprModel::Text(s);
    lemma_let_unfolds(class, scope, base, name, e, declared);
    let x = lower_expr(class, scope, base, e)->Ok_0;
    let slot = bound(scope, name, TypeModel::Text).slots[name];
    lemma_split(code, m.pc, x.code, store(TypeModel::Text, slot));
    lemma_text_is_pushed(class, scope, base, s, code, pool, m);
    let m1 = Machine { pc: m.pc + 2, stack: m.stack.push(Value::Text(s)), ..m };
    lemma_text_is_stored(code, pool, slot, m, s, m1);
    reveal_with_fuel(run, 3);
}

/// Three steps are a run of three instructions.
proof fn lemma_three_steps(
    code: Seq<u8>,
    pool: Seq<ConstantModel>,
    m: Machine,
    m1: Machine,
    m2: Machine,
    m3: Machine,
)
    requires
        step(code, pool, m) == Some(m1),
        step(code, pool, m1) == Some(m2),
        step(code, pool, m2) == Some(m3),
    ensures
        run(code, pool, m, 3) == Some(m3),
{
    reveal_with_fuel(run, 4);
}

/// What the code of a variable is.
proof fn lemma_identifier_unfolds(class: Seq<char>, scope: Scope, base: int, name: Seq<char>)
    requires
        scope.slots.contains_key(name),
    ensures
        lower_expr(class, scope, base, ExprModel::Identifier(name)) == Ok::<
            crate::lowering::Emitted,
            crate::errors::ErrorModel,
        >(crate::lowering::code_only(crate::lowering::load(scope, name))),
{
}

/// What the parts of a print of a variable that holds a text are.
proof fn lemma_variable_print_unfolds(class: Seq<char>, scope: Scope, base: int, name: Seq<char>)
    requires
        0 <= base,
        scope.slots.contains_key(name),
        scope.types.contains_key(name),
        scope.types[name] is Text,
        lower_stmt(class, scope, base, StmtModel::Print(ExprModel::Identifier(name))) is Ok,
    ensures
        base + 12 <= MAX_ENTRIES,
        lower_stmt(class, scope, base, StmtModel::Print(ExprModel::Identifier(name)))->Ok_0.pool
            == qualified_entries(
            base,
            false,
            "java/lang/System"@,
            "out"@,
            "Ljava/io/PrintStream;"@,
        ) + qualified_entries(
            base + 6,
            true,
            "java/io/PrintStream"@,
            "println"@,
            "(Ljava/lang/String;)V"@,
        ),
        lower_stmt(class, scope, base, StmtModel::Print(ExprModel::Identifier(name)))->Ok_0.code
            == op3(0xB2, base + 6) + crate::lowering::load(scope, name) + op3(0xB6, base + 12),
{
    let e = ExprModel::Identifier(name);
    lemma_print_unfolds(class, scope, base, e);
    lemma_identifier_unfolds(class, scope, base + 6, name);
    lemma_text_descriptor();
    let l = lower_stmt(class, scope, base, StmtModel::Print(e))->Ok_0;
    assert(static_type(scope, e) == TypeModel::Text);
    assert(l.pool =~= qualified_entries(
        base,
        false,
        "java/lang/System"@,
        "out"@,
        "Ljava/io/PrintStream;"@,
    ) + qualified_entries(
        base + 6,
        true,
        "java/io/PrintStream"@,
        "println"@,
        "(Ljava/lang/String;)V"@,
    ));
}

/// Where the parts of the code of a print of a variable that holds a text
/// stand.
proof fn lemma_variable_print_layout(
    class: Seq<char>,
    scope: Scope,
    base: int,
    name: Seq<char>,
    code: Seq<u8>,
    pool: Seq<ConstantModel>,
    at: int,
)
    requires
        0 <= base,
        scope.slots.contains_key(name),
        scope.types.contains_key(name),
        scope.types[name] is Text,
        lower_stmt(class, scope, base, StmtModel::Print(ExprModel::Identifier(name))) is Ok,
        holds(
            code,
            at,
            lower_stmt(class, scope, base, StmtModel::Print(ExprModel::Identifier(name)))->Ok_0.code,
        ),
        holds(
            pool,
            base,
            lower_stmt(class, scope, base, StmtModel::Print(ExprModel::Identifier(name)))->Ok_0.pool,
        ),
    ensures
        lower_stmt(class, scope, base, StmtModel::Print(ExprModel::Identifier(name)))->Ok_0.code.len()
            == 8,
        base + 12 <= MAX_ENTRIES,
        holds(code, at, op3(0xB2, base + 6)),
        holds(code, at + 3, crate::lowering::load(scope, name)),
        holds(code, at + 5, op3(0xB6, base + 12)),
        holds(
            pool,
            base,
            qualified_entries(
                base,
                false,
                "java/lang/System"@,
                "out"@,
                "Ljava/io/PrintStream;"@,
            ),
        ),
        holds(
            pool,
            base + 6,
            qualified_entries(
                base + 6,
                true,
                "java/io/PrintStream"@,
                "println"@,
                "(Ljava/lang/String;)V"@,
            ),
        ),
{
    lemma_variable_print_unfolds(class, scope, base, name);
    let first = qualified_entries(
        base,
        false,
        "java/lang/System"@,
        "out"@,
        "Ljava/io/PrintStream;"@,
    );
    let second = qualified_entries(
        base + 6,
        true,
        "java/io/PrintStream"@,
        "println"@,
        "(Ljava/lang/String;)V"@,
    );
    let fetch = op3(0xB2, base + 6);
    let load = crate::lowering::load(scope, name);
    let call = op3(0xB6, base + 12);
    lemma_split(code, at, fetch + load, call);
    lemma_split(code, at, fetch, load);
    lemma_split(pool, base, first, second);
}

/// The code of a print of a variable that holds a text puts the text
/// behind what was printed, and changes nothing else.
proof fn lemma_variable_is_printed(
    class: Seq<char>,
    scope: Scope,
    base: int,
    name: Seq<char>,
    code: Seq<u8>,
    pool: Seq<ConstantModel>,
    m: Machine,
)
    requires
        0 <= base,
        scope.slots.contains_key(name),
        scope.types.contains_key(name),
        scope.types[name] is Text,
        m.texts.contains_key(scope.slots[name] as int),
        lower_stmt(class, scope, base, StmtModel::Print(ExprModel::Identifier(name))) is Ok,
        holds(
            code,
            m.pc,
            lower_stmt(class, scope, base, StmtModel::Print(ExprModel::Identifier(name)))->Ok_0.code,
        ),
        holds(
            pool,
            base,
            lower_stmt(class, scope, base, StmtModel::Print(ExprModel::Identifier(name)))->Ok_0.pool,
        ),
    ensures
        lower_stmt(class, scope, base, StmtModel::Print(ExprModel::Identifier(name)))->Ok_0.code.len()
            == 8,
        run(code, pool, m, 3) == Some(
            Machine {
                pc: m.pc + 8,
                output: m.output.push(Printed::Text(m.texts[scope.slots[name] as int])),
                ..m
            },
        ),
{
    lemma_variable_print_layout(class, scope, base, name, code, pool, m.pc);
    lemma_stream_is_fetched(code, pool, base, m);
    let m1 = Machine { pc: m.pc + 3, stack: m.stack.push(Value::Stream), ..m };
    lemma_text_is_loaded(scope, name, code, pool, m1);
    let s = m.texts[scope.slots[name] as int];
    let m2 = Machine { pc: m1.pc + 2, stack: m1.stack.push(Value::Text(s)), ..m1 };
    lemma_line_is_printed(code, pool, base + 6, m, s, m2);
    let m3 = Machine { pc: m.pc + 8, output: m.output.push(Printed::Text(s)), ..m };
    lemma_three_steps(code, pool, m, m1, m2, m3);
}

/// A text that is bound to a name and printed right away is what is
/// printed: the code of the two statements prints the text as it stands
/// in the program, and leaves the stack as it was.
pub proof fn lemma_text_is_printed_back(
    class: Seq<char>,
    scope: Scope,
    base: int,
    name: Seq<char>,
    s: Seq<char>,
    declared: Option<Seq<char>>,
    code: Seq<u8>,
    pool: Seq<ConstantModel>,
    m: Machine,
)
    requires
        0 <= base,
        lower_block(
            class,
            scope,
            base,
            seq![
                StmtModel::Let(name, ExprModel::Text(s), declared),
                StmtModel::Print(ExprModel::Identifier(name)),
            ],
        ) is Ok,
        holds(
            code,
            m.pc,
            lower_block(
                class,
                scope,
                base,
                seq![
                    StmtModel::Let(name, ExprModel::Text(s), declared),
                    StmtModel::Print(ExprModel::Identifier(name)),
                ],
            )->Ok_0.code,
        ),
        holds(
            pool,
            base,
            lower_block(
                class,
                scope,
                base,
                seq![
                    StmtModel::Let(name, ExprModel::Text(s), declared),
                    StmtModel::Print(ExprModel::Identifier(name)),
                ],
            )->Ok_0.pool,
        ),
    ensures
        run(code, pool, m, 5) is Some,
        run(code, pool, m, 5)->0.pc == m.pc + 12,
        run(code, pool, m, 5)->0.stack == m.stack,
        run(code, pool, m, 5)->0.output == m.output.push(Printed::Text(s)),
{
    let program = seq![
        StmtModel::Let(name, ExprModel::Text(s), declared),
        StmtModel::Print(ExprModel::Identifier(name)),
    ];
    lemma_block_layout(class, scope, base, program, code, pool, m.pc);
    let first = lower_stmt(class, scope, base, program[0])->Ok_0;
    let rest = program.drop_first();
    assert(rest =~= seq![StmtModel::Print(ExprModel::Identifier(name))]);
    lemma_text_is_bound(class, scope, base, name, s, declared, code, pool, m);
    let m1 = Machine { pc: m.pc + 4, texts: m.texts.insert(first.scope.slots[name] as int, s), ..m };
    lemma_block_layout(class, first.scope, base + 2, rest, code, pool, m1.pc);
    assert(rest.drop_first() =~= Seq::<StmtModel>::empty());
    let tail = lower_block(
        class,
        lower_stmt(class, first.scope, base + 2, rest[0])->Ok_0.scope,
        base + 2 + lower_stmt(class, first.scope, base + 2, rest[0])->Ok_0.pool.len(),
        rest.drop_first(),
    )->Ok_0;
    assert(tail.code.len() == 0);
    lemma_variable_is_printed(class, first.scope, base + 2, name, code, pool, m1);
    lemma_run_on(code, pool, m, 2, 3);
}

} // verus!
