//! A model of the part of the target machine that integer programs use, and
//! the proof that the code emitted for such programs computes on it what
//! the programs say.
use vstd::prelude::*;
use crate::ast::ExprModel;
use crate::constant_pool::ConstantModel;
use crate::emit::lemma_entries_error_one;
use crate::lowering::{
    Emitted,
    Scope,
    code_only,
    is_text,
    join,
    load,
    lower_arith,
    lower_expr,
    operator,
    operator_code,
    pool_len,
    push_int,
    then,
};
use crate::text::be16;
use crate::types::is_reference_type;

verus! {

/// What the machine holds on its stack.
pub enum Value {
    /// A number of 32 signed bits.
    Int(int),
    /// A text.
    Text(Seq<char>),
    /// The stream that printed values go to.
    Stream,
}

/// What the machine prints: a line for each value.
pub enum Printed {
    Number(int),
    Text(Seq<char>),
}

/// The state of the machine: where it stands in the code, its stack, the
/// numbers and the texts in its local variables by slot, and what it has
/// printed.
pub struct Machine {
    pub pc: int,
    pub stack: Seq<Value>,
    pub locals: Map<int, int>,
    pub texts: Map<int, Seq<char>>,
    pub output: Seq<Printed>,
}

/// The text that the entry at `index` stands for, if it is a text.
pub open spec fn literal_at(pool: Seq<ConstantModel>, index: int) -> Option<Seq<char>> {
    if 1 <= index <= pool.len() {
        match pool[index - 1] {
            ConstantModel::Text(text) => if 1 <= text <= pool.len() {
                match pool[text - 1] {
                    ConstantModel::Utf8(s) => Some(s),
                    _ => None,
                }
            } else {
                None
            },
            _ => None,
        }
    } else {
        None
    }
}

/// The number of 32 signed bits that has the low 32 bits of `x`.
pub open spec fn wrap32(x: int) -> int {
    if x % 0x1_0000_0000 >= 0x8000_0000 {
        x % 0x1_0000_0000 - 0x1_0000_0000
    } else {
        x % 0x1_0000_0000
    }
}

/// The quotient of `a` by `b`, rounded towards zero.
pub open spec fn quotient(a: int, b: int) -> int {
    if a >= 0 && b > 0 {
        a / b
    } else if a < 0 && b > 0 {
        -((-a) / b)
    } else if a >= 0 && b < 0 {
        -(a / (-b))
    } else {
        (-a) / (-b)
    }
}

/// A byte as a signed number.
pub open spec fn signed8(b: u8) -> int {
    if b >= 128 {
        b - 256
    } else {
        b as int
    }
}

/// Two bytes as an unsigned number, most significant first.
pub open spec fn index16(hi: u8, lo: u8) -> int {
    hi * 256 + lo
}

/// Two bytes as a signed number, most significant first.
pub open spec fn signed16(hi: u8, lo: u8) -> int {
    if index16(hi, lo) >= 32768 {
        index16(hi, lo) - 65536
    } else {
        index16(hi, lo)
    }
}

/// Whether the entry at `index` is the text `text`.
pub open spec fn names_text(pool: Seq<ConstantModel>, index: int, text: Seq<char>) -> bool {
    1 <= index <= pool.len() && pool[index - 1] == ConstantModel::Utf8(text)
}

/// Whether the entry at `index` is the class of the given name.
pub open spec fn names_class(pool: Seq<ConstantModel>, index: int, class: Seq<char>) -> bool {
    1 <= index <= pool.len() && match pool[index - 1] {
        ConstantModel::Class(name) => names_text(pool, name, class),
        _ => false,
    }
}

/// Whether the entry at `index` is the pair of the given name and
/// descriptor.
pub open spec fn names_pair(
    pool: Seq<ConstantModel>,
    index: int,
    name: Seq<char>,
    desc: Seq<char>,
) -> bool {
    1 <= index <= pool.len() && match pool[index - 1] {
        ConstantModel::NameAndType { name_index, type_index } => names_text(
            pool,
            name_index,
            name,
        ) && names_text(pool, type_index, desc),
        _ => false,
    }
}

/// Whether the entry at `index` is the method, or the field, of the given
/// class, name and descriptor.
pub open spec fn names_member(
    pool: Seq<ConstantModel>,
    index: int,
    method: bool,
    class: Seq<char>,
    name: Seq<char>,
    desc: Seq<char>,
) -> bool {
    1 <= index <= pool.len() && match pool[index - 1] {
        ConstantModel::MethodRef { class_index, name_and_type_index } => method && names_class(
            pool,
            class_index,
            class,
        ) && names_pair(pool, name_and_type_index, name, desc),
        ConstantModel::FieldRef { class_index, name_and_type_index } => !method && names_class(
            pool,
            class_index,
            class,
        ) && names_pair(pool, name_and_type_index, name, desc),
        _ => false,
    }
}

/// The result of an arithmetic instruction on `a` and `b`, if it has one.
pub open spec fn arithmetic(op: u8, a: int, b: int) -> Option<int> {
    if op == 0x60 {
        Some(wrap32(a + b))
    } else if op == 0x64 {
        Some(wrap32(a - b))
    } else if op == 0x68 {
        Some(wrap32(a * b))
    } else if op == 0x6C && b != 0 {
        Some(wrap32(quotient(a, b)))
    } else {
        None
    }
}

/// What one instruction does to the machine. Nothing is said of an
/// instruction that the model does not know, of one that is cut short, and
/// of one that finds the stack, the locals or the pool not as it needs
/// them.
pub open spec fn step(code: Seq<u8>, pool: Seq<ConstantModel>, m: Machine) -> Option<Machine> {
    if !(0 <= m.pc < code.len()) {
        None
    } else if code[m.pc] == 0x10 && m.pc + 1 < code.len() {
        Some(
            Machine {
                pc: m.pc + 2,
                stack: m.stack.push(Value::Int(signed8(code[m.pc + 1]))),
                ..m
            },
        )
    } else if code[m.pc] == 0x11 && m.pc + 2 < code.len() {
        Some(
            Machine {
                pc: m.pc + 3,
                stack: m.stack.push(Value::Int(signed16(code[m.pc + 1], code[m.pc + 2]))),
                ..m
            },
        )
    } else if code[m.pc] == 0x13 && m.pc + 2 < code.len() {
        let index = index16(code[m.pc + 1], code[m.pc + 2]);
        if 1 <= index <= pool.len() {
            match pool[index - 1] {
                ConstantModel::Integer(v) => Some(
                    Machine { pc: m.pc + 3, stack: m.stack.push(Value::Int(v)), ..m },
                ),
                _ => None,
            }
        } else {
            None
        }
    } else if code[m.pc] == 0x15 && m.pc + 1 < code.len() {
        if m.locals.contains_key(code[m.pc + 1] as int) {
            Some(
                Machine {
                    pc: m.pc + 2,
                    stack: m.stack.push(Value::Int(m.locals[code[m.pc + 1] as int])),
                    ..m
                },
            )
        } else {
            None
        }
    } else if code[m.pc] == 0x60 || code[m.pc] == 0x64 || code[m.pc] == 0x68 || code[m.pc]
        == 0x6C {
        if m.stack.len() >= 2 {
            match (m.stack[m.stack.len() - 2], m.stack[m.stack.len() - 1]) {
                (Value::Int(a), Value::Int(b)) => match arithmetic(code[m.pc], a, b) {
                    Some(v) => Some(
                        Machine {
                            pc: m.pc + 1,
                            stack: m.stack.take(m.stack.len() - 2).push(Value::Int(v)),
                            ..m
                        },
                    ),
                    None => None,
                },
                _ => None,
            }
        } else {
            None
        }
    } else if code[m.pc] == 0x36 && m.pc + 1 < code.len() {
        if m.stack.len() >= 1 {
            match m.stack.last() {
                Value::Int(v) => Some(
                    Machine {
                        pc: m.pc + 2,
                        stack: m.stack.drop_last(),
                        locals: m.locals.insert(code[m.pc + 1] as int, v),
                        ..m
                    },
                ),
                _ => None,
            }
        } else {
            None
        }
    } else if code[m.pc] == 0xB2 && m.pc + 2 < code.len() {
        if names_member(
            pool,
            index16(code[m.pc + 1], code[m.pc + 2]),
            false,
            "java/lang/System"@,
            "out"@,
            "Ljava/io/PrintStream;"@,
        ) {
            Some(Machine { pc: m.pc + 3, stack: m.stack.push(Value::Stream), ..m })
        } else {
            None
        }
    } else if code[m.pc] == 0xB6 && m.pc + 2 < code.len() {
        if m.stack.len() >= 2 && names_member(
            pool,
            index16(code[m.pc + 1], code[m.pc + 2]),
            true,
            "java/io/PrintStream"@,
            "println"@,
            "(I)V"@,
        ) {
            match (m.stack[m.stack.len() - 2], m.stack[m.stack.len() - 1]) {
                (Value::Stream, Value::Int(v)) => Some(
                    Machine {
                        pc: m.pc + 3,
                        stack: m.stack.take(m.stack.len() - 2),
                        output: m.output.push(Printed::Number(v)),
                        ..m
                    },
                ),
                _ => None,
            }
        } else if m.stack.len() >= 2 && names_member(
            pool,
            index16(code[m.pc + 1], code[m.pc + 2]),
            true,
            "java/io/PrintStream"@,
            "println"@,
            "(Ljava/lang/String;)V"@,
        ) {
            match (m.stack[m.stack.len() - 2], m.stack[m.stack.len() - 1]) {
                (Value::Stream, Value::Text(s)) => Some(
                    Machine {
                        pc: m.pc + 3,
                        stack: m.stack.take(m.stack.len() - 2),
                        output: m.output.push(Printed::Text(s)),
                        ..m
                    },
                ),
                _ => None,
            }
        } else {
            None
        }
    } else if code[m.pc] == 0x12 && m.pc + 1 < code.len() {
        match literal_at(pool, code[m.pc + 1] as int) {
            Some(s) => Some(Machine { pc: m.pc + 2, stack: m.stack.push(Value::Text(s)), ..m }),
            None => None,
        }
    } else if code[m.pc] == 0x3A && m.pc + 1 < code.len() {
        if m.stack.len() >= 1 {
            match m.stack.last() {
                Value::Text(s) => Some(
                    Machine {
                        pc: m.pc + 2,
                        stack: m.stack.drop_last(),
                        texts: m.texts.insert(code[m.pc + 1] as int, s),
                        ..m
                    },
                ),
                _ => None,
            }
        } else {
            None
        }
    } else if code[m.pc] == 0x19 && m.pc + 1 < code.len() {
        if m.texts.contains_key(code[m.pc + 1] as int) {
            Some(
                Machine {
                    pc: m.pc + 2,
                    stack: m.stack.push(Value::Text(m.texts[code[m.pc + 1] as int])),
                    ..m
                },
            )
        } else {
            None
        }
    } else {
        None
    }
}

/// What the machine has become after the given number of instructions.
pub open spec fn run(code: Seq<u8>, pool: Seq<ConstantModel>, m: Machine, steps: nat) -> Option<
    Machine,
>
    decreases steps,
{
    if steps == 0 {
        Some(m)
    } else {
        match step(code, pool, m) {
            Some(next) => run(code, pool, next, (steps - 1) as nat),
            None => None,
        }
    }
}

/// The value of an expression that is made of numbers, variables and the
/// four operations, where the variables have the values that `env` gives.
/// The operations are those of numbers of 32 signed bits. An expression
/// that divides by zero has no value, and neither has one that holds
/// anything else.
pub open spec fn eval(env: Map<Seq<char>, int>, e: ExprModel) -> Option<int>
    decreases e,
{
    match e {
        ExprModel::Number(v) => Some(v),
        ExprModel::Identifier(name) => if env.contains_key(name) {
            Some(env[name])
        } else {
            None
        },
        ExprModel::Binary(l, op, r) => match (eval(env, *l), eval(env, *r)) {
            (Some(a), Some(b)) => if op == "+"@ {
                Some(wrap32(a + b))
            } else if op == "-"@ {
                Some(wrap32(a - b))
            } else if op == "*"@ {
                Some(wrap32(a * b))
            } else if op == "/"@ && b != 0 {
                Some(wrap32(quotient(a, b)))
            } else {
                None
            },
            _ => None,
        },
        _ => None,
    }
}

/// The number of instructions that the code of an expression takes.
pub open spec fn cost(e: ExprModel) -> nat
    decreases e,
{
    match e {
        ExprModel::Binary(l, _, r) => cost(*l) + cost(*r) + 1,
        _ => 1,
    }
}

/// Whether every number in the expression fits in 32 signed bits.
pub open spec fn numbers_fit(e: ExprModel) -> bool
    decreases e,
{
    match e {
        ExprModel::Number(v) => -0x8000_0000 <= v < 0x8000_0000,
        ExprModel::Binary(l, _, r) => numbers_fit(*l) && numbers_fit(*r),
        _ => true,
    }
}

/// Whether `code` holds `part` at `at`.
pub open spec fn holds<T>(code: Seq<T>, at: int, part: Seq<T>) -> bool {
    0 <= at && at + part.len() <= code.len() && code.subrange(at, at + part.len()) == part
}

/// Whether the local variables hold what `env` says of each name, in the
/// slot that `scope` gives the name, and `scope` takes each of these names
/// to be a number.
pub open spec fn agrees(scope: Scope, env: Map<Seq<char>, int>, locals: Map<int, int>) -> bool {
    forall|name: Seq<char>| #[trigger]
        env.contains_key(name) ==> {
            &&& scope.slots.contains_key(name)
            &&& scope.types.contains_key(name)
            &&& !is_reference_type(scope.types[name])
            &&& locals.contains_key(scope.slots[name] as int)
            &&& locals[scope.slots[name] as int] == env[name]
        }
}

/// Running on after a run is one longer run.
pub proof fn lemma_run_on(code: Seq<u8>, pool: Seq<ConstantModel>, m: Machine, a: nat, b: nat)
    requires
        run(code, pool, m, a) is Some,
    ensures
        run(code, pool, m, a + b) == run(code, pool, run(code, pool, m, a)->0, b),
    decreases a,
{
    if a > 0 {
        lemma_run_on(code, pool, step(code, pool, m)->0, (a - 1) as nat, b);
    }
}

/// A part of a part is a part.
pub proof fn lemma_holds_within<T>(code: Seq<T>, at: int, whole: Seq<T>, from: int, part: Seq<T>)
    requires
        holds(code, at, whole),
        holds(whole, from, part),
    ensures
        holds(code, at + from, part),
{
    assert(code.subrange(at + from, at + from + part.len()) =~= whole.subrange(
        from,
        from + part.len(),
    ));
}

/// Two bytes written most significant first read back as what was
/// written.
pub proof fn lemma_be16_reads_back(x: int)
    requires
        0 <= x < 0x1_0000,
    ensures
        index16(be16(x)[0], be16(x)[1]) == x,
{
}

/// An expression with a value is no text.
pub proof fn lemma_valued_is_no_text(scope: Scope, env: Map<Seq<char>, int>, e: ExprModel)
    requires
        eval(env, e) is Some,
        forall|name: Seq<char>| #[trigger]
            env.contains_key(name) ==> scope.types.contains_key(name) && !is_reference_type(
                scope.types[name],
            ),
    ensures
        !is_text(scope, e),
    decreases e,
{
    match e {
        ExprModel::Binary(l, _, r) => {
            lemma_valued_is_no_text(scope, env, *l);
            lemma_valued_is_no_text(scope, env, *r);
        },
        _ => {},
    }
}

/// The machine after the code of an expression, which leaves the value of
/// the expression on top of the stack and nothing else changed.
pub open spec fn computed(m: Machine, length: int, value: int) -> Machine {
    Machine { pc: m.pc + length, stack: m.stack.push(Value::Int(value)), ..m }
}

proof fn lemma_number_is_pushed(
    base: int,
    v: int,
    code: Seq<u8>,
    pool: Seq<ConstantModel>,
    m: Machine,
)
    requires
        0 <= base,
        -0x8000_0000 <= v < 0x8000_0000,
        push_int(base, v) is Ok,
        holds(code, m.pc, push_int(base, v)->Ok_0.code),
        holds(pool, base, push_int(base, v)->Ok_0.pool),
    ensures
        step(code, pool, m) == Some(computed(m, push_int(base, v)->Ok_0.code.len() as int, v)),
{
    let em = push_int(base, v)->Ok_0;
    let part = code.subrange(m.pc, m.pc + em.code.len());
    assert(part == em.code);
    assert(code[m.pc] == part[0]);
    assert(code[m.pc + 1] == part[1]);
    if -32768 <= v <= 32767 {
        if -128 <= v <= 127 {
        } else {
            assert(code[m.pc + 2] == part[2]);
            lemma_be16_reads_back(
                if v < 0 {
                    v + 0x1_0000
                } else {
                    v
                },
            );
        }
    } else {
        assert(code[m.pc + 2] == part[2]);
        lemma_entries_error_one(base, ConstantModel::Integer(v));
        lemma_be16_reads_back(base + 1);
        assert(pool[base] == pool.subrange(base, base + 1)[0]);
    }
}

proof fn lemma_variable_is_loaded(
    scope: Scope,
    name: Seq<char>,
    env: Map<Seq<char>, int>,
    code: Seq<u8>,
    pool: Seq<ConstantModel>,
    m: Machine,
)
    requires
        env.contains_key(name),
        agrees(scope, env, m.locals),
        holds(code, m.pc, load(scope, name)),
    ensures
        step(code, pool, m) == Some(computed(m, 2, env[name])),
{
    let part = code.subrange(m.pc, m.pc + 2);
    assert(part == load(scope, name));
    assert(code[m.pc] == part[0]);
    assert(code[m.pc + 1] == part[1]);
}

/// Where the parts of the code of an operation stand.
proof fn lemma_operation_layout(
    x: Emitted,
    y: Emitted,
    opc: Seq<u8>,
    base: int,
    code: Seq<u8>,
    pool: Seq<ConstantModel>,
    at: int,
)
    requires
        holds(code, at, join(x, join(y, code_only(opc))).code),
        holds(pool, base, join(x, join(y, code_only(opc))).pool),
    ensures
        holds(code, at, x.code),
        holds(code, at + x.code.len(), y.code),
        holds(code, at + x.code.len() + y.code.len(), opc),
        holds(pool, base, x.pool),
        holds(pool, base + x.pool.len(), y.pool),
        join(x, join(y, code_only(opc))).code.len() == x.code.len() + y.code.len() + opc.len(),
{
    let em = join(x, join(y, code_only(opc)));
    assert(em.code =~= x.code + y.code + opc);
    assert(em.pool =~= x.pool + y.pool);
    assert(em.code.subrange(0, x.code.len() as int) =~= x.code);
    assert(em.code.subrange(x.code.len() as int, x.code.len() as int + y.code.len()) =~= y.code);
    assert(em.code.subrange(
        x.code.len() as int + y.code.len(),
        x.code.len() as int + y.code.len() + opc.len(),
    ) =~= opc);
    assert(em.pool.subrange(0, x.pool.len() as int) =~= x.pool);
    assert(em.pool.subrange(x.pool.len() as int, x.pool.len() as int + y.pool.len()) =~= y.pool);
    lemma_holds_within(code, at, em.code, 0, x.code);
    lemma_holds_within(code, at, em.code, x.code.len() as int, y.code);
    lemma_holds_within(code, at, em.code, x.code.len() as int + y.code.len(), opc);
    lemma_holds_within(pool, base, em.pool, 0, x.pool);
    lemma_holds_within(pool, base, em.pool, x.pool.len() as int, y.pool);
}

/// The instruction of an operation takes its two operands off the stack
/// and leaves the result of the operation.
proof fn lemma_operation_is_applied(
    op: Seq<char>,
    va: int,
    vb: int,
    code: Seq<u8>,
    pool: Seq<ConstantModel>,
    below: Machine,
    m: Machine,
)
    requires
        operator_code(op) is Some,
        op == "+"@ || op == "-"@ || op == "*"@ || (op == "/"@ && vb != 0),
        holds(code, m.pc, operator_code(op)->0),
        m.stack == below.stack.push(Value::Int(va)).push(Value::Int(vb)),
        m.locals == below.locals,
        m.texts == below.texts,
        m.output == below.output,
    ensures
        step(code, pool, m) == Some(
            Machine {
                pc: m.pc + 1,
                stack: below.stack.push(
                    Value::Int(
                        if op == "+"@ {
                            wrap32(va + vb)
                        } else if op == "-"@ {
                            wrap32(va - vb)
                        } else if op == "*"@ {
                            wrap32(va * vb)
                        } else {
                            wrap32(quotient(va, vb))
                        },
                    ),
                ),
                ..below
            },
        ),
        operator_code(op)->0.len() == 1,
{
    let opc = operator_code(op)->0;
    let part = code.subrange(m.pc, m.pc + opc.len());
    assert(part == opc);
    assert(code[m.pc] == part[0]);
    assert(m.stack.take(m.stack.len() - 2) =~= below.stack);
}

/// A run of one instruction is a step.
proof fn lemma_one_step(code: Seq<u8>, pool: Seq<ConstantModel>, m: Machine)
    ensures
        run(code, pool, m, 1) == step(code, pool, m),
{
    reveal_with_fuel(run, 2);
}

/// The code of an operation on two operands that have values: the code of
/// the one, the code of the other, and the instruction of the operation.
proof fn lemma_operation_unfolds(
    class: Seq<char>,
    scope: Scope,
    base: int,
    l: ExprModel,
    op: Seq<char>,
    r: ExprModel,
    env: Map<Seq<char>, int>,
)
    requires
        eval(env, ExprModel::Binary(Box::new(l), op, Box::new(r))) is Some,
        forall|name: Seq<char>| #[trigger]
            env.contains_key(name) ==> scope.types.contains_key(name) && !is_reference_type(
                scope.types[name],
            ),
        lower_expr(class, scope, base, ExprModel::Binary(Box::new(l), op, Box::new(r))) is Ok,
    ensures
        lower_expr(class, scope, base, l) is Ok,
        lower_expr(class, scope, base + pool_len(lower_expr(class, scope, base, l)), r) is Ok,
        operator_code(op) is Some,
        op == "+"@ || op == "-"@ || op == "*"@ || (op == "/"@ && eval(env, r)->0 != 0),
        eval(env, l) is Some,
        eval(env, r) is Some,
        lower_expr(class, scope, base, ExprModel::Binary(Box::new(l), op, Box::new(r)))->Ok_0
            == join(
            lower_expr(class, scope, base, l)->Ok_0,
            join(
                lower_expr(
                    class,
                    scope,
                    base + pool_len(lower_expr(class, scope, base, l)),
                    r,
                )->Ok_0,
                code_only(operator_code(op)->0),
            ),
        ),
{
    lemma_valued_is_no_text(scope, env, l);
    lemma_valued_is_no_text(scope, env, r);
    let e = ExprModel::Binary(Box::new(l), op, Box::new(r));
    let a = lower_expr(class, scope, base, l);
    let b = lower_expr(class, scope, base + pool_len(a), r);
    assert(lower_expr(class, scope, base, e) == lower_arith(class, scope, base, e));
    assert(lower_arith(class, scope, base, e) == then(a, then(b, operator(op))));
}

/// The code of an expression that has a value leaves that value on top of
/// the stack, and changes nothing else.
///
/// The expression is made of numbers of 32 signed bits, of variables and
/// of the four operations. Its code stands in `code` where the machine
/// stands, the entries it needs stand in `pool` behind the first `base`,
/// and the local variables hold the values of the variables.
pub proof fn lemma_expression_is_computed(
    class: Seq<char>,
    scope: Scope,
    base: int,
    e: ExprModel,
    env: Map<Seq<char>, int>,
    code: Seq<u8>,
    pool: Seq<ConstantModel>,
    m: Machine,
)
    requires
        0 <= base,
        numbers_fit(e),
        eval(env, e) is Some,
        agrees(scope, env, m.locals),
        lower_expr(class, scope, base, e) is Ok,
        holds(code, m.pc, lower_expr(class, scope, base, e)->Ok_0.code),
        holds(pool, base, lower_expr(class, scope, base, e)->Ok_0.pool),
    ensures
        run(code, pool, m, cost(e)) == Some(
            computed(
                m,
                lower_expr(class, scope, base, e)->Ok_0.code.len() as int,
                eval(env, e)->0,
            ),
        ),
    decreases e,
{
    match e {
        ExprModel::Number(v) => {
            lemma_number_is_pushed(base, v, code, pool, m);
            lemma_one_step(code, pool, m);
        },
        ExprModel::Identifier(name) => {
            lemma_variable_is_loaded(scope, name, env, code, pool, m);
            lemma_one_step(code, pool, m);
        },
        ExprModel::Binary(l, op, r) => {
            lemma_operation_unfolds(class, scope, base, *l, op, *r, env);
            let x = lower_expr(class, scope, base, *l)->Ok_0;
            let y = lower_expr(class, scope, base + x.pool.len(), *r)->Ok_0;
            let opc = operator_code(op)->0;
            let va = eval(env, *l)->0;
            let vb = eval(env, *r)->0;
            lemma_operation_layout(x, y, opc, base, code, pool, m.pc);
            lemma_expression_is_computed(class, scope, base, *l, env, code, pool, m);
            let m1 = computed(m, x.code.len() as int, va);
            lemma_expression_is_computed(
                class,
                scope,
                base + x.pool.len(),
                *r,
                env,
                code,
                pool,
                m1,
            );
            let m2 = computed(m1, y.code.len() as int, vb);
            lemma_operation_is_applied(op, va, vb, code, pool, m, m2);
            lemma_one_step(code, pool, m2);
            lemma_run_on(code, pool, m, cost(*l), cost(*r));
            lemma_run_on(code, pool, m, cost(*l) + cost(*r), 1);
        },
        _ => {},
    }
}

} // verus!
