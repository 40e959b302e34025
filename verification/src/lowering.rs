//! What the code generator emits, stated as functions from a syntax tree to
//! bytes and pool entries.
//!
//! Every jump is relative to its own opcode, so the code of a construct does
//! not depend on where it is placed. The pool entries that a construct adds
//! do: they refer to each other by position, so every function here takes the
//! number of entries that the pool holds beforehand.
use vstd::prelude::*;
use crate::ast::{ExprModel, StmtModel};
use crate::constant_pool::{ConstantModel, entries_error};
use crate::errors::{ErrorKind, ErrorModel};
use crate::semantics::{bind_params, undefined_variable};
use crate::text::be16;
use crate::types::{TypeModel, descriptor, is_reference_type};

verus! {

/// The most local variables a method can hold: a slot is written in one byte.
pub const MAX_LOCALS: usize = 256;

/// The largest distance a branch can cover forwards.
pub const MAX_BRANCH: usize = 32767;

/// What is in reach: the slot and the type of each local variable, the
/// next free slot, and the return type of each function defined so far.
pub struct Scope {
    pub slots: Map<Seq<char>, u8>,
    pub types: Map<Seq<char>, TypeModel>,
    pub next_slot: int,
    pub functions: Map<Seq<char>, TypeModel>,
}

/// What lowering an expression adds: entries at the end of the pool and
/// bytes at the end of the code.
pub struct Emitted {
    pub pool: Seq<ConstantModel>,
    pub code: Seq<u8>,
}

/// A finished method.
pub struct MethodModel {
    pub name_index: int,
    pub sig_index: int,
    pub code: Seq<u8>,
    pub max_locals: int,
}

/// What lowering statements adds, and the scope they leave.
pub struct Lowered {
    pub scope: Scope,
    pub pool: Seq<ConstantModel>,
    pub code: Seq<u8>,
    pub methods: Seq<MethodModel>,
}

/// A bytecode error with the given message.
pub open spec fn bytecode_error(message: Seq<char>) -> ErrorModel {
    ErrorModel { kind: ErrorKind::Bytecode, message }
}

/// The error for a constant whose position a one-byte operand cannot hold.
pub open spec fn narrow_index_error() -> ErrorModel {
    bytecode_error("constant index does not fit in one byte"@)
}

/// The error for a method that needs more slots than one byte can number.
pub open spec fn too_many_locals() -> ErrorModel {
    bytecode_error("too many local variables"@)
}

/// The error for a jump that sixteen signed bits cannot hold.
pub open spec fn branch_error() -> ErrorModel {
    bytecode_error("branch offset out of range"@)
}

/// The error for an array literal with more elements than can be numbered.
pub open spec fn array_too_long() -> ErrorModel {
    bytecode_error("array literal is too long"@)
}

/// The error for an operator that has no instruction.
pub open spec fn unknown_operator(op: Seq<char>) -> ErrorModel {
    bytecode_error("unknown operator '"@ + op + "'"@)
}

/// Bytes only.
pub open spec fn code_only(code: Seq<u8>) -> Emitted {
    Emitted { pool: Seq::empty(), code }
}

/// One emission after another.
pub open spec fn join(a: Emitted, b: Emitted) -> Emitted {
    Emitted { pool: a.pool + b.pool, code: a.code + b.code }
}

/// `a`, then what `b` gives unless it fails.
pub open spec fn chain(a: Emitted, b: Result<Emitted, ErrorModel>) -> Result<
    Emitted,
    ErrorModel,
> {
    match b {
        Ok(x) => Ok(join(a, x)),
        Err(e) => Err(e),
    }
}

/// What `a` gives and then what `b` gives, unless one of them fails.
pub open spec fn then(a: Result<Emitted, ErrorModel>, b: Result<Emitted, ErrorModel>) -> Result<
    Emitted,
    ErrorModel,
> {
    match a {
        Ok(x) => chain(x, b),
        Err(e) => Err(e),
    }
}

/// The number of entries that `a` adds to the pool.
pub open spec fn pool_len(a: Result<Emitted, ErrorModel>) -> int {
    match a {
        Ok(x) => x.pool.len() as int,
        Err(_) => 0,
    }
}

/// The entries `entries` with the bytes `code`, where a pool of `base`
/// entries can take them.
pub open spec fn constants(base: int, entries: Seq<ConstantModel>, code: Seq<u8>) -> Result<
    Emitted,
    ErrorModel,
> {
    match entries_error(base, entries) {
        Some(e) => Err(e),
        None => Ok(Emitted { pool: entries, code }),
    }
}

/// An opcode with a two-byte operand.
pub open spec fn op3(op: u8, operand: int) -> Seq<u8> {
    seq![op] + be16(operand)
}

/// A jump by `offset` bytes, counted from the opcode itself.
pub open spec fn branch(op: u8, offset: int) -> Seq<u8> {
    op3(
        op,
        if offset < 0 {
            offset + 0x1_0000
        } else {
            offset
        },
    )
}

/// The entries that name a class: its name, then the class itself, which
/// ends up at position `base + 2`.
pub open spec fn class_entries(base: int, name: Seq<char>) -> Seq<ConstantModel> {
    seq![ConstantModel::Utf8(name), ConstantModel::Class(base + 1)]
}

/// The entries that name a field or a method of the class at `class_index`:
/// name, descriptor, the pair of both, then the reference itself, which ends
/// up at position `base + 4`.
pub open spec fn member_entries(
    base: int,
    method: bool,
    class_index: int,
    name: Seq<char>,
    desc: Seq<char>,
) -> Seq<ConstantModel> {
    seq![
        ConstantModel::Utf8(name),
        ConstantModel::Utf8(desc),
        ConstantModel::NameAndType { name_index: base + 1, type_index: base + 2 },
        if method {
            ConstantModel::MethodRef { class_index, name_and_type_index: base + 3 }
        } else {
            ConstantModel::FieldRef { class_index, name_and_type_index: base + 3 }
        },
    ]
}

/// The entries that name a class and one member of it; the reference ends
/// up at position `base + 6`.
pub open spec fn qualified_entries(
    base: int,
    method: bool,
    class: Seq<char>,
    name: Seq<char>,
    desc: Seq<char>,
) -> Seq<ConstantModel> {
    class_entries(base, class) + member_entries(base + 2, method, base + 2, name, desc)
}

/// Whether the generator takes `e` to be a `String`: a text literal, a
/// variable recorded as one, or a `+` with such an operand.
pub open spec fn is_text(scope: Scope, e: ExprModel) -> bool
    decreases e,
{
    match e {
        ExprModel::Text(_) => true,
        ExprModel::Identifier(name) => scope.types.contains_key(name) && scope.types[name] is Text,
        ExprModel::Binary(l, op, r) => op == "+"@ && (is_text(scope, *l) || is_text(scope, *r)),
        _ => false,
    }
}

/// The type that the generator takes the value of `e` to have.
pub open spec fn static_type(scope: Scope, e: ExprModel) -> TypeModel {
    match e {
        ExprModel::Identifier(name) => if scope.types.contains_key(name) {
            scope.types[name]
        } else {
            TypeModel::Int
        },
        ExprModel::ArrayLiteral(_) => TypeModel::Array(Box::new(TypeModel::Int)),
        _ => if is_text(scope, e) {
            TypeModel::Text
        } else {
            TypeModel::Int
        },
    }
}

/// The descriptor under which a value of type `t` is passed to a method of
/// the runtime that takes text, any object or a number.
pub open spec fn passed_as(t: TypeModel) -> Seq<char> {
    if t is Text {
        "Ljava/lang/String;"@
    } else if is_reference_type(t) {
        "Ljava/lang/Object;"@
    } else {
        "I"@
    }
}

/// The descriptors of the arguments, one after the other.
pub open spec fn arg_descriptors(scope: Scope, args: Seq<ExprModel>) -> Seq<char>
    decreases args.len(),
{
    if args.len() == 0 {
        Seq::empty()
    } else {
        arg_descriptors(scope, args.drop_last()) + descriptor(static_type(scope, args.last()))
    }
}

/// The descriptors of the parameters, one after the other.
pub open spec fn param_descriptors(params: Seq<(Seq<char>, TypeModel)>) -> Seq<char>
    decreases params.len(),
{
    if params.len() == 0 {
        Seq::empty()
    } else {
        param_descriptors(params.drop_last()) + descriptor(params.last().1)
    }
}

/// The slots of the parameters: the first gets slot 0, the next slot 1, and
/// so on.
pub open spec fn param_slots(params: Seq<(Seq<char>, TypeModel)>) -> Map<Seq<char>, u8>
    decreases params.len(),
{
    if params.len() == 0 {
        Map::empty()
    } else {
        param_slots(params.drop_last()).insert(params.last().0, (params.len() - 1) as u8)
    }
}

/// The scope in which a function body starts: of the local variables
/// nothing but the parameters, and the given functions.
pub open spec fn param_scope(
    params: Seq<(Seq<char>, TypeModel)>,
    functions: Map<Seq<char>, TypeModel>,
) -> Scope {
    Scope {
        slots: param_slots(params),
        types: bind_params(Map::empty(), params),
        next_slot: params.len() as int,
        functions,
    }
}

/// A signed byte as the unsigned byte with the same bits.
pub open spec fn byte_of(v: int) -> u8 {
    if v < 0 {
        (v + 256) as u8
    } else {
        v as u8
    }
}

/// The instruction that pushes `v`, which fits in sixteen signed bits.
pub open spec fn push_small(v: int) -> Seq<u8> {
    if -128 <= v <= 127 {
        seq![0x10u8, byte_of(v)]
    } else {
        op3(
            0x11,
            if v < 0 {
                v + 0x1_0000
            } else {
                v
            },
        )
    }
}

/// The instruction that pushes the integer `v`, with a pool entry where no
/// immediate operand can hold it.
pub open spec fn push_int(base: int, v: int) -> Result<Emitted, ErrorModel> {
    if -32768 <= v <= 32767 {
        Ok(code_only(push_small(v)))
    } else {
        constants(base, seq![ConstantModel::Integer(v)], op3(0x13, base + 1))
    }
}

/// The instructions of an operator that is not a text concatenation. A
/// comparison jumps over the push of 1 to the push of 0 when it does not
/// hold.
pub open spec fn operator_code(op: Seq<char>) -> Option<Seq<u8>> {
    if op == "+"@ {
        Some(seq![0x60u8])
    } else if op == "-"@ {
        Some(seq![0x64u8])
    } else if op == "*"@ {
        Some(seq![0x68u8])
    } else if op == "/"@ {
        Some(seq![0x6Cu8])
    } else if op == "and"@ {
        Some(seq![0x7Eu8])
    } else if op == "or"@ {
        Some(seq![0x80u8])
    } else if op == "=="@ {
        Some(comparison(0xA0))
    } else if op == "<"@ {
        Some(comparison(0xA2))
    } else if op == ">"@ {
        Some(comparison(0xA4))
    } else {
        None
    }
}

/// Leaves 1 where the two numbers on the stack compare as wanted and 0
/// where they do not; `unless` is the jump taken when they do not.
pub open spec fn comparison(unless: u8) -> Seq<u8> {
    branch(unless, 7) + seq![0x04u8] + branch(0xA7, 4) + seq![0x03u8]
}

/// The instruction that loads the variable `name`.
pub open spec fn load(scope: Scope, name: Seq<char>) -> Seq<u8> {
    seq![
        if scope.types.contains_key(name) && !is_reference_type(scope.types[name]) {
            0x15u8
        } else {
            0x19u8
        },
        scope.slots[name],
    ]
}

/// The call of the static method `name` of the class `class` with the
/// given descriptor, behind the arguments that `pushed` pushes.
pub open spec fn invoke(
    class: Seq<char>,
    name: Seq<char>,
    desc: Seq<char>,
    base: int,
    pushed: Result<Emitted, ErrorModel>,
) -> Result<Emitted, ErrorModel> {
    then(
        pushed,
        constants(
            base + pool_len(pushed),
            qualified_entries(base + pool_len(pushed), true, class, name, desc),
            op3(0xB8, base + pool_len(pushed) + 6),
        ),
    )
}

/// The load of the element of the array in `slot` at the index that
/// `index` pushes.
pub open spec fn element_load(slot: u8, index: Result<Emitted, ErrorModel>) -> Result<
    Emitted,
    ErrorModel,
> {
    then(Ok(code_only(seq![0x19u8, slot])), then(index, Ok(code_only(seq![0x2Eu8]))))
}

/// The store of the value that `value` pushes into the element of the
/// array in `slot` at the index that `index` pushes.
pub open spec fn element_store(
    slot: u8,
    index: Result<Emitted, ErrorModel>,
    value: Result<Emitted, ErrorModel>,
) -> Result<Emitted, ErrorModel> {
    then(Ok(code_only(seq![0x19u8, slot])), then(index, then(value, Ok(code_only(seq![0x4Fu8])))))
}

/// The return of the value of type `t` that `value` pushes.
pub open spec fn returned(t: TypeModel, value: Result<Emitted, ErrorModel>) -> Result<
    Emitted,
    ErrorModel,
> {
    then(
        value,
        Ok(code_only(seq![if is_reference_type(t) {
            0xB0u8
        } else {
            0xACu8
        }])),
    )
}

/// What an expression lowers to in the class `class`, under `scope`, with
/// `base` entries in the pool.
pub open spec fn lower_expr(class: Seq<char>, scope: Scope, base: int, e: ExprModel) -> Result<
    Emitted,
    ErrorModel,
>
    decreases e, 1nat,
{
    match e {
        ExprModel::Number(v) => push_int(base, v),
        ExprModel::Boolean(b) => Ok(
            code_only(
                seq![if b {
                    0x04u8
                } else {
                    0x03u8
                }],
            ),
        ),
        ExprModel::Text(s) => if entries_error(
            base,
            seq![ConstantModel::Utf8(s), ConstantModel::Text(base + 1)],
        ) is None && base + 2 > 255 {
            Err(narrow_index_error())
        } else {
            constants(
                base,
                seq![ConstantModel::Utf8(s), ConstantModel::Text(base + 1)],
                seq![0x12u8, (base + 2) as u8],
            )
        },
        ExprModel::Identifier(name) => if scope.slots.contains_key(name) {
            Ok(code_only(load(scope, name)))
        } else {
            Err(undefined_variable(name))
        },
        ExprModel::Binary(l, op, r) => if op == "+"@ && (is_text(scope, *l) || is_text(
            scope,
            *r,
        )) {
            lower_concat(class, scope, base, e)
        } else {
            lower_arith(class, scope, base, e)
        },
        ExprModel::Call(name, args) => invoke(
            class,
            name,
            "("@ + arg_descriptors(scope, args) + ")I"@,
            base,
            lower_args(class, scope, base, args),
        ),
        ExprModel::Input => lower_input(base),
        ExprModel::ArrayLiteral(elems) => if elems.len() > MAX_BRANCH {
            Err(array_too_long())
        } else {
            then(
                Ok(code_only(push_small(elems.len() as int) + seq![0xBCu8, 10u8])),
                lower_elements(class, scope, base, elems, 0),
            )
        },
        ExprModel::ArrayAccess(name, index) => if !scope.slots.contains_key(name) {
            Err(undefined_variable(name))
        } else {
            element_load(scope.slots[name], lower_expr(class, scope, base, *index))
        },
    }
}

/// A number read from the input: a scanner is made on the standard input
/// and asked for the next integer.
pub open spec fn lower_input(base: int) -> Result<Emitted, ErrorModel> {
    let scanner = constants(
        base,
        class_entries(base, "java/util/Scanner"@),
        op3(0xBB, base + 2) + seq![0x59u8],
    );
    let stdin = constants(
        base + 2,
        qualified_entries(base + 2, false, "java/lang/System"@, "in"@, "Ljava/io/InputStream;"@),
        op3(0xB2, base + 8),
    );
    let init = constants(
        base + 8,
        member_entries(base + 8, true, base + 2, "<init>"@, "(Ljava/io/InputStream;)V"@),
        op3(0xB7, base + 12),
    );
    let next = constants(
        base + 12,
        member_entries(base + 12, true, base + 2, "nextInt"@, "()I"@),
        op3(0xB6, base + 16),
    );
    then(scanner, then(stdin, then(init, next)))
}

/// The instructions of an operator, or the error for one that has none.
pub open spec fn operator(op: Seq<char>) -> Result<Emitted, ErrorModel> {
    match operator_code(op) {
        Some(code) => Ok(code_only(code)),
        None => Err(unknown_operator(op)),
    }
}

/// Two operands, then the instructions of the operator.
pub open spec fn lower_arith(class: Seq<char>, scope: Scope, base: int, e: ExprModel) -> Result<
    Emitted,
    ErrorModel,
>
    decreases e, 0nat,
{
    match e {
        ExprModel::Binary(l, op, r) => {
            let a = lower_expr(class, scope, base, *l);
            let b = lower_expr(class, scope, base + pool_len(a), *r);
            then(a, then(b, operator(op)))
        },
        _ => Ok(code_only(Seq::empty())),
    }
}

/// The entries that name a method of the class at `class_index` whose name
/// the pool holds already, at `name_index`: descriptor, the pair of name and
/// descriptor, then the reference itself, which ends up at position
/// `base + 3`.
pub open spec fn renamed_entries(
    base: int,
    class_index: int,
    name_index: int,
    desc: Seq<char>,
) -> Seq<ConstantModel> {
    seq![
        ConstantModel::Utf8(desc),
        ConstantModel::NameAndType { name_index, type_index: base + 1 },
        ConstantModel::MethodRef { class_index, name_and_type_index: base + 2 },
    ]
}

/// The descriptor of the method that appends a value of type `t` to a
/// string builder.
pub open spec fn append_descriptor(t: TypeModel) -> Seq<char> {
    "("@ + passed_as(t) + ")Ljava/lang/StringBuilder;"@
}

/// The call that appends a value of type `t` to a string builder whose
/// class is at `builder`. The name `append` goes to the pool where `name`
/// gives no position of it, and is taken from that position where it does.
pub open spec fn append_call(base: int, builder: int, name: Option<int>, t: TypeModel) -> Result<
    Emitted,
    ErrorModel,
> {
    match name {
        None => constants(
            base,
            member_entries(base, true, builder, "append"@, append_descriptor(t)),
            op3(0xB6, base + 4),
        ),
        Some(position) => constants(
            base,
            renamed_entries(base, builder, position, append_descriptor(t)),
            op3(0xB6, base + 3),
        ),
    }
}

/// A new string builder: its class, which ends up at `base + 2`, the
/// instructions that make an object of it and keep a second reference, and
/// the call of its constructor.
pub open spec fn builder_start(base: int) -> Result<Emitted, ErrorModel> {
    then(
        constants(
            base,
            class_entries(base, "java/lang/StringBuilder"@),
            op3(0xBB, base + 2) + seq![0x59u8],
        ),
        constants(
            base + 2,
            member_entries(base + 2, true, base + 2, "<init>"@, "()V"@),
            op3(0xB7, base + 6),
        ),
    )
}

/// The call that turns the string builder whose class is at `builder` into
/// a string.
pub open spec fn finish_builder(base: int, builder: int) -> Result<Emitted, ErrorModel> {
    constants(
        base,
        member_entries(base, true, builder, "toString"@, "()Ljava/lang/String;"@),
        op3(0xB6, base + 4),
    )
}

/// What follows the making of a string builder whose class is at
/// `builder`: the two operands are appended, as `a` and `b` say, and the
/// builder is turned into a string.
pub open spec fn appended_both(
    base: int,
    builder: int,
    a: Result<Emitted, ErrorModel>,
    b: Result<Emitted, ErrorModel>,
) -> Result<Emitted, ErrorModel> {
    then(a, then(b, finish_builder(base + pool_len(a) + pool_len(b), builder)))
}

/// An operand of a concatenation, and the call that appends it to the
/// string builder whose class is at `builder`; `name` is where the pool
/// holds the name `append`, if it holds it yet.
pub open spec fn append_operand(
    class: Seq<char>,
    scope: Scope,
    base: int,
    builder: int,
    name: Option<int>,
    e: ExprModel,
) -> Result<Emitted, ErrorModel>
    decreases e, 2nat,
{
    let v = lower_expr(class, scope, base, e);
    then(v, append_call(base + pool_len(v), builder, name, static_type(scope, e)))
}

/// A text concatenation: a string builder is made, both operands are
/// appended to it, and it is turned into a string. The name `append` goes
/// to the pool once, behind the entries of the first operand, and the
/// second call takes it from there.
pub open spec fn lower_concat(class: Seq<char>, scope: Scope, base: int, e: ExprModel) -> Result<
    Emitted,
    ErrorModel,
>
    decreases e, 0nat,
{
    match e {
        ExprModel::Binary(l, op, r) => {
            let a = append_operand(class, scope, base + 6, base + 2, None, *l);
            let b = append_operand(
                class,
                scope,
                base + 6 + pool_len(a),
                base + 2,
                Some(base + 3 + pool_len(a)),
                *r,
            );
            then(builder_start(base), appended_both(base + 6, base + 2, a, b))
        },
        _ => Ok(code_only(Seq::empty())),
    }
}

/// Where two steps in a row succeed, each of them succeeds, and the
/// entries of the second stand behind those of the first.
pub proof fn lemma_then_entries(a: Result<Emitted, ErrorModel>, b: Result<Emitted, ErrorModel>)
    requires
        then(a, b) is Ok,
    ensures
        a is Ok,
        b is Ok,
        then(a, b)->Ok_0.pool == a->Ok_0.pool + b->Ok_0.pool,
        pool_len(then(a, b)) == pool_len(a) + pool_len(b),
{
}

/// A concatenation puts the name `append` into the pool once, behind the
/// entries of its first operand: with `first` and `second` entries for the
/// operands it adds 17 entries of its own, and the pairs of name and
/// descriptor of both calls of `append` hold the position of that one name.
pub proof fn lemma_append_is_named_once(
    class: Seq<char>,
    scope: Scope,
    base: int,
    l: ExprModel,
    op: Seq<char>,
    r: ExprModel,
)
    requires
        lower_concat(class, scope, base, ExprModel::Binary(Box::new(l), op, Box::new(r))) is Ok,
    ensures
        ({
            let first = pool_len(lower_expr(class, scope, base + 6, l));
            let second = pool_len(lower_expr(class, scope, base + 10 + first, r));
            let pool = lower_concat(
                class,
                scope,
                base,
                ExprModel::Binary(Box::new(l), op, Box::new(r)),
            )->Ok_0.pool;
            &&& pool.len() == 17 + first + second
            &&& pool[6 + first] == ConstantModel::Utf8("append"@)
            &&& pool[8 + first] == (ConstantModel::NameAndType {
                name_index: base + 7 + first,
                type_index: base + 8 + first,
            })
            &&& pool[11 + first + second] == (ConstantModel::NameAndType {
                name_index: base + 7 + first,
                type_index: base + 11 + first + second,
            })
        }),
{
    let start = builder_start(base);
    let v = lower_expr(class, scope, base + 6, l);
    let first = pool_len(v);
    let call = append_call(base + 6 + first, base + 2, None, static_type(scope, l));
    let a = then(v, call);
    let w = lower_expr(class, scope, base + 6 + pool_len(a), r);
    let second = pool_len(w);
    let again = append_call(
        base + 6 + pool_len(a) + second,
        base + 2,
        Some(base + 3 + pool_len(a)),
        static_type(scope, r),
    );
    let b = then(w, again);
    let end = finish_builder(base + 6 + pool_len(a) + pool_len(b), base + 2);
    let whole = then(start, then(a, then(b, end)));
    assert(whole == lower_concat(
        class,
        scope,
        base,
        ExprModel::Binary(Box::new(l), op, Box::new(r)),
    ));
    lemma_then_entries(start, then(a, then(b, end)));
    lemma_then_entries(a, then(b, end));
    lemma_then_entries(b, end);
    lemma_then_entries(v, call);
    lemma_then_entries(w, again);
    lemma_then_entries(
        constants(
            base,
            class_entries(base, "java/lang/StringBuilder"@),
            op3(0xBB, base + 2) + seq![0x59u8],
        ),
        constants(
            base + 2,
            member_entries(base + 2, true, base + 2, "<init>"@, "()V"@),
            op3(0xB7, base + 6),
        ),
    );
    let named = call->Ok_0.pool;
    let renamed = again->Ok_0.pool;
    assert(named == member_entries(
        base + 6 + first,
        true,
        base + 2,
        "append"@,
        append_descriptor(static_type(scope, l)),
    ));
    assert(renamed == renamed_entries(
        base + 10 + first + second,
        base + 2,
        base + 7 + first,
        append_descriptor(static_type(scope, r)),
    ));
    let pool = whole->Ok_0.pool;
    assert(start->Ok_0.pool.len() == 6);
    assert(end->Ok_0.pool.len() == 4);
    assert(pool == start->Ok_0.pool + ((v->Ok_0.pool + named) + ((w->Ok_0.pool + renamed)
        + end->Ok_0.pool)));
    assert(pool[6 + first] == named[0]);
    assert(pool[8 + first] == named[2]);
    assert(pool[11 + first + second] == renamed[1]);
}

/// The arguments of a call, pushed from left to right.
pub open spec fn lower_args(class: Seq<char>, scope: Scope, base: int, args: Seq<ExprModel>) -> Result<
    Emitted,
    ErrorModel,
>
    decreases args, 0nat,
{
    if args.len() == 0 {
        Ok(code_only(Seq::empty()))
    } else {
        let first = lower_expr(class, scope, base, args[0]);
        then(first, lower_args(class, scope, base + pool_len(first), args.drop_first()))
    }
}

/// The store of one element into a new array: the array, the element's
/// index and its value.
pub open spec fn stored_element(
    class: Seq<char>,
    scope: Scope,
    base: int,
    e: ExprModel,
    index: int,
) -> Result<Emitted, ErrorModel>
    decreases e, 2nat,
{
    then(
        Ok(code_only(seq![0x59u8] + push_small(index))),
        then(lower_expr(class, scope, base, e), Ok(code_only(seq![0x4Fu8]))),
    )
}

/// The stores that fill a new array, one for each element; the indices
/// count on from `index`.
pub open spec fn lower_elements(
    class: Seq<char>,
    scope: Scope,
    base: int,
    elems: Seq<ExprModel>,
    index: int,
) -> Result<Emitted, ErrorModel>
    decreases elems, 0nat,
{
    if elems.len() == 0 {
        Ok(code_only(Seq::empty()))
    } else {
        let first = stored_element(class, scope, base, elems[0], index);
        then(
            first,
            lower_elements(class, scope, base + pool_len(first), elems.drop_first(), index + 1),
        )
    }
}

/// Statements that left `scope` and added nothing but what `e` holds.
pub open spec fn lowered(scope: Scope, e: Emitted) -> Lowered {
    Lowered { scope, pool: e.pool, code: e.code, methods: Seq::empty() }
}

/// What `e` gives, as the outcome of a statement that leaves `scope`.
pub open spec fn as_lowered(scope: Scope, e: Result<Emitted, ErrorModel>) -> Result<
    Lowered,
    ErrorModel,
> {
    match e {
        Ok(x) => Ok(lowered(scope, x)),
        Err(err) => Err(err),
    }
}

/// `a`, then what `b` gives unless it fails. The scope is the one `b` left.
pub open spec fn chain_lowered(a: Lowered, b: Result<Lowered, ErrorModel>) -> Result<
    Lowered,
    ErrorModel,
> {
    match b {
        Ok(x) => Ok(
            Lowered {
                scope: x.scope,
                pool: a.pool + x.pool,
                code: a.code + x.code,
                methods: a.methods + x.methods,
            },
        ),
        Err(e) => Err(e),
    }
}

/// What `a` gives and then what `b` gives, unless one of them fails.
pub open spec fn then_lowered(a: Result<Lowered, ErrorModel>, b: Result<Lowered, ErrorModel>) -> Result<
    Lowered,
    ErrorModel,
> {
    match a {
        Ok(x) => chain_lowered(x, b),
        Err(e) => Err(e),
    }
}

/// The scope that `a` leaves, or `scope` where it fails.
pub open spec fn scope_after(a: Result<Lowered, ErrorModel>, scope: Scope) -> Scope {
    match a {
        Ok(x) => x.scope,
        Err(_) => scope,
    }
}

/// The number of entries that `a` adds to the pool.
pub open spec fn entries_of(a: Result<Lowered, ErrorModel>) -> int {
    match a {
        Ok(x) => x.pool.len() as int,
        Err(_) => 0,
    }
}

/// The number of bytes that `a` emits.
pub open spec fn code_len(a: Result<Emitted, ErrorModel>) -> int {
    match a {
        Ok(x) => x.code.len() as int,
        Err(_) => 0,
    }
}

/// The descriptor of a method with the given parameters and return type.
pub open spec fn method_descriptor(params: Seq<(Seq<char>, TypeModel)>, ret: TypeModel) -> Seq<
    char,
> {
    "("@ + param_descriptors(params) + ")"@ + descriptor(ret)
}

/// The instruction that stores into `slot` a value of type `t`.
pub open spec fn store(t: TypeModel, slot: u8) -> Seq<u8> {
    seq![if is_reference_type(t) {
        0x3Au8
    } else {
        0x36u8
    }, slot]
}

/// The scope after a binding of `name` to a value of type `t`: the name
/// keeps its slot if it has one, and gets the next free one if not.
pub open spec fn bound(scope: Scope, name: Seq<char>, t: TypeModel) -> Scope {
    if scope.slots.contains_key(name) {
        Scope { types: scope.types.insert(name, t), ..scope }
    } else {
        Scope {
            slots: scope.slots.insert(name, scope.next_slot as u8),
            types: scope.types.insert(name, t),
            next_slot: scope.next_slot + 1,
            functions: scope.functions,
        }
    }
}

/// The binding of `name` to the value of type `t` on the stack: the name
/// gets its slot, and the value is stored there.
pub open spec fn binding(scope: Scope, name: Seq<char>, t: TypeModel) -> Result<
    Lowered,
    ErrorModel,
> {
    if !scope.slots.contains_key(name) && scope.next_slot >= MAX_LOCALS {
        Err(too_many_locals())
    } else {
        Ok(lowered(bound(scope, name, t), code_only(store(t, bound(scope, name, t).slots[name]))))
    }
}

/// A jump forwards over `body` and `extra` more bytes, and `body` itself.
pub open spec fn jump_over(op: u8, extra: int, body: Result<Lowered, ErrorModel>) -> Result<
    Lowered,
    ErrorModel,
> {
    match body {
        Err(e) => Err(e),
        Ok(b) => if 3 + b.code.len() + extra > MAX_BRANCH {
            Err(branch_error())
        } else {
            Ok(
                Lowered {
                    scope: b.scope,
                    pool: b.pool,
                    code: branch(op, 3 + b.code.len() + extra) + b.code,
                    methods: b.methods,
                },
            )
        },
    }
}

/// The part of a loop behind its condition, which took `cond_len` bytes: a
/// jump behind the loop that is taken when the condition is 0, the body,
/// and a jump back to the condition.
pub open spec fn loop_body(cond_len: int, body: Result<Lowered, ErrorModel>) -> Result<
    Lowered,
    ErrorModel,
> {
    match body {
        Err(e) => Err(e),
        Ok(b) => if cond_len + 3 + b.code.len() > MAX_BRANCH || 6 + b.code.len() > MAX_BRANCH {
            Err(branch_error())
        } else {
            Ok(
                Lowered {
                    scope: b.scope,
                    pool: b.pool,
                    code: branch(0x99, 6 + b.code.len() as int) + b.code + branch(
                        0xA7,
                        -(cond_len + 3 + b.code.len()),
                    ),
                    methods: b.methods,
                },
            )
        },
    }
}

/// What a call of the function `name` as a statement leaves on the stack:
/// what the function was defined to return, and an integer where no
/// function of that name has been defined yet.
pub open spec fn result_type(scope: Scope, name: Seq<char>) -> TypeModel {
    if scope.functions.contains_key(name) {
        scope.functions[name]
    } else {
        TypeModel::Int
    }
}

/// A call that is made for its effect: where the function returns a value,
/// the value is taken off the stack again.
pub open spec fn call_for_effect(ret: TypeModel, call: Result<Emitted, ErrorModel>) -> Result<
    Emitted,
    ErrorModel,
> {
    if ret is Void {
        call
    } else {
        then(call, Ok(code_only(seq![0x57u8])))
    }
}

/// What a statement lowers to in the class `class`, under `scope`, with
/// `base` entries in the pool.
pub open spec fn lower_stmt(class: Seq<char>, scope: Scope, base: int, s: StmtModel) -> Result<
    Lowered,
    ErrorModel,
>
    decreases s, 1nat,
{
    match s {
        StmtModel::Let(name, init, _) => then_lowered(
            as_lowered(scope, lower_expr(class, scope, base, init)),
            binding(scope, name, static_type(scope, init)),
        ),
        StmtModel::Print(e) => as_lowered(scope, lower_print(class, scope, base, e)),
        StmtModel::If(_, _, _) => lower_if(class, scope, base, s),
        StmtModel::While(_, _) => lower_while(class, scope, base, s),
        StmtModel::Function(_, _, _, _) => lower_function(class, scope, base, s),
        StmtModel::Call(name, args) => as_lowered(
            scope,
            call_for_effect(
                result_type(scope, name),
                invoke(
                    class,
                    name,
                    "("@ + arg_descriptors(scope, args) + ")"@ + descriptor(
                        result_type(scope, name),
                    ),
                    base,
                    lower_args(class, scope, base, args),
                ),
            ),
        ),
        StmtModel::Return(value) => match value {
            None => Ok(lowered(scope, code_only(seq![0xB1u8]))),
            Some(e) => as_lowered(
                scope,
                returned(static_type(scope, e), lower_expr(class, scope, base, e)),
            ),
        },
        StmtModel::IndexAssign(name, index, value) => if !scope.slots.contains_key(name) {
            Err(undefined_variable(name))
        } else {
            as_lowered(
                scope,
                element_store(
                    scope.slots[name],
                    lower_expr(class, scope, base, index),
                    lower_expr(
                        class,
                        scope,
                        base + pool_len(lower_expr(class, scope, base, index)),
                        value,
                    ),
                ),
            )
        },
    }
}

/// A print: the standard output is fetched, the value is pushed, and the
/// method that prints a value of its type is called.
pub open spec fn lower_print(class: Seq<char>, scope: Scope, base: int, e: ExprModel) -> Result<
    Emitted,
    ErrorModel,
> {
    let out = constants(
        base,
        qualified_entries(base, false, "java/lang/System"@, "out"@, "Ljava/io/PrintStream;"@),
        op3(0xB2, base + 6),
    );
    let value = lower_expr(class, scope, base + 6, e);
    let call = constants(
        base + 6 + pool_len(value),
        qualified_entries(
            base + 6 + pool_len(value),
            true,
            "java/io/PrintStream"@,
            "println"@,
            "("@ + passed_as(static_type(scope, e)) + ")V"@,
        ),
        op3(0xB6, base + 12 + pool_len(value)),
    );
    then(out, then(value, call))
}

/// A conditional: the condition, a jump over the then-body that is taken
/// when the condition is 0, the then-body, and, where there is an
/// else-body, a jump over it and the else-body itself.
pub open spec fn lower_if(class: Seq<char>, scope: Scope, base: int, s: StmtModel) -> Result<
    Lowered,
    ErrorModel,
>
    decreases s, 0nat,
{
    match s {
        StmtModel::If(cond, then_body, else_body) => {
            let c = as_lowered(scope, lower_expr(class, scope, base, cond));
            let t = lower_block(class, scope, base + entries_of(c), then_body);
            match else_body {
                None => then_lowered(c, jump_over(0x99, 0, t)),
                Some(body) => then_lowered(
                    c,
                    then_lowered(
                        jump_over(0x99, 3, t),
                        jump_over(
                            0xA7,
                            0,
                            lower_block(
                                class,
                                scope_after(t, scope),
                                base + entries_of(c) + entries_of(t),
                                body,
                            ),
                        ),
                    ),
                ),
            }
        },
        _ => Ok(lowered(scope, code_only(Seq::empty()))),
    }
}

/// A loop: the condition, a jump behind the loop that is taken when the
/// condition is 0, the body, and a jump back to the condition.
pub open spec fn lower_while(class: Seq<char>, scope: Scope, base: int, s: StmtModel) -> Result<
    Lowered,
    ErrorModel,
>
    decreases s, 0nat,
{
    match s {
        StmtModel::While(cond, body) => {
            let c = lower_expr(class, scope, base, cond);
            then_lowered(
                as_lowered(scope, c),
                loop_body(code_len(c), lower_block(class, scope, base + pool_len(c), body)),
            )
        },
        _ => Ok(lowered(scope, code_only(Seq::empty()))),
    }
}

/// Whether a bare return has to close the body of a function: the
/// function returns nothing, and its last statement is no return.
pub open spec fn needs_return(ret: TypeModel, body: Seq<StmtModel>) -> bool {
    ret is Void && !(body.len() > 0 && body.last() is Return)
}

/// The method that a function body becomes: where `closes` holds a bare
/// return is put behind the body, and the method goes to the list behind
/// the methods of the functions defined inside it. The enclosing code and
/// local variables are left as they were; the functions in reach are those
/// that the body left.
pub open spec fn method_of(
    scope: Scope,
    name_index: int,
    closes: bool,
    body: Result<Lowered, ErrorModel>,
) -> Result<Lowered, ErrorModel> {
    match body {
        Err(e) => Err(e),
        Ok(b) => Ok(
            Lowered {
                scope: Scope { functions: b.scope.functions, ..scope },
                pool: b.pool,
                code: Seq::empty(),
                methods: b.methods.push(
                    MethodModel {
                        name_index,
                        sig_index: name_index + 1,
                        code: if closes {
                            b.code.push(0xB1u8)
                        } else {
                            b.code
                        },
                        max_locals: b.scope.next_slot,
                    },
                ),
            },
        ),
    }
}

/// A function definition: its name and descriptor go to the pool, and its
/// body is lowered in a scope that holds only the parameters, with the
/// function itself among the functions in reach.
pub open spec fn lower_function(class: Seq<char>, scope: Scope, base: int, s: StmtModel) -> Result<
    Lowered,
    ErrorModel,
>
    decreases s, 0nat,
{
    match s {
        StmtModel::Function(name, params, body, ret) => then_lowered(
            as_lowered(
                scope,
                constants(
                    base,
                    seq![
                        ConstantModel::Utf8(name),
                        ConstantModel::Utf8(method_descriptor(params, ret)),
                    ],
                    Seq::empty(),
                ),
            ),
            if params.len() > MAX_LOCALS {
                Err(too_many_locals())
            } else {
                method_of(
                    scope,
                    base + 1,
                    needs_return(ret, body),
                    lower_block(
                        class,
                        param_scope(params, scope.functions.insert(name, ret)),
                        base + 2,
                        body,
                    ),
                )
            },
        ),
        _ => Ok(lowered(scope, code_only(Seq::empty()))),
    }
}

/// What a list of statements lowers to: one after the other, each under
/// the scope that the one before it left.
pub open spec fn lower_block(class: Seq<char>, scope: Scope, base: int, ss: Seq<StmtModel>) -> Result<
    Lowered,
    ErrorModel,
>
    decreases ss, 0nat,
{
    if ss.len() == 0 {
        Ok(lowered(scope, code_only(Seq::empty())))
    } else {
        let first = lower_stmt(class, scope, base, ss[0]);
        then_lowered(
            first,
            lower_block(
                class,
                scope_after(first, scope),
                base + entries_of(first),
                ss.drop_first(),
            ),
        )
    }
}

} // verus!
