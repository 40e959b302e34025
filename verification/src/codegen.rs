//! The code generator: it walks a checked syntax tree and emits, method by
//! method, the instructions of a stack machine together with the constant
//! pool that they refer to.
use vstd::prelude::*;
use vstd::string::*;
use crate::constant_pool::{ConstantModel, ConstantPool, entries_error};
use crate::errors::{ErrorModel, KujavError};
use crate::lowering::{
    Emitted,
    Lowered,
    MethodModel,
    Scope,
    as_lowered,
    chain_lowered,
    code_only,
    constants,
    join,
    then,
    then_lowered,
};
use crate::semantics::type_env;
use crate::symbols::{NameMap, as_map, extends};
use crate::types::KType;

pub mod expressions;
pub mod statements;
pub mod control;

verus! {

/// A finished method: where the pool holds its name and its descriptor, its
/// instructions, and the number of local slots it uses.
pub struct MethodInfo {
    pub name_idx: u16,
    pub sig_idx: u16,
    pub bytecode: Vec<u8>,
    pub max_locals: u16,
}

impl View for MethodInfo {
    type V = MethodModel;

    open spec fn view(&self) -> MethodModel {
        MethodModel {
            name_index: self.name_idx as int,
            sig_index: self.sig_idx as int,
            code: self.bytecode@,
            max_locals: self.max_locals as int,
        }
    }
}

/// The mathematical values of a list of methods.
pub open spec fn methods_model(ms: Seq<MethodInfo>) -> Seq<MethodModel> {
    Seq::new(ms.len(), |i: int| ms[i]@)
}

/// The state of one compilation job.
pub struct Compiler {
    /// The class that the program's functions become static methods of.
    pub class_name: String,
    pub cp: ConstantPool,
    pub methods: Vec<MethodInfo>,
    /// The instructions of the method that is being emitted.
    pub current_bytecode: Vec<u8>,
    pub variables: NameMap<u8>,
    pub variable_types: NameMap<KType>,
    pub next_slot: u16,
    /// The return type of each function defined so far.
    pub functions: NameMap<KType>,
}

/// The state of a compilation job as a mathematical value.
pub struct CompilerModel {
    pub class: Seq<char>,
    pub pool: Seq<ConstantModel>,
    pub methods: Seq<MethodModel>,
    pub code: Seq<u8>,
    pub scope: Scope,
}

impl View for Compiler {
    type V = CompilerModel;

    open spec fn view(&self) -> CompilerModel {
        CompilerModel {
            class: self.class_name@,
            pool: self.cp@,
            methods: methods_model(self.methods@),
            code: self.current_bytecode@,
            scope: Scope {
                slots: as_map(self.variables@),
                types: type_env(self.variable_types@),
                next_slot: self.next_slot as int,
                functions: type_env(self.functions@),
            },
        }
    }
}

/// The state `before` with `e` added at the end of its pool and code.
pub open spec fn emitted_onto(before: CompilerModel, e: Emitted) -> CompilerModel {
    CompilerModel {
        class: before.class,
        pool: before.pool + e.pool,
        methods: before.methods,
        code: before.code + e.code,
        scope: before.scope,
    }
}

/// The state `before` with `l` added at the end of its pool, code and
/// methods, and with the scope that `l` left.
pub open spec fn lowered_onto(before: CompilerModel, l: Lowered) -> CompilerModel {
    CompilerModel {
        class: before.class,
        pool: before.pool + l.pool,
        methods: before.methods + l.methods,
        code: before.code + l.code,
        scope: l.scope,
    }
}

/// The error that `r` holds, if it holds one.
pub open spec fn failure<T>(r: Result<T, KujavError>) -> Option<ErrorModel> {
    match r {
        Ok(_) => None,
        Err(e) => Some(e@),
    }
}

/// Whether a step that led from `before` to `after` and failed with
/// `failed`, or did not fail, did what `spec` says of an expression: on
/// success its entries and bytes were added and nothing else changed; on
/// failure the error is the one `spec` gives, and pool and code hold at
/// least what they held.
pub open spec fn expr_step(
    before: Compiler,
    after: Compiler,
    failed: Option<ErrorModel>,
    spec: Result<Emitted, ErrorModel>,
) -> bool {
    &&& after.class_name == before.class_name
    &&& after.methods == before.methods
    &&& after.variables == before.variables
    &&& after.variable_types == before.variable_types
    &&& after.next_slot == before.next_slot
    &&& after.functions == before.functions
    &&& extends(after.cp@, before.cp@)
    &&& extends(after.current_bytecode@, before.current_bytecode@)
    &&& match failed {
        None => (spec matches Ok(e) && after.cp@ == before.cp@ + e.pool
            && after.current_bytecode@ == before.current_bytecode@ + e.code),
        Some(err) => spec == Err::<Emitted, ErrorModel>(err),
    }
}

/// Two steps in a row are one step that does what both do.
pub proof fn lemma_then(
    s0: Compiler,
    s1: Compiler,
    s2: Compiler,
    first: Result<Emitted, ErrorModel>,
    failed: Option<ErrorModel>,
    second: Result<Emitted, ErrorModel>,
)
    requires
        expr_step(s0, s1, None, first),
        expr_step(s1, s2, failed, second),
    ensures
        expr_step(s0, s2, failed, then(first, second)),
{
    if failed is None {
        let a = first->Ok_0;
        let b = second->Ok_0;
        assert(s2.cp@ =~= s0.cp@ + join(a, b).pool);
        assert(s2.current_bytecode@ =~= s0.current_bytecode@ + join(a, b).code);
    }
}

/// A step that adds nothing but bytes.
pub proof fn lemma_code_step(s0: Compiler, s1: Compiler, code: Seq<u8>)
    requires
        s1.class_name == s0.class_name,
        s1.methods == s0.methods,
        s1.variables == s0.variables,
        s1.variable_types == s0.variable_types,
        s1.next_slot == s0.next_slot,
        s1.functions == s0.functions,
        s1.cp == s0.cp,
        s1.current_bytecode@ == s0.current_bytecode@ + code,
    ensures
        expr_step(s0, s1, None, Ok(code_only(code))),
{
    assert(s1.cp@ =~= s0.cp@ + code_only(code).pool);
}

/// A step that adds a group of entries to the pool and then bytes.
pub proof fn lemma_constants_step(
    s0: Compiler,
    s1: Compiler,
    entries: Seq<ConstantModel>,
    code: Seq<u8>,
)
    requires
        s1.class_name == s0.class_name,
        s1.methods == s0.methods,
        s1.variables == s0.variables,
        s1.variable_types == s0.variable_types,
        s1.next_slot == s0.next_slot,
        s1.functions == s0.functions,
        entries_error(s0.cp@.len() as int, entries) is None,
        s1.cp@ == s0.cp@ + entries,
        s1.current_bytecode@ == s0.current_bytecode@ + code,
    ensures
        expr_step(s0, s1, None, constants(s0.cp@.len() as int, entries, code)),
{
}

/// Whether a step that led from `before` to `after` and failed with
/// `failed`, or did not fail, did what `spec` says of statements: on
/// success its entries, bytes and methods were added and the scope is the
/// one it left; on failure the error is the one `spec` gives, and pool,
/// code, methods and tables hold at least what they held.
pub open spec fn stmt_step(
    before: Compiler,
    after: Compiler,
    failed: Option<ErrorModel>,
    spec: Result<Lowered, ErrorModel>,
) -> bool {
    &&& after.class_name == before.class_name
    &&& extends(after.cp@, before.cp@)
    &&& extends(after.current_bytecode@, before.current_bytecode@)
    &&& extends(methods_model(after.methods@), methods_model(before.methods@))
    &&& extends(after.variables@, before.variables@)
    &&& extends(after.variable_types@, before.variable_types@)
    &&& extends(after.functions@, before.functions@)
    &&& match failed {
        None => (spec matches Ok(l) && after@ == lowered_onto(before@, l)),
        Some(err) => spec == Err::<Lowered, ErrorModel>(err),
    }
}

/// A step of an expression is a step of a statement that leaves the scope
/// as it was.
pub proof fn lemma_expr_as_stmt(
    s0: Compiler,
    s1: Compiler,
    failed: Option<ErrorModel>,
    e: Result<Emitted, ErrorModel>,
)
    requires
        expr_step(s0, s1, failed, e),
    ensures
        stmt_step(s0, s1, failed, as_lowered(s0@.scope, e)),
{
    if failed is None {
        let l = as_lowered(s0@.scope, e)->Ok_0;
        assert(s1@.methods =~= s0@.methods + l.methods);
    }
}

/// Two steps in a row are one step that does what both do.
pub proof fn lemma_then_stmt(
    s0: Compiler,
    s1: Compiler,
    s2: Compiler,
    first: Result<Lowered, ErrorModel>,
    failed: Option<ErrorModel>,
    second: Result<Lowered, ErrorModel>,
)
    requires
        stmt_step(s0, s1, None, first),
        stmt_step(s1, s2, failed, second),
    ensures
        stmt_step(s0, s2, failed, then_lowered(first, second)),
{
    if failed is None {
        let l = then_lowered(first, second)->Ok_0;
        assert(s2@.pool =~= s0@.pool + l.pool);
        assert(s2@.code =~= s0@.code + l.code);
        assert(s2@.methods =~= s0@.methods + l.methods);
    }
}

/// Lowered statements can be grouped at will.
pub proof fn lemma_lowered_assoc(acc: Lowered, x: Lowered, rest: Result<Lowered, ErrorModel>)
    ensures
        chain_lowered(acc, chain_lowered(x, rest)) == chain_lowered(
            chain_lowered(acc, Ok(x))->Ok_0,
            rest,
        ),
{
    match rest {
        Ok(y) => {
            let left = chain_lowered(acc, chain_lowered(x, rest))->Ok_0;
            let right = chain_lowered(chain_lowered(acc, Ok(x))->Ok_0, rest)->Ok_0;
            assert(left.pool =~= right.pool);
            assert(left.code =~= right.code);
            assert(left.methods =~= right.methods);
        },
        Err(_) => {},
    }
}

impl Compiler {
    /// The state is well formed: the pool is, and no slot beyond the last
    /// one has been handed out.
    pub open spec fn wf(&self) -> bool {
        self.cp.wf() && self.next_slot <= crate::lowering::MAX_LOCALS
    }

    /// A job for the class `Salida`, at the start of its entry point.
    pub fn new() -> (c: Compiler)
        ensures
            c.wf(),
            c@ == Compiler::start("Salida"@),
    {
        Compiler::for_class("Salida")
    }

    /// The state at the start of the entry point of the class `class`: slot
    /// 0 holds the program's arguments, so the first free slot is 1.
    pub open spec fn start(class: Seq<char>) -> CompilerModel {
        CompilerModel {
            class,
            pool: Seq::empty(),
            methods: Seq::empty(),
            code: Seq::empty(),
            scope: Scope {
                slots: Map::empty(),
                types: Map::empty(),
                next_slot: 1,
                functions: Map::empty(),
            },
        }
    }

    /// A job for the class `class`, at the start of its entry point.
    pub fn for_class(class: &str) -> (c: Compiler)
        ensures
            c.wf(),
            c@ == Compiler::start(class@),
    {
        let c = Compiler {
            class_name: String::from_str(class),
            cp: ConstantPool::new(),
            methods: Vec::new(),
            current_bytecode: Vec::new(),
            variables: NameMap::new(),
            variable_types: NameMap::new(),
            next_slot: 1,
            functions: NameMap::new(),
        };
        assert(c@.methods =~= Seq::<MethodModel>::empty());
        c
    }
}

} // verus!
