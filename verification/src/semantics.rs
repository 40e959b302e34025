//! The static checks that a program has to pass before code is generated.
use vstd::prelude::*;
use crate::ast::{Expr, ExprModel, Stmt, StmtModel, exprs_model, params_model, stmts_model};
use crate::errors::{ErrorKind, ErrorModel, KujavError};
use crate::symbols::{NameMap, extends, lookup};
use crate::text::{joined, str_eq};
use crate::types::{KType, TypeModel};

verus! {

/// A type error with the given message.
pub open spec fn type_error(message: Seq<char>) -> ErrorModel {
    ErrorModel { kind: ErrorKind::Type, message }
}

/// The error for a name that nothing binds.
pub open spec fn undefined_variable(name: Seq<char>) -> ErrorModel {
    ErrorModel { kind: ErrorKind::Semantic, message: "undefined variable '"@ + name + "'"@ }
}

/// The error for indexing a name that is no array.
pub open spec fn not_an_array(name: Seq<char>) -> ErrorModel {
    type_error("'"@ + name + "' is not an array"@)
}

/// The error for storing a value of the wrong type into an array.
pub open spec fn wrong_element(name: Seq<char>) -> ErrorModel {
    type_error("wrong element type for array '"@ + name + "'"@)
}

/// The error for a condition that is not a `Bool`.
pub open spec fn condition_error() -> ErrorModel {
    type_error("condition must be Bool"@)
}

/// The error for `+` on two different types, neither of them `String`.
pub open spec fn operand_error() -> ErrorModel {
    type_error("operands of '+' must have the same type"@)
}

/// The error for an array literal whose elements differ in type.
pub open spec fn element_error() -> ErrorModel {
    type_error("array elements must have the same type"@)
}

/// The error for an index that is not an `Int`.
pub open spec fn index_error() -> ErrorModel {
    type_error("array index must be Int"@)
}

/// The type of an expression under `env`, or the first error found in it.
///
/// `+` gives `String` as soon as one operand is a `String`, and otherwise
/// asks for two operands of one type. Every other operator has the type of
/// its left operand. A call and an input read are `Int`.
pub open spec fn type_of(env: Map<Seq<char>, TypeModel>, e: ExprModel) -> Result<
    TypeModel,
    ErrorModel,
>
    decreases e,
{
    match e {
        ExprModel::Number(_) => Ok(TypeModel::Int),
        ExprModel::Text(_) => Ok(TypeModel::Text),
        ExprModel::Boolean(_) => Ok(TypeModel::Bool),
        ExprModel::Identifier(name) => if env.contains_key(name) {
            Ok(env[name])
        } else {
            Err(undefined_variable(name))
        },
        ExprModel::Binary(l, op, r) => match type_of(env, *l) {
            Err(e) => Err(e),
            Ok(lt) => match type_of(env, *r) {
                Err(e) => Err(e),
                Ok(rt) => if op != "+"@ {
                    Ok(lt)
                } else if lt is Text || rt is Text {
                    Ok(TypeModel::Text)
                } else if lt == rt {
                    Ok(lt)
                } else {
                    Err(operand_error())
                },
            },
        },
        ExprModel::Call(_, _) => Ok(TypeModel::Int),
        ExprModel::Input => Ok(TypeModel::Int),
        ExprModel::ArrayLiteral(elems) => if elems.len() == 0 {
            Ok(TypeModel::Array(Box::new(TypeModel::Int)))
        } else {
            match type_of(env, elems[0]) {
                Err(e) => Err(e),
                Ok(first) => match elements_error(env, elems, first) {
                    Some(e) => Err(e),
                    None => Ok(TypeModel::Array(Box::new(first))),
                },
            }
        },
        ExprModel::ArrayAccess(name, index) => match type_of(env, *index) {
            Err(e) => Err(e),
            Ok(it) => if !(it is Int) {
                Err(index_error())
            } else if env.contains_key(name) && env[name] is Array {
                Ok(*env[name]->Array_0)
            } else {
                Err(not_an_array(name))
            },
        },
    }
}

/// The first error among `elems`, each of which has to have the type
/// `expected`.
pub open spec fn elements_error(
    env: Map<Seq<char>, TypeModel>,
    elems: Seq<ExprModel>,
    expected: TypeModel,
) -> Option<ErrorModel>
    decreases elems,
{
    if elems.len() == 0 {
        None
    } else {
        match type_of(env, elems[0]) {
            Err(e) => Some(e),
            Ok(t) => if t != expected {
                Some(element_error())
            } else {
                elements_error(env, elems.drop_first(), expected)
            },
        }
    }
}

/// The first error among `args`, each of which only has to have a type.
pub open spec fn first_error(env: Map<Seq<char>, TypeModel>, args: Seq<ExprModel>) -> Option<
    ErrorModel,
>
    decreases args,
{
    if args.len() == 0 {
        None
    } else {
        match type_of(env, args[0]) {
            Err(e) => Some(e),
            Ok(_) => first_error(env, args.drop_first()),
        }
    }
}

/// `env` with each parameter bound to its type, in order.
pub open spec fn bind_params(
    env: Map<Seq<char>, TypeModel>,
    params: Seq<(Seq<char>, TypeModel)>,
) -> Map<Seq<char>, TypeModel>
    decreases params.len(),
{
    if params.len() == 0 {
        env
    } else {
        bind_params(env, params.drop_last()).insert(params.last().0, params.last().1)
    }
}

/// Where a check ended: the names known by then, and the error that
/// stopped it, if one did.
pub struct Checked {
    pub env: Map<Seq<char>, TypeModel>,
    pub error: Option<ErrorModel>,
}

/// A check that went through and left `env`.
pub open spec fn passed(env: Map<Seq<char>, TypeModel>) -> Checked {
    Checked { env, error: None }
}

/// A check that stopped at `e` with `env` as it was by then.
pub open spec fn failed(env: Map<Seq<char>, TypeModel>, e: ErrorModel) -> Checked {
    Checked { env, error: Some(e) }
}

/// A check of one expression whose type is not used.
pub open spec fn checked_expr(env: Map<Seq<char>, TypeModel>, e: ExprModel) -> Checked {
    match type_of(env, e) {
        Ok(_) => passed(env),
        Err(err) => failed(env, err),
    }
}

/// The check of one statement under `env`.
///
/// There is one flat table: a binding made inside a branch or a loop stays
/// visible after it. Only a function body is checked in a scope of its own,
/// which holds the function's name and its parameters on top of the
/// enclosing names, and of which nothing but the function's name is left
/// afterwards.
pub open spec fn check_stmt(env: Map<Seq<char>, TypeModel>, s: StmtModel) -> Checked
    decreases s,
{
    match s {
        StmtModel::Let(name, init, _) => match type_of(env, init) {
            Ok(t) => passed(env.insert(name, t)),
            Err(e) => failed(env, e),
        },
        StmtModel::Print(e) => checked_expr(env, e),
        StmtModel::If(cond, then_body, else_body) => match type_of(env, cond) {
            Err(e) => failed(env, e),
            Ok(t) => if !(t is Bool) {
                failed(env, condition_error())
            } else {
                let after_then = check_block(env, then_body);
                match else_body {
                    Some(body) if after_then.error is None => check_block(after_then.env, body),
                    _ => after_then,
                }
            },
        },
        StmtModel::While(cond, body) => match type_of(env, cond) {
            Err(e) => failed(env, e),
            Ok(t) => if !(t is Bool) {
                failed(env, condition_error())
            } else {
                check_block(env, body)
            },
        },
        StmtModel::Function(name, params, body, ret) => {
            let outer = env.insert(name, ret);
            Checked { env: outer, error: check_block(bind_params(outer, params), body).error }
        },
        StmtModel::Call(_, args) => Checked { env, error: first_error(env, args) },
        StmtModel::Return(value) => match value {
            Some(e) => checked_expr(env, e),
            None => passed(env),
        },
        StmtModel::IndexAssign(name, index, value) => match type_of(env, index) {
            Err(e) => failed(env, e),
            Ok(_) => match type_of(env, value) {
                Err(e) => failed(env, e),
                Ok(vt) => if !(env.contains_key(name) && env[name] is Array) {
                    failed(env, not_an_array(name))
                } else if *env[name]->Array_0 != vt {
                    failed(env, wrong_element(name))
                } else {
                    passed(env)
                },
            },
        },
    }
}

/// The check of a list of statements in order, which stops at the first
/// error.
pub open spec fn check_block(env: Map<Seq<char>, TypeModel>, ss: Seq<StmtModel>) -> Checked
    decreases ss,
{
    if ss.len() == 0 {
        passed(env)
    } else {
        let first = check_stmt(env, ss[0]);
        if first.error is Some {
            first
        } else {
            check_block(first.env, ss.drop_first())
        }
    }
}

/// The names that a table of bindings makes known, each with its type.
pub open spec fn type_env(bindings: Seq<(Seq<char>, KType)>) -> Map<Seq<char>, TypeModel>
    decreases bindings.len(),
{
    if bindings.len() == 0 {
        Map::empty()
    } else {
        type_env(bindings.drop_last()).insert(bindings.last().0, bindings.last().1@)
    }
}

/// Whether `r` reports what the check `c` ended with.
pub open spec fn reports(r: Result<(), KujavError>, c: Checked) -> bool {
    match r {
        Ok(()) => c.error is None,
        Err(e) => c.error == Some(e@),
    }
}

/// Whether `r` is the outcome `t` of typing an expression.
pub open spec fn is_typing(r: Result<KType, KujavError>, t: Result<TypeModel, ErrorModel>) -> bool {
    match r {
        Ok(found) => t == Ok::<TypeModel, ErrorModel>(found@),
        Err(e) => t == Err::<TypeModel, ErrorModel>(e@),
    }
}

/// `lookup` finds what `type_env` holds.
pub proof fn lemma_lookup_env(bindings: Seq<(Seq<char>, KType)>, name: Seq<char>)
    ensures
        match lookup(bindings, name) {
            Some(t) => type_env(bindings).contains_key(name) && type_env(bindings)[name] == t@,
            None => !type_env(bindings).contains_key(name),
        },
    decreases bindings.len(),
{
    if bindings.len() > 0 {
        lemma_lookup_env(bindings.drop_last(), name);
    }
}

/// A binding added at the end is an insertion into the known names.
pub proof fn lemma_env_push(bindings: Seq<(Seq<char>, KType)>, name: Seq<char>, t: KType)
    ensures
        type_env(bindings.push((name, t))) == type_env(bindings).insert(name, t@),
{
    assert(bindings.push((name, t)).drop_last() =~= bindings);
}


/// The analyzer, with the names it knows so far.
pub struct SemanticAnalyzer {
    pub symbols: NameMap<KType>,
}

impl View for SemanticAnalyzer {
    type V = Map<Seq<char>, TypeModel>;

    open spec fn view(&self) -> Map<Seq<char>, TypeModel> {
        type_env(self.symbols@)
    }
}

impl SemanticAnalyzer {
    /// An analyzer that knows no names.
    pub fn new() -> (analyzer: SemanticAnalyzer)
        ensures
            analyzer@ == Map::<Seq<char>, TypeModel>::empty(),
    {
        SemanticAnalyzer { symbols: NameMap::new() }
    }

    /// Checks a whole program, stopping at the first error.
    pub fn analyze(&mut self, ast: &[Stmt]) -> (r: Result<(), KujavError>)
        ensures
            final(self)@ == check_block(old(self)@, stmts_model(ast@)).env,
            reports(r, check_block(old(self)@, stmts_model(ast@))),
            extends(final(self).symbols@, old(self).symbols@),
    {
        self.check_block(ast)
    }

    fn check_block(&mut self, stmts: &[Stmt]) -> (r: Result<(), KujavError>)
        ensures
            final(self)@ == check_block(old(self)@, stmts_model(stmts@)).env,
            reports(r, check_block(old(self)@, stmts_model(stmts@))),
            extends(final(self).symbols@, old(self).symbols@),
        decreases stmts@, 0nat,
    {
        let ghost models = stmts_model(stmts@);
        let mut i: usize = 0;
        assert(models.skip(0) =~= models);
        while i < stmts.len()
            invariant
                i <= stmts.len(),
                models == stmts_model(stmts@),
                check_block(old(self)@, models) == check_block(self@, models.skip(i as int)),
                extends(self.symbols@, old(self).symbols@),
            decreases stmts.len() - i,
        {
            let ghost before = self.symbols@;
            assert(models.skip(i as int).drop_first() =~= models.skip(i as int + 1));
            assert(models.skip(i as int)[0] == stmts@[i as int]@);
            match self.check_stmt(&stmts[i]) {
                Ok(()) => {},
                Err(e) => {
                    return Err(e);
                },
            }
            i += 1;
        }
        Ok(())
    }

    /// Checks one statement, and learns the names that it binds.
    pub fn check_stmt(&mut self, stmt: &Stmt) -> (r: Result<(), KujavError>)
        ensures
            final(self)@ == check_stmt(old(self)@, stmt@).env,
            reports(r, check_stmt(old(self)@, stmt@)),
            extends(final(self).symbols@, old(self).symbols@),
        decreases stmt, 0nat,
    {
        match stmt {
            Stmt::Let(name, init, _) => {
                let t = self.check_expr(init)?;
                proof {
                    lemma_env_push(self.symbols@, name@, t);
                }
                self.symbols.insert(name.clone(), t);
                Ok(())
            },
            Stmt::Print(e) => {
                self.check_expr(e)?;
                Ok(())
            },
            Stmt::If(cond, then_body, else_body) => {
                self.check_condition(cond)?;
                self.check_block(then_body.as_slice())?;
                if let Some(body) = else_body {
                    self.check_block(body.as_slice())
                } else {
                    Ok(())
                }
            },
            Stmt::While(cond, body) => {
                self.check_condition(cond)?;
                self.check_block(body.as_slice())
            },
            Stmt::Function(name, params, body, ret) => {
                let ty = ret.clone();
                proof {
                    lemma_env_push(self.symbols@, name@, ty);
                }
                self.symbols.insert(name.clone(), ty);
                self.check_body(params, body)
            },
            Stmt::Call(_, args) => self.check_args(args),
            Stmt::Return(value) => {
                if let Some(e) = value {
                    self.check_expr(e)?;
                }
                Ok(())
            },
            Stmt::IndexAssign(name, index, value) => {
                self.check_expr(index)?;
                let vt = self.check_expr(value)?;
                proof {
                    lemma_lookup_env(self.symbols@, name@);
                }
                match self.symbols.get(name.as_str()) {
                    Some(KType::Array(inner)) => {
                        if !inner.same(&vt) {
                            return Err(
                                KujavError::Type(
                                    joined("wrong element type for array '", name.as_str(), "'"),
                                ),
                            );
                        }
                        Ok(())
                    },
                    _ => Err(KujavError::Type(joined("'", name.as_str(), "' is not an array"))),
                }
            },
        }
    }

    /// Checks that `cond` is a `Bool`.
    fn check_condition(&self, cond: &Expr) -> (r: Result<(), KujavError>)
        ensures
            match r {
                Ok(()) => type_of(self@, cond@) == Ok::<TypeModel, ErrorModel>(TypeModel::Bool),
                Err(e) => match type_of(self@, cond@) {
                    Ok(t) => !(t is Bool) && e@ == condition_error(),
                    Err(err) => e@ == err,
                },
            },
    {
        let t = self.check_expr(cond)?;
        if !t.same(&KType::Bool) {
            return Err(KujavError::type_error("condition must be Bool"));
        }
        Ok(())
    }

    /// Checks a function body in a scope of its own: the parameters are
    /// bound on top of what is known, and dropped again afterwards.
    fn check_body(&mut self, params: &Vec<(String, KType)>, body: &Vec<Stmt>) -> (r: Result<
        (),
        KujavError,
    >)
        ensures
            final(self).symbols@ == old(self).symbols@,
            reports(
                r,
                check_block(bind_params(old(self)@, params_model(params@)), stmts_model(body@)),
            ),
        decreases body@, 1nat,
    {
        let mark = self.symbols.len();
        let ghost outer = self.symbols@;
        let ghost ps = params_model(params@);
        let mut i: usize = 0;
        assert(ps.take(0) =~= Seq::<(Seq<char>, TypeModel)>::empty());
        while i < params.len()
            invariant
                i <= params.len(),
                ps == params_model(params@),
                extends(self.symbols@, outer),
                self@ == bind_params(type_env(outer), ps.take(i as int)),
            decreases params.len() - i,
        {
            let ghost before = self.symbols@;
            let name = params[i].0.clone();
            let ty = params[i].1.clone();
            proof {
                lemma_env_push(self.symbols@, name@, ty);
                assert(ps.take(i as int + 1).drop_last() =~= ps.take(i as int));
                assert(ps.take(i as int + 1).last() == ps[i as int]);
            }
            self.symbols.insert(name, ty);
            i += 1;
        }
        assert(ps.take(params.len() as int) =~= ps);
        let ghost inner = self.symbols@;
        let r = self.check_block(body.as_slice());
        self.symbols.truncate(mark);
        r
    }

    /// Checks that every argument has a type.
    fn check_args(&self, args: &Vec<Expr>) -> (r: Result<(), KujavError>)
        ensures
            match r {
                Ok(()) => first_error(self@, exprs_model(args@)) is None,
                Err(e) => first_error(self@, exprs_model(args@)) == Some(e@),
            },
    {
        let ghost models = exprs_model(args@);
        let mut i: usize = 0;
        assert(models.skip(0) =~= models);
        while i < args.len()
            invariant
                i <= args.len(),
                models == exprs_model(args@),
                first_error(self@, models) == first_error(self@, models.skip(i as int)),
            decreases args.len() - i,
        {
            assert(models.skip(i as int).drop_first() =~= models.skip(i as int + 1));
            assert(models.skip(i as int)[0] == args@[i as int]@);
            self.check_expr(&args[i])?;
            i += 1;
        }
        Ok(())
    }

    /// The type of an expression under the names known so far.
    pub fn check_expr(&self, expr: &Expr) -> (r: Result<KType, KujavError>)
        ensures
            is_typing(r, type_of(self@, expr@)),
        decreases expr, 0nat,
    {
        match expr {
            Expr::Number(_) => Ok(KType::Int),
            Expr::String(_) => Ok(KType::String),
            Expr::Boolean(_) => Ok(KType::Bool),
            Expr::Identifier(name) => {
                proof {
                    lemma_lookup_env(self.symbols@, name@);
                }
                match self.symbols.get(name.as_str()) {
                    Some(t) => Ok(t.clone()),
                    None => Err(
                        KujavError::Semantic(joined("undefined variable '", name.as_str(), "'")),
                    ),
                }
            },
            Expr::Binary(l, op, r) => {
                let lt = self.check_expr(l)?;
                let rt = self.check_expr(r)?;
                if !str_eq(op.as_str(), "+") {
                    Ok(lt)
                } else if lt.same(&KType::String) || rt.same(&KType::String) {
                    Ok(KType::String)
                } else if lt.same(&rt) {
                    Ok(lt)
                } else {
                    Err(KujavError::type_error("operands of '+' must have the same type"))
                }
            },
            Expr::Call(_, _) => Ok(KType::Int),
            Expr::Input => Ok(KType::Int),
            Expr::ArrayLiteral(elems) => self.check_elements(elems),
            Expr::ArrayAccess(name, index) => {
                let it = self.check_expr(index)?;
                if !it.same(&KType::Int) {
                    return Err(KujavError::type_error("array index must be Int"));
                }
                proof {
                    lemma_lookup_env(self.symbols@, name@);
                }
                match self.symbols.get(name.as_str()) {
                    Some(KType::Array(inner)) => Ok((**inner).clone()),
                    _ => Err(KujavError::Type(joined("'", name.as_str(), "' is not an array"))),
                }
            },
        }
    }

    /// Types an array literal with the given elements.
    fn check_elements(&self, elems: &Vec<Expr>) -> (r: Result<KType, KujavError>)
        ensures
            is_typing(r, type_of(self@, ExprModel::ArrayLiteral(exprs_model(elems@)))),
        decreases elems@, 1nat,
    {
        let ghost models = exprs_model(elems@);
        if elems.len() == 0 {
            assert(KType::Int@ == TypeModel::Int);
            return Ok(KType::Array(Box::new(KType::Int)));
        }
        assert(models[0] == elems@[0]@);
        let first = self.check_expr(&elems[0])?;
        let mut i: usize = 0;
        assert(models.skip(0) =~= models);
        while i < elems.len()
            invariant
                i <= elems.len(),
                elems.len() > 0,
                models == exprs_model(elems@),
                type_of(self@, models[0]) == Ok::<TypeModel, ErrorModel>(first@),
                elements_error(self@, models, first@) == elements_error(
                    self@,
                    models.skip(i as int),
                    first@,
                ),
            decreases elems.len() - i,
        {
            assert(models.skip(i as int).drop_first() =~= models.skip(i as int + 1));
            assert(models.skip(i as int)[0] == elems@[i as int]@);
            let t = self.check_expr(&elems[i])?;
            if !t.same(&first) {
                return Err(KujavError::type_error("array elements must have the same type"));
            }
            i += 1;
        }
        Ok(KType::Array(Box::new(first)))
    }
}

/// A condition that has a type other than `Bool` is refused, whatever the
/// branches hold.
pub proof fn lemma_condition_must_be_bool(
    env: Map<Seq<char>, TypeModel>,
    cond: ExprModel,
    then_body: Seq<StmtModel>,
    else_body: Option<Seq<StmtModel>>,
)
    requires
        type_of(env, cond) is Ok,
        !(type_of(env, cond)->Ok_0 is Bool),
    ensures
        check_stmt(env, StmtModel::If(cond, then_body, else_body)).error == Some(
            condition_error(),
        ),
        check_stmt(env, StmtModel::While(cond, then_body)).error == Some(condition_error()),
{
}

/// `+` with a `String` on either side is a `String`, whatever type the
/// other side has.
pub proof fn lemma_text_absorbs(env: Map<Seq<char>, TypeModel>, l: ExprModel, r: ExprModel)
    requires
        type_of(env, l) is Ok,
        type_of(env, r) is Ok,
        type_of(env, l)->Ok_0 is Text || type_of(env, r)->Ok_0 is Text,
    ensures
        type_of(env, ExprModel::Binary(Box::new(l), "+"@, Box::new(r))) == Ok::<
            TypeModel,
            ErrorModel,
        >(TypeModel::Text),
{
}

/// A value cannot be stored into an array whose elements have another
/// type.
pub proof fn lemma_wrong_element_is_refused(
    env: Map<Seq<char>, TypeModel>,
    name: Seq<char>,
    index: ExprModel,
    value: ExprModel,
)
    requires
        env.contains_key(name),
        env[name] is Array,
        type_of(env, index) is Ok,
        type_of(env, value) is Ok,
        type_of(env, value)->Ok_0 != *env[name]->Array_0,
    ensures
        check_stmt(env, StmtModel::IndexAssign(name, index, value)).error == Some(
            wrong_element(name),
        ),
{
}

/// An array literal without elements is an array of `Int`, and taking an
/// element of a variable bound to it is no type error.
pub proof fn lemma_empty_array_is_int_array(env: Map<Seq<char>, TypeModel>, name: Seq<char>)
    ensures
        type_of(env, ExprModel::ArrayLiteral(Seq::empty())) == Ok::<TypeModel, ErrorModel>(
            TypeModel::Array(Box::new(TypeModel::Int)),
        ),
        type_of(
            check_stmt(
                env,
                StmtModel::Let(name, ExprModel::ArrayLiteral(Seq::empty()), None),
            ).env,
            ExprModel::ArrayAccess(name, Box::new(ExprModel::Number(0))),
        ) == Ok::<TypeModel, ErrorModel>(TypeModel::Int),
{
    reveal_with_fuel(type_of, 3);
}

} // verus!
