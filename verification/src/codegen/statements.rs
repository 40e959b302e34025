//! Lowering of statements.
use vstd::prelude::*;
use vstd::string::*;
use crate::ast::{Expr, Stmt, exprs_model, params_model, stmts_model};
use crate::codegen::{
    Compiler,
    expr_step,
    failure,
    lemma_code_step,
    lemma_expr_as_stmt,
    lemma_lowered_assoc,
    lemma_then,
    lemma_then_stmt,
    lowered_onto,
    methods_model,
    stmt_step,
};
use crate::errors::{ErrorModel, KujavError};
use crate::lowering::{
    Lowered,
    Scope,
    arg_descriptors,
    as_lowered,
    binding,
    call_for_effect,
    chain_lowered,
    code_only,
    constants,
    element_store,
    invoke,
    lower_args,
    lower_block,
    lower_expr,
    lower_function,
    lower_if,
    lower_print,
    lower_stmt,
    lower_while,
    lowered,
    method_descriptor,
    op3,
    param_descriptors,
    pool_len,
    qualified_entries,
    result_type,
    returned,
    static_type,
    then,
    then_lowered,
};
use crate::emit::emit1;
use crate::semantics::{lemma_env_push, lemma_lookup_env};
use crate::symbols::{extends, lemma_as_map_push, lemma_lookup_as_map};
use crate::text::{joined, be16};
use crate::types::{KType, TypeModel, descriptor};

verus! {


/// Writes `value` over the two bytes at `at`, most significant first.
pub(crate) fn patch16(code: &mut Vec<u8>, at: usize, value: u16)
    requires
        at + 2 <= old(code).len(),
    ensures
        final(code)@ == old(code)@.update(at as int, be16(value as int)[0]).update(
            at + 1,
            be16(value as int)[1],
        ),
{
    code[at] = (value / 256) as u8;
    code[at + 1] = (value % 256) as u8;
}

/// The descriptor of a method with the given parameters and return type.
pub(crate) fn method_descriptor_text(params: &Vec<(String, KType)>, ret: &KType) -> (d: String)
    ensures
        d@ == method_descriptor(params_model(params@), ret@),
{
    let ghost ps = params_model(params@);
    let mut d = String::from_str("(");
    let mut i: usize = 0;
    assert(ps.take(0) =~= Seq::<(Seq<char>, TypeModel)>::empty());
    while i < params.len()
        invariant
            i <= params.len(),
            ps == params_model(params@),
            d@ == "("@ + param_descriptors(ps.take(i as int)),
        decreases params.len() - i,
    {
        let sig = params[i].1.to_jvm_sig();
        proof {
            assert(ps.take(i as int + 1).drop_last() =~= ps.take(i as int));
            assert(ps.take(i as int + 1).last() == ps[i as int]);
        }
        d.append(sig.as_str());
        assert(d@ =~= "("@ + param_descriptors(ps.take(i as int + 1)));
        i += 1;
    }
    assert(ps.take(params.len() as int) =~= ps);
    d.append(")");
    let tail = ret.to_jvm_sig();
    d.append(tail.as_str());
    d
}

impl Compiler {
    /// Lowers a statement into the method that is being emitted. A function
    /// definition becomes a method of its own. Where the statement cannot be
    /// lowered, the error says why and the state is left as it was.
    pub fn compile_statement(&mut self, stmt: Stmt) -> (r: Result<(), KujavError>)
        requires
            old(self).wf(),
        ensures
            final(self).wf(),
            match r {
                Ok(()) => (lower_stmt(
                    old(self)@.class,
                    old(self)@.scope,
                    old(self)@.pool.len() as int,
                    stmt@,
                ) matches Ok(l) && final(self)@ == lowered_onto(old(self)@, l)),
                Err(err) => lower_stmt(
                    old(self)@.class,
                    old(self)@.scope,
                    old(self)@.pool.len() as int,
                    stmt@,
                ) == Err::<Lowered, ErrorModel>(err@) && final(self)@ == old(self)@,
            },
    {
        let pool_mark = self.cp.len();
        let code_mark = self.current_bytecode.len();
        let methods_mark = self.methods.len();
        let variables_mark = self.variables.len();
        let types_mark = self.variable_types.len();
        let slot_mark = self.next_slot;
        let functions_mark = self.functions.len();
        match self.lower_stmt(&stmt) {
            Ok(()) => Ok(()),
            Err(e) => {
                self.rollback(
                    Ghost(*old(self)),
                    pool_mark,
                    code_mark,
                    methods_mark,
                    variables_mark,
                    types_mark,
                    slot_mark,
                    functions_mark,
                );
                Err(e)
            },
        }
    }

    /// Cuts the state back to what it was at `origin`, of which the marks
    /// are the lengths.
    fn rollback(
        &mut self,
        Ghost(origin): Ghost<Compiler>,
        pool_mark: usize,
        code_mark: usize,
        methods_mark: usize,
        variables_mark: usize,
        types_mark: usize,
        slot_mark: u16,
        functions_mark: usize,
    )
        requires
            old(self).cp.wf(),
            origin.wf(),
            old(self).class_name == origin.class_name,
            extends(old(self).cp@, origin.cp@),
            extends(old(self).current_bytecode@, origin.current_bytecode@),
            extends(methods_model(old(self).methods@), methods_model(origin.methods@)),
            extends(old(self).variables@, origin.variables@),
            extends(old(self).variable_types@, origin.variable_types@),
            extends(old(self).functions@, origin.functions@),
            pool_mark == origin.cp@.len(),
            code_mark == origin.current_bytecode@.len(),
            methods_mark == origin.methods@.len(),
            variables_mark == origin.variables@.len(),
            types_mark == origin.variable_types@.len(),
            slot_mark == origin.next_slot,
            functions_mark == origin.functions@.len(),
        ensures
            final(self).wf(),
            final(self)@ == origin@,
    {
        self.cp.truncate(pool_mark);
        self.current_bytecode.truncate(code_mark);
        self.methods.truncate(methods_mark);
        self.variables.truncate(variables_mark);
        self.variable_types.truncate(types_mark);
        self.next_slot = slot_mark;
        self.functions.truncate(functions_mark);
        assert(self.functions@ =~= origin.functions@);
        assert(self.cp@ =~= origin.cp@);
        assert(self.current_bytecode@ =~= origin.current_bytecode@);
        assert forall|i: int| 0 <= i < methods_mark implies methods_model(self.methods@)[i]
            == methods_model(origin.methods@)[i] by {
            assert(methods_model(self.methods@)[i] == methods_model(old(self).methods@)[i]);
        }
        assert(methods_model(self.methods@) =~= methods_model(origin.methods@));
        assert(self.variables@ =~= origin.variables@);
        assert(self.variable_types@ =~= origin.variable_types@);
    }

    pub(crate) fn lower_stmt(&mut self, stmt: &Stmt) -> (r: Result<(), KujavError>)
        requires
            old(self).wf(),
        ensures
            final(self).wf(),
            stmt_step(
                *old(self),
                *final(self),
                failure(r),
                lower_stmt(
                    old(self)@.class,
                    old(self)@.scope,
                    old(self)@.pool.len() as int,
                    stmt@,
                ),
            ),
        decreases stmt, 1nat,
    {
        let ghost class = self@.class;
        let ghost scope = self@.scope;
        let ghost base = self@.pool.len() as int;
        match stmt {
            Stmt::Let(name, init, _) => self.lower_let(name.as_str(), init),
            Stmt::Print(e) => {
                let r = self.print_value(e);
                proof {
                    lemma_expr_as_stmt(
                        *old(self),
                        *self,
                        failure(r),
                        lower_print(class, scope, base, e@),
                    );
                }
                r
            },
            Stmt::If(_, _, _) => self.lower_if(stmt),
            Stmt::While(_, _) => self.lower_while(stmt),
            Stmt::Function(_, _, _, _) => self.lower_function(stmt),
            Stmt::Call(name, args) => {
                let r = self.call_procedure(name.as_str(), args);
                proof {
                    lemma_expr_as_stmt(
                        *old(self),
                        *self,
                        failure(r),
                        call_for_effect(
                            result_type(scope, name@),
                            invoke(
                                class,
                                name@,
                                "("@ + arg_descriptors(scope, exprs_model(args@)) + ")"@
                                    + descriptor(result_type(scope, name@)),
                                base,
                                lower_args(class, scope, base, exprs_model(args@)),
                            ),
                        ),
                    );
                }
                r
            },
            Stmt::Return(value) => match value {
                None => {
                    self.emit_bytes1(0xB1);
                    proof {
                        lemma_expr_as_stmt(
                            *old(self),
                            *self,
                            None,
                            Ok(code_only(seq![0xB1u8])),
                        );
                    }
                    Ok(())
                },
                Some(e) => {
                    let r = self.return_value(e);
                    proof {
                        lemma_expr_as_stmt(
                            *old(self),
                            *self,
                            failure(r),
                            returned(static_type(scope, e@), lower_expr(class, scope, base, e@)),
                        );
                    }
                    r
                },
            },
            Stmt::IndexAssign(name, index, value) => {
                proof {
                    lemma_lookup_as_map(self.variables@, name@);
                }
                let slot = match self.variables.get(name.as_str()) {
                    Some(slot) => *slot,
                    None => {
                        return Err(
                            KujavError::Semantic(
                                joined("undefined variable '", name.as_str(), "'"),
                            ),
                        );
                    },
                };
                let r = self.store_indexed(slot, index, value);
                proof {
                    let i = lower_expr(class, scope, base, index@);
                    let v = lower_expr(class, scope, base + pool_len(i), value@);
                    lemma_expr_as_stmt(*old(self), *self, failure(r), element_store(slot, i, v));
                }
                r
            },
        }
    }

    /// Lowers statements one after the other.
    pub(crate) fn lower_block(&mut self, stmts: &[Stmt]) -> (r: Result<(), KujavError>)
        requires
            old(self).wf(),
        ensures
            final(self).wf(),
            stmt_step(
                *old(self),
                *final(self),
                failure(r),
                lower_block(
                    old(self)@.class,
                    old(self)@.scope,
                    old(self)@.pool.len() as int,
                    stmts_model(stmts@),
                ),
            ),
        decreases stmts@, 2nat,
    {
        let ghost models = stmts_model(stmts@);
        let ghost class = self@.class;
        let ghost whole = lower_block(class, self@.scope, self@.pool.len() as int, models);
        let ghost mut acc = lowered(self@.scope, code_only(Seq::empty()));
        let mut i: usize = 0;
        proof {
            assert(models.skip(0) =~= models);
            lemma_code_step(*old(self), *self, Seq::empty());
            lemma_expr_as_stmt(*old(self), *self, None, Ok(code_only(Seq::empty())));
            lemma_then_unit(whole, self@.scope);
        }
        while i < stmts.len()
            invariant
                i <= stmts.len(),
                self.wf(),
                models == stmts_model(stmts@),
                class == old(self)@.class,
                stmt_step(*old(self), *self, None, Ok(acc)),
                whole == lower_block(
                    old(self)@.class,
                    old(self)@.scope,
                    old(self)@.pool.len() as int,
                    models,
                ),
                whole == chain_lowered(
                    acc,
                    lower_block(class, self@.scope, self@.pool.len() as int, models.skip(i as int)),
                ),
            decreases stmts.len() - i,
        {
            let ghost rest = models.skip(i as int);
            let ghost before = *self;
            let ghost first = lower_stmt(class, self@.scope, self@.pool.len() as int, rest[0]);
            assert(rest.drop_first() =~= models.skip(i as int + 1));
            assert(rest[0] == stmts@[i as int]@);
            let r = self.lower_stmt(&stmts[i]);
            proof {
                lemma_then_stmt(*old(self), before, *self, Ok(acc), failure(r), first);
            }
            match r {
                Err(e) => {
                    return Err(e);
                },
                Ok(()) => {
                    proof {
                        lemma_lowered_assoc(
                            acc,
                            first->Ok_0,
                            lower_block(
                                class,
                                self@.scope,
                                self@.pool.len() as int,
                                rest.drop_first(),
                            ),
                        );
                        acc = chain_lowered(acc, first)->Ok_0;
                    }
                },
            }
            i += 1;
        }
        proof {
            let end = lowered(self@.scope, code_only(Seq::empty()));
            assert(whole == chain_lowered(acc, Ok(end)));
            assert(whole->Ok_0.pool =~= acc.pool);
            assert(whole->Ok_0.code =~= acc.code);
            assert(whole->Ok_0.methods =~= acc.methods);
        }
        Ok(())
    }

    /// Binds a name to the value of an expression.
    fn lower_let(&mut self, name: &str, init: &Expr) -> (r: Result<(), KujavError>)
        requires
            old(self).wf(),
        ensures
            final(self).wf(),
            stmt_step(
                *old(self),
                *final(self),
                failure(r),
                then_lowered(
                    as_lowered(
                        old(self)@.scope,
                        lower_expr(
                            old(self)@.class,
                            old(self)@.scope,
                            old(self)@.pool.len() as int,
                            init@,
                        ),
                    ),
                    binding(old(self)@.scope, name@, static_type(old(self)@.scope, init@)),
                ),
            ),
    {
        let ghost s0 = *self;
        let ghost value = lower_expr(self@.class, self@.scope, self@.pool.len() as int, init@);
        let t = self.static_type(init);
        let r0 = self.lower_expr(init);
        proof {
            lemma_expr_as_stmt(s0, *self, failure(r0), value);
        }
        if let Err(e) = r0 {
            return Err(e);
        }
        let ghost s1 = *self;
        let ghost kind = t@;
        let r = self.bind(name, t);
        proof {
            lemma_then_stmt(
                s0,
                s1,
                *self,
                as_lowered(s0@.scope, value),
                failure(r),
                binding(s0@.scope, name@, kind),
            );
        }
        r
    }

    /// Gives `name` its slot and stores the value on the stack there.
    fn bind(&mut self, name: &str, t: KType) -> (r: Result<(), KujavError>)
        requires
            old(self).wf(),
        ensures
            final(self).wf(),
            stmt_step(*old(self), *final(self), failure(r), binding(old(self)@.scope, name@, t@)),
    {
        proof {
            lemma_lookup_as_map(self.variables@, name@);
        }
        let slot = match self.variables.get(name) {
            Some(slot) => *slot,
            None => {
                if self.next_slot >= 256 {
                    return Err(KujavError::bytecode("too many local variables"));
                }
                let slot = self.next_slot as u8;
                proof {
                    lemma_as_map_push(self.variables@, name@, slot);
                }
                self.variables.insert(String::from_str(name), slot);
                self.next_slot = self.next_slot + 1;
                slot
            },
        };
        let reference = t.is_reference();
        proof {
            lemma_env_push(self.variable_types@, name@, t);
        }
        self.variable_types.insert(String::from_str(name), t);
        emit_store(&mut self.current_bytecode, reference, slot);
        proof {
            let l = binding(old(self)@.scope, name@, t@)->Ok_0;
            assert(self@.pool =~= old(self)@.pool + l.pool);
            assert(self@.methods =~= old(self)@.methods + l.methods);
        }
        Ok(())
    }

    /// Prints the value of an expression.
    fn print_value(&mut self, e: &Expr) -> (r: Result<(), KujavError>)
        requires
            old(self).wf(),
        ensures
            final(self).wf(),
            expr_step(
                *old(self),
                *final(self),
                failure(r),
                lower_print(
                    old(self)@.class,
                    old(self)@.scope,
                    old(self)@.pool.len() as int,
                    e@,
                ),
            ),
    {
        let ghost class = self@.class;
        let ghost scope = self@.scope;
        let ghost base = self@.pool.len() as int;
        let ghost s0 = *self;
        let t = self.static_type(e);
        self.emit_qualified(0xB2, false, "java/lang/System", "out", "Ljava/io/PrintStream;")?;
        let ghost s1 = *self;
        let ghost value = lower_expr(class, scope, base + 6, e@);
        self.lower_expr(e)?;
        let ghost s2 = *self;
        let desc = joined("(", crate::codegen::expressions::passed_as_text(&t), ")V");
        let r = self.emit_qualified(0xB6, true, "java/io/PrintStream", "println", desc.as_str());
        proof {
            let out = constants(
                base,
                qualified_entries(
                    base,
                    false,
                    "java/lang/System"@,
                    "out"@,
                    "Ljava/io/PrintStream;"@,
                ),
                op3(0xB2, base + 6),
            );
            let call = constants(
                base + 6 + pool_len(value),
                qualified_entries(
                    base + 6 + pool_len(value),
                    true,
                    "java/io/PrintStream"@,
                    "println"@,
                    desc@,
                ),
                op3(0xB6, base + 12 + pool_len(value)),
            );
            lemma_then(s1, s2, *self, value, failure(r), call);
            lemma_then(s0, s1, *self, out, failure(r), then(value, call));
        }
        r
    }

    /// What a call of the function `name` as a statement leaves on the
    /// stack.
    fn result_type(&self, name: &str) -> (t: KType)
        ensures
            t@ == result_type(self@.scope, name@),
    {
        proof {
            lemma_lookup_env(self.functions@, name@);
        }
        match self.functions.get(name) {
            Some(t) => t.clone(),
            None => KType::Int,
        }
    }

    /// Calls a function of the program.
    fn invoke(&mut self, name: &str, args: &Vec<Expr>, ret: &KType) -> (r: Result<(), KujavError>)
        requires
            old(self).wf(),
        ensures
            final(self).wf(),
            expr_step(
                *old(self),
                *final(self),
                failure(r),
                invoke(
                    old(self)@.class,
                    name@,
                    "("@ + arg_descriptors(old(self)@.scope, exprs_model(args@)) + ")"@
                        + descriptor(ret@),
                    old(self)@.pool.len() as int,
                    lower_args(
                        old(self)@.class,
                        old(self)@.scope,
                        old(self)@.pool.len() as int,
                        exprs_model(args@),
                    ),
                ),
            ),
    {
        let ghost s0 = *self;
        let ghost pushed = lower_args(
            self@.class,
            self@.scope,
            self@.pool.len() as int,
            exprs_model(args@),
        );
        self.lower_args(args)?;
        let ghost s1 = *self;
        let mut tail = String::from_str(")");
        let sig = ret.to_jvm_sig();
        tail.append(sig.as_str());
        let desc = self.call_descriptor(args, tail.as_str());
        assert(desc@ =~= "("@ + arg_descriptors(s0@.scope, exprs_model(args@)) + ")"@ + descriptor(
            ret@,
        ));
        let class = self.class_name.clone();
        let r = self.emit_qualified(0xB8, true, class.as_str(), name, desc.as_str());
        proof {
            lemma_then(
                s0,
                s1,
                *self,
                pushed,
                failure(r),
                constants(
                    s1@.pool.len() as int,
                    qualified_entries(s1@.pool.len() as int, true, class@, name@, desc@),
                    op3(0xB8, s1@.pool.len() as int + 6),
                ),
            );
        }
        r
    }

    /// Calls a function of the program for its effect.
    fn call_procedure(&mut self, name: &str, args: &Vec<Expr>) -> (r: Result<(), KujavError>)
        requires
            old(self).wf(),
        ensures
            final(self).wf(),
            expr_step(
                *old(self),
                *final(self),
                failure(r),
                call_for_effect(
                    result_type(old(self)@.scope, name@),
                    invoke(
                        old(self)@.class,
                        name@,
                        "("@ + arg_descriptors(old(self)@.scope, exprs_model(args@)) + ")"@
                            + descriptor(result_type(old(self)@.scope, name@)),
                        old(self)@.pool.len() as int,
                        lower_args(
                            old(self)@.class,
                            old(self)@.scope,
                            old(self)@.pool.len() as int,
                            exprs_model(args@),
                        ),
                    ),
                ),
            ),
    {
        let ghost s0 = *self;
        let ret = self.result_type(name);
        let ghost call = invoke(
            self@.class,
            name@,
            "("@ + arg_descriptors(self@.scope, exprs_model(args@)) + ")"@ + descriptor(ret@),
            self@.pool.len() as int,
            lower_args(self@.class, self@.scope, self@.pool.len() as int, exprs_model(args@)),
        );
        let r = self.invoke(name, args, &ret);
        match ret {
            KType::Void => r,
            _ => {
                r?;
                let ghost s1 = *self;
                emit1(&mut self.current_bytecode, 0x57);
                proof {
                    lemma_code_step(s1, *self, seq![0x57u8]);
                    lemma_then(s0, s1, *self, call, None, Ok(code_only(seq![0x57u8])));
                }
                Ok(())
            },
        }
    }

    /// Returns the value of an expression.
    fn return_value(&mut self, e: &Expr) -> (r: Result<(), KujavError>)
        requires
            old(self).wf(),
        ensures
            final(self).wf(),
            expr_step(
                *old(self),
                *final(self),
                failure(r),
                returned(
                    static_type(old(self)@.scope, e@),
                    lower_expr(
                        old(self)@.class,
                        old(self)@.scope,
                        old(self)@.pool.len() as int,
                        e@,
                    ),
                ),
            ),
    {
        let ghost s0 = *self;
        let ghost value = lower_expr(self@.class, self@.scope, self@.pool.len() as int, e@);
        let reference = self.static_type(e).is_reference();
        self.lower_expr(e)?;
        let ghost s1 = *self;
        let op: u8 = if reference { 0xB0 } else { 0xAC };
        self.emit_bytes1(op);
        proof {
            lemma_then(s0, s1, *self, value, None, Ok(code_only(seq![op])));
        }
        Ok(())
    }

    /// Stores a value into an element of the array in `slot`.
    fn store_indexed(&mut self, slot: u8, index: &Expr, value: &Expr) -> (r: Result<
        (),
        KujavError,
    >)
        requires
            old(self).wf(),
        ensures
            final(self).wf(),
            expr_step(
                *old(self),
                *final(self),
                failure(r),
                element_store(
                    slot,
                    lower_expr(
                        old(self)@.class,
                        old(self)@.scope,
                        old(self)@.pool.len() as int,
                        index@,
                    ),
                    lower_expr(
                        old(self)@.class,
                        old(self)@.scope,
                        old(self)@.pool.len() + pool_len(
                            lower_expr(
                                old(self)@.class,
                                old(self)@.scope,
                                old(self)@.pool.len() as int,
                                index@,
                            ),
                        ),
                        value@,
                    ),
                ),
            ),
    {
        let ghost class = self@.class;
        let ghost scope = self@.scope;
        let ghost base = self@.pool.len() as int;
        let ghost s0 = *self;
        self.emit_bytes2(0x19, slot);
        let ghost s1 = *self;
        let ghost i = lower_expr(class, scope, base, index@);
        self.lower_expr(index)?;
        let ghost s2 = *self;
        let ghost v = lower_expr(class, scope, base + pool_len(i), value@);
        self.lower_expr(value)?;
        let ghost s3 = *self;
        self.emit_bytes1(0x4F);
        proof {
            let last = Ok::<crate::lowering::Emitted, ErrorModel>(code_only(seq![0x4Fu8]));
            lemma_then(s2, s3, *self, v, None, last);
            lemma_then(s1, s2, *self, i, None, then(v, last));
            lemma_then(s0, s1, *self, Ok(code_only(seq![0x19u8, slot])), None, then(i, then(v, last)));
        }
        Ok(())
    }
}

/// Appends the instruction that stores into `slot`.
fn emit_store(code: &mut Vec<u8>, reference: bool, slot: u8)
    ensures
        final(code)@ == old(code)@ + seq![if reference {
            0x3Au8
        } else {
            0x36u8
        }, slot],
{
    crate::emit::emit2(code, if reference { 0x3A } else { 0x36 }, slot);
}

/// Nothing, then `r`, is `r`.
proof fn lemma_then_unit(r: Result<Lowered, ErrorModel>, scope: Scope)
    ensures
        chain_lowered(lowered(scope, code_only(Seq::empty())), r) == r,
{
    match r {
        Ok(x) => {
            let l = chain_lowered(lowered(scope, code_only(Seq::empty())), r)->Ok_0;
            assert(l.pool =~= x.pool);
            assert(l.code =~= x.code);
            assert(l.methods =~= x.methods);
        },
        Err(_) => {},
    }
}

} // verus!
