//! Lowering of conditionals, loops and function definitions.
use vstd::prelude::*;
use crate::ast::{Stmt, params_model, stmts_model};
use crate::codegen::statements::{method_descriptor_text, patch16};
use crate::codegen::{
    Compiler,
    MethodInfo,
    failure,
    lemma_expr_as_stmt,
    lemma_then_stmt,
    methods_model,
    stmt_step,
};
use crate::constant_pool::ConstantModel;
use crate::emit::{emit_op3, lemma_entries_error_two};
use crate::errors::KujavError;
use crate::lowering::{
    MethodModel,
    as_lowered,
    branch,
    code_len,
    constants,
    entries_of,
    jump_over,
    loop_body,
    lower_block,
    lower_expr,
    lower_function,
    lower_if,
    lower_while,
    method_of,
    needs_return,
    param_scope,
    param_slots,
    pool_len,
    scope_after,
    then_lowered,
    too_many_locals,
};
use crate::semantics::{bind_params, lemma_env_push, type_env};
use crate::symbols::{NameMap, as_map, lemma_as_map_push};
use crate::types::{KType, TypeModel};

verus! {

/// The state of the enclosing method while a function body is lowered.
pub(crate) struct Frame {
    pub code: Vec<u8>,
    pub variables: NameMap<u8>,
    pub variable_types: NameMap<KType>,
    pub next_slot: u16,
}

impl Compiler {
    /// Emits a jump over the statements `body` and `extra` bytes behind
    /// them, and then the statements themselves.
    fn lower_jump_over(&mut self, op: u8, extra: u16, body: &Vec<Stmt>) -> (r: Result<
        (),
        KujavError,
    >)
        requires
            old(self).wf(),
            extra <= 3,
        ensures
            final(self).wf(),
            stmt_step(
                *old(self),
                *final(self),
                failure(r),
                jump_over(
                    op,
                    extra as int,
                    lower_block(
                        old(self)@.class,
                        old(self)@.scope,
                        old(self)@.pool.len() as int,
                        stmts_model(body@),
                    ),
                ),
            ),
        decreases body@, 3nat,
    {
        let at = self.current_bytecode.len();
        emit_op3(&mut self.current_bytecode, op, 0);
        let ghost s1 = *self;
        self.lower_block(body.as_slice())?;
        let ghost b = lower_block(
            s1@.class,
            s1@.scope,
            s1@.pool.len() as int,
            stmts_model(body@),
        )->Ok_0;
        let length = self.current_bytecode.len() - at;
        if length > 32767 - extra as usize {
            return Err(KujavError::bytecode("branch offset out of range"));
        }
        let distance = (length + extra as usize) as u16;
        patch16(&mut self.current_bytecode, at + 1, distance);
        proof {
            assert(self.current_bytecode@ =~= old(self).current_bytecode@ + (branch(
                op,
                distance as int,
            ) + b.code));
        }
        Ok(())
    }

    /// Emits the part of a loop behind its condition, which took
    /// `cond_len` bytes.
    fn lower_loop_body(&mut self, cond_len: usize, body: &Vec<Stmt>) -> (r: Result<
        (),
        KujavError,
    >)
        requires
            old(self).wf(),
        ensures
            final(self).wf(),
            stmt_step(
                *old(self),
                *final(self),
                failure(r),
                loop_body(
                    cond_len as int,
                    lower_block(
                        old(self)@.class,
                        old(self)@.scope,
                        old(self)@.pool.len() as int,
                        stmts_model(body@),
                    ),
                ),
            ),
        decreases body@, 3nat,
    {
        let at = self.current_bytecode.len();
        emit_op3(&mut self.current_bytecode, 0x99, 0);
        let ghost s1 = *self;
        self.lower_block(body.as_slice())?;
        let ghost b = lower_block(
            s1@.class,
            s1@.scope,
            s1@.pool.len() as int,
            stmts_model(body@),
        )->Ok_0;
        let length = self.current_bytecode.len() - at;
        if cond_len > 32767 || length > 32767 - cond_len || length > 32764 {
            return Err(KujavError::bytecode("branch offset out of range"));
        }
        let back = (cond_len + length) as u16;
        emit_op3(&mut self.current_bytecode, 0xA7, (65535 - back) + 1);
        patch16(&mut self.current_bytecode, at + 1, (length + 3) as u16);
        proof {
            assert(self.current_bytecode@ =~= old(self).current_bytecode@ + (branch(
                0x99,
                6 + b.code.len() as int,
            ) + b.code + branch(0xA7, -(cond_len + 3 + b.code.len()))));
        }
        Ok(())
    }

    /// Lowers a conditional.
    pub(crate) fn lower_if(&mut self, stmt: &Stmt) -> (r: Result<(), KujavError>)
        requires
            old(self).wf(),
            stmt is If,
        ensures
            final(self).wf(),
            stmt_step(
                *old(self),
                *final(self),
                failure(r),
                lower_if(
                    old(self)@.class,
                    old(self)@.scope,
                    old(self)@.pool.len() as int,
                    stmt@,
                ),
            ),
        decreases stmt, 0nat,
    {
        match stmt {
            Stmt::If(cond, then_body, else_body) => {
                let ghost class = self@.class;
                let ghost scope = self@.scope;
                let ghost base = self@.pool.len() as int;
                let ghost s0 = *self;
                let ghost c = as_lowered(scope, lower_expr(class, scope, base, cond@));
                let ghost t = lower_block(
                    class,
                    scope,
                    base + entries_of(c),
                    stmts_model(then_body@),
                );
                let r0 = self.lower_expr(cond);
                proof {
                    lemma_expr_as_stmt(s0, *self, failure(r0), lower_expr(class, scope, base, cond@));
                }
                if let Err(e) = r0 {
                    return Err(e);
                }
                let ghost s1 = *self;
                match else_body {
                    None => {
                        let r = self.lower_jump_over(0x99, 0, then_body);
                        proof {
                            lemma_then_stmt(s0, s1, *self, c, failure(r), jump_over(0x99, 0, t));
                        }
                        r
                    },
                    Some(body) => {
                        let ghost el = lower_block(
                            class,
                            scope_after(t, scope),
                            base + entries_of(c) + entries_of(t),
                            stmts_model(body@),
                        );
                        let r1 = self.lower_jump_over(0x99, 3, then_body);
                        if let Err(e) = r1 {
                            proof {
                                lemma_then_stmt(
                                    s0,
                                    s1,
                                    *self,
                                    c,
                                    failure(r1),
                                    then_lowered(jump_over(0x99, 3, t), jump_over(0xA7, 0, el)),
                                );
                            }
                            return Err(e);
                        }
                        let ghost s2 = *self;
                        let r2 = self.lower_jump_over(0xA7, 0, body);
                        proof {
                            lemma_then_stmt(
                                s1,
                                s2,
                                *self,
                                jump_over(0x99, 3, t),
                                failure(r2),
                                jump_over(0xA7, 0, el),
                            );
                            lemma_then_stmt(
                                s0,
                                s1,
                                *self,
                                c,
                                failure(r2),
                                then_lowered(jump_over(0x99, 3, t), jump_over(0xA7, 0, el)),
                            );
                        }
                        r2
                    },
                }
            },
            _ => Ok(()),
        }
    }

    /// Lowers a loop.
    pub(crate) fn lower_while(&mut self, stmt: &Stmt) -> (r: Result<(), KujavError>)
        requires
            old(self).wf(),
            stmt is While,
        ensures
            final(self).wf(),
            stmt_step(
                *old(self),
                *final(self),
                failure(r),
                lower_while(
                    old(self)@.class,
                    old(self)@.scope,
                    old(self)@.pool.len() as int,
                    stmt@,
                ),
            ),
        decreases stmt, 0nat,
    {
        match stmt {
            Stmt::While(cond, body) => {
                let ghost class = self@.class;
                let ghost scope = self@.scope;
                let ghost base = self@.pool.len() as int;
                let ghost s0 = *self;
                let ghost c = lower_expr(class, scope, base, cond@);
                let start = self.current_bytecode.len();
                let r0 = self.lower_expr(cond);
                proof {
                    lemma_expr_as_stmt(s0, *self, failure(r0), c);
                }
                if let Err(e) = r0 {
                    return Err(e);
                }
                let ghost s1 = *self;
                let cond_len = self.current_bytecode.len() - start;
                let r = self.lower_loop_body(cond_len, body);
                proof {
                    lemma_then_stmt(
                        s0,
                        s1,
                        *self,
                        as_lowered(scope, c),
                        failure(r),
                        loop_body(
                            code_len(c),
                            lower_block(class, scope, base + pool_len(c), stmts_model(body@)),
                        ),
                    );
                }
                r
            },
            _ => Ok(()),
        }
    }

    /// Puts the enclosing method aside and starts a method with the given
    /// parameters.
    fn enter(&mut self, params: &Vec<(String, KType)>) -> (outer: Frame)
        requires
            old(self).wf(),
            params.len() <= 256,
        ensures
            final(self).wf(),
            final(self).class_name == old(self).class_name,
            final(self).cp == old(self).cp,
            final(self).methods == old(self).methods,
            final(self).functions == old(self).functions,
            final(self).current_bytecode@ == Seq::<u8>::empty(),
            final(self)@.scope == param_scope(params_model(params@), old(self)@.scope.functions),
            outer.code == old(self).current_bytecode,
            outer.variables == old(self).variables,
            outer.variable_types == old(self).variable_types,
            outer.next_slot == old(self).next_slot,
    {
        let mut outer = Frame {
            code: Vec::new(),
            variables: NameMap::new(),
            variable_types: NameMap::new(),
            next_slot: self.next_slot,
        };
        core::mem::swap(&mut self.current_bytecode, &mut outer.code);
        core::mem::swap(&mut self.variables, &mut outer.variables);
        core::mem::swap(&mut self.variable_types, &mut outer.variable_types);
        self.next_slot = 0;
        let ghost ps = params_model(params@);
        let mut i: usize = 0;
        assert(ps.take(0) =~= Seq::<(Seq<char>, TypeModel)>::empty());
        while i < params.len()
            invariant
                i <= params.len() <= 256,
                ps == params_model(params@),
                self.cp.wf(),
                self.class_name == old(self).class_name,
                self.cp == old(self).cp,
                self.methods == old(self).methods,
                self.functions == old(self).functions,
                self.current_bytecode@ == Seq::<u8>::empty(),
                self.next_slot == i,
                as_map(self.variables@) == param_slots(ps.take(i as int)),
                type_env(self.variable_types@) == bind_params(Map::empty(), ps.take(i as int)),
                outer.code == old(self).current_bytecode,
                outer.variables == old(self).variables,
                outer.variable_types == old(self).variable_types,
                outer.next_slot == old(self).next_slot,
            decreases params.len() - i,
        {
            let name = params[i].0.clone();
            let ty = params[i].1.clone();
            proof {
                lemma_as_map_push(self.variables@, name@, i as u8);
                lemma_env_push(self.variable_types@, name@, ty);
                assert(ps.take(i as int + 1).drop_last() =~= ps.take(i as int));
                assert(ps.take(i as int + 1).last() == ps[i as int]);
            }
            self.variables.insert(name.clone(), i as u8);
            self.variable_types.insert(name, ty);
            self.next_slot = self.next_slot + 1;
            i += 1;
        }
        assert(ps.take(params.len() as int) =~= ps);
        outer
    }

    /// Takes the finished method's code and puts the enclosing method
    /// back.
    fn leave(&mut self, outer: Frame) -> (code: Vec<u8>)
        requires
            old(self).cp.wf(),
            outer.next_slot <= 256,
        ensures
            final(self).wf(),
            final(self).class_name == old(self).class_name,
            final(self).cp == old(self).cp,
            final(self).methods == old(self).methods,
            final(self).functions == old(self).functions,
            final(self).current_bytecode == outer.code,
            final(self).variables == outer.variables,
            final(self).variable_types == outer.variable_types,
            final(self).next_slot == outer.next_slot,
            code == old(self).current_bytecode,
    {
        let mut outer = outer;
        core::mem::swap(&mut self.current_bytecode, &mut outer.code);
        core::mem::swap(&mut self.variables, &mut outer.variables);
        core::mem::swap(&mut self.variable_types, &mut outer.variable_types);
        self.next_slot = outer.next_slot;
        outer.code
    }

    /// Lowers a function body into a method of its own.
    fn lower_method(
        &mut self,
        name: &str,
        name_idx: u16,
        sig_idx: u16,
        params: &Vec<(String, KType)>,
        body: &Vec<Stmt>,
        ret: &KType,
    ) -> (r: Result<(), KujavError>)
        requires
            old(self).wf(),
            sig_idx == name_idx + 1,
        ensures
            final(self).wf(),
            stmt_step(
                *old(self),
                *final(self),
                failure(r),
                if params.len() > 256 {
                    Err(too_many_locals())
                } else {
                    method_of(
                        old(self)@.scope,
                        name_idx as int,
                        needs_return(ret@, stmts_model(body@)),
                        lower_block(
                            old(self)@.class,
                            param_scope(
                                params_model(params@),
                                old(self)@.scope.functions.insert(name@, ret@),
                            ),
                            old(self)@.pool.len() as int,
                            stmts_model(body@),
                        ),
                    )
                },
            ),
        decreases body@, 3nat,
    {
        if params.len() > 256 {
            return Err(KujavError::bytecode("too many local variables"));
        }
        let returned_type = ret.clone();
        proof {
            lemma_env_push(self.functions@, name@, returned_type);
        }
        self.functions.insert(String::from_str(name), returned_type);
        let outer = self.enter(params);
        let ghost inner = *self;
        let ghost spec = lower_block(
            inner@.class,
            inner@.scope,
            inner@.pool.len() as int,
            stmts_model(body@),
        );
        match self.lower_block(body.as_slice()) {
            Err(e) => {
                let _ = self.leave(outer);
                Err(e)
            },
            Ok(()) => {
                let returns_nothing = match ret {
                    KType::Void => true,
                    _ => false,
                };
                let returned = body.len() > 0 && match &body[body.len() - 1] {
                    Stmt::Return(_) => true,
                    _ => false,
                };
                assert(body.len() > 0 ==> stmts_model(body@).last() == body@[body.len() - 1]@);
                let closes = returns_nothing && !returned;
                if closes {
                    self.current_bytecode.push(0xB1);
                }
                let max_locals = self.next_slot;
                let code = self.leave(outer);
                let ghost before = methods_model(self.methods@);
                self.methods.push(
                    MethodInfo { name_idx, sig_idx, bytecode: code, max_locals },
                );
                proof {
                    let b = spec->Ok_0;
                    let m = MethodModel {
                        name_index: name_idx as int,
                        sig_index: name_idx + 1,
                        code: if closes {
                            b.code.push(0xB1u8)
                        } else {
                            b.code
                        },
                        max_locals: b.scope.next_slot,
                    };
                    assert(code@ =~= m.code);
                    assert(methods_model(self.methods@) =~= before.push(m));
                    assert(self@.methods =~= old(self)@.methods + b.methods.push(m));
                    assert(self@.code =~= old(self)@.code + Seq::<u8>::empty());
                }
                Ok(())
            },
        }
    }

    /// Lowers a function definition.
    pub(crate) fn lower_function(&mut self, stmt: &Stmt) -> (r: Result<(), KujavError>)
        requires
            old(self).wf(),
            stmt is Function,
        ensures
            final(self).wf(),
            stmt_step(
                *old(self),
                *final(self),
                failure(r),
                lower_function(
                    old(self)@.class,
                    old(self)@.scope,
                    old(self)@.pool.len() as int,
                    stmt@,
                ),
            ),
        decreases stmt, 0nat,
    {
        match stmt {
            Stmt::Function(name, params, body, ret) => {
                let ghost s0 = *self;
                let ghost base = self@.pool.len() as int;
                let ghost scope = self@.scope;
                let sig = method_descriptor_text(params, ret);
                let ghost named = seq![ConstantModel::Utf8(name@), ConstantModel::Utf8(sig@)];
                let r0 = self.name_method(name.as_str(), sig.as_str());
                proof {
                    lemma_expr_as_stmt(
                        s0,
                        *self,
                        failure(r0),
                        constants(base, named, Seq::empty()),
                    );
                }
                let name_idx = match r0 {
                    Ok(index) => index,
                    Err(e) => {
                        return Err(e);
                    },
                };
                let ghost s1 = *self;
                let r = self.lower_method(
                    name.as_str(),
                    name_idx,
                    name_idx + 1,
                    params,
                    body,
                    ret,
                );
                proof {
                    lemma_then_stmt(
                        s0,
                        s1,
                        *self,
                        as_lowered(scope, constants(base, named, Seq::empty())),
                        failure(r),
                        if params.len() > 256 {
                            Err(too_many_locals())
                        } else {
                            method_of(
                                scope,
                                base + 1,
                                needs_return(ret@, stmts_model(body@)),
                                lower_block(
                                    s0@.class,
                                    param_scope(
                                        params_model(params@),
                                        scope.functions.insert(name@, ret@),
                                    ),
                                    base + 2,
                                    stmts_model(body@),
                                ),
                            )
                        },
                    );
                }
                r
            },
            _ => Ok(()),
        }
    }

    /// Adds the name and the descriptor of a method to the pool, and gives
    /// back the position of the name; the descriptor follows it.
    fn name_method(&mut self, name: &str, sig: &str) -> (r: Result<u16, KujavError>)
        requires
            old(self).wf(),
        ensures
            final(self).wf(),
            r matches Ok(index) ==> index == old(self)@.pool.len() + 1 && index < 65535,
            crate::codegen::expr_step(
                *old(self),
                *final(self),
                failure(r),
                constants(
                    old(self)@.pool.len() as int,
                    seq![ConstantModel::Utf8(name@), ConstantModel::Utf8(sig@)],
                    Seq::empty(),
                ),
            ),
    {
        proof {
            lemma_entries_error_two(
                self.cp@.len() as int,
                ConstantModel::Utf8(name@),
                ConstantModel::Utf8(sig@),
            );
        }
        let name_idx = self.cp.add_utf8(name)?;
        let _ = self.cp.add_utf8(sig)?;
        proof {
            assert(self.cp@ =~= old(self).cp@ + seq![
                ConstantModel::Utf8(name@),
                ConstantModel::Utf8(sig@),
            ]);
            assert(self.current_bytecode@ =~= old(self).current_bytecode@ + Seq::<u8>::empty());
        }
        Ok(name_idx)
    }
}

} // verus!
