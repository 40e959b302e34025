//! Lowering of expressions.
use vstd::prelude::*;
use vstd::string::*;
use crate::ast::{Expr, ExprModel, exprs_model};
use crate::codegen::{
    Compiler,
    emitted_onto,
    expr_step,
    failure,
    lemma_code_step,
    lemma_constants_step,
    lemma_then,
};
use crate::constant_pool::ConstantModel;
use crate::emit::{
    add_class_named,
    add_member,
    add_qualified,
    emit1,
    emit2,
    emit_op3,
    emit_push_small,
    lemma_entries_error_concat,
    lemma_entries_error_one,
    lemma_entries_error_two,
};
use crate::errors::{ErrorModel, KujavError};
use crate::lowering::{
    Emitted,
    append_call,
    append_operand,
    appended_both,
    arg_descriptors,
    builder_start,
    class_entries,
    code_only,
    comparison,
    constants,
    finish_builder,
    is_text,
    lower_args,
    lower_arith,
    lower_concat,
    lower_elements,
    lower_expr,
    lower_input,
    member_entries,
    op3,
    operator,
    passed_as,
    pool_len,
    push_int,
    push_small,
    qualified_entries,
    renamed_entries,
    static_type,
    stored_element,
    then,
};
use crate::semantics::lemma_lookup_env;
use crate::symbols::lemma_lookup_as_map;
use crate::text::{joined, str_eq};
use crate::types::{KType, TypeModel};

verus! {


/// The descriptor under which a value of type `t` is passed to the runtime.
pub(crate) fn passed_as_text(t: &KType) -> (d: &'static str)
    ensures
        d@ == passed_as(t@),
{
    match t {
        KType::String => "Ljava/lang/String;",
        KType::Array(_) | KType::Custom(_) => "Ljava/lang/Object;",
        _ => "I",
    }
}

/// The position that `name` holds, as a mathematical value.
pub open spec fn position_of(name: Option<u16>) -> Option<int> {
    match name {
        Some(position) => Some(position as int),
        None => None,
    }
}

impl Compiler {
    /// Whether the generator takes `expr` to be a `String`.
    pub fn is_string_expr(&self, expr: &Expr) -> (r: bool)
        ensures
            r == is_text(self@.scope, expr@),
        decreases expr,
    {
        match expr {
            Expr::String(_) => true,
            Expr::Identifier(name) => {
                proof {
                    lemma_lookup_env(self.variable_types@, name@);
                }
                match self.variable_types.get(name.as_str()) {
                    Some(KType::String) => true,
                    _ => false,
                }
            },
            Expr::Binary(l, op, r) => str_eq(op.as_str(), "+") && (self.is_string_expr(l)
                || self.is_string_expr(r)),
            _ => false,
        }
    }

    /// The type that the generator takes the value of `expr` to have.
    pub fn static_type(&self, expr: &Expr) -> (t: KType)
        ensures
            t@ == static_type(self@.scope, expr@),
    {
        match expr {
            Expr::Identifier(name) => {
                proof {
                    lemma_lookup_env(self.variable_types@, name@);
                }
                match self.variable_types.get(name.as_str()) {
                    Some(t) => t.clone(),
                    None => KType::Int,
                }
            },
            Expr::ArrayLiteral(_) => {
                assert(KType::Int@ == TypeModel::Int);
                KType::Array(Box::new(KType::Int))
            },
            _ => if self.is_string_expr(expr) {
                KType::String
            } else {
                KType::Int
            },
        }
    }

    /// The descriptor of a call with the arguments `args` that returns what
    /// `ret` describes.
    pub(crate) fn call_descriptor(&self, args: &Vec<Expr>, ret: &str) -> (d: String)
        ensures
            d@ == "("@ + arg_descriptors(self@.scope, exprs_model(args@)) + ret@,
    {
        let ghost models = exprs_model(args@);
        let mut d = String::from_str("(");
        let mut i: usize = 0;
        assert(models.take(0) =~= Seq::<ExprModel>::empty());
        while i < args.len()
            invariant
                i <= args.len(),
                models == exprs_model(args@),
                d@ == "("@ + arg_descriptors(self@.scope, models.take(i as int)),
            decreases args.len() - i,
        {
            let sig = self.static_type(&args[i]).to_jvm_sig();
            proof {
                assert(models.take(i as int + 1).drop_last() =~= models.take(i as int));
                assert(models.take(i as int + 1).last() == args@[i as int]@);
            }
            d.append(sig.as_str());
            assert(d@ =~= "("@ + arg_descriptors(self@.scope, models.take(i as int + 1)));
            i += 1;
        }
        assert(models.take(args.len() as int) =~= models);
        d.append(ret);
        d
    }

    /// Lowers an expression into the method that is being emitted: its
    /// instructions go to the end of the code and the entries they refer to
    /// to the end of the pool. Where the expression cannot be lowered, the
    /// error says why and the state is left as it was.
    pub fn compile_expression(&mut self, expr: Expr) -> (r: Result<(), KujavError>)
        requires
            old(self).wf(),
        ensures
            final(self).wf(),
            match r {
                Ok(()) => (lower_expr(
                    old(self)@.class,
                    old(self)@.scope,
                    old(self)@.pool.len() as int,
                    expr@,
                ) matches Ok(e) && final(self)@ == emitted_onto(old(self)@, e)),
                Err(err) => lower_expr(
                    old(self)@.class,
                    old(self)@.scope,
                    old(self)@.pool.len() as int,
                    expr@,
                ) == Err::<Emitted, ErrorModel>(err@) && final(self)@ == old(self)@,
            },
    {
        let pool_mark = self.cp.len();
        let code_mark = self.current_bytecode.len();
        match self.lower_expr(&expr) {
            Ok(()) => Ok(()),
            Err(e) => {
                self.cp.truncate(pool_mark);
                self.current_bytecode.truncate(code_mark);
                assert(self.cp@ =~= old(self).cp@);
                assert(self.current_bytecode@ =~= old(self).current_bytecode@);
                Err(e)
            },
        }
    }

    pub(crate) fn lower_expr(&mut self, expr: &Expr) -> (r: Result<(), KujavError>)
        requires
            old(self).wf(),
        ensures
            final(self).wf(),
            expr_step(
                *old(self),
                *final(self),
                failure(r),
                lower_expr(
                    old(self)@.class,
                    old(self)@.scope,
                    old(self)@.pool.len() as int,
                    expr@,
                ),
            ),
        decreases expr, 3nat,
    {
        match expr {
            Expr::Number(v) => self.lower_number(*v),
            Expr::Boolean(b) => {
                self.emit_bytes1(if *b { 0x04 } else { 0x03 });
                Ok(())
            },
            Expr::String(s) => self.lower_text(s.as_str()),
            Expr::Identifier(name) => self.lower_identifier(name.as_str()),
            Expr::Binary(l, op, r) => {
                if str_eq(op.as_str(), "+") && (self.is_string_expr(l) || self.is_string_expr(r)) {
                    self.lower_concat(expr)
                } else {
                    self.lower_arith(expr)
                }
            },
            Expr::Call(_, _) => self.lower_call(expr),
            Expr::Input => self.lower_input(),
            Expr::ArrayLiteral(_) => self.lower_array(expr),
            Expr::ArrayAccess(_, _) => self.lower_access(expr),
        }
    }

    /// Emits one byte.
    pub(crate) fn emit_bytes1(&mut self, a: u8)
        requires
            old(self).wf(),
        ensures
            final(self).wf(),
            expr_step(*old(self), *final(self), None, Ok(code_only(seq![a]))),
    {
        emit1(&mut self.current_bytecode, a);
        proof {
            lemma_code_step(*old(self), *self, seq![a]);
        }
    }

    /// Emits two bytes.
    pub(crate) fn emit_bytes2(&mut self, a: u8, b: u8)
        requires
            old(self).wf(),
        ensures
            final(self).wf(),
            expr_step(*old(self), *final(self), None, Ok(code_only(seq![a, b]))),
    {
        emit2(&mut self.current_bytecode, a, b);
        proof {
            lemma_code_step(*old(self), *self, seq![a, b]);
        }
    }

    /// Adds the entries that name a member of the class at `class_index`,
    /// and emits `op` with the member's position.
    pub(crate) fn emit_member(&mut self, op: u8, class_index: u16, name: &str, desc: &str) -> (r:
        Result<(), KujavError>)
        requires
            old(self).wf(),
        ensures
            final(self).wf(),
            expr_step(
                *old(self),
                *final(self),
                failure(r),
                constants(
                    old(self)@.pool.len() as int,
                    member_entries(
                        old(self)@.pool.len() as int,
                        true,
                        class_index as int,
                        name@,
                        desc@,
                    ),
                    op3(op, old(self)@.pool.len() as int + 4),
                ),
            ),
    {
        let index = add_member(&mut self.cp, true, class_index, name, desc)?;
        emit_op3(&mut self.current_bytecode, op, index);
        proof {
            lemma_constants_step(
                *old(self),
                *self,
                member_entries(
                    old(self)@.pool.len() as int,
                    true,
                    class_index as int,
                    name@,
                    desc@,
                ),
                op3(op, old(self)@.pool.len() as int + 4),
            );
        }
        Ok(())
    }

    /// Adds the entries that name a class and a member of it, and emits
    /// `op` with the member's position.
    pub(crate) fn emit_qualified(
        &mut self,
        op: u8,
        method: bool,
        class: &str,
        name: &str,
        desc: &str,
    ) -> (r: Result<(), KujavError>)
        requires
            old(self).wf(),
        ensures
            final(self).wf(),
            expr_step(
                *old(self),
                *final(self),
                failure(r),
                constants(
                    old(self)@.pool.len() as int,
                    qualified_entries(old(self)@.pool.len() as int, method, class@, name@, desc@),
                    op3(op, old(self)@.pool.len() as int + 6),
                ),
            ),
    {
        let index = add_qualified(&mut self.cp, method, class, name, desc)?;
        emit_op3(&mut self.current_bytecode, op, index);
        proof {
            lemma_constants_step(
                *old(self),
                *self,
                qualified_entries(old(self)@.pool.len() as int, method, class@, name@, desc@),
                op3(op, old(self)@.pool.len() as int + 6),
            );
        }
        Ok(())
    }

    /// Adds the entries that name a method of the class at `class_index`
    /// whose name the pool holds at `name_index`, and emits `op` with the
    /// method's position.
    pub(crate) fn emit_renamed(&mut self, op: u8, class_index: u16, name_index: u16, desc: &str) -> (r:
        Result<(), KujavError>)
        requires
            old(self).wf(),
        ensures
            final(self).wf(),
            expr_step(
                *old(self),
                *final(self),
                failure(r),
                constants(
                    old(self)@.pool.len() as int,
                    renamed_entries(
                        old(self)@.pool.len() as int,
                        class_index as int,
                        name_index as int,
                        desc@,
                    ),
                    op3(op, old(self)@.pool.len() as int + 3),
                ),
            ),
    {
        let ghost base = self.cp@.len() as int;
        let ghost entries = renamed_entries(base, class_index as int, name_index as int, desc@);
        proof {
            lemma_entries_error_concat(base, seq![entries[0]], seq![entries[1], entries[2]]);
            lemma_entries_error_one(base, entries[0]);
            lemma_entries_error_two(base + 1, entries[1], entries[2]);
            assert(entries =~= seq![entries[0]] + seq![entries[1], entries[2]]);
        }
        let desc_index = self.cp.add_utf8(desc)?;
        let pair = self.cp.add_name_and_type(name_index, desc_index)?;
        let index = self.cp.add_method_ref(class_index, pair)?;
        emit_op3(&mut self.current_bytecode, op, index);
        proof {
            assert(self.cp@ =~= old(self).cp@ + entries);
            lemma_constants_step(*old(self), *self, entries, op3(op, base + 3));
        }
        Ok(())
    }

    /// Adds the entries that name a class, and emits the instructions that
    /// make an object of it and keep a second reference to it.
    fn emit_new(&mut self, class: &str) -> (r: Result<u16, KujavError>)
        requires
            old(self).wf(),
        ensures
            final(self).wf(),
            r matches Ok(index) ==> index == old(self)@.pool.len() as int + 2,
            expr_step(
                *old(self),
                *final(self),
                failure(r),
                constants(
                    old(self)@.pool.len() as int,
                    class_entries(old(self)@.pool.len() as int, class@),
                    op3(0xBB, old(self)@.pool.len() as int + 2) + seq![0x59u8],
                ),
            ),
    {
        let index = add_class_named(&mut self.cp, class)?;
        emit_op3(&mut self.current_bytecode, 0xBB, index);
        emit1(&mut self.current_bytecode, 0x59);
        proof {
            assert(self.current_bytecode@ =~= old(self).current_bytecode@ + (op3(
                0xBB,
                old(self)@.pool.len() as int + 2,
            ) + seq![0x59u8]));
            lemma_constants_step(
                *old(self),
                *self,
                class_entries(old(self)@.pool.len() as int, class@),
                op3(0xBB, old(self)@.pool.len() as int + 2) + seq![0x59u8],
            );
        }
        Ok(index)
    }

    /// Pushes an integer.
    fn lower_number(&mut self, v: i32) -> (r: Result<(), KujavError>)
        requires
            old(self).wf(),
        ensures
            final(self).wf(),
            expr_step(
                *old(self),
                *final(self),
                failure(r),
                push_int(old(self)@.pool.len() as int, v as int),
            ),
    {
        if -32768 <= v && v <= 32767 {
            emit_push_small(&mut self.current_bytecode, v as i16);
            proof {
                lemma_code_step(*old(self), *self, push_small(v as int));
            }
            Ok(())
        } else {
            proof {
                lemma_entries_error_one(self.cp@.len() as int, ConstantModel::Integer(v as int));
            }
            let index = self.cp.add_integer(v)?;
            emit_op3(&mut self.current_bytecode, 0x13, index);
            assert(self.cp@ =~= old(self).cp@ + seq![ConstantModel::Integer(v as int)]);
            Ok(())
        }
    }

    /// Pushes a text constant.
    fn lower_text(&mut self, s: &str) -> (r: Result<(), KujavError>)
        requires
            old(self).wf(),
        ensures
            final(self).wf(),
            expr_step(
                *old(self),
                *final(self),
                failure(r),
                lower_expr(
                    old(self)@.class,
                    old(self)@.scope,
                    old(self)@.pool.len() as int,
                    ExprModel::Text(s@),
                ),
            ),
    {
        let ghost base = self.cp@.len() as int;
        proof {
            lemma_entries_error_two(base, ConstantModel::Utf8(s@), ConstantModel::Text(base + 1));
        }
        let text = self.cp.add_utf8(s)?;
        let index = self.cp.add_string(text)?;
        if index > 255 {
            return Err(KujavError::bytecode("constant index does not fit in one byte"));
        }
        emit2(&mut self.current_bytecode, 0x12, index as u8);
        assert(self.cp@ =~= old(self).cp@ + seq![
            ConstantModel::Utf8(s@),
            ConstantModel::Text(base + 1),
        ]);
        Ok(())
    }

    /// Loads a variable.
    fn lower_identifier(&mut self, name: &str) -> (r: Result<(), KujavError>)
        requires
            old(self).wf(),
        ensures
            final(self).wf(),
            expr_step(
                *old(self),
                *final(self),
                failure(r),
                lower_expr(
                    old(self)@.class,
                    old(self)@.scope,
                    old(self)@.pool.len() as int,
                    ExprModel::Identifier(name@),
                ),
            ),
    {
        proof {
            lemma_lookup_as_map(self.variables@, name@);
            lemma_lookup_env(self.variable_types@, name@);
        }
        let slot = match self.variables.get(name) {
            Some(slot) => *slot,
            None => {
                return Err(KujavError::Semantic(joined("undefined variable '", name, "'")));
            },
        };
        let primitive = match self.variable_types.get(name) {
            Some(t) => !t.is_reference(),
            None => false,
        };
        self.emit_bytes2(if primitive { 0x15 } else { 0x19 }, slot);
        Ok(())
    }

    /// Reads a number from the input.
    fn lower_input(&mut self) -> (r: Result<(), KujavError>)
        requires
            old(self).wf(),
        ensures
            final(self).wf(),
            expr_step(
                *old(self),
                *final(self),
                failure(r),
                lower_input(old(self)@.pool.len() as int),
            ),
    {
        let ghost base = self.cp@.len() as int;
        let ghost s0 = *self;
        let scanner = self.emit_new("java/util/Scanner")?;
        let ghost s1 = *self;
        self.emit_qualified(0xB2, false, "java/lang/System", "in", "Ljava/io/InputStream;")?;
        let ghost s2 = *self;
        self.emit_member(0xB7, scanner, "<init>", "(Ljava/io/InputStream;)V")?;
        let ghost s3 = *self;
        let r = self.emit_member(0xB6, scanner, "nextInt", "()I");
        proof {
            let first = constants(
                base,
                class_entries(base, "java/util/Scanner"@),
                op3(0xBB, base + 2) + seq![0x59u8],
            );
            let stdin = constants(
                base + 2,
                qualified_entries(
                    base + 2,
                    false,
                    "java/lang/System"@,
                    "in"@,
                    "Ljava/io/InputStream;"@,
                ),
                op3(0xB2, base + 8),
            );
            let init = constants(
                base + 8,
                member_entries(base + 8, true, base + 2, "<init>"@, "(Ljava/io/InputStream;)V"@),
                op3(0xB7, base + 12),
            );
            let next = constants(
                base + 12,
                member_entries(base + 12, true, base + 2, "nextInt"@, "()I"@),
                op3(0xB6, base + 16),
            );
            lemma_then(s2, s3, *self, init, failure(r), next);
            lemma_then(s1, s2, *self, stdin, failure(r), then(init, next));
            lemma_then(s0, s1, *self, first, failure(r), then(stdin, then(init, next)));
        }
        r
    }

    /// Pushes the arguments of a call from left to right.
    pub(crate) fn lower_args(&mut self, args: &Vec<Expr>) -> (r: Result<(), KujavError>)
        requires
            old(self).wf(),
        ensures
            final(self).wf(),
            expr_step(
                *old(self),
                *final(self),
                failure(r),
                lower_args(
                    old(self)@.class,
                    old(self)@.scope,
                    old(self)@.pool.len() as int,
                    exprs_model(args@),
                ),
            ),
        decreases args@, 2nat,
    {
        assert(exprs_model(args@).skip(0) =~= exprs_model(args@));
        self.lower_args_from(args, 0)
    }

    /// Pushes the arguments from the one at `from` on.
    fn lower_args_from(&mut self, args: &Vec<Expr>, from: usize) -> (r: Result<(), KujavError>)
        requires
            old(self).wf(),
            from <= args.len(),
        ensures
            final(self).wf(),
            expr_step(
                *old(self),
                *final(self),
                failure(r),
                lower_args(
                    old(self)@.class,
                    old(self)@.scope,
                    old(self)@.pool.len() as int,
                    exprs_model(args@).skip(from as int),
                ),
            ),
        decreases args@, 1nat, args.len() - from,
    {
        let ghost rest = exprs_model(args@).skip(from as int);
        if from == args.len() {
            proof {
                lemma_code_step(*old(self), *self, Seq::empty());
            }
            return Ok(());
        }
        assert(rest.drop_first() =~= exprs_model(args@).skip(from as int + 1));
        assert(rest[0] == args@[from as int]@);
        let ghost s0 = *self;
        let ghost first = lower_expr(self@.class, self@.scope, self@.pool.len() as int, rest[0]);
        self.lower_expr(&args[from])?;
        let ghost s1 = *self;
        let r = self.lower_args_from(args, from + 1);
        proof {
            lemma_then(
                s0,
                s1,
                *self,
                first,
                failure(r),
                lower_args(
                    s0@.class,
                    s0@.scope,
                    s0@.pool.len() + pool_len(first),
                    rest.drop_first(),
                ),
            );
        }
        r
    }

    /// Calls a function of the program.
    fn lower_call(&mut self, expr: &Expr) -> (r: Result<(), KujavError>)
        requires
            old(self).wf(),
            expr is Call,
        ensures
            final(self).wf(),
            expr_step(
                *old(self),
                *final(self),
                failure(r),
                lower_expr(
                    old(self)@.class,
                    old(self)@.scope,
                    old(self)@.pool.len() as int,
                    expr@,
                ),
            ),
        decreases expr, 2nat,
    {
        match expr {
            Expr::Call(name, args) => {
                let ghost s0 = *self;
                let ghost pushed = lower_args(
                    self@.class,
                    self@.scope,
                    self@.pool.len() as int,
                    exprs_model(args@),
                );
                self.lower_args(args)?;
                let ghost s1 = *self;
                let desc = self.call_descriptor(args, ")I");
                let class = self.class_name.clone();
                let r = self.emit_qualified(
                    0xB8,
                    true,
                    class.as_str(),
                    name.as_str(),
                    desc.as_str(),
                );
                proof {
                    lemma_then(
                        s0,
                        s1,
                        *self,
                        pushed,
                        failure(r),
                        constants(
                            s1@.pool.len() as int,
                            qualified_entries(
                                s1@.pool.len() as int,
                                true,
                                class@,
                                name@,
                                desc@,
                            ),
                            op3(0xB8, s1@.pool.len() as int + 6),
                        ),
                    );
                }
                r
            },
            _ => Ok(()),
        }
    }

    /// Stores one element into the array on the stack.
    fn store_element(&mut self, elem: &Expr, index: i16) -> (r: Result<(), KujavError>)
        requires
            old(self).wf(),
        ensures
            final(self).wf(),
            expr_step(
                *old(self),
                *final(self),
                failure(r),
                stored_element(
                    old(self)@.class,
                    old(self)@.scope,
                    old(self)@.pool.len() as int,
                    elem@,
                    index as int,
                ),
            ),
        decreases elem, 4nat,
    {
        let ghost s0 = *self;
        emit1(&mut self.current_bytecode, 0x59);
        emit_push_small(&mut self.current_bytecode, index);
        proof {
            assert(self.current_bytecode@ =~= s0.current_bytecode@ + (seq![0x59u8] + push_small(
                index as int,
            )));
            lemma_code_step(s0, *self, seq![0x59u8] + push_small(index as int));
        }
        let ghost s1 = *self;
        let ghost value = lower_expr(self@.class, self@.scope, self@.pool.len() as int, elem@);
        self.lower_expr(elem)?;
        let ghost s2 = *self;
        self.emit_bytes1(0x4F);
        proof {
            lemma_then(s1, s2, *self, value, None, Ok(code_only(seq![0x4Fu8])));
            lemma_then(
                s0,
                s1,
                *self,
                Ok(code_only(seq![0x59u8] + push_small(index as int))),
                None,
                then(value, Ok(code_only(seq![0x4Fu8]))),
            );
        }
        Ok(())
    }

    /// Stores the elements from the one at `from` on.
    fn store_elements_from(&mut self, elems: &Vec<Expr>, from: usize) -> (r: Result<
        (),
        KujavError,
    >)
        requires
            old(self).wf(),
            from <= elems.len() <= 32767,
        ensures
            final(self).wf(),
            expr_step(
                *old(self),
                *final(self),
                failure(r),
                lower_elements(
                    old(self)@.class,
                    old(self)@.scope,
                    old(self)@.pool.len() as int,
                    exprs_model(elems@).skip(from as int),
                    from as int,
                ),
            ),
        decreases elems@, 1nat, elems.len() - from,
    {
        let ghost rest = exprs_model(elems@).skip(from as int);
        if from == elems.len() {
            proof {
                lemma_code_step(*old(self), *self, Seq::empty());
            }
            return Ok(());
        }
        assert(rest.drop_first() =~= exprs_model(elems@).skip(from as int + 1));
        assert(rest[0] == elems@[from as int]@);
        let ghost s0 = *self;
        let ghost first = stored_element(
            self@.class,
            self@.scope,
            self@.pool.len() as int,
            rest[0],
            from as int,
        );
        self.store_element(&elems[from], from as i16)?;
        let ghost s1 = *self;
        let r = self.store_elements_from(elems, from + 1);
        proof {
            lemma_then(
                s0,
                s1,
                *self,
                first,
                failure(r),
                lower_elements(
                    s0@.class,
                    s0@.scope,
                    s0@.pool.len() + pool_len(first),
                    rest.drop_first(),
                    from as int + 1,
                ),
            );
        }
        r
    }

    /// Makes an array and fills it.
    fn lower_array(&mut self, expr: &Expr) -> (r: Result<(), KujavError>)
        requires
            old(self).wf(),
            expr is ArrayLiteral,
        ensures
            final(self).wf(),
            expr_step(
                *old(self),
                *final(self),
                failure(r),
                lower_expr(
                    old(self)@.class,
                    old(self)@.scope,
                    old(self)@.pool.len() as int,
                    expr@,
                ),
            ),
        decreases expr, 2nat,
    {
        match expr {
            Expr::ArrayLiteral(elems) => {
                if elems.len() > 32767 {
                    return Err(KujavError::bytecode("array literal is too long"));
                }
                let ghost s0 = *self;
                let ghost head = push_small(elems.len() as int) + seq![0xBCu8, 10u8];
                emit_push_small(&mut self.current_bytecode, elems.len() as i16);
                emit2(&mut self.current_bytecode, 0xBC, 10);
                proof {
                    assert(self.current_bytecode@ =~= s0.current_bytecode@ + head);
                    lemma_code_step(s0, *self, head);
                    assert(exprs_model(elems@).skip(0) =~= exprs_model(elems@));
                }
                let ghost s1 = *self;
                let r = self.store_elements_from(elems, 0);
                proof {
                    lemma_then(
                        s0,
                        s1,
                        *self,
                        Ok(code_only(head)),
                        failure(r),
                        lower_elements(
                            s0@.class,
                            s0@.scope,
                            s0@.pool.len() as int,
                            exprs_model(elems@),
                            0,
                        ),
                    );
                }
                r
            },
            _ => Ok(()),
        }
    }

    /// Loads an element of an array.
    fn lower_access(&mut self, expr: &Expr) -> (r: Result<(), KujavError>)
        requires
            old(self).wf(),
            expr is ArrayAccess,
        ensures
            final(self).wf(),
            expr_step(
                *old(self),
                *final(self),
                failure(r),
                lower_expr(
                    old(self)@.class,
                    old(self)@.scope,
                    old(self)@.pool.len() as int,
                    expr@,
                ),
            ),
        decreases expr, 2nat,
    {
        match expr {
            Expr::ArrayAccess(name, index) => {
                proof {
                    lemma_lookup_as_map(self.variables@, name@);
                }
                let slot = match self.variables.get(name.as_str()) {
                    Some(slot) => *slot,
                    None => {
                        return Err(
                            KujavError::Semantic(
                                joined("undefined variable '", name.as_str(), "'"),
                            ),
                        );
                    },
                };
                let ghost s0 = *self;
                self.emit_bytes2(0x19, slot);
                let ghost s1 = *self;
                let ghost value = lower_expr(
                    self@.class,
                    self@.scope,
                    self@.pool.len() as int,
                    index@,
                );
                self.lower_expr(index)?;
                let ghost s2 = *self;
                self.emit_bytes1(0x2E);
                proof {
                    lemma_then(s1, s2, *self, value, None, Ok(code_only(seq![0x2Eu8])));
                    lemma_then(
                        s0,
                        s1,
                        *self,
                        Ok(code_only(seq![0x19u8, slot])),
                        None,
                        then(value, Ok(code_only(seq![0x2Eu8]))),
                    );
                }
                Ok(())
            },
            _ => Ok(()),
        }
    }

    /// Emits the instructions of an operator.
    fn emit_operator(&mut self, op: &str) -> (r: Result<(), KujavError>)
        requires
            old(self).wf(),
        ensures
            final(self).wf(),
            expr_step(*old(self), *final(self), failure(r), operator(op@)),
    {
        let ghost s0 = *self;
        if str_eq(op, "+") {
            emit1(&mut self.current_bytecode, 0x60);
        } else if str_eq(op, "-") {
            emit1(&mut self.current_bytecode, 0x64);
        } else if str_eq(op, "*") {
            emit1(&mut self.current_bytecode, 0x68);
        } else if str_eq(op, "/") {
            emit1(&mut self.current_bytecode, 0x6C);
        } else if str_eq(op, "and") {
            emit1(&mut self.current_bytecode, 0x7E);
        } else if str_eq(op, "or") {
            emit1(&mut self.current_bytecode, 0x80);
        } else if str_eq(op, "==") {
            emit_comparison(&mut self.current_bytecode, 0xA0);
        } else if str_eq(op, "<") {
            emit_comparison(&mut self.current_bytecode, 0xA2);
        } else if str_eq(op, ">") {
            emit_comparison(&mut self.current_bytecode, 0xA4);
        } else {
            proof {
                lemma_code_step(s0, *self, Seq::empty());
            }
            return Err(KujavError::Bytecode(joined("unknown operator '", op, "'")));
        }
        proof {
            lemma_code_step(s0, *self, crate::lowering::operator_code(op@)->0);
        }
        Ok(())
    }

    /// Two operands, then the instructions of the operator.
    fn lower_arith(&mut self, expr: &Expr) -> (r: Result<(), KujavError>)
        requires
            old(self).wf(),
            expr is Binary,
        ensures
            final(self).wf(),
            expr_step(
                *old(self),
                *final(self),
                failure(r),
                lower_arith(
                    old(self)@.class,
                    old(self)@.scope,
                    old(self)@.pool.len() as int,
                    expr@,
                ),
            ),
        decreases expr, 2nat,
    {
        match expr {
            Expr::Binary(l, op, r) => {
                let ghost s0 = *self;
                let ghost a = lower_expr(self@.class, self@.scope, self@.pool.len() as int, l@);
                self.lower_expr(l)?;
                let ghost s1 = *self;
                let ghost b = lower_expr(self@.class, self@.scope, self@.pool.len() as int, r@);
                self.lower_expr(r)?;
                let ghost s2 = *self;
                let done = self.emit_operator(op.as_str());
                proof {
                    lemma_then(s1, s2, *self, b, failure(done), operator(op@));
                    lemma_then(s0, s1, *self, a, failure(done), then(b, operator(op@)));
                }
                done
            },
            _ => Ok(()),
        }
    }

    /// Lowers an operand of a concatenation and appends it to the string
    /// builder whose class is at `builder`; `name` is where the pool holds
    /// the name `append`, if it holds it yet.
    fn append_operand(&mut self, builder: u16, name: Option<u16>, operand: &Expr) -> (r: Result<
        (),
        KujavError,
    >)
        requires
            old(self).wf(),
        ensures
            final(self).wf(),
            expr_step(
                *old(self),
                *final(self),
                failure(r),
                append_operand(
                    old(self)@.class,
                    old(self)@.scope,
                    old(self)@.pool.len() as int,
                    builder as int,
                    position_of(name),
                    operand@,
                ),
            ),
        decreases operand, 4nat,
    {
        let ghost s0 = *self;
        let ghost value = lower_expr(self@.class, self@.scope, self@.pool.len() as int, operand@);
        let t = self.static_type(operand);
        self.lower_expr(operand)?;
        let ghost s1 = *self;
        let desc = joined("(", passed_as_text(&t), ")Ljava/lang/StringBuilder;");
        let r = match name {
            None => self.emit_member(0xB6, builder, "append", desc.as_str()),
            Some(position) => self.emit_renamed(0xB6, builder, position, desc.as_str()),
        };
        proof {
            lemma_then(
                s0,
                s1,
                *self,
                value,
                failure(r),
                append_call(s1@.pool.len() as int, builder as int, position_of(name), t@),
            );
        }
        r
    }

    /// Makes a string builder and calls its constructor.
    fn start_builder(&mut self) -> (r: Result<u16, KujavError>)
        requires
            old(self).wf(),
        ensures
            final(self).wf(),
            r matches Ok(index) ==> index == old(self)@.pool.len() as int + 2,
            expr_step(
                *old(self),
                *final(self),
                failure(r),
                builder_start(old(self)@.pool.len() as int),
            ),
    {
        let ghost base = self.cp@.len() as int;
        let ghost s0 = *self;
        let builder = self.emit_new("java/lang/StringBuilder")?;
        let ghost s1 = *self;
        let r = self.emit_member(0xB7, builder, "<init>", "()V");
        proof {
            lemma_then(
                s0,
                s1,
                *self,
                constants(
                    base,
                    class_entries(base, "java/lang/StringBuilder"@),
                    op3(0xBB, base + 2) + seq![0x59u8],
                ),
                failure(r),
                constants(
                    base + 2,
                    member_entries(base + 2, true, base + 2, "<init>"@, "()V"@),
                    op3(0xB7, base + 6),
                ),
            );
        }
        match r {
            Ok(()) => Ok(builder),
            Err(e) => Err(e),
        }
    }

    /// Appends both operands of a concatenation to the string builder whose
    /// class is at `builder`, and turns it into a string.
    fn append_both(&mut self, builder: u16, expr: &Expr) -> (r: Result<(), KujavError>)
        requires
            old(self).wf(),
            expr is Binary,
        ensures
            final(self).wf(),
            expr_step(
                *old(self),
                *final(self),
                failure(r),
                appended_both(
                    old(self)@.pool.len() as int,
                    builder as int,
                    append_operand(
                        old(self)@.class,
                        old(self)@.scope,
                        old(self)@.pool.len() as int,
                        builder as int,
                        None,
                        *expr@->Binary_0,
                    ),
                    append_operand(
                        old(self)@.class,
                        old(self)@.scope,
                        old(self)@.pool.len() + pool_len(
                            append_operand(
                                old(self)@.class,
                                old(self)@.scope,
                                old(self)@.pool.len() as int,
                                builder as int,
                                None,
                                *expr@->Binary_0,
                            ),
                        ),
                        builder as int,
                        Some(
                            old(self)@.pool.len() - 3 + pool_len(
                                append_operand(
                                    old(self)@.class,
                                    old(self)@.scope,
                                    old(self)@.pool.len() as int,
                                    builder as int,
                                    None,
                                    *expr@->Binary_0,
                                ),
                            ),
                        ),
                        *expr@->Binary_2,
                    ),
                ),
            ),
        decreases expr, 1nat,
    {
        match expr {
            Expr::Binary(l, _, r) => {
                let ghost class = self@.class;
                let ghost scope = self@.scope;
                let ghost base = self@.pool.len() as int;
                let ghost s0 = *self;
                let ghost a = append_operand(class, scope, base, builder as int, None, l@);
                self.append_operand(builder, None, l)?;
                let ghost s1 = *self;
                let name = (self.cp.len() - 3) as u16;
                let ghost b = append_operand(
                    class,
                    scope,
                    base + pool_len(a),
                    builder as int,
                    Some(base - 3 + pool_len(a)),
                    r@,
                );
                self.append_operand(builder, Some(name), r)?;
                let ghost s2 = *self;
                let ghost end = base + pool_len(a) + pool_len(b);
                let done = self.emit_member(0xB6, builder, "toString", "()Ljava/lang/String;");
                proof {
                    lemma_then(s1, s2, *self, b, failure(done), finish_builder(end, builder as int));
                    lemma_then(
                        s0,
                        s1,
                        *self,
                        a,
                        failure(done),
                        then(b, finish_builder(end, builder as int)),
                    );
                }
                done
            },
            _ => Ok(()),
        }
    }

    /// Concatenates two values as text.
    fn lower_concat(&mut self, expr: &Expr) -> (r: Result<(), KujavError>)
        requires
            old(self).wf(),
            expr is Binary,
        ensures
            final(self).wf(),
            expr_step(
                *old(self),
                *final(self),
                failure(r),
                lower_concat(
                    old(self)@.class,
                    old(self)@.scope,
                    old(self)@.pool.len() as int,
                    expr@,
                ),
            ),
        decreases expr, 2nat,
    {
        let ghost class = self@.class;
        let ghost scope = self@.scope;
        let ghost base = self@.pool.len() as int;
        let ghost s0 = *self;
        let builder = self.start_builder()?;
        let ghost s1 = *self;
        let done = self.append_both(builder, expr);
        proof {
            let l = *expr@->Binary_0;
            let r = *expr@->Binary_2;
            let a = append_operand(class, scope, base + 6, base + 2, None, l);
            let b = append_operand(
                class,
                scope,
                base + 6 + pool_len(a),
                base + 2,
                Some(base + 3 + pool_len(a)),
                r,
            );
            lemma_then(
                s0,
                s1,
                *self,
                builder_start(base),
                failure(done),
                appended_both(base + 6, base + 2, a, b),
            );
        }
        done
    }
}

/// Appends the instructions of a comparison.
fn emit_comparison(code: &mut Vec<u8>, unless: u8)
    ensures
        final(code)@ == old(code)@ + comparison(unless),
{
    emit_op3(code, unless, 7);
    emit1(code, 0x04);
    emit_op3(code, 0xA7, 4);
    emit1(code, 0x03);
    assert(code@ =~= old(code)@ + comparison(unless));
}

} // verus!
