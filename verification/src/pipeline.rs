//! The pipeline from source text to a class file.
use vstd::prelude::*;
use vstd::string::*;
use crate::ast::{Stmt, StmtModel, stmts_model};
use crate::classfile::{MAIN_LOCALS, class_file, class_file_bytes};
use crate::codegen::{Compiler, failure};
use crate::constant_pool::{ConstantModel, entries_error};
use crate::emit::{
    add_class_named,
    lemma_entries_error_concat,
    lemma_entries_error_one,
    lemma_entries_error_two,
};
use crate::errors::{ErrorModel, KujavError};
use crate::lowering::{MethodModel, class_entries, lower_block};
use crate::parser::{parse_source, parse_to_ast};
use crate::semantics::{SemanticAnalyzer, check_block};

verus! {

/// The entries that every pool starts with: the class, its superclass, and
/// the name and descriptor of the entry point and of the attribute that
/// holds a method's code. The class ends up at position 2, its superclass
/// at 4, and the three texts at 5, 6 and 7.
pub open spec fn header_entries(class: Seq<char>) -> Seq<ConstantModel> {
    class_entries(0, class) + class_entries(2, "java/lang/Object"@) + seq![
        ConstantModel::Utf8("main"@),
        ConstantModel::Utf8("([Ljava/lang/String;)V"@),
        ConstantModel::Utf8("Code"@),
    ]
}

/// The class file of a program: the statements outside any function make
/// up the entry point, which ends with a bare return.
pub open spec fn program_bytes(class: Seq<char>, program: Seq<StmtModel>) -> Result<
    Seq<u8>,
    ErrorModel,
> {
    match entries_error(0, header_entries(class)) {
        Some(e) => Err(e),
        None => match lower_block(class, Compiler::start(class).scope, 7, program) {
            Err(e) => Err(e),
            Ok(l) => class_file_bytes(
                header_entries(class) + l.pool,
                2,
                4,
                seq![
                    MethodModel {
                        name_index: 5,
                        sig_index: 6,
                        code: l.code.push(0xB1u8),
                        max_locals: if l.scope.next_slot < MAIN_LOCALS {
                            MAIN_LOCALS as int
                        } else {
                            l.scope.next_slot
                        },
                    },
                ] + l.methods,
                7,
            ),
        },
    }
}

/// The verdict on a source text: the first error of its tokens, its
/// grammar or its types, if there is one.
pub open spec fn check_source(src: Seq<char>) -> Result<(), ErrorModel> {
    match parse_source(src) {
        Err(e) => Err(e),
        Ok(program) => match check_block(Map::empty(), program).error {
            Some(e) => Err(e),
            None => Ok(()),
        },
    }
}

/// The class file of a source text, which has to pass the checks first.
pub open spec fn compile_bytes(class: Seq<char>, src: Seq<char>) -> Result<Seq<u8>, ErrorModel> {
    match check_source(src) {
        Err(e) => Err(e),
        Ok(_) => program_bytes(class, parse_source(src)->Ok_0),
    }
}

/// Whether `r` is the verdict on `src`.
pub open spec fn is_verdict(src: Seq<char>, r: Result<(), KujavError>) -> bool {
    match r {
        Ok(()) => check_source(src) is Ok,
        Err(e) => check_source(src) == Err::<(), ErrorModel>(e@),
    }
}

/// Whether `r` is the class file of `src`, or the error that it gives.
pub open spec fn is_class_file(
    class: Seq<char>,
    src: Seq<char>,
    r: Result<Vec<u8>, KujavError>,
) -> bool {
    match r {
        Ok(bytes) => compile_bytes(class, src) == Ok::<Seq<u8>, ErrorModel>(bytes@),
        Err(e) => compile_bytes(class, src) == Err::<Seq<u8>, ErrorModel>(e@),
    }
}

/// Checks a source text without compiling it.
pub fn check_only(source: &str) -> (r: Result<(), KujavError>)
    ensures
        is_verdict(source@, r),
{
    let ast = parse_to_ast(source)?;
    let mut analyzer = SemanticAnalyzer::new();
    analyzer.analyze(ast.as_slice())
}

/// Checking a text twice gives the same verdict both times, and on failure
/// the same kind of error with the same message.
pub proof fn lemma_check_is_repeatable(
    src: Seq<char>,
    first: Result<(), KujavError>,
    second: Result<(), KujavError>,
)
    requires
        is_verdict(src, first),
        is_verdict(src, second),
    ensures
        first is Ok <==> second is Ok,
        first is Err ==> first->Err_0@ == second->Err_0@,
{
}

/// Adds the entries that every pool starts with.
fn add_header(kujav: &mut Compiler) -> (r: Result<(), KujavError>)
    requires
        old(kujav).wf(),
        old(kujav)@ == Compiler::start(old(kujav)@.class),
    ensures
        match r {
            Ok(()) => entries_error(0, header_entries(old(kujav)@.class)) is None
                && final(kujav).wf() && final(kujav)@.pool == header_entries(old(kujav)@.class)
                && final(kujav)@.class == old(kujav)@.class && final(kujav)@.code == old(
                kujav,
            )@.code && final(kujav)@.methods == old(kujav)@.methods && final(kujav)@.scope == old(
                kujav,
            )@.scope,
            Err(e) => entries_error(0, header_entries(old(kujav)@.class)) == Some(e@),
        },
{
    let ghost class = kujav@.class;
    let ghost object = class_entries(2, "java/lang/Object"@);
    let ghost names = seq![
        ConstantModel::Utf8("main"@),
        ConstantModel::Utf8("([Ljava/lang/String;)V"@),
        ConstantModel::Utf8("Code"@),
    ];
    proof {
        lemma_entries_error_concat(0, class_entries(0, class) + object, names);
        lemma_entries_error_concat(0, class_entries(0, class), object);
        lemma_entries_error_concat(4, seq![names[0]], seq![names[1], names[2]]);
        lemma_entries_error_one(4, names[0]);
        lemma_entries_error_two(5, names[1], names[2]);
        assert(names =~= seq![names[0]] + seq![names[1], names[2]]);
    }
    let name = kujav.class_name.clone();
    add_class_named(&mut kujav.cp, name.as_str())?;
    add_class_named(&mut kujav.cp, "java/lang/Object")?;
    kujav.cp.add_utf8("main")?;
    kujav.cp.add_utf8("([Ljava/lang/String;)V")?;
    kujav.cp.add_utf8("Code")?;
    assert(kujav@.pool =~= header_entries(class));
    Ok(())
}

/// Compiles a program to the class file of the class `class_name`.
pub fn compile_program(class_name: &str, program: &[Stmt]) -> (r: Result<Vec<u8>, KujavError>)
    ensures
        match r {
            Ok(bytes) => program_bytes(class_name@, stmts_model(program@)) == Ok::<
                Seq<u8>,
                ErrorModel,
            >(bytes@),
            Err(e) => program_bytes(class_name@, stmts_model(program@)) == Err::<
                Seq<u8>,
                ErrorModel,
            >(e@),
        },
{
    let mut kujav = Compiler::for_class(class_name);
    add_header(&mut kujav)?;
    let ghost before = kujav;
    kujav.lower_block(program)?;
    let ghost l = lower_block(
        class_name@,
        Compiler::start(class_name@).scope,
        7,
        stmts_model(program@),
    )->Ok_0;
    kujav.current_bytecode.push(0xB1);
    assert(kujav@.code =~= l.code.push(0xB1u8));
    assert(kujav@.pool =~= header_entries(class_name@) + l.pool);
    assert(kujav@.methods =~= l.methods);
    class_file(&kujav, 2, 4, 5, 6, 7)
}

/// Checks a source text and compiles it to the class file of the class
/// `class_name`.
pub fn compile_source(class_name: &str, source: &str) -> (r: Result<Vec<u8>, KujavError>)
    ensures
        is_class_file(class_name@, source@, r),
{
    let ast = parse_to_ast(source)?;
    let mut analyzer = SemanticAnalyzer::new();
    analyzer.analyze(ast.as_slice())?;
    compile_program(class_name, ast.as_slice())
}

} // verus!
