//! The layout of a class file: a fixed header, the constant pool, and one
//! method for the program's entry point and for each of its functions.
use vstd::prelude::*;
use crate::codegen::{Compiler, CompilerModel, MethodInfo};
use crate::constant_pool::{ConstantModel, pool_bytes};
use crate::errors::{ErrorModel, KujavError};
use crate::lowering::{MethodModel, bytecode_error};
use crate::text::{be16, be32, push_be16, push_be32, push_bytes};

verus! {

/// The most bytes of code a method can hold.
pub const MAX_CODE: usize = 65535;

/// The most methods a class can hold.
pub const MAX_METHODS: usize = 65535;

/// The operand stack that every method is given.
pub const MAX_STACK: u16 = 10;

/// The least number of local slots that the entry point is given.
pub const MAIN_LOCALS: u16 = 10;

/// The error for a method whose code is longer than a class file allows.
pub open spec fn code_too_long() -> ErrorModel {
    bytecode_error("method code is too long"@)
}

/// The error for a class with more methods than a class file allows.
pub open spec fn too_many_methods() -> ErrorModel {
    bytecode_error("too many methods"@)
}

/// The bytes of a public static method with a `Code` attribute, whose name
/// is at `code_attr`: flags, name, descriptor, one attribute, and in it the
/// stack and local limits, the instructions, and no handlers or attributes.
pub open spec fn method_bytes(m: MethodModel, code_attr: int) -> Seq<u8> {
    seq![0x00u8, 0x09u8] + be16(m.name_index) + be16(m.sig_index) + seq![0x00u8, 0x01u8] + be16(
        code_attr,
    ) + be32(12 + m.code.len() as int) + be16(MAX_STACK as int) + be16(m.max_locals) + be32(
        m.code.len() as int,
    ) + m.code + seq![0x00u8, 0x00u8, 0x00u8, 0x00u8]
}

/// The bytes of the methods, one after the other.
pub open spec fn methods_bytes(methods: Seq<MethodModel>, code_attr: int) -> Seq<u8>
    decreases methods.len(),
{
    if methods.len() == 0 {
        Seq::empty()
    } else {
        methods_bytes(methods.drop_last(), code_attr) + method_bytes(methods.last(), code_attr)
    }
}

/// The bytes of a public class without interfaces, fields or attributes:
/// magic number, version, constant pool, flags, the class and its
/// superclass, and the methods.
pub open spec fn class_bytes(
    pool: Seq<ConstantModel>,
    this_class: int,
    super_class: int,
    methods: Seq<MethodModel>,
    code_attr: int,
) -> Seq<u8> {
    seq![0xCAu8, 0xFEu8, 0xBAu8, 0xBEu8, 0x00u8, 0x00u8, 0x00u8, 0x31u8] + pool_bytes(pool)
        + seq![0x00u8, 0x21u8] + be16(this_class) + be16(super_class) + seq![
        0x00u8,
        0x00u8,
        0x00u8,
        0x00u8,
    ] + be16(methods.len() as int) + methods_bytes(methods, code_attr) + seq![0x00u8, 0x00u8]
}

/// The entry point of a job: the code emitted outside any function, under
/// the name and descriptor at the given positions.
pub open spec fn entry_point(job: CompilerModel, name_index: int, sig_index: int) -> MethodModel {
    MethodModel {
        name_index,
        sig_index,
        code: job.code,
        max_locals: if job.scope.next_slot < MAIN_LOCALS {
            MAIN_LOCALS as int
        } else {
            job.scope.next_slot
        },
    }
}

/// Whether the code of every method fits in a class file.
pub open spec fn codes_fit(methods: Seq<MethodModel>) -> bool {
    forall|i: int| 0 <= i < methods.len() ==> (#[trigger] methods[i]).code.len() <= MAX_CODE
}

/// The class file of the given pool and methods, unless there are too
/// many methods or one of them is too long.
pub open spec fn class_file_bytes(
    pool: Seq<ConstantModel>,
    this_class: int,
    super_class: int,
    methods: Seq<MethodModel>,
    code_attr: int,
) -> Result<Seq<u8>, ErrorModel> {
    if methods.len() > MAX_METHODS {
        Err(too_many_methods())
    } else if !codes_fit(methods) {
        Err(code_too_long())
    } else {
        Ok(class_bytes(pool, this_class, super_class, methods, code_attr))
    }
}

/// Appends the bytes of a method.
fn write_method(
    out: &mut Vec<u8>,
    name_idx: u16,
    sig_idx: u16,
    code: &Vec<u8>,
    max_locals: u16,
    c_a: u16,
)
    requires
        code.len() <= MAX_CODE,
    ensures
        final(out)@ == old(out)@ + method_bytes(
            MethodModel {
                name_index: name_idx as int,
                sig_index: sig_idx as int,
                code: code@,
                max_locals: max_locals as int,
            },
            c_a as int,
        ),
{
    out.push(0x00);
    out.push(0x09);
    push_be16(out, name_idx);
    push_be16(out, sig_idx);
    out.push(0x00);
    out.push(0x01);
    push_be16(out, c_a);
    push_be32(out, 12 + code.len() as u32);
    push_be16(out, MAX_STACK);
    push_be16(out, max_locals);
    push_be32(out, code.len() as u32);
    push_bytes(out, code.as_slice());
    out.push(0x00);
    out.push(0x00);
    out.push(0x00);
    out.push(0x00);
    assert(out@ =~= old(out)@ + method_bytes(
        MethodModel {
            name_index: name_idx as int,
            sig_index: sig_idx as int,
            code: code@,
            max_locals: max_locals as int,
        },
        c_a as int,
    ));
}

/// Appends the entry point of the job.
pub fn write_main_method(out: &mut Vec<u8>, kujav: &Compiler, m_n: u16, m_t: u16, c_a: u16)
    requires
        kujav.wf(),
        kujav.current_bytecode.len() <= MAX_CODE,
    ensures
        final(out)@ == old(out)@ + method_bytes(
            entry_point(kujav@, m_n as int, m_t as int),
            c_a as int,
        ),
{
    let locals = if kujav.next_slot < MAIN_LOCALS {
        MAIN_LOCALS
    } else {
        kujav.next_slot
    };
    write_method(out, m_n, m_t, &kujav.current_bytecode, locals, c_a);
}

/// Appends a method that a function of the program became.
pub fn write_custom_method(out: &mut Vec<u8>, m: &MethodInfo, c_a: u16)
    requires
        m.bytecode.len() <= MAX_CODE,
    ensures
        final(out)@ == old(out)@ + method_bytes(m@, c_a as int),
{
    write_method(out, m.name_idx, m.sig_idx, &m.bytecode, m.max_locals, c_a);
}

/// The class file of a finished job: its pool, its entry point under the
/// name and descriptor at `m_n` and `m_t`, and its methods.
pub fn class_file(
    kujav: &Compiler,
    this_c: u16,
    super_c: u16,
    m_n: u16,
    m_t: u16,
    c_a: u16,
) -> (r: Result<Vec<u8>, KujavError>)
    requires
        kujav.wf(),
    ensures
        match r {
            Ok(bytes) => class_file_bytes(
                kujav@.pool,
                this_c as int,
                super_c as int,
                seq![entry_point(kujav@, m_n as int, m_t as int)] + kujav@.methods,
                c_a as int,
            ) == Ok::<Seq<u8>, ErrorModel>(bytes@),
            Err(e) => class_file_bytes(
                kujav@.pool,
                this_c as int,
                super_c as int,
                seq![entry_point(kujav@, m_n as int, m_t as int)] + kujav@.methods,
                c_a as int,
            ) == Err::<Seq<u8>, ErrorModel>(e@),
        },
{
    let ghost main = entry_point(kujav@, m_n as int, m_t as int);
    let ghost all = seq![main] + kujav@.methods;
    if kujav.methods.len() >= MAX_METHODS {
        return Err(KujavError::bytecode("too many methods"));
    }
    if kujav.current_bytecode.len() > MAX_CODE {
        assert(all[0].code.len() > MAX_CODE);
        return Err(KujavError::bytecode("method code is too long"));
    }
    let mut k: usize = 0;
    while k < kujav.methods.len()
        invariant
            k <= kujav.methods.len() < MAX_METHODS,
            main == entry_point(kujav@, m_n as int, m_t as int),
            all == seq![main] + kujav@.methods,
            forall|i: int| 0 <= i < k ==> (#[trigger] kujav.methods@[i]).bytecode@.len() <= MAX_CODE,
        decreases kujav.methods.len() - k,
    {
        if kujav.methods[k].bytecode.len() > MAX_CODE {
            assert(all[k as int + 1] == kujav.methods@[k as int]@);
            assert(all[k as int + 1].code.len() > MAX_CODE);
            return Err(KujavError::bytecode("method code is too long"));
        }
        k += 1;
    }
    assert(codes_fit(all)) by {
        assert forall|i: int| 0 <= i < all.len() implies (#[trigger] all[i]).code.len()
            <= MAX_CODE by {
            if i > 0 {
                assert(all[i] == kujav.methods@[i - 1]@);
            }
        }
    }
    let mut out: Vec<u8> = Vec::new();
    out.push(0xCA);
    out.push(0xFE);
    out.push(0xBA);
    out.push(0xBE);
    out.push(0x00);
    out.push(0x00);
    out.push(0x00);
    out.push(0x31);
    let pool = kujav.cp.to_bytes();
    push_bytes(&mut out, pool.as_slice());
    out.push(0x00);
    out.push(0x21);
    push_be16(&mut out, this_c);
    push_be16(&mut out, super_c);
    out.push(0x00);
    out.push(0x00);
    out.push(0x00);
    out.push(0x00);
    push_be16(&mut out, (kujav.methods.len() + 1) as u16);
    let ghost head = out@;
    write_main_method(&mut out, kujav, m_n, m_t, c_a);
    let mut i: usize = 0;
    assert(all.take(1) =~= seq![main]);
    assert(methods_bytes(all.take(1), c_a as int) =~= method_bytes(main, c_a as int)) by {
        reveal_with_fuel(methods_bytes, 2);
        assert(all.take(1).drop_last() =~= Seq::<MethodModel>::empty());
    }
    while i < kujav.methods.len()
        invariant
            i <= kujav.methods.len(),
            all == seq![main] + kujav@.methods,
            forall|j: int|
                0 <= j < kujav.methods.len() ==> (#[trigger] kujav.methods@[j]).bytecode@.len()
                    <= MAX_CODE,
            out@ == head + methods_bytes(all.take(i as int + 1), c_a as int),
        decreases kujav.methods.len() - i,
    {
        write_custom_method(&mut out, &kujav.methods[i], c_a);
        proof {
            assert(all.take(i as int + 2).drop_last() =~= all.take(i as int + 1));
            assert(all.take(i as int + 2).last() == kujav.methods@[i as int]@);
            assert(out@ =~= head + methods_bytes(all.take(i as int + 2), c_a as int));
        }
        i += 1;
    }
    assert(all.take(kujav.methods.len() as int + 1) =~= all);
    out.push(0x00);
    out.push(0x00);
    assert(out@ =~= class_bytes(kujav@.pool, this_c as int, super_c as int, all, c_a as int));
    Ok(out)
}

} // verus!
