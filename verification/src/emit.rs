//! The steps that the code generator is made of: groups of pool entries that
//! belong together, and instructions with their operands.
use vstd::prelude::*;
use crate::constant_pool::{ConstantModel, ConstantPool, entries_error, entry_error};
use crate::errors::KujavError;
use crate::lowering::{class_entries, member_entries, op3, push_small, qualified_entries};
use crate::symbols::extends;
use crate::text::push_be16;

verus! {

/// The error of a group is that of its first part, and only where that has
/// none that of the rest.
pub proof fn lemma_entries_error_concat(len: int, a: Seq<ConstantModel>, b: Seq<ConstantModel>)
    ensures
        entries_error(len, a + b) == match entries_error(len, a) {
            Some(e) => Some(e),
            None => entries_error(len + a.len(), b),
        },
    decreases a.len(),
{
    if a.len() == 0 {
        assert(a + b =~= b);
    } else {
        assert((a + b).drop_first() =~= a.drop_first() + b);
        lemma_entries_error_concat(len + 1, a.drop_first(), b);
    }
}

/// The error of a group of one entry is the error of that entry.
pub proof fn lemma_entries_error_one(len: int, c: ConstantModel)
    ensures
        entries_error(len, seq![c]) == entry_error(len, c),
{
    reveal_with_fuel(entries_error, 2);
    assert(seq![c].drop_first() =~= Seq::<ConstantModel>::empty());
}

/// The error of a group of two entries.
pub proof fn lemma_entries_error_two(len: int, x: ConstantModel, y: ConstantModel)
    ensures
        entries_error(len, seq![x, y]) == match entry_error(len, x) {
            Some(e) => Some(e),
            None => entry_error(len + 1, y),
        },
{
    lemma_entries_error_concat(len, seq![x], seq![y]);
    lemma_entries_error_one(len, x);
    lemma_entries_error_one(len + 1, y);
    assert(seq![x, y] =~= seq![x] + seq![y]);
}

/// Whether a call that left `after` and returned `r` added the group
/// `entries` to `before`: all of it, giving back the position of its last
/// entry, or none of what follows the first entry that the pool cannot
/// take.
pub open spec fn group_added(
    before: Seq<ConstantModel>,
    entries: Seq<ConstantModel>,
    after: Seq<ConstantModel>,
    r: Result<u16, KujavError>,
) -> bool {
    &&& extends(after, before)
    &&& match r {
        Ok(i) => entries_error(before.len() as int, entries) is None && after == before + entries
            && i == after.len(),
        Err(e) => entries_error(before.len() as int, entries) == Some(e@),
    }
}

/// Adds the entries that name a class.
pub(crate) fn add_class_named(pool: &mut ConstantPool, name: &str) -> (r: Result<u16, KujavError>)
    requires
        old(pool).wf(),
    ensures
        final(pool).wf(),
        group_added(old(pool)@, class_entries(old(pool)@.len() as int, name@), final(pool)@, r),
{
    let ghost base = pool@.len() as int;
    let ghost first = ConstantModel::Utf8(name@);
    let ghost second = ConstantModel::Class(base + 1);
    proof {
        lemma_entries_error_concat(base, seq![first], seq![second]);
        lemma_entries_error_one(base, first);
        lemma_entries_error_one(base + 1, second);
        assert(class_entries(base, name@) =~= seq![first] + seq![second]);
    }
    let name_index = pool.add_utf8(name)?;
    let r = pool.add_class(name_index);
    assert(r is Ok ==> pool@ =~= old(pool)@ + class_entries(base, name@));
    r
}

/// Adds the entries that name a field or a method of the class at
/// `class_index`.
pub(crate) fn add_member(
    pool: &mut ConstantPool,
    method: bool,
    class_index: u16,
    name: &str,
    desc: &str,
) -> (r: Result<u16, KujavError>)
    requires
        old(pool).wf(),
    ensures
        final(pool).wf(),
        group_added(
            old(pool)@,
            member_entries(old(pool)@.len() as int, method, class_index as int, name@, desc@),
            final(pool)@,
            r,
        ),
{
    let ghost base = pool@.len() as int;
    let ghost entries = member_entries(base, method, class_index as int, name@, desc@);
    proof {
        lemma_entries_error_concat(base, seq![entries[0]], seq![entries[1], entries[2], entries[3]]);
        lemma_entries_error_concat(base + 1, seq![entries[1]], seq![entries[2], entries[3]]);
        lemma_entries_error_concat(base + 2, seq![entries[2]], seq![entries[3]]);
        lemma_entries_error_one(base, entries[0]);
        lemma_entries_error_one(base + 1, entries[1]);
        lemma_entries_error_one(base + 2, entries[2]);
        lemma_entries_error_one(base + 3, entries[3]);
        assert(entries =~= seq![entries[0]] + seq![entries[1], entries[2], entries[3]]);
        assert(seq![entries[1], entries[2], entries[3]] =~= seq![entries[1]] + seq![
            entries[2],
            entries[3],
        ]);
        assert(seq![entries[2], entries[3]] =~= seq![entries[2]] + seq![entries[3]]);
    }
    let name_index = pool.add_utf8(name)?;
    let desc_index = pool.add_utf8(desc)?;
    let pair = pool.add_name_and_type(name_index, desc_index)?;
    let r = if method {
        pool.add_method_ref(class_index, pair)
    } else {
        pool.add_field_ref(class_index, pair)
    };
    assert(r is Ok ==> pool@ =~= old(pool)@ + entries);
    r
}

/// Adds the entries that name a class and one member of it.
pub(crate) fn add_qualified(pool: &mut ConstantPool, method: bool, class: &str, name: &str, desc: &str) -> (r:
    Result<u16, KujavError>)
    requires
        old(pool).wf(),
    ensures
        final(pool).wf(),
        group_added(
            old(pool)@,
            qualified_entries(old(pool)@.len() as int, method, class@, name@, desc@),
            final(pool)@,
            r,
        ),
{
    let ghost base = pool@.len() as int;
    proof {
        lemma_entries_error_concat(
            base,
            class_entries(base, class@),
            member_entries(base + 2, method, base + 2, name@, desc@),
        );
    }
    let class_index = add_class_named(pool, class)?;
    let r = add_member(pool, method, class_index, name, desc);
    assert(r is Ok ==> pool@ =~= old(pool)@ + qualified_entries(base, method, class@, name@, desc@));
    r
}

/// Appends one byte.
pub(crate) fn emit1(code: &mut Vec<u8>, a: u8)
    ensures
        final(code)@ == old(code)@ + seq![a],
{
    code.push(a);
    assert(code@ =~= old(code)@ + seq![a]);
}

/// Appends two bytes.
pub(crate) fn emit2(code: &mut Vec<u8>, a: u8, b: u8)
    ensures
        final(code)@ == old(code)@ + seq![a, b],
{
    code.push(a);
    code.push(b);
    assert(code@ =~= old(code)@ + seq![a, b]);
}

/// Appends an opcode with a two-byte operand.
pub(crate) fn emit_op3(code: &mut Vec<u8>, op: u8, operand: u16)
    ensures
        final(code)@ == old(code)@ + op3(op, operand as int),
{
    code.push(op);
    push_be16(code, operand);
    assert(code@ =~= old(code)@ + op3(op, operand as int));
}

/// Appends the instruction that pushes `v`.
pub(crate) fn emit_push_small(code: &mut Vec<u8>, v: i16)
    ensures
        final(code)@ == old(code)@ + push_small(v as int),
{
    if -128 <= v && v <= 127 {
        let b: u8 = if v < 0 {
            (v + 256) as u8
        } else {
            v as u8
        };
        emit2(code, 0x10, b);
    } else {
        let raw: u16 = if v < 0 {
            (v + 32767 + 1) as u16 + 32768u16
        } else {
            v as u16
        };
        emit_op3(code, 0x11, raw);
    }
}

} // verus!
