//! The constant pool of a class file: an append-only table whose entries are
//! referred to by their one-based position.
use vstd::prelude::*;
use vstd::string::*;
use vstd::utf8::encode_utf8;
use crate::errors::{ErrorKind, ErrorModel, KujavError};
use crate::text::{be16, be32, push_be16, push_be32, push_bytes};

verus! {

/// The most entries a pool can hold: its count, one more than its length,
/// is written in two bytes.
pub const MAX_ENTRIES: usize = 65534;

/// The most bytes a text entry can hold: its length is written in two bytes.
pub const MAX_TEXT_BYTES: usize = 65535;

/// One entry of the pool.
#[derive(Debug)]
pub enum Constant {
    Utf8(String),
    Integer(i32),
    Class(u16),
    String(u16),
    FieldRef { class_index: u16, name_and_type_index: u16 },
    MethodRef { class_index: u16, name_and_type_index: u16 },
    NameAndType { name_index: u16, type_index: u16 },
}

/// An entry as a mathematical value.
pub enum ConstantModel {
    Utf8(Seq<char>),
    Integer(int),
    Class(int),
    Text(int),
    FieldRef { class_index: int, name_and_type_index: int },
    MethodRef { class_index: int, name_and_type_index: int },
    NameAndType { name_index: int, type_index: int },
}

impl View for Constant {
    type V = ConstantModel;

    open spec fn view(&self) -> ConstantModel {
        match self {
            Constant::Utf8(s) => ConstantModel::Utf8(s@),
            Constant::Integer(v) => ConstantModel::Integer(*v as int),
            Constant::Class(i) => ConstantModel::Class(*i as int),
            Constant::String(i) => ConstantModel::Text(*i as int),
            Constant::FieldRef { class_index, name_and_type_index } => ConstantModel::FieldRef {
                class_index: *class_index as int,
                name_and_type_index: *name_and_type_index as int,
            },
            Constant::MethodRef { class_index, name_and_type_index } => ConstantModel::MethodRef {
                class_index: *class_index as int,
                name_and_type_index: *name_and_type_index as int,
            },
            Constant::NameAndType { name_index, type_index } => ConstantModel::NameAndType {
                name_index: *name_index as int,
                type_index: *type_index as int,
            },
        }
    }
}

/// Whether an entry can be written: its indices fit in two bytes each, its
/// integer in four, and its text in as many bytes as a two-byte length counts.
pub open spec fn writable(c: ConstantModel) -> bool {
    match c {
        ConstantModel::Utf8(s) => encode_utf8(s).len() <= MAX_TEXT_BYTES,
        ConstantModel::Integer(v) => -0x8000_0000 <= v < 0x8000_0000,
        ConstantModel::Class(i) => 0 <= i < 0x1_0000,
        ConstantModel::Text(i) => 0 <= i < 0x1_0000,
        ConstantModel::FieldRef { class_index, name_and_type_index } => 0 <= class_index < 0x1_0000
            && 0 <= name_and_type_index < 0x1_0000,
        ConstantModel::MethodRef { class_index, name_and_type_index } => 0 <= class_index
            < 0x1_0000 && 0 <= name_and_type_index < 0x1_0000,
        ConstantModel::NameAndType { name_index, type_index } => 0 <= name_index < 0x1_0000 && 0
            <= type_index < 0x1_0000,
    }
}

/// A signed 32-bit value as the unsigned value with the same four bytes.
pub open spec fn twos_complement(v: int) -> int {
    if v < 0 {
        v + 0x1_0000_0000
    } else {
        v
    }
}

/// The bytes of one entry: a tag, then what the tag calls for.
pub open spec fn constant_bytes(c: ConstantModel) -> Seq<u8> {
    match c {
        ConstantModel::Utf8(s) => seq![1u8] + be16(encode_utf8(s).len() as int) + encode_utf8(s),
        ConstantModel::Integer(v) => seq![3u8] + be32(twos_complement(v)),
        ConstantModel::Class(i) => seq![7u8] + be16(i),
        ConstantModel::Text(i) => seq![8u8] + be16(i),
        ConstantModel::FieldRef { class_index, name_and_type_index } => seq![9u8] + be16(
            class_index,
        ) + be16(name_and_type_index),
        ConstantModel::MethodRef { class_index, name_and_type_index } => seq![10u8] + be16(
            class_index,
        ) + be16(name_and_type_index),
        ConstantModel::NameAndType { name_index, type_index } => seq![12u8] + be16(name_index)
            + be16(type_index),
    }
}

/// The bytes of the entries, one after the other.
pub open spec fn entries_bytes(entries: Seq<ConstantModel>) -> Seq<u8>
    decreases entries.len(),
{
    if entries.len() == 0 {
        Seq::empty()
    } else {
        entries_bytes(entries.drop_last()) + constant_bytes(entries.last())
    }
}

/// The bytes of a pool: the count, which is one more than the number of
/// entries, then the entries.
pub open spec fn pool_bytes(entries: Seq<ConstantModel>) -> Seq<u8> {
    be16(entries.len() as int + 1) + entries_bytes(entries)
}

/// The error for an entry that a full pool cannot take.
pub open spec fn pool_full() -> ErrorModel {
    ErrorModel { kind: ErrorKind::Bytecode, message: "constant pool is full"@ }
}

/// The error for a text that is longer than a two-byte length counts.
pub open spec fn text_too_long() -> ErrorModel {
    ErrorModel { kind: ErrorKind::Bytecode, message: "text constant is too long"@ }
}

/// Why a pool of `len` entries cannot take the entry `c`, if it cannot.
pub open spec fn entry_error(len: int, c: ConstantModel) -> Option<ErrorModel> {
    if len >= MAX_ENTRIES {
        Some(pool_full())
    } else if !writable(c) {
        Some(text_too_long())
    } else {
        None
    }
}

/// Why a pool of `len` entries cannot take `entries` one after the other:
/// the error of the first entry that it cannot take.
pub open spec fn entries_error(len: int, entries: Seq<ConstantModel>) -> Option<ErrorModel>
    decreases entries.len(),
{
    if entries.len() == 0 {
        None
    } else {
        match entry_error(len, entries[0]) {
            Some(e) => Some(e),
            None => entries_error(len + 1, entries.drop_first()),
        }
    }
}

/// What `add` leaves and returns for a pool `before` and an entry `c`: the
/// entry goes to the end and its one-based position comes back, unless the
/// pool is full or the entry cannot be written.
pub open spec fn added(before: Seq<ConstantModel>, c: ConstantModel) -> Result<
    (Seq<ConstantModel>, int),
    ErrorModel,
> {
    match entry_error(before.len() as int, c) {
        Some(e) => Err(e),
        None => Ok((before.push(c), before.len() as int + 1)),
    }
}

/// Whether a call that left `after` and returned `r` did to `before` what
/// `added` says for the entry `c`.
pub open spec fn add_outcome(
    before: Seq<ConstantModel>,
    c: ConstantModel,
    after: Seq<ConstantModel>,
    r: Result<u16, KujavError>,
) -> bool {
    match added(before, c) {
        Ok((entries, index)) => after == entries && (r matches Ok(i) && i == index),
        Err(e) => after == before && (r matches Err(err) && err@ == e),
    }
}

/// The constant pool under construction.
pub struct ConstantPool {
    pub(crate) entries: Vec<Constant>,
}

impl View for ConstantPool {
    type V = Seq<ConstantModel>;

    closed spec fn view(&self) -> Seq<ConstantModel> {
        Seq::new(self.entries@.len(), |i: int| self.entries@[i]@)
    }
}

impl ConstantPool {
    /// The pool holds at most `MAX_ENTRIES` entries, each of them writable.
    /// Every pool this module hands out is well formed.
    pub closed spec fn wf(&self) -> bool {
        &&& self.entries@.len() <= MAX_ENTRIES
        &&& forall|i: int| 0 <= i < self.entries@.len() ==> writable(#[trigger] self.entries@[i]@)
    }

    /// A pool without entries.
    pub fn new() -> (pool: ConstantPool)
        ensures
            pool@ == Seq::<ConstantModel>::empty(),
            pool.wf(),
    {
        let pool = ConstantPool { entries: Vec::new() };
        assert(pool@ =~= Seq::<ConstantModel>::empty());
        pool
    }

    /// The number of entries.
    pub fn len(&self) -> (n: usize)
        requires
            self.wf(),
        ensures
            n == self@.len(),
            n <= MAX_ENTRIES,
    {
        self.entries.len()
    }

    /// The entry at the one-based position `index`.
    pub fn get(&self, index: u16) -> (c: Option<&Constant>)
        ensures
            match c {
                Some(c) => 1 <= index <= self@.len() && c@ == self@[index - 1],
                None => !(1 <= index <= self@.len()),
            },
    {
        if index >= 1 && (index as usize) <= self.entries.len() {
            Some(&self.entries[index as usize - 1])
        } else {
            None
        }
    }

    fn add(&mut self, c: Constant) -> (r: Result<u16, KujavError>)
        requires
            old(self).wf(),
        ensures
            final(self).wf(),
            add_outcome(old(self)@, c@, final(self)@, r),
    {
        if self.entries.len() >= MAX_ENTRIES {
            return Err(KujavError::bytecode("constant pool is full"));
        }
        let fits = match &c {
            Constant::Utf8(s) => s.as_str().as_bytes().len() <= MAX_TEXT_BYTES,
            _ => true,
        };
        if !fits {
            return Err(KujavError::bytecode("text constant is too long"));
        }
        self.entries.push(c);
        assert(self@ =~= old(self)@.push(c@));
        Ok(self.entries.len() as u16)
    }

    /// Adds a text and gives back its position.
    pub fn add_utf8(&mut self, value: &str) -> (r: Result<u16, KujavError>)
        requires
            old(self).wf(),
        ensures
            final(self).wf(),
            add_outcome(old(self)@, ConstantModel::Utf8(value@), final(self)@, r),
    {
        self.add(Constant::Utf8(String::from_str(value)))
    }

    /// Adds a number of 32 signed bits and gives back its position.
    pub fn add_integer(&mut self, value: i32) -> (r: Result<u16, KujavError>)
        requires
            old(self).wf(),
        ensures
            final(self).wf(),
            add_outcome(old(self)@, ConstantModel::Integer(value as int), final(self)@, r),
    {
        self.add(Constant::Integer(value))
    }

    /// Adds the class whose name is the text at `name_idx` and gives back
    /// its position.
    pub fn add_class(&mut self, name_idx: u16) -> (r: Result<u16, KujavError>)
        requires
            old(self).wf(),
        ensures
            final(self).wf(),
            add_outcome(old(self)@, ConstantModel::Class(name_idx as int), final(self)@, r),
    {
        self.add(Constant::Class(name_idx))
    }

    /// Adds the string constant whose text is at `utf8_idx` and gives back
    /// its position.
    pub fn add_string(&mut self, utf8_idx: u16) -> (r: Result<u16, KujavError>)
        requires
            old(self).wf(),
        ensures
            final(self).wf(),
            add_outcome(old(self)@, ConstantModel::Text(utf8_idx as int), final(self)@, r),
    {
        self.add(Constant::String(utf8_idx))
    }

    /// Adds the pair of the name at `name_idx` and the descriptor at
    /// `type_idx` and gives back its position.
    pub fn add_name_and_type(&mut self, name_idx: u16, type_idx: u16) -> (r: Result<
        u16,
        KujavError,
    >)
        requires
            old(self).wf(),
        ensures
            final(self).wf(),
            add_outcome(
                old(self)@,
                ConstantModel::NameAndType {
                    name_index: name_idx as int,
                    type_index: type_idx as int,
                },
                final(self)@,
                r,
            ),
    {
        self.add(Constant::NameAndType { name_index: name_idx, type_index: type_idx })
    }

    /// Adds the field of the class at `class_idx` that the pair at `nt_idx`
    /// names, and gives back its position.
    pub fn add_field_ref(&mut self, class_idx: u16, nt_idx: u16) -> (r: Result<u16, KujavError>)
        requires
            old(self).wf(),
        ensures
            final(self).wf(),
            add_outcome(
                old(self)@,
                ConstantModel::FieldRef {
                    class_index: class_idx as int,
                    name_and_type_index: nt_idx as int,
                },
                final(self)@,
                r,
            ),
    {
        self.add(Constant::FieldRef { class_index: class_idx, name_and_type_index: nt_idx })
    }

    /// Adds the method of the class at `class_idx` that the pair at
    /// `nt_idx` names, and gives back its position.
    pub fn add_method_ref(&mut self, class_idx: u16, nt_idx: u16) -> (r: Result<u16, KujavError>)
        requires
            old(self).wf(),
        ensures
            final(self).wf(),
            add_outcome(
                old(self)@,
                ConstantModel::MethodRef {
                    class_index: class_idx as int,
                    name_and_type_index: nt_idx as int,
                },
                final(self)@,
                r,
            ),
    {
        self.add(Constant::MethodRef { class_index: class_idx, name_and_type_index: nt_idx })
    }

    /// Drops every entry after the first `len`.
    pub fn truncate(&mut self, len: usize)
        requires
            old(self).wf(),
        ensures
            final(self).wf(),
            final(self)@ == if len <= old(self)@.len() {
                old(self)@.take(len as int)
            } else {
                old(self)@
            },
    {
        self.entries.truncate(len);
        assert(self@ =~= if len <= old(self)@.len() {
            old(self)@.take(len as int)
        } else {
            old(self)@
        });
    }

    /// The pool as it stands in a class file.
    pub fn to_bytes(&self) -> (bytes: Vec<u8>)
        requires
            self.wf(),
        ensures
            bytes@ == pool_bytes(self@),
    {
        let mut bytes: Vec<u8> = Vec::new();
        push_be16(&mut bytes, (self.entries.len() + 1) as u16);
        let mut i: usize = 0;
        while i < self.entries.len()
            invariant
                i <= self.entries.len(),
                self.entries@.len() <= MAX_ENTRIES,
                forall|k: int|
                    0 <= k < self.entries@.len() ==> writable(#[trigger] self.entries@[k]@),
                bytes@ == be16(self@.len() as int + 1) + entries_bytes(self@.take(i as int)),
            decreases self.entries.len() - i,
        {
            let ghost before = bytes@;
            assert(writable(self.entries@[i as int]@));
            match &self.entries[i] {
                Constant::Utf8(s) => {
                    bytes.push(1);
                    let text = s.as_str().as_bytes();
                    push_be16(&mut bytes, text.len() as u16);
                    push_bytes(&mut bytes, text);
                },
                Constant::Integer(v) => {
                    bytes.push(3);
                    let raw: u32 = if *v >= 0 {
                        *v as u32
                    } else {
                        (*v + 2147483647 + 1) as u32 + 2147483648u32
                    };
                    push_be32(&mut bytes, raw);
                },
                Constant::Class(index) => {
                    bytes.push(7);
                    push_be16(&mut bytes, *index);
                },
                Constant::String(index) => {
                    bytes.push(8);
                    push_be16(&mut bytes, *index);
                },
                Constant::FieldRef { class_index, name_and_type_index } => {
                    bytes.push(9);
                    push_be16(&mut bytes, *class_index);
                    push_be16(&mut bytes, *name_and_type_index);
                },
                Constant::MethodRef { class_index, name_and_type_index } => {
                    bytes.push(10);
                    push_be16(&mut bytes, *class_index);
                    push_be16(&mut bytes, *name_and_type_index);
                },
                Constant::NameAndType { name_index, type_index } => {
                    bytes.push(12);
                    push_be16(&mut bytes, *name_index);
                    push_be16(&mut bytes, *type_index);
                },
            }
            proof {
                let upto = self@.take(i as int + 1);
                assert(upto.drop_last() =~= self@.take(i as int));
                assert(upto.last() == self.entries@[i as int]@);
                assert(bytes@ =~= before + constant_bytes(self.entries@[i as int]@));
            }
            i += 1;
        }
        assert(self@.take(self.entries.len() as int) =~= self@);
        bytes
    }
}

/// Adding the same text twice gives two entries at consecutive positions:
/// the pool never shares an entry between two requests.
pub proof fn lemma_never_deduplicated(pool: Seq<ConstantModel>, text: Seq<char>)
    requires
        pool.len() + 2 <= MAX_ENTRIES,
        writable(ConstantModel::Utf8(text)),
    ensures
        added(pool, ConstantModel::Utf8(text)) matches Ok((once, first)) && (added(
            once,
            ConstantModel::Utf8(text),
        ) matches Ok((twice, second)) && {
            &&& first == pool.len() + 1
            &&& second == first + 1
            &&& twice == pool.push(ConstantModel::Utf8(text)).push(ConstantModel::Utf8(text))
        }),
{
}

} // verus!
