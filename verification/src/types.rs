//! The types a Kujav value can have, and their JVM descriptors.
use vstd::prelude::*;
use vstd::string::*;
use crate::text::{chars_of, push_char};

verus! {

/// The static type of a value.
#[derive(Debug)]
pub enum KType {
    Int,
    String,
    Bool,
    Void,
    Array(Box<KType>),
    /// A class of the target runtime, by its dotted name.
    Custom(String),
}

/// A type as a mathematical value.
pub enum TypeModel {
    Int,
    Text,
    Bool,
    Void,
    Array(Box<TypeModel>),
    Custom(Seq<char>),
}

/// The mathematical value of a type.
pub open spec fn type_model(t: KType) -> TypeModel
    decreases t,
{
    match t {
        KType::Int => TypeModel::Int,
        KType::String => TypeModel::Text,
        KType::Bool => TypeModel::Bool,
        KType::Void => TypeModel::Void,
        KType::Array(inner) => TypeModel::Array(Box::new(type_model(*inner))),
        KType::Custom(name) => TypeModel::Custom(name@),
    }
}

impl View for KType {
    type V = TypeModel;

    open spec fn view(&self) -> TypeModel {
        type_model(*self)
    }
}

/// Whether values of the type are held by reference on the target runtime.
pub open spec fn is_reference_type(t: TypeModel) -> bool {
    t is Text || t is Array || t is Custom
}

/// A dotted class name with every dot turned into a slash.
pub open spec fn slashed(name: Seq<char>) -> Seq<char> {
    Seq::new(name.len(), |i: int| if name[i] == '.' { '/' } else { name[i] })
}

/// The JVM descriptor of a type.
pub open spec fn descriptor(t: TypeModel) -> Seq<char>
    decreases t,
{
    match t {
        TypeModel::Int => "I"@,
        TypeModel::Text => "Ljava/lang/String;"@,
        TypeModel::Bool => "Z"@,
        TypeModel::Void => "V"@,
        TypeModel::Array(inner) => "["@ + descriptor(*inner),
        TypeModel::Custom(name) => "L"@ + slashed(name) + ";"@,
    }
}

impl KType {
    /// Whether values of the type are held by reference on the target
    /// runtime.
    pub fn is_reference(&self) -> (r: bool)
        ensures
            r == is_reference_type(self@),
    {
        match self {
            KType::String | KType::Array(_) | KType::Custom(_) => true,
            _ => false,
        }
    }

    /// The JVM descriptor of the type.
    pub fn to_jvm_sig(&self) -> (sig: String)
        ensures
            sig@ == descriptor(self@),
        decreases self,
    {
        match self {
            KType::Int => String::from_str("I"),
            KType::String => String::from_str("Ljava/lang/String;"),
            KType::Bool => String::from_str("Z"),
            KType::Void => String::from_str("V"),
            KType::Array(inner) => {
                let rest = inner.to_jvm_sig();
                let mut sig = String::from_str("[");
                sig.append(rest.as_str());
                sig
            },
            KType::Custom(name) => {
                let cs = chars_of(name.as_str());
                let mut sig = String::from_str("L");
                let mut i: usize = 0;
                while i < cs.len()
                    invariant
                        i <= cs.len(),
                        cs@ == name@,
                        sig@ == "L"@ + slashed(name@).take(i as int),
                    decreases cs.len() - i,
                {
                    let c = cs[i];
                    push_char(&mut sig, if c == '.' { '/' } else { c });
                    assert(slashed(name@).take(i as int + 1) =~= slashed(name@).take(
                        i as int,
                    ).push(slashed(name@)[i as int]));
                    assert(sig@ =~= "L"@ + slashed(name@).take(i as int + 1));
                    i += 1;
                }
                assert(slashed(name@).take(cs.len() as int) =~= slashed(name@));
                sig.append(";");
                sig
            },
        }
    }

    /// Whether two types are the same type.
    pub fn same(&self, other: &KType) -> (r: bool)
        ensures
            r == (self@ == other@),
        decreases self,
    {
        match (self, other) {
            (KType::Int, KType::Int) => true,
            (KType::String, KType::String) => true,
            (KType::Bool, KType::Bool) => true,
            (KType::Void, KType::Void) => true,
            (KType::Array(a), KType::Array(b)) => a.same(b),
            (KType::Custom(a), KType::Custom(b)) => *a == *b,
            _ => false,
        }
    }
}

impl Clone for KType {
    fn clone(&self) -> (r: KType)
        ensures
            r@ == self@,
        decreases self,
    {
        match self {
            KType::Int => KType::Int,
            KType::String => KType::String,
            KType::Bool => KType::Bool,
            KType::Void => KType::Void,
            KType::Array(inner) => KType::Array(Box::new((**inner).clone())),
            KType::Custom(name) => KType::Custom(name.clone()),
        }
    }
}

impl PartialEq for KType {
    fn eq(&self, other: &KType) -> (r: bool) {
        self.same(other)
    }
}

impl vstd::std_specs::cmp::PartialEqSpecImpl for KType {
    open spec fn obeys_eq_spec() -> bool {
        true
    }

    open spec fn eq_spec(&self, other: &KType) -> bool {
        self@ == other@
    }
}

} // verus!
