use kujav::errors::{ErrorKind, KujavError};
use kujav::types::KType;

#[test]
fn constructors_set_kind_and_message() {
    assert!(matches!(KujavError::syntax("a"), KujavError::Syntax(m) if m == "a"));
    assert!(matches!(KujavError::semantic("b"), KujavError::Semantic(m) if m == "b"));
    assert!(matches!(KujavError::type_error("c"), KujavError::Type(m) if m == "c"));
    assert!(matches!(KujavError::dependency("d"), KujavError::Dependency(m) if m == "d"));
    assert!(matches!(KujavError::bytecode("e"), KujavError::Bytecode(m) if m == "e"));
    assert!(matches!(KujavError::io("f"), KujavError::Io(m) if m == "f"));
    assert!(matches!(KujavError::toml("g"), KujavError::Toml(m) if m == "g"));
}

#[test]
fn kind_and_message_read_back() {
    let e = KujavError::type_error("condition must be Bool");
    assert_eq!(e.kind(), ErrorKind::Type);
    assert_eq!(e.message(), "condition must be Bool");
}

#[test]
fn render_shows_kind_then_message() {
    assert_eq!(KujavError::syntax("m").render(), "Error[SyntaxError]:\nm");
    assert_eq!(KujavError::semantic("m").render(), "Error[SemanticError]:\nm");
    assert_eq!(KujavError::type_error("m").render(), "Error[TypeError]:\nm");
    assert_eq!(KujavError::dependency("m").render(), "Error[DependencyError]:\nm");
    assert_eq!(KujavError::bytecode("m").render(), "Error[BytecodeError]:\nm");
    assert_eq!(KujavError::io("m").render(), "Error[IoError]:\nm");
    assert_eq!(KujavError::toml("m").render(), "Error[TomlError]:\nm");
}

#[test]
fn reference_types() {
    assert!(!KType::Int.is_reference());
    assert!(!KType::Bool.is_reference());
    assert!(!KType::Void.is_reference());
    assert!(KType::String.is_reference());
    assert!(KType::Array(Box::new(KType::Int)).is_reference());
    assert!(KType::Custom("java.util.ArrayList".to_string()).is_reference());
}

#[test]
fn descriptors() {
    assert_eq!(KType::Int.to_jvm_sig(), "I");
    assert_eq!(KType::String.to_jvm_sig(), "Ljava/lang/String;");
    assert_eq!(KType::Bool.to_jvm_sig(), "Z");
    assert_eq!(KType::Void.to_jvm_sig(), "V");
    assert_eq!(KType::Array(Box::new(KType::Int)).to_jvm_sig(), "[I");
    assert_eq!(
        KType::Array(Box::new(KType::Array(Box::new(KType::String)))).to_jvm_sig(),
        "[[Ljava/lang/String;"
    );
    assert_eq!(
        KType::Custom("java.util.ArrayList".to_string()).to_jvm_sig(),
        "Ljava/util/ArrayList;"
    );
}

#[test]
fn type_equality() {
    assert!(KType::Int == KType::Int);
    assert!(KType::Int != KType::Bool);
    assert!(KType::Array(Box::new(KType::Int)) == KType::Array(Box::new(KType::Int)));
    assert!(KType::Array(Box::new(KType::Int)) != KType::Array(Box::new(KType::String)));
    assert!(KType::Custom("a.B".to_string()) == KType::Custom("a.B".to_string()));
    assert!(KType::Custom("a.B".to_string()) != KType::Custom("a.C".to_string()));
    assert!(KType::Array(Box::new(KType::Int)).same(&KType::Array(Box::new(KType::Int))));
    let nested = KType::Array(Box::new(KType::Custom("x.Y".to_string())));
    assert!(nested.clone() == nested);
}
