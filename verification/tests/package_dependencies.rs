use amalgam::ir::TypeDefinition;
use amalgam::types::{Field, Type};
use amalgam::walkers::PackageWalkerAdapter;

fn definition(name: &str, ty: Type) -> TypeDefinition {
    TypeDefinition { name: name.to_string(), ty, documentation: None, annotations: vec![] }
}

fn reference(name: &str, module: Option<&str>) -> Type {
    Type::Reference { name: name.to_string(), module: module.map(|m| m.to_string()) }
}

fn field(ty: Type) -> Field {
    Field { ty, required: false, description: None, default: None, validation: None, contracts: vec![] }
}

#[test]
fn dependency_targets_follow_the_reference_modules() {
    assert_eq!(
        PackageWalkerAdapter::dependency_target("example.com.v1.Foo", "Bar", &None),
        "example.com.v1.bar"
    );
    assert_eq!(
        PackageWalkerAdapter::dependency_target("example.com.v1.Foo", "ObjectMeta", &Some("k8s.io.v1".to_string())),
        "k8s.io.v1.objectmeta"
    );
    assert_eq!(
        PackageWalkerAdapter::dependency_target("example.com.v1.Foo", "Pod", &Some("io.k8s.api.core.v1.Pod".to_string())),
        "io.k8s.api.core.v1.pod"
    );
    assert_eq!(PackageWalkerAdapter::dependency_target("Foo", "Bar", &None), ".bar");
}

#[test]
fn dependencies_keep_registered_kubernetes_and_same_module_targets() {
    let foo = Type::Record {
        fields: vec![
            ("bar".to_string(), field(reference("Bar", None))),
            ("meta".to_string(), field(Type::Optional(Box::new(reference("ObjectMeta", Some("k8s.io.v1")))))),
            ("other".to_string(), field(Type::Array(Box::new(reference("X", Some("other.org.v1")))))),
            ("pod".to_string(), field(reference("Pod", Some("io.k8s.api.core.v1.Pod")))),
        ],
        open: false,
    };
    let types = vec![
        ("example.com.v1.Foo".to_string(), definition("Foo", foo)),
        ("example.com.v1.Bar".to_string(), definition("Bar", Type::String)),
        ("other.org.v1.x".to_string(), definition("x", reference("Foo", Some("example.com.v1")))),
    ];
    let edges = PackageWalkerAdapter::build_dependencies(&types);
    assert_eq!(
        edges,
        vec![
            ("example.com.v1.Foo".to_string(), "example.com.v1.bar".to_string()),
            ("example.com.v1.Foo".to_string(), "k8s.io.v1.objectmeta".to_string()),
            ("example.com.v1.Foo".to_string(), "other.org.v1.x".to_string()),
            ("example.com.v1.Foo".to_string(), "io.k8s.api.core.v1.pod".to_string()),
        ]
    );
}
