use amalgam::discovery::{ModuleStructure, VersionOrder};
use amalgam::fqn::{Fqn, FqnError};
use amalgam::naming::{snake_to_camel_case, snake_to_pascal_case, to_camel_case, to_pascal_case};

#[test]
fn test_is_version_dir() {
    assert!(ModuleStructure::is_version_dir("v1"));
    assert!(ModuleStructure::is_version_dir("v2"));
    assert!(ModuleStructure::is_version_dir("v10"));
    assert!(ModuleStructure::is_version_dir("v1alpha1"));
    assert!(ModuleStructure::is_version_dir("v1alpha"));
    assert!(ModuleStructure::is_version_dir("v1beta1"));
    assert!(ModuleStructure::is_version_dir("v1beta2"));
    assert!(ModuleStructure::is_version_dir("v2alpha1"));

    assert!(!ModuleStructure::is_version_dir("v"));
    assert!(!ModuleStructure::is_version_dir("version1"));
    assert!(!ModuleStructure::is_version_dir("1"));
    assert!(!ModuleStructure::is_version_dir("v1gamma"));
    assert!(!ModuleStructure::is_version_dir("v1alphabeta"));
    assert!(!ModuleStructure::is_version_dir("resource"));
    assert!(!ModuleStructure::is_version_dir("core"));
}

#[test]
fn test_version_comparison() {

    assert_eq!(ModuleStructure::compare_versions("v1alpha1", "v1alpha2"), VersionOrder::Less);
    assert_eq!(ModuleStructure::compare_versions("v1alpha1", "v1beta1"), VersionOrder::Less);
    assert_eq!(ModuleStructure::compare_versions("v1beta1", "v1"), VersionOrder::Less);
    assert_eq!(ModuleStructure::compare_versions("v1", "v2"), VersionOrder::Less);
    assert_eq!(ModuleStructure::compare_versions("v2alpha1", "v1"), VersionOrder::Greater);
    assert_eq!(ModuleStructure::compare_versions("v1", "v1"), VersionOrder::Equal);
}

#[test]
fn test_get_latest_version() {
    let mut structure = ModuleStructure {
        has_namespaces: false,
        has_versions: true,
        namespaces: vec![],
        versions: vec![
            "v1alpha1".to_string(),
            "v1beta1".to_string(),
            "v1".to_string(),
            "v2alpha1".to_string(),
        ],
        type_depth: 1,
    };

    assert_eq!(structure.get_latest_version(), Some("v2alpha1".to_string()));

    structure.versions.push("v2".to_string());
    assert_eq!(structure.get_latest_version(), Some("v2".to_string()));
}

#[test]
fn compare_versions_reversed_gives_reverse_answer() {
    let names = ["v1alpha1", "v1beta2", "v1", "v2", "v2alpha3", "resource", "v10"];
    for a in names.iter() {
        for b in names.iter() {
            let ab = ModuleStructure::compare_versions(a, b);
            let ba = ModuleStructure::compare_versions(b, a);
            let expected = match ab {
                VersionOrder::Less => VersionOrder::Greater,
                VersionOrder::Equal => VersionOrder::Equal,
                VersionOrder::Greater => VersionOrder::Less,
            };
            assert_eq!(ba, expected);
        }
    }
}

#[test]
fn test_parse_k8s_legacy_format() {
    let fqn = Fqn::parse("io.k8s.api.core.v1.Pod").unwrap();
    assert_eq!(fqn.type_name_str(), "Pod");
    assert_eq!(fqn.module(), "io.k8s.api.core.v1");
    assert_eq!(fqn.group(), "io.k8s.api.core");
    assert_eq!(fqn.version(), "v1");
    assert_eq!(fqn.domain(), "k8s.io");
    assert_eq!(fqn.namespace(), "api.core");
    assert!(fqn.is_k8s());
    assert_eq!(fqn.k8s_api_group(), Some("core"));
}

#[test]
fn test_parse_k8s_short_format() {
    let fqn = Fqn::parse("k8s.io.v1.ObjectMeta").unwrap();
    assert_eq!(fqn.type_name_str(), "ObjectMeta");
    assert_eq!(fqn.version(), "v1");
    assert_eq!(fqn.domain(), "k8s.io");
    assert!(fqn.is_k8s());
}

#[test]
fn test_parse_k8s_apps() {
    let fqn = Fqn::parse("io.k8s.api.apps.v1.Deployment").unwrap();
    assert_eq!(fqn.type_name_str(), "Deployment");
    assert_eq!(fqn.version(), "v1");
    assert_eq!(fqn.k8s_api_group(), Some("apps"));
}

#[test]
fn test_parse_k8s_apimachinery() {
    let fqn = Fqn::parse("io.k8s.apimachinery.pkg.apis.meta.v1.ObjectMeta").unwrap();
    assert_eq!(fqn.type_name_str(), "ObjectMeta");
    assert_eq!(fqn.version(), "v1");
    assert_eq!(fqn.domain(), "k8s.io");
}

#[test]
fn test_parse_crossplane() {
    let fqn = Fqn::parse("apiextensions.crossplane.io.v1.Composition").unwrap();
    assert_eq!(fqn.type_name_str(), "Composition");
    assert_eq!(fqn.version(), "v1");
    assert_eq!(fqn.domain(), "crossplane.io");
    assert_eq!(fqn.namespace(), "apiextensions");
    assert!(fqn.is_crossplane());
}

#[test]
fn test_parse_alpha_version() {
    let fqn = Fqn::parse("io.k8s.api.batch.v1beta1.CronJob").unwrap();
    assert_eq!(fqn.type_name_str(), "CronJob");
    assert_eq!(fqn.version(), "v1beta1");
}

#[test]
fn test_parse_empty() {
    assert!(matches!(Fqn::parse(""), Err(FqnError::Empty)));
}

#[test]
fn test_parse_single_word() {
    let fqn = Fqn::parse("Pod").unwrap();
    assert_eq!(fqn.type_name_str(), "Pod");
    assert_eq!(fqn.version(), "v1");
}

#[test]
fn test_is_version() {
    assert!(Fqn::is_version("v1"));
    assert!(Fqn::is_version("v1alpha1"));
    assert!(Fqn::is_version("v1beta1"));
    assert!(Fqn::is_version("v0"));
    assert!(Fqn::is_version("v2"));
    assert!(!Fqn::is_version(""));
    assert!(!Fqn::is_version("version"));
    assert!(!Fqn::is_version("Pod"));
}

#[test]
fn test_normalize() {
    let fqn = Fqn::parse("io.k8s.api.core.v1.Pod").unwrap();
    let normalized = fqn.normalize();
    assert!(normalized.original().starts_with("k8s.io"));
    assert_eq!(normalized.type_name_str(), "Pod");
}

#[test]
fn test_with_type_name() {
    let fqn = Fqn::parse("io.k8s.api.core.v1.Pod").unwrap();
    let new_fqn = fqn.with_type_name("Service");
    assert_eq!(new_fqn.type_name_str(), "Service");
    assert_eq!(new_fqn.module(), fqn.module());
}

#[test]
fn test_display() {
    let fqn = Fqn::parse("io.k8s.api.core.v1.Pod").unwrap();
    assert_eq!(fqn.to_string(), "io.k8s.api.core.v1.Pod");
}

#[test]
fn test_to_pascal_case() {
    assert_eq!(to_pascal_case(""), "");
    assert_eq!(to_pascal_case("pod"), "Pod");
    assert_eq!(to_pascal_case("Pod"), "Pod");
    assert_eq!(to_pascal_case("namespace"), "Namespace");

    assert_eq!(to_pascal_case("ObjectMeta"), "ObjectMeta");
    assert_eq!(to_pascal_case("CELDeviceSelector"), "CELDeviceSelector");
    assert_eq!(to_pascal_case("PodSpec"), "PodSpec");
    assert_eq!(to_pascal_case("ManagedFieldsEntry"), "ManagedFieldsEntry");
    assert_eq!(to_pascal_case("RawExtension"), "RawExtension");
    assert_eq!(to_pascal_case("IntOrString"), "IntOrString");
    assert_eq!(to_pascal_case("CSIDriver"), "CSIDriver");
    assert_eq!(to_pascal_case("HTTPProxy"), "HTTPProxy");
    assert_eq!(to_pascal_case("DNSConfig"), "DNSConfig");

    assert_eq!(to_pascal_case("objectmeta"), "Objectmeta");
    assert_eq!(to_pascal_case("celdeviceselector"), "Celdeviceselector");
    assert_eq!(to_pascal_case("podspec"), "Podspec");
    assert_eq!(to_pascal_case("managedfieldsentry"), "Managedfieldsentry");
}

#[test]
fn test_to_camel_case() {
    assert_eq!(to_camel_case(""), "");
    assert_eq!(to_camel_case("Pod"), "pod");
    assert_eq!(to_camel_case("pod"), "pod");
    assert_eq!(to_camel_case("ObjectMeta"), "objectMeta");
    assert_eq!(to_camel_case("objectMeta"), "objectMeta");
    assert_eq!(to_camel_case("CELDeviceSelector"), "cELDeviceSelector");
}

#[test]
fn test_snake_to_pascal_case() {
    assert_eq!(snake_to_pascal_case(""), "");
    assert_eq!(snake_to_pascal_case("pod"), "Pod");
    assert_eq!(snake_to_pascal_case("object_meta"), "ObjectMeta");
    assert_eq!(snake_to_pascal_case("pod_spec"), "PodSpec");
    assert_eq!(snake_to_pascal_case("managed_fields_entry"), "ManagedFieldsEntry");
}

#[test]
fn test_snake_to_camel_case() {
    assert_eq!(snake_to_camel_case(""), "");
    assert_eq!(snake_to_camel_case("pod"), "pod");
    assert_eq!(snake_to_camel_case("object_meta"), "objectMeta");
    assert_eq!(snake_to_camel_case("pod_spec"), "podSpec");
    assert_eq!(snake_to_camel_case("managed_fields_entry"), "managedFieldsEntry");
}

#[test]
fn lowercase_first_letter_of_non_ascii() {
    assert_eq!(to_camel_case("Éclair"), "éclair");
    assert_eq!(to_pascal_case("éclair"), "Éclair");
}
