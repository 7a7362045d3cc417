//! Authoritative Kubernetes type information: Go package paths mapped to
//! type references, and the common field-path to Go-type patterns.

use vstd::prelude::*;
use vstd::string::StringExecFns;
use crate::imports::TypeReference;
use crate::types::{Type, TypeView};
use crate::lookup::{find_key, keys_of, last_index_of, lemma_last_index_of};
use crate::text::{concat, is_prefix, join_spec, push_char, starts_with, str_eq, strip_prefix, to_owned_string};

verus! {

broadcast use vstd::string::group_string_axioms;

/// The Kubernetes type a CRD field of this name and type stands for: an
/// empty record named `metadata` is `ObjectMeta`.
pub open spec fn field_replacement_spec(field_name: Seq<char>, t: TypeView) -> Option<Seq<char>> {
    if field_name == "metadata"@ && (t matches TypeView::Record { fields, open: _ } && fields.len() == 0) {
        Some("k8s.io/apimachinery/pkg/apis/meta/v1.ObjectMeta"@)
    } else {
        None
    }
}

/// The Kubernetes type a field stands for, by its name, its type's shape
/// and the field that contains it.
pub open spec fn contextual_replacement_spec(field_name: Seq<char>, t: TypeView, parent: Option<Seq<char>>) -> Option<Seq<char>> {
    let is_array = t is Array;
    let is_record = t is Record;
    let in_spec = parent == Some("spec"@);
    if field_name == "metadata"@ && (t matches TypeView::Record { fields, open: _ } && fields.len() == 0) {
        Some("k8s.io/apimachinery/pkg/apis/meta/v1.ObjectMeta"@)
    } else if field_name == "volumes"@ && in_spec && is_array {
        Some("[]k8s.io/api/core/v1.Volume"@)
    } else if field_name == "volumeMounts"@ && is_array {
        Some("[]k8s.io/api/core/v1.VolumeMount"@)
    } else if field_name == "containers"@ && in_spec && is_array {
        Some("[]k8s.io/api/core/v1.Container"@)
    } else if field_name == "initContainers"@ && in_spec && is_array {
        Some("[]k8s.io/api/core/v1.Container"@)
    } else if field_name == "resources"@ && is_record {
        Some("k8s.io/api/core/v1.ResourceRequirements"@)
    } else if field_name == "selector"@ && is_record {
        Some("k8s.io/apimachinery/pkg/apis/meta/v1.LabelSelector"@)
    } else if field_name == "env"@ && is_array {
        Some("[]k8s.io/api/core/v1.EnvVar"@)
    } else if field_name == "envFrom"@ && is_array {
        Some("[]k8s.io/api/core/v1.EnvFromSource"@)
    } else if field_name == "affinity"@ && is_record {
        Some("k8s.io/api/core/v1.Affinity"@)
    } else if field_name == "tolerations"@ && is_array {
        Some("[]k8s.io/api/core/v1.Toleration"@)
    } else if field_name == "nodeSelector"@ && t is Mapping {
        Some("map[string]string"@)
    } else if field_name == "securityContext"@ && is_record {
        Some("k8s.io/api/core/v1.SecurityContext"@)
    } else if field_name == "podSecurityContext"@ && is_record {
        Some("k8s.io/api/core/v1.PodSecurityContext"@)
    } else {
        None
    }
}

fn some_str(s: &str) -> (r: Option<String>)
    ensures
        r matches Some(x) && x@ == s@,
{
    Some(to_owned_string(s))
}

/// The value of an optional string.
pub open spec fn opt_str_view(o: Option<String>) -> Option<Seq<char>> {
    match o {
        Some(s) => Some(s@),
        None => None,
    }
}

/// What the library reads of a Go type parsed from the Kubernetes sources.
#[derive(Debug, Clone)]
pub struct GoTypeInfo {
    /// The type's name (e.g. `ObjectMeta`).
    pub name: String,
    /// The Go package path (e.g. `k8s.io/api/core/v1`).
    pub package_path: String,
    /// The type's documentation, if any.
    pub documentation: Option<String>,
}

/// The type reference for a Go type in one of the known Kubernetes
/// packages: core and meta types belong to `k8s.io`, apps and networking
/// types to `apps.k8s.io` and `networking.k8s.io`; the version is the rest
/// of the package path.
pub open spec fn go_type_ref_spec(package_path: Seq<char>, name: Seq<char>) -> Option<(Seq<char>, Seq<char>, Seq<char>)> {
    if is_prefix("k8s.io/api/core/"@, package_path) {
        Some(("k8s.io"@, package_path.skip("k8s.io/api/core/"@.len() as int), name))
    } else if is_prefix("k8s.io/apimachinery/pkg/apis/meta/"@, package_path) {
        Some(("k8s.io"@, package_path.skip("k8s.io/apimachinery/pkg/apis/meta/"@.len() as int), name))
    } else if is_prefix("k8s.io/api/apps/"@, package_path) {
        Some(("apps.k8s.io"@, package_path.skip("k8s.io/api/apps/"@.len() as int), name))
    } else if is_prefix("k8s.io/api/networking/"@, package_path) {
        Some(("networking.k8s.io"@, package_path.skip("k8s.io/api/networking/"@.len() as int), name))
    } else {
        None
    }
}

/// The mapping built from the first `k` Go types: each that has a type
/// reference, under its qualified name, in order.
pub open spec fn mapping_upto(go_types: Seq<(String, GoTypeInfo)>, k: int) -> Seq<(Seq<char>, (Seq<char>, Seq<char>, Seq<char>))>
    decreases k,
{
    if k <= 0 {
        Seq::empty()
    } else {
        let prev = mapping_upto(go_types, k - 1);
        let e = go_types[k - 1];
        match go_type_ref_spec(e.1.package_path@, e.1.name@) {
            Some(r) => prev.push((e.0@, r)),
            None => prev,
        }
    }
}

/// Authoritative source for Kubernetes type definitions.
pub struct K8sAuthoritativeTypes {
    /// Parsed Go types by qualified name.
    go_types: Vec<(String, GoTypeInfo)>,
    /// Type references by qualified Go name.
    type_mapping: Vec<(String, TypeReference)>,
}

impl K8sAuthoritativeTypes {
    /// The parsed Go types, by qualified name.
    pub closed spec fn go_type_table(&self) -> Seq<(String, GoTypeInfo)> {
        self.go_types@
    }

    /// The type references, by qualified name.
    pub closed spec fn reference_table(&self) -> Seq<(Seq<char>, (Seq<char>, Seq<char>, Seq<char>))> {
        self.type_mapping@.map_values(|e: (String, TypeReference)| (e.0@, e.1@))
    }

    /// No Go types and no references.
    pub fn new() -> (r: K8sAuthoritativeTypes)
        ensures
            r.go_type_table().len() == 0,
            r.reference_table().len() == 0,
    {
        let r = K8sAuthoritativeTypes { go_types: Vec::new(), type_mapping: Vec::new() };
        assert(r.reference_table() =~= Seq::<(Seq<char>, (Seq<char>, Seq<char>, Seq<char>))>::empty());
        r
    }

    /// Take the parsed Go types (one entry per qualified name) and build the
    /// reference mapping from them.
    pub fn initialize_from(&mut self, go_types: Vec<(String, GoTypeInfo)>)
        requires
            keys_of(go_types@).no_duplicates(),
        ensures
            final(self).go_type_table() == go_types@,
            final(self).reference_table() == mapping_upto(go_types@, go_types@.len() as int),
    {
        self.go_types = go_types;
        self.build_type_mapping();
    }

    /// Build the mapping from qualified Go names to type references.
    fn build_type_mapping(&mut self)
        ensures
            final(self).go_type_table() == old(self).go_type_table(),
            final(self).reference_table() == mapping_upto(old(self).go_type_table(), old(self).go_type_table().len() as int),
    {
        let mut mapping: Vec<(String, TypeReference)> = Vec::new();
        let mut i: usize = 0;
        while i < self.go_types.len()
            invariant
                i <= self.go_types.len(),
                mapping@.map_values(|e: (String, TypeReference)| (e.0@, e.1@)) == mapping_upto(self.go_types@, i as int),
            decreases self.go_types.len() - i,
        {
            let (qualified_name, info) = &self.go_types[i];
            let ghost m0 = mapping@;
            match self.go_qualified_name_to_type_ref(qualified_name.as_str(), info) {
                Some(r) => {
                    let key = qualified_name.clone();
                    let ghost kv = (key@, r@);
                    mapping.push((key, r));
                    assert(mapping@.map_values(|e: (String, TypeReference)| (e.0@, e.1@)) =~= m0.map_values(
                        |e: (String, TypeReference)| (e.0@, e.1@),
                    ).push(kv));
                },
                None => {},
            }
            i = i + 1;
        }
        self.type_mapping = mapping;
    }

    /// The type reference for a Go type, from its package path and name.
    fn go_qualified_name_to_type_ref(&self, qualified_name: &str, type_info: &GoTypeInfo) -> (r: Option<TypeReference>)
        ensures
            match r {
                Some(t) => go_type_ref_spec(type_info.package_path@, type_info.name@) == Some(t@),
                None => go_type_ref_spec(type_info.package_path@, type_info.name@) is None,
            },
    {
        let path = type_info.package_path.as_str();
        if let Some(version) = strip_prefix(path, "k8s.io/api/core/") {
            return Some(TypeReference::new(to_owned_string("k8s.io"), version, type_info.name.clone()));
        }
        if let Some(version) = strip_prefix(path, "k8s.io/apimachinery/pkg/apis/meta/") {
            return Some(TypeReference::new(to_owned_string("k8s.io"), version, type_info.name.clone()));
        }
        if let Some(version) = strip_prefix(path, "k8s.io/api/apps/") {
            return Some(TypeReference::new(to_owned_string("apps.k8s.io"), version, type_info.name.clone()));
        }
        if let Some(version) = strip_prefix(path, "k8s.io/api/networking/") {
            return Some(
                TypeReference::new(to_owned_string("networking.k8s.io"), version, type_info.name.clone()),
            );
        }
        None
    }

    /// The Kubernetes type a CRD field stands for, if known.
    pub fn should_replace_field(&self, field_name: &str, current_type: &Type) -> (r: Option<String>)
        ensures
            opt_str_view(r) == field_replacement_spec(field_name@, current_type@),
    {
        let empty_record = match current_type {
            Type::Record { fields, open: _ } => fields.len() == 0,
            _ => false,
        };
        if str_eq(field_name, "metadata") && empty_record {
            proof {
                crate::types::lemma_fields_view(current_type->Record_fields@);
            }
            return some_str("k8s.io/apimachinery/pkg/apis/meta/v1.ObjectMeta");
        }
        proof {
            if let Type::Record { fields, open: _ } = current_type {
                crate::types::lemma_fields_view(fields@);
            }
        }
        None
    }

    /// The Kubernetes type a field stands for, judging by its name, its
    /// type's shape and the field that contains it.
    pub fn get_field_replacements(&self, field_name: &str, current_type: &Type, parent_context: Option<&str>) -> (r: Option<String>)
        ensures
            opt_str_view(r) == contextual_replacement_spec(
                field_name@,
                current_type@,
                match parent_context {
                    Some(p) => Some(p@),
                    None => None,
                },
            ),
    {
        proof {
            if let Type::Record { fields, open: _ } = current_type {
                crate::types::lemma_fields_view(fields@);
            }
        }
        let is_array = matches!(current_type, Type::Array(_));
        let is_record = matches!(current_type, Type::Record { .. });
        let is_map = matches!(current_type, Type::Mapping { .. });
        let empty_record = match current_type {
            Type::Record { fields, open: _ } => fields.len() == 0,
            _ => false,
        };
        let in_spec = match parent_context {
            Some(p) => str_eq(p, "spec"),
            None => false,
        };
        let f = field_name;
        if str_eq(f, "metadata") && empty_record {
            return some_str("k8s.io/apimachinery/pkg/apis/meta/v1.ObjectMeta");
        }
        if str_eq(f, "volumes") && in_spec && is_array {
            return some_str("[]k8s.io/api/core/v1.Volume");
        }
        if str_eq(f, "volumeMounts") && is_array {
            return some_str("[]k8s.io/api/core/v1.VolumeMount");
        }
        if str_eq(f, "containers") && in_spec && is_array {
            return some_str("[]k8s.io/api/core/v1.Container");
        }
        if str_eq(f, "initContainers") && in_spec && is_array {
            return some_str("[]k8s.io/api/core/v1.Container");
        }
        if str_eq(f, "resources") && is_record {
            return some_str("k8s.io/api/core/v1.ResourceRequirements");
        }
        if str_eq(f, "selector") && is_record {
            return some_str("k8s.io/apimachinery/pkg/apis/meta/v1.LabelSelector");
        }
        if str_eq(f, "env") && is_array {
            return some_str("[]k8s.io/api/core/v1.EnvVar");
        }
        if str_eq(f, "envFrom") && is_array {
            return some_str("[]k8s.io/api/core/v1.EnvFromSource");
        }
        if str_eq(f, "affinity") && is_record {
            return some_str("k8s.io/api/core/v1.Affinity");
        }
        if str_eq(f, "tolerations") && is_array {
            return some_str("[]k8s.io/api/core/v1.Toleration");
        }
        if str_eq(f, "nodeSelector") && is_map {
            return some_str("map[string]string");
        }
        if str_eq(f, "securityContext") && is_record {
            return some_str("k8s.io/api/core/v1.SecurityContext");
        }
        if str_eq(f, "podSecurityContext") && is_record {
            return some_str("k8s.io/api/core/v1.PodSecurityContext");
        }
        None
    }

    /// The parsed Go type with this qualified name.
    pub fn get_go_type(&self, qualified_name: &str) -> (r: Option<&GoTypeInfo>)
        ensures
            match last_index_of(keys_of(self.go_type_table()), qualified_name@) {
                Some(i) => r matches Some(t) && *t == self.go_type_table()[i].1,
                None => r is None,
            },
    {
        proof {
            lemma_last_index_of(keys_of(self.go_types@), qualified_name@);
        }
        match find_key(&self.go_types, qualified_name) {
            Some(i) => Some(&self.go_types[i].1),
            None => None,
        }
    }

    /// The type reference for a qualified Go name.
    pub fn get_type_reference(&self, qualified_name: &str) -> (r: Option<&TypeReference>)
        ensures
            match last_index_of(self.reference_table().map_values(|e: (Seq<char>, (Seq<char>, Seq<char>, Seq<char>))| e.0), qualified_name@) {
                Some(i) => r matches Some(t) && t@ == self.reference_table()[i].1,
                None => r is None,
            },
    {
        let ghost rt = self.reference_table();
        proof {
            assert(keys_of(self.type_mapping@) =~= rt.map_values(|e: (Seq<char>, (Seq<char>, Seq<char>, Seq<char>))| e.0));
        }
        match find_key(&self.type_mapping, qualified_name) {
            Some(i) => {
                proof {
                    lemma_last_index_of(keys_of(self.type_mapping@), qualified_name@);
                }
                Some(&self.type_mapping[i].1)
            },
            None => None,
        }
    }
}

impl Default for K8sAuthoritativeTypes {
    fn default() -> (r: Self)
        ensures
            r.go_type_table().len() == 0,
            r.reference_table().len() == 0,
    {
        Self::new()
    }
}

// ---------------------------------------------------------------------------
// Field patterns
// ---------------------------------------------------------------------------

/// The field-path to Go-type patterns, in order.
pub open spec fn k8s_pattern_table() -> Seq<(Seq<char>, Seq<char>)> {
    seq![
        ("metadata"@, "k8s.io/apimachinery/pkg/apis/meta/v1.ObjectMeta"@),
        ("spec.volumes"@, "[]k8s.io/api/core/v1.Volume"@),
        ("spec.containers"@, "[]k8s.io/api/core/v1.Container"@),
        ("spec.initContainers"@, "[]k8s.io/api/core/v1.Container"@),
        ("spec.template.spec.volumes"@, "[]k8s.io/api/core/v1.Volume"@),
        ("spec.template.spec.containers"@, "[]k8s.io/api/core/v1.Container"@),
        ("spec.selector"@, "k8s.io/apimachinery/pkg/apis/meta/v1.LabelSelector"@),
        ("spec.template.metadata"@, "k8s.io/apimachinery/pkg/apis/meta/v1.ObjectMeta"@),
        ("resources"@, "k8s.io/api/core/v1.ResourceRequirements"@),
        ("spec.resources"@, "k8s.io/api/core/v1.ResourceRequirements"@),
        ("env"@, "[]k8s.io/api/core/v1.EnvVar"@),
        ("envFrom"@, "[]k8s.io/api/core/v1.EnvFromSource"@),
        ("volumeMounts"@, "[]k8s.io/api/core/v1.VolumeMount"@),
        ("securityContext"@, "k8s.io/api/core/v1.SecurityContext"@),
        ("affinity"@, "k8s.io/api/core/v1.Affinity"@),
        ("tolerations"@, "[]k8s.io/api/core/v1.Toleration"@),
    ]
}

/// The value of the last entry with key `key`.
pub open spec fn table_get(t: Seq<(Seq<char>, Seq<char>)>, key: Seq<char>) -> Option<Seq<char>>
    decreases t.len(),
{
    if t.len() == 0 {
        None
    } else if t.last().0 == key {
        Some(t.last().1)
    } else {
        table_get(t.drop_last(), key)
    }
}

/// The views of the entries of a string table.
pub open spec fn pairs_view(v: Seq<(String, String)>) -> Seq<(Seq<char>, Seq<char>)> {
    v.map_values(|e: (String, String)| (e.0@, e.1@))
}

/// The views of a slice of string slices.
pub open spec fn str_views(v: Seq<&str>) -> Seq<Seq<char>> {
    v.map_values(|s: &str| s@)
}

/// Pre-built registry of common Kubernetes type patterns.
pub struct K8sTypePatterns {
    patterns: Vec<(String, String)>,
}

fn pattern(path: &str, go_type: &str) -> (r: (String, String))
    ensures
        r.0@ == path@,
        r.1@ == go_type@,
{
    (to_owned_string(path), to_owned_string(go_type))
}

/// The characters of `parts` joined with `.`.
fn join_dotted(parts: &[&str]) -> (r: String)
    ensures
        r@ == join_spec(str_views(parts@), seq!['.']),
{
    let ghost ps = str_views(parts@);
    let mut r = String::new();
    let mut dot = String::new();
    push_char(&mut dot, '.');
    if parts.len() == 0 {
        return r;
    }
    r.append(parts[0]);
    let mut i: usize = 1;
    assert(ps.take(1) =~= seq![ps[0]]);
    while i < parts.len()
        invariant
            ps == str_views(parts@),
            dot@ == seq!['.'],
            1 <= i <= parts.len(),
            r@ == join_spec(ps.take(i as int), seq!['.']),
        decreases parts.len() - i,
    {
        r.append(dot.as_str());
        r.append(parts[i]);
        assert(ps.take(i + 1).drop_last() =~= ps.take(i as int));
        i = i + 1;
    }
    assert(ps.take(parts.len() as int) =~= ps);
    r
}

impl K8sTypePatterns {
    /// The pattern table, in order.
    pub closed spec fn table(&self) -> Seq<(Seq<char>, Seq<char>)> {
        pairs_view(self.patterns@)
    }

    /// The common field-path patterns.
    pub fn new() -> (r: K8sTypePatterns)
        ensures
            r.table() == k8s_pattern_table(),
    {
        let mut patterns: Vec<(String, String)> = Vec::new();
        patterns.push(pattern("metadata", "k8s.io/apimachinery/pkg/apis/meta/v1.ObjectMeta"));
        patterns.push(pattern("spec.volumes", "[]k8s.io/api/core/v1.Volume"));
        patterns.push(pattern("spec.containers", "[]k8s.io/api/core/v1.Container"));
        patterns.push(pattern("spec.initContainers", "[]k8s.io/api/core/v1.Container"));
        patterns.push(pattern("spec.template.spec.volumes", "[]k8s.io/api/core/v1.Volume"));
        patterns.push(pattern("spec.template.spec.containers", "[]k8s.io/api/core/v1.Container"));
        patterns.push(pattern("spec.selector", "k8s.io/apimachinery/pkg/apis/meta/v1.LabelSelector"));
        patterns.push(pattern("spec.template.metadata", "k8s.io/apimachinery/pkg/apis/meta/v1.ObjectMeta"));
        patterns.push(pattern("resources", "k8s.io/api/core/v1.ResourceRequirements"));
        patterns.push(pattern("spec.resources", "k8s.io/api/core/v1.ResourceRequirements"));
        patterns.push(pattern("env", "[]k8s.io/api/core/v1.EnvVar"));
        patterns.push(pattern("envFrom", "[]k8s.io/api/core/v1.EnvFromSource"));
        patterns.push(pattern("volumeMounts", "[]k8s.io/api/core/v1.VolumeMount"));
        patterns.push(pattern("securityContext", "k8s.io/api/core/v1.SecurityContext"));
        patterns.push(pattern("affinity", "k8s.io/api/core/v1.Affinity"));
        patterns.push(pattern("tolerations", "[]k8s.io/api/core/v1.Toleration"));
        let r = K8sTypePatterns { patterns };
        assert(r.table() =~= k8s_pattern_table());
        r
    }

    /// The Go type for a field path.
    pub fn get_go_type(&self, field_path: &str) -> (r: Option<&String>)
        ensures
            match table_get(self.table(), field_path@) {
                Some(t) => r matches Some(s) && s@ == t,
                None => r is None,
            },
    {
        let ghost t = self.table();
        let mut j: usize = self.patterns.len();
        assert(t.take(j as int) =~= t);
        while j > 0
            invariant
                t == self.table(),
                j <= self.patterns.len(),
                table_get(t, field_path@) == table_get(t.take(j as int), field_path@),
            decreases j,
        {
            assert(t[j - 1] == (self.patterns@[j - 1].0@, self.patterns@[j - 1].1@));
            if str_eq(self.patterns[j - 1].0.as_str(), field_path) {
                assert(t.take(j as int).last() == t[j - 1]);
                return Some(&self.patterns[j - 1].1);
            }
            assert(t.take(j as int).drop_last() =~= t.take(j - 1));
            j = j - 1;
        }
        None
    }

    /// The Go type for a field in a context: the full dotted path first,
    /// then the bare field name.
    pub fn get_contextual_type(&self, field_name: &str, context: &[&str]) -> (r: Option<&String>)
        ensures
            ({
                let full = join_spec(str_views(context@), seq!['.']) + seq!['.'] + field_name@;
                match table_get(self.table(), full) {
                    Some(t) => r matches Some(s) && s@ == t,
                    None => match table_get(self.table(), field_name@) {
                        Some(t) => r matches Some(s) && s@ == t,
                        None => r is None,
                    },
                }
            }),
    {
        let mut full = join_dotted(context);
        push_char(&mut full, '.');
        full.append(field_name);
        assert(full@ == join_spec(str_views(context@), seq!['.']) + seq!['.'] + field_name@);
        match self.get_go_type(full.as_str()) {
            Some(t) => Some(t),
            None => self.get_go_type(field_name),
        }
    }
}

impl Default for K8sTypePatterns {
    fn default() -> (r: Self)
        ensures
            r.table() == k8s_pattern_table(),
    {
        Self::new()
    }
}

} // verus!
