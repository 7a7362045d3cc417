//! Fully-qualified type names (`io.k8s.api.core.v1.Pod`,
//! `k8s.io.v1.ObjectMeta`, `apiextensions.crossplane.io.v1.Composition`).

use vstd::prelude::*;
use vstd::string::{StrSliceExecFns, StringExecFns};
use crate::chars::{is_ascii_digit, is_ascii_upper, is_digit, is_upper_ascii};
use crate::text::{
    chars_of, concat, first_piece, first_piece_len, is_prefix, join_range, join_spec,
    lemma_rposition_range, lemma_split_nonempty, rposition, split_char, split_spec, starts_with,
    str_eq, to_owned_string, views,
};

verus! {

broadcast use vstd::string::group_string_axioms;

/// The mathematical content of an [`Fqn`].
pub struct FqnView {
    pub original: Seq<char>,
    pub typename: Seq<char>,
    pub module: Seq<char>,
    pub group: Seq<char>,
    pub version: Seq<char>,
    pub domain: Seq<char>,
    pub namespace: Seq<char>,
}

/// A parsed fully qualified name.
#[derive(Debug, Clone, PartialEq, Eq, Hash)]
pub struct Fqn {
    original: String,
    typename: String,
    module: String,
    group: String,
    version: String,
    domain: String,
    namespace: String,
}

impl View for Fqn {
    type V = FqnView;

    closed spec fn view(&self) -> FqnView {
        FqnView {
            original: self.original@,
            typename: self.typename@,
            module: self.module@,
            group: self.group@,
            version: self.version@,
            domain: self.domain@,
            namespace: self.namespace@,
        }
    }
}

/// Errors of FQN parsing.
#[derive(Debug, Clone)]
pub enum FqnError {
    Empty,
    InvalidFormat(String),
    MissingTypeName(String),
    MissingVersion(String),
}

/// A dot-separated part that names a type: it starts with an ASCII capital.
pub open spec fn starts_upper(p: Seq<char>) -> bool {
    p.len() > 0 && is_ascii_upper(p[0])
}

/// A dot-separated part that names a version: `v` followed by a digit, or one
/// of the version-like words `v0`, `resource`, `crossplane`.
pub open spec fn is_version_spec(p: Seq<char>) -> bool {
    if p.len() == 0 {
        false
    } else if p[0] == 'v' && p.len() > 1 {
        is_ascii_digit(p[1])
    } else {
        p == "v0"@ || p == "resource"@ || p == "crossplane"@
    }
}

/// [`starts_upper`] as a predicate value.
pub open spec fn upper_pred() -> spec_fn(Seq<char>) -> bool {
    |p: Seq<char>| starts_upper(p)
}

/// [`is_version_spec`] as a predicate value.
pub open spec fn version_pred() -> spec_fn(Seq<char>) -> bool {
    |p: Seq<char>| is_version_spec(p)
}

/// Top-level domains recognised when splitting a group into domain and
/// namespace.
pub open spec fn known_tld(t: Seq<char>) -> bool {
    t == "io"@ || t == "com"@ || t == "org"@ || t == "net"@ || t == "dev"@ || t == "app"@
}

/// Domain and namespace of a group.
pub open spec fn domain_namespace_spec(group: Seq<char>) -> (Seq<char>, Seq<char>) {
    let parts = split_spec(group, '.');
    if group.len() == 0 {
        ("local://"@, "core"@)
    } else if is_prefix("io.k8s."@, group) {
        ("k8s.io"@, group.skip("io.k8s."@.len() as int))
    } else if group == "k8s.io"@ {
        ("k8s.io"@, "core"@)
    } else if is_prefix("k8s.io."@, group) {
        ("k8s.io"@, group.skip("k8s.io."@.len() as int))
    } else if parts.len() >= 2 && known_tld(parts.last()) {
        (
            join_spec(parts.skip(parts.len() - 2), "."@),
            if parts.len() > 2 {
                join_spec(parts.take(parts.len() - 2), "."@)
            } else {
                "default"@
            },
        )
    } else {
        ("local://"@ + group, "default"@)
    }
}

/// The parse of a non-empty fully qualified name.
pub open spec fn parse_spec(s: Seq<char>) -> FqnView {
    let parts = split_spec(s, '.');
    if parts.len() == 1 {
        FqnView {
            original: s,
            typename: parts[0],
            module: Seq::<char>::empty(),
            group: Seq::<char>::empty(),
            version: "v1"@,
            domain: "local://"@,
            namespace: "default"@,
        }
    } else {
        let tn = rposition(parts, upper_pred());
        let typename = match tn {
            Some(i) => parts[i],
            None => parts.last(),
        };
        let type_idx = match tn {
            Some(i) => i,
            None => parts.len() as int,
        };
        let module = join_spec(parts.take(type_idx), "."@);
        let (group, version) = match rposition(parts, version_pred()) {
            Some(v) => if v >= type_idx {
                (if v > 0 {
                    join_spec(parts.take(v), "."@)
                } else {
                    module
                }, "v1"@)
            } else {
                (join_spec(parts.take(v), "."@), parts[v])
            },
            None => (module, "v1"@),
        };
        let dn = domain_namespace_spec(group);
        FqnView {
            original: s,
            typename,
            module,
            group,
            version,
            domain: dn.0,
            namespace: dn.1,
        }
    }
}

/// The Kubernetes API group of a view (`apps`, `core`, ...), for K8s names.
pub open spec fn k8s_api_group_spec(v: FqnView) -> Option<Seq<char>> {
    if v.domain != "k8s.io"@ {
        None
    } else if is_prefix("api."@, v.namespace) {
        Some(first_piece(v.namespace.skip("api."@.len() as int), '.'))
    } else if v.namespace.len() != 0 && v.namespace != "core"@ && v.namespace != "default"@ {
        Some(first_piece(v.namespace, '.'))
    } else {
        Some("core"@)
    }
}

/// The canonical form: legacy `io.k8s.*` names re-parsed as
/// `k8s.io.{api group}.{version}.{type}`; every other name unchanged.
pub open spec fn normalize_spec(v: FqnView) -> FqnView {
    if v.domain == "k8s.io"@ && is_prefix("io.k8s."@, v.original) {
        let api = match k8s_api_group_spec(v) {
            Some(g) => g,
            None => "core"@,
        };
        parse_spec("k8s.io."@ + api + "."@ + v.version + "."@ + v.typename)
    } else {
        v
    }
}

/// The fallback used when a string does not parse: the whole string as type
/// name in an unknown domain.
pub open spec fn lenient_spec(s: Seq<char>) -> FqnView {
    if s.len() == 0 {
        FqnView {
            original: s,
            typename: s,
            module: Seq::<char>::empty(),
            group: Seq::<char>::empty(),
            version: "v1"@,
            domain: "unknown"@,
            namespace: "default"@,
        }
    } else {
        parse_spec(s)
    }
}

fn rposition_upper(parts: &Vec<String>) -> (r: Option<usize>)
    ensures
        r matches Some(i) ==> rposition(views(parts@), upper_pred()) == Some(
            i as int,
        ),
        r is None ==> rposition(views(parts@), upper_pred()) is None,
{
    let ghost pred = upper_pred();
    let ghost ws = views(parts@);
    let mut i = parts.len();
    assert(ws.take(i as int) =~= ws);
    while i > 0
        invariant
            i <= parts.len(),
            ws == views(parts@),
            pred == upper_pred(),
            rposition(ws, pred) == rposition(ws.take(i as int), pred),
        decreases i,
    {
        let cs = chars_of(parts[i - 1].as_str());
        assert(ws.take(i as int).last() == ws[i - 1]);
        assert(ws[i - 1] == cs@);
        if cs.len() > 0 && is_upper_ascii(cs[0]) {
            assert(pred(ws.take(i as int).last()));
            return Some(i - 1);
        }
        assert(!pred(ws.take(i as int).last()));
        assert(ws.take(i as int).drop_last() =~= ws.take(i - 1));
        i = i - 1;
    }
    None
}

pub(crate) fn rposition_version(parts: &Vec<String>) -> (r: Option<usize>)
    ensures
        r matches Some(i) ==> rposition(views(parts@), version_pred())
            == Some(i as int),
        r is None ==> rposition(views(parts@), version_pred()) is None,
{
    let ghost pred = version_pred();
    let ghost ws = views(parts@);
    let mut i = parts.len();
    assert(ws.take(i as int) =~= ws);
    while i > 0
        invariant
            i <= parts.len(),
            ws == views(parts@),
            pred == version_pred(),
            rposition(ws, pred) == rposition(ws.take(i as int), pred),
        decreases i,
    {
        assert(ws.take(i as int).last() == ws[i - 1]);
        assert(ws[i - 1] == parts@[i - 1]@);
        if Fqn::is_version(parts[i - 1].as_str()) {
            assert(pred(ws.take(i as int).last()));
            return Some(i - 1);
        }
        assert(!pred(ws.take(i as int).last()));
        assert(ws.take(i as int).drop_last() =~= ws.take(i - 1));
        i = i - 1;
    }
    None
}

/// `parts[..n]` joined with dots.
pub(crate) fn join_prefix(parts: &Vec<String>, n: usize) -> (r: String)
    requires
        n <= parts.len(),
    ensures
        r@ == join_spec(views(parts@).take(n as int), "."@),
{
    let r = join_range(parts, 0, n, ".");
    assert(views(parts@).subrange(0, n as int) =~= views(parts@).take(n as int));
    r
}

impl Fqn {
    /// Whether a dot-separated part is a version identifier.
    pub fn is_version(s: &str) -> (r: bool)
        ensures
            r == is_version_spec(s@),
    {
        let cs = chars_of(s);
        if cs.len() == 0 {
            return false;
        }
        if cs[0] == 'v' && cs.len() > 1 {
            return is_digit(cs[1]);
        }
        str_eq(s, "v0") || str_eq(s, "resource") || str_eq(s, "crossplane")
    }

    /// Domain and namespace of a group string.
    pub fn extract_domain_namespace(group: &str) -> (r: (String, String))
        ensures
            (r.0@, r.1@) == domain_namespace_spec(group@),
    {
        let parts = split_char(group, '.');
        let ghost ps = views(parts@);
        proof {
            reveal_strlit("io.k8s.");
            reveal_strlit("k8s.io.");
        }
        if chars_of(group).len() == 0 {
            return (to_owned_string("local://"), to_owned_string("core"));
        }
        if starts_with(group, "io.k8s.") {
            let cs = chars_of(group);
            let ns = crate::text::string_of_range(&cs, 7, cs.len());
            assert(cs@.subrange(7, cs@.len() as int) =~= group@.skip(7));
            return (to_owned_string("k8s.io"), ns);
        }
        if str_eq(group, "k8s.io") {
            return (to_owned_string("k8s.io"), to_owned_string("core"));
        }
        if starts_with(group, "k8s.io.") {
            let cs = chars_of(group);
            let ns = crate::text::string_of_range(&cs, 7, cs.len());
            assert(cs@.subrange(7, cs@.len() as int) =~= group@.skip(7));
            return (to_owned_string("k8s.io"), ns);
        }
        let n = parts.len();
        if n >= 2 {
            let tld = parts[n - 1].as_str();
            assert(ps.last() == tld@);
            if str_eq(tld, "io") || str_eq(tld, "com") || str_eq(tld, "org") || str_eq(tld, "net")
                || str_eq(tld, "dev") || str_eq(tld, "app") {
                let domain = join_range(&parts, n - 2, n, ".");
                assert(ps.subrange(n - 2, n as int) =~= ps.skip(n - 2));
                let namespace = if n > 2 {
                    join_prefix(&parts, n - 2)
                } else {
                    to_owned_string("default")
                };
                return (domain, namespace);
            }
        }
        (concat("local://", group), to_owned_string("default"))
    }

    /// Parse a fully qualified name. Fails only on the empty string.
    pub fn parse(fqn: &str) -> (r: Result<Fqn, FqnError>)
        ensures
            r is Err <==> fqn@.len() == 0,
            r matches Err(e) ==> e is Empty,
            r matches Ok(f) ==> f@ == parse_spec(fqn@),
    {
        if chars_of(fqn).len() == 0 {
            return Err(FqnError::Empty);
        }
        let parts = split_char(fqn, '.');
        let ghost ps = views(parts@);
        proof {
            lemma_split_nonempty(fqn@, '.');
        }
        if parts.len() == 1 {
            let f = Fqn {
                original: to_owned_string(fqn),
                typename: to_owned_string(parts[0].as_str()),
                module: String::new(),
                group: String::new(),
                version: to_owned_string("v1"),
                domain: to_owned_string("local://"),
                namespace: to_owned_string("default"),
            };
            assert(f@.module =~= Seq::<char>::empty());
            assert(f@.group =~= Seq::<char>::empty());
            return Ok(f);
        }
        let tn = rposition_upper(&parts);
        proof {
            lemma_rposition_range(ps, upper_pred());
            lemma_rposition_range(ps, version_pred());
        }
        let type_idx = match tn {
            Some(i) => i,
            None => parts.len(),
        };
        let typename = match tn {
            Some(i) => to_owned_string(parts[i].as_str()),
            None => to_owned_string(parts[parts.len() - 1].as_str()),
        };
        let module = join_prefix(&parts, type_idx);
        let vi = rposition_version(&parts);
        let (group, version) = match vi {
            Some(v) => {
                if v >= type_idx {
                    let g = if v > 0 {
                        join_prefix(&parts, v)
                    } else {
                        to_owned_string(module.as_str())
                    };
                    (g, to_owned_string("v1"))
                } else {
                    (join_prefix(&parts, v), to_owned_string(parts[v].as_str()))
                }
            },
            None => (to_owned_string(module.as_str()), to_owned_string("v1")),
        };
        let (domain, namespace) = Fqn::extract_domain_namespace(group.as_str());
        Ok(Fqn { original: to_owned_string(fqn), typename, module, group, version, domain, namespace })
    }

    /// The original string.
    pub fn original(&self) -> (r: &str)
        ensures
            r@ == self@.original,
    {
        self.original.as_str()
    }

    /// The type name (e.g. `Pod`).
    pub fn type_name_str(&self) -> (r: &str)
        ensures
            r@ == self@.typename,
    {
        self.typename.as_str()
    }

    /// The module path (e.g. `io.k8s.api.core.v1`).
    pub fn module(&self) -> (r: &str)
        ensures
            r@ == self@.module,
    {
        self.module.as_str()
    }

    /// The group (e.g. `io.k8s.api.core`).
    pub fn group(&self) -> (r: &str)
        ensures
            r@ == self@.group,
    {
        self.group.as_str()
    }

    /// The version (e.g. `v1`).
    pub fn version(&self) -> (r: &str)
        ensures
            r@ == self@.version,
    {
        self.version.as_str()
    }

    /// The domain (e.g. `k8s.io`).
    pub fn domain(&self) -> (r: &str)
        ensures
            r@ == self@.domain,
    {
        self.domain.as_str()
    }

    /// The namespace within the domain (e.g. `api.core`).
    pub fn namespace(&self) -> (r: &str)
        ensures
            r@ == self@.namespace,
    {
        self.namespace.as_str()
    }

    /// Whether this is a Kubernetes type.
    pub fn is_k8s(&self) -> (r: bool)
        ensures
            r == (self@.domain == "k8s.io"@),
    {
        str_eq(self.domain.as_str(), "k8s.io")
    }

    /// Whether this is a Crossplane type.
    pub fn is_crossplane(&self) -> (r: bool)
        ensures
            r == (self@.domain == "crossplane.io"@),
    {
        str_eq(self.domain.as_str(), "crossplane.io")
    }

    /// The Kubernetes API group (`apps`, `core`, `batch`, ...) of a K8s type.
    pub fn k8s_api_group(&self) -> (r: Option<&str>)
        ensures
            r matches Some(g) ==> k8s_api_group_spec(self@) == Some(g@),
            r is None ==> k8s_api_group_spec(self@) is None,
    {
        if !self.is_k8s() {
            return None;
        }
        let ns = self.namespace.as_str();
        proof {
            reveal_strlit("api.");
        }
        if starts_with(ns, "api.") {
            let cs = chars_of(ns);
            let rest = ns.substring_char(4, cs.len());
            let rv = chars_of(rest);
            let n = first_piece_len(&rv, '.');
            assert(rest@ =~= ns@.skip(4));
            let g = ns.substring_char(4, 4 + n);
            assert(g@ =~= rv@.take(n as int));
            return Some(g);
        }
        let cs = chars_of(ns);
        if cs.len() != 0 && !str_eq(ns, "core") && !str_eq(ns, "default") {
            let n = first_piece_len(&cs, '.');
            let g = ns.substring_char(0, n);
            assert(g@ =~= cs@.take(n as int));
            return Some(g);
        }
        Some("core")
    }

    fn duplicate(&self) -> (r: Fqn)
        ensures
            r@ == self@,
    {
        Fqn {
            original: self.original.clone(),
            typename: self.typename.clone(),
            module: self.module.clone(),
            group: self.group.clone(),
            version: self.version.clone(),
            domain: self.domain.clone(),
            namespace: self.namespace.clone(),
        }
    }

    /// The same name with a different type name.
    pub fn with_type_name(&self, new_name: &str) -> (r: Fqn)
        ensures
            r@ == (FqnView {
                original: self@.module + "."@ + new_name@,
                typename: new_name@,
                ..self@
            }),
    {
        let prefix = concat(self.module.as_str(), ".");
        let original = concat(prefix.as_str(), new_name);
        Fqn {
            original,
            typename: to_owned_string(new_name),
            module: self.module.clone(),
            group: self.group.clone(),
            version: self.version.clone(),
            domain: self.domain.clone(),
            namespace: self.namespace.clone(),
        }
    }

    /// The canonical form of this name.
    pub fn normalize(&self) -> (r: Fqn)
        ensures
            r@ == normalize_spec(self@),
    {
        if self.is_k8s() && starts_with(self.original.as_str(), "io.k8s.") {
            let api = match self.k8s_api_group() {
                Some(g) => g,
                None => "core",
            };
            let s1 = concat("k8s.io.", api);
            let s2 = concat(s1.as_str(), ".");
            let s3 = concat(s2.as_str(), self.version.as_str());
            let s4 = concat(s3.as_str(), ".");
            let s5 = concat(s4.as_str(), self.typename.as_str());
            proof {
                reveal_strlit("k8s.io.");
                assert(s5@.len() > 0);
            }
            match Fqn::parse(s5.as_str()) {
                Ok(f) => f,
                Err(_) => self.duplicate(),
            }
        } else {
            self.duplicate()
        }
    }

    /// The original string (what `Display` shows).
    pub fn to_string(&self) -> (r: String)
        ensures
            r@ == self@.original,
    {
        self.original.clone()
    }

    /// Parse, falling back to treating the whole string as a type name in an
    /// unknown domain.
    pub fn from_str_lenient(s: &str) -> (r: Fqn)
        ensures
            r@ == lenient_spec(s@),
    {
        match Fqn::parse(s) {
            Ok(f) => f,
            Err(_) => {
                let f = Fqn {
                    original: to_owned_string(s),
                    typename: to_owned_string(s),
                    module: String::new(),
                    group: String::new(),
                    version: to_owned_string("v1"),
                    domain: to_owned_string("unknown"),
                    namespace: to_owned_string("default"),
                };
                assert(f@.module =~= Seq::<char>::empty());
                assert(f@.group =~= Seq::<char>::empty());
                f
            },
        }
    }
}

/// Normalizing a legacy `io.k8s.*` Kubernetes name keeps its API group:
/// when the name's API group is `g`, the normalized name reads
/// `k8s.io.{g}.{version}.{type}` (an `apps` type stays in `k8s.io.apps`).
pub proof fn law_normalize_keeps_api_group(v: FqnView, g: Seq<char>)
    requires
        v.domain == "k8s.io"@,
        is_prefix("io.k8s."@, v.original),
        k8s_api_group_spec(v) == Some(g),
    ensures
        normalize_spec(v).original == "k8s.io."@ + g + "."@ + v.version + "."@ + v.typename,
{
}

/// Legacy names of two different API groups normalize to different names.
pub proof fn law_normalize_separates_api_groups(a: FqnView, b: FqnView, ga: Seq<char>, gb: Seq<char>)
    requires
        a.domain == "k8s.io"@,
        b.domain == "k8s.io"@,
        is_prefix("io.k8s."@, a.original),
        is_prefix("io.k8s."@, b.original),
        k8s_api_group_spec(a) == Some(ga),
        k8s_api_group_spec(b) == Some(gb),
        ga.len() == gb.len(),
        ga != gb,
    ensures
        normalize_spec(a).original != normalize_spec(b).original,
{
    let pa = "k8s.io."@ + ga + "."@ + a.version + "."@ + a.typename;
    let pb = "k8s.io."@ + gb + "."@ + b.version + "."@ + b.typename;
    let n: int = "k8s.io."@.len() as int;
    assert(pa.subrange(n, n + ga.len()) =~= ga);
    assert(pb.subrange(n, n + gb.len()) =~= gb);
}

/// Names that are not legacy `io.k8s.*` Kubernetes names are already
/// canonical: normalizing leaves them unchanged.
pub proof fn law_normalize_keeps_other_names(v: FqnView)
    requires
        !(v.domain == "k8s.io"@ && is_prefix("io.k8s."@, v.original)),
    ensures
        normalize_spec(v) == v,
{
}

} // verus!
