//! Pieces of the type representation: string formats, contract rules,
//! union coercion hints, and the merging of optional validation bounds.

use vstd::prelude::*;
use vstd::string::StringExecFns;
use crate::json::{json_eq, json_seq_view, lemma_json_seq_view, JsonValue, JsonView};
use crate::text::{concat, push_char, str_eq, views};

verus! {

broadcast use vstd::string::group_string_axioms;

/// String format types from JSON Schema and Kubernetes.
#[derive(Debug, Clone, PartialEq)]
pub enum StringFormat {
    DateTime,
    Date,
    Time,
    Email,
    Hostname,
    Ipv4,
    Ipv6,
    Uri,
    UriReference,
    Uuid,
    Dns1123Subdomain,
    Dns1123Label,
    LabelKey,
    LabelValue,
    Custom(String),
}

/// A contract rule that can be applied to validate or transform values.
#[derive(Debug, Clone, PartialEq)]
pub struct ContractRule {
    pub name: String,
    pub expression: String,
    pub description: Option<String>,
    pub error_message: Option<String>,
}

/// Hint for how to handle union types in target languages.
#[derive(Debug, Clone, PartialEq)]
pub enum UnionCoercion {
    /// Prefer the string representation (e.g. for IntOrString).
    PreferString,
    /// Prefer the numeric representation.
    PreferNumber,
    /// No preference: generate the actual union.
    NoPreference,
    /// Custom handler.
    Custom(String),
}

/// The view of an optional string.
pub open spec fn opt_str_view(o: Option<String>) -> Option<Seq<char>> {
    match o {
        Some(s) => Some(s@),
        None => None,
    }
}

/// The value of a contract rule.
pub type ContractRuleView = (Seq<char>, Seq<char>, Option<Seq<char>>, Option<Seq<char>>);

impl View for ContractRule {
    type V = ContractRuleView;

    open spec fn view(&self) -> ContractRuleView {
        (self.name@, self.expression@, opt_str_view(self.description), opt_str_view(self.error_message))
    }
}

/// The views of a sequence of contract rules.
pub open spec fn rule_views(v: Seq<ContractRule>) -> Seq<ContractRuleView> {
    v.map_values(|c: ContractRule| c@)
}

/// The names of a sequence of rule values.
pub open spec fn rule_names(v: Seq<ContractRuleView>) -> Seq<Seq<char>> {
    v.map_values(|c: ContractRuleView| c.0)
}

/// `a` followed by the first `k` rules of `b` whose name is not yet present
/// (in `a` or among the rules of `b` already taken).
pub open spec fn merge_contracts_upto(a: Seq<ContractRuleView>, b: Seq<ContractRuleView>, k: int) -> Seq<ContractRuleView>
    decreases k,
{
    if k <= 0 {
        a
    } else {
        let prev = merge_contracts_upto(a, b, k - 1);
        if rule_names(prev).contains(b[k - 1].0) {
            prev
        } else {
            prev.push(b[k - 1])
        }
    }
}

pub fn copy_opt_string(o: &Option<String>) -> (r: Option<String>)
    ensures
        opt_str_view(r) == opt_str_view(*o),
{
    match o {
        Some(s) => Some(s.clone()),
        None => None,
    }
}

impl ContractRule {
    /// A copy with the same fields.
    pub fn duplicate(&self) -> (r: ContractRule)
        ensures
            r@ == self@,
    {
        ContractRule {
            name: self.name.clone(),
            expression: self.expression.clone(),
            description: copy_opt_string(&self.description),
            error_message: copy_opt_string(&self.error_message),
        }
    }

    /// Merge two lists of contracts: all of `a`, then each rule of `b`
    /// whose name is not already present.
    pub fn merge_contracts(a: &[ContractRule], b: &[ContractRule]) -> (r: Vec<ContractRule>)
        ensures
            rule_views(r@) == merge_contracts_upto(rule_views(a@), rule_views(b@), b@.len() as int),
    {
        let mut result: Vec<ContractRule> = Vec::new();
        let mut i: usize = 0;
        while i < a.len()
            invariant
                i <= a.len(),
                rule_views(result@) == rule_views(a@).take(i as int),
            decreases a.len() - i,
        {
            let ghost r0 = result@;
            let c = a[i].duplicate();
            result.push(c);
            assert(rule_views(result@) =~= rule_views(r0).push(c@));
            assert(rule_views(a@).take(i + 1) =~= rule_views(a@).take(i as int).push(a@[i as int]@));
            i = i + 1;
        }
        assert(rule_views(a@).take(a.len() as int) =~= rule_views(a@));
        let mut j: usize = 0;
        while j < b.len()
            invariant
                j <= b.len(),
                rule_views(result@) == merge_contracts_upto(rule_views(a@), rule_views(b@), j as int),
            decreases b.len() - j,
        {
            let contract = &b[j];
            let mut present = false;
            let mut k: usize = 0;
            while k < result.len()
                invariant
                    k <= result.len(),
                    present == exists|m: int| 0 <= m < k && #[trigger] result@[m].name@ == contract.name@,
                decreases result.len() - k,
            {
                if str_eq(result[k].name.as_str(), contract.name.as_str()) {
                    present = true;
                }
                k = k + 1;
            }
            let ghost names = rule_names(rule_views(result@));
            proof {
                assert(present == names.contains(contract.name@)) by {
                    if present {
                        let m = choose|m: int| 0 <= m < result.len() && #[trigger] result@[m].name@ == contract.name@;
                        assert(names[m] == contract.name@);
                    }
                    if names.contains(contract.name@) {
                        let m = choose|m: int| 0 <= m < names.len() && names[m] == contract.name@;
                        assert(result@[m].name@ == contract.name@);
                    }
                }
                assert(rule_views(b@)[j as int] == contract@);
            }
            if !present {
                let ghost r0 = result@;
                let c = contract.duplicate();
                result.push(c);
                assert(rule_views(result@) =~= rule_views(r0).push(c@));
            }
            j = j + 1;
        }
        result
    }
}

/// The larger of two optional bounds (either alone when the other is
/// absent).
pub open spec fn max_option_spec(a: Option<usize>, b: Option<usize>) -> Option<usize> {
    match (a, b) {
        (Some(x), Some(y)) => Some(if x >= y { x } else { y }),
        (Some(x), None) => Some(x),
        (None, Some(y)) => Some(y),
        (None, None) => None,
    }
}

/// The smaller of two optional bounds (either alone when the other is
/// absent).
pub open spec fn min_option_spec(a: Option<usize>, b: Option<usize>) -> Option<usize> {
    match (a, b) {
        (Some(x), Some(y)) => Some(if x <= y { x } else { y }),
        (Some(x), None) => Some(x),
        (None, Some(y)) => Some(y),
        (None, None) => None,
    }
}

/// The maximum of two optional bounds.
pub fn max_option(a: Option<usize>, b: Option<usize>) -> (r: Option<usize>)
    ensures
        r == max_option_spec(a, b),
{
    match (a, b) {
        (Some(x), Some(y)) => Some(if x >= y { x } else { y }),
        (Some(x), None) => Some(x),
        (None, Some(y)) => Some(y),
        (None, None) => None,
    }
}

/// The minimum of two optional bounds.
pub fn min_option(a: Option<usize>, b: Option<usize>) -> (r: Option<usize>)
    ensures
        r == min_option_spec(a, b),
{
    match (a, b) {
        (Some(x), Some(y)) => Some(if x <= y { x } else { y }),
        (Some(x), None) => Some(x),
        (None, Some(y)) => Some(y),
        (None, None) => None,
    }
}

/// Two optional patterns combined: distinct patterns must both match (a
/// lookahead for each), equal ones stay as they are, and either alone
/// stands for itself.
pub open spec fn merge_patterns_spec(a: Option<Seq<char>>, b: Option<Seq<char>>) -> Option<Seq<char>> {
    match (a, b) {
        (Some(x), Some(y)) => if x != y {
            Some("(?="@ + x + "$)(?="@ + y + "$).*"@)
        } else {
            Some(x)
        },
        (Some(x), None) => Some(x),
        (None, Some(y)) => Some(y),
        (None, None) => None,
    }
}

/// Merge two optional patterns with AND semantics.
pub fn merge_patterns(a: &Option<String>, b: &Option<String>) -> (r: Option<String>)
    ensures
        opt_str_view(r) == merge_patterns_spec(opt_str_view(*a), opt_str_view(*b)),
{
    match (a, b) {
        (Some(x), Some(y)) => {
            if !str_eq(x.as_str(), y.as_str()) {
                let mut r = concat("(?=", x.as_str());
                r.append("$)(?=");
                r.append(y.as_str());
                r.append("$).*");
                Some(r)
            } else {
                Some(x.clone())
            }
        },
        (Some(x), None) => Some(x.clone()),
        (None, Some(y)) => Some(y.clone()),
        (None, None) => None,
    }
}

/// Merging after the first `k` rules of `b`: `a` stays in front, the names
/// are those of `a` and of those rules, and distinct names stay distinct.
proof fn lemma_merge_contracts_upto(a: Seq<ContractRuleView>, b: Seq<ContractRuleView>, k: int)
    requires
        0 <= k <= b.len(),
    ensures
        merge_contracts_upto(a, b, k).len() >= a.len(),
        merge_contracts_upto(a, b, k).take(a.len() as int) == a,
        forall|n: Seq<char>| #[trigger] rule_names(merge_contracts_upto(a, b, k)).contains(n) <==> (rule_names(a).contains(n)
            || rule_names(b.take(k)).contains(n)),
        rule_names(a).no_duplicates() ==> rule_names(merge_contracts_upto(a, b, k)).no_duplicates(),
    decreases k,
{
    if k > 0 {
        lemma_merge_contracts_upto(a, b, k - 1);
        let prev = merge_contracts_upto(a, b, k - 1);
        let x = b[k - 1];
        assert(b.take(k) =~= b.take(k - 1).push(x));
        assert(rule_names(b.take(k)) =~= rule_names(b.take(k - 1)).push(x.0));
        if !rule_names(prev).contains(x.0) {
            let next = prev.push(x);
            assert(rule_names(next) =~= rule_names(prev).push(x.0));
            assert(next.take(a.len() as int) =~= prev.take(a.len() as int));
            assert forall|n: Seq<char>| #[trigger] rule_names(next).contains(n) <==> (rule_names(prev).contains(n) || n == x.0) by {
                if rule_names(next).contains(n) {
                    let j = choose|j: int| 0 <= j < rule_names(next).len() && rule_names(next)[j] == n;
                    if j < prev.len() {
                        assert(rule_names(prev)[j] == n);
                    }
                }
                if rule_names(prev).contains(n) {
                    let j = choose|j: int| 0 <= j < rule_names(prev).len() && rule_names(prev)[j] == n;
                    assert(rule_names(next)[j] == n);
                }
                if n == x.0 {
                    assert(rule_names(next)[prev.len() as int] == n);
                }
            }
            assert forall|n: Seq<char>| #[trigger] rule_names(b.take(k)).contains(n) <==> (rule_names(b.take(k - 1)).contains(n) || n == x.0) by {
                let bt = rule_names(b.take(k - 1));
                if rule_names(b.take(k)).contains(n) {
                    let j = choose|j: int| 0 <= j < rule_names(b.take(k)).len() && rule_names(b.take(k))[j] == n;
                    if j < k - 1 {
                        assert(bt[j] == n);
                    }
                }
                if bt.contains(n) {
                    let j = choose|j: int| 0 <= j < bt.len() && bt[j] == n;
                    assert(rule_names(b.take(k))[j] == n);
                }
                if n == x.0 {
                    assert(rule_names(b.take(k))[k - 1] == n);
                }
            }
            if rule_names(a).no_duplicates() {
                let rn = rule_names(next);
                let rp = rule_names(prev);
                assert forall|i: int, j: int| 0 <= i < rn.len() && 0 <= j < rn.len() && i != j implies rn[i] != rn[j] by {
                    if i < rp.len() && j < rp.len() {
                        assert(rp[i] != rp[j]);
                    } else if i < rp.len() {
                        assert(rp.contains(rp[i]));
                    } else {
                        assert(rp.contains(rp[j]));
                    }
                }
            }
        } else {
            assert forall|n: Seq<char>| #[trigger] rule_names(b.take(k)).contains(n) <==> (rule_names(b.take(k - 1)).contains(n) || n == x.0) by {
                let bt = rule_names(b.take(k - 1));
                if rule_names(b.take(k)).contains(n) {
                    let j = choose|j: int| 0 <= j < rule_names(b.take(k)).len() && rule_names(b.take(k))[j] == n;
                    if j < k - 1 {
                        assert(bt[j] == n);
                    }
                }
                if bt.contains(n) {
                    let j = choose|j: int| 0 <= j < bt.len() && bt[j] == n;
                    assert(rule_names(b.take(k))[j] == n);
                }
                if n == x.0 {
                    assert(rule_names(b.take(k))[k - 1] == n);
                }
            }
        }
    } else {
        assert(b.take(0) =~= Seq::<ContractRuleView>::empty());
        assert(a.take(a.len() as int) =~= a);
    }
}

/// Merging two rule lists keeps all of the first list in front; the merged
/// names are exactly those of the two lists, and the merge introduces no
/// repeated name: when the first list's names are distinct, so are the
/// merged ones.
pub proof fn law_merge_contracts(a: Seq<ContractRuleView>, b: Seq<ContractRuleView>)
    ensures
        merge_contracts_upto(a, b, b.len() as int).take(a.len() as int) == a,
        forall|n: Seq<char>| #[trigger] rule_names(merge_contracts_upto(a, b, b.len() as int)).contains(n) <==> (
            rule_names(a).contains(n) || rule_names(b).contains(n)),
        rule_names(a).no_duplicates() ==> rule_names(merge_contracts_upto(a, b, b.len() as int)).no_duplicates(),
{
    lemma_merge_contracts_upto(a, b, b.len() as int);
    assert(b.take(b.len() as int) =~= b);
}

// ---------------------------------------------------------------------------
// Validation rules and the type representation
// ---------------------------------------------------------------------------

/// A string format, by its variant's position and, for a custom format, its
/// name.
pub open spec fn format_view(f: StringFormat) -> (int, Seq<char>) {
    match f {
        StringFormat::DateTime => (0, Seq::empty()),
        StringFormat::Date => (1, Seq::empty()),
        StringFormat::Time => (2, Seq::empty()),
        StringFormat::Email => (3, Seq::empty()),
        StringFormat::Hostname => (4, Seq::empty()),
        StringFormat::Ipv4 => (5, Seq::empty()),
        StringFormat::Ipv6 => (6, Seq::empty()),
        StringFormat::Uri => (7, Seq::empty()),
        StringFormat::UriReference => (8, Seq::empty()),
        StringFormat::Uuid => (9, Seq::empty()),
        StringFormat::Dns1123Subdomain => (10, Seq::empty()),
        StringFormat::Dns1123Label => (11, Seq::empty()),
        StringFormat::LabelKey => (12, Seq::empty()),
        StringFormat::LabelValue => (13, Seq::empty()),
        StringFormat::Custom(s) => (14, s@),
    }
}

/// A union coercion hint, by its variant's position and, for a custom
/// handler, its name.
pub open spec fn coercion_view(c: UnionCoercion) -> (int, Seq<char>) {
    match c {
        UnionCoercion::PreferString => (0, Seq::empty()),
        UnionCoercion::PreferNumber => (1, Seq::empty()),
        UnionCoercion::NoPreference => (2, Seq::empty()),
        UnionCoercion::Custom(s) => (3, s@),
    }
}

/// The view of an optional format.
pub open spec fn opt_format_view(o: Option<StringFormat>) -> Option<(int, Seq<char>)> {
    match o {
        Some(f) => Some(format_view(f)),
        None => None,
    }
}

/// The view of an optional coercion hint.
pub open spec fn opt_coercion_view(o: Option<UnionCoercion>) -> Option<(int, Seq<char>)> {
    match o {
        Some(c) => Some(coercion_view(c)),
        None => None,
    }
}

impl StringFormat {
    /// The position of the variant.
    fn tag(&self) -> (r: u8)
        ensures
            r as int == format_view(*self).0,
    {
        match self {
            StringFormat::DateTime => 0,
            StringFormat::Date => 1,
            StringFormat::Time => 2,
            StringFormat::Email => 3,
            StringFormat::Hostname => 4,
            StringFormat::Ipv4 => 5,
            StringFormat::Ipv6 => 6,
            StringFormat::Uri => 7,
            StringFormat::UriReference => 8,
            StringFormat::Uuid => 9,
            StringFormat::Dns1123Subdomain => 10,
            StringFormat::Dns1123Label => 11,
            StringFormat::LabelKey => 12,
            StringFormat::LabelValue => 13,
            StringFormat::Custom(_) => 14,
        }
    }

    /// A copy with the same value.
    pub fn duplicate(&self) -> (r: StringFormat)
        ensures
            format_view(r) == format_view(*self),
    {
        match self {
            StringFormat::DateTime => StringFormat::DateTime,
            StringFormat::Date => StringFormat::Date,
            StringFormat::Time => StringFormat::Time,
            StringFormat::Email => StringFormat::Email,
            StringFormat::Hostname => StringFormat::Hostname,
            StringFormat::Ipv4 => StringFormat::Ipv4,
            StringFormat::Ipv6 => StringFormat::Ipv6,
            StringFormat::Uri => StringFormat::Uri,
            StringFormat::UriReference => StringFormat::UriReference,
            StringFormat::Uuid => StringFormat::Uuid,
            StringFormat::Dns1123Subdomain => StringFormat::Dns1123Subdomain,
            StringFormat::Dns1123Label => StringFormat::Dns1123Label,
            StringFormat::LabelKey => StringFormat::LabelKey,
            StringFormat::LabelValue => StringFormat::LabelValue,
            StringFormat::Custom(s) => StringFormat::Custom(s.clone()),
        }
    }
}

/// Whether two formats are the same.
fn format_eq(a: &StringFormat, b: &StringFormat) -> (r: bool)
    ensures
        r == (format_view(*a) == format_view(*b)),
{
    match (a, b) {
        (StringFormat::Custom(x), StringFormat::Custom(y)) => str_eq(x.as_str(), y.as_str()),
        _ => a.tag() == b.tag(),
    }
}

impl UnionCoercion {
    /// A copy with the same value.
    pub fn duplicate(&self) -> (r: UnionCoercion)
        ensures
            coercion_view(r) == coercion_view(*self),
    {
        match self {
            UnionCoercion::PreferString => UnionCoercion::PreferString,
            UnionCoercion::PreferNumber => UnionCoercion::PreferNumber,
            UnionCoercion::NoPreference => UnionCoercion::NoPreference,
            UnionCoercion::Custom(s) => UnionCoercion::Custom(s.clone()),
        }
    }
}

/// Whether two coercion hints are the same.
fn coercion_eq(a: &UnionCoercion, b: &UnionCoercion) -> (r: bool)
    ensures
        r == (coercion_view(*a) == coercion_view(*b)),
{
    match (a, b) {
        (UnionCoercion::PreferString, UnionCoercion::PreferString) => true,
        (UnionCoercion::PreferNumber, UnionCoercion::PreferNumber) => true,
        (UnionCoercion::NoPreference, UnionCoercion::NoPreference) => true,
        (UnionCoercion::Custom(x), UnionCoercion::Custom(y)) => str_eq(x.as_str(), y.as_str()),
        _ => false,
    }
}

fn opt_str_eq(a: &Option<String>, b: &Option<String>) -> (r: bool)
    ensures
        r == (opt_str_view(*a) == opt_str_view(*b)),
{
    match (a, b) {
        (Some(x), Some(y)) => str_eq(x.as_str(), y.as_str()),
        (None, None) => true,
        _ => false,
    }
}

fn opt_usize_eq(a: Option<usize>, b: Option<usize>) -> (r: bool)
    ensures
        r == (a == b),
{
    match (a, b) {
        (Some(x), Some(y)) => x == y,
        (None, None) => true,
        _ => false,
    }
}

/// Validation rules extracted from a schema. Numeric bounds keep the decimal
/// text of the schema's number.
#[derive(Debug, PartialEq)]
pub struct ValidationRules {
    pub min_length: Option<usize>,
    pub max_length: Option<usize>,
    pub pattern: Option<String>,
    pub format: Option<StringFormat>,
    pub minimum: Option<String>,
    pub maximum: Option<String>,
    pub exclusive_minimum: Option<String>,
    pub exclusive_maximum: Option<String>,
    pub min_items: Option<usize>,
    pub max_items: Option<usize>,
    pub unique_items: Option<bool>,
    pub min_properties: Option<usize>,
    pub max_properties: Option<usize>,
    pub allowed_values: Option<Vec<JsonValue>>,
    pub k8s_int_or_string: bool,
    pub k8s_preserve_unknown_fields: bool,
    pub k8s_embedded_resource: bool,
    pub k8s_cel_validations: Vec<String>,
}

/// The value of validation rules.
pub struct RulesView {
    pub min_length: Option<usize>,
    pub max_length: Option<usize>,
    pub pattern: Option<Seq<char>>,
    pub format: Option<(int, Seq<char>)>,
    pub minimum: Option<Seq<char>>,
    pub maximum: Option<Seq<char>>,
    pub exclusive_minimum: Option<Seq<char>>,
    pub exclusive_maximum: Option<Seq<char>>,
    pub min_items: Option<usize>,
    pub max_items: Option<usize>,
    pub unique_items: Option<bool>,
    pub min_properties: Option<usize>,
    pub max_properties: Option<usize>,
    pub allowed_values: Option<Seq<JsonView>>,
    pub k8s_int_or_string: bool,
    pub k8s_preserve_unknown_fields: bool,
    pub k8s_embedded_resource: bool,
    pub k8s_cel_validations: Seq<Seq<char>>,
}

/// The view of optional allowed values.
pub open spec fn opt_values_view(o: Option<Vec<JsonValue>>) -> Option<Seq<JsonView>> {
    match o {
        Some(v) => Some(json_seq_view(v@)),
        None => None,
    }
}

impl View for ValidationRules {
    type V = RulesView;

    open spec fn view(&self) -> RulesView {
        RulesView {
            min_length: self.min_length,
            max_length: self.max_length,
            pattern: opt_str_view(self.pattern),
            format: opt_format_view(self.format),
            minimum: opt_str_view(self.minimum),
            maximum: opt_str_view(self.maximum),
            exclusive_minimum: opt_str_view(self.exclusive_minimum),
            exclusive_maximum: opt_str_view(self.exclusive_maximum),
            min_items: self.min_items,
            max_items: self.max_items,
            unique_items: self.unique_items,
            min_properties: self.min_properties,
            max_properties: self.max_properties,
            allowed_values: opt_values_view(self.allowed_values),
            k8s_int_or_string: self.k8s_int_or_string,
            k8s_preserve_unknown_fields: self.k8s_preserve_unknown_fields,
            k8s_embedded_resource: self.k8s_embedded_resource,
            k8s_cel_validations: views(self.k8s_cel_validations@),
        }
    }
}

/// Rules with no constraint at all.
pub open spec fn empty_rules() -> RulesView {
    RulesView {
        min_length: None,
        max_length: None,
        pattern: None,
        format: None,
        minimum: None,
        maximum: None,
        exclusive_minimum: None,
        exclusive_maximum: None,
        min_items: None,
        max_items: None,
        unique_items: None,
        min_properties: None,
        max_properties: None,
        allowed_values: None,
        k8s_int_or_string: false,
        k8s_preserve_unknown_fields: false,
        k8s_embedded_resource: false,
        k8s_cel_validations: Seq::empty(),
    }
}

impl Default for ValidationRules {
    fn default() -> (r: ValidationRules)
        ensures
            r@ == empty_rules(),
    {
        let r = ValidationRules {
            min_length: None,
            max_length: None,
            pattern: None,
            format: None,
            minimum: None,
            maximum: None,
            exclusive_minimum: None,
            exclusive_maximum: None,
            min_items: None,
            max_items: None,
            unique_items: None,
            min_properties: None,
            max_properties: None,
            allowed_values: None,
            k8s_int_or_string: false,
            k8s_preserve_unknown_fields: false,
            k8s_embedded_resource: false,
            k8s_cel_validations: Vec::new(),
        };
        assert(views(r.k8s_cel_validations@) =~= Seq::<Seq<char>>::empty());
        r
    }
}

fn opt_values_eq(a: &Option<Vec<JsonValue>>, b: &Option<Vec<JsonValue>>) -> (r: bool)
    ensures
        r == (opt_values_view(*a) == opt_values_view(*b)),
{
    match (a, b) {
        (Some(xs), Some(ys)) => {
            proof {
                lemma_json_seq_view(xs@);
                lemma_json_seq_view(ys@);
            }
            if xs.len() != ys.len() {
                return false;
            }
            let mut i: usize = 0;
            while i < xs.len()
                invariant
                    *a == Some(*xs),
                    *b == Some(*ys),
                    xs.len() == ys.len(),
                    i <= xs.len(),
                    json_seq_view(xs@).len() == xs.len(),
                    json_seq_view(ys@).len() == ys.len(),
                    forall|j: int| 0 <= j < xs.len() ==> #[trigger] json_seq_view(xs@)[j] == xs@[j]@,
                    forall|j: int| 0 <= j < ys.len() ==> #[trigger] json_seq_view(ys@)[j] == ys@[j]@,
                    forall|j: int| 0 <= j < i ==> #[trigger] json_seq_view(xs@)[j] == json_seq_view(ys@)[j],
                decreases xs.len() - i,
            {
                if !json_eq(&xs[i], &ys[i]) {
                    assert(json_seq_view(xs@)[i as int] != json_seq_view(ys@)[i as int]);
                    return false;
                }
                i = i + 1;
            }
            assert(json_seq_view(xs@) =~= json_seq_view(ys@));
            true
        },
        (None, None) => true,
        _ => false,
    }
}

fn strings_eq(a: &Vec<String>, b: &Vec<String>) -> (r: bool)
    ensures
        r == (views(a@) == views(b@)),
{
    if a.len() != b.len() {
        assert(views(a@).len() != views(b@).len());
        return false;
    }
    let mut i: usize = 0;
    while i < a.len()
        invariant
            a.len() == b.len(),
            i <= a.len(),
            forall|j: int| 0 <= j < i ==> #[trigger] a@[j]@ == b@[j]@,
        decreases a.len() - i,
    {
        if !str_eq(a[i].as_str(), b[i].as_str()) {
            assert(views(a@)[i as int] != views(b@)[i as int]);
            return false;
        }
        i = i + 1;
    }
    assert(views(a@) =~= views(b@));
    true
}

impl ValidationRules {
    /// Whether two sets of rules are the same.
    pub fn same_as(&self, other: &ValidationRules) -> (r: bool)
        ensures
            r == (self@ == other@),
    {
        let f = match (&self.format, &other.format) {
            (Some(x), Some(y)) => format_eq(x, y),
            (None, None) => true,
            _ => false,
        };
        opt_usize_eq(self.min_length, other.min_length) && opt_usize_eq(self.max_length, other.max_length)
            && opt_str_eq(&self.pattern, &other.pattern) && f && opt_str_eq(&self.minimum, &other.minimum)
            && opt_str_eq(&self.maximum, &other.maximum) && opt_str_eq(
            &self.exclusive_minimum,
            &other.exclusive_minimum,
        ) && opt_str_eq(&self.exclusive_maximum, &other.exclusive_maximum) && opt_usize_eq(
            self.min_items,
            other.min_items,
        ) && opt_usize_eq(self.max_items, other.max_items) && self.unique_items == other.unique_items
            && opt_usize_eq(self.min_properties, other.min_properties) && opt_usize_eq(
            self.max_properties,
            other.max_properties,
        ) && opt_values_eq(&self.allowed_values, &other.allowed_values) && self.k8s_int_or_string
            == other.k8s_int_or_string && self.k8s_preserve_unknown_fields == other.k8s_preserve_unknown_fields
            && self.k8s_embedded_resource == other.k8s_embedded_resource && strings_eq(
            &self.k8s_cel_validations,
            &other.k8s_cel_validations,
        )
    }
}

impl ValidationRules {
    /// Whether the rules constrain nothing.
    pub fn is_empty(&self) -> (r: bool)
        ensures
            r == (self@ == empty_rules()),
    {
        let r = self.min_length.is_none() && self.max_length.is_none() && self.pattern.is_none()
            && self.format.is_none() && self.minimum.is_none() && self.maximum.is_none()
            && self.exclusive_minimum.is_none() && self.exclusive_maximum.is_none() && self.min_items.is_none()
            && self.max_items.is_none() && self.unique_items.is_none() && self.min_properties.is_none()
            && self.max_properties.is_none() && self.allowed_values.is_none() && !self.k8s_int_or_string
            && !self.k8s_preserve_unknown_fields && !self.k8s_embedded_resource
            && self.k8s_cel_validations.len() == 0;
        proof {
            assert(views(self.k8s_cel_validations@).len() == self.k8s_cel_validations@.len());
            if r {
                assert(views(self.k8s_cel_validations@) =~= Seq::<Seq<char>>::empty());
            }
        }
        r
    }

    /// Rules on a string's length and pattern only.
    pub fn string_constraints(min_len: Option<usize>, max_len: Option<usize>, pattern: Option<String>) -> (r: Self)
        ensures
            r@ == (RulesView {
                min_length: min_len,
                max_length: max_len,
                pattern: match pattern {
                    Some(p) => Some(p@),
                    None => None,
                },
                ..empty_rules()
            }),
    {
        let mut r = ValidationRules::default();
        r.min_length = min_len;
        r.max_length = max_len;
        r.pattern = pattern;
        r
    }

    /// Rules on a number's bounds (as decimal text) only.
    pub fn number_constraints(min: Option<String>, max: Option<String>) -> (r: Self)
        ensures
            r@ == (RulesView {
                minimum: match min {
                    Some(m) => Some(m@),
                    None => None,
                },
                maximum: match max {
                    Some(m) => Some(m@),
                    None => None,
                },
                ..empty_rules()
            }),
    {
        let mut r = ValidationRules::default();
        r.minimum = min;
        r.maximum = max;
        r
    }

    /// Rules allowing only the given values.
    pub fn enum_values(values: Vec<JsonValue>) -> (r: Self)
        ensures
            r@ == (RulesView { allowed_values: Some(json_seq_view(values@)), ..empty_rules() }),
    {
        let mut r = ValidationRules::default();
        r.allowed_values = Some(values);
        r
    }

    /// Rules marking a Kubernetes int-or-string.
    pub fn int_or_string() -> (r: Self)
        ensures
            r@ == (RulesView { k8s_int_or_string: true, ..empty_rules() }),
    {
        let mut r = ValidationRules::default();
        r.k8s_int_or_string = true;
        r
    }
}

impl ValidationRules {
    /// A copy with the same value.
    pub fn duplicate(&self) -> (r: ValidationRules)
        ensures
            r@ == self@,
    {
        let allowed_values = match &self.allowed_values {
            Some(vs) => {
                let mut out: Vec<JsonValue> = Vec::new();
                let mut i: usize = 0;
                while i < vs.len()
                    invariant
                        i <= vs.len(),
                        json_seq_view(out@) == json_seq_view(vs@.take(i as int)),
                    decreases vs.len() - i,
                {
                    let x = vs[i].duplicate();
                    let ghost o0 = out@;
                    out.push(x);
                    proof {
                        assert(out@.drop_last() =~= o0);
                        assert(vs@.take(i + 1).drop_last() =~= vs@.take(i as int));
                    }
                    i = i + 1;
                }
                assert(vs@.take(vs.len() as int) =~= vs@);
                Some(out)
            },
            None => None,
        };
        let format = match &self.format {
            Some(f) => Some(f.duplicate()),
            None => None,
        };
        ValidationRules {
            min_length: self.min_length,
            max_length: self.max_length,
            pattern: copy_opt_string(&self.pattern),
            format,
            minimum: copy_opt_string(&self.minimum),
            maximum: copy_opt_string(&self.maximum),
            exclusive_minimum: copy_opt_string(&self.exclusive_minimum),
            exclusive_maximum: copy_opt_string(&self.exclusive_maximum),
            min_items: self.min_items,
            max_items: self.max_items,
            unique_items: self.unique_items,
            min_properties: self.min_properties,
            max_properties: self.max_properties,
            allowed_values,
            k8s_int_or_string: self.k8s_int_or_string,
            k8s_preserve_unknown_fields: self.k8s_preserve_unknown_fields,
            k8s_embedded_resource: self.k8s_embedded_resource,
            k8s_cel_validations: crate::text::clone_strings(&self.k8s_cel_validations),
        }
    }
}

/// The core type representation.
#[derive(Debug, PartialEq)]
pub enum Type {
    String,
    Number,
    Integer,
    Bool,
    Null,
    Any,
    Array(Box<Type>),
    Mapping { key: Box<Type>, value: Box<Type> },
    Optional(Box<Type>),
    /// A record; its fields in key order, each key once.
    Record { fields: Vec<(String, Field)>, open: bool },
    /// A union, with an optional hint for how to represent it.
    Union { types: Vec<Type>, coercion_hint: Option<UnionCoercion> },
    /// A discriminated union; its variants in tag order, each tag once.
    TaggedUnion { tag_field: String, variants: Vec<(String, Type)> },
    /// A reference to a named type, with the module that holds it.
    Reference { name: String, module: Option<String> },
    /// A type with validation constraints.
    Constrained { base_type: Box<Type>, constraints: ValidationRules },
    /// A type refined by contract rules.
    Contract { base: Box<Type>, rules: Vec<ContractRule> },
}

/// A field of a record.
#[derive(Debug, PartialEq)]
pub struct Field {
    pub ty: Type,
    pub required: bool,
    pub description: Option<String>,
    pub default: Option<JsonValue>,
    pub validation: Option<ValidationRules>,
    pub contracts: Vec<ContractRule>,
}

/// The value of a type.
pub enum TypeView {
    String,
    Number,
    Integer,
    Bool,
    Null,
    Any,
    Array(Box<TypeView>),
    Mapping { key: Box<TypeView>, value: Box<TypeView> },
    Optional(Box<TypeView>),
    Record { fields: Seq<(Seq<char>, FieldView)>, open: bool },
    Union { types: Seq<TypeView>, coercion_hint: Option<(int, Seq<char>)> },
    TaggedUnion { tag_field: Seq<char>, variants: Seq<(Seq<char>, TypeView)> },
    Reference { name: Seq<char>, module: Option<Seq<char>> },
    Constrained { base_type: Box<TypeView>, constraints: RulesView },
    Contract { base: Box<TypeView>, rules: Seq<ContractRuleView> },
}

/// The value of a field.
pub struct FieldView {
    pub ty: TypeView,
    pub required: bool,
    pub description: Option<Seq<char>>,
    pub default: Option<JsonView>,
    pub validation: Option<RulesView>,
    pub contracts: Seq<ContractRuleView>,
}

/// The view of optional validation rules.
pub open spec fn opt_rules_view(o: Option<ValidationRules>) -> Option<RulesView> {
    match o {
        Some(r) => Some(r@),
        None => None,
    }
}

/// The view of an optional JSON value.
pub open spec fn opt_json_view(o: Option<JsonValue>) -> Option<JsonView> {
    match o {
        Some(v) => Some(v@),
        None => None,
    }
}

impl Type {
    /// The value of this type.
    pub open spec fn view_of(self) -> TypeView
        decreases self,
    {
        match self {
            Type::String => TypeView::String,
            Type::Number => TypeView::Number,
            Type::Integer => TypeView::Integer,
            Type::Bool => TypeView::Bool,
            Type::Null => TypeView::Null,
            Type::Any => TypeView::Any,
            Type::Array(t) => TypeView::Array(Box::new(t.view_of())),
            Type::Mapping { key, value } => TypeView::Mapping { key: Box::new(key.view_of()), value: Box::new(value.view_of()) },
            Type::Optional(t) => TypeView::Optional(Box::new(t.view_of())),
            Type::Record { fields, open } => TypeView::Record { fields: fields_view(fields@), open },
            Type::Union { types, coercion_hint } => TypeView::Union {
                types: types_view(types@),
                coercion_hint: opt_coercion_view(coercion_hint),
            },
            Type::TaggedUnion { tag_field, variants } => TypeView::TaggedUnion {
                tag_field: tag_field@,
                variants: variants_view(variants@),
            },
            Type::Reference { name, module } => TypeView::Reference { name: name@, module: opt_str_view(module) },
            Type::Constrained { base_type, constraints } => TypeView::Constrained {
                base_type: Box::new(base_type.view_of()),
                constraints: constraints@,
            },
            Type::Contract { base, rules } => TypeView::Contract {
                base: Box::new(base.view_of()),
                rules: rule_views(rules@),
            },
        }
    }
}

/// The value of a field.
pub open spec fn field_view_of(f: Field) -> FieldView
    decreases f,
{
    FieldView {
        ty: f.ty.view_of(),
        required: f.required,
        description: opt_str_view(f.description),
        default: opt_json_view(f.default),
        validation: opt_rules_view(f.validation),
        contracts: rule_views(f.contracts@),
    }
}

/// The values of a sequence of types.
pub open spec fn types_view(s: Seq<Type>) -> Seq<TypeView>
    decreases s,
{
    if s.len() == 0 {
        Seq::empty()
    } else {
        types_view(s.drop_last()).push(s.last().view_of())
    }
}

/// The values of a sequence of named fields.
pub open spec fn fields_view(s: Seq<(String, Field)>) -> Seq<(Seq<char>, FieldView)>
    decreases s,
{
    if s.len() == 0 {
        Seq::empty()
    } else {
        fields_view(s.drop_last()).push((s.last().0@, field_view_of(s.last().1)))
    }
}

/// The values of a sequence of named variants.
pub open spec fn variants_view(s: Seq<(String, Type)>) -> Seq<(Seq<char>, TypeView)>
    decreases s,
{
    if s.len() == 0 {
        Seq::empty()
    } else {
        variants_view(s.drop_last()).push((s.last().0@, s.last().1.view_of()))
    }
}

impl View for Type {
    type V = TypeView;

    open spec fn view(&self) -> TypeView {
        self.view_of()
    }
}

impl View for Field {
    type V = FieldView;

    open spec fn view(&self) -> FieldView {
        field_view_of(*self)
    }
}

/// The values of a sequence of types, item by item.
pub proof fn lemma_types_view(s: Seq<Type>)
    ensures
        types_view(s).len() == s.len(),
        forall|i: int| 0 <= i < s.len() ==> #[trigger] types_view(s)[i] == s[i].view_of(),
    decreases s.len(),
{
    if s.len() > 0 {
        lemma_types_view(s.drop_last());
    }
}

/// The values of a sequence of named fields, item by item.
pub proof fn lemma_fields_view(s: Seq<(String, Field)>)
    ensures
        fields_view(s).len() == s.len(),
        forall|i: int| 0 <= i < s.len() ==> #[trigger] fields_view(s)[i] == (s[i].0@, field_view_of(s[i].1)),
    decreases s.len(),
{
    if s.len() > 0 {
        lemma_fields_view(s.drop_last());
    }
}

/// The values of a sequence of named variants, item by item.
pub proof fn lemma_variants_view(s: Seq<(String, Type)>)
    ensures
        variants_view(s).len() == s.len(),
        forall|i: int| 0 <= i < s.len() ==> #[trigger] variants_view(s)[i] == (s[i].0@, s[i].1.view_of()),
    decreases s.len(),
{
    if s.len() > 0 {
        lemma_variants_view(s.drop_last());
    }
}

fn contract_eq(a: &ContractRule, b: &ContractRule) -> (r: bool)
    ensures
        r == (a@ == b@),
{
    str_eq(a.name.as_str(), b.name.as_str()) && str_eq(a.expression.as_str(), b.expression.as_str())
        && opt_str_eq(&a.description, &b.description) && opt_str_eq(&a.error_message, &b.error_message)
}

fn contracts_eq(a: &Vec<ContractRule>, b: &Vec<ContractRule>) -> (r: bool)
    ensures
        r == (rule_views(a@) == rule_views(b@)),
{
    if a.len() != b.len() {
        assert(rule_views(a@).len() != rule_views(b@).len());
        return false;
    }
    let mut i: usize = 0;
    while i < a.len()
        invariant
            a.len() == b.len(),
            i <= a.len(),
            forall|j: int| 0 <= j < i ==> #[trigger] a@[j]@ == b@[j]@,
        decreases a.len() - i,
    {
        if !contract_eq(&a[i], &b[i]) {
            assert(rule_views(a@)[i as int] != rule_views(b@)[i as int]);
            return false;
        }
        i = i + 1;
    }
    assert(rule_views(a@) =~= rule_views(b@));
    true
}

fn copy_contracts(a: &Vec<ContractRule>) -> (r: Vec<ContractRule>)
    ensures
        rule_views(r@) == rule_views(a@),
{
    let mut out: Vec<ContractRule> = Vec::new();
    let mut i: usize = 0;
    while i < a.len()
        invariant
            i <= a.len(),
            rule_views(out@) == rule_views(a@.take(i as int)),
        decreases a.len() - i,
    {
        let c = a[i].duplicate();
        let ghost o0 = out@;
        out.push(c);
        assert(rule_views(out@) =~= rule_views(o0).push(c@));
        assert(rule_views(a@.take(i + 1)) =~= rule_views(a@.take(i as int)).push(a@[i as int]@));
        i = i + 1;
    }
    assert(a@.take(a.len() as int) =~= a@);
    out
}

impl Type {
    /// Whether two types are the same.
    pub fn same_as(&self, other: &Type) -> (r: bool)
        ensures
            r == (self@ == other@),
        decreases self,
    {
        match (self, other) {
            (Type::String, Type::String) => true,
            (Type::Number, Type::Number) => true,
            (Type::Integer, Type::Integer) => true,
            (Type::Bool, Type::Bool) => true,
            (Type::Null, Type::Null) => true,
            (Type::Any, Type::Any) => true,
            (Type::Array(x), Type::Array(y)) => x.same_as(y),
            (Type::Optional(x), Type::Optional(y)) => x.same_as(y),
            (Type::Mapping { key: k1, value: v1 }, Type::Mapping { key: k2, value: v2 }) => {
                k1.same_as(k2) && v1.same_as(v2)
            },
            (Type::Record { fields: f1, open: o1 }, Type::Record { fields: f2, open: o2 }) => {
                if *o1 != *o2 || f1.len() != f2.len() {
                    proof {
                        lemma_fields_view(f1@);
                        lemma_fields_view(f2@);
                    }
                    return false;
                }
                proof {
                    lemma_fields_view(f1@);
                    lemma_fields_view(f2@);
                }
                let mut i: usize = 0;
                while i < f1.len()
                    invariant
                        *self == (Type::Record { fields: *f1, open: *o1 }),
                        *other == (Type::Record { fields: *f2, open: *o2 }),
                        *o1 == *o2,
                        f1.len() == f2.len(),
                        i <= f1.len(),
                        fields_view(f1@).len() == f1.len(),
                        fields_view(f2@).len() == f2.len(),
                        forall|j: int| 0 <= j < f1.len() ==> #[trigger] fields_view(f1@)[j] == (f1@[j].0@, f1@[j].1@),
                        forall|j: int| 0 <= j < f2.len() ==> #[trigger] fields_view(f2@)[j] == (f2@[j].0@, f2@[j].1@),
                        forall|j: int| 0 <= j < i ==> #[trigger] fields_view(f1@)[j] == fields_view(f2@)[j],
                    decreases f1.len() - i,
                {
                    proof {
                        vstd::std_specs::vec::axiom_vec_index_decreases(*f1, i as int);
                        assert(decreases_to!(*self => (*self)->Record_fields));
                        assert(decreases_to!(f1@[i as int] => f1@[i as int].1));
                    }
                    if !str_eq(f1[i].0.as_str(), f2[i].0.as_str()) || !f1[i].1.same_as(&f2[i].1) {
                        assert(fields_view(f1@)[i as int] != fields_view(f2@)[i as int]);
                        return false;
                    }
                    i = i + 1;
                }
                assert(fields_view(f1@) =~= fields_view(f2@));
                true
            },
            (Type::Union { types: t1, coercion_hint: h1 }, Type::Union { types: t2, coercion_hint: h2 }) => {
                proof {
                    lemma_types_view(t1@);
                    lemma_types_view(t2@);
                }
                let hints = match (h1, h2) {
                    (Some(x), Some(y)) => coercion_eq(x, y),
                    (None, None) => true,
                    _ => false,
                };
                if !hints || t1.len() != t2.len() {
                    return false;
                }
                let mut i: usize = 0;
                while i < t1.len()
                    invariant
                        *self == (Type::Union { types: *t1, coercion_hint: *h1 }),
                        *other == (Type::Union { types: *t2, coercion_hint: *h2 }),
                        opt_coercion_view(*h1) == opt_coercion_view(*h2),
                        t1.len() == t2.len(),
                        i <= t1.len(),
                        types_view(t1@).len() == t1.len(),
                        types_view(t2@).len() == t2.len(),
                        forall|j: int| 0 <= j < t1.len() ==> #[trigger] types_view(t1@)[j] == t1@[j]@,
                        forall|j: int| 0 <= j < t2.len() ==> #[trigger] types_view(t2@)[j] == t2@[j]@,
                        forall|j: int| 0 <= j < i ==> #[trigger] types_view(t1@)[j] == types_view(t2@)[j],
                    decreases t1.len() - i,
                {
                    proof {
                        vstd::std_specs::vec::axiom_vec_index_decreases(*t1, i as int);
                        assert(decreases_to!(*self => (*self)->Union_types));
                    }
                    if !t1[i].same_as(&t2[i]) {
                        assert(types_view(t1@)[i as int] != types_view(t2@)[i as int]);
                        return false;
                    }
                    i = i + 1;
                }
                assert(types_view(t1@) =~= types_view(t2@));
                true
            },
            (
                Type::TaggedUnion { tag_field: g1, variants: v1 },
                Type::TaggedUnion { tag_field: g2, variants: v2 },
            ) => {
                proof {
                    lemma_variants_view(v1@);
                    lemma_variants_view(v2@);
                }
                if !str_eq(g1.as_str(), g2.as_str()) || v1.len() != v2.len() {
                    return false;
                }
                let mut i: usize = 0;
                while i < v1.len()
                    invariant
                        *self == (Type::TaggedUnion { tag_field: *g1, variants: *v1 }),
                        *other == (Type::TaggedUnion { tag_field: *g2, variants: *v2 }),
                        g1@ == g2@,
                        v1.len() == v2.len(),
                        i <= v1.len(),
                        variants_view(v1@).len() == v1.len(),
                        variants_view(v2@).len() == v2.len(),
                        forall|j: int| 0 <= j < v1.len() ==> #[trigger] variants_view(v1@)[j] == (v1@[j].0@, v1@[j].1@),
                        forall|j: int| 0 <= j < v2.len() ==> #[trigger] variants_view(v2@)[j] == (v2@[j].0@, v2@[j].1@),
                        forall|j: int| 0 <= j < i ==> #[trigger] variants_view(v1@)[j] == variants_view(v2@)[j],
                    decreases v1.len() - i,
                {
                    proof {
                        vstd::std_specs::vec::axiom_vec_index_decreases(*v1, i as int);
                        assert(decreases_to!(*self => (*self)->TaggedUnion_variants));
                        assert(decreases_to!(v1@[i as int] => v1@[i as int].1));
                    }
                    if !str_eq(v1[i].0.as_str(), v2[i].0.as_str()) || !v1[i].1.same_as(&v2[i].1) {
                        assert(variants_view(v1@)[i as int] != variants_view(v2@)[i as int]);
                        return false;
                    }
                    i = i + 1;
                }
                assert(variants_view(v1@) =~= variants_view(v2@));
                true
            },
            (Type::Reference { name: n1, module: m1 }, Type::Reference { name: n2, module: m2 }) => {
                str_eq(n1.as_str(), n2.as_str()) && opt_str_eq(m1, m2)
            },
            (
                Type::Constrained { base_type: b1, constraints: c1 },
                Type::Constrained { base_type: b2, constraints: c2 },
            ) => b1.same_as(b2) && c1.same_as(c2),
            (Type::Contract { base: b1, rules: r1 }, Type::Contract { base: b2, rules: r2 }) => {
                b1.same_as(b2) && contracts_eq(r1, r2)
            },
            _ => false,
        }
    }
}

impl Field {
    /// Whether two fields are the same.
    pub fn same_as(&self, other: &Field) -> (r: bool)
        ensures
            r == (self@ == other@),
        decreases self,
    {
        let v = match (&self.validation, &other.validation) {
            (Some(x), Some(y)) => x.same_as(y),
            (None, None) => true,
            _ => false,
        };
        let d = match (&self.default, &other.default) {
            (Some(x), Some(y)) => json_eq(x, y),
            (None, None) => true,
            _ => false,
        };
        self.ty.same_as(&other.ty) && self.required == other.required && opt_str_eq(
            &self.description,
            &other.description,
        ) && d && v && contracts_eq(&self.contracts, &other.contracts)
    }
}

impl Type {
    /// A copy with the same value.
    pub fn duplicate(&self) -> (r: Type)
        ensures
            r@ == self@,
        decreases self,
    {
        match self {
            Type::String => Type::String,
            Type::Number => Type::Number,
            Type::Integer => Type::Integer,
            Type::Bool => Type::Bool,
            Type::Null => Type::Null,
            Type::Any => Type::Any,
            Type::Array(t) => Type::Array(Box::new(t.duplicate())),
            Type::Optional(t) => Type::Optional(Box::new(t.duplicate())),
            Type::Mapping { key, value } => Type::Mapping {
                key: Box::new(key.duplicate()),
                value: Box::new(value.duplicate()),
            },
            Type::Record { fields, open } => {
                let mut out: Vec<(String, Field)> = Vec::new();
                let mut i: usize = 0;
                while i < fields.len()
                    invariant
                        *self == (Type::Record { fields: *fields, open: *open }),
                        i <= fields.len(),
                        fields_view(out@) == fields_view(fields@.take(i as int)),
                    decreases fields.len() - i,
                {
                    proof {
                        vstd::std_specs::vec::axiom_vec_index_decreases(*fields, i as int);
                        assert(decreases_to!(*self => (*self)->Record_fields));
                        assert(decreases_to!(fields@[i as int] => fields@[i as int].1));
                    }
                    let f = fields[i].1.duplicate();
                    let k = fields[i].0.clone();
                    let ghost o0 = out@;
                    out.push((k, f));
                    proof {
                        assert(out@.drop_last() =~= o0);
                        assert(fields@.take(i + 1).drop_last() =~= fields@.take(i as int));
                    }
                    i = i + 1;
                }
                assert(fields@.take(fields.len() as int) =~= fields@);
                Type::Record { fields: out, open: *open }
            },
            Type::Union { types, coercion_hint } => {
                let mut out: Vec<Type> = Vec::new();
                let mut i: usize = 0;
                while i < types.len()
                    invariant
                        *self == (Type::Union { types: *types, coercion_hint: *coercion_hint }),
                        i <= types.len(),
                        types_view(out@) == types_view(types@.take(i as int)),
                    decreases types.len() - i,
                {
                    proof {
                        vstd::std_specs::vec::axiom_vec_index_decreases(*types, i as int);
                        assert(decreases_to!(*self => (*self)->Union_types));
                    }
                    let t = types[i].duplicate();
                    let ghost o0 = out@;
                    out.push(t);
                    proof {
                        assert(out@.drop_last() =~= o0);
                        assert(types@.take(i + 1).drop_last() =~= types@.take(i as int));
                    }
                    i = i + 1;
                }
                assert(types@.take(types.len() as int) =~= types@);
                let hint = match coercion_hint {
                    Some(c) => Some(c.duplicate()),
                    None => None,
                };
                Type::Union { types: out, coercion_hint: hint }
            },
            Type::TaggedUnion { tag_field, variants } => {
                let mut out: Vec<(String, Type)> = Vec::new();
                let mut i: usize = 0;
                while i < variants.len()
                    invariant
                        *self == (Type::TaggedUnion { tag_field: *tag_field, variants: *variants }),
                        i <= variants.len(),
                        variants_view(out@) == variants_view(variants@.take(i as int)),
                    decreases variants.len() - i,
                {
                    proof {
                        vstd::std_specs::vec::axiom_vec_index_decreases(*variants, i as int);
                        assert(decreases_to!(*self => (*self)->TaggedUnion_variants));
                        assert(decreases_to!(variants@[i as int] => variants@[i as int].1));
                    }
                    let t = variants[i].1.duplicate();
                    let k = variants[i].0.clone();
                    let ghost o0 = out@;
                    out.push((k, t));
                    proof {
                        assert(out@.drop_last() =~= o0);
                        assert(variants@.take(i + 1).drop_last() =~= variants@.take(i as int));
                    }
                    i = i + 1;
                }
                assert(variants@.take(variants.len() as int) =~= variants@);
                Type::TaggedUnion { tag_field: tag_field.clone(), variants: out }
            },
            Type::Reference { name, module } => Type::Reference {
                name: name.clone(),
                module: copy_opt_string(module),
            },
            Type::Constrained { base_type, constraints } => Type::Constrained {
                base_type: Box::new(base_type.duplicate()),
                constraints: constraints.duplicate(),
            },
            Type::Contract { base, rules } => Type::Contract {
                base: Box::new(base.duplicate()),
                rules: copy_contracts(rules),
            },
        }
    }
}

impl Field {
    /// A copy with the same value.
    pub fn duplicate(&self) -> (r: Field)
        ensures
            r@ == self@,
        decreases self,
    {
        let validation = match &self.validation {
            Some(v) => Some(v.duplicate()),
            None => None,
        };
        let default = match &self.default {
            Some(v) => Some(v.duplicate()),
            None => None,
        };
        Field {
            ty: self.ty.duplicate(),
            required: self.required,
            description: copy_opt_string(&self.description),
            default,
            validation,
            contracts: copy_contracts(&self.contracts),
        }
    }
}

// ---------------------------------------------------------------------------
// Ordered maps keyed by strings, as the records keep their fields
// ---------------------------------------------------------------------------

/// Whether `a` sorts before `b`: at the first difference `a` has the smaller
/// character, or `a` is a proper prefix of `b`.
pub open spec fn str_lt(a: Seq<char>, b: Seq<char>) -> bool
    decreases a.len(),
{
    if a.len() == 0 {
        b.len() > 0
    } else if b.len() == 0 {
        false
    } else if a[0] != b[0] {
        (a[0] as int) < (b[0] as int)
    } else {
        str_lt(a.drop_first(), b.drop_first())
    }
}

/// The order of strings is strict and total.
pub proof fn lemma_str_lt_trichotomy(a: Seq<char>, b: Seq<char>)
    ensures
        !str_lt(a, a),
        str_lt(a, b) ==> !str_lt(b, a),
        a != b ==> str_lt(a, b) || str_lt(b, a),
    decreases a.len(),
{
    if a.len() > 0 && b.len() > 0 {
        lemma_str_lt_trichotomy(a.drop_first(), b.drop_first());
        lemma_str_lt_trichotomy(a.drop_first(), a.drop_first());
        if a[0] == b[0] && a != b {
            assert(a.drop_first() != b.drop_first()) by {
                if a.drop_first() == b.drop_first() {
                    assert(a =~= seq![a[0]] + a.drop_first());
                    assert(b =~= seq![b[0]] + b.drop_first());
                }
            }
        }
        if a[0] != b[0] {
            assert((a[0] as int) != (b[0] as int));
        }
    } else if a.len() > 0 {
        lemma_str_lt_trichotomy(a.drop_first(), a.drop_first());
    } else if b.len() == 0 {
        assert(a =~= b);
    }
}

/// `m` with `v` under `k`: the entry with key `k` replaced, or the new entry
/// placed before the first larger key.
pub open spec fn map_insert<V>(m: Seq<(Seq<char>, V)>, k: Seq<char>, v: V) -> Seq<(Seq<char>, V)>
    decreases m.len(),
{
    if m.len() == 0 {
        seq![(k, v)]
    } else if m[0].0 == k {
        seq![(k, v)] + m.drop_first()
    } else if str_lt(k, m[0].0) {
        seq![(k, v)] + m
    } else {
        seq![m[0]] + map_insert(m.drop_first(), k, v)
    }
}

/// The value under `k`: that of the first entry with key `k`.
pub open spec fn map_get<V>(m: Seq<(Seq<char>, V)>, k: Seq<char>) -> Option<V>
    decreases m.len(),
{
    if m.len() == 0 {
        None
    } else if m[0].0 == k {
        Some(m[0].1)
    } else {
        map_get(m.drop_first(), k)
    }
}

/// The keys of an ordered map.
pub open spec fn map_keys<V>(m: Seq<(Seq<char>, V)>) -> Seq<Seq<char>> {
    m.map_values(|e: (Seq<char>, V)| e.0)
}

/// The keys are in strictly increasing order.
pub open spec fn keys_sorted<V>(m: Seq<(Seq<char>, V)>) -> bool {
    forall|i: int, j: int| 0 <= i < j < m.len() ==> str_lt(#[trigger] m[i].0, #[trigger] m[j].0)
}

/// The order of strings is transitive.
pub proof fn lemma_str_lt_transitive(a: Seq<char>, b: Seq<char>, c: Seq<char>)
    ensures
        str_lt(a, b) && str_lt(b, c) ==> str_lt(a, c),
    decreases a.len(),
{
    if a.len() > 0 && b.len() > 0 && c.len() > 0 {
        lemma_str_lt_transitive(a.drop_first(), b.drop_first(), c.drop_first());
    }
}

/// Inserting into a map with keys in strictly increasing order keeps them
/// so; every key of the result is the inserted one or a key of the map.
pub proof fn lemma_map_insert_sorted<V>(m: Seq<(Seq<char>, V)>, k: Seq<char>, v: V)
    ensures
        forall|j: int| 0 <= j < map_insert(m, k, v).len() ==> (#[trigger] map_insert(m, k, v)[j]).0 == k
            || exists|i: int| 0 <= i < m.len() && m[i].0 == map_insert(m, k, v)[j].0,
        keys_sorted(m) ==> keys_sorted(map_insert(m, k, v)),
    decreases m.len(),
{
    let r = map_insert(m, k, v);
    if m.len() == 0 {
    } else if m[0].0 == k {
        assert forall|j: int| 0 <= j < r.len() implies (#[trigger] r[j]).0 == k || exists|i: int| 0 <= i < m.len() && m[i].0 == r[j].0 by {
            if j > 0 {
                assert(m[j].0 == r[j].0);
            }
        }
        if keys_sorted(m) {
            assert forall|i: int, j: int| 0 <= i < j < r.len() implies str_lt(#[trigger] r[i].0, #[trigger] r[j].0) by {
                assert(str_lt(m[i].0, m[j].0));
            }
        }
    } else if str_lt(k, m[0].0) {
        assert forall|j: int| 0 <= j < r.len() implies (#[trigger] r[j]).0 == k || exists|i: int| 0 <= i < m.len() && m[i].0 == r[j].0 by {
            if j > 0 {
                assert(m[j - 1].0 == r[j].0);
            }
        }
        if keys_sorted(m) {
            assert forall|i: int, j: int| 0 <= i < j < r.len() implies str_lt(#[trigger] r[i].0, #[trigger] r[j].0) by {
                if i == 0 {
                    if j > 1 {
                        assert(str_lt(m[0].0, m[j - 1].0));
                        lemma_str_lt_transitive(k, m[0].0, m[j - 1].0);
                    }
                } else {
                    assert(str_lt(m[i - 1].0, m[j - 1].0));
                }
            }
        }
    } else {
        let rest = m.drop_first();
        lemma_map_insert_sorted(rest, k, v);
        let t = map_insert(rest, k, v);
        assert(r == seq![m[0]] + t);
        assert forall|j: int| 0 <= j < r.len() implies (#[trigger] r[j]).0 == k || exists|i: int| 0 <= i < m.len() && m[i].0 == r[j].0 by {
            if j == 0 {
                assert(m[0].0 == r[0].0);
            } else {
                assert(r[j] == t[j - 1]);
                if t[j - 1].0 != k {
                    let i = choose|i: int| 0 <= i < rest.len() && rest[i].0 == t[j - 1].0;
                    assert(m[i + 1].0 == r[j].0);
                }
            }
        }
        if keys_sorted(m) {
            assert(keys_sorted(rest)) by {
                assert forall|i: int, j: int| 0 <= i < j < rest.len() implies str_lt(#[trigger] rest[i].0, #[trigger] rest[j].0) by {
                    assert(str_lt(m[i + 1].0, m[j + 1].0));
                }
            }
            lemma_str_lt_trichotomy(k, m[0].0);
            assert forall|i: int, j: int| 0 <= i < j < r.len() implies str_lt(#[trigger] r[i].0, #[trigger] r[j].0) by {
                if i == 0 {
                    assert(r[j] == t[j - 1]);
                    if t[j - 1].0 != k {
                        let p = choose|p: int| 0 <= p < rest.len() && rest[p].0 == t[j - 1].0;
                        assert(str_lt(m[0].0, m[p + 1].0));
                    }
                } else {
                    assert(r[i] == t[i - 1] && r[j] == t[j - 1]);
                }
            }
        }
    }
}

/// Inserting after the entries with smaller keys.
pub proof fn lemma_map_insert_at<V>(m: Seq<(Seq<char>, V)>, k: Seq<char>, v: V, i: int)
    requires
        0 <= i <= m.len(),
        forall|j: int| 0 <= j < i ==> str_lt(#[trigger] m[j].0, k),
        i < m.len() ==> !str_lt(m[i].0, k),
    ensures
        map_insert(m, k, v) == if i < m.len() && m[i].0 == k {
            m.take(i) + seq![(k, v)] + m.skip(i + 1)
        } else {
            m.take(i) + seq![(k, v)] + m.skip(i)
        },
    decreases i,
{
    if i == 0 {
        if m.len() > 0 {
            lemma_str_lt_trichotomy(k, m[0].0);
            assert(m.skip(1) =~= m.drop_first());
        }
        assert(m.skip(0) =~= m);
        assert(m.take(0) =~= Seq::<(Seq<char>, V)>::empty());
    } else {
        let rest = m.drop_first();
        lemma_str_lt_trichotomy(m[0].0, k);
        assert forall|j: int| 0 <= j < i - 1 implies str_lt(#[trigger] rest[j].0, k) by {
            assert(rest[j] == m[j + 1]);
        }
        lemma_map_insert_at(rest, k, v, i - 1);
        assert(m.take(i) =~= seq![m[0]] + rest.take(i - 1));
        if i < m.len() {
            assert(rest.skip(i) =~= m.skip(i + 1));
        }
        assert(rest.skip(i - 1) =~= m.skip(i));
        if i < m.len() && m[i].0 == k {
            assert(rest[i - 1] == m[i]);
            assert(map_insert(m, k, v) =~= m.take(i) + seq![(k, v)] + m.skip(i + 1));
        } else {
            assert(map_insert(m, k, v) =~= m.take(i) + seq![(k, v)] + m.skip(i));
        }
    }
}

/// Finding a key past the entries with other keys.
pub proof fn lemma_map_get_at<V>(m: Seq<(Seq<char>, V)>, k: Seq<char>, i: int)
    requires
        0 <= i <= m.len(),
        forall|j: int| 0 <= j < i ==> #[trigger] m[j].0 != k,
    ensures
        map_get(m, k) == map_get(m.skip(i), k),
    decreases i,
{
    if i == 0 {
        assert(m.skip(0) =~= m);
    } else {
        let rest = m.drop_first();
        assert(m[0].0 != k);
        assert forall|j: int| 0 <= j < i - 1 implies #[trigger] rest[j].0 != k by {
            assert(rest[j] == m[j + 1]);
        }
        lemma_map_get_at(rest, k, i - 1);
        assert(rest.skip(i - 1) =~= m.skip(i));
    }
}

/// Where the field under `key` stands, if anywhere.
pub fn field_position(m: &Vec<(String, Field)>, key: &str) -> (r: Option<usize>)
    ensures
        match r {
            Some(i) => i < m.len() && map_get(fields_view(m@), key@) == Some(fields_view(m@)[i as int].1)
                && fields_view(m@)[i as int].0 == key@
                && forall|j: int| 0 <= j < i ==> #[trigger] fields_view(m@)[j].0 != key@,
            None => map_get(fields_view(m@), key@) is None,
        },
{
    let ghost fv = fields_view(m@);
    proof {
        lemma_fields_view(m@);
    }
    let mut i: usize = 0;
    while i < m.len()
        invariant
            fv == fields_view(m@),
            fv.len() == m.len(),
            forall|j: int| 0 <= j < m.len() ==> #[trigger] fv[j] == (m@[j].0@, m@[j].1@),
            i <= m.len(),
            forall|j: int| 0 <= j < i ==> #[trigger] fv[j].0 != key@,
        decreases m.len() - i,
    {
        if str_eq(m[i].0.as_str(), key) {
            proof {
                lemma_map_get_at(fv, key@, i as int);
                assert(fv.skip(i as int)[0] == fv[i as int]);
            }
            return Some(i);
        }
        i = i + 1;
    }
    proof {
        lemma_map_get_at(fv, key@, i as int);
    }
    None
}

/// Whether `a` sorts before `b`.
pub fn str_less(a: &str, b: &str) -> (r: bool)
    ensures
        r == str_lt(a@, b@),
{
    let x = crate::text::chars_of(a);
    let y = crate::text::chars_of(b);
    let mut i: usize = 0;
    assert(a@.skip(0) =~= a@);
    assert(b@.skip(0) =~= b@);
    while i < x.len() && i < y.len()
        invariant
            x@ == a@,
            y@ == b@,
            i <= x.len(),
            i <= y.len(),
            x@.take(i as int) == y@.take(i as int),
            str_lt(a@, b@) == str_lt(a@.skip(i as int), b@.skip(i as int)),
        decreases x.len() - i,
    {
        if x[i] != y[i] {
            let lt = x[i] < y[i];
            assert(a@.skip(i as int)[0] == x@[i as int]);
            assert(b@.skip(i as int)[0] == y@[i as int]);
            return lt;
        }
        proof {
            assert(a@.skip(i as int).drop_first() =~= a@.skip(i + 1));
            assert(b@.skip(i as int).drop_first() =~= b@.skip(i + 1));
            assert(x@.take(i + 1) =~= x@.take(i as int).push(x@[i as int]));
            assert(y@.take(i + 1) =~= y@.take(i as int).push(y@[i as int]));
        }
        i = i + 1;
    }
    x.len() < y.len()
}

/// Put `value` under `key`, keeping the fields in key order: an entry with
/// that key is replaced, otherwise the new one goes before the first larger
/// key.
pub fn insert_field(m: &mut Vec<(String, Field)>, key: String, value: Field)
    ensures
        fields_view(final(m)@) == map_insert(fields_view(old(m)@), key@, value@),
        keys_sorted(fields_view(old(m)@)) ==> keys_sorted(fields_view(final(m)@)),
{
    let ghost fv = fields_view(m@);
    let ghost kv = key@;
    let ghost vv = value@;
    proof {
        lemma_fields_view(m@);
    }
    let mut i: usize = 0;
    while i < m.len() && str_less(m[i].0.as_str(), key.as_str())
        invariant
            fv == fields_view(m@),
            fv.len() == m.len(),
            forall|j: int| 0 <= j < m.len() ==> #[trigger] fv[j] == (m@[j].0@, m@[j].1@),
            kv == key@,
            i <= m.len(),
            forall|j: int| 0 <= j < i ==> str_lt(#[trigger] fv[j].0, kv),
        decreases m.len() - i,
    {
        i = i + 1;
    }
    proof {
        lemma_map_insert_at(fv, kv, vv, i as int);
        lemma_map_insert_sorted(fv, kv, vv);
    }
    let ghost m0 = m@;
    if i < m.len() && str_eq(m[i].0.as_str(), key.as_str()) {
        m.remove(i);
        m.insert(i, (key, value));
        proof {
            lemma_fields_view(m@);
            assert(fields_view(m@) =~= fv.take(i as int) + seq![(kv, vv)] + fv.skip(i + 1));
        }
    } else {
        m.insert(i, (key, value));
        proof {
            lemma_fields_view(m@);
            assert(fields_view(m@) =~= fv.take(i as int) + seq![(kv, vv)] + fv.skip(i as int));
        }
    }
}

// ---------------------------------------------------------------------------
// Combining the rules and fields of `allOf` schemas
// ---------------------------------------------------------------------------

/// The values of `a` that `b` also holds, in the order of `a`.
pub open spec fn common_values(a: Seq<JsonView>, b: Seq<JsonView>) -> Seq<JsonView>
    decreases a.len(),
{
    if a.len() == 0 {
        Seq::empty()
    } else if b.contains(a.last()) {
        common_values(a.drop_last(), b).push(a.last())
    } else {
        common_values(a.drop_last(), b)
    }
}

/// Allowed values of both: those both allow, or the first set where they
/// share none; either set alone.
pub open spec fn merge_values_spec(a: Option<Seq<JsonView>>, b: Option<Seq<JsonView>>) -> Option<Seq<JsonView>> {
    match (a, b) {
        (Some(x), Some(y)) => if common_values(x, y).len() == 0 {
            Some(x)
        } else {
            Some(common_values(x, y))
        },
        (Some(x), None) => Some(x),
        (None, Some(y)) => Some(y),
        (None, None) => None,
    }
}

/// A copy of JSON values.
fn copy_json_values(vs: &Vec<JsonValue>) -> (r: Vec<JsonValue>)
    ensures
        json_seq_view(r@) == json_seq_view(vs@),
{
    let mut out: Vec<JsonValue> = Vec::new();
    let mut i: usize = 0;
    while i < vs.len()
        invariant
            i <= vs.len(),
            json_seq_view(out@) == json_seq_view(vs@.take(i as int)),
        decreases vs.len() - i,
    {
        let x = vs[i].duplicate();
        let ghost o0 = out@;
        out.push(x);
        proof {
            assert(out@.drop_last() =~= o0);
            assert(vs@.take(i + 1).drop_last() =~= vs@.take(i as int));
        }
        i = i + 1;
    }
    assert(vs@.take(vs.len() as int) =~= vs@);
    out
}

/// Whether `v` holds a value equal to `x`.
fn holds_value(v: &Vec<JsonValue>, x: &JsonValue) -> (r: bool)
    ensures
        r == json_seq_view(v@).contains(x@),
{
    proof {
        lemma_json_seq_view(v@);
    }
    let mut i: usize = 0;
    while i < v.len()
        invariant
            i <= v.len(),
            json_seq_view(v@).len() == v@.len(),
            forall|k: int| 0 <= k < v@.len() ==> #[trigger] json_seq_view(v@)[k] == v@[k].view_of(),
            forall|k: int| 0 <= k < i ==> json_seq_view(v@)[k] != x@,
        decreases v.len() - i,
    {
        if json_eq(&v[i], x) {
            assert(json_seq_view(v@)[i as int] == x@);
            return true;
        }
        i = i + 1;
    }
    false
}

fn merge_allowed_values(a: &Option<Vec<JsonValue>>, b: &Option<Vec<JsonValue>>) -> (r: Option<Vec<JsonValue>>)
    ensures
        opt_values_view(r) == merge_values_spec(opt_values_view(*a), opt_values_view(*b)),
{
    match (a, b) {
        (Some(x), Some(y)) => {
            let ghost xv = json_seq_view(x@);
            let ghost yv = json_seq_view(y@);
            proof {
                lemma_json_seq_view(x@);
            }
            let mut both: Vec<JsonValue> = Vec::new();
            let mut i: usize = 0;
            while i < x.len()
                invariant
                    i <= x.len(),
                    xv == json_seq_view(x@),
                    yv == json_seq_view(y@),
                    xv.len() == x@.len(),
                    forall|k: int| 0 <= k < x@.len() ==> #[trigger] xv[k] == x@[k].view_of(),
                    json_seq_view(both@) == common_values(xv.take(i as int), yv),
                decreases x.len() - i,
            {
                assert(xv.take(i + 1).drop_last() =~= xv.take(i as int));
                assert(xv.take(i + 1).last() == xv[i as int]);
                if holds_value(y, &x[i]) {
                    let c = x[i].duplicate();
                    let ghost b0 = both@;
                    both.push(c);
                    assert(both@.drop_last() =~= b0);
                }
                i = i + 1;
            }
            assert(xv.take(i as int) =~= xv);
            if both.len() == 0 {
                proof {
                    lemma_json_seq_view(both@);
                }
                Some(copy_json_values(x))
            } else {
                proof {
                    lemma_json_seq_view(both@);
                }
                Some(both)
            }
        },
        (Some(x), None) => Some(copy_json_values(x)),
        (None, Some(y)) => Some(copy_json_values(y)),
        (None, None) => None,
    }
}

/// The entries of `acc`, then each entry of `b` not yet present, in order.
pub open spec fn append_new(acc: Seq<Seq<char>>, b: Seq<Seq<char>>) -> Seq<Seq<char>>
    decreases b.len(),
{
    if b.len() == 0 {
        acc
    } else {
        let r = append_new(acc, b.drop_last());
        if r.contains(b.last()) {
            r
        } else {
            r.push(b.last())
        }
    }
}

fn merge_cel(a: &Vec<String>, b: &Vec<String>) -> (r: Vec<String>)
    ensures
        views(r@) == append_new(views(a@), views(b@)),
{
    let mut out = crate::text::clone_strings(a);
    let ghost bv = views(b@);
    let mut i: usize = 0;
    while i < b.len()
        invariant
            i <= b.len(),
            bv == views(b@),
            views(out@) == append_new(views(a@), bv.take(i as int)),
        decreases b.len() - i,
    {
        assert(bv.take(i + 1).drop_last() =~= bv.take(i as int));
        assert(bv.take(i + 1).last() == b@[i as int]@);
        if !crate::text::contains_str(&out, b[i].as_str()) {
            let ghost o0 = out@;
            out.push(b[i].clone());
            assert(views(out@) =~= views(o0).push(b@[i as int]@));
        }
        i = i + 1;
    }
    assert(bv.take(i as int) =~= bv);
    out
}

/// Uniqueness of items: required if either requires it; otherwise what is
/// said.
pub open spec fn merge_unique_spec(a: Option<bool>, b: Option<bool>) -> Option<bool> {
    if a == Some(true) || b == Some(true) {
        Some(true)
    } else if a == Some(false) && b == Some(false) {
        Some(false)
    } else if a is Some {
        a
    } else {
        b
    }
}

/// The rules of two `allOf` schemas combined, with the number bounds given:
/// the most restrictive length, item and property bounds, a pattern both
/// must match, the first format, the values both allow, uniqueness if
/// either asks for it, every Kubernetes extension of either.
pub open spec fn merged_rules(
    a: RulesView,
    b: RulesView,
    minimum: Option<Seq<char>>,
    maximum: Option<Seq<char>>,
    exclusive_minimum: Option<Seq<char>>,
    exclusive_maximum: Option<Seq<char>>,
) -> RulesView {
    RulesView {
        min_length: max_option_spec(a.min_length, b.min_length),
        max_length: min_option_spec(a.max_length, b.max_length),
        pattern: merge_patterns_spec(a.pattern, b.pattern),
        format: if a.format is Some { a.format } else { b.format },
        minimum,
        maximum,
        exclusive_minimum,
        exclusive_maximum,
        min_items: max_option_spec(a.min_items, b.min_items),
        max_items: min_option_spec(a.max_items, b.max_items),
        unique_items: merge_unique_spec(a.unique_items, b.unique_items),
        min_properties: max_option_spec(a.min_properties, b.min_properties),
        max_properties: min_option_spec(a.max_properties, b.max_properties),
        allowed_values: merge_values_spec(a.allowed_values, b.allowed_values),
        k8s_int_or_string: a.k8s_int_or_string || b.k8s_int_or_string,
        k8s_preserve_unknown_fields: a.k8s_preserve_unknown_fields || b.k8s_preserve_unknown_fields,
        k8s_embedded_resource: a.k8s_embedded_resource || b.k8s_embedded_resource,
        k8s_cel_validations: append_new(a.k8s_cel_validations, b.k8s_cel_validations),
    }
}

/// The four number bounds of merged rules, as decimal text: minimum,
/// maximum, exclusive minimum, exclusive maximum.
pub type NumberBounds = (Option<String>, Option<String>, Option<String>, Option<String>);

impl ValidationRules {
    /// The rules of two `allOf` schemas combined; the merged number bounds
    /// (the larger minimum, the smaller maximum, which a comparison of
    /// floating-point values decides) are given.
    pub fn merge_with_bounds(&self, other: &ValidationRules, bounds: NumberBounds) -> (r: ValidationRules)
        ensures
            r@ == merged_rules(
                self@,
                other@,
                opt_str_view(bounds.0),
                opt_str_view(bounds.1),
                opt_str_view(bounds.2),
                opt_str_view(bounds.3),
            ),
    {
        let (minimum, maximum, exclusive_minimum, exclusive_maximum) = bounds;
        let unique_items = match (self.unique_items, other.unique_items) {
            (Some(true), _) => Some(true),
            (_, Some(true)) => Some(true),
            (Some(false), Some(false)) => Some(false),
            (Some(x), _) => Some(x),
            (None, y) => y,
        };
        let format = match &self.format {
            Some(f) => Some(f.duplicate()),
            None => match &other.format {
                Some(f) => Some(f.duplicate()),
                None => None,
            },
        };
        ValidationRules {
            min_length: max_option(self.min_length, other.min_length),
            max_length: min_option(self.max_length, other.max_length),
            pattern: merge_patterns(&self.pattern, &other.pattern),
            format,
            minimum,
            maximum,
            exclusive_minimum,
            exclusive_maximum,
            min_items: max_option(self.min_items, other.min_items),
            max_items: min_option(self.max_items, other.max_items),
            unique_items,
            min_properties: max_option(self.min_properties, other.min_properties),
            max_properties: min_option(self.max_properties, other.max_properties),
            allowed_values: merge_allowed_values(&self.allowed_values, &other.allowed_values),
            k8s_int_or_string: self.k8s_int_or_string || other.k8s_int_or_string,
            k8s_preserve_unknown_fields: self.k8s_preserve_unknown_fields || other.k8s_preserve_unknown_fields,
            k8s_embedded_resource: self.k8s_embedded_resource || other.k8s_embedded_resource,
            k8s_cel_validations: merge_cel(&self.k8s_cel_validations, &other.k8s_cel_validations),
        }
    }
}

/// Optional rules of two `allOf` schemas combined: merged where both have
/// rules (with the given number bounds), otherwise the rules there are.
pub open spec fn merged_validation(
    a: Option<RulesView>,
    b: Option<RulesView>,
    minimum: Option<Seq<char>>,
    maximum: Option<Seq<char>>,
    exclusive_minimum: Option<Seq<char>>,
    exclusive_maximum: Option<Seq<char>>,
) -> Option<RulesView> {
    match (a, b) {
        (Some(x), Some(y)) => Some(merged_rules(x, y, minimum, maximum, exclusive_minimum, exclusive_maximum)),
        (Some(x), None) => Some(x),
        (None, Some(y)) => Some(y),
        (None, None) => None,
    }
}

/// A field met in two `allOf` schemas combined: one type, or a union of
/// both; required only if both require it; the new description and default
/// first; the rules merged; the contracts of both, the new ones whose name
/// is not yet present after the existing ones.
pub open spec fn merged_field(
    e: FieldView,
    n: FieldView,
    minimum: Option<Seq<char>>,
    maximum: Option<Seq<char>>,
    exclusive_minimum: Option<Seq<char>>,
    exclusive_maximum: Option<Seq<char>>,
) -> FieldView {
    FieldView {
        ty: if e.ty == n.ty {
            e.ty
        } else {
            TypeView::Union { types: seq![e.ty, n.ty], coercion_hint: None }
        },
        required: e.required && n.required,
        description: if n.description is Some {
            n.description
        } else {
            e.description
        },
        default: if n.default is Some {
            n.default
        } else {
            e.default
        },
        validation: merged_validation(
            e.validation,
            n.validation,
            minimum,
            maximum,
            exclusive_minimum,
            exclusive_maximum,
        ),
        contracts: merge_contracts_upto(e.contracts, n.contracts, n.contracts.len() as int),
    }
}

impl Field {
    /// A field met in two `allOf` schemas combined; where both have rules,
    /// the merged number bounds (which a comparison of floating-point values
    /// decides) are given.
    pub fn merge_for_allof_with_bounds(existing: &Field, new: &Field, bounds: NumberBounds) -> (r: Field)
        ensures
            r@ == merged_field(
                existing@,
                new@,
                opt_str_view(bounds.0),
                opt_str_view(bounds.1),
                opt_str_view(bounds.2),
                opt_str_view(bounds.3),
            ),
    {
        let ty = if existing.ty.same_as(&new.ty) {
            existing.ty.duplicate()
        } else {
            let mut types: Vec<Type> = Vec::new();
            types.push(existing.ty.duplicate());
            types.push(new.ty.duplicate());
            proof {
                lemma_types_view(types@);
                assert(types_view(types@) =~= seq![existing.ty@, new.ty@]);
            }
            Type::Union { types, coercion_hint: None }
        };
        let validation = match (&existing.validation, &new.validation) {
            (Some(a), Some(b)) => Some(a.merge_with_bounds(b, bounds)),
            (Some(a), None) => Some(a.duplicate()),
            (None, Some(b)) => Some(b.duplicate()),
            (None, None) => None,
        };
        let description = match &new.description {
            Some(d) => Some(d.clone()),
            None => copy_opt_string(&existing.description),
        };
        let default = match &new.default {
            Some(d) => Some(d.duplicate()),
            None => match &existing.default {
                Some(d) => Some(d.duplicate()),
                None => None,
            },
        };
        Field {
            ty,
            required: existing.required && new.required,
            description,
            default,
            validation,
            contracts: ContractRule::merge_contracts(existing.contracts.as_slice(), new.contracts.as_slice()),
        }
    }
}

} // verus!
