//! Data-driven handling of naming edge cases: type-name transforms, module
//! remappings, import overrides, field renames and type coercion hints.

use vstd::prelude::*;
use vstd::string::StringExecFns;
use crate::naming::{camel_case_spec, to_camel_case};
use crate::regex_match::{
    compile_regex, regex_capture_groups, regex_captures, regex_compiles, regex_find, CompiledRegex,
    regex_is_match, groups_view,
};
use crate::ir::{Module, TypeDefinition};
use crate::types::{
    coercion_view, field_position, fields_view, insert_field, lemma_fields_view, lemma_types_view, map_get,
    map_insert, map_keys, types_view, Field, FieldView, Type, TypeView, UnionCoercion,
};
use crate::text::{
    chars_of, concat, contains, contains_seq, decimal, decimal_spec, ends_with, is_prefix,
    is_suffix, push_char, replace, replace_spec, split_char, split_spec, starts_with, str_eq,
    string_of_range, strip_prefix, strip_suffix, to_owned_string, views, rposition,
};

verus! {

broadcast use vstd::string::group_string_axioms;

/// A transformation rule for type names.
#[derive(Debug, Clone)]
pub struct TypeTransform {
    /// Pattern to match (may use wildcards).
    pub pattern: String,
    /// Source context where this applies (`openapi`, `crd`, or `*`).
    pub context: String,
    /// Transformation to apply.
    pub transform: TransformAction,
}

/// Actions that transform a type name.
#[derive(Debug, Clone)]
pub enum TransformAction {
    /// Remove a prefix.
    RemovePrefix(String),
    /// Remove a suffix.
    RemoveSuffix(String),
    /// Replace every occurrence of `from` by `to`.
    Replace { from: String, to: String },
    /// Apply a named function.
    Function(String),
}

/// Module path remapping rule.
#[derive(Debug, Clone)]
pub struct ModuleRemapping {
    /// Original module pattern (e.g. `io.k8s.api.(.*)`).
    pub from_pattern: String,
    /// Target module pattern (e.g. `api.$1`).
    pub to_pattern: String,
    /// Priority for overlapping rules (higher wins).
    pub priority: i32,
}

/// Import path override for specific cases.
#[derive(Debug, Clone)]
pub struct ImportOverride {
    /// Source module (may use wildcards).
    pub from_module: String,
    /// Target type (may use wildcards).
    pub target_type: String,
    /// Override import path (may hold `$version` and `$type`).
    pub import_path: String,
    /// Reason for the override.
    pub reason: String,
}

/// Field renaming rule.
#[derive(Debug, Clone)]
pub struct FieldRename {
    /// Type containing the field (may use wildcards).
    pub type_pattern: String,
    /// Original field name.
    pub from_field: String,
    /// New field name.
    pub to_field: String,
}

/// Type coercion hint.
#[derive(Debug, Clone)]
pub struct TypeCoercion {
    /// Type name pattern.
    pub type_pattern: String,
    /// Coercion strategy.
    pub strategy: CoercionStrategy,
}

/// How a union type should be coerced.
#[derive(Debug, Clone)]
pub enum CoercionStrategy {
    PreferString,
    PreferNumber,
    PreferFirst,
    Custom(String),
}

/// Context for applying special cases.
#[derive(Debug, Clone)]
pub struct Context {
    /// Current module being processed.
    pub current_module: String,
    /// Source type (`openapi`, `crd`, `go`, ...).
    pub source_type: String,
    /// Additional metadata, as key/value pairs.
    pub metadata: Vec<(String, String)>,
}

/// Registry of all special cases.
#[derive(Debug, Clone)]
pub struct SpecialCaseRegistry {
    type_transforms: Vec<TypeTransform>,
    module_remappings: Vec<ModuleRemapping>,
    import_overrides: Vec<ImportOverride>,
    field_renames: Vec<FieldRename>,
    type_coercions: Vec<TypeCoercion>,
}

/// The rules a registry holds, in order.
pub struct RegistryView {
    pub type_transforms: Seq<TypeTransform>,
    pub module_remappings: Seq<ModuleRemapping>,
    pub import_overrides: Seq<ImportOverride>,
    pub field_renames: Seq<FieldRename>,
    pub type_coercions: Seq<TypeCoercion>,
}

impl View for SpecialCaseRegistry {
    type V = RegistryView;

    closed spec fn view(&self) -> RegistryView {
        RegistryView {
            type_transforms: self.type_transforms@,
            module_remappings: self.module_remappings@,
            import_overrides: self.import_overrides@,
            field_renames: self.field_renames@,
            type_coercions: self.type_coercions@,
        }
    }
}

// ---------------------------------------------------------------------------
// Specifications
// ---------------------------------------------------------------------------

/// Whether `c` must be escaped with a backslash in a regular expression.
pub open spec fn regex_meta(c: char) -> bool {
    c == '[' || c == ']' || c == '{' || c == '}' || c == '^' || c == '$' || c == '|' || c == '\\'
}

/// The regular-expression text for a wildcard pattern body: `(.*)` and
/// `(.+)` pass through as capture groups, `*` becomes `.*`, and the other
/// regex metacharacters are escaped.
pub open spec fn regex_body(p: Seq<char>) -> Seq<char>
    decreases p.len(),
{
    if p.len() == 0 {
        Seq::<char>::empty()
    } else {
        let c = p[0];
        let rest = p.skip(1);
        if c == '(' {
            if rest.len() >= 2 && rest[0] == '.' && (rest[1] == '*' || rest[1] == '+') {
                let after = rest.skip(2);
                if after.len() > 0 && after[0] == ')' {
                    seq!['(', '.', rest[1], ')'] + regex_body(after.skip(1))
                } else {
                    seq!['(', '.', rest[1]] + regex_body(after)
                }
            } else {
                seq!['\\', '('] + regex_body(rest)
            }
        } else if c == '.' {
            seq!['\\', '.'] + regex_body(rest)
        } else if c == '*' {
            seq!['.', '*'] + regex_body(rest)
        } else if c == '+' {
            seq!['\\', '+'] + regex_body(rest)
        } else if c == '?' {
            seq!['\\', '?'] + regex_body(rest)
        } else if regex_meta(c) {
            seq!['\\', c] + regex_body(rest)
        } else {
            seq![c] + regex_body(rest)
        }
    }
}

/// The anchored regular expression for a wildcard pattern.
pub open spec fn pattern_to_regex_spec(p: Seq<char>) -> Seq<char> {
    seq!['^'] + regex_body(p) + seq!['$']
}

/// Whether a pattern holds a capture group.
pub open spec fn has_capture_group(p: Seq<char>) -> bool {
    contains_seq(p, "(.*)"@) || contains_seq(p, "(.+)"@)
}

/// Wildcard pattern matching: `*` matches anything; patterns with capture
/// groups match through their regular expression; `*x*`, `*x` and `x*` match
/// by containment, suffix and prefix; anything else must be equal.
pub open spec fn matches_pattern_spec(pattern: Seq<char>, text: Seq<char>) -> bool {
    if pattern == "*"@ {
        true
    } else if has_capture_group(pattern) && regex_compiles(pattern_to_regex_spec(pattern)) {
        regex_is_match(pattern_to_regex_spec(pattern), text)
    } else if is_prefix("*"@, pattern) && is_suffix("*"@, pattern) {
        contains_seq(text, pattern.subrange(1, pattern.len() - 1))
    } else if is_prefix("*"@, pattern) {
        is_suffix(pattern.skip(1), text)
    } else if is_suffix("*"@, pattern) {
        is_prefix(pattern.take(pattern.len() - 1), text)
    } else {
        pattern == text
    }
}

/// The effect of a transform action on a name.
pub open spec fn apply_action_spec(text: Seq<char>, action: TransformAction) -> Seq<char> {
    match action {
        TransformAction::RemovePrefix(p) => if is_prefix(p@, text) {
            text.skip(p@.len() as int)
        } else {
            text
        },
        TransformAction::RemoveSuffix(p) => if is_suffix(p@, text) {
            text.take(text.len() - p@.len())
        } else {
            text
        },
        TransformAction::Replace { from, to } => replace_spec(text, from@, to@),
        TransformAction::Function(f) => if f@ == "to_camel_case"@ {
            camel_case_spec(text)
        } else {
            text
        },
    }
}

/// Type-name transformation by the first `n` rules: every rule whose
/// pattern matches the original name and whose context is `*` or the source
/// type applies, in order.
pub open spec fn transform_spec(
    rules: Seq<TypeTransform>,
    n: int,
    name: Seq<char>,
    source: Seq<char>,
) -> Seq<char>
    decreases n,
{
    if n <= 0 {
        name
    } else {
        let prev = transform_spec(rules, n - 1, name, source);
        let t = rules[n - 1];
        if matches_pattern_spec(t.pattern@, name) && (t.context@ == "*"@ || t.context@ == source) {
            apply_action_spec(prev, t.transform)
        } else {
            prev
        }
    }
}

/// `to` with `$i` replaced by capture group `i`, for the groups from `i` on.
pub open spec fn substitute_groups(to: Seq<char>, groups: Seq<Option<Seq<char>>>, i: nat) -> Seq<char>
    decreases groups.len() - i,
{
    if i >= groups.len() {
        to
    } else {
        let next = match groups[i as int] {
            Some(m) => replace_spec(to, seq!['$'] + decimal_spec(i), m),
            None => to,
        };
        substitute_groups(next, groups, i + 1)
    }
}

/// The module a single remapping rule maps `module` to, if it applies.
pub open spec fn remapping_spec(module: Seq<char>, r: ModuleRemapping) -> Option<Seq<char>> {
    let from = r.from_pattern@;
    let to = r.to_pattern@;
    if has_capture_group(from) {
        let src = pattern_to_regex_spec(from);
        if regex_compiles(src) {
            match regex_captures(src, module) {
                Some(groups) => Some(substitute_groups(to, groups, 1)),
                None => None,
            }
        } else {
            None
        }
    } else if is_suffix("*"@, from) && is_prefix(from.take(from.len() - 1), module) && is_suffix(
        "$1"@,
        to,
    ) {
        Some(to.take(to.len() - 2) + module.skip(from.len() - 1))
    } else if from == module {
        Some(to)
    } else {
        None
    }
}

/// The applicable remapping with the highest priority among the first `n`
/// rules (the earliest among equals), with its priority.
pub open spec fn best_remapping(module: Seq<char>, rules: Seq<ModuleRemapping>, n: int) -> Option<(i32, Seq<char>)>
    decreases n,
{
    if n <= 0 {
        None
    } else {
        let prev = best_remapping(module, rules, n - 1);
        let r = rules[n - 1];
        match remapping_spec(module, r) {
            None => prev,
            Some(m) => match prev {
                None => Some((r.priority, m)),
                Some(p) => if r.priority > p.0 {
                    Some((r.priority, m))
                } else {
                    prev
                },
            },
        }
    }
}

/// The remapped module: the best applicable rule's result, or the module
/// itself.
pub open spec fn remap_module_spec(module: Seq<char>, rules: Seq<ModuleRemapping>) -> Seq<char> {
    match best_remapping(module, rules, rules.len() as int) {
        Some(p) => p.1,
        None => module,
    }
}

/// The index of the first import override for exactly this module and type.
pub open spec fn exact_override_index(os: Seq<ImportOverride>, from: Seq<char>, target: Seq<char>, n: int) -> Option<int>
    decreases n,
{
    if n <= 0 {
        None
    } else {
        match exact_override_index(os, from, target, n - 1) {
            Some(k) => Some(k),
            None => if os[n - 1].from_module@ == from && os[n - 1].target_type@ == target {
                Some(n - 1)
            } else {
                None
            },
        }
    }
}

/// The index of the first import override whose patterns match.
pub open spec fn pattern_override_index(os: Seq<ImportOverride>, from: Seq<char>, target: Seq<char>, n: int) -> Option<int>
    decreases n,
{
    if n <= 0 {
        None
    } else {
        match pattern_override_index(os, from, target, n - 1) {
            Some(k) => Some(k),
            None => if matches_pattern_spec(os[n - 1].from_module@, from) && matches_pattern_spec(
                os[n - 1].target_type@,
                target,
            ) {
                Some(n - 1)
            } else {
                None
            },
        }
    }
}

/// A module segment that names a version: `v` then a digit.
pub open spec fn version_segment(s: Seq<char>) -> bool {
    s.len() > 1 && s[0] == 'v' && '0' <= s[1] && s[1] <= '9'
}

/// `version_segment` as a predicate value.
pub open spec fn version_segment_pred() -> spec_fn(Seq<char>) -> bool {
    |s: Seq<char>| version_segment(s)
}

/// The last version segment of a module, `v1` when there is none.
pub open spec fn module_version_spec(module: Seq<char>) -> Seq<char> {
    let parts = split_spec(module, '.');
    match rposition(parts, version_segment_pred()) {
        Some(i) => parts[i],
        None => "v1"@,
    }
}

/// An import path template with `$version` and `$type` filled in.
pub open spec fn substitutions_spec(template: Seq<char>, from: Seq<char>, target: Seq<char>) -> Seq<char> {
    replace_spec(replace_spec(template, "$version"@, module_version_spec(from)), "$type"@, target)
}

/// The import path for a module and a type: an exact override first, then
/// the first override whose patterns match, with substitutions.
pub open spec fn resolve_import_spec(os: Seq<ImportOverride>, from: Seq<char>, target: Seq<char>) -> Option<Seq<char>> {
    match exact_override_index(os, from, target, os.len() as int) {
        Some(k) => Some(os[k].import_path@),
        None => match pattern_override_index(os, from, target, os.len() as int) {
            Some(k) => Some(substitutions_spec(os[k].import_path@, from, target)),
            None => None,
        },
    }
}

/// The index of the first field rename that applies.
pub open spec fn field_rename_index(rs: Seq<FieldRename>, tname: Seq<char>, field: Seq<char>, n: int) -> Option<int>
    decreases n,
{
    if n <= 0 {
        None
    } else {
        match field_rename_index(rs, tname, field, n - 1) {
            Some(k) => Some(k),
            None => if matches_pattern_spec(rs[n - 1].type_pattern@, tname)
                && rs[n - 1].from_field@ == field {
                Some(n - 1)
            } else {
                None
            },
        }
    }
}

/// The index of the first coercion hint whose pattern matches.
pub open spec fn coercion_index(cs: Seq<TypeCoercion>, tname: Seq<char>, n: int) -> Option<int>
    decreases n,
{
    if n <= 0 {
        None
    } else {
        match coercion_index(cs, tname, n - 1) {
            Some(k) => Some(k),
            None => if matches_pattern_spec(cs[n - 1].type_pattern@, tname) {
                Some(n - 1)
            } else {
                None
            },
        }
    }
}


// ---------------------------------------------------------------------------
// Executable rules
// ---------------------------------------------------------------------------

/// The anchored regular-expression text for a wildcard pattern.
fn pattern_regex_source(pattern: &str) -> (r: String)
    ensures
        r@ == pattern_to_regex_spec(pattern@),
{
    let pv = chars_of(pattern);
    let n = pv.len();
    let mut out = String::new();
    push_char(&mut out, '^');
    let mut i: usize = 0;
    assert(pv@.skip(0) =~= pv@);
    assert(out@ =~= seq!['^']);
    while i < n
        invariant
            pv@ == pattern@,
            n == pv.len(),
            i <= n,
            out@ + regex_body(pv@.skip(i as int)) == seq!['^'] + regex_body(pv@),
        decreases n - i,
    {
        let ghost s = pv@.skip(i as int);
        let ghost o = out@;
        let c = pv[i];
        assert(s[0] == c);
        assert(s.skip(1) =~= pv@.skip(i + 1));
        if c == '(' {
            if n - i > 2 && pv[i + 1] == '.' && (pv[i + 2] == '*' || pv[i + 2] == '+') {
                let q = pv[i + 2];
                assert(s.skip(1).skip(2) =~= pv@.skip(i + 3));
                push_char(&mut out, '(');
                push_char(&mut out, '.');
                push_char(&mut out, q);
                if n - i > 3 && pv[i + 3] == ')' {
                    push_char(&mut out, ')');
                    assert(pv@.skip(i + 3).skip(1) =~= pv@.skip(i + 4));
                    assert(out@ + regex_body(pv@.skip(i + 4)) =~= o + (seq!['(', '.', q, ')']
                        + regex_body(pv@.skip(i + 4))));
                    i = i + 4;
                } else {
                    assert(out@ + regex_body(pv@.skip(i + 3)) =~= o + (seq!['(', '.', q]
                        + regex_body(pv@.skip(i + 3))));
                    i = i + 3;
                }
            } else {
                push_char(&mut out, '\\');
                push_char(&mut out, '(');
                assert(out@ + regex_body(pv@.skip(i + 1)) =~= o + (seq!['\\', '(']
                    + regex_body(pv@.skip(i + 1))));
                i = i + 1;
            }
        } else if c == '.' || c == '+' || c == '?' || c == '[' || c == ']' || c == '{' || c == '}'
            || c == '^' || c == '$' || c == '|' || c == '\\' {
            push_char(&mut out, '\\');
            push_char(&mut out, c);
            assert(out@ + regex_body(pv@.skip(i + 1)) =~= o + (seq!['\\', c] + regex_body(
                pv@.skip(i + 1),
            )));
            i = i + 1;
        } else if c == '*' {
            push_char(&mut out, '.');
            push_char(&mut out, '*');
            assert(out@ + regex_body(pv@.skip(i + 1)) =~= o + (seq!['.', '*'] + regex_body(
                pv@.skip(i + 1),
            )));
            i = i + 1;
        } else {
            push_char(&mut out, c);
            assert(out@ + regex_body(pv@.skip(i + 1)) =~= o + (seq![c] + regex_body(
                pv@.skip(i + 1),
            )));
            i = i + 1;
        }
    }
    assert(pv@.skip(n as int) =~= Seq::<char>::empty());
    let ghost before = out@;
    push_char(&mut out, '$');
    assert(before + regex_body(Seq::<char>::empty()) =~= before);
    out
}

/// Whether a pattern holds a capture group, `(.*)` or `(.+)`.
fn pattern_has_capture_group(pattern: &str) -> (r: bool)
    ensures
        r == has_capture_group(pattern@),
{
    contains(pattern, "(.*)") || contains(pattern, "(.+)")
}

impl SpecialCaseRegistry {
    /// Compile the regular expression for a wildcard pattern: `None` when
    /// the `regex` crate refuses it.
    pub fn pattern_to_regex(&self, pattern: &str) -> (r: Option<CompiledRegex>)
        ensures
            r is Some <==> regex_compiles(pattern_to_regex_spec(pattern@)),
            r matches Some(c) ==> c.source_view() == pattern_to_regex_spec(pattern@),
    {
        let src = pattern_regex_source(pattern);
        compile_regex(src.as_str())
    }

    /// Whether `text` matches a wildcard pattern.
    pub fn matches_pattern(&self, pattern: &str, text: &str) -> (r: bool)
        ensures
            r == matches_pattern_spec(pattern@, text@),
    {
        proof {
            reveal_strlit("*");
        }
        if str_eq(pattern, "*") {
            return true;
        }
        if pattern_has_capture_group(pattern) {
            match self.pattern_to_regex(pattern) {
                Some(re) => {
                    return regex_find(&re, text);
                },
                None => {},
            }
        }
        if starts_with(pattern, "*") && ends_with(pattern, "*") {
            let pv = chars_of(pattern);
            assert(pattern@.len() >= 2) by {
                if pattern@.len() == 1 {
                    assert(pattern@ =~= "*"@);
                }
            }
            let middle = string_of_range(&pv, 1, pv.len() - 1);
            return contains(text, middle.as_str());
        }
        match strip_prefix(pattern, "*") {
            Some(suffix) => {
                return ends_with(text, suffix.as_str());
            },
            None => {},
        }
        match strip_suffix(pattern, "*") {
            Some(prefix) => {
                return starts_with(text, prefix.as_str());
            },
            None => {},
        }
        str_eq(pattern, text)
    }

    /// Apply one transform action to a name.
    pub fn apply_transform_action(&self, text: &str, action: &TransformAction) -> (r: String)
        ensures
            r@ == apply_action_spec(text@, *action),
    {
        match action {
            TransformAction::RemovePrefix(prefix) => match strip_prefix(text, prefix.as_str()) {
                Some(t) => t,
                None => to_owned_string(text),
            },
            TransformAction::RemoveSuffix(suffix) => match strip_suffix(text, suffix.as_str()) {
                Some(t) => t,
                None => to_owned_string(text),
            },
            TransformAction::Replace { from, to } => replace(text, from.as_str(), to.as_str()),
            TransformAction::Function(func_name) => {
                if str_eq(func_name.as_str(), "to_camel_case") {
                    to_camel_case(text)
                } else {
                    to_owned_string(text)
                }
            },
        }
    }

    /// Apply every relevant transformation to a type name, in rule order.
    pub fn transform_type_name(&self, name: &str, context: &Context) -> (r: String)
        ensures
            r@ == transform_spec(
                self@.type_transforms,
                self@.type_transforms.len() as int,
                name@,
                context.source_type@,
            ),
    {
        let mut result = to_owned_string(name);
        let mut i: usize = 0;
        while i < self.type_transforms.len()
            invariant
                i <= self.type_transforms.len(),
                result@ == transform_spec(
                    self.type_transforms@,
                    i as int,
                    name@,
                    context.source_type@,
                ),
            decreases self.type_transforms.len() - i,
        {
            let t = &self.type_transforms[i];
            if self.matches_pattern(t.pattern.as_str(), name) && (str_eq(t.context.as_str(), "*")
                || str_eq(t.context.as_str(), context.source_type.as_str())) {
                result = self.apply_transform_action(result.as_str(), &t.transform);
            }
            i = i + 1;
        }
        result
    }
}

/// `to` with each `$i` (for `i >= 1`) replaced by capture group `i`.
fn substitute_captures(to: &str, groups: &Vec<Option<String>>) -> (r: String)
    ensures
        r@ == substitute_groups(to@, groups_view(groups@), 1),
{
    let ghost gv = groups_view(groups@);
    let mut result = to_owned_string(to);
    let mut i: usize = 1;
    while i < groups.len()
        invariant
            gv == groups_view(groups@),
            1 <= i,
            substitute_groups(result@, gv, i as nat) == substitute_groups(to@, gv, 1),
        decreases groups.len() - i,
    {
        match &groups[i] {
            Some(m) => {
                let mut placeholder = String::new();
                push_char(&mut placeholder, '$');
                let digits = decimal(i);
                placeholder.append(digits.as_str());
                assert(placeholder@ =~= seq!['$'] + decimal_spec(i as nat));
                result = replace(result.as_str(), placeholder.as_str(), m.as_str());
            },
            None => {},
        }
        i = i + 1;
    }
    result
}

/// The view of a remapping candidate.
pub open spec fn candidate_view(c: Option<(i32, String)>) -> Option<(i32, Seq<char>)> {
    match c {
        Some(p) => Some((p.0, p.1@)),
        None => None,
    }
}

/// The view of an optional string.
pub open spec fn opt_view(o: Option<String>) -> Option<Seq<char>> {
    match o {
        Some(s) => Some(s@),
        None => None,
    }
}

/// The version segment of a module name (`v1` when it has none).
fn module_version(module: &str) -> (r: String)
    ensures
        r@ == module_version_spec(module@),
{
    let parts = split_char(module, '.');
    let ghost ps = views(parts@);
    let mut j: usize = parts.len();
    assert(ps.take(j as int) =~= ps);
    while j > 0
        invariant
            ps == views(parts@),
            ps == split_spec(module@, '.'),
            ps.len() == parts.len(),
            j <= parts.len(),
            rposition(ps, version_segment_pred()) == rposition(ps.take(j as int), version_segment_pred()),
        decreases j,
    {
        let cs = chars_of(parts[j - 1].as_str());
        assert(cs@ == ps[j - 1]);
        assert(ps.take(j as int).last() == ps[j - 1]);
        if cs.len() > 1 && cs[0] == 'v' && '0' <= cs[1] && cs[1] <= '9' {
            assert(version_segment(ps[j - 1]));
            assert(version_segment_pred()(ps.take(j as int).last()));
            assert(rposition(ps.take(j as int), version_segment_pred()) == Some(j - 1));
            let r = parts[j - 1].clone();
            assert(r@ == ps[j - 1]);
            return r;
        }
        assert(ps.take(j as int).drop_last() =~= ps.take(j - 1));
        j = j - 1;
    }
    proof {
        reveal_strlit("v1");
    }
    to_owned_string("v1")
}

impl SpecialCaseRegistry {
    /// The module a single remapping rule maps `module` to, if it applies.
    pub fn apply_remapping(&self, module: &str, remapping: &ModuleRemapping) -> (r: Option<String>)
        ensures
            opt_view(r) == remapping_spec(module@, *remapping),
    {
        let from = remapping.from_pattern.as_str();
        if pattern_has_capture_group(from) {
            return match self.pattern_to_regex(from) {
                Some(re) => match regex_capture_groups(&re, module) {
                    Some(groups) => Some(substitute_captures(remapping.to_pattern.as_str(), &groups)),
                    None => None,
                },
                None => None,
            };
        }
        proof {
            reveal_strlit("*");
            reveal_strlit("$1");
        }
        match strip_suffix(from, "*") {
            Some(prefix) => {
                if starts_with(module, prefix.as_str()) {
                    match strip_suffix(remapping.to_pattern.as_str(), "$1") {
                        Some(to_prefix) => {
                            match strip_prefix(module, prefix.as_str()) {
                                Some(rest) => {
                                    return Some(concat(to_prefix.as_str(), rest.as_str()));
                                },
                                None => {},
                            }
                        },
                        None => {},
                    }
                }
            },
            None => {},
        }
        if str_eq(from, module) {
            Some(remapping.to_pattern.clone())
        } else {
            None
        }
    }

    /// Remap a module path: the applicable rule with the highest priority
    /// (the earliest among equals) wins; with none, the module is unchanged.
    pub fn remap_module(&self, module: &str) -> (r: String)
        ensures
            r@ == remap_module_spec(module@, self@.module_remappings),
    {
        let mut best: Option<(i32, String)> = None;
        let mut i: usize = 0;
        while i < self.module_remappings.len()
            invariant
                i <= self.module_remappings.len(),
                candidate_view(best) == best_remapping(module@, self.module_remappings@, i as int),
            decreases self.module_remappings.len() - i,
        {
            let rule = &self.module_remappings[i];
            match self.apply_remapping(module, rule) {
                Some(m) => {
                    let better = match &best {
                        None => true,
                        Some(b) => rule.priority > b.0,
                    };
                    if better {
                        best = Some((rule.priority, m));
                    }
                },
                None => {},
            }
            i = i + 1;
        }
        match best {
            Some(b) => b.1,
            None => to_owned_string(module),
        }
    }

    /// The import override for exactly this module and type, if any.
    pub fn get_import_override(&self, from_module: &str, target_type: &str) -> (r: Option<
        &ImportOverride,
    >)
        ensures
            match exact_override_index(
                self@.import_overrides,
                from_module@,
                target_type@,
                self@.import_overrides.len() as int,
            ) {
                Some(k) => r matches Some(o) && *o == self@.import_overrides[k],
                None => r is None,
            },
    {
        let mut i: usize = 0;
        while i < self.import_overrides.len()
            invariant
                i <= self.import_overrides.len(),
                exact_override_index(self.import_overrides@, from_module@, target_type@, i as int)
                    is None,
            decreases self.import_overrides.len() - i,
        {
            let o = &self.import_overrides[i];
            if str_eq(o.from_module.as_str(), from_module) && str_eq(
                o.target_type.as_str(),
                target_type,
            ) {
                proof {
                    lemma_exact_override_found(self.import_overrides@, from_module@, target_type@, i as int, self.import_overrides@.len() as int);
                }
                return Some(o);
            }
            i = i + 1;
        }
        None
    }

    /// `template` with `$version` (the module's version segment) and
    /// `$type` filled in.
    pub fn apply_path_substitutions(&self, template: &str, from_module: &str, target_type: &str) -> (r: String)
        ensures
            r@ == substitutions_spec(template@, from_module@, target_type@),
    {
        let version = module_version(from_module);
        let step = replace(template, "$version", version.as_str());
        replace(step.as_str(), "$type", target_type)
    }

    /// The import path for a type referenced from a module: an exact override
    /// first, then the first override whose patterns match (with
    /// substitutions).
    pub fn resolve_import_path(&self, from_module: &str, target_type: &str) -> (r: Option<String>)
        ensures
            opt_view(r) == resolve_import_spec(self@.import_overrides, from_module@, target_type@),
    {
        match self.get_import_override(from_module, target_type) {
            Some(o) => {
                return Some(o.import_path.clone());
            },
            None => {},
        }
        assert(exact_override_index(
            self@.import_overrides,
            from_module@,
            target_type@,
            self@.import_overrides.len() as int,
        ) is None);
        let mut i: usize = 0;
        while i < self.import_overrides.len()
            invariant
                i <= self.import_overrides.len(),
                pattern_override_index(self.import_overrides@, from_module@, target_type@, i as int)
                    is None,
                exact_override_index(
                    self.import_overrides@,
                    from_module@,
                    target_type@,
                    self.import_overrides@.len() as int,
                ) is None,
            decreases self.import_overrides.len() - i,
        {
            let o = &self.import_overrides[i];
            let module_matches = self.matches_pattern(o.from_module.as_str(), from_module);
            let type_matches = self.matches_pattern(o.target_type.as_str(), target_type);
            if module_matches && type_matches {
                proof {
                    lemma_pattern_override_found(self.import_overrides@, from_module@, target_type@, i as int, self.import_overrides@.len() as int);
                }
                let path = self.apply_path_substitutions(o.import_path.as_str(), from_module, target_type);
                return Some(path);
            }
            i = i + 1;
        }
        None
    }

    /// All import overrides, in order.
    pub fn import_overrides(&self) -> (r: &[ImportOverride])
        ensures
            r@ == self@.import_overrides,
    {
        self.import_overrides.as_slice()
    }

    /// The new name of a field, from the first rename rule that applies.
    pub fn get_field_rename(&self, tname: &str, field_name: &str) -> (r: Option<String>)
        ensures
            match field_rename_index(
                self@.field_renames,
                tname@,
                field_name@,
                self@.field_renames.len() as int,
            ) {
                Some(k) => opt_view(r) == Some(self@.field_renames[k].to_field@),
                None => r is None,
            },
    {
        let mut i: usize = 0;
        while i < self.field_renames.len()
            invariant
                i <= self.field_renames.len(),
                field_rename_index(self.field_renames@, tname@, field_name@, i as int) is None,
            decreases self.field_renames.len() - i,
        {
            let rename = &self.field_renames[i];
            if self.matches_pattern(rename.type_pattern.as_str(), tname) && str_eq(
                rename.from_field.as_str(),
                field_name,
            ) {
                proof {
                    lemma_field_rename_found(self.field_renames@, tname@, field_name@, i as int, self.field_renames@.len() as int);
                }
                return Some(rename.to_field.clone());
            }
            i = i + 1;
        }
        None
    }

    /// The coercion strategy of the first hint whose pattern matches.
    pub fn get_coercion_strategy(&self, tname: &str) -> (r: Option<&CoercionStrategy>)
        ensures
            match coercion_index(self@.type_coercions, tname@, self@.type_coercions.len() as int) {
                Some(k) => r matches Some(c) && *c == self@.type_coercions[k].strategy,
                None => r is None,
            },
    {
        let mut i: usize = 0;
        while i < self.type_coercions.len()
            invariant
                i <= self.type_coercions.len(),
                coercion_index(self.type_coercions@, tname@, i as int) is None,
            decreases self.type_coercions.len() - i,
        {
            let c = &self.type_coercions[i];
            if self.matches_pattern(c.type_pattern.as_str(), tname) {
                proof {
                    lemma_coercion_found(self.type_coercions@, tname@, i as int, self.type_coercions@.len() as int);
                }
                return Some(&c.strategy);
            }
            i = i + 1;
        }
        None
    }

    /// Append every rule of `other` after this registry's rules.
    pub fn merge(&mut self, other: SpecialCaseRegistry)
        ensures
            final(self)@.type_transforms == old(self)@.type_transforms + other@.type_transforms,
            final(self)@.module_remappings == old(self)@.module_remappings
                + other@.module_remappings,
            final(self)@.import_overrides == old(self)@.import_overrides + other@.import_overrides,
            final(self)@.field_renames == old(self)@.field_renames + other@.field_renames,
            final(self)@.type_coercions == old(self)@.type_coercions + other@.type_coercions,
    {
        let mut other = other;
        self.type_transforms.append(&mut other.type_transforms);
        self.module_remappings.append(&mut other.module_remappings);
        self.import_overrides.append(&mut other.import_overrides);
        self.field_renames.append(&mut other.field_renames);
        self.type_coercions.append(&mut other.type_coercions);
    }
}

// ---------------------------------------------------------------------------
// Lemmas on the first-match searches
// ---------------------------------------------------------------------------

/// Once the first `i` overrides hold no exact match and override `i` is one,
/// the first exact match among any `n > i` overrides is `i`.
proof fn lemma_exact_override_found(os: Seq<ImportOverride>, from: Seq<char>, target: Seq<char>, i: int, n: int)
    requires
        0 <= i < n,
        exact_override_index(os, from, target, i) is None,
        os[i].from_module@ == from && os[i].target_type@ == target,
    ensures
        exact_override_index(os, from, target, n) == Some(i),
    decreases n - i,
{
    if n > i + 1 {
        lemma_exact_override_found(os, from, target, i, n - 1);
    }
}

/// As `lemma_exact_override_found`, for pattern matches.
proof fn lemma_pattern_override_found(os: Seq<ImportOverride>, from: Seq<char>, target: Seq<char>, i: int, n: int)
    requires
        0 <= i < n,
        pattern_override_index(os, from, target, i) is None,
        matches_pattern_spec(os[i].from_module@, from),
        matches_pattern_spec(os[i].target_type@, target),
    ensures
        pattern_override_index(os, from, target, n) == Some(i),
    decreases n - i,
{
    if n > i + 1 {
        lemma_pattern_override_found(os, from, target, i, n - 1);
    }
}

/// As `lemma_exact_override_found`, for field renames.
proof fn lemma_field_rename_found(rs: Seq<FieldRename>, tname: Seq<char>, field: Seq<char>, i: int, n: int)
    requires
        0 <= i < n,
        field_rename_index(rs, tname, field, i) is None,
        matches_pattern_spec(rs[i].type_pattern@, tname),
        rs[i].from_field@ == field,
    ensures
        field_rename_index(rs, tname, field, n) == Some(i),
    decreases n - i,
{
    if n > i + 1 {
        lemma_field_rename_found(rs, tname, field, i, n - 1);
    }
}

/// As `lemma_exact_override_found`, for coercion hints.
proof fn lemma_coercion_found(cs: Seq<TypeCoercion>, tname: Seq<char>, i: int, n: int)
    requires
        0 <= i < n,
        coercion_index(cs, tname, i) is None,
        matches_pattern_spec(cs[i].type_pattern@, tname),
    ensures
        coercion_index(cs, tname, n) == Some(i),
    decreases n - i,
{
    if n > i + 1 {
        lemma_coercion_found(cs, tname, i, n - 1);
    }
}

// ---------------------------------------------------------------------------
// The built-in rules
// ---------------------------------------------------------------------------

/// The rules a registry starts with: meta/v1 type names lose their package
/// prefix; `io.k8s.api.*` and `io.k8s.apimachinery.*` modules drop their
/// `io.k8s.` prefix; `ObjectMeta`, `LabelSelector`, `IntOrString` and
/// `Quantity` are imported from the apimachinery package; `$ref` fields are
/// renamed `ref_field`; `IntOrString` prefers its string form.
pub open spec fn is_default_registry(v: RegistryView) -> bool {
    &&& v.type_transforms.len() == 1
    &&& v.type_transforms[0].pattern@ == "io.k8s.apimachinery.pkg.apis.meta.v1.*"@
    &&& v.type_transforms[0].context@ == "*"@
    &&& v.type_transforms[0].transform matches TransformAction::RemovePrefix(p)
        && p@ == "io.k8s.apimachinery.pkg.apis.meta.v1."@
    &&& v.module_remappings.len() == 2
    &&& v.module_remappings[0].from_pattern@ == "io.k8s.api.(.*)"@
    &&& v.module_remappings[0].to_pattern@ == "api.$1"@
    &&& v.module_remappings[0].priority == 10
    &&& v.module_remappings[1].from_pattern@ == "io.k8s.apimachinery.(.*)"@
    &&& v.module_remappings[1].to_pattern@ == "apimachinery.$1"@
    &&& v.module_remappings[1].priority == 10
    &&& v.import_overrides.len() == 4
    &&& v.import_overrides[0].from_module@ == "api.*"@
    &&& v.import_overrides[0].target_type@ == "ObjectMeta"@
    &&& v.import_overrides[0].import_path@ == "../../apimachinery.pkg.apis/meta/v1/mod.ncl"@
    &&& v.import_overrides[1].from_module@ == "api.*"@
    &&& v.import_overrides[1].target_type@ == "LabelSelector"@
    &&& v.import_overrides[1].import_path@
        == "../../apimachinery.pkg.apis/meta/$version/mod.ncl"@
    &&& v.import_overrides[2].from_module@ == "*"@
    &&& v.import_overrides[2].target_type@ == "IntOrString"@
    &&& v.import_overrides[2].import_path@ == "../../apimachinery.pkg.apis/runtime/v0/mod.ncl"@
    &&& v.import_overrides[3].from_module@ == "*"@
    &&& v.import_overrides[3].target_type@ == "Quantity"@
    &&& v.import_overrides[3].import_path@ == "../../apimachinery.pkg.apis/runtime/v0/mod.ncl"@
    &&& v.field_renames.len() == 1
    &&& v.field_renames[0].type_pattern@ == "*"@
    &&& v.field_renames[0].from_field@ == "$ref"@
    &&& v.field_renames[0].to_field@ == "ref_field"@
    &&& v.type_coercions.len() == 1
    &&& v.type_coercions[0].type_pattern@ == "IntOrString"@
    &&& v.type_coercions[0].strategy is PreferString
}

fn import_override(from_module: &str, target_type: &str, import_path: &str, reason: &str) -> (o:
    ImportOverride)
    ensures
        o.from_module@ == from_module@,
        o.target_type@ == target_type@,
        o.import_path@ == import_path@,
        o.reason@ == reason@,
{
    ImportOverride {
        from_module: to_owned_string(from_module),
        target_type: to_owned_string(target_type),
        import_path: to_owned_string(import_path),
        reason: to_owned_string(reason),
    }
}

impl SpecialCaseRegistry {
    /// A registry holding the built-in rules.
    pub fn new() -> (r: Self)
        ensures
            is_default_registry(r@),
    {
        let mut type_transforms: Vec<TypeTransform> = Vec::new();
        type_transforms.push(
            TypeTransform {
                pattern: to_owned_string("io.k8s.apimachinery.pkg.apis.meta.v1.*"),
                context: to_owned_string("*"),
                transform: TransformAction::RemovePrefix(
                    to_owned_string("io.k8s.apimachinery.pkg.apis.meta.v1."),
                ),
            },
        );
        let mut module_remappings: Vec<ModuleRemapping> = Vec::new();
        module_remappings.push(
            ModuleRemapping {
                from_pattern: to_owned_string("io.k8s.api.(.*)"),
                to_pattern: to_owned_string("api.$1"),
                priority: 10,
            },
        );
        module_remappings.push(
            ModuleRemapping {
                from_pattern: to_owned_string("io.k8s.apimachinery.(.*)"),
                to_pattern: to_owned_string("apimachinery.$1"),
                priority: 10,
            },
        );
        let mut import_overrides: Vec<ImportOverride> = Vec::new();
        import_overrides.push(
            import_override(
                "api.*",
                "ObjectMeta",
                "../../apimachinery.pkg.apis/meta/v1/mod.ncl",
                "ObjectMeta is defined in apimachinery, not in the api groups",
            ),
        );
        import_overrides.push(
            import_override(
                "api.*",
                "LabelSelector",
                "../../apimachinery.pkg.apis/meta/$version/mod.ncl",
                "LabelSelector is defined in apimachinery meta",
            ),
        );
        import_overrides.push(
            import_override(
                "*",
                "IntOrString",
                "../../apimachinery.pkg.apis/runtime/v0/mod.ncl",
                "IntOrString is a runtime type",
            ),
        );
        import_overrides.push(
            import_override(
                "*",
                "Quantity",
                "../../apimachinery.pkg.apis/runtime/v0/mod.ncl",
                "Quantity is a runtime type",
            ),
        );
        let mut field_renames: Vec<FieldRename> = Vec::new();
        field_renames.push(
            FieldRename {
                type_pattern: to_owned_string("*"),
                from_field: to_owned_string("$ref"),
                to_field: to_owned_string("ref_field"),
            },
        );
        let mut type_coercions: Vec<TypeCoercion> = Vec::new();
        type_coercions.push(
            TypeCoercion {
                type_pattern: to_owned_string("IntOrString"),
                strategy: CoercionStrategy::PreferString,
            },
        );
        SpecialCaseRegistry {
            type_transforms,
            module_remappings,
            import_overrides,
            field_renames,
            type_coercions,
        }
    }

    /// A registry holding exactly the given rules, in order.
    pub fn from_rules(
        type_transforms: Vec<TypeTransform>,
        module_remappings: Vec<ModuleRemapping>,
        import_overrides: Vec<ImportOverride>,
        field_renames: Vec<FieldRename>,
        type_coercions: Vec<TypeCoercion>,
    ) -> (r: Self)
        ensures
            r@.type_transforms == type_transforms@,
            r@.module_remappings == module_remappings@,
            r@.import_overrides == import_overrides@,
            r@.field_renames == field_renames@,
            r@.type_coercions == type_coercions@,
    {
        SpecialCaseRegistry {
            type_transforms,
            module_remappings,
            import_overrides,
            field_renames,
            type_coercions,
        }
    }
}

impl Default for SpecialCaseRegistry {
    fn default() -> (r: Self)
        ensures
            is_default_registry(r@),
    {
        Self::new()
    }
}

/// A pipeline stage that applies special-case rules.
#[derive(Debug, Clone)]
pub struct SpecialCasePipeline {
    registry: SpecialCaseRegistry,
}

impl SpecialCasePipeline {
    /// The rules of the pipeline's registry.
    pub closed spec fn rules(&self) -> RegistryView {
        self.registry@
    }

    /// A pipeline with the built-in rules.
    pub fn new() -> (r: Self)
        ensures
            is_default_registry(r.rules()),
    {
        SpecialCasePipeline { registry: SpecialCaseRegistry::new() }
    }

    /// A pipeline with the given registry.
    pub fn with_registry(registry: SpecialCaseRegistry) -> (r: Self)
        ensures
            r.rules() == registry@,
    {
        SpecialCasePipeline { registry }
    }

    /// The registry's exact import override path for a module and type.
    pub fn get_import_override(&self, from_module: &str, target_type: &str) -> (r: Option<String>)
        ensures
            match exact_override_index(
                self.rules().import_overrides,
                from_module@,
                target_type@,
                self.rules().import_overrides.len() as int,
            ) {
                Some(k) => opt_view(r) == Some(self.rules().import_overrides[k].import_path@),
                None => r is None,
            },
    {
        match self.registry.get_import_override(from_module, target_type) {
            Some(o) => Some(o.import_path.clone()),
            None => None,
        }
    }
}

impl Default for SpecialCasePipeline {
    fn default() -> (r: Self)
        ensures
            is_default_registry(r.rules()),
    {
        Self::new()
    }
}

// ---------------------------------------------------------------------------
// Applying the rules to the intermediate representation
// ---------------------------------------------------------------------------

/// `m` without the first entry with key `k`.
pub open spec fn map_remove<V>(m: Seq<(Seq<char>, V)>, k: Seq<char>) -> Seq<(Seq<char>, V)>
    decreases m.len(),
{
    if m.len() == 0 {
        m
    } else if m[0].0 == k {
        m.drop_first()
    } else {
        seq![m[0]] + map_remove(m.drop_first(), k)
    }
}

/// Renames applied one after the other: an entry under the old name moves
/// under the new name (replacing any entry already there).
pub open spec fn apply_renames<V>(m: Seq<(Seq<char>, V)>, renames: Seq<(Seq<char>, Seq<char>)>) -> Seq<(Seq<char>, V)>
    decreases renames.len(),
{
    if renames.len() == 0 {
        m
    } else {
        let prev = apply_renames(m, renames.drop_last());
        let (from, to) = renames.last();
        match map_get(prev, from) {
            Some(v) => map_insert(map_remove(prev, from), to, v),
            None => prev,
        }
    }
}

/// The renames the rules give the fields named `keys` of a record in module
/// `module`, in key order.
pub open spec fn collect_renames(rs: Seq<FieldRename>, module: Seq<char>, keys: Seq<Seq<char>>) -> Seq<(Seq<char>, Seq<char>)>
    decreases keys.len(),
{
    if keys.len() == 0 {
        Seq::empty()
    } else {
        collect_renames(rs, module, keys.drop_last()) + match field_rename_index(rs, module, keys.last(), rs.len() as int) {
            Some(k) => seq![(keys.last(), rs[k].to_field@)],
            None => Seq::empty(),
        }
    }
}

/// The hint a coercion strategy gives a union.
pub open spec fn strategy_hint(s: CoercionStrategy) -> (int, Seq<char>) {
    match s {
        CoercionStrategy::PreferString => coercion_view(UnionCoercion::PreferString),
        CoercionStrategy::PreferNumber => coercion_view(UnionCoercion::PreferNumber),
        _ => coercion_view(UnionCoercion::NoPreference),
    }
}

/// A type with the rules applied, for a module and source kind: reference
/// names are transformed and their modules remapped; a union without a hint
/// takes the module's coercion strategy; record field types are processed
/// and the module's field renames applied; arrays and optionals are
/// processed inside; other types stay.
pub open spec fn process_spec(reg: RegistryView, module: Seq<char>, source: Seq<char>, t: TypeView) -> TypeView
    decreases t,
{
    match t {
        TypeView::Record { fields, open } => TypeView::Record {
            fields: apply_renames(
                process_fields(reg, module, source, fields),
                collect_renames(reg.field_renames, module, map_keys(fields)),
            ),
            open,
        },
        TypeView::Array(inner) => TypeView::Array(Box::new(process_spec(reg, module, source, *inner))),
        TypeView::Optional(inner) => TypeView::Optional(Box::new(process_spec(reg, module, source, *inner))),
        TypeView::Union { types, coercion_hint } => TypeView::Union {
            types: process_types(reg, module, source, types),
            coercion_hint: match coercion_hint {
                Some(h) => Some(h),
                None => match coercion_index(reg.type_coercions, module, reg.type_coercions.len() as int) {
                    Some(k) => Some(strategy_hint(reg.type_coercions[k].strategy)),
                    None => None,
                },
            },
        },
        TypeView::Reference { name, module: m } => TypeView::Reference {
            name: transform_spec(reg.type_transforms, reg.type_transforms.len() as int, name, source),
            module: match m {
                Some(x) => Some(remap_module_spec(x, reg.module_remappings)),
                None => None,
            },
        },
        _ => t,
    }
}

/// Record fields with their types processed, in order.
pub open spec fn process_fields(reg: RegistryView, module: Seq<char>, source: Seq<char>, fs: Seq<(Seq<char>, FieldView)>) -> Seq<(Seq<char>, FieldView)>
    decreases fs,
{
    if fs.len() == 0 {
        Seq::empty()
    } else {
        proof {
            assert(fs.drop_last() =~= fs.subrange(0, fs.len() - 1));
            assert(decreases_to!(fs => fs[fs.len() - 1]));
        }
        let last = fs.last();
        process_fields(reg, module, source, fs.drop_last()).push(
            (last.0, FieldView { ty: process_spec(reg, module, source, last.1.ty), ..last.1 }),
        )
    }
}

/// Union members processed, in order.
pub open spec fn process_types(reg: RegistryView, module: Seq<char>, source: Seq<char>, ts: Seq<TypeView>) -> Seq<TypeView>
    decreases ts,
{
    if ts.len() == 0 {
        Seq::empty()
    } else {
        proof {
            assert(ts.drop_last() =~= ts.subrange(0, ts.len() - 1));
        }
        process_types(reg, module, source, ts.drop_last()).push(process_spec(reg, module, source, ts.last()))
    }
}

/// The entry that [`map_remove`] takes out is the first with its key.
proof fn lemma_map_remove_at<V>(m: Seq<(Seq<char>, V)>, k: Seq<char>, p: int)
    requires
        0 <= p < m.len(),
        m[p].0 == k,
        forall|j: int| 0 <= j < p ==> #[trigger] m[j].0 != k,
    ensures
        map_remove(m, k) == m.remove(p),
    decreases p,
{
    if p == 0 {
        assert(m.remove(0) =~= m.drop_first());
    } else {
        let rest = m.drop_first();
        assert forall|j: int| 0 <= j < p - 1 implies #[trigger] rest[j].0 != k by {
            assert(rest[j] == m[j + 1]);
        }
        assert(m[0].0 != k);
        lemma_map_remove_at(rest, k, p - 1);
        assert(m.remove(p) =~= seq![m[0]] + rest.remove(p - 1));
    }
}

/// Processing keeps the field names.
proof fn lemma_process_fields_keys(reg: RegistryView, module: Seq<char>, source: Seq<char>, fs: Seq<(Seq<char>, FieldView)>)
    ensures
        process_fields(reg, module, source, fs).len() == fs.len(),
        forall|i: int| 0 <= i < fs.len() ==> (#[trigger] process_fields(reg, module, source, fs)[i]) == (
            fs[i].0,
            FieldView { ty: process_spec(reg, module, source, fs[i].1.ty), ..fs[i].1 },
        ),
        map_keys(process_fields(reg, module, source, fs)) == map_keys(fs),
    decreases fs.len(),
{
    if fs.len() > 0 {
        lemma_process_fields_keys(reg, module, source, fs.drop_last());
    }
    assert(map_keys(process_fields(reg, module, source, fs)) =~= map_keys(fs));
}

impl SpecialCasePipeline {
    /// The renames the rules give the fields of a record.
    fn renames_for(&self, fields: &Vec<(String, Field)>, module: &str) -> (r: Vec<(String, String)>)
        ensures
            r@.map_values(|e: (String, String)| (e.0@, e.1@)) == collect_renames(
                self.rules().field_renames,
                module@,
                map_keys(fields_view(fields@)),
            ),
    {
        let ghost keys = map_keys(fields_view(fields@));
        proof {
            lemma_fields_view(fields@);
            assert(keys.take(0) =~= Seq::<Seq<char>>::empty());
        }
        let mut out: Vec<(String, String)> = Vec::new();
        let mut i: usize = 0;
        while i < fields.len()
            invariant
                keys == map_keys(fields_view(fields@)),
                keys.len() == fields.len(),
                forall|j: int| 0 <= j < fields.len() ==> #[trigger] keys[j] == fields@[j].0@,
                i <= fields.len(),
                out@.map_values(|e: (String, String)| (e.0@, e.1@)) == collect_renames(
                    self.rules().field_renames,
                    module@,
                    keys.take(i as int),
                ),
            decreases fields.len() - i,
        {
            proof {
                assert(keys.take(i + 1).drop_last() =~= keys.take(i as int));
                assert(keys.take(i + 1).last() == keys[i as int]);
            }
            let ghost o0 = out@;
            match self.registry.get_field_rename(module, fields[i].0.as_str()) {
                Some(n) => {
                    out.push((fields[i].0.clone(), n));
                    assert(out@.map_values(|e: (String, String)| (e.0@, e.1@)) =~= o0.map_values(
                        |e: (String, String)| (e.0@, e.1@),
                    ) + seq![(out@.last().0@, out@.last().1@)]);
                },
                None => {
                    assert(out@ == o0);
                },
            }
            i = i + 1;
        }
        proof {
            assert(keys.take(fields.len() as int) =~= keys);
        }
        out
    }

    /// A type with the rules applied, for the context's module and source
    /// kind.
    pub fn processed(&self, ty: Type, context: &Context) -> (r: Type)
        ensures
            r@ == process_spec(self.rules(), context.current_module@, context.source_type@, ty@),
        decreases ty,
    {
        let ghost reg = self.rules();
        let ghost md = context.current_module@;
        let ghost src = context.source_type@;
        let ghost t0 = ty@;
        match ty {
            Type::Record { fields, open } => {
                let renames = self.renames_for(&fields, context.current_module.as_str());
                let ghost fv = fields_view(fields@);
                proof {
                    lemma_fields_view(fields@);
                    lemma_process_fields_keys(reg, md, src, fv);
                }
                let n = fields.len();
                let mut rest = fields;
                let mut out: Vec<(String, Field)> = Vec::new();
                let ghost all = rest@;
                let mut i: usize = 0;
                proof {
                    assert(fv.take(0) =~= Seq::<(Seq<char>, FieldView)>::empty());
                    lemma_fields_view(out@);
                }
                while i < n
                    invariant
                        n == all.len(),
                        fv == fields_view(all),
                        fv.len() == n,
                        forall|j: int| 0 <= j < n ==> #[trigger] fv[j] == (all[j].0@, all[j].1@),
                        forall|j: int| 0 <= j < n ==> decreases_to!(ty => #[trigger] all[j].1.ty),
                        rest@ == all.skip(i as int),
                        i <= n,
                        fields_view(out@) == process_fields(reg, md, src, fv.take(i as int)),
                        reg == self.rules(),
                        md == context.current_module@,
                        src == context.source_type@,
                    decreases n - i,
                {
                    let (name, f) = rest.remove(0);
                    proof {
                        assert(all.skip(i as int)[0] == all[i as int]);
                        assert(all.skip(i as int).drop_first() =~= all.skip(i + 1));
                        assert(fv.take(i + 1).drop_last() =~= fv.take(i as int));
                        assert(fv.take(i + 1).last() == fv[i as int]);
                    }
                    let ghost fview = f@;
                    let new_ty = self.processed(f.ty, context);
                    let nf = Field {
                        ty: new_ty,
                        required: f.required,
                        description: f.description,
                        default: f.default,
                        validation: f.validation,
                        contracts: f.contracts,
                    };
                    let ghost o0 = out@;
                    out.push((name, nf));
                    proof {
                        lemma_fields_view(out@);
                        lemma_fields_view(o0);
                        assert(fields_view(out@) =~= fields_view(o0).push((fv[i as int].0, FieldView {
                            ty: process_spec(reg, md, src, fv[i as int].1.ty),
                            ..fv[i as int].1
                        })));
                    }
                    i = i + 1;
                }
                proof {
                    assert(fv.take(n as int) =~= fv);
                }
                let ghost processed_fields = fields_view(out@);
                let ghost rv = renames@.map_values(|e: (String, String)| (e.0@, e.1@));
                let mut k: usize = 0;
                proof {
                    assert(rv.take(0) =~= Seq::<(Seq<char>, Seq<char>)>::empty());
                }
                while k < renames.len()
                    invariant
                        rv == renames@.map_values(|e: (String, String)| (e.0@, e.1@)),
                        k <= renames.len(),
                        fields_view(out@) == apply_renames(processed_fields, rv.take(k as int)),
                    decreases renames.len() - k,
                {
                    proof {
                        assert(rv.take(k + 1).drop_last() =~= rv.take(k as int));
                        assert(rv.take(k + 1).last() == rv[k as int]);
                    }
                    match field_position(&out, renames[k].0.as_str()) {
                        Some(p) => {
                            let ghost before = fields_view(out@);
                            proof {
                                lemma_fields_view(out@);
                            }
                            let (_, f) = out.remove(p);
                            proof {
                                lemma_fields_view(out@);
                                lemma_map_remove_at(before, renames@[k as int].0@, p as int);
                                assert(fields_view(out@) =~= before.remove(p as int));
                            }
                            insert_field(&mut out, renames[k].1.clone(), f);
                        },
                        None => {},
                    }
                    k = k + 1;
                }
                proof {
                    assert(rv.take(renames.len() as int) =~= rv);
                }
                Type::Record { fields: out, open }
            },
            Type::Array(inner) => Type::Array(Box::new(self.processed(*inner, context))),
            Type::Optional(inner) => Type::Optional(Box::new(self.processed(*inner, context))),
            Type::Union { types, coercion_hint } => {
                let hint = match coercion_hint {
                    Some(h) => Some(h),
                    None => match self.registry.get_coercion_strategy(context.current_module.as_str()) {
                        Some(CoercionStrategy::PreferString) => Some(UnionCoercion::PreferString),
                        Some(CoercionStrategy::PreferNumber) => Some(UnionCoercion::PreferNumber),
                        Some(_) => Some(UnionCoercion::NoPreference),
                        None => None,
                    },
                };
                let ghost tv = types_view(types@);
                proof {
                    lemma_types_view(types@);
                }
                let n = types.len();
                let mut rest = types;
                let ghost all = rest@;
                let mut out: Vec<Type> = Vec::new();
                let mut i: usize = 0;
                proof {
                    assert(tv.take(0) =~= Seq::<TypeView>::empty());
                    lemma_types_view(out@);
                }
                while i < n
                    invariant
                        n == all.len(),
                        tv == types_view(all),
                        tv.len() == n,
                        forall|j: int| 0 <= j < n ==> #[trigger] tv[j] == all[j]@,
                        forall|j: int| 0 <= j < n ==> decreases_to!(ty => #[trigger] all[j]),
                        rest@ == all.skip(i as int),
                        i <= n,
                        types_view(out@) == process_types(reg, md, src, tv.take(i as int)),
                        reg == self.rules(),
                        md == context.current_module@,
                        src == context.source_type@,
                    decreases n - i,
                {
                    let t = rest.remove(0);
                    proof {
                        assert(all.skip(i as int)[0] == all[i as int]);
                        assert(all.skip(i as int).drop_first() =~= all.skip(i + 1));
                        assert(tv.take(i + 1).drop_last() =~= tv.take(i as int));
                        assert(tv.take(i + 1).last() == tv[i as int]);
                    }
                    let p = self.processed(t, context);
                    let ghost o0 = out@;
                    out.push(p);
                    proof {
                        lemma_types_view(out@);
                        lemma_types_view(o0);
                        assert(types_view(out@) =~= types_view(o0).push(p@));
                    }
                    i = i + 1;
                }
                proof {
                    assert(tv.take(n as int) =~= tv);
                }
                Type::Union { types: out, coercion_hint: hint }
            },
            Type::Reference { name, module } => {
                let new_name = self.registry.transform_type_name(name.as_str(), context);
                let new_module = match module {
                    Some(m) => Some(self.registry.remap_module(m.as_str())),
                    None => None,
                };
                Type::Reference { name: new_name, module: new_module }
            },
            other => other,
        }
    }

    /// Apply the rules to a type in place.
    pub fn process_type(&self, ty: &mut Type, context: &Context)
        ensures
            final(ty)@ == process_spec(self.rules(), context.current_module@, context.source_type@, old(ty)@),
    {
        let mut t = Type::Any;
        std::mem::swap(&mut t, ty);
        let r = self.processed(t, context);
        *ty = r;
    }

    /// Apply the rules to a type definition: its name is transformed and its
    /// type processed.
    pub fn process_type_definition(&self, type_def: &mut TypeDefinition, context: &Context)
        ensures
            final(type_def).name@ == transform_spec(
                self.rules().type_transforms,
                self.rules().type_transforms.len() as int,
                old(type_def).name@,
                context.source_type@,
            ),
            final(type_def).ty@ == process_spec(self.rules(), context.current_module@, context.source_type@, old(type_def).ty@),
            final(type_def).documentation == old(type_def).documentation,
            final(type_def).annotations == old(type_def).annotations,
    {
        let transformed = self.registry.transform_type_name(type_def.name.as_str(), context);
        type_def.name = transformed;
        self.process_type(&mut type_def.ty, context);
    }

    /// Apply the rules to a module: its name is remapped and each type
    /// definition processed in the context of the module's original name.
    pub fn process_module(&self, module: &mut Module, source_type: &str)
        ensures
            final(module).name@ == remap_module_spec(old(module).name@, self.rules().module_remappings),
            final(module).types@.len() == old(module).types@.len(),
            forall|i: int| 0 <= i < old(module).types@.len() ==> {
                &&& (#[trigger] final(module).types@[i]).name@ == transform_spec(
                    self.rules().type_transforms,
                    self.rules().type_transforms.len() as int,
                    old(module).types@[i].name@,
                    source_type@,
                )
                &&& final(module).types@[i].ty@ == process_spec(
                    self.rules(),
                    old(module).name@,
                    source_type@,
                    old(module).types@[i].ty@,
                )
                &&& final(module).types@[i].documentation == old(module).types@[i].documentation
                &&& final(module).types@[i].annotations == old(module).types@[i].annotations
            },
            final(module).imports == old(module).imports,
            final(module).constants == old(module).constants,
            final(module).metadata == old(module).metadata,
    {
        let context = Context {
            current_module: module.name.clone(),
            source_type: to_owned_string(source_type),
            metadata: Vec::new(),
        };
        let remapped = self.registry.remap_module(module.name.as_str());
        module.name = remapped;
        let ghost ts = module.types@;
        let mut src: Vec<TypeDefinition> = Vec::new();
        std::mem::swap(&mut src, &mut module.types);
        let n = src.len();
        let mut out: Vec<TypeDefinition> = Vec::new();
        let mut i: usize = 0;
        while i < n
            invariant
                n == ts.len(),
                src@ == ts.skip(i as int),
                i <= n,
                out@.len() == i,
                forall|j: int| 0 <= j < i ==> {
                    &&& (#[trigger] out@[j]).name@ == transform_spec(
                        self.rules().type_transforms,
                        self.rules().type_transforms.len() as int,
                        ts[j].name@,
                        source_type@,
                    )
                    &&& out@[j].ty@ == process_spec(self.rules(), context.current_module@, source_type@, ts[j].ty@)
                    &&& out@[j].documentation == ts[j].documentation
                    &&& out@[j].annotations == ts[j].annotations
                },
                context.source_type@ == source_type@,
            decreases n - i,
        {
            let mut d = src.remove(0);
            proof {
                assert(ts.skip(i as int)[0] == ts[i as int]);
                assert(ts.skip(i as int).drop_first() =~= ts.skip(i + 1));
            }
            self.process_type_definition(&mut d, &context);
            out.push(d);
            i = i + 1;
        }
        module.types = out;
    }
}

/// The special-case rules applied to an item of the representation.
pub trait WithSpecialCases {
    /// Apply the rules of `pipeline`.
    fn apply_special_cases(&mut self, pipeline: &SpecialCasePipeline);
}

impl WithSpecialCases for Module {
    /// Process the module with an unknown source kind.
    fn apply_special_cases(&mut self, pipeline: &SpecialCasePipeline) {
        pipeline.process_module(self, "unknown");
    }
}

// ---------------------------------------------------------------------------
// Renaming and processing commute
// ---------------------------------------------------------------------------

/// An ordered map with `f` applied to each value.
pub open spec fn map_vals<V>(m: Seq<(Seq<char>, V)>, f: spec_fn(V) -> V) -> Seq<(Seq<char>, V)> {
    m.map_values(|e: (Seq<char>, V)| (e.0, f(e.1)))
}

/// A field with its type processed.
pub open spec fn process_field(reg: RegistryView, module: Seq<char>, source: Seq<char>, f: FieldView) -> FieldView {
    FieldView { ty: process_spec(reg, module, source, f.ty), ..f }
}

/// [`process_field`] as a function value.
pub open spec fn field_processor(reg: RegistryView, module: Seq<char>, source: Seq<char>) -> spec_fn(FieldView) -> FieldView {
    |f: FieldView| process_field(reg, module, source, f)
}

proof fn lemma_map_vals_get<V>(m: Seq<(Seq<char>, V)>, k: Seq<char>, f: spec_fn(V) -> V)
    ensures
        map_get(map_vals(m, f), k) == match map_get(m, k) {
            Some(v) => Some(f(v)),
            None => None,
        },
    decreases m.len(),
{
    if m.len() > 0 {
        assert(map_vals(m, f).drop_first() =~= map_vals(m.drop_first(), f));
        lemma_map_vals_get(m.drop_first(), k, f);
    }
}

proof fn lemma_map_vals_remove<V>(m: Seq<(Seq<char>, V)>, k: Seq<char>, f: spec_fn(V) -> V)
    ensures
        map_remove(map_vals(m, f), k) == map_vals(map_remove(m, k), f),
    decreases m.len(),
{
    if m.len() > 0 {
        assert(map_vals(m, f).drop_first() =~= map_vals(m.drop_first(), f));
        lemma_map_vals_remove(m.drop_first(), k, f);
        if m[0].0 != k {
            assert(map_vals(seq![m[0]] + map_remove(m.drop_first(), k), f) =~= seq![(m[0].0, f(m[0].1))]
                + map_vals(map_remove(m.drop_first(), k), f));
        }
    }
}

proof fn lemma_map_vals_insert<V>(m: Seq<(Seq<char>, V)>, k: Seq<char>, v: V, f: spec_fn(V) -> V)
    ensures
        map_insert(map_vals(m, f), k, f(v)) == map_vals(map_insert(m, k, v), f),
    decreases m.len(),
{
    if m.len() == 0 {
        assert(map_vals(seq![(k, v)], f) =~= seq![(k, f(v))]);
    } else {
        assert(map_vals(m, f).drop_first() =~= map_vals(m.drop_first(), f));
        if m[0].0 == k {
            assert(map_vals(seq![(k, v)] + m.drop_first(), f) =~= seq![(k, f(v))] + map_vals(m.drop_first(), f));
        } else if crate::types::str_lt(k, m[0].0) {
            assert(map_vals(seq![(k, v)] + m, f) =~= seq![(k, f(v))] + map_vals(m, f));
        } else {
            lemma_map_vals_insert(m.drop_first(), k, v, f);
            assert(map_vals(seq![m[0]] + map_insert(m.drop_first(), k, v), f) =~= seq![(m[0].0, f(m[0].1))]
                + map_vals(map_insert(m.drop_first(), k, v), f));
        }
    }
}

proof fn lemma_map_vals_renames<V>(m: Seq<(Seq<char>, V)>, rs: Seq<(Seq<char>, Seq<char>)>, f: spec_fn(V) -> V)
    ensures
        apply_renames(map_vals(m, f), rs) == map_vals(apply_renames(m, rs), f),
    decreases rs.len(),
{
    if rs.len() > 0 {
        lemma_map_vals_renames(m, rs.drop_last(), f);
        let prev = apply_renames(m, rs.drop_last());
        let (from, to) = rs.last();
        lemma_map_vals_get(prev, from, f);
        if let Some(v) = map_get(prev, from) {
            lemma_map_vals_remove(prev, from, f);
            lemma_map_vals_insert(map_remove(prev, from), to, v, f);
        }
    }
}

/// Processing a record's fields one by one is applying the field processor
/// to each value.
proof fn lemma_process_fields_map(reg: RegistryView, module: Seq<char>, source: Seq<char>, fs: Seq<(Seq<char>, FieldView)>)
    ensures
        process_fields(reg, module, source, fs) == map_vals(fs, field_processor(reg, module, source)),
{
    lemma_process_fields_keys(reg, module, source, fs);
    assert(process_fields(reg, module, source, fs) =~= map_vals(fs, field_processor(reg, module, source)));
}

/// Renaming a record's fields and processing their types commute: a record
/// processed holds the fields of the record renamed by the module's rules and
/// then processed.
pub proof fn law_rename_then_process(
    reg: RegistryView,
    module: Seq<char>,
    source: Seq<char>,
    fields: Seq<(Seq<char>, FieldView)>,
    open: bool,
)
    ensures
        process_spec(reg, module, source, TypeView::Record { fields, open }) == (TypeView::Record {
            fields: map_vals(
                apply_renames(fields, collect_renames(reg.field_renames, module, map_keys(fields))),
                field_processor(reg, module, source),
            ),
            open,
        }),
{
    let rs = collect_renames(reg.field_renames, module, map_keys(fields));
    lemma_process_fields_map(reg, module, source, fields);
    lemma_map_vals_renames(fields, rs, field_processor(reg, module, source));
}

} // verus!
