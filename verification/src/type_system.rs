//! Named types and whether a value of one type is accepted where another is
//! expected.

use vstd::prelude::*;
use crate::lookup::{last_index_of, lemma_last_index_of};
use crate::text::str_eq;
use crate::types::{lemma_types_view, types_view, Type, TypeView};

verus! {

broadcast use vstd::string::group_string_axioms;

/// The type registered under `name` (the last registration counts).
pub open spec fn lookup_type(reg: Seq<(Seq<char>, TypeView)>, name: Seq<char>) -> Option<TypeView> {
    match last_index_of(reg.map_values(|e: (Seq<char>, TypeView)| e.0), name) {
        Some(i) => Some(reg[i].1),
        None => None,
    }
}

/// Following registered names from `t` comes to an end within `fuel`
/// steps: each registered name met in `t`, its array and optional items
/// and its union members, and then in the types it names, takes one step.
pub open spec fn settles(reg: Seq<(Seq<char>, TypeView)>, t: TypeView, fuel: nat) -> bool
    decreases fuel, t, 0nat,
{
    match t {
        TypeView::Reference { name, module: _ } => match lookup_type(reg, name) {
            Some(r) => fuel > 0 && settles(reg, r, (fuel - 1) as nat),
            None => true,
        },
        TypeView::Array(inner) => settles(reg, *inner, fuel),
        TypeView::Optional(inner) => settles(reg, *inner, fuel),
        TypeView::Union { types, coercion_hint: _ } => settles_all(reg, types, fuel),
        _ => true,
    }
}

/// Each of `types` settles within `fuel`.
pub open spec fn settles_all(reg: Seq<(Seq<char>, TypeView)>, types: Seq<TypeView>, fuel: nat) -> bool
    decreases fuel, types, 1nat,
{
    if types.len() == 0 {
        true
    } else {
        proof {
            assert(types.drop_last() =~= types.subrange(0, types.len() - 1));
        }
        settles_all(reg, types.drop_last(), fuel) && settles(reg, types.last(), fuel)
    }
}

/// Whether a value of type `s` is accepted where `t` is expected, given
/// enough fuel to follow the registered names of each: anything goes to
/// or from `Any`; `null` to an optional, and otherwise what goes to its
/// item; integers to numbers; a registered name as what it names (an
/// unregistered one nowhere); arrays by their items; a union when every
/// member goes, to a union when one member takes it; else only the same
/// type.
pub open spec fn compatible(reg: Seq<(Seq<char>, TypeView)>, s: TypeView, t: TypeView, fs: nat, ft: nat) -> bool
    decreases fs + ft, s, t,
{
    match (s, t) {
        (TypeView::Any, _) => true,
        (_, TypeView::Any) => true,
        (TypeView::Null, TypeView::Optional(_)) => true,
        (_, TypeView::Optional(inner)) => compatible(reg, s, *inner, fs, ft),
        (TypeView::Integer, TypeView::Number) => true,
        (TypeView::Reference { name, module: _ }, _) => match lookup_type(reg, name) {
            Some(r) => fs > 0 && compatible(reg, r, t, (fs - 1) as nat, ft),
            None => false,
        },
        (_, TypeView::Reference { name, module: _ }) => match lookup_type(reg, name) {
            Some(r) => ft > 0 && compatible(reg, s, r, fs, (ft - 1) as nat),
            None => false,
        },
        (TypeView::Array(a), TypeView::Array(b)) => compatible(reg, *a, *b, fs, ft),
        (TypeView::Union { types, coercion_hint: _ }, _) => all_compatible(reg, types, t, fs, ft),
        (_, TypeView::Union { types, coercion_hint: _ }) => any_compatible(reg, s, types, fs, ft),
        _ => s == t,
    }
}

/// Every one of `types` goes to `t`.
pub open spec fn all_compatible(reg: Seq<(Seq<char>, TypeView)>, types: Seq<TypeView>, t: TypeView, fs: nat, ft: nat) -> bool
    decreases fs + ft, types, t,
{
    if types.len() == 0 {
        true
    } else {
        proof {
            assert(types.drop_last() =~= types.subrange(0, types.len() - 1));
        }
        all_compatible(reg, types.drop_last(), t, fs, ft) && compatible(reg, types.last(), t, fs, ft)
    }
}

/// One of `types` takes `s`.
pub open spec fn any_compatible(reg: Seq<(Seq<char>, TypeView)>, s: TypeView, types: Seq<TypeView>, fs: nat, ft: nat) -> bool
    decreases fs + ft, s, types,
{
    if types.len() == 0 {
        false
    } else {
        proof {
            assert(types.drop_last() =~= types.subrange(0, types.len() - 1));
        }
        any_compatible(reg, s, types.drop_last(), fs, ft) || compatible(reg, s, types.last(), fs, ft)
    }
}

/// Named types.
#[derive(Debug)]
pub struct TypeSystem {
    types: Vec<(String, Type)>,
}

impl TypeSystem {
    /// The registrations, in order.
    pub closed spec fn registry(&self) -> Seq<(Seq<char>, TypeView)> {
        self.types@.map_values(|e: (String, Type)| (e.0@, e.1@))
    }

    /// No named types.
    pub fn new() -> (r: Self)
        ensures
            r.registry().len() == 0,
    {
        let r = TypeSystem { types: Vec::new() };
        assert(r.registry() =~= Seq::<(Seq<char>, TypeView)>::empty());
        r
    }

    /// Name a type, replacing an earlier type of that name.
    pub fn register(&mut self, name: String, ty: Type)
        ensures
            final(self).registry() == old(self).registry().push((name@, ty@)),
    {
        let ghost r0 = self.registry();
        let ghost e = (name@, ty@);
        self.types.push((name, ty));
        assert(self.registry() =~= r0.push(e));
    }

    /// The type registered under a name.
    pub fn resolve(&self, name: &str) -> (r: Option<&Type>)
        ensures
            match lookup_type(self.registry(), name@) {
                Some(t) => r matches Some(x) && x@ == t,
                None => r is None,
            },
    {
        let ghost reg = self.registry();
        let ghost keys = reg.map_values(|e: (Seq<char>, TypeView)| e.0);
        let mut j: usize = self.types.len();
        assert(keys.take(j as int) =~= keys);
        while j > 0
            invariant
                reg == self.registry(),
                keys == reg.map_values(|e: (Seq<char>, TypeView)| e.0),
                keys.len() == self.types@.len(),
                j <= self.types.len(),
                last_index_of(keys, name@) == last_index_of(keys.take(j as int), name@),
            decreases j,
        {
            assert(keys[j - 1] == self.types@[j - 1].0@);
            if str_eq(self.types[j - 1].0.as_str(), name) {
                assert(keys.take(j as int).last() == name@);
                assert(reg[j - 1] == (self.types@[j - 1].0@, self.types@[j - 1].1@));
                return Some(&self.types[j - 1].1);
            }
            assert(keys.take(j as int).drop_last() =~= keys.take(j - 1));
            j = j - 1;
        }
        None
    }

    /// Whether a value of type `source` is accepted where `target` is
    /// expected. The names met must come to an end (a name whose type
    /// leads back to it would be followed forever).
    pub fn is_compatible(&self, source: &Type, target: &Type) -> (r: bool)
        requires
            exists|k: nat| settles(self.registry(), source@, k),
            exists|k: nat| settles(self.registry(), target@, k),
        ensures
            forall|fs: nat, ft: nat|
                settles(self.registry(), source@, fs) && settles(self.registry(), target@, ft) ==> r == compatible(
                    self.registry(),
                    source@,
                    target@,
                    fs,
                    ft,
                ),
    {
        let ghost fs = choose|k: nat| settles(self.registry(), source@, k);
        let ghost ft = choose|k: nat| settles(self.registry(), target@, k);
        let r = self.compatible_with(source, target, Ghost(fs), Ghost(ft));
        proof {
            assert forall|fs2: nat, ft2: nat|
                settles(self.registry(), source@, fs2) && settles(self.registry(), target@, ft2) implies r
                    == compatible(self.registry(), source@, target@, fs2, ft2) by {
                lemma_compatible_fuel(self.registry(), source@, target@, fs, ft, fs2, ft2);
            }
        }
        r
    }

    /// Whether following the registered names met in `ty` comes to an end
    /// within `fuel` steps.
    pub fn settles_within(&self, ty: &Type, fuel: usize) -> (r: bool)
        ensures
            r == settles(self.registry(), ty@, fuel as nat),
        decreases fuel, ty@,
    {
        let ghost reg = self.registry();
        match ty {
            Type::Reference { name, module: _ } => match self.resolve(name.as_str()) {
                Some(resolved) => if fuel == 0 {
                    false
                } else {
                    self.settles_within(resolved, fuel - 1)
                },
                None => true,
            },
            Type::Array(inner) => {
                assert(decreases_to!(ty@ => ty@->Array_0));
                self.settles_within(inner, fuel)
            },
            Type::Optional(inner) => {
                assert(decreases_to!(ty@ => ty@->Optional_0));
                self.settles_within(inner, fuel)
            },
            Type::Union { types, coercion_hint: _ } => {
                let ghost tv = types_view(types@);
                proof {
                    lemma_types_view(types@);
                    assert(tv.take(0) =~= Seq::<TypeView>::empty());
                }
                let mut i: usize = 0;
                let mut all = true;
                while i < types.len()
                    invariant
                        reg == self.registry(),
                        ty@ == (TypeView::Union { types: tv, coercion_hint: ty@->Union_coercion_hint }),
                        tv == types_view(types@),
                        tv.len() == types.len(),
                        forall|j: int| 0 <= j < types.len() ==> #[trigger] tv[j] == types@[j]@,
                        i <= types.len(),
                        all == settles_all(reg, tv.take(i as int), fuel as nat),
                    decreases types.len() - i,
                {
                    proof {
                        assert(tv.take(i + 1).drop_last() =~= tv.take(i as int));
                        assert(tv.take(i + 1).last() == tv[i as int]);
                        assert(decreases_to!(ty@ => ty@->Union_types));
                        assert(decreases_to!(tv => tv[i as int]));
                    }
                    let c = self.settles_within(&types[i], fuel);
                    all = all && c;
                    i = i + 1;
                }
                assert(tv.take(types.len() as int) =~= tv);
                all
            },
            _ => true,
        }
    }

    /// Whether a value of type `source` is accepted where `target` is
    /// expected, when the names met in both come to an end within `fuel`
    /// steps; `None` when they do not.
    pub fn is_compatible_within(&self, source: &Type, target: &Type, fuel: usize) -> (r: Option<bool>)
        ensures
            r is Some <==> (settles(self.registry(), source@, fuel as nat) && settles(
                self.registry(),
                target@,
                fuel as nat,
            )),
            r matches Some(b) ==> forall|fs: nat, ft: nat|
                settles(self.registry(), source@, fs) && settles(self.registry(), target@, ft) ==> b
                    == compatible(self.registry(), source@, target@, fs, ft),
    {
        if self.settles_within(source, fuel) && self.settles_within(target, fuel) {
            Some(self.is_compatible(source, target))
        } else {
            None
        }
    }

    fn compatible_with(&self, source: &Type, target: &Type, Ghost(fs): Ghost<nat>, Ghost(ft): Ghost<nat>) -> (r: bool)
        requires
            settles(self.registry(), source@, fs),
            settles(self.registry(), target@, ft),
        ensures
            r == compatible(self.registry(), source@, target@, fs, ft),
        decreases fs + ft, source@, target@,
    {
        let ghost reg = self.registry();
        if matches!(source, Type::Any) || matches!(target, Type::Any) {
            return true;
        }
        if let Type::Optional(inner) = target {
            if matches!(source, Type::Null) {
                return true;
            }
            return self.compatible_with(source, inner, Ghost(fs), Ghost(ft));
        }
        if matches!(source, Type::Integer) && matches!(target, Type::Number) {
            return true;
        }
        if let Type::Reference { name, module: _ } = source {
            return match self.resolve(name.as_str()) {
                Some(resolved) => {
                    proof {
                        assert(fs > 0);
                    }
                    self.compatible_with(resolved, target, Ghost((fs - 1) as nat), Ghost(ft))
                },
                None => false,
            };
        }
        if let Type::Reference { name, module: _ } = target {
            return match self.resolve(name.as_str()) {
                Some(resolved) => {
                    proof {
                        assert(ft > 0);
                    }
                    self.compatible_with(source, resolved, Ghost(fs), Ghost((ft - 1) as nat))
                },
                None => false,
            };
        }
        match (source, target) {
            (Type::Array(a), Type::Array(b)) => {
                return self.compatible_with(a, b, Ghost(fs), Ghost(ft));
            },
            _ => {},
        }
        if let Type::Union { types, coercion_hint: _ } = source {
            let ghost tv = types_view(types@);
            proof {
                lemma_types_view(types@);
                assert(tv.take(0) =~= Seq::<TypeView>::empty());
            }
            let mut i: usize = 0;
            let mut all = true;
            while i < types.len()
                invariant
                    reg == self.registry(),
                    source@ == (TypeView::Union { types: tv, coercion_hint: source@->Union_coercion_hint }),
                    tv == types_view(types@),
                    tv.len() == types.len(),
                    forall|j: int| 0 <= j < types.len() ==> #[trigger] tv[j] == types@[j]@,
                    settles_all(reg, tv, fs),
                    settles(reg, target@, ft),
                    i <= types.len(),
                    all == all_compatible(reg, tv.take(i as int), target@, fs, ft),
                decreases types.len() - i,
            {
                proof {
                    assert(tv.take(i + 1).drop_last() =~= tv.take(i as int));
                    assert(tv.take(i + 1).last() == tv[i as int]);
                    lemma_settles_member(reg, tv, fs, i as int);
                    assert(source@->Union_types == tv);
                    assert(decreases_to!(source@ => source@->Union_types));
                    assert(decreases_to!(tv => tv[i as int]));
                }
                let c = self.compatible_with(&types[i], target, Ghost(fs), Ghost(ft));
                all = all && c;
                i = i + 1;
            }
            assert(tv.take(types.len() as int) =~= tv);
            return all;
        }
        if let Type::Union { types, coercion_hint: _ } = target {
            let ghost tv = types_view(types@);
            proof {
                lemma_types_view(types@);
                assert(tv.take(0) =~= Seq::<TypeView>::empty());
            }
            let mut i: usize = 0;
            let mut any = false;
            while i < types.len()
                invariant
                    reg == self.registry(),
                    target@ == (TypeView::Union { types: tv, coercion_hint: target@->Union_coercion_hint }),
                    tv == types_view(types@),
                    tv.len() == types.len(),
                    forall|j: int| 0 <= j < types.len() ==> #[trigger] tv[j] == types@[j]@,
                    settles_all(reg, tv, ft),
                    settles(reg, source@, fs),
                    i <= types.len(),
                    any == any_compatible(reg, source@, tv.take(i as int), fs, ft),
                decreases types.len() - i,
            {
                proof {
                    assert(tv.take(i + 1).drop_last() =~= tv.take(i as int));
                    assert(tv.take(i + 1).last() == tv[i as int]);
                    lemma_settles_member(reg, tv, ft, i as int);
                    assert(target@->Union_types == tv);
                    assert(decreases_to!(target@ => target@->Union_types));
                    assert(decreases_to!(tv => tv[i as int]));
                }
                let c = self.compatible_with(source, &types[i], Ghost(fs), Ghost(ft));
                any = any || c;
                i = i + 1;
            }
            assert(tv.take(types.len() as int) =~= tv);
            return any;
        }
        source.same_as(target)
    }
}

impl Default for TypeSystem {
    fn default() -> (r: Self)
        ensures
            r.registry().len() == 0,
    {
        Self::new()
    }
}

/// A member of a settled list settles.
proof fn lemma_settles_member(reg: Seq<(Seq<char>, TypeView)>, types: Seq<TypeView>, fuel: nat, i: int)
    requires
        settles_all(reg, types, fuel),
        0 <= i < types.len(),
    ensures
        settles(reg, types[i], fuel),
    decreases types.len(),
{
    if i < types.len() - 1 {
        lemma_settles_member(reg, types.drop_last(), fuel, i);
    }
}

/// The answer does not depend on the fuel, once both types settle.
pub proof fn lemma_compatible_fuel(
    reg: Seq<(Seq<char>, TypeView)>,
    s: TypeView,
    t: TypeView,
    fs1: nat,
    ft1: nat,
    fs2: nat,
    ft2: nat,
)
    requires
        settles(reg, s, fs1),
        settles(reg, s, fs2),
        settles(reg, t, ft1),
        settles(reg, t, ft2),
    ensures
        compatible(reg, s, t, fs1, ft1) == compatible(reg, s, t, fs2, ft2),
    decreases fs1 + ft1, s, t,
{
    match (s, t) {
        (TypeView::Any, _) => {},
        (_, TypeView::Any) => {},
        (TypeView::Null, TypeView::Optional(_)) => {},
        (_, TypeView::Optional(inner)) => {
            lemma_compatible_fuel(reg, s, *inner, fs1, ft1, fs2, ft2);
        },
        (TypeView::Integer, TypeView::Number) => {},
        (TypeView::Reference { name, module: _ }, _) => {
            if let Some(r) = lookup_type(reg, name) {
                lemma_compatible_fuel(reg, r, t, (fs1 - 1) as nat, ft1, (fs2 - 1) as nat, ft2);
            }
        },
        (_, TypeView::Reference { name, module: _ }) => {
            if let Some(r) = lookup_type(reg, name) {
                lemma_compatible_fuel(reg, s, r, fs1, (ft1 - 1) as nat, fs2, (ft2 - 1) as nat);
            }
        },
        (TypeView::Array(a), TypeView::Array(b)) => {
            lemma_compatible_fuel(reg, *a, *b, fs1, ft1, fs2, ft2);
        },
        (TypeView::Union { types, coercion_hint: _ }, _) => {
            lemma_all_fuel(reg, types, t, fs1, ft1, fs2, ft2);
        },
        (_, TypeView::Union { types, coercion_hint: _ }) => {
            lemma_any_fuel(reg, s, types, fs1, ft1, fs2, ft2);
        },
        _ => {},
    }
}

proof fn lemma_all_fuel(
    reg: Seq<(Seq<char>, TypeView)>,
    types: Seq<TypeView>,
    t: TypeView,
    fs1: nat,
    ft1: nat,
    fs2: nat,
    ft2: nat,
)
    requires
        settles_all(reg, types, fs1),
        settles_all(reg, types, fs2),
        settles(reg, t, ft1),
        settles(reg, t, ft2),
    ensures
        all_compatible(reg, types, t, fs1, ft1) == all_compatible(reg, types, t, fs2, ft2),
    decreases fs1 + ft1, types, t,
{
    if types.len() > 0 {
        assert(types.drop_last() =~= types.subrange(0, types.len() - 1));
        lemma_all_fuel(reg, types.drop_last(), t, fs1, ft1, fs2, ft2);
        lemma_compatible_fuel(reg, types.last(), t, fs1, ft1, fs2, ft2);
    }
}

proof fn lemma_any_fuel(
    reg: Seq<(Seq<char>, TypeView)>,
    s: TypeView,
    types: Seq<TypeView>,
    fs1: nat,
    ft1: nat,
    fs2: nat,
    ft2: nat,
)
    requires
        settles(reg, s, fs1),
        settles(reg, s, fs2),
        settles_all(reg, types, ft1),
        settles_all(reg, types, ft2),
    ensures
        any_compatible(reg, s, types, fs1, ft1) == any_compatible(reg, s, types, fs2, ft2),
    decreases fs1 + ft1, s, types,
{
    if types.len() > 0 {
        assert(types.drop_last() =~= types.subrange(0, types.len() - 1));
        lemma_any_fuel(reg, s, types.drop_last(), fs1, ft1, fs2, ft2);
        lemma_compatible_fuel(reg, s, types.last(), fs1, ft1, fs2, ft2);
    }
}

} // verus!
