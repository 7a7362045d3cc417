//! Detection of a package's module layout from its directory listing.

use vstd::prelude::*;
use crate::chars::{is_ascii_digit, is_digit};
use crate::module_registry::ModuleLayout;
use crate::text::{
    chars_of, contains_char, contains_str, has_char, is_prefix, starts_with, str_eq, string_of_range,
    to_owned_string, views,
};

verus! {

broadcast use vstd::string::group_string_axioms;

/// Detected structure of a module package.
#[derive(Debug, Clone)]
pub struct ModuleStructure {
    /// Whether the package uses namespace directories.
    pub has_namespaces: bool,
    /// Whether the package uses version directories.
    pub has_versions: bool,
    /// Detected namespace directories.
    pub namespaces: Vec<String>,
    /// Detected version directories.
    pub versions: Vec<String>,
    /// The depth at which types are found.
    pub type_depth: usize,
}

/// One entry of a package's root directory: its name, whether it is a
/// directory, and the names of the entries inside it.
#[derive(Debug, Clone)]
pub struct DirListing {
    pub name: String,
    pub is_dir: bool,
    pub children: Vec<String>,
}

/// Relative order of two versions.
#[derive(Debug, Clone, Copy, PartialEq, Eq, Structural)]
pub enum VersionOrder {
    Less,
    Equal,
    Greater,
}

/// Every character of `s` is an ASCII digit.
pub open spec fn all_digits(s: Seq<char>) -> bool {
    forall|i: int| 0 <= i < s.len() ==> is_ascii_digit(#[trigger] s[i])
}

/// Number of leading ASCII digits of `s`.
pub open spec fn digit_prefix_len(s: Seq<char>) -> nat
    decreases s.len(),
{
    if s.len() == 0 || !is_ascii_digit(s[0]) {
        0
    } else {
        1 + digit_prefix_len(s.skip(1))
    }
}

/// A directory name that looks like a version: `v1`, `v10`, `v1alpha`,
/// `v1beta2`, ...
pub open spec fn is_version_dir_spec(name: Seq<char>) -> bool {
    if name.len() == 0 || name[0] != 'v' {
        false
    } else {
        let rest = name.skip(1);
        if all_digits(rest) && rest.len() > 0 {
            true
        } else {
            let k = digit_prefix_len(rest);
            if k < rest.len() && k > 0 {
                let suffix = rest.skip(k as int);
                if is_prefix("alpha"@, suffix) {
                    let vs = suffix.skip("alpha"@.len() as int);
                    vs.len() == 0 || all_digits(vs)
                } else if is_prefix("beta"@, suffix) {
                    let vs = suffix.skip("beta"@.len() as int);
                    vs.len() == 0 || all_digits(vs)
                } else {
                    false
                }
            } else {
                false
            }
        }
    }
}

/// Decimal value of a string of digits.
pub open spec fn digits_value(s: Seq<char>) -> nat
    decreases s.len(),
{
    if s.len() == 0 {
        0
    } else {
        digits_value(s.drop_last()) * 10 + ((s.last() as u32) - ('0' as u32)) as nat
    }
}

/// std's `u32::from_str`: an optional `+` followed by one or more digits
/// whose value fits in 32 bits.
pub open spec fn parse_u32_spec(s: Seq<char>) -> Option<u32> {
    let d = if s.len() > 0 && s[0] == '+' {
        s.skip(1)
    } else {
        s
    };
    if d.len() == 0 || !all_digits(d) {
        None
    } else if digits_value(d) <= u32::MAX {
        Some(digits_value(d) as u32)
    } else {
        None
    }
}

/// The stability rank of a version: `0` for alpha, `1` for beta, `2` for
/// stable, `3` for names that do not start with `v`.
pub open spec fn version_key(v: Seq<char>) -> (u32, int, u32) {
    if v.len() == 0 || v[0] != 'v' {
        (0, 3, 0)
    } else {
        let rest = v.skip(1);
        let n = digit_prefix_len(rest);
        let main = match parse_u32_spec(rest.take(n as int)) {
            Some(m) => m,
            None => 0,
        };
        if n < rest.len() {
            let suffix = rest.skip(n as int);
            if is_prefix("alpha"@, suffix) {
                (main, 0, match parse_u32_spec(suffix.skip("alpha"@.len() as int)) {
                    Some(x) => x,
                    None => 0,
                })
            } else if is_prefix("beta"@, suffix) {
                (main, 1, match parse_u32_spec(suffix.skip("beta"@.len() as int)) {
                    Some(x) => x,
                    None => 0,
                })
            } else {
                (main, 2, 0)
            }
        } else {
            (main, 2, 0)
        }
    }
}

/// Ordering of two integers.
pub open spec fn order_of(a: int, b: int) -> VersionOrder {
    if a < b {
        VersionOrder::Less
    } else if a == b {
        VersionOrder::Equal
    } else {
        VersionOrder::Greater
    }
}

/// Precedence of two versions: main number first, then stability
/// (alpha < beta < stable), then the pre-release number. A name that does
/// not start with `v` is above alpha and level with beta and stable.
pub open spec fn compare_versions_spec(a: Seq<char>, b: Seq<char>) -> VersionOrder {
    let ka = version_key(a);
    let kb = version_key(b);
    if ka.0 != kb.0 {
        order_of(ka.0 as int, kb.0 as int)
    } else if ka.1 == kb.1 && ka.1 <= 1 {
        order_of(ka.2 as int, kb.2 as int)
    } else if ka.1 == kb.1 {
        VersionOrder::Equal
    } else if ka.1 == 0 {
        VersionOrder::Less
    } else if kb.1 == 0 {
        VersionOrder::Greater
    } else if ka.1 == 1 && kb.1 == 2 {
        VersionOrder::Less
    } else if ka.1 == 2 && kb.1 == 1 {
        VersionOrder::Greater
    } else {
        VersionOrder::Equal
    }
}

/// Whether `v` is, lexicographically on its key, at most `w`.
pub open spec fn key_le(v: Seq<char>, w: Seq<char>) -> bool {
    let a = version_key(v);
    let b = version_key(w);
    a.0 < b.0 || (a.0 == b.0 && (a.1 < b.1 || (a.1 == b.1 && a.2 <= b.2)))
}

/// Every name starts with `v`.
pub open spec fn all_v_names(vs: Seq<Seq<char>>) -> bool {
    forall|i: int| 0 <= i < vs.len() ==> (#[trigger] vs[i]).len() > 0 && vs[i][0] == 'v'
}

/// The result of folding the listing: (has namespaces, has versions,
/// namespaces, versions).
pub open spec fn listing_fold(entries: Seq<(Seq<char>, bool, Seq<Seq<char>>)>) -> (
    bool,
    bool,
    Seq<Seq<char>>,
    Seq<Seq<char>>,
)
    decreases entries.len(),
{
    if entries.len() == 0 {
        (false, false, Seq::empty(), Seq::empty())
    } else {
        let prev = listing_fold(entries.drop_last());
        let e = entries.last();
        if is_version_dir_spec(e.0) {
            (prev.0, true, prev.2, prev.3.push(e.0))
        } else if e.1 && has_char(e.0, '.') {
            let sub = add_sub_versions(prev.3, e.2);
            (true, prev.1 || sub.1, prev.2.push(e.0), sub.0)
        } else {
            prev
        }
    }
}

/// Adds the version names among `children` that are not yet listed; the
/// flag says whether any child is a version name.
pub open spec fn add_sub_versions(versions: Seq<Seq<char>>, children: Seq<Seq<char>>) -> (
    Seq<Seq<char>>,
    bool,
)
    decreases children.len(),
{
    if children.len() == 0 {
        (versions, false)
    } else {
        let prev = add_sub_versions(versions, children.drop_last());
        let c = children.last();
        if is_version_dir_spec(c) {
            (if prev.0.contains(c) {
                prev.0
            } else {
                prev.0.push(c)
            }, true)
        } else {
            prev
        }
    }
}

/// Depth at which type files sit.
pub open spec fn type_depth_spec(has_ns: bool, has_v: bool, namespaces: Seq<Seq<char>>) -> nat {
    (if has_ns {
        1nat + (if exists|i: int| 0 <= i < namespaces.len() && has_char(#[trigger] namespaces[i], '.') {
            1nat
        } else {
            0nat
        })
    } else {
        0nat
    }) + (if has_v {
        1nat
    } else {
        0nat
    })
}

/// The layout a detected structure stands for.
pub open spec fn layout_spec(has_ns: bool, has_v: bool, namespaces: Seq<Seq<char>>) -> ModuleLayout {
    if has_v && exists|i: int| 0 <= i < namespaces.len() && !is_version_dir_spec(#[trigger] namespaces[i]) {
        ModuleLayout::MixedRoot
    } else if has_ns && has_v {
        ModuleLayout::NamespacedVersioned
    } else if has_ns {
        ModuleLayout::NamespacedFlat
    } else if has_v {
        ModuleLayout::MixedRoot
    } else {
        ModuleLayout::Flat
    }
}

/// The view of a listing entry.
pub open spec fn listing_view(e: DirListing) -> (Seq<char>, bool, Seq<Seq<char>>) {
    (e.name@, e.is_dir, views(e.children@))
}

fn count_digits(cs: &Vec<char>, from: usize) -> (n: usize)
    requires
        from <= cs.len(),
    ensures
        from + n <= cs.len(),
        n == digit_prefix_len(cs@.skip(from as int)),
{
    let mut n: usize = 0;
    let mut j = from;
    loop
        invariant
            from <= j <= cs.len(),
            n == j - from,
            forall|k: int| from <= k < j ==> is_ascii_digit(cs@[k]),
        ensures
            from <= j <= cs.len(),
            n == j - from,
            forall|k: int| from <= k < j ==> is_ascii_digit(cs@[k]),
            j < cs.len() ==> !is_ascii_digit(cs@[j as int]),
        decreases cs.len() - j,
    {
        if j >= cs.len() || !is_digit(cs[j]) {
            break;
        }
        j = j + 1;
        n = n + 1;
    }
    proof {
        lemma_digit_prefix(cs@.skip(from as int), n as int);
    }
    n
}

proof fn lemma_digit_prefix(s: Seq<char>, n: int)
    requires
        0 <= n <= s.len(),
        forall|k: int| 0 <= k < n ==> is_ascii_digit(s[k]),
        n < s.len() ==> !is_ascii_digit(s[n]),
    ensures
        digit_prefix_len(s) == n,
    decreases n,
{
    if n > 0 {
        lemma_digit_prefix(s.skip(1), n - 1);
    }
}

fn all_digits_from(cs: &Vec<char>, from: usize) -> (r: bool)
    requires
        from <= cs.len(),
    ensures
        r == all_digits(cs@.skip(from as int)),
{
    let mut j = from;
    while j < cs.len()
        invariant
            from <= j <= cs.len(),
            forall|k: int| from <= k < j ==> is_ascii_digit(cs@[k]),
        decreases cs.len() - j,
    {
        if !is_digit(cs[j]) {
            assert(!is_ascii_digit(cs@.skip(from as int)[j - from]));
            return false;
        }
        j = j + 1;
    }
    true
}

fn prefix_at(cs: &Vec<char>, from: usize, p: &str) -> (r: bool)
    requires
        from <= cs.len(),
    ensures
        r == is_prefix(p@, cs@.skip(from as int)),
{
    let tail = string_of_range(cs, from, cs.len());
    assert(cs@.subrange(from as int, cs@.len() as int) =~= cs@.skip(from as int));
    starts_with(tail.as_str(), p)
}

pub proof fn lemma_digits_value_mono(s: Seq<char>, i: int)
    requires
        0 <= i <= s.len(),
        all_digits(s),
    ensures
        digits_value(s.take(i)) <= digits_value(s),
    decreases s.len() - i,
{
    if i < s.len() {
        lemma_digits_value_mono(s, i + 1);
        assert(s.take(i + 1).drop_last() =~= s.take(i));
    } else {
        assert(s.take(i) =~= s);
    }
}

/// std's `u32::from_str` on `cs[from..]`, `0` when it fails.
fn parse_u32_or_zero(cs: &Vec<char>, from: usize, to: usize) -> (r: u32)
    requires
        from <= to <= cs.len(),
    ensures
        r == match parse_u32_spec(cs@.subrange(from as int, to as int)) {
            Some(x) => x,
            None => 0,
        },
{
    let ghost s = cs@.subrange(from as int, to as int);
    let mut start = from;
    if from < to && cs[from] == '+' {
        start = from + 1;
    }
    let ghost d = cs@.subrange(start as int, to as int);
    assert(s.len() > 0 ==> s[0] == cs@[from as int]);
    assert(d =~= if s.len() > 0 && s[0] == '+' { s.skip(1) } else { s });
    if start == to {
        return 0;
    }
    let mut acc: u64 = 0;
    let mut j = start;
    while j < to
        invariant
            start <= j <= to <= cs.len(),
            d == cs@.subrange(start as int, to as int),
            s == cs@.subrange(from as int, to as int),
            d == (if s.len() > 0 && s[0] == '+' { s.skip(1) } else { s }),
            forall|k: int| start <= k < j ==> is_ascii_digit(cs@[k]),
            acc == digits_value(cs@.subrange(start as int, j as int)),
            acc <= u32::MAX,
        decreases to - j,
    {
        let c = cs[j];
        if !is_digit(c) {
            assert(!is_ascii_digit(d[j - start]));
            return 0;
        }
        let digit = (c as u32 - '0' as u32) as u64;
        assert(cs@.subrange(start as int, j + 1).drop_last() =~= cs@.subrange(start as int, j as int));
        let next = acc * 10 + digit;
        if next > u32::MAX as u64 {
            proof {
                let pre = cs@.subrange(start as int, j + 1);
                assert(pre =~= d.take(j + 1 - start));
                if all_digits(d) {
                    lemma_digits_value_mono(d, j + 1 - start);
                }
            }
            return 0;
        }
        acc = next;
        j = j + 1;
    }
    assert(cs@.subrange(start as int, j as int) =~= d);
    acc as u32
}

/// `k` indexes the latest version of `vs`: no later entry is at least as
/// recent, and (when every name starts with `v`) no entry is more recent.
pub open spec fn latest_at(vs: Seq<Seq<char>>, k: int) -> bool {
    &&& 0 <= k < vs.len()
    &&& forall|j: int| k < j < vs.len() ==> compare_versions_spec(#[trigger] vs[j], vs[k]) == VersionOrder::Less
    &&& all_v_names(vs) ==> forall|j: int| 0 <= j < vs.len() ==> compare_versions_spec(#[trigger] vs[j], vs[k]) != VersionOrder::Greater
}

proof fn lemma_compare_key(a: Seq<char>, b: Seq<char>)
    requires
        a.len() > 0 && a[0] == 'v',
        b.len() > 0 && b[0] == 'v',
    ensures
        (compare_versions_spec(a, b) == VersionOrder::Less) <==> (key_le(a, b) && !key_le(b, a)),
        (compare_versions_spec(a, b) == VersionOrder::Greater) <==> (key_le(b, a) && !key_le(a, b)),
        version_key(a).1 <= 2,
        version_key(b).1 <= 2,
{
}

impl ModuleStructure {
    /// Whether a directory name looks like a version (`v1`, `v1beta1`, ...).
    pub fn is_version_dir(name: &str) -> (r: bool)
        ensures
            r == is_version_dir_spec(name@),
    {
        let cs = chars_of(name);
        if cs.len() == 0 || cs[0] != 'v' {
            return false;
        }
        proof {
            reveal_strlit("alpha");
            reveal_strlit("beta");
        }
        let ghost rest = cs@.skip(1);
        if all_digits_from(&cs, 1) && cs.len() > 1 {
            return true;
        }
        let k = count_digits(&cs, 1);
        if k < cs.len() - 1 && k > 0 {
            let sfx = 1 + k;
            assert(rest.skip(k as int) =~= cs@.skip(sfx as int));
            if prefix_at(&cs, sfx, "alpha") {
                let st = sfx + 5;
                assert(cs@.skip(sfx as int).skip(5) =~= cs@.skip(st as int));
                return st == cs.len() || all_digits_from(&cs, st);
            } else if prefix_at(&cs, sfx, "beta") {
                let st = sfx + 4;
                assert(cs@.skip(sfx as int).skip(4) =~= cs@.skip(st as int));
                return st == cs.len() || all_digits_from(&cs, st);
            } else {
                return false;
            }
        }
        false
    }

    fn key_of(v: &str) -> (r: (u32, u8, u32))
        ensures
            (r.0, r.1 as int, r.2) == version_key(v@),
    {
        let cs = chars_of(v);
        if cs.len() == 0 || cs[0] != 'v' {
            return (0, 3, 0);
        }
        proof {
            reveal_strlit("alpha");
            reveal_strlit("beta");
        }
        let ghost rest = cs@.skip(1);
        let n = count_digits(&cs, 1);
        let main = parse_u32_or_zero(&cs, 1, 1 + n);
        assert(cs@.subrange(1, 1 + n) =~= rest.take(n as int));
        if n < cs.len() - 1 {
            let sfx = 1 + n;
            assert(rest.skip(n as int) =~= cs@.skip(sfx as int));
            if prefix_at(&cs, sfx, "alpha") {
                let sub = parse_u32_or_zero(&cs, sfx + 5, cs.len());
                assert(cs@.subrange(sfx + 5, cs@.len() as int) =~= cs@.skip(sfx as int).skip(5));
                return (main, 0, sub);
            } else if prefix_at(&cs, sfx, "beta") {
                let sub = parse_u32_or_zero(&cs, sfx + 4, cs.len());
                assert(cs@.subrange(sfx + 4, cs@.len() as int) =~= cs@.skip(sfx as int).skip(4));
                return (main, 1, sub);
            }
            return (main, 2, 0);
        }
        (main, 2, 0)
    }

    /// Precedence of two version strings.
    pub fn compare_versions(a: &str, b: &str) -> (r: VersionOrder)
        ensures
            r == compare_versions_spec(a@, b@),
    {
        let ka = Self::key_of(a);
        let kb = Self::key_of(b);
        if ka.0 != kb.0 {
            if ka.0 < kb.0 {
                VersionOrder::Less
            } else {
                VersionOrder::Greater
            }
        } else if ka.1 == kb.1 && ka.1 <= 1 {
            if ka.2 < kb.2 {
                VersionOrder::Less
            } else if ka.2 == kb.2 {
                VersionOrder::Equal
            } else {
                VersionOrder::Greater
            }
        } else if ka.1 == kb.1 {
            VersionOrder::Equal
        } else if ka.1 == 0 {
            VersionOrder::Less
        } else if kb.1 == 0 {
            VersionOrder::Greater
        } else if ka.1 == 1 && kb.1 == 2 {
            VersionOrder::Less
        } else if ka.1 == 2 && kb.1 == 1 {
            VersionOrder::Greater
        } else {
            VersionOrder::Equal
        }
    }

    /// Depth at which type files sit under the package root.
    pub fn calculate_type_depth(&self) -> (r: usize)
        ensures
            r == type_depth_spec(self.has_namespaces, self.has_versions, views(self.namespaces@)),
    {
        let mut depth: usize = 0;
        if self.has_namespaces {
            depth = depth + 1;
            let mut i: usize = 0;
            let mut dotted = false;
            while i < self.namespaces.len()
                invariant
                    0 <= i <= self.namespaces.len(),
                    dotted <==> exists|k: int| 0 <= k < i && has_char(#[trigger] views(self.namespaces@)[k], '.'),
                decreases self.namespaces.len() - i,
            {
                if contains_char(self.namespaces[i].as_str(), '.') {
                    dotted = true;
                }
                assert(views(self.namespaces@)[i as int] == self.namespaces@[i as int]@);
                i = i + 1;
            }
            if dotted {
                depth = depth + 1;
            }
        }
        if self.has_versions {
            depth = depth + 1;
        }
        depth
    }

    /// The module layout this structure stands for.
    pub fn to_layout(&self) -> (r: ModuleLayout)
        ensures
            r == layout_spec(self.has_namespaces, self.has_versions, views(self.namespaces@)),
    {
        let mut non_version = false;
        let mut i: usize = 0;
        while i < self.namespaces.len()
            invariant
                0 <= i <= self.namespaces.len(),
                non_version <==> exists|k: int| 0 <= k < i && !is_version_dir_spec(#[trigger] views(self.namespaces@)[k]),
            decreases self.namespaces.len() - i,
        {
            if !Self::is_version_dir(self.namespaces[i].as_str()) {
                non_version = true;
            }
            assert(views(self.namespaces@)[i as int] == self.namespaces@[i as int]@);
            i = i + 1;
        }
        if self.has_versions && non_version {
            ModuleLayout::MixedRoot
        } else if self.has_namespaces && self.has_versions {
            ModuleLayout::NamespacedVersioned
        } else if self.has_namespaces {
            ModuleLayout::NamespacedFlat
        } else if self.has_versions {
            ModuleLayout::MixedRoot
        } else {
            ModuleLayout::Flat
        }
    }

    /// The latest version among the detected versions: the last of them in
    /// precedence order.
    pub fn get_latest_version(&self) -> (r: Option<String>)
        ensures
            r is None <==> self.versions@.len() == 0,
            r matches Some(v) ==> exists|k: int|
                #![trigger views(self.versions@)[k]]
                latest_at(views(self.versions@), k) && views(self.versions@)[k] == v@,
    {
        if self.versions.len() == 0 {
            return None;
        }
        let ghost vs = views(self.versions@);
        let mut best: usize = 0;
        let mut j: usize = 1;
        while j < self.versions.len()
            invariant
                vs == views(self.versions@),
                1 <= j <= self.versions.len(),
                best < j,
                forall|i: int| best < i < j ==> compare_versions_spec(#[trigger] vs[i], vs[best as int]) == VersionOrder::Less,
                all_v_names(vs) ==> forall|i: int| 0 <= i < j ==> key_le(#[trigger] vs[i], vs[best as int]),
            decreases self.versions.len() - j,
        {
            let o = Self::compare_versions(self.versions[j].as_str(), self.versions[best].as_str());
            proof {
                if all_v_names(vs) {
                    lemma_compare_key(vs[j as int], vs[best as int]);
                }
            }
            if o != VersionOrder::Less {
                best = j;
            }
            j = j + 1;
        }
        proof {
            if all_v_names(vs) {
                assert forall|i: int| 0 <= i < vs.len() implies compare_versions_spec(#[trigger] vs[i], vs[best as int]) != VersionOrder::Greater by {
                    lemma_compare_key(vs[i], vs[best as int]);
                }
            }
            assert(latest_at(vs, best as int));
        }
        Some(self.versions[best].clone())
    }

    /// The structure described by a root directory listing.
    pub fn from_listing(entries: &Vec<DirListing>) -> (r: ModuleStructure)
        ensures
            ({
                let f = listing_fold(entries@.map_values(|e: DirListing| listing_view(e)));
                &&& r.has_namespaces == f.0
                &&& r.has_versions == f.1
                &&& views(r.namespaces@) == f.2
                &&& views(r.versions@) == f.3
                &&& r.type_depth == type_depth_spec(f.0, f.1, f.2)
            }),
    {
        let ghost es = entries@.map_values(|e: DirListing| listing_view(e));
        let mut s = ModuleStructure {
            has_namespaces: false,
            has_versions: false,
            namespaces: Vec::new(),
            versions: Vec::new(),
            type_depth: 0,
        };
        let mut i: usize = 0;
        proof {
            assert(es.take(0) =~= Seq::<(Seq<char>, bool, Seq<Seq<char>>)>::empty());
            assert(views(s.namespaces@) =~= Seq::<Seq<char>>::empty());
            assert(views(s.versions@) =~= Seq::<Seq<char>>::empty());
        }
        while i < entries.len()
            invariant
                es == entries@.map_values(|e: DirListing| listing_view(e)),
                0 <= i <= entries.len(),
                (s.has_namespaces, s.has_versions, views(s.namespaces@), views(s.versions@))
                    == listing_fold(es.take(i as int)),
            decreases entries.len() - i,
        {
            let e = &entries[i];
            proof {
                assert(es.take(i + 1).drop_last() =~= es.take(i as int));
                assert(es.take(i + 1).last() == listing_view(entries@[i as int]));
            }
            if Self::is_version_dir(e.name.as_str()) {
                let ghost old_v = s.versions@;
                s.versions.push(e.name.clone());
                s.has_versions = true;
                assert(views(s.versions@) =~= views(old_v).push(e.name@));
            } else if e.is_dir && contains_char(e.name.as_str(), '.') {
                let ghost old_n = s.namespaces@;
                s.namespaces.push(e.name.clone());
                s.has_namespaces = true;
                assert(views(s.namespaces@) =~= views(old_n).push(e.name@));
                let ghost v0 = views(s.versions@);
                let ghost cv = views(e.children@);
                let mut any = false;
                let mut k: usize = 0;
                let ghost hv0 = s.has_versions;
                let ghost ns_now = s.namespaces@;
                assert(cv.take(0) =~= Seq::<Seq<char>>::empty());
                while k < e.children.len()
                    invariant
                        0 <= k <= e.children.len(),
                        cv == views(e.children@),
                        s.has_versions == (hv0 || any),
                        s.has_namespaces,
                        s.namespaces@ == ns_now,
                        (views(s.versions@), any) == add_sub_versions(v0, cv.take(k as int)),
                    decreases e.children.len() - k,
                {
                    let child = e.children[k].as_str();
                    assert(cv.take(k + 1).drop_last() =~= cv.take(k as int));
                    assert(cv.take(k + 1).last() == child@);
                    if Self::is_version_dir(child) {
                        if !contains_str(&s.versions, child) {
                            let ghost old_v = s.versions@;
                            s.versions.push(e.children[k].clone());
                            assert(views(s.versions@) =~= views(old_v).push(child@));
                        }
                        s.has_versions = true;
                        any = true;
                    }
                    k = k + 1;
                }
                assert(cv.take(cv.len() as int) =~= cv);
                assert(es.take(i + 1).last().2 == cv);
            } else {
                assert(!is_version_dir_spec(es.take(i + 1).last().0));
                assert(!(es.take(i + 1).last().1 && has_char(es.take(i + 1).last().0, '.')));
            }
            i = i + 1;
        }
        assert(es.take(entries@.len() as int) =~= es);
        s.type_depth = s.calculate_type_depth();
        s
    }
}

/// The reverse of an ordering.
pub open spec fn reverse_order(o: VersionOrder) -> VersionOrder {
    match o {
        VersionOrder::Less => VersionOrder::Greater,
        VersionOrder::Equal => VersionOrder::Equal,
        VersionOrder::Greater => VersionOrder::Less,
    }
}

/// Comparing two versions the other way round gives the reverse answer.
pub proof fn law_compare_versions_antisymmetric(a: Seq<char>, b: Seq<char>)
    ensures
        compare_versions_spec(b, a) == reverse_order(compare_versions_spec(a, b)),
{
}

} // verus!
