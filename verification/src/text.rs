//! Character-sequence utilities used throughout the library, with their
//! mathematical meaning over `Seq<char>`.

use vstd::prelude::*;
use vstd::string::StringExecFns;

verus! {

broadcast use vstd::string::group_string_axioms;

// ---------------------------------------------------------------------------
// Specifications
// ---------------------------------------------------------------------------

/// `p` is a prefix of `s`.
pub open spec fn is_prefix(p: Seq<char>, s: Seq<char>) -> bool {
    p.len() <= s.len() && s.take(p.len() as int) == p
}

/// `p` is a suffix of `s`.
pub open spec fn is_suffix(p: Seq<char>, s: Seq<char>) -> bool {
    p.len() <= s.len() && s.skip(s.len() - p.len()) == p
}

/// `needle` occurs in `s` starting at position `i`.
pub open spec fn occurs_at(s: Seq<char>, needle: Seq<char>, i: int) -> bool {
    0 <= i && i + needle.len() <= s.len() && s.subrange(i, i + needle.len()) == needle
}

/// `needle` occurs somewhere in `s`.
pub open spec fn contains_seq(s: Seq<char>, needle: Seq<char>) -> bool {
    exists|i: int| #[trigger] occurs_at(s, needle, i)
}

/// `c` occurs in `s`.
pub open spec fn has_char(s: Seq<char>, c: char) -> bool {
    exists|i: int| 0 <= i < s.len() && #[trigger] s[i] == c
}

/// The pieces of `s` between occurrences of `sep` (std `str::split` with a
/// `char` pattern): always at least one piece.
pub open spec fn split_spec(s: Seq<char>, sep: char) -> Seq<Seq<char>>
    decreases s.len(),
{
    if s.len() == 0 {
        seq![Seq::<char>::empty()]
    } else {
        let prev = split_spec(s.drop_last(), sep);
        if s.last() == sep {
            prev.push(Seq::<char>::empty())
        } else {
            prev.update(prev.len() - 1, prev.last().push(s.last()))
        }
    }
}

/// The pieces joined with `sep` between consecutive pieces (std `join`).
pub open spec fn join_spec(parts: Seq<Seq<char>>, sep: Seq<char>) -> Seq<char>
    decreases parts.len(),
{
    if parts.len() == 0 {
        Seq::<char>::empty()
    } else if parts.len() == 1 {
        parts[0]
    } else {
        join_spec(parts.drop_last(), sep) + sep + parts.last()
    }
}

/// std `str::replace` with an empty pattern: `to` before every character and
/// at the end.
pub open spec fn replace_empty_spec(s: Seq<char>, to: Seq<char>) -> Seq<char>
    decreases s.len(),
{
    if s.len() == 0 {
        to
    } else {
        to + seq![s[0]] + replace_empty_spec(s.skip(1), to)
    }
}

/// std `str::replace`: every non-overlapping occurrence of `from`, scanning
/// left to right, replaced by `to`.
pub open spec fn replace_spec(s: Seq<char>, from: Seq<char>, to: Seq<char>) -> Seq<char>
    decreases s.len(),
{
    if from.len() == 0 {
        replace_empty_spec(s, to)
    } else if s.len() == 0 {
        s
    } else if is_prefix(from, s) {
        to + replace_spec(s.skip(from.len() as int), from, to)
    } else {
        seq![s[0]] + replace_spec(s.skip(1), from, to)
    }
}

/// The views of a sequence of strings.
pub open spec fn views(v: Seq<String>) -> Seq<Seq<char>> {
    v.map_values(|s: String| s@)
}

/// The characters of `s` before the first `sep` (all of `s` if none).
pub open spec fn first_piece(s: Seq<char>, sep: char) -> Seq<char>
    decreases s.len(),
{
    if s.len() == 0 {
        s
    } else if s[0] == sep {
        Seq::<char>::empty()
    } else {
        seq![s[0]] + first_piece(s.skip(1), sep)
    }
}

/// The position of the last piece satisfying `pred`.
pub open spec fn rposition(parts: Seq<Seq<char>>, pred: spec_fn(Seq<char>) -> bool) -> Option<int>
    decreases parts.len(),
{
    if parts.len() == 0 {
        None
    } else if pred(parts.last()) {
        Some(parts.len() - 1)
    } else {
        rposition(parts.drop_last(), pred)
    }
}

/// The position of the first piece satisfying `pred`.
pub open spec fn position(parts: Seq<Seq<char>>, pred: spec_fn(Seq<char>) -> bool) -> Option<int>
    decreases parts.len(),
{
    if parts.len() == 0 {
        None
    } else if pred(parts[0]) {
        Some(0)
    } else {
        match position(parts.skip(1), pred) {
            Some(i) => Some(i + 1),
            None => None,
        }
    }
}

// ---------------------------------------------------------------------------
// Lemmas
// ---------------------------------------------------------------------------

pub proof fn lemma_split_nonempty(s: Seq<char>, sep: char)
    ensures
        split_spec(s, sep).len() >= 1,
    decreases s.len(),
{
    if s.len() > 0 {
        lemma_split_nonempty(s.drop_last(), sep);
    }
}

pub proof fn lemma_rposition_range(parts: Seq<Seq<char>>, pred: spec_fn(Seq<char>) -> bool)
    ensures
        rposition(parts, pred) matches Some(i) ==> 0 <= i < parts.len() && pred(parts[i]),
    decreases parts.len(),
{
    if parts.len() > 0 && !pred(parts.last()) {
        lemma_rposition_range(parts.drop_last(), pred);
    }
}

pub proof fn lemma_position_range(parts: Seq<Seq<char>>, pred: spec_fn(Seq<char>) -> bool)
    ensures
        position(parts, pred) matches Some(i) ==> 0 <= i < parts.len() && pred(parts[i]),
    decreases parts.len(),
{
    if parts.len() > 0 && !pred(parts[0]) {
        lemma_position_range(parts.skip(1), pred);
    }
}

pub proof fn lemma_take_step(s: Seq<char>, i: int)
    requires
        0 <= i < s.len(),
    ensures
        s.take(i + 1).drop_last() == s.take(i),
        s.take(i + 1).last() == s[i],
        s.take(i + 1).len() == i + 1,
{
    assert(s.take(i + 1).drop_last() =~= s.take(i));
}

// ---------------------------------------------------------------------------
// Trusted primitive
// ---------------------------------------------------------------------------

/// Appends one character to a `String`.
/// Calls std `String::push`; claims the new contents are the old ones with
/// `c` appended.
#[verifier::external_body]
pub(crate) fn push_char(s: &mut String, c: char)
    ensures
        final(s)@ == old(s)@.push(c),
{
    s.push(c)
}

// ---------------------------------------------------------------------------
// Executable operations
// ---------------------------------------------------------------------------

/// The characters of a string slice, in order.
pub fn chars_of(s: &str) -> (v: Vec<char>)
    ensures
        v@ == s@,
{
    let mut v: Vec<char> = Vec::new();
    for c in it: s.chars()
        invariant
            it.seq() == s@,
            v@ == it.seq().take(it.index()),
    {
        v.push(c);
    }
    v
}

/// A `String` holding the characters `v[lo..hi]`.
pub fn string_of_range(v: &Vec<char>, lo: usize, hi: usize) -> (s: String)
    requires
        lo <= hi <= v.len(),
    ensures
        s@ == v@.subrange(lo as int, hi as int),
{
    let mut s = String::new();
    let mut i = lo;
    while i < hi
        invariant
            lo <= i <= hi <= v.len(),
            s@ == v@.subrange(lo as int, i as int),
        decreases hi - i,
    {
        push_char(&mut s, v[i]);
        assert(v@.subrange(lo as int, i + 1) =~= v@.subrange(lo as int, i as int).push(v@[i as int]));
        i = i + 1;
    }
    s
}

/// A `String` holding the characters of `v`.
pub fn string_of(v: &Vec<char>) -> (s: String)
    ensures
        s@ == v@,
{
    let s = string_of_range(v, 0, v.len());
    assert(v@.subrange(0, v@.len() as int) =~= v@);
    s
}

/// A fresh `String` equal to `s`.
pub fn to_owned_string(s: &str) -> (r: String)
    ensures
        r@ == s@,
{
    s.to_owned()
}

/// `a` followed by `b`.
pub fn concat(a: &str, b: &str) -> (r: String)
    ensures
        r@ == a@ + b@,
{
    let mut r = a.to_owned();
    r.append(b);
    r
}

/// Character-wise equality.
pub fn str_eq(a: &str, b: &str) -> (r: bool)
    ensures
        r == (a@ == b@),
{
    let x = a.to_owned();
    let y = b.to_owned();
    x == y
}

/// Whether `p` occurs in `s` at position `i` (character positions).
pub fn occurs_at_vec(s: &Vec<char>, p: &Vec<char>, i: usize) -> (r: bool)
    ensures
        r == occurs_at(s@, p@, i as int),
{
    if i > s.len() || p.len() > s.len() - i {
        return false;
    }
    let mut j: usize = 0;
    while j < p.len()
        invariant
            i + p.len() <= s.len(),
            0 <= j <= p.len(),
            forall|k: int| 0 <= k < j ==> s@[i + k] == p@[k],
        decreases p.len() - j,
    {
        if s[i + j] != p[j] {
            assert(s@.subrange(i as int, i + p.len())[j as int] != p@[j as int]);
            return false;
        }
        j = j + 1;
    }
    assert(s@.subrange(i as int, i + p.len()) =~= p@);
    true
}

/// Whether `p` is a prefix of `s`.
pub fn starts_with(s: &str, p: &str) -> (r: bool)
    ensures
        r == is_prefix(p@, s@),
{
    let sv = chars_of(s);
    let pv = chars_of(p);
    let r = occurs_at_vec(&sv, &pv, 0);
    assert(sv@.subrange(0, pv@.len() as int) =~= sv@.take(pv@.len() as int));
    r
}

/// Whether `p` is a suffix of `s`.
pub fn ends_with(s: &str, p: &str) -> (r: bool)
    ensures
        r == is_suffix(p@, s@),
{
    let sv = chars_of(s);
    let pv = chars_of(p);
    if pv.len() > sv.len() {
        return false;
    }
    let r = occurs_at_vec(&sv, &pv, sv.len() - pv.len());
    assert(sv@.subrange(sv@.len() - pv@.len(), sv@.len() as int) =~= sv@.skip(sv@.len() - pv@.len()));
    r
}

/// Position of the first occurrence of `p` in `s` at or after `from`.
pub fn find_from(s: &Vec<char>, p: &Vec<char>, from: usize) -> (r: Option<usize>)
    ensures
        match r {
            Some(i) => from <= i && occurs_at(s@, p@, i as int) && forall|j: int|
                from <= j < i ==> !occurs_at(s@, p@, j),
            None => forall|j: int| from <= j ==> !occurs_at(s@, p@, j),
        },
{
    if from > s.len() {
        return None;
    }
    let mut i = from;
    loop
        invariant
            from <= i <= s.len(),
            forall|j: int| from <= j < i ==> !occurs_at(s@, p@, j),
        decreases s.len() - i,
    {
        if occurs_at_vec(s, p, i) {
            return Some(i);
        }
        if i == s.len() {
            return None;
        }
        i = i + 1;
    }
}

/// Whether `needle` occurs in `s`.
pub fn contains(s: &str, needle: &str) -> (r: bool)
    ensures
        r == contains_seq(s@, needle@),
{
    let sv = chars_of(s);
    let nv = chars_of(needle);
    match find_from(&sv, &nv, 0) {
        Some(i) => {
            assert(occurs_at(sv@, nv@, i as int));
            true
        },
        None => {
            assert forall|j: int| !occurs_at(s@, needle@, j) by {
                if j < 0 {
                } else {
                }
            }
            false
        },
    }
}

/// Whether the character `c` occurs in `s`.
pub fn contains_char(s: &str, c: char) -> (r: bool)
    ensures
        r == has_char(s@, c),
{
    let sv = chars_of(s);
    let mut i: usize = 0;
    while i < sv.len()
        invariant
            sv@ == s@,
            0 <= i <= sv.len(),
            forall|k: int| 0 <= k < i ==> sv@[k] != c,
        decreases sv.len() - i,
    {
        if sv[i] == c {
            return true;
        }
        i = i + 1;
    }
    false
}

/// `s` without the prefix `p`, if `p` is a prefix.
pub fn strip_prefix(s: &str, p: &str) -> (r: Option<String>)
    ensures
        match r {
            Some(t) => is_prefix(p@, s@) && t@ == s@.skip(p@.len() as int),
            None => !is_prefix(p@, s@),
        },
{
    if starts_with(s, p) {
        let sv = chars_of(s);
        let pl = chars_of(p).len();
        let t = string_of_range(&sv, pl, sv.len());
        assert(sv@.subrange(pl as int, sv@.len() as int) =~= s@.skip(p@.len() as int));
        Some(t)
    } else {
        None
    }
}

/// `s` without the suffix `p`, if `p` is a suffix.
pub fn strip_suffix(s: &str, p: &str) -> (r: Option<String>)
    ensures
        match r {
            Some(t) => is_suffix(p@, s@) && t@ == s@.take(s@.len() - p@.len()),
            None => !is_suffix(p@, s@),
        },
{
    if ends_with(s, p) {
        let sv = chars_of(s);
        let pl = chars_of(p).len();
        let t = string_of_range(&sv, 0, sv.len() - pl);
        assert(sv@.subrange(0, sv@.len() - pl) =~= s@.take(s@.len() - p@.len()));
        Some(t)
    } else {
        None
    }
}

/// The pieces of `s` between occurrences of `sep`.
pub fn split_char(s: &str, sep: char) -> (r: Vec<String>)
    ensures
        views(r@) == split_spec(s@, sep),
{
    let sv = chars_of(s);
    let mut parts: Vec<String> = Vec::new();
    let mut cur = String::new();
    let mut i: usize = 0;
    proof {
        assert(sv@.take(0) =~= Seq::<char>::empty());
        assert(views(parts@).push(cur@) =~= split_spec(sv@.take(0), sep));
    }
    while i < sv.len()
        invariant
            sv@ == s@,
            0 <= i <= sv.len(),
            views(parts@).push(cur@) == split_spec(sv@.take(i as int), sep),
        decreases sv.len() - i,
    {
        let c = sv[i];
        proof {
            lemma_take_step(sv@, i as int);
            lemma_split_nonempty(sv@.take(i as int), sep);
        }
        if c == sep {
            let ghost old_parts = parts@;
            let done = cur;
            parts.push(done);
            cur = String::new();
            proof {
                assert(views(parts@) =~= views(old_parts).push(done@));
                assert(views(parts@).push(cur@) =~= split_spec(sv@.take(i + 1), sep));
            }
        } else {
            push_char(&mut cur, c);
            proof {
                let prev = split_spec(sv@.take(i as int), sep);
                assert(views(parts@).push(cur@) =~= prev.update(prev.len() - 1, prev.last().push(c)));
            }
        }
        i = i + 1;
    }
    let ghost before = parts@;
    parts.push(cur);
    proof {
        assert(sv@.take(sv@.len() as int) =~= sv@);
        assert(views(parts@) =~= views(before).push(parts@.last()@));
    }
    parts
}

/// `parts[lo..hi]` joined with `sep`.
pub fn join_range(parts: &Vec<String>, lo: usize, hi: usize, sep: &str) -> (r: String)
    requires
        lo <= hi <= parts.len(),
    ensures
        r@ == join_spec(views(parts@).subrange(lo as int, hi as int), sep@),
{
    let mut r = String::new();
    let mut i = lo;
    proof {
        assert(views(parts@).subrange(lo as int, lo as int) =~= Seq::<Seq<char>>::empty());
    }
    while i < hi
        invariant
            lo <= i <= hi <= parts.len(),
            r@ == join_spec(views(parts@).subrange(lo as int, i as int), sep@),
        decreases hi - i,
    {
        let ghost prev = views(parts@).subrange(lo as int, i as int);
        let ghost next = views(parts@).subrange(lo as int, i + 1);
        proof {
            assert(next.drop_last() =~= prev);
            assert(next.last() == parts@[i as int]@);
        }
        if i > lo {
            r.append(sep);
        } else {
            assert(next =~= seq![parts@[i as int]@]);
        }
        r.append(parts[i].as_str());
        i = i + 1;
    }
    r
}

/// All the parts joined with `sep`.
pub fn join(parts: &Vec<String>, sep: &str) -> (r: String)
    ensures
        r@ == join_spec(views(parts@), sep@),
{
    let r = join_range(parts, 0, parts.len(), sep);
    assert(views(parts@).subrange(0, parts@.len() as int) =~= views(parts@));
    r
}

proof fn lemma_replace_empty_skip(s: Seq<char>, to: Seq<char>, i: int)
    requires
        0 <= i < s.len(),
    ensures
        replace_empty_spec(s.skip(i), to) == to + seq![s[i]] + replace_empty_spec(s.skip(i + 1), to),
{
    assert(s.skip(i).skip(1) =~= s.skip(i + 1));
}

proof fn lemma_replace_skip(s: Seq<char>, from: Seq<char>, to: Seq<char>, i: int)
    requires
        from.len() > 0,
        0 <= i < s.len(),
    ensures
        is_prefix(from, s.skip(i)) ==> replace_spec(s.skip(i), from, to) == to + replace_spec(
            s.skip(i + from.len()),
            from,
            to,
        ),
        !is_prefix(from, s.skip(i)) ==> replace_spec(s.skip(i), from, to) == seq![s[i]]
            + replace_spec(s.skip(i + 1), from, to),
{
    if is_prefix(from, s.skip(i)) {
        assert(s.skip(i).skip(from.len() as int) =~= s.skip(i + from.len()));
    } else {
        assert(s.skip(i).skip(1) =~= s.skip(i + 1));
    }
}

/// `s` with every occurrence of `from` replaced by `to`.
pub fn replace(s: &str, from: &str, to: &str) -> (r: String)
    ensures
        r@ == replace_spec(s@, from@, to@),
{
    let sv = chars_of(s);
    let fv = chars_of(from);
    let mut r = String::new();
    let mut i: usize = 0;
    assert(sv@.skip(0) =~= sv@);
    if fv.len() == 0 {
        while i < sv.len()
            invariant
                sv@ == s@,
                from@.len() == 0,
                0 <= i <= sv.len(),
                r@ + replace_empty_spec(sv@.skip(i as int), to@) == replace_empty_spec(s@, to@),
            decreases sv.len() - i,
        {
            proof {
                lemma_replace_empty_skip(sv@, to@, i as int);
            }
            let ghost r0 = r@;
            r.append(to);
            push_char(&mut r, sv[i]);
            assert(r@ == r0 + to@ + seq![sv@[i as int]]);
            assert(r0 + (to@ + seq![sv@[i as int]] + replace_empty_spec(sv@.skip(i + 1), to@))
                =~= r@ + replace_empty_spec(sv@.skip(i + 1), to@));
            i = i + 1;
        }
        assert(sv@.skip(sv@.len() as int) =~= Seq::<char>::empty());
        r.append(to);
        return r;
    }
    while i < sv.len()
        invariant
            sv@ == s@,
            fv@ == from@,
            fv@.len() > 0,
            0 <= i <= sv.len(),
            r@ + replace_spec(sv@.skip(i as int), from@, to@) == replace_spec(s@, from@, to@),
        decreases sv.len() - i,
    {
        proof {
            lemma_replace_skip(sv@, fv@, to@, i as int);
        }
        let ghost r0 = r@;
        if occurs_at_vec(&sv, &fv, i) {
            proof {
                assert(sv@.subrange(i as int, i + fv@.len()) =~= sv@.skip(i as int).take(fv@.len() as int));
            }
            r.append(to);
            assert(r0 + (to@ + replace_spec(sv@.skip(i + fv@.len()), from@, to@)) =~= r@
                + replace_spec(sv@.skip(i + fv@.len()), from@, to@));
            i = i + fv.len();
        } else {
            proof {
                if is_prefix(fv@, sv@.skip(i as int)) {
                    assert(sv@.subrange(i as int, i + fv@.len()) =~= sv@.skip(i as int).take(fv@.len() as int));
                }
            }
            push_char(&mut r, sv[i]);
            assert(r0 + (seq![sv@[i as int]] + replace_spec(sv@.skip(i + 1), from@, to@)) =~= r@
                + replace_spec(sv@.skip(i + 1), from@, to@));
            i = i + 1;
        }
    }
    proof {
        assert(sv@.skip(i as int).len() == 0);
        assert(r@ + sv@.skip(i as int) =~= r@);
    }
    r
}


/// Number of characters before the first `sep` in `s` (the length of `s`
/// when there is none).
pub fn first_piece_len(s: &Vec<char>, sep: char) -> (n: usize)
    ensures
        n <= s.len(),
        s@.take(n as int) == first_piece(s@, sep),
{
    let mut i: usize = 0;
    proof {
        assert(s@.skip(0) =~= s@);
        assert(s@.take(0) + first_piece(s@, sep) =~= first_piece(s@, sep));
    }
    while i < s.len()
        invariant
            0 <= i <= s.len(),
            s@.take(i as int) + first_piece(s@.skip(i as int), sep) == first_piece(s@, sep),
        decreases s.len() - i,
    {
        assert(s@.skip(i as int)[0] == s@[i as int]);
        if s[i] == sep {
            assert(s@.take(i as int) + Seq::<char>::empty() =~= s@.take(i as int));
            return i;
        }
        assert(s@.skip(i as int).skip(1) =~= s@.skip(i + 1));
        assert(s@.take(i + 1) =~= s@.take(i as int) + seq![s@[i as int]]);
        assert(s@.take(i + 1) + first_piece(s@.skip(i + 1), sep) =~= s@.take(i as int) + (seq![
            s@[i as int],
        ] + first_piece(s@.skip(i + 1), sep)));
        i = i + 1;
    }
    assert(s@.skip(i as int).len() == 0);
    assert(s@.take(i as int) + s@.skip(i as int) =~= s@.take(i as int));
    i
}

/// Whether some string of `v` equals `s`.
pub fn contains_str(v: &Vec<String>, s: &str) -> (r: bool)
    ensures
        r == views(v@).contains(s@),
{
    let mut i: usize = 0;
    while i < v.len()
        invariant
            0 <= i <= v.len(),
            forall|k: int| 0 <= k < i ==> v@[k]@ != s@,
        decreases v.len() - i,
    {
        if str_eq(v[i].as_str(), s) {
            assert(views(v@)[i as int] == s@);
            return true;
        }
        i = i + 1;
    }
    assert(!views(v@).contains(s@)) by {
        if views(v@).contains(s@) {
            let k = choose|k: int| 0 <= k < views(v@).len() && views(v@)[k] == s@;
            assert(v@[k]@ == s@);
        }
    }
    false
}

/// A copy of a vector of strings.
pub fn clone_strings(v: &Vec<String>) -> (r: Vec<String>)
    ensures
        views(r@) == views(v@),
{
    let mut r: Vec<String> = Vec::new();
    let mut i: usize = 0;
    while i < v.len()
        invariant
            0 <= i <= v.len(),
            views(r@) == views(v@).take(i as int),
        decreases v.len() - i,
    {
        let ghost old_r = r@;
        let c = v[i].clone();
        assert(c@ == v@[i as int]@);
        r.push(c);
        assert(views(r@) =~= views(old_r).push(c@));
        assert(views(v@).take(i + 1) =~= views(v@).take(i as int).push(v@[i as int]@));
        i = i + 1;
    }
    assert(views(v@).take(v@.len() as int) =~= views(v@));
    r
}

/// The decimal digit character for `d < 10`.
pub open spec fn digit_char(d: nat) -> char {
    (48 + d) as char
}

/// Decimal representation of `n` (std `Display` for integers).
pub open spec fn decimal_spec(n: nat) -> Seq<char>
    decreases n,
{
    if n < 10 {
        seq![digit_char(n)]
    } else {
        decimal_spec(n / 10).push(digit_char(n % 10))
    }
}

fn digit_to_char(d: usize) -> (c: char)
    requires
        d < 10,
    ensures
        c == digit_char(d as nat),
{
    match d {
        0 => '0',
        1 => '1',
        2 => '2',
        3 => '3',
        4 => '4',
        5 => '5',
        6 => '6',
        7 => '7',
        8 => '8',
        _ => '9',
    }
}

/// Decimal representation of `n`.
pub fn decimal(n: usize) -> (r: String)
    ensures
        r@ == decimal_spec(n as nat),
    decreases n,
{
    if n < 10 {
        let mut r = String::new();
        push_char(&mut r, digit_to_char(n));
        r
    } else {
        let mut r = decimal(n / 10);
        push_char(&mut r, digit_to_char(n % 10));
        r
    }
}

/// Decimal representation of `n`.
pub fn decimal_u64(n: u64) -> (r: String)
    ensures
        r@ == decimal_spec(n as nat),
    decreases n,
{
    if n < 10 {
        let mut r = String::new();
        push_char(&mut r, digit_to_char(n as usize));
        r
    } else {
        let mut r = decimal_u64(n / 10);
        push_char(&mut r, digit_to_char((n % 10) as usize));
        r
    }
}

/// Decimal representation of an integer, with a leading `-` when negative.
pub open spec fn decimal_int_spec(n: int) -> Seq<char> {
    if n < 0 {
        seq!['-'] + decimal_spec((-n) as nat)
    } else {
        decimal_spec(n as nat)
    }
}

/// Decimal representation of `n`, with a leading `-` when negative.
pub fn decimal_i64(n: i64) -> (r: String)
    ensures
        r@ == decimal_int_spec(n as int),
{
    if n < 0 {
        let m: u64 = if n == i64::MIN {
            9223372036854775808u64
        } else {
            (-n) as u64
        };
        let mut r = String::new();
        push_char(&mut r, '-');
        let d = decimal_u64(m);
        r.append(d.as_str());
        r
    } else {
        decimal_u64(n as u64)
    }
}

} // verus!
