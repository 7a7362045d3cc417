//! Case conversion for type and variable names.

use vstd::prelude::*;
use vstd::string::StringExecFns;
use crate::chars::{
    char_is_lowercase, char_is_uppercase, char_to_lowercase, char_to_uppercase, str_to_lowercase,
    unicode_is_lowercase, unicode_is_uppercase, unicode_lowercase, unicode_str_lowercase,
    unicode_uppercase,
};
use crate::text::{
    chars_of, lemma_split_nonempty, split_char, split_spec, string_of_range, to_owned_string, views,
};

verus! {

broadcast use vstd::string::group_string_axioms;

/// Some character of `s` has the Unicode `Uppercase` property.
pub open spec fn any_uppercase(s: Seq<char>) -> bool {
    exists|i: int| 0 <= i < s.len() && unicode_is_uppercase(#[trigger] s[i])
}

/// Some character of `s` has the Unicode `Lowercase` property.
pub open spec fn any_lowercase(s: Seq<char>) -> bool {
    exists|i: int| 0 <= i < s.len() && unicode_is_lowercase(#[trigger] s[i])
}

/// PascalCase of a name: the first character upper-cased; the rest kept when
/// the name already mixes upper and lower case, lower-cased otherwise.
pub open spec fn pascal_case_spec(name: Seq<char>) -> Seq<char> {
    if name.len() == 0 {
        Seq::<char>::empty()
    } else if any_uppercase(name) && any_lowercase(name) {
        unicode_uppercase(name[0]) + name.skip(1)
    } else {
        unicode_uppercase(name[0]) + unicode_str_lowercase(name.skip(1))
    }
}

/// camelCase of a PascalCase name: the first character lower-cased.
pub open spec fn camel_case_spec(name: Seq<char>) -> Seq<char> {
    if name.len() == 0 {
        Seq::<char>::empty()
    } else {
        unicode_lowercase(name[0]) + name.skip(1)
    }
}

/// A word with its first character upper-cased (empty stays empty).
pub open spec fn capitalize_spec(word: Seq<char>) -> Seq<char> {
    if word.len() == 0 {
        Seq::<char>::empty()
    } else {
        unicode_uppercase(word[0]) + word.skip(1)
    }
}

/// The concatenation of all the pieces.
pub open spec fn concat_all(parts: Seq<Seq<char>>) -> Seq<char>
    decreases parts.len(),
{
    if parts.len() == 0 {
        Seq::<char>::empty()
    } else {
        concat_all(parts.drop_last()) + parts.last()
    }
}

/// snake_case to PascalCase: every `_`-separated word capitalized, then
/// concatenated.
pub open spec fn snake_to_pascal_spec(name: Seq<char>) -> Seq<char> {
    concat_all(split_spec(name, '_').map_values(|w: Seq<char>| capitalize_spec(w)))
}

/// snake_case to camelCase: the first word kept, every later word
/// capitalized, then concatenated.
pub open spec fn snake_to_camel_spec(name: Seq<char>) -> Seq<char> {
    let words = split_spec(name, '_');
    words[0] + concat_all(words.skip(1).map_values(|w: Seq<char>| capitalize_spec(w)))
}

fn capitalize(word: &str) -> (r: String)
    ensures
        r@ == capitalize_spec(word@),
{
    let cs = chars_of(word);
    if cs.len() == 0 {
        return String::new();
    }
    let mut r = char_to_uppercase(cs[0]);
    let rest = string_of_range(&cs, 1, cs.len());
    r.append(rest.as_str());
    assert(cs@.subrange(1, cs@.len() as int) =~= word@.skip(1));
    r
}

/// Simple PascalCase conversion (only correct for single words or names that
/// are already properly cased).
pub fn to_pascal_case(name: &str) -> (r: String)
    ensures
        r@ == pascal_case_spec(name@),
{
    let cs = chars_of(name);
    if cs.len() == 0 {
        return String::new();
    }
    let mut has_upper = false;
    let mut has_lower = false;
    let mut i: usize = 0;
    while i < cs.len()
        invariant
            cs@ == name@,
            0 <= i <= cs.len(),
            has_upper <==> exists|k: int| 0 <= k < i && unicode_is_uppercase(#[trigger] cs@[k]),
            has_lower <==> exists|k: int| 0 <= k < i && unicode_is_lowercase(#[trigger] cs@[k]),
        decreases cs.len() - i,
    {
        if char_is_uppercase(cs[i]) {
            has_upper = true;
        }
        if char_is_lowercase(cs[i]) {
            has_lower = true;
        }
        i = i + 1;
    }
    let mut r = char_to_uppercase(cs[0]);
    let rest = string_of_range(&cs, 1, cs.len());
    assert(cs@.subrange(1, cs@.len() as int) =~= name@.skip(1));
    if has_upper && has_lower {
        r.append(rest.as_str());
    } else {
        let lowered = str_to_lowercase(rest.as_str());
        r.append(lowered.as_str());
    }
    r
}

/// Lower-case the first character (PascalCase to camelCase).
pub fn to_camel_case(name: &str) -> (r: String)
    ensures
        r@ == camel_case_spec(name@),
{
    let cs = chars_of(name);
    if cs.len() == 0 {
        return String::new();
    }
    let mut r = char_to_lowercase(cs[0]);
    let rest = string_of_range(&cs, 1, cs.len());
    assert(cs@.subrange(1, cs@.len() as int) =~= name@.skip(1));
    r.append(rest.as_str());
    r
}

/// snake_case to PascalCase.
pub fn snake_to_pascal_case(name: &str) -> (r: String)
    ensures
        r@ == snake_to_pascal_spec(name@),
{
    let words = split_char(name, '_');
    let ghost ws = views(words@);
    let mut r = String::new();
    let mut i: usize = 0;
    while i < words.len()
        invariant
            ws == views(words@),
            ws == split_spec(name@, '_'),
            0 <= i <= words.len(),
            r@ == concat_all(ws.take(i as int).map_values(|w: Seq<char>| capitalize_spec(w))),
        decreases words.len() - i,
    {
        let w = capitalize(words[i].as_str());
        r.append(w.as_str());
        proof {
            let f = |w: Seq<char>| capitalize_spec(w);
            assert(ws.take(i + 1).map_values(f).drop_last() =~= ws.take(i as int).map_values(f));
        }
        i = i + 1;
    }
    assert(ws.take(words@.len() as int) =~= ws);
    r
}

/// snake_case to camelCase.
pub fn snake_to_camel_case(name: &str) -> (r: String)
    ensures
        r@ == snake_to_camel_spec(name@),
{
    let words = split_char(name, '_');
    let ghost ws = views(words@);
    proof {
        lemma_split_nonempty(name@, '_');
    }
    let mut r = to_owned_string(words[0].as_str());
    let mut tail = String::new();
    let mut i: usize = 1;
    proof {
        assert(ws.skip(1).take(0) =~= Seq::<Seq<char>>::empty());
    }
    while i < words.len()
        invariant
            ws == views(words@),
            ws == split_spec(name@, '_'),
            1 <= i <= words.len(),
            r@ == ws[0],
            tail@ == concat_all(ws.skip(1).take(i - 1).map_values(|w: Seq<char>| capitalize_spec(w))),
        decreases words.len() - i,
    {
        let w = capitalize(words[i].as_str());
        tail.append(w.as_str());
        proof {
            let f = |w: Seq<char>| capitalize_spec(w);
            assert(ws.skip(1).take(i as int).map_values(f).drop_last() =~= ws.skip(1).take(i - 1).map_values(f));
            assert(ws.skip(1).take(i as int).last() == ws[i as int]);
        }
        i = i + 1;
    }
    assert(ws.skip(1).take(words@.len() - 1) =~= ws.skip(1));
    r.append(tail.as_str());
    r
}

} // verus!
