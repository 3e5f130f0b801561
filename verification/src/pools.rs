//! Values read from stake pool APIs.
use vstd::prelude::*;
use crate::text::{ascii_lower_seq, lower_ascii, views};

verus! {

/// An eligibility flag given as text: `true`, `1` or `yes` set it, `false`, `0` or `no` clear
/// it, in any ASCII case; other text says nothing.
pub open spec fn flag_text_spec(s: Seq<char>) -> Option<bool> {
    let l = ascii_lower_seq(s);
    if l == "true"@ || l == "1"@ || l == "yes"@ {
        Some(true)
    } else if l == "false"@ || l == "0"@ || l == "no"@ {
        Some(false)
    } else {
        None
    }
}

/// Reads an eligibility flag given as text.
pub fn flag_from_text(text: &str) -> (r: Option<bool>)
    ensures
        r == flag_text_spec(text@),
{
    let l = lower_ascii(text);
    if l == String::from_str("true") || l == String::from_str("1") || l == String::from_str("yes") {
        Some(true)
    } else if l == String::from_str("false") || l == String::from_str("0") || l == String::from_str("no") {
        Some(false)
    } else {
        None
    }
}

/// What an eligibility field holds: a boolean, text, a number (with its value when it is a
/// whole number that fits in `i64`), or anything else.
pub enum FlagValue {
    Bool(bool),
    Text(String),
    Number(Option<i64>),
    Other,
}

/// The eligibility a field states: a boolean as it is, text as `flag_text_spec` reads it, a
/// whole number by whether it is positive; anything else states nothing.
pub open spec fn flag_value_spec(v: FlagValue) -> Option<bool> {
    match v {
        FlagValue::Bool(b) => Some(b),
        FlagValue::Text(t) => flag_text_spec(t@),
        FlagValue::Number(Some(n)) => Some(n > 0),
        FlagValue::Number(None) => None,
        FlagValue::Other => None,
    }
}

/// Reads the eligibility a field states.
pub fn flag_from_value(v: &FlagValue) -> (r: Option<bool>)
    ensures
        r == flag_value_spec(*v),
{
    match v {
        FlagValue::Bool(b) => Some(*b),
        FlagValue::Text(t) => flag_from_text(t.as_str()),
        FlagValue::Number(Some(n)) => Some(*n > 0),
        FlagValue::Number(None) => None,
        FlagValue::Other => None,
    }
}

/// The position of the first of `candidates` that is among `present`.
pub open spec fn first_present(candidates: Seq<Seq<char>>, present: Seq<Seq<char>>) -> Option<int>
    decreases candidates.len(),
{
    if candidates.len() == 0 {
        None
    } else {
        match first_present(candidates.drop_last(), present) {
            Some(i) => Some(i),
            None => if present.contains(candidates.last()) {
                Some(candidates.len() - 1)
            } else {
                None
            },
        }
    }
}

fn contains_text(present: &Vec<String>, key: &String) -> (r: bool)
    ensures
        r == views(present@).contains(key@),
{
    let mut i: usize = 0;
    while i < present.len()
        invariant
            i <= present.len(),
            forall|j: int| 0 <= j < i ==> (#[trigger] present@[j])@ != key@,
        decreases present.len() - i,
    {
        if present[i] == *key {
            assert(views(present@)[i as int] == key@);
            return true;
        }
        i = i + 1;
    }
    assert forall|j: int| 0 <= j < views(present@).len() implies #[trigger] views(present@)[j] != key@ by {
        assert(views(present@)[j] == present@[j]@);
    }
    false
}

/// Of the field names to try, in order of preference, the position of the first that the
/// object has (`present` lists its field names).
pub fn first_present_key(candidates: &Vec<String>, present: &Vec<String>) -> (r: Option<usize>)
    ensures
        (match r {
            Some(i) => first_present(views(candidates@), views(present@)) == Some(i as int),
            None => first_present(views(candidates@), views(present@)) is None,
        }),
{
    let mut i: usize = 0;
    while i < candidates.len()
        invariant
            i <= candidates.len(),
            first_present(views(candidates@).subrange(0, i as int), views(present@)) is None,
        decreases candidates.len() - i,
    {
        let ghost pre = views(candidates@).subrange(0, i as int);
        let ghost next = views(candidates@).subrange(0, i + 1);
        assert(next.drop_last() =~= pre);
        assert(next.last() == candidates@[i as int]@);
        if contains_text(present, &candidates[i]) {
            proof {
                lemma_first_present_prefix(views(candidates@), views(present@), i + 1);
            }
            return Some(i);
        }
        i = i + 1;
    }
    assert(views(candidates@).subrange(0, candidates.len() as int) =~= views(candidates@));
    None
}

proof fn lemma_first_present_prefix(c: Seq<Seq<char>>, p: Seq<Seq<char>>, m: int)
    requires
        0 <= m <= c.len(),
        first_present(c.subrange(0, m), p) is Some,
    ensures
        first_present(c, p) == first_present(c.subrange(0, m), p),
    decreases c.len() - m,
{
    if m < c.len() {
        let next = c.subrange(0, m + 1);
        assert(next.drop_last() =~= c.subrange(0, m));
        lemma_first_present_prefix(c, p, m + 1);
    } else {
        assert(c.subrange(0, m) =~= c);
    }
}

} // verus!
