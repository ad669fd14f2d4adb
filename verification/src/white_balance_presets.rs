//! Camera names as white-balance presets are keyed, and the uniqueness rule
//! of the preset database.
use vstd::prelude::*;
use vstd::string::StringExecFns;
use crate::text::chars_of;

verus! {

/// ASCII letters and digits.
pub open spec fn is_ascii_alphanumeric(c: char) -> bool {
    ('0' <= c && c <= '9') || ('A' <= c && c <= 'Z') || ('a' <= c && c <= 'z')
}

/// ASCII letters folded to upper case; every other character unchanged.
pub open spec fn ascii_upper(c: char) -> char {
    if 'a' <= c && c <= 'z' { ((c as u8) - 32) as u8 as char } else { c }
}

/// The ASCII letters and digits of `s`, upper case, in order.
pub open spec fn normalized_name(s: Seq<char>) -> Seq<char>
    decreases s.len(),
{
    if s.len() == 0 {
        Seq::empty()
    } else {
        let rest = normalized_name(s.drop_last());
        if is_ascii_alphanumeric(s.last()) { rest.push(ascii_upper(s.last())) } else { rest }
    }
}

/// Collects characters into a `String` (`FromIterator<char>`), which holds
/// exactly those characters.
#[verifier::external_body]
pub(crate) fn string_from_chars(chars: &Vec<char>) -> (r: String)
    ensures
        r@ == chars@,
{
    chars.iter().collect()
}

/// The key under which a camera maker or model is looked up: its ASCII
/// letters and digits, upper case.
pub fn normalized_camera_name(value: &str) -> (r: String)
    ensures
        r@ == normalized_name(value@),
{
    let chars = chars_of(value);
    let mut out: Vec<char> = Vec::new();
    let mut i: usize = 0;
    while i < chars.len()
        invariant
            chars@ == value@,
            0 <= i <= chars@.len(),
            out@ == normalized_name(chars@.take(i as int)),
        decreases chars@.len() - i,
    {
        let c = chars[i];
        proof {
            assert(chars@.take(i + 1).drop_last() =~= chars@.take(i as int));
        }
        if ('0' <= c && c <= '9') || ('A' <= c && c <= 'Z') || ('a' <= c && c <= 'z') {
            let upper = if 'a' <= c && c <= 'z' { ((c as u8) - 32) as char } else { c };
            out.push(upper);
        }
        i += 1;
    }
    proof {
        assert(chars@.take(chars@.len() as int) =~= chars@);
    }
    string_from_chars(&out)
}

/// The identity of a preset in the database: maker, model and preset name.
#[derive(Clone, Debug)]
pub struct PresetKey {
    pub maker: String,
    pub model: String,
    pub name: String,
}

pub open spec fn same_key(a: PresetKey, b: PresetKey) -> bool {
    a.maker@ == b.maker@ && a.model@ == b.model@ && a.name@ == b.name@
}

/// Key `j` repeats an earlier key.
pub open spec fn repeats_earlier(keys: Seq<PresetKey>, j: int) -> bool {
    exists|i: int| 0 <= i < j && same_key(#[trigger] keys[i], keys[j])
}

fn key_eq(a: &PresetKey, b: &PresetKey) -> (r: bool)
    ensures
        r == same_key(*a, *b),
{
    a.maker == b.maker && a.model == b.model && a.name == b.name
}

/// The first key, in database order, that repeats an earlier one.
pub fn find_duplicate_preset(keys: &Vec<PresetKey>) -> (r: Option<usize>)
    ensures
        r matches Some(j) ==> j < keys@.len() && repeats_earlier(keys@, j as int) && forall|k: int|
            0 <= k < j ==> !repeats_earlier(keys@, k),
        r is None ==> forall|k: int| 0 <= k < keys@.len() ==> !repeats_earlier(keys@, k),
{
    let mut j: usize = 0;
    while j < keys.len()
        invariant
            0 <= j <= keys@.len(),
            forall|k: int| 0 <= k < j ==> !repeats_earlier(keys@, k),
        decreases keys@.len() - j,
    {
        let mut i: usize = 0;
        while i < j
            invariant
                0 <= i <= j < keys@.len(),
                forall|k: int| 0 <= k < j ==> !repeats_earlier(keys@, k),
                forall|k: int| 0 <= k < i ==> !same_key(keys@[k], keys@[j as int]),
            decreases j - i,
        {
            if key_eq(&keys[i], &keys[j]) {
                proof {
                    assert(same_key(keys@[i as int], keys@[j as int]));
                }
                return Some(j);
            }
            i += 1;
        }
        j += 1;
    }
    None
}

/// `duplicate white-balance preset for MAKER MODEL: NAME`.
pub open spec fn duplicate_message(key: PresetKey) -> Seq<char> {
    "duplicate white-balance preset for "@ + key.maker@ + " "@ + key.model@ + ": "@ + key.name@
}

pub fn duplicate_preset_message(key: &PresetKey) -> (r: String)
    ensures
        r@ == duplicate_message(*key),
{
    let mut message = String::from_str("duplicate white-balance preset for ");
    message.append(key.maker.as_str());
    message.append(" ");
    message.append(key.model.as_str());
    message.append(": ");
    message.append(key.name.as_str());
    message
}

/// Accepts keys that are all distinct; otherwise names the first repeat.
pub fn check_unique_presets(keys: &Vec<PresetKey>) -> (r: Result<(), String>)
    ensures
        r is Ok <==> forall|k: int| 0 <= k < keys@.len() ==> !repeats_earlier(keys@, k),
        r matches Err(message) ==> exists|j: int|
            0 <= j < keys@.len() && repeats_earlier(keys@, j) && message@ == duplicate_message(keys@[j]),
{
    match find_duplicate_preset(keys) {
        None => Ok(()),
        Some(j) => {
            let message = duplicate_preset_message(&keys[j]);
            Err(message)
        },
    }
}

} // verus!
