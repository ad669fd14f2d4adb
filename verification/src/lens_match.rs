//! Matching the lens a RAW file names to the lenses of the lens-correction
//! database: canonical lens text, maker compatibility, exact matches, the
//! model codes and name tokens that looser matches compare, and how a
//! candidate ranks.
use crate::diagnostics::{trim_text, trimmed};
use crate::text::{
    chars_eq_ignore_ascii_case, chars_equal, chars_of, contains_chars, eq_ignore_ascii_case, ends_with_chars, has_infix, has_suffix, is_alphanumeric,
    lemma_text_less_irreflexive, lemma_text_less_total, lemma_text_less_transitive, lowercase_of, text_less,
    text_less_chars, unicode_alphanumeric, unicode_lowercase,
};
use crate::white_balance_presets::string_from_chars;
use vstd::prelude::*;
use vstd::string::{StrSliceExecFns, StringExecFns};
use vstd::utf8::encode_utf8;

verus! {

/// A lens of the database, by maker and model.
#[derive(Clone, Debug, Default, PartialEq, Eq)]
pub struct LensfunLens {
    pub maker: String,
    pub model: String,
}

/// What the lens-correction panel shows for a RAW file: whether the
/// database is available, the camera it was matched to, the lenses to pick
/// from, the lens picked automatically, and a status line.
#[derive(Clone, Debug, Default)]
pub struct LensfunCatalog {
    pub available: bool,
    pub camera_label: String,
    pub lenses: Vec<LensfunLens>,
    pub auto_match: Option<LensfunLens>,
    pub status: String,
}

/// The label a lens is listed under: maker and model, trimmed and joined by
/// a space, or whichever of the two is not blank.
pub open spec fn lens_label(maker: Seq<char>, model: Seq<char>) -> Seq<char> {
    let maker = trimmed(maker);
    let model = trimmed(model);
    if maker.len() == 0 {
        model
    } else if model.len() == 0 {
        maker
    } else {
        maker + seq![' '] + model
    }
}

impl LensfunLens {
    pub fn label(&self) -> (r: String)
        ensures
            r@ == lens_label(self.maker@, self.model@),
    {
        let maker = trim_text(self.maker.as_str());
        let model = trim_text(self.model.as_str());
        if maker.is_empty() {
            model.to_owned()
        } else if model.is_empty() {
            maker.to_owned()
        } else {
            let mut label = String::from_str(maker);
            label.append(" ");
            label.append(model);
            proof {
                reveal_strlit(" ");
                assert(label@ =~= maker@ + seq![' '] + model@);
            }
            label
        }
    }
}

/// The characters of `s` with every character replaced by what
/// `char::to_lowercase` yields for it.
pub open spec fn lowercase_all(s: Seq<char>) -> Seq<char>
    decreases s.len(),
{
    if s.len() == 0 {
        Seq::empty()
    } else {
        lowercase_all(s.drop_last()) + unicode_lowercase(s.last())
    }
}

/// The alphanumeric characters of `s`, in order.
pub open spec fn alnum_only(s: Seq<char>) -> Seq<char>
    decreases s.len(),
{
    if s.len() == 0 {
        Seq::empty()
    } else if unicode_alphanumeric(s.last()) {
        alnum_only(s.drop_last()).push(s.last())
    } else {
        alnum_only(s.drop_last())
    }
}

/// The text lens names are compared by: lower-cased, alphanumerics only.
pub open spec fn lens_text(s: Seq<char>) -> Seq<char> {
    alnum_only(lowercase_all(s))
}

fn lens_text_chars(value: &str) -> (r: Vec<char>)
    ensures
        r@ == lens_text(value@),
{
    let chars = chars_of(value);
    let mut out: Vec<char> = Vec::new();
    let mut i: usize = 0;
    while i < chars.len()
        invariant
            chars@ == value@,
            0 <= i <= chars@.len(),
            out@ == alnum_only(lowercase_all(chars@.take(i as int))),
        decreases chars@.len() - i,
    {
        let lower = lowercase_of(chars[i]);
        let ghost done = lowercase_all(chars@.take(i as int));
        let mut j: usize = 0;
        while j < lower.len()
            invariant
                0 <= j <= lower@.len(),
                out@ == alnum_only(done + lower@.take(j as int)),
            decreases lower@.len() - j,
        {
            let c = lower[j];
            proof {
                assert((done + lower@.take(j + 1)).drop_last() =~= done + lower@.take(j as int));
                assert((done + lower@.take(j + 1)).last() == c);
            }
            if is_alphanumeric(c) {
                out.push(c);
            }
            j += 1;
        }
        proof {
            assert(chars@.take(i + 1).drop_last() =~= chars@.take(i as int));
            assert(lower@.take(lower@.len() as int) =~= lower@);
        }
        i += 1;
    }
    proof {
        assert(chars@.take(chars@.len() as int) =~= chars@);
    }
    out
}

/// Lower-cases `value` and keeps its alphanumeric characters.
pub fn canonical_text(value: &str) -> (r: String)
    ensures
        r@ == lens_text(value@),
{
    string_from_chars(&lens_text_chars(value))
}

/// `s` starts with `prefix`, as `str::starts_with`.
pub open spec fn has_prefix(s: Seq<char>, prefix: Seq<char>) -> bool {
    prefix.len() <= s.len() && s.take(prefix.len() as int) == prefix
}

/// `canonical` without the maker's text in front, where it starts with it
/// and is longer.
pub open spec fn strip_maker(canonical: Seq<char>, maker: Seq<char>) -> Seq<char> {
    if maker.len() > 0 && has_prefix(canonical, maker) && canonical.len() > maker.len() {
        canonical.skip(maker.len() as int)
    } else {
        canonical
    }
}

/// `canonical` with the text of each maker stripped from its front, in
/// order.
pub open spec fn strip_makers(canonical: Seq<char>, makers: Seq<Seq<char>>) -> Seq<char>
    decreases makers.len(),
{
    if makers.len() == 0 {
        canonical
    } else {
        strip_maker(strip_makers(canonical, makers.drop_last()), lens_text(makers.last()))
    }
}

/// The texts of a list of names.
pub open spec fn name_views(names: Seq<&str>) -> Seq<Seq<char>> {
    names.map_values(|name: &str| name@)
}

/// A lens model as compared across makers: its canonical text, without
/// the makers' names in front.
pub open spec fn spec_canonical_lens_model(model: Seq<char>, makers: Seq<Seq<char>>) -> Seq<char> {
    strip_makers(lens_text(model), makers)
}

fn starts_with_chars(s: &Vec<char>, prefix: &Vec<char>) -> (r: bool)
    ensures
        r == has_prefix(s@, prefix@),
{
    if prefix.len() > s.len() {
        return false;
    }
    let mut k: usize = 0;
    while k < prefix.len()
        invariant
            prefix@.len() <= s@.len(),
            0 <= k <= prefix@.len(),
            forall|j: int| 0 <= j < k ==> s@[j] == prefix@[j],
        decreases prefix@.len() - k,
    {
        if s[k] != prefix[k] {
            proof {
                assert(s@.take(prefix@.len() as int)[k as int] != prefix@[k as int]);
            }
            return false;
        }
        k += 1;
    }
    proof {
        assert(s@.take(prefix@.len() as int) =~= prefix@);
    }
    true
}

fn skip_chars(s: &Vec<char>, n: usize) -> (r: Vec<char>)
    requires
        n <= s@.len(),
    ensures
        r@ == s@.skip(n as int),
{
    let mut out: Vec<char> = Vec::new();
    let mut k: usize = n;
    while k < s.len()
        invariant
            n <= k <= s@.len(),
            out@ == s@.subrange(n as int, k as int),
        decreases s@.len() - k,
    {
        out.push(s[k]);
        k += 1;
        proof {
            assert(out@ =~= s@.subrange(n as int, k as int));
        }
    }
    proof {
        assert(s@.subrange(n as int, s@.len() as int) =~= s@.skip(n as int));
    }
    out
}

fn canonical_lens_model_chars(model: &str, makers: &[&str]) -> (r: Vec<char>)
    ensures
        r@ == spec_canonical_lens_model(model@, name_views(makers@)),
{
    let mut canonical = lens_text_chars(model);
    let mut i: usize = 0;
    while i < makers.len()
        invariant
            0 <= i <= makers@.len(),
            canonical@ == strip_makers(lens_text(model@), name_views(makers@).take(i as int)),
        decreases makers@.len() - i,
    {
        let maker = lens_text_chars(makers[i]);
        proof {
            assert(name_views(makers@).take(i + 1).drop_last() =~= name_views(makers@).take(i as int));
            assert(name_views(makers@).take(i + 1).last() == makers@[i as int]@);
        }
        if maker.len() > 0 && starts_with_chars(&canonical, &maker) && canonical.len() > maker.len() {
            canonical = skip_chars(&canonical, maker.len());
        }
        i += 1;
    }
    proof {
        assert(name_views(makers@).take(makers@.len() as int) =~= name_views(makers@));
    }
    canonical
}

/// The canonical text of a lens model with the names of `makers` stripped
/// from its front, in order.
pub fn canonical_lens_model(model: &str, makers: &[&str]) -> (r: String)
    ensures
        r@ == spec_canonical_lens_model(model@, name_views(makers@)),
{
    string_from_chars(&canonical_lens_model_chars(model, makers))
}

/// A candidate's maker fits the maker the RAW file names: either is blank,
/// they are equal, one contains the other, or the RAW's lens model starts
/// with the candidate's maker.
pub open spec fn spec_maker_is_compatible(raw_maker: Seq<char>, raw_model: Seq<char>, candidate_maker: Seq<char>) -> bool {
    let raw = lens_text(raw_maker);
    let candidate = lens_text(candidate_maker);
    raw.len() == 0 || candidate.len() == 0 || raw == candidate || has_infix(raw, candidate) || has_infix(
        candidate,
        raw,
    ) || has_prefix(lens_text(raw_model), candidate)
}

pub fn maker_is_compatible(raw_maker: &str, raw_model: &str, candidate_maker: &str) -> (r: bool)
    ensures
        r == spec_maker_is_compatible(raw_maker@, raw_model@, candidate_maker@),
{
    let raw = lens_text_chars(raw_maker);
    if raw.len() == 0 {
        return true;
    }
    let candidate = lens_text_chars(candidate_maker);
    if candidate.len() == 0 {
        return true;
    }
    chars_equal(&raw, &candidate) || contains_chars(&raw, &candidate) || contains_chars(&candidate, &raw)
        || starts_with_chars(&lens_text_chars(raw_model), &candidate)
}

/// The lens the RAW file names is exactly the candidate: the makers fit,
/// and the models agree once each has both makers' names stripped.
pub open spec fn spec_lens_metadata_is_exact(lens_make: Seq<char>, lens_model: Seq<char>, candidate: LensfunLens) -> bool {
    &&& spec_maker_is_compatible(lens_make, lens_model, candidate.maker@)
    &&& spec_canonical_lens_model(lens_model, seq![lens_make, candidate.maker@])
        == spec_canonical_lens_model(candidate.model@, seq![candidate.maker@, lens_make])
}

pub fn lens_metadata_is_exact(lens_make: &str, lens_model: &str, candidate: &LensfunLens) -> (r: bool)
    ensures
        r == spec_lens_metadata_is_exact(lens_make@, lens_model@, *candidate),
{
    if !maker_is_compatible(lens_make, lens_model, candidate.maker.as_str()) {
        return false;
    }
    let raw_makers: [&str; 2] = [lens_make, candidate.maker.as_str()];
    let candidate_makers: [&str; 2] = [candidate.maker.as_str(), lens_make];
    let raw = canonical_lens_model_chars(lens_model, raw_makers.as_slice());
    let other = canonical_lens_model_chars(candidate.model.as_str(), candidate_makers.as_slice());
    proof {
        assert(name_views(raw_makers@) =~= seq![lens_make@, candidate.maker@]);
        assert(name_views(candidate_makers@) =~= seq![candidate.maker@, lens_make@]);
    }
    chars_equal(&raw, &other)
}

/// One character of lower-cased text added to a tokenizer's state: the
/// tokens so far and the token being read. Alphanumerics extend the token;
/// anything else ends it.
pub open spec fn token_step(state: (Seq<Seq<char>>, Seq<char>), c: char) -> (Seq<Seq<char>>, Seq<char>) {
    if unicode_alphanumeric(c) {
        (state.0, state.1.push(c))
    } else if state.1.len() > 0 {
        (state.0.push(state.1), Seq::empty())
    } else {
        state
    }
}

pub open spec fn token_state(chars: Seq<char>) -> (Seq<Seq<char>>, Seq<char>)
    decreases chars.len(),
{
    if chars.len() == 0 {
        (Seq::empty(), Seq::empty())
    } else {
        token_step(token_state(chars.drop_last()), chars.last())
    }
}

/// The runs of alphanumerics of the lower-cased text, in order.
pub open spec fn spec_tokenized(value: Seq<char>) -> Seq<Seq<char>> {
    let state = token_state(lowercase_all(value));
    if state.1.len() > 0 {
        state.0.push(state.1)
    } else {
        state.0
    }
}

/// The texts of a list of character vectors.
pub open spec fn char_views(list: Seq<Vec<char>>) -> Seq<Seq<char>> {
    list.map_values(|v: Vec<char>| v@)
}

/// The texts of a list of strings.
pub open spec fn string_views(list: Seq<String>) -> Seq<Seq<char>> {
    list.map_values(|s: String| s@)
}

fn tokenized_chars(value: &str) -> (r: Vec<Vec<char>>)
    ensures
        char_views(r@) == spec_tokenized(value@),
{
    let chars = chars_of(value);
    let mut tokens: Vec<Vec<char>> = Vec::new();
    let mut token: Vec<char> = Vec::new();
    let mut i: usize = 0;
    while i < chars.len()
        invariant
            chars@ == value@,
            0 <= i <= chars@.len(),
            (char_views(tokens@), token@) == token_state(lowercase_all(chars@.take(i as int))),
        decreases chars@.len() - i,
    {
        let lower = lowercase_of(chars[i]);
        let ghost done = lowercase_all(chars@.take(i as int));
        let mut j: usize = 0;
        while j < lower.len()
            invariant
                0 <= j <= lower@.len(),
                (char_views(tokens@), token@) == token_state(done + lower@.take(j as int)),
            decreases lower@.len() - j,
        {
            let c = lower[j];
            proof {
                assert((done + lower@.take(j + 1)).drop_last() =~= done + lower@.take(j as int));
                assert((done + lower@.take(j + 1)).last() == c);
            }
            if is_alphanumeric(c) {
                token.push(c);
            } else if token.len() > 0 {
                let ghost before = tokens@;
                let finished = token;
                token = Vec::new();
                tokens.push(finished);
                proof {
                    assert(char_views(tokens@) =~= char_views(before).push(finished@));
                }
            }
            j += 1;
        }
        proof {
            assert(chars@.take(i + 1).drop_last() =~= chars@.take(i as int));
            assert(lower@.take(lower@.len() as int) =~= lower@);
        }
        i += 1;
    }
    proof {
        assert(chars@.take(chars@.len() as int) =~= chars@);
    }
    if token.len() > 0 {
        let ghost before = tokens@;
        let finished = token;
        tokens.push(finished);
        proof {
            assert(char_views(tokens@) =~= char_views(before).push(finished@));
        }
    }
    tokens
}

fn strings_of(list: Vec<Vec<char>>) -> (r: Vec<String>)
    ensures
        string_views(r@) == char_views(list@),
{
    let mut out: Vec<String> = Vec::new();
    let mut i: usize = 0;
    while i < list.len()
        invariant
            0 <= i <= list@.len(),
            string_views(out@) == char_views(list@).take(i as int),
        decreases list@.len() - i,
    {
        let ghost before = out@;
        out.push(string_from_chars(&list[i]));
        proof {
            assert(string_views(out@) =~= string_views(before).push(list@[i as int]@));
            assert(char_views(list@).take(i + 1) =~= char_views(list@).take(i as int).push(list@[i as int]@));
        }
        i += 1;
    }
    proof {
        assert(char_views(list@).take(list@.len() as int) =~= char_views(list@));
    }
    out
}

/// Splits text into its lower-cased alphanumeric runs.
pub fn tokenized(value: &str) -> (r: Vec<String>)
    ensures
        string_views(r@) == spec_tokenized(value@),
{
    strings_of(tokenized_chars(value))
}

/// Each text is before the next in `String`'s order, so none repeats.
pub open spec fn strictly_sorted(list: Seq<Seq<char>>) -> bool {
    forall|i: int, j: int| 0 <= i < j < list.len() ==> text_less(#[trigger] list[i], #[trigger] list[j])
}

fn contains_text(list: &Vec<Vec<char>>, text: &Vec<char>) -> (r: bool)
    ensures
        r == char_views(list@).contains(text@),
{
    let mut i: usize = 0;
    while i < list.len()
        invariant
            0 <= i <= list@.len(),
            forall|k: int| 0 <= k < i ==> list@[k]@ != text@,
        decreases list@.len() - i,
    {
        if chars_equal(&list[i], text) {
            proof {
                assert(char_views(list@)[i as int] == text@);
            }
            return true;
        }
        i += 1;
    }
    proof {
        if char_views(list@).contains(text@) {
            let k = choose|k: int| 0 <= k < char_views(list@).len() && char_views(list@)[k] == text@;
            assert(list@[k]@ == text@);
        }
    }
    false
}

proof fn lemma_push_contains(s: Seq<Seq<char>>, x: Seq<char>)
    ensures
        forall|t: Seq<char>| #[trigger] s.push(x).contains(t) <==> (s.contains(t) || t == x),
{
    assert forall|t: Seq<char>| #[trigger] s.push(x).contains(t) <==> (s.contains(t) || t == x) by {
        if s.push(x).contains(t) {
            let k = choose|k: int| 0 <= k < s.push(x).len() && s.push(x)[k] == t;
            if k < s.len() {
                assert(s[k] == t);
            }
        }
        if s.contains(t) {
            let k = choose|k: int| 0 <= k < s.len() && s[k] == t;
            assert(s.push(x)[k] == t);
        }
        if t == x {
            assert(s.push(x)[s.len() as int] == x);
        }
    }
}

/// Adds `text` to a strictly sorted list, where it is not there yet.
fn insert_sorted_unique(list: &mut Vec<Vec<char>>, text: Vec<char>)
    requires
        strictly_sorted(char_views(old(list)@)),
    ensures
        strictly_sorted(char_views(final(list)@)),
        forall|t: Seq<char>| char_views(final(list)@).contains(t) <==> (char_views(old(list)@).contains(t) || t == text@),
{
    let ghost before = char_views(list@);
    let mut p: usize = 0;
    while p < list.len() && text_less_chars(&list[p], &text)
        invariant
            0 <= p <= list@.len(),
            char_views(list@) == before,
            forall|q: int| 0 <= q < p ==> text_less(#[trigger] before[q], text@),
        decreases list@.len() - p,
    {
        p += 1;
    }
    if p < list.len() && chars_equal(&list[p], &text) {
        proof {
            assert(before[p as int] == text@);
        }
        return;
    }
    proof {
        if p < before.len() {
            lemma_text_less_total(before[p as int], text@);
        }
        lemma_text_less_irreflexive(text@);
    }
    list.insert(p, text);
    proof {
        let after = char_views(list@);
        assert(after =~= before.insert(p as int, text@));
        assert forall|i: int, j: int| 0 <= i < j < after.len() implies text_less(
            #[trigger] after[i],
            #[trigger] after[j],
        ) by {
            if j < p {
                assert(after[i] == before[i] && after[j] == before[j]);
            } else if i > p {
                assert(after[i] == before[i - 1] && after[j] == before[j - 1]);
            } else if i < p && j > p {
                assert(after[i] == before[i] && after[j] == before[j - 1]);
                assert(text_less(before[i], text@));
                if j - 1 > p {
                    assert(text_less(before[p as int], before[j - 1]));
                    lemma_text_less_transitive(text@, before[p as int], before[j - 1]);
                }
                lemma_text_less_transitive(before[i], text@, before[j - 1]);
            } else if i == p {
                assert(after[j] == before[j - 1]);
                if j - 1 > p {
                    assert(text_less(before[p as int], before[j - 1]));
                    lemma_text_less_transitive(text@, before[p as int], before[j - 1]);
                }
            } else {
                assert(after[i] == before[i]);
            }
        }
        assert forall|t: Seq<char>| after.contains(t) <==> (before.contains(t) || t == text@) by {
            if after.contains(t) {
                let k = choose|k: int| 0 <= k < after.len() && after[k] == t;
                if k < p {
                    assert(before[k] == t);
                } else if k > p {
                    assert(before[k - 1] == t);
                }
            }
            if before.contains(t) {
                let k = choose|k: int| 0 <= k < before.len() && before[k] == t;
                if k < p {
                    assert(after[k] == t);
                } else {
                    assert(after[k + 1] == t);
                }
            }
            if t == text@ {
                assert(after[p as int] == t);
            }
        }
    }
}

pub open spec fn is_ascii_digit(c: char) -> bool {
    '0' <= c && c <= '9'
}

pub open spec fn is_ascii_letter(c: char) -> bool {
    ('a' <= c && c <= 'z') || ('A' <= c && c <= 'Z')
}

/// An aperture written as `f` and digits, such as `f28`.
pub open spec fn is_f_number(token: Seq<char>) -> bool {
    &&& token.len() >= 2
    &&& token[0] == 'f'
    &&& forall|i: int| 1 <= i < token.len() ==> is_ascii_digit(#[trigger] token[i])
}

/// A token that reads as a model code: at least three bytes long, with an
/// ASCII letter and an ASCII digit, and neither a focal length (ending in
/// `mm`) nor an aperture.
#[verifier::opaque]
pub open spec fn is_lens_code(token: Seq<char>) -> bool {
    &&& encode_utf8(token).len() >= 3
    &&& exists|i: int| 0 <= i < token.len() && is_ascii_letter(#[trigger] token[i])
    &&& exists|i: int| 0 <= i < token.len() && is_ascii_digit(#[trigger] token[i])
    &&& !has_suffix(token, "mm"@)
    &&& !is_f_number(token)
}

fn has_ascii_letter(token: &Vec<char>) -> (r: bool)
    ensures
        r == exists|i: int| 0 <= i < token@.len() && is_ascii_letter(#[trigger] token@[i]),
{
    let mut i: usize = 0;
    while i < token.len()
        invariant
            0 <= i <= token@.len(),
            forall|k: int| 0 <= k < i ==> !is_ascii_letter(#[trigger] token@[k]),
        decreases token@.len() - i,
    {
        let c = token[i];
        if ('a' <= c && c <= 'z') || ('A' <= c && c <= 'Z') {
            return true;
        }
        i += 1;
    }
    false
}

fn has_ascii_digit(token: &Vec<char>) -> (r: bool)
    ensures
        r == exists|i: int| 0 <= i < token@.len() && is_ascii_digit(#[trigger] token@[i]),
{
    let mut i: usize = 0;
    while i < token.len()
        invariant
            0 <= i <= token@.len(),
            forall|k: int| 0 <= k < i ==> !is_ascii_digit(#[trigger] token@[k]),
        decreases token@.len() - i,
    {
        let c = token[i];
        if '0' <= c && c <= '9' {
            return true;
        }
        i += 1;
    }
    false
}

fn is_f_number_chars(token: &Vec<char>) -> (r: bool)
    ensures
        r == is_f_number(token@),
{
    if token.len() < 2 || token[0] != 'f' {
        return false;
    }
    let mut i: usize = 1;
    while i < token.len()
        invariant
            1 <= i <= token@.len(),
            forall|k: int| 1 <= k < i ==> is_ascii_digit(#[trigger] token@[k]),
        decreases token@.len() - i,
    {
        let c = token[i];
        if !('0' <= c && c <= '9') {
            return false;
        }
        i += 1;
    }
    true
}

fn is_lens_code_chars(token: &Vec<char>) -> (r: bool)
    ensures
        r == is_lens_code(token@),
{
    proof {
        reveal(is_lens_code);
    }
    let text = string_from_chars(token);
    text.as_str().as_bytes().len() >= 3 && has_ascii_letter(token) && has_ascii_digit(token) && !ends_with_chars(
        token,
        &chars_of("mm"),
    ) && !is_f_number_chars(token)
}

/// The texts that `wanted` holds of, sorted in `String`'s order without
/// repeats (the one such list, where there is one).
pub open spec fn sorted_distinct(wanted: spec_fn(Seq<char>) -> bool) -> Seq<Seq<char>> {
    choose|r: Seq<Seq<char>>| strictly_sorted(r) && forall|t: Seq<char>| #[trigger] r.contains(t) <==> wanted(t)
}

/// Two strictly sorted lists with the same elements are the same list.
pub proof fn lemma_sorted_lists_with_same_elements_are_equal(a: Seq<Seq<char>>, b: Seq<Seq<char>>)
    requires
        strictly_sorted(a),
        strictly_sorted(b),
        forall|t: Seq<char>| #[trigger] a.contains(t) <==> b.contains(t),
    ensures
        a == b,
    decreases a.len(),
{
    if a.len() == 0 {
        if b.len() > 0 {
            assert(b.contains(b[0]));
            assert(a.contains(b[0]));
        }
        assert(a =~= b);
    } else {
        assert(a.contains(a[0]));
        assert(b.contains(a[0]));
        assert(b.len() > 0);
        assert(b.contains(b[0]));
        assert(a.contains(b[0]));
        let i = choose|i: int| 0 <= i < a.len() && a[i] == b[0];
        let j = choose|j: int| 0 <= j < b.len() && b[j] == a[0];
        if a[0] != b[0] {
            assert(i > 0 && j > 0);
            assert(text_less(a[0], a[i]));
            assert(text_less(b[0], b[j]));
            lemma_text_less_transitive(a[0], b[0], a[0]);
            lemma_text_less_irreflexive(a[0]);
        }
        let a1 = a.drop_first();
        let b1 = b.drop_first();
        assert forall|t: Seq<char>| #[trigger] a1.contains(t) <==> b1.contains(t) by {
            lemma_text_less_irreflexive(a[0]);
            if a1.contains(t) {
                let k = choose|k: int| 0 <= k < a1.len() && a1[k] == t;
                assert(a[k + 1] == t);
                assert(text_less(a[0], t));
                assert(a.contains(t));
                assert(b.contains(t));
                let m = choose|m: int| 0 <= m < b.len() && b[m] == t;
                assert(m != 0);
                assert(b1[m - 1] == t);
            }
            if b1.contains(t) {
                let k = choose|k: int| 0 <= k < b1.len() && b1[k] == t;
                assert(b[k + 1] == t);
                assert(text_less(b[0], t));
                assert(a.contains(t));
                let m = choose|m: int| 0 <= m < a.len() && a[m] == t;
                assert(m != 0);
                assert(a1[m - 1] == t);
            }
        }
        lemma_sorted_lists_with_same_elements_are_equal(a1, b1);
        assert(a =~= seq![a[0]] + a1);
        assert(b =~= seq![b[0]] + b1);
    }
}

proof fn lemma_sorted_distinct_is(r: Seq<Seq<char>>, wanted: spec_fn(Seq<char>) -> bool)
    requires
        strictly_sorted(r),
        forall|t: Seq<char>| #[trigger] r.contains(t) <==> wanted(t),
    ensures
        sorted_distinct(wanted) == r,
{
    let chosen = sorted_distinct(wanted);
    assert(strictly_sorted(chosen) && forall|t: Seq<char>| #[trigger] chosen.contains(t) <==> wanted(t));
    lemma_sorted_lists_with_same_elements_are_equal(chosen, r);
}

/// The model codes of a lens model: its tokens that read as codes, sorted
/// in `String`'s order without repeats.
pub open spec fn spec_lens_model_codes(model: Seq<char>) -> Seq<Seq<char>> {
    sorted_distinct(|t: Seq<char>| spec_tokenized(model).contains(t) && is_lens_code(t))
}

/// The tokens of a lens model that say something about it, sorted in
/// `String`'s order without repeats.
pub open spec fn spec_lens_tokens(model: Seq<char>, primary_maker: Seq<char>, alternate_maker: Seq<char>) -> Seq<Seq<char>> {
    sorted_distinct(|t: Seq<char>| spec_tokenized(model).contains(t) && is_lens_token(t, primary_maker, alternate_maker))
}

fn lens_model_codes_chars(model: &str) -> (r: Vec<Vec<char>>)
    ensures
        char_views(r@) == spec_lens_model_codes(model@),
{
    let tokens = tokenized_chars(model);
    let mut codes: Vec<Vec<char>> = Vec::new();
    let mut i: usize = 0;
    while i < tokens.len()
        invariant
            0 <= i <= tokens@.len(),
            char_views(tokens@) == spec_tokenized(model@),
            strictly_sorted(char_views(codes@)),
            forall|t: Seq<char>|
                #![trigger char_views(codes@).contains(t)]
                #![trigger char_views(tokens@).take(i as int).contains(t)]
                char_views(codes@).contains(t) <==> (char_views(tokens@).take(i as int).contains(t) && is_lens_code(t)),
        decreases tokens@.len() - i,
    {
        let ghost seen = char_views(tokens@).take(i as int);
        let ghost current = tokens@[i as int]@;
        proof {
            assert(char_views(tokens@).take(i + 1) =~= seen.push(current));
            lemma_push_contains(seen, current);
        }
        let ghost before_codes = char_views(codes@);
        let is_code = is_lens_code_chars(&tokens[i]);
        if is_code {
            let token = tokens[i].clone();
            proof {
                assert(token@ =~= current);
            }
            insert_sorted_unique(&mut codes, token);
        }
        proof {
            assert forall|t: Seq<char>|
                char_views(codes@).contains(t) <==> (seen.push(current).contains(t) && is_lens_code(t)) by {
                assert(seen.push(current).contains(t) <==> (seen.contains(t) || t == current));
                assert(before_codes.contains(t) <==> (seen.contains(t) && is_lens_code(t)));
                if is_code {
                    assert(char_views(codes@).contains(t) <==> (before_codes.contains(t) || t == current));
                } else {
                    assert(char_views(codes@) == before_codes);
                }
            }
        }
        i += 1;
    }
    proof {
        assert(char_views(tokens@).take(tokens@.len() as int) =~= char_views(tokens@));
    }
    proof {
        lemma_sorted_distinct_is(char_views(codes@), |t: Seq<char>| spec_tokenized(model@).contains(t) && is_lens_code(t));
    }
    codes
}

/// The tokens of a lens model that say something about the lens: not
/// `lens`, and not a token of either maker's name; sorted in `String`'s
/// order without repeats.
pub open spec fn is_lens_token(token: Seq<char>, primary_maker: Seq<char>, alternate_maker: Seq<char>) -> bool {
    &&& token != "lens"@
    &&& !spec_tokenized(primary_maker).contains(token)
    &&& !spec_tokenized(alternate_maker).contains(token)
}

fn lens_tokens_chars(model: &str, primary_maker: &str, alternate_maker: &str) -> (r: Vec<Vec<char>>)
    ensures
        char_views(r@) == spec_lens_tokens(model@, primary_maker@, alternate_maker@),
{
    let primary = tokenized_chars(primary_maker);
    let alternate = tokenized_chars(alternate_maker);
    let lens = chars_of("lens");
    let tokens = tokenized_chars(model);
    let mut kept: Vec<Vec<char>> = Vec::new();
    let mut i: usize = 0;
    while i < tokens.len()
        invariant
            0 <= i <= tokens@.len(),
            char_views(tokens@) == spec_tokenized(model@),
            char_views(primary@) == spec_tokenized(primary_maker@),
            char_views(alternate@) == spec_tokenized(alternate_maker@),
            lens@ == "lens"@,
            strictly_sorted(char_views(kept@)),
            forall|t: Seq<char>|
                char_views(kept@).contains(t) <==> (char_views(tokens@).take(i as int).contains(t) && is_lens_token(
                    t,
                    primary_maker@,
                    alternate_maker@,
                )),
        decreases tokens@.len() - i,
    {
        let ghost seen = char_views(tokens@).take(i as int);
        let ghost current = tokens@[i as int]@;
        proof {
            assert(char_views(tokens@).take(i + 1) =~= seen.push(current));
            lemma_push_contains(seen, current);
        }
        let token = &tokens[i];
        if !chars_equal(token, &lens) && !contains_text(&primary, token) && !contains_text(&alternate, token) {
            let copy = token.clone();
            proof {
                assert(copy@ =~= current);
            }
            insert_sorted_unique(&mut kept, copy);
        }
        i += 1;
    }
    proof {
        assert(char_views(tokens@).take(tokens@.len() as int) =~= char_views(tokens@));
    }
    proof {
        lemma_sorted_distinct_is(
            char_views(kept@),
            |t: Seq<char>| spec_tokenized(model@).contains(t) && is_lens_token(t, primary_maker@, alternate_maker@),
        );
    }
    kept
}

pub fn lens_model_codes(model: &str) -> (r: Vec<String>)
    ensures
        string_views(r@) == spec_lens_model_codes(model@),
{
    strings_of(lens_model_codes_chars(model))
}

pub fn lens_tokens(model: &str, primary_maker: &str, alternate_maker: &str) -> (r: Vec<String>)
    ensures
        string_views(r@) == spec_lens_tokens(model@, primary_maker@, alternate_maker@),
{
    strings_of(lens_tokens_chars(model, primary_maker, alternate_maker))
}

/// How a candidate lens matches the lens a RAW file names, most certain
/// first: the same canonical model, a shared model code, one canonical
/// model containing the other, or enough shared name tokens (`shared` of
/// `total`, at least three quarters).
#[derive(Clone, Copy, Debug, PartialEq, Eq, Structural)]
pub enum LensMatchKind {
    NoMatch,
    Exact,
    SharedCode,
    Contained,
    Tokens { shared: usize, total: usize },
}

/// Some element of `a` is also in `b`.
pub open spec fn lists_meet(a: Seq<Seq<char>>, b: Seq<Seq<char>>) -> bool {
    exists|i: int| 0 <= i < a.len() && b.contains(#[trigger] a[i])
}

/// Every token of `raw` with an ASCII digit in it is also in `candidate`.
pub open spec fn numbers_covered(raw: Seq<Seq<char>>, candidate: Seq<Seq<char>>) -> bool {
    forall|i: int|
        0 <= i < raw.len() && (exists|k: int| 0 <= k < raw[i].len() && is_ascii_digit(#[trigger] raw[i][k]))
            ==> candidate.contains(#[trigger] raw[i])
}

/// The number of elements of `raw` that are also in `candidate`.
pub open spec fn shared_count(raw: Seq<Seq<char>>, candidate: Seq<Seq<char>>) -> nat
    decreases raw.len(),
{
    if raw.len() == 0 {
        0
    } else {
        shared_count(raw.drop_last(), candidate) + if candidate.contains(raw.last()) {
            1nat
        } else {
            0nat
        }
    }
}

/// The match of a candidate for the lens a RAW file names (`lens_make`,
/// `lens_model`), given whether the candidate's focal range admits the
/// capture.
pub open spec fn spec_automatic_match(
    lens_make: Seq<char>,
    lens_model: Seq<char>,
    candidate: LensfunLens,
    supports_capture: bool,
) -> LensMatchKind {
    let maker = candidate.maker@;
    if !spec_maker_is_compatible(lens_make, lens_model, maker) || !supports_capture {
        LensMatchKind::NoMatch
    } else {
        let raw_model = spec_canonical_lens_model(lens_model, seq![lens_make, maker]);
        let candidate_model = spec_canonical_lens_model(candidate.model@, seq![maker, lens_make]);
        if raw_model.len() == 0 || candidate_model.len() == 0 {
            LensMatchKind::NoMatch
        } else if raw_model == candidate_model {
            LensMatchKind::Exact
        } else if lists_meet(spec_lens_model_codes(lens_model), spec_lens_model_codes(candidate.model@)) {
            LensMatchKind::SharedCode
        } else if encode_utf8(raw_model).len() >= 8 && encode_utf8(candidate_model).len() >= 8 && (has_infix(
            raw_model,
            candidate_model,
        ) || has_infix(candidate_model, raw_model)) {
            LensMatchKind::Contained
        } else {
            let raw_tokens = spec_lens_tokens(lens_model, lens_make, maker);
            let candidate_tokens = spec_lens_tokens(candidate.model@, maker, lens_make);
            let shared = shared_count(raw_tokens, candidate_tokens);
            let total = if raw_tokens.len() >= candidate_tokens.len() {
                raw_tokens.len()
            } else {
                candidate_tokens.len()
            };
            if raw_tokens.len() == 0 || candidate_tokens.len() == 0 || !numbers_covered(raw_tokens, candidate_tokens) {
                LensMatchKind::NoMatch
            } else if 4 * shared >= 3 * total {
                LensMatchKind::Tokens { shared: shared as usize, total: total as usize }
            } else {
                LensMatchKind::NoMatch
            }
        }
    }
}

fn lists_meet_chars(a: &Vec<Vec<char>>, b: &Vec<Vec<char>>) -> (r: bool)
    ensures
        r == lists_meet(char_views(a@), char_views(b@)),
{
    let mut i: usize = 0;
    while i < a.len()
        invariant
            0 <= i <= a@.len(),
            forall|k: int| 0 <= k < i ==> !char_views(b@).contains(#[trigger] char_views(a@)[k]),
        decreases a@.len() - i,
    {
        if contains_text(b, &a[i]) {
            proof {
                assert(char_views(b@).contains(char_views(a@)[i as int]));
            }
            return true;
        }
        i += 1;
    }
    false
}

fn numbers_covered_chars(raw: &Vec<Vec<char>>, candidate: &Vec<Vec<char>>) -> (r: bool)
    ensures
        r == numbers_covered(char_views(raw@), char_views(candidate@)),
{
    let mut i: usize = 0;
    while i < raw.len()
        invariant
            0 <= i <= raw@.len(),
            forall|j: int|
                0 <= j < i && (exists|k: int|
                    0 <= k < char_views(raw@)[j].len() && is_ascii_digit(#[trigger] char_views(raw@)[j][k]))
                    ==> char_views(candidate@).contains(#[trigger] char_views(raw@)[j]),
        decreases raw@.len() - i,
    {
        if has_ascii_digit(&raw[i]) && !contains_text(candidate, &raw[i]) {
            proof {
                assert(char_views(raw@)[i as int] == raw@[i as int]@);
            }
            return false;
        }
        i += 1;
    }
    true
}

fn shared_count_chars(raw: &Vec<Vec<char>>, candidate: &Vec<Vec<char>>) -> (r: usize)
    ensures
        r == shared_count(char_views(raw@), char_views(candidate@)),
{
    let mut count: usize = 0;
    let mut i: usize = 0;
    while i < raw.len()
        invariant
            0 <= i <= raw@.len(),
            count <= i,
            count == shared_count(char_views(raw@).take(i as int), char_views(candidate@)),
        decreases raw@.len() - i,
    {
        proof {
            assert(char_views(raw@).take(i + 1).drop_last() =~= char_views(raw@).take(i as int));
        }
        if contains_text(candidate, &raw[i]) {
            count += 1;
        }
        i += 1;
    }
    proof {
        assert(char_views(raw@).take(raw@.len() as int) =~= char_views(raw@));
    }
    count
}

fn utf8_len(chars: &Vec<char>) -> (r: usize)
    ensures
        r == encode_utf8(chars@).len(),
{
    let text = string_from_chars(chars);
    text.as_str().as_bytes().len()
}

/// Ranks a candidate lens against the lens a RAW file names; `supports_capture`
/// says whether the candidate's focal range admits the capture's focal length.
pub fn automatic_match(lens_make: &str, lens_model: &str, candidate: &LensfunLens, supports_capture: bool) -> (r:
    LensMatchKind)
    ensures
        r == spec_automatic_match(lens_make@, lens_model@, *candidate, supports_capture),
{
    if !maker_is_compatible(lens_make, lens_model, candidate.maker.as_str()) || !supports_capture {
        return LensMatchKind::NoMatch;
    }
    let raw_makers: [&str; 2] = [lens_make, candidate.maker.as_str()];
    let candidate_makers: [&str; 2] = [candidate.maker.as_str(), lens_make];
    let raw_model = canonical_lens_model_chars(lens_model, raw_makers.as_slice());
    let candidate_model = canonical_lens_model_chars(candidate.model.as_str(), candidate_makers.as_slice());
    proof {
        assert(name_views(raw_makers@) =~= seq![lens_make@, candidate.maker@]);
        assert(name_views(candidate_makers@) =~= seq![candidate.maker@, lens_make@]);
    }
    if raw_model.len() == 0 || candidate_model.len() == 0 {
        return LensMatchKind::NoMatch;
    }
    if chars_equal(&raw_model, &candidate_model) {
        return LensMatchKind::Exact;
    }
    let raw_codes = lens_model_codes_chars(lens_model);
    let candidate_codes = lens_model_codes_chars(candidate.model.as_str());
    if lists_meet_chars(&raw_codes, &candidate_codes) {
        return LensMatchKind::SharedCode;
    }
    if utf8_len(&raw_model) >= 8 && utf8_len(&candidate_model) >= 8 && (contains_chars(&raw_model, &candidate_model)
        || contains_chars(&candidate_model, &raw_model)) {
        return LensMatchKind::Contained;
    }
    let raw_tokens = lens_tokens_chars(lens_model, lens_make, candidate.maker.as_str());
    let candidate_tokens = lens_tokens_chars(candidate.model.as_str(), candidate.maker.as_str(), lens_make);
    if raw_tokens.len() == 0 || candidate_tokens.len() == 0 || !numbers_covered_chars(&raw_tokens, &candidate_tokens) {
        return LensMatchKind::NoMatch;
    }
    let shared = shared_count_chars(&raw_tokens, &candidate_tokens);
    let total = if raw_tokens.len() >= candidate_tokens.len() {
        raw_tokens.len()
    } else {
        candidate_tokens.len()
    };
    if shared as u128 * 4 >= total as u128 * 3 {
        LensMatchKind::Tokens { shared, total }
    } else {
        LensMatchKind::NoMatch
    }
}

/// What `str::to_lowercase` returns for a text.
pub uninterp spec fn unicode_text_lowercase(text: Seq<char>) -> Seq<char>;

/// Calls `str::to_lowercase`.
#[verifier::external_body]
fn text_lowercase(text: &str) -> (r: String)
    ensures
        r@ == unicode_text_lowercase(text@),
{
    text.to_lowercase()
}

/// What lenses are listed by: the lower-cased maker, then the lower-cased
/// model.
pub open spec fn lens_key(lens: LensfunLens) -> (Seq<char>, Seq<char>) {
    (unicode_text_lowercase(lens.maker@), unicode_text_lowercase(lens.model@))
}

pub open spec fn lens_key_less(a: (Seq<char>, Seq<char>), b: (Seq<char>, Seq<char>)) -> bool {
    text_less(a.0, b.0) || (a.0 == b.0 && text_less(a.1, b.1))
}

/// Lens `a`, at input position `i`, is listed before lens `b`, at input
/// position `j`: a smaller key, or an equal key and an earlier position.
pub open spec fn lens_precedes(a: LensfunLens, i: int, b: LensfunLens, j: int) -> bool {
    lens_key_less(lens_key(a), lens_key(b)) || (lens_key(a) == lens_key(b) && i < j)
}

/// `output` is `input` stably sorted by [`lens_key`]: `order` lists each
/// input position once and the outputs come in key order, ties by position.
pub open spec fn lens_sorting_witness(input: Seq<LensfunLens>, output: Seq<LensfunLens>, order: Seq<int>) -> bool {
    &&& order.len() == input.len()
    &&& output.len() == input.len()
    &&& forall|k: int| 0 <= k < order.len() ==> 0 <= #[trigger] order[k] < input.len()
    &&& forall|k: int, l: int| 0 <= k < l < order.len() ==> #[trigger] order[k] != #[trigger] order[l]
    &&& forall|k: int| 0 <= k < order.len() ==> #[trigger] output[k] == input[order[k]]
    &&& forall|k: int, l: int|
        0 <= k < l < order.len() ==> lens_precedes(#[trigger] output[k], order[k], #[trigger] output[l], order[l])
}

pub open spec fn lenses_stably_sorted(input: Seq<LensfunLens>, output: Seq<LensfunLens>) -> bool {
    exists|order: Seq<int>| lens_sorting_witness(input, output, order)
}

/// The same lens up to the ASCII case of maker and model.
pub open spec fn same_lens(a: LensfunLens, b: LensfunLens) -> bool {
    eq_ignore_ascii_case(a.maker@, b.maker@) && eq_ignore_ascii_case(a.model@, b.model@)
}

/// The lenses with each one dropped that is the same lens as the last one
/// kept before it.
pub open spec fn dedup_lenses(lenses: Seq<LensfunLens>) -> Seq<LensfunLens>
    decreases lenses.len(),
{
    if lenses.len() == 0 {
        Seq::empty()
    } else {
        let kept = dedup_lenses(lenses.drop_last());
        if kept.len() > 0 && same_lens(lenses.last(), kept.last()) {
            kept
        } else {
            kept.push(lenses.last())
        }
    }
}

proof fn lemma_lens_key_order()
    ensures
        forall|a: (Seq<char>, Seq<char>)| !#[trigger] lens_key_less(a, a),
        forall|a: (Seq<char>, Seq<char>), b: (Seq<char>, Seq<char>), c: (Seq<char>, Seq<char>)|
            #[trigger] lens_key_less(a, b) && #[trigger] lens_key_less(b, c) ==> lens_key_less(a, c),
        forall|a: (Seq<char>, Seq<char>), b: (Seq<char>, Seq<char>)|
            a != b ==> #[trigger] lens_key_less(a, b) || #[trigger] lens_key_less(b, a),
{
    assert forall|a: (Seq<char>, Seq<char>)| !#[trigger] lens_key_less(a, a) by {
        lemma_text_less_irreflexive(a.0);
        lemma_text_less_irreflexive(a.1);
    }
    assert forall|a: (Seq<char>, Seq<char>), b: (Seq<char>, Seq<char>), c: (Seq<char>, Seq<char>)|
        #[trigger] lens_key_less(a, b) && #[trigger] lens_key_less(b, c) implies lens_key_less(a, c) by {
        lemma_text_less_irreflexive(a.0);
        lemma_text_less_irreflexive(b.0);
        if text_less(a.0, b.0) && text_less(b.0, c.0) {
            lemma_text_less_transitive(a.0, b.0, c.0);
        } else if a.0 == b.0 && b.0 == c.0 {
            lemma_text_less_transitive(a.1, b.1, c.1);
        }
    }
    assert forall|a: (Seq<char>, Seq<char>), b: (Seq<char>, Seq<char>)|
        a != b implies #[trigger] lens_key_less(a, b) || #[trigger] lens_key_less(b, a) by {
        if a.0 != b.0 {
            lemma_text_less_total(a.0, b.0);
        } else {
            assert(a.1 != b.1);
            lemma_text_less_total(a.1, b.1);
        }
    }
}

fn lens_before(a: &LensfunLens, b: &LensfunLens) -> (r: bool)
    ensures
        r == lens_key_less(lens_key(*a), lens_key(*b)),
{
    let a_maker = chars_of(text_lowercase(a.maker.as_str()).as_str());
    let b_maker = chars_of(text_lowercase(b.maker.as_str()).as_str());
    if text_less_chars(&a_maker, &b_maker) {
        return true;
    }
    if !chars_equal(&a_maker, &b_maker) {
        return false;
    }
    let a_model = chars_of(text_lowercase(a.model.as_str()).as_str());
    let b_model = chars_of(text_lowercase(b.model.as_str()).as_str());
    text_less_chars(&a_model, &b_model)
}

fn sort_lenses(lenses: Vec<LensfunLens>) -> (r: Vec<LensfunLens>)
    ensures
        lenses_stably_sorted(lenses@, r@),
{
    let ghost input = lenses@;
    let mut v = lenses;
    let n = v.len();
    let ghost mut order: Seq<int> = Seq::new(n as nat, |k: int| k);
    proof {
        lemma_lens_key_order();
    }
    let mut i: usize = 0;
    while i < n
        invariant
            n == input.len(),
            v@.len() == n,
            order.len() == n,
            0 <= i <= n,
            forall|k: int| 0 <= k < n ==> 0 <= #[trigger] order[k] < n,
            forall|k: int, l: int| 0 <= k < l < n ==> #[trigger] order[k] != #[trigger] order[l],
            forall|k: int| 0 <= k < n ==> #[trigger] v@[k] == input[order[k]],
            forall|k: int| i <= k < n ==> #[trigger] order[k] == k,
            forall|k: int| 0 <= k < i ==> #[trigger] order[k] < i,
            forall|k: int, l: int| 0 <= k < l < i ==> lens_precedes(#[trigger] v@[k], order[k], #[trigger] v@[l], order[l]),
            forall|a: (Seq<char>, Seq<char>)| !#[trigger] lens_key_less(a, a),
            forall|a: (Seq<char>, Seq<char>), b: (Seq<char>, Seq<char>), c: (Seq<char>, Seq<char>)|
                #[trigger] lens_key_less(a, b) && #[trigger] lens_key_less(b, c) ==> lens_key_less(a, c),
            forall|a: (Seq<char>, Seq<char>), b: (Seq<char>, Seq<char>)|
                a != b ==> #[trigger] lens_key_less(a, b) || #[trigger] lens_key_less(b, a),
        decreases n - i,
    {
        let ghost before = v@;
        let ghost before_order = order;
        let x = v.remove(i);
        let mut p: usize = 0;
        while p < i && !lens_before(&x, &v[p])
            invariant
                0 <= p <= i,
                i < n,
                before.len() == n,
                x == before[i as int],
                v@ == before.remove(i as int),
                forall|q: int| 0 <= q < p ==> !lens_key_less(lens_key(x), #[trigger] lens_key(v@[q])),
            decreases i - p,
        {
            p += 1;
        }
        proof {
            assert(p < i ==> lens_key_less(lens_key(x), lens_key(v@[p as int])));
        }
        v.insert(p, x);
        proof {
            order = before_order.remove(i as int).insert(p as int, i as int);
            assert forall|k: int| 0 <= k < n implies #[trigger] v@[k] == input[order[k]] by {
                if k < p {
                    assert(v@[k] == before[k]);
                } else if k > p {
                    if k - 1 < i {
                        assert(v@[k] == before[k - 1]);
                    } else {
                        assert(v@[k] == before[k]);
                    }
                }
            }
            assert forall|k: int, l: int| 0 <= k < l <= i implies lens_precedes(
                #[trigger] v@[k],
                order[k],
                #[trigger] v@[l],
                order[l],
            ) by {
                if l < p {
                    assert(v@[k] == before[k] && v@[l] == before[l]);
                } else if k > p {
                    assert(v@[k] == before[k - 1] && v@[l] == before[l - 1]);
                } else if k < p && l > p {
                    assert(v@[k] == before[k] && v@[l] == before[l - 1]);
                } else if k == p {
                    assert(v@[l] == before[l - 1]);
                    assert(lens_key_less(lens_key(x), lens_key(before[p as int])));
                    if l - 1 > p {
                        assert(lens_precedes(before[p as int], before_order[p as int], before[l - 1], before_order[l - 1]));
                    }
                } else {
                    assert(v@[k] == before[k]);
                    assert(!lens_key_less(lens_key(x), lens_key(before[k])));
                    assert(before_order[k] < i);
                }
            }
        }
        i += 1;
    }
    proof {
        assert(lens_sorting_witness(input, v@, order));
    }
    v
}

fn same_lens_exec(a: &LensfunLens, b: &LensfunLens) -> (r: bool)
    ensures
        r == same_lens(*a, *b),
{
    chars_eq_ignore_ascii_case(&chars_of(a.maker.as_str()), &chars_of(b.maker.as_str()))
        && chars_eq_ignore_ascii_case(&chars_of(a.model.as_str()), &chars_of(b.model.as_str()))
}

fn copy_lens(lens: &LensfunLens) -> (r: LensfunLens)
    ensures
        r == *lens,
{
    LensfunLens { maker: lens.maker.clone(), model: lens.model.clone() }
}

fn dedup_sorted_lenses(lenses: &Vec<LensfunLens>) -> (r: Vec<LensfunLens>)
    ensures
        r@ == dedup_lenses(lenses@),
{
    let mut kept: Vec<LensfunLens> = Vec::new();
    let mut i: usize = 0;
    while i < lenses.len()
        invariant
            0 <= i <= lenses@.len(),
            kept@ == dedup_lenses(lenses@.take(i as int)),
        decreases lenses@.len() - i,
    {
        proof {
            assert(lenses@.take(i + 1).drop_last() =~= lenses@.take(i as int));
        }
        let duplicate = kept.len() > 0 && same_lens_exec(&lenses[i], &kept[kept.len() - 1]);
        if !duplicate {
            kept.push(copy_lens(&lenses[i]));
        }
        i += 1;
    }
    proof {
        assert(lenses@.take(lenses@.len() as int) =~= lenses@);
    }
    kept
}

/// Sorts lenses by lower-cased maker, then lower-cased model (equal ones
/// keeping their order), and drops each one that is the same lens, up to
/// ASCII case, as the one kept before it.
pub fn sort_and_deduplicate_lenses(lenses: &mut Vec<LensfunLens>)
    ensures
        exists|sorted: Seq<LensfunLens>| lenses_stably_sorted(old(lenses)@, sorted) && final(lenses)@ == dedup_lenses(sorted),
{
    let mut taken: Vec<LensfunLens> = Vec::new();
    std::mem::swap(&mut taken, lenses);
    let sorted = sort_lenses(taken);
    let ghost sorted_view = sorted@;
    *lenses = dedup_sorted_lenses(&sorted);
    proof {
        assert(lenses_stably_sorted(old(lenses)@, sorted_view) && lenses@ == dedup_lenses(sorted_view));
    }
}

/// The RAW's lens model names `maker` first: the maker's canonical text is
/// non-empty and the model's canonical text starts with it.
pub open spec fn names_maker_first(model_text: Seq<char>, maker: Seq<char>) -> bool {
    lens_text(maker).len() > 0 && has_prefix(model_text, lens_text(maker))
}

/// Makers are compatible whenever either maker's canonical text contains
/// the other's, whatever the lens model: "Zeiss" fits "Carl Zeiss" and
/// "Carl Zeiss" fits "Zeiss".
pub proof fn lemma_containing_makers_are_compatible(
    raw_maker: Seq<char>,
    raw_model: Seq<char>,
    candidate_maker: Seq<char>,
)
    requires
        has_infix(lens_text(candidate_maker), lens_text(raw_maker)) || has_infix(
            lens_text(raw_maker),
            lens_text(candidate_maker),
        ),
    ensures
        spec_maker_is_compatible(raw_maker, raw_model, candidate_maker),
{
}

/// When the lens model names neither maker first, compatibility does not
/// depend on which maker is the RAW's and which the candidate's.
pub proof fn lemma_maker_compatibility_is_symmetric(maker_a: Seq<char>, raw_model: Seq<char>, maker_b: Seq<char>)
    requires
        !names_maker_first(lens_text(raw_model), maker_a),
        !names_maker_first(lens_text(raw_model), maker_b),
    ensures
        spec_maker_is_compatible(maker_a, raw_model, maker_b) == spec_maker_is_compatible(maker_b, raw_model, maker_a),
{
}

/// Two named makers neither of whose canonical texts contains the other's
/// are incompatible unless the lens model names the candidate's maker
/// first.
pub proof fn lemma_unrelated_makers_are_incompatible(
    raw_maker: Seq<char>,
    raw_model: Seq<char>,
    candidate_maker: Seq<char>,
)
    requires
        lens_text(raw_maker).len() > 0,
        lens_text(candidate_maker).len() > 0,
        !has_infix(lens_text(candidate_maker), lens_text(raw_maker)),
        !has_infix(lens_text(raw_maker), lens_text(candidate_maker)),
        !names_maker_first(lens_text(raw_model), candidate_maker),
    ensures
        !spec_maker_is_compatible(raw_maker, raw_model, candidate_maker),
{
    if lens_text(raw_maker) == lens_text(candidate_maker) {
        let t = lens_text(raw_maker);
        assert(t.subrange(0int, 0int + t.len()) =~= t);
        assert(has_infix(t, t));
    }
}

/// The same lens model under two makers one of whose names contains the
/// other's (such as "Zeiss" and "Carl Zeiss") is an exact match when the
/// capture fits, provided the model has a name and does not start with
/// either maker's.
pub proof fn lemma_same_model_under_containing_makers_is_exact(
    lens_make: Seq<char>,
    lens_model: Seq<char>,
    candidate: LensfunLens,
)
    requires
        candidate.model@ == lens_model,
        lens_text(lens_model).len() > 0,
        has_infix(lens_text(candidate.maker@), lens_text(lens_make)) || has_infix(
            lens_text(lens_make),
            lens_text(candidate.maker@),
        ),
        !names_maker_first(lens_text(lens_model), lens_make),
        !names_maker_first(lens_text(lens_model), candidate.maker@),
    ensures
        spec_automatic_match(lens_make, lens_model, candidate, true) == LensMatchKind::Exact,
{
    let text = lens_text(lens_model);
    let forward = seq![lens_make, candidate.maker@];
    let backward = seq![candidate.maker@, lens_make];
    assert(forward.drop_last() =~= seq![lens_make]);
    assert(backward.drop_last() =~= seq![candidate.maker@]);
    assert(seq![lens_make].drop_last() =~= Seq::<Seq<char>>::empty());
    assert(seq![candidate.maker@].drop_last() =~= Seq::<Seq<char>>::empty());
    reveal_with_fuel(strip_makers, 3);
    assert(spec_canonical_lens_model(lens_model, forward) == text);
    assert(spec_canonical_lens_model(lens_model, backward) == text);
}

} // verus!
