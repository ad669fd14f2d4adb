//! Matching DCP camera profiles to a camera: the name keys, the score of an
//! indexed profile file, its display name, which indexed profiles are
//! candidates, and the order and names of the profiles that matched.
use crate::diagnostics::{trim_text, trimmed};
use crate::raw_loader::{extension_of, path_extension, text_option_view, CameraProfileMode};
use crate::text::{
    ascii_lower, chars_eq_ignore_ascii_case, chars_equal, chars_of, contains_chars, ends_with_chars, eq_ignore_ascii_case,
    has_infix, has_suffix, is_alphanumeric, lemma_text_less_irreflexive, lemma_text_less_total,
    lemma_text_less_transitive, lower_ascii_char, lowercase_of, text_less, text_less_chars, unicode_alphanumeric,
    unicode_lowercase,
};
use crate::white_balance_presets::string_from_chars;
use vstd::prelude::*;
use vstd::string::StringExecFns;
use vstd::utf8::encode_utf8;

verus! {

/// Largest profile file read.
pub const MAX_DCP_FILE_BYTES: u64 = 64 * 1024 * 1024;
/// Folder entries inspected before a profile scan stops.
pub const MAX_DCP_SCAN_FILES: usize = 10_000;
/// Deepest folder level a profile scan enters.
pub const MAX_DCP_SCAN_DEPTH: usize = 16;

/// What `std::path::Path::file_stem` returns for a path given as text,
/// converted back to text.
pub uninterp spec fn path_file_stem(path: Seq<char>) -> Option<Seq<char>>;

/// Calls `std::path::Path::file_stem`; the stem of a `&str` path is always
/// valid UTF-8, so `to_str` only converts.
#[verifier::external_body]
fn file_stem_of(path: &str) -> (r: Option<String>)
    ensures
        text_option_view(r) == path_file_stem(path@),
{
    match std::path::Path::new(path).file_stem() {
        Some(stem) => stem.to_str().map(String::from),
        None => None,
    }
}

/// The key a camera or profile name is compared by: its alphanumeric
/// characters, lower-cased, in order.
pub open spec fn camera_key(s: Seq<char>) -> Seq<char>
    decreases s.len(),
{
    if s.len() == 0 {
        Seq::empty()
    } else {
        let rest = camera_key(s.drop_last());
        if unicode_alphanumeric(s.last()) { rest + unicode_lowercase(s.last()) } else { rest }
    }
}

/// The key of an optional name; none gives the empty key.
pub open spec fn optional_key(name: Option<Seq<char>>) -> Seq<char> {
    match name {
        Some(n) => camera_key(n),
        None => Seq::empty(),
    }
}

fn camera_key_of_chars(chars: &Vec<char>) -> (r: Vec<char>)
    ensures
        r@ == camera_key(chars@),
{
    let mut out: Vec<char> = Vec::new();
    let mut i: usize = 0;
    while i < chars.len()
        invariant
            0 <= i <= chars@.len(),
            out@ == camera_key(chars@.take(i as int)),
        decreases chars@.len() - i,
    {
        let c = chars[i];
        proof {
            assert(chars@.take(i + 1).drop_last() =~= chars@.take(i as int));
        }
        if is_alphanumeric(c) {
            let mut lower = lowercase_of(c);
            out.append(&mut lower);
        }
        i += 1;
    }
    proof {
        assert(chars@.take(chars@.len() as int) =~= chars@);
    }
    out
}

/// The key of a camera or profile name.
pub fn normalize_camera_name(value: &str) -> (r: String)
    ensures
        r@ == camera_key(value@),
{
    let chars = chars_of(value);
    let key = camera_key_of_chars(&chars);
    string_from_chars(&key)
}

/// The keys a camera is matched by: of its maker, of its model, and of the
/// two joined by a space.
pub fn dcp_match_keys(camera_make: &str, camera_model: &str) -> (r: (String, String, String))
    ensures
        r.0@ == camera_key(camera_make@),
        r.1@ == camera_key(camera_model@),
        r.2@ == camera_key(camera_make@ + seq![' '] + camera_model@),
{
    let mut joined = chars_of(camera_make);
    joined.push(' ');
    let mut model = chars_of(camera_model);
    joined.append(&mut model);
    let combined = camera_key_of_chars(&joined);
    proof {
        assert(joined@ =~= camera_make@ + seq![' '] + camera_model@);
    }
    (normalize_camera_name(camera_make), normalize_camera_name(camera_model), string_from_chars(&combined))
}

/// How well an indexed profile file fits a camera, from the keys of the
/// camera model it declares, of its file stem, of its profile name and of
/// its whole path: a declared model must equal the camera's model (or maker
/// and model) or, for a model key of at least four bytes, contain it; without
/// one, the file stem is compared, then the path searched. No fit scores 0;
/// a fit gains for naming the maker and for a standard look, and loses for
/// a monochrome one.
pub open spec fn dcp_score(
    declared: Seq<char>,
    filename: Seq<char>,
    profile_name: Seq<char>,
    path_key: Seq<char>,
    make_key: Seq<char>,
    model_key: Seq<char>,
    combined_key: Seq<char>,
) -> int {
    let long_model = encode_utf8(model_key).len() >= 4;
    let base: int = if declared.len() > 0 {
        if declared == model_key || declared == combined_key {
            1000
        } else if long_model && has_infix(declared, model_key) {
            900
        } else {
            0
        }
    } else if filename == model_key || filename == combined_key {
        700
    } else if long_model && has_infix(filename, model_key) {
        600
    } else if long_model && has_infix(path_key, model_key) {
        550
    } else {
        0
    };
    let maker: int = if make_key.len() > 0 && (has_infix(declared, make_key) || has_infix(filename, make_key)
        || has_infix(path_key, make_key)) {
        25
    } else {
        0
    };
    let look: int = if has_infix(profile_name, "camerastandard"@) || has_infix(filename, "camerastandard"@)
        || has_suffix(profile_name, "camerast"@) || has_suffix(filename, "camerast"@) {
        20
    } else if has_infix(profile_name, "standard"@) || has_infix(filename, "standard"@) {
        15
    } else {
        0
    };
    let mono: int = if has_infix(profile_name, "monochrome"@) || has_infix(filename, "monochrome"@)
        || has_suffix(profile_name, "camerabw"@) || has_suffix(filename, "camerabw"@) {
        30
    } else {
        0
    };
    if base == 0 { 0 } else { base + maker + look - mono }
}

/// The score of an indexed profile at `path`, with the camera model and
/// profile name it declares, for a camera with the given keys.
pub open spec fn spec_dcp_match_score(
    camera_model: Option<Seq<char>>,
    profile_name: Option<Seq<char>>,
    path: Seq<char>,
    make_key: Seq<char>,
    model_key: Seq<char>,
    combined_key: Seq<char>,
) -> int {
    dcp_score(
        optional_key(camera_model),
        optional_key(path_file_stem(path)),
        optional_key(profile_name),
        camera_key(path),
        make_key,
        model_key,
        combined_key,
    )
}

/// The text of an optional name.
pub open spec fn name_view(o: Option<&str>) -> Option<Seq<char>> {
    match o {
        Some(s) => Some(s@),
        None => None,
    }
}

fn optional_key_chars(name: Option<&str>) -> (r: Vec<char>)
    ensures
        r@ == optional_key(name_view(name)),
{
    match name {
        Some(n) => camera_key_of_chars(&chars_of(n)),
        None => Vec::new(),
    }
}
fn any_infix(hays: (&Vec<char>, &Vec<char>), needle: &Vec<char>) -> (r: bool)
    ensures
        r == (has_infix(hays.0@, needle@) || has_infix(hays.1@, needle@)),
{
    contains_chars(hays.0, needle) || contains_chars(hays.1, needle)
}

fn any_suffix(names: (&Vec<char>, &Vec<char>), suffix: &Vec<char>) -> (r: bool)
    ensures
        r == (has_suffix(names.0@, suffix@) || has_suffix(names.1@, suffix@)),
{
    ends_with_chars(names.0, suffix) || ends_with_chars(names.1, suffix)
}

fn base_score(
    declared: &Vec<char>,
    filename: &Vec<char>,
    path_key: &Vec<char>,
    model: &Vec<char>,
    combined: &Vec<char>,
    long_model: bool,
) -> (r: i32)
    ensures
        r as int == (if declared@.len() > 0 {
            if declared@ == model@ || declared@ == combined@ {
                1000int
            } else if long_model && has_infix(declared@, model@) {
                900
            } else {
                0
            }
        } else if filename@ == model@ || filename@ == combined@ {
            700
        } else if long_model && has_infix(filename@, model@) {
            600
        } else if long_model && has_infix(path_key@, model@) {
            550
        } else {
            0
        }),
{
    if declared.len() > 0 {
        if chars_equal(declared, model) || chars_equal(declared, combined) {
            1000
        } else if long_model && contains_chars(declared, model) {
            900
        } else {
            0
        }
    } else if chars_equal(filename, model) || chars_equal(filename, combined) {
        700
    } else if long_model && contains_chars(filename, model) {
        600
    } else if long_model && contains_chars(path_key, model) {
        550
    } else {
        0
    }
}

/// The score of an indexed profile file at `path` that declares
/// `camera_model` and `profile_name`, for a camera with the given keys
/// (see [`dcp_match_keys`]).
pub fn dcp_match_score(
    camera_model: Option<&str>,
    profile_name: Option<&str>,
    path: &str,
    make_key: &str,
    model_key: &str,
    combined_key: &str,
) -> (r: i32)
    ensures
        r as int == spec_dcp_match_score(
            name_view(camera_model),
            name_view(profile_name),
            path@,
            make_key@,
            model_key@,
            combined_key@,
        ),
{
    let declared = optional_key_chars(camera_model);
    let stem = file_stem_of(path);
    let filename = match &stem {
        Some(s) => camera_key_of_chars(&chars_of(s.as_str())),
        None => Vec::new(),
    };
    let profile = optional_key_chars(profile_name);
    let path_key = camera_key_of_chars(&chars_of(path));
    let make = chars_of(make_key);
    let model = chars_of(model_key);
    let combined = chars_of(combined_key);
    let long_model = model_key.as_bytes().len() >= 4;
    let base = base_score(&declared, &filename, &path_key, &model, &combined, long_model);
    if base == 0 {
        return 0;
    }
    let mut score: i32 = base;
    if make.len() > 0 && (contains_chars(&declared, &make) || contains_chars(&filename, &make) || contains_chars(
        &path_key,
        &make,
    )) {
        score = score + 25;
    }
    if any_infix((&profile, &filename), &chars_of("camerastandard")) || any_suffix(
        (&profile, &filename),
        &chars_of("camerast"),
    ) {
        score = score + 20;
    } else if any_infix((&profile, &filename), &chars_of("standard")) {
        score = score + 15;
    }
    if any_infix((&profile, &filename), &chars_of("monochrome")) || any_suffix(
        (&profile, &filename),
        &chars_of("camerabw"),
    ) {
        score = score - 30;
    }
    score
}

/// The name a profile is listed under: its declared profile name without
/// surrounding whitespace, or, when that is missing or blank, the file stem
/// of its path, or else `Camera profile`.
pub open spec fn spec_dcp_profile_display_name(profile_name: Option<Seq<char>>, path: Seq<char>) -> Seq<char> {
    let named = match profile_name {
        Some(n) => trimmed(n),
        None => Seq::empty(),
    };
    if named.len() > 0 {
        named
    } else {
        match path_file_stem(path) {
            Some(stem) => stem,
            None => "Camera profile"@,
        }
    }
}

pub fn dcp_profile_display_name(profile_name: Option<&str>, path: &str) -> (r: String)
    ensures
        r@ == spec_dcp_profile_display_name(name_view(profile_name), path@),
{
    if let Some(name) = profile_name {
        let trimmed_name = trim_text(name);
        if !trimmed_name.is_empty() {
            return trimmed_name.to_owned();
        }
    }
    match file_stem_of(path) {
        Some(stem) => stem,
        None => String::from_str("Camera profile"),
    }
}

/// A profile file found in the profile folder, with the profile name and
/// camera model it declares.
#[derive(Clone, Debug)]
pub struct IndexedDcpProfile {
    pub path: String,
    pub name: String,
    pub profile_name: Option<String>,
    pub camera_model: Option<String>,
}

/// The score of an indexed profile for a camera with the given keys.
pub open spec fn entry_score(entry: IndexedDcpProfile, make_key: Seq<char>, model_key: Seq<char>, combined_key: Seq<char>) -> int {
    spec_dcp_match_score(
        text_option_view(entry.camera_model),
        text_option_view(entry.profile_name),
        entry.path@,
        make_key,
        model_key,
        combined_key,
    )
}

/// The positions and scores of the indexed profiles that score above zero,
/// in index order.
pub open spec fn scored_candidates(
    index: Seq<IndexedDcpProfile>,
    make_key: Seq<char>,
    model_key: Seq<char>,
    combined_key: Seq<char>,
) -> Seq<(usize, i32)>
    decreases index.len(),
{
    if index.len() == 0 {
        Seq::empty()
    } else {
        let rest = scored_candidates(index.drop_last(), make_key, model_key, combined_key);
        let score = entry_score(index.last(), make_key, model_key, combined_key);
        if score > 0 { rest.push(((index.len() - 1) as usize, score as i32)) } else { rest }
    }
}

/// The candidates among the indexed profiles for a camera: none for a
/// camera whose model has an empty key, else those that score above zero.
pub open spec fn spec_dcp_candidates(index: Seq<IndexedDcpProfile>, camera_make: Seq<char>, camera_model: Seq<char>) -> Seq<
    (usize, i32),
> {
    if camera_key(camera_model).len() == 0 {
        Seq::empty()
    } else {
        scored_candidates(
            index,
            camera_key(camera_make),
            camera_key(camera_model),
            camera_key(camera_make + seq![' '] + camera_model),
        )
    }
}

fn option_str(o: &Option<String>) -> (r: Option<&str>)
    ensures
        name_view(r) == text_option_view(*o),
{
    match o {
        Some(s) => Some(s.as_str()),
        None => None,
    }
}

/// The indexed profiles that are candidates for a camera, by position, with
/// their scores.
pub fn dcp_candidates(index: &Vec<IndexedDcpProfile>, camera_make: &str, camera_model: &str) -> (r: Vec<(usize, i32)>)
    ensures
        r@ == spec_dcp_candidates(index@, camera_make@, camera_model@),
{
    let (make_key, model_key, combined_key) = dcp_match_keys(camera_make, camera_model);
    let mut found: Vec<(usize, i32)> = Vec::new();
    if model_key.as_str().is_empty() {
        return found;
    }
    let mut i: usize = 0;
    while i < index.len()
        invariant
            0 <= i <= index@.len(),
            make_key@ == camera_key(camera_make@),
            model_key@ == camera_key(camera_model@),
            combined_key@ == camera_key(camera_make@ + seq![' '] + camera_model@),
            found@ == scored_candidates(index@.take(i as int), make_key@, model_key@, combined_key@),
        decreases index@.len() - i,
    {
        let entry = &index[i];
        let score = dcp_match_score(
            option_str(&entry.camera_model),
            option_str(&entry.profile_name),
            entry.path.as_str(),
            make_key.as_str(),
            model_key.as_str(),
            combined_key.as_str(),
        );
        proof {
            assert(index@.take(i + 1).drop_last() =~= index@.take(i as int));
            assert(index@.take(i + 1).last() == index@[i as int]);
        }
        if score > 0 {
            found.push((i, score));
        }
        i += 1;
    }
    proof {
        assert(index@.take(index@.len() as int) =~= index@);
    }
    found
}

/// A candidate profile that loaded: its score, path and listed name, and
/// the loaded profile, carried along.
pub struct MatchedDcpProfile<P> {
    pub score: i32,
    pub path: String,
    pub name: String,
    pub profile: P,
}

/// Text with its ASCII letters lower-cased, as `str::to_ascii_lowercase`.
pub open spec fn lowered(s: Seq<char>) -> Seq<char> {
    s.map_values(|c: char| ascii_lower(c))
}

/// What matches are ordered by: score, then lower-cased name, then
/// lower-cased path.
pub open spec fn match_key<P>(m: MatchedDcpProfile<P>) -> (i32, Seq<char>, Seq<char>) {
    (m.score, lowered(m.name@), lowered(m.path@))
}

/// Key `a` comes first: a higher score, or an equal score and a smaller
/// name, or equal score and name and a smaller path.
pub open spec fn key_less(a: (i32, Seq<char>, Seq<char>), b: (i32, Seq<char>, Seq<char>)) -> bool {
    a.0 > b.0 || (a.0 == b.0 && (text_less(a.1, b.1) || (a.1 == b.1 && text_less(a.2, b.2))))
}

/// Element `a`, at input position `i`, goes before element `b`, at input
/// position `j`: a smaller key, or an equal key and an earlier position.
pub open spec fn match_precedes<P>(a: MatchedDcpProfile<P>, i: int, b: MatchedDcpProfile<P>, j: int) -> bool {
    key_less(match_key(a), match_key(b)) || (match_key(a) == match_key(b) && i < j)
}

/// `order` lists each input position once, `output` holds the inputs in
/// that order, and consecutive ones are in key order, ties by position.
pub open spec fn sorting_witness<P>(
    input: Seq<MatchedDcpProfile<P>>,
    output: Seq<MatchedDcpProfile<P>>,
    order: Seq<int>,
) -> bool {
    &&& order.len() == input.len()
    &&& output.len() == input.len()
    &&& forall|k: int| 0 <= k < order.len() ==> 0 <= #[trigger] order[k] < input.len()
    &&& forall|k: int, l: int| 0 <= k < l < order.len() ==> #[trigger] order[k] != #[trigger] order[l]
    &&& forall|k: int| 0 <= k < order.len() ==> #[trigger] output[k] == input[order[k]]
    &&& forall|k: int, l: int|
        0 <= k < l < order.len() ==> match_precedes(
            #[trigger] output[k],
            order[k],
            #[trigger] output[l],
            order[l],
        )
}

/// `output` is `input` sorted by key, equal keys keeping their input order
/// (a stable sort, which `slice::sort_by` is).
pub open spec fn stably_sorted<P>(input: Seq<MatchedDcpProfile<P>>, output: Seq<MatchedDcpProfile<P>>) -> bool {
    exists|order: Seq<int>| sorting_witness(input, output, order)
}

proof fn lemma_key_order()
    ensures
        forall|a: (i32, Seq<char>, Seq<char>)| !#[trigger] key_less(a, a),
        forall|a: (i32, Seq<char>, Seq<char>), b: (i32, Seq<char>, Seq<char>), c: (i32, Seq<char>, Seq<char>)|
            #[trigger] key_less(a, b) && #[trigger] key_less(b, c) ==> key_less(a, c),
        forall|a: (i32, Seq<char>, Seq<char>), b: (i32, Seq<char>, Seq<char>)|
            a != b ==> #[trigger] key_less(a, b) || #[trigger] key_less(b, a),
{
    assert forall|a: (i32, Seq<char>, Seq<char>)| !#[trigger] key_less(a, a) by {
        lemma_text_less_irreflexive(a.1);
        lemma_text_less_irreflexive(a.2);
    }
    assert forall|a: (i32, Seq<char>, Seq<char>), b: (i32, Seq<char>, Seq<char>), c: (i32, Seq<char>, Seq<char>)|
        #[trigger] key_less(a, b) && #[trigger] key_less(b, c) implies key_less(a, c) by {
        if a.0 == b.0 && b.0 == c.0 {
            lemma_text_less_irreflexive(a.1);
            lemma_text_less_irreflexive(b.1);
            if text_less(a.1, b.1) && text_less(b.1, c.1) {
                lemma_text_less_transitive(a.1, b.1, c.1);
            } else if a.1 == b.1 && b.1 == c.1 {
                lemma_text_less_transitive(a.2, b.2, c.2);
            }
        }
    }
    assert forall|a: (i32, Seq<char>, Seq<char>), b: (i32, Seq<char>, Seq<char>)|
        a != b implies #[trigger] key_less(a, b) || #[trigger] key_less(b, a) by {
        if a.0 == b.0 {
            if a.1 != b.1 {
                lemma_text_less_total(a.1, b.1);
            } else {
                assert(a.2 != b.2);
                lemma_text_less_total(a.2, b.2);
            }
        }
    }
}

fn lowered_chars(s: &String) -> (r: Vec<char>)
    ensures
        r@ == lowered(s@),
{
    let chars = chars_of(s.as_str());
    let mut out: Vec<char> = Vec::new();
    let mut i: usize = 0;
    while i < chars.len()
        invariant
            0 <= i <= chars@.len(),
            chars@ == s@,
            out@ == lowered(chars@.take(i as int)),
        decreases chars@.len() - i,
    {
        out.push(lower_ascii_char(chars[i]));
        i += 1;
        proof {
            assert(out@ =~= lowered(chars@.take(i as int)));
        }
    }
    proof {
        assert(chars@.take(chars@.len() as int) =~= chars@);
    }
    out
}

fn match_before<P>(a: &MatchedDcpProfile<P>, b: &MatchedDcpProfile<P>) -> (r: bool)
    ensures
        r == key_less(match_key(*a), match_key(*b)),
{
    if a.score != b.score {
        return a.score > b.score;
    }
    let a_name = lowered_chars(&a.name);
    let b_name = lowered_chars(&b.name);
    if text_less_chars(&a_name, &b_name) {
        return true;
    }
    if !chars_equal(&a_name, &b_name) {
        return false;
    }
    text_less_chars(&lowered_chars(&a.path), &lowered_chars(&b.path))
}

/// Sorts matches as the profile list shows them: best score first, then by
/// name and by path, each compared with ASCII case folded; equal ones keep
/// their order.
pub fn sort_dcp_matches<P>(matches: Vec<MatchedDcpProfile<P>>) -> (r: Vec<MatchedDcpProfile<P>>)
    ensures
        stably_sorted(matches@, r@),
{
    let ghost input = matches@;
    let mut v = matches;
    let n = v.len();
    let ghost mut order: Seq<int> = Seq::new(n as nat, |k: int| k);
    proof {
        lemma_key_order();
    }
    let mut i: usize = 0;
    while i < n
        invariant
            n == input.len(),
            v@.len() == n,
            order.len() == n,
            0 <= i <= n,
            forall|k: int| 0 <= k < n ==> 0 <= #[trigger] order[k] < n,
            forall|k: int, l: int| 0 <= k < l < n ==> #[trigger] order[k] != #[trigger] order[l],
            forall|k: int| 0 <= k < n ==> #[trigger] v@[k] == input[order[k]],
            forall|k: int| i <= k < n ==> #[trigger] order[k] == k,
            forall|k: int| 0 <= k < i ==> #[trigger] order[k] < i,
            forall|k: int, l: int|
                0 <= k < l < i ==> match_precedes(#[trigger] v@[k], order[k], #[trigger] v@[l], order[l]),
            forall|a: (i32, Seq<char>, Seq<char>)| !#[trigger] key_less(a, a),
            forall|a: (i32, Seq<char>, Seq<char>), b: (i32, Seq<char>, Seq<char>), c: (i32, Seq<char>, Seq<char>)|
                #[trigger] key_less(a, b) && #[trigger] key_less(b, c) ==> key_less(a, c),
            forall|a: (i32, Seq<char>, Seq<char>), b: (i32, Seq<char>, Seq<char>)|
                a != b ==> #[trigger] key_less(a, b) || #[trigger] key_less(b, a),
        decreases n - i,
    {
        let ghost before = v@;
        let ghost before_order = order;
        let x = v.remove(i);
        let mut p: usize = 0;
        while p < i && !match_before(&x, &v[p])
            invariant
                0 <= p <= i,
                i < n,
                before.len() == n,
                x == before[i as int],
                v@ == before.remove(i as int),
                forall|q: int| 0 <= q < p ==> !key_less(match_key(x), #[trigger] match_key(v@[q])),
            decreases i - p,
        {
            p += 1;
        }
        proof {
            assert(p < i ==> key_less(match_key(x), match_key(v@[p as int])));
        }
        v.insert(p, x);
        proof {
            order = before_order.remove(i as int).insert(p as int, i as int);
            assert forall|k: int| 0 <= k < n implies #[trigger] v@[k] == input[order[k]] by {
                if k < p {
                    assert(v@[k] == before[k]);
                } else if k > p {
                    if k - 1 < i {
                        assert(v@[k] == before[k - 1]);
                    } else {
                        assert(v@[k] == before[k]);
                    }
                }
            }
            assert forall|k: int, l: int| 0 <= k < l <= i implies match_precedes(
                #[trigger] v@[k],
                order[k],
                #[trigger] v@[l],
                order[l],
            ) by {
                if l < p {
                    assert(v@[k] == before[k] && v@[l] == before[l]);
                } else if k > p {
                    assert(v@[k] == before[k - 1] && v@[l] == before[l - 1]);
                } else if k < p && l > p {
                    assert(v@[k] == before[k] && v@[l] == before[l - 1]);
                } else if k == p {
                    // the inserted element comes before everything after it
                    assert(v@[l] == before[l - 1]);
                    assert(key_less(match_key(x), match_key(before[p as int])));
                    if l - 1 > p {
                        assert(match_precedes(before[p as int], before_order[p as int], before[l - 1], before_order[l - 1]));
                    }
                } else {
                    // l == p: everything before the inserted element has a key no larger
                    assert(v@[k] == before[k]);
                    assert(!key_less(match_key(x), match_key(before[k])));
                    assert(before_order[k] < i);
                }
            }
        }
        i += 1;
    }
    proof {
        assert(sorting_witness(input, v@, order));
    }
    v
}

/// What `std::path::Path::file_name` returns for a path given as text,
/// converted back to text.
pub uninterp spec fn path_file_name(path: Seq<char>) -> Option<Seq<char>>;

/// Calls `std::path::Path::file_name`; the name of a `&str` path is always
/// valid UTF-8, so `to_str` only converts.
#[verifier::external_body]
fn file_name_of(path: &str) -> (r: Option<String>)
    ensures
        text_option_view(r) == path_file_name(path@),
{
    match std::path::Path::new(path).file_name() {
        Some(name) => name.to_str().map(String::from),
        None => None,
    }
}

/// Another listed name equals name `k` up to ASCII case.
pub open spec fn has_name_twin(names: Seq<Seq<char>>, k: int) -> bool {
    exists|j: int| 0 <= j < names.len() && j != k && #[trigger] eq_ignore_ascii_case(names[j], names[k])
}

/// A listed name told apart by its file name: `name — file`.
pub open spec fn with_file_name(name: Seq<char>, file_name: Seq<char>) -> Seq<char> {
    name + " \u{2014} "@ + file_name
}

/// The names after visiting the first `n` matches in order, each one that
/// (as the names stand when it is visited) shares its name with another
/// getting its file name appended, where its path has one.
pub open spec fn twins_renamed(names: Seq<Seq<char>>, paths: Seq<Seq<char>>, n: nat) -> Seq<Seq<char>>
    decreases n,
{
    if n == 0 {
        names
    } else {
        let prev = twins_renamed(names, paths, (n - 1) as nat);
        let k = n - 1;
        if has_name_twin(prev, k) {
            match path_file_name(paths[k]) {
                Some(file_name) => prev.update(k, with_file_name(prev[k], file_name)),
                None => prev,
            }
        } else {
            prev
        }
    }
}

pub open spec fn match_names<P>(matches: Seq<MatchedDcpProfile<P>>) -> Seq<Seq<char>> {
    matches.map_values(|m: MatchedDcpProfile<P>| m.name@)
}

pub open spec fn match_paths<P>(matches: Seq<MatchedDcpProfile<P>>) -> Seq<Seq<char>> {
    matches.map_values(|m: MatchedDcpProfile<P>| m.path@)
}

fn name_has_twin<P>(matches: &Vec<MatchedDcpProfile<P>>, k: usize) -> (r: bool)
    requires
        k < matches@.len(),
    ensures
        r == has_name_twin(match_names(matches@), k as int),
{
    let name = chars_of(matches[k].name.as_str());
    let mut j: usize = 0;
    while j < matches.len()
        invariant
            k < matches@.len(),
            0 <= j <= matches@.len(),
            name@ == matches@[k as int].name@,
            forall|q: int|
                0 <= q < j && q != k ==> !#[trigger] eq_ignore_ascii_case(
                    match_names(matches@)[q],
                    match_names(matches@)[k as int],
                ),
        decreases matches@.len() - j,
    {
        if j != k {
            let other = chars_of(matches[j].name.as_str());
            if chars_eq_ignore_ascii_case(&other, &name) {
                proof {
                    assert(eq_ignore_ascii_case(match_names(matches@)[j as int], match_names(matches@)[k as int]));
                }
                return true;
            }
        }
        j += 1;
    }
    false
}

/// Appends the file name to each listed name that another match shares (up
/// to ASCII case), visiting the matches in order, so that the list can tell
/// them apart.
pub fn disambiguate_dcp_names<P>(matches: Vec<MatchedDcpProfile<P>>) -> (r: Vec<MatchedDcpProfile<P>>)
    ensures
        r@.len() == matches@.len(),
        forall|k: int|
            0 <= k < matches@.len() ==> (#[trigger] r@[k]).score == matches@[k].score && r@[k].path
                == matches@[k].path && r@[k].profile == matches@[k].profile,
        match_names(r@) == twins_renamed(match_names(matches@), match_paths(matches@), matches@.len()),
{
    let ghost input = matches@;
    let mut v = matches;
    let mut index: usize = 0;
    while index < v.len()
        invariant
            v@.len() == input.len(),
            0 <= index <= input.len(),
            forall|k: int|
                0 <= k < input.len() ==> (#[trigger] v@[k]).score == input[k].score && v@[k].path == input[k].path
                    && v@[k].profile == input[k].profile,
            match_names(v@) == twins_renamed(match_names(input), match_paths(input), index as nat),
        decreases input.len() - index,
    {
        let ghost prev = v@;
        proof {
            assert(match_paths(input)[index as int] == v@[index as int].path@);
        }
        if name_has_twin(&v, index) {
            match file_name_of(v[index].path.as_str()) {
                Some(file_name) => {
                    let mut entry = v.remove(index);
                    let mut joined = chars_of(entry.name.as_str());
                    let mut separator = chars_of(" \u{2014} ");
                    let mut tail = chars_of(file_name.as_str());
                    joined.append(&mut separator);
                    joined.append(&mut tail);
                    entry.name = string_from_chars(&joined);
                    v.insert(index, entry);
                    proof {
                        assert(v@ =~= prev.update(index as int, v@[index as int]));
                        assert(match_names(v@) =~= match_names(prev).update(
                            index as int,
                            with_file_name(match_names(prev)[index as int], file_name@),
                        ));
                    }
                },
                None => {},
            }
        }
        index += 1;
    }
    v
}

/// A path names a profile file: its extension is `dcp` in any ASCII case.
pub open spec fn spec_is_dcp_path(path: Seq<char>) -> bool {
    match path_extension(path) {
        Some(extension) => eq_ignore_ascii_case(extension, "dcp"@),
        None => false,
    }
}

pub fn is_dcp_path(path: &str) -> (r: bool)
    ensures
        r == spec_is_dcp_path(path@),
{
    match extension_of(path) {
        Some(extension) => chars_eq_ignore_ascii_case(&chars_of(extension.as_str()), &chars_of("dcp")),
        None => false,
    }
}

/// How far a profile-folder scan has got: the folder entries inspected.
#[derive(Clone, Copy, Debug, PartialEq, Eq, Structural)]
pub struct DcpScanState {
    pub scanned: usize,
}

/// What the file system reports of a folder entry: it could not be read,
/// or it is a folder, a symbolic link, a regular file or something else.
#[derive(Clone, Copy, Debug, PartialEq, Eq, Structural)]
pub enum DcpEntryKind {
    Unreadable,
    Directory,
    Symlink,
    File,
    Other,
}

/// What a scan does with a folder entry: stop scanning, skip it, queue a
/// folder at `depth`, or check the size of a profile file and read it.
#[derive(Clone, Copy, Debug, PartialEq, Eq, Structural)]
pub enum DcpScanAction {
    Stop,
    Skip,
    Descend { depth: usize },
    CheckSize,
}

/// A scan starts at the top folder with nothing inspected.
pub fn dcp_scan_start() -> (r: DcpScanState)
    ensures
        r.scanned == 0,
{
    DcpScanState { scanned: 0 }
}

/// A folder queued at `depth` is read only down to [`MAX_DCP_SCAN_DEPTH`].
pub fn dcp_scan_enters(depth: usize) -> (r: bool)
    ensures
        r == (depth <= MAX_DCP_SCAN_DEPTH),
{
    depth <= MAX_DCP_SCAN_DEPTH
}

/// The scan's decision on an entry of a folder at `depth`: once
/// [`MAX_DCP_SCAN_FILES`] entries were inspected the scan stops; otherwise
/// the entry counts as inspected, a folder (not a link) is queued one level
/// deeper, a regular file named `.dcp` (in any ASCII case) has its size
/// checked, and anything else is skipped.
pub open spec fn spec_dcp_scan_step(state: DcpScanState, depth: usize, kind: DcpEntryKind, path: Seq<char>) -> (
    DcpScanState,
    DcpScanAction,
) {
    if state.scanned >= MAX_DCP_SCAN_FILES {
        (state, DcpScanAction::Stop)
    } else {
        let next = DcpScanState { scanned: (state.scanned + 1) as usize };
        let action = match kind {
            DcpEntryKind::Directory => DcpScanAction::Descend { depth: (depth + 1) as usize },
            DcpEntryKind::File => if spec_is_dcp_path(path) {
                DcpScanAction::CheckSize
            } else {
                DcpScanAction::Skip
            },
            _ => DcpScanAction::Skip,
        };
        (next, action)
    }
}

pub fn dcp_scan_step(state: DcpScanState, depth: usize, kind: DcpEntryKind, path: &str) -> (r: (
    DcpScanState,
    DcpScanAction,
))
    requires
        depth <= MAX_DCP_SCAN_DEPTH,
    ensures
        r == spec_dcp_scan_step(state, depth, kind, path@),
{
    if state.scanned >= MAX_DCP_SCAN_FILES {
        return (state, DcpScanAction::Stop);
    }
    let next = DcpScanState { scanned: state.scanned + 1 };
    let action = match kind {
        DcpEntryKind::Directory => DcpScanAction::Descend { depth: depth + 1 },
        DcpEntryKind::File => if is_dcp_path(path) {
            DcpScanAction::CheckSize
        } else {
            DcpScanAction::Skip
        },
        _ => DcpScanAction::Skip,
    };
    (next, action)
}

/// A profile file is read when its size is known and within
/// `1..=MAX_DCP_FILE_BYTES`.
pub fn dcp_file_size_accepted(bytes: Option<u64>) -> (r: bool)
    ensures
        r == (bytes matches Some(b) && 0 < b <= MAX_DCP_FILE_BYTES),
{
    match bytes {
        Some(b) => 0 < b && b <= MAX_DCP_FILE_BYTES,
        None => false,
    }
}

/// What `Path::new(a) == Path::new(b)` returns for two paths given as
/// text: whether their components are the same.
pub uninterp spec fn same_path(a: Seq<char>, b: Seq<char>) -> bool;

/// Compares two paths with `Path`'s `==`, which compares their components;
/// equal texts are equal paths.
#[verifier::external_body]
fn paths_equal(a: &str, b: &str) -> (r: bool)
    ensures
        r == same_path(a@, b@),
        a@ == b@ ==> r,
{
    std::path::Path::new(a) == std::path::Path::new(b)
}

/// The first of the first `n` paths that is the same path as `requested`.
pub open spec fn first_same_path(paths: Seq<Seq<char>>, requested: Seq<char>, n: nat) -> Option<int>
    decreases n,
{
    if n == 0 {
        None
    } else {
        match first_same_path(paths, requested, (n - 1) as nat) {
            Some(i) => Some(i),
            None => if same_path(paths[n - 1], requested) {
                Some(n - 1)
            } else {
                None
            },
        }
    }
}

/// Which matched profile a RAW is developed with, by position in the
/// match list, and whether a requested profile was not among the matches.
#[derive(Clone, Copy, Debug, PartialEq, Eq, Structural)]
pub struct CameraProfileChoice {
    pub chosen: Option<usize>,
    pub requested_missing: bool,
}

/// The profile choice: never one in matrix-only mode; otherwise the
/// requested profile when it is among the matches, else, in DCP mode, the
/// best match.
pub open spec fn spec_choose_camera_profile(
    mode: CameraProfileMode,
    paths: Seq<Seq<char>>,
    requested: Option<Seq<char>>,
) -> CameraProfileChoice {
    let explicit = match requested {
        Some(path) => first_same_path(paths, path, paths.len()),
        None => None,
    };
    let chosen = if mode == CameraProfileMode::MatrixOnly {
        None
    } else {
        match explicit {
            Some(i) => Some(i as usize),
            None => if mode == CameraProfileMode::DcpProfiles && paths.len() > 0 {
                Some(0usize)
            } else {
                None
            },
        }
    };
    CameraProfileChoice { chosen, requested_missing: requested is Some && explicit is None }
}

pub fn choose_camera_profile<P>(
    mode: CameraProfileMode,
    matches: &Vec<MatchedDcpProfile<P>>,
    requested: Option<&str>,
) -> (r: CameraProfileChoice)
    ensures
        r == spec_choose_camera_profile(mode, match_paths(matches@), name_view(requested)),
{
    let ghost paths = match_paths(matches@);
    let mut explicit: Option<usize> = None;
    if let Some(path) = requested {
        let mut i: usize = 0;
        while i < matches.len()
            invariant
                0 <= i <= matches@.len(),
                paths == match_paths(matches@),
                explicit == (match first_same_path(paths, path@, i as nat) {
                    Some(k) => Some(k as usize),
                    None => None::<usize>,
                }),
                first_same_path(paths, path@, i as nat) matches Some(k) ==> 0 <= k < i,
            decreases matches@.len() - i,
        {
            if explicit.is_none() && paths_equal(matches[i].path.as_str(), path) {
                explicit = Some(i);
            }
            i += 1;
        }
    }
    let chosen = if mode == CameraProfileMode::MatrixOnly {
        None
    } else {
        match explicit {
            Some(i) => Some(i),
            None => if mode.prefers_external_dcp() && matches.len() > 0 {
                Some(0)
            } else {
                None
            },
        }
    };
    CameraProfileChoice { chosen, requested_missing: requested.is_some() && explicit.is_none() }
}

/// A profile that declares the camera, by its model or by its maker and
/// model together, is a candidate at the exact-declaration level: its
/// score is 1000, give or take the maker, look and monochrome adjustments
/// (at most 45 up, 30 down).
pub proof fn lemma_declared_camera_scores_exact(
    camera_model: Seq<char>,
    profile_name: Option<Seq<char>>,
    path: Seq<char>,
    make_key: Seq<char>,
    model_key: Seq<char>,
    combined_key: Seq<char>,
)
    requires
        camera_key(camera_model).len() > 0,
        camera_key(camera_model) == model_key || camera_key(camera_model) == combined_key,
    ensures
        970 <= spec_dcp_match_score(Some(camera_model), profile_name, path, make_key, model_key, combined_key) <= 1045,
{
}

/// A profile that declares no camera but whose file stem is the camera's
/// model or its maker and model together is a candidate at the file-name
/// level: its score is 700, give or take the same adjustments.
pub proof fn lemma_named_file_scores_by_stem(
    profile_name: Option<Seq<char>>,
    path: Seq<char>,
    make_key: Seq<char>,
    model_key: Seq<char>,
    combined_key: Seq<char>,
)
    requires
        optional_key(path_file_stem(path)) == model_key || optional_key(path_file_stem(path)) == combined_key,
    ensures
        670 <= spec_dcp_match_score(None, profile_name, path, make_key, model_key, combined_key) <= 745,
{
}

} // verus!
