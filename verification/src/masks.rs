//! Local masks: the kinds and modes, the mask images, and the mask stack
//! with its selection, insertion, deletion and reordering rules. A mask's
//! own settings, its adjustments and a component's geometry are carried as
//! type parameters and left untouched by the stack.
use crate::text::{append_decimal, decimal};
use vstd::prelude::*;
use vstd::string::StringExecFns;

verus! {

/// Masks in a stack.
pub const MAX_LOCAL_MASKS: usize = 32;
/// Components in a mask.
pub const MAX_MASK_COMPONENTS: usize = 64;
pub const MASK_ATLAS_EDGE_DESKTOP: u32 = 2048;
pub const MASK_ATLAS_EDGE_ANDROID: u32 = 1024;
pub const MASK_ATLAS_EDGE_EXPORT_DESKTOP: u32 = 4096;
pub const MASK_ATLAS_EDGE_EXPORT_ANDROID: u32 = 2048;

/// Edge of the interactive mask atlas.
pub fn mask_atlas_edge() -> (r: u32)
    ensures
        r == MASK_ATLAS_EDGE_DESKTOP,
{
    MASK_ATLAS_EDGE_DESKTOP
}

/// Largest edge of an export mask atlas.
pub fn export_mask_atlas_edge_limit() -> (r: u32)
    ensures
        r == MASK_ATLAS_EDGE_EXPORT_DESKTOP,
{
    MASK_ATLAS_EDGE_EXPORT_DESKTOP
}

/// Edge of the export mask atlas for an image: its longer edge, at most the
/// export limit and at least the interactive edge.
pub fn export_mask_atlas_edge(image_width: u32, image_height: u32) -> (r: u32)
    ensures
        ({
            let longer = if image_width >= image_height { image_width } else { image_height };
            let capped = if longer <= MASK_ATLAS_EDGE_EXPORT_DESKTOP { longer } else { MASK_ATLAS_EDGE_EXPORT_DESKTOP };
            r == if capped >= MASK_ATLAS_EDGE_DESKTOP { capped } else { MASK_ATLAS_EDGE_DESKTOP }
        }),
{
    let longer = if image_width >= image_height { image_width } else { image_height };
    let limit = export_mask_atlas_edge_limit();
    let capped = if longer <= limit { longer } else { limit };
    let floor = mask_atlas_edge();
    if capped >= floor { capped } else { floor }
}

#[derive(Clone, Copy, Debug, PartialEq, Eq, Structural)]
pub enum MaskKind {
    Brush,
    Fullscreen,
    Radial,
    Linear,
    Subject,
    Background,
    Object,
    LuminanceRange,
    ColorRange,
    DepthRange,
}

impl Default for MaskKind {
    fn default() -> (r: Self)
        ensures
            r == MaskKind::Brush,
    {
        MaskKind::Brush
    }
}

pub open spec fn mask_kind_label(kind: MaskKind) -> Seq<char> {
    match kind {
        MaskKind::Brush => "Brush"@,
        MaskKind::Fullscreen => "Fullscreen"@,
        MaskKind::Radial => "Radial Gradient"@,
        MaskKind::Linear => "Linear Gradient"@,
        MaskKind::Subject => "Select Subject"@,
        MaskKind::Background => "Select Not Subject"@,
        MaskKind::Object => "Select Object"@,
        MaskKind::LuminanceRange => "Luminance Range"@,
        MaskKind::ColorRange => "Color Range"@,
        MaskKind::DepthRange => "Depth Range"@,
    }
}

impl MaskKind {
    pub fn label(self) -> (r: &'static str)
        ensures
            r@ == mask_kind_label(self),
    {
        match self {
            MaskKind::Brush => "Brush",
            MaskKind::Fullscreen => "Fullscreen",
            MaskKind::Radial => "Radial Gradient",
            MaskKind::Linear => "Linear Gradient",
            MaskKind::Subject => "Select Subject",
            MaskKind::Background => "Select Not Subject",
            MaskKind::Object => "Select Object",
            MaskKind::LuminanceRange => "Luminance Range",
            MaskKind::ColorRange => "Color Range",
            MaskKind::DepthRange => "Depth Range",
        }
    }

    /// Every kind can be created except depth ranges.
    pub fn is_available(self) -> (r: bool)
        ensures
            r == (self != MaskKind::DepthRange),
    {
        match self {
            MaskKind::DepthRange => false,
            _ => true,
        }
    }
}

#[derive(Clone, Copy, Debug, PartialEq, Eq, Structural)]
pub enum MaskCombineMode {
    Add,
    Subtract,
    Intersect,
}

impl Default for MaskCombineMode {
    fn default() -> (r: Self)
        ensures
            r == MaskCombineMode::Add,
    {
        MaskCombineMode::Add
    }
}

impl MaskCombineMode {
    pub fn label(self) -> (r: &'static str)
        ensures
            r@ == (match self {
                MaskCombineMode::Add => "Add"@,
                MaskCombineMode::Subtract => "Subtract"@,
                MaskCombineMode::Intersect => "Intersect"@,
            }),
    {
        match self {
            MaskCombineMode::Add => "Add",
            MaskCombineMode::Subtract => "Subtract",
            MaskCombineMode::Intersect => "Intersect",
        }
    }
}

#[derive(Clone, Copy, Debug, PartialEq, Eq, Structural)]
pub enum BrushMode {
    Paint,
    Erase,
}

impl Default for BrushMode {
    fn default() -> (r: Self)
        ensures
            r == BrushMode::Paint,
    {
        BrushMode::Paint
    }
}

impl BrushMode {
    pub fn label(self) -> (r: &'static str)
        ensures
            r@ == (match self {
                BrushMode::Paint => "Brush"@,
                BrushMode::Erase => "Eraser"@,
            }),
    {
        match self {
            BrushMode::Paint => "Brush",
            BrushMode::Erase => "Eraser",
        }
    }
}

/// A single-channel mask image, one byte per pixel.
#[derive(Clone, Debug)]
pub struct MaskImage {
    pub width: u32,
    pub height: u32,
    pub pixels: Vec<u8>,
}

impl MaskImage {
    /// A mask image when `pixels` holds exactly one byte per pixel.
    pub fn new(width: u32, height: u32, pixels: Vec<u8>) -> (r: Option<Self>)
        ensures
            (width * height <= usize::MAX && pixels@.len() == width * height) <==> r is Some,
            r matches Some(image) ==> image.width == width && image.height == height && image.pixels@
                == pixels@,
    {
        let count = match (width as usize).checked_mul(height as usize) {
            Some(count) => count,
            None => return None,
        };
        if pixels.len() == count {
            Some(MaskImage { width, height, pixels })
        } else {
            None
        }
    }
}

/// An RGBA mask image, four bytes per pixel.
#[derive(Clone, Debug)]
pub struct MaskRgbImage {
    pub width: u32,
    pub height: u32,
    pub rgba: Vec<u8>,
}

impl MaskRgbImage {
    /// An RGBA image when `rgba` holds exactly four bytes per pixel.
    pub fn new(width: u32, height: u32, rgba: Vec<u8>) -> (r: Option<Self>)
        ensures
            (width * height * 4 <= usize::MAX && rgba@.len() == width * height * 4) <==> r is Some,
            r matches Some(image) ==> image.width == width && image.height == height && image.rgba@
                == rgba@,
    {
        let pixels = match (width as usize).checked_mul(height as usize) {
            Some(count) => count,
            None => {
                proof {
                    assert(width * height * 4 > usize::MAX) by (nonlinear_arith)
                        requires
                            width * height > usize::MAX,
                    ;
                }
                return None;
            },
        };
        let count = match pixels.checked_mul(4) {
            Some(count) => count,
            None => return None,
        };
        if rgba.len() == count {
            Some(MaskRgbImage { width, height, rgba })
        } else {
            None
        }
    }
}

/// Name, visibility and inversion shared by masks and their components.
#[derive(Clone, Debug, PartialEq)]
pub struct MaskCommon {
    pub name: String,
    pub enabled: bool,
    pub invert: bool,
}

impl MaskCommon {
    pub fn new(name: String) -> (r: Self)
        ensures
            r.name@ == name@,
            r.enabled,
            !r.invert,
    {
        MaskCommon { name, enabled: true, invert: false }
    }

    /// Renames; true when the name changed.
    pub fn rename(&mut self, name: String) -> (changed: bool)
        ensures
            changed == (old(self).name@ != name@),
            final(self).name@ == name@,
            final(self).enabled == old(self).enabled,
            final(self).invert == old(self).invert,
    {
        if self.name == name {
            false
        } else {
            self.name = name;
            true
        }
    }

    /// Shows or hides; true when that changed.
    pub fn set_enabled(&mut self, enabled: bool) -> (changed: bool)
        ensures
            changed == (old(self).enabled != enabled),
            final(self).enabled == enabled,
            final(self).name == old(self).name,
            final(self).invert == old(self).invert,
    {
        if self.enabled == enabled {
            false
        } else {
            self.enabled = enabled;
            true
        }
    }

    pub fn toggle_invert(&mut self)
        ensures
            final(self).invert == !old(self).invert,
            final(self).name == old(self).name,
            final(self).enabled == old(self).enabled,
    {
        self.invert = !self.invert;
    }
}

/// One component of a mask: its kind, how it combines with the components
/// before it, and its geometry.
#[derive(Clone, Debug, PartialEq)]
pub struct MaskComponent<G> {
    pub common: MaskCommon,
    pub kind: MaskKind,
    pub combine: MaskCombineMode,
    pub geometry: G,
}

impl<G> MaskComponent<G> {
    /// A visible, uninverted component named after its kind.
    pub fn new(kind: MaskKind, combine: MaskCombineMode, geometry: G) -> (r: Self)
        ensures
            r.common.name@ == mask_kind_label(kind),
            r.common.enabled,
            !r.common.invert,
            r.kind == kind,
            r.combine == combine,
            r.geometry == geometry,
    {
        MaskComponent {
            common: MaskCommon::new(String::from_str(kind.label())),
            kind,
            combine,
            geometry,
        }
    }

    /// Changes the combine mode; true when it changed.
    pub fn set_combine(&mut self, combine: MaskCombineMode) -> (changed: bool)
        ensures
            changed == (old(self).combine != combine),
            final(self).combine == combine,
            final(self).common == old(self).common,
            final(self).kind == old(self).kind,
            final(self).geometry == old(self).geometry,
    {
        if self.combine == combine {
            false
        } else {
            self.combine = combine;
            true
        }
    }
}

/// A mask: its shared properties, its own settings, its adjustments and
/// its components.
#[derive(Clone, Debug, PartialEq)]
pub struct LocalMask<S, A, G> {
    pub common: MaskCommon,
    pub settings: S,
    pub adjustments: A,
    pub components: Vec<MaskComponent<G>>,
}

/// The default name of mask `number`: `Mask N`.
pub open spec fn numbered_mask_name(number: nat) -> Seq<char> {
    "Mask "@ + decimal(number)
}

/// Names that the stack renumbers start with `Mask `.
pub open spec fn has_numbered_prefix(name: Seq<char>) -> bool {
    name.len() >= 5 && name.take(5) == "Mask "@
}

pub fn numbered_mask_name_string(number: u64) -> (r: String)
    ensures
        r@ == numbered_mask_name(number as nat),
{
    let mut name = String::from_str("Mask ");
    append_decimal(&mut name, number);
    name
}

impl<S, A, G> LocalMask<S, A, G> {
    /// Mask `number`: visible, uninverted, with one adding component of
    /// `kind`.
    pub fn new(kind: MaskKind, number: usize, settings: S, adjustments: A, geometry: G) -> (r: Self)
        ensures
            r.common.name@ == numbered_mask_name(number as nat),
            r.common.enabled,
            !r.common.invert,
            r.settings == settings,
            r.adjustments == adjustments,
            r.components@.len() == 1,
            r.components@[0].common.name@ == mask_kind_label(kind),
            r.components@[0].common.enabled,
            !r.components@[0].common.invert,
            r.components@[0].kind == kind,
            r.components@[0].combine == MaskCombineMode::Add,
            r.components@[0].geometry == geometry,
    {
        let mut components = Vec::new();
        components.push(MaskComponent::new(kind, MaskCombineMode::Add, geometry));
        LocalMask {
            common: MaskCommon::new(numbered_mask_name_string(number as u64)),
            settings,
            adjustments,
            components,
        }
    }
}

/// The index of the element at `selected` after moving the element at
/// `from` to `to`.
pub open spec fn spec_moved_index(selected: int, from: int, to: int) -> int {
    if selected == from {
        to
    } else if from < to && selected > from && selected <= to {
        selected - 1
    } else if from > to && selected >= to && selected < from {
        selected + 1
    } else {
        selected
    }
}

pub fn moved_index(selected: usize, from: usize, to: usize) -> (r: usize)
    ensures
        r == spec_moved_index(selected as int, from as int, to as int),
{
    if selected == from {
        to
    } else if from < to && selected > from && selected <= to {
        selected - 1
    } else if from > to && selected >= to && selected < from {
        selected + 1
    } else {
        selected
    }
}

/// The sequence after moving the element at `from` to position `to`.
pub open spec fn spec_move<T>(s: Seq<T>, from: int, to: int) -> Seq<T> {
    s.remove(from).insert(to, s[from])
}

/// After a move, the element that was at `i` is at `moved_index(i)`.
pub proof fn lemma_moved_index_tracks_element<T>(s: Seq<T>, from: int, to: int, i: int)
    requires
        0 <= from < s.len(),
        0 <= to < s.len(),
        0 <= i < s.len(),
    ensures
        0 <= spec_moved_index(i, from, to) < s.len(),
        spec_move(s, from, to)[spec_moved_index(i, from, to)] == s[i],
{
    let r = s.remove(from);
    assert(r.len() == s.len() - 1);
    let m = r.insert(to, s[from]);
    assert(m.len() == s.len());
}

/// Moving an element back to where it came from restores the sequence and
/// every tracked index.
pub proof fn lemma_move_round_trip<T>(s: Seq<T>, from: int, to: int, i: int)
    requires
        0 <= from < s.len(),
        0 <= to < s.len(),
        0 <= i < s.len(),
    ensures
        spec_move(spec_move(s, from, to), to, from) == s,
        spec_moved_index(spec_moved_index(i, from, to), to, from) == i,
{
    let m = spec_move(s, from, to);
    assert forall|k: int| 0 <= k < s.len() implies #[trigger] spec_move(m, to, from)[k] == s[k] by {
        let j = spec_moved_index(k, from, to);
        lemma_moved_index_tracks_element(s, from, to, k);
        lemma_moved_index_tracks_element(m, to, from, j);
        assert(spec_moved_index(j, to, from) == k);
    }
    assert(spec_move(m, to, from) =~= s);
}

/// The name of copy `number` of `base`: `base Copy`, then `base Copy N`.
pub open spec fn copy_candidate(base: Seq<char>, number: nat) -> Seq<char> {
    if number <= 1 {
        base + " Copy"@
    } else {
        base + " Copy "@ + decimal(number)
    }
}

/// Candidates tried for a copy's name.
pub const MAX_COPY_CANDIDATES: u64 = 10_000;

/// The first candidate from `number` on that no taken name equals, or
/// `base Copy` when all are taken.
pub open spec fn first_free_copy(base: Seq<char>, taken: Seq<Seq<char>>, number: nat) -> Seq<char>
    decreases MAX_COPY_CANDIDATES + 1 - number,
{
    if number > MAX_COPY_CANDIDATES {
        copy_candidate(base, 1)
    } else if !taken.contains(copy_candidate(base, number)) {
        copy_candidate(base, number)
    } else {
        first_free_copy(base, taken, number + 1)
    }
}

fn copy_candidate_string(base: &str, number: u64) -> (r: String)
    ensures
        r@ == copy_candidate(base@, number as nat),
{
    let mut name = String::from_str(base);
    if number <= 1 {
        name.append(" Copy");
    } else {
        name.append(" Copy ");
        append_decimal(&mut name, number);
    }
    name
}

fn is_taken(taken: &Vec<String>, candidate: &String) -> (r: bool)
    ensures
        r == taken@.map_values(|name: String| name@).contains(candidate@),
{
    let ghost names = taken@.map_values(|name: String| name@);
    let mut i: usize = 0;
    while i < taken.len()
        invariant
            0 <= i <= taken@.len(),
            names == taken@.map_values(|name: String| name@),
            forall|k: int| 0 <= k < i ==> names[k] != candidate@,
        decreases taken@.len() - i,
    {
        if taken[i] == *candidate {
            proof {
                assert(names[i as int] == candidate@);
            }
            return true;
        }
        i += 1;
    }
    false
}

/// The name for a copy of `base`: the first of `base Copy`, `base Copy 2`,
/// ... `base Copy 10000` that no name in `taken` equals, or `base Copy`.
pub fn copied_name(base: &str, taken: &Vec<String>) -> (r: String)
    ensures
        r@ == first_free_copy(base@, taken@.map_values(|name: String| name@), 1),
{
    let ghost names = taken@.map_values(|name: String| name@);
    let mut number: u64 = 1;
    while number <= MAX_COPY_CANDIDATES
        invariant
            1 <= number <= MAX_COPY_CANDIDATES + 1,
            names == taken@.map_values(|name: String| name@),
            first_free_copy(base@, names, number as nat) == first_free_copy(base@, names, 1),
        decreases MAX_COPY_CANDIDATES + 1 - number,
    {
        let candidate = copy_candidate_string(base, number);
        if !is_taken(taken, &candidate) {
            return candidate;
        }
        number += 1;
    }
    copy_candidate_string(base, 1)
}


/// The masks of an image and the selected mask and component.
#[derive(Clone, Debug)]
pub struct MaskStack<S, A, G> {
    pub masks: Vec<LocalMask<S, A, G>>,
    pub selected_mask: Option<usize>,
    pub selected_component: Option<usize>,
}

/// Two masks agree in everything but their components.
pub open spec fn same_but_components<S, A, G>(a: LocalMask<S, A, G>, b: LocalMask<S, A, G>) -> bool {
    &&& a.common == b.common
    &&& a.settings == b.settings
    &&& a.adjustments == b.adjustments
}

/// The names of masks.
pub open spec fn mask_names<S, A, G>(masks: Seq<LocalMask<S, A, G>>) -> Seq<Seq<char>> {
    masks.map_values(|mask: LocalMask<S, A, G>| mask.common.name@)
}

/// The names of components.
pub open spec fn component_names<G>(components: Seq<MaskComponent<G>>) -> Seq<Seq<char>> {
    components.map_values(|component: MaskComponent<G>| component.common.name@)
}

/// Mask `after` is mask `before` at position `i` after renumbering: a name
/// that starts with `Mask ` becomes `Mask i+1`; nothing else changes.
pub open spec fn renamed_at<S, A, G>(before: LocalMask<S, A, G>, after: LocalMask<S, A, G>, i: int) -> bool {
    &&& after.settings == before.settings
    &&& after.adjustments == before.adjustments
    &&& after.components == before.components
    &&& after.common.enabled == before.common.enabled
    &&& after.common.invert == before.common.invert
    &&& after.common.name@ == if has_numbered_prefix(before.common.name@) {
        numbered_mask_name((i + 1) as nat)
    } else {
        before.common.name@
    }
}

/// The masks after a deletion, renumbered position by position.
pub open spec fn renumbered<S, A, G>(before: Seq<LocalMask<S, A, G>>, after: Seq<LocalMask<S, A, G>>) -> bool {
    &&& after.len() == before.len()
    &&& forall|i: int| 0 <= i < before.len() ==> #[trigger] renamed_at(before[i], after[i], i)
}

fn has_mask_prefix(name: &String) -> (r: bool)
    ensures
        r == has_numbered_prefix(name@),
{
    let chars = crate::text::chars_of(name.as_str());
    let prefix = crate::text::chars_of("Mask ");
    proof {
        reveal_strlit("Mask ");
    }
    if chars.len() < 5 {
        return false;
    }
    let mut i: usize = 0;
    while i < 5
        invariant
            0 <= i <= 5,
            chars@ == name@,
            chars@.len() >= 5,
            prefix@ == "Mask "@,
            prefix@.len() == 5,
            forall|k: int| 0 <= k < i ==> chars@[k] == prefix@[k],
        decreases 5 - i,
    {
        if chars[i] != prefix[i] {
            proof {
                assert(name@.take(5)[i as int] != "Mask "@[i as int]);
            }
            return false;
        }
        i += 1;
    }
    proof {
        assert(name@.take(5) =~= "Mask "@);
    }
    true
}

fn names_of_masks<S, A, G>(masks: &Vec<LocalMask<S, A, G>>) -> (r: Vec<String>)
    ensures
        r@.map_values(|name: String| name@) == mask_names(masks@),
{
    let mut names: Vec<String> = Vec::new();
    let mut i: usize = 0;
    while i < masks.len()
        invariant
            0 <= i <= masks@.len(),
            names@.len() == i,
            forall|k: int| 0 <= k < i ==> #[trigger] names@[k]@ == masks@[k].common.name@,
        decreases masks@.len() - i,
    {
        names.push(masks[i].common.name.clone());
        i += 1;
    }
    proof {
        assert(names@.map_values(|name: String| name@) =~= mask_names(masks@));
    }
    names
}

fn names_of_components<G>(components: &Vec<MaskComponent<G>>) -> (r: Vec<String>)
    ensures
        r@.map_values(|name: String| name@) == component_names(components@),
{
    let mut names: Vec<String> = Vec::new();
    let mut i: usize = 0;
    while i < components.len()
        invariant
            0 <= i <= components@.len(),
            names@.len() == i,
            forall|k: int| 0 <= k < i ==> #[trigger] names@[k]@ == components@[k].common.name@,
        decreases components@.len() - i,
    {
        names.push(components[i].common.name.clone());
        i += 1;
    }
    proof {
        assert(names@.map_values(|name: String| name@) =~= component_names(components@));
    }
    names
}

impl<S, A, G> MaskStack<S, A, G> {
    /// The selection names an existing mask and, within it, an existing
    /// component or none; no component is selected without a mask.
    pub open spec fn selection_valid(&self) -> bool {
        match self.selected_mask {
            Some(m) => m < self.masks@.len() && (self.selected_component matches Some(c) ==> c
                < self.masks@[m as int].components@.len()),
            None => self.selected_component is None,
        }
    }

    pub open spec fn component_count(&self, m: int) -> nat {
        self.masks@[m].components@.len()
    }

    /// A component of `kind` can be added to the selected mask.
    pub open spec fn can_add_component(&self, kind: MaskKind) -> bool {
        kind != MaskKind::DepthRange && match self.selected_mask {
            Some(m) => m < self.masks@.len() && self.component_count(m as int) < MAX_MASK_COMPONENTS,
            None => false,
        }
    }

    /// Component `from` of the selected mask can move to `to`.
    pub open spec fn can_move_component(&self, from: int, to: int) -> bool {
        match self.selected_mask {
            Some(m) => m < self.masks@.len() && from != to && 0 <= from < self.component_count(m as int) && 0
                <= to < self.component_count(m as int),
            None => false,
        }
    }

    /// An empty stack with nothing selected.
    pub fn new() -> (r: Self)
        ensures
            r.masks@.len() == 0,
            r.selected_mask is None,
            r.selected_component is None,
    {
        MaskStack { masks: Vec::new(), selected_mask: None, selected_component: None }
    }

    /// Removes every mask and the selection.
    pub fn clear(&mut self)
        ensures
            final(self).masks@.len() == 0,
            final(self).selected_mask is None,
            final(self).selected_component is None,
    {
        self.masks = Vec::new();
        self.selected_mask = None;
        self.selected_component = None;
    }

    /// Selects mask `mask_index` and its first component, if the mask
    /// exists.
    pub fn select_mask(&mut self, mask_index: usize) -> (r: bool)
        ensures
            r == (mask_index < old(self).masks@.len()),
            final(self).masks == old(self).masks,
            r ==> final(self).selected_mask == Some(mask_index) && final(self).selected_component == (if old(self).component_count(mask_index as int) > 0 {
                Some(0usize)
            } else {
                None
            }),
            !r ==> final(self).selected_mask == old(self).selected_mask && final(self).selected_component
                == old(self).selected_component,
            r ==> final(self).selection_valid(),
            old(self).selection_valid() ==> final(self).selection_valid(),
    {
        if mask_index >= self.masks.len() {
            return false;
        }
        self.selected_mask = Some(mask_index);
        self.selected_component = if self.masks[mask_index].components.len() > 0 {
            Some(0)
        } else {
            None
        };
        true
    }

    /// Selects a component, if it exists.
    pub fn select_component(&mut self, mask_index: usize, component_index: usize) -> (r: bool)
        ensures
            r == (mask_index < old(self).masks@.len() && component_index < old(self).component_count(
                mask_index as int,
            )),
            final(self).masks == old(self).masks,
            r ==> final(self).selected_mask == Some(mask_index) && final(self).selected_component == Some(
                component_index,
            ),
            !r ==> final(self).selected_mask == old(self).selected_mask && final(self).selected_component
                == old(self).selected_component,
            old(self).selection_valid() ==> final(self).selection_valid(),
    {
        if mask_index >= self.masks.len() || component_index >= self.masks[mask_index].components.len() {
            return false;
        }
        self.selected_mask = Some(mask_index);
        self.selected_component = Some(component_index);
        true
    }

    /// The selected mask, if the selection names one.
    pub fn selected_mask(&self) -> (r: Option<&LocalMask<S, A, G>>)
        ensures
            r == (match self.selected_mask {
                Some(m) => if m < self.masks@.len() {
                    Some(&self.masks@[m as int])
                } else {
                    None
                },
                None => None,
            }),
    {
        match self.selected_mask {
            Some(m) => if m < self.masks.len() {
                Some(&self.masks[m])
            } else {
                None
            },
            None => None,
        }
    }

    /// The selected component, if the selection names one.
    pub fn selected_component(&self) -> (r: Option<&MaskComponent<G>>)
        ensures
            r == (match (self.selected_mask, self.selected_component) {
                (Some(m), Some(c)) => if m < self.masks@.len() && c < self.component_count(m as int) {
                    Some(&self.masks@[m as int].components@[c as int])
                } else {
                    None
                },
                _ => None,
            }),
    {
        match (self.selected_mask, self.selected_component) {
            (Some(m), Some(c)) => if m < self.masks.len() && c < self.masks[m].components.len() {
                Some(&self.masks[m].components[c])
            } else {
                None
            },
            _ => None,
        }
    }

    /// Makes the selection valid: the selected mask, or the last one when
    /// it is out of range; the selected component, or the first when it is
    /// out of range. Gives the selection when a component is selected.
    pub fn ensure_selection(&mut self) -> (r: Option<(usize, usize)>)
        ensures
            final(self).masks == old(self).masks,
            final(self).selection_valid(),
            old(self).masks@.len() == 0 ==> r is None && final(self).selected_mask is None,
            old(self).masks@.len() > 0 ==> ({
                let m = match old(self).selected_mask {
                    Some(i) => if i < old(self).masks@.len() {
                        i as int
                    } else {
                        old(self).masks@.len() - 1
                    },
                    None => old(self).masks@.len() - 1,
                };
                let count = old(self).component_count(m);
                let c = match old(self).selected_component {
                    Some(j) => if j < count {
                        j as int
                    } else {
                        0
                    },
                    None => 0,
                };
                &&& final(self).selected_mask == Some(m as usize)
                &&& count == 0 ==> r is None && final(self).selected_component is None
                &&& count > 0 ==> r == Some((m as usize, c as usize)) && final(self).selected_component
                    == Some(c as usize)
            }),
    {
        if self.masks.len() == 0 {
            self.selected_mask = None;
            self.selected_component = None;
            return None;
        }
        let mask_index = match self.selected_mask {
            Some(i) => if i < self.masks.len() {
                i
            } else {
                self.masks.len() - 1
            },
            None => self.masks.len() - 1,
        };
        let count = self.masks[mask_index].components.len();
        if count == 0 {
            self.selected_mask = Some(mask_index);
            self.selected_component = None;
            return None;
        }
        let component_index = match self.selected_component {
            Some(j) => if j < count {
                j
            } else {
                0
            },
            None => 0,
        };
        self.selected_mask = Some(mask_index);
        self.selected_component = Some(component_index);
        Some((mask_index, component_index))
    }

    /// Appends mask `len + 1` with one component of `kind` and selects it;
    /// refused for a full stack or a kind that cannot be created.
    pub fn add_mask(&mut self, kind: MaskKind, settings: S, adjustments: A, geometry: G) -> (r: Option<
        (usize, usize),
    >)
        ensures
            (old(self).masks@.len() < MAX_LOCAL_MASKS && kind != MaskKind::DepthRange) <==> r is Some,
            r is None ==> final(self).masks == old(self).masks && final(self).selected_mask == old(self).selected_mask && final(self).selected_component == old(self).selected_component,
            r is Some ==> {
                let n = old(self).masks@.len();
                let added = final(self).masks@[n as int];
                &&& r == Some((n as usize, 0usize))
                &&& final(self).masks@.len() == n + 1
                &&& final(self).masks@.subrange(0, n as int) == old(self).masks@
                &&& added.common.name@ == numbered_mask_name(n + 1)
                &&& added.common.enabled && !added.common.invert
                &&& added.settings == settings && added.adjustments == adjustments
                &&& added.components@.len() == 1
                &&& added.components@[0].kind == kind
                &&& added.components@[0].combine == MaskCombineMode::Add
                &&& added.components@[0].geometry == geometry
                &&& added.components@[0].common.name@ == mask_kind_label(kind)
                &&& final(self).selected_mask == Some(n as usize)
                &&& final(self).selected_component == Some(0usize)
            },
            old(self).selection_valid() ==> final(self).selection_valid(),
    {
        if self.masks.len() >= MAX_LOCAL_MASKS || !kind.is_available() {
            return None;
        }
        let mask_index = self.masks.len();
        self.masks.push(LocalMask::new(kind, mask_index + 1, settings, adjustments, geometry));
        self.selected_mask = Some(mask_index);
        self.selected_component = Some(0);
        proof {
            assert(self.masks@.subrange(0, mask_index as int) =~= old(self).masks@);
        }
        Some((mask_index, 0))
    }

    /// Appends a component to the selected mask and selects it; refused for
    /// a kind that cannot be created, without a selected mask, or for a full
    /// mask.
    pub fn add_component(&mut self, kind: MaskKind, combine: MaskCombineMode, geometry: G) -> (r: Option<
        (usize, usize),
    >)
        ensures
            old(self).can_add_component(kind) <==> r is Some,
            r is None ==> final(self).masks == old(self).masks && final(self).selected_mask == old(self).selected_mask && final(self).selected_component == old(self).selected_component,
            r matches Some((m, c)) ==> {
                &&& old(self).selected_mask == Some(m)
                &&& c == old(self).component_count(m as int)
                &&& final(self).masks@.len() == old(self).masks@.len()
                &&& forall|i: int| 0 <= i < old(self).masks@.len() && i != m ==> final(self).masks@[i] == old(self).masks@[i]
                &&& same_but_components(final(self).masks@[m as int], old(self).masks@[m as int])
                &&& final(self).masks@[m as int].components@.len() == c + 1
                &&& final(self).masks@[m as int].components@.subrange(0, c as int) == old(self).masks@[m as int].components@
                &&& final(self).masks@[m as int].components@[c as int].kind == kind
                &&& final(self).masks@[m as int].components@[c as int].combine == combine
                &&& final(self).masks@[m as int].components@[c as int].geometry == geometry
                &&& final(self).masks@[m as int].components@[c as int].common.name@ == mask_kind_label(kind)
                &&& final(self).selected_mask == Some(m)
                &&& final(self).selected_component == Some(c)
            },
            old(self).selection_valid() ==> final(self).selection_valid(),
    {
        if !kind.is_available() {
            return None;
        }
        let mask_index = match self.selected_mask {
            Some(m) => m,
            None => return None,
        };
        if mask_index >= self.masks.len() {
            return None;
        }
        if self.masks[mask_index].components.len() >= MAX_MASK_COMPONENTS {
            return None;
        }
        let ghost before = self.masks@;
        let mut mask = self.masks.remove(mask_index);
        let component_index = mask.components.len();
        mask.components.push(MaskComponent::new(kind, combine, geometry));
        self.masks.insert(mask_index, mask);
        self.selected_component = Some(component_index);
        proof {
            assert forall|i: int| 0 <= i < before.len() && i != mask_index implies self.masks@[i] == before[i] by {
                if i < mask_index {
                    assert(self.masks@[i] == before.remove(mask_index as int)[i]);
                } else {
                    assert(self.masks@[i] == before.remove(mask_index as int)[i - 1]);
                }
            }
            assert(self.masks@[mask_index as int].components@.subrange(0, component_index as int)
                =~= before[mask_index as int].components@);
        }
        Some((mask_index, component_index))
    }

    /// Moves mask `from` to position `to`; the selection follows the mask it
    /// named.
    pub fn move_mask(&mut self, from: usize, to: usize) -> (r: bool)
        ensures
            r == (from != to && from < old(self).masks@.len() && to < old(self).masks@.len()),
            r ==> final(self).masks@ == spec_move(old(self).masks@, from as int, to as int),
            r ==> final(self).selected_mask == (match old(self).selected_mask {
                Some(s) => Some(spec_moved_index(s as int, from as int, to as int) as usize),
                None => None,
            }),
            final(self).selected_component == old(self).selected_component,
            !r ==> final(self).masks == old(self).masks && final(self).selected_mask == old(self).selected_mask,
            old(self).selection_valid() ==> final(self).selection_valid(),
    {
        if from == to || from >= self.masks.len() || to >= self.masks.len() {
            return false;
        }
        let mask = self.masks.remove(from);
        self.masks.insert(to, mask);
        self.selected_mask = match self.selected_mask {
            Some(selected) => Some(moved_index(selected, from, to)),
            None => None,
        };
        proof {
            if old(self).selection_valid() {
                if let Some(s) = old(self).selected_mask {
                    lemma_moved_index_tracks_element(old(self).masks@, from as int, to as int, s as int);
                }
            }
        }
        true
    }

    /// Moves component `from` of the selected mask to position `to`; the
    /// component selection follows the component it named.
    pub fn move_component(&mut self, from: usize, to: usize) -> (r: bool)
        ensures
            r == old(self).can_move_component(from as int, to as int),
            r ==> ({
                let m = old(self).selected_mask->Some_0 as int;
                &&& final(self).masks@.len() == old(self).masks@.len()
                &&& forall|i: int| 0 <= i < old(self).masks@.len() && i != m ==> final(self).masks@[i] == old(self).masks@[i]
                &&& same_but_components(final(self).masks@[m], old(self).masks@[m])
                &&& final(self).masks@[m].components@ == spec_move(
                    old(self).masks@[m].components@,
                    from as int,
                    to as int,
                )
                &&& final(self).selected_component == (match old(self).selected_component {
                    Some(s) => Some(spec_moved_index(s as int, from as int, to as int) as usize),
                    None => None,
                })
            }),
            !r ==> final(self).masks == old(self).masks && final(self).selected_component == old(self).selected_component,
            final(self).selected_mask == old(self).selected_mask,
            old(self).selection_valid() ==> final(self).selection_valid(),
    {
        let mask_index = match self.selected_mask {
            Some(m) => m,
            None => return false,
        };
        if mask_index >= self.masks.len() {
            return false;
        }
        let count = self.masks[mask_index].components.len();
        if from == to || from >= count || to >= count {
            return false;
        }
        let ghost before = self.masks@;
        let mut mask = self.masks.remove(mask_index);
        let component = mask.components.remove(from);
        mask.components.insert(to, component);
        self.masks.insert(mask_index, mask);
        self.selected_component = match self.selected_component {
            Some(selected) => Some(moved_index(selected, from, to)),
            None => None,
        };
        proof {
            assert forall|i: int| 0 <= i < before.len() && i != mask_index implies self.masks@[i] == before[i] by {
                if i < mask_index {
                    assert(self.masks@[i] == before.remove(mask_index as int)[i]);
                } else {
                    assert(self.masks@[i] == before.remove(mask_index as int)[i - 1]);
                }
            }
            if old(self).selection_valid() {
                if let Some(s) = old(self).selected_component {
                    lemma_moved_index_tracks_element(
                        before[mask_index as int].components@,
                        from as int,
                        to as int,
                        s as int,
                    );
                }
            }
        }
        true
    }

    /// Deletes mask `mask_index`, renumbers the masks named `Mask ...` by
    /// position, and selects the mask now at that position (or the last).
    pub fn delete_mask(&mut self, mask_index: usize) -> (r: bool)
        ensures
            r == (mask_index < old(self).masks@.len()),
            !r ==> final(self).masks == old(self).masks && final(self).selected_mask == old(self).selected_mask
                && final(self).selected_component == old(self).selected_component,
            r ==> renumbered(old(self).masks@.remove(mask_index as int), final(self).masks@),
            r && final(self).masks@.len() == 0 ==> final(self).selected_mask is None
                && final(self).selected_component is None,
            r && final(self).masks@.len() > 0 ==> ({
                let m = if mask_index < final(self).masks@.len() { mask_index } else { (final(self).masks@.len() - 1) as usize };
                &&& final(self).selected_mask == Some(m)
                &&& final(self).selected_component == (if final(self).component_count(m as int) > 0 { Some(0usize) } else { None })
            }),
            r ==> final(self).selection_valid(),
            old(self).selection_valid() ==> final(self).selection_valid(),
    {
        if mask_index >= self.masks.len() {
            return false;
        }
        self.masks.remove(mask_index);
        let ghost removed = self.masks@;
        let n = self.masks.len();
        let mut i: usize = 0;
        while i < n
            invariant
                n == removed.len(),
                self.masks@.len() == n,
                0 <= i <= n,
                forall|k: int| 0 <= k < i ==> #[trigger] renamed_at(removed[k], self.masks@[k], k),
                forall|k: int| i <= k < n ==> #[trigger] self.masks@[k] == removed[k],
            decreases n - i,
        {
            let ghost before = self.masks@;
            let mut mask = self.masks.remove(i);
            if has_mask_prefix(&mask.common.name) {
                mask.common.name = numbered_mask_name_string((i + 1) as u64);
            }
            self.masks.insert(i, mask);
            proof {
                assert forall|k: int| 0 <= k < n && k != i implies #[trigger] self.masks@[k] == before[k] by {
                    if k < i {
                        assert(self.masks@[k] == before.remove(i as int)[k]);
                    } else {
                        assert(self.masks@[k] == before.remove(i as int)[k - 1]);
                    }
                }
                assert(renamed_at(removed[i as int], self.masks@[i as int], i as int));
            }
            i += 1;
        }
        if self.masks.len() == 0 {
            self.selected_mask = None;
            self.selected_component = None;
        } else {
            let target = if mask_index < self.masks.len() { mask_index } else { self.masks.len() - 1 };
            self.select_mask(target);
        }
        true
    }

    /// Deletes a component of a mask with more than one, and selects the
    /// component now at that position (or the last).
    pub fn delete_component(&mut self, mask_index: usize, component_index: usize) -> (r: bool)
        ensures
            r == (mask_index < old(self).masks@.len() && old(self).component_count(mask_index as int) > 1
                && component_index < old(self).component_count(mask_index as int)),
            !r ==> final(self).masks == old(self).masks && final(self).selected_mask == old(self).selected_mask
                && final(self).selected_component == old(self).selected_component,
            r ==> ({
                let m = mask_index as int;
                let remaining = old(self).component_count(m) - 1;
                &&& final(self).masks@.len() == old(self).masks@.len()
                &&& forall|i: int| 0 <= i < old(self).masks@.len() && i != m ==> final(self).masks@[i] == old(self).masks@[i]
                &&& same_but_components(final(self).masks@[m], old(self).masks@[m])
                &&& final(self).masks@[m].components@ == old(self).masks@[m].components@.remove(component_index as int)
                &&& final(self).selected_mask == Some(mask_index)
                &&& final(self).selected_component == Some(
                    (if component_index < remaining { component_index as int } else { remaining - 1 }) as usize,
                )
            }),
            r ==> final(self).selection_valid(),
            old(self).selection_valid() ==> final(self).selection_valid(),
    {
        if mask_index >= self.masks.len() {
            return false;
        }
        let count = self.masks[mask_index].components.len();
        if count <= 1 || component_index >= count {
            return false;
        }
        let ghost before = self.masks@;
        let mut mask = self.masks.remove(mask_index);
        mask.components.remove(component_index);
        let remaining = mask.components.len();
        self.masks.insert(mask_index, mask);
        self.selected_mask = Some(mask_index);
        self.selected_component = Some(if component_index < remaining { component_index } else { remaining - 1 });
        proof {
            assert forall|i: int| 0 <= i < before.len() && i != mask_index implies self.masks@[i] == before[i] by {
                if i < mask_index {
                    assert(self.masks@[i] == before.remove(mask_index as int)[i]);
                } else {
                    assert(self.masks@[i] == before.remove(mask_index as int)[i - 1]);
                }
            }
        }
        true
    }

    /// Inserts a copy of a mask after mask `mask_index` under a fresh copy
    /// name and selects it; an inverted copy also gets `neutral`
    /// adjustments. Refused for a full stack or a missing mask.
    pub fn insert_mask_copy(&mut self, mask_index: usize, mask: LocalMask<S, A, G>, invert: bool, neutral: A) -> (r:
        bool)
        ensures
            r == (old(self).masks@.len() < MAX_LOCAL_MASKS && mask_index < old(self).masks@.len()),
            !r ==> final(self).masks == old(self).masks && final(self).selected_mask == old(self).selected_mask
                && final(self).selected_component == old(self).selected_component,
            r ==> ({
                let at = mask_index + 1;
                let copy = final(self).masks@[at];
                &&& final(self).masks@.len() == old(self).masks@.len() + 1
                &&& final(self).masks@.remove(at) == old(self).masks@
                &&& copy.common.name@ == first_free_copy(mask.common.name@, mask_names(old(self).masks@), 1)
                &&& copy.common.enabled == mask.common.enabled
                &&& copy.common.invert == (mask.common.invert != invert)
                &&& copy.settings == mask.settings
                &&& copy.adjustments == (if invert { neutral } else { mask.adjustments })
                &&& copy.components == mask.components
                &&& final(self).selected_mask == Some(at as usize)
                &&& final(self).selected_component == (if copy.components@.len() > 0 { Some(0usize) } else { None })
            }),
            r ==> final(self).selection_valid(),
            old(self).selection_valid() ==> final(self).selection_valid(),
    {
        if self.masks.len() >= MAX_LOCAL_MASKS || mask_index >= self.masks.len() {
            return false;
        }
        let mut mask = mask;
        let taken = names_of_masks(&self.masks);
        mask.common.name = copied_name(mask.common.name.as_str(), &taken);
        if invert {
            mask.common.invert = !mask.common.invert;
            mask.adjustments = neutral;
        }
        let insert_at = mask_index + 1;
        self.masks.insert(insert_at, mask);
        proof {
            assert(self.masks@.remove(insert_at as int) =~= old(self).masks@);
        }
        self.select_mask(insert_at);
        true
    }

    /// Inserts a copy of a component after component `component_index` of
    /// mask `mask_index` under a fresh copy name and selects it. Refused
    /// for a missing mask or component, or a full mask.
    pub fn insert_component_copy(
        &mut self,
        mask_index: usize,
        component_index: usize,
        component: MaskComponent<G>,
        invert: bool,
    ) -> (r: bool)
        ensures
            r == (mask_index < old(self).masks@.len() && old(self).component_count(mask_index as int)
                < MAX_MASK_COMPONENTS && component_index < old(self).component_count(mask_index as int)),
            !r ==> final(self).masks == old(self).masks && final(self).selected_mask == old(self).selected_mask
                && final(self).selected_component == old(self).selected_component,
            r ==> ({
                let m = mask_index as int;
                let at = component_index + 1;
                let copy = final(self).masks@[m].components@[at];
                &&& final(self).masks@.len() == old(self).masks@.len()
                &&& forall|i: int| 0 <= i < old(self).masks@.len() && i != m ==> final(self).masks@[i] == old(self).masks@[i]
                &&& same_but_components(final(self).masks@[m], old(self).masks@[m])
                &&& final(self).masks@[m].components@.len() == old(self).component_count(m) + 1
                &&& final(self).masks@[m].components@.remove(at) == old(self).masks@[m].components@
                &&& copy.common.name@ == first_free_copy(
                    component.common.name@,
                    component_names(old(self).masks@[m].components@),
                    1,
                )
                &&& copy.common.enabled == component.common.enabled
                &&& copy.common.invert == (component.common.invert != invert)
                &&& copy.kind == component.kind
                &&& copy.combine == component.combine
                &&& copy.geometry == component.geometry
                &&& final(self).selected_mask == Some(mask_index)
                &&& final(self).selected_component == Some(at as usize)
            }),
            r ==> final(self).selection_valid(),
            old(self).selection_valid() ==> final(self).selection_valid(),
    {
        if mask_index >= self.masks.len() {
            return false;
        }
        let count = self.masks[mask_index].components.len();
        if count >= MAX_MASK_COMPONENTS || component_index >= count {
            return false;
        }
        let mut component = component;
        let taken = names_of_components(&self.masks[mask_index].components);
        component.common.name = copied_name(component.common.name.as_str(), &taken);
        if invert {
            component.common.invert = !component.common.invert;
        }
        let ghost before = self.masks@;
        let mut mask = self.masks.remove(mask_index);
        let insert_at = component_index + 1;
        mask.components.insert(insert_at, component);
        self.masks.insert(mask_index, mask);
        self.selected_mask = Some(mask_index);
        self.selected_component = Some(insert_at);
        proof {
            assert forall|i: int| 0 <= i < before.len() && i != mask_index implies self.masks@[i] == before[i] by {
                if i < mask_index {
                    assert(self.masks@[i] == before.remove(mask_index as int)[i]);
                } else {
                    assert(self.masks@[i] == before.remove(mask_index as int)[i - 1]);
                }
            }
            assert(self.masks@[mask_index as int].components@.remove(insert_at as int) =~= before[mask_index as int].components@);
        }
        true
    }
}

/// `b` is a copy of `a`: the same shared properties, kind and combine mode,
/// and a geometry that `G`'s `clone` gives for `a`'s.
pub open spec fn component_copied<G: Clone>(a: MaskComponent<G>, b: MaskComponent<G>) -> bool {
    &&& b.common == a.common
    &&& b.kind == a.kind
    &&& b.combine == a.combine
    &&& cloned::<G>(a.geometry, b.geometry)
}

/// `b` is a copy of the components `a`, element by element.
pub open spec fn components_copied<G: Clone>(a: Seq<MaskComponent<G>>, b: Seq<MaskComponent<G>>) -> bool {
    &&& b.len() == a.len()
    &&& forall|i: int| 0 <= i < a.len() ==> #[trigger] component_copied(a[i], b[i])
}

impl MaskCommon {
    /// An equal copy.
    pub fn duplicate(&self) -> (r: Self)
        ensures
            r == *self,
    {
        MaskCommon { name: self.name.clone(), enabled: self.enabled, invert: self.invert }
    }
}

impl<G: Clone> MaskComponent<G> {
    /// A copy of this component.
    pub fn duplicate(&self) -> (r: Self)
        ensures
            component_copied(*self, r),
    {
        MaskComponent {
            common: self.common.duplicate(),
            kind: self.kind,
            combine: self.combine,
            geometry: self.geometry.clone(),
        }
    }
}

fn duplicate_components<G: Clone>(components: &Vec<MaskComponent<G>>) -> (r: Vec<MaskComponent<G>>)
    ensures
        components_copied(components@, r@),
{
    let mut copies: Vec<MaskComponent<G>> = Vec::new();
    let mut i: usize = 0;
    while i < components.len()
        invariant
            i <= components@.len(),
            copies@.len() == i,
            forall|j: int| 0 <= j < i ==> #[trigger] component_copied(components@[j], copies@[j]),
        decreases components@.len() - i,
    {
        copies.push(components[i].duplicate());
        i = i + 1;
    }
    copies
}

impl<S: Clone, A: Clone, G: Clone> LocalMask<S, A, G> {
    /// A copy of this mask: its shared properties and components copied,
    /// its settings and adjustments as their `clone` gives them.
    pub fn duplicate(&self) -> (r: Self)
        ensures
            r.common == self.common,
            cloned::<S>(self.settings, r.settings),
            cloned::<A>(self.adjustments, r.adjustments),
            components_copied(self.components@, r.components@),
    {
        LocalMask {
            common: self.common.duplicate(),
            settings: self.settings.clone(),
            adjustments: self.adjustments.clone(),
            components: duplicate_components(&self.components),
        }
    }
}

impl<S: Clone, A: Clone, G: Clone> MaskStack<S, A, G> {
    /// Inserts a copy of mask `mask_index` right after it, under a fresh
    /// copy name, and selects it; `invert` flips the copy's inversion and
    /// gives it the `neutral` adjustments. Refused for a missing mask or a
    /// full stack.
    pub fn duplicate_mask(&mut self, mask_index: usize, invert: bool, neutral: A) -> (r: bool)
        ensures
            r == (old(self).masks@.len() < MAX_LOCAL_MASKS && mask_index < old(self).masks@.len()),
            !r ==> final(self).masks == old(self).masks && final(self).selected_mask == old(self).selected_mask
                && final(self).selected_component == old(self).selected_component,
            r ==> ({
                let at = mask_index + 1;
                let source = old(self).masks@[mask_index as int];
                let copy = final(self).masks@[at];
                &&& final(self).masks@.len() == old(self).masks@.len() + 1
                &&& final(self).masks@.remove(at) == old(self).masks@
                &&& copy.common.name@ == first_free_copy(source.common.name@, mask_names(old(self).masks@), 1)
                &&& copy.common.enabled == source.common.enabled
                &&& copy.common.invert == (source.common.invert != invert)
                &&& cloned::<S>(source.settings, copy.settings)
                &&& (if invert { copy.adjustments == neutral } else { cloned::<A>(source.adjustments, copy.adjustments) })
                &&& components_copied(source.components@, copy.components@)
                &&& final(self).selected_mask == Some(at as usize)
                &&& final(self).selected_component == (if copy.components@.len() > 0 { Some(0usize) } else { None })
            }),
            r ==> final(self).selection_valid(),
            old(self).selection_valid() ==> final(self).selection_valid(),
    {
        if mask_index >= self.masks.len() {
            return false;
        }
        let copy = self.masks[mask_index].duplicate();
        self.insert_mask_copy(mask_index, copy, invert, neutral)
    }

    /// Inserts a copy of component `component_index` of mask `mask_index`
    /// right after it, under a fresh copy name, and selects it; `invert`
    /// flips the copy's inversion. Refused for a missing mask or component,
    /// or a full mask.
    pub fn duplicate_component(&mut self, mask_index: usize, component_index: usize, invert: bool) -> (r: bool)
        ensures
            r == (mask_index < old(self).masks@.len() && old(self).component_count(mask_index as int)
                < MAX_MASK_COMPONENTS && component_index < old(self).component_count(mask_index as int)),
            !r ==> final(self).masks == old(self).masks && final(self).selected_mask == old(self).selected_mask
                && final(self).selected_component == old(self).selected_component,
            r ==> ({
                let m = mask_index as int;
                let at = component_index + 1;
                let source = old(self).masks@[m].components@[component_index as int];
                let copy = final(self).masks@[m].components@[at];
                &&& final(self).masks@.len() == old(self).masks@.len()
                &&& forall|i: int| 0 <= i < old(self).masks@.len() && i != m ==> final(self).masks@[i] == old(self).masks@[i]
                &&& same_but_components(final(self).masks@[m], old(self).masks@[m])
                &&& final(self).masks@[m].components@.len() == old(self).component_count(m) + 1
                &&& final(self).masks@[m].components@.remove(at) == old(self).masks@[m].components@
                &&& copy.common.name@ == first_free_copy(
                    source.common.name@,
                    component_names(old(self).masks@[m].components@),
                    1,
                )
                &&& copy.common.enabled == source.common.enabled
                &&& copy.common.invert == (source.common.invert != invert)
                &&& copy.kind == source.kind
                &&& copy.combine == source.combine
                &&& cloned::<G>(source.geometry, copy.geometry)
                &&& final(self).selected_mask == Some(mask_index)
                &&& final(self).selected_component == Some(at as usize)
            }),
            r ==> final(self).selection_valid(),
            old(self).selection_valid() ==> final(self).selection_valid(),
    {
        if mask_index >= self.masks.len() || component_index >= self.masks[mask_index].components.len() {
            return false;
        }
        let copy = self.masks[mask_index].components[component_index].duplicate();
        self.insert_component_copy(mask_index, component_index, copy, invert)
    }
}

impl<S, A, G> MaskStack<S, A, G> {
    /// The selected mask, to change in place; whatever the caller writes
    /// through it lands at that index and nowhere else.
    pub fn selected_mask_mut(&mut self) -> (r: Option<&mut LocalMask<S, A, G>>)
        ensures
            r is Some <==> (old(self).selected_mask matches Some(m) && m < old(self).masks@.len()),
            r is None ==> *final(self) == *old(self),
            r matches Some(x) ==> ({
                let m = old(self).selected_mask.unwrap() as int;
                &&& *x == old(self).masks@[m]
                &&& final(self).masks@ == old(self).masks@.update(m, *final(x))
                &&& final(self).selected_mask == old(self).selected_mask
                &&& final(self).selected_component == old(self).selected_component
            }),
    {
        match self.selected_mask {
            Some(m) => {
                if m < self.masks.len() {
                    Some(&mut self.masks[m])
                } else {
                    None
                }
            },
            None => None,
        }
    }
}

impl<S, A, G> MaskStack<S, A, G> {
    /// The selection names an existing mask and an existing component of it.
    pub open spec fn names_selected_component(&self) -> bool {
        match (self.selected_mask, self.selected_component) {
            (Some(m), Some(c)) => m < self.masks@.len() && c < self.component_count(m as int),
            _ => false,
        }
    }

    /// The selected component of the selected mask, to change in place;
    /// whatever the caller writes through it lands there and nowhere else.
    pub fn selected_component_mut(&mut self) -> (r: Option<&mut MaskComponent<G>>)
        ensures
            r is Some <==> old(self).names_selected_component(),
            r is None ==> *final(self) == *old(self),
            r matches Some(x) ==> ({
                let m = old(self).selected_mask.unwrap() as int;
                let c = old(self).selected_component.unwrap() as int;
                let mask = old(self).masks@[m];
                &&& *x == mask.components@[c]
                &&& final(self).masks@.len() == old(self).masks@.len()
                &&& forall|i: int| 0 <= i < old(self).masks@.len() && i != m ==> final(self).masks@[i] == old(self).masks@[i]
                &&& same_but_components(final(self).masks@[m], mask)
                &&& final(self).masks@[m].components@ == mask.components@.update(c, *final(x))
                &&& final(self).selected_mask == old(self).selected_mask
                &&& final(self).selected_component == old(self).selected_component
            }),
    {
        let c = match self.selected_component {
            Some(c) => c,
            None => return None,
        };
        match self.selected_mask {
            Some(m) => {
                if m < self.masks.len() && c < self.masks[m].components.len() {
                    Some(&mut self.masks[m].components[c])
                } else {
                    None
                }
            },
            None => None,
        }
    }
}

/// What an object-selection component holds: another kind of geometry, a
/// selection still being drawn, or a completed selection, given with the
/// geometry that a fresh stroke over it starts from (its strokes and mask
/// cleared).
pub enum ObjectSelection<G> {
    NotObject,
    Open,
    Completed { cleared: G },
}

impl<S, A, G> MaskStack<S, A, G> {
    /// Component `component_index` of the selected mask `mask_index` exists.
    pub open spec fn is_selected_component_target(&self, mask_index: int, component_index: int) -> bool {
        &&& self.selected_mask == Some(mask_index as usize)
        &&& 0 <= mask_index < self.masks@.len()
        &&& 0 <= component_index < self.component_count(mask_index)
    }

    /// Readies an object component of the selected mask for another stroke:
    /// an open selection is drawn into as it is; a completed one is kept
    /// and a new object component, with the same combine mode and the
    /// `cleared` geometry, is appended and selected. `selection` says what
    /// the component holds. Gives the component to draw into, or `None`
    /// when the component is missing, not selected, not an object, or the
    /// mask is full.
    pub fn prepare_object_stroke(&mut self, mask_index: usize, component_index: usize, selection: ObjectSelection<G>) -> (r:
        Option<usize>)
        ensures
            !old(self).is_selected_component_target(mask_index as int, component_index as int)
                || selection is NotObject ==> r is None,
            old(self).is_selected_component_target(mask_index as int, component_index as int)
                && selection is Open ==> r == Some(component_index),
            r is None || selection is Open ==> final(self).masks == old(self).masks && final(self).selected_mask
                == old(self).selected_mask && final(self).selected_component == old(self).selected_component,
            old(self).is_selected_component_target(mask_index as int, component_index as int)
                && selection is Completed ==> (r is Some <==> old(self).component_count(mask_index as int)
                < MAX_MASK_COMPONENTS),
            selection matches ObjectSelection::Completed { cleared } ==> (r matches Some(c) ==> {
                let m = mask_index as int;
                let source = old(self).masks@[m].components@[component_index as int];
                let added = final(self).masks@[m].components@[c as int];
                &&& c == old(self).component_count(m)
                &&& final(self).masks@.len() == old(self).masks@.len()
                &&& forall|i: int| 0 <= i < old(self).masks@.len() && i != m ==> final(self).masks@[i] == old(self).masks@[i]
                &&& same_but_components(final(self).masks@[m], old(self).masks@[m])
                &&& final(self).masks@[m].components@.len() == c + 1
                &&& final(self).masks@[m].components@.subrange(0, c as int) == old(self).masks@[m].components@
                &&& added.kind == MaskKind::Object
                &&& added.combine == source.combine
                &&& added.geometry == cleared
                &&& added.common.name@ == mask_kind_label(MaskKind::Object)
                &&& final(self).selected_mask == Some(mask_index)
                &&& final(self).selected_component == Some(c)
            }),
            old(self).selection_valid() ==> final(self).selection_valid(),
    {
        match self.selected_mask {
            Some(m) => {
                if m != mask_index {
                    return None;
                }
            },
            None => return None,
        }
        if mask_index >= self.masks.len() || component_index >= self.masks[mask_index].components.len() {
            return None;
        }
        match selection {
            ObjectSelection::NotObject => None,
            ObjectSelection::Open => Some(component_index),
            ObjectSelection::Completed { cleared } => {
                let combine = self.masks[mask_index].components[component_index].combine;
                match self.add_component(MaskKind::Object, combine, cleared) {
                    Some((_, new_index)) => Some(new_index),
                    None => None,
                }
            },
        }
    }
}

/// Where a moved submask lands: the insertion index, shifted down when the
/// component moves later within its own mask, and at most the target's
/// length after the removal.
pub open spec fn submask_insert_at(same_mask: bool, source_component: int, target_insert: int, target_len: int) -> int {
    let adjusted = if same_mask && target_insert > source_component { target_insert - 1 } else { target_insert };
    if adjusted <= target_len { adjusted } else { target_len }
}

impl<S, A, G> MaskStack<S, A, G> {
    /// The component can move: its mask has another component, and a
    /// different target mask has room.
    pub open spec fn can_move_submask(&self, source_mask: int, source_component: int, target_mask: int) -> bool {
        &&& 0 <= source_mask < self.masks@.len()
        &&& self.component_count(source_mask) > 1
        &&& 0 <= source_component < self.component_count(source_mask)
        &&& 0 <= target_mask < self.masks@.len()
        &&& (source_mask != target_mask ==> self.component_count(target_mask) < MAX_MASK_COMPONENTS)
    }

    /// Moves a component to position `target_insert` of a mask (counted
    /// before the component leaves), clamped to the end, and selects it.
    pub fn move_submask_component(
        &mut self,
        source_mask: usize,
        source_component: usize,
        target_mask: usize,
        target_insert: usize,
    ) -> (r: Option<(usize, usize)>)
        ensures
            old(self).can_move_submask(source_mask as int, source_component as int, target_mask as int) <==> r is Some,
            r is None ==> final(self).masks == old(self).masks && final(self).selected_mask == old(self).selected_mask
                && final(self).selected_component == old(self).selected_component,
            r matches Some((m, at)) ==> ({
                let moved = old(self).masks@[source_mask as int].components@[source_component as int];
                let source_after = old(self).masks@[source_mask as int].components@.remove(source_component as int);
                let target_before = if source_mask == target_mask {
                    source_after
                } else {
                    old(self).masks@[target_mask as int].components@
                };
                &&& m == target_mask
                &&& at == submask_insert_at(
                    source_mask == target_mask,
                    source_component as int,
                    target_insert as int,
                    target_before.len() as int,
                )
                &&& final(self).masks@.len() == old(self).masks@.len()
                &&& forall|i: int|
                    0 <= i < old(self).masks@.len() && i != source_mask && i != target_mask ==> final(self).masks@[i] == old(self).masks@[i]
                &&& same_but_components(final(self).masks@[source_mask as int], old(self).masks@[source_mask as int])
                &&& same_but_components(final(self).masks@[target_mask as int], old(self).masks@[target_mask as int])
                &&& source_mask != target_mask ==> final(self).masks@[source_mask as int].components@ == source_after
                &&& final(self).masks@[target_mask as int].components@ == target_before.insert(at as int, moved)
                &&& final(self).selected_mask == Some(target_mask)
                &&& final(self).selected_component == Some(at)
            }),
            old(self).selection_valid() ==> final(self).selection_valid(),
            r is Some ==> final(self).selection_valid(),
    {
        if source_mask >= self.masks.len() {
            return None;
        }
        let source_count = self.masks[source_mask].components.len();
        if source_count <= 1 || source_component >= source_count {
            return None;
        }
        if target_mask >= self.masks.len() {
            return None;
        }
        if source_mask != target_mask && self.masks[target_mask].components.len() >= MAX_MASK_COMPONENTS {
            return None;
        }
        let ghost before = self.masks@;
        let mut source = self.masks.remove(source_mask);
        let component = source.components.remove(source_component);
        self.masks.insert(source_mask, source);
        let ghost middle = self.masks@;
        proof {
            assert forall|i: int| 0 <= i < before.len() && i != source_mask implies middle[i] == before[i] by {
                if i < source_mask {
                    assert(middle[i] == before.remove(source_mask as int)[i]);
                } else {
                    assert(middle[i] == before.remove(source_mask as int)[i - 1]);
                }
            }
        }
        let adjusted = if source_mask == target_mask && target_insert > source_component {
            target_insert - 1
        } else {
            target_insert
        };
        let mut target = self.masks.remove(target_mask);
        let target_len = target.components.len();
        let insert_at = if adjusted <= target_len { adjusted } else { target_len };
        target.components.insert(insert_at, component);
        self.masks.insert(target_mask, target);
        proof {
            assert forall|i: int| 0 <= i < before.len() && i != target_mask implies self.masks@[i] == middle[i] by {
                if i < target_mask {
                    assert(self.masks@[i] == middle.remove(target_mask as int)[i]);
                } else {
                    assert(self.masks@[i] == middle.remove(target_mask as int)[i - 1]);
                }
            }
        }
        self.selected_mask = Some(target_mask);
        self.selected_component = Some(insert_at);
        Some((target_mask, insert_at))
    }
}

/// A run of consecutive brush dabs of one stroke that all add or all
/// subtract, by dab index counted from the first recorded stroke.
#[derive(Clone, Copy, Debug, PartialEq, Eq, Structural)]
pub struct BrushStrokeGroup {
    pub start: usize,
    pub end: usize,
    pub positive: bool,
}

/// Each value is smaller than the next.
pub open spec fn strictly_increasing(values: Seq<usize>) -> bool {
    forall|i: int, j: int| 0 <= i < j < values.len() ==> #[trigger] values[i] < #[trigger] values[j]
}

/// The recorded stroke starts that fall within `dab_count` dabs, sorted,
/// each once.
pub open spec fn valid_stroke_starts(stroke_starts: Seq<usize>, dab_count: nat) -> Seq<usize> {
    choose|r: Seq<usize>|
        strictly_increasing(r) && forall|s: usize| #[trigger] r.contains(s) <==> (stroke_starts.contains(s) && s < dab_count)
}

/// The maximal runs of equal `positive` flags in dabs `lo..hi`, as
/// (first dab, end, flag).
pub open spec fn sign_runs(positive: Seq<bool>, lo: int, hi: int) -> Seq<(int, int, bool)>
    decreases hi - lo,
{
    if hi <= lo {
        Seq::empty()
    } else if hi == lo + 1 {
        seq![(lo, hi, positive[lo])]
    } else {
        let runs = sign_runs(positive, lo, hi - 1);
        let last = runs.last();
        if positive[hi - 1] == last.2 {
            runs.update(runs.len() - 1, (last.0, hi, last.2))
        } else {
            runs.push((hi - 1, hi, positive[hi - 1]))
        }
    }
}

/// Where stroke `k` ends: at the next stroke's start, or after the last dab.
pub open spec fn stroke_limit(starts: Seq<usize>, k: int, dab_count: nat) -> int {
    if k + 1 < starts.len() {
        starts[k + 1] as int
    } else {
        dab_count as int
    }
}

/// The sign runs of the first `k` strokes, in order.
pub open spec fn stroke_runs(positive: Seq<bool>, starts: Seq<usize>, k: nat) -> Seq<(int, int, bool)>
    decreases k,
{
    if k == 0 {
        Seq::empty()
    } else {
        stroke_runs(positive, starts, (k - 1) as nat) + sign_runs(
            positive,
            starts[k - 1] as int,
            stroke_limit(starts, k - 1, positive.len()),
        )
    }
}

/// A group as a run in absolute dab indices, given where the first stroke
/// starts.
pub open spec fn group_run(group: BrushStrokeGroup, first_start: int) -> (int, int, bool) {
    (group.start + first_start, group.end + first_start, group.positive)
}

proof fn lemma_sign_runs_end(positive: Seq<bool>, lo: int, hi: int)
    requires
        lo < hi,
    ensures
        sign_runs(positive, lo, hi).len() > 0,
        sign_runs(positive, lo, hi).last().1 == hi,
    decreases hi - lo,
{
    if hi > lo + 1 {
        lemma_sign_runs_end(positive, lo, hi - 1);
    }
}

proof fn lemma_sorted_starts_unique(a: Seq<usize>, b: Seq<usize>)
    requires
        strictly_increasing(a),
        strictly_increasing(b),
        forall|s: usize| #[trigger] a.contains(s) <==> b.contains(s),
    ensures
        a == b,
    decreases a.len(),
{
    if a.len() == 0 {
        if b.len() > 0 {
            assert(b.contains(b[0]));
            assert(a.contains(b[0]));
        }
        assert(a =~= b);
    } else {
        assert(a.contains(a[0]));
        assert(b.contains(a[0]));
        assert(b.contains(b[0]));
        assert(a.contains(b[0]));
        let i = choose|i: int| 0 <= i < a.len() && a[i] == b[0];
        let j = choose|j: int| 0 <= j < b.len() && b[j] == a[0];
        if a[0] != b[0] {
            assert(a[0] <= a[i]);
            assert(b[0] <= b[j]);
        }
        let a1 = a.drop_first();
        let b1 = b.drop_first();
        assert forall|s: usize| #[trigger] a1.contains(s) <==> b1.contains(s) by {
            if a1.contains(s) {
                let k = choose|k: int| 0 <= k < a1.len() && a1[k] == s;
                assert(a[k + 1] == s);
                assert(a.contains(s));
                let m = choose|m: int| 0 <= m < b.len() && b[m] == s;
                assert(m != 0);
                assert(b1[m - 1] == s);
            }
            if b1.contains(s) {
                let k = choose|k: int| 0 <= k < b1.len() && b1[k] == s;
                assert(b[k + 1] == s);
                assert(a.contains(s));
                let m = choose|m: int| 0 <= m < a.len() && a[m] == s;
                assert(m != 0);
                assert(a1[m - 1] == s);
            }
        }
        lemma_sorted_starts_unique(a1, b1);
        assert(a =~= seq![a[0]] + a1);
        assert(b =~= seq![b[0]] + b1);
    }
}

fn sorted_stroke_starts(stroke_starts: &[usize], dab_count: usize) -> (r: Vec<usize>)
    ensures
        r@ == valid_stroke_starts(stroke_starts@, dab_count as nat),
        strictly_increasing(r@),
        forall|s: usize| #[trigger] r@.contains(s) <==> (stroke_starts@.contains(s) && s < dab_count),
{
    let mut starts: Vec<usize> = Vec::new();
    let mut i: usize = 0;
    while i < stroke_starts.len()
        invariant
            0 <= i <= stroke_starts@.len(),
            strictly_increasing(starts@),
            forall|s: usize| #[trigger] starts@.contains(s) <==> (stroke_starts@.take(i as int).contains(s) && s < dab_count),
        decreases stroke_starts@.len() - i,
    {
        let start = stroke_starts[i];
        let ghost before = starts@;
        proof {
            assert(stroke_starts@.take(i + 1) =~= stroke_starts@.take(i as int).push(start));
            assert forall|s: usize| #[trigger] stroke_starts@.take(i + 1).contains(s) <==> (stroke_starts@.take(
                i as int,
            ).contains(s) || s == start) by {
                let t = stroke_starts@.take(i as int);
                let t1 = stroke_starts@.take(i + 1);
                if t1.contains(s) {
                    let k = choose|k: int| 0 <= k < t1.len() && t1[k] == s;
                    if k < i {
                        assert(t[k] == s);
                    }
                }
                if t.contains(s) {
                    let k = choose|k: int| 0 <= k < t.len() && t[k] == s;
                    assert(stroke_starts@.take(i + 1)[k] == s);
                }
                if s == start {
                    assert(stroke_starts@.take(i + 1)[i as int] == s);
                }
            }
        }
        if start < dab_count {
            let mut p: usize = 0;
            while p < starts.len() && starts[p] < start
                invariant
                    0 <= p <= starts@.len(),
                    starts@ == before,
                    forall|q: int| 0 <= q < p ==> #[trigger] before[q] < start,
                decreases starts@.len() - p,
            {
                p += 1;
            }
            if !(p < starts.len() && starts[p] == start) {
                starts.insert(p, start);
                proof {
                    assert forall|a: int, b: int| 0 <= a < b < starts@.len() implies #[trigger] starts@[a] < #[trigger] starts@[b] by {
                        if b < p {
                            assert(starts@[a] == before[a] && starts@[b] == before[b]);
                        } else if a > p {
                            assert(starts@[a] == before[a - 1] && starts@[b] == before[b - 1]);
                        } else if a < p && b > p {
                            assert(starts@[a] == before[a] && starts@[b] == before[b - 1]);
                            assert(before[p as int] <= before[b - 1]);
                        } else if a == p {
                            assert(starts@[b] == before[b - 1]);
                            assert(before[p as int] <= before[b - 1]);
                        } else {
                            assert(starts@[a] == before[a]);
                        }
                    }
                    assert forall|s: usize| #[trigger] starts@.contains(s) <==> (before.contains(s) || s == start) by {
                        if starts@.contains(s) {
                            let k = choose|k: int| 0 <= k < starts@.len() && starts@[k] == s;
                            if k < p {
                                assert(before[k] == s);
                            } else if k > p {
                                assert(before[k - 1] == s);
                            }
                        }
                        if before.contains(s) {
                            let k = choose|k: int| 0 <= k < before.len() && before[k] == s;
                            if k < p {
                                assert(starts@[k] == s);
                            } else {
                                assert(starts@[k + 1] == s);
                            }
                        }
                        if s == start {
                            assert(starts@[p as int] == s);
                        }
                    }
                }
            } else {
                proof {
                    assert(before[p as int] == start);
                }
            }
        }
        i += 1;
    }
    proof {
        assert(stroke_starts@.take(stroke_starts@.len() as int) =~= stroke_starts@);
        let chosen = valid_stroke_starts(stroke_starts@, dab_count as nat);
        assert(strictly_increasing(chosen) && forall|s: usize| #[trigger] chosen.contains(s) <==> (
        stroke_starts@.contains(s) && s < dab_count));
        lemma_sorted_starts_unique(chosen, starts@);
    }
    starts
}

/// Splits recorded brush dabs into strokes and each stroke into runs of
/// adding or subtracting dabs. `positive[i]` says whether dab `i` adds;
/// `stroke_starts` lists where strokes start. Returns where the first
/// stroke starts (the dabs before it belong to no stroke; all of them when
/// no start falls within the dabs) and the runs, counted from there.
pub fn recorded_brush_groups(positive: &[bool], stroke_starts: &[usize]) -> (r: (usize, Vec<BrushStrokeGroup>))
    ensures
        ({
            let starts = valid_stroke_starts(stroke_starts@, positive@.len());
            &&& starts.len() == 0 ==> r.0 == positive@.len() && r.1@.len() == 0
            &&& starts.len() > 0 ==> r.0 == starts[0] && r.1@.map_values(|g: BrushStrokeGroup| group_run(g, r.0 as int))
                == stroke_runs(positive@, starts, starts.len())
        }),
{
    let n = positive.len();
    let starts = sorted_stroke_starts(stroke_starts, n);
    let mut groups: Vec<BrushStrokeGroup> = Vec::new();
    if starts.len() == 0 {
        return (n, groups);
    }
    let first = starts[0];
    let mut k: usize = 0;
    while k < starts.len()
        invariant
            n == positive@.len(),
            starts@ == valid_stroke_starts(stroke_starts@, n as nat),
            strictly_increasing(starts@),
            forall|s: usize| #[trigger] starts@.contains(s) ==> s < n,
            starts@.len() > 0,
            first == starts@[0],
            0 <= k <= starts@.len(),
            groups@.map_values(|g: BrushStrokeGroup| group_run(g, first as int)) == stroke_runs(positive@, starts@, k as nat),
        decreases starts@.len() - k,
    {
        let stroke_start = starts[k];
        let stroke_end = if k + 1 < starts.len() {
            starts[k + 1]
        } else {
            n
        };
        proof {
            assert(starts@.contains(stroke_start));
            if k + 1 < starts@.len() {
                assert(starts@.contains(starts@[k + 1]));
                assert(starts@[k as int] < starts@[k + 1]);
            }
            if k > 0 {
                assert(starts@[0] < starts@[k as int]);
            }
            assert(first <= stroke_start);
            assert(stroke_start < stroke_end);
        }
        let ghost done = groups@.map_values(|g: BrushStrokeGroup| group_run(g, first as int));
        let mut group_start = stroke_start;
        let mut sign = positive[stroke_start];
        let mut index = stroke_start + 1;
        proof {
            assert(sign_runs(positive@, stroke_start as int, index as int) =~= seq![(stroke_start as int, index as int, sign)]);
            assert(groups@.map_values(|g: BrushStrokeGroup| group_run(g, first as int)) =~= done + sign_runs(
                positive@,
                stroke_start as int,
                index as int,
            ).drop_last());
        }
        while index < stroke_end
            invariant
                n == positive@.len(),
                first <= stroke_start < index <= stroke_end <= n,
                stroke_start <= group_start < index,
                done == stroke_runs(positive@, starts@, k as nat),
                sign_runs(positive@, stroke_start as int, index as int).len() > 0,
                sign_runs(positive@, stroke_start as int, index as int).last() == (group_start as int, index as int, sign),
                groups@.map_values(|g: BrushStrokeGroup| group_run(g, first as int)) == done + sign_runs(
                    positive@,
                    stroke_start as int,
                    index as int,
                ).drop_last(),
            decreases stroke_end - index,
        {
            let next = positive[index];
            let ghost runs = sign_runs(positive@, stroke_start as int, index as int);
            let ghost next_runs = sign_runs(positive@, stroke_start as int, index + 1);
            if next != sign {
                let ghost before = groups@;
                groups.push(BrushStrokeGroup { start: group_start - first, end: index - first, positive: sign });
                proof {
                    assert(next_runs == runs.push((index as int, index + 1, next)));
                    assert(groups@.map_values(|g: BrushStrokeGroup| group_run(g, first as int)) =~= before.map_values(
                        |g: BrushStrokeGroup| group_run(g, first as int),
                    ).push((group_start as int, index as int, sign)));
                    assert(runs =~= runs.drop_last().push(runs.last()));
                    assert(next_runs.drop_last() =~= runs);
                }
                group_start = index;
                sign = next;
            } else {
                proof {
                    assert(next_runs == runs.update(runs.len() - 1, (group_start as int, index + 1, sign)));
                    assert(next_runs.drop_last() =~= runs.drop_last());
                }
            }
            index += 1;
        }
        proof {
            assert(stroke_end == stroke_limit(starts@, k as int, n as nat));
            assert(starts@.take(k + 1).drop_last() =~= starts@.take(k as int));
        }
        let ghost before = groups@;
        groups.push(BrushStrokeGroup { start: group_start - first, end: stroke_end - first, positive: sign });
        proof {
            let runs = sign_runs(positive@, stroke_start as int, stroke_end as int);
            assert(runs =~= runs.drop_last().push(runs.last()));
            assert(groups@.map_values(|g: BrushStrokeGroup| group_run(g, first as int)) =~= before.map_values(
                |g: BrushStrokeGroup| group_run(g, first as int),
            ).push((group_start as int, stroke_end as int, sign)));
            assert(stroke_runs(positive@, starts@, (k + 1) as nat) == done + runs);
        }
        k += 1;
    }
    (first, groups)
}

} // verus!
