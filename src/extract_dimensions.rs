use vstd::prelude::*;

use crate::element::{ElementView, attribute_value};
use crate::number::{is_number, is_number_text};
use crate::separators::{regex_split, split_by_pattern};

verus! {

/// Runs of one or more spaces and commas: what separates the numbers of a `viewBox`.
pub const VIEW_BOX_SEPARATORS: &'static str = "[ ,]+";

/// The declared width and height of a document, as the numeric text that
/// declared them. Both are always present together.
pub struct Dimensions {
    pub width: String,
    pub height: String,
}

impl View for Dimensions {
    type V = (Seq<char>, Seq<char>);

    open spec fn view(&self) -> (Seq<char>, Seq<char>) {
        (self.width@, self.height@)
    }
}

pub open spec fn dimensions_view(d: Option<Dimensions>) -> Option<(Seq<char>, Seq<char>)> {
    match d {
        Some(d) => Some(d@),
        None => None,
    }
}

/// An `<svg>` tag: no namespace prefix and local name exactly `svg`.
pub open spec fn is_svg_tag(e: ElementView) -> bool {
    e.prefix is None && e.local_name@ == "svg"@
}

/// A width and a height text give dimensions when both are numeric.
pub open spec fn numeric_pair_of(width: Seq<char>, height: Seq<char>) -> Option<
    (Seq<char>, Seq<char>),
> {
    if is_number_text(width) && is_number_text(height) {
        Some((width, height))
    } else {
        None
    }
}

/// The tokens of a `viewBox` give dimensions when there are exactly four, none
/// of them empty, and the third and fourth (the extent, not the origin) are numeric.
pub open spec fn view_box_extent_of(tokens: Seq<Seq<char>>) -> Option<(Seq<char>, Seq<char>)> {
    if tokens.len() == 4 && forall|i: int| 0 <= i < 4 ==> #[trigger] tokens[i].len() > 0 {
        numeric_pair_of(tokens[2], tokens[3])
    } else {
        None
    }
}

/// The tokens of a `viewBox` text, split on runs of spaces and commas.
pub open spec fn view_box_tokens(view_box: Seq<char>) -> Option<Seq<Seq<char>>> {
    regex_split(VIEW_BOX_SEPARATORS@, view_box)
}

/// Dimensions from the element's `width` and `height` attributes.
pub open spec fn attribute_dimensions_of(e: ElementView) -> Option<(Seq<char>, Seq<char>)> {
    match (attribute_value(e, "width"@), attribute_value(e, "height"@)) {
        (Some(w), Some(h)) => numeric_pair_of(w, h),
        _ => None,
    }
}

/// Dimensions from the element's `viewBox` attribute.
pub open spec fn view_box_dimensions_of(e: ElementView) -> Option<(Seq<char>, Seq<char>)> {
    match attribute_value(e, "viewBox"@) {
        Some(vb) => match view_box_tokens(vb) {
            Some(tokens) => view_box_extent_of(tokens),
            None => None,
        },
        None => None,
    }
}

/// The dimensions that a document's root element declares: none unless it is
/// an `<svg>` tag; then its `width`/`height` attributes, and only where those
/// give none, its `viewBox`.
pub open spec fn element_dimensions(e: ElementView) -> Option<(Seq<char>, Seq<char>)> {
    if !is_svg_tag(e) {
        None
    } else if attribute_dimensions_of(e) is Some {
        attribute_dimensions_of(e)
    } else {
        view_box_dimensions_of(e)
    }
}

/// The dimensions of a document given as its elements in document order:
/// those its root, the first element, declares.
pub open spec fn document_dimensions(elements: Seq<ElementView>) -> Option<(Seq<char>, Seq<char>)> {
    if elements.len() == 0 {
        None
    } else {
        element_dimensions(elements[0])
    }
}

/// Where the extraction stands: whether the root element was seen, and the
/// dimensions found.
pub type ExtractionState = (bool, Option<(Seq<char>, Seq<char>)>);

/// One visit: once dimensions are found, or once the root was seen, nothing
/// changes; otherwise the element visited is the root and the only one tried.
pub open spec fn extract_step(state: ExtractionState, e: ElementView) -> ExtractionState {
    if state.0 || state.1 is Some {
        state
    } else {
        (true, element_dimensions(e))
    }
}

/// Visits of `elements` in order, starting from `state`.
pub open spec fn extract_all(state: ExtractionState, elements: Seq<ElementView>) -> ExtractionState
    decreases elements.len(),
{
    if elements.len() == 0 {
        state
    } else {
        extract_step(extract_all(state, elements.drop_last()), elements.last())
    }
}

/// Dimensions from a width and a height text, where both are numeric.
pub fn numeric_pair(width: &str, height: &str) -> (r: Option<Dimensions>)
    ensures
        dimensions_view(r) == numeric_pair_of(width@, height@),
{
    if is_number(width) && is_number(height) {
        Some(Dimensions { width: width.to_string(), height: height.to_string() })
    } else {
        None
    }
}

/// Dimensions from the tokens of a `viewBox`: its third and fourth, where
/// there are exactly four and those two are numeric.
pub fn view_box_extent(tokens: &Vec<String>) -> (r: Option<Dimensions>)
    ensures
        dimensions_view(r) == view_box_extent_of(tokens@.map_values(|t: String| t@)),
{
    let ghost seqs = tokens@.map_values(|t: String| t@);
    if tokens.len() != 4 {
        return None;
    }
    assert(forall|i: int| 0 <= i < 4 ==> #[trigger] seqs[i] == tokens@[i]@);
    let mut i: usize = 0;
    while i < 4
        invariant
            tokens@.len() == 4,
            seqs == tokens@.map_values(|t: String| t@),
            i <= 4,
            forall|j: int| 0 <= j < i ==> #[trigger] seqs[j].len() > 0,
        decreases 4 - i,
    {
        if tokens[i].as_str().unicode_len() == 0 {
            assert(seqs[i as int] == tokens@[i as int]@);
            return None;
        }
        i = i + 1;
    }
    numeric_pair(tokens[2].as_str(), tokens[3].as_str())
}

/// Whether the element is an `<svg>` tag: unprefixed, local name `svg`.
pub fn has_svg_tag(e: &ElementView) -> (r: bool)
    ensures
        r == is_svg_tag(*e),
{
    let svg = "svg".to_string();
    e.prefix.is_none() && e.local_name == svg
}

/// Dimensions from the element's `width` and `height` attributes, where both
/// are present and numeric.
pub fn attribute_dimensions(e: &ElementView) -> (r: Option<Dimensions>)
    ensures
        dimensions_view(r) == attribute_dimensions_of(*e),
{
    match (e.get_attribute("width"), e.get_attribute("height")) {
        (Some(w), Some(h)) => numeric_pair(w.as_str(), h.as_str()),
        _ => None,
    }
}

/// Dimensions from the element's `viewBox` attribute: the third and fourth
/// of exactly four numbers separated by runs of spaces and commas.
pub fn view_box_dimensions(e: &ElementView) -> (r: Option<Dimensions>)
    ensures
        dimensions_view(r) == view_box_dimensions_of(*e),
{
    match e.get_attribute("viewBox") {
        Some(vb) => match split_by_pattern(VIEW_BOX_SEPARATORS, vb.as_str()) {
            Some(tokens) => view_box_extent(&tokens),
            None => None,
        },
        None => None,
    }
}

/// Dimensions that a root element declares, where it is an `<svg>` tag: the
/// `width`/`height` attributes take precedence over the `viewBox`.
pub fn declared_dimensions(e: &ElementView) -> (r: Option<Dimensions>)
    ensures
        dimensions_view(r) == element_dimensions(*e),
{
    if !has_svg_tag(e) {
        return None;
    }
    match attribute_dimensions(e) {
        Some(d) => Some(d),
        None => view_box_dimensions(e),
    }
}

/// What a pass answers before a traversal: whether it takes part.
#[derive(Clone, Copy, Debug, PartialEq, Eq, Structural)]
pub enum PrepareOutcome {
    Proceed,
    Skip,
}

/// The dimension-extraction pass. While enabled, it tries the first element
/// it visits, the document's root; dimensions found there never change, and
/// no later element is tried.
pub struct ExtractDimensions {
    enabled: bool,
    root_visited: bool,
    dimensions: Option<Dimensions>,
}

impl ExtractDimensions {
    /// Whether the pass takes part in a run.
    pub closed spec fn is_enabled(&self) -> bool {
        self.enabled
    }

    /// Whether the root was seen, and the dimensions found, as text.
    pub closed spec fn state(&self) -> ExtractionState {
        (self.root_visited, dimensions_view(self.dimensions))
    }

    /// A pass that has seen nothing yet.
    pub fn new(enabled: bool) -> (r: ExtractDimensions)
        ensures
            r.is_enabled() == enabled,
            r.state() == (false, None::<(Seq<char>, Seq<char>)>),
    {
        ExtractDimensions { enabled, root_visited: false, dimensions: None }
    }

    /// Skips the traversal exactly when the pass is disabled.
    pub fn prepare(&self) -> (r: PrepareOutcome)
        ensures
            r == (if self.is_enabled() {
                PrepareOutcome::Proceed
            } else {
                PrepareOutcome::Skip
            }),
    {
        if self.enabled {
            PrepareOutcome::Proceed
        } else {
            PrepareOutcome::Skip
        }
    }

    /// Visits one element. Where dimensions are already held, or the root was
    /// already seen, nothing changes. Otherwise this element is the root: the
    /// dimensions it declares, if any, are recorded.
    pub fn element(&mut self, e: &ElementView)
        ensures
            final(self).is_enabled() == old(self).is_enabled(),
            final(self).state() == extract_step(old(self).state(), *e),
    {
        if self.root_visited || self.dimensions.is_some() {
            return;
        }
        self.root_visited = true;
        self.dimensions = declared_dimensions(e);
    }

    /// Visits each of `elements` in order.
    pub fn visit_all(&mut self, elements: &Vec<ElementView>)
        ensures
            final(self).is_enabled() == old(self).is_enabled(),
            final(self).state() == extract_all(old(self).state(), elements@),
    {
        let n = elements.len();
        let mut i: usize = 0;
        while i < n
            invariant
                n == elements@.len(),
                i <= n,
                self.is_enabled() == old(self).is_enabled(),
                self.state() == extract_all(old(self).state(), elements@.take(i as int)),
            decreases n - i,
        {
            self.element(&elements[i]);
            assert(elements@.take(i + 1).drop_last() =~= elements@.take(i as int));
            i = i + 1;
        }
        assert(elements@.take(n as int) =~= elements@);
    }

    /// A copy of the dimensions found so far.
    pub fn dimensions(&self) -> (r: Option<Dimensions>)
        ensures
            dimensions_view(r) == self.state().1,
    {
        match &self.dimensions {
            Some(d) => Some(Dimensions { width: d.width.clone(), height: d.height.clone() }),
            None => None,
        }
    }
}

impl Default for ExtractDimensions {
    /// An enabled pass that has found nothing yet.
    fn default() -> (r: ExtractDimensions)
        ensures
            r.is_enabled(),
            r.state() == (false, None::<(Seq<char>, Seq<char>)>),
    {
        ExtractDimensions::new(true)
    }
}

} // verus!
