use vstd::prelude::*;

use crate::element::{ElementView, attribute_value};
use crate::extract_dimensions::{
    ExtractionState, attribute_dimensions_of, document_dimensions, extract_all, is_svg_tag,
    view_box_dimensions_of, view_box_tokens,
};
use crate::number::is_number_text;

verus! {

/// Once dimensions are held, or the root was seen, no further visit
/// changes anything.
pub proof fn lemma_settled_state_is_kept(state: ExtractionState, elements: Seq<ElementView>)
    requires
        state.0 || state.1 is Some,
    ensures
        extract_all(state, elements) == state,
    decreases elements.len(),
{
    if elements.len() > 0 {
        lemma_settled_state_is_kept(state, elements.drop_last());
    }
}

/// Visiting the same elements a second time, with the state the first
/// visits left, changes nothing.
pub proof fn lemma_extraction_idempotent(state: ExtractionState, elements: Seq<ElementView>)
    ensures
        extract_all(extract_all(state, elements), elements) == extract_all(state, elements),
{
    let once = extract_all(state, elements);
    if once.0 || once.1 is Some {
        lemma_settled_state_is_kept(once, elements);
    }
}

/// A fresh pass over a document sees its root exactly when there is one,
/// and finds the dimensions that the root, and only the root, declares.
pub proof fn lemma_fresh_extraction(elements: Seq<ElementView>)
    ensures
        extract_all((false, None), elements) == (elements.len() > 0, document_dimensions(elements)),
    decreases elements.len(),
{
    if elements.len() > 1 {
        let rest = elements.drop_last();
        assert(rest[0] == elements[0]);
        lemma_fresh_extraction(rest);
    } else if elements.len() == 1 {
        assert(extract_all((false, None), elements.drop_last()) == (
            false,
            None::<(Seq<char>, Seq<char>)>,
        ));
    }
}

/// A document whose root `<svg>` has numeric `width` and `height`
/// attributes has exactly those dimensions, whatever its `viewBox`.
pub proof fn lemma_width_height_attributes(
    elements: Seq<ElementView>,
    width: Seq<char>,
    height: Seq<char>,
)
    requires
        elements.len() > 0,
        is_svg_tag(elements[0]),
        attribute_value(elements[0], "width"@) == Some(width),
        attribute_value(elements[0], "height"@) == Some(height),
        is_number_text(width),
        is_number_text(height),
    ensures
        extract_all((false, None), elements).1 == Some((width, height)),
{
    lemma_fresh_extraction(elements);
}

/// A document whose root `<svg>` lacks a `width` or a `height` attribute
/// but has a `viewBox` of four non-empty tokens, the third and fourth
/// numeric, has those two as its dimensions.
pub proof fn lemma_view_box_extent(elements: Seq<ElementView>, view_box: Seq<char>)
    requires
        elements.len() > 0,
        is_svg_tag(elements[0]),
        attribute_value(elements[0], "width"@) is None || attribute_value(
            elements[0],
            "height"@,
        ) is None,
        attribute_value(elements[0], "viewBox"@) == Some(view_box),
        view_box_tokens(view_box) matches Some(tokens) && tokens.len() == 4 && tokens[0].len() > 0
            && tokens[1].len() > 0 && is_number_text(tokens[2]) && is_number_text(tokens[3]),
    ensures
        view_box_tokens(view_box) matches Some(tokens) && extract_all(
            (false, None),
            elements,
        ).1 == Some((tokens[2], tokens[3])),
{
    lemma_fresh_extraction(elements);
    let tokens = view_box_tokens(view_box).unwrap();
    assert(forall|i: int| 0 <= i < 4 ==> #[trigger] tokens[i].len() > 0);
}

/// A document whose root declares usable dimensions through neither its
/// `width`/`height` attributes nor its `viewBox` has none, whatever
/// elements follow the root.
pub proof fn lemma_no_declaration(elements: Seq<ElementView>)
    requires
        elements.len() > 0 ==> attribute_dimensions_of(elements[0]) is None
            && view_box_dimensions_of(elements[0]) is None,
    ensures
        extract_all((false, None), elements).1 is None,
{
    lemma_fresh_extraction(elements);
}

} // verus!
