//! What holds of selection whatever the nodes and the globs are.

use vstd::prelude::*;
use crate::node::{lemma_mapping_at, lemma_mapping_push, mapping_of, names_of, NodeModel};
use crate::pattern::{glob_accepts, glob_well_formed};
use crate::selector::{
    accepts_any, component_error, component_glob, components, filter_selects,
    lemma_no_filter_selects_all, selection, selector_filters, selector_valid, selects,
    FilterModel,
};
use crate::text::{join, lemma_split_join};

verus! {

/// The empty selector is acceptable and selects every node.
pub proof fn lemma_empty_selector_selects_all(nodes: Seq<NodeModel>)
    ensures
        selector_valid(Seq::<char>::empty()),
        selection(nodes, selector_filters(Seq::<char>::empty())) == names_of(nodes),
{
    assert(selector_filters(Seq::<char>::empty()) =~= Seq::<FilterModel>::empty());
    lemma_no_filter_selects_all(nodes);
}

/// Filters combine by "or": a node is selected by two lists of filters put
/// together exactly when one of the two lists selects it.
pub proof fn lemma_filters_combine_by_or(
    first: Seq<FilterModel>,
    second: Seq<FilterModel>,
    node: NodeModel,
)
    requires
        first.len() > 0,
        second.len() > 0,
    ensures
        selects(first + second, node) <==> selects(first, node) || selects(second, node),
{
    let both = first + second;
    if selects(first, node) {
        let i = choose|i: int| 0 <= i < first.len() && #[trigger] filter_selects(first[i], node);
        assert(filter_selects(both[i], node));
    }
    if selects(second, node) {
        let i = choose|i: int| 0 <= i < second.len() && #[trigger] filter_selects(second[i], node);
        assert(filter_selects(both[first.len() + i], node));
    }
    if selects(both, node) {
        let i = choose|i: int| 0 <= i < both.len() && #[trigger] filter_selects(both[i], node);
        if i < first.len() {
            assert(filter_selects(first[i], node));
        } else {
            assert(filter_selects(second[i - first.len()], node));
        }
    }
}

/// Selection is a set of names: among nodes with distinct names no name is
/// selected twice, however many filters select its node, and a name is
/// selected exactly when it is registered and the filters select its node.
pub proof fn lemma_selection_is_a_set(
    nodes: Seq<NodeModel>,
    filters: Seq<FilterModel>,
    name: Seq<char>,
)
    requires
        names_of(nodes).no_duplicates(),
    ensures
        selection(nodes, filters).no_duplicates(),
        selection(nodes, filters).contains(name) <==> mapping_of(nodes).dom().contains(name)
            && selects(filters, (name, mapping_of(nodes)[name])),
    decreases nodes.len(),
{
    reveal(Seq::filter);
    let pred = |n: NodeModel| selects(filters, n);
    if nodes.len() == 0 {
        assert(selection(nodes, filters) =~= Seq::<Seq<char>>::empty());
    } else {
        let front = nodes.drop_last();
        let last = nodes.last();
        assert(front.push(last) =~= nodes);
        assert(names_of(front) =~= names_of(nodes).drop_last());
        assert(names_of(nodes).last() == last.0);
        assert(!names_of(front).contains(last.0)) by {
            if names_of(front).contains(last.0) {
                let j = names_of(front).index_of(last.0);
                assert(names_of(nodes)[j] == names_of(nodes)[nodes.len() - 1]);
            }
        }
        lemma_mapping_push(front, last);
        lemma_selection_is_a_set(front, filters, name);
        lemma_selection_is_a_set(front, filters, last.0);
        let chosen = selection(front, filters);
        assert forall|i: int| 0 <= i < chosen.len() implies chosen[i] != last.0 by {
            if chosen[i] == last.0 {
                assert(chosen.contains(last.0));
            }
        }
        if pred(last) {
            assert(selection(nodes, filters) =~= chosen.push(last.0));
            assert(selection(nodes, filters).contains(name) <==> chosen.contains(name) || name
                == last.0) by {
                let grown = chosen.push(last.0);
                if chosen.contains(name) {
                    let j = chosen.index_of(name);
                    assert(grown[j] == name);
                }
                if name == last.0 {
                    assert(grown[chosen.len() as int] == name);
                }
            }
        } else {
            assert(selection(nodes, filters) =~= chosen);
        }
    }
}

/// A selector without a comma has one component, itself.
pub proof fn lemma_single_component(selector: Seq<char>)
    requires
        selector.len() > 0,
        !selector.contains(','),
    ensures
        components(selector) == seq![selector],
{
    let parts = seq![selector];
    assert(join(parts, ',') == selector);
    lemma_split_join(parts, ',');
}

/// The selector written as components with commas between them has those
/// components, as long as none of them is empty or holds a comma.
pub proof fn lemma_components_of_join(parts: Seq<Seq<char>>)
    requires
        parts.len() >= 1,
        forall|i: int|
            0 <= i < parts.len() ==> (#[trigger] parts[i]).len() > 0 && !parts[i].contains(','),
    ensures
        components(join(parts, ',')) == parts,
{
    lemma_split_join(parts, ',');
    if parts.len() == 1 {
        assert(join(parts, ',') == parts[0]);
    } else {
        assert(join(parts, ',').len() >= parts.last().len());
    }
}

/// The selector `@` followed by a glob selects by tag: exactly the nodes that
/// carry a tag which the glob matches.
pub proof fn lemma_tag_selector(glob_text: Seq<char>, node: NodeModel)
    requires
        glob_text.len() > 0,
        !glob_text.contains(','),
    ensures
        selector_valid(seq!['@'] + glob_text) <==> glob_well_formed(glob_text),
        selector_filters(seq!['@'] + glob_text) == seq![FilterModel::Tag(glob_text)],
        selects(selector_filters(seq!['@'] + glob_text), node) <==> accepts_any(glob_text, node.1),
{
    let selector = seq!['@'] + glob_text;
    assert forall|j: int| 0 <= j < selector.len() implies selector[j] != ',' by {
        if j > 0 {
            assert(glob_text.contains(glob_text[j - 1]));
        }
    }
    lemma_single_component(selector);
    assert(component_glob(selector) =~= glob_text);
    let filters = selector_filters(selector);
    assert(filters =~= seq![FilterModel::Tag(glob_text)]);
    let first: int = 0;
    assert(component_error(components(selector)[first], first as usize) is None
        <==> glob_well_formed(glob_text));
    if accepts_any(glob_text, node.1) {
        assert(filter_selects(filters[0], node));
    }
}

/// A selector that is a glob without a leading `@` selects by name: exactly
/// the nodes whose name the glob matches.
pub proof fn lemma_name_selector(glob_text: Seq<char>, node: NodeModel)
    requires
        glob_text.len() > 0,
        glob_text[0] != '@',
        !glob_text.contains(','),
    ensures
        selector_valid(glob_text) <==> glob_well_formed(glob_text),
        selector_filters(glob_text) == seq![FilterModel::Name(glob_text)],
        selects(selector_filters(glob_text), node) <==> glob_accepts(glob_text, node.0),
{
    lemma_single_component(glob_text);
    let filters = selector_filters(glob_text);
    assert(filters =~= seq![FilterModel::Name(glob_text)]);
    let first: int = 0;
    assert(component_error(components(glob_text)[first], first as usize) is None
        <==> glob_well_formed(glob_text));
    if glob_accepts(glob_text, node.0) {
        assert(filter_selects(filters[0], node));
    }
}

} // verus!
