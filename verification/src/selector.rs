//! Node selectors: a comma-separated list of globs, each matched against the
//! names of the nodes or, after a leading `@`, against their tags.

use vstd::prelude::*;
use vstd::string::*;
use crate::node::{name_views, names_of, NodeConfig, NodeModel, NodeName, NodeRegistry};
use crate::selector_laws::lemma_selection_is_a_set;
use crate::pattern::{glob_accepts, glob_well_formed, pattern_source, wildcard};
use crate::text::{split, split_on, views};

verus! {

/// One compiled component of a selector.
#[derive(Debug)]
pub enum NodeFilter {
    /// Selects the nodes whose name the pattern matches.
    NameFilter(glob::Pattern),
    /// Selects the nodes that carry a tag the pattern matches.
    TagFilter(glob::Pattern),
}

/// What the contracts know of a filter: its kind and the text of its glob.
pub enum FilterModel {
    Name(Seq<char>),
    Tag(Seq<char>),
}

impl View for NodeFilter {
    type V = FilterModel;

    open spec fn view(&self) -> FilterModel {
        match self {
            NodeFilter::NameFilter(p) => FilterModel::Name(pattern_source(*p)),
            NodeFilter::TagFilter(p) => FilterModel::Tag(pattern_source(*p)),
        }
    }
}

/// Why a selector was rejected. `component` counts the components of the
/// selector from zero.
#[derive(Debug, Clone, Copy, PartialEq, Eq, Structural)]
pub enum SelectorError {
    /// Nothing stands between two commas, before the first or after the last.
    EmptyComponent { component: usize },
    /// An `@` is followed by nothing.
    EmptyTagPattern { component: usize },
    /// The glob of the component is malformed.
    InvalidGlob { component: usize },
}

/// The components of a selector. The empty selector has none.
pub open spec fn components(selector: Seq<char>) -> Seq<Seq<char>> {
    if selector.len() == 0 {
        Seq::empty()
    } else {
        split(selector, ',')
    }
}

/// Whether a component selects by tag.
pub open spec fn is_tag_component(component: Seq<char>) -> bool {
    component.len() > 0 && component[0] == '@'
}

/// The glob of a component: what follows the `@` of a tag component, else
/// the whole component.
pub open spec fn component_glob(component: Seq<char>) -> Seq<char> {
    if is_tag_component(component) {
        component.subrange(1, component.len() as int)
    } else {
        component
    }
}

/// The filter that a component stands for.
pub open spec fn component_filter(component: Seq<char>) -> FilterModel {
    if is_tag_component(component) {
        FilterModel::Tag(component_glob(component))
    } else {
        FilterModel::Name(component_glob(component))
    }
}

/// What is wrong with the component at position `index`, if anything.
pub open spec fn component_error(component: Seq<char>, index: usize) -> Option<SelectorError> {
    if component.len() == 0 {
        Some(SelectorError::EmptyComponent { component: index })
    } else if component_glob(component).len() == 0 {
        Some(SelectorError::EmptyTagPattern { component: index })
    } else if !glob_well_formed(component_glob(component)) {
        Some(SelectorError::InvalidGlob { component: index })
    } else {
        None
    }
}

/// Whether the first `n` of the components are all acceptable.
pub open spec fn components_valid(parts: Seq<Seq<char>>, n: int) -> bool {
    forall|i: int| 0 <= i < n ==> (#[trigger] component_error(parts[i], i as usize)) is None
}

/// Whether a selector is acceptable as a whole.
pub open spec fn selector_valid(selector: Seq<char>) -> bool {
    components_valid(components(selector), components(selector).len() as int)
}

/// The filters that a selector stands for, one for each component, in order.
pub open spec fn selector_filters(selector: Seq<char>) -> Seq<FilterModel> {
    components(selector).map_values(|c: Seq<char>| component_filter(c))
}

/// Whether a selector is rejected with the error `e`: the first component
/// that is not acceptable decides.
pub open spec fn rejected_with(selector: Seq<char>, e: SelectorError) -> bool {
    exists|i: int|
        {
            &&& 0 <= i < components(selector).len()
            &&& components_valid(components(selector), i)
            &&& #[trigger] component_error(components(selector)[i], i as usize) == Some(e)
        }
}

/// The views of a sequence of filters.
pub open spec fn filter_views(filters: Seq<NodeFilter>) -> Seq<FilterModel> {
    filters.map_values(|f: NodeFilter| f@)
}

/// Whether the glob matches at least one of the tags.
pub open spec fn accepts_any(glob_text: Seq<char>, tags: Set<Seq<char>>) -> bool {
    exists|tag: Seq<char>| tags.contains(tag) && #[trigger] glob_accepts(glob_text, tag)
}

/// Whether one filter selects a node.
pub open spec fn filter_selects(filter: FilterModel, node: NodeModel) -> bool {
    match filter {
        FilterModel::Name(glob_text) => glob_accepts(glob_text, node.0),
        FilterModel::Tag(glob_text) => accepts_any(glob_text, node.1),
    }
}

/// Whether a list of filters selects a node: as soon as one of them does.
/// The empty list selects every node.
pub open spec fn selects(filters: Seq<FilterModel>, node: NodeModel) -> bool {
    filters.len() == 0 || exists|i: int|
        0 <= i < filters.len() && #[trigger] filter_selects(filters[i], node)
}

/// Whether one of the filters is the glob `*` on names, which selects every
/// node.
pub open spec fn has_wildcard(filters: Seq<FilterModel>) -> bool {
    exists|i: int| 0 <= i < filters.len() && #[trigger] filters[i] == FilterModel::Name(wildcard())
}

/// The names among `names` whose verdict is `true`, in order. A name without
/// a verdict is left out.
pub open spec fn picked(names: Seq<Seq<char>>, verdicts: Seq<bool>) -> Seq<Seq<char>>
    decreases names.len(),
{
    if names.len() == 0 {
        Seq::empty()
    } else {
        let front = picked(names.drop_last(), verdicts);
        if names.len() <= verdicts.len() && verdicts[names.len() - 1] {
            front.push(names.last())
        } else {
            front
        }
    }
}

/// The names of the nodes that the filters select, in the order of the nodes.
pub open spec fn selection(nodes: Seq<NodeModel>, filters: Seq<FilterModel>) -> Seq<Seq<char>> {
    names_of(nodes.filter(|n: NodeModel| selects(filters, n)))
}

impl NodeFilter {
    /// Compiles one component of a selector, which stands at position
    /// `index`.
    pub fn parse(component: &str, index: usize) -> (res: Result<NodeFilter, SelectorError>)
        ensures
            match res {
                Ok(filter) => component_error(component@, index) is None && filter@
                    == component_filter(component@),
                Err(e) => component_error(component@, index) == Some(e),
            },
            component@ == wildcard() ==> res is Ok,
    {
        let n = component.unicode_len();
        if n == 0 {
            return Err(SelectorError::EmptyComponent { component: index });
        }
        let by_tag = component.get_char(0) == '@';
        let glob_text = if by_tag {
            component.substring_char(1, n)
        } else {
            component
        };
        assert(glob_text@ =~= component_glob(component@));
        if glob_text.unicode_len() == 0 {
            return Err(SelectorError::EmptyTagPattern { component: index });
        }
        match glob::Pattern::new(glob_text) {
            Ok(compiled) => {
                if by_tag {
                    Ok(NodeFilter::TagFilter(compiled))
                } else {
                    Ok(NodeFilter::NameFilter(compiled))
                }
            },
            Err(_) => Err(SelectorError::InvalidGlob { component: index }),
        }
    }

    /// The text of the filter's glob.
    pub fn pattern(&self) -> (res: &str)
        ensures
            self@ == FilterModel::Name(res@) || self@ == FilterModel::Tag(res@),
    {
        match self {
            NodeFilter::NameFilter(compiled) => compiled.as_str(),
            NodeFilter::TagFilter(compiled) => compiled.as_str(),
        }
    }

    /// Whether the filter selects the node with the given name and
    /// attributes.
    pub fn matches(&self, name: &NodeName, config: &NodeConfig) -> (res: bool)
        ensures
            res == filter_selects(self@, (name@, config@)),
            self@ == FilterModel::Name(wildcard()) ==> res,
    {
        match self {
            NodeFilter::NameFilter(compiled) => compiled.matches(name.as_str()),
            NodeFilter::TagFilter(compiled) => {
                let tags = config.tags();
                let mut i: usize = 0;
                while i < tags.len()
                    invariant
                        i <= tags.len(),
                        self@ == FilterModel::Tag(pattern_source(*compiled)),
                        views(tags@) == config.tag_list(),
                        forall|j: int|
                            0 <= j < i ==> !glob_accepts(
                                pattern_source(*compiled),
                                #[trigger] views(tags@)[j],
                            ),
                    decreases tags.len() - i,
                {
                    if compiled.matches(tags[i].as_str()) {
                        proof {
                            let tag = tags[i as int]@;
                            assert(views(tags@)[i as int] == tag);
                            assert(config.tag_list().contains(tag));
                            assert(config@.contains(tag));
                        }
                        return true;
                    }
                    i = i + 1;
                }
                false
            },
        }
    }
}

/// Compiles a selector into its filters. The empty selector gives no
/// filter; otherwise every component must be acceptable, and the first one
/// that is not decides the error.
pub fn parse_selector(selector: &str) -> (res: Result<Vec<NodeFilter>, SelectorError>)
    ensures
        res is Ok <==> selector_valid(selector@),
        res matches Ok(filters) ==> filter_views(filters@) == selector_filters(selector@),
        res matches Err(e) ==> rejected_with(selector@, e),
        selector@ == wildcard() ==> res is Ok,
{
    let mut filters: Vec<NodeFilter> = Vec::new();
    if selector.unicode_len() == 0 {
        assert(filter_views(filters@) =~= selector_filters(selector@));
        return Ok(filters);
    }
    let parts = split_on(selector, ',');
    let ghost texts = components(selector@);
    proof {
        lemma_wildcard_selector();
    }
    let mut i: usize = 0;
    while i < parts.len()
        invariant
            i <= parts.len(),
            views(parts@) == texts,
            texts == components(selector@),
            selector@ == wildcard() ==> texts == seq![wildcard()],
            components_valid(texts, i as int),
            filter_views(filters@) == texts.take(i as int).map_values(
                |c: Seq<char>| component_filter(c),
            ),
        decreases parts.len() - i,
    {
        assert(views(parts@)[i as int] == parts[i as int]@);
        match NodeFilter::parse(parts[i].as_str(), i) {
            Ok(filter) => {
                let ghost before = filters@;
                filters.push(filter);
                assert(filter_views(filters@) =~= filter_views(before).push(filter@));
                assert(texts.take(i as int + 1) =~= texts.take(i as int).push(texts[i as int]));
                assert(filter_views(filters@) =~= texts.take(i as int + 1).map_values(
                    |c: Seq<char>| component_filter(c),
                ));
            },
            Err(e) => {
                assert(component_error(texts[i as int], (i as int) as usize) == Some(e));
                return Err(e);
            },
        }
        i = i + 1;
    }
    assert(texts.take(i as int) =~= texts);
    Ok(filters)
}

/// Whether the filters select the node with the given name and attributes:
/// as soon as one of them does, and always when there is no filter.
pub fn node_selected(filters: &Vec<NodeFilter>, name: &NodeName, config: &NodeConfig) -> (res:
    bool)
    ensures
        res == selects(filter_views(filters@), (name@, config@)),
        has_wildcard(filter_views(filters@)) ==> res,
{
    if filters.len() == 0 {
        return true;
    }
    let mut i: usize = 0;
    while i < filters.len()
        invariant
            i <= filters.len(),
            forall|j: int|
                0 <= j < i ==> !(#[trigger] filter_selects(
                    filter_views(filters@)[j],
                    (name@, config@),
                )),
            forall|j: int|
                0 <= j < i ==> #[trigger] filter_views(filters@)[j] != FilterModel::Name(
                    wildcard(),
                ),
        decreases filters.len() - i,
    {
        if filters[i].matches(name, config) {
            assert(filter_selects(filter_views(filters@)[i as int], (name@, config@)));
            return true;
        }
        i = i + 1;
    }
    false
}

/// The names of the nodes whose verdict is `true`, in the order of the
/// registry. `verdicts[i]` is the verdict on the node at position `i`; a
/// node without a verdict is left out.
pub fn pick_selected(nodes: &NodeRegistry, verdicts: &Vec<bool>) -> (res: Vec<NodeName>)
    ensures
        name_views(res@) == picked(nodes.names(), verdicts@),
{
    let mut res: Vec<NodeName> = Vec::new();
    let n = nodes.len();
    let mut i: usize = 0;
    while i < n
        invariant
            i <= n,
            n == nodes.nodes().len(),
            name_views(res@) == picked(nodes.names().take(i as int), verdicts@),
        decreases n - i,
    {
        proof {
            let head = nodes.names().take(i as int + 1);
            assert(head.drop_last() =~= nodes.names().take(i as int));
            assert(head.last() == nodes.nodes()[i as int].0);
        }
        if i < verdicts.len() && verdicts[i] {
            let ghost before = res@;
            let name = nodes.entry(i).0.clone();
            res.push(name);
            assert(name_views(res@) =~= name_views(before).push(name@));
        }
        i = i + 1;
    }
    assert(nodes.names().take(i as int) =~= nodes.names());
    res
}

/// Verdicts that agree with a predicate pick what the predicate filters.
pub proof fn lemma_picked_is_filter(
    nodes: Seq<NodeModel>,
    verdicts: Seq<bool>,
    pred: spec_fn(NodeModel) -> bool,
)
    requires
        verdicts.len() == nodes.len(),
        forall|i: int| 0 <= i < nodes.len() ==> verdicts[i] == pred(#[trigger] nodes[i]),
    ensures
        picked(names_of(nodes), verdicts) == names_of(nodes.filter(pred)),
    decreases nodes.len(),
{
    reveal(Seq::filter);
    if nodes.len() == 0 {
        assert(names_of(nodes.filter(pred)) =~= Seq::<Seq<char>>::empty());
    } else {
        let front = nodes.drop_last();
        lemma_picked_is_filter(front, verdicts.drop_last(), pred);
        lemma_picked_ignores_later_verdicts(names_of(front), verdicts.drop_last(), verdicts);
        assert(names_of(nodes).drop_last() =~= names_of(front));
        assert(names_of(nodes).last() == nodes.last().0);
        if pred(nodes.last()) {
            assert(names_of(nodes.filter(pred)) =~= names_of(front.filter(pred)).push(
                nodes.last().0,
            ));
        }
    }
}

/// Where every verdict is `true`, every name is picked.
pub proof fn lemma_picked_all(names: Seq<Seq<char>>, verdicts: Seq<bool>)
    requires
        names.len() <= verdicts.len(),
        forall|i: int| 0 <= i < names.len() ==> #[trigger] verdicts[i],
    ensures
        picked(names, verdicts) == names,
    decreases names.len(),
{
    if names.len() > 0 {
        lemma_picked_all(names.drop_last(), verdicts);
        assert(names.drop_last().push(names.last()) =~= names);
    }
}

/// Only the verdicts on the names at hand count.
proof fn lemma_picked_ignores_later_verdicts(
    names: Seq<Seq<char>>,
    short: Seq<bool>,
    long: Seq<bool>,
)
    requires
        names.len() <= short.len() <= long.len(),
        forall|i: int| 0 <= i < names.len() ==> short[i] == long[i],
    ensures
        picked(names, short) == picked(names, long),
    decreases names.len(),
{
    if names.len() > 0 {
        lemma_picked_ignores_later_verdicts(names.drop_last(), short, long);
    }
}

/// The names of the nodes that the filters select, in the order of the
/// registry. No filter at all selects every node.
pub fn select_nodes(nodes: &NodeRegistry, filters: &Vec<NodeFilter>) -> (res: Vec<NodeName>)
    ensures
        name_views(res@) == selection(nodes.nodes(), filter_views(filters@)),
        has_wildcard(filter_views(filters@)) ==> name_views(res@) == nodes.names(),
{
    let mut verdicts: Vec<bool> = Vec::new();
    let n = nodes.len();
    let mut i: usize = 0;
    while i < n
        invariant
            i <= n,
            n == nodes.nodes().len(),
            verdicts.len() == i,
            forall|j: int|
                0 <= j < i ==> verdicts[j] == selects(
                    filter_views(filters@),
                    #[trigger] nodes.nodes()[j],
                ),
            has_wildcard(filter_views(filters@)) ==> forall|j: int|
                0 <= j < i ==> #[trigger] verdicts[j],
        decreases n - i,
    {
        let (name, config) = nodes.entry(i);
        let verdict = node_selected(filters, name, config);
        assert(nodes.nodes()[i as int] == (name@, config@));
        verdicts.push(verdict);
        i = i + 1;
    }
    proof {
        let models = filter_views(filters@);
        lemma_picked_is_filter(nodes.nodes(), verdicts@, |n: NodeModel| selects(models, n));
        if has_wildcard(models) {
            lemma_picked_all(nodes.names(), verdicts@);
        }
    }
    pick_selected(nodes, &verdicts)
}

/// Whether `names` is the set of the registered names whose node the filters
/// select, each name once.
pub open spec fn is_selected_set(
    names: Seq<Seq<char>>,
    registry: Map<Seq<char>, Set<Seq<char>>>,
    filters: Seq<FilterModel>,
) -> bool {
    &&& names.no_duplicates()
    &&& forall|name: Seq<char>| #[trigger]
        names.contains(name) <==> registry.dom().contains(name) && selects(
            filters,
            (name, registry[name]),
        )
}

/// The names of the nodes that a selector selects: a node is selected as
/// soon as one component of the selector matches its name or, for a
/// component that begins with `@`, one of its tags. No name comes twice, and
/// the names come in the order of the registry. The empty selector and the
/// selector `*` select every node. A selector with a component that is not
/// acceptable selects nothing and is rejected as a whole.
pub fn filter_nodes(nodes: &NodeRegistry, filter: &str) -> (res: Result<
    Vec<NodeName>,
    SelectorError,
>)
    ensures
        res is Ok <==> selector_valid(filter@),
        res matches Ok(names) ==> name_views(names@) == selection(
            nodes.nodes(),
            selector_filters(filter@),
        ),
        res matches Ok(names) ==> is_selected_set(
            name_views(names@),
            nodes@,
            selector_filters(filter@),
        ),
        res matches Err(e) ==> rejected_with(filter@, e),
        filter@.len() == 0 || filter@ == wildcard() ==> (res matches Ok(names) && name_views(
            names@,
        ) == nodes.names()),
{
    match parse_selector(filter) {
        Ok(filters) => {
            proof {
                use_type_invariant(nodes);
                let chosen = selection(nodes.nodes(), selector_filters(filter@));
                assert forall|name: Seq<char>| #[trigger]
                    chosen.contains(name) <==> nodes@.dom().contains(name) && selects(
                        selector_filters(filter@),
                        (name, nodes@[name]),
                    ) by {
                    lemma_selection_is_a_set(nodes.nodes(), selector_filters(filter@), name);
                }
                lemma_selection_is_a_set(nodes.nodes(), selector_filters(filter@), Seq::empty());
                if filter@.len() == 0 {
                    assert(filter_views(filters@) =~= Seq::<FilterModel>::empty());
                    lemma_no_filter_selects_all(nodes.nodes());
                }
                if filter@ == wildcard() {
                    lemma_wildcard_selector();
                    assert(filter_views(filters@)[0] == FilterModel::Name(wildcard()));
                }
            }
            Ok(select_nodes(nodes, &filters))
        },
        Err(e) => Err(e),
    }
}

/// The selector `*` has one component, the glob `*` on names.
pub proof fn lemma_wildcard_selector()
    ensures
        components(wildcard()) == seq![wildcard()],
        selector_filters(wildcard()) == seq![FilterModel::Name(wildcard())],
{
    let star = wildcard();
    assert(split(star.drop_last(), ',') =~= seq![Seq::<char>::empty()]);
    assert(split(star, ',') =~= seq![star]) by {
        assert(star.drop_last() =~= Seq::<char>::empty());
        assert(Seq::<char>::empty().push('*') =~= star);
    }
    assert(selector_filters(star) =~= seq![FilterModel::Name(star)]);
}

/// A predicate that holds of every node keeps all the nodes.
proof fn lemma_filter_keeps_all(nodes: Seq<NodeModel>, pred: spec_fn(NodeModel) -> bool)
    requires
        forall|i: int| 0 <= i < nodes.len() ==> pred(#[trigger] nodes[i]),
    ensures
        nodes.filter(pred) == nodes,
    decreases nodes.len(),
{
    reveal(Seq::filter);
    if nodes.len() > 0 {
        lemma_filter_keeps_all(nodes.drop_last(), pred);
        assert(nodes.drop_last().push(nodes.last()) =~= nodes);
    }
}

/// Without a filter every node is selected: "no filter" means all, never
/// none.
pub proof fn lemma_no_filter_selects_all(nodes: Seq<NodeModel>)
    ensures
        selection(nodes, Seq::<FilterModel>::empty()) == names_of(nodes),
{
    let none = Seq::<FilterModel>::empty();
    lemma_filter_keeps_all(nodes, |n: NodeModel| selects(none, n));
}

} // verus!
