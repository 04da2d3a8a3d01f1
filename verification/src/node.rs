//! Nodes: their names, the attributes that selection reads, and the
//! registry that holds them.

use vstd::prelude::*;
use vstd::std_specs::cmp::PartialEqSpecImpl;
use crate::text::views;

verus! {

/// The name of a managed node. Two names are the same when their text is.
#[derive(Debug, Hash)]
pub struct NodeName(String);

impl View for NodeName {
    type V = Seq<char>;

    closed spec fn view(&self) -> Seq<char> {
        self.0@
    }
}

impl NodeName {
    /// The name with the given text.
    pub fn new(name: &str) -> (res: NodeName)
        ensures
            res@ == name@,
    {
        NodeName(name.to_owned())
    }

    /// The text of the name.
    pub fn as_str(&self) -> (res: &str)
        ensures
            res@ == self@,
    {
        self.0.as_str()
    }
}

impl Clone for NodeName {
    fn clone(&self) -> (res: NodeName)
        ensures
            res@ == self@,
    {
        NodeName(self.0.clone())
    }
}

impl PartialEq for NodeName {
    fn eq(&self, other: &NodeName) -> (res: bool) {
        self.0 == other.0
    }
}

impl Eq for NodeName {}

impl PartialEqSpecImpl for NodeName {
    open spec fn obeys_eq_spec() -> bool {
        true
    }

    open spec fn eq_spec(&self, other: &NodeName) -> bool {
        self@ == other@
    }
}

/// What selection reads of a node: its tags. The order of the tags and
/// repetitions among them carry no meaning.
#[derive(Debug)]
pub struct NodeConfig {
    tags: Vec<String>,
}

impl View for NodeConfig {
    type V = Set<Seq<char>>;

    open spec fn view(&self) -> Set<Seq<char>> {
        self.tag_list().to_set()
    }
}

impl NodeConfig {
    /// The tags as they are stored, in order.
    pub closed spec fn tag_list(&self) -> Seq<Seq<char>> {
        views(self.tags@)
    }

    /// A node with the given tags.
    pub fn new(tags: Vec<String>) -> (res: NodeConfig)
        ensures
            res.tag_list() == views(tags@),
    {
        NodeConfig { tags }
    }

    /// The tags of the node.
    pub fn tags(&self) -> (res: &Vec<String>)
        ensures
            views(res@) == self.tag_list(),
    {
        &self.tags
    }
}

impl Clone for NodeConfig {
    fn clone(&self) -> (res: NodeConfig)
        ensures
            res.tag_list() == self.tag_list(),
    {
        let mut tags: Vec<String> = Vec::new();
        let mut i: usize = 0;
        while i < self.tags.len()
            invariant
                i <= self.tags.len(),
                views(tags@) == views(self.tags@).take(i as int),
            decreases self.tags.len() - i,
        {
            let ghost before = tags@;
            tags.push(self.tags[i].clone());
            assert(views(tags@) =~= views(before).push(self.tags[i as int]@));
            assert(views(self.tags@).take(i as int + 1) =~= views(self.tags@).take(i as int).push(
                self.tags[i as int]@,
            ));
            i = i + 1;
        }
        assert(views(self.tags@).take(i as int) =~= views(self.tags@));
        NodeConfig { tags }
    }
}

/// The views of a sequence of names.
pub open spec fn name_views(names: Seq<NodeName>) -> Seq<Seq<char>> {
    names.map_values(|n: NodeName| n@)
}

/// What the contracts know of one registered node: its name and its tags.
pub type NodeModel = (Seq<char>, Set<Seq<char>>);

/// The nodes of a deployment, each under its own name. The nodes keep the
/// order in which their names were first registered.
#[derive(Debug)]
pub struct NodeRegistry {
    entries: Vec<(NodeName, NodeConfig)>,
}

/// What the contracts know of the stored entries.
spec fn models(entries: Seq<(NodeName, NodeConfig)>) -> Seq<NodeModel> {
    entries.map_values(|e: (NodeName, NodeConfig)| (e.0@, e.1@))
}

/// The names of the given nodes, in order.
pub open spec fn names_of(nodes: Seq<NodeModel>) -> Seq<Seq<char>> {
    nodes.map_values(|n: NodeModel| n.0)
}

/// The mapping from name to tags that the given nodes stand for. Where a
/// name occurs more than once, one of its occurrences gives the tags.
pub open spec fn mapping_of(nodes: Seq<NodeModel>) -> Map<Seq<char>, Set<Seq<char>>> {
    Map::new(
        |name: Seq<char>| names_of(nodes).contains(name),
        |name: Seq<char>| nodes[names_of(nodes).index_of(name)].1,
    )
}

/// Among nodes with distinct names, each name maps to the tags of its node.
pub proof fn lemma_mapping_at(nodes: Seq<NodeModel>, i: int)
    requires
        names_of(nodes).no_duplicates(),
        0 <= i < nodes.len(),
    ensures
        mapping_of(nodes).dom().contains(nodes[i].0),
        mapping_of(nodes)[nodes[i].0] == nodes[i].1,
{
    let names = names_of(nodes);
    assert(names[i] == nodes[i].0);
    assert(names.contains(nodes[i].0));
    let j = names.index_of(nodes[i].0);
    assert(names[j] == names[i]);
}

/// A node under a new name extends the mapping by that name.
pub proof fn lemma_mapping_push(nodes: Seq<NodeModel>, node: NodeModel)
    requires
        names_of(nodes).no_duplicates(),
        !names_of(nodes).contains(node.0),
    ensures
        names_of(nodes.push(node)).no_duplicates(),
        mapping_of(nodes.push(node)) == mapping_of(nodes).insert(node.0, node.1),
{
    let grown = nodes.push(node);
    assert(names_of(grown) =~= names_of(nodes).push(node.0));
    assert forall|name: Seq<char>| names_of(grown).contains(name) <==> (names_of(nodes).contains(
        name,
    ) || name == node.0) by {
        if names_of(nodes).contains(name) {
            let j = names_of(nodes).index_of(name);
            assert(names_of(grown)[j] == name);
        }
        if name == node.0 {
            assert(names_of(grown)[nodes.len() as int] == name);
        }
    }
    assert forall|name: Seq<char>| names_of(grown).contains(name) implies mapping_of(grown)[name]
        == mapping_of(nodes).insert(node.0, node.1)[name] by {
        let j = names_of(grown).index_of(name);
        lemma_mapping_at(grown, j);
        if j < nodes.len() {
            lemma_mapping_at(nodes, j);
        }
    }
    assert(mapping_of(grown) =~= mapping_of(nodes).insert(node.0, node.1));
}

/// New tags for a node that keeps its name change the mapping at that name
/// alone.
pub proof fn lemma_mapping_update(nodes: Seq<NodeModel>, i: int, node: NodeModel)
    requires
        names_of(nodes).no_duplicates(),
        0 <= i < nodes.len(),
        nodes[i].0 == node.0,
    ensures
        names_of(nodes.update(i, node)) == names_of(nodes),
        mapping_of(nodes.update(i, node)) == mapping_of(nodes).insert(node.0, node.1),
{
    let changed = nodes.update(i, node);
    assert(names_of(changed) =~= names_of(nodes));
    assert(names_of(nodes).contains(node.0)) by {
        assert(names_of(nodes)[i] == node.0);
    }
    assert forall|name: Seq<char>| names_of(changed).contains(name) implies mapping_of(
        changed,
    )[name] == mapping_of(nodes).insert(node.0, node.1)[name] by {
        let j = names_of(changed).index_of(name);
        lemma_mapping_at(changed, j);
        lemma_mapping_at(nodes, j);
    }
    assert(mapping_of(changed) =~= mapping_of(nodes).insert(node.0, node.1));
}

impl View for NodeRegistry {
    type V = Map<Seq<char>, Set<Seq<char>>>;

    open spec fn view(&self) -> Map<Seq<char>, Set<Seq<char>>> {
        mapping_of(self.nodes())
    }
}

impl NodeRegistry {
    /// The registered nodes, in order of registration.
    pub closed spec fn nodes(&self) -> Seq<NodeModel> {
        models(self.entries@)
    }

    /// The registered names, in order of registration.
    pub open spec fn names(&self) -> Seq<Seq<char>> {
        names_of(self.nodes())
    }

    /// No name is registered twice. This holds of every registry that
    /// exists at run time.
    #[verifier::type_invariant]
    pub open spec fn wf(&self) -> bool {
        self.names().no_duplicates()
    }

    /// The registry without nodes.
    pub fn new() -> (res: NodeRegistry)
        ensures
            res.nodes() == Seq::<NodeModel>::empty(),
            res.wf(),
    {
        let res = NodeRegistry { entries: Vec::new() };
        assert(res.nodes() =~= Seq::<NodeModel>::empty());
        res
    }

    /// The number of registered nodes.
    pub fn len(&self) -> (res: usize)
        ensures
            res == self.nodes().len(),
    {
        self.entries.len()
    }

    /// The position at which `name` is registered, if it is.
    fn position(&self, name: &NodeName) -> (res: Option<usize>)
        ensures
            match res {
                Some(i) => i < self.nodes().len() && self.names()[i as int] == name@,
                None => !self.names().contains(name@),
            },
    {
        let mut i: usize = 0;
        while i < self.entries.len()
            invariant
                i <= self.entries.len(),
                forall|j: int| 0 <= j < i ==> self.names()[j] != name@,
            decreases self.entries.len() - i,
        {
            if self.entries[i].0 == *name {
                return Some(i);
            }
            i = i + 1;
        }
        None
    }

    /// The node at position `i`: its name and its attributes.
    pub fn entry(&self, i: usize) -> (res: (&NodeName, &NodeConfig))
        requires
            i < self.nodes().len(),
        ensures
            res.0@ == self.nodes()[i as int].0,
            res.1@ == self.nodes()[i as int].1,
    {
        (&self.entries[i].0, &self.entries[i].1)
    }

    /// The names of all registered nodes, in order of registration.
    pub fn node_names(&self) -> (res: Vec<NodeName>)
        ensures
            name_views(res@) == self.names(),
    {
        let mut res: Vec<NodeName> = Vec::new();
        let mut i: usize = 0;
        while i < self.entries.len()
            invariant
                i <= self.entries.len(),
                name_views(res@) == self.names().take(i as int),
            decreases self.entries.len() - i,
        {
            let ghost before = res@;
            let name = self.entries[i].0.clone();
            res.push(name);
            assert(name_views(res@) =~= name_views(before).push(name@));
            assert(self.names().take(i as int + 1) =~= self.names().take(i as int).push(
                self.names()[i as int],
            ));
            i = i + 1;
        }
        assert(self.names().take(i as int) =~= self.names());
        res
    }

    /// The attributes registered under `name`.
    pub fn get(&self, name: &NodeName) -> (res: Option<&NodeConfig>)
        ensures
            res is Some <==> self@.dom().contains(name@),
            res matches Some(config) ==> config@ == self@[name@],
    {
        proof {
            use_type_invariant(self);
        }
        match self.position(name) {
            Some(i) => {
                proof {
                    lemma_mapping_at(self.nodes(), i as int);
                }
                Some(&self.entries[i].1)
            },
            None => None,
        }
    }

    /// Registers `config` under `name`. A node already registered under that
    /// name keeps its place, and its former attributes are handed back.
    pub fn insert(&mut self, name: NodeName, config: NodeConfig) -> (res: Option<NodeConfig>)
        ensures
            final(self).wf(),
            final(self)@ == old(self)@.insert(name@, config@),
            res is Some <==> old(self).names().contains(name@),
            res matches Some(former) ==> former@ == old(self)@[name@],
            match res {
                Some(_) => exists|i: int|
                    {
                        &&& 0 <= i < old(self).nodes().len()
                        &&& #[trigger] old(self).names()[i] == name@
                        &&& final(self).nodes() == old(self).nodes().update(i, (name@, config@))
                    },
                None => final(self).nodes() == old(self).nodes().push((name@, config@)),
            },
    {
        proof {
            use_type_invariant(&*self);
        }
        let ghost before = self.nodes();
        let ghost node: NodeModel = (name@, config@);
        let found = self.position(&name);
        let mut entries: Vec<(NodeName, NodeConfig)> = Vec::new();
        assert(models(entries@) =~= Seq::<NodeModel>::empty());
        core::mem::swap(&mut self.entries, &mut entries);
        let res = match found {
            Some(i) => {
                proof {
                    lemma_mapping_at(before, i as int);
                    lemma_mapping_update(before, i as int, node);
                }
                let mut slot = (name, config);
                entries.set_and_swap(i, &mut slot);
                assert(models(entries@) =~= before.update(i as int, node));
                Some(slot.1)
            },
            None => {
                proof {
                    lemma_mapping_push(before, node);
                }
                entries.push((name, config));
                assert(models(entries@) =~= before.push(node));
                None
            },
        };
        core::mem::swap(&mut self.entries, &mut entries);
        res
    }
}

} // verus!
