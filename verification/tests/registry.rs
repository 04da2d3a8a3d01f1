use colmena::node::{NodeConfig, NodeName, NodeRegistry};

fn config(tags: &[&str]) -> NodeConfig {
    NodeConfig::new(tags.iter().map(|t| t.to_string()).collect())
}

#[test]
fn new_registry_is_empty() {
    let reg = NodeRegistry::new();
    assert_eq!(reg.len(), 0);
    assert!(reg.node_names().is_empty());
    assert!(reg.get(&NodeName::new("a")).is_none());
}

#[test]
fn insert_registers_a_node() {
    let mut reg = NodeRegistry::new();
    assert!(reg.insert(NodeName::new("a"), config(&["x"])).is_none());
    assert!(reg.insert(NodeName::new("b"), config(&["y", "z"])).is_none());
    assert_eq!(reg.len(), 2);
    assert_eq!(reg.get(&NodeName::new("a")).unwrap().tags(), &vec!["x".to_string()]);
    assert_eq!(
        reg.get(&NodeName::new("b")).unwrap().tags(),
        &vec!["y".to_string(), "z".to_string()]
    );
    assert!(reg.get(&NodeName::new("c")).is_none());
}

#[test]
fn insert_under_a_registered_name_replaces_the_node() {
    let mut reg = NodeRegistry::new();
    reg.insert(NodeName::new("a"), config(&["old"]));
    reg.insert(NodeName::new("b"), config(&[]));
    let former = reg.insert(NodeName::new("a"), config(&["new"])).unwrap();
    assert_eq!(former.tags(), &vec!["old".to_string()]);
    assert_eq!(reg.len(), 2);
    assert_eq!(reg.get(&NodeName::new("a")).unwrap().tags(), &vec!["new".to_string()]);
    let names: Vec<String> = reg.node_names().iter().map(|n| n.as_str().to_string()).collect();
    assert_eq!(names, vec!["a", "b"]);
}

#[test]
fn entry_gives_the_node_at_a_position() {
    let mut reg = NodeRegistry::new();
    reg.insert(NodeName::new("a"), config(&["x"]));
    reg.insert(NodeName::new("b"), config(&["y"]));
    let (name, node) = reg.entry(1);
    assert_eq!(name.as_str(), "b");
    assert_eq!(node.tags(), &vec!["y".to_string()]);
}

#[test]
fn names_are_equal_when_their_text_is() {
    assert_eq!(NodeName::new("a"), NodeName::new("a"));
    assert_ne!(NodeName::new("a"), NodeName::new("b"));
    assert_eq!(NodeName::new("a").clone(), NodeName::new("a"));
    assert_eq!(NodeName::new("héllo").as_str(), "héllo");
}

#[test]
fn cloned_config_keeps_its_tags() {
    let c = config(&["a", "b", "a"]);
    assert_eq!(c.clone().tags(), c.tags());
}
