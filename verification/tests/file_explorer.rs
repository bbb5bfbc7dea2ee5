use sample_explorer::file_explorer::{
    ContainerStatus, Effect, FileExplorer, FileExplorerModel, Message, NewEntry, NodeId, Request,
};

fn file(name: &str) -> NewEntry {
    NewEntry::File { path_component: name.to_string() }
}

fn directory(name: &str) -> NewEntry {
    NewEntry::Directory { path_component: name.to_string() }
}

fn strings(components: &[&str]) -> Vec<String> {
    components.iter().map(|component| component.to_string()).collect()
}

fn opened(root: &str) -> FileExplorer {
    let mut explorer = FileExplorer::new();
    let effect = explorer.set_root_path(root.to_string());
    assert!(matches!(effect, Effect::Load(id, path) if id == NodeId::new(0) && path == strings(&[root])));
    explorer
}

/// The rows on display: name and depth of every visible node but the root.
fn rows(explorer: &FileExplorer) -> Vec<(String, usize)> {
    let model = explorer.model().expect("a root was chosen");
    model
        .linear_visit()
        .iter()
        .filter(|(id, _)| *id != model.root_id())
        .map(|(id, depth)| (model.path_component(*id).expect("visible nodes are in the index"), *depth))
        .collect()
}

fn row(name: &str, depth: usize) -> (String, usize) {
    (name.to_string(), depth)
}

#[test]
fn test_load_file() {
    let mut explorer = opened("/samples");
    let root_node_id = NodeId::new(0);
    explorer.update(Message::ChildrenLoaded(root_node_id, vec![file("test_sine_L.wav")]));
    assert_eq!(rows(&explorer), vec![row("test_sine_L.wav", 1)]);
}

#[test]
fn test_load_tree() {
    let mut explorer = opened("/samples");
    let root_node_id = NodeId::new(0);
    let foo_node_id = NodeId::new(1);
    explorer.update(Message::ChildrenLoaded(root_node_id, vec![directory("foo")]));
    explorer.update(Message::ChildrenLoaded(foo_node_id, vec![file("test_sine_L.wav")]));
    assert_eq!(rows(&explorer), vec![row("foo", 1), row("test_sine_L.wav", 2)]);
}

#[test]
fn test_collapse() {
    let mut explorer = opened("/samples");
    let root_node_id = NodeId::new(0);
    let foo_node_id = NodeId::new(1);
    explorer.update(Message::ChildrenLoaded(root_node_id, vec![directory("foo"), directory("bar")]));
    explorer.update(Message::ChildrenLoaded(foo_node_id, vec![file("test_sine_L.wav")]));
    explorer.update(Message::Collapse(foo_node_id));
    assert_eq!(rows(&explorer), vec![row("foo", 1), row("bar", 1)]);
    let model = explorer.model().unwrap();
    assert!(matches!(model.status(foo_node_id), Some(ContainerStatus::Collapsed)));
    assert!(matches!(model.status(NodeId::new(2)), Some(ContainerStatus::NotLoaded)));
}

#[test]
fn test_select() {
    let mut explorer = opened("/samples");
    let root_node_id = NodeId::new(0);
    explorer.update(Message::ChildrenLoaded(root_node_id, vec![file("test_sine_L.wav")]));
    let effect = explorer.update(Message::Select(Some(NodeId::new(1))));
    assert!(matches!(effect, Effect::SelectFile(Some(path)) if path == strings(&["/samples", "test_sine_L.wav"])));
    assert_eq!(explorer.model().unwrap().selection(), Some(NodeId::new(1)));
}

#[test]
fn test_select_next() {
    let mut explorer = opened("/samples");
    let root_node_id = NodeId::new(0);
    explorer.update(Message::ChildrenLoaded(root_node_id, vec![file("test_sine_L.wav"), file("test_sine_LR.wav")]));
    explorer.update(Message::Select(Some(NodeId::new(1))));
    let effect = explorer.update(Message::SelectNext);
    assert!(matches!(effect, Effect::SelectFile(Some(path)) if path == strings(&["/samples", "test_sine_LR.wav"])));
    assert_eq!(explorer.model().unwrap().selection(), Some(NodeId::new(2)));
    // The last row has no successor.
    assert!(matches!(explorer.update(Message::SelectNext), Effect::Nothing));
    assert_eq!(explorer.model().unwrap().selection(), Some(NodeId::new(2)));
}

#[test]
fn test_select_previous() {
    let mut explorer = opened("/samples");
    let root_node_id = NodeId::new(0);
    explorer.update(Message::ChildrenLoaded(root_node_id, vec![file("test_sine_L.wav"), file("test_sine_LR.wav")]));
    explorer.update(Message::Select(Some(NodeId::new(2))));
    let effect = explorer.update(Message::SelectPrevious);
    assert!(matches!(effect, Effect::SelectFile(Some(path)) if path == strings(&["/samples", "test_sine_L.wav"])));
    assert_eq!(explorer.model().unwrap().selection(), Some(NodeId::new(1)));
}

#[test]
fn test_removed() {
    let mut explorer = opened("/samples");
    let root_node_id = NodeId::new(0);
    let foo_node_id = NodeId::new(1);
    let bar_node_id = NodeId::new(2);
    explorer.update(Message::ChildrenLoaded(root_node_id, vec![directory("foo"), directory("bar")]));
    explorer.update(Message::ChildrenLoaded(foo_node_id, vec![file("test_sine_L.wav")]));
    explorer.update(Message::ChildrenLoaded(bar_node_id, vec![file("test_sine_R.wav")]));
    assert_eq!(
        rows(&explorer),
        vec![row("foo", 1), row("test_sine_L.wav", 2), row("bar", 1), row("test_sine_R.wav", 2)]
    );
    explorer.update(Message::Removed(strings(&["/samples", "foo"])));
    assert_eq!(rows(&explorer), vec![row("bar", 1), row("test_sine_R.wav", 2)]);
}

#[test]
fn messages_without_a_tree_do_nothing() {
    let mut explorer = FileExplorer::new();
    assert!(explorer.model().is_none());
    assert!(matches!(explorer.update(Message::SelectNext), Effect::Nothing));
    assert!(matches!(explorer.update(Message::Select(Some(NodeId::new(0)))), Effect::Nothing));
    assert!(matches!(explorer.update(Message::ChildrenLoaded(NodeId::new(0), vec![file("a.wav")])), Effect::Nothing));
    assert!(matches!(explorer.update(Message::Added(strings(&["a.wav"]))), Effect::Nothing));
    assert!(explorer.model().is_none());
    let effect = explorer.update(Message::RequestLoad(NodeId::new(3), strings(&["/samples", "foo"])));
    assert!(matches!(effect, Effect::Load(id, path) if id == NodeId::new(3) && path == strings(&["/samples", "foo"])));
}

#[test]
fn entries_already_present_are_not_added_again() {
    let mut model = FileExplorerModel::new("/samples".to_string());
    model.add(NodeId::new(0), vec![file("a.wav"), directory("drums"), file("a.wav")]);
    model.add(NodeId::new(0), vec![directory("drums"), file("b.wav")]);
    model.update_linear_index();
    let ids: Vec<(NodeId, usize)> = model.linear_visit().clone();
    assert_eq!(ids, vec![(NodeId::new(0), 0), (NodeId::new(1), 1), (NodeId::new(2), 1), (NodeId::new(3), 1)]);
    assert_eq!(model.path_component(NodeId::new(3)), Some("b.wav".to_string()));
    assert_eq!(model.path_component(NodeId::new(4)), None);
}

#[test]
fn nothing_is_added_below_a_file_or_a_missing_node() {
    let mut model = FileExplorerModel::new("/samples".to_string());
    model.add(NodeId::new(0), vec![file("a.wav")]);
    model.add(NodeId::new(1), vec![file("b.wav")]);
    model.add(NodeId::new(9), vec![file("c.wav")]);
    assert_eq!(model.path_component(NodeId::new(2)), None);
    assert!(matches!(model.status(NodeId::new(1)), Some(ContainerStatus::Empty)));
}

#[test]
fn loading_expands_a_directory() {
    let mut model = FileExplorerModel::new("/samples".to_string());
    model.add(NodeId::new(0), vec![directory("drums")]);
    assert!(matches!(model.status(NodeId::new(0)), Some(ContainerStatus::Expanded)));
    assert!(matches!(model.status(NodeId::new(1)), Some(ContainerStatus::NotLoaded)));
    assert!(model.is_directory(NodeId::new(1)));
    assert!(!model.is_directory(NodeId::new(0)));
    model.add(NodeId::new(1), Vec::new());
    assert!(matches!(model.status(NodeId::new(1)), Some(ContainerStatus::Expanded)));
    assert!(model.status(NodeId::new(2)).is_none());
}

#[test]
fn status_of_root_and_files_cannot_be_set() {
    let mut model = FileExplorerModel::new("/samples".to_string());
    model.add(NodeId::new(0), vec![file("a.wav")]);
    model.set_status(NodeId::new(0), ContainerStatus::Collapsed);
    model.set_status(NodeId::new(1), ContainerStatus::Expanded);
    model.set_status(NodeId::new(7), ContainerStatus::Expanded);
    assert!(matches!(model.status(NodeId::new(0)), Some(ContainerStatus::Expanded)));
    assert!(matches!(model.status(NodeId::new(1)), Some(ContainerStatus::Empty)));
}

#[test]
fn linear_index_goes_depth_first() {
    let mut model = FileExplorerModel::new("/samples".to_string());
    model.add(NodeId::new(0), vec![directory("a"), directory("b"), file("z.wav")]);
    model.add(NodeId::new(1), vec![directory("a1"), file("a2.wav")]);
    model.add(NodeId::new(2), vec![file("b1.wav")]);
    model.add(NodeId::new(4), vec![file("a11.wav")]);
    model.update_linear_index();
    let expected: Vec<(NodeId, usize)> =
        [(0, 0), (1, 1), (4, 2), (7, 3), (5, 2), (2, 1), (6, 2), (3, 1)].iter().map(|(id, depth)| (NodeId::new(*id), *depth)).collect();
    assert_eq!(*model.linear_visit(), expected);
    assert_eq!(model.next(NodeId::new(7)), Some(NodeId::new(5)));
    assert_eq!(model.previous(NodeId::new(2)), Some(NodeId::new(5)));
    assert_eq!(model.previous(NodeId::new(0)), None);
    assert_eq!(model.next(NodeId::new(3)), None);
    assert_eq!(model.next(NodeId::new(42)), None);
    model.set_status(NodeId::new(1), ContainerStatus::Collapsed);
    // The linear index is a snapshot: it follows only when it is updated.
    assert_eq!(model.linear_visit().len(), 8);
    model.update_linear_index();
    let expected: Vec<(NodeId, usize)> =
        [(0, 0), (1, 1), (2, 1), (6, 2), (3, 1)].iter().map(|(id, depth)| (NodeId::new(*id), *depth)).collect();
    assert_eq!(*model.linear_visit(), expected);
}

#[test]
fn paths_and_nodes_mirror_each_other() {
    let mut model = FileExplorerModel::new("/samples".to_string());
    model.add(NodeId::new(0), vec![directory("drums"), file("a.wav")]);
    model.add(NodeId::new(1), vec![file("kick.wav"), directory("snares")]);
    model.add(NodeId::new(4), vec![file("tight.wav")]);
    assert_eq!(model.path(NodeId::new(0)), strings(&["/samples"]));
    assert_eq!(model.path(NodeId::new(3)), strings(&["/samples", "drums", "kick.wav"]));
    assert_eq!(model.path(NodeId::new(5)), strings(&["/samples", "drums", "snares", "tight.wav"]));
    assert!(model.path(NodeId::new(6)).is_empty());
    assert_eq!(model.node(&strings(&["/samples"])), Some(NodeId::new(0)));
    assert_eq!(model.node(&strings(&["/samples", "drums", "kick.wav"])), Some(NodeId::new(3)));
    assert_eq!(model.node(&strings(&["/samples", "drums", "snares", "tight.wav"])), Some(NodeId::new(5)));
    for id in 0..6 {
        assert_eq!(model.node(&model.path(NodeId::new(id))), Some(NodeId::new(id)));
    }
    assert_eq!(model.node(&strings(&["/samples", "drums", "hats"])), None);
    assert_eq!(model.node(&strings(&["/samples", "a.wav", "kick.wav"])), None);
    // A path that does not begin with the root has no node.
    assert_eq!(model.node(&Vec::new()), None);
    assert_eq!(model.node(&strings(&["drums", "kick.wav"])), None);
    assert_eq!(model.node(&strings(&["/other", "drums"])), None);
    assert_eq!(model.parent(NodeId::new(5)), Some(NodeId::new(4)));
    assert_eq!(model.parent(NodeId::new(0)), None);
    assert_eq!(model.parent(NodeId::new(6)), None);
}

#[test]
fn removed_node_leaves_its_parent_and_the_index() {
    let mut model = FileExplorerModel::new("/samples".to_string());
    model.add(NodeId::new(0), vec![directory("drums"), file("a.wav")]);
    model.add(NodeId::new(1), vec![file("kick.wav")]);
    model.remove(NodeId::new(1));
    assert_eq!(*model.linear_visit(), vec![(NodeId::new(0), 0), (NodeId::new(2), 1)]);
    assert_eq!(model.path_component(NodeId::new(1)), None);
    // What was below stays in the index, cut off from the root.
    assert_eq!(model.path_component(NodeId::new(3)), Some("kick.wav".to_string()));
    assert_eq!(model.parent(NodeId::new(3)), None);
    assert_eq!(model.path(NodeId::new(3)), strings(&["kick.wav"]));
    assert_eq!(model.node(&strings(&["/samples", "drums"])), None);
    // A directory of the same name can come back under a new number.
    model.add(NodeId::new(0), vec![directory("drums")]);
    assert_eq!(model.node(&strings(&["/samples", "drums"])), Some(NodeId::new(4)));
}

#[test]
fn root_cannot_be_removed() {
    let mut model = FileExplorerModel::new("/samples".to_string());
    model.add(NodeId::new(0), vec![file("a.wav")]);
    model.update_linear_index();
    model.remove(NodeId::new(0));
    model.remove(NodeId::new(5));
    assert_eq!(*model.linear_visit(), vec![(NodeId::new(0), 0), (NodeId::new(1), 1)]);
}

#[test]
fn opening_and_closing_the_selected_directory() {
    let mut explorer = opened("/samples");
    explorer.update(Message::ChildrenLoaded(NodeId::new(0), vec![directory("drums"), file("a.wav")]));
    assert!(matches!(explorer.update(Message::ExpandCollapseCurrent), Effect::Nothing));
    explorer.update(Message::Select(Some(NodeId::new(1))));
    let effect = explorer.update(Message::ExpandCollapseCurrent);
    assert!(matches!(effect, Effect::Load(id, path) if id == NodeId::new(1) && path == strings(&["/samples", "drums"])));
    explorer.update(Message::ChildrenLoaded(NodeId::new(1), vec![file("kick.wav")]));
    assert!(matches!(explorer.update(Message::ExpandCollapseCurrent), Effect::Collapse(id) if id == NodeId::new(1)));
    explorer.update(Message::Collapse(NodeId::new(1)));
    assert!(matches!(explorer.update(Message::ExpandCollapseCurrent), Effect::Expand(id) if id == NodeId::new(1)));
    explorer.update(Message::Expand(NodeId::new(1)));
    assert_eq!(rows(&explorer), vec![row("drums", 1), row("kick.wav", 2), row("a.wav", 1)]);
    explorer.update(Message::Select(Some(NodeId::new(2))));
    assert!(matches!(explorer.update(Message::ExpandCollapseCurrent), Effect::Nothing));
    let model = explorer.model().unwrap();
    assert!(matches!(model.expand_collapse(NodeId::new(0)), None));
    assert!(matches!(model.expand_collapse(NodeId::new(1)), Some(Request::Collapse(id)) if id == NodeId::new(1)));
}

#[test]
fn added_path_reloads_its_directory() {
    let mut explorer = opened("/samples");
    explorer.update(Message::ChildrenLoaded(NodeId::new(0), vec![directory("drums")]));
    let effect = explorer.update(Message::Added(strings(&["/samples", "drums", "new.wav"])));
    assert!(matches!(effect, Effect::Load(id, path) if id == NodeId::new(1) && path == strings(&["/samples", "drums"])));
    let effect = explorer.update(Message::Added(strings(&["/samples", "new.wav"])));
    assert!(matches!(effect, Effect::Load(id, path) if id == NodeId::new(0) && path == strings(&["/samples"])));
    assert!(matches!(explorer.update(Message::Added(strings(&["/samples", "hats", "new.wav"]))), Effect::Nothing));
    assert!(matches!(explorer.update(Message::Added(strings(&["/samples"]))), Effect::Nothing));
    assert!(matches!(explorer.update(Message::Added(strings(&["/elsewhere", "new.wav"]))), Effect::Nothing));
    assert!(matches!(explorer.update(Message::Added(Vec::new())), Effect::Nothing));
}

#[test]
fn clearing_the_selection_selects_no_file() {
    let mut explorer = opened("/samples");
    explorer.update(Message::ChildrenLoaded(NodeId::new(0), vec![file("a.wav")]));
    explorer.update(Message::Select(Some(NodeId::new(1))));
    assert!(matches!(explorer.update(Message::Select(None)), Effect::SelectFile(None)));
    assert_eq!(explorer.model().unwrap().selection(), None);
    assert!(matches!(explorer.update(Message::SelectPrevious), Effect::Nothing));
}

#[test]
fn new_entry_gives_its_name() {
    assert_eq!(file("a.wav").path_component(), "a.wav");
    assert_eq!(directory("drums").path_component(), "drums");
}
