use release_automation::graph::{LoadError, PackageGraph};
use release_automation::package::{
    ChangelogStatus, Dependency, DependencyKind, EdgeFilter, Package,
};

fn edge(name: &str, kind: DependencyKind, optional: bool) -> Dependency {
    Dependency { name: name.to_string(), kind, optional }
}

fn normal(name: &str) -> Dependency {
    edge(name, DependencyKind::Normal, false)
}

fn package(name: &str, version: &str, dependencies: Vec<Dependency>) -> Package {
    Package {
        name: name.to_string(),
        version: version.to_string(),
        root: format!("/ws/{}", name),
        readme: true,
        changelog: ChangelogStatus::Releasable,
        dependencies,
    }
}

fn graph_of(packages: Vec<Package>) -> PackageGraph {
    PackageGraph::try_new(packages).unwrap()
}

fn names(graph: &PackageGraph, indices: &Vec<usize>) -> Vec<String> {
    graph.names(indices)
}

#[test]
fn empty_workspace_loads() {
    let graph = graph_of(vec![]);
    assert_eq!(0, graph.len());
    assert!(graph.members().is_empty());
}

#[test]
fn duplicate_name_is_a_load_error() {
    let result = PackageGraph::try_new(vec![
        package("a", "1.0.0", vec![]),
        package("b", "1.0.0", vec![]),
        package("a", "2.0.0", vec![]),
    ]);
    assert_eq!(LoadError::DuplicateName, result.unwrap_err());
}

#[test]
fn malformed_version_is_a_load_error() {
    let result = PackageGraph::try_new(vec![
        package("a", "1.0.0", vec![]),
        package("b", "1.0", vec![]),
    ]);
    assert_eq!(LoadError::MalformedVersion, result.unwrap_err());
}

#[test]
fn well_formed_versions_load() {
    let result = PackageGraph::try_new(vec![
        package("a", "1.0.0", vec![]),
        package("b", "0.3.1-alpha.2+build.7", vec![]),
    ]);
    assert!(result.is_ok());
}

#[test]
fn unknown_dependency_is_a_load_error() {
    let result = PackageGraph::try_new(vec![
        package("a", "1.0.0", vec![normal("b"), normal("serde")]),
        package("b", "1.0.0", vec![]),
    ]);
    assert_eq!(LoadError::UnknownDependency, result.unwrap_err());
}

#[test]
fn cycle_is_a_load_error() {
    let result = PackageGraph::try_new(vec![
        package("a", "1.0.0", vec![normal("b")]),
        package("b", "1.0.0", vec![normal("c")]),
        package("c", "1.0.0", vec![normal("a")]),
        package("d", "1.0.0", vec![]),
    ]);
    assert_eq!(LoadError::CyclicDependency, result.unwrap_err());
}

#[test]
fn self_dependency_is_a_cycle() {
    let result = PackageGraph::try_new(vec![package("a", "1.0.0", vec![normal("a")])]);
    assert_eq!(LoadError::CyclicDependency, result.unwrap_err());
}

#[test]
fn development_edges_count_for_cycles() {
    let result = PackageGraph::try_new(vec![
        package("a", "1.0.0", vec![normal("b")]),
        package("b", "1.0.0", vec![edge("a", DependencyKind::Development, true)]),
    ]);
    assert_eq!(LoadError::CyclicDependency, result.unwrap_err());
}

#[test]
fn load_errors_are_reported_in_a_fixed_order() {
    // a duplicate name comes before a malformed version
    let result = PackageGraph::try_new(vec![
        package("a", "oops", vec![normal("nowhere")]),
        package("a", "1.0.0", vec![]),
    ]);
    assert_eq!(LoadError::DuplicateName, result.unwrap_err());
    // a malformed version comes before an unknown dependency
    let result = PackageGraph::try_new(vec![package("a", "oops", vec![normal("nowhere")])]);
    assert_eq!(LoadError::MalformedVersion, result.unwrap_err());
    // an unknown dependency comes before a cycle
    let result =
        PackageGraph::try_new(vec![package("a", "1.0.0", vec![normal("a"), normal("nowhere")])]);
    assert_eq!(LoadError::UnknownDependency, result.unwrap_err());
}

#[test]
fn members_come_after_their_dependencies() {
    let graph = graph_of(vec![
        package("g", "1.0.0", vec![]),
        package("b", "1.0.0", vec![]),
        package("a", "1.0.0", vec![normal("b"), normal("c")]),
        package("c", "1.0.0", vec![normal("b")]),
        package("e", "1.0.0", vec![]),
    ]);
    assert_eq!(vec!["g", "b", "c", "a", "e"], names(&graph, graph.members()));
}

#[test]
fn members_order_breaks_ties_by_declaration() {
    let graph = graph_of(vec![
        package("z", "1.0.0", vec![normal("m")]),
        package("y", "1.0.0", vec![]),
        package("m", "1.0.0", vec![]),
        package("x", "1.0.0", vec![normal("y")]),
    ]);
    assert_eq!(vec!["y", "m", "z", "x"], names(&graph, graph.members()));
}

#[test]
fn members_order_is_the_same_on_every_call() {
    let graph = graph_of(vec![
        package("a", "1.0.0", vec![normal("c")]),
        package("b", "1.0.0", vec![normal("a")]),
        package("c", "1.0.0", vec![]),
    ]);
    let first = graph.members().clone();
    let second = graph.members().clone();
    assert_eq!(first, second);
    assert_eq!(vec![2, 0, 1], first);
}

#[test]
fn index_of_finds_members_only() {
    let graph = graph_of(vec![package("a", "1.0.0", vec![]), package("b", "1.0.0", vec![])]);
    assert_eq!(Some(1), graph.index_of(&"b".to_string()));
    assert_eq!(None, graph.index_of(&"c".to_string()));
}

#[test]
fn direct_dependencies_honour_the_optional_toggle() {
    let graph = graph_of(vec![
        package(
            "a",
            "1.0.0",
            vec![
                normal("b"),
                edge("c", DependencyKind::Normal, true),
                edge("d", DependencyKind::Development, false),
                edge("b", DependencyKind::Development, true),
            ],
        ),
        package("b", "1.0.0", vec![]),
        package("c", "1.0.0", vec![]),
        package("d", "1.0.0", vec![]),
    ]);
    assert_eq!(vec![1, 2, 3, 1], graph.dependencies_in_workspace(0, false));
    assert_eq!(vec![1, 3], graph.dependencies_in_workspace(0, true));
    assert_eq!(Vec::<usize>::new(), graph.dependencies_in_workspace(1, false));
}

#[test]
fn dependants_are_the_transitive_closure() {
    // e -> d -> c -> b -> a, and f -> b
    let graph = graph_of(vec![
        package("a", "1.0.0", vec![]),
        package("b", "1.0.0", vec![normal("a")]),
        package("c", "1.0.0", vec![normal("b")]),
        package("d", "1.0.0", vec![normal("c")]),
        package("e", "1.0.0", vec![normal("d")]),
        package("f", "1.0.0", vec![normal("b")]),
        package("lonely", "1.0.0", vec![]),
    ]);
    assert_eq!(vec!["b", "c", "d", "e", "f"], names(&graph, &graph.dependants_in_workspace(0)));
    assert_eq!(vec!["d", "e"], names(&graph, &graph.dependants_in_workspace(2)));
    assert_eq!(Vec::<usize>::new(), graph.dependants_in_workspace(4));
    assert_eq!(Vec::<usize>::new(), graph.dependants_in_workspace(6));
}

#[test]
fn dependants_follow_only_admitted_edges() {
    let graph = graph_of(vec![
        package("base", "1.0.0", vec![]),
        package("user", "1.0.0", vec![normal("base")]),
        package("tester", "1.0.0", vec![edge("base", DependencyKind::Development, false)]),
        package("maybe", "1.0.0", vec![edge("base", DependencyKind::Normal, true)]),
        package("above", "1.0.0", vec![normal("tester")]),
    ]);
    let all = EdgeFilter::all();
    assert_eq!(
        vec!["user", "tester", "maybe", "above"],
        names(&graph, &graph.dependants_in_workspace_filtered(0, all))
    );
    let normal_only = EdgeFilter { normal: true, development: false, optional: true };
    assert_eq!(
        vec!["user", "maybe"],
        names(&graph, &graph.dependants_in_workspace_filtered(0, normal_only))
    );
    let required_only = EdgeFilter { normal: true, development: true, optional: false };
    assert_eq!(
        vec!["user", "tester", "above"],
        names(&graph, &graph.dependants_in_workspace_filtered(0, required_only))
    );
    let development_only = EdgeFilter { normal: false, development: true, optional: true };
    assert_eq!(
        vec!["tester"],
        names(&graph, &graph.dependants_in_workspace_filtered(0, development_only))
    );
    assert_eq!(
        Vec::<usize>::new(),
        graph.dependants_in_workspace_filtered(0, EdgeFilter::none())
    );
}

#[test]
fn connected_to_passes_only_through_allowed_packages() {
    // top -> middle -> bottom, and top -> side -> bottom
    let graph = graph_of(vec![
        package("bottom", "1.0.0", vec![]),
        package("middle", "1.0.0", vec![normal("bottom")]),
        package("side", "1.0.0", vec![normal("bottom")]),
        package("top", "1.0.0", vec![normal("middle"), normal("side")]),
    ]);
    let all = EdgeFilter::all();
    assert_eq!(
        vec![false, true, true, true],
        graph.connected_to(0, all, &vec![true, true, true, true])
    );
    assert_eq!(
        vec![false, false, true, true],
        graph.connected_to(0, all, &vec![true, false, true, true])
    );
    assert_eq!(
        vec![false, false, false, false],
        graph.connected_to(0, all, &vec![true, false, false, true])
    );
    assert_eq!(
        vec![false, false, false, false],
        graph.connected_to(0, all, &vec![false, true, true, true])
    );
}

#[test]
fn edge_filter_admits_by_kind_and_optionality() {
    let required_normal = normal("x");
    let optional_dev = edge("x", DependencyKind::Development, true);
    assert!(EdgeFilter::all().test(&required_normal));
    assert!(EdgeFilter::all().test(&optional_dev));
    assert!(!EdgeFilter::none().test(&required_normal));
    let filter = EdgeFilter { normal: false, development: true, optional: false };
    assert!(!filter.test(&required_normal));
    assert!(!filter.test(&optional_dev));
    assert!(filter.test(&edge("x", DependencyKind::Development, false)));
}

#[test]
fn direct_dependants_are_one_edge_away() {
    let graph = graph_of(vec![
        package("base", "1.0.0", vec![]),
        package("user", "1.0.0", vec![normal("base")]),
        package("tester", "1.0.0", vec![edge("base", DependencyKind::Development, false)]),
        package("above", "1.0.0", vec![normal("tester"), normal("user")]),
    ]);
    assert_eq!(
        vec!["user", "tester"],
        names(&graph, &graph.direct_dependants_in_workspace(0, EdgeFilter::all()))
    );
    let normal_only = EdgeFilter { normal: true, development: false, optional: true };
    assert_eq!(vec!["user"], names(&graph, &graph.direct_dependants_in_workspace(0, normal_only)));
    assert_eq!(vec!["above"], names(&graph, &graph.direct_dependants_in_workspace(1, normal_only)));
    assert_eq!(
        Vec::<usize>::new(),
        graph.direct_dependants_in_workspace(3, EdgeFilter::all())
    );
    assert!(graph.depends_directly(3, 2, EdgeFilter::all()));
    assert!(!graph.depends_directly(3, 0, EdgeFilter::all()));
    assert!(!graph.depends_directly(2, 0, normal_only));
}
