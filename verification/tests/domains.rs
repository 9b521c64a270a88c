use apis_catalog::app::dao::catalog::spec::{from_str, SpecItem};
use apis_catalog::app::domains::{
    delete_domain, get_all_domains_for_all_catalogs, get_domains, get_domains_errors, get_domains_stats, DomainDeletion,
    Node,
};
use apis_catalog::dao::repo_domains::{DomainImplFactory, DomainImplType, DomainItem};

fn spec_with_server(url: &str, paths: &[&str], path: &str, catalog_dir: &str) -> SpecItem {
    let mut text = String::from("openapi: 3.0.0\ninfo:\n  version: 1.0.0\n  title: sample\n");
    text.push_str(&format!("servers:\n  - url: {}\n", url));
    text.push_str("paths:\n");
    for p in paths {
        text.push_str(&format!("  {}:\n    get:\n      responses:\n        '200':\n          description: ok\n", p));
    }
    from_str(path.to_string(), "cat-1".to_string(), catalog_dir.to_string(), &text).unwrap()
}

#[test]
fn served_domains_are_listed_once() {
    let specs = vec![
        spec_with_server("/v1/a/b", &["/x"], "/dir/one.yaml", "/dir/"),
        spec_with_server("/v1/a/c", &["/x"], "/dir/two.yaml", "/dir/"),
        spec_with_server("/v1/a/b", &["/y"], "/dir/three.yaml", "/dir/"),
    ];
    let domains = get_all_domains_for_all_catalogs(&specs);
    assert_eq!(domains, vec![String::from("/v1/a/b"), String::from("/v1/a/c")]);
}

#[test]
fn undeclared_domains_are_reported_with_their_endpoints() {
    let specs = vec![
        spec_with_server("/v1/sales/orders", &["/o1", "/o2"], "/dir/orders.yaml", "/dir/"),
        spec_with_server("/v1/risk/scenarios", &["/s"], "/dir/risk/scenarios.yaml", "/dir/"),
        spec_with_server("/v1/risk/scenarios", &["/t", "/u"], "/dir/risk/more.yaml", "/dir/"),
    ];
    let declared = vec![String::from("/sales")];
    let errors = get_domains_errors(&specs, &declared);
    assert_eq!(errors.errors.len(), 2);
    assert_eq!(errors.errors[0].spec_domain, "/v1/risk/scenarios");
    assert_eq!(errors.errors[0].spec_catalog_id, "cat-1");
    assert_eq!(errors.errors[0].spec_path, "risk/scenarios.yaml");
    assert_eq!(errors.errors[0].resources, 3);
    assert_eq!(errors.errors[1].spec_path, "risk/more.yaml");
    assert_eq!(errors.errors[1].resources, 3);
}

#[test]
fn declared_domains_are_listed_last_first_with_emptiness() {
    let items = vec![
        DomainItem { name: String::from("/sales"), id: 1, description: String::from("d1"), owner: String::from("o1") },
        DomainItem { name: String::from("/risk"), id: 2, description: String::from("d2"), owner: String::from("o2") },
    ];
    let served = vec![(String::from("/v1/sales"), 4usize), (String::from("nowhere"), 1usize)];
    let domains = get_domains(items, &served, true);
    assert!(domains.is_read_only);
    assert_eq!(domains.domains.len(), 2);
    assert_eq!(domains.domains[0].name, "/risk");
    assert_eq!(domains.domains[0].id, 2);
    assert!(domains.domains[0].is_empty);
    assert_eq!(domains.domains[1].name, "/sales");
    assert_eq!(domains.domains[1].owner, "o1");
    assert!(!domains.domains[1].is_empty);
}

fn node<'a>(nodes: &'a Vec<Node>, name: &str, parent: &str, level: usize) -> Option<&'a Node> {
    nodes.iter().find(|n| n.name == name && n.parent == parent && n.level == level)
}

#[test]
fn subdomain_tree_hangs_parts_from_their_parents() {
    let data = vec![(String::from("/v1/a/b"), 3usize), (String::from("/v1/a/c"), 5usize)];
    let nodes = get_domains_stats(&data);
    assert_eq!(nodes.len(), 4);
    assert_eq!(node(&nodes, "v1", "Global", 2).unwrap().value, 0);
    assert_eq!(node(&nodes, "a", "v1", 3).unwrap().value, 0);
    assert_eq!(node(&nodes, "b", "a", 4).unwrap().value, 3);
    assert_eq!(node(&nodes, "c", "a", 4).unwrap().value, 5);
}

#[test]
fn subdomain_tree_renames_a_part_used_under_another_parent() {
    let data = vec![(String::from("/x/common"), 1usize), (String::from("/y/common"), 2usize)];
    let nodes = get_domains_stats(&data);
    assert_eq!(nodes.len(), 4);
    assert!(node(&nodes, "common", "x", 3).is_some());
    let renamed = nodes.iter().find(|n| n.parent == "y").unwrap();
    assert!(renamed.name.starts_with("common ["));
    assert!(renamed.name.ends_with("]"));
    assert_eq!(renamed.value, 2);
    assert_eq!(renamed.level, 3);
}

#[test]
fn nodes_are_equal_by_name_parent_and_level() {
    let a = Node { level: 2, name: String::from("v1"), parent: String::from("Global"), value: 0 };
    let b = Node { level: 2, name: String::from("v1"), parent: String::from("Global"), value: 7 };
    let c = Node { level: 3, name: String::from("v1"), parent: String::from("Global"), value: 0 };
    assert!(a == b);
    assert!(a != c);
}

#[test]
fn domain_with_apis_cannot_be_deleted() {
    assert_eq!(delete_domain(2), DomainDeletion::Refused { apis: 2 });
    assert_eq!(delete_domain(0), DomainDeletion::Allowed);
}

#[test]
fn domain_repository_is_chosen_by_name() {
    assert_eq!(DomainImplFactory::get_impl("YamlBasedDomainRepo"), DomainImplType::YamlBasedDomainRepo);
    assert_eq!(DomainImplFactory::get_impl("DbBasedDomainRepo"), DomainImplType::DbBasedDomainRepo);
    assert_eq!(DomainImplFactory::get_impl("anything"), DomainImplType::DbBasedDomainRepo);
}

#[test]
fn subdomain_tree_skips_empty_parts_for_the_parent() {
    let data = vec![(String::from("/v1//a"), 4usize)];
    let nodes = get_domains_stats(&data);
    assert_eq!(nodes.len(), 2);
    assert_eq!(node(&nodes, "v1", "Global", 2).unwrap().value, 0);
    assert_eq!(node(&nodes, "a", "v1", 4).unwrap().value, 4);
}

#[test]
fn subdomain_tree_keeps_a_part_used_again_under_the_same_parent() {
    let data = vec![(String::from("/x/common"), 1usize), (String::from("/x/common/deep"), 2usize)];
    let nodes = get_domains_stats(&data);
    assert!(node(&nodes, "common", "x", 3).is_some());
    assert!(node(&nodes, "deep", "common", 4).is_some());
    assert!(nodes.iter().all(|n| !n.name.contains('[')));
}
