use apis_catalog::app::dao::catalog::spec::{from_str, SpecItem};
use apis_catalog::app::dao::repo_layers::SystemAndLayer;
use apis_catalog::app::systems::{
    get_all_domains_per_system_and_layer, get_all_layers_per_systems, get_domains_per_system_and_layer,
    shorten_spec_path, sort_domains_by_name, Domain, Spec, System,
};
use apis_catalog::shared::settings::Catalog;

fn item(system: &str, layer: &str) -> SystemAndLayer {
    SystemAndLayer {
        system: system.to_string(),
        layer: layer.to_string(),
        description: format!("{} of {}", layer, system),
        config_image_link: String::from("img"),
        config_color: String::from("blue"),
    }
}

fn catalog(id: &str, dir: &str) -> Catalog {
    Catalog {
        catalog_id: id.to_string(),
        catalog_name: String::from("name"),
        catalog_path: String::from("not used here"),
        catalog_dir: dir.to_string(),
        catalog_scm_clone_cmd: String::from("git clone x"),
        catalog_scm_pull_cmd: String::from("git pull"),
        catalog_scm_clone: false,
        catalog_http_base_uri: String::from("http://h"),
        catalog_include_glob_pattern: vec![String::from("**/*.yaml")],
    }
}

fn spec(systems: &str, layer: &str, domain: &str, path: &str) -> SpecItem {
    let text = format!(
        "openapi: 3.0.0\ninfo:\n  version: 1.0.0\n  title: sample\nx-systems:\n{}\nx-layer: {}\nservers:\n  - url: {}\npaths:\n  /r:\n    get:\n      responses:\n        '200':\n          description: ok\n",
        systems, layer, domain
    );
    from_str(path.to_string(), "uuid".to_string(), "/cat/".to_string(), &text).unwrap()
}

#[test]
fn layers_are_grouped_per_system() {
    let flat = vec![item("A", "l1"), item("B", "l1"), item("A", "l2"), item("A", "l3"), item("B", "l2")];
    let systems = get_all_layers_per_systems(&flat);
    assert_eq!(systems.len(), 2);
    assert_eq!(systems[0].name, "A");
    assert_eq!(systems[0].layers.len(), 3);
    assert_eq!(systems[0].layers[1].name, "l2");
    assert_eq!(systems[0].layers[1].description, "l2 of A");
    assert_eq!(systems[1].name, "B");
    assert_eq!(systems[1].layers.len(), 2);
}

#[test]
fn systems_are_equal_by_name() {
    let a = System { name: String::from("A"), layers: Vec::new() };
    let b = System { name: String::from("A"), layers: get_all_layers_per_systems(&vec![item("A", "l")])[0].layers.clone() };
    assert!(a == b);
}

#[test]
fn spec_paths_are_shortened_by_their_catalog() {
    let catalogs = vec![catalog("c1", "/home/cat/"), catalog("c2", "/other/")];
    assert_eq!(shorten_spec_path(String::from("/home/cat/a/b.yaml"), &catalogs, String::from("c1")), "a/b.yaml");
    assert_eq!(shorten_spec_path(String::from("/home/cat/a/b.yaml"), &catalogs, String::from("c3")), "/home/cat/a/b.yaml");
}

#[test]
fn domains_of_a_system_and_layer() {
    let catalogs = vec![catalog("uuid", "/cat/")];
    let specs = vec![
        spec("  - bpaas", "application", "/v1/audit/trails", "/cat/audit.yaml"),
        spec("  - bpaas\n  - other", "application", "/v1/audit/trails", "/cat/audit2.yaml"),
        spec("  - bpaas", "functional", "/v1/x", "/cat/x.yaml"),
        spec("  - other", "application", "/v1/y", "/cat/y.yaml"),
    ];
    let sut = get_domains_per_system_and_layer(&specs, &catalogs, &String::from("bpaas"), &String::from("application"));
    assert_eq!(sut.len(), 1);
    assert_eq!(sut[0].name, "/v1/audit/trails");
    assert_eq!(sut[0].specs.len(), 2);
    assert_eq!(sut[0].specs[0].spec_path, "audit.yaml");

    let sut = get_domains_per_system_and_layer(&specs, &catalogs, &String::from("BPaas"), &String::from("Application"));
    assert_eq!(sut.len(), 1);

    let sut = get_domains_per_system_and_layer(&specs, &catalogs, &String::from("bpaas"), &String::from("infrastructure"));
    assert_eq!(sut.len(), 0);
}

#[test]
fn domains_are_sorted_by_name() {
    let d = |n: &str| Domain { name: n.to_string(), specs: vec![Spec { catalog_id: String::from("c"), spec_path: String::from("p") }] };
    let sorted = sort_domains_by_name(vec![d("/b"), d("/a/z"), d("/a")]);
    let names: Vec<&str> = sorted.iter().map(|x| x.name.as_str()).collect();
    assert_eq!(names, vec!["/a", "/a/z", "/b"]);

    let catalogs = vec![catalog("uuid", "/cat/")];
    let specs = vec![
        spec("  - s", "l", "/v1/zeta", "/cat/z.yaml"),
        spec("  - s", "l", "/v1/alpha", "/cat/a.yaml"),
    ];
    let r = get_all_domains_per_system_and_layer(&specs, &catalogs, String::from("S"), String::from("L"));
    assert_eq!(r.system, "S");
    assert_eq!(r.layer, "L");
    assert_eq!(r.domains.len(), 2);
    assert_eq!(r.domains[0].name, "/v1/alpha");
    assert_eq!(r.domains[1].name, "/v1/zeta");
}

#[test]
fn test_get_all_layres_per_systems() {
    // the systems-layers catalog: A with three layers, B with two, C with one
    let flat = vec![
        item("A", "application"),
        item("A", "functional"),
        item("A", "infrastructure"),
        item("B", "application"),
        item("B", "functional"),
        item("C", "application"),
    ];
    let sut = get_all_layers_per_systems(&flat);

    let expected_val: usize = 3;
    assert_eq!(sut.len(), expected_val);
    //
    let layers = sut.iter().find(|s| s.name == "A");
    assert_eq!(layers.is_none(), false);
    assert_eq!(layers.unwrap().layers.len(), 3);
    //
    let layers = sut.iter().find(|s| s.name == "B");
    assert_eq!(layers.is_none(), false);
    assert_eq!(layers.unwrap().layers.len(), 2);
}

#[test]
fn test_get_domain_per_system_and_layer() {
    // the catalog: a time-series spec (default system and layer) and an
    // audit-trails spec of the bpaas system, application layer
    let catalogs = vec![catalog("uuid", "/cat/")];
    let time_series = from_str(
        String::from("/cat/time-series.yaml"),
        String::from("uuid"),
        String::from("/cat/"),
        "openapi: 3.0.0\ninfo:\n  version: 1.0.0\n  title: ts\n  x-audience: company\nservers:\n  - url: /v1/analytics/time-series\npaths:\n  /r:\n    get:\n      responses:\n        '200':\n          description: ok\n",
    )
    .unwrap();
    let specs = vec![time_series, spec("  - bpaas", "application", "/v1/audit/trails", "/cat/audit.yaml")];

    let sut = get_domains_per_system_and_layer(&specs, &catalogs, &String::from("bpaas"), &String::from("application"));
    assert_eq!(sut.len(), 1);
    assert_eq!(sut[0].name, "/v1/audit/trails");
    //same test as above but check case
    let sut = get_domains_per_system_and_layer(&specs, &catalogs, &String::from("BPaas"), &String::from("application"));
    assert_eq!(sut.len(), 1);
    assert_eq!(sut[0].name, "/v1/audit/trails");

    let sut = get_domains_per_system_and_layer(&specs, &catalogs, &String::from("bpaas"), &String::from("functional"));
    assert_eq!(sut.len(), 0);
}
