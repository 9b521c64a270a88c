use apis_catalog::app::catalogs::{get_all_catalog, get_catalog_by_id, resfresh_caches_and_indexes, RefreshEvent, RefreshStep};
use apis_catalog::app::dao::catalog::cache::CatalogCache;
use apis_catalog::app::dao::catalog::spec::{extact_relative_path, from_str, SpecItem};
use apis_catalog::app::dao::catalog::DEFAULT_SYSTEM_LAYER;
use apis_catalog::app::dao::catalog::{
    list_specs, Listing, try_get_endpoints_num_per_audience_metrics, try_get_zally_ignore_metrics,
    errors_or_empty, list_all_errors, read_catalogs, refresh_commands, CatalogFile, RefreshCommand, SpecInError,
};
use apis_catalog::app::dao::search::{index_documents, SearchResult};
use apis_catalog::app::deployments::{get_deployments, get_deployments_for_api};
use apis_catalog::app::envs::{get_env, list_env};
use apis_catalog::app::search::search_specs;
use apis_catalog::app::tiers::get_tiers;
use apis_catalog::cli::{api_attribute_path, deployments_path, new_api, server_url, status_from_str, Status};
use apis_catalog::app::dao::catalog::handlers::implem::opanapi::V3 as OpenApiV3;
use apis_catalog::dao::catalog::{get_audience_from_spec, spec_from_blob, get_endpoints_num_per_subdomain as repository_endpoints_per_subdomain, SpecItem as RepositorySpec};
use apis_catalog::dao::repo_apis::{api_item, status_to_store, StatusItem, TierItem};
use apis_catalog::dao::repo_envs::EnvItem;
use apis_catalog::dao::database_file;
use apis_catalog::shared::settings::{Catalog, Database};
use apis_catalog::tally::{tally, tally_get};
use apis_catalog::text::{split_by, str_lt};

fn catalog(id: &str, name: &str, dir: &str, clone: bool) -> Catalog {
    Catalog {
        catalog_id: id.to_string(),
        catalog_name: name.to_string(),
        catalog_path: format!("/repos/{}", id),
        catalog_dir: dir.to_string(),
        catalog_scm_clone_cmd: String::from("git clone https://host/repo.git"),
        catalog_scm_pull_cmd: String::from("git pull"),
        catalog_scm_clone: clone,
        catalog_http_base_uri: format!("http://{}", name),
        catalog_include_glob_pattern: vec![String::from("**/*.yaml")],
    }
}

const OPENAPI: &str = "openapi: 3.0.0\ninfo:\n  version: 1.0.0\n  title: sample\n  x-audience: company\npaths:\n  /a:\n    get:\n      summary: read a\n      description: reads\n      responses:\n        '200':\n          description: ok\n    post:\n      summary: write a\n      description: writes\n      responses:\n        '200':\n          description: ok\n";

#[test]
fn catalogs_are_reported_with_their_id_name_and_uri() {
    let catalogs = vec![catalog("c1", "first", "/d1/", false), catalog("c2", "second", "/d2/", true), catalog("c1", "third", "/d3/", false)];
    let all = get_all_catalog(&catalogs);
    assert_eq!(all.len(), 3);
    assert_eq!(all[1].id, "c2");
    assert_eq!(all[1].http_base_uri, "http://second");
    let c1 = get_catalog_by_id(&catalogs, "c1");
    assert_eq!(c1.name, "third");
}

#[test]
fn refresh_commands_clone_at_start_and_pull_later() {
    let catalogs = vec![catalog("c1", "first", "/d1/", true), catalog("c2", "second", "/d2/", false)];
    let at_start = refresh_commands(&catalogs, true);
    match &at_start[0] {
        RefreshCommand::Clone { command } => assert_eq!(command, "git clone https://host/repo.git /repos/c1"),
        other => panic!("unexpected {:?}", other),
    }
    match &at_start[1] {
        RefreshCommand::Skip { catalog_id, catalog_name } => {
            assert_eq!(catalog_id, "c2");
            assert_eq!(catalog_name, "second");
        }
        other => panic!("unexpected {:?}", other),
    }
    let later = refresh_commands(&catalogs, false);
    match &later[1] {
        RefreshCommand::Pull { dir, command } => {
            assert_eq!(dir, "/repos/c2");
            assert_eq!(command, "git pull");
        }
        other => panic!("unexpected {:?}", other),
    }
}

#[test]
fn refresh_runs_commands_then_reads_then_indexes() {
    let mut cache = CatalogCache::new();
    let catalogs = vec![catalog("c1", "first", "/d1/", false)];
    match resfresh_caches_and_indexes(&mut cache, &catalogs, false, RefreshEvent::Start) {
        RefreshStep::RunCommands(cmds) => assert_eq!(cmds.len(), 1),
        _ => panic!("commands expected"),
    }
    let spec = from_str(String::from("/d1/a.yaml"), String::from("c1"), String::from("/d1/"), OPENAPI).unwrap();
    cache.store(&vec![spec], &Vec::new());
    assert!(cache.cached_specs().is_some());
    assert!(matches!(resfresh_caches_and_indexes(&mut cache, &catalogs, false, RefreshEvent::CommandsRun), RefreshStep::ReadCatalogs));
    assert!(cache.cached_specs().is_none());
    assert!(cache.cached_errors().is_none());
    let spec = from_str(String::from("/d1/a.yaml"), String::from("c1"), String::from("/d1/"), OPENAPI).unwrap();
    match resfresh_caches_and_indexes(&mut cache, &catalogs, false, RefreshEvent::CatalogsRead(vec![spec])) {
        RefreshStep::WriteIndex(docs) => assert_eq!(docs.len(), 1),
        _ => panic!("index expected"),
    }
    assert!(matches!(resfresh_caches_and_indexes(&mut cache, &catalogs, false, RefreshEvent::IndexWritten), RefreshStep::Done));
}

#[test]
fn cached_errors_are_listed() {
    let mut cache = CatalogCache::new();
    assert!(list_all_errors(&cache).is_empty());
    let error = SpecInError { file_path: String::from("\"/d1/bad.yaml\""), reason: String::from("\"bad\"") };
    cache.store(&Vec::new(), &vec![error]);
    let errors = list_all_errors(&cache);
    assert_eq!(errors.len(), 1);
    assert_eq!(errors[0].reason, "\"bad\"");
    cache.invalidate_all();
    assert!(list_all_errors(&cache).is_empty());
    assert!(errors_or_empty(None).is_empty());
}

#[test]
fn catalog_files_are_read_into_specs_and_errors() {
    let catalogs = vec![catalog("c1", "first", "/d1/", false), catalog("c2", "second", "/d2/", false)];
    let files = vec![
        vec![
            CatalogFile { path: String::from("/d1/a.yaml"), display_path: String::from("\"/d1/a.yaml\""), content: OPENAPI.to_string() },
            CatalogFile { path: String::from("/d1/b.txt"), display_path: String::from("\"/d1/b.txt\""), content: String::from("hello") },
        ],
        vec![CatalogFile { path: String::from("/d2/c.yaml"), display_path: String::from("\"/d2/c.yaml\""), content: OPENAPI.to_string() }],
    ];
    let (specs, errors) = read_catalogs(&catalogs, &files);
    assert_eq!(specs.len(), 2);
    assert_eq!(specs[0].catalog_id, "c1");
    assert_eq!(specs[1].catalog_id, "c2");
    assert_eq!(specs[1].catalog_dir, "/d2/");
    assert_eq!(errors.len(), 1);
    assert_eq!(errors[0].file_path, "\"/d1/b.txt\"");
    assert_eq!(errors[0].reason, "\"Unable to parse content for path \\\"/d1/b.txt\\\"\"");
}

#[test]
fn index_holds_one_document_per_path() {
    let spec = from_str(String::from("/d1/a.yaml"), String::from("c1"), String::from("/d1/"), OPENAPI).unwrap();
    let docs = index_documents(&vec![spec]);
    assert_eq!(docs.len(), 1);
    assert_eq!(docs[0].path, "/a");
    assert_eq!(docs[0].operations, "GET POST ");
    assert_eq!(docs[0].summary, "read a write a ");
    assert_eq!(docs[0].description, "reads writes ");
    assert_eq!(docs[0].audience, "company");
    assert_eq!(docs[0].systems, "default");
    assert_eq!(docs[0].catalog_id, "c1");
    assert_eq!(docs[0].spec_path, "/d1/a.yaml");
    assert_eq!(docs[0].version, "1.0.0");
}

#[test]
fn search_results_carry_short_paths() {
    let catalogs = vec![catalog("c1", "first", "/d1/", false)];
    let s = |v: &str| [v.to_string()];
    let found = vec![SearchResult {
        audience: s("company"),
        domain: s("/v1/x"),
        systems: s("default"),
        layer: s("default"),
        path: s("/a"),
        operations: s("GET "),
        catalog_id: s("c1"),
        spec_path: s("/d1/sub/a.yaml"),
        version: s("1.0.0"),
    }];
    let results = search_specs(&found, &catalogs);
    assert_eq!(results.len(), 1);
    assert_eq!(results[0].spec_path, "sub/a.yaml");
    assert_eq!(results[0].domain, "/v1/x");
}

#[test]
fn stored_lists_are_reported_last_first() {
    let d = get_deployments(Some(vec![(String::from("api1"), String::from("dev")), (String::from("api2"), String::from("prod"))]));
    assert_eq!(d.deployments.len(), 2);
    assert_eq!(d.deployments[0].api, "api2");
    assert_eq!(d.deployments[1].env, "dev");
    assert!(get_deployments_for_api(None).deployments.is_empty());

    let envs = list_env(Some(vec![
        EnvItem { id: 1, name: String::from("dev"), description: String::from("d") },
        EnvItem { id: 2, name: String::from("prod"), description: String::from("p") },
    ]));
    assert_eq!(envs.envs[0].name, "prod");
    assert_eq!(get_env(Some(EnvItem { id: 3, name: String::from("qa"), description: String::new() })).unwrap().id, 3);
    assert!(get_env(None).is_none());

    let tiers = get_tiers(vec![TierItem { id: 1, name: String::from("gold") }, TierItem { id: 2, name: String::from("silver") }]);
    assert_eq!(tiers.tiers[0].name, "silver");
    assert_eq!(tiers.tiers[1].id, 1);
}

#[test]
fn apis_without_status_or_tier_get_defaults() {
    let api = api_item(7, String::from("api"), 9, None, None);
    assert_eq!(api.status, "NONE");
    assert_eq!(api.tier.name, "N/A");
    assert_eq!(api.tier.id, 0);
    let api = api_item(7, String::from("api"), 9, Some(String::from("VALIDATED")), Some(TierItem { id: 4, name: String::from("gold") }));
    assert_eq!(api.status, "VALIDATED");
    assert_eq!(api.tier.name, "gold");
    assert_eq!(status_to_store(&StatusItem { api_id: 7, status: String::from("validated") }).status, "VALIDATED");
}

#[test]
fn database_file_is_in_the_configured_directory() {
    assert_eq!(database_file(&Database { rusqlite_path: String::from("/var/db") }), "/var/db/apis-catalog-all.db");
}

#[test]
fn cli_requests() {
    assert_eq!(server_url("localhost:8088", "/v1/catalogs"), "http://localhost:8088/v1/catalogs");
    assert_eq!(deployments_path(Some("api-1")), "/v1/deployments/api-1");
    assert_eq!(deployments_path(None), "/v1/deployments");
    assert_eq!(api_attribute_path("42", "status"), "/v1/apis/42/status");
    assert_eq!(status_from_str("validated"), Status::VALIDATED);
    assert_eq!(status_from_str("deprecated"), Status::DEPRECATED);
    assert_eq!(status_from_str("retired"), Status::RETIRED);
    assert_eq!(status_from_str("Validated"), Status::NONE);
    let api = new_api("orders", 5, &vec!["s1", "s2"]);
    assert_eq!(api.status, Status::NONE);
    assert_eq!(api.spec_ids, vec![String::from("s1"), String::from("s2")]);
}

#[test]
fn audience_is_read_from_the_text() {
    assert_eq!(get_audience_from_spec("info:\n  x-audience : company\n").unwrap(), " company");
    assert!(get_audience_from_spec("info:\n  title: t\n").is_none());
}

#[test]
fn relative_path_is_what_follows_the_directory() {
    let path = String::from("/home/catalog/é/spec.yaml");
    let dir = String::from("/home/catalog/");
    assert_eq!(extact_relative_path(&path, &dir), "é/spec.yaml");
}

#[test]
fn tally_sums_per_key_in_first_appearance_order() {
    let items = vec![(String::from("a"), 2usize), (String::from("b"), 1usize), (String::from("a"), 5usize)];
    let t = tally(&items).unwrap();
    assert_eq!(t, vec![(String::from("a"), 7usize), (String::from("b"), 1usize)]);
    assert_eq!(tally_get(&t, "a"), Some(7));
    assert_eq!(tally_get(&t, "c"), None);
    assert!(tally(&vec![(String::from("a"), usize::MAX), (String::from("a"), 1usize)]).is_none());
}

#[test]
fn text_helpers() {
    assert_eq!(split_by("/v1/a", '/'), vec![String::from(""), String::from("v1"), String::from("a")]);
    assert_eq!(split_by("", '/'), vec![String::from("")]);
    assert!(str_lt("/a", "/a/z"));
    assert!(!str_lt("/b", "/a/z"));
}

fn repository_spec(text: &str) -> RepositorySpec {
    RepositorySpec {
        path: String::from("std::string::String"),
        id: String::from("std::string::String"),
        api_spec: OpenApiV3::new(text).unwrap().spec,
        audience: String::from("std::string::String"),
        domain: String::from("std::string::String"),
    }
}

#[test]
fn repository_endpoints_are_counted_per_server_domain() {
    let specs = vec![
        repository_spec(
            "
        openapi: 3.0.0
        info:
          version: 1.0.0
          title: sample
        servers: 
          - url: /v1/a/b
        paths:
          /resource_1:
            get:
              responses:
                '206':
                  description: Partial Content
        ",
        ),
        repository_spec(
            "
        openapi: 3.0.0
        info:
          version: 1.0.0
          title: sample
        servers: 
          - url: /v1/a/c
        paths:
          /resource_1:
            get:
              responses:
                '206':
                  description: Partial Content
                  /resource_1:
            post:
              responses:
                '206':
                  description: Partial Content
        ",
        ),
        repository_spec(
            "
        openapi: 3.0.0
        info:
          version: 1.0.0
          title: sample
        paths:
          /resource_1:
            get:
              responses:
                '206':
                  description: Partial Content
        ",
        ),
        repository_spec(
            "
        openapi: 3.0.0
        info:
          version: 1.0.0
          title: sample
        servers:
          - url: https://host/v1/a/b
        paths:
          /r1: {}
          /r2: {}
        ",
        ),
    ];
    let data = repository_endpoints_per_subdomain(&specs);
    assert_eq!(tally_get(&data, "/v1/a/c"), Some(1));
    assert_eq!(tally_get(&data, "/v1/a/b"), Some(3));
    assert_eq!(tally_get(&data, "NA - servers attribute not specified"), Some(1));
    assert_eq!(data.len(), 3);
}

#[test]
fn a_second_listing_gives_the_specs_of_the_first() {
    let mut cache = CatalogCache::new();
    let catalogs = vec![catalog("c1", "first", "/d1/", false)];
    assert!(matches!(list_specs(&mut cache, &catalogs, None), Listing::NeedFiles));
    let files = vec![vec![
        CatalogFile { path: String::from("/d1/a.yaml"), display_path: String::from("\"/d1/a.yaml\""), content: String::from(OPENAPI) },
        CatalogFile { path: String::from("/d1/b.yaml"), display_path: String::from("\"/d1/b.yaml\""), content: String::from("not a spec") },
    ]];
    let first = match list_specs(&mut cache, &catalogs, Some(&files)) {
        Listing::Specs(specs) => specs,
        Listing::NeedFiles => panic!("specs expected"),
    };
    assert_eq!(first.len(), 1);
    assert_eq!(list_all_errors(&cache).len(), 1);
    // a hit: the files are not needed, and are not read
    match list_specs(&mut cache, &vec![], None) {
        Listing::Specs(again) => {
            assert_eq!(again.len(), 1);
            assert_eq!(again[0].path, first[0].path);
        }
        Listing::NeedFiles => panic!("cached specs expected"),
    }
    cache.invalidate_all();
    assert!(matches!(list_specs(&mut cache, &catalogs, None), Listing::NeedFiles));
    assert!(list_all_errors(&cache).is_empty());
}

#[test]
fn a_repository_blob_gives_its_spec_with_audience_and_domain() {
    let content = "openapi: 3.0.0\ninfo:\n  version: 1.0.0\n  title: t\nservers:\n  - url: https://host/v1/sales\npaths:\n  /a: {}\n";
    let spec = spec_from_blob("/repo", String::from("oid-1"), content, "info:\n  x-audience: company\n").unwrap();
    assert_eq!(spec.path, "/repo");
    assert_eq!(spec.id, "oid-1");
    assert_eq!(spec.audience, " company");
    assert_eq!(spec.domain, "/v1/sales");
    assert_eq!(spec.api_spec.paths.len(), 1);
    let bare = spec_from_blob("/repo", String::from("oid-2"), content, "").unwrap();
    assert_eq!(bare.audience, "N/A");
    assert!(spec_from_blob("/repo", String::from("oid-3"), "not: [an, api]", "").is_none());
}

#[test]
fn per_text_statistics_say_when_the_text_cannot_be_read() {
    let zally = try_get_zally_ignore_metrics(OPENAPI, "name").unwrap();
    assert!(zally.is_empty());
    assert!(try_get_zally_ignore_metrics("just text", "name").is_none());
    let audience = try_get_endpoints_num_per_audience_metrics(OPENAPI, "name").unwrap();
    assert_eq!(audience, vec![(String::from("company"), 1usize)]);
    assert!(try_get_endpoints_num_per_audience_metrics("- a list", "name").is_none());
}

#[test]
fn test_list_all_specs() {
    // the catalog: a time-series spec, an audit-trails spec (bpaas,
    // application), and a file that is not a specification
    let catalogs = vec![catalog("uuid", "name", "not used here", false)];
    let time_series = "openapi: 3.0.0\ninfo:\n  version: 1.0.0\n  title: ts\n  x-audience: company\nservers:\n  - url: /v1/analytics/time-series\npaths:\n  /r:\n    get:\n      responses:\n        '200':\n          description: ok\n";
    let audit = "openapi: 3.0.0\ninfo:\n  version: 1.0.0\n  title: audit\n  x-audience: company\nx-systems:\n  - bpaas\nx-layer: application\nservers:\n  - url: /v1/audit/trails\npaths:\n  /r:\n    get:\n      responses:\n        '200':\n          description: ok\n";
    let files = vec![vec![
        CatalogFile { path: String::from("/c/time-series.yaml"), display_path: String::from("\"/c/time-series.yaml\""), content: String::from(time_series) },
        CatalogFile { path: String::from("/c/audit.yaml"), display_path: String::from("\"/c/audit.yaml\""), content: String::from(audit) },
        CatalogFile { path: String::from("/c/notes.yaml"), display_path: String::from("\"/c/notes.yaml\""), content: String::from("just: notes") },
    ]];
    let mut cache = CatalogCache::new();
    let results = match list_specs(&mut cache, &catalogs, Some(&files)) {
        Listing::Specs(specs) => specs,
        Listing::NeedFiles => panic!("specs expected"),
    };
    assert_eq!(results.len(), 2);
    //
    let spec: &SpecItem = results.get(0).unwrap();
    assert_eq!(&spec.get_audience(), "company");
    assert_eq!(spec.get_domain(), "/v1/analytics/time-series");
    assert_eq!(&spec.get_layer(), DEFAULT_SYSTEM_LAYER);
    assert_eq!(spec.get_systems().len(), 1);
    assert_eq!(&spec.get_systems()[0], DEFAULT_SYSTEM_LAYER);

    let spec: &SpecItem = results.get(1).unwrap();
    assert_eq!(&spec.get_audience(), "company");
    assert_eq!(spec.get_domain(), "/v1/audit/trails");
    assert_eq!(&spec.get_layer(), "application");
    assert_eq!(&spec.get_systems()[0], "bpaas");
}
