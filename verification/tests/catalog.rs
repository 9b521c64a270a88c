use apis_catalog::app::dao::catalog::handlers::SpecType;
use apis_catalog::app::dao::catalog::handlers::implem::opanapi::V3;
use apis_catalog::app::dao::catalog::spec::{from_str, SpecHandlerKind, SpecItem};
use apis_catalog::app::dao::catalog::{
    get_endpoints_num_per_audience_metrics, get_endpoints_num_per_subdomain, get_zally_ignore_metrics,
};

fn count_of(entries: &Vec<(String, usize)>, key: &str) -> Option<usize> {
    entries.iter().find(|e| e.0 == key).map(|e| e.1)
}

#[test]
fn test_get_api_id_from_spec_w_ext() {
    let mut info = openapiv3::Info {
        title: "My API".to_string(),
        version: "1.0.0".to_string(),
        ..Default::default()
    };
    info.extensions.insert("x-api-id".to_string(), serde_json::Value::String("134".to_string()));

    let openapi_spec = openapiv3::OpenAPI {
        openapi: "3.0.0".to_string(),
        info,
        paths: Default::default(),
        ..Default::default()
    };

    let spec_as_str = serde_yaml::to_string(&openapi_spec).unwrap();

    let spec = from_str("path".to_string(), "catalog_id".to_string(), "catalog_dir".to_string(), spec_as_str.as_str()).unwrap();
    let sut = spec.get_api_id();
    assert_eq!(sut, "134");
}

#[test]
fn test_get_api_id_from_spec_wo_ext() {
    let openapi_spec = openapiv3::OpenAPI {
        openapi: "3.0.0".to_string(),
        info: openapiv3::Info {
            title: "My API".to_string(),
            version: "1.0.0".to_string(),
            ..Default::default()
        },
        paths: Default::default(),
        ..Default::default()
    };
    let spec_as_str = serde_yaml::to_string(&openapi_spec).unwrap();

    let spec = from_str("path".to_string(), "catalog_id".to_string(), "catalog_dir".to_string(), spec_as_str.as_str()).unwrap();

    let sut = spec.get_api_id();
    assert_eq!(sut, "0");
}

#[test]
fn test_get_spec_short_path() {
    let openapi_spec = openapiv3::OpenAPI {
        openapi: "3.0.0".to_string(),
        info: openapiv3::Info {
            title: "My API".to_string(),
            version: "1.0.0".to_string(),
            ..Default::default()
        },
        paths: Default::default(),
        ..Default::default()
    };

    let spec_as_str = serde_yaml::to_string(&openapi_spec).unwrap();

    let spec = SpecItem {
        spec_type: SpecType::OpenAPIv3,
        path: String::from("/home/catalog/code/openapi-specifications/specifications/manual-tasks/openapi.yaml"),
        catalog_id: String::from("not used here"),
        catalog_dir: String::from("/home/catalog/"),
        handler: SpecHandlerKind::OpenAPIv3(V3::new(&spec_as_str).unwrap()),
    };

    let sut = SpecItem::get_spec_short_path(&spec);
    assert_eq!("code/openapi-specifications/specifications/manual-tasks/openapi.yaml", sut);
}

#[test]
fn test_spec_item_from_str_for_openapi() {
    let mut path_item = openapiv3::PathItem::default();
    let mut get_operation = openapiv3::Operation::default();
    get_operation.summary = Some("Get example".to_string());
    path_item.get = Some(get_operation);
    let mut post_operation = openapiv3::Operation::default();
    post_operation.summary = Some("Post Example".to_string());
    path_item.post = Some(post_operation);

    let mut openapi_spec = openapiv3::OpenAPI {
        openapi: "3.0.0".to_string(),
        info: openapiv3::Info {
            title: "My API".to_string(),
            version: "1.4.0".to_string(),
            ..Default::default()
        },
        ..Default::default()
    };

    openapi_spec.paths.paths.insert("/example".to_string(), openapiv3::ReferenceOr::Item(path_item));

    let spec_as_str = serde_yaml::to_string(&openapi_spec).unwrap();

    let catalog_id = "rr".to_string();
    let catalog_dir = "fff".to_string();
    let path = "a path".to_string();

    let spec = from_str(path, catalog_id, catalog_dir, spec_as_str.as_str()).unwrap();

    assert_eq!(spec.get_spec_type(), SpecType::OpenAPIv3);
    assert_eq!(spec.get_version(), "1.4.0");
    assert_eq!(spec.get_title(), "My API");
    assert_eq!(spec.get_description(), "");
    assert_eq!(spec.get_paths_len(), 1);

    assert_eq!(spec.get_paths()[0].methods[0].method, "GET");
    assert_eq!(spec.get_paths()[0].methods[1].method, "POST");
}

#[test]
fn mod_test_get_endpoints_num_per_subdomain_1() {
    let mut specs = Vec::new();

    let spec = r#"
            openapi: 3.0.0
            info:
                version: 1.0.0
                title: sample
            servers: 
                - url: /v1/a/b
            paths:
                /resource_1:
                    get:
                    summary: Update an existing pet
                    description: Update an existing pet by Id
                    operationId: updatePet
        "#;

    let path = String::from("std::string::String");
    let catalog_id = String::from("not used here");
    let catalog_dir = String::from("not used here");

    let spec_item = from_str(path, catalog_id, catalog_dir, spec).unwrap();

    specs.push(spec_item);

    let spec = "
        openapi: 3.0.0
        info:
          version: 1.0.0
          title: sample
        servers: 
          - url: /v1/a/c
        paths:
          /resource_1:
            get:
              responses:
                '206':
                  description: Partial Content
                  /resource_1:
            post:
              responses:
                '206':
                  description: Partial Content
        ";

    let catalog_id = String::from("not used here");
    let catalog_dir = String::from("not used here");
    let path = String::from("std::string::String");

    let spec_item = from_str(path, catalog_id, catalog_dir, spec).unwrap();

    specs.push(spec_item);

    let spec = "
        openapi: 3.0.0
        info:
          version: 1.0.0
          title: sample
        paths:
          /resource_1:
            get:
              responses:
                '206':
                  description: Partial Content
        ";

    let path = String::from("std::string::String");
    let catalog_id = String::from("not used here");
    let catalog_dir = String::from("not used here");

    let spec_item = from_str(path, catalog_id, catalog_dir, spec).unwrap();

    specs.push(spec_item);

    let data = get_endpoints_num_per_subdomain(&specs);

    assert_eq!(count_of(&data, "/v1/a/c").unwrap(), 1usize);
    assert_eq!(count_of(&data, "/v1/a/b").unwrap(), 1usize);
    assert_eq!(count_of(&data, "NA - servers attribute not specified").unwrap(), 1usize);
}

#[test]
fn mod_test_get_zally_ignore_metrics_1() {
    let spec = "
        openapi: \"3.0.0\"
        info:
          version: 1.0.0
          title: an API ...
        x-zally-ignore:
          - 134
          - 120 # Rest maturity evolving
        
        paths:
          /v1/a/b:
            get:
              description: get ...
              responses:
                '200':
                  description: returns...

          /v2/a/b:
            x-zally-ignore:
              - 164
            get:
              description: get ...
              responses:
                '200':
                  description: returns...
                    
          /a/b:
            x-zally-ignore:
              - 164 # Rest maturity evolving
              - 134
            post:
              parameters:
                - name: chunk
                  in: query
                  required: true
                  schema:
                    type: integer
                    format: int32
                    minimum: 1
              responses:
                200:
                  description: ...     
        ";

    let results = get_zally_ignore_metrics(spec, "name");

    println!("*** results : {:?}", results);

    assert_eq!(results.get(&134i64).unwrap(), &3usize);
    assert_eq!(results.get(&120i64).unwrap(), &3usize);
    assert_eq!(results.get(&164i64).unwrap(), &2usize);
}

#[test]
fn mod_test_get_zally_ignore_metrics_2() {
    let spec = "
        openapi: \"3.0.0\"
        info:
          version: 1.0.0
          title: an API ...
        
        paths:
          /v1/a/b:
            get:
              description: get ...
              responses:
                '200':
                  description: returns...
                    
          /a/b:
            x-zally-ignore:
              - M10
              - 164 
            post:
              parameters:
                - name: chunk
                  in: query
                  required: true
                  schema:
                    type: integer
                    format: int32
                    minimum: 1
              responses:
                200:
                  description: ...       
        ";

    let results = get_zally_ignore_metrics(spec, "name");

    println!("*** results : {:?}", results);

    assert_eq!(results.get(&164i64).unwrap(), &1usize);
    assert_eq!(results.get(&-1i64).unwrap(), &1usize);
}

#[test]
fn mod_test_get_endpoints_num_per_audience_ignore_metrics_1() {
    let spec = "
        openapi: \"3.0.0\"
        info:
          version: 1.0.0
          title: an API ...
          x-audience: an audience
        
        paths:
          /v1/a/b:
            get:
              description: get ...
              responses:
                '200':
                  description: returns...

          /v2/a/b:
            get:
              description: get ...
              responses:
                '200':
                  description: returns...  
        ";

    let results = get_endpoints_num_per_audience_metrics(spec, "name");

    assert_eq!(count_of(&results, "an audience").unwrap(), 2usize);
}
