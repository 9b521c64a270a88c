use apis_catalog::app::dao::catalog::handlers::SpecHandler;
use apis_catalog::app::dao::catalog::handlers::implem::asyncapi::{V1, V2};
use apis_catalog::app::dao::catalog::handlers::implem::opanapi::V3;
use apis_catalog::app::dao::catalog::handlers::implem::proto::Proto3;
use apis_catalog::app::dao::catalog::DEFAULT_SYSTEM_LAYER;

#[test]
fn test_async_v1_default_layer_and_system() {
    let spec = r#"
            asyncapi: "1.2.0"
            info:
                title: "Portfolio Management - Full Revaluation - Business action"
                version: "1.12"
                x-audience: corporate
                x-api-id: 9e9880d5-ecb3-49eb-939d-c450aafe1a8d
            topics:
                v1.portfolio-management.full-revaluation.business-action-request:
                    publish:
        "#;

    let spec = V1::new(spec).unwrap();
    assert_eq!(spec.get_systems().len(), 1);
    assert_eq!(spec.get_systems().get(0).unwrap(), DEFAULT_SYSTEM_LAYER);
    assert_eq!(spec.get_layer(), DEFAULT_SYSTEM_LAYER);

    assert_eq!(spec.get_domain(), "NA - servers attribute not specified");
}

#[test]
fn test_async_v1_specified_layer_and_system() {
    let spec = r#"
            asyncapi: "1.2.0"
            info:
                title: "Portfolio Management - Full Revaluation - Business action"
                version: "1.12"
                x-audience: corporate
                x-api-id: 9e9880d5-ecb3-49eb-939d-c450aafe1a8d
            x-systems:
                - system1
            topics:
                v1.portfolio-management.full-revaluation.business-action-request:
                    publish:
        "#;

    let spec = V1::new(spec).unwrap();
    assert_eq!(spec.get_systems().len(), 1);
    assert_eq!(spec.get_systems().get(0).unwrap(), "system1");
    assert_eq!(spec.get_layer(), DEFAULT_SYSTEM_LAYER);

    let spec = r#"
            asyncapi: "1.2.0"
            info:
                title: "Portfolio Management - Full Revaluation - Business action"
                version: "1.12"
                x-audience: corporate
                x-api-id: 9e9880d5-ecb3-49eb-939d-c450aafe1a8d
            x-systems:
                - system1
                - system2
            servers:
                - url: /v1/my-domain
            x-layer: layer1
            topics:
                v1.portfolio-management.full-revaluation.business-action-request:
                    publish:
        "#;

    let spec = V1::new(spec).unwrap();
    assert_eq!(spec.get_systems().len(), 2);
    assert_eq!(spec.get_systems().get(0).unwrap(), "system1");
    assert_eq!(spec.get_systems().get(1).unwrap(), "system2");
    assert_eq!(spec.get_layer(), "layer1");

    assert_eq!(spec.get_domain(), "/v1/my-domain");
}

#[test]
fn test_async_v2() {
    let asyncapi_spec = "
        asyncapi: '2.6.0'
        info:
          title: Account Service
          version: 1.2.0
          description: This service is in charge of processing user signups
        channels:
          user/signedup:
            subscribe:
              summary: ff
              description: ggggg
              message:
                $ref: '#/components/messages/UserSignedUp'
            publish: 
              summary: ff
              description: ggggg
              message:
                $ref: '#/components/messages/UserSignedUp'
        components:
          messages:
            UserSignedUp:
              payload:
                type: object
                properties:
                  displayName:
                    type: string
                    description: Name of the user
                  email:
                    type: string
                    format: email
                    description: Email of the user
        ";

    let spec = V2::new(asyncapi_spec).unwrap();

    assert_eq!(spec.get_version(), "1.2.0");
    assert_eq!(spec.get_description(), "This service is in charge of processing user signups");
    assert_eq!(spec.get_paths_len(), 1);
    assert_eq!(spec.get_title(), "Account Service");
    assert_eq!(spec.get_audience(), DEFAULT_SYSTEM_LAYER);
    assert_eq!(spec.get_api_id(), "0");

    spec.get_paths();
}

#[test]
fn opanapi_test_play_with_trait() {
    let openapi_spec = r#"
        openapi: 3.0.2
        info:
          title: Swagger Petstore
          description: |-
            This is a sample Pet Store....
          version: 1.0.17
        servers:
          - url: /api/v3
        paths:
          /pet:
            put:
              summary: Update an existing pet
              description: Update an existing pet by Id
              requestBody:
                description: Update an existent pet in the store
                content:
                  application/json:
                    schema:
                      $ref: '#/components/schemas/Pet'
                required: true
              responses:
                '200':
                  description: Successful operation
                  content:
                    application/xml:
                      schema:
                        $ref: '#/components/schemas/Pet'
                    application/json:
                      schema:
                        $ref: '#/components/schemas/Pet'
            post:
              summary: Add a new pet to the store
              description: Add a new pet to the store
              requestBody:
                description: Create a new pet in the store
                content:
                  application/json:
                    schema:
                      $ref: '#/components/schemas/Pet'
                  application/xml:
                    schema:
                      $ref: '#/components/schemas/Pet'
                  application/x-www-form-urlencoded:
                    schema:
                      $ref: '#/components/schemas/Pet'
                required: true
              responses:
                '200':
                  description: Successful operation
                  content:
                    application/xml:
                      schema:
                        $ref: '#/components/schemas/Pet'
                    application/json:
                      schema:
                        $ref: '#/components/schemas/Pet'
                '405':
                  description: Invalid input
        components:
          schemas:
            Pet:
              required:
                - name
                - photoUrls
              type: object
              properties:
                id:
                  type: integer
                  format: int64
                  example: 10
                name:
                  type: string
                  example: doggie
                photoUrls:
                  type: array
                  xml:
                    wrapped: true
                  items:
                    type: string
                    xml:
                      name: photoUrl
                tags:
                  type: array
                  xml:
                    wrapped: true
                status:
                  type: string
                  description: pet status in the store
                  enum:
                    - available
                    - pending
                    - sold
              xml:
                name: pet
          requestBodies:
            Pet:
              description: Pet object that needs to be added to the store
              content:
                application/json:
                  schema:
                    $ref: '#/components/schemas/Pet'
                application/xml:
                  schema:
                    $ref: '#/components/schemas/Pet'
        "#;

    let spec = V3::new(openapi_spec).unwrap();
    assert_eq!(spec.get_version(), "1.0.17");
    assert_eq!(spec.get_title(), "Swagger Petstore");
    assert_eq!(spec.get_description(), "This is a sample Pet Store....");
    assert_eq!(spec.get_paths_len(), 1)
}

#[test]
fn proto_test_play_with_trait() {
    let proto_spec = "
        syntax=\"proto3\";
        // Enable custom Marshal method.
        option (gogoproto.marshaler_all) = true;
        // Enable custom Unmarshal method.
        option (gogoproto.unmarshaler_all) = true;
        // Enable custom Size method (Required by Marshal and Unmarshal).
        option (gogoproto.sizer_all) = true;
        // Enable registration with golang/protobuf for the grpc-gateway.
        option (gogoproto.goproto_registration) = true;
        // Enable generation of XXX_MessageName methods for grpc-go/status.
        option (gogoproto.messagename_all) = true;

        service UserService {
            rpc AddUser(User) returns (google.protobuf.Empty) {
            }
            rpc ListUsers(ListUsersRequest) returns (stream User) {
            }
            rpc ListUsersByRole(UserRole) returns (stream User) {
            }
            rpc UpdateUser(UpdateUserRequest) returns (User) {
            }
        }";

    let spec = Proto3::new(proto_spec);
    assert_eq!(spec.get_version(), "you should use prost-types crate");
}
