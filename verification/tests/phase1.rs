use oadig::cli::{Command, OperationField, SearchField, StatusField};
use oadig::commands::dispatch;
use oadig::error::OadigError;
use oadig::json::{Json, Number};
use oadig::resolver::ResolveOptions;

const PETSTORE_YAML: &str = r##"
openapi: "3.1.0"
info:
  title: Petstore
  version: "1.0.0"
  license:
    name: MIT
servers:
  - url: https://petstore.example.com/v1
tags:
  - name: pets
    description: Everything about pets
paths:
  /pets:
    get:
      summary: List all pets
      operationId: listPets
      tags:
        - pets
      parameters:
        - name: limit
          in: query
          description: How many items to return at one time (max 100)
          required: false
          schema:
            type: integer
            format: int32
      responses:
        "200":
          description: A paged array of pets
          content:
            application/json:
              schema:
                $ref: "#/components/schemas/Pets"
    post:
      summary: Create a pet
      operationId: createPet
      tags:
        - pets
      requestBody:
        required: true
        content:
          application/json:
            schema:
              $ref: "#/components/schemas/Pet"
      responses:
        "201":
          description: Null response
  /pets/{petId}:
    get:
      summary: Info for a specific pet
      operationId: showPetById
      tags:
        - pets
      parameters:
        - name: petId
          in: path
          required: true
          description: The id of the pet to retrieve
          schema:
            type: string
      responses:
        "200":
          description: Expected response to a valid request
          content:
            application/json:
              schema:
                $ref: "#/components/schemas/Pet"
components:
  schemas:
    Pet:
      type: object
      required:
        - id
        - name
      properties:
        id:
          type: integer
          format: int64
        name:
          type: string
        tag:
          type: string
    Pets:
      type: array
      items:
        $ref: "#/components/schemas/Pet"
"##;

const PETSTORE_JSON: &str = r##"{
  "openapi": "3.1.0",
  "info": {"title": "Petstore", "version": "1.0.0", "license": {"name": "MIT"}},
  "servers": [{"url": "https://petstore.example.com/v1"}],
  "tags": [{"name": "pets", "description": "Everything about pets"}],
  "paths": {
    "/pets": {
      "get": {
        "summary": "List all pets",
        "operationId": "listPets",
        "tags": ["pets"],
        "parameters": [{"name": "limit", "in": "query", "description": "How many items to return at one time (max 100)", "required": false, "schema": {"type": "integer", "format": "int32"}}],
        "responses": {"200": {"description": "A paged array of pets", "content": {"application/json": {"schema": {"$ref": "#/components/schemas/Pets"}}}}}
      },
      "post": {
        "summary": "Create a pet",
        "operationId": "createPet",
        "tags": ["pets"],
        "requestBody": {"required": true, "content": {"application/json": {"schema": {"$ref": "#/components/schemas/Pet"}}}},
        "responses": {"201": {"description": "Null response"}}
      }
    },
    "/pets/{petId}": {
      "get": {
        "summary": "Info for a specific pet",
        "operationId": "showPetById",
        "tags": ["pets"],
        "parameters": [{"name": "petId", "in": "path", "required": true, "description": "The id of the pet to retrieve", "schema": {"type": "string"}}],
        "responses": {"200": {"description": "Expected response to a valid request", "content": {"application/json": {"schema": {"$ref": "#/components/schemas/Pet"}}}}}
      }
    }
  },
  "components": {
    "schemas": {
      "Pet": {"type": "object", "required": ["id", "name"], "properties": {"id": {"type": "integer", "format": "int64"}, "name": {"type": "string"}, "tag": {"type": "string"}}},
      "Pets": {"type": "array", "items": {"$ref": "#/components/schemas/Pet"}}
    }
  }
}"##;

const CIRCULAR_YAML: &str = r##"
openapi: "3.1.0"
info:
  title: Circular
  version: "1"
paths: {}
components:
  schemas:
    Node:
      type: object
      properties:
        value:
          type: string
        children:
          type: array
          items:
            $ref: "#/components/schemas/Node"
"##;

const SWAGGER2_YAML: &str = r##"
swagger: "2.0"
info:
  title: Legacy
  version: "0.1"
host: api.example.com
basePath: /v1
x-vendor-tag: legacy-fixture
paths:
  /ping:
    get:
      operationId: ping
      summary: Liveness probe
      produces:
        - application/json
      responses:
        "200":
          description: OK
          schema:
            type: object
            properties:
              ok:
                type: boolean
securityDefinitions:
  oauth2_auth:
    type: oauth2
    flow: accessCode
    authorizationUrl: https://example.com/oauth/authorize
    tokenUrl: https://example.com/oauth/token
    scopes:
      read: read access
  basic_auth:
    type: basic
  api_key:
    type: apiKey
    in: header
    name: X-API-Key
"##;

const SWAGGER2_WITH_REF_YAML: &str = r##"
swagger: "2.0"
info:
  title: With ref
  version: "1"
paths:
  /a:
    get:
      responses:
        "200":
          description: A thing
          schema:
            $ref: "#/definitions/Thing"
definitions:
  Thing:
    type: object
    properties:
      name:
        type: string
"##;

const PETSTORE_EXPANDED_YAML: &str = r##"
openapi: "3.0.0"
info:
  version: 1.0.0
  title: Swagger Petstore
paths:
  /pets:
    get:
      operationId: findPets
      responses:
        "200":
          description: pet response
          content:
            application/json:
              schema:
                type: array
                items:
                  $ref: "#/components/schemas/Pet"
components:
  schemas:
    Pet:
      type: object
      properties:
        name:
          type: string
        tag:
          type: string
          nullable: true
"##;

const OPENAPI30_NULLABLE_YAML: &str = r##"
openapi: "3.0.3"
info:
  title: Nullable
  version: "1"
paths: {}
components:
  schemas:
    Item:
      type: object
      properties:
        name:
          type: string
          nullable: true
        age:
          type: integer
          minimum: 0
          exclusiveMinimum: true
          maximum: 120
          exclusiveMaximum: false
"##;

fn to_json(v: &serde_json::Value) -> Json {
    match v {
        serde_json::Value::Null => Json::Null,
        serde_json::Value::Bool(b) => Json::Bool(*b),
        serde_json::Value::Number(n) => {
            if let Some(u) = n.as_u64() {
                Json::Number(Number::UInt(u))
            } else if let Some(i) = n.as_i64() {
                Json::Number(Number::Int(i))
            } else {
                Json::Number(Number::Float(n.to_string()))
            }
        }
        serde_json::Value::String(s) => Json::Str(s.clone()),
        serde_json::Value::Array(a) => Json::Array(a.iter().map(to_json).collect()),
        serde_json::Value::Object(m) => Json::Object(m.iter().map(|(k, v)| (k.clone(), to_json(v))).collect()),
    }
}

fn yaml(text: &str) -> Json {
    let y: serde_yaml::Value = serde_yaml::from_str(text).expect("fixture is YAML");
    to_json(&serde_json::to_value(y).expect("fixture maps to JSON"))
}

fn json(text: &str) -> Json {
    let v: serde_json::Value = serde_json::from_str(text).expect("fixture is JSON");
    to_json(&v)
}

fn s(x: &str) -> Json {
    Json::Str(x.to_string())
}

fn n(x: u64) -> Json {
    Json::Number(Number::UInt(x))
}

fn at<'a>(v: &'a Json, key: &str) -> &'a Json {
    v.get(key).unwrap_or_else(|| panic!("missing key {key} in {v:?}"))
}

fn has(v: &Json, key: &str) -> bool {
    v.get(key).is_some()
}

fn items(v: &Json) -> &Vec<Json> {
    v.as_array().expect("array")
}

fn opts() -> ResolveOptions {
    ResolveOptions { resolve: true, max_depth: None }
}

fn run(cmd: Command, doc: &Json) -> Result<Json, OadigError> {
    dispatch(&cmd, doc, opts(), false)
}

fn run_ok(cmd: Command, doc: &Json) -> Json {
    match run(cmd, doc) {
        Ok(v) => v,
        Err(e) => panic!("command failed: {}", e.message()),
    }
}

fn run_err(cmd: Command, doc: &Json) -> String {
    match run(cmd, doc) {
        Ok(v) => panic!("expected an error, got {v:?}"),
        Err(e) => e.message(),
    }
}

fn file() -> String {
    "spec.yaml".to_string()
}

fn strings(xs: &[&str]) -> Vec<String> {
    xs.iter().map(|x| x.to_string()).collect()
}

fn ops(filters: &[&str], show: Vec<OperationField>, hide: Vec<OperationField>) -> Command {
    Command::Operations { file: file(), filters: strings(filters), op_show: show, op_hide: hide }
}

fn op_by_id(id: &str) -> Command {
    Command::Operation { args: strings(&[id, "spec.yaml"]), method: None, path: None }
}

fn op_by_mp(m: &str, p: &str) -> Command {
    Command::Operation { args: strings(&["spec.yaml"]), method: Some(m.to_string()), path: Some(p.to_string()) }
}

fn search(keyword: &str, regex: bool, case_sensitive: bool, show: Vec<SearchField>, hide: Vec<SearchField>) -> Command {
    Command::Search { keyword: keyword.to_string(), file: file(), regex, case_sensitive, hit_show: show, hit_hide: hide }
}

fn statuses(show: Vec<StatusField>) -> Command {
    Command::Statuses { file: file(), status_show: show, status_hide: vec![] }
}

fn convert(target: &str) -> Command {
    Command::Convert { target: target.to_string(), file: file() }
}

#[test]
fn spec_returns_openapi_for_v3() {
    let v = run_ok(Command::Spec { file: file() }, &yaml(PETSTORE_YAML));
    assert_eq!(v, s("3.1.0"));
}

#[test]
fn spec_returns_swagger_for_v2() {
    let v = run_ok(Command::Spec { file: file() }, &yaml(SWAGGER2_YAML));
    assert_eq!(v, s("2.0"));
}

#[test]
fn spec_is_null_when_missing() {
    let v = run_ok(Command::Spec { file: "-".to_string() }, &yaml("info:\n  title: Orphan\n  version: \"0\"\n"));
    assert!(v.is_null());
}

#[test]
fn info_show_null_fills_missing_info_keys() {
    let doc = yaml("info:\n  title: Orphan\n  version: \"0\"\n");
    let value = dispatch(&Command::Info { file: "-".to_string() }, &doc, opts(), true).unwrap();
    assert!(at(&value, "description").is_null());
    assert!(at(&value, "contact").is_null());
    assert!(at(&value, "license").is_null());
    assert!(!has(&value, "openapi"));
    assert!(!has(&value, "servers"));
}

#[test]
fn info_omits_spec_version_and_servers() {
    let info = run_ok(Command::Info { file: file() }, &yaml(PETSTORE_YAML));
    assert!(!has(&info, "openapi"));
    assert!(!has(&info, "swagger"));
    assert!(!has(&info, "servers"));
    assert_eq!(at(&info, "title"), &s("Petstore"));
}

#[test]
fn info_yaml_and_json_match() {
    let from_yaml = run_ok(Command::Info { file: file() }, &yaml(PETSTORE_YAML));
    let from_json = run_ok(Command::Info { file: file() }, &json(PETSTORE_JSON));
    assert_eq!(from_yaml, from_json);
    assert_eq!(at(&from_yaml, "title"), &s("Petstore"));
    assert_eq!(at(&from_yaml, "version"), &s("1.0.0"));
}

#[test]
fn stats_counts_match_fixture() {
    let stats = run_ok(Command::Stats { file: file() }, &yaml(PETSTORE_YAML));
    assert_eq!(at(&stats, "paths"), &n(2));
    assert_eq!(at(&stats, "operations"), &n(3));
    assert_eq!(at(&stats, "schemas"), &n(2));
    assert_eq!(at(at(&stats, "by_method"), "GET"), &n(2));
    assert_eq!(at(at(&stats, "by_method"), "POST"), &n(1));
    assert_eq!(at(at(&stats, "by_tag"), "pets"), &n(3));
}

#[test]
fn paths_lists_unique_path_strings() {
    let paths = run_ok(Command::Paths { file: file(), filters: vec![] }, &yaml(PETSTORE_YAML));
    assert_eq!(paths, json(r#"["/pets", "/pets/{petId}"]"#));
}

#[test]
fn paths_filter_by_path_prefix() {
    let paths = run_ok(Command::Paths { file: file(), filters: strings(&["path=/pets/*"]) }, &yaml(PETSTORE_YAML));
    assert_eq!(paths, json(r#"["/pets/{petId}"]"#));
}

#[test]
fn paths_filter_rejects_non_path_key() {
    let msg = run_err(Command::Paths { file: file(), filters: strings(&["method=GET"]) }, &yaml(PETSTORE_YAML));
    assert!(msg.contains("path"));
}

#[test]
fn operations_filter_method_exact() {
    let v = run_ok(ops(&["method=POST"], vec![], vec![]), &yaml(PETSTORE_YAML));
    let arr = items(&v);
    assert_eq!(arr.len(), 1);
    assert_eq!(at(&arr[0], "method"), &s("POST"));
}

#[test]
fn operations_filter_method_list_or() {
    let v = run_ok(ops(&["method=GET,POST"], vec![], vec![]), &yaml(PETSTORE_YAML));
    assert_eq!(items(&v).len(), 3);
}

#[test]
fn operations_filter_path_contains() {
    let v = run_ok(ops(&["path=*petId*"], vec![], vec![]), &yaml(PETSTORE_YAML));
    let arr = items(&v);
    assert_eq!(arr.len(), 1);
    assert_eq!(at(&arr[0], "path"), &s("/pets/{petId}"));
}

#[test]
fn operations_filter_path_prefix() {
    let v = run_ok(ops(&["path=/pets/*"], vec![], vec![]), &yaml(PETSTORE_YAML));
    let arr = items(&v);
    assert_eq!(arr.len(), 1);
    assert_eq!(at(&arr[0], "path"), &s("/pets/{petId}"));
}

#[test]
fn operations_filter_combines_as_and() {
    let v = run_ok(ops(&["tag=pets", "method=POST"], vec![], vec![]), &yaml(PETSTORE_YAML));
    let arr = items(&v);
    assert_eq!(arr.len(), 1);
    assert_eq!(at(&arr[0], "method"), &s("POST"));
}

#[test]
fn operations_filter_tag_exact() {
    let v = run_ok(ops(&["tag=pets"], vec![], vec![]), &yaml(PETSTORE_YAML));
    assert_eq!(items(&v).len(), 3);
    let none = run_ok(ops(&["tag=nonexistent"], vec![], vec![]), &yaml(PETSTORE_YAML));
    assert!(items(&none).is_empty());
}

#[test]
fn operations_filter_rejects_unknown_key() {
    let msg = run_err(ops(&["foo=bar"], vec![], vec![]), &yaml(PETSTORE_YAML));
    assert!(msg.contains("unknown filter key"));
}

#[test]
fn operations_default_leads_with_operation_id() {
    let v = run_ok(ops(&[], vec![], vec![]), &yaml(PETSTORE_YAML));
    let expected = json(
        r#"[
        { "operationId": "listPets",    "method": "GET",  "path": "/pets",         "summary": "List all pets" },
        { "operationId": "createPet",   "method": "POST", "path": "/pets",         "summary": "Create a pet" },
        { "operationId": "showPetById", "method": "GET",  "path": "/pets/{petId}", "summary": "Info for a specific pet" }
    ]"#,
    );
    assert_eq!(v, expected);
}

#[test]
fn operations_include_adds_tags_and_operation_id() {
    let v = run_ok(ops(&[], vec![OperationField::Tags, OperationField::OperationId], vec![]), &yaml(PETSTORE_YAML));
    let first = &items(&v)[0];
    assert_eq!(at(first, "method"), &s("GET"));
    assert_eq!(at(first, "path"), &s("/pets"));
    assert_eq!(at(first, "summary"), &s("List all pets"));
    assert_eq!(at(first, "tags"), &json(r#"["pets"]"#));
    assert_eq!(at(first, "operationId"), &s("listPets"));
}

#[test]
fn operations_exclude_summary_drops_default_field() {
    let v = run_ok(ops(&[], vec![], vec![OperationField::Summary]), &yaml(PETSTORE_YAML));
    for op in items(&v) {
        assert!(!has(op, "summary"), "summary should be excluded");
        assert!(at(op, "method").as_str().is_some());
        assert!(at(op, "path").as_str().is_some());
    }
}

#[test]
fn operations_include_all_covers_known_fields() {
    let v = run_ok(ops(&[], vec![OperationField::All], vec![]), &yaml(PETSTORE_YAML));
    let get_pets = items(&v).iter().find(|o| at(o, "method") == &s("GET") && at(o, "path") == &s("/pets")).unwrap();
    assert_eq!(at(get_pets, "tags"), &json(r#"["pets"]"#));
    assert_eq!(at(get_pets, "operationId"), &s("listPets"));
    assert!(at(get_pets, "parameters").as_array().is_some());
}

#[test]
fn operations_include_response_resolves_refs() {
    let v = run_ok(ops(&[], vec![OperationField::Response], vec![]), &yaml(PETSTORE_YAML));
    let get_pets = items(&v).iter().find(|o| at(o, "method") == &s("GET") && at(o, "path") == &s("/pets")).unwrap();
    let schema = at(at(at(at(at(get_pets, "responses"), "200"), "content"), "application/json"), "schema");
    assert!(!has(schema, "$ref"), "ref should be resolved");
    assert_eq!(at(schema, "type"), &s("array"));
}

#[test]
fn ops_alias_resolves_to_operations() {
    let from_alias = run_ok(ops(&[], vec![], vec![]), &yaml(PETSTORE_YAML));
    let from_canonical = run_ok(ops(&[], vec![], vec![]), &yaml(PETSTORE_YAML));
    assert_eq!(from_alias, from_canonical);
}

#[test]
fn operation_lookup_by_id_shows_full_detail() {
    let op = run_ok(op_by_id("listPets"), &yaml(PETSTORE_YAML));
    assert_eq!(at(&op, "method"), &s("GET"));
    assert_eq!(at(&op, "path"), &s("/pets"));
    assert_eq!(at(&op, "operationId"), &s("listPets"));
    let schema = at(at(at(at(at(&op, "responses"), "200"), "content"), "application/json"), "schema");
    assert!(!has(schema, "$ref"));
    assert_eq!(at(schema, "type"), &s("array"));
}

#[test]
fn operation_lookup_by_method_and_path_matches_id() {
    let by_id = run_ok(op_by_id("listPets"), &yaml(PETSTORE_YAML));
    let by_mp = run_ok(op_by_mp("GET", "/pets"), &yaml(PETSTORE_YAML));
    assert_eq!(by_id, by_mp);
}

#[test]
fn op_alias_resolves_to_operation() {
    let from_alias = run_ok(op_by_id("listPets"), &yaml(PETSTORE_YAML));
    let from_canonical = run_ok(op_by_id("listPets"), &yaml(PETSTORE_YAML));
    assert_eq!(from_alias, from_canonical);
}

#[test]
fn operation_method_is_case_insensitive() {
    let upper = run_ok(op_by_mp("GET", "/pets"), &yaml(PETSTORE_YAML));
    let lower = run_ok(op_by_mp("get", "/pets"), &yaml(PETSTORE_YAML));
    assert_eq!(upper, lower);
}

#[test]
fn operation_id_not_found_errors() {
    let msg = run_err(op_by_id("nonexistent"), &yaml(PETSTORE_YAML));
    assert!(msg.contains("nonexistent"));
    assert!(msg.contains("hint"));
}

#[test]
fn operation_method_path_not_found_errors() {
    let msg = run_err(op_by_mp("DELETE", "/pets"), &yaml(PETSTORE_YAML));
    assert!(msg.contains("DELETE"));
    assert!(msg.contains("/pets"));
}

#[test]
fn operation_requires_either_id_or_method_path() {
    let cmd = Command::Operation { args: strings(&["spec.yaml"]), method: None, path: None };
    let msg = run_err(cmd, &yaml(PETSTORE_YAML));
    assert!(msg.contains("specify either"));
}

#[test]
fn response_narrows_by_status() {
    let doc = yaml(PETSTORE_YAML);
    let all = run_ok(Command::Response { args: strings(&["listPets", "spec.yaml"]), method: None, path: None, status: None }, &doc);
    assert!(has(&all, "200"));
    let only_200 = run_ok(
        Command::Response { args: strings(&["listPets", "spec.yaml"]), method: None, path: None, status: Some("200".to_string()) },
        &doc,
    );
    assert_eq!(&only_200, at(&all, "200"));
}

#[test]
fn res_alias_resolves_to_response() {
    let doc = yaml(PETSTORE_YAML);
    let cmd = || Command::Response { args: strings(&["listPets", "spec.yaml"]), method: None, path: None, status: None };
    assert_eq!(run_ok(cmd(), &doc), run_ok(cmd(), &doc));
}

#[test]
fn request_returns_null_when_missing() {
    let req = run_ok(Command::Request { args: strings(&["listPets", "spec.yaml"]), method: None, path: None }, &yaml(PETSTORE_YAML));
    assert!(req.is_null());
}

#[test]
fn requests_lists_only_operations_with_body() {
    let reqs = run_ok(Command::Requests { file: file() }, &yaml(PETSTORE_YAML));
    let arr = items(&reqs);
    assert_eq!(arr.len(), 1);
    assert_eq!(at(&arr[0], "method"), &s("POST"));
    assert_eq!(at(&arr[0], "path"), &s("/pets"));
    let schema = at(at(at(at(&arr[0], "requestBody"), "content"), "application/json"), "schema");
    assert!(!has(schema, "$ref"));
    assert_eq!(at(schema, "type"), &s("object"));
}

#[test]
fn statuses_dedupes_by_code() {
    let v = run_ok(statuses(vec![]), &yaml(PETSTORE_YAML));
    assert_eq!(
        v,
        json(
            r#"[
            { "status": "200", "description": "A paged array of pets" },
            { "status": "201", "description": "Null response" }
        ]"#
        )
    );
}

#[test]
fn schemas_lists_definitions_from_swagger2() {
    let v = run_ok(Command::Schemas { file: file() }, &yaml(SWAGGER2_WITH_REF_YAML));
    assert_eq!(v, json(r#"["Thing"]"#));
}

#[test]
fn schema_resolves_swagger2_definition_by_name() {
    let v = run_ok(Command::Schema { name: "Thing".to_string(), file: file() }, &yaml(SWAGGER2_WITH_REF_YAML));
    assert_eq!(at(&v, "type"), &s("object"));
}

#[test]
fn operations_on_swagger2_lists_by_converted_shape() {
    let v = run_ok(ops(&[], vec![], vec![]), &yaml(SWAGGER2_YAML));
    let arr = items(&v);
    assert_eq!(arr.len(), 1);
    assert_eq!(at(&arr[0], "method"), &s("GET"));
    assert_eq!(at(&arr[0], "path"), &s("/ping"));
    assert_eq!(at(&arr[0], "operationId"), &s("ping"));
}

#[test]
fn statuses_include_schema_for_swagger2_uses_application_json_after_convert() {
    let v = run_ok(statuses(vec![StatusField::Schema]), &yaml(SWAGGER2_YAML));
    let first = items(&v).iter().find(|e| at(e, "status") == &s("200")).unwrap();
    let schema = at(at(first, "schema"), "application/json");
    assert_eq!(at(schema, "type"), &s("object"));
    assert_eq!(at(at(at(schema, "properties"), "ok"), "type"), &s("boolean"));
}

#[test]
fn statuses_include_content_returns_full_content_map() {
    let v = run_ok(statuses(vec![StatusField::Content]), &yaml(PETSTORE_YAML));
    let first = items(&v).iter().find(|e| at(e, "status") == &s("200")).unwrap();
    let media = at(at(first, "content"), "application/json");
    assert!(has(media, "schema"));
}

#[test]
fn statuses_include_schema_resolves_refs() {
    let v = run_ok(statuses(vec![StatusField::Schema]), &yaml(PETSTORE_YAML));
    let first = items(&v).iter().find(|e| at(e, "status") == &s("200")).expect("200 entry");
    let schema = at(at(first, "schema"), "application/json");
    assert!(!has(schema, "$ref"), "ref should be inlined");
    assert_eq!(at(schema, "type"), &s("array"));
}

#[test]
fn statuses_include_skips_absent_fields() {
    let v = run_ok(statuses(vec![StatusField::Headers, StatusField::Schema]), &yaml(PETSTORE_YAML));
    let only_desc = items(&v).iter().find(|e| at(e, "status") == &s("201")).expect("201 entry");
    assert!(!has(only_desc, "headers"));
    assert!(!has(only_desc, "schema"));
}

#[test]
fn responses_lists_every_operation() {
    let res = run_ok(Command::Responses { file: file(), status: None }, &yaml(PETSTORE_YAML));
    let arr = items(&res);
    assert_eq!(arr.len(), 3);
    for entry in arr {
        assert!(at(entry, "responses").as_object().is_some());
    }
}

#[test]
fn responses_narrows_by_status_and_drops_misses() {
    let res = run_ok(Command::Responses { file: file(), status: Some("201".to_string()) }, &yaml(PETSTORE_YAML));
    let arr = items(&res);
    assert_eq!(arr.len(), 1);
    assert_eq!(at(&arr[0], "method"), &s("POST"));
    assert_eq!(at(&arr[0], "path"), &s("/pets"));
    assert!(at(at(&arr[0], "responses"), "201").as_object().is_some());
    assert!(!has(at(&arr[0], "responses"), "200"));
}

#[test]
fn operations_lines_format_one_entry_per_line() {
    let v = run_ok(ops(&[], vec![], vec![]), &yaml(PETSTORE_YAML));
    let parts: Vec<String> = items(&v).iter().map(|e| compact(e)).collect();
    let stdout = oadig::output::lines_layout(&parts);
    assert!(stdout.starts_with("[\n  {"));
    assert!(stdout.trim_end().ends_with("}\n]"));
    for line in stdout.lines().filter(|l| l.starts_with("  {")) {
        assert!(line.contains("\"method\""));
        assert!(line.contains("\"path\""));
    }
}

fn compact(v: &Json) -> String {
    oadig::encode::to_json_text(v)
}

#[test]
fn search_finds_substring_case_insensitive_by_default() {
    let hits = run_ok(search("petstore", false, false, vec![], vec![]), &yaml(PETSTORE_YAML));
    let arr = items(&hits);
    assert!(!arr.is_empty());
    assert!(arr.iter().any(|h| h.get("pointer") == Some(&s("/info/title"))));
}

#[test]
fn search_default_includes_operation_context() {
    let hits = run_ok(search("List all pets", false, false, vec![], vec![]), &yaml(PETSTORE_YAML));
    let arr = items(&hits);
    assert!(!arr.is_empty());
    let h = &arr[0];
    assert_eq!(at(at(h, "operationRef"), "method"), &s("GET"));
    assert_eq!(at(at(h, "operationRef"), "path"), &s("/pets"));
    assert_eq!(at(h, "at"), &s("summary"));
    assert_eq!(at(h, "value"), &s("List all pets"));
    assert!(!has(h, "path"));
}

#[test]
fn search_include_jsonpath_renders_dotted_with_bracket_quoting() {
    let hits = run_ok(search("Petstore", false, false, vec![SearchField::JsonPath], vec![]), &yaml(PETSTORE_YAML));
    let info_hit = items(&hits).iter().find(|h| h.get("pointer") == Some(&s("/info/title"))).unwrap();
    assert_eq!(at(info_hit, "jsonPath"), &s("$.info.title"));
}

#[test]
fn search_jsonpath_quotes_complex_keys() {
    let hits = run_ok(search("Info for a specific pet", false, false, vec![SearchField::JsonPath], vec![]), &yaml(PETSTORE_YAML));
    let h = &items(&hits)[0];
    assert_eq!(at(h, "jsonPath"), &s("$.paths[\"/pets/{petId}\"].get.summary"));
}

#[test]
fn search_exclude_pointer_drops_field() {
    let hits = run_ok(search("petstore", false, false, vec![], vec![SearchField::Pointer]), &yaml(PETSTORE_YAML));
    for h in items(&hits) {
        assert!(!has(h, "pointer"));
        assert!(at(h, "value").as_str().is_some());
    }
}

#[test]
fn search_hits_outside_operations_have_no_context() {
    let hits = run_ok(search("Pet", false, false, vec![], vec![]), &yaml(PETSTORE_YAML));
    let components_hit = items(&hits)
        .iter()
        .find(|h| h.get("pointer").and_then(|p| p.as_str()).is_some_and(|p| p.starts_with("/components/")))
        .expect("at least one components hit");
    assert!(!has(components_hit, "operationRef"));
    assert!(!has(components_hit, "at"));
}

#[test]
fn search_case_sensitive_skips_case_mismatch() {
    let doc = yaml(PETSTORE_YAML);
    let insensitive = run_ok(search("petstore", false, false, vec![], vec![]), &doc);
    let sensitive = run_ok(search("petstore", false, true, vec![], vec![]), &doc);
    let title = s("/info/title");
    let insensitive_titles = items(&insensitive).iter().filter(|h| h.get("pointer") == Some(&title)).count();
    let sensitive_titles = items(&sensitive).iter().filter(|h| h.get("pointer") == Some(&title)).count();
    assert_eq!(insensitive_titles, 1);
    assert_eq!(sensitive_titles, 0);
}

#[test]
fn search_regex_mode() {
    let hits = run_ok(search(r"^List all pets$", true, true, vec![], vec![]), &yaml(PETSTORE_YAML));
    let arr = items(&hits);
    assert_eq!(arr.len(), 1);
    assert_eq!(at(&arr[0], "pointer"), &s("/paths/~1pets/get/summary"));
}

#[test]
fn convert_swagger2_to_openapi30_round_trips_through_validate() {
    let value = run_ok(convert("3.0"), &yaml(SWAGGER2_YAML));
    assert_eq!(at(&value, "openapi"), &s("3.0.3"));
    assert_eq!(at(&items(at(&value, "servers"))[0], "url"), &s("https://api.example.com/v1"));
    let schema = at(at(at(at(at(at(at(at(&value, "paths"), "/ping"), "get"), "responses"), "200"), "content"), "application/json"), "schema");
    assert!(schema.as_object().is_some());
    let verdict = run_ok(Command::Validate { file: "-".to_string() }, &value);
    assert_eq!(at(&verdict, "valid"), &Json::Bool(true));
}

#[test]
fn convert_preserves_top_level_vendor_extensions() {
    let v = run_ok(convert("3.0"), &yaml(SWAGGER2_YAML));
    assert_eq!(at(&v, "x-vendor-tag"), &s("legacy-fixture"));
}

#[test]
fn convert_reshapes_oauth2_security_scheme() {
    let v = run_ok(convert("3.0"), &yaml(SWAGGER2_YAML));
    let oauth = at(at(at(&v, "components"), "securitySchemes"), "oauth2_auth");
    assert_eq!(at(oauth, "type"), &s("oauth2"));
    let flow = at(at(oauth, "flows"), "authorizationCode");
    assert_eq!(at(flow, "authorizationUrl"), &s("https://example.com/oauth/authorize"));
    assert_eq!(at(flow, "tokenUrl"), &s("https://example.com/oauth/token"));
    assert_eq!(at(at(flow, "scopes"), "read"), &s("read access"));
}

#[test]
fn convert_reshapes_basic_security_scheme() {
    let v = run_ok(convert("3.0"), &yaml(SWAGGER2_YAML));
    let basic = at(at(at(&v, "components"), "securitySchemes"), "basic_auth");
    assert_eq!(at(basic, "type"), &s("http"));
    assert_eq!(at(basic, "scheme"), &s("basic"));
}

#[test]
fn convert_keeps_apikey_scheme_shape() {
    let v = run_ok(convert("3.0"), &yaml(SWAGGER2_YAML));
    let key = at(at(at(&v, "components"), "securitySchemes"), "api_key");
    assert_eq!(at(key, "type"), &s("apiKey"));
    assert_eq!(at(key, "in"), &s("header"));
    assert_eq!(at(key, "name"), &s("X-API-Key"));
}

#[test]
fn convert_rewrites_refs() {
    let value = run_ok(convert("3.0"), &yaml(SWAGGER2_WITH_REF_YAML));
    let schema = at(at(at(at(at(at(at(at(&value, "paths"), "/a"), "get"), "responses"), "200"), "content"), "application/json"), "schema");
    assert_eq!(at(schema, "$ref"), &s("#/components/schemas/Thing"));
    assert!(at(at(at(&value, "components"), "schemas"), "Thing").as_object().is_some());
}

#[test]
fn convert_openapi30_to_openapi31_bumps_version() {
    let v = run_ok(convert("3.1"), &yaml(PETSTORE_EXPANDED_YAML));
    assert_eq!(at(&v, "openapi"), &s("3.1.0"));
}

#[test]
fn convert_openapi30_to_openapi31_rewrites_nullable() {
    let v = run_ok(convert("3.1"), &yaml(OPENAPI30_NULLABLE_YAML));
    assert_eq!(at(&v, "openapi"), &s("3.1.0"));
    let name = at(at(at(at(at(&v, "components"), "schemas"), "Item"), "properties"), "name");
    assert!(!has(name, "nullable"));
    assert_eq!(at(name, "type"), &json(r#"["string", "null"]"#));
}

#[test]
fn convert_openapi30_to_openapi31_rewrites_exclusive_bounds() {
    let v = run_ok(convert("3.1"), &yaml(OPENAPI30_NULLABLE_YAML));
    let age = at(at(at(at(at(&v, "components"), "schemas"), "Item"), "properties"), "age");
    assert_eq!(at(age, "exclusiveMinimum"), &n(0));
    assert!(!has(age, "minimum"));
    assert!(!has(age, "exclusiveMaximum"));
    assert_eq!(at(age, "maximum"), &n(120));
}

#[test]
fn convert_swagger2_to_openapi31_chains() {
    let v = run_ok(convert("3.1"), &yaml(SWAGGER2_YAML));
    assert_eq!(at(&v, "openapi"), &s("3.1.0"));
}

#[test]
fn convert_rejects_unsupported_direction() {
    let msg = run_err(convert("2.0"), &yaml(PETSTORE_YAML));
    assert!(msg.contains("not implemented"));
}

#[test]
fn validate_accepts_valid_openapi() {
    let v = run_ok(Command::Validate { file: file() }, &yaml(PETSTORE_YAML));
    assert_eq!(at(&v, "valid"), &Json::Bool(true));
    assert_eq!(at(&v, "version"), &s("3.1.0"));
}

#[test]
fn validate_reports_swagger2_as_unsupported() {
    let v = run_ok(Command::Validate { file: file() }, &yaml(SWAGGER2_YAML));
    assert!(at(&v, "valid").is_null());
    assert_eq!(at(&v, "version"), &s("2.0"));
    let message = at(&items(at(&v, "errors"))[0], "message").as_str().unwrap().clone();
    assert!(message.contains("Swagger 2.0"));
}

#[test]
fn validate_reports_structural_error_with_pointer() {
    let v = run_ok(Command::Validate { file: "-".to_string() }, &yaml("openapi: \"3.1.0\"\ninfo: 42\npaths: {}\n"));
    assert_eq!(at(&v, "valid"), &Json::Bool(false));
    let err = &items(at(&v, "errors"))[0];
    assert_eq!(at(err, "pointer"), &s("/info"));
    assert!(at(err, "message").as_str().unwrap().contains("expected"));
}

#[test]
fn tags_lists_declared_with_operation_count() {
    let tags = run_ok(Command::Tags { file: file() }, &yaml(PETSTORE_YAML));
    assert_eq!(tags, json(r#"[{ "name": "pets", "description": "Everything about pets", "operationCount": 3 }]"#));
}

#[test]
fn components_shows_only_populated_sections_by_default() {
    let components = run_ok(Command::Components { file: file() }, &yaml(PETSTORE_YAML));
    assert_eq!(at(&components, "schemas"), &json(r#"["Pet", "Pets"]"#));
    assert!(!has(&components, "responses"));
    assert!(!has(&components, "parameters"));
}

#[test]
fn components_show_null_emits_every_section() {
    let components = dispatch(&Command::Components { file: file() }, &yaml(PETSTORE_YAML), opts(), true).unwrap();
    for section in [
        "schemas",
        "responses",
        "parameters",
        "examples",
        "requestBodies",
        "headers",
        "securitySchemes",
        "links",
        "callbacks",
        "pathItems",
    ] {
        assert!(at(&components, section).as_array().is_some(), "missing section: {section}");
    }
}

#[test]
fn max_depth_without_ref_resolution_warns() {
    let args = cli(ops(&[], vec![], vec![]), Some(3), false, false);
    let warnings = oadig::warnings::for_invocation(&args);
    assert!(warnings.iter().any(|w| w.contains("--max-depth has no effect")));
}

#[test]
fn max_depth_silent_when_include_pulls_refs() {
    let args = cli(ops(&[], vec![OperationField::Response], vec![]), Some(3), false, false);
    let warnings = oadig::warnings::for_invocation(&args);
    assert!(!warnings.iter().any(|w| w.contains("--max-depth")));
}

#[test]
fn no_resolve_refs_on_ref_free_command_warns() {
    let args = cli(Command::Info { file: file() }, None, true, false);
    let warnings = oadig::warnings::for_invocation(&args);
    assert!(warnings.iter().any(|w| w.contains("--no-resolve-refs has no effect")));
}

#[test]
fn show_null_on_unsupported_command_warns() {
    let args = cli(Command::Paths { file: file(), filters: vec![] }, None, false, true);
    let warnings = oadig::warnings::for_invocation(&args);
    assert!(warnings.iter().any(|w| w.contains("--show-null has no effect")));
}

fn cli(command: Command, max_depth: Option<usize>, no_resolve_refs: bool, show_null: bool) -> oadig::cli::Cli {
    oadig::cli::Cli {
        command,
        format: oadig::cli::Format::Json,
        compact: false,
        lines: false,
        resolve_refs: true,
        no_resolve_refs,
        max_depth,
        show_null,
    }
}

#[test]
fn schemas_lists_names() {
    let schemas = run_ok(Command::Schemas { file: file() }, &yaml(PETSTORE_YAML));
    assert_eq!(schemas, json(r#"["Pet", "Pets"]"#));
}

#[test]
fn schema_resolves_refs_by_default() {
    let schema = run_ok(Command::Schema { name: "Pets".to_string(), file: file() }, &yaml(PETSTORE_YAML));
    assert_eq!(at(&schema, "type"), &s("array"));
    assert!(!has(at(&schema, "items"), "$ref"));
    assert_eq!(at(at(&schema, "items"), "type"), &s("object"));
    assert_eq!(at(at(at(at(&schema, "items"), "properties"), "id"), "type"), &s("integer"));
}

#[test]
fn schema_preserves_refs_with_flag() {
    let keep = ResolveOptions { resolve: false, max_depth: None };
    let schema = dispatch(&Command::Schema { name: "Pets".to_string(), file: file() }, &yaml(PETSTORE_YAML), keep, false).unwrap();
    assert_eq!(at(at(&schema, "items"), "$ref"), &s("#/components/schemas/Pet"));
}

#[test]
fn schema_marks_circular_ref() {
    let schema = run_ok(Command::Schema { name: "Node".to_string(), file: file() }, &yaml(CIRCULAR_YAML));
    let marker = at(at(at(at(&schema, "properties"), "children"), "items"), "$circular_ref");
    assert_eq!(marker, &s("#/components/schemas/Node"));
}

#[test]
fn overview_places_spec_version_and_servers_at_top_level() {
    let doc = yaml(PETSTORE_YAML);
    let overview = run_ok(Command::Overview { file: file() }, &doc);
    assert_eq!(at(&overview, "openapi"), &s("3.1.0"));
    assert_eq!(at(&overview, "info"), &run_ok(Command::Info { file: file() }, &doc));
    assert_eq!(at(&items(at(&overview, "servers"))[0], "url"), &s("https://petstore.example.com/v1"));
    assert_eq!(at(&overview, "stats"), &run_ok(Command::Stats { file: file() }, &doc));
    assert_eq!(at(&overview, "operations"), &run_ok(ops(&[], vec![], vec![]), &doc));
}

#[test]
fn overview_uses_swagger_key_for_v2() {
    let overview = run_ok(Command::Overview { file: file() }, &yaml(SWAGGER2_YAML));
    assert_eq!(at(&overview, "swagger"), &s("2.0"));
    assert!(!has(&overview, "openapi"));
}

#[test]
fn missing_schema_errors() {
    let msg = run_err(Command::Schema { name: "Nope".to_string(), file: file() }, &yaml(PETSTORE_YAML));
    assert!(msg.contains("Nope"), "message should mention missing schema: {msg}");
}
