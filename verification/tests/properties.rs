use oadig::cli::{Command, Format as CliFormat, OperationField, SearchField};
use oadig::commands::convert::{openapi30_to_openapi31, rewrite_ref, rewrite_refs, swagger2_to_openapi30};
use oadig::commands::{check_filters, dispatch};
use oadig::commands::filter::{Glob, OpFilter, PathFilter};
use oadig::commands::search::escape_token;
use oadig::encode::to_json_text;
use oadig::error::OadigError;
use oadig::json::{Json, Number};
use oadig::loader::{detect_format, format_from_extension, Format};
use oadig::matcher::Matcher;
use oadig::output::{join_with, lines_layout, render_lines, rendering, Rendering};
use oadig::resolver::{ResolveOptions, Resolver};

const SHOP: &str = r##"{
  "openapi": "3.0.3",
  "info": { "title": "Shop", "version": "1" },
  "tags": [ { "name": "items" } ],
  "paths": {
    "/items": {
      "get": {
        "operationId": "listItems",
        "tags": ["items"],
        "summary": "List items",
        "responses": { "200": { "description": "ok" }, "404": { "description": "none" } }
      },
      "post": {
        "operationId": "addItem",
        "tags": ["items", "admin"],
        "summary": "Add an item",
        "responses": { "201": { "description": "made" }, "200": { "description": "kept" } }
      }
    },
    "/items/{id}": {
      "get": {
        "operationId": "getItem",
        "summary": "One item",
        "responses": { "200": { "$ref": "#/components/responses/Found" } }
      },
      "delete": {
        "operationId": "dropItem",
        "deprecated": true,
        "responses": { "204": { "description": "gone" } }
      }
    }
  },
  "components": {
    "responses": {
      "Found": { "description": "found", "content": { "application/json": { "schema": { "$ref": "#/components/schemas/Node" } } } }
    },
    "schemas": {
      "Node": {
        "type": "object",
        "nullable": true,
        "properties": {
          "next": { "$ref": "#/components/schemas/Node" },
          "weight": { "type": "number", "nullable": true, "minimum": 1, "exclusiveMinimum": true },
          "tags": { "type": "array", "items": { "type": "string", "nullable": true } }
        }
      }
    }
  }
}"##;

fn to_json(v: &serde_json::Value) -> Json {
    match v {
        serde_json::Value::Null => Json::Null,
        serde_json::Value::Bool(b) => Json::Bool(*b),
        serde_json::Value::Number(n) => {
            if let Some(u) = n.as_u64() {
                Json::Number(Number::UInt(u))
            } else if let Some(i) = n.as_i64() {
                Json::Number(Number::Int(i))
            } else {
                Json::Number(Number::Float(n.to_string()))
            }
        }
        serde_json::Value::String(s) => Json::Str(s.clone()),
        serde_json::Value::Array(a) => Json::Array(a.iter().map(to_json).collect()),
        serde_json::Value::Object(m) => Json::Object(m.iter().map(|(k, v)| (k.clone(), to_json(v))).collect()),
    }
}

fn json(text: &str) -> Json {
    let v: serde_json::Value = serde_json::from_str(text).expect("fixture is JSON");
    to_json(&v)
}

fn s(x: &str) -> Json {
    Json::Str(x.to_string())
}

fn at<'a>(v: &'a Json, key: &str) -> &'a Json {
    v.get(key).unwrap_or_else(|| panic!("missing key {key} in {v:?}"))
}

fn items(v: &Json) -> &Vec<Json> {
    v.as_array().expect("array")
}

fn uint(v: &Json) -> u64 {
    match v {
        Json::Number(Number::UInt(n)) => *n,
        other => panic!("not a count: {other:?}"),
    }
}

fn opts() -> ResolveOptions {
    ResolveOptions { resolve: true, max_depth: None }
}

fn run(cmd: Command, doc: &Json) -> Result<Json, OadigError> {
    dispatch(&cmd, doc, opts(), false)
}

fn run_ok(cmd: Command, doc: &Json) -> Json {
    match run(cmd, doc) {
        Ok(v) => v,
        Err(e) => panic!("command failed: {}", e.message()),
    }
}

fn run_err(cmd: Command, doc: &Json) -> String {
    match run(cmd, doc) {
        Ok(v) => panic!("expected an error, got {v:?}"),
        Err(e) => e.message(),
    }
}

fn strings(xs: &[&str]) -> Vec<String> {
    xs.iter().map(|x| x.to_string()).collect()
}

fn file() -> String {
    "shop.json".to_string()
}

fn op_ids(v: &Json) -> Vec<String> {
    items(v).iter().map(|e| at(e, "operationId").as_str().expect("id").clone()).collect()
}

fn list_ops(filters: &[&str]) -> Vec<String> {
    let v = run_ok(
        Command::Operations { file: file(), filters: strings(filters), op_show: vec![OperationField::OperationId], op_hide: vec![] },
        &json(SHOP),
    );
    op_ids(&v)
}

/// Every object of `v`, checked for `nullable: true`.
fn has_nullable_true(v: &Json) -> bool {
    match v {
        Json::Object(f) => f.iter().any(|(k, x)| (k == "nullable" && *x == Json::Bool(true)) || has_nullable_true(x)),
        Json::Array(a) => a.iter().any(has_nullable_true),
        _ => false,
    }
}

/// Whether some `$ref` string of `v` points into the document.
fn has_internal_ref(v: &Json) -> bool {
    match v {
        Json::Object(f) => f.iter().any(|(k, x)| {
            (k == "$ref" && matches!(x, Json::Str(r) if r.starts_with('#'))) || has_internal_ref(x)
        }),
        Json::Array(a) => a.iter().any(has_internal_ref),
        _ => false,
    }
}

#[test]
fn stats_method_counts_add_up_to_operations() {
    let v = run_ok(Command::Stats { file: file() }, &json(SHOP));
    assert_eq!(uint(at(&v, "operations")), 4);
    let by_method = at(&v, "by_method").as_object().expect("object");
    let keys: Vec<&str> = by_method.iter().map(|(k, _)| k.as_str()).collect();
    assert_eq!(keys, vec!["DELETE", "GET", "POST"]);
    let total: u64 = by_method.iter().map(|(_, n)| uint(n)).sum();
    assert_eq!(total, 4);
    let by_tag = at(&v, "by_tag").as_object().expect("object");
    let tagged: u64 = by_tag.iter().map(|(_, n)| uint(n)).sum();
    assert_eq!(tagged, 3);
    assert_eq!(uint(at(at(&v, "by_tag"), "items")), 2);
    assert_eq!(uint(at(at(&v, "by_tag"), "admin")), 1);
}

#[test]
fn statuses_list_each_code_once_ascending() {
    let v = run_ok(Command::Statuses { file: file(), status_show: vec![], status_hide: vec![] }, &json(SHOP));
    let codes: Vec<String> = items(&v).iter().map(|r| at(r, "status").as_str().expect("code").clone()).collect();
    assert_eq!(codes, strings(&["200", "201", "204", "404"]));
    assert_eq!(at(&items(&v)[0], "description"), &s("ok"));
}

#[test]
fn filters_combine_as_intersection() {
    let get_only = list_ops(&["method=GET"]);
    let items_only = list_ops(&["path=/items"]);
    let both = list_ops(&["method=GET", "path=/items"]);
    let expected: Vec<String> = get_only.iter().filter(|id| items_only.contains(id)).cloned().collect();
    assert_eq!(both, expected);
    assert_eq!(both, strings(&["listItems"]));
}

#[test]
fn filter_on_deprecated_and_summary_glob() {
    assert_eq!(list_ops(&["deprecated=true"]), strings(&["dropItem"]));
    assert_eq!(list_ops(&["summary=*item*"]), strings(&["listItems", "addItem", "getItem"]));
    assert_eq!(list_ops(&["summary=*an item"]), strings(&["addItem"]));
    assert_eq!(list_ops(&["summary=List*"]), strings(&["listItems"]));
}

#[test]
fn filter_parse_errors_name_the_clause() {
    assert!(OpFilter::from_strings(&strings(&["color=red"])).is_err());
    assert!(OpFilter::from_strings(&strings(&["method"])).is_err());
    assert!(PathFilter::from_strings(&strings(&["tag=items"])).is_err());
    assert!(PathFilter::from_strings(&strings(&["path=/items*"])).is_ok());
}

#[test]
fn glob_kinds_match_as_documented() {
    assert!(Glob::parse("/items").matches("/items"));
    assert!(!Glob::parse("/items").matches("/items/{id}"));
    assert!(Glob::parse("/items*").matches("/items/{id}"));
    assert!(Glob::parse("*{id}").matches("/items/{id}"));
    assert!(Glob::parse("*tem*").matches("/items"));
    assert!(!Glob::parse("*zzz*").matches("/items"));
}

#[test]
fn path_filter_regex_form_uses_regex_semantics() {
    let f = PathFilter::new(Some("^/items/")).expect("valid expression");
    assert!(f.accepts("/items/{id}"));
    assert!(!f.accepts("/items"));
    match PathFilter::new(Some("(")) {
        Err(e) => assert!(e.message().starts_with("invalid regex: ")),
        Ok(_) => panic!("an unbalanced group must be refused"),
    }
}

#[test]
fn op_filter_new_combines_methods_path_and_tag() {
    let f = OpFilter::new(&strings(&["get"]), Some("^/items$"), Some("items")).expect("valid");
    let doc = json(SHOP);
    let op = doc.pointer("/paths/~1items/get").expect("operation");
    assert!(f.accepts("get", "/items", op));
    assert!(!f.accepts("post", "/items", op));
}

#[test]
fn matcher_compiles_and_matches_case_insensitively() {
    let m = Matcher::compile("a+b", true).expect("valid expression");
    assert!(m.is_match("xAAB"));
    assert!(!m.is_match("xyz"));
    let exact = Matcher::compile("a+b", false).expect("valid expression");
    assert!(!exact.is_match("xAAB"));
    match Matcher::compile("a(", false) {
        Err(e) => assert!(e.message().starts_with("invalid regex: ")),
        Ok(_) => panic!("an unbalanced group must be refused"),
    }
}

#[test]
fn lookup_by_id_and_by_method_path_agree() {
    let doc = json(SHOP);
    let by_id = run_ok(Command::Operation { args: strings(&["getItem", "shop.json"]), method: None, path: None }, &doc);
    let by_mp = run_ok(
        Command::Operation { args: strings(&["shop.json"]), method: Some("get".to_string()), path: Some("/items/{id}".to_string()) },
        &doc,
    );
    assert_eq!(by_id, by_mp);
    let upper = run_ok(
        Command::Operation { args: strings(&["shop.json"]), method: Some("GET".to_string()), path: Some("/items/{id}".to_string()) },
        &doc,
    );
    assert_eq!(by_mp, upper);
}

#[test]
fn unknown_id_error_quotes_the_id() {
    let msg = run_err(Command::Operation { args: strings(&["no\"pe", "shop.json"]), method: None, path: None }, &json(SHOP));
    assert!(msg.starts_with("no operation with id \"no\\\"pe\"\n"), "{msg}");
}

#[test]
fn ambiguous_id_is_an_error() {
    let doc = json(
        r#"{ "openapi": "3.0.3", "paths": {
            "/a": { "get": { "operationId": "twin", "responses": {} } },
            "/b": { "put": { "operationId": "twin", "responses": {} } } } }"#,
    );
    let msg = run_err(Command::Operation { args: strings(&["twin", "x.json"]), method: None, path: None }, &doc);
    assert!(msg.starts_with("multiple operations match id \"twin\":\n"), "{msg}");
    assert!(msg.ends_with("\nhint: use -m/-p to disambiguate"), "{msg}");
}

#[test]
fn unknown_method_and_path_is_an_error() {
    let msg = run_err(
        Command::Operation { args: strings(&["shop.json"]), method: Some("put".to_string()), path: Some("/items".to_string()) },
        &json(SHOP),
    );
    assert!(msg.starts_with("operation not found: "), "{msg}");
    assert!(msg.contains("/items"), "{msg}");
}

#[test]
fn unknown_schema_is_an_error() {
    let msg = run_err(Command::Schema { name: "Ghost".to_string(), file: file() }, &json(SHOP));
    assert_eq!(msg, "schema not found: Ghost");
}

#[test]
fn error_messages_of_input_failures() {
    assert_eq!(OadigError::read("a.yaml", "denied".to_string()).message(), "failed to read a.yaml: denied");
    let parse = OadigError::ParseJson { pointer: "/x".to_string(), message: "bad".to_string() };
    assert_eq!(parse.message(), "failed to parse JSON at /x: bad");
    assert_eq!(OadigError::ParseYaml("tab".to_string()).message(), "failed to parse YAML: tab");
    assert_eq!(OadigError::Other("plain".to_string()).message(), "plain");
}

#[test]
fn convert_to_31_sets_version_and_folds_nullable() {
    let out = openapi30_to_openapi31(&json(SHOP));
    assert_eq!(at(&out, "openapi"), &s("3.1.0"));
    assert!(has_nullable_true(&json(SHOP)));
    assert!(!has_nullable_true(&out));
    let node = out.pointer("/components/schemas/Node").expect("schema");
    assert_eq!(at(node, "type"), &json(r#"["object", "null"]"#));
    let weight = out.pointer("/components/schemas/Node/properties/weight").expect("schema");
    assert_eq!(at(weight, "type"), &json(r#"["number", "null"]"#));
    assert_eq!(at(weight, "exclusiveMinimum"), &Json::Number(Number::UInt(1)));
    assert!(weight.get("minimum").is_none());
    let tag = out.pointer("/components/schemas/Node/properties/tags/items").expect("schema");
    assert_eq!(at(tag, "type"), &json(r#"["string", "null"]"#));
}

#[test]
fn convert_swagger2_sets_version_and_moves_refs() {
    let doc = json(
        r##"{ "swagger": "2.0", "info": { "title": "S", "version": "1" },
             "host": "api.example.com", "basePath": "/v1", "schemes": ["https"],
             "paths": { "/p": { "get": { "responses": { "200": { "description": "ok",
                 "schema": { "$ref": "#/definitions/P" } } } } } },
             "definitions": { "P": { "type": "string" } } }"##,
    );
    let out = swagger2_to_openapi30(&doc);
    assert_eq!(at(&out, "openapi"), &s("3.0.3"));
    assert_eq!(out.as_object().expect("object")[0].0, "openapi");
    assert!(out.pointer("/components/schemas/P").is_some());
    let schema = out.pointer("/paths/~1p/get/responses/200/content/application~1json/schema").expect("schema");
    assert_eq!(at(schema, "$ref"), &s("#/components/schemas/P"));
    assert_eq!(out.pointer("/servers/0/url"), Some(&s("https://api.example.com/v1")));
}

#[test]
fn rewrite_ref_moves_sections_under_components() {
    assert_eq!(rewrite_ref("#/definitions/Pet"), Some("#/components/schemas/Pet".to_string()));
    assert_eq!(rewrite_ref("#/parameters/limit"), Some("#/components/parameters/limit".to_string()));
    assert_eq!(rewrite_ref("#/responses/NotFound"), Some("#/components/responses/NotFound".to_string()));
    assert_eq!(rewrite_ref("#/securityDefinitions/key"), Some("#/components/securitySchemes/key".to_string()));
    assert_eq!(rewrite_ref("#/components/schemas/Pet"), None);
}

#[test]
fn escape_token_then_pointer_lookup_round_trips() {
    let key = "a/b~c";
    let token = escape_token(key);
    assert_eq!(token, "a~1b~0c");
    let doc = json(r#"{ "a/b~c": { "~": 7 } }"#);
    let ptr = format!("/{}/{}", token, escape_token("~"));
    assert_eq!(doc.pointer(&ptr), Some(&Json::Number(Number::UInt(7))));
}

#[test]
fn search_hits_point_at_their_values() {
    let doc = json(SHOP);
    let v = run_ok(
        Command::Search {
            keyword: "item".to_string(),
            file: file(),
            regex: false,
            case_sensitive: false,
            hit_show: vec![SearchField::Pointer, SearchField::Value],
            hit_hide: vec![],
        },
        &doc,
    );
    assert!(items(&v).len() >= 5);
    for hit in items(&v) {
        let ptr = at(hit, "pointer").as_str().expect("pointer");
        let value = at(hit, "value");
        assert_eq!(doc.pointer(ptr), Some(value));
        assert!(value.as_str().expect("string").to_lowercase().contains("item"));
    }
}

#[test]
fn resolution_leaves_no_internal_ref() {
    let doc = json(SHOP);
    let mut r = Resolver::new(&doc, opts());
    let out = r.resolve(doc.deep_clone(), "#");
    assert!(has_internal_ref(&doc));
    assert!(!has_internal_ref(&out));
    let next = out.pointer("/components/schemas/Node/properties/next").expect("expanded");
    assert_eq!(at(next, "type"), &s("object"));
    let again = out.pointer("/components/schemas/Node/properties/next/properties/next").expect("marked");
    assert_eq!(at(again, "$circular_ref"), &s("#/components/schemas/Node"));
}

#[test]
fn resolution_keeps_ref_free_values() {
    let doc = json(SHOP);
    let plain = json(r#"{ "a": [1, "two", { "b": null }], "c": true }"#);
    let mut r = Resolver::new(&doc, opts());
    assert_eq!(r.resolve(plain.deep_clone(), "#"), plain);
}

#[test]
fn resolution_stops_at_max_depth() {
    let doc = json(SHOP);
    let mut r = Resolver::new(&doc, ResolveOptions { resolve: true, max_depth: Some(0) });
    let out = r.resolve(json(r##"{ "$ref": "#/components/schemas/Node" }"##), "#/x");
    assert_eq!(out, json(r#"{ "$truncated_depth": 0 }"#));
}

#[test]
fn compact_json_text_escapes_strings() {
    let v = json(r#"{ "a": "x\"y\n", "b": [1, -2, true, null] }"#);
    assert_eq!(to_json_text(&v), "{\"a\":\"x\\\"y\\n\",\"b\":[1,-2,true,null]}");
}

#[test]
fn lines_layout_puts_one_element_per_line() {
    assert_eq!(lines_layout(&strings(&[])), "[]");
    assert_eq!(lines_layout(&strings(&["1", "{\"a\":2}"])), "[\n  1,\n  {\"a\":2}\n]");
    assert_eq!(join_with(&strings(&["a", "b", "c"]), ", "), "a, b, c");
    assert_eq!(render_lines(&json(r#"[1, { "a": "x" }, []]"#)), Some("[\n  1,\n  {\"a\":\"x\"},\n  []\n]".to_string()));
    assert_eq!(render_lines(&json(r#"{ "a": 1 }"#)), None);
    assert_eq!(render_lines(&json("[]")), Some("[]".to_string()));
}

#[test]
fn input_format_from_extension_and_content() {
    assert_eq!(format_from_extension("JSON"), Some(Format::Json));
    assert_eq!(format_from_extension("yml"), Some(Format::Yaml));
    assert_eq!(format_from_extension("txt"), None);
    assert_eq!(detect_format("  \n{\"a\": 1}", None), Format::Json);
    assert_eq!(detect_format("a: 1", None), Format::Yaml);
}

#[test]
fn info_show_null_lists_every_key() {
    let doc = json(r#"{ "openapi": "3.0.3", "info": { "title": "T" } }"#);
    let v = dispatch(&Command::Info { file: file() }, &doc, opts(), true).expect("info");
    for key in ["title", "version", "description", "contact", "license"] {
        assert!(v.get(key).is_some(), "{key}");
    }
    assert_eq!(at(&v, "version"), &Json::Null);
}

#[test]
fn overview_holds_info_stats_and_operations() {
    let doc = json(SHOP);
    let v = run_ok(Command::Overview { file: file() }, &doc);
    let stats = run_ok(Command::Stats { file: file() }, &doc);
    assert_eq!(at(&v, "stats"), &stats);
    assert_eq!(items(at(&v, "operations")).len(), 4);
}

#[test]
fn unsupported_conversion_is_refused() {
    let msg = run_err(Command::Convert { target: "2.0".to_string(), file: file() }, &json(SHOP));
    assert!(!msg.is_empty());
}

#[test]
fn response_narrowed_to_status_matches_full_map() {
    let doc = json(SHOP);
    let all = run_ok(
        Command::Response { args: strings(&["getItem", "shop.json"]), method: None, path: None, status: None },
        &doc,
    );
    let one = run_ok(
        Command::Response { args: strings(&["getItem", "shop.json"]), method: None, path: None, status: Some("200".to_string()) },
        &doc,
    );
    assert_eq!(at(&all, "200"), &one);
    assert_eq!(at(&one, "description"), &s("found"));
    let missing = run_ok(
        Command::Response { args: strings(&["getItem", "shop.json"]), method: None, path: None, status: Some("500".to_string()) },
        &doc,
    );
    assert_eq!(missing, Json::Null);
}

#[test]
fn rewrite_refs_moves_every_nested_reference() {
    let v = json(
        r##"{ "a": { "$ref": "#/definitions/A" },
             "b": [ { "$ref": "#/parameters/p" }, { "x": { "$ref": "#/responses/r" } } ],
             "c": { "$ref": "#/securityDefinitions/k" },
             "d": { "$ref": "#/components/schemas/X" },
             "e": { "$ref": "other.json#/x" } }"##,
    );
    let expected = json(
        r##"{ "a": { "$ref": "#/components/schemas/A" },
             "b": [ { "$ref": "#/components/parameters/p" }, { "x": { "$ref": "#/components/responses/r" } } ],
             "c": { "$ref": "#/components/securitySchemes/k" },
             "d": { "$ref": "#/components/schemas/X" },
             "e": { "$ref": "other.json#/x" } }"##,
    );
    let out = rewrite_refs(&v);
    assert_eq!(out, expected);
    assert_eq!(rewrite_refs(&out), out);
}

#[test]
fn nested_and_odd_refs_after_resolution() {
    let doc = json(r##"{ "x": "#/y", "odd": { "$ref": 5, "inner": { "$ref": "#/x" } } }"##);
    let mut r = Resolver::new(&doc, opts());
    let out = r.resolve(doc.pointer("/odd").expect("value").deep_clone(), "#/odd");
    assert_eq!(out, json(r##"{ "$ref": 5, "inner": "#/y" }"##));
    assert!(!has_internal_ref(&out));
    let nested = json(r##"{ "$ref": { "$ref": "#/x" } }"##);
    let out = r.resolve(nested, "#/n");
    assert_eq!(out, json(r##"{ "$ref": "#/y" }"##));
}

#[test]
fn swagger2_reads_as_its_conversion() {
    let raw = json(
        r##"{ "swagger": "2.0", "info": { "title": "S", "version": "1" },
             "host": "api.example.com", "tags": [ { "name": "p" } ],
             "paths": { "/p": { "get": { "operationId": "getP", "tags": ["p"], "produces": ["application/json"],
                 "responses": { "200": { "description": "ok", "schema": { "$ref": "#/definitions/P" } } } } } },
             "definitions": { "P": { "type": "string" } } }"##,
    );
    let conv = swagger2_to_openapi30(&raw);
    assert!(conv.get("swagger").is_none());
    let commands = vec![
        Command::Info { file: file() },
        Command::Stats { file: file() },
        Command::Tags { file: file() },
        Command::Schemas { file: file() },
        Command::Statuses { file: file(), status_show: vec![], status_hide: vec![] },
        Command::Operation { args: strings(&["getP", "s.json"]), method: None, path: None },
        Command::Response { args: strings(&["getP", "s.json"]), method: None, path: None, status: None },
    ];
    for cmd in commands {
        let a = dispatch(&cmd, &raw, opts(), false).expect("raw");
        let b = dispatch(&cmd, &conv, opts(), false).expect("converted");
        assert_eq!(a, b, "{cmd:?}");
    }
}

#[test]
fn operation_by_id_shows_method_path_and_id() {
    let doc = json(SHOP);
    let by_id = run_ok(Command::Operation { args: strings(&["addItem", "shop.json"]), method: None, path: None }, &doc);
    let by_place = run_ok(
        Command::Operation { args: strings(&["shop.json"]), method: Some("Post".to_string()), path: Some("/items".to_string()) },
        &doc,
    );
    assert_eq!(by_id, by_place);
    assert_eq!(at(&by_id, "method"), &s("POST"));
    assert_eq!(at(&by_id, "path"), &s("/items"));
    assert_eq!(at(&by_id, "operationId"), &s("addItem"));
    let keys: Vec<&str> = by_id.as_object().expect("object").iter().map(|(k, _)| k.as_str()).collect();
    assert_eq!(&keys[..3], &["method", "path", "operationId"]);
}

#[test]
fn overview_carries_version_and_servers() {
    let doc = json(r#"{ "openapi": "3.0.3", "info": { "title": "T" }, "servers": [ { "url": "https://x" } ], "paths": {} }"#);
    let v = run_ok(Command::Overview { file: file() }, &doc);
    assert_eq!(at(&v, "openapi"), &s("3.0.3"));
    assert!(v.get("swagger").is_none());
    assert_eq!(at(&v, "servers"), &json(r#"[ { "url": "https://x" } ]"#));
    let bare = json(r#"{ "info": { "title": "T" } }"#);
    let v = dispatch(&Command::Overview { file: file() }, &bare, opts(), true).expect("overview");
    assert_eq!(at(&v, "openapi"), &Json::Null);
    assert_eq!(at(&v, "servers"), &Json::Null);
    let v = run_ok(Command::Overview { file: file() }, &bare);
    assert!(v.get("openapi").is_none() && v.get("servers").is_none());
}

#[test]
fn filters_are_checked_before_the_file() {
    assert!(check_filters(&Command::Paths { file: file(), filters: strings(&["path=/a*"]) }).is_ok());
    match check_filters(&Command::Paths { file: file(), filters: strings(&["path=/a*", "tag=x"]) }) {
        Err(e) => assert!(e.message().contains("`tag`"), "{}", e.message()),
        Ok(()) => panic!("a non-path clause must be refused"),
    }
    match check_filters(&Command::Operations { file: file(), filters: strings(&["color=red"]), op_show: vec![], op_hide: vec![] }) {
        Err(e) => assert_eq!(e.message(), run_err(
            Command::Operations { file: file(), filters: strings(&["color=red"]), op_show: vec![], op_hide: vec![] },
            &json(SHOP),
        )),
        Ok(()) => panic!("an unknown key must be refused"),
    }
    assert!(check_filters(&Command::Stats { file: file() }).is_ok());
}

#[test]
fn rendering_follows_format_and_layout_flags() {
    let arr = json("[1, 2]");
    let obj = json(r#"{ "a": 1 }"#);
    assert!(matches!(rendering(CliFormat::Yaml, true, true, &arr), Rendering::Yaml));
    assert!(matches!(rendering(CliFormat::Json, true, true, &arr), Rendering::CompactJson));
    assert!(matches!(rendering(CliFormat::Json, false, false, &arr), Rendering::PrettyJson));
    assert!(matches!(rendering(CliFormat::Json, false, true, &obj), Rendering::PrettyJson));
    match rendering(CliFormat::Json, false, true, &arr) {
        Rendering::Text(t) => assert_eq!(t, "[\n  1,\n  2\n]"),
        other => panic!("expected lines, got {other:?}"),
    }
}
