//! The config aggregator: loading, parsing, extension resolution, and the
//! right-biased merge over several input files.

use gateway_config::config::{
    Config, ConfigSet, Expr, ExprBody, Field, Grpc, Script, ScriptOptions, Server, TypeDef,
    Upstream,
};
use gateway_config::error::{ConfigError, IoError};
use gateway_config::memory::MemoryRuntime;
use gateway_config::reader::ConfigReader;
use gateway_config::source::{Reference, Source};

fn empty_server() -> Server {
    Server { script: None, enable_graphiql: None, hostname: None, port: None, vary: Vec::new() }
}

fn empty_upstream() -> Upstream {
    Upstream { base_url: None, connect_timeout: None }
}

fn plain_field(type_of: &str) -> Field {
    Field { type_of: type_of.to_string(), grpc: None, expr: None }
}

fn config_with_type(name: &str, field_name: &str, field: Field) -> Config {
    Config {
        types: vec![(
            name.to_string(),
            TypeDef { fields: vec![(field_name.to_string(), field)] },
        )],
        server: empty_server(),
        upstream: empty_upstream(),
    }
}

#[test]
fn disjoint_types_merge_to_union_in_any_order() {
    let runtime = MemoryRuntime::new()
        .with_file("a.graphql".to_string(), "doc-a".to_string())
        .with_file("b.graphql".to_string(), "doc-b".to_string())
        .with_config("doc-a".to_string(), config_with_type("User", "name", plain_field("String")))
        .with_config("doc-b".to_string(), config_with_type("Post", "title", plain_field("String")));
    let mut reader = ConfigReader::init(runtime);
    let forward = reader
        .read_all(&vec!["a.graphql".to_string(), "b.graphql".to_string()])
        .unwrap();
    let backward = reader
        .read_all(&vec!["b.graphql".to_string(), "a.graphql".to_string()])
        .unwrap();
    for bundle in [&forward, &backward] {
        let user = bundle.get_type(&"User".to_string()).unwrap();
        assert_eq!(user.fields[0].0, "name");
        let post = bundle.get_type(&"Post".to_string()).unwrap();
        assert_eq!(post.fields[0].0, "title");
    }
}

#[test]
fn three_disjoint_files_merge_the_same_in_every_order() {
    let runtime = MemoryRuntime::new()
        .with_file("a.graphql".to_string(), "doc-a".to_string())
        .with_file("b.graphql".to_string(), "doc-b".to_string())
        .with_file("c.graphql".to_string(), "doc-c".to_string())
        .with_config("doc-a".to_string(), config_with_type("User", "name", plain_field("String")))
        .with_config("doc-b".to_string(), config_with_type("Post", "title", plain_field("String")))
        .with_config("doc-c".to_string(), config_with_type("Tag", "label", plain_field("String")));
    let mut reader = ConfigReader::init(runtime);
    let orders = [
        ["a.graphql", "b.graphql", "c.graphql"],
        ["c.graphql", "a.graphql", "b.graphql"],
        ["b.graphql", "c.graphql", "a.graphql"],
    ];
    for order in orders {
        let files: Vec<String> = order.iter().map(|f| f.to_string()).collect();
        let bundle = reader.read_all(&files).unwrap();
        assert_eq!(bundle.get_type(&"User".to_string()).unwrap().fields[0].0, "name");
        assert_eq!(bundle.get_type(&"Post".to_string()).unwrap().fields[0].0, "title");
        assert_eq!(bundle.get_type(&"Tag".to_string()).unwrap().fields[0].0, "label");
    }
}

#[test]
fn error_of_a_failed_run_names_the_missing_reference() {
    let runtime = MemoryRuntime::new()
        .with_file("a.graphql".to_string(), "doc-a".to_string())
        .with_config("doc-a".to_string(), config_with_type("A", "a", plain_field("String")));
    let mut reader = ConfigReader::init(runtime);
    let err = reader
        .read_all(&vec!["a.graphql".to_string(), "gone.graphql".to_string()])
        .unwrap_err();
    assert_eq!(err.reference(), "gone.graphql");
    // A script whose source is missing is named as well.
    let mut config = config_with_type("A", "a", plain_field("String"));
    config.server.script =
        Some(Script::Path(ScriptOptions { src: "absent.js".to_string(), timeout: None }));
    let mut reader = ConfigReader::init(MemoryRuntime::new());
    let err = reader.resolve(config).unwrap_err();
    assert_eq!(err.reference(), "absent.js");
}

#[test]
fn colliding_type_is_replaced_whole_by_the_later_file() {
    let runtime = MemoryRuntime::new()
        .with_file("a.graphql".to_string(), "doc-a".to_string())
        .with_file("b.graphql".to_string(), "doc-b".to_string())
        .with_config("doc-a".to_string(), config_with_type("User", "name", plain_field("String")))
        .with_config("doc-b".to_string(), config_with_type("User", "age", plain_field("Int")));
    let mut reader = ConfigReader::init(runtime);
    let merged = reader
        .read_all(&vec!["a.graphql".to_string(), "b.graphql".to_string()])
        .unwrap();
    let user = merged.get_type(&"User".to_string()).unwrap();
    assert_eq!(user.fields.len(), 1);
    assert_eq!(user.fields[0].0, "age");
}

#[test]
fn scalar_option_takes_the_later_files_value() {
    let mut config_a = config_with_type("A", "a", plain_field("String"));
    config_a.server.enable_graphiql = Some(false);
    config_a.server.hostname = Some("first".to_string());
    let mut config_b = config_with_type("B", "b", plain_field("String"));
    config_b.server.enable_graphiql = Some(true);
    let runtime = MemoryRuntime::new()
        .with_file("a.graphql".to_string(), "doc-a".to_string())
        .with_file("b.graphql".to_string(), "doc-b".to_string())
        .with_config("doc-a".to_string(), config_a)
        .with_config("doc-b".to_string(), config_b);
    let mut reader = ConfigReader::init(runtime);
    let forward = reader
        .read_all(&vec!["a.graphql".to_string(), "b.graphql".to_string()])
        .unwrap();
    assert_eq!(forward.config.server.enable_graphiql, Some(true));
    // B sets no hostname, so A's survives.
    assert_eq!(forward.config.server.hostname, Some("first".to_string()));
    let backward = reader
        .read_all(&vec!["b.graphql".to_string(), "a.graphql".to_string()])
        .unwrap();
    assert_eq!(backward.config.server.enable_graphiql, Some(false));
}

#[test]
fn vary_lists_concatenate_keeping_first_occurrences() {
    let mut config_a = config_with_type("A", "a", plain_field("String"));
    config_a.server.vary = vec!["origin".to_string(), "accept".to_string()];
    let mut config_b = config_with_type("B", "b", plain_field("String"));
    config_b.server.vary = vec!["accept".to_string(), "accept-language".to_string()];
    let runtime = MemoryRuntime::new()
        .with_file("a.graphql".to_string(), "doc-a".to_string())
        .with_file("b.graphql".to_string(), "doc-b".to_string())
        .with_config("doc-a".to_string(), config_a)
        .with_config("doc-b".to_string(), config_b);
    let mut reader = ConfigReader::init(runtime);
    let merged = reader
        .read_all(&vec!["a.graphql".to_string(), "b.graphql".to_string()])
        .unwrap();
    assert_eq!(
        merged.config.server.vary,
        vec!["origin".to_string(), "accept".to_string(), "accept-language".to_string()]
    );
}

#[test]
fn script_path_is_inlined_preserving_timeout() {
    let mut config = config_with_type("Query", "greet", plain_field("String"));
    config.server.script = Some(Script::Path(ScriptOptions {
        src: "worker.js".to_string(),
        timeout: Some(5000),
    }));
    let runtime = MemoryRuntime::new()
        .with_file("worker.js".to_string(), "export default handle".to_string());
    let mut reader = ConfigReader::init(runtime);
    let resolved = reader.resolve(config).unwrap();
    match resolved.config.server.script {
        Some(Script::Inline(options)) => {
            assert_eq!(options.src, "export default handle");
            assert_eq!(options.timeout, Some(5000));
        },
        other => panic!("script was not inlined: {:?}", other.is_some()),
    }
}

#[test]
fn inline_script_is_untouched() {
    let mut config = config_with_type("Query", "greet", plain_field("String"));
    config.server.script = Some(Script::Inline(ScriptOptions {
        src: "already here".to_string(),
        timeout: None,
    }));
    let mut reader = ConfigReader::init(MemoryRuntime::new());
    let resolved = reader.resolve(config).unwrap();
    match resolved.config.server.script {
        Some(Script::Inline(options)) => assert_eq!(options.src, "already here"),
        _ => panic!("inline script did not survive"),
    }
}

#[test]
fn grpc_annotations_pull_descriptor_closures() {
    let mut config = config_with_type(
        "Query",
        "users",
        Field {
            type_of: "User".to_string(),
            grpc: Some(Grpc { proto_path: "svc.proto".to_string() }),
            expr: None,
        },
    );
    config.types.push((
        "Mutation".to_string(),
        TypeDef {
            fields: vec![(
                "touch".to_string(),
                Field {
                    type_of: "User".to_string(),
                    grpc: None,
                    expr: Some(Expr {
                        body: ExprBody::Grpc(Grpc { proto_path: "svc.proto".to_string() }),
                    }),
                },
            )],
        },
    ));
    let runtime = MemoryRuntime::new()
        .with_file("svc.proto".to_string(), "syntax = \"proto3\";\nimport \"dep.proto\";\n".to_string())
        .with_file("dep.proto".to_string(), "syntax = \"proto3\";\n".to_string());
    let mut reader = ConfigReader::init(runtime);
    let resolved = reader.resolve(config).unwrap();
    let descriptors = &resolved.extensions.descriptors;
    assert_eq!(descriptors.len(), 2);
    assert!(descriptors.get(&"svc.proto".to_string()).is_some());
    assert!(descriptors.get(&"dep.proto".to_string()).is_some());
}

#[test]
fn missing_file_fails_whole_run_and_retry_matches_clean_run() {
    let config = config_with_type("User", "name", plain_field("String"));
    let broken = MemoryRuntime::new()
        .with_file("a.graphql".to_string(), "doc-a".to_string())
        .with_config("doc-a".to_string(), config_with_type("A", "a", plain_field("String")));
    let mut reader = ConfigReader::init(broken);
    let files = vec!["a.graphql".to_string(), "b.graphql".to_string()];
    let err = reader.read_all(&files).unwrap_err();
    assert_eq!(err.reference(), "b.graphql");
    assert!(matches!(err, ConfigError::Io { error: IoError::NotFound, .. }));

    // Supply the missing file and retry; compare with a run against a
    // snapshot that never lacked it.
    let fixed = MemoryRuntime::new()
        .with_file("a.graphql".to_string(), "doc-a".to_string())
        .with_file("b.graphql".to_string(), "doc-b".to_string())
        .with_config("doc-a".to_string(), config_with_type("A", "a", plain_field("String")))
        .with_config("doc-b".to_string(), config.clone());
    let mut retried_reader = ConfigReader::init(fixed);
    let retried = retried_reader.read_all(&files).unwrap();

    let clean = MemoryRuntime::new()
        .with_file("a.graphql".to_string(), "doc-a".to_string())
        .with_file("b.graphql".to_string(), "doc-b".to_string())
        .with_config("doc-a".to_string(), config_with_type("A", "a", plain_field("String")))
        .with_config("doc-b".to_string(), config);
    let mut clean_reader = ConfigReader::init(clean);
    let from_clean = clean_reader.read_all(&files).unwrap();

    for bundle in [&retried, &from_clean] {
        assert!(bundle.get_type(&"A".to_string()).is_some());
        assert!(bundle.get_type(&"User".to_string()).is_some());
    }
    assert_eq!(
        retried.get_type(&"User".to_string()).unwrap().fields[0].0,
        from_clean.get_type(&"User".to_string()).unwrap().fields[0].0
    );
}

#[test]
fn unparseable_document_fails_the_run() {
    let runtime = MemoryRuntime::new().with_file("a.graphql".to_string(), "garbage".to_string());
    let mut reader = ConfigReader::init(runtime);
    let err = reader.read(&"a.graphql".to_string()).unwrap_err();
    assert_eq!(err.reference(), "a.graphql");
    assert!(matches!(err, ConfigError::Syntax { .. }));
}

#[test]
fn format_detection_follows_the_extension() {
    assert_eq!(Source::detect(&"a.graphql".to_string()).unwrap(), Source::GraphQL);
    assert_eq!(Source::detect(&"a.gql".to_string()).unwrap(), Source::GraphQL);
    assert_eq!(Source::detect(&"a.json".to_string()).unwrap(), Source::Json);
    assert_eq!(Source::detect(&"a.yml".to_string()).unwrap(), Source::Yaml);
    assert_eq!(Source::detect(&"a.yaml".to_string()).unwrap(), Source::Yaml);
    let err = Source::detect(&"a.toml".to_string()).unwrap_err();
    assert!(matches!(err, ConfigError::Syntax { .. }));
    assert_eq!(err.reference(), "a.toml");
}

#[test]
fn references_classify_by_url_shape() {
    match Reference::classify("http://example.com/schema.graphql".to_string()) {
        Reference::Remote(url) => assert_eq!(url, "http://example.com/schema.graphql"),
        Reference::Local(_) => panic!("an absolute URL classified as local"),
    }
    match Reference::classify("configs/schema.graphql".to_string()) {
        Reference::Local(path) => assert_eq!(path, "configs/schema.graphql"),
        Reference::Remote(_) => panic!("a relative path classified as remote"),
    }
}

#[test]
fn remote_documents_load_over_the_url_table() {
    let runtime = MemoryRuntime::new()
        .with_url("http://example.com/a.graphql".to_string(), "doc-a".to_string())
        .with_config("doc-a".to_string(), config_with_type("User", "name", plain_field("String")));
    let mut reader = ConfigReader::init(runtime);
    let bundle = reader.read(&"http://example.com/a.graphql".to_string()).unwrap();
    assert!(bundle.get_type(&"User".to_string()).is_some());
}

#[test]
fn missing_url_fails_with_a_network_error() {
    let mut reader = ConfigReader::init(MemoryRuntime::new());
    let err = reader.read(&"http://example.com/a.graphql".to_string()).unwrap_err();
    assert_eq!(err.reference(), "http://example.com/a.graphql");
    assert!(matches!(err, ConfigError::Io { error: IoError::NetworkError, .. }));
}

#[test]
fn default_bundle_is_empty() {
    let bundle = ConfigSet::default();
    assert!(bundle.config.types.is_empty());
    assert!(bundle.config.server.script.is_none());
    assert_eq!(bundle.extensions.descriptors.len(), 0);
}
