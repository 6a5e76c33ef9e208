//! The descriptor graph resolver: the well-known shortcut, transitive
//! imports, deduplication, and fail-fast error reporting.

use gateway_config::descriptor::DescriptorSet;
use gateway_config::error::{ConfigError, IoError};
use gateway_config::memory::MemoryRuntime;
use gateway_config::reader::ConfigReader;

fn reader_with_files(files: &[(&str, &str)]) -> ConfigReader<MemoryRuntime> {
    let mut runtime = MemoryRuntime::new();
    for (path, content) in files {
        runtime = runtime.with_file(path.to_string(), content.to_string());
    }
    ConfigReader::init(runtime)
}

#[test]
fn test_resolve() {
    let mut reader = ConfigReader::init(MemoryRuntime::new());
    reader.read_proto(&"google/protobuf/empty.proto".to_string()).unwrap();
}

#[test]
fn test_nested_imports() {
    let mut reader = reader_with_files(&[
        ("nested0.proto", "syntax = \"proto3\";\nimport \"nested1.proto\";\n"),
        ("nested1.proto", "syntax = \"proto3\";\nimport \"nested2.proto\";\n"),
        ("nested2.proto", "syntax = \"proto3\";\nmessage Leaf {}\n"),
    ]);
    let set = reader
        .resolve_descriptors(DescriptorSet::new(), "nested0.proto".to_string())
        .unwrap();
    assert_eq!(set.len(), 3);
    let root = set.get(&"nested0.proto".to_string()).unwrap();
    assert_eq!(root.name, "nested0.proto");
    assert_eq!(root.imports, vec!["nested1.proto".to_string()]);
    let mid = set.get(&"nested1.proto".to_string()).unwrap();
    assert_eq!(mid.imports, vec!["nested2.proto".to_string()]);
    let leaf = set.get(&"nested2.proto".to_string()).unwrap();
    assert!(leaf.imports.is_empty());
}

#[test]
fn leaf_resolves_to_singleton() {
    let mut reader = reader_with_files(&[("leaf.proto", "syntax = \"proto3\";\n")]);
    let set = reader
        .resolve_descriptors(DescriptorSet::new(), "leaf.proto".to_string())
        .unwrap();
    assert_eq!(set.len(), 1);
    assert!(set.get(&"leaf.proto".to_string()).is_some());
}

#[test]
fn diamond_import_yields_one_entry() {
    let mut reader = reader_with_files(&[
        (
            "root.proto",
            "syntax = \"proto3\";\nimport \"x.proto\";\nimport \"y.proto\";\n",
        ),
        ("x.proto", "syntax = \"proto3\";\nimport \"z.proto\";\n"),
        ("y.proto", "syntax = \"proto3\";\nimport \"z.proto\";\n"),
        ("z.proto", "syntax = \"proto3\";\n"),
    ]);
    let set = reader
        .resolve_descriptors(DescriptorSet::new(), "root.proto".to_string())
        .unwrap();
    assert_eq!(set.len(), 4);
    assert!(set.get(&"z.proto".to_string()).is_some());
}

#[test]
fn repeated_resolution_is_identical() {
    let files = [
        ("a.proto", "syntax = \"proto3\";\nimport \"b.proto\";\n"),
        ("b.proto", "syntax = \"proto3\";\n"),
    ];
    let mut reader = reader_with_files(&files);
    let first = reader
        .resolve_descriptors(DescriptorSet::new(), "a.proto".to_string())
        .unwrap();
    let second = reader
        .resolve_descriptors(DescriptorSet::new(), "a.proto".to_string())
        .unwrap();
    assert_eq!(first.len(), second.len());
    for key in ["a.proto", "b.proto"] {
        let lhs = first.get(&key.to_string()).unwrap();
        let rhs = second.get(&key.to_string()).unwrap();
        assert_eq!(lhs.name, rhs.name);
        assert_eq!(lhs.imports, rhs.imports);
    }
}

#[test]
fn well_known_path_needs_no_sources() {
    // The runtime holds nothing at all, so any transport consultation would
    // fail: resolving a catalog entry succeeds regardless.
    let mut reader = ConfigReader::init(MemoryRuntime::new());
    let set = reader
        .resolve_descriptors(DescriptorSet::new(), "google/protobuf/empty.proto".to_string())
        .unwrap();
    assert_eq!(set.len(), 1);
    let record = set.get(&"google/protobuf/empty.proto".to_string()).unwrap();
    assert_eq!(record.name, "google/protobuf/empty.proto");
}

#[test]
fn missing_import_aborts_with_offender() {
    let mut reader = reader_with_files(&[(
        "root.proto",
        "syntax = \"proto3\";\nimport \"absent.proto\";\n",
    )]);
    let err = reader
        .resolve_descriptors(DescriptorSet::new(), "root.proto".to_string())
        .unwrap_err();
    assert_eq!(err.reference(), "absent.proto");
    assert!(matches!(
        err,
        ConfigError::Io { error: IoError::NotFound, .. }
    ));
}

#[test]
fn unparseable_descriptor_aborts_with_offender() {
    let mut reader = reader_with_files(&[("broken.proto", "this is not a descriptor {")]);
    let err = reader
        .resolve_descriptors(DescriptorSet::new(), "broken.proto".to_string())
        .unwrap_err();
    assert_eq!(err.reference(), "broken.proto");
    assert!(matches!(err, ConfigError::Descriptor { .. }));
}

#[test]
fn closures_accumulate_across_roots() {
    let mut reader = reader_with_files(&[
        ("first.proto", "syntax = \"proto3\";\nimport \"shared.proto\";\n"),
        ("second.proto", "syntax = \"proto3\";\nimport \"shared.proto\";\n"),
        ("shared.proto", "syntax = \"proto3\";\n"),
    ]);
    let set = reader
        .resolve_descriptors(DescriptorSet::new(), "first.proto".to_string())
        .unwrap();
    let set = reader
        .resolve_descriptors(set, "second.proto".to_string())
        .unwrap();
    assert_eq!(set.len(), 3);
}
