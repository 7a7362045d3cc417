use amalgam::fingerprint::{epoch_millis, epoch_millis_unsigned, hex_string, sha256_hex_of, ContentFingerprint, FingerprintBuilder, Fingerprintable, SourceInfo};
use amalgam::incremental::{
    change_type, needs_regeneration_from, ChangeType, GitRepoSource, K8sClusterSource, K8sCoreSource,
    LocalFilesSource, UrlSource,
};

const SHA_EMPTY: &str = "e3b0c44298fc1c149afbf4c8996fb92427ae41e4649b934ca495991b7852b855";
const SHA_ABC: &str = "ba7816bf8f01cfea414140de5dae2223b00361a396177a9cb410ff61f20015ad";

#[test]
fn test_fingerprint_builder() {
    let mut builder = FingerprintBuilder::new();
    builder
        .add_content_str("test content")
        .add_metadata("version", "1.0.0")
        .add_metadata("source", "test");

    let fingerprint = builder.build();

    assert!(!fingerprint.content_hash.is_empty());
    assert!(!fingerprint.metadata_hash.is_empty());
    assert!(!fingerprint.combined_hash.is_empty());
    assert_eq!(fingerprint.short_hash().len(), 12);
}

#[test]
fn test_fingerprint_comparison() {
    let mut builder1 = FingerprintBuilder::new();
    builder1.add_content_str("same content");
    let fp1 = builder1.build();

    let mut builder2 = FingerprintBuilder::new();
    builder2.add_content_str("same content");
    let fp2 = builder2.build();

    assert!(fp1.content_matches(&fp2));
}

#[test]
fn test_content_vs_metadata_changes() {
    let mut builder1 = FingerprintBuilder::new();
    builder1
        .add_content_str("content")
        .add_metadata("version", "1.0.0");
    let fp1 = builder1.build();

    // Same content, different metadata
    let mut builder2 = FingerprintBuilder::new();
    builder2
        .add_content_str("content")
        .add_metadata("version", "1.0.1");
    let fp2 = builder2.build();

    assert!(fp1.metadata_changed(&fp2));
    assert!(!fp1.content_changed(&fp2));

    // Different content
    let mut builder3 = FingerprintBuilder::new();
    builder3
        .add_content_str("different content")
        .add_metadata("version", "1.0.0");
    let fp3 = builder3.build();

    assert!(fp1.content_changed(&fp3));
    assert!(!fp1.metadata_changed(&fp3));
}

#[test]
fn test_url_source_fingerprinting() {
    let source = UrlSource {
        base_url: "https://example.com".to_string(),
        urls: vec!["file1.yaml".to_string(), "file2.yaml".to_string()],
        contents: vec!["content1".to_string(), "content2".to_string()],
    };

    let fingerprint = source.create_fingerprint().unwrap();
    assert!(!fingerprint.content_hash.is_empty());
    assert!(!fingerprint.combined_hash.is_empty());

    // Same content should produce same fingerprint
    let source2 = UrlSource {
        base_url: "https://example.com".to_string(),
        urls: vec!["file1.yaml".to_string(), "file2.yaml".to_string()],
        contents: vec!["content1".to_string(), "content2".to_string()],
    };
    let fingerprint2 = source2.create_fingerprint().unwrap();
    assert!(fingerprint.content_matches(&fingerprint2));
}

#[test]
fn sha256_digests_are_lower_case_hex() {
    assert_eq!(sha256_hex_of(b""), SHA_EMPTY);
    assert_eq!(sha256_hex_of(b"abc"), SHA_ABC);
    assert_eq!(hex_string(&[0, 15, 16, 171, 255]), "000f10abff");
}

#[test]
fn digests_of_a_builder_follow_their_definitions() {
    let mut builder = FingerprintBuilder::new();
    builder.add_content_str("abc");
    let fp = builder.build();
    assert_eq!(fp.content_hash, SHA_ABC);
    assert_eq!(fp.metadata_hash, SHA_EMPTY);
    assert_eq!(fp.combined_hash, "17076dc047c0c18dc1ba5e0310336762a1db0b7daa275b1004887c2cca2c25b0");
    assert_eq!(fp.short_hash(), "17076dc047c0");
    assert!(fp.output_hash.is_none());
    assert!(fp.manifest_hash.is_none());
    assert!(fp.generated_files.is_none());
    assert_eq!(fp.amalgam_version, "0.1.0");
    assert!(fp.created_at > 0);
    match &fp.source_info {
        SourceInfo::LocalFiles { paths, mtimes, file_sizes } => {
            assert_eq!(paths, &vec!["unknown".to_string()]);
            assert_eq!(mtimes.len(), 1);
            assert_eq!(file_sizes, &vec![0u64]);
        }
        other => panic!("unexpected source {:?}", other),
    }
}

#[test]
fn content_order_does_not_change_the_digests() {
    let mut a = FingerprintBuilder::new();
    a.add_content_str("first").add_content_str("second");
    a.add_metadata("x", "1").add_metadata("y", "2");
    let mut b = FingerprintBuilder::new();
    b.add_content_str("second").add_content_str("first");
    b.add_metadata("y", "2").add_metadata("x", "1");
    let fa = a.build();
    let fb = b.build();
    assert_eq!(fa.content_hash, fb.content_hash);
    assert_eq!(fa.metadata_hash, fb.metadata_hash);
    assert!(fa.content_matches(&fb));
}

#[test]
fn metadata_entries_are_digested_as_key_equals_value() {
    let mut meta = FingerprintBuilder::new();
    meta.add_metadata("version", "1.0.0");
    let mut content = FingerprintBuilder::new();
    content.add_content_str("version=1.0.0");
    assert_eq!(meta.build().metadata_hash, content.build().content_hash);
}

#[test]
fn output_files_are_digested_in_path_order() {
    let mut builder = FingerprintBuilder::new();
    builder.add_output_file("src/b.ncl", b"old");
    builder.add_output_file("src/a.ncl", b"x");
    builder.add_output_file("src/b.ncl", b"yy");
    let fp = builder.build();
    assert_eq!(
        fp.output_hash.as_deref(),
        Some("c889bb5886e872370528bf43e009bf206703f6bdb6b295cde521772de8d70f73")
    );
    assert_eq!(
        fp.generated_files,
        Some(vec![
            (
                "src/a.ncl".to_string(),
                "2d711642b726b04401627ca9fbac32f5c8530fb1903cc4db02258717921a4881".to_string()
            ),
            (
                "src/b.ncl".to_string(),
                "ef90d9c1ec76b1edc9edfaf2c0c05359c10ccc49ae8ecf7b7fd25ce9c02e86a4".to_string()
            ),
        ])
    );
}

#[test]
fn manifest_changes_are_tracked() {
    let mut a = FingerprintBuilder::new();
    a.add_content_str("c").with_manifest_content("[package]");
    let fa = a.build();
    assert_eq!(
        fa.manifest_hash.as_deref(),
        Some("70acf00586aa7b90c3866278505be7b81fb7ee1f7e21c17c1a22ac239be3c72a")
    );
    let mut b = FingerprintBuilder::new();
    b.add_content_str("c").with_manifest_content("[package]\nname = \"x\"");
    let fb = b.build();
    assert!(fa.manifest_changed(&fb));
    assert!(fa.metadata_changed(&fb));
    assert!(!fa.content_changed(&fb));
    assert!(!fa.output_changed(&fb));
}

fn with_files(files: &[(&str, &[u8])]) -> ContentFingerprint {
    let mut builder = FingerprintBuilder::new();
    for (path, content) in files {
        builder.add_output_file(path, content);
    }
    builder.build()
}

#[test]
fn changed_files_lists_modified_new_and_removed() {
    let current = with_files(&[("a.ncl", b"1"), ("b.ncl", b"2"), ("c.ncl", b"3")]);
    let last = with_files(&[("a.ncl", b"1"), ("b.ncl", b"changed"), ("d.ncl", b"4")]);
    assert!(current.output_changed(&last));
    assert_eq!(
        current.changed_files(&last),
        vec!["b.ncl".to_string(), "c.ncl".to_string(), "d.ncl".to_string()]
    );
    let untracked = FingerprintBuilder::new().build();
    assert!(current.changed_files(&untracked).is_empty());
}

#[test]
fn change_types_in_priority_order() {
    let mut b = FingerprintBuilder::new();
    b.add_content_str("content").add_metadata("version", "1");
    let base = b.build();
    assert_eq!(change_type(&base, None), ChangeType::FirstGeneration);
    assert_eq!(change_type(&base, Some(&base)), ChangeType::NoChange);

    let mut c = FingerprintBuilder::new();
    c.add_content_str("other").add_metadata("version", "1");
    assert_eq!(change_type(&c.build(), Some(&base)), ChangeType::ContentChanged);

    let mut m = FingerprintBuilder::new();
    m.add_content_str("content").add_metadata("version", "2");
    assert_eq!(change_type(&m.build(), Some(&base)), ChangeType::MetadataOnly);

    let mut f = FingerprintBuilder::new();
    f.add_content_str("other").add_metadata("version", "1").with_manifest_content("m");
    assert_eq!(change_type(&f.build(), Some(&base)), ChangeType::ManifestChanged);

    let mut o = FingerprintBuilder::new();
    o.add_content_str("content").add_metadata("version", "1").add_output_file("x.ncl", b"x");
    assert_eq!(change_type(&o.build(), Some(&base)), ChangeType::OutputChanged);
}

#[test]
fn regeneration_is_needed_without_a_saved_fingerprint_or_after_a_change() {
    let source = UrlSource {
        base_url: "https://example.com".to_string(),
        urls: vec!["file1.yaml".to_string()],
        contents: vec!["content1".to_string()],
    };
    assert!(needs_regeneration_from(&source, None).unwrap());
    let saved = source.create_fingerprint().unwrap();
    assert!(!needs_regeneration_from(&source, Some(&saved)).unwrap());
    let changed = UrlSource {
        base_url: "https://example.com".to_string(),
        urls: vec!["file1.yaml".to_string()],
        contents: vec!["different_content".to_string()],
    };
    assert!(needs_regeneration_from(&changed, Some(&saved)).unwrap());
    assert!(changed.has_changed(&saved).unwrap());
}

#[test]
fn url_source_describes_its_collection() {
    let source = UrlSource {
        base_url: "https://example.com".to_string(),
        urls: vec!["a".to_string(), "b".to_string()],
        contents: vec!["abc".to_string()],
    };
    let fp = source.create_fingerprint().unwrap();
    assert_eq!(fp.content_hash, SHA_ABC);
    let mut meta = FingerprintBuilder::new();
    meta.add_metadata("base_url", "https://example.com").add_metadata("url_count", "2");
    assert_eq!(fp.metadata_hash, meta.build().metadata_hash);
    match &fp.source_info {
        SourceInfo::UrlCollection { base_url, urls, etags, last_modified } => {
            assert_eq!(base_url, "https://example.com");
            assert_eq!(urls, &vec!["a".to_string(), "b".to_string()]);
            assert_eq!(etags, &vec![None, None]);
            assert_eq!(last_modified, &vec![None, None]);
        }
        other => panic!("unexpected source {:?}", other),
    }
}

#[test]
fn cluster_and_core_sources_digest_their_specifications() {
    let cluster = K8sClusterSource {
        server_version: "v1.30.0".to_string(),
        api_version: "v1".to_string(),
        crd_specs: vec!["a".to_string(), "bc".to_string()],
    };
    let fp = cluster.create_fingerprint().unwrap();
    match &fp.source_info {
        SourceInfo::K8sCluster { version, server_version, api_resources_hash } => {
            assert_eq!(version, "v1");
            assert_eq!(server_version, "v1.30.0");
            assert_eq!(api_resources_hash, SHA_ABC);
        }
        other => panic!("unexpected source {:?}", other),
    }
    let core = K8sCoreSource {
        version: "v1.31.0".to_string(),
        openapi_spec: "abc".to_string(),
        spec_url: "https://example.com/openapi.json".to_string(),
    };
    let fp = core.create_fingerprint().unwrap();
    assert_eq!(fp.content_hash, SHA_ABC);
    match &fp.source_info {
        SourceInfo::K8sCore { version, openapi_hash, spec_url } => {
            assert_eq!(version, "v1.31.0");
            assert_eq!(openapi_hash, SHA_ABC);
            assert_eq!(spec_url, "https://example.com/openapi.json");
        }
        other => panic!("unexpected source {:?}", other),
    }
}

#[test]
fn local_and_git_sources_carry_their_paths() {
    let local = LocalFilesSource {
        paths: vec!["a.yaml".to_string()],
        contents: vec!["abc".to_string()],
        mtimes: vec![1_700_000_000_000],
        file_sizes: vec![3],
    };
    let fp = local.create_fingerprint().unwrap();
    assert_eq!(fp.content_hash, SHA_ABC);
    let mut meta = FingerprintBuilder::new();
    meta.add_metadata("file_count", "1").add_metadata("file_path", "a.yaml");
    assert_eq!(fp.metadata_hash, meta.build().metadata_hash);
    match &fp.source_info {
        SourceInfo::LocalFiles { paths, mtimes, file_sizes } => {
            assert_eq!(paths, &vec!["a.yaml".to_string()]);
            assert_eq!(mtimes, &vec![1_700_000_000_000u64]);
            assert_eq!(file_sizes, &vec![3u64]);
        }
        other => panic!("unexpected source {:?}", other),
    }
    let git = GitRepoSource {
        url: "https://github.com/example/repo".to_string(),
        commit: "abc123".to_string(),
        paths: vec!["crds".to_string()],
        contents: vec!["abc".to_string()],
    };
    let fp = git.create_fingerprint().unwrap();
    assert_eq!(fp.content_hash, SHA_ABC);
    let mut meta = FingerprintBuilder::new();
    meta.add_metadata("git_url", "https://github.com/example/repo")
        .add_metadata("git_commit", "abc123")
        .add_metadata("path_count", "1");
    assert_eq!(fp.metadata_hash, meta.build().metadata_hash);
    match &fp.source_info {
        SourceInfo::GitRepo { url, commit, paths, http_metadata } => {
            assert_eq!(url, "https://github.com/example/repo");
            assert_eq!(commit, "abc123");
            assert_eq!(paths, &vec!["crds".to_string()]);
            assert!(http_metadata.is_none());
        }
        other => panic!("unexpected source {:?}", other),
    }
}

#[test]
fn clock_readings_become_signed_milliseconds() {
    assert_eq!(epoch_millis(Ok(1_700_000_000_123)), 1_700_000_000_123);
    assert_eq!(epoch_millis(Err(250)), -250);
    assert_eq!(epoch_millis(Ok(u128::MAX)), i64::MAX);
    assert_eq!(epoch_millis(Err(u128::MAX)), -i64::MAX);
    assert_eq!(epoch_millis_unsigned(Ok(42)), 42);
    assert_eq!(epoch_millis_unsigned(Err(42)), 0);
}
