use updtr::codec::{encode_manifest, decode_manifest};
use updtr::content::{compress, decompress, sha256_hex};
use updtr::errors::EngineError;
use updtr::manifest::{DefinitionVersion, FileDefinition, VersionDefinition};
use updtr::snapshot::process_file;
use updtr::store::{RemoteFileInfo, blob_key, version_key, meta_get};

fn rec(path: &str, u_len: u32, u_sha: &str, c_len: u32, c_sha: &str) -> FileDefinition {
    FileDefinition {
        r_path: path.to_string(),
        u_len,
        u_sha256: u_sha.to_string(),
        c_algo: "brotli".to_string(),
        c_len,
        c_sha256: c_sha.to_string(),
    }
}

#[test]
fn encode_exact_text() {
    let m = VersionDefinition {
        version: DefinitionVersion::Version1,
        display_version: Some("2.0".to_string()),
        files: vec![rec("a/b.txt", 3, "aa", 5, "bb")],
    };
    let text = encode_manifest(&m);
    let expected = "version: 1\n\
                    displayVersion: \"2.0\"\n\
                    files:\n\
                    - rPath: \"a/b.txt\"\n\
                    \x20 uLen: 3\n\
                    \x20 uSha256: \"aa\"\n\
                    \x20 cAlgo: \"brotli\"\n\
                    \x20 cLen: 5\n\
                    \x20 cSha256: \"bb\"\n";
    assert_eq!(text, expected);
}

#[test]
fn encode_null_display_version() {
    let m = VersionDefinition {
        version: DefinitionVersion::Version1,
        display_version: None,
        files: vec![],
    };
    assert_eq!(encode_manifest(&m), "version: 1\ndisplayVersion: null\nfiles:\n");
}

#[test]
fn decode_encode_round_trip() {
    let m = VersionDefinition {
        version: DefinitionVersion::Version1,
        display_version: Some("weird \"name\" with \\ and \nnewline".to_string()),
        files: vec![
            rec("path with spaces/x.txt", 0, "00", 1, "11"),
            rec("quoted\"path\\odd", 4294967295, "ff", 2, "22"),
        ],
    };
    let text = encode_manifest(&m);
    let d = decode_manifest(&text).expect("round trip failed");
    assert_eq!(d.version, DefinitionVersion::Version1);
    assert_eq!(d.display_version, m.display_version);
    assert_eq!(d.files.len(), 2);
    for (a, b) in d.files.iter().zip(m.files.iter()) {
        assert_eq!(a.r_path, b.r_path);
        assert_eq!(a.u_len, b.u_len);
        assert_eq!(a.u_sha256, b.u_sha256);
        assert_eq!(a.c_algo, b.c_algo);
        assert_eq!(a.c_len, b.c_len);
        assert_eq!(a.c_sha256, b.c_sha256);
    }
}

#[test]
fn decode_rejects_schema_version_two() {
    let doc = "version: 2\ndisplayVersion: null\nfiles:\n";
    assert!(matches!(decode_manifest(doc), Err(EngineError::ParseError(_))));
}

#[test]
fn decode_rejects_missing_schema_version() {
    let doc = "displayVersion: null\nfiles:\n";
    assert!(matches!(decode_manifest(doc), Err(EngineError::ParseError(_))));
    assert!(matches!(decode_manifest(""), Err(EngineError::ParseError(_))));
}

#[test]
fn decode_rejects_sloppy_numbers() {
    let good = "version: 1\ndisplayVersion: null\nfiles:\n\
                - rPath: \"a\"\n  uLen: 007\n  uSha256: \"aa\"\n\
                \x20 cAlgo: \"brotli\"\n  cLen: 5\n  cSha256: \"bb\"\n";
    assert!(matches!(decode_manifest(good), Err(EngineError::ParseError(_))));
    let too_big = "version: 1\ndisplayVersion: null\nfiles:\n\
                - rPath: \"a\"\n  uLen: 4294967296\n  uSha256: \"aa\"\n\
                \x20 cAlgo: \"brotli\"\n  cLen: 5\n  cSha256: \"bb\"\n";
    assert!(matches!(decode_manifest(too_big), Err(EngineError::ParseError(_))));
}

#[test]
fn decode_rejects_truncated_record() {
    let doc = "version: 1\ndisplayVersion: null\nfiles:\n- rPath: \"a\"\n  uLen: 3\n";
    assert!(matches!(decode_manifest(doc), Err(EngineError::ParseError(_))));
}

#[test]
fn decode_reference_empty_manifest() {
    // The reference serializer's form of the empty manifest: an inline
    // empty list and no trailing line break.
    let doc = "version: 1\ndisplayVersion: null\nfiles: []";
    let m = decode_manifest(doc).expect("reference empty manifest rejected");
    assert_eq!(m.version, DefinitionVersion::Version1);
    assert_eq!(m.display_version, None);
    assert_eq!(m.files.len(), 0);
}

#[test]
fn decode_reference_plain_scalars() {
    // Plain (unquoted) scalars with the records at column zero.
    let doc = "version: 1\n\
               displayVersion: null\n\
               files:\n\
               - rPath: dir/a.txt\n\
               \x20 uLen: 3\n\
               \x20 uSha256: aa\n\
               \x20 cAlgo: brotli\n\
               \x20 cLen: 5\n\
               \x20 cSha256: bb\n";
    let m = decode_manifest(doc).expect("plain-scalar manifest rejected");
    assert_eq!(m.files.len(), 1);
    assert_eq!(m.files[0].r_path, "dir/a.txt");
    assert_eq!(m.files[0].u_len, 3);
    assert_eq!(m.files[0].u_sha256, "aa");
    assert_eq!(m.files[0].c_algo, "brotli");
    assert_eq!(m.files[0].c_len, 5);
    assert_eq!(m.files[0].c_sha256, "bb");
}

#[test]
fn decode_reference_indented_records() {
    // The reference emitter's block style: list items indented two spaces,
    // their continuation keys four, and no final line break.
    let doc = "version: 1\n\
               displayVersion: \"2.0\"\n\
               files:\n\
               \x20 - rPath: a b.txt\n\
               \x20   uLen: 0\n\
               \x20   uSha256: aa\n\
               \x20   cAlgo: brotli\n\
               \x20   cLen: 1\n\
               \x20   cSha256: bb";
    let m = decode_manifest(doc).expect("indented manifest rejected");
    assert_eq!(m.display_version.as_deref(), Some("2.0"));
    assert_eq!(m.files.len(), 1);
    assert_eq!(m.files[0].r_path, "a b.txt");
    assert_eq!(m.files[0].u_len, 0);
}

#[test]
fn decode_reference_serializer_output() {
    // Serialize the manifest structure with the reference YAML emitter
    // itself, then decode it with the library's own decoder.
    fn ystr(s: &str) -> serde_yml::Value {
        serde_yml::Value::String(s.to_string())
    }
    fn ynum(n: u64) -> serde_yml::Value {
        serde_yml::Value::Number(serde_yml::value::Number::from(n))
    }
    let mut record = serde_yml::Mapping::new();
    record.insert("rPath", ystr("sub dir/data file.bin"));
    record.insert("uLen", ynum(42));
    record.insert("uSha256", ystr(&"a".repeat(64)));
    record.insert("cAlgo", ystr("brotli"));
    record.insert("cLen", ynum(7));
    record.insert("cSha256", ystr(&"b".repeat(64)));
    let mut root = serde_yml::Mapping::new();
    root.insert("version", ynum(1));
    root.insert("displayVersion", ystr("2.0"));
    root.insert(
        "files",
        serde_yml::Value::Sequence(vec![serde_yml::Value::Mapping(record)]),
    );
    let text = serde_yml::to_string(&serde_yml::Value::Mapping(root))
        .expect("reference serializer failed");
    let m = decode_manifest(&text)
        .unwrap_or_else(|e| panic!("reference document rejected: {:?}\n{text}", e.context()));
    assert_eq!(m.display_version.as_deref(), Some("2.0"));
    assert_eq!(m.files.len(), 1);
    assert_eq!(m.files[0].r_path, "sub dir/data file.bin");
    assert_eq!(m.files[0].u_len, 42);
    assert_eq!(m.files[0].u_sha256, "a".repeat(64));
    assert_eq!(m.files[0].c_algo, "brotli");
    assert_eq!(m.files[0].c_len, 7);
    assert_eq!(m.files[0].c_sha256, "b".repeat(64));

    let mut empty_root = serde_yml::Mapping::new();
    empty_root.insert("version", ynum(1));
    empty_root.insert("displayVersion", serde_yml::Value::Null);
    empty_root.insert("files", serde_yml::Value::Sequence(Vec::new()));
    let text = serde_yml::to_string(&serde_yml::Value::Mapping(empty_root))
        .expect("reference serializer failed");
    let m = decode_manifest(&text)
        .unwrap_or_else(|e| panic!("reference document rejected: {:?}\n{text}", e.context()));
    assert_eq!(m.display_version, None);
    assert_eq!(m.files.len(), 0);
}

#[test]
fn decode_still_rejects_schema_two_without_final_newline() {
    let doc = "version: 2\ndisplayVersion: null\nfiles: []";
    assert!(matches!(decode_manifest(doc), Err(EngineError::ParseError(_))));
}

#[test]
fn sha256_known_digest() {
    // The digest of "hello", as SHA-256 test vectors give it.
    let hex = sha256_hex(&b"hello".to_vec());
    assert_eq!(hex, "2cf24dba5fb0a30e26e83b2ac5b9e29e1b161e5c1fa7425e73043362938b9824");
    let empty = sha256_hex(&Vec::new());
    assert_eq!(empty, "e3b0c44298fc1c149afbf4c8996fb92427ae41e4649b934ca495991b7852b855");
}

#[test]
fn compression_round_trip() {
    let data: Vec<u8> = (0..200u32).map(|i| (i % 251) as u8).collect();
    let algo = "brotli".to_string();
    let compressed = compress(&algo, &data).expect("compression failed");
    let restored = decompress(&algo, &compressed).expect("decompression failed");
    assert_eq!(restored, data);
}

#[test]
fn unknown_algorithm_is_explicit() {
    let data = b"abc".to_vec();
    let algo = "gzip".to_string();
    assert!(matches!(
        compress(&algo, &data),
        Err(EngineError::UnsupportedAlgorithm(a)) if a == "gzip"
    ));
    assert!(matches!(
        decompress(&algo, &data),
        Err(EngineError::UnsupportedAlgorithm(a)) if a == "gzip"
    ));
}

#[test]
fn invalid_stream_is_codec_error() {
    let garbage = vec![7u8; 32];
    let algo = "brotli".to_string();
    assert!(matches!(decompress(&algo, &garbage), Err(EngineError::CodecError(_))));
}

#[test]
fn store_keys_have_fixed_shape() {
    assert_eq!(blob_key(&".".to_string(), &"abcd".to_string()), "./files/abcd");
    assert_eq!(version_key(&"pre".to_string(), &"v1".to_string()), "pre/versions/v1");
}

#[test]
fn process_file_dedup_reuses_store_identity() {
    let content = b"payload".to_vec();
    let digest = sha256_hex(&content);
    let info = RemoteFileInfo {
        c_len: 42,
        metadata: vec![
            ("c_algo".to_string(), "brotli".to_string()),
            ("c_sha256".to_string(), "d".repeat(64)),
        ],
    };
    let (rec, upload) = process_file(
        &"x.bin".to_string(),
        &content,
        &digest,
        &Some(info),
    )
    .unwrap();
    assert!(upload.is_none());
    assert_eq!(rec.c_len, 42);
    assert_eq!(rec.c_sha256, "d".repeat(64));
    assert_eq!(rec.u_sha256, digest);
    assert_eq!(rec.u_len as usize, content.len());
}

#[test]
fn process_file_upload_carries_metadata() {
    let content = b"fresh payload never stored".to_vec();
    let digest = sha256_hex(&content);
    let (rec, upload) = process_file(&"y.bin".to_string(), &content, &digest, &None).unwrap();
    let upload = upload.expect("expected an upload");
    assert_eq!(rec.c_len as usize, upload.data.len());
    assert_eq!(rec.c_sha256, sha256_hex(&upload.data));
    assert_eq!(
        meta_get(&upload.metadata, "c_sha256").as_deref(),
        Some(rec.c_sha256.as_str()),
    );
    assert_eq!(meta_get(&upload.metadata, "c_algo").as_deref(), Some("brotli"));
    // The uploaded bytes decompress back to the original content.
    let restored = decompress(&"brotli".to_string(), &upload.data).unwrap();
    assert_eq!(restored, content);
}

#[test]
fn process_file_without_stored_digest_fails() {
    let content = b"z".to_vec();
    let digest = sha256_hex(&content);
    let info = RemoteFileInfo { c_len: 1, metadata: vec![] };
    let r = process_file(&"z.bin".to_string(), &content, &digest, &Some(info));
    assert!(matches!(r, Err(EngineError::StoreError(p)) if p == "z.bin"));
}

#[test]
fn process_file_echoes_stored_algorithm() {
    // The dedup path reuses the stored blob's identity wholesale: the
    // algorithm in the record is the store's, not the built-in default.
    let content = b"payload".to_vec();
    let digest = sha256_hex(&content);
    let info = RemoteFileInfo {
        c_len: 9,
        metadata: vec![
            ("c_algo".to_string(), "zstd".to_string()),
            ("c_sha256".to_string(), "e".repeat(64)),
        ],
    };
    let (rec, upload) = process_file(&"x.bin".to_string(), &content, &digest, &Some(info))
        .unwrap();
    assert!(upload.is_none());
    assert_eq!(rec.c_algo, "zstd");
    assert_eq!(rec.c_sha256, "e".repeat(64));
}

#[test]
fn process_file_without_stored_algorithm_fails() {
    let content = b"z".to_vec();
    let digest = sha256_hex(&content);
    let info = RemoteFileInfo {
        c_len: 1,
        metadata: vec![("c_sha256".to_string(), "d".repeat(64))],
    };
    let r = process_file(&"z.bin".to_string(), &content, &digest, &Some(info));
    assert!(matches!(r, Err(EngineError::StoreError(p)) if p == "z.bin"));
}
