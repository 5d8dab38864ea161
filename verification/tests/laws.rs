use lockdiff::go::parse_go_sum;
use lockdiff::node::{parse_npm_lock, parse_yarn_lock};
use lockdiff::parse_lock;
use lockdiff::ruby::{parse_gemfile_lock, parse_line};
use lockdiff::{LockError, Package};

#[test]
fn checksum_last_entry_wins() {
    let contents = "a v1.0.0 h1:x\na v2.0.0 h1:y\n";
    let packages = parse_go_sum(contents).unwrap();
    assert_eq!(&packages, &[Package::new("a", "v2.0.0")]);
}

#[test]
fn checksum_version_truncation() {
    let contents = "cloud.google.com/go/storage v1.14.0/go.mod h1:hash\n";
    let packages = parse_go_sum(contents).unwrap();
    assert_eq!(
        &packages,
        &[Package::new("cloud.google.com/go/storage", "v1.14.0")]
    );
}

#[test]
fn checksum_output_in_key_order() {
    let contents = "zlib v2.0.0 h1:z\nalpha v1.0.0 h1:a\n";
    let packages = parse_go_sum(contents).unwrap();
    assert_eq!(
        &packages,
        &[Package::new("alpha", "v1.0.0"), Package::new("zlib", "v2.0.0")]
    );
}

#[test]
fn checksum_malformed_line_two_fields() {
    let contents = "good v1.0.0 h1:x\nbad v2.0.0\n";
    match parse_go_sum(contents) {
        Err(LockError::MalformedLine(line)) => assert_eq!(line, "bad v2.0.0"),
        other => panic!("expected a malformed-line failure, got {other:?}"),
    }
}

#[test]
fn checksum_empty_input() {
    let packages = parse_go_sum("").unwrap();
    assert!(packages.is_empty());
}

#[test]
fn block_parser_section_isolation() {
    let contents = r#"
OTHER
  specs:
    not-a-gem (1.0.0)

PLATFORMS
  ruby
"#;
    let packages = parse_gemfile_lock(contents).unwrap();
    assert!(packages.is_empty());
}

#[test]
fn block_parser_nested_dependency_skipping() {
    let contents = "GEM\n  specs:\n    rspec (3.13.0)\n      rspec-core (~> 3.13.0)\n";
    let packages = parse_gemfile_lock(contents).unwrap();
    assert_eq!(&packages, &[Package::new("rspec", "3.13.0")]);
}

#[test]
fn block_parser_malformed_spec_line() {
    let contents = "GEM\n  specs:\n    lonely\n";
    match parse_gemfile_lock(contents) {
        Err(LockError::MalformedSpecLine(line)) => assert_eq!(line, "lonely"),
        other => panic!("expected a malformed-spec-line failure, got {other:?}"),
    }
}

#[test]
fn spec_line_shape() {
    let package = parse_line("rake (13.2.1)").unwrap();
    assert_eq!(package, Package::new("rake", "13.2.1"));
    assert!(matches!(
        parse_line("rake [13.2.1]"),
        Err(LockError::MalformedSpecLine(_))
    ));
}

#[test]
fn unknown_format_is_reported() {
    match parse_lock("mystery.lock", "anything") {
        Err(LockError::UnrecognizedFormat(name)) => assert_eq!(name, "mystery.lock"),
        other => panic!("expected an unrecognized-format failure, got {other:?}"),
    }
}

#[test]
fn dispatch_selects_by_name() {
    let go = "a v1.0.0 h1:x\n";
    let packages = parse_lock("go.sum", go).unwrap();
    assert_eq!(&packages, &[Package::new("a", "v1.0.0")]);
}

#[test]
fn dispatch_requirements_pattern() {
    let contents = "# pinned\nflask==3.0.0\nrequests==2.32.0\n";
    let packages = parse_lock("dev-requirements.txt", contents).unwrap();
    assert_eq!(
        &packages,
        &[Package::new("flask", "3.0.0"), Package::new("requests", "2.32.0")]
    );
    match parse_lock("requirements.txt", "flask\n") {
        Err(LockError::MalformedLine(line)) => assert_eq!(line, "flask"),
        other => panic!("expected a malformed-line failure, got {other:?}"),
    }
}

#[test]
fn malformed_document_is_reported() {
    assert!(matches!(
        parse_lock("Cargo.lock", "not = valid = toml"),
        Err(LockError::MalformedDocument(_))
    ));
    assert!(matches!(
        parse_lock("composer.lock", "{ not json"),
        Err(LockError::MalformedDocument(_))
    ));
    assert!(matches!(
        parse_lock("package-lock.json", "{\"packages\": 3}"),
        Err(LockError::MalformedDocument(_))
    ));
    assert!(matches!(
        parse_lock("shard.lock", "just a scalar"),
        Err(LockError::MalformedDocument(_))
    ));
}

#[test]
fn npm_nested_marker_is_stripped_everywhere() {
    let contents = r#"
{
  "packages": {
    "node_modules/a/node_modules/b": {
      "version": "1.0.0"
    }
  }
}
"#;
    let packages = parse_npm_lock(contents).unwrap();
    assert_eq!(&packages, &[Package::new("a/b", "1.0.0")]);
}

#[test]
fn yarn_lock_entries() {
    let contents = r#"# THIS IS AN AUTOGENERATED FILE. DO NOT EDIT THIS FILE DIRECTLY.
# yarn lockfile v1


abab@^2.0.0:
  version "2.0.6"
  resolved "https://registry.yarnpkg.com/abab/-/abab-2.0.6.tgz#41b80f2c871d19686216b82309231cfd3cb3d291"
  integrity sha512-j2afSsaIENvHZN2B8GOpF566vZ5WVk5opAiMTvWgaQT8DkbOqsTfvNAvHoRGU2zzP8cPoqys+xHTRDWW8L+/BA==
"#;
    let packages = parse_yarn_lock(contents).unwrap();
    assert_eq!(&packages, &[Package::new("abab", "2.0.6")]);
}

#[test]
fn dispatch_covers_every_recognized_name() {
    let toml = "[[package]]\nname = \"a\"\nversion = \"1\"\n";
    assert_eq!(parse_lock("Cargo.lock", toml).unwrap().len(), 1);
    assert_eq!(parse_lock("uv.lock", toml).unwrap().len(), 1);
    assert_eq!(parse_lock("poetry.lock", toml).unwrap().len(), 1);
    let gem = "GEM\n  specs:\n    rake (13.2.1)\n";
    assert_eq!(parse_lock("Gemfile.lock", gem).unwrap().len(), 1);
    let composer = r#"{"packages": [{"name": "a", "version": "1"}], "packages-dev": []}"#;
    assert_eq!(parse_lock("composer.lock", composer).unwrap().len(), 1);
    let npm = r#"{"packages": {"node_modules/a": {"version": "1"}}}"#;
    assert_eq!(parse_lock("package-lock.json", npm).unwrap().len(), 1);
    let shard = "shards:\n  a:\n    version: 1.0.0\n";
    assert_eq!(parse_lock("shard.lock", shard).unwrap().len(), 1);
}

#[test]
fn carriage_returns_are_stripped() {
    let contents = "a v1.0.0 h1:x\r\nb v2.0.0 h1:y\r\n";
    let packages = parse_go_sum(contents).unwrap();
    assert_eq!(
        &packages,
        &[Package::new("a", "v1.0.0"), Package::new("b", "v2.0.0")]
    );
}

#[test]
fn gemfile_without_header_is_empty() {
    let packages = parse_gemfile_lock("").unwrap();
    assert!(packages.is_empty());
}

#[test]
fn error_messages() {
    assert_eq!(
        LockError::UnrecognizedFormat("x.lock".to_string()).message(),
        "Unknown lock name: x.lock"
    );
    assert_eq!(
        LockError::MalformedLine("a b".to_string()).message(),
        "Expected line a b to contain exactly 3 words"
    );
    assert_eq!(
        LockError::MalformedSpecLine("bad".to_string()).message(),
        "Expected two words for spec line bad"
    );
}

#[test]
fn package_display_line() {
    let package = Package::new("rake", "13.2.1");
    assert_eq!(package.display_line(), "rake (13.2.1)");
}
