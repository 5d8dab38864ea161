use lockdiff::crystal::parse_shard_lock;
use lockdiff::go::parse_go_sum;
use lockdiff::node::parse_npm_lock;
use lockdiff::parse_toml_lock;
use lockdiff::php::parse_composer;
use lockdiff::python::parse_poetry_lock;
use lockdiff::ruby::parse_gemfile_lock;
use lockdiff::Package;

#[test]
fn test_parse_pubspec_lock() {
    let contents = r#"
version: 2.0
shards:
  db:
    git: https://github.com/crystal-lang/crystal-db.git
    version: 0.13.1

  pg:
    git: https://github.com/will/crystal-pg.git
    version: 0.29.0
"#;
    let packages = parse_shard_lock(contents).unwrap();
    assert_eq!(
        &packages,
        &[Package::new("db", "0.13.1"), Package::new("pg", "0.29.0")]
    )
}

#[test]
fn test_go_sum() {
    let contents = r#"
cloud.google.com/go v0.26.0/go.mod h1:hash1
cloud.google.com/go v0.34.0/go.mod h1:hash1
cloud.google.com/go/storage v1.14.0/go.mod h1:hash2
"#;
    let packages = parse_go_sum(contents).unwrap();
    assert_eq!(
        &packages,
        &[
            Package::new("cloud.google.com/go", "v0.34.0"),
            Package::new("cloud.google.com/go/storage", "v1.14.0")
        ]
    );
}

#[test]
fn test_parse_toml_lock() {
    let contents = r#"
# This file is automatically @generated by Poetry 2.0.1 and should not be changed by hand.

[[package]]
name = "anyio"
version = "4.8.0"
description = "High level compatibility layer for multiple asynchronous event loop implementations"
files = [
]

[package.dependencies]
idna = ">=2.8"

[package.extras]
doc = ["Sphinx (>=7.4,<8.0)", "packaging", "sphinx-autodoc-typehints (>=1.2.0)", "sphinx_rtd_theme"]

[[package]]
name = "asgiref"
version = "3.8.1"

[metadata]
lock-version = "2.1"
python-versions = ">= 3.13"
"#;
    let packages = parse_toml_lock(contents).unwrap();
    assert_eq!(
        &packages,
        &[
            Package::new("anyio", "4.8.0"),
            Package::new("asgiref", "3.8.1")
        ]
    );
}

#[test]
fn test_npm_lock() {
    let contents = r#"
{
  "name": "my-proj",
  "version": "0.0.0",
  "lockfileVersion": 3,
  "requires": true,
  "packages": {
    "": {
      "name": "my-proj",
      "version": "0.0.0",
      "dependencies": {
        "@eslint": "^2.1.2"
      }
    },
    "node_modules/@eslint/eslintrc": {
      "version": "2.1.2",
       "resolved": "https://registry.npmjs.org/@eslint/eslintrc/-/eslintrc-2.1.2.tgz"
    }
  }
}
"#;

    let packages = parse_npm_lock(contents).unwrap();
    assert_eq!(&packages, &[Package::new("@eslint/eslintrc", "2.1.2")]);
}

#[test]
fn test_composer_lock() {
    let contents = r#"
{
   "_readme" : [
      "This file locks the dependencies of your project to a known state"
   ],
   "content-hash" : "657b85759b97fae05fc2983bd4abadf7",
   "packages" : [
      {
         "name" : "acme.corp/stuff",
         "source" : {},
         "version" : "1.2.3"
      }
   ],
   "packages-dev" : [
      {
         "name" : "myclabs/deep-copy",
         "source" : {},
         "version" : "1.11.0"
      }
   ]
}
"#;
    let packages = parse_composer(contents).unwrap();
    assert_eq!(
        &packages,
        &[
            Package::new("acme.corp/stuff", "1.2.3"),
            Package::new("myclabs/deep-copy", "1.11.0")
        ]
    );
}

#[test]
fn test_parse_poetry_lock() {
    let contents = r#"
# This file is automatically @generated by Poetry 2.0.1 and should not be changed by hand.

[[package]]
name = "anyio"
version = "4.8.0"
description = "High level compatibility layer for multiple asynchronous event loop implementations"
files = [
]

[package.dependencies]
idna = ">=2.8"

[package.extras]
doc = ["Sphinx (>=7.4,<8.0)", "packaging", "sphinx-autodoc-typehints (>=1.2.0)", "sphinx_rtd_theme"]

[[package]]
name = "asgiref"
version = "3.8.1"

[metadata]
lock-version = "2.1"
python-versions = ">= 3.13"
"#;
    let packages = parse_poetry_lock(contents).unwrap();
    assert_eq!(
        &packages,
        &[
            Package::new("anyio", "4.8.0"),
            Package::new("asgiref", "3.8.1")
        ]
    );
}

#[test]
fn test_parse_gemfile_lock() {
    let contents = r#"
OTHER SECTION
  foo
    bar

GEM
  remote: https://rubygems.org/
  specs:
    diff-lcs (1.5.1)
    rspec (3.13.0)
      rspec-core (~> 3.13.0)
      rspec-expectations (~> 3.13.0)
      rspec-mocks (~> 3.13.0)
    rspec-core (3.13.2)
      rspec-support (~> 3.13.0)
  ignored:
      line1
      line2

PLATFORMS
  ruby
  x86_64-linux
        "#;

    let packages = parse_gemfile_lock(contents).unwrap();
    assert_eq!(
        packages,
        &[
            Package::new("diff-lcs", "1.5.1"),
            Package::new("rspec", "3.13.0"),
            Package::new("rspec-core", "3.13.2"),
        ]
    );
}
