use crate::text::str_eq;
use vstd::prelude::*;

verus! {

// ---------------------------------------------------------------------------
// A generic structured document
// ---------------------------------------------------------------------------

/// A structured document, as the generic deserializers of the format crates
/// produce one: text, lists, and string-keyed tables, with entries in the
/// order the deserializer yields them.  Values of other kinds (numbers,
/// booleans, nulls, datetimes, tagged values) are carried as `Other`; no
/// lock format reads them.
pub enum Doc {
    Text(String),
    List(Vec<Doc>),
    Table(Vec<(String, Doc)>),
    Other,
}

/// The value of the first table entry with key `k`, if any.
pub open spec fn tbl_get(es: Seq<(String, Doc)>, k: Seq<char>) -> Option<Doc>
    decreases es.len(),
{
    if es.len() == 0 {
        None
    } else if es[0].0@ == k {
        Some(es[0].1)
    } else {
        tbl_get(es.skip(1), k)
    }
}

/// Finds the first table entry with key `k`.
pub fn doc_find(es: &Vec<(String, Doc)>, k: &str) -> (r: Option<usize>)
    ensures
        match r {
            Some(i) => i < es@.len() && es@[i as int].0@ == k@ && tbl_get(es@, k@) == Some(
                es@[i as int].1,
            ),
            None => tbl_get(es@, k@) is None,
        },
{
    let n: usize = es.len();
    let mut i: usize = 0;
    proof {
        assert(es@.skip(0) =~= es@);
    }
    while i < n
        invariant
            n == es@.len(),
            0 <= i <= n,
            tbl_get(es@, k@) == tbl_get(es@.skip(i as int), k@),
        decreases n - i,
    {
        proof {
            assert(es@.skip(i as int)[0] == es@[i as int]);
            assert(es@.skip(i as int).skip(1) =~= es@.skip(i + 1));
        }
        if str_eq(es[i].0.as_str(), k) {
            return Some(i);
        }
        i += 1;
    }
    None
}

// ---------------------------------------------------------------------------
// Record shapes shared by the structured formats
// ---------------------------------------------------------------------------

/// A record table carrying its own name: `name` and `version` text fields.
pub open spec fn rec_name_version(d: Doc) -> Option<(Seq<char>, Seq<char>)> {
    match d {
        Doc::Table(es) => match tbl_get(es@, "name"@) {
            Some(Doc::Text(n)) => match tbl_get(es@, "version"@) {
                Some(Doc::Text(v)) => Some((n@, v@)),
                _ => None,
            },
            _ => None,
        },
        _ => None,
    }
}

/// The records of a list of record tables, in order; `None` when any
/// element is not a well-shaped record.
pub open spec fn recs_of_list(items: Seq<Doc>) -> Option<Seq<(Seq<char>, Seq<char>)>>
    decreases items.len(),
{
    if items.len() == 0 {
        Some(Seq::empty())
    } else {
        match rec_name_version(items[0]) {
            None => None,
            Some(p) => match recs_of_list(items.skip(1)) {
                None => None,
                Some(rest) => Some(seq![p] + rest),
            },
        }
    }
}

/// A metadata table: a `version` text field, under an outer key.
pub open spec fn meta_version(d: Doc) -> Option<Seq<char>> {
    match d {
        Doc::Table(es) => match tbl_get(es@, "version"@) {
            Some(Doc::Text(v)) => Some(v@),
            _ => None,
        },
        _ => None,
    }
}

/// The (key, version) pairs of a table whose values are metadata tables, in
/// entry order; `None` when any value is not a well-shaped metadata table.
pub open spec fn metas_of_table(es: Seq<(String, Doc)>) -> Option<Seq<(Seq<char>, Seq<char>)>>
    decreases es.len(),
{
    if es.len() == 0 {
        Some(Seq::empty())
    } else {
        match meta_version(es[0].1) {
            None => None,
            Some(v) => match metas_of_table(es.skip(1)) {
                None => None,
                Some(rest) => Some(seq![(es[0].0@, v)] + rest),
            },
        }
    }
}

/// Extracts the (name, version) records of a list of record tables.
pub fn list_records(items: &Vec<Doc>) -> (r: Option<Vec<(String, String)>>)
    ensures
        match r {
            Some(v) => recs_of_list(items@) matches Some(ps) && v@.len() == ps.len() && (forall|
                i: int,
            |
                0 <= i < ps.len() ==> v@[i].0@ == (#[trigger] ps[i]).0 && v@[i].1@ == ps[i].1),
            None => recs_of_list(items@) is None,
        },
{
    let n: usize = items.len();
    let mut v: Vec<(String, String)> = Vec::new();
    let mut i: usize = 0;
    proof {
        assert(items@.skip(0) =~= items@);
    }
    while i < n
        invariant
            n == items@.len(),
            0 <= i <= n,
            v@.len() == i,
            match recs_of_list(items@.skip(i as int)) {
                Some(rest) => recs_of_list(items@) matches Some(all) && all.len() == i + rest.len()
                    && (forall|k: int| 0 <= k < i ==> v@[k].0@ == (#[trigger] all[k]).0 && v@[k].1@
                    == all[k].1) && (forall|k: int|
                    0 <= k < rest.len() ==> #[trigger] rest[k] == all[i + k]),
                None => recs_of_list(items@) is None,
            },
        decreases n - i,
    {
        proof {
            assert(items@.skip(i as int)[0] == items@[i as int]);
            assert(items@.skip(i as int).skip(1) =~= items@.skip(i + 1));
        }
        let rec: Option<(String, String)> = match &items[i] {
            Doc::Table(es) => {
                match doc_find(es, "name") {
                    Some(pi) => match &es[pi].1 {
                        Doc::Text(name) => match doc_find(es, "version") {
                            Some(qi) => match &es[qi].1 {
                                Doc::Text(version) => Some((name.clone(), version.clone())),
                                _ => None,
                            },
                            None => None,
                        },
                        _ => None,
                    },
                    None => None,
                }
            },
            _ => None,
        };
        match rec {
            Some(pair) => {
                proof {
                    assert(rec_name_version(items@[i as int]) == Some((pair.0@, pair.1@)));
                    let p0 = (pair.0@, pair.1@);
                    let tail1 = recs_of_list(items@.skip(i + 1));
                    if tail1 is Some {
                        let rest1 = tail1->Some_0;
                        let rest0 = seq![p0] + rest1;
                        assert(recs_of_list(items@.skip(i as int)) == Some(rest0));
                        let all = recs_of_list(items@)->Some_0;
                        assert(rest0[0] == p0);
                        assert(all[i as int] == p0);
                        assert forall|k: int| 0 <= k < rest1.len() implies #[trigger] rest1[k]
                            == all[i + 1 + k] by {
                            assert(rest0[k + 1] == rest1[k]);
                            assert(rest0[k + 1] == all[i + (k + 1)]);
                        }
                    } else {
                        assert(recs_of_list(items@.skip(i as int)) is None);
                    }
                }
                v.push(pair);
            },
            None => {
                proof {
                    assert(rec_name_version(items@[i as int]) is None);
                }
                return None;
            },
        }
        i += 1;
    }
    proof {
        assert(items@.skip(n as int) =~= Seq::<Doc>::empty());
    }
    Some(v)
}

/// Extracts the (key, version) pairs of a table of metadata tables.
pub fn table_versions(es: &Vec<(String, Doc)>) -> (r: Option<Vec<(String, String)>>)
    ensures
        match r {
            Some(v) => metas_of_table(es@) matches Some(ps) && v@.len() == ps.len() && (forall|
                i: int,
            |
                0 <= i < ps.len() ==> v@[i].0@ == (#[trigger] ps[i]).0 && v@[i].1@ == ps[i].1),
            None => metas_of_table(es@) is None,
        },
{
    let n: usize = es.len();
    let mut v: Vec<(String, String)> = Vec::new();
    let mut i: usize = 0;
    proof {
        assert(es@.skip(0) =~= es@);
    }
    while i < n
        invariant
            n == es@.len(),
            0 <= i <= n,
            v@.len() == i,
            match metas_of_table(es@.skip(i as int)) {
                Some(rest) => metas_of_table(es@) matches Some(all) && all.len() == i + rest.len()
                    && (forall|k: int| 0 <= k < i ==> v@[k].0@ == (#[trigger] all[k]).0 && v@[k].1@
                    == all[k].1) && (forall|k: int|
                    0 <= k < rest.len() ==> #[trigger] rest[k] == all[i + k]),
                None => metas_of_table(es@) is None,
            },
        decreases n - i,
    {
        proof {
            assert(es@.skip(i as int)[0] == es@[i as int]);
            assert(es@.skip(i as int).skip(1) =~= es@.skip(i + 1));
        }
        let ver: Option<String> = match &es[i].1 {
            Doc::Table(fs) => {
                match doc_find(fs, "version") {
                    Some(q) => match &fs[q].1 {
                        Doc::Text(version) => Some(version.clone()),
                        _ => None,
                    },
                    None => None,
                }
            },
            _ => None,
        };
        match ver {
            Some(version) => {
                let key = es[i].0.clone();
                proof {
                    assert(meta_version(es@[i as int].1) == Some(version@));
                    let p0 = (es@[i as int].0@, version@);
                    let tail1 = metas_of_table(es@.skip(i + 1));
                    if tail1 is Some {
                        let rest1 = tail1->Some_0;
                        let rest0 = seq![p0] + rest1;
                        assert(metas_of_table(es@.skip(i as int)) == Some(rest0));
                        let all = metas_of_table(es@)->Some_0;
                        assert(rest0[0] == p0);
                        assert(all[i as int] == p0);
                        assert forall|k: int| 0 <= k < rest1.len() implies #[trigger] rest1[k]
                            == all[i + 1 + k] by {
                            assert(rest0[k + 1] == rest1[k]);
                            assert(rest0[k + 1] == all[i + (k + 1)]);
                        }
                    } else {
                        assert(metas_of_table(es@.skip(i as int)) is None);
                    }
                }
                v.push((key, version));
            },
            None => {
                proof {
                    assert(meta_version(es@[i as int].1) is None);
                }
                return None;
            },
        }
        i += 1;
    }
    proof {
        assert(es@.skip(n as int) =~= Seq::<(String, Doc)>::empty());
    }
    Some(v)
}

/// The TOML-table lock shape: a top-level table whose `package` entry is a
/// list of (name, version) record tables.
pub open spec fn package_list_records(d: Doc) -> Option<Seq<(Seq<char>, Seq<char>)>> {
    match d {
        Doc::Table(es) => match tbl_get(es@, "package"@) {
            Some(Doc::List(items)) => recs_of_list(items@),
            _ => None,
        },
        _ => None,
    }
}

/// Extracts the records of a TOML-table lock document.
pub fn package_list(d: &Doc) -> (r: Option<Vec<(String, String)>>)
    ensures
        match r {
            Some(v) => package_list_records(*d) matches Some(ps) && v@.len() == ps.len() && (forall|
                i: int,
            |
                0 <= i < ps.len() ==> v@[i].0@ == (#[trigger] ps[i]).0 && v@[i].1@ == ps[i].1),
            None => package_list_records(*d) is None,
        },
{
    match d {
        Doc::Table(es) => match doc_find(es, "package") {
            Some(i) => match &es[i].1 {
                Doc::List(items) => list_records(items),
                _ => None,
            },
            None => None,
        },
        _ => None,
    }
}

// ---------------------------------------------------------------------------
// Trusted parsers of the three structured formats
// ---------------------------------------------------------------------------

/// The document that the TOML deserializer yields for `s`, rendered as a
/// [`Doc`], or its error text.
pub uninterp spec fn toml_doc(s: Seq<char>) -> Result<Doc, Seq<char>>;

/// The document that the JSON deserializer yields for `s`, rendered as a
/// [`Doc`], or its error text.
pub uninterp spec fn json_doc(s: Seq<char>) -> Result<Doc, Seq<char>>;

/// The document that the YAML deserializer yields for `s`, rendered as a
/// [`Doc`], or its error text.
pub uninterp spec fn yaml_doc(s: Seq<char>) -> Result<Doc, Seq<char>>;

#[verifier::external_type_specification]
#[verifier::external_body]
pub struct ExTomlValue(toml::Value);

#[verifier::external_type_specification]
#[verifier::external_body]
pub struct ExJsonValue(serde_json::Value);

#[verifier::external_type_specification]
#[verifier::external_body]
pub struct ExYamlValue(serde_yml::Value);

/// Relies on the variants of `toml::Value`: rewrites the parsed document,
/// one variant to one variant in order, into the library's document type.
#[verifier::external_body]
fn doc_of_toml(v: toml::Value) -> Doc {
    match v {
        toml::Value::String(s) => Doc::Text(s),
        toml::Value::Array(a) => Doc::List(a.into_iter().map(doc_of_toml).collect()),
        toml::Value::Table(t) => Doc::Table(
            t.into_iter().map(|e: (String, toml::Value)| (e.0, doc_of_toml(e.1))).collect(),
        ),
        _ => Doc::Other,
    }
}

/// Relies on the variants of `serde_json::Value`: rewrites the parsed
/// document, one variant to one variant in order, into the library's
/// document type.
#[verifier::external_body]
fn doc_of_json(v: serde_json::Value) -> Doc {
    match v {
        serde_json::Value::String(s) => Doc::Text(s),
        serde_json::Value::Array(a) => Doc::List(a.into_iter().map(doc_of_json).collect()),
        serde_json::Value::Object(o) => Doc::Table(
            o.into_iter().map(|e: (String, serde_json::Value)| (e.0, doc_of_json(e.1))).collect(),
        ),
        _ => Doc::Other,
    }
}

/// Relies on the variants of `serde_yml::Value`: rewrites the parsed
/// document, one variant to one variant in order, into the library's
/// document type.
#[verifier::external_body]
fn doc_of_yaml(v: serde_yml::Value) -> Doc {
    match v {
        serde_yml::Value::String(s) => Doc::Text(s),
        serde_yml::Value::Sequence(a) => Doc::List(a.into_iter().map(doc_of_yaml).collect()),
        serde_yml::Value::Mapping(m) => Doc::Table(
            m.into_iter().map(|e: (String, serde_yml::Value)| (e.0, doc_of_yaml(e.1))).collect(),
        ),
        _ => Doc::Other,
    }
}

/// Relies on `toml::from_str::<toml::Value>`: parses TOML text into a
/// generic document; the result depends on the text alone.
#[verifier::external_body]
pub fn parse_toml_doc(contents: &str) -> (r: Result<Doc, String>)
    ensures
        match r {
            Ok(d) => toml_doc(contents@) == Ok::<Doc, Seq<char>>(d),
            Err(e) => toml_doc(contents@) == Err::<Doc, Seq<char>>(e@),
        },
{
    match toml::from_str::<toml::Value>(contents) {
        Ok(v) => Ok(doc_of_toml(v)),
        Err(e) => Err(e.to_string()),
    }
}

/// Relies on `serde_json::from_str::<serde_json::Value>`: parses JSON text
/// into a generic document; the result depends on the text alone.
#[verifier::external_body]
pub fn parse_json_doc(contents: &str) -> (r: Result<Doc, String>)
    ensures
        match r {
            Ok(d) => json_doc(contents@) == Ok::<Doc, Seq<char>>(d),
            Err(e) => json_doc(contents@) == Err::<Doc, Seq<char>>(e@),
        },
{
    match serde_json::from_str::<serde_json::Value>(contents) {
        Ok(v) => Ok(doc_of_json(v)),
        Err(e) => Err(e.to_string()),
    }
}

/// Relies on `serde_yml::from_str::<serde_yml::Value>`: parses YAML text
/// into a generic document; the result depends on the text alone.
#[verifier::external_body]
pub fn parse_yaml_doc(contents: &str) -> (r: Result<Doc, String>)
    ensures
        match r {
            Ok(d) => yaml_doc(contents@) == Ok::<Doc, Seq<char>>(d),
            Err(e) => yaml_doc(contents@) == Err::<Doc, Seq<char>>(e@),
        },
{
    match serde_yml::from_str::<serde_yml::Value>(contents) {
        Ok(v) => Ok(doc_of_yaml(v)),
        Err(e) => Err(e.to_string()),
    }
}

} // verus!
