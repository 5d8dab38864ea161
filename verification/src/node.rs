use crate::doc::{json_doc, metas_of_table, tbl_get, Doc};
use crate::{
    meta_pairs, result_matches, shape_error, LockError, LockErrorV, Package, PackageMetadata,
};
use vstd::prelude::*;

verus! {

// ---------------------------------------------------------------------------
// The npm-style JSON adapter
// ---------------------------------------------------------------------------

/// The module-directory marker that npm-style keys carry.
pub open spec fn marker() -> Seq<char> {
    "node_modules/"@
}

/// The key with every occurrence of the module-directory marker removed,
/// scanning left to right, as `str::replace` removes them.
pub open spec fn strip_marker(s: Seq<char>) -> Seq<char>
    decreases s.len(),
{
    if s.len() == 0 {
        s
    } else if marker().len() > 0 && s.len() >= marker().len() && s.take(marker().len() as int)
        == marker() {
        strip_marker(s.skip(marker().len() as int))
    } else {
        seq![s[0]] + strip_marker(s.skip(1))
    }
}

/// The projection of npm-style entries: the entry with the empty key (the
/// root project) is dropped, and every other key has the module-directory
/// marker removed.
pub open spec fn npm_project(entries: Seq<(Seq<char>, Seq<char>)>) -> Seq<(Seq<char>, Seq<char>)>
    decreases entries.len(),
{
    if entries.len() == 0 {
        Seq::empty()
    } else {
        let rest = npm_project(entries.skip(1));
        if entries[0].0.len() == 0 {
            rest
        } else {
            seq![(strip_marker(entries[0].0), entries[0].1)] + rest
        }
    }
}

/// An npm-style lock file: a `packages` mapping from path-qualified name to
/// a metadata record carrying the version.
pub struct NpmLock {
    pub packages: Vec<(String, PackageMetadata)>,
}

/// Removes every occurrence of the module-directory marker from a key.
fn strip_marker_exec(s: &str) -> (r: String)
    ensures
        r@ == strip_marker(s@),
{
    let n: usize = s.unicode_len();
    let mut out = String::new();
    let mut i: usize = 0;
    proof {
        reveal_strlit("node_modules/");
        assert(s@.skip(0) =~= s@);
    }
    while i < n
        invariant
            n == s@.len(),
            0 <= i <= n,
            marker().len() == 13,
            strip_marker(s@) == out@ + strip_marker(s@.skip(i as int)),
        decreases n - i,
    {
        let mut step: usize = 1;
        let at_marker: bool = if n - i >= 13 {
            crate::text::str_eq(s.substring_char(i, i + 13), "node_modules/")
        } else {
            false
        };
        if at_marker {
            proof {
                assert(s@.skip(i as int).take(13) =~= s@.subrange(i as int, i + 13));
                assert(s@.skip(i as int).skip(13) =~= s@.skip(i + 13));
                assert(strip_marker(s@.skip(i as int)) == strip_marker(s@.skip(i + 13)));
            }
            step = 13;
        } else {
            proof {
                let t = s@.skip(i as int);
                if i + 13 <= n {
                    assert(t.take(13) =~= s@.subrange(i as int, i + 13));
                    assert(t.take(13) != marker());
                } else {
                    assert(t.len() < 13);
                }
                assert(t[0] == s@[i as int]);
                assert(t.skip(1) =~= s@.skip(i + 1));
                assert(strip_marker(t) == seq![s@[i as int]] + strip_marker(s@.skip(i + 1)));
            }
            let piece = s.substring_char(i, i + 1);
            proof {
                assert(piece@ =~= seq![s@[i as int]]);
            }
            let ghost out0 = out@;
            out.append(piece);
            proof {
                assert(out0 + (seq![s@[i as int]] + strip_marker(s@.skip(i + 1))) =~= out@
                    + strip_marker(s@.skip(i + 1)));
            }
        }
        i += step;
    }
    proof {
        assert(s@.skip(n as int) =~= Seq::<char>::empty());
        assert(strip_marker(Seq::<char>::empty()) == Seq::<char>::empty());
        assert(out@ + Seq::<char>::empty() =~= out@);
    }
    out
}

impl NpmLock {
    /// The packages of the entries: the root entry (empty key) is dropped,
    /// the module-directory marker is removed from each remaining key, and
    /// entry order is kept.
    pub fn packages(self) -> (r: Vec<Package>)
        ensures
            crate::pkg_pairs(r@) == npm_project(meta_pairs(self.packages@)),
    {
        let ghost ms = meta_pairs(self.packages@);
        let n: usize = self.packages.len();
        let mut r: Vec<Package> = Vec::new();
        let mut i: usize = 0;
        proof {
            assert(ms.skip(0) =~= ms);
        }
        while i < n
            invariant
                ms == meta_pairs(self.packages@),
                n == self.packages@.len(),
                n == ms.len(),
                0 <= i <= n,
                npm_project(ms) == crate::pkg_pairs(r@) + npm_project(ms.skip(i as int)),
            decreases n - i,
        {
            proof {
                assert(ms.skip(i as int)[0] == ms[i as int]);
                assert(ms.skip(i as int).skip(1) =~= ms.skip(i + 1));
                assert(ms[i as int] == (self.packages@[i as int].0@, self.packages@[
                    i as int].1.version@));
            }
            let key: &String = &self.packages[i].0;
            if key.as_str().unicode_len() == 0 {
                i += 1;
                continue;
            }
            let name = strip_marker_exec(key.as_str());
            let pkg = Package::new(name.as_str(), self.packages[i].1.version.as_str());
            let ghost r0 = r@;
            r.push(pkg);
            proof {
                let p0 = (strip_marker(ms[i as int].0), ms[i as int].1);
                assert(crate::pkg_pairs(r@) =~= crate::pkg_pairs(r0) + seq![p0]);
                assert(npm_project(ms.skip(i as int)) == seq![p0] + npm_project(ms.skip(i + 1)));
                assert(crate::pkg_pairs(r0) + (seq![p0] + npm_project(ms.skip(i + 1))) =~= crate::pkg_pairs(
                    r@,
                ) + npm_project(ms.skip(i + 1)));
            }
            i += 1;
        }
        proof {
            assert(ms.skip(n as int) =~= Seq::<(Seq<char>, Seq<char>)>::empty());
            assert(crate::pkg_pairs(r@) + Seq::<(Seq<char>, Seq<char>)>::empty() =~= crate::pkg_pairs(
                r@,
            ));
        }
        r
    }
}

/// The packages of an npm-style lock file: the deserialized document must
/// be an object whose `packages` entry maps each path-qualified name to a
/// record carrying a `version` text field; the root entry is dropped and
/// the module-directory marker removed from each key.
pub open spec fn npm_result(s: Seq<char>) -> Result<Seq<(Seq<char>, Seq<char>)>, LockErrorV> {
    match json_doc(s) {
        Err(m) => Err(LockErrorV::MalformedDocument(m)),
        Ok(d) => match d {
            Doc::Table(es) => match tbl_get(es@, "packages"@) {
                Some(Doc::Table(pes)) => match metas_of_table(pes@) {
                    Some(ms) => Ok(npm_project(ms)),
                    None => Err(shape_error()),
                },
                _ => Err(shape_error()),
            },
            _ => Err(shape_error()),
        },
    }
}

/// Parses an npm-style lock file.
pub fn parse_npm_lock(contents: &str) -> (r: Result<Vec<Package>, LockError>)
    ensures
        result_matches(r, npm_result(contents@)),
{
    match crate::doc::parse_json_doc(contents) {
        Err(m) => Err(LockError::MalformedDocument(m)),
        Ok(d) => match &d {
            Doc::Table(es) => match crate::doc::doc_find(es, "packages") {
                Some(pi) => match &es[pi].1 {
                    Doc::Table(pes) => match crate::doc::table_versions(pes) {
                        Some(pairs) => {
                            let lock = NpmLock { packages: crate::pairs_to_metas(&pairs) };
                            let ghost gs = lock.packages@;
                            let out = lock.packages();
                            proof {
                                let ms = metas_of_table(pes@)->Some_0;
                                assert(meta_pairs(gs) =~= ms);
                                let ps = npm_project(ms);
                                assert forall|k: int| 0 <= k < ps.len() implies out@[k].name@ == (
                                #[trigger] ps[k]).0 && out@[k].version@ == ps[k].1 by {
                                    assert(crate::pkg_pairs(out@)[k] == (
                                        out@[k].name@,
                                        out@[k].version@,
                                    ));
                                }
                            }
                            Ok(out)
                        },
                        None => Err(crate::shape_error_exec()),
                    },
                    _ => Err(crate::shape_error_exec()),
                },
                None => Err(crate::shape_error_exec()),
            },
            _ => Err(crate::shape_error_exec()),
        },
    }
}

// ---------------------------------------------------------------------------
// The yarn adapter
// ---------------------------------------------------------------------------

/// The (name, version) pairs that the yarn lock parser yields for `s`, in
/// entry order, or its error text.
pub uninterp spec fn yarn_entries(s: Seq<char>) -> Result<Seq<(Seq<char>, Seq<char>)>, Seq<char>>;

/// Relies on `yarn_lock_parser::parse_str`: parses a yarn lock file into
/// entries, each carrying `name` and `version` fields; the result depends
/// on the text alone.
#[verifier::external_body]
fn yarn_records(contents: &str) -> (r: Result<Vec<(String, String)>, String>)
    ensures
        match r {
            Ok(v) => yarn_entries(contents@) matches Ok(ps) && v@.len() == ps.len() && (forall|
                i: int,
            |
                0 <= i < ps.len() ==> v@[i].0@ == (#[trigger] ps[i]).0 && v@[i].1@ == ps[i].1),
            Err(e) => yarn_entries(contents@) == Err::<Seq<(Seq<char>, Seq<char>)>, Seq<char>>(e@),
        },
{
    match yarn_lock_parser::parse_str(contents) {
        Ok(lock) => Ok(
            lock.entries.iter().map(|e| (e.name.to_string(), e.version.to_string())).collect(),
        ),
        Err(e) => Err(e.to_string()),
    }
}

/// The packages of a yarn lock file, or its deserialization failure.
pub open spec fn yarn_result(s: Seq<char>) -> Result<Seq<(Seq<char>, Seq<char>)>, LockErrorV> {
    match yarn_entries(s) {
        Ok(ps) => Ok(ps),
        Err(m) => Err(LockErrorV::MalformedDocument(m)),
    }
}

/// Parses a yarn lock file: one package per entry, in entry order.
pub fn parse_yarn_lock(contents: &str) -> (r: Result<Vec<Package>, LockError>)
    ensures
        result_matches(r, yarn_result(contents@)),
{
    match yarn_records(contents) {
        Ok(pairs) => Ok(crate::pairs_to_packages(&pairs)),
        Err(m) => Err(LockError::MalformedDocument(m)),
    }
}

} // verus!
