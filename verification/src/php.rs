use crate::doc::{json_doc, recs_of_list, tbl_get, Doc};
use crate::{result_matches, shape_error, LockError, LockErrorV, Package};
use vstd::prelude::*;

verus! {

// ---------------------------------------------------------------------------
// The Composer-style JSON adapter
// ---------------------------------------------------------------------------

/// One package record of a Composer-style lock file.
pub struct ComposerPackage {
    pub name: String,
    pub version: String,
}

/// A Composer-style lock file: a `packages` list and a `packages-dev` list
/// of (name, version) records.
pub struct ComposerLock {
    pub packages: Vec<ComposerPackage>,
    pub packages_dev: Vec<ComposerPackage>,
}

/// The (name, version) pairs of a Composer record list.
pub open spec fn composer_pairs(s: Seq<ComposerPackage>) -> Seq<(Seq<char>, Seq<char>)> {
    s.map_values(|p: ComposerPackage| (p.name@, p.version@))
}

impl ComposerLock {
    /// The regular packages followed by the development packages, each in
    /// file order.
    pub fn packages(self) -> (r: Vec<Package>)
        ensures
            crate::pkg_pairs(r@) == composer_pairs(self.packages@) + composer_pairs(
                self.packages_dev@,
            ),
    {
        let n1: usize = self.packages.len();
        let n2: usize = self.packages_dev.len();
        let mut r: Vec<Package> = Vec::new();
        let mut i: usize = 0;
        while i < n1
            invariant
                n1 == self.packages@.len(),
                0 <= i <= n1,
                r@.len() == i,
                forall|k: int|
                    0 <= k < i ==> (#[trigger] r@[k]).name@ == self.packages@[k].name@
                        && r@[k].version@ == self.packages@[k].version@,
            decreases n1 - i,
        {
            r.push(
                Package::new(self.packages[i].name.as_str(), self.packages[i].version.as_str()),
            );
            i += 1;
        }
        let mut j: usize = 0;
        while j < n2
            invariant
                n1 == self.packages@.len(),
                n2 == self.packages_dev@.len(),
                0 <= j <= n2,
                r@.len() == n1 + j,
                forall|k: int|
                    0 <= k < n1 ==> (#[trigger] r@[k]).name@ == self.packages@[k].name@
                        && r@[k].version@ == self.packages@[k].version@,
                forall|k: int|
                    0 <= k < j ==> (#[trigger] r@[n1 + k]).name@ == self.packages_dev@[k].name@
                        && r@[n1 + k].version@ == self.packages_dev@[k].version@,
            decreases n2 - j,
        {
            r.push(
                Package::new(
                    self.packages_dev[j].name.as_str(),
                    self.packages_dev[j].version.as_str(),
                ),
            );
            j += 1;
        }
        proof {
            let lhs = crate::pkg_pairs(r@);
            let rhs = composer_pairs(self.packages@) + composer_pairs(self.packages_dev@);
            assert forall|k: int| 0 <= k < r@.len() implies lhs[k] == rhs[k] by {
                assert(lhs[k] == (r@[k].name@, r@[k].version@));
                if k < n1 {
                    assert(r@[k].name@ == self.packages@[k].name@);
                    assert(r@[k].version@ == self.packages@[k].version@);
                    assert(rhs[k] == composer_pairs(self.packages@)[k]);
                    assert(composer_pairs(self.packages@)[k] == (
                        self.packages@[k].name@,
                        self.packages@[k].version@,
                    ));
                } else {
                    assert(r@[n1 + (k - n1)].name@ == self.packages_dev@[k - n1].name@);
                    assert(r@[n1 + (k - n1)].version@ == self.packages_dev@[k - n1].version@);
                    assert(rhs[k] == composer_pairs(self.packages_dev@)[k - n1]);
                    assert(composer_pairs(self.packages_dev@)[k - n1] == (
                        self.packages_dev@[k - n1].name@,
                        self.packages_dev@[k - n1].version@,
                    ));
                }
            }
            assert(lhs =~= rhs);
        }
        r
    }
}

/// The packages of a Composer-style lock file: the deserialized document
/// must be a table whose `packages` and `packages-dev` entries are lists of
/// records each carrying `name` and `version` text fields; the output is
/// both lists' records, regular ones first.
pub open spec fn composer_result(s: Seq<char>) -> Result<Seq<(Seq<char>, Seq<char>)>, LockErrorV> {
    match json_doc(s) {
        Err(m) => Err(LockErrorV::MalformedDocument(m)),
        Ok(d) => match d {
            Doc::Table(es) => match tbl_get(es@, "packages"@) {
                Some(Doc::List(l1)) => match tbl_get(es@, "packages-dev"@) {
                    Some(Doc::List(l2)) => match recs_of_list(l1@) {
                        Some(r1) => match recs_of_list(l2@) {
                            Some(r2) => Ok(r1 + r2),
                            None => Err(shape_error()),
                        },
                        None => Err(shape_error()),
                    },
                    _ => Err(shape_error()),
                },
                _ => Err(shape_error()),
            },
            _ => Err(shape_error()),
        },
    }
}

/// Builds Composer records from (name, version) string pairs, in order.
fn pairs_to_composer(pairs: &Vec<(String, String)>) -> (r: Vec<ComposerPackage>)
    ensures
        r@.len() == pairs@.len(),
        forall|i: int|
            0 <= i < pairs@.len() ==> (#[trigger] r@[i]).name@ == pairs@[i].0@ && r@[i].version@
                == pairs@[i].1@,
{
    let n: usize = pairs.len();
    let mut r: Vec<ComposerPackage> = Vec::new();
    let mut i: usize = 0;
    while i < n
        invariant
            n == pairs@.len(),
            0 <= i <= n,
            r@.len() == i,
            forall|k: int|
                0 <= k < i ==> (#[trigger] r@[k]).name@ == pairs@[k].0@ && r@[k].version@
                    == pairs@[k].1@,
        decreases n - i,
    {
        let name = pairs[i].0.clone();
        let version = pairs[i].1.clone();
        r.push(ComposerPackage { name, version });
        i += 1;
    }
    r
}

/// Parses a Composer-style lock file.
pub fn parse_composer(contents: &str) -> (r: Result<Vec<Package>, LockError>)
    ensures
        result_matches(r, composer_result(contents@)),
{
    match crate::doc::parse_json_doc(contents) {
        Err(m) => Err(LockError::MalformedDocument(m)),
        Ok(d) => match &d {
            Doc::Table(es) => match crate::doc::doc_find(es, "packages") {
                Some(pi) => match &es[pi].1 {
                    Doc::List(l1) => match crate::doc::doc_find(es, "packages-dev") {
                        Some(qi) => match &es[qi].1 {
                            Doc::List(l2) => match crate::doc::list_records(l1) {
                                Some(p1) => match crate::doc::list_records(l2) {
                                    Some(p2) => {
                                        let lock = ComposerLock {
                                            packages: pairs_to_composer(&p1),
                                            packages_dev: pairs_to_composer(&p2),
                                        };
                                        let ghost g1 = lock.packages@;
                                        let ghost g2 = lock.packages_dev@;
                                        let out = lock.packages();
                                        proof {
                                            let r1 = recs_of_list(l1@)->Some_0;
                                            let r2 = recs_of_list(l2@)->Some_0;
                                            assert(composer_pairs(g1) =~= r1);
                                            assert(composer_pairs(g2) =~= r2);
                                            assert(composer_result(contents@) == Ok::<
                                                Seq<(Seq<char>, Seq<char>)>,
                                                LockErrorV,
                                            >(r1 + r2));
                                            assert forall|k: int|
                                                0 <= k < (r1 + r2).len() implies out@[k].name@
                                                == (#[trigger] (r1 + r2)[k]).0 && out@[k].version@
                                                == (r1 + r2)[k].1 by {
                                                assert(crate::pkg_pairs(out@)[k] == (
                                                    out@[k].name@,
                                                    out@[k].version@,
                                                ));
                                            }
                                        }
                                        Ok(out)
                                    },
                                    None => Err(crate::shape_error_exec()),
                                },
                                None => Err(crate::shape_error_exec()),
                            },
                            _ => Err(crate::shape_error_exec()),
                        },
                        None => Err(crate::shape_error_exec()),
                    },
                    _ => Err(crate::shape_error_exec()),
                },
                None => Err(crate::shape_error_exec()),
            },
            _ => Err(crate::shape_error_exec()),
        },
    }
}

} // verus!
