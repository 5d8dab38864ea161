use crate::doc::{metas_of_table, tbl_get, yaml_doc, Doc};
use crate::{
    meta_pairs, result_matches, shape_error, LockError, LockErrorV, Package, PackageMetadata,
};
use vstd::prelude::*;

verus! {

// ---------------------------------------------------------------------------
// The Crystal-style YAML adapter
// ---------------------------------------------------------------------------

/// A Crystal-style lock file: a `shards` mapping from package name to a
/// metadata record carrying the version.
pub struct ShardLock {
    pub shards: Vec<(String, PackageMetadata)>,
}

impl ShardLock {
    /// One package per shard entry, in entry order.
    pub fn packages(self) -> (r: Vec<Package>)
        ensures
            crate::pkg_pairs(r@) == meta_pairs(self.shards@),
    {
        let n: usize = self.shards.len();
        let mut r: Vec<Package> = Vec::new();
        let mut i: usize = 0;
        while i < n
            invariant
                n == self.shards@.len(),
                0 <= i <= n,
                r@.len() == i,
                forall|k: int|
                    0 <= k < i ==> (#[trigger] r@[k]).name@ == self.shards@[k].0@ && r@[k].version@
                        == self.shards@[k].1.version@,
            decreases n - i,
        {
            r.push(Package::new(self.shards[i].0.as_str(), self.shards[i].1.version.as_str()));
            i += 1;
        }
        proof {
            assert(crate::pkg_pairs(r@) =~= meta_pairs(self.shards@));
        }
        r
    }
}

/// The packages of a Crystal-style lock file: the deserialized document
/// must be a mapping whose `shards` entry maps each package name to a
/// record carrying a `version` text field.
pub open spec fn shard_result(s: Seq<char>) -> Result<Seq<(Seq<char>, Seq<char>)>, LockErrorV> {
    match yaml_doc(s) {
        Err(m) => Err(LockErrorV::MalformedDocument(m)),
        Ok(d) => match d {
            Doc::Table(es) => match tbl_get(es@, "shards"@) {
                Some(Doc::Table(ses)) => match metas_of_table(ses@) {
                    Some(ms) => Ok(ms),
                    None => Err(shape_error()),
                },
                _ => Err(shape_error()),
            },
            _ => Err(shape_error()),
        },
    }
}

/// Parses a Crystal-style lock file.
pub fn parse_shard_lock(contents: &str) -> (r: Result<Vec<Package>, LockError>)
    ensures
        result_matches(r, shard_result(contents@)),
{
    match crate::doc::parse_yaml_doc(contents) {
        Err(m) => Err(LockError::MalformedDocument(m)),
        Ok(d) => match &d {
            Doc::Table(es) => match crate::doc::doc_find(es, "shards") {
                Some(pi) => match &es[pi].1 {
                    Doc::Table(ses) => match crate::doc::table_versions(ses) {
                        Some(pairs) => {
                            let lock = ShardLock { shards: crate::pairs_to_metas(&pairs) };
                            let ghost gs = lock.shards@;
                            let out = lock.packages();
                            proof {
                                let ms = metas_of_table(ses@)->Some_0;
                                assert(meta_pairs(gs) =~= ms);
                                assert forall|k: int| 0 <= k < ms.len() implies out@[k].name@ == (
                                #[trigger] ms[k]).0 && out@[k].version@ == ms[k].1 by {
                                    assert(crate::pkg_pairs(out@)[k] == (
                                        out@[k].name@,
                                        out@[k].version@,
                                    ));
                                }
                            }
                            Ok(out)
                        },
                        None => Err(crate::shape_error_exec()),
                    },
                    _ => Err(crate::shape_error_exec()),
                },
                None => Err(crate::shape_error_exec()),
            },
            _ => Err(crate::shape_error_exec()),
        },
    }
}

} // verus!
