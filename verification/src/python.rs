use crate::text::{find_ch, spec_lines, split_lines};
use crate::{
    result_matches, toml_lock_result, LockError, LockErrorV, Package,
};
use vstd::prelude::*;

verus! {

// ---------------------------------------------------------------------------
// The Poetry-style TOML adapter
// ---------------------------------------------------------------------------

/// One package record of a Poetry-style lock file.
pub struct PythonPackage {
    pub name: String,
    pub version: String,
}

/// A Poetry-style lock file: the same TOML-table shape as a Cargo-style
/// lock, read into its own record type.
pub struct PoetryLock {
    pub packages: Vec<PythonPackage>,
}

impl PoetryLock {
    /// One package per record, in file order.
    pub fn packages(self) -> (r: Vec<Package>)
        ensures
            r@.len() == self.packages@.len(),
            forall|i: int|
                0 <= i < self.packages@.len() ==> (#[trigger] r@[i]).name@
                    == self.packages@[i].name@ && r@[i].version@ == self.packages@[i].version@,
    {
        let n: usize = self.packages.len();
        let mut r: Vec<Package> = Vec::new();
        let mut i: usize = 0;
        while i < n
            invariant
                n == self.packages@.len(),
                0 <= i <= n,
                r@.len() == i,
                forall|k: int|
                    0 <= k < i ==> (#[trigger] r@[k]).name@ == self.packages@[k].name@
                        && r@[k].version@ == self.packages@[k].version@,
            decreases n - i,
        {
            r.push(
                Package::new(self.packages[i].name.as_str(), self.packages[i].version.as_str()),
            );
            i += 1;
        }
        r
    }
}

/// Parses a Poetry-style lock file; the format is the TOML-table shape.
pub fn parse_poetry_lock(contents: &str) -> (r: Result<Vec<Package>, LockError>)
    ensures
        result_matches(r, toml_lock_result(contents@)),
{
    match crate::doc::parse_toml_doc(contents) {
        Err(m) => Err(LockError::MalformedDocument(m)),
        Ok(d) => match crate::doc::package_list(&d) {
            None => Err(crate::shape_error_exec()),
            Some(pairs) => {
                let n: usize = pairs.len();
                let mut records: Vec<PythonPackage> = Vec::new();
                let mut i: usize = 0;
                while i < n
                    invariant
                        n == pairs@.len(),
                        0 <= i <= n,
                        records@.len() == i,
                        forall|k: int|
                            0 <= k < i ==> (#[trigger] records@[k]).name@ == pairs@[k].0@
                                && records@[k].version@ == pairs@[k].1@,
                    decreases n - i,
                {
                    let name = pairs[i].0.clone();
                    let version = pairs[i].1.clone();
                    records.push(PythonPackage { name, version });
                    i += 1;
                }
                let lock = PoetryLock { packages: records };
                Ok(lock.packages())
            },
        },
    }
}

// ---------------------------------------------------------------------------
// The pinned-listing adapter
// ---------------------------------------------------------------------------

/// What one line of a pinned-dependency listing contributes: nothing for a
/// blank or comment line, the (name, version) pair around the first `==`
/// for a pin, and a failure for any other line.
pub open spec fn req_line_entry(l: Seq<char>) -> Result<Option<(Seq<char>, Seq<char>)>, ()> {
    if l.len() == 0 || l[0] == '#' {
        Ok(None)
    } else {
        let i = find_ch(l, '=');
        if 0 <= i && i + 1 < l.len() && l[i + 1] == '=' {
            Ok(Some((l.take(i), l.skip(i + 2))))
        } else {
            Err(())
        }
    }
}

/// Folds the lines of a pinned-dependency listing, in order, into (name,
/// version) pairs, failing with the first line that is neither blank, a
/// comment, nor a pin.
pub open spec fn req_fold(ls: Seq<Seq<char>>) -> Result<Seq<(Seq<char>, Seq<char>)>, Seq<char>>
    decreases ls.len(),
{
    if ls.len() == 0 {
        Ok(Seq::empty())
    } else {
        match req_line_entry(ls[0]) {
            Err(_) => Err(ls[0]),
            Ok(emit) => match req_fold(ls.skip(1)) {
                Err(e) => Err(e),
                Ok(rest) => Ok(
                    match emit {
                        Some(p) => seq![p] + rest,
                        None => rest,
                    },
                ),
            },
        }
    }
}

/// The pairs of a whole pinned-dependency listing, or its first bad line.
pub open spec fn requirements_result(s: Seq<char>) -> Result<
    Seq<(Seq<char>, Seq<char>)>,
    LockErrorV,
> {
    match req_fold(spec_lines(s)) {
        Ok(ps) => Ok(ps),
        Err(l) => Err(LockErrorV::MalformedLine(l)),
    }
}

/// Parses a plain pinned-dependency listing: one `name==version` pin per
/// line, with blank lines and `#` comment lines skipped.
pub fn parse_requirements_txt(contents: &str) -> (r: Result<Vec<Package>, LockError>)
    ensures
        result_matches(r, requirements_result(contents@)),
{
    let lines = split_lines(contents);
    let ghost sl = spec_lines(contents@);
    let n: usize = lines.len();
    let mut res: Vec<Package> = Vec::new();
    let mut i: usize = 0;
    proof {
        assert(sl.skip(0) =~= sl);
    }
    while i < n
        invariant
            sl == spec_lines(contents@),
            n == lines@.len(),
            n == sl.len(),
            forall|k: int| 0 <= k < n ==> lines@[k]@ == sl[k],
            0 <= i <= n,
            match req_fold(sl.skip(i as int)) {
                Ok(rest) => req_fold(sl) matches Ok(all) && all.len() == res@.len() + rest.len()
                    && (forall|k: int|
                    0 <= k < res@.len() ==> (#[trigger] res@[k]).name@ == all[k].0
                        && res@[k].version@ == all[k].1) && (forall|k: int|
                    0 <= k < rest.len() ==> #[trigger] rest[k] == all[res@.len() + k]),
                Err(e) => req_fold(sl) matches Err(l) && l == e,
            },
        decreases n - i,
    {
        let line: &str = lines[i];
        proof {
            assert(sl.skip(i as int)[0] == sl[i as int]);
            assert(sl.skip(i as int).skip(1) =~= sl.skip(i + 1));
        }
        let m: usize = line.unicode_len();
        if m == 0 || line.get_char(0) == '#' {
            i += 1;
            continue;
        }
        let pin: Option<Package> = match crate::text::find_char_at(line, '=') {
            Some(j) => {
                if j + 1 < m && line.get_char(j + 1) == '=' {
                    let name = line.substring_char(0, j);
                    let version = line.substring_char(j + 2, m);
                    proof {
                        assert(name@ =~= line@.take(j as int));
                        assert(version@ =~= line@.skip(j + 2));
                    }
                    Some(Package::new(name, version))
                } else {
                    None
                }
            },
            None => None,
        };
        match pin {
            Some(pkg) => {
                proof {
                    let p0 = (pkg.name@, pkg.version@);
                    assert(req_line_entry(line@) == Ok::<Option<(Seq<char>, Seq<char>)>, ()>(
                        Some(p0),
                    ));
                    let tail1 = req_fold(sl.skip(i + 1));
                    if tail1 is Ok {
                        let rest1 = tail1->Ok_0;
                        let rest0 = seq![p0] + rest1;
                        assert(req_fold(sl.skip(i as int)) == Ok::<
                            Seq<(Seq<char>, Seq<char>)>,
                            Seq<char>,
                        >(rest0));
                        let all = req_fold(sl)->Ok_0;
                        assert(rest0[0] == p0);
                        assert(all[res@.len() as int] == p0);
                        assert forall|k: int| 0 <= k < rest1.len() implies #[trigger] rest1[k]
                            == all[res@.len() + 1 + k] by {
                            assert(rest0[k + 1] == rest1[k]);
                            assert(rest0[k + 1] == all[res@.len() + (k + 1)]);
                        }
                    }
                }
                res.push(pkg);
            },
            None => {
                proof {
                    assert(req_line_entry(line@) is Err);
                    assert(req_fold(sl.skip(i as int)) == Err::<
                        Seq<(Seq<char>, Seq<char>)>,
                        Seq<char>,
                    >(line@));
                }
                return Err(LockError::MalformedLine(line.to_owned()));
            },
        }
        i += 1;
    }
    proof {
        assert(sl.skip(n as int) =~= Seq::<Seq<char>>::empty());
    }
    Ok(res)
}

} // verus!
