use crate::text::{
    find_ch, lemma_find_ch, lemma_find_ch_is, lemma_find_ch_not, lemma_lex_connex,
    lemma_lex_lt_neq, lemma_lex_trans, lex_lt, spec_lines, split_ch, split_char, split_lines,
};
use crate::{LockError, LockErrorV, Package};
use vstd::prelude::*;

verus! {

// ---------------------------------------------------------------------------
// The checksum-file model
// ---------------------------------------------------------------------------

/// The effective version of a checksum-file version field: the field
/// truncated at its first `/`, discarding any trailing qualifier.
pub open spec fn eff_version(v: Seq<char>) -> Seq<char> {
    let i = find_ch(v, '/');
    if i < 0 {
        v
    } else {
        v.take(i)
    }
}

/// What a single checksum-file line contributes: `None` for a blank line,
/// the module path and effective version for a well-shaped entry line, and
/// `None` for a malformed line (which the fold below rejects instead).
pub open spec fn line_entry(l: Seq<char>) -> Option<(Seq<char>, Seq<char>)> {
    if l.len() == 0 {
        None
    } else {
        let ws = split_ch(l, ' ');
        if ws.len() == 3 {
            Some((ws[0], eff_version(ws[1])))
        } else {
            None
        }
    }
}

/// Folds checksum-file lines, in order, into a module-path-to-version map:
/// blank lines are skipped, a line without exactly three space-separated
/// fields fails with that line, and an entry for a module path already seen
/// overwrites the stored version.
pub open spec fn go_fold(ls: Seq<Seq<char>>, m: Map<Seq<char>, Seq<char>>) -> Result<
    Map<Seq<char>, Seq<char>>,
    Seq<char>,
>
    decreases ls.len(),
{
    if ls.len() == 0 {
        Ok(m)
    } else {
        let l = ls[0];
        if l.len() == 0 {
            go_fold(ls.skip(1), m)
        } else {
            let ws = split_ch(l, ' ');
            if ws.len() != 3 {
                Err(l)
            } else {
                go_fold(ls.skip(1), m.insert(ws[0], eff_version(ws[1])))
            }
        }
    }
}

/// The module-path-to-version map of a whole checksum file, or the first
/// malformed line.
pub open spec fn go_sum_map(s: Seq<char>) -> Result<Map<Seq<char>, Seq<char>>, Seq<char>> {
    go_fold(spec_lines(s), Map::empty())
}

/// Package names strictly increase, so each name occurs at most once.
pub open spec fn pkgs_sorted(s: Seq<crate::Package>) -> bool {
    forall|i: int, j: int| 0 <= i < j < s.len() ==> lex_lt(#[trigger] s[i].name@, #[trigger] s[j].name@)
}

/// Some package in `s` carries the name `k`.
pub open spec fn pkgs_has(s: Seq<crate::Package>, k: Seq<char>) -> bool {
    exists|i: int| 0 <= i < s.len() && #[trigger] s[i].name@ == k
}

/// The packages of `s` are exactly the entries of the map `m`.
pub open spec fn pkgs_match(s: Seq<crate::Package>, m: Map<Seq<char>, Seq<char>>) -> bool {
    &&& forall|i: int|
        0 <= i < s.len() ==> m.contains_key(#[trigger] s[i].name@) && s[i].version@ == m[s[i].name@]
    &&& forall|k: Seq<char>| #[trigger] m.contains_key(k) ==> pkgs_has(s, k)
}

// ---------------------------------------------------------------------------
// The parser
// ---------------------------------------------------------------------------

/// Inserts a package into a name-sorted package list, overwriting the
/// version when the name is already present, as `m.insert` does.
fn insert_sorted(
    v: &mut Vec<Package>,
    name: &str,
    version: &str,
    Ghost(m): Ghost<Map<Seq<char>, Seq<char>>>,
)
    requires
        pkgs_sorted(old(v)@),
        pkgs_match(old(v)@, m),
    ensures
        pkgs_sorted(final(v)@),
        pkgs_match(final(v)@, m.insert(name@, version@)),
{
    let ghost s0 = v@;
    let n: usize = v.len();
    let mut p: usize = 0;
    while p < n && str_lex_lt_at(v, p, name)
        invariant
            v@ == s0,
            n == s0.len(),
            0 <= p <= n,
            forall|j: int| 0 <= j < p ==> lex_lt(#[trigger] s0[j].name@, name@),
        decreases n - p,
    {
        p += 1;
    }
    let pkg = Package::new(name, version);
    let ghost m1 = m.insert(name@, version@);
    if p < n && crate::text::str_eq(v[p].name.as_str(), name) {
        proof {
            assert forall|i: int| 0 <= i < s0.len() && i != p implies s0[i].name@ != name@ by {
                if i < p {
                    lemma_lex_lt_neq(s0[i].name@, name@);
                } else {
                    assert(lex_lt(s0[p as int].name@, s0[i].name@));
                    lemma_lex_lt_neq(name@, s0[i].name@);
                }
            }
        }
        v.remove(p);
        v.insert(p, pkg);
        proof {
            let s2 = v@;
            assert(s2 =~= s0.update(p as int, pkg));
            assert forall|i: int, j: int| 0 <= i < j < s2.len() implies lex_lt(
                #[trigger] s2[i].name@,
                #[trigger] s2[j].name@,
            ) by {
                assert(s2[i].name@ == s0[i].name@);
                assert(s2[j].name@ == s0[j].name@);
            }
            assert forall|k: Seq<char>| #[trigger] m1.contains_key(k) implies pkgs_has(s2, k) by {
                if k == name@ {
                    assert(s2[p as int].name@ == k);
                } else {
                    let i = choose|i: int| 0 <= i < s0.len() && #[trigger] s0[i].name@ == k;
                    assert(s2[i].name@ == k);
                }
            }
        }
    } else {
        proof {
            if p < n {
                lemma_lex_connex(name@, s0[p as int].name@);
                assert(lex_lt(name@, s0[p as int].name@));
            }
            assert forall|i: int| 0 <= i < s0.len() implies s0[i].name@ != name@ by {
                if i < p {
                    lemma_lex_lt_neq(s0[i].name@, name@);
                } else {
                    if p < i {
                        assert(lex_lt(s0[p as int].name@, s0[i].name@));
                        lemma_lex_trans(name@, s0[p as int].name@, s0[i].name@);
                    }
                    lemma_lex_lt_neq(name@, s0[i].name@);
                }
            }
        }
        v.insert(p, pkg);
        proof {
            let s2 = v@;
            assert(s2 == s0.insert(p as int, pkg));
            assert(forall|j: int| 0 <= j < p ==> s2[j] == s0[j]);
            assert(s2[p as int] == pkg);
            assert(forall|j: int| p < j < s2.len() ==> s2[j] == s0[j - 1]);
            assert forall|i: int, j: int| 0 <= i < j < s2.len() implies lex_lt(
                #[trigger] s2[i].name@,
                #[trigger] s2[j].name@,
            ) by {
                if j < p {
                    assert(s2[i].name@ == s0[i].name@);
                    assert(s2[j].name@ == s0[j].name@);
                    assert(lex_lt(s0[i].name@, s0[j].name@));
                } else if j == p {
                    assert(lex_lt(s2[i].name@, name@));
                } else if i == p && j > p {
                    assert(s2[j].name@ == s0[j - 1].name@);
                    if j - 1 == p {
                        assert(lex_lt(name@, s0[p as int].name@));
                    } else {
                        assert(lex_lt(s0[p as int].name@, s0[j - 1].name@));
                        lemma_lex_trans(name@, s0[p as int].name@, s0[j - 1].name@);
                    }
                } else if i < p && j > p {
                    assert(s2[j].name@ == s0[j - 1].name@);
                    if j - 1 == i {
                        assert(lex_lt(s0[i].name@, name@));
                    } else {
                        assert(lex_lt(s0[i].name@, s0[j - 1].name@));
                    }
                } else {
                    assert(s2[i].name@ == s0[i - 1].name@);
                    assert(s2[j].name@ == s0[j - 1].name@);
                    assert(lex_lt(s0[i - 1].name@, s0[j - 1].name@));
                }
            }
            assert forall|k: Seq<char>| #[trigger] m1.contains_key(k) implies pkgs_has(s2, k) by {
                if k == name@ {
                    assert(s2[p as int].name@ == k);
                } else {
                    let i = choose|i: int| 0 <= i < s0.len() && #[trigger] s0[i].name@ == k;
                    if i < p {
                        assert(s2[i].name@ == k);
                    } else {
                        assert(s2[i + 1].name@ == k);
                    }
                }
            }
            assert forall|i: int| 0 <= i < s2.len() implies m1.contains_key(#[trigger] s2[i].name@)
                && s2[i].version@ == m1[s2[i].name@] by {
                if i < p {
                    assert(s2[i] == s0[i]);
                } else if i == p {
                } else {
                    assert(s2[i] == s0[i - 1]);
                }
            }
        }
    }
}

/// Whether the package name at `i` is lexicographically below `name`.
fn str_lex_lt_at(v: &Vec<Package>, i: usize, name: &str) -> (r: bool)
    requires
        i < v@.len(),
    ensures
        r == lex_lt(v@[i as int].name@, name@),
{
    crate::text::str_lex_lt(v[i].name.as_str(), name)
}

/// The first piece of `v` before any `/`.
fn effective_version<'a>(v: &'a str) -> (r: &'a str)
    ensures
        r@ == eff_version(v@),
{
    let n: usize = v.unicode_len();
    let mut i: usize = 0;
    while i < n
        invariant
            n == v@.len(),
            0 <= i <= n,
            forall|j: int| 0 <= j < i ==> v@[j] != '/',
        decreases n - i,
    {
        if v.get_char(i) == '/' {
            proof {
                lemma_find_ch_is(v@, '/', i as int);
            }
            let r = v.substring_char(0, i);
            proof {
                assert(r@ =~= v@.take(i as int));
            }
            return r;
        }
        i += 1;
    }
    proof {
        lemma_find_ch_not(v@, '/');
    }
    v
}

/// Parses a Go checksum file: each non-blank line must hold exactly three
/// space-separated fields (module path, version, content hash); the version
/// is truncated at its first `/`; several entries for one module path
/// collapse to the last one seen; output is one package per module path, in
/// lexicographic name order.
pub fn parse_go_sum(contents: &str) -> (r: Result<Vec<Package>, LockError>)
    ensures
        match go_sum_map(contents@) {
            Ok(m) => r matches Ok(v) && pkgs_sorted(v@) && pkgs_match(v@, m),
            Err(l) => r matches Err(e) && e@ == LockErrorV::MalformedLine(l),
        },
{
    let lines = split_lines(contents);
    let ghost sl = spec_lines(contents@);
    let n: usize = lines.len();
    let mut v: Vec<Package> = Vec::new();
    let ghost mut m: Map<Seq<char>, Seq<char>> = Map::empty();
    let mut i: usize = 0;
    proof {
        assert(sl.skip(0) =~= sl);
    }
    while i < n
        invariant
            n == lines@.len(),
            n == sl.len(),
            forall|k: int| 0 <= k < n ==> lines@[k]@ == sl[k],
            0 <= i <= n,
            go_sum_map(contents@) == go_fold(sl.skip(i as int), m),
            pkgs_sorted(v@),
            pkgs_match(v@, m),
        decreases n - i,
    {
        let line: &str = lines[i];
        proof {
            assert(sl.skip(i as int)[0] == line@);
            assert(sl.skip(i as int).skip(1) =~= sl.skip(i + 1));
        }
        if line.unicode_len() == 0 {
            i += 1;
            continue;
        }
        let words = split_char(line, ' ');
        if words.len() != 3 {
            proof {
                assert(go_sum_map(contents@) == Err::<Map<Seq<char>, Seq<char>>, Seq<char>>(line@));
            }
            return Err(LockError::MalformedLine(line.to_owned()));
        }
        let name: &str = words[0];
        let version: &str = words[1];
        let eff = effective_version(version);
        proof {
            assert(name@ == split_ch(line@, ' ')[0]);
            assert(version@ == split_ch(line@, ' ')[1]);
        }
        insert_sorted(&mut v, name, eff, Ghost(m));
        proof {
            m = m.insert(name@, eff_version(version@));
        }
        i += 1;
    }
    proof {
        assert(sl.skip(n as int) =~= Seq::empty());
    }
    Ok(v)
}

// ---------------------------------------------------------------------------
// Stated laws of the checksum parser
// ---------------------------------------------------------------------------

/// The effective version taken by the last entry line for module path `k`,
/// searching from the back: a later entry shadows every earlier one.
pub open spec fn last_version(ls: Seq<Seq<char>>, k: Seq<char>) -> Option<Seq<char>>
    decreases ls.len(),
{
    if ls.len() == 0 {
        None
    } else {
        let rest = last_version(ls.skip(1), k);
        if rest is Some {
            rest
        } else {
            match line_entry(ls[0]) {
                Some(e) => if e.0 == k {
                    Some(e.1)
                } else {
                    None
                },
                None => None,
            }
        }
    }
}

proof fn lemma_go_fold_last(ls: Seq<Seq<char>>, m: Map<Seq<char>, Seq<char>>, k: Seq<char>)
    requires
        go_fold(ls, m) is Ok,
    ensures
        match last_version(ls, k) {
            Some(ver) => go_fold(ls, m)->Ok_0.contains_key(k) && go_fold(ls, m)->Ok_0[k] == ver,
            None => go_fold(ls, m)->Ok_0.contains_key(k) == m.contains_key(k) && (m.contains_key(k)
                ==> go_fold(ls, m)->Ok_0[k] == m[k]),
        },
    decreases ls.len(),
{
    if ls.len() == 0 {
    } else {
        let l = ls[0];
        if l.len() == 0 {
            lemma_go_fold_last(ls.skip(1), m, k);
        } else {
            let ws = split_ch(l, ' ');
            lemma_go_fold_last(ls.skip(1), m.insert(ws[0], eff_version(ws[1])), k);
        }
    }
}

/// Checksum deduplication: in a well-formed checksum file, the module path
/// `k` is mapped exactly when some entry line names it, and then to the
/// effective version of the last such line in file order.
pub proof fn lemma_checksum_last_wins(s: Seq<char>, k: Seq<char>)
    requires
        go_sum_map(s) is Ok,
    ensures
        match last_version(spec_lines(s), k) {
            Some(ver) => go_sum_map(s)->Ok_0.contains_key(k) && go_sum_map(s)->Ok_0[k] == ver,
            None => !go_sum_map(s)->Ok_0.contains_key(k),
        },
{
    lemma_go_fold_last(spec_lines(s), Map::empty(), k);
}

/// Checksum version truncation: the effective version is the prefix of the
/// version field up to (and not including) its first `/`, and is the whole
/// field when no `/` occurs.
pub proof fn lemma_effective_version(v: Seq<char>)
    ensures
        eff_version(v).len() <= v.len(),
        forall|j: int| 0 <= j < eff_version(v).len() ==> v[j] == eff_version(v)[j] && v[j] != '/',
        eff_version(v).len() < v.len() ==> v[eff_version(v).len() as int] == '/',
        (forall|j: int| 0 <= j < v.len() ==> v[j] != '/') ==> eff_version(v) == v,
{
    lemma_find_ch(v, '/');
    if find_ch(v, '/') >= 0 {
    } else {
        lemma_find_ch_not(v, '/');
    }
}

} // verus!
