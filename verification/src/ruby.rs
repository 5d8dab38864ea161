use crate::text::{
    find_ch, has_prefix, lemma_find_ch_is, lemma_find_ch_not, spec_lines, split_lines,
};
use crate::{pkg_pairs, result_matches, LockError, LockErrorV, Package};
use vstd::prelude::*;

verus! {

// ---------------------------------------------------------------------------
// The Bundler-style block-parser model
// ---------------------------------------------------------------------------

/// The parser's position in the file: inside the recognized top-level
/// section, and inside that section's spec block.
pub struct GemSt {
    pub in_gem: bool,
    pub in_spec: bool,
}

pub open spec fn gem_init() -> GemSt {
    GemSt { in_gem: false, in_spec: false }
}

/// The shape of one spec line, already stripped of its record indentation:
/// a name, one space, and a version wrapped in a single pair of parentheses
/// spanning the whole remainder.
pub open spec fn spec_parse_line(l: Seq<char>) -> Result<(Seq<char>, Seq<char>), ()> {
    let i = find_ch(l, ' ');
    if i < 0 {
        Err(())
    } else {
        let rest = l.skip(i + 1);
        if rest.len() >= 2 && rest[0] == '(' && rest[rest.len() - 1] == ')' {
            Ok((l.take(i), rest.subrange(1, rest.len() - 1)))
        } else {
            Err(())
        }
    }
}

/// One transition of the block parser: the next state, and either the
/// package emitted by this line (if any) or the malformed spec line.
pub open spec fn gem_step(st: GemSt, l: Seq<char>) -> (GemSt, Result<
    Option<(Seq<char>, Seq<char>)>,
    Seq<char>,
>) {
    if has_prefix(l, "GEM"@) {
        (GemSt { in_gem: true, in_spec: st.in_spec }, Ok(None))
    } else {
        let st1 = if !(l.len() > 0 && l[0] == ' ') {
            GemSt { in_gem: false, in_spec: false }
        } else {
            st
        };
        if st1.in_gem {
            if l == "  specs:"@ {
                (GemSt { in_gem: true, in_spec: true }, Ok(None))
            } else if st1.in_spec && has_prefix(l, "    "@) {
                if has_prefix(l, "      "@) {
                    (st1, Ok(None))
                } else {
                    match spec_parse_line(l.skip(4)) {
                        Ok(p) => (st1, Ok(Some(p))),
                        Err(_) => (st1, Err(l.skip(4))),
                    }
                }
            } else {
                (GemSt { in_gem: st1.in_gem, in_spec: false }, Ok(None))
            }
        } else {
            (st1, Ok(None))
        }
    }
}

/// Runs the block parser over a line sequence from a given state: the
/// packages of all qualifying spec lines in file order, or the first
/// malformed spec line.
pub open spec fn gem_run(st: GemSt, ls: Seq<Seq<char>>) -> Result<
    Seq<(Seq<char>, Seq<char>)>,
    Seq<char>,
>
    decreases ls.len(),
{
    if ls.len() == 0 {
        Ok(Seq::empty())
    } else {
        let step = gem_step(st, ls[0]);
        match step.1 {
            Err(e) => Err(e),
            Ok(emit) => match gem_run(step.0, ls.skip(1)) {
                Err(e) => Err(e),
                Ok(rest) => Ok(
                    match emit {
                        Some(p) => seq![p] + rest,
                        None => rest,
                    },
                ),
            },
        }
    }
}

/// The packages of a whole Bundler-style lock file, or the first malformed
/// spec line.
pub open spec fn gem_packages(s: Seq<char>) -> Result<Seq<(Seq<char>, Seq<char>)>, Seq<char>> {
    gem_run(gem_init(), spec_lines(s))
}

/// The result of the Bundler-style adapter: its packages, or its first
/// malformed spec line as a failure.
pub open spec fn gem_result(s: Seq<char>) -> Result<Seq<(Seq<char>, Seq<char>)>, LockErrorV> {
    match gem_packages(s) {
        Ok(ps) => Ok(ps),
        Err(l) => Err(LockErrorV::MalformedSpecLine(l)),
    }
}

// ---------------------------------------------------------------------------
// The parser
// ---------------------------------------------------------------------------

/// Parses one spec line, already stripped of its record indentation, of the
/// shape `name (version)`.
pub fn parse_line(line: &str) -> (r: Result<Package, LockError>)
    ensures
        match spec_parse_line(line@) {
            Ok(p) => r matches Ok(pkg) && pkg.name@ == p.0 && pkg.version@ == p.1,
            Err(_) => r matches Err(e) && e@ == LockErrorV::MalformedSpecLine(line@),
        },
{
    let n: usize = line.unicode_len();
    let mut i: usize = 0;
    while i < n
        invariant
            n == line@.len(),
            0 <= i <= n,
            forall|j: int| 0 <= j < i ==> line@[j] != ' ',
        decreases n - i,
    {
        if line.get_char(i) == ' ' {
            proof {
                lemma_find_ch_is(line@, ' ', i as int);
            }
            let name = line.substring_char(0, i);
            let rest = line.substring_char(i + 1, n);
            proof {
                assert(name@ =~= line@.take(i as int));
                assert(rest@ =~= line@.skip(i + 1));
            }
            let m: usize = n - i - 1;
            if m >= 2 && rest.get_char(0) == '(' && rest.get_char(m - 1) == ')' {
                let version = rest.substring_char(1, m - 1);
                return Ok(Package::new(name, version));
            } else {
                return Err(LockError::MalformedSpecLine(line.to_owned()));
            }
        }
        i += 1;
    }
    proof {
        lemma_find_ch_not(line@, ' ');
    }
    Err(LockError::MalformedSpecLine(line.to_owned()))
}

/// Parses a Bundler-style lock file with the block state machine of
/// [`gem_step`]: only spec lines inside the `specs:` block of the
/// recognized top-level section become packages, in file order, with
/// deeper-indented dependency annotations skipped.
pub fn parse_gemfile_lock(contents: &str) -> (r: Result<Vec<Package>, LockError>)
    ensures
        result_matches(r, gem_result(contents@)),
{
    let lines = split_lines(contents);
    let ghost sl = spec_lines(contents@);
    let n: usize = lines.len();
    let mut res: Vec<Package> = Vec::new();
    let mut in_gem: bool = false;
    let mut in_spec: bool = false;
    let mut i: usize = 0;
    proof {
        assert(sl.skip(0) =~= sl);
        assert((GemSt { in_gem: in_gem, in_spec: in_spec }) == gem_init());
    }
    while i < n
        invariant
            n == lines@.len(),
            n == sl.len(),
            forall|k: int| 0 <= k < n ==> lines@[k]@ == sl[k],
            0 <= i <= n,
            match gem_run((GemSt { in_gem: in_gem, in_spec: in_spec }), sl.skip(i as int)) {
                Ok(rest) => gem_packages(contents@) matches Ok(all) && all == pkg_pairs(res@)
                    + rest,
                Err(e) => gem_packages(contents@) matches Err(l) && l == e,
            },
        decreases n - i,
    {
        let ghost st0 = GemSt { in_gem: in_gem, in_spec: in_spec };
        let line: &str = lines[i];
        proof {
            assert(sl.skip(i as int)[0] == sl[i as int]);
            assert(sl.skip(i as int).skip(1) =~= sl.skip(i + 1));
        }
        if crate::text::str_starts_with(line, "GEM") {
            in_gem = true;
            proof {
                assert(gem_step(st0, line@) == (
                    GemSt { in_gem: true, in_spec: in_spec },
                    Ok::<Option<(Seq<char>, Seq<char>)>, Seq<char>>(None),
                ));
            }
            i += 1;
            continue;
        }
        if !(line.unicode_len() > 0 && line.get_char(0) == ' ') {
            in_gem = false;
            in_spec = false;
        }
        let ghost st1 = GemSt { in_gem: in_gem, in_spec: in_spec };
        if in_gem {
            if crate::text::str_eq(line, "  specs:") {
                in_spec = true;
                proof {
                    assert(gem_step(st0, line@) == (
                        GemSt { in_gem: true, in_spec: true },
                        Ok::<Option<(Seq<char>, Seq<char>)>, Seq<char>>(None),
                    ));
                }
                i += 1;
                continue;
            }
            if in_spec && crate::text::str_starts_with(line, "    ") {
                if crate::text::str_starts_with(line, "      ") {
                    proof {
                        assert(gem_step(st0, line@) == (
                            st1,
                            Ok::<Option<(Seq<char>, Seq<char>)>, Seq<char>>(None),
                        ));
                    }
                    i += 1;
                    continue;
                }
                proof {
                    reveal_strlit("    ");
                }
                let tail = line.substring_char(4, line.unicode_len());
                proof {
                    assert(tail@ =~= line@.skip(4));
                }
                match parse_line(tail) {
                    Ok(pkg) => {
                        let ghost p = spec_parse_line(line@.skip(4))->Ok_0;
                        proof {
                            assert(gem_step(st0, line@) == (
                                st1,
                                Ok::<Option<(Seq<char>, Seq<char>)>, Seq<char>>(Some(p)),
                            ));
                        }
                        let ghost old_res = res@;
                        res.push(pkg);
                        proof {
                            assert(pkg_pairs(res@) =~= pkg_pairs(old_res) + seq![p]);
                            let rest = gem_run(st1, sl.skip(i + 1));
                            if rest is Ok {
                                assert(pkg_pairs(old_res) + (seq![p] + rest->Ok_0) =~= pkg_pairs(
                                    res@,
                                ) + rest->Ok_0);
                            }
                        }
                    },
                    Err(e) => {
                        proof {
                            assert(gem_step(st0, line@) == (
                                st1,
                                Err::<Option<(Seq<char>, Seq<char>)>, Seq<char>>(line@.skip(4)),
                            ));
                        }
                        return Err(e);
                    },
                }
            } else {
                in_spec = false;
                proof {
                    assert(gem_step(st0, line@) == (
                        GemSt { in_gem: in_gem, in_spec: false },
                        Ok::<Option<(Seq<char>, Seq<char>)>, Seq<char>>(None),
                    ));
                }
            }
        } else {
            proof {
                assert(gem_step(st0, line@) == (
                    st1,
                    Ok::<Option<(Seq<char>, Seq<char>)>, Seq<char>>(None),
                ));
            }
        }
        i += 1;
    }
    proof {
        assert(sl.skip(n as int) =~= Seq::empty());
        assert(pkg_pairs(res@) + Seq::<(Seq<char>, Seq<char>)>::empty() =~= pkg_pairs(res@));
        if gem_packages(contents@) is Ok {
            let all = gem_packages(contents@)->Ok_0;
            assert forall|k: int| 0 <= k < all.len() implies res@[k].name@ == (
            #[trigger] all[k]).0 && res@[k].version@ == all[k].1 by {
                assert(pkg_pairs(res@)[k] == (res@[k].name@, res@[k].version@));
            }
        }
    }
    Ok(res)
}

// ---------------------------------------------------------------------------
// Stated laws of the block parser
// ---------------------------------------------------------------------------

/// Section isolation: while the recognized top-level header has not been
/// seen, no line produces a package, whatever its indentation shape.
pub proof fn lemma_no_header_no_packages(st: GemSt, ls: Seq<Seq<char>>)
    requires
        !st.in_gem,
        forall|i: int| 0 <= i < ls.len() ==> !has_prefix(#[trigger] ls[i], "GEM"@),
    ensures
        gem_run(st, ls) == Ok::<Seq<(Seq<char>, Seq<char>)>, Seq<char>>(Seq::empty()),
    decreases ls.len(),
{
    if ls.len() == 0 {
    } else {
        let step = gem_step(st, ls[0]);
        assert(!step.0.in_gem);
        assert(step.1 == Ok::<Option<(Seq<char>, Seq<char>)>, Seq<char>>(None));
        assert(forall|i: int|
            0 <= i < ls.skip(1).len() ==> !has_prefix(#[trigger] ls.skip(1)[i], "GEM"@));
        lemma_no_header_no_packages(step.0, ls.skip(1));
    }
}

/// A line at the nested-dependency depth leaves the state unchanged and
/// emits nothing.
pub proof fn lemma_deep_line_skipped(st: GemSt, l: Seq<char>)
    requires
        has_prefix(l, "      "@),
    ensures
        gem_step(st, l) == (st, Ok::<Option<(Seq<char>, Seq<char>)>, Seq<char>>(None)),
{
    reveal_strlit("      ");
    reveal_strlit("    ");
    reveal_strlit("GEM");
    reveal_strlit("  specs:");
    assert(l.take(6) == "      "@);
    assert forall|k: int| 0 <= k < 6 implies l[k] == ' ' by {
        assert(l.take(6)[k] == l[k]);
        assert("      "@[k] == ' ');
    }
    assert(!has_prefix(l, "GEM"@)) by {
        if has_prefix(l, "GEM"@) {
            assert(l.take(3)[0] == 'G');
        }
    }
    assert(l != "  specs:"@) by {
        if l == "  specs:"@ {
            assert(l[2] == 's');
        }
    }
    assert(has_prefix(l, "    "@)) by {
        assert(l.take(4) =~= "    "@);
    }
}

/// Nested-dependency skipping: inserting a line at the nested-dependency
/// depth anywhere in the input changes nothing about the packages produced.
pub proof fn lemma_nested_lines_contribute_nothing(
    st: GemSt,
    ls1: Seq<Seq<char>>,
    deep: Seq<char>,
    ls2: Seq<Seq<char>>,
)
    requires
        has_prefix(deep, "      "@),
    ensures
        gem_run(st, ls1 + seq![deep] + ls2) == gem_run(st, ls1 + ls2),
    decreases ls1.len(),
{
    if ls1.len() == 0 {
        lemma_deep_line_skipped(st, deep);
        assert((ls1 + seq![deep] + ls2)[0] == deep);
        assert((ls1 + seq![deep] + ls2).skip(1) =~= ls2);
        assert(ls1 + ls2 =~= ls2);
    } else {
        let whole = ls1 + seq![deep] + ls2;
        let short = ls1 + ls2;
        assert(whole[0] == ls1[0]);
        assert(short[0] == ls1[0]);
        let step = gem_step(st, ls1[0]);
        assert(whole.skip(1) =~= ls1.skip(1) + seq![deep] + ls2);
        assert(short.skip(1) =~= ls1.skip(1) + ls2);
        lemma_nested_lines_contribute_nothing(step.0, ls1.skip(1), deep, ls2);
    }
}

} // verus!
