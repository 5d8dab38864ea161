use vstd::prelude::*;

verus! {

// ---------------------------------------------------------------------------
// Searching for a character
// ---------------------------------------------------------------------------

/// Index of the first occurrence of `c` in `s`, or -1 if `c` does not occur.
pub open spec fn find_ch(s: Seq<char>, c: char) -> int
    decreases s.len(),
{
    if s.len() == 0 {
        -1
    } else if s[0] == c {
        0
    } else {
        let r = find_ch(s.skip(1), c);
        if r < 0 {
            -1
        } else {
            r + 1
        }
    }
}

/// What `find_ch` returns: either -1 and `c` does not occur, or the least
/// index holding `c`.
pub proof fn lemma_find_ch(s: Seq<char>, c: char)
    ensures
        find_ch(s, c) == -1 ==> (forall|j: int| 0 <= j < s.len() ==> s[j] != c),
        find_ch(s, c) != -1 ==> 0 <= find_ch(s, c) < s.len() && s[find_ch(s, c)] == c && (forall|
            j: int,
        |
            0 <= j < find_ch(s, c) ==> s[j] != c),
    decreases s.len(),
{
    if s.len() == 0 {
    } else if s[0] == c {
    } else {
        let t = s.skip(1);
        lemma_find_ch(t, c);
        assert(forall|j: int| 0 <= j < t.len() ==> t[j] == s[j + 1]);
        if find_ch(t, c) == -1 {
            assert forall|j: int| 0 <= j < s.len() implies s[j] != c by {
                if j > 0 {
                    assert(t[j - 1] == s[j]);
                }
            }
        } else {
            let r = find_ch(t, c);
            assert(find_ch(s, c) == r + 1);
            assert(s[r + 1] == t[r]);
            assert forall|j: int| 0 <= j < r + 1 implies s[j] != c by {
                if j > 0 {
                    assert(t[j - 1] == s[j]);
                }
            }
        }
    }
}

/// `find_ch` returns exactly the least index holding `c`.
pub proof fn lemma_find_ch_is(s: Seq<char>, c: char, k: int)
    requires
        0 <= k < s.len(),
        s[k] == c,
        forall|j: int| 0 <= j < k ==> s[j] != c,
    ensures
        find_ch(s, c) == k,
    decreases s.len(),
{
    if k == 0 {
    } else {
        let t = s.skip(1);
        assert(forall|j: int| 0 <= j < t.len() ==> t[j] == s[j + 1]);
        assert(s[0] != c);
        assert(t[k - 1] == c);
        assert forall|j: int| 0 <= j < k - 1 implies t[j] != c by {
            assert(t[j] == s[j + 1]);
        }
        lemma_find_ch_is(t, c, k - 1);
    }
}

/// When `c` occurs nowhere in `s`, `find_ch` reports -1.
pub proof fn lemma_find_ch_not(s: Seq<char>, c: char)
    requires
        forall|j: int| 0 <= j < s.len() ==> s[j] != c,
    ensures
        find_ch(s, c) == -1,
{
    lemma_find_ch(s, c);
}

// ---------------------------------------------------------------------------
// Splitting on a character
// ---------------------------------------------------------------------------

#[via_fn]
proof fn split_ch_decreases(s: Seq<char>, c: char) {
    lemma_find_ch(s, c);
}

/// The pieces of `s` between occurrences of `c`, in order.  Mirrors
/// `str::split`: an empty input gives one empty piece, and adjacent
/// separators give empty pieces between them.
pub open spec fn split_ch(s: Seq<char>, c: char) -> Seq<Seq<char>>
    decreases s.len(),
        via split_ch_decreases
{
    let i = find_ch(s, c);
    if i < 0 {
        seq![s]
    } else {
        seq![s.take(i)] + split_ch(s.skip(i + 1), c)
    }
}

/// One step of splitting: the piece before the first separator, then the
/// pieces of the remainder.
pub proof fn lemma_split_ch_step(s: Seq<char>, c: char, k: int)
    requires
        0 <= k < s.len(),
        s[k] == c,
        forall|j: int| 0 <= j < k ==> s[j] != c,
    ensures
        split_ch(s, c) == seq![s.take(k)] + split_ch(s.skip(k + 1), c),
{
    lemma_find_ch_is(s, c, k);
}

/// When the separator does not occur, the input is the only piece.
pub proof fn lemma_split_ch_whole(s: Seq<char>, c: char)
    requires
        forall|j: int| 0 <= j < s.len() ==> s[j] != c,
    ensures
        split_ch(s, c) == seq![s],
{
    lemma_find_ch_not(s, c);
}

// ---------------------------------------------------------------------------
// Lines
// ---------------------------------------------------------------------------

/// A line with a trailing carriage return removed, as `str::lines` strips it.
pub open spec fn strip_cr(l: Seq<char>) -> Seq<char> {
    if l.len() > 0 && l[l.len() - 1] == '\r' {
        l.take(l.len() - 1)
    } else {
        l
    }
}

/// The lines of `s`, as `str::lines` yields them: pieces between newline
/// characters, one trailing newline producing no final empty line, and a
/// trailing carriage return stripped from each line.
pub open spec fn spec_lines(s: Seq<char>) -> Seq<Seq<char>> {
    if s.len() == 0 {
        Seq::empty()
    } else if s[s.len() - 1] == '\n' {
        split_ch(s.take(s.len() - 1), '\n').map_values(|l: Seq<char>| strip_cr(l))
    } else {
        split_ch(s, '\n').map_values(|l: Seq<char>| strip_cr(l))
    }
}

// ---------------------------------------------------------------------------
// Prefix, suffix, substring
// ---------------------------------------------------------------------------

pub open spec fn has_prefix(s: Seq<char>, p: Seq<char>) -> bool {
    p.len() <= s.len() && s.take(p.len() as int) == p
}

pub open spec fn has_suffix(s: Seq<char>, p: Seq<char>) -> bool {
    p.len() <= s.len() && s.skip(s.len() - p.len()) == p
}

pub open spec fn has_substr(s: Seq<char>, p: Seq<char>) -> bool {
    exists|i: int| 0 <= i && i + p.len() <= s.len() && #[trigger] s.subrange(i, i + p.len()) == p
}

// ---------------------------------------------------------------------------
// Lexicographic order on character sequences
// ---------------------------------------------------------------------------

/// Strict lexicographic order by character code; a proper prefix comes first.
pub open spec fn lex_lt(a: Seq<char>, b: Seq<char>) -> bool
    decreases a.len(),
{
    if b.len() == 0 {
        false
    } else if a.len() == 0 {
        true
    } else if a[0] as u32 != b[0] as u32 {
        (a[0] as u32) < (b[0] as u32)
    } else {
        lex_lt(a.skip(1), b.skip(1))
    }
}

pub proof fn lemma_lex_irrefl(a: Seq<char>)
    ensures
        !lex_lt(a, a),
    decreases a.len(),
{
    if a.len() > 0 {
        lemma_lex_irrefl(a.skip(1));
    }
}

/// Any two distinct sequences are ordered one way or the other.
pub proof fn lemma_lex_connex(a: Seq<char>, b: Seq<char>)
    ensures
        a == b || lex_lt(a, b) || lex_lt(b, a),
    decreases a.len(),
{
    if a.len() == 0 && b.len() == 0 {
        assert(a =~= b);
    } else if a.len() == 0 || b.len() == 0 {
    } else if a[0] as u32 != b[0] as u32 {
    } else {
        vstd::utf8::char_u32_cast(a[0], a[0] as u32);
        vstd::utf8::char_u32_cast(b[0], b[0] as u32);
        assert(a[0] == b[0]);
        lemma_lex_connex(a.skip(1), b.skip(1));
        if a.skip(1) == b.skip(1) {
            assert(a =~= seq![a[0]] + a.skip(1));
            assert(b =~= seq![b[0]] + b.skip(1));
        }
    }
}

pub proof fn lemma_lex_trans(a: Seq<char>, b: Seq<char>, c: Seq<char>)
    requires
        lex_lt(a, b),
        lex_lt(b, c),
    ensures
        lex_lt(a, c),
    decreases a.len() + b.len() + c.len(),
{
    if b.len() == 0 || c.len() == 0 {
    } else if a.len() == 0 {
    } else {
        if a[0] as u32 == b[0] as u32 && b[0] as u32 == c[0] as u32 {
            lemma_lex_trans(a.skip(1), b.skip(1), c.skip(1));
        }
    }
}

/// Ordered sequences are distinct.
pub proof fn lemma_lex_lt_neq(a: Seq<char>, b: Seq<char>)
    requires
        lex_lt(a, b),
    ensures
        a != b,
{
    lemma_lex_irrefl(a);
}

// ---------------------------------------------------------------------------
// Executable counterparts
// ---------------------------------------------------------------------------

/// The index of the first occurrence of `c` in `s`, if any.
pub fn find_char_at(s: &str, c: char) -> (r: Option<usize>)
    ensures
        match r {
            Some(i) => find_ch(s@, c) == i && i < s@.len(),
            None => find_ch(s@, c) == -1,
        },
{
    let n: usize = s.unicode_len();
    let mut i: usize = 0;
    while i < n
        invariant
            n == s@.len(),
            0 <= i <= n,
            forall|j: int| 0 <= j < i ==> s@[j] != c,
        decreases n - i,
    {
        if s.get_char(i) == c {
            proof {
                lemma_find_ch_is(s@, c, i as int);
            }
            return Some(i);
        }
        i += 1;
    }
    proof {
        lemma_find_ch_not(s@, c);
    }
    None
}

/// Character-for-character string equality.
pub fn str_eq(a: &str, b: &str) -> (r: bool)
    ensures
        r == (a@ == b@),
{
    let na: usize = a.unicode_len();
    let nb: usize = b.unicode_len();
    if na != nb {
        return false;
    }
    let mut i: usize = 0;
    while i < na
        invariant
            na == a@.len(),
            na == b@.len(),
            0 <= i <= na,
            forall|j: int| 0 <= j < i ==> a@[j] == b@[j],
        decreases na - i,
    {
        if a.get_char(i) != b.get_char(i) {
            return false;
        }
        i += 1;
    }
    proof {
        assert(a@ =~= b@);
    }
    true
}

/// Whether `s` begins with `p`.
pub fn str_starts_with(s: &str, p: &str) -> (r: bool)
    ensures
        r == has_prefix(s@, p@),
{
    let ns: usize = s.unicode_len();
    let np: usize = p.unicode_len();
    if np > ns {
        return false;
    }
    let mut i: usize = 0;
    while i < np
        invariant
            ns == s@.len(),
            np == p@.len(),
            np <= ns,
            0 <= i <= np,
            forall|j: int| 0 <= j < i ==> s@[j] == p@[j],
        decreases np - i,
    {
        if s.get_char(i) != p.get_char(i) {
            proof {
                assert(s@.take(np as int)[i as int] != p@[i as int]);
            }
            return false;
        }
        i += 1;
    }
    proof {
        assert(s@.take(np as int) =~= p@);
    }
    true
}

/// Whether `s` ends with `p`.
pub fn str_ends_with(s: &str, p: &str) -> (r: bool)
    ensures
        r == has_suffix(s@, p@),
{
    let ns: usize = s.unicode_len();
    let np: usize = p.unicode_len();
    if np > ns {
        return false;
    }
    let off: usize = ns - np;
    let mut i: usize = 0;
    while i < np
        invariant
            ns == s@.len(),
            np == p@.len(),
            np <= ns,
            off == ns - np,
            0 <= i <= np,
            forall|j: int| 0 <= j < i ==> s@[off + j] == p@[j],
        decreases np - i,
    {
        if s.get_char(off + i) != p.get_char(i) {
            proof {
                assert(s@.skip(off as int)[i as int] != p@[i as int]);
            }
            return false;
        }
        i += 1;
    }
    proof {
        assert(s@.skip(off as int) =~= p@);
    }
    true
}

/// Whether `p` occurs anywhere in `s`.
pub fn str_contains(s: &str, p: &str) -> (r: bool)
    ensures
        r == has_substr(s@, p@),
{
    let ns: usize = s.unicode_len();
    let np: usize = p.unicode_len();
    if np > ns {
        return false;
    }
    if np == 0 {
        proof {
            assert(s@.subrange(0, 0 + p@.len() as int) =~= p@);
        }
        return true;
    }
    let last: usize = ns - np;
    let mut i: usize = 0;
    while i <= last
        invariant
            ns == s@.len(),
            np == p@.len(),
            1 <= np <= ns,
            last == ns - np,
            0 <= i <= last + 1,
            forall|k: int| 0 <= k < i ==> #[trigger] s@.subrange(k, k + np as int) != p@,
        decreases last + 1 - i,
    {
        let mut j: usize = 0;
        let mut matches: bool = true;
        while j < np
            invariant
                ns == s@.len(),
                np == p@.len(),
                1 <= np,
                i + np <= ns,
                0 <= j <= np,
                matches ==> forall|t: int| 0 <= t < j ==> s@[i + t] == p@[t],
                !matches ==> s@.subrange(i as int, i + np as int) != p@,
            decreases np - j,
        {
            if s.get_char(i + j) != p.get_char(j) {
                proof {
                    assert(s@.subrange(i as int, i + np as int)[j as int] != p@[j as int]);
                }
                matches = false;
                j = np;
            } else {
                j += 1;
            }
        }
        if matches {
            proof {
                assert(s@.subrange(i as int, i + np as int) =~= p@);
            }
            return true;
        }
        i += 1;
    }
    proof {
        assert(forall|k: int| 0 <= k && k + np <= ns ==> #[trigger] s@.subrange(k, k + np as int) != p@);
    }
    false
}

proof fn lemma_lex_skip_step(a: Seq<char>, b: Seq<char>, i: int)
    requires
        0 <= i < a.len(),
        0 <= i < b.len(),
        a[i] == b[i],
    ensures
        lex_lt(a.skip(i), b.skip(i)) == lex_lt(a.skip(i + 1), b.skip(i + 1)),
{
    assert(a.skip(i).skip(1) =~= a.skip(i + 1));
    assert(b.skip(i).skip(1) =~= b.skip(i + 1));
    assert(a.skip(i)[0] == a[i]);
    assert(b.skip(i)[0] == b[i]);
}

/// Strict lexicographic comparison of two strings.
pub fn str_lex_lt(a: &str, b: &str) -> (r: bool)
    ensures
        r == lex_lt(a@, b@),
{
    let na: usize = a.unicode_len();
    let nb: usize = b.unicode_len();
    let mut i: usize = 0;
    proof {
        assert(a@.skip(0) =~= a@);
        assert(b@.skip(0) =~= b@);
    }
    loop
        invariant
            na == a@.len(),
            nb == b@.len(),
            0 <= i <= na,
            0 <= i <= nb,
            lex_lt(a@, b@) == lex_lt(a@.skip(i as int), b@.skip(i as int)),
        decreases na - i,
    {
        if i == nb {
            proof {
                assert(b@.skip(i as int).len() == 0);
            }
            return false;
        }
        if i == na {
            proof {
                assert(a@.skip(i as int).len() == 0);
                assert(b@.skip(i as int).len() > 0);
            }
            return true;
        }
        let ca: char = a.get_char(i);
        let cb: char = b.get_char(i);
        if ca as u32 != cb as u32 {
            proof {
                assert(a@.skip(i as int)[0] == a@[i as int]);
                assert(b@.skip(i as int)[0] == b@[i as int]);
            }
            return (ca as u32) < (cb as u32);
        }
        proof {
            assert(a@[i as int] as u32 == b@[i as int] as u32);
            assert(a@[i as int] == b@[i as int]);
            lemma_lex_skip_step(a@, b@, i as int);
        }
        i += 1;
    }
}

/// The pieces of `s` between occurrences of `c`, as `str::split` yields them.
pub fn split_char<'a>(s: &'a str, c: char) -> (r: Vec<&'a str>)
    ensures
        r@.len() == split_ch(s@, c).len(),
        forall|k: int| 0 <= k < r@.len() ==> r@[k]@ == split_ch(s@, c)[k],
{
    let n: usize = s.unicode_len();
    let mut r: Vec<&'a str> = Vec::new();
    let mut start: usize = 0;
    let mut i: usize = 0;
    proof {
        assert(s@.skip(0) =~= s@);
    }
    while i < n
        invariant
            n == s@.len(),
            0 <= start <= i <= n,
            forall|j: int| start <= j < i ==> s@[j] != c,
            split_ch(s@, c).len() == r@.len() + split_ch(s@.skip(start as int), c).len(),
            forall|k: int| 0 <= k < r@.len() ==> r@[k]@ == split_ch(s@, c)[k],
            forall|k: int|
                0 <= k < split_ch(s@.skip(start as int), c).len() ==> split_ch(
                    s@.skip(start as int),
                    c,
                )[k] == split_ch(s@, c)[r@.len() + k],
        decreases n - i,
    {
        if s.get_char(i) == c {
            let piece = s.substring_char(start, i);
            proof {
                let t = s@.skip(start as int);
                assert(forall|j: int| 0 <= j < t.len() ==> t[j] == s@[start + j]);
                assert(t[i - start] == c);
                assert forall|j: int| 0 <= j < i - start implies t[j] != c by {
                    assert(t[j] == s@[start + j]);
                }
                lemma_split_ch_step(t, c, i - start);
                let rest = split_ch(t.skip(i - start + 1), c);
                assert(split_ch(t, c) == seq![t.take(i - start)] + rest);
                assert(t.take(i - start) =~= s@.subrange(start as int, i as int));
                assert(t.skip(i - start + 1) =~= s@.skip(i + 1));
                assert(piece@ == split_ch(t, c)[0]);
                assert(forall|k: int|
                    0 <= k < rest.len() ==> rest[k] == split_ch(t, c)[k + 1]);
            }
            r.push(piece);
            start = i + 1;
        }
        i += 1;
    }
    let piece = s.substring_char(start, n);
    proof {
        let t = s@.skip(start as int);
        assert(forall|j: int| 0 <= j < t.len() ==> t[j] == s@[start + j]);
        assert forall|j: int| 0 <= j < t.len() implies t[j] != c by {
            assert(t[j] == s@[start + j]);
        }
        lemma_split_ch_whole(t, c);
        assert(t =~= s@.subrange(start as int, n as int));
        assert(split_ch(t, c)[0] == t);
    }
    r.push(piece);
    r
}

/// The lines of `s`, as `str::lines` yields them.
pub fn split_lines<'a>(s: &'a str) -> (r: Vec<&'a str>)
    ensures
        r@.len() == spec_lines(s@).len(),
        forall|k: int| 0 <= k < r@.len() ==> r@[k]@ == spec_lines(s@)[k],
{
    let n: usize = s.unicode_len();
    if n == 0 {
        let r: Vec<&'a str> = Vec::new();
        return r;
    }
    let body: &'a str = if s.get_char(n - 1) == '\n' {
        s.substring_char(0, n - 1)
    } else {
        s
    };
    proof {
        if s@[n - 1] == '\n' {
            assert(body@ =~= s@.take(n - 1));
        }
    }
    let raw = split_char(body, '\n');
    let mut r: Vec<&'a str> = Vec::new();
    let mut i: usize = 0;
    let nraw: usize = raw.len();
    while i < nraw
        invariant
            nraw == raw@.len(),
            raw@.len() == split_ch(body@, '\n').len(),
            forall|k: int| 0 <= k < raw@.len() ==> raw@[k]@ == split_ch(body@, '\n')[k],
            spec_lines(s@) == split_ch(body@, '\n').map_values(|l: Seq<char>| strip_cr(l)),
            0 <= i <= nraw,
            r@.len() == i,
            forall|k: int| 0 <= k < i ==> r@[k]@ == spec_lines(s@)[k],
        decreases nraw - i,
    {
        let piece: &'a str = raw[i];
        let m: usize = piece.unicode_len();
        let line: &'a str = if m > 0 && piece.get_char(m - 1) == '\r' {
            piece.substring_char(0, m - 1)
        } else {
            piece
        };
        proof {
            if m > 0 && piece@[m - 1] == '\r' {
                assert(line@ =~= piece@.take(m - 1));
            }
            assert(line@ == strip_cr(raw@[i as int]@));
        }
        r.push(line);
        i += 1;
    }
    r
}

} // verus!
