//! String utilities the playlist logic is built on: splitting on a
//! separator character, joining with one, newline normalization, prefix
//! tests, and quote stripping. Each executable function is proved to
//! compute its spec-level counterpart.

use vstd::prelude::*;

verus! {

/// Splitting `s` on `sep`, with `cur` the piece accumulated so far.
/// The result always has at least one piece; a trailing separator
/// yields a trailing empty piece.
pub open spec fn split_acc(cur: Seq<char>, s: Seq<char>, sep: char) -> Seq<Seq<char>>
    decreases s.len(),
{
    if s.len() == 0 {
        seq![cur]
    } else if s[0] == sep {
        seq![cur] + split_acc(Seq::empty(), s.skip(1), sep)
    } else {
        split_acc(cur.push(s[0]), s.skip(1), sep)
    }
}

/// The pieces of `s` between occurrences of `sep`, in order.
pub open spec fn split_spec(s: Seq<char>, sep: char) -> Seq<Seq<char>> {
    split_acc(Seq::empty(), s, sep)
}

pub proof fn lemma_split_acc_len(cur: Seq<char>, s: Seq<char>, sep: char)
    ensures
        split_acc(cur, s, sep).len() >= 1,
    decreases s.len(),
{
    if s.len() == 0 {
    } else if s[0] == sep {
        lemma_split_acc_len(Seq::empty(), s.skip(1), sep);
    } else {
        lemma_split_acc_len(cur.push(s[0]), s.skip(1), sep);
    }
}

/// Splitting never yields an empty list of pieces.
pub proof fn lemma_split_len(s: Seq<char>, sep: char)
    ensures
        split_spec(s, sep).len() >= 1,
{
    lemma_split_acc_len(Seq::empty(), s, sep);
}

pub proof fn lemma_join_split_acc(cur: Seq<char>, s: Seq<char>, sep: char)
    ensures
        join_spec(split_acc(cur, s, sep), sep) == cur + s,
    decreases s.len(),
{
    if s.len() == 0 {
        assert(cur + s =~= cur);
    } else if s[0] == sep {
        lemma_join_split_acc(Seq::empty(), s.skip(1), sep);
        lemma_split_acc_len(Seq::empty(), s.skip(1), sep);
        let rest = split_acc(Seq::empty(), s.skip(1), sep);
        let parts = seq![cur] + rest;
        assert(parts[0] == cur);
        assert(parts.skip(1) =~= rest);
        assert(Seq::empty() + s.skip(1) =~= s.skip(1));
        assert(cur + seq![sep] + s.skip(1) =~= cur + s);
    } else {
        lemma_join_split_acc(cur.push(s[0]), s.skip(1), sep);
        assert(cur.push(s[0]) + s.skip(1) =~= cur + s);
    }
}

/// Splitting and rejoining on the same separator reconstructs the
/// string exactly: no piece and no separator is lost or reordered.
pub proof fn lemma_join_split(s: Seq<char>, sep: char)
    ensures
        join_spec(split_spec(s, sep), sep) == s,
{
    lemma_join_split_acc(Seq::empty(), s, sep);
    assert(Seq::empty() + s =~= s);
}

/// Splitting a string free of the separator yields the one piece
/// `cur + s`.
pub proof fn lemma_split_acc_no_sep(cur: Seq<char>, s: Seq<char>, sep: char)
    requires
        forall|i: int| 0 <= i < s.len() ==> s[i] != sep,
    ensures
        split_acc(cur, s, sep) == seq![cur + s],
    decreases s.len(),
{
    if s.len() == 0 {
        assert(cur + s =~= cur);
    } else {
        lemma_split_acc_no_sep(cur.push(s[0]), s.skip(1), sep);
        assert(cur.push(s[0]) + s.skip(1) =~= cur + s);
    }
}

/// The views of a vector of strings.
pub open spec fn views_of(v: Seq<String>) -> Seq<Seq<char>> {
    v.map_values(|p: String| p@)
}

/// Split `s` at every occurrence of `sep`.
pub fn split_str(s: &str, sep: char) -> (parts: Vec<String>)
    ensures
        views_of(parts@) == split_spec(s@, sep),
        parts@.len() >= 1,
{
    let n = s.unicode_len();
    let mut parts: Vec<String> = Vec::new();
    let mut start: usize = 0;
    let mut i: usize = 0;
    proof {
        assert(s@.skip(0) =~= s@);
        assert(s@.subrange(0, 0) =~= Seq::<char>::empty());
        assert(views_of(parts@) + split_acc(Seq::empty(), s@, sep) =~= split_acc(
            Seq::empty(),
            s@,
            sep,
        ));
    }
    while i < n
        invariant
            0 <= start <= i <= n == s@.len(),
            split_spec(s@, sep) == views_of(parts@) + split_acc(
                s@.subrange(start as int, i as int),
                s@.skip(i as int),
                sep,
            ),
        decreases n - i,
    {
        let c = s.get_char(i);
        proof {
            assert(s@.skip(i as int)[0] == s@[i as int]);
            assert(s@.skip(i as int).skip(1) =~= s@.skip(i + 1));
        }
        if c == sep {
            let piece = String::from_str(s.substring_char(start, i));
            parts.push(piece);
            proof {
                assert(s@.subrange(i + 1, i + 1) =~= Seq::<char>::empty());
                assert(views_of(parts@) =~= views_of(parts@.drop_last()) + seq![
                    s@.subrange(start as int, i as int),
                ]);
            }
            start = i + 1;
        } else {
            proof {
                assert(s@.subrange(start as int, i as int).push(s@[i as int]) =~= s@.subrange(
                    start as int,
                    i + 1,
                ));
            }
        }
        i = i + 1;
    }
    let piece = String::from_str(s.substring_char(start, n));
    parts.push(piece);
    proof {
        assert(s@.skip(n as int) =~= Seq::<char>::empty());
        assert(views_of(parts@) =~= views_of(parts@.drop_last()) + seq![
            s@.subrange(start as int, n as int),
        ]);
        assert(views_of(parts@) =~= split_spec(s@, sep));
    }
    parts
}

/// The pieces interleaved with `sep`: the inverse direction of `split_spec`.
pub open spec fn join_spec(parts: Seq<Seq<char>>, sep: char) -> Seq<char>
    decreases parts.len(),
{
    if parts.len() == 0 {
        Seq::empty()
    } else if parts.len() == 1 {
        parts[0]
    } else {
        parts[0] + seq![sep] + join_spec(parts.skip(1), sep)
    }
}

pub proof fn lemma_join_push(parts: Seq<Seq<char>>, sep: char, x: Seq<char>)
    requires
        parts.len() >= 1,
    ensures
        join_spec(parts.push(x), sep) == join_spec(parts, sep) + seq![sep] + x,
    decreases parts.len(),
{
    if parts.len() == 1 {
        assert(parts.push(x).skip(1) =~= seq![x]);
        assert(parts.push(x)[0] == parts[0]);
        assert(join_spec(seq![x], sep) == x);
    } else {
        lemma_join_push(parts.skip(1), sep, x);
        assert(parts.push(x).skip(1) =~= parts.skip(1).push(x));
        assert((parts[0] + seq![sep] + (join_spec(parts.skip(1), sep) + seq![sep] + x)) =~= (
        parts[0] + seq![sep] + join_spec(parts.skip(1), sep)) + seq![sep] + x);
    }
}

/// Join `parts` with the separator `sep`; `sep_str` is the same
/// separator as a one-character string.
pub fn join_strs(parts: &Vec<String>, sep: char, sep_str: &str) -> (r: String)
    requires
        sep_str@ == seq![sep],
    ensures
        r@ == join_spec(views_of(parts@), sep),
{
    let mut r = String::new();
    let n = parts.len();
    let mut i: usize = 0;
    while i < n
        invariant
            0 <= i <= n == parts@.len(),
            sep_str@ == seq![sep],
            r@ == join_spec(views_of(parts@.take(i as int)), sep),
        decreases n - i,
    {
        if i > 0 {
            r.append(sep_str);
        }
        r.append(parts[i].as_str());
        proof {
            let vs = views_of(parts@.take(i as int));
            assert(views_of(parts@.take(i + 1)) =~= vs.push(parts@[i as int]@));
            if i > 0 {
                lemma_join_push(vs, sep, parts@[i as int]@);
            } else {
                assert(views_of(parts@.take(1))[0] == parts@[0]@);
            }
        }
        i = i + 1;
    }
    proof {
        assert(parts@.take(n as int) =~= parts@);
    }
    r
}

/// `s` with every CRLF pair turned into a lone LF, scanning left to right.
pub open spec fn normalize_spec(s: Seq<char>) -> Seq<char>
    decreases s.len(),
{
    if s.len() == 0 {
        Seq::empty()
    } else if s.len() >= 2 && s[0] == '\r' && s[1] == '\n' {
        seq!['\n'] + normalize_spec(s.skip(2))
    } else {
        seq![s[0]] + normalize_spec(s.skip(1))
    }
}

/// Replace every CRLF line ending with a lone LF.
pub fn normalize_newlines(s: &str) -> (r: String)
    ensures
        r@ == normalize_spec(s@),
{
    let n = s.unicode_len();
    let mut r = String::new();
    let mut i: usize = 0;
    proof {
        assert(s@.skip(0) =~= s@);
        assert(r@ + normalize_spec(s@) =~= normalize_spec(s@));
    }
    while i < n
        invariant
            0 <= i <= n == s@.len(),
            normalize_spec(s@) == r@ + normalize_spec(s@.skip(i as int)),
        decreases n - i,
    {
        proof {
            assert(s@.skip(i as int)[0] == s@[i as int]);
            if i + 1 < n {
                assert(s@.skip(i as int)[1] == s@[i + 1]);
            }
            assert(s@.skip(i as int).skip(1) =~= s@.skip(i + 1));
        }
        if i + 1 < n && s.get_char(i) == '\r' && s.get_char(i + 1) == '\n' {
            proof {
                assert(s@.skip(i as int).skip(2) =~= s@.skip(i + 2));
                reveal_strlit("\n");
            }
            r.append("\n");
            i = i + 2;
        } else {
            r.append(s.substring_char(i, i + 1));
            proof {
                assert(s@.subrange(i as int, i + 1) =~= seq![s@[i as int]]);
            }
            i = i + 1;
        }
    }
    proof {
        assert(s@.skip(n as int) =~= Seq::<char>::empty());
    }
    r
}

/// `prefix` is an initial run of `s`.
pub open spec fn has_prefix(s: Seq<char>, prefix: Seq<char>) -> bool {
    prefix.is_prefix_of(s)
}

/// Character-wise prefix test.
pub fn starts_with_str(s: &str, prefix: &str) -> (b: bool)
    ensures
        b == has_prefix(s@, prefix@),
{
    let n = s.unicode_len();
    let m = prefix.unicode_len();
    if m > n {
        proof {
            assert(!prefix@.is_prefix_of(s@));
        }
        return false;
    }
    let mut i: usize = 0;
    while i < m
        invariant
            0 <= i <= m == prefix@.len(),
            m <= n == s@.len(),
            forall|j: int| 0 <= j < i ==> s@[j] == prefix@[j],
        decreases m - i,
    {
        if s.get_char(i) != prefix.get_char(i) {
            proof {
                assert(s@.take(m as int)[i as int] != prefix@[i as int]);
            }
            return false;
        }
        i = i + 1;
    }
    proof {
        assert(s@.take(m as int) =~= prefix@);
    }
    true
}

/// `s` with every double-quote character removed.
pub open spec fn strip_quotes_spec(s: Seq<char>) -> Seq<char>
    decreases s.len(),
{
    if s.len() == 0 {
        Seq::empty()
    } else if s[0] == '"' {
        strip_quotes_spec(s.skip(1))
    } else {
        seq![s[0]] + strip_quotes_spec(s.skip(1))
    }
}

/// Remove every double-quote character from `s`.
pub fn strip_quotes(s: &str) -> (r: String)
    ensures
        r@ == strip_quotes_spec(s@),
{
    let n = s.unicode_len();
    let mut r = String::new();
    let mut i: usize = 0;
    proof {
        assert(s@.skip(0) =~= s@);
        assert(r@ + strip_quotes_spec(s@) =~= strip_quotes_spec(s@));
    }
    while i < n
        invariant
            0 <= i <= n == s@.len(),
            strip_quotes_spec(s@) == r@ + strip_quotes_spec(s@.skip(i as int)),
        decreases n - i,
    {
        proof {
            assert(s@.skip(i as int)[0] == s@[i as int]);
            assert(s@.skip(i as int).skip(1) =~= s@.skip(i + 1));
        }
        if s.get_char(i) != '"' {
            r.append(s.substring_char(i, i + 1));
            proof {
                assert(s@.subrange(i as int, i + 1) =~= seq![s@[i as int]]);
            }
        }
        i = i + 1;
    }
    proof {
        assert(s@.skip(n as int) =~= Seq::<char>::empty());
    }
    r
}

/// Some string in `v` reads exactly as `x`.
pub open spec fn contains_str(v: Seq<String>, x: Seq<char>) -> bool {
    exists|j: int| 0 <= j < v.len() && v[j]@ == x
}

/// Linear search for `x` among the strings of `v`.
pub fn vec_contains_string(v: &Vec<String>, x: &String) -> (b: bool)
    ensures
        b == contains_str(v@, x@),
{
    let n = v.len();
    let mut i: usize = 0;
    while i < n
        invariant
            0 <= i <= n == v@.len(),
            forall|j: int| 0 <= j < i ==> v@[j]@ != x@,
        decreases n - i,
    {
        if v[i].eq(x) {
            return true;
        }
        i = i + 1;
    }
    false
}

} // verus!
