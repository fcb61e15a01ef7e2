//! Character-level text operations shared by the rest of the crate: cutting a
//! string at a separator, joining pieces, looking for a substring, ordering
//! strings, and trimming whitespace.
use vstd::prelude::*;

verus! {

/// The character sequences of a sequence of owned strings.
pub open spec fn string_views(v: Seq<String>) -> Seq<Seq<char>> {
    v.map_values(|x: String| x@)
}

/// `s` cut at every occurrence of `sep`, in the manner of `str::split`:
/// there is always at least one piece, and `n` separators give `n + 1` pieces.
pub open spec fn split_on(s: Seq<char>, sep: char) -> Seq<Seq<char>>
    decreases s.len(),
{
    if s.len() == 0 {
        seq![Seq::<char>::empty()]
    } else {
        let init = split_on(s.drop_last(), sep);
        if s.last() == sep {
            init.push(Seq::<char>::empty())
        } else {
            init.update(init.len() - 1, init.last().push(s.last()))
        }
    }
}

/// The pieces of `parts` written one after another with `sep` between two neighbours.
pub open spec fn join_with(parts: Seq<Seq<char>>, sep: Seq<char>) -> Seq<char>
    decreases parts.len(),
{
    if parts.len() == 0 {
        Seq::empty()
    } else if parts.len() == 1 {
        parts[0]
    } else {
        join_with(parts.drop_last(), sep) + sep + parts.last()
    }
}

/// `pat` occurs in `s` at position `i`.
pub open spec fn occurs_at(s: Seq<char>, pat: Seq<char>, i: int) -> bool {
    0 <= i && i + pat.len() <= s.len() && s.subrange(i, i + pat.len()) == pat
}

/// `pat` occurs somewhere in `s`.
pub open spec fn contains_seq(s: Seq<char>, pat: Seq<char>) -> bool {
    exists|i: int| occurs_at(s, pat, i)
}

pub proof fn lemma_split_len(s: Seq<char>, sep: char)
    ensures
        split_on(s, sep).len() >= 1,
    decreases s.len(),
{
    if s.len() > 0 {
        lemma_split_len(s.drop_last(), sep);
    }
}

/// No piece of a split holds the separator.
pub proof fn lemma_split_pieces_free(s: Seq<char>, sep: char)
    ensures
        forall|i: int| 0 <= i < split_on(s, sep).len() ==> !(#[trigger] split_on(s, sep)[i]).contains(sep),
    decreases s.len(),
{
    if s.len() > 0 {
        lemma_split_len(s.drop_last(), sep);
        lemma_split_pieces_free(s.drop_last(), sep);
        let init = split_on(s.drop_last(), sep);
        if s.last() != sep {
            let l = init.last().push(s.last());
            assert forall|k: int| 0 <= k < l.len() implies l[k] != sep by {
                if k < init.last().len() {
                    assert(l[k] == init.last()[k]);
                }
            }
        }
    }
}

/// Appending text without a separator only lengthens the last piece.
pub proof fn lemma_split_append_free(a: Seq<char>, b: Seq<char>, sep: char)
    requires
        !b.contains(sep),
    ensures
        split_on(a + b, sep) == split_on(a, sep).update(
            split_on(a, sep).len() - 1,
            split_on(a, sep).last() + b,
        ),
    decreases b.len(),
{
    lemma_split_len(a, sep);
    let sa = split_on(a, sep);
    if b.len() == 0 {
        assert(a + b =~= a);
        assert(sa.last() + b =~= sa.last());
        assert(sa.update(sa.len() - 1, sa.last() + b) =~= sa);
    } else {
        let b0 = b.drop_last();
        assert(!b0.contains(sep)) by {
            if b0.contains(sep) {
                let k = choose|k: int| 0 <= k < b0.len() && b0[k] == sep;
                assert(b[k] == sep);
            }
        }
        lemma_split_append_free(a, b0, sep);
        assert((a + b).drop_last() =~= a + b0);
        assert((a + b).last() == b.last());
        assert(b.last() != sep) by {
            assert(b[b.len() - 1] == b.last());
        }
        assert((sa.last() + b0).push(b.last()) =~= sa.last() + b);
        assert(split_on(a + b, sep) =~= sa.update(sa.len() - 1, sa.last() + b));
    }
}

/// Appending a separator opens a new, empty piece.
pub proof fn lemma_split_append_sep(a: Seq<char>, sep: char)
    ensures
        split_on(a.push(sep), sep) == split_on(a, sep).push(Seq::<char>::empty()),
{
    assert(a.push(sep).drop_last() =~= a);
}

/// Splitting undoes joining, as long as no piece holds the separator.
pub proof fn lemma_split_join(parts: Seq<Seq<char>>, sep: char)
    requires
        parts.len() >= 1,
        forall|i: int| 0 <= i < parts.len() ==> !(#[trigger] parts[i]).contains(sep),
    ensures
        split_on(join_with(parts, seq![sep]), sep) == parts,
    decreases parts.len(),
{
    if parts.len() == 1 {
        let e = Seq::<char>::empty();
        lemma_split_append_free(e, parts[0], sep);
        assert(e + parts[0] =~= parts[0]);
        assert(split_on(e, sep) == seq![e]);
        assert(seq![e].update(0, e + parts[0]) =~= parts);
    } else {
        let init = parts.drop_last();
        assert forall|i: int| 0 <= i < init.len() implies !(#[trigger] init[i]).contains(sep) by {
            assert(init[i] == parts[i]);
        }
        lemma_split_join(init, sep);
        let j = join_with(init, seq![sep]);
        assert(j + seq![sep] =~= j.push(sep));
        lemma_split_append_sep(j, sep);
        assert(!parts.last().contains(sep)) by {
            assert(parts[parts.len() - 1] == parts.last());
        }
        lemma_split_append_free(j.push(sep), parts.last(), sep);
        let e = Seq::<char>::empty();
        assert(e + parts.last() =~= parts.last());
        assert(init.push(e).update(init.len() as int, e + parts.last()) =~= parts);
    }
}

/// `s` cut at every occurrence of `sep`, each piece an owned string.
pub fn split(s: &str, sep: char) -> (parts: Vec<String>)
    ensures
        string_views(parts@) == split_on(s@, sep),
{
    let n = s.unicode_len();
    let mut parts: Vec<String> = Vec::new();
    let mut start: usize = 0;
    let mut i: usize = 0;
    proof {
        assert(s@.take(0) =~= Seq::<char>::empty());
        assert(s@.subrange(0, 0) =~= Seq::<char>::empty());
        assert(string_views(parts@).push(Seq::<char>::empty()) =~= seq![Seq::<char>::empty()]);
    }
    while i < n
        invariant
            n == s@.len(),
            start <= i <= n,
            split_on(s@.take(i as int), sep) == string_views(parts@).push(
                s@.subrange(start as int, i as int),
            ),
        decreases n - i,
    {
        let c = s.get_char(i);
        proof {
            assert(s@.take(i + 1).drop_last() =~= s@.take(i as int));
            assert(s@.take(i + 1).last() == c);
        }
        if c == sep {
            let piece = s.substring_char(start, i).to_owned();
            proof {
                assert(string_views(parts@.push(piece)) =~= string_views(parts@).push(piece@));
                assert(s@.subrange((i + 1) as int, (i + 1) as int) =~= Seq::<char>::empty());
            }
            parts.push(piece);
            start = i + 1;
        } else {
            proof {
                assert(s@.subrange(start as int, i as int).push(c) =~= s@.subrange(
                    start as int,
                    (i + 1) as int,
                ));
            }
        }
        i += 1;
    }
    let last = s.substring_char(start, n).to_owned();
    proof {
        assert(s@.take(n as int) =~= s@);
        assert(string_views(parts@.push(last)) =~= string_views(parts@).push(last@));
    }
    parts.push(last);
    parts
}

/// The pieces of `parts`, with `sep` between two neighbours.
pub fn join(parts: &Vec<String>, sep: &str) -> (s: String)
    ensures
        s@ == join_with(string_views(parts@), sep@),
{
    let ghost views = string_views(parts@);
    let mut s = String::new();
    let mut i: usize = 0;
    while i < parts.len()
        invariant
            i <= parts.len(),
            views == string_views(parts@),
            s@ == join_with(views.take(i as int), sep@),
        decreases parts.len() - i,
    {
        proof {
            assert(views.take(i + 1).drop_last() =~= views.take(i as int));
            assert(views.take(i + 1).last() == parts@[i as int]@);
        }
        if i != 0 {
            s.append(sep);
        } else {
            assert(s@ + parts@[0]@ =~= parts@[0]@);
        }
        s.append(parts[i].as_str());
        i += 1;
    }
    proof {
        assert(views.take(parts.len() as int) =~= views);
    }
    s
}


/// `a` comes strictly before `b` in lexicographic order over code points,
/// the order of `Ord` on `str` (UTF-8 keeps code point order byte by byte).
pub open spec fn lex_lt(a: Seq<char>, b: Seq<char>) -> bool
    decreases a.len(),
{
    if a.len() == 0 {
        b.len() > 0
    } else if b.len() == 0 {
        false
    } else if a[0] != b[0] {
        (a[0] as int) < (b[0] as int)
    } else {
        lex_lt(a.drop_first(), b.drop_first())
    }
}

/// Every piece of `s` comes strictly before every later one: sorted, and no piece twice.
pub open spec fn strictly_sorted(s: Seq<Seq<char>>) -> bool {
    forall|i: int, j: int| 0 <= i < j < s.len() ==> lex_lt(#[trigger] s[i], #[trigger] s[j])
}

pub proof fn lemma_lex_irreflexive(a: Seq<char>)
    ensures
        !lex_lt(a, a),
    decreases a.len(),
{
    if a.len() > 0 {
        lemma_lex_irreflexive(a.drop_first());
    }
}

pub proof fn lemma_lex_transitive(a: Seq<char>, b: Seq<char>, c: Seq<char>)
    requires
        lex_lt(a, b),
        lex_lt(b, c),
    ensures
        lex_lt(a, c),
    decreases a.len(),
{
    if a.len() > 0 && b.len() > 0 && c.len() > 0 {
        if a[0] == b[0] && b[0] == c[0] {
            lemma_lex_transitive(a.drop_first(), b.drop_first(), c.drop_first());
        }
    }
}

pub proof fn lemma_lex_total(a: Seq<char>, b: Seq<char>)
    requires
        a != b,
    ensures
        lex_lt(a, b) || lex_lt(b, a),
    decreases a.len(),
{
    if a.len() > 0 && b.len() > 0 && a[0] == b[0] {
        if a.drop_first() == b.drop_first() {
            assert(a =~= seq![a[0]] + a.drop_first());
            assert(b =~= seq![b[0]] + b.drop_first());
        }
        lemma_lex_total(a.drop_first(), b.drop_first());
    } else if a.len() == 0 && b.len() == 0 {
        assert(a =~= b);
    } else if a.len() > 0 && b.len() > 0 {
        assert(a[0] as int != b[0] as int);
    }
}

pub proof fn lemma_lex_asymmetric(a: Seq<char>, b: Seq<char>)
    requires
        lex_lt(a, b),
    ensures
        !lex_lt(b, a),
{
    if lex_lt(b, a) {
        lemma_lex_transitive(a, b, a);
        lemma_lex_irreflexive(a);
    }
}

/// Whether `a` sorts strictly before `b`.
pub fn less(a: &str, b: &str) -> (r: bool)
    ensures
        r == lex_lt(a@, b@),
{
    let n = a.unicode_len();
    let m = b.unicode_len();
    let mut i: usize = 0;
    assert(a@.skip(0) =~= a@);
    assert(b@.skip(0) =~= b@);
    while i < n && i < m
        invariant
            n == a@.len(),
            m == b@.len(),
            i <= n,
            i <= m,
            lex_lt(a@, b@) == lex_lt(a@.skip(i as int), b@.skip(i as int)),
        decreases n - i,
    {
        let ca = a.get_char(i);
        let cb = b.get_char(i);
        proof {
            assert(a@.skip(i as int)[0] == ca);
            assert(b@.skip(i as int)[0] == cb);
        }
        if ca != cb {
            return (ca as u32) < (cb as u32);
        }
        proof {
            assert(a@.skip(i as int).drop_first() =~= a@.skip(i + 1));
            assert(b@.skip(i as int).drop_first() =~= b@.skip(i + 1));
        }
        i += 1;
    }
    i < m
}

/// Puts `x` in its place in a strictly sorted vector, unless it is there already.
pub fn insert_sorted(v: &mut Vec<String>, x: String)
    requires
        strictly_sorted(string_views(old(v)@)),
    ensures
        strictly_sorted(string_views(final(v)@)),
        forall|y: Seq<char>|
            string_views(final(v)@).contains(y) <==> (string_views(old(v)@).contains(y) || y == x@),
{
    let ghost old_views = string_views(v@);
    let mut j: usize = 0;
    while j < v.len() && less(v[j].as_str(), x.as_str())
        invariant
            j <= v.len(),
            old_views == string_views(v@),
            strictly_sorted(old_views),
            forall|k: int| 0 <= k < j ==> lex_lt(#[trigger] old_views[k], x@),
        decreases v.len() - j,
    {
        j += 1;
    }
    if j < v.len() && v[j] == x {
        assert(old_views[j as int] == x@);
        return;
    }
    proof {
        if j < v.len() {
            assert(old_views[j as int] == v@[j as int]@);
            assert(!lex_lt(old_views[j as int], x@));
            lemma_lex_total(old_views[j as int], x@);
            assert(lex_lt(x@, old_views[j as int]));
            assert forall|k: int| j <= k < old_views.len() implies lex_lt(x@, #[trigger] old_views[k]) by {
                if k > j {
                    lemma_lex_transitive(x@, old_views[j as int], old_views[k]);
                }
            }
        }
    }
    v.insert(j, x);
    proof {
        let nv = string_views(v@);
        assert(nv =~= old_views.insert(j as int, x@));
        assert forall|a: int, b: int| 0 <= a < b < nv.len() implies lex_lt(#[trigger] nv[a], #[trigger] nv[b]) by {
            if b < j {
            } else if a < j && b == j {
            } else if a < j && b > j {
                assert(nv[b] == old_views[b - 1]);
                lemma_lex_transitive(nv[a], x@, nv[b]);
            } else if a == j {
                assert(nv[b] == old_views[b - 1]);
            } else {
                assert(nv[a] == old_views[a - 1]);
                assert(nv[b] == old_views[b - 1]);
            }
        }
        assert forall|y: Seq<char>| nv.contains(y) <==> (old_views.contains(y) || y == x@) by {
            if nv.contains(y) {
                let k = choose|k: int| 0 <= k < nv.len() && nv[k] == y;
                if k < j {
                    assert(old_views[k] == y);
                } else if k > j {
                    assert(old_views[k - 1] == y);
                }
            }
            if old_views.contains(y) {
                let k = choose|k: int| 0 <= k < old_views.len() && old_views[k] == y;
                if k < j {
                    assert(nv[k] == y);
                } else {
                    assert(nv[k + 1] == y);
                }
            }
            if y == x@ {
                assert(nv[j as int] == y);
            }
        }
    }
}


/// Whether `pat` occurs in `s` at position `i`.
fn occurs_at_exec(s: &str, pat: &str, i: usize) -> (r: bool)
    requires
        i + pat@.len() <= s@.len(),
    ensures
        r == occurs_at(s@, pat@, i as int),
{
    let n = s.unicode_len();
    let m = pat.unicode_len();
    let mut k: usize = 0;
    while k < m
        invariant
            n == s@.len(),
            m == pat@.len(),
            i + m <= s@.len(),
            k <= m,
            forall|q: int| 0 <= q < k ==> s@[i + q] == pat@[q],
        decreases m - k,
    {
        if s.get_char(i + k) != pat.get_char(k) {
            proof {
                assert(s@.subrange(i as int, i + m)[k as int] != pat@[k as int]);
            }
            return false;
        }
        k += 1;
    }
    assert(s@.subrange(i as int, i + m) =~= pat@);
    true
}

/// Whether `pat` occurs somewhere in `s`, as `str::contains` with a string pattern.
pub fn contains(s: &str, pat: &str) -> (r: bool)
    ensures
        r == contains_seq(s@, pat@),
{
    let n = s.unicode_len();
    let m = pat.unicode_len();
    if m > n {
        assert forall|i: int| !occurs_at(s@, pat@, i) by {}
        return false;
    }
    let mut i: usize = 0;
    loop
        invariant
            n == s@.len(),
            m == pat@.len(),
            m <= n,
            i <= n - m,
            forall|q: int| 0 <= q < i ==> !occurs_at(s@, pat@, q),
        decreases n - m - i,
    {
        if occurs_at_exec(s, pat, i) {
            return true;
        }
        if i == n - m {
            assert forall|q: int| !occurs_at(s@, pat@, q) by {
                if 0 <= q < i {
                }
            }
            return false;
        }
        i += 1;
    }
}


/// Whether `a` and `b` hold the same text.
pub fn same_text(a: &str, b: &str) -> (r: bool)
    ensures
        r == (a@ == b@),
{
    let n = a.unicode_len();
    if n != b.unicode_len() {
        return false;
    }
    let mut i: usize = 0;
    while i < n
        invariant
            n == a@.len(),
            n == b@.len(),
            i <= n,
            forall|k: int| 0 <= k < i ==> a@[k] == b@[k],
        decreases n - i,
    {
        if a.get_char(i) != b.get_char(i) {
            return false;
        }
        i += 1;
    }
    assert(a@ =~= b@);
    true
}

/// Whether `c` is white space, as `char::is_whitespace` says: the characters
/// with the Unicode `White_Space` property.
pub open spec fn is_whitespace_spec(c: char) -> bool {
    ||| '\u{9}' <= c <= '\u{d}'
    ||| c == ' '
    ||| c == '\u{85}'
    ||| c == '\u{a0}'
    ||| c == '\u{1680}'
    ||| '\u{2000}' <= c <= '\u{200a}'
    ||| c == '\u{2028}'
    ||| c == '\u{2029}'
    ||| c == '\u{202f}'
    ||| c == '\u{205f}'
    ||| c == '\u{3000}'
}

/// Whether `c` is white space.
pub fn is_whitespace(c: char) -> (r: bool)
    ensures
        r == is_whitespace_spec(c),
{
    ('\u{9}' <= c && c <= '\u{d}') || c == ' ' || c == '\u{85}' || c == '\u{a0}' || c == '\u{1680}'
        || ('\u{2000}' <= c && c <= '\u{200a}') || c == '\u{2028}' || c == '\u{2029}' || c
        == '\u{202f}' || c == '\u{205f}' || c == '\u{3000}'
}

/// `s` without white space at its start.
pub open spec fn trim_start_spec(s: Seq<char>) -> Seq<char>
    decreases s.len(),
{
    if s.len() > 0 && is_whitespace_spec(s[0]) {
        trim_start_spec(s.drop_first())
    } else {
        s
    }
}

/// `s` without white space at its end.
pub open spec fn trim_end_spec(s: Seq<char>) -> Seq<char>
    decreases s.len(),
{
    if s.len() > 0 && is_whitespace_spec(s.last()) {
        trim_end_spec(s.drop_last())
    } else {
        s
    }
}

/// `s` without white space at either end, as `str::trim` gives it.
pub open spec fn trim_spec(s: Seq<char>) -> Seq<char> {
    trim_end_spec(trim_start_spec(s))
}

/// `s` without white space at either end.
pub fn trim(s: &str) -> (t: &str)
    ensures
        t@ == trim_spec(s@),
{
    let n = s.unicode_len();
    let mut a: usize = 0;
    assert(s@.subrange(0, n as int) =~= s@);
    while a < n && is_whitespace(s.get_char(a))
        invariant
            n == s@.len(),
            a <= n,
            trim_start_spec(s@.subrange(a as int, n as int)) == trim_start_spec(s@),
        decreases n - a,
    {
        assert(s@.subrange(a as int, n as int).drop_first() =~= s@.subrange(a + 1, n as int));
        a += 1;
    }
    let ghost u = s@.subrange(a as int, n as int);
    assert(trim_start_spec(u) == u) by {
        if u.len() > 0 {
            assert(u[0] == s@[a as int]);
        }
    }
    let mut b: usize = n;
    assert(s@.subrange(a as int, b as int) == u);
    while b > a && is_whitespace(s.get_char(b - 1))
        invariant
            n == s@.len(),
            a <= b <= n,
            u == s@.subrange(a as int, n as int),
            trim_end_spec(s@.subrange(a as int, b as int)) == trim_end_spec(u),
        decreases b,
    {
        assert(s@.subrange(a as int, b as int).drop_last() =~= s@.subrange(a as int, b - 1));
        assert(s@.subrange(a as int, b as int).last() == s@[b - 1]);
        b -= 1;
    }
    let ghost w = s@.subrange(a as int, b as int);
    assert(trim_end_spec(w) == w) by {
        if w.len() > 0 {
            assert(w.last() == s@[b - 1]);
        }
    }
    s.substring_char(a, b)
}

/// A proper prefix sorts first, and otherwise the first differing character
/// decides: `lex_lt` is the order of `Ord` on strings.
pub proof fn lemma_lex_decided_by_first_difference(a: Seq<char>, b: Seq<char>, k: int)
    requires
        0 <= k <= a.len(),
        k <= b.len(),
        a.take(k) == b.take(k),
    ensures
        k == a.len() && k < b.len() ==> lex_lt(a, b),
        k < a.len() && k < b.len() && (a[k] as int) < (b[k] as int) ==> lex_lt(a, b),
        k < a.len() && k < b.len() && (b[k] as int) < (a[k] as int) ==> !lex_lt(a, b),
        k == b.len() ==> !lex_lt(a, b),
    decreases k,
{
    if k > 0 {
        assert(a[0] == a.take(k)[0]);
        assert(b[0] == b.take(k)[0]);
        assert(a.drop_first().take(k - 1) =~= a.take(k).drop_first());
        assert(b.drop_first().take(k - 1) =~= b.take(k).drop_first());
        lemma_lex_decided_by_first_difference(a.drop_first(), b.drop_first(), k - 1);
    }
}

/// Joining the pieces of a split gives back the text it was cut from.
pub proof fn lemma_join_split(s: Seq<char>, sep: char)
    ensures
        join_with(split_on(s, sep), seq![sep]) == s,
    decreases s.len(),
{
    if s.len() > 0 {
        let init = s.drop_last();
        lemma_join_split(init, sep);
        lemma_split_len(init, sep);
        let p = split_on(init, sep);
        if s.last() == sep {
            let q = p.push(Seq::<char>::empty());
            assert(q.drop_last() =~= p);
            assert(join_with(q, seq![sep]) =~= s);
        } else {
            let q = p.update(p.len() - 1, p.last().push(s.last()));
            if p.len() == 1 {
                assert(join_with(q, seq![sep]) =~= s);
            } else {
                assert(q.drop_last() =~= p.drop_last());
                assert(q.last() == p.last().push(s.last()));
                let j = join_with(p.drop_last(), seq![sep]);
                assert(join_with(p, seq![sep]) == j + seq![sep] + p.last());
                assert(join_with(q, seq![sep]) == j + seq![sep] + p.last().push(s.last()));
                assert(s =~= init.push(s.last()));
                assert(j + seq![sep] + p.last().push(s.last()) =~= (j + seq![sep] + p.last()).push(s.last()));
            }
        }
    }
}

/// Trimming keeps a stretch of the text: everything cut away is white space,
/// and the stretch kept neither starts nor ends with white space.
pub proof fn lemma_trim_shape(s: Seq<char>)
    ensures
        exists|a: int, b: int|
            0 <= a <= b <= s.len() && #[trigger] s.subrange(a, b) == trim_spec(s) && (forall|k: int|
                0 <= k < a ==> is_whitespace_spec(s[k])) && (forall|k: int|
                b <= k < s.len() ==> is_whitespace_spec(s[k])) && (a < b ==> !is_whitespace_spec(s[a])
                && !is_whitespace_spec(s[b - 1])),
{
    let a = lemma_trim_start_shape(s);
    let u = s.subrange(a, s.len() as int);
    let e = lemma_trim_end_shape(u);
    let b = a + e;
    assert(s.subrange(a, b) =~= u.take(e));
    assert forall|k: int| b <= k < s.len() implies is_whitespace_spec(s[k]) by {
        assert(s[k] == u[k - a]);
    }
    if a < b {
        assert(s[a] == u[0]);
        assert(s[b - 1] == u[e - 1]);
    }
}

proof fn lemma_trim_start_shape(s: Seq<char>) -> (a: int)
    ensures
        0 <= a <= s.len(),
        trim_start_spec(s) == s.subrange(a, s.len() as int),
        forall|k: int| 0 <= k < a ==> is_whitespace_spec(s[k]),
        a < s.len() ==> !is_whitespace_spec(s[a]),
    decreases s.len(),
{
    if s.len() > 0 && is_whitespace_spec(s[0]) {
        let a0 = lemma_trim_start_shape(s.drop_first());
        assert(s.drop_first().subrange(a0, s.len() - 1) =~= s.subrange(a0 + 1, s.len() as int));
        assert forall|k: int| 0 <= k < a0 + 1 implies is_whitespace_spec(s[k]) by {
            if k > 0 {
                assert(s[k] == s.drop_first()[k - 1]);
            }
        }
        if a0 + 1 < s.len() {
            assert(s[a0 + 1] == s.drop_first()[a0]);
        }
        a0 + 1
    } else {
        assert(s.subrange(0, s.len() as int) =~= s);
        0
    }
}

proof fn lemma_trim_end_shape(s: Seq<char>) -> (e: int)
    ensures
        0 <= e <= s.len(),
        trim_end_spec(s) == s.take(e),
        forall|k: int| e <= k < s.len() ==> is_whitespace_spec(s[k]),
        e > 0 ==> !is_whitespace_spec(s[e - 1]),
    decreases s.len(),
{
    if s.len() > 0 && is_whitespace_spec(s.last()) {
        let e0 = lemma_trim_end_shape(s.drop_last());
        assert(s.drop_last().take(e0) =~= s.take(e0));
        assert forall|k: int| e0 <= k < s.len() implies is_whitespace_spec(s[k]) by {
            if k < s.len() - 1 {
                assert(s[k] == s.drop_last()[k]);
            }
        }
        if e0 > 0 {
            assert(s[e0 - 1] == s.drop_last()[e0 - 1]);
        }
        e0
    } else {
        assert(s.take(s.len() as int) =~= s);
        s.len() as int
    }
}

} // verus!
