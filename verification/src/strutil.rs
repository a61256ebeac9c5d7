//! String helpers shared by the pattern engine and the protocol parser:
//! splitting on a separator character, stripping ignored characters,
//! lower-casing, and first-occurrence search.

use vstd::prelude::*;
use vstd::string::StrSliceExecFns;
use vstd::string::StringExecFns;

verus! {

/// The tokens of `s` split on `sep`, keeping empty tokens, as `str::split` does.
pub open spec fn split_on(s: Seq<char>, sep: char) -> Seq<Seq<char>>
    decreases s.len(),
{
    if s.len() == 0 {
        seq![Seq::<char>::empty()]
    } else if s[0] == sep {
        seq![Seq::<char>::empty()] + split_on(s.drop_first(), sep)
    } else {
        let rest = split_on(s.drop_first(), sep);
        seq![seq![s[0]] + rest[0]] + rest.drop_first()
    }
}

proof fn lemma_split_on_len(s: Seq<char>, sep: char)
    ensures
        split_on(s, sep).len() >= 1,
    decreases s.len(),
{
    if s.len() != 0 {
        lemma_split_on_len(s.drop_first(), sep);
    }
}

/// The tokens of `s` split on `sep` as `str::split_terminator` does:
/// an empty input has no token, and one trailing empty token is dropped.
pub open spec fn split_term_on(s: Seq<char>, sep: char) -> Seq<Seq<char>> {
    if s.len() == 0 {
        Seq::<Seq<char>>::empty()
    } else {
        let t = split_on(s, sep);
        if t.last().len() == 0 {
            t.drop_last()
        } else {
            t
        }
    }
}

/// The lines of `s` split on the two-character terminator `"\r\n"`,
/// keeping empty lines, as `str::split` does.
pub open spec fn split_crlf(s: Seq<char>) -> Seq<Seq<char>>
    decreases s.len(),
{
    if s.len() == 0 {
        seq![Seq::<char>::empty()]
    } else if s.len() >= 2 && s[0] == '\r' && s[1] == '\n' {
        seq![Seq::<char>::empty()] + split_crlf(s.skip(2))
    } else {
        let rest = split_crlf(s.drop_first());
        seq![seq![s[0]] + rest[0]] + rest.drop_first()
    }
}

proof fn lemma_split_crlf_len(s: Seq<char>)
    ensures
        split_crlf(s).len() >= 1,
    decreases s.len(),
{
    if s.len() >= 2 && s[0] == '\r' && s[1] == '\n' {
        lemma_split_crlf_len(s.skip(2));
    } else if s.len() != 0 {
        lemma_split_crlf_len(s.drop_first());
    }
}

/// `s` with every character that occurs in `ignore` removed.
pub open spec fn strip_of(ignore: Seq<char>, s: Seq<char>) -> Seq<char>
    decreases s.len(),
{
    if s.len() == 0 {
        Seq::<char>::empty()
    } else if ignore.contains(s[0]) {
        strip_of(ignore, s.drop_first())
    } else {
        seq![s[0]] + strip_of(ignore, s.drop_first())
    }
}

proof fn lemma_strip_of_concat(ignore: Seq<char>, a: Seq<char>, b: Seq<char>)
    ensures
        strip_of(ignore, a + b) == strip_of(ignore, a) + strip_of(ignore, b),
    decreases a.len(),
{
    if a.len() == 0 {
        assert(a + b =~= b);
        assert(strip_of(ignore, a) + strip_of(ignore, b) =~= strip_of(ignore, b));
    } else {
        assert((a + b).drop_first() =~= a.drop_first() + b);
        lemma_strip_of_concat(ignore, a.drop_first(), b);
        if ignore.contains(a[0]) {
            assert(strip_of(ignore, a + b) == strip_of(ignore, a.drop_first() + b));
        } else {
            assert(seq![a[0]] + (strip_of(ignore, a.drop_first()) + strip_of(ignore, b)) =~= (
            seq![a[0]] + strip_of(ignore, a.drop_first())) + strip_of(ignore, b));
        }
    }
}

/// The index of the first occurrence of `c` in `s`, or -1 if `c` does not occur.
pub open spec fn find_of(s: Seq<char>, c: char) -> int
    decreases s.len(),
{
    if s.len() == 0 {
        -1
    } else if s[0] == c {
        0
    } else if find_of(s.drop_first(), c) == -1 {
        -1
    } else {
        1 + find_of(s.drop_first(), c)
    }
}

pub proof fn lemma_find_of(s: Seq<char>, c: char)
    ensures
        find_of(s, c) == -1 ==> forall|j: int| 0 <= j < s.len() ==> s[j] != c,
        find_of(s, c) != -1 ==> {
            &&& 0 <= find_of(s, c) < s.len()
            &&& s[find_of(s, c)] == c
            &&& forall|j: int| 0 <= j < find_of(s, c) ==> s[j] != c
        },
    decreases s.len(),
{
    if s.len() != 0 && s[0] != c {
        let rest = s.drop_first();
        lemma_find_of(rest, c);
        if find_of(rest, c) == -1 {
            assert forall|j: int| 0 <= j < s.len() implies s[j] != c by {
                if j >= 1 {
                    assert(s[j] == rest[j - 1]);
                }
            }
        } else {
            assert(s[find_of(s, c)] == rest[find_of(rest, c)]);
            assert forall|j: int| 0 <= j < find_of(s, c) implies s[j] != c by {
                if j >= 1 {
                    assert(s[j] == rest[j - 1]);
                }
            }
        }
    }
}

proof fn lemma_strip_of_single(ignore: Seq<char>, c: char)
    ensures
        strip_of(ignore, seq![c]) == if ignore.contains(c) {
            Seq::<char>::empty()
        } else {
            seq![c]
        },
{
    assert(seq![c].drop_first() =~= Seq::<char>::empty());
    assert(strip_of(ignore, seq![c].drop_first()) =~= Seq::<char>::empty());
    if ignore.contains(c) {
        assert(strip_of(ignore, seq![c]) =~= Seq::<char>::empty());
    } else {
        assert(strip_of(ignore, seq![c]) =~= seq![c] + strip_of(ignore, seq![c].drop_first()));
        assert(seq![c] + Seq::<char>::empty() =~= seq![c]);
    }
}

/// The views of a sequence of strings.
pub open spec fn views_of(ss: Seq<String>) -> Seq<Seq<char>> {
    ss.map_values(|s: String| s@)
}

pub proof fn lemma_contains_push<A>(s: Seq<A>, x: A, c: A)
    ensures
        s.push(x).contains(c) <==> (s.contains(c) || c == x),
{
    if s.push(x).contains(c) {
        let q = choose|q: int| 0 <= q < s.push(x).len() && s.push(x)[q] == c;
        if q < s.len() {
            assert(s[q] == c);
        }
    }
    if s.contains(c) {
        let q = choose|q: int| 0 <= q < s.len() && s[q] == c;
        assert(s.push(x)[q] == c);
    }
    if c == x {
        assert(s.push(x)[s.len() as int] == c);
    }
}

pub proof fn lemma_views_push(v: Seq<String>, x: String)
    ensures
        views_of(v.push(x)) == views_of(v).push(x@),
{
    assert(views_of(v.push(x)) =~= views_of(v).push(x@));
}

/// What `str::to_lowercase` returns: a function of the characters alone.
pub uninterp spec fn lower_of(s: Seq<char>) -> Seq<char>;

/// Relies on `str::to_lowercase`: the result depends only on the input characters.
#[verifier::external_body]
pub(crate) fn lowercase(s: &str) -> (r: String)
    ensures
        r@ == lower_of(s@),
{
    s.to_lowercase()
}

/// Relies on `String: FromIterator<char>`: collecting chars concatenates them in order.
#[verifier::external_body]
pub(crate) fn string_from_chars(chars: &Vec<char>) -> (r: String)
    ensures
        r@ == chars@,
{
    chars.iter().collect()
}

/// The characters of `s`, in order.
pub fn chars_of(s: &str) -> (v: Vec<char>)
    ensures
        v@ == s@,
{
    let n: usize = s.unicode_len();
    let mut v: Vec<char> = Vec::new();
    let mut i: usize = 0;
    while i < n
        invariant
            n == s@.len(),
            i <= n,
            v@ == s@.subrange(0, i as int),
        decreases n - i,
    {
        let c = s.get_char(i);
        v.push(c);
        proof {
            assert(v@ =~= s@.subrange(0, i + 1));
        }
        i = i + 1;
    }
    proof {
        assert(s@.subrange(0, n as int) =~= s@);
    }
    v
}

/// Whether two string slices hold the same characters.
pub fn str_eq(a: &str, b: &str) -> (r: bool)
    ensures
        r == (a@ == b@),
{
    let na: usize = a.unicode_len();
    let nb: usize = b.unicode_len();
    if na != nb {
        return false;
    }
    let mut i: usize = 0;
    while i < na
        invariant
            na == a@.len(),
            na == b@.len(),
            i <= na,
            forall|j: int| 0 <= j < i ==> a@[j] == b@[j],
        decreases na - i,
    {
        if a.get_char(i) != b.get_char(i) {
            return false;
        }
        i = i + 1;
    }
    proof {
        assert(a@ =~= b@);
    }
    true
}

/// Whether `c` occurs in `s`.
pub fn str_has_char(s: &str, c: char) -> (r: bool)
    ensures
        r == s@.contains(c),
{
    let n: usize = s.unicode_len();
    let mut i: usize = 0;
    while i < n
        invariant
            n == s@.len(),
            i <= n,
            forall|j: int| 0 <= j < i ==> s@[j] != c,
        decreases n - i,
    {
        if s.get_char(i) == c {
            assert(s@.contains(c));
            return true;
        }
        i = i + 1;
    }
    false
}

/// The first occurrence of `c` in `s`, if any.
pub fn find_char(s: &str, c: char) -> (r: Option<usize>)
    ensures
        match r {
            Some(i) => find_of(s@, c) == i as int,
            None => find_of(s@, c) == -1,
        },
{
    let n: usize = s.unicode_len();
    let mut i: usize = 0;
    while i < n
        invariant
            n == s@.len(),
            i <= n,
            forall|j: int| 0 <= j < i ==> s@[j] != c,
        decreases n - i,
    {
        if s.get_char(i) == c {
            proof {
                lemma_find_of(s@, c);
            }
            return Some(i);
        }
        i = i + 1;
    }
    proof {
        lemma_find_of(s@, c);
    }
    None
}

/// Splits `s` on `sep`, keeping empty tokens, as `str::split` does.
pub fn split_char(s: &str, sep: char) -> (tokens: Vec<String>)
    ensures
        tokens@.map_values(|t: String| t@) == split_on(s@, sep),
{
    let n: usize = s.unicode_len();
    let mut out: Vec<String> = Vec::new();
    let mut cur: Vec<char> = Vec::new();
    let mut i: usize = 0;
    proof {
        lemma_split_on_len(s@, sep);
        assert(s@.subrange(0, n as int) =~= s@);
        assert(out@.map_values(|t: String| t@) =~= Seq::<Seq<char>>::empty());
        assert(cur@ + split_on(s@, sep)[0] =~= split_on(s@, sep)[0]);
        assert(out@.map_values(|t: String| t@) + seq![cur@ + split_on(s@, sep)[0]] + split_on(
            s@,
            sep,
        ).drop_first() =~= split_on(s@, sep));
    }
    while i < n
        invariant
            n == s@.len(),
            i <= n,
            split_on(s@, sep) == out@.map_values(|t: String| t@) + seq![
                cur@ + split_on(s@.subrange(i as int, n as int), sep)[0],
            ] + split_on(s@.subrange(i as int, n as int), sep).drop_first(),
        decreases n - i,
    {
        let ghost rem = s@.subrange(i as int, n as int);
        let ghost rem2 = s@.subrange(i + 1, n as int);
        proof {
            assert(rem.len() > 0);
            assert(rem[0] == s@[i as int]);
            assert(rem.drop_first() =~= rem2);
            lemma_split_on_len(rem2, sep);
        }
        let c = s.get_char(i);
        if c == sep {
            let ghost old_out = out@;
            let ghost old_cur = cur@;
            out.push(string_from_chars(&cur));
            cur = Vec::new();
            proof {
                assert(split_on(rem, sep) == seq![Seq::<char>::empty()] + split_on(rem2, sep));
                assert(out@.map_values(|t: String| t@) =~= old_out.map_values(|t: String| t@)
                    + seq![old_cur]);
                assert(old_cur + split_on(rem, sep)[0] =~= old_cur);
                assert(cur@ + split_on(rem2, sep)[0] =~= split_on(rem2, sep)[0]);
                assert(out@.map_values(|t: String| t@) + seq![
                    cur@ + split_on(rem2, sep)[0],
                ] + split_on(rem2, sep).drop_first() =~= old_out.map_values(|t: String| t@)
                    + seq![old_cur + split_on(rem, sep)[0]] + split_on(rem, sep).drop_first());
            }
        } else {
            let ghost old_cur = cur@;
            cur.push(c);
            proof {
                let rest = split_on(rem2, sep);
                assert(split_on(rem, sep) == seq![seq![rem[0]] + rest[0]] + rest.drop_first());
                assert(old_cur + split_on(rem, sep)[0] =~= cur@ + rest[0]);
                assert(split_on(rem, sep).drop_first() =~= rest.drop_first());
            }
        }
        i = i + 1;
    }
    proof {
        assert(s@.subrange(n as int, n as int) =~= Seq::<char>::empty());
        assert(split_on(Seq::<char>::empty(), sep) == seq![Seq::<char>::empty()]);
    }
    let ghost old_out = out@;
    let ghost old_cur = cur@;
    out.push(string_from_chars(&cur));
    proof {
        assert(old_cur + split_on(s@.subrange(n as int, n as int), sep)[0] =~= old_cur);
        assert(split_on(s@.subrange(n as int, n as int), sep).drop_first()
            =~= Seq::<Seq<char>>::empty());
        assert(out@.map_values(|t: String| t@) =~= old_out.map_values(|t: String| t@)
            + seq![old_cur]);
        assert(split_on(s@, sep) =~= out@.map_values(|t: String| t@));
    }
    out
}

/// Splits `s` on `sep` as `str::split_terminator` does: an empty input has
/// no token, and one trailing empty token is dropped.
pub fn split_term_char(s: &str, sep: char) -> (tokens: Vec<String>)
    ensures
        views_of(tokens@) == split_term_on(s@, sep),
{
    if s.is_empty() {
        let v: Vec<String> = Vec::new();
        proof {
            assert(views_of(v@) =~= split_term_on(s@, sep));
        }
        return v;
    }
    let mut v = split_char(s, sep);
    proof {
        lemma_split_on_len(s@, sep);
        assert(views_of(v@).len() == v@.len());
    }
    let last = v.len() - 1;
    if v[last].as_str().is_empty() {
        let ghost before = v@;
        let _dropped = v.pop();
        proof {
            assert(views_of(before).last() == before[before.len() - 1]@);
            assert(views_of(v@) =~= views_of(before).drop_last());
            assert(views_of(v@) =~= split_term_on(s@, sep));
        }
    } else {
        proof {
            assert(views_of(v@).last() == v@[v@.len() - 1]@);
            assert(views_of(v@) =~= split_term_on(s@, sep));
        }
    }
    v
}

/// Splits `s` into lines on the two-character terminator, as the protocol
/// frames its messages.
pub fn split_crlf_str(s: &str) -> (lines: Vec<String>)
    ensures
        views_of(lines@) == split_crlf(s@),
{
    let n: usize = s.unicode_len();
    let mut out: Vec<String> = Vec::new();
    let mut cur: Vec<char> = Vec::new();
    let mut i: usize = 0;
    proof {
        lemma_split_crlf_len(s@);
        assert(s@.subrange(0, n as int) =~= s@);
        assert(out@.map_values(|t: String| t@) =~= Seq::<Seq<char>>::empty());
        assert(cur@ + split_crlf(s@)[0] =~= split_crlf(s@)[0]);
        assert(out@.map_values(|t: String| t@) + seq![cur@ + split_crlf(s@)[0]] + split_crlf(
            s@,
        ).drop_first() =~= split_crlf(s@));
    }
    while i < n
        invariant
            n == s@.len(),
            i <= n,
            split_crlf(s@) == out@.map_values(|t: String| t@) + seq![
                cur@ + split_crlf(s@.subrange(i as int, n as int))[0],
            ] + split_crlf(s@.subrange(i as int, n as int)).drop_first(),
        decreases n - i,
    {
        let ghost rem = s@.subrange(i as int, n as int);
        proof {
            assert(rem.len() > 0);
            assert(rem[0] == s@[i as int]);
        }
        let c = s.get_char(i);
        let is_crlf = c == '\r' && i + 1 < n && s.get_char(i + 1) == '\n';
        if is_crlf {
            let ghost rem2 = s@.subrange(i + 2, n as int);
            proof {
                assert(rem[1] == s@[i + 1]);
                assert(rem.skip(2) =~= rem2);
                lemma_split_crlf_len(rem2);
            }
            let ghost old_out = out@;
            let ghost old_cur = cur@;
            out.push(string_from_chars(&cur));
            cur = Vec::new();
            proof {
                assert(split_crlf(rem) == seq![Seq::<char>::empty()] + split_crlf(rem2));
                assert(out@.map_values(|t: String| t@) =~= old_out.map_values(|t: String| t@)
                    + seq![old_cur]);
                assert(old_cur + split_crlf(rem)[0] =~= old_cur);
                assert(cur@ + split_crlf(rem2)[0] =~= split_crlf(rem2)[0]);
                assert(out@.map_values(|t: String| t@) + seq![
                    cur@ + split_crlf(rem2)[0],
                ] + split_crlf(rem2).drop_first() =~= old_out.map_values(|t: String| t@) + seq![
                    old_cur + split_crlf(rem)[0],
                ] + split_crlf(rem).drop_first());
            }
            i = i + 2;
        } else {
            let ghost rem2 = s@.subrange(i + 1, n as int);
            proof {
                assert(rem.drop_first() =~= rem2);
                lemma_split_crlf_len(rem2);
                if rem.len() >= 2 {
                    assert(rem[1] == s@[i + 1]);
                }
            }
            let ghost old_cur = cur@;
            cur.push(c);
            proof {
                let rest = split_crlf(rem2);
                assert(!(rem.len() >= 2 && rem[0] == '\r' && rem[1] == '\n'));
                assert(split_crlf(rem) == seq![seq![rem[0]] + rest[0]] + rest.drop_first());
                assert(old_cur + split_crlf(rem)[0] =~= cur@ + rest[0]);
                assert(split_crlf(rem).drop_first() =~= rest.drop_first());
            }
            i = i + 1;
        }
    }
    proof {
        assert(s@.subrange(n as int, n as int) =~= Seq::<char>::empty());
        assert(split_crlf(Seq::<char>::empty()) == seq![Seq::<char>::empty()]);
    }
    let ghost old_out = out@;
    let ghost old_cur = cur@;
    out.push(string_from_chars(&cur));
    proof {
        assert(old_cur + split_crlf(s@.subrange(n as int, n as int))[0] =~= old_cur);
        assert(split_crlf(s@.subrange(n as int, n as int)).drop_first()
            =~= Seq::<Seq<char>>::empty());
        assert(out@.map_values(|t: String| t@) =~= old_out.map_values(|t: String| t@)
            + seq![old_cur]);
        assert(split_crlf(s@) =~= out@.map_values(|t: String| t@));
    }
    out
}

/// Removes from `s` every character that occurs in `ignore`.
pub fn strip_chars(s: &str, ignore: &str) -> (kept: Vec<char>)
    ensures
        kept@ == strip_of(ignore@, s@),
{
    let n: usize = s.unicode_len();
    let mut kept: Vec<char> = Vec::new();
    let mut i: usize = 0;
    while i < n
        invariant
            n == s@.len(),
            i <= n,
            kept@ == strip_of(ignore@, s@.subrange(0, i as int)),
        decreases n - i,
    {
        let ghost pre = s@.subrange(0, i as int);
        let ghost one = s@.subrange(i as int, i + 1);
        let c = s.get_char(i);
        proof {
            assert(s@.subrange(0, i + 1) =~= pre + one);
            lemma_strip_of_concat(ignore@, pre, one);
            assert(one =~= seq![c]);
            assert(one.drop_first() =~= Seq::<char>::empty());
        }
        proof {
            lemma_strip_of_single(ignore@, c);
        }
        if !str_has_char(ignore, c) {
            kept.push(c);
            proof {
                assert(kept@ =~= strip_of(ignore@, pre) + seq![c]);
            }
        } else {
            proof {
                assert(kept@ =~= strip_of(ignore@, pre) + strip_of(ignore@, one));
            }
        }
        i = i + 1;
    }
    proof {
        assert(s@.subrange(0, n as int) =~= s@);
    }
    kept
}

} // verus!
