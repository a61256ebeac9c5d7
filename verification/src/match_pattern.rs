//! The word-matching engine: a set of normalized words, a match mode, and
//! cached length bounds used to prune candidate tokens.
//!
//! A message matches when one of its space-delimited tokens, normalized the
//! same way as the stored words, hits the word set under the current mode:
//! `Inclusive` looks for a word occurring as a contiguous run inside the
//! token, `Exclusive` for a token equal to a word.

use crate::strutil::{
    chars_of, lower_of, lowercase, split_char, split_on, str_eq, string_from_chars, strip_chars,
    strip_of, views_of,
};
use vstd::prelude::*;
use vstd::string::StrSliceExecFns;
use vstd::string::StringExecFns;

verus! {

/// How a normalized token is compared against the word set.
#[derive(Clone, Copy, Debug, PartialEq, Eq, Structural)]
pub enum MatchMode {
    Inclusive,
    Exclusive,
}

impl Default for MatchMode {
    /// The mode a pattern starts in when none is chosen.
    fn default() -> (r: Self)
        ensures
            r == MatchMode::Exclusive,
    {
        MatchMode::Exclusive
    }
}

/// A word or token after normalization: ignored characters stripped, then
/// lower-cased.
pub open spec fn norm_of(ignore: Seq<char>, s: Seq<char>) -> Seq<char> {
    lower_of(strip_of(ignore, s))
}

/// Whether `run` occurs in `t` as a contiguous run.
pub open spec fn contains_run(t: Seq<char>, run: Seq<char>) -> bool {
    exists|i: int|
        0 <= i && i + run.len() <= t.len() && #[trigger] t.subrange(i, i + run.len() as int) == run
}

/// Whether `mn` and `mx` are the least and greatest length over `ws`,
/// or both zero when `ws` is empty.
pub open spec fn len_bounds_ok(ws: Seq<Seq<char>>, mn: usize, mx: usize) -> bool {
    if ws.len() == 0 {
        mn == 0 && mx == 0
    } else {
        &&& exists|i: int| 0 <= i < ws.len() && ws[i].len() == mn
        &&& exists|i: int| 0 <= i < ws.len() && ws[i].len() == mx
        &&& forall|i: int| 0 <= i < ws.len() ==> mn <= #[trigger] ws[i].len() <= mx
    }
}

/// The index of the first word in `ws` equal to `w`, or -1 if none is.
pub open spec fn find_word(ws: Seq<Seq<char>>, w: Seq<char>) -> int
    decreases ws.len(),
{
    if ws.len() == 0 {
        -1
    } else if ws[0] == w {
        0
    } else if find_word(ws.drop_first(), w) == -1 {
        -1
    } else {
        1 + find_word(ws.drop_first(), w)
    }
}

pub proof fn lemma_find_word(ws: Seq<Seq<char>>, w: Seq<char>)
    ensures
        find_word(ws, w) == -1 ==> forall|j: int| 0 <= j < ws.len() ==> ws[j] != w,
        find_word(ws, w) != -1 ==> {
            &&& 0 <= find_word(ws, w) < ws.len()
            &&& ws[find_word(ws, w)] == w
            &&& forall|j: int| 0 <= j < find_word(ws, w) ==> ws[j] != w
        },
    decreases ws.len(),
{
    if ws.len() != 0 && ws[0] != w {
        let rest = ws.drop_first();
        lemma_find_word(rest, w);
        if find_word(rest, w) == -1 {
            assert forall|j: int| 0 <= j < ws.len() implies ws[j] != w by {
                if j >= 1 {
                    assert(ws[j] == rest[j - 1]);
                }
            }
        } else {
            assert(ws[find_word(ws, w)] == rest[find_word(rest, w)]);
            assert forall|j: int| 0 <= j < find_word(ws, w) implies ws[j] != w by {
                if j >= 1 {
                    assert(ws[j] == rest[j - 1]);
                }
            }
        }
    }
}

/// After any sequence of mutations a well-formed pattern's cached bounds
/// are exactly the least and greatest word length over its word set, or
/// both zero when the set is empty.
pub proof fn lemma_wf_meaning(p: MatchPattern)
    ensures
        p.wf() <==> len_bounds_ok(p.spec_words(), p.spec_min_len(), p.spec_max_len()),
{
}

/// In the substring mode a message matches exactly when some of its
/// space-delimited tokens, normalized, contains some pattern word as a
/// contiguous run.
pub proof fn lemma_substring_match_meaning(p: MatchPattern, msg: Seq<char>)
    requires
        p.spec_mode() == MatchMode::Inclusive,
    ensures
        p.spec_match(msg) <==> exists|k: int, i: int|
            0 <= k < split_on(msg, ' ').len() && 0 <= i < p.spec_words().len()
                && #[trigger] contains_run(
                norm_of(p.spec_ignore(), split_on(msg, ' ')[k]),
                p.spec_words()[i],
            ),
{
    if p.spec_match(msg) {
        let k = choose|k: int|
            0 <= k < split_on(msg, ' ').len() && p.token_hit(
                norm_of(p.spec_ignore(), split_on(msg, ' ')[k]),
            );
        let t = norm_of(p.spec_ignore(), split_on(msg, ' ')[k]);
        let i = choose|i: int|
            0 <= i < p.spec_words().len() && contains_run(t, p.spec_words()[i]);
        assert(contains_run(norm_of(p.spec_ignore(), split_on(msg, ' ')[k]), p.spec_words()[i]));
    }
    if exists|k: int, i: int|
        0 <= k < split_on(msg, ' ').len() && 0 <= i < p.spec_words().len()
            && #[trigger] contains_run(
            norm_of(p.spec_ignore(), split_on(msg, ' ')[k]),
            p.spec_words()[i],
        ) {
        let (k, i) = choose|k: int, i: int|
            0 <= k < split_on(msg, ' ').len() && 0 <= i < p.spec_words().len()
                && #[trigger] contains_run(
                norm_of(p.spec_ignore(), split_on(msg, ' ')[k]),
                p.spec_words()[i],
            );
        assert(p.token_hit(norm_of(p.spec_ignore(), split_on(msg, ' ')[k])));
    }
}

/// In the exact mode a message matches exactly when some of its
/// space-delimited tokens, normalized, equals some pattern word.
pub proof fn lemma_exact_match_meaning(p: MatchPattern, msg: Seq<char>)
    requires
        p.spec_mode() == MatchMode::Exclusive,
    ensures
        p.spec_match(msg) <==> exists|k: int, i: int|
            0 <= k < split_on(msg, ' ').len() && 0 <= i < p.spec_words().len()
                && #[trigger] p.spec_words()[i] == norm_of(
                p.spec_ignore(),
                #[trigger] split_on(msg, ' ')[k],
            ),
{
    if p.spec_match(msg) {
        let k = choose|k: int|
            0 <= k < split_on(msg, ' ').len() && p.token_hit(
                norm_of(p.spec_ignore(), split_on(msg, ' ')[k]),
            );
        let t = norm_of(p.spec_ignore(), split_on(msg, ' ')[k]);
        let i = choose|i: int| 0 <= i < p.spec_words().len() && p.spec_words()[i] == t;
        assert(p.spec_words()[i] == norm_of(p.spec_ignore(), split_on(msg, ' ')[k]));
    }
    if exists|k: int, i: int|
        0 <= k < split_on(msg, ' ').len() && 0 <= i < p.spec_words().len()
            && #[trigger] p.spec_words()[i] == norm_of(
            p.spec_ignore(),
            #[trigger] split_on(msg, ' ')[k],
        ) {
        let (k, i) = choose|k: int, i: int|
            0 <= k < split_on(msg, ' ').len() && 0 <= i < p.spec_words().len()
                && #[trigger] p.spec_words()[i] == norm_of(
                p.spec_ignore(),
                #[trigger] split_on(msg, ' ')[k],
            );
        assert(p.token_hit(norm_of(p.spec_ignore(), split_on(msg, ' ')[k])));
    }
}

/// A named, mode-tagged set of normalized trigger words with cached
/// length bounds.
#[derive(Debug, Clone)]
pub struct MatchPattern {
    words: Vec<String>,
    ignore_chars: String,
    max_len: usize,
    min_len: usize,
    mode: MatchMode,
}

/// Builds a [`MatchPattern`] by chained calls.
pub struct MatchPatternBuilder {
    pattern: MatchPattern,
}

impl MatchPattern {
    /// The views of the stored words.
    pub closed spec fn spec_words(self) -> Seq<Seq<char>> {
        views_of(self.words@)
    }

    pub closed spec fn spec_mode(self) -> MatchMode {
        self.mode
    }

    pub closed spec fn spec_ignore(self) -> Seq<char> {
        self.ignore_chars@
    }

    pub closed spec fn spec_min_len(self) -> usize {
        self.min_len
    }

    pub closed spec fn spec_max_len(self) -> usize {
        self.max_len
    }

    /// The cached bounds are the true length bounds of the word set.
    pub closed spec fn wf(self) -> bool {
        len_bounds_ok(self.spec_words(), self.min_len, self.max_len)
    }

    /// Whether a normalized token hits the word set under the current mode.
    pub closed spec fn token_hit(self, t: Seq<char>) -> bool {
        match self.mode {
            MatchMode::Exclusive => exists|i: int|
                0 <= i < self.spec_words().len() && self.spec_words()[i] == t,
            MatchMode::Inclusive => exists|i: int|
                0 <= i < self.spec_words().len() && contains_run(t, self.spec_words()[i]),
        }
    }

    /// Whether a message matches: some space-delimited token, normalized,
    /// hits the word set.
    pub closed spec fn spec_match(self, msg: Seq<char>) -> bool {
        exists|k: int|
            0 <= k < split_on(msg, ' ').len() && self.token_hit(
                norm_of(self.spec_ignore(), split_on(msg, ' ')[k]),
            )
    }

    /// An empty pattern: no words, zero bounds, the default mode.
    pub fn new() -> (p: Self)
        ensures
            p.spec_words() == Seq::<Seq<char>>::empty(),
            p.spec_ignore() == Seq::<char>::empty(),
            p.spec_mode() == MatchMode::Exclusive,
            p.spec_min_len() == 0,
            p.spec_max_len() == 0,
            p.wf(),
    {
        let p = MatchPattern {
            words: Vec::new(),
            ignore_chars: String::new(),
            max_len: 0,
            min_len: 0,
            mode: MatchMode::Exclusive,
        };
        proof {
            assert(p.spec_words() =~= Seq::<Seq<char>>::empty());
        }
        p
    }

    pub fn builder() -> (b: MatchPatternBuilder)
        ensures
            b.spec_pattern().spec_words() == Seq::<Seq<char>>::empty(),
            b.spec_pattern().spec_ignore() == Seq::<char>::empty(),
            b.spec_pattern().spec_mode() == MatchMode::Exclusive,
            b.spec_pattern().wf(),
    {
        MatchPatternBuilder::new()
    }

    pub fn mode(&self) -> (m: MatchMode)
        ensures
            m == self.spec_mode(),
    {
        self.mode
    }

    pub fn words(&self) -> (ws: &Vec<String>)
        ensures
            views_of(ws@) == self.spec_words(),
    {
        &self.words
    }

    pub fn min_len(&self) -> (n: usize)
        ensures
            n == self.spec_min_len(),
    {
        self.min_len
    }

    pub fn max_len(&self) -> (n: usize)
        ensures
            n == self.spec_max_len(),
    {
        self.max_len
    }

    pub fn set_mode(&mut self, mode: MatchMode)
        ensures
            final(self).spec_mode() == mode,
            final(self).spec_words() == old(self).spec_words(),
            final(self).spec_ignore() == old(self).spec_ignore(),
            final(self).spec_min_len() == old(self).spec_min_len(),
            final(self).spec_max_len() == old(self).spec_max_len(),
            final(self).wf() == old(self).wf(),
    {
        self.mode = mode;
    }

    /// Normalizes a word or token: ignored characters stripped, then
    /// lower-cased.
    pub fn format_word(&self, w: &str) -> (r: String)
        ensures
            r@ == norm_of(self.spec_ignore(), w@),
    {
        let kept = strip_chars(w, self.ignore_chars.as_str());
        let joined = string_from_chars(&kept);
        lowercase(joined.as_str())
    }

    /// Inserts one word, normalized, and refreshes the length bounds.
    pub fn insert(&mut self, word: &str)
        ensures
            final(self).spec_words() == old(self).spec_words().push(
                norm_of(old(self).spec_ignore(), word@),
            ),
            final(self).spec_ignore() == old(self).spec_ignore(),
            final(self).spec_mode() == old(self).spec_mode(),
            final(self).wf(),
    {
        let f = self.format_word(word);
        proof {
            crate::strutil::lemma_views_push(self.words@, f);
        }
        self.words.push(f);
        self.on_words_mut();
    }

    /// Appends every word of `words`, normalized, and refreshes the bounds.
    pub fn extend(&mut self, words: Vec<String>)
        ensures
            final(self).spec_words() == old(self).spec_words() + words@.map_values(
                |w: String| norm_of(old(self).spec_ignore(), w@),
            ),
            final(self).spec_ignore() == old(self).spec_ignore(),
            final(self).spec_mode() == old(self).spec_mode(),
            final(self).wf(),
    {
        let ghost orig = *self;
        let n = words.len();
        let mut k: usize = 0;
        while k < n
            invariant
                n == words@.len(),
                k <= n,
                self.spec_words() == orig.spec_words() + words@.subrange(0, k as int).map_values(
                    |w: String| norm_of(orig.spec_ignore(), w@),
                ),
                self.spec_ignore() == orig.spec_ignore(),
                self.spec_mode() == orig.spec_mode(),
            decreases n - k,
        {
            let f = self.format_word(words[k].as_str());
            proof {
                crate::strutil::lemma_views_push(self.words@, f);
                assert(words@.subrange(0, k + 1).map_values(
                    |w: String| norm_of(orig.spec_ignore(), w@),
                ) =~= words@.subrange(0, k as int).map_values(
                    |w: String| norm_of(orig.spec_ignore(), w@),
                ).push(norm_of(orig.spec_ignore(), words@[k as int]@)));
            }
            self.words.push(f);
            k = k + 1;
        }
        proof {
            assert(words@.subrange(0, n as int) =~= words@);
        }
        self.on_words_mut();
    }

    /// Removes the first word equal to `word` (compared verbatim, not
    /// normalized) by swapping in the last word; reports whether one was
    /// removed.
    pub fn remove(&mut self, word: &str) -> (r: bool)
        ensures
            r == (find_word(old(self).spec_words(), word@) != -1),
            !r ==> *final(self) == *old(self),
            r ==> {
                let p = find_word(old(self).spec_words(), word@);
                final(self).spec_words() == old(self).spec_words().update(
                    p,
                    old(self).spec_words().last(),
                ).drop_last()
            },
            final(self).spec_ignore() == old(self).spec_ignore(),
            final(self).spec_mode() == old(self).spec_mode(),
            r ==> final(self).wf(),
            !r ==> final(self).wf() == old(self).wf(),
    {
        let ghost orig = *self;
        let n = self.words.len();
        let mut p: usize = 0;
        while p < n
            invariant
                *self == orig,
                orig == *old(self),
                n == self.words@.len(),
                p <= n,
                forall|j: int| 0 <= j < p ==> orig.spec_words()[j] != word@,
            decreases n - p,
        {
            if str_eq(self.words[p].as_str(), word) {
                let ghost ws = self.spec_words();
                proof {
                    lemma_find_word(ws, word@);
                    assert(ws[p as int] == word@);
                    assert(find_word(ws, word@) == p as int);
                }
                self.words.swap_remove(p);
                proof {
                    assert(self.spec_words() =~= ws.update(p as int, ws.last()).drop_last());
                }
                self.on_words_mut();
                return true;
            }
            p = p + 1;
        }
        proof {
            lemma_find_word(orig.spec_words(), word@);
        }
        false
    }

    /// Removes the word at position `p` by swapping in the last word;
    /// reports whether `p` was in range.
    pub fn remove_position(&mut self, p: usize) -> (r: bool)
        ensures
            r == (p < old(self).spec_words().len()),
            !r ==> *final(self) == *old(self),
            r ==> final(self).spec_words() == old(self).spec_words().update(
                p as int,
                old(self).spec_words().last(),
            ).drop_last(),
            final(self).spec_ignore() == old(self).spec_ignore(),
            final(self).spec_mode() == old(self).spec_mode(),
            r ==> final(self).wf(),
    {
        if p >= self.words.len() {
            return false;
        }
        let ghost ws = self.spec_words();
        self.words.swap_remove(p);
        proof {
            assert(self.spec_words() =~= ws.update(p as int, ws.last()).drop_last());
        }
        self.on_words_mut();
        true
    }

    /// Whether the message matches the pattern: splits on single spaces,
    /// normalizes each token, prunes tokens shorter than the least word
    /// length, and compares under the current mode.
    pub fn match_str(&self, text: &str) -> (r: bool)
        requires
            self.wf(),
        ensures
            r == self.spec_match(text@),
    {
        let tokens = split_char(text, ' ');
        let ghost toks = split_on(text@, ' ');
        let n = tokens.len();
        let mut k: usize = 0;
        while k < n
            invariant
                self.wf(),
                n == toks.len(),
                k <= n,
                toks == split_on(text@, ' '),
                views_of(tokens@) == toks,
                forall|j: int|
                    0 <= j < k ==> !self.token_hit(norm_of(self.spec_ignore(), toks[j])),
            decreases n - k,
        {
            let f = self.format_word(tokens[k].as_str());
            proof {
                assert(toks[k as int] == tokens@[k as int]@);
                assert(f@ == norm_of(self.spec_ignore(), toks[k as int]));
            }
            if self.min_len <= f.as_str().unicode_len() {
                let hit = match self.mode {
                    MatchMode::Inclusive => self.match_inclusive(&f),
                    MatchMode::Exclusive => self.match_exclusive(&f),
                };
                if hit {
                    proof {
                        assert(self.token_hit(f@));
                        assert(0 <= k < split_on(text@, ' ').len() && self.token_hit(
                            norm_of(self.spec_ignore(), split_on(text@, ' ')[k as int]),
                        ));
                    }
                    return true;
                } else {
                    proof {
                        assert(!self.token_hit(f@));
                    }
                }
            } else {
                proof {
                    self.lemma_short_token_misses(f@);
                }
            }
            k = k + 1;
        }
        false
    }

    /// A token shorter than the least word length can hit no word.
    proof fn lemma_short_token_misses(self, t: Seq<char>)
        requires
            self.wf(),
            t.len() < self.spec_min_len(),
        ensures
            !self.token_hit(t),
    {
        if self.token_hit(t) {
            match self.mode {
                MatchMode::Exclusive => {
                    let i = choose|i: int|
                        0 <= i < self.spec_words().len() && self.spec_words()[i] == t;
                    assert(self.spec_words()[i].len() >= self.min_len);
                }
                MatchMode::Inclusive => {
                    let i = choose|i: int|
                        0 <= i < self.spec_words().len() && contains_run(t, self.spec_words()[i]);
                    let w = self.spec_words()[i];
                    let j = choose|j: int|
                        0 <= j && j + w.len() <= t.len() && #[trigger] t.subrange(
                            j,
                            j + w.len() as int,
                        ) == w;
                    assert(w.len() >= self.min_len);
                }
            }
        }
    }

    /// Whether some word occurs in the token as a contiguous run.
    fn match_inclusive(&self, token: &String) -> (r: bool)
        ensures
            r == exists|i: int|
                0 <= i < self.spec_words().len() && contains_run(token@, self.spec_words()[i]),
    {
        let t = chars_of(token.as_str());
        let n = self.words.len();
        let mut i: usize = 0;
        while i < n
            invariant
                n == self.spec_words().len(),
                i <= n,
                t@ == token@,
                forall|j: int| 0 <= j < i ==> !contains_run(token@, self.spec_words()[j]),
            decreases n - i,
        {
            let w = chars_of(self.words[i].as_str());
            if contains_run_vec(&t, &w) {
                proof {
                    assert(self.spec_words()[i as int] == self.words@[i as int]@);
                }
                return true;
            }
            proof {
                assert(self.spec_words()[i as int] == self.words@[i as int]@);
            }
            i = i + 1;
        }
        false
    }

    /// Whether some word equals the token.
    fn match_exclusive(&self, token: &String) -> (r: bool)
        ensures
            r == exists|i: int|
                0 <= i < self.spec_words().len() && self.spec_words()[i] == token@,
    {
        let n = self.words.len();
        let mut i: usize = 0;
        while i < n
            invariant
                n == self.spec_words().len(),
                i <= n,
                forall|j: int| 0 <= j < i ==> self.spec_words()[j] != token@,
            decreases n - i,
        {
            proof {
                assert(self.spec_words()[i as int] == self.words@[i as int]@);
            }
            if str_eq(self.words[i].as_str(), token.as_str()) {
                return true;
            }
            i = i + 1;
        }
        false
    }

    /// Refreshes the cached length bounds after the word set changed.
    fn on_words_mut(&mut self)
        ensures
            final(self).words == old(self).words,
            final(self).ignore_chars == old(self).ignore_chars,
            final(self).mode == old(self).mode,
            final(self).wf(),
    {
        let (mn, mx) = MatchPattern::get_minmax_len(&self.words);
        self.min_len = mn;
        self.max_len = mx;
    }

    /// The least and greatest word length over `words`, or `(0, 0)` when
    /// `words` is empty.
    pub fn get_minmax_len(words: &Vec<String>) -> (r: (usize, usize))
        ensures
            len_bounds_ok(views_of(words@), r.0, r.1),
    {
        if words.is_empty() {
            return (0, 0);
        }

        let first = words[0].as_str().unicode_len();
        let mut mn = first;
        let mut mx = first;
        let n = words.len();
        let mut i: usize = 1;
        proof {
            assert(views_of(words@)[0].len() == mn);
        }
        while i < n
            invariant
                n == words@.len(),
                1 <= i <= n,
                exists|j: int| 0 <= j < i && views_of(words@)[j].len() == mn,
                exists|j: int| 0 <= j < i && views_of(words@)[j].len() == mx,
                forall|j: int| 0 <= j < i ==> mn <= #[trigger] views_of(words@)[j].len() <= mx,
            decreases n - i,
        {
            let l = words[i].as_str().unicode_len();
            if mn > l {
                mn = l;
            } else if mx < l {
                mx = l;
            }
            proof {
                assert(views_of(words@)[i as int].len() == l);
            }
            i = i + 1;
        }
        (mn, mx)
    }
}

/// Whether `run` occurs in `t` as a contiguous run, over character vectors.
fn contains_run_vec(t: &Vec<char>, run: &Vec<char>) -> (r: bool)
    ensures
        r == contains_run(t@, run@),
{
    let tn = t.len();
    let rn = run.len();
    if rn > tn {
        proof {
            assert(!contains_run(t@, run@));
        }
        return false;
    }
    let last = tn - rn;
    let mut i: usize = 0;
    loop
        invariant
            tn == t@.len(),
            rn == run@.len(),
            rn <= tn,
            last == tn - rn,
            i <= last + 1,
            forall|k: int| 0 <= k < i ==> #[trigger] t@.subrange(k, k + rn as int) != run@,
        decreases last + 1 - i,
    {
        if i > last {
            proof {
                assert forall|k: int|
                    0 <= k && k + run@.len() <= t@.len() implies #[trigger] t@.subrange(
                    k,
                    k + run@.len() as int,
                ) != run@ by {
                    assert(k < i);
                }
            }
            return false;
        }
        let mut j: usize = 0;
        let mut all_eq = true;
        while j < rn
            invariant
                tn == t@.len(),
                rn == run@.len(),
                i + rn <= tn,
                j <= rn,
                all_eq ==> forall|m: int| 0 <= m < j ==> t@[i + m] == run@[m],
                !all_eq ==> exists|m: int| 0 <= m < rn && t@[i + m] != run@[m],
            decreases rn - j,
        {
            if t[i + j] != run[j] {
                all_eq = false;
                proof {
                    assert(t@[i + j] != run@[j as int]);
                }
                j = rn;
            } else {
                j = j + 1;
            }
        }
        if all_eq {
            proof {
                assert(t@.subrange(i as int, i + rn as int) =~= run@);
                assert(contains_run(t@, run@));
            }
            return true;
        }
        proof {
            if t@.subrange(i as int, i + rn as int) == run@ {
                let m = choose|m: int| 0 <= m < rn && t@[i + m] != run@[m];
                assert(t@.subrange(i as int, i + rn as int)[m] == t@[i + m]);
                assert(false);
            }
        }
        i = i + 1;
    }
}

impl MatchPatternBuilder {
    /// The pattern built so far.
    pub closed spec fn spec_pattern(self) -> MatchPattern {
        self.pattern
    }

    pub fn new() -> (b: Self)
        ensures
            b.spec_pattern().spec_words() == Seq::<Seq<char>>::empty(),
            b.spec_pattern().spec_ignore() == Seq::<char>::empty(),
            b.spec_pattern().spec_mode() == MatchMode::Exclusive,
            b.spec_pattern().wf(),
    {
        MatchPatternBuilder { pattern: MatchPattern::new() }
    }

    pub fn exclusive(self) -> (b: Self)
        ensures
            b.spec_pattern().spec_mode() == MatchMode::Exclusive,
            b.spec_pattern().spec_words() == self.spec_pattern().spec_words(),
            b.spec_pattern().spec_ignore() == self.spec_pattern().spec_ignore(),
            b.spec_pattern().wf() == self.spec_pattern().wf(),
    {
        let mut this = self;
        this.pattern.set_mode(MatchMode::Exclusive);
        this
    }

    pub fn inclusive(self) -> (b: Self)
        ensures
            b.spec_pattern().spec_mode() == MatchMode::Inclusive,
            b.spec_pattern().spec_words() == self.spec_pattern().spec_words(),
            b.spec_pattern().spec_ignore() == self.spec_pattern().spec_ignore(),
            b.spec_pattern().wf() == self.spec_pattern().wf(),
    {
        let mut this = self;
        this.pattern.set_mode(MatchMode::Inclusive);
        this
    }

    pub fn mode(self, m: MatchMode) -> (b: Self)
        ensures
            b.spec_pattern().spec_mode() == m,
            b.spec_pattern().spec_words() == self.spec_pattern().spec_words(),
            b.spec_pattern().spec_ignore() == self.spec_pattern().spec_ignore(),
            b.spec_pattern().wf() == self.spec_pattern().wf(),
    {
        let mut this = self;
        this.pattern.set_mode(m);
        this
    }

    pub fn words(self, words: Vec<String>) -> (b: Self)
        ensures
            b.spec_pattern().spec_words() == self.spec_pattern().spec_words() + words@.map_values(
                |w: String| norm_of(self.spec_pattern().spec_ignore(), w@),
            ),
            b.spec_pattern().spec_ignore() == self.spec_pattern().spec_ignore(),
            b.spec_pattern().spec_mode() == self.spec_pattern().spec_mode(),
            b.spec_pattern().wf(),
    {
        let mut this = self;
        this.pattern.extend(words);
        this
    }

    pub fn build(self) -> (p: MatchPattern)
        ensures
            p == self.spec_pattern(),
    {
        self.pattern
    }
}

} // verus!
