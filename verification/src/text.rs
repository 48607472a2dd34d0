use vstd::prelude::*;

verus! {

// ---------------------------------------------------------------------------
// Characters and strings
// ---------------------------------------------------------------------------

/// The Unicode `White_Space` property, the class that `char::is_whitespace`
/// and `str::split_whitespace` use.
pub open spec fn is_ws(c: char) -> bool {
    ||| ('\u{9}' <= c && c <= '\u{d}')
    ||| c == ' '
    ||| c == '\u{85}'
    ||| c == '\u{a0}'
    ||| c == '\u{1680}'
    ||| ('\u{2000}' <= c && c <= '\u{200a}')
    ||| c == '\u{2028}'
    ||| c == '\u{2029}'
    ||| c == '\u{202f}'
    ||| c == '\u{205f}'
    ||| c == '\u{3000}'
}

/// Whether `c` is a Unicode whitespace character.
pub fn is_whitespace(c: char) -> (r: bool)
    ensures
        r == is_ws(c),
{
    ('\u{9}' <= c && c <= '\u{d}') || c == ' ' || c == '\u{85}' || c == '\u{a0}' || c
        == '\u{1680}' || ('\u{2000}' <= c && c <= '\u{200a}') || c == '\u{2028}' || c
        == '\u{2029}' || c == '\u{202f}' || c == '\u{205f}' || c == '\u{3000}'
}

/// Appends one character to a string (`String::push`).
#[verifier::external_body]
pub(crate) fn string_push(s: &mut String, c: char)
    ensures
        final(s)@ == old(s)@.push(c),
{
    s.push(c);
}

/// The characters of a string slice, in order.
pub fn chars_of(s: &str) -> (res: Vec<char>)
    ensures
        res@ == s@,
{
    let mut res: Vec<char> = Vec::new();
    for c in it: s.chars()
        invariant
            res@ == it.seq().take(it.index() as int),
            it.seq() == s@,
    {
        res.push(c);
    }
    res
}

/// A string made of the characters `v[lo..hi]`.
pub fn string_from_range(v: &[char], lo: usize, hi: usize) -> (res: String)
    requires
        lo <= hi <= v@.len(),
    ensures
        res@ == v@.subrange(lo as int, hi as int),
{
    let mut res = String::new();
    let mut i: usize = lo;
    while i < hi
        invariant
            lo <= i <= hi <= v@.len(),
            res@ == v@.subrange(lo as int, i as int),
        decreases hi - i,
    {
        string_push(&mut res, v[i]);
        assert(v@.subrange(lo as int, i + 1) == v@.subrange(lo as int, i as int).push(v@[i as int]));
        i = i + 1;
    }
    res
}

/// A string made of the given characters.
pub fn string_from_chars(v: &[char]) -> (res: String)
    ensures
        res@ == v@,
{
    let r = string_from_range(v, 0, v.len());
    assert(v@.subrange(0, v@.len() as int) == v@);
    r
}

/// Whether two character sequences are equal.
pub fn chars_eq(a: &[char], b: &[char]) -> (r: bool)
    ensures
        r == (a@ == b@),
{
    if a.len() != b.len() {
        return false;
    }
    let mut i: usize = 0;
    while i < a.len()
        invariant
            a.len() == b.len(),
            i <= a.len(),
            a@.take(i as int) == b@.take(i as int),
        decreases a.len() - i,
    {
        if a[i] != b[i] {
            assert(a@[i as int] != b@[i as int]);
            return false;
        }
        assert(a@.take(i + 1) == a@.take(i as int).push(a@[i as int]));
        assert(b@.take(i + 1) == b@.take(i as int).push(b@[i as int]));
        i = i + 1;
    }
    assert(a@.take(a.len() as int) == a@);
    assert(b@.take(b.len() as int) == b@);
    true
}

/// Whether two strings are equal.
pub fn str_eq(a: &str, b: &str) -> (r: bool)
    ensures
        r == (a@ == b@),
{
    let va = chars_of(a);
    let vb = chars_of(b);
    chars_eq(va.as_slice(), vb.as_slice())
}

// ---------------------------------------------------------------------------
// Prefixes, suffixes, search
// ---------------------------------------------------------------------------

/// `p` is a prefix of `s`.
pub open spec fn starts_with(s: Seq<char>, p: Seq<char>) -> bool {
    p.len() <= s.len() && s.subrange(0, p.len() as int) == p
}

/// `p` is a suffix of `s`.
pub open spec fn ends_with(s: Seq<char>, p: Seq<char>) -> bool {
    p.len() <= s.len() && s.subrange(s.len() - p.len(), s.len() as int) == p
}

/// `p` occurs in `s` at position `i`.
pub open spec fn occurs_at(s: Seq<char>, p: Seq<char>, i: int) -> bool {
    0 <= i && i + p.len() <= s.len() && s.subrange(i, i + p.len()) == p
}

/// The first position, at or after `i`, where `p` occurs in `s`.
pub open spec fn find_from(s: Seq<char>, p: Seq<char>, i: int) -> Option<int>
    decreases s.len() + 1 - i,
{
    if i < 0 || i + p.len() > s.len() {
        None
    } else if occurs_at(s, p, i) {
        Some(i)
    } else {
        find_from(s, p, i + 1)
    }
}

/// The first position where `p` occurs in `s` (`str::find`).
pub open spec fn find_seq(s: Seq<char>, p: Seq<char>) -> Option<int> {
    find_from(s, p, 0)
}

/// Whether `p` occurs at position `i` of `s`.
pub fn occurs_at_exec(s: &[char], p: &[char], i: usize) -> (r: bool)
    ensures
        r == occurs_at(s@, p@, i as int),
{
    if i > s.len() || p.len() > s.len() - i {
        return false;
    }
    let mut k: usize = 0;
    while k < p.len()
        invariant
            i + p.len() <= s.len(),
            k <= p.len(),
            s@.subrange(i as int, i + k) == p@.take(k as int),
        decreases p.len() - k,
    {
        if s[i + k] != p[k] {
            assert(s@.subrange(i as int, i + p.len())[k as int] != p@[k as int]);
            return false;
        }
        assert(s@.subrange(i as int, i + k + 1) == s@.subrange(i as int, i + k).push(s@[i + k]));
        assert(p@.take(k + 1) == p@.take(k as int).push(p@[k as int]));
        k = k + 1;
    }
    assert(p@.take(p.len() as int) == p@);
    true
}

/// Whether `s` begins with `p`.
pub fn starts_with_exec(s: &[char], p: &[char]) -> (r: bool)
    ensures
        r == starts_with(s@, p@),
{
    occurs_at_exec(s, p, 0)
}

/// Whether `s` ends with `p`.
pub fn ends_with_exec(s: &[char], p: &[char]) -> (r: bool)
    ensures
        r == ends_with(s@, p@),
{
    if p.len() > s.len() {
        return false;
    }
    occurs_at_exec(s, p, s.len() - p.len())
}

/// The first position where `p` occurs in `s`.
pub fn find_exec(s: &[char], p: &[char]) -> (r: Option<usize>)
    ensures
        r matches Some(i) ==> find_seq(s@, p@) == Some(i as int) && occurs_at(s@, p@, i as int),
        r is None ==> find_seq(s@, p@) is None,
{
    if p.len() > s.len() {
        return None;
    }
    let last = s.len() - p.len();
    let mut i: usize = 0;
    loop
        invariant
            last + p.len() == s.len(),
            i <= last,
            find_seq(s@, p@) == find_from(s@, p@, i as int),
        decreases last - i,
    {
        if occurs_at_exec(s, p, i) {
            return Some(i);
        }
        if i == last {
            assert(find_from(s@, p@, i + 1) is None);
            return None;
        }
        i = i + 1;
    }
}

// ---------------------------------------------------------------------------
// Trimming
// ---------------------------------------------------------------------------

/// `s` without its leading whitespace (`str::trim_start`).
pub open spec fn trim_start(s: Seq<char>) -> Seq<char>
    decreases s.len(),
{
    if s.len() > 0 && is_ws(s[0]) {
        trim_start(s.drop_first())
    } else {
        s
    }
}

/// `s` without its trailing whitespace (`str::trim_end`).
pub open spec fn trim_end(s: Seq<char>) -> Seq<char>
    decreases s.len(),
{
    if s.len() > 0 && is_ws(s.last()) {
        trim_end(s.drop_last())
    } else {
        s
    }
}

/// `s` without leading and trailing whitespace (`str::trim`).
pub open spec fn trim(s: Seq<char>) -> Seq<char> {
    trim_end(trim_start(s))
}

/// The position where the whitespace that begins `s[lo..hi]` ends.
pub fn skip_ws_forward(s: &[char], lo: usize, hi: usize) -> (i: usize)
    requires
        lo <= hi <= s@.len(),
    ensures
        lo <= i <= hi,
        s@.subrange(i as int, hi as int) == trim_start(s@.subrange(lo as int, hi as int)),
{
    let mut i = lo;
    while i < hi && is_whitespace(s[i])
        invariant
            lo <= i <= hi <= s@.len(),
            trim_start(s@.subrange(i as int, hi as int)) == trim_start(
                s@.subrange(lo as int, hi as int),
            ),
        decreases hi - i,
    {
        assert(s@.subrange(i as int, hi as int).drop_first() == s@.subrange(i + 1, hi as int));
        i = i + 1;
    }
    i
}

/// The position where the whitespace that ends `s[lo..hi]` begins.
pub fn skip_ws_backward(s: &[char], lo: usize, hi: usize) -> (j: usize)
    requires
        lo <= hi <= s@.len(),
    ensures
        lo <= j <= hi,
        s@.subrange(lo as int, j as int) == trim_end(s@.subrange(lo as int, hi as int)),
{
    let mut j = hi;
    while j > lo && is_whitespace(s[j - 1])
        invariant
            lo <= j <= hi <= s@.len(),
            trim_end(s@.subrange(lo as int, j as int)) == trim_end(
                s@.subrange(lo as int, hi as int),
            ),
        decreases j - lo,
    {
        assert(s@.subrange(lo as int, j as int).drop_last() == s@.subrange(lo as int, j - 1));
        j = j - 1;
    }
    j
}

/// The bounds of `s[lo..hi]` without leading and trailing whitespace.
pub fn trim_bounds(s: &[char], lo: usize, hi: usize) -> (r: (usize, usize))
    requires
        lo <= hi <= s@.len(),
    ensures
        lo <= r.0 <= r.1 <= hi,
        s@.subrange(r.0 as int, r.1 as int) == trim(s@.subrange(lo as int, hi as int)),
{
    let i = skip_ws_forward(s, lo, hi);
    let j = skip_ws_backward(s, i, hi);
    (i, j)
}

// ---------------------------------------------------------------------------
// Words
// ---------------------------------------------------------------------------

/// The maximal runs of non-whitespace characters of `s`, in order
/// (what `str::split_whitespace` yields).
pub open spec fn words(s: Seq<char>) -> Seq<Seq<char>>
    decreases s.len(),
{
    if s.len() == 0 {
        seq![]
    } else {
        let prev = s.drop_last();
        let c = s.last();
        if is_ws(c) {
            words(prev)
        } else if prev.len() > 0 && !is_ws(prev.last()) {
            let w = words(prev);
            w.update(w.len() - 1, w[w.len() - 1].push(c))
        } else {
            words(prev).push(seq![c])
        }
    }
}

/// The parts joined with `sep` between each two of them (`[String]::join`).
pub open spec fn join(parts: Seq<Seq<char>>, sep: Seq<char>) -> Seq<char>
    decreases parts.len(),
{
    if parts.len() == 0 {
        seq![]
    } else if parts.len() == 1 {
        parts[0]
    } else {
        join(parts.drop_last(), sep) + sep + parts.last()
    }
}

/// The words of `s` joined by single spaces.
pub open spec fn normalize(s: Seq<char>) -> Seq<char> {
    join(words(s), seq![' '])
}

/// A sequence that ends in a non-whitespace character has a word.
pub proof fn lemma_words_nonempty(s: Seq<char>)
    requires
        s.len() > 0,
        !is_ws(s.last()),
    ensures
        words(s).len() > 0,
    decreases s.len(),
{
    let prev = s.drop_last();
    if prev.len() > 0 && !is_ws(prev.last()) {
        lemma_words_nonempty(prev);
    }
}

/// Joining after pushing one more part.
pub proof fn lemma_join_push(parts: Seq<Seq<char>>, x: Seq<char>, sep: Seq<char>)
    requires
        parts.len() > 0,
    ensures
        join(parts.push(x), sep) == join(parts, sep) + sep + x,
{
    assert(parts.push(x).drop_last() == parts);
}

/// Joining after extending the last part by one character.
pub proof fn lemma_join_extend_last(parts: Seq<Seq<char>>, c: char, sep: Seq<char>)
    requires
        parts.len() > 0,
    ensures
        join(parts.update(parts.len() - 1, parts.last().push(c)), sep) == join(parts, sep).push(
            c,
        ),
{
    let n = parts.len();
    let up = parts.update(n - 1, parts.last().push(c));
    if n == 1 {
        assert(join(up, sep) == up[0]);
    } else {
        assert(up.drop_last() == parts.drop_last());
        assert(join(up, sep) == join(parts.drop_last(), sep) + sep + parts.last().push(c));
        assert(join(parts.drop_last(), sep) + sep + parts.last().push(c) == (join(
            parts.drop_last(),
            sep,
        ) + sep + parts.last()).push(c));
    }
}

/// The words of `s` joined by single spaces.
pub fn normalize_chars(s: &[char]) -> (out: Vec<char>)
    ensures
        out@ == normalize(s@),
{
    let mut out: Vec<char> = Vec::new();
    let mut in_word = false;
    let mut has_word = false;
    let mut i: usize = 0;
    while i < s.len()
        invariant
            i <= s@.len(),
            out@ == normalize(s@.take(i as int)),
            in_word == (i > 0 && !is_ws(s@[i - 1])),
            has_word == (words(s@.take(i as int)).len() > 0),
        decreases s.len() - i,
    {
        let c = s[i];
        let ghost prev = s@.take(i as int);
        let ghost t = s@.take(i + 1);
        let ghost w = words(prev);
        assert(t.drop_last() == prev);
        assert(t.last() == c);
        if i > 0 {
            assert(prev.last() == s@[i - 1]);
        }
        if is_whitespace(c) {
            assert(words(t) == w);
            in_word = false;
        } else {
            if in_word {
                proof {
                    lemma_words_nonempty(prev);
                    lemma_join_extend_last(w, c, seq![' ']);
                }
                out.push(c);
            } else if has_word {
                proof {
                    lemma_join_push(w, seq![c], seq![' ']);
                    assert(out@.push(' ').push(c) == out@ + seq![' '] + seq![c]);
                }
                out.push(' ');
                out.push(c);
            } else {
                proof {
                    assert(w.push(seq![c]).len() == 1);
                    assert(join(w, seq![' ']) == Seq::<char>::empty());
                    assert(out@.push(c) == seq![c]);
                }
                out.push(c);
            }
            in_word = true;
            has_word = true;
        }
        i = i + 1;
    }
    assert(s@.take(s.len() as int) == s@);
    out
}

/// Collapses every run of whitespace to a single space and drops leading
/// and trailing whitespace.
pub fn normalize_text(input: &str) -> (res: String)
    ensures
        res@ == normalize(input@),
{
    let v = chars_of(input);
    let out = normalize_chars(v.as_slice());
    string_from_chars(out.as_slice())
}

/// `s` with every trailing copy of `p` removed (`str::trim_end_matches`).
pub open spec fn strip_end_all(s: Seq<char>, p: Seq<char>) -> Seq<char>
    decreases s.len(),
{
    if p.len() > 0 && ends_with(s, p) {
        strip_end_all(s.take(s.len() - p.len()), p)
    } else {
        s
    }
}

/// `s` without leading copies of `c`.
pub open spec fn trim_start_char(s: Seq<char>, c: char) -> Seq<char>
    decreases s.len(),
{
    if s.len() > 0 && s[0] == c {
        trim_start_char(s.drop_first(), c)
    } else {
        s
    }
}

/// `s` without trailing copies of `c`.
pub open spec fn trim_end_char(s: Seq<char>, c: char) -> Seq<char>
    decreases s.len(),
{
    if s.len() > 0 && s.last() == c {
        trim_end_char(s.drop_last(), c)
    } else {
        s
    }
}

/// `s` without leading and trailing copies of `c` (`str::trim_matches`).
pub open spec fn trim_char(s: Seq<char>, c: char) -> Seq<char> {
    trim_end_char(trim_start_char(s, c), c)
}

/// The end of `s[lo..hi]` once every trailing copy of `p` is removed.
pub fn strip_end_all_exec(s: &[char], lo: usize, hi: usize, p: &[char]) -> (j: usize)
    requires
        lo <= hi <= s@.len(),
    ensures
        lo <= j <= hi,
        s@.subrange(lo as int, j as int) == strip_end_all(s@.subrange(lo as int, hi as int), p@),
{
    let mut j = hi;
    if p.len() == 0 {
        return j;
    }
    while j - lo >= p.len() && occurs_at_exec(s, p, j - p.len())
        invariant
            lo <= j <= hi <= s@.len(),
            p@.len() > 0,
            strip_end_all(s@.subrange(lo as int, hi as int), p@) == strip_end_all(
                s@.subrange(lo as int, j as int),
                p@,
            ),
        decreases j,
    {
        let ghost t = s@.subrange(lo as int, j as int);
        assert(t.subrange(t.len() - p@.len(), t.len() as int) == s@.subrange(
            j - p@.len(),
            j as int,
        ));
        assert(t.take(t.len() - p@.len()) == s@.subrange(lo as int, j - p@.len()));
        j = j - p.len();
    }
    proof {
        let t = s@.subrange(lo as int, j as int);
        if j - lo >= p@.len() && ends_with(t, p@) {
            assert(t.subrange(t.len() - p@.len(), t.len() as int) == s@.subrange(
                j - p@.len(),
                j as int,
            ));
        }
    }
    j
}

/// The bounds of `s[lo..hi]` without leading and trailing copies of `c`.
pub fn trim_char_bounds(s: &[char], lo: usize, hi: usize, c: char) -> (r: (usize, usize))
    requires
        lo <= hi <= s@.len(),
    ensures
        lo <= r.0 <= r.1 <= hi,
        s@.subrange(r.0 as int, r.1 as int) == trim_char(s@.subrange(lo as int, hi as int), c),
{
    let mut i = lo;
    while i < hi && s[i] == c
        invariant
            lo <= i <= hi <= s@.len(),
            trim_start_char(s@.subrange(i as int, hi as int), c) == trim_start_char(
                s@.subrange(lo as int, hi as int),
                c,
            ),
        decreases hi - i,
    {
        assert(s@.subrange(i as int, hi as int).drop_first() == s@.subrange(i + 1, hi as int));
        i = i + 1;
    }
    let mut j = hi;
    while j > i && s[j - 1] == c
        invariant
            lo <= i <= j <= hi <= s@.len(),
            trim_end_char(s@.subrange(i as int, j as int), c) == trim_end_char(
                s@.subrange(i as int, hi as int),
                c,
            ),
        decreases j,
    {
        assert(s@.subrange(i as int, j as int).drop_last() == s@.subrange(i as int, j - 1));
        j = j - 1;
    }
    (i, j)
}

/// The words of `s[lo..hi]` (`str::split_whitespace`).
pub fn split_words(s: &[char], lo: usize, hi: usize) -> (r: Vec<Vec<char>>)
    requires
        lo <= hi <= s@.len(),
    ensures
        r@.map_values(|w: Vec<char>| w@) == words(s@.subrange(lo as int, hi as int)),
{
    let mut done: Vec<Vec<char>> = Vec::new();
    let mut cur: Vec<char> = Vec::new();
    let mut i = lo;
    while i < hi
        invariant
            lo <= i <= hi <= s@.len(),
            words(s@.subrange(lo as int, i as int)) == done@.map_values(|w: Vec<char>| w@) + (
            if i > lo && !is_ws(s@[i - 1]) {
                seq![cur@]
            } else {
                seq![]
            }),
            (i > lo && !is_ws(s@[i - 1])) || cur@.len() == 0,
        decreases hi - i,
    {
        let c = s[i];
        let ghost prev = s@.subrange(lo as int, i as int);
        let ghost t = s@.subrange(lo as int, i + 1);
        let ghost dv = done@.map_values(|w: Vec<char>| w@);
        assert(t.drop_last() == prev);
        assert(t.last() == c);
        if i > lo {
            assert(prev.last() == s@[i - 1]);
        }
        if is_whitespace(c) {
            if i > lo && !is_whitespace(s[i - 1]) {
                let mut w: Vec<char> = Vec::new();
                std::mem::swap(&mut w, &mut cur);
                done.push(w);
                assert(done@.map_values(|w: Vec<char>| w@) == dv.push(w@));
                assert(dv + seq![w@] == dv.push(w@));
            } else {
                assert(dv + Seq::<Seq<char>>::empty() == dv);
            }
        } else {
            if i > lo && !is_whitespace(s[i - 1]) {
                let ghost old_cur = cur@;
                cur.push(c);
                assert((dv + seq![old_cur]).update(dv.len() as int, old_cur.push(c)) == dv + seq![
                    cur@,
                ]);
            } else {
                cur.push(c);
                assert(cur@ =~= seq![c]);
                assert(dv + Seq::<Seq<char>>::empty() == dv);
                assert(dv.push(seq![c]) =~= dv + seq![cur@]);
            }
        }
        i = i + 1;
    }
    if hi > lo && !is_whitespace(s[hi - 1]) {
        let ghost dv = done@.map_values(|w: Vec<char>| w@);
        let w = cur;
        done.push(w);
        assert(done@.map_values(|w: Vec<char>| w@) == dv.push(w@));
        assert(dv + seq![w@] == dv.push(w@));
    } else {
        assert(done@.map_values(|w: Vec<char>| w@) + Seq::<Seq<char>>::empty() == done@.map_values(
            |w: Vec<char>| w@,
        ));
    }
    done
}

// ---------------------------------------------------------------------------
// Laws of normalized text
// ---------------------------------------------------------------------------

/// `w` is a word: not empty, and without whitespace.
pub open spec fn is_word(w: Seq<char>) -> bool {
    w.len() > 0 && forall|i: int| 0 <= i < w.len() ==> !is_ws(#[trigger] w[i])
}

/// Every word of `s` is a word: not empty and without whitespace.
pub proof fn lemma_words_are_words(s: Seq<char>)
    ensures
        forall|k: int| 0 <= k < words(s).len() ==> is_word(#[trigger] words(s)[k]),
    decreases s.len(),
{
    if s.len() > 0 {
        let prev = s.drop_last();
        lemma_words_are_words(prev);
        let c = s.last();
        let w = words(prev);
        if !is_ws(c) && prev.len() > 0 && !is_ws(prev.last()) {
            lemma_words_nonempty(prev);
            let nw = w.update(w.len() - 1, w[w.len() - 1].push(c));
            assert forall|k: int| 0 <= k < nw.len() implies is_word(#[trigger] nw[k]) by {
                if k == w.len() - 1 {
                    assert(is_word(w[k]));
                    let x = w[k].push(c);
                    assert forall|i: int| 0 <= i < x.len() implies !is_ws(#[trigger] x[i]) by {
                        if i < w[k].len() {
                            assert(x[i] == w[k][i]);
                        }
                    }
                }
            }
        } else if !is_ws(c) {
            let nw = w.push(seq![c]);
            assert forall|k: int| 0 <= k < nw.len() implies is_word(#[trigger] nw[k]) by {
                if k < w.len() {
                    assert(nw[k] == w[k]);
                }
            }
        }
    }
}

/// A single word is its own only word.
proof fn lemma_words_of_word(b: Seq<char>)
    requires
        is_word(b),
    ensures
        words(b) == seq![b],
    decreases b.len(),
{
    let prev = b.drop_last();
    assert(!is_ws(b[b.len() - 1]));
    if prev.len() == 0 {
        assert(b == seq![b.last()]);
        assert(words(prev) == Seq::<Seq<char>>::empty());
        assert(words(b) == words(prev).push(seq![b.last()]));
    } else {
        assert(!is_ws(b[b.len() - 2]));
        assert forall|i: int| 0 <= i < prev.len() implies !is_ws(#[trigger] prev[i]) by {
            assert(prev[i] == b[i]);
        }
        lemma_words_of_word(prev);
        assert(prev.last() == b[b.len() - 2]);
        assert(prev.push(b.last()) =~= b);
        assert(seq![prev].update(0, prev.push(b.last())) =~= seq![b]);
        assert(words(b) == words(prev).update(0, prev.push(b.last())));
    }
}

/// The words of `a`, a space and the word `b` are those of `a` and then `b`.
proof fn lemma_words_append_word(a: Seq<char>, b: Seq<char>)
    requires
        is_word(b),
    ensures
        words(a + seq![' '] + b) == words(a).push(b),
    decreases b.len(),
{
    let x = a + seq![' '] + b;
    let prev = x.drop_last();
    assert((a + seq![' ']).drop_last() == a);
    assert(words(a + seq![' ']) == words(a));
    if b.len() == 1 {
        assert(prev == a + seq![' ']);
        assert(b == seq![b.last()]);
    } else {
        let b2 = b.drop_last();
        assert forall|i: int| 0 <= i < b2.len() implies !is_ws(#[trigger] b2[i]) by {
            assert(b2[i] == b[i]);
        }
        lemma_words_append_word(a, b2);
        assert(prev == a + seq![' '] + b2);
        assert(prev.last() == b[b.len() - 2]);
        let w = words(a).push(b2);
        assert(b2.push(b.last()) =~= b);
        assert(w.update(w.len() - 1, w[w.len() - 1].push(b.last())) =~= words(a).push(b));
    }
}

/// Joining words with single spaces and splitting again gives the words.
proof fn lemma_words_of_join(parts: Seq<Seq<char>>)
    requires
        forall|k: int| 0 <= k < parts.len() ==> is_word(#[trigger] parts[k]),
    ensures
        words(join(parts, seq![' '])) == parts,
    decreases parts.len(),
{
    if parts.len() == 0 {
    } else if parts.len() == 1 {
        lemma_words_of_word(parts[0]);
        assert(parts == seq![parts[0]]);
    } else {
        let dl = parts.drop_last();
        assert forall|k: int| 0 <= k < dl.len() implies is_word(#[trigger] dl[k]) by {
            assert(dl[k] == parts[k]);
        }
        lemma_words_of_join(dl);
        assert(is_word(parts[parts.len() - 1]));
        lemma_words_append_word(join(dl, seq![' ']), parts.last());
        assert(dl.push(parts.last()) == parts);
    }
}

/// Normalizing normalized text changes nothing.
pub proof fn law_normalize_idempotent(s: Seq<char>)
    ensures
        normalize(normalize(s)) == normalize(s),
{
    lemma_words_are_words(s);
    lemma_words_of_join(words(s));
}

/// The words joined by single spaces: the only whitespace is single spaces
/// between words, none at either end.
proof fn lemma_join_shape(parts: Seq<Seq<char>>)
    requires
        forall|k: int| 0 <= k < parts.len() ==> is_word(#[trigger] parts[k]),
    ensures
        ({
            let r = join(parts, seq![' ']);
            &&& forall|i: int| 0 <= i < r.len() && is_ws(#[trigger] r[i]) ==> r[i] == ' '
            &&& r.len() > 0 ==> r[0] != ' ' && r[r.len() - 1] != ' '
            &&& forall|i: int| 0 <= i < r.len() - 1 && #[trigger] r[i] == ' ' ==> r[i + 1] != ' '
            &&& (r.len() == 0 <==> parts.len() == 0)
        }),
    decreases parts.len(),
{
    if parts.len() == 1 {
        assert(is_word(parts[0]));
    } else if parts.len() > 1 {
        let dl = parts.drop_last();
        assert forall|k: int| 0 <= k < dl.len() implies is_word(#[trigger] dl[k]) by {
            assert(dl[k] == parts[k]);
        }
        lemma_join_shape(dl);
        let a = join(dl, seq![' ']);
        let b = parts.last();
        assert(is_word(parts[parts.len() - 1]));
        let r = a + seq![' '] + b;
        assert(join(parts, seq![' ']) == r);
        assert forall|i: int| 0 <= i < r.len() && is_ws(#[trigger] r[i]) implies r[i] == ' ' by {
            if i < a.len() {
                assert(r[i] == a[i]);
            } else if i > a.len() {
                assert(r[i] == b[i - a.len() - 1]);
            }
        }
        assert forall|i: int| 0 <= i < r.len() - 1 && #[trigger] r[i] == ' ' implies r[i + 1]
            != ' ' by {
            if i < a.len() - 1 {
                assert(r[i] == a[i]);
                assert(r[i + 1] == a[i + 1]);
            } else if i == a.len() - 1 {
                assert(r[i] == a[a.len() - 1]);
            } else if i == a.len() {
                assert(r[i + 1] == b[0]);
            } else {
                assert(r[i] == b[i - a.len() - 1]);
            }
        }
        assert(r[0] == a[0]);
        assert(r[r.len() - 1] == b[b.len() - 1]);
    }
}

/// Normalized text holds no whitespace but single spaces between words,
/// and it is empty exactly when the input has no word.
pub proof fn law_normalize_shape(s: Seq<char>)
    ensures
        ({
            let r = normalize(s);
            &&& forall|i: int| 0 <= i < r.len() && is_ws(#[trigger] r[i]) ==> r[i] == ' '
            &&& r.len() > 0 ==> r[0] != ' ' && r[r.len() - 1] != ' '
            &&& forall|i: int| 0 <= i < r.len() - 1 && #[trigger] r[i] == ' ' ==> r[i + 1] != ' '
            &&& (r.len() == 0 <==> words(s).len() == 0)
        }),
{
    lemma_words_are_words(s);
    lemma_join_shape(words(s));
}

} // verus!
