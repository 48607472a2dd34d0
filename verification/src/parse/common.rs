use vstd::prelude::*;

use crate::dom::{html_select_first_ancestors, html_select_first_walk, walk_through, selector_is_valid, selector_parses, tree_of, Document, DocView, SelPart, SelPartView, first_of, opt_chars, opt_int, sel_view};
use crate::model::common::Version;
pub use crate::text::normalize_text;
use crate::text::{chars_of, string_from_chars, string_push, find_exec, occurs_at, normalize, starts_with, str_eq, find_seq, join, lemma_join_push, skip_ws_forward, trim_start};

verus! {

/// Why a reference page could not be read.
#[derive(Debug, Clone, Copy, PartialEq, Eq, Structural)]
pub enum PageError {
    /// The index page has no `dl` element of class `toc`.
    MissingToc,
    /// The selector that finds a page's `refentry` element does not parse.
    InvalidSelector,
}

// ---------------------------------------------------------------------------
// Numbers and versions
// ---------------------------------------------------------------------------

/// An ASCII decimal digit.
pub open spec fn is_digit(c: char) -> bool {
    '0' <= c && c <= '9'
}

/// The number that a sequence of decimal digits denotes.
pub open spec fn digits_value(d: Seq<char>) -> nat
    decreases d.len(),
{
    if d.len() == 0 {
        0
    } else {
        digits_value(d.drop_last()) * 10 + (d.last() as int - '0' as int) as nat
    }
}

/// Every character of `d` is a digit.
pub open spec fn all_digits(d: Seq<char>) -> bool {
    forall|i: int| 0 <= i < d.len() ==> is_digit(#[trigger] d[i])
}

/// `s` without one leading `+`.
pub open spec fn without_plus(s: Seq<char>) -> Seq<char> {
    if s.len() > 0 && s[0] == '+' {
        s.drop_first()
    } else {
        s
    }
}

/// What `u32::from_str` gives: an optional `+`, then at least one digit, and
/// a value that fits in 32 bits.
pub open spec fn parse_u32_spec(s: Seq<char>) -> Option<u32> {
    let d = without_plus(s);
    if d.len() > 0 && all_digits(d) && digits_value(d) <= u32::MAX {
        Some(digits_value(d) as u32)
    } else {
        None
    }
}

/// Parses `s[lo..hi]` as a `u32`, as `str::parse::<u32>` does.
pub fn parse_u32(s: &[char], lo: usize, hi: usize) -> (r: Option<u32>)
    requires
        lo <= hi <= s@.len(),
    ensures
        r == parse_u32_spec(s@.subrange(lo as int, hi as int)),
{
    let ghost whole = s@.subrange(lo as int, hi as int);
    let mut start = lo;
    if lo < hi && s[lo] == '+' {
        start = lo + 1;
    }
    let ghost d = s@.subrange(start as int, hi as int);
    assert(d == without_plus(whole));
    if start == hi {
        return None;
    }
    let mut acc: u64 = 0;
    let mut overflow = false;
    let mut k = start;
    while k < hi
        invariant
            lo <= start <= k <= hi <= s@.len(),
            d == s@.subrange(start as int, hi as int),
            d == without_plus(s@.subrange(lo as int, hi as int)),
            forall|i: int| start <= i < k ==> is_digit(#[trigger] s@[i]),
            overflow ==> digits_value(s@.subrange(start as int, k as int)) > u32::MAX,
            !overflow ==> acc == digits_value(s@.subrange(start as int, k as int)),
            acc <= u32::MAX,
        decreases hi - k,
    {
        let c = s[k];
        if !('0' <= c && c <= '9') {
            assert(d[k - start] == c);
            assert(!is_digit(d[k - start]));
            assert(!all_digits(d));
            return None;
        }
        let ghost pre = s@.subrange(start as int, k as int);
        assert(s@.subrange(start as int, k + 1).drop_last() == pre);
        let digit = (c as u32 - '0' as u32) as u64;
        if !overflow {
            let next = acc * 10 + digit;
            if next > 4294967295 {
                overflow = true;
            } else {
                acc = next;
            }
        }
        k = k + 1;
    }
    assert(s@.subrange(start as int, k as int) == d);
    assert forall|i: int| 0 <= i < d.len() implies is_digit(#[trigger] d[i]) by {
        assert(d[i] == s@[start + i]);
    }
    if overflow {
        None
    } else {
        Some(acc as u32)
    }
}

/// The version in `raw`: the text before the first `.` and the text
/// between it and the next `.` (or the end), each read as a `u32`.
pub open spec fn version_of(raw: Seq<char>) -> Option<Version> {
    match find_seq(raw, seq!['.']) {
        None => None,
        Some(i) => {
            let major = raw.take(i);
            let rest = raw.skip(i + 1);
            let minor = match find_seq(rest, seq!['.']) {
                Some(j) => rest.take(j),
                None => rest,
            };
            match (parse_u32_spec(major), parse_u32_spec(minor)) {
                (Some(a), Some(b)) => Some(Version { major: a, minor: b }),
                _ => None,
            }
        },
    }
}

/// Reads `raw` as `major.minor`.
pub fn parse_version(raw: &[char]) -> (r: Option<Version>)
    ensures
        r == version_of(raw@),
{
    let dot = ['.'];
    let dot = dot.as_slice();
    assert(dot@ == seq!['.']);
    let found = find_exec(raw, dot);
    match found {
        None => None,
        Some(i) => {
            assert(occurs_at(raw@, dot@, i as int));
            assert(i + 1 <= raw@.len());
            assert(raw@.len() == raw.len());
            let ghost rest = raw@.skip(i + 1);
            let rest_v = copy_range(raw, i + 1, raw.len());
            assert(rest_v@ == rest);
            let minor_end = match find_exec(rest_v.as_slice(), dot) {
                Some(j) => {
                    assert(rest.take(j as int) == raw@.subrange(i + 1, i + 1 + j));
                    i + 1 + j
                },
                None => {
                    assert(rest == raw@.subrange(i + 1, raw@.len() as int));
                    raw.len()
                },
            };
            assert(raw@.take(i as int) == raw@.subrange(0, i as int));
            let major = parse_u32(raw, 0, i);
            let minor = parse_u32(raw, i + 1, minor_end);
            match (major, minor) {
                (Some(a), Some(b)) => Some(Version { major: a, minor: b }),
                _ => None,
            }
        },
    }
}

/// A copy of `s[lo..hi]`.
pub fn copy_range(s: &[char], lo: usize, hi: usize) -> (r: Vec<char>)
    requires
        lo <= hi <= s@.len(),
    ensures
        r@ == s@.subrange(lo as int, hi as int),
{
    let mut r: Vec<char> = Vec::new();
    let mut k = lo;
    while k < hi
        invariant
            lo <= k <= hi <= s@.len(),
            r@ == s@.subrange(lo as int, k as int),
        decreases hi - k,
    {
        r.push(s[k]);
        assert(s@.subrange(lo as int, k + 1) == s@.subrange(lo as int, k as int).push(s@[k as int]));
        k = k + 1;
    }
    r
}

/// The longest prefix of `s` made of ASCII digits and dots.
pub open spec fn version_chars_prefix(s: Seq<char>) -> Seq<char>
    decreases s.len(),
{
    if s.len() > 0 && (is_digit(s[0]) || s[0] == '.') {
        seq![s[0]] + version_chars_prefix(s.drop_first())
    } else {
        seq![]
    }
}

/// The version written after the first occurrence of `marker` in `text`,
/// after any whitespace.
pub open spec fn version_after(text: Seq<char>, marker: Seq<char>) -> Option<Version> {
    match find_seq(text, marker) {
        None => None,
        Some(i) => version_of(version_chars_prefix(trim_start(text.skip(i + marker.len())))),
    }
}

/// Finds `marker` in `text` and reads the version that follows it.
pub fn extract_version_after(text: &[char], marker: &[char]) -> (r: Option<Version>)
    ensures
        r == version_after(text@, marker@),
{
    let found = find_exec(text, marker);
    let idx = match found {
        Some(i) => i,
        None => return None,
    };
    assert(occurs_at(text@, marker@, idx as int));
    assert(text@.len() == text.len() && marker@.len() == marker.len());
    let start = idx + marker.len();
    assert(text@.skip(start as int) == text@.subrange(start as int, text@.len() as int));
    let t = skip_ws_forward(text, start, text.len());
    let mut k = t;
    while k < text.len() && (('0' <= text[k] && text[k] <= '9') || text[k] == '.')
        invariant
            t <= k <= text@.len(),
            version_chars_prefix(text@.subrange(t as int, text@.len() as int)) == text@.subrange(
                t as int,
                k as int,
            ) + version_chars_prefix(text@.subrange(k as int, text@.len() as int)),
        decreases text.len() - k,
    {
        let ghost tail = text@.subrange(k as int, text@.len() as int);
        assert(tail.drop_first() == text@.subrange(k + 1, text@.len() as int));
        assert(text@.subrange(t as int, k + 1) == text@.subrange(t as int, k as int) + seq![
            text@[k as int],
        ]);
        k = k + 1;
    }
    assert(version_chars_prefix(text@.subrange(k as int, text@.len() as int)) == Seq::<
        char,
    >::empty());
    let raw = copy_range(text, t, k);
    assert(raw@ == text@.subrange(t as int, k as int));
    parse_version(raw.as_slice())
}

/// The `Since:` and `Deprecated:` versions written in the joined lines.
pub open spec fn since_and_deprecated(lines: Seq<Seq<char>>) -> (Option<Version>, Option<Version>) {
    let joined = join(lines, seq!['\n']);
    (
        version_after(joined, seq!['S', 'i', 'n', 'c', 'e', ':']),
        version_after(joined, seq!['D', 'e', 'p', 'r', 'e', 'c', 'a', 't', 'e', 'd', ':']),
    )
}

/// The lines joined with newlines.
pub fn join_lines(lines: &[String]) -> (r: Vec<char>)
    ensures
        r@ == join(strs(lines@), seq!['\n']),
{
    let ghost ls = strs(lines@);
    let mut r: Vec<char> = Vec::new();
    let mut i: usize = 0;
    while i < lines.len()
        invariant
            i <= lines@.len(),
            ls == strs(lines@),
            r@ == join(ls.take(i as int), seq!['\n']),
        decreases lines.len() - i,
    {
        let line = chars_of(lines[i].as_str());
        assert(ls.take(i + 1) == ls.take(i as int).push(ls[i as int]));
        if i > 0 {
            r.push('\n');
            proof {
                lemma_join_push(ls.take(i as int), ls[i as int], seq!['\n']);
            }
        } else {
            assert(ls.take(1).len() == 1);
        }
        let ghost before = r@;
        let mut k: usize = 0;
        while k < line.len()
            invariant
                k <= line@.len(),
                r@ == before + line@.take(k as int),
            decreases line.len() - k,
        {
            r.push(line[k]);
            assert(line@.take(k + 1) == line@.take(k as int).push(line@[k as int]));
            k = k + 1;
        }
        assert(line@.take(line.len() as int) == line@);
        i = i + 1;
    }
    assert(ls.take(lines.len() as int) == ls);
    r
}

/// The `Since:` and `Deprecated:` versions mentioned in documentation lines.
pub fn extract_since_and_deprecated(lines: &[String]) -> (r: (Option<Version>, Option<Version>))
    ensures
        r == since_and_deprecated(strs(lines@)),
{
    let joined = join_lines(lines);
    let since_m = ['S', 'i', 'n', 'c', 'e', ':'];
    let dep_m = ['D', 'e', 'p', 'r', 'e', 'c', 'a', 't', 'e', 'd', ':'];
    let since = extract_version_after(joined.as_slice(), since_m.as_slice());
    let deprecated = extract_version_after(joined.as_slice(), dep_m.as_slice());
    (since, deprecated)
}

/// Removes the empty lines at the end.
pub open spec fn without_trailing_blank(lines: Seq<Seq<char>>) -> Seq<Seq<char>>
    decreases lines.len(),
{
    if lines.len() > 0 && lines.last().len() == 0 {
        without_trailing_blank(lines.drop_last())
    } else {
        lines
    }
}

/// Dropping the empty lines at the end leaves a prefix of the lines that
/// does not end in an empty line, and doing it twice is doing it once.
pub proof fn law_no_trailing_blank(lines: Seq<Seq<char>>)
    ensures
        ({
            let out = without_trailing_blank(lines);
            &&& out.len() <= lines.len()
            &&& out == lines.take(out.len() as int)
            &&& out.len() == 0 || out.last().len() > 0
            &&& without_trailing_blank(out) == out
        }),
    decreases lines.len(),
{
    if lines.len() > 0 && lines.last().len() == 0 {
        law_no_trailing_blank(lines.drop_last());
        let out = without_trailing_blank(lines);
        assert(lines.drop_last().take(out.len() as int) == lines.take(out.len() as int));
    } else {
        assert(lines.take(lines.len() as int) == lines);
    }
}

/// Drops the empty lines at the end of `lines`.
pub fn trim_trailing_blank_lines(lines: &mut Vec<String>)
    ensures
        strs(final(lines)@) == without_trailing_blank(
            strs(old(lines)@),
        ),
{
    let ghost goal = without_trailing_blank(strs(old(lines)@));
    while lines.len() > 0 && lines[lines.len() - 1].as_str().is_empty()
        invariant
            without_trailing_blank(strs(lines@)) == goal,
        decreases lines.len(),
    {
        let ghost before = strs(lines@);
        lines.pop();
        assert(strs(lines@) == before.drop_last());
    }
}

// ---------------------------------------------------------------------------
// Finding elements
// ---------------------------------------------------------------------------

/// A character that may begin a CSS identifier.
pub open spec fn is_ident_start(c: char) -> bool {
    ('a' <= c && c <= 'z') || ('A' <= c && c <= 'Z') || c == '_' || c >= '\u{80}'
}

/// A character that may continue a CSS identifier.
pub open spec fn is_ident_char(c: char) -> bool {
    is_ident_start(c) || ('0' <= c && c <= '9') || c == '-'
}

/// A CSS identifier written without escapes: it begins with a name-start
/// character, or with `-` followed by a name-start character or another
/// `-`, and goes on with name characters. These are the names with which
/// `.{name}` is a single class selector and `{name}` a single type
/// selector.
pub open spec fn is_css_ident(s: Seq<char>) -> bool {
    &&& s.len() > 0
    &&& (is_ident_start(s[0]) || (s[0] == '-' && s.len() > 1 && (is_ident_start(s[1]) || s[1]
        == '-')))
    &&& forall|i: int| 0 < i < s.len() ==> is_ident_char(#[trigger] s[i])
}

/// A plain CSS identifier without ASCII capitals, as HTML element names are.
pub open spec fn is_tag_ident(s: Seq<char>) -> bool {
    is_css_ident(s) && forall|i: int| 0 <= i < s.len() ==> !('A' <= #[trigger] s[i] && s[i] <= 'Z')
}

/// The selector `.{class}`.
pub open spec fn class_sel(class: Seq<char>) -> Seq<SelPartView> {
    seq![SelPartView::Class(class)]
}

/// The selector `{tag}`.
pub open spec fn tag_sel(tag: Seq<char>) -> Seq<SelPartView> {
    seq![SelPartView::Tag(tag)]
}

fn class_selector(class_name: &str) -> (r: Vec<SelPart>)
    ensures
        sel_view(r@) == class_sel(class_name@),
{
    let r = vec![SelPart::Class(class_name.to_owned())];
    assert(sel_view(r@) =~= class_sel(class_name@));
    r
}

fn tag_selector(tag_name: &str) -> (r: Vec<SelPart>)
    ensures
        sel_view(r@) == tag_sel(tag_name@),
{
    let r = vec![SelPart::Tag(tag_name.to_owned())];
    assert(sel_view(r@) =~= tag_sel(tag_name@));
    r
}

/// The selector `.{class}` as text.
pub open spec fn class_selector_text(class: Seq<char>) -> Seq<char> {
    seq!['.'] + class
}

/// The first element that the selector `.{class}` selects in the document
/// `html` describes: the tree of its ancestors and its subtree, and its
/// index there.
pub open spec fn first_with_class_tree(html: Seq<char>, class: Seq<char>) -> Option<(DocView, int)> {
    match (
        html_select_first_ancestors(html, class_selector_text(class)),
        html_select_first_walk(html, class_selector_text(class)),
    ) {
        (Some(a), Some(w)) => Some((tree_of(walk_through(a, w)), a.len() + 1int)),
        _ => None,
    }
}

/// The found element as a document and an index in it.
pub open spec fn found_view(r: Option<(Document, usize)>) -> Option<(DocView, int)> {
    match r {
        Some((d, i)) => Some((d@, i as int)),
        None => None,
    }
}

/// The first element of the document `html` describes with class
/// `class_name`, in the order `scraper::Html::select` gives them: the tree
/// of its ancestors and its subtree, and its index there.
pub fn first_with_class_in_html(html: &str, class_name: &str) -> (r: Option<(Document, usize)>)
    requires
        selector_parses(class_selector_text(class_name@)),
    ensures
        found_view(r) == first_with_class_tree(html@, class_name@),
        r matches Some((d, i)) ==> d@.wf() && i < d@.len(),
{
    let mut sel = ".".to_owned();
    sel.append(class_name);
    proof {
        reveal_strlit(".");
        assert(sel@ == class_selector_text(class_name@));
    }
    Document::select_first_in_html(html, sel.as_str())
}

/// The page's `refentry` element, as the tree of its ancestors and its
/// subtree with its index there; an error where the selector `.refentry` is
/// refused.
pub fn find_refentry(html: &str) -> (r: Result<Option<(Document, usize)>, PageError>)
    ensures
        !selector_parses(class_selector_text("refentry"@)) ==> (r matches Err(e) && e
            == PageError::InvalidSelector),
        selector_parses(class_selector_text("refentry"@)) ==> (r matches Ok(found) && found_view(
            found,
        ) == first_with_class_tree(html@, "refentry"@) && (found matches Some((d, i)) ==> d@.wf()
            && i < d@.len())),
{
    proof {
        reveal_strlit(".refentry");
        reveal_strlit("refentry");
        assert(".refentry"@ == class_selector_text("refentry"@));
    }
    if !selector_is_valid(".refentry") {
        return Err(PageError::InvalidSelector);
    }
    Ok(first_with_class_in_html(html, "refentry"))
}

/// The first element below `root` with class `class_name`.
pub fn fist_with_class(doc: &Document, root: usize, class_name: &str) -> (r: Option<usize>)
    requires
        doc@.wf(),
        root < doc@.len(),
        is_css_ident(class_name@),
    ensures
        opt_int(r) == first_of(doc@.select_in(root as int, class_sel(class_name@))),
        r matches Some(x) ==> x < doc@.len(),
{
    let sel = class_selector(class_name);
    doc.select_first(root, sel.as_slice())
}

/// The elements below `root` with class `class_name`, in document order.
pub fn all_with_class(doc: &Document, root: usize, class_name: &str) -> (r: Vec<usize>)
    requires
        doc@.wf(),
        root < doc@.len(),
        is_css_ident(class_name@),
    ensures
        r@.map_values(|x: usize| x as int) == doc@.select_in(root as int, class_sel(class_name@)),
        forall|k: int| 0 <= k < r@.len() ==> #[trigger] r@[k] < doc@.len(),
{
    let sel = class_selector(class_name);
    doc.select(root, sel.as_slice())
}

/// The first element below `root` named `tag_name`.
pub fn first_tag(doc: &Document, root: usize, tag_name: &str) -> (r: Option<usize>)
    requires
        doc@.wf(),
        root < doc@.len(),
        is_tag_ident(tag_name@),
    ensures
        opt_int(r) == first_of(doc@.select_in(root as int, tag_sel(tag_name@))),
        r matches Some(x) ==> x < doc@.len(),
{
    let sel = tag_selector(tag_name);
    doc.select_first(root, sel.as_slice())
}

/// The normalized text of the first element below `root` named `tag_name`.
pub fn first_tag_text(doc: &Document, root: usize, tag_name: &str) -> (r: Option<String>)
    requires
        doc@.wf(),
        root < doc@.len(),
        is_tag_ident(tag_name@),
    ensures
        opt_chars(r) == match first_of(doc@.select_in(root as int, tag_sel(tag_name@))) {
            Some(e) => Some(normalize(doc@.text_of(e))),
            None => None,
        },
{
    match first_tag(doc, root, tag_name) {
        Some(e) => {
            let t = doc.text_of(e);
            Some(normalize_text(t.as_str()))
        },
        None => None,
    }
}

/// The heading tag `h{k}`.
pub open spec fn heading_tag(k: int) -> Seq<char> {
    if k == 1 {
        "h1"@
    } else if k == 2 {
        "h2"@
    } else if k == 3 {
        "h3"@
    } else if k == 4 {
        "h4"@
    } else if k == 5 {
        "h5"@
    } else {
        "h6"@
    }
}

/// The first `h{k}` below `root` for the smallest `k >= from` (up to 6) for
/// which there is one.
pub open spec fn first_heading_from(d: DocView, root: int, from: int) -> Option<int>
    decreases 7 - from,
{
    if from < 1 || from > 6 {
        None
    } else {
        match first_of(d.select_in(root, tag_sel(heading_tag(from)))) {
            Some(e) => Some(e),
            None => first_heading_from(d, root, from + 1),
        }
    }
}

fn heading_tag_exec(k: usize) -> (r: &'static str)
    requires
        1 <= k <= 6,
    ensures
        r@ == heading_tag(k as int),
        is_tag_ident(r@),
{
    proof {
        reveal_strlit("h1");
        reveal_strlit("h2");
        reveal_strlit("h3");
        reveal_strlit("h4");
        reveal_strlit("h5");
        reveal_strlit("h6");
    }
    if k == 1 {
        "h1"
    } else if k == 2 {
        "h2"
    } else if k == 3 {
        "h3"
    } else if k == 4 {
        "h4"
    } else if k == 5 {
        "h5"
    } else {
        "h6"
    }
}

/// The first `h1` below `root`, or else the first `h2`, and so on to `h6`.
pub fn first_heading(doc: &Document, root: usize) -> (r: Option<usize>)
    requires
        doc@.wf(),
        root < doc@.len(),
    ensures
        opt_int(r) == first_heading_from(doc@, root as int, 1),
        r matches Some(x) ==> x < doc@.len(),
{
    let mut k: usize = 1;
    while k <= 6
        invariant
            doc@.wf(),
            root < doc@.len(),
            1 <= k <= 7,
            first_heading_from(doc@, root as int, 1) == first_heading_from(doc@, root as int, k as int),
        decreases 7 - k,
    {
        if let Some(el) = first_tag(doc, root, heading_tag_exec(k)) {
            return Some(el);
        }
        k = k + 1;
    }
    None
}

/// The normalized text of the first heading below `root`.
pub fn first_heading_text(doc: &Document, root: usize) -> (r: Option<String>)
    requires
        doc@.wf(),
        root < doc@.len(),
    ensures
        opt_chars(r) == match first_heading_from(doc@, root as int, 1) {
            Some(h) => Some(normalize(doc@.text_of(h))),
            None => None,
        },
{
    match first_heading(doc, root) {
        Some(h) => {
            let t = doc.text_of(h);
            Some(normalize_text(t.as_str()))
        },
        None => None,
    }
}

// ---------------------------------------------------------------------------
// Children and classes
// ---------------------------------------------------------------------------

/// The nodes of `s` that `keep` accepts, in order.
pub open spec fn keep(s: Seq<int>, f: spec_fn(int) -> bool) -> Seq<int>
    decreases s.len(),
{
    if s.len() == 0 {
        seq![]
    } else {
        let r = keep(s.drop_last(), f);
        if f(s.last()) {
            r.push(s.last())
        } else {
            r
        }
    }
}

/// Node `j` is an element with a class that begins with `ref`.
pub open spec fn has_ref_class(d: DocView, j: int) -> bool {
    d.is_element(j) && exists|k: int|
        0 <= k < d.nodes[j].classes.len() && starts_with(#[trigger] d.nodes[j].classes[k], "ref"@)
}

/// The element children of `root`.
pub open spec fn element_children(d: DocView, root: int) -> Seq<int> {
    keep(d.children(root), |j: int| d.is_element(j))
}

/// The element children of `root` with class `c`.
pub open spec fn children_with_class(d: DocView, root: int, c: Seq<char>) -> Seq<int> {
    keep(d.children(root), |j: int| d.has_class(j, c))
}

/// The element children of `root` with a class that begins with `ref`.
pub open spec fn children_with_ref_class(d: DocView, root: int) -> Seq<int> {
    keep(d.children(root), |j: int| has_ref_class(d, j))
}

/// Whether `el` is an element with the class `class_name`.
pub fn has_class(doc: &Document, el: usize, class_name: &str) -> (r: bool)
    requires
        doc@.wf(),
        el < doc@.len(),
    ensures
        r == doc@.has_class(el as int, class_name@),
{
    let c = class_name.to_owned();
    doc.has_class(el, &c)
}

/// Whether `el` is an element with a class that begins with `ref`.
pub fn has_any_ref_class(doc: &Document, el: usize) -> (r: bool)
    requires
        doc@.wf(),
        el < doc@.len(),
    ensures
        r == has_ref_class(doc@, el as int),
{
    if !doc.is_element(el) {
        return false;
    }
    let classes = element_classes(doc, el);
    let prefix = chars_of("ref");
    let ghost cs = doc@.nodes[el as int].classes;
    let mut k: usize = 0;
    while k < classes.len()
        invariant
            k <= classes@.len(),
            classes@.map_values(|c: String| c@) == cs,
            cs == doc@.nodes[el as int].classes,
            doc@.is_element(el as int),
            prefix@ == "ref"@,
            forall|m: int| 0 <= m < k ==> !starts_with(#[trigger] cs[m], "ref"@),
        decreases classes.len() - k,
    {
        let c = chars_of(classes[k].as_str());
        assert(c@ == cs[k as int]);
        if crate::text::starts_with_exec(c.as_slice(), prefix.as_slice()) {
            assert(starts_with(doc@.nodes[el as int].classes[k as int], "ref"@));
            return true;
        }
        k = k + 1;
    }
    false
}

/// The classes of `el`.
pub fn element_classes(doc: &Document, el: usize) -> (r: Vec<String>)
    requires
        doc@.wf(),
        el < doc@.len(),
    ensures
        r@.map_values(|c: String| c@) == doc@.nodes[el as int].classes,
{
    let classes = &doc.nodes[el].classes;
    let mut r: Vec<String> = Vec::new();
    let mut k: usize = 0;
    assert(doc@.nodes[el as int] == doc.nodes@[el as int]@);
    while k < classes.len()
        invariant
            k <= classes@.len(),
            r@.map_values(|c: String| c@) == classes.deep_view().take(k as int),
        decreases classes.len() - k,
    {
        let ghost before = r@.map_values(|c: String| c@);
        r.push(classes[k].clone());
        assert(r@.map_values(|c: String| c@) == before.push(classes@[k as int]@));
        assert(classes.deep_view().take(k + 1) == classes.deep_view().take(k as int).push(
            classes@[k as int]@,
        ));
        k = k + 1;
    }
    assert(classes.deep_view().take(classes@.len() as int) == classes.deep_view());
    r
}

/// The element children of `root`, in order.
pub fn direct_children(doc: &Document, root: usize) -> (r: Vec<usize>)
    requires
        doc@.wf(),
        root < doc@.len(),
    ensures
        r@.map_values(|x: usize| x as int) == element_children(doc@, root as int),
        forall|k: int| 0 <= k < r@.len() ==> #[trigger] r@[k] < doc@.len(),
{
    let ch = doc.children(root);
    let ghost d = doc@;
    let ghost cv = ch@.map_values(|x: usize| x as int);
    let mut r: Vec<usize> = Vec::new();
    let mut k: usize = 0;
    while k < ch.len()
        invariant
            doc@.wf(),
            d == doc@,
            k <= ch@.len(),
            cv == ch@.map_values(|x: usize| x as int),
            forall|m: int| 0 <= m < ch@.len() ==> #[trigger] ch@[m] < doc@.len(),
            r@.map_values(|x: usize| x as int) == keep(cv.take(k as int), |j: int| d.is_element(j)),
            forall|m: int| 0 <= m < r@.len() ==> #[trigger] r@[m] < doc@.len(),
        decreases ch.len() - k,
    {
        let ghost before = r@.map_values(|x: usize| x as int);
        assert(cv.take(k + 1).drop_last() == cv.take(k as int));
        assert(cv.take(k + 1).last() == ch@[k as int] as int);
        if doc.is_element(ch[k]) {
            r.push(ch[k]);
            assert(r@.map_values(|x: usize| x as int) == before.push(ch@[k as int] as int));
        }
        k = k + 1;
    }
    assert(cv.take(ch@.len() as int) == cv);
    r
}

/// The element children of `root` with class `class_name`, in order.
pub fn direct_children_with_class(doc: &Document, root: usize, class_name: &str) -> (r: Vec<
    usize,
>)
    requires
        doc@.wf(),
        root < doc@.len(),
    ensures
        r@.map_values(|x: usize| x as int) == children_with_class(doc@, root as int, class_name@),
        forall|k: int| 0 <= k < r@.len() ==> #[trigger] r@[k] < doc@.len(),
{
    let ch = doc.children(root);
    let ghost d = doc@;
    let ghost cv = ch@.map_values(|x: usize| x as int);
    let mut r: Vec<usize> = Vec::new();
    let mut k: usize = 0;
    while k < ch.len()
        invariant
            doc@.wf(),
            d == doc@,
            k <= ch@.len(),
            cv == ch@.map_values(|x: usize| x as int),
            forall|m: int| 0 <= m < ch@.len() ==> #[trigger] ch@[m] < doc@.len(),
            r@.map_values(|x: usize| x as int) == keep(
                cv.take(k as int),
                |j: int| d.has_class(j, class_name@),
            ),
            forall|m: int| 0 <= m < r@.len() ==> #[trigger] r@[m] < doc@.len(),
        decreases ch.len() - k,
    {
        let ghost before = r@.map_values(|x: usize| x as int);
        assert(cv.take(k + 1).drop_last() == cv.take(k as int));
        assert(cv.take(k + 1).last() == ch@[k as int] as int);
        if has_class(doc, ch[k], class_name) {
            r.push(ch[k]);
            assert(r@.map_values(|x: usize| x as int) == before.push(ch@[k as int] as int));
        }
        k = k + 1;
    }
    assert(cv.take(ch@.len() as int) == cv);
    r
}

/// The element children of `root` with a class that begins with `ref`.
pub fn direct_children_with_any_ref_class(doc: &Document, root: usize) -> (r: Vec<usize>)
    requires
        doc@.wf(),
        root < doc@.len(),
    ensures
        r@.map_values(|x: usize| x as int) == children_with_ref_class(doc@, root as int),
        forall|k: int| 0 <= k < r@.len() ==> #[trigger] r@[k] < doc@.len(),
{
    let ch = doc.children(root);
    let ghost d = doc@;
    let ghost cv = ch@.map_values(|x: usize| x as int);
    let mut r: Vec<usize> = Vec::new();
    let mut k: usize = 0;
    while k < ch.len()
        invariant
            doc@.wf(),
            d == doc@,
            k <= ch@.len(),
            cv == ch@.map_values(|x: usize| x as int),
            forall|m: int| 0 <= m < ch@.len() ==> #[trigger] ch@[m] < doc@.len(),
            r@.map_values(|x: usize| x as int) == keep(
                cv.take(k as int),
                |j: int| has_ref_class(d, j),
            ),
            forall|m: int| 0 <= m < r@.len() ==> #[trigger] r@[m] < doc@.len(),
        decreases ch.len() - k,
    {
        let ghost before = r@.map_values(|x: usize| x as int);
        assert(cv.take(k + 1).drop_last() == cv.take(k as int));
        assert(cv.take(k + 1).last() == ch@[k as int] as int);
        if has_any_ref_class(doc, ch[k]) {
            r.push(ch[k]);
            assert(r@.map_values(|x: usize| x as int) == before.push(ch@[k as int] as int));
        }
        k = k + 1;
    }
    assert(cv.take(ch@.len() as int) == cv);
    r
}

/// The first element child of `root` with class `class_name`.
pub fn first_direct_child_with_class(doc: &Document, root: usize, class_name: &str) -> (r:
    Option<usize>)
    requires
        doc@.wf(),
        root < doc@.len(),
    ensures
        opt_int(r) == first_of(children_with_class(doc@, root as int, class_name@)),
        r matches Some(x) ==> x < doc@.len(),
{
    let all = direct_children_with_class(doc, root, class_name);
    if all.len() > 0 {
        assert(all@.map_values(|x: usize| x as int)[0] == all@[0] as int);
        Some(all[0])
    } else {
        None
    }
}

// ---------------------------------------------------------------------------
// Anchors
// ---------------------------------------------------------------------------

/// The `name` of the first `a` element among `kids` that has one, looking
/// no further than the first element whose name is in `stops`.
pub open spec fn anchor_before(d: DocView, kids: Seq<int>, stops: Seq<Seq<char>>) -> Option<
    Seq<char>,
>
    decreases kids.len(),
{
    if kids.len() == 0 {
        None
    } else {
        let j = kids[0];
        if !d.is_element(j) {
            anchor_before(d, kids.drop_first(), stops)
        } else if d.nodes[j].name == "a"@ && d.attr(j, "name"@) is Some {
            d.attr(j, "name"@)
        } else if stops.contains(d.nodes[j].name) {
            None
        } else {
            anchor_before(d, kids.drop_first(), stops)
        }
    }
}

/// The tag names as character sequences.
pub open spec fn tag_names(tags: Seq<&str>) -> Seq<Seq<char>> {
    tags.map_values(|t: &str| t@)
}

fn name_in(name: &String, tags: &[&str]) -> (r: bool)
    ensures
        r == tag_names(tags@).contains(name@),
{
    let mut k: usize = 0;
    while k < tags.len()
        invariant
            k <= tags@.len(),
            forall|m: int| 0 <= m < k ==> tags@[m]@ != name@,
        decreases tags.len() - k,
    {
        if str_eq(tags[k], name.as_str()) {
            assert(tag_names(tags@)[k as int] == name@);
            return true;
        }
        k = k + 1;
    }
    assert forall|m: int| 0 <= m < tags@.len() implies tag_names(tags@)[m] != name@ by {}
    false
}

/// The `name` attribute of the first `a` child of `root` that has one,
/// looking no further than the first child named in `stop_tags`.
pub fn find_anchor_name_before_stop_tags(doc: &Document, root: usize, stop_tags: &[&str]) -> (r:
    Option<String>)
    requires
        doc@.wf(),
        root < doc@.len(),
    ensures
        opt_chars(r) == anchor_before(doc@, doc@.children(root as int), tag_names(stop_tags@)),
{
    let ch = doc.children(root);
    let ghost cv = ch@.map_values(|x: usize| x as int);
    let ghost stops = tag_names(stop_tags@);
    let a_name = "a".to_owned();
    let name_key = "name".to_owned();
    assert(cv.skip(0) == cv);
    let mut k: usize = 0;
    while k < ch.len()
        invariant
            doc@.wf(),
            k <= ch@.len(),
            cv == ch@.map_values(|x: usize| x as int),
            stops == tag_names(stop_tags@),
            a_name@ == "a"@,
            name_key@ == "name"@,
            forall|m: int| 0 <= m < ch@.len() ==> #[trigger] ch@[m] < doc@.len(),
            anchor_before(doc@, doc@.children(root as int), stops) == anchor_before(
                doc@,
                cv.skip(k as int),
                stops,
            ),
        decreases ch.len() - k,
    {
        let j = ch[k];
        assert(cv.skip(k as int)[0] == j as int);
        assert(cv.skip(k as int).drop_first() == cv.skip(k + 1));
        if doc.is_element(j) {
            if doc.has_name(j, &a_name) {
                let found = doc.attr(j, &name_key);
                if found.is_some() {
                    return found;
                }
            }
            if name_in(doc.name(j), stop_tags) {
                return None;
            }
        }
        k = k + 1;
    }
    None
}

/// The stop tags `h1` to `h6`.
pub open spec fn heading_tags() -> Seq<Seq<char>> {
    seq!["h1"@, "h2"@, "h3"@, "h4"@, "h5"@, "h6"@]
}

/// The `name` of the first `a` child of `root` before its first heading.
pub fn find_anchor_name_before_heading(doc: &Document, root: usize) -> (r: Option<String>)
    requires
        doc@.wf(),
        root < doc@.len(),
    ensures
        opt_chars(r) == anchor_before(doc@, doc@.children(root as int), heading_tags()),
{
    let tags = ["h1", "h2", "h3", "h4", "h5", "h6"];
    assert(tag_names(tags@) =~= heading_tags());
    find_anchor_name_before_stop_tags(doc, root, tags.as_slice())
}

// ---------------------------------------------------------------------------
// Documentation lines
// ---------------------------------------------------------------------------

/// The strings of a vector as character sequences.
pub open spec fn strs(v: Seq<String>) -> Seq<Seq<char>> {
    v.map_values(|l: String| l@)
}

/// The decimal digit `n`.
pub open spec fn digit_char(n: nat) -> char {
    (48 + n) as char
}

/// `n` written in decimal.
pub open spec fn decimal(n: nat) -> Seq<char>
    decreases n,
{
    if n < 10 {
        seq![digit_char(n)]
    } else {
        decimal(n / 10).push(digit_char(n % 10))
    }
}

/// Appends `n` written in decimal.
fn push_decimal(out: &mut Vec<char>, n: u128)
    ensures
        final(out)@ == old(out)@ + decimal(n as nat),
    decreases n,
{
    if n >= 10 {
        push_decimal(out, n / 10);
    }
    let d = (n % 10) as u8;
    let c = (48u8 + d) as char;
    assert(c == digit_char((n % 10) as nat));
    out.push(c);
    proof {
        if n >= 10 {
            assert(decimal(n as nat) == decimal((n / 10) as nat).push(digit_char((n % 10) as nat)));
        } else {
            assert(decimal(n as nat) == seq![digit_char(n as nat)]);
        }
    }
}

/// Element `j` is a `p`, `ul` or `ol`.
pub open spec fn is_block(d: DocView, j: int) -> bool {
    d.has_name(j, "p"@) || d.has_name(j, "ul"@) || d.has_name(j, "ol"@)
}

/// The non-empty normalized texts of the `li` elements among `kids`.
pub open spec fn item_texts(d: DocView, kids: Seq<int>) -> Seq<Seq<char>>
    decreases kids.len(),
{
    if kids.len() == 0 {
        seq![]
    } else {
        let r = item_texts(d, kids.drop_last());
        let j = kids.last();
        if d.has_name(j, "li"@) && normalize(d.text_of(j)).len() > 0 {
            r.push(normalize(d.text_of(j)))
        } else {
            r
        }
    }
}

/// The items numbered from 1: `1. first`, `2. second`, ...
pub open spec fn numbered(items: Seq<Seq<char>>) -> Seq<Seq<char>> {
    Seq::new(items.len(), |i: int| decimal((i + 1) as nat) + ". "@ + items[i])
}

/// The documentation lines of a `p`, `ul` or `ol` element: a paragraph's
/// text and a blank line; an empty line for each non-empty item of a `ul`
/// and one more; the numbered items of an `ol` and a blank line.
pub open spec fn node_lines(d: DocView, j: int) -> Seq<Seq<char>> {
    if d.has_name(j, "p"@) {
        let t = normalize(d.text_of(j));
        if t.len() == 0 {
            seq![]
        } else {
            seq![t, seq![]]
        }
    } else if d.has_name(j, "ul"@) {
        let n = item_texts(d, d.children(j)).len();
        if n == 0 {
            seq![]
        } else {
            Seq::new(n + 1, |i: int| Seq::<char>::empty())
        }
    } else if d.has_name(j, "ol"@) {
        let items = item_texts(d, d.children(j));
        if items.len() == 0 {
            seq![]
        } else {
            numbered(items).push(seq![])
        }
    } else {
        seq![]
    }
}

/// The normalized text of `j`, and whether `j` is an `li` element.
fn li_text(doc: &Document, j: usize) -> (r: (bool, String))
    requires
        doc@.wf(),
        j < doc@.len(),
    ensures
        r.0 == doc@.has_name(j as int, "li"@),
        r.0 ==> r.1@ == normalize(doc@.text_of(j as int)),
{
    let li = "li".to_owned();
    if doc.has_name(j, &li) {
        let t = doc.text_of(j);
        (true, normalize_text(t.as_str()))
    } else {
        (false, String::new())
    }
}

/// The documentation lines of a `p`, `ul` or `ol` element.
pub fn extract_doc_lines_from_node(doc: &Document, node: usize) -> (r: Vec<String>)
    requires
        doc@.wf(),
        node < doc@.len(),
    ensures
        strs(r@) == node_lines(doc@, node as int),
{
    let p_name = "p".to_owned();
    let ul_name = "ul".to_owned();
    let ol_name = "ol".to_owned();
    if doc.has_name(node, &p_name) {
        let t = doc.text_of(node);
        let text = normalize_text(t.as_str());
        if text.as_str().is_empty() {
            let r: Vec<String> = Vec::new();
            assert(strs(r@) =~= Seq::<Seq<char>>::empty());
            r
        } else {
            let r = vec![text, String::new()];
            assert(strs(r@) =~= node_lines(doc@, node as int));
            r
        }
    } else if doc.has_name(node, &ul_name) || doc.has_name(node, &ol_name) {
        let is_ul = doc.has_name(node, &ul_name);
        let ch = doc.children(node);
        let ghost d = doc@;
        let ghost cv = ch@.map_values(|x: usize| x as int);
        let mut lines: Vec<String> = Vec::new();
        let mut k: usize = 0;
        while k < ch.len()
            invariant
                doc@.wf(),
                d == doc@,
                k <= ch@.len(),
                cv == ch@.map_values(|x: usize| x as int),
                forall|m: int| 0 <= m < ch@.len() ==> #[trigger] ch@[m] < doc@.len(),
                lines@.len() <= k,
                is_ul ==> strs(lines@) == Seq::new(
                    item_texts(d, cv.take(k as int)).len(),
                    |i: int| Seq::<char>::empty(),
                ),
                !is_ul ==> strs(lines@) == numbered(item_texts(d, cv.take(k as int))),
                lines@.len() == item_texts(d, cv.take(k as int)).len(),
            decreases ch.len() - k,
        {
            let j = ch[k];
            let ghost items = item_texts(d, cv.take(k as int));
            assert(cv.take(k + 1).drop_last() == cv.take(k as int));
            assert(cv.take(k + 1).last() == j as int);
            let (is_li, text) = li_text(doc, j);
            if is_li && !text.as_str().is_empty() {
                let ghost before = strs(lines@);
                if is_ul {
                    lines.push(String::new());
                    assert(strs(lines@) =~= before.push(Seq::<char>::empty()));
                    assert(strs(lines@) =~= Seq::new(items.len() + 1, |i: int| Seq::<char>::empty()));
                } else {
                    let mut item: Vec<char> = Vec::new();
                    let index: u128 = lines.len() as u128 + 1;
                    push_decimal(&mut item, index);
                    item.push('.');
                    item.push(' ');
                    let tv = chars_of(text.as_str());
                    let mut m: usize = 0;
                    let ghost head = item@;
                    while m < tv.len()
                        invariant
                            m <= tv@.len(),
                            item@ == head + tv@.take(m as int),
                        decreases tv.len() - m,
                    {
                        item.push(tv[m]);
                        assert(tv@.take(m + 1) == tv@.take(m as int).push(tv@[m as int]));
                        m = m + 1;
                    }
                    assert(tv@.take(tv@.len() as int) == tv@);
                    proof {
                        reveal_strlit(". ");
                    }
                    assert(item@ == decimal(index as nat) + ". "@ + text@);
                    lines.push(string_from_chars(item.as_slice()));
                    let ghost new_items = items.push(text@);
                    assert(strs(lines@) == before.push(item@));
                    assert forall|i: int| 0 <= i < new_items.len() implies #[trigger] strs(
                        lines@,
                    )[i] == numbered(new_items)[i] by {
                        if i < items.len() {
                            assert(new_items[i] == items[i]);
                            assert(before[i] == numbered(items)[i]);
                        }
                    }
                    assert(strs(lines@) =~= numbered(new_items));
                }
            }
            k = k + 1;
        }
        assert(cv.take(ch@.len() as int) == cv);
        if lines.len() > 0 {
            let ghost before = strs(lines@);
            lines.push(String::new());
            assert(strs(lines@) =~= before.push(Seq::<char>::empty()));
            proof {
                if is_ul {
                    assert(strs(lines@) =~= Seq::new(before.len() + 1, |i: int| Seq::<char>::empty()));
                }
            }
        } else {
            assert(strs(lines@) =~= Seq::<Seq<char>>::empty());
        }
        lines
    } else {
        let r: Vec<String> = Vec::new();
        assert(strs(r@) =~= Seq::<Seq<char>>::empty());
        r
    }
}

/// The documentation lines of the siblings from `j` on, up to the first
/// element with a class that begins with `ref`.
pub open spec fn sibling_lines(d: DocView, j: int) -> Seq<Seq<char>>
    decreases d.len() - j,
{
    if !(0 < j < d.len()) || d.end[j] <= j || d.end[j] > d.len() {
        seq![]
    } else {
        let rest = if d.end[j] < d.end[d.parent[j]] {
            sibling_lines(d, d.end[j])
        } else {
            seq![]
        };
        if !d.is_element(j) {
            rest
        } else if has_ref_class(d, j) {
            seq![]
        } else if is_block(d, j) {
            node_lines(d, j) + rest
        } else {
            rest
        }
    }
}

/// The documentation lines that follow heading `h` under its parent.
pub open spec fn lines_after_heading(d: DocView, h: int) -> Seq<Seq<char>> {
    without_trailing_blank(
        match d.next_sibling(h) {
            Some(k) => sibling_lines(d, k),
            None => seq![],
        },
    )
}

/// Whether element `j` is a `p`, `ul` or `ol`.
fn is_block_exec(doc: &Document, j: usize) -> (r: bool)
    requires
        doc@.wf(),
        j < doc@.len(),
    ensures
        r == is_block(doc@, j as int),
{
    let p_name = "p".to_owned();
    let ul_name = "ul".to_owned();
    let ol_name = "ol".to_owned();
    doc.has_name(j, &p_name) || doc.has_name(j, &ul_name) || doc.has_name(j, &ol_name)
}

/// The documentation lines in the paragraphs and lists that follow
/// `heading`, up to the next element with a `ref` class.
pub fn collect_doc_lines_after_heading(doc: &Document, heading: usize) -> (r: Vec<String>)
    requires
        doc@.wf(),
        heading < doc@.len(),
    ensures
        strs(r@) == lines_after_heading(doc@, heading as int),
{
    let ghost d = doc@;
    let ghost goal = match d.next_sibling(heading as int) {
        Some(k) => sibling_lines(d, k),
        None => seq![],
    };
    let mut lines: Vec<String> = Vec::new();
    let mut current = doc.next_sibling(heading);
    loop
        invariant
            doc@.wf(),
            d == doc@,
            current matches Some(j) ==> 0 < j < doc@.len(),
            goal == strs(lines@) + match current {
                Some(j) => sibling_lines(d, j as int),
                None => seq![],
            },
        ensures
            current is None,
        decreases match current {
            Some(j) => doc@.len() - j,
            None => 0,
        },
    {
        let node = match current {
            Some(j) => j,
            None => break,
        };
        let ghost rest = match doc@.next_sibling(node as int) {
            Some(k) => sibling_lines(d, k),
            None => seq![],
        };
        assert(d.end[node as int] > node);
        let next = doc.next_sibling(node);
        if !doc.is_element(node) {
            assert(sibling_lines(d, node as int) == rest);
            current = next;
            continue;
        }
        if has_any_ref_class(doc, node) {
            assert(sibling_lines(d, node as int) == Seq::<Seq<char>>::empty());
            current = None;
            break;
        }
        if is_block_exec(doc, node) {
            let ghost before = strs(lines@);
            let mut more = extract_doc_lines_from_node(doc, node);
            let ghost mv = strs(more@);
            lines.append(&mut more);
            assert(strs(lines@) == before + mv);
            assert(sibling_lines(d, node as int) == node_lines(d, node as int) + rest);
        } else {
            assert(sibling_lines(d, node as int) == rest);
        }
        current = next;
    }
    proof {
        assert(goal == strs(lines@) + Seq::<Seq<char>>::empty());
        assert(strs(lines@) + Seq::<Seq<char>>::empty() == strs(lines@));
    }
    let ghost collected = strs(lines@);
    trim_trailing_blank_lines(&mut lines);
    lines
}

/// The documentation lines of the `p`, `ul` and `ol` elements among `kids`.
pub open spec fn container_lines(d: DocView, kids: Seq<int>) -> Seq<Seq<char>>
    decreases kids.len(),
{
    if kids.len() == 0 {
        seq![]
    } else {
        let j = kids.last();
        container_lines(d, kids.drop_last()) + if is_block(d, j) {
            node_lines(d, j)
        } else {
            seq![]
        }
    }
}

/// The documentation lines of the paragraphs and lists directly inside
/// `container`.
pub fn collect_doc_lines_from_container(doc: &Document, container: usize) -> (r: Vec<String>)
    requires
        doc@.wf(),
        container < doc@.len(),
    ensures
        strs(r@) == without_trailing_blank(
            container_lines(doc@, doc@.children(container as int)),
        ),
{
    let ch = doc.children(container);
    let ghost d = doc@;
    let ghost cv = ch@.map_values(|x: usize| x as int);
    let mut lines: Vec<String> = Vec::new();
    let mut k: usize = 0;
    while k < ch.len()
        invariant
            doc@.wf(),
            d == doc@,
            k <= ch@.len(),
            cv == ch@.map_values(|x: usize| x as int),
            forall|m: int| 0 <= m < ch@.len() ==> #[trigger] ch@[m] < doc@.len(),
            strs(lines@) == container_lines(d, cv.take(k as int)),
        decreases ch.len() - k,
    {
        let j = ch[k];
        assert(cv.take(k + 1).drop_last() == cv.take(k as int));
        assert(cv.take(k + 1).last() == j as int);
        let ghost before = strs(lines@);
        if doc.is_element(j) && is_block_exec(doc, j) {
            let mut more = extract_doc_lines_from_node(doc, j);
            let ghost mv = strs(more@);
            lines.append(&mut more);
            assert(strs(lines@) == before + mv);
        } else {
            assert(before + Seq::<Seq<char>>::empty() == before);
        }
        k = k + 1;
    }
    assert(cv.take(ch@.len() as int) == cv);
    trim_trailing_blank_lines(&mut lines);
    lines
}

// ---------------------------------------------------------------------------
// Sections and pages
// ---------------------------------------------------------------------------

/// What a documented section says of itself: the heading, the link to its
/// anchor, the documentation lines under the heading and the versions they
/// mention.
pub struct SectionDetail {
    pub title: String,
    pub source_url: Option<String>,
    pub description: Vec<String>,
    pub since: Option<Version>,
    pub deprecated: Option<Version>,
}

pub struct SectionDetailView {
    pub title: Seq<char>,
    pub source_url: Option<Seq<char>>,
    pub description: Seq<Seq<char>>,
    pub since: Option<Version>,
    pub deprecated: Option<Version>,
}

impl View for SectionDetail {
    type V = SectionDetailView;

    open spec fn view(&self) -> SectionDetailView {
        SectionDetailView {
            title: self.title@,
            source_url: opt_chars(self.source_url),
            description: strs(self.description@),
            since: self.since,
            deprecated: self.deprecated,
        }
    }
}

/// `base#anchor`.
pub open spec fn anchor_url(base: Seq<char>, anchor: Seq<char>) -> Seq<char> {
    base + seq!['#'] + anchor
}

/// The detail of `section`, whose heading is its first `tag` element.
pub open spec fn section_detail(d: DocView, section: int, tag: Seq<char>, base: Seq<char>) -> Option<
    SectionDetailView,
> {
    match first_of(d.select_in(section, tag_sel(tag))) {
        None => None,
        Some(h) => {
            let description = lines_after_heading(d, h);
            Some(
                SectionDetailView {
                    title: normalize(d.text_of(h)),
                    source_url: match anchor_before(d, d.children(section), heading_tags()) {
                        Some(a) => Some(anchor_url(base, a)),
                        None => None,
                    },
                    description: description,
                    since: since_and_deprecated(description).0,
                    deprecated: since_and_deprecated(description).1,
                },
            )
        },
    }
}

/// An optional section detail as plain values.
pub open spec fn opt_detail(r: Option<SectionDetail>) -> Option<SectionDetailView> {
    match r {
        Some(x) => Some(x@),
        None => None,
    }
}

/// Reads the heading, anchor, documentation lines and versions of a section.
pub fn parse_section_detail(doc: &Document, section: usize, heading_tag: &str, base_url: &str) -> (r:
    Option<SectionDetail>)
    requires
        doc@.wf(),
        section < doc@.len(),
        is_tag_ident(heading_tag@),
    ensures
        opt_detail(r) == section_detail(doc@, section as int, heading_tag@, base_url@),
{
    let heading = match first_tag(doc, section, heading_tag) {
        Some(h) => h,
        None => return None,
    };
    let t = doc.text_of(heading);
    let title = normalize_text(t.as_str());
    let source_url = match find_anchor_name_before_heading(doc, section) {
        Some(anchor) => {
            let mut url = base_url.to_owned();
            url.append("#");
            url.append(anchor.as_str());
            proof {
                reveal_strlit("#");
                assert("#"@ == seq!['#']);
            }
            Some(url)
        },
        None => None,
    };
    let description = collect_doc_lines_after_heading(doc, heading);
    let (since, deprecated) = extract_since_and_deprecated(description.as_slice());
    Some(SectionDetail { title, source_url, description, since, deprecated })
}

/// The lines under the `Description` heading of the first of `sections`
/// whose first heading reads `Description`.
pub open spec fn described_lines(d: DocView, sections: Seq<int>) -> Seq<Seq<char>>
    decreases sections.len(),
{
    if sections.len() == 0 {
        seq![]
    } else {
        match first_heading_from(d, sections[0], 1) {
            Some(h) => if normalize(d.text_of(h)) == "Description"@ {
                lines_after_heading(d, h)
            } else {
                described_lines(d, sections.drop_first())
            },
            None => described_lines(d, sections.drop_first()),
        }
    }
}

/// The page's name, the text of its first `refentrytitle` element.
pub open spec fn page_name(d: DocView, refentry: int) -> Seq<char> {
    match first_of(d.select_in(refentry, class_sel("refentrytitle"@))) {
        Some(e) => normalize(d.text_of(e)),
        None => seq![],
    }
}

/// The name and description of a reference page: the text of its
/// `refentrytitle` element, and the documentation lines of its
/// `Description` section.
pub fn parse_refentry_page_identity(doc: &Document, refentry: usize) -> (r: (String, Vec<String>))
    requires
        doc@.wf(),
        refentry < doc@.len(),
    ensures
        r.0@ == page_name(doc@, refentry as int),
        strs(r.1@) == described_lines(
            doc@,
            children_with_class(doc@, refentry as int, "refsect1"@),
        ),
{
    proof {
        reveal_strlit("refentrytitle");
    }
    let name = match fist_with_class(doc, refentry, "refentrytitle") {
        Some(e) => {
            let t = doc.text_of(e);
            normalize_text(t.as_str())
        },
        None => String::new(),
    };
    let sections = direct_children_with_class(doc, refentry, "refsect1");
    let ghost sv = sections@.map_values(|x: usize| x as int);
    let ghost d = doc@;
    assert(sv.skip(0) == sv);
    let mut k: usize = 0;
    while k < sections.len()
        invariant
            doc@.wf(),
            d == doc@,
            k <= sections@.len(),
            sv == sections@.map_values(|x: usize| x as int),
            sv == children_with_class(d, refentry as int, "refsect1"@),
            name@ == page_name(d, refentry as int),
            forall|m: int| 0 <= m < sections@.len() ==> #[trigger] sections@[m] < doc@.len(),
            described_lines(d, sv) == described_lines(d, sv.skip(k as int)),
        decreases sections.len() - k,
    {
        let sec = sections[k];
        assert(sv.skip(k as int)[0] == sec as int);
        assert(sv.skip(k as int).drop_first() == sv.skip(k + 1));
        if let Some(h) = first_heading(doc, sec) {
            let t = doc.text_of(h);
            let title = normalize_text(t.as_str());
            if str_eq(title.as_str(), "Description") {
                let lines = collect_doc_lines_after_heading(doc, h);
                return (name, lines);
            }
        }
        k = k + 1;
    }
    let lines: Vec<String> = Vec::new();
    assert(strs(lines@) =~= Seq::<Seq<char>>::empty());
    (name, lines)
}

} // verus!
