use vstd::prelude::*;

use crate::dom::{html_walk, tree_of, DocView, Document, first_of, opt_chars, opt_int};
use crate::parse::common::{
    PageError, children_with_class, first_direct_child_with_class, keep, strs,
};
use crate::text::{chars_of, normalize, normalize_text, skip_ws_forward, starts_with, starts_with_exec, string_from_range, trim_start};

verus! {

/// One interface listed in the table of contents.
#[derive(Debug, Clone)]
pub struct SpecTocInterface {
    pub name: String,
    pub href: String,
    pub description: String,
}

/// One object-path family of the table of contents and its interfaces.
#[derive(Debug, Clone)]
pub struct SpecTocEntry {
    pub object_path_label: String,
    pub interfaces: Vec<SpecTocInterface>,
}

/// The table of contents of the reference's index page.
#[derive(Debug, Clone)]
pub struct SpecToc {
    pub entries: Vec<SpecTocEntry>,
}

pub struct SpecTocInterfaceView {
    pub name: Seq<char>,
    pub href: Seq<char>,
    pub description: Seq<char>,
}

pub struct SpecTocEntryView {
    pub object_path_label: Seq<char>,
    pub interfaces: Seq<SpecTocInterfaceView>,
}

impl View for SpecTocInterface {
    type V = SpecTocInterfaceView;

    open spec fn view(&self) -> SpecTocInterfaceView {
        SpecTocInterfaceView { name: self.name@, href: self.href@, description: self.description@ }
    }
}

impl View for SpecTocEntry {
    type V = SpecTocEntryView;

    open spec fn view(&self) -> SpecTocEntryView {
        SpecTocEntryView {
            object_path_label: self.object_path_label@,
            interfaces: self.interfaces@.map_values(|i: SpecTocInterface| i@),
        }
    }
}

impl View for SpecToc {
    type V = Seq<SpecTocEntryView>;

    open spec fn view(&self) -> Seq<SpecTocEntryView> {
        self.entries@.map_values(|e: SpecTocEntry| e@)
    }
}

// ---------------------------------------------------------------------------
// What the table of contents is
// ---------------------------------------------------------------------------

/// The first node among `a .. b` that `f` accepts.
pub open spec fn first_in(a: int, b: int, f: spec_fn(int) -> bool) -> Option<int>
    decreases b - a,
{
    if a >= b {
        None
    } else if f(a) {
        Some(a)
    } else {
        first_in(a + 1, b, f)
    }
}

/// Node `j` is a `dl` element of class `toc`.
pub open spec fn is_toc(d: DocView, j: int) -> bool {
    d.has_name(j, "dl"@) && d.has_class(j, "toc"@)
}

/// The first `dl.toc` element of the document, in document order.
pub open spec fn first_toc(d: DocView) -> Option<int> {
    first_in(0, d.len(), |j: int| is_toc(d, j))
}

/// The first `dl` among `kids` or, before it, among the children of an
/// earlier element of `kids`.
pub open spec fn nested_dl(d: DocView, kids: Seq<int>) -> Option<int>
    decreases kids.len(),
{
    if kids.len() == 0 {
        None
    } else {
        let j = kids[0];
        if !d.is_element(j) {
            nested_dl(d, kids.drop_first())
        } else if d.has_name(j, "dl"@) {
            Some(j)
        } else {
            match first_of(keep(d.children(j), |x: int| d.has_name(x, "dl"@))) {
                Some(x) => Some(x),
                None => nested_dl(d, kids.drop_first()),
            }
        }
    }
}

/// Each `dd` element among `kids` paired with the last `dt` before it that
/// no earlier `dd` took; `cur` is the `dt` waiting for its `dd`.
pub open spec fn dt_dd_pairs(d: DocView, kids: Seq<int>, cur: Option<int>) -> Seq<(int, int)>
    decreases kids.len(),
{
    if kids.len() == 0 {
        seq![]
    } else {
        let j = kids[0];
        let rest = kids.drop_first();
        if !d.is_element(j) {
            dt_dd_pairs(d, rest, cur)
        } else if d.has_name(j, "dt"@) {
            dt_dd_pairs(d, rest, Some(j))
        } else if d.has_name(j, "dd"@) {
            match cur {
                Some(t) => seq![(t, j)] + dt_dd_pairs(d, rest, None),
                None => dt_dd_pairs(d, rest, None),
            }
        } else {
            dt_dd_pairs(d, rest, cur)
        }
    }
}

/// The `href` of the first `a` child of `r`.
pub open spec fn first_anchor_href(d: DocView, r: int) -> Option<Seq<char>> {
    match first_of(keep(d.children(r), |j: int| d.has_name(j, "a"@))) {
        Some(a) => d.attr(a, "href"@),
        None => None,
    }
}

/// The name and link of the `refentrytitle` child of `dt`, or two empty
/// strings.
pub open spec fn refentrytitle_of(d: DocView, dt: int) -> (Seq<char>, Seq<char>) {
    match first_of(children_with_class(d, dt, "refentrytitle"@)) {
        Some(e) => (
            normalize(d.text_of(e)),
            match first_anchor_href(d, e) {
                Some(h) => h,
                None => seq![],
            },
        ),
        None => (seq![], seq![]),
    }
}

/// `s` with every leading copy of `p` removed (`str::trim_start_matches`).
pub open spec fn strip_all(s: Seq<char>, p: Seq<char>) -> Seq<char>
    decreases s.len(),
{
    if p.len() > 0 && starts_with(s, p) {
        strip_all(s.skip(p.len() as int), p)
    } else {
        s
    }
}

/// The purpose line of `dt` without its leading dash.
pub open spec fn refpurpose_of(d: DocView, dt: int) -> Seq<char> {
    match first_of(children_with_class(d, dt, "refpurpose"@)) {
        Some(e) => trim_start(strip_all(strip_all(normalize(d.text_of(e)), " — "@), "— "@)),
        None => seq![],
    }
}

/// The interfaces named by the `dt` elements among `kids`.
pub open spec fn interface_list(d: DocView, kids: Seq<int>) -> Seq<SpecTocInterfaceView>
    decreases kids.len(),
{
    if kids.len() == 0 {
        seq![]
    } else {
        let r = interface_list(d, kids.drop_last());
        let j = kids.last();
        if d.has_name(j, "dt"@) && refentrytitle_of(d, j).0.len() > 0 {
            r.push(
                SpecTocInterfaceView {
                    name: refentrytitle_of(d, j).0,
                    href: refentrytitle_of(d, j).1,
                    description: refpurpose_of(d, j),
                },
            )
        } else {
            r
        }
    }
}

/// The entry that a `dt`/`dd` pair describes.
pub open spec fn toc_entry(d: DocView, dt: int, dd: int) -> SpecTocEntryView {
    SpecTocEntryView {
        object_path_label: normalize(d.text_of(dt)),
        interfaces: match nested_dl(d, d.children(dd)) {
            Some(dl) => interface_list(d, d.children(dl)),
            None => seq![],
        },
    }
}

/// The table of contents of a document.
pub open spec fn toc_of(d: DocView) -> Result<Seq<SpecTocEntryView>, PageError> {
    match first_toc(d) {
        None => Err(PageError::MissingToc),
        Some(toc) => {
            let pairs = dt_dd_pairs(d, d.children(toc), None);
            Ok(Seq::new(pairs.len(), |i: int| toc_entry(d, pairs[i].0, pairs[i].1)))
        },
    }
}

/// The table of contents of an index page.
pub open spec fn spec_toc_of(html: Seq<char>) -> Result<Seq<SpecTocEntryView>, PageError> {
    toc_of(tree_of(html_walk(html)))
}

// ---------------------------------------------------------------------------
// Reading it
// ---------------------------------------------------------------------------

fn is_toc_exec(doc: &Document, j: usize) -> (r: bool)
    requires
        doc@.wf(),
        j < doc@.len(),
    ensures
        r == is_toc(doc@, j as int),
{
    let dl = "dl".to_owned();
    let toc = "toc".to_owned();
    doc.has_name(j, &dl) && doc.has_class(j, &toc)
}

/// The first `dl` element of class `toc`, in document order.
pub fn find_first_dl_toc(doc: &Document) -> (r: Option<usize>)
    requires
        doc@.wf(),
    ensures
        opt_int(r) == first_toc(doc@),
        r matches Some(x) ==> x < doc@.len(),
{
    let ghost d = doc@;
    let n = doc.len();
    let mut i: usize = 0;
    while i < n
        invariant
            doc@.wf(),
            d == doc@,
            n == doc@.len(),
            i <= n,
            first_toc(d) == first_in(i as int, n as int, |j: int| is_toc(d, j)),
        decreases n - i,
    {
        if is_toc_exec(doc, i) {
            return Some(i);
        }
        i = i + 1;
    }
    None
}

/// The first `dl` child of `root` or, before it, grandchild of `root`.
pub fn find_first_nested_dl(doc: &Document, root: usize) -> (r: Option<usize>)
    requires
        doc@.wf(),
        root < doc@.len(),
    ensures
        opt_int(r) == nested_dl(doc@, doc@.children(root as int)),
        r matches Some(x) ==> x < doc@.len(),
{
    let ghost d = doc@;
    let dl = "dl".to_owned();
    let ch = doc.children(root);
    let ghost cv = ch@.map_values(|x: usize| x as int);
    assert(cv.skip(0) == cv);
    let mut k: usize = 0;
    while k < ch.len()
        invariant
            doc@.wf(),
            d == doc@,
            dl@ == "dl"@,
            k <= ch@.len(),
            cv == ch@.map_values(|x: usize| x as int),
            forall|m: int| 0 <= m < ch@.len() ==> #[trigger] ch@[m] < doc@.len(),
            nested_dl(d, d.children(root as int)) == nested_dl(d, cv.skip(k as int)),
        decreases ch.len() - k,
    {
        let j = ch[k];
        assert(cv.skip(k as int)[0] == j as int);
        assert(cv.skip(k as int).drop_first() == cv.skip(k + 1));
        if doc.is_element(j) {
            if doc.has_name(j, &dl) {
                return Some(j);
            }
            let grand = doc.children(j);
            let ghost gv = grand@.map_values(|x: usize| x as int);
            let mut m: usize = 0;
            while m < grand.len()
                invariant
                    doc@.wf(),
                    d == doc@,
                    dl@ == "dl"@,
                    m <= grand@.len(),
                    gv == grand@.map_values(|x: usize| x as int),
                    gv == d.children(j as int),
                    nested_dl(d, d.children(root as int)) == nested_dl(d, cv.skip(k as int)),
                    k < cv.len(),
                    cv.skip(k as int)[0] == j as int,
                    d.is_element(j as int),
                    !d.has_name(j as int, "dl"@),
                    forall|q: int| 0 <= q < grand@.len() ==> #[trigger] grand@[q] < doc@.len(),
                    keep(gv.take(m as int), |x: int| d.has_name(x, "dl"@)) == Seq::<int>::empty(),
                decreases grand.len() - m,
            {
                let x = grand[m];
                assert(gv.take(m + 1).drop_last() == gv.take(m as int));
                assert(gv.take(m + 1).last() == x as int);
                if doc.has_name(x, &dl) {
                    proof {
                        lemma_keep_first(gv, |x: int| d.has_name(x, "dl"@), m as int);
                    }
                    return Some(x);
                }
                m = m + 1;
            }
            assert(gv.take(grand@.len() as int) == gv);
        }
        k = k + 1;
    }
    None
}

/// If nothing before position `m` is kept and the node at `m` is, it is the
/// first one kept.
pub proof fn lemma_keep_first(s: Seq<int>, f: spec_fn(int) -> bool, m: int)
    requires
        0 <= m < s.len(),
        keep(s.take(m), f) == Seq::<int>::empty(),
        f(s[m]),
    ensures
        first_of(keep(s, f)) == Some(s[m]),
    decreases s.len(),
{
    if s.len() == m + 1 {
        assert(s.drop_last() == s.take(m));
    } else {
        assert(s.drop_last().take(m) == s.take(m));
        lemma_keep_first(s.drop_last(), f, m);
    }
}

/// Each `dd` child of `dl` paired with the `dt` before it.
pub fn collect_dt_dd_pairs(doc: &Document, dl: usize) -> (r: Vec<(usize, usize)>)
    requires
        doc@.wf(),
        dl < doc@.len(),
    ensures
        r@.map_values(|p: (usize, usize)| (p.0 as int, p.1 as int)) == dt_dd_pairs(
            doc@,
            doc@.children(dl as int),
            None,
        ),
        forall|k: int| 0 <= k < r@.len() ==> (#[trigger] r@[k]).0 < doc@.len() && r@[k].1 < doc@.len(),
{
    let ghost d = doc@;
    let dt_name = "dt".to_owned();
    let dd_name = "dd".to_owned();
    let ch = doc.children(dl);
    let ghost cv = ch@.map_values(|x: usize| x as int);
    assert(cv.skip(0) == cv);
    let mut pairs: Vec<(usize, usize)> = Vec::new();
    let mut current_dt: Option<usize> = None;
    let mut k: usize = 0;
    while k < ch.len()
        invariant
            doc@.wf(),
            d == doc@,
            dt_name@ == "dt"@,
            dd_name@ == "dd"@,
            k <= ch@.len(),
            cv == ch@.map_values(|x: usize| x as int),
            forall|m: int| 0 <= m < ch@.len() ==> #[trigger] ch@[m] < doc@.len(),
            current_dt matches Some(t) ==> t < doc@.len(),
            forall|m: int|
                0 <= m < pairs@.len() ==> (#[trigger] pairs@[m]).0 < doc@.len() && pairs@[m].1
                    < doc@.len(),
            dt_dd_pairs(d, d.children(dl as int), None) == pairs@.map_values(
                |p: (usize, usize)| (p.0 as int, p.1 as int),
            ) + dt_dd_pairs(d, cv.skip(k as int), opt_int(current_dt)),
        decreases ch.len() - k,
    {
        let j = ch[k];
        assert(cv.skip(k as int)[0] == j as int);
        assert(cv.skip(k as int).drop_first() == cv.skip(k + 1));
        let ghost pv = pairs@.map_values(|p: (usize, usize)| (p.0 as int, p.1 as int));
        if doc.is_element(j) {
            if doc.has_name(j, &dt_name) {
                current_dt = Some(j);
            } else if doc.has_name(j, &dd_name) {
                if let Some(t) = current_dt {
                    pairs.push((t, j));
                    assert(pairs@.map_values(|p: (usize, usize)| (p.0 as int, p.1 as int)) == pv.push(
                        (t as int, j as int),
                    ));
                    assert(pv + (seq![(t as int, j as int)] + dt_dd_pairs(d, cv.skip(k + 1), None))
                        == pv.push((t as int, j as int)) + dt_dd_pairs(d, cv.skip(k + 1), None));
                }
                current_dt = None;
            }
        }
        k = k + 1;
    }
    assert(cv.skip(ch@.len() as int) == Seq::<int>::empty());
    assert(pairs@.map_values(|p: (usize, usize)| (p.0 as int, p.1 as int)) + Seq::<(int, int)>::empty()
        == pairs@.map_values(|p: (usize, usize)| (p.0 as int, p.1 as int)));
    pairs
}

/// The `href` of the first `a` child of `root`.
pub fn find_first_anchor_href(doc: &Document, root: usize) -> (r: Option<String>)
    requires
        doc@.wf(),
        root < doc@.len(),
    ensures
        opt_chars(r) == first_anchor_href(doc@, root as int),
{
    let ghost d = doc@;
    let a_name = "a".to_owned();
    let href = "href".to_owned();
    let ch = doc.children(root);
    let ghost cv = ch@.map_values(|x: usize| x as int);
    let mut k: usize = 0;
    while k < ch.len()
        invariant
            doc@.wf(),
            d == doc@,
            a_name@ == "a"@,
            href@ == "href"@,
            k <= ch@.len(),
            cv == ch@.map_values(|x: usize| x as int),
            cv == d.children(root as int),
            forall|m: int| 0 <= m < ch@.len() ==> #[trigger] ch@[m] < doc@.len(),
            keep(cv.take(k as int), |x: int| d.has_name(x, "a"@)) == Seq::<int>::empty(),
        decreases ch.len() - k,
    {
        let j = ch[k];
        assert(cv.take(k + 1).drop_last() == cv.take(k as int));
        assert(cv.take(k + 1).last() == j as int);
        if doc.has_name(j, &a_name) {
            proof {
                lemma_keep_first(cv, |x: int| d.has_name(x, "a"@), k as int);
            }
            return doc.attr(j, &href);
        }
        k = k + 1;
    }
    assert(cv.take(ch@.len() as int) == cv);
    None
}

/// The name and link of the `refentrytitle` child of `dt`.
pub fn extract_refentrytitle(doc: &Document, dt: usize) -> (r: (String, String))
    requires
        doc@.wf(),
        dt < doc@.len(),
    ensures
        (r.0@, r.1@) == refentrytitle_of(doc@, dt as int),
{
    match first_direct_child_with_class(doc, dt, "refentrytitle") {
        Some(e) => {
            let t = doc.text_of(e);
            let name = normalize_text(t.as_str());
            let href = match find_first_anchor_href(doc, e) {
                Some(h) => h,
                None => String::new(),
            };
            (name, href)
        },
        None => (String::new(), String::new()),
    }
}

/// The position after every leading copy of `p` in `s[lo..]`.
fn skip_all_prefix(s: &[char], lo: usize, p: &[char]) -> (r: usize)
    requires
        lo <= s@.len(),
    ensures
        lo <= r <= s@.len(),
        s@.skip(r as int) == strip_all(s@.skip(lo as int), p@),
{
    let mut i = lo;
    if p.len() == 0 {
        return i;
    }
    while i < s.len() && crate::text::occurs_at_exec(s, p, i)
        invariant
            lo <= i <= s@.len(),
            p@.len() > 0,
            strip_all(s@.skip(lo as int), p@) == strip_all(s@.skip(i as int), p@),
        decreases s.len() - i,
    {
        assert(s@.skip(i as int).subrange(0, p@.len() as int) == s@.subrange(
            i as int,
            i + p@.len(),
        ));
        assert(s@.skip(i as int).skip(p@.len() as int) == s@.skip(i + p@.len()));
        i = i + p.len();
    }
    proof {
        if i < s@.len() {
            assert(!crate::text::occurs_at(s@, p@, i as int));
            if starts_with(s@.skip(i as int), p@) {
                assert(s@.skip(i as int).subrange(0, p@.len() as int) == s@.subrange(
                    i as int,
                    i + p@.len(),
                ));
            }
        } else {
            assert(s@.skip(i as int).len() == 0);
        }
    }
    i
}

/// The purpose line of `dt` without its leading dash.
pub fn extract_refpurpose(doc: &Document, dt: usize) -> (r: String)
    requires
        doc@.wf(),
        dt < doc@.len(),
    ensures
        r@ == refpurpose_of(doc@, dt as int),
{
    match first_direct_child_with_class(doc, dt, "refpurpose") {
        Some(e) => {
            let t = doc.text_of(e);
            let raw = normalize_text(t.as_str());
            let v = chars_of(raw.as_str());
            let dash1 = chars_of(" — ");
            let dash2 = chars_of("— ");
            assert(v@.skip(0) == v@);
            let a = skip_all_prefix(v.as_slice(), 0, dash1.as_slice());
            let b = skip_all_prefix(v.as_slice(), a, dash2.as_slice());
            assert(v@.skip(b as int) == v@.subrange(b as int, v@.len() as int));
            let c = skip_ws_forward(v.as_slice(), b, v.len());
            assert(v@.subrange(c as int, v@.len() as int) == trim_start(v@.skip(b as int)));
            string_from_range(v.as_slice(), c, v.len())
        },
        None => String::new(),
    }
}

/// The interfaces named by the `dt` children of `dl`.
pub fn parse_interface_list_dl(doc: &Document, dl: usize) -> (r: Vec<SpecTocInterface>)
    requires
        doc@.wf(),
        dl < doc@.len(),
    ensures
        r@.map_values(|i: SpecTocInterface| i@) == interface_list(doc@, doc@.children(dl as int)),
{
    let ghost d = doc@;
    let dt_name = "dt".to_owned();
    let ch = doc.children(dl);
    let ghost cv = ch@.map_values(|x: usize| x as int);
    let mut interfaces: Vec<SpecTocInterface> = Vec::new();
    let mut k: usize = 0;
    while k < ch.len()
        invariant
            doc@.wf(),
            d == doc@,
            dt_name@ == "dt"@,
            k <= ch@.len(),
            cv == ch@.map_values(|x: usize| x as int),
            forall|m: int| 0 <= m < ch@.len() ==> #[trigger] ch@[m] < doc@.len(),
            interfaces@.map_values(|i: SpecTocInterface| i@) == interface_list(d, cv.take(k as int)),
        decreases ch.len() - k,
    {
        let j = ch[k];
        assert(cv.take(k + 1).drop_last() == cv.take(k as int));
        assert(cv.take(k + 1).last() == j as int);
        if doc.has_name(j, &dt_name) {
            let (name, href) = extract_refentrytitle(doc, j);
            if !name.as_str().is_empty() {
                let description = extract_refpurpose(doc, j);
                let ghost before = interfaces@.map_values(|i: SpecTocInterface| i@);
                let item = SpecTocInterface { name, href, description };
                let ghost iv = item@;
                interfaces.push(item);
                assert(interfaces@.map_values(|i: SpecTocInterface| i@) == before.push(iv));
            }
        }
        k = k + 1;
    }
    assert(cv.take(ch@.len() as int) == cv);
    interfaces
}

/// Reads the table of contents of the reference's index page: for each
/// object-path family (`dt`) the interfaces listed in the `dl` of its `dd`.
pub fn parse_spec_toc(html: &str) -> (r: Result<SpecToc, PageError>)
    ensures
        match r {
            Ok(toc) => spec_toc_of(html@) == Ok::<Seq<SpecTocEntryView>, PageError>(toc@),
            Err(e) => spec_toc_of(html@) == Err::<Seq<SpecTocEntryView>, PageError>(e),
        },
{
    let doc = Document::parse(html);
    let ghost d = doc@;
    let toc = match find_first_dl_toc(&doc) {
        Some(t) => t,
        None => return Err(PageError::MissingToc),
    };
    let pairs = collect_dt_dd_pairs(&doc, toc);
    let ghost pv = pairs@.map_values(|p: (usize, usize)| (p.0 as int, p.1 as int));
    let mut entries: Vec<SpecTocEntry> = Vec::new();
    let mut k: usize = 0;
    while k < pairs.len()
        invariant
            doc@.wf(),
            d == doc@,
            k <= pairs@.len(),
            pv == pairs@.map_values(|p: (usize, usize)| (p.0 as int, p.1 as int)),
            forall|m: int|
                0 <= m < pairs@.len() ==> (#[trigger] pairs@[m]).0 < doc@.len() && pairs@[m].1
                    < doc@.len(),
            entries@.len() == k,
            forall|m: int|
                0 <= m < k ==> #[trigger] entries@[m]@ == toc_entry(d, pv[m].0, pv[m].1),
        decreases pairs.len() - k,
    {
        let (dt, dd) = pairs[k];
        let t = doc.text_of(dt);
        let object_path_label = normalize_text(t.as_str());
        let interfaces = match find_first_nested_dl(&doc, dd) {
            Some(dl) => parse_interface_list_dl(&doc, dl),
            None => {
                let v: Vec<SpecTocInterface> = Vec::new();
                assert(v@.map_values(|i: SpecTocInterface| i@) =~= Seq::<SpecTocInterfaceView>::empty());
                v
            },
        };
        entries.push(SpecTocEntry { object_path_label, interfaces });
        k = k + 1;
    }
    let r = SpecToc { entries };
    assert(r@ =~= Seq::new(pv.len(), |i: int| toc_entry(d, pv[i].0, pv[i].1)));
    Ok(r)
}

} // verus!
