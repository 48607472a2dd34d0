use vstd::prelude::*;

use crate::dom::opt_chars;
use crate::model::spec::{
    FetchedPage, FetchedPageView, ObjectPathFamilyRecord, ObjectPathFamilyRecordView,
    SnapshotManifest, SnapshotPageKind, TocInterfaceRecord, TocInterfaceRecordView, families_view,
    pages_view, records_view,
};
use crate::parse::spec_index::{SpecTocEntryView, SpecTocInterfaceView, parse_spec_toc, spec_toc_of};
use crate::text::{
    chars_of, ends_with, ends_with_exec, starts_with, starts_with_exec, string_from_range, trim,
    trim_bounds,
};

verus! {

// ---------------------------------------------------------------------------
// Pages and paths
// ---------------------------------------------------------------------------

/// What a table-of-contents title names: the enumerations page when it ends
/// in `Types`, an interface when it begins with `org.freedesktop.`.
pub open spec fn kind_of(title: Seq<char>) -> SnapshotPageKind {
    if ends_with(title, "Types"@) {
        SnapshotPageKind::Types
    } else if starts_with(title, "org.freedesktop."@) {
        SnapshotPageKind::Interface
    } else {
        SnapshotPageKind::Other
    }
}

/// What kind of page an interface title of the table of contents names.
pub fn classify_toc_interface(title: &str) -> (r: SnapshotPageKind)
    ensures
        r == kind_of(title@),
{
    let t = chars_of(title);
    let types = chars_of("Types");
    let prefix = chars_of("org.freedesktop.");
    if ends_with_exec(t.as_slice(), types.as_slice()) {
        SnapshotPageKind::Types
    } else if starts_with_exec(t.as_slice(), prefix.as_slice()) {
        SnapshotPageKind::Interface
    } else {
        SnapshotPageKind::Other
    }
}

/// The path pattern in a family label such as
/// `The /org/freedesktop/NetworkManager/Devices/* objects`: the trimmed text
/// between `The ` and ` objects`, when it begins with `/` and ends with `*`.
pub open spec fn pattern_of(label: Seq<char>) -> Option<Seq<char>> {
    if starts_with(label, "The "@) && ends_with(label.skip(4), " objects"@) {
        let rest = label.skip(4);
        let path = trim(rest.take(rest.len() - 8));
        if starts_with(path, "/"@) && ends_with(path, "*"@) {
            Some(path)
        } else {
            None
        }
    } else {
        None
    }
}

/// The object-path pattern that a family label names, if it names one.
pub fn extract_object_path_pattern(label: &str) -> (r: Option<String>)
    ensures
        opt_chars(r) == pattern_of(label@),
{
    let v = chars_of(label);
    let marker = chars_of("The ");
    let suffix = chars_of(" objects");
    proof {
        reveal_strlit("The ");
        reveal_strlit(" objects");
    }
    if !starts_with_exec(v.as_slice(), marker.as_slice()) {
        return None;
    }
    let rest = crate::parse::common::copy_range(v.as_slice(), 4, v.len());
    assert(rest@ == v@.skip(4));
    if !ends_with_exec(rest.as_slice(), suffix.as_slice()) {
        return None;
    }
    let end = rest.len() - 8;
    let (a, b) = trim_bounds(rest.as_slice(), 0, end);
    assert(rest@.take(end as int) == rest@.subrange(0, end as int));
    let path = crate::parse::common::copy_range(rest.as_slice(), a, b);
    let slash = chars_of("/");
    let star = chars_of("*");
    if starts_with_exec(path.as_slice(), slash.as_slice()) && ends_with_exec(
        path.as_slice(),
        star.as_slice(),
    ) {
        Some(crate::text::string_from_chars(path.as_slice()))
    } else {
        None
    }
}

/// The run of non-`/` characters that ends `s`.
pub open spec fn segment_tail(s: Seq<char>) -> Seq<char>
    decreases s.len(),
{
    if s.len() == 0 || s.last() == '/' {
        seq![]
    } else {
        segment_tail(s.drop_last()).push(s.last())
    }
}

/// The last non-empty `/`-separated segment of a path.
pub open spec fn last_segment(path: Seq<char>) -> Option<Seq<char>>
    decreases path.len(),
{
    if path.len() == 0 {
        None
    } else if path.last() == '/' {
        last_segment(path.drop_last())
    } else {
        Some(segment_tail(path))
    }
}

proof fn lemma_segment_tail(s: Seq<char>)
    ensures
        segment_tail(s).len() <= s.len(),
        segment_tail(s) == s.skip(s.len() - segment_tail(s).len()),
        forall|i: int| 0 <= i < segment_tail(s).len() ==> #[trigger] segment_tail(s)[i] != '/',
    decreases s.len(),
{
    if s.len() > 0 && s.last() != '/' {
        lemma_segment_tail(s.drop_last());
        let t = segment_tail(s.drop_last());
        assert(s.drop_last().skip(s.len() - 1 - t.len()).push(s.last()) == s.skip(
            s.len() - 1 - t.len(),
        ));
    } else {
        assert(s.skip(s.len() as int) == Seq::<char>::empty());
    }
}

/// `f` stands in `path` at `k`, and only `/`s follow it.
pub open spec fn stands_before_slashes(path: Seq<char>, f: Seq<char>, k: int) -> bool {
    &&& 0 <= k && k + f.len() <= path.len()
    &&& path.subrange(k, k + f.len()) == f
    &&& forall|j: int| k + f.len() <= j < path.len() ==> #[trigger] path[j] == '/'
}

/// A file name taken from a path is a non-empty run of the path's
/// characters without `/`, after which the path has only `/`s; a path
/// with no file name is made of `/`s alone.
pub proof fn law_file_name_shape(path: Seq<char>)
    ensures
        match last_segment(path) {
            Some(f) => {
                &&& f.len() > 0
                &&& forall|i: int| 0 <= i < f.len() ==> #[trigger] f[i] != '/'
                &&& exists|k: int| #[trigger] stands_before_slashes(path, f, k)
            },
            None => forall|j: int| 0 <= j < path.len() ==> #[trigger] path[j] == '/',
        },
    decreases path.len(),
{
    if path.len() == 0 {
    } else if path.last() == '/' {
        let dl = path.drop_last();
        law_file_name_shape(dl);
        match last_segment(path) {
            Some(f) => {
                let k = choose|k: int| #[trigger] stands_before_slashes(dl, f, k);
                assert(path.subrange(k, k + f.len()) == dl.subrange(k, k + f.len()));
                assert forall|j: int| k + f.len() <= j < path.len() implies #[trigger] path[j]
                    == '/' by {
                    if j < path.len() - 1 {
                        assert(path[j] == dl[j]);
                    }
                }
                assert(stands_before_slashes(path, f, k));
            },
            None => {
                assert forall|j: int| 0 <= j < path.len() implies #[trigger] path[j] == '/' by {
                    if j < path.len() - 1 {
                        assert(path[j] == dl[j]);
                    }
                }
            },
        }
    } else {
        lemma_segment_tail(path);
        let f = segment_tail(path);
        assert(f.len() > 0) by {
            assert(segment_tail(path) == segment_tail(path.drop_last()).push(path.last()));
        }
        let k = path.len() - f.len();
        assert(path.subrange(k, k + f.len()) == path.skip(k));
        assert(stands_before_slashes(path, f, k));
    }
}

/// A pattern taken from a family label begins with `/` and ends with `*`.
pub proof fn law_pattern_shape(label: Seq<char>)
    ensures
        match pattern_of(label) {
            Some(p) => p.len() > 0 && p[0] == '/' && p.last() == '*',
            None => true,
        },
{
    reveal_strlit("/");
    reveal_strlit("*");
    match pattern_of(label) {
        Some(p) => {
            assert(p.take(1) == "/"@);
            assert(p.skip(p.len() - 1) == "*"@);
            assert(p.take(1)[0] == p[0]);
            assert(p.skip(p.len() - 1)[0] == p.last());
        },
        None => {},
    }
}

/// The file name that a URL path ends in: its last non-empty segment.
pub fn file_name_from_url(path: &str) -> (r: Option<String>)
    ensures
        opt_chars(r) == last_segment(path@),
{
    let v = chars_of(path);
    let mut end = v.len();
    assert(v@.take(end as int) == v@);
    while end > 0 && v[end - 1] == '/'
        invariant
            end <= v@.len(),
            last_segment(v@) == last_segment(v@.take(end as int)),
        decreases end,
    {
        assert(v@.take(end as int).drop_last() == v@.take(end - 1));
        end = end - 1;
    }
    if end == 0 {
        return None;
    }
    let mut start = end;
    while start > 0 && v[start - 1] != '/'
        invariant
            start <= end <= v@.len(),
            end > 0,
            segment_tail(v@.take(end as int)) == segment_tail(v@.take(start as int)) + v@.subrange(
                start as int,
                end as int,
            ),
        decreases start,
    {
        let ghost t = v@.take(start as int);
        assert(t.drop_last() == v@.take(start - 1));
        assert(v@.subrange(start - 1, end as int) == seq![v@[start - 1]] + v@.subrange(
            start as int,
            end as int,
        ));
        assert(segment_tail(t) == segment_tail(t.drop_last()).push(t.last()));
        assert(segment_tail(t.drop_last()).push(t.last()) + v@.subrange(start as int, end as int)
            == segment_tail(v@.take(start - 1)) + v@.subrange(start - 1, end as int));
        start = start - 1;
    }
    assert(segment_tail(v@.take(start as int)) == Seq::<char>::empty());
    assert(v@.take(end as int).last() == v@[end - 1]);
    assert(Seq::<char>::empty() + v@.subrange(start as int, end as int) == v@.subrange(
        start as int,
        end as int,
    ));
    Some(string_from_range(v.as_slice(), start, end))
}

// ---------------------------------------------------------------------------
// Ordering pages by file name
// ---------------------------------------------------------------------------

/// `a` comes before `b` in the lexicographic order of their characters,
/// which is the byte order of their UTF-8 encodings (`String`'s `Ord`).
pub open spec fn seq_lt(a: Seq<char>, b: Seq<char>) -> bool
    decreases a.len(),
{
    if a.len() == 0 {
        b.len() > 0
    } else if b.len() == 0 {
        false
    } else if a[0] != b[0] {
        a[0] < b[0]
    } else {
        seq_lt(a.drop_first(), b.drop_first())
    }
}

/// Whether `a` comes before `b`.
pub fn chars_lt(a: &[char], b: &[char]) -> (r: bool)
    ensures
        r == seq_lt(a@, b@),
{
    let mut i: usize = 0;
    assert(a@.skip(0) == a@ && b@.skip(0) == b@);
    while i < a.len() && i < b.len() && a[i] == b[i]
        invariant
            i <= a@.len(),
            i <= b@.len(),
            seq_lt(a@, b@) == seq_lt(a@.skip(i as int), b@.skip(i as int)),
        decreases a.len() - i,
    {
        assert(a@.skip(i as int).drop_first() == a@.skip(i + 1));
        assert(b@.skip(i as int).drop_first() == b@.skip(i + 1));
        i = i + 1;
    }
    if i == a.len() {
        i < b.len()
    } else if i == b.len() {
        false
    } else {
        a[i] < b[i]
    }
}

/// Exactly one of `a < b`, `a == b`, `b < a` holds.
pub proof fn lemma_seq_lt_trichotomy(a: Seq<char>, b: Seq<char>)
    ensures
        seq_lt(a, b) || a == b || seq_lt(b, a),
        !(seq_lt(a, b) && seq_lt(b, a)),
        !seq_lt(a, a),
    decreases a.len(),
{
    if a.len() > 0 && b.len() > 0 {
        lemma_seq_lt_trichotomy(a.drop_first(), b.drop_first());
        if a[0] == b[0] && a.drop_first() == b.drop_first() {
            assert(a == seq![a[0]] + a.drop_first());
            assert(b == seq![b[0]] + b.drop_first());
        }
    } else if a.len() == 0 && b.len() == 0 {
        assert(a == b);
    }
    if a.len() > 0 {
        lemma_seq_lt_trichotomy(a.drop_first(), a.drop_first());
    }
}

/// `<` on character sequences is transitive.
pub proof fn lemma_seq_lt_transitive(a: Seq<char>, b: Seq<char>, c: Seq<char>)
    requires
        seq_lt(a, b),
        seq_lt(b, c),
    ensures
        seq_lt(a, c),
    decreases a.len(),
{
    if a.len() > 0 && b.len() > 0 && c.len() > 0 && a[0] == b[0] && b[0] == c[0] {
        lemma_seq_lt_transitive(a.drop_first(), b.drop_first(), c.drop_first());
    }
}

/// `a` comes before `b` or is equal to it.
pub open spec fn seq_le(a: Seq<char>, b: Seq<char>) -> bool {
    !seq_lt(b, a)
}

/// `<=` on character sequences is transitive.
pub proof fn lemma_seq_le_transitive(a: Seq<char>, b: Seq<char>, c: Seq<char>)
    requires
        seq_le(a, b),
        seq_le(b, c),
    ensures
        seq_le(a, c),
{
    lemma_seq_lt_trichotomy(a, b);
    lemma_seq_lt_trichotomy(b, c);
    lemma_seq_lt_trichotomy(a, c);
    if seq_lt(c, a) {
        if seq_lt(a, b) {
            lemma_seq_lt_transitive(c, a, b);
        } else {
            assert(a == b);
        }
    }
}

/// `x` placed after every page whose file name is not after its own.
pub open spec fn insert_page(r: Seq<FetchedPageView>, x: FetchedPageView) -> Seq<FetchedPageView>
    decreases r.len(),
{
    if r.len() == 0 {
        seq![x]
    } else if seq_lt(x.file_name, r.last().file_name) {
        insert_page(r.drop_last(), x).push(r.last())
    } else {
        r.push(x)
    }
}

/// The pages ordered by file name, pages with equal file names kept in
/// their order (`slice::sort_by`, a stable sort).
pub open spec fn sort_pages(s: Seq<FetchedPageView>) -> Seq<FetchedPageView>
    decreases s.len(),
{
    if s.len() == 0 {
        seq![]
    } else {
        insert_page(sort_pages(s.drop_last()), s.last())
    }
}

/// The pages without those whose file name is that of the page just before
/// (`Vec::dedup_by`).
pub open spec fn dedup_pages(s: Seq<FetchedPageView>) -> Seq<FetchedPageView>
    decreases s.len(),
{
    if s.len() <= 1 {
        s
    } else {
        let d = dedup_pages(s.drop_last());
        if s.last().file_name == s[s.len() - 2].file_name {
            d
        } else {
            d.push(s.last())
        }
    }
}

proof fn lemma_insert_at(r: Seq<FetchedPageView>, x: FetchedPageView, p: int)
    requires
        0 <= p <= r.len(),
        forall|j: int| p <= j < r.len() ==> seq_lt(x.file_name, #[trigger] r[j].file_name),
        p == 0 || !seq_lt(x.file_name, r[p - 1].file_name),
    ensures
        insert_page(r, x) == r.take(p) + seq![x] + r.skip(p),
    decreases r.len(),
{
    if r.len() == 0 {
        assert(r.take(p) + seq![x] + r.skip(p) == seq![x]);
    } else if p == r.len() {
        assert(r.take(p) + seq![x] + r.skip(p) == r.push(x));
    } else {
        assert(seq_lt(x.file_name, r[r.len() - 1].file_name));
        let q = r.drop_last();
        assert forall|j: int| p <= j < q.len() implies seq_lt(x.file_name, #[trigger] q[j].file_name) by {
            assert(q[j] == r[j]);
        }
        if p > 0 {
            assert(q[p - 1] == r[p - 1]);
        }
        lemma_insert_at(q, x, p);
        assert(q.take(p) == r.take(p));
        assert((q.take(p) + seq![x] + q.skip(p)).push(r.last()) == r.take(p) + seq![x] + r.skip(p));
    }
}

/// Orders pages by file name, keeping pages with equal file names in order.
pub fn sort_pages_by_file_name(pages: Vec<FetchedPage>) -> (r: Vec<FetchedPage>)
    ensures
        pages_view(r@) == sort_pages(pages_view(pages@)),
{
    let ghost pv = pages_view(pages@);
    let mut out: Vec<FetchedPage> = Vec::new();
    for page in it: pages
        invariant
            it.seq() == pages@,
            pv == pages_view(pages@),
            pages_view(out@) == sort_pages(pv.take(it.index() as int)),
    {
        let ghost i = it.index() as int;
        assert(pv.take(i + 1).drop_last() == pv.take(i));
        assert(pv.take(i + 1).last() == page@);
        let key = chars_of(page.file_name.as_str());
        let ghost ov = pages_view(out@);
        let mut p = out.len();
        while p > 0 && chars_lt(key.as_slice(), chars_of(out[p - 1].file_name.as_str()).as_slice())
            invariant
                p <= out@.len(),
                ov == pages_view(out@),
                key@ == page.file_name@,
                forall|j: int| p <= j < ov.len() ==> seq_lt(key@, #[trigger] ov[j].file_name),
            decreases p,
        {
            p = p - 1;
        }
        proof {
            lemma_insert_at(ov, page@, p as int);
        }
        let ghost x = page@;
        out.insert(p, page);
        assert(pages_view(out@) == ov.take(p as int) + seq![x] + ov.skip(p as int));
    }
    assert(pv.take(pv.len() as int) == pv);
    out
}

/// Drops each page whose file name is that of the page just before it.
pub fn dedup_pages_by_file_name(pages: Vec<FetchedPage>) -> (r: Vec<FetchedPage>)
    ensures
        pages_view(r@) == dedup_pages(pages_view(pages@)),
{
    let ghost pv = pages_view(pages@);
    let mut out: Vec<FetchedPage> = Vec::new();
    for page in it: pages
        invariant
            it.seq() == pages@,
            pv == pages_view(pages@),
            pages_view(out@) == dedup_pages(pv.take(it.index() as int)),
            it.index() > 0 ==> out@.len() > 0 && out@.last().file_name@ == pv[it.index() - 1].file_name,
    {
        let ghost i = it.index() as int;
        let ghost t = pv.take(i + 1);
        assert(t.drop_last() == pv.take(i));
        assert(t.last() == page@);
        let ghost ov = pages_view(out@);
        let keep = if out.len() == 0 {
            true
        } else {
            let last = out.len() - 1;
            !crate::text::str_eq(out[last].file_name.as_str(), page.file_name.as_str())
        };
        proof {
            if i > 0 {
                assert(t[t.len() - 2] == pv[i - 1]);
            }
        }
        if keep {
            let ghost x = page@;
            out.push(page);
            assert(pages_view(out@) == ov.push(x));
        }
    }
    assert(pv.take(pv.len() as int) == pv);
    out
}

// ---------------------------------------------------------------------------
// URLs
// ---------------------------------------------------------------------------

/// `url::ParseError`, why a URL could not be read.
#[verifier::external_type_specification]
#[verifier::external_body]
pub struct ExUrlParseError(url::ParseError);

/// The serialization of the URL that `url::Url::parse` reads from `s`, or
/// `None` where it fails.
pub uninterp spec fn url_parse_result(s: Seq<char>) -> Option<Seq<char>>;

/// The serialization and the path of the URL that `url::Url::join` resolves
/// `href` to against the URL read from `base`, or `None` where either fails.
pub uninterp spec fn url_join_result(base: Seq<char>, href: Seq<char>) -> Option<
    (Seq<char>, Seq<char>),
>;

/// Reads `s` with `url::Url::parse` and gives the URL's serialization
/// (`Url::as_str`). The contract names the result only.
#[verifier::external_body]
fn parse_url(s: &str) -> (r: Result<String, url::ParseError>)
    ensures
        match r {
            Ok(u) => url_parse_result(s@) == Some(u@),
            Err(_) => url_parse_result(s@) is None,
        },
{
    url::Url::parse(s).map(|u| u.as_str().to_string())
}

/// Reads `base` with `url::Url::parse`, resolves `href` against it with
/// `Url::join`, and gives the result's serialization (`Url::as_str`) and
/// path (`Url::path`). The contract names the result only.
#[verifier::external_body]
fn join_url(base: &str, href: &str) -> (r: Result<(String, String), url::ParseError>)
    ensures
        match r {
            Ok((u, p)) => url_join_result(base@, href@) == Some((u@, p@)),
            Err(_) => url_join_result(base@, href@) is None,
        },
{
    let joined = url::Url::parse(base)?.join(href)?;
    Ok((joined.as_str().to_string(), joined.path().to_string()))
}

// ---------------------------------------------------------------------------
// Planning a snapshot
// ---------------------------------------------------------------------------

/// Why a snapshot of the reference could not be taken.
#[derive(Debug, Clone)]
pub enum SnapshotError {
    /// The root URL does not parse.
    InvalidUrl(String),
    /// The index page has no table of contents.
    MissingToc,
    /// An interface's link does not resolve against the root URL.
    JoinFailed(String),
    /// A page's URL has no file name.
    NoFileName(String),
}

pub enum SnapshotErrorView {
    InvalidUrl(Seq<char>),
    MissingToc,
    JoinFailed(Seq<char>),
    NoFileName(Seq<char>),
}

impl View for SnapshotError {
    type V = SnapshotErrorView;

    open spec fn view(&self) -> SnapshotErrorView {
        match self {
            SnapshotError::InvalidUrl(s) => SnapshotErrorView::InvalidUrl(s@),
            SnapshotError::MissingToc => SnapshotErrorView::MissingToc,
            SnapshotError::JoinFailed(s) => SnapshotErrorView::JoinFailed(s@),
            SnapshotError::NoFileName(s) => SnapshotErrorView::NoFileName(s@),
        }
    }
}

/// A page to download and the file to save it in.
#[derive(Debug, Clone)]
pub struct PageFetch {
    pub url: String,
    pub file_name: String,
}

/// What taking a snapshot takes, once the index page is in hand: the
/// interface pages to download, in order, and the manifest to write; or,
/// after the downloads listed, the error to stop with.
#[derive(Debug, Clone)]
pub struct SnapshotPlan {
    pub manifest: SnapshotManifest,
    pub fetches: Vec<PageFetch>,
    pub failure: Option<SnapshotError>,
}

pub struct SnapshotPlanView {
    pub root_url: Seq<char>,
    pub pages: Seq<FetchedPageView>,
    pub object_path_families: Seq<ObjectPathFamilyRecordView>,
    pub fetches: Seq<(Seq<char>, Seq<char>)>,
    pub failure: Option<SnapshotErrorView>,
}

/// Downloads as (URL, file name) pairs.
pub open spec fn fetches_view(v: Seq<PageFetch>) -> Seq<(Seq<char>, Seq<char>)> {
    v.map_values(|f: PageFetch| (f.url@, f.file_name@))
}

pub open spec fn opt_error(e: Option<SnapshotError>) -> Option<SnapshotErrorView> {
    match e {
        Some(x) => Some(x@),
        None => None,
    }
}

impl View for SnapshotPlan {
    type V = SnapshotPlanView;

    open spec fn view(&self) -> SnapshotPlanView {
        SnapshotPlanView {
            root_url: self.manifest.root_url@,
            pages: pages_view(self.manifest.pages@),
            object_path_families: families_view(self.manifest.object_path_families@),
            fetches: fetches_view(self.fetches@),
            failure: opt_error(self.failure),
        }
    }
}

/// The state of planning: pages, interfaces of the family at hand, families
/// done, downloads, and the error met, if any.
pub struct PlanState {
    pub pages: Seq<FetchedPageView>,
    pub records: Seq<TocInterfaceRecordView>,
    pub families: Seq<ObjectPathFamilyRecordView>,
    pub fetches: Seq<(Seq<char>, Seq<char>)>,
    pub failure: Option<SnapshotErrorView>,
}

/// The index page itself.
pub open spec fn index_page(root: Seq<char>) -> FetchedPageView {
    FetchedPageView {
        title: "spec"@,
        file_name: "spec.html"@,
        source_url: root,
        kind: SnapshotPageKind::SpecIndex,
    }
}

pub open spec fn init_state(root: Seq<char>) -> PlanState {
    PlanState {
        pages: seq![index_page(root)],
        records: seq![],
        families: seq![],
        fetches: seq![],
        failure: None,
    }
}

/// One interface of the table of contents: skipped when it has no link;
/// otherwise its link resolved against the root, its page and record
/// added, and its download listed; or the error met.
pub open spec fn add_iface(root: Seq<char>, st: PlanState, i: SpecTocInterfaceView) -> PlanState {
    if st.failure is Some || i.href.len() == 0 {
        st
    } else {
        match url_join_result(root, i.href) {
            None => PlanState { failure: Some(SnapshotErrorView::JoinFailed(i.href)), ..st },
            Some((u, path)) => match last_segment(path) {
                None => PlanState { failure: Some(SnapshotErrorView::NoFileName(u)), ..st },
                Some(f) => PlanState {
                    pages: st.pages.push(
                        FetchedPageView {
                            title: i.name,
                            file_name: f,
                            source_url: u,
                            kind: kind_of(i.name),
                        },
                    ),
                    records: st.records.push(
                        TocInterfaceRecordView {
                            name: i.name,
                            href: i.href,
                            file_name: f,
                            description: i.description,
                        },
                    ),
                    fetches: st.fetches.push((u, f)),
                    ..st
                },
            },
        }
    }
}

pub open spec fn add_ifaces(root: Seq<char>, st: PlanState, is: Seq<SpecTocInterfaceView>) -> PlanState
    decreases is.len(),
{
    if is.len() == 0 {
        st
    } else {
        add_iface(root, add_ifaces(root, st, is.drop_last()), is.last())
    }
}

/// One object-path family: its interfaces, then the family record.
pub open spec fn add_entry(root: Seq<char>, st: PlanState, e: SpecTocEntryView) -> PlanState {
    if st.failure is Some {
        st
    } else {
        let s2 = add_ifaces(root, PlanState { records: seq![], ..st }, e.interfaces);
        if s2.failure is Some {
            s2
        } else {
            PlanState {
                families: s2.families.push(
                    ObjectPathFamilyRecordView {
                        label: e.object_path_label,
                        path_pattern: pattern_of(e.object_path_label),
                        interfaces: s2.records,
                    },
                ),
                ..s2
            }
        }
    }
}

pub open spec fn add_entries(root: Seq<char>, st: PlanState, es: Seq<SpecTocEntryView>) -> PlanState
    decreases es.len(),
{
    if es.len() == 0 {
        st
    } else {
        add_entry(root, add_entries(root, st, es.drop_last()), es.last())
    }
}

/// The plan for a snapshot whose root URL is `root` and whose table of
/// contents lists `entries`; the manifest's pages ordered by file name,
/// one page per file name.
pub open spec fn plan_of(root: Seq<char>, entries: Seq<SpecTocEntryView>) -> SnapshotPlanView {
    let st = add_entries(root, init_state(root), entries);
    SnapshotPlanView {
        root_url: root,
        pages: dedup_pages(sort_pages(st.pages)),
        object_path_families: st.families,
        fetches: st.fetches,
        failure: st.failure,
    }
}

/// The root URL as `url::Url` writes it.
pub fn snapshot_root(root_url: &str) -> (r: Result<String, SnapshotError>)
    ensures
        match r {
            Ok(u) => url_parse_result(root_url@) == Some(u@),
            Err(e) => url_parse_result(root_url@) is None && e@ == SnapshotErrorView::InvalidUrl(
                root_url@,
            ),
        },
{
    match parse_url(root_url) {
        Ok(u) => Ok(u),
        Err(_) => Err(SnapshotError::InvalidUrl(root_url.to_owned())),
    }
}

/// Plans a snapshot from the root URL (as `snapshot_root` gives it) and
/// the index page's HTML.
pub fn plan_spec_snapshot(root: &str, root_html: &str) -> (r: Result<SnapshotPlan, SnapshotError>)
    ensures
        match spec_toc_of(root_html@) {
            Err(_) => r matches Err(e) && e@ == SnapshotErrorView::MissingToc,
            Ok(entries) => r matches Ok(plan) && plan@ == plan_of(root@, entries),
        },
{
    let toc = match parse_spec_toc(root_html) {
        Ok(t) => t,
        Err(_) => return Err(SnapshotError::MissingToc),
    };
    let ghost entries = toc@;
    proof {
        reveal_strlit("spec");
        reveal_strlit("spec.html");
    }
    let mut pages: Vec<FetchedPage> = Vec::new();
    pages.push(
        FetchedPage {
            title: "spec".to_owned(),
            file_name: "spec.html".to_owned(),
            source_url: root.to_owned(),
            kind: SnapshotPageKind::SpecIndex,
        },
    );
    let mut families: Vec<ObjectPathFamilyRecord> = Vec::new();
    let mut fetches: Vec<PageFetch> = Vec::new();
    let mut failure: Option<SnapshotError> = None;
    proof {
        assert(pages_view(pages@) =~= init_state(root@).pages);
        assert(families_view(families@) =~= Seq::<ObjectPathFamilyRecordView>::empty());
        assert(fetches_view(fetches@) =~= Seq::<(Seq<char>, Seq<char>)>::empty());
        assert(entries.take(0) =~= Seq::<SpecTocEntryView>::empty());
    }
    let mut k: usize = 0;
    while k < toc.entries.len()
        invariant
            k <= toc.entries@.len(),
            entries == toc@,
            ({
                let st = add_entries(root@, init_state(root@), entries.take(k as int));
                &&& pages_view(pages@) == st.pages
                &&& families_view(families@) == st.families
                &&& fetches_view(fetches@) == st.fetches
                &&& opt_error(failure) == st.failure
            }),
        decreases toc.entries.len() - k,
    {
        let entry = &toc.entries[k];
        let ghost ev = entry@;
        assert(entries[k as int] == ev);
        assert(entries.take(k + 1).drop_last() == entries.take(k as int));
        assert(entries.take(k + 1).last() == ev);
        let ghost st0 = add_entries(root@, init_state(root@), entries.take(k as int));
        if failure.is_none() {
            let ghost is = ev.interfaces;
            let mut records: Vec<TocInterfaceRecord> = Vec::new();
            assert(records_view(records@) =~= Seq::<TocInterfaceRecordView>::empty());
            assert(is.take(0) =~= Seq::<SpecTocInterfaceView>::empty());
            let ghost base = PlanState { records: seq![], ..st0 };
            let mut m: usize = 0;
            while m < entry.interfaces.len()
                invariant
                    m <= entry.interfaces@.len(),
                    is == entry@.interfaces,
                    ({
                        let st = add_ifaces(root@, base, is.take(m as int));
                        &&& pages_view(pages@) == st.pages
                        &&& records_view(records@) == st.records
                        &&& families_view(families@) == st.families
                        &&& fetches_view(fetches@) == st.fetches
                        &&& opt_error(failure) == st.failure
                    }),
                decreases entry.interfaces.len() - m,
            {
                let iface = &entry.interfaces[m];
                let ghost iv = iface@;
                assert(is[m as int] == iv);
                assert(is.take(m + 1).drop_last() == is.take(m as int));
                assert(is.take(m + 1).last() == iv);
                if failure.is_none() && !iface.href.as_str().is_empty() {
                    match join_url(root, iface.href.as_str()) {
                        Err(_) => {
                            failure = Some(SnapshotError::JoinFailed(iface.href.clone()));
                        },
                        Ok((u, path)) => match file_name_from_url(path.as_str()) {
                            None => {
                                failure = Some(SnapshotError::NoFileName(u));
                            },
                            Some(f) => {
                                let ghost bp = pages_view(pages@);
                                let ghost br = records_view(records@);
                                let ghost bf = fetches_view(fetches@);
                                let kind = classify_toc_interface(iface.name.as_str());
                                let page = FetchedPage {
                                    title: iface.name.clone(),
                                    file_name: f.clone(),
                                    source_url: u.clone(),
                                    kind,
                                };
                                let ghost pgv = page@;
                                pages.push(page);
                                let record = TocInterfaceRecord {
                                    name: iface.name.clone(),
                                    href: iface.href.clone(),
                                    file_name: f.clone(),
                                    description: iface.description.clone(),
                                };
                                let ghost rv = record@;
                                records.push(record);
                                fetches.push(PageFetch { url: u, file_name: f });
                                assert(pages_view(pages@) == bp.push(pgv));
                                assert(records_view(records@) == br.push(rv));
                                assert(fetches_view(fetches@) == bf.push(
                                    (fetches@.last().url@, fetches@.last().file_name@),
                                ));
                            },
                        },
                    }
                }
                m = m + 1;
            }
            assert(is.take(is.len() as int) == is);
            if failure.is_none() {
                let ghost bfam = families_view(families@);
                let family = ObjectPathFamilyRecord {
                    label: entry.object_path_label.clone(),
                    path_pattern: extract_object_path_pattern(entry.object_path_label.as_str()),
                    interfaces: records,
                };
                let ghost fv = family@;
                families.push(family);
                assert(families_view(families@) == bfam.push(fv));
            }
        }
        k = k + 1;
    }
    assert(entries.take(entries.len() as int) == entries);
    let sorted = sort_pages_by_file_name(pages);
    let deduped = dedup_pages_by_file_name(sorted);
    let manifest = SnapshotManifest {
        root_url: root.to_owned(),
        pages: deduped,
        object_path_families: families,
    };
    Ok(SnapshotPlan { manifest, fetches, failure })
}

// ---------------------------------------------------------------------------
// Laws of the manifest's pages
// ---------------------------------------------------------------------------

/// The pages are in order of file name.
pub open spec fn sorted_pages(r: Seq<FetchedPageView>) -> bool {
    forall|i: int, j: int| 0 <= i < j < r.len() ==> seq_le(r[i].file_name, r[j].file_name)
}

proof fn lemma_seq_le_lt(a: Seq<char>, b: Seq<char>, c: Seq<char>)
    requires
        seq_le(a, b),
        seq_lt(b, c),
    ensures
        seq_lt(a, c),
{
    lemma_seq_lt_trichotomy(a, b);
    if seq_lt(a, b) {
        lemma_seq_lt_transitive(a, b, c);
    }
}

proof fn lemma_insert_page(r: Seq<FetchedPageView>, x: FetchedPageView)
    requires
        sorted_pages(r),
    ensures
        sorted_pages(insert_page(r, x)),
        insert_page(r, x).len() == r.len() + 1,
        forall|y: FetchedPageView| #[trigger] insert_page(r, x).contains(y) <==> (r.contains(y) || y
            == x),
    decreases r.len(),
{
    if r.len() == 0 {
        assert(seq![x][0] == x);
        assert(seq![x].contains(x));
        assert forall|y: FetchedPageView| #[trigger] seq![x].contains(y) implies y == x by {
            let k = choose|k: int| 0 <= k < 1 && seq![x][k] == y;
        }
    } else if seq_lt(x.file_name, r.last().file_name) {
        let dl = r.drop_last();
        let last = r.last();
        assert(sorted_pages(dl)) by {
            assert forall|i: int, j: int| 0 <= i < j < dl.len() implies seq_le(
                dl[i].file_name,
                dl[j].file_name,
            ) by {
                assert(dl[i] == r[i] && dl[j] == r[j]);
            }
        }
        lemma_insert_page(dl, x);
        let q = insert_page(dl, x);
        let res = q.push(last);
        assert(res == insert_page(r, x));
        assert forall|k: int| 0 <= k < q.len() implies seq_le(
            #[trigger] q[k].file_name,
            last.file_name,
        ) by {
            assert(q.contains(q[k]));
            if q[k] == x {
                lemma_seq_lt_trichotomy(x.file_name, last.file_name);
            } else {
                assert(dl.contains(q[k]));
                let m = choose|m: int| 0 <= m < dl.len() && dl[m] == q[k];
                assert(r[m] == dl[m]);
                assert(seq_le(r[m].file_name, r[r.len() - 1].file_name));
            }
        }
        assert forall|i: int, j: int| 0 <= i < j < res.len() implies seq_le(
            res[i].file_name,
            res[j].file_name,
        ) by {
            if j == res.len() - 1 {
                assert(res[i] == q[i]);
                assert(seq_le(q[i].file_name, last.file_name));
            } else {
                assert(res[i] == q[i] && res[j] == q[j]);
            }
        }
        assert forall|y: FetchedPageView| #[trigger] res.contains(y) <==> (r.contains(y) || y
            == x) by {
            if res.contains(y) {
                let k = choose|k: int| 0 <= k < res.len() && res[k] == y;
                if k < q.len() {
                    assert(q[k] == y);
                    assert(q.contains(y));
                    if dl.contains(y) {
                        let m = choose|m: int| 0 <= m < dl.len() && dl[m] == y;
                        assert(r[m] == y);
                    }
                } else {
                    assert(r[r.len() - 1] == y);
                }
            }
            if r.contains(y) {
                let m = choose|m: int| 0 <= m < r.len() && r[m] == y;
                if m < r.len() - 1 {
                    assert(dl[m] == y);
                    assert(dl.contains(y));
                    assert(q.contains(y));
                    let k = choose|k: int| 0 <= k < q.len() && q[k] == y;
                    assert(res[k] == y);
                } else {
                    assert(res[res.len() - 1] == y);
                }
            }
            if y == x {
                assert(q.contains(x));
                let k = choose|k: int| 0 <= k < q.len() && q[k] == x;
                assert(res[k] == x);
            }
        }
    } else {
        let res = r.push(x);
        assert(res == insert_page(r, x));
        assert forall|i: int, j: int| 0 <= i < j < res.len() implies seq_le(
            res[i].file_name,
            res[j].file_name,
        ) by {
            if j == res.len() - 1 {
                assert(res[i] == r[i]);
                if i < r.len() - 1 {
                    assert(seq_le(r[i].file_name, r[r.len() - 1].file_name));
                    lemma_seq_le_transitive(r[i].file_name, r[r.len() - 1].file_name, x.file_name);
                }
            } else {
                assert(res[i] == r[i] && res[j] == r[j]);
            }
        }
        assert forall|y: FetchedPageView| #[trigger] res.contains(y) <==> (r.contains(y) || y
            == x) by {
            if res.contains(y) {
                let k = choose|k: int| 0 <= k < res.len() && res[k] == y;
                if k < r.len() {
                    assert(r[k] == y);
                }
            }
            if r.contains(y) {
                let m = choose|m: int| 0 <= m < r.len() && r[m] == y;
                assert(res[m] == y);
            }
            if y == x {
                assert(res[res.len() - 1] == x);
            }
        }
    }
}

/// Sorting orders the pages by file name and keeps exactly the same pages.
proof fn lemma_sort_pages(s: Seq<FetchedPageView>)
    ensures
        sorted_pages(sort_pages(s)),
        sort_pages(s).len() == s.len(),
        forall|y: FetchedPageView| #[trigger] sort_pages(s).contains(y) <==> s.contains(y),
    decreases s.len(),
{
    if s.len() > 0 {
        let dl = s.drop_last();
        lemma_sort_pages(dl);
        lemma_insert_page(sort_pages(dl), s.last());
        assert forall|y: FetchedPageView| #[trigger] sort_pages(s).contains(y) <==> s.contains(y) by {
            assert(sort_pages(dl).contains(y) <==> dl.contains(y));
            if dl.contains(y) {
                let m = choose|m: int| 0 <= m < dl.len() && dl[m] == y;
                assert(s[m] == y);
            }
            if s.contains(y) {
                let m = choose|m: int| 0 <= m < s.len() && s[m] == y;
                if m < s.len() - 1 {
                    assert(dl[m] == y);
                }
            }
        }
    } else {
        assert forall|y: FetchedPageView| #[trigger] sort_pages(s).contains(y) <==> s.contains(y) by {}
    }
}

/// The pages but the last of sorted pages are sorted.
proof fn lemma_sorted_drop_last(s: Seq<FetchedPageView>)
    requires
        sorted_pages(s),
        s.len() > 0,
    ensures
        sorted_pages(s.drop_last()),
{
    let dl = s.drop_last();
    assert forall|i: int, j: int| 0 <= i < j < dl.len() implies seq_le(
        dl[i].file_name,
        dl[j].file_name,
    ) by {
        assert(dl[i] == s[i] && dl[j] == s[j]);
    }
}

/// Dropping repeated file names keeps the last file name.
proof fn lemma_dedup_last(s: Seq<FetchedPageView>)
    ensures
        s.len() > 0 ==> dedup_pages(s).len() > 0 && dedup_pages(s).last().file_name
            == s.last().file_name,
    decreases s.len(),
{
    if s.len() > 1 {
        lemma_dedup_last(s.drop_last());
        assert(s.drop_last().last() == s[s.len() - 2]);
    }
}

/// Dropping repeated file names from sorted pages keeps only pages it was
/// given, none of whose file names comes after the last one's.
proof fn lemma_dedup_members(s: Seq<FetchedPageView>)
    requires
        sorted_pages(s),
    ensures
        forall|k: int| 0 <= k < dedup_pages(s).len() ==> s.contains(#[trigger] dedup_pages(s)[k]),
        forall|k: int| 0 <= k < dedup_pages(s).len() ==> seq_le(
            #[trigger] dedup_pages(s)[k].file_name,
            s.last().file_name,
        ),
    decreases s.len(),
{
    let d = dedup_pages(s);
    if s.len() == 1 {
        assert(d == s);
        assert(s.contains(s[0]));
        lemma_seq_lt_trichotomy(s[0].file_name, s[0].file_name);
    } else if s.len() > 1 {
        let dl = s.drop_last();
        lemma_sorted_drop_last(s);
        lemma_dedup_members(dl);
        let dd = dedup_pages(dl);
        let last = s.last();
        let prev = s[s.len() - 2];
        assert(dl.last() == prev);
        assert(seq_le(prev.file_name, last.file_name));
        assert forall|k: int| 0 <= k < dd.len() implies s.contains(#[trigger] dd[k]) && seq_le(
            dd[k].file_name,
            last.file_name,
        ) by {
            assert(dl.contains(dd[k]));
            let m = choose|m: int| 0 <= m < dl.len() && dl[m] == dd[k];
            assert(s[m] == dd[k]);
            lemma_seq_le_transitive(dd[k].file_name, prev.file_name, last.file_name);
        }
        if last.file_name != prev.file_name {
            assert(d == dd.push(last));
            assert forall|k: int| 0 <= k < d.len() implies s.contains(#[trigger] d[k]) && seq_le(
                d[k].file_name,
                last.file_name,
            ) by {
                if k < dd.len() {
                    assert(d[k] == dd[k]);
                } else {
                    assert(s[s.len() - 1] == d[k]);
                    lemma_seq_lt_trichotomy(last.file_name, last.file_name);
                }
            }
        }
    }
}

/// Dropping repeated file names from sorted pages leaves the file names
/// strictly increasing.
proof fn lemma_dedup_strict(s: Seq<FetchedPageView>)
    requires
        sorted_pages(s),
    ensures
        forall|i: int, j: int|
            0 <= i < j < dedup_pages(s).len() ==> seq_lt(
                #[trigger] dedup_pages(s)[i].file_name,
                #[trigger] dedup_pages(s)[j].file_name,
            ),
    decreases s.len(),
{
    let d = dedup_pages(s);
    if s.len() > 1 {
        let dl = s.drop_last();
        lemma_sorted_drop_last(s);
        lemma_dedup_strict(dl);
        lemma_dedup_members(dl);
        let dd = dedup_pages(dl);
        let last = s.last();
        let prev = s[s.len() - 2];
        assert(dl.last() == prev);
        assert(seq_le(prev.file_name, last.file_name));
        if last.file_name != prev.file_name {
            assert(d == dd.push(last));
            lemma_seq_lt_trichotomy(prev.file_name, last.file_name);
            assert forall|i: int, j: int| 0 <= i < j < d.len() implies seq_lt(
                #[trigger] d[i].file_name,
                #[trigger] d[j].file_name,
            ) by {
                if j == d.len() - 1 {
                    assert(d[i] == dd[i]);
                    lemma_seq_le_lt(dd[i].file_name, prev.file_name, last.file_name);
                } else {
                    assert(d[i] == dd[i] && d[j] == dd[j]);
                }
            }
        }
    }
}

/// Dropping repeated file names loses no file name.
proof fn lemma_dedup_cover(s: Seq<FetchedPageView>)
    ensures
        forall|i: int|
            0 <= i < s.len() ==> exists|k: int|
                0 <= k < dedup_pages(s).len() && #[trigger] dedup_pages(s)[k].file_name
                    == #[trigger] s[i].file_name,
    decreases s.len(),
{
    let d = dedup_pages(s);
    if s.len() == 1 {
        assert(d == s);
        assert forall|i: int| 0 <= i < s.len() implies exists|k: int|
            0 <= k < d.len() && #[trigger] d[k].file_name == #[trigger] s[i].file_name by {
            assert(d[0].file_name == s[0].file_name);
        }
    } else if s.len() > 1 {
        let dl = s.drop_last();
        lemma_dedup_cover(dl);
        lemma_dedup_last(dl);
        let dd = dedup_pages(dl);
        let last = s.last();
        let prev = s[s.len() - 2];
        assert(dl.last() == prev);
        assert forall|i: int| 0 <= i < s.len() implies exists|k: int|
            0 <= k < d.len() && #[trigger] d[k].file_name == #[trigger] s[i].file_name by {
            if last.file_name == prev.file_name {
                assert(d == dd);
                if i < s.len() - 1 {
                    assert(s[i] == dl[i]);
                } else {
                    assert(d[d.len() - 1].file_name == s[i].file_name);
                }
            } else {
                assert(d == dd.push(last));
                if i < s.len() - 1 {
                    assert(s[i] == dl[i]);
                    let k = choose|k: int|
                        0 <= k < dd.len() && #[trigger] dd[k].file_name == #[trigger] dl[i].file_name;
                    assert(d[k] == dd[k]);
                } else {
                    assert(d[d.len() - 1] == last);
                }
            }
        }
    }
}

/// The manifest's pages have strictly increasing file names, so no file
/// name twice; each of them is one of the pages planned, and every planned
/// page's file name is among them.
pub proof fn law_manifest_pages(pages: Seq<FetchedPageView>)
    ensures
        ({
            let out = dedup_pages(sort_pages(pages));
            &&& forall|i: int, j: int|
                0 <= i < j < out.len() ==> seq_lt(
                    #[trigger] out[i].file_name,
                    #[trigger] out[j].file_name,
                )
            &&& forall|k: int| 0 <= k < out.len() ==> pages.contains(#[trigger] out[k])
            &&& forall|i: int|
                0 <= i < pages.len() ==> exists|k: int|
                    0 <= k < out.len() && #[trigger] out[k].file_name == #[trigger] pages[i].file_name
        }),
{
    let sorted = sort_pages(pages);
    lemma_sort_pages(pages);
    lemma_dedup_strict(sorted);
    lemma_dedup_members(sorted);
    lemma_dedup_cover(sorted);
    let out = dedup_pages(sorted);
    assert forall|k: int| 0 <= k < out.len() implies pages.contains(#[trigger] out[k]) by {
        assert(sorted.contains(out[k]));
    }
    assert forall|i: int| 0 <= i < pages.len() implies exists|k: int|
        0 <= k < out.len() && #[trigger] out[k].file_name == #[trigger] pages[i].file_name by {
        assert(pages.contains(pages[i]));
        assert(sorted.contains(pages[i]));
        let m = choose|m: int| 0 <= m < sorted.len() && sorted[m] == pages[i];
        let k = choose|k: int|
            0 <= k < out.len() && #[trigger] out[k].file_name == #[trigger] sorted[m].file_name;
    }
}


// ---------------------------------------------------------------------------
// Every recorded interface and every download has its page
// ---------------------------------------------------------------------------

/// Some page is saved under `name`.
pub open spec fn has_page(pages: Seq<FetchedPageView>, name: Seq<char>) -> bool {
    exists|k: int| 0 <= k < pages.len() && #[trigger] pages[k].file_name == name
}

/// Each interface recorded so far, in the families or in the family at
/// hand, and each download, has a page saved under its file name.
pub open spec fn pages_cover(st: PlanState) -> bool {
    &&& forall|a: int, b: int|
        0 <= a < st.families.len() && 0 <= b < st.families[a].interfaces.len() ==> has_page(
            st.pages,
            #[trigger] st.families[a].interfaces[b].file_name,
        )
    &&& forall|b: int| 0 <= b < st.records.len() ==> has_page(st.pages, #[trigger] st.records[b].file_name)
    &&& forall|c: int| 0 <= c < st.fetches.len() ==> has_page(st.pages, #[trigger] st.fetches[c].1)
}

proof fn lemma_has_page_push(pages: Seq<FetchedPageView>, x: FetchedPageView, name: Seq<char>)
    requires
        has_page(pages, name),
    ensures
        has_page(pages.push(x), name),
{
    let k = choose|k: int| 0 <= k < pages.len() && #[trigger] pages[k].file_name == name;
    assert(pages.push(x)[k] == pages[k]);
}

proof fn lemma_add_iface_cover(root: Seq<char>, st: PlanState, i: SpecTocInterfaceView)
    requires
        pages_cover(st),
    ensures
        pages_cover(add_iface(root, st, i)),
{
    if st.failure is None && i.href.len() > 0 {
        match url_join_result(root, i.href) {
            None => {},
            Some((u, path)) => match last_segment(path) {
                None => {},
                Some(f) => {
                    let n = add_iface(root, st, i);
                    let pg = n.pages.last();
                    assert(n.pages == st.pages.push(pg));
                    assert(n.pages[st.pages.len() as int].file_name == f);
                    assert(has_page(n.pages, f));
                    assert forall|a: int, b: int|
                        0 <= a < n.families.len() && 0 <= b < n.families[a].interfaces.len()
                            implies has_page(n.pages, #[trigger] n.families[a].interfaces[b].file_name) by {
                        lemma_has_page_push(st.pages, pg, st.families[a].interfaces[b].file_name);
                    }
                    assert forall|b: int| 0 <= b < n.records.len() implies has_page(
                        n.pages,
                        #[trigger] n.records[b].file_name,
                    ) by {
                        if b < st.records.len() {
                            assert(n.records[b] == st.records[b]);
                            lemma_has_page_push(st.pages, pg, st.records[b].file_name);
                        }
                    }
                    assert forall|c: int| 0 <= c < n.fetches.len() implies has_page(
                        n.pages,
                        #[trigger] n.fetches[c].1,
                    ) by {
                        if c < st.fetches.len() {
                            assert(n.fetches[c] == st.fetches[c]);
                            lemma_has_page_push(st.pages, pg, st.fetches[c].1);
                        }
                    }
                },
            },
        }
    }
}

proof fn lemma_add_ifaces_cover(root: Seq<char>, st: PlanState, is: Seq<SpecTocInterfaceView>)
    requires
        pages_cover(st),
    ensures
        pages_cover(add_ifaces(root, st, is)),
    decreases is.len(),
{
    if is.len() > 0 {
        lemma_add_ifaces_cover(root, st, is.drop_last());
        lemma_add_iface_cover(root, add_ifaces(root, st, is.drop_last()), is.last());
    }
}

proof fn lemma_add_entry_cover(root: Seq<char>, st: PlanState, e: SpecTocEntryView)
    requires
        pages_cover(st),
    ensures
        pages_cover(add_entry(root, st, e)),
{
    if st.failure is None {
        let s1 = PlanState { records: seq![], ..st };
        lemma_add_ifaces_cover(root, s1, e.interfaces);
        let s2 = add_ifaces(root, s1, e.interfaces);
        if s2.failure is None {
            let n = add_entry(root, st, e);
            assert forall|a: int, b: int|
                0 <= a < n.families.len() && 0 <= b < n.families[a].interfaces.len() implies has_page(
                n.pages,
                #[trigger] n.families[a].interfaces[b].file_name,
            ) by {
                if a < s2.families.len() {
                    assert(n.families[a] == s2.families[a]);
                } else {
                    assert(n.families[a].interfaces == s2.records);
                }
            }
        }
    }
}

proof fn lemma_add_entries_cover(root: Seq<char>, st: PlanState, es: Seq<SpecTocEntryView>)
    requires
        pages_cover(st),
    ensures
        pages_cover(add_entries(root, st, es)),
    decreases es.len(),
{
    if es.len() > 0 {
        lemma_add_entries_cover(root, st, es.drop_last());
        lemma_add_entry_cover(root, add_entries(root, st, es.drop_last()), es.last());
    }
}

/// Every interface that the planned manifest's families record, and every
/// planned download, has a page saved under its file name among the
/// manifest's pages.
pub proof fn law_plan_pages_cover(root: Seq<char>, entries: Seq<SpecTocEntryView>)
    ensures
        ({
            let plan = plan_of(root, entries);
            &&& forall|a: int, b: int|
                0 <= a < plan.object_path_families.len() && 0 <= b
                    < plan.object_path_families[a].interfaces.len() ==> has_page(
                    plan.pages,
                    #[trigger] plan.object_path_families[a].interfaces[b].file_name,
                )
            &&& forall|c: int|
                0 <= c < plan.fetches.len() ==> has_page(plan.pages, #[trigger] plan.fetches[c].1)
        }),
{
    let st0 = init_state(root);
    assert(pages_cover(st0));
    lemma_add_entries_cover(root, st0, entries);
    let st = add_entries(root, st0, entries);
    let plan = plan_of(root, entries);
    law_manifest_pages(st.pages);
    assert forall|n: Seq<char>| has_page(st.pages, n) implies has_page(plan.pages, n) by {
        let i = choose|i: int| 0 <= i < st.pages.len() && #[trigger] st.pages[i].file_name == n;
        let k = choose|k: int|
            0 <= k < plan.pages.len() && #[trigger] plan.pages[k].file_name
                == #[trigger] st.pages[i].file_name;
    }
    assert forall|a: int, b: int|
        0 <= a < plan.object_path_families.len() && 0 <= b
            < plan.object_path_families[a].interfaces.len() implies has_page(
        plan.pages,
        #[trigger] plan.object_path_families[a].interfaces[b].file_name,
    ) by {
        assert(has_page(st.pages, st.families[a].interfaces[b].file_name));
    }
    assert forall|c: int| 0 <= c < plan.fetches.len() implies has_page(
        plan.pages,
        #[trigger] plan.fetches[c].1,
    ) by {
        assert(has_page(st.pages, st.fetches[c].1));
    }
}

} // verus!
