//! Laws of the parsers, stated over what they read and what they give.
use vstd::prelude::*;

use crate::dom::DocView;
use crate::model::common::Version;
use crate::model::interface::{ArgDirection, ArgumentDefView, InterfaceDefView, MethodDefView, PropertyDefView, SignalDefView};
use crate::model::spec::{FetchedPageView, ObjectPathFamilyRecordView, SnapshotPageKind};
use crate::parse::common::{all_digits, digits_value, decimal, first_with_class_tree, item_texts, node_lines, section_detail, version_after};
use crate::model::types::{EnumDefView, EnumValueView};
use crate::parse::interface::{
    args_with_direction, interface_page_of, methods_in, page_methods, page_properties, page_signals, properties_in,
    signals_in,
};
use crate::parse::snapshot::{family_for, snapshot_of, with_family};
use crate::parse::types::{enum_detail, enums_of, row_value, row_values, types_page_of};
use crate::text::{join, normalize};
use crate::parse::spec_index::dt_dd_pairs;

verus! {

// ---------------------------------------------------------------------------
// Table of contents: a `dd` goes with the last `dt` before it
// ---------------------------------------------------------------------------

/// Among `kids`, `kids[p]` is a `dt`, `kids[q]` a later `dd`, no `dt` or
/// `dd` stands between them, and `pair` is those two.
pub open spec fn spans_pair(d: DocView, kids: Seq<int>, p: int, q: int, pair: (int, int)) -> bool {
    &&& 0 <= p < q < kids.len()
    &&& kids[p] == pair.0
    &&& kids[q] == pair.1
    &&& d.has_name(kids[p], "dt"@)
    &&& d.has_name(kids[q], "dd"@)
    &&& forall|c: int|
        p < c < q ==> !d.has_name(#[trigger] kids[c], "dt"@) && !d.has_name(kids[c], "dd"@)
}

/// `kids[q]` is a `dd` with no `dt` or `dd` before it, paired with `cur`.
pub open spec fn opens_pair(d: DocView, kids: Seq<int>, cur: Option<int>, q: int, pair: (int, int)) -> bool {
    &&& 0 <= q < kids.len()
    &&& kids[q] == pair.1
    &&& d.has_name(kids[q], "dd"@)
    &&& cur == Some(pair.0)
    &&& forall|c: int| 0 <= c < q ==> !d.has_name(#[trigger] kids[c], "dt"@) && !d.has_name(kids[c], "dd"@)
}

/// Some `dt` and later `dd` among `kids` make `pair`, with no `dt` or `dd`
/// between them.
pub open spec fn toc_pair(d: DocView, kids: Seq<int>, pair: (int, int)) -> bool {
    exists|p: int, q: int| #[trigger] spans_pair(d, kids, p, q, pair)
}

spec fn pair_ok(d: DocView, kids: Seq<int>, cur: Option<int>, pair: (int, int)) -> bool {
    toc_pair(d, kids, pair) || exists|q: int| #[trigger] opens_pair(d, kids, cur, q, pair)
}

proof fn lemma_shift_span(d: DocView, kids: Seq<int>, p: int, q: int, pair: (int, int))
    requires
        kids.len() > 0,
        spans_pair(d, kids.drop_first(), p, q, pair),
    ensures
        spans_pair(d, kids, p + 1, q + 1, pair),
{
    let rest = kids.drop_first();
    assert forall|c: int| p + 1 < c < q + 1 implies !d.has_name(#[trigger] kids[c], "dt"@)
        && !d.has_name(kids[c], "dd"@) by {
        assert(kids[c] == rest[c - 1]);
    }
    assert(kids[p + 1] == rest[p] && kids[q + 1] == rest[q]);
}

proof fn lemma_pairs_shape(d: DocView, kids: Seq<int>, cur: Option<int>)
    ensures
        forall|k: int|
            0 <= k < dt_dd_pairs(d, kids, cur).len() ==> pair_ok(d, kids, cur, #[trigger] dt_dd_pairs(d, kids, cur)[k]),
    decreases kids.len(),
{
    if kids.len() > 0 {
        let j = kids[0];
        let rest = kids.drop_first();
        let out = dt_dd_pairs(d, kids, cur);
        let shift_cur = if !d.is_element(j) {
            cur
        } else if d.has_name(j, "dt"@) {
            Some(j)
        } else {
            None
        };
        lemma_pairs_shape(d, rest, cur);
        lemma_pairs_shape(d, rest, Some(j));
        lemma_pairs_shape(d, rest, None::<int>);
        assert forall|k: int| 0 <= k < out.len() implies pair_ok(d, kids, cur, #[trigger] out[k]) by {
            if !d.is_element(j) || (!d.has_name(j, "dt"@) && !d.has_name(j, "dd"@)) {
                let sub = dt_dd_pairs(d, rest, cur);
                assert(out == sub);
                if exists|p: int, q: int| #[trigger] spans_pair(d, rest, p, q, sub[k]) {
                    let (p, q) = choose|p: int, q: int| #[trigger] spans_pair(d, rest, p, q, sub[k]);
                    lemma_shift_span(d, kids, p, q, sub[k]);
                    assert(spans_pair(d, kids, p + 1, q + 1, out[k]));
                } else {
                    let q = choose|q: int| #[trigger] opens_pair(d, rest, cur, q, sub[k]);
                    assert forall|c: int| 0 <= c < q + 1 implies !d.has_name(#[trigger] kids[c], "dt"@)
                        && !d.has_name(kids[c], "dd"@) by {
                        if c > 0 {
                            assert(kids[c] == rest[c - 1]);
                        }
                    }
                    assert(kids[q + 1] == rest[q]);
                    assert(opens_pair(d, kids, cur, q + 1, out[k]));
                }
            } else if d.has_name(j, "dt"@) {
                let sub = dt_dd_pairs(d, rest, Some(j));
                assert(out == sub);
                if exists|p: int, q: int| #[trigger] spans_pair(d, rest, p, q, sub[k]) {
                    let (p, q) = choose|p: int, q: int| #[trigger] spans_pair(d, rest, p, q, sub[k]);
                    lemma_shift_span(d, kids, p, q, sub[k]);
                    assert(spans_pair(d, kids, p + 1, q + 1, out[k]));
                } else {
                    let q = choose|q: int| #[trigger] opens_pair(d, rest, Some(j), q, sub[k]);
                    assert forall|c: int| 0 < c < q + 1 implies !d.has_name(#[trigger] kids[c], "dt"@)
                        && !d.has_name(kids[c], "dd"@) by {
                        assert(kids[c] == rest[c - 1]);
                    }
                    assert(kids[q + 1] == rest[q]);
                    assert(spans_pair(d, kids, 0, q + 1, out[k]));
                }
            } else {
                let sub = dt_dd_pairs(d, rest, None::<int>);
                match cur {
                    Some(t) => {
                        assert(out == seq![(t, j)] + sub);
                        if k == 0 {
                            assert(out[0] == (t, j));
                            assert(opens_pair(d, kids, cur, 0, out[k]));
                        } else {
                            assert(out[k] == sub[k - 1]);
                            if exists|p: int, q: int| #[trigger] spans_pair(d, rest, p, q, sub[k - 1]) {
                                let (p, q) = choose|p: int, q: int|
                                    #[trigger] spans_pair(d, rest, p, q, sub[k - 1]);
                    lemma_shift_span(d, kids, p, q, sub[k - 1]);
                                assert(spans_pair(d, kids, p + 1, q + 1, out[k]));
                            } else {
                                let q = choose|q: int| #[trigger] opens_pair(d, rest, None::<int>, q, sub[k - 1]);
                                assert(false);
                            }
                        }
                    },
                    None => {
                        assert(out == sub);
                        if exists|p: int, q: int| #[trigger] spans_pair(d, rest, p, q, sub[k]) {
                            let (p, q) = choose|p: int, q: int| #[trigger] spans_pair(d, rest, p, q, sub[k]);
                    lemma_shift_span(d, kids, p, q, sub[k]);
                            assert(spans_pair(d, kids, p + 1, q + 1, out[k]));
                        } else {
                            let q = choose|q: int| #[trigger] opens_pair(d, rest, None::<int>, q, sub[k]);
                            assert(false);
                        }
                    },
                }
            }
        }
    }
}

/// Each (`dt`, `dd`) pair of a table of contents joins a `dd` with the last
/// `dt` before it among the list's children: the `dt` comes first, and no
/// other `dt` and no `dd` stands between the two.
pub proof fn law_toc_pairs(d: DocView, dl: int)
    ensures
        forall|k: int|
            0 <= k < dt_dd_pairs(d, d.children(dl), None).len() ==> toc_pair(
                d,
                d.children(dl),
                #[trigger] dt_dd_pairs(d, d.children(dl), None)[k],
            ),
{
    lemma_pairs_shape(d, d.children(dl), None);
    let kids = d.children(dl);
    let out = dt_dd_pairs(d, kids, None);
    assert forall|k: int| 0 <= k < out.len() implies toc_pair(d, kids, #[trigger] out[k]) by {
        assert(pair_ok(d, kids, None, out[k]));
        if !toc_pair(d, kids, out[k]) {
            let q = choose|q: int| #[trigger] opens_pair(d, kids, None, q, out[k]);
        }
    }
}

proof fn lemma_unshift_span(d: DocView, kids: Seq<int>, p: int, q: int, pair: (int, int))
    requires
        spans_pair(d, kids, p, q, pair),
        p > 0,
    ensures
        spans_pair(d, kids.drop_first(), p - 1, q - 1, pair),
{
    let rest = kids.drop_first();
    assert forall|c: int| p - 1 < c < q - 1 implies !d.has_name(#[trigger] rest[c], "dt"@)
        && !d.has_name(rest[c], "dd"@) by {
        assert(rest[c] == kids[c + 1]);
    }
}

proof fn lemma_pairs_complete(d: DocView, kids: Seq<int>, cur: Option<int>)
    ensures
        forall|p: int, q: int, pair: (int, int)|
            #[trigger] spans_pair(d, kids, p, q, pair) ==> dt_dd_pairs(d, kids, cur).contains(pair),
        forall|q: int, pair: (int, int)|
            #[trigger] opens_pair(d, kids, cur, q, pair) ==> dt_dd_pairs(d, kids, cur).contains(pair),
    decreases kids.len(),
{
    if kids.len() > 0 {
        let j = kids[0];
        let rest = kids.drop_first();
        let out = dt_dd_pairs(d, kids, cur);
        lemma_pairs_complete(d, rest, cur);
        lemma_pairs_complete(d, rest, Some(j));
        lemma_pairs_complete(d, rest, None::<int>);
        assert forall|p: int, q: int, pair: (int, int)|
            #[trigger] spans_pair(d, kids, p, q, pair) implies out.contains(pair) by {
            if p == 0 {
                assert(d.has_name(j, "dt"@));
                assert forall|c: int| 0 <= c < q - 1 implies !d.has_name(#[trigger] rest[c], "dt"@)
                    && !d.has_name(rest[c], "dd"@) by {
                    assert(rest[c] == kids[c + 1]);
                }
                assert(rest[q - 1] == kids[q]);
                assert(opens_pair(d, rest, Some(j), q - 1, pair));
                assert(out == dt_dd_pairs(d, rest, Some(j)));
            } else {
                lemma_unshift_span(d, kids, p, q, pair);
                if !d.is_element(j) || (!d.has_name(j, "dt"@) && !d.has_name(j, "dd"@)) {
                    assert(out == dt_dd_pairs(d, rest, cur));
                } else if d.has_name(j, "dt"@) {
                    assert(out == dt_dd_pairs(d, rest, Some(j)));
                } else {
                    let sub = dt_dd_pairs(d, rest, None::<int>);
                    assert(sub.contains(pair));
                    let k = choose|k: int| 0 <= k < sub.len() && sub[k] == pair;
                    match cur {
                        Some(t) => {
                            assert(out == seq![(t, j)] + sub);
                            assert(out[k + 1] == pair);
                        },
                        None => {
                            assert(out == sub);
                        },
                    }
                }
            }
        }
        assert forall|q: int, pair: (int, int)|
            #[trigger] opens_pair(d, kids, cur, q, pair) implies out.contains(pair) by {
            if q == 0 {
                assert(d.has_name(j, "dd"@));
                reveal_strlit("dt");
                reveal_strlit("dd");
                assert("dt"@[1] != "dd"@[1]);
                assert(!d.has_name(j, "dt"@));
                let t = cur.unwrap();
                assert(out == seq![(t, j)] + dt_dd_pairs(d, rest, None::<int>));
                assert(out[0] == pair);
            } else {
                assert(!d.has_name(kids[0], "dt"@) && !d.has_name(kids[0], "dd"@));
                assert(out == dt_dd_pairs(d, rest, cur));
                assert forall|c: int| 0 <= c < q - 1 implies !d.has_name(#[trigger] rest[c], "dt"@)
                    && !d.has_name(rest[c], "dd"@) by {
                    assert(rest[c] == kids[c + 1]);
                }
                assert(rest[q - 1] == kids[q]);
                assert(opens_pair(d, rest, cur, q - 1, pair));
            }
        }
    }
}

/// Conversely, every `dd` among a table of contents' children that has a
/// `dt` before it, with no `dt` or `dd` between the two, is paired with
/// that `dt`.
pub proof fn law_toc_pairs_complete(d: DocView, dl: int)
    ensures
        forall|p: int, q: int|
            #[trigger] spans_pair(d, d.children(dl), p, q, (d.children(dl)[p], d.children(dl)[q]))
                ==> dt_dd_pairs(d, d.children(dl), None).contains((d.children(dl)[p], d.children(dl)[q])),
{
    lemma_pairs_complete(d, d.children(dl), None);
}

// ---------------------------------------------------------------------------
// Snapshots: an interface takes the family that lists its exact name
// ---------------------------------------------------------------------------

/// Family `f` lists an interface named exactly `name`.
pub open spec fn lists_name(f: ObjectPathFamilyRecordView, name: Seq<char>) -> bool {
    exists|j: int| 0 <= j < f.interfaces.len() && #[trigger] f.interfaces[j].name == name
}

/// `fams[i]` is the first family that lists `name`.
pub open spec fn first_listing(fams: Seq<ObjectPathFamilyRecordView>, name: Seq<char>, i: int) -> bool {
    &&& 0 <= i < fams.len()
    &&& lists_name(fams[i], name)
    &&& forall|i2: int| 0 <= i2 < i ==> !lists_name(#[trigger] fams[i2], name)
}

/// The family found for a name is the first one that lists that exact
/// name; where none lists it, none is found.
pub proof fn law_family_exact(fams: Seq<ObjectPathFamilyRecordView>, name: Seq<char>)
    ensures
        match family_for(fams, name) {
            Some((label, pattern)) => exists|i: int|
                #[trigger] first_listing(fams, name, i) && fams[i].label == label
                    && fams[i].path_pattern == pattern,
            None => forall|i: int| 0 <= i < fams.len() ==> !lists_name(#[trigger] fams[i], name),
        },
    decreases fams.len(),
{
    if fams.len() > 0 {
        let rest = fams.drop_first();
        law_family_exact(rest, name);
        if lists_name(fams[0], name) {
            assert(first_listing(fams, name, 0));
        } else {
            match family_for(fams, name) {
                Some((label, pattern)) => {
                    let i = choose|i: int| #[trigger] first_listing(rest, name, i) && rest[i].label
                        == label && rest[i].path_pattern == pattern;
                    assert forall|i2: int| 0 <= i2 < i + 1 implies !lists_name(#[trigger] fams[i2], name) by {
                        if i2 > 0 {
                            assert(fams[i2] == rest[i2 - 1]);
                        }
                    }
                    assert(fams[i + 1] == rest[i]);
                    assert(first_listing(fams, name, i + 1));
                },
                None => {
                    assert forall|i: int| 0 <= i < fams.len() implies !lists_name(#[trigger] fams[i], name) by {
                        if i > 0 {
                            assert(fams[i] == rest[i - 1]);
                        }
                    }
                },
            }
        }
    }
}

/// The family fields of `o` agree with the families: the label and pattern
/// of the first family that lists `o`'s exact name, or none where no family
/// lists it.
pub open spec fn family_fields_agree(o: InterfaceDefView, fams: Seq<ObjectPathFamilyRecordView>) -> bool {
    if exists|i: int| 0 <= i < fams.len() && lists_name(#[trigger] fams[i], o.name) {
        exists|i: int|
            #[trigger] first_listing(fams, o.name, i) && o.object_path_family_label == Some(fams[i].label)
                && o.object_path_pattern == fams[i].path_pattern
    } else {
        o.object_path_family_label is None && o.object_path_pattern is None
    }
}

/// Every interface of an assembled snapshot carries the label and pattern
/// of the first family of the manifest that lists its exact name, or none
/// where no family lists it.
pub proof fn law_snapshot_families(
    pages: Seq<FetchedPageView>,
    htmls: Seq<Seq<char>>,
    fams: Seq<ObjectPathFamilyRecordView>,
    n: int,
)
    ensures
        forall|k: int|
            0 <= k < snapshot_of(pages, htmls, fams, n).1.len() ==> family_fields_agree(
                #[trigger] snapshot_of(pages, htmls, fams, n).1[k],
                fams,
            ),
    decreases n,
{
    if n > 0 {
        law_snapshot_families(pages, htmls, fams, n - 1);
        let prev = snapshot_of(pages, htmls, fams, n - 1);
        let p = pages[n - 1];
        if p.kind == SnapshotPageKind::Interface {
            let i = interface_page_of(first_with_class_tree(htmls[n - 1], "refentry"@), p.source_url);
            let o = with_family(i, fams);
            assert(i.object_path_family_label is None && i.object_path_pattern is None);
            law_family_exact(fams, i.name);
            assert(o.name == i.name);
            if exists|f: int| 0 <= f < fams.len() && lists_name(#[trigger] fams[f], o.name) {
                let f = choose|f: int| 0 <= f < fams.len() && lists_name(#[trigger] fams[f], o.name);
                assert(family_for(fams, i.name) is Some);
            }
            let out = snapshot_of(pages, htmls, fams, n).1;
            assert(out == prev.1.push(o));
            assert forall|k: int| 0 <= k < out.len() implies family_fields_agree(#[trigger] out[k], fams) by {
                if k < prev.1.len() {
                    assert(out[k] == prev.1[k]);
                }
            }
        }
    }
}

// ---------------------------------------------------------------------------
// Versions: read from the item's own documentation lines
// ---------------------------------------------------------------------------

/// `since` and `deprecated` are the versions written after the first
/// `Since:` and the first `Deprecated:` in the lines `desc` joined by
/// newlines.
pub open spec fn versions_follow(desc: Seq<Seq<char>>, since: Option<Version>, deprecated: Option<Version>) -> bool {
    &&& since == version_after(join(desc, seq!['\n']), "Since:"@)
    &&& deprecated == version_after(join(desc, seq!['\n']), "Deprecated:"@)
}

proof fn lemma_detail_versions(d: DocView, s: int, tag: Seq<char>, base: Seq<char>)
    ensures
        section_detail(d, s, tag, base) matches Some(det) ==> versions_follow(
            det.description,
            det.since,
            det.deprecated,
        ),
{
    reveal_strlit("Since:");
    reveal_strlit("Deprecated:");
    assert("Since:"@ == seq!['S', 'i', 'n', 'c', 'e', ':']);
    assert("Deprecated:"@ == seq!['D', 'e', 'p', 'r', 'e', 'c', 'a', 't', 'e', 'd', ':']);
}

pub open spec fn methods_follow(ms: Seq<MethodDefView>) -> bool {
    forall|k: int| #![trigger ms[k]] 0 <= k < ms.len() ==> versions_follow(ms[k].description, ms[k].since, ms[k].deprecated)
}

pub open spec fn properties_follow(ps: Seq<PropertyDefView>) -> bool {
    forall|k: int| #![trigger ps[k]] 0 <= k < ps.len() ==> versions_follow(ps[k].description, ps[k].since, ps[k].deprecated)
}

pub open spec fn signals_follow(ss: Seq<SignalDefView>) -> bool {
    forall|k: int| #![trigger ss[k]] 0 <= k < ss.len() ==> versions_follow(ss[k].description, ss[k].since, ss[k].deprecated)
}

proof fn lemma_members_follow(d: DocView, items: Seq<int>, base: Seq<char>)
    ensures
        methods_follow(methods_in(d, items, base)),
        properties_follow(properties_in(d, items, base)),
        signals_follow(signals_in(d, items, base)),
    decreases items.len(),
{
    if items.len() > 0 {
        let dl = items.drop_last();
        let s = items.last();
        lemma_members_follow(d, dl, base);
        lemma_detail_versions(d, s, "h3"@, base);
        let ms = methods_in(d, items, base);
        let ps = properties_in(d, items, base);
        let ss = signals_in(d, items, base);
        assert forall|k: int| #![trigger ms[k]] 0 <= k < ms.len() implies versions_follow(ms[k].description, ms[k].since, ms[k].deprecated) by {
            if k < methods_in(d, dl, base).len() {
                assert(ms[k] == methods_in(d, dl, base)[k]);
            }
        }
        assert forall|k: int| #![trigger ps[k]] 0 <= k < ps.len() implies versions_follow(ps[k].description, ps[k].since, ps[k].deprecated) by {
            if k < properties_in(d, dl, base).len() {
                assert(ps[k] == properties_in(d, dl, base)[k]);
            }
        }
        assert forall|k: int| #![trigger ss[k]] 0 <= k < ss.len() implies versions_follow(ss[k].description, ss[k].since, ss[k].deprecated) by {
            if k < signals_in(d, dl, base).len() {
                assert(ss[k] == signals_in(d, dl, base)[k]);
            }
        }
    }
}

proof fn lemma_page_members_follow(d: DocView, secs: Seq<int>, base: Seq<char>)
    ensures
        methods_follow(page_methods(d, secs, base)),
        properties_follow(page_properties(d, secs, base)),
        signals_follow(page_signals(d, secs, base)),
    decreases secs.len(),
{
    if secs.len() > 0 {
        let dl = secs.drop_last();
        let s = secs.last();
        lemma_page_members_follow(d, dl, base);
        lemma_members_follow(d, crate::parse::common::children_with_class(d, s, "refsect2"@), base);
        let ms = page_methods(d, secs, base);
        let pm = page_methods(d, dl, base);
        let ps = page_properties(d, secs, base);
        let pp = page_properties(d, dl, base);
        let ss = page_signals(d, secs, base);
        let psg = page_signals(d, dl, base);
        assert forall|k: int| #![trigger ms[k]] 0 <= k < ms.len() implies versions_follow(ms[k].description, ms[k].since, ms[k].deprecated) by {
            if k < pm.len() {
                assert(ms[k] == pm[k]);
            } else {
                let tail = ms.skip(pm.len() as int);
                assert(ms[k] == tail[k - pm.len()]);
            }
        }
        assert forall|k: int| #![trigger ps[k]] 0 <= k < ps.len() implies versions_follow(ps[k].description, ps[k].since, ps[k].deprecated) by {
            if k < pp.len() {
                assert(ps[k] == pp[k]);
            } else {
                let tail = ps.skip(pp.len() as int);
                assert(ps[k] == tail[k - pp.len()]);
            }
        }
        assert forall|k: int| #![trigger ss[k]] 0 <= k < ss.len() implies versions_follow(ss[k].description, ss[k].since, ss[k].deprecated) by {
            if k < psg.len() {
                assert(ss[k] == psg[k]);
            } else {
                let tail = ss.skip(psg.len() as int);
                assert(ss[k] == tail[k - psg.len()]);
            }
        }
    }
}

/// On an interface page, the interface and each of its methods, properties
/// and signals carry as `since` and `deprecated` the versions written after
/// `Since:` and `Deprecated:` in its own description lines.
pub proof fn law_interface_versions(refentry: Option<(DocView, int)>, base: Seq<char>)
    ensures
        ({
            let i = interface_page_of(refentry, base);
            &&& versions_follow(i.description, i.since, i.deprecated)
            &&& methods_follow(i.methods)
            &&& properties_follow(i.properties)
            &&& signals_follow(i.signals)
        }),
{
    reveal_strlit("Since:");
    reveal_strlit("Deprecated:");
    assert("Since:"@ == seq!['S', 'i', 'n', 'c', 'e', ':']);
    assert("Deprecated:"@ == seq!['D', 'e', 'p', 'r', 'e', 'c', 'a', 't', 'e', 'd', ':']);
    match refentry {
        None => {
            assert(join(Seq::<Seq<char>>::empty(), seq!['\n']) == Seq::<char>::empty());
        },
        Some((d, r)) => {
            let secs = crate::parse::common::children_with_class(d, r, "refsect1"@);
            lemma_page_members_follow(d, secs, base);
        },
    }
}

pub open spec fn values_follow(vs: Seq<EnumValueView>) -> bool {
    forall|k: int| #![trigger vs[k]] 0 <= k < vs.len() ==> versions_follow(vs[k].description, vs[k].since, vs[k].deprecated)
}

pub open spec fn enums_follow(es: Seq<EnumDefView>) -> bool {
    forall|k: int| #![trigger es[k]] 0 <= k < es.len() ==> versions_follow(es[k].description, es[k].since, es[k].deprecated)
        && values_follow(es[k].values)
}

proof fn lemma_rows_follow(d: DocView, rows: Seq<int>)
    ensures
        values_follow(row_values(d, rows)),
    decreases rows.len(),
{
    reveal_strlit("Since:");
    reveal_strlit("Deprecated:");
    assert("Since:"@ == seq!['S', 'i', 'n', 'c', 'e', ':']);
    assert("Deprecated:"@ == seq!['D', 'e', 'p', 'r', 'e', 'c', 'a', 't', 'e', 'd', ':']);
    if rows.len() > 0 {
        let dl = rows.drop_last();
        lemma_rows_follow(d, dl);
        let vs = row_values(d, rows);
        let pv = row_values(d, dl);
        assert forall|k: int| #![trigger vs[k]] 0 <= k < vs.len() implies versions_follow(vs[k].description, vs[k].since, vs[k].deprecated) by {
            if k < pv.len() {
                assert(vs[k] == pv[k]);
            } else {
                assert(vs[k] == row_value(d, rows.last()).unwrap());
            }
        }
    }
}

proof fn lemma_enums_follow(d: DocView, secs: Seq<int>, base: Seq<char>)
    ensures
        enums_follow(enums_of(d, secs, base)),
    decreases secs.len(),
{
    if secs.len() > 0 {
        let dl = secs.drop_last();
        let s = secs.last();
        lemma_enums_follow(d, dl, base);
        lemma_detail_versions(d, s, "h3"@, base);
        match crate::parse::types::values_section(d, crate::parse::common::children_with_class(d, s, "refsect3"@)) {
            Some(vs) => lemma_rows_follow(d, d.select_in(vs, crate::parse::types::row_sel())),
            None => {},
        }
        let es = enums_of(d, secs, base);
        let pe = enums_of(d, dl, base);
        assert forall|k: int| #![trigger es[k]] 0 <= k < es.len() implies versions_follow(es[k].description, es[k].since, es[k].deprecated)
            && values_follow(es[k].values) by {
            if k < pe.len() {
                assert(es[k] == pe[k]);
            } else {
                assert(es[k] == enum_detail(d, s, base).unwrap());
            }
        }
    }
}

/// On an enumerations page, each enumeration and each of its values carry
/// as `since` and `deprecated` the versions written after `Since:` and
/// `Deprecated:` in its own description lines.
pub proof fn law_types_versions(refentry: Option<(DocView, int)>, base: Seq<char>)
    ensures
        enums_follow(types_page_of(refentry, base).enums),
{
    match refentry {
        None => {},
        Some((d, r)) => {
            lemma_enums_follow(d, crate::parse::common::children_with_class(d, r, "refsect2"@), base);
        },
    }
}

// ---------------------------------------------------------------------------
// Numbered lists
// ---------------------------------------------------------------------------

proof fn lemma_item_texts_filter(d: DocView, kids: Seq<int>)
    ensures
        item_texts(d, kids) == kids.filter(
            |c: int| d.has_name(c, "li"@) && normalize(d.text_of(c)).len() > 0,
        ).map_values(|c: int| normalize(d.text_of(c))),
    decreases kids.len(),
{
    reveal(Seq::filter);
    let pred = |c: int| d.has_name(c, "li"@) && normalize(d.text_of(c)).len() > 0;
    let f = |c: int| normalize(d.text_of(c));
    if kids.len() > 0 {
        lemma_item_texts_filter(d, kids.drop_last());
        let sub = kids.drop_last().filter(pred);
        if pred(kids.last()) {
            assert(kids.filter(pred) == sub.push(kids.last()));
            assert(sub.push(kids.last()).map_values(f) =~= sub.map_values(f).push(f(kids.last())));
        } else {
            assert(kids.filter(pred) == sub);
        }
    } else {
        assert(kids.filter(pred).map_values(f) =~= Seq::<Seq<char>>::empty());
    }
}

/// The documentation lines of an `ol` element are its non-empty `li`
/// children's normalized texts, in order, numbered `1. `, `2. `, ..., then
/// a blank line; with no such item, there are no lines.
pub proof fn law_ordered_list_lines(d: DocView, j: int)
    requires
        d.has_name(j, "ol"@),
    ensures
        ({
            let texts = d.children(j).filter(
                |c: int| d.has_name(c, "li"@) && normalize(d.text_of(c)).len() > 0,
            ).map_values(|c: int| normalize(d.text_of(c)));
            let lines = node_lines(d, j);
            &&& texts.len() == 0 ==> lines.len() == 0
            &&& texts.len() > 0 ==> {
                &&& lines.len() == texts.len() + 1
                &&& lines.last().len() == 0
                &&& forall|k: int|
                    0 <= k < texts.len() ==> #[trigger] lines[k] == decimal((k + 1) as nat) + ". "@
                        + texts[k]
            }
        }),
{
    lemma_item_texts_filter(d, d.children(j));
    reveal_strlit("p");
    reveal_strlit("ul");
    reveal_strlit("ol");
    assert("ol"@.len() != "p"@.len());
    assert("ol"@[0] != "ul"@[0]);
}

/// A number written in decimal is a run of digits that reads back as the
/// number, without a leading zero unless the number is zero.
pub proof fn law_decimal(n: nat)
    ensures
        decimal(n).len() > 0,
        all_digits(decimal(n)),
        digits_value(decimal(n)) == n,
        decimal(n)[0] == '0' ==> n == 0,
    decreases n,
{
    let c = (48 + n % 10) as char;
    assert(c as int == 48 + n % 10);
    if n >= 10 {
        law_decimal(n / 10);
        let p = decimal(n / 10);
        assert(decimal(n) == p.push(c));
        assert(decimal(n).drop_last() == p);
        assert(p.push(c)[0] == p[0]);
        assert((n / 10) * 10 + n % 10 == n) by (nonlinear_arith);
        assert('0' as int == 48);
        assert(decimal(n).last() == c);
        assert(digits_value(decimal(n)) == digits_value(p) * 10 + (c as int - '0' as int) as nat);
        assert(digits_value(p) == n / 10);
        assert forall|i: int| 0 <= i < decimal(n).len() implies crate::parse::common::is_digit(
            #[trigger] decimal(n)[i],
        ) by {
            if i < p.len() {
                assert(decimal(n)[i] == p[i]);
            }
        }
    } else {
        assert(decimal(n) == seq![c]);
        assert(decimal(n).drop_last() == Seq::<char>::empty());
        assert('0' as int == 48);
        assert(n % 10 == n);
        assert(digits_value(decimal(n)) == digits_value(Seq::<char>::empty()) * 10 + (c as int - '0' as int) as nat);
    }
}

// ---------------------------------------------------------------------------
// Members: named, and arguments sorted by direction
// ---------------------------------------------------------------------------

proof fn lemma_with_direction(args: Seq<ArgumentDefView>, dir: ArgDirection)
    ensures
        forall|k: int| #![trigger args_with_direction(args, dir)[k]]
            0 <= k < args_with_direction(args, dir).len() ==> args_with_direction(args, dir)[k].direction
                == Some(dir) && args.contains(args_with_direction(args, dir)[k]),
        forall|i: int| #![trigger args[i]]
            0 <= i < args.len() && args[i].direction == Some(dir) ==> args_with_direction(args, dir).contains(args[i]),
    decreases args.len(),
{
    if args.len() > 0 {
        let dl = args.drop_last();
        lemma_with_direction(dl, dir);
        let out = args_with_direction(args, dir);
        let sub = args_with_direction(dl, dir);
        assert forall|k: int| #![trigger out[k]] 0 <= k < out.len() implies out[k].direction == Some(dir)
            && args.contains(out[k]) by {
            if k < sub.len() {
                assert(out[k] == sub[k]);
                let m = choose|m: int| 0 <= m < dl.len() && dl[m] == sub[k];
                assert(args[m] == dl[m]);
            } else {
                assert(out[k] == args.last());
                assert(args[args.len() - 1] == args.last());
            }
        }
        assert forall|i: int| #![trigger args[i]] 0 <= i < args.len() && args[i].direction == Some(dir)
            implies out.contains(args[i]) by {
            if i < args.len() - 1 {
                assert(dl[i] == args[i]);
                assert(sub.contains(args[i]));
                let m = choose|m: int| 0 <= m < sub.len() && sub[m] == args[i];
                assert(out[m] == sub[m]);
            } else {
                assert(out[out.len() - 1] == args[i]);
            }
        }
    }
}

/// Every method has a name, and exactly its arguments marked `IN` are its
/// inputs and those marked `OUT` its outputs.
pub open spec fn methods_well_formed(ms: Seq<MethodDefView>) -> bool {
    forall|k: int| #![trigger ms[k]] 0 <= k < ms.len() ==> {
        &&& ms[k].name.len() > 0
        &&& forall|a: int| #![trigger ms[k].inputs[a]] 0 <= a < ms[k].inputs.len() ==> ms[k].inputs[a].direction == Some(ArgDirection::In)
        &&& forall|a: int| #![trigger ms[k].outputs[a]] 0 <= a < ms[k].outputs.len() ==> ms[k].outputs[a].direction == Some(ArgDirection::Out)
    }
}

/// Every property has a name, an access and a signature.
pub open spec fn properties_well_formed(ps: Seq<PropertyDefView>) -> bool {
    forall|k: int| #![trigger ps[k]] 0 <= k < ps.len() ==> ps[k].name.len() > 0 && ps[k].access is Some
        && ps[k].signature is Some
}

/// Every signal has a name.
pub open spec fn signals_well_formed(ss: Seq<SignalDefView>) -> bool {
    forall|k: int| #![trigger ss[k]] 0 <= k < ss.len() ==> ss[k].name.len() > 0
}

proof fn lemma_members_well_formed(d: DocView, items: Seq<int>, base: Seq<char>)
    ensures
        methods_well_formed(methods_in(d, items, base)),
        properties_well_formed(properties_in(d, items, base)),
        signals_well_formed(signals_in(d, items, base)),
    decreases items.len(),
{
    if items.len() > 0 {
        let dl = items.drop_last();
        let s = items.last();
        lemma_members_well_formed(d, dl, base);
        let args = crate::parse::interface::section_args(d, s);
        lemma_with_direction(args, ArgDirection::In);
        lemma_with_direction(args, ArgDirection::Out);
        let ms = methods_in(d, items, base);
        let ps = properties_in(d, items, base);
        let ss = signals_in(d, items, base);
        assert forall|k: int| #![trigger ms[k]] 0 <= k < ms.len() implies {
            &&& ms[k].name.len() > 0
            &&& forall|a: int| #![trigger ms[k].inputs[a]] 0 <= a < ms[k].inputs.len() ==> ms[k].inputs[a].direction == Some(ArgDirection::In)
            &&& forall|a: int| #![trigger ms[k].outputs[a]] 0 <= a < ms[k].outputs.len() ==> ms[k].outputs[a].direction == Some(ArgDirection::Out)
        } by {
            if k < methods_in(d, dl, base).len() {
                assert(ms[k] == methods_in(d, dl, base)[k]);
            }
        }
        assert forall|k: int| #![trigger ps[k]] 0 <= k < ps.len() implies ps[k].name.len() > 0 && ps[k].access is Some
            && ps[k].signature is Some by {
            if k < properties_in(d, dl, base).len() {
                assert(ps[k] == properties_in(d, dl, base)[k]);
            }
        }
        assert forall|k: int| #![trigger ss[k]] 0 <= k < ss.len() implies ss[k].name.len() > 0 by {
            if k < signals_in(d, dl, base).len() {
                assert(ss[k] == signals_in(d, dl, base)[k]);
            }
        }
    }
}

proof fn lemma_page_members_well_formed(d: DocView, secs: Seq<int>, base: Seq<char>)
    ensures
        methods_well_formed(page_methods(d, secs, base)),
        properties_well_formed(page_properties(d, secs, base)),
        signals_well_formed(page_signals(d, secs, base)),
    decreases secs.len(),
{
    if secs.len() > 0 {
        let dl = secs.drop_last();
        let s = secs.last();
        lemma_page_members_well_formed(d, dl, base);
        lemma_members_well_formed(d, crate::parse::common::children_with_class(d, s, "refsect2"@), base);
        let ms = page_methods(d, secs, base);
        let pm = page_methods(d, dl, base);
        let ps = page_properties(d, secs, base);
        let pp = page_properties(d, dl, base);
        let ss = page_signals(d, secs, base);
        let psg = page_signals(d, dl, base);
        assert forall|k: int| #![trigger ms[k]] 0 <= k < ms.len() implies {
            &&& ms[k].name.len() > 0
            &&& forall|a: int| #![trigger ms[k].inputs[a]] 0 <= a < ms[k].inputs.len() ==> ms[k].inputs[a].direction == Some(ArgDirection::In)
            &&& forall|a: int| #![trigger ms[k].outputs[a]] 0 <= a < ms[k].outputs.len() ==> ms[k].outputs[a].direction == Some(ArgDirection::Out)
        } by {
            if k < pm.len() {
                assert(ms[k] == pm[k]);
            } else {
                let tail = ms.skip(pm.len() as int);
                assert(ms[k] == tail[k - pm.len()]);
            }
        }
        assert forall|k: int| #![trigger ps[k]] 0 <= k < ps.len() implies ps[k].name.len() > 0 && ps[k].access is Some
            && ps[k].signature is Some by {
            if k < pp.len() {
                assert(ps[k] == pp[k]);
            } else {
                let tail = ps.skip(pp.len() as int);
                assert(ps[k] == tail[k - pp.len()]);
            }
        }
        assert forall|k: int| #![trigger ss[k]] 0 <= k < ss.len() implies ss[k].name.len() > 0 by {
            if k < psg.len() {
                assert(ss[k] == psg[k]);
            } else {
                let tail = ss.skip(psg.len() as int);
                assert(ss[k] == tail[k - psg.len()]);
            }
        }
    }
}

/// On an interface page every method, property and signal has a non-empty
/// name; each property has an access and a signature; a method's inputs
/// are marked `IN` and its outputs `OUT`.
pub proof fn law_interface_members(refentry: Option<(DocView, int)>, base: Seq<char>)
    ensures
        ({
            let i = interface_page_of(refentry, base);
            &&& methods_well_formed(i.methods)
            &&& properties_well_formed(i.properties)
            &&& signals_well_formed(i.signals)
        }),
{
    match refentry {
        None => {},
        Some((d, r)) => {
            lemma_page_members_well_formed(d, crate::parse::common::children_with_class(d, r, "refsect1"@), base);
        },
    }
}

/// A method's inputs are, in order, exactly its section's arguments marked
/// `IN`: each input is one of them, and each of them is an input (and
/// likewise for outputs and `OUT`).
pub proof fn law_arguments_by_direction(args: Seq<ArgumentDefView>, dir: ArgDirection)
    ensures
        forall|k: int| #![trigger args_with_direction(args, dir)[k]]
            0 <= k < args_with_direction(args, dir).len() ==> args_with_direction(args, dir)[k].direction
                == Some(dir) && args.contains(args_with_direction(args, dir)[k]),
        forall|i: int| #![trigger args[i]]
            0 <= i < args.len() && args[i].direction == Some(dir) ==> args_with_direction(args, dir).contains(args[i]),
{
    lemma_with_direction(args, dir);
}

/// Every enumeration has at least one value, and every value a non-empty
/// name.
pub open spec fn enums_filled(es: Seq<EnumDefView>) -> bool {
    forall|k: int| #![trigger es[k]] 0 <= k < es.len() ==> es[k].values.len() > 0 && forall|v: int|
        #![trigger es[k].values[v]] 0 <= v < es[k].values.len() ==> es[k].values[v].name.len() > 0
}

proof fn lemma_rows_named(d: DocView, rows: Seq<int>)
    ensures
        forall|v: int| #![trigger row_values(d, rows)[v]] 0 <= v < row_values(d, rows).len() ==> row_values(d, rows)[v].name.len() > 0,
    decreases rows.len(),
{
    if rows.len() > 0 {
        let dl = rows.drop_last();
        lemma_rows_named(d, dl);
        let vs = row_values(d, rows);
        let pv = row_values(d, dl);
        assert forall|v: int| #![trigger vs[v]] 0 <= v < vs.len() implies vs[v].name.len() > 0 by {
            if v < pv.len() {
                assert(vs[v] == pv[v]);
            } else {
                assert(vs[v] == row_value(d, rows.last()).unwrap());
            }
        }
    }
}

proof fn lemma_enums_filled(d: DocView, secs: Seq<int>, base: Seq<char>)
    ensures
        enums_filled(enums_of(d, secs, base)),
    decreases secs.len(),
{
    if secs.len() > 0 {
        let dl = secs.drop_last();
        let s = secs.last();
        lemma_enums_filled(d, dl, base);
        match crate::parse::types::values_section(d, crate::parse::common::children_with_class(d, s, "refsect3"@)) {
            Some(vs) => lemma_rows_named(d, d.select_in(vs, crate::parse::types::row_sel())),
            None => {},
        }
        let es = enums_of(d, secs, base);
        let pe = enums_of(d, dl, base);
        assert forall|k: int| #![trigger es[k]] 0 <= k < es.len() implies es[k].values.len() > 0 && forall|v: int|
            #![trigger es[k].values[v]] 0 <= v < es[k].values.len() ==> es[k].values[v].name.len() > 0 by {
            if k < pe.len() {
                assert(es[k] == pe[k]);
            } else {
                assert(es[k] == enum_detail(d, s, base).unwrap());
            }
        }
    }
}

/// On an enumerations page, every enumeration has at least one value and
/// every value a non-empty name.
pub proof fn law_types_filled(refentry: Option<(DocView, int)>, base: Seq<char>)
    ensures
        enums_filled(types_page_of(refentry, base).enums),
{
    match refentry {
        None => {},
        Some((d, r)) => {
            lemma_enums_filled(d, crate::parse::common::children_with_class(d, r, "refsect2"@), base);
        },
    }
}

} // verus!
