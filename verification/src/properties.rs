use vstd::prelude::*;
use crate::cards::{
    ListPageView, NodeV, RulesView, anchor_step, anchors_fold, ids_of, item_step, items_fold,
    list_count, query_key, query_matches,
};
use crate::chapters::{max_int, pieces_chapters, request_separators, requested_set, token_chapters};
use crate::download::slug_spec;
use crate::library::MangaView;
use crate::local::{page_items, total_pages_spec};
use crate::reader::base64_spec;
use crate::download::line_progress;
use crate::registry::{
    EntryView, completed_view, enriched, error_view, finished_view, merged, progress_in_range, running_view,
    settled_status,
};
use crate::search::{
    mangalivre_cards_spec, mangalivre_list, mangalivre_pairs, mangalivre_rules, max_page_number,
    niadd_cards_spec, niadd_pairs, niadd_rules, unique_ids,
};
use crate::scrape::normalize_spec;
use crate::text::{
    has_prefix, lemma_strip_both_unchanged, lemma_strip_lead_first, lemma_strip_trail_prefix, lemma_trim_idempotent,
    one_of, parse_unsigned, split_by, strip_lead, trim_spec, unicode_alphanumeric, unicode_whitespace, ws,
};

verus! {

// ---------------------------------------------------------------------------
// Search results
// ---------------------------------------------------------------------------

/// Results that are fit to show for a query: no id twice, every title passes the query, and
/// every result comes from the source searched.
pub open spec fn fit_results(out: Seq<MangaView>, q: Seq<char>, source_id: Seq<char>) -> bool {
    &&& unique_ids(out)
    &&& forall|i: int| 0 <= i < out.len() ==> fit_result(#[trigger] out[i], q, source_id)
}

/// A result whose title passes the query and that comes from the source searched.
pub open spec fn fit_result(m: MangaView, q: Seq<char>, source_id: Seq<char>) -> bool {
    query_matches(q, m.title) && m.source_id == source_id
}

/// A result whose id is not listed yet keeps the results fit.
proof fn lemma_push_fit(out: Seq<MangaView>, m: MangaView, q: Seq<char>, source_id: Seq<char>)
    requires
        fit_results(out, q, source_id),
        !ids_of(out).contains(m.id),
        query_matches(q, m.title),
        m.source_id == source_id,
    ensures
        fit_results(out.push(m), q, source_id),
{
    let next = out.push(m);
    assert forall|i: int, j: int| 0 <= i < j < next.len() implies next[i].id != next[j].id by {
        assert(next[i] == out[i]);
        if j == out.len() {
            assert(ids_of(out)[i] == out[i].id);
            assert(next[j] == m);
        } else {
            assert(next[j] == out[j]);
        }
    }
    assert forall|i: int| 0 <= i < next.len() implies fit_result(#[trigger] next[i], q, source_id) by {
        if i < out.len() {
            assert(next[i] == out[i]);
        }
    }
}

/// Reading anchors keeps results fit.
pub proof fn lemma_anchors_fit(rules: RulesView, start: Seq<MangaView>, nodes: Seq<NodeV>, k: int)
    requires
        fit_results(start, rules.query, rules.source_id),
    ensures
        anchors_fold(rules, start, nodes, k) matches Ok(out) ==> fit_results(out, rules.query, rules.source_id),
    decreases k,
{
    if k > 0 {
        lemma_anchors_fit(rules, start, nodes, k - 1);
        if let Ok(prev) = anchors_fold(rules, start, nodes, k - 1) {
            if let Ok(next) = anchor_step(rules, prev, nodes[k - 1]) {
                if next != prev {
                    let n = nodes[k - 1];
                    let h = n.1[0]->0;
                    let abs = crate::scrape::absolute_spec(rules.base, h)->Ok_0;
                    let title = crate::cards::anchor_title(n, rules.title_attr);
                    lemma_push_fit(
                        prev,
                        crate::library::web_manga_spec(abs, title, rules.source_id, rules.source_name,
                            crate::cards::cover_lookup(rules.pairs, abs), None, 0, rules.now),
                        rules.query,
                        rules.source_id,
                    );
                }
            }
        }
    }
}

/// Reading series-list entries keeps results fit.
pub proof fn lemma_items_fit(
    q: Seq<char>,
    pairs: Seq<(Seq<char>, Seq<char>)>,
    now: Seq<char>,
    start: Seq<MangaView>,
    p: ListPageView,
    k: int,
)
    requires
        fit_results(start, q, "mangalivre"@),
    ensures
        items_fold(q, pairs, now, start, p, k) matches Ok(out) ==> fit_results(out, q, "mangalivre"@),
    decreases k,
{
    if k > 0 {
        lemma_items_fit(q, pairs, now, start, p, k - 1);
        if let Ok(prev) = items_fold(q, pairs, now, start, p, k - 1) {
            if let Ok(next) = item_step(q, pairs, now, prev, p, k - 1) {
                if next != prev {
                    let h = crate::cards::first_manga_href(p.anchors[k - 1], false)->0;
                    let abs = crate::scrape::absolute_spec(crate::scrape::mangalivre_base(), h)->Ok_0;
                    let title = crate::cards::item_title(p.anchors[k - 1], p.titles[k - 1]);
                    let c = crate::cards::item_cover(p.covers[k - 1], crate::cards::style_of(p.own[k - 1]), pairs, abs)->Ok_0;
                    lemma_push_fit(
                        prev,
                        crate::library::web_manga_spec(abs, title, "mangalivre"@, "Manga Livre"@, c,
                            crate::cards::item_synopsis(p.descs[k - 1]), crate::cards::item_chapters(p.chapters[k - 1]), now),
                        q,
                        "mangalivre"@,
                    );
                }
            }
        }
    }
}

/// The results of a MangaLivre page never list an id twice, each comes from MangaLivre,
/// and each title, lowercased, contains the trimmed, lowercased query.
pub proof fn law_mangalivre_results_fit(html: Seq<char>, query: Seq<char>, now: Seq<char>)
    ensures
        mangalivre_cards_spec(html, query, now) matches Ok(out) ==> fit_results(out, query_key(query), "mangalivre"@),
{
    if let Ok(pairs) = mangalivre_pairs(html) {
        let q = query_key(query);
        let page = mangalivre_list(html);
        let empty = Seq::<MangaView>::empty();
        lemma_items_fit(q, pairs, now, empty, page, list_count(page));
        if let Ok(listed) = items_fold(q, pairs, now, empty, page, list_count(page)) {
            let heads = crate::scrape::sel_nodes(html, crate::search::mangalivre_selectors()[2], seq!["href"@]);
            lemma_anchors_fit(mangalivre_rules(q, pairs, now, false), listed, heads, heads.len() as int);
            if let Ok(found) = anchors_fold(mangalivre_rules(q, pairs, now, false), listed, heads, heads.len() as int) {
                let generic = crate::scrape::sel_nodes(html, crate::search::mangalivre_selectors()[3], seq!["href"@, "title"@]);
                lemma_anchors_fit(mangalivre_rules(q, pairs, now, true), found, generic, generic.len() as int);
            }
        }
    }
}

/// The results of a Niadd page never list an id twice, each comes from Niadd, and each
/// title, lowercased, contains the trimmed, lowercased query.
pub proof fn law_niadd_results_fit(html: Seq<char>, query: Seq<char>, now: Seq<char>)
    ensures
        niadd_cards_spec(html, query, now) matches Ok(out) ==> fit_results(out, query_key(query), "niadd"@),
{
    if let Ok(pairs) = niadd_pairs(html) {
        let anchors = crate::scrape::sel_nodes(html, crate::search::niadd_selectors()[0], seq!["href"@, "title"@]);
        lemma_anchors_fit(niadd_rules(query_key(query), pairs, now), Seq::empty(), anchors, anchors.len() as int);
    }
}

// ---------------------------------------------------------------------------
// Pagination
// ---------------------------------------------------------------------------

/// Every item of a list is on exactly the page its position gives, and that page is one
/// of the pages counted.
pub proof fn law_every_item_on_its_page<T>(list: Seq<T>, page_size: nat, i: int)
    requires
        page_size >= 1,
        0 <= i < list.len(),
    ensures
        (i / page_size as int) + 1 <= total_pages_spec(list.len(), page_size),
        page_items(list, ((i / page_size as int) + 1) as nat, page_size)[i % page_size as int] == list[i],
{
    let ps = page_size as int;
    let p = i / ps;
    assert(p * ps + i % ps == i && 0 <= i % ps < ps) by (nonlinear_arith)
        requires
            ps >= 1,
            p == i / ps,
            i >= 0,
    ;
    assert(p * ps <= i);
    assert((list.len() + ps - 1) / ps >= p + 1) by (nonlinear_arith)
        requires
            ps >= 1,
            p * ps <= i,
            i < list.len(),
            p >= 0,
    {
        assert(list.len() + ps - 1 >= (p + 1) * ps);
    }
    assert(((p + 1) - 1) * ps == p * ps) by (nonlinear_arith);
}

/// A page holds at most `page_size` items, and pages after the last are empty.
pub proof fn law_page_bounds<T>(list: Seq<T>, page: nat, page_size: nat)
    requires
        page_size >= 1,
    ensures
        page_items(list, page, page_size).len() <= page_size,
        page > total_pages_spec(list.len(), page_size) ==> page_items(list, page, page_size).len() == 0,
{
    let ps = page_size as int;
    if page > total_pages_spec(list.len(), page_size) && page >= 1 {
        let t = (list.len() + ps - 1) / ps;
        assert((page - 1) * ps >= list.len()) by (nonlinear_arith)
            requires
                ps >= 1,
                page >= 1,
                t == (list.len() + ps - 1) / ps,
                page > t,
                page > 1,
        {
            assert(t * ps + (list.len() + ps - 1) % ps == list.len() + ps - 1);
            assert((list.len() + ps - 1) % ps < ps);
            assert(page - 1 >= t + 0);
        }
    }
}

// ---------------------------------------------------------------------------
// Download status
// ---------------------------------------------------------------------------

/// Merging the same status update twice is merging it once.
pub proof fn law_merge_idempotent(e: EntryView, patch: EntryView)
    ensures
        merged(merged(e, patch), patch) == merged(e, patch),
{
}

/// Completing an entry from its folder twice is completing it once.
pub proof fn law_enrich_idempotent(e: EntryView, folder: Option<Seq<char>>, cover: Option<Seq<char>>)
    ensures
        enriched(enriched(e, folder, cover), folder, cover) == enriched(e, folder, cover),
{
}

/// A download recorded under an id is read back as it was written, and recording it
/// leaves every other id as it was.
pub proof fn law_registry_read_after_write(
    before: Map<Seq<char>, EntryView>,
    id: Seq<char>,
    e: EntryView,
    other: Seq<char>,
)
    ensures
        before.insert(id, e).contains_key(id),
        before.insert(id, e)[id] == e,
        other != id ==> before.insert(id, e).contains_key(other) == before.contains_key(other),
        other != id && before.contains_key(other) ==> before.insert(id, e)[other] == before[other],
{
}

/// A removed download is no longer recorded, and removing it leaves every other id as it was.
pub proof fn law_registry_remove(before: Map<Seq<char>, EntryView>, id: Seq<char>, other: Seq<char>)
    ensures
        !before.remove(id).contains_key(id),
        other != id ==> before.remove(id).contains_key(other) == before.contains_key(other),
        other != id && before.contains_key(other) ==> before.remove(id)[other] == before[other],
{
}

// ---------------------------------------------------------------------------
// Names, page counts and encodings
// ---------------------------------------------------------------------------

/// A download folder name is the fallback itself, or made of letters, digits and `_` only;
/// it is never empty when the fallback is not.
pub proof fn law_slug_shape(url: Seq<char>, fallback: Seq<char>)
    ensures
        fallback.len() > 0 ==> slug_spec(url, fallback).len() > 0,
        slug_spec(url, fallback) == fallback || forall|i: int|
            0 <= i < slug_spec(url, fallback).len() ==> (#[trigger] slug_spec(url, fallback)[i] == '_'
                || unicode_alphanumeric(slug_spec(url, fallback)[i])),
{
}

/// The page count read from page links is at least every page number that parses.
pub proof fn law_total_pages_at_least_links(caps: Seq<Seq<Option<Seq<char>>>>, k: int, j: int)
    requires
        0 <= j < k,
        caps[j].len() > 0,
        caps[j][0] is Some,
        parse_unsigned(caps[j][0]->0, u32::MAX as nat) is Some,
    ensures
        parse_unsigned(caps[j][0]->0, u32::MAX as nat)->0 <= max_page_number(caps, k),
        max_page_number(caps, k) >= 1,
    decreases k,
{
    lemma_max_page_grows(caps, j + 1, k);
}

/// More links never lower the page count.
proof fn lemma_max_page_grows(caps: Seq<Seq<Option<Seq<char>>>>, a: int, b: int)
    requires
        0 <= a <= b,
    ensures
        max_page_number(caps, a) <= max_page_number(caps, b),
        max_page_number(caps, b) >= 1,
    decreases b,
{
    if b > a {
        lemma_max_page_grows(caps, a, b - 1);
    } else if b > 0 {
        lemma_max_page_grows(caps, 0, b - 1);
    }
}

/// Base64 turns every started group of three bytes into four characters.
pub proof fn law_base64_length(b: Seq<u8>)
    ensures
        base64_spec(b).len() == 4 * ((b.len() + 2) / 3),
    decreases b.len(),
{
    if b.len() >= 3 {
        law_base64_length(b.subrange(3, b.len() as int));
    }
}

// ---------------------------------------------------------------------------
// Chapter requests
// ---------------------------------------------------------------------------

/// Every chapter that a token names lies in `1..=max(max_available, 1)`.
proof fn lemma_token_in_range(t: Seq<char>, max_available: int, n: int)
    requires
        token_chapters(t, max_available).contains(n),
    ensures
        1 <= n <= max_int(max_available, 1),
{
}

/// Every chapter that a list of pieces names lies in `1..=max(max_available, 1)`.
proof fn lemma_pieces_in_range(ps: Seq<Seq<char>>, max_available: int, n: int)
    requires
        pieces_chapters(ps, max_available).contains(n),
    ensures
        1 <= n <= max_int(max_available, 1),
    decreases ps.len(),
{
    if ps.len() > 0 {
        let t = trim_spec(ps.last());
        if pieces_chapters(ps.drop_last(), max_available).contains(n) {
            lemma_pieces_in_range(ps.drop_last(), max_available, n);
        } else {
            lemma_token_in_range(t, max_available, n);
        }
    }
}

/// A chapter request never names a chapter outside `1..=max(max_available, 1)`.
pub proof fn law_requested_chapters_in_range(chapters: Seq<char>, max_available: int, n: int)
    requires
        requested_set(chapters, max_available).contains(n),
    ensures
        1 <= n <= max_int(max_available, 1),
{
    lemma_pieces_in_range(
        split_by(trim_spec(chapters), one_of(request_separators())),
        max_available,
        n,
    );
}

// ---------------------------------------------------------------------------
// Image URLs
// ---------------------------------------------------------------------------

/// A normalized image URL is trimmed, does not start with `//`, and normalizing it again
/// changes nothing.
pub proof fn law_normalize_idempotent(raw: Seq<char>)
    ensures
        trim_spec(normalize_spec(raw)) == normalize_spec(raw),
        !has_prefix(normalize_spec(raw), "//"@),
        normalize_spec(normalize_spec(raw)) == normalize_spec(raw),
{
    let t = trim_spec(raw);
    lemma_trim_idempotent(raw);
    reveal_strlit("//");
    reveal_strlit("https:");
    if has_prefix(t, "//"@) {
        let r = "https:"@ + t;
        lemma_strip_lead_first(raw, ws());
        lemma_strip_trail_prefix(strip_lead(raw, ws()), ws());
        assert(r[0] == 'h');
        assert(!unicode_whitespace('h'));
        assert(r.last() == t.last());
        lemma_strip_both_unchanged(r, ws());
        assert(r[0] != "//"@[0]);
        assert(!has_prefix(r, "//"@));
    }
}

// ---------------------------------------------------------------------------
// Download runs
// ---------------------------------------------------------------------------

/// Every recorded progress is a percentage.
pub open spec fn all_progress_in_range(m: Map<Seq<char>, EntryView>) -> bool {
    forall|id: Seq<char>| #[trigger] m.contains_key(id) ==> progress_in_range(m[id])
}

/// The progress values that the downloads compute are percentages: the share of pages
/// done, the overall MangaLivre progress (kept below 100) and what the external tool's
/// output reports; and the entries that start and end runs carry percentages too.
pub proof fn law_progress_values(done: int, total: int, line: Seq<char>, dest: Seq<char>, ok: bool)
    ensures
        0 < total && 0 <= done <= total ==> 0 <= (done * 100) / total <= 100,
        line_progress(line) matches Some(p) ==> p <= 100,
        progress_in_range(running_view(dest)),
        progress_in_range(finished_view(ok)),
{
    if 0 < total && 0 <= done <= total {
        assert(0 <= (done * 100) / total <= 100) by (nonlinear_arith)
            requires
                0 < total,
                0 <= done <= total,
        ;
    }
}

/// While a run records percentages, every progress in the registry stays a percentage:
/// recording an entry or patching one with a percentage (or no progress) keeps all of them
/// in range.
pub proof fn law_progress_stays_in_range(before: Map<Seq<char>, EntryView>, id: Seq<char>, e: EntryView)
    requires
        all_progress_in_range(before),
        progress_in_range(e),
    ensures
        all_progress_in_range(before.insert(id, e)),
        before.contains_key(id) ==> all_progress_in_range(before.insert(id, merged(before[id], e))),
{
    assert forall|k: Seq<char>| #[trigger] before.insert(id, e).contains_key(k) implies progress_in_range(
        before.insert(id, e)[k],
    ) by {
        if k != id {
            assert(before.contains_key(k));
        }
    }
    if before.contains_key(id) {
        let m = merged(before[id], e);
        assert(progress_in_range(before[id]));
        assert(progress_in_range(m));
        assert forall|k: Seq<char>| #[trigger] before.insert(id, m).contains_key(k) implies progress_in_range(
            before.insert(id, m)[k],
        ) by {
            if k != id {
                assert(before.contains_key(k));
            }
        }
    }
}

/// A run ends settled: whatever an entry held, the patch that ends a run of the external
/// tool leaves it `completed` or `failed` at 100%, the patch that ends a built-in download
/// leaves it `completed` at 100%, and a run that could not start is recorded as `error`.
pub proof fn law_runs_end_settled(
    e: EntryView,
    ok: bool,
    dest: Seq<char>,
    title: Option<Seq<char>>,
    cover: Option<Seq<char>>,
    msg: Seq<char>,
)
    ensures
        merged(e, finished_view(ok)).status matches Some(s) && settled_status(s),
        merged(e, finished_view(ok)).progress == Some(100u64),
        merged(e, completed_view(dest, title, cover)).status == Some("completed"@),
        merged(e, completed_view(dest, title, cover)).progress == Some(100u64),
        error_view(msg).status matches Some(s) && settled_status(s),
        !settled_status("running"@),
{
    reveal_strlit("running");
    reveal_strlit("completed");
    reveal_strlit("failed");
    reveal_strlit("error");
    assert("running"@.len() == 7 && "completed"@.len() == 9 && "failed"@.len() == 6 && "error"@.len() == 5);
}

// ---------------------------------------------------------------------------
// Search results are complete
// ---------------------------------------------------------------------------

/// Every id listed before is still listed after.
pub open spec fn ids_kept(before: Seq<MangaView>, after: Seq<MangaView>) -> bool {
    forall|x: Seq<char>| ids_of(before).contains(x) ==> #[trigger] ids_of(after).contains(x)
}

/// Adding a result keeps every id and lists the new one.
proof fn lemma_push_ids(out: Seq<MangaView>, m: MangaView)
    ensures
        ids_kept(out, out.push(m)),
        ids_of(out.push(m)).contains(m.id),
{
    let after = ids_of(out.push(m));
    assert(after =~= ids_of(out).push(m.id));
    assert(after[out.len() as int] == m.id);
    assert forall|x: Seq<char>| ids_of(out).contains(x) implies #[trigger] after.contains(x) by {
        let j = choose|j: int| 0 <= j < ids_of(out).len() && ids_of(out)[j] == x;
        assert(after[j] == x);
    }
}

/// A text that holds `q` somewhere contains it.
pub proof fn lemma_contains_anywhere(a: Seq<char>, q: Seq<char>, b: Seq<char>)
    ensures
        crate::text::contains_text(a + q + b, q),
{
    let s = a + q + b;
    assert(s.subrange(a.len() as int, (a.len() + q.len()) as int) =~= q);
    assert(crate::text::occurs_at(s, q, a.len() as int));
    crate::text::lemma_find_from(s, q, 0);
}

/// One anchor never drops a listed id.
proof fn lemma_anchor_step_keeps(rules: RulesView, out: Seq<MangaView>, n: NodeV)
    ensures
        anchor_step(rules, out, n) matches Ok(next) ==> ids_kept(out, next),
{
    if let Ok(next) = anchor_step(rules, out, n) {
        if next != out {
            let h = n.1[0]->0;
            let abs = crate::scrape::absolute_spec(rules.base, h)->Ok_0;
            let title = crate::cards::anchor_title(n, rules.title_attr);
            lemma_push_ids(out, crate::library::web_manga_spec(abs, title, rules.source_id, rules.source_name,
                crate::cards::cover_lookup(rules.pairs, abs), None, 0, rules.now));
        }
    }
}

/// Reading more anchors never drops a listed id.
proof fn lemma_anchors_keep(rules: RulesView, start: Seq<MangaView>, nodes: Seq<NodeV>, j: int, k: int)
    requires
        0 <= j <= k,
    ensures
        anchors_fold(rules, start, nodes, k) matches Ok(out) ==> (anchors_fold(rules, start, nodes, j) matches Ok(
            mid,
        ) && ids_kept(mid, out)),
    decreases k - j,
{
    if let Ok(out) = anchors_fold(rules, start, nodes, k) {
        if j < k {
            lemma_anchors_keep(rules, start, nodes, j, k - 1);
            if anchors_fold(rules, start, nodes, k - 1) is Err {
                crate::cards::lemma_anchors_fold_err(rules, start, nodes, k - 1, k);
            }
            let prev = anchors_fold(rules, start, nodes, k - 1)->Ok_0;
            lemma_anchor_step_keeps(rules, prev, nodes[k - 1]);
        }
    }
}

/// A result anchor is listed once the anchors are read, whenever reading succeeds: one
/// whose link is present, not skipped and resolves, and whose title is non-empty and,
/// lowercased, holds the query anywhere (`a + query + b`).
pub proof fn law_anchor_listed(
    rules: RulesView,
    start: Seq<MangaView>,
    nodes: Seq<NodeV>,
    k: int,
    i: int,
    abs: Seq<char>,
    a: Seq<char>,
    b: Seq<char>,
)
    requires
        0 <= i < k,
        nodes[i].1.len() > 0,
        nodes[i].1[0] matches Some(h) && !crate::text::contains_text(h, rules.skip) && crate::scrape::absolute_spec(
            rules.base,
            h,
        ) == Ok::<Seq<char>, Seq<char>>(abs),
        crate::cards::anchor_title(nodes[i], rules.title_attr).len() > 0,
        crate::text::lowercase_of(crate::cards::anchor_title(nodes[i], rules.title_attr)) == a + rules.query + b,
    ensures
        anchors_fold(rules, start, nodes, k) matches Ok(out) ==> ids_of(out).contains(abs),
{
    if let Ok(out) = anchors_fold(rules, start, nodes, k) {
        lemma_anchors_keep(rules, start, nodes, i + 1, k);
        lemma_anchors_keep(rules, start, nodes, i, i + 1);
        let prev = anchors_fold(rules, start, nodes, i)->Ok_0;
        let title = crate::cards::anchor_title(nodes[i], rules.title_attr);
        lemma_contains_anywhere(a, rules.query, b);
        assert(query_matches(rules.query, title));
        if !ids_of(prev).contains(abs) {
            lemma_push_ids(prev, crate::library::web_manga_spec(abs, title, rules.source_id, rules.source_name,
                crate::cards::cover_lookup(rules.pairs, abs), None, 0, rules.now));
        }
    }
}

/// One series-list entry never drops a listed id.
proof fn lemma_item_step_keeps(
    q: Seq<char>,
    pairs: Seq<(Seq<char>, Seq<char>)>,
    now: Seq<char>,
    out: Seq<MangaView>,
    p: ListPageView,
    k: int,
)
    ensures
        item_step(q, pairs, now, out, p, k) matches Ok(next) ==> ids_kept(out, next),
{
    if let Ok(next) = item_step(q, pairs, now, out, p, k) {
        if next != out {
            let h = crate::cards::first_manga_href(p.anchors[k], false)->0;
            let abs = crate::scrape::absolute_spec(crate::scrape::mangalivre_base(), h)->Ok_0;
            let title = crate::cards::item_title(p.anchors[k], p.titles[k]);
            let c = crate::cards::item_cover(p.covers[k], crate::cards::style_of(p.own[k]), pairs, abs)->Ok_0;
            lemma_push_ids(out, crate::library::web_manga_spec(abs, title, "mangalivre"@, "Manga Livre"@, c,
                crate::cards::item_synopsis(p.descs[k]), crate::cards::item_chapters(p.chapters[k]), now));
        }
    }
}

/// Reading more series-list entries never drops a listed id.
proof fn lemma_items_keep(
    q: Seq<char>,
    pairs: Seq<(Seq<char>, Seq<char>)>,
    now: Seq<char>,
    start: Seq<MangaView>,
    p: ListPageView,
    j: int,
    k: int,
)
    requires
        0 <= j <= k,
    ensures
        items_fold(q, pairs, now, start, p, k) matches Ok(out) ==> (items_fold(q, pairs, now, start, p, j) matches Ok(
            mid,
        ) && ids_kept(mid, out)),
    decreases k - j,
{
    if let Ok(out) = items_fold(q, pairs, now, start, p, k) {
        if j < k {
            lemma_items_keep(q, pairs, now, start, p, j, k - 1);
            if items_fold(q, pairs, now, start, p, k - 1) is Err {
                crate::cards::lemma_items_fold_err(q, pairs, now, start, p, k - 1, k);
            }
            let prev = items_fold(q, pairs, now, start, p, k - 1)->Ok_0;
            lemma_item_step_keeps(q, pairs, now, prev, p, k - 1);
        }
    }
}

/// A series-list entry is listed once the entries are read, whenever reading succeeds: one
/// whose first manga link is not a chapter link and resolves, and whose title is non-empty
/// and, lowercased, holds the query anywhere (`a + q + b`).
pub proof fn law_series_entry_listed(
    q: Seq<char>,
    pairs: Seq<(Seq<char>, Seq<char>)>,
    now: Seq<char>,
    start: Seq<MangaView>,
    p: ListPageView,
    k: int,
    i: int,
    abs: Seq<char>,
    a: Seq<char>,
    b: Seq<char>,
)
    requires
        0 <= i < k,
        crate::cards::first_manga_href(p.anchors[i], false) matches Some(h) && !crate::text::contains_text(
            h,
            "/capitulo-"@,
        ) && crate::scrape::absolute_spec(crate::scrape::mangalivre_base(), h) == Ok::<Seq<char>, Seq<char>>(abs),
        crate::cards::item_title(p.anchors[i], p.titles[i]).len() > 0,
        crate::text::lowercase_of(crate::cards::item_title(p.anchors[i], p.titles[i])) == a + q + b,
    ensures
        items_fold(q, pairs, now, start, p, k) matches Ok(out) ==> ids_of(out).contains(abs),
{
    if let Ok(out) = items_fold(q, pairs, now, start, p, k) {
        lemma_items_keep(q, pairs, now, start, p, i + 1, k);
        lemma_items_keep(q, pairs, now, start, p, i, i + 1);
        let prev = items_fold(q, pairs, now, start, p, i)->Ok_0;
        let title = crate::cards::item_title(p.anchors[i], p.titles[i]);
        lemma_contains_anywhere(a, q, b);
        assert(query_matches(q, title));
        if !ids_of(prev).contains(abs) {
            let c = crate::cards::item_cover(p.covers[i], crate::cards::style_of(p.own[i]), pairs, abs)->Ok_0;
            lemma_push_ids(prev, crate::library::web_manga_spec(abs, title, "mangalivre"@, "Manga Livre"@, c,
                crate::cards::item_synopsis(p.descs[i]), crate::cards::item_chapters(p.chapters[i]), now));
        }
    }
}

/// The MangaLivre results of a search list every series entry of the page whose title,
/// lowercased, holds the trimmed, lowercased query anywhere (and whose first manga link is
/// not a chapter link and resolves), whenever the page is read without error.
pub proof fn law_mangalivre_results_complete(
    html: Seq<char>,
    query: Seq<char>,
    now: Seq<char>,
    i: int,
    abs: Seq<char>,
    a: Seq<char>,
    b: Seq<char>,
)
    requires
        0 <= i < list_count(mangalivre_list(html)),
        crate::cards::first_manga_href(mangalivre_list(html).anchors[i], false) matches Some(h)
            && !crate::text::contains_text(h, "/capitulo-"@) && crate::scrape::absolute_spec(
            crate::scrape::mangalivre_base(),
            h,
        ) == Ok::<Seq<char>, Seq<char>>(abs),
        crate::cards::item_title(mangalivre_list(html).anchors[i], mangalivre_list(html).titles[i]).len() > 0,
        crate::text::lowercase_of(crate::cards::item_title(mangalivre_list(html).anchors[i], mangalivre_list(html).titles[i]))
            == a + query_key(query) + b,
    ensures
        mangalivre_cards_spec(html, query, now) matches Ok(out) ==> ids_of(out).contains(abs),
{
    if let Ok(pairs) = mangalivre_pairs(html) {
        let page = mangalivre_list(html);
        let q = query_key(query);
        law_series_entry_listed(q, pairs, now, Seq::empty(), page, list_count(page), i, abs, a, b);
        if let Ok(listed) = items_fold(q, pairs, now, Seq::empty(), page, list_count(page)) {
            assert(ids_of(listed).contains(abs));
            assert(listed.len() > 0);
        }
    }
}

/// The Niadd results of a search list every manga anchor of the page whose title,
/// lowercased, holds the trimmed, lowercased query anywhere (and whose link is present, not
/// the empty manga link and resolves), whenever the page is read without error.
pub proof fn law_niadd_results_complete(
    html: Seq<char>,
    query: Seq<char>,
    now: Seq<char>,
    pairs: Seq<(Seq<char>, Seq<char>)>,
    i: int,
    abs: Seq<char>,
    a: Seq<char>,
    b: Seq<char>,
)
    requires
        niadd_pairs(html) == Ok::<Seq<(Seq<char>, Seq<char>)>, ()>(pairs),
        0 <= i < crate::scrape::sel_nodes(html, crate::search::niadd_selectors()[0], seq!["href"@, "title"@]).len(),
        ({
            let n = crate::scrape::sel_nodes(html, crate::search::niadd_selectors()[0], seq!["href"@, "title"@])[i];
            let rules = niadd_rules(query_key(query), pairs, now);
            &&& n.1.len() > 0
            &&& n.1[0] matches Some(h) && !crate::text::contains_text(h, rules.skip) && crate::scrape::absolute_spec(
                rules.base,
                h,
            ) == Ok::<Seq<char>, Seq<char>>(abs)
            &&& crate::cards::anchor_title(n, true).len() > 0
            &&& crate::text::lowercase_of(crate::cards::anchor_title(n, true)) == a + query_key(query) + b
        }),
    ensures
        niadd_cards_spec(html, query, now) matches Ok(out) ==> ids_of(out).contains(abs),
{
    let anchors = crate::scrape::sel_nodes(html, crate::search::niadd_selectors()[0], seq!["href"@, "title"@]);
    law_anchor_listed(niadd_rules(query_key(query), pairs, now), Seq::empty(), anchors, anchors.len() as int, i, abs, a, b);
}

// ---------------------------------------------------------------------------
// Chapter requests
// ---------------------------------------------------------------------------

/// Every character satisfies `f`.
pub open spec fn all_of(w: Seq<char>, f: spec_fn(char) -> bool) -> bool {
    forall|i: int| 0 <= i < w.len() ==> f(#[trigger] w[i])
}

/// Stripping skips a leading run of stripped characters.
proof fn lemma_strip_lead_skips(w: Seq<char>, s: Seq<char>, f: spec_fn(char) -> bool)
    requires
        all_of(w, f),
    ensures
        crate::text::strip_lead(w + s, f) == crate::text::strip_lead(s, f),
    decreases w.len(),
{
    if w.len() == 0 {
        assert(w + s =~= s);
    } else {
        assert(f(w[0]));
        assert((w + s)[0] == w[0]);
        assert((w + s).drop_first() =~= w.drop_first() + s);
        lemma_strip_lead_skips(w.drop_first(), s, f);
    }
}

/// Stripping skips a trailing run of stripped characters.
proof fn lemma_strip_trail_skips(s: Seq<char>, w: Seq<char>, f: spec_fn(char) -> bool)
    requires
        all_of(w, f),
    ensures
        crate::text::strip_trail(s + w, f) == crate::text::strip_trail(s, f),
    decreases w.len(),
{
    if w.len() == 0 {
        assert(s + w =~= s);
    } else {
        assert(f(w.last()));
        assert((s + w).last() == w.last());
        assert((s + w).drop_last() =~= s + w.drop_last());
        lemma_strip_trail_skips(s, w.drop_last(), f);
    }
}

/// Stripping the front of `s + w` strips the front of `s`, and of `w` when `s` is stripped
/// away entirely.
proof fn lemma_strip_lead_append(s: Seq<char>, w: Seq<char>, f: spec_fn(char) -> bool)
    ensures
        crate::text::strip_lead(s + w, f) == (if crate::text::strip_lead(s, f).len() > 0 {
            crate::text::strip_lead(s, f) + w
        } else {
            crate::text::strip_lead(w, f)
        }),
    decreases s.len(),
{
    if s.len() == 0 {
        assert(s + w =~= w);
    } else {
        assert((s + w)[0] == s[0]);
        if f(s[0]) {
            assert((s + w).drop_first() =~= s.drop_first() + w);
            lemma_strip_lead_append(s.drop_first(), w, f);
        }
    }
}

/// Trailing white space does not change what trimming gives.
proof fn lemma_trim_ignores_trailing(a: Seq<char>, w: Seq<char>)
    requires
        all_of(w, ws()),
    ensures
        trim_spec(a + w) == trim_spec(a),
{
    lemma_strip_lead_append(a, w, ws());
    if strip_lead(a, ws()).len() > 0 {
        lemma_strip_trail_skips(strip_lead(a, ws()), w, ws());
    } else {
        lemma_strip_lead_skips(w, Seq::empty(), ws());
        assert(w + Seq::<char>::empty() =~= w);
        assert(strip_lead(a, ws()) =~= Seq::<char>::empty());
    }
}

/// Leading white space does not change what trimming gives.
proof fn lemma_trim_ignores_leading(w: Seq<char>, b: Seq<char>)
    requires
        all_of(w, ws()),
    ensures
        trim_spec(w + b) == trim_spec(b),
{
    lemma_strip_lead_skips(w, b, ws());
}

/// The first `c` of a text whose first `k` characters are not `c` is at `k`.
proof fn lemma_first_at(t: Seq<char>, c: char, k: int)
    requires
        0 <= k < t.len(),
        t[k] == c,
        forall|j: int| 0 <= j < k ==> t[j] != c,
    ensures
        crate::text::find_text(t, seq![c]) == Some(k),
{
    crate::text::lemma_find_from(t, seq![c], 0);
    assert(t.subrange(k, k + 1) =~= seq![c]);
    assert(crate::text::occurs_at(t, seq![c], k));
    if let Some(j) = crate::text::find_text(t, seq![c]) {
        if j < k {
            assert(t.subrange(j, j + 1)[0] == t[j]);
        }
    }
}

/// White space around the dash of a range does not change the chapters it names: each
/// end is read trimmed, so `1 - 3` names the same chapters as `1-3`.
pub proof fn law_range_ignores_spaces(a: Seq<char>, w1: Seq<char>, w2: Seq<char>, b: Seq<char>, max_available: int)
    requires
        !a.contains('-'),
        all_of(w1, ws()),
        all_of(w2, ws()),
    ensures
        token_chapters(a + w1 + seq!['-'] + w2 + b, max_available) == token_chapters(
            a + seq!['-'] + b,
            max_available,
        ),
{
    let spaced = a + w1 + seq!['-'] + w2 + b;
    let tight = a + seq!['-'] + b;
    let k1 = (a.len() + w1.len()) as int;
    let k2 = a.len() as int;
    assert forall|j: int| 0 <= j < k1 implies spaced[j] != '-' by {
        if j < a.len() {
            assert(spaced[j] == a[j]);
        } else {
            assert(spaced[j] == w1[j - a.len()]);
            assert(unicode_whitespace(w1[j - a.len()]));
        }
    }
    assert(spaced[k1] == '-');
    lemma_first_at(spaced, '-', k1);
    assert forall|j: int| 0 <= j < k2 implies tight[j] != '-' by {
        assert(tight[j] == a[j]);
    }
    assert(tight[k2] == '-');
    lemma_first_at(tight, '-', k2);
    assert(spaced.take(k1) =~= a + w1);
    assert(spaced.skip(k1 + 1) =~= w2 + b);
    assert(tight.take(k2) =~= a);
    assert(tight.skip(k2 + 1) =~= b);
    lemma_trim_ignores_trailing(a, w1);
    lemma_trim_ignores_leading(w2, b);
}

// ---------------------------------------------------------------------------
// Page images
// ---------------------------------------------------------------------------

/// The file endings of page images.
pub open spec fn image_endings() -> Seq<Seq<char>> {
    seq![".jpg"@, ".jpeg"@, ".png"@, ".webp"@]
}

/// A text ending in `e` contains `e`.
proof fn lemma_suffix_contains(l: Seq<char>, e: Seq<char>)
    requires
        crate::text::has_suffix(l, e),
    ensures
        crate::text::contains_text(l, e),
{
    let a = l.take(l.len() - e.len());
    assert(l.subrange(l.len() - e.len(), l.len() as int) == e);
    assert(a + e + Seq::<char>::empty() =~= l);
    lemma_contains_anywhere(a, e, Seq::empty());
}

/// A piece of markup that, trimmed and lowercased, is an `http` or `https` URL ending in a
/// page-image ending (`.jpg`, `.jpeg`, `.png`, `.webp`) is taken as an image URL, stripped
/// of brackets and semicolons, and is among the image URLs that the text yields.
pub proof fn law_image_urls_taken(raw: Seq<char>, k: int, e: Seq<char>, l: Seq<char>)
    requires
        0 <= k < crate::download::text_pieces(raw).len(),
        image_endings().contains(e),
        crate::text::lowercase_of(trim_spec(crate::download::text_pieces(raw)[k])) == l,
        has_prefix(l, "https://"@) || has_prefix(l, "http://"@),
        crate::text::has_suffix(l, e),
    ensures
        crate::download::image_token(crate::download::text_pieces(raw)[k]) == Some(crate::text::strip_both(
            trim_spec(crate::download::text_pieces(raw)[k]),
            one_of(crate::download::bracket_chars()),
        )),
        crate::download::yielded(crate::download::text_pieces(raw), |p: Seq<char>| crate::download::image_token(p)).contains(
            crate::text::strip_both(trim_spec(crate::download::text_pieces(raw)[k]), one_of(crate::download::bracket_chars())),
        ),
{
    lemma_suffix_contains(l, e);
    let i = choose|i: int| 0 <= i < image_endings().len() && image_endings()[i] == e;
    assert(e == ".jpg"@ || e == ".jpeg"@ || e == ".png"@ || e == ".webp"@) by {
        assert(0 <= i < 4);
    }
    let pieces = crate::download::text_pieces(raw);
    let x = crate::text::strip_both(trim_spec(pieces[k]), one_of(crate::download::bracket_chars()));
    assert((|p: Seq<char>| crate::download::image_token(p))(pieces[k]) == Some(x));
}

/// A path whose ending is, in any ASCII case, one of the page-image endings is a page
/// image, whatever comes before it (`001.png`, `cover.JPEG`, `a/b.WebP`).
pub proof fn law_image_paths_by_ending(stem: Seq<char>, ending: Seq<char>)
    requires
        image_endings().contains(crate::text::ascii_lower_seq(ending)),
    ensures
        crate::reader::image_path_spec(stem + ending),
{
    let e = crate::text::ascii_lower_seq(ending);
    let p = stem + ending;
    let low = crate::text::ascii_lower_seq(p);
    assert(low =~= crate::text::ascii_lower_seq(stem) + e);
    assert(low.subrange(low.len() - e.len(), low.len() as int) =~= e);
    let i = choose|i: int| 0 <= i < image_endings().len() && image_endings()[i] == e;
    assert(e == ".jpg"@ || e == ".jpeg"@ || e == ".png"@ || e == ".webp"@) by {
        assert(0 <= i < 4);
    }
}

// ---------------------------------------------------------------------------
// Chapter folders and records
// ---------------------------------------------------------------------------

/// The beginnings of a chapter's name, lowercase.
pub open spec fn chapter_name_starts() -> Seq<Seq<char>> {
    seq!["chapter_"@, "chapter-"@, "chapter "@, "capitulo_"@, "capitulo-"@, "capitulo "@]
}

/// A lowercase name that begins with a chapter's beginning (`chapter_`, `chapter-`,
/// `chapter `, `capitulo_`, `capitulo-`, `capitulo `) is a chapter's: a library folder so
/// named (in lowercase) is never imported as a manga, and a record whose trimmed title or
/// folder name so begins (in lowercase; ASCII folding for ASCII names) stands for a chapter.
pub proof fn law_chapter_names(start: Seq<char>, rest: Seq<char>, name: Seq<char>, title: Seq<char>, leaf: Seq<char>)
    requires
        chapter_name_starts().contains(start),
    ensures
        crate::local::chapter_prefixed(start + rest),
        has_prefix(crate::text::lowercase_of(name), start) ==> !crate::local::importable_folder_spec(name),
        has_prefix(crate::text::lower_spec(trim_spec(title)), start) ==> crate::local::chapter_entry_spec(
            title,
            Some(leaf),
        ),
        has_prefix(crate::text::lower_spec(leaf), start) ==> crate::local::chapter_entry_spec(title, Some(leaf)),
        crate::text::ascii_only(leaf) && has_prefix(crate::text::ascii_lower_seq(leaf), start)
            ==> crate::local::chapter_entry_spec(title, Some(leaf)),
{
    let i = choose|i: int| 0 <= i < chapter_name_starts().len() && chapter_name_starts()[i] == start;
    assert(0 <= i < 6);
    assert((start + rest).subrange(0, start.len() as int) =~= start);
    assert(has_prefix(start + rest, start));
}

/// White space around a search query does not change what it matches: the query is
/// matched trimmed.
pub proof fn law_query_ignores_spaces(w1: Seq<char>, q: Seq<char>, w2: Seq<char>)
    requires
        all_of(w1, ws()),
        all_of(w2, ws()),
    ensures
        query_key(w1 + q + w2) == query_key(q),
{
    lemma_trim_ignores_trailing(w1 + q, w2);
    lemma_trim_ignores_leading(w1, q);
}

} // verus!
