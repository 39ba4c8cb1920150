use vstd::prelude::*;
use crate::library::{Manga, MangaView, web_manga, web_manga_spec, manga_views};
use crate::registry::opt_view;
use crate::scrape::{
    Node, WebScraper, absolute_spec, element_image_spec, node_lists_view, nodes_view, normalize_spec, to_absolute,
};
use crate::scrape::mangalivre_base;
use crate::text::{
    chars_of, contains, contains_text, digits_only, keep_digits, lowercase_of, parse_decimal,
    parse_unsigned, replace_char, replace_char_spec, slice_vec, squash_spaces, squash_whitespace, string_of,
    trim_range, trim_spec, to_lowercase,
};

verus! {

/// The values of one matched element: its text and its attribute values.
pub type NodeV = (Seq<char>, Seq<Option<Seq<char>>>);

/// Why assembling search results failed.
pub enum ScrapeError {
    /// A CSS selector did not parse; the message names it.
    Selector(String),
    /// A link could not be made absolute; the message is the URL error's.
    Url(String),
    /// The page cannot be read: a style would be sliced inside a character.
    Aborted,
    /// The site served an anti-bot page; the message says which request.
    Blocked(String),
}

/// The value of a scraping error.
pub enum ScrapeErrorView {
    Selector(Seq<char>),
    Url(Seq<char>),
    Aborted,
    Blocked(Seq<char>),
}

impl View for ScrapeError {
    type V = ScrapeErrorView;

    open spec fn view(&self) -> ScrapeErrorView {
        match self {
            ScrapeError::Selector(m) => ScrapeErrorView::Selector(m@),
            ScrapeError::Url(m) => ScrapeErrorView::Url(m@),
            ScrapeError::Aborted => ScrapeErrorView::Aborted,
            ScrapeError::Blocked(m) => ScrapeErrorView::Blocked(m@),
        }
    }
}

/// The value of a result holding a list of manga.
pub open spec fn mangas_result_view(r: Result<Vec<Manga>, ScrapeError>) -> Result<Seq<MangaView>, ScrapeErrorView> {
    match r {
        Ok(v) => Ok(manga_views(v@)),
        Err(e) => Err(e@),
    }
}

// ---------------------------------------------------------------------------
// Covers by link
// ---------------------------------------------------------------------------

/// The cover recorded first for a link in a list of `(link, cover)` pairs.
pub open spec fn cover_lookup(pairs: Seq<(Seq<char>, Seq<char>)>, key: Seq<char>) -> Option<Seq<char>>
    decreases pairs.len(),
{
    if pairs.len() == 0 {
        None
    } else if pairs[0].0 == key {
        Some(pairs[0].1)
    } else {
        cover_lookup(pairs.drop_first(), key)
    }
}

/// The values of a list of `(link, cover)` pairs.
pub open spec fn pairs_view(v: Seq<(String, String)>) -> Seq<(Seq<char>, Seq<char>)> {
    v.map_values(|p: (String, String)| (p.0@, p.1@))
}

/// The cover recorded first for a link.
pub fn lookup_cover(pairs: &Vec<(String, String)>, key: &String) -> (r: Option<String>)
    ensures
        opt_view(r) == cover_lookup(pairs_view(pairs@), key@),
{
    let mut i: usize = 0;
    proof {
        assert(pairs_view(pairs@).skip(0) =~= pairs_view(pairs@));
    }
    while i < pairs.len()
        invariant
            i <= pairs@.len(),
            cover_lookup(pairs_view(pairs@), key@) == cover_lookup(pairs_view(pairs@).skip(i as int), key@),
        decreases pairs@.len() - i,
    {
        proof {
            assert(pairs_view(pairs@).skip(i as int).drop_first() == pairs_view(pairs@).skip(i + 1));
        }
        if pairs[i].0 == *key {
            return Some(pairs[i].1.clone());
        }
        i = i + 1;
    }
    None
}

/// A cover URL made absolute against `base`, kept as it is when that fails.
pub open spec fn abs_or_self(base: Seq<char>, u: Seq<char>) -> Seq<char> {
    match absolute_spec(base, u) {
        Ok(a) => a,
        Err(_) => u,
    }
}

/// A cover URL made absolute, or kept.
fn abs_or_keep(base: &str, u: String) -> (r: String)
    ensures
        r@ == abs_or_self(base@, u@),
{
    match to_absolute(base, u.as_str()) {
        Ok(a) => a,
        Err(_) => u,
    }
}

/// The first link among the anchors below an element that points to a manga page
/// (contains `/manga/`) and, when `skip_chapters`, not to a chapter (`/capitulo-`).
pub open spec fn first_manga_href(anchors: Seq<NodeV>, skip_chapters: bool) -> Option<Seq<char>>
    decreases anchors.len(),
{
    if anchors.len() == 0 {
        None
    } else if anchors[0].1.len() > 0 && anchors[0].1[0] is Some && contains_text(anchors[0].1[0]->0, "/manga/"@)
        && !(skip_chapters && contains_text(anchors[0].1[0]->0, "/capitulo-"@)) {
        anchors[0].1[0]
    } else {
        first_manga_href(anchors.drop_first(), skip_chapters)
    }
}

/// The first link of a list of anchors that matches `first_manga_href`.
fn first_manga_href_of(anchors: &Vec<Node>, skip_chapters: bool) -> (r: Option<String>)
    ensures
        opt_view(r) == first_manga_href(nodes_view(anchors@), skip_chapters),
{
    let manga = chars_of("/manga/");
    let chapter = chars_of("/capitulo-");
    let mut i: usize = 0;
    proof {
        assert(nodes_view(anchors@).skip(0) =~= nodes_view(anchors@));
    }
    while i < anchors.len()
        invariant
            i <= anchors@.len(),
            manga@ == "/manga/"@,
            chapter@ == "/capitulo-"@,
            first_manga_href(nodes_view(anchors@), skip_chapters) == first_manga_href(
                nodes_view(anchors@).skip(i as int),
                skip_chapters,
            ),
        decreases anchors@.len() - i,
    {
        proof {
            assert(nodes_view(anchors@).skip(i as int).drop_first() == nodes_view(anchors@).skip(i + 1));
            assert(nodes_view(anchors@).skip(i as int)[0] == crate::scrape::node_view(anchors@[i as int]));
        }
        if anchors[i].attrs.len() > 0 {
            match &anchors[i].attrs[0] {
                Some(h) => {
                    let hv = chars_of(h.as_str());
                    if contains(&hv, &manga) && !(skip_chapters && contains(&hv, &chapter)) {
                        return Some(h.clone());
                    }
                },
                None => {},
            }
        }
        i = i + 1;
    }
    None
}

/// The `(link, cover)` pair that one card yields: the card's manga link made absolute and
/// its image URL made absolute (or kept); nothing when either is missing; `Err` when slicing a
/// style after its `url(` would panic.
pub open spec fn card_pair(base: Seq<char>, anchors: Seq<NodeV>, covers: Seq<NodeV>, style: Option<Seq<char>>) -> Result<
    Option<(Seq<char>, Seq<char>)>,
    (),
> {
    match first_manga_href(anchors, true) {
        None => Ok(None),
        Some(h) => match absolute_spec(base, h) {
            Err(_) => Ok(None),
            Ok(a) => match element_image_spec(covers, style) {
                Err(_) => Err(()),
                Ok(None) => Ok(None),
                Ok(Some(u)) => Ok(Some((a, abs_or_self(base, u)))),
            },
        },
    }
}

/// The style attribute of an element matched with the keys `["style"]`.
pub open spec fn style_of(n: NodeV) -> Option<Seq<char>> {
    if n.1.len() > 0 { n.1[0] } else { None }
}

/// The pairs that the first `k` cards yield, in order; `Err` when slicing a style would panic.
pub open spec fn card_pairs(
    base: Seq<char>,
    anchors: Seq<Seq<NodeV>>,
    covers: Seq<Seq<NodeV>>,
    own: Seq<NodeV>,
    k: int,
) -> Result<Seq<(Seq<char>, Seq<char>)>, ()>
    decreases k,
{
    if k <= 0 {
        Ok(Seq::empty())
    } else {
        match card_pairs(base, anchors, covers, own, k - 1) {
            Err(_) => Err(()),
            Ok(ps) => match card_pair(base, anchors[k - 1], covers[k - 1], style_of(own[k - 1])) {
                Err(_) => Err(()),
                Ok(None) => Ok(ps),
                Ok(Some(p)) => Ok(ps.push(p)),
            },
        }
    }
}

/// Once the cards fail, every longer prefix fails too.
pub proof fn lemma_card_pairs_err(
    base: Seq<char>,
    anchors: Seq<Seq<NodeV>>,
    covers: Seq<Seq<NodeV>>,
    own: Seq<NodeV>,
    k: int,
    j: int,
)
    requires
        0 <= k <= j,
        card_pairs(base, anchors, covers, own, k) is Err,
    ensures
        card_pairs(base, anchors, covers, own, j) is Err,
    decreases j - k,
{
    if j > k {
        lemma_card_pairs_err(base, anchors, covers, own, k, j - 1);
    }
}

/// The number of cards: the shortest of the three selections made of them.
pub open spec fn card_count(anchors: Seq<Seq<NodeV>>, covers: Seq<Seq<NodeV>>, own: Seq<NodeV>) -> int {
    let a = if anchors.len() <= covers.len() { anchors.len() } else { covers.len() };
    if a <= own.len() { a as int } else { own.len() as int }
}

/// The style attribute of an element.
fn style_attr(n: &Node) -> (r: Option<String>)
    ensures
        opt_view(r) == style_of(crate::scrape::node_view(*n)),
{
    if n.attrs.len() > 0 {
        match &n.attrs[0] {
            Some(s) => Some(s.clone()),
            None => None,
        }
    } else {
        None
    }
}

/// The `(link, cover)` pairs that the cards of a page yield.
pub fn collect_card_pairs(base: &str, anchors: &Vec<Vec<Node>>, covers: &Vec<Vec<Node>>, own: &Vec<Node>) -> (r: Result<
    Vec<(String, String)>,
    (),
>)
    ensures
        match r {
            Ok(v) => card_pairs(base@, node_lists_view(anchors@), node_lists_view(covers@), nodes_view(own@), card_count(
                node_lists_view(anchors@),
                node_lists_view(covers@),
                nodes_view(own@),
            )) == Ok::<Seq<(Seq<char>, Seq<char>)>, ()>(pairs_view(v@)),
            Err(_) => card_pairs(base@, node_lists_view(anchors@), node_lists_view(covers@), nodes_view(own@), card_count(
                node_lists_view(anchors@),
                node_lists_view(covers@),
                nodes_view(own@),
            )) is Err,
        },
{
    let ghost av = node_lists_view(anchors@);
    let ghost cv = node_lists_view(covers@);
    let ghost ov = nodes_view(own@);
    let n = if anchors.len() <= covers.len() { anchors.len() } else { covers.len() };
    let n = if n <= own.len() { n } else { own.len() };
    let mut out: Vec<(String, String)> = Vec::new();
    let mut k: usize = 0;
    proof {
        assert(pairs_view(out@) =~= Seq::<(Seq<char>, Seq<char>)>::empty());
    }
    while k < n
        invariant
            k <= n,
            n <= anchors@.len(),
            n <= covers@.len(),
            n <= own@.len(),
            n as int == card_count(av, cv, ov),
            av == node_lists_view(anchors@),
            cv == node_lists_view(covers@),
            ov == nodes_view(own@),
            card_pairs(base@, av, cv, ov, k as int) == Ok::<Seq<(Seq<char>, Seq<char>)>, ()>(pairs_view(out@)),
        decreases n - k,
    {
        proof {
            assert(av[k as int] == nodes_view(anchors@[k as int]@));
            assert(cv[k as int] == nodes_view(covers@[k as int]@));
            assert(ov[k as int] == crate::scrape::node_view(own@[k as int]));
        }
        match first_manga_href_of(&anchors[k], true) {
            None => {},
            Some(h) => match to_absolute(base, h.as_str()) {
                Err(_) => {},
                Ok(a) => {
                    let style = style_attr(&own[k]);
                    match WebScraper::extract_image_url_from_element(&covers[k], &style) {
                        Err(_) => {
                            proof {
                                lemma_card_pairs_err(base@, av, cv, ov, k + 1, n as int);
                            }
                            return Err(());
                        },
                        Ok(None) => {},
                        Ok(Some(u)) => {
                            let c = abs_or_keep(base, u);
                            let ghost prev = out@;
                            out.push((a, c));
                            proof {
                                assert(pairs_view(out@) =~= pairs_view(prev).push((a@, c@)));
                            }
                        },
                    }
                },
            },
        }
        k = k + 1;
    }
    Ok(out)
}

/// The `(link, cover)` pair that one match of the raw-markup pattern yields: the link made
/// absolute (nothing when that fails) and the cover normalized, then made absolute or kept.
pub open spec fn capture_pair(base: Seq<char>, groups: Seq<Option<Seq<char>>>) -> Option<(Seq<char>, Seq<char>)> {
    if groups.len() >= 2 && groups[0] is Some && groups[1] is Some {
        match absolute_spec(base, groups[0]->0) {
            Err(_) => None,
            Ok(a) => Some((a, abs_or_self(base, normalize_spec(groups[1]->0)))),
        }
    } else {
        None
    }
}

/// The pairs that the first `k` matches yield.
pub open spec fn capture_pairs(base: Seq<char>, caps: Seq<Seq<Option<Seq<char>>>>, k: int) -> Seq<(Seq<char>, Seq<char>)>
    decreases k,
{
    if k <= 0 {
        Seq::empty()
    } else {
        match capture_pair(base, caps[k - 1]) {
            None => capture_pairs(base, caps, k - 1),
            Some(p) => capture_pairs(base, caps, k - 1).push(p),
        }
    }
}

/// The `(link, cover)` pairs that the matches of the raw-markup pattern yield.
pub fn collect_capture_pairs(base: &str, caps: &Vec<Vec<Option<String>>>) -> (r: Vec<(String, String)>)
    ensures
        pairs_view(r@) == capture_pairs(base@, crate::scrape::captures_view(caps@), caps@.len() as int),
{
    let ghost cv = crate::scrape::captures_view(caps@);
    let mut out: Vec<(String, String)> = Vec::new();
    let mut k: usize = 0;
    proof {
        assert(pairs_view(out@) =~= Seq::<(Seq<char>, Seq<char>)>::empty());
    }
    while k < caps.len()
        invariant
            k <= caps@.len(),
            cv == crate::scrape::captures_view(caps@),
            pairs_view(out@) == capture_pairs(base@, cv, k as int),
        decreases caps@.len() - k,
    {
        let g = &caps[k];
        proof {
            assert(cv[k as int] == g@.map_values(|x: Option<String>| opt_view(x)));
        }
        if g.len() >= 2 {
            match (&g[0], &g[1]) {
                (Some(h), Some(c)) => {
                    match to_absolute(base, h.as_str()) {
                        Err(_) => {},
                        Ok(a) => {
                            let cover = abs_or_keep(base, WebScraper::normalize_image_url(c.as_str()));
                            let ghost prev = out@;
                            out.push((a, cover));
                            proof {
                                assert(pairs_view(out@) =~= pairs_view(prev).push((a@, cover@)));
                            }
                        },
                    }
                },
                _ => {},
            }
        }
        k = k + 1;
    }
    out
}


// ---------------------------------------------------------------------------
// Results from anchors
// ---------------------------------------------------------------------------

/// How the results of one site are read from its anchors.
pub struct AnchorRules {
    /// The site's address, against which links are resolved.
    pub base: String,
    /// Links containing this text are skipped.
    pub skip: String,
    /// Whether an anchor without text takes its title from its `title` attribute.
    pub title_attr: bool,
    pub source_id: String,
    pub source_name: String,
    /// The search query, trimmed and lowercased; empty when there is none.
    pub query: Vec<char>,
    /// Covers by link, first recorded first.
    pub pairs: Vec<(String, String)>,
    /// The time stamp given to the results.
    pub now: String,
}

/// The value of anchor rules.
pub struct RulesView {
    pub base: Seq<char>,
    pub skip: Seq<char>,
    pub title_attr: bool,
    pub source_id: Seq<char>,
    pub source_name: Seq<char>,
    pub query: Seq<char>,
    pub pairs: Seq<(Seq<char>, Seq<char>)>,
    pub now: Seq<char>,
}

impl View for AnchorRules {
    type V = RulesView;

    open spec fn view(&self) -> RulesView {
        RulesView {
            base: self.base@,
            skip: self.skip@,
            title_attr: self.title_attr,
            source_id: self.source_id@,
            source_name: self.source_name@,
            query: self.query@,
            pairs: pairs_view(self.pairs@),
            now: self.now@,
        }
    }
}

/// The key that a search query is matched by: trimmed and lowercased.
pub open spec fn query_key(query: Seq<char>) -> Seq<char> {
    lowercase_of(trim_spec(query))
}

/// A title passes the query when there is no query or its lowercase form contains it.
pub open spec fn query_matches(q: Seq<char>, title: Seq<char>) -> bool {
    q.len() == 0 || contains_text(lowercase_of(title), q)
}

/// The ids of a list of results.
pub open spec fn ids_of(out: Seq<MangaView>) -> Seq<Seq<char>> {
    out.map_values(|m: MangaView| m.id)
}

/// The title that an anchor gives: its text, trimmed, or, when that is empty and the rules
/// allow it, its `title` attribute, trimmed.
pub open spec fn anchor_title(n: NodeV, title_attr: bool) -> Seq<char> {
    let t = trim_spec(n.0);
    if t.len() == 0 && title_attr {
        trim_spec(if n.1.len() > 1 && n.1[1] is Some { n.1[1]->0 } else { Seq::empty() })
    } else {
        t
    }
}

/// The results after one more anchor: a new result for a manga link not yet listed whose
/// title is non-empty and passes the query; an error when the link cannot be resolved.
pub open spec fn anchor_step(rules: RulesView, out: Seq<MangaView>, n: NodeV) -> Result<Seq<MangaView>, ScrapeErrorView> {
    let href = if n.1.len() > 0 { n.1[0] } else { None };
    match href {
        None => Ok(out),
        Some(h) => if contains_text(h, rules.skip) {
            Ok(out)
        } else {
            match absolute_spec(rules.base, h) {
                Err(e) => Err(ScrapeErrorView::Url(e)),
                Ok(abs) => {
                    let title = anchor_title(n, rules.title_attr);
                    if ids_of(out).contains(abs) || title.len() == 0 || !query_matches(rules.query, title) {
                        Ok(out)
                    } else {
                        Ok(out.push(web_manga_spec(abs, title, rules.source_id, rules.source_name,
                            cover_lookup(rules.pairs, abs), None, 0, rules.now)))
                    }
                },
            }
        },
    }
}

/// The results after the first `k` anchors, starting from `start`.
pub open spec fn anchors_fold(rules: RulesView, start: Seq<MangaView>, nodes: Seq<NodeV>, k: int) -> Result<
    Seq<MangaView>,
    ScrapeErrorView,
>
    decreases k,
{
    if k <= 0 {
        Ok(start)
    } else {
        match anchors_fold(rules, start, nodes, k - 1) {
            Err(e) => Err(e),
            Ok(out) => anchor_step(rules, out, nodes[k - 1]),
        }
    }
}

/// Once the fold fails, it stays failed.
pub proof fn lemma_anchors_fold_err(rules: RulesView, start: Seq<MangaView>, nodes: Seq<NodeV>, k: int, j: int)
    requires
        0 <= k <= j,
        anchors_fold(rules, start, nodes, k) is Err,
    ensures
        anchors_fold(rules, start, nodes, j) == anchors_fold(rules, start, nodes, k),
    decreases j - k,
{
    if j > k {
        lemma_anchors_fold_err(rules, start, nodes, k, j - 1);
    }
}

/// Whether a result with this id is listed.
pub fn has_id(out: &Vec<Manga>, id: &String) -> (r: bool)
    ensures
        r == ids_of(manga_views(out@)).contains(id@),
{
    let mut i: usize = 0;
    while i < out.len()
        invariant
            i <= out@.len(),
            forall|j: int| 0 <= j < i ==> out@[j].id@ != id@,
        decreases out@.len() - i,
    {
        if out[i].id == *id {
            proof {
                assert(ids_of(manga_views(out@))[i as int] == id@);
            }
            return true;
        }
        i = i + 1;
    }
    proof {
        assert forall|j: int| 0 <= j < ids_of(manga_views(out@)).len() implies ids_of(manga_views(out@))[j] != id@ by {
            assert(ids_of(manga_views(out@))[j] == out@[j].id@);
        }
    }
    false
}

/// The trimmed text of `s`, as a string.
fn trimmed(s: &str) -> (r: String)
    ensures
        r@ == trim_spec(s@),
{
    let v = chars_of(s);
    let (a, b) = trim_range(&v, 0, v.len());
    proof {
        assert(v@.subrange(0, v@.len() as int) =~= v@);
    }
    string_of(&slice_vec(&v, a, b))
}

/// The title that an anchor gives.
fn anchor_title_of(n: &Node, title_attr: bool) -> (r: String)
    ensures
        r@ == anchor_title(crate::scrape::node_view(*n), title_attr),
{
    let t = trimmed(n.text.as_str());
    if t.as_str().is_empty() && title_attr {
        let empty = String::new();
        if n.attrs.len() > 1 {
            match &n.attrs[1] {
                Some(v) => trimmed(v.as_str()),
                None => {
                    proof {
                        assert(trim_spec(Seq::<char>::empty()) =~= Seq::<char>::empty()) by {
                            reveal_with_fuel(crate::text::strip_lead, 1);
                        }
                    }
                    trimmed(empty.as_str())
                },
            }
        } else {
            trimmed(empty.as_str())
        }
    } else {
        t
    }
}

/// Whether a title passes the query.
fn passes_query(q: &Vec<char>, title: &String) -> (r: bool)
    ensures
        r == query_matches(q@, title@),
{
    if q.len() == 0 {
        return true;
    }
    let low = to_lowercase(title.as_str());
    contains(&chars_of(low.as_str()), q)
}

/// Adds the results that a list of anchors yields.
pub fn fold_anchors(rules: &AnchorRules, out: &mut Vec<Manga>, nodes: &Vec<Node>) -> (r: Result<(), ScrapeError>)
    ensures
        match r {
            Ok(_) => anchors_fold(rules@, manga_views(old(out)@), nodes_view(nodes@), nodes@.len() as int)
                == Ok::<Seq<MangaView>, ScrapeErrorView>(manga_views(final(out)@)),
            Err(e) => anchors_fold(rules@, manga_views(old(out)@), nodes_view(nodes@), nodes@.len() as int)
                == Err::<Seq<MangaView>, ScrapeErrorView>(e@),
        },
{
    let ghost start = manga_views(out@);
    let ghost nv = nodes_view(nodes@);
    let skip = chars_of(rules.skip.as_str());
    let mut k: usize = 0;
    while k < nodes.len()
        invariant
            k <= nodes@.len(),
            skip@ == rules.skip@,
            start == manga_views(old(out)@),
            nv == nodes_view(nodes@),
            anchors_fold(rules@, start, nv, k as int) == Ok::<Seq<MangaView>, ScrapeErrorView>(manga_views(out@)),
        decreases nodes@.len() - k,
    {
        let n = &nodes[k];
        proof {
            assert(nv[k as int] == crate::scrape::node_view(*n));
        }
        if n.attrs.len() > 0 {
            match &n.attrs[0] {
                None => {},
                Some(h) => {
                    if !contains(&chars_of(h.as_str()), &skip) {
                        match to_absolute(rules.base.as_str(), h.as_str()) {
                            Err(e) => {
                                proof {
                                    lemma_anchors_fold_err(rules@, start, nv, k + 1, nodes@.len() as int);
                                }
                                return Err(ScrapeError::Url(e));
                            },
                            Ok(abs) => {
                                let title = anchor_title_of(n, rules.title_attr);
                                if !has_id(out, &abs) && !title.as_str().is_empty() && passes_query(&rules.query, &title) {
                                    let cover = lookup_cover(&rules.pairs, &abs);
                                    let m = web_manga(abs, title, rules.source_id.as_str(), rules.source_name.as_str(),
                                        cover, None, 0, rules.now.clone());
                                    let ghost prev = manga_views(out@);
                                    out.push(m);
                                    proof {
                                        assert(manga_views(out@) =~= prev.push(m@));
                                    }
                                }
                            },
                        }
                    }
                },
            }
        }
        k = k + 1;
    }
    Ok(())
}

// ---------------------------------------------------------------------------
// Results from a MangaLivre series list
// ---------------------------------------------------------------------------

/// What was selected below each entry of a series list, entry by entry.
pub struct ListPage {
    /// The anchors (`a[href]`), read for `href` and `title`.
    pub anchors: Vec<Vec<Node>>,
    /// The title elements.
    pub titles: Vec<Vec<Node>>,
    /// The image elements, read for `image_keys`.
    pub covers: Vec<Vec<Node>>,
    /// The entries themselves, read for `style`.
    pub own: Vec<Node>,
    /// The description elements.
    pub descs: Vec<Vec<Node>>,
    /// The chapter-count elements.
    pub chapters: Vec<Vec<Node>>,
}

/// The value of a series list.
pub struct ListPageView {
    pub anchors: Seq<Seq<NodeV>>,
    pub titles: Seq<Seq<NodeV>>,
    pub covers: Seq<Seq<NodeV>>,
    pub own: Seq<NodeV>,
    pub descs: Seq<Seq<NodeV>>,
    pub chapters: Seq<Seq<NodeV>>,
}

impl View for ListPage {
    type V = ListPageView;

    open spec fn view(&self) -> ListPageView {
        ListPageView {
            anchors: node_lists_view(self.anchors@),
            titles: node_lists_view(self.titles@),
            covers: node_lists_view(self.covers@),
            own: nodes_view(self.own@),
            descs: node_lists_view(self.descs@),
            chapters: node_lists_view(self.chapters@),
        }
    }
}

/// The smaller of two lengths.
pub open spec fn min_len(a: int, b: int) -> int {
    if a <= b { a } else { b }
}

/// The number of entries: the shortest of the selections made of them.
pub open spec fn list_count(p: ListPageView) -> int {
    min_len(
        min_len(min_len(p.anchors.len() as int, p.titles.len() as int), min_len(p.covers.len() as int, p.own.len() as int)),
        min_len(p.descs.len() as int, p.chapters.len() as int),
    )
}

/// The title of an entry: the first title element's text, trimmed; when that is missing or
/// empty, the first anchor's `title` attribute, trimmed; else empty.
pub open spec fn item_title(anchors: Seq<NodeV>, titles: Seq<NodeV>) -> Seq<char> {
    let t = if titles.len() > 0 { trim_spec(titles[0].0) } else { Seq::<char>::empty() };
    if t.len() > 0 {
        t
    } else if anchors.len() > 0 && anchors[0].1.len() > 1 && anchors[0].1[1] is Some {
        trim_spec(anchors[0].1[1]->0)
    } else {
        Seq::empty()
    }
}

/// The synopsis of an entry: the first description's text with its whitespace collapsed
/// to single spaces (line breaks first turned into spaces); none when that is empty.
pub open spec fn item_synopsis(descs: Seq<NodeV>) -> Option<Seq<char>> {
    if descs.len() > 0 {
        let s = squash_spaces(replace_char_spec(descs[0].0, '\n', ' '));
        if s.len() > 0 { Some(s) } else { None }
    } else {
        None
    }
}

/// The chapter count of an entry: the ASCII digits of the first chapter element's text read
/// as an `i32`; zero when there are none or they do not fit.
pub open spec fn item_chapters(chapters: Seq<NodeV>) -> i32 {
    if chapters.len() > 0 {
        match parse_unsigned(digits_only(chapters[0].0), i32::MAX as nat) {
            Some(v) => v as i32,
            None => 0,
        }
    } else {
        0
    }
}

/// The cover of an entry: its own image URL made absolute (or kept), else the cover
/// recorded for its link; `Err` when slicing a style would panic.
pub open spec fn item_cover(
    covers: Seq<NodeV>,
    style: Option<Seq<char>>,
    pairs: Seq<(Seq<char>, Seq<char>)>,
    abs: Seq<char>,
) -> Result<Option<Seq<char>>, ()> {
    match element_image_spec(covers, style) {
        Err(_) => Err(()),
        Ok(Some(u)) => Ok(Some(abs_or_self(mangalivre_base(), u))),
        Ok(None) => Ok(cover_lookup(pairs, abs)),
    }
}

/// The results after entry `k` of a series list: an entry whose first manga link is not a
/// chapter link, not yet listed, and has a non-empty title passing the query is added.
pub open spec fn item_step(
    q: Seq<char>,
    pairs: Seq<(Seq<char>, Seq<char>)>,
    now: Seq<char>,
    out: Seq<MangaView>,
    p: ListPageView,
    k: int,
) -> Result<Seq<MangaView>, ScrapeErrorView> {
    match first_manga_href(p.anchors[k], false) {
        None => Ok(out),
        Some(h) => if contains_text(h, "/capitulo-"@) {
            Ok(out)
        } else {
            match absolute_spec(mangalivre_base(), h) {
                Err(e) => Err(ScrapeErrorView::Url(e)),
                Ok(abs) => {
                    let title = item_title(p.anchors[k], p.titles[k]);
                    if ids_of(out).contains(abs) || title.len() == 0 || !query_matches(q, title) {
                        Ok(out)
                    } else {
                        match item_cover(p.covers[k], style_of(p.own[k]), pairs, abs) {
                            Err(_) => Err(ScrapeErrorView::Aborted),
                            Ok(c) => Ok(out.push(web_manga_spec(abs, title, "mangalivre"@, "Manga Livre"@, c,
                                item_synopsis(p.descs[k]), item_chapters(p.chapters[k]), now))),
                        }
                    }
                },
            }
        },
    }
}

/// The results after the first `k` entries of a series list.
pub open spec fn items_fold(
    q: Seq<char>,
    pairs: Seq<(Seq<char>, Seq<char>)>,
    now: Seq<char>,
    start: Seq<MangaView>,
    p: ListPageView,
    k: int,
) -> Result<Seq<MangaView>, ScrapeErrorView>
    decreases k,
{
    if k <= 0 {
        Ok(start)
    } else {
        match items_fold(q, pairs, now, start, p, k - 1) {
            Err(e) => Err(e),
            Ok(out) => item_step(q, pairs, now, out, p, k - 1),
        }
    }
}

/// Once the entries fail, every longer prefix fails the same way.
pub proof fn lemma_items_fold_err(
    q: Seq<char>,
    pairs: Seq<(Seq<char>, Seq<char>)>,
    now: Seq<char>,
    start: Seq<MangaView>,
    p: ListPageView,
    k: int,
    j: int,
)
    requires
        0 <= k <= j,
        items_fold(q, pairs, now, start, p, k) is Err,
    ensures
        items_fold(q, pairs, now, start, p, j) == items_fold(q, pairs, now, start, p, k),
    decreases j - k,
{
    if j > k {
        lemma_items_fold_err(q, pairs, now, start, p, k, j - 1);
    }
}

/// The title of an entry.
fn item_title_of(anchors: &Vec<Node>, titles: &Vec<Node>) -> (r: String)
    ensures
        r@ == item_title(nodes_view(anchors@), nodes_view(titles@)),
{
    let empty = String::new();
    let t = if titles.len() > 0 {
        trimmed(titles[0].text.as_str())
    } else {
        proof {
            assert(trim_spec(Seq::<char>::empty()) =~= Seq::<char>::empty()) by {
                reveal_with_fuel(crate::text::strip_lead, 1);
            }
        }
        trimmed(empty.as_str())
    };
    if !t.as_str().is_empty() {
        return t;
    }
    if anchors.len() > 0 && anchors[0].attrs.len() > 1 {
        match &anchors[0].attrs[1] {
            Some(v) => {
                return trimmed(v.as_str());
            },
            None => {},
        }
    }
    empty
}

/// The synopsis of an entry.
fn item_synopsis_of(descs: &Vec<Node>) -> (r: Option<String>)
    ensures
        opt_view(r) == item_synopsis(nodes_view(descs@)),
{
    if descs.len() > 0 {
        let s = squash_whitespace(&replace_char(&chars_of(descs[0].text.as_str()), '\n', ' '));
        if s.len() > 0 {
            Some(string_of(&s))
        } else {
            None
        }
    } else {
        None
    }
}

/// The chapter count of an entry.
fn item_chapters_of(chapters: &Vec<Node>) -> (r: i32)
    ensures
        r == item_chapters(nodes_view(chapters@)),
{
    if chapters.len() > 0 {
        let d = keep_digits(&chars_of(chapters[0].text.as_str()));
        match parse_decimal(&d, 0, d.len(), 2147483647) {
            Some(v) => {
                proof {
                    assert(d@.subrange(0, d@.len() as int) =~= d@);
                }
                v as i32
            },
            None => {
                proof {
                    assert(d@.subrange(0, d@.len() as int) =~= d@);
                }
                0
            },
        }
    } else {
        0
    }
}

/// Adds the results that the entries of a MangaLivre series list yield.
pub fn fold_list_items(
    q: &Vec<char>,
    pairs: &Vec<(String, String)>,
    now: &String,
    out: &mut Vec<Manga>,
    page: &ListPage,
) -> (r: Result<(), ScrapeError>)
    ensures
        match r {
            Ok(_) => items_fold(q@, pairs_view(pairs@), now@, manga_views(old(out)@), page@, list_count(page@))
                == Ok::<Seq<MangaView>, ScrapeErrorView>(manga_views(final(out)@)),
            Err(e) => items_fold(q@, pairs_view(pairs@), now@, manga_views(old(out)@), page@, list_count(page@))
                == Err::<Seq<MangaView>, ScrapeErrorView>(e@),
        },
{
    let ghost start = manga_views(out@);
    let ghost pv = page@;
    let mut n = page.anchors.len();
    if page.titles.len() < n { n = page.titles.len(); }
    if page.covers.len() < n { n = page.covers.len(); }
    if page.own.len() < n { n = page.own.len(); }
    if page.descs.len() < n { n = page.descs.len(); }
    if page.chapters.len() < n { n = page.chapters.len(); }
    let chapter = chars_of("/capitulo-");
    let mut k: usize = 0;
    while k < n
        invariant
            k <= n,
            n as int == list_count(pv),
            n <= page.anchors@.len(),
            n <= page.titles@.len(),
            n <= page.covers@.len(),
            n <= page.own@.len(),
            n <= page.descs@.len(),
            n <= page.chapters@.len(),
            pv == page@,
            chapter@ == "/capitulo-"@,
            start == manga_views(old(out)@),
            items_fold(q@, pairs_view(pairs@), now@, start, pv, k as int) == Ok::<Seq<MangaView>, ScrapeErrorView>(
                manga_views(out@),
            ),
        decreases n - k,
    {
        proof {
            assert(pv.anchors[k as int] == nodes_view(page.anchors@[k as int]@));
            assert(pv.titles[k as int] == nodes_view(page.titles@[k as int]@));
            assert(pv.covers[k as int] == nodes_view(page.covers@[k as int]@));
            assert(pv.own[k as int] == crate::scrape::node_view(page.own@[k as int]));
            assert(pv.descs[k as int] == nodes_view(page.descs@[k as int]@));
            assert(pv.chapters[k as int] == nodes_view(page.chapters@[k as int]@));
        }
        match first_manga_href_of(&page.anchors[k], false) {
            None => {},
            Some(h) => {
                if !contains(&chars_of(h.as_str()), &chapter) {
                    match WebScraper::to_abs_mangalivre(h.as_str()) {
                        Err(e) => {
                            proof {
                                lemma_items_fold_err(q@, pairs_view(pairs@), now@, start, pv, k + 1, n as int);
                            }
                            return Err(ScrapeError::Url(e));
                        },
                        Ok(abs) => {
                            let title = item_title_of(&page.anchors[k], &page.titles[k]);
                            if !has_id(out, &abs) && !title.as_str().is_empty() && passes_query(q, &title) {
                                let style = style_attr(&page.own[k]);
                                let own_cover = WebScraper::extract_image_url_from_element(&page.covers[k], &style);
                                let cover = match own_cover {
                                    Err(_) => {
                                        proof {
                                            lemma_items_fold_err(q@, pairs_view(pairs@), now@, start, pv, k + 1, n as int);
                                        }
                                        return Err(ScrapeError::Aborted);
                                    },
                                    Ok(Some(u)) => Some(abs_or_keep("https://mangalivre.tv", u)),
                                    Ok(None) => lookup_cover(pairs, &abs),
                                };
                                let synopsis = item_synopsis_of(&page.descs[k]);
                                let total = item_chapters_of(&page.chapters[k]);
                                let m = web_manga(abs, title, "mangalivre", "Manga Livre", cover, synopsis, total,
                                    now.clone());
                                let ghost prev = manga_views(out@);
                                out.push(m);
                                proof {
                                    assert(manga_views(out@) =~= prev.push(m@));
                                }
                            }
                        },
                    }
                }
            },
        }
        k = k + 1;
    }
    Ok(())
}

} // verus!
