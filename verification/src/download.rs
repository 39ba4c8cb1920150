use vstd::prelude::*;
use crate::chapters::{min_int, parse_index_or};
use crate::text::{
    CharClass, decimal, ends_with, has_suffix, is_digit, join2, lemma_split_nonempty, padded_decimal,
    same_chars, string_of_range, zero_pad, class_pred, find_first, find_text, last_piece, last_word_range, lemma_find_from, owned,
    parse_decimal, parse_unsigned, to_lowercase, ws,
    chars_of, concat, contains, contains_text, has_prefix, insert_sorted_unique, lowercase_of,
    lowercase_range, one_of, replace_non_alnum, slice_vec, split_by, split_ranges, string_of,
    strings_of, strip_both, strip_prefix_all, strip_prefix_repeated, strip_range, strip_trail,
    strip_trail_range, starts_with, strictly_sorted, string_views, trim_range, trim_spec,
    underscore_non_alnum, unescape, unescape_slashes, views,
};

verus! {

// ---------------------------------------------------------------------------
// Folder names
// ---------------------------------------------------------------------------

/// The last non-empty piece of a list of pieces.
pub open spec fn last_nonempty(ps: Seq<Seq<char>>) -> Option<Seq<char>>
    decreases ps.len(),
{
    if ps.len() == 0 {
        None
    } else if ps.last().len() > 0 {
        Some(ps.last())
    } else {
        last_nonempty(ps.drop_last())
    }
}

/// The folder name derived from a manga URL: its last non-empty path segment (trailing
/// slashes ignored) with every non-alphanumeric character replaced by `_`; `fallback` when
/// there is no such segment or the result is empty.
pub open spec fn slug_spec(url: Seq<char>, fallback: Seq<char>) -> Seq<char> {
    let trimmed = strip_trail(url, one_of(seq!['/']));
    let seg = match last_nonempty(split_by(trimmed, one_of(seq!['/']))) {
        Some(s) => s,
        None => fallback,
    };
    let slug = underscore_non_alnum(seg);
    if slug.len() == 0 { fallback } else { slug }
}

/// The per-manga folder name for a download URL.
pub fn slug_from_url(url: &str, fallback: &str) -> (r: String)
    ensures
        r@ == slug_spec(url@, fallback@),
{
    let u = chars_of(url);
    let slash: Vec<char> = vec!['/'];
    proof {
        assert(slash@ =~= seq!['/']);
    }
    let end = strip_trail_range(&u, 0, u.len(), &slash);
    let trimmed = slice_vec(&u, 0, end);
    proof {
        assert(u@.subrange(0, u@.len() as int) =~= u@);
    }
    let ranges = split_ranges(&trimmed, &slash);
    let ghost pieces = split_by(trimmed@, one_of(slash@));
    let mut k = ranges.len();
    proof {
        assert(pieces.take(k as int) =~= pieces);
    }
    while k > 0 && ranges[k - 1].0 == ranges[k - 1].1
        invariant
            k <= ranges@.len(),
            ranges@.len() == pieces.len(),
            forall|j: int| 0 <= j < ranges@.len() ==> {
                &&& (#[trigger] ranges@[j]).0 <= ranges@[j].1 <= trimmed@.len()
                &&& trimmed@.subrange(ranges@[j].0 as int, ranges@[j].1 as int) == pieces[j]
            },
            last_nonempty(pieces) == last_nonempty(pieces.take(k as int)),
        decreases k,
    {
        proof {
            assert(pieces.take(k as int).drop_last() =~= pieces.take(k - 1));
            assert(pieces.take(k as int).last() == pieces[k - 1]);
        }
        k = k - 1;
    }
    let seg = if k == 0 {
        proof {
            assert(pieces.take(0) =~= Seq::<Seq<char>>::empty());
        }
        chars_of(fallback)
    } else {
        proof {
            assert(pieces.take(k as int).last() == pieces[k - 1]);
        }
        slice_vec(&trimmed, ranges[k - 1].0, ranges[k - 1].1)
    };
    let slug = replace_non_alnum(&seg, 0, seg.len());
    proof {
        assert(seg@.subrange(0, seg@.len() as int) =~= seg@);
    }
    if slug.len() == 0 {
        string_of(&chars_of(fallback))
    } else {
        string_of(&slug)
    }
}

// ---------------------------------------------------------------------------
// Anti-bot pages and mirrors
// ---------------------------------------------------------------------------

/// The text of a page that an anti-bot service served in place of the content:
/// its lowercase form contains one of the known markers.
pub open spec fn looks_blocked(text: Seq<char>) -> bool {
    let low = lowercase_of(text);
    ||| contains_text(low, "sorry, you have been blocked"@)
    ||| contains_text(low, "attention required"@)
    ||| contains_text(low, "cloudflare"@)
    ||| contains_text(low, "cf-challenge"@)
    ||| contains_text(low, "/cdn-cgi/"@)
}

/// Whether a fetched page is an anti-bot block page rather than content.
pub fn text_looks_like_block_page(raw: &str) -> (r: bool)
    ensures
        r == looks_blocked(raw@),
{
    let low = lowercase_range(&chars_of(raw), 0, raw.unicode_len());
    proof {
        assert(raw@.subrange(0, raw@.len() as int) =~= raw@);
    }
    contains(&low, &chars_of("sorry, you have been blocked"))
        || contains(&low, &chars_of("attention required"))
        || contains(&low, &chars_of("cloudflare"))
        || contains(&low, &chars_of("cf-challenge"))
        || contains(&low, &chars_of("/cdn-cgi/"))
}

/// The mirror address that renders `url` through r.jina.ai: the URL without its leading
/// `https://` prefixes, then without its leading `http://` prefixes, behind
/// `https://r.jina.ai/http://`.
pub open spec fn mirror_spec(url: Seq<char>) -> Seq<char> {
    "https://r.jina.ai/http://"@ + strip_prefix_all(strip_prefix_all(url, "https://"@), "http://"@)
}

/// The mirror address used when a page answers 403.
pub fn manga_mirror_url(url: &str) -> (r: String)
    ensures
        r@ == mirror_spec(url@),
{
    let u = chars_of(url);
    let a = strip_prefix_repeated(&u, &chars_of("https://"));
    let b = strip_prefix_repeated(&a, &chars_of("http://"));
    string_of(&concat(&chars_of("https://r.jina.ai/http://"), &b))
}


// ---------------------------------------------------------------------------
// URLs embedded in page text and scripts
// ---------------------------------------------------------------------------

/// The characters that separate candidate URLs in page text.
pub open spec fn url_delimiters() -> Seq<char> {
    seq!['"', '\'', ' ', '\n', '\r', '\t', '<', '>', '(', ')', ',']
}

/// The characters stripped from both ends of a candidate URL.
pub open spec fn bracket_chars() -> Seq<char> {
    seq![']', '[', ';']
}

/// The pieces of a page's text between URL delimiters, after unescaping `\/`.
pub open spec fn text_pieces(raw: Seq<char>) -> Seq<Seq<char>> {
    split_by(unescape_slashes(raw), one_of(url_delimiters()))
}

/// A lowercase candidate that looks like an absolute or rooted URL.
pub open spec fn url_like(low: Seq<char>) -> bool {
    has_prefix(low, "http://"@) || has_prefix(low, "https://"@) || has_prefix(low, "//"@) || has_prefix(low, "/"@)
}

/// The image URL that one piece of text yields, if any: the trimmed piece must mention
/// an image extension and look like a URL; brackets and semicolons are then stripped.
pub open spec fn image_token(piece: Seq<char>) -> Option<Seq<char>> {
    let t = trim_spec(piece);
    let low = lowercase_of(t);
    if (contains_text(low, ".jpg"@) || contains_text(low, ".jpeg"@) || contains_text(low, ".png"@)
        || contains_text(low, ".webp"@)) && url_like(low) {
        Some(strip_both(t, one_of(bracket_chars())))
    } else {
        None
    }
}

/// The chapter URL that one piece of text yields, if any: the piece trimmed and stripped
/// of brackets and semicolons must look like a URL and contain `/capitulo-`.
pub open spec fn chapter_token(piece: Seq<char>) -> Option<Seq<char>> {
    let t = strip_both(trim_spec(piece), one_of(bracket_chars()));
    let low = lowercase_of(t);
    if url_like(low) && contains_text(low, "/capitulo-"@) {
        Some(t)
    } else {
        None
    }
}

/// The values that a token function yields on some piece.
pub open spec fn yielded(pieces: Seq<Seq<char>>, f: spec_fn(Seq<char>) -> Option<Seq<char>>) -> Set<Seq<char>> {
    Set::new(|x: Seq<char>| exists|k: int| 0 <= k < pieces.len() && #[trigger] f(pieces[k]) == Some(x))
}

/// The image URLs yielded by the first `k` pieces.
pub open spec fn yielded_upto(pieces: Seq<Seq<char>>, f: spec_fn(Seq<char>) -> Option<Seq<char>>, k: int) -> Set<Seq<char>> {
    Set::new(|x: Seq<char>| exists|j: int| 0 <= j < k && #[trigger] f(pieces[j]) == Some(x))
}

/// The candidate delimiters, as characters.
fn delimiters() -> (r: Vec<char>)
    ensures
        r@ == url_delimiters(),
{
    let r = vec!['"', '\'', ' ', '\n', '\r', '\t', '<', '>', '(', ')', ','];
    proof {
        assert(r@ =~= url_delimiters());
    }
    r
}

/// The characters stripped from candidates, as characters.
fn brackets() -> (r: Vec<char>)
    ensures
        r@ == bracket_chars(),
{
    let r = vec![']', '[', ';'];
    proof {
        assert(r@ =~= bracket_chars());
    }
    r
}

/// Whether a lowercase candidate looks like an absolute or rooted URL.
fn is_url_like(low: &Vec<char>) -> (r: bool)
    ensures
        r == url_like(low@),
{
    starts_with(low, &chars_of("http://")) || starts_with(low, &chars_of("https://"))
        || starts_with(low, &chars_of("//")) || starts_with(low, &chars_of("/"))
}

/// Evaluates `image_token` (when `images`) or `chapter_token` on `v[lo..hi]`.
fn token_at(v: &Vec<char>, lo: usize, hi: usize, images: bool) -> (r: Option<Vec<char>>)
    requires
        lo <= hi <= v@.len(),
    ensures
        match r {
            Some(x) => (if images { image_token(v@.subrange(lo as int, hi as int)) } else {
                chapter_token(v@.subrange(lo as int, hi as int))
            }) == Some(x@),
            None => (if images { image_token(v@.subrange(lo as int, hi as int)) } else {
                chapter_token(v@.subrange(lo as int, hi as int))
            }) is None,
        },
{
    let ghost piece = v@.subrange(lo as int, hi as int);
    let (a, b) = trim_range(v, lo, hi);
    let br = CharClass::AnyOf(brackets());
    if images {
        let low = lowercase_range(v, a, b);
        let ext = contains(&low, &chars_of(".jpg")) || contains(&low, &chars_of(".jpeg"))
            || contains(&low, &chars_of(".png")) || contains(&low, &chars_of(".webp"));
        if ext && is_url_like(&low) {
            let (c, d) = strip_range(v, a, b, &br);
            Some(slice_vec(v, c, d))
        } else {
            None
        }
    } else {
        let (c, d) = strip_range(v, a, b, &br);
        proof {
            assert(v@.subrange(c as int, d as int) == strip_both(trim_spec(piece), one_of(bracket_chars())));
        }
        let low = lowercase_range(v, c, d);
        if is_url_like(&low) && contains(&low, &chars_of("/capitulo-")) {
            Some(slice_vec(v, c, d))
        } else {
            None
        }
    }
}

/// The distinct tokens that the pieces of a page's text yield, in sorted order.
fn collect_tokens(raw: &str, images: bool) -> (r: Vec<String>)
    ensures
        strictly_sorted(string_views(r@)),
        string_views(r@).to_set() == yielded(
            text_pieces(raw@),
            if images { |p: Seq<char>| image_token(p) } else { |p: Seq<char>| chapter_token(p) },
        ),
{
    let ghost f = if images { |p: Seq<char>| image_token(p) } else { |p: Seq<char>| chapter_token(p) };
    let normalized = unescape(&chars_of(raw));
    let delims = delimiters();
    let ranges = split_ranges(&normalized, &delims);
    let ghost pieces = text_pieces(raw@);
    let mut out: Vec<Vec<char>> = Vec::new();
    let mut k: usize = 0;
    proof {
        assert(views(out@).to_set() =~= yielded_upto(pieces, f, 0));
    }
    while k < ranges.len()
        invariant
            k <= ranges@.len(),
            ranges@.len() == pieces.len(),
            pieces == text_pieces(raw@),
            f == (if images { |p: Seq<char>| image_token(p) } else { |p: Seq<char>| chapter_token(p) }),
            forall|j: int| 0 <= j < ranges@.len() ==> {
                &&& (#[trigger] ranges@[j]).0 <= ranges@[j].1 <= normalized@.len()
                &&& normalized@.subrange(ranges@[j].0 as int, ranges@[j].1 as int) == pieces[j]
            },
            strictly_sorted(views(out@)),
            views(out@).to_set() == yielded_upto(pieces, f, k as int),
        decreases ranges@.len() - k,
    {
        let (lo, hi) = ranges[k];
        let tok = token_at(&normalized, lo, hi, images);
        proof {
            assert(normalized@.subrange(lo as int, hi as int) == pieces[k as int]);
        }
        match tok {
            Some(x) => {
                let ghost xv = x@;
                insert_sorted_unique(&mut out, x);
                proof {
                    assert(f(pieces[k as int]) == Some(xv));
                    assert(views(out@).to_set() =~= yielded_upto(pieces, f, k + 1)) by {
                        assert forall|y: Seq<char>| yielded_upto(pieces, f, k + 1).contains(y) implies
                            views(out@).to_set().contains(y) by {
                            let j = choose|j: int| 0 <= j < k + 1 && #[trigger] f(pieces[j]) == Some(y);
                            if j < k {
                                assert(yielded_upto(pieces, f, k as int).contains(y));
                            }
                        }
                        assert forall|y: Seq<char>| views(out@).to_set().contains(y) implies
                            yielded_upto(pieces, f, k + 1).contains(y) by {
                            if y != xv {
                                assert(yielded_upto(pieces, f, k as int).contains(y));
                                let j = choose|j: int| 0 <= j < k && #[trigger] f(pieces[j]) == Some(y);
                                assert(0 <= j < k + 1 && f(pieces[j]) == Some(y));
                            } else {
                                assert(f(pieces[k as int]) == Some(y));
                            }
                        }
                    }
                }
            },
            None => {
                proof {
                    assert(f(pieces[k as int]) is None);
                    assert(views(out@).to_set() =~= yielded_upto(pieces, f, k + 1)) by {
                        assert forall|y: Seq<char>| yielded_upto(pieces, f, k + 1).contains(y) implies
                            yielded_upto(pieces, f, k as int).contains(y) by {
                            let j = choose|j: int| 0 <= j < k + 1 && #[trigger] f(pieces[j]) == Some(y);
                            assert(j != k);
                        }
                        assert forall|y: Seq<char>| yielded_upto(pieces, f, k as int).contains(y) implies
                            yielded_upto(pieces, f, k + 1).contains(y) by {
                            let j = choose|j: int| 0 <= j < k && #[trigger] f(pieces[j]) == Some(y);
                            assert(0 <= j < k + 1 && f(pieces[j]) == Some(y));
                        }
                    }
                }
            },
        }
        k = k + 1;
    }
    proof {
        assert(yielded_upto(pieces, f, pieces.len() as int) =~= yielded(pieces, f));
    }
    strings_of(&out)
}

/// The image URLs embedded in a page's text or scripts, sorted and without repeats.
pub fn extract_image_urls_from_text(raw: &str) -> (r: Vec<String>)
    ensures
        strictly_sorted(string_views(r@)),
        string_views(r@).to_set() == yielded(text_pieces(raw@), |p: Seq<char>| image_token(p)),
{
    collect_tokens(raw, true)
}

/// The chapter URLs embedded in a page's text or scripts, sorted and without repeats.
pub fn extract_chapter_urls_from_text(raw: &str) -> (r: Vec<String>)
    ensures
        strictly_sorted(string_views(r@)),
        string_views(r@).to_set() == yielded(text_pieces(raw@), |p: Seq<char>| chapter_token(p)),
{
    collect_tokens(raw, false)
}


// ---------------------------------------------------------------------------
// Decisions of the download runner
// ---------------------------------------------------------------------------

/// The downloaders built into the application, used when the external tool cannot serve
/// a source.
pub enum InternalSource {
    Niadd,
    MangaLivre,
}

/// Which internal downloader to use when the external tool's source list (`probe`, its
/// `--sources` output) lacks the source of `url`.
pub open spec fn probe_fallback_spec(url: Seq<char>, probe: Seq<char>) -> Option<InternalSource> {
    let u = lowercase_of(url);
    let o = lowercase_of(probe);
    if contains_text(u, "niadd"@) && !contains_text(o, "niadd"@) {
        Some(InternalSource::Niadd)
    } else if contains_text(u, "mangalivre"@) && !contains_text(o, "mangalivre"@) {
        Some(InternalSource::MangaLivre)
    } else {
        None
    }
}

/// Lowercases a string slice into characters.
fn lower_chars(s: &str) -> (r: Vec<char>)
    ensures
        r@ == lowercase_of(s@),
{
    let low = to_lowercase(s);
    chars_of(low.as_str())
}

/// Decides, from the external tool's list of sources, whether an internal downloader must
/// serve `url` instead.
pub fn probe_fallback(url: &str, probe: &str) -> (r: Option<InternalSource>)
    ensures
        r == probe_fallback_spec(url@, probe@),
{
    let u = lower_chars(url);
    let o = lower_chars(probe);
    let niadd = chars_of("niadd");
    let ml = chars_of("mangalivre");
    if contains(&u, &niadd) && !contains(&o, &niadd) {
        Some(InternalSource::Niadd)
    } else if contains(&u, &ml) && !contains(&o, &ml) {
        Some(InternalSource::MangaLivre)
    } else {
        None
    }
}

/// The internal downloader that can stand in for the external tool on `url`, if any:
/// MangaLivre URLs go to the MangaLivre downloader, other Niadd URLs to the Niadd one.
pub open spec fn fallback_source_spec(url: Seq<char>) -> Option<InternalSource> {
    let u = lowercase_of(url);
    if contains_text(u, "mangalivre"@) {
        Some(InternalSource::MangaLivre)
    } else if contains_text(u, "niadd"@) {
        Some(InternalSource::Niadd)
    } else {
        None
    }
}

/// The internal downloader that can stand in for the external tool on `url`.
pub fn fallback_source(url: &str) -> (r: Option<InternalSource>)
    ensures
        r == fallback_source_spec(url@),
{
    let u = lower_chars(url);
    if contains(&u, &chars_of("mangalivre")) {
        Some(InternalSource::MangaLivre)
    } else if contains(&u, &chars_of("niadd")) {
        Some(InternalSource::Niadd)
    } else {
        None
    }
}

/// After the external tool ends, whether its output is unusable: it failed, or it wrote
/// nothing new.
pub fn run_needs_fallback(exit_ok: bool, no_recent_output: bool) -> (r: bool)
    ensures
        r == (!exit_ok || no_recent_output),
{
    !exit_ok || no_recent_output
}

/// The final status of a download.
pub fn final_status(ok: bool) -> (r: String)
    ensures
        ok ==> r@ == "completed"@,
        !ok ==> r@ == "failed"@,
{
    if ok { owned("completed") } else { owned("failed") }
}

/// The command-line arguments of the external downloader: options first, URL last.
pub fn kotatsu_args(jar: &str, dest: &str, format: &str, chapters: &str, url: &str) -> (r: Vec<String>)
    ensures
        string_views(r@) == seq!["-jar"@, jar@, "--dest"@, dest@, "--format"@, format@, "--chapters"@, chapters@, url@],
{
    let mut r: Vec<String> = Vec::new();
    r.push(owned("-jar"));
    r.push(owned(jar));
    r.push(owned("--dest"));
    r.push(owned(dest));
    r.push(owned("--format"));
    r.push(owned(format));
    r.push(owned("--chapters"));
    r.push(owned(chapters));
    r.push(owned(url));
    proof {
        assert(string_views(r@) =~= seq!["-jar"@, jar@, "--dest"@, dest@, "--format"@, format@, "--chapters"@, chapters@, url@]);
    }
    r
}

/// The progress that a line of the external tool's output reports: the last word before
/// the first `%`, stripped of non-numeric characters, read as a `u8` and capped at 100.
pub open spec fn line_progress(line: Seq<char>) -> Option<u8> {
    match find_text(line, seq!['%']) {
        None => None,
        Some(p) => match last_piece(split_by(line.take(p), ws())) {
            None => None,
            Some(word) => match parse_unsigned(strip_both(trim_spec(word), class_pred(CharClass::NonNumeric)), 255) {
                None => None,
                Some(v) => Some(if v > 100 { 100u8 } else { v as u8 }),
            },
        },
    }
}

/// Reads the progress percentage that a line of the external tool's output reports.
pub fn progress_from_line(line: &str) -> (r: Option<u8>)
    ensures
        r == line_progress(line@),
{
    let v = chars_of(line);
    let pct: Vec<char> = vec!['%'];
    proof {
        assert(pct@ =~= seq!['%']);
    }
    match find_first(&v, &pct) {
        None => None,
        Some(p) => {
            proof {
                lemma_find_from(v@, pct@, 0);
                assert(v@.subrange(0, p as int) == v@.take(p as int));
            }
            match last_word_range(&v, 0, p) {
                None => None,
                Some((a, b)) => {
                    let (c, d) = trim_range(&v, a, b);
                    let (e, f) = strip_range(&v, c, d, &CharClass::NonNumeric);
                    proof {
                        assert(v@.subrange(a as int, b as int).subrange(c - a, d - a) == v@.subrange(c as int, d as int));
                        assert(v@.subrange(c as int, d as int).subrange(e - c, f - c) == v@.subrange(e as int, f as int));
                    }
                    match parse_decimal(&v, e, f, 255) {
                        None => None,
                        Some(x) => Some(if x > 100 { 100u8 } else { x as u8 }),
                    }
                },
            }
        },
    }
}

/// A line of the external tool's error output that shows it cannot parse the source.
pub open spec fn reports_dummy_parser(line: Seq<char>) -> bool {
    let low = lowercase_of(line);
    contains_text(low, "parser dummy"@) || contains_text(low, "cannot be instantiated"@)
}

/// Whether an error line of the external tool shows that it cannot parse the source.
pub fn stderr_reports_dummy_parser(line: &str) -> (r: bool)
    ensures
        r == reports_dummy_parser(line@),
{
    let low = lower_chars(line);
    contains(&low, &chars_of("parser dummy")) || contains(&low, &chars_of("cannot be instantiated"))
}


// ---------------------------------------------------------------------------
// Chapter choice of the Niadd downloader
// ---------------------------------------------------------------------------

/// A Niadd request for every chapter: empty or exactly `all` once trimmed.
pub open spec fn niadd_requests_all(chapters: Seq<char>) -> bool {
    let t = trim_spec(chapters);
    t.len() == 0 || t == "all"@
}

/// The first token of a chapter request, trimmed.
pub open spec fn first_token(chapters: Seq<char>) -> Seq<char> {
    trim_spec(split_by(chapters, one_of(seq![',', ';']))[0])
}

/// The link to use for chapter number `n` among `n_links` links: the `n`-th, or the first
/// when there is no such link.
pub open spec fn link_for(n: int, n_links: int) -> int {
    let i = if n >= 1 { n - 1 } else { 0 };
    if i < n_links { i } else { 0 }
}

/// The Niadd downloader fetches one chapter: the `(link index, chapter number)` that a
/// request selects among `n_links` chapter links; `None` when every chapter is requested
/// and there is no link.
pub open spec fn niadd_choice(chapters: Seq<char>, n_links: int) -> Option<(int, int)> {
    if niadd_requests_all(chapters) {
        if n_links > 0 { Some((0, 1)) } else { None }
    } else {
        let t = first_token(chapters);
        match find_text(t, seq!['-']) {
            Some(k) => {
                let n = parse_index_or(t.take(k), 1);
                Some((link_for(n, n_links), n))
            },
            None => match parse_unsigned(t, usize::MAX as nat) {
                Some(n) => Some((link_for(n as int, n_links), n as int)),
                None => Some((0, 1)),
            },
        }
    }
}

/// The link index for chapter number `n`.
pub fn pick_chapter_link(n: usize, n_links: usize) -> (r: usize)
    ensures
        r as int == link_for(n as int, n_links as int),
{
    let i = if n >= 1 { n - 1 } else { 0 };
    if i < n_links { i } else { 0 }
}

/// Which chapter link the Niadd downloader fetches, and under which chapter number.
/// An explicit request needs as many links as the chapter it names; the downloader
/// cannot go on without them, so such input is outside this function.
pub fn select_niadd_chapter(chapters: &str, n_links: usize) -> (r: Option<(usize, usize)>)
    requires
        !niadd_requests_all(chapters@) ==> n_links > 0,
    ensures
        match r {
            Some((i, n)) => niadd_choice(chapters@, n_links as int) == Some((i as int, n as int)),
            None => niadd_choice(chapters@, n_links as int) is None,
        },
{
    let v = chars_of(chapters);
    let (a, b) = trim_range(&v, 0, v.len());
    proof {
        assert(v@.subrange(0, v@.len() as int) =~= v@);
    }
    let word_all = chars_of("all");
    let t_all = slice_vec(&v, a, b);
    if a == b || same_chars(&t_all, &word_all) {
        if n_links > 0 {
            return Some((0, 1));
        }
        return None;
    }
    let seps: Vec<char> = vec![',', ';'];
    proof {
        assert(seps@ =~= seq![',', ';']);
    }
    let ranges = split_ranges(&v, &seps);
    proof {
        lemma_split_nonempty(v@, one_of(seps@));
    }
    let (lo, hi) = ranges[0];
    let (c, d) = trim_range(&v, lo, hi);
    let t = slice_vec(&v, c, d);
    let dash: Vec<char> = vec!['-'];
    proof {
        assert(dash@ =~= seq!['-']);
        assert(t@ == first_token(chapters@));
    }
    match find_first(&t, &dash) {
        Some(k) => {
            proof {
                lemma_find_from(t@, dash@, 0);
            }
            let n = parse_index_or_default_at(&t, 0, k, 1);
            proof {
                assert(t@.subrange(0, k as int) == t@.take(k as int));
            }
            Some((pick_chapter_link(n, n_links), n))
        },
        None => {
            proof {
                assert(t@.subrange(0, t@.len() as int) == t@);
            }
            match parse_decimal(&t, 0, t.len(), usize::MAX as u64) {
                Some(n) => Some((pick_chapter_link(n as usize, n_links), n as usize)),
                None => Some((0, 1)),
            }
        },
    }
}

/// `s[lo..hi]` trimmed and read as a `usize`, or `default`.
fn parse_index_or_default_at(s: &Vec<char>, lo: usize, hi: usize, default: usize) -> (r: usize)
    requires
        lo <= hi <= s@.len(),
    ensures
        r as int == parse_index_or(s@.subrange(lo as int, hi as int), default as int),
{
    let (a, b) = trim_range(s, lo, hi);
    proof {
        assert(s@.subrange(lo as int, hi as int).subrange((a - lo) as int, (b - lo) as int)
            == s@.subrange(a as int, b as int));
    }
    match parse_decimal(s, a, b, usize::MAX as u64) {
        Some(v) => v as usize,
        None => default,
    }
}

// ---------------------------------------------------------------------------
// Page images
// ---------------------------------------------------------------------------

/// The elements of `s` that satisfy `f`, in order.
pub open spec fn keep(s: Seq<Seq<char>>, f: spec_fn(Seq<char>) -> bool) -> Seq<Seq<char>>
    decreases s.len(),
{
    if s.len() == 0 {
        s
    } else if f(s.last()) {
        keep(s.drop_last(), f).push(s.last())
    } else {
        keep(s.drop_last(), f)
    }
}

/// An image URL from a Niadd chapter page that looks like a page, not a logo or avatar.
pub open spec fn niadd_page_image(u: Seq<char>) -> bool {
    let low = lowercase_of(u);
    (has_suffix(low, ".jpg"@) || has_suffix(low, ".jpeg"@) || has_suffix(low, ".png"@) || has_suffix(low, ".webp"@))
        && !contains_text(low, "brand"@) && !contains_text(low, "logo"@) && !contains_text(low, "avatar"@)
        && !contains_text(low, "favicon"@)
}

/// An image URL from a MangaLivre chapter page that looks like a page.
pub open spec fn mangalivre_page_image(u: Seq<char>) -> bool {
    let low = lowercase_of(u);
    (has_suffix(low, ".jpg"@) || has_suffix(low, ".jpeg"@) || has_suffix(low, ".png"@) || has_suffix(low, ".webp"@)
        || contains_text(low, ".jpg?"@) || contains_text(low, ".png?"@) || contains_text(low, ".webp?"@))
        && !has_prefix(low, "data:"@) && !contains_text(low, "logo"@) && !contains_text(low, "avatar"@)
        && !contains_text(low, "favicon"@)
}

/// Evaluates `niadd_page_image` (when `niadd`) or `mangalivre_page_image`.
fn is_page_image(u: &String, niadd: bool) -> (r: bool)
    ensures
        r == (if niadd { niadd_page_image(u@) } else { mangalivre_page_image(u@) }),
{
    let low = lower_chars(u.as_str());
    let ext = ends_with(&low, &chars_of(".jpg")) || ends_with(&low, &chars_of(".jpeg"))
        || ends_with(&low, &chars_of(".png")) || ends_with(&low, &chars_of(".webp"));
    let junk = contains(&low, &chars_of("logo")) || contains(&low, &chars_of("avatar"))
        || contains(&low, &chars_of("favicon"));
    if niadd {
        ext && !contains(&low, &chars_of("brand")) && !junk
    } else {
        let query = contains(&low, &chars_of(".jpg?")) || contains(&low, &chars_of(".png?"))
            || contains(&low, &chars_of(".webp?"));
        (ext || query) && !starts_with(&low, &chars_of("data:")) && !junk
    }
}

/// The image URLs of `images` that pass the page-image filter of one source, in order.
fn keep_page_images(images: &Vec<String>, niadd: bool) -> (r: Vec<String>)
    ensures
        string_views(r@) == keep(
            string_views(images@),
            if niadd { |u: Seq<char>| niadd_page_image(u) } else { |u: Seq<char>| mangalivre_page_image(u) },
        ),
{
    let ghost f = if niadd { |u: Seq<char>| niadd_page_image(u) } else { |u: Seq<char>| mangalivre_page_image(u) };
    let mut r: Vec<String> = Vec::new();
    let mut i: usize = 0;
    proof {
        assert(string_views(images@).take(0) =~= Seq::<Seq<char>>::empty());
        assert(string_views(r@) =~= Seq::<Seq<char>>::empty());
    }
    while i < images.len()
        invariant
            i <= images@.len(),
            f == (if niadd { |u: Seq<char>| niadd_page_image(u) } else { |u: Seq<char>| mangalivre_page_image(u) }),
            string_views(r@) == keep(string_views(images@).take(i as int), f),
        decreases images@.len() - i,
    {
        proof {
            assert(string_views(images@).take(i + 1).drop_last() =~= string_views(images@).take(i as int));
            assert(string_views(images@).take(i + 1).last() == images@[i as int]@);
        }
        if is_page_image(&images[i], niadd) {
            let ghost prev = r@;
            r.push(images[i].clone());
            proof {
                assert(string_views(r@) =~= string_views(prev).push(images@[i as int]@));
            }
        }
        i = i + 1;
    }
    proof {
        assert(string_views(images@).take(images@.len() as int) =~= string_views(images@));
    }
    r
}

/// The page images of a Niadd chapter: the candidates that pass the filter, or all of them
/// when none does.
pub fn filter_niadd_images(images: &Vec<String>) -> (r: Vec<String>)
    ensures
        keep(string_views(images@), |u: Seq<char>| niadd_page_image(u)).len() > 0 ==> string_views(r@) == keep(
            string_views(images@),
            |u: Seq<char>| niadd_page_image(u),
        ),
        keep(string_views(images@), |u: Seq<char>| niadd_page_image(u)).len() == 0 ==> string_views(r@)
            == string_views(images@),
{
    let kept = keep_page_images(images, true);
    if kept.len() == 0 {
        let mut all: Vec<String> = Vec::new();
        let mut i: usize = 0;
        while i < images.len()
            invariant
                i <= images@.len(),
                string_views(all@) == string_views(images@).take(i as int),
            decreases images@.len() - i,
        {
            let ghost prev = all@;
            all.push(images[i].clone());
            proof {
                assert(string_views(all@) =~= string_views(prev).push(images@[i as int]@));
                assert(string_views(images@).take(i + 1) =~= string_views(images@).take(i as int).push(images@[i as int]@));
            }
            i = i + 1;
        }
        proof {
            assert(string_views(images@).take(images@.len() as int) =~= string_views(images@));
        }
        all
    } else {
        kept
    }
}

/// The page images of a MangaLivre chapter: the candidates that pass the filter, in order.
pub fn filter_mangalivre_images(images: &Vec<String>) -> (r: Vec<String>)
    ensures
        string_views(r@) == keep(string_views(images@), |u: Seq<char>| mangalivre_page_image(u)),
{
    keep_page_images(images, false)
}

/// The file extension under which an image URL is saved: `webp` or `png` when the URL
/// mentions one, else `jpg`.
pub open spec fn image_ext_spec(u: Seq<char>) -> Seq<char> {
    let low = lowercase_of(u);
    if contains_text(low, ".webp"@) {
        "webp"@
    } else if contains_text(low, ".png"@) {
        "png"@
    } else {
        "jpg"@
    }
}

/// The file extension under which an image URL is saved.
pub fn image_ext_for_url(u: &str) -> (r: String)
    ensures
        r@ == image_ext_spec(u@),
{
    let low = lower_chars(u);
    if contains(&low, &chars_of(".webp")) {
        owned("webp")
    } else if contains(&low, &chars_of(".png")) {
        owned("png")
    } else {
        owned("jpg")
    }
}

/// Whether a fetched image is worth saving: a successful status, not an anti-bot page, and
/// either an `image/` content type (any case) or image bytes.
pub open spec fn acceptable_image(status_ok: bool, body_blocked: bool, content_type: Seq<char>, body_is_image: bool) -> bool {
    status_ok && !body_blocked && (has_prefix(lowercase_of(content_type), "image/"@) || body_is_image)
}

/// Whether a fetched image is worth saving.
pub fn image_response_acceptable(status_ok: bool, body_blocked: bool, content_type: &str, body_is_image: bool) -> (r: bool)
    ensures
        r == acceptable_image(status_ok, body_blocked, content_type@, body_is_image),
{
    let low = lower_chars(content_type);
    status_ok && !body_blocked && (starts_with(&low, &chars_of("image/")) || body_is_image)
}

// ---------------------------------------------------------------------------
// Addresses, numbers and names of the MangaLivre downloader
// ---------------------------------------------------------------------------

/// The manga page behind a MangaLivre URL: a chapter URL is cut before `/capitulo-`
/// and ends with `/`; other URLs are kept.
pub open spec fn manga_page_spec(url: Seq<char>) -> Seq<char> {
    match find_text(url, "/capitulo-"@) {
        Some(k) => url.take(k).push('/'),
        None => url,
    }
}

/// The manga page behind a MangaLivre URL.
pub fn manga_page_url(url: &str) -> (r: String)
    ensures
        r@ == manga_page_spec(url@),
{
    let u = chars_of(url);
    match find_first(&u, &chars_of("/capitulo-")) {
        Some(k) => {
            proof {
                lemma_find_from(u@, "/capitulo-"@, 0);
            }
            let mut head = slice_vec(&u, 0, k);
            head.push('/');
            proof {
                assert(u@.subrange(0, k as int) == u@.take(k as int));
            }
            string_of(&head)
        },
        None => string_of(&u),
    }
}

/// The longest prefix of `s` made of ASCII digits and dots.
pub open spec fn number_run(s: Seq<char>) -> Seq<char>
    decreases s.len(),
{
    if s.len() > 0 && (is_digit(s[0]) || s[0] == '.') {
        seq![s[0]] + number_run(s.drop_first())
    } else {
        Seq::empty()
    }
}

/// The chapter number written in a URL after `capitulo-` (in its lowercase form), as the
/// run of digits and dots that follows; `None` when there is no such run.
pub open spec fn chapter_number_text_spec(url: Seq<char>) -> Option<Seq<char>> {
    let low = lowercase_of(url);
    match find_text(low, "capitulo-"@) {
        None => None,
        Some(k) => {
            let run = number_run(low.skip(k + 9));
            if run.len() == 0 { None } else { Some(run) }
        },
    }
}

/// The text of the chapter number in a MangaLivre chapter URL.
pub fn chapter_number_text(url: &str) -> (r: Option<String>)
    ensures
        match r {
            Some(t) => chapter_number_text_spec(url@) == Some(t@),
            None => chapter_number_text_spec(url@) is None,
        },
{
    let low = lower_chars(url);
    let marker = chars_of("capitulo-");
    proof {
        reveal_strlit("capitulo-");
    }
    match find_first(&low, &marker) {
        None => None,
        Some(k) => {
            proof {
                lemma_find_from(low@, marker@, 0);
                assert(marker@.len() == 9);
                assert(k + 9 <= low@.len());
                assert(low@.len() == low.len());
            }
            let start = k + 9;
            let mut i = start;
            proof {
                assert(low@.skip(start as int).take(0) =~= Seq::<char>::empty());
            }
            while i < low.len() && (('0' <= low[i] && low[i] <= '9') || low[i] == '.')
                invariant
                    start <= i <= low@.len(),
                    number_run(low@.skip(start as int)) == low@.subrange(start as int, i as int) + number_run(low@.skip(i as int)),
                decreases low@.len() - i,
            {
                proof {
                    assert(low@.skip(i as int).drop_first() == low@.skip(i + 1));
                    assert(low@.subrange(start as int, i + 1) == low@.subrange(start as int, i as int).push(low@[i as int]));
                    assert(low@.subrange(start as int, i as int) + number_run(low@.skip(i as int)) == low@.subrange(start as int, i + 1) + number_run(low@.skip(i + 1)));
                }
                i = i + 1;
            }
            proof {
                assert(number_run(low@.skip(i as int)) =~= Seq::<char>::empty());
                assert(low@.subrange(start as int, i as int) + Seq::<char>::empty() == low@.subrange(start as int, i as int));
            }
            if i == start {
                None
            } else {
                Some(string_of_range(&low, start, i))
            }
        },
    }
}

/// The percentage of `done` out of `total`, rounded down.
pub fn progress_percent(done: usize, total: usize) -> (r: u8)
    requires
        0 < total,
        done <= total,
        done * 100 <= usize::MAX,
    ensures
        r as int == (done * 100) / (total as int),
{
    proof {
        assert((done * 100) / (total as int) <= 100) by (nonlinear_arith)
            requires 0 < total, done <= total;
    }
    ((done * 100) / total) as u8
}

/// The overall progress of a MangaLivre download while page `done` of `pages` of the
/// chapter at position `chapter` (of `chapters`) is fetched, kept below 100.
pub fn mangalivre_progress(chapter: usize, chapters: usize, done: usize, pages: usize) -> (r: u32)
    requires
        0 < chapters,
        chapter < chapters,
        chapters * 100 <= u32::MAX,
        0 < pages,
        done <= pages,
        done * 100 <= usize::MAX,
    ensures
        r as int == min_int((chapter * 100) / (chapters as int) + ((done * 100) / (pages as int)) / (chapters as int), 99),
{
    proof {
        assert((done * 100) / (pages as int) <= 100) by (nonlinear_arith)
            requires 0 < pages, done <= pages;
        assert(chapter * 100 < chapters * 100) by (nonlinear_arith)
            requires chapter < chapters;
        assert((chapter * 100) / (chapters as int) <= 100) by (nonlinear_arith)
            requires 0 < chapters, chapter < chapters;
    }
    let chapter_pct = ((done * 100) / pages) as u32;
    let global = (chapter as u32) * 100 / (chapters as u32) + chapter_pct / (chapters as u32);
    if global < 99 { global } else { 99 }
}

/// The file name of page `n` (counted from 1) of a chapter: the number zero-padded to
/// three digits, then the extension.
pub fn page_file_name(n: u64, ext: &str) -> (r: String)
    ensures
        r@ == zero_pad(decimal(n as nat), 3) + "."@ + ext@,
{
    let mut r = padded_decimal(n, 3);
    r.append(".");
    r.append(ext);
    r
}

/// The folder of a downloaded chapter.
pub fn chapter_dir_name(label: &str) -> (r: String)
    ensures
        r@ == "chapter_"@ + label@,
{
    join2("chapter_", label)
}

/// The archive of a downloaded chapter.
pub fn chapter_cbz_name(label: &str) -> (r: String)
    ensures
        r@ == "chapter_"@ + label@ + ".cbz"@,
{
    let mut r = join2("chapter_", label);
    r.append(".cbz");
    r
}

/// The library id of a manually downloaded manga, from its folder name.
pub fn manual_manga_id(folder: &str) -> (r: String)
    ensures
        r@ == "manual_"@ + folder@,
{
    join2("manual_", folder)
}

// ---------------------------------------------------------------------------
// The steps of a built-in download
// ---------------------------------------------------------------------------

/// Goes on when a page listed something (links, images); fails with `message` when it
/// listed nothing.
pub fn nonempty_or(count: usize, message: &str) -> (r: Result<(), String>)
    ensures
        r is Ok <==> count > 0,
        r matches Err(m) ==> m@ == message@,
{
    if count > 0 {
        Ok(())
    } else {
        Err(owned(message))
    }
}

/// Goes on with a MangaLivre manga page unless it is an anti-bot block page, in which case
/// the download fails with the message that says so.
pub fn mangalivre_manga_page_check(html: &str) -> (r: Result<(), String>)
    ensures
        r is Ok <==> !looks_blocked(html@),
        r matches Err(m) ==> m@ == "MangaLivre blocked the manga page request (Cloudflare/anti-bot)"@,
{
    if text_looks_like_block_page(html) {
        Err(owned("MangaLivre blocked the manga page request (Cloudflare/anti-bot)"))
    } else {
        Ok(())
    }
}

/// What the MangaLivre downloader does with a chapter page.
pub enum ChapterStart {
    /// The page is an anti-bot page: skip the chapter.
    Blocked,
    /// The page shows no page images: report it and skip the chapter.
    Empty,
    /// Fetch the chapter's pages.
    Fetch,
}

/// What the MangaLivre downloader does with a chapter page: a blocked page is skipped, a
/// page without images is reported and skipped, any other has its pages fetched.
pub fn mangalivre_chapter_start(blocked: bool, n_images: usize) -> (r: ChapterStart)
    ensures
        blocked ==> r is Blocked,
        !blocked && n_images == 0 ==> r is Empty,
        !blocked && n_images > 0 ==> r is Fetch,
{
    if blocked {
        ChapterStart::Blocked
    } else if n_images == 0 {
        ChapterStart::Empty
    } else {
        ChapterStart::Fetch
    }
}

/// After a chapter's pages were fetched: the pages saved so far, and whether the chapter is
/// packed as a `cbz` archive (when that format was asked for and it saved a page).
pub fn mangalivre_chapter_end(saved_so_far: usize, saved_in_chapter: usize, format: &str) -> (r: (usize, bool))
    requires
        saved_so_far + saved_in_chapter <= usize::MAX,
    ensures
        r.0 == saved_so_far + saved_in_chapter,
        r.1 == (format@ == "cbz"@ && saved_in_chapter > 0),
{
    let cbz = same_chars(&chars_of(format), &chars_of("cbz"));
    (saved_so_far + saved_in_chapter, cbz && saved_in_chapter > 0)
}

/// How a MangaLivre download ends: it succeeds when it saved a page, else it fails with the
/// message that names the number of chapters selected.
pub fn download_outcome(total_saved: usize, n_selected: u64) -> (r: Result<(), String>)
    ensures
        r is Ok <==> total_saved > 0,
        r matches Err(m) ==> m@ == "No pages were downloaded from MangaLivre ("@ + decimal(n_selected as nat)
            + " selected chapters)"@,
{
    if total_saved > 0 {
        Ok(())
    } else {
        Err(crate::tools::no_pages_message(n_selected))
    }
}

} // verus!
