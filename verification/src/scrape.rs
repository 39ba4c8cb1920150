use vstd::prelude::*;
use crate::registry::opt_view;
use crate::cards::NodeV;
use crate::text::{
    CharClass, chars_of, concat, contains, contains_text, find_first, find_text, has_prefix,
    lemma_find_from, lowercase_of, lower_spec, owned, lowercase_range, one_of, slice_vec, starts_with, string_of, strip_both,
    strip_lead, strip_range, trim_range, trim_spec, unicode_whitespace, is_whitespace, ws,
};

verus! {

// ---------------------------------------------------------------------------
// Byte offsets
// ---------------------------------------------------------------------------

/// The number of bytes of a character in UTF-8 (`char::len_utf8`).
pub open spec fn utf8_width(c: char) -> nat {
    if (c as u32) < 0x80 {
        1
    } else if (c as u32) < 0x800 {
        2
    } else if (c as u32) < 0x10000 {
        3
    } else {
        4
    }
}

/// The number of bytes of a string in UTF-8 (`str::len`).
pub open spec fn byte_len(s: Seq<char>) -> nat
    decreases s.len(),
{
    if s.len() == 0 {
        0
    } else {
        byte_len(s.drop_last()) + utf8_width(s.last())
    }
}

/// Longer prefixes take strictly more bytes.
pub proof fn lemma_byte_len_grows(s: Seq<char>, a: int, b: int)
    requires
        0 <= a <= b <= s.len(),
    ensures
        byte_len(s.take(a)) + (b - a) <= byte_len(s.take(b)),
    decreases b - a,
{
    if a < b {
        lemma_byte_len_grows(s, a, b - 1);
        assert(s.take(b).drop_last() == s.take(b - 1));
    }
}

/// The number of bytes of a character.
fn width_of(c: char) -> (r: usize)
    ensures
        r == utf8_width(c),
{
    let v = c as u32;
    if v < 0x80 {
        1
    } else if v < 0x800 {
        2
    } else if v < 0x10000 {
        3
    } else {
        4
    }
}

/// The number of bytes of `s[0..k]`.
pub(crate) fn byte_offset(s: &Vec<char>, k: usize) -> (r: u128)
    requires
        k <= s@.len(),
    ensures
        r == byte_len(s@.take(k as int)),
        r <= 4 * k,
{
    let mut acc: u128 = 0;
    let mut i: usize = 0;
    proof {
        assert(s@.take(0) =~= Seq::<char>::empty());
    }
    while i < k
        invariant
            i <= k <= s@.len(),
            acc == byte_len(s@.take(i as int)),
            acc <= 4 * i,
        decreases k - i,
    {
        proof {
            assert(s@.take(i + 1).drop_last() == s@.take(i as int));
        }
        acc = acc + width_of(s[i]) as u128;
        i = i + 1;
    }
    acc
}

/// The character index of `s` at which `pos` bytes have been read, if `pos` falls on a
/// character boundary.
fn index_at_byte(s: &Vec<char>, pos: u128) -> (r: Option<usize>)
    ensures
        match r {
            Some(j) => j <= s@.len() && byte_len(s@.take(j as int)) == pos,
            None => forall|j: int| 0 <= j <= s@.len() ==> byte_len(#[trigger] s@.take(j)) != pos,
        },
{
    let mut acc: u128 = 0;
    let mut i: usize = 0;
    proof {
        assert(s@.take(0) =~= Seq::<char>::empty());
    }
    while i < s.len() && acc < pos
        invariant
            i <= s@.len(),
            acc == byte_len(s@.take(i as int)),
            acc <= 4 * i,
            forall|j: int| 0 <= j < i ==> byte_len(#[trigger] s@.take(j)) < pos,
        decreases s@.len() - i,
    {
        proof {
            assert(s@.take(i + 1).drop_last() == s@.take(i as int));
        }
        acc = acc + width_of(s[i]) as u128;
        i = i + 1;
    }
    if acc == pos {
        Some(i)
    } else {
        proof {
            assert forall|j: int| 0 <= j <= s@.len() implies byte_len(#[trigger] s@.take(j)) != pos by {
                if j > i {
                    lemma_byte_len_grows(s@, i as int, j);
                }
            }
        }
        None
    }
}

// ---------------------------------------------------------------------------
// Image URLs in markup
// ---------------------------------------------------------------------------

/// A URL as the scrapers keep it: trimmed, with a scheme added to protocol-relative URLs.
pub open spec fn normalize_spec(raw: Seq<char>) -> Seq<char> {
    let t = trim_spec(raw);
    if has_prefix(t, "//"@) { "https:"@ + t } else { t }
}

/// Where the slice after `url(` starts, in characters of `style`: the `url(` is found in
/// the lowercase form of the style and its byte offset is applied to the style itself.
pub open spec fn background_start(style: Seq<char>) -> Option<int> {
    let low = lower_spec(style);
    match find_text(low, "url("@) {
        None => None,
        Some(k) => {
            let pos = byte_len(low.take(k)) + 4;
            if exists|j: int| 0 <= j <= style.len() && byte_len(#[trigger] style.take(j)) == pos {
                Some(choose|j: int| 0 <= j <= style.len() && byte_len(#[trigger] style.take(j)) == pos)
            } else {
                None
            }
        },
    }
}

/// Styles on which slicing after `url(` stays on a character boundary, so that the
/// extraction does not panic: those without `url(` and those where the offset is valid.
pub open spec fn background_slice_ok(style: Seq<char>) -> bool {
    find_text(lower_spec(style), "url("@) is None || background_start(style) is Some
}

/// The URL inside the first `url(...)` of a CSS style: the text up to the next `)`,
/// trimmed and stripped of double then single quotes; `None` when it is missing or empty.
pub open spec fn background_url_spec(style: Seq<char>) -> Option<Seq<char>> {
    match background_start(style) {
        None => None,
        Some(j) => url_before_paren(style.skip(j)),
    }
}

/// The text before the first `)`, trimmed and stripped of double then single quotes;
/// `None` when there is no `)` or nothing is left.
pub open spec fn url_before_paren(after: Seq<char>) -> Option<Seq<char>> {
    match find_text(after, ")"@) {
        None => None,
        Some(e) => {
            let v = strip_both(strip_both(trim_spec(after.take(e)), one_of(seq!['"'])), one_of(seq!['\'']));
            if v.len() == 0 { None } else { Some(v) }
        },
    }
}

/// The text before the first `)`, cleaned.
fn url_before_paren_of(after: &Vec<char>) -> (r: Option<String>)
    ensures
        match r {
            Some(v) => url_before_paren(after@) == Some(v@),
            None => url_before_paren(after@) is None,
        },
{
    let close: Vec<char> = vec![')'];
    proof {
        reveal_strlit(")");
        assert(close@ =~= ")"@);
    }
    match find_first(after, &close) {
        None => None,
        Some(e) => {
            proof {
                lemma_find_from(after@, close@, 0);
            }
            let (a, b) = trim_range(after, 0, e);
            let dqv: Vec<char> = vec!['"'];
            let sqv: Vec<char> = vec!['\''];
            proof {
                assert(dqv@ =~= seq!['"']);
                assert(sqv@ =~= seq!['\'']);
            }
            let dq = CharClass::AnyOf(dqv);
            let sq = CharClass::AnyOf(sqv);
            let (c, d) = strip_range(after, a, b, &dq);
            let (f, g) = strip_range(after, c, d, &sq);
            proof {
                assert(after@.subrange(0, e as int) == after@.take(e as int));
                assert(after@.subrange(a as int, b as int).subrange(c - a, d - a) == after@.subrange(c as int, d as int));
                assert(after@.subrange(c as int, d as int).subrange(f - c, g - c) == after@.subrange(f as int, g as int));
            }
            if f == g {
                None
            } else {
                Some(string_of(&slice_vec(after, f, g)))
            }
        },
    }
}

/// The URL inside the first `url(...)` of a style, or `Err(())` where slicing
/// after `url(` would fall inside a character and panic.
pub fn background_image_url_checked(style: &str) -> (r: Result<Option<String>, ()>)
    ensures
        match r {
            Ok(Some(v)) => background_slice_ok(style@) && background_url_spec(style@) == Some(v@),
            Ok(None) => background_slice_ok(style@) && background_url_spec(style@) is None,
            Err(_) => !background_slice_ok(style@),
        },
{
    let sv = chars_of(style);
    let low = lowercase_range(&sv, 0, sv.len());
    proof {
        assert(sv@.subrange(0, sv@.len() as int) =~= sv@);
    }
    let marker = chars_of("url(");
    match find_first(&low, &marker) {
        None => Ok(None),
        Some(k) => {
            proof {
                lemma_find_from(low@, marker@, 0);
                reveal_strlit("url(");
            }
            let pos = byte_offset(&low, k) + 4;
            match index_at_byte(&sv, pos) {
                None => {
                    proof {
                        assert(!(exists|j: int| 0 <= j <= sv@.len() && byte_len(#[trigger] sv@.take(j)) == pos));
                    }
                    Err(())
                },
                Some(j) => {
                    proof {
                        let c = choose|c: int| 0 <= c <= sv@.len() && byte_len(#[trigger] sv@.take(c)) == pos;
                        if c < j {
                            lemma_byte_len_grows(sv@, c, j as int);
                        } else if c > j {
                            lemma_byte_len_grows(sv@, j as int, c);
                        }
                        assert(background_start(style@) == Some(j as int));
                    }
                    let after = slice_vec(&sv, j, sv.len());
                    proof {
                        assert(after@ == style@.skip(j as int));
                    }
                    Ok(url_before_paren_of(&after))
                },
            }
        },
    }
}

// ---------------------------------------------------------------------------
// Markup, regular expressions and URLs, through the outside crates
// ---------------------------------------------------------------------------

/// An element that a CSS selector matched: its text (the text nodes joined by a space)
/// and the values of the attributes asked for, in the order asked.
pub struct Node {
    pub text: String,
    pub attrs: Vec<Option<String>>,
}

/// The value of a node.
pub open spec fn node_view(n: Node) -> (Seq<char>, Seq<Option<Seq<char>>>) {
    (n.text@, n.attrs@.map_values(|a: Option<String>| opt_view(a)))
}

/// The values of a list of nodes.
pub open spec fn nodes_view(v: Seq<Node>) -> Seq<(Seq<char>, Seq<Option<Seq<char>>>)> {
    v.map_values(|n: Node| node_view(n))
}

/// The values of a list of node lists.
pub open spec fn node_lists_view(v: Seq<Vec<Node>>) -> Seq<Seq<(Seq<char>, Seq<Option<Seq<char>>>)>> {
    v.map_values(|l: Vec<Node>| nodes_view(l@))
}

/// The elements of an HTML document that a CSS selector matches, in document order, as
/// the `scraper` crate selects them; `None` when the selector does not parse.
pub uninterp spec fn html_select(
    html: Seq<char>,
    selector: Seq<char>,
    keys: Seq<Seq<char>>,
) -> Option<Seq<(Seq<char>, Seq<Option<Seq<char>>>)>>;

/// For each element that `outer` matches, the elements below it that `inner` matches,
/// as the `scraper` crate selects them; `None` when a selector does not parse.
pub uninterp spec fn html_select_within(
    html: Seq<char>,
    outer: Seq<char>,
    inner: Seq<char>,
    keys: Seq<Seq<char>>,
) -> Option<Seq<Seq<(Seq<char>, Seq<Option<Seq<char>>>)>>>;

/// For each match of a regular expression in a text, in order, the text of the requested
/// capture groups, as the `regex` crate finds them; `None` when the pattern does not compile.
pub uninterp spec fn regex_groups(pattern: Seq<char>, text: Seq<char>, groups: Seq<usize>) -> Option<
    Seq<Seq<Option<Seq<char>>>>,
>;

/// The serialization of `href` resolved against the URL that `base` parses to, as the
/// `url` crate (behind `reqwest::Url`) computes it; when either step fails, the error's
/// message.
pub uninterp spec fn url_join_spec(base: Seq<char>, href: Seq<char>) -> Result<Seq<char>, Seq<char>>;

/// Whether `scraper::Selector::parse` accepts a CSS selector.
pub uninterp spec fn css_selector_valid(selector: Seq<char>) -> bool;

/// Calls `scraper::Selector::parse`. Claimed: the result is the named validity.
#[verifier::external_body]
pub(crate) fn selector_is_valid(selector: &str) -> (r: bool)
    ensures
        r == css_selector_valid(selector@),
{
    scraper::Selector::parse(selector).is_ok()
}

/// The character sequences of a list of strings.
pub open spec fn key_views(v: Seq<String>) -> Seq<Seq<char>> {
    v.map_values(|k: String| k@)
}

/// Calls `scraper::Html::parse_document`, `scraper::Selector::parse` and `Html::select`,
/// reading each match's text and attributes. Claimed: the result is the named selection,
/// present exactly when the selector parses.
#[verifier::external_body]
pub(crate) fn select_nodes(html: &str, selector: &str, keys: &Vec<String>) -> (r: Option<Vec<Node>>)
    ensures
        r is Some <==> css_selector_valid(selector@),
        match r {
            Some(v) => html_select(html@, selector@, key_views(keys@)) == Some(nodes_view(v@)),
            None => html_select(html@, selector@, key_views(keys@)) is None,
        },
{
    let doc = scraper::Html::parse_document(html);
    let sel = scraper::Selector::parse(selector).ok()?;
    Some(doc.select(&sel).map(|n| Node {
        text: n.text().collect::<Vec<_>>().join(" "),
        attrs: keys.iter().map(|k| n.value().attr(k).map(|v| v.to_string())).collect(),
    }).collect())
}

/// Calls `scraper::Html::parse_document`, `scraper::Selector::parse` and `ElementRef::select`
/// below each outer match. Claimed: the result is the named selection, present exactly
/// when both selectors parse.
#[verifier::external_body]
pub(crate) fn select_within(html: &str, outer: &str, inner: &str, keys: &Vec<String>) -> (r: Option<Vec<Vec<Node>>>)
    ensures
        r is Some <==> (css_selector_valid(outer@) && css_selector_valid(inner@)),
        match r {
            Some(v) => html_select_within(html@, outer@, inner@, key_views(keys@)) == Some(node_lists_view(v@)),
            None => html_select_within(html@, outer@, inner@, key_views(keys@)) is None,
        },
{
    let doc = scraper::Html::parse_document(html);
    let (o, i) = (scraper::Selector::parse(outer).ok()?, scraper::Selector::parse(inner).ok()?);
    Some(doc.select(&o).map(|e| e.select(&i).map(|n| Node {
        text: n.text().collect::<Vec<_>>().join(" "),
        attrs: keys.iter().map(|k| n.value().attr(k).map(|v| v.to_string())).collect(),
    }).collect()).collect())
}

/// The elements a selector matches; none when it does not parse.
pub open spec fn sel_nodes(html: Seq<char>, selector: Seq<char>, keys: Seq<Seq<char>>) -> Seq<NodeV> {
    match html_select(html, selector, keys) {
        Some(v) => v,
        None => Seq::empty(),
    }
}

/// The elements a selector matches.
pub fn nodes_or_empty(html: &str, selector: &str, keys: &Vec<String>) -> (r: Vec<Node>)
    ensures
        nodes_view(r@) == sel_nodes(html@, selector@, key_views(keys@)),
{
    match select_nodes(html, selector, keys) {
        Some(v) => v,
        None => {
            let v: Vec<Node> = Vec::new();
            proof {
                assert(nodes_view(v@) =~= Seq::<NodeV>::empty());
            }
            v
        },
    }
}

/// The values of a list of capture lists.
pub open spec fn captures_view(v: Seq<Vec<Option<String>>>) -> Seq<Seq<Option<Seq<char>>>> {
    v.map_values(|c: Vec<Option<String>>| c@.map_values(|g: Option<String>| opt_view(g)))
}

/// Calls `regex::Regex::new` and `Regex::captures_iter`, reading the requested groups of
/// each match. Claimed: the result is the named list of captures.
#[verifier::external_body]
pub(crate) fn regex_captures(pattern: &str, text: &str, groups: &Vec<usize>) -> (r: Option<Vec<Vec<Option<String>>>>)
    ensures
        match r {
            Some(v) => regex_groups(pattern@, text@, groups@) == Some(captures_view(v@)),
            None => regex_groups(pattern@, text@, groups@) is None,
        },
{
    let re = regex::Regex::new(pattern).ok()?;
    Some(re.captures_iter(text).map(|c| groups.iter().map(|g| c.get(*g).map(|m| m.as_str().to_string())).collect()).collect())
}

/// The character sequences of a result with string values.
pub open spec fn res_view(r: Result<String, String>) -> Result<Seq<char>, Seq<char>> {
    match r {
        Ok(x) => Ok(x@),
        Err(e) => Err(e@),
    }
}

/// Calls `reqwest::Url::parse` on `base` and `Url::join` with `href`, then serializes the
/// URL, or the error. Claimed: the result is the named join.
#[verifier::external_body]
pub(crate) fn join_url(base: &str, href: &str) -> (r: Result<String, String>)
    ensures
        res_view(r) == url_join_spec(base@, href@),
{
    match reqwest::Url::parse(base).and_then(|b| b.join(href)) {
        Ok(u) => Ok(u.to_string()),
        Err(e) => Err(e.to_string()),
    }
}

/// The serialization of the URL that `s` parses to, as the `url` crate (behind
/// `reqwest::Url`) computes it; when it does not parse, the error's message.
pub uninterp spec fn url_parse_spec(s: Seq<char>) -> Result<Seq<char>, Seq<char>>;

/// Calls `reqwest::Url::parse`, then serializes the URL, or the error. Claimed: the result
/// is the named parse.
#[verifier::external_body]
pub(crate) fn parse_url(s: &str) -> (r: Result<String, String>)
    ensures
        res_view(r) == url_parse_spec(s@),
{
    match reqwest::Url::parse(s) {
        Ok(u) => Ok(u.to_string()),
        Err(e) => Err(e.to_string()),
    }
}

/// A byte that `urlencoding::encode` keeps: ASCII letters and digits and `-`, `.`, `_`, `~`.
pub open spec fn url_safe_byte(b: u8) -> bool {
    (48 <= b <= 57) || (65 <= b <= 90) || (97 <= b <= 122) || b == 45 || b == 46 || b == 95 || b == 126
}

/// An uppercase hexadecimal digit.
pub open spec fn hex_digit(d: u8) -> char {
    if d < 10 { ((48 + d) as u8) as char } else { ((55 + d) as u8) as char }
}

/// Percent-encoding of a byte sequence.
pub open spec fn percent_encode_bytes(b: Seq<u8>) -> Seq<char>
    decreases b.len(),
{
    if b.len() == 0 {
        Seq::empty()
    } else {
        let x = b[0];
        (if url_safe_byte(x) { seq![x as char] } else { seq!['%', hex_digit(x / 16), hex_digit(x % 16)] })
            + percent_encode_bytes(b.drop_first())
    }
}

/// What `urlencoding::encode` gives: every byte of the UTF-8 form that is not an ASCII
/// letter, digit, `-`, `.`, `_` or `~` written as `%` and two uppercase hex digits.
pub open spec fn percent_encoded(s: Seq<char>) -> Seq<char> {
    percent_encode_bytes(vstd::utf8::encode_utf8(s))
}

/// Calls `urlencoding::encode`. Claimed: the result is the percent-encoding above, as the
/// crate's source computes it.
#[verifier::external_body]
pub(crate) fn url_encode(s: &str) -> (r: String)
    ensures
        r@ == percent_encoded(s@),
{
    urlencoding::encode(s).into_owned()
}

/// An absolute URL for a link found on a site: links that already start with `http://` or
/// `https://` are kept, others are resolved against the site's address.
pub open spec fn absolute_spec(base: Seq<char>, href: Seq<char>) -> Result<Seq<char>, Seq<char>> {
    if has_prefix(href, "http://"@) || has_prefix(href, "https://"@) {
        Ok(href)
    } else {
        url_join_spec(base, href)
    }
}

/// An absolute URL for a link found on the site at `base`.
pub fn to_absolute(base: &str, href: &str) -> (r: Result<String, String>)
    ensures
        res_view(r) == absolute_spec(base@, href@),
{
    let h = chars_of(href);
    if starts_with(&h, &chars_of("http://")) || starts_with(&h, &chars_of("https://")) {
        Ok(string_of(&h))
    } else {
        join_url(base, href)
    }
}

/// The address of the Niadd site.
pub open spec fn niadd_base() -> Seq<char> {
    "https://br.niadd.com"@
}

/// The address of the MangaLivre site.
pub open spec fn mangalivre_base() -> Seq<char> {
    "https://mangalivre.tv"@
}

// ---------------------------------------------------------------------------
// The image URL of a card
// ---------------------------------------------------------------------------

/// The attributes read, in order, when looking for an image URL on an element.
pub open spec fn image_keys() -> Seq<Seq<char>> {
    seq!["data-src"@, "data-lazy-src"@, "data-original"@, "data-srcset"@, "data-lazy-srcset"@, "srcset"@, "src"@, "style"@]
}

/// The attribute names of `image_keys`.
pub fn image_key_list() -> (r: Vec<String>)
    ensures
        key_views(r@) == image_keys(),
{
    let r = vec![owned("data-src"), owned("data-lazy-src"), owned("data-original"), owned("data-srcset"),
        owned("data-lazy-srcset"), owned("srcset"), owned("src"), owned("style")];
    proof {
        assert(key_views(r@) =~= image_keys());
    }
    r
}

/// The first attribute value that is not blank, trimmed.
pub open spec fn first_attr_value(attrs: Seq<Option<Seq<char>>>) -> Option<Seq<char>>
    decreases attrs.len(),
{
    if attrs.len() == 0 {
        None
    } else if attrs[0] is Some && trim_spec(attrs[0]->0).len() > 0 {
        Some(trim_spec(attrs[0]->0))
    } else {
        first_attr_value(attrs.drop_first())
    }
}

/// The first element with a non-blank image attribute, and that value.
pub open spec fn first_candidate(nodes: Seq<(Seq<char>, Seq<Option<Seq<char>>>)>) -> Option<Seq<char>>
    decreases nodes.len(),
{
    if nodes.len() == 0 {
        None
    } else if first_attr_value(nodes[0].1) is Some {
        first_attr_value(nodes[0].1)
    } else {
        first_candidate(nodes.drop_first())
    }
}

/// The leading run of non-whitespace characters.
pub open spec fn word_run(s: Seq<char>) -> Seq<char>
    decreases s.len(),
{
    if s.len() > 0 && !unicode_whitespace(s[0]) {
        seq![s[0]] + word_run(s.drop_first())
    } else {
        Seq::empty()
    }
}

/// The first whitespace-separated word (`split_whitespace().next()`).
pub open spec fn first_word(s: Seq<char>) -> Option<Seq<char>> {
    let w = word_run(strip_lead(s, ws()));
    if w.len() == 0 { None } else { Some(w) }
}

/// The first URL of a `srcset`-like value: the first word of the text before the first
/// comma (the whole value when there is no word), trimmed.
pub open spec fn srcset_first(raw: Seq<char>) -> Seq<char> {
    let p = match find_text(raw, ","@) {
        Some(i) => raw.take(i),
        None => raw,
    };
    trim_spec(
        match first_word(p) {
            Some(w) => w,
            None => raw,
        },
    )
}

/// The image URL that the element's own style holds, normalized; `Err` where slicing
/// the style would panic.
pub open spec fn style_image(style: Option<Seq<char>>) -> Result<Option<Seq<char>>, ()> {
    match style {
        None => Ok(None),
        Some(st) => if !background_slice_ok(st) {
            Err(())
        } else {
            match background_url_spec(st) {
                Some(v) => Ok(Some(normalize_spec(v))),
                None => Ok(None),
            }
        },
    }
}

/// The image URL of an element, from the image attributes of the elements below it that
/// the cover selector matched (`nodes`) and from its own style: a `url(...)` inside the
/// first candidate value, else the first URL of that value, else a `url(...)` in the
/// element's own style; normalized. `Err` where slicing a style would panic.
pub open spec fn element_image_spec(
    nodes: Seq<(Seq<char>, Seq<Option<Seq<char>>>)>,
    own_style: Option<Seq<char>>,
) -> Result<Option<Seq<char>>, ()> {
    match first_candidate(nodes) {
        Some(raw) => if contains_text(raw, "url("@) && !background_slice_ok(raw) {
            Err(())
        } else if contains_text(raw, "url("@) && background_url_spec(raw) is Some {
            Ok(Some(normalize_spec(background_url_spec(raw)->0)))
        } else if srcset_first(raw).len() > 0 {
            Ok(Some(normalize_spec(srcset_first(raw))))
        } else {
            style_image(own_style)
        },
        None => style_image(own_style),
    }
}

/// The first non-blank attribute value of the listed nodes, trimmed.
fn first_candidate_of(nodes: &Vec<Node>) -> (r: Option<String>)
    ensures
        opt_view(r) == first_candidate(nodes_view(nodes@)),
{
    let mut i: usize = 0;
    proof {
        assert(nodes_view(nodes@).skip(0) =~= nodes_view(nodes@));
    }
    while i < nodes.len()
        invariant
            i <= nodes@.len(),
            first_candidate(nodes_view(nodes@)) == first_candidate(nodes_view(nodes@).skip(i as int)),
        decreases nodes@.len() - i,
    {
        let attrs = &nodes[i].attrs;
        let ghost av = attrs@.map_values(|a: Option<String>| opt_view(a));
        let mut j: usize = 0;
        proof {
            assert(av.skip(0) =~= av);
            assert(nodes_view(nodes@).skip(i as int)[0].1 == av);
        }
        while j < attrs.len()
            invariant
                j <= attrs@.len(),
                i < nodes@.len(),
                av == attrs@.map_values(|a: Option<String>| opt_view(a)),
                nodes_view(nodes@).skip(i as int)[0].1 == av,
                first_candidate(nodes_view(nodes@)) == first_candidate(nodes_view(nodes@).skip(i as int)),
                first_attr_value(av) == first_attr_value(av.skip(j as int)),
            decreases attrs@.len() - j,
        {
            proof {
                assert(av.skip(j as int).drop_first() == av.skip(j + 1));
                assert(av.skip(j as int)[0] == opt_view(attrs@[j as int]));
            }
            match &attrs[j] {
                Some(v) => {
                    let vc = chars_of(v.as_str());
                    let (a, b) = trim_range(&vc, 0, vc.len());
                    proof {
                        assert(vc@.subrange(0, vc@.len() as int) =~= vc@);
                    }
                    if a < b {
                        return Some(string_of(&slice_vec(&vc, a, b)));
                    }
                },
                None => {},
            }
            j = j + 1;
        }
        proof {
            assert(av.skip(j as int).len() == 0);
            assert(first_attr_value(av) is None);
            assert(nodes_view(nodes@).skip(i as int).drop_first() == nodes_view(nodes@).skip(i + 1));
        }
        i = i + 1;
    }
    None
}

/// The first whitespace-separated word of `s[lo..hi]`, as bounds.
fn first_word_range(s: &Vec<char>, lo: usize, hi: usize) -> (r: Option<(usize, usize)>)
    requires
        lo <= hi <= s@.len(),
    ensures
        match r {
            Some((a, b)) => lo <= a <= b <= hi && first_word(s@.subrange(lo as int, hi as int)) == Some(
                s@.subrange(a as int, b as int),
            ),
            None => first_word(s@.subrange(lo as int, hi as int)) is None,
        },
{
    let mut a = lo;
    while a < hi && is_whitespace(s[a])
        invariant
            lo <= a <= hi <= s@.len(),
            strip_lead(s@.subrange(lo as int, hi as int), ws()) == strip_lead(s@.subrange(a as int, hi as int), ws()),
        decreases hi - a,
    {
        proof {
            assert(s@.subrange(a as int, hi as int).drop_first() == s@.subrange(a + 1, hi as int));
        }
        a = a + 1;
    }
    proof {
        if a == hi {
            assert(s@.subrange(a as int, hi as int).len() == 0);
        }
        assert(strip_lead(s@.subrange(lo as int, hi as int), ws()) == s@.subrange(a as int, hi as int));
    }
    let mut b = a;
    while b < hi && !is_whitespace(s[b])
        invariant
            a <= b <= hi <= s@.len(),
            word_run(s@.subrange(a as int, hi as int)) == s@.subrange(a as int, b as int) + word_run(
                s@.subrange(b as int, hi as int),
            ),
        decreases hi - b,
    {
        proof {
            assert(s@.subrange(b as int, hi as int).drop_first() == s@.subrange(b + 1, hi as int));
            assert(s@.subrange(a as int, b + 1) == s@.subrange(a as int, b as int) + seq![s@[b as int]]);
        }
        b = b + 1;
    }
    proof {
        assert(word_run(s@.subrange(b as int, hi as int)) =~= Seq::<char>::empty());
        assert(s@.subrange(a as int, b as int) + Seq::<char>::empty() == s@.subrange(a as int, b as int));
    }
    if a < b {
        Some((a, b))
    } else {
        None
    }
}

/// The first URL of a `srcset`-like value.
fn srcset_first_of(raw: &Vec<char>) -> (r: Vec<char>)
    ensures
        r@ == srcset_first(raw@),
{
    let comma: Vec<char> = vec![','];
    proof {
        reveal_strlit(",");
        assert(comma@ =~= ","@);
    }
    let end = match find_first(raw, &comma) {
        Some(i) => {
            proof {
                lemma_find_from(raw@, comma@, 0);
                assert(raw@.subrange(0, i as int) == raw@.take(i as int));
            }
            i
        },
        None => {
            proof {
                assert(raw@.subrange(0, raw@.len() as int) == raw@);
            }
            raw.len()
        },
    };
    match first_word_range(raw, 0, end) {
        Some((a, b)) => {
            let (c, d) = trim_range(raw, a, b);
            proof {
                assert(raw@.subrange(a as int, b as int).subrange(c - a, d - a) == raw@.subrange(c as int, d as int));
            }
            slice_vec(raw, c, d)
        },
        None => {
            let (c, d) = trim_range(raw, 0, raw.len());
            proof {
                assert(raw@.subrange(0, raw@.len() as int) == raw@);
            }
            slice_vec(raw, c, d)
        },
    }
}

/// The image URL in an element's own style.
fn style_image_of(style: &Option<String>) -> (r: Result<Option<String>, ()>)
    ensures
        match r {
            Ok(x) => style_image(opt_view(*style)) == Ok::<Option<Seq<char>>, ()>(opt_view(x)),
            Err(_) => style_image(opt_view(*style)) is Err,
        },
{
    match style {
        None => Ok(None),
        Some(st) => match background_image_url_checked(st.as_str()) {
            Err(_) => Err(()),
            Ok(None) => Ok(None),
            Ok(Some(v)) => Ok(Some(WebScraper::normalize_image_url(v.as_str()))),
        },
    }
}

/// The site scraper: reading search results, covers and details out of the pages of
/// the supported sources.
pub struct WebScraper;

impl WebScraper {
    /// Trims an image URL and gives a protocol-relative one the `https:` scheme.
    pub fn normalize_image_url(raw: &str) -> (r: String)
        ensures
            r@ == normalize_spec(raw@),
    {
        let v = chars_of(raw);
        let (a, b) = trim_range(&v, 0, v.len());
        proof {
            assert(v@.subrange(0, v@.len() as int) =~= v@);
        }
        let t = slice_vec(&v, a, b);
        if starts_with(&t, &chars_of("//")) {
            string_of(&concat(&chars_of("https:"), &t))
        } else {
            string_of(&t)
        }
    }

    /// The URL inside the first `url(...)` of a CSS style.
    pub fn extract_background_image_url(style: &str) -> (r: Option<String>)
        requires
            background_slice_ok(style@),
        ensures
            match r {
                Some(v) => background_url_spec(style@) == Some(v@),
                None => background_url_spec(style@) is None,
            },
    {
        match background_image_url_checked(style) {
            Ok(v) => v,
            Err(_) => None,
        }
    }

    /// An absolute Niadd URL for a link, or the error of resolving it.
    pub fn to_abs_niadd(href: &str) -> (r: Result<String, String>)
        ensures
            res_view(r) == absolute_spec(niadd_base(), href@),
    {
        to_absolute("https://br.niadd.com", href)
    }

    /// An absolute MangaLivre URL for a link, or the error of resolving it.
    pub fn to_abs_mangalivre(href: &str) -> (r: Result<String, String>)
        ensures
            res_view(r) == absolute_spec(mangalivre_base(), href@),
    {
        to_absolute("https://mangalivre.tv", href)
    }

    /// The image URL of an element (see `element_image_spec`).
    pub fn extract_image_url_from_element(nodes: &Vec<Node>, own_style: &Option<String>) -> (r: Result<Option<String>, ()>)
        ensures
            match r {
                Ok(x) => element_image_spec(nodes_view(nodes@), opt_view(*own_style)) == Ok::<Option<Seq<char>>, ()>(opt_view(x)),
                Err(_) => element_image_spec(nodes_view(nodes@), opt_view(*own_style)) is Err,
            },
    {
        match first_candidate_of(nodes) {
            Some(raw) => {
                let rv = chars_of(raw.as_str());
                if contains(&rv, &chars_of("url(")) {
                    match background_image_url_checked(raw.as_str()) {
                        Err(_) => {
                            return Err(());
                        },
                        Ok(Some(v)) => {
                            return Ok(Some(Self::normalize_image_url(v.as_str())));
                        },
                        Ok(None) => {},
                    }
                }
                let f = srcset_first_of(&rv);
                if f.len() > 0 {
                    Ok(Some(Self::normalize_image_url(string_of(&f).as_str())))
                } else {
                    style_image_of(own_style)
                }
            },
            None => style_image_of(own_style),
        }
    }
}

} // verus!
