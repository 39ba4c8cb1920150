use vstd::prelude::*;
use vstd::std_specs::iter::IteratorSpec;

verus! {

// ---------------------------------------------------------------------------
// Character properties and case mapping from std
// ---------------------------------------------------------------------------

/// The Unicode `White_Space` property of a character, which `char::is_whitespace` reports:
/// tab to carriage return, space, next line, no-break space, ogham space mark, en quad to
/// hair space, line and paragraph separators, narrow no-break space, medium mathematical
/// space and ideographic space.
pub open spec fn unicode_whitespace(c: char) -> bool {
    let u = c as u32;
    ||| 0x09 <= u <= 0x0D
    ||| u == 0x20
    ||| u == 0x85
    ||| u == 0xA0
    ||| u == 0x1680
    ||| 0x2000 <= u <= 0x200A
    ||| u == 0x2028
    ||| u == 0x2029
    ||| u == 0x202F
    ||| u == 0x205F
    ||| u == 0x3000
}

/// The Unicode alphabetic-or-numeric property of a character, as `char::is_alphanumeric`
/// reports it.
pub uninterp spec fn unicode_alphanumeric(c: char) -> bool;

/// The Unicode numeric property of a character, as `char::is_numeric` reports it.
pub uninterp spec fn unicode_numeric(c: char) -> bool;

/// The full Unicode lowercase mapping of a string, as `str::to_lowercase` computes it.
pub uninterp spec fn lowercase_of(s: Seq<char>) -> Seq<char>;

/// Whether a character has the White_Space property (what `char::is_whitespace` reports).
pub(crate) fn is_whitespace(c: char) -> (r: bool)
    ensures
        r == unicode_whitespace(c),
{
    let u = c as u32;
    (0x09 <= u && u <= 0x0D) || u == 0x20 || u == 0x85 || u == 0xA0 || u == 0x1680 || (0x2000 <= u && u <= 0x200A)
        || u == 0x2028 || u == 0x2029 || u == 0x202F || u == 0x205F || u == 0x3000
}

/// Calls `char::is_alphanumeric`. Claimed: the result is the character's alphabetic-or-numeric
/// property; of the ASCII characters, the letters and digits have it and no others.
#[verifier::external_body]
pub(crate) fn is_alphanumeric(c: char) -> (r: bool)
    ensures
        r == unicode_alphanumeric(c),
        (('a' <= c && c <= 'z') || ('A' <= c && c <= 'Z') || ('0' <= c && c <= '9')) ==> r,
        (c as u32) < 128 ==> (r <==> (('a' <= c && c <= 'z') || ('A' <= c && c <= 'Z') || ('0' <= c
            && c <= '9'))),
{
    c.is_alphanumeric()
}

/// Calls `char::is_numeric`. Claimed: the result is the character's numeric property
/// (general categories Nd, Nl, No); of the ASCII characters, the digits have it and no others.
#[verifier::external_body]
pub(crate) fn is_numeric(c: char) -> (r: bool)
    ensures
        r == unicode_numeric(c),
        ('0' <= c && c <= '9') ==> r,
        (c as u32) < 128 ==> (r <==> ('0' <= c && c <= '9')),
{
    c.is_numeric()
}

/// Whether every character of a text is ASCII.
pub open spec fn ascii_only(s: Seq<char>) -> bool {
    forall|i: int| 0 <= i < s.len() ==> (#[trigger] s[i] as u32) < 128
}

/// The lowercase of a text, computed by ASCII folding where the text is ASCII (where the
/// Unicode mapping agrees with it) and given by `lowercase_of` elsewhere.
pub open spec fn lower_spec(s: Seq<char>) -> Seq<char> {
    if ascii_only(s) {
        ascii_lower_seq(s)
    } else {
        lowercase_of(s)
    }
}

/// Calls `str::to_lowercase`. Claimed: the result is the string's Unicode lowercase
/// mapping, named `lowercase_of`; on a string of ASCII characters it maps `A`-`Z` to
/// `a`-`z` and keeps every other character.
#[verifier::external_body]
pub(crate) fn to_lowercase(s: &str) -> (r: String)
    ensures
        r@ == lowercase_of(s@),
        ascii_only(s@) ==> r@ == ascii_lower_seq(s@),
{
    s.to_lowercase()
}

/// Calls `String::push`. Claimed: the character is appended.
#[verifier::external_body]
pub(crate) fn push_char(s: &mut String, c: char)
    ensures
        final(s)@ == old(s)@.push(c),
{
    s.push(c)
}

// ---------------------------------------------------------------------------
// Conversions between strings and character vectors
// ---------------------------------------------------------------------------

/// The characters of a string slice, in order.
pub fn chars_of(s: &str) -> (v: Vec<char>)
    ensures
        v@ == s@,
{
    broadcast use vstd::string::group_string_axioms;
    let mut v: Vec<char> = Vec::new();
    let mut it = s.chars();
    loop
        invariant
            v@ + it.remaining() == s@,
        ensures
            v@ == s@,
        decreases s@.len() - v@.len(),
    {
        let ghost before = it.remaining();
        match it.next() {
            Some(c) => {
                proof {
                    assert(v@.push(c) + it.remaining() == v@ + before);
                }
                v.push(c);
            },
            None => {
                proof {
                    assert(v@ + it.remaining() == v@);
                }
                break;
            },
        }
    }
    v
}

/// An owned copy of a string slice.
pub fn owned(s: &str) -> (r: String)
    ensures
        r@ == s@,
{
    s.to_owned()
}

/// The concatenation of two string slices.
pub fn join2(a: &str, b: &str) -> (r: String)
    ensures
        r@ == a@ + b@,
{
    let mut r = owned(a);
    r.append(b);
    r
}

/// A string holding the characters `v[lo..hi]`.
pub fn string_of_range(v: &Vec<char>, lo: usize, hi: usize) -> (r: String)
    requires
        lo <= hi <= v.len(),
    ensures
        r@ == v@.subrange(lo as int, hi as int),
{
    let mut r = String::new();
    let mut i = lo;
    while i < hi
        invariant
            lo <= i <= hi <= v.len(),
            r@ == v@.subrange(lo as int, i as int),
        decreases hi - i,
    {
        push_char(&mut r, v[i]);
        proof {
            assert(v@.subrange(lo as int, i + 1) == v@.subrange(lo as int, i as int).push(v@[i as int]));
        }
        i = i + 1;
    }
    r
}

/// A string holding all characters of `v`.
pub fn string_of(v: &Vec<char>) -> (r: String)
    ensures
        r@ == v@,
{
    let r = string_of_range(v, 0, v.len());
    proof {
        assert(v@.subrange(0, v@.len() as int) == v@);
    }
    r
}


// ---------------------------------------------------------------------------
// Searching
// ---------------------------------------------------------------------------

/// `p` occurs in `s` starting at index `i`.
pub open spec fn occurs_at(s: Seq<char>, p: Seq<char>, i: int) -> bool {
    0 <= i && i + p.len() <= s.len() && s.subrange(i, i + p.len()) == p
}

/// `s` begins with `p`.
pub open spec fn has_prefix(s: Seq<char>, p: Seq<char>) -> bool {
    occurs_at(s, p, 0)
}

/// `s` ends with `p`.
pub open spec fn has_suffix(s: Seq<char>, p: Seq<char>) -> bool {
    p.len() <= s.len() && occurs_at(s, p, s.len() - p.len())
}

/// The first index at or after `i` where `p` occurs in `s`, if any.
pub open spec fn find_from(s: Seq<char>, p: Seq<char>, i: int) -> Option<int>
    decreases s.len() + 1 - i,
{
    if i < 0 || i + p.len() > s.len() {
        None
    } else if occurs_at(s, p, i) {
        Some(i)
    } else {
        find_from(s, p, i + 1)
    }
}

/// The first index where `p` occurs in `s`, if any (what `str::find` gives, counted in chars).
pub open spec fn find_text(s: Seq<char>, p: Seq<char>) -> Option<int> {
    find_from(s, p, 0)
}

/// `p` occurs somewhere in `s`.
pub open spec fn contains_text(s: Seq<char>, p: Seq<char>) -> bool {
    find_text(s, p) is Some
}

/// What `find_from` returns: the least occurrence at or after `i`.
pub proof fn lemma_find_from(s: Seq<char>, p: Seq<char>, i: int)
    requires
        0 <= i,
    ensures
        match find_from(s, p, i) {
            Some(k) => i <= k && occurs_at(s, p, k) && forall|j: int| i <= j < k ==> !occurs_at(s, p, j),
            None => forall|j: int| i <= j ==> !occurs_at(s, p, j),
        },
    decreases s.len() + 1 - i,
{
    if i + p.len() > s.len() {
    } else if occurs_at(s, p, i) {
    } else {
        lemma_find_from(s, p, i + 1);
    }
}

/// Whether `p` occurs in `s` at index `i`.
pub fn matches_at(s: &Vec<char>, p: &Vec<char>, i: usize) -> (r: bool)
    ensures
        r == occurs_at(s@, p@, i as int),
{
    if i > s.len() || p.len() > s.len() - i {
        return false;
    }
    let mut k: usize = 0;
    while k < p.len()
        invariant
            i + p@.len() <= s@.len(),
            s@.len() <= usize::MAX,
            k <= p@.len(),
            forall|j: int| 0 <= j < k ==> s@[i + j] == p@[j],
        decreases p@.len() - k,
    {
        if s[i + k] != p[k] {
            proof {
                assert(s@.subrange(i as int, i + p@.len())[k as int] != p@[k as int]);
            }
            return false;
        }
        k = k + 1;
    }
    proof {
        assert(s@.subrange(i as int, i + p@.len()) =~= p@);
    }
    true
}

/// The first index at or after `from` where `p` occurs in `s`.
pub fn find_from_index(s: &Vec<char>, p: &Vec<char>, from: usize) -> (r: Option<usize>)
    ensures
        match r {
            Some(k) => find_from(s@, p@, from as int) == Some(k as int),
            None => find_from(s@, p@, from as int) is None,
        },
{
    if p.len() == 0 {
        if from <= s.len() {
            proof {
                assert(s@.subrange(from as int, from as int) =~= p@);
            }
            return Some(from);
        }
        return None;
    }
    let mut i = from;
    while i <= s.len() && p.len() <= s.len() - i
        invariant
            from <= i,
            p@.len() > 0,
            find_from(s@, p@, from as int) == find_from(s@, p@, i as int),
        decreases s@.len() - i,
    {
        if matches_at(s, p, i) {
            return Some(i);
        }
        i = i + 1;
    }
    None
}

/// The first index where `p` occurs in `s`.
pub fn find_first(s: &Vec<char>, p: &Vec<char>) -> (r: Option<usize>)
    ensures
        match r {
            Some(k) => find_text(s@, p@) == Some(k as int),
            None => find_text(s@, p@) is None,
        },
{
    find_from_index(s, p, 0)
}

/// Whether `p` occurs in `s`.
pub fn contains(s: &Vec<char>, p: &Vec<char>) -> (r: bool)
    ensures
        r == contains_text(s@, p@),
{
    find_first(s, p).is_some()
}

/// Whether `s` begins with `p`.
pub fn starts_with(s: &Vec<char>, p: &Vec<char>) -> (r: bool)
    ensures
        r == has_prefix(s@, p@),
{
    matches_at(s, p, 0)
}

/// Whether `s` ends with `p`.
pub fn ends_with(s: &Vec<char>, p: &Vec<char>) -> (r: bool)
    ensures
        r == has_suffix(s@, p@),
{
    if p.len() > s.len() {
        false
    } else {
        matches_at(s, p, s.len() - p.len())
    }
}

// ---------------------------------------------------------------------------
// Trimming
// ---------------------------------------------------------------------------

/// `s` without the leading characters that satisfy `f`.
pub open spec fn strip_lead(s: Seq<char>, f: spec_fn(char) -> bool) -> Seq<char>
    decreases s.len(),
{
    if s.len() > 0 && f(s[0]) {
        strip_lead(s.drop_first(), f)
    } else {
        s
    }
}

/// `s` without the trailing characters that satisfy `f`.
pub open spec fn strip_trail(s: Seq<char>, f: spec_fn(char) -> bool) -> Seq<char>
    decreases s.len(),
{
    if s.len() > 0 && f(s.last()) {
        strip_trail(s.drop_last(), f)
    } else {
        s
    }
}

/// `s` without leading and trailing characters that satisfy `f` (`str::trim_matches`).
pub open spec fn strip_both(s: Seq<char>, f: spec_fn(char) -> bool) -> Seq<char> {
    strip_trail(strip_lead(s, f), f)
}

/// The whitespace predicate of `str::trim`.
pub open spec fn ws() -> spec_fn(char) -> bool {
    |c: char| unicode_whitespace(c)
}

/// Membership in a set of characters.
pub open spec fn one_of(set: Seq<char>) -> spec_fn(char) -> bool {
    |c: char| set.contains(c)
}

/// What `str::trim` gives.
pub open spec fn trim_spec(s: Seq<char>) -> Seq<char> {
    strip_both(s, ws())
}

/// What `strip_lead` leaves does not start with a stripped character.
pub proof fn lemma_strip_lead_first(s: Seq<char>, f: spec_fn(char) -> bool)
    ensures
        strip_lead(s, f).len() == 0 || !f(strip_lead(s, f)[0]),
    decreases s.len(),
{
    if s.len() > 0 && f(s[0]) {
        lemma_strip_lead_first(s.drop_first(), f);
    }
}

/// What `strip_trail` leaves is a prefix that does not end with a stripped character.
pub proof fn lemma_strip_trail_prefix(s: Seq<char>, f: spec_fn(char) -> bool)
    ensures
        strip_trail(s, f).len() <= s.len(),
        forall|i: int| 0 <= i < strip_trail(s, f).len() ==> strip_trail(s, f)[i] == s[i],
        strip_trail(s, f).len() == 0 || !f(strip_trail(s, f).last()),
    decreases s.len(),
{
    if s.len() > 0 && f(s.last()) {
        lemma_strip_trail_prefix(s.drop_last(), f);
        assert forall|i: int| 0 <= i < strip_trail(s, f).len() implies strip_trail(s, f)[i] == s[i] by {
            assert(s.drop_last()[i] == s[i]);
        }
    }
}

/// Stripping twice strips nothing more.
pub proof fn lemma_strip_both_idempotent(s: Seq<char>, f: spec_fn(char) -> bool)
    ensures
        strip_both(strip_both(s, f), f) == strip_both(s, f),
{
    let a = strip_lead(s, f);
    let b = strip_trail(a, f);
    lemma_strip_lead_first(s, f);
    lemma_strip_trail_prefix(a, f);
    if b.len() > 0 {
        assert(b[0] == a[0]);
    }
    assert(strip_lead(b, f) == b);
    assert(strip_trail(b, f) == b);
}

/// A text that neither starts nor ends with a stripped character is left as it is.
pub proof fn lemma_strip_both_unchanged(s: Seq<char>, f: spec_fn(char) -> bool)
    requires
        s.len() > 0,
        !f(s[0]),
        !f(s.last()),
    ensures
        strip_both(s, f) == s,
{
    assert(strip_lead(s, f) == s);
}

/// Trimming twice trims nothing more.
pub proof fn lemma_trim_idempotent(s: Seq<char>)
    ensures
        trim_spec(trim_spec(s)) == trim_spec(s),
{
    lemma_strip_both_idempotent(s, ws());
}

/// Whether `c` is in `set`.
pub fn char_in(set: &Vec<char>, c: char) -> (r: bool)
    ensures
        r == set@.contains(c),
{
    let mut i: usize = 0;
    while i < set.len()
        invariant
            i <= set@.len(),
            forall|j: int| 0 <= j < i ==> set@[j] != c,
        decreases set@.len() - i,
    {
        if set[i] == c {
            proof {
                assert(set@[i as int] == c);
            }
            return true;
        }
        i = i + 1;
    }
    false
}

/// The classes of characters that trimming can strip.
pub enum CharClass {
    /// Unicode whitespace (`str::trim`).
    Whitespace,
    /// The listed characters (`str::trim_matches` with a char set).
    AnyOf(Vec<char>),
    /// Characters that are not numeric (`str::trim_matches(|c: char| !c.is_numeric())`).
    NonNumeric,
}

/// The predicate of a character class.
pub open spec fn class_pred(class: CharClass) -> spec_fn(char) -> bool {
    match class {
        CharClass::Whitespace => ws(),
        CharClass::AnyOf(v) => one_of(v@),
        CharClass::NonNumeric => |c: char| !unicode_numeric(c),
    }
}

/// Whether `c` belongs to `class`.
pub fn in_class(class: &CharClass, c: char) -> (r: bool)
    ensures
        r == class_pred(*class)(c),
{
    match class {
        CharClass::Whitespace => is_whitespace(c),
        CharClass::AnyOf(v) => char_in(v, c),
        CharClass::NonNumeric => !is_numeric(c),
    }
}

/// The bounds of `s[lo..hi]` with the characters of `class` stripped from both ends.
pub fn strip_range(s: &Vec<char>, lo: usize, hi: usize, class: &CharClass) -> (r: (usize, usize))
    requires
        lo <= hi <= s@.len(),
    ensures
        lo <= r.0 <= r.1 <= hi,
        s@.subrange(r.0 as int, r.1 as int) == strip_both(s@.subrange(lo as int, hi as int), class_pred(*class)),
{
    let ghost f = class_pred(*class);
    let mut a = lo;
    while a < hi && in_class(class, s[a])
        invariant
            lo <= a <= hi <= s@.len(),
            f == class_pred(*class),
            strip_lead(s@.subrange(lo as int, hi as int), f) == strip_lead(s@.subrange(a as int, hi as int), f),
        decreases hi - a,
    {
        proof {
            assert(s@.subrange(a as int, hi as int).drop_first() == s@.subrange(a + 1, hi as int));
        }
        a = a + 1;
    }
    proof {
        if a == hi {
            assert(s@.subrange(a as int, hi as int).len() == 0);
        }
    }
    let mut b = hi;
    while b > a && in_class(class, s[b - 1])
        invariant
            lo <= a <= b <= hi <= s@.len(),
            f == class_pred(*class),
            strip_lead(s@.subrange(lo as int, hi as int), f) == s@.subrange(a as int, hi as int),
            strip_trail(s@.subrange(a as int, hi as int), f) == strip_trail(s@.subrange(a as int, b as int), f),
        decreases b - a,
    {
        proof {
            assert(s@.subrange(a as int, b as int).drop_last() == s@.subrange(a as int, b - 1));
            assert(s@.subrange(a as int, b as int).last() == s@[b - 1]);
        }
        b = b - 1;
    }
    proof {
        if b > a {
            assert(s@.subrange(a as int, b as int).last() == s@[b - 1]);
        }
    }
    (a, b)
}

/// What `str::trim` gives on `s[lo..hi]`, as bounds.
pub fn trim_range(s: &Vec<char>, lo: usize, hi: usize) -> (r: (usize, usize))
    requires
        lo <= hi <= s@.len(),
    ensures
        lo <= r.0 <= r.1 <= hi,
        s@.subrange(r.0 as int, r.1 as int) == trim_spec(s@.subrange(lo as int, hi as int)),
{
    strip_range(s, lo, hi, &CharClass::Whitespace)
}

/// What `str::trim` gives.
pub fn trim(s: &Vec<char>) -> (r: Vec<char>)
    ensures
        r@ == trim_spec(s@),
{
    let (a, b) = trim_range(s, 0, s.len());
    proof {
        assert(s@.subrange(0, s@.len() as int) == s@);
    }
    slice_vec(s, a, b)
}

/// The characters `s[lo..hi]`.
pub fn slice_vec(s: &Vec<char>, lo: usize, hi: usize) -> (r: Vec<char>)
    requires
        lo <= hi <= s@.len(),
    ensures
        r@ == s@.subrange(lo as int, hi as int),
{
    let mut r: Vec<char> = Vec::new();
    let mut i = lo;
    while i < hi
        invariant
            lo <= i <= hi <= s@.len(),
            r@ == s@.subrange(lo as int, i as int),
        decreases hi - i,
    {
        r.push(s[i]);
        proof {
            assert(s@.subrange(lo as int, i + 1) == s@.subrange(lo as int, i as int).push(s@[i as int]));
        }
        i = i + 1;
    }
    r
}


// ---------------------------------------------------------------------------
// Ordering of strings (what `Ord for String` compares: code points, lexicographically)
// ---------------------------------------------------------------------------

/// `a` sorts strictly before `b`.
pub open spec fn lex_lt(a: Seq<char>, b: Seq<char>) -> bool
    decreases a.len(),
{
    if a.len() == 0 {
        b.len() > 0
    } else if b.len() == 0 {
        false
    } else if a[0] < b[0] {
        true
    } else if a[0] == b[0] {
        lex_lt(a.drop_first(), b.drop_first())
    } else {
        false
    }
}

/// No string sorts before itself.
pub proof fn lemma_lex_irreflexive(a: Seq<char>)
    ensures
        !lex_lt(a, a),
    decreases a.len(),
{
    if a.len() > 0 {
        lemma_lex_irreflexive(a.drop_first());
    }
}

/// Two different strings are ordered one way or the other, and not both.
pub proof fn lemma_lex_total(a: Seq<char>, b: Seq<char>)
    ensures
        a != b ==> (lex_lt(a, b) || lex_lt(b, a)),
        !(lex_lt(a, b) && lex_lt(b, a)),
    decreases a.len(),
{
    if a.len() > 0 && b.len() > 0 {
        lemma_lex_total(a.drop_first(), b.drop_first());
        if a != b && a[0] == b[0] {
            assert(a.drop_first() != b.drop_first()) by {
                if a.drop_first() == b.drop_first() {
                    assert(a =~= seq![a[0]] + a.drop_first());
                    assert(b =~= seq![b[0]] + b.drop_first());
                }
            }
        }
    } else if a.len() == 0 && b.len() == 0 {
        assert(a =~= b);
    }
}

/// The order is transitive.
pub proof fn lemma_lex_transitive(a: Seq<char>, b: Seq<char>, c: Seq<char>)
    requires
        lex_lt(a, b),
        lex_lt(b, c),
    ensures
        lex_lt(a, c),
    decreases a.len(),
{
    if a.len() > 0 && b.len() > 0 && c.len() > 0 {
        if a[0] == b[0] && b[0] == c[0] {
            lemma_lex_transitive(a.drop_first(), b.drop_first(), c.drop_first());
        }
    }
}

/// Whether `a` sorts strictly before `b`.
pub fn lex_less(a: &Vec<char>, b: &Vec<char>) -> (r: bool)
    ensures
        r == lex_lt(a@, b@),
{
    let mut i: usize = 0;
    proof {
        assert(a@.skip(0) =~= a@);
        assert(b@.skip(0) =~= b@);
    }
    while i < a.len() && i < b.len() && a[i] == b[i]
        invariant
            i <= a@.len(),
            i <= b@.len(),
            lex_lt(a@, b@) == lex_lt(a@.skip(i as int), b@.skip(i as int)),
        decreases a@.len() - i,
    {
        proof {
            assert(a@.skip(i as int).drop_first() == a@.skip(i + 1));
            assert(b@.skip(i as int).drop_first() == b@.skip(i + 1));
        }
        i = i + 1;
    }
    if i == a.len() {
        i < b.len()
    } else if i == b.len() {
        false
    } else {
        a[i] < b[i]
    }
}

/// Whether two character vectors hold the same characters.
pub fn same_chars(a: &Vec<char>, b: &Vec<char>) -> (r: bool)
    ensures
        r == (a@ == b@),
{
    if a.len() != b.len() {
        return false;
    }
    let mut i: usize = 0;
    while i < a.len()
        invariant
            a@.len() == b@.len(),
            i <= a@.len(),
            forall|j: int| 0 <= j < i ==> a@[j] == b@[j],
        decreases a@.len() - i,
    {
        if a[i] != b[i] {
            return false;
        }
        i = i + 1;
    }
    proof {
        assert(a@ =~= b@);
    }
    true
}

/// The character sequences of a list of character vectors.
pub open spec fn views(v: Seq<Vec<char>>) -> Seq<Seq<char>> {
    v.map_values(|x: Vec<char>| x@)
}

/// The character sequences of a list of strings.
pub open spec fn string_views(v: Seq<String>) -> Seq<Seq<char>> {
    v.map_values(|x: String| x@)
}

/// Every element sorts strictly before every later one.
pub open spec fn strictly_sorted(s: Seq<Seq<char>>) -> bool {
    forall|i: int, j: int| 0 <= i < j < s.len() ==> lex_lt(#[trigger] s[i], #[trigger] s[j])
}

/// Inserts `x` into a strictly sorted list unless it is already there.
pub fn insert_sorted_unique(v: &mut Vec<Vec<char>>, x: Vec<char>)
    requires
        strictly_sorted(views(old(v)@)),
    ensures
        strictly_sorted(views(final(v)@)),
        views(final(v)@).to_set() == views(old(v)@).to_set().insert(x@),
{
    let ghost old_v = views(v@);
    let mut p: usize = 0;
    while p < v.len() && lex_less(&v[p], &x)
        invariant
            views(v@) == old_v,
            p <= v.len(),
            forall|i: int| 0 <= i < p ==> lex_lt(#[trigger] old_v[i], x@),
        decreases v.len() - p,
    {
        p = p + 1;
    }
    if p < v.len() && same_chars(&v[p], &x) {
        proof {
            assert(old_v[p as int] == x@);
            assert(old_v.to_set().insert(x@) =~= old_v.to_set());
        }
        return;
    }
    proof {
        if p < old_v.len() {
            lemma_lex_total(old_v[p as int], x@);
        }
        assert forall|j: int| p <= j < old_v.len() implies lex_lt(x@, #[trigger] old_v[j]) by {
            if j > p {
                assert(lex_lt(old_v[p as int], old_v[j]));
                lemma_lex_transitive(x@, old_v[p as int], old_v[j]);
            }
        }
    }
    v.insert(p, x);
    proof {
        let nv = views(v@);
        assert(nv =~= old_v.insert(p as int, x@));
        assert forall|i: int, j: int| 0 <= i < j < nv.len() implies lex_lt(#[trigger] nv[i], #[trigger] nv[j]) by {
            if j < p {
            } else if j == p {
            } else if i < p {
                assert(nv[j] == old_v[j - 1]);
                lemma_lex_transitive(nv[i], x@, nv[j]);
            } else if i == p {
                assert(nv[j] == old_v[j - 1]);
            } else {
                assert(nv[i] == old_v[i - 1]);
                assert(nv[j] == old_v[j - 1]);
            }
        }
        assert forall|y: Seq<char>| nv.to_set().contains(y) <==> old_v.to_set().insert(x@).contains(y) by {
            if nv.contains(y) {
                let k = choose|k: int| 0 <= k < nv.len() && nv[k] == y;
                if k < p {
                    assert(old_v[k] == y);
                } else if k > p {
                    assert(old_v[k - 1] == y);
                }
            }
            if old_v.contains(y) {
                let k = choose|k: int| 0 <= k < old_v.len() && old_v[k] == y;
                if k < p {
                    assert(nv[k] == y);
                } else {
                    assert(nv[k + 1] == y);
                }
            }
            if y == x@ {
                assert(nv[p as int] == y);
            }
        }
        assert(nv.to_set() =~= old_v.to_set().insert(x@));
    }
}

/// Converts a list of character vectors to strings, in order.
pub fn strings_of(v: &Vec<Vec<char>>) -> (r: Vec<String>)
    ensures
        string_views(r@) == views(v@),
{
    let mut r: Vec<String> = Vec::new();
    let mut i: usize = 0;
    while i < v.len()
        invariant
            i <= v.len(),
            r@.len() == i,
            string_views(r@) == views(v@).take(i as int),
        decreases v.len() - i,
    {
        let s = string_of(&v[i]);
        let ghost prev = r@;
        r.push(s);
        proof {
            assert forall|k: int| 0 <= k < i + 1 implies string_views(r@)[k] == views(v@).take(i + 1)[k] by {
                if k < i {
                    assert(string_views(prev)[k] == views(v@).take(i as int)[k]);
                }
            }
            assert(string_views(r@) =~= views(v@).take(i + 1));
        }
        i = i + 1;
    }
    proof {
        assert(views(v@).take(v.len() as int) =~= views(v@));
    }
    r
}

// ---------------------------------------------------------------------------
// Splitting
// ---------------------------------------------------------------------------

/// The pieces of `s` between characters satisfying `f` (`str::split` with a char predicate);
/// empty pieces included, so there is always at least one.
pub open spec fn split_by(s: Seq<char>, f: spec_fn(char) -> bool) -> Seq<Seq<char>>
    decreases s.len(),
{
    if s.len() == 0 {
        seq![Seq::<char>::empty()]
    } else {
        let init = split_by(s.drop_last(), f);
        if f(s.last()) {
            init.push(Seq::<char>::empty())
        } else {
            init.update(init.len() - 1, init.last().push(s.last()))
        }
    }
}

/// There is always at least one piece.
pub proof fn lemma_split_nonempty(s: Seq<char>, f: spec_fn(char) -> bool)
    ensures
        split_by(s, f).len() >= 1,
    decreases s.len(),
{
    if s.len() > 0 {
        lemma_split_nonempty(s.drop_last(), f);
    }
}

/// The last piece of a split is what follows the last separator.
pub proof fn lemma_split_last(s: Seq<char>, f: spec_fn(char) -> bool, k: int)
    requires
        0 <= k <= s.len(),
        forall|i: int| k <= i < s.len() ==> !f(#[trigger] s[i]),
        k == 0 || f(s[k - 1]),
    ensures
        split_by(s, f).last() == s.skip(k),
    decreases s.len(),
{
    if s.len() == 0 {
    } else if s.len() == k {
        assert(s.skip(k).len() == 0);
        assert(s.skip(k) =~= Seq::<char>::empty());
    } else {
        let init = split_by(s.drop_last(), f);
        lemma_split_last(s.drop_last(), f, k);
        lemma_split_nonempty(s.drop_last(), f);
        assert(s.drop_last().skip(k).push(s.last()) =~= s.skip(k));
    }
}

/// The last non-empty piece of a split ends at the last character outside the class.
pub proof fn lemma_last_nonempty_piece(s: Seq<char>, f: spec_fn(char) -> bool, a: int, b: int)
    requires
        0 <= a <= b <= s.len(),
        forall|i: int| b <= i < s.len() ==> f(#[trigger] s[i]),
        forall|i: int| a <= i < b ==> !f(#[trigger] s[i]),
        a == 0 || f(s[a - 1]),
    ensures
        b > a ==> last_piece(split_by(s, f)) == Some(s.subrange(a, b)),
        b == a && a == 0 ==> last_piece(split_by(s, f)) is None,
    decreases s.len(),
{
    lemma_split_nonempty(s, f);
    if s.len() > b {
        lemma_last_nonempty_piece(s.drop_last(), f, a, b);
        lemma_split_nonempty(s.drop_last(), f);
        assert(f(s.last()));
        assert(split_by(s, f) == split_by(s.drop_last(), f).push(Seq::<char>::empty()));
        assert(split_by(s, f).drop_last() =~= split_by(s.drop_last(), f));
        assert(split_by(s, f).last().len() == 0);
        assert(s.drop_last().subrange(a, b) == s.subrange(a, b));
        assert(last_piece(split_by(s, f)) == last_piece(split_by(s.drop_last(), f)));
        if b > a {
            assert(last_piece(split_by(s.drop_last(), f)) == Some(s.drop_last().subrange(a, b)));
            assert(last_piece(split_by(s, f)) == Some(s.subrange(a, b)));
        }
    } else if b > a {
        lemma_split_last(s, f, a);
        assert(s.skip(a) =~= s.subrange(a, b));
        assert(split_by(s, f).last().len() > 0);
        assert(last_piece(split_by(s, f)) == Some(s.subrange(a, b)));
    } else if a == 0 {
        assert(s.len() == 0);
        assert(split_by(s, f).drop_last() =~= Seq::<Seq<char>>::empty());
        assert(last_piece(split_by(s, f).drop_last()) is None);
    }
}

/// The last non-empty piece of a list of pieces (`split(..).rev().find(|p| !p.is_empty())`).
pub open spec fn last_piece(ps: Seq<Seq<char>>) -> Option<Seq<char>>
    decreases ps.len(),
{
    if ps.len() == 0 {
        None
    } else if ps.last().len() > 0 {
        Some(ps.last())
    } else {
        last_piece(ps.drop_last())
    }
}

/// The bounds of the last whitespace-separated word of `s[lo..hi]`
/// (`split_whitespace().rev().next()`).
pub fn last_word_range(s: &Vec<char>, lo: usize, hi: usize) -> (r: Option<(usize, usize)>)
    requires
        lo <= hi <= s@.len(),
    ensures
        match r {
            Some((a, b)) => lo <= a < b <= hi && last_piece(split_by(s@.subrange(lo as int, hi as int), ws()))
                == Some(s@.subrange(a as int, b as int)),
            None => last_piece(split_by(s@.subrange(lo as int, hi as int), ws())) is None,
        },
{
    let ghost t = s@.subrange(lo as int, hi as int);
    let mut b = hi;
    while b > lo && is_whitespace(s[b - 1])
        invariant
            lo <= b <= hi <= s@.len(),
            forall|i: int| b - lo <= i < t.len() ==> ws()(#[trigger] t[i]),
            t == s@.subrange(lo as int, hi as int),
        decreases b - lo,
    {
        b = b - 1;
    }
    let mut a = b;
    while a > lo && !is_whitespace(s[a - 1])
        invariant
            lo <= a <= b <= hi <= s@.len(),
            forall|i: int| b - lo <= i < t.len() ==> ws()(#[trigger] t[i]),
            forall|i: int| a - lo <= i < b - lo ==> !ws()(#[trigger] t[i]),
            t == s@.subrange(lo as int, hi as int),
        decreases a - lo,
    {
        a = a - 1;
    }
    proof {
        lemma_last_nonempty_piece(t, ws(), a - lo, b - lo);
        assert(t.subrange(a - lo, b - lo) == s@.subrange(a as int, b as int));
    }
    if a < b {
        Some((a, b))
    } else {
        None
    }
}

/// The bounds of the pieces of `s` between characters of `delims`.
pub fn split_ranges(s: &Vec<char>, delims: &Vec<char>) -> (r: Vec<(usize, usize)>)
    ensures
        r@.len() == split_by(s@, one_of(delims@)).len(),
        forall|k: int| 0 <= k < r@.len() ==> {
            &&& (#[trigger] r@[k]).0 <= r@[k].1 <= s@.len()
            &&& s@.subrange(r@[k].0 as int, r@[k].1 as int) == split_by(s@, one_of(delims@))[k]
        },
{
    let ghost f = one_of(delims@);
    let mut r: Vec<(usize, usize)> = Vec::new();
    let mut b: usize = 0;
    let mut i: usize = 0;
    while i < s.len()
        invariant
            f == one_of(delims@),
            b <= i <= s@.len(),
            split_by(s@.take(i as int), f).len() == r@.len() + 1,
            split_by(s@.take(i as int), f).last() == s@.subrange(b as int, i as int),
            forall|k: int| 0 <= k < r@.len() ==> {
                &&& (#[trigger] r@[k]).0 <= r@[k].1 <= s@.len()
                &&& s@.subrange(r@[k].0 as int, r@[k].1 as int) == split_by(s@.take(i as int), f)[k]
            },
        decreases s@.len() - i,
    {
        let c = s[i];
        proof {
            assert(s@.take(i + 1).drop_last() == s@.take(i as int));
            assert(s@.take(i + 1).last() == c);
            lemma_split_nonempty(s@.take(i as int), f);
        }
        if char_in(delims, c) {
            r.push((b, i));
            b = i + 1;
            proof {
                assert(s@.subrange(b as int, i + 1) =~= Seq::<char>::empty());
            }
        } else {
            proof {
                assert(s@.subrange(b as int, i + 1) =~= s@.subrange(b as int, i as int).push(c));
            }
        }
        i = i + 1;
    }
    r.push((b, i));
    proof {
        assert(s@.take(s@.len() as int) == s@);
        lemma_split_nonempty(s@, f);
    }
    r
}

/// The bounds of the pieces of `s` between characters of `class`.
pub fn split_ranges_by(s: &Vec<char>, class: &CharClass) -> (r: Vec<(usize, usize)>)
    ensures
        r@.len() == split_by(s@, class_pred(*class)).len(),
        forall|k: int| 0 <= k < r@.len() ==> {
            &&& (#[trigger] r@[k]).0 <= r@[k].1 <= s@.len()
            &&& s@.subrange(r@[k].0 as int, r@[k].1 as int) == split_by(s@, class_pred(*class))[k]
        },
{
    let ghost f = class_pred(*class);
    let mut r: Vec<(usize, usize)> = Vec::new();
    let mut b: usize = 0;
    let mut i: usize = 0;
    while i < s.len()
        invariant
            f == class_pred(*class),
            b <= i <= s@.len(),
            split_by(s@.take(i as int), f).len() == r@.len() + 1,
            split_by(s@.take(i as int), f).last() == s@.subrange(b as int, i as int),
            forall|k: int| 0 <= k < r@.len() ==> {
                &&& (#[trigger] r@[k]).0 <= r@[k].1 <= s@.len()
                &&& s@.subrange(r@[k].0 as int, r@[k].1 as int) == split_by(s@.take(i as int), f)[k]
            },
        decreases s@.len() - i,
    {
        let c = s[i];
        proof {
            assert(s@.take(i + 1).drop_last() == s@.take(i as int));
            assert(s@.take(i + 1).last() == c);
            lemma_split_nonempty(s@.take(i as int), f);
        }
        if in_class(class, c) {
            r.push((b, i));
            b = i + 1;
            proof {
                assert(s@.subrange(b as int, i + 1) =~= Seq::<char>::empty());
            }
        } else {
            proof {
                assert(s@.subrange(b as int, i + 1) =~= s@.subrange(b as int, i as int).push(c));
            }
        }
        i = i + 1;
    }
    r.push((b, i));
    proof {
        assert(s@.take(s@.len() as int) == s@);
        lemma_split_nonempty(s@, f);
    }
    r
}

/// The non-empty pieces, in order.
pub open spec fn nonempty_pieces(ps: Seq<Seq<char>>) -> Seq<Seq<char>>
    decreases ps.len(),
{
    if ps.len() == 0 {
        ps
    } else if ps.last().len() > 0 {
        nonempty_pieces(ps.drop_last()).push(ps.last())
    } else {
        nonempty_pieces(ps.drop_last())
    }
}

/// Words joined by single spaces (`Vec::join(" ")`).
pub open spec fn join_spaced(ws: Seq<Seq<char>>) -> Seq<char>
    decreases ws.len(),
{
    if ws.len() == 0 {
        Seq::empty()
    } else if ws.len() == 1 {
        ws[0]
    } else {
        join_spaced(ws.drop_last()) + seq![' '] + ws.last()
    }
}

/// The whitespace-separated words of `s` joined by single spaces
/// (`split_whitespace().collect::<Vec<_>>().join(" ")`).
pub open spec fn squash_spaces(s: Seq<char>) -> Seq<char> {
    join_spaced(nonempty_pieces(split_by(s, ws())))
}

/// Collapses the whitespace of `s` to single spaces between words.
pub fn squash_whitespace(s: &Vec<char>) -> (r: Vec<char>)
    ensures
        r@ == squash_spaces(s@),
{
    let ranges = split_ranges_by(s, &CharClass::Whitespace);
    let ghost pieces = split_by(s@, ws());
    let mut out: Vec<char> = Vec::new();
    let mut words: usize = 0;
    let mut k: usize = 0;
    proof {
        assert(pieces.take(0) =~= Seq::<Seq<char>>::empty());
    }
    while k < ranges.len()
        invariant
            k <= ranges@.len(),
            ranges@.len() == pieces.len(),
            pieces == split_by(s@, ws()),
            forall|j: int| 0 <= j < ranges@.len() ==> {
                &&& (#[trigger] ranges@[j]).0 <= ranges@[j].1 <= s@.len()
                &&& s@.subrange(ranges@[j].0 as int, ranges@[j].1 as int) == pieces[j]
            },
            words == nonempty_pieces(pieces.take(k as int)).len(),
            words <= k,
            out@ == join_spaced(nonempty_pieces(pieces.take(k as int))),
        decreases ranges@.len() - k,
    {
        let (lo, hi) = ranges[k];
        proof {
            assert(pieces.take(k + 1).drop_last() == pieces.take(k as int));
            assert(pieces.take(k + 1).last() == pieces[k as int]);
        }
        if lo < hi {
            let ghost before = out@;
            if words > 0 {
                out.push(' ');
            }
            let mut i = lo;
            while i < hi
                invariant
                    lo <= i <= hi <= s@.len(),
                    out@ == (if words > 0 { before + seq![' '] } else { before }) + s@.subrange(lo as int, i as int),
                decreases hi - i,
            {
                out.push(s[i]);
                proof {
                    assert(s@.subrange(lo as int, i + 1) == s@.subrange(lo as int, i as int).push(s@[i as int]));
                }
                i = i + 1;
            }
            proof {
                let np = nonempty_pieces(pieces.take(k as int));
                assert(nonempty_pieces(pieces.take(k + 1)) == np.push(pieces[k as int]));
                assert(np.push(pieces[k as int]).drop_last() == np);
                if words == 0 {
                    assert(np.len() == 0);
                    assert(before =~= Seq::<char>::empty());
                    assert(out@ =~= pieces[k as int]);
                }
            }
            words = words + 1;
        }
        k = k + 1;
    }
    proof {
        assert(pieces.take(pieces.len() as int) == pieces);
    }
    out
}

/// The ASCII digits of `s`, in order.
pub open spec fn digits_only(s: Seq<char>) -> Seq<char>
    decreases s.len(),
{
    if s.len() == 0 {
        s
    } else if is_digit(s.last()) {
        digits_only(s.drop_last()).push(s.last())
    } else {
        digits_only(s.drop_last())
    }
}

/// Keeps the ASCII digits of `s`.
pub fn keep_digits(s: &Vec<char>) -> (r: Vec<char>)
    ensures
        r@ == digits_only(s@),
{
    let mut r: Vec<char> = Vec::new();
    let mut i: usize = 0;
    proof {
        assert(s@.take(0) =~= Seq::<char>::empty());
    }
    while i < s.len()
        invariant
            i <= s@.len(),
            r@ == digits_only(s@.take(i as int)),
        decreases s@.len() - i,
    {
        proof {
            assert(s@.take(i + 1).drop_last() == s@.take(i as int));
            assert(s@.take(i + 1).last() == s@[i as int]);
        }
        if '0' <= s[i] && s[i] <= '9' {
            r.push(s[i]);
        }
        i = i + 1;
    }
    proof {
        assert(s@.take(s@.len() as int) == s@);
    }
    r
}

// ---------------------------------------------------------------------------
// Replacing escaped slashes
// ---------------------------------------------------------------------------

/// `s` with every `\/` replaced by `/`, scanning left to right (`str::replace("\\/", "/")`).
pub open spec fn unescape_slashes(s: Seq<char>) -> Seq<char>
    decreases s.len(),
{
    if s.len() >= 2 && s[0] == '\\' && s[1] == '/' {
        seq!['/'] + unescape_slashes(s.skip(2))
    } else if s.len() == 0 {
        s
    } else {
        seq![s[0]] + unescape_slashes(s.drop_first())
    }
}

/// Replaces every `\/` in `s` by `/`.
pub fn unescape(s: &Vec<char>) -> (r: Vec<char>)
    ensures
        r@ == unescape_slashes(s@),
{
    let mut r: Vec<char> = Vec::new();
    let mut i: usize = 0;
    proof {
        assert(s@.skip(0) =~= s@);
        assert(r@ + unescape_slashes(s@) =~= unescape_slashes(s@));
    }
    while i < s.len()
        invariant
            i <= s@.len(),
            r@ + unescape_slashes(s@.skip(i as int)) == unescape_slashes(s@),
        decreases s@.len() - i,
    {
        if i + 1 < s.len() && s[i] == '\\' && s[i + 1] == '/' {
            proof {
                assert(s@.skip(i as int).skip(2) == s@.skip(i + 2));
                assert(r@.push('/') + unescape_slashes(s@.skip(i + 2)) == r@ + (seq!['/'] + unescape_slashes(s@.skip(i + 2))));
            }
            r.push('/');
            i = i + 2;
        } else {
            let c = s[i];
            proof {
                assert(s@.skip(i as int).drop_first() == s@.skip(i + 1));
                assert(r@.push(c) + unescape_slashes(s@.skip(i + 1)) == r@ + (seq![c] + unescape_slashes(s@.skip(i + 1))));
            }
            r.push(c);
            i = i + 1;
        }
    }
    proof {
        assert(s@.skip(i as int).len() == 0);
        assert(r@ + unescape_slashes(s@.skip(i as int)) == r@);
    }
    r
}


// ---------------------------------------------------------------------------
// ASCII case folding
// ---------------------------------------------------------------------------

/// The ASCII lowercase of a character (`char::to_ascii_lowercase`).
pub open spec fn ascii_lower(c: char) -> char {
    if 'A' <= c && c <= 'Z' {
        ((c as u32 + 32) as u8) as char
    } else {
        c
    }
}

/// The ASCII lowercase of a string (`str::to_ascii_lowercase`).
pub open spec fn ascii_lower_seq(s: Seq<char>) -> Seq<char> {
    s.map_values(|c: char| ascii_lower(c))
}

/// The ASCII lowercase of a character.
pub fn lower_ascii_char(c: char) -> (r: char)
    ensures
        r == ascii_lower(c),
{
    if 'A' <= c && c <= 'Z' {
        ((c as u32 + 32) as u8) as char
    } else {
        c
    }
}

/// The ASCII lowercase of a character vector.
pub fn lower_ascii(s: &Vec<char>) -> (r: Vec<char>)
    ensures
        r@ == ascii_lower_seq(s@),
{
    let mut r: Vec<char> = Vec::new();
    let mut i: usize = 0;
    while i < s.len()
        invariant
            i <= s@.len(),
            r@ == ascii_lower_seq(s@.take(i as int)),
        decreases s@.len() - i,
    {
        let c = lower_ascii_char(s[i]);
        r.push(c);
        proof {
            assert(ascii_lower_seq(s@.take(i + 1)) =~= ascii_lower_seq(s@.take(i as int)).push(c));
        }
        i = i + 1;
    }
    proof {
        assert(s@.take(s@.len() as int) =~= s@);
    }
    r
}

// ---------------------------------------------------------------------------
// Decimal numbers
// ---------------------------------------------------------------------------

/// An ASCII decimal digit.
pub open spec fn is_digit(c: char) -> bool {
    '0' <= c && c <= '9'
}

/// The value of an ASCII decimal digit.
pub open spec fn digit_value(c: char) -> nat {
    (c as u32 - '0' as u32) as nat
}

/// Every character is an ASCII decimal digit.
pub open spec fn all_digits(s: Seq<char>) -> bool {
    forall|i: int| 0 <= i < s.len() ==> is_digit(#[trigger] s[i])
}

/// The value of a string of decimal digits.
pub open spec fn digits_value(s: Seq<char>) -> nat
    decreases s.len(),
{
    if s.len() == 0 {
        0
    } else {
        digits_value(s.drop_last()) * 10 + digit_value(s.last())
    }
}

/// What `str::parse` gives for an unsigned integer type whose largest value is `max`:
/// an optional `+`, then one or more ASCII digits, with a value that fits.
pub open spec fn parse_unsigned(s: Seq<char>, max: nat) -> Option<nat> {
    let d = if s.len() > 1 && s[0] == '+' { s.drop_first() } else { s };
    if d.len() > 0 && all_digits(d) && digits_value(d) <= max {
        Some(digits_value(d))
    } else {
        None
    }
}

/// A longer string of digits has at least the value of its prefix.
pub proof fn lemma_digits_value_prefix(s: Seq<char>, k: int)
    requires
        0 <= k <= s.len(),
    ensures
        digits_value(s) >= digits_value(s.take(k)),
    decreases s.len(),
{
    if k < s.len() {
        lemma_digits_value_prefix(s.drop_last(), k);
        assert(s.drop_last().take(k) == s.take(k));
    } else {
        assert(s.take(k) == s);
    }
}

/// What `str::parse::<T>()` gives on `s[lo..hi]` for an unsigned `T` with largest value `max`.
pub fn parse_decimal(s: &Vec<char>, lo: usize, hi: usize, max: u64) -> (r: Option<u64>)
    requires
        lo <= hi <= s@.len(),
        max >= 9,
    ensures
        match r {
            Some(v) => parse_unsigned(s@.subrange(lo as int, hi as int), max as nat) == Some(v as nat),
            None => parse_unsigned(s@.subrange(lo as int, hi as int), max as nat) is None,
        },
{
    let ghost whole = s@.subrange(lo as int, hi as int);
    let mut a = lo;
    if hi - lo > 1 && s[lo] == '+' {
        a = lo + 1;
    }
    let ghost d = s@.subrange(a as int, hi as int);
    proof {
        if hi - lo > 1 && s@[lo as int] == '+' {
            assert(d =~= whole.drop_first());
        } else {
            assert(d =~= whole);
        }
        assert(parse_unsigned(whole, max as nat) == (if d.len() > 0 && all_digits(d) && digits_value(d) <= max {
            Some(digits_value(d))
        } else {
            None::<nat>
        }));
    }
    if a == hi {
        return None;
    }
    let mut v: u64 = 0;
    let mut i = a;
    while i < hi
        invariant
            a <= i <= hi <= s@.len(),
            max >= 9,
            d == s@.subrange(a as int, hi as int),
            parse_unsigned(s@.subrange(lo as int, hi as int), max as nat) == (if d.len() > 0 && all_digits(d)
                && digits_value(d) <= max {
                Some(digits_value(d))
            } else {
                None::<nat>
            }),
            all_digits(s@.subrange(a as int, i as int)),
            v as nat == digits_value(s@.subrange(a as int, i as int)),
            v <= max,
        decreases hi - i,
    {
        let c = s[i];
        proof {
            assert(s@.subrange(a as int, i + 1).drop_last() == s@.subrange(a as int, i as int));
            assert(s@.subrange(a as int, i + 1).last() == c);
        }
        if !('0' <= c && c <= '9') {
            proof {
                assert(d[i - a] == c);
            }
            return None;
        }
        let dv = (c as u32 - '0' as u32) as u64;
        if v > (max - dv) / 10 {
            proof {
                assert(digits_value(s@.subrange(a as int, i + 1)) > max);
                if all_digits(d) {
                    assert(d.take(i + 1 - a) == s@.subrange(a as int, i + 1));
                    lemma_digits_value_prefix(d, i + 1 - a);
                }
            }
            return None;
        }
        v = v * 10 + dv;
        proof {
            assert forall|j: int| 0 <= j < i + 1 - a implies is_digit(#[trigger] s@.subrange(a as int, i + 1)[j]) by {
                if j < i - a {
                    assert(s@.subrange(a as int, i + 1)[j] == s@.subrange(a as int, i as int)[j]);
                }
            }
        }
        i = i + 1;
    }
    Some(v)
}

/// The decimal digit character for `d < 10`.
pub open spec fn digit_char(d: nat) -> char {
    ((d + 48) as u8) as char
}

/// The decimal representation of `n`, without leading zeros.
pub open spec fn decimal(n: nat) -> Seq<char>
    decreases n,
{
    if n < 10 {
        seq![digit_char(n)]
    } else {
        decimal(n / 10).push(digit_char(n % 10))
    }
}

/// `s` padded on the left with `0` to at least `w` characters (`format!("{:0w$}")`).
pub open spec fn zero_pad(s: Seq<char>, w: nat) -> Seq<char> {
    if s.len() >= w {
        s
    } else {
        Seq::new((w - s.len()) as nat, |i: int| '0') + s
    }
}

/// The decimal representation of `n` (`n.to_string()`).
pub fn decimal_chars(n: u64) -> (r: Vec<char>)
    ensures
        r@ == decimal(n as nat),
    decreases n,
{
    if n < 10 {
        let mut v: Vec<char> = Vec::new();
        v.push(((n + 48) as u8) as char);
        proof {
            assert(v@ =~= seq![digit_char(n as nat)]);
        }
        v
    } else {
        let mut v = decimal_chars(n / 10);
        v.push(((n % 10 + 48) as u8) as char);
        v
    }
}

/// The decimal representation of `n` as a string.
pub fn decimal_string(n: u64) -> (r: String)
    ensures
        r@ == decimal(n as nat),
{
    string_of(&decimal_chars(n))
}

/// The decimal representation of `n`, zero-padded to `w` characters (`format!("{:03}")` for `w == 3`).
pub fn padded_decimal(n: u64, w: usize) -> (r: String)
    ensures
        r@ == zero_pad(decimal(n as nat), w as nat),
{
    let d = decimal_chars(n);
    let mut r = String::new();
    let mut k: usize = d.len();
    while k < w
        invariant
            d@.len() <= k <= w || (k == d@.len() && k >= w),
            r@ == Seq::new((k - d@.len()) as nat, |i: int| '0'),
        decreases w - k,
    {
        push_char(&mut r, '0');
        proof {
            assert(r@ =~= Seq::new((k + 1 - d@.len()) as nat, |i: int| '0'));
        }
        k = k + 1;
    }
    let tail = string_of(&d);
    r.append(tail.as_str());
    proof {
        if d@.len() >= w {
            assert(r@ =~= d@);
        } else {
            assert(k == w);
        }
    }
    r
}


// ---------------------------------------------------------------------------
// Prefix stripping and character mapping
// ---------------------------------------------------------------------------

/// `s` with leading copies of `p` removed, one after another (`str::trim_start_matches(p)`).
pub open spec fn strip_prefix_all(s: Seq<char>, p: Seq<char>) -> Seq<char>
    decreases s.len(),
{
    if p.len() > 0 && has_prefix(s, p) {
        strip_prefix_all(s.skip(p.len() as int), p)
    } else {
        s
    }
}

/// Removes leading copies of `p` from `s`.
pub fn strip_prefix_repeated(s: &Vec<char>, p: &Vec<char>) -> (r: Vec<char>)
    ensures
        r@ == strip_prefix_all(s@, p@),
{
    let mut i: usize = 0;
    proof {
        assert(s@.skip(0) =~= s@);
    }
    while p.len() > 0 && i <= s.len() && matches_at(s, p, i)
        invariant
            i <= s@.len(),
            strip_prefix_all(s@, p@) == strip_prefix_all(s@.skip(i as int), p@),
        decreases s@.len() - i,
    {
        proof {
            assert(s@.skip(i as int).subrange(0, p@.len() as int) == s@.subrange(i as int, i + p@.len()));
            assert(s@.skip(i as int).skip(p@.len() as int) == s@.skip(i + p@.len()));
        }
        i = i + p.len();
    }
    proof {
        if p@.len() > 0 && i <= s@.len() {
            assert(s@.skip(i as int).len() < p@.len() || s@.skip(i as int).subrange(0, p@.len() as int)
                == s@.subrange(i as int, i + p@.len()));
        }
    }
    slice_vec(s, i, s.len())
}

/// The end of `s[lo..hi]` once trailing characters of `set` are removed
/// (`str::trim_end_matches`).
pub fn strip_trail_range(s: &Vec<char>, lo: usize, hi: usize, set: &Vec<char>) -> (r: usize)
    requires
        lo <= hi <= s@.len(),
    ensures
        lo <= r <= hi,
        s@.subrange(lo as int, r as int) == strip_trail(s@.subrange(lo as int, hi as int), one_of(set@)),
{
    let mut b = hi;
    while b > lo && char_in(set, s[b - 1])
        invariant
            lo <= b <= hi <= s@.len(),
            strip_trail(s@.subrange(lo as int, hi as int), one_of(set@)) == strip_trail(
                s@.subrange(lo as int, b as int),
                one_of(set@),
            ),
        decreases b - lo,
    {
        proof {
            assert(s@.subrange(lo as int, b as int).drop_last() == s@.subrange(lo as int, b - 1));
            assert(s@.subrange(lo as int, b as int).last() == s@[b - 1]);
        }
        b = b - 1;
    }
    proof {
        if b > lo {
            assert(s@.subrange(lo as int, b as int).last() == s@[b - 1]);
        }
    }
    b
}

/// A string slice's characters with each one that is not alphanumeric replaced by `_`
/// (`str::replace(|c: char| !c.is_alphanumeric(), "_")`).
pub open spec fn underscore_non_alnum(s: Seq<char>) -> Seq<char> {
    s.map_values(|c: char| if unicode_alphanumeric(c) { c } else { '_' })
}

/// Replaces every character that is not alphanumeric by `_`.
pub fn replace_non_alnum(s: &Vec<char>, lo: usize, hi: usize) -> (r: Vec<char>)
    requires
        lo <= hi <= s@.len(),
    ensures
        r@ == underscore_non_alnum(s@.subrange(lo as int, hi as int)),
{
    let mut r: Vec<char> = Vec::new();
    let mut i = lo;
    while i < hi
        invariant
            lo <= i <= hi <= s@.len(),
            r@ == underscore_non_alnum(s@.subrange(lo as int, i as int)),
        decreases hi - i,
    {
        let c = s[i];
        let d = if is_alphanumeric(c) { c } else { '_' };
        r.push(d);
        proof {
            assert(underscore_non_alnum(s@.subrange(lo as int, i + 1)) =~= underscore_non_alnum(
                s@.subrange(lo as int, i as int),
            ).push(d));
        }
        i = i + 1;
    }
    r
}

/// `s` with each occurrence of `from` replaced by `to` (`str::replace(from, to)` for a char).
pub open spec fn replace_char_spec(s: Seq<char>, from: char, to: char) -> Seq<char> {
    s.map_values(|c: char| if c == from { to } else { c })
}

/// Replaces each occurrence of `from` by `to`.
pub fn replace_char(s: &Vec<char>, from: char, to: char) -> (r: Vec<char>)
    ensures
        r@ == replace_char_spec(s@, from, to),
{
    let mut r: Vec<char> = Vec::new();
    let mut i: usize = 0;
    while i < s.len()
        invariant
            i <= s@.len(),
            r@ == replace_char_spec(s@.take(i as int), from, to),
        decreases s@.len() - i,
    {
        let c = s[i];
        let d = if c == from { to } else { c };
        r.push(d);
        proof {
            assert(replace_char_spec(s@.take(i + 1), from, to) =~= replace_char_spec(s@.take(i as int), from, to).push(d));
        }
        i = i + 1;
    }
    proof {
        assert(s@.take(s@.len() as int) =~= s@);
    }
    r
}

/// Concatenates two character vectors.
pub fn concat(a: &Vec<char>, b: &Vec<char>) -> (r: Vec<char>)
    ensures
        r@ == a@ + b@,
{
    let mut r = slice_vec(a, 0, a.len());
    let mut i: usize = 0;
    proof {
        assert(a@.subrange(0, a@.len() as int) =~= a@);
    }
    while i < b.len()
        invariant
            i <= b@.len(),
            r@ == a@ + b@.take(i as int),
        decreases b@.len() - i,
    {
        r.push(b[i]);
        proof {
            assert(a@ + b@.take(i + 1) =~= (a@ + b@.take(i as int)).push(b@[i as int]));
        }
        i = i + 1;
    }
    proof {
        assert(b@.take(b@.len() as int) =~= b@);
    }
    r
}

/// The lowercase of `s[lo..hi]`, as characters.
pub fn lowercase_range(s: &Vec<char>, lo: usize, hi: usize) -> (r: Vec<char>)
    requires
        lo <= hi <= s@.len(),
    ensures
        r@ == lowercase_of(s@.subrange(lo as int, hi as int)),
        r@ == lower_spec(s@.subrange(lo as int, hi as int)),
{
    let piece = string_of_range(s, lo, hi);
    let low = to_lowercase(piece.as_str());
    chars_of(low.as_str())
}

} // verus!
