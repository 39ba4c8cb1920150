use vstd::prelude::*;
use crate::text::{
    ascii_lower_seq, chars_of, find_first, find_text, lemma_find_from, lower_ascii, one_of, parse_decimal,
    parse_unsigned, same_chars, slice_vec, split_by, split_ranges, trim, trim_range, trim_spec,
};

verus! {

/// The smaller of two integers.
pub open spec fn min_int(a: int, b: int) -> int {
    if a <= b { a } else { b }
}

/// The larger of two integers.
pub open spec fn max_int(a: int, b: int) -> int {
    if a >= b { a } else { b }
}

/// The values of a list of indexes, as integers.
pub open spec fn ints(v: Seq<usize>) -> Seq<int> {
    v.map_values(|x: usize| x as int)
}

/// Each value is strictly smaller than every later one.
pub open spec fn increasing(v: Seq<usize>) -> bool {
    forall|i: int, j: int| 0 <= i < j < v.len() ==> #[trigger] v[i] < #[trigger] v[j]
}

/// `s` parsed as a `usize` after trimming, or `default` when that fails.
pub open spec fn parse_index_or(s: Seq<char>, default: int) -> int {
    match parse_unsigned(trim_spec(s), usize::MAX as nat) {
        Some(v) => v as int,
        None => default,
    }
}

/// A chapter number brought into `1..=max(max_available, 1)`.
pub open spec fn clamp_chapter(n: int, max_available: int) -> int {
    min_int(max_int(n, 1), max_int(max_available, 1))
}

/// The chapters that one trimmed, non-empty token of a request names: a range `a-b`
/// (either end may be missing or unreadable) or a single number.
pub open spec fn token_chapters(t: Seq<char>, max_available: int) -> Set<int> {
    match find_text(t, seq!['-']) {
        Some(k) => {
            let start = parse_index_or(t.take(k), 1);
            let end = parse_index_or(t.skip(k + 1), start);
            let lo = max_int(min_int(start, end), 1);
            let hi = min_int(max_int(start, end), max_int(max_available, 1));
            Set::new(|n: int| lo <= n <= hi)
        },
        None => match parse_unsigned(t, usize::MAX as nat) {
            Some(n) => set![clamp_chapter(n as int, max_available)],
            None => Set::empty(),
        },
    }
}

/// The chapters that a list of comma/semicolon separated pieces names together.
pub open spec fn pieces_chapters(ps: Seq<Seq<char>>, max_available: int) -> Set<int>
    decreases ps.len(),
{
    if ps.len() == 0 {
        Set::empty()
    } else {
        let t = trim_spec(ps.last());
        pieces_chapters(ps.drop_last(), max_available).union(
            if t.len() > 0 { token_chapters(t, max_available) } else { Set::empty() },
        )
    }
}

/// The separators between the tokens of a chapter request.
pub open spec fn request_separators() -> Seq<char> {
    seq![',', ';']
}

/// A request that asks for every chapter: empty, or `all` in any ASCII case.
pub open spec fn requests_all(chapters: Seq<char>) -> bool {
    let raw = trim_spec(chapters);
    raw.len() == 0 || ascii_lower_seq(raw) == seq!['a', 'l', 'l']
}

/// The chapters that a request other than "all" names.
pub open spec fn requested_set(chapters: Seq<char>, max_available: int) -> Set<int> {
    pieces_chapters(split_by(trim_spec(chapters), one_of(request_separators())), max_available)
}

/// Inserts `x` into a strictly increasing list unless it is already there.
pub fn insert_sorted_index(v: &mut Vec<usize>, x: usize)
    requires
        increasing(old(v)@),
    ensures
        increasing(final(v)@),
        ints(final(v)@).to_set() == ints(old(v)@).to_set().insert(x as int),
{
    let ghost old_v = v@;
    let mut p: usize = 0;
    while p < v.len() && v[p] < x
        invariant
            v@ == old_v,
            p <= v.len(),
            forall|i: int| 0 <= i < p ==> #[trigger] old_v[i] < x,
        decreases v.len() - p,
    {
        p = p + 1;
    }
    if p < v.len() && v[p] == x {
        proof {
            assert(ints(old_v)[p as int] == x as int);
            assert(ints(old_v).to_set().insert(x as int) =~= ints(old_v).to_set());
        }
        return;
    }
    v.insert(p, x);
    proof {
        let nv = v@;
        assert(nv =~= old_v.insert(p as int, x));
        assert forall|i: int, j: int| 0 <= i < j < nv.len() implies #[trigger] nv[i] < #[trigger] nv[j] by {
            if j < p {
            } else if j == p {
            } else if i < p {
                assert(nv[j] == old_v[j - 1]);
                assert(old_v[p as int] <= old_v[j - 1]);
            } else if i == p {
                assert(nv[j] == old_v[j - 1]);
                assert(old_v[p as int] <= old_v[j - 1]);
            } else {
                assert(nv[i] == old_v[i - 1]);
                assert(nv[j] == old_v[j - 1]);
            }
        }
        assert forall|y: int| ints(nv).to_set().contains(y) <==> ints(old_v).to_set().insert(x as int).contains(y) by {
            if ints(nv).contains(y) {
                let k = choose|k: int| 0 <= k < ints(nv).len() && ints(nv)[k] == y;
                if k < p {
                    assert(ints(old_v)[k] == y);
                } else if k > p {
                    assert(ints(old_v)[k - 1] == y);
                }
            }
            if ints(old_v).contains(y) {
                let k = choose|k: int| 0 <= k < ints(old_v).len() && ints(old_v)[k] == y;
                if k < p {
                    assert(ints(nv)[k] == y);
                } else {
                    assert(ints(nv)[k + 1] == y);
                }
            }
            if y == x as int {
                assert(ints(nv)[p as int] == y);
            }
        }
        assert(ints(nv).to_set() =~= ints(old_v).to_set().insert(x as int));
    }
}

/// `s[lo..hi]` trimmed and parsed as a `usize`, or `default`.
fn parse_index_or_default(s: &Vec<char>, lo: usize, hi: usize, default: usize) -> (r: usize)
    requires
        lo <= hi <= s@.len(),
    ensures
        r as int == parse_index_or(s@.subrange(lo as int, hi as int), default as int),
{
    let (a, b) = trim_range(s, lo, hi);
    proof {
        assert(s@.subrange(lo as int, hi as int).subrange((a - lo) as int, (b - lo) as int)
            == s@.subrange(a as int, b as int));
    }
    match parse_decimal(s, a, b, usize::MAX as u64) {
        Some(v) => v as usize,
        None => default,
    }
}

/// Adds the chapters that one trimmed, non-empty token names.
fn add_token_chapters(out: &mut Vec<usize>, t: &Vec<char>, max_available: usize)
    requires
        increasing(old(out)@),
        t@.len() > 0,
    ensures
        increasing(final(out)@),
        ints(final(out)@).to_set() == ints(old(out)@).to_set().union(token_chapters(t@, max_available as int)),
{
    let dash: Vec<char> = vec!['-'];
    proof {
        assert(dash@ =~= seq!['-']);
    }
    let cap: usize = if max_available > 1 { max_available } else { 1 };
    match find_first(t, &dash) {
        Some(k) => {
            proof {
                lemma_find_from(t@, dash@, 0);
                assert(t@.subrange(0, k as int) == t@.take(k as int));
                assert(k + 1 <= t@.len());
                assert(t@.len() == t.len());
                assert(t@.subrange(k + 1, t@.len() as int) == t@.skip(k + 1));
            }
            let start = parse_index_or_default(t, 0, k, 1);
            let end = parse_index_or_default(t, k + 1, t.len(), start);
            let small = if start < end { start } else { end };
            let big = if start > end { start } else { end };
            let lo: usize = if small > 1 { small } else { 1 };
            let hi: usize = if big < cap { big } else { cap };
            let ghost want = token_chapters(t@, max_available as int);
            proof {
                assert(want == Set::new(|n: int| lo <= n <= hi));
            }
            let ghost before = ints(out@).to_set();
            if lo <= hi {
                let mut n = lo;
                loop
                    invariant_except_break
                        lo <= n <= hi,
                        increasing(out@),
                        ints(out@).to_set() == before.union(Set::new(|m: int| lo <= m < n)),
                    ensures
                        increasing(out@),
                        ints(out@).to_set() == before.union(Set::new(|m: int| lo <= m <= hi)),
                    decreases hi - n,
                {
                    insert_sorted_index(out, n);
                    proof {
                        assert(before.union(Set::new(|m: int| lo <= m < n)).insert(n as int) =~= before.union(
                            Set::new(|m: int| lo <= m < n + 1),
                        ));
                    }
                    if n == hi {
                        proof {
                            assert(Set::new(|m: int| lo <= m < n + 1) =~= Set::new(|m: int| lo <= m <= hi));
                        }
                        break;
                    }
                    n = n + 1;
                }
            } else {
                proof {
                    assert(Set::new(|m: int| lo <= m <= hi) =~= Set::<int>::empty());
                    assert(before.union(Set::<int>::empty()) =~= before);
                }
            }
            proof {
                assert(Set::new(|m: int| lo <= m <= hi) == want);
            }
        },
        None => {
            match parse_decimal(t, 0, t.len(), usize::MAX as u64) {
                Some(v) => {
                    proof {
                        assert(t@.subrange(0, t@.len() as int) == t@);
                    }
                    let v = v as usize;
                    let lower = if v > 1 { v } else { 1 };
                    let n = if lower < cap { lower } else { cap };
                    insert_sorted_index(out, n);
                    proof {
                        assert(set![n as int] == token_chapters(t@, max_available as int));
                        assert(ints(old(out)@).to_set().insert(n as int) =~= ints(old(out)@).to_set().union(set![n as int]));
                    }
                },
                None => {
                    proof {
                        assert(t@.subrange(0, t@.len() as int) == t@);
                        assert(ints(out@).to_set().union(Set::<int>::empty()) =~= ints(out@).to_set());
                    }
                },
            }
        },
    }
}

/// Which chapters a request such as `"1-3, 7"` asks for, given how many chapters the
/// source lists. An empty request or `all` asks for `1..=max_available`; otherwise each
/// token names a number or a range, clamped to `1..=max(max_available, 1)`; the result is
/// sorted without repeats, and is `[1]` when no token names anything.
pub fn parse_requested_chapters(chapters: &str, max_available: usize) -> (r: Vec<usize>)
    ensures
        requests_all(chapters@) ==> ints(r@) == Seq::new(max_available as nat, |i: int| i + 1),
        !requests_all(chapters@) && requested_set(chapters@, max_available as int).is_empty()
            ==> r@ == seq![1usize],
        !requests_all(chapters@) && !requested_set(chapters@, max_available as int).is_empty() ==> {
            &&& increasing(r@)
            &&& ints(r@).to_set() == requested_set(chapters@, max_available as int)
        },
{
    let all_chars = chars_of(chapters);
    let raw = trim(&all_chars);
    let word_all = chars_of("all");
    let lowered = lower_ascii(&raw);
    if raw.len() == 0 || same_chars(&lowered, &word_all) {
        proof {
            assert(requests_all(chapters@)) by {
                reveal_strlit("all");
                if raw@.len() != 0 {
                    assert(word_all@ =~= seq!['a', 'l', 'l']);
                }
            }
        }
        let mut out: Vec<usize> = Vec::new();
        let mut n: usize = 0;
        while n < max_available
            invariant
                n <= max_available,
                out@.len() == n,
                ints(out@) == Seq::new(n as nat, |i: int| i + 1),
            decreases max_available - n,
        {
            let ghost prev = out@;
            out.push(n + 1);
            proof {
                assert(out@ == prev.push((n + 1) as usize));
                assert(ints(out@) =~= Seq::new((n + 1) as nat, |i: int| i + 1)) by {
                    assert forall|j: int| 0 <= j < n + 1 implies ints(out@)[j] == j + 1 by {
                        if j < n {
                            assert(ints(prev)[j] == j + 1);
                        }
                    }
                }
            }
            n = n + 1;
        }
        return out;
    }
    proof {
        reveal_strlit("all");
        assert(word_all@ =~= seq!['a', 'l', 'l']);
        assert(!requests_all(chapters@));
    }
    let seps: Vec<char> = vec![',', ';'];
    proof {
        assert(seps@ =~= request_separators());
    }
    let ranges = split_ranges(&raw, &seps);
    let ghost pieces = split_by(raw@, one_of(seps@));
    let mut out: Vec<usize> = Vec::new();
    let mut k: usize = 0;
    proof {
        assert(pieces.take(0) =~= Seq::<Seq<char>>::empty());
        assert(ints(out@).to_set() =~= Set::<int>::empty());
    }
    while k < ranges.len()
        invariant
            k <= ranges@.len(),
            ranges@.len() == pieces.len(),
            pieces == split_by(raw@, one_of(seps@)),
            forall|j: int| 0 <= j < ranges@.len() ==> {
                &&& (#[trigger] ranges@[j]).0 <= ranges@[j].1 <= raw@.len()
                &&& raw@.subrange(ranges@[j].0 as int, ranges@[j].1 as int) == pieces[j]
            },
            increasing(out@),
            ints(out@).to_set() == pieces_chapters(pieces.take(k as int), max_available as int),
        decreases ranges@.len() - k,
    {
        let (lo, hi) = ranges[k];
        let (a, b) = trim_range(&raw, lo, hi);
        proof {
            assert(pieces.take(k + 1).drop_last() == pieces.take(k as int));
            assert(pieces.take(k + 1).last() == pieces[k as int]);
        }
        if a < b {
            let token = slice_vec(&raw, a, b);
            add_token_chapters(&mut out, &token, max_available);
        } else {
            proof {
                assert(ints(out@).to_set().union(Set::<int>::empty()) =~= ints(out@).to_set());
            }
        }
        k = k + 1;
    }
    proof {
        assert(pieces.take(pieces.len() as int) == pieces);
        assert(trim_spec(chapters@) == raw@);
    }
    if out.len() == 0 {
        proof {
            assert(ints(out@).to_set() =~= Set::<int>::empty());
        }
        let mut one: Vec<usize> = Vec::new();
        one.push(1);
        proof {
            assert(one@ =~= seq![1usize]);
        }
        return one;
    }
    proof {
        assert(ints(out@).to_set().contains(ints(out@)[0]));
    }
    out
}

} // verus!
