//! String helpers: joining mapped items, normalising URIs and filtering
//! items by a search query.

use vstd::prelude::*;

verus! {

/// Positions of the `':'` characters of `s`, in increasing order.
pub open spec fn colon_positions(s: Seq<char>) -> Seq<int>
    decreases s.len(),
{
    if s.len() == 0 {
        Seq::empty()
    } else {
        let rest = colon_positions(s.drop_last());
        if s.last() == ':' {
            rest.push(s.len() - 1)
        } else {
            rest
        }
    }
}

/// A URI of five `':'`-separated parts, `spotify:user:{user}:{type}:{id}`,
/// becomes `spotify:{type}:{id}`; any other URI stays as it is.
pub open spec fn normalized_uri(s: Seq<char>) -> Seq<char> {
    let c = colon_positions(s);
    if c.len() == 4 {
        s.subrange(0, c[0] + 1) + s.subrange(c[2] + 1, s.len() as int)
    } else {
        s
    }
}

proof fn lemma_colon_positions_bounded(s: Seq<char>)
    ensures
        forall|k: int| 0 <= k < colon_positions(s).len() ==> 0 <= #[trigger] colon_positions(s)[k] < s.len(),
    decreases s.len(),
{
    if s.len() > 0 {
        let rest = colon_positions(s.drop_last());
        lemma_colon_positions_bounded(s.drop_last());
        assert forall|k: int| 0 <= k < colon_positions(s).len() implies 0 <= #[trigger] colon_positions(
            s,
        )[k] < s.len() by {
            if k < rest.len() {
                assert(colon_positions(s)[k] == rest[k]);
            }
        }
    }
}

/// Rewrites a user-scoped URI `a:user:u:t:id` to the plain form `a:t:id`;
/// returns any other URI unchanged.
pub fn parse_uri(uri: &str) -> (r: String)
    ensures
        r@ == normalized_uri(uri@),
{
    let n: usize = uri.unicode_len();
    let mut positions: Vec<usize> = Vec::new();
    let mut i: usize = 0;
    while i < n
        invariant
            n == uri@.len(),
            i <= n,
            positions@.len() == colon_positions(uri@.subrange(0, i as int)).len(),
            forall|k: int|
                0 <= k < positions@.len() ==> #[trigger] positions@[k] as int == colon_positions(
                    uri@.subrange(0, i as int),
                )[k],
        decreases n - i,
    {
        let ch = uri.get_char(i);
        assert(uri@.subrange(0, i + 1).drop_last() =~= uri@.subrange(0, i as int));
        if ch == ':' {
            positions.push(i);
        }
        i = i + 1;
    }
    assert(uri@.subrange(0, n as int) =~= uri@);
    proof {
        lemma_colon_positions_bounded(uri@);
    }
    if positions.len() == 4 {
        let head = uri.substring_char(0, positions[0] + 1);
        let tail = uri.substring_char(positions[2] + 1, n);
        String::from_str(head).concat(tail)
    } else {
        String::from_str(uri)
    }
}

/// Appends `y` to `acc`, with `sep` between them unless `acc` is empty.
pub open spec fn join_step(acc: Seq<char>, y: Seq<char>, sep: Seq<char>) -> Seq<char> {
    if acc.len() == 0 {
        y
    } else {
        acc + sep + y
    }
}

/// The parts joined left to right by `join_step`.
pub open spec fn joined(parts: Seq<Seq<char>>, sep: Seq<char>) -> Seq<char>
    decreases parts.len(),
{
    if parts.len() == 0 {
        Seq::empty()
    } else {
        join_step(joined(parts.drop_last(), sep), parts.last(), sep)
    }
}

/// `f` may return a string viewed as `s` for `x`.
pub open spec fn maps_to<T, F: Fn(&T) -> &str>(f: F, x: &T, s: Seq<char>) -> bool {
    exists|r: &str| f.ensures((x,), r) && r@ == s
}

/// Maps each item to a string and joins the results with `sep`; a
/// separator is only written after text that is not empty.
pub fn map_join<T, F>(v: &[T], f: F, sep: &str) -> (r: String) where F: Fn(&T) -> &str
    requires
        forall|i: int| 0 <= i < v@.len() ==> f.requires((&v@[i],)),
    ensures
        exists|parts: Seq<Seq<char>>|
            {
                &&& parts.len() == v@.len()
                &&& forall|i: int| 0 <= i < v@.len() ==> #[trigger] maps_to(f, &v@[i], parts[i])
                &&& r@ == joined(parts, sep@)
            },
{
    let mut acc = String::new();
    let ghost mut parts: Seq<Seq<char>> = Seq::empty();
    let mut i: usize = 0;
    while i < v.len()
        invariant
            i <= v@.len(),
            forall|j: int| 0 <= j < v@.len() ==> f.requires((&v@[j],)),
            parts.len() == i,
            forall|j: int| 0 <= j < i ==> #[trigger] maps_to(f, &v@[j], parts[j]),
            acc@ == joined(parts, sep@),
        decreases v@.len() - i,
    {
        let y: &str = f(&v[i]);
        let ghost old_parts = parts;
        proof {
            parts = parts.push(y@);
            assert(parts.drop_last() =~= old_parts);
            assert forall|j: int| 0 <= j < i + 1 implies #[trigger] maps_to(f, &v@[j], parts[j]) by {
                if j < i {
                    assert(parts[j] == old_parts[j]);
                } else {
                    assert(f.ensures((&v@[j],), y) && y@ == parts[j]);
                }
            }
        }
        if acc.as_str().unicode_len() == 0 {
            acc = acc.concat(y);
        } else {
            acc = acc.concat(sep).concat(y);
        }
        i = i + 1;
    }
    acc
}

/// What `str::to_lowercase` makes of a string.
pub uninterp spec fn lower_of(s: Seq<char>) -> Seq<char>;

/// The ASCII lowercase of a character: `A`..`Z` become `a`..`z`, every
/// other character stays as it is.
pub open spec fn ascii_lower(c: char) -> char {
    if 'A' <= c <= 'Z' {
        "abcdefghijklmnopqrstuvwxyz"@[c as int - 'A' as int]
    } else {
        c
    }
}

/// Every character of `s` is ASCII.
pub open spec fn all_ascii(s: Seq<char>) -> bool {
    forall|i: int| 0 <= i < s.len() ==> (#[trigger] s[i] as u32) < 128
}

/// Relies on `str::to_lowercase`: the result depends on the characters
/// alone; ASCII text is lowercased character by character, keeping its
/// length (so an empty string stays empty and spaces stay spaces).
#[verifier::external_body]
fn lowercase(s: &str) -> (r: String)
    ensures
        r@ == lower_of(s@),
        all_ascii(s@) ==> r@ == s@.map_values(|c: char| ascii_lower(c)),
{
    s.to_lowercase()
}

/// `needle` occurs in `hay` as a contiguous run of characters.
pub open spec fn is_substring(needle: Seq<char>, hay: Seq<char>) -> bool {
    exists|i: int| 0 <= i <= hay.len() - needle.len() && #[trigger] hay.subrange(i, i + needle.len()) == needle
}

/// Relies on `str::contains` with a string pattern: whether `needle` occurs
/// in `hay`.
#[verifier::external_body]
fn contains_str(hay: &str, needle: &str) -> (r: bool)
    ensures
        r == is_substring(needle@, hay@),
{
    hay.contains(needle)
}

/// `q[i..j]` is a word of `q`: a maximal non-empty run without spaces.
pub open spec fn is_word(q: Seq<char>, i: int, j: int) -> bool {
    &&& 0 <= i < j <= q.len()
    &&& forall|k: int| i <= k < j ==> #[trigger] q[k] != ' '
    &&& (i == 0 || q[i - 1] == ' ')
    &&& (j == q.len() || q[j] == ' ')
}

/// Every space-separated word of `query` occurs in `text`; a query without
/// words matches everything.
pub open spec fn matches_words(query: Seq<char>, text: Seq<char>) -> bool {
    forall|i: int, j: int| #[trigger] is_word(query, i, j) ==> is_substring(query.subrange(i, j), text)
}

/// A word of `q` that ends at `k` starts at `start`, where `start` follows a
/// space (or is 0) and no space lies between `start` and `k`.
proof fn lemma_word_starts_at(q: Seq<char>, start: int, k: int)
    requires
        0 <= start <= k <= q.len(),
        start == 0 || q[start - 1] == ' ',
        forall|m: int| start <= m < k ==> #[trigger] q[m] != ' ',
    ensures
        forall|i: int, j: int| #[trigger] is_word(q, i, j) && j == k ==> i == start,
{
    assert forall|i: int, j: int| #[trigger] is_word(q, i, j) && j == k implies i == start by {
        if i < start {
            assert(q[start - 1] == ' ');
        } else if i > start {
            assert(q[i - 1] == ' ');
        }
    }
}

/// Whether every space-separated word of `query` occurs in `text`. Both are
/// taken as they are, with no change of case.
pub fn matches_query(query: &str, text: &str) -> (r: bool)
    ensures
        r == matches_words(query@, text@),
{
    let ghost q = query@;
    let n: usize = query.unicode_len();
    let mut ok: bool = true;
    let mut start: usize = 0;
    let mut k: usize = 0;
    while k < n
        invariant
            n == q.len(),
            q == query@,
            start <= k <= n,
            start == 0 || q[start - 1] == ' ',
            forall|m: int| start <= m < k ==> #[trigger] q[m] != ' ',
            ok == (forall|i: int, j: int| #[trigger] is_word(q, i, j) && j < k ==> is_substring(q.subrange(i, j), text@)),
        decreases n - k,
    {
        if query.get_char(k) == ' ' {
            if start < k {
                let word = query.substring_char(start, k);
                assert(is_word(q, start as int, k as int));
                if !contains_str(text, word) {
                    ok = false;
                }
            }
            proof {
                lemma_word_starts_at(q, start as int, k as int);
            }
            start = k + 1;
        }
        k = k + 1;
    }
    if start < n {
        let word = query.substring_char(start, n);
        assert(is_word(q, start as int, n as int));
        if !contains_str(text, word) {
            ok = false;
        }
    }
    proof {
        lemma_word_starts_at(q, start as int, n as int);
    }
    ok
}

/// The items whose lowercased text matches the lowercased query.
pub open spec fn matching_items(items: Seq<String>, query: Seq<char>) -> Seq<String>
    decreases items.len(),
{
    if items.len() == 0 {
        Seq::empty()
    } else {
        let rest = matching_items(items.drop_last(), query);
        if matches_words(lower_of(query), lower_of(items.last()@)) {
            rest.push(items.last())
        } else {
            rest
        }
    }
}

/// A query made only of spaces, or empty, keeps every item, in order.
pub proof fn lemma_blank_query_keeps_all(items: Seq<String>, query: Seq<char>)
    requires
        forall|i: int| 0 <= i < query.len() ==> #[trigger] query[i] == ' ',
        lower_of(query) == query,
    ensures
        matching_items(items, query) == items,
    decreases items.len(),
{
    assert forall|t: Seq<char>| #[trigger] matches_words(query, t) by {
        assert forall|i: int, j: int| #[trigger] is_word(query, i, j) implies is_substring(
            query.subrange(i, j),
            t,
        ) by {
            assert(query[i] != ' ');
        }
    }
    if items.len() > 0 {
        lemma_blank_query_keeps_all(items.drop_last(), query);
        assert(items.drop_last().push(items.last()) =~= items);
    }
}

/// The items that match a search query, in the order given: an item
/// matches when each space-separated word of the query occurs in it,
/// ignoring case.
pub fn filtered_items_from_query<'a>(query: &str, items: &'a [String]) -> (r: Vec<&'a String>)
    ensures
        r@.map_values(|s: &String| *s) == matching_items(items@, query@),
        (forall|i: int| 0 <= i < query@.len() ==> #[trigger] query@[i] == ' ') ==> r@.map_values(
            |s: &String| *s,
        ) == items@,
{
    let q = lowercase(query);
    proof {
        if forall|i: int| 0 <= i < query@.len() ==> #[trigger] query@[i] == ' ' {
            assert(all_ascii(query@));
            assert(q@ =~= query@);
            lemma_blank_query_keeps_all(items@, query@);
        }
    }
    let mut r: Vec<&'a String> = Vec::new();
    let mut i: usize = 0;
    while i < items.len()
        invariant
            i <= items@.len(),
            q@ == lower_of(query@),
            r@.map_values(|s: &String| *s) == matching_items(items@.subrange(0, i as int), query@),
        decreases items@.len() - i,
    {
        let t = lowercase(items[i].as_str());
        assert(items@.subrange(0, i + 1).drop_last() =~= items@.subrange(0, i as int));
        let ghost prev = r@;
        if matches_query(q.as_str(), t.as_str()) {
            r.push(&items[i]);
            assert(r@.map_values(|s: &String| *s) =~= prev.map_values(|s: &String| *s).push(items@[i as int]));
        }
        i = i + 1;
    }
    assert(items@.subrange(0, items@.len() as int) =~= items@);
    r
}

/// What the skim fuzzy matcher (default settings) scores `choice` against
/// `pattern`; `None` when it does not match.
pub uninterp spec fn skim_score(choice: Seq<char>, pattern: Seq<char>) -> Option<i64>;

/// Relies on fuzzy_matcher's `SkimMatcherV2::default().fuzzy(..)` without
/// positions: the score depends on the two strings alone, and an empty
/// pattern matches with score 0.
#[verifier::external_body]
fn fuzzy_score(choice: &str, pattern: &str) -> (r: Option<i64>)
    ensures
        r == skim_score(choice@, pattern@),
        pattern@.len() == 0 ==> r == Some(0i64),
{
    fuzzy_matcher::skim::SkimMatcherV2::default().fuzzy(choice, pattern, false).map(|(score, _)| score)
}

/// `e` placed into `s` after every entry, from the end, whose score is not
/// below its own.
pub open spec fn insert_ranked(s: Seq<(usize, i64)>, e: (usize, i64)) -> Seq<(usize, i64)>
    decreases s.len(),
{
    if s.len() == 0 {
        seq![e]
    } else if s.last().1 >= e.1 {
        s.push(e)
    } else {
        insert_ranked(s.drop_last(), e).push(s.last())
    }
}

/// The indices of the scored entries with their scores, highest score
/// first; equal scores keep the order of the entries.
pub open spec fn ranked(scores: Seq<Option<i64>>) -> Seq<(usize, i64)>
    decreases scores.len(),
{
    if scores.len() == 0 {
        Seq::empty()
    } else {
        let rest = ranked(scores.drop_last());
        match scores.last() {
            Some(sc) => insert_ranked(rest, ((scores.len() - 1) as usize, sc)),
            None => rest,
        }
    }
}

proof fn lemma_insert_ranked_at(s: Seq<(usize, i64)>, e: (usize, i64), k: int)
    requires
        0 <= k <= s.len(),
        forall|j: int| k <= j < s.len() ==> #[trigger] s[j].1 < e.1,
        k == 0 || s[k - 1].1 >= e.1,
    ensures
        insert_ranked(s, e) == s.insert(k, e),
    decreases s.len(),
{
    if s.len() == 0 {
        assert(s.insert(k, e) =~= seq![e]);
    } else if k == s.len() {
        assert(s.insert(k, e) =~= s.push(e));
    } else {
        let d = s.drop_last();
        assert forall|j: int| k <= j < d.len() implies #[trigger] d[j].1 < e.1 by {
            assert(d[j] == s[j]);
        }
        lemma_insert_ranked_at(d, e, k);
        assert(d.insert(k, e).push(s.last()) =~= s.insert(k, e));
    }
}

/// Scores never increase along `s`.
pub open spec fn descending(s: Seq<(usize, i64)>) -> bool {
    forall|i: int, j: int| 0 <= i < j < s.len() ==> #[trigger] s[i].1 >= #[trigger] s[j].1
}

proof fn lemma_insert_ranked_floor(s: Seq<(usize, i64)>, e: (usize, i64), m: i64)
    requires
        forall|j: int| 0 <= j < s.len() ==> (#[trigger] s[j]).1 >= m,
        e.1 >= m,
    ensures
        forall|j: int| 0 <= j < insert_ranked(s, e).len() ==> (#[trigger] insert_ranked(s, e)[j]).1 >= m,
        insert_ranked(s, e).len() == s.len() + 1,
    decreases s.len(),
{
    if s.len() > 0 && s.last().1 < e.1 {
        let d = s.drop_last();
        assert forall|j: int| 0 <= j < d.len() implies (#[trigger] d[j]).1 >= m by {
            assert(d[j] == s[j]);
        }
        lemma_insert_ranked_floor(d, e, m);
        let t = insert_ranked(d, e);
        assert forall|j: int| 0 <= j < t.push(s.last()).len() implies (#[trigger] t.push(s.last())[j]).1 >= m by {
            if j < t.len() {
                assert(t.push(s.last())[j] == t[j]);
            }
        }
    } else if s.len() > 0 {
        assert forall|j: int| 0 <= j < s.push(e).len() implies (#[trigger] s.push(e)[j]).1 >= m by {
            if j < s.len() {
                assert(s.push(e)[j] == s[j]);
            }
        }
    }
}

proof fn lemma_insert_ranked_descending(s: Seq<(usize, i64)>, e: (usize, i64))
    requires
        descending(s),
    ensures
        descending(insert_ranked(s, e)),
    decreases s.len(),
{
    if s.len() > 0 {
        let last = s.last();
        if last.1 >= e.1 {
            assert forall|i: int, j: int| 0 <= i < j < s.push(e).len() implies #[trigger] s.push(e)[i].1 >= #[trigger] s.push(e)[j].1 by {
                if j < s.len() {
                    assert(s.push(e)[j] == s[j]);
                    assert(s.push(e)[i] == s[i]);
                } else {
                    assert(s.push(e)[i] == s[i]);
                    assert(s[i].1 >= s[s.len() - 1].1);
                }
            }
        } else {
            let d = s.drop_last();
            assert(descending(d)) by {
                assert forall|i: int, j: int| 0 <= i < j < d.len() implies #[trigger] d[i].1 >= #[trigger] d[j].1 by {
                    assert(d[i] == s[i] && d[j] == s[j]);
                }
            }
            lemma_insert_ranked_descending(d, e);
            assert forall|j: int| 0 <= j < d.len() implies (#[trigger] d[j]).1 >= last.1 by {
                assert(d[j] == s[j]);
                assert(s[j].1 >= s[s.len() - 1].1);
            }
            lemma_insert_ranked_floor(d, e, last.1);
            let t = insert_ranked(d, e);
            assert forall|i: int, j: int| 0 <= i < j < t.push(last).len() implies #[trigger] t.push(last)[i].1 >= #[trigger] t.push(last)[j].1 by {
                assert(t.push(last)[i] == t[i]);
                if j < t.len() {
                    assert(t.push(last)[j] == t[j]);
                }
            }
        }
    }
}

/// Ranked entries come out best first: scores never increase along the
/// ranking.
pub proof fn lemma_ranked_descending(scores: Seq<Option<i64>>)
    ensures
        descending(ranked(scores)),
    decreases scores.len(),
{
    if scores.len() > 0 {
        lemma_ranked_descending(scores.drop_last());
        if let Some(sc) = scores.last() {
            lemma_insert_ranked_descending(ranked(scores.drop_last()), ((scores.len() - 1) as usize, sc));
        }
    }
}

/// Ranks scored entries: the index and score of each `Some`, highest score
/// first, equal scores in the order of the entries.
pub fn rank_by_score(scores: &Vec<Option<i64>>) -> (r: Vec<(usize, i64)>)
    ensures
        r@ == ranked(scores@),
{
    let mut r: Vec<(usize, i64)> = Vec::new();
    let mut i: usize = 0;
    while i < scores.len()
        invariant
            i <= scores@.len(),
            r@ == ranked(scores@.subrange(0, i as int)),
        decreases scores@.len() - i,
    {
        assert(scores@.subrange(0, i + 1).drop_last() =~= scores@.subrange(0, i as int));
        if let Some(sc) = scores[i] {
            let mut k: usize = r.len();
            while k > 0 && r[k - 1].1 < sc
                invariant
                    k <= r@.len(),
                    forall|j: int| k <= j < r@.len() ==> #[trigger] r@[j].1 < sc,
                decreases k,
            {
                k = k - 1;
            }
            proof {
                lemma_insert_ranked_at(r@, (i, sc), k as int);
            }
            r.insert(k, (i, sc));
        }
        i = i + 1;
    }
    assert(scores@.subrange(0, scores@.len() as int) =~= scores@);
    r
}

/// The skim scores of the items against `query`.
pub open spec fn skim_scores(items: Seq<String>, query: Seq<char>) -> Seq<Option<i64>> {
    Seq::new(items.len(), |i: int| skim_score(items[i]@, query))
}

/// The items that fuzzily match `query`, best match first; items of equal
/// score keep their order.
pub fn fuzzy_search_items<'a>(items: &'a [String], query: &str) -> (r: Vec<&'a String>)
    ensures
        r@.len() == ranked(skim_scores(items@, query@)).len(),
        forall|k: int|
            0 <= k < r@.len() ==> *#[trigger] r@[k] == items@[ranked(skim_scores(items@, query@))[k].0 as int],
{
    let mut scores: Vec<Option<i64>> = Vec::new();
    let mut i: usize = 0;
    while i < items.len()
        invariant
            i <= items@.len(),
            scores@ =~= skim_scores(items@, query@).subrange(0, i as int),
        decreases items@.len() - i,
    {
        scores.push(fuzzy_score(items[i].as_str(), query));
        i = i + 1;
    }
    assert(scores@ =~= skim_scores(items@, query@));
    let order = rank_by_score(&scores);
    proof {
        lemma_ranked_indices(scores@);
    }
    let mut r: Vec<&'a String> = Vec::new();
    let mut k: usize = 0;
    while k < order.len()
        invariant
            k <= order@.len(),
            order@ == ranked(scores@),
            scores@.len() == items@.len(),
            forall|j: int| 0 <= j < order@.len() ==> (#[trigger] order@[j]).0 < scores@.len(),
            r@.len() == k,
            forall|j: int| 0 <= j < k ==> *#[trigger] r@[j] == items@[order@[j].0 as int],
        decreases order@.len() - k,
    {
        r.push(&items[order[k].0]);
        k = k + 1;
    }
    r
}

proof fn lemma_insert_ranked_indices(s: Seq<(usize, i64)>, e: (usize, i64), n: int)
    requires
        forall|j: int| 0 <= j < s.len() ==> (#[trigger] s[j]).0 < n,
        e.0 < n,
    ensures
        forall|j: int| 0 <= j < insert_ranked(s, e).len() ==> (#[trigger] insert_ranked(s, e)[j]).0 < n,
    decreases s.len(),
{
    if s.len() > 0 && s.last().1 < e.1 {
        let d = s.drop_last();
        assert forall|j: int| 0 <= j < d.len() implies (#[trigger] d[j]).0 < n by {
            assert(d[j] == s[j]);
        }
        lemma_insert_ranked_indices(d, e, n);
        let t = insert_ranked(d, e);
        assert forall|j: int| 0 <= j < t.push(s.last()).len() implies (#[trigger] t.push(s.last())[j]).0 < n by {
            if j < t.len() {
                assert(t.push(s.last())[j] == t[j]);
            }
        }
    } else if s.len() > 0 {
        assert forall|j: int| 0 <= j < s.push(e).len() implies (#[trigger] s.push(e)[j]).0 < n by {
            if j < s.len() {
                assert(s.push(e)[j] == s[j]);
            }
        }
    }
}

/// Every ranked index names an entry.
proof fn lemma_ranked_indices(scores: Seq<Option<i64>>)
    ensures
        forall|j: int| 0 <= j < ranked(scores).len() ==> (#[trigger] ranked(scores)[j]).0 < scores.len(),
    decreases scores.len(),
{
    if scores.len() > 0 {
        lemma_ranked_indices(scores.drop_last());
        let rest = ranked(scores.drop_last());
        if let Some(sc) = scores.last() {
            lemma_insert_ranked_indices(rest, ((scores.len() - 1) as usize, sc), scores.len() as int);
        }
    }
}

#[verifier::external_type_specification]
#[verifier::external_body]
pub struct ExTimeDelta(chrono::TimeDelta);

/// The whole seconds that chrono's `TimeDelta::num_seconds` gives for a
/// duration.
pub uninterp spec fn whole_seconds(d: chrono::TimeDelta) -> i64;

/// Relies on chrono's `TimeDelta::num_seconds`: the whole seconds of a
/// duration, which depend on the duration alone.
pub assume_specification[ chrono::TimeDelta::num_seconds ](d: &chrono::TimeDelta) -> (r: i64)
    ensures
        r == whole_seconds(*d),
;

/// The decimal digit `d`.
pub open spec fn digit(d: int) -> char {
    "0123456789"@[d]
}

/// Decimal text of a natural number, without leading zeros.
pub open spec fn decimal(n: nat) -> Seq<char>
    decreases n,
{
    if n < 10 {
        seq![digit(n as int)]
    } else {
        decimal(n / 10).push(digit((n % 10) as int))
    }
}

/// Decimal text of an integer, with a leading `-` when negative.
pub open spec fn signed_text(v: int) -> Seq<char> {
    if v < 0 {
        seq!['-'] + decimal((-v) as nat)
    } else {
        decimal(v as nat)
    }
}

/// Decimal text padded with zeros to at least two characters.
pub open spec fn two_digit_text(v: int) -> Seq<char> {
    if 0 <= v < 10 {
        seq!['0', digit(v)]
    } else {
        signed_text(v)
    }
}

/// `a / b` rounded toward zero, as Rust divides integers.
pub open spec fn div_toward_zero(a: int, b: int) -> int {
    if a >= 0 {
        a / b
    } else {
        -((-a) / b)
    }
}

/// The remainder that goes with `div_toward_zero`; it has the sign of `a`.
pub open spec fn rem_toward_zero(a: int, b: int) -> int {
    if a >= 0 {
        a % b
    } else {
        -((-a) % b)
    }
}

/// `{minutes}:{seconds}`, the seconds in two digits.
pub open spec fn duration_text(secs: int) -> Seq<char> {
    signed_text(div_toward_zero(secs, 60)) + seq![':'] + two_digit_text(rem_toward_zero(secs, 60))
}

fn digit_str(d: u64) -> (r: &'static str)
    requires
        d < 10,
    ensures
        r@ == seq![digit(d as int)],
{
    proof {
        reveal_strlit("0123456789");
        reveal_strlit("0");
        reveal_strlit("1");
        reveal_strlit("2");
        reveal_strlit("3");
        reveal_strlit("4");
        reveal_strlit("5");
        reveal_strlit("6");
        reveal_strlit("7");
        reveal_strlit("8");
        reveal_strlit("9");
    }
    let r = match d {
        0 => "0",
        1 => "1",
        2 => "2",
        3 => "3",
        4 => "4",
        5 => "5",
        6 => "6",
        7 => "7",
        8 => "8",
        _ => "9",
    };
    assert(r@ =~= seq![digit(d as int)]);
    r
}

/// Decimal text of `n`.
fn decimal_string(n: u64) -> (r: String)
    ensures
        r@ == decimal(n as nat),
    decreases n,
{
    if n < 10 {
        String::from_str(digit_str(n))
    } else {
        let mut s = decimal_string(n / 10);
        s.append(digit_str(n % 10));
        assert(s@ =~= decimal(n as nat));
        s
    }
}

/// Formats a number of seconds as `{minutes}:{seconds}`, the seconds in at
/// least two digits; both parts are truncated toward zero and carry the
/// sign of a negative input.
pub fn format_seconds(secs: i64) -> (r: String)
    ensures
        r@ == duration_text(secs as int),
{
    let negative = secs < 0;
    let magnitude: u64 = if negative {
        (-(secs as i128)) as u64
    } else {
        secs as u64
    };
    let minutes = magnitude / 60;
    let seconds = magnitude % 60;
    let mut r = if negative && minutes > 0 {
        String::from_str("-").concat(decimal_string(minutes).as_str())
    } else {
        decimal_string(minutes)
    };
    r.append(":");
    if negative && seconds > 0 {
        r.append("-");
        r.append(decimal_string(seconds).as_str());
    } else if seconds < 10 {
        r.append("0");
        r.append(digit_str(seconds));
    } else {
        r.append(decimal_string(seconds).as_str());
    }
    proof {
        reveal_strlit("-");
        reveal_strlit(":");
        reveal_strlit("0");
        reveal_strlit("0123456789");
    }
    assert(r@ =~= duration_text(secs as int));
    r
}

/// Formats a duration as `{minutes}:{seconds}`.
pub fn format_duration(duration: &chrono::TimeDelta) -> (r: String)
    ensures
        r@ == duration_text(whole_seconds(*duration) as int),
{
    format_seconds(duration.num_seconds())
}

} // verus!
