//! What holds across calls: deduplication, distinct codes, resolving after
//! shortening, and click counts on the dashboard.
use vstd::prelude::*;
use crate::model::is_reserved;
use crate::assoc::{assoc_map, keys_unique};
use crate::store::{
    lemma_insert_valid,
    bumped, click_count, loadable, loaded, report_of, resolved, shortened, url_known, valid_urls, AppState,
};

verus! {

/// Shortening keeps the links valid and never drops or changes a code.
pub proof fn lemma_shortened_grows(
    urls0: Map<Seq<char>, Seq<char>>,
    clicks0: Map<Seq<char>, u64>,
    url: Seq<char>,
    r: Option<Seq<char>>,
    urls1: Map<Seq<char>, Seq<char>>,
    clicks1: Map<Seq<char>, u64>,
)
    requires
        valid_urls(urls0),
        shortened(urls0, clicks0, url, r, urls1, clicks1),
    ensures
        valid_urls(urls1),
        forall|c: Seq<char>| #[trigger] urls0.contains_key(c) ==> urls1.contains_key(c) && urls1[c] == urls0[c],
        r matches Some(c) ==> urls1.contains_key(c) && urls1[c] == url,
{
    if !url_known(urls0, url) && r is Some {
        lemma_insert_valid(urls0, r->Some_0, url);
    }
}

/// Shortening the same link twice gives the same code both times; the second
/// time changes nothing, and exactly one code stands for the link.
pub proof fn lemma_shorten_twice_same_code(
    urls0: Map<Seq<char>, Seq<char>>,
    clicks0: Map<Seq<char>, u64>,
    url: Seq<char>,
    c1: Seq<char>,
    urls1: Map<Seq<char>, Seq<char>>,
    clicks1: Map<Seq<char>, u64>,
    r2: Option<Seq<char>>,
    urls2: Map<Seq<char>, Seq<char>>,
    clicks2: Map<Seq<char>, u64>,
)
    requires
        valid_urls(urls0),
        shortened(urls0, clicks0, url, Some(c1), urls1, clicks1),
        shortened(urls1, clicks1, url, r2, urls2, clicks2),
    ensures
        r2 == Some(c1),
        urls2 == urls1,
        clicks2 == clicks1,
        urls2.contains_key(c1) && urls2[c1] == url,
        forall|c: Seq<char>| #[trigger] urls2.contains_key(c) && urls2[c] == url ==> c == c1,
{
    lemma_shortened_grows(urls0, clicks0, url, Some(c1), urls1, clicks1);
    assert(url_known(urls1, url));
}

/// Shortening two different links gives two different codes.
pub proof fn lemma_distinct_links_distinct_codes(
    urls0: Map<Seq<char>, Seq<char>>,
    clicks0: Map<Seq<char>, u64>,
    u1: Seq<char>,
    c1: Seq<char>,
    urls1: Map<Seq<char>, Seq<char>>,
    clicks1: Map<Seq<char>, u64>,
    u2: Seq<char>,
    c2: Seq<char>,
    urls2: Map<Seq<char>, Seq<char>>,
    clicks2: Map<Seq<char>, u64>,
)
    requires
        valid_urls(urls0),
        shortened(urls0, clicks0, u1, Some(c1), urls1, clicks1),
        shortened(urls1, clicks1, u2, Some(c2), urls2, clicks2),
        u1 != u2,
    ensures
        c1 != c2,
{
    lemma_shortened_grows(urls0, clicks0, u1, Some(c1), urls1, clicks1);
    lemma_shortened_grows(urls1, clicks1, u2, Some(c2), urls2, clicks2);
    assert(urls2[c1] == u1);
}

/// Resolving a code right after shortening gives back the link and counts
/// one more click; a code that was just created goes from no clicks to one.
pub proof fn lemma_resolve_after_shorten(
    urls0: Map<Seq<char>, Seq<char>>,
    clicks0: Map<Seq<char>, u64>,
    url: Seq<char>,
    c: Seq<char>,
    urls1: Map<Seq<char>, Seq<char>>,
    clicks1: Map<Seq<char>, u64>,
    r: Option<Seq<char>>,
    clicks2: Map<Seq<char>, u64>,
)
    requires
        valid_urls(urls0),
        shortened(urls0, clicks0, url, Some(c), urls1, clicks1),
        resolved(urls1, clicks1, c, r, clicks2),
    ensures
        r == Some(url),
        click_count(clicks2, c) == bumped(click_count(clicks1, c)),
        !url_known(urls0, url) ==> click_count(clicks1, c) == 0 && click_count(clicks2, c) == 1,
{
    lemma_shortened_grows(urls0, clicks0, url, Some(c), urls1, clicks1);
}

/// A reserved code, or one that no link has, resolves to nothing and changes
/// no click count, whatever the store holds.
pub proof fn lemma_unknown_or_reserved_not_found(
    urls: Map<Seq<char>, Seq<char>>,
    clicks0: Map<Seq<char>, u64>,
    code: Seq<char>,
    r: Option<Seq<char>>,
    clicks1: Map<Seq<char>, u64>,
)
    requires
        resolved(urls, clicks0, code, r, clicks1),
        is_reserved(code) || !urls.contains_key(code),
    ensures
        r is None,
        clicks1 == clicks0,
{
}

/// How many of the first `n` steps of a run resolved `code` to a link.
pub open spec fn resolves_of(
    code: Seq<char>,
    is_resolve: Seq<bool>,
    args: Seq<Seq<char>>,
    results: Seq<Option<Seq<char>>>,
    n: int,
) -> nat
    decreases n,
{
    if n <= 0 {
        0
    } else {
        resolves_of(code, is_resolve, args, results, n - 1) + if is_resolve[n - 1] && args[n - 1]
            == code && results[n - 1] is Some {
            1nat
        } else {
            0nat
        }
    }
}

/// Step `i` of a run took the state from (`urls[i]`, `clicks[i]`) to
/// (`urls[i + 1]`, `clicks[i + 1]`): a resolve of `args[i]` where
/// `is_resolve[i]`, else a shortening of `args[i]`; `results[i]` is what it gave.
pub open spec fn run_step(
    urls: Seq<Map<Seq<char>, Seq<char>>>,
    clicks: Seq<Map<Seq<char>, u64>>,
    is_resolve: Seq<bool>,
    args: Seq<Seq<char>>,
    results: Seq<Option<Seq<char>>>,
    i: int,
) -> bool {
    if is_resolve[i] {
        urls[i + 1] == urls[i] && resolved(urls[i], clicks[i], args[i], results[i], clicks[i + 1])
    } else {
        shortened(urls[i], clicks[i], args[i], results[i], urls[i + 1], clicks[i + 1])
    }
}

/// A run of `n` steps, each a shortening or a resolve of the state before it.
pub open spec fn is_run(
    urls: Seq<Map<Seq<char>, Seq<char>>>,
    clicks: Seq<Map<Seq<char>, u64>>,
    is_resolve: Seq<bool>,
    args: Seq<Seq<char>>,
    results: Seq<Option<Seq<char>>>,
    n: int,
) -> bool {
    &&& urls.len() == n + 1
    &&& clicks.len() == n + 1
    &&& is_resolve.len() == n
    &&& args.len() == n
    &&& results.len() == n
    &&& forall|i: int| 0 <= i < n ==> #[trigger] run_step(urls, clicks, is_resolve, args, results, i)
}

proof fn lemma_run_prefix(
    url: Seq<char>,
    code: Seq<char>,
    urls: Seq<Map<Seq<char>, Seq<char>>>,
    clicks: Seq<Map<Seq<char>, u64>>,
    is_resolve: Seq<bool>,
    args: Seq<Seq<char>>,
    results: Seq<Option<Seq<char>>>,
    steps: int,
    n: int,
)
    requires
        0 <= n <= steps,
        steps < u64::MAX,
        is_run(urls, clicks, is_resolve, args, results, steps),
        valid_urls(urls[0]),
        urls[0].contains_key(code),
        urls[0][code] == url,
        click_count(clicks[0], code) == 0,
    ensures
        valid_urls(urls[n]),
        urls[n].contains_key(code),
        urls[n][code] == url,
        click_count(clicks[n], code) == resolves_of(code, is_resolve, args, results, n),
        resolves_of(code, is_resolve, args, results, n) <= n,
    decreases n,
{
    if n > 0 {
        let i = n - 1;
        lemma_run_prefix(url, code, urls, clicks, is_resolve, args, results, steps, i);
        assert(run_step(urls, clicks, is_resolve, args, results, i));
        if !is_resolve[i] {
            lemma_shortened_grows(urls[i], clicks[i], args[i], results[i], urls[n], clicks[n]);
        }
    }
}

/// The dashboard has one row per code, and the row of a code shows as many
/// clicks as there were resolves of that code since it was created, whatever
/// other shortenings and resolves came in between.
pub proof fn lemma_dashboard_counts_resolves(
    urls0: Map<Seq<char>, Seq<char>>,
    clicks0: Map<Seq<char>, u64>,
    url: Seq<char>,
    code: Seq<char>,
    urls: Seq<Map<Seq<char>, Seq<char>>>,
    clicks: Seq<Map<Seq<char>, u64>>,
    is_resolve: Seq<bool>,
    args: Seq<Seq<char>>,
    results: Seq<Option<Seq<char>>>,
    steps: int,
)
    requires
        valid_urls(urls0),
        !url_known(urls0, url),
        0 <= steps < u64::MAX,
        is_run(urls, clicks, is_resolve, args, results, steps),
        shortened(urls0, clicks0, url, Some(code), urls[0], clicks[0]),
    ensures
        report_of(urls[steps], clicks[steps]).dom() == urls[steps].dom(),
        report_of(urls[steps], clicks[steps])[code] == (
            url,
            resolves_of(code, is_resolve, args, results, steps) as u64,
        ),
{
    lemma_shortened_grows(urls0, clicks0, url, Some(code), urls[0], clicks[0]);
    lemma_run_prefix(url, code, urls, clicks, is_resolve, args, results, steps, steps);
    assert(report_of(urls[steps], clicks[steps]).dom() =~= urls[steps].dom());
}

/// Saving and loading gives the store back: the pairs that `entries` and
/// `click_entries` hand out load, through `from_entries`, to the same links
/// and click counts.
pub proof fn lemma_save_load_round_trip(
    s: AppState,
    saved_urls: Seq<(Seq<char>, Seq<char>)>,
    saved_clicks: Seq<(Seq<char>, u64)>,
)
    requires
        s.wf(),
        loadable(saved_urls),
        assoc_map(saved_urls) == s.urls(),
        keys_unique(saved_clicks),
        assoc_map(saved_clicks) == s.clicks(),
    ensures
        loaded(saved_urls, saved_clicks) == Some((s.urls(), s.clicks())),
{
}

} // verus!
