//! The service's state: the short codes with their links, and the click
//! count of each code.
use vstd::prelude::*;
use crate::assoc::{assoc_map, has_key, keys_unique, lemma_empty, lemma_lookup, lemma_push, lemma_update};
use crate::ids::{is_code_form, new_code, CODE_LEN};
use crate::model::{is_reserved, is_reserved_code, UrlEntry};

verus! {

/// How many fresh codes a shortening draws before it gives up.
pub const MAX_ATTEMPTS: usize = 16;

/// Why a link could not be shortened.
#[derive(Debug, PartialEq, Eq, Structural, Clone, Copy)]
pub enum ShortenError {
    /// Every code drawn was already taken.
    CodesExhausted,
}

/// Why a code does not lead anywhere.
#[derive(Debug, PartialEq, Eq, Structural, Clone, Copy)]
pub enum ResolveError {
    /// The code names a route of its own.
    Reserved,
    /// No link has that code.
    Unknown,
}

/// What one attempt with a given candidate code came to.
pub enum ShortenOutcome {
    /// The link was already there, under this code.
    Existing(String),
    /// The link was stored under the candidate code.
    Created(String),
    /// The candidate code is taken or reserved; nothing changed.
    Rejected,
}

/// No two codes stand for the same link, and no code is reserved.
pub open spec fn valid_urls(urls: Map<Seq<char>, Seq<char>>) -> bool {
    &&& forall|a: Seq<char>, b: Seq<char>|
        #[trigger] urls.contains_key(a) && #[trigger] urls.contains_key(b) && urls[a] == urls[b]
            ==> a == b
    &&& forall|c: Seq<char>| #[trigger] urls.contains_key(c) ==> !is_reserved(c)
}

/// No stored code has the form of a fresh code, so no fresh code can collide.
pub open spec fn no_code_form_taken(urls: Map<Seq<char>, Seq<char>>) -> bool {
    forall|c: Seq<char>| #[trigger] urls.contains_key(c) ==> c.len() != CODE_LEN
}

/// A fresh code neither reserved nor taken, paired with a new link, keeps the
/// links valid.
pub proof fn lemma_insert_valid(urls: Map<Seq<char>, Seq<char>>, c: Seq<char>, url: Seq<char>)
    requires
        valid_urls(urls),
        !urls.contains_key(c),
        !is_reserved(c),
        !url_known(urls, url),
    ensures
        valid_urls(urls.insert(c, url)),
{
    let urls1 = urls.insert(c, url);
    assert forall|a: Seq<char>, b: Seq<char>|
        #[trigger] urls1.contains_key(a) && #[trigger] urls1.contains_key(b) && urls1[a] == urls1[b]
            implies a == b by {
        if a != c && b != c {
            assert(urls.contains_key(a) && urls.contains_key(b));
        } else if a == c && b != c {
            assert(urls.contains_key(b) && urls[b] == url);
        } else if b == c && a != c {
            assert(urls.contains_key(a) && urls[a] == url);
        }
    }
}

/// Some code stands for `url`.
pub open spec fn url_known(urls: Map<Seq<char>, Seq<char>>, url: Seq<char>) -> bool {
    exists|c: Seq<char>| #[trigger] urls.contains_key(c) && urls[c] == url
}

/// The click count of `code`: zero where none is recorded.
pub open spec fn click_count(clicks: Map<Seq<char>, u64>, code: Seq<char>) -> u64 {
    if clicks.contains_key(code) {
        clicks[code]
    } else {
        0
    }
}

/// A click count one higher, held at the largest value.
pub open spec fn bumped(n: u64) -> u64 {
    if n < u64::MAX {
        (n + 1) as u64
    } else {
        n
    }
}

/// Shortening `url` took the state from (`urls0`, `clicks0`) to (`urls1`,
/// `clicks1`) and gave the code `r` (`None` where no fresh code was found).
/// A known link keeps its code and changes nothing; a new one gets a code that
/// was free and not reserved, with a click count of zero.
pub open spec fn shortened(
    urls0: Map<Seq<char>, Seq<char>>,
    clicks0: Map<Seq<char>, u64>,
    url: Seq<char>,
    r: Option<Seq<char>>,
    urls1: Map<Seq<char>, Seq<char>>,
    clicks1: Map<Seq<char>, u64>,
) -> bool {
    if url_known(urls0, url) {
        &&& r is Some
        &&& urls0.contains_key(r->Some_0)
        &&& urls0[r->Some_0] == url
        &&& urls1 == urls0
        &&& clicks1 == clicks0
    } else {
        match r {
            Some(c) => {
                &&& !urls0.contains_key(c)
                &&& !is_reserved(c)
                &&& urls1 == urls0.insert(c, url)
                &&& clicks1 == clicks0.insert(c, 0)
            },
            None => urls1 == urls0 && clicks1 == clicks0,
        }
    }
}

/// Resolving `code` against (`urls`, `clicks0`) gave `r` and left the click
/// counts `clicks1`: a reserved or unknown code gives nothing and changes
/// nothing; a known one gives its link and one more click.
pub open spec fn resolved(
    urls: Map<Seq<char>, Seq<char>>,
    clicks0: Map<Seq<char>, u64>,
    code: Seq<char>,
    r: Option<Seq<char>>,
    clicks1: Map<Seq<char>, u64>,
) -> bool {
    if is_reserved(code) || !urls.contains_key(code) {
        r is None && clicks1 == clicks0
    } else {
        r == Some(urls[code]) && clicks1 == clicks0.insert(code, bumped(click_count(clicks0, code)))
    }
}

/// The dashboard: each code with its link and its click count.
pub open spec fn report_of(urls: Map<Seq<char>, Seq<char>>, clicks: Map<Seq<char>, u64>) -> Map<
    Seq<char>,
    (Seq<char>, u64),
> {
    Map::new(|c: Seq<char>| urls.contains_key(c), |c: Seq<char>| (urls[c], click_count(clicks, c)))
}

/// The view of a list of (code, link) pairs.
pub open spec fn pairs_view(v: Seq<(String, String)>) -> Seq<(Seq<char>, Seq<char>)> {
    v.map_values(|p: (String, String)| (p.0@, p.1@))
}

/// The view of a list of (code, count) pairs.
pub open spec fn counts_view(v: Seq<(String, u64)>) -> Seq<(Seq<char>, u64)> {
    v.map_values(|p: (String, u64)| (p.0@, p.1))
}

/// The view of a dashboard report.
pub open spec fn report_view(v: Seq<(String, String, u64)>) -> Seq<(Seq<char>, (Seq<char>, u64))> {
    v.map_values(|p: (String, String, u64)| (p.0@, (p.1@, p.2)))
}

/// A list of (code, link) pairs that a store can hold as it is.
pub open spec fn loadable(urls: Seq<(Seq<char>, Seq<char>)>) -> bool {
    keys_unique(urls) && valid_urls(assoc_map(urls))
}

/// What loading the saved pairs gives: the links and click counts, or
/// nothing where the pairs repeat a code, repeat a link or use a reserved code.
pub open spec fn loaded(urls: Seq<(Seq<char>, Seq<char>)>, clicks: Seq<(Seq<char>, u64)>) -> Option<
    (Map<Seq<char>, Seq<char>>, Map<Seq<char>, u64>),
> {
    if loadable(urls) && keys_unique(clicks) {
        Some((assoc_map(urls), assoc_map(clicks)))
    } else {
        None
    }
}

/// The state of the service.
pub struct AppState {
    url_map: Vec<(String, UrlEntry)>,
    clicks: Vec<(String, u64)>,
}

impl AppState {
    closed spec fn url_list(&self) -> Seq<(Seq<char>, Seq<char>)> {
        self.url_map@.map_values(|p: (String, UrlEntry)| (p.0@, p.1.original@))
    }

    closed spec fn click_list(&self) -> Seq<(Seq<char>, u64)> {
        counts_view(self.clicks@)
    }

    /// Each code to the link it stands for.
    pub closed spec fn urls(&self) -> Map<Seq<char>, Seq<char>> {
        assoc_map(self.url_list())
    }

    /// Each code to its recorded click count.
    pub closed spec fn clicks(&self) -> Map<Seq<char>, u64> {
        assoc_map(self.click_list())
    }

    /// Codes are unique in both lists and the links are valid.
    pub closed spec fn wf(&self) -> bool {
        &&& keys_unique(self.url_list())
        &&& keys_unique(self.click_list())
        &&& valid_urls(self.urls())
    }

    pub proof fn lemma_wf(&self)
        requires
            self.wf(),
        ensures
            valid_urls(self.urls()),
            self.urls().dom().finite(),
    {
        crate::assoc::lemma_len(self.url_list());
    }

    /// An empty store.
    pub fn new() -> (r: AppState)
        ensures
            r.wf(),
            r.urls() == Map::<Seq<char>, Seq<char>>::empty(),
            r.clicks() == Map::<Seq<char>, u64>::empty(),
    {
        let r = AppState { url_map: Vec::new(), clicks: Vec::new() };
        proof {
            lemma_empty::<Seq<char>>();
            lemma_empty::<u64>();
            assert(r.url_list() =~= Seq::empty());
            assert(r.click_list() =~= Seq::empty());
        }
        r
    }

    fn code_index(&self, code: &String) -> (r: Option<usize>)
        requires
            self.wf(),
        ensures
            match r {
                Some(i) => i < self.url_map@.len() && self.url_list()[i as int].0 == code@,
                None => !self.urls().contains_key(code@),
            },
    {
        let mut i: usize = 0;
        while i < self.url_map.len()
            invariant
                i <= self.url_map@.len(),
                forall|j: int| 0 <= j < i ==> #[trigger] self.url_list()[j].0 != code@,
            decreases self.url_map@.len() - i,
        {
            if self.url_map[i].0 == *code {
                return Some(i);
            }
            i += 1;
        }
        None
    }

    fn original_index(&self, url: &String) -> (r: Option<usize>)
        requires
            self.wf(),
        ensures
            match r {
                Some(i) => i < self.url_map@.len() && self.url_list()[i as int].1 == url@,
                None => !url_known(self.urls(), url@),
            },
    {
        let mut i: usize = 0;
        while i < self.url_map.len()
            invariant
                i <= self.url_map@.len(),
                forall|j: int| 0 <= j < i ==> #[trigger] self.url_list()[j].1 != url@,
            decreases self.url_map@.len() - i,
        {
            if self.url_map[i].1.original == *url {
                return Some(i);
            }
            i += 1;
        }
        proof {
            if url_known(self.urls(), url@) {
                let c = choose|c: Seq<char>| #[trigger] self.urls().contains_key(c) && self.urls()[c] == url@;
                let j = choose|j: int| 0 <= j < self.url_list().len() && #[trigger] self.url_list()[j].0 == c;
                lemma_lookup(self.url_list(), j);
            }
        }
        None
    }

    fn click_index(&self, code: &String) -> (r: Option<usize>)
        requires
            self.wf(),
        ensures
            match r {
                Some(i) => i < self.clicks@.len() && self.click_list()[i as int].0 == code@,
                None => !self.clicks().contains_key(code@),
            },
    {
        let mut i: usize = 0;
        while i < self.clicks.len()
            invariant
                i <= self.clicks@.len(),
                forall|j: int| 0 <= j < i ==> #[trigger] self.click_list()[j].0 != code@,
            decreases self.clicks@.len() - i,
        {
            if self.clicks[i].0 == *code {
                return Some(i);
            }
            i += 1;
        }
        None
    }

    /// Sets the click count of `code` to `n`.
    fn set_clicks(&mut self, code: String, n: u64)
        requires
            old(self).wf(),
        ensures
            final(self).wf(),
            final(self).urls() == old(self).urls(),
            final(self).clicks() == old(self).clicks().insert(code@, n),
    {
        match self.click_index(&code) {
            Some(i) => {
                proof {
                    lemma_update(self.click_list(), i as int, n);
                }
                let ghost before = self.click_list();
                self.clicks.set(i, (code, n));
                proof {
                    assert(self.click_list() =~= before.update(i as int, (before[i as int].0, n)));
                }
            },
            None => {
                proof {
                    lemma_push(self.click_list(), code@, n);
                }
                let ghost before = self.click_list();
                self.clicks.push((code, n));
                proof {
                    assert(self.click_list() =~= before.push((code@, n)));
                }
            },
        }
    }

    /// Stores `url` under `candidate` unless it is known already or the
    /// candidate is taken or reserved.
    pub fn shorten_with_code(&mut self, url: String, candidate: String) -> (r: ShortenOutcome)
        requires
            old(self).wf(),
        ensures
            final(self).wf(),
            url_known(old(self).urls(), url@) ==> match r {
                ShortenOutcome::Existing(c) => old(self).urls().contains_key(c@) && old(self).urls()[c@] == url@,
                _ => false,
            },
            url_known(old(self).urls(), url@) || old(self).urls().contains_key(candidate@) || is_reserved(candidate@)
                ==> final(self).urls() == old(self).urls() && final(self).clicks() == old(self).clicks(),
            !url_known(old(self).urls(), url@) && (old(self).urls().contains_key(candidate@) || is_reserved(candidate@))
                ==> r is Rejected,
            !url_known(old(self).urls(), url@) && !old(self).urls().contains_key(candidate@) && !is_reserved(candidate@)
                ==> match r {
                ShortenOutcome::Created(c) => c@ == candidate@,
                _ => false,
            } && final(self).urls() == old(self).urls().insert(candidate@, url@) && final(self).clicks()
                == old(self).clicks().insert(candidate@, 0),
    {
        match self.original_index(&url) {
            Some(i) => {
                proof {
                    lemma_lookup(self.url_list(), i as int);
                }
                return ShortenOutcome::Existing(self.url_map[i].0.clone());
            },
            None => {},
        }
        if is_reserved_code(&candidate) {
            return ShortenOutcome::Rejected;
        }
        match self.code_index(&candidate) {
            Some(i) => {
                proof {
                    lemma_lookup(self.url_list(), i as int);
                }
                return ShortenOutcome::Rejected;
            },
            None => {},
        }
        let ghost urls0 = self.urls();
        let ghost list0 = self.url_list();
        proof {
            if has_key(list0, candidate@) {
                let j = choose|j: int| 0 <= j < list0.len() && #[trigger] list0[j].0 == candidate@;
                lemma_lookup(list0, j);
            }
            lemma_push(list0, candidate@, url@);
        }
        let code = candidate.clone();
        self.url_map.push((candidate, UrlEntry { original: url }));
        proof {
            assert(self.url_list() =~= list0.push((code@, url@)));
            lemma_insert_valid(urls0, code@, url@);
        }
        self.set_clicks(code.clone(), 0);
        ShortenOutcome::Created(code)
    }

    /// The code of `url`: the one it already has, or a fresh random one under
    /// which it is stored with no clicks. Draws up to `MAX_ATTEMPTS` codes.
    pub fn shorten(&mut self, url: String) -> (r: Result<String, ShortenError>)
        requires
            old(self).wf(),
        ensures
            final(self).wf(),
            shortened(
                old(self).urls(),
                old(self).clicks(),
                url@,
                match r {
                    Ok(c) => Some(c@),
                    Err(_) => None,
                },
                final(self).urls(),
                final(self).clicks(),
            ),
            !url_known(old(self).urls(), url@) && no_code_form_taken(old(self).urls()) ==> r is Ok,
            r matches Ok(c) ==> (!url_known(old(self).urls(), url@) ==> is_code_form(c@)),
    {
        let mut attempts: usize = 0;
        while attempts < MAX_ATTEMPTS
            invariant
                self.wf(),
                self.urls() == old(self).urls(),
                self.clicks() == old(self).clicks(),
                attempts > 0 ==> !url_known(old(self).urls(), url@),
                attempts > 0 ==> !no_code_form_taken(old(self).urls()),
            decreases MAX_ATTEMPTS - attempts,
        {
            let candidate = new_code();
            let ghost drawn = candidate@;
            proof {
                reveal_strlit("dashboard");
                reveal_strlit("shorten");
                assert(!is_reserved(drawn));
            }
            match self.shorten_with_code(url.clone(), candidate) {
                ShortenOutcome::Existing(c) => {
                    return Ok(c);
                },
                ShortenOutcome::Created(c) => {
                    return Ok(c);
                },
                ShortenOutcome::Rejected => {
                    assert(self.urls().contains_key(drawn));
                },
            }
            attempts += 1;
        }
        Err(ShortenError::CodesExhausted)
    }

    /// The link of `code`, counting one more click on it. Reserved and unknown
    /// codes lead nowhere and change nothing.
    pub fn resolve(&mut self, code: &String) -> (r: Result<String, ResolveError>)
        requires
            old(self).wf(),
        ensures
            final(self).wf(),
            final(self).urls() == old(self).urls(),
            resolved(
                old(self).urls(),
                old(self).clicks(),
                code@,
                match r {
                    Ok(u) => Some(u@),
                    Err(_) => None,
                },
                final(self).clicks(),
            ),
            r == Err::<String, ResolveError>(ResolveError::Reserved) <==> is_reserved(code@),
            r == Err::<String, ResolveError>(ResolveError::Unknown) <==> !is_reserved(code@)
                && !old(self).urls().contains_key(code@),
    {
        if is_reserved_code(code) {
            return Err(ResolveError::Reserved);
        }
        match self.code_index(code) {
            None => Err(ResolveError::Unknown),
            Some(i) => {
                proof {
                    lemma_lookup(self.url_list(), i as int);
                }
                let original = self.url_map[i].1.original.clone();
                let n = self.count_of(code);
                let next = if n < u64::MAX {
                    n + 1
                } else {
                    n
                };
                self.set_clicks(code.clone(), next);
                Ok(original)
            },
        }
    }

    /// The click count of `code`.
    pub fn count_of(&self, code: &String) -> (r: u64)
        requires
            self.wf(),
        ensures
            r == click_count(self.clicks(), code@),
    {
        match self.click_index(code) {
            Some(j) => {
                proof {
                    lemma_lookup(self.click_list(), j as int);
                }
                self.clicks[j].1
            },
            None => 0,
        }
    }

    /// Every code with its link and click count.
    pub fn report(&self) -> (r: Vec<(String, String, u64)>)
        requires
            self.wf(),
        ensures
            keys_unique(report_view(r@)),
            assoc_map(report_view(r@)) == report_of(self.urls(), self.clicks()),
            r@.len() == self.urls().dom().len(),
    {
        let mut r: Vec<(String, String, u64)> = Vec::new();
        let mut i: usize = 0;
        while i < self.url_map.len()
            invariant
                self.wf(),
                i <= self.url_map@.len(),
                r@.len() == i,
                forall|j: int|
                    0 <= j < i ==> #[trigger] report_view(r@)[j] == (
                        self.url_list()[j].0,
                        (self.url_list()[j].1, click_count(self.clicks(), self.url_list()[j].0)),
                    ),
            decreases self.url_map@.len() - i,
        {
            let code = self.url_map[i].0.clone();
            let n = self.count_of(&code);
            let ghost before = r@;
            r.push((code, self.url_map[i].1.original.clone(), n));
            proof {
                assert forall|j: int| 0 <= j < i + 1 implies #[trigger] report_view(r@)[j] == (
                    self.url_list()[j].0,
                    (self.url_list()[j].1, click_count(self.clicks(), self.url_list()[j].0)),
                ) by {
                    if j < i {
                        assert(r@[j] == before[j]);
                        assert(report_view(before)[j] == report_view(r@)[j]);
                    }
                }
            }
            i += 1;
        }
        proof {
            let rv = report_view(r@);
            let ul = self.url_list();
            assert forall|a: int, b: int|
                0 <= a < rv.len() && 0 <= b < rv.len() && a != b implies #[trigger] rv[a].0
                != #[trigger] rv[b].0 by {
                assert(rv[a].0 == ul[a].0 && rv[b].0 == ul[b].0);
            }
            let rep = report_of(self.urls(), self.clicks());
            assert forall|c: Seq<char>| has_key(rv, c) <==> has_key(ul, c) by {
                if has_key(rv, c) {
                    let j = choose|j: int| 0 <= j < rv.len() && #[trigger] rv[j].0 == c;
                    assert(ul[j].0 == c);
                }
                if has_key(ul, c) {
                    let j = choose|j: int| 0 <= j < ul.len() && #[trigger] ul[j].0 == c;
                    assert(rv[j].0 == c);
                }
            }
            assert forall|c: Seq<char>| #[trigger] assoc_map(rv).contains_key(c) implies assoc_map(rv)[c]
                == rep[c] by {
                let j = choose|j: int| 0 <= j < rv.len() && #[trigger] rv[j].0 == c;
                lemma_lookup(rv, j);
                lemma_lookup(ul, j);
            }
            assert(assoc_map(rv) =~= rep);
            crate::assoc::lemma_len(ul);
        }
        r
    }

    /// The (code, link) pairs of the store, to be saved.
    pub fn entries(&self) -> (r: Vec<(String, String)>)
        requires
            self.wf(),
        ensures
            loadable(pairs_view(r@)),
            assoc_map(pairs_view(r@)) == self.urls(),
    {
        let mut r: Vec<(String, String)> = Vec::new();
        let mut i: usize = 0;
        while i < self.url_map.len()
            invariant
                i <= self.url_map@.len(),
                pairs_view(r@) == self.url_list().subrange(0, i as int),
            decreases self.url_map@.len() - i,
        {
            let ghost before = r@;
            r.push((self.url_map[i].0.clone(), self.url_map[i].1.original.clone()));
            proof {
                assert(pairs_view(r@) =~= pairs_view(before).push(self.url_list()[i as int]));
                assert(self.url_list().subrange(0, i + 1) =~= self.url_list().subrange(0, i as int).push(
                    self.url_list()[i as int],
                ));
            }
            i += 1;
        }
        proof {
            assert(self.url_list().subrange(0, self.url_map@.len() as int) =~= self.url_list());
        }
        r
    }

    /// The (code, count) pairs of the store, to be saved.
    pub fn click_entries(&self) -> (r: Vec<(String, u64)>)
        requires
            self.wf(),
        ensures
            keys_unique(counts_view(r@)),
            assoc_map(counts_view(r@)) == self.clicks(),
    {
        let mut r: Vec<(String, u64)> = Vec::new();
        let mut i: usize = 0;
        while i < self.clicks.len()
            invariant
                i <= self.clicks@.len(),
                counts_view(r@) == self.click_list().subrange(0, i as int),
            decreases self.clicks@.len() - i,
        {
            let ghost before = r@;
            r.push((self.clicks[i].0.clone(), self.clicks[i].1));
            proof {
                assert(counts_view(r@) =~= counts_view(before).push(self.click_list()[i as int]));
                assert(self.click_list().subrange(0, i + 1) =~= self.click_list().subrange(
                    0,
                    i as int,
                ).push(self.click_list()[i as int]));
            }
            i += 1;
        }
        proof {
            assert(self.click_list().subrange(0, self.clicks@.len() as int) =~= self.click_list());
        }
        r
    }

    /// A store that holds the saved pairs as they are, or `None` where they
    /// repeat a code, repeat a link or use a reserved code.
    pub fn from_entries(urls: Vec<(String, String)>, clicks: Vec<(String, u64)>) -> (r: Option<AppState>)
        ensures
            r is Some <==> loadable(pairs_view(urls@)) && keys_unique(counts_view(clicks@)),
            r matches Some(s) ==> s.wf() && s.urls() == assoc_map(pairs_view(urls@)) && s.clicks()
                == assoc_map(counts_view(clicks@)),
            match r {
                Some(s) => loaded(pairs_view(urls@), counts_view(clicks@)) == Some((s.urls(), s.clicks())),
                None => loaded(pairs_view(urls@), counts_view(clicks@)) is None,
            },
    {
        let ghost ul = pairs_view(urls@);
        let ghost cl = counts_view(clicks@);
        let mut s = AppState { url_map: Vec::new(), clicks: Vec::new() };
        proof {
            lemma_empty::<Seq<char>>();
            lemma_empty::<u64>();
            assert(s.url_list() =~= ul.subrange(0, 0));
            assert(s.click_list() =~= Seq::empty());
        }
        let mut i: usize = 0;
        while i < urls.len()
            invariant
                ul == pairs_view(urls@),
                s.wf(),
                i <= urls@.len(),
                s.url_list() == ul.subrange(0, i as int),
                s.clicks@.len() == 0,
            decreases urls@.len() - i,
        {
            let code = urls[i].0.clone();
            let url = urls[i].1.clone();
            assert(ul[i as int] == (code@, url@));
            if is_reserved_code(&code) {
                proof {
                    if keys_unique(ul) {
                        lemma_lookup(ul, i as int);
                    }
                }
                return None;
            }
            match s.code_index(&code) {
                Some(j) => {
                    proof {
                        assert(ul[j as int].0 == ul[i as int].0);
                    }
                    return None;
                },
                None => {},
            }
            match s.original_index(&url) {
                Some(j) => {
                    proof {
                        if keys_unique(ul) {
                            lemma_lookup(ul, i as int);
                            lemma_lookup(ul, j as int);
                        }
                    }
                    return None;
                },
                None => {},
            }
            let ghost list0 = s.url_list();
            let ghost urls0 = s.urls();
            proof {
                if has_key(list0, code@) {
                    let j = choose|j: int| 0 <= j < list0.len() && #[trigger] list0[j].0 == code@;
                    lemma_lookup(list0, j);
                }
                lemma_push(list0, code@, url@);
            }
            s.url_map.push((code, UrlEntry { original: url }));
            proof {
                assert(s.url_list() =~= list0.push(ul[i as int]));
                assert(ul.subrange(0, i + 1) =~= ul.subrange(0, i as int).push(ul[i as int]));
                lemma_insert_valid(urls0, code@, url@);
            }
            i += 1;
        }
        proof {
            assert(ul.subrange(0, urls@.len() as int) =~= ul);
            assert(s.click_list() =~= cl.subrange(0, 0));
        }
        let mut k: usize = 0;
        while k < clicks.len()
            invariant
                ul == pairs_view(urls@),
                cl == counts_view(clicks@),
                s.wf(),
                s.url_list() == ul,
                k <= clicks@.len(),
                s.click_list() == cl.subrange(0, k as int),
            decreases clicks@.len() - k,
        {
            let code = clicks[k].0.clone();
            let n = clicks[k].1;
            assert(cl[k as int] == (code@, n));
            match s.click_index(&code) {
                Some(j) => {
                    proof {
                        assert(s.click_list().len() == s.clicks@.len());
                        assert(j < k);
                        assert(cl.subrange(0, k as int)[j as int] == cl[j as int]);
                        assert(s.click_list()[j as int] == cl[j as int]);
                        assert(cl[j as int].0 == cl[k as int].0);
                    }
                    return None;
                },
                None => {},
            }
            let ghost list0 = s.click_list();
            proof {
                if has_key(list0, code@) {
                    let j = choose|j: int| 0 <= j < list0.len() && #[trigger] list0[j].0 == code@;
                    lemma_lookup(list0, j);
                }
                lemma_push(list0, code@, n);
            }
            s.clicks.push((code, n));
            proof {
                assert(s.click_list() =~= list0.push(cl[k as int]));
                assert(cl.subrange(0, k + 1) =~= cl.subrange(0, k as int).push(cl[k as int]));
            }
            k += 1;
        }
        proof {
            assert(cl.subrange(0, clicks@.len() as int) =~= cl);
        }
        Some(s)
    }
}

} // verus!
