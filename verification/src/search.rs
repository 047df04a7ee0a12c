//! Fuzzy search over the catalogue, scored by nucleo-matcher, and the ordering
//! of the results.
use vstd::prelude::*;

use nucleo_matcher::pattern::{AtomKind, CaseMatching, Normalization, Pattern};
use nucleo_matcher::{Config, Matcher, Utf32Str};

use crate::app::{item_views, ListItem, ListItemView};
use crate::data::{text_or_empty, value_for, ApiData, Model, Provider};
use crate::sorting::{
    is_stable_sort, lemma_all_ties_stable_sorted, lemma_insert_after_ties,
    lemma_stable_sort_empty, lemma_stable_sort_same_elements, lemma_stable_sorted_is_stable_sort,
    stable_sorted, total_preorder,
};
use crate::text::{chars_of, lemma_lex_le_by_total_preorder, lex_le, lex_le_by, lex_le_exec, lowercase, string_of, to_lowercase};

verus! {

/// nucleo-matcher's `Matcher` (its configuration and scratch memory), declared
/// so that the library can hold one; nothing inside it is visible here.
#[verifier::external_type_specification]
#[verifier::external_body]
pub struct ExMatcher(Matcher);

/// A nucleo `Matcher` made with the default configuration, kept to reuse its
/// scratch memory across searches.
pub struct FuzzyMatcher {
    matcher: Matcher,
}

/// Calls `Matcher::new(Config::DEFAULT)`; nothing is promised of the matcher.
#[verifier::external_body]
fn default_matcher() -> FuzzyMatcher {
    FuzzyMatcher { matcher: Matcher::new(Config::DEFAULT) }
}

impl FuzzyMatcher {
    /// A matcher with the default configuration.
    pub fn new() -> FuzzyMatcher {
        default_matcher()
    }
}

/// nucleo-matcher's score for `query`, read as space-separated words that are
/// matched fuzzily, ignoring case, with smart normalisation, against `haystack`,
/// under the default configuration: the sum of the words' scores (0 for no
/// words), or `None` when some word does not match.
pub uninterp spec fn nucleo_fuzzy_score(haystack: Seq<char>, query: Seq<char>) -> Option<u32>;

/// The longest query that is scored. nucleo turns each word into a needle of at
/// most one character per character of the word, scores a needle of `n`
/// characters at most `26 * n + 10` in a `u16`, and sums the words' scores in a
/// `u32`: up to this length none of these sums can overflow.
pub const MAX_QUERY_CHARS: usize = 2048;

/// Calls nucleo-matcher's `Pattern::new(query, Ignore, Smart, Fuzzy).score`
/// on `haystack`. Scoring sets only the matcher's case and normalisation
/// fields, from the pattern's words, and the matcher otherwise keeps the
/// default configuration, so the result is named `nucleo_fuzzy_score` of the
/// two texts. nucleo panics on a haystack of more than `u32::MAX` characters,
/// and its unchecked score arithmetic can overflow on longer queries.
#[verifier::external_body]
fn nucleo_score(haystack: &str, query: &str, matcher: &mut FuzzyMatcher) -> (r: Option<u32>)
    requires
        haystack@.len() <= u32::MAX,
        query@.len() <= MAX_QUERY_CHARS,
    ensures
        r == nucleo_fuzzy_score(haystack@, query@),
{
    let mut buf = Vec::new();
    let pattern = Pattern::new(query, CaseMatching::Ignore, Normalization::Smart, AtomKind::Fuzzy);
    pattern.score(Utf32Str::new(haystack, &mut buf), &mut matcher.matcher)
}

/// The score of `query` against `haystack`: 0 for an empty query, else
/// nucleo's.
pub open spec fn fuzzy_score_spec(haystack: Seq<char>, query: Seq<char>) -> Option<u32> {
    if query.len() == 0 {
        Some(0)
    } else {
        nucleo_fuzzy_score(haystack, query)
    }
}

/// Scores `query` against `haystack`.
pub fn fuzzy_score(haystack: &str, query: &str, matcher: &mut FuzzyMatcher) -> (r: Option<u32>)
    requires
        haystack@.len() <= u32::MAX,
        query@.len() <= MAX_QUERY_CHARS,
    ensures
        r == fuzzy_score_spec(haystack@, query@),
{
    if query.unicode_len() == 0 {
        return Some(0);
    }
    nucleo_score(haystack, query, matcher)
}

/// The larger of two optional scores, where no score is below every score.
pub open spec fn max_score(a: Option<u32>, b: Option<u32>) -> Option<u32> {
    match (a, b) {
        (None, _) => b,
        (_, None) => a,
        (Some(x), Some(y)) => Some(if x >= y { x } else { y }),
    }
}

fn max_score_exec(a: Option<u32>, b: Option<u32>) -> (r: Option<u32>)
    ensures
        r == max_score(a, b),
{
    match (a, b) {
        (None, _) => b,
        (_, None) => a,
        (Some(x), Some(y)) => Some(if x >= y { x } else { y }),
    }
}

/// The texts a model is matched against: provider and model name joined both
/// ways, the model's name, its key, its family, and the provider's name.
pub open spec fn model_haystacks(provider_name: Seq<char>, model_key: Seq<char>, model: Model) -> Seq<Seq<char>> {
    seq![
        provider_name + seq![' '] + model.name@,
        model.name@ + seq![' '] + provider_name,
        model.name@,
        model_key,
        text_or_empty(model.family),
        provider_name,
    ]
}

/// The best score of `query` over the nonempty texts of `hays`.
pub open spec fn best_score(hays: Seq<Seq<char>>, query: Seq<char>) -> Option<u32>
    decreases hays.len(),
{
    if hays.len() == 0 {
        None
    } else {
        let rest = best_score(hays.drop_last(), query);
        if hays.last().len() == 0 {
            rest
        } else {
            max_score(rest, fuzzy_score_spec(hays.last(), query))
        }
    }
}

/// A matched list entry and its score.
#[derive(Debug)]
pub struct FuzzyHit {
    pub item: ListItem,
    pub score: u32,
}

/// The texts of a matched entry, and its score.
pub struct HitView {
    pub item: ListItemView,
    pub score: u32,
}

impl View for FuzzyHit {
    type V = HitView;

    open spec fn view(&self) -> HitView {
        HitView { item: self.item@, score: self.score }
    }
}

pub open spec fn hit_views(s: Seq<FuzzyHit>) -> Seq<HitView> {
    s.map_values(|h: FuzzyHit| h@)
}

/// The entry that matching yields, if it matches: with no query every entry
/// matches with score 0; a model scores its best over `model_haystacks`; a
/// provider scores the better of its name and its key.
pub open spec fn match_item_spec(
    provider_id: Seq<char>,
    provider_name: Seq<char>,
    model: Option<(Seq<char>, Model)>,
    query: Seq<char>,
) -> Option<HitView> {
    match model {
        Some((model_key, m)) => {
            let item = ListItemView::Model {
                provider_id,
                provider_name,
                model_id: model_key,
                model_name: m.name@,
            };
            if query.len() == 0 {
                Some(HitView { item, score: 0 })
            } else {
                match best_score(model_haystacks(provider_name, model_key, m), query) {
                    Some(s) => Some(HitView { item, score: s }),
                    None => None,
                }
            }
        },
        None => {
            let item = ListItemView::Provider { id: provider_id, name: provider_name };
            if query.len() == 0 {
                Some(HitView { item, score: 0 })
            } else {
                match max_score(
                    fuzzy_score_spec(provider_name, query),
                    fuzzy_score_spec(provider_id, query),
                ) {
                    Some(s) => Some(HitView { item, score: s }),
                    None => None,
                }
            }
        },
    }
}

pub open spec fn hit_view_opt(h: Option<FuzzyHit>) -> Option<HitView> {
    match h {
        Some(x) => Some(x@),
        None => None,
    }
}

/// The model variant of an entry.
fn model_item(provider_id: &str, provider_name: &str, model_key: &str, model: &Model) -> (r: ListItem)
    ensures
        r@ == (ListItemView::Model {
            provider_id: provider_id@,
            provider_name: provider_name@,
            model_id: model_key@,
            model_name: model.name@,
        }),
{
    ListItem::Model {
        provider_id: string_of(provider_id),
        provider_name: string_of(provider_name),
        model_id: string_of(model_key),
        model_name: model.name.clone(),
    }
}

/// Joins two texts with a space between them.
fn joined(a: &str, b: &str) -> (r: String)
    ensures
        r@ == a@ + seq![' '] + b@,
{
    let r = string_of(a).concat(" ").concat(b);
    proof {
        reveal_strlit(" ");
    }
    r
}

/// Matches `query` against a provider (`model` is `None`) or one of its models.
pub fn fuzzy_match_item(
    provider_id: &str,
    provider_name: &str,
    model: Option<(&str, &Model)>,
    query: &str,
    matcher: &mut FuzzyMatcher,
) -> (r: Option<FuzzyHit>)
    requires
        provider_id@.len() <= u32::MAX,
        provider_name@.len() <= u32::MAX,
        query@.len() <= MAX_QUERY_CHARS,
        model matches Some((k, m)) ==> {
            &&& provider_name@.len() + 1 + m.name@.len() <= u32::MAX
            &&& k@.len() <= u32::MAX
            &&& text_or_empty(m.family).len() <= u32::MAX
        },
    ensures
        hit_view_opt(r) == match_item_spec(
            provider_id@,
            provider_name@,
            match model {
                Some((k, m)) => Some((k@, *m)),
                None => None,
            },
            query@,
        ),
{
    let query_len = query.unicode_len();
    match model {
        Some((model_key, m)) => {
            if query_len == 0 {
                return Some(FuzzyHit { item: model_item(provider_id, provider_name, model_key, m), score: 0 });
            }
            let combined = joined(provider_name, m.name.as_str());
            let reversed = joined(m.name.as_str(), provider_name);
            let empty = String::new();
            let family: &str = match &m.family {
                Some(f) => f.as_str(),
                None => empty.as_str(),
            };
            let haystacks: Vec<&str> = vec![
                combined.as_str(),
                reversed.as_str(),
                m.name.as_str(),
                model_key,
                family,
                provider_name,
            ];
            let ghost hays = model_haystacks(provider_name@, model_key@, *m);
            assert(haystacks@.map_values(|h: &str| h@) =~= hays);
            let mut best: Option<u32> = None;
            let mut i: usize = 0;
            while i < haystacks.len()
                invariant
                    i <= haystacks.len(),
                    haystacks@.len() == 6,
                    haystacks@.map_values(|h: &str| h@) == hays,
                    forall|k: int| 0 <= k < 6 ==> (#[trigger] hays[k]).len() <= u32::MAX,
                    query@.len() <= MAX_QUERY_CHARS,
                    best == best_score(hays.take(i as int), query@),
                decreases haystacks.len() - i,
            {
                let hay = haystacks[i];
                assert(hays.take(i + 1).drop_last() =~= hays.take(i as int));
                assert(hays[i as int] == hay@);
                if hay.unicode_len() != 0 {
                    let s = fuzzy_score(hay, query, matcher);
                    best = max_score_exec(best, s);
                }
                i = i + 1;
            }
            assert(hays.take(6) =~= hays);
            match best {
                Some(score) => Some(
                    FuzzyHit { item: model_item(provider_id, provider_name, model_key, m), score },
                ),
                None => None,
            }
        },
        None => {
            let item = ListItem::Provider { id: string_of(provider_id), name: string_of(provider_name) };
            if query_len == 0 {
                return Some(FuzzyHit { item, score: 0 });
            }
            let by_name = fuzzy_score(provider_name, query, matcher);
            let by_id = fuzzy_score(provider_id, query, matcher);
            match max_score_exec(by_name, by_id) {
                Some(score) => Some(FuzzyHit { item, score }),
                None => None,
            }
        },
    }
}

/// Every model of a provider whose name matches the query matches too, with a
/// score at least that of the name.
pub proof fn lemma_model_matches_when_provider_name_does(
    provider_id: Seq<char>,
    provider_name: Seq<char>,
    model_key: Seq<char>,
    model: Model,
    query: Seq<char>,
    s: u32,
)
    requires
        query.len() > 0,
        provider_name.len() > 0,
        fuzzy_score_spec(provider_name, query) == Some(s),
    ensures
        match_item_spec(provider_id, provider_name, Some((model_key, model)), query) matches Some(h) && h.score
            >= s,
{
    let hays = model_haystacks(provider_name, model_key, model);
    assert(hays.last() == provider_name);
    let rest = best_score(hays.drop_last(), query);
    assert(best_score(hays, query) == max_score(rest, Some(s)));
}

/// `best` is a score no lower than `score`, whenever `score` is a score.
pub open spec fn no_worse(best: Option<u32>, score: Option<u32>) -> bool {
    score matches Some(s) ==> (best matches Some(b) && b >= s)
}

/// The larger of two optional scores is no worse than either.
proof fn lemma_max_score_no_worse(a: Option<u32>, b: Option<u32>, c: Option<u32>)
    ensures
        no_worse(a, c) ==> no_worse(max_score(a, b), c),
        no_worse(max_score(a, b), b),
{
}

/// The best score over some texts is no worse than the score of each nonempty
/// one of them.
proof fn lemma_best_score_no_worse(hays: Seq<Seq<char>>, query: Seq<char>, k: int)
    requires
        0 <= k < hays.len(),
        hays[k].len() > 0,
    ensures
        no_worse(best_score(hays, query), fuzzy_score_spec(hays[k], query)),
    decreases hays.len(),
{
    let rest = best_score(hays.drop_last(), query);
    let x = fuzzy_score_spec(hays[k], query);
    if k == hays.len() - 1 {
        lemma_max_score_no_worse(rest, x, x);
    } else {
        lemma_best_score_no_worse(hays.drop_last(), query, k);
        lemma_max_score_no_worse(rest, fuzzy_score_spec(hays.last(), query), x);
    }
}

/// The best score over some texts, when there is one, is the score of one of
/// the nonempty texts.
proof fn lemma_best_score_attained(hays: Seq<Seq<char>>, query: Seq<char>)
    ensures
        best_score(hays, query) matches Some(b) ==> exists|k: int|
            0 <= k < hays.len() && hays[k].len() > 0 && fuzzy_score_spec(#[trigger] hays[k], query) == Some(b),
    decreases hays.len(),
{
    if hays.len() > 0 {
        let rest = hays.drop_last();
        lemma_best_score_attained(rest, query);
        if let Some(b) = best_score(hays, query) {
            if hays.last().len() > 0 && fuzzy_score_spec(hays.last(), query) == Some(b) {
                assert(hays[hays.len() - 1] == hays.last());
            } else {
                let k = choose|k: int|
                    0 <= k < rest.len() && rest[k].len() > 0 && fuzzy_score_spec(#[trigger] rest[k], query) == Some(b);
                assert(hays[k] == rest[k]);
            }
        }
    }
}

/// The score of a match, if any.
pub open spec fn hit_score(r: Option<HitView>) -> Option<u32> {
    match r {
        Some(h) => Some(h.score),
        None => None,
    }
}

/// The score that a nonempty text gives a match: only nonempty texts count.
pub open spec fn text_score(text: Seq<char>, query: Seq<char>) -> Option<u32> {
    if text.len() == 0 {
        None
    } else {
        fuzzy_score_spec(text, query)
    }
}

/// For a nonempty query a model matches exactly when one of its texts does: the
/// provider's and the model's names joined either way, the model's name, its
/// key, its family, or the provider's name, empty texts left out. It then
/// scores no worse than any of them, and its score is that of one of them.
pub proof fn lemma_model_match_by_texts(
    provider_id: Seq<char>,
    provider_name: Seq<char>,
    model_key: Seq<char>,
    model: Model,
    query: Seq<char>,
)
    requires
        query.len() > 0,
    ensures
        no_worse(
            hit_score(match_item_spec(provider_id, provider_name, Some((model_key, model)), query)),
            text_score(provider_name + seq![' '] + model.name@, query),
        ),
        no_worse(
            hit_score(match_item_spec(provider_id, provider_name, Some((model_key, model)), query)),
            text_score(model.name@ + seq![' '] + provider_name, query),
        ),
        no_worse(
            hit_score(match_item_spec(provider_id, provider_name, Some((model_key, model)), query)),
            text_score(model.name@, query),
        ),
        no_worse(
            hit_score(match_item_spec(provider_id, provider_name, Some((model_key, model)), query)),
            text_score(model_key, query),
        ),
        no_worse(
            hit_score(match_item_spec(provider_id, provider_name, Some((model_key, model)), query)),
            text_score(text_or_empty(model.family), query),
        ),
        no_worse(
            hit_score(match_item_spec(provider_id, provider_name, Some((model_key, model)), query)),
            text_score(provider_name, query),
        ),
        match_item_spec(provider_id, provider_name, Some((model_key, model)), query) matches Some(h) ==> {
            &&& h.item == (ListItemView::Model {
                provider_id,
                provider_name,
                model_id: model_key,
                model_name: model.name@,
            })
            &&& {
                ||| text_score(provider_name + seq![' '] + model.name@, query) == Some(h.score)
                ||| text_score(model.name@ + seq![' '] + provider_name, query) == Some(h.score)
                ||| text_score(model.name@, query) == Some(h.score)
                ||| text_score(model_key, query) == Some(h.score)
                ||| text_score(text_or_empty(model.family), query) == Some(h.score)
                ||| text_score(provider_name, query) == Some(h.score)
            }
        },
{
    let hays = model_haystacks(provider_name, model_key, model);
    let texts = seq![
        provider_name + seq![' '] + model.name@,
        model.name@ + seq![' '] + provider_name,
        model.name@,
        model_key,
        text_or_empty(model.family),
        provider_name,
    ];
    assert(hays =~= texts);
    let best = best_score(hays, query);
    let r = match_item_spec(provider_id, provider_name, Some((model_key, model)), query);

    assert forall|k: int| 0 <= k < 6 implies no_worse(best, text_score(#[trigger] texts[k], query)) by {
        if texts[k].len() > 0 {
            lemma_best_score_no_worse(hays, query, k);
        }
    }
    assert(no_worse(best, text_score(texts[0], query)));
    assert(no_worse(best, text_score(texts[1], query)));
    assert(no_worse(best, text_score(texts[2], query)));
    assert(no_worse(best, text_score(texts[3], query)));
    assert(no_worse(best, text_score(texts[4], query)));
    assert(no_worse(best, text_score(texts[5], query)));
    lemma_best_score_attained(hays, query);
    if let Some(b) = best {
        let k = choose|k: int|
            0 <= k < hays.len() && hays[k].len() > 0 && fuzzy_score_spec(#[trigger] hays[k], query) == Some(b);
        assert(text_score(texts[k], query) == Some(b));
        if k == 0 {
        } else if k == 1 {
        } else if k == 2 {
        } else if k == 3 {
        } else if k == 4 {
        } else {
        }
    }
}

/// For a nonempty query a provider matches exactly when its name or its key
/// does, and then scores the better of the two.
pub proof fn lemma_provider_match_by_name_or_key(provider_id: Seq<char>, provider_name: Seq<char>, query: Seq<char>)
    requires
        query.len() > 0,
    ensures
        match_item_spec(provider_id, provider_name, None, query) is Some <==> (fuzzy_score_spec(
            provider_name,
            query,
        ) is Some || fuzzy_score_spec(provider_id, query) is Some),
        no_worse(
            hit_score(match_item_spec(provider_id, provider_name, None, query)),
            fuzzy_score_spec(provider_name, query),
        ),
        no_worse(
            hit_score(match_item_spec(provider_id, provider_name, None, query)),
            fuzzy_score_spec(provider_id, query),
        ),
        match_item_spec(provider_id, provider_name, None, query) matches Some(h) ==> {
            &&& h.item == (ListItemView::Provider { id: provider_id, name: provider_name })
            &&& (fuzzy_score_spec(provider_name, query) == Some(h.score) || fuzzy_score_spec(provider_id, query)
                == Some(h.score))
        },
{
}

/// Higher scores come first.
pub open spec fn score_first() -> spec_fn(HitView, HitView) -> bool {
    |a: HitView, b: HitView| a.score >= b.score
}

pub proof fn lemma_score_first_total_preorder()
    ensures
        total_preorder(score_first()),
{
}

/// Sorts hits by score, highest first, keeping the order of equal scores.
pub fn sort_hits(hits: Vec<FuzzyHit>) -> (out: Vec<FuzzyHit>)
    ensures
        is_stable_sort(hit_views(out@), hit_views(hits@), score_first()),
{
    let ghost inp = hit_views(hits@);
    let ghost le = score_first();
    proof {
        lemma_score_first_total_preorder();
        lemma_stable_sort_empty(le);
        assert(inp.take(0) =~= Seq::<HitView>::empty());
        assert(hit_views(Seq::<FuzzyHit>::empty()) =~= Seq::<HitView>::empty());
    }
    let mut rest = hits;
    let mut out: Vec<FuzzyHit> = Vec::new();
    let ghost mut k: int = 0;
    while rest.len() > 0
        invariant
            0 <= k <= inp.len(),
            hit_views(rest@) == inp.skip(k),
            is_stable_sort(hit_views(out@), inp.take(k), le),
            total_preorder(le),
            le == score_first(),
        decreases rest.len(),
    {
        let ghost old_rest = rest@;
        assert(hit_views(old_rest).len() == old_rest.len());
        assert(k < inp.len());
        let h = rest.remove(0);
        proof {
            assert(hit_views(old_rest)[0] == h@);
            assert(inp.skip(k)[0] == h@);
            assert(rest@ =~= old_rest.skip(1));
            assert forall|p: int| 0 <= p < rest@.len() implies #[trigger] hit_views(rest@)[p] == inp.skip(k + 1)[p] by {
                assert(rest@[p] == old_rest[p + 1]);
                assert(hit_views(old_rest)[p + 1] == inp.skip(k)[p + 1]);
            }
            assert(hit_views(rest@) =~= inp.skip(k + 1));
        }
        let mut j = out.len();
        while j > 0 && out[j - 1].score < h.score
            invariant
                j <= out.len(),
                forall|p: int| j <= p < out.len() ==> !le(#[trigger] hit_views(out@)[p], h@),
                le == score_first(),
            decreases j,
        {
            j = j - 1;
        }
        let ghost before = hit_views(out@);
        proof {
            if j > 0 {
                assert(le(before[j - 1], h@));
                assert forall|p: int| 0 <= p < j implies le(#[trigger] before[p], h@) by {
                    if p < j - 1 {
                        assert(le(before[p], before[j - 1]));
                    }
                }
            }
            lemma_insert_after_ties(before, inp.take(k), h@, j as int, le);
            assert(inp.take(k).push(inp[k]) =~= inp.take(k + 1));
        }
        out.insert(j, h);
        proof {
            assert(hit_views(out@) =~= before.insert(j as int, inp[k]));
            k = k + 1;
        }
    }
    proof {
        assert(inp.take(k) =~= inp);
    }
    out
}

/// A provider's place in the first list depends on its lower-cased name.
pub open spec fn name_key(data: Seq<(String, Provider)>) -> spec_fn(usize) -> Seq<char> {
    |i: usize| lowercase(data[i as int].1.name@)
}

/// Providers in lexicographic order of their lower-cased names.
pub open spec fn name_order(data: Seq<(String, Provider)>) -> spec_fn(usize, usize) -> bool {
    lex_le_by(name_key(data))
}

/// The indices `0..n`, in order.
pub open spec fn all_indices(n: nat) -> Seq<usize> {
    Seq::new(n, |i: int| i as usize)
}

/// The indices of the providers, sorted by lower-cased name; providers with the
/// same lower-cased name keep their order in the catalogue.
pub open spec fn provider_order(data: Seq<(String, Provider)>) -> Seq<usize> {
    stable_sorted(all_indices(data.len()), name_order(data))
}

/// Sorts the providers' indices by lower-cased name, keeping ties in order.
pub fn order_providers(data: &ApiData) -> (out: Vec<usize>)
    ensures
        is_stable_sort(out@, all_indices(data@.len()), name_order(data@)),
        forall|p: int| 0 <= p < out@.len() ==> #[trigger] out@[p] < data@.len(),
{
    let n = data.len();
    let ghost le = name_order(data@);
    let ghost inp = all_indices(n as nat);
    let mut keys: Vec<Vec<char>> = Vec::new();
    for i in 0..n
        invariant
            n == data@.len(),
            keys@.len() == i,
            forall|k: int| 0 <= k < i ==> (#[trigger] keys@[k])@ == lowercase(data@[k].1.name@),
    {
        let lower = to_lowercase(data[i].1.name.as_str());
        keys.push(chars_of(lower.as_str()));
    }
    proof {
        lemma_lex_le_by_total_preorder(name_key(data@));
        lemma_stable_sort_empty(le);
        assert(inp.take(0) =~= Seq::<usize>::empty());
    }
    let mut out: Vec<usize> = Vec::new();
    for i in 0..n
        invariant
            n == data@.len(),
            keys@.len() == n,
            forall|k: int| 0 <= k < n ==> (#[trigger] keys@[k])@ == lowercase(data@[k].1.name@),
            inp == all_indices(n as nat),
            le == name_order(data@),
            total_preorder(le),
            is_stable_sort(out@, inp.take(i as int), le),
            forall|p: int| 0 <= p < out@.len() ==> #[trigger] out@[p] < i,
    {
        let mut j = out.len();
        while j > 0 && !lex_le_exec(&keys[out[j - 1]], &keys[i])
            invariant
                j <= out.len(),
                n == data@.len(),
                i < n,
                keys@.len() == n,
                forall|k: int| 0 <= k < n ==> (#[trigger] keys@[k])@ == lowercase(data@[k].1.name@),
                forall|p: int| 0 <= p < out@.len() ==> #[trigger] out@[p] < i,
                forall|p: int| j <= p < out@.len() ==> !le(#[trigger] out@[p], i),
                le == name_order(data@),
            decreases j,
        {
            j = j - 1;
        }
        let ghost before = out@;
        proof {
            if j > 0 {
                assert(le(before[j - 1], i));
                assert forall|p: int| 0 <= p < j implies le(#[trigger] before[p], i) by {
                    if p < j - 1 {
                        assert(le(before[p], before[j - 1]));
                    }
                }
            }
            lemma_insert_after_ties(before, inp.take(i as int), i, j as int, le);
            assert(inp.take(i as int).push(i) =~= inp.take(i + 1));
        }
        out.insert(j, i);
    }
    proof {
        assert(inp.take(n as int) =~= inp);
    }
    out
}

/// The hits for the providers at `order`, in that order.
pub open spec fn provider_hits(data: Seq<(String, Provider)>, order: Seq<usize>, query: Seq<char>) -> Seq<HitView>
    decreases order.len(),
{
    if order.len() == 0 {
        Seq::empty()
    } else {
        let rest = provider_hits(data, order.drop_last(), query);
        let e = data[order.last() as int];
        match match_item_spec(e.0@, e.1.name@, None, query) {
            Some(h) => rest.push(h),
            None => rest,
        }
    }
}

/// The hits for the models of one provider, in the models' order.
pub open spec fn models_hits(
    provider_id: Seq<char>,
    provider_name: Seq<char>,
    models: Seq<(String, Model)>,
    query: Seq<char>,
) -> Seq<HitView>
    decreases models.len(),
{
    if models.len() == 0 {
        Seq::empty()
    } else {
        let rest = models_hits(provider_id, provider_name, models.drop_last(), query);
        let m = models.last();
        match match_item_spec(provider_id, provider_name, Some((m.0@, m.1)), query) {
            Some(h) => rest.push(h),
            None => rest,
        }
    }
}

/// The hits for the models of the providers at `order`, provider by provider.
pub open spec fn all_model_hits(data: Seq<(String, Provider)>, order: Seq<usize>, query: Seq<char>) -> Seq<HitView>
    decreases order.len(),
{
    if order.len() == 0 {
        Seq::empty()
    } else {
        let e = data[order.last() as int];
        all_model_hits(data, order.drop_last(), query) + models_hits(e.0@, e.1.name@, e.1.models@, query)
    }
}

/// The entries of a sequence of hits.
pub open spec fn hit_items(hits: Seq<HitView>) -> Seq<ListItemView> {
    hits.map_values(|h: HitView| h.item)
}

/// The first list for `query`: the matching providers, best first (ties in name
/// order), then, for a nonempty query, the matching models, best first (ties in
/// provider name order, then in each provider's order).
pub open spec fn level1_items(data: Seq<(String, Provider)>, query: Seq<char>) -> Seq<ListItemView> {
    let order = provider_order(data);
    let providers = stable_sorted(provider_hits(data, order, query), score_first());
    let models = if query.len() == 0 {
        Seq::empty()
    } else {
        stable_sorted(all_model_hits(data, order, query), score_first())
    };
    hit_items(providers) + hit_items(models)
}

/// The second list for `query`: the matching models of the provider with key
/// `provider_id`, best first, ties in the provider's order; empty when no provider
/// has that key.
pub open spec fn level2_items(data: Seq<(String, Provider)>, provider_id: Seq<char>, query: Seq<char>) -> Seq<ListItemView> {
    match value_for(data, provider_id) {
        Some(p) => hit_items(stable_sorted(models_hits(provider_id, p.name@, p.models@, query), score_first())),
        None => Seq::empty(),
    }
}

/// Moves the entries of `hits` onto the end of `items`, in order.
pub fn append_hit_items(items: &mut Vec<ListItem>, hits: Vec<FuzzyHit>)
    ensures
        item_views(final(items)@) == item_views(old(items)@) + hit_items(hit_views(hits@)),
{
    let ghost start = item_views(items@);
    let ghost all = hit_items(hit_views(hits@));
    let mut rest = hits;
    let ghost mut k: int = 0;
    assert(all.take(0) =~= Seq::<ListItemView>::empty());
    assert(item_views(items@) =~= start + all.take(0));
    while rest.len() > 0
        invariant
            0 <= k <= all.len(),
            all.len() == k + rest@.len(),
            forall|p: int| 0 <= p < rest@.len() ==> (#[trigger] rest@[p].item)@ == all[k + p],
            item_views(items@) == start + all.take(k),
        decreases rest.len(),
    {
        let ghost old_rest = rest@;
        let h = rest.remove(0);
        proof {
            assert(h.item@ == all[k]);
            assert forall|p: int| 0 <= p < rest@.len() implies (#[trigger] rest@[p].item)@ == all[k + 1 + p] by {
                assert(rest@[p] == old_rest[p + 1]);
            }
        }
        let ghost before = items@;
        items.push(h.item);
        proof {
            assert(items@ =~= before.push(h.item));
            assert(item_views(items@) =~= item_views(before).push(all[k]));
            assert(all.take(k + 1) =~= all.take(k).push(all[k]));
            assert(item_views(items@) =~= start + all.take(k + 1));
            k = k + 1;
        }
    }
    assert(all.take(k) =~= all);
}

/// The entry for the provider at index `i`.
pub open spec fn provider_entry_item(data: Seq<(String, Provider)>, i: usize) -> ListItemView {
    ListItemView::Provider { id: data[i as int].0@, name: data[i as int].1.name@ }
}

proof fn lemma_provider_hits_empty_query(data: Seq<(String, Provider)>, order: Seq<usize>)
    ensures
        provider_hits(data, order, Seq::empty()) == order.map_values(
            |i: usize| HitView { item: provider_entry_item(data, i), score: 0 },
        ),
    decreases order.len(),
{
    if order.len() > 0 {
        lemma_provider_hits_empty_query(data, order.drop_last());
        assert(order.map_values(|i: usize| HitView { item: provider_entry_item(data, i), score: 0 })
            =~= order.drop_last().map_values(|i: usize| HitView { item: provider_entry_item(data, i), score: 0 }).push(
            HitView { item: provider_entry_item(data, order.last()), score: 0 },
        ));
    } else {
        assert(order.map_values(|i: usize| HitView { item: provider_entry_item(data, i), score: 0 }) =~= Seq::<HitView>::empty());
    }
}

/// With an empty search the first list shows every provider, sorted by
/// lower-cased name (ties in catalogue order), and no models.
pub proof fn lemma_empty_search_lists_all_providers(data: Seq<(String, Provider)>)
    ensures
        level1_items(data, Seq::empty()) == provider_order(data).map_values(
            |i: usize| provider_entry_item(data, i),
        ),
{
    let order = provider_order(data);
    let hits = provider_hits(data, order, Seq::empty());
    lemma_provider_hits_empty_query(data, order);
    lemma_score_first_total_preorder();
    lemma_all_ties_stable_sorted(hits, score_first());
    assert(hit_items(Seq::<HitView>::empty()) =~= Seq::<ListItemView>::empty());
    assert(hit_items(hits) =~= order.map_values(|i: usize| provider_entry_item(data, i)));
}

/// Ordering providers puts their lower-cased names in lexicographic order and
/// leaves out none of them.
pub proof fn lemma_provider_order_by_lowercase_name(data: Seq<(String, Provider)>, out: Seq<usize>)
    requires
        is_stable_sort(out, all_indices(data.len()), name_order(data)),
        forall|p: int| 0 <= p < out.len() ==> #[trigger] out[p] < data.len(),
    ensures
        forall|i: int, j: int|
            #![trigger out[i], out[j]]
            0 <= i < j < out.len() ==> lex_le(
                lowercase(data[out[i] as int].1.name@),
                lowercase(data[out[j] as int].1.name@),
            ),
        forall|k: usize| k < data.len() ==> #[trigger] out.contains(k),
{
    let le = name_order(data);
    lemma_lex_le_by_total_preorder(name_key(data));
    assert forall|i: int, j: int|
        #![trigger out[i], out[j]]
        0 <= i < j < out.len() implies lex_le(
        lowercase(data[out[i] as int].1.name@),
        lowercase(data[out[j] as int].1.name@),
    ) by {
        assert(le(out[i], out[j]));
    }
    assert forall|k: usize| k < data.len() implies #[trigger] out.contains(k) by {
        let inp = all_indices(data.len());
        assert(inp[k as int] == k);
        lemma_stable_sort_same_elements(out, inp, le, k);
    }
}

/// With an empty search the first list shows every provider, by key and name,
/// and nothing else, with the lower-cased names in lexicographic order.
pub proof fn lemma_empty_search_lists_providers_by_lowercase_name(data: Seq<(String, Provider)>)
    ensures
        forall|i: int| 0 <= i < level1_items(data, Seq::empty()).len() ==> #[trigger] level1_items(data, Seq::empty())[i] is Provider,
        forall|i: int, j: int|
            0 <= i < j < level1_items(data, Seq::empty()).len() ==> lex_le(
                lowercase(level1_items(data, Seq::empty())[i]->Provider_name),
                lowercase(level1_items(data, Seq::empty())[j]->Provider_name),
            ),
        forall|k: usize|
            k < data.len() ==> level1_items(data, Seq::empty()).contains(
                ListItemView::Provider { id: (#[trigger] data[k as int]).0@, name: data[k as int].1.name@ },
            ),
{
    let order = provider_order(data);
    let items = level1_items(data, Seq::empty());
    let le = name_order(data);
    lemma_empty_search_lists_all_providers(data);
    lemma_lex_le_by_total_preorder(name_key(data));
    lemma_stable_sorted_is_stable_sort(all_indices(data.len()), le);
    let inp = all_indices(data.len());
    assert forall|p: int| 0 <= p < order.len() implies #[trigger] order[p] < data.len() by {
        lemma_stable_sort_same_elements(order, inp, le, order[p]);
        assert(order.contains(order[p]));
    }
    lemma_provider_order_by_lowercase_name(data, order);
    assert forall|i: int, j: int| 0 <= i < j < items.len() implies lex_le(
        lowercase(items[i]->Provider_name),
        lowercase(items[j]->Provider_name),
    ) by {
        assert(items[i] == provider_entry_item(data, order[i]));
        assert(items[j] == provider_entry_item(data, order[j]));
        assert(order[i] < data.len() && order[j] < data.len());
    }
    assert forall|k: usize| k < data.len() implies items.contains(
        ListItemView::Provider { id: (#[trigger] data[k as int]).0@, name: data[k as int].1.name@ },
    ) by {
        assert(order.contains(k));
        let p = choose|p: int| 0 <= p < order.len() && order[p] == k;
        assert(items[p] == provider_entry_item(data, order[p]));
    }
}

/// The entry for a model of the provider with key `provider_id`.
pub open spec fn model_entry_item(provider_id: Seq<char>, provider_name: Seq<char>, m: (String, Model)) -> ListItemView {
    ListItemView::Model { provider_id, provider_name, model_id: m.0@, model_name: m.1.name@ }
}

proof fn lemma_models_hits_empty_query(provider_id: Seq<char>, provider_name: Seq<char>, models: Seq<(String, Model)>)
    ensures
        models_hits(provider_id, provider_name, models, Seq::empty()) == models.map_values(
            |m: (String, Model)| HitView { item: model_entry_item(provider_id, provider_name, m), score: 0 },
        ),
    decreases models.len(),
{
    let f = |m: (String, Model)| HitView { item: model_entry_item(provider_id, provider_name, m), score: 0 };
    if models.len() > 0 {
        lemma_models_hits_empty_query(provider_id, provider_name, models.drop_last());
        assert(models.map_values(f) =~= models.drop_last().map_values(f).push(f(models.last())));
    } else {
        assert(models.map_values(f) =~= Seq::<HitView>::empty());
    }
}

/// With an empty search a provider's list shows all its models, in the
/// catalogue's order.
pub proof fn lemma_empty_search_lists_all_models(data: Seq<(String, Provider)>, provider_id: Seq<char>)
    requires
        value_for(data, provider_id) is Some,
    ensures
        ({
            let p = value_for(data, provider_id)->0;
            level2_items(data, provider_id, Seq::empty()) == p.models@.map_values(
                |m: (String, Model)| model_entry_item(provider_id, p.name@, m),
            )
        }),
{
    let p = value_for(data, provider_id)->0;
    let hits = models_hits(provider_id, p.name@, p.models@, Seq::empty());
    lemma_models_hits_empty_query(provider_id, p.name@, p.models@);
    lemma_score_first_total_preorder();
    lemma_all_ties_stable_sorted(hits, score_first());
    assert(hit_items(hits) =~= p.models@.map_values(|m: (String, Model)| model_entry_item(provider_id, p.name@, m)));
}

proof fn lemma_provider_hits_are_providers(data: Seq<(String, Provider)>, order: Seq<usize>, query: Seq<char>, k: int)
    requires
        0 <= k < provider_hits(data, order, query).len(),
    ensures
        provider_hits(data, order, query)[k].item is Provider,
    decreases order.len(),
{
    if order.len() > 0 {
        let rest = provider_hits(data, order.drop_last(), query);
        if k < rest.len() {
            lemma_provider_hits_are_providers(data, order.drop_last(), query, k);
        }
    }
}

proof fn lemma_models_hits_are_models(
    provider_id: Seq<char>,
    provider_name: Seq<char>,
    models: Seq<(String, Model)>,
    query: Seq<char>,
    k: int,
)
    requires
        0 <= k < models_hits(provider_id, provider_name, models, query).len(),
    ensures
        models_hits(provider_id, provider_name, models, query)[k].item is Model,
    decreases models.len(),
{
    if models.len() > 0 {
        let rest = models_hits(provider_id, provider_name, models.drop_last(), query);
        if k < rest.len() {
            lemma_models_hits_are_models(provider_id, provider_name, models.drop_last(), query, k);
        }
    }
}

proof fn lemma_all_model_hits_are_models(data: Seq<(String, Provider)>, order: Seq<usize>, query: Seq<char>, k: int)
    requires
        0 <= k < all_model_hits(data, order, query).len(),
    ensures
        all_model_hits(data, order, query)[k].item is Model,
    decreases order.len(),
{
    if order.len() > 0 {
        let rest = all_model_hits(data, order.drop_last(), query);
        let e = data[order.last() as int];
        if k < rest.len() {
            lemma_all_model_hits_are_models(data, order.drop_last(), query, k);
        } else {
            lemma_models_hits_are_models(e.0@, e.1.name@, e.1.models@, query, k - rest.len());
        }
    }
}

/// In the first list every provider comes before every model.
pub proof fn lemma_providers_before_models(data: Seq<(String, Provider)>, query: Seq<char>, i: int, j: int)
    requires
        0 <= i < j < level1_items(data, query).len(),
        level1_items(data, query)[j] is Provider,
    ensures
        level1_items(data, query)[i] is Provider,
{
    let order = provider_order(data);
    let ph = provider_hits(data, order, query);
    let sp = stable_sorted(ph, score_first());
    let mh = all_model_hits(data, order, query);
    let sm = if query.len() == 0 { Seq::<HitView>::empty() } else { stable_sorted(mh, score_first()) };
    lemma_score_first_total_preorder();
    lemma_stable_sorted_is_stable_sort(ph, score_first());
    lemma_stable_sorted_is_stable_sort(mh, score_first());
    let items = level1_items(data, query);
    assert(items == hit_items(sp) + hit_items(sm));
    if j >= sp.len() {
        let x = sm[j - sp.len()];
        assert(sm.contains(x));
        lemma_stable_sort_same_elements(sm, mh, score_first(), x);
        let k = choose|k: int| 0 <= k < mh.len() && mh[k] == x;
        lemma_all_model_hits_are_models(data, order, query, k);
        assert(items[j] == x.item);
    }
    assert(i < sp.len());
    let y = sp[i];
    assert(sp.contains(y));
    lemma_stable_sort_same_elements(sp, ph, score_first(), y);
    let k = choose|k: int| 0 <= k < ph.len() && ph[k] == y;
    lemma_provider_hits_are_providers(data, order, query, k);
    assert(items[i] == y.item);
}

/// The hit for the provider at index `i`, if it matches.
pub open spec fn provider_match(data: Seq<(String, Provider)>, i: usize, query: Seq<char>) -> Option<HitView> {
    match_item_spec(data[i as int].0@, data[i as int].1.name@, None, query)
}

proof fn lemma_provider_hits_contains(data: Seq<(String, Provider)>, order: Seq<usize>, query: Seq<char>, h: HitView)
    ensures
        provider_hits(data, order, query).contains(h) <==> exists|j: int|
            0 <= j < order.len() && provider_match(data, #[trigger] order[j], query) == Some(h),
    decreases order.len(),
{
    if order.len() == 0 {
        assert(provider_hits(data, order, query) =~= Seq::<HitView>::empty());
    } else {
        let front = order.drop_last();
        let rest = provider_hits(data, front, query);
        lemma_provider_hits_contains(data, front, query, h);
        let last = provider_match(data, order.last(), query);
        if provider_hits(data, order, query).contains(h) {
            if rest.contains(h) {
                let j = choose|j: int| 0 <= j < front.len() && provider_match(data, #[trigger] front[j], query) == Some(h);
                assert(order[j] == front[j]);
            } else {
                assert(last == Some(h)) by {
                    if last is Some {
                        let k = choose|k: int| 0 <= k < rest.push(last->0).len() && rest.push(last->0)[k] == h;
                        if k < rest.len() {
                            assert(rest[k] == h);
                        }
                    }
                }
                assert(order[order.len() - 1] == order.last());
            }
        }
        if exists|j: int| 0 <= j < order.len() && provider_match(data, #[trigger] order[j], query) == Some(h) {
            let j = choose|j: int| 0 <= j < order.len() && provider_match(data, #[trigger] order[j], query) == Some(h);
            if j < front.len() {
                assert(front[j] == order[j]);
                assert(rest.contains(h));
                let k = choose|k: int| 0 <= k < rest.len() && rest[k] == h;
                if last is Some {
                    assert(rest.push(last->0)[k] == h);
                }
            } else {
                assert(rest.push(h)[rest.len() as int] == h);
            }
        }
    }
}

/// A search's first list shows a provider exactly when the provider matches it.
pub proof fn lemma_listed_provider_iff_matches(data: Seq<(String, Provider)>, query: Seq<char>, i: usize)
    requires
        crate::data::keys_distinct(data),
        i < data.len(),
    ensures
        level1_items(data, query).contains(provider_entry_item(data, i)) <==> provider_match(data, i, query) is Some,
{
    let n = data.len();
    let order = provider_order(data);
    let ph = provider_hits(data, order, query);
    let sp = stable_sorted(ph, score_first());
    let mh = all_model_hits(data, order, query);
    let sm = if query.len() == 0 { Seq::<HitView>::empty() } else { stable_sorted(mh, score_first()) };
    let item = provider_entry_item(data, i);
    lemma_score_first_total_preorder();
    lemma_stable_sorted_is_stable_sort(ph, score_first());
    lemma_stable_sorted_is_stable_sort(mh, score_first());
    crate::text::lemma_lex_le_by_total_preorder(name_key(data));
    lemma_stable_sorted_is_stable_sort(all_indices(n), name_order(data));
    let items = level1_items(data, query);
    assert(items == hit_items(sp) + hit_items(sm));
    if items.contains(item) {
        let k = choose|k: int| 0 <= k < items.len() && items[k] == item;
        if k >= sp.len() {
            let x = sm[k - sp.len()];
            lemma_stable_sort_same_elements(sm, mh, score_first(), x);
            let t = choose|t: int| 0 <= t < mh.len() && mh[t] == x;
            lemma_all_model_hits_are_models(data, order, query, t);
            assert(items[k] == x.item);
        }
        let y = sp[k];
        assert(items[k] == y.item);
        lemma_stable_sort_same_elements(sp, ph, score_first(), y);
        lemma_provider_hits_contains(data, order, query, y);
        let j = choose|j: int| 0 <= j < order.len() && provider_match(data, #[trigger] order[j], query) == Some(y);
        let oj = order[j];
        assert(all_indices(n).contains(oj)) by {
            lemma_stable_sort_same_elements(order, all_indices(n), name_order(data), oj);
        }
        assert(oj < n);
        assert(data[oj as int].0@ == data[i as int].0@);
        if oj != i {
            if oj < i {
                assert(data[oj as int].0@ != data[i as int].0@);
            } else {
                assert(data[i as int].0@ != data[oj as int].0@);
            }
        }
    }
    if provider_match(data, i, query) is Some {
        let h = provider_match(data, i, query)->0;
        assert(all_indices(n)[i as int] == i);
        lemma_stable_sort_same_elements(order, all_indices(n), name_order(data), i);
        let j = choose|j: int| 0 <= j < order.len() && order[j] == i;
        assert(provider_match(data, order[j], query) == Some(h));
        lemma_provider_hits_contains(data, order, query, h);
        lemma_stable_sort_same_elements(sp, ph, score_first(), h);
        let k = choose|k: int| 0 <= k < sp.len() && sp[k] == h;
        assert(hit_items(sp)[k] == item);
        assert(items[k] == item);
    }
}

/// The hit for model `k` of the provider at index `i`, if it matches.
pub open spec fn model_match(data: Seq<(String, Provider)>, i: usize, k: int, query: Seq<char>) -> Option<HitView> {
    let e = data[i as int];
    let m = e.1.models@[k];
    match_item_spec(e.0@, e.1.name@, Some((m.0@, m.1)), query)
}

/// The entry for model `k` of the provider at index `i`.
pub open spec fn model_item_at(data: Seq<(String, Provider)>, i: usize, k: int) -> ListItemView {
    model_entry_item(data[i as int].0@, data[i as int].1.name@, data[i as int].1.models@[k])
}

proof fn lemma_models_hits_contains(
    provider_id: Seq<char>,
    provider_name: Seq<char>,
    models: Seq<(String, Model)>,
    query: Seq<char>,
    h: HitView,
)
    ensures
        models_hits(provider_id, provider_name, models, query).contains(h) <==> exists|t: int|
            0 <= t < models.len() && match_item_spec(provider_id, provider_name, Some(((#[trigger] models[t]).0@, models[t].1)), query)
                == Some(h),
    decreases models.len(),
{
    if models.len() == 0 {
        assert(models_hits(provider_id, provider_name, models, query) =~= Seq::<HitView>::empty());
    } else {
        let front = models.drop_last();
        let rest = models_hits(provider_id, provider_name, front, query);
        lemma_models_hits_contains(provider_id, provider_name, front, query, h);
        let lm = models.last();
        let last = match_item_spec(provider_id, provider_name, Some((lm.0@, lm.1)), query);
        if models_hits(provider_id, provider_name, models, query).contains(h) {
            if rest.contains(h) {
                let t = choose|t: int|
                    0 <= t < front.len() && match_item_spec(provider_id, provider_name, Some(((#[trigger] front[t]).0@, front[t].1)), query) == Some(h);
                assert(models[t] == front[t]);
            } else {
                assert(last == Some(h)) by {
                    if last is Some {
                        let k = choose|k: int| 0 <= k < rest.push(last->0).len() && rest.push(last->0)[k] == h;
                        if k < rest.len() {
                            assert(rest[k] == h);
                        }
                    }
                }
                assert(models[models.len() - 1] == lm);
            }
        }
        if exists|t: int|
            0 <= t < models.len() && match_item_spec(provider_id, provider_name, Some(((#[trigger] models[t]).0@, models[t].1)), query)
                == Some(h) {
            let t = choose|t: int|
                0 <= t < models.len() && match_item_spec(provider_id, provider_name, Some(((#[trigger] models[t]).0@, models[t].1)), query)
                    == Some(h);
            if t < front.len() {
                assert(front[t] == models[t]);
                assert(rest.contains(h));
                let k = choose|k: int| 0 <= k < rest.len() && rest[k] == h;
                if last is Some {
                    assert(rest.push(last->0)[k] == h);
                }
            } else {
                assert(models[t] == lm);
                assert(rest.push(h)[rest.len() as int] == h);
            }
        }
    }
}

proof fn lemma_all_model_hits_contains(data: Seq<(String, Provider)>, order: Seq<usize>, query: Seq<char>, h: HitView)
    ensures
        all_model_hits(data, order, query).contains(h) <==> exists|j: int, t: int|
            0 <= j < order.len() && 0 <= t < data[order[j] as int].1.models@.len()
                && #[trigger] model_match(data, order[j], t, query) == Some(h),
    decreases order.len(),
{
    if order.len() == 0 {
        assert(all_model_hits(data, order, query) =~= Seq::<HitView>::empty());
    } else {
        let front = order.drop_last();
        let rest = all_model_hits(data, front, query);
        let e = data[order.last() as int];
        let tail = models_hits(e.0@, e.1.name@, e.1.models@, query);
        lemma_all_model_hits_contains(data, front, query, h);
        lemma_models_hits_contains(e.0@, e.1.name@, e.1.models@, query, h);
        let all = all_model_hits(data, order, query);
        assert(all == rest + tail);
        if all.contains(h) {
            let k = choose|k: int| 0 <= k < all.len() && all[k] == h;
            if k < rest.len() {
                assert(rest[k] == h);
                let (j, t) = choose|j: int, t: int|
                    0 <= j < front.len() && 0 <= t < data[front[j] as int].1.models@.len()
                        && #[trigger] model_match(data, front[j], t, query) == Some(h);
                assert(order[j] == front[j]);
                assert(model_match(data, order[j], t, query) == Some(h));
            } else {
                assert(tail[k - rest.len()] == h);
                assert(tail.contains(h));
                let t = choose|t: int|
                    0 <= t < e.1.models@.len() && match_item_spec(e.0@, e.1.name@, Some(((#[trigger] e.1.models@[t]).0@, e.1.models@[t].1)), query)
                        == Some(h);
                let j = order.len() - 1;
                assert(order[j] == order.last());
                assert(model_match(data, order[j], t, query) == Some(h));
            }
        }
        if exists|j: int, t: int|
            0 <= j < order.len() && 0 <= t < data[order[j] as int].1.models@.len()
                && #[trigger] model_match(data, order[j], t, query) == Some(h) {
            let (j, t) = choose|j: int, t: int|
                0 <= j < order.len() && 0 <= t < data[order[j] as int].1.models@.len()
                    && #[trigger] model_match(data, order[j], t, query) == Some(h);
            if j < front.len() {
                assert(front[j] == order[j]);
                assert(model_match(data, front[j], t, query) == Some(h));
                assert(rest.contains(h));
                let k = choose|k: int| 0 <= k < rest.len() && rest[k] == h;
                assert(all[k] == h);
            } else {
                assert(order[j] == order.last());
                assert(tail.contains(h));
                let k = choose|k: int| 0 <= k < tail.len() && tail[k] == h;
                assert(all[rest.len() + k] == h);
            }
        }
    }
}

/// With a nonempty search, the first list shows a model exactly when it matches;
/// with an empty search it shows no models.
pub proof fn lemma_listed_model_iff_matches(data: Seq<(String, Provider)>, query: Seq<char>, i: usize, k: int)
    requires
        crate::data::api_data_wf(data),
        i < data.len(),
        0 <= k < data[i as int].1.models@.len(),
    ensures
        level1_items(data, query).contains(model_item_at(data, i, k)) <==> (query.len() > 0
            && model_match(data, i, k, query) is Some),
{
    let n = data.len();
    let order = provider_order(data);
    let ph = provider_hits(data, order, query);
    let sp = stable_sorted(ph, score_first());
    let mh = all_model_hits(data, order, query);
    let sm = if query.len() == 0 { Seq::<HitView>::empty() } else { stable_sorted(mh, score_first()) };
    let item = model_item_at(data, i, k);
    lemma_score_first_total_preorder();
    lemma_stable_sorted_is_stable_sort(ph, score_first());
    lemma_stable_sorted_is_stable_sort(mh, score_first());
    crate::text::lemma_lex_le_by_total_preorder(name_key(data));
    lemma_stable_sorted_is_stable_sort(all_indices(n), name_order(data));
    let items = level1_items(data, query);
    assert(items == hit_items(sp) + hit_items(sm));
    if items.contains(item) {
        let p = choose|p: int| 0 <= p < items.len() && items[p] == item;
        if p < sp.len() {
            let y = sp[p];
            lemma_stable_sort_same_elements(sp, ph, score_first(), y);
            let t = choose|t: int| 0 <= t < ph.len() && ph[t] == y;
            lemma_provider_hits_are_providers(data, order, query, t);
            assert(items[p] == y.item);
        }
        assert(query.len() > 0);
        let x = sm[p - sp.len()];
        assert(items[p] == x.item);
        lemma_stable_sort_same_elements(sm, mh, score_first(), x);
        lemma_all_model_hits_contains(data, order, query, x);
        let (j, t) = choose|j: int, t: int|
            0 <= j < order.len() && 0 <= t < data[order[j] as int].1.models@.len()
                && #[trigger] model_match(data, order[j], t, query) == Some(x);
        let oj = order[j];
        assert(all_indices(n).contains(oj)) by {
            lemma_stable_sort_same_elements(order, all_indices(n), name_order(data), oj);
        }
        assert(data[oj as int].0@ == data[i as int].0@);
        if oj != i {
            if oj < i {
                assert(data[oj as int].0@ != data[i as int].0@);
            } else {
                assert(data[i as int].0@ != data[oj as int].0@);
            }
        }
        let ms = data[i as int].1.models@;
        assert(ms[t].0@ == ms[k].0@);
        assert(crate::data::keys_distinct(ms));
        if t != k {
            if t < k {
                assert(ms[t].0@ != ms[k].0@);
            } else {
                assert(ms[k].0@ != ms[t].0@);
            }
        }
    }
    if query.len() > 0 && model_match(data, i, k, query) is Some {
        let h = model_match(data, i, k, query)->0;
        assert(all_indices(n)[i as int] == i);
        lemma_stable_sort_same_elements(order, all_indices(n), name_order(data), i);
        let j = choose|j: int| 0 <= j < order.len() && order[j] == i;
        assert(model_match(data, order[j], k, query) == Some(h));
        lemma_all_model_hits_contains(data, order, query, h);
        lemma_stable_sort_same_elements(sm, mh, score_first(), h);
        let p = choose|p: int| 0 <= p < sm.len() && sm[p] == h;
        assert(hit_items(sm)[p] == item);
        assert(items[sp.len() + p] == item);
    }
}

/// A search in a provider's list shows a model of that provider exactly when it
/// matches.
pub proof fn lemma_listed_provider_model_iff_matches(data: Seq<(String, Provider)>, query: Seq<char>, i: usize, k: int)
    requires
        crate::data::api_data_wf(data),
        i < data.len(),
        0 <= k < data[i as int].1.models@.len(),
    ensures
        level2_items(data, data[i as int].0@, query).contains(model_item_at(data, i, k)) <==> model_match(data, i, k, query) is Some,
{
    let key = data[i as int].0@;
    assert(crate::data::has_key(data, key));
    let c = choose|c: int| 0 <= c < data.len() && data[c].0@ == key;
    if c != i {
        if c < i {
            assert(data[c].0@ != data[i as int].0@);
        } else {
            assert(data[i as int].0@ != data[c].0@);
        }
    }
    let p = data[i as int].1;
    assert(crate::data::value_for(data, key) == Some(p));
    let mh = models_hits(key, p.name@, p.models@, query);
    let sm = stable_sorted(mh, score_first());
    lemma_score_first_total_preorder();
    lemma_stable_sorted_is_stable_sort(mh, score_first());
    let item = model_item_at(data, i, k);
    let items = level2_items(data, key, query);
    assert(items == hit_items(sm));
    if items.contains(item) {
        let q = choose|q: int| 0 <= q < items.len() && items[q] == item;
        let x = sm[q];
        assert(x.item == item);
        lemma_stable_sort_same_elements(sm, mh, score_first(), x);
        lemma_models_hits_contains(key, p.name@, p.models@, query, x);
        let t = choose|t: int|
            0 <= t < p.models@.len() && match_item_spec(key, p.name@, Some(((#[trigger] p.models@[t]).0@, p.models@[t].1)), query) == Some(x);
        let ms = p.models@;
        assert(ms[t].0@ == ms[k].0@);
        if t != k {
            if t < k {
                assert(ms[t].0@ != ms[k].0@);
            } else {
                assert(ms[k].0@ != ms[t].0@);
            }
        }
    }
    if model_match(data, i, k, query) is Some {
        let h = model_match(data, i, k, query)->0;
        lemma_models_hits_contains(key, p.name@, p.models@, query, h);
        assert(mh.contains(h));
        lemma_stable_sort_same_elements(sm, mh, score_first(), h);
        let q = choose|q: int| 0 <= q < sm.len() && sm[q] == h;
        assert(items[q] == item);
    }
}

} // verus!
