//! Discovery of BTC 15-minute Up/Down markets among Gamma API events.
//! An event's slug follows `btc-updown-15m-{unix_timestamp}`; it holds two markets,
//! "Up" and "Down", and exactly one of them resolves to $1.00.

use vstd::prelude::*;
use crate::order::{is_stable_sort_by, stable_rank, lemma_rank_push, lemma_count_mono,
    lemma_count_strict, lemma_rank_bound, lemma_rank_as_one_count, lemma_stable_sort_sorted,
    count_where};
use crate::text::{has_substring, has_word, text_contains, text_contains_word, to_lowercase,
    unicode_lowercase};
use crate::time::{Timestamp, ts_le, ts_lt, instant_of, parse_datetime, clock_now, NANOS_PER_SEC};

verus! {

/// What a Gamma market's `clobTokenIds` field holds.
pub enum TokenIdsField {
    /// A JSON array; each element is the text of a JSON string, or `None` for any other value.
    List(Vec<Option<String>>),
    /// A JSON string (the API sends a JSON-encoded array of strings).
    Text(String),
    /// Any other JSON value (number, boolean, object).
    Other,
}

/// One market of a Gamma event.
pub struct GammaMarket {
    pub question: Option<String>,
    pub slug: Option<String>,
    pub clob_token_ids: Option<TokenIdsField>,
}

/// One event from the Gamma API `/events` endpoint.
pub struct GammaEvent {
    pub id: String,
    pub slug: Option<String>,
    pub title: Option<String>,
    /// The `endDate` field, an RFC 3339 text.
    pub end_date: Option<String>,
    pub markets: Option<Vec<GammaMarket>>,
}

/// An active BTC 15-minute market with the CLOB token ids of its Up and Down legs.
#[derive(Debug)]
pub struct BtcMarket {
    pub event_id: String,
    pub slug: String,
    pub title: String,
    pub end_time: Timestamp,
    pub up_token_id: String,
    pub down_token_id: String,
}

/// A `BtcMarket` with its texts taken as character sequences.
pub struct BtcMarketView {
    pub event_id: Seq<char>,
    pub slug: Seq<char>,
    pub title: Seq<char>,
    pub end_time: Timestamp,
    pub up_token_id: Seq<char>,
    pub down_token_id: Seq<char>,
}

impl View for BtcMarket {
    type V = BtcMarketView;

    open spec fn view(&self) -> BtcMarketView {
        BtcMarketView {
            event_id: self.event_id@,
            slug: self.slug@,
            title: self.title@,
            end_time: self.end_time,
            up_token_id: self.up_token_id@,
            down_token_id: self.down_token_id@,
        }
    }
}

impl Clone for BtcMarket {
    fn clone(&self) -> (r: Self)
        ensures
            r@ == self@,
    {
        BtcMarket {
            event_id: self.event_id.clone(),
            slug: self.slug.clone(),
            title: self.title.clone(),
            end_time: self.end_time,
            up_token_id: self.up_token_id.clone(),
            down_token_id: self.down_token_id.clone(),
        }
    }
}

/// The views of a sequence of markets.
pub open spec fn market_views(ms: Seq<BtcMarket>) -> Seq<BtcMarketView> {
    ms.map_values(|m: BtcMarket| m@)
}

/// The characters of an optional text, empty when it is absent.
pub open spec fn text_or_empty(o: Option<String>) -> Seq<char> {
    match o {
        Some(s) => s@,
        None => Seq::empty(),
    }
}

/// The characters of an optional text.
pub open spec fn opt_view(o: Option<String>) -> Option<Seq<char>> {
    match o {
        Some(s) => Some(s@),
        None => None,
    }
}

/// The list of strings that `serde_json` decodes from a JSON text into a `Vec<String>`,
/// or `None` where it rejects the text.
pub uninterp spec fn json_string_array(text: Seq<char>) -> Option<Seq<Seq<char>>>;

/// Calls `serde_json::from_str::<Vec<String>>`; claims that the result is the named
/// function `json_string_array` of the text, and `None` exactly where that is `None`.
#[verifier::external_body]
fn parse_string_array(text: &str) -> (r: Option<Vec<String>>)
    ensures
        match json_string_array(text@) {
            Some(items) => r is Some && r->0@.map_values(|s: String| s@) == items,
            None => r is None,
        },
{
    serde_json::from_str::<Vec<String>>(text).ok()
}

/// The character sequences of a decoded list of strings.
pub open spec fn parsed_view(parsed: Option<Vec<String>>) -> Option<Seq<Seq<char>>> {
    match parsed {
        Some(v) => Some(v@.map_values(|s: String| s@)),
        None => None,
    }
}

/// The first element of a decoded list of strings.
pub open spec fn first_listed_spec(parsed: Option<Seq<Seq<char>>>) -> Option<Seq<char>> {
    match parsed {
        Some(items) => if items.len() > 0 {
            Some(items[0])
        } else {
            None
        },
        None => None,
    }
}

/// The token id that a `clobTokenIds` field names: the first element of the array when it
/// is a string, or the first string of the array that a string field encodes as JSON.
pub open spec fn token_id_of(field: Option<TokenIdsField>) -> Option<Seq<char>> {
    match field {
        Some(TokenIdsField::List(items)) => if items@.len() > 0 {
            opt_view(items@[0])
        } else {
            None
        },
        Some(TokenIdsField::Text(t)) => first_listed_spec(json_string_array(t@)),
        _ => None,
    }
}

/// The first element of a list that `serde_json` decoded, if any.
pub fn first_listed(parsed: Option<Vec<String>>) -> (r: Option<String>)
    ensures
        opt_view(r) == first_listed_spec(parsed_view(parsed)),
{
    match parsed {
        Some(mut items) => {
            if items.len() > 0 {
                Some(items.remove(0))
            } else {
                None
            }
        },
        None => None,
    }
}

/// The token id in a `clobTokenIds` field.
fn parse_token_id(field: &Option<TokenIdsField>) -> (r: Option<String>)
    ensures
        opt_view(r) == token_id_of(*field),
{
    match field {
        Some(TokenIdsField::List(items)) => {
            if items.len() > 0 {
                match &items[0] {
                    Some(s) => Some(s.clone()),
                    None => None,
                }
            } else {
                None
            }
        },
        Some(TokenIdsField::Text(t)) => {
            let parsed = parse_string_array(t.as_str());
            assert(parsed_view(parsed) == json_string_array(t@));
            first_listed(parsed)
        },
        _ => None,
    }
}

/// Which leg of an event a market was recognised as, from its question and slug.
#[derive(Clone, Copy, Debug, PartialEq, Eq, Structural)]
pub enum Side {
    Up,
    Down,
    Neither,
}

/// The leg that lower-cased question and slug texts name: the whole word "up" in either
/// wins over the whole word "down" in either ("updown" names neither).
pub open spec fn side_of(question_lower: Seq<char>, slug_lower: Seq<char>) -> Side {
    if has_word(question_lower, "up"@) || has_word(slug_lower, "up"@) {
        Side::Up
    } else if has_word(question_lower, "down"@) || has_word(slug_lower, "down"@) {
        Side::Down
    } else {
        Side::Neither
    }
}

/// The leg that a market's question and slug name, compared case-insensitively.
pub open spec fn market_side_spec(m: GammaMarket) -> Side {
    side_of(
        unicode_lowercase(text_or_empty(m.question)),
        unicode_lowercase(text_or_empty(m.slug)),
    )
}

/// The leg named by a market's lower-cased question and slug.
pub fn market_side(question_lower: &str, slug_lower: &str) -> (r: Side)
    ensures
        r == side_of(question_lower@, slug_lower@),
{
    if text_contains_word(question_lower, "up") || text_contains_word(slug_lower, "up") {
        Side::Up
    } else if text_contains_word(question_lower, "down") || text_contains_word(slug_lower, "down") {
        Side::Down
    } else {
        Side::Neither
    }
}

/// Up and Down token ids recognised by keyword, market by market: a later market of a
/// leg replaces what an earlier one gave, its token id being absent included.
pub open spec fn detected_tokens(ms: Seq<GammaMarket>) -> (Option<Seq<char>>, Option<Seq<char>>)
    decreases ms.len(),
{
    if ms.len() == 0 {
        (None, None)
    } else {
        let prev = detected_tokens(ms.drop_last());
        let m = ms.last();
        match market_side_spec(m) {
            Side::Up => (token_id_of(m.clob_token_ids), prev.1),
            Side::Down => (prev.0, token_id_of(m.clob_token_ids)),
            Side::Neither => prev,
        }
    }
}

/// The token ids of the markets that have one, in market order.
pub open spec fn listed_tokens(ms: Seq<GammaMarket>) -> Seq<Seq<char>>
    decreases ms.len(),
{
    if ms.len() == 0 {
        Seq::empty()
    } else {
        match token_id_of(ms.last().clob_token_ids) {
            Some(t) => listed_tokens(ms.drop_last()).push(t),
            None => listed_tokens(ms.drop_last()),
        }
    }
}

/// The first listed token id that differs from `taken`.
pub open spec fn first_other(listed: Seq<Seq<char>>, taken: Option<Seq<char>>) -> Option<Seq<char>>
    decreases listed.len(),
{
    if listed.len() == 0 {
        None
    } else if taken == Some(listed[0]) {
        first_other(listed.drop_first(), taken)
    } else {
        Some(listed[0])
    }
}

/// Up and Down token ids of an event's markets: by keyword, and where a leg stays
/// unrecognised, by position: Up takes the first listed token id that Down does not hold,
/// then Down takes the first listed token id that Up does not hold.
pub open spec fn extracted_tokens(ms: Seq<GammaMarket>) -> (Option<Seq<char>>, Option<Seq<char>>) {
    let (up, down) = detected_tokens(ms);
    if up is Some && down is Some {
        (up, down)
    } else {
        let listed = listed_tokens(ms);
        let up2 = if up is None {
            first_other(listed, down)
        } else {
            up
        };
        let down2 = if down is None {
            first_other(listed, up2)
        } else {
            down
        };
        (up2, down2)
    }
}

/// The first element of `listed` whose text differs from `taken`, if any.
fn first_other_exec(listed: &Vec<String>, taken: &Option<String>) -> (r: Option<String>)
    ensures
        opt_view(r) == first_other(listed@.map_values(|s: String| s@), opt_view(*taken)),
{
    let ghost all = listed@.map_values(|s: String| s@);
    assert(all.skip(0) =~= all);
    let mut i: usize = 0;
    while i < listed.len()
        invariant
            all == listed@.map_values(|s: String| s@),
            i <= listed@.len(),
            first_other(all, opt_view(*taken)) == first_other(all.skip(i as int), opt_view(*taken)),
        decreases listed@.len() - i,
    {
        let same = match taken {
            Some(t) => listed[i] == *t,
            None => false,
        };
        assert(all.skip(i as int)[0] == listed@[i as int]@);
        assert(all.skip(i as int).drop_first() =~= all.skip(i + 1));
        if !same {
            return Some(listed[i].clone());
        }
        i += 1;
    }
    None
}

fn lowercase_or_empty(text: &Option<String>) -> (r: String)
    ensures
        r@ == unicode_lowercase(text_or_empty(*text)),
{
    match text {
        Some(t) => to_lowercase(t.as_str()),
        None => {
            let empty = String::new();
            to_lowercase(empty.as_str())
        },
    }
}

/// Detects the Up and Down token ids of an event's markets by the words "up" and "down"
/// in their question or slug, and falls back to position where that fails.
pub fn extract_tokens(markets: &Vec<GammaMarket>) -> (r: (Option<String>, Option<String>))
    ensures
        (opt_view(r.0), opt_view(r.1)) == extracted_tokens(markets@),
{
    let mut up: Option<String> = None;
    let mut down: Option<String> = None;
    let mut i: usize = 0;
    while i < markets.len()
        invariant
            i <= markets@.len(),
            (opt_view(up), opt_view(down)) == detected_tokens(markets@.take(i as int)),
        decreases markets@.len() - i,
    {
        let m = &markets[i];
        let q = lowercase_or_empty(&m.question);
        let s = lowercase_or_empty(&m.slug);
        let token = parse_token_id(&m.clob_token_ids);
        let side = market_side(q.as_str(), s.as_str());
        assert(markets@.take(i + 1).drop_last() =~= markets@.take(i as int));
        assert(markets@.take(i + 1).last() == *m);
        match side {
            Side::Up => {
                up = token;
            },
            Side::Down => {
                down = token;
            },
            Side::Neither => {},
        }
        i += 1;
    }
    assert(markets@.take(markets@.len() as int) =~= markets@);
    if up.is_none() || down.is_none() {
        let mut tokens: Vec<String> = Vec::new();
        let mut j: usize = 0;
        while j < markets.len()
            invariant
                j <= markets@.len(),
                tokens@.map_values(|s: String| s@) == listed_tokens(markets@.take(j as int)),
            decreases markets@.len() - j,
        {
            let token = parse_token_id(&markets[j].clob_token_ids);
            assert(markets@.take(j + 1).drop_last() =~= markets@.take(j as int));
            assert(markets@.take(j + 1).last() == markets@[j as int]);
            match token {
                Some(t) => {
                    tokens.push(t);
                    assert(tokens@.map_values(|s: String| s@) =~= listed_tokens(
                        markets@.take(j + 1),
                    ));
                },
                None => {},
            }
            j += 1;
        }
        if up.is_none() {
            up = first_other_exec(&tokens, &down);
        }
        if down.is_none() {
            down = first_other_exec(&tokens, &up);
        }
    }
    (up, down)
}

/// With exactly one market marked Up and exactly one other marked Down, keyword detection
/// on a prefix of the markets has found each of them once its position is passed.
proof fn lemma_detected_prefix(ms: Seq<GammaMarket>, iu: int, id: int, n: int)
    requires
        0 <= iu < ms.len(),
        0 <= id < ms.len(),
        market_side_spec(ms[iu]) == Side::Up,
        market_side_spec(ms[id]) == Side::Down,
        forall|j: int|
            0 <= j < ms.len() && j != iu && j != id ==> market_side_spec(#[trigger] ms[j])
                == Side::Neither,
        0 <= n <= ms.len(),
    ensures
        detected_tokens(ms.take(n)) == (
            if iu < n {
                token_id_of(ms[iu].clob_token_ids)
            } else {
                None
            },
            if id < n {
                token_id_of(ms[id].clob_token_ids)
            } else {
                None
            },
        ),
    decreases n,
{
    if n > 0 {
        assert(ms.take(n).drop_last() =~= ms.take(n - 1));
        assert(ms.take(n).last() == ms[n - 1]);
        lemma_detected_prefix(ms, iu, id, n - 1);
    }
}

/// Keyword detection finds both legs wherever they stand: when exactly one market is
/// marked Up, exactly one other is marked Down, the rest are unmarked, and both marked
/// markets carry token ids, those ids are the Up and Down tokens.
pub proof fn lemma_keywords_find_both_legs(
    ms: Seq<GammaMarket>,
    iu: int,
    id: int,
    u: Seq<char>,
    d: Seq<char>,
)
    requires
        0 <= iu < ms.len(),
        0 <= id < ms.len(),
        market_side_spec(ms[iu]) == Side::Up,
        market_side_spec(ms[id]) == Side::Down,
        forall|j: int|
            0 <= j < ms.len() && j != iu && j != id ==> market_side_spec(#[trigger] ms[j])
                == Side::Neither,
        token_id_of(ms[iu].clob_token_ids) == Some(u),
        token_id_of(ms[id].clob_token_ids) == Some(d),
    ensures
        extracted_tokens(ms) == (Some(u), Some(d)),
{
    lemma_detected_prefix(ms, iu, id, ms.len() as int);
    assert(ms.take(ms.len() as int) =~= ms);
}

/// With no market marked, keyword detection finds nothing.
proof fn lemma_detected_none(ms: Seq<GammaMarket>)
    requires
        forall|j: int| 0 <= j < ms.len() ==> market_side_spec(#[trigger] ms[j]) == Side::Neither,
    ensures
        detected_tokens(ms) == (None::<Seq<char>>, None::<Seq<char>>),
    decreases ms.len(),
{
    if ms.len() > 0 {
        assert forall|j: int| 0 <= j < ms.drop_last().len() implies market_side_spec(
            #[trigger] ms.drop_last()[j],
        ) == Side::Neither by {
            assert(ms.drop_last()[j] == ms[j]);
        }
        lemma_detected_none(ms.drop_last());
    }
}

/// Positional fallback: when no market is marked Up or Down and the first two listed
/// token ids differ, Up gets the first listed token id and Down the second (each absent
/// when the list is too short).
pub proof fn lemma_positional_fallback(ms: Seq<GammaMarket>)
    requires
        forall|j: int| 0 <= j < ms.len() ==> market_side_spec(#[trigger] ms[j]) == Side::Neither,
        listed_tokens(ms).len() >= 2 ==> listed_tokens(ms)[0] != listed_tokens(ms)[1],
    ensures
        extracted_tokens(ms) == (
            if listed_tokens(ms).len() > 0 {
                Some(listed_tokens(ms)[0])
            } else {
                None
            },
            if listed_tokens(ms).len() > 1 {
                Some(listed_tokens(ms)[1])
            } else {
                None
            },
        ),
{
    lemma_detected_none(ms);
    let listed = listed_tokens(ms);
    if listed.len() > 0 {
        let rest = listed.drop_first();
        assert(first_other(listed, None) == Some(listed[0]));
        if listed.len() > 1 {
            assert(rest[0] == listed[1]);
            assert(first_other(rest, Some(listed[0])) == Some(listed[1]));
        } else {
            assert(first_other(rest, Some(listed[0])) is None);
        }
    }
}

/// A token id found by keyword comes from a market marked with that leg.
proof fn lemma_detected_origin(ms: Seq<GammaMarket>)
    ensures
        detected_tokens(ms).0 is Some ==> exists|i: int|
            0 <= i < ms.len() && market_side_spec(#[trigger] ms[i]) == Side::Up && token_id_of(
                ms[i].clob_token_ids,
            ) == detected_tokens(ms).0,
        detected_tokens(ms).1 is Some ==> exists|i: int|
            0 <= i < ms.len() && market_side_spec(#[trigger] ms[i]) == Side::Down && token_id_of(
                ms[i].clob_token_ids,
            ) == detected_tokens(ms).1,
    decreases ms.len(),
{
    if ms.len() > 0 {
        let prev = ms.drop_last();
        lemma_detected_origin(prev);
        let n = ms.len() - 1;
        assert(ms[n] == ms.last());
        if detected_tokens(prev).0 is Some {
            let i = choose|i: int|
                0 <= i < prev.len() && market_side_spec(#[trigger] prev[i]) == Side::Up
                    && token_id_of(prev[i].clob_token_ids) == detected_tokens(prev).0;
            assert(prev[i] == ms[i]);
        }
        if detected_tokens(prev).1 is Some {
            let i = choose|i: int|
                0 <= i < prev.len() && market_side_spec(#[trigger] prev[i]) == Side::Down
                    && token_id_of(prev[i].clob_token_ids) == detected_tokens(prev).1;
            assert(prev[i] == ms[i]);
        }
    }
}

/// The token id that the fallback picks differs from the one it must avoid.
proof fn lemma_first_other_differs(listed: Seq<Seq<char>>, taken: Option<Seq<char>>)
    ensures
        first_other(listed, taken) is Some ==> first_other(listed, taken) != taken,
    decreases listed.len(),
{
    if listed.len() > 0 && taken == Some(listed[0]) {
        lemma_first_other_differs(listed.drop_first(), taken);
    }
}

/// Up and Down are two different tokens: when different markets carry different token
/// ids, the Up and Down token ids found are never the same.
pub proof fn lemma_legs_distinct(ms: Seq<GammaMarket>)
    requires
        forall|i: int, j: int|
            0 <= i < ms.len() && 0 <= j < ms.len() && i != j && token_id_of(
                #[trigger] ms[i].clob_token_ids,
            ) is Some ==> token_id_of(ms[i].clob_token_ids) != token_id_of(
                #[trigger] ms[j].clob_token_ids,
            ),
    ensures
        extracted_tokens(ms).0 is Some && extracted_tokens(ms).1 is Some ==> extracted_tokens(ms).0
            != extracted_tokens(ms).1,
{
    let (up, down) = detected_tokens(ms);
    let listed = listed_tokens(ms);
    lemma_detected_origin(ms);
    if up is Some && down is Some {
        let iu = choose|i: int|
            0 <= i < ms.len() && market_side_spec(#[trigger] ms[i]) == Side::Up && token_id_of(
                ms[i].clob_token_ids,
            ) == up;
        let id = choose|i: int|
            0 <= i < ms.len() && market_side_spec(#[trigger] ms[i]) == Side::Down && token_id_of(
                ms[i].clob_token_ids,
            ) == down;
        assert(iu != id);
    } else {
        let up2 = if up is None {
            first_other(listed, down)
        } else {
            up
        };
        lemma_first_other_differs(listed, down);
        lemma_first_other_differs(listed, up2);
    }
}

/// The market that an event yields at instant `now`: its slug contains
/// `btc-updown-15m`, its end date parses and lies strictly after `now`, it holds at least
/// two markets, and both legs' token ids are found.
pub open spec fn candidate(ev: GammaEvent, now: Timestamp) -> Option<BtcMarketView> {
    candidate_at(ev, instant_of(opt_view(ev.end_date)), now)
}

/// The market that an event yields at instant `now` when its end date reads as `end`.
pub open spec fn candidate_at(ev: GammaEvent, end: Option<Timestamp>, now: Timestamp) -> Option<BtcMarketView> {
    let slug = text_or_empty(ev.slug);
    if !has_substring(slug, "btc-updown-15m"@) {
        None
    } else {
        match end {
            None => None,
            Some(end) => if ts_le(end, now) {
                None
            } else {
                match ev.markets {
                    Some(ms) => if ms@.len() >= 2 {
                        match extracted_tokens(ms@) {
                            (Some(up), Some(down)) => Some(
                                BtcMarketView {
                                    event_id: ev.id@,
                                    slug,
                                    title: text_or_empty(ev.title),
                                    end_time: end,
                                    up_token_id: up,
                                    down_token_id: down,
                                },
                            ),
                            _ => None,
                        }
                    } else {
                        None
                    },
                    None => None,
                }
            },
        }
    }
}

/// The markets that a list of events yields at instant `now`, in event order.
pub open spec fn candidates(events: Seq<GammaEvent>, now: Timestamp) -> Seq<BtcMarketView>
    decreases events.len(),
{
    if events.len() == 0 {
        Seq::empty()
    } else {
        match candidate(events.last(), now) {
            Some(c) => candidates(events.drop_last(), now).push(c),
            None => candidates(events.drop_last(), now),
        }
    }
}

/// The end instant of a market view.
pub open spec fn view_end(v: BtcMarketView) -> Timestamp {
    v.end_time
}

/// The end instant of a market.
pub open spec fn market_end(m: BtcMarket) -> Timestamp {
    m.end_time
}

/// The active markets among `events` at instant `now`, stably sorted by end instant.
pub open spec fn active_markets_spec(events: Seq<GammaEvent>, now: Timestamp, out: Seq<BtcMarketView>) -> bool {
    is_stable_sort_by(out, candidates(events, now), |v: BtcMarketView| view_end(v))
}

/// The market that one event yields at instant `now`, if any.
fn event_candidate(ev: &GammaEvent, now: Timestamp) -> (r: Option<BtcMarket>)
    ensures
        match r {
            Some(m) => candidate(*ev, now) == Some(m@),
            None => candidate(*ev, now) is None,
        },
{
    let end_time = match &ev.end_date {
        Some(d) => parse_datetime(d.as_str()),
        None => None,
    };
    market_of_event(ev, end_time, now)
}

/// The market that an event yields at instant `now`, given the instant that its end date
/// reads as (`None` when it is absent or does not parse).
pub fn market_of_event(ev: &GammaEvent, end_time: Option<Timestamp>, now: Timestamp) -> (r: Option<BtcMarket>)
    ensures
        match r {
            Some(m) => candidate_at(*ev, end_time, now) == Some(m@),
            None => candidate_at(*ev, end_time, now) is None,
        },
{
    let slug = match &ev.slug {
        Some(s) => s.clone(),
        None => String::new(),
    };
    if !text_contains(slug.as_str(), "btc-updown-15m") {
        return None;
    }
    let end_time = match end_time {
        Some(t) => t,
        None => {
            return None;
        },
    };
    if !now.is_before(&end_time) {
        return None;
    }
    let mkt_list = match &ev.markets {
        Some(m) => {
            if m.len() >= 2 {
                m
            } else {
                return None;
            }
        },
        None => {
            return None;
        },
    };
    let (up_token, down_token) = extract_tokens(mkt_list);
    match (up_token, down_token) {
        (Some(up), Some(down)) => {
            let title = match &ev.title {
                Some(t) => t.clone(),
                None => String::new(),
            };
            Some(
                BtcMarket {
                    event_id: ev.id.clone(),
                    slug,
                    title,
                    end_time,
                    up_token_id: up,
                    down_token_id: down,
                },
            )
        },
        _ => None,
    }
}

/// Reorders markets stably by end instant, earliest first; markets with equal end
/// instants keep their relative order.
pub fn sort_by_end_time(markets: Vec<BtcMarket>) -> (r: Vec<BtcMarket>)
    ensures
        is_stable_sort_by(r@, markets@, |m: BtcMarket| market_end(m)),
{
    let ghost orig = markets@;
    let len = markets.len();
    let mut keys: Vec<Timestamp> = Vec::new();
    let mut k: usize = 0;
    while k < len
        invariant
            len == orig.len(),
            markets@ == orig,
            k <= len,
            keys@ == orig.map_values(|m: BtcMarket| market_end(m)).take(k as int),
        decreases len - k,
    {
        keys.push(markets[k].end_time);
        assert(keys@ =~= orig.map_values(|m: BtcMarket| market_end(m)).take(k + 1));
        k += 1;
    }
    assert(keys@ =~= orig.map_values(|m: BtcMarket| market_end(m)));
    let mut input = markets;
    let mut out: Vec<BtcMarket> = Vec::new();
    let mut n: usize = 0;
    while n < len
        invariant
            len == orig.len(),
            keys@ == orig.map_values(|m: BtcMarket| market_end(m)),
            n <= len,
            input@ == orig.subrange(n as int, len as int),
            out@.len() == n,
            forall|i: int|
                0 <= i < n ==> out@[#[trigger] stable_rank(keys@.take(n as int), i) as int]
                    == orig[i],
        decreases len - n,
    {
        let ghost kn = keys@.take(n as int);
        let ghost kk = keys@[n as int];
        let ghost le_kk = |j: int| ts_le(kn[j], kk);
        let mut pos: usize = 0;
        let mut j: usize = 0;
        while j < n
            invariant
                n < len,
                len == keys@.len(),
                kn == keys@.take(n as int),
                kk == keys@[n as int],
                le_kk == (|j: int| ts_le(kn[j], kk)),
                j <= n,
                pos == count_where(j as nat, le_kk),
                pos <= j,
            decreases n - j,
        {
            if !keys[n].is_before(&keys[j]) {
                pos += 1;
            }
            j += 1;
        }
        let x = input.remove(0);
        let ghost old_out = out@;
        out.insert(pos, x);
        proof {
            let kn1 = keys@.take(n + 1);
            assert(kn1 =~= kn.push(kk));
            assert(x == orig[n as int]);
            assert forall|i: int| 0 <= i < n + 1 implies out@[#[trigger] stable_rank(kn1, i) as int]
                == orig[i] by {
                lemma_rank_push(kn, kk, i);
                if i < n {
                    lemma_insert_position(kn, kk, i);
                    lemma_rank_bound(kn, i);
                    let r0 = stable_rank(kn, i) as int;
                    assert(old_out[r0] == orig[i]);
                } else {
                    assert(stable_rank(kn1, i) == pos);
                }
            }
        }
        n += 1;
    }
    assert(keys@.take(len as int) =~= keys@);
    out
}

/// Where an element of `keys` stands against the insertion point of a new key `k`: its
/// rank reaches the number of elements with keys at most `k` exactly when `k` is earlier
/// than its own key.
proof fn lemma_insert_position(keys: Seq<Timestamp>, k: Timestamp, i: int)
    requires
        0 <= i < keys.len(),
    ensures
        (stable_rank(keys, i) >= count_where(keys.len(), |j: int| ts_le(keys[j], k))) == ts_lt(
            k,
            keys[i],
        ),
{
    let n = keys.len();
    let le_k = |j: int| ts_le(keys[j], k);
    let lt_i = |j: int| ts_lt(keys[j], keys[i]);
    let both = |j: int| ts_lt(keys[j], keys[i]) || (j < i && keys[j] == keys[i]);
    lemma_rank_as_one_count(keys, i);
    if ts_lt(k, keys[i]) {
        lemma_count_mono(n, le_k, lt_i);
        lemma_count_mono(n, lt_i, both);
    } else {
        lemma_count_strict(n, both, le_k, i);
    }
}

/// The number of events that yield a market at instant `now`.
pub open spec fn yielding_events(events: Seq<GammaEvent>, now: Timestamp) -> nat {
    count_where(events.len(), |i: int| candidate(events[i], now) is Some)
}

/// The markets yielded by events, in event order, are exactly the single events' markets:
/// each event that yields a market contributes it, nothing else appears, and there are as
/// many as there are yielding events.
proof fn lemma_candidates_members(events: Seq<GammaEvent>, now: Timestamp)
    ensures
        forall|i: int|
            0 <= i < events.len() && (#[trigger] candidate(events[i], now)) is Some
                ==> candidates(events, now).contains(candidate(events[i], now)->0),
        forall|q: int|
            #![trigger candidates(events, now)[q]]
            0 <= q < candidates(events, now).len() ==> exists|i: int|
                0 <= i < events.len() && #[trigger] candidate(events[i], now) == Some(
                    candidates(events, now)[q],
                ),
        candidates(events, now).len() == yielding_events(events, now),
    decreases events.len(),
{
    if events.len() > 0 {
        let prev = events.drop_last();
        let n = events.len() - 1;
        lemma_candidates_members(prev, now);
        let pc = candidates(prev, now);
        let cs = candidates(events, now);
        assert forall|i: int| 0 <= i < prev.len() implies #[trigger] prev[i] == events[i] by {}
        crate::order::lemma_count_ext(
            n as nat,
            |i: int| candidate(prev[i], now) is Some,
            |i: int| candidate(events[i], now) is Some,
        );
        assert(events.last() == events[n]);
        assert forall|i: int|
            0 <= i < events.len() && (#[trigger] candidate(events[i], now)) is Some implies cs.contains(
                candidate(events[i], now)->0,
            ) by {
            if i < n {
                assert(prev[i] == events[i]);
                let c = candidate(events[i], now)->0;
                assert(pc.contains(c));
                let k = choose|k: int| 0 <= k < pc.len() && pc[k] == c;
                assert(cs[k] == c);
            } else {
                assert(cs[cs.len() - 1] == candidate(events[i], now)->0);
            }
        }
        assert forall|q: int| #![trigger cs[q]] 0 <= q < cs.len() implies exists|i: int|
            0 <= i < events.len() && #[trigger] candidate(events[i], now) == Some(cs[q]) by {
            if q < pc.len() {
                assert(cs[q] == pc[q]);
                let i = choose|i: int|
                    0 <= i < prev.len() && #[trigger] candidate(prev[i], now) == Some(pc[q]);
                assert(prev[i] == events[i]);
            } else {
                assert(candidate(events[n], now) == Some(cs[q]));
            }
        }
    }
}

/// Discovery is complete and sound: every event that yields a market at `now` has that
/// market in the result, every market in the result is the market of some event, and the
/// result holds exactly as many markets as there are yielding events.
pub proof fn lemma_active_markets_complete(
    events: Seq<GammaEvent>,
    now: Timestamp,
    out: Seq<BtcMarketView>,
)
    requires
        active_markets_spec(events, now, out),
    ensures
        forall|i: int|
            0 <= i < events.len() && (#[trigger] candidate(events[i], now)) is Some
                ==> out.contains(candidate(events[i], now)->0),
        forall|q: int|
            #![trigger out[q]]
            0 <= q < out.len() ==> exists|i: int|
                0 <= i < events.len() && #[trigger] candidate(events[i], now) == Some(out[q]),
        out.len() == yielding_events(events, now),
{
    let cands = candidates(events, now);
    let keys = cands.map_values(|v: BtcMarketView| view_end(v));
    lemma_candidates_members(events, now);
    lemma_stable_sort_sorted(out, cands, |v: BtcMarketView| view_end(v));
    assert forall|i: int|
        0 <= i < events.len() && (#[trigger] candidate(events[i], now)) is Some implies out.contains(
            candidate(events[i], now)->0,
        ) by {
        let c = candidate(events[i], now)->0;
        assert(cands.contains(c));
        let k = choose|k: int| 0 <= k < cands.len() && cands[k] == c;
        lemma_rank_bound(keys, k);
        assert(out[stable_rank(keys, k) as int] == cands[k]);
    }
    assert forall|q: int| #![trigger out[q]] 0 <= q < out.len() implies exists|i: int|
        0 <= i < events.len() && #[trigger] candidate(events[i], now) == Some(out[q]) by {
        assert(cands.contains(out[q]));
        let k = choose|k: int| 0 <= k < cands.len() && cands[k] == out[q];
        assert(exists|i: int|
            0 <= i < events.len() && #[trigger] candidate(events[i], now) == Some(cands[k]));
    }
}

/// The active BTC 15-minute markets among `events` at instant `now`, earliest end first.
pub fn select_active_markets(events: &Vec<GammaEvent>, now: Timestamp) -> (r: Vec<BtcMarket>)
    ensures
        active_markets_spec(events@, now, market_views(r@)),
        forall|i: int|
            0 <= i < events@.len() && (#[trigger] candidate(events@[i], now)) is Some
                ==> market_views(r@).contains(candidate(events@[i], now)->0),
        forall|q: int|
            #![trigger r@[q]]
            0 <= q < r@.len() ==> exists|i: int|
                0 <= i < events@.len() && #[trigger] candidate(events@[i], now) == Some(r@[q]@),
        r@.len() == yielding_events(events@, now),
        forall|q: int| 0 <= q < r@.len() ==> is_live_btc_market(now, #[trigger] r@[q]@),
        forall|a: int, b: int|
            0 <= a < b < r@.len() ==> ts_le(r@[a].end_time, r@[b].end_time),
{
    let mut found: Vec<BtcMarket> = Vec::new();
    let mut i: usize = 0;
    while i < events.len()
        invariant
            i <= events@.len(),
            market_views(found@) == candidates(events@.take(i as int), now),
        decreases events@.len() - i,
    {
        let c = event_candidate(&events[i], now);
        assert(events@.take(i + 1).drop_last() =~= events@.take(i as int));
        assert(events@.take(i + 1).last() == events@[i as int]);
        match c {
            Some(m) => {
                found.push(m);
                assert(market_views(found@) =~= candidates(events@.take(i + 1), now));
            },
            None => {},
        }
        i += 1;
    }
    assert(events@.take(events@.len() as int) =~= events@);
    let ghost before = found@;
    let r = sort_by_end_time(found);
    proof {
        lemma_stable_sort_views(r@, before);
        let out = market_views(r@);
        lemma_active_markets_complete(events@, now, out);
        lemma_active_markets_live_and_sorted(events@, now, out);
        assert forall|a: int, b: int| 0 <= a < b < r@.len() implies ts_le(
            r@[a].end_time,
            r@[b].end_time,
        ) by {
            assert(out[a] == r@[a]@);
            assert(out[b] == r@[b]@);
        }
        assert forall|q: int| 0 <= q < r@.len() implies is_live_btc_market(now, #[trigger] r@[q]@) by {
            assert(out[q] == r@[q]@);
        }
        assert forall|q: int| #![trigger r@[q]] 0 <= q < r@.len() implies exists|i: int|
            0 <= i < events@.len() && #[trigger] candidate(events@[i], now) == Some(r@[q]@) by {
            assert(out[q] == r@[q]@);
        }
    }
    r
}

/// A stable sort of markets by end instant is a stable sort of their views.
proof fn lemma_stable_sort_views(out: Seq<BtcMarket>, inp: Seq<BtcMarket>)
    requires
        is_stable_sort_by(out, inp, |m: BtcMarket| market_end(m)),
    ensures
        is_stable_sort_by(market_views(out), market_views(inp), |v: BtcMarketView| view_end(v)),
{
    let ki = inp.map_values(|m: BtcMarket| market_end(m));
    let kv = market_views(inp).map_values(|v: BtcMarketView| view_end(v));
    assert(ki =~= kv);
    assert forall|i: int| 0 <= i < inp.len() implies market_views(out)[#[trigger] stable_rank(kv, i) as int]
        == market_views(inp)[i] by {
        lemma_rank_bound(kv, i);
        assert(out[stable_rank(ki, i) as int] == inp[i]);
    }
}

/// A market that ends strictly after `now` and whose slug contains `btc-updown-15m`.
pub open spec fn is_live_btc_market(now: Timestamp, v: BtcMarketView) -> bool {
    ts_lt(now, v.end_time) && has_substring(v.slug, "btc-updown-15m"@)
}

/// Every market that `select_active_markets` returns for instant `now` has a slug that
/// contains `btc-updown-15m` and ends strictly after `now`, and the list is in
/// non-decreasing order of end instant.
pub proof fn lemma_active_markets_live_and_sorted(
    events: Seq<GammaEvent>,
    now: Timestamp,
    out: Seq<BtcMarketView>,
)
    requires
        active_markets_spec(events, now, out),
    ensures
        forall|q: int| 0 <= q < out.len() ==> is_live_btc_market(now, #[trigger] out[q]),
        forall|a: int, b: int| 0 <= a < b < out.len() ==> ts_le(out[a].end_time, out[b].end_time),
{
    let cands = candidates(events, now);
    lemma_stable_sort_sorted(out, cands, |v: BtcMarketView| view_end(v));
    lemma_candidates_live(events, now);
    assert forall|q: int| 0 <= q < out.len() implies is_live_btc_market(now, #[trigger] out[q]) by {
        assert(cands.contains(out[q]));
        let i = choose|i: int| 0 <= i < cands.len() && cands[i] == out[q];
        assert(is_live_btc_market(now, cands[i]));
    }
    assert forall|a: int, b: int| 0 <= a < b < out.len() implies ts_le(out[a].end_time, out[b].end_time) by {
        assert(ts_le(view_end(out[a]), view_end(out[b])));
    }
}

/// Every market yielded by events at instant `now` ends after `now` and has a BTC 15-minute slug.
proof fn lemma_candidates_live(events: Seq<GammaEvent>, now: Timestamp)
    ensures
        forall|q: int|
            0 <= q < candidates(events, now).len() ==> is_live_btc_market(
                now,
                #[trigger] candidates(events, now)[q],
            ),
    decreases events.len(),
{
    if events.len() > 0 {
        let prev = candidates(events.drop_last(), now);
        lemma_candidates_live(events.drop_last(), now);
        match candidate(events.last(), now) {
            Some(c) => {
                assert(is_live_btc_market(now, c));
                assert forall|q: int| 0 <= q < prev.push(c).len() implies is_live_btc_market(
                    now,
                    #[trigger] prev.push(c)[q],
                ) by {
                    if q < prev.len() {
                        assert(is_live_btc_market(now, prev[q]));
                    }
                }
            },
            None => {},
        }
    }
}

/// Finds the active BTC 15-minute markets among the events fetched from the Gamma API.
pub struct BtcDiscovery {
    gamma_url: String,
}

impl BtcDiscovery {
    /// The base URL of the Gamma API that this discovery reads.
    pub closed spec fn base_url(&self) -> Seq<char> {
        self.gamma_url@
    }

    /// A discovery over the Gamma API at `gamma_url`.
    pub fn new(gamma_url: String) -> (r: Self)
        ensures
            r.base_url() == gamma_url@,
    {
        Self { gamma_url }
    }

    /// The URL of the events request: the base URL followed by `/events?limit=200`.
    pub fn events_url(&self) -> (r: String)
        ensures
            r@ == self.base_url() + "/events?limit=200"@,
    {
        let url = self.gamma_url.clone();
        url.concat("/events?limit=200")
    }

    /// The active markets among `events` at the current instant (`endDate` after now),
    /// sorted by end instant ascending, with the instant read.
    pub fn active_markets(&self, events: &Vec<GammaEvent>) -> (r: (Vec<BtcMarket>, Timestamp))
        ensures
            r.1.nanos < NANOS_PER_SEC,
            active_markets_spec(events@, r.1, market_views(r.0@)),
    {
        let now = clock_now();
        (select_active_markets(events, now), now)
    }
}

} // verus!
