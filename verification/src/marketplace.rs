//! Marketplace data: the catalogue and its browse, search and ranking
//! queries, user purchases, creator revenue splits and reviews.

use vstd::prelude::*;
use crate::seqs::{first_match, lemma_first_match_at, lemma_first_match_none};
use crate::text::{has_substring, str_contains, str_eq, to_lowercase, unicode_lowercase};

verus! {

/// The store's top-level tabs.
#[derive(Debug, Clone, Copy, PartialEq, Eq, Structural)]
pub enum StoreSection {
    SamplePacks,
    Presets,
    Plugins,
}

/// The instrument a preset pack is for.
#[derive(Debug, Clone, Copy, PartialEq, Eq, Structural)]
pub enum PresetInstrument {
    Subtractive,
    Wavetable,
    Fm,
    Sampler,
    DrumMachine,
    DrumSynth,
    Generic,
}

/// Plug-in formats sold in the store.
#[derive(Debug, Clone, Copy, PartialEq, Eq, Structural)]
pub enum PluginFormat {
    Vst3,
    Clap,
    Native,
}

/// The section-specific part of a catalogue entry.
#[derive(Debug)]
pub enum StoreItemKind {
    SamplePack { sample_count: u32, style_tags: Vec<String> },
    Preset { instrument: PresetInstrument, preset_count: u32 },
    Plugin { vendor: String, format: PluginFormat, version: String },
}

/// One catalogue entry with its aggregate rating counters.
#[derive(Debug)]
pub struct StoreItem {
    pub id: String,
    pub title: String,
    pub creator_id: String,
    pub price_cents: u32,
    pub preview_url: Option<String>,
    pub install_path: String,
    pub rating_count: u32,
    pub rating_sum: u32,
    pub kind: StoreItemKind,
}

/// The section an item is listed under.
pub open spec fn section_of(item: StoreItem) -> StoreSection {
    match item.kind {
        StoreItemKind::SamplePack { .. } => StoreSection::SamplePacks,
        StoreItemKind::Preset { .. } => StoreSection::Presets,
        StoreItemKind::Plugin { .. } => StoreSection::Plugins,
    }
}

impl StoreItem {
    /// The section this item is listed under.
    pub fn section(&self) -> (s: StoreSection)
        ensures
            s == section_of(*self),
    {
        match &self.kind {
            StoreItemKind::SamplePack { .. } => StoreSection::SamplePacks,
            StoreItemKind::Preset { .. } => StoreSection::Presets,
            StoreItemKind::Plugin { .. } => StoreSection::Plugins,
        }
    }
}

/// Items in a section.
pub open spec fn in_section(section: StoreSection) -> spec_fn(StoreItem) -> bool {
    |i: StoreItem| section_of(i) == section
}

/// Preset packs for an instrument.
pub open spec fn preset_for(instrument: PresetInstrument) -> spec_fn(StoreItem) -> bool {
    |i: StoreItem| i.kind is Preset && i.kind->instrument == instrument
}

/// Items whose lowercased title contains the lowercased query.
pub open spec fn title_matches(query: Seq<char>) -> spec_fn(StoreItem) -> bool {
    |i: StoreItem| has_substring(unicode_lowercase(i.title@), unicode_lowercase(query))
}

/// The items a list of references points at.
pub open spec fn targets(refs: Seq<&StoreItem>) -> Seq<StoreItem> {
    refs.map_values(|r: &StoreItem| *r)
}

/// The whole catalogue, held in memory for instant browsing.
#[derive(Debug)]
pub struct Catalog {
    pub items: Vec<StoreItem>,
}

/// The item with an id.
pub open spec fn item_index(items: Seq<StoreItem>, id: Seq<char>) -> Option<int> {
    first_match(items, |i: StoreItem| i.id@ == id)
}

fn find_item(items: &Vec<StoreItem>, id: &str) -> (r: Option<usize>)
    ensures
        match item_index(items@, id@) {
            Some(i) => 0 <= i < items@.len() && r is Some && r->0 as int == i,
            None => r is None,
        },
{
    let mut i: usize = 0;
    while i < items.len()
        invariant
            0 <= i <= items@.len(),
            forall|j: int| 0 <= j < i ==> items@[j].id@ != id@,
        decreases items@.len() - i,
    {
        if str_eq(items[i].id.as_str(), id) {
            proof {
                lemma_first_match_at(items@, |it: StoreItem| it.id@ == id@, i as int);
            }
            return Some(i);
        }
        i = i + 1;
    }
    proof {
        lemma_first_match_none(items@, |it: StoreItem| it.id@ == id@);
    }
    None
}

impl Catalog {
    /// An empty catalogue.
    pub fn new() -> (c: Catalog)
        ensures
            c.items@.len() == 0,
    {
        Catalog { items: Vec::new() }
    }

    /// The items of a section, in catalogue order.
    pub fn by_section(&self, section: StoreSection) -> (out: Vec<&StoreItem>)
        ensures
            targets(out@) == self.items@.filter(in_section(section)),
    {
        let mut out: Vec<&StoreItem> = Vec::new();
        let mut i: usize = 0;
        while i < self.items.len()
            invariant
                0 <= i <= self.items@.len(),
                targets(out@) == self.items@.take(i as int).filter(in_section(section)),
            decreases self.items@.len() - i,
        {
            proof {
                assert(self.items@.take(i as int + 1).drop_last() =~= self.items@.take(i as int));
                assert(self.items@.take(i as int + 1).last() == self.items@[i as int]);
                reveal_with_fuel(Seq::filter, 1);
            }
            let ghost before = out@;
            if self.items[i].section() == section {
                out.push(&self.items[i]);
                assert(targets(out@) =~= targets(before).push(self.items@[i as int]));
            }
            i = i + 1;
        }
        assert(self.items@.take(i as int) =~= self.items@);
        out
    }

    /// The preset packs for an instrument, in catalogue order.
    pub fn presets_by_instrument(&self, instrument: PresetInstrument) -> (out: Vec<&StoreItem>)
        ensures
            targets(out@) == self.items@.filter(preset_for(instrument)),
    {
        let mut out: Vec<&StoreItem> = Vec::new();
        let mut i: usize = 0;
        while i < self.items.len()
            invariant
                0 <= i <= self.items@.len(),
                targets(out@) == self.items@.take(i as int).filter(preset_for(instrument)),
            decreases self.items@.len() - i,
        {
            proof {
                assert(self.items@.take(i as int + 1).drop_last() =~= self.items@.take(i as int));
                assert(self.items@.take(i as int + 1).last() == self.items@[i as int]);
                reveal_with_fuel(Seq::filter, 1);
            }
            let ghost before = out@;
            let hit = match &self.items[i].kind {
                StoreItemKind::Preset { instrument: inst, .. } => *inst == instrument,
                _ => false,
            };
            if hit {
                out.push(&self.items[i]);
                assert(targets(out@) =~= targets(before).push(self.items@[i as int]));
            }
            i = i + 1;
        }
        assert(self.items@.take(i as int) =~= self.items@);
        out
    }

    /// The first item with id `id`.
    pub fn find(&self, id: &str) -> (r: Option<&StoreItem>)
        ensures
            match item_index(self.items@, id@) {
                Some(i) => r == Some(&self.items@[i]),
                None => r is None,
            },
    {
        match find_item(&self.items, id) {
            Some(i) => Some(&self.items[i]),
            None => None,
        }
    }

    /// Items whose title contains the query, ignoring case, in catalogue order.
    pub fn search(&self, query: &str) -> (out: Vec<&StoreItem>)
        ensures
            targets(out@) == self.items@.filter(title_matches(query@)),
    {
        let q = to_lowercase(query);
        let mut out: Vec<&StoreItem> = Vec::new();
        let mut i: usize = 0;
        while i < self.items.len()
            invariant
                0 <= i <= self.items@.len(),
                q@ == unicode_lowercase(query@),
                targets(out@) == self.items@.take(i as int).filter(title_matches(query@)),
            decreases self.items@.len() - i,
        {
            proof {
                assert(self.items@.take(i as int + 1).drop_last() =~= self.items@.take(i as int));
                assert(self.items@.take(i as int + 1).last() == self.items@[i as int]);
                reveal_with_fuel(Seq::filter, 1);
            }
            let ghost before = out@;
            let title = to_lowercase(self.items[i].title.as_str());
            if str_contains(title.as_str(), q.as_str()) {
                out.push(&self.items[i]);
                assert(targets(out@) =~= targets(before).push(self.items@[i as int]));
            }
            i = i + 1;
        }
        assert(self.items@.take(i as int) =~= self.items@);
        out
    }
}

/// The numerator of an item's rating key: its star sum, or 0 when unrated.
pub open spec fn rating_num(i: StoreItem) -> int {
    if i.rating_count == 0 { 0 } else { i.rating_sum as int }
}

/// The denominator of an item's rating key: its review count, or 1 when
/// unrated, so an unrated item ranks as an average of 0.
pub open spec fn rating_den(i: StoreItem) -> int {
    if i.rating_count == 0 { 1 } else { i.rating_count as int }
}

/// `a` has the strictly higher average rating.
pub open spec fn rated_higher(a: StoreItem, b: StoreItem) -> bool {
    rating_num(a) * rating_den(b) > rating_num(b) * rating_den(a)
}

/// Item `i` ranks before item `j`: higher average, or the same average and
/// earlier in the catalogue (the sort is stable).
pub open spec fn ranks_before(items: Seq<StoreItem>, i: int, j: int) -> bool {
    rated_higher(items[i], items[j]) || (!rated_higher(items[j], items[i]) && i < j)
}

/// `order` lists exactly the catalogue positions of a section, best rated
/// first.
pub open spec fn ranked_section(items: Seq<StoreItem>, section: StoreSection, order: Seq<int>) -> bool {
    &&& forall|a: int, b: int| 0 <= a < b < order.len() ==> ranks_before(items, #[trigger] order[a], #[trigger] order[b])
    &&& forall|k: int| 0 <= k < order.len() ==> 0 <= #[trigger] order[k] < items.len() && section_of(items[order[k]]) == section
    &&& forall|j: int| 0 <= j < items.len() && section_of(items[j]) == section ==> order.contains(j)
}

proof fn lemma_higher_then_at_least(na: int, da: int, nb: int, db: int, nc: int, dc: int)
    by (nonlinear_arith)
    requires
        da > 0,
        db > 0,
        dc > 0,
        na * db > nb * da,
        nb * dc >= nc * db,
    ensures
        na * dc > nc * da,
{
}

proof fn lemma_ranking_step(items: Seq<StoreItem>, i: int, p: int, q: int)
    requires
        0 <= i < items.len(),
        0 <= p < items.len(),
        0 <= q < items.len(),
        rated_higher(items[i], items[p]),
        ranks_before(items, p, q),
    ensures
        rated_higher(items[i], items[q]),
{
    let a = items[i];
    let b = items[p];
    let c = items[q];
    lemma_higher_then_at_least(rating_num(a), rating_den(a), rating_num(b), rating_den(b), rating_num(c), rating_den(c));
}

impl Catalog {
    /// The `limit` best-rated items of a section, highest average first;
    /// items with the same average keep their catalogue order, and an
    /// unrated item counts as an average of 0.
    pub fn top_rated(&self, section: StoreSection, limit: usize) -> (out: Vec<&StoreItem>)
        ensures
            exists|order: Seq<int>| {
                &&& ranked_section(self.items@, section, order)
                &&& out@.len() == (if limit < order.len() { limit as int } else { order.len() as int })
                &&& forall|k: int| 0 <= k < out@.len() ==> *out@[k] == self.items@[#[trigger] order[k]]
            },
    {
        let n = self.items.len();
        let mut ord: Vec<usize> = Vec::new();
        let mut i: usize = 0;
        while i < n
            invariant
                n == self.items@.len(),
                0 <= i <= n,
                forall|a: int, b: int| 0 <= a < b < ord@.len() ==> ranks_before(self.items@, #[trigger] ord@[a] as int, #[trigger] ord@[b] as int),
                forall|k: int| 0 <= k < ord@.len() ==> (#[trigger] ord@[k]) < i && section_of(self.items@[ord@[k] as int]) == section,
                forall|j: int| 0 <= j < i && section_of(self.items@[j]) == section ==> ord@.contains(j as usize),
            decreases n - i,
        {
            if self.items[i].section() == section {
                let item = &self.items[i];
                let mut p: usize = 0;
                let mut found = false;
                while p < ord.len() && !found
                    invariant
                        0 <= p <= ord@.len(),
                        i < n,
                        n == self.items@.len(),
                        *item == self.items@[i as int],
                        forall|k: int| 0 <= k < ord@.len() ==> (#[trigger] ord@[k]) < i,
                        found ==> p < ord@.len() && rated_higher(self.items@[i as int], self.items@[ord@[p as int] as int]),
                        forall|q: int| 0 <= q < p && !(found && q == p) ==> !rated_higher(self.items@[i as int], self.items@[#[trigger] ord@[q] as int]),
                    decreases ord@.len() - p + (if found { 0int } else { 1int }),
                {
                    let other = &self.items[ord[p]];
                    let num_i: u64 = if item.rating_count == 0 { 0 } else { item.rating_sum as u64 };
                    let den_i: u64 = if item.rating_count == 0 { 1 } else { item.rating_count as u64 };
                    let num_o: u64 = if other.rating_count == 0 { 0 } else { other.rating_sum as u64 };
                    let den_o: u64 = if other.rating_count == 0 { 1 } else { other.rating_count as u64 };
                    assert(num_i * den_o <= 0xFFFF_FFFFu64 * 0xFFFF_FFFFu64) by (nonlinear_arith)
                        requires num_i <= 0xFFFF_FFFFu64, den_o <= 0xFFFF_FFFFu64;
                    assert(num_o * den_i <= 0xFFFF_FFFFu64 * 0xFFFF_FFFFu64) by (nonlinear_arith)
                        requires num_o <= 0xFFFF_FFFFu64, den_i <= 0xFFFF_FFFFu64;
                    if num_i * den_o > num_o * den_i {
                        found = true;
                    } else {
                        p = p + 1;
                    }
                }
                let ghost before = ord@;
                ord.insert(p, i);
                proof {
                    assert forall|a: int, b: int| 0 <= a < b < ord@.len() implies ranks_before(self.items@, #[trigger] ord@[a] as int, #[trigger] ord@[b] as int) by {
                        if a < p && b < p {
                            assert(ord@[a] == before[a] && ord@[b] == before[b]);
                        } else if a < p && b == p {
                            assert(ord@[a] == before[a]);
                            assert(!rated_higher(self.items@[i as int], self.items@[before[a] as int]));
                        } else if a < p && b > p {
                            assert(ord@[a] == before[a] && ord@[b] == before[b - 1]);
                        } else if a == p {
                            assert(ord@[b] == before[b - 1]);
                            if b - 1 > p {
                                assert(ranks_before(self.items@, before[p as int] as int, before[b - 1] as int));
                                lemma_ranking_step(self.items@, i as int, before[p as int] as int, before[b - 1] as int);
                            }
                        } else {
                            assert(ord@[a] == before[a - 1] && ord@[b] == before[b - 1]);
                        }
                    }
                    assert forall|j: int| 0 <= j < i + 1 && section_of(self.items@[j]) == section implies ord@.contains(j as usize) by {
                        if j < i {
                            let k = choose|k: int| 0 <= k < before.len() && before[k] == j as usize;
                            if k < p {
                                assert(ord@[k] == before[k]);
                            } else {
                                assert(ord@[k + 1] == before[k]);
                            }
                        } else {
                            assert(ord@[p as int] == i);
                        }
                    }
                }
            }
            i = i + 1;
        }
        let mut out: Vec<&StoreItem> = Vec::new();
        let mut k: usize = 0;
        let take = if limit < ord.len() { limit } else { ord.len() };
        while k < take
            invariant
                0 <= k <= take,
                take <= ord@.len(),
                n == self.items@.len(),
                forall|m: int| 0 <= m < ord@.len() ==> (#[trigger] ord@[m]) < n,
                out@.len() == k,
                forall|m: int| 0 <= m < k ==> *out@[m] == self.items@[#[trigger] ord@[m] as int],
            decreases take - k,
        {
            out.push(&self.items[ord[k]]);
            k = k + 1;
        }
        let ghost order = ord@.map_values(|x: usize| x as int);
        assert(ranked_section(self.items@, section, order)) by {
            assert forall|j: int| 0 <= j < self.items@.len() && section_of(self.items@[j]) == section implies order.contains(j) by {
                assert(ord@.contains(j as usize));
                let m = choose|m: int| 0 <= m < ord@.len() && ord@[m] == j as usize;
                assert(order[m] == j);
            }
        }
        assert(forall|m: int| 0 <= m < out@.len() ==> *out@[m] == self.items@[#[trigger] order[m]]);
        out
    }
}

/// One purchase in a user's history.
#[derive(Debug)]
pub struct Purchase {
    pub item_id: String,
    pub price_cents_paid: u32,
    pub purchase_timestamp_unix: i64,
}

/// A user with their purchase history.
#[derive(Debug)]
pub struct UserAccount {
    pub user_id: String,
    pub display_name: String,
    pub email: String,
    pub purchases: Vec<Purchase>,
}

/// Whether a history holds a purchase of an item.
pub open spec fn owns_item(purchases: Seq<Purchase>, item_id: Seq<char>) -> bool {
    exists|k: int| 0 <= k < purchases.len() && purchases[k].item_id@ == item_id
}

/// The sum of what a history paid.
pub open spec fn total_paid(purchases: Seq<Purchase>) -> nat
    decreases purchases.len(),
{
    if purchases.len() == 0 {
        0
    } else {
        total_paid(purchases.drop_last()) + purchases.last().price_cents_paid as nat
    }
}

impl UserAccount {
    /// Whether the user bought `item_id`.
    pub fn owns(&self, item_id: &str) -> (r: bool)
        ensures
            r == owns_item(self.purchases@, item_id@),
    {
        let mut i: usize = 0;
        while i < self.purchases.len()
            invariant
                0 <= i <= self.purchases@.len(),
                forall|k: int| 0 <= k < i ==> self.purchases@[k].item_id@ != item_id@,
            decreases self.purchases@.len() - i,
        {
            if str_eq(self.purchases[i].item_id.as_str(), item_id) {
                return true;
            }
            i = i + 1;
        }
        false
    }

    /// Records a purchase unless the item is already owned.
    pub fn add_purchase(&mut self, purchase: Purchase)
        ensures
            owns_item(old(self).purchases@, purchase.item_id@) ==> final(self).purchases@
                == old(self).purchases@,
            !owns_item(old(self).purchases@, purchase.item_id@) ==> final(self).purchases@
                == old(self).purchases@.push(purchase),
            final(self).user_id == old(self).user_id,
            final(self).display_name == old(self).display_name,
            final(self).email == old(self).email,
    {
        if !self.owns(purchase.item_id.as_str()) {
            self.purchases.push(purchase);
        }
    }

    /// The total the user has spent.
    pub fn total_spent_cents(&self) -> (t: u64)
        requires
            total_paid(self.purchases@) <= u64::MAX,
        ensures
            t == total_paid(self.purchases@),
    {
        let mut total: u64 = 0;
        let mut i: usize = 0;
        while i < self.purchases.len()
            invariant
                0 <= i <= self.purchases@.len(),
                total == total_paid(self.purchases@.take(i as int)),
                total_paid(self.purchases@) <= u64::MAX,
            decreases self.purchases@.len() - i,
        {
            proof {
                assert(self.purchases@.take(i as int + 1).drop_last() =~= self.purchases@.take(i as int));
                lemma_total_paid_prefix(self.purchases@, i as int + 1);
            }
            total = total + self.purchases[i].price_cents_paid as u64;
            i = i + 1;
        }
        assert(self.purchases@.take(i as int) =~= self.purchases@);
        total
    }
}

proof fn lemma_total_paid_prefix(ps: Seq<Purchase>, n: int)
    requires
        0 <= n <= ps.len(),
    ensures
        total_paid(ps.take(n)) <= total_paid(ps),
    decreases ps.len() - n,
{
    if n < ps.len() {
        lemma_total_paid_prefix(ps, n + 1);
        assert(ps.take(n + 1).drop_last() =~= ps.take(n));
    } else {
        assert(ps.take(n) =~= ps);
    }
}

/// A creator's running revenue, split by the platform fee in basis points.
#[derive(Debug)]
pub struct CreatorRevenue {
    pub creator_id: String,
    pub platform_fee_bps: u16,
    pub total_sales_cents: u64,
    pub platform_cut_cents: u64,
    pub creator_cents: u64,
}

/// The platform's part of a sale, rounded down.
pub open spec fn platform_share(price_cents: u32, fee_bps: u16) -> int {
    (price_cents as int * fee_bps as int) / 10_000
}

impl CreatorRevenue {
    /// Records a sale: the platform takes `fee_bps` basis points (rounded
    /// down), the creator the rest.
    pub fn record_sale(&mut self, price_cents: u32)
        requires
            platform_share(price_cents, old(self).platform_fee_bps) <= price_cents,
            old(self).total_sales_cents + price_cents <= u64::MAX,
            old(self).platform_cut_cents + platform_share(price_cents, old(self).platform_fee_bps) <= u64::MAX,
            old(self).creator_cents + price_cents - platform_share(price_cents, old(self).platform_fee_bps)
                <= u64::MAX,
        ensures
            final(self).total_sales_cents == old(self).total_sales_cents + price_cents,
            final(self).platform_cut_cents == old(self).platform_cut_cents + platform_share(
                price_cents,
                old(self).platform_fee_bps,
            ),
            final(self).creator_cents == old(self).creator_cents + price_cents - platform_share(
                price_cents,
                old(self).platform_fee_bps,
            ),
            final(self).platform_fee_bps == old(self).platform_fee_bps,
            final(self).creator_id == old(self).creator_id,
    {
        self.total_sales_cents = self.total_sales_cents + price_cents as u64;
        assert((price_cents as u64) * (self.platform_fee_bps as u64) <= 0xFFFF_FFFFu64 * 0xFFFFu64)
            by (nonlinear_arith)
            requires price_cents <= 0xFFFF_FFFFu32, self.platform_fee_bps <= 0xFFFFu16;
        let platform = (price_cents as u64) * (self.platform_fee_bps as u64) / 10_000;
        let creator = price_cents as u64 - platform;
        self.platform_cut_cents = self.platform_cut_cents + platform;
        self.creator_cents = self.creator_cents + creator;
    }
}

/// Law: every sale is split exactly, the two shares adding up to the price.
pub proof fn lemma_sale_split_is_exact(price_cents: u32, fee_bps: u16)
    requires
        platform_share(price_cents, fee_bps) <= price_cents,
    ensures
        platform_share(price_cents, fee_bps) + (price_cents - platform_share(price_cents, fee_bps))
            == price_cents,
{
}

/// A star rating, with an optional written review.
#[derive(Debug)]
pub struct Review {
    pub user_id: String,
    pub item_id: String,
    pub stars: u8,
    pub body: Option<String>,
    pub timestamp_unix: i64,
}

/// `stars` clamped into 1..=5.
pub open spec fn clamp_stars(stars: u8) -> u8 {
    if stars < 1 { 1 } else if stars > 5 { 5 } else { stars }
}

impl Review {
    /// A review without text, its stars clamped into 1..=5.
    pub fn new(user_id: &str, item_id: &str, stars: u8) -> (r: Review)
        ensures
            r.user_id@ == user_id@,
            r.item_id@ == item_id@,
            r.stars == clamp_stars(stars),
            r.body is None,
            r.timestamp_unix == 0,
    {
        let s = if stars < 1 { 1 } else if stars > 5 { 5 } else { stars };
        Review {
            user_id: String::from_str(user_id),
            item_id: String::from_str(item_id),
            stars: s,
            body: None,
            timestamp_unix: 0,
        }
    }
}

/// The earlier review by the same user of the same item, if any.
pub open spec fn prior_review(reviews: Seq<Review>, r: Review) -> Option<int> {
    first_match(reviews, |x: Review| x.user_id@ == r.user_id@ && x.item_id@ == r.item_id@)
}

/// An item's (sum, count) once a prior review's stars are taken out,
/// saturating at zero.
pub open spec fn counters_without_prior(item: StoreItem, reviews: Seq<Review>, r: Review) -> (int, int) {
    match prior_review(reviews, r) {
        Some(p) => (
            if item.rating_sum >= reviews[p].stars { item.rating_sum - reviews[p].stars } else { 0 },
            if item.rating_count >= 1 { item.rating_count - 1 } else { 0 },
        ),
        None => (item.rating_sum as int, item.rating_count as int),
    }
}

/// The review list after a review is registered: the prior one by the same
/// user on the same item is dropped and the new one appended.
pub open spec fn reviews_after(reviews: Seq<Review>, r: Review) -> Seq<Review> {
    match prior_review(reviews, r) {
        Some(p) => reviews.remove(p).push(r),
        None => reviews.push(r),
    }
}

fn find_prior(reviews: &Vec<Review>, r: &Review) -> (p: Option<usize>)
    ensures
        match prior_review(reviews@, *r) {
            Some(i) => 0 <= i < reviews@.len() && p is Some && p->0 as int == i,
            None => p is None,
        },
{
    let mut i: usize = 0;
    while i < reviews.len()
        invariant
            0 <= i <= reviews@.len(),
            forall|j: int| 0 <= j < i ==> !(reviews@[j].user_id@ == r.user_id@ && reviews@[j].item_id@
                == r.item_id@),
        decreases reviews@.len() - i,
    {
        if str_eq(reviews[i].user_id.as_str(), r.user_id.as_str()) && str_eq(
            reviews[i].item_id.as_str(),
            r.item_id.as_str(),
        ) {
            proof {
                lemma_first_match_at(
                    reviews@,
                    |x: Review| x.user_id@ == r.user_id@ && x.item_id@ == r.item_id@,
                    i as int,
                );
            }
            return Some(i);
        }
        i = i + 1;
    }
    proof {
        lemma_first_match_none(reviews@, |x: Review| x.user_id@ == r.user_id@ && x.item_id@ == r.item_id@);
    }
    None
}

/// Registers a review against its catalogue item: a prior review by the
/// same user on the same item is replaced, and the item's rating counters
/// follow. `false`, with nothing changed, when the item is not in the
/// catalogue.
pub fn register_review(catalog: &mut Catalog, reviews: &mut Vec<Review>, new_review: Review) -> (found: bool)
    requires
        match item_index(old(catalog).items@, new_review.item_id@) {
            Some(i) => counters_without_prior(old(catalog).items@[i], old(reviews)@, new_review).0
                + new_review.stars <= u32::MAX && counters_without_prior(
                old(catalog).items@[i],
                old(reviews)@,
                new_review,
            ).1 + 1 <= u32::MAX,
            None => true,
        },
    ensures
        found == (item_index(old(catalog).items@, new_review.item_id@) is Some),
        match item_index(old(catalog).items@, new_review.item_id@) {
            Some(i) => {
                let item = old(catalog).items@[i];
                let (sum, count) = counters_without_prior(item, old(reviews)@, new_review);
                &&& final(reviews)@ == reviews_after(old(reviews)@, new_review)
                &&& final(catalog).items@ == old(catalog).items@.update(
                    i,
                    StoreItem { rating_sum: (sum + new_review.stars) as u32, rating_count: (count + 1) as u32, ..item },
                )
            },
            None => final(reviews)@ == old(reviews)@ && final(catalog).items@ == old(catalog).items@,
        },
{
    let idx = match find_item(&catalog.items, new_review.item_id.as_str()) {
        Some(i) => i,
        None => return false,
    };
    let mut item = catalog.items.remove(idx);
    let ghost removed_items = catalog.items@;
    match find_prior(reviews, &new_review) {
        Some(p) => {
            let old_review = reviews.remove(p);
            item.rating_sum = item.rating_sum.saturating_sub(old_review.stars as u32);
            item.rating_count = item.rating_count.saturating_sub(1);
        },
        None => {},
    }
    item.rating_sum = item.rating_sum + new_review.stars as u32;
    item.rating_count = item.rating_count + 1;
    catalog.items.insert(idx, item);
    assert(catalog.items@ =~= old(catalog).items@.update(idx as int, catalog.items@[idx as int]));
    reviews.push(new_review);
    true
}

} // verus!
