//! Market data and entries: what an event of the feed leads to, and what becomes of the entries
//! that the engine wants.
use vstd::prelude::*;
use vstd::string::*;

use crate::decimal::Decimal;
use crate::exit_reasons;
use crate::exits;
use crate::limits;
use crate::model;
use crate::model::{
    CoreError, OpenPosition, OrderRequest, OrderRequestModel, TrackedOrder, TrackedOrderModel,
};
use crate::orders;
use crate::rejections;
use crate::service;
use crate::service::{
    Book, Core, CoreModel, CoreStats, OrderBookModel, StrategyAccounting, StrategyAccountingModel,
    StrategyExitIntent,
};
use crate::text;

verus! {

/// A market of the round.
#[derive(Debug)]
pub struct CryptoMarket {
    pub asset: String,
    pub up_token_id: String,
    pub down_token_id: String,
    pub up_price: Decimal,
    pub down_price: Decimal,
}

/// What a market says.
pub struct CryptoMarketModel {
    pub asset: Seq<char>,
    pub up_token_id: Seq<char>,
    pub down_token_id: Seq<char>,
    pub up_price: Decimal,
    pub down_price: Decimal,
}

impl View for CryptoMarket {
    type V = CryptoMarketModel;

    open spec fn view(&self) -> CryptoMarketModel {
        CryptoMarketModel {
            asset: self.asset@,
            up_token_id: self.up_token_id@,
            down_token_id: self.down_token_id@,
            up_price: self.up_price,
            down_price: self.down_price,
        }
    }
}

impl Clone for CryptoMarket {
    fn clone(&self) -> (r: Self)
        ensures
            r@ == self@,
    {
        CryptoMarket {
            asset: self.asset.clone(),
            up_token_id: self.up_token_id.clone(),
            down_token_id: self.down_token_id.clone(),
            up_price: self.up_price,
            down_price: self.down_price,
        }
    }
}

/// A copy of a list.
pub fn clone_crypto_markets(v: &Vec<CryptoMarket>) -> (r: Vec<CryptoMarket>)
    ensures
        r@.map_values(|x: CryptoMarket| x@) == v@.map_values(|x: CryptoMarket| x@),
{
    let mut out: Vec<CryptoMarket> = Vec::new();
    let mut i: usize = 0;
    while i < v.len()
        invariant
            i <= v@.len(),
            out@.len() == i,
            forall|j: int| 0 <= j < i ==> (#[trigger] out@[j])@ == v@[j]@,
        decreases v@.len() - i,
    {
        out.push(v[i].clone());
        i = i + 1;
    }
    assert(out@.map_values(|x: CryptoMarket| x@) =~= v@.map_values(|x: CryptoMarket| x@));
    out
}

/// An event of the market data.
#[derive(Debug)]
pub enum DataEvent {
    /// The whole book of a token.
    Book {
        token_id: String,
        bids: Vec<(Decimal, Decimal)>,
        asks: Vec<(Decimal, Decimal)>,
        now_ms: i64,
    },
    /// The best prices of a token.
    TopOfBook {
        token_id: String,
        best_bid: Option<Decimal>,
        best_ask: Option<Decimal>,
        now_ms: i64,
    },
    /// The spot price of an asset.
    Spot { asset: String, price: Decimal, now_ms: i64 },
    /// The markets of a new round.
    RoundMarkets { markets: Vec<CryptoMarket>, now_ms: i64 },
}

/// What an event of the market data says.
pub enum DataEventModel {
    Book {
        token_id: Seq<char>,
        bids: Seq<(Decimal, Decimal)>,
        asks: Seq<(Decimal, Decimal)>,
        now_ms: i64,
    },
    TopOfBook {
        token_id: Seq<char>,
        best_bid: Option<Decimal>,
        best_ask: Option<Decimal>,
        now_ms: i64,
    },
    Spot { asset: Seq<char>, price: Decimal, now_ms: i64 },
    RoundMarkets { markets: Seq<CryptoMarketModel>, now_ms: i64 },
}

impl View for DataEvent {
    type V = DataEventModel;

    open spec fn view(&self) -> DataEventModel {
        match self {
            DataEvent::Book { token_id, bids, asks, now_ms } => DataEventModel::Book {
                token_id: token_id@,
                bids: bids@,
                asks: asks@,
                now_ms: *now_ms,
            },
            DataEvent::TopOfBook {
                token_id,
                best_bid,
                best_ask,
                now_ms,
            } => DataEventModel::TopOfBook {
                token_id: token_id@,
                best_bid: *best_bid,
                best_ask: *best_ask,
                now_ms: *now_ms,
            },
            DataEvent::Spot { asset, price, now_ms } => DataEventModel::Spot {
                asset: asset@,
                price: *price,
                now_ms: *now_ms,
            },
            DataEvent::RoundMarkets { markets, now_ms } => DataEventModel::RoundMarkets {
                markets: markets@.map_values(|v: CryptoMarket| v@),
                now_ms: *now_ms,
            },
        }
    }
}

impl Clone for DataEvent {
    fn clone(&self) -> (r: Self)
        ensures
            r@ == self@,
    {
        match self {
            DataEvent::Book { token_id, bids, asks, now_ms } => DataEvent::Book {
                token_id: token_id.clone(),
                bids: model::clone_levels(bids),
                asks: model::clone_levels(asks),
                now_ms: *now_ms,
            },
            DataEvent::TopOfBook { token_id, best_bid, best_ask, now_ms } => DataEvent::TopOfBook {
                token_id: token_id.clone(),
                best_bid: *best_bid,
                best_ask: *best_ask,
                now_ms: *now_ms,
            },
            DataEvent::Spot { asset, price, now_ms } => DataEvent::Spot {
                asset: asset.clone(),
                price: *price,
                now_ms: *now_ms,
            },
            DataEvent::RoundMarkets { markets, now_ms } => DataEvent::RoundMarkets {
                markets: clone_crypto_markets(markets),
                now_ms: *now_ms,
            },
        }
    }
}

// ---------------------------------------------------------------------------------------------
// Market data

/// The instant that an event is archived under: its own, or the receiver's where it has none.
pub open spec fn archived_at(own_ms: i64, now_ms: i64) -> i64 {
    if own_ms > 0 {
        own_ms
    } else {
        now_ms
    }
}

/// Picks the instant that an event is archived under.
pub fn archive_stamp(own_ms: i64, now_ms: i64) -> (r: i64)
    ensures
        r == archived_at(own_ms, now_ms),
{
    if own_ms > 0 {
        own_ms
    } else {
        now_ms
    }
}

/// One share.
pub open spec fn one() -> Decimal {
    Decimal::of((1, 0))
}

/// One level of a book from a best price; a price that is none gives no level.
pub open spec fn top_level(best: Option<Decimal>) -> Seq<(Decimal, Decimal)> {
    match best {
        Some(p) => if p@ > 0 {
            seq![(p, one())]
        } else {
            Seq::empty()
        },
        None => Seq::empty(),
    }
}

fn level_of(best: Option<Decimal>) -> (r: Vec<(Decimal, Decimal)>)
    ensures
        r@ == top_level(best),
{
    let mut out: Vec<(Decimal, Decimal)> = Vec::new();
    if let Some(p) = best {
        if p.is_positive() {
            out.push((p, Decimal::new(1, 0)));
        }
    }
    assert(out@ =~= top_level(best));
    out
}

/// The book that an event brings, with its token. Best prices without a side bring none: they must
/// not wipe a whole book out.
pub open spec fn mirrored(ev: DataEventModel) -> Option<(Seq<char>, OrderBookModel)> {
    match ev {
        DataEventModel::Book { token_id, bids, asks, now_ms } => Some(
            (token_id, (OrderBookModel { bids, asks })),
        ),
        DataEventModel::TopOfBook { token_id, best_bid, best_ask, now_ms } => {
            let bids = top_level(best_bid);
            let asks = top_level(best_ask);
            if bids.len() > 0 || asks.len() > 0 {
                Some((token_id, (OrderBookModel { bids, asks })))
            } else {
                None
            }
        },
        _ => None,
    }
}

/// The counters after an event.
pub open spec fn event_counted(s: CoreStats, ev: DataEventModel) -> CoreStats {
    match ev {
        DataEventModel::Book { .. } => CoreStats { books: (s.books + 1) as u64, ..s },
        DataEventModel::TopOfBook { .. } => CoreStats { tops: (s.tops + 1) as u64, ..s },
        DataEventModel::Spot { .. } => CoreStats { spots: (s.spots + 1) as u64, ..s },
        DataEventModel::RoundMarkets { .. } => CoreStats { rounds: (s.rounds + 1) as u64, ..s },
    }
}

/// A kernel that has taken an event in. A new round is when a close that waits for a position that
/// is gone can belong to nothing any more.
pub open spec fn data_taken(m: CoreModel, ev: DataEventModel, open_tokens: Seq<Seq<char>>) -> CoreModel {
    CoreModel {
        stats: event_counted(m.stats, ev),
        exit_reasons: if ev is RoundMarkets {
            exit_reasons::sweep_step(m.exit_reasons, open_tokens)
        } else {
            m.exit_reasons
        },
        books: match mirrored(ev) {
            Some(b) => m.books.insert(b.0, b.1),
            None => m.books,
        },
        ..m
    }
}

/// The resting orders that an event may fill: those on the book that it brings, where the kernel
/// fills by itself.
pub open spec fn hit_by(m: CoreModel, ev: DataEventModel, orders: Seq<TrackedOrderModel>) -> Seq<
    Seq<char>,
> {
    match mirrored(ev) {
        Some(b) => if m.config.mode.is_local() {
            orders::resting_on(orders, b.0)
        } else {
            Seq::empty()
        },
        None => Seq::empty(),
    }
}

/// What the shadow evolution is shown of an event, after the engine has seen it.
#[derive(Debug)]
pub enum ShadowFeed {
    Nothing,
    /// The book of a token.
    Tick { token_id: String, now_ms: i64 },
    /// The tokens of a new round.
    Round { tokens: Vec<String>, now_ms: i64 },
}

/// The tokens of markets, the upper one of each first.
pub open spec fn round_tokens(markets: Seq<CryptoMarketModel>) -> Seq<Seq<char>>
    decreases markets.len(),
{
    if markets.len() == 0 {
        Seq::empty()
    } else {
        round_tokens(markets.drop_last()).push(markets.last().up_token_id).push(
            markets.last().down_token_id,
        )
    }
}

fn collect_tokens(markets: &Vec<CryptoMarket>) -> (r: Vec<String>)
    ensures
        model::texts(r@) == round_tokens(markets@.map_values(|v: CryptoMarket| v@)),
{
    let ghost all = markets@.map_values(|v: CryptoMarket| v@);
    let mut out: Vec<String> = Vec::new();
    let mut i: usize = 0;
    proof {
        assert(all.take(0) =~= Seq::empty());
        assert(model::texts(out@) =~= Seq::empty());
    }
    while i < markets.len()
        invariant
            i <= markets@.len(),
            all == markets@.map_values(|v: CryptoMarket| v@),
            model::texts(out@) == round_tokens(all.take(i as int)),
        decreases markets@.len() - i,
    {
        let ghost before = model::texts(out@);
        let k = &markets[i];
        proof {
            assert(all.take(i + 1).drop_last() =~= all.take(i as int));
            assert(all.take(i + 1).last() == k@);
        }
        out.push(k.up_token_id.clone());
        out.push(k.down_token_id.clone());
        assert(model::texts(out@) =~= before.push(k@.up_token_id).push(k@.down_token_id));
        i = i + 1;
    }
    assert(all.take(i as int) =~= all);
    out
}

/// Picks what the shadow evolution is shown of an event; nothing while it is off.
pub fn shadow_feed(ev: &DataEvent, enabled: bool) -> (r: ShadowFeed)
    ensures
        if !enabled {
            r is Nothing
        } else {
            match ev@ {
                DataEventModel::Book { token_id, bids, asks, now_ms } => {
                    &&& r matches ShadowFeed::Tick { token_id: t, now_ms: n }
                    &&& t@ == token_id
                    &&& n == now_ms
                },
                DataEventModel::TopOfBook { token_id, best_bid, best_ask, now_ms } => {
                    &&& r matches ShadowFeed::Tick { token_id: t, now_ms: n }
                    &&& t@ == token_id
                    &&& n == now_ms
                },
                DataEventModel::Spot { .. } => r is Nothing,
                DataEventModel::RoundMarkets { markets, now_ms } => {
                    &&& r matches ShadowFeed::Round { tokens, now_ms: n }
                    &&& model::texts(tokens@) == round_tokens(markets)
                    &&& n == now_ms
                },
            }
        },
{
    if !enabled {
        return ShadowFeed::Nothing;
    }
    match ev {
        DataEvent::Book { token_id, bids, asks, now_ms } => ShadowFeed::Tick {
            token_id: token_id.clone(),
            now_ms: *now_ms,
        },
        DataEvent::TopOfBook { token_id, best_bid, best_ask, now_ms } => ShadowFeed::Tick {
            token_id: token_id.clone(),
            now_ms: *now_ms,
        },
        DataEvent::Spot { asset, price, now_ms } => ShadowFeed::Nothing,
        DataEvent::RoundMarkets { markets, now_ms } => ShadowFeed::Round {
            tokens: collect_tokens(markets),
            now_ms: *now_ms,
        },
    }
}

impl Core {
    /// Takes an event of the feed in: counts it, mirrors its book, and lists the resting orders
    /// that it may fill.
    pub fn engine_on_data(
        &mut self,
        ev: &DataEvent,
        orders: &Vec<TrackedOrder>,
        open_tokens: &Vec<String>,
    ) -> (r: Vec<String>)
        requires
            old(self).wf(),
            old(self)@.stats.books < u64::MAX,
            old(self)@.stats.tops < u64::MAX,
            old(self)@.stats.spots < u64::MAX,
            old(self)@.stats.rounds < u64::MAX,
            old(self)@.exit_reasons.swept + old(self)@.exit_reasons.entries.len() <= u64::MAX,
        ensures
            final(self).wf(),
            final(self)@ == data_taken(old(self)@, ev@, model::texts(open_tokens@)),
            model::texts(r@) == hit_by(old(self)@, ev@, exits::orders_model(orders@)),
    {
        let none: Vec<String> = Vec::new();
        assert(model::texts(none@) =~= Seq::empty());
        match ev {
            DataEvent::Book { token_id, bids, asks, now_ms } => {
                self.stats.books = self.stats.books + 1;
                self.books.insert(
                    token_id.clone(),
                    Book { bids: model::clone_levels(bids), asks: model::clone_levels(asks) },
                );
                if self.config.mode.settles_locally() {
                    orders::resting_order_ids(orders, token_id.as_str())
                } else {
                    none
                }
            },
            DataEvent::TopOfBook { token_id, best_bid, best_ask, now_ms } => {
                self.stats.tops = self.stats.tops + 1;
                let bids = level_of(*best_bid);
                let asks = level_of(*best_ask);
                if bids.len() == 0 && asks.len() == 0 {
                    return none;
                }
                self.books.insert(token_id.clone(), Book { bids, asks });
                if self.config.mode.settles_locally() {
                    orders::resting_order_ids(orders, token_id.as_str())
                } else {
                    none
                }
            },
            DataEvent::Spot { asset, price, now_ms } => {
                self.stats.spots = self.stats.spots + 1;
                none
            },
            DataEvent::RoundMarkets { markets, now_ms } => {
                self.stats.rounds = self.stats.rounds + 1;
                self.exit_reasons.sweep_exit_reasons(open_tokens);
                none
            },
        }
    }
}

/// A book is known after the event that brought it, and an event without a book changes none.
pub proof fn law_the_latest_book_is_mirrored(
    m: CoreModel,
    ev: DataEventModel,
    open_tokens: Seq<Seq<char>>,
    token: Seq<char>,
)
    ensures
        match mirrored(ev) {
            Some(b) => data_taken(m, ev, open_tokens).books.dom().contains(b.0) && data_taken(
                m,
                ev,
                open_tokens,
            ).books[b.0] == b.1 && (token != b.0 && m.books.dom().contains(token) ==> data_taken(
                m,
                ev,
                open_tokens,
            ).books[token] == m.books[token]),
            None => data_taken(m, ev, open_tokens).books == m.books,
        },
{
}

// ---------------------------------------------------------------------------------------------
// Entries

/// The bucket of an entry that a cap refused, by the reason that was given.
pub open spec fn limit_bucket(why: Seq<char>) -> Seq<char> {
    if text::occurs(why, "position cap"@) {
        "limit.positionCap"@
    } else if text::occurs(why, "notional cap"@) {
        "limit.notionalCap"@
    } else {
        "limit.other"@
    }
}

/// Why a cap refuses an entry, with the bucket that it is counted in: the cap on all strategies
/// together comes before the strategy's own.
pub open spec fn limit_refusal(
    m: CoreModel,
    q: OrderRequestModel,
    positions: Seq<OpenPosition>,
) -> Option<(Seq<char>, Seq<char>)> {
    match limits::portfolio_refusal(m.config.risk.max_open_notional_usd, positions, q) {
        Some(why) => Some(("limit.portfolioNotionalCap"@, why)),
        None => if m.config.strategy_limits.dom().contains(q.strategy) {
            match limits::strategy_refusal(m.config.strategy_limits[q.strategy], positions, q) {
                Some(why) => Some((limit_bucket(why), why)),
                None => None,
            }
        } else {
            None
        },
    }
}

/// What is computed of an entry's limits stays in range.
pub open spec fn limits_ok(
    m: CoreModel,
    q: OrderRequestModel,
    positions: Seq<OpenPosition>,
) -> bool {
    &&& m.config.risk.max_open_notional_usd@ > 0 ==> limits::exposure_ok(
        limits::costs(positions),
        q,
    )
    &&& m.config.strategy_limits.dom().contains(q.strategy)
        && m.config.strategy_limits[q.strategy].max_open_notional_usd is Some
        ==> limits::exposure_ok(limits::costs(limits::held_by(positions, q.strategy)), q)
}

/// A kernel that has counted an entry that a cap refused.
pub open spec fn limit_counted(m: CoreModel, strategy: Seq<char>, bucket: Seq<char>) -> CoreModel {
    let a = service::accounting_of(m, strategy);
    CoreModel {
        stats: CoreStats {
            strategy_limit_rejected: (m.stats.strategy_limit_rejected + 1) as u64,
            ..m.stats
        },
        strategy_accounting: m.strategy_accounting.insert(
            strategy,
            StrategyAccountingModel {
                limit_rejected: (a.limit_rejected + 1) as u64,
                rejection_causes: service::cause_counted(a.rejection_causes, bucket),
                ..a
            },
        ),
        ..m
    }
}

/// A kernel that has counted an entry that was placed.
pub open spec fn placed_counted(m: CoreModel, strategy: Seq<char>) -> CoreModel {
    let a = service::accounting_of(m, strategy);
    CoreModel {
        strategy_accounting: m.strategy_accounting.insert(
            strategy,
            StrategyAccountingModel { placed: (a.placed + 1) as u64, ..a },
        ),
        ..m
    }
}

/// A kernel that has counted an entry that was refused on its way to the order layer.
pub open spec fn entry_refusal_counted(m: CoreModel, strategy: Seq<char>, bucket: Seq<char>) -> CoreModel {
    let a = service::accounting_of(m, strategy);
    CoreModel {
        stats: CoreStats { place_rejected: (m.stats.place_rejected + 1) as u64, ..m.stats },
        strategy_accounting: m.strategy_accounting.insert(
            strategy,
            StrategyAccountingModel {
                rejected: (a.rejected + 1) as u64,
                rejection_causes: service::cause_counted(a.rejection_causes, bucket),
                ..a
            },
        ),
        ..m
    }
}

/// The counters of entries have room.
pub open spec fn counters_ok(m: CoreModel, strategy: Seq<char>) -> bool {
    let a = service::accounting_of(m, strategy);
    &&& m.stats.strategy_limit_rejected < u64::MAX
    &&& m.stats.place_rejected < u64::MAX
    &&& a.limit_rejected < u64::MAX
    &&& a.placed < u64::MAX
    &&& a.rejected < u64::MAX
    &&& forall|cause: Seq<char>| #[trigger]
        a.rejection_causes.dom().contains(cause) ==> a.rejection_causes[cause] < u64::MAX
}

impl Core {
    fn take_accounting(&mut self, strategy: &str) -> (r: StrategyAccounting)
        requires
            old(self).wf(),
        ensures
            final(self).wf(),
            r@ == service::accounting_of(old(self)@, strategy@),
            final(self)@ == (CoreModel {
                strategy_accounting: old(self)@.strategy_accounting.remove(strategy@),
                ..old(self)@
            }),
    {
        let ghost m = self@;
        let a = match self.strategy_accounting.remove(strategy) {
            Some(a) => a,
            None => StrategyAccounting::new(),
        };
        assert(self@.strategy_accounting =~= m.strategy_accounting.remove(strategy@));
        a
    }

    /// Begins an evaluation of the engine, which has produced wishes to close and some entries. Each
    /// entry is then held against the caps and placed.
    pub fn engine_evaluate(&mut self, intents: Vec<StrategyExitIntent>, entries: usize)
        requires
            old(self).wf(),
            old(self)@.stats.evaluations < u64::MAX,
            old(self)@.stats.signals + entries <= u64::MAX,
        ensures
            final(self).wf(),
            final(self)@ == (CoreModel {
                stats: (CoreStats {
                    evaluations: (old(self)@.stats.evaluations + 1) as u64,
                    signals: (old(self)@.stats.signals + entries) as u64,
                    ..old(self)@.stats
                }),
                strategy_exits: old(self)@.strategy_exits + intents@.map_values(
                    |v: StrategyExitIntent| v@,
                ),
                ..old(self)@
            }),
    {
        let ghost m = self@;
        self.stats.evaluations = self.stats.evaluations + 1;
        self.stats.signals = self.stats.signals + entries as u64;
        let mut more = intents;
        self.strategy_exits.append(&mut more);
        assert(self@.strategy_exits =~= m.strategy_exits + intents@.map_values(
            |v: StrategyExitIntent| v@,
        ));
    }

    /// Holds an entry against the caps. A refusal is counted for the entry's strategy; it comes
    /// with its reason.
    pub fn admit_entry(&mut self, req: &OrderRequest, positions: &Vec<OpenPosition>) -> (r: Result<
        (),
        String,
    >)
        requires
            old(self).wf(),
            limits_ok(old(self)@, req@, positions@),
            counters_ok(old(self)@, req@.strategy),
        ensures
            final(self).wf(),
            match limit_refusal(old(self)@, req@, positions@) {
                None => r is Ok && final(self)@ == old(self)@,
                Some(x) => {
                    &&& r matches Err(why)
                    &&& why@ == x.1
                    &&& final(self)@ == limit_counted(old(self)@, req@.strategy, x.0)
                },
            },
    {
        if let Err(why) = limits::portfolio_limit_ok(
            self.config.risk.max_open_notional_usd,
            positions,
            req,
        ) {
            self.count_limit(req.strategy.as_str(), "limit.portfolioNotionalCap");
            return Err(why);
        }
        let verdict = match self.config.strategy_limits.get(req.strategy.as_str()) {
            Some(limit) => limits::strategy_limit_ok(limit, positions, req),
            None => Ok(()),
        };
        if let Err(why) = verdict {
            let bucket = if text::contains(why.as_str(), "position cap") {
                "limit.positionCap"
            } else if text::contains(why.as_str(), "notional cap") {
                "limit.notionalCap"
            } else {
                "limit.other"
            };
            self.count_limit(req.strategy.as_str(), bucket);
            return Err(why);
        }
        Ok(())
    }

    fn count_limit(&mut self, strategy: &str, bucket: &str)
        requires
            old(self).wf(),
            counters_ok(old(self)@, strategy@),
        ensures
            final(self).wf(),
            final(self)@ == limit_counted(old(self)@, strategy@, bucket@),
    {
        let ghost m = self@;
        self.stats.strategy_limit_rejected = self.stats.strategy_limit_rejected + 1;
        let mut a = self.take_accounting(strategy);
        a.limit_rejected = a.limit_rejected + 1;
        service::count_cause(&mut a.rejection_causes, bucket.to_owned());
        let ghost after = a@;
        self.strategy_accounting.insert(strategy.to_owned(), a);
        assert(self@.strategy_accounting =~= m.strategy_accounting.insert(strategy@, after));
    }

    /// Counts an entry that was placed.
    pub fn entry_placed(&mut self, strategy: &str)
        requires
            old(self).wf(),
            counters_ok(old(self)@, strategy@),
        ensures
            final(self).wf(),
            final(self)@ == placed_counted(old(self)@, strategy@),
    {
        let ghost m = self@;
        let mut a = self.take_accounting(strategy);
        a.placed = a.placed + 1;
        let ghost after = a@;
        self.strategy_accounting.insert(strategy.to_owned(), a);
        assert(self@.strategy_accounting =~= m.strategy_accounting.insert(strategy@, after));
    }

    /// Counts an entry that was refused when it was placed, under the cause of the refusal.
    pub fn entry_refused(&mut self, strategy: &str, err: &CoreError)
        requires
            old(self).wf(),
            counters_ok(old(self)@, strategy@),
        ensures
            final(self).wf(),
            final(self)@ == entry_refusal_counted(
                old(self)@,
                strategy@,
                rejections::rejection_label(err.message@),
            ),
    {
        let ghost m = self@;
        self.stats.place_rejected = self.stats.place_rejected + 1;
        let bucket = rejections::classify_rejection(err);
        let mut a = self.take_accounting(strategy);
        a.rejected = a.rejected + 1;
        service::count_cause(&mut a.rejection_causes, bucket);
        let ghost after = a@;
        self.strategy_accounting.insert(strategy.to_owned(), a);
        assert(self@.strategy_accounting =~= m.strategy_accounting.insert(strategy@, after));
    }
}

/// What becomes of an entry is counted for its own strategy alone.
pub proof fn law_an_entry_is_counted_for_its_strategy(
    m: CoreModel,
    strategy: Seq<char>,
    other: Seq<char>,
    bucket: Seq<char>,
)
    requires
        strategy != other,
    ensures
        service::accounting_of(limit_counted(m, strategy, bucket), other)
            == service::accounting_of(m, other),
        service::accounting_of(placed_counted(m, strategy), other) == service::accounting_of(
            m,
            other,
        ),
        service::accounting_of(entry_refusal_counted(m, strategy, bucket), other)
            == service::accounting_of(m, other),
{
}

/// Without caps no entry is refused by one.
pub proof fn law_without_caps_no_entry_is_capped(
    m: CoreModel,
    q: OrderRequestModel,
    positions: Seq<OpenPosition>,
)
    requires
        m.config.risk.max_open_notional_usd@ <= 0,
        !m.config.strategy_limits.dom().contains(q.strategy),
    ensures
        limit_refusal(m, q, positions) is None,
{
}

// ---------------------------------------------------------------------------------------------
// Asking beforehand

impl Core {
    /// Holds an entry against the caps, where the exposure that they look at stays in range; else
    /// nothing changes.
    pub fn checked_admit_entry(&mut self, req: &OrderRequest, positions: &Vec<OpenPosition>) -> (r:
        Option<Result<(), String>>)
        requires
            old(self).wf(),
            counters_ok(old(self)@, req@.strategy),
        ensures
            final(self).wf(),
            match r {
                None => !limits_ok(old(self)@, req@, positions@) && final(self)@ == old(self)@,
                Some(verdict) => match limit_refusal(old(self)@, req@, positions@) {
                    None => verdict is Ok && final(self)@ == old(self)@,
                    Some(x) => {
                        &&& verdict matches Err(why)
                        &&& why@ == x.1
                        &&& final(self)@ == limit_counted(old(self)@, req@.strategy, x.0)
                    },
                },
            },
    {
        let fits = limits::portfolio_fits(self.config.risk.max_open_notional_usd, positions, req)
            && match self.config.strategy_limits.get(req.strategy.as_str()) {
            Some(limit) => limits::strategy_fits(limit, positions, req),
            None => true,
        };
        if fits {
            Some(self.admit_entry(req, positions))
        } else {
            None
        }
    }
}

} // verus!
