use crate::engine::wide::{
    pow256, basis_point_share, saturating_difference, saturating_sum, U256,
};
use vstd::prelude::*;

verus! {

/// The type of order identifiers.
pub type OrderID = u64;

/// The type of prices: a 256-bit unsigned integer.
pub type Price = U256;

/// The type of quantities: a 256-bit unsigned integer.
pub type Quantity = U256;

/// The scalar by which the book orders the entries of one price level.
pub type Priority = u64;

/// The direction of an order.
#[derive(PartialEq, Eq, Copy, Clone, Debug, Structural)]
pub enum Side {
    /// The user wants to acquire the asset.
    Buy,
    /// The user wants to give the asset away.
    Sell,
}

impl Side {
    /// The side an order of this side trades against.
    pub fn opposite(self) -> (r: Side)
        ensures
            r == self.spec_opposite(),
    {
        match self {
            Side::Buy => Side::Sell,
            Side::Sell => Side::Buy,
        }
    }

    /// `opposite`, in specifications.
    pub open spec fn spec_opposite(self) -> Side {
        match self {
            Side::Buy => Side::Sell,
            Side::Sell => Side::Buy,
        }
    }
}

impl Default for Side {
    fn default() -> (r: Side)
        ensures
            r == Side::Buy,
    {
        Side::Buy
    }
}

/// How an order is executed.
#[derive(PartialEq, Eq, Copy, Clone, Debug, Structural)]
pub enum OrderType {
    /// A limit order names its worst price and may rest in the book.
    Limit,
    /// A market order names no price and is filled at once or not at all.
    Market,
}

impl Default for OrderType {
    fn default() -> (r: OrderType)
        ensures
            r == OrderType::Limit,
    {
        OrderType::Limit
    }
}

/// Where an order stands in its life.
#[derive(PartialEq, Eq, Clone, Copy, Debug, Structural)]
pub enum OrderStatus {
    /// Received, not yet in a book.
    Pending,
    /// Resting in a book, open to matching.
    Placed,
    /// Filled in full.
    Filled,
    /// Filled in part, with a remainder.
    PartiallyFilled,
    /// Cancelled before it was filled in full.
    Cancelled,
    /// Rejected.
    Rejected,
    /// Expired by its time in force.
    Expired,
}

impl Default for OrderStatus {
    fn default() -> (r: OrderStatus)
        ensures
            r == OrderStatus::Pending,
    {
        OrderStatus::Pending
    }
}

/// The claim token of an order. The matcher and the cancelling side take
/// turns on an order by moving this state:
/// `Active` to `Matched` (the matcher claims), `Matched` to `Active` (the
/// matcher releases after a partial fill), `Matched` to `Finished` (the
/// matcher completes), `Active` to `Finished` (a cancel or an update takes
/// the order out). `Finished` is final.
#[derive(PartialEq, Eq, Clone, Copy, Debug, Structural)]
pub enum OrderLifecycle {
    /// Live: may be matched or cancelled.
    Active,
    /// Claimed by the matcher: may not be cancelled.
    Matched,
    /// Done: no longer part of the book.
    Finished,
}

impl Default for OrderLifecycle {
    fn default() -> (r: OrderLifecycle)
        ensures
            r == OrderLifecycle::Active,
    {
        OrderLifecycle::Active
    }
}

impl OrderLifecycle {
    /// The number that stands for a state: 0, 1 and 2 in the order of the
    /// variants.
    pub open spec fn spec_to_u8(self) -> u8 {
        match self {
            OrderLifecycle::Active => 0,
            OrderLifecycle::Matched => 1,
            OrderLifecycle::Finished => 2,
        }
    }

    /// The state that `val` stands for.
    pub fn from_u8(val: u8) -> (r: OrderLifecycle)
        requires
            val <= 2,
        ensures
            r.spec_to_u8() == val,
    {
        if val == 0 {
            OrderLifecycle::Active
        } else if val == 1 {
            OrderLifecycle::Matched
        } else {
            OrderLifecycle::Finished
        }
    }

    /// The number that stands for the state.
    pub fn to_u8(self) -> (r: u8)
        ensures
            r == self.spec_to_u8(),
    {
        match self {
            OrderLifecycle::Active => 0,
            OrderLifecycle::Matched => 1,
            OrderLifecycle::Finished => 2,
        }
    }
}

/// Why an order was cancelled.
#[derive(PartialEq, Eq, Clone, Copy, Debug, Structural)]
pub enum CancelReason {
    /// The user asked for it.
    UserRequest,
    /// Its time in force ran out.
    TimeInForceExpired,
}

impl Default for CancelReason {
    fn default() -> (r: CancelReason)
        ensures
            r == CancelReason::UserRequest,
    {
        CancelReason::UserRequest
    }
}

/// Why an order was rejected.
#[derive(PartialEq, Eq, Clone, Copy, Debug, Structural)]
pub enum RejectReason {
    /// Another order already holds the same place in the book.
    TimestampConflict,
    /// A market order found too little on the other side.
    InsufficientLiquidity,
}

impl Default for RejectReason {
    fn default() -> (r: RejectReason)
        ensures
            r == RejectReason::TimestampConflict,
    {
        RejectReason::TimestampConflict
    }
}

/// How eagerly an order is matched.
#[derive(PartialEq, Eq, Copy, Clone, Debug, Structural)]
pub enum MatchStrategy {
    /// Fill what crosses and rest with the remainder.
    Standard,
    /// Fill in full at once, or not at all.
    FillOrKill,
    /// Fill what can be filled at once and drop the remainder.
    ImmediateOrCancel,
}

impl Default for MatchStrategy {
    fn default() -> (r: MatchStrategy)
        ensures
            r == MatchStrategy::Standard,
    {
        MatchStrategy::Standard
    }
}

/// Whether an order may take liquidity or must provide it.
#[derive(PartialEq, Eq, Copy, Clone, Debug, Structural)]
pub enum LiquidityDirective {
    /// The order may match against resting orders.
    AllowTaker,
    /// The order only provides liquidity.
    MakerOnly,
    /// The order only takes liquidity.
    TakerOnly,
}

impl Default for LiquidityDirective {
    fn default() -> (r: LiquidityDirective)
        ensures
            r == LiquidityDirective::AllowTaker,
    {
        LiquidityDirective::AllowTaker
    }
}

/// How long an order stays in the book.
#[derive(PartialEq, Eq, Copy, Clone, Debug, Structural)]
pub enum TimeInForce {
    /// The order is executed at once and does not rest.
    Immediate,
    /// The order rests until it is filled or cancelled.
    GoodTillCancelled,
    /// The order rests until the given time, in microseconds.
    GoodTillDate(u64),
}

impl Default for TimeInForce {
    fn default() -> (r: TimeInForce)
        ensures
            r == TimeInForce::Immediate,
    {
        TimeInForce::Immediate
    }
}

/// The largest price deviation an order accepts, in basis points
/// (100 basis points are one percent).
#[derive(PartialEq, Eq, Clone, Copy, Debug, Structural)]
pub struct SlippageTolerance(pub u32);

/// The largest slippage tolerance that passes validation, in basis points:
/// 50 percent.
pub const MAX_ALLOWED_SLIPPAGE_TOLERANCE: u32 = 5000;

/// Why an order's parameters do not fit together.
#[derive(PartialEq, Eq, Clone, Copy, Debug, Structural)]
pub enum OrderValidationError {
    /// The match strategy does not fit the order type.
    InvalidMatchStrategy,
    /// The time in force does not fit the order type.
    InvalidTimeInForce,
    /// The liquidity directive does not fit the order type.
    InvalidLiquidityDirective,
    /// A limit order carries a slippage tolerance.
    SlippageNotApplicable,
    /// The slippage tolerance is above the maximum.
    SlippageExceedsMaximum,
}

/// The part an order played in a trade.
#[derive(PartialEq, Eq, Clone, Copy, Debug, Structural)]
pub enum TradeRole {
    /// The order was resting and provided liquidity.
    Maker,
    /// The order crossed the book and took liquidity.
    Taker,
}

impl Default for TradeRole {
    fn default() -> (r: TradeRole)
        ensures
            r == TradeRole::Maker,
    {
        TradeRole::Maker
    }
}

/// The place of an order in its side of the book: price, then priority.
///
/// On the buy side the higher price comes first, on the sell side the lower
/// one; within one price the lower priority, which is the earlier order,
/// comes first.
#[derive(Debug, Clone, Copy, PartialEq, Eq, Structural)]
pub struct BookKey {
    pub price: Price,
    pub priority: Priority,
    pub side: Side,
}

/// The form in which a key is handed to an ordered collection: five words
/// that are compared one after the other, the first deciding first.
pub type SortKey = (u64, u64, u64, u64, u64);

/// The order of two sort keys: that of their first words that differ.
pub open spec fn key_lt(a: SortKey, b: SortKey) -> bool {
    a.0 < b.0 || (a.0 == b.0 && (a.1 < b.1 || (a.1 == b.1 && (a.2 < b.2 || (a.2 == b.2 && (a.3
        < b.3 || (a.3 == b.3 && a.4 < b.4)))))))
}

/// The sort key of a market order: its priority alone, behind four zero
/// words.
pub open spec fn spec_market_sort_key(priority: Priority) -> SortKey {
    (0u64, 0u64, 0u64, 0u64, priority)
}

/// The sort key of a market order.
pub fn market_sort_key(priority: Priority) -> (r: SortKey)
    ensures
        r == spec_market_sort_key(priority),
{
    (0, 0, 0, 0, priority)
}

impl BookKey {
    /// Whether `self` comes before `other` in the book of `self.side`.
    pub open spec fn comes_before(self, other: BookKey) -> bool {
        match self.side {
            Side::Buy => self.price@ > other.price@ || (self.price@ == other.price@
                && self.priority < other.priority),
            Side::Sell => self.price@ < other.price@ || (self.price@ == other.price@
                && self.priority < other.priority),
        }
    }

    /// Whether `self` comes before `other` in the book of `self.side`.
    pub fn precedes(&self, other: &BookKey) -> (r: bool)
        ensures
            r == self.comes_before(*other),
    {
        let better = match self.side {
            Side::Buy => self.price.gt(&other.price),
            Side::Sell => self.price.lt(&other.price),
        };
        proof {
            self.price.lemma_view_injective(other.price);
        }
        better || (self.price == other.price && self.priority < other.priority)
    }

    /// The sort key of a limit order: the words of the price, most
    /// significant first, then the priority. On the buy side each word of the
    /// price is taken from the largest word, so that the higher price sorts
    /// first.
    pub open spec fn spec_sort_key(self) -> SortKey {
        match self.side {
            Side::Buy => (
                (u64::MAX - self.price.w3) as u64,
                (u64::MAX - self.price.w2) as u64,
                (u64::MAX - self.price.w1) as u64,
                (u64::MAX - self.price.w0) as u64,
                self.priority,
            ),
            Side::Sell => (
                self.price.w3,
                self.price.w2,
                self.price.w1,
                self.price.w0,
                self.priority,
            ),
        }
    }

    /// The sort key of a limit order.
    pub fn sort_key(&self) -> (r: SortKey)
        ensures
            r == self.spec_sort_key(),
    {
        match self.side {
            Side::Buy => (
                u64::MAX - self.price.w3,
                u64::MAX - self.price.w2,
                u64::MAX - self.price.w1,
                u64::MAX - self.price.w0,
                self.priority,
            ),
            Side::Sell => (
                self.price.w3,
                self.price.w2,
                self.price.w1,
                self.price.w0,
                self.priority,
            ),
        }
    }

    /// On one side, the sort keys are ordered as the book keys are.
    pub proof fn lemma_sort_key_order(self, other: BookKey)
        requires
            self.side == other.side,
        ensures
            self.comes_before(other) <==> key_lt(self.spec_sort_key(), other.spec_sort_key()),
    {
        self.price.lemma_view_order(other.price);
        other.price.lemma_view_order(self.price);
        self.price.lemma_view_injective(other.price);
    }

    /// On one side, two book keys with the same sort key are the same.
    pub proof fn lemma_sort_key_injective(self, other: BookKey)
        requires
            self.side == other.side,
            self.spec_sort_key() == other.spec_sort_key(),
        ensures
            self == other,
    {
    }

    /// On one side, `comes_before` is a strict total order.
    pub proof fn lemma_total_order(self, other: BookKey, third: BookKey)
        requires
            self.side == other.side,
            other.side == third.side,
        ensures
            !self.comes_before(self),
            self.comes_before(other) && other.comes_before(third) ==> self.comes_before(third),
            self.comes_before(other) || other.comes_before(self) || self == other,
            !(self.comes_before(other) && other.comes_before(self)),
    {
        self.price.lemma_view_injective(other.price);
    }
}

/// A single order.
///
/// `id`, `user_id`, `side`, `order_type`, `match_strategy`,
/// `liquidity_directive`, `time_in_force`, `slippage_tolerance` and
/// `created_at` do not change once the order is in a book. `quantity` is what
/// remains to be filled.
#[derive(Debug, Clone, Copy, PartialEq, Eq)]
pub struct Order {
    pub id: OrderID,
    pub user_id: u64,
    pub side: Side,
    pub lifecycle: OrderLifecycle,
    pub order_type: OrderType,
    pub status: OrderStatus,
    pub match_strategy: MatchStrategy,
    pub liquidity_directive: LiquidityDirective,
    pub time_in_force: TimeInForce,
    pub price: Price,
    pub slippage_tolerance: Option<SlippageTolerance>,
    pub quantity: Quantity,
    pub filled_quantity: Quantity,
    pub cancel_reason: Option<CancelReason>,
    pub reject_reason: Option<RejectReason>,
    /// In microseconds.
    pub created_at: u64,
    /// In microseconds.
    pub updated_at: u64,
}

/// One side of a match: what one of the two orders traded.
#[derive(Clone, Copy, Debug, PartialEq, Eq)]
pub struct Trade {
    pub role: TradeRole,
    pub order_id: u64,
    pub price: Price,
    pub quantity: Quantity,
    pub created_at: u64,
}

impl Default for Trade {
    fn default() -> (r: Trade)
        ensures
            r == (Trade {
                role: TradeRole::Maker,
                order_id: 0,
                price: U256::from_nat(0),
                quantity: U256::from_nat(0),
                created_at: 0,
            }),
    {
        Trade {
            role: TradeRole::Maker,
            order_id: 0,
            price: U256::zero(),
            quantity: U256::zero(),
            created_at: 0,
        }
    }
}

impl Default for Order {
    fn default() -> (r: Order)
        ensures
            r == Order::spec_default(),
    {
        Order {
            id: 0,
            user_id: 0,
            side: Side::Buy,
            lifecycle: OrderLifecycle::Active,
            order_type: OrderType::Limit,
            status: OrderStatus::Pending,
            match_strategy: MatchStrategy::Standard,
            liquidity_directive: LiquidityDirective::AllowTaker,
            time_in_force: TimeInForce::Immediate,
            price: U256::zero(),
            slippage_tolerance: None,
            quantity: U256::zero(),
            filled_quantity: U256::zero(),
            cancel_reason: None,
            reject_reason: None,
            created_at: 0,
            updated_at: 0,
        }
    }
}

/// The priority of an order that was last changed at `updated_at` and has
/// the identifier `id`: the time first, the last two digits of the
/// identifier to part orders of one microsecond, kept to 64 bits.
pub open spec fn spec_priority_of(updated_at: u64, id: OrderID) -> Priority {
    ((updated_at * 100 + id % 100) % 0x1_0000_0000_0000_0000) as u64
}

/// The price beyond which an order of `side` with a tolerance of `bps` basis
/// points does not trade, when the best price on the other side is `price`:
/// above it by the tolerated share for a buy, below it for a sell, kept
/// within the range of a price.
pub open spec fn spec_slippage_bound(side: Side, price: nat, bps: nat) -> nat {
    let share = basis_point_share(price, bps);
    match side {
        Side::Buy => if price + share < pow256() {
            price + share
        } else {
            (pow256() - 1) as nat
        },
        Side::Sell => if share <= price {
            (price - share) as nat
        } else {
            0
        },
    }
}

impl Order {
    /// The order that `default` returns: a pending buy limit order with all
    /// numbers zero.
    pub open spec fn spec_default() -> Order {
        Order {
            id: 0,
            user_id: 0,
            side: Side::Buy,
            lifecycle: OrderLifecycle::Active,
            order_type: OrderType::Limit,
            status: OrderStatus::Pending,
            match_strategy: MatchStrategy::Standard,
            liquidity_directive: LiquidityDirective::AllowTaker,
            time_in_force: TimeInForce::Immediate,
            price: U256::from_nat(0),
            slippage_tolerance: None,
            quantity: U256::from_nat(0),
            filled_quantity: U256::from_nat(0),
            cancel_reason: None,
            reject_reason: None,
            created_at: 0,
            updated_at: 0,
        }
    }

    /// The status of the order.
    pub fn status(&self) -> (r: OrderStatus)
        ensures
            r == self.status,
    {
        self.status
    }

    /// Whether the status of the order is `Filled`.
    pub fn is_filled(&self) -> (r: bool)
        ensures
            r == (self.status == OrderStatus::Filled),
    {
        self.status == OrderStatus::Filled
    }

    /// The quantity that remains to be filled.
    pub fn quantity(&self) -> (r: Quantity)
        ensures
            r == self.quantity,
    {
        self.quantity
    }

    /// The quantity that has been filled.
    pub fn filled_quantity(&self) -> (r: Quantity)
        ensures
            r == self.filled_quantity,
    {
        self.filled_quantity
    }

    /// `priority`, in specifications.
    pub open spec fn spec_priority(self) -> Priority {
        spec_priority_of(self.updated_at, self.id)
    }

    /// The priority of the order: the earlier order has the lower one.
    pub fn priority(&self) -> (r: Priority)
        ensures
            r == self.spec_priority(),
    {
        self.updated_at.wrapping_mul(100).wrapping_add(self.id % 100)
    }

    /// `book_key`, in specifications.
    pub open spec fn spec_book_key(self) -> BookKey {
        BookKey { price: self.price, priority: self.spec_priority(), side: self.side }
    }

    /// The key of the order in the book.
    pub fn book_key(&self) -> (r: BookKey)
        ensures
            r == self.spec_book_key(),
    {
        BookKey { price: self.price, priority: self.priority(), side: self.side }
    }

    /// The order with its lifecycle set to `to`.
    pub open spec fn spec_with_lifecycle(self, to: OrderLifecycle) -> Order {
        Order { lifecycle: to, ..self }
    }

    /// The order after an attempt to move its lifecycle from `from` to `to`:
    /// moved if it was at `from`, unchanged if not.
    pub open spec fn spec_transition(self, from: OrderLifecycle, to: OrderLifecycle) -> Order {
        if self.lifecycle == from {
            self.spec_with_lifecycle(to)
        } else {
            self
        }
    }

    /// Whether the lifecycle is `Finished`.
    pub fn is_finished(&self) -> (r: bool)
        ensures
            r == (self.lifecycle == OrderLifecycle::Finished),
    {
        self.lifecycle == OrderLifecycle::Finished
    }

    /// Sets the lifecycle to `Active`, whatever it was.
    pub fn reset_lifecycle(&mut self)
        ensures
            *final(self) == old(self).spec_with_lifecycle(OrderLifecycle::Active),
    {
        self.lifecycle = OrderLifecycle::Active;
    }

    /// The matcher claims the order: `Active` to `Matched`. Returns whether
    /// the order was `Active`; if it was not, nothing changes.
    pub fn enter_matched(&mut self) -> (r: bool)
        ensures
            r == (old(self).lifecycle == OrderLifecycle::Active),
            *final(self) == old(self).spec_transition(
                OrderLifecycle::Active,
                OrderLifecycle::Matched,
            ),
    {
        if self.lifecycle == OrderLifecycle::Active {
            self.lifecycle = OrderLifecycle::Matched;
            true
        } else {
            false
        }
    }

    /// The matcher releases the order: `Matched` to `Active`. Returns
    /// whether the order was `Matched`; if it was not, nothing changes.
    pub fn exit_matched(&mut self) -> (r: bool)
        ensures
            r == (old(self).lifecycle == OrderLifecycle::Matched),
            *final(self) == old(self).spec_transition(
                OrderLifecycle::Matched,
                OrderLifecycle::Active,
            ),
    {
        if self.lifecycle == OrderLifecycle::Matched {
            self.lifecycle = OrderLifecycle::Active;
            true
        } else {
            false
        }
    }

    /// A cancel or an update takes the order out: `Active` to `Finished`.
    /// Returns whether the order was `Active`; if it was not, nothing
    /// changes.
    pub fn enter_finished_from_active(&mut self) -> (r: bool)
        ensures
            r == (old(self).lifecycle == OrderLifecycle::Active),
            *final(self) == old(self).spec_transition(
                OrderLifecycle::Active,
                OrderLifecycle::Finished,
            ),
    {
        if self.lifecycle == OrderLifecycle::Active {
            self.lifecycle = OrderLifecycle::Finished;
            true
        } else {
            false
        }
    }

    /// The matcher completes the order: `Matched` to `Finished`. Returns
    /// whether the order was `Matched`; if it was not, nothing changes.
    pub fn enter_finished_from_matched(&mut self) -> (r: bool)
        ensures
            r == (old(self).lifecycle == OrderLifecycle::Matched),
            *final(self) == old(self).spec_transition(
                OrderLifecycle::Matched,
                OrderLifecycle::Finished,
            ),
    {
        if self.lifecycle == OrderLifecycle::Matched {
            self.lifecycle = OrderLifecycle::Finished;
            true
        } else {
            false
        }
    }

    /// The order after `traded` has moved from what remains to what is
    /// filled.
    pub open spec fn spec_quantity_fill(self, traded: Quantity) -> Order {
        Order {
            quantity: self.quantity.spec_saturating_sub(traded),
            filled_quantity: self.filled_quantity.spec_saturating_add(traded),
            ..self
        }
    }

    /// Moves `traded` from what remains to what is filled, and returns what
    /// remains. What remains does not fall below zero, and what is filled
    /// does not pass the largest quantity.
    pub fn quantity_fill(&mut self, traded: Quantity) -> (r: Quantity)
        ensures
            *final(self) == old(self).spec_quantity_fill(traded),
            r == final(self).quantity,
            r@ == saturating_difference(old(self).quantity@, traded@),
            final(self).filled_quantity@ == saturating_sum(old(self).filled_quantity@, traded@),
    {
        self.quantity = self.quantity.saturating_sub(&traded);
        self.filled_quantity = self.filled_quantity.saturating_add(&traded);
        self.quantity
    }

    /// Sets the status.
    pub fn update_status(&mut self, status: OrderStatus)
        ensures
            *final(self) == (Order { status: status, ..*old(self) }),
    {
        self.status = status;
    }

    /// Records why the order was cancelled.
    pub fn update_cancel_reason(&mut self, reason: CancelReason)
        ensures
            *final(self) == (Order { cancel_reason: Some(reason), ..*old(self) }),
    {
        self.cancel_reason = Some(reason);
    }

    /// Records why the order was rejected.
    pub fn update_reject_reason(&mut self, reason: RejectReason)
        ensures
            *final(self) == (Order { reject_reason: Some(reason), ..*old(self) }),
    {
        self.reject_reason = Some(reason);
    }

    /// `slippage_bound_price`, in specifications.
    pub open spec fn spec_slippage_bound_price(self, price: Price) -> Option<Price> {
        match self.slippage_tolerance {
            None => None,
            Some(tolerance) => Some(
                match self.side {
                    Side::Buy => price.spec_saturating_add(price.spec_basis_points(tolerance.0)),
                    Side::Sell => price.spec_saturating_sub(price.spec_basis_points(tolerance.0)),
                },
            ),
        }
    }

    /// The worst price at which the order still trades, when the best price
    /// on the other side is `price`: the highest price for a buy, the lowest
    /// for a sell. `None` if the order has no slippage tolerance.
    pub fn slippage_bound_price(&self, price: Price) -> (r: Option<Price>)
        ensures
            r == self.spec_slippage_bound_price(price),
            self.slippage_tolerance is None <==> r is None,
            self.slippage_tolerance matches Some(tolerance) ==> r matches Some(bound) && bound@
                == spec_slippage_bound(self.side, price@, tolerance.0 as nat),
    {
        match self.slippage_tolerance {
            None => None,
            Some(tolerance) => {
                let share = price.basis_points(tolerance.0);
                let bound = match self.side {
                    Side::Buy => price.saturating_add(&share),
                    Side::Sell => price.saturating_sub(&share),
                };
                proof {
                    price.lemma_bounded();
                }
                Some(bound)
            },
        }
    }

    /// `validate`, in specifications. The checks are made in this order:
    /// match strategy, liquidity directive, time in force, slippage.
    pub open spec fn spec_validate(self) -> Result<(), OrderValidationError> {
        match self.order_type {
            OrderType::Limit => if self.match_strategy != MatchStrategy::Standard {
                Err(OrderValidationError::InvalidMatchStrategy)
            } else if self.liquidity_directive == LiquidityDirective::TakerOnly {
                Err(OrderValidationError::InvalidLiquidityDirective)
            } else if self.time_in_force == TimeInForce::Immediate {
                Err(OrderValidationError::InvalidTimeInForce)
            } else if self.slippage_tolerance is Some {
                Err(OrderValidationError::SlippageNotApplicable)
            } else {
                Ok(())
            },
            OrderType::Market => if self.match_strategy == MatchStrategy::Standard {
                Err(OrderValidationError::InvalidMatchStrategy)
            } else if self.liquidity_directive == LiquidityDirective::MakerOnly {
                Err(OrderValidationError::InvalidLiquidityDirective)
            } else if self.time_in_force != TimeInForce::Immediate {
                Err(OrderValidationError::InvalidTimeInForce)
            } else if self.slippage_tolerance matches Some(tolerance) && tolerance.0
                > MAX_ALLOWED_SLIPPAGE_TOLERANCE {
                Err(OrderValidationError::SlippageExceedsMaximum)
            } else {
                Ok(())
            },
        }
    }

    /// Checks that the parameters of the order fit together.
    ///
    /// A limit order has the standard match strategy, may take or only make,
    /// rests till cancelled or till a date, and has no slippage tolerance. A
    /// market order is immediate-or-cancel or fill-or-kill, is not
    /// maker-only, does not rest, and has no slippage tolerance or one of at
    /// most `MAX_ALLOWED_SLIPPAGE_TOLERANCE` basis points.
    pub fn validate(&self) -> (r: Result<(), OrderValidationError>)
        ensures
            r == self.spec_validate(),
    {
        match self.order_type {
            OrderType::Limit => {
                match self.match_strategy {
                    MatchStrategy::Standard => {},
                    _ => return Err(OrderValidationError::InvalidMatchStrategy),
                }
                match self.liquidity_directive {
                    LiquidityDirective::AllowTaker | LiquidityDirective::MakerOnly => {},
                    _ => return Err(OrderValidationError::InvalidLiquidityDirective),
                }
                match self.time_in_force {
                    TimeInForce::GoodTillCancelled | TimeInForce::GoodTillDate(_) => {},
                    _ => return Err(OrderValidationError::InvalidTimeInForce),
                }
                if self.slippage_tolerance.is_some() {
                    return Err(OrderValidationError::SlippageNotApplicable);
                }
                Ok(())
            },
            OrderType::Market => {
                match self.match_strategy {
                    MatchStrategy::ImmediateOrCancel | MatchStrategy::FillOrKill => {},
                    _ => return Err(OrderValidationError::InvalidMatchStrategy),
                }
                if self.liquidity_directive == LiquidityDirective::MakerOnly {
                    return Err(OrderValidationError::InvalidLiquidityDirective);
                }
                match self.time_in_force {
                    TimeInForce::GoodTillCancelled | TimeInForce::GoodTillDate(_) => {
                        return Err(OrderValidationError::InvalidTimeInForce);
                    },
                    _ => {},
                }
                if let Some(slippage) = self.slippage_tolerance {
                    if slippage.0 > MAX_ALLOWED_SLIPPAGE_TOLERANCE {
                        return Err(OrderValidationError::SlippageExceedsMaximum);
                    }
                }
                Ok(())
            },
        }
    }

    /// A copy of the order with its lifecycle set to `Active`.
    pub fn clone_reset_lifecycle(&self) -> (r: Order)
        ensures
            r == self.spec_with_lifecycle(OrderLifecycle::Active),
    {
        let mut cloned = *self;
        cloned.reset_lifecycle();
        cloned
    }

    /// The order after a trade of `traded`: the quantity moved, and the
    /// status `Filled` if nothing remains, `PartiallyFilled` if something
    /// does.
    pub open spec fn spec_after_trade(self, traded: Quantity) -> Order {
        let moved = self.spec_quantity_fill(traded);
        Order {
            status: if moved.quantity@ == 0 {
                OrderStatus::Filled
            } else {
                OrderStatus::PartiallyFilled
            },
            ..moved
        }
    }
}

impl Trade {
    /// The quantity that a taker and a maker trade with each other: the
    /// smaller of what remains of each.
    pub open spec fn spec_traded(taker: Order, maker: Order) -> Quantity {
        taker.quantity.spec_min(maker.quantity)
    }

    /// The maker's record of a trade with `taker` at `now_microseconds`.
    pub open spec fn spec_maker_trade(now_microseconds: u64, taker: Order, maker: Order) -> Trade {
        Trade {
            role: TradeRole::Maker,
            order_id: maker.id,
            price: maker.price,
            quantity: Trade::spec_traded(taker, maker),
            created_at: now_microseconds,
        }
    }

    /// The taker's record of a trade with `maker` at `now_microseconds`: at
    /// the maker's price.
    pub open spec fn spec_taker_trade(now_microseconds: u64, taker: Order, maker: Order) -> Trade {
        Trade {
            role: TradeRole::Taker,
            order_id: taker.id,
            price: maker.price,
            quantity: Trade::spec_traded(taker, maker),
            created_at: now_microseconds,
        }
    }

    /// Matches a taker with a maker. They trade the smaller of what remains
    /// of each. If that is zero, nothing changes and `None` is returned.
    /// Otherwise the quantity moves from remaining to filled in both orders,
    /// each becomes `Filled` or `PartiallyFilled`, and the two records of the
    /// trade are returned, the maker's first, both at the maker's price.
    pub fn matched(now_microseconds: u64, taker: &mut Order, maker: &mut Order) -> (r: Option<
        (Trade, Trade),
    >)
        ensures
            Trade::spec_traded(*old(taker), *old(maker))@ == 0 ==> r is None && *final(taker)
                == *old(taker) && *final(maker) == *old(maker),
            Trade::spec_traded(*old(taker), *old(maker))@ != 0 ==> r == Some(
                (
                    Trade::spec_maker_trade(now_microseconds, *old(taker), *old(maker)),
                    Trade::spec_taker_trade(now_microseconds, *old(taker), *old(maker)),
                ),
            ) && *final(taker) == old(taker).spec_after_trade(
                Trade::spec_traded(*old(taker), *old(maker)),
            ) && *final(maker) == old(maker).spec_after_trade(
                Trade::spec_traded(*old(taker), *old(maker)),
            ),
    {
        let traded_quantity = taker.quantity().min(maker.quantity());
        if traded_quantity.is_zero() {
            return None;
        }
        let maker_quantity = maker.quantity_fill(traded_quantity);
        let taker_quantity = taker.quantity_fill(traded_quantity);

        let maker_status = if maker_quantity.is_zero() {
            OrderStatus::Filled
        } else {
            OrderStatus::PartiallyFilled
        };
        let taker_status = if taker_quantity.is_zero() {
            OrderStatus::Filled
        } else {
            OrderStatus::PartiallyFilled
        };

        maker.update_status(maker_status);
        taker.update_status(taker_status);

        Some(
            (
                Trade {
                    role: TradeRole::Maker,
                    order_id: maker.id,
                    price: maker.price,
                    quantity: traded_quantity,
                    created_at: now_microseconds,
                },
                Trade {
                    role: TradeRole::Taker,
                    order_id: taker.id,
                    price: maker.price,
                    quantity: traded_quantity,
                    created_at: now_microseconds,
                },
            ),
        )
    }
}

} // verus!
