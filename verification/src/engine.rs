use crate::book::Orderbook;
use crate::dash::{
    registry_contains, registry_entries, registry_insert, registry_new, registry_remove,
    registry_snapshot,
};
use crate::model::{Applied, BookError, BookState, Command};
use crate::snapshot::{is_snapshot, OrderbookSnapshot};
use dashmap::DashMap;
use vstd::prelude::*;

verus! {

/// A command as it arrives from outside: an action word, the market and
/// order it addresses, and the terms that a place or a modify needs.
#[derive(Clone, Debug, PartialEq, Eq)]
pub struct OrderAction {
    pub action: String,
    pub asset: u16,
    pub order_id: u64,
    pub side: Option<String>,
    pub price: Option<u64>,
    pub size: Option<u64>,
    pub timestamp: Option<i64>,
}

/// Why an arriving command is not a valid command.
#[derive(Clone, Copy, Debug, PartialEq, Eq)]
pub enum ValidationError {
    /// The action word is none of `place`, `cancel` and `modify`.
    UnknownAction,
    /// A place or a modify lacks its side, its price or its size.
    MissingField,
}

/// Why the engine refused a command.
#[derive(Clone, Copy, Debug, PartialEq, Eq)]
pub enum EngineError {
    /// The command addresses a market that the engine does not hold.
    Routing,
    /// The command is malformed.
    Validation(ValidationError),
    /// The addressed book refused the command.
    Book(BookError),
}

/// The timestamp of a command, zero when it carries none.
pub open spec fn timestamp_of(action: OrderAction) -> i64 {
    match action.timestamp {
        Some(timestamp) => timestamp,
        None => 0,
    }
}

/// The command that an arriving action stands for.
///
/// `cancel` needs nothing but the order id. `place` and `modify` need a
/// side, a price and a size; the side is the bid side when it reads `buy`
/// and the ask side otherwise, and a missing timestamp counts as zero.
pub open spec fn validate_spec(action: OrderAction) -> Result<Command, ValidationError> {
    if action.action@ == "cancel"@ {
        Ok(Command::Cancel { order_id: action.order_id })
    } else if action.action@ == "place"@ || action.action@ == "modify"@ {
        match (action.side, action.price, action.size) {
            (Some(side), Some(price), Some(size)) => Ok(
                if action.action@ == "place"@ {
                    Command::Place {
                        order_id: action.order_id,
                        is_buy: side@ == "buy"@,
                        price,
                        size,
                        timestamp: timestamp_of(action),
                    }
                } else {
                    Command::Modify {
                        order_id: action.order_id,
                        is_buy: side@ == "buy"@,
                        price,
                        size,
                        timestamp: timestamp_of(action),
                    }
                },
            ),
            _ => Err(ValidationError::MissingField),
        }
    } else {
        Err(ValidationError::UnknownAction)
    }
}

/// What the engine returns for one arriving action. An unknown market is
/// reported before anything else about the action is looked at.
pub open spec fn step_result(books: Map<u16, BookState>, action: OrderAction) -> Result<
    Applied,
    EngineError,
> {
    if !books.contains_key(action.asset) {
        Err(EngineError::Routing)
    } else {
        match validate_spec(action) {
            Err(error) => Err(EngineError::Validation(error)),
            Ok(command) => match books[action.asset].outcome(command) {
                Ok(applied) => Ok(applied),
                Err(error) => Err(EngineError::Book(error)),
            },
        }
    }
}

/// The books after one arriving action: the addressed book takes the
/// command if the market is known and the action valid; nothing else
/// changes.
pub open spec fn step_state(books: Map<u16, BookState>, action: OrderAction) -> Map<
    u16,
    BookState,
> {
    if !books.contains_key(action.asset) {
        books
    } else {
        match validate_spec(action) {
            Err(_) => books,
            Ok(command) => books.insert(action.asset, books[action.asset].apply(command)),
        }
    }
}

/// The books after a run of actions, applied one by one in their order.
pub open spec fn run_state(books: Map<u16, BookState>, actions: Seq<OrderAction>) -> Map<
    u16,
    BookState,
>
    decreases actions.len(),
{
    if actions.len() == 0 {
        books
    } else {
        step_state(run_state(books, actions.drop_last()), actions.last())
    }
}

/// What the engine returns for each action of a run, in their order.
pub open spec fn run_results(books: Map<u16, BookState>, actions: Seq<OrderAction>) -> Seq<
    Result<Applied, EngineError>,
>
    decreases actions.len(),
{
    if actions.len() == 0 {
        Seq::empty()
    } else {
        run_results(books, actions.drop_last()).push(
            step_result(run_state(books, actions.drop_last()), actions.last()),
        )
    }
}

/// The set of markets is fixed: no action and no run of actions adds a
/// market or takes one away.
pub proof fn lemma_markets_fixed(books: Map<u16, BookState>, actions: Seq<OrderAction>)
    ensures
        run_state(books, actions).dom() == books.dom(),
        forall|action: OrderAction| #[trigger] step_state(books, action).dom() == books.dom(),
    decreases actions.len(),
{
    assert forall|action: OrderAction| #[trigger]
        step_state(books, action).dom() == books.dom() by {
        assert(step_state(books, action).dom() =~= books.dom());
    }
    if actions.len() > 0 {
        let before = run_state(books, actions.drop_last());
        lemma_markets_fixed(books, actions.drop_last());
        assert(step_state(before, actions.last()).dom() =~= before.dom());
    }
}

/// Whether the text reads exactly as the word.
fn reads(text: &String, word: &str) -> (same: bool)
    ensures
        same == (text@ == word@),
{
    let owned = word.to_owned();
    *text == owned
}

/// Checks an arriving action and turns it into a command.
pub fn validate(action: &OrderAction) -> (result: Result<Command, ValidationError>)
    ensures
        result == validate_spec(*action),
{
    if reads(&action.action, "cancel") {
        return Ok(Command::Cancel { order_id: action.order_id });
    }
    let is_place = reads(&action.action, "place");
    if !is_place && !reads(&action.action, "modify") {
        return Err(ValidationError::UnknownAction);
    }
    let timestamp = match action.timestamp {
        Some(timestamp) => timestamp,
        None => 0,
    };
    match (&action.side, action.price, action.size) {
        (Some(side), Some(price), Some(size)) => {
            let is_buy = reads(side, "buy");
            if is_place {
                Ok(Command::Place { order_id: action.order_id, is_buy, price, size, timestamp })
            } else {
                Ok(Command::Modify { order_id: action.order_id, is_buy, price, size, timestamp })
            }
        },
        _ => Err(ValidationError::MissingField),
    }
}

/// The books of a fixed set of markets, and the one place where commands
/// are routed to them.
///
/// Commands are applied one at a time through `&mut self`: the engine is
/// the single serialization point for all its markets.
#[derive(Debug)]
pub struct OrderbookEngine {
    orderbooks: DashMap<u16, Orderbook>,
}

impl OrderbookEngine {
    /// The books of the engine, by market id.
    pub closed spec fn books(&self) -> Map<u16, Orderbook> {
        registry_entries(self.orderbooks)
    }

    /// The engine's invariant: every book is sound and is registered under
    /// its own market id.
    pub open spec fn wf(&self) -> bool {
        forall|market_id: u16| #[trigger]
            self.books().contains_key(market_id) ==> self.books()[market_id].wf()
                && self.books()[market_id]@.market_id == market_id
    }

    /// The observable state of the engine: the state of each book.
    pub open spec fn view(&self) -> Map<u16, BookState> {
        Map::new(
            |market_id: u16| self.books().contains_key(market_id),
            |market_id: u16| self.books()[market_id]@,
        )
    }

    /// An engine with one empty book for each of the given markets. The set
    /// of markets stays as it is for the life of the engine.
    pub fn new(market_ids: Vec<u16>) -> (engine: Self)
        ensures
            engine.wf(),
            forall|market_id: u16|
                engine@.contains_key(market_id) <==> market_ids@.contains(market_id),
            forall|market_id: u16| #[trigger]
                engine@.contains_key(market_id) ==> engine@[market_id] == BookState::empty(
                    market_id,
                ),
    {
        let mut orderbooks = registry_new();
        let mut next: usize = 0;
        while next < market_ids.len()
            invariant
                next <= market_ids.len(),
                forall|market_id: u16|
                    registry_entries(orderbooks).contains_key(market_id) <==> market_ids@.take(
                        next as int,
                    ).contains(market_id),
                forall|market_id: u16| #[trigger]
                    registry_entries(orderbooks).contains_key(market_id) ==> registry_entries(
                        orderbooks,
                    )[market_id].wf() && registry_entries(orderbooks)[market_id]@
                        == BookState::empty(market_id),
            decreases market_ids.len() - next,
        {
            let market_id = market_ids[next];
            registry_insert(&mut orderbooks, market_id, Orderbook::new(market_id));
            proof {
                let before = market_ids@.take(next as int);
                let after = market_ids@.take(next + 1);
                assert(after =~= before.push(market_id));
                assert forall|other: u16| after.contains(other) <==> before.contains(other)
                    || other == market_id by {
                    if after.contains(other) {
                        let i = choose|i: int| 0 <= i < after.len() && after[i] == other;
                        if i < before.len() {
                            assert(before[i] == other);
                        }
                    }
                    if before.contains(other) {
                        let i = choose|i: int| 0 <= i < before.len() && before[i] == other;
                        assert(after[i] == other);
                    }
                    if other == market_id {
                        assert(after[next as int] == other);
                    }
                }
            }
            next = next + 1;
        }
        proof {
            assert(market_ids@.take(next as int) =~= market_ids@);
        }
        OrderbookEngine { orderbooks }
    }

    /// Routes one arriving action to the book of its market and applies it
    /// there.
    ///
    /// An action for a market that the engine does not hold is a routing
    /// error; a malformed action is a validation error; a command that the
    /// book refuses is reported with the book's reason. A refused action
    /// changes no book.
    pub fn process_order(&mut self, action: &OrderAction) -> (result: Result<Applied, EngineError>)
        requires
            old(self).wf(),
        ensures
            final(self).wf(),
            result == step_result(old(self)@, *action),
            final(self)@ == step_state(old(self)@, *action),
            final(self)@.dom() == old(self)@.dom(),
            result is Err ==> final(self)@ == old(self)@,
    {
        proof {
            assert(step_state(old(self)@, *action).dom() =~= old(self)@.dom());
        }
        if !registry_contains(&self.orderbooks, action.asset) {
            return Err(EngineError::Routing);
        }
        let command = match validate(action) {
            Ok(command) => command,
            Err(error) => {
                return Err(EngineError::Validation(error));
            },
        };
        match registry_remove(&mut self.orderbooks, action.asset) {
            None => Err(EngineError::Routing),
            Some(book) => {
                let mut book = book;
                let result = match book.apply(command) {
                    Ok(applied) => Ok(applied),
                    Err(error) => Err(EngineError::Book(error)),
                };
                registry_insert(&mut self.orderbooks, action.asset, book);
                proof {
                    assert(self.books() =~= old(self).books().insert(action.asset, book));
                    assert(self@ =~= step_state(old(self)@, *action));
                    if result is Err {
                        assert(self@ =~= old(self)@);
                    }
                }
                result
            },
        }
    }

    /// Applies a run of arriving actions strictly in their order, across
    /// all markets, and returns what each of them did.
    pub fn process_orders(&mut self, actions: &Vec<OrderAction>) -> (results: Vec<
        Result<Applied, EngineError>,
    >)
        requires
            old(self).wf(),
        ensures
            final(self).wf(),
            results@ == run_results(old(self)@, actions@),
            final(self)@ == run_state(old(self)@, actions@),
            final(self)@.dom() == old(self)@.dom(),
    {
        let mut results: Vec<Result<Applied, EngineError>> = Vec::new();
        let mut next: usize = 0;
        while next < actions.len()
            invariant
                next <= actions.len(),
                self.wf(),
                results@ == run_results(old(self)@, actions@.take(next as int)),
                self@ == run_state(old(self)@, actions@.take(next as int)),
            decreases actions.len() - next,
        {
            proof {
                assert(actions@.take(next + 1).drop_last() =~= actions@.take(next as int));
            }
            let result = self.process_order(&actions[next]);
            results.push(result);
            next = next + 1;
        }
        proof {
            assert(actions@.take(next as int) =~= actions@);
            lemma_markets_fixed(old(self)@, actions@);
        }
        results
    }

    /// A read handle on the book of one market, or `None` when the engine
    /// holds no such market.
    pub fn get_orderbook(&self, market_id: u16) -> (found: Option<BookHandle<'_>>)
        requires
            self.wf(),
        ensures
            found is Some <==> self@.contains_key(market_id),
            found matches Some(book) ==> book.wf() && book@ == self@[market_id],
    {
        if registry_contains(&self.orderbooks, market_id) {
            Some(BookHandle { engine: self, market_id })
        } else {
            None
        }
    }

    /// The depth view of the book of one market, or a routing error when
    /// the engine holds no such market.
    pub fn get_snapshot(&self, market_id: u16, depth: usize) -> (result: Result<
        OrderbookSnapshot,
        EngineError,
    >)
        requires
            self.wf(),
        ensures
            result is Ok <==> self@.contains_key(market_id),
            result matches Ok(snapshot) ==> is_snapshot(self@[market_id], depth, snapshot),
            result matches Err(error) ==> error == EngineError::Routing,
    {
        proof {
            assert(self.books().contains_key(market_id) ==> self.books()[market_id].wf());
        }
        match registry_snapshot(&self.orderbooks, market_id, depth) {
            Some(snapshot) => Ok(snapshot),
            None => Err(EngineError::Routing),
        }
    }
}

/// A shared read handle on the book of one market of an engine.
#[derive(Clone, Copy, Debug)]
pub struct BookHandle<'a> {
    engine: &'a OrderbookEngine,
    market_id: u16,
}

impl<'a> BookHandle<'a> {
    /// The engine that holds the book.
    pub closed spec fn engine(&self) -> OrderbookEngine {
        *self.engine
    }

    /// The market of the book.
    pub closed spec fn market_id(&self) -> u16 {
        self.market_id
    }

    /// The handle's invariant: the engine is sound and holds the market.
    pub open spec fn wf(&self) -> bool {
        self.engine().wf() && self.engine()@.contains_key(self.market_id())
    }

    /// The observable state of the book.
    pub open spec fn view(&self) -> BookState {
        self.engine()@[self.market_id()]
    }

    /// The depth view of the book.
    pub fn get_snapshot(&self, depth: usize) -> (snapshot: OrderbookSnapshot)
        requires
            self.wf(),
        ensures
            is_snapshot(self@, depth, snapshot),
    {
        match self.engine.get_snapshot(self.market_id, depth) {
            Ok(snapshot) => snapshot,
            Err(_) => vstd::pervasive::unreached(),
        }
    }
}

} // verus!
