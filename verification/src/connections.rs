//! Connections to models: who is connected to what, and where requests go.

use vstd::prelude::*;
use vstd::string::*;

use crate::runtime::{config_named, ConfigView, ErrorView, RuntimeError, RuntimeRegistry};
use crate::text::{decimal, decimal_text, same_text};

verus! {

/// The number of a connection.
#[derive(Debug, Clone, Copy, PartialEq, Eq, Hash, Structural)]
pub struct ConnectionId(pub u64);

impl ConnectionId {
    /// The number in decimal notation.
    pub fn to_text(self) -> (text: String)
        ensures
            text@ == decimal(self.0 as nat),
    {
        decimal_text(self.0)
    }
}

/// What a change of the connections asks of the worker of a model.
#[derive(Debug, PartialEq, Eq)]
pub enum ConnectionLifecycleEvent {
    Load(String),
    Unload(String),
}

/// Such a change by its contents.
pub enum LifecycleView {
    Load(Seq<char>),
    Unload(Seq<char>),
}

impl View for ConnectionLifecycleEvent {
    type V = LifecycleView;

    open spec fn view(&self) -> LifecycleView {
        match *self {
            ConnectionLifecycleEvent::Load(id) => LifecycleView::Load(id@),
            ConnectionLifecycleEvent::Unload(id) => LifecycleView::Unload(id@),
        }
    }
}

impl Clone for ConnectionLifecycleEvent {
    fn clone(&self) -> (copy: Self)
        ensures
            copy@ == self@,
    {
        match self {
            ConnectionLifecycleEvent::Load(id) => ConnectionLifecycleEvent::Load(id.clone()),
            ConnectionLifecycleEvent::Unload(id) => ConnectionLifecycleEvent::Unload(id.clone()),
        }
    }
}

/// The open connections, each with the model it is for.
#[derive(Debug)]
pub struct ConnectionTracker {
    connections: Vec<(ConnectionId, String)>,
}

/// The map that a list of pairs describes.
pub open spec fn pairs_map(pairs: Seq<(ConnectionId, String)>) -> Map<ConnectionId, Seq<char>>
    decreases pairs.len(),
{
    if pairs.len() == 0 {
        Map::empty()
    } else {
        pairs_map(pairs.drop_last()).insert(pairs.last().0, pairs.last().1@)
    }
}

/// Whether the numbers in a list of pairs are all different.
pub open spec fn distinct_ids(pairs: Seq<(ConnectionId, String)>) -> bool {
    forall|i: int, j: int|
        0 <= i < j < pairs.len() ==> (#[trigger] pairs[i]).0 != (#[trigger] pairs[j]).0
}

proof fn lemma_pairs_map(pairs: Seq<(ConnectionId, String)>)
    requires
        distinct_ids(pairs),
    ensures
        forall|id: ConnectionId| #[trigger]
            pairs_map(pairs).dom().contains(id) <==> exists|i: int|
                0 <= i < pairs.len() && (#[trigger] pairs[i]).0 == id,
        forall|i: int|
            0 <= i < pairs.len() ==> pairs_map(pairs).dom().contains((#[trigger] pairs[i]).0)
                && pairs_map(pairs)[pairs[i].0] == pairs[i].1@,
    decreases pairs.len(),
{
    if pairs.len() > 0 {
        let rest = pairs.drop_last();
        lemma_pairs_map(rest);
        assert forall|i: int| 0 <= i < pairs.len() implies pairs_map(pairs).dom().contains(
            (#[trigger] pairs[i]).0,
        ) && pairs_map(pairs)[pairs[i].0] == pairs[i].1@ by {
            if i < rest.len() {
                assert(rest[i] == pairs[i]);
            }
        }
        assert forall|id: ConnectionId| #[trigger]
            pairs_map(pairs).dom().contains(id) implies exists|i: int|
            0 <= i < pairs.len() && (#[trigger] pairs[i]).0 == id by {
            if id == pairs.last().0 {
                assert(pairs[pairs.len() - 1].0 == id);
            } else {
                assert(pairs_map(rest).dom().contains(id));
                let i = choose|i: int| 0 <= i < rest.len() && (#[trigger] rest[i]).0 == id;
                assert(pairs[i].0 == id);
            }
        }
    }
}

/// Whether some connection is for a model.
pub open spec fn in_use(connections: Map<ConnectionId, Seq<char>>, config_id: Seq<char>) -> bool {
    exists|id: ConnectionId|
        connections.dom().contains(id) && #[trigger] connections[id] == config_id
}

/// The connections after a connection is opened; one that is open stays as it
/// is.
pub open spec fn opened(
    connections: Map<ConnectionId, Seq<char>>,
    id: ConnectionId,
    config_id: Seq<char>,
) -> Map<ConnectionId, Seq<char>> {
    if connections.dom().contains(id) {
        connections
    } else {
        connections.insert(id, config_id)
    }
}

/// A connection asks for its model to be loaded where it is new and the first
/// one for that model.
pub open spec fn load_asked(
    connections: Map<ConnectionId, Seq<char>>,
    id: ConnectionId,
    config_id: Seq<char>,
) -> Option<LifecycleView> {
    if !connections.dom().contains(id) && !in_use(connections, config_id) {
        Some(LifecycleView::Load(config_id))
    } else {
        None
    }
}

/// A connection that ends asks for its model to be unloaded where it was the
/// last one for that model.
pub open spec fn unload_asked(connections: Map<ConnectionId, Seq<char>>, id: ConnectionId) -> Option<
    LifecycleView,
> {
    if connections.dom().contains(id) && !in_use(connections.remove(id), connections[id]) {
        Some(LifecycleView::Unload(connections[id]))
    } else {
        None
    }
}

/// The contents of an optional change.
pub open spec fn lifecycle_option(event: Option<ConnectionLifecycleEvent>) -> Option<
    LifecycleView,
> {
    match event {
        Some(event) => Some(event@),
        None => None,
    }
}

impl View for ConnectionTracker {
    type V = Map<ConnectionId, Seq<char>>;

    closed spec fn view(&self) -> Map<ConnectionId, Seq<char>> {
        pairs_map(self.connections@)
    }
}

impl Default for ConnectionTracker {
    fn default() -> (tracker: Self)
        ensures
            tracker.wf(),
            tracker@ == Map::<ConnectionId, Seq<char>>::empty(),
    {
        ConnectionTracker { connections: Vec::new() }
    }
}

impl ConnectionTracker {
    /// No connection is held twice.
    pub closed spec fn wf(&self) -> bool {
        distinct_ids(self.connections@)
    }

    /// Where a connection stands in the list, if it does.
    fn position(&self, id: ConnectionId) -> (at: Option<usize>)
        requires
            self.wf(),
        ensures
            at matches Some(at) ==> at < self.connections@.len() && self.connections@[at as int].0
                == id,
            at is None <==> !self@.dom().contains(id),
    {
        proof {
            lemma_pairs_map(self.connections@);
        }
        let mut at: usize = 0;
        while at < self.connections.len()
            invariant
                at <= self.connections@.len(),
                distinct_ids(self.connections@),
                forall|k: int| 0 <= k < at ==> (#[trigger] self.connections@[k]).0 != id,
            decreases self.connections@.len() - at,
        {
            if self.connections[at].0 == id {
                proof {
                    lemma_pairs_map(self.connections@);
                }
                return Some(at);
            }
            at = at + 1;
        }
        None
    }

    /// Whether some connection is for a model.
    fn uses(&self, config_id: &str) -> (yes: bool)
        requires
            self.wf(),
        ensures
            yes == in_use(self@, config_id@),
    {
        proof {
            lemma_pairs_map(self.connections@);
        }
        let mut at: usize = 0;
        while at < self.connections.len()
            invariant
                at <= self.connections@.len(),
                distinct_ids(self.connections@),
                forall|k: int| 0 <= k < at ==> (#[trigger] self.connections@[k]).1@ != config_id@,
            decreases self.connections@.len() - at,
        {
            if same_text(self.connections[at].1.as_str(), config_id) {
                proof {
                    lemma_pairs_map(self.connections@);
                    assert(self@[self.connections@[at as int].0] == config_id@);
                }
                return true;
            }
            at = at + 1;
        }
        false
    }

    /// Notes a new connection.
    pub fn connect(&mut self, connection_id: ConnectionId, config_id: String) -> (event: Option<
        ConnectionLifecycleEvent,
    >)
        requires
            old(self).wf(),
        ensures
            final(self).wf(),
            final(self)@ == opened(old(self)@, connection_id, config_id@),
            lifecycle_option(event) == load_asked(old(self)@, connection_id, config_id@),
    {
        if self.position(connection_id).is_some() {
            return None;
        }
        let first = !self.uses(config_id.as_str());
        let ghost before = self.connections@;
        self.connections.push((connection_id, config_id.clone()));
        proof {
            lemma_pairs_map(before);
            assert(self.connections@.drop_last() =~= before);
            assert forall|i: int, j: int| 0 <= i < j < self.connections@.len() implies (
            #[trigger] self.connections@[i]).0 != (#[trigger] self.connections@[j]).0 by {
                assert(self.connections@[i] == before[i]);
                if j < before.len() {
                    assert(self.connections@[j] == before[j]);
                } else {
                    assert(before[i].0 != connection_id);
                }
            }
        }
        if first {
            Some(ConnectionLifecycleEvent::Load(config_id))
        } else {
            None
        }
    }

    /// Notes the end of a connection.
    pub fn disconnect(&mut self, connection_id: ConnectionId) -> (event: Option<
        ConnectionLifecycleEvent,
    >)
        requires
            old(self).wf(),
        ensures
            final(self).wf(),
            final(self)@ == old(self)@.remove(connection_id),
            lifecycle_option(event) == unload_asked(old(self)@, connection_id),
    {
        let at: usize = match self.position(connection_id) {
            Some(at) => at,
            None => {
                assert(self@.remove(connection_id) =~= self@);
                return None;
            },
        };
        let ghost before = self.connections@;
        let (_, config_id) = self.connections.remove(at);
        proof {
            let after = self.connections@;
            lemma_pairs_map(before);
            assert(forall|k: int|
                0 <= k < after.len() ==> #[trigger] after[k] == before[if k < at {
                    k
                } else {
                    k + 1
                }]);
            assert(distinct_ids(after));
            lemma_pairs_map(after);
            let map = pairs_map(before);
            assert forall|id: ConnectionId| #[trigger] pairs_map(after).dom().contains(id)
                == map.remove(connection_id).dom().contains(id) by {
                if pairs_map(after).dom().contains(id) {
                    let k = choose|k: int| 0 <= k < after.len() && (#[trigger] after[k]).0 == id;
                    let j = if k < at { k } else { k + 1 };
                    assert(before[j].0 == id);
                    assert(j != at);
                    assert(before[at as int].0 == connection_id);
                }
                if map.dom().contains(id) && id != connection_id {
                    let j = choose|j: int| 0 <= j < before.len() && (#[trigger] before[j]).0 == id;
                    let k = if j < at { j } else { j - 1 };
                    assert(after[k].0 == id);
                }
            }
            assert forall|id: ConnectionId| #[trigger]
                pairs_map(after).dom().contains(id) implies pairs_map(after)[id] == map[id] by {
                let k = choose|k: int| 0 <= k < after.len() && (#[trigger] after[k]).0 == id;
                let j = if k < at { k } else { k + 1 };
                assert(before[j] == after[k]);
            }
            assert(pairs_map(after) =~= map.remove(connection_id));
        }
        if self.uses(config_id.as_str()) {
            None
        } else {
            Some(ConnectionLifecycleEvent::Unload(config_id))
        }
    }
}

/// Ending a connection that was just opened undoes the opening, and asks for
/// the model to be unloaded exactly where the opening asked for it to be
/// loaded.
pub proof fn disconnect_undoes_connect(
    connections: Map<ConnectionId, Seq<char>>,
    id: ConnectionId,
    config_id: Seq<char>,
)
    requires
        !connections.dom().contains(id),
    ensures
        opened(connections, id, config_id).remove(id) == connections,
        load_asked(connections, id, config_id) is Some <==> unload_asked(
            opened(connections, id, config_id),
            id,
        ) is Some,
{
    assert(opened(connections, id, config_id).remove(id) =~= connections);
}

/// Ending a connection a second time changes nothing and asks for nothing.
pub proof fn second_disconnect_is_ignored(
    connections: Map<ConnectionId, Seq<char>>,
    id: ConnectionId,
)
    ensures
        connections.remove(id).remove(id) == connections.remove(id),
        unload_asked(connections.remove(id), id) is None,
{
    assert(connections.remove(id).remove(id) =~= connections.remove(id));
}

/// A model is asked to be unloaded only when no connection is for it any more,
/// and to be loaded only when none was.
pub proof fn lifecycle_events_frame_the_use(
    connections: Map<ConnectionId, Seq<char>>,
    id: ConnectionId,
    config_id: Seq<char>,
)
    ensures
        load_asked(connections, id, config_id) is Some ==> !in_use(connections, config_id)
            && in_use(opened(connections, id, config_id), config_id),
        unload_asked(connections, id) matches Some(LifecycleView::Unload(model)) ==> in_use(
            connections,
            model,
        ) && !in_use(connections.remove(id), model),
{
    if load_asked(connections, id, config_id) is Some {
        assert(opened(connections, id, config_id)[id] == config_id);
    }
    if unload_asked(connections, id) is Some {
        assert(connections[id] == connections[id]);
    }
}

/// The number that follows another. After the greatest number the count starts
/// over.
pub open spec fn number_following(number: u64) -> u64 {
    if number == u64::MAX {
        0
    } else {
        (number + 1) as u64
    }
}

/// The number that comes so many numbers after another.
pub open spec fn number_after(first: u64, count: nat) -> u64
    decreases count,
{
    if count == 0 {
        first
    } else {
        number_following(number_after(first, (count - 1) as nat))
    }
}

proof fn lemma_number_after(first: u64, count: nat)
    ensures
        number_after(first, count) == (first + count) % 0x1_0000_0000_0000_0000,
    decreases count,
{
    if count > 0 {
        lemma_number_after(first, (count - 1) as nat);
    }
}

/// Numbers that are handed out one after the other are all different until the
/// count has started over.
pub proof fn numbers_in_a_row_are_different(first: u64, i: nat, j: nat)
    requires
        i < j,
        j - i <= u64::MAX,
    ensures
        number_after(first, i) != number_after(first, j),
{
    lemma_number_after(first, i);
    lemma_number_after(first, j);
}

/// Hands out connection numbers.
#[derive(Debug)]
pub struct ConnectionOpener {
    registry: RuntimeRegistry,
    next_connection_id: u64,
}

impl ConnectionOpener {
    /// The models that can be connected to.
    pub closed spec fn configs(&self) -> Seq<ConfigView> {
        self.registry@
    }

    /// The number of the next connection.
    pub closed spec fn next_id(&self) -> u64 {
        self.next_connection_id
    }

    /// The numbers start at one.
    pub fn new(registry: RuntimeRegistry) -> (opener: Self)
        ensures
            opener.configs() == registry@,
            opener.next_id() == 1,
    {
        ConnectionOpener { registry, next_connection_id: 1 }
    }

    /// Gives a connection to a known model its number.
    pub fn open(&mut self, config_id: &str) -> (opened: Result<ConnectionId, RuntimeError>)
        ensures
            final(self).configs() == old(self).configs(),
            match config_named(old(self).configs(), config_id@) {
                Some(_) => {
                    &&& opened == Ok::<ConnectionId, RuntimeError>(
                        ConnectionId(old(self).next_id()),
                    )
                    &&& final(self).next_id() == number_following(old(self).next_id())
                },
                None => {
                    &&& opened matches Err(error) && error@ == ErrorView::UnknownConfig(config_id@)
                    &&& final(self).next_id() == old(self).next_id()
                },
            },
    {
        if self.registry.get(config_id).is_none() {
            return Err(RuntimeError::UnknownConfig(config_id.to_string()));
        }
        let id: u64 = self.next_connection_id;
        self.next_connection_id = id.wrapping_add(1);
        Ok(ConnectionId(id))
    }
}

/// One end of a connection: its number, its model, whether it was closed, and
/// the number of its next request.
#[derive(Debug)]
pub struct ConnectionState {
    id: ConnectionId,
    config_id: String,
    closed: bool,
    next_sequence_number: u64,
}

/// One end of a connection by its contents.
pub struct ConnectionView {
    pub id: ConnectionId,
    pub config_id: Seq<char>,
    pub closed: bool,
    pub next_sequence_number: u64,
}

impl View for ConnectionState {
    type V = ConnectionView;

    closed spec fn view(&self) -> ConnectionView {
        ConnectionView {
            id: self.id,
            config_id: self.config_id@,
            closed: self.closed,
            next_sequence_number: self.next_sequence_number,
        }
    }
}

impl ConnectionView {
    /// The connection after a request is sent.
    pub open spec fn after_request(self) -> ConnectionView {
        if self.closed {
            self
        } else {
            ConnectionView {
                next_sequence_number: number_following(self.next_sequence_number),
                ..self
            }
        }
    }

    /// The number of the next request; a closed connection takes none.
    pub open spec fn request_number(self) -> Result<u64, ErrorView> {
        if self.closed {
            Err(ErrorView::ConnectionClosed)
        } else {
            Ok(self.next_sequence_number)
        }
    }

    /// The connection after it is closed.
    pub open spec fn after_close(self) -> ConnectionView {
        ConnectionView { closed: true, ..self }
    }

    /// The connection after so many requests.
    pub open spec fn after_requests(self, count: nat) -> ConnectionView
        decreases count,
    {
        if count == 0 {
            self
        } else {
            self.after_requests((count - 1) as nat).after_request()
        }
    }
}

/// A closed connection takes no request, however many are tried.
pub proof fn closed_connection_takes_no_requests(connection: ConnectionView, tried: nat)
    ensures
        connection.after_close().after_requests(tried).request_number() == Err::<u64, ErrorView>(
            ErrorView::ConnectionClosed,
        ),
        connection.after_close().after_requests(tried) == connection.after_close(),
    decreases tried,
{
    if tried > 0 {
        closed_connection_takes_no_requests(connection, (tried - 1) as nat);
    }
}

/// The requests of an open connection are numbered one after the other, so that
/// no two of them have the same number before the count starts over.
pub proof fn requests_are_numbered_in_order(connection: ConnectionView, sent: nat)
    requires
        !connection.closed,
        connection.next_sequence_number + sent <= u64::MAX,
    ensures
        connection.after_requests(sent).request_number() == Ok::<u64, ErrorView>(
            (connection.next_sequence_number + sent) as u64,
        ),
        connection.after_requests(sent).id == connection.id,
        connection.after_requests(sent).config_id == connection.config_id,
    decreases sent,
{
    if sent > 0 {
        requests_are_numbered_in_order(connection, (sent - 1) as nat);
    }
}

impl ConnectionState {
    /// An open connection; its requests are numbered from one.
    pub fn new(id: ConnectionId, config_id: &str) -> (connection: Self)
        ensures
            connection@ == new_connection(id, config_id@),
    {
        ConnectionState {
            id,
            config_id: config_id.to_string(),
            closed: false,
            next_sequence_number: 1,
        }
    }

    /// The number of the connection.
    pub fn id(&self) -> (id: ConnectionId)
        ensures
            id == self@.id,
    {
        self.id
    }

    /// The model of the connection.
    pub fn config_id(&self) -> (config_id: &str)
        ensures
            config_id@ == self@.config_id,
    {
        self.config_id.as_str()
    }

    /// Gives the next request its number. A closed connection takes none.
    pub fn begin_request(&mut self) -> (number: Result<u64, RuntimeError>)
        ensures
            final(self)@ == old(self)@.after_request(),
            (match number {
                Ok(number) => Ok::<u64, ErrorView>(number),
                Err(error) => Err(error@),
            }) == old(self)@.request_number(),
    {
        if self.closed {
            return Err(RuntimeError::ConnectionClosed);
        }
        let number: u64 = self.next_sequence_number;
        self.next_sequence_number = number.wrapping_add(1);
        Ok(number)
    }

    /// Closes the connection, and says whether it was open.
    pub fn begin_close(&mut self) -> (was_open: bool)
        ensures
            final(self)@ == old(self)@.after_close(),
            was_open == !old(self)@.closed,
    {
        let was_open = !self.closed;
        self.closed = true;
        was_open
    }
}

/// What came of asking for a connection: the request could not be sent, it was not
/// answered, or it was.
#[derive(Debug, PartialEq, Eq)]
pub enum ConnectReply {
    Undelivered,
    Unanswered,
    Answered(Result<(), RuntimeError>),
}

/// What came of asking for a connection, by its contents.
pub enum ConnectReplyView {
    Undelivered,
    Unanswered,
    Answered(Result<(), ErrorView>),
}

impl View for ConnectReply {
    type V = ConnectReplyView;

    open spec fn view(&self) -> ConnectReplyView {
        match *self {
            ConnectReply::Undelivered => ConnectReplyView::Undelivered,
            ConnectReply::Unanswered => ConnectReplyView::Unanswered,
            ConnectReply::Answered(Ok(_)) => ConnectReplyView::Answered(Ok(())),
            ConnectReply::Answered(Err(error)) => ConnectReplyView::Answered(Err(error@)),
        }
    }
}

/// A connection that was asked for: it is open, or there is none, and then it may
/// have to be forgotten.
#[derive(Debug)]
pub enum Opening {
    Open(ConnectionState),
    Failed { error: RuntimeError, forget: bool },
}

/// A connection that was asked for, by its contents.
pub enum OpeningView {
    Open(ConnectionView),
    Failed { error: ErrorView, forget: bool },
}

impl View for Opening {
    type V = OpeningView;

    open spec fn view(&self) -> OpeningView {
        match *self {
            Opening::Open(connection) => OpeningView::Open(connection@),
            Opening::Failed { error, forget } => OpeningView::Failed { error: error@, forget },
        }
    }
}

/// A connection that is new.
pub open spec fn new_connection(id: ConnectionId, config_id: Seq<char>) -> ConnectionView {
    ConnectionView { id, config_id, closed: false, next_sequence_number: 1 }
}

/// What comes of asking for a connection. Where the request was sent and never
/// answered, the connection is not forgotten: the other side may know it.
pub open spec fn opening(
    id: ConnectionId,
    config_id: Seq<char>,
    reply: ConnectReplyView,
) -> OpeningView {
    match reply {
        ConnectReplyView::Undelivered => OpeningView::Failed {
            error: ErrorView::ChannelClosed,
            forget: true,
        },
        ConnectReplyView::Unanswered => OpeningView::Failed {
            error: ErrorView::ChannelClosed,
            forget: false,
        },
        ConnectReplyView::Answered(Err(error)) => OpeningView::Failed { error, forget: true },
        ConnectReplyView::Answered(Ok(_)) => OpeningView::Open(new_connection(id, config_id)),
    }
}

/// Opens a connection that has its number, given what came of asking for it.
pub fn finish_opening(id: ConnectionId, config_id: &str, reply: ConnectReply) -> (opened: Opening)
    ensures
        opened@ == opening(id, config_id@, reply@),
{
    match reply {
        ConnectReply::Undelivered => Opening::Failed {
            error: RuntimeError::ChannelClosed,
            forget: true,
        },
        ConnectReply::Unanswered => Opening::Failed {
            error: RuntimeError::ChannelClosed,
            forget: false,
        },
        ConnectReply::Answered(Err(error)) => Opening::Failed { error, forget: true },
        ConnectReply::Answered(Ok(_)) => Opening::Open(ConnectionState::new(id, config_id)),
    }
}

/// A connection is open once the other side said so, under its number and for its model, and
/// takes requests, the first of which is number one. Else there is none, and the error says
/// why. It stays known only where the other side may know it.
pub proof fn connection_opens_where_it_is_granted(
    id: ConnectionId,
    config_id: Seq<char>,
    reply: ConnectReplyView,
)
    ensures
        match opening(id, config_id, reply) {
            OpeningView::Open(connection) => {
                &&& reply matches ConnectReplyView::Answered(Ok(_))
                &&& connection.id == id
                &&& connection.config_id == config_id
                &&& connection.request_number() == Ok::<u64, ErrorView>(1)
            },
            OpeningView::Failed { error, forget } => {
                &&& !(reply matches ConnectReplyView::Answered(Ok(_)))
                &&& reply matches ConnectReplyView::Answered(Err(refusal)) ==> error == refusal
                &&& !(reply is Answered) ==> error is ChannelClosed
                &&& forget <==> !(reply is Unanswered)
            },
        },
{
}

} // verus!
