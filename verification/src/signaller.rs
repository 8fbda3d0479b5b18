//! The room router of the embedded signalling server.
//!
//! Sharers open rooms, viewers join them, and session descriptions and ICE
//! candidates are relayed between the two. The router reads only the
//! envelope fields of a message (`type`, `from`, `to`, `room`); everything it
//! forwards is the inbound text as it came. Connections are named by number,
//! and each one may register once, as the sharer of a room or as a viewer.

use vstd::prelude::*;
use crate::keyed::{entry_map, has_key, keep_entries, keep_map, keys_distinct, lemma_keep_entries, lemma_entry_map_dom, lemma_entry_map_index, lemma_entry_map_push, lemma_entry_map_remove, lemma_entry_map_update};
use crate::text::{is_blank, trim};
use crate::auth::push_char;
use crate::keyed::lemma_entry_map_len;
use vstd::relations::injective_on;
use vstd::set_lib::{lemma_int_range, lemma_len_subset, lemma_map_size, set_int_range};

verus! {

/// Seconds of silence after which a connection is dropped.
pub const IDLE_TIMEOUT_SECS: u64 = 90;

/// Seconds between two sweeps for idle connections.
pub const REAP_INTERVAL_SECS: u64 = 10;

/// The routing fields of an inbound message.
pub struct Envelope {
    pub kind: String,
    pub from: Option<String>,
    pub to: Option<String>,
    pub room: Option<String>,
}

/// [`Envelope`] as plain sequences.
pub struct EnvelopeView {
    pub kind: Seq<char>,
    pub from: Option<Seq<char>>,
    pub to: Option<Seq<char>>,
    pub room: Option<Seq<char>>,
}

pub open spec fn text_option(o: Option<String>) -> Option<Seq<char>> {
    match o {
        Some(s) => Some(s@),
        None => None,
    }
}

impl View for Envelope {
    type V = EnvelopeView;

    open spec fn view(&self) -> EnvelopeView {
        EnvelopeView {
            kind: self.kind@,
            from: text_option(self.from),
            to: text_option(self.to),
            room: text_option(self.room),
        }
    }
}

/// The message types the router tells apart.
#[derive(PartialEq, Eq, Structural, Clone, Copy, Debug)]
pub enum MessageKind {
    Start,
    Join,
    Offer,
    Ice,
    Answer,
    Leave,
    JoinDeclined,
    RoomClosed,
    IceServers,
    KeepAlive,
    Other,
}

/// The kind named by a message's `type` field.
pub open spec fn kind_of(kind: Seq<char>) -> MessageKind {
    if kind == "start"@ {
        MessageKind::Start
    } else if kind == "join"@ {
        MessageKind::Join
    } else if kind == "offer"@ {
        MessageKind::Offer
    } else if kind == "ice"@ {
        MessageKind::Ice
    } else if kind == "answer"@ {
        MessageKind::Answer
    } else if kind == "leave"@ {
        MessageKind::Leave
    } else if kind == "join_declined"@ {
        MessageKind::JoinDeclined
    } else if kind == "room_closed"@ {
        MessageKind::RoomClosed
    } else if kind == "ice_servers"@ {
        MessageKind::IceServers
    } else if kind == "keep_alive"@ {
        MessageKind::KeepAlive
    } else {
        MessageKind::Other
    }
}

fn text_is(s: &String, literal: &str) -> (same: bool)
    ensures
        same == (s@ == literal@),
{
    let expected: String = literal.to_owned();
    *s == expected
}

/// Tells the message types apart by their `type` field.
pub fn classify(kind: &String) -> (k: MessageKind)
    ensures
        k == kind_of(kind@),
{
    if text_is(kind, "start") {
        MessageKind::Start
    } else if text_is(kind, "join") {
        MessageKind::Join
    } else if text_is(kind, "offer") {
        MessageKind::Offer
    } else if text_is(kind, "ice") {
        MessageKind::Ice
    } else if text_is(kind, "answer") {
        MessageKind::Answer
    } else if text_is(kind, "leave") {
        MessageKind::Leave
    } else if text_is(kind, "join_declined") {
        MessageKind::JoinDeclined
    } else if text_is(kind, "room_closed") {
        MessageKind::RoomClosed
    } else if text_is(kind, "ice_servers") {
        MessageKind::IceServers
    } else if text_is(kind, "keep_alive") {
        MessageKind::KeepAlive
    } else {
        MessageKind::Other
    }
}

/// A message the router sends.
#[derive(Debug, PartialEq, Eq)]
pub enum Outbound {
    /// The inbound message, forwarded unchanged.
    Relay,
    /// `{"type": "start_response", "room": room}`.
    StartResponse { room: String },
    /// `{"type": "join_declined", "reason": 0, "to": to}`.
    JoinDeclined { to: String },
    /// `{"type": "room_closed", "to": to, "room": room}`.
    RoomClosed { to: String, room: String },
    /// `{"type": "ice_servers_response", "ice_servers": []}`.
    IceServersResponse,
}

/// [`Outbound`] as plain sequences.
pub enum OutboundView {
    Relay,
    StartResponse(Seq<char>),
    JoinDeclined(Seq<char>),
    RoomClosed(Seq<char>, Seq<char>),
    IceServersResponse,
}

impl View for Outbound {
    type V = OutboundView;

    open spec fn view(&self) -> OutboundView {
        match self {
            Outbound::Relay => OutboundView::Relay,
            Outbound::StartResponse { room } => OutboundView::StartResponse(room@),
            Outbound::JoinDeclined { to } => OutboundView::JoinDeclined(to@),
            Outbound::RoomClosed { to, room } => OutboundView::RoomClosed(to@, room@),
            Outbound::IceServersResponse => OutboundView::IceServersResponse,
        }
    }
}

/// A message for the connection numbered `conn`.
#[derive(Debug, PartialEq, Eq)]
pub struct Delivery {
    pub conn: usize,
    pub message: Outbound,
}

impl View for Delivery {
    type V = (usize, OutboundView);

    open spec fn view(&self) -> (usize, OutboundView) {
        (self.conn, self.message@)
    }
}

pub open spec fn deliveries_view(d: Seq<Delivery>) -> Seq<(usize, OutboundView)> {
    d.map_values(|x: Delivery| x@)
}

pub open spec fn reply_view(r: Option<Outbound>) -> Option<OutboundView> {
    match r {
        Some(m) => Some(m@),
        None => None,
    }
}

/// What routing one message produced: a reply to the sender, messages for
/// other connections, and whether the sender registered (handed over its
/// outbound channel to a room or viewer registration).
pub struct Routed {
    pub reply: Option<Outbound>,
    pub deliveries: Vec<Delivery>,
    pub registered: bool,
}

pub struct RoutedView {
    pub reply: Option<OutboundView>,
    pub deliveries: Seq<(usize, OutboundView)>,
    pub registered: bool,
}

impl View for Routed {
    type V = RoutedView;

    open spec fn view(&self) -> RoutedView {
        RoutedView {
            reply: reply_view(self.reply),
            deliveries: deliveries_view(self.deliveries@),
            registered: self.registered,
        }
    }
}

/// A live room.
pub struct RoomView {
    /// The connection of the sharer that opened the room.
    pub sharer: usize,
    /// The viewers that asked to join, in order.
    pub viewers: Seq<Seq<char>>,
}

/// A registered viewer.
pub struct ViewerView {
    /// The viewer's connection.
    pub conn: usize,
    /// The room it joined.
    pub room: Seq<char>,
}

/// The router's state: rooms by id and viewers by id.
pub struct SignallerView {
    pub rooms: Map<Seq<char>, RoomView>,
    pub viewers: Map<Seq<char>, ViewerView>,
}

struct RoomEntry {
    id: String,
    sharer: usize,
    viewers: Vec<String>,
}

struct ViewerEntry {
    id: String,
    conn: usize,
    room: String,
}

spec fn texts(v: Seq<String>) -> Seq<Seq<char>> {
    v.map_values(|s: String| s@)
}

impl RoomEntry {
    spec fn entry(self) -> (Seq<char>, RoomView) {
        (self.id@, RoomView { sharer: self.sharer, viewers: texts(self.viewers@) })
    }
}

impl ViewerEntry {
    spec fn entry(self) -> (Seq<char>, ViewerView) {
        (self.id@, ViewerView { conn: self.conn, room: self.room@ })
    }
}

/// The signalling router's registrations.
pub struct SignallerState {
    rooms: Vec<RoomEntry>,
    viewers: Vec<ViewerEntry>,
}

impl SignallerState {
    /// The rooms, in the order in which they were opened.
    pub closed spec fn room_entries(&self) -> Seq<(Seq<char>, RoomView)> {
        self.rooms@.map_values(|e: RoomEntry| e.entry())
    }

    /// The viewer registrations, in the order in which they were made.
    pub closed spec fn viewer_entries(&self) -> Seq<(Seq<char>, ViewerView)> {
        self.viewers@.map_values(|e: ViewerEntry| e.entry())
    }

    /// No room id and no viewer id is registered twice.
    pub open spec fn wf(&self) -> bool {
        &&& keys_distinct(self.room_entries())
        &&& keys_distinct(self.viewer_entries())
    }
}

impl View for SignallerState {
    type V = SignallerView;

    open spec fn view(&self) -> SignallerView {
        SignallerView {
            rooms: entry_map(self.room_entries()),
            viewers: entry_map(self.viewer_entries()),
        }
    }
}

impl SignallerState {
    /// A router with no rooms and no viewers.
    pub fn new() -> (state: Self)
        ensures
            state.wf(),
            state@.rooms == Map::<Seq<char>, RoomView>::empty(),
            state@.viewers == Map::<Seq<char>, ViewerView>::empty(),
    {
        let state = SignallerState { rooms: Vec::new(), viewers: Vec::new() };
        assert(state.room_entries() =~= Seq::empty());
        assert(state.viewer_entries() =~= Seq::empty());
        state
    }

    /// The index of room `key`, if it is open.
    fn room_index(&self, key: &String) -> (found: Option<usize>)
        requires
            self.wf(),
        ensures
            match found {
                Some(i) => i < self.rooms@.len() && self.room_entries()[i as int].0 == key@
                    && self@.rooms.contains_key(key@) && self@.rooms[key@]
                    == self.room_entries()[i as int].1,
                None => !self@.rooms.contains_key(key@),
            },
    {
        let mut i: usize = 0;
        while i < self.rooms.len()
            invariant
                self.wf(),
                i <= self.rooms@.len(),
                forall|j: int| 0 <= j < i ==> self.room_entries()[j].0 != key@,
            decreases self.rooms@.len() - i,
        {
            if self.rooms[i].id == *key {
                proof {
                    lemma_entry_map_index(self.room_entries(), i as int);
                }
                return Some(i);
            }
            i = i + 1;
        }
        proof {
            lemma_entry_map_dom(self.room_entries(), key@);
        }
        None
    }

    /// The index of viewer `key`, if it is registered.
    fn viewer_index(&self, key: &String) -> (found: Option<usize>)
        requires
            self.wf(),
        ensures
            match found {
                Some(i) => i < self.viewers@.len() && self.viewer_entries()[i as int].0 == key@
                    && self@.viewers.contains_key(key@) && self@.viewers[key@]
                    == self.viewer_entries()[i as int].1,
                None => !self@.viewers.contains_key(key@),
            },
    {
        let mut i: usize = 0;
        while i < self.viewers.len()
            invariant
                self.wf(),
                i <= self.viewers@.len(),
                forall|j: int| 0 <= j < i ==> self.viewer_entries()[j].0 != key@,
            decreases self.viewers@.len() - i,
        {
            if self.viewers[i].id == *key {
                proof {
                    lemma_entry_map_index(self.viewer_entries(), i as int);
                }
                return Some(i);
            }
            i = i + 1;
        }
        proof {
            lemma_entry_map_dom(self.viewer_entries(), key@);
        }
        None
    }

    /// Whether connection `conn` holds a registration: it is the sharer of an
    /// open room, or a registered viewer. A connection whose registration is
    /// gone has its outbound channel closed.
    pub fn holds_registration(&self, conn: usize) -> (held: bool)
        requires
            self.wf(),
        ensures
            held == holds_registration(self@, conn),
    {
        let mut i: usize = 0;
        while i < self.rooms.len()
            invariant
                self.wf(),
                i <= self.rooms@.len(),
                forall|j: int| 0 <= j < i ==> self.room_entries()[j].1.sharer != conn,
            decreases self.rooms@.len() - i,
        {
            if self.rooms[i].sharer == conn {
                proof {
                    lemma_entry_map_index(self.room_entries(), i as int);
                    assert(self@.rooms.contains_key(self.room_entries()[i as int].0));
                }
                return true;
            }
            i = i + 1;
        }
        let mut k: usize = 0;
        while k < self.viewers.len()
            invariant
                self.wf(),
                k <= self.viewers@.len(),
                forall|j: int| 0 <= j < k ==> self.viewer_entries()[j].1.conn != conn,
            decreases self.viewers@.len() - k,
        {
            if self.viewers[k].conn == conn {
                proof {
                    lemma_entry_map_index(self.viewer_entries(), k as int);
                    assert(self@.viewers.contains_key(self.viewer_entries()[k as int].0));
                }
                return true;
            }
            k = k + 1;
        }
        proof {
            assert forall|r: Seq<char>| #[trigger] self@.rooms.contains_key(r) implies self@.rooms[r].sharer
                != conn by {
                lemma_entry_map_dom(self.room_entries(), r);
                let j = choose|j: int| 0 <= j < self.room_entries().len() && self.room_entries()[j].0 == r;
                lemma_entry_map_index(self.room_entries(), j);
            }
            assert forall|v: Seq<char>| #[trigger] self@.viewers.contains_key(v) implies self@.viewers[v].conn
                != conn by {
                lemma_entry_map_dom(self.viewer_entries(), v);
                let j = choose|j: int| 0 <= j < self.viewer_entries().len() && self.viewer_entries()[j].0 == v;
                lemma_entry_map_index(self.viewer_entries(), j);
            }
        }
        false
    }
}

/// Whether `conn` is the sharer of an open room or a registered viewer.
pub open spec fn holds_registration(s: SignallerView, conn: usize) -> bool {
    ||| exists|r: Seq<char>| #[trigger] s.rooms.contains_key(r) && s.rooms[r].sharer == conn
    ||| exists|v: Seq<char>| #[trigger] s.viewers.contains_key(v) && s.viewers[v].conn == conn
}

/// Nothing changes and nothing is sent.
pub open spec fn idle(s: SignallerView) -> (SignallerView, RoutedView) {
    (s, RoutedView { reply: None, deliveries: seq![], registered: false })
}

/// Nothing changes; `deliveries` are sent.
pub open spec fn relayed(s: SignallerView, deliveries: Seq<(usize, OutboundView)>) -> (
    SignallerView,
    RoutedView,
) {
    (s, RoutedView { reply: None, deliveries, registered: false })
}

/// The room a sharer asked for, unless the request is absent or blank.
pub open spec fn requested_room(room: Option<Seq<char>>) -> Option<Seq<char>> {
    match room {
        Some(r) => if trim(r).len() > 0 {
            Some(r)
        } else {
            None
        },
        None => None,
    }
}

/// The room a sharer gets: the one it asked for if that is free, else `fresh`.
pub open spec fn start_room(s: SignallerView, room: Option<Seq<char>>, fresh: Seq<char>) -> Seq<
    char,
> {
    match requested_room(room) {
        Some(r) => if !s.rooms.contains_key(r) {
            r
        } else {
            fresh
        },
        None => fresh,
    }
}

/// `start`: a connection that has not registered yet opens a room.
pub open spec fn start_spec(
    s: SignallerView,
    conn: usize,
    can_register: bool,
    room: Option<Seq<char>>,
    fresh: Seq<char>,
) -> (SignallerView, RoutedView) {
    if !can_register {
        idle(s)
    } else {
        let r = start_room(s, room, fresh);
        (
            SignallerView {
                rooms: s.rooms.insert(r, RoomView { sharer: conn, viewers: seq![] }),
                viewers: s.viewers,
            },
            RoutedView {
                reply: Some(OutboundView::StartResponse(r)),
                deliveries: seq![],
                registered: true,
            },
        )
    }
}

/// `join`: a viewer asks to join room `room`; the request goes to the room's
/// sharer, and an unknown room is declined.
pub open spec fn join_spec(
    s: SignallerView,
    conn: usize,
    can_register: bool,
    room: Option<Seq<char>>,
    from: Option<Seq<char>>,
) -> (SignallerView, RoutedView) {
    match (room, from) {
        (Some(q), Some(v)) => if !s.rooms.contains_key(q) {
            (
                s,
                RoutedView {
                    reply: Some(OutboundView::JoinDeclined(v)),
                    deliveries: seq![],
                    registered: false,
                },
            )
        } else {
            let rooms = s.rooms.insert(
                q,
                RoomView { sharer: s.rooms[q].sharer, viewers: s.rooms[q].viewers.push(v) },
            );
            if can_register {
                (
                    SignallerView {
                        rooms,
                        viewers: s.viewers.insert(v, ViewerView { conn, room: q }),
                    },
                    RoutedView {
                        reply: None,
                        deliveries: seq![(s.rooms[q].sharer, OutboundView::Relay)],
                        registered: true,
                    },
                )
            } else {
                idle(SignallerView { rooms, viewers: s.viewers })
            }
        },
        _ => idle(s),
    }
}

/// Whether routing `env` needs a freshly generated room id.
pub open spec fn needs_fresh_room(s: SignallerView, can_register: bool, env: EnvelopeView) -> bool {
    &&& kind_of(env.kind) == MessageKind::Start
    &&& can_register
    &&& match requested_room(env.room) {
        Some(r) => s.rooms.contains_key(r),
        None => true,
    }
}

/// A room id in the hyphenated form of a UUID: 36 characters, hyphens at
/// positions 8, 13, 18 and 23, lowercase hexadecimal digits elsewhere.
pub open spec fn is_uuid_text(t: Seq<char>) -> bool {
    &&& t.len() == 36
    &&& forall|i: int|
        0 <= i < 36 ==> if i == 8 || i == 13 || i == 18 || i == 23 {
            #[trigger] t[i] == '-'
        } else {
            ('0' <= t[i] && t[i] <= '9') || ('a' <= t[i] && t[i] <= 'f')
        }
}

/// Calls `uuid::Uuid::new_v4` and formats the result with `to_string`, whose
/// `Display` impl writes the lowercase hyphenated form. The value is random:
/// only its shape is stated.
#[verifier::external_body]
fn new_room_id() -> (id: String)
    ensures
        is_uuid_text(id@),
{
    uuid::Uuid::new_v4().to_string()
}

/// A room id of the UUID shape, all digits zero.
pub open spec fn uuid_witness() -> Seq<char> {
    Seq::new(36, |i: int| if i == 8 || i == 13 || i == 18 || i == 23 { '-' } else { '0' })
}

/// The lowercase hexadecimal digits.
pub open spec fn hex_digits() -> Seq<char> {
    seq!['0', '1', '2', '3', '4', '5', '6', '7', '8', '9', 'a', 'b', 'c', 'd', 'e', 'f']
}

const HEX_DIGITS: [char; 16] = ['0', '1', '2', '3', '4', '5', '6', '7', '8', '9', 'a', 'b', 'c', 'd', 'e', 'f'];

/// Hexadecimal digit `j` of `k`, counting from the most significant of its
/// sixteen.
pub open spec fn nibble(k: u64, j: int) -> u64 {
    (k >> ((60 - 4 * j) as u64)) & 15u64
}

/// Character `i` of spare room id number `k`.
pub open spec fn spare_char(k: u64, i: int) -> char {
    if i == 8 || i == 13 || i == 18 || i == 23 {
        '-'
    } else if i < 19 {
        '0'
    } else {
        hex_digits()[nibble(k, if i < 23 { i - 19 } else { i - 20 }) as int]
    }
}

/// Spare room id number `k`: the UUID shape, with `k` in hexadecimal as its
/// last sixteen digits and zeros before them. Used only when a generated id
/// is already a live room.
pub open spec fn spare_room_id(k: u64) -> Seq<char> {
    Seq::new(36, |i: int| spare_char(k, i))
}

proof fn lemma_hex_digits_distinct(a: int, b: int)
    requires
        0 <= a < 16,
        0 <= b < 16,
        hex_digits()[a] == hex_digits()[b],
    ensures
        a == b,
{
}

proof fn lemma_spare_room_id_is_uuid(k: u64)
    ensures
        is_uuid_text(spare_room_id(k)),
{
    assert forall|i: int| 0 <= i < 36 implies if i == 8 || i == 13 || i == 18 || i == 23 {
        #[trigger] spare_room_id(k)[i] == '-'
    } else {
        ('0' <= spare_room_id(k)[i] && spare_room_id(k)[i] <= '9') || ('a' <= spare_room_id(k)[i] && spare_room_id(k)[i] <= 'f')
    } by {
        if !(i == 8 || i == 13 || i == 18 || i == 23) && i >= 19 {
            let j = if i < 23 { i - 19 } else { i - 20 };
            let sh = (60 - 4 * j) as u64;
            assert((k >> sh) & 15u64 < 16) by (bit_vector);
        }
    }
}

/// Different numbers give different spare ids.
proof fn lemma_spare_room_id_injective(k1: u64, k2: u64)
    requires
        spare_room_id(k1) == spare_room_id(k2),
    ensures
        k1 == k2,
{
    assert forall|j: int| 0 <= j < 16 implies #[trigger] nibble(k1, j) == nibble(k2, j) by {
        let p = if j < 4 { 19 + j } else { 20 + j };
        assert(spare_room_id(k1)[p] == spare_room_id(k2)[p]);
        assert(spare_room_id(k1)[p] == spare_char(k1, p));
        assert(spare_room_id(k2)[p] == spare_char(k2, p));
        assert(spare_char(k1, p) == hex_digits()[nibble(k1, j) as int]);
        assert(spare_char(k2, p) == hex_digits()[nibble(k2, j) as int]);
        let sh = (60 - 4 * j) as u64;
        assert((k1 >> sh) & 15u64 < 16 && (k2 >> sh) & 15u64 < 16) by (bit_vector);
        lemma_hex_digits_distinct(nibble(k1, j) as int, nibble(k2, j) as int);
    }
    assert(nibble(k1, 0) == nibble(k2, 0));
    assert(nibble(k1, 1) == nibble(k2, 1));
    assert(nibble(k1, 2) == nibble(k2, 2));
    assert(nibble(k1, 3) == nibble(k2, 3));
    assert(nibble(k1, 4) == nibble(k2, 4));
    assert(nibble(k1, 5) == nibble(k2, 5));
    assert(nibble(k1, 6) == nibble(k2, 6));
    assert(nibble(k1, 7) == nibble(k2, 7));
    assert(nibble(k1, 8) == nibble(k2, 8));
    assert(nibble(k1, 9) == nibble(k2, 9));
    assert(nibble(k1, 10) == nibble(k2, 10));
    assert(nibble(k1, 11) == nibble(k2, 11));
    assert(nibble(k1, 12) == nibble(k2, 12));
    assert(nibble(k1, 13) == nibble(k2, 13));
    assert(nibble(k1, 14) == nibble(k2, 14));
    assert(nibble(k1, 15) == nibble(k2, 15));
    assert(k1 == k2) by (bit_vector)
        requires
            (k1 >> 60u64) & 15u64 == (k2 >> 60u64) & 15u64,
            (k1 >> 56u64) & 15u64 == (k2 >> 56u64) & 15u64,
            (k1 >> 52u64) & 15u64 == (k2 >> 52u64) & 15u64,
            (k1 >> 48u64) & 15u64 == (k2 >> 48u64) & 15u64,
            (k1 >> 44u64) & 15u64 == (k2 >> 44u64) & 15u64,
            (k1 >> 40u64) & 15u64 == (k2 >> 40u64) & 15u64,
            (k1 >> 36u64) & 15u64 == (k2 >> 36u64) & 15u64,
            (k1 >> 32u64) & 15u64 == (k2 >> 32u64) & 15u64,
            (k1 >> 28u64) & 15u64 == (k2 >> 28u64) & 15u64,
            (k1 >> 24u64) & 15u64 == (k2 >> 24u64) & 15u64,
            (k1 >> 20u64) & 15u64 == (k2 >> 20u64) & 15u64,
            (k1 >> 16u64) & 15u64 == (k2 >> 16u64) & 15u64,
            (k1 >> 12u64) & 15u64 == (k2 >> 12u64) & 15u64,
            (k1 >> 8u64) & 15u64 == (k2 >> 8u64) & 15u64,
            (k1 >> 4u64) & 15u64 == (k2 >> 4u64) & 15u64,
            (k1 >> 0u64) & 15u64 == (k2 >> 0u64) & 15u64,
    ;
}

/// A finite set of at most `n` rooms cannot hold all of the spare ids
/// numbered `0` to `n`.
proof fn lemma_spare_ids_not_all_live(rooms: Map<Seq<char>, RoomView>, n: nat)
    requires
        rooms.dom().finite(),
        rooms.dom().len() <= n,
        n <= u64::MAX,
    ensures
        exists|k: u64| k <= n && !#[trigger] rooms.contains_key(spare_room_id(k)),
{
    if forall|k: u64| k <= n ==> #[trigger] rooms.contains_key(spare_room_id(k)) {
        lemma_spare_ids_exhaust(rooms, n);
    }
}

proof fn lemma_spare_ids_exhaust(rooms: Map<Seq<char>, RoomView>, n: nat)
    requires
        rooms.dom().finite(),
        n <= u64::MAX,
        forall|k: u64| k <= n ==> #[trigger] rooms.contains_key(spare_room_id(k)),
    ensures
        rooms.dom().len() > n,
{
    let ks = set_int_range(0, (n + 1) as int);
    lemma_int_range(0, (n + 1) as int);
    let f = |x: int| spare_room_id(x as u64);
    assert(injective_on(f, ks)) by {
        assert forall|x: int, y: int| ks.contains(x) && ks.contains(y) && #[trigger] f(x) == #[trigger] f(y) implies x == y by {
            lemma_spare_room_id_injective(x as u64, y as u64);
        }
    }
    let img = ks.map(f);
    lemma_map_size(ks, img, f);
    assert(img.subset_of(rooms.dom())) by {
        assert forall|id: Seq<char>| img.contains(id) implies rooms.dom().contains(id) by {
            let x = choose|x: int| ks.contains(x) && f(x) == id;
            assert(rooms.contains_key(spare_room_id(x as u64)));
        }
    }
    lemma_len_subset(img, rooms.dom());
}

/// The text of spare room id number `k`.
fn spare_room_id_text(k: u64) -> (id: String)
    ensures
        id@ == spare_room_id(k),
{
    let mut id = String::new();
    let mut i: usize = 0;
    assert(HEX_DIGITS@ =~= hex_digits());
    while i < 36
        invariant
            i <= 36,
            id@ == spare_room_id(k).take(i as int),
            HEX_DIGITS@ == hex_digits(),
        decreases 36 - i,
    {
        let c: char = if i == 8 || i == 13 || i == 18 || i == 23 {
            '-'
        } else if i < 19 {
            '0'
        } else {
            let j: u64 = if i < 23 { (i - 19) as u64 } else { (i - 20) as u64 };
            let sh: u64 = 60 - 4 * j;
            let d: u64 = (k >> sh) & 15;
            assert(d < 16) by (bit_vector)
                requires
                    d == (k >> sh) & 15,
            ;
            HEX_DIGITS[d as usize]
        };
        assert(c == spare_char(k, i as int));
        push_char(&mut id, c);
        assert(spare_room_id(k).take(i + 1) =~= spare_room_id(k).take(i as int).push(c));
        i = i + 1;
    }
    assert(spare_room_id(k).take(36) =~= spare_room_id(k));
    id
}

impl SignallerState {
    /// Some UUID-shaped room id is not live.
    proof fn lemma_free_uuid_exists(&self)
        requires
            self.wf(),
        ensures
            exists|f: Seq<char>| #![trigger is_uuid_text(f)] is_uuid_text(f) && !self@.rooms.contains_key(f),
    {
        lemma_entry_map_len(self.room_entries());
        assert(self.rooms@.len() == self.rooms.len());
        lemma_spare_ids_not_all_live(self@.rooms, self.rooms.len() as nat);
        let m = choose|m: u64| m <= self.rooms.len() && !#[trigger] self@.rooms.contains_key(spare_room_id(m));
        lemma_spare_room_id_is_uuid(m);
    }

    /// A UUID-shaped room id that is not live: the first spare id that no
    /// room holds.
    fn free_room_id(&self) -> (id: String)
        requires
            self.wf(),
        ensures
            is_uuid_text(id@),
            !self@.rooms.contains_key(id@),
    {
        let n: usize = self.rooms.len();
        proof {
            lemma_entry_map_len(self.room_entries());
            lemma_spare_ids_not_all_live(self@.rooms, n as nat);
        }
        let mut k: u64 = 0;
        loop
            invariant
                self.wf(),
                n == self.rooms@.len(),
                k <= n,
                exists|m: u64| k <= m <= n && !#[trigger] self@.rooms.contains_key(spare_room_id(m)),
            decreases n - k,
        {
            let candidate = spare_room_id_text(k);
            if self.room_index(&candidate).is_none() {
                proof {
                    lemma_spare_room_id_is_uuid(k);
                }
                return candidate;
            }
            k = k + 1;
        }
    }
}

impl SignallerState {
    /// Registers room `entry`, replacing a room with the same id.
    fn put_room(&mut self, entry: RoomEntry)
        requires
            old(self).wf(),
        ensures
            final(self).wf(),
            final(self)@.rooms == old(self)@.rooms.insert(entry.entry().0, entry.entry().1),
            final(self)@.viewers == old(self)@.viewers,
    {
        match self.room_index(&entry.id) {
            Some(i) => {
                let ghost before = self.room_entries();
                self.rooms.set(i, entry);
                proof {
                    assert(self.room_entries() =~= before.update(i as int, (before[i as int].0, entry.entry().1)));
                    lemma_entry_map_update(before, i as int, entry.entry().1);
                }
            },
            None => {
                let ghost before = self.room_entries();
                self.rooms.push(entry);
                proof {
                    assert(self.room_entries() =~= before.push(entry.entry()));
                    lemma_entry_map_push(before, entry.entry().0, entry.entry().1);
                }
            },
        }
    }

    /// Registers viewer `entry`, replacing a viewer with the same id.
    fn put_viewer(&mut self, entry: ViewerEntry)
        requires
            old(self).wf(),
        ensures
            final(self).wf(),
            final(self)@.viewers == old(self)@.viewers.insert(entry.entry().0, entry.entry().1),
            final(self)@.rooms == old(self)@.rooms,
            final(self).room_entries() == old(self).room_entries(),
    {
        match self.viewer_index(&entry.id) {
            Some(i) => {
                let ghost before = self.viewer_entries();
                self.viewers.set(i, entry);
                proof {
                    assert(self.viewer_entries() =~= before.update(i as int, (before[i as int].0, entry.entry().1)));
                    lemma_entry_map_update(before, i as int, entry.entry().1);
                }
            },
            None => {
                let ghost before = self.viewer_entries();
                self.viewers.push(entry);
                proof {
                    assert(self.viewer_entries() =~= before.push(entry.entry()));
                    lemma_entry_map_push(before, entry.entry().0, entry.entry().1);
                }
            },
        }
    }

    /// Drops the registration of viewer `key`, if there is one.
    fn drop_viewer(&mut self, key: &String)
        requires
            old(self).wf(),
        ensures
            final(self).wf(),
            final(self)@.viewers == old(self)@.viewers.remove(key@),
            final(self)@.rooms == old(self)@.rooms,
            final(self).room_entries() == old(self).room_entries(),
    {
        match self.viewer_index(key) {
            Some(i) => {
                let ghost before = self.viewer_entries();
                let _gone = self.viewers.remove(i);
                proof {
                    assert(self.viewer_entries() =~= before.remove(i as int));
                    lemma_entry_map_remove(before, i as int);
                }
            },
            None => {
                assert(self@.viewers =~= self@.viewers.remove(key@));
            },
        }
    }

    /// `start` with `fresh` as the room id to use when the requested one is
    /// absent, blank or taken.
    pub fn start_with(&mut self, conn: usize, can_register: bool, room: &Option<String>, fresh: String) -> (routed: Routed)
        requires
            old(self).wf(),
        ensures
            final(self).wf(),
            (final(self)@, routed@) == start_spec(old(self)@, conn, can_register, text_option(*room), fresh@),
    {
        if !can_register {
            let routed = Routed { reply: None, deliveries: Vec::new(), registered: false };
            assert(deliveries_view(routed.deliveries@) =~= Seq::<(usize, OutboundView)>::empty());
            return routed;
        }
        let chosen: String = match room {
            Some(r) => {
                if is_blank(r.as_str()) {
                    fresh
                } else {
                    match self.room_index(r) {
                        None => r.clone(),
                        Some(_) => fresh,
                    }
                }
            },
            None => fresh,
        };
        assert(chosen@ == start_room(old(self)@, text_option(*room), fresh@));
        let reply_room = chosen.clone();
        let entry = RoomEntry { id: chosen, sharer: conn, viewers: Vec::new() };
        assert(texts(entry.viewers@) =~= Seq::<Seq<char>>::empty());
        self.put_room(entry);
        let routed = Routed {
            reply: Some(Outbound::StartResponse { room: reply_room }),
            deliveries: Vec::new(),
            registered: true,
        };
        assert(deliveries_view(routed.deliveries@) =~= Seq::<(usize, OutboundView)>::empty());
        routed
    }

    /// `join`: see [`join_spec`].
    pub fn join(&mut self, conn: usize, can_register: bool, room: &Option<String>, from: &Option<String>) -> (routed: Routed)
        requires
            old(self).wf(),
        ensures
            final(self).wf(),
            (final(self)@, routed@) == join_spec(old(self)@, conn, can_register, text_option(*room), text_option(*from)),
    {
        let idle_routed = Routed { reply: None, deliveries: Vec::new(), registered: false };
        assert(deliveries_view(idle_routed.deliveries@) =~= Seq::<(usize, OutboundView)>::empty());
        let (q, v) = match (room, from) {
            (Some(q), Some(v)) => (q, v),
            _ => { return idle_routed; },
        };
        let i = match self.room_index(q) {
            None => {
                return Routed {
                    reply: Some(Outbound::JoinDeclined { to: v.clone() }),
                    deliveries: Vec::new(),
                    registered: false,
                };
            },
            Some(i) => i,
        };
        let ghost before = self.room_entries();
        let sharer = self.rooms[i].sharer;
        let mut entry = self.rooms.remove(i);
        entry.viewers.push(v.clone());
        self.rooms.insert(i, entry);
        proof {
            assert(texts(entry.viewers@) =~= before[i as int].1.viewers.push(v@));
            assert(self.room_entries() =~= before.update(i as int, (before[i as int].0, entry.entry().1)));
            lemma_entry_map_update(before, i as int, entry.entry().1);
        }
        if !can_register {
            return idle_routed;
        }
        self.put_viewer(ViewerEntry { id: v.clone(), conn, room: q.clone() });
        let mut deliveries: Vec<Delivery> = Vec::new();
        deliveries.push(Delivery { conn: sharer, message: Outbound::Relay });
        let routed = Routed { reply: None, deliveries, registered: true };
        assert(deliveries_view(routed.deliveries@) =~= seq![(sharer, OutboundView::Relay)]);
        routed
    }

    /// Routes a `start` message, generating a random room id when one is needed.
    pub fn start(&mut self, conn: usize, can_register: bool, room: &Option<String>) -> (routed: Routed)
        requires
            old(self).wf(),
        ensures
            final(self).wf(),
            exists|fresh: Seq<char>| #![trigger is_uuid_text(fresh)]
                is_uuid_text(fresh) && !old(self)@.rooms.contains_key(fresh)
                && (final(self)@, routed@) == start_spec(old(self)@, conn, can_register, text_option(*room), fresh),
    {
        let needed: bool = can_register && match room {
            Some(r) => is_blank(r.as_str()) || self.room_index(r).is_some(),
            None => true,
        };
        if needed {
            let mut fresh = new_room_id();
            if self.room_index(&fresh).is_some() {
                fresh = self.free_room_id();
            }
            let ghost f = fresh@;
            let routed = self.start_with(conn, can_register, room, fresh);
            assert(is_uuid_text(f));
            routed
        } else {
            let unused = String::new();
            let ghost u = unused@;
            proof {
                self.lemma_free_uuid_exists();
            }
            let ghost w = choose|f: Seq<char>| #![trigger is_uuid_text(f)] is_uuid_text(f) && !self@.rooms.contains_key(f);
            let routed = self.start_with(conn, can_register, room, unused);
            proof {
                assert(is_uuid_text(w));
                assert(start_spec(old(self)@, conn, can_register, text_option(*room), w)
                    == start_spec(old(self)@, conn, can_register, text_option(*room), u));
            }
            routed
        }
    }
}

/// The relay of a message addressed to viewer `to`, if it is registered.
pub open spec fn to_viewer(s: SignallerView, to: Seq<char>) -> Seq<(usize, OutboundView)> {
    if s.viewers.contains_key(to) {
        seq![(s.viewers[to].conn, OutboundView::Relay)]
    } else {
        seq![]
    }
}

/// The relay of a message to the sharer of room `room`, if it is open.
pub open spec fn to_sharer(s: SignallerView, room: Seq<char>) -> Seq<(usize, OutboundView)> {
    if s.rooms.contains_key(room) {
        seq![(s.rooms[room].sharer, OutboundView::Relay)]
    } else {
        seq![]
    }
}

/// `offer`: from a sharer to the viewer `to`.
pub open spec fn offer_spec(s: SignallerView, to: Option<Seq<char>>) -> (SignallerView, RoutedView) {
    match to {
        Some(t) => relayed(s, to_viewer(s, t)),
        None => idle(s),
    }
}

/// `ice`: to the viewer `to` if there is one, else to the sharer of room `to`.
pub open spec fn ice_spec(s: SignallerView, to: Option<Seq<char>>) -> (SignallerView, RoutedView) {
    match to {
        Some(t) => if s.viewers.contains_key(t) {
            relayed(s, to_viewer(s, t))
        } else {
            relayed(s, to_sharer(s, t))
        },
        None => idle(s),
    }
}

/// `answer`: from a viewer to the sharer of room `to`.
pub open spec fn answer_spec(s: SignallerView, to: Option<Seq<char>>) -> (SignallerView, RoutedView) {
    match to {
        Some(t) => relayed(s, to_sharer(s, t)),
        None => idle(s),
    }
}

/// The `room_closed` notices for the viewers `list` of room `room`, for those
/// of them that are registered, in order.
pub open spec fn closing_notices(
    viewers: Map<Seq<char>, ViewerView>,
    room: Seq<char>,
    list: Seq<Seq<char>>,
) -> Seq<(usize, OutboundView)>
    decreases list.len(),
{
    if list.len() == 0 {
        seq![]
    } else {
        let earlier = closing_notices(viewers, room, list.drop_last());
        let v = list.last();
        if viewers.contains_key(v) {
            earlier.push((viewers[v].conn, OutboundView::RoomClosed(v, room)))
        } else {
            earlier
        }
    }
}

/// `leave` from `from`: a sharer leaving closes room `from`, tells its viewers
/// and drops their registrations; a viewer leaving is dropped and its sharer
/// told.
pub open spec fn leave_spec(s: SignallerView, from: Option<Seq<char>>) -> (SignallerView, RoutedView) {
    match from {
        Some(f) => if s.rooms.contains_key(f) {
            (
                SignallerView {
                    rooms: s.rooms.remove(f),
                    viewers: s.viewers.remove_keys(s.rooms[f].viewers.to_set()),
                },
                RoutedView {
                    reply: None,
                    deliveries: closing_notices(s.viewers, f, s.rooms[f].viewers),
                    registered: false,
                },
            )
        } else if s.viewers.contains_key(f) {
            relayed(
                SignallerView { rooms: s.rooms, viewers: s.viewers.remove(f) },
                to_sharer(s, s.viewers[f].room),
            )
        } else {
            idle(s)
        },
        None => idle(s),
    }
}

/// `join_declined` or `room_closed` from a sharer: relayed to viewer `to`,
/// whose registration is then dropped.
pub open spec fn dismiss_spec(s: SignallerView, to: Option<Seq<char>>) -> (SignallerView, RoutedView) {
    match to {
        Some(t) => relayed(
            SignallerView { rooms: s.rooms, viewers: s.viewers.remove(t) },
            to_viewer(s, t),
        ),
        None => idle(s),
    }
}

/// The whole routing step for one inbound message from connection `conn`.
/// `can_register` tells whether the connection still has its outbound channel
/// to hand over; `fresh` is the room id used when a sharer needs a new one.
pub open spec fn route_spec(
    s: SignallerView,
    conn: usize,
    can_register: bool,
    env: EnvelopeView,
    fresh: Seq<char>,
) -> (SignallerView, RoutedView) {
    match kind_of(env.kind) {
        MessageKind::Start => start_spec(s, conn, can_register, env.room, fresh),
        MessageKind::Join => join_spec(s, conn, can_register, env.room, env.from),
        MessageKind::Offer => offer_spec(s, env.to),
        MessageKind::Ice => ice_spec(s, env.to),
        MessageKind::Answer => answer_spec(s, env.to),
        MessageKind::Leave => leave_spec(s, env.from),
        MessageKind::JoinDeclined => dismiss_spec(s, env.to),
        MessageKind::RoomClosed => dismiss_spec(s, env.to),
        MessageKind::IceServers => (
            s,
            RoutedView {
                reply: Some(OutboundView::IceServersResponse),
                deliveries: seq![],
                registered: false,
            },
        ),
        _ => idle(s),
    }
}

/// The `room_closed` notices that dropping connection `conn` sends: for each
/// room it shares, in order, the notices to that room's viewers.
pub open spec fn cleanup_notices(
    entries: Seq<(Seq<char>, RoomView)>,
    viewers: Map<Seq<char>, ViewerView>,
    conn: usize,
) -> Seq<(usize, OutboundView)>
    decreases entries.len(),
{
    if entries.len() == 0 {
        seq![]
    } else {
        let earlier = cleanup_notices(entries.drop_last(), viewers, conn);
        let e = entries.last();
        if e.1.sharer == conn {
            earlier + closing_notices(viewers, e.0, e.1.viewers)
        } else {
            earlier
        }
    }
}

/// Rooms not shared by `conn`.
pub open spec fn not_shared_by(conn: usize) -> spec_fn(RoomView) -> bool {
    |r: RoomView| r.sharer != conn
}

/// Viewers not on `conn`.
pub open spec fn not_on(conn: usize) -> spec_fn(ViewerView) -> bool {
    |v: ViewerView| v.conn != conn
}

fn no_deliveries() -> (d: Vec<Delivery>)
    ensures
        deliveries_view(d@) == Seq::<(usize, OutboundView)>::empty(),
{
    let d: Vec<Delivery> = Vec::new();
    assert(deliveries_view(d@) =~= Seq::<(usize, OutboundView)>::empty());
    d
}

fn relay_to(conn: usize) -> (d: Vec<Delivery>)
    ensures
        deliveries_view(d@) == seq![(conn, OutboundView::Relay)],
{
    let mut d: Vec<Delivery> = Vec::new();
    d.push(Delivery { conn, message: Outbound::Relay });
    assert(deliveries_view(d@) =~= seq![(conn, OutboundView::Relay)]);
    d
}

impl SignallerState {
    /// The relay to viewer `to`.
    fn relay_to_viewer(&self, to: &String) -> (d: Vec<Delivery>)
        requires
            self.wf(),
        ensures
            deliveries_view(d@) == to_viewer(self@, to@),
    {
        match self.viewer_index(to) {
            Some(k) => relay_to(self.viewers[k].conn),
            None => no_deliveries(),
        }
    }

    /// The relay to the sharer of room `room`.
    fn relay_to_sharer(&self, room: &String) -> (d: Vec<Delivery>)
        requires
            self.wf(),
        ensures
            deliveries_view(d@) == to_sharer(self@, room@),
    {
        match self.room_index(room) {
            Some(i) => relay_to(self.rooms[i].sharer),
            None => no_deliveries(),
        }
    }

    /// The `room_closed` notices for the viewers `list` of room `room`.
    fn closing_notices(&self, room: &String, list: &Vec<String>) -> (d: Vec<Delivery>)
        requires
            self.wf(),
        ensures
            deliveries_view(d@) == closing_notices(self@.viewers, room@, texts(list@)),
    {
        let mut d: Vec<Delivery> = Vec::new();
        let mut j: usize = 0;
        assert(texts(list@).take(0) =~= Seq::<Seq<char>>::empty());
        assert(deliveries_view(d@) =~= Seq::<(usize, OutboundView)>::empty());
        while j < list.len()
            invariant
                self.wf(),
                j <= list@.len(),
                deliveries_view(d@) == closing_notices(self@.viewers, room@, texts(list@).take(j as int)),
            decreases list@.len() - j,
        {
            let v = &list[j];
            let ghost before = deliveries_view(d@);
            match self.viewer_index(v) {
                Some(k) => {
                    d.push(Delivery {
                        conn: self.viewers[k].conn,
                        message: Outbound::RoomClosed { to: v.clone(), room: room.clone() },
                    });
                    assert(deliveries_view(d@) =~= before.push((self@.viewers[v@].conn, OutboundView::RoomClosed(v@, room@))));
                },
                None => {},
            }
            assert(texts(list@).take(j + 1).drop_last() =~= texts(list@).take(j as int));
            j = j + 1;
        }
        assert(texts(list@).take(list@.len() as int) =~= texts(list@));
        d
    }

    /// `offer`: see [`offer_spec`].
    pub fn offer(&self, to: &Option<String>) -> (routed: Routed)
        requires
            self.wf(),
        ensures
            (self@, routed@) == offer_spec(self@, text_option(*to)),
    {
        let deliveries = match to {
            Some(t) => self.relay_to_viewer(t),
            None => no_deliveries(),
        };
        Routed { reply: None, deliveries, registered: false }
    }

    /// `ice`: see [`ice_spec`].
    pub fn ice(&self, to: &Option<String>) -> (routed: Routed)
        requires
            self.wf(),
        ensures
            (self@, routed@) == ice_spec(self@, text_option(*to)),
    {
        let deliveries = match to {
            Some(t) => match self.viewer_index(t) {
                Some(k) => relay_to(self.viewers[k].conn),
                None => self.relay_to_sharer(t),
            },
            None => no_deliveries(),
        };
        Routed { reply: None, deliveries, registered: false }
    }

    /// `answer`: see [`answer_spec`].
    pub fn answer(&self, to: &Option<String>) -> (routed: Routed)
        requires
            self.wf(),
        ensures
            (self@, routed@) == answer_spec(self@, text_option(*to)),
    {
        let deliveries = match to {
            Some(t) => self.relay_to_sharer(t),
            None => no_deliveries(),
        };
        Routed { reply: None, deliveries, registered: false }
    }

    /// `join_declined` and `room_closed`: see [`dismiss_spec`].
    pub fn dismiss(&mut self, to: &Option<String>) -> (routed: Routed)
        requires
            old(self).wf(),
        ensures
            final(self).wf(),
            (final(self)@, routed@) == dismiss_spec(old(self)@, text_option(*to)),
    {
        match to {
            Some(t) => {
                let deliveries = self.relay_to_viewer(t);
                self.drop_viewer(t);
                Routed { reply: None, deliveries, registered: false }
            },
            None => Routed { reply: None, deliveries: no_deliveries(), registered: false },
        }
    }

    /// `leave`: see [`leave_spec`].
    pub fn leave(&mut self, from: &Option<String>) -> (routed: Routed)
        requires
            old(self).wf(),
        ensures
            final(self).wf(),
            (final(self)@, routed@) == leave_spec(old(self)@, text_option(*from)),
    {
        let f = match from {
            Some(f) => f,
            None => { return Routed { reply: None, deliveries: no_deliveries(), registered: false }; },
        };
        let ghost old_view = self@;
        match self.room_index(f) {
            Some(i) => {
                let ghost before = self.room_entries();
                let room = self.rooms.remove(i);
                proof {
                    assert(self.room_entries() =~= before.remove(i as int));
                    lemma_entry_map_remove(before, i as int);
                }
                let deliveries = self.closing_notices(f, &room.viewers);
                let ghost list = texts(room.viewers@);
                assert(list == old_view.rooms[f@].viewers);
                let mut j: usize = 0;
                assert(old_view.viewers =~= old_view.viewers.remove_keys(list.take(0).to_set()));
                while j < room.viewers.len()
                    invariant
                        self.wf(),
                        j <= room.viewers@.len(),
                        list == texts(room.viewers@),
                        self@.rooms == old_view.rooms.remove(f@),
                        self@.viewers == old_view.viewers.remove_keys(list.take(j as int).to_set()),
                    decreases room.viewers@.len() - j,
                {
                    self.drop_viewer(&room.viewers[j]);
                    assert(list.take(j + 1).to_set() =~= list.take(j as int).to_set().insert(list[j as int])) by {
                        let a = list.take(j + 1);
                        let b = list.take(j as int);
                        assert forall|x: Seq<char>| a.contains(x) <==> (b.contains(x) || x == list[j as int]) by {
                            if a.contains(x) {
                                let n = choose|n: int| 0 <= n < a.len() && a[n] == x;
                                if n < j {
                                    assert(b[n] == x);
                                }
                            }
                            if b.contains(x) {
                                let n = choose|n: int| 0 <= n < b.len() && b[n] == x;
                                assert(a[n] == x);
                            }
                            if x == list[j as int] {
                                assert(a[j as int] == x);
                            }
                        }
                    }
                    assert(self@.viewers =~= old_view.viewers.remove_keys(list.take(j + 1).to_set()));
                    j = j + 1;
                }
                assert(list.take(list.len() as int) =~= list);
                Routed { reply: None, deliveries, registered: false }
            },
            None => match self.viewer_index(f) {
                Some(k) => {
                    let room = self.viewers[k].room.clone();
                    self.drop_viewer(f);
                    let deliveries = self.relay_to_sharer(&room);
                    Routed { reply: None, deliveries, registered: false }
                },
                None => Routed { reply: None, deliveries: no_deliveries(), registered: false },
            },
        }
    }
}

impl SignallerState {
    /// Routes one inbound message from connection `conn`; `fresh` is the room
    /// id used if a sharer needs a new one.
    pub fn route_with(&mut self, conn: usize, can_register: bool, envelope: &Envelope, fresh: String) -> (routed: Routed)
        requires
            old(self).wf(),
        ensures
            final(self).wf(),
            (final(self)@, routed@) == route_spec(old(self)@, conn, can_register, envelope@, fresh@),
    {
        match classify(&envelope.kind) {
            MessageKind::Start => self.start_with(conn, can_register, &envelope.room, fresh),
            MessageKind::Join => self.join(conn, can_register, &envelope.room, &envelope.from),
            MessageKind::Offer => self.offer(&envelope.to),
            MessageKind::Ice => self.ice(&envelope.to),
            MessageKind::Answer => self.answer(&envelope.to),
            MessageKind::Leave => self.leave(&envelope.from),
            MessageKind::JoinDeclined => self.dismiss(&envelope.to),
            MessageKind::RoomClosed => self.dismiss(&envelope.to),
            MessageKind::IceServers => Routed {
                reply: Some(Outbound::IceServersResponse),
                deliveries: no_deliveries(),
                registered: false,
            },
            _ => Routed { reply: None, deliveries: no_deliveries(), registered: false },
        }
    }

    /// Routes one inbound message from connection `conn`, generating a random
    /// room id when a sharer needs one.
    pub fn route(&mut self, conn: usize, can_register: bool, envelope: &Envelope) -> (routed: Routed)
        requires
            old(self).wf(),
        ensures
            final(self).wf(),
            exists|fresh: Seq<char>| #![trigger is_uuid_text(fresh)]
                is_uuid_text(fresh) && !old(self)@.rooms.contains_key(fresh) && (final(self)@, routed@) == route_spec(
                    old(self)@,
                    conn,
                    can_register,
                    envelope@,
                    fresh,
                ),
            !needs_fresh_room(old(self)@, can_register, envelope@) ==> (final(self)@, routed@)
                == route_spec(old(self)@, conn, can_register, envelope@, Seq::empty()),
    {
        let ghost old_view = self@;
        match classify(&envelope.kind) {
            MessageKind::Start => {
                let routed = self.start(conn, can_register, &envelope.room);
                proof {
                    let f = choose|f: Seq<char>| #![trigger is_uuid_text(f)]
                        is_uuid_text(f) && !old_view.rooms.contains_key(f)
                        && (self@, routed@) == start_spec(old_view, conn, can_register, envelope@.room, f);
                    assert(start_spec(old_view, conn, can_register, envelope@.room, f) == route_spec(old_view, conn, can_register, envelope@, f));
                    if !needs_fresh_room(old_view, can_register, envelope@) {
                        assert(start_spec(old_view, conn, can_register, envelope@.room, f)
                            == start_spec(old_view, conn, can_register, envelope@.room, Seq::empty()));
                    }
                }
                routed
            },
            _ => {
                let unused = String::new();
                let ghost u = unused@;
                proof {
                    self.lemma_free_uuid_exists();
                }
                let ghost w = choose|f: Seq<char>| #![trigger is_uuid_text(f)] is_uuid_text(f) && !self@.rooms.contains_key(f);
                let routed = self.route_with(conn, can_register, envelope, unused);
                proof {
                    assert(is_uuid_text(w));
                    assert(route_spec(old_view, conn, can_register, envelope@, w) == route_spec(old_view, conn, can_register, envelope@, u));
                    assert(u == Seq::<char>::empty());
                }
                routed
            },
        }
    }

    /// Drops every registration of connection `conn`, which went away: the
    /// rooms it shares are closed, their registered viewers are told, and its
    /// viewer registrations are dropped.
    pub fn cleanup(&mut self, conn: usize) -> (deliveries: Vec<Delivery>)
        requires
            old(self).wf(),
        ensures
            final(self).wf(),
            deliveries_view(deliveries@) == cleanup_notices(old(self).room_entries(), old(self)@.viewers, conn),
            final(self)@.rooms == keep_map(old(self)@.rooms, not_shared_by(conn)),
            final(self)@.viewers == keep_map(old(self)@.viewers, not_on(conn)),
    {
        let ghost old_rooms = self.room_entries();
        let ghost old_view = self@;
        let mut pending: Vec<RoomEntry> = Vec::new();
        std::mem::swap(&mut pending, &mut self.rooms);
        assert(self.room_entries() =~= Seq::<(Seq<char>, RoomView)>::empty());
        assert(keys_distinct(self.room_entries()));
        let mut kept: Vec<RoomEntry> = Vec::new();
        let mut deliveries: Vec<Delivery> = Vec::new();
        let ghost mut done: int = 0;
        assert(pending@.map_values(|e: RoomEntry| e.entry()) =~= old_rooms.subrange(0, old_rooms.len() as int));
        assert(old_rooms.take(0) =~= Seq::<(Seq<char>, RoomView)>::empty());
        assert(kept@.map_values(|e: RoomEntry| e.entry()) =~= keep_entries(old_rooms.take(0), not_shared_by(conn)));
        assert(deliveries_view(deliveries@) =~= Seq::<(usize, OutboundView)>::empty());
        while pending.len() > 0
            invariant
                self.wf(),
                self@.viewers == old_view.viewers,
                0 <= done <= old_rooms.len(),
                pending@.len() == old_rooms.len() - done,
                pending@.map_values(|e: RoomEntry| e.entry()) == old_rooms.subrange(done, old_rooms.len() as int),
                kept@.map_values(|e: RoomEntry| e.entry()) == keep_entries(old_rooms.take(done), not_shared_by(conn)),
                deliveries_view(deliveries@) == cleanup_notices(old_rooms.take(done), old_view.viewers, conn),
            decreases pending@.len(),
        {
            let ghost pv = pending@;
            let entry = pending.remove(0);
            assert(entry == pv[0]);
            assert(pv.map_values(|e: RoomEntry| e.entry())[0] == old_rooms[done]);
            assert(old_rooms.take(done + 1).drop_last() =~= old_rooms.take(done));
            assert(old_rooms.take(done + 1).last() == old_rooms[done]);
            if entry.sharer == conn {
                let mut notices = self.closing_notices(&entry.id, &entry.viewers);
                let ghost before = deliveries_view(deliveries@);
                let ghost added = deliveries_view(notices@);
                deliveries.append(&mut notices);
                assert(deliveries_view(deliveries@) =~= before + added);
            } else {
                let ghost before = kept@.map_values(|e: RoomEntry| e.entry());
                kept.push(entry);
                assert(kept@.map_values(|e: RoomEntry| e.entry()) =~= before.push(entry.entry()));
            }
            proof {
                let pm = pv.map_values(|e: RoomEntry| e.entry());
                assert(pm =~= old_rooms.subrange(done, old_rooms.len() as int));
                assert forall|k: int| 0 <= k < pending@.len() implies #[trigger] pending@[k] == pv[k + 1] by {}
                let npm = pending@.map_values(|e: RoomEntry| e.entry());
                assert forall|k: int| 0 <= k < pending@.len() implies #[trigger] npm[k] == old_rooms[done + 1 + k] by {
                    assert(pm[k + 1] == old_rooms.subrange(done, old_rooms.len() as int)[k + 1]);
                }
                assert(pending@.map_values(|e: RoomEntry| e.entry()) =~= old_rooms.subrange(done + 1, old_rooms.len() as int));
                done = done + 1;
            }
        }
        assert(old_rooms.take(done) =~= old_rooms);
        proof {
            lemma_keep_entries(old_rooms, not_shared_by(conn));
        }
        self.rooms = kept;
        let ghost old_viewers = self.viewer_entries();
        let mut waiting: Vec<ViewerEntry> = Vec::new();
        std::mem::swap(&mut waiting, &mut self.viewers);
        let mut staying: Vec<ViewerEntry> = Vec::new();
        let ghost mut seen: int = 0;
        assert(waiting@.map_values(|e: ViewerEntry| e.entry()) =~= old_viewers.subrange(0, old_viewers.len() as int));
        assert(old_viewers.take(0) =~= Seq::<(Seq<char>, ViewerView)>::empty());
        assert(staying@.map_values(|e: ViewerEntry| e.entry()) =~= keep_entries(old_viewers.take(0), not_on(conn)));
        while waiting.len() > 0
            invariant
                0 <= seen <= old_viewers.len(),
                waiting@.len() == old_viewers.len() - seen,
                waiting@.map_values(|e: ViewerEntry| e.entry()) == old_viewers.subrange(seen, old_viewers.len() as int),
                staying@.map_values(|e: ViewerEntry| e.entry()) == keep_entries(old_viewers.take(seen), not_on(conn)),
            decreases waiting@.len(),
        {
            let ghost wv = waiting@;
            let entry = waiting.remove(0);
            assert(entry == wv[0]);
            assert(wv.map_values(|e: ViewerEntry| e.entry())[0] == old_viewers[seen]);
            assert(old_viewers.take(seen + 1).drop_last() =~= old_viewers.take(seen));
            assert(old_viewers.take(seen + 1).last() == old_viewers[seen]);
            if entry.conn != conn {
                let ghost before = staying@.map_values(|e: ViewerEntry| e.entry());
                staying.push(entry);
                assert(staying@.map_values(|e: ViewerEntry| e.entry()) =~= before.push(entry.entry()));
            }
            proof {
                let wm = wv.map_values(|e: ViewerEntry| e.entry());
                assert(wm =~= old_viewers.subrange(seen, old_viewers.len() as int));
                assert forall|k: int| 0 <= k < waiting@.len() implies #[trigger] waiting@[k] == wv[k + 1] by {}
                let nwm = waiting@.map_values(|e: ViewerEntry| e.entry());
                assert forall|k: int| 0 <= k < waiting@.len() implies #[trigger] nwm[k] == old_viewers[seen + 1 + k] by {
                    assert(wm[k + 1] == old_viewers.subrange(seen, old_viewers.len() as int)[k + 1]);
                }
                assert(waiting@.map_values(|e: ViewerEntry| e.entry()) =~= old_viewers.subrange(seen + 1, old_viewers.len() as int));
                seen = seen + 1;
            }
        }
        assert(old_viewers.take(seen) =~= old_viewers);
        proof {
            lemma_keep_entries(old_viewers, not_on(conn));
        }
        self.viewers = staying;
        deliveries
    }
}

/// Whether a connection silent for `elapsed_nanos` nanoseconds has been idle
/// for longer than [`IDLE_TIMEOUT_SECS`].
pub fn is_idle(elapsed_nanos: u128) -> (idle: bool)
    ensures
        idle == (elapsed_nanos > IDLE_TIMEOUT_SECS * 1_000_000_000),
{
    elapsed_nanos > (IDLE_TIMEOUT_SECS as u128) * 1_000_000_000
}

} // verus!
