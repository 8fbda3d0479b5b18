//! Properties of the room router that span messages and connections.

use vstd::prelude::*;
use crate::keyed::{keep_map};
use crate::signaller::{
    answer_spec, join_spec, offer_spec, ice_spec, closing_notices, holds_registration, is_uuid_text, kind_of, not_on, not_shared_by,
    requested_room, route_spec, EnvelopeView, MessageKind, OutboundView, RoomView, RoutedView, SignallerView, ViewerView,
};
use crate::text::trim;

verus! {

/// A sharer that asks for a room that is not live gets exactly that room, so a
/// bookmarked invite link keeps working across restarts.
pub proof fn law_requested_free_room_is_honoured(
    s: SignallerView,
    conn: usize,
    env: EnvelopeView,
    fresh: Seq<char>,
    room: Seq<char>,
)
    requires
        kind_of(env.kind) == MessageKind::Start,
        env.room == Some(room),
        trim(room).len() > 0,
        !s.rooms.contains_key(room),
    ensures
        route_spec(s, conn, true, env, fresh).1.reply == Some(OutboundView::StartResponse(room)),
        route_spec(s, conn, true, env, fresh).0.rooms.contains_key(room),
        route_spec(s, conn, true, env, fresh).0.rooms[room].sharer == conn,
{
}

/// A sharer is never handed a room that is already live, as long as the
/// generated id is not itself a live room: a taken request falls back to it.
pub proof fn law_live_room_is_never_handed_out(
    s: SignallerView,
    conn: usize,
    env: EnvelopeView,
    fresh: Seq<char>,
)
    requires
        kind_of(env.kind) == MessageKind::Start,
        !s.rooms.contains_key(fresh),
    ensures
        route_spec(s, conn, true, env, fresh).1.reply matches Some(OutboundView::StartResponse(r))
            && !s.rooms.contains_key(r),
{
}

/// An absent or blank room request is assigned the generated room.
pub proof fn law_blank_request_gets_generated_room(
    s: SignallerView,
    conn: usize,
    env: EnvelopeView,
    fresh: Seq<char>,
)
    requires
        kind_of(env.kind) == MessageKind::Start,
        requested_room(env.room) is None,
    ensures
        route_spec(s, conn, true, env, fresh).1.reply == Some(OutboundView::StartResponse(fresh)),
{
}

/// Joining a room that is not live is declined to the viewer, and nothing
/// else happens.
pub proof fn law_join_unknown_room_is_declined(
    s: SignallerView,
    conn: usize,
    can_register: bool,
    env: EnvelopeView,
    fresh: Seq<char>,
    room: Seq<char>,
    from: Seq<char>,
)
    requires
        kind_of(env.kind) == MessageKind::Join,
        env.room == Some(room),
        env.from == Some(from),
        !s.rooms.contains_key(room),
    ensures
        route_spec(s, conn, can_register, env, fresh).0 == s,
        route_spec(s, conn, can_register, env, fresh).1.reply == Some(
            OutboundView::JoinDeclined(from),
        ),
        route_spec(s, conn, can_register, env, fresh).1.deliveries.len() == 0,
        !route_spec(s, conn, can_register, env, fresh).1.registered,
{
}

/// When a sharer leaves, its room closes, every registered viewer of the room
/// is told `room_closed`, and none of those viewers stays registered.
pub proof fn law_sharer_leaving_closes_room(
    s: SignallerView,
    conn: usize,
    can_register: bool,
    env: EnvelopeView,
    fresh: Seq<char>,
    room: Seq<char>,
    viewer: Seq<char>,
)
    requires
        kind_of(env.kind) == MessageKind::Leave,
        env.from == Some(room),
        s.rooms.contains_key(room),
        s.rooms[room].viewers.contains(viewer),
        s.viewers.contains_key(viewer),
    ensures
        !route_spec(s, conn, can_register, env, fresh).0.rooms.contains_key(room),
        !route_spec(s, conn, can_register, env, fresh).0.viewers.contains_key(viewer),
        route_spec(s, conn, can_register, env, fresh).1.deliveries.contains(
            (s.viewers[viewer].conn, OutboundView::RoomClosed(viewer, room)),
        ),
{
    lemma_closing_notice_sent(s.viewers, room, s.rooms[room].viewers, viewer);
}

/// Every registered viewer in `list` gets a notice.
pub proof fn lemma_closing_notice_sent(
    viewers: Map<Seq<char>, ViewerView>,
    room: Seq<char>,
    list: Seq<Seq<char>>,
    viewer: Seq<char>,
)
    requires
        list.contains(viewer),
        viewers.contains_key(viewer),
    ensures
        closing_notices(viewers, room, list).contains(
            (viewers[viewer].conn, OutboundView::RoomClosed(viewer, room)),
        ),
    decreases list.len(),
{
    let notice = (viewers[viewer].conn, OutboundView::RoomClosed(viewer, room));
    let earlier = closing_notices(viewers, room, list.drop_last());
    if list.last() == viewer {
        assert(closing_notices(viewers, room, list) == earlier.push(notice));
        assert(earlier.push(notice)[earlier.len() as int] == notice);
    } else {
        let i = choose|i: int| 0 <= i < list.len() && list[i] == viewer;
        assert(list.drop_last()[i] == viewer);
        lemma_closing_notice_sent(viewers, room, list.drop_last(), viewer);
        let j = choose|j: int| 0 <= j < earlier.len() && earlier[j] == notice;
        if viewers.contains_key(list.last()) {
            let pushed = earlier.push((viewers[list.last()].conn, OutboundView::RoomClosed(list.last(), room)));
            assert(pushed[j] == notice);
        }
    }
}

/// A connection that has already handed over its channel never registers
/// again: whatever it sends, it holds a registration afterwards only if it
/// held one before.
pub proof fn law_no_second_registration(
    s: SignallerView,
    conn: usize,
    env: EnvelopeView,
    fresh: Seq<char>,
)
    ensures
        !route_spec(s, conn, false, env, fresh).1.registered,
        holds_registration(route_spec(s, conn, false, env, fresh).0, conn) ==> holds_registration(
            s,
            conn,
        ),
{
    let t = route_spec(s, conn, false, env, fresh).0;
    if holds_registration(t, conn) {
        if exists|r: Seq<char>| #[trigger] t.rooms.contains_key(r) && t.rooms[r].sharer == conn {
            let r = choose|r: Seq<char>| #[trigger] t.rooms.contains_key(r) && t.rooms[r].sharer == conn;
            assert(s.rooms.contains_key(r) && s.rooms[r].sharer == conn);
        } else {
            let v = choose|v: Seq<char>| #[trigger] t.viewers.contains_key(v) && t.viewers[v].conn == conn;
            assert(s.viewers.contains_key(v) && s.viewers[v].conn == conn);
        }
    }
}

/// After a connection's registrations are dropped, it holds none.
pub proof fn law_cleanup_leaves_no_registration(s: SignallerView, conn: usize)
    ensures
        !holds_registration(
            SignallerView {
                rooms: keep_map(s.rooms, not_shared_by(conn)),
                viewers: keep_map(s.viewers, not_on(conn)),
            },
            conn,
        ),
{
}

/// Once a viewer has joined a live room, the sharer's offers and ICE
/// candidates addressed to it reach the viewer's connection, and the viewer's
/// answers addressed to the room reach the sharer.
pub proof fn law_joined_viewer_is_reachable(
    s: SignallerView,
    viewer_conn: usize,
    room: Seq<char>,
    viewer: Seq<char>,
)
    requires
        s.rooms.contains_key(room),
    ensures
        ({
            let joined = join_spec(s, viewer_conn, true, Some(room), Some(viewer)).0;
            &&& offer_spec(joined, Some(viewer)).1.deliveries == seq![
                (viewer_conn, OutboundView::Relay),
            ]
            &&& ice_spec(joined, Some(viewer)).1.deliveries == seq![
                (viewer_conn, OutboundView::Relay),
            ]
            &&& answer_spec(joined, Some(room)).1.deliveries == seq![
                (s.rooms[room].sharer, OutboundView::Relay),
            ]
            &&& join_spec(s, viewer_conn, true, Some(room), Some(viewer)).1.deliveries == seq![
                (s.rooms[room].sharer, OutboundView::Relay),
            ]
        }),
{
}


/// The message types, by the text of their `type` field.
pub proof fn lemma_kind_names()
    ensures
        kind_of("start"@) == MessageKind::Start,
        kind_of("join"@) == MessageKind::Join,
        kind_of("offer"@) == MessageKind::Offer,
        kind_of("ice"@) == MessageKind::Ice,
        kind_of("answer"@) == MessageKind::Answer,
        kind_of("leave"@) == MessageKind::Leave,
        kind_of("join_declined"@) == MessageKind::JoinDeclined,
        kind_of("room_closed"@) == MessageKind::RoomClosed,
{
    reveal_strlit("start");
    reveal_strlit("join");
    reveal_strlit("offer");
    reveal_strlit("ice");
    reveal_strlit("answer");
    reveal_strlit("leave");
    reveal_strlit("join_declined");
    reveal_strlit("room_closed");
    reveal_strlit("ice_servers");
    reveal_strlit("keep_alive");
    assert("join"@ != "start"@) by {
        assert("join"@.len() != "start"@.len());
    }
    assert("offer"@ != "start"@) by {
        assert("offer"@[0] != "start"@[0]);
    }
    assert("offer"@ != "join"@) by {
        assert("offer"@.len() != "join"@.len());
    }
    assert("ice"@ != "start"@) by {
        assert("ice"@.len() != "start"@.len());
    }
    assert("ice"@ != "join"@) by {
        assert("ice"@.len() != "join"@.len());
    }
    assert("ice"@ != "offer"@) by {
        assert("ice"@.len() != "offer"@.len());
    }
    assert("answer"@ != "start"@) by {
        assert("answer"@.len() != "start"@.len());
    }
    assert("answer"@ != "join"@) by {
        assert("answer"@.len() != "join"@.len());
    }
    assert("answer"@ != "offer"@) by {
        assert("answer"@.len() != "offer"@.len());
    }
    assert("answer"@ != "ice"@) by {
        assert("answer"@.len() != "ice"@.len());
    }
    assert("leave"@ != "start"@) by {
        assert("leave"@[0] != "start"@[0]);
    }
    assert("leave"@ != "join"@) by {
        assert("leave"@.len() != "join"@.len());
    }
    assert("leave"@ != "offer"@) by {
        assert("leave"@[0] != "offer"@[0]);
    }
    assert("leave"@ != "ice"@) by {
        assert("leave"@.len() != "ice"@.len());
    }
    assert("leave"@ != "answer"@) by {
        assert("leave"@.len() != "answer"@.len());
    }
    assert("join_declined"@ != "start"@) by {
        assert("join_declined"@.len() != "start"@.len());
    }
    assert("join_declined"@ != "join"@) by {
        assert("join_declined"@.len() != "join"@.len());
    }
    assert("join_declined"@ != "offer"@) by {
        assert("join_declined"@.len() != "offer"@.len());
    }
    assert("join_declined"@ != "ice"@) by {
        assert("join_declined"@.len() != "ice"@.len());
    }
    assert("join_declined"@ != "answer"@) by {
        assert("join_declined"@.len() != "answer"@.len());
    }
    assert("join_declined"@ != "leave"@) by {
        assert("join_declined"@.len() != "leave"@.len());
    }
    assert("room_closed"@ != "start"@) by {
        assert("room_closed"@.len() != "start"@.len());
    }
    assert("room_closed"@ != "join"@) by {
        assert("room_closed"@.len() != "join"@.len());
    }
    assert("room_closed"@ != "offer"@) by {
        assert("room_closed"@.len() != "offer"@.len());
    }
    assert("room_closed"@ != "ice"@) by {
        assert("room_closed"@.len() != "ice"@.len());
    }
    assert("room_closed"@ != "answer"@) by {
        assert("room_closed"@.len() != "answer"@.len());
    }
    assert("room_closed"@ != "leave"@) by {
        assert("room_closed"@.len() != "leave"@.len());
    }
    assert("room_closed"@ != "join_declined"@) by {
        assert("room_closed"@.len() != "join_declined"@.len());
    }
}

/// A sharer that kicks or declines a registered viewer (`room_closed` or
/// `join_declined` addressed to it) reaches exactly that viewer's
/// connection, and the viewer's registration is dropped; the rooms and every
/// other viewer stay as they were.
pub proof fn law_dismissed_viewer_is_told_and_dropped(
    s: SignallerView,
    conn: usize,
    can_register: bool,
    env: EnvelopeView,
    fresh: Seq<char>,
    viewer: Seq<char>,
)
    requires
        env.kind == "room_closed"@ || env.kind == "join_declined"@,
        env.to == Some(viewer),
        s.viewers.contains_key(viewer),
    ensures
        ({
            let (after, out) = route_spec(s, conn, can_register, env, fresh);
            &&& out.deliveries == seq![(s.viewers[viewer].conn, OutboundView::Relay)]
            &&& out.reply is None
            &&& !out.registered
            &&& !after.viewers.contains_key(viewer)
            &&& after.rooms == s.rooms
            &&& forall|v: Seq<char>| v != viewer ==> (#[trigger] after.viewers.contains_key(v) <==> s.viewers.contains_key(v))
            &&& forall|v: Seq<char>| v != viewer && s.viewers.contains_key(v) ==> #[trigger] after.viewers[v] == s.viewers[v]
        }),
{
    lemma_kind_names();
}

/// A sharer's `leave` closes its room whatever the room holds: the room is no
/// longer live, every other room stays, and none of its viewers stays
/// registered.
pub proof fn law_leave_always_closes_the_room(
    s: SignallerView,
    conn: usize,
    can_register: bool,
    env: EnvelopeView,
    fresh: Seq<char>,
    room: Seq<char>,
)
    requires
        env.kind == "leave"@,
        env.from == Some(room),
        s.rooms.contains_key(room),
    ensures
        ({
            let (after, out) = route_spec(s, conn, can_register, env, fresh);
            &&& !after.rooms.contains_key(room)
            &&& after.rooms == s.rooms.remove(room)
            &&& forall|v: Seq<char>| s.rooms[room].viewers.contains(v) ==> !#[trigger] after.viewers.contains_key(v)
            &&& out.reply is None
            &&& !out.registered
        }),
{
    lemma_kind_names();
}

/// After a sharer has left its room, a sharer that asks for that room again
/// gets it, so a bookmarked invite link keeps working.
pub proof fn law_closed_room_can_be_requested_again(
    s: SignallerView,
    conn: usize,
    can_register: bool,
    leave: EnvelopeView,
    fresh: Seq<char>,
    room: Seq<char>,
    next_conn: usize,
    start: EnvelopeView,
    next_fresh: Seq<char>,
)
    requires
        leave.kind == "leave"@,
        leave.from == Some(room),
        s.rooms.contains_key(room),
        start.kind == "start"@,
        start.room == Some(room),
        trim(room).len() > 0,
    ensures
        route_spec(route_spec(s, conn, can_register, leave, fresh).0, next_conn, true, start, next_fresh).1.reply
            == Some(OutboundView::StartResponse(room)),
{
    lemma_kind_names();
}

/// What routing a `start` gives, for any room id that the generator may have
/// produced as long as it was not live (which `route` and `start` promise): a
/// connection that can register is always answered with a room, that room was
/// not live before, it is now live with the connection as its sharer and no
/// viewers, and every room that was live stays exactly as it was.
pub proof fn law_start_opens_a_room_that_was_not_live(
    s: SignallerView,
    conn: usize,
    env: EnvelopeView,
    after: SignallerView,
    out: RoutedView,
)
    requires
        env.kind == "start"@,
        exists|fresh: Seq<char>| #![trigger is_uuid_text(fresh)]
            is_uuid_text(fresh) && !s.rooms.contains_key(fresh) && (after, out) == route_spec(s, conn, true, env, fresh),
    ensures
        out.registered,
        out.reply matches Some(OutboundView::StartResponse(r)) && {
            &&& !s.rooms.contains_key(r)
            &&& after.rooms == s.rooms.insert(r, RoomView { sharer: conn, viewers: seq![] })
        },
        after.viewers == s.viewers,
{
    lemma_kind_names();
}

/// Two sharers that start one after the other without asking for a room get
/// two different rooms, and the first keeps its own.
pub proof fn law_second_start_gets_another_room(
    s: SignallerView,
    first: usize,
    second: usize,
    env: EnvelopeView,
    mid: SignallerView,
    out1: RoutedView,
    end: SignallerView,
    out2: RoutedView,
)
    requires
        env.kind == "start"@,
        exists|fresh: Seq<char>| #![trigger is_uuid_text(fresh)]
            is_uuid_text(fresh) && !s.rooms.contains_key(fresh) && (mid, out1) == route_spec(s, first, true, env, fresh),
        exists|fresh: Seq<char>| #![trigger is_uuid_text(fresh)]
            is_uuid_text(fresh) && !mid.rooms.contains_key(fresh) && (end, out2) == route_spec(mid, second, true, env, fresh),
    ensures
        out1.reply matches Some(OutboundView::StartResponse(r1)) && out2.reply matches Some(
            OutboundView::StartResponse(r2),
        ) && r1 != r2 && end.rooms.contains_key(r1) && end.rooms[r1].sharer == first
            && end.rooms[r2].sharer == second,
{
    law_start_opens_a_room_that_was_not_live(s, first, env, mid, out1);
    law_start_opens_a_room_that_was_not_live(mid, second, env, end, out2);
}

/// In every state, an offer addressed to a registered viewer is relayed to
/// exactly that viewer's connection, and nothing changes.
pub proof fn law_offer_reaches_the_addressed_viewer(
    s: SignallerView,
    conn: usize,
    can_register: bool,
    env: EnvelopeView,
    fresh: Seq<char>,
    viewer: Seq<char>,
)
    requires
        env.kind == "offer"@,
        env.to == Some(viewer),
        s.viewers.contains_key(viewer),
    ensures
        route_spec(s, conn, can_register, env, fresh).0 == s,
        route_spec(s, conn, can_register, env, fresh).1.deliveries == seq![(s.viewers[viewer].conn, OutboundView::Relay)],
        route_spec(s, conn, can_register, env, fresh).1.reply is None,
{
    lemma_kind_names();
}

/// In every state, an ICE candidate addressed to a registered viewer reaches
/// that viewer, and one addressed to a live room (that is no viewer's id)
/// reaches the room's sharer; nothing changes.
pub proof fn law_ice_reaches_the_addressee(
    s: SignallerView,
    conn: usize,
    can_register: bool,
    env: EnvelopeView,
    fresh: Seq<char>,
    to: Seq<char>,
)
    requires
        env.kind == "ice"@,
        env.to == Some(to),
    ensures
        route_spec(s, conn, can_register, env, fresh).0 == s,
        s.viewers.contains_key(to) ==> route_spec(s, conn, can_register, env, fresh).1.deliveries == seq![
            (s.viewers[to].conn, OutboundView::Relay),
        ],
        !s.viewers.contains_key(to) && s.rooms.contains_key(to) ==> route_spec(s, conn, can_register, env, fresh).1.deliveries
            == seq![(s.rooms[to].sharer, OutboundView::Relay)],
{
    lemma_kind_names();
}

/// In every state, an answer addressed to a live room reaches the room's
/// sharer, and nothing changes.
pub proof fn law_answer_reaches_the_sharer(
    s: SignallerView,
    conn: usize,
    can_register: bool,
    env: EnvelopeView,
    fresh: Seq<char>,
    room: Seq<char>,
)
    requires
        env.kind == "answer"@,
        env.to == Some(room),
        s.rooms.contains_key(room),
    ensures
        route_spec(s, conn, can_register, env, fresh).0 == s,
        route_spec(s, conn, can_register, env, fresh).1.deliveries == seq![(s.rooms[room].sharer, OutboundView::Relay)],
{
    lemma_kind_names();
}

} // verus!
