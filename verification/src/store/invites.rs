//! Invites and guest sessions: exchanging an invite for a session, rotating
//! and revoking invites, and resolving a session secret.
use vstd::prelude::*;

use crate::clock::{current_time, is_timestamp};
use crate::limits::{
    non_empty_rule, validate_display_name, MAX_DISPLAY_NAME_CHARS, MAX_PARTICIPANTS,
    SESSION_TTL_SECS,
};
use crate::model::{ParticipantRole, RoomSession, RoomSessionView, RoomStatus};
use crate::secrets::{
    digest, digests_match, is_hex_token, lemma_zero_token, opaque_id, opaque_secret, sha256_of,
    zero_token,
};
use crate::store::find::{
    find_room, first_index, lemma_first_index_at, lemma_first_index_none,
    participant_id_used, session_digest_used,
};
use crate::store::order::{
    ident_fresh, insert_ordered, insert_pos, keys_of, lemma_insert_pos, Ordered,
};
use crate::store::records::{
    has_participant, participant_keys, room_wf, InviteState, ParticipantRecord,
    ParticipantState, RoomState, SessionRecord, SessionState,
};
use crate::store::rooms::{
    invite_expiry, lemma_revoke_keeps_wf, offline_participants, revoke_open_sessions,
    revoked_sessions, room_id_rule, session_outcome, set_offline, unit_outcome, validate_room_id,
};
use crate::store::{IssuedInvite, IssuedInviteView, RoomStore, StoreError, StoreFailure};
use crate::text::{any_control, has_control, string_from_chars, trim, trimmed, utf8_len, utf8_len_at_most};

verus! {

/// The session expiry for a given moment.
pub open spec fn session_expiry(now: i64) -> i64 {
    (now + SESSION_TTL_SECS * 1_000_000_000) as i64
}

/// A presented secret that cannot be an invite: empty, over 128 bytes, or
/// holding control characters.
pub open spec fn unusable_invite_text(r: Seq<char>) -> bool {
    r.len() == 0 || utf8_len(r) > 128 || has_control(r)
}

pub open spec fn invite_has_digest(d: Seq<u8>) -> spec_fn(RoomState) -> bool {
    |r: RoomState| r.invite.digest == d
}

/// The room after a guest joined it with a session.
pub open spec fn guest_joined(
    room: RoomState,
    participant_id: Seq<char>,
    name: Seq<char>,
    now: i64,
    session_digest: Seq<u8>,
) -> RoomState {
    let p = ParticipantState {
        id: participant_id,
        display_name: name,
        role: ParticipantRole::Guest,
        online: true,
        created_at: now,
        last_seen_at: now,
    };
    let s = SessionState {
        digest: session_digest,
        participant_id,
        role: ParticipantRole::Guest,
        expires_at: session_expiry(now),
        revoked_at: None,
    };
    RoomState {
        participants: room.participants.insert(
            insert_pos(participant_keys(room.participants), (now, participant_id)),
            p,
        ),
        sessions: room.sessions.push(s),
        ..room
    }
}

/// Exchanging the raw invite `raw` for a guest session named `display_raw`
/// at `now`, with the generated session secret and participant id.
pub open spec fn exchange_outcome(
    rooms: Seq<RoomState>,
    raw: Seq<char>,
    display_raw: Seq<char>,
    now: i64,
    secret: Seq<char>,
    participant_id: Seq<char>,
) -> (Seq<RoomState>, Result<RoomSessionView, StoreFailure>) {
    match non_empty_rule(display_raw, MAX_DISPLAY_NAME_CHARS as nat, "displayName"@) {
        Err(e) => (rooms, Err(StoreFailure::Invalid(e))),
        Ok(name) => {
            let r = trim(raw);
            if unusable_invite_text(r) {
                (rooms, Err(StoreFailure::InviteUnavailable))
            } else {
                match first_index(rooms, invite_has_digest(sha256_of(r))) {
                    None => (rooms, Err(StoreFailure::InviteUnavailable)),
                    Some(i) => {
                        let room = rooms[i];
                        if room.invite.revoked_at is Some || !(room.invite.expires_at > now)
                            || room.status == RoomStatus::Closed {
                            (rooms, Err(StoreFailure::InviteUnavailable))
                        } else if room.participants.len() >= MAX_PARTICIPANTS {
                            (rooms, Err(StoreFailure::Conflict))
                        } else if participant_id_used(rooms, participant_id) || session_digest_used(
                            rooms,
                            sha256_of(secret),
                        ) {
                            (rooms, Err(StoreFailure::Database))
                        } else {
                            (
                                rooms.update(
                                    i,
                                    guest_joined(room, participant_id, name, now, sha256_of(secret)),
                                ),
                                Ok(
                                    RoomSessionView {
                                        room_id: room.id,
                                        participant_id,
                                        role: ParticipantRole::Guest,
                                        display_name: name,
                                        secret,
                                    },
                                ),
                            )
                        }
                    },
                }
            }
        },
    }
}

/// The room with a new invite: open sessions revoked, guests offline.
pub open spec fn reissued(r: RoomState, now: i64, invite_digest: Seq<u8>) -> RoomState {
    RoomState {
        invite: InviteState { digest: invite_digest, expires_at: invite_expiry(now), revoked_at: None },
        sessions: revoked_sessions(r.sessions, now),
        participants: offline_participants(r.participants, true),
        ..r
    }
}

pub open spec fn issue_outcome(rooms: Seq<RoomState>, raw: Seq<char>, now: i64, invite: Seq<char>) -> (
    Seq<RoomState>,
    Result<IssuedInviteView, StoreFailure>,
) {
    match room_id_rule(raw) {
        Err(e) => (rooms, Err(StoreFailure::Invalid(e))),
        Ok(id) => match find_room(rooms, id) {
            None => (rooms, Err(StoreFailure::NotFound)),
            Some(i) => if rooms[i].status == RoomStatus::Closed {
                (rooms, Err(StoreFailure::Closed))
            } else {
                (
                    rooms.update(i, reissued(rooms[i], now, sha256_of(invite))),
                    Ok(IssuedInviteView { invite, share_origin: rooms[i].share_origin }),
                )
            },
        },
    }
}

pub open spec fn issued_outcome(r: Result<IssuedInvite, StoreError>) -> Result<IssuedInviteView, StoreFailure> {
    match r {
        Ok(v) => Ok(v@),
        Err(e) => Err(e@),
    }
}

/// The room with its invite revoked: open sessions revoked, guests offline.
pub open spec fn invite_revoked(r: RoomState, now: i64) -> RoomState {
    RoomState {
        invite: InviteState { revoked_at: Some(now), ..r.invite },
        sessions: revoked_sessions(r.sessions, now),
        participants: offline_participants(r.participants, true),
        ..r
    }
}

pub open spec fn revoke_outcome(rooms: Seq<RoomState>, raw: Seq<char>, now: i64) -> (
    Seq<RoomState>,
    Result<(), StoreFailure>,
) {
    match room_id_rule(raw) {
        Err(e) => (rooms, Err(StoreFailure::Invalid(e))),
        Ok(id) => match find_room(rooms, id) {
            None => (rooms, Err(StoreFailure::NotFound)),
            Some(i) => if rooms[i].invite.revoked_at is Some {
                (rooms, Err(StoreFailure::NotFound))
            } else {
                (rooms.update(i, invite_revoked(rooms[i], now)), Ok(()))
            },
        },
    }
}

pub open spec fn session_has_digest(d: Seq<u8>) -> spec_fn(SessionState) -> bool {
    |s: SessionState| s.digest == d
}

/// A room holding a session with digest `d`.
pub open spec fn room_has_session(d: Seq<u8>) -> spec_fn(RoomState) -> bool {
    |r: RoomState| exists|j: int| 0 <= j < r.sessions.len() && (#[trigger] r.sessions[j]).digest == d
}

pub open spec fn participant_has_id(id: Seq<char>) -> spec_fn(ParticipantState) -> bool {
    |p: ParticipantState| p.id == id
}

/// The session that the raw secret `raw` opens at `now`, if any: the
/// session whose digest matches, joined with its participant, unless it is
/// revoked or expired.
pub open spec fn resolve_outcome(rooms: Seq<RoomState>, raw: Seq<char>, now: i64) -> Option<
    RoomSessionView,
> {
    let r = trim(raw);
    if r.len() == 0 || utf8_len(r) > 128 {
        None
    } else {
        let d = sha256_of(r);
        match first_index(rooms, room_has_session(d)) {
            None => None,
            Some(i) => {
                let room = rooms[i];
                let j = first_index(room.sessions, session_has_digest(d)).unwrap();
                let s = room.sessions[j];
                match first_index(room.participants, participant_has_id(s.participant_id)) {
                    None => None,
                    Some(k) => if s.revoked_at is Some || !(s.expires_at > now) {
                        None
                    } else {
                        Some(
                            RoomSessionView {
                                room_id: room.id,
                                participant_id: s.participant_id,
                                role: s.role,
                                display_name: room.participants[k].display_name,
                                secret: r,
                            },
                        )
                    },
                }
            },
        }
    }
}

pub open spec fn opt_session_view(r: Option<RoomSession>) -> Option<RoomSessionView> {
    match r {
        Some(s) => Some(s@),
        None => None,
    }
}

/// Viewing after inserting is inserting the view.
pub proof fn lemma_insert_map(old: Seq<ParticipantRecord>, pos: int, new: Seq<ParticipantRecord>)
    requires
        0 <= pos <= old.len(),
        new == old.insert(pos, new[pos]),
    ensures
        new.map_values(|x: ParticipantRecord| x@) =~= old.map_values(|x: ParticipantRecord| x@).insert(
            pos,
            new[pos]@,
        ),
{
}

/// Inserting a guest with a fresh identifier keeps a room well formed.
pub proof fn lemma_guest_joined_wf(
    room: RoomState,
    participant_id: Seq<char>,
    name: Seq<char>,
    now: i64,
    d: Seq<u8>,
)
    requires
        room_wf(room),
        is_timestamp(now),
        room.participants.len() < MAX_PARTICIPANTS,
        forall|k: int| 0 <= k < room.participants.len() ==> (#[trigger] room.participants[k]).id != participant_id,
    ensures
        room_wf(guest_joined(room, participant_id, name, now, d)),
        0 <= insert_pos(participant_keys(room.participants), (now, participant_id))
            <= room.participants.len(),
{
    let keys = participant_keys(room.participants);
    let k = (now, participant_id);
    assert(ident_fresh(keys, participant_id)) by {
        assert forall|i: int| 0 <= i < keys.len() implies (#[trigger] keys[i]).1 != participant_id by {
            assert(keys[i].1 == room.participants[i].id);
        }
    }
    lemma_insert_pos(keys, k);
    let p = insert_pos(keys, k);
    let g = guest_joined(room, participant_id, name, now, d);
    assert(participant_keys(g.participants) =~= keys.insert(p, k));
    assert forall|i: int| 0 <= i < room.participants.len() implies has_participant(
        g.participants,
        (#[trigger] room.participants[i]).id,
    ) by {
        if i < p {
            assert(g.participants[i] == room.participants[i]);
        } else {
            assert(g.participants[i + 1] == room.participants[i]);
        }
    }
    let hk = choose|m: int| 0 <= m < room.participants.len() && (#[trigger] room.participants[m]).role
        == ParticipantRole::Host;
    if hk < p {
        assert(g.participants[hk] == room.participants[hk]);
    } else {
        assert(g.participants[hk + 1] == room.participants[hk]);
    }
    assert(g.participants[p].id == participant_id);
    assert forall|i: int| 0 <= i < g.sessions.len() implies has_participant(
        g.participants,
        (#[trigger] g.sessions[i]).participant_id,
    ) by {
        if i < room.sessions.len() {
            let m = choose|m: int| 0 <= m < room.participants.len() && (#[trigger] room.participants[m]).id
                == room.sessions[i].participant_id;
            assert(has_participant(g.participants, room.participants[m].id));
        }
    }
}

/// The index of the first participant with identifier `id`.
pub fn participant_index(ps: &Vec<ParticipantRecord>, id: &str) -> (r: Option<usize>)
    ensures
        match r {
            Some(k) => k < ps@.len() && first_index(
                ps@.map_values(|x: ParticipantRecord| x@),
                participant_has_id(id@),
            ) == Some(k as int),
            None => first_index(ps@.map_values(|x: ParticipantRecord| x@), participant_has_id(id@)) is None,
        },
{
    let ghost all = ps@.map_values(|x: ParticipantRecord| x@);
    let ghost pp = participant_has_id(id@);
    let mut k: usize = 0;
    while k < ps.len()
        invariant
            k <= ps@.len(),
            all == ps@.map_values(|x: ParticipantRecord| x@),
            pp == participant_has_id(id@),
            forall|c: int| 0 <= c < k ==> !pp(#[trigger] all[c]),
        decreases ps.len() - k,
    {
        if crate::text::str_eq(ps[k].id.as_str(), id) {
            proof {
                lemma_first_index_at(all, pp, k as int);
            }
            return Some(k);
        }
        k = k + 1;
    }
    proof {
        lemma_first_index_none(all, pp);
    }
    None
}

impl RoomStore {
    /// The index of the first room whose invite digest is `d`, compared in
    /// constant time.
    fn invite_room_index(&self, d: &Vec<u8>) -> (r: Option<usize>)
        ensures
            match r {
                Some(i) => i < self@.len() && first_index(self@, invite_has_digest(d@)) == Some(i as int),
                None => first_index(self@, invite_has_digest(d@)) is None,
            },
    {
        let ghost p = invite_has_digest(d@);
        let mut i: usize = 0;
        while i < self.rooms.len()
            invariant
                i <= self.rooms@.len(),
                p == invite_has_digest(d@),
                forall|j: int| 0 <= j < i ==> !p(#[trigger] self@[j]),
            decreases self.rooms.len() - i,
        {
            assert(self@[i as int] == self.rooms@[i as int]@);
            if digests_match(self.rooms[i].invite.digest.as_slice(), d.as_slice()) {
                proof {
                    lemma_first_index_at(self@, p, i as int);
                }
                return Some(i);
            }
            i = i + 1;
        }
        proof {
            lemma_first_index_none(self@, p);
        }
        None
    }

    /// Exchanges an invite for a guest session at `now`, with the given
    /// generated session secret and participant identifier.
    pub fn exchange_invite_at(
        &mut self,
        raw: &str,
        display_name: &str,
        now: i64,
        session_secret: String,
        participant_id: String,
    ) -> (r: Result<RoomSession, StoreError>)
        requires
            old(self).wf(),
            is_timestamp(now),
        ensures
            final(self).wf(),
            (final(self)@, session_outcome(r)) == exchange_outcome(
                old(self)@,
                raw@,
                display_name@,
                now,
                session_secret@,
                participant_id@,
            ),
    {
        let name = match validate_display_name(display_name) {
            Ok(n) => n,
            Err(e) => {
                return Err(StoreError::Invalid(e));
            },
        };
        let t = trimmed(raw);
        if t.len() == 0 || utf8_len_at_most(&t, 128) > 128 || any_control(&t) {
            return Err(StoreError::InviteUnavailable);
        }
        let text = string_from_chars(t.as_slice());
        let invite_digest = digest(text.as_str());
        let i = match self.invite_room_index(&invite_digest) {
            Some(i) => i,
            None => {
                return Err(StoreError::InviteUnavailable);
            },
        };
        let ghost old_rooms = self@;
        let ghost room = old_rooms[i as int];
        assert(room == self.rooms@[i as int]@);
        if self.rooms[i].invite.revoked_at.is_some() || !(self.rooms[i].invite.expires_at > now)
            || matches!(self.rooms[i].status, RoomStatus::Closed) {
            return Err(StoreError::InviteUnavailable);
        }
        if self.rooms[i].participants.len() >= MAX_PARTICIPANTS {
            return Err(StoreError::Conflict);
        }
        let session_digest = digest(session_secret.as_str());
        if self.participant_id_in_use(participant_id.as_str()) || self.session_digest_in_use(
            &session_digest,
        ) {
            return Err(StoreError::Database);
        }
        let room_id = self.rooms[i].id.clone();
        let participant = ParticipantRecord {
            id: participant_id.clone(),
            display_name: name.clone(),
            role: ParticipantRole::Guest,
            online: true,
            created_at: now,
            last_seen_at: now,
        };
        let session = SessionRecord {
            digest: session_digest,
            participant_id: participant_id.clone(),
            role: ParticipantRole::Guest,
            expires_at: now + SESSION_TTL_SECS * 1_000_000_000,
            revoked_at: None,
        };
        let ghost g = guest_joined(room, participant_id@, name@, now, sha256_of(session_secret@));
        proof {
            assert forall|k: int| 0 <= k < room.participants.len() implies (
            #[trigger] room.participants[k]).id != participant_id@ by {
                if room.participants[k].id == participant_id@ {
                    assert(old_rooms[i as int].participants[k].id == participant_id@);
                }
            }
            lemma_guest_joined_wf(room, participant_id@, name@, now, sha256_of(session_secret@));
        }
        let ghost old_ps = self.rooms@[i as int].participants@;
        let ghost pos = insert_pos(keys_of(old_ps), participant.order_key());
        let ghost pv = participant@;
        let rm = &mut self.rooms[i];
        insert_ordered(&mut rm.participants, participant);
        rm.sessions.push(session);
        proof {
            assert(keys_of(old_ps) =~= participant_keys(room.participants));
            let np = self.rooms@[i as int].participants@;
            lemma_insert_map(old_ps, pos, np);
            assert(self.rooms@[i as int].participants@.map_values(|x: ParticipantRecord| x@)
                =~= g.participants);
            assert(self.rooms@[i as int].sessions@.map_values(|x: SessionRecord| x@) =~= g.sessions);
            assert(self.rooms@[i as int]@ == g);
            assert(self@ =~= old_rooms.update(i as int, g));
            self.lemma_update_keeps_wf(old_rooms, i as int, g);
        }
        Ok(
            RoomSession {
                room_id,
                participant_id,
                role: ParticipantRole::Guest,
                display_name: name,
                secret: session_secret,
            },
        )
    }

    /// Exchanges an invite for a guest session now, with a fresh session
    /// secret and participant identifier.
    pub fn exchange_invite(&mut self, raw: &str, display_name: &str) -> (r: Result<
        RoomSession,
        StoreError,
    >)
        requires
            old(self).wf(),
        ensures
            final(self).wf(),
            (r matches Err(StoreError::Database) && final(self)@ == old(self)@ && (non_empty_rule(display_name@, MAX_DISPLAY_NAME_CHARS as nat, "displayName"@) is Ok && !unusable_invite_text(trim(raw@)))) || exists|now: i64, secret: Seq<char>, t: Seq<char>|
                is_timestamp(now) && is_hex_token(secret) && is_hex_token(t) && (
                final(self)@,
                session_outcome(r),
            ) == #[trigger] exchange_outcome(
                    old(self)@,
                    raw@,
                    display_name@,
                    now,
                    secret,
                    "member_"@ + t,
                ),
    {
        let ghost early = exchange_outcome(
            old(self)@,
            raw@,
            display_name@,
            0,
            zero_token(),
            "member_"@ + zero_token(),
        );
        proof {
            lemma_zero_token();
        }
        if let Err(e) = validate_display_name(display_name) {
            let r = Err(StoreError::Invalid(e));
            assert((self@, session_outcome(r)) == early);
            return r;
        }
        let presented = trimmed(raw);
        if presented.len() == 0 || utf8_len_at_most(&presented, 128) > 128 || any_control(&presented) {
            let r = Err(StoreError::InviteUnavailable);
            assert((self@, session_outcome(r)) == early);
            return r;
        }
        let now = match current_time() {
            Some(t) => t,
            None => {
                return Err(StoreError::Database);
            },
        };
        let secret = opaque_secret();
        let participant_id = opaque_id("member_");
        let ghost t = choose|t: Seq<char>| is_hex_token(t) && participant_id@ == "member_"@ + t;
        let ghost s = secret@;
        let r = self.exchange_invite_at(raw, display_name, now, secret, participant_id);
        assert((self@, session_outcome(r)) == exchange_outcome(
            old(self)@,
            raw@,
            display_name@,
            now,
            s,
            "member_"@ + t,
        ));
        r
    }

    /// Replaces the room's invite at `now` with the given secret (stored as
    /// its digest), revoking every open session.
    pub fn issue_invite_at(&mut self, room_id: &str, now: i64, invite: String) -> (r: Result<
        IssuedInvite,
        StoreError,
    >)
        requires
            old(self).wf(),
            is_timestamp(now),
        ensures
            final(self).wf(),
            (final(self)@, issued_outcome(r)) == issue_outcome(old(self)@, room_id@, now, invite@),
    {
        let id = validate_room_id(room_id)?;
        let i = match self.room_index(id.as_str()) {
            Some(i) => i,
            None => {
                return Err(StoreError::NotFound);
            },
        };
        if matches!(self.rooms[i].status, RoomStatus::Closed) {
            return Err(StoreError::Closed);
        }
        let ghost old_rooms = self@;
        let ghost g = reissued(old_rooms[i as int], now, sha256_of(invite@));
        let share_origin = self.rooms[i].share_origin.clone();
        let d = digest(invite.as_str());
        let rm = &mut self.rooms[i];
        rm.invite.digest = d;
        rm.invite.expires_at = now + crate::limits::INVITE_TTL_SECS * 1_000_000_000;
        rm.invite.revoked_at = None;
        revoke_open_sessions(&mut rm.sessions, now);
        set_offline(&mut rm.participants, true);
        proof {
            assert(self@ =~= old_rooms.update(i as int, g));
            lemma_revoke_keeps_wf(old_rooms[i as int], g, now);
            self.lemma_update_keeps_wf(old_rooms, i as int, g);
        }
        Ok(IssuedInvite { invite, share_origin })
    }

    /// Replaces the room's invite now with a fresh secret.
    pub fn issue_invite(&mut self, room_id: &str) -> (r: Result<IssuedInvite, StoreError>)
        requires
            old(self).wf(),
        ensures
            final(self).wf(),
            (r matches Err(StoreError::Database) && final(self)@ == old(self)@ && room_id_rule(room_id@) is Ok) || exists|now: i64, secret: Seq<char>|
                is_timestamp(now) && is_hex_token(secret) && (final(self)@, issued_outcome(r))
                    == #[trigger] issue_outcome(old(self)@, room_id@, now, secret),
    {
        if let Err(e) = validate_room_id(room_id) {
            let r = Err(e);
            proof {
                lemma_zero_token();
                assert((self@, issued_outcome(r)) == issue_outcome(old(self)@, room_id@, 0, zero_token()));
            }
            return r;
        }
        let now = match current_time() {
            Some(t) => t,
            None => {
                return Err(StoreError::Database);
            },
        };
        let invite = opaque_secret();
        let ghost s = invite@;
        let r = self.issue_invite_at(room_id, now, invite);
        assert((self@, issued_outcome(r)) == issue_outcome(old(self)@, room_id@, now, s));
        r
    }

    /// Revokes the room's invite and every open session at `now`.
    pub fn revoke_invite_at(&mut self, room_id: &str, now: i64) -> (r: Result<(), StoreError>)
        requires
            old(self).wf(),
            is_timestamp(now),
        ensures
            final(self).wf(),
            (final(self)@, unit_outcome(r)) == revoke_outcome(old(self)@, room_id@, now),
    {
        let id = validate_room_id(room_id)?;
        let i = match self.room_index(id.as_str()) {
            Some(i) => i,
            None => {
                return Err(StoreError::NotFound);
            },
        };
        if self.rooms[i].invite.revoked_at.is_some() {
            return Err(StoreError::NotFound);
        }
        let ghost old_rooms = self@;
        let ghost g = invite_revoked(old_rooms[i as int], now);
        let rm = &mut self.rooms[i];
        rm.invite.revoked_at = Some(now);
        revoke_open_sessions(&mut rm.sessions, now);
        set_offline(&mut rm.participants, true);
        proof {
            assert(self@ =~= old_rooms.update(i as int, g));
            lemma_revoke_keeps_wf(old_rooms[i as int], g, now);
            self.lemma_update_keeps_wf(old_rooms, i as int, g);
        }
        Ok(())
    }

    /// Revokes the room's invite and every open session now.
    pub fn revoke_invite(&mut self, room_id: &str) -> (r: Result<(), StoreError>)
        requires
            old(self).wf(),
        ensures
            final(self).wf(),
            (r matches Err(StoreError::Database) && final(self)@ == old(self)@ && room_id_rule(room_id@) is Ok) || exists|now: i64|
                is_timestamp(now) && (final(self)@, unit_outcome(r)) == #[trigger] revoke_outcome(
                    old(self)@,
                    room_id@,
                    now,
                ),
    {
        if let Err(e) = validate_room_id(room_id) {
            let r = Err(e);
            proof {
                lemma_zero_token();
                assert((self@, unit_outcome(r)) == revoke_outcome(old(self)@, room_id@, 0));
            }
            return r;
        }
        let now = match current_time() {
            Some(t) => t,
            None => {
                return Err(StoreError::Database);
            },
        };
        self.revoke_invite_at(room_id, now)
    }

    /// The first session (room by room) whose digest is `d`.
    fn session_index(&self, d: &Vec<u8>) -> (r: Option<(usize, usize)>)
        ensures
            match r {
                Some((i, j)) => i < self@.len() && j < self@[i as int].sessions.len()
                    && first_index(self@, room_has_session(d@)) == Some(i as int) && first_index(
                    self@[i as int].sessions,
                    session_has_digest(d@),
                ) == Some(j as int),
                None => first_index(self@, room_has_session(d@)) is None,
            },
    {
        let ghost rp = room_has_session(d@);
        let ghost sp = session_has_digest(d@);
        let mut i: usize = 0;
        while i < self.rooms.len()
            invariant
                i <= self.rooms@.len(),
                rp == room_has_session(d@),
                sp == session_has_digest(d@),
                forall|a: int| 0 <= a < i ==> !rp(#[trigger] self@[a]),
            decreases self.rooms.len() - i,
        {
            let ghost room = self@[i as int];
            assert(room == self.rooms@[i as int]@);
            let mut j: usize = 0;
            while j < self.rooms[i].sessions.len()
                invariant
                    i < self.rooms@.len(),
                    room == self@[i as int],
                    room == self.rooms@[i as int]@,
                    sp == session_has_digest(d@),
                    rp == room_has_session(d@),
                    forall|a: int| 0 <= a < i ==> !rp(#[trigger] self@[a]),
                    j <= room.sessions.len(),
                    forall|b: int| 0 <= b < j ==> !sp(#[trigger] room.sessions[b]),
                decreases room.sessions.len() - j,
            {
                assert(room.sessions[j as int] == self.rooms@[i as int].sessions@[j as int]@);
                if digests_match(self.rooms[i].sessions[j].digest.as_slice(), d.as_slice()) {
                    proof {
                        assert(sp(room.sessions[j as int]));
                        assert(rp(room));
                        lemma_first_index_at(room.sessions, sp, j as int);
                        lemma_first_index_at(self@, rp, i as int);
                    }
                    return Some((i, j));
                }
                j = j + 1;
            }
            assert(!rp(room)) by {
                if rp(room) {
                    let b = choose|b: int| 0 <= b < room.sessions.len() && (#[trigger] room.sessions[b]).digest == d@;
                    assert(sp(room.sessions[b]));
                }
            }
            i = i + 1;
        }
        proof {
            lemma_first_index_none(self@, rp);
        }
        None
    }

    /// The session that `raw` opens at `now`.
    pub fn resolve_session_at(&self, raw: &str, now: i64) -> (r: Result<Option<RoomSession>, StoreError>)
        requires
            self.wf(),
        ensures
            r matches Ok(s) && opt_session_view(s) == resolve_outcome(self@, raw@, now),
    {
        let t = trimmed(raw);
        if t.len() == 0 || utf8_len_at_most(&t, 128) > 128 {
            return Ok(None);
        }
        let text = string_from_chars(t.as_slice());
        let d = digest(text.as_str());
        let (i, j) = match self.session_index(&d) {
            Some(found) => found,
            None => {
                return Ok(None);
            },
        };
        let ghost room = self@[i as int];
        assert(room == self.rooms@[i as int]@);
        let s = &self.rooms[i].sessions[j];
        assert(room.sessions[j as int] == s@);
        let ps = &self.rooms[i].participants;
        match participant_index(ps, s.participant_id.as_str()) {
            None => Ok(None),
            Some(k) => {
                if s.revoked_at.is_some() || !(s.expires_at > now) {
                    return Ok(None);
                }
                Ok(
                    Some(
                        RoomSession {
                            room_id: self.rooms[i].id.clone(),
                            participant_id: s.participant_id.clone(),
                            role: s.role,
                            display_name: ps[k].display_name.clone(),
                            secret: text,
                        },
                    ),
                )
            },
        }
    }

    /// The session that `raw` opens now.
    pub fn resolve_session(&self, raw: &str) -> (r: Result<Option<RoomSession>, StoreError>)
        requires
            self.wf(),
        ensures
            (r matches Err(StoreError::Database) && trim(raw@).len() > 0 && utf8_len(trim(raw@)) <= 128) || exists|now: i64|
                is_timestamp(now) && (r matches Ok(s) && opt_session_view(s) == #[trigger] resolve_outcome(
                    self@,
                    raw@,
                    now,
                )),
    {
        let presented = trimmed(raw);
        if presented.len() == 0 || utf8_len_at_most(&presented, 128) > 128 {
            assert(resolve_outcome(self@, raw@, 0) is None);
            return Ok(None);
        }
        let now = match current_time() {
            Some(t) => t,
            None => {
                return Err(StoreError::Database);
            },
        };
        self.resolve_session_at(raw, now)
    }
}

} // verus!
