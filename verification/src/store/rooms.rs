//! Room-level operations: creating, listing, reading and closing rooms.
use vstd::prelude::*;

use crate::clock::{current_time, is_timestamp};
use crate::limits::{
    non_empty_rule, share_origin_outcome, validate_model_id, validate_share_origin,
    INVITE_TTL_SECS, MAX_MODEL_ID_CHARS,
};
use crate::model::{ParticipantRole, RoomSnapshot, RoomSnapshotView, RoomSessionView, RoomSession, RoomStatus};
use crate::secrets::{digest, is_hex_token, lemma_zero_token, opaque_id, opaque_secret, sha256_of, zero_token};
use crate::store::find::{
    find_room, first_index, lemma_first_index_at, lemma_first_index_none,
    participant_id_used, room_id_used,
};
use crate::store::order::{key_before, key_lt};
use crate::store::records::{
    participant_keys, room_wf, store_wf, InviteRecord, InviteState, ParticipantRecord,
    ParticipantState, RoomRecord, RoomState, SessionRecord, SessionState,
};
use crate::store::snapshot::{snapshot_of, snapshot_view};
use crate::store::{
    CreateRoomInput, CreatedRoom, CreatedRoomView, RoomStore, StoreError, StoreFailure,
};
use crate::text::{
    chars_of, has_prefix, is_ascii_alphanumeric, is_ascii_alphanumeric_char,
    starts_with, string_from_chars, trim, trim_end, trim_start, trimmed, utf8_len, utf8_len_at_most,
};

verus! {

/// A character allowed in a room identifier.
pub open spec fn is_room_id_char(c: char) -> bool {
    is_ascii_alphanumeric_char(c) || c == '_' || c == '-'
}

/// A room identifier as callers may send it: trimmed, 13 to 105 bytes,
/// starting with `room_`, and made of ASCII letters, digits, `_` and `-`.
pub open spec fn room_id_rule(value: Seq<char>) -> Result<Seq<char>, Seq<char>> {
    let v = trim(value);
    if utf8_len(v) < 13 || utf8_len(v) > 105 || !starts_with(v, "room_"@) || exists|
        i: int,
    | 0 <= i < v.len() && !is_room_id_char(#[trigger] v[i]) {
        Err("roomId is invalid"@)
    } else {
        Ok(v)
    }
}

pub fn validate_room_id(value: &str) -> (r: Result<String, StoreError>)
    ensures
        match room_id_rule(value@) {
            Ok(v) => r matches Ok(s) && s@ == v,
            Err(e) => r matches Err(StoreError::Invalid(m)) && m@ == e,
        },
{
    let v = trimmed(value);
    let s = string_from_chars(v.as_slice());
    let bytes = utf8_len_at_most(&v, 105);
    let prefix = chars_of("room_");
    if bytes < 13 || bytes > 105 || !has_prefix(&v, &prefix) {
        return Err(StoreError::Invalid("roomId is invalid".to_owned()));
    }
    let mut i: usize = 0;
    while i < v.len()
        invariant
            i <= v@.len(),
            v@ == trim(value@),
            s@ == v@,
            13 <= utf8_len(v@) <= 105,
            starts_with(v@, "room_"@),
            forall|j: int| 0 <= j < i ==> is_room_id_char(#[trigger] v@[j]),
        decreases v.len() - i,
    {
        let c = v[i];
        if !(is_ascii_alphanumeric(c) || c == '_' || c == '-') {
            assert(!is_room_id_char(v@[i as int]));
            return Err(StoreError::Invalid("roomId is invalid".to_owned()));
        }
        i = i + 1;
    }
    Ok(s)
}

/// The invite expiry for a given moment.
pub open spec fn invite_expiry(now: i64) -> i64 {
    (now + INVITE_TTL_SECS * 1_000_000_000) as i64
}

/// A freshly created room: idle, with its invite and its host.
pub open spec fn new_room(
    id: Seq<char>,
    model_id: Seq<char>,
    share_origin: Seq<char>,
    now: i64,
    host_id: Seq<char>,
    invite_digest: Seq<u8>,
) -> RoomState {
    RoomState {
        id,
        status: RoomStatus::Idle,
        model_id,
        share_origin,
        created_at: now,
        updated_at: now,
        messages: Seq::empty(),
        runs: Seq::empty(),
        invite: InviteState { digest: invite_digest, expires_at: invite_expiry(now), revoked_at: None },
        participants: seq![
            ParticipantState {
                id: host_id,
                display_name: "Host"@,
                role: ParticipantRole::Host,
                online: true,
                created_at: now,
                last_seen_at: now,
            },
        ],
        sessions: Seq::empty(),
    }
}

pub open spec fn created_outcome(r: Result<CreatedRoom, StoreError>) -> Result<CreatedRoomView, StoreFailure> {
    match r {
        Ok(c) => Ok(c@),
        Err(e) => Err(e@),
    }
}

/// Creating a room from raw input at `now`, with the generated room id,
/// host id and invite secret: validation, then the insertion of the room,
/// its invite (stored as a digest) and its host.
pub open spec fn create_room_outcome(
    rooms: Seq<RoomState>,
    model_raw: Seq<char>,
    share_raw: Seq<char>,
    now: i64,
    room_id: Seq<char>,
    host_id: Seq<char>,
    invite: Seq<char>,
) -> (Seq<RoomState>, Result<CreatedRoomView, StoreFailure>) {
    match non_empty_rule(model_raw, MAX_MODEL_ID_CHARS as nat, "modelId"@) {
        Err(e) => (rooms, Err(StoreFailure::Invalid(e))),
        Ok(model_id) => match share_origin_outcome(share_raw) {
            Err(e) => (rooms, Err(StoreFailure::Invalid(e))),
            Ok(origin) => if room_id_used(rooms, room_id) || participant_id_used(rooms, host_id) {
                (rooms, Err(StoreFailure::Database))
            } else {
                let room = new_room(room_id, model_id, origin, now, host_id, sha256_of(invite));
                (
                    rooms.push(room),
                    Ok(CreatedRoomView { room: snapshot_view(room), invite, share_origin: origin }),
                )
            },
        },
    }
}

pub open spec fn snapshot_outcome(rooms: Seq<RoomState>, raw: Seq<char>) -> Result<
    Option<RoomSnapshotView>,
    StoreFailure,
> {
    match room_id_rule(raw) {
        Err(e) => Err(StoreFailure::Invalid(e)),
        Ok(id) => Ok(
            match find_room(rooms, id) {
                Some(i) => Some(snapshot_view(rooms[i])),
                None => None,
            },
        ),
    }
}

pub open spec fn opt_snapshot_outcome(r: Result<Option<RoomSnapshot>, StoreError>) -> Result<
    Option<RoomSnapshotView>,
    StoreFailure,
> {
    match r {
        Ok(Some(s)) => Ok(Some(s@)),
        Ok(None) => Ok(None),
        Err(e) => Err(e@),
    }
}

pub open spec fn is_host_participant() -> spec_fn(ParticipantState) -> bool {
    |p: ParticipantState| p.role == ParticipantRole::Host
}

pub open spec fn host_session_outcome(rooms: Seq<RoomState>, raw: Seq<char>) -> Result<
    RoomSessionView,
    StoreFailure,
> {
    match room_id_rule(raw) {
        Err(e) => Err(StoreFailure::Invalid(e)),
        Ok(id) => match find_room(rooms, id) {
            None => Err(StoreFailure::NotFound),
            Some(i) => match first_index(rooms[i].participants, is_host_participant()) {
                None => Err(StoreFailure::NotFound),
                Some(j) => Ok(
                    RoomSessionView {
                        room_id: id,
                        participant_id: rooms[i].participants[j].id,
                        role: ParticipantRole::Host,
                        display_name: rooms[i].participants[j].display_name,
                        secret: Seq::empty(),
                    },
                ),
            },
        },
    }
}

pub open spec fn session_outcome(r: Result<RoomSession, StoreError>) -> Result<RoomSessionView, StoreFailure> {
    match r {
        Ok(s) => Ok(s@),
        Err(e) => Err(e@),
    }
}

pub open spec fn unit_outcome(r: Result<(), StoreError>) -> Result<(), StoreFailure> {
    match r {
        Ok(()) => Ok(()),
        Err(e) => Err(e@),
    }
}

/// The invite with its revocation time set, unless it was already revoked.
pub open spec fn revoked_invite(inv: InviteState, now: i64) -> InviteState {
    if inv.revoked_at is None {
        InviteState { revoked_at: Some(now), ..inv }
    } else {
        inv
    }
}

pub open spec fn revoked_session(s: SessionState, now: i64) -> SessionState {
    if s.revoked_at is None {
        SessionState { revoked_at: Some(now), ..s }
    } else {
        s
    }
}

/// Every session still open is revoked at `now`.
pub open spec fn revoked_sessions(ss: Seq<SessionState>, now: i64) -> Seq<SessionState> {
    ss.map_values(|s: SessionState| revoked_session(s, now))
}

pub open spec fn offline_participant(p: ParticipantState, guests_only: bool) -> ParticipantState {
    if !guests_only || p.role == ParticipantRole::Guest {
        ParticipantState { online: false, ..p }
    } else {
        p
    }
}

/// Participants marked offline: all of them, or only the guests.
pub open spec fn offline_participants(ps: Seq<ParticipantState>, guests_only: bool) -> Seq<
    ParticipantState,
> {
    ps.map_values(|p: ParticipantState| offline_participant(p, guests_only))
}

/// Closing a room: closed status, invite and sessions revoked, everyone offline.
pub open spec fn closed_room(r: RoomState, now: i64) -> RoomState {
    RoomState {
        status: RoomStatus::Closed,
        updated_at: now,
        invite: revoked_invite(r.invite, now),
        sessions: revoked_sessions(r.sessions, now),
        participants: offline_participants(r.participants, false),
        ..r
    }
}

pub open spec fn close_room_outcome(rooms: Seq<RoomState>, raw: Seq<char>, now: i64) -> (
    Seq<RoomState>,
    Result<(), StoreFailure>,
) {
    match room_id_rule(raw) {
        Err(e) => (rooms, Err(StoreFailure::Invalid(e))),
        Ok(id) => match find_room(rooms, id) {
            None => (rooms, Err(StoreFailure::NotFound)),
            Some(i) => if rooms[i].status == RoomStatus::Closed {
                (rooms, Err(StoreFailure::NotFound))
            } else {
                (rooms.update(i, closed_room(rooms[i], now)), Ok(()))
            },
        },
    }
}

/// Rooms from the most recently updated to the least, ties by identifier,
/// higher first (`ORDER BY updated_at DESC, id DESC`).
pub open spec fn more_recent(a: RoomState, b: RoomState) -> bool {
    key_lt((b.updated_at, b.id), (a.updated_at, a.id))
}

pub open spec fn recency_pos(s: Seq<RoomState>, x: RoomState) -> int
    decreases s.len(),
{
    if s.len() == 0 {
        0
    } else if more_recent(x, s.last()) {
        recency_pos(s.drop_last(), x)
    } else {
        s.len() as int
    }
}

/// `rooms` sorted by recency, by insertion one at a time.
pub open spec fn by_recency(rooms: Seq<RoomState>) -> Seq<RoomState>
    decreases rooms.len(),
{
    if rooms.len() == 0 {
        rooms
    } else {
        let sorted = by_recency(rooms.drop_last());
        sorted.insert(recency_pos(sorted, rooms.last()), rooms.last())
    }
}

pub open spec fn list_outcome(rooms: Seq<RoomState>) -> Seq<RoomSnapshotView> {
    by_recency(rooms).map_values(|r: RoomState| snapshot_view(r))
}

/// The participants with `online` cleared as `offline_participants` says.
pub fn set_offline(ps: &mut Vec<ParticipantRecord>, guests_only: bool)
    ensures
        final(ps)@.map_values(|p: ParticipantRecord| p@) == offline_participants(
            old(ps)@.map_values(|p: ParticipantRecord| p@),
            guests_only,
        ),
{
    let ghost before = old(ps)@.map_values(|p: ParticipantRecord| p@);
    let n = ps.len();
    let mut j: usize = 0;
    while j < n
        invariant
            n == ps@.len(),
            j <= n,
            before.len() == n,
            forall|k: int| 0 <= k < j ==> (#[trigger] ps@[k])@ == offline_participant(before[k], guests_only),
            forall|k: int| j <= k < n ==> (#[trigger] ps@[k])@ == before[k],
        decreases n - j,
    {
        let is_guest = matches!(ps[j].role, ParticipantRole::Guest);
        if !guests_only || is_guest {
            let p = &mut ps[j];
            p.online = false;
        }
        j = j + 1;
    }
    assert(ps@.map_values(|p: ParticipantRecord| p@) =~= offline_participants(before, guests_only));
}

/// Every open session revoked at `now`.
pub fn revoke_open_sessions(ss: &mut Vec<SessionRecord>, now: i64)
    ensures
        final(ss)@.map_values(|s: SessionRecord| s@) == revoked_sessions(
            old(ss)@.map_values(|s: SessionRecord| s@),
            now,
        ),
{
    let ghost before = old(ss)@.map_values(|s: SessionRecord| s@);
    let n = ss.len();
    let mut j: usize = 0;
    while j < n
        invariant
            n == ss@.len(),
            j <= n,
            before.len() == n,
            forall|k: int| 0 <= k < j ==> (#[trigger] ss@[k])@ == revoked_session(before[k], now),
            forall|k: int| j <= k < n ==> (#[trigger] ss@[k])@ == before[k],
        decreases n - j,
    {
        if ss[j].revoked_at.is_none() {
            let s = &mut ss[j];
            s.revoked_at = Some(now);
        }
        j = j + 1;
    }
    assert(ss@.map_values(|s: SessionRecord| s@) =~= revoked_sessions(before, now));
}

pub proof fn lemma_offline_keeps_keys(ps: Seq<ParticipantState>, guests_only: bool)
    ensures
        participant_keys(offline_participants(ps, guests_only)) == participant_keys(ps),
        offline_participants(ps, guests_only).len() == ps.len(),
        forall|k: int|
            0 <= k < ps.len() ==> (#[trigger] offline_participants(ps, guests_only)[k]).id == ps[k].id
                && offline_participants(ps, guests_only)[k].role == ps[k].role,
{
    assert(participant_keys(offline_participants(ps, guests_only)) =~= participant_keys(ps));
}

/// Revoking sessions and marking participants offline keep a room well
/// formed.
pub proof fn lemma_revoke_keeps_wf(r: RoomState, s: RoomState, now: i64)
    requires
        room_wf(r),
        s.messages == r.messages,
        s.runs == r.runs,
        s.status == r.status || s.status == RoomStatus::Closed,
        is_timestamp(s.updated_at),
        s.sessions == revoked_sessions(r.sessions, now) || s.sessions == r.sessions,
        s.participants == offline_participants(r.participants, false) || s.participants
            == offline_participants(r.participants, true),
    ensures
        room_wf(s),
{
    let g = s.participants == offline_participants(r.participants, true);
    lemma_offline_keeps_keys(r.participants, g);
    assert(s.participants == offline_participants(r.participants, g));
    let hk = choose|k: int| 0 <= k < r.participants.len() && (#[trigger] r.participants[k]).role
        == ParticipantRole::Host;
    assert(s.participants[hk].role == ParticipantRole::Host);
    assert forall|k: int| 0 <= k < s.sessions.len() implies crate::store::records::has_participant(
        s.participants,
        (#[trigger] s.sessions[k]).participant_id,
    ) by {
        assert(s.sessions[k].participant_id == r.sessions[k].participant_id);
        let pk = choose|m: int| 0 <= m < r.participants.len() && (#[trigger] r.participants[m]).id
            == r.sessions[k].participant_id;
        assert(s.participants[pk].id == r.participants[pk].id);
    }
}

pub proof fn lemma_closed_room_wf(r: RoomState, now: i64)
    requires
        room_wf(r),
        is_timestamp(now),
    ensures
        room_wf(closed_room(r, now)),
{
    lemma_revoke_keeps_wf(r, closed_room(r, now), now);
}

pub proof fn lemma_ascii_utf8_len(s: Seq<char>)
    requires
        forall|i: int| 0 <= i < s.len() ==> (#[trigger] s[i] as int) < 0x80,
    ensures
        utf8_len(s) == s.len(),
    decreases s.len(),
{
    if s.len() > 0 {
        assert forall|i: int| 0 <= i < s.drop_first().len() implies (#[trigger] s.drop_first()[i] as int) < 0x80 by {
            assert(s.drop_first()[i] == s[i + 1]);
        }
        lemma_ascii_utf8_len(s.drop_first());
    }
}

/// A generated room identifier is one that callers can name.
pub proof fn lemma_generated_room_id_valid(t: Seq<char>)
    requires
        is_hex_token(t),
    ensures
        room_id_rule("room_"@ + t) == Ok::<Seq<char>, Seq<char>>("room_"@ + t),
{
    reveal_strlit("room_");
    let s = "room_"@ + t;
    assert(s.len() == 37);
    assert forall|i: int| 0 <= i < s.len() implies is_room_id_char(#[trigger] s[i]) && (s[i] as int) < 0x80 by {
        if i >= 5 {
            assert(s[i] == t[i - 5]);
            assert(crate::secrets::is_lower_hex(t[i - 5]));
        }
    }
    lemma_ascii_utf8_len(s);
    assert(trim_start(s) == s);
    assert(trim_end(s) == s);
    assert(trim(s) == s);
    assert(s.subrange(0, 5) =~= "room_"@);
}

impl RoomStore {
    /// Creates a room at `now` with the given generated identifiers and
    /// invite secret.
    pub fn create_room_at(
        &mut self,
        input: CreateRoomInput,
        now: i64,
        room_id: String,
        participant_id: String,
        invite: String,
    ) -> (r: Result<CreatedRoom, StoreError>)
        requires
            old(self).wf(),
            is_timestamp(now),
            room_id_rule(room_id@) == Ok::<Seq<char>, Seq<char>>(room_id@),
        ensures
            final(self).wf(),
            (final(self)@, created_outcome(r)) == create_room_outcome(
                old(self)@,
                input.model_id@,
                input.share_origin@,
                now,
                room_id@,
                participant_id@,
                invite@,
            ),
    {
        let model_id = match validate_model_id(input.model_id.as_str()) {
            Ok(m) => m,
            Err(e) => {
                return Err(StoreError::Invalid(e));
            },
        };
        let share_origin = match validate_share_origin(input.share_origin.as_str()) {
            Ok(s) => s,
            Err(e) => {
                return Err(StoreError::Invalid(e));
            },
        };
        if self.room_id_in_use(room_id.as_str()) || self.participant_id_in_use(
            participant_id.as_str(),
        ) {
            return Err(StoreError::Database);
        }
        let invite_digest = digest(invite.as_str());
        let host = ParticipantRecord {
            id: participant_id,
            display_name: "Host".to_owned(),
            role: ParticipantRole::Host,
            online: true,
            created_at: now,
            last_seen_at: now,
        };
        let mut participants: Vec<ParticipantRecord> = Vec::new();
        participants.push(host);
        let room = RoomRecord {
            id: room_id,
            status: RoomStatus::Idle,
            model_id,
            share_origin: share_origin.clone(),
            created_at: now,
            updated_at: now,
            messages: Vec::new(),
            runs: Vec::new(),
            invite: InviteRecord {
                digest: invite_digest,
                expires_at: now + INVITE_TTL_SECS * 1_000_000_000,
                revoked_at: None,
            },
            participants,
            sessions: Vec::new(),
        };
        let ghost st = new_room(
            room_id@,
            model_id@,
            share_origin@,
            now,
            participant_id@,
            sha256_of(invite@),
        );
        assert(room@.messages =~= Seq::<crate::store::records::MessageState>::empty());
        assert(room@.runs =~= Seq::<crate::store::records::RunState>::empty());
        assert(room@.sessions =~= Seq::<SessionState>::empty());
        assert(room@.participants =~= st.participants);
        assert(room@ == st);
        assert(room_wf(st)) by {
            assert(st.participants[0].role == ParticipantRole::Host);
        }
        let snapshot = snapshot_of(&room);
        let ghost old_rooms = self@;
        self.rooms.push(room);
        assert(self@ =~= old_rooms.push(st));
        assert(store_wf(self@)) by {
            assert forall|i: int, j: int|
                0 <= i < self@.len() && 0 <= j < self@.len() && i != j implies (
            #[trigger] self@[i]).id != (#[trigger] self@[j]).id by {
                if i == old_rooms.len() {
                    assert(old_rooms[j].id == self@[j].id);
                } else if j == old_rooms.len() {
                    assert(old_rooms[i].id == self@[i].id);
                }
            }
        }
        Ok(CreatedRoom { room: snapshot, invite, share_origin })
    }

    /// Creates a room, with the current time and fresh random identifiers
    /// and invite secret.
    pub fn create_room(&mut self, input: CreateRoomInput) -> (r: Result<CreatedRoom, StoreError>)
        requires
            old(self).wf(),
        ensures
            final(self).wf(),
            (r matches Err(StoreError::Database) && final(self)@ == old(self)@ && (non_empty_rule(input.model_id@, MAX_MODEL_ID_CHARS as nat, "modelId"@) is Ok && share_origin_outcome(input.share_origin@) is Ok)) || exists|now: i64, t1: Seq<char>, t2: Seq<char>, secret: Seq<char>|
                is_timestamp(now) && is_hex_token(t1) && is_hex_token(t2) && is_hex_token(secret)
                    && (final(self)@, created_outcome(r)) == #[trigger] create_room_outcome(
                    old(self)@,
                    input.model_id@,
                    input.share_origin@,
                    now,
                    "room_"@ + t1,
                    "member_"@ + t2,
                    secret,
                ),
    {
        let ghost early = create_room_outcome(
            old(self)@,
            input.model_id@,
            input.share_origin@,
            0,
            "room_"@ + zero_token(),
            "member_"@ + zero_token(),
            zero_token(),
        );
        proof {
            lemma_zero_token();
        }
        if let Err(e) = validate_model_id(input.model_id.as_str()) {
            let r = Err(StoreError::Invalid(e));
            assert((self@, created_outcome(r)) == early);
            return r;
        }
        if let Err(e) = validate_share_origin(input.share_origin.as_str()) {
            let r = Err(StoreError::Invalid(e));
            assert((self@, created_outcome(r)) == early);
            return r;
        }
        let now = match current_time() {
            Some(t) => t,
            None => {
                return Err(StoreError::Database);
            },
        };
        let room_id = opaque_id("room_");
        let participant_id = opaque_id("member_");
        let invite = opaque_secret();
        let ghost t1 = choose|t: Seq<char>| is_hex_token(t) && room_id@ == "room_"@ + t;
        proof {
            lemma_generated_room_id_valid(t1);
        }
        let ghost t2 = choose|t: Seq<char>| is_hex_token(t) && participant_id@ == "member_"@ + t;
        let ghost model_raw = input.model_id@;
        let ghost share_raw = input.share_origin@;
        let ghost secret = invite@;
        let r = self.create_room_at(input, now, room_id, participant_id, invite);
        assert((self@, created_outcome(r)) == create_room_outcome(
            old(self)@,
            model_raw,
            share_raw,
            now,
            "room_"@ + t1,
            "member_"@ + t2,
            secret,
        ));
        r
    }

    /// The snapshot of one room, or `None` where no room has that identifier.
    pub fn snapshot(&self, room_id: &str) -> (r: Result<Option<RoomSnapshot>, StoreError>)
        requires
            self.wf(),
        ensures
            opt_snapshot_outcome(r) == snapshot_outcome(self@, room_id@),
    {
        let id = validate_room_id(room_id)?;
        match self.room_index(id.as_str()) {
            Some(i) => {
                assert(self@[i as int] == self.rooms@[i as int]@);
                Ok(Some(snapshot_of(&self.rooms[i])))
            },
            None => Ok(None),
        }
    }

    /// The host participant of a room, as a session without a secret.
    pub fn host_session(&self, room_id: &str) -> (r: Result<RoomSession, StoreError>)
        requires
            self.wf(),
        ensures
            session_outcome(r) == host_session_outcome(self@, room_id@),
    {
        let id = validate_room_id(room_id)?;
        let i = match self.room_index(id.as_str()) {
            Some(i) => i,
            None => {
                return Err(StoreError::NotFound);
            },
        };
        let ghost ps = self@[i as int].participants;
        let ghost p = is_host_participant();
        let participants = &self.rooms[i].participants;
        assert(ps == participants@.map_values(|x: ParticipantRecord| x@));
        let mut j: usize = 0;
        while j < participants.len()
            invariant
                j <= participants@.len(),
                ps == participants@.map_values(|x: ParticipantRecord| x@),
                p == is_host_participant(),
                i < self@.len(),
                ps == self@[i as int].participants,
                room_id_rule(room_id@) == Ok::<Seq<char>, Seq<char>>(id@),
                find_room(self@, id@) == Some(i as int),
                forall|k: int| 0 <= k < j ==> !p(#[trigger] ps[k]),
            decreases participants.len() - j,
        {
            if matches!(participants[j].role, ParticipantRole::Host) {
                proof {
                    lemma_first_index_at(ps, p, j as int);
                }
                let out = RoomSession {
                        room_id: id,
                        participant_id: participants[j].id.clone(),
                        role: ParticipantRole::Host,
                        display_name: participants[j].display_name.clone(),
                        secret: String::new(),
                    };
                assert(ps[j as int] == participants@[j as int]@);
                return Ok(out);
            }
            j = j + 1;
        }
        proof {
            lemma_first_index_none(ps, p);
        }
        Err(StoreError::NotFound)
    }

    /// Closes a room at `now`.
    pub fn close_room_at(&mut self, room_id: &str, now: i64) -> (r: Result<(), StoreError>)
        requires
            old(self).wf(),
            is_timestamp(now),
        ensures
            final(self).wf(),
            (final(self)@, unit_outcome(r)) == close_room_outcome(old(self)@, room_id@, now),
    {
        let id = validate_room_id(room_id)?;
        let i = match self.room_index(id.as_str()) {
            Some(i) => i,
            None => {
                return Err(StoreError::NotFound);
            },
        };
        if matches!(self.rooms[i].status, RoomStatus::Closed) {
            return Err(StoreError::NotFound);
        }
        let ghost old_rooms = self@;
        let ghost st = closed_room(old_rooms[i as int], now);
        let room = &mut self.rooms[i];
        room.status = RoomStatus::Closed;
        room.updated_at = now;
        if room.invite.revoked_at.is_none() {
            room.invite.revoked_at = Some(now);
        }
        revoke_open_sessions(&mut room.sessions, now);
        set_offline(&mut room.participants, false);
        proof {
            lemma_closed_room_wf(old_rooms[i as int], now);
        }
        assert(self@ =~= old_rooms.update(i as int, st));
        proof {
            self.lemma_update_keeps_wf(old_rooms, i as int, st);
        }
        Ok(())
    }

    /// Closes a room now.
    pub fn close_room(&mut self, room_id: &str) -> (r: Result<(), StoreError>)
        requires
            old(self).wf(),
        ensures
            final(self).wf(),
            (r matches Err(StoreError::Database) && final(self)@ == old(self)@ && room_id_rule(room_id@) is Ok) || exists|now: i64|
                is_timestamp(now) && (final(self)@, unit_outcome(r)) == #[trigger] close_room_outcome(
                    old(self)@,
                    room_id@,
                    now,
                ),
    {
        if let Err(e) = validate_room_id(room_id) {
            let r = Err(e);
            proof {
                lemma_zero_token();
                assert((self@, unit_outcome(r)) == close_room_outcome(old(self)@, room_id@, 0));
            }
            return r;
        }
        let now = match current_time() {
            Some(t) => t,
            None => {
                return Err(StoreError::Database);
            },
        };
        self.close_room_at(room_id, now)
    }

    /// Replacing one room by a well-formed room with the same identifier
    /// keeps the store well formed.
    pub proof fn lemma_update_keeps_wf(&self, old_rooms: Seq<RoomState>, i: int, st: RoomState)
        requires
            store_wf(old_rooms),
            0 <= i < old_rooms.len(),
            st.id == old_rooms[i].id,
            room_wf(st),
            self@ == old_rooms.update(i, st),
        ensures
            self.wf(),
    {
        assert forall|a: int, b: int|
            0 <= a < self@.len() && 0 <= b < self@.len() && a != b implies (#[trigger] self@[a]).id
            != (#[trigger] self@[b]).id by {
            assert(self@[a].id == old_rooms[a].id);
            assert(self@[b].id == old_rooms[b].id);
        }
        assert forall|a: int| 0 <= a < self@.len() implies room_wf(#[trigger] self@[a]) by {
            if a != i {
                assert(self@[a] == old_rooms[a]);
            }
        }
        assert forall|a: int| 0 <= a < self@.len() implies room_id_rule((#[trigger] self@[a]).id)
            == Ok::<Seq<char>, Seq<char>>(self@[a].id) by {
            assert(self@[a].id == old_rooms[a].id);
        }
    }

    /// Snapshots of every room, most recently updated first.
    pub fn list_rooms(&self) -> (r: Result<Vec<RoomSnapshot>, StoreError>)
        requires
            self.wf(),
        ensures
            r matches Ok(v) && v@.map_values(|s: RoomSnapshot| s@) == list_outcome(self@),
    {
        let ghost rooms = self@;
        let n = self.rooms.len();
        let mut order: Vec<usize> = Vec::new();
        let mut i: usize = 0;
        assert(rooms.take(0) =~= Seq::<RoomState>::empty());
        assert(order@.map_values(|k: usize| rooms[k as int]) =~= Seq::<RoomState>::empty());
        while i < n
            invariant
                rooms == self@,
                n == rooms.len(),
                i <= n,
                forall|k: int| 0 <= k < order@.len() ==> (#[trigger] order@[k]) < n,
                order@.map_values(|k: usize| rooms[k as int]) == by_recency(rooms.take(i as int)),
            decreases n - i,
        {
            let ghost sorted = order@.map_values(|k: usize| rooms[k as int]);
            let ghost x = rooms[i as int];
            assert(x == self.rooms@[i as int]@);
            let mut p: usize = order.len();
            assert(sorted.subrange(0, p as int) =~= sorted);
            while p > 0 && key_before(
                self.rooms[order[p - 1]].updated_at,
                self.rooms[order[p - 1]].id.as_str(),
                self.rooms[i].updated_at,
                self.rooms[i].id.as_str(),
            )
                invariant
                    rooms == self@,
                    n == rooms.len(),
                    i < n,
                    x == rooms[i as int],
                    p <= order@.len(),
                    forall|k: int| 0 <= k < order@.len() ==> (#[trigger] order@[k]) < n,
                    sorted == order@.map_values(|k: usize| rooms[k as int]),
                    recency_pos(sorted.subrange(0, p as int), x) == recency_pos(sorted, x),
                decreases p,
            {
                assert(self.rooms@[order@[p - 1] as int]@ == rooms[order@[p - 1] as int]);
                assert(sorted.subrange(0, p as int).drop_last() =~= sorted.subrange(0, p - 1));
                assert(sorted.subrange(0, p as int).last() == sorted[p - 1]);
                p = p - 1;
            }
            if p > 0 {
                assert(self.rooms@[order@[p - 1] as int]@ == rooms[order@[p - 1] as int]);
                assert(sorted.subrange(0, p as int).last() == sorted[p - 1]);
            }
            order.insert(p, i);
            assert(rooms.take(i + 1).drop_last() =~= rooms.take(i as int));
            assert(rooms.take(i + 1).last() == x);
            assert(order@.map_values(|k: usize| rooms[k as int]) =~= sorted.insert(p as int, x));
            i = i + 1;
        }
        assert(rooms.take(n as int) =~= rooms);
        let ghost sorted = by_recency(rooms);
        let mut out: Vec<RoomSnapshot> = Vec::new();
        let mut k: usize = 0;
        while k < order.len()
            invariant
                rooms == self@,
                n == rooms.len(),
                self.wf(),
                k <= order@.len(),
                forall|m: int| 0 <= m < order@.len() ==> (#[trigger] order@[m]) < n,
                order@.map_values(|m: usize| rooms[m as int]) == sorted,
                out@.len() == k,
                forall|m: int| 0 <= m < k ==> (#[trigger] out@[m])@ == snapshot_view(sorted[m]),
            decreases order.len() - k,
        {
            let idx = order[k];
            assert(sorted[k as int] == rooms[idx as int]);
            assert(rooms[idx as int] == self.rooms@[idx as int]@);
            assert(room_wf(rooms[idx as int]));
            out.push(snapshot_of(&self.rooms[idx]));
            k = k + 1;
        }
        assert(out@.map_values(|s: RoomSnapshot| s@) =~= list_outcome(rooms));
        Ok(out)
    }

    /// Never reveals an invite secret: the store keeps only its digest.
    pub fn raw_invite_for_test(&self, room_id: &str) -> (r: Result<Option<String>, StoreError>)
        ensures
            r matches Ok(None),
    {
        Ok(None)
    }
}

} // verus!
