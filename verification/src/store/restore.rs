//! Rebuilding a store from rows read back from storage: the rows are
//! accepted only where they satisfy the store's invariant.
use vstd::prelude::*;

use crate::clock::{is_timestamp, MAX_TIMESTAMP_NANOS};
use crate::limits::{MAX_MESSAGE_CHARS, MAX_PARTICIPANTS};
use crate::model::{ParticipantRole, RoomStatus, RunStatus};
use crate::store::find::ident_in;
use crate::store::order::{
    idents_distinct, key_before, key_lt, keys_of, lemma_key_lt_transitive, strictly_sorted, Ordered,
};
use crate::store::records::{
    has_active_run, has_participant, keys_distinct, message_keys, opt_timestamp, participant_keys,
    room_wf, run_keys, single_active_run, store_wf, RoomRecord, RunRecord,
};
use crate::store::rooms::{room_id_rule, validate_room_id};
use crate::store::{RoomStore, StoreError};
use crate::text::{chars_of, str_eq};

verus! {

/// Each key sorts before the next one.
pub open spec fn adjacent_sorted(s: Seq<(i64, Seq<char>)>) -> bool {
    forall|i: int| 0 <= i < s.len() - 1 ==> key_lt(#[trigger] s[i], s[i + 1])
}

pub proof fn lemma_adjacent_sorted(s: Seq<(i64, Seq<char>)>)
    requires
        adjacent_sorted(s),
    ensures
        strictly_sorted(s),
{
    assert forall|i: int, j: int| 0 <= i < j < s.len() implies key_lt(#[trigger] s[i], #[trigger] s[j]) by {
        lemma_adjacent_chain(s, i, j);
    }
}

proof fn lemma_adjacent_chain(s: Seq<(i64, Seq<char>)>, i: int, j: int)
    requires
        adjacent_sorted(s),
        0 <= i < j < s.len(),
    ensures
        key_lt(s[i], s[j]),
    decreases j - i,
{
    if j > i + 1 {
        lemma_adjacent_chain(s, i, j - 1);
        lemma_key_lt_transitive(s[i], s[j - 1], s[j]);
    }
}

/// Whether the rows of `v` are in strict key order.
pub fn rows_sorted<T: Ordered>(v: &Vec<T>) -> (r: bool)
    ensures
        r == strictly_sorted(keys_of(v@)),
{
    let ghost keys = keys_of(v@);
    if v.len() < 2 {
        return true;
    }
    let mut i: usize = 0;
    while i + 1 < v.len()
        invariant
            keys == keys_of(v@),
            i + 1 <= v@.len(),
            forall|k: int| 0 <= k < i ==> key_lt(#[trigger] keys[k], keys[k + 1]),
        decreases v.len() - i,
    {
        if !key_before(v[i].created(), v[i].ident(), v[i + 1].created(), v[i + 1].ident()) {
            assert(!key_lt(keys[i as int], keys[i + 1]));
            return false;
        }
        i = i + 1;
    }
    proof {
        lemma_adjacent_sorted(keys);
    }
    true
}

/// Whether no two rows of `v` share an identifier.
pub fn rows_unique<T: Ordered>(v: &Vec<T>) -> (r: bool)
    ensures
        r == idents_distinct(keys_of(v@)),
{
    let ghost keys = keys_of(v@);
    let mut i: usize = 0;
    while i < v.len()
        invariant
            keys == keys_of(v@),
            i <= v@.len(),
            forall|a: int, b: int|
                0 <= a < i && 0 <= b < v@.len() && a != b ==> (#[trigger] keys[a]).1 != (#[trigger] keys[b]).1,
        decreases v.len() - i,
    {
        let mut j: usize = 0;
        while j < v.len()
            invariant
                keys == keys_of(v@),
                i < v@.len(),
                j <= v@.len(),
                forall|a: int, b: int|
                    0 <= a < i && 0 <= b < v@.len() && a != b ==> (#[trigger] keys[a]).1 != (#[trigger] keys[b]).1,
                forall|b: int| 0 <= b < j && b != i ==> keys[i as int].1 != (#[trigger] keys[b]).1,
            decreases v.len() - j,
        {
            if j != i && str_eq(v[i].ident(), v[j].ident()) {
                assert(keys[i as int].1 == keys[j as int].1);
                return false;
            }
            j = j + 1;
        }
        assert forall|a: int, b: int|
            0 <= a < i + 1 && 0 <= b < v@.len() && a != b implies (#[trigger] keys[a]).1 != (#[trigger] keys[b]).1 by {
            if a == i {
                assert(keys[i as int].1 != keys[b].1);
            }
        }
        i = i + 1;
    }
    true
}

/// Whether no two runs share an idempotency key.
pub fn run_keys_unique(runs: &Vec<RunRecord>) -> (r: bool)
    ensures
        r == keys_distinct(runs@.map_values(|x: RunRecord| x@)),
{
    let ghost all = runs@.map_values(|x: RunRecord| x@);
    let mut i: usize = 0;
    while i < runs.len()
        invariant
            all == runs@.map_values(|x: RunRecord| x@),
            i <= runs@.len(),
            forall|a: int, b: int|
                0 <= a < i && 0 <= b < all.len() && a != b && (#[trigger] all[a]).idempotency_key is Some
                    ==> all[a].idempotency_key != (#[trigger] all[b]).idempotency_key,
        decreases runs.len() - i,
    {
        if let Some(k) = &runs[i].idempotency_key {
            let mut j: usize = 0;
            while j < runs.len()
                invariant
                    all == runs@.map_values(|x: RunRecord| x@),
                    i < runs@.len(),
                    j <= runs@.len(),
                    all[i as int].idempotency_key == Some(k@),
                    forall|b: int| 0 <= b < j && b != i ==> (#[trigger] all[b]).idempotency_key != Some(k@),
                decreases runs.len() - j,
            {
                if j != i {
                    if let Some(other) = &runs[j].idempotency_key {
                        if str_eq(other.as_str(), k.as_str()) {
                            assert(all[j as int].idempotency_key == Some(k@));
                            return false;
                        }
                    }
                }
                j = j + 1;
            }
        }
        i = i + 1;
    }
    true
}

fn opt_in_range(t: Option<i64>) -> (r: bool)
    ensures
        r == opt_timestamp(t),
{
    match t {
        Some(x) => 0 <= x && x <= MAX_TIMESTAMP_NANOS,
        None => true,
    }
}

/// Whether one room's rows satisfy the room invariant.
pub fn room_rows_valid(room: &RoomRecord) -> (r: bool)
    ensures
        r == room_wf(room@),
{
    let ghost st = room@;
    assert(message_keys(st.messages) =~= keys_of(room.messages@));
    assert(run_keys(st.runs) =~= keys_of(room.runs@));
    assert(participant_keys(st.participants) =~= keys_of(room.participants@));
    if !rows_sorted(&room.messages) || !rows_sorted(&room.runs) || !rows_sorted(&room.participants) {
        return false;
    }
    if !rows_unique(&room.messages) || !rows_unique(&room.runs) || !rows_unique(&room.participants)
        || !run_keys_unique(&room.runs) {
        return false;
    }
    let mut active: usize = 0;
    let mut first_active: usize = 0;
    let mut j: usize = 0;
    while j < room.runs.len()
        invariant
            st == room@,
            j <= room.runs@.len(),
            active <= 1,
            active == 0 ==> forall|k: int| 0 <= k < j ==> !crate::model::is_active_status(#[trigger] st.runs[k].status),
            active == 1 ==> first_active < j && crate::model::is_active_status(st.runs[first_active as int].status)
                && forall|k: int| 0 <= k < j && k != first_active ==> !crate::model::is_active_status(#[trigger] st.runs[k].status),
            forall|k: int| 0 <= k < j ==> (#[trigger] st.runs[k]).partial_text.len() <= MAX_MESSAGE_CHARS
                && opt_timestamp(st.runs[k].started_at) && opt_timestamp(st.runs[k].finished_at),
        decreases room.runs.len() - j,
    {
        let run = &room.runs[j];
        assert(st.runs[j as int] == run@);
        if chars_of(run.partial_text.as_str()).len() > MAX_MESSAGE_CHARS || !opt_in_range(run.started_at)
            || !opt_in_range(run.finished_at) {
            return false;
        }
        if matches!(run.status, RunStatus::Queued | RunStatus::Running) {
            if active == 1 {
                assert(!single_active_run(st.runs)) by {
                    assert(crate::model::is_active_status(st.runs[j as int].status));
                }
                return false;
            }
            active = 1;
            first_active = j;
        }
        j = j + 1;
    }
    assert(single_active_run(st.runs));
    if matches!(room.status, RoomStatus::Running) && active == 0 {
        return false;
    }
    assert(st.status == RoomStatus::Running ==> has_active_run(st.runs));
    if room.participants.len() > MAX_PARTICIPANTS {
        return false;
    }
    let mut host = false;
    let mut p: usize = 0;
    while p < room.participants.len()
        invariant
            st == room@,
            p <= room.participants@.len(),
            host == exists|k: int| 0 <= k < p && (#[trigger] st.participants[k]).role == ParticipantRole::Host,
        decreases room.participants.len() - p,
    {
        if matches!(room.participants[p].role, ParticipantRole::Host) {
            assert(st.participants[p as int].role == ParticipantRole::Host);
            host = true;
        }
        p = p + 1;
    }
    if !host {
        return false;
    }
    let mut s: usize = 0;
    while s < room.sessions.len()
        invariant
            st == room@,
            s <= room.sessions@.len(),
            forall|k: int| 0 <= k < s ==> has_participant(st.participants, (#[trigger] st.sessions[k]).participant_id),
        decreases room.sessions.len() - s,
    {
        if !ident_in(&room.participants, room.sessions[s].participant_id.as_str()) {
            assert(!has_participant(st.participants, st.sessions[s as int].participant_id)) by {
                if has_participant(st.participants, st.sessions[s as int].participant_id) {
                    let k = choose|k: int| 0 <= k < st.participants.len() && (#[trigger] st.participants[k]).id
                        == st.sessions[s as int].participant_id;
                    assert(room.participants@[k].order_key().1 == st.participants[k].id);
                }
            }
            return false;
        }
        assert(has_participant(st.participants, st.sessions[s as int].participant_id)) by {
            let k = choose|k: int| 0 <= k < room.participants@.len() && (#[trigger] room.participants@[k]).order_key().1
                == room.sessions@[s as int].participant_id@;
            assert(st.participants[k].id == room.participants@[k]@.id);
        }
        s = s + 1;
    }
    if !(0 <= room.updated_at && room.updated_at <= MAX_TIMESTAMP_NANOS) {
        return false;
    }
    let mut m: usize = 0;
    while m < room.messages.len()
        invariant
            st == room@,
            m <= room.messages@.len(),
            forall|k: int| 0 <= k < m ==> is_timestamp(#[trigger] st.messages[k].created_at),
        decreases room.messages.len() - m,
    {
        let t = room.messages[m].created_at;
        assert(st.messages[m as int].created_at == t);
        if !(0 <= t && t <= MAX_TIMESTAMP_NANOS) {
            return false;
        }
        m = m + 1;
    }
    true
}

impl RoomStore {
    /// A store holding `rooms`, or `Database` where the rows break the
    /// store's invariant.
    pub fn restore(rooms: Vec<RoomRecord>) -> (r: Result<RoomStore, StoreError>)
        ensures
            match r {
                Ok(s) => s.wf() && s@ == rooms@.map_values(|x: RoomRecord| x@),
                Err(e) => e is Database && !store_wf(rooms@.map_values(|x: RoomRecord| x@)),
            },
    {
        let ghost all = rooms@.map_values(|x: RoomRecord| x@);
        let n = rooms.len();
        let mut i: usize = 0;
        while i < n
            invariant
                n == rooms@.len(),
                all == rooms@.map_values(|x: RoomRecord| x@),
                i <= n,
                forall|a: int| 0 <= a < i ==> room_wf(#[trigger] all[a]),
                forall|a: int| 0 <= a < i ==> room_id_rule((#[trigger] all[a]).id) == Ok::<Seq<char>, Seq<char>>(all[a].id),
                forall|a: int, b: int| 0 <= a < i && 0 <= b < i && a != b ==> (#[trigger] all[a]).id != (#[trigger] all[b]).id,
            decreases n - i,
        {
            let room = &rooms[i];
            assert(all[i as int] == room@);
            if !room_rows_valid(room) {
                return Err(StoreError::Database);
            }
            let valid_id = match validate_room_id(room.id.as_str()) {
                Ok(v) => str_eq(v.as_str(), room.id.as_str()),
                Err(_) => false,
            };
            if !valid_id {
                return Err(StoreError::Database);
            }
            let mut b: usize = 0;
            while b < i
                invariant
                    n == rooms@.len(),
                    all == rooms@.map_values(|x: RoomRecord| x@),
                    i < n,
                    b <= i,
                    forall|c: int| 0 <= c < b ==> (#[trigger] all[c]).id != all[i as int].id,
                decreases i - b,
            {
                assert(all[b as int] == rooms@[b as int]@);
                if str_eq(rooms[b].id.as_str(), rooms[i].id.as_str()) {
                    return Err(StoreError::Database);
                }
                b = b + 1;
            }
            i = i + 1;
        }
        let s = RoomStore { rooms };
        assert(s@ == all);
        Ok(s)
    }
}

} // verus!
