//! Scans over the store: the first row that matches, and whether an
//! identifier is already taken.
use vstd::prelude::*;

use crate::model::{is_active_status, RunStatus};
use crate::store::order::Ordered;
use crate::store::records::{RoomState, RunRecord, RunState};
use crate::store::RoomStore;
use crate::text::str_eq;

verus! {

/// The index of the first element that satisfies `p`.
pub open spec fn first_index<A>(s: Seq<A>, p: spec_fn(A) -> bool) -> Option<int>
    decreases s.len(),
{
    if s.len() == 0 {
        None
    } else if p(s[0]) {
        Some(0)
    } else {
        match first_index(s.drop_first(), p) {
            Some(i) => Some(i + 1),
            None => None,
        }
    }
}

pub proof fn lemma_first_index<A>(s: Seq<A>, p: spec_fn(A) -> bool)
    ensures
        match first_index(s, p) {
            Some(i) => 0 <= i < s.len() && p(s[i]) && forall|j: int| 0 <= j < i ==> !p(#[trigger] s[j]),
            None => forall|j: int| 0 <= j < s.len() ==> !p(#[trigger] s[j]),
        },
    decreases s.len(),
{
    if s.len() > 0 && !p(s[0]) {
        lemma_first_index(s.drop_first(), p);
        assert forall|j: int| 1 <= j < s.len() implies s[j] == s.drop_first()[j - 1] by {}
    }
}

/// The first match is the one a front-to-back scan stops at.
pub proof fn lemma_first_index_at<A>(s: Seq<A>, p: spec_fn(A) -> bool, k: int)
    requires
        0 <= k < s.len(),
        p(s[k]),
        forall|j: int| 0 <= j < k ==> !p(#[trigger] s[j]),
    ensures
        first_index(s, p) == Some(k),
{
    lemma_first_index(s, p);
}

pub proof fn lemma_first_index_none<A>(s: Seq<A>, p: spec_fn(A) -> bool)
    requires
        forall|j: int| 0 <= j < s.len() ==> !p(#[trigger] s[j]),
    ensures
        first_index(s, p) is None,
{
    lemma_first_index(s, p);
}

pub open spec fn room_has_id(id: Seq<char>) -> spec_fn(RoomState) -> bool {
    |r: RoomState| r.id == id
}

pub open spec fn run_has_id(id: Seq<char>) -> spec_fn(RunState) -> bool {
    |r: RunState| r.id == id
}

/// `WHERE id = ? AND status = 'running'`.
pub open spec fn run_is_running_with_id(id: Seq<char>) -> spec_fn(RunState) -> bool {
    |r: RunState| r.id == id && r.status == RunStatus::Running
}

/// `WHERE id = ? AND status IN ('queued', 'running')`.
pub open spec fn run_is_active_with_id(id: Seq<char>) -> spec_fn(RunState) -> bool {
    |r: RunState| r.id == id && is_active_status(r.status)
}

/// `WHERE idempotency_key = ?`.
pub open spec fn run_has_key(key: Seq<char>) -> spec_fn(RunState) -> bool {
    |r: RunState| r.idempotency_key == Some(key)
}

/// The room with identifier `id`.
pub open spec fn find_room(rooms: Seq<RoomState>, id: Seq<char>) -> Option<int> {
    first_index(rooms, room_has_id(id))
}

pub open spec fn room_id_used(rooms: Seq<RoomState>, id: Seq<char>) -> bool {
    exists|i: int| 0 <= i < rooms.len() && (#[trigger] rooms[i]).id == id
}

pub open spec fn message_id_used(rooms: Seq<RoomState>, id: Seq<char>) -> bool {
    exists|i: int, j: int|
        0 <= i < rooms.len() && 0 <= j < rooms[i].messages.len() && (
        #[trigger] rooms[i].messages[j]).id == id
}

pub open spec fn run_id_used(rooms: Seq<RoomState>, id: Seq<char>) -> bool {
    exists|i: int, j: int|
        0 <= i < rooms.len() && 0 <= j < rooms[i].runs.len() && (#[trigger] rooms[i].runs[j]).id
            == id
}

pub open spec fn participant_id_used(rooms: Seq<RoomState>, id: Seq<char>) -> bool {
    exists|i: int, j: int|
        0 <= i < rooms.len() && 0 <= j < rooms[i].participants.len() && (
        #[trigger] rooms[i].participants[j]).id == id
}

pub open spec fn session_digest_used(rooms: Seq<RoomState>, d: Seq<u8>) -> bool {
    exists|i: int, j: int|
        0 <= i < rooms.len() && 0 <= j < rooms[i].sessions.len() && (
        #[trigger] rooms[i].sessions[j]).digest == d
}

/// Whether some row of `v` has identifier `id`.
pub fn ident_in<T: Ordered>(v: &Vec<T>, id: &str) -> (r: bool)
    ensures
        r == exists|j: int| 0 <= j < v@.len() && (#[trigger] v@[j]).order_key().1 == id@,
{
    let mut j: usize = 0;
    while j < v.len()
        invariant
            j <= v@.len(),
            forall|k: int| 0 <= k < j ==> (#[trigger] v@[k]).order_key().1 != id@,
        decreases v.len() - j,
    {
        if str_eq(v[j].ident(), id) {
            return true;
        }
        j = j + 1;
    }
    false
}

/// Whether two byte strings are equal.
pub fn bytes_eq(a: &Vec<u8>, b: &Vec<u8>) -> (r: bool)
    ensures
        r == (a@ == b@),
{
    if a.len() != b.len() {
        return false;
    }
    let mut i: usize = 0;
    while i < a.len()
        invariant
            a@.len() == b@.len(),
            i <= a.len(),
            forall|j: int| 0 <= j < i ==> a@[j] == b@[j],
        decreases a.len() - i,
    {
        if a[i] != b[i] {
            return false;
        }
        i = i + 1;
    }
    assert(a@ =~= b@);
    true
}

impl RoomStore {
    /// The index of the room with identifier `id`.
    pub(crate) fn room_index(&self, id: &str) -> (r: Option<usize>)
        ensures
            match r {
                Some(i) => find_room(self@, id@) == Some(i as int) && i < self@.len(),
                None => find_room(self@, id@) is None,
            },
    {
        let ghost p = room_has_id(id@);
        let mut i: usize = 0;
        while i < self.rooms.len()
            invariant
                i <= self.rooms@.len(),
                p == room_has_id(id@),
                forall|j: int| 0 <= j < i ==> !p(#[trigger] self@[j]),
            decreases self.rooms.len() - i,
        {
            if str_eq(self.rooms[i].id.as_str(), id) {
                proof {
                    lemma_first_index_at(self@, p, i as int);
                }
                return Some(i);
            }
            i = i + 1;
        }
        proof {
            lemma_first_index_none(self@, p);
        }
        None
    }

    pub(crate) fn room_id_in_use(&self, id: &str) -> (r: bool)
        ensures
            r == room_id_used(self@, id@),
    {
        match self.room_index(id) {
            Some(i) => {
                proof {
                    lemma_first_index(self@, room_has_id(id@));
                }
                true
            },
            None => {
                proof {
                    lemma_first_index(self@, room_has_id(id@));
                }
                false
            },
        }
    }

    pub(crate) fn message_id_in_use(&self, id: &str) -> (r: bool)
        ensures
            r == message_id_used(self@, id@),
    {
        let mut i: usize = 0;
        while i < self.rooms.len()
            invariant
                i <= self.rooms@.len(),
                forall|a: int, b: int|
                    0 <= a < i && 0 <= b < self@[a].messages.len() ==> (
                    #[trigger] self@[a].messages[b]).id != id@,
            decreases self.rooms.len() - i,
        {
            let ghost room = self@[i as int];
            if ident_in(&self.rooms[i].messages, id) {
                let ghost j = choose|j: int|
                    0 <= j < self.rooms@[i as int].messages@.len() && (
                    #[trigger] self.rooms@[i as int].messages@[j]).order_key().1 == id@;
                assert(room.messages[j].id == id@);
                return true;
            }
            assert forall|b: int| 0 <= b < room.messages.len() implies (
            #[trigger] room.messages[b]).id != id@ by {
                assert(room.messages[b] == self.rooms@[i as int].messages@[b]@);
            }
            i = i + 1;
        }
        false
    }

    pub(crate) fn run_id_in_use(&self, id: &str) -> (r: bool)
        ensures
            r == run_id_used(self@, id@),
    {
        let mut i: usize = 0;
        while i < self.rooms.len()
            invariant
                i <= self.rooms@.len(),
                forall|a: int, b: int|
                    0 <= a < i && 0 <= b < self@[a].runs.len() ==> (
                    #[trigger] self@[a].runs[b]).id != id@,
            decreases self.rooms.len() - i,
        {
            let ghost room = self@[i as int];
            if ident_in(&self.rooms[i].runs, id) {
                let ghost j = choose|j: int|
                    0 <= j < self.rooms@[i as int].runs@.len() && (
                    #[trigger] self.rooms@[i as int].runs@[j]).order_key().1 == id@;
                assert(room.runs[j].id == id@);
                return true;
            }
            assert forall|b: int| 0 <= b < room.runs.len() implies (#[trigger] room.runs[b]).id
                != id@ by {
                assert(room.runs[b] == self.rooms@[i as int].runs@[b]@);
            }
            i = i + 1;
        }
        false
    }

    pub(crate) fn participant_id_in_use(&self, id: &str) -> (r: bool)
        ensures
            r == participant_id_used(self@, id@),
    {
        let mut i: usize = 0;
        while i < self.rooms.len()
            invariant
                i <= self.rooms@.len(),
                forall|a: int, b: int|
                    0 <= a < i && 0 <= b < self@[a].participants.len() ==> (
                    #[trigger] self@[a].participants[b]).id != id@,
            decreases self.rooms.len() - i,
        {
            let ghost room = self@[i as int];
            if ident_in(&self.rooms[i].participants, id) {
                let ghost j = choose|j: int|
                    0 <= j < self.rooms@[i as int].participants@.len() && (
                    #[trigger] self.rooms@[i as int].participants@[j]).order_key().1 == id@;
                assert(room.participants[j].id == id@);
                return true;
            }
            assert forall|b: int| 0 <= b < room.participants.len() implies (
            #[trigger] room.participants[b]).id != id@ by {
                assert(room.participants[b] == self.rooms@[i as int].participants@[b]@);
            }
            i = i + 1;
        }
        false
    }

    pub(crate) fn session_digest_in_use(&self, d: &Vec<u8>) -> (r: bool)
        ensures
            r == session_digest_used(self@, d@),
    {
        let mut i: usize = 0;
        while i < self.rooms.len()
            invariant
                i <= self.rooms@.len(),
                forall|a: int, b: int|
                    0 <= a < i && 0 <= b < self@[a].sessions.len() ==> (
                    #[trigger] self@[a].sessions[b]).digest != d@,
            decreases self.rooms.len() - i,
        {
            let ghost room = self@[i as int];
            let mut j: usize = 0;
            while j < self.rooms[i].sessions.len()
                invariant
                    i < self.rooms@.len(),
                    room == self@[i as int],
                    j <= room.sessions.len(),
                    forall|b: int| 0 <= b < j ==> (#[trigger] room.sessions[b]).digest != d@,
                decreases room.sessions.len() - j,
            {
                assert(room.sessions[j as int] == self.rooms@[i as int].sessions@[j as int]@);
                if bytes_eq(&self.rooms[i].sessions[j].digest, d) {
                    return true;
                }
                j = j + 1;
            }
            i = i + 1;
        }
        false
    }
}

/// The index of the first run of `runs` that satisfies `p`, where `test`
/// decides `p` on each run.
pub fn first_run_index(runs: &Vec<RunRecord>, id: &str, running_only: bool, active_only: bool) -> (r:
    Option<usize>)
    requires
        !(running_only && active_only),
    ensures
        ({
            let p = if running_only {
                run_is_running_with_id(id@)
            } else if active_only {
                run_is_active_with_id(id@)
            } else {
                run_has_id(id@)
            };
            let s = runs@.map_values(|x: RunRecord| x@);
            match r {
                Some(i) => i < runs@.len() && first_index(s, p) == Some(i as int),
                None => first_index(s, p) is None,
            }
        }),
{
    let ghost p = if running_only {
        run_is_running_with_id(id@)
    } else if active_only {
        run_is_active_with_id(id@)
    } else {
        run_has_id(id@)
    };
    let ghost s = runs@.map_values(|x: RunRecord| x@);
    let mut i: usize = 0;
    while i < runs.len()
        invariant
            i <= runs@.len(),
            s == runs@.map_values(|x: RunRecord| x@),
            p == (if running_only {
                run_is_running_with_id(id@)
            } else if active_only {
                run_is_active_with_id(id@)
            } else {
                run_has_id(id@)
            }),
            forall|j: int| 0 <= j < i ==> !p(#[trigger] s[j]),
        decreases runs.len() - i,
    {
        let status = runs[i].status;
        let status_ok = if running_only {
            matches!(status, RunStatus::Running)
        } else if active_only {
            matches!(status, RunStatus::Queued | RunStatus::Running)
        } else {
            true
        };
        if status_ok && str_eq(runs[i].id.as_str(), id) {
            proof {
                lemma_first_index_at(s, p, i as int);
            }
            return Some(i);
        }
        i = i + 1;
    }
    proof {
        lemma_first_index_none(s, p);
    }
    None
}

} // verus!
