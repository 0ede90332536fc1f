//! Coordination of generations: at most one generation per room, and the
//! store side of stopping a run and closing a room.
use vstd::prelude::*;

use crate::clock::{current_time, is_timestamp};
use crate::model::{is_active_status, RoomSnapshot, RoomSnapshotView, RunStatus};
use crate::store::rooms::{close_room_outcome, room_id_rule, snapshot_outcome, validate_room_id};
use crate::store::turns::{snapshot_result, stop_outcome};
use crate::store::{AcceptedRun, RoomStore, StoreError, StoreFailure};
use crate::text::str_eq;

verus! {

/// The generation running for a room, with the handle that cancels it.
pub struct ActiveRun<T> {
    pub room_id: String,
    pub run_id: String,
    pub cancel: T,
}

/// The generations running now, at most one per room.
pub struct ActiveRuns<T> {
    runs: Vec<ActiveRun<T>>,
}

/// The room and run of each entry.
pub open spec fn entry_keys<T>(runs: Seq<ActiveRun<T>>) -> Seq<(Seq<char>, Seq<char>)> {
    runs.map_values(|a: ActiveRun<T>| (a.room_id@, a.run_id@))
}

/// The room and cancel handle of each entry.
pub open spec fn entry_handles<T>(runs: Seq<ActiveRun<T>>) -> Seq<(Seq<char>, T)> {
    runs.map_values(|a: ActiveRun<T>| (a.room_id@, a.cancel))
}

/// No two entries are for the same room.
pub open spec fn rooms_distinct<V>(e: Seq<(Seq<char>, V)>) -> bool {
    forall|a: int, b: int| 0 <= a < e.len() && 0 <= b < e.len() && a != b ==> (#[trigger] e[a]).0 != (#[trigger] e[b]).0
}

/// The value of each room that has an entry.
pub open spec fn room_map<V>(e: Seq<(Seq<char>, V)>) -> Map<Seq<char>, V> {
    Map::new(
        |room: Seq<char>| exists|i: int| 0 <= i < e.len() && (#[trigger] e[i]).0 == room,
        |room: Seq<char>| e[choose|i: int| 0 <= i < e.len() && (#[trigger] e[i]).0 == room].1,
    )
}

proof fn lemma_room_map_at<V>(e: Seq<(Seq<char>, V)>, i: int)
    requires
        rooms_distinct(e),
        0 <= i < e.len(),
    ensures
        room_map(e).contains_key(e[i].0),
        room_map(e)[e[i].0] == e[i].1,
{
    assert(room_map(e).dom().contains(e[i].0));
    let c = choose|j: int| 0 <= j < e.len() && (#[trigger] e[j]).0 == e[i].0;
    assert(c == i);
}

/// Adding an entry for a room without one adds the room to the map.
proof fn lemma_pushed<V>(old_e: Seq<(Seq<char>, V)>, room: Seq<char>, v: V)
    requires
        rooms_distinct(old_e),
        !room_map(old_e).contains_key(room),
    ensures
        rooms_distinct(old_e.push((room, v))),
        room_map(old_e.push((room, v))) == room_map(old_e).insert(room, v),
{
    let e = old_e.push((room, v));
    assert forall|a: int, b: int| 0 <= a < e.len() && 0 <= b < e.len() && a != b implies (#[trigger] e[a]).0
        != (#[trigger] e[b]).0 by {
        if a < old_e.len() && b < old_e.len() {
            assert(e[a] == old_e[a] && e[b] == old_e[b]);
        } else if a < old_e.len() {
            assert(e[a] == old_e[a]);
            if old_e[a].0 == room {
                assert(room_map(old_e).contains_key(room));
            }
        } else {
            assert(e[b] == old_e[b]);
            if old_e[b].0 == room {
                assert(room_map(old_e).contains_key(room));
            }
        }
    }
    let want = room_map(old_e).insert(room, v);
    assert forall|r: Seq<char>| room_map(e).contains_key(r) <==> want.contains_key(r) by {
        if room_map(e).contains_key(r) {
            let j = choose|j: int| 0 <= j < e.len() && (#[trigger] e[j]).0 == r;
            if j < old_e.len() {
                assert(e[j] == old_e[j]);
                lemma_room_map_at(old_e, j);
            }
        }
        if want.contains_key(r) && r != room {
            let j = choose|j: int| 0 <= j < old_e.len() && (#[trigger] old_e[j]).0 == r;
            assert(e[j] == old_e[j]);
            lemma_room_map_at(e, j);
        }
        if r == room {
            lemma_room_map_at(e, old_e.len() as int);
        }
    }
    assert forall|r: Seq<char>| #[trigger] room_map(e).contains_key(r) implies room_map(e)[r] == want[r] by {
        let j = choose|j: int| 0 <= j < e.len() && (#[trigger] e[j]).0 == r;
        lemma_room_map_at(e, j);
        if j < old_e.len() {
            assert(e[j] == old_e[j]);
            lemma_room_map_at(old_e, j);
        }
    }
    assert(room_map(e) =~= want);
}

/// Removing the entry at `i` removes its room from the map.
proof fn lemma_removed<V>(old_e: Seq<(Seq<char>, V)>, i: int)
    requires
        rooms_distinct(old_e),
        0 <= i < old_e.len(),
    ensures
        rooms_distinct(old_e.remove(i)),
        room_map(old_e.remove(i)) == room_map(old_e).remove(old_e[i].0),
{
    let e = old_e.remove(i);
    assert forall|a: int, b: int| 0 <= a < e.len() && 0 <= b < e.len() && a != b implies (#[trigger] e[a]).0
        != (#[trigger] e[b]).0 by {
        let a2 = if a < i { a } else { a + 1 };
        let b2 = if b < i { b } else { b + 1 };
        assert(e[a] == old_e[a2] && e[b] == old_e[b2]);
    }
    let want = room_map(old_e).remove(old_e[i].0);
    assert forall|room: Seq<char>| room_map(e).contains_key(room) <==> want.contains_key(room) by {
        if room_map(e).contains_key(room) {
            let j = choose|j: int| 0 <= j < e.len() && (#[trigger] e[j]).0 == room;
            let j2 = if j < i { j } else { j + 1 };
            assert(e[j] == old_e[j2]);
            lemma_room_map_at(old_e, j2);
        }
        if want.contains_key(room) {
            let j = choose|j: int| 0 <= j < old_e.len() && (#[trigger] old_e[j]).0 == room;
            assert(j != i);
            let j2 = if j < i { j } else { j - 1 };
            assert(e[j2] == old_e[j]);
            lemma_room_map_at(e, j2);
        }
    }
    assert forall|room: Seq<char>| #[trigger] room_map(e).contains_key(room) implies room_map(e)[room]
        == want[room] by {
        let j = choose|j: int| 0 <= j < e.len() && (#[trigger] e[j]).0 == room;
        lemma_room_map_at(e, j);
        let j2 = if j < i { j } else { j + 1 };
        assert(e[j] == old_e[j2]);
        lemma_room_map_at(old_e, j2);
    }
    assert(room_map(e) =~= want);
}

/// Both projections of the entries name the same rooms.
proof fn lemma_same_rooms<T>(runs: Seq<ActiveRun<T>>)
    requires
        rooms_distinct(entry_keys(runs)),
    ensures
        rooms_distinct(entry_handles(runs)),
        forall|room: Seq<char>|
            room_map(entry_keys(runs)).contains_key(room) <==> #[trigger] room_map(
                entry_handles(runs),
            ).contains_key(room),
{
    let k = entry_keys(runs);
    let h = entry_handles(runs);
    assert forall|a: int, b: int| 0 <= a < h.len() && 0 <= b < h.len() && a != b implies (#[trigger] h[a]).0
        != (#[trigger] h[b]).0 by {
        assert(h[a].0 == k[a].0 && h[b].0 == k[b].0);
    }
    assert forall|room: Seq<char>|
        room_map(k).contains_key(room) <==> #[trigger] room_map(h).contains_key(room) by {
        if room_map(k).contains_key(room) {
            let j = choose|j: int| 0 <= j < k.len() && (#[trigger] k[j]).0 == room;
            assert(h[j].0 == room);
        }
        if room_map(h).contains_key(room) {
            let j = choose|j: int| 0 <= j < h.len() && (#[trigger] h[j]).0 == room;
            assert(k[j].0 == room);
        }
    }
}

impl<T> View for ActiveRuns<T> {
    type V = Map<Seq<char>, Seq<char>>;

    /// The run that holds each claimed room.
    closed spec fn view(&self) -> Map<Seq<char>, Seq<char>> {
        room_map(entry_keys(self.runs@))
    }
}

impl<T> ActiveRuns<T> {
    pub closed spec fn wf(&self) -> bool {
        rooms_distinct(entry_keys(self.runs@))
    }

    /// The cancel handle of the generation that holds each claimed room.
    pub closed spec fn handles(&self) -> Map<Seq<char>, T> {
        room_map(entry_handles(self.runs@))
    }

    /// No generation runs.
    pub fn new() -> (r: ActiveRuns<T>)
        ensures
            r.wf(),
            r@ == Map::<Seq<char>, Seq<char>>::empty(),
            r.handles() == Map::<Seq<char>, T>::empty(),
    {
        let r = ActiveRuns { runs: Vec::new() };
        assert(r@ =~= Map::<Seq<char>, Seq<char>>::empty());
        assert(r.handles() =~= Map::<Seq<char>, T>::empty());
        r
    }

    fn index_of(&self, room_id: &str) -> (r: Option<usize>)
        requires
            self.wf(),
        ensures
            match r {
                Some(i) => i < self.runs@.len() && self.runs@[i as int].room_id@ == room_id@,
                None => !self@.contains_key(room_id@),
            },
    {
        let mut i: usize = 0;
        while i < self.runs.len()
            invariant
                i <= self.runs@.len(),
                forall|j: int| 0 <= j < i ==> (#[trigger] self.runs@[j]).room_id@ != room_id@,
            decreases self.runs@.len() - i,
        {
            if str_eq(self.runs[i].room_id.as_str(), room_id) {
                return Some(i);
            }
            i = i + 1;
        }
        proof {
            let e = entry_keys(self.runs@);
            if self@.contains_key(room_id@) {
                let j = choose|j: int| 0 <= j < e.len() && (#[trigger] e[j]).0 == room_id@;
                assert(e[j] == (self.runs@[j].room_id@, self.runs@[j].run_id@));
            }
        }
        None
    }

    /// Claims `room_id` for the generation of `run_id`, unless a generation
    /// already holds the room; says whether it did.
    pub fn claim(&mut self, room_id: &str, run_id: &str, cancel: T) -> (claimed: bool)
        requires
            old(self).wf(),
        ensures
            final(self).wf(),
            claimed == !old(self)@.contains_key(room_id@),
            final(self)@ == if claimed {
                old(self)@.insert(room_id@, run_id@)
            } else {
                old(self)@
            },
            final(self).handles() == if claimed {
                old(self).handles().insert(room_id@, cancel)
            } else {
                old(self).handles()
            },
    {
        proof {
            lemma_same_rooms(self.runs@);
        }
        match self.index_of(room_id) {
            Some(i) => {
                proof {
                    lemma_room_map_at(entry_keys(self.runs@), i as int);
                }
                false
            },
            None => {
                let ghost old_k = entry_keys(self.runs@);
                let ghost old_h = entry_handles(self.runs@);
                let ghost c = cancel;
                self.runs.push(ActiveRun { room_id: room_id.to_owned(), run_id: run_id.to_owned(), cancel });
                proof {
                    assert(entry_keys(self.runs@) =~= old_k.push((room_id@, run_id@)));
                    assert(entry_handles(self.runs@) =~= old_h.push((room_id@, c)));
                    lemma_pushed(old_k, room_id@, run_id@);
                    lemma_pushed(old_h, room_id@, c);
                }
                true
            },
        }
    }

    /// The cancel handle of the generation of `run_id` in `room_id`, if that
    /// generation holds the room.
    pub fn cancel_of(&self, room_id: &str, run_id: &str) -> (r: Option<&T>)
        requires
            self.wf(),
        ensures
            r is Some <==> (self@.contains_key(room_id@) && self@[room_id@] == run_id@),
            r matches Some(h) ==> *h == self.handles()[room_id@],
    {
        match self.index_of(room_id) {
            Some(i) => {
                proof {
                    lemma_same_rooms(self.runs@);
                    lemma_room_map_at(entry_keys(self.runs@), i as int);
                    lemma_room_map_at(entry_handles(self.runs@), i as int);
                }
                if str_eq(self.runs[i].run_id.as_str(), run_id) {
                    Some(&self.runs[i].cancel)
                } else {
                    None
                }
            },
            None => None,
        }
    }

    /// Releases `room_id` if the generation of `run_id` holds it.
    pub fn release(&mut self, room_id: &str, run_id: &str)
        requires
            old(self).wf(),
        ensures
            final(self).wf(),
            final(self)@ == released(old(self)@, room_id@, run_id@),
            final(self).handles() == if old(self)@.contains_key(room_id@) && old(self)@[room_id@]
                == run_id@ {
                old(self).handles().remove(room_id@)
            } else {
                old(self).handles()
            },
    {
        match self.index_of(room_id) {
            Some(i) => {
                proof {
                    lemma_room_map_at(entry_keys(self.runs@), i as int);
                    lemma_same_rooms(self.runs@);
                }
                if str_eq(self.runs[i].run_id.as_str(), run_id) {
                    let ghost old_k = entry_keys(self.runs@);
                    let ghost old_h = entry_handles(self.runs@);
                    self.runs.remove(i);
                    proof {
                        assert(entry_keys(self.runs@) =~= old_k.remove(i as int));
                        assert(entry_handles(self.runs@) =~= old_h.remove(i as int));
                        lemma_removed(old_k, i as int);
                        lemma_removed(old_h, i as int);
                    }
                }
            },
            None => {},
        }
    }

    /// Releases `room_id`, whichever generation holds it.
    pub fn release_room(&mut self, room_id: &str)
        requires
            old(self).wf(),
        ensures
            final(self).wf(),
            final(self)@ == old(self)@.remove(room_id@),
            final(self).handles() == old(self).handles().remove(room_id@),
    {
        proof {
            lemma_same_rooms(self.runs@);
        }
        match self.index_of(room_id) {
            Some(i) => {
                let ghost old_k = entry_keys(self.runs@);
                let ghost old_h = entry_handles(self.runs@);
                self.runs.remove(i);
                proof {
                    assert(entry_keys(self.runs@) =~= old_k.remove(i as int));
                    assert(entry_handles(self.runs@) =~= old_h.remove(i as int));
                    lemma_removed(old_k, i as int);
                    lemma_removed(old_h, i as int);
                }
            },
            None => {
                assert(self@ =~= self@.remove(room_id@));
                assert(self.handles() =~= self.handles().remove(room_id@));
            },
        }
    }
}

/// The registry once the generation of `run` lets go of `room`: released
/// only if that generation held it.
pub open spec fn released(m: Map<Seq<char>, Seq<char>>, room: Seq<char>, run: Seq<char>) -> Map<
    Seq<char>,
    Seq<char>,
> {
    if m.contains_key(room) && m[room] == run {
        m.remove(room)
    } else {
        m
    }
}

/// A room can be claimed by one generation at a time: while a generation
/// holds it every other claim fails, and once that generation lets go the
/// room is free again.
pub proof fn law_one_generation_per_room(m: Map<Seq<char>, Seq<char>>, room: Seq<char>, run: Seq<char>)
    requires
        !m.contains_key(room),
    ensures
        m.insert(room, run).contains_key(room),
        released(m.insert(room, run), room, run) == m,
{
    assert(released(m.insert(room, run), room, run) =~= m);
}

/// A read of a room that must find it.
pub open spec fn found_snapshot(r: Result<Option<RoomSnapshotView>, StoreFailure>) -> Result<
    RoomSnapshotView,
    StoreFailure,
> {
    match r {
        Ok(Some(s)) => Ok(s),
        Ok(None) => Err(StoreFailure::NotFound),
        Err(e) => Err(e),
    }
}

/// The snapshot of a room that must exist.
pub fn room_snapshot(store: &RoomStore, room_id: &str) -> (r: Result<RoomSnapshot, StoreError>)
    requires
        store.wf(),
    ensures
        snapshot_result(r) == found_snapshot(snapshot_outcome(store@, room_id@)),
{
    match store.snapshot(room_id) {
        Ok(Some(s)) => Ok(s),
        Ok(None) => Err(StoreError::NotFound),
        Err(e) => Err(e),
    }
}

/// Whether an accepted turn needs a generation: only a turn whose run is
/// running, not a replayed turn whose run already ended.
pub fn starts_generation(accepted: &AcceptedRun) -> (r: bool)
    ensures
        r == (accepted.run@.status == RunStatus::Running),
{
    matches!(accepted.run.status, RunStatus::Running)
}

/// The run that closing the room must stop first: its current run, if that
/// is queued or running.
pub fn run_to_stop(snapshot: &RoomSnapshot) -> (r: Option<String>)
    ensures
        match snapshot@.current_run {
            Some(run) => if is_active_status(run.status) {
                r matches Some(id) && id@ == run.run_id
            } else {
                r is None
            },
            None => r is None,
        },
{
    match &snapshot.current_run {
        Some(run) => {
            if matches!(run.status, RunStatus::Queued | RunStatus::Running) {
                Some(run.run_id.clone())
            } else {
                None
            }
        },
        None => None,
    }
}

/// Stops run `run_id` of room `room_id` at `now`: the run is canceled in the
/// store, its generation lets go of the room, and the room is read back.
pub fn halt_run_at<T>(
    store: &mut RoomStore,
    active: &mut ActiveRuns<T>,
    room_id: &str,
    run_id: &str,
    now: i64,
) -> (r: Result<RoomSnapshot, StoreError>)
    requires
        old(store).wf(),
        old(active).wf(),
        is_timestamp(now),
    ensures
        final(store).wf(),
        final(active).wf(),
        final(store)@ == stop_outcome(old(store)@, room_id@, run_id@, now).0,
        match stop_outcome(old(store)@, room_id@, run_id@, now).1 {
            Err(e) => final(active)@ == old(active)@ && final(active).handles() == old(active).handles()
                && snapshot_result(r) == Err::<
                RoomSnapshotView,
                StoreFailure,
            >(e),
            Ok(()) => final(active)@ == released(old(active)@, room_id@, run_id@) && final(active).handles() == (if old(active)@.contains_key(room_id@) && old(active)@[room_id@] == run_id@ {
                old(active).handles().remove(room_id@)
            } else {
                old(active).handles()
            }) && snapshot_result(r) == found_snapshot(snapshot_outcome(final(store)@, room_id@)),
        },
{
    match store.stop_run_at(room_id, run_id, now) {
        Ok(()) => {},
        Err(e) => {
            return Err(e);
        },
    }
    active.release(room_id, run_id);
    room_snapshot(store, room_id)
}

/// Stops run `run_id` of room `room_id` now.
pub fn halt_run<T>(store: &mut RoomStore, active: &mut ActiveRuns<T>, room_id: &str, run_id: &str) -> (r:
    Result<RoomSnapshot, StoreError>)
    requires
        old(store).wf(),
        old(active).wf(),
    ensures
        final(store).wf(),
        final(active).wf(),
        (r matches Err(StoreError::Database) && final(store)@ == old(store)@ && final(active)@ == old(active)@
                && final(active).handles() == old(active).handles() && room_id_rule(room_id@) is Ok) || exists|now: i64|
            is_timestamp(now) && final(store)@ == #[trigger] stop_outcome(old(store)@, room_id@, run_id@, now).0
                && match stop_outcome(old(store)@, room_id@, run_id@, now).1 {
                Err(e) => final(active)@ == old(active)@ && final(active).handles() == old(active).handles()
                && snapshot_result(r) == Err::<
                    RoomSnapshotView,
                    StoreFailure,
                >(e),
                Ok(()) => final(active)@ == released(old(active)@, room_id@, run_id@) && final(active).handles() == (if old(active)@.contains_key(room_id@) && old(active)@[room_id@]
                    == run_id@ {
                    old(active).handles().remove(room_id@)
                } else {
                    old(active).handles()
                }) && snapshot_result(r) == found_snapshot(snapshot_outcome(final(store)@, room_id@)),
            },
{
    if let Err(e) = validate_room_id(room_id) {
        let r = Err(e);
        assert(stop_outcome(old(store)@, room_id@, run_id@, 0).0 == store@);
        return r;
    }
    let now = match current_time() {
        Some(t) => t,
        None => {
            return Err(StoreError::Database);
        },
    };
    halt_run_at(store, active, room_id, run_id, now)
}

/// Closes room `room_id` at `now`: the room is closed in the store, any
/// generation lets go of it, and the room is read back.
pub fn shut_room_at<T>(store: &mut RoomStore, active: &mut ActiveRuns<T>, room_id: &str, now: i64) -> (r:
    Result<RoomSnapshot, StoreError>)
    requires
        old(store).wf(),
        old(active).wf(),
        is_timestamp(now),
    ensures
        final(store).wf(),
        final(active).wf(),
        final(store)@ == close_room_outcome(old(store)@, room_id@, now).0,
        match close_room_outcome(old(store)@, room_id@, now).1 {
            Err(e) => final(active)@ == old(active)@ && final(active).handles() == old(active).handles()
                && snapshot_result(r) == Err::<
                RoomSnapshotView,
                StoreFailure,
            >(e),
            Ok(()) => final(active)@ == old(active)@.remove(room_id@) && final(active).handles()
                == old(active).handles().remove(room_id@) && snapshot_result(r) == found_snapshot(
                snapshot_outcome(final(store)@, room_id@),
            ),
        },
{
    match store.close_room_at(room_id, now) {
        Ok(()) => {},
        Err(e) => {
            return Err(e);
        },
    }
    active.release_room(room_id);
    room_snapshot(store, room_id)
}

/// Closes room `room_id` now.
pub fn shut_room<T>(store: &mut RoomStore, active: &mut ActiveRuns<T>, room_id: &str) -> (r: Result<
    RoomSnapshot,
    StoreError,
>)
    requires
        old(store).wf(),
        old(active).wf(),
    ensures
        final(store).wf(),
        final(active).wf(),
        (r matches Err(StoreError::Database) && final(store)@ == old(store)@ && final(active)@ == old(active)@
                && final(active).handles() == old(active).handles() && room_id_rule(room_id@) is Ok) || exists|now: i64|
            is_timestamp(now) && final(store)@ == #[trigger] close_room_outcome(old(store)@, room_id@, now).0
                && match close_room_outcome(old(store)@, room_id@, now).1 {
                Err(e) => final(active)@ == old(active)@ && final(active).handles() == old(active).handles()
                && snapshot_result(r) == Err::<
                    RoomSnapshotView,
                    StoreFailure,
                >(e),
                Ok(()) => final(active)@ == old(active)@.remove(room_id@) && final(active).handles()
                    == old(active).handles().remove(room_id@) && snapshot_result(r) == found_snapshot(
                    snapshot_outcome(final(store)@, room_id@),
                ),
            },
{
    if let Err(e) = validate_room_id(room_id) {
        let r = Err(e);
        assert(close_room_outcome(old(store)@, room_id@, 0).0 == store@);
        return r;
    }
    let now = match current_time() {
        Some(t) => t,
        None => {
            return Err(StoreError::Database);
        },
    };
    shut_room_at(store, active, room_id, now)
}

} // verus!
