//! The device registry: a mapping from serial number to live session.
//!
//! At most one session is registered per serial. `upsert` is
//! last-writer-wins; removal is conditional on the peer identity recorded at
//! registration, so a superseded session handler can never delete a newer
//! registration for the same serial.

use vstd::prelude::*;

use crate::text::str_eq;

verus! {

/// The remote endpoint of a device connection, reduced to the plain values
/// the broker compares. It serves solely to disambiguate sessions that share
/// a serial; it is never used for authentication.
#[derive(Clone, Copy, PartialEq, Eq, Structural, Debug)]
pub struct PeerId {
    pub addr: u128,
    pub port: u16,
}

/// One authenticated device connection: the peer that opened it, and a write
/// handle usable independently of the owning read loop.
pub struct Session<T> {
    pub peer_identity: PeerId,
    pub write_handle: T,
}

/// Concurrent mapping from serial to session. The callers hold it behind a
/// single mutual-exclusion guard; each operation is a plain map access with
/// no I/O, so the guard is held only briefly.
pub struct Registry<T> {
    entries: Vec<(String, Session<T>)>,
}

/// Whether some entry of `s` carries the serial.
spec fn has_serial<T>(s: Seq<(String, Session<T>)>, serial: Seq<char>) -> bool
    decreases s.len(),
{
    s.len() > 0 && (s.last().0@ == serial || has_serial(s.drop_last(), serial))
}

/// The session of the latest entry of `s` carrying the serial.
spec fn session_for<T>(s: Seq<(String, Session<T>)>, serial: Seq<char>) -> Session<T>
    decreases s.len(),
{
    if s.len() == 0 {
        arbitrary()
    } else if s.last().0@ == serial {
        s.last().1
    } else {
        session_for(s.drop_last(), serial)
    }
}

/// No two entries carry the same serial.
spec fn unique_serials<T>(s: Seq<(String, Session<T>)>) -> bool {
    forall|i: int, j: int| 0 <= i < j < s.len() ==> s[i].0@ != s[j].0@
}

impl<T> View for Registry<T> {
    type V = Map<Seq<char>, Session<T>>;

    closed spec fn view(&self) -> Map<Seq<char>, Session<T>> {
        Map::new(
            |serial: Seq<char>| has_serial(self.entries@, serial),
            |serial: Seq<char>| session_for(self.entries@, serial),
        )
    }
}

/// Whether a conditional removal of `serial`, believing the entry belongs to
/// `expected`, removes anything from a registry in state `m`.
pub open spec fn remove_succeeds<T>(
    m: Map<Seq<char>, Session<T>>,
    serial: Seq<char>,
    expected: PeerId,
) -> bool {
    m.contains_key(serial) && m[serial].peer_identity == expected
}

/// The registry state after a conditional removal: the entry is gone iff it
/// existed and belonged to `expected`; otherwise nothing changes.
pub open spec fn after_conditional_remove<T>(
    m: Map<Seq<char>, Session<T>>,
    serial: Seq<char>,
    expected: PeerId,
) -> Map<Seq<char>, Session<T>> {
    if remove_succeeds(m, serial, expected) {
        m.remove(serial)
    } else {
        m
    }
}

proof fn lemma_index_to_has_serial<T>(s: Seq<(String, Session<T>)>, i: int)
    requires
        0 <= i < s.len(),
    ensures
        has_serial(s, s[i].0@),
    decreases s.len(),
{
    if i == s.len() - 1 {
    } else {
        lemma_index_to_has_serial(s.drop_last(), i);
    }
}

proof fn lemma_has_serial_to_index<T>(s: Seq<(String, Session<T>)>, serial: Seq<char>)
    requires
        has_serial(s, serial),
    ensures
        exists|i: int| 0 <= i < s.len() && s[i].0@ == serial,
    decreases s.len(),
{
    if s.last().0@ == serial {
        assert(s[s.len() - 1].0@ == serial);
    } else {
        lemma_has_serial_to_index(s.drop_last(), serial);
        let i = choose|i: int| 0 <= i < s.drop_last().len() && s.drop_last()[i].0@ == serial;
        assert(s[i].0@ == serial);
    }
}

/// Under unique serials, the entry found at any index is the one the
/// recursion selects.
proof fn lemma_session_at_index<T>(s: Seq<(String, Session<T>)>, i: int)
    requires
        unique_serials(s),
        0 <= i < s.len(),
    ensures
        has_serial(s, s[i].0@),
        session_for(s, s[i].0@) == s[i].1,
    decreases s.len(),
{
    if i == s.len() - 1 {
    } else {
        assert(s.last().0@ != s[i].0@);
        lemma_session_at_index(s.drop_last(), i);
    }
}

/// Removing the unique entry that carries `serial` takes that serial out of
/// the contents and leaves every other serial's entry unchanged.
proof fn lemma_remove_entry<T>(s: Seq<(String, Session<T>)>, i: int)
    requires
        unique_serials(s),
        0 <= i < s.len(),
    ensures
        !has_serial(s.remove(i), s[i].0@),
        forall|k: Seq<char>|
            k != s[i].0@ ==> has_serial(s.remove(i), k) == has_serial(s, k),
        forall|k: Seq<char>|
            k != s[i].0@ && has_serial(s, k) ==> session_for(s.remove(i), k) == session_for(s, k),
    decreases s.len(),
{
    let serial = s[i].0@;
    if i == s.len() - 1 {
        assert(s.remove(i) =~= s.drop_last());
        if has_serial(s.drop_last(), serial) {
            lemma_has_serial_to_index(s.drop_last(), serial);
            let j = choose|j: int|
                0 <= j < s.drop_last().len() && s.drop_last()[j].0@ == serial;
            assert(s[j].0@ == s[i].0@);
            assert(false);
        }
        assert forall|k: Seq<char>| k != serial implies has_serial(s.remove(i), k) == has_serial(
            s,
            k,
        ) by {
            assert(has_serial(s, k) == (s.last().0@ == k || has_serial(s.drop_last(), k)));
        }
        assert forall|k: Seq<char>| k != serial && has_serial(s, k) implies session_for(
            s.remove(i),
            k,
        ) == session_for(s, k) by {
            assert(s.last().0@ != k);
            assert(session_for(s, k) == session_for(s.drop_last(), k));
        }
    } else {
        assert(s.remove(i).last() == s.last());
        assert(s.remove(i).drop_last() =~= s.drop_last().remove(i));
        lemma_remove_entry(s.drop_last(), i);
        assert(s.last().0@ != serial);
        assert(has_serial(s.remove(i), serial) == (s.last().0@ == serial || has_serial(
            s.drop_last().remove(i),
            serial,
        )));
        assert forall|k: Seq<char>| k != serial implies has_serial(s.remove(i), k) == has_serial(
            s,
            k,
        ) by {
            assert(has_serial(s.remove(i), k) == (s.last().0@ == k || has_serial(
                s.drop_last().remove(i),
                k,
            )));
            assert(has_serial(s, k) == (s.last().0@ == k || has_serial(s.drop_last(), k)));
        }
        assert forall|k: Seq<char>| k != serial && has_serial(s, k) implies session_for(
            s.remove(i),
            k,
        ) == session_for(s, k) by {
            if s.last().0@ == k {
                assert(session_for(s.remove(i), k) == s.remove(i).last().1);
            } else {
                assert(session_for(s.remove(i), k) == session_for(s.drop_last().remove(i), k));
                assert(session_for(s, k) == session_for(s.drop_last(), k));
                assert(has_serial(s.drop_last(), k));
            }
        }
    }
}

impl<T> Registry<T> {
    /// No two entries carry the same serial: established by the constructor
    /// and preserved by every operation.
    pub closed spec fn wf(&self) -> bool {
        unique_serials(self.entries@)
    }

    /// An empty registry.
    pub fn new() -> (r: Registry<T>)
        ensures
            r.wf(),
            r@ == Map::<Seq<char>, Session<T>>::empty(),
    {
        let r = Registry { entries: Vec::new() };
        proof {
            assert(r@ =~= Map::<Seq<char>, Session<T>>::empty());
        }
        r
    }

    /// The index of the entry carrying `serial`, if any.
    fn index_of(&self, serial: &str) -> (r: Option<usize>)
        ensures
            match r {
                Some(i) => i < self.entries@.len() && self.entries@[i as int].0@ == serial@,
                None => !has_serial(self.entries@, serial@),
            },
    {
        let mut i: usize = self.entries.len();
        proof {
            assert(self.entries@.take(i as int) =~= self.entries@);
        }
        while i > 0
            invariant
                i <= self.entries@.len(),
                has_serial(self.entries@, serial@) == has_serial(
                    self.entries@.take(i as int),
                    serial@,
                ),
            decreases i,
        {
            let pair = &self.entries[i - 1];
            proof {
                assert(self.entries@.take(i as int).drop_last() =~= self.entries@.take(
                    i as int - 1,
                ));
                assert(self.entries@.take(i as int).last() == self.entries@[i as int - 1]);
            }
            if str_eq(pair.0.as_str(), serial) {
                return Some(i - 1);
            }
            i = i - 1;
        }
        proof {
            assert(!has_serial(self.entries@.take(0), serial@));
        }
        None
    }

    /// Read-only lookup of the session registered for `serial`.
    pub fn lookup(&self, serial: &str) -> (r: Option<&Session<T>>)
        requires
            self.wf(),
        ensures
            match r {
                Some(session) => self@.contains_key(serial@) && *session == self@[serial@],
                None => !self@.contains_key(serial@),
            },
    {
        match self.index_of(serial) {
            Some(i) => {
                proof {
                    lemma_session_at_index(self.entries@, i as int);
                }
                Some(&self.entries[i].1)
            },
            None => None,
        }
    }

    /// Unconditional insert-or-replace: a later registration for the same
    /// serial wins; there is no error condition.
    pub fn upsert(&mut self, serial: String, session: Session<T>)
        requires
            old(self).wf(),
        ensures
            final(self).wf(),
            final(self)@ == old(self)@.insert(serial@, session),
    {
        let ghost before = self.entries@;
        match self.index_of(serial.as_str()) {
            Some(i) => {
                proof {
                    lemma_remove_entry(before, i as int);
                    assert forall|a: int, b: int|
                        0 <= a < b < before.remove(i as int).len() implies before.remove(
                        i as int,
                    )[a].0@ != before.remove(i as int)[b].0@ by {
                        assert(before.remove(i as int) =~= before.subrange(0, i as int)
                            + before.subrange(i as int + 1, before.len() as int));
                    }
                }
                self.entries.remove(i);
            },
            None => {},
        }
        let ghost mid = self.entries@;
        proof {
            assert(!has_serial(mid, serial@)) by {
                if has_serial(mid, serial@) {
                    lemma_has_serial_to_index(mid, serial@);
                }
            }
            assert forall|k: Seq<char>| k != serial@ implies has_serial(mid, k) == has_serial(
                before,
                k,
            ) && (has_serial(before, k) ==> session_for(mid, k) == session_for(before, k)) by {}
        }
        self.entries.push((serial, session));
        proof {
            assert(self.entries@.drop_last() =~= mid);
            assert(self.entries@.last() == (serial, session));
            assert forall|a: int, b: int|
                0 <= a < b < self.entries@.len() implies self.entries@[a].0@
                != self.entries@[b].0@ by {
                if b == self.entries@.len() - 1 {
                    lemma_index_to_has_serial(mid, a);
                }
            }
            assert(self@ =~= old(self)@.insert(serial@, session));
        }
    }

    /// Conditional removal: the entry for `serial` goes away iff it exists
    /// and still belongs to `expected`. Absence and mismatch are normal
    /// outcomes, not errors; a stale, superseded session can never delete a
    /// newer registration this way.
    pub fn conditional_remove(&mut self, serial: &str, expected: PeerId) -> (removed: bool)
        requires
            old(self).wf(),
        ensures
            final(self).wf(),
            removed == remove_succeeds(old(self)@, serial@, expected),
            final(self)@ == after_conditional_remove(old(self)@, serial@, expected),
    {
        let ghost before = self.entries@;
        match self.index_of(serial) {
            Some(i) => {
                proof {
                    lemma_session_at_index(before, i as int);
                }
                if self.entries[i].1.peer_identity == expected {
                    proof {
                        lemma_remove_entry(before, i as int);
                        assert forall|a: int, b: int|
                            0 <= a < b < before.remove(i as int).len() implies before.remove(
                            i as int,
                        )[a].0@ != before.remove(i as int)[b].0@ by {
                            assert(before.remove(i as int) =~= before.subrange(0, i as int)
                                + before.subrange(i as int + 1, before.len() as int));
                        }
                    }
                    self.entries.remove(i);
                    proof {
                        assert(self@ =~= old(self)@.remove(serial@));
                    }
                    true
                } else {
                    false
                }
            },
            None => false,
        }
    }
}

/// The cleanup run on behalf of a session that believes it owns the entry
/// for `serial`: remove it only if the registered peer identity still
/// matches. Also run by the gateway when a delivery fails, on the grounds
/// that the connection is dead.
pub fn remove_device<T>(registry: &mut Registry<T>, serial: &str, peer: PeerId) -> (removed: bool)
    requires
        old(registry).wf(),
    ensures
        final(registry).wf(),
        removed == remove_succeeds(old(registry)@, serial@, peer),
        final(registry)@ == after_conditional_remove(old(registry)@, serial@, peer),
{
    registry.conditional_remove(serial, peer)
}

/// Last-writer-wins: after registering session `first` and then session
/// `second` under one serial, the registry holds `second`; a conditional
/// removal presenting `first`'s identity fails and leaves `second`
/// registered.
pub proof fn lemma_upsert_replaces<T>(
    m: Map<Seq<char>, Session<T>>,
    serial: Seq<char>,
    first: Session<T>,
    second: Session<T>,
)
    requires
        first.peer_identity != second.peer_identity,
    ensures
        m.insert(serial, first).insert(serial, second)[serial] == second,
        !remove_succeeds(m.insert(serial, first).insert(serial, second), serial,
            first.peer_identity),
        after_conditional_remove(m.insert(serial, first).insert(serial, second), serial,
            first.peer_identity) == m.insert(serial, first).insert(serial, second),
        after_conditional_remove(m.insert(serial, first).insert(serial, second), serial,
            first.peer_identity)[serial] == second,
{
}

/// Removing with the identity of the currently registered session succeeds,
/// and a subsequent lookup of that serial reports it absent.
pub proof fn lemma_remove_current_unregisters<T>(m: Map<Seq<char>, Session<T>>, serial: Seq<char>)
    requires
        m.contains_key(serial),
    ensures
        remove_succeeds(m, serial, m[serial].peer_identity),
        !after_conditional_remove(m, serial, m[serial].peer_identity).contains_key(serial),
{
}

} // verus!
