//! Laws of the list of applications.

use crate::apps::{AppEntry, Session, SessionLog};
use vstd::prelude::*;

verus! {

/// `base` is the end of `path`, holds no backslash, and begins right behind one where it is not
/// all of the path.
pub open spec fn is_file_name(path: Seq<char>, base: Seq<char>) -> bool {
    &&& base.len() <= path.len()
    &&& base == path.skip(path.len() - base.len())
    &&& forall|i: int| 0 <= i < base.len() ==> #[trigger] base[i] != '\\'
    &&& base.len() < path.len() ==> path[path.len() - base.len() - 1] == '\\'
}

/// What a base name is.
proof fn lemma_file_name(path: Seq<char>, base: Seq<char>)
    requires
        crate::apps::is_base_name(path, base),
    ensures
        is_file_name(path, base),
{
    assert forall|i: int| 0 <= i < base.len() implies #[trigger] base[i] != '\\' by {
        assert(base.contains(base[i]));
    }
    if base == path {
        assert(path.skip(0) =~= path);
    } else {
        let k = choose|k: int|
            0 <= k < path.len() && #[trigger] path[k] == '\\' && base == path.skip(k + 1);
        assert(base.len() == path.len() - k - 1);
    }
}

/// The file name of a path is what follows its last backslash.
pub proof fn a_file_name_follows_the_last_backslash(path: &String, base: String)
    requires
        call_ensures(crate::apps::base_name, (path,), base),
    ensures
        is_file_name(path@, base@),
{
    lemma_file_name(path@, base@);
}

/// A process goes by the file name of its image, where that could be read.
pub proof fn a_process_goes_by_its_image(image: &Option<Vec<u16>>, name: Option<String>)
    requires
        call_ensures(crate::apps::process_name, (image,), name),
    ensures
        name is Some <==> image is Some,
        name is Some ==> is_file_name(crate::apps::utf16_text(image->0@), name->0@),
{
    if let Some(n) = name {
        lemma_file_name(crate::apps::utf16_text(image->0@), n@);
    }
}

/// A session that can be listed: not that of the system sounds, not one's own, and with an image
/// that could be read.
pub open spec fn can_be_listed(own: u32, s: Session) -> bool {
    s.pid != 0 && s.pid != own && s.image is Some
}

/// Of the sessions of a process that can be listed one is the newest.
proof fn lemma_newest(own: u32, sessions: Seq<Session>, q: int, k: int) -> (p: int)
    requires
        0 <= q < k <= sessions.len(),
        can_be_listed(own, sessions[q]),
    ensures
        0 <= p < k,
        can_be_listed(own, sessions[p]),
        sessions[p].pid == sessions[q].pid,
        forall|r: int|
            0 <= r < k && r != p && can_be_listed(own, #[trigger] sessions[r]) && sessions[r].pid
                == sessions[q].pid ==> crate::apps::comes_before(sessions, p, r),
{
    lemma_newest_so_far(own, sessions, q, k, q)
}

/// Of the first `k` sessions of a process one is the newest, where `p` is one of them.
proof fn lemma_newest_so_far(
    own: u32,
    sessions: Seq<Session>,
    q: int,
    k: int,
    p: int,
) -> (best: int)
    requires
        0 <= q < sessions.len(),
        0 <= k <= sessions.len(),
        0 <= p < sessions.len(),
        can_be_listed(own, sessions[q]),
        can_be_listed(own, sessions[p]),
        sessions[p].pid == sessions[q].pid,
    ensures
        best == p || 0 <= best < k,
        0 <= best < sessions.len(),
        can_be_listed(own, sessions[best]),
        sessions[best].pid == sessions[q].pid,
        best == p || crate::apps::comes_before(sessions, best, p),
        forall|r: int|
            0 <= r < k && r != best && can_be_listed(own, #[trigger] sessions[r])
                && sessions[r].pid == sessions[q].pid ==> crate::apps::comes_before(
                sessions,
                best,
                r,
            ),
    decreases k,
{
    if k == 0 {
        p
    } else {
        let best = lemma_newest_so_far(own, sessions, q, k - 1, p);
        let r = k - 1;
        if r != best && can_be_listed(own, sessions[r]) && sessions[r].pid == sessions[q].pid
            && !crate::apps::comes_before(sessions, best, r) {
            r
        } else {
            best
        }
    }
}

/// The process `pid` has a session that can be listed.
pub open spec fn plays(own: u32, sessions: Seq<Session>, pid: u32) -> bool {
    exists|q: int|
        0 <= q < sessions.len() && can_be_listed(own, #[trigger] sessions[q]) && sessions[q].pid
            == pid
}

/// The list of applications holds each process with a session that can be listed, once, and no
/// other.
pub proof fn each_playing_process_is_listed_once(
    own: u32,
    sessions: &Vec<Session>,
    entries: Vec<AppEntry>,
)
    requires
        call_ensures(crate::apps::list_apps, (own, sessions), entries),
    ensures
        forall|q: int|
            0 <= q < sessions@.len() && can_be_listed(own, #[trigger] sessions@[q]) ==> exists|
                i: int,
            |
                0 <= i < entries@.len() && (#[trigger] entries@[i]).pid == sessions@[q].pid,
        forall|i: int|
            0 <= i < entries@.len() ==> plays(own, sessions@, (#[trigger] entries@[i]).pid),
        forall|i: int, j: int|
            0 <= i < j < entries@.len() ==> (#[trigger] entries@[i]).pid != (
            #[trigger] entries@[j]).pid,
{
    let places = choose|places: Seq<int>|
        crate::apps::is_listing(own, sessions@, places, entries@);
    assert forall|q: int|
        0 <= q < sessions@.len() && can_be_listed(own, #[trigger] sessions@[q]) implies exists|
        i: int,
    |
        0 <= i < entries@.len() && (#[trigger] entries@[i]).pid == sessions@[q].pid by {
        let p = lemma_newest(own, sessions@, q, sessions@.len() as int);
        assert(crate::apps::is_listed(own, sessions@, p));
        let k = places.index_of(p);
        assert(places[k] == p);
        assert(crate::apps::is_named(sessions@[places[k]], entries@[k]));
        assert(entries@[k].pid == sessions@[q].pid);
    }
    assert forall|i: int| 0 <= i < entries@.len() implies plays(
        own,
        sessions@,
        (#[trigger] entries@[i]).pid,
    ) by {
        let q = places[i];
        assert(crate::apps::is_listed(own, sessions@, q));
        assert(crate::apps::is_named(sessions@[places[i]], entries@[i]));
        assert(can_be_listed(own, sessions@[q]));
    }
}

/// The newest application stands first: of two entries the one ahead has a session that is no
/// older than any session of the one behind. An application goes by the file name of its image.
pub proof fn the_newest_application_stands_first(
    own: u32,
    sessions: &Vec<Session>,
    entries: Vec<AppEntry>,
    i: int,
    j: int,
)
    requires
        call_ensures(crate::apps::list_apps, (own, sessions), entries),
        0 <= i < j < entries@.len(),
    ensures
        exists|p: int|
            0 <= p < sessions@.len() && can_be_listed(own, #[trigger] sessions@[p])
                && sessions@[p].pid == entries@[i].pid && is_file_name(
                crate::apps::utf16_text(sessions@[p].image->0@),
                entries@[i].name@,
            ) && forall|q: int|
                0 <= q < sessions@.len() && can_be_listed(own, #[trigger] sessions@[q]) && (
                sessions@[q].pid == entries@[i].pid || sessions@[q].pid == entries@[j].pid)
                    ==> sessions@[p].first_seen >= sessions@[q].first_seen,
{
    let places = choose|places: Seq<int>|
        crate::apps::is_listing(own, sessions@, places, entries@);
    let p = places[i];
    let r = places[j];
    assert(crate::apps::is_listed(own, sessions@, p) && crate::apps::is_listed(
        own,
        sessions@,
        r,
    ));
    assert(crate::apps::is_named(sessions@[places[i]], entries@[i]));
    assert(crate::apps::is_named(sessions@[places[j]], entries@[j]));
    lemma_file_name(crate::apps::utf16_text(sessions@[p].image->0@), entries@[i].name@);
    assert(crate::apps::comes_before(sessions@, p, r));
    assert forall|q: int|
        0 <= q < sessions@.len() && can_be_listed(own, #[trigger] sessions@[q]) && (
        sessions@[q].pid == entries@[i].pid || sessions@[q].pid
            == entries@[j].pid) implies sessions@[p].first_seen >= sessions@[q].first_seen by {
        assert(crate::apps::is_usable(own, sessions@[q]));
        if sessions@[q].pid == entries@[i].pid {
            assert(q == p || crate::apps::comes_before(sessions@, p, q));
        } else {
            assert(q == r || crate::apps::comes_before(sessions@, r, q));
        }
    }
    assert(can_be_listed(own, sessions@[p]));
}

/// The places of the sessions come newest first, each once; sessions of one age keep their
/// order.
pub proof fn sessions_are_ranked_by_age(sessions: &Vec<Session>, order: Vec<usize>, i: int, j: int)
    requires
        call_ensures(crate::apps::newest_first, (sessions,), order),
        0 <= i < j < order@.len(),
    ensures
        order@.len() == sessions@.len(),
        order@[i] < sessions@.len(),
        order@[j] < sessions@.len(),
        sessions@[order@[i] as int].first_seen >= sessions@[order@[j] as int].first_seen,
        sessions@[order@[i] as int].first_seen == sessions@[order@[j] as int].first_seen
            ==> order@[i] < order@[j],
{
    let places = crate::apps::as_places(order@);
    assert(places[i] == order@[i] && places[j] == order@[j]);
    assert(crate::apps::comes_before(sessions@, places[i], places[j]));
}

/// A process that stays keeps its age, and one that was not there at the last look is as old as
/// this look, which is newer than all that were there.
pub proof fn what_stays_keeps_its_age(
    log: &mut SessionLog,
    found: Vec<(u32, Option<Vec<u16>>)>,
    sessions: Vec<Session>,
    i: int,
)
    requires
        call_ensures(SessionLog::look, (log, found), sessions),
        old(log).wf(),
        0 <= i < found@.len(),
    ensures
        sessions@.len() == found@.len(),
        sessions@[i].pid == found@[i].0,
        sessions@[i].image == found@[i].1,
        final(log).looks == old(log).looks + 1,
        final(log).known@.len() == found@.len(),
        final(log).known@[i] == (found@[i].0, sessions@[i].first_seen),
        (forall|k: int| 0 <= k < old(log).known@.len() ==> (#[trigger] old(log).known@[k]).0
            != found@[i].0) ==> sessions@[i].first_seen == old(log).looks && forall|k: int|
            0 <= k < old(log).known@.len() ==> (#[trigger] old(log).known@[k]).1
                < sessions@[i].first_seen,
        forall|k: int|
            0 <= k < old(log).known@.len() && (#[trigger] old(log).known@[k]).0 == found@[i].0 && (
            forall|n: int| 0 <= n < k ==> (#[trigger] old(log).known@[n]).0 != found@[i].0)
                ==> sessions@[i].first_seen == old(log).known@[k].1,
{
    let known = old(log).known@;
    let pid = found@[i].0;
    let now = old(log).looks;
    if forall|k: int| 0 <= k < known.len() ==> (#[trigger] known[k]).0 != pid {
        lemma_unknown(known, pid, now);
    }
    assert forall|k: int|
        0 <= k < known.len() && (#[trigger] known[k]).0 == pid && (forall|n: int|
            0 <= n < k ==> (#[trigger] known[n]).0 != pid) implies sessions@[i].first_seen
        == known[k].1 by {
        lemma_known(known, pid, now, k);
    }
}

/// What is not known is seen now.
proof fn lemma_unknown(known: Seq<(u32, u64)>, pid: u32, now: u64)
    requires
        forall|k: int| 0 <= k < known.len() ==> (#[trigger] known[k]).0 != pid,
    ensures
        crate::apps::seen_since(known, pid, now) == now,
    decreases known.len(),
{
    if known.len() > 0 {
        let rest = known.skip(1);
        assert forall|k: int| 0 <= k < rest.len() implies (#[trigger] rest[k]).0 != pid by {
            assert(rest[k] == known[k + 1]);
        }
        lemma_unknown(rest, pid, now);
    }
}

/// What is known was first seen when it says.
proof fn lemma_known(known: Seq<(u32, u64)>, pid: u32, now: u64, k: int)
    requires
        0 <= k < known.len(),
        known[k].0 == pid,
        forall|n: int| 0 <= n < k ==> (#[trigger] known[n]).0 != pid,
    ensures
        crate::apps::seen_since(known, pid, now) == known[k].1,
    decreases known.len(),
{
    if k > 0 {
        let rest = known.skip(1);
        assert(rest[k - 1] == known[k]);
        assert forall|n: int| 0 <= n < k - 1 implies (#[trigger] rest[n]).0 != pid by {
            assert(rest[n] == known[n + 1]);
        }
        lemma_known(rest, pid, now, k - 1);
    }
}

/// A process that is known was first seen when the log says, and any other one is seen now.
pub proof fn the_log_says_since_when(log: &SessionLog, pid: u32, look: u64, k: int)
    requires
        call_ensures(SessionLog::first_seen, (log, pid), look),
    ensures
        0 <= k < log.known@.len() && log.known@[k].0 == pid && (forall|n: int|
            0 <= n < k ==> (#[trigger] log.known@[n]).0 != pid) ==> look == log.known@[k].1,
        (forall|n: int| 0 <= n < log.known@.len() ==> (#[trigger] log.known@[n]).0 != pid) ==> look
            == log.looks,
{
    let known = log.known@;
    if 0 <= k < known.len() && known[k].0 == pid && (forall|n: int|
        0 <= n < k ==> (#[trigger] known[n]).0 != pid) {
        lemma_known(known, pid, log.looks, k);
    }
    if forall|n: int| 0 <= n < known.len() ==> (#[trigger] known[n]).0 != pid {
        lemma_unknown(known, pid, log.looks);
    }
}

} // verus!
