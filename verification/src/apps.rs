//! The applications that play audio, newest first.

use vstd::prelude::*;
use vstd::string::StrSliceExecFns;

verus! {

/// An application that holds an audio session.
pub struct AppEntry {
    pub pid: u32,
    pub name: String,
}

/// The text of a sequence of UTF-16 code units. A unit that is no surrogate stands for
/// itself, a high surrogate with a low one after it for the character that they make up, and
/// any other surrogate is replaced.
pub open spec fn utf16_text(units: Seq<u16>) -> Seq<char>
    decreases units.len(),
{
    if units.len() == 0 {
        Seq::empty()
    } else if units[0] < 0xD800 || units[0] > 0xDFFF {
        seq![units[0] as char] + utf16_text(units.skip(1))
    } else if units[0] < 0xDC00 && units.len() > 1 && 0xDC00 <= units[1] <= 0xDFFF {
        seq![(0x1_0000 + (units[0] - 0xD800) * 0x400 + (units[1] - 0xDC00)) as char] + utf16_text(
            units.skip(2),
        )
    } else {
        seq!['\u{FFFD}'] + utf16_text(units.skip(1))
    }
}

/// Calls `String::from_utf16_lossy`. Claimed: it decodes the units as [`utf16_text`] says.
#[verifier::external_body]
fn decode_utf16(units: &Vec<u16>) -> (text: String)
    ensures
        text@ == utf16_text(units@),
{
    String::from_utf16_lossy(units)
}

/// `base` is what follows the last backslash of `path`, or all of it when there is none.
pub open spec fn is_base_name(path: Seq<char>, base: Seq<char>) -> bool {
    &&& !base.contains('\\')
    &&& base == path || exists|k: int|
        0 <= k < path.len() && #[trigger] path[k] == '\\' && base == path.skip(k + 1)
}

/// A path has one base name.
pub proof fn base_name_is_unique(path: Seq<char>, a: Seq<char>, b: Seq<char>)
    requires
        is_base_name(path, a),
        is_base_name(path, b),
    ensures
        a == b,
{
    if a.len() < b.len() {
        let k = path.len() - a.len() - 1;
        assert(path[k] == '\\' && b[b.len() - a.len() - 1] == path[k]);
    } else if b.len() < a.len() {
        let k = path.len() - b.len() - 1;
        assert(path[k] == '\\' && a[a.len() - b.len() - 1] == path[k]);
    } else {
        assert(a =~= b);
    }
}

/// The file name at the end of a path.
pub fn base_name(path: &String) -> (base: String)
    ensures
        is_base_name(path@, base@),
{
    let n = path.as_str().unicode_len();
    let mut i = n;
    while i > 0 && path.as_str().get_char(i - 1) != '\\'
        invariant
            i <= n,
            n == path@.len(),
            forall|j: int| i <= j < n ==> path@[j] != '\\',
        decreases i,
    {
        i -= 1;
    }
    let base = path.as_str().substring_char(i, n).to_owned();
    proof {
        assert(base@ =~= path@.skip(i as int));
        if i == 0 {
            assert(base@ =~= path@);
        } else {
            assert(path@[i - 1] == '\\');
            assert(base@ =~= path@.skip(i - 1 + 1));
        }
    }
    base
}

/// The name of a process, given the path of its image in UTF-16 where it could be read.
pub fn process_name(image: &Option<Vec<u16>>) -> (name: Option<String>)
    ensures
        name is Some <==> image is Some,
        name matches Some(n) ==> is_base_name(utf16_text(image->0@), n@),
{
    match image {
        Some(units) => {
            let path = decode_utf16(units);
            Some(base_name(&path))
        },
        None => None,
    }
}

/// An audio session: its process, the path of the process's image in UTF-16 where it could be
/// read, and when the session was first seen.
pub struct Session {
    pub pid: u32,
    pub image: Option<Vec<u16>>,
    /// Later is larger.
    pub first_seen: u64,
}

/// The session `p` comes before the session `q`: it is newer, or it is as old and stands
/// further ahead.
pub open spec fn comes_before(sessions: Seq<Session>, p: int, q: int) -> bool {
    sessions[p].first_seen > sessions[q].first_seen || (sessions[p].first_seen
        == sessions[q].first_seen && p < q)
}

/// The session can be captured and named: it is not that of the system sounds (which have the
/// process 0) and not this process's own, and its image could be read.
pub open spec fn is_usable(own: u32, s: Session) -> bool {
    s.pid != 0 && s.pid != own && s.image is Some
}

/// The session `p` is listed: it can be used, and it is the newest of its process's that can.
pub open spec fn is_listed(own: u32, sessions: Seq<Session>, p: int) -> bool {
    &&& 0 <= p < sessions.len()
    &&& is_usable(own, sessions[p])
    &&& forall|q: int|
        0 <= q < sessions.len() && q != p && is_usable(own, #[trigger] sessions[q])
            && sessions[q].pid == sessions[p].pid ==> comes_before(sessions, p, q)
}

/// `entry` stands for the session `s`.
pub open spec fn is_named(s: Session, entry: AppEntry) -> bool {
    &&& entry.pid == s.pid
    &&& s.image matches Some(units) && is_base_name(utf16_text(units@), entry.name@)
}

/// `entries` stand for the sessions that are listed, newest first; `places` says where each
/// one's session stands.
pub open spec fn is_listing(
    own: u32,
    sessions: Seq<Session>,
    places: Seq<int>,
    entries: Seq<AppEntry>,
) -> bool {
    &&& entries.len() == places.len()
    &&& forall|k: int| 0 <= k < places.len() ==> is_listed(own, sessions, #[trigger] places[k])
    &&& forall|k: int|
        0 <= k < places.len() ==> is_named(sessions[places[k]], #[trigger] entries[k])
    &&& forall|i: int, j: int|
        0 <= i < j < places.len() ==> comes_before(
            sessions,
            #[trigger] places[i],
            #[trigger] places[j],
        )
    &&& forall|p: int| #[trigger] is_listed(own, sessions, p) ==> places.contains(p)
}

/// No entry stands for the system sounds or for this process, and no process occurs twice.
pub open spec fn are_targets(entries: Seq<AppEntry>, own: u32) -> bool {
    &&& forall|i: int|
        0 <= i < entries.len() ==> (#[trigger] entries[i]).pid != 0 && entries[i].pid != own
    &&& forall|i: int, j: int|
        0 <= i < j < entries.len() ==> (#[trigger] entries[i]).pid != (#[trigger] entries[j]).pid
}

/// Some entry has the process `pid`.
pub open spec fn lists(entries: Seq<AppEntry>, pid: u32) -> bool {
    exists|i: int| 0 <= i < entries.len() && (#[trigger] entries[i]).pid == pid
}

/// `order` holds the places of the sessions, each once, newest first.
pub open spec fn is_ranking(sessions: Seq<Session>, order: Seq<int>) -> bool {
    &&& order.len() == sessions.len()
    &&& forall|i: int| 0 <= i < order.len() ==> 0 <= #[trigger] order[i] < sessions.len()
    &&& forall|i: int, j: int|
        0 <= i < j < order.len() ==> comes_before(
            sessions,
            #[trigger] order[i],
            #[trigger] order[j],
        )
}

/// The places of the vector.
pub open spec fn as_places(order: Seq<usize>) -> Seq<int> {
    order.map_values(|p: usize| p as int)
}

/// The places of the sessions, newest first; sessions of one age keep their order.
pub fn newest_first(sessions: &Vec<Session>) -> (order: Vec<usize>)
    ensures
        is_ranking(sessions@, as_places(order@)),
{
    let mut order: Vec<usize> = Vec::new();
    let mut k: usize = 0;
    while k < sessions.len()
        invariant
            k <= sessions@.len(),
            order@.len() == k,
            forall|i: int| 0 <= i < k ==> #[trigger] order@[i] < k,
            forall|i: int, j: int|
                0 <= i < j < k ==> comes_before(
                    sessions@,
                    #[trigger] order@[i] as int,
                    #[trigger] order@[j] as int,
                ),
        decreases sessions@.len() - k,
    {
        let mut p = k;
        while p > 0 && sessions[order[p - 1]].first_seen < sessions[k].first_seen
            invariant
                p <= k < sessions@.len(),
                order@.len() == k,
                forall|i: int| 0 <= i < k ==> #[trigger] order@[i] < k,
                forall|i: int|
                    p <= i < k ==> sessions@[#[trigger] order@[i] as int].first_seen
                        < sessions@[k as int].first_seen,
            decreases p,
        {
            p -= 1;
        }
        let ghost before = order@;
        order.insert(p, k);
        proof {
            let next = order@;
            assert(next == before.insert(p as int, k));
            assert forall|i: int, j: int| 0 <= i < j < k + 1 implies comes_before(
                sessions@,
                #[trigger] next[i] as int,
                #[trigger] next[j] as int,
            ) by {
                let a = if i < p {
                    i
                } else {
                    i - 1
                };
                let b = if j < p {
                    j
                } else {
                    j - 1
                };
                if j == p {
                    assert(next[i] == before[i]);
                    if i < p - 1 {
                        assert(comes_before(sessions@, before[i] as int, before[p - 1] as int));
                    }
                } else if i == p {
                    assert(next[j] == before[b]);
                } else {
                    assert(next[i] == before[a] && next[j] == before[b]);
                }
            }
        }
        k += 1;
    }
    proof {
        let places = as_places(order@);
        assert forall|i: int, j: int| 0 <= i < j < places.len() implies comes_before(
            sessions@,
            #[trigger] places[i],
            #[trigger] places[j],
        ) by {
            assert(places[i] == order@[i] && places[j] == order@[j]);
        }
    }
    order
}

/// A ranking holds every place.
proof fn lemma_every_place_occurs(sessions: Seq<Session>, order: Seq<int>, x: int)
    requires
        is_ranking(sessions, order),
        0 <= x < order.len(),
    ensures
        order.contains(x),
{
    let n = order.len() as int;
    let all = vstd::set_lib::set_int_range(0, n);
    assert(order.no_duplicates());
    order.unique_seq_to_set();
    vstd::set_lib::lemma_int_range(0, n);
    assert(order.to_set().subset_of(all));
    vstd::set_lib::lemma_subset_equality(order.to_set(), all);
    assert(all.contains(x));
}

/// Whether an entry has the process `pid`.
fn has_entry(entries: &Vec<AppEntry>, pid: u32) -> (r: bool)
    ensures
        r == lists(entries@, pid),
{
    let mut i: usize = 0;
    while i < entries.len()
        invariant
            i <= entries@.len(),
            forall|j: int| 0 <= j < i ==> (#[trigger] entries@[j]).pid != pid,
        decreases entries@.len() - i,
    {
        if entries[i].pid == pid {
            assert(lists(entries@, pid));
            return true;
        }
        i += 1;
    }
    false
}

/// The applications with an audio session that can be captured, newest first. A process with
/// several sessions is listed once, by its newest. `own` is this process, whose own session
/// would capture nothing.
pub fn list_apps(own: u32, sessions: &Vec<Session>) -> (entries: Vec<AppEntry>)
    ensures
        are_targets(entries@, own),
        exists|places: Seq<int>| is_listing(own, sessions@, places, entries@),
{
    let order = newest_first(sessions);
    let ghost ranked = as_places(order@);
    let mut entries: Vec<AppEntry> = Vec::new();
    let ghost mut places: Seq<int> = Seq::empty();
    let mut n: usize = 0;
    while n < order.len()
        invariant
            n <= order@.len(),
            ranked == as_places(order@),
            is_ranking(sessions@, ranked),
            entries@.len() == places.len(),
            are_targets(entries@, own),
            forall|k: int|
                0 <= k < places.len() ==> is_listed(own, sessions@, #[trigger] places[k])
                    && is_named(sessions@[places[k]], entries@[k]),
            forall|i: int, j: int|
                0 <= i < j < places.len() ==> comes_before(
                    sessions@,
                    #[trigger] places[i],
                    #[trigger] places[j],
                ),
            forall|k: int, j: int|
                0 <= k < places.len() && n <= j < ranked.len() ==> comes_before(
                    sessions@,
                    #[trigger] places[k],
                    #[trigger] ranked[j],
                ),
            forall|i: int|
                0 <= i < n && is_usable(own, sessions@[#[trigger] ranked[i]]) ==> lists(
                    entries@,
                    sessions@[ranked[i]].pid,
                ),
        decreases order@.len() - n,
    {
        let p = order[n];
        assert(ranked[n as int] == p);
        let pid = sessions[p].pid;
        let ghost before = entries@;
        if pid != 0 && pid != own && !has_entry(&entries, pid) {
            if let Some(name) = process_name(&sessions[p].image) {
                entries.push(AppEntry { pid, name });
                proof {
                    assert(is_listed(own, sessions@, p as int)) by {
                        assert forall|q: int|
                            0 <= q < sessions@.len() && q != p && is_usable(
                                own,
                                #[trigger] sessions@[q],
                            ) && sessions@[q].pid == pid implies comes_before(
                            sessions@,
                            p as int,
                            q,
                        ) by {
                            lemma_every_place_occurs(sessions@, ranked, q);
                            let i = ranked.index_of(q);
                            assert(ranked[i] == q);
                        }
                    }
                    assert forall|i: int, j: int| 0 <= i < j < entries@.len() implies (
                    #[trigger] entries@[i]).pid != (#[trigger] entries@[j]).pid by {
                        assert(before[i].pid != pid);
                    }
                    places = places.push(p as int);
                }
            }
        }
        proof {
            assert forall|i: int|
                0 <= i < n + 1 && is_usable(own, sessions@[#[trigger] ranked[i]]) implies lists(
                entries@,
                sessions@[ranked[i]].pid,
            ) by {
                let x = sessions@[ranked[i]].pid;
                if lists(before, x) {
                    let k = choose|k: int| 0 <= k < before.len() && (#[trigger] before[k]).pid == x;
                    assert(entries@[k].pid == x);
                } else {
                    assert(entries@[before.len() as int].pid == x);
                }
            }
        }
        n += 1;
    }
    proof {
        assert forall|p: int| #[trigger] is_listed(own, sessions@, p) implies places.contains(p) by {
            lemma_every_place_occurs(sessions@, ranked, p);
            let i = ranked.index_of(p);
            assert(ranked[i] == p);
            let k = choose|k: int|
                0 <= k < entries@.len() && (#[trigger] entries@[k]).pid == sessions@[p].pid;
            assert(is_listed(own, sessions@, places[k]));
            assert(is_usable(own, sessions@[places[k]]));
        }
        assert(is_listing(own, sessions@, places, entries@));
    }
    entries
}

/// The sessions fix the list: there is one order, one process at each place of it, and one
/// name for it.
pub proof fn listing_is_unique(
    own: u32,
    sessions: Seq<Session>,
    p: Seq<int>,
    a: Seq<AppEntry>,
    q: Seq<int>,
    b: Seq<AppEntry>,
)
    requires
        is_listing(own, sessions, p, a),
        is_listing(own, sessions, q, b),
    ensures
        p == q,
        a.len() == b.len(),
        forall|k: int|
            0 <= k < a.len() ==> (#[trigger] a[k]).pid == b[k].pid && a[k].name@ == b[k].name@,
{
    if p.len() <= q.len() {
        lemma_same_places(own, sessions, p, a, q, b, p.len() as int);
        if p.len() < q.len() {
            let x = q[p.len() as int];
            assert(is_listed(own, sessions, x));
            let i = p.index_of(x);
            assert(p[i] == x && q[i] == x);
        }
    } else {
        lemma_same_places(own, sessions, q, b, p, a, q.len() as int);
        let x = p[q.len() as int];
        assert(is_listed(own, sessions, x));
        let i = q.index_of(x);
        assert(q[i] == x && p[i] == x);
    }
    assert(p =~= q);
    assert forall|k: int| 0 <= k < a.len() implies (#[trigger] a[k]).pid == b[k].pid
        && a[k].name@ == b[k].name@ by {
        assert(is_named(sessions[p[k]], a[k]) && is_named(sessions[q[k]], b[k]));
        base_name_is_unique(
            utf16_text(sessions[p[k]].image->0@),
            a[k].name@,
            b[k].name@,
        );
    }
}

/// Two listings agree on their first `n` places.
proof fn lemma_same_places(
    own: u32,
    sessions: Seq<Session>,
    p: Seq<int>,
    a: Seq<AppEntry>,
    q: Seq<int>,
    b: Seq<AppEntry>,
    n: int,
)
    requires
        is_listing(own, sessions, p, a),
        is_listing(own, sessions, q, b),
        0 <= n <= p.len() <= q.len(),
    ensures
        forall|i: int| 0 <= i < n ==> #[trigger] p[i] == q[i],
    decreases n,
{
    if n > 0 {
        let k = n - 1;
        lemma_same_places(own, sessions, p, a, q, b, k);
        if p[k] != q[k] {
            assert(is_listed(own, sessions, p[k]) && is_listed(own, sessions, q[k]));
            let i = p.index_of(q[k]);
            let j = q.index_of(p[k]);
            assert(p[i] == q[k] && q[j] == p[k]);
            assert(i < k ==> q[i] == q[k]);
            assert(j < k ==> p[j] == p[k]);
            assert(comes_before(sessions, p[k], p[i]));
            assert(comes_before(sessions, q[k], q[j]));
        }
    }
}

/// Newer applications stand first: an entry's session is never older than that of an entry
/// behind it.
pub proof fn newer_applications_stand_first(
    own: u32,
    sessions: Seq<Session>,
    places: Seq<int>,
    entries: Seq<AppEntry>,
    i: int,
    j: int,
)
    requires
        is_listing(own, sessions, places, entries),
        0 <= i < j < entries.len(),
    ensures
        sessions[places[i]].pid == entries[i].pid,
        sessions[places[j]].pid == entries[j].pid,
        sessions[places[i]].first_seen >= sessions[places[j]].first_seen,
{
    assert(is_named(sessions[places[i]], entries[i]) && is_named(sessions[places[j]], entries[j]));
    assert(comes_before(sessions, places[i], places[j]));
}

/// When the sessions were first seen. The sessions are looked at again and again; a process
/// whose sessions go away and come back counts as new.
pub struct SessionLog {
    /// Looks so far.
    pub looks: u64,
    /// The processes at the last look, and the look at which each was first seen.
    pub known: Vec<(u32, u64)>,
}

/// The process `pid` is known.
pub open spec fn knows(known: Seq<(u32, u64)>, pid: u32) -> bool {
    exists|i: int| 0 <= i < known.len() && (#[trigger] known[i]).0 == pid
}

/// The look at which the process `pid` was first seen, when this one is `now`.
pub open spec fn seen_since(known: Seq<(u32, u64)>, pid: u32, now: u64) -> u64
    decreases known.len(),
{
    if known.len() == 0 {
        now
    } else if known[0].0 == pid {
        known[0].1
    } else {
        seen_since(known.skip(1), pid, now)
    }
}

/// What is known was seen at an earlier look, and what is not known is seen now.
proof fn lemma_seen_since(known: Seq<(u32, u64)>, pid: u32, now: u64)
    ensures
        !knows(known, pid) ==> seen_since(known, pid, now) == now,
        knows(known, pid) ==> exists|i: int|
            0 <= i < known.len() && (#[trigger] known[i]).0 == pid && known[i].1 == seen_since(
                known,
                pid,
                now,
            ),
    decreases known.len(),
{
    if known.len() > 0 && known[0].0 != pid {
        let rest = known.skip(1);
        lemma_seen_since(rest, pid, now);
        if knows(known, pid) {
            let i = choose|i: int| 0 <= i < known.len() && (#[trigger] known[i]).0 == pid;
            assert(rest[i - 1] == known[i]);
            let j = choose|j: int|
                0 <= j < rest.len() && (#[trigger] rest[j]).0 == pid && rest[j].1 == seen_since(
                    rest,
                    pid,
                    now,
                );
            assert(known[j + 1] == rest[j]);
        } else if knows(rest, pid) {
            let i = choose|i: int| 0 <= i < rest.len() && (#[trigger] rest[i]).0 == pid;
            assert(known[i + 1] == rest[i]);
        }
    } else if known.len() > 0 {
        assert(known[0].0 == pid);
    }
}

/// A process that has come up since the last look is newer than any that was there before.
pub proof fn what_comes_up_later_is_newer(log: SessionLog, new: u32, old: u32)
    requires
        log.wf(),
        !knows(log.known@, new),
        knows(log.known@, old),
    ensures
        seen_since(log.known@, new, log.looks) > seen_since(log.known@, old, log.looks),
{
    lemma_seen_since(log.known@, new, log.looks);
    lemma_seen_since(log.known@, old, log.looks);
}

impl SessionLog {
    /// Whatever is known was first seen at an earlier look.
    pub open spec fn wf(self) -> bool {
        forall|i: int| 0 <= i < self.known@.len() ==> (#[trigger] self.known@[i]).1 < self.looks
    }

    /// Before the first look.
    pub fn new() -> (log: Self)
        ensures
            log.wf(),
            log.looks == 0,
            log.known@ == Seq::<(u32, u64)>::empty(),
    {
        SessionLog { looks: 0, known: Vec::new() }
    }

    /// When the process `pid` was first seen.
    pub fn first_seen(&self, pid: u32) -> (look: u64)
        ensures
            look == seen_since(self.known@, pid, self.looks),
    {
        let mut i: usize = 0;
        assert(self.known@.skip(0) =~= self.known@);
        while i < self.known.len()
            invariant
                i <= self.known@.len(),
                seen_since(self.known@, pid, self.looks) == seen_since(
                    self.known@.skip(i as int),
                    pid,
                    self.looks,
                ),
            decreases self.known@.len() - i,
        {
            if self.known[i].0 == pid {
                return self.known[i].1;
            }
            assert(self.known@.skip(i as int).skip(1) =~= self.known@.skip(i + 1));
            i += 1;
        }
        self.looks
    }

    /// Takes note of one look at the sessions, each with its process and the path of the
    /// process's image, and says when each was first seen. A process that stays keeps its age.
    pub fn look(&mut self, found: Vec<(u32, Option<Vec<u16>>)>) -> (sessions: Vec<Session>)
        requires
            old(self).wf(),
            old(self).looks < u64::MAX,
        ensures
            final(self).wf(),
            final(self).looks == old(self).looks + 1,
            sessions@.len() == found@.len(),
            forall|i: int|
                0 <= i < found@.len() ==> #[trigger] sessions@[i] == (Session {
                    pid: found@[i].0,
                    image: found@[i].1,
                    first_seen: seen_since(old(self).known@, found@[i].0, old(self).looks),
                }),
            final(self).known@ == Seq::new(
                found@.len(),
                |i: int| (sessions@[i].pid, sessions@[i].first_seen),
            ),
            forall|i: int|
                0 <= i < sessions@.len() ==> seen_since(
                    final(self).known@,
                    (#[trigger] sessions@[i]).pid,
                    final(self).looks,
                ) == sessions@[i].first_seen,
    {
        let mut sessions: Vec<Session> = Vec::new();
        let mut known: Vec<(u32, u64)> = Vec::new();
        let mut rest = found;
        while rest.len() > 0
            invariant
                self.wf(),
                *self == *old(self),
                rest@.len() <= found@.len(),
                rest@ == found@.skip(found@.len() - rest@.len()),
                sessions@.len() == found@.len() - rest@.len(),
                known@.len() == sessions@.len(),
                forall|i: int|
                    0 <= i < sessions@.len() ==> #[trigger] sessions@[i] == (Session {
                        pid: found@[i].0,
                        image: found@[i].1,
                        first_seen: seen_since(self.known@, found@[i].0, self.looks),
                    }),
                forall|i: int|
                    0 <= i < known@.len() ==> #[trigger] known@[i] == (
                        sessions@[i].pid,
                        sessions@[i].first_seen,
                    ) && known@[i].1 <= self.looks,
            decreases rest@.len(),
        {
            let (pid, image) = rest.remove(0);
            let first_seen = self.first_seen(pid);
            proof {
                lemma_seen_since(self.known@, pid, self.looks);
            }
            sessions.push(Session { pid, image, first_seen });
            known.push((pid, first_seen));
        }
        self.known = known;
        self.looks = self.looks + 1;
        assert(self.known@ =~= Seq::new(
            found@.len(),
            |i: int| (sessions@[i].pid, sessions@[i].first_seen),
        ));
        proof {
            assert forall|i: int| 0 <= i < sessions@.len() implies seen_since(
                self.known@,
                (#[trigger] sessions@[i]).pid,
                self.looks,
            ) == sessions@[i].first_seen by {
                assert(self.known@[i].0 == sessions@[i].pid);
                lemma_seen_since(self.known@, sessions@[i].pid, self.looks);
            }
        }
        sessions
    }
}

} // verus!
