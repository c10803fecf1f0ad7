//! The entry database: entries sorted by name, indexed by id and by tag.

use vstd::prelude::*;
use crate::assoc::{assoc_map, find_key, lemma_assoc_absent, lemma_assoc_last, lemma_assoc_move_last};
use crate::entry::{Entry, EntryAction};
use crate::order::{by_name, has_tag, positions, sort_entries_by_name, sort_positions_by_tag, stable_sort, tag_listing};
use crate::text::{str_equal, views};

verus! {

/// Largest size of a stored database, in bytes (exclusive).
pub const MAX_SIZE: u64 = 100 * 1024;

/// Age in seconds past which a database counts as old: one hour.
pub const OLD_THRESHOLD: u64 = 60 * 60;

/// Why a stored database cannot be read or written.
#[derive(Debug, Clone, Copy, PartialEq, Eq, Structural)]
pub enum CacheError {
    /// The stored data reaches `MAX_SIZE` bytes.
    ReadTooLarge,
    /// The serialized database has this many bytes, at least `MAX_SIZE`.
    WriteTooLarge(usize),
}

/// Simple database of entries: the entries sorted by name, with an index by
/// id and an index by tag (positions into `entries`).
///
/// It is essentially read-only: an outdated database is recreated from scratch.
pub struct EntryDB {
    /// Time of creation in seconds
    pub timestamp: u64,
    /// Position of the entry of each id; a later pair for an id overrides an earlier one
    pub by_id: Vec<(String, usize)>,
    /// Positions of the entries of each tag; a later pair for a tag overrides an earlier one
    pub by_tag: Vec<(String, Vec<usize>)>,
    pub entries: Vec<Entry>,
    pub actions: Vec<EntryAction>,
}

/// The map from id to position that a list of pairs describes.
pub open spec fn id_map(s: Seq<(String, usize)>) -> Map<Seq<char>, usize> {
    assoc_map(s, |p: usize| p)
}

/// The map from tag to positions that a list of pairs describes.
pub open spec fn tag_lists(s: Seq<(String, Vec<usize>)>) -> Map<Seq<char>, Seq<usize>> {
    assoc_map(s, |v: Vec<usize>| v@)
}

/// The position of the last entry with id `id`, if any.
pub open spec fn last_with_id(s: Seq<Entry>, id: Seq<char>) -> Option<int>
    decreases s.len(),
{
    if s.len() == 0 {
        None
    } else if s.last().id@ == id {
        Some(s.len() - 1)
    } else {
        last_with_id(s.drop_last(), id)
    }
}

/// The positions of the entries that carry `tag`, in order.
pub open spec fn tagged_positions(s: Seq<Entry>, tag: Seq<char>) -> Seq<usize>
    decreases s.len(),
{
    if s.len() == 0 {
        Seq::empty()
    } else if has_tag(s.last(), tag) {
        tagged_positions(s.drop_last(), tag).push((s.len() - 1) as usize)
    } else {
        tagged_positions(s.drop_last(), tag)
    }
}

/// Whether the two indexes describe `entries`: each id maps to the position
/// of the last entry with that id, each tag to the positions of the entries
/// carrying it, and nothing else is indexed.
pub open spec fn indexes(entries: Seq<Entry>, by_id: Map<Seq<char>, usize>, by_tag: Map<Seq<char>, Seq<usize>>) -> bool {
    &&& forall|id: Seq<char>| #[trigger] by_id.contains_key(id) <==> last_with_id(entries, id) is Some
    &&& forall|id: Seq<char>| #[trigger] by_id.contains_key(id) ==> by_id[id] as int == last_with_id(entries, id)->Some_0
    &&& forall|tag: Seq<char>| #[trigger] by_tag.contains_key(tag) <==> tagged_positions(entries, tag).len() > 0
    &&& forall|tag: Seq<char>| #[trigger] by_tag.contains_key(tag) ==> by_tag[tag] == tagged_positions(entries, tag)
}

impl EntryDB {
    /// Whether the indexes describe the entries.
    pub open spec fn well_formed(self) -> bool {
        indexes(self.entries@, id_map(self.by_id@), tag_lists(self.by_tag@))
    }
}

/// Records `pos` as the position of `id`.
fn set_id(by_id: &mut Vec<(String, usize)>, id: &str, pos: usize)
    ensures
        id_map(final(by_id)@) == id_map(old(by_id)@).insert(id@, pos),
{
    let ghost old_s = by_id@;
    match find_key(by_id, id) {
        Some(i) => {
            let (key, _) = by_id.remove(i);
            by_id.push((key, pos));
            proof {
                lemma_assoc_move_last(old_s, |p: usize| p, i as int, pos);
                assert(by_id@ == old_s.remove(i as int).push((old_s[i as int].0, pos)));
            }
        },
        None => {
            by_id.push((String::from_str(id), pos));
            assert(by_id@.drop_last() =~= old_s);
        },
    }
}

/// The tag index after recording position `i` for `tag`: a position is
/// added once, at the end of the tag's list.
pub open spec fn add_position(m: Map<Seq<char>, Seq<usize>>, tag: Seq<char>, i: usize) -> Map<Seq<char>, Seq<usize>> {
    if m.contains_key(tag) {
        if m[tag].len() > 0 && m[tag].last() == i {
            m
        } else {
            m.insert(tag, m[tag].push(i))
        }
    } else {
        m.insert(tag, seq![i])
    }
}

/// Records position `pos` for `tag`, once.
fn record_tag(by_tag: &mut Vec<(String, Vec<usize>)>, tag: &str, pos: usize)
    ensures
        tag_lists(final(by_tag)@) == add_position(tag_lists(old(by_tag)@), tag@, pos),
{
    let ghost old_s = by_tag@;
    match find_key(by_tag, tag) {
        Some(i) => {
            proof {
                lemma_assoc_last(old_s, |v: Vec<usize>| v@, tag@, i as int);
            }
            let (key, mut list) = by_tag.remove(i);
            let n = list.len();
            if !(n > 0 && list[n - 1] == pos) {
                list.push(pos);
            }
            by_tag.push((key, list));
            proof {
                lemma_assoc_move_last(old_s, |v: Vec<usize>| v@, i as int, list);
                assert(by_tag@ == old_s.remove(i as int).push((old_s[i as int].0, list)));
            }
        },
        None => {
            proof {
                lemma_assoc_absent(old_s, |v: Vec<usize>| v@, tag@);
            }
            let mut list: Vec<usize> = Vec::new();
            list.push(pos);
            by_tag.push((String::from_str(tag), list));
            assert(by_tag@.drop_last() =~= old_s);
            assert(list@ =~= seq![pos]);
        },
    }
}

/// Every position listed for a tag lies inside the sequence.
proof fn lemma_tagged_positions_bound(s: Seq<Entry>, tag: Seq<char>)
    ensures
        forall|k: int| 0 <= k < tagged_positions(s, tag).len() ==> #[trigger] tagged_positions(s, tag)[k] < s.len(),
    decreases s.len(),
{
    if s.len() > 0 {
        lemma_tagged_positions_bound(s.drop_last(), tag);
        let p = tagged_positions(s.drop_last(), tag);
        assert forall|k: int| 0 <= k < tagged_positions(s, tag).len() implies #[trigger] tagged_positions(s, tag)[k] < s.len() by {
            if k < p.len() {
                assert(tagged_positions(s, tag)[k] == p[k]);
            }
        }
    }
}

/// The positions of `tag` after the entry at position `i` (with tags
/// `tags`) has been seen up to its `j`-th tag.
pub open spec fn positions_so_far(s: Seq<Entry>, i: int, tags: Seq<Seq<char>>, j: int, tag: Seq<char>) -> Seq<usize> {
    if tags.take(j).contains(tag) {
        tagged_positions(s.take(i), tag).push(i as usize)
    } else {
        tagged_positions(s.take(i), tag)
    }
}

/// Builds the id and tag indexes of `entries`.
fn build_indexes(entries: &Vec<Entry>) -> (r: (Vec<(String, usize)>, Vec<(String, Vec<usize>)>))
    ensures
        indexes(entries@, id_map(r.0@), tag_lists(r.1@)),
{
    let mut by_id: Vec<(String, usize)> = Vec::new();
    let mut by_tag: Vec<(String, Vec<usize>)> = Vec::new();
    let n = entries.len();
    let mut i: usize = 0;
    assert(entries@.take(0) =~= Seq::<Entry>::empty());
    while i < n
        invariant
            n == entries@.len(),
            i <= n,
            indexes(entries@.take(i as int), id_map(by_id@), tag_lists(by_tag@)),
        decreases n - i,
    {
        let ghost s = entries@;
        let ghost prev = s.take(i as int);
        let ghost next = s.take(i + 1);
        assert(next.drop_last() =~= prev);
        assert(next.last() == s[i as int]);
        set_id(&mut by_id, entries[i].id.as_str(), i);
        let tags = &entries[i].tags;
        let ghost tv = views(tags@);
        proof {
            lemma_tagged_positions_bound(prev, Seq::empty());
        }
        let mut j: usize = 0;
        assert(tv.take(0) =~= Seq::<Seq<char>>::empty());
        while j < tags.len()
            invariant
                j <= tags@.len(),
                tv == views(tags@),
                i < n,
                n == entries@.len(),
                s == entries@,
                prev == s.take(i as int),
                forall|t: Seq<char>| #[trigger] tag_lists(by_tag@).contains_key(t) <==> positions_so_far(s, i as int, tv, j as int, t).len() > 0,
                forall|t: Seq<char>| #[trigger] tag_lists(by_tag@).contains_key(t) ==> tag_lists(by_tag@)[t] == positions_so_far(s, i as int, tv, j as int, t),
            decreases tags@.len() - j,
        {
            let ghost t0 = tv[j as int];
            assert(tv.take(j + 1) =~= tv.take(j as int).push(t0));
            proof {
                lemma_tagged_positions_bound(prev, t0);
            }
            let ghost before = tag_lists(by_tag@);
            let ghost jj = j as int;
            record_tag(&mut by_tag, tags[j].as_str(), i);
            proof {
                let cur = tv.take(jj + 1);
                let pre = tv.take(jj);
                assert(cur =~= pre.push(t0));
                assert(cur.contains(t0)) by {
                    assert(cur[jj] == t0);
                }
                let after = tag_lists(by_tag@);
                assert(after == add_position(before, t0, i as usize));
                assert forall|t: Seq<char>| #![trigger after.contains_key(t)]
                    (after.contains_key(t) <==> positions_so_far(s, i as int, tv, jj + 1, t).len() > 0)
                    && (after.contains_key(t) ==> after[t] == positions_so_far(s, i as int, tv, jj + 1, t)) by {
                    let old_p = tagged_positions(prev, t);
                    if t == t0 {
                        if pre.contains(t0) {
                            assert(before.contains_key(t0));
                            assert(before[t0] == old_p.push(i as usize));
                        } else if before.contains_key(t0) {
                            assert(before[t0] == old_p);
                            assert(old_p.len() > 0);
                            assert(old_p.last() < i);
                        } else {
                            assert(old_p =~= Seq::<usize>::empty());
                            assert(seq![i as usize] =~= old_p.push(i as usize));
                        }
                    } else {
                        assert(cur.contains(t) == pre.contains(t)) by {
                            if cur.contains(t) {
                                let k = choose|k: int| 0 <= k < cur.len() && cur[k] == t;
                                assert(pre[k] == t);
                            }
                            if pre.contains(t) {
                                let k = choose|k: int| 0 <= k < pre.len() && pre[k] == t;
                                assert(cur[k] == t);
                            }
                        }
                        assert(positions_so_far(s, i as int, tv, jj + 1, t) == positions_so_far(s, i as int, tv, jj, t));
                    }
                }
            }
            j += 1;
        }
        assert(tv.take(tags@.len() as int) =~= tv);
        i += 1;
        assert forall|t: Seq<char>| #![trigger tag_lists(by_tag@).contains_key(t)]
            (tag_lists(by_tag@).contains_key(t) <==> tagged_positions(next, t).len() > 0)
            && (tag_lists(by_tag@).contains_key(t) ==> tag_lists(by_tag@)[t] == tagged_positions(next, t)) by {
            assert(has_tag(next.last(), t) == tv.contains(t));
        }
    }
    assert(entries@.take(n as int) =~= entries@);
    (by_id, by_tag)
}

impl EntryDB {
    /// Builds the database of `entries`, created at `timestamp`: the entries
    /// sorted by name (stably), indexed by id and by tag.
    pub fn from_entries_at(entries: Vec<Entry>, timestamp: u64) -> (db: EntryDB)
        ensures
            db.timestamp == timestamp,
            db.entries@ == stable_sort(entries@, by_name()),
            db.well_formed(),
            db.actions@.len() == 0,
    {
        let sorted = sort_entries_by_name(entries);
        let (by_id, by_tag) = build_indexes(&sorted);
        EntryDB { timestamp, by_id, by_tag, entries: sorted, actions: Vec::new() }
    }
}

impl EntryDB {
    /// The database created at `timestamp` with the entries `entries` in the
    /// order given, as read back from storage: the indexes are rebuilt from
    /// the entries, so the result is well formed whatever was stored.
    pub fn restored(timestamp: u64, entries: Vec<Entry>, actions: Vec<EntryAction>) -> (db: EntryDB)
        ensures
            db.timestamp == timestamp,
            db.entries@ == entries@,
            db.actions@ == actions@,
            db.well_formed(),
    {
        let (by_id, by_tag) = build_indexes(&entries);
        EntryDB { timestamp, by_id, by_tag, entries, actions }
    }
}

/// The position of the last entry with an id holds an entry with that id (the by-id index only finds entries with the id asked for).
pub proof fn lemma_last_with_id(s: Seq<Entry>, id: Seq<char>)
    ensures
        last_with_id(s, id) matches Some(k) ==> 0 <= k < s.len() && s[k].id@ == id,
    decreases s.len(),
{
    if s.len() > 0 {
        lemma_last_with_id(s.drop_last(), id);
    }
}

/// Whether `v` refers, in order, to the entries of `entries` at the positions `pos`.
pub open spec fn refers_to(v: Seq<&Entry>, entries: Seq<Entry>, pos: Seq<usize>) -> bool {
    &&& v.len() == pos.len()
    &&& forall|k: int| 0 <= k < v.len() ==> *v[k] == entries[pos[k] as int]
}

/// The clock reading of std (`std::time::SystemTime`), opaque here.
#[verifier::external_type_specification]
#[verifier::external_body]
pub struct ExSystemTime(std::time::SystemTime);

/// The error of `SystemTime::duration_since` (`std::time::SystemTimeError`), opaque here.
#[verifier::external_type_specification]
#[verifier::external_body]
pub struct ExSystemTimeError(std::time::SystemTimeError);

/// Calls `SystemTime::now`. Nothing is claimed of the value: it is the clock.
#[verifier::external_body]
fn system_now() -> std::time::SystemTime {
    std::time::SystemTime::now()
}

/// Calls `SystemTime::duration_since(UNIX_EPOCH)`. Nothing is claimed of the
/// value: it depends on the clock.
#[verifier::external_body]
fn since_epoch(t: &std::time::SystemTime) -> Result<std::time::Duration, std::time::SystemTimeError> {
    t.duration_since(std::time::UNIX_EPOCH)
}

/// Calls `Duration::as_secs`. Nothing is claimed of the value.
#[verifier::external_body]
fn whole_seconds(d: &std::time::Duration) -> u64 {
    d.as_secs()
}

/// The current time in whole seconds since the epoch (0 for a clock set before it).
fn now_secs() -> u64 {
    match since_epoch(&system_now()) {
        Ok(d) => whole_seconds(&d),
        Err(_) => 0,
    }
}

/// Whether stored data of `len` bytes may be read back (it stays below `MAX_SIZE`).
pub fn check_read_size(len: usize) -> (r: Result<(), CacheError>)
    ensures
        r is Ok <==> (len as int) < MAX_SIZE,
        r is Err ==> r == Err::<(), CacheError>(CacheError::ReadTooLarge),
{
    if len as u64 >= MAX_SIZE {
        Err(CacheError::ReadTooLarge)
    } else {
        Ok(())
    }
}

/// Whether a serialized database of `len` bytes may be stored (it stays below `MAX_SIZE`).
pub fn check_write_size(len: usize) -> (r: Result<(), CacheError>)
    ensures
        r is Ok <==> (len as int) < MAX_SIZE,
        r is Err ==> r == Err::<(), CacheError>(CacheError::WriteTooLarge(len)),
{
    if len as u64 >= MAX_SIZE {
        Err(CacheError::WriteTooLarge(len))
    } else {
        Ok(())
    }
}

impl EntryDB {
    /// Builds the database of `entries`, created now (see `from_entries_at`).
    pub fn from_entries(entries: Vec<Entry>) -> (db: EntryDB)
        ensures
            db.entries@ == stable_sort(entries@, by_name()),
            db.well_formed(),
            db.actions@.len() == 0,
    {
        let now = now_secs();
        Self::from_entries_at(entries, now)
    }

    /// Whether, at time `now`, the database is older than `OLD_THRESHOLD`
    /// and newer than the configuration modified at `config_mtime`.
    pub fn is_valid_at(&self, now: u64, config_mtime: u64) -> (r: bool)
        requires
            self.timestamp + OLD_THRESHOLD <= u64::MAX,
        ensures
            r == (now > self.timestamp + OLD_THRESHOLD && self.timestamp > config_mtime),
    {
        now > self.timestamp + OLD_THRESHOLD && self.timestamp > config_mtime
    }

    /// `is_valid_at` for the current time.
    pub fn is_valid(&self, config_mtime: u64) -> (r: bool)
        requires
            self.timestamp + OLD_THRESHOLD <= u64::MAX,
        ensures
            r ==> self.timestamp > config_mtime,
            exists|now: u64| r == self.is_valid_spec(now, config_mtime),
    {
        let now = now_secs();
        let r = self.is_valid_at(now, config_mtime);
        assert(r == self.is_valid_spec(now, config_mtime));
        r
    }

    /// Whether, at time `now`, a stored database may be used again instead of
    /// a fresh scan: it is recent enough, no more than `OLD_THRESHOLD` seconds old.
    pub fn reusable_at(&self, now: u64) -> (r: bool)
        requires
            self.timestamp + OLD_THRESHOLD <= u64::MAX,
        ensures
            r == self.reusable_spec(now),
    {
        now <= self.timestamp + OLD_THRESHOLD
    }

    /// `reusable_at` for the current time.
    pub fn reusable(&self) -> (r: bool)
        requires
            self.timestamp + OLD_THRESHOLD <= u64::MAX,
        ensures
            exists|now: u64| r == self.reusable_spec(now),
    {
        let now = now_secs();
        self.reusable_at(now)
    }

    /// A database that may be used again at some time may also be used at any
    /// earlier time.
    pub proof fn lemma_reusable_earlier(self, now: u64, earlier: u64)
        requires
            self.reusable_spec(now),
            earlier <= now,
        ensures
            self.reusable_spec(earlier),
    {
    }

    /// What `reusable_at` answers.
    pub open spec fn reusable_spec(self, now: u64) -> bool {
        now <= self.timestamp + OLD_THRESHOLD
    }

    /// What `is_valid_at` answers.
    pub open spec fn is_valid_spec(self, now: u64, config_mtime: u64) -> bool {
        now > self.timestamp + OLD_THRESHOLD && self.timestamp > config_mtime
    }

    /// A valid database stays valid as the clock advances, and for any
    /// configuration modified no later than one it is valid for.
    pub proof fn lemma_is_valid_monotone(self, now: u64, later: u64, config_mtime: u64, earlier_mtime: u64)
        requires
            self.is_valid_spec(now, config_mtime),
            now <= later,
            earlier_mtime <= config_mtime,
        ensures
            self.is_valid_spec(later, earlier_mtime),
    {
    }

    /// References to the entries at the positions `pos` (positions outside
    /// the entries are skipped).
    pub fn entries_at(&self, pos: &Vec<usize>) -> (r: Vec<&Entry>)
        ensures
            (forall|k: int| 0 <= k < pos@.len() ==> pos@[k] < self.entries@.len())
                ==> refers_to(r@, self.entries@, pos@),
    {
        let mut r: Vec<&Entry> = Vec::new();
        let mut i: usize = 0;
        let ghost all_in = forall|k: int| 0 <= k < pos@.len() ==> pos@[k] < self.entries@.len();
        while i < pos.len()
            invariant
                i <= pos@.len(),
                all_in == (forall|k: int| 0 <= k < pos@.len() ==> pos@[k] < self.entries@.len()),
                all_in ==> refers_to(r@, self.entries@, pos@.take(i as int)),
            decreases pos@.len() - i,
        {
            let p = pos[i];
            if p < self.entries.len() {
                r.push(&self.entries[p]);
            }
            i += 1;
            assert(all_in ==> refers_to(r@, self.entries@, pos@.take(i as int))) by {
                if all_in {
                    assert(pos@.take(i as int) =~= pos@.take(i - 1).push(p));
                }
            }
        }
        assert(pos@.take(pos@.len() as int) =~= pos@);
        r
    }

    /// The entry with id `id` (the last one, should several share it).
    pub fn get_by_id(&self, id: &str) -> (r: Option<&Entry>)
        ensures
            self.well_formed() ==> match last_with_id(self.entries@, id@) {
                Some(k) => r matches Some(e) && *e == self.entries@[k],
                None => r is None,
            },
    {
        proof {
            lemma_last_with_id(self.entries@, id@);
        }
        match find_key(&self.by_id, id) {
            Some(i) => {
                proof {
                    lemma_assoc_last(self.by_id@, |p: usize| p, id@, i as int);
                }
                let p = self.by_id[i].1;
                if p < self.entries.len() {
                    Some(&self.entries[p])
                } else {
                    None
                }
            },
            None => {
                proof {
                    lemma_assoc_absent(self.by_id@, |p: usize| p, id@);
                }
                None
            },
        }
    }

    /// The entries carrying `tag`, in order; none when no entry carries it.
    pub fn get_by_tag(&self, tag: &str) -> (r: Option<Vec<&Entry>>)
        ensures
            self.well_formed() ==> {
                &&& r is Some <==> tagged_positions(self.entries@, tag@).len() > 0
                &&& r matches Some(v) ==> refers_to(v@, self.entries@, tagged_positions(self.entries@, tag@))
            },
    {
        proof {
            lemma_tagged_positions_bound(self.entries@, tag@);
        }
        match find_key(&self.by_tag, tag) {
            Some(i) => {
                proof {
                    lemma_assoc_last(self.by_tag@, |v: Vec<usize>| v@, tag@, i as int);
                }
                Some(self.entries_at(&self.by_tag[i].1))
            },
            None => {
                proof {
                    lemma_assoc_absent(self.by_tag@, |v: Vec<usize>| v@, tag@);
                }
                None
            },
        }
    }

    /// The entries to list: with `only_tag`, the entries carrying it (none
    /// when no entry does); else all entries, tagged with `sort_tag` first
    /// when it is given.
    pub fn listing(&self, sort_tag: Option<&str>, only_tag: Option<&str>) -> (r: Option<Vec<&Entry>>)
        ensures
            match only_tag {
                Some(t) => self.well_formed() ==> {
                    &&& r is Some <==> tagged_positions(self.entries@, t@).len() > 0
                    &&& r matches Some(v) ==> refers_to(v@, self.entries@, tagged_positions(self.entries@, t@))
                },
                None => r matches Some(v) && refers_to(v@, self.entries@, match sort_tag {
                    Some(t) => tag_listing(self.entries@, t@),
                    None => positions(self.entries@.len()),
                }),
            },
    {
        match only_tag {
            Some(t) => self.get_by_tag(t),
            None => {
                let pos = match sort_tag {
                    Some(t) => sort_positions_by_tag(&self.entries, t),
                    None => {
                        let mut pos: Vec<usize> = Vec::new();
                        let mut i: usize = 0;
                        while i < self.entries.len()
                            invariant
                                i <= self.entries@.len(),
                                pos@ == positions(i as nat),
                            decreases self.entries@.len() - i,
                        {
                            pos.push(i);
                            i += 1;
                            assert(pos@ =~= positions(i as nat));
                        }
                        pos
                    },
                };
                Some(self.entries_at(&pos))
            },
        }
    }
}

/// Whether no two entries share an id.
pub open spec fn ids_unique(s: Seq<Entry>) -> bool {
    forall|i: int, j: int| 0 <= i < j < s.len() ==> #[trigger] s[i].id@ != #[trigger] s[j].id@
}

/// Adds an entry found while scanning desktop files: it replaces the entry
/// found earlier with the same id, if any, else it is appended.
pub fn add_found_entry(found: &mut Vec<Entry>, entry: Entry)
    requires
        ids_unique(old(found)@),
    ensures
        ids_unique(final(found)@),
        match last_with_id(old(found)@, entry.id@) {
            Some(i) => final(found)@ == old(found)@.update(i, entry),
            None => final(found)@ == old(found)@.push(entry),
        },
{
    proof {
        lemma_last_with_id(found@, entry.id@);
    }
    let ghost old_s = found@;
    let mut i: usize = found.len();
    assert(found@.take(i as int) =~= found@);
    while i > 0
        invariant
            i <= found@.len(),
            found@ == old_s,
            old_s == old(found)@,
            ids_unique(old_s),
            last_with_id(old_s, entry.id@) == last_with_id(old_s.take(i as int), entry.id@),
        decreases i,
    {
        assert(old_s.take(i as int).drop_last() =~= old_s.take(i - 1));
        assert(old_s.take(i as int).last() == old_s[i - 1]);
        if str_equal(found[i - 1].id.as_str(), entry.id.as_str()) {
            assert(last_with_id(old_s, entry.id@) == Some((i - 1) as int));
            let _ = found.remove(i - 1);
            found.insert(i - 1, entry);
            assert(found@ =~= old_s.update(i - 1, entry));
            assert(ids_unique(found@)) by {
                assert forall|a: int, b: int| 0 <= a < b < found@.len() implies #[trigger] found@[a].id@ != #[trigger] found@[b].id@ by {
                    if a != i - 1 && b != i - 1 {
                        assert(found@[a] == old_s[a] && found@[b] == old_s[b]);
                    } else if a == i - 1 {
                        assert(found@[b] == old_s[b]);
                        assert(old_s[a].id@ != old_s[b].id@);
                    } else {
                        assert(found@[a] == old_s[a]);
                        assert(old_s[a].id@ != old_s[b].id@);
                    }
                }
            }
            return;
        }
        i -= 1;
    }
    assert(old_s.take(0) =~= Seq::<Entry>::empty());
    proof {
        assert forall|k: int| 0 <= k < old_s.len() implies old_s[k].id@ != entry.id@ by {
            if old_s[k].id@ == entry.id@ {
                lemma_last_with_id_complete(old_s, entry.id@, k);
            }
        }
    }
    found.push(entry);
    assert(found@ =~= old_s.push(entry));
}

/// An entry with the id makes `last_with_id` find one (the by-id index misses no id).
pub proof fn lemma_last_with_id_complete(s: Seq<Entry>, id: Seq<char>, k: int)
    requires
        0 <= k < s.len(),
        s[k].id@ == id,
    ensures
        last_with_id(s, id) is Some,
    decreases s.len(),
{
    if k < s.len() - 1 && s.last().id@ != id {
        lemma_last_with_id_complete(s.drop_last(), id, k);
    }
}

/// The positions listed for a tag are exactly those of the entries that carry
/// it, each once and in increasing order.
pub proof fn lemma_tagged_positions_exact(s: Seq<Entry>, tag: Seq<char>)
    requires
        s.len() <= usize::MAX,
    ensures
        forall|k: int| 0 <= k < tagged_positions(s, tag).len()
            ==> has_tag(s[#[trigger] tagged_positions(s, tag)[k] as int], tag),
        forall|i: int| 0 <= i < s.len() && has_tag(s[i], tag) ==> #[trigger] tagged_positions(s, tag).contains(i as usize),
        forall|a: int, b: int| 0 <= a < b < tagged_positions(s, tag).len()
            ==> #[trigger] tagged_positions(s, tag)[a] < #[trigger] tagged_positions(s, tag)[b],
    decreases s.len(),
{
    if s.len() > 0 {
        let p = tagged_positions(s.drop_last(), tag);
        lemma_tagged_positions_exact(s.drop_last(), tag);
        lemma_tagged_positions_bound(s.drop_last(), tag);
        let q = tagged_positions(s, tag);
        assert forall|k: int| 0 <= k < q.len() implies has_tag(s[#[trigger] q[k] as int], tag) by {
            if k < p.len() {
                assert(q[k] == p[k]);
                assert(s[p[k] as int] == s.drop_last()[p[k] as int]);
            }
        }
        assert forall|i: int| 0 <= i < s.len() && has_tag(s[i], tag) implies #[trigger] q.contains(i as usize) by {
            if i < s.len() - 1 {
                assert(s.drop_last()[i] == s[i]);
                assert(p.contains(i as usize));
                let k = choose|k: int| 0 <= k < p.len() && p[k] == i as usize;
                assert(q[k] == i as usize);
            } else {
                assert(q[q.len() - 1] == i as usize);
            }
        }
        assert forall|a: int, b: int| 0 <= a < b < q.len() implies #[trigger] q[a] < #[trigger] q[b] by {
            if b < p.len() {
                assert(q[a] == p[a] && q[b] == p[b]);
            } else {
                assert(q[a] == p[a]);
            }
        }
    }
}

} // verus!
