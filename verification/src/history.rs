//! The shell's recorded history of commands: items kept in the order they were added,
//! found by their ids, searched with queries, and the lines that save and restore them.

use std::collections::{HashMap, VecDeque};
use vstd::prelude::*;

use crate::error::{Error, ErrorKind};
use crate::text;

verus! {

/// A unique identifier for a history item.
pub type ItemId = i64;

/// A point in time: seconds since the Unix epoch, and nanoseconds past them.
#[derive(Clone, Copy, Debug, PartialEq, Eq, Structural)]
pub struct Timestamp {
    /// Seconds since the Unix epoch.
    pub secs: i64,
    /// Nanoseconds past `secs`.
    pub nanos: u32,
}

/// Whether `a` is at or before `b`.
pub open spec fn at_or_before(a: Timestamp, b: Timestamp) -> bool {
    a.secs < b.secs || (a.secs == b.secs && a.nanos <= b.nanos)
}

/// Returns whether `a` is at or before `b`.
pub fn timestamp_at_or_before(a: Timestamp, b: Timestamp) -> (r: bool)
    ensures
        r == at_or_before(a, b),
{
    a.secs < b.secs || (a.secs == b.secs && a.nanos <= b.nanos)
}

/// Returns the current time (`chrono::Utc::now`, which takes the system time since the
/// epoch): the contract claims only that it is not before the epoch and that the
/// nanoseconds are those within a second; which time it is depends on the clock.
#[verifier::external_body]
fn now() -> (r: Timestamp)
    ensures
        r.secs >= 0,
        r.nanos < 1_000_000_000,
{
    let now = chrono::Utc::now();
    Timestamp { secs: now.timestamp(), nanos: now.timestamp_subsec_nanos() }
}

/// Whether chrono can represent the time `secs` seconds after the Unix epoch.
pub uninterp spec fn representable_secs(secs: i64) -> bool;

/// The time `secs` seconds after the Unix epoch, if chrono can represent it
/// (`chrono::DateTime::<Utc>::from_timestamp(secs, 0)`): the contract claims that what
/// comes back is that time, with no nanoseconds, and names when it can. chrono's dates
/// span the years -262143 to 262142, so every time within 8 * 10^12 seconds of the epoch
/// is representable; the exact ends of the range are left to the name.
#[verifier::external_body]
fn from_timestamp(secs: i64) -> (r: Option<Timestamp>)
    ensures
        r is Some <==> representable_secs(secs),
        -8_000_000_000_000 <= secs <= 8_000_000_000_000 ==> r is Some,
        r matches Some(t) ==> t.secs == secs && t.nanos == 0,
{
    chrono::DateTime::<chrono::Utc>::from_timestamp(secs, 0)
        .map(|dt| Timestamp { secs: dt.timestamp(), nanos: dt.timestamp_subsec_nanos() })
}

/// Represents an item in the history.
#[derive(Clone, Debug, Default)]
pub struct Item {
    /// The unique identifier of the history item.
    pub id: ItemId,
    /// The actual command line.
    pub command_line: String,
    /// The timestamp when the command was started.
    pub timestamp: Option<Timestamp>,
    /// Whether or not the item is dirty, i.e., has not yet been written to backing storage.
    pub dirty: bool,
}

/// An item as values.
pub struct ItemView {
    pub id: int,
    pub command_line: Seq<char>,
    pub timestamp: Option<Timestamp>,
    pub dirty: bool,
}

impl Item {
    /// The item as values.
    pub open spec fn view(&self) -> ItemView {
        ItemView { id: self.id as int, command_line: self.command_line@, timestamp: self.timestamp, dirty: self.dirty }
    }

    /// Constructs a new, unsaved item with the given command line, stamped with the current
    /// time. Its id is assigned when it is added to a history.
    pub fn new(command_line: &str) -> (r: Self)
        ensures
            r.id == 0,
            r.command_line@ == command_line@,
            r.timestamp matches Some(t) && t.secs >= 0 && t.nanos < 1_000_000_000,
            r.dirty,
    {
        Item { id: 0, command_line: command_line.to_owned(), timestamp: Some(now()), dirty: true }
    }

    /// Returns a copy of the item.
    pub fn duplicate(&self) -> (r: Self)
        ensures
            r@ == self@,
    {
        Item { id: self.id, command_line: self.command_line.clone(), timestamp: self.timestamp, dirty: self.dirty }
    }
}

/// Interface for querying and manipulating the shell's recorded history of commands.
#[derive(Clone)]
pub struct History {
    items: VecDeque<ItemId>,
    id_map: HashMap<ItemId, Item>,
    next_id: ItemId,
}

/// No id occurs twice.
pub open spec fn ids_distinct(s: Seq<ItemId>) -> bool {
    forall|i: int, j: int| 0 <= i < j < s.len() ==> s[i] != s[j]
}

impl History {
    /// The ids of the items, in the order they were added.
    pub closed spec fn order(&self) -> Seq<ItemId> {
        self.items@
    }

    /// The items by id.
    pub closed spec fn entries(&self) -> Map<ItemId, Item> {
        self.id_map@
    }

    /// The id the next added item gets.
    pub closed spec fn next_id(&self) -> int {
        self.next_id as int
    }

    /// Well-formed: each id in order once, the ids in order are those of the items, and
    /// every id is below the next one to give out.
    pub closed spec fn wf(&self) -> bool {
        &&& ids_distinct(self.items@)
        &&& forall|id: ItemId| self.id_map@.contains_key(id) <==> self.items@.contains(id)
        &&& forall|i: int| 0 <= i < self.items@.len() ==> 0 <= #[trigger] self.items@[i] < self.next_id
        &&& self.next_id >= 0
    }

    /// The items, in order, as values.
    pub open spec fn items_view(&self) -> Seq<ItemView> {
        self.order().map_values(|id: ItemId| self.entries()[id]@)
    }

    /// Returns an empty history.
    pub fn new() -> (r: Self)
        ensures
            r.wf(),
            r.order().len() == 0,
            r.entries() == Map::<ItemId, Item>::empty(),
            r.next_id() == 0,
    {
        let r = History { items: VecDeque::new(), id_map: HashMap::new(), next_id: 0 };
        proof {
            assert(r.id_map@ =~= Map::<ItemId, Item>::empty());
        }
        r
    }

    /// Tries to retrieve a history item by its unique identifier. Returns `None` if no item
    /// is found.
    pub fn get_by_id(&self, id: ItemId) -> (r: Result<Option<&Item>, Error>)
        ensures
            match r {
                Ok(Some(item)) => self.entries().contains_key(id) && *item == self.entries()[id],
                Ok(None) => !self.entries().contains_key(id),
                Err(_) => false,
            },
    {
        Ok(self.id_map.get(&id))
    }

    /// Replaces the history item with the given ID with a new item; fails if there is none.
    pub fn update_by_id(&mut self, id: ItemId, item: Item) -> (r: Result<(), Error>)
        requires
            old(self).wf(),
        ensures
            final(self).wf(),
            final(self).order() == old(self).order(),
            final(self).next_id() == old(self).next_id(),
            match r {
                Ok(()) => old(self).entries().contains_key(id) && final(self).entries() == old(self).entries().insert(id, item),
                Err(e) => !old(self).entries().contains_key(id) && final(self).entries() == old(self).entries()
                    && e.spec_kind() is HistoryItemNotFound,
            },
    {
        if !self.id_map.contains_key(&id) {
            return Err(Error::new(ErrorKind::HistoryItemNotFound));
        }
        self.id_map.insert(id, item);
        Ok(())
    }

    /// Removes the nth item from the history. Returns the removed item, or `None` if no
    /// such item exists (i.e., because it was out of range).
    pub fn remove_nth_item(&mut self, n: usize) -> (r: Option<Item>)
        requires
            old(self).wf(),
        ensures
            final(self).wf(),
            final(self).next_id() == old(self).next_id(),
            if n < old(self).order().len() {
                let id = old(self).order()[n as int];
                &&& final(self).order() == old(self).order().remove(n as int)
                &&& final(self).entries() == old(self).entries().remove(id)
                &&& r == Some(old(self).entries()[id])
            } else {
                &&& final(self).order() == old(self).order()
                &&& final(self).entries() == old(self).entries()
                &&& r is None
            },
    {
        let ghost old_items = self.items@;
        match self.items.remove(n) {
            Some(id) => {
                proof {
                    assert(old_items.contains(id));
                    assert forall|x: ItemId| #[trigger] self.items@.contains(x) <==> (old_items.contains(x) && x != id) by {
                        if self.items@.contains(x) {
                            let k = choose|k: int| 0 <= k < self.items@.len() && self.items@[k] == x;
                            if k < n {
                                assert(old_items[k] == x);
                            } else {
                                assert(old_items[k + 1] == x);
                            }
                        }
                        if old_items.contains(x) && x != id {
                            let k = choose|k: int| 0 <= k < old_items.len() && old_items[k] == x;
                            if k < n {
                                assert(self.items@[k] == x);
                            } else {
                                assert(k != n);
                                assert(self.items@[k - 1] == x);
                            }
                        }
                    }
                }
                let removed = self.id_map.remove(&id);
                proof {
                    assert forall|i: int| 0 <= i < self.items@.len() implies 0 <= #[trigger] self.items@[i] < self.next_id by {
                        if i < n {
                            assert(self.items@[i] == old_items[i]);
                        } else {
                            assert(self.items@[i] == old_items[i + 1]);
                        }
                    }
                }
                removed
            },
            None => None,
        }
    }

    /// Adds a new history item, giving it the next id. Returns that id.
    pub fn add(&mut self, item: Item) -> (r: Result<ItemId, Error>)
        requires
            old(self).wf(),
            old(self).next_id() < i64::MAX,
        ensures
            final(self).wf(),
            r == Ok::<ItemId, Error>(old(self).next_id() as i64),
            final(self).next_id() == old(self).next_id() + 1,
            final(self).order() == old(self).order().push(old(self).next_id() as i64),
            final(self).entries() == old(self).entries().insert(old(self).next_id() as i64, Item { id: old(self).next_id() as i64, ..item }),
    {
        let id = self.next_id;
        let mut item = item;
        item.id = id;
        self.next_id = self.next_id + 1;
        let ghost old_items = self.items@;
        proof {
            assert(!old_items.contains(id)) by {
                if old_items.contains(id) {
                    let k = choose|k: int| 0 <= k < old_items.len() && old_items[k] == id;
                }
            }
        }
        self.items.push_back(id);
        self.id_map.insert(id, item);
        proof {
            assert forall|x: ItemId| #[trigger] self.items@.contains(x) <==> (old_items.contains(x) || x == id) by {
                if self.items@.contains(x) && x != id {
                    let k = choose|k: int| 0 <= k < self.items@.len() && self.items@[k] == x;
                    assert(old_items[k] == x);
                }
                if old_items.contains(x) {
                    let k = choose|k: int| 0 <= k < old_items.len() && old_items[k] == x;
                    assert(self.items@[k] == x);
                }
                if x == id {
                    assert(self.items@[old_items.len() as int] == x);
                }
            }
            assert forall|i: int, j: int| 0 <= i < j < self.items@.len() implies self.items@[i] != self.items@[j] by {
                if j == old_items.len() {
                    assert(old_items[i] < id);
                }
            }
        }
        Ok(id)
    }

    /// Deletes a history item by its unique identifier.
    pub fn delete_item_by_id(&mut self, id: ItemId) -> (r: Result<(), Error>)
        requires
            old(self).wf(),
        ensures
            final(self).wf(),
            r is Ok,
            final(self).next_id() == old(self).next_id(),
            final(self).entries() == old(self).entries().remove(id),
            final(self).order() == without_id(old(self).order(), id),
    {
        self.id_map.remove(&id);
        let ghost old_items = self.items@;
        let mut kept: VecDeque<ItemId> = VecDeque::new();
        let mut i: usize = 0;
        while i < self.items.len()
            invariant
                self.items@ == old_items,
                i <= old_items.len(),
                kept@ == without_id(old_items.take(i as int), id),
            decreases old_items.len() - i,
        {
            let x = self.items[i];
            proof {
                assert(old_items.take(i + 1).drop_last() == old_items.take(i as int));
                assert(old_items.take(i + 1).last() == x);
            }
            if x != id {
                kept.push_back(x);
            }
            i = i + 1;
        }
        proof {
            assert(old_items.take(old_items.len() as int) == old_items);
        }
        self.items = kept;
        proof {
            lemma_without_id(old_items, id, self.next_id);
            assert(all_below(old_items, self.next_id));
        }
        Ok(())
    }

    /// Clears all history items.
    pub fn clear(&mut self) -> (r: Result<(), Error>)
        requires
            old(self).wf(),
        ensures
            final(self).wf(),
            r is Ok,
            final(self).order().len() == 0,
            final(self).entries() == Map::<ItemId, Item>::empty(),
            final(self).next_id() == old(self).next_id(),
    {
        self.id_map.clear();
        self.items.clear();
        Ok(())
    }

    /// Returns the number of items in the history.
    pub fn count(&self) -> (r: usize)
        ensures
            r == self.order().len(),
    {
        self.items.len()
    }
}

/// `s` without `id`.
pub open spec fn without_id(s: Seq<ItemId>, id: ItemId) -> Seq<ItemId>
    decreases s.len(),
{
    if s.len() == 0 {
        Seq::empty()
    } else if s.last() == id {
        without_id(s.drop_last(), id)
    } else {
        without_id(s.drop_last(), id).push(s.last())
    }
}

/// Every id of `s` is in `0..b`.
pub open spec fn all_below(s: Seq<ItemId>, b: ItemId) -> bool {
    forall|i: int| 0 <= i < s.len() ==> 0 <= #[trigger] s[i] < b
}

/// Removing an id keeps the others, each once if they were, and each below the same
/// bound.
proof fn lemma_without_id(s: Seq<ItemId>, id: ItemId, b: ItemId)
    ensures
        forall|x: ItemId| #[trigger] without_id(s, id).contains(x) <==> (s.contains(x) && x != id),
        ids_distinct(s) ==> ids_distinct(without_id(s, id)),
        all_below(s, b) ==> all_below(without_id(s, id), b),
    decreases s.len(),
{
    if s.len() > 0 {
        let t = s.drop_last();
        lemma_without_id(t, id, b);
        let prev = without_id(t, id);
        assert forall|x: ItemId| #[trigger] without_id(s, id).contains(x) <==> (s.contains(x) && x != id) by {
            if s.contains(x) && x != id && x != s.last() {
                let k = choose|k: int| 0 <= k < s.len() && s[k] == x;
                assert(t[k] == x);
                assert(prev.contains(x));
                if s.last() != id {
                    let j = choose|j: int| 0 <= j < prev.len() && prev[j] == x;
                    assert(prev.push(s.last())[j] == x);
                }
            }
            if s.contains(x) && x != id && x == s.last() {
                assert(prev.push(s.last())[prev.len() as int] == x);
            }
            if without_id(s, id).contains(x) {
                let j = choose|j: int| 0 <= j < without_id(s, id).len() && without_id(s, id)[j] == x;
                if s.last() != id && j == prev.len() {
                    assert(s[s.len() - 1] == x);
                } else {
                    assert(prev[j] == x);
                    assert(prev.contains(x));
                    let k = choose|k: int| 0 <= k < t.len() && t[k] == x;
                    assert(s[k] == x);
                }
            }
        }
        if ids_distinct(s) {
            assert(ids_distinct(t));
            if s.last() != id {
                assert forall|i: int, j: int| 0 <= i < j < prev.push(s.last()).len() implies prev.push(s.last())[i] != prev.push(s.last())[j] by {
                    if j == prev.len() {
                        assert(prev.contains(prev[i]));
                        if prev[i] == s.last() {
                            let k = choose|k: int| 0 <= k < t.len() && t[k] == prev[i];
                            assert(s[k] == s[s.len() - 1]);
                        }
                    }
                }
            }
        }
        if all_below(s, b) {
            assert(all_below(t, b)) by {
                assert forall|i: int| 0 <= i < t.len() implies 0 <= #[trigger] t[i] < b by {
                    assert(t[i] == s[i]);
                }
            }
            if s.last() != id {
                assert(all_below(prev.push(s.last()), b)) by {
                    assert forall|i: int| 0 <= i < prev.push(s.last()).len() implies 0 <= #[trigger] prev.push(s.last())[i] < b by {
                        if i == prev.len() {
                            assert(s[s.len() - 1] == s.last());
                        }
                    }
                }
            }
        }
    }
}

impl Default for History {
    fn default() -> (r: Self)
        ensures
            r.wf(),
            r.order().len() == 0,
            r.entries() == Map::<ItemId, Item>::empty(),
            r.next_id() == 0,
    {
        History::new()
    }
}

/// Represents the direction of a search operation.
#[derive(Clone, Copy, Debug, PartialEq, Eq, Structural)]
pub enum Direction {
    /// Search forward from the oldest part of history.
    Forward,
    /// Search backward from the youngest part of history.
    Backward,
}

impl Default for Direction {
    fn default() -> (r: Self)
        ensures
            r == Direction::Forward,
    {
        Direction::Forward
    }
}

/// Filter criteria for command lines.
#[derive(Clone, Debug)]
pub enum CommandLineFilter {
    /// The command line must start with this string.
    Prefix(String),
    /// The command line must end with this string.
    Suffix(String),
    /// The command line must contain this string.
    Contains(String),
    /// The command line must match this string exactly.
    Exact(String),
}

/// Whether `t` occurs in `s`.
pub open spec fn occurs_in(t: Seq<char>, s: Seq<char>) -> bool {
    exists|i: int| 0 <= i && i + t.len() <= s.len() && #[trigger] s.subrange(i, i + t.len()) == t
}

/// Whether a command line passes a filter.
pub open spec fn filter_passes(f: CommandLineFilter, line: Seq<char>) -> bool {
    match f {
        CommandLineFilter::Prefix(p) => p@.len() <= line.len() && line.take(p@.len() as int) == p@,
        CommandLineFilter::Suffix(x) => x@.len() <= line.len() && line.skip(line.len() - x@.len()) == x@,
        CommandLineFilter::Contains(c) => occurs_in(c@, line),
        CommandLineFilter::Exact(e) => line == e@,
    }
}

/// Encapsulates query parameters for searching through history.
#[derive(Debug)]
pub struct Query {
    /// Whether to search forward or backward
    pub direction: Direction,
    /// Optionally, clamp results to items with a timestamp strictly after this.
    pub not_at_or_before_time: Option<Timestamp>,
    /// Optionally, clamp results to items with a timestamp strictly before this.
    pub not_at_or_after_time: Option<Timestamp>,
    /// Optionally, clamp results to items with an ID equal strictly after this.
    pub not_at_or_before_id: Option<ItemId>,
    /// Optionally, clamp results to items with an ID equal strictly before this.
    pub not_at_or_after_id: Option<ItemId>,
    /// Optionally, maximum number of items to retrieve
    pub max_items: Option<i64>,
    /// Optionally, a string-based filter on command line.
    pub command_line_filter: Option<CommandLineFilter>,
}

impl Default for Query {
    fn default() -> (r: Self)
        ensures
            r.direction == Direction::Forward,
            r.not_at_or_before_time is None,
            r.not_at_or_after_time is None,
            r.not_at_or_before_id is None,
            r.not_at_or_after_id is None,
            r.max_items is None,
            r.command_line_filter is None,
    {
        Query {
            direction: Direction::Forward,
            not_at_or_before_time: None,
            not_at_or_after_time: None,
            not_at_or_before_id: None,
            not_at_or_after_id: None,
            max_items: None,
            command_line_filter: None,
        }
    }
}

/// Whether a query includes an item: an item with a timestamp must be strictly after and
/// before the time bounds given, its id strictly after and before the id bounds given,
/// and its command line must pass the filter given.
pub open spec fn query_includes(q: Query, item: ItemView) -> bool {
    &&& (q.not_at_or_before_time matches Some(t) ==> !(item.timestamp matches Some(ts) && at_or_before(ts, t)))
    &&& (q.not_at_or_after_time matches Some(t) ==> !(item.timestamp matches Some(ts) && at_or_before(t, ts)))
    &&& (q.not_at_or_before_id matches Some(b) ==> !(item.id <= b))
    &&& (q.not_at_or_after_id matches Some(b) ==> !(item.id >= b))
    &&& (q.command_line_filter matches Some(f) ==> filter_passes(f, item.command_line))
}

/// Returns whether `t` occurs in `s` at `i`.
fn occurs_at(s: &Vec<char>, t: &Vec<char>, i: usize) -> (r: bool)
    requires
        i + t@.len() <= s@.len(),
    ensures
        r == (s@.subrange(i as int, i + t@.len()) == t@),
{
    let n = s.len();
    let mut k: usize = 0;
    while k < t.len()
        invariant
            n == s@.len(),
            i + t@.len() <= s@.len(),
            k <= t@.len(),
            forall|j: int| 0 <= j < k ==> s@[i + j] == t@[j],
        decreases t@.len() - k,
    {
        if text::char_at(s, i + k) != text::char_at(t, k) {
            proof {
                assert(s@.subrange(i as int, i + t@.len())[k as int] != t@[k as int]);
            }
            return false;
        }
        k = k + 1;
    }
    proof {
        assert(s@.subrange(i as int, i + t@.len()) =~= t@);
    }
    true
}

/// Returns whether `t` occurs in `s`.
pub(crate) fn text_contains(s: &Vec<char>, t: &Vec<char>) -> (r: bool)
    ensures
        r == occurs_in(t@, s@),
{
    if t.len() > s.len() {
        return false;
    }
    let last = s.len() - t.len();
    let mut i: usize = 0;
    while i <= last
        invariant
            last + t@.len() == s@.len(),
            i <= last + 1,
            forall|j: int| 0 <= j < i ==> #[trigger] s@.subrange(j, j + t@.len()) != t@,
        decreases last + 1 - i,
    {
        if occurs_at(s, t, i) {
            return true;
        }
        if i == last {
            return false;
        }
        i = i + 1;
    }
    false
}

/// Returns whether a command line passes a filter.
fn passes(f: &CommandLineFilter, line: &str) -> (r: bool)
    ensures
        r == filter_passes(*f, line@),
{
    let lv = text::chars_of(line);
    match f {
        CommandLineFilter::Prefix(p) => {
            let pv = text::chars_of(p.as_str());
            if pv.len() > lv.len() {
                false
            } else {
                let r = occurs_at(&lv, &pv, 0);
                proof {
                    assert(lv@.subrange(0, pv@.len() as int) == lv@.take(pv@.len() as int));
                }
                r
            }
        },
        CommandLineFilter::Suffix(x) => {
            let xv = text::chars_of(x.as_str());
            if xv.len() > lv.len() {
                false
            } else {
                let r = occurs_at(&lv, &xv, lv.len() - xv.len());
                proof {
                    assert(lv@.subrange(lv@.len() - xv@.len(), lv@.len() as int) == lv@.skip(lv@.len() - xv@.len()));
                }
                r
            }
        },
        CommandLineFilter::Contains(c) => {
            let cv = text::chars_of(c.as_str());
            text_contains(&lv, &cv)
        },
        CommandLineFilter::Exact(e) => text::str_eq(line, e.as_str()),
    }
}

impl Query {
    /// Checks if the query includes the given item (see [`query_includes`]).
    pub fn includes(&self, item: &Item) -> (r: bool)
        ensures
            r == query_includes(*self, item@),
    {
        if let Some(t) = self.not_at_or_before_time {
            if let Some(ts) = item.timestamp {
                if timestamp_at_or_before(ts, t) {
                    return false;
                }
            }
        }
        if let Some(t) = self.not_at_or_after_time {
            if let Some(ts) = item.timestamp {
                if timestamp_at_or_before(t, ts) {
                    return false;
                }
            }
        }
        if let Some(b) = self.not_at_or_before_id {
            if item.id <= b {
                return false;
            }
        }
        if let Some(b) = self.not_at_or_after_id {
            if item.id >= b {
                return false;
            }
        }
        if let Some(f) = &self.command_line_filter {
            if !passes(f, item.command_line.as_str()) {
                return false;
            }
        }
        true
    }
}

/// The first `limit` of the items `s` (in order) that the query includes.
pub open spec fn search_from(q: Query, s: Seq<ItemView>, limit: int) -> Seq<ItemView>
    decreases s.len(),
{
    if s.len() == 0 || limit <= 0 {
        Seq::empty()
    } else if query_includes(q, s[0]) {
        seq![s[0]] + search_from(q, s.drop_first(), limit - 1)
    } else {
        search_from(q, s.drop_first(), limit)
    }
}

/// How many items a query lets a search return: `max_items` as a count (as Rust casts
/// it to `usize`), or all of them.
pub open spec fn limit_of(q: Query, n: int) -> int {
    match q.max_items {
        Some(m) => (m as usize) as int,
        None => n,
    }
}

/// The items of a history, in the order a search in `direction` visits them.
pub open spec fn in_direction(s: Seq<ItemView>, direction: Direction) -> Seq<ItemView> {
    match direction {
        Direction::Forward => s,
        Direction::Backward => s.reverse(),
    }
}

/// The items of the references, as values.
pub open spec fn refs_view(v: Seq<&Item>) -> Seq<ItemView> {
    v.map_values(|i: &Item| i@)
}

impl History {
    /// The item at position `k` of the order a search in `direction` visits.
    fn item_at(&self, k: usize, direction: Direction) -> (r: Option<&Item>)
        requires
            self.wf(),
            k < self.order().len(),
        ensures
            r matches Some(item) && item@ == in_direction(self.items_view(), direction)[k as int],
    {
        let n = self.items.len();
        let index = match direction {
            Direction::Forward => k,
            Direction::Backward => n - 1 - k,
        };
        let id = self.items[index];
        proof {
            assert(self.items@.contains(id));
        }
        self.id_map.get(&id)
    }

    /// Searches through history using the given query: the first items, in the query's
    /// direction, that it includes, up to its maximum count.
    pub fn search(&self, query: &Query) -> (r: Vec<&Item>)
        requires
            self.wf(),
        ensures
            refs_view(r@) == search_from(*query, in_direction(self.items_view(), query.direction),
                limit_of(*query, self.order().len() as int)),
    {
        let ghost s = in_direction(self.items_view(), query.direction);
        let ghost limit = limit_of(*query, self.order().len() as int);
        let n = self.items.len();
        let limit_count: Option<usize> = match query.max_items {
            Some(m) => Some(m as usize),
            None => None,
        };
        let mut out: Vec<&Item> = Vec::new();
        let mut k: usize = 0;
        proof {
            assert(s.skip(0) == s);
            assert(refs_view(out@) =~= Seq::<ItemView>::empty());
        }
        while k < n
            invariant
                self.wf(),
                n == self.order().len(),
                s == in_direction(self.items_view(), query.direction),
                s.len() == n,
                limit == limit_of(*query, n as int),
                limit_count matches Some(l) ==> limit == l,
                limit_count is None ==> limit == n,
                k <= n,
                out@.len() <= k,
                refs_view(out@) + search_from(*query, s.skip(k as int), limit - out@.len())
                    == search_from(*query, s, limit),
            decreases n - k,
        {
            let item = match self.item_at(k, query.direction) {
                Some(item) => item,
                None => return out,
            };
            let full = match limit_count {
                Some(l) => out.len() >= l,
                None => false,
            };
            proof {
                let rest = s.skip(k as int);
                assert(rest[0] == s[k as int]);
                assert(rest.drop_first() == s.skip(k + 1));
            }
            if full {
                proof {
                    assert(search_from(*query, s.skip(k as int), limit - out@.len()) == Seq::<ItemView>::empty());
                    assert(refs_view(out@) =~= refs_view(out@) + Seq::<ItemView>::empty());
                }
                return out;
            }
            if query.includes(item) {
                let ghost before = out@;
                out.push(item);
                proof {
                    assert(refs_view(out@) =~= refs_view(before).push(item@));
                    assert(refs_view(out@) + search_from(*query, s.skip(k + 1), limit - out@.len())
                        =~= refs_view(before) + search_from(*query, s.skip(k as int), limit - before.len()));
                }
            }
            k = k + 1;
        }
        proof {
            assert(s.skip(n as int).len() == 0);
            assert(refs_view(out@) + Seq::<ItemView>::empty() =~= refs_view(out@));
        }
        out
    }

    /// Returns the history items, oldest first.
    pub fn iter(&self) -> (r: Vec<&Item>)
        requires
            self.wf(),
        ensures
            refs_view(r@) == search_from(Query::default_spec(), self.items_view(), self.order().len() as int),
    {
        self.search(&Query::default())
    }
}

impl Query {
    /// The query that includes every item, oldest first.
    pub open spec fn default_spec() -> Query {
        Query {
            direction: Direction::Forward,
            not_at_or_before_time: None,
            not_at_or_after_time: None,
            not_at_or_before_id: None,
            not_at_or_after_id: None,
            max_items: None,
            command_line_filter: None,
        }
    }
}

/// The time `secs` seconds after the epoch, as importing reads it, if chrono can
/// represent it.
pub open spec fn timestamp_of_secs(secs: i64) -> Option<Timestamp> {
    if representable_secs(secs) {
        Some(Timestamp { secs, nanos: 0 })
    } else {
        None
    }
}

/// The value of `s` as an `i64`, as Rust reads one, if it is one.
pub open spec fn i64_value(s: Seq<char>) -> Option<int> {
    match crate::int_utils::radix_value(s, 10, true) {
        Some(v) => if i64::MIN <= v <= i64::MAX { Some(v) } else { None },
        None => None,
    }
}

/// The items that saved history lines hold, each a command line with the timestamp of the
/// comment line right before it (if that is `#` and a representable number of seconds),
/// and the timestamp pending after the last line.
pub open spec fn imported(lines: Seq<Seq<char>>) -> (Seq<(Seq<char>, Option<Timestamp>)>, Option<Timestamp>)
    decreases lines.len(),
{
    if lines.len() == 0 {
        (Seq::empty(), None)
    } else {
        let prev = imported(lines.drop_last());
        let line = lines.last();
        if line.len() > 0 && line[0] == '#' {
            (prev.0, match i64_value(text::trimmed(line.drop_first())) {
                Some(v) => timestamp_of_secs(v as i64),
                None => None,
            })
        } else {
            (prev.0.push((line, prev.1)), None)
        }
    }
}

/// The items imported from saved lines, as values: each has its position as its id, and
/// is saved.
pub open spec fn imported_items(lines: Seq<Seq<char>>) -> Seq<ItemView> {
    let items = imported(lines).0;
    Seq::new(items.len(), |i: int| ItemView { id: i, command_line: items[i].0, timestamp: items[i].1, dirty: false })
}

/// The texts of strings.
pub open spec fn lines_view(lines: Seq<String>) -> Seq<Seq<char>> {
    lines.map_values(|l: String| l@)
}

proof fn lemma_imported_len(lines: Seq<Seq<char>>)
    ensures
        imported(lines).0.len() <= lines.len(),
    decreases lines.len(),
{
    if lines.len() > 0 {
        lemma_imported_len(lines.drop_last());
    }
}

impl History {
    /// Constructs a history from the lines of a saved history file: each line is a command
    /// line, except that a line starting with `#` stamps the next command line with the
    /// time that its number of seconds (after the epoch) gives, if it is one.
    pub fn import_lines(lines: &[String]) -> (r: Self)
        requires
            lines@.len() < i64::MAX,
        ensures
            r.wf(),
            r.items_view() == imported_items(lines_view(lines@)),
            r.next_id() == imported(lines_view(lines@)).0.len(),
    {
        let ghost ls = lines_view(lines@);
        let mut history = History::new();
        let mut next_timestamp: Option<Timestamp> = None;
        let mut i: usize = 0;
        proof {
            assert(ls.take(0) =~= Seq::<Seq<char>>::empty());
            assert(history.items_view() =~= imported_items(ls.take(0)));
        }
        while i < lines.len()
            invariant
                ls == lines_view(lines@),
                lines@.len() < i64::MAX,
                i <= lines@.len(),
                history.wf(),
                history.order() == Seq::new(history.order().len(), |k: int| k as i64),
                history.next_id() == history.order().len(),
                history.items_view() == imported_items(ls.take(i as int)),
                next_timestamp == imported(ls.take(i as int)).1,
                history.order().len() == imported(ls.take(i as int)).0.len(),
            decreases lines@.len() - i,
        {
            let line = &lines[i];
            proof {
                assert(ls.take(i + 1).drop_last() == ls.take(i as int));
                assert(ls.take(i + 1).last() == line@);
                lemma_imported_len(ls.take(i as int));
            }
            let v = text::chars_of(line.as_str());
            if v.len() > 0 && text::char_at(&v, 0) == '#' {
                let comment = text::string_of(&v, 1, v.len());
                proof {
                    assert(comment@ == line@.drop_first());
                }
                let trimmed = text::trim(comment.as_str());
                next_timestamp = match <i64 as crate::int_utils::ParseIntRadix>::from_str_radix(trimmed.as_str(), 10) {
                    Some(secs) => from_timestamp(secs),
                    None => None,
                };
                proof {
                    assert(history.items_view() =~= imported_items(ls.take(i + 1)));
                }
            } else {
                let ghost before = history.items_view();
                let ghost old_order = history.order();
                let ghost old_entries = history.entries();
                let ghost pending = next_timestamp;
                let item = Item { id: history.next_id, command_line: line.clone(), timestamp: next_timestamp, dirty: false };
                let _ = history.add(item);
                next_timestamp = None;
                proof {
                    let n = old_order.len();
                    assert(history.order() =~= Seq::new(history.order().len(), |k: int| k as i64));
                    assert forall|k: int| 0 <= k < n implies history.entries()[old_order[k]] == old_entries[old_order[k]] by {
                        assert(old_order[k] == k as i64);
                    }
                    let prev = imported(ls.take(i as int));
                    let cur = imported(ls.take(i + 1));
                    assert(cur.0 == prev.0.push((line@, pending)));
                    let want = imported_items(ls.take(i + 1));
                    assert forall|k: int| 0 <= k < n + 1 implies #[trigger] history.items_view()[k] == want[k] by {
                        if k < n {
                            assert(history.order()[k] == old_order[k]);
                            assert(history.items_view()[k] == before[k]);
                            assert(before[k] == imported_items(ls.take(i as int))[k]);
                        } else {
                            assert(history.order()[k] == n as i64);
                        }
                    }
                    assert(history.items_view() =~= imported_items(ls.take(i + 1)));
                }
            }
            i = i + 1;
        }
        proof {
            assert(ls.take(lines@.len() as int) == ls);
        }
        history
    }
}

/// The lines that save the items `items`: each item's command line, after a `#` line with
/// its timestamp's seconds if timestamps are written and it has one; with
/// `unsaved_only`, only the items not yet saved.
pub open spec fn flushed_lines(items: Seq<ItemView>, unsaved_only: bool, write_timestamps: bool) -> Seq<Seq<char>>
    decreases items.len(),
{
    if items.len() == 0 {
        Seq::empty()
    } else {
        let prev = flushed_lines(items.drop_last(), unsaved_only, write_timestamps);
        let item = items.last();
        if unsaved_only && !item.dirty {
            prev
        } else {
            prev + match item.timestamp {
                Some(ts) => if write_timestamps { seq![seq!['#'] + text::signed_decimal_text(ts.secs as int)] } else { Seq::empty() },
                None => Seq::empty(),
            } + seq![item.command_line]
        }
    }
}

/// An item marked as saved.
pub open spec fn saved(item: ItemView) -> ItemView {
    ItemView { dirty: false, ..item }
}

impl History {
    /// Returns the lines that save the history (see [`flushed_lines`]); with
    /// `unsaved_items_only`, only the items not yet saved, which are then marked saved.
    /// Writing them to the history file is left to the caller.
    pub fn flush_lines(&mut self, unsaved_items_only: bool, write_timestamps: bool) -> (r: Vec<String>)
        requires
            old(self).wf(),
        ensures
            final(self).wf(),
            final(self).order() == old(self).order(),
            final(self).next_id() == old(self).next_id(),
            super::completion::words::texts(r@) == flushed_lines(old(self).items_view(), unsaved_items_only, write_timestamps),
            final(self).items_view() == if unsaved_items_only {
                old(self).items_view().map_values(|item: ItemView| saved(item))
            } else {
                old(self).items_view()
            },
    {
        let ghost old_entries = self.id_map@;
        let ghost ids = self.items@;
        let ghost next = self.next_id;
        let ghost items = self.items_view();
        let n = self.items.len();
        let mut lines: Vec<String> = Vec::new();
        let mut k: usize = 0;
        proof {
            assert(super::completion::words::texts(lines@) =~= flushed_lines(items.take(0), unsaved_items_only, write_timestamps));
        }
        while k < n
            invariant
                self.items@ == ids,
                self.next_id == next,
                n == ids.len(),
                ids_distinct(ids),
                forall|i: int| 0 <= i < ids.len() ==> 0 <= #[trigger] ids[i] < next,
                next >= 0,
                forall|id: ItemId| self.id_map@.contains_key(id) <==> ids.contains(id),
                forall|id: ItemId| old_entries.contains_key(id) <==> ids.contains(id),
                items == ids.map_values(|id: ItemId| old_entries[id]@),
                k <= n,
                super::completion::words::texts(lines@) == flushed_lines(items.take(k as int), unsaved_items_only, write_timestamps),
                forall|j: int| 0 <= j < n ==> #[trigger] self.id_map@[ids[j]]@ == if j < k && unsaved_items_only {
                    saved(items[j])
                } else {
                    items[j]
                },
            decreases n - k,
        {
            let id = self.items[k];
            proof {
                assert(ids[k as int] == id);
                assert(ids.contains(id));
                assert(items.take(k + 1).drop_last() == items.take(k as int));
                assert(items.take(k + 1).last() == items[k as int]);
            }
            let item = match self.id_map.get(&id) {
                Some(item) => item.duplicate(),
                None => {
                    proof {
                        assert(false);
                    }
                    return lines;
                },
            };
            proof {
                assert(item@ == items[k as int]);
            }
            if !(unsaved_items_only && !item.dirty) {
                if write_timestamps {
                    if let Some(ts) = item.timestamp {
                        let mut stamp = String::new();
                        text::push_char(&mut stamp, '#');
                        let digits = text::signed_decimal_string(ts.secs);
                        text::push_str(&mut stamp, digits.as_str());
                        lines.push(stamp);
                    }
                }
                lines.push(item.command_line.clone());
                if unsaved_items_only {
                    let mut marked = item;
                    marked.dirty = false;
                    self.id_map.insert(id, marked);
                }
            }
            proof {
                assert(super::completion::words::texts(lines@) =~= flushed_lines(items.take(k + 1), unsaved_items_only, write_timestamps));
                assert forall|j: int| 0 <= j < n implies #[trigger] self.id_map@[ids[j]]@ == if j < k + 1 && unsaved_items_only {
                    saved(items[j])
                } else {
                    items[j]
                } by {
                    if j != k {
                        assert(ids[j] != id);
                    }
                }
            }
            k = k + 1;
        }
        proof {
            assert(items.take(n as int) == items);
            if unsaved_items_only {
                assert(self.items_view() =~= items.map_values(|item: ItemView| saved(item)));
            } else {
                assert(self.items_view() =~= items);
            }
        }
        lines
    }
}

/// What importing reads back of a saved item: its command line, and its timestamp's
/// seconds if timestamps were written.
pub open spec fn reread(item: ItemView, write_timestamps: bool) -> (Seq<char>, Option<Timestamp>) {
    (item.command_line, match item.timestamp {
        Some(ts) => if write_timestamps { timestamp_of_secs(ts.secs) } else { None },
        None => None,
    })
}

/// Whether `line` is read as a timestamp comment.
pub open spec fn is_comment_line(line: Seq<char>) -> bool {
    line.len() > 0 && line[0] == '#'
}

/// Saving items and importing the saved lines gives back each item's command line, in
/// order, with the seconds of its timestamp if timestamps were written (at whole-second
/// precision, and if chrono can represent them); provided no command line starts with
/// `#`, which importing would read as a timestamp.
pub proof fn law_flush_then_import(items: Seq<ItemView>, write_timestamps: bool)
    requires
        forall|i: int| 0 <= i < items.len() ==> !is_comment_line(#[trigger] items[i].command_line),
    ensures
        imported(flushed_lines(items, false, write_timestamps)).0 == items.map_values(|it: ItemView| reread(it, write_timestamps)),
        imported(flushed_lines(items, false, write_timestamps)).1 is None,
    decreases items.len(),
{
    if items.len() > 0 {
        let prev_items = items.drop_last();
        law_flush_then_import(prev_items, write_timestamps);
        let item = items.last();
        assert(!is_comment_line(items[items.len() - 1].command_line));
        let prev = flushed_lines(prev_items, false, write_timestamps);
        let cmd = item.command_line;
        match item.timestamp {
            Some(ts) => if write_timestamps {
                let stamp = seq!['#'] + text::signed_decimal_text(ts.secs as int);
                let lines = prev + seq![stamp] + seq![cmd];
                assert(flushed_lines(items, false, write_timestamps) == lines);
                assert(lines.drop_last() =~= prev + seq![stamp]);
                assert((prev + seq![stamp]).drop_last() =~= prev);
                text::lemma_signed_decimal_text_reads_back(ts.secs as int);
                assert(stamp.drop_first() =~= text::signed_decimal_text(ts.secs as int));
                assert(imported(prev + seq![stamp]).1 == timestamp_of_secs(ts.secs));
            } else {
                let lines = prev + Seq::<Seq<char>>::empty() + seq![cmd];
                assert(flushed_lines(items, false, write_timestamps) == lines);
                assert(lines.drop_last() =~= prev);
            },
            None => {
                let lines = prev + Seq::<Seq<char>>::empty() + seq![cmd];
                assert(flushed_lines(items, false, write_timestamps) == lines);
                assert(lines.drop_last() =~= prev);
            },
        }
        assert(items.map_values(|it: ItemView| reread(it, write_timestamps)) =~= prev_items.map_values(
            |it: ItemView| reread(it, write_timestamps),
        ).push(reread(item, write_timestamps)));
    }
}

/// The items of `s` that the query includes, in order.
pub open spec fn included(q: Query, s: Seq<ItemView>) -> Seq<ItemView>
    decreases s.len(),
{
    if s.len() == 0 {
        Seq::empty()
    } else if query_includes(q, s[0]) {
        seq![s[0]] + included(q, s.drop_first())
    } else {
        included(q, s.drop_first())
    }
}

proof fn lemma_search_unlimited(q: Query, s: Seq<ItemView>, limit: int)
    requires
        limit >= s.len(),
    ensures
        search_from(q, s, limit) == included(q, s),
    decreases s.len(),
{
    if s.len() > 0 {
        lemma_search_unlimited(q, s.drop_first(), limit - 1);
        lemma_search_unlimited(q, s.drop_first(), limit);
    }
}

proof fn lemma_included_concat(q: Query, a: Seq<ItemView>, b: Seq<ItemView>)
    ensures
        included(q, a + b) == included(q, a) + included(q, b),
    decreases a.len(),
{
    if a.len() == 0 {
        assert(a + b =~= b);
        assert(Seq::<ItemView>::empty() + included(q, b) =~= included(q, b));
    } else {
        assert((a + b)[0] == a[0]);
        assert((a + b).drop_first() =~= a.drop_first() + b);
        lemma_included_concat(q, a.drop_first(), b);
        if query_includes(q, a[0]) {
            assert(seq![a[0]] + (included(q, a.drop_first()) + included(q, b)) =~= (seq![a[0]] + included(q, a.drop_first()))
                + included(q, b));
        }
    }
}

proof fn lemma_included_reverse(q: Query, s: Seq<ItemView>)
    ensures
        included(q, s.reverse()) == included(q, s).reverse(),
    decreases s.len(),
{
    if s.len() == 0 {
        assert(s.reverse() =~= s);
    } else {
        let rest = s.drop_first();
        lemma_included_reverse(q, rest);
        assert(s.reverse() =~= rest.reverse() + seq![s[0]]);
        lemma_included_concat(q, rest.reverse(), seq![s[0]]);
        assert(seq![s[0]].drop_first() =~= Seq::<ItemView>::empty());
        assert(seq![s[0]][0] == s[0]);
        assert(included(q, seq![s[0]].drop_first()) =~= Seq::<ItemView>::empty());
        if query_includes(q, s[0]) {
            assert(included(q, seq![s[0]]) =~= seq![s[0]] + Seq::<ItemView>::empty());
            assert((seq![s[0]] + included(q, rest)).reverse() =~= included(q, rest).reverse() + seq![s[0]]);
        } else {
            assert(included(q, seq![s[0]]) =~= Seq::<ItemView>::empty());
            assert(included(q, rest).reverse() + Seq::<ItemView>::empty() =~= included(q, rest).reverse());
        }
    }
}

/// A search returns at most as many items as its limit allows, each one the query
/// includes and the history holds.
pub proof fn law_search_results_match(q: Query, s: Seq<ItemView>, limit: int)
    ensures
        search_from(q, s, limit).len() <= if limit < 0 { 0 } else { limit },
        forall|i: int| 0 <= i < search_from(q, s, limit).len() ==> query_includes(q, #[trigger] search_from(q, s, limit)[i])
            && s.contains(search_from(q, s, limit)[i]),
    decreases s.len(),
{
    if s.len() > 0 && limit > 0 {
        law_search_results_match(q, s.drop_first(), limit - 1);
        law_search_results_match(q, s.drop_first(), limit);
        let r = search_from(q, s, limit);
        assert forall|i: int| 0 <= i < r.len() implies query_includes(q, #[trigger] r[i]) && s.contains(r[i]) by {
            if query_includes(q, s[0]) {
                if i == 0 {
                    assert(r[0] == s[0]);
                } else {
                    let t = search_from(q, s.drop_first(), limit - 1);
                    assert(r[i] == t[i - 1]);
                    let j = choose|j: int| 0 <= j < s.drop_first().len() && s.drop_first()[j] == t[i - 1];
                    assert(s[j + 1] == r[i]);
                }
            } else {
                let t = search_from(q, s.drop_first(), limit);
                assert(r[i] == t[i]);
                let j = choose|j: int| 0 <= j < s.drop_first().len() && s.drop_first()[j] == t[i];
                assert(s[j + 1] == r[i]);
            }
        }
    }
}

/// Without a limit, a backward search returns what a forward search returns, in reverse.
pub proof fn law_backward_search_reverses(q: Query, s: Seq<ItemView>)
    ensures
        search_from(q, in_direction(s, Direction::Backward), s.len() as int) == search_from(
            q,
            in_direction(s, Direction::Forward),
            s.len() as int,
        ).reverse(),
{
    lemma_search_unlimited(q, s.reverse(), s.len() as int);
    lemma_search_unlimited(q, s, s.len() as int);
    lemma_included_reverse(q, s);
}

/// Iterating a history gives all its items, oldest first.
pub proof fn law_iter_gives_all(s: Seq<ItemView>)
    ensures
        search_from(Query::default_spec(), s, s.len() as int) == s,
    decreases s.len(),
{
    lemma_search_unlimited(Query::default_spec(), s, s.len() as int);
    lemma_included_all(s);
}

proof fn lemma_included_all(s: Seq<ItemView>)
    ensures
        included(Query::default_spec(), s) == s,
    decreases s.len(),
{
    if s.len() > 0 {
        lemma_included_all(s.drop_first());
        assert(seq![s[0]] + s.drop_first() =~= s);
    }
}

/// Adding an item appends it, with the next id, to the items a history shows, and leaves
/// the others as they were.
pub proof fn law_add_appends(before: History, after: History, item: Item)
    requires
        before.wf(),
        before.next_id() < i64::MAX,
        after.order() == before.order().push(before.next_id() as i64),
        after.entries() == before.entries().insert(before.next_id() as i64, Item { id: before.next_id() as i64, ..item }),
    ensures
        after.items_view() == before.items_view().push(Item { id: before.next_id() as i64, ..item }@),
{
    let n = before.order().len();
    let id = before.next_id() as i64;
    assert forall|k: int| 0 <= k < n implies #[trigger] before.order()[k] != id by {
        before.lemma_wf_bounds(k);
    }
    assert(after.items_view() =~= before.items_view().push(Item { id, ..item }@));
}

impl History {
    proof fn lemma_wf_bounds(&self, k: int)
        requires
            self.wf(),
            0 <= k < self.order().len(),
        ensures
            0 <= self.order()[k] < self.next_id(),
    {
    }
}

/// What each command-line filter lets through, as text: a line passes `Prefix(p)` exactly
/// when it is `p` followed by something, `Suffix(x)` when it is something followed by `x`,
/// `Contains(c)` when it is something, `c`, and something, and `Exact(e)` when it is `e`.
pub proof fn law_filters_match_text(p: String, x: String, c: String, e: String, line: Seq<char>)
    ensures
        filter_passes(CommandLineFilter::Prefix(p), line) <==> exists|rest: Seq<char>| line == #[trigger] (p@ + rest),
        filter_passes(CommandLineFilter::Suffix(x), line) <==> exists|front: Seq<char>| line == #[trigger] (front + x@),
        filter_passes(CommandLineFilter::Contains(c), line) <==> exists|front: Seq<char>, back: Seq<char>| line
            == #[trigger] (front + c@ + back),
        filter_passes(CommandLineFilter::Exact(e), line) <==> line == e@,
{
    if filter_passes(CommandLineFilter::Prefix(p), line) {
        assert(line =~= p@ + line.skip(p@.len() as int));
    }
    if exists|rest: Seq<char>| line == #[trigger] (p@ + rest) {
        let rest = choose|rest: Seq<char>| line == #[trigger] (p@ + rest);
        assert(line.take(p@.len() as int) =~= p@);
    }
    if filter_passes(CommandLineFilter::Suffix(x), line) {
        assert(line =~= line.take(line.len() - x@.len()) + x@);
    }
    if exists|front: Seq<char>| line == #[trigger] (front + x@) {
        let front = choose|front: Seq<char>| line == #[trigger] (front + x@);
        assert(line.skip(line.len() - x@.len()) =~= x@);
    }
    if filter_passes(CommandLineFilter::Contains(c), line) {
        let i = choose|i: int| 0 <= i && i + c@.len() <= line.len() && #[trigger] line.subrange(i, i + c@.len()) == c@;
        assert(line =~= line.take(i) + c@ + line.skip(i + c@.len()));
    }
    if exists|front: Seq<char>, back: Seq<char>| line == #[trigger] (front + c@ + back) {
        let (front, back) = choose|front: Seq<char>, back: Seq<char>| line == #[trigger] (front + c@ + back);
        let i = front.len() as int;
        assert(line.subrange(i, i + c@.len()) =~= c@);
    }
}

} // verus!
