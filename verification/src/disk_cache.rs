//! The media cache on disk and the url records beside it.
//!
//! The bytes live as one file per entry in a directory; what is kept here is
//! the index over them, and what to write, rename and remove.
use crate::giphy::GifUrls;
use crate::giphy::GifUrlsView;
use crate::order::by_age;
use crate::order::oldest_first;
use crate::recency::distinct;
use crate::recency::keys;
use crate::recency::lookup;
use crate::recency::lru_capacity;
use crate::recency::lru_entries;
use crate::recency::lru_get;
use crate::recency::lru_len;
use crate::recency::lru_pop;
use crate::recency::lru_pop_lru;
use crate::recency::lru_put;
use crate::recency::lru_unbounded;
use crate::recency::promoted;
use crate::recency::recorded;
use crate::recency::total_size;
use crate::recency::without;
use crate::text::decimal;
use crate::text::decimal_text;
use crate::text::ends_in;
use crate::text::has_suffix;
use lru::LruCache;
use vstd::prelude::*;
use vstd::seq_lib::commutative_foldr;
use vstd::seq_lib::lemma_fold_right_permutation;

verus! {

/// What the listing of a directory says of one thing in it.
pub struct ScannedFile {
    /// Whether it is a file.
    pub is_file: bool,
    /// Its name, if that is text.
    pub name: Option<String>,
    /// Its size in bytes.
    pub size: u64,
    /// When it was last written, in nanoseconds after the start of 1970, if
    /// that is known.
    pub modified: Option<i128>,
}

/// How many entries to drop, from the front, until the rest holds at most `max`
/// bytes.
pub open spec fn evict_count(entries: Seq<(Seq<char>, u64)>, max: nat) -> nat
    decreases entries.len(),
{
    if entries.len() > 0 && total_size(entries) > max {
        1 + evict_count(entries.drop_first(), max)
    } else {
        0
    }
}

/// What is left of `entries` once the least recently used ones are dropped, as
/// many as it takes to hold at most `max` bytes.
pub open spec fn survivors(entries: Seq<(Seq<char>, u64)>, max: nat) -> Seq<(Seq<char>, u64)> {
    entries.skip(evict_count(entries, max) as int)
}

/// The keys that are dropped to hold at most `max` bytes, least recently used
/// first.
pub open spec fn victims(entries: Seq<(Seq<char>, u64)>, max: nat) -> Seq<Seq<char>> {
    keys(entries.take(evict_count(entries, max) as int))
}

/// The texts of a list of strings.
pub open spec fn texts(list: Seq<String>) -> Seq<Seq<char>> {
    list.map_values(|s: String| s@)
}

/// The entries of the cache and the sum of their sizes.
pub(crate) struct Index {
    lru: LruCache<String, u64>,
    total: u64,
}

impl Index {
    pub(crate) closed spec fn entries(self) -> Seq<(Seq<char>, u64)> {
        lru_entries(self.lru)
    }

    pub(crate) closed spec fn wf(self) -> bool {
        &&& distinct(lru_entries(self.lru))
        &&& lru_capacity(self.lru) == usize::MAX
        &&& self.total == total_size(lru_entries(self.lru))
    }

    proof fn wf_facts(self)
        requires
            self.wf(),
        ensures
            distinct(self.entries()),
            total_size(self.entries()) <= u64::MAX,
    {
    }

    fn new() -> (index: Index)
        ensures
            index.wf(),
            index.entries() == Seq::<(Seq<char>, u64)>::empty(),
    {
        Index { lru: lru_unbounded(), total: 0 }
    }

    fn get(&mut self, key: &str) -> (size: Option<u64>)
        requires
            old(self).wf(),
        ensures
            final(self).wf(),
            size == lookup(old(self).entries(), key@),
            final(self).entries() == promoted(old(self).entries(), key@),
    {
        proof {
            crate::recency::promoted_reorders(self.entries(), key@);
        }
        lru_get(&mut self.lru, key)
    }

    fn drop_entry(&mut self, key: &str)
        requires
            old(self).wf(),
        ensures
            final(self).wf(),
            final(self).entries() == without(old(self).entries(), key@),
    {
        proof {
            crate::recency::without_takes_out(self.entries(), key@);
        }
        if let Some(size) = lru_pop(&mut self.lru, key) {
            self.total = self.total - size;
        }
    }

    fn record(&mut self, key: String, size: u64)
        requires
            old(self).wf(),
            old(self).entries().len() < usize::MAX,
            total_size(recorded(old(self).entries(), key@, size)) <= u64::MAX,
        ensures
            final(self).wf(),
            final(self).entries() == recorded(old(self).entries(), key@, size),
    {
        proof {
            crate::recency::without_takes_out(self.entries(), key@);
            crate::recency::recorded_adds(self.entries(), key@, size);
        }
        if let Some(before) = lru_put(&mut self.lru, key, size) {
            self.total = self.total - before;
        }
        self.total = self.total + size;
    }

    fn evict_over_cap(&mut self, max_bytes: u64) -> (dropped: Vec<String>)
        requires
            old(self).wf(),
        ensures
            final(self).wf(),
            final(self).entries() == survivors(old(self).entries(), max_bytes as nat),
            texts(dropped@) == victims(old(self).entries(), max_bytes as nat),
    {
        let mut dropped: Vec<String> = Vec::new();
        let ghost all = self.entries();
        let ghost count = evict_count(all, max_bytes as nat);
        proof {
            assert(all.skip(0) =~= all);
            assert(texts(dropped@) =~= keys(all.take(0)));
        }
        while self.total > max_bytes
            invariant
                self.wf(),
                dropped.len() <= all.len(),
                self.entries() == all.skip(dropped.len() as int),
                texts(dropped@) == keys(all.take(dropped.len() as int)),
                count == evict_count(all, max_bytes as nat),
                dropped.len() + evict_count(self.entries(), max_bytes as nat) == count,
            decreases self.entries().len(),
        {
            let ghost rest = self.entries();
            let ghost n = dropped.len() as int;
            proof {
                crate::recency::total_size_front(rest);
            }
            if let Some((key, size)) = lru_pop_lru(&mut self.lru) {
                self.total = self.total - size;
                let ghost before = dropped@;
                dropped.push(key);
                proof {
                    assert(rest.drop_first() =~= all.skip(n + 1));
                    assert(all.take(n + 1) =~= all.take(n).push(all[n]));
                    assert(texts(dropped@) =~= texts(before).push(key@));
                    assert(keys(all.take(n + 1)) =~= keys(all.take(n)).push(all[n].0));
                    assert(distinct(self.entries())) by {
                        assert forall|i: int, j: int| 0 <= i < j < rest.drop_first().len() implies (
                        #[trigger] rest.drop_first()[i]).0 != (
                        #[trigger] rest.drop_first()[j]).0 by {
                            assert(rest[i + 1].0 != rest[j + 1].0);
                        }
                    }
                }
            }
        }
        proof {
            assert(self.entries() =~= survivors(all, max_bytes as nat));
        }
        dropped
    }
}

/// Whether a scanned file is left over from a write that never finished.
pub open spec fn is_leftover(file: ScannedFile) -> bool {
    file.is_file && file.name is Some && ends_in(file.name->0@, ".tmp"@)
}

/// Whether a scanned file is a cache entry.
pub open spec fn is_entry(file: ScannedFile) -> bool {
    file.is_file && file.name is Some && !ends_in(file.name->0@, ".tmp"@)
}

/// Picks the entries out of a listing.
pub open spec fn entries_only() -> spec_fn(ScannedFile) -> bool {
    |f: ScannedFile| is_entry(f)
}

/// When a scanned file was last written; the start of 1970 if that is unknown.
pub open spec fn modified(file: ScannedFile) -> i128 {
    match file.modified {
        Some(time) => time,
        None => 0,
    }
}

/// The modification time and the position of each listed file that `pick` picks.
pub open spec fn stamps(
    files: Seq<ScannedFile>,
    pick: spec_fn(ScannedFile) -> bool,
) -> Seq<(i128, usize)>
    decreases files.len(),
{
    if files.len() == 0 {
        Seq::empty()
    } else {
        let rest = stamps(files.drop_last(), pick);
        if pick(files.last()) {
            rest.push((modified(files.last()), (files.len() - 1) as usize))
        } else {
            rest
        }
    }
}

/// The names of the files left over from writes that never finished, in the
/// order of the listing.
pub open spec fn leftovers(files: Seq<ScannedFile>) -> Seq<Seq<char>>
    decreases files.len(),
{
    if files.len() == 0 {
        Seq::empty()
    } else {
        let rest = leftovers(files.drop_last());
        if is_leftover(files.last()) {
            rest.push(files.last().name->0@)
        } else {
            rest
        }
    }
}

/// The entries that come of recording the listed files in the given order.
pub open spec fn recorded_in_order(
    files: Seq<ScannedFile>,
    order: Seq<(i128, usize)>,
) -> Seq<(Seq<char>, u64)>
    decreases order.len(),
{
    if order.len() == 0 {
        Seq::empty()
    } else {
        let file = files[order.last().1 as int];
        recorded(recorded_in_order(files, order.drop_last()), file.name->0@, file.size)
    }
}

/// The sum of the sizes of the listed files that `order` points at.
spec fn size_in_order(files: Seq<ScannedFile>, order: Seq<(i128, usize)>) -> nat
    decreases order.len(),
{
    if order.len() == 0 {
        0
    } else {
        size_in_order(files, order.drop_last()) + files[order.last().1 as int].size as nat
    }
}

/// The entries of a listing, oldest first.
pub open spec fn scanned_entries(files: Seq<ScannedFile>) -> Seq<(Seq<char>, u64)> {
    recorded_in_order(files, by_age(stamps(files, entries_only())))
}

/// The sum of the sizes of the entries of a listing.
pub open spec fn scanned_size(files: Seq<ScannedFile>) -> nat
    decreases files.len(),
{
    if files.len() == 0 {
        0
    } else if is_entry(files.last()) {
        scanned_size(files.drop_last()) + files.last().size as nat
    } else {
        scanned_size(files.drop_last())
    }
}

/// Adds the size of the listed file that a stamp points at.
spec fn adding_sizes(files: Seq<ScannedFile>) -> spec_fn((i128, usize), nat) -> nat {
    |stamp: (i128, usize), sum: nat| sum + files[stamp.1 as int].size as nat
}

proof fn size_in_order_is_a_fold(files: Seq<ScannedFile>, order: Seq<(i128, usize)>, sum: nat)
    ensures
        order.fold_right(adding_sizes(files), sum) == sum + size_in_order(files, order),
    decreases order.len(),
{
    if order.len() > 0 {
        let f = adding_sizes(files);
        size_in_order_is_a_fold(files, order.drop_last(), f(order.last(), sum));
    }
}

proof fn size_in_prefix(files: Seq<ScannedFile>, order: Seq<(i128, usize)>)
    requires
        files.len() > 0,
        forall|k: int| 0 <= k < order.len() ==> (#[trigger] order[k]).1 < files.len() - 1,
    ensures
        size_in_order(files, order) == size_in_order(files.drop_last(), order),
    decreases order.len(),
{
    if order.len() > 0 {
        assert(order[order.len() - 1].1 < files.len() - 1);
        assert forall|k: int| 0 <= k < order.drop_last().len() implies (
        #[trigger] order.drop_last()[k]).1 < files.len() - 1 by {
            assert(order.drop_last()[k] == order[k]);
        }
        size_in_prefix(files, order.drop_last());
    }
}

proof fn stamped_size(files: Seq<ScannedFile>)
    requires
        files.len() <= usize::MAX,
    ensures
        size_in_order(files, stamps(files, entries_only())) == scanned_size(files),
    decreases files.len(),
{
    let pick = entries_only();
    if files.len() > 0 {
        let rest = files.drop_last();
        stamped_size(rest);
        stamps_point_inside(rest, pick);
        size_in_prefix(files, stamps(rest, pick));
        assert(pick(files.last()) == is_entry(files.last()));
        if is_entry(files.last()) {
            assert(stamps(files, pick).drop_last() =~= stamps(rest, pick));
        }
    }
}

proof fn size_is_the_same_in_any_order(files: Seq<ScannedFile>)
    requires
        files.len() <= usize::MAX,
    ensures
        size_in_order(files, by_age(stamps(files, entries_only()))) == scanned_size(files),
{
    let found = stamps(files, entries_only());
    let f = adding_sizes(files);
    stamped_size(files);
    crate::order::by_age_sorts(found);
    size_in_order_is_a_fold(files, found, 0);
    size_in_order_is_a_fold(files, by_age(found), 0);
    assert(commutative_foldr(f));
    lemma_fold_right_permutation(found, by_age(found), f, 0);
}

proof fn recorded_size(files: Seq<ScannedFile>, order: Seq<(i128, usize)>)
    ensures
        distinct(recorded_in_order(files, order)),
        total_size(recorded_in_order(files, order)) <= size_in_order(files, order),
    decreases order.len(),
{
    if order.len() > 0 {
        let before = recorded_in_order(files, order.drop_last());
        let file = files[order.last().1 as int];
        recorded_size(files, order.drop_last());
        crate::recency::without_takes_out(before, file.name->0@);
        crate::recency::recorded_adds(before, file.name->0@, file.size);
    }
}

/// The entries of a listing hold no more bytes than its files.
pub proof fn entries_hold_what_is_listed(files: Seq<ScannedFile>)
    requires
        files.len() <= usize::MAX,
    ensures
        total_size(scanned_entries(files)) <= scanned_size(files),
{
    recorded_size(files, by_age(stamps(files, entries_only())));
    size_is_the_same_in_any_order(files);
}

proof fn scanned_size_grows(files: Seq<ScannedFile>, n: int)
    requires
        0 <= n <= files.len(),
    ensures
        scanned_size(files.take(n)) <= scanned_size(files),
    decreases files.len(),
{
    if n < files.len() {
        scanned_size_grows(files.drop_last(), n);
        assert(files.drop_last().take(n) =~= files.take(n));
    } else {
        assert(files.take(n) =~= files);
    }
}

/// The sum of the sizes of the entries of a listing, if it fits in 64 bits.
pub fn scanned_bytes(files: &Vec<ScannedFile>) -> (sum: Option<u64>)
    ensures
        sum is Some <==> scanned_size(files@) <= u64::MAX,
        sum matches Some(n) ==> n == scanned_size(files@),
{
    let mut sum: u64 = 0;
    let mut i: usize = 0;
    proof {
        assert(files@.take(0) =~= Seq::<ScannedFile>::empty());
    }
    while i < files.len()
        invariant
            i <= files.len(),
            sum == scanned_size(files@.take(i as int)),
        decreases files.len() - i,
    {
        let file = &files[i];
        proof {
            let seen = files@.take(i + 1);
            assert(seen.drop_last() =~= files@.take(i as int));
            assert(seen.last() == *file);
            scanned_size_grows(files@, i + 1);
        }
        let entry = match &file.name {
            Some(name) => file.is_file && !has_suffix(name.as_str(), ".tmp"),
            None => false,
        };
        if entry {
            match sum.checked_add(file.size) {
                Some(more) => sum = more,
                None => return None,
            }
        }
        i = i + 1;
    }
    proof {
        assert(files@.take(i as int) =~= files@);
    }
    Some(sum)
}

/// The name of the temporary file that the process `pid` writes as its `n`th.
pub open spec fn temp_name(pid: u32, n: u64) -> Seq<char> {
    decimal(pid as nat) + "-"@ + decimal(n as nat) + ".tmp"@
}

fn temp_file_name(pid: u32, n: u64) -> (name: String)
    ensures
        name@ == temp_name(pid, n),
{
    let mut name = decimal_text(pid as u64);
    name.append("-");
    name.append(decimal_text(n).as_str());
    name.append(".tmp");
    name
}

/// What a media cache is: its entries from the least to the most recently used,
/// how many bytes it may hold, and how many temporary names it has given out. The
/// running total of the sizes follows from the entries.
#[verifier::ext_equal]
pub struct DiskCacheView {
    pub entries: Seq<(Seq<char>, u64)>,
    pub max_bytes: u64,
    pub issued: u64,
}

/// Byte-capped cache of media files that drops the least recently used first.
///
/// Recency survives a restart only approximately: the entries found in the
/// directory are ordered by when each was written, not by when it was last read.
pub struct DiskCache {
    max_bytes: u64,
    tmp_counter: u64,
    index: Index,
}

impl View for DiskCache {
    type V = DiskCacheView;

    closed spec fn view(&self) -> DiskCacheView {
        DiskCacheView {
            entries: self.index.entries(),
            max_bytes: self.max_bytes,
            issued: self.tmp_counter,
        }
    }
}

impl DiskCache {
    /// The cache accounts for every entry once, and holds no more bytes than it
    /// may.
    pub closed spec fn wf(self) -> bool {
        &&& self.index.wf()
        &&& total_size(self.index.entries()) <= self.max_bytes
    }

    /// What `wf` says of the entries.
    pub proof fn wf_facts(self)
        requires
            self.wf(),
        ensures
            distinct(self@.entries),
            total_size(self@.entries) <= self@.max_bytes,
    {
    }

    /// Opens a cache over the listing of its directory. Gives the cache, and the
    /// names of the files to remove: first what unfinished writes left behind,
    /// then the oldest entries, as many as it takes to hold at most `max_bytes`.
    pub fn open(files: &Vec<ScannedFile>, max_bytes: u64) -> (r: (DiskCache, Vec<String>))
        requires
            files@.len() < usize::MAX,
            scanned_size(files@) <= u64::MAX,
        ensures
            r.0.wf(),
            r.0@ == (DiskCacheView {
                entries: survivors(scanned_entries(files@), max_bytes as nat),
                max_bytes,
                issued: 0,
            }),
            texts(r.1@) == leftovers(files@) + victims(scanned_entries(files@), max_bytes as nat),
    {
        let mut doomed: Vec<String> = Vec::new();
        let mut found: Vec<(i128, usize)> = Vec::new();
        let ghost pick = entries_only();
        let mut i: usize = 0;
        proof {
            assert(files@.take(0) =~= Seq::<ScannedFile>::empty());
            assert(texts(doomed@) =~= leftovers(files@.take(0)));
        }
        while i < files.len()
            invariant
                i <= files.len(),
                pick == entries_only(),
                texts(doomed@) == leftovers(files@.take(i as int)),
                found@ == stamps(files@.take(i as int), pick),
            decreases files.len() - i,
        {
            let file = &files[i];
            let ghost seen = files@.take(i + 1);
            proof {
                assert(seen.drop_last() =~= files@.take(i as int));
                assert(seen.last() == *file);
                assert(pick(*file) == is_entry(*file));
            }
            if file.is_file {
                if let Some(name) = &file.name {
                    if has_suffix(name.as_str(), ".tmp") {
                        let ghost before = doomed@;
                        doomed.push(name.clone());
                        proof {
                            assert(texts(doomed@) =~= texts(before).push(name@));
                        }
                    } else {
                        let time: i128 = match file.modified {
                            Some(time) => time,
                            None => 0,
                        };
                        found.push((time, i));
                    }
                }
            }
            i = i + 1;
        }
        let order = oldest_first(&found);
        proof {
            assert(files@.take(i as int) =~= files@);
            crate::order::by_age_sorts(found@);
            stamps_point_inside(files@, pick);
            sorted_points_inside(files@, pick);
            size_is_the_same_in_any_order(files@);
        }
        let mut index = Index::new();
        let mut j: usize = 0;
        proof {
            assert(order@.take(0) =~= Seq::<(i128, usize)>::empty());
        }
        while j < order.len()
            invariant
                j <= order.len(),
                pick == entries_only(),
                order@ == by_age(stamps(files@, pick)),
                order@.len() <= files@.len(),
                files@.len() < usize::MAX,
                forall|k: int|
                    0 <= k < order@.len() ==> (#[trigger] order@[k]).1 < files@.len() && is_entry(
                        files@[order@[k].1 as int],
                    ),
                size_in_order(files@, order@) <= u64::MAX,
                index.wf(),
                index.entries() == recorded_in_order(files@, order@.take(j as int)),
                index.entries().len() <= j,
                total_size(index.entries()) <= size_in_order(files@, order@.take(j as int)),
            decreases order.len() - j,
        {
            let at: usize = order[j].1;
            let ghost so_far = order@.take(j + 1);
            proof {
                assert(order@[j as int].1 < files@.len());
                assert(so_far.drop_last() =~= order@.take(j as int));
                assert(so_far.last() == order@[j as int]);
                size_in_order_grows(files@, order@, j + 1);
                index.wf_facts();
            }
            if let Some(name) = &files[at].name {
                proof {
                    crate::recency::without_takes_out(index.entries(), name@);
                    crate::recency::recorded_adds(index.entries(), name@, files@[at as int].size);
                }
                index.record(name.clone(), files[at].size);
            }
            j = j + 1;
        }
        proof {
            assert(order@.take(j as int) =~= order@);
            evict_count_is_least(index.entries(), max_bytes as nat);
        }
        let ghost removed = doomed@;
        let mut dropped = index.evict_over_cap(max_bytes);
        let ghost evicted = dropped@;
        doomed.append(&mut dropped);
        proof {
            assert(texts(doomed@) =~= texts(removed) + texts(evicted));
        }
        (DiskCache { max_bytes, tmp_counter: 0, index }, doomed)
    }

    /// The size of a cached entry, which becomes the most recently used.
    pub fn get(&mut self, key: &str) -> (size: Option<u64>)
        requires
            old(self).wf(),
        ensures
            final(self).wf(),
            size == lookup(old(self)@.entries, key@),
            final(self)@ == (DiskCacheView {
                entries: promoted(old(self)@.entries, key@),
                ..old(self)@
            }),
    {
        proof {
            self.index.wf_facts();
            crate::recency::promoted_reorders(self.index.entries(), key@);
        }
        self.index.get(key)
    }

    /// Forgets an entry whose file has vanished.
    pub fn forget(&mut self, key: &str)
        requires
            old(self).wf(),
        ensures
            final(self).wf(),
            final(self)@ == (DiskCacheView {
                entries: without(old(self)@.entries, key@),
                ..old(self)@
            }),
    {
        proof {
            self.index.wf_facts();
            crate::recency::without_takes_out(self.index.entries(), key@);
        }
        self.index.drop_entry(key);
    }

    /// The name of a file to write to before it becomes an entry. It lies in the
    /// directory of the cache, so that the final rename is atomic.
    pub fn temp_path(&mut self, pid: u32) -> (name: String)
        requires
            old(self).wf(),
        ensures
            final(self).wf(),
            name@ == temp_name(pid, old(self)@.issued),
            final(self)@ == (DiskCacheView {
                issued: old(self)@.issued.wrapping_add(1),
                ..old(self)@
            }),
    {
        let n = self.tmp_counter;
        self.tmp_counter = n.wrapping_add(1);
        temp_file_name(pid, n)
    }

    /// Records a file of `size` bytes, just renamed to `key`, as the most
    /// recently used entry. Gives the keys of the entries to remove, least
    /// recently used first, as many as it takes to hold no more than the cache
    /// may.
    pub fn commit(&mut self, key: &str, size: u64) -> (doomed: Vec<String>)
        requires
            old(self).wf(),
            old(self)@.entries.len() < usize::MAX,
            total_size(recorded(old(self)@.entries, key@, size)) <= u64::MAX,
        ensures
            final(self).wf(),
            texts(doomed@) == victims(
                recorded(old(self)@.entries, key@, size),
                old(self)@.max_bytes as nat,
            ),
            final(self)@ == (DiskCacheView {
                entries: survivors(
                    recorded(old(self)@.entries, key@, size),
                    old(self)@.max_bytes as nat,
                ),
                ..old(self)@
            }),
    {
        self.index.record(key.to_owned(), size);
        proof {
            evict_count_is_least(self.index.entries(), self.max_bytes as nat);
        }
        self.index.evict_over_cap(self.max_bytes)
    }

    /// How many entries there are.
    pub fn len(&self) -> (n: usize)
        requires
            self.wf(),
        ensures
            n == self@.entries.len(),
    {
        lru_len(&self.index.lru)
    }

    /// How many bytes the entries hold together.
    pub fn total_bytes(&self) -> (total: u64)
        requires
            self.wf(),
        ensures
            total == total_size(self@.entries),
    {
        self.index.total
    }
}

/// Eviction drops the least recently used entries, no more of them than needed:
/// what is left fits, and one entry fewer dropped would not.
pub proof fn evict_count_is_least(entries: Seq<(Seq<char>, u64)>, max: nat)
    ensures
        evict_count(entries, max) <= entries.len(),
        total_size(survivors(entries, max)) <= max,
        forall|n: int|
            0 <= n < evict_count(entries, max) ==> #[trigger] total_size(entries.skip(n)) > max,
    decreases entries.len(),
{
    if entries.len() > 0 && total_size(entries) > max {
        let rest = entries.drop_first();
        evict_count_is_least(rest, max);
        assert(rest.skip(evict_count(rest, max) as int) =~= survivors(entries, max));
        assert forall|n: int| 0 <= n < evict_count(entries, max) implies #[trigger] total_size(
            entries.skip(n),
        ) > max by {
            if n > 0 {
                assert(rest.skip(n - 1) =~= entries.skip(n));
            } else {
                assert(entries.skip(0) =~= entries);
            }
        }
    } else {
        assert(entries.skip(0) =~= entries);
    }
}

/// Every stamp is that of a listed file that was picked, and the stamps are in
/// the order of the listing.
pub proof fn stamps_point_inside(files: Seq<ScannedFile>, pick: spec_fn(ScannedFile) -> bool)
    requires
        files.len() <= usize::MAX,
    ensures
        stamps(files, pick).len() <= files.len(),
        forall|k: int|
            0 <= k < stamps(files, pick).len() ==> {
                let at = (#[trigger] stamps(files, pick)[k]).1 as int;
                &&& at < files.len()
                &&& pick(files[at])
                &&& stamps(files, pick)[k].0 == modified(files[at])
            },
        forall|j: int, k: int|
            0 <= j < k < stamps(files, pick).len() ==> (#[trigger] stamps(files, pick)[j]).1 < (
            #[trigger] stamps(files, pick)[k]).1,
    decreases files.len(),
{
    if files.len() > 0 {
        let rest = files.drop_last();
        stamps_point_inside(rest, pick);
        assert forall|k: int| 0 <= k < stamps(rest, pick).len() implies files[(
        #[trigger] stamps(rest, pick)[k]).1 as int] == rest[stamps(rest, pick)[k].1 as int] by {}
    }
}

/// Every stamp is that of a listed file that was picked, whatever the order.
pub proof fn sorted_points_inside(files: Seq<ScannedFile>, pick: spec_fn(ScannedFile) -> bool)
    requires
        files.len() <= usize::MAX,
    ensures
        forall|k: int|
            0 <= k < by_age(stamps(files, pick)).len() ==> {
                let at = (#[trigger] by_age(stamps(files, pick))[k]).1 as int;
                &&& at < files.len()
                &&& pick(files[at])
            },
{
    let found = stamps(files, pick);
    let sorted = by_age(found);
    stamps_point_inside(files, pick);
    crate::order::by_age_sorts(found);
    found.to_multiset_ensures();
    sorted.to_multiset_ensures();
    assert forall|k: int| 0 <= k < sorted.len() implies {
        let at = (#[trigger] sorted[k]).1 as int;
        &&& at < files.len()
        &&& pick(files[at])
    } by {
        assert(sorted.contains(sorted[k]));
        assert(sorted.to_multiset().count(sorted[k]) > 0);
        assert(found.contains(sorted[k]));
        let m = choose|m: int| 0 <= m < found.len() && found[m] == sorted[k];
        assert(found[m] == sorted[k]);
    }
}

proof fn size_in_order_grows(files: Seq<ScannedFile>, order: Seq<(i128, usize)>, n: int)
    requires
        0 <= n <= order.len(),
    ensures
        size_in_order(files, order.take(n)) <= size_in_order(files, order),
    decreases order.len(),
{
    if n < order.len() {
        size_in_order_grows(files, order.drop_last(), n);
        assert(order.drop_last().take(n) =~= order.take(n));
    } else {
        assert(order.take(n) =~= order);
    }
}

/// How many url records are kept when the store is opened.
pub const MAX_URL_RECORDS: usize = 100_000;

/// Picks the files out of a listing.
pub open spec fn files_only() -> spec_fn(ScannedFile) -> bool {
    |f: ScannedFile| f.is_file
}

/// The positions in a listing of the oldest files, as many as there are more than
/// `keep`.
pub open spec fn pruned(files: Seq<ScannedFile>, keep: nat) -> Seq<usize> {
    let found = by_age(stamps(files, files_only()));
    if found.len() <= keep {
        Seq::empty()
    } else {
        found.take(found.len() - keep).map_values(|stamp: (i128, usize)| stamp.1)
    }
}

/// Finds which files of a directory to remove so that `keep` are left: the oldest
/// by their time of modification. Gives their positions in the listing.
pub fn prune_oldest(files: &Vec<ScannedFile>, keep: usize) -> (doomed: Vec<usize>)
    ensures
        doomed@ == pruned(files@, keep as nat),
{
    let mut found: Vec<(i128, usize)> = Vec::new();
    let ghost pick = files_only();
    let mut i: usize = 0;
    proof {
        assert(files@.take(0) =~= Seq::<ScannedFile>::empty());
    }
    while i < files.len()
        invariant
            i <= files.len(),
            pick == files_only(),
            found@ == stamps(files@.take(i as int), pick),
        decreases files.len() - i,
    {
        let file = &files[i];
        proof {
            let seen = files@.take(i + 1);
            assert(seen.drop_last() =~= files@.take(i as int));
            assert(seen.last() == *file);
        }
        if file.is_file {
            let time: i128 = match file.modified {
                Some(time) => time,
                None => 0,
            };
            found.push((time, i));
        }
        i = i + 1;
    }
    proof {
        assert(files@.take(i as int) =~= files@);
        crate::order::by_age_sorts(found@);
    }
    let mut doomed: Vec<usize> = Vec::new();
    if found.len() <= keep {
        return doomed;
    }
    let order = oldest_first(&found);
    let surplus: usize = order.len() - keep;
    let mut j: usize = 0;
    while j < surplus
        invariant
            j <= surplus <= order.len(),
            doomed@ == order@.take(j as int).map_values(|stamp: (i128, usize)| stamp.1),
        decreases surplus - j,
    {
        doomed.push(order[j].1);
        proof {
            assert(doomed@ =~= order@.take(j + 1).map_values(|stamp: (i128, usize)| stamp.1));
        }
        j = j + 1;
    }
    doomed
}

/// The name of the file that holds the url record of a gif.
pub open spec fn record_name(id: Seq<char>) -> Seq<char> {
    id + ".json"@
}

/// How to write a url record: the content goes to `tmp`, which is then renamed to
/// `path`.
pub struct RecordWrite {
    pub tmp: String,
    pub path: String,
}

/// How the search for the urls of a gif goes on.
pub enum UrlLookup {
    /// They are these.
    Found(GifUrls),
    /// They are these, and are to be held in memory from now on.
    Hold(GifUrls),
    /// They are in the file of this name, if there is one.
    Read(String),
    /// There are none.
    Unknown,
}

/// What `UrlLookup` says.
#[verifier::ext_equal]
pub enum UrlLookupView {
    Found(GifUrlsView),
    Hold(GifUrlsView),
    Read(Seq<char>),
    Unknown,
}

impl View for UrlLookup {
    type V = UrlLookupView;

    open spec fn view(&self) -> UrlLookupView {
        match self {
            UrlLookup::Found(urls) => UrlLookupView::Found(urls@),
            UrlLookup::Hold(urls) => UrlLookupView::Hold(urls@),
            UrlLookup::Read(name) => UrlLookupView::Read(name@),
            UrlLookup::Unknown => UrlLookupView::Unknown,
        }
    }
}

/// What optional urls say.
pub open spec fn urls_view(urls: Option<GifUrls>) -> Option<GifUrlsView> {
    match urls {
        Some(u) => Some(u@),
        None => None,
    }
}

/// The name of the file to write to record the urls of a gif: there is none if
/// they are in memory.
pub open spec fn record_to_write(id: Seq<char>, in_memory: bool) -> Option<Seq<char>> {
    if in_memory {
        None
    } else {
        Some(record_name(id))
    }
}

/// Where the urls of a gif are, given what memory holds of them.
pub open spec fn lookup_in_memory(id: Seq<char>, in_memory: Option<GifUrlsView>) -> UrlLookupView {
    match in_memory {
        Some(urls) => UrlLookupView::Found(urls),
        None => UrlLookupView::Read(record_name(id)),
    }
}

/// What comes of reading a record, given what its file holds.
pub open spec fn lookup_on_disk(content: Option<GifUrlsView>) -> UrlLookupView {
    match content {
        Some(urls) => UrlLookupView::Hold(urls),
        None => UrlLookupView::Unknown,
    }
}

/// Persistent records of where gifs are on Giphy's CDN, with those used lately
/// held in memory. A record is written once per id, when a search finds it.
pub struct UrlStore {
    tmp_counter: u64,
}

impl View for UrlStore {
    type V = u64;

    /// How many temporary names the store has given out.
    closed spec fn view(&self) -> u64 {
        self.tmp_counter
    }
}

impl UrlStore {
    /// Opens a store over the listing of its directory. Gives the store, and the
    /// positions in the listing of the files to remove.
    pub fn open(files: &Vec<ScannedFile>) -> (r: (UrlStore, Vec<usize>))
        ensures
            r.0@ == 0,
            r.1@ == pruned(files@, MAX_URL_RECORDS as nat),
    {
        (UrlStore { tmp_counter: 0 }, prune_oldest(files, MAX_URL_RECORDS))
    }

    /// The name of the file that holds the record of a gif.
    pub fn record_path(&self, id: &str) -> (name: String)
        ensures
            name@ == record_name(id@),
    {
        let mut name = id.to_owned();
        name.append(".json");
        name
    }

    /// Says how to record the urls of a gif, given whether they are in memory: if
    /// they are, there is nothing to write. They are to be held in memory once
    /// they are written.
    pub fn put(&mut self, id: &str, in_memory: bool, pid: u32) -> (write: Option<RecordWrite>)
        ensures
            write is Some <==> record_to_write(id@, in_memory) is Some,
            write is None ==> final(self)@ == old(self)@,
            write matches Some(w) ==> record_to_write(id@, in_memory) == Some(w.path@) && w.tmp@
                == temp_name(pid, old(self)@) && final(self)@ == old(self)@.wrapping_add(1),
    {
        if in_memory {
            return None;
        }
        let n = self.tmp_counter;
        self.tmp_counter = n.wrapping_add(1);
        Some(RecordWrite { tmp: temp_file_name(pid, n), path: self.record_path(id) })
    }

    /// Says where to find the urls of a gif, given what memory holds of them.
    pub fn get(&self, id: &str, in_memory: Option<GifUrls>) -> (lookup: UrlLookup)
        ensures
            lookup@ == lookup_in_memory(id@, urls_view(in_memory)),
    {
        match in_memory {
            Some(urls) => UrlLookup::Found(urls),
            None => UrlLookup::Read(self.record_path(id)),
        }
    }

    /// Says what comes of reading the record of a gif, given what its file holds:
    /// nothing if it cannot be read or is no record.
    pub fn read(&self, content: Option<GifUrls>) -> (lookup: UrlLookup)
        ensures
            lookup@ == lookup_on_disk(urls_view(content)),
    {
        match content {
            Some(urls) => UrlLookup::Hold(urls),
            None => UrlLookup::Unknown,
        }
    }
}

} // verus!
