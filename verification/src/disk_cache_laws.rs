//! What holds of the media cache across several calls.
use crate::disk_cache::entries_only;
use crate::disk_cache::evict_count;
use crate::disk_cache::evict_count_is_least;
use crate::disk_cache::files_only;
use crate::disk_cache::is_entry;
use crate::disk_cache::is_leftover;
use crate::disk_cache::leftovers;
use crate::disk_cache::lookup_in_memory;
use crate::disk_cache::lookup_on_disk;
use crate::disk_cache::modified;
use crate::disk_cache::pruned;
use crate::disk_cache::record_name;
use crate::disk_cache::record_to_write;
use crate::disk_cache::recorded_in_order;
use crate::disk_cache::scanned_entries;
use crate::disk_cache::sorted_points_inside;
use crate::disk_cache::stamps;
use crate::disk_cache::stamps_point_inside;
use crate::disk_cache::survivors;
use crate::disk_cache::temp_name;
use crate::disk_cache::victims;
use crate::disk_cache::ScannedFile;
use crate::disk_cache::UrlLookupView;
use crate::giphy::GifUrlsView;
use crate::media::is_id_char;
use crate::media::is_valid_id;
use crate::media_laws::stays_inside;
use crate::order::by_age;
use crate::order::by_age_sorts;
use crate::order::older;
use crate::recency::distinct;
use crate::recency::keys;
use crate::recency::lookup;
use crate::recency::lookup_finds;
use crate::recency::lookup_of_entry;
use crate::recency::promoted;
use crate::recency::promoted_reorders;
use crate::recency::recorded;
use crate::recency::recorded_adds;
use crate::recency::total_size;
use crate::recency::without;
use crate::recency::without_takes_out;
use crate::text::decimal;
use crate::text::decimal_is_injective;
use crate::text::decimal_reads_back;
use crate::text::ends_in;
use crate::text::is_digit;
use vstd::prelude::*;

verus! {

proof fn total_of_last(entries: Seq<(Seq<char>, u64)>, n: int)
    requires
        0 <= n < entries.len(),
    ensures
        total_size(entries.skip(n)) >= entries.last().1,
        n == entries.len() - 1 ==> total_size(entries.skip(n)) == entries.last().1,
{
    let tail = entries.skip(n);
    assert(tail.last() == entries.last());
    if n == entries.len() - 1 {
        assert(tail.drop_last() =~= Seq::<(Seq<char>, u64)>::empty());
        assert(total_size(tail.drop_last()) == 0);
    }
}

/// A file that fits into the cache by itself is there after it is committed,
/// with its size.
pub proof fn committed_is_found(
    entries: Seq<(Seq<char>, u64)>,
    key: Seq<char>,
    size: u64,
    max: nat,
)
    requires
        distinct(entries),
        size <= max,
    ensures
        lookup(survivors(recorded(entries, key, size), max), key) == Some(size),
{
    let all = recorded(entries, key, size);
    evict_count_is_least(all, max);
    let n = evict_count(all, max) as int;
    if n == all.len() {
        total_of_last(all, n - 1);
        assert(total_size(all.skip(n - 1)) > max);
        assert(false);
    }
    assert(survivors(all, max).last() == all.last());
}

/// A file larger than the whole cache empties it, and is itself the last to be
/// removed.
pub proof fn oversized_is_not_kept(
    entries: Seq<(Seq<char>, u64)>,
    key: Seq<char>,
    size: u64,
    max: nat,
)
    requires
        size > max,
    ensures
        survivors(recorded(entries, key, size), max).len() == 0,
        victims(recorded(entries, key, size), max) == keys(recorded(entries, key, size)),
        victims(recorded(entries, key, size), max).last() == key,
{
    let all = recorded(entries, key, size);
    evict_count_is_least(all, max);
    let n = evict_count(all, max) as int;
    if n < all.len() {
        total_of_last(all, n);
        assert(false);
    }
    assert(all.take(n) =~= all);
}

/// Entries that fit are all kept, in their order, and none is removed.
pub proof fn what_fits_is_kept(entries: Seq<(Seq<char>, u64)>, max: nat)
    requires
        total_size(entries) <= max,
    ensures
        survivors(entries, max) == entries,
        victims(entries, max).len() == 0,
{
    assert(entries.skip(0) =~= entries);
}

/// Every entry is either removed or kept, and every entry removed was used less
/// recently than every entry kept.
pub proof fn least_recent_go_first(entries: Seq<(Seq<char>, u64)>, max: nat)
    ensures
        victims(entries, max) + keys(survivors(entries, max)) == keys(entries),
{
    evict_count_is_least(entries, max);
    assert(victims(entries, max) + keys(survivors(entries, max)) =~= keys(entries));
}

/// Committing a key again counts it once: the cache is as if it had only ever
/// been committed the second time.
pub proof fn overwriting_counts_once(
    entries: Seq<(Seq<char>, u64)>,
    key: Seq<char>,
    first: u64,
    second: u64,
)
    requires
        distinct(entries),
    ensures
        recorded(recorded(entries, key, first), key, second) == recorded(entries, key, second),
        total_size(recorded(recorded(entries, key, first), key, second)) == total_size(
            without(entries, key),
        ) + second,
{
    let kept = without(entries, key);
    let once = recorded(entries, key, first);
    assert(once.drop_last() =~= kept);
    without_takes_out(entries, key);
    without_takes_out(kept, key);
    assert(without(once, key) == without(kept, key));
    recorded_adds(entries, key, second);
}

/// An entry that was just read outlives every entry that was not: when the next
/// file committed pushes it out, nothing but that file can be left.
pub proof fn read_entry_goes_last(
    entries: Seq<(Seq<char>, u64)>,
    key: Seq<char>,
    other: Seq<char>,
    size: u64,
    max: nat,
)
    requires
        distinct(entries),
        lookup(entries, key) is Some,
        other != key,
        lookup(survivors(recorded(promoted(entries, key), other, size), max), key) is None,
    ensures
        survivors(recorded(promoted(entries, key), other, size), max).len() <= 1,
{
    let read = promoted(entries, key);
    promoted_reorders(entries, key);
    let all = recorded(read, other, size);
    recorded_adds(read, other, size);
    evict_count_is_least(all, max);
    let n = evict_count(all, max) as int;
    let left = survivors(all, max);
    let kept = without(read, other);
    assert(read.last().0 == key);
    assert(kept == without(read.drop_last(), other).push(read.last()));
    assert(all[all.len() - 2] == read.last());
    if left.len() > 1 {
        assert(left[left.len() - 2] == all[all.len() - 2]);
        lookup_finds(left, key);
        assert(false);
    }
}

/// A forgotten entry is gone, and nothing else is.
pub proof fn forgotten_is_gone(entries: Seq<(Seq<char>, u64)>, key: Seq<char>)
    requires
        distinct(entries),
    ensures
        lookup(without(entries, key), key) is None,
        forall|k: Seq<char>|
            k != key ==> #[trigger] lookup(without(entries, key), k) == lookup(entries, k),
{
    without_takes_out(entries, key);
}

proof fn same_lookups_same_total(a: Seq<(Seq<char>, u64)>, b: Seq<(Seq<char>, u64)>)
    requires
        distinct(a),
        distinct(b),
        forall|k: Seq<char>| #[trigger] lookup(a, k) == lookup(b, k),
    ensures
        total_size(a) == total_size(b),
    decreases a.len(),
{
    if a.len() == 0 {
        if b.len() > 0 {
            lookup_of_entry(b, 0);
            assert(lookup(a, b[0].0) is None);
        }
    } else {
        let key = a.last().0;
        assert(lookup(a, key) == lookup(b, key));
        without_takes_out(a, key);
        without_takes_out(b, key);
        let x = without(a, key);
        let y = without(b, key);
        assert forall|k: Seq<char>| #[trigger] lookup(x, k) == lookup(y, k) by {
            if k != key {
                assert(lookup(a, k) == lookup(b, k));
            }
        }
        assert(x.len() < a.len()) by {
            without_takes_out(a.drop_last(), key);
        }
        same_lookups_same_total(x, y);
    }
}

/// Whether no two entries of a listing have the same name.
pub open spec fn names_differ(files: Seq<ScannedFile>) -> bool {
    forall|i: int, j: int|
        0 <= i < j < files.len() && is_entry(#[trigger] files[i]) && is_entry(#[trigger] files[j])
            ==> files[i].name->0@ != files[j].name->0@
}

/// Whether a listing shows exactly the files of `entries`.
pub open spec fn lists(files: Seq<ScannedFile>, entries: Seq<(Seq<char>, u64)>) -> bool {
    &&& names_differ(files)
    &&& forall|i: int|
        0 <= i < files.len() && is_entry(#[trigger] files[i]) ==> lookup(
            entries,
            files[i].name->0@,
        ) == Some(files[i].size)
    &&& forall|k: Seq<char>| #[trigger]
        lookup(entries, k) is Some ==> exists|i: int|
            0 <= i < files.len() && is_entry(#[trigger] files[i]) && files[i].name->0@ == k
}

pub(crate) proof fn recorded_in_order_distinct(files: Seq<ScannedFile>, order: Seq<(i128, usize)>)
    ensures
        distinct(recorded_in_order(files, order)),
    decreases order.len(),
{
    if order.len() > 0 {
        let file = files[order.last().1 as int];
        recorded_in_order_distinct(files, order.drop_last());
        recorded_adds(recorded_in_order(files, order.drop_last()), file.name->0@, file.size);
    }
}

proof fn recorded_in_order_finds(
    files: Seq<ScannedFile>,
    order: Seq<(i128, usize)>,
    entries: Seq<(Seq<char>, u64)>,
    key: Seq<char>,
)
    requires
        forall|i: int|
            0 <= i < order.len() ==> {
                let at = (#[trigger] order[i]).1 as int;
                &&& at < files.len()
                &&& lookup(entries, files[at].name->0@) == Some(files[at].size)
            },
    ensures
        ({
            let found = lookup(recorded_in_order(files, order), key);
            if exists|i: int|
                0 <= i < order.len() && files[(#[trigger] order[i]).1 as int].name->0@ == key {
                found == lookup(entries, key)
            } else {
                found is None
            }
        }),
    decreases order.len(),
{
    if order.len() > 0 {
        let rest = order.drop_last();
        let file = files[order.last().1 as int];
        recorded_in_order_distinct(files, rest);
        recorded_adds(recorded_in_order(files, rest), file.name->0@, file.size);
        assert forall|i: int| 0 <= i < rest.len() implies {
            let at = (#[trigger] rest[i]).1 as int;
            &&& at < files.len()
            &&& lookup(entries, files[at].name->0@) == Some(files[at].size)
        } by {
            assert(rest[i] == order[i]);
        }
        recorded_in_order_finds(files, rest, entries, key);
        assert(order[order.len() - 1] == order.last());
        if exists|i: int|
            0 <= i < rest.len() && files[(#[trigger] rest[i]).1 as int].name->0@ == key {
            let i = choose|i: int|
                0 <= i < rest.len() && files[(#[trigger] rest[i]).1 as int].name->0@ == key;
            assert(rest[i] == order[i]);
        } else if file.name->0@ != key {
            assert forall|i: int| 0 <= i < order.len() implies files[(
            #[trigger] order[i]).1 as int].name->0@ != key by {
                if i < rest.len() {
                    assert(rest[i] == order[i]);
                }
            }
        }
    }
}

pub(crate) proof fn picked_is_stamped(
    files: Seq<ScannedFile>,
    pick: spec_fn(ScannedFile) -> bool,
    at: int,
)
    requires
        0 <= at < files.len() <= usize::MAX,
        pick(files[at]),
    ensures
        exists|k: int|
            0 <= k < stamps(files, pick).len() && (#[trigger] stamps(files, pick)[k]).1 == at,
    decreases files.len(),
{
    let rest = files.drop_last();
    if at < rest.len() {
        picked_is_stamped(rest, pick, at);
        let k = choose|k: int|
            0 <= k < stamps(rest, pick).len() && (#[trigger] stamps(rest, pick)[k]).1 == at;
        assert(stamps(files, pick)[k] == stamps(rest, pick)[k]);
    } else {
        let k = stamps(rest, pick).len() as int;
        assert(stamps(files, pick)[k].1 == at);
    }
}

/// The index survives a restart: opened over a listing of exactly the files of
/// its entries, and whatever unfinished writes left beside them, a cache that
/// may hold as much finds every key as before.
pub proof fn restart_finds_every_entry(
    files: Seq<ScannedFile>,
    entries: Seq<(Seq<char>, u64)>,
    max: nat,
)
    requires
        distinct(entries),
        total_size(entries) <= max,
        files.len() <= usize::MAX,
        lists(files, entries),
    ensures
        forall|k: Seq<char>| #[trigger]
            lookup(survivors(scanned_entries(files), max), k) == lookup(entries, k),
        victims(scanned_entries(files), max).len() == 0,
{
    let pick = entries_only();
    let found = stamps(files, pick);
    let order = by_age(found);
    sorted_points_inside(files, pick);
    assert forall|i: int| 0 <= i < order.len() implies {
        let at = (#[trigger] order[i]).1 as int;
        &&& at < files.len()
        &&& lookup(entries, files[at].name->0@) == Some(files[at].size)
    } by {
        let at = order[i].1 as int;
        assert(pick(files[at]));
        assert(is_entry(files[at]));
    }
    let scanned = scanned_entries(files);
    assert forall|k: Seq<char>| #[trigger] lookup(scanned, k) == lookup(entries, k) by {
        recorded_in_order_finds(files, order, entries, k);
        if lookup(entries, k) is Some {
            let at = choose|i: int|
                0 <= i < files.len() && is_entry(#[trigger] files[i]) && files[i].name->0@ == k;
            picked_is_stamped(files, pick, at);
            let m = choose|m: int| 0 <= m < found.len() && (#[trigger] found[m]).1 == at;
            by_age_sorts(found);
            found.to_multiset_ensures();
            order.to_multiset_ensures();
            assert(found.contains(found[m]));
            assert(order.to_multiset().count(found[m]) > 0);
            assert(order.contains(found[m]));
            let p = choose|p: int| 0 <= p < order.len() && order[p] == found[m];
            assert(files[order[p].1 as int].name->0@ == k);
        }
    }
    recorded_in_order_distinct(files, order);
    same_lookups_same_total(scanned, entries);
    what_fits_is_kept(scanned, max);
}

/// Temporary files are told from entries by their names: one that is still there
/// at the next start is the leftover of a write that never finished.
pub proof fn temporary_is_never_an_entry(pid: u32, n: u64, file: ScannedFile)
    requires
        file.is_file,
        file.name is Some,
        file.name->0@ == temp_name(pid, n),
    ensures
        is_leftover(file),
        !is_entry(file),
{
    let name = temp_name(pid, n);
    assert(name.skip(name.len() - ".tmp"@.len()) =~= ".tmp"@);
}

pub(crate) proof fn recorded_is_listed(files: Seq<ScannedFile>, order: Seq<(i128, usize)>, key: Seq<char>)
    requires
        lookup(recorded_in_order(files, order), key) is Some,
    ensures
        exists|i: int|
            0 <= i < order.len() && files[(#[trigger] order[i]).1 as int].name->0@ == key,
    decreases order.len(),
{
    let rest = order.drop_last();
    let file = files[order.last().1 as int];
    recorded_in_order_distinct(files, rest);
    recorded_adds(recorded_in_order(files, rest), file.name->0@, file.size);
    if file.name->0@ == key {
        assert(files[order[order.len() - 1].1 as int].name->0@ == key);
    } else {
        recorded_is_listed(files, rest, key);
        let i = choose|i: int|
            0 <= i < rest.len() && files[(#[trigger] rest[i]).1 as int].name->0@ == key;
        assert(order[i] == rest[i]);
    }
}

proof fn leftover_is_listed(files: Seq<ScannedFile>, at: int)
    requires
        0 <= at < files.len(),
        is_leftover(files[at]),
    ensures
        leftovers(files).contains(files[at].name->0@),
    decreases files.len(),
{
    let rest = files.drop_last();
    let name = files[at].name->0@;
    if at < rest.len() {
        leftover_is_listed(rest, at);
        let k = choose|k: int| 0 <= k < leftovers(rest).len() && leftovers(rest)[k] == name;
        assert(leftovers(files)[k] == name);
    } else {
        assert(leftovers(files)[leftovers(files).len() - 1] == name);
    }
}

/// What an unfinished write left behind is removed when the cache is opened, and
/// never looks like an entry.
pub proof fn leftovers_are_removed(files: Seq<ScannedFile>, at: int, max: nat)
    requires
        0 <= at < files.len() <= usize::MAX,
        is_leftover(files[at]),
    ensures
        (leftovers(files) + victims(scanned_entries(files), max)).contains(files[at].name->0@),
        lookup(scanned_entries(files), files[at].name->0@) is None,
{
    let name = files[at].name->0@;
    let removed = leftovers(files) + victims(scanned_entries(files), max);
    leftover_is_listed(files, at);
    let k = choose|k: int| 0 <= k < leftovers(files).len() && leftovers(files)[k] == name;
    assert(removed[k] == name);
    let pick = entries_only();
    let order = by_age(stamps(files, pick));
    if lookup(scanned_entries(files), name) is Some {
        recorded_is_listed(files, order, name);
        let i = choose|i: int|
            0 <= i < order.len() && files[(#[trigger] order[i]).1 as int].name->0@ == name;
        sorted_points_inside(files, pick);
        assert(pick(files[order[i].1 as int]));
        assert(is_entry(files[order[i].1 as int]));
        assert(false);
    }
}

/// Two temporary names are the same only if they were made by the same process
/// and with the same number.
pub proof fn temporary_names_differ(pid1: u32, n1: u64, pid2: u32, n2: u64)
    requires
        temp_name(pid1, n1) == temp_name(pid2, n2),
    ensures
        pid1 == pid2,
        n1 == n2,
{
    reveal_strlit("-");
    reveal_strlit(".tmp");
    let p1 = decimal(pid1 as nat);
    let p2 = decimal(pid2 as nat);
    let m1 = decimal(n1 as nat);
    let m2 = decimal(n2 as nat);
    decimal_reads_back(pid1 as nat);
    decimal_reads_back(pid2 as nat);
    let a = temp_name(pid1, n1);
    let b = temp_name(pid2, n2);
    assert(a[p1.len() as int] == '-');
    assert(b[p2.len() as int] == '-');
    if p1.len() < p2.len() {
        assert(b[p1.len() as int] == p2[p1.len() as int]);
        assert(is_digit(p2[p1.len() as int]));
    } else if p2.len() < p1.len() {
        assert(a[p2.len() as int] == p1[p2.len() as int]);
        assert(is_digit(p1[p2.len() as int]));
    }
    assert(p1 =~= a.take(p1.len() as int));
    assert(p2 =~= b.take(p2.len() as int));
    decimal_is_injective(pid1 as nat, pid2 as nat);
    assert(m1 =~= a.subrange(p1.len() as int + 1, a.len() - 4));
    assert(m2 =~= b.subrange(p2.len() as int + 1, b.len() - 4));
    decimal_is_injective(n1 as nat, n2 as nat);
}

pub(crate) proof fn order_has_no_twins(files: Seq<ScannedFile>, pick: spec_fn(ScannedFile) -> bool)
    requires
        files.len() <= usize::MAX,
    ensures
        forall|i: int, j: int|
            0 <= i < j < by_age(stamps(files, pick)).len() ==> (#[trigger] by_age(
                stamps(files, pick),
            )[i]).1 != (#[trigger] by_age(stamps(files, pick))[j]).1,
        forall|i: int|
            0 <= i < by_age(stamps(files, pick)).len() ==> {
                let stamp = #[trigger] by_age(stamps(files, pick))[i];
                stamp.1 < files.len() && stamp.0 == modified(files[stamp.1 as int])
            },
{
    let found = stamps(files, pick);
    let order = by_age(found);
    stamps_point_inside(files, pick);
    by_age_sorts(found);
    found.to_multiset_ensures();
    order.to_multiset_ensures();
    assert forall|i: int| 0 <= i < order.len() implies {
        let stamp = #[trigger] order[i];
        stamp.1 < files.len() && stamp.0 == modified(files[stamp.1 as int])
    } by {
        assert(order.contains(order[i]));
        assert(order.to_multiset().count(order[i]) > 0);
        assert(found.to_multiset().count(order[i]) > 0);
        assert(found.contains(order[i]));
        let m = choose|m: int| 0 <= m < found.len() && found[m] == order[i];
        assert(found[m] == order[i]);
    }
    assert(found.no_duplicates());
    found.lemma_multiset_has_no_duplicates();
    assert forall|x: (i128, usize)| order.to_multiset().contains(x) implies
        order.to_multiset().count(x) == 1 by {
        assert(found.to_multiset().contains(x));
    }
    order.lemma_multiset_has_no_duplicates_conv();
    assert forall|i: int, j: int| 0 <= i < j < order.len() implies (#[trigger] order[i]).1 != (
    #[trigger] order[j]).1 by {
        let a = order[i];
        let b = order[j];
        if a.1 == b.1 {
            assert(a.0 == b.0);
            assert(a == b);
        }
    }
}

pub(crate) proof fn recorded_one_by_one(files: Seq<ScannedFile>, order: Seq<(i128, usize)>)
    requires
        forall|i: int, j: int|
            0 <= i < j < order.len() ==> files[(#[trigger] order[i]).1 as int].name->0@ != files[(
            #[trigger] order[j]).1 as int].name->0@,
    ensures
        recorded_in_order(files, order) == Seq::new(
            order.len(),
            |i: int| (files[order[i].1 as int].name->0@, files[order[i].1 as int].size),
        ),
    decreases order.len(),
{
    let listed = Seq::new(
        order.len(),
        |i: int| (files[order[i].1 as int].name->0@, files[order[i].1 as int].size),
    );
    if order.len() > 0 {
        let rest = order.drop_last();
        assert forall|i: int, j: int| 0 <= i < j < rest.len() implies files[(
        #[trigger] rest[i]).1 as int].name->0@ != files[(#[trigger] rest[j]).1 as int].name->0@ by {
            assert(rest[i] == order[i]);
            assert(rest[j] == order[j]);
        }
        recorded_one_by_one(files, rest);
        let before = recorded_in_order(files, rest);
        let file = files[order.last().1 as int];
        recorded_in_order_distinct(files, rest);
        lookup_finds(before, file.name->0@);
        assert forall|i: int| 0 <= i < before.len() implies (#[trigger] before[i]).0
            != file.name->0@ by {
            assert(rest[i] == order[i]);
            assert(order[order.len() - 1] == order.last());
        }
        without_takes_out(before, file.name->0@);
        assert(recorded_in_order(files, order) =~= listed);
    } else {
        assert(recorded_in_order(files, order) =~= listed);
    }
}

/// A restart that finds too much removes the oldest: every entry it removes was
/// written no later than every entry it keeps.
pub proof fn restart_removes_the_oldest(files: Seq<ScannedFile>, max: nat, i: int, j: int)
    requires
        files.len() <= usize::MAX,
        names_differ(files),
        0 <= i < files.len(),
        0 <= j < files.len(),
        is_entry(files[i]),
        is_entry(files[j]),
        victims(scanned_entries(files), max).contains(files[i].name->0@),
        lookup(survivors(scanned_entries(files), max), files[j].name->0@) is Some,
    ensures
        modified(files[i]) <= modified(files[j]),
{
    let pick = entries_only();
    let order = by_age(stamps(files, pick));
    order_has_no_twins(files, pick);
    sorted_points_inside(files, pick);
    by_age_sorts(stamps(files, pick));
    assert forall|a: int, b: int| 0 <= a < b < order.len() implies files[(
    #[trigger] order[a]).1 as int].name->0@ != files[(#[trigger] order[b]).1 as int].name->0@ by {
        let x = order[a].1 as int;
        let y = order[b].1 as int;
        assert(pick(files[x]) && pick(files[y]));
        assert(is_entry(files[x]) && is_entry(files[y]));
        if x < y {
            assert(files[x].name->0@ != files[y].name->0@);
        } else {
            assert(files[y].name->0@ != files[x].name->0@);
        }
    }
    recorded_one_by_one(files, order);
    let entries = scanned_entries(files);
    let n = evict_count(entries, max) as int;
    evict_count_is_least(entries, max);
    let dropped = victims(entries, max);
    let a = choose|a: int| 0 <= a < dropped.len() && dropped[a] == files[i].name->0@;
    assert(dropped[a] == entries[a].0);
    let left = survivors(entries, max);
    lookup_finds(left, files[j].name->0@);
    let size = lookup(left, files[j].name->0@)->0;
    let b = choose|b: int|
        0 <= b < left.len() && #[trigger] left[b] == (files[j].name->0@, size);
    assert(left[b] == entries[n + b]);
    let x = order[a].1 as int;
    let y = order[n + b].1 as int;
    assert(pick(files[x]) && pick(files[y]));
    assert(is_entry(files[x]) && is_entry(files[y]));
    assert(x == i) by {
        if x < i {
            assert(files[x].name->0@ != files[i].name->0@);
        } else if i < x {
            assert(files[i].name->0@ != files[x].name->0@);
        }
    }
    assert(y == j) by {
        if y < j {
            assert(files[y].name->0@ != files[j].name->0@);
        } else if j < y {
            assert(files[j].name->0@ != files[y].name->0@);
        }
    }
    assert(older()(order[a], order[n + b]));
}

/// Pruning leaves as many files as are to be kept, if there are that many, and
/// removes the oldest: every file it removes was written no later than every
/// file it keeps.
pub proof fn pruning_keeps_the_youngest(files: Seq<ScannedFile>, keep: nat, i: int, j: int)
    requires
        files.len() <= usize::MAX,
    ensures
        pruned(files, keep).len() == if stamps(files, files_only()).len() <= keep {
            0
        } else {
            stamps(files, files_only()).len() - keep
        },
        0 <= i < files.len() && 0 <= j < files.len() && pruned(files, keep).contains(i as usize)
            && files[j].is_file && !pruned(files, keep).contains(j as usize) ==> modified(files[i])
            <= modified(files[j]),
{
    let pick = files_only();
    let found = stamps(files, pick);
    let order = by_age(found);
    by_age_sorts(found);
    order_has_no_twins(files, pick);
    let gone = pruned(files, keep);
    if 0 <= i < files.len() && 0 <= j < files.len() && gone.contains(i as usize)
        && files[j].is_file && !gone.contains(j as usize) {
        let cut = order.len() - keep;
        let a = choose|a: int| 0 <= a < gone.len() && gone[a] == i as usize;
        assert(order[a].1 == i as usize);
        picked_is_stamped(files, pick, j);
        let m = choose|m: int| 0 <= m < found.len() && (#[trigger] found[m]).1 == j;
        found.to_multiset_ensures();
        order.to_multiset_ensures();
        assert(found.contains(found[m]));
        assert(order.to_multiset().count(found[m]) > 0);
        assert(order.contains(found[m]));
        let b = choose|b: int| 0 <= b < order.len() && order[b] == found[m];
        if b < cut {
            assert(gone[b] == j as usize);
            assert(false);
        }
        assert(older()(order[a], order[b]));
        assert(order[a].0 == modified(files[i]));
        assert(order[b].0 == modified(files[j]));
    }
}

/// Two gifs have their records in the same file only if they have the same id.
pub proof fn record_names_differ(a: Seq<char>, b: Seq<char>)
    requires
        record_name(a) == record_name(b),
    ensures
        a == b,
{
    reveal_strlit(".json");
    let suffix = ".json"@;
    assert(record_name(a) == a + suffix);
    assert(record_name(b) == b + suffix);
    assert((a + suffix).len() == a.len() + suffix.len());
    assert((b + suffix).len() == b.len() + suffix.len());
    assert(a =~= record_name(a).take(a.len() as int));
    assert(b =~= record_name(b).take(b.len() as int));
}

/// The record of a valid id lies in the directory of the store, and can never be
/// taken for a temporary file.
pub proof fn record_names_stay_inside(id: Seq<char>)
    requires
        is_valid_id(id),
    ensures
        stays_inside(record_name(id)),
        !ends_in(record_name(id), ".tmp"@),
{
    reveal_strlit(".json");
    reveal_strlit(".tmp");
    let name = record_name(id);
    assert(name.first() == id[0]);
    assert(is_id_char(id[0]));
    assert forall|i: int| 0 <= i < name.len() implies #[trigger] name[i] != '/' && name[i] != '\\'
        && name[i] != ':' && name[i] != '\0' by {
        if i < id.len() {
            assert(name[i] == id[i]);
            assert(is_id_char(id[i]));
        } else {
            assert(name[i] == ".json"@[i - id.len()]);
        }
    }
    if ends_in(name, ".tmp"@) {
        assert(name.skip(name.len() - 4).last() == name.last());
        assert(false);
    }
}

/// The url records: what the files of the store hold, by name, and what memory
/// holds, by id.
#[verifier::ext_equal]
pub struct UrlRecords {
    pub disk: Map<Seq<char>, GifUrlsView>,
    pub memory: Map<Seq<char>, GifUrlsView>,
}

/// Something that happens to the url records.
pub enum UrlEvent {
    /// The urls of the gif are put into the store.
    Put(Seq<char>, GifUrlsView),
    /// The urls of the gif are got from the store.
    Get(Seq<char>),
    /// Memory makes room, and lets the urls of the gif go.
    LetGo(Seq<char>),
    /// The process ends, and another one opens the store.
    Restart,
}

/// What a map holds under a key.
pub open spec fn held(map: Map<Seq<char>, GifUrlsView>, key: Seq<char>) -> Option<GifUrlsView> {
    if map.contains_key(key) {
        Some(map[key])
    } else {
        None
    }
}

/// What the store finds for an id: what memory holds of it, or else what its file
/// holds.
pub open spec fn found_for(records: UrlRecords, id: Seq<char>) -> UrlLookupView {
    match lookup_in_memory(id, held(records.memory, id)) {
        UrlLookupView::Read(name) => lookup_on_disk(held(records.disk, name)),
        found => found,
    }
}

/// What the store gives for an id.
pub open spec fn urls_for(records: UrlRecords, id: Seq<char>) -> Option<GifUrlsView> {
    match found_for(records, id) {
        UrlLookupView::Found(urls) => Some(urls),
        UrlLookupView::Hold(urls) => Some(urls),
        _ => None,
    }
}

/// The url records after an event: what is to be written is on disk, and what
/// was written, or is to be held, is in memory.
pub open spec fn records_next(records: UrlRecords, event: UrlEvent) -> UrlRecords {
    match event {
        UrlEvent::Put(id, urls) => match record_to_write(id, records.memory.contains_key(id)) {
            Some(name) => UrlRecords {
                disk: records.disk.insert(name, urls),
                memory: records.memory.insert(id, urls),
            },
            None => records,
        },
        UrlEvent::Get(id) => match found_for(records, id) {
            UrlLookupView::Hold(urls) => UrlRecords {
                memory: records.memory.insert(id, urls),
                ..records
            },
            _ => records,
        },
        UrlEvent::LetGo(id) => UrlRecords { memory: records.memory.remove(id), ..records },
        UrlEvent::Restart => UrlRecords { memory: Map::empty(), ..records },
    }
}

/// The url records after a row of events.
pub open spec fn records_after(records: UrlRecords, events: Seq<UrlEvent>) -> UrlRecords
    decreases events.len(),
{
    if events.len() == 0 {
        records
    } else {
        records_next(records_after(records, events.drop_last()), events.last())
    }
}

/// Whether all that memory holds is also on disk.
pub open spec fn backed(records: UrlRecords) -> bool {
    forall|id: Seq<char>| #[trigger]
        records.memory.contains_key(id) ==> records.disk.contains_key(record_name(id))
            && records.disk[record_name(id)] == records.memory[id]
}

/// Memory never holds anything that is not on disk. So it makes no difference to
/// what the store gives for an id whether memory holds it, has let it go, or is
/// that of another process.
pub proof fn memory_makes_no_difference(
    records: UrlRecords,
    events: Seq<UrlEvent>,
    id: Seq<char>,
)
    requires
        backed(records),
    ensures
        backed(records_after(records, events)),
        urls_for(records_after(records, events), id) == urls_for(
            records_next(records_after(records, events), UrlEvent::Restart),
            id,
        ),
    decreases events.len(),
{
    if events.len() > 0 {
        let rest = events.drop_last();
        memory_makes_no_difference(records, rest, id);
        let before = records_after(records, rest);
        let after = records_after(records, events);
        assert forall|k: Seq<char>| #[trigger] after.memory.contains_key(k) implies
            after.disk.contains_key(record_name(k)) && after.disk[record_name(k)]
            == after.memory[k] by {
            match events.last() {
                UrlEvent::Put(new, urls) => {
                    if k != new {
                        assert(before.memory.contains_key(k));
                        if record_name(k) == record_name(new) {
                            record_names_differ(k, new);
                        }
                    }
                },
                UrlEvent::Get(new) => {
                    if k != new {
                        assert(before.memory.contains_key(k));
                    }
                },
                UrlEvent::LetGo(old_id) => {
                    assert(before.memory.contains_key(k));
                },
                UrlEvent::Restart => {},
            }
        }
    }
}

/// What is put into the store for a gif that it does not know is what it gives
/// for that gif from then on, through restarts and whatever is put for others.
pub proof fn records_read_back(
    records: UrlRecords,
    id: Seq<char>,
    urls: GifUrlsView,
    events: Seq<UrlEvent>,
)
    requires
        backed(records),
        urls_for(records, id) is None,
        forall|i: int|
            0 <= i < events.len() ==> !((#[trigger] events[i]) is Put && events[i]->Put_0 == id),
    ensures
        urls_for(
            records_after(records_next(records, UrlEvent::Put(id, urls)), events),
            id,
        ) == Some(urls),
    decreases events.len(),
{
    let start = records_next(records, UrlEvent::Put(id, urls));
    assert(backed(start)) by {
        memory_makes_no_difference(records, seq![UrlEvent::Put(id, urls)], id);
        assert(seq![UrlEvent::Put(id, urls)].drop_last() =~= Seq::<UrlEvent>::empty());
        assert(records_after(records, Seq::<UrlEvent>::empty()) == records);
    }
    if events.len() > 0 {
        let rest = events.drop_last();
        assert forall|i: int| 0 <= i < rest.len() implies !((#[trigger] rest[i]) is Put
            && rest[i]->Put_0 == id) by {
            assert(rest[i] == events[i]);
        }
        records_read_back(records, id, urls, rest);
        let before = records_after(start, rest);
        memory_makes_no_difference(start, rest, id);
        assert(before.disk.contains_key(record_name(id)));
        assert(before.disk[record_name(id)] == urls);
        match events.last() {
            UrlEvent::Put(new, _) => {
                assert(events[events.len() - 1] == events.last());
                if record_name(new) == record_name(id) {
                    record_names_differ(new, id);
                }
            },
            _ => {},
        }
    }
}

/// The store knows nothing of a gif that was never put into it.
pub proof fn unknown_stays_unknown(records: UrlRecords, id: Seq<char>, events: Seq<UrlEvent>)
    requires
        urls_for(records, id) is None,
        forall|i: int|
            0 <= i < events.len() ==> !((#[trigger] events[i]) is Put && events[i]->Put_0 == id),
    ensures
        urls_for(records_after(records, events), id) is None,
    decreases events.len(),
{
    if events.len() > 0 {
        let rest = events.drop_last();
        assert forall|i: int| 0 <= i < rest.len() implies !((#[trigger] rest[i]) is Put
            && rest[i]->Put_0 == id) by {
            assert(rest[i] == events[i]);
        }
        unknown_stays_unknown(records, id, rest);
        assert(events[events.len() - 1] == events.last());
        match events.last() {
            UrlEvent::Put(new, _) => {
                if record_name(new) == record_name(id) {
                    record_names_differ(new, id);
                }
            },
            _ => {},
        }
    }
}

} // verus!
