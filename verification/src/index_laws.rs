//! What the index of the media cache and the url records hold, said of the files
//! and the calls themselves.
use crate::disk_cache::entries_hold_what_is_listed;
use crate::disk_cache::entries_only;
use crate::disk_cache::evict_count_is_least;
use crate::disk_cache::files_only;
use crate::disk_cache::is_entry;
use crate::disk_cache::is_leftover;
use crate::disk_cache::leftovers;
use crate::disk_cache::lookup_in_memory;
use crate::disk_cache::lookup_on_disk;
use crate::disk_cache::modified;
use crate::disk_cache::prune_oldest;
use crate::disk_cache::pruned;
use crate::disk_cache::record_name;
use crate::disk_cache::record_to_write;
use crate::disk_cache::scanned_bytes;
use crate::disk_cache::scanned_entries;
use crate::disk_cache::scanned_size;
use crate::disk_cache::sorted_points_inside;
use crate::disk_cache::stamps;
use crate::disk_cache::stamps_point_inside;
use crate::disk_cache::survivors;
use crate::disk_cache::temp_name;
use crate::disk_cache::texts;
use crate::disk_cache::urls_view;
use crate::disk_cache::victims;
use crate::disk_cache::DiskCache;
use crate::disk_cache::RecordWrite;
use crate::disk_cache::ScannedFile;
use crate::disk_cache::UrlLookup;
use crate::disk_cache::UrlLookupView;
use crate::disk_cache::UrlStore;
use crate::disk_cache::MAX_URL_RECORDS;
use crate::disk_cache_laws::order_has_no_twins;
use crate::disk_cache_laws::picked_is_stamped;
use crate::disk_cache_laws::recorded_in_order_distinct;
use crate::disk_cache_laws::recorded_one_by_one;
use crate::disk_cache_laws::what_fits_is_kept;
use crate::giphy::GifUrls;
use crate::giphy::GifUrlsView;
use crate::media::cache_key;
use crate::media::is_valid_id;
use crate::media::Variant;
use crate::media_laws::cache_keys_stay_inside;
use crate::order::by_age;
use crate::order::by_age_sorts;
use crate::order::older;
use crate::order::oldest_first;
use crate::recency::distinct;
use crate::recency::keys;
use crate::recency::lookup;
use crate::recency::lookup_finds;
use crate::recency::lookup_of_entry;
use crate::recency::promoted;
use crate::recency::recorded;
use crate::recency::total_size;
use crate::recency::without;
use crate::text::decimal;
use crate::text::ends_in;
use vstd::prelude::*;

verus! {

/// What is found under a key is the last entry with that key, and nothing is found
/// exactly if no entry has it.
pub proof fn last_entry_is_found(entries: Seq<(Seq<char>, u64)>, key: Seq<char>, size: u64)
    ensures
        lookup(entries, key) == Some(size) <==> exists|i: int|
            {
                &&& 0 <= i < entries.len()
                &&& #[trigger] entries[i] == (key, size)
                &&& forall|j: int| i < j < entries.len() ==> (#[trigger] entries[j]).0 != key
            },
        lookup(entries, key) is None <==> forall|i: int|
            0 <= i < entries.len() ==> (#[trigger] entries[i]).0 != key,
    decreases entries.len(),
{
    lookup_finds(entries, key);
    if entries.len() > 0 {
        let rest = entries.drop_last();
        let n = rest.len() as int;
        last_entry_is_found(rest, key, size);
        if entries.last().0 == key {
            assert(entries[n].0 == key);
            if entries.last().1 == size {
                assert(entries[n] == (key, size));
            }
        } else {
            if lookup(rest, key) == Some(size) {
                let i = choose|i: int|
                    {
                        &&& 0 <= i < rest.len()
                        &&& #[trigger] rest[i] == (key, size)
                        &&& forall|j: int| i < j < rest.len() ==> (#[trigger] rest[j]).0 != key
                    };
                assert(entries[i] == (key, size));
                assert forall|j: int| i < j < entries.len() implies (#[trigger] entries[j]).0
                    != key by {
                    if j < n {
                        assert(entries[j] == rest[j]);
                    }
                }
            }
            if exists|i: int|
                {
                    &&& 0 <= i < entries.len()
                    &&& #[trigger] entries[i] == (key, size)
                    &&& forall|j: int| i < j < entries.len() ==> (#[trigger] entries[j]).0 != key
                } {
                let i = choose|i: int|
                    {
                        &&& 0 <= i < entries.len()
                        &&& #[trigger] entries[i] == (key, size)
                        &&& forall|j: int|
                            i < j < entries.len() ==> (#[trigger] entries[j]).0 != key
                    };
                assert(rest[i] == (key, size));
                assert forall|j: int| i < j < rest.len() implies (#[trigger] rest[j]).0 != key by {
                    assert(rest[j] == entries[j]);
                }
            }
        }
    }
}

/// Taking a key out leaves the entries with other keys, in their order; recording
/// it puts it behind them, with its new size; and using it puts it there with the
/// size it had, if it was there.
pub proof fn keys_move_to_the_end(entries: Seq<(Seq<char>, u64)>, key: Seq<char>, size: u64)
    ensures
        ({
            let others = entries.filter(|e: (Seq<char>, u64)| e.0 != key);
            &&& without(entries, key) == others
            &&& recorded(entries, key, size) == others.push((key, size))
            &&& lookup(entries, key) == Some(size) ==> promoted(entries, key) == others.push(
                (key, size),
            )
            &&& lookup(entries, key) is None ==> promoted(entries, key) == entries
        }),
    decreases entries.len(),
{
    reveal(Seq::filter);
    let pick = |e: (Seq<char>, u64)| e.0 != key;
    if entries.len() > 0 {
        keys_move_to_the_end(entries.drop_last(), key, size);
        assert(entries.filter(pick) == if pick(entries.last()) {
            entries.drop_last().filter(pick).push(entries.last())
        } else {
            entries.drop_last().filter(pick)
        });
    }
}

/// Sizes add up entry by entry, keys are listed entry by entry, and entries are
/// distinct exactly if no two have the same key.
pub proof fn sizes_and_keys_entry_by_entry(entries: Seq<(Seq<char>, u64)>, one: (Seq<char>, u64))
    ensures
        total_size(Seq::<(Seq<char>, u64)>::empty()) == 0,
        total_size(entries.push(one)) == total_size(entries) + one.1,
        keys(entries).len() == entries.len(),
        forall|i: int| 0 <= i < entries.len() ==> #[trigger] keys(entries)[i] == entries[i].0,
        distinct(entries) <==> forall|i: int, j: int|
            0 <= i < entries.len() && 0 <= j < entries.len() && i != j ==> (
            #[trigger] entries[i]).0 != (#[trigger] entries[j]).0,
{
    assert(entries.push(one).drop_last() =~= entries);
}

/// What survives is the end of the row of entries, what is dropped the keys before
/// it; the survivors fit, and with one entry more, or several, they would not.
pub proof fn no_more_is_dropped_than_needed(entries: Seq<(Seq<char>, u64)>, max: nat)
    ensures
        ({
            let left = survivors(entries, max);
            let cut = entries.len() - left.len();
            &&& 0 <= cut
            &&& left == entries.skip(cut)
            &&& total_size(left) <= max
            &&& forall|n: int| 0 <= n < cut ==> #[trigger] total_size(entries.skip(n)) > max
            &&& victims(entries, max).len() == cut
            &&& forall|i: int| 0 <= i < cut ==> #[trigger] victims(entries, max)[i] == entries[i].0
        }),
{
    evict_count_is_least(entries, max);
}

/// A listed file is an entry exactly if it is a file with a name that does not end
/// in `.tmp`, and a leftover exactly if it is one with a name that does. What has
/// no time counts as written at the start of 1970.
pub proof fn files_by_their_names(file: ScannedFile)
    ensures
        is_entry(file) <==> file.is_file && file.name is Some && !ends_in(
            file.name->0@,
            ".tmp"@,
        ),
        is_leftover(file) <==> file.is_file && file.name is Some && ends_in(
            file.name->0@,
            ".tmp"@,
        ),
        entries_only()(file) <==> file.is_file && file.name is Some && !ends_in(
            file.name->0@,
            ".tmp"@,
        ),
        files_only()(file) <==> file.is_file,
        file.modified is Some ==> modified(file) == file.modified->0,
        file.modified is None ==> modified(file) == 0,
{
}

/// Sizes and leftovers are taken from a listing file by file: the size of each
/// file with a name that does not end in `.tmp`, and the name of each with one that
/// does. A file is stamped with its time and its place in the listing.
pub proof fn listings_file_by_file(
    files: Seq<ScannedFile>,
    file: ScannedFile,
    pick: spec_fn(ScannedFile) -> bool,
)
    requires
        files.len() < usize::MAX,
    ensures
        scanned_size(Seq::<ScannedFile>::empty()) == 0,
        leftovers(Seq::<ScannedFile>::empty()) == Seq::<Seq<char>>::empty(),
        stamps(Seq::<ScannedFile>::empty(), pick) == Seq::<(i128, usize)>::empty(),
        file.is_file && file.name is Some && !ends_in(file.name->0@, ".tmp"@) ==> scanned_size(
            files.push(file),
        ) == scanned_size(files) + file.size && leftovers(files.push(file)) == leftovers(files),
        file.is_file && file.name is Some && ends_in(file.name->0@, ".tmp"@) ==> scanned_size(
            files.push(file),
        ) == scanned_size(files) && leftovers(files.push(file)) == leftovers(files).push(
            file.name->0@,
        ),
        !(file.is_file && file.name is Some) ==> scanned_size(files.push(file)) == scanned_size(
            files,
        ) && leftovers(files.push(file)) == leftovers(files),
        pick(file) ==> stamps(files.push(file), pick) == stamps(files, pick).push(
            (
                if file.modified is Some {
                    file.modified->0
                } else {
                    0
                },
                files.len() as usize,
            ),
        ),
        !pick(file) ==> stamps(files.push(file), pick) == stamps(files, pick),
{
    assert(files.push(file).drop_last() =~= files);
}

/// Stamps are put in order by time, and by place where the times are the same;
/// none is lost, and none is added.
pub proof fn oldest_come_first(list: &Vec<(i128, usize)>, sorted: Vec<(i128, usize)>, i: int, j: int)
    requires
        call_ensures(oldest_first, (list,), sorted),
        0 <= i < j < sorted@.len(),
    ensures
        sorted@ == by_age(list@),
        sorted@.len() == list@.len(),
        sorted@.to_multiset() == list@.to_multiset(),
        sorted@[i].0 <= sorted@[j].0,
        sorted@[i].0 == sorted@[j].0 ==> sorted@[i].1 <= sorted@[j].1,
{
    by_age_sorts(list@);
    assert(older()(sorted@[i], sorted@[j]));
}

spec fn keeps_its_name(file: ScannedFile) -> bool {
    file.is_file && file.name is Some && !ends_in(file.name->0@, ".tmp"@)
}

proof fn entries_one_by_one(files: Seq<ScannedFile>)
    requires
        files.len() <= usize::MAX,
        forall|i: int, j: int|
            0 <= i < j < files.len() && keeps_its_name(#[trigger] files[i]) && keeps_its_name(
                #[trigger] files[j],
            ) ==> files[i].name->0@ != files[j].name->0@,
    ensures
        ({
            let order = by_age(stamps(files, entries_only()));
            scanned_entries(files) == Seq::new(
                order.len(),
                |i: int| (files[order[i].1 as int].name->0@, files[order[i].1 as int].size),
            )
        }),
        distinct(scanned_entries(files)),
{
    let pick = entries_only();
    let order = by_age(stamps(files, pick));
    order_has_no_twins(files, pick);
    sorted_points_inside(files, pick);
    assert forall|a: int, b: int| 0 <= a < b < order.len() implies files[(
    #[trigger] order[a]).1 as int].name->0@ != files[(#[trigger] order[b]).1 as int].name->0@ by {
        let x = order[a].1 as int;
        let y = order[b].1 as int;
        assert(pick(files[x]) && pick(files[y]));
        assert(keeps_its_name(files[x]) && keeps_its_name(files[y]));
        if x < y {
            assert(files[x].name->0@ != files[y].name->0@);
        } else {
            assert(files[y].name->0@ != files[x].name->0@);
        }
    }
    recorded_one_by_one(files, order);
    recorded_in_order_distinct(files, order);
}

/// Opening a cache finds every file with a name that does not end in `.tmp`, with
/// its size, if the files together fit.
pub proof fn every_named_file_is_found(files: Seq<ScannedFile>, max: nat, at: int)
    requires
        files.len() <= usize::MAX,
        forall|i: int, j: int|
            0 <= i < j < files.len() ==> (#[trigger] files[i]).name is None || (
            #[trigger] files[j]).name is None || files[i].name->0@ != files[j].name->0@,
        scanned_size(files) <= max,
        0 <= at < files.len(),
        files[at].is_file,
        files[at].name is Some,
        !ends_in(files[at].name->0@, ".tmp"@),
    ensures
        lookup(survivors(scanned_entries(files), max), files[at].name->0@) == Some(
            files[at].size,
        ),
        victims(scanned_entries(files), max).len() == 0,
{
    let pick = entries_only();
    let found = stamps(files, pick);
    let order = by_age(found);
    let entries = scanned_entries(files);
    entries_one_by_one(files);
    entries_hold_what_is_listed(files);
    what_fits_is_kept(entries, max);
    assert(pick(files[at]));
    picked_is_stamped(files, pick, at);
    let m = choose|m: int| 0 <= m < found.len() && (#[trigger] found[m]).1 == at;
    by_age_sorts(found);
    found.to_multiset_ensures();
    order.to_multiset_ensures();
    assert(found.contains(found[m]));
    assert(order.to_multiset().count(found[m]) > 0);
    assert(order.contains(found[m]));
    let p = choose|p: int| 0 <= p < order.len() && order[p] == found[m];
    assert(entries[p] == (files[at].name->0@, files[at].size));
    lookup_of_entry(entries, p);
}

/// In particular both renditions of every gif are found again after a restart.
pub proof fn cached_renditions_survive_restarts(
    files: Seq<ScannedFile>,
    max: nat,
    at: int,
    id: Seq<char>,
    variant: Variant,
)
    requires
        files.len() <= usize::MAX,
        forall|i: int, j: int|
            0 <= i < j < files.len() ==> (#[trigger] files[i]).name is None || (
            #[trigger] files[j]).name is None || files[i].name->0@ != files[j].name->0@,
        scanned_size(files) <= max,
        0 <= at < files.len(),
        files[at].is_file,
        files[at].name is Some,
        is_valid_id(id),
        files[at].name->0@ == cache_key(id, variant),
    ensures
        lookup(survivors(scanned_entries(files), max), cache_key(id, variant)) == Some(
            files[at].size,
        ),
{
    cache_keys_stay_inside(id, variant);
    every_named_file_is_found(files, max, at);
}

/// The entries of a listing are its files with names that do not end in `.tmp`,
/// and nothing else, the oldest first; of two equally old the one listed first.
pub proof fn entries_are_files_in_order_of_age(files: Seq<ScannedFile>, a: int, b: int)
    requires
        files.len() <= usize::MAX,
        forall|i: int, j: int|
            0 <= i < j < files.len() ==> (#[trigger] files[i]).name is None || (
            #[trigger] files[j]).name is None || files[i].name->0@ != files[j].name->0@,
        0 <= a < b < scanned_entries(files).len(),
    ensures
        exists|i: int, j: int|
            {
                &&& 0 <= i < files.len()
                &&& 0 <= j < files.len()
                &&& (#[trigger] files[i]).is_file
                &&& (#[trigger] files[j]).is_file
                &&& files[i].name is Some
                &&& files[j].name is Some
                &&& !ends_in(files[i].name->0@, ".tmp"@)
                &&& !ends_in(files[j].name->0@, ".tmp"@)
                &&& scanned_entries(files)[a] == (files[i].name->0@, files[i].size)
                &&& scanned_entries(files)[b] == (files[j].name->0@, files[j].size)
                &&& {
                    let x = if files[i].modified is Some {
                        files[i].modified->0
                    } else {
                        0
                    };
                    let y = if files[j].modified is Some {
                        files[j].modified->0
                    } else {
                        0
                    };
                    x < y || (x == y && i < j)
                }
            },
{
    let pick = entries_only();
    let found = stamps(files, pick);
    let order = by_age(found);
    entries_one_by_one(files);
    by_age_sorts(found);
    order_has_no_twins(files, pick);
    sorted_points_inside(files, pick);
    let i = order[a].1 as int;
    let j = order[b].1 as int;
    assert(pick(files[i]));
    assert(pick(files[j]));
    assert(older()(order[a], order[b]));
    assert(order[a].1 != order[b].1);
    assert(files[i].is_file && files[j].is_file);
}

/// Every entry of a listing is a file in it, with its own size.
pub proof fn every_entry_is_a_listed_file(files: Seq<ScannedFile>, a: int)
    requires
        files.len() <= usize::MAX,
        forall|i: int, j: int|
            0 <= i < j < files.len() ==> (#[trigger] files[i]).name is None || (
            #[trigger] files[j]).name is None || files[i].name->0@ != files[j].name->0@,
        0 <= a < scanned_entries(files).len(),
    ensures
        exists|i: int|
            {
                &&& 0 <= i < files.len()
                &&& (#[trigger] files[i]).is_file
                &&& files[i].name is Some
                &&& !ends_in(files[i].name->0@, ".tmp"@)
                &&& scanned_entries(files)[a] == (files[i].name->0@, files[i].size)
            },
{
    let pick = entries_only();
    let order = by_age(stamps(files, pick));
    entries_one_by_one(files);
    sorted_points_inside(files, pick);
    let i = order[a].1 as int;
    assert(pick(files[i]));
    assert(files[i].is_file);
}

proof fn files_are_counted(files: Seq<ScannedFile>)
    ensures
        stamps(files, files_only()).len() == files.filter(|f: ScannedFile| f.is_file).len(),
    decreases files.len(),
{
    reveal(Seq::filter);
    let pick = |f: ScannedFile| f.is_file;
    if files.len() > 0 {
        files_are_counted(files.drop_last());
        assert(files_only()(files.last()) == pick(files.last()));
        assert(files.filter(pick) == if pick(files.last()) {
            files.drop_last().filter(pick).push(files.last())
        } else {
            files.drop_last().filter(pick)
        });
    }
}

/// Pruning removes files alone, each once, and as many as there are more than are
/// to be kept.
pub proof fn pruning_removes_the_surplus(files: Seq<ScannedFile>, keep: nat, a: int, b: int)
    requires
        files.len() <= usize::MAX,
    ensures
        ({
            let count = files.filter(|f: ScannedFile| f.is_file).len();
            pruned(files, keep).len() == if count <= keep {
                0
            } else {
                count - keep
            }
        }),
        0 <= a < pruned(files, keep).len() ==> pruned(files, keep)[a] < files.len()
            && files[pruned(files, keep)[a] as int].is_file,
        0 <= a < b < pruned(files, keep).len() ==> pruned(files, keep)[a] != pruned(files, keep)[b],
{
    let pick = files_only();
    files_are_counted(files);
    by_age_sorts(stamps(files, pick));
    order_has_no_twins(files, pick);
    sorted_points_inside(files, pick);
    let order = by_age(stamps(files, pick));
    if 0 <= a < pruned(files, keep).len() {
        assert(pruned(files, keep)[a] == order[a].1);
        assert(pick(files[order[a].1 as int]));
        if a < b < pruned(files, keep).len() {
            assert(pruned(files, keep)[b] == order[b].1);
            assert(order[a].1 != order[b].1);
        }
    }
}

/// A file that is pruned is older than every file that is not, or as old and
/// listed before it; and those that are pruned come in the same order.
pub proof fn pruning_goes_by_age(files: Seq<ScannedFile>, keep: nat, a: int, j: int)
    requires
        files.len() <= usize::MAX,
        0 <= a < pruned(files, keep).len(),
        0 <= j < files.len(),
        files[j].is_file,
        forall|k: int| 0 <= k <= a ==> #[trigger] pruned(files, keep)[k] != j,
    ensures
        ({
            let i = pruned(files, keep)[a] as int;
            let x = if files[i].modified is Some {
                files[i].modified->0
            } else {
                0
            };
            let y = if files[j].modified is Some {
                files[j].modified->0
            } else {
                0
            };
            x < y || (x == y && i < j)
        }),
{
    let pick = files_only();
    let found = stamps(files, pick);
    let order = by_age(found);
    by_age_sorts(found);
    order_has_no_twins(files, pick);
    stamps_point_inside(files, pick);
    assert(pruned(files, keep)[a] == order[a].1);
    assert(pick(files[j]));
    picked_is_stamped(files, pick, j);
    let m = choose|m: int| 0 <= m < found.len() && (#[trigger] found[m]).1 == j;
    found.to_multiset_ensures();
    order.to_multiset_ensures();
    assert(found.contains(found[m]));
    assert(order.to_multiset().count(found[m]) > 0);
    assert(order.contains(found[m]));
    let p = choose|p: int| 0 <= p < order.len() && order[p] == found[m];
    if p <= a {
        assert(pruned(files, keep)[p] == order[p].1);
        assert(false);
    }
    assert(older()(order[a], order[p]));
    assert(order[a].1 != order[p].1);
    assert(order[a].0 == modified(files[order[a].1 as int]));
    assert(order[p].0 == modified(files[j]));
}

/// Temporary files are named by the process, a hyphen, a number and `.tmp`; url
/// records by the id and `.json`.
pub proof fn files_are_named(pid: u32, n: u64, id: Seq<char>)
    ensures
        temp_name(pid, n) == decimal(pid as nat) + "-"@ + decimal(n as nat) + ".tmp"@,
        record_name(id) == id + ".json"@,
{
}

/// A record is written exactly if it is not in memory. What is in memory is what
/// is found; otherwise the file is read, and what it holds is found, and to be
/// held in memory; and if it holds nothing, nothing is found.
pub proof fn memory_comes_before_files(id: Seq<char>, urls: GifUrlsView)
    ensures
        record_to_write(id, true) is None,
        record_to_write(id, false) == Some(id + ".json"@),
        lookup_in_memory(id, Some(urls)) == UrlLookupView::Found(urls),
        lookup_in_memory(id, None::<GifUrlsView>) == UrlLookupView::Read(id + ".json"@),
        lookup_on_disk(Some(urls)) == UrlLookupView::Hold(urls),
        lookup_on_disk(None::<GifUrlsView>) == UrlLookupView::Unknown,
{
}

/// Lookups and lists say what they hold.
pub proof fn lookups_say_what_they_hold(urls: GifUrls, name: String, list: Seq<String>)
    ensures
        urls@.full == urls.full@,
        urls@.thumb == urls.thumb@,
        UrlLookup::Found(urls)@ == UrlLookupView::Found(urls@),
        UrlLookup::Hold(urls)@ == UrlLookupView::Hold(urls@),
        UrlLookup::Read(name)@ == UrlLookupView::Read(name@),
        UrlLookup::Unknown@ == UrlLookupView::Unknown,
        urls_view(Some(urls)) == Some(urls@),
        urls_view(None::<GifUrls>) is None,
        texts(list).len() == list.len(),
        forall|i: int| 0 <= i < list.len() ==> #[trigger] texts(list)[i] == list[i]@,
{
}

/// The cache does what is said of entries and listings here: it opens over a
/// listing, removes leftovers and then the oldest that do not fit, finds and
/// promotes, forgets, names temporary files in a row, and records and then drops
/// the least recently used that do not fit.
pub proof fn cache_keeps_its_word(
    files: &Vec<ScannedFile>,
    max_bytes: u64,
    opened: (DiskCache, Vec<String>),
    read: &mut DiskCache,
    forgotten: &mut DiskCache,
    named: &mut DiskCache,
    written: &mut DiskCache,
    key: &str,
    found: Option<u64>,
    pid: u32,
    name: String,
    size: u64,
    doomed: Vec<String>,
    sum: Option<u64>,
)
    requires
        call_ensures(DiskCache::open, (files, max_bytes), opened),
        call_ensures(DiskCache::get, (read, key), found),
        call_ensures(DiskCache::forget, (forgotten, key), ()),
        call_ensures(DiskCache::temp_path, (named, pid), name),
        call_ensures(DiskCache::commit, (written, key, size), doomed),
        call_ensures(scanned_bytes, (files,), sum),
    ensures
        opened.0.wf(),
        opened.0@.entries == survivors(scanned_entries(files@), max_bytes as nat),
        opened.0@.max_bytes == max_bytes,
        opened.0@.issued == 0,
        texts(opened.1@) == leftovers(files@) + victims(
            scanned_entries(files@),
            max_bytes as nat,
        ),
        found == lookup(old(read)@.entries, key@),
        final(read)@.entries == promoted(old(read)@.entries, key@),
        final(read)@.max_bytes == old(read)@.max_bytes,
        final(read)@.issued == old(read)@.issued,
        final(forgotten)@.entries == without(old(forgotten)@.entries, key@),
        final(forgotten)@.max_bytes == old(forgotten)@.max_bytes,
        final(forgotten)@.issued == old(forgotten)@.issued,
        name@ == temp_name(pid, old(named)@.issued),
        old(named)@.issued < u64::MAX ==> final(named)@.issued == old(named)@.issued + 1,
        final(named)@.entries == old(named)@.entries,
        final(named)@.max_bytes == old(named)@.max_bytes,
        final(written)@.entries == survivors(
            recorded(old(written)@.entries, key@, size),
            old(written)@.max_bytes as nat,
        ),
        texts(doomed@) == victims(
            recorded(old(written)@.entries, key@, size),
            old(written)@.max_bytes as nat,
        ),
        final(written)@.max_bytes == old(written)@.max_bytes,
        final(written)@.issued == old(written)@.issued,
        sum is Some <==> scanned_size(files@) <= 0xffff_ffff_ffff_ffff,
        sum is Some ==> sum->0 == scanned_size(files@),
{
}

/// The counts of the cache are those of its entries.
pub proof fn cache_counts_its_entries(cache: DiskCache, n: usize, total: u64)
    requires
        call_ensures(DiskCache::len, (&cache,), n),
        call_ensures(DiskCache::total_bytes, (&cache,), total),
    ensures
        n == cache@.entries.len(),
        total == total_size(cache@.entries),
{
}

/// The store does what is said of records here: it opens over a listing, with at
/// most a hundred thousand records left, and writes and looks up by the id.
pub proof fn store_keeps_its_word(
    files: &Vec<ScannedFile>,
    keep: usize,
    surplus: Vec<usize>,
    opened: (UrlStore, Vec<usize>),
    store: &mut UrlStore,
    id: &str,
    in_memory: bool,
    pid: u32,
    write: Option<RecordWrite>,
    held: Option<GifUrls>,
    first: UrlLookup,
    second: UrlLookup,
    path: String,
)
    requires
        call_ensures(prune_oldest, (files, keep), surplus),
        call_ensures(UrlStore::open, (files,), opened),
        call_ensures(UrlStore::put, (store, id, in_memory, pid), write),
        call_ensures(UrlStore::get, (&opened.0, id, held), first),
        call_ensures(UrlStore::read, (&opened.0, held), second),
        call_ensures(UrlStore::record_path, (&opened.0, id), path),
    ensures
        surplus@ == pruned(files@, keep as nat),
        opened.1@ == pruned(files@, 100_000),
        opened.0@ == 0,
        MAX_URL_RECORDS == 100_000,
        write is None <==> in_memory,
        write is None ==> final(store)@ == old(store)@,
        write is Some ==> {
            &&& write->0.path@ == id@ + ".json"@
            &&& write->0.tmp@ == temp_name(pid, old(store)@)
            &&& old(store)@ < u64::MAX ==> final(store)@ == old(store)@ + 1
        },
        first@ == lookup_in_memory(id@, urls_view(held)),
        second@ == lookup_on_disk(urls_view(held)),
        path@ == id@ + ".json"@,
{
}

} // verus!
