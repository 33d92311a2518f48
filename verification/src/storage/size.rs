//! How much space files take.
use crate::text::make::{cat2, cat4, prefix_all, prefix_step};
use crate::text::number::{decimal, show};
use std::collections::{HashMap, HashSet};
use vstd::prelude::*;
use vstd::std_specs::hash::group_hash_axioms;

verus! {

broadcast use group_hash_axioms;

/// A file that was found under some path.
#[derive(Clone, Copy, Debug, PartialEq, Eq, Structural)]
pub struct FileRecord {
    pub device: u64,
    pub inode: u64,
    /// How many paths lead to the file.
    pub links: u64,
    /// How many blocks of 512 bytes it takes.
    pub blocks: u64,
}

/// The same file under two paths.
pub open spec fn same_file(a: FileRecord, b: FileRecord) -> bool {
    a.device == b.device && a.inode == b.inode
}

/// The bytes that a file takes.
pub open spec fn bytes_taken(f: FileRecord) -> u64 {
    if f.blocks * 512 > u64::MAX {
        u64::MAX
    } else {
        (f.blocks * 512) as u64
    }
}

/// A sum that stops at the largest number.
pub open spec fn capped_sum(a: u64, b: u64) -> u64 {
    if a + b > u64::MAX {
        u64::MAX
    } else {
        (a + b) as u64
    }
}

/// Whether a list holds a file.
pub open spec fn holds_file(list: Seq<FileRecord>, f: FileRecord) -> bool {
    exists|i: int| 0 <= i < list.len() && same_file(#[trigger] list[i], f)
}

/// The bytes that some files take, each file once.
pub open spec fn space_taken(list: Seq<FileRecord>) -> u64
    decreases list.len(),
{
    if list.len() == 0 {
        0
    } else {
        let before = space_taken(list.drop_last());
        if holds_file(list.drop_last(), list.last()) {
            before
        } else {
            capped_sum(before, bytes_taken(list.last()))
        }
    }
}

/// How often a list holds a file.
pub open spec fn times_held(list: Seq<FileRecord>, f: FileRecord) -> nat
    decreases list.len(),
{
    if list.len() == 0 {
        0
    } else {
        times_held(list.drop_last(), f) + if same_file(list.last(), f) {
            1nat
        } else {
            0nat
        }
    }
}

/// The bytes that become free when the first `n` paths of a list, out of all that are
/// removed, are looked at: a file is freed once no path leads to it any more.
pub open spec fn space_freed(all: Seq<FileRecord>, n: nat) -> u64
    decreases n,
{
    if n == 0 {
        0
    } else {
        let before = space_freed(all, (n - 1) as nat);
        let f = all[n - 1];
        if holds_file(all.take(n - 1), f) || times_held(all, f) < f.links {
            before
        } else {
            capped_sum(before, bytes_taken(f))
        }
    }
}

/// A file as one number.
pub open spec fn file_key(f: FileRecord) -> u128 {
    (f.device * 0x1_0000_0000_0000_0000 + f.inode) as u128
}

fn key_of_file(f: &FileRecord) -> (r: u128)
    ensures
        r == file_key(*f),
{
    f.device as u128 * 0x1_0000_0000_0000_0000 + f.inode as u128
}

proof fn keys_tell_files_apart(a: FileRecord, b: FileRecord)
    ensures
        file_key(a) == file_key(b) <==> same_file(a, b),
{
}

fn bytes_of_file(f: &FileRecord) -> (r: u64)
    ensures
        r == bytes_taken(*f),
{
    if f.blocks > u64::MAX / 512 {
        u64::MAX
    } else {
        f.blocks * 512
    }
}

/// Computes [`space_taken`].
pub fn size_many(files: &Vec<FileRecord>) -> (r: u64)
    ensures
        r == space_taken(files@),
{
    let mut seen: HashSet<u128> = HashSet::new();
    let mut total: u64 = 0;
    for i in 0..files.len()
        invariant
            total == space_taken(files@.take(i as int)),
            forall|k: u128|
                #[trigger]
                seen@.contains(k) <==> exists|j: int|
                    0 <= j < i && file_key(#[trigger] files@[j]) == k,
    {
        proof {
            prefix_step(files@, i as int);
            let before = files@.take(i as int);
            let f = files@[i as int];
            assert(holds_file(before, f) <==> seen@.contains(file_key(f))) by {
                if holds_file(before, f) {
                    let j = choose|j: int| 0 <= j < before.len() && same_file(before[j], f);
                    keys_tell_files_apart(files@[j], f);
                }
                if seen@.contains(file_key(f)) {
                    let j = choose|j: int|
                        0 <= j < i && file_key(#[trigger] files@[j]) == file_key(f);
                    keys_tell_files_apart(files@[j], f);
                    assert(same_file(before[j], f));
                }
            }
        }
        let key = key_of_file(&files[i]);
        if !seen.contains(&key) {
            seen.insert(key);
            total = total.saturating_add(bytes_of_file(&files[i]));
        }
        assert forall|k: u128| #[trigger]
            seen@.contains(k) <==> exists|j: int|
                0 <= j < i + 1 && file_key(#[trigger] files@[j]) == k by {
            if k == key {
                assert(file_key(files@[i as int]) == k);
            }
        }
    }
    proof {
        prefix_all(files@);
    }
    total
}

/// How often a list holds the file of a number.
pub open spec fn key_count(list: Seq<FileRecord>, k: u128) -> nat
    decreases list.len(),
{
    if list.len() == 0 {
        0
    } else {
        key_count(list.drop_last(), k) + if file_key(list.last()) == k {
            1nat
        } else {
            0nat
        }
    }
}

proof fn counting_by_key(list: Seq<FileRecord>, f: FileRecord)
    ensures
        key_count(list, file_key(f)) == times_held(list, f),
    decreases list.len(),
{
    if list.len() > 0 {
        counting_by_key(list.drop_last(), f);
        keys_tell_files_apart(list.last(), f);
    }
}

proof fn counts_are_bounded(list: Seq<FileRecord>, k: u128)
    ensures
        key_count(list, k) <= list.len(),
    decreases list.len(),
{
    if list.len() > 0 {
        counts_are_bounded(list.drop_last(), k);
    }
}

/// The number that a table has for a key.
pub open spec fn table_count(table: Map<u128, u64>, k: u128) -> nat {
    if table.dom().contains(k) {
        table[k] as nat
    } else {
        0
    }
}

/// A table counts the files of a list.
pub open spec fn table_counts(table: Map<u128, u64>, list: Seq<FileRecord>) -> bool {
    forall|k: u128| #[trigger] key_count(list, k) == table_count(table, k)
}

fn count_paths(files: &Vec<FileRecord>) -> (r: HashMap<u128, u64>)
    ensures
        table_counts(r@, files@),
{
    let mut counts: HashMap<u128, u64> = HashMap::new();
    for i in 0..files.len()
        invariant
            table_counts(counts@, files@.take(i as int)),
    {
        proof {
            prefix_step(files@, i as int);
        }
        let key = key_of_file(&files[i]);
        let ghost before = files@.take(i as int);
        let ghost table = counts@;
        proof {
            counts_are_bounded(before, key);
        }
        let known: u64 = match counts.get(&key) {
            Some(n) => *n,
            None => 0,
        };
        assert(known == key_count(before, key));
        counts.insert(key, known + 1);
        assert forall|k: u128| #[trigger]
            key_count(files@.take(i + 1), k) == table_count(counts@, k) by {
            assert(key_count(before, k) == table_count(table, k));
        }
    }
    proof {
        prefix_all(files@);
    }
    counts
}

/// Computes [`space_freed`] for all paths.
pub fn fully_reclaimed_size(files: &Vec<FileRecord>) -> (r: u64)
    ensures
        r == space_freed(files@, files@.len()),
{
    let counts = count_paths(files);
    let mut seen: HashSet<u128> = HashSet::new();
    let mut total: u64 = 0;
    for i in 0..files.len()
        invariant
            total == space_freed(files@, i as nat),
            table_counts(counts@, files@),
            forall|k: u128|
                #[trigger]
                seen@.contains(k) <==> exists|j: int|
                    0 <= j < i && file_key(#[trigger] files@[j]) == k,
    {
        let ghost f = files@[i as int];
        proof {
            let before = files@.take(i as int);
            counting_by_key(files@, f);
            assert(holds_file(before, f) <==> seen@.contains(file_key(f))) by {
                if holds_file(before, f) {
                    let j = choose|j: int| 0 <= j < before.len() && same_file(before[j], f);
                    keys_tell_files_apart(files@[j], f);
                }
                if seen@.contains(file_key(f)) {
                    let j = choose|j: int|
                        0 <= j < i && file_key(#[trigger] files@[j]) == file_key(f);
                    keys_tell_files_apart(files@[j], f);
                    assert(same_file(before[j], f));
                }
            }
        }
        let key = key_of_file(&files[i]);
        if !seen.contains(&key) {
            seen.insert(key);
            let held: u64 = match counts.get(&key) {
                Some(n) => *n,
                None => 0,
            };
            assert(held == times_held(files@, f));
            if held >= files[i].links {
                total = total.saturating_add(bytes_of_file(&files[i]));
            }
        }
        assert forall|k: u128| #[trigger]
            seen@.contains(k) <==> exists|j: int|
                0 <= j < i + 1 && file_key(#[trigger] files@[j]) == k by {
            if k == key {
                assert(file_key(files@[i as int]) == k);
            }
        }
    }
    total
}

/// No more space becomes free than the files take.
pub proof fn freed_is_at_most_taken(all: Seq<FileRecord>, n: nat)
    requires
        n <= all.len(),
    ensures
        space_freed(all, n) <= space_taken(all.take(n as int)),
    decreases n,
{
    if n > 0 {
        freed_is_at_most_taken(all, (n - 1) as nat);
        prefix_step(all, n - 1);
    }
}

/// Where every file is also reached by a path that stays, nothing becomes free.
pub proof fn linked_files_free_nothing(all: Seq<FileRecord>, n: nat)
    requires
        n <= all.len(),
        forall|i: int| 0 <= i < all.len() ==> times_held(all, #[trigger] all[i]) < all[i].links,
    ensures
        space_freed(all, n) == 0,
    decreases n,
{
    if n > 0 {
        linked_files_free_nothing(all, (n - 1) as nat);
        assert(times_held(all, all[n - 1]) < all[n - 1].links);
    }
}

/// Tenths of a unit, rounded, and to the even one where two are equally near.
pub open spec fn tenths_of(bytes: int, unit: int) -> int {
    let q = bytes * 10 / unit;
    let rest = bytes * 10 % unit;
    if rest * 2 > unit || (rest * 2 == unit && q % 2 == 1) {
        q + 1
    } else {
        q
    }
}

/// A number of tenths with its unit.
pub open spec fn with_unit(tenths: int, unit: Seq<char>) -> Seq<char> {
    decimal((tenths / 10) as nat) + "."@ + decimal((tenths % 10) as nat) + unit
}

/// A size in the largest unit that it reaches.
pub open spec fn size_text(bytes: u64) -> Seq<char> {
    if bytes >= 1073741824 {
        with_unit(tenths_of(bytes as int, 1073741824), " GiB"@)
    } else if bytes >= 1048576 {
        with_unit(tenths_of(bytes as int, 1048576), " MiB"@)
    } else if bytes >= 1024 {
        with_unit(tenths_of(bytes as int, 1024), " KiB"@)
    } else {
        decimal(bytes as nat) + " B"@
    }
}

fn show_tenths(bytes: u64, unit: u64, name: &str) -> (r: String)
    requires
        unit == 1073741824 || unit == 1048576 || unit == 1024,
    ensures
        r@ == with_unit(tenths_of(bytes as int, unit as int), name@),
{
    let ten: u128 = bytes as u128 * 10;
    let mut q: u128 = ten / unit as u128;
    let rest: u128 = ten % unit as u128;
    if rest * 2 > unit as u128 || (rest * 2 == unit as u128 && q % 2 == 1) {
        q += 1;
    }
    let whole = show((q / 10) as u64);
    let part = show((q % 10) as u64);
    cat4(whole.as_str(), ".", part.as_str(), name)
}

/// Computes [`size_text`].
pub fn format_bytes(bytes: u64) -> (r: String)
    ensures
        r@ == size_text(bytes),
{
    if bytes >= 1073741824 {
        show_tenths(bytes, 1073741824, " GiB")
    } else if bytes >= 1048576 {
        show_tenths(bytes, 1048576, " MiB")
    } else if bytes >= 1024 {
        show_tenths(bytes, 1024, " KiB")
    } else {
        cat2(show(bytes).as_str(), " B")
    }
}

} // verus!
