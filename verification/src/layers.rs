//! Layer model, classification and selection.
//!
//! A "layer" is a direct child directory of the HCS Layers directory. What the
//! filesystem reports about it (sizes, timestamps, which entries are
//! directories) is read by the caller and handed in as plain values; this
//! module decides what the tool makes of them.

use vstd::prelude::*;

use crate::errors::DcmFreeError;
use crate::text::{ascii_lower, chars_eq_ignore_ascii_case, chars_of, eq_ignore_ascii_case};
use crate::time::{Duration, SystemTime};

verus! {

/// Per-layer summary derived purely from the filesystem.
#[derive(Debug, Clone)]
pub struct LayerInfo {
    pub path: String,
    pub id: String,
    pub size_bytes: u64,
    pub file_count: u64,
    /// Creation time of the layer's top-level directory (NTFS `CreationTime`).
    /// This never changes once the layer exists and is therefore the most
    /// reliable measure of how old the layer is.
    pub created_at: SystemTime,
    /// Most recent mtime found inside this layer. Can be affected by tools
    /// that touched files inside the layer (including failed delete attempts).
    pub last_modified: SystemTime,
    /// Most recent atime on the layer's top-level directory. Often equal to
    /// `created_at` because Windows disables last-access updates by default.
    pub last_accessed: SystemTime,
    /// True when no live container/image references this layer.
    pub orphan: bool,
}

/// The age, in nanoseconds, of a layer created at `created` as seen at
/// `now`: the time elapsed since creation, or zero if creation lies in the future.
pub open spec fn age_nanos(created: SystemTime, now: SystemTime) -> int {
    if now@ >= created@ {
        now@ - created@
    } else {
        0
    }
}

/// Whether `l` is an orphan at least `min_age` old at `now`.
pub open spec fn is_stale_orphan(l: LayerInfo, min_age: Duration, now: SystemTime) -> bool {
    l.orphan && age_nanos(l.created_at, now) >= min_age@
}

impl LayerInfo {
    /// Age of the layer relative to `now`, derived from `created_at`.
    /// Saturates at zero if the timestamp is in the future.
    pub fn age(&self, now: SystemTime) -> (d: Duration)
        ensures
            d@ == age_nanos(self.created_at, now),
    {
        match now.duration_since(&self.created_at) {
            Some(d) => d,
            None => Duration::zero(),
        }
    }
}

/// Filter a slice of `LayerInfo` to the orphan subset older than `min_age`.
pub fn orphans_older_than<'a>(layers: &'a [LayerInfo], min_age: Duration, now: SystemTime) -> (r:
    Vec<&'a LayerInfo>)
    ensures
        r@.map_values(|x: &LayerInfo| *x) == layers@.filter(
            |l: LayerInfo| is_stale_orphan(l, min_age, now),
        ),
{
    let ghost pred = |l: LayerInfo| is_stale_orphan(l, min_age, now);
    let mut out: Vec<&'a LayerInfo> = Vec::new();
    let n = layers.len();
    for i in 0..n
        invariant
            n == layers@.len(),
            pred == (|l: LayerInfo| is_stale_orphan(l, min_age, now)),
            out@.map_values(|x: &LayerInfo| *x) == layers@.take(i as int).filter(pred),
    {
        let l = &layers[i];
        let keep = l.orphan && l.age(now).at_least(&min_age);
        if keep {
            out.push(l);
        }
        proof {
            reveal_with_fuel(Seq::<_>::filter, 1);
            assert(layers@.take(i + 1).drop_last() =~= layers@.take(i as int));
            assert(out@.map_values(|x: &LayerInfo| *x) =~= layers@.take(i + 1).filter(pred));
        }
    }
    proof {
        assert(layers@.take(n as int) =~= layers@);
    }
    out
}

/// `s` is ordered by size, largest first.
pub open spec fn sorted_by_size_desc(s: Seq<LayerInfo>) -> bool {
    forall|i: int, j: int| 0 <= i < j < s.len() ==> s[i].size_bytes >= s[j].size_bytes
}

/// The layers of `s` whose size is `k`, in their order in `s`.
pub open spec fn with_size(s: Seq<LayerInfo>, k: u64) -> Seq<LayerInfo> {
    s.filter(|l: LayerInfo| l.size_bytes == k)
}

/// `out` is `input` sorted by size, largest first, with layers of equal size
/// kept in their input order (a stable sort): each size class appears in
/// `out` exactly as it appears in `input`.
pub open spec fn is_stable_size_sort(input: Seq<LayerInfo>, out: Seq<LayerInfo>) -> bool {
    &&& sorted_by_size_desc(out)
    &&& forall|k: u64| #[trigger] with_size(out, k) == with_size(input, k)
}

proof fn lemma_insert_keeps_stable_sort(done: Seq<LayerInfo>, out: Seq<LayerInfo>, p: int, x: LayerInfo)
    requires
        is_stable_size_sort(done, out),
        0 <= p <= out.len(),
        forall|j: int| 0 <= j < p ==> out[j].size_bytes >= x.size_bytes,
        p < out.len() ==> out[p].size_bytes < x.size_bytes,
    ensures
        is_stable_size_sort(done.push(x), out.insert(p, x)),
{
    let new = out.insert(p, x);
    out.insert_ensures(p, x);
    let front = out.subrange(0, p);
    let back = out.subrange(p, out.len() as int);
    assert(out =~= front + back);
    assert(new =~= front.push(x) + back);
    assert forall|j: int| 0 <= j < back.len() implies back[j].size_bytes < x.size_bytes by {
        assert(back[j] == out[p + j]);
        if j > 0 {
            assert(out[p].size_bytes >= out[p + j].size_bytes);
        }
    }
    assert forall|i: int, j: int| 0 <= i < j < new.len() implies new[i].size_bytes
        >= new[j].size_bytes by {
        if j < p {
            assert(new[i] == out[i] && new[j] == out[j]);
        } else if j == p {
            assert(new[i] == out[i]);
        } else if i < p {
            assert(new[i] == out[i] && new[j] == out[j - 1]);
        } else if i == p {
            assert(new[j] == out[j - 1]);
            assert(back[j - 1 - p] == out[j - 1]);
        } else {
            assert(new[i] == out[i - 1] && new[j] == out[j - 1]);
        }
    }
    assert forall|k: u64| #[trigger] with_size(new, k) == with_size(done.push(x), k) by {
        let pred = |l: LayerInfo| l.size_bytes == k;
        Seq::filter_distributes_over_add(front, back, pred);
        Seq::filter_distributes_over_add(front.push(x), back, pred);
        front.lemma_filter_push(x, pred);
        done.lemma_filter_push(x, pred);
        assert(with_size(out, k) == with_size(done, k));
        if k == x.size_bytes {
            assert(back.all(|l: LayerInfo| !pred(l)));
            back.lemma_all_neg_filter_empty(pred);
            assert(back.filter(pred) =~= Seq::<LayerInfo>::empty());
            assert(front.filter(pred) + back.filter(pred) =~= front.filter(pred));
            assert(front.filter(pred).push(x) + back.filter(pred) =~= front.filter(pred).push(x));
        }
    }
}

/// Order layers by size, largest first, keeping layers of equal size in
/// their input order.
pub fn sort_by_size_desc(layers: Vec<LayerInfo>) -> (out: Vec<LayerInfo>)
    ensures
        is_stable_size_sort(layers@, out@),
        out@.to_multiset() == layers@.to_multiset(),
{
    let ghost input = layers@;
    let n = layers.len();
    let mut rest = layers;
    let mut out: Vec<LayerInfo> = Vec::new();
    proof {
        assert(input.take(0) =~= Seq::<LayerInfo>::empty());
        assert(input.skip(0) =~= input);
        assert(out@ =~= input.take(0));
        assert forall|k: u64| #[trigger] with_size(out@, k) == with_size(input.take(0), k) by {
            assert(out@ =~= input.take(0));
        }
    }
    while rest.len() > 0
        invariant
            n == input.len(),
            rest.len() <= n,
            rest@ == input.skip(n - rest.len()),
            is_stable_size_sort(input.take(n - rest.len()), out@),
            out@.to_multiset() == input.take(n - rest.len()).to_multiset(),
        decreases rest.len(),
    {
        let ghost m = n - rest.len();
        let ghost done = input.take(m);
        let x = rest.remove(0);
        proof {
            assert(x == input[m]);
            assert(rest@ =~= input.skip(m + 1));
            assert(input.take(m + 1) =~= done.push(x));
        }
        let mut p: usize = 0;
        while p < out.len() && out[p].size_bytes >= x.size_bytes
            invariant
                p <= out.len(),
                forall|j: int| 0 <= j < p ==> out@[j].size_bytes >= x.size_bytes,
            decreases out.len() - p,
        {
            p = p + 1;
        }
        let ghost old_out = out@;
        out.insert(p, x);
        proof {
            lemma_insert_keeps_stable_sort(done, old_out, p as int, x);
            vstd::seq_lib::to_multiset_insert(old_out, p as int, x);
            vstd::seq_lib::to_multiset_build(done, x);
        }
    }
    proof {
        assert(input.take(n as int) =~= input);
    }
    out
}

/// The `\\?\` prefix Windows puts before verbatim paths.
pub open spec fn verbatim_prefix() -> Seq<char> {
    seq!['\\', '\\', '?', '\\']
}

/// `p` without a leading verbatim prefix.
pub open spec fn strip_verbatim(p: Seq<char>) -> Seq<char> {
    if p.len() >= 4 && p.take(4) == verbatim_prefix() {
        p.skip(4)
    } else {
        p
    }
}

/// Whether two path texts name the same path: equal once a verbatim prefix is
/// removed from each, comparing ASCII letters without regard to case.
pub open spec fn same_path(a: Seq<char>, b: Seq<char>) -> bool {
    eq_ignore_ascii_case(strip_verbatim(a), strip_verbatim(b))
}

/// Remove the `\\?\` prefix Windows sometimes puts before a canonical path.
pub fn strip_verbatim_prefix(p: &str) -> (r: String)
    ensures
        r@ == strip_verbatim(p@),
{
    let v = chars_of(p);
    if v.len() >= 4 && v[0] == '\\' && v[1] == '\\' && v[2] == '?' && v[3] == '\\' {
        assert(p@.take(4) =~= verbatim_prefix());
        p.substring_char(4, v.len()).to_owned()
    } else {
        proof {
            if p@.len() >= 4 && p@.take(4) == verbatim_prefix() {
                assert(p@[0] == p@.take(4)[0]);
                assert(p@[1] == p@.take(4)[1]);
                assert(p@[2] == p@.take(4)[2]);
                assert(p@[3] == p@.take(4)[3]);
            }
        }
        p.to_owned()
    }
}

/// Case-insensitive path equality, normalising the `\\?\` prefix Windows
/// sometimes returns from canonicalize.
pub fn paths_equal(a: &str, b: &str) -> (r: bool)
    ensures
        r == same_path(a@, b@),
{
    let a_s = strip_verbatim_prefix(a);
    let b_s = strip_verbatim_prefix(b);
    let a_chars = chars_of(a_s.as_str());
    let b_chars = chars_of(b_s.as_str());
    chars_eq_ignore_ascii_case(&a_chars, &b_chars)
}

/// The path text a layer is compared by: its canonical form where one could be
/// had, else its path as enumerated.
pub open spec fn compared_path(l: LayerInfo, canonical: Option<String>) -> Seq<char> {
    match canonical {
        Some(c) => c@,
        None => l.path@,
    }
}

/// Whether some path in `in_use` names the same path as `p`.
pub open spec fn in_use_matches(p: Seq<char>, in_use: Seq<String>) -> bool {
    exists|j: int| 0 <= j < in_use.len() && same_path(p, #[trigger] in_use[j]@)
}

/// `l` with its orphan flag set to `orphan`.
pub open spec fn with_orphan(l: LayerInfo, orphan: bool) -> LayerInfo {
    LayerInfo { orphan, ..l }
}

/// Mark every layer whose path appears in `in_use` as non-orphan, and every
/// other layer as orphan. `canonical[i]` is the canonical form of the path
/// of `layers[i]`, where the filesystem could give one.
pub fn classify(layers: &mut Vec<LayerInfo>, canonical: &Vec<Option<String>>, in_use: &Vec<String>)
    requires
        old(layers).len() == canonical.len(),
    ensures
        final(layers).len() == old(layers).len(),
        forall|i: int|
            0 <= i < old(layers).len() ==> #[trigger] final(layers)@[i] == with_orphan(
                old(layers)@[i],
                !in_use_matches(compared_path(old(layers)@[i], canonical@[i]), in_use@),
            ),
{
    let n = layers.len();
    let ghost before = layers@;
    for i in 0..n
        invariant
            n == layers.len(),
            n == before.len(),
            n == canonical.len(),
            forall|k: int|
                0 <= k < i ==> #[trigger] layers@[k] == with_orphan(
                    before[k],
                    !in_use_matches(compared_path(before[k], canonical@[k]), in_use@),
                ),
            forall|k: int| i <= k < n ==> #[trigger] layers@[k] == before[k],
    {
        let orphan = orphan_flag(layers[i].path.as_str(), &canonical[i], in_use);
        layers[i].orphan = orphan;
    }
}

/// Whether the layer at `path` is an orphan: no path in `in_use` names the
/// same path as its canonical form `canonical`, where the filesystem could
/// give one, else as `path` itself.
pub fn orphan_flag(path: &str, canonical: &Option<String>, in_use: &Vec<String>) -> (orphan: bool)
    ensures
        orphan == !in_use_matches(
            match canonical {
                Some(c) => c@,
                None => path@,
            },
            in_use@,
        ),
        forall|j: int|
            0 <= j < in_use@.len() && same_path(
                match canonical {
                    Some(c) => c@,
                    None => path@,
                },
                #[trigger] in_use@[j]@,
            ) ==> !orphan,
        orphan ==> forall|j: int|
            0 <= j < in_use@.len() ==> !same_path(
                match canonical {
                    Some(c) => c@,
                    None => path@,
                },
                #[trigger] in_use@[j]@,
            ),
{
    let p: &str = match canonical {
        Some(c) => c.as_str(),
        None => path,
    };
    let mut found = false;
    let m = in_use.len();
    for j in 0..m
        invariant
            m == in_use.len(),
            p@ == match canonical {
                Some(c) => c@,
                None => path@,
            },
            found == exists|k: int| 0 <= k < j && same_path(p@, #[trigger] in_use@[k]@),
    {
        let hit = paths_equal(p, in_use[j].as_str());
        found = found || hit;
    }
    !found
}

/// The attribute bit Windows sets on hidden files and directories.
pub const FILE_ATTRIBUTE_HIDDEN: u32 = 0x2;

/// The attribute bit Windows sets on system files and directories.
pub const FILE_ATTRIBUTE_SYSTEM: u32 = 0x4;

/// Whether a child of the layers directory is a layer: a directory that is
/// neither hidden nor a system entry, going by its file `attributes`.
pub fn is_layer_entry(is_dir: bool, attributes: u32) -> (b: bool)
    ensures
        b == (is_dir && attributes & FILE_ATTRIBUTE_HIDDEN == 0 && attributes
            & FILE_ATTRIBUTE_SYSTEM == 0),
{
    is_dir && attributes & FILE_ATTRIBUTE_HIDDEN == 0 && attributes & FILE_ATTRIBUTE_SYSTEM == 0
}

/// A layer counts as in use as soon as any path Docker reports, wherever it
/// stands in the list, names the same path as it; and only then. Adding
/// reported paths, before or after the others, never turns an in-use layer
/// back into an orphan.
pub proof fn law_any_in_use_path_counts(p: Seq<char>, in_use: Seq<String>, more: Seq<String>, j: int)
    ensures
        0 <= j < in_use.len() && same_path(p, in_use[j]@) ==> in_use_matches(p, in_use),
        in_use_matches(p, in_use) ==> exists|k: int|
            0 <= k < in_use.len() && same_path(p, #[trigger] in_use[k]@),
        in_use_matches(p, in_use) ==> in_use_matches(p, in_use + more) && in_use_matches(
            p,
            more + in_use,
        ),
{
    if in_use_matches(p, in_use) {
        let k = choose|k: int| 0 <= k < in_use.len() && same_path(p, #[trigger] in_use[k]@);
        assert((in_use + more)[k] == in_use[k]);
        assert((more + in_use)[more.len() + k] == in_use[k]);
    }
}

/// Only regular files count towards a layer's size and file count: the
/// count is the number of file entries, the size that of the file entries
/// alone, and no file is larger than the whole.
pub proof fn law_only_files_count(entries: Seq<EntryMeta>)
    ensures
        file_total(entries) == entries.filter(|e: EntryMeta| e.is_file).len(),
        file_bytes(entries) == file_bytes(entries.filter(|e: EntryMeta| e.is_file)),
        forall|k: int|
            0 <= k < entries.len() && (#[trigger] entries[k]).is_file ==> entries[k].len <= file_bytes(
                entries,
            ),
    decreases entries.len(),
{
    let files = |e: EntryMeta| e.is_file;
    if entries.len() == 0 {
        assert(entries.filter(files) =~= entries);
    } else {
        let init = entries.drop_last();
        let x = entries.last();
        law_only_files_count(init);
        assert(entries =~= init.push(x));
        init.lemma_filter_push(x, files);
        if x.is_file {
            assert(entries.filter(files).drop_last() =~= init.filter(files));
        } else {
            assert(entries.filter(files) =~= init.filter(files));
        }
        assert forall|k: int|
            0 <= k < entries.len() && (#[trigger] entries[k]).is_file implies entries[k].len
                <= file_bytes(entries) by {
            if k < entries.len() - 1 {
                assert(init[k] == entries[k]);
            }
        }
    }
}

/// The last-modified time a layer is given is the newest of its directory's
/// own modification time and those of the entries walked, whatever order the
/// walk met them in: no earlier than any of them, and one of them.
pub proof fn law_last_modified_is_newest(start: SystemTime, entries: Seq<EntryMeta>)
    ensures
        latest_modified(start, entries)@ >= start@,
        forall|k: int|
            0 <= k < entries.len() ==> (#[trigger] entries[k].modified matches Some(m) ==> latest_modified(
                start,
                entries,
            )@ >= m@),
        latest_modified(start, entries) == start || exists|k: int|
            0 <= k < entries.len() && #[trigger] entries[k].modified == Some(
                latest_modified(start, entries),
            ),
    decreases entries.len(),
{
    if entries.len() > 0 {
        let init = entries.drop_last();
        law_last_modified_is_newest(start, init);
        let before = latest_modified(start, init);
        assert forall|k: int|
            0 <= k < entries.len() implies (#[trigger] entries[k].modified matches Some(m)
                ==> latest_modified(start, entries)@ >= m@) by {
            if k < entries.len() - 1 {
                assert(entries[k] == init[k]);
            }
        }
        if latest_modified(start, entries) != start && latest_modified(start, entries) != before {
            assert(entries[entries.len() - 1].modified == Some(latest_modified(start, entries)));
        } else if latest_modified(start, entries) != start {
            let k = choose|k: int|
                0 <= k < init.len() && #[trigger] init[k].modified == Some(before);
            assert(entries[k] == init[k]);
        }
    }
}

/// What the filesystem reports about a layer's top-level directory; each
/// timestamp is absent where the platform could not give it.
#[derive(Debug, Clone, Copy)]
pub struct DirTimes {
    pub created: Option<SystemTime>,
    pub accessed: Option<SystemTime>,
    pub modified: Option<SystemTime>,
}

/// What the filesystem reports about one entry found while walking a layer
/// (the layer directory itself included).
#[derive(Debug, Clone, Copy)]
pub struct EntryMeta {
    pub is_file: bool,
    pub len: u64,
    pub modified: Option<SystemTime>,
}

/// The creation time of a layer directory: as reported, else the Unix epoch.
pub open spec fn created_time(dir: Option<DirTimes>) -> SystemTime {
    match dir {
        Some(d) => match d.created {
            Some(t) => t,
            None => SystemTime::spec_unix_epoch(),
        },
        None => SystemTime::spec_unix_epoch(),
    }
}

/// The last-access time of a layer directory: as reported, else its creation time.
pub open spec fn accessed_time(dir: Option<DirTimes>) -> SystemTime {
    match dir {
        Some(d) => match d.accessed {
            Some(t) => t,
            None => created_time(dir),
        },
        None => created_time(dir),
    }
}

/// The modification time of a layer directory: as reported, else its creation time.
pub open spec fn dir_modified_time(dir: Option<DirTimes>) -> SystemTime {
    match dir {
        Some(d) => match d.modified {
            Some(t) => t,
            None => created_time(dir),
        },
        None => created_time(dir),
    }
}

/// The total length of the regular files among `entries`.
pub open spec fn file_bytes(entries: Seq<EntryMeta>) -> nat
    decreases entries.len(),
{
    if entries.len() == 0 {
        0
    } else {
        file_bytes(entries.drop_last()) + if entries.last().is_file {
            entries.last().len as nat
        } else {
            0
        }
    }
}

/// The number of regular files among `entries`.
pub open spec fn file_total(entries: Seq<EntryMeta>) -> nat
    decreases entries.len(),
{
    if entries.len() == 0 {
        0
    } else {
        file_total(entries.drop_last()) + if entries.last().is_file {
            1nat
        } else {
            0nat
        }
    }
}

/// The latest of `start` and the modification times reported for `entries`.
pub open spec fn latest_modified(start: SystemTime, entries: Seq<EntryMeta>) -> SystemTime
    decreases entries.len(),
{
    if entries.len() == 0 {
        start
    } else {
        let before = latest_modified(start, entries.drop_last());
        match entries.last().modified {
            Some(m) => if m@ > before@ {
                m
            } else {
                before
            },
            None => before,
        }
    }
}

/// `n` capped at `u64::MAX`.
pub open spec fn cap_u64(n: nat) -> nat {
    if n > u64::MAX {
        u64::MAX as nat
    } else {
        n
    }
}

/// Build a `LayerInfo` for a single layer directory from what the filesystem
/// reported: `dir` for the top-level directory (absent where its metadata
/// could not be read) and `entries` for every entry a recursive walk of it
/// could read.
///
/// Size and file count sum over regular files, saturating at `u64::MAX`;
/// `last_modified` is the latest modification time seen. The layer is
/// tentatively an orphan until classified.
pub fn stat_layer(path: String, id: String, dir: Option<DirTimes>, entries: &Vec<EntryMeta>) -> (l:
    LayerInfo)
    ensures
        l.path == path,
        l.id == id,
        l.created_at == created_time(dir),
        l.last_accessed == accessed_time(dir),
        l.last_modified == latest_modified(dir_modified_time(dir), entries@),
        l.last_modified@ >= dir_modified_time(dir)@,
        forall|k: int|
            0 <= k < entries@.len() ==> (#[trigger] entries@[k].modified matches Some(m) ==> l.last_modified@
                >= m@),
        l.last_modified == dir_modified_time(dir) || exists|k: int|
            0 <= k < entries@.len() && #[trigger] entries@[k].modified == Some(l.last_modified),
        l.size_bytes == cap_u64(file_bytes(entries@)),
        l.file_count == cap_u64(file_total(entries@)),
        l.orphan,
{
    let created_at = match dir {
        Some(d) => match d.created {
            Some(t) => t,
            None => SystemTime::unix_epoch(),
        },
        None => SystemTime::unix_epoch(),
    };
    let last_accessed = match dir {
        Some(d) => match d.accessed {
            Some(t) => t,
            None => created_at,
        },
        None => created_at,
    };
    let mut last_modified = match dir {
        Some(d) => match d.modified {
            Some(t) => t,
            None => created_at,
        },
        None => created_at,
    };
    let mut size: u64 = 0;
    let mut file_count: u64 = 0;
    let n = entries.len();
    for i in 0..n
        invariant
            n == entries@.len(),
            size == cap_u64(file_bytes(entries@.take(i as int))),
            file_count == cap_u64(file_total(entries@.take(i as int))),
            last_modified == latest_modified(dir_modified_time(dir), entries@.take(i as int)),
    {
        let e = entries[i];
        proof {
            assert(entries@.take(i + 1).drop_last() =~= entries@.take(i as int));
        }
        if e.is_file {
            size = size.saturating_add(e.len);
            file_count = file_count.saturating_add(1);
        }
        match e.modified {
            Some(m) => {
                if m.later_than(&last_modified) {
                    last_modified = m;
                }
            },
            None => {},
        }
    }
    proof {
        assert(entries@.take(n as int) =~= entries@);
        law_last_modified_is_newest(dir_modified_time(dir), entries@);
    }
    LayerInfo {
        path,
        id,
        size_bytes: size,
        file_count,
        created_at,
        last_modified,
        last_accessed,
        orphan: true,
    }
}

/// The id of a layer: its directory name where that is valid Unicode, else "?".
pub fn layer_id(file_name: Option<String>) -> (id: String)
    ensures
        id@ == match file_name {
            Some(n) => n@,
            None => "?"@,
        },
{
    match file_name {
        Some(n) => n,
        None => "?".to_owned(),
    }
}

/// What reading the layers directory reported about one of its children.
#[derive(Debug)]
pub struct DirChild {
    /// The child's path.
    pub path: String,
    /// Its name, where that is valid Unicode.
    pub file_name: Option<String>,
    /// Whether it is a directory (following links).
    pub is_dir: bool,
    /// Its Windows file attributes (none elsewhere).
    pub attributes: u32,
    /// Its own timestamps, where its metadata could be read.
    pub dir: Option<DirTimes>,
    /// Every entry a recursive walk of it could read.
    pub entries: Vec<EntryMeta>,
}

/// Whether a child of the layers directory is a layer (see `is_layer_entry`).
pub open spec fn is_layer_child(c: DirChild) -> bool {
    c.is_dir && c.attributes & FILE_ATTRIBUTE_HIDDEN == 0 && c.attributes & FILE_ATTRIBUTE_SYSTEM
        == 0
}

/// The children of the layers directory that are layers, in listing order.
pub open spec fn layer_children(cs: Seq<DirChild>) -> Seq<DirChild> {
    cs.filter(|c: DirChild| is_layer_child(c))
}

/// `l` is the layer `stat_layer` builds for the child `c`: named by its file
/// name ("?" where that is not valid Unicode), tentatively an orphan.
pub open spec fn is_child_layer(l: LayerInfo, c: DirChild) -> bool {
    &&& l.path == c.path
    &&& l.id@ == match c.file_name {
        Some(n) => n@,
        None => "?"@,
    }
    &&& l.created_at == created_time(c.dir)
    &&& l.last_accessed == accessed_time(c.dir)
    &&& l.last_modified == latest_modified(dir_modified_time(c.dir), c.entries@)
    &&& l.size_bytes == cap_u64(file_bytes(c.entries@))
    &&& l.file_count == cap_u64(file_total(c.entries@))
    &&& l.orphan
}

/// `found` holds, in order, one layer built from each child of `kept`.
pub open spec fn built_from(found: Seq<LayerInfo>, kept: Seq<DirChild>) -> bool {
    &&& found.len() == kept.len()
    &&& forall|k: int| 0 <= k < found.len() ==> is_child_layer(#[trigger] found[k], kept[k])
}

/// The layers of the children of the layers directory: one per child that
/// `is_layer_entry` accepts, in listing order.
pub fn layers_of(children: &Vec<DirChild>) -> (found: Vec<LayerInfo>)
    ensures
        built_from(found@, layer_children(children@)),
{
    let ghost keep = |c: DirChild| is_layer_child(c);
    let mut found: Vec<LayerInfo> = Vec::new();
    let n = children.len();
    for i in 0..n
        invariant
            n == children@.len(),
            keep == (|c: DirChild| is_layer_child(c)),
            built_from(found@, children@.take(i as int).filter(keep)),
    {
        let ghost prefix = children@.take(i as int);
        proof {
            assert(children@.take(i + 1) =~= prefix.push(children@[i as int]));
            prefix.lemma_filter_push(children@[i as int], keep);
        }
        let c = &children[i];
        if is_layer_entry(c.is_dir, c.attributes) {
            let name = match &c.file_name {
                Some(n) => Some(n.clone()),
                None => None,
            };
            let l = stat_layer(c.path.clone(), layer_id(name), c.dir, &c.entries);
            found.push(l);
        }
    }
    proof {
        assert(children@.take(n as int) =~= children@);
    }
    found
}

/// What reading the layers directory gave.
#[derive(Debug)]
pub enum DirListing {
    /// The directory does not exist.
    Missing,
    /// The directory exists but could not be read.
    Unreadable(std::io::Error),
    /// What was reported about each child, in the order the directory listed them.
    Children(Vec<DirChild>),
}

/// Enumerate the layers of the directory `dir` from what reading it gave:
/// a missing directory is `LayersDirMissing`, an unreadable one an `Io`
/// error, and otherwise one layer per child that is a directory and neither
/// hidden nor a system entry (built as `stat_layer` builds it), largest first
/// (layers of equal size in listing order).
pub fn enumerate(dir: &str, listing: DirListing) -> (r: Result<Vec<LayerInfo>, DcmFreeError>)
    ensures
        match listing {
            DirListing::Missing => r matches Err(DcmFreeError::LayersDirMissing(p)) && p@ == dir@,
            DirListing::Unreadable(e) => r matches Err(DcmFreeError::Io { path, source }) && path@
                == dir@ && source == e,
            DirListing::Children(cs) => r matches Ok(out) && exists|found: Seq<LayerInfo>|
                #[trigger] built_from(found, layer_children(cs@)) && is_stable_size_sort(found, out@)
                && out@.to_multiset() == found.to_multiset(),
        },
{
    match listing {
        DirListing::Missing => Err(DcmFreeError::LayersDirMissing(dir.to_owned())),
        DirListing::Unreadable(e) => Err(DcmFreeError::io(dir.to_owned(), e)),
        DirListing::Children(children) => {
            let found = layers_of(&children);
            let ghost f = found@;
            let out = sort_by_size_desc(found);
            assert(built_from(f, layer_children(children@)));
            Ok(out)
        },
    }
}

/// A layer that Docker reports as in use is never selected for destruction:
/// once `classify` has marked the layers `before` (giving `after`), every
/// layer that `orphans_older_than` selects from `after` is the classified form
/// of a layer whose path matches no in-use path, and is at least `min_age` old.
pub proof fn law_in_use_layers_never_selected(
    before: Seq<LayerInfo>,
    canonical: Seq<Option<String>>,
    in_use: Seq<String>,
    after: Seq<LayerInfo>,
    min_age: Duration,
    now: SystemTime,
    picked: LayerInfo,
)
    requires
        before.len() == canonical.len(),
        after.len() == before.len(),
        forall|i: int|
            0 <= i < before.len() ==> #[trigger] after[i] == with_orphan(
                before[i],
                !in_use_matches(compared_path(before[i], canonical[i]), in_use),
            ),
        after.filter(|l: LayerInfo| is_stale_orphan(l, min_age, now)).contains(picked),
    ensures
        exists|i: int|
            0 <= i < before.len() && #[trigger] after[i] == picked && !in_use_matches(
                compared_path(before[i], canonical[i]),
                in_use,
            ),
        age_nanos(picked.created_at, now) >= min_age@,
{
    let pred = |l: LayerInfo| is_stale_orphan(l, min_age, now);
    broadcast use vstd::seq_lib::group_filter_ensures;

    let k = choose|k: int| 0 <= k < after.filter(pred).len() && after.filter(pred)[k] == picked;
    assert(pred(after.filter(pred)[k]));
    after.lemma_filter_contains_rev(pred, picked);
    let i = choose|i: int| 0 <= i < after.len() && after[i] == picked;
    assert(after[i].orphan);
}

/// With a minimum age of zero (what `--min-age 0` gives) the age guard is
/// off: `orphans_older_than` selects exactly the orphans.
pub proof fn law_zero_min_age_selects_every_orphan(
    layers: Seq<LayerInfo>,
    min_age: Duration,
    now: SystemTime,
)
    requires
        min_age@ == 0,
    ensures
        layers.filter(|l: LayerInfo| is_stale_orphan(l, min_age, now)) == layers.filter(
            |l: LayerInfo| l.orphan,
        ),
{
    let p1 = |l: LayerInfo| is_stale_orphan(l, min_age, now);
    let p2 = |l: LayerInfo| l.orphan;
    assert(p1 =~= p2);
}

/// Path comparison is an equivalence: every path names itself, and naming
/// the same path is symmetric and transitive.
pub proof fn law_same_path_is_equivalence(a: Seq<char>, b: Seq<char>, c: Seq<char>)
    ensures
        same_path(a, a),
        same_path(a, b) == same_path(b, a),
        same_path(a, b) && same_path(b, c) ==> same_path(a, c),
{
    let (x, y, z) = (strip_verbatim(a), strip_verbatim(b), strip_verbatim(c));
    if same_path(a, b) && same_path(b, c) {
        assert forall|i: int| 0 <= i < x.len() implies ascii_lower(#[trigger] x[i]) == ascii_lower(
            z[i],
        ) by {
            assert(ascii_lower(x[i]) == ascii_lower(y[i]));
            assert(ascii_lower(y[i]) == ascii_lower(z[i]));
        }
    }
}

/// A verbatim prefix makes no difference to which path is named, for a path
/// that does not itself begin with one.
pub proof fn law_same_path_ignores_verbatim_prefix(p: Seq<char>)
    requires
        !(p.len() >= 4 && p.take(4) == verbatim_prefix()),
    ensures
        same_path(verbatim_prefix() + p, p),
{
    let q = verbatim_prefix() + p;
    assert(q.take(4) =~= verbatim_prefix());
    assert(q.skip(4) =~= p);
}

/// Paths that differ only in the case of ASCII letters name the same path.
pub proof fn law_same_path_ignores_ascii_case(a: Seq<char>, b: Seq<char>)
    requires
        eq_ignore_ascii_case(a, b),
    ensures
        same_path(a, b),
{
    let pre = verbatim_prefix();
    let a_pre = a.len() >= 4 && a.take(4) == pre;
    let b_pre = b.len() >= 4 && b.take(4) == pre;
    if a.len() >= 4 {
        assert forall|i: int| 0 <= i < 4 implies (a[i] == pre[i] <==> b[i] == pre[i]) by {
            assert(ascii_lower(a[i]) == ascii_lower(b[i]));
        }
        if a_pre {
            assert forall|i: int| 0 <= i < 4 implies b.take(4)[i] == pre[i] by {
                assert(a.take(4)[i] == pre[i]);
            }
            assert(b.take(4) =~= pre);
        }
        if b_pre {
            assert forall|i: int| 0 <= i < 4 implies a.take(4)[i] == pre[i] by {
                assert(b.take(4)[i] == pre[i]);
            }
            assert(a.take(4) =~= pre);
        }
    }
    if a_pre {
        assert forall|i: int| 0 <= i < a.skip(4).len() implies ascii_lower(#[trigger] a.skip(4)[i])
            == ascii_lower(b.skip(4)[i]) by {
            assert(ascii_lower(a[i + 4]) == ascii_lower(b[i + 4]));
        }
    }
}

/// When Docker reports nothing in use (for instance because it is not
/// installed), classification marks every layer as an orphan.
pub proof fn law_nothing_in_use_means_all_orphans(
    before: Seq<LayerInfo>,
    canonical: Seq<Option<String>>,
    after: Seq<LayerInfo>,
)
    requires
        before.len() == canonical.len(),
        after.len() == before.len(),
        forall|i: int|
            0 <= i < before.len() ==> #[trigger] after[i] == with_orphan(
                before[i],
                !in_use_matches(compared_path(before[i], canonical[i]), Seq::<String>::empty()),
            ),
    ensures
        forall|i: int| 0 <= i < after.len() ==> #[trigger] after[i].orphan,
{
    assert forall|i: int| 0 <= i < after.len() implies #[trigger] after[i].orphan by {
        assert(after[i] == with_orphan(
            before[i],
            !in_use_matches(compared_path(before[i], canonical[i]), Seq::<String>::empty()),
        ));
    }
}


/// The orphans of `layers` at least `min_age` old at `now`, in order: what
/// `orphans_older_than` selects.
pub open spec fn stale_orphans(layers: Seq<LayerInfo>, min_age: Duration, now: SystemTime) -> Seq<
    LayerInfo,
> {
    layers.filter(|l: LayerInfo| is_stale_orphan(l, min_age, now))
}

/// Filtering by a stricter condition `p` keeps a subsequence of what
/// filtering by `q` keeps.
proof fn lemma_filter_narrows(s: Seq<LayerInfo>, p: spec_fn(LayerInfo) -> bool, q: spec_fn(LayerInfo) -> bool)
    requires
        forall|l: LayerInfo| #[trigger] p(l) ==> q(l),
    ensures
        s.filter(p) == s.filter(q).filter(p),
    decreases s.len(),
{
    if s.len() == 0 {
        assert(s.filter(p) =~= Seq::<LayerInfo>::empty());
        assert(s.filter(q) =~= Seq::<LayerInfo>::empty());
        assert(s.filter(q).filter(p) =~= Seq::<LayerInfo>::empty());
    } else {
        let init = s.drop_last();
        let x = s.last();
        lemma_filter_narrows(init, p, q);
        assert(s =~= init.push(x));
        init.lemma_filter_push(x, p);
        init.lemma_filter_push(x, q);
        init.filter(q).lemma_filter_push(x, p);
    }
}

/// The selection of stale orphans never grows with the minimum age, and
/// never shrinks as time goes on: with `m1 <= m2`, what a minimum age of `m2`
/// selects is what `m1` selects, narrowed; with `now1 <= now2`, what is
/// selected at `now1` is what is selected at `now2`, narrowed.
pub proof fn law_selection_is_monotone(
    layers: Seq<LayerInfo>,
    m1: Duration,
    m2: Duration,
    now1: SystemTime,
    now2: SystemTime,
)
    ensures
        m1@ <= m2@ ==> stale_orphans(layers, m2, now1) == stale_orphans(layers, m1, now1).filter(
            |l: LayerInfo| is_stale_orphan(l, m2, now1),
        ),
        now1@ <= now2@ ==> stale_orphans(layers, m1, now1) == stale_orphans(layers, m1, now2).filter(
            |l: LayerInfo| is_stale_orphan(l, m1, now1),
        ),
{
    if m1@ <= m2@ {
        lemma_filter_narrows(
            layers,
            |l: LayerInfo| is_stale_orphan(l, m2, now1),
            |l: LayerInfo| is_stale_orphan(l, m1, now1),
        );
    }
    if now1@ <= now2@ {
        lemma_filter_narrows(
            layers,
            |l: LayerInfo| is_stale_orphan(l, m1, now1),
            |l: LayerInfo| is_stale_orphan(l, m1, now2),
        );
    }
}

} // verus!
