use vstd::prelude::*;

verus! {

/// What a directory walk reports of one entry: whether it is a regular file
/// and its length in bytes.
#[derive(Debug, Clone, Copy, PartialEq, Eq, Structural)]
pub struct EntryMeta {
    pub is_file: bool,
    pub len: u64,
}

/// The bytes an entry contributes: its length if it is a readable regular file.
pub open spec fn entry_bytes(e: Option<EntryMeta>) -> int {
    match e {
        Some(m) => if m.is_file { m.len as int } else { 0 },
        None => 0,
    }
}

/// The total length of the regular files among the walked entries.
pub open spec fn total_file_bytes(entries: Seq<Option<EntryMeta>>) -> int
    decreases entries.len(),
{
    if entries.len() == 0 {
        0
    } else {
        total_file_bytes(entries.drop_last()) + entry_bytes(entries.last())
    }
}

proof fn lemma_total_monotone(entries: Seq<Option<EntryMeta>>, i: int)
    requires
        0 <= i <= entries.len(),
    ensures
        total_file_bytes(entries.take(i)) <= total_file_bytes(entries),
    decreases entries.len() - i,
{
    if i < entries.len() {
        lemma_total_monotone(entries, i + 1);
        assert(entries.take(i + 1).drop_last() =~= entries.take(i));
    } else {
        assert(entries.take(i) =~= entries);
    }
}

/// The bytes held by the regular files of a walked directory tree, `None`
/// when the total does not fit in a `u64`. `entries` holds one item per
/// walked entry, `None` where the entry or its metadata could not be read.
pub fn measure_dir(entries: &Vec<Option<EntryMeta>>) -> (total: Option<u64>)
    ensures
        total matches Some(t) ==> t == total_file_bytes(entries@),
        total is None <==> total_file_bytes(entries@) > u64::MAX,
{
    let mut sum: u64 = 0;
    let mut i: usize = 0;
    while i < entries.len()
        invariant
            i <= entries.len(),
            sum == total_file_bytes(entries@.take(i as int)),
        decreases entries.len() - i,
    {
        assert(entries@.take(i + 1).drop_last() =~= entries@.take(i as int));
        match entries[i] {
            Some(m) => {
                if m.is_file {
                    match sum.checked_add(m.len) {
                        Some(s) => {
                            sum = s;
                        },
                        None => {
                            proof {
                                lemma_total_monotone(entries@, i + 1);
                            }
                            return None;
                        },
                    }
                }
            },
            None => {},
        }
        i = i + 1;
    }
    assert(entries@.take(entries.len() as int) =~= entries@);
    Some(sum)
}


/// Walking one more entry adds its length when it is a regular file and
/// nothing otherwise, whatever came before it (equal sizes included).
pub proof fn law_total_grows_by_each_file(entries: Seq<Option<EntryMeta>>, m: Option<EntryMeta>)
    ensures
        total_file_bytes(entries.push(m)) == total_file_bytes(entries) + match m {
            Some(x) => if x.is_file { x.len as int } else { 0int },
            None => 0int,
        },
{
    assert(entries.push(m).drop_last() =~= entries);
}

/// The total of two walks joined is the sum of their totals: it depends
/// neither on the order of the entries nor on which sizes repeat.
pub proof fn law_total_is_additive(a: Seq<Option<EntryMeta>>, b: Seq<Option<EntryMeta>>)
    ensures
        total_file_bytes(a + b) == total_file_bytes(a) + total_file_bytes(b),
    decreases b.len(),
{
    if b.len() == 0 {
        assert(a + b =~= a);
    } else {
        law_total_is_additive(a, b.drop_last());
        law_total_grows_by_each_file(a + b.drop_last(), b.last());
        law_total_grows_by_each_file(b.drop_last(), b.last());
        assert((a + b.drop_last()).push(b.last()) =~= a + b);
        assert(b.drop_last().push(b.last()) =~= b);
    }
}

} // verus!
