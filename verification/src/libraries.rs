//! Where to look for the decoder's library.
use vstd::prelude::*;

use crate::versions::is_name_before;

verus! {

/// How many names the library goes by.
pub const LIBRARY_NAMES: usize = 3;

/// The directory that toolkits are installed in, one directory for each version.
pub fn toolkit_directory() -> (path: &'static str)
    ensures
        path@ == "C:\\Program Files\\NVIDIA GPU Computing Toolkit\\CUDA"@,
{
    "C:\\Program Files\\NVIDIA GPU Computing Toolkit\\CUDA"
}

/// The names that the library goes by, the newest version first.
pub fn library_name(which: usize) -> (name: &'static str)
    requires
        which < LIBRARY_NAMES,
    ensures
        name@ == if which == 0 {
            "nvjpeg64_13.dll"@
        } else if which == 1 {
            "nvjpeg64_12.dll"@
        } else {
            "nvjpeg64_11.dll"@
        },
{
    if which == 0 {
        "nvjpeg64_13.dll"
    } else if which == 1 {
        "nvjpeg64_12.dll"
    } else {
        "nvjpeg64_11.dll"
    }
}

/// The directories of a toolkit that the library may be in.
pub fn toolkit_subdirectory(which: usize) -> (path: &'static str)
    requires
        which < 2,
    ensures
        path@ == if which == 0 {
            "bin/x64"@
        } else {
            "bin"@
        },
{
    if which == 0 {
        "bin/x64"
    } else {
        "bin"
    }
}

/// An entry of the directory that toolkits are installed in.
#[derive(Debug)]
pub struct DirectoryEntry {
    pub name: String,
    pub is_directory: bool,
}

/// A place to look for the library in.
#[derive(Debug, Clone, Copy, PartialEq, Eq, Structural)]
pub struct LibraryPlace {
    /// The place of the toolkit's directory among the entries.
    pub entry: usize,
    pub subdirectory: usize,
    pub name: usize,
}

/// Entry `i` is looked at before entry `j`: the newer version first, names that are no version
/// last, and equal names in the order of the entries.
pub open spec fn looked_at_before(entries: Seq<DirectoryEntry>, i: int, j: int) -> bool {
    ||| crate::versions::name_before(entries[j].name@, entries[i].name@)
    ||| entries[i].name@ == entries[j].name@ && i < j
}

/// `order` holds the directories among the first `n` entries, each once, in the order in which
/// they are looked at.
pub open spec fn orders(order: Seq<usize>, entries: Seq<DirectoryEntry>, n: int) -> bool {
    &&& forall|i: int|
        0 <= i < n && (#[trigger] entries[i]).is_directory ==> order.contains(i as usize)
    &&& forall|p: int|
        0 <= p < order.len() ==> (#[trigger] order[p]) < n && entries[order[p] as int].is_directory
    &&& forall|p: int, q: int|
        0 <= p < q < order.len() ==> looked_at_before(
            entries,
            #[trigger] order[p] as int,
            #[trigger] order[q] as int,
        )
}

/// The directories of the entries in the order in which they are looked at.
pub fn toolkit_order(entries: &[DirectoryEntry]) -> (order: Vec<usize>)
    ensures
        orders(order@, entries@, entries@.len() as int),
        order@.no_duplicates(),
        forall|i: int|
            0 <= i < entries@.len() ==> (order@.contains(i as usize)
                <==> (#[trigger] entries@[i]).is_directory),
        forall|p: int| 0 <= p < order@.len() ==> #[trigger] order@[p] < entries@.len(),
{
    let mut order: Vec<usize> = Vec::new();
    let mut n: usize = 0;
    while n < entries.len()
        invariant
            n <= entries.len(),
            orders(order@, entries@, n as int),
        decreases entries.len() - n,
    {
        let ghost before = order@;
        if entries[n].is_directory {
            let mut at: usize = 0;
            while at < order.len() && !is_name_before(
                entries[order[at]].name.as_str(),
                entries[n].name.as_str(),
            )
                invariant
                    at <= order.len(),
                    n < entries.len(),
                    order@ == before,
                    orders(before, entries@, n as int),
                    forall|p: int|
                        0 <= p < at ==> !crate::versions::name_before(
                            entries@[#[trigger] before[p] as int].name@,
                            entries@[n as int].name@,
                        ),
                decreases order.len() - at,
            {
                at += 1;
            }
            order.insert(at, n);
            proof {
                lemma_insertion(before, entries@, n, at as int);
            }
        }
        n += 1;
    }
    proof {
        law_each_directory_is_looked_at_once(order@, entries@);
    }
    order
}

/// Entering the next directory before the first one with an older name keeps the order.
proof fn lemma_insertion(before: Seq<usize>, entries: Seq<DirectoryEntry>, n: usize, at: int)
    requires
        n < entries.len(),
        entries[n as int].is_directory,
        orders(before, entries, n as int),
        0 <= at <= before.len(),
        forall|p: int|
            0 <= p < at ==> !crate::versions::name_before(
                entries[#[trigger] before[p] as int].name@,
                entries[n as int].name@,
            ),
        at < before.len() ==> crate::versions::name_before(
            entries[before[at] as int].name@,
            entries[n as int].name@,
        ),
    ensures
        orders(before.insert(at, n), entries, n + 1),
{
    let after = before.insert(at, n);
    let name = entries[n as int].name@;
    assert(after[at] == n);
    assert forall|i: int| 0 <= i < n + 1 && (#[trigger] entries[i]).is_directory implies after.contains(
        i as usize,
    ) by {
        if i < n {
            assert(before.contains(i as usize));
            let k = choose|k: int| 0 <= k < before.len() && before[k] == i as usize;
            if k < at {
                assert(after[k] == before[k]);
            } else {
                assert(after[k + 1] == before[k]);
            }
        }
    }
    assert forall|p: int, q: int| 0 <= p < q < after.len() implies looked_at_before(
        entries,
        #[trigger] after[p] as int,
        #[trigger] after[q] as int,
    ) by {
        if q == at {
            assert(after[p] == before[p]);
            crate::versions::lemma_name_total(entries[before[p] as int].name@, name);
        } else if p == at {
            let k = q - 1;
            assert(after[q] == before[k]);
            let first = entries[before[at] as int].name@;
            let other = entries[before[k] as int].name@;
            if k > at {
                assert(looked_at_before(entries, before[at] as int, before[k] as int));
                if crate::versions::name_before(other, first) {
                    crate::versions::lemma_name_transitive(other, first, name);
                }
            }
        } else {
            let k = if p < at {
                p
            } else {
                p - 1
            };
            let m = if q < at {
                q
            } else {
                q - 1
            };
            assert(after[p] == before[k] && after[q] == before[m]);
            assert(looked_at_before(entries, before[k] as int, before[m] as int));
        }
    }
    assert forall|p: int| 0 <= p < after.len() implies (#[trigger] after[p]) < n + 1
        && entries[after[p] as int].is_directory by {
        if p < at {
            assert(after[p] == before[p]);
        } else if p > at {
            assert(after[p] == before[p - 1]);
        }
    }
}

/// Of two entries only one is looked at before the other.
proof fn lemma_one_before_the_other(entries: Seq<DirectoryEntry>, i: int, j: int)
    requires
        looked_at_before(entries, i, j),
    ensures
        !looked_at_before(entries, j, i),
{
    let a = entries[i].name@;
    let b = entries[j].name@;
    crate::versions::lemma_name_not_before_itself(a);
    if crate::versions::name_before(b, a) && crate::versions::name_before(a, b) {
        crate::versions::lemma_name_transitive(a, b, a);
    }
}

/// Entry `x` of one order stands in the other one at its place.
proof fn lemma_same_place(
    a: Seq<usize>,
    b: Seq<usize>,
    entries: Seq<DirectoryEntry>,
    n: int,
    p: int,
)
    requires
        n <= entries.len() <= usize::MAX,
        orders(a, entries, n),
        orders(b, entries, n),
        0 <= p < a.len(),
        p <= b.len(),
        forall|q: int| 0 <= q < p ==> a[q] == b[q],
    ensures
        p < b.len(),
        a[p] == b[p],
{
    let x = a[p];
    assert(entries[x as int].is_directory);
    assert(b.contains(x));
    let q = choose|q: int| 0 <= q < b.len() && b[q] == x;
    if q < p {
        assert(looked_at_before(entries, a[q] as int, a[p] as int));
        lemma_one_before_the_other(entries, x as int, x as int);
    }
    if b[p] != x {
        let y = b[p];
        assert(looked_at_before(entries, b[p] as int, b[q] as int));
        assert(entries[y as int].is_directory);
        assert(a.contains(y));
        let r = choose|r: int| 0 <= r < a.len() && a[r] == y;
        if r < p {
            assert(looked_at_before(entries, b[r] as int, b[p] as int));
            lemma_one_before_the_other(entries, y as int, y as int);
        }
        assert(looked_at_before(entries, a[p] as int, a[r] as int));
        lemma_one_before_the_other(entries, x as int, y as int);
    }
}

/// The first `p` places of two orders are the same.
proof fn lemma_same_start(
    a: Seq<usize>,
    b: Seq<usize>,
    entries: Seq<DirectoryEntry>,
    n: int,
    p: int,
)
    requires
        n <= entries.len() <= usize::MAX,
        orders(a, entries, n),
        orders(b, entries, n),
        0 <= p <= a.len(),
    ensures
        p <= b.len(),
        forall|q: int| 0 <= q < p ==> a[q] == b[q],
    decreases p,
{
    if p > 0 {
        lemma_same_start(a, b, entries, n, p - 1);
        lemma_same_place(a, b, entries, n, p - 1);
    }
}

/// The directories can be looked at in one order only.
pub proof fn law_order_is_unique(a: Seq<usize>, b: Seq<usize>, entries: Seq<DirectoryEntry>)
    requires
        entries.len() <= usize::MAX,
        orders(a, entries, entries.len() as int),
        orders(b, entries, entries.len() as int),
    ensures
        a == b,
{
    lemma_same_start(a, b, entries, entries.len() as int, a.len() as int);
    lemma_same_start(b, a, entries, entries.len() as int, b.len() as int);
    assert(a =~= b);
}

/// A newer toolkit is looked at before every older one.
pub proof fn law_newest_comes_first(
    order: Seq<usize>,
    entries: Seq<DirectoryEntry>,
    p: int,
    q: int,
)
    requires
        orders(order, entries, entries.len() as int),
        0 <= p < order.len(),
        0 <= q < order.len(),
        crate::versions::older(
            crate::versions::version(entries[order[q] as int].name@),
            crate::versions::version(entries[order[p] as int].name@),
        ),
    ensures
        p < q,
{
    let newer = entries[order[p] as int].name@;
    let other = entries[order[q] as int].name@;
    if p == q {
        crate::versions::lemma_name_not_before_itself(newer);
    } else if q < p {
        assert(looked_at_before(entries, order[q] as int, order[p] as int));
        if crate::versions::name_before(newer, other) {
            crate::versions::lemma_name_transitive(newer, other, newer);
        }
        crate::versions::lemma_name_not_before_itself(newer);
        crate::versions::lemma_name_not_before_itself(other);
    }
}

/// `places` holds the places in each of the directories of `order`, one directory after the
/// other: both subdirectories, and in each every name of the library.
pub open spec fn places_in(places: Seq<LibraryPlace>, order: Seq<usize>) -> bool {
    &&& places.len() == 6 * order.len()
    &&& forall|i: int|
        0 <= i < places.len() ==> #[trigger] places[i] == (LibraryPlace {
            entry: order[i / 6],
            subdirectory: (i % 6 / 3) as usize,
            name: (i % 3) as usize,
        })
}

/// The places to look for the library in, where it is not found by its name alone: the newest
/// toolkit first.
pub fn library_places(entries: &[DirectoryEntry]) -> (places: Vec<LibraryPlace>)
    ensures
        exists|order: Seq<usize>|
            #[trigger] orders(order, entries@, entries@.len() as int) && places_in(places@, order),
        forall|place: LibraryPlace|
            #[trigger] places@.contains(place) <==> place.entry < entries@.len()
                && entries@[place.entry as int].is_directory && place.subdirectory < 2 && place.name
                < 3,
{
    let order = toolkit_order(entries);
    let mut places: Vec<LibraryPlace> = Vec::new();
    let mut i: usize = 0;
    assert(order@.take(0) =~= Seq::<usize>::empty());
    while i < order.len()
        invariant
            i <= order.len(),
            places_in(places@, order@.take(i as int)),
        decreases order.len() - i,
    {
        let entry = order[i];
        assert(order@.take(i + 1)[i as int] == entry);
        assert(forall|j: int| 0 <= j < i ==> #[trigger] order@.take(i + 1)[j] == order@.take(
            i as int,
        )[j]);
        places.push(LibraryPlace { entry, subdirectory: 0, name: 0 });
        places.push(LibraryPlace { entry, subdirectory: 0, name: 1 });
        places.push(LibraryPlace { entry, subdirectory: 0, name: 2 });
        places.push(LibraryPlace { entry, subdirectory: 1, name: 0 });
        places.push(LibraryPlace { entry, subdirectory: 1, name: 1 });
        places.push(LibraryPlace { entry, subdirectory: 1, name: 2 });
        i += 1;
    }
    assert(order@.take(i as int) =~= order@);
    proof {
        assert(entries@.len() == entries.len());
        law_every_place_is_looked_at(places@, order@, entries@);
    }
    places
}

/// Every directory is looked at, and just once; nothing else is.
pub proof fn law_each_directory_is_looked_at_once(order: Seq<usize>, entries: Seq<DirectoryEntry>)
    requires
        entries.len() <= usize::MAX,
        orders(order, entries, entries.len() as int),
    ensures
        order.no_duplicates(),
        forall|i: int|
            0 <= i < entries.len() ==> (order.contains(i as usize)
                <==> (#[trigger] entries[i]).is_directory),
        forall|p: int| 0 <= p < order.len() ==> #[trigger] order[p] < entries.len(),
{
    assert forall|p: int, q: int| 0 <= p < order.len() && 0 <= q < order.len() && p
        != q implies order[p] != order[q] by {
        if order[p] == order[q] {
            if p < q {
                assert(looked_at_before(entries, order[p] as int, order[q] as int));
            } else {
                assert(looked_at_before(entries, order[q] as int, order[p] as int));
            }
            lemma_one_before_the_other(entries, order[p] as int, order[q] as int);
        }
    }
    assert forall|i: int| 0 <= i < entries.len() implies (order.contains(i as usize)
        <==> (#[trigger] entries[i]).is_directory) by {
        if order.contains(i as usize) {
            let p = choose|p: int| 0 <= p < order.len() && order[p] == i as usize;
            assert(entries[order[p] as int].is_directory);
        }
    }
}

/// Of two directories with the same name the one that is listed first is looked at first; of two
/// whose names stand for no version, or for the same one, the one whose name comes last.
pub proof fn law_order_of_equal_versions(
    order: Seq<usize>,
    entries: Seq<DirectoryEntry>,
    p: int,
    q: int,
)
    requires
        orders(order, entries, entries.len() as int),
        0 <= p < q < order.len(),
        crate::versions::version(entries[order[p] as int].name@) == crate::versions::version(
            entries[order[q] as int].name@,
        ),
    ensures
        ({
            let first = entries[order[p] as int].name@;
            let second = entries[order[q] as int].name@;
            if first == second {
                order[p] < order[q]
            } else {
                crate::text::text_before(second, first)
            }
        }),
{
    let first = entries[order[p] as int].name@;
    let second = entries[order[q] as int].name@;
    assert(looked_at_before(entries, order[p] as int, order[q] as int));
    crate::versions::law_equal_versions_go_by_their_characters(second, first);
    crate::versions::lemma_name_not_before_itself(first);
}

/// In each directory the library is looked for under both subdirectories, one after the other, and
/// in each under every name, the newest first.
pub proof fn law_places_in_order(
    places: Seq<LibraryPlace>,
    order: Seq<usize>,
    directory: int,
    subdirectory: int,
    name: int,
)
    requires
        places_in(places, order),
        0 <= directory < order.len(),
        0 <= subdirectory < 2,
        0 <= name < 3,
    ensures
        places.len() == 6 * order.len(),
        places[6 * directory + 3 * subdirectory + name] == (LibraryPlace {
            entry: order[directory],
            subdirectory: subdirectory as usize,
            name: name as usize,
        }),
{
    let i = 6 * directory + 3 * subdirectory + name;
    assert(i / 6 == directory);
    assert(i % 6 == 3 * subdirectory + name);
    assert(i % 6 / 3 == subdirectory);
    assert(i % 3 == name);
    assert(0 <= i < places.len());
}

/// The places are all those in a directory, and no others.
pub proof fn law_every_place_is_looked_at(
    places: Seq<LibraryPlace>,
    order: Seq<usize>,
    entries: Seq<DirectoryEntry>,
)
    requires
        entries.len() <= usize::MAX,
        orders(order, entries, entries.len() as int),
        places_in(places, order),
    ensures
        forall|place: LibraryPlace|
            #[trigger] places.contains(place) <==> place.entry < entries.len()
                && entries[place.entry as int].is_directory && place.subdirectory < 2 && place.name
                < 3,
{
    assert forall|place: LibraryPlace|
        #[trigger] places.contains(place) <==> place.entry < entries.len()
            && entries[place.entry as int].is_directory && place.subdirectory < 2 && place.name
            < 3 by {
        if places.contains(place) {
            let i = choose|i: int| 0 <= i < places.len() && places[i] == place;
            assert(0 <= i / 6 < order.len());
            assert(entries[order[i / 6] as int].is_directory);
            assert(0 <= i % 6 / 3 < 2);
        }
        if place.entry < entries.len() && entries[place.entry as int].is_directory
            && place.subdirectory < 2 && place.name < 3 {
            assert(order.contains(place.entry));
            let d = choose|d: int| 0 <= d < order.len() && order[d] == place.entry;
            law_places_in_order(
                places,
                order,
                d,
                place.subdirectory as int,
                place.name as int,
            );
            assert(places[6 * d + 3 * place.subdirectory + place.name] == place);
        }
    }
}

}
