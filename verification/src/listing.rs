//! The map listing: the HTML fragment assembled at startup from one scan of
//! the maps directory, one table-row link per subdirectory found there.

use vstd::prelude::*;

verus! {

/// One immediate child of the maps directory, as the startup scan saw it:
/// its base name and whether it is itself a directory.
pub struct MapEntry {
    pub name: String,
    pub is_dir: bool,
}

/// The table-row link emitted for one map name.
pub open spec fn row_of(name: Seq<char>) -> Seq<char> {
    "<tr><td><a href='/map/"@ + name + "'>"@ + name + "</a></td></tr>"@
}

/// The names of the scanned entries that are directories, in scan order.
pub open spec fn dir_names(entries: Seq<MapEntry>) -> Seq<Seq<char>>
    decreases entries.len(),
{
    if entries.len() == 0 {
        Seq::empty()
    } else if entries.last().is_dir {
        dir_names(entries.drop_last()).push(entries.last().name@)
    } else {
        dir_names(entries.drop_last())
    }
}

/// The concatenation of one table row per name, in order.
pub open spec fn rows_of(names: Seq<Seq<char>>) -> Seq<char>
    decreases names.len(),
{
    if names.len() == 0 {
        Seq::empty()
    } else {
        rows_of(names.drop_last()) + row_of(names.last())
    }
}

/// The whole listing fragment for a scan: one row per directory entry and
/// nothing for any other entry.
pub open spec fn fragment_of(entries: Seq<MapEntry>) -> Seq<char> {
    rows_of(dir_names(entries))
}

/// Appending one name appends exactly its row to the concatenation.
proof fn lemma_rows_of_push(names: Seq<Seq<char>>, name: Seq<char>)
    ensures
        rows_of(names.push(name)) == rows_of(names) + row_of(name),
{
    assert(names.push(name).drop_last() =~= names);
    assert(names.push(name).last() == name);
}

/// Build the listing fragment from the scanned entries: one table-row link
/// per directory entry, in scan order; other entries contribute nothing.
pub fn build_map_listing_fragment(entries: &Vec<MapEntry>) -> (r: String)
    ensures
        r@ == fragment_of(entries@),
{
    let mut out = String::new();
    let mut idx: usize = 0;
    while idx < entries.len()
        invariant
            idx <= entries.len(),
            out@ == fragment_of(entries@.subrange(0, idx as int)),
        decreases entries.len() - idx,
    {
        let e = &entries[idx];
        if e.is_dir {
            out.append("<tr><td><a href='/map/");
            out.append(e.name.as_str());
            out.append("'>");
            out.append(e.name.as_str());
            out.append("</a></td></tr>");
        }
        proof {
            let pre = entries@.subrange(0, idx as int);
            let cur = entries@.subrange(0, idx as int + 1);
            assert(cur.drop_last() =~= pre);
            assert(cur.last() == entries@[idx as int]);
            if entries@[idx as int].is_dir {
                lemma_rows_of_push(dir_names(pre), entries@[idx as int].name@);
                assert(out@ =~= rows_of(dir_names(pre)) + row_of(entries@[idx as int].name@));
            }
        }
        idx += 1;
    }
    proof {
        assert(entries@.subrange(0, entries@.len() as int) =~= entries@);
    }
    out
}

/// Each row is at least as long as its fixed markup.
proof fn lemma_row_of_len(name: Seq<char>)
    ensures
        row_of(name).len() == 38 + 2 * name.len(),
{
    reveal_strlit("<tr><td><a href='/map/");
    reveal_strlit("'>");
    reveal_strlit("</a></td></tr>");
}

/// `dir_names` is empty exactly when no scanned entry is a directory.
proof fn lemma_dir_names_empty_iff(entries: Seq<MapEntry>)
    ensures
        dir_names(entries).len() == 0 <==> forall|k: int|
            0 <= k < entries.len() ==> !entries[k].is_dir,
    decreases entries.len(),
{
    if entries.len() == 0 {
    } else {
        lemma_dir_names_empty_iff(entries.drop_last());
        let pre = entries.drop_last();
        if dir_names(entries).len() == 0 {
            assert(!entries.last().is_dir);
            assert forall|k: int| 0 <= k < entries.len() implies !entries[k].is_dir by {
                if k < entries.len() - 1 {
                    assert(pre[k] == entries[k]);
                }
            }
        } else {
            if forall|k: int| 0 <= k < entries.len() ==> !entries[k].is_dir {
                assert forall|k: int| 0 <= k < pre.len() implies !pre[k].is_dir by {
                    assert(pre[k] == entries[k]);
                }
                assert(!entries.last().is_dir);
                assert(dir_names(entries).len() == 0);
            }
        }
    }
}

/// Law: the fragment is the empty string exactly when the scan found no
/// subdirectory — in particular, an empty or absent maps directory yields
/// the empty fragment, and every subdirectory found makes it nonempty.
pub proof fn lemma_fragment_empty_iff_no_dirs(entries: Seq<MapEntry>)
    ensures
        fragment_of(entries).len() == 0 <==> forall|k: int|
            0 <= k < entries.len() ==> !entries[k].is_dir,
{
    lemma_dir_names_empty_iff(entries);
    let names = dir_names(entries);
    if names.len() > 0 {
        lemma_row_of_len(names.last());
        assert(rows_of(names).len() >= row_of(names.last()).len());
    }
}

/// Every listed name is the name of some scanned directory entry.
proof fn lemma_dir_names_membership(entries: Seq<MapEntry>, j: int)
    requires
        0 <= j < dir_names(entries).len(),
    ensures
        exists|k: int|
            0 <= k < entries.len() && (#[trigger] entries[k]).is_dir && entries[k].name@
                == dir_names(entries)[j],
    decreases entries.len(),
{
    let pre = entries.drop_last();
    if entries.last().is_dir && j == dir_names(pre).len() {
        assert(entries[entries.len() - 1] == entries.last());
    } else {
        lemma_dir_names_membership(pre, j);
        let k = choose|k: int|
            0 <= k < pre.len() && (#[trigger] pre[k]).is_dir && pre[k].name@ == dir_names(pre)[j];
        assert(pre[k] == entries[k]);
        assert(dir_names(entries)[j] == dir_names(pre)[j]);
    }
}

/// Law: distinct scanned names give distinct listed names — the listing
/// links each discovered map once, with no duplicate entry.
pub proof fn lemma_dir_names_distinct(entries: Seq<MapEntry>)
    requires
        forall|a: int, b: int|
            0 <= a < b < entries.len() ==> (#[trigger] entries[a]).name@ != (
            #[trigger] entries[b]).name@,
    ensures
        forall|a: int, b: int|
            0 <= a < b < dir_names(entries).len() ==> dir_names(entries)[a] != dir_names(
                entries,
            )[b],
    decreases entries.len(),
{
    if entries.len() > 0 {
        let pre = entries.drop_last();
        let dn = dir_names(entries);
        let dnp = dir_names(pre);
        assert forall|a: int, b: int|
            0 <= a < b < pre.len() implies (#[trigger] pre[a]).name@ != (
        #[trigger] pre[b]).name@ by {
            assert(pre[a] == entries[a]);
            assert(pre[b] == entries[b]);
        }
        lemma_dir_names_distinct(pre);
        assert forall|a: int, b: int| 0 <= a < b < dn.len() implies dn[a] != dn[b] by {
            if b < dnp.len() {
                assert(dn[a] == dnp[a]);
                assert(dn[b] == dnp[b]);
            } else {
                assert(entries.last().is_dir);
                assert(dn[b] == entries.last().name@);
                lemma_dir_names_membership(pre, a);
                let k = choose|k: int|
                    0 <= k < pre.len() && (#[trigger] pre[k]).is_dir && pre[k].name@ == dnp[a];
                assert(pre[k] == entries[k]);
                assert(entries.last() == entries[entries.len() - 1]);
                assert(entries[k].name@ != entries[entries.len() - 1].name@);
                assert(dn[a] == dnp[a]);
            }
        }
    }
}

/// Law: each subdirectory's row stands whole somewhere in the concatenation.
pub proof fn lemma_rows_of_contains(names: Seq<Seq<char>>, k: int)
    requires
        0 <= k < names.len(),
    ensures
        exists|off: int|
            0 <= off && off + row_of(names[k]).len() <= rows_of(names).len()
                && #[trigger] rows_of(names).subrange(off, off + row_of(names[k]).len() as int)
                == row_of(names[k]),
    decreases names.len(),
{
    let row = row_of(names[k]);
    if k == names.len() - 1 {
        let off = rows_of(names.drop_last()).len() as int;
        assert(rows_of(names).subrange(off, off + row.len() as int) =~= row);
    } else {
        lemma_rows_of_contains(names.drop_last(), k);
        assert(names.drop_last()[k] == names[k]);
        let off = choose|off: int|
            0 <= off && off + row.len() <= rows_of(names.drop_last()).len()
                && #[trigger] rows_of(names.drop_last()).subrange(off, off + row.len() as int)
                == row;
        assert(rows_of(names).subrange(off, off + row.len() as int) =~= row);
    }
}

} // verus!
