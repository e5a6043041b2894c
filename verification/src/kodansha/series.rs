use vstd::prelude::*;

use crate::kodansha::volume::{Library, Volume};

verus! {

/// One series, as the series endpoint answers: its id, title, genres, and
/// the owned volumes that belong to it once they are attached.
#[derive(Debug, Clone)]
pub struct Series {
    pub id: u16,
    pub title: String,
    pub genres: Vec<String>,
    pub volumes: Option<Vec<Volume>>,
}

/// The positions, among the first `n` volumes, of those in series `id`,
/// ascending.
pub open spec fn spec_series_indices(vols: Seq<Volume>, id: u16, n: int) -> Seq<usize>
    decreases n,
{
    if n <= 0 {
        Seq::<usize>::empty()
    } else if vols[n - 1].series_id == id {
        spec_series_indices(vols, id, n - 1).push((n - 1) as usize)
    } else {
        spec_series_indices(vols, id, n - 1)
    }
}

/// The distinct series ids among the first `n` volumes, in order of first
/// appearance.
pub open spec fn spec_series_ids(vols: Seq<Volume>, n: int) -> Seq<u16>
    decreases n,
{
    if n <= 0 {
        Seq::<u16>::empty()
    } else {
        let prev = spec_series_ids(vols, n - 1);
        if prev.contains(vols[n - 1].series_id) {
            prev
        } else {
            prev.push(vols[n - 1].series_id)
        }
    }
}

impl Series {
    /// Groups a library's volumes by their series: one group per distinct
    /// series id, in order of first appearance, each holding the positions
    /// of that series' volumes in the library, ascending. The caller fetches
    /// each group's series record and attaches the volumes.
    pub fn series_groups(library: &Library) -> (groups: Vec<(u16, Vec<usize>)>)
        ensures
            groups@.map_values(|g: (u16, Vec<usize>)| g.0) == spec_series_ids(
                library.volumes@,
                library.volumes@.len() as int,
            ),
            forall|k: int|
                0 <= k < groups@.len() ==> (#[trigger] groups@[k]).1@ == spec_series_indices(
                    library.volumes@,
                    groups@[k].0,
                    library.volumes@.len() as int,
                ),
    {
        let vols = &library.volumes;
        let ghost vs = vols@;
        let n = vols.len();
        let mut groups: Vec<(u16, Vec<usize>)> = Vec::new();
        let mut i: usize = 0;
        proof {
            assert(groups@.map_values(|g: (u16, Vec<usize>)| g.0) =~= spec_series_ids(vs, 0));
        }
        while i < n
            invariant
                i <= n,
                n == vs.len(),
                vs == library.volumes@,
                vols@ == vs,
                groups@.map_values(|g: (u16, Vec<usize>)| g.0) == spec_series_ids(vs, i as int),
                forall|k: int|
                    0 <= k < groups@.len() ==> (#[trigger] groups@[k]).1@ == spec_series_indices(
                        vs,
                        groups@[k].0,
                        i as int,
                    ),
                forall|id2: u16|
                    !spec_series_ids(vs, i as int).contains(id2) ==> #[trigger] spec_series_indices(
                        vs,
                        id2,
                        i as int,
                    ) == Seq::<usize>::empty(),
            decreases n - i,
        {
            let id = vols[i].series_id;
            let ghost keys = groups@.map_values(|g: (u16, Vec<usize>)| g.0);
            let mut p: usize = 0;
            let mut found = false;
            while !found && p < groups.len()
                invariant
                    p <= groups@.len(),
                    keys == groups@.map_values(|g: (u16, Vec<usize>)| g.0),
                    !found ==> forall|jj: int| 0 <= jj < p ==> keys[jj] != id,
                    found ==> p < groups@.len() && keys[p as int] == id,
                decreases groups@.len() - p, (if found {
                    0int
                } else {
                    1int
                }),
            {
                if groups[p].0 == id {
                    found = true;
                } else {
                    p = p + 1;
                }
            }
            let ghost before = groups@;
            if found {
                {
                    proof {
                        assert(keys[p as int] == id);
                        assert(keys.contains(id));
                    }
                    let group = &mut groups[p];
                    group.1.push(i);
                    proof {
                        assert(groups@ =~= before.update(p as int, groups@[p as int]));
                        assert(groups@.map_values(|g: (u16, Vec<usize>)| g.0) =~= keys);
                        assert(spec_series_ids(vs, i + 1) =~= keys);
                        assert forall|k: int| 0 <= k < groups@.len() implies (
                        #[trigger] groups@[k]).1@ == spec_series_indices(vs, groups@[k].0, i + 1) by {
                            if k == p {
                                assert(groups@[k].1@ == before[k].1@.push(i));
                                assert(groups@[k].0 == id);
                            } else {
                                assert(groups@[k] == before[k]);
                                assert(groups@[k].0 != id || groups@[k].0 == id);
                                if groups@[k].0 == id {
                                    // Keys are distinct: id sits only at p.
                                    assert(keys[k] == id);
                                    assert(keys[p as int] == id);
                                    lemma_series_ids_distinct(vs, i as int);
                                }
                            }
                        }
                    }
                }
            } else {
                {
                    proof {
                        assert(forall|jj: int| 0 <= jj < keys.len() ==> keys[jj] != id);
                        assert(!keys.contains(id));
                        assert(spec_series_indices(vs, id, i as int) == Seq::<usize>::empty());
                    }
                    let mut members: Vec<usize> = Vec::new();
                    members.push(i);
                    groups.push((id, members));
                    proof {
                        assert(groups@ =~= before.push((id, groups@[before.len() as int].1)));
                        assert(groups@.map_values(|g: (u16, Vec<usize>)| g.0) =~= keys.push(id));
                        assert(spec_series_ids(vs, i + 1) =~= keys.push(id));
                        assert forall|k: int| 0 <= k < groups@.len() implies (
                        #[trigger] groups@[k]).1@ == spec_series_indices(vs, groups@[k].0, i + 1) by {
                            if k == groups@.len() - 1 {
                                assert(groups@[k].0 == id);
                                assert(groups@[k].1@ =~= Seq::<usize>::empty().push(i));
                            } else {
                                assert(groups@[k] == before[k]);
                                if groups@[k].0 == id {
                                    assert(keys[k] == id);
                                    assert(keys.contains(id));
                                }
                            }
                        }
                    }
                }
            }
            proof {
                assert forall|id2: u16|
                    !spec_series_ids(vs, i + 1).contains(id2) implies #[trigger] spec_series_indices(
                    vs,
                    id2,
                    i + 1,
                ) == Seq::<usize>::empty() by {
                    assert(spec_series_ids(vs, i + 1).contains(vs[i as int].series_id)) by {
                        if !spec_series_ids(vs, i as int).contains(vs[i as int].series_id) {
                            assert(spec_series_ids(vs, i + 1) == spec_series_ids(vs, i as int).push(
                                vs[i as int].series_id,
                            ));
                            assert(spec_series_ids(vs, i + 1).last() == vs[i as int].series_id);
                        }
                    }
                    assert(id2 != vs[i as int].series_id);
                    assert(!spec_series_ids(vs, i as int).contains(id2)) by {
                        if spec_series_ids(vs, i as int).contains(id2) {
                            lemma_series_ids_grow(vs, i as int, id2);
                        }
                    }
                    assert(spec_series_indices(vs, id2, i as int) == Seq::<usize>::empty());
                    assert(spec_series_indices(vs, id2, i + 1) == spec_series_indices(
                        vs,
                        id2,
                        i as int,
                    ));
                }
            }
            i = i + 1;
        }
        groups
    }
}

/// A series id once listed stays listed as more volumes are taken.
proof fn lemma_series_ids_grow(vols: Seq<Volume>, n: int, id: u16)
    requires
        0 <= n,
        spec_series_ids(vols, n).contains(id),
    ensures
        spec_series_ids(vols, n + 1).contains(id),
{
    if !spec_series_ids(vols, n).contains(vols[n].series_id) {
        let prev = spec_series_ids(vols, n);
        let k = choose|k: int| 0 <= k < prev.len() && prev[k] == id;
        assert(prev.push(vols[n].series_id)[k] == id);
    }
}

/// The listed series ids are distinct: a key occurs at one position only.
proof fn lemma_series_ids_distinct(vols: Seq<Volume>, n: int)
    requires
        0 <= n,
    ensures
        forall|a: int, b: int|
            0 <= a < b < spec_series_ids(vols, n).len() ==> spec_series_ids(vols, n)[a]
                != spec_series_ids(vols, n)[b],
    decreases n,
{
    if n > 0 {
        lemma_series_ids_distinct(vols, n - 1);
        let prev = spec_series_ids(vols, n - 1);
        let cur = spec_series_ids(vols, n);
        if !prev.contains(vols[n - 1].series_id) {
            assert forall|a: int, b: int| 0 <= a < b < cur.len() implies cur[a] != cur[b] by {
                if b == cur.len() - 1 {
                    assert(cur[b] == vols[n - 1].series_id);
                    assert(cur[a] == prev[a]);
                    if cur[a] == cur[b] {
                        assert(prev.contains(vols[n - 1].series_id));
                    }
                } else {
                    assert(cur[a] == prev[a] && cur[b] == prev[b]);
                }
            }
        }
    }
}

} // verus!
