use vstd::prelude::*;

use crate::text::clone_string;

verus! {

/// One node of the destination-directory browser: a path, whether it is a
/// directory, whether it is unfolded, and its loaded children, if any.
pub struct Tree {
    pub path: String,
    pub children: Option<Vec<Tree>>,
    pub open: bool,
    pub dir: bool,
}

/// The number of nodes in a tree; the termination measure for walks.
pub open spec fn spec_size(t: Tree) -> nat
    decreases t,
{
    1 + (match t.children {
        Some(c) => spec_size_list(c@),
        None => 0,
    })
}

/// The number of nodes in a forest.
pub open spec fn spec_size_list(ts: Seq<Tree>) -> nat
    decreases ts,
{
    if ts.len() == 0 {
        0
    } else {
        spec_size(ts[0]) + spec_size_list(ts.drop_first())
    }
}

/// A tree in a forest is no bigger than the forest.
pub proof fn lemma_size_list_element(ts: Seq<Tree>, i: int)
    requires
        0 <= i < ts.len(),
    ensures
        spec_size(ts[i]) <= spec_size_list(ts),
    decreases ts.len(),
{
    if i > 0 {
        lemma_size_list_element(ts.drop_first(), i - 1);
        assert(ts.drop_first()[i - 1] == ts[i]);
    }
}

/// The nodes a tree shows, in display order: a non-directory shows nothing,
/// a folded directory shows itself, an unfolded one shows itself and then
/// its children's rows.
pub open spec fn spec_visible(t: Tree) -> Seq<Tree>
    decreases t,
{
    if !t.dir {
        Seq::<Tree>::empty()
    } else if t.open && t.children is Some {
        seq![t] + spec_visible_list(t.children->0@)
    } else {
        seq![t]
    }
}

/// The rows a forest shows, in order.
pub open spec fn spec_visible_list(ts: Seq<Tree>) -> Seq<Tree>
    decreases ts,
{
    if ts.len() == 0 {
        Seq::<Tree>::empty()
    } else {
        spec_visible(ts[0]) + spec_visible_list(ts.drop_first())
    }
}

/// Appending one tree to a forest appends its rows.
pub proof fn lemma_visible_list_push(ts: Seq<Tree>, x: Tree)
    ensures
        spec_visible_list(ts.push(x)) == spec_visible_list(ts) + spec_visible(x),
    decreases ts.len(),
{
    if ts.len() == 0 {
        let p = ts.push(x);
        assert(p[0] == x);
        assert(p.drop_first() =~= Seq::<Tree>::empty());
        assert(spec_visible_list(p) == spec_visible(x) + spec_visible_list(
            Seq::<Tree>::empty(),
        ));
        assert(spec_visible_list(p) =~= spec_visible_list(ts) + spec_visible(x));
    } else {
        assert(ts.push(x).drop_first() =~= ts.drop_first().push(x));
        assert(ts.push(x)[0] == ts[0]);
        lemma_visible_list_push(ts.drop_first(), x);
        assert(spec_visible_list(ts.push(x)) == spec_visible(ts[0]) + spec_visible_list(
            ts.drop_first().push(x),
        ));
        assert(spec_visible_list(ts.push(x)) =~= spec_visible_list(ts) + spec_visible(x));
    }
}

/// Walking a tree for the row at position `i`: the row itself, or how many
/// positions are left after this whole subtree was passed over.
pub open spec fn spec_get(t: Tree, i: int) -> Result<Tree, int>
    decreases t,
{
    if !t.dir {
        Err(i)
    } else if i == 0 {
        Ok(t)
    } else if t.open && t.children is Some {
        spec_get_list(t.children->0@, i - 1)
    } else {
        Err(i - 1)
    }
}

/// Walking a forest for the row at position `i`.
pub open spec fn spec_get_list(ts: Seq<Tree>, i: int) -> Result<Tree, int>
    decreases ts,
{
    if ts.len() == 0 {
        Err(i)
    } else {
        match spec_get(ts[0], i) {
            Ok(node) => Ok(node),
            Err(rest) => spec_get_list(ts.drop_first(), rest),
        }
    }
}

/// The walk agrees with the display order: position `i` finds exactly the
/// `i`-th visible row, and a position past the end misses with exactly the
/// overshoot left over.
pub proof fn lemma_get_finds_visible_row(t: Tree, i: int)
    requires
        0 <= i,
    ensures
        i < spec_visible(t).len() ==> spec_get(t, i) == Ok::<Tree, int>(spec_visible(t)[i]),
        i >= spec_visible(t).len() ==> spec_get(t, i) == Err::<Tree, int>(
            i - spec_visible(t).len(),
        ),
    decreases t,
{
    if t.dir && i > 0 {
        if t.open && t.children is Some {
            lemma_get_list_finds_visible_row(t.children->0@, i - 1);
            assert(spec_visible(t) == seq![t] + spec_visible_list(t.children->0@));
            if i < spec_visible(t).len() {
                assert(spec_visible(t)[i] == spec_visible_list(t.children->0@)[i - 1]);
            }
        }
    }
}

/// The forest version of the same fact.
pub proof fn lemma_get_list_finds_visible_row(ts: Seq<Tree>, i: int)
    requires
        0 <= i,
    ensures
        i < spec_visible_list(ts).len() ==> spec_get_list(ts, i) == Ok::<Tree, int>(
            spec_visible_list(ts)[i],
        ),
        i >= spec_visible_list(ts).len() ==> spec_get_list(ts, i) == Err::<Tree, int>(
            i - spec_visible_list(ts).len(),
        ),
    decreases ts,
{
    if ts.len() > 0 {
        let head = spec_visible(ts[0]);
        lemma_get_finds_visible_row(ts[0], i);
        if i < head.len() {
            assert(spec_visible_list(ts)[i] == head[i]);
        } else {
            lemma_get_list_finds_visible_row(ts.drop_first(), i - head.len());
            if i < spec_visible_list(ts).len() {
                assert(spec_visible_list(ts)[i] == spec_visible_list(ts.drop_first())[i
                    - head.len()]);
            }
        }
    }
}

impl Tree {
    /// A fresh node: children unknown, folded. `dir` says whether the path
    /// names a directory; only directories are ever shown.
    pub fn new(path: String, dir: bool) -> (t: Tree)
        ensures
            t.path == path,
            t.children is None,
            !t.open,
            t.dir == dir,
    {
        Tree { path, children: None, open: false, dir }
    }

    /// Replaces the children.
    pub fn set_children(&mut self, children: Vec<Tree>)
        ensures
            final(self).children == Some(children),
            final(self).path == old(self).path,
            final(self).open == old(self).open,
            final(self).dir == old(self).dir,
    {
        self.children = Some(children);
    }

    /// Replaces the children, or clears them.
    pub fn set_children_optional(&mut self, children: Option<Vec<Tree>>)
        ensures
            final(self).children == children,
            final(self).path == old(self).path,
            final(self).open == old(self).open,
            final(self).dir == old(self).dir,
    {
        self.children = children;
    }

    /// Folds or unfolds this node.
    pub fn toggl(&mut self)
        ensures
            final(self).open == !old(self).open,
            final(self).path == old(self).path,
            final(self).children == old(self).children,
            final(self).dir == old(self).dir,
    {
        self.open = !self.open;
    }

    /// Unfolds this node.
    pub fn open(&mut self)
        ensures
            final(self).open,
            final(self).path == old(self).path,
            final(self).children == old(self).children,
            final(self).dir == old(self).dir,
    {
        self.open = true;
    }

    /// The path this node stands for.
    pub fn path(&self) -> (p: &String)
        ensures
            p == self.path,
    {
        &self.path
    }

    /// Whether this node names a directory.
    pub fn is_dir(&self) -> (d: bool)
        ensures
            d == self.dir,
    {
        self.dir
    }

    /// The paths of the rows this tree shows, in display order.
    pub fn visible_paths(&self) -> (rows: Vec<String>)
        ensures
            rows@.map_values(|s: String| s@) == spec_visible(*self).map_values(
                |t: Tree| t.path@,
            ),
        decreases spec_size(*self),
    {
        let mut rows: Vec<String> = Vec::new();
        if !self.dir {
            proof {
                assert(rows@.map_values(|s: String| s@) =~= spec_visible(*self).map_values(
                    |t: Tree| t.path@,
                ));
            }
            return rows;
        }
        rows.push(clone_string(&self.path));
        if self.open {
            if let Some(children) = &self.children {
                let ghost cs = children@;
                let n = children.len();
                let mut i: usize = 0;
                proof {
                    assert(cs.subrange(0, 0) =~= Seq::<Tree>::empty());
                }
                while i < n
                    invariant
                        i <= n,
                        n == cs.len(),
                        self.dir,
                        self.open,
                        self.children is Some,
                        self.children->0@ == cs,
                        cs == children@,
                        rows@.map_values(|s: String| s@) == (seq![*self]
                            + spec_visible_list(cs.subrange(0, i as int))).map_values(
                            |t: Tree| t.path@,
                        ),
                    decreases n - i,
                {
                    proof {
                        lemma_size_list_element(cs, i as int);
                    }
                    let child_rows = children[i].visible_paths();
                    let ghost crows = child_rows@;
                    let mut child_rows = child_rows;
                    let ghost before = rows@;
                    rows.append(&mut child_rows);
                    proof {
                        let fs = |s: String| s@;
                        let fp = |t: Tree| t.path@;
                        assert(rows@ == before + crows);
                        assert(rows@.map_values(fs) =~= before.map_values(fs) + crows.map_values(
                            fs,
                        ));
                        assert(cs.subrange(0, i + 1) =~= cs.subrange(0, i as int).push(cs[i as int]));
                        lemma_visible_list_push(cs.subrange(0, i as int), cs[i as int]);
                        assert((seq![*self] + spec_visible_list(cs.subrange(0, i + 1))).map_values(
                            fp,
                        ) =~= (seq![*self] + spec_visible_list(cs.subrange(0, i as int))).map_values(
                            fp,
                        ) + spec_visible(cs[i as int]).map_values(fp));
                        assert(rows@.map_values(fs) =~= (seq![*self] + spec_visible_list(
                            cs.subrange(0, i + 1),
                        )).map_values(fp));
                    }
                    i = i + 1;
                }
                proof {
                    assert(cs.subrange(0, n as int) =~= cs);
                    assert(rows@.map_values(|s: String| s@) =~= spec_visible(*self).map_values(
                        |t: Tree| t.path@,
                    ));
                }
                return rows;
            }
        }
        proof {
            assert(rows@.map_values(|s: String| s@) =~= spec_visible(*self).map_values(
                |t: Tree| t.path@,
            ));
        }
        rows
    }

    /// The row at display position `index`, walking rows in display order;
    /// on a miss, `index` is left holding how many positions remain after
    /// this subtree.
    pub fn get<'a>(&'a self, index: &mut usize) -> (r: Option<&'a Tree>)
        ensures
            (match spec_get(*self, *old(index) as int) {
                Ok(node) => r matches Some(found) && *found == node,
                Err(rest) => r is None && *final(index) == rest,
            }),
        decreases spec_size(*self),
    {
        if !self.dir {
            return None;
        }
        if *index == 0 {
            return Some(self);
        }
        *index = *index - 1;
        if self.open {
            if let Some(children) = &self.children {
                let ghost cs = children@;
                let n = children.len();
                let mut i: usize = 0;
                proof {
                    assert(cs.subrange(0, n as int) =~= cs);
                }
                while i < n
                    invariant
                        i <= n,
                        n == cs.len(),
                        self.dir,
                        self.open,
                        self.children is Some,
                        self.children->0@ == cs,
                        cs == children@,
                        *old(index) >= 1,
                        spec_get_list(cs, *old(index) - 1) == spec_get_list(
                            cs.subrange(i as int, n as int),
                            *index as int,
                        ),
                    decreases n - i,
                {
                    proof {
                        lemma_size_list_element(cs, i as int);
                        assert(cs.subrange(i as int, n as int)[0] == cs[i as int]);
                        assert(cs.subrange(i as int, n as int).drop_first() =~= cs.subrange(
                            i + 1,
                            n as int,
                        ));
                    }
                    match children[i].get(index) {
                        Some(node) => {
                            return Some(node);
                        },
                        None => {},
                    }
                    i = i + 1;
                }
                proof {
                    assert(cs.subrange(n as int, n as int) =~= Seq::<Tree>::empty());
                }
                return None;
            }
        }
        None
    }
}

} // verus!
