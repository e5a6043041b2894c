use vstd::prelude::*;

verus! {

/// `items` with each element equal to the one before it dropped; an element
/// equal to `prev` at the front is dropped too. Only consecutive duplicates
/// go: the same line may well appear again later.
pub open spec fn spec_dedup(items: Seq<Seq<char>>, prev: Seq<char>) -> Seq<Seq<char>>
    decreases items.len(),
{
    if items.len() == 0 {
        Seq::<Seq<char>>::empty()
    } else if items[0] == prev {
        spec_dedup(items.drop_first(), prev)
    } else {
        seq![items[0]] + spec_dedup(items.drop_first(), items[0])
    }
}

/// Walks a list of lines, skipping consecutive duplicates. The walk starts
/// with the empty string held as the previous line, so leading empty lines
/// are skipped as well.
pub struct Dedup {
    items: Vec<String>,
    pos: usize,
    prev: String,
}

impl Dedup {
    /// The lines not yet walked.
    pub closed spec fn remaining(&self) -> Seq<Seq<char>> {
        self.items@.map_values(|s: String| s@).skip(self.pos as int)
    }

    /// The line most recently handed out.
    pub closed spec fn prev_line(&self) -> Seq<char> {
        self.prev@
    }

    /// The walk's position never passes the end.
    pub closed spec fn wf(&self) -> bool {
        self.pos <= self.items@.len()
    }

    /// Starts a walk over the given lines.
    pub fn new(items: Vec<String>) -> (d: Dedup)
        ensures
            d.wf(),
            d.remaining() == items@.map_values(|s: String| s@),
            d.prev_line() == Seq::<char>::empty(),
    {
        let d = Dedup { items, pos: 0, prev: String::new() };
        proof {
            assert(d.remaining() =~= d.items@.map_values(|s: String| s@));
        }
        d
    }

    /// The next line that differs from the one before it: what is handed
    /// out, over the whole walk, is exactly the deduplicated list.
    pub fn next(&mut self) -> (r: Option<String>)
        requires
            old(self).wf(),
        ensures
            final(self).wf(),
            r is Some ==> final(self).remaining().len() < old(self).remaining().len(),
            (match r {
                Some(x) => {
                    &&& spec_dedup(old(self).remaining(), old(self).prev_line()) == seq![x@]
                        + spec_dedup(final(self).remaining(), final(self).prev_line())
                    &&& x@ == final(self).prev_line()
                },
                None => {
                    &&& spec_dedup(old(self).remaining(), old(self).prev_line()) == Seq::<
                        Seq<char>,
                    >::empty()
                    &&& final(self).remaining().len() == 0
                },
            }),
    {
        let n = self.items.len();
        while self.pos < n
            invariant
                self.pos <= n,
                n == self.items@.len(),
                self.items == old(self).items,
                old(self).wf(),
                old(self).pos <= self.pos,
                spec_dedup(old(self).remaining(), old(self).prev_line()) == spec_dedup(
                    self.remaining(),
                    self.prev_line(),
                ),
                self.prev == old(self).prev,
            decreases n - self.pos,
        {
            let ghost rem = self.remaining();
            proof {
                assert(rem[0] == self.items@.map_values(|s: String| s@)[self.pos as int]);
            }
            if !(self.items[self.pos] == self.prev) {
                let line = crate::text::clone_string(&self.items[self.pos]);
                self.prev = crate::text::clone_string(&self.items[self.pos]);
                self.pos = self.pos + 1;
                proof {
                    assert(rem.drop_first() =~= self.remaining());
                    assert(spec_dedup(rem, old(self).prev_line()) == seq![line@] + spec_dedup(
                        self.remaining(),
                        self.prev_line(),
                    ));
                }
                return Some(line);
            }
            self.pos = self.pos + 1;
            proof {
                assert(rem.drop_first() =~= self.remaining());
            }
        }
        proof {
            assert(self.remaining() =~= Seq::<Seq<char>>::empty());
        }
        None
    }
}

/// Walking a list with its consecutive duplicates removed.
pub trait ToDedup {
    /// Hands the list to a deduplicating walker.
    fn dedup(self) -> Dedup;
}

impl ToDedup for Vec<String> {
    fn dedup(self) -> Dedup {
        Dedup::new(self)
    }
}

} // verus!
