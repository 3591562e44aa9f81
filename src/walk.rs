use vstd::prelude::*;
use crate::entry::{Directory, Entry};
use crate::order::{sort_by_name, sorts_to};

verus! {

/// The state of a listing between blocks: the directories still to be
/// expanded, in the order they will be, and whether anything was printed.
pub struct Walk {
    /// Pending directories; the next one is on top.
    stack: Vec<Directory>,
    printed: bool,
    /// Directories handed in so far.
    added: Ghost<nat>,
    /// Headers handed out so far.
    headers: Ghost<nat>,
    /// Lines of output so far: entries and headers.
    emitted: Ghost<nat>,
}

/// The next directory to expand, and whether a blank line goes before its
/// header.
pub struct Header {
    pub blank: bool,
    pub dir: Directory,
}

impl Walk {
    /// The pending directories in the order they will be expanded.
    pub closed spec fn pending(&self) -> Seq<Directory> {
        self.stack@.reverse()
    }

    /// Whether any line was printed yet.
    pub closed spec fn has_printed(&self) -> bool {
        self.printed
    }

    /// How many directories the blocks handed in so far held.
    pub closed spec fn added(&self) -> nat {
        self.added@
    }

    /// How many headers were handed out so far.
    pub closed spec fn headers(&self) -> nat {
        self.headers@
    }

    /// How many lines, entries and headers, were handed out so far.
    pub closed spec fn emitted(&self) -> nat {
        self.emitted@
    }

    /// Every directory handed in is either pending or had its header, and
    /// something was printed exactly when a line was handed out.
    pub closed spec fn wf(&self) -> bool {
        &&& self.headers@ + self.stack@.len() == self.added@
        &&& self.printed == (self.emitted@ > 0)
    }

    pub fn new() -> (r: Walk)
        ensures
            r.wf(),
            r.pending().len() == 0,
            !r.has_printed(),
            r.added() == 0,
            r.headers() == 0,
            r.emitted() == 0,
    {
        Walk {
            stack: Vec::new(),
            printed: false,
            added: Ghost(0),
            headers: Ghost(0),
            emitted: Ghost(0),
        }
    }

    /// Takes one collected block: returns its entries sorted by name, for
    /// printing, and puts its directories, sorted by name, before those still
    /// pending, so that they are expanded depth first.
    pub fn produce_output(&mut self, entries: Vec<Entry>, dirs: Vec<Directory>) -> (r: Vec<Entry>)
        requires
            old(self).wf(),
        ensures
            final(self).wf(),
            final(self).added() == old(self).added() + dirs@.len(),
            final(self).headers() == old(self).headers(),
            final(self).emitted() == old(self).emitted() + r@.len(),
            sorts_to(entries@, r@),
            sorts_to(dirs@, final(self).pending().subrange(0, dirs@.len() as int)),
            final(self).pending().subrange(dirs@.len() as int, final(self).pending().len() as int)
                == old(self).pending(),
            final(self).has_printed() == (old(self).has_printed() || r@.len() > 0),
    {
        let sorted_entries = sort_by_name(entries);
        let mut sorted_dirs = sort_by_name(dirs);
        let ghost sd = sorted_dirs@;
        let ghost s0 = self.stack@;
        proof {
            sd.to_multiset_ensures();
            dirs@.to_multiset_ensures();
        }
        let n = sorted_dirs.len();
        let mut k: usize = n;
        while k > 0
            invariant
                k <= n,
                n == sd.len(),
                self.printed == old(self).printed,
                self.added == old(self).added,
                self.headers == old(self).headers,
                self.emitted == old(self).emitted,
                sorted_dirs@ == sd.subrange(0, k as int),
                self.stack@.len() == s0.len() + (n - k),
                self.stack@.subrange(0, s0.len() as int) == s0,
                forall|j: int|
                    0 <= j < n - k ==> #[trigger] self.stack@[s0.len() + j] == sd[n - 1 - j],
            decreases k,
        {
            let d = sorted_dirs.pop().unwrap();
            self.stack.push(d);
            k = k - 1;
            assert(sorted_dirs@ =~= sd.subrange(0, k as int));
            assert(self.stack@.subrange(0, s0.len() as int) =~= s0);
        }
        proof {
            let p = self.stack@.reverse();
            assert forall|i: int| 0 <= i < n implies #[trigger] p[i] == sd[i] by {
                let j = n - 1 - i;
                assert(self.stack@[s0.len() + j] == sd[n - 1 - j]);
            }
            assert(p.subrange(0, n as int) =~= sd);
            assert forall|i: int| n <= i < p.len() implies #[trigger] p[i] == s0.reverse()[i - n] by {
                assert(self.stack@[p.len() - 1 - i] == self.stack@.subrange(0, s0.len() as int)[p.len() - 1 - i]);
            }
            assert(p.subrange(n as int, p.len() as int) =~= s0.reverse());
        }
        if sorted_entries.len() > 0 {
            self.printed = true;
        }
        proof {
            sorted_entries@.to_multiset_ensures();
            entries@.to_multiset_ensures();
            self.added@ = self.added@ + dirs@.len();
            self.emitted@ = self.emitted@ + sorted_entries@.len();
        }
        sorted_entries
    }

    /// Takes the next pending directory, with a blank line before its header
    /// when anything was printed before; `None` when none is left.
    pub fn next_header(&mut self) -> (r: Option<Header>)
        requires
            old(self).wf(),
        ensures
            final(self).wf(),
            final(self).added() == old(self).added(),
            r is Some ==> final(self).headers() == old(self).headers() + 1 && final(self).emitted()
                == old(self).emitted() + 1,
            r is None ==> final(self).headers() == old(self).headers() && final(self).emitted()
                == old(self).emitted(),
            r matches Some(h) ==> h.blank == (old(self).emitted() > 0),
            old(self).pending().len() == 0 ==> r is None && final(self).pending() == old(
                self,
            ).pending() && final(self).has_printed() == old(self).has_printed(),
            old(self).pending().len() > 0 ==> r is Some && final(self).pending() == old(
                self,
            ).pending().drop_first() && final(self).has_printed(),
            r matches Some(h) ==> (h.dir == old(self).pending()[0] && h.blank == old(
                self,
            ).has_printed()),
    {
        let ghost s0 = self.stack@;
        match self.stack.pop() {
            None => None,
            Some(dir) => {
                let blank = self.printed;
                self.printed = true;
                proof {
                    self.headers@ = self.headers@ + 1;
                    self.emitted@ = self.emitted@ + 1;
                    assert(self.stack@ =~= s0.drop_last());
                    assert(s0.reverse()[0] == s0.last());
                    assert(s0.drop_last().reverse() =~= s0.reverse().drop_first());
                }
                Some(Header { blank, dir })
            },
        }
    }
}

/// Once no directory is pending, the walk has handed out exactly one header
/// for each directory handed in: top-level ones and every one found below.
pub proof fn lemma_one_header_per_directory(w: Walk)
    requires
        w.wf(),
        w.pending().len() == 0,
    ensures
        w.headers() == w.added(),
{
}

/// The header line of a directory's block: its path and a colon.
pub fn header_line(path: &String) -> (r: String)
    ensures
        r@ == path@.push(':'),
{
    let mut r = path.clone();
    r.append(":");
    proof {
        reveal_strlit(":");
        assert(r@ =~= path@.push(':'));
    }
    r
}

} // verus!
