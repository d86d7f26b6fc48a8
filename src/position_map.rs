//! A map keyed by source position, kept in source order.
use vstd::prelude::*;
use crate::token::Position;

verus! {

/// The file of a position, as characters.
pub open spec fn file_of(p: Position) -> Option<Seq<char>> {
    match p.filepath {
        Some(s) => Some(s@),
        None => None,
    }
}

/// `a` and `b` name the same place: the same file, offset, line and column.
pub open spec fn same_place(a: Position, b: Position) -> bool {
    file_of(a) == file_of(b) && a.offset == b.offset && a.line == b.line && a.column == b.column
}

/// `(fa, a)` comes before `(fb, b)`: by the rank of the file, then offset, line and
/// column.
pub open spec fn key_lt(fa: int, a: Position, fb: int, b: Position) -> bool {
    fa < fb || fa == fb && (a.offset < b.offset || a.offset == b.offset && (a.line < b.line || a.line == b.line
        && a.column < b.column))
}

/// Each key comes strictly before the next one, files ranked by `ranks`.
pub open spec fn strictly_ordered<V>(e: Seq<(Position, V)>, ranks: Seq<usize>) -> bool {
    forall|i: int, j: int| 0 <= i < j < e.len() ==> key_lt(
        #[trigger] ranks[i] as int,
        e[i].0,
        #[trigger] ranks[j] as int,
        e[j].0,
    )
}

/// `new` is `old` with `v` recorded at `p`: the entry `(p, v)` is there, every entry
/// of another place stays, and no other entry comes in.
pub open spec fn logged<V>(old: Seq<(Position, V)>, new: Seq<(Position, V)>, p: Position, v: V) -> bool {
    &&& exists|k: int| 0 <= k < new.len() && new[k] == (p, v)
    &&& forall|i: int| 0 <= i < old.len() && !same_place(#[trigger] old[i].0, p) ==> new.contains(old[i])
    &&& forall|i: int| 0 <= i < new.len() ==> (#[trigger] new[i] == (p, v) || old.contains(new[i]) && !same_place(
        new[i].0,
        p,
    ))
}

/// Within one file, `a` comes before `b` in source order.
pub open spec fn pos_lt(a: Position, b: Position) -> bool {
    a.offset < b.offset || a.offset == b.offset && (a.line < b.line || a.line == b.line && a.column < b.column)
}

fn same_file(a: &Option<String>, b: &Option<String>) -> (r: bool)
    ensures
        r == (match *a {
            Some(s) => Some(s@),
            None => None::<Seq<char>>,
        } == match *b {
            Some(s) => Some(s@),
            None => None::<Seq<char>>,
        }),
{
    match (a, b) {
        (Some(x), Some(y)) => *x == *y,
        (None, None) => true,
        _ => false,
    }
}

/// Entries keyed by position, in source order; one entry per place. Files are ranked
/// in the order in which they first came.
#[derive(Clone, Debug)]
pub struct PositionMap<V> {
    pub entries: Vec<(Position, V)>,
    pub ranks: Vec<usize>,
    pub files: Vec<Option<String>>,
}

impl<V> PositionMap<V> {
    pub open spec fn file_view(&self, k: int) -> Option<Seq<char>> {
        match self.files@[k] {
            Some(s) => Some(s@),
            None => None,
        }
    }

    pub open spec fn wf(&self) -> bool {
        &&& self.ranks.len() == self.entries.len()
        &&& forall|i: int| 0 <= i < self.entries.len() ==> #[trigger] self.ranks@[i] < self.files.len()
            && self.file_view(self.ranks@[i] as int) == file_of(self.entries@[i].0)
        &&& forall|a: int, b: int| 0 <= a < b < self.files.len() ==> self.file_view(a) != self.file_view(b)
        &&& strictly_ordered(self.entries@, self.ranks@)
    }

    pub fn new() -> (r: PositionMap<V>)
        ensures
            r.wf(),
            r.entries@.len() == 0,
    {
        PositionMap { entries: Vec::new(), ranks: Vec::new(), files: Vec::new() }
    }

    /// The rank of the file of `p`, ranking it last if it is new.
    fn rank_of(&mut self, f: &Option<String>) -> (r: usize)
        requires
            old(self).wf(),
        ensures
            final(self).wf(),
            final(self).entries == old(self).entries,
            final(self).ranks == old(self).ranks,
            r < final(self).files.len(),
            final(self).file_view(r as int) == (match *f {
                Some(s) => Some(s@),
                None => None::<Seq<char>>,
            }),
            forall|k: int| 0 <= k < old(self).files.len() ==> final(self).file_view(k) == old(self).file_view(k),
            final(self).files.len() >= old(self).files.len(),
    {
        let mut k: usize = 0;
        while k < self.files.len()
            invariant
                k <= self.files.len(),
                self.wf(),
                *self == *old(self),
                forall|m: int| 0 <= m < k ==> self.file_view(m) != (match *f {
                    Some(s) => Some(s@),
                    None => None::<Seq<char>>,
                }),
            decreases self.files.len() - k,
        {
            if same_file(&self.files[k], f) {
                return k;
            }
            k = k + 1;
        }
        let copy = match f {
            Some(s) => Some(s.clone()),
            None => None,
        };
        let ghost before = *self;
        self.files.push(copy);
        assert forall|i: int| 0 <= i < self.entries.len() implies #[trigger] self.ranks@[i] < self.files.len()
            && self.file_view(self.ranks@[i] as int) == file_of(self.entries@[i].0) by {
            assert(before.wf());
            assert(self.files@[before.ranks@[i] as int] == before.files@[before.ranks@[i] as int]);
        }
        assert forall|m: int| 0 <= m < before.files.len() implies self.file_view(m) == before.file_view(m) by {
            assert(self.files@[m] == before.files@[m]);
        }
        assert forall|a: int, b: int| 0 <= a < b < self.files.len() implies self.file_view(a) != self.file_view(b) by {
            assert(self.file_view(a) == before.file_view(a));
            if b < before.files.len() {
                assert(self.file_view(b) == before.file_view(b));
            }
        }
        k
    }

    /// Records `v` at `p`, replacing what was recorded at the same place.
    pub fn insert(&mut self, p: Position, v: V)
        requires
            old(self).wf(),
        ensures
            final(self).wf(),
            logged(old(self).entries@, final(self).entries@, p, v),
    {
        let f = self.rank_of(&p.filepath);
        let ghost mid = *self;
        let mut k: usize = 0;
        while k < self.entries.len() && (self.ranks[k] < f || self.ranks[k] == f && lt(&self.entries[k].0, &p))
            invariant
                k <= self.entries.len(),
                *self == mid,
                mid.wf(),
                f < mid.files.len(),
                forall|i: int| 0 <= i < k ==> key_lt(#[trigger] self.ranks@[i] as int, self.entries@[i].0, f as int, p),
            decreases self.entries.len() - k,
        {
            k = k + 1;
        }
        let ghost before = self.entries@;
        let ghost rbefore = self.ranks@;
        let at_same = k < self.entries.len() && self.ranks[k] == f && !lt(&p, &self.entries[k].0);
        assert forall|a: int, b: int| 0 <= a < b < mid.files.len() implies mid.file_view(a) != mid.file_view(b) by {
            assert(mid.wf());
        }
        if at_same {
            self.entries.set(k, (p, v));
            assert(self.entries@[k as int] == (p, v));
            assert forall|i: int| 0 <= i < self.entries.len() implies #[trigger] self.ranks@[i] < self.files.len()
                && self.file_view(self.ranks@[i] as int) == file_of(self.entries@[i].0) by {
                if i != k {
                    assert(self.entries@[i] == before[i]);
                }
            }
            assert forall|a: int, b: int| 0 <= a < b < self.entries@.len() implies key_lt(
                #[trigger] self.ranks@[a] as int,
                self.entries@[a].0,
                #[trigger] self.ranks@[b] as int,
                self.entries@[b].0,
            ) by {
                if a != k {
                    assert(self.entries@[a] == before[a]);
                }
                if b != k {
                    assert(self.entries@[b] == before[b]);
                }
                assert(key_lt(rbefore[a] as int, before[a].0, rbefore[b] as int, before[b].0));
            }
            assert forall|i: int| 0 <= i < before.len() && !same_place(#[trigger] before[i].0, p) implies self.entries@.contains(before[i]) by {
                if i == k {
                    assert(mid.file_view(rbefore[i] as int) == file_of(before[i].0));
                }
                assert(i != k);
                assert(self.entries@[i] == before[i]);
            }
            assert forall|i: int| 0 <= i < self.entries@.len() implies (#[trigger] self.entries@[i] == (p, v)
                || before.contains(self.entries@[i]) && !same_place(self.entries@[i].0, p)) by {
                if i != k {
                    assert(self.entries@[i] == before[i]);
                    if i < k {
                        assert(key_lt(rbefore[i] as int, before[i].0, f as int, p));
                    } else {
                        assert(key_lt(rbefore[k as int] as int, before[k as int].0, rbefore[i] as int, before[i].0));
                    }
                    assert(mid.file_view(rbefore[i] as int) == file_of(before[i].0));
                    if rbefore[i] != f {
                        assert(mid.file_view(rbefore[i] as int) != mid.file_view(f as int));
                    }
                }
            }
        } else {
            self.entries.insert(k, (p, v));
            self.ranks.insert(k, f);
            assert(self.entries@[k as int] == (p, v));
            assert forall|i: int| 0 <= i < before.len() && !same_place(#[trigger] before[i].0, p) implies self.entries@.contains(before[i]) by {
                if i < k {
                    assert(self.entries@[i] == before[i]);
                } else {
                    assert(self.entries@[i + 1] == before[i]);
                }
            }
            assert forall|i: int| 0 <= i < self.entries@.len() implies (#[trigger] self.entries@[i] == (p, v)
                || before.contains(self.entries@[i]) && !same_place(self.entries@[i].0, p)) by {
                if i != k {
                    let j = if i < k { i } else { i - 1 };
                    assert(self.entries@[i] == before[j]);
                    assert(mid.file_view(rbefore[j] as int) == file_of(before[j].0));
                    if j < k {
                        assert(key_lt(rbefore[j] as int, before[j].0, f as int, p));
                    } else {
                        assert(!key_lt(rbefore[k as int] as int, before[k as int].0, f as int, p));
                        assert(j == k || key_lt(rbefore[k as int] as int, before[k as int].0, rbefore[j] as int, before[j].0));
                    }
                    if rbefore[j] != f {
                        assert(mid.file_view(rbefore[j] as int) != mid.file_view(f as int));
                    }
                }
            }
            assert forall|i: int| 0 <= i < self.entries.len() implies #[trigger] self.ranks@[i] < self.files.len()
                && self.file_view(self.ranks@[i] as int) == file_of(self.entries@[i].0) by {
                if i < k {
                    assert(self.ranks@[i] == rbefore[i]);
                } else if i > k {
                    assert(self.ranks@[i] == rbefore[i - 1]);
                }
            }
            assert forall|a: int, b: int| 0 <= a < b < self.entries@.len() implies key_lt(
                #[trigger] self.ranks@[a] as int,
                self.entries@[a].0,
                #[trigger] self.ranks@[b] as int,
                self.entries@[b].0,
            ) by {
                if b < k {
                } else if a < k && b == k {
                } else if a < k {
                    assert(self.ranks@[b] == rbefore[b - 1]);
                    if k < before.len() {
                        assert(!key_lt(rbefore[k as int] as int, before[k as int].0, f as int, p));
                        assert(b - 1 == k || key_lt(rbefore[k as int] as int, before[k as int].0, rbefore[b - 1] as int, before[b - 1].0));
                    }
                } else if a == k {
                    assert(self.ranks@[b] == rbefore[b - 1]);
                    assert(!key_lt(rbefore[k as int] as int, before[k as int].0, f as int, p));
                    assert(b - 1 == k || key_lt(rbefore[k as int] as int, before[k as int].0, rbefore[b - 1] as int, before[b - 1].0));
                } else {
                    assert(self.ranks@[a] == rbefore[a - 1]);
                    assert(self.ranks@[b] == rbefore[b - 1]);
                }
            }
        }
        assert forall|a: int, b: int| 0 <= a < b < self.files.len() implies self.file_view(a) != self.file_view(b) by {
            assert(self.files@[a] == mid.files@[a]);
            assert(self.files@[b] == mid.files@[b]);
            assert(mid.file_view(a) != mid.file_view(b));
        }
    }

    /// Returns the entries, in order.
    pub fn iter(&self) -> (r: &Vec<(Position, V)>)
        ensures
            r@ == self.entries@,
    {
        &self.entries
    }

    /// Returns the number of entries.
    pub fn len(&self) -> (r: usize)
        ensures
            r == self.entries@.len(),
    {
        self.entries.len()
    }
}

fn lt(a: &Position, b: &Position) -> (r: bool)
    ensures
        r == pos_lt(*a, *b),
{
    a.offset < b.offset || a.offset == b.offset && (a.line < b.line || a.line == b.line && a.column < b.column)
}

} // verus!
