//! Arrangements: indices of a relation's facts by the key a join function
//! projects them to, kept in step with the relation by signed deltas.

use vstd::prelude::*;
use crate::fact::{Fact, Rel, rel_of};
use crate::rules::{JoinFn, arranged_key};

verus! {

broadcast use vstd::seq_lib::group_seq_properties;

/// Whether fact `b` of `db` stands in the arrangement of relation `with` by
/// `via` under key `k`.
pub open spec fn arranges(db: Set<Fact>, with: Rel, via: JoinFn, k: i64, b: Fact) -> bool {
    db.contains(b) && rel_of(b) == with && arranged_key(via, b) == Some(k)
}

/// An index of the facts of one relation by key.
pub struct Arrangement {
    with: Rel,
    via: JoinFn,
    entries: Vec<(i64, Fact)>,
}

impl View for Arrangement {
    type V = Set<(i64, Fact)>;

    closed spec fn view(&self) -> Set<(i64, Fact)> {
        self.entries@.to_set()
    }
}

/// Whether `e` holds the pair `(k, b)`.
fn has_entry(e: &Vec<(i64, Fact)>, k: i64, b: &Fact) -> (r: bool)
    ensures
        r == e@.contains((k, *b)),
{
    let mut i: usize = 0;
    while i < e.len()
        invariant
            i <= e.len(),
            forall|j: int| 0 <= j < i ==> e@[j] != (k, *b),
        decreases e.len() - i,
    {
        if e[i].0 == k && e[i].1 == *b {
            return true;
        }
        i += 1;
    }
    false
}

impl Arrangement {
    pub closed spec fn wf(&self) -> bool {
        &&& self.entries@.no_duplicates()
        &&& forall|k: i64, b: Fact|
            #[trigger] self.entries@.contains((k, b)) ==> rel_of(b) == self.with && arranged_key(
                self.via,
                b,
            ) == Some(k)
    }

    /// The relation this arrangement indexes.
    pub closed spec fn source(&self) -> Rel {
        self.with
    }

    /// The join function whose key this arrangement uses.
    pub closed spec fn key_fn(&self) -> JoinFn {
        self.via
    }

    /// Indexes the facts of relation `with` in `db` by the key `via` gives them.
    pub fn build(db: &Vec<Fact>, with: Rel, via: JoinFn) -> (r: Arrangement)
        requires
            db@.no_duplicates(),
        ensures
            r.wf(),
            r.source() == with,
            r.key_fn() == via,
            forall|k: i64, b: Fact| #[trigger] r@.contains((k, b)) <==> arranges(db@.to_set(), with, via, k, b),
    {
        let mut entries: Vec<(i64, Fact)> = Vec::new();
        let mut i: usize = 0;
        while i < db.len()
            invariant
                i <= db.len(),
                db@.no_duplicates(),
                entries@.no_duplicates(),
                forall|k: i64, b: Fact|
                    #[trigger] entries@.contains((k, b)) <==> db@.subrange(0, i as int).contains(b)
                        && rel_of(b) == with && arranged_key(via, b) == Some(k),
            decreases db.len() - i,
        {
            let b = db[i];
            assert(db@.subrange(0, i + 1) =~= db@.subrange(0, i as int).push(b));
            if b.rel() == with {
                match via.arranged_key(&b) {
                    Some(k) => {
                        proof {
                            if entries@.contains((k, b)) {
                                let j = choose|j: int| 0 <= j < i && db@.subrange(0, i as int)[j] == b;
                                assert(db@[j] == db@[i as int]);
                            }
                        }
                        entries.push((k, b));
                    },
                    None => {},
                }
            }
            i += 1;
        }
        assert(db@.subrange(0, db.len() as int) =~= db@);
        Arrangement { with, via, entries }
    }

    /// The facts arranged under key `k`.
    pub fn lookup(&self, k: i64) -> (r: Vec<Fact>)
        requires
            self.wf(),
        ensures
            r@.no_duplicates(),
            forall|b: Fact| #[trigger] r@.contains(b) <==> self@.contains((k, b)),
    {
        let mut r: Vec<Fact> = Vec::new();
        let mut i: usize = 0;
        while i < self.entries.len()
            invariant
                i <= self.entries.len(),
                self.wf(),
                r@.no_duplicates(),
                forall|b: Fact|
                    #[trigger] r@.contains(b) <==> self.entries@.subrange(0, i as int).contains((k, b)),
            decreases self.entries.len() - i,
        {
            let (k2, b) = self.entries[i];
            assert(self.entries@.subrange(0, i + 1) =~= self.entries@.subrange(0, i as int).push((k2, b)));
            if k2 == k {
                proof {
                    if r@.contains(b) {
                        let j = choose|j: int| 0 <= j < i && self.entries@.subrange(0, i as int)[j] == (k, b);
                        assert(self.entries@[j] == self.entries@[i as int]);
                    }
                }
                r.push(b);
            }
            i += 1;
        }
        assert(self.entries@.subrange(0, self.entries.len() as int) =~= self.entries@);
        r
    }

    /// Brings the arrangement in step with a change of weight `w` of fact `f`
    /// in the relation: a positive weight adds it, a negative one removes it.
    /// A fact of another relation, or with no key, leaves it as it is.
    pub fn apply_delta(&mut self, f: Fact, w: i64)
        requires
            old(self).wf(),
        ensures
            final(self).wf(),
            final(self).source() == old(self).source(),
            final(self).key_fn() == old(self).key_fn(),
            rel_of(f) != old(self).source() || arranged_key(old(self).key_fn(), f) is None || w == 0
                ==> final(self)@ == old(self)@,
            rel_of(f) == old(self).source() && w > 0 ==> (arranged_key(old(self).key_fn(), f) matches Some(k)
                ==> final(self)@ == old(self)@.insert((k, f))),
            rel_of(f) == old(self).source() && w < 0 ==> (arranged_key(old(self).key_fn(), f) matches Some(k)
                ==> final(self)@ == old(self)@.remove((k, f))),
    {
        if f.rel() != self.with || w == 0 {
            return;
        }
        let k = match self.via.arranged_key(&f) {
            Some(k) => k,
            None => {
                return;
            },
        };
        if w > 0 {
            if !has_entry(&self.entries, k, &f) {
                self.entries.push((k, f));
            }
            assert(self@ =~= old(self)@.insert((k, f)));
        } else {
            let mut kept: Vec<(i64, Fact)> = Vec::new();
            let mut i: usize = 0;
            while i < self.entries.len()
                invariant
                    i <= self.entries.len(),
                    self.wf(),
                    self.entries == old(self).entries,
                    kept@.no_duplicates(),
                    forall|e: (i64, Fact)|
                        #[trigger] kept@.contains(e) <==> self.entries@.subrange(0, i as int).contains(e)
                            && e != (k, f),
                decreases self.entries.len() - i,
            {
                let e = self.entries[i];
                assert(self.entries@.subrange(0, i + 1) =~= self.entries@.subrange(0, i as int).push(e));
                if !(e.0 == k && e.1 == f) {
                    proof {
                        if kept@.contains(e) {
                            let j = choose|j: int| 0 <= j < i && self.entries@.subrange(0, i as int)[j] == e;
                            assert(self.entries@[j] == self.entries@[i as int]);
                        }
                    }
                    kept.push(e);
                }
                i += 1;
            }
            assert(self.entries@.subrange(0, self.entries.len() as int) =~= self.entries@);
            self.entries = kept;
            assert(self@ =~= old(self)@.remove((k, f)));
        }
    }
}

} // verus!
