//! Relation extensions held as vectors without duplicates, the updates that
//! change them, and the signed delta between two extensions.

use vstd::prelude::*;
use crate::fact::{Fact, Rel, Sort, rel_of, same_key};

verus! {

broadcast use vstd::seq_lib::group_seq_properties;

/// One staged operation on a base relation.
#[derive(Clone, Copy, Debug, PartialEq, Eq, Structural)]
pub enum Update {
    /// Add the fact; a fact already present stays once.
    Insert(Fact),
    /// Remove the fact; removing an absent fact changes nothing.
    DeleteValue(Fact),
    /// Replace every fact with the same relation and key, then add the fact.
    InsertOrUpdate(Fact),
}

impl Update {
    /// The fact this update carries.
    pub open spec fn fact_of(self) -> Fact {
        match self {
            Update::Insert(f) => f,
            Update::DeleteValue(f) => f,
            Update::InsertOrUpdate(f) => f,
        }
    }

    /// The fact this update carries.
    pub fn fact(&self) -> (r: Fact)
        ensures
            r == self.fact_of(),
    {
        match self {
            Update::Insert(f) => *f,
            Update::DeleteValue(f) => *f,
            Update::InsertOrUpdate(f) => *f,
        }
    }
}

/// The extension after one update.
pub open spec fn apply_update(s: Set<Fact>, u: Update) -> Set<Fact> {
    match u {
        Update::Insert(f) => s.insert(f),
        Update::DeleteValue(f) => s.remove(f),
        Update::InsertOrUpdate(f) => s.filter(|g: Fact| !same_key(f, g)).insert(f),
    }
}

/// Of two facts of one keyed relation with the same key, whether `g` wins
/// over `f` where a batch upserts both: windows before shapes, stabilized
/// positions by x, then y. This orders every two such facts that differ.
pub open spec fn upsert_before(g: Fact, f: Fact) -> bool {
    match (g, f) {
        (Fact::Object { sort: s1, .. }, Fact::Object { sort: s2, .. }) => s1 == Sort::Window && s2
            == Sort::Shape,
        (Fact::InFluent { x: x1, y: y1, .. }, Fact::InFluent { x: x2, y: y2, .. }) => x1 < x2 || (x1
            == x2 && y1 < y2),
        _ => false,
    }
}

/// How many times `ops` inserts `f`.
pub open spec fn count_inserts(ops: Seq<Update>, f: Fact) -> nat
    decreases ops.len(),
{
    if ops.len() == 0 {
        0
    } else {
        count_inserts(ops.drop_last(), f) + if ops.last() == Update::Insert(f) {
            1nat
        } else {
            0nat
        }
    }
}

/// How many times `ops` deletes `f`.
pub open spec fn count_deletes(ops: Seq<Update>, f: Fact) -> nat
    decreases ops.len(),
{
    if ops.len() == 0 {
        0
    } else {
        count_deletes(ops.drop_last(), f) + if ops.last() == Update::DeleteValue(f) {
            1nat
        } else {
            0nat
        }
    }
}

/// `ops` upserts `f`, and no upsert of the same key wins over it.
pub open spec fn upsert_wins(ops: Seq<Update>, f: Fact) -> bool {
    ops.contains(Update::InsertOrUpdate(f)) && !(exists|g: Fact|
        #[trigger] ops.contains(Update::InsertOrUpdate(g)) && same_key(g, f) && upsert_before(g, f))
}

/// `ops` upserts another fact with the key of `f`.
pub open spec fn upsert_displaces(ops: Seq<Update>, f: Fact) -> bool {
    exists|g: Fact| #[trigger] ops.contains(Update::InsertOrUpdate(g)) && same_key(g, f) && g != f
}

/// Whether `f` is present after a batch, given whether it was before: the
/// winning upsert of a key stays and displaces the other facts of its key;
/// otherwise inserts and deletes of `f` sum, and a net weight of zero
/// leaves it as it was.
pub open spec fn present_after(was: bool, ops: Seq<Update>, f: Fact) -> bool {
    if upsert_wins(ops, f) {
        true
    } else if upsert_displaces(ops, f) {
        false
    } else if count_inserts(ops, f) > count_deletes(ops, f) {
        true
    } else if count_inserts(ops, f) < count_deletes(ops, f) {
        false
    } else {
        was
    }
}

/// The extension after a batch of updates, whatever their order.
pub open spec fn commit_batch(s: Set<Fact>, ops: Seq<Update>) -> Set<Fact> {
    Set::new(|f: Fact| present_after(s.contains(f), ops, f))
}

/// A batch in which no update carries `f` neither inserts nor deletes it.
pub proof fn lemma_counts_untouched(ops: Seq<Update>, f: Fact)
    requires
        forall|i: int| 0 <= i < ops.len() ==> (#[trigger] ops[i]).fact_of() != f,
    ensures
        count_inserts(ops, f) == 0,
        count_deletes(ops, f) == 0,
    decreases ops.len(),
{
    if ops.len() > 0 {
        let pre = ops.drop_last();
        assert forall|i: int| 0 <= i < pre.len() implies (#[trigger] pre[i]).fact_of() != f by {
            assert(pre[i] == ops[i]);
        }
        lemma_counts_untouched(pre, f);
        assert(ops.last() == ops[ops.len() - 1]);
    }
}

/// A fact that a batch leaves present either was present or is carried by
/// one of its updates.
pub proof fn lemma_present_after_source(was: bool, ops: Seq<Update>, f: Fact)
    requires
        present_after(was, ops, f),
    ensures
        was || exists|i: int| 0 <= i < ops.len() && (#[trigger] ops[i]).fact_of() == f,
        present_after(was, ops, f) && !ops.contains(Update::InsertOrUpdate(f)) && !was ==> ops.contains(
            Update::Insert(f),
        ),
{
    if !was && !(exists|i: int| 0 <= i < ops.len() && (#[trigger] ops[i]).fact_of() == f) {
        lemma_counts_untouched(ops, f);
        if ops.contains(Update::InsertOrUpdate(f)) {
            let i = choose|i: int| 0 <= i < ops.len() && ops[i] == Update::InsertOrUpdate(f);
            assert(ops[i].fact_of() == f);
        }
    }
    if !was && !ops.contains(Update::InsertOrUpdate(f)) {
        lemma_inserted_if_counted(ops, f);
    }
}

/// A batch that counts a delete of `f` holds one.
pub proof fn lemma_deleted_if_counted(ops: Seq<Update>, f: Fact)
    ensures
        count_deletes(ops, f) > 0 ==> ops.contains(Update::DeleteValue(f)),
    decreases ops.len(),
{
    if ops.len() > 0 {
        let pre = ops.drop_last();
        lemma_deleted_if_counted(pre, f);
        if count_deletes(pre, f) > 0 {
            let i = choose|i: int| 0 <= i < pre.len() && pre[i] == Update::DeleteValue(f);
            assert(ops[i] == pre[i]);
        } else if ops.last() == Update::DeleteValue(f) {
            assert(ops[ops.len() - 1] == Update::DeleteValue(f));
        }
    }
}

/// A batch that counts an insert of `f` holds one.
pub proof fn lemma_inserted_if_counted(ops: Seq<Update>, f: Fact)
    ensures
        count_inserts(ops, f) > 0 ==> ops.contains(Update::Insert(f)),
    decreases ops.len(),
{
    if ops.len() > 0 {
        let pre = ops.drop_last();
        lemma_inserted_if_counted(pre, f);
        if count_inserts(pre, f) > 0 {
            let i = choose|i: int| 0 <= i < pre.len() && pre[i] == Update::Insert(f);
            assert(ops[i] == pre[i]);
        } else if ops.last() == Update::Insert(f) {
            assert(ops[ops.len() - 1] == Update::Insert(f));
        }
    }
}

/// The signed weight of a fact between two extensions: +1 where it appeared,
/// -1 where it vanished, 0 where its presence did not change.
pub open spec fn weight(old: Set<Fact>, new: Set<Fact>, f: Fact) -> int {
    (if new.contains(f) { 1int } else { 0int }) - (if old.contains(f) { 1int } else { 0int })
}

/// `d` lists each fact of nonzero weight between `old` and `new` exactly once,
/// with that weight, and nothing else.
pub open spec fn is_delta(d: Seq<(Fact, i64)>, old: Set<Fact>, new: Set<Fact>) -> bool {
    &&& d.no_duplicates()
    &&& forall|f: Fact, w: i64|
        #[trigger] d.contains((f, w)) <==> w != 0 && w as int == weight(old, new, f)
}

/// Whether `v` holds `f`.
pub fn contains_fact(v: &Vec<Fact>, f: &Fact) -> (r: bool)
    ensures
        r == v@.contains(*f),
{
    let mut i: usize = 0;
    while i < v.len()
        invariant
            i <= v.len(),
            forall|k: int| 0 <= k < i ==> v@[k] != *f,
        decreases v.len() - i,
    {
        if v[i] == *f {
            return true;
        }
        i += 1;
    }
    false
}

/// Adds `f` to `v` unless it is there already.
pub fn insert_fact(v: &mut Vec<Fact>, f: Fact)
    requires
        old(v)@.no_duplicates(),
    ensures
        final(v)@.no_duplicates(),
        final(v)@.to_set() == old(v)@.to_set().insert(f),
{
    if !contains_fact(v, &f) {
        v.push(f);
    }
    assert(final(v)@.to_set() =~= old(v)@.to_set().insert(f));
}

/// Whether a removal of `f` (by key or by value) takes `g` away.
pub open spec fn dropped(f: Fact, by_key: bool, g: Fact) -> bool {
    if by_key {
        same_key(f, g)
    } else {
        g == f
    }
}

/// The facts of `v` that a removal of `f`, by key or by value, leaves.
fn retain_facts(v: &Vec<Fact>, f: &Fact, by_key: bool) -> (r: Vec<Fact>)
    requires
        v@.no_duplicates(),
    ensures
        r@.no_duplicates(),
        forall|g: Fact| #[trigger] r@.contains(g) <==> v@.contains(g) && !dropped(*f, by_key, g),
{
    let mut r: Vec<Fact> = Vec::new();
    let mut i: usize = 0;
    while i < v.len()
        invariant
            i <= v.len(),
            v@.no_duplicates(),
            r@.no_duplicates(),
            forall|g: Fact|
                #[trigger] r@.contains(g) <==> v@.subrange(0, i as int).contains(g) && !dropped(
                    *f,
                    by_key,
                    g,
                ),
        decreases v.len() - i,
    {
        let g = v[i];
        let drop = if by_key {
            f.same_key(&g)
        } else {
            g == *f
        };
        assert(v@.subrange(0, i + 1) =~= v@.subrange(0, i as int).push(g));
        if !drop {
            proof {
                if r@.contains(g) {
                    let k = choose|k: int| 0 <= k < i && v@.subrange(0, i as int)[k] == g;
                    assert(v@[k] == v@[i as int]);
                }
            }
            r.push(g);
        }
        i += 1;
    }
    assert(v@.subrange(0, v.len() as int) =~= v@);
    r
}

/// Applies one update to the extension held in `v`.
pub fn apply_update_vec(v: &mut Vec<Fact>, u: &Update)
    requires
        old(v)@.no_duplicates(),
    ensures
        final(v)@.no_duplicates(),
        final(v)@.to_set() == apply_update(old(v)@.to_set(), *u),
{
    match u {
        Update::Insert(f) => {
            insert_fact(v, *f);
        },
        Update::DeleteValue(f) => {
            let r = retain_facts(v, f, false);
            assert(r@.to_set() =~= old(v)@.to_set().remove(*f));
            *v = r;
        },
        Update::InsertOrUpdate(f) => {
            let r = retain_facts(v, f, true);
            let ghost kept = old(v)@.to_set().filter(|g: Fact| !same_key(*f, g));
            assert(r@.to_set() =~= kept);
            *v = r;
            insert_fact(v, *f);
        },
    }
}

/// Applies a signed weight to fact `f` of the set held in `v`: a positive
/// weight makes it present, a negative one absent. Returns whether its
/// presence changed.
pub fn apply_weight(v: &mut Vec<Fact>, f: Fact, w: i64) -> (changed: bool)
    requires
        old(v)@.no_duplicates(),
    ensures
        final(v)@.no_duplicates(),
        final(v)@.to_set() == (if w > 0 {
            old(v)@.to_set().insert(f)
        } else if w < 0 {
            old(v)@.to_set().remove(f)
        } else {
            old(v)@.to_set()
        }),
        changed == (final(v)@.contains(f) != old(v)@.contains(f)),
{
    let was = contains_fact(v, &f);
    if w > 0 {
        insert_fact(v, f);
    } else if w < 0 {
        apply_update_vec(v, &Update::DeleteValue(f));
    }
    let now = contains_fact(v, &f);
    proof {
        assert(final(v)@.contains(f) <==> final(v)@.to_set().contains(f));
        assert(old(v)@.contains(f) <==> old(v)@.to_set().contains(f));
    }
    was != now
}

/// Removes every fact of relation `rel` from the set held in `v`.
pub fn clear_rel(v: &mut Vec<Fact>, rel: Rel)
    requires
        old(v)@.no_duplicates(),
    ensures
        final(v)@.no_duplicates(),
        final(v)@.to_set() == old(v)@.to_set().filter(|f: Fact| rel_of(f) != rel),
{
    let mut r: Vec<Fact> = Vec::new();
    let mut i: usize = 0;
    while i < v.len()
        invariant
            i <= v.len(),
            v@ == old(v)@,
            v@.no_duplicates(),
            r@.no_duplicates(),
            forall|g: Fact|
                #[trigger] r@.contains(g) <==> v@.subrange(0, i as int).contains(g) && rel_of(g) != rel,
        decreases v.len() - i,
    {
        let g = v[i];
        assert(v@.subrange(0, i + 1) =~= v@.subrange(0, i as int).push(g));
        if g.rel() != rel {
            proof {
                if r@.contains(g) {
                    let k = choose|k: int| 0 <= k < i && v@.subrange(0, i as int)[k] == g;
                    assert(v@[k] == v@[i as int]);
                }
            }
            r.push(g);
        }
        i += 1;
    }
    assert(v@.subrange(0, v.len() as int) =~= v@);
    assert(r@.to_set() =~= old(v)@.to_set().filter(|f: Fact| rel_of(f) != rel));
    *v = r;
}

/// Whether `g` wins over `f` where a batch upserts both.
pub fn upsert_before_exec(g: &Fact, f: &Fact) -> (r: bool)
    ensures
        r == upsert_before(*g, *f),
{
    match (g, f) {
        (Fact::Object { sort: s1, .. }, Fact::Object { sort: s2, .. }) => *s1 == Sort::Window && *s2
            == Sort::Shape,
        (Fact::InFluent { x: x1, y: y1, .. }, Fact::InFluent { x: x2, y: y2, .. }) => *x1 < *x2 || (
        *x1 == *x2 && *y1 < *y2),
        _ => false,
    }
}

/// Whether `f` is present after the batch `ops`, given whether it was before.
pub fn fact_after(ops: &Vec<Update>, f: &Fact, was: bool) -> (r: bool)
    ensures
        r == present_after(was, ops@, *f),
{
    let mut up = false;
    let mut beaten = false;
    let mut disp = false;
    let mut ins: usize = 0;
    let mut del: usize = 0;
    let mut i: usize = 0;
    while i < ops.len()
        invariant
            i <= ops.len(),
            ins <= i,
            del <= i,
            up == ops@.subrange(0, i as int).contains(Update::InsertOrUpdate(*f)),
            beaten == exists|g: Fact|
                #[trigger] ops@.subrange(0, i as int).contains(Update::InsertOrUpdate(g)) && same_key(g, *f)
                    && upsert_before(g, *f),
            disp == exists|g: Fact|
                #[trigger] ops@.subrange(0, i as int).contains(Update::InsertOrUpdate(g)) && same_key(g, *f)
                    && g != *f,
            ins == count_inserts(ops@.subrange(0, i as int), *f),
            del == count_deletes(ops@.subrange(0, i as int), *f),
        decreases ops.len() - i,
    {
        let u = ops[i];
        let ghost sub = ops@.subrange(0, i as int);
        let ghost next = ops@.subrange(0, i + 1);
        let ghost old_beaten = beaten;
        let ghost old_disp = disp;
        assert(next =~= sub.push(u));
        assert(next.drop_last() =~= sub);
        match u {
            Update::Insert(g) => {
                if g == *f {
                    ins += 1;
                }
            },
            Update::DeleteValue(g) => {
                if g == *f {
                    del += 1;
                }
            },
            Update::InsertOrUpdate(g) => {
                if g == *f {
                    up = true;
                } else if f.same_key(&g) {
                    disp = true;
                    if upsert_before_exec(&g, f) {
                        beaten = true;
                    }
                }
            },
        }
        proof {
            let h = u.fact_of();
            assert(same_key(*f, h) == same_key(h, *f));
            assert(!upsert_before(*f, *f));
            assert(beaten == (old_beaten || (u is InsertOrUpdate && same_key(h, *f) && upsert_before(h, *f))));
            assert(disp == (old_disp || (u is InsertOrUpdate && same_key(h, *f) && h != *f)));
            if u is InsertOrUpdate {
                assert(u == Update::InsertOrUpdate(h));
                assert(next.contains(Update::InsertOrUpdate(h)));
            }
            if exists|g: Fact| #[trigger] next.contains(Update::InsertOrUpdate(g)) && same_key(g, *f) && upsert_before(g, *f) {
                let g = choose|g: Fact| #[trigger] next.contains(Update::InsertOrUpdate(g)) && same_key(g, *f) && upsert_before(g, *f);
                if !sub.contains(Update::InsertOrUpdate(g)) {
                    assert(u == Update::InsertOrUpdate(g));
                }
            }
            if exists|g: Fact| #[trigger] next.contains(Update::InsertOrUpdate(g)) && same_key(g, *f) && g != *f {
                let g = choose|g: Fact| #[trigger] next.contains(Update::InsertOrUpdate(g)) && same_key(g, *f) && g != *f;
                if !sub.contains(Update::InsertOrUpdate(g)) {
                    assert(u == Update::InsertOrUpdate(g));
                }
            }
            if old_beaten {
                let g = choose|g: Fact| #[trigger] sub.contains(Update::InsertOrUpdate(g)) && same_key(g, *f) && upsert_before(g, *f);
                assert(next.contains(Update::InsertOrUpdate(g)));
            }
            if old_disp {
                let g = choose|g: Fact| #[trigger] sub.contains(Update::InsertOrUpdate(g)) && same_key(g, *f) && g != *f;
                assert(next.contains(Update::InsertOrUpdate(g)));
            }
        }
        i += 1;
    }
    assert(ops@.subrange(0, ops.len() as int) =~= ops@);
    if up && !beaten {
        true
    } else if disp {
        false
    } else if ins > del {
        true
    } else if ins < del {
        false
    } else {
        was
    }
}

/// The extension held in `v` after the batch `ops`, whatever their order.
pub fn commit_batch_vec(v: &Vec<Fact>, ops: &Vec<Update>) -> (r: Vec<Fact>)
    requires
        v@.no_duplicates(),
    ensures
        r@.no_duplicates(),
        r@.to_set() == commit_batch(v@.to_set(), ops@),
{
    let mut r: Vec<Fact> = Vec::new();
    let mut i: usize = 0;
    while i < v.len()
        invariant
            i <= v.len(),
            v@.no_duplicates(),
            r@.no_duplicates(),
            forall|g: Fact|
                #[trigger] r@.contains(g) <==> v@.subrange(0, i as int).contains(g) && present_after(
                    true,
                    ops@,
                    g,
                ),
        decreases v.len() - i,
    {
        let g = v[i];
        assert(v@.subrange(0, i + 1) =~= v@.subrange(0, i as int).push(g));
        if fact_after(ops, &g, true) {
            proof {
                if r@.contains(g) {
                    let k = choose|k: int| 0 <= k < i && v@.subrange(0, i as int)[k] == g;
                    assert(v@[k] == v@[i as int]);
                }
            }
            r.push(g);
        }
        i += 1;
    }
    assert(v@.subrange(0, v.len() as int) =~= v@);
    let mut j: usize = 0;
    while j < ops.len()
        invariant
            j <= ops.len(),
            v@.no_duplicates(),
            r@.no_duplicates(),
            forall|g: Fact|
                #[trigger] r@.contains(g) <==> (v@.contains(g) && present_after(true, ops@, g)) || (
                !v@.contains(g) && (exists|k: int| 0 <= k < j && (#[trigger] ops@[k]).fact_of() == g)
                    && present_after(false, ops@, g)),
        decreases ops.len() - j,
    {
        let g = ops[j].fact();
        if !contains_fact(v, &g) && !contains_fact(&r, &g) && fact_after(ops, &g, false) {
            r.push(g);
        }
        proof {
            assert forall|h: Fact| #[trigger] r@.contains(h) <==> (v@.contains(h) && present_after(true, ops@, h)) || (
                !v@.contains(h) && (exists|k: int| 0 <= k < j + 1 && (#[trigger] ops@[k]).fact_of() == h)
                    && present_after(false, ops@, h)) by {
                if h == g {
                    assert(ops@[j as int].fact_of() == h);
                }
                if !v@.contains(h) && (exists|k: int| 0 <= k < j + 1 && (#[trigger] ops@[k]).fact_of() == h) && h != g {
                    let k = choose|k: int| 0 <= k < j + 1 && (#[trigger] ops@[k]).fact_of() == h;
                    assert(k < j);
                }
            }
        }
        j += 1;
    }
    proof {
        assert forall|g: Fact| #[trigger] r@.to_set().contains(g) <==> commit_batch(v@.to_set(), ops@).contains(g) by {
            assert(r@.to_set().contains(g) <==> r@.contains(g));
            if !v@.contains(g) && present_after(false, ops@, g) {
                lemma_present_after_source(false, ops@, g);
            }
        }
        assert(r@.to_set() =~= commit_batch(v@.to_set(), ops@));
    }
    r
}

/// The facts of `a` that `b` does not hold.
fn facts_not_in(a: &Vec<Fact>, b: &Vec<Fact>) -> (r: Vec<Fact>)
    requires
        a@.no_duplicates(),
    ensures
        r@.no_duplicates(),
        forall|g: Fact| #[trigger] r@.contains(g) <==> a@.contains(g) && !b@.contains(g),
{
    let mut r: Vec<Fact> = Vec::new();
    let mut i: usize = 0;
    while i < a.len()
        invariant
            i <= a.len(),
            a@.no_duplicates(),
            r@.no_duplicates(),
            forall|g: Fact|
                #[trigger] r@.contains(g) <==> a@.subrange(0, i as int).contains(g) && !b@.contains(g),
        decreases a.len() - i,
    {
        let g = a[i];
        assert(a@.subrange(0, i + 1) =~= a@.subrange(0, i as int).push(g));
        if !contains_fact(b, &g) {
            proof {
                if r@.contains(g) {
                    let k = choose|k: int| 0 <= k < i && a@.subrange(0, i as int)[k] == g;
                    assert(a@[k] == a@[i as int]);
                }
            }
            r.push(g);
        }
        i += 1;
    }
    assert(a@.subrange(0, a.len() as int) =~= a@);
    r
}

/// Appends each fact of `fs` to `d` with weight `w`.
fn append_weighted(d: &mut Vec<(Fact, i64)>, fs: &Vec<Fact>, w: i64)
    requires
        old(d)@.no_duplicates(),
        fs@.no_duplicates(),
        forall|f: Fact| fs@.contains(f) ==> !old(d)@.contains((f, w)),
    ensures
        final(d)@.no_duplicates(),
        forall|f: Fact, x: i64|
            #[trigger] final(d)@.contains((f, x)) <==> old(d)@.contains((f, x)) || (x == w
                && fs@.contains(f)),
{
    let ghost d0 = d@;
    let mut i: usize = 0;
    while i < fs.len()
        invariant
            i <= fs.len(),
            fs@.no_duplicates(),
            d@.no_duplicates(),
            forall|f: Fact| fs@.contains(f) ==> !d0.contains((f, w)),
            forall|f: Fact, x: i64|
                #[trigger] d@.contains((f, x)) <==> d0.contains((f, x)) || (x == w && fs@.subrange(
                    0,
                    i as int,
                ).contains(f)),
        decreases fs.len() - i,
    {
        let f = fs[i];
        assert(fs@.subrange(0, i + 1) =~= fs@.subrange(0, i as int).push(f));
        proof {
            assert(fs@.contains(f));
            if d@.contains((f, w)) {
                let k = choose|k: int| 0 <= k < i && fs@.subrange(0, i as int)[k] == f;
                assert(fs@[k] == fs@[i as int]);
            }
        }
        d.push((f, w));
        i += 1;
    }
    assert(fs@.subrange(0, fs.len() as int) =~= fs@);
}

/// The signed delta from the extension in `old_v` to the one in `new_v`.
pub fn delta(old_v: &Vec<Fact>, new_v: &Vec<Fact>) -> (d: Vec<(Fact, i64)>)
    requires
        old_v@.no_duplicates(),
        new_v@.no_duplicates(),
    ensures
        is_delta(d@, old_v@.to_set(), new_v@.to_set()),
{
    let added = facts_not_in(new_v, old_v);
    let removed = facts_not_in(old_v, new_v);
    let mut d: Vec<(Fact, i64)> = Vec::new();
    append_weighted(&mut d, &added, 1);
    append_weighted(&mut d, &removed, -1);
    d
}

} // verus!
