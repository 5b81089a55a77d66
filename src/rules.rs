//! Derivation rules as data: each rule is a pipeline of stages that starts
//! from one base relation and joins against, filters by, or maps over the
//! facts of the store.

use vstd::prelude::*;
use crate::fact::{Fact, Rel, Sort, Axis, AttrName, Color, rel_of};
use crate::store::insert_fact;
use crate::arrangement::{Arrangement, arranges};

verus! {

broadcast use vstd::seq_lib::group_seq_properties;

/// The largest coordinate at which a window's far edge still counts as
/// inside the screen (exclusive).
pub const SCREEN_LIMIT: i64 = 1000;

/// The compiled join functions: each takes a row and a fact of the joined
/// relation, and gives the joined row where their keys match and the fact
/// has the expected shape.
#[derive(Clone, Copy, Debug, PartialEq, Eq, Structural)]
pub enum JoinFn {
    /// Keeps an action whose target is a window.
    ActionOnWindow,
    /// An action and the stabilized position of its target give the moved position.
    ActionAtFluent,
    /// Keeps a stabilized position of a window.
    FluentOnWindow,
    /// A stabilized position and the width of its object give a partial output row.
    FluentWidth,
    /// A partial output row and the height of its object give the finished row.
    RowHeight,
}

/// The compiled map functions.
#[derive(Clone, Copy, Debug, PartialEq, Eq, Structural)]
pub enum MapFn {
    /// An action on an object with no stabilized position moves it from the origin.
    ActionFromOrigin,
}

/// One stage of a rule pipeline.
#[derive(Clone, Copy, Debug, PartialEq, Eq, Structural)]
pub enum Stage {
    /// Joins each row with the facts of a relation.
    Join { with: Rel, via: JoinFn },
    /// Keeps the rows that join with no fact of a relation.
    AntiJoin { with: Rel, via: JoinFn },
    /// Maps each row, dropping those the function does not take.
    MapRows { func: MapFn },
}

/// A rule: the facts of `source` run through `stages`; those of relation
/// `target` that come out are derived.
pub struct Rule {
    pub source: Rel,
    pub target: Rel,
    pub stages: Vec<Stage>,
}

/// The mathematical value of a rule.
pub struct RuleView {
    pub source: Rel,
    pub target: Rel,
    pub stages: Seq<Stage>,
}

impl View for Rule {
    type V = RuleView;

    open spec fn view(&self) -> RuleView {
        RuleView { source: self.source, target: self.target, stages: self.stages@ }
    }
}

/// A position moved by `d` along `dir`, with two's-complement wrap-around.
pub open spec fn moved(x: i64, y: i64, d: i64, dir: Axis) -> (i64, i64) {
    match dir {
        Axis::X => (x.wrapping_add(d), y),
        Axis::Y => (x, y.wrapping_add(d)),
    }
}

/// Blue when the window's far corner lies inside the screen, red otherwise.
pub open spec fn color_of(x: i64, y: i64, w: i64, h: i64) -> Color {
    if x.wrapping_add(w) < SCREEN_LIMIT && y.wrapping_add(h) < SCREEN_LIMIT {
        Color::Blue
    } else {
        Color::Red
    }
}

pub open spec fn join_spec(j: JoinFn, a: Fact, b: Fact) -> Option<Fact> {
    match j {
        JoinFn::ActionOnWindow => match (a, b) {
            (Fact::Action { target, .. }, Fact::Object { oid, sort }) => if target == oid && sort
                == Sort::Window {
                Some(a)
            } else {
                None
            },
            _ => None,
        },
        JoinFn::ActionAtFluent => match (a, b) {
            (Fact::Action { target, distance, direction }, Fact::InFluent { oid, x, y }) => if target
                == oid {
                Some(
                    Fact::OutFluent {
                        oid,
                        x: moved(x, y, distance, direction).0,
                        y: moved(x, y, distance, direction).1,
                    },
                )
            } else {
                None
            },
            _ => None,
        },
        JoinFn::FluentOnWindow => match (a, b) {
            (Fact::InFluent { oid: o1, .. }, Fact::Object { oid, sort }) => if o1 == oid && sort
                == Sort::Window {
                Some(a)
            } else {
                None
            },
            _ => None,
        },
        JoinFn::FluentWidth => match (a, b) {
            (Fact::InFluent { oid, x, y }, Fact::Attribute { oid: o2, name, value }) => if oid == o2
                && name == AttrName::Width {
                Some(Fact::Output { oid, x, y, width: value, height: 0, color: Color::Red })
            } else {
                None
            },
            _ => None,
        },
        JoinFn::RowHeight => match (a, b) {
            (Fact::Output { oid, x, y, width, .. }, Fact::Attribute { oid: o2, name, value }) => if oid
                == o2 && name == AttrName::Height {
                Some(
                    Fact::Output {
                        oid,
                        x,
                        y,
                        width,
                        height: value,
                        color: color_of(x, y, width, value),
                    },
                )
            } else {
                None
            },
            _ => None,
        },
    }
}

pub open spec fn map_spec(m: MapFn, a: Fact) -> Option<Fact> {
    match m {
        MapFn::ActionFromOrigin => match a {
            Fact::Action { target, distance, direction } => Some(
                Fact::OutFluent {
                    oid: target,
                    x: moved(0, 0, distance, direction).0,
                    y: moved(0, 0, distance, direction).1,
                },
            ),
            _ => None,
        },
    }
}

/// The key by which a join function looks up the joined relation: what a row
/// projects to.
pub open spec fn row_key(j: JoinFn, a: Fact) -> Option<i64> {
    match (j, a) {
        (JoinFn::ActionOnWindow, Fact::Action { target, .. }) => Some(target),
        (JoinFn::ActionAtFluent, Fact::Action { target, .. }) => Some(target),
        (JoinFn::FluentOnWindow, Fact::InFluent { oid, .. }) => Some(oid),
        (JoinFn::FluentWidth, Fact::InFluent { oid, .. }) => Some(oid),
        (JoinFn::RowHeight, Fact::Output { oid, .. }) => Some(oid),
        _ => None,
    }
}

/// The key under which a join function arranges a fact of the joined
/// relation; a fact of another shape has none and stays out of the index.
pub open spec fn arranged_key(j: JoinFn, b: Fact) -> Option<i64> {
    match (j, b) {
        (JoinFn::ActionOnWindow, Fact::Object { oid, sort }) => if sort == Sort::Window {
            Some(oid)
        } else {
            None
        },
        (JoinFn::ActionAtFluent, Fact::InFluent { oid, .. }) => Some(oid),
        (JoinFn::FluentOnWindow, Fact::Object { oid, sort }) => if sort == Sort::Window {
            Some(oid)
        } else {
            None
        },
        (JoinFn::FluentWidth, Fact::Attribute { oid, name, .. }) => if name == AttrName::Width {
            Some(oid)
        } else {
            None
        },
        (JoinFn::RowHeight, Fact::Attribute { oid, name, .. }) => if name == AttrName::Height {
            Some(oid)
        } else {
            None
        },
        _ => None,
    }
}

/// A row and a fact join only where both have a key and the keys are equal.
pub proof fn lemma_join_needs_equal_keys(j: JoinFn, a: Fact, b: Fact)
    ensures
        join_spec(j, a, b) is Some ==> row_key(j, a) is Some && arranged_key(j, b) == row_key(j, a),
{
}

/// Whether some fact of relation `with` in `db` joins with row `a` into `f`.
pub open spec fn joined_with(a: Fact, db: Set<Fact>, with: Rel, via: JoinFn, f: Fact) -> bool {
    exists|b: Fact| db.contains(b) && rel_of(b) == with && #[trigger] join_spec(via, a, b) == Some(f)
}

/// Whether some fact of relation `with` in `db` joins with row `a`.
pub open spec fn matched(a: Fact, db: Set<Fact>, with: Rel, via: JoinFn) -> bool {
    exists|b: Fact| db.contains(b) && rel_of(b) == with && (#[trigger] join_spec(via, a, b)).is_some()
}

/// The rows after one stage.
pub open spec fn stage_spec(st: Stage, xs: Set<Fact>, db: Set<Fact>) -> Set<Fact> {
    match st {
        Stage::Join { with, via } => Set::new(
            |f: Fact| exists|a: Fact| xs.contains(a) && #[trigger] joined_with(a, db, with, via, f),
        ),
        Stage::AntiJoin { with, via } => xs.filter(|a: Fact| !matched(a, db, with, via)),
        Stage::MapRows { func: via } => Set::new(
            |f: Fact| exists|a: Fact| xs.contains(a) && #[trigger] map_spec(via, a) == Some(f),
        ),
    }
}

/// The rows after a sequence of stages, first to last.
pub open spec fn eval_stages(stages: Seq<Stage>, xs: Set<Fact>, db: Set<Fact>) -> Set<Fact>
    decreases stages.len(),
{
    if stages.len() == 0 {
        xs
    } else {
        eval_stages(stages.drop_first(), stage_spec(stages[0], xs, db), db)
    }
}

/// The facts of relation `r` in `db`.
pub open spec fn rel_facts(db: Set<Fact>, r: Rel) -> Set<Fact> {
    db.filter(|f: Fact| rel_of(f) == r)
}

/// The facts a rule derives from `db`.
pub open spec fn rule_output(rule: RuleView, db: Set<Fact>) -> Set<Fact> {
    eval_stages(rule.stages, rel_facts(db, rule.source), db).filter(|f: Fact| rel_of(f) == rule.target)
}

/// The facts a list of rules derives from `db`.
pub open spec fn derive_all(rules: Seq<RuleView>, db: Set<Fact>) -> Set<Fact>
    decreases rules.len(),
{
    if rules.len() == 0 {
        Set::empty()
    } else {
        derive_all(rules.drop_last(), db).union(rule_output(rules.last(), db))
    }
}

/// The rule table of the scene.
pub open spec fn program() -> Seq<RuleView> {
    seq![
        RuleView {
            source: Rel::Action,
            target: Rel::OutFluent,
            stages: seq![
                Stage::Join { with: Rel::Object, via: JoinFn::ActionOnWindow },
                Stage::Join { with: Rel::InFluent, via: JoinFn::ActionAtFluent },
            ],
        },
        RuleView {
            source: Rel::Action,
            target: Rel::OutFluent,
            stages: seq![
                Stage::Join { with: Rel::Object, via: JoinFn::ActionOnWindow },
                Stage::AntiJoin { with: Rel::InFluent, via: JoinFn::ActionAtFluent },
                Stage::MapRows { func: MapFn::ActionFromOrigin },
            ],
        },
        RuleView {
            source: Rel::InFluent,
            target: Rel::Output,
            stages: seq![
                Stage::Join { with: Rel::Object, via: JoinFn::FluentOnWindow },
                Stage::Join { with: Rel::Attribute, via: JoinFn::FluentWidth },
                Stage::Join { with: Rel::Attribute, via: JoinFn::RowHeight },
            ],
        },
    ]
}

/// The facts the rule table derives from the base facts `db`.
pub open spec fn derived(db: Set<Fact>) -> Set<Fact> {
    derive_all(program(), db)
}

impl JoinFn {
    /// Applies the join function to a row and a fact.
    pub fn apply(&self, a: &Fact, b: &Fact) -> (r: Option<Fact>)
        ensures
            r == join_spec(*self, *a, *b),
    {
        match self {
            JoinFn::ActionOnWindow => match (a, b) {
                (Fact::Action { target, .. }, Fact::Object { oid, sort }) => {
                    if *target == *oid && *sort == Sort::Window {
                        Some(*a)
                    } else {
                        None
                    }
                },
                _ => None,
            },
            JoinFn::ActionAtFluent => match (a, b) {
                (Fact::Action { target, distance, direction }, Fact::InFluent { oid, x, y }) => {
                    if *target == *oid {
                        let (nx, ny) = move_by(*x, *y, *distance, *direction);
                        Some(Fact::OutFluent { oid: *oid, x: nx, y: ny })
                    } else {
                        None
                    }
                },
                _ => None,
            },
            JoinFn::FluentOnWindow => match (a, b) {
                (Fact::InFluent { oid: o1, .. }, Fact::Object { oid, sort }) => {
                    if *o1 == *oid && *sort == Sort::Window {
                        Some(*a)
                    } else {
                        None
                    }
                },
                _ => None,
            },
            JoinFn::FluentWidth => match (a, b) {
                (Fact::InFluent { oid, x, y }, Fact::Attribute { oid: o2, name, value }) => {
                    if *oid == *o2 && *name == AttrName::Width {
                        Some(
                            Fact::Output {
                                oid: *oid,
                                x: *x,
                                y: *y,
                                width: *value,
                                height: 0,
                                color: Color::Red,
                            },
                        )
                    } else {
                        None
                    }
                },
                _ => None,
            },
            JoinFn::RowHeight => match (a, b) {
                (Fact::Output { oid, x, y, width, .. }, Fact::Attribute { oid: o2, name, value }) => {
                    if *oid == *o2 && *name == AttrName::Height {
                        let color = color(*x, *y, *width, *value);
                        Some(
                            Fact::Output {
                                oid: *oid,
                                x: *x,
                                y: *y,
                                width: *width,
                                height: *value,
                                color,
                            },
                        )
                    } else {
                        None
                    }
                },
                _ => None,
            },
        }
    }
}

impl MapFn {
    /// Applies the map function to a row.
    pub fn apply(&self, a: &Fact) -> (r: Option<Fact>)
        ensures
            r == map_spec(*self, *a),
    {
        match self {
            MapFn::ActionFromOrigin => match a {
                Fact::Action { target, distance, direction } => {
                    let (nx, ny) = move_by(0, 0, *distance, *direction);
                    Some(Fact::OutFluent { oid: *target, x: nx, y: ny })
                },
                _ => None,
            },
        }
    }
}

/// Moves a position by `d` along `dir`.
pub fn move_by(x: i64, y: i64, d: i64, dir: Axis) -> (r: (i64, i64))
    ensures
        r == moved(x, y, d, dir),
{
    match dir {
        Axis::X => (x.wrapping_add(d), y),
        Axis::Y => (x, y.wrapping_add(d)),
    }
}

/// The color of a window at `(x, y)` of size `w` by `h`.
pub fn color(x: i64, y: i64, w: i64, h: i64) -> (r: Color)
    ensures
        r == color_of(x, y, w, h),
{
    if x.wrapping_add(w) < SCREEN_LIMIT && y.wrapping_add(h) < SCREEN_LIMIT {
        Color::Blue
    } else {
        Color::Red
    }
}

impl JoinFn {
    /// The key a row looks up.
    pub fn row_key(&self, a: &Fact) -> (r: Option<i64>)
        ensures
            r == row_key(*self, *a),
    {
        match (self, a) {
            (JoinFn::ActionOnWindow, Fact::Action { target, .. }) => Some(*target),
            (JoinFn::ActionAtFluent, Fact::Action { target, .. }) => Some(*target),
            (JoinFn::FluentOnWindow, Fact::InFluent { oid, .. }) => Some(*oid),
            (JoinFn::FluentWidth, Fact::InFluent { oid, .. }) => Some(*oid),
            (JoinFn::RowHeight, Fact::Output { oid, .. }) => Some(*oid),
            _ => None,
        }
    }

    /// The key under which a fact of the joined relation is arranged.
    pub fn arranged_key(&self, b: &Fact) -> (r: Option<i64>)
        ensures
            r == arranged_key(*self, *b),
    {
        match (self, b) {
            (JoinFn::ActionOnWindow, Fact::Object { oid, sort }) => {
                if *sort == Sort::Window {
                    Some(*oid)
                } else {
                    None
                }
            },
            (JoinFn::ActionAtFluent, Fact::InFluent { oid, .. }) => Some(*oid),
            (JoinFn::FluentOnWindow, Fact::Object { oid, sort }) => {
                if *sort == Sort::Window {
                    Some(*oid)
                } else {
                    None
                }
            },
            (JoinFn::FluentWidth, Fact::Attribute { oid, name, .. }) => {
                if *name == AttrName::Width {
                    Some(*oid)
                } else {
                    None
                }
            },
            (JoinFn::RowHeight, Fact::Attribute { oid, name, .. }) => {
                if *name == AttrName::Height {
                    Some(*oid)
                } else {
                    None
                }
            },
            _ => None,
        }
    }
}

/// Whether the arrangement `arr` indexes exactly the facts of relation
/// `with` in `db` by the keys of `via`.
pub open spec fn indexes(arr: &Arrangement, db: Set<Fact>, with: Rel, via: JoinFn) -> bool {
    &&& arr.wf()
    &&& arr.source() == with
    &&& arr.key_fn() == via
    &&& forall|k: i64, b: Fact| #[trigger] arr@.contains((k, b)) <==> arranges(db, with, via, k, b)
}

/// The facts of relation `with` that row `a` finds in the arrangement: a
/// row without a key finds none.
fn candidates(a: &Fact, arr: &Arrangement, Ghost(db): Ghost<Set<Fact>>, with: Rel, via: JoinFn) -> (r: Vec<Fact>)
    requires
        indexes(arr, db, with, via),
    ensures
        forall|b: Fact| #[trigger] r@.contains(b) ==> db.contains(b) && rel_of(b) == with,
        forall|b: Fact|
            db.contains(b) && rel_of(b) == with && (#[trigger] join_spec(via, *a, b)) is Some ==> r@.contains(b),
{
    match via.row_key(a) {
        Some(k) => {
            let bs = arr.lookup(k);
            proof {
                assert forall|b: Fact| db.contains(b) && rel_of(b) == with && (#[trigger] join_spec(via, *a, b)) is Some implies bs@.contains(b) by {
                    lemma_join_needs_equal_keys(via, *a, b);
                    assert(arr@.contains((k, b)));
                }
                assert forall|b: Fact| #[trigger] bs@.contains(b) implies db.contains(b) && rel_of(b) == with by {
                    assert(arr@.contains((k, b)));
                }
            }
            bs
        },
        None => {
            proof {
                assert forall|b: Fact| db.contains(b) && rel_of(b) == with && (#[trigger] join_spec(via, *a, b)) is Some implies false by {
                    lemma_join_needs_equal_keys(via, *a, b);
                }
            }
            Vec::new()
        },
    }
}

/// Adds to `r` every row that `a` joins into with a fact of relation `with`
/// in `db`, looked up in `arr`.
fn join_row(
    a: &Fact,
    arr: &Arrangement,
    Ghost(db): Ghost<Set<Fact>>,
    with: Rel,
    via: JoinFn,
    r: &mut Vec<Fact>,
)
    requires
        old(r)@.no_duplicates(),
        indexes(arr, db, with, via),
    ensures
        final(r)@.no_duplicates(),
        forall|f: Fact|
            #[trigger] final(r)@.contains(f) <==> old(r)@.contains(f) || joined_with(*a, db, with, via, f),
{
    let bs = candidates(a, arr, Ghost(db), with, via);
    let ghost r0 = r@;
    let mut j: usize = 0;
    while j < bs.len()
        invariant
            j <= bs.len(),
            r@.no_duplicates(),
            forall|f: Fact|
                #[trigger] r@.contains(f) <==> r0.contains(f) || joined_with(
                    *a,
                    bs@.subrange(0, j as int).to_set(),
                    with,
                    via,
                    f,
                ),
        decreases bs.len() - j,
    {
        let b = bs[j];
        let ghost before = r@;
        let ghost s0 = bs@.subrange(0, j as int).to_set();
        let ghost s1 = bs@.subrange(0, j + 1).to_set();
        assert(s1 =~= s0.insert(b)) by {
            assert(bs@.subrange(0, j + 1) =~= bs@.subrange(0, j as int).push(b));
        }
        let out = if b.rel() == with {
            via.apply(a, &b)
        } else {
            None
        };
        match out {
            Some(g) => {
                insert_fact(r, g);
                assert(r@.contains(g) <==> r@.to_set().contains(g));
            },
            None => {},
        }
        assert forall|f: Fact| #[trigger] r@.contains(f) <==> r0.contains(f) || joined_with(*a, s1, with, via, f) by {
            assert(r@.contains(f) <==> r@.to_set().contains(f));
            assert(before.contains(f) <==> before.to_set().contains(f));
            if joined_with(*a, s1, with, via, f) && !joined_with(*a, s0, with, via, f) {
                let w = choose|w: Fact| s1.contains(w) && rel_of(w) == with && #[trigger] join_spec(via, *a, w) == Some(f);
                assert(w == b);
            }
            if out == Some(f) {
                assert(s1.contains(b));
            }
        }
        j += 1;
    }
    assert(bs@.subrange(0, bs.len() as int) =~= bs@);
    assert forall|f: Fact| joined_with(*a, bs@.to_set(), with, via, f) <==> #[trigger] joined_with(*a, db, with, via, f) by {
        if joined_with(*a, db, with, via, f) {
            let w = choose|w: Fact| db.contains(w) && rel_of(w) == with && #[trigger] join_spec(via, *a, w) == Some(f);
            assert(bs@.contains(w));
            assert(bs@.to_set().contains(w));
        }
        if joined_with(*a, bs@.to_set(), with, via, f) {
            let w = choose|w: Fact| bs@.to_set().contains(w) && rel_of(w) == with && #[trigger] join_spec(via, *a, w) == Some(f);
            assert(bs@.contains(w));
        }
    }
}

/// The rows of `xs` joined with the facts of relation `with` in `db`.
fn run_join(xs: &Vec<Fact>, db: &Vec<Fact>, with: Rel, via: JoinFn) -> (r: Vec<Fact>)
    requires
        db@.no_duplicates(),
    ensures
        r@.no_duplicates(),
        r@.to_set() == stage_spec(Stage::Join { with, via }, xs@.to_set(), db@.to_set()),
{
    let arr = Arrangement::build(db, with, via);
    let mut r: Vec<Fact> = Vec::new();
    let mut i: usize = 0;
    while i < xs.len()
        invariant
            i <= xs.len(),
            indexes(&arr, db@.to_set(), with, via),
            r@.no_duplicates(),
            forall|f: Fact|
                #[trigger] r@.contains(f) <==> exists|a: Fact|
                    xs@.subrange(0, i as int).contains(a) && #[trigger] joined_with(
                        a,
                        db@.to_set(),
                        with,
                        via,
                        f,
                    ),
        decreases xs.len() - i,
    {
        let a = xs[i];
        let ghost seen = xs@.subrange(0, i as int);
        let ghost seen_now = xs@.subrange(0, i + 1);
        assert(seen_now =~= seen.push(a));
        join_row(&a, &arr, Ghost(db@.to_set()), with, via, &mut r);
        assert forall|f: Fact| #[trigger] r@.contains(f) <==> exists|c: Fact|
            seen_now.contains(c) && #[trigger] joined_with(c, db@.to_set(), with, via, f) by {
            if exists|c: Fact| seen_now.contains(c) && #[trigger] joined_with(c, db@.to_set(), with, via, f) {
                let c = choose|c: Fact| seen_now.contains(c) && #[trigger] joined_with(c, db@.to_set(), with, via, f);
                if c != a {
                    assert(seen.contains(c));
                }
            }
            if joined_with(a, db@.to_set(), with, via, f) {
                assert(seen_now.contains(a));
            }
        }
        i += 1;
    }
    assert(xs@.subrange(0, xs.len() as int) =~= xs@);
    assert(r@.to_set() =~= stage_spec(Stage::Join { with, via }, xs@.to_set(), db@.to_set()));
    r
}

/// Whether row `a` joins with some fact of relation `with` in `db`, looked
/// up in `arr`.
fn has_match(a: &Fact, arr: &Arrangement, Ghost(db): Ghost<Set<Fact>>, with: Rel, via: JoinFn) -> (r: bool)
    requires
        indexes(arr, db, with, via),
    ensures
        r == matched(*a, db, with, via),
{
    let bs = candidates(a, arr, Ghost(db), with, via);
    let mut j: usize = 0;
    while j < bs.len()
        invariant
            j <= bs.len(),
            forall|b: Fact| #[trigger] bs@.contains(b) ==> db.contains(b) && rel_of(b) == with,
            forall|b: Fact|
                db.contains(b) && rel_of(b) == with && (#[trigger] join_spec(via, *a, b)) is Some ==> bs@.contains(b),
            forall|i: int| 0 <= i < j ==> !(#[trigger] join_spec(via, *a, bs@[i])).is_some(),
        decreases bs.len() - j,
    {
        let b = bs[j];
        match via.apply(a, &b) {
            Some(_) => {
                assert(bs@.contains(b));
                return true;
            },
            None => {},
        }
        j += 1;
    }
    assert forall|b: Fact| db.contains(b) && rel_of(b) == with implies !(#[trigger] join_spec(via, *a, b)).is_some() by {
        if join_spec(via, *a, b).is_some() {
            assert(bs@.contains(b));
            let i = choose|i: int| 0 <= i < bs@.len() && bs@[i] == b;
        }
    }
    false
}

/// The rows of `xs` that join with no fact of relation `with` in `db`.
fn run_antijoin(xs: &Vec<Fact>, db: &Vec<Fact>, with: Rel, via: JoinFn) -> (r: Vec<Fact>)
    requires
        db@.no_duplicates(),
    ensures
        r@.no_duplicates(),
        r@.to_set() == stage_spec(Stage::AntiJoin { with, via }, xs@.to_set(), db@.to_set()),
{
    let arr = Arrangement::build(db, with, via);
    let mut r: Vec<Fact> = Vec::new();
    let mut i: usize = 0;
    while i < xs.len()
        invariant
            i <= xs.len(),
            indexes(&arr, db@.to_set(), with, via),
            r@.no_duplicates(),
            forall|f: Fact|
                #[trigger] r@.contains(f) <==> xs@.subrange(0, i as int).contains(f) && !matched(
                    f,
                    db@.to_set(),
                    with,
                    via,
                ),
        decreases xs.len() - i,
    {
        let a = xs[i];
        assert(xs@.subrange(0, i + 1) =~= xs@.subrange(0, i as int).push(a));
        let ghost before = r@;
        if !has_match(&a, &arr, Ghost(db@.to_set()), with, via) {
            insert_fact(&mut r, a);
        }
        assert forall|f: Fact| #[trigger] r@.contains(f) <==> xs@.subrange(0, i + 1).contains(f) && !matched(f, db@.to_set(), with, via) by {
            assert(r@.contains(f) <==> r@.to_set().contains(f));
            assert(before.contains(f) <==> before.to_set().contains(f));
        }
        i += 1;
    }
    assert(xs@.subrange(0, xs.len() as int) =~= xs@);
    assert(r@.to_set() =~= stage_spec(Stage::AntiJoin { with, via }, xs@.to_set(), db@.to_set()));
    r
}

/// The rows of `xs` mapped by `via`.
fn run_map(xs: &Vec<Fact>, via: MapFn) -> (r: Vec<Fact>)
    ensures
        r@.no_duplicates(),
        forall|db: Set<Fact>| r@.to_set() == stage_spec(Stage::MapRows { func: via }, xs@.to_set(), db),
{
    let mut r: Vec<Fact> = Vec::new();
    let mut i: usize = 0;
    while i < xs.len()
        invariant
            i <= xs.len(),
            r@.no_duplicates(),
            forall|f: Fact|
                #[trigger] r@.contains(f) <==> exists|a: Fact|
                    xs@.subrange(0, i as int).contains(a) && #[trigger] map_spec(via, a) == Some(f),
        decreases xs.len() - i,
    {
        let a = xs[i];
        let ghost seen = xs@.subrange(0, i as int);
        let ghost seen_now = xs@.subrange(0, i + 1);
        assert(seen_now =~= seen.push(a));
        let ghost before = r@;
        match via.apply(&a) {
            Some(g) => {
                insert_fact(&mut r, g);
            },
            None => {},
        }
        assert forall|f: Fact| #[trigger] r@.contains(f) <==> exists|c: Fact|
            seen_now.contains(c) && #[trigger] map_spec(via, c) == Some(f) by {
            assert(r@.contains(f) <==> r@.to_set().contains(f));
            assert(before.contains(f) <==> before.to_set().contains(f));
            if exists|c: Fact| seen_now.contains(c) && #[trigger] map_spec(via, c) == Some(f) {
                let c = choose|c: Fact| seen_now.contains(c) && #[trigger] map_spec(via, c) == Some(f);
                if c != a {
                    assert(seen.contains(c));
                }
            }
            if map_spec(via, a) == Some(f) {
                assert(seen_now.contains(a));
            }
        }
        i += 1;
    }
    assert(xs@.subrange(0, xs.len() as int) =~= xs@);
    proof {
        assert forall|db: Set<Fact>| r@.to_set() == stage_spec(Stage::MapRows { func: via }, xs@.to_set(), db) by {
            assert(r@.to_set() =~= stage_spec(Stage::MapRows { func: via }, xs@.to_set(), db));
        }
    }
    r
}

/// The rows after one stage.
pub fn run_stage(st: &Stage, xs: &Vec<Fact>, db: &Vec<Fact>) -> (r: Vec<Fact>)
    requires
        db@.no_duplicates(),
    ensures
        r@.no_duplicates(),
        r@.to_set() == stage_spec(*st, xs@.to_set(), db@.to_set()),
{
    match st {
        Stage::Join { with, via } => run_join(xs, db, *with, *via),
        Stage::AntiJoin { with, via } => run_antijoin(xs, db, *with, *via),
        Stage::MapRows { func: via } => run_map(xs, *via),
    }
}

/// The facts of `v` that belong to relation `want`.
pub fn select_rel(v: &Vec<Fact>, want: Rel) -> (r: Vec<Fact>)
    requires
        v@.no_duplicates(),
    ensures
        r@.no_duplicates(),
        r@.to_set() == rel_facts(v@.to_set(), want),
{
    let mut r: Vec<Fact> = Vec::new();
    let mut i: usize = 0;
    while i < v.len()
        invariant
            i <= v.len(),
            v@.no_duplicates(),
            r@.no_duplicates(),
            forall|f: Fact|
                #[trigger] r@.contains(f) <==> v@.subrange(0, i as int).contains(f) && rel_of(f) == want,
        decreases v.len() - i,
    {
        let f = v[i];
        assert(v@.subrange(0, i + 1) =~= v@.subrange(0, i as int).push(f));
        if f.rel() == want {
            proof {
                if r@.contains(f) {
                    let k = choose|k: int| 0 <= k < i && v@.subrange(0, i as int)[k] == f;
                    assert(v@[k] == v@[i as int]);
                }
            }
            r.push(f);
        }
        i += 1;
    }
    assert(v@.subrange(0, v.len() as int) =~= v@);
    assert(r@.to_set() =~= rel_facts(v@.to_set(), want));
    r
}

impl Rule {
    /// The facts this rule derives from the base facts `db`.
    pub fn eval(&self, db: &Vec<Fact>) -> (r: Vec<Fact>)
        requires
            db@.no_duplicates(),
        ensures
            r@.no_duplicates(),
            r@.to_set() == rule_output(self@, db@.to_set()),
    {
        let ghost dbs = db@.to_set();
        let ghost stages = self.stages@;
        let mut cur = select_rel(db, self.source);
        assert(stages.subrange(0, stages.len() as int) =~= stages);
        let mut i: usize = 0;
        while i < self.stages.len()
            invariant
                i <= stages.len(),
                stages == self.stages@,
                db@.no_duplicates(),
                dbs == db@.to_set(),
                cur@.no_duplicates(),
                eval_stages(stages, rel_facts(dbs, self.source), dbs) == eval_stages(
                    stages.subrange(i as int, stages.len() as int),
                    cur@.to_set(),
                    dbs,
                ),
            decreases stages.len() - i,
        {
            let next = run_stage(&self.stages[i], &cur, db);
            assert(stages.subrange(i as int, stages.len() as int).drop_first() =~= stages.subrange(
                i + 1,
                stages.len() as int,
            ));
            cur = next;
            i += 1;
        }
        select_rel(&cur, self.target)
    }
}

/// The facts a list of rules derives from the base facts `db`.
pub fn derive_facts(rules: &Vec<Rule>, db: &Vec<Fact>) -> (r: Vec<Fact>)
    requires
        db@.no_duplicates(),
    ensures
        r@.no_duplicates(),
        r@.to_set() == derive_all(rules@.map_values(|x: Rule| x@), db@.to_set()),
{
    let ghost views = rules@.map_values(|x: Rule| x@);
    let mut r: Vec<Fact> = Vec::new();
    let mut i: usize = 0;
    while i < rules.len()
        invariant
            i <= rules.len(),
            views == rules@.map_values(|x: Rule| x@),
            db@.no_duplicates(),
            r@.no_duplicates(),
            r@.to_set() == derive_all(views.subrange(0, i as int), db@.to_set()),
        decreases rules.len() - i,
    {
        let out = rules[i].eval(db);
        let ghost acc = r@.to_set();
        let mut k: usize = 0;
        while k < out.len()
            invariant
                k <= out.len(),
                r@.no_duplicates(),
                r@.to_set() == acc.union(out@.subrange(0, k as int).to_set()),
            decreases out.len() - k,
        {
            let f = out[k];
            assert(out@.subrange(0, k + 1) =~= out@.subrange(0, k as int).push(f));
            insert_fact(&mut r, f);
            assert(r@.to_set() =~= acc.union(out@.subrange(0, k + 1).to_set()));
            k += 1;
        }
        assert(out@.subrange(0, out.len() as int) =~= out@);
        assert(views.subrange(0, i + 1).drop_last() =~= views.subrange(0, i as int));
        assert(views.subrange(0, i + 1).last() == rules@[i as int]@);
        i += 1;
    }
    assert(views.subrange(0, rules.len() as int) =~= views);
    r
}

/// Builds the rule table of the scene.
pub fn prog() -> (r: Vec<Rule>)
    ensures
        r@.map_values(|x: Rule| x@) == program(),
{
    let act_win = Stage::Join { with: Rel::Object, via: JoinFn::ActionOnWindow };
    let moved_fluent = Rule {
        source: Rel::Action,
        target: Rel::OutFluent,
        stages: vec![act_win, Stage::Join { with: Rel::InFluent, via: JoinFn::ActionAtFluent }],
    };
    let first_move = Rule {
        source: Rel::Action,
        target: Rel::OutFluent,
        stages: vec![
            act_win,
            Stage::AntiJoin { with: Rel::InFluent, via: JoinFn::ActionAtFluent },
            Stage::MapRows { func: MapFn::ActionFromOrigin },
        ],
    };
    let window_row = Rule {
        source: Rel::InFluent,
        target: Rel::Output,
        stages: vec![
            Stage::Join { with: Rel::Object, via: JoinFn::FluentOnWindow },
            Stage::Join { with: Rel::Attribute, via: JoinFn::FluentWidth },
            Stage::Join { with: Rel::Attribute, via: JoinFn::RowHeight },
        ],
    };
    assert(moved_fluent.stages@ =~= program()[0].stages);
    assert(first_move.stages@ =~= program()[1].stages);
    assert(window_row.stages@ =~= program()[2].stages);
    let r = vec![moved_fluent, first_move, window_row];
    assert(r@.map_values(|x: Rule| x@) =~= program());
    r
}

} // verus!
