//! The goal selector: decides which mob AI goals run, by priority and by flag conflicts.

use vstd::prelude::*;

use crate::goal::{flag_index, GoalFlag, GoalFlags};

verus! {

/// A goal that controls a specific aspect of mob behavior.
///
/// `C` is the context that the goals read and change while they are evaluated and run.
/// The selector calls these methods; what they return is the goal's own decision.
pub trait Goal<C> {
    /// The flags this goal uses. Goals with overlapping flags cannot run simultaneously.
    fn flags(&self) -> GoalFlags;

    /// Checks if this goal can start being used.
    fn can_use(&mut self, ctx: &mut C) -> bool;

    /// Checks if this goal should continue running.
    fn can_continue_to_use(&mut self, ctx: &mut C) -> bool;

    /// Whether this goal can be interrupted by a higher-priority goal.
    fn is_interruptable(&self) -> bool;

    /// Whether this goal needs to be ticked every game tick.
    fn requires_update_every_tick(&self) -> bool;

    /// Called when the goal starts running.
    fn start(&mut self, ctx: &mut C);

    /// Called when the goal stops running.
    fn stop(&mut self, ctx: &mut C);

    /// Called every tick while the goal is running.
    fn tick(&mut self, ctx: &mut C);
}

/// A goal together with its priority, its flags and whether it runs.
pub struct WrappedGoal<G> {
    /// The goal instance
    pub goal: G,
    /// Priority (lower = higher priority)
    pub priority: i32,
    /// Whether this goal is currently running
    pub is_running: bool,
    /// The flags of the goal, read once when it was added
    pub flags: GoalFlags,
    /// How many times the selector has called the goal's `tick`
    pub tick_calls: Ghost<nat>,
}

/// Manages a set of goals and determines which should be active.
///
/// Higher priority goals (lower numbers) take precedence, goals with conflicting
/// flags don't run simultaneously, and goals are started and stopped cleanly.
pub struct GoalSelector<G> {
    /// All available goals, sorted by priority
    goals: Vec<WrappedGoal<G>>,
    /// Flags that are currently disabled
    disabled_flags: GoalFlags,
    /// The index of the goal holding each flag (by flag index)
    locked_flags: Vec<Option<usize>>,
}

/// The index of the first goal whose priority is greater than `priority`, or the
/// number of goals when there is none: where a new goal of that priority is inserted.
pub open spec fn insert_position<G>(goals: Seq<WrappedGoal<G>>, priority: i32) -> int
    decreases goals.len(),
{
    if goals.len() == 0 {
        0
    } else if goals[0].priority > priority {
        0
    } else {
        1 + insert_position(goals.drop_first(), priority)
    }
}

/// The number of running goals in a sequence.
pub open spec fn count_running<G>(goals: Seq<WrappedGoal<G>>) -> nat
    decreases goals.len(),
{
    if goals.len() == 0 {
        0
    } else {
        count_running(goals.drop_last()) + if goals.last().is_running { 1nat } else { 0nat }
    }
}

/// The positions of the running goals, in order.
pub open spec fn running_positions<G>(goals: Seq<WrappedGoal<G>>) -> Seq<int>
    decreases goals.len(),
{
    if goals.len() == 0 {
        Seq::empty()
    } else {
        let r = running_positions(goals.drop_last());
        if goals.last().is_running {
            r.push(goals.len() - 1)
        } else {
            r
        }
    }
}

/// The goals of `goals` whose entry in `removed` is false, in their order.
pub open spec fn retained<G>(goals: Seq<WrappedGoal<G>>, keep: Seq<bool>) -> Seq<WrappedGoal<G>>
    decreases goals.len(),
{
    if goals.len() == 0 {
        Seq::empty()
    } else {
        let rest = retained(goals.drop_last(), keep.drop_last());
        if keep.last() {
            rest
        } else {
            rest.push(goals.last())
        }
    }
}

/// Every goal that `retained` keeps is one of the goals it was given.
proof fn lemma_retained_members<G>(goals: Seq<WrappedGoal<G>>, keep: Seq<bool>)
    requires
        keep.len() == goals.len(),
    ensures
        forall|k: int| 0 <= k < retained(goals, keep).len() ==>
            goals.contains(#[trigger] retained(goals, keep)[k]),
        retained(goals, keep).len() <= goals.len(),
    decreases goals.len(),
{
    if goals.len() > 0 {
        let rest = retained(goals.drop_last(), keep.drop_last());
        lemma_retained_members(goals.drop_last(), keep.drop_last());
        assert forall|k: int| 0 <= k < retained(goals, keep).len() implies
            goals.contains(#[trigger] retained(goals, keep)[k]) by {
            if k < rest.len() {
                assert(retained(goals, keep)[k] == rest[k]);
                assert(goals.drop_last().contains(rest[k]));
                let j = choose|j: int| 0 <= j < goals.drop_last().len() && goals.drop_last()[j] == rest[k];
                assert(goals[j] == rest[k]);
            } else {
                assert(retained(goals, keep)[k] == goals.last());
                assert(goals[goals.len() - 1] == goals.last());
            }
        }
    }
}

/// Keeping some goals of a priority-sorted sequence leaves it sorted.
proof fn lemma_retained_sorted<G>(goals: Seq<WrappedGoal<G>>, keep: Seq<bool>)
    requires
        keep.len() == goals.len(),
        forall|i: int, j: int| 0 <= i < j < goals.len() ==> goals[i].priority <= goals[j].priority,
    ensures
        forall|i: int, j: int| 0 <= i < j < retained(goals, keep).len() ==>
            retained(goals, keep)[i].priority <= retained(goals, keep)[j].priority,
    decreases goals.len(),
{
    if goals.len() > 0 {
        let rest = retained(goals.drop_last(), keep.drop_last());
        lemma_retained_sorted(goals.drop_last(), keep.drop_last());
        lemma_retained_members(goals.drop_last(), keep.drop_last());
        let r = retained(goals, keep);
        assert forall|i: int, j: int| 0 <= i < j < r.len() implies r[i].priority <= r[j].priority by {
            if j < rest.len() {
                assert(r[i] == rest[i] && r[j] == rest[j]);
            } else {
                assert(r[i] == rest[i]);
                assert(goals.drop_last().contains(rest[i]));
                let a = choose|a: int| 0 <= a < goals.drop_last().len() && goals.drop_last()[a] == rest[i];
                assert(goals[a] == rest[i]);
                assert(r[j] == goals[goals.len() - 1]);
            }
        }
    }
}

/// The number of goals before position `m` that a removal keeps.
pub open spec fn kept_count(removed: Seq<bool>, m: nat) -> nat
    decreases m,
{
    if m == 0 {
        0
    } else {
        kept_count(removed, (m - 1) as nat) + if removed[m - 1] { 0nat } else { 1nat }
    }
}

/// A flag holder after a removal: freed when its goal was removed, else the
/// new position of its goal.
pub open spec fn remapped(h: Option<usize>, removed: Seq<bool>) -> Option<usize> {
    match h {
        Some(x) => if removed[x as int] { None } else { Some(kept_count(removed, x as nat) as usize) },
        None => None,
    }
}

proof fn lemma_kept_prefix(r1: Seq<bool>, r2: Seq<bool>, m: nat)
    requires
        forall|j: int| 0 <= j < m ==> r1[j] == r2[j],
    ensures
        kept_count(r1, m) == kept_count(r2, m),
    decreases m,
{
    if m > 0 {
        lemma_kept_prefix(r1, r2, (m - 1) as nat);
    }
}

proof fn lemma_kept_le(r: Seq<bool>, m: nat)
    ensures
        kept_count(r, m) <= m,
    decreases m,
{
    if m > 0 {
        lemma_kept_le(r, (m - 1) as nat);
    }
}

/// A removal keeps `kept_count(removed, n)` of `n` goals.
proof fn lemma_retained_len<G>(goals: Seq<WrappedGoal<G>>, removed: Seq<bool>)
    requires
        removed.len() == goals.len(),
    ensures
        retained(goals, removed).len() == kept_count(removed, goals.len()),
    decreases goals.len(),
{
    if goals.len() > 0 {
        let n = goals.len() as int;
        lemma_retained_len(goals.drop_last(), removed.drop_last());
        lemma_kept_prefix(removed.drop_last(), removed, (n - 1) as nat);
    }
}

/// A kept goal at `h` lands at `kept_count(removed, h)`.
proof fn lemma_retained_at<G>(goals: Seq<WrappedGoal<G>>, removed: Seq<bool>, h: int)
    requires
        removed.len() == goals.len(),
        0 <= h < goals.len(),
        !removed[h],
    ensures
        kept_count(removed, h as nat) < retained(goals, removed).len(),
        retained(goals, removed)[kept_count(removed, h as nat) as int] == goals[h],
    decreases goals.len(),
{
    let n = goals.len() as int;
    let g0 = goals.drop_last();
    let r0 = removed.drop_last();
    lemma_retained_len(g0, r0);
    lemma_kept_prefix(r0, removed, h as nat);
    lemma_kept_prefix(r0, removed, (n - 1) as nat);
    if h < n - 1 {
        lemma_retained_at(g0, r0, h);
    }
}

/// Every position of what a removal keeps holds some kept goal.
proof fn lemma_retained_source<G>(goals: Seq<WrappedGoal<G>>, removed: Seq<bool>, p: int) -> (h: int)
    requires
        removed.len() == goals.len(),
        0 <= p < retained(goals, removed).len(),
    ensures
        0 <= h < goals.len(),
        !removed[h],
        kept_count(removed, h as nat) == p,
    decreases goals.len(),
{
    let n = goals.len() as int;
    let g0 = goals.drop_last();
    let r0 = removed.drop_last();
    lemma_retained_len(g0, r0);
    lemma_kept_prefix(r0, removed, (n - 1) as nat);
    if p < retained(g0, r0).len() {
        let h = lemma_retained_source(g0, r0, p);
        lemma_kept_prefix(r0, removed, h as nat);
        h
    } else {
        n - 1
    }
}

/// What a removal keeps depends only on the goals it keeps.
proof fn lemma_retained_frame<G>(g1: Seq<WrappedGoal<G>>, g2: Seq<WrappedGoal<G>>, removed: Seq<bool>)
    requires
        g1.len() == g2.len(),
        removed.len() == g1.len(),
        forall|j: int| 0 <= j < g1.len() && !removed[j] ==> g1[j] == g2[j],
    ensures
        retained(g1, removed) == retained(g2, removed),
    decreases g1.len(),
{
    if g1.len() > 0 {
        lemma_retained_frame(g1.drop_last(), g2.drop_last(), removed.drop_last());
        if !removed.last() {
            assert(g1[g1.len() - 1] == g2[g2.len() - 1]);
        }
    }
}

proof fn lemma_index_distinct(f: GoalFlag, g: GoalFlag)
    requires
        f != g,
    ensures
        flag_index(f) != flag_index(g),
{
}

/// The flag of a bit position (0 `Move`, 1 `Look`, 2 `Jump`, 3 `Target`).
pub open spec fn flag_at(k: int) -> GoalFlag {
    if k == 0 {
        GoalFlag::Move
    } else if k == 1 {
        GoalFlag::Look
    } else if k == 2 {
        GoalFlag::Jump
    } else {
        GoalFlag::Target
    }
}

/// Whether two flag sets share a flag.
pub open spec fn shares(a: GoalFlags, b: GoalFlags) -> bool {
    exists|f: GoalFlag| #[trigger] a.has(f) && b.has(f)
}

/// The selector's state as the tick changes it: which goals run, and which
/// goal holds each flag (by bit position).
pub type RunState = (Seq<bool>, Seq<Option<usize>>);

/// The state after goal `i` (with flags `flags`) stops: it no longer runs,
/// and the flags of its own that it holds are released.
pub open spec fn after_stop(st: RunState, i: int, flags: GoalFlags) -> RunState {
    (
        st.0.update(i, false),
        Seq::new(
            st.1.len(),
            |k: int|
                if st.1[k] is Some && st.1[k]->0 == i && flags.has(flag_at(k)) {
                    None
                } else {
                    st.1[k]
                },
        ),
    )
}

/// Whether goal `j` holds, in `locks`, one of the first `m` flag positions
/// that `flags` uses.
pub open spec fn displaced(locks: Seq<Option<usize>>, flags: GoalFlags, j: int, m: int) -> bool {
    exists|k: int| 0 <= k < m && flags.has(flag_at(k)) && (#[trigger] locks[k]) is Some && locks[k]->0 == j
}

/// The state after goal `i` (with flags `flags`) takes its flags and
/// starts: every other goal that held one of them stops, and goal `i` holds
/// them all.
pub open spec fn after_start(st: RunState, i: int, flags: GoalFlags) -> RunState {
    (
        Seq::new(
            st.0.len(),
            |j: int|
                if j == i {
                    true
                } else if displaced(st.1, flags, j, st.1.len() as int) {
                    false
                } else {
                    st.0[j]
                },
        ),
        Seq::new(st.1.len(), |k: int| if flags.has(flag_at(k)) { Some(i as usize) } else { st.1[k] }),
    )
}

/// One cleanup step: goal `i` stops when it runs and either uses a disabled
/// flag or, asked, said it cannot continue (`cont_i`).
pub open spec fn cleanup_step<G>(goals: Seq<WrappedGoal<G>>, disabled: GoalFlags, s: RunState, i: int, cont_i: bool) -> RunState {
    if s.0[i] && (shares(goals[i].flags, disabled) || !cont_i) {
        after_stop(s, i, goals[i].flags)
    } else {
        s
    }
}

/// The cleanup phase of a tick over the first `m` goals, given the answers
/// `cont` of the goals asked whether they can continue (`None` where a goal
/// was not asked).
pub open spec fn cleanup_upto<G>(goals: Seq<WrappedGoal<G>>, disabled: GoalFlags, st: RunState, cont: Seq<Option<bool>>, m: nat) -> RunState
    decreases m,
{
    if m == 0 {
        st
    } else {
        cleanup_step(
            goals,
            disabled,
            cleanup_upto(goals, disabled, st, cont, (m - 1) as nat),
            m - 1,
            cont[m - 1] != Some(false),
        )
    }
}

/// Which goals the cleanup phase asks whether they can continue: each goal
/// that, when its turn comes, runs and uses no disabled flag.
pub open spec fn cleanup_asks<G>(goals: Seq<WrappedGoal<G>>, disabled: GoalFlags, st: RunState, cont: Seq<Option<bool>>, m: nat) -> bool {
    forall|i: int| 0 <= i < m ==> ((#[trigger] cont[i]) is Some <==> (
        cleanup_upto(goals, disabled, st, cont, i as nat).0[i] && !shares(goals[i].flags, disabled)))
}

/// Goal `i` may take its flags in state `st`, given what the holders answered
/// when asked whether they can be interrupted (`intr`, by flag position): every
/// other goal holding one of its flags answered yes and has a larger priority
/// number.
pub open spec fn can_take_with<G>(goals: Seq<WrappedGoal<G>>, st: RunState, i: int, intr: Seq<bool>) -> bool {
    forall|k: int|
        0 <= k < st.1.len() && goals[i].flags.has(flag_at(k)) && (#[trigger] st.1[k]) is Some && st.1[k]->0 != i
            ==> intr[k] && goals[i].priority < goals[st.1[k]->0 as int].priority
}

/// One start step: goal `i` starts, taking its flags, when it does not run,
/// uses no disabled flag, may take its flags (given the holders' answers
/// `intr_i`) and, asked, said it can be used (`usable_i`).
pub open spec fn start_step<G>(
    goals: Seq<WrappedGoal<G>>,
    disabled: GoalFlags,
    s: RunState,
    i: int,
    intr_i: Seq<bool>,
    usable_i: bool,
) -> RunState {
    if !s.0[i] && !shares(goals[i].flags, disabled) && can_take_with(goals, s, i, intr_i) && usable_i {
        after_start(s, i, goals[i].flags)
    } else {
        s
    }
}

/// The start phase of a tick over the first `m` goals, given the answers of
/// the goals asked: `intr[i]` of the holders asked whether they can be
/// interrupted for goal `i`, and `usable[i]` of goal `i` asked whether it can
/// be used (`None` where it was not asked).
pub open spec fn start_upto<G>(
    goals: Seq<WrappedGoal<G>>,
    disabled: GoalFlags,
    st: RunState,
    intr: Seq<Seq<bool>>,
    usable: Seq<Option<bool>>,
    m: nat,
) -> RunState
    decreases m,
{
    if m == 0 {
        st
    } else {
        start_step(
            goals,
            disabled,
            start_upto(goals, disabled, st, intr, usable, (m - 1) as nat),
            m - 1,
            intr[m - 1],
            usable[m - 1] == Some(true),
        )
    }
}

/// Which goals the start phase asks whether they can be used: each goal
/// that, when its turn comes, does not run, uses no disabled flag and may take
/// its flags.
pub open spec fn start_asks<G>(
    goals: Seq<WrappedGoal<G>>,
    disabled: GoalFlags,
    st: RunState,
    intr: Seq<Seq<bool>>,
    usable: Seq<Option<bool>>,
    m: nat,
) -> bool {
    forall|i: int| 0 <= i < m ==> ((#[trigger] usable[i]) is Some <==> ({
        let s = start_upto(goals, disabled, st, intr, usable, i as nat);
        !s.0[i] && !shares(goals[i].flags, disabled) && can_take_with(goals, s, i, intr[i])
    }))
}

proof fn lemma_flag_at(k: int)
    requires
        0 <= k < 4,
    ensures
        flag_index(flag_at(k)) == k,
{
}

proof fn lemma_flag_at_index(f: GoalFlag)
    ensures
        flag_at(flag_index(f) as int) == f,
        0 <= flag_index(f) < 4,
{
}

/// A flag holder after a goal is inserted at `pos` among `n` goals: holders
/// at or after the insertion point move up by one.
pub open spec fn shifted(h: Option<usize>, pos: int, n: int) -> Option<usize> {
    match h {
        Some(x) => if pos <= x < n { Some((x + 1) as usize) } else { Some(x) },
        None => None,
    }
}

/// Goal `i` may take its flags in state `st`: every other holder of one of
/// them has a larger priority number.
pub open spec fn may_take<G>(goals: Seq<WrappedGoal<G>>, st: RunState, i: int) -> bool {
    forall|k: int|
        0 <= k < st.1.len() && goals[i].flags.has(flag_at(k)) && (#[trigger] st.1[k]) is Some && st.1[k]->0 != i
            ==> goals[i].priority < goals[st.1[k]->0 as int].priority
}

/// Some goal other than `i` holds, in state `st`, a flag that goal `i` uses.
pub open spec fn holds_others<G>(goals: Seq<WrappedGoal<G>>, st: RunState, i: int) -> bool {
    exists|k: int|
        0 <= k < st.1.len() && goals[i].flags.has(flag_at(k)) && (#[trigger] st.1[k]) is Some && st.1[k]->0 != i
}

/// The cleanup phase depends only on the answers it asked for.
proof fn lemma_cleanup_prefix<G>(
    goals: Seq<WrappedGoal<G>>,
    disabled: GoalFlags,
    st: RunState,
    c1: Seq<Option<bool>>,
    c2: Seq<Option<bool>>,
    m: nat,
)
    requires
        forall|k: int| 0 <= k < m ==> c1[k] == c2[k],
    ensures
        cleanup_upto(goals, disabled, st, c1, m) == cleanup_upto(goals, disabled, st, c2, m),
    decreases m,
{
    if m > 0 {
        lemma_cleanup_prefix(goals, disabled, st, c1, c2, (m - 1) as nat);
    }
}

/// The start phase depends only on the answers it asked for.
proof fn lemma_start_prefix<G>(
    goals: Seq<WrappedGoal<G>>,
    disabled: GoalFlags,
    st: RunState,
    t1: Seq<Seq<bool>>,
    u1: Seq<Option<bool>>,
    t2: Seq<Seq<bool>>,
    u2: Seq<Option<bool>>,
    m: nat,
)
    requires
        forall|k: int| 0 <= k < m ==> t1[k] == t2[k] && u1[k] == u2[k],
    ensures
        start_upto(goals, disabled, st, t1, u1, m) == start_upto(goals, disabled, st, t2, u2, m),
    decreases m,
{
    if m > 0 {
        lemma_start_prefix(goals, disabled, st, t1, u1, t2, u2, (m - 1) as nat);
    }
}

/// `can_take_with` reads only the priorities and flags of the goals.
proof fn lemma_can_take_frame<G>(g1: Seq<WrappedGoal<G>>, g2: Seq<WrappedGoal<G>>, st: RunState, i: int, intr: Seq<bool>)
    requires
        g1.len() == g2.len(),
        0 <= i < g1.len(),
        forall|j: int| 0 <= j < g1.len() ==> #[trigger] g1[j].priority == g2[j].priority && g1[j].flags == g2[j].flags,
        forall|k: int| 0 <= k < st.1.len() && (#[trigger] st.1[k]) is Some ==> st.1[k]->0 < g1.len(),
    ensures
        can_take_with(g1, st, i, intr) == can_take_with(g2, st, i, intr),
{
    assert(g1[i].priority == g2[i].priority);
    if can_take_with(g1, st, i, intr) {
        assert forall|k: int|
            0 <= k < st.1.len() && g2[i].flags.has(flag_at(k)) && (#[trigger] st.1[k]) is Some && st.1[k]->0 != i
                implies intr[k] && g2[i].priority < g2[st.1[k]->0 as int].priority by {
            assert(g1[st.1[k]->0 as int].priority == g2[st.1[k]->0 as int].priority);
        }
    }
    if can_take_with(g2, st, i, intr) {
        assert forall|k: int|
            0 <= k < st.1.len() && g1[i].flags.has(flag_at(k)) && (#[trigger] st.1[k]) is Some && st.1[k]->0 != i
                implies intr[k] && g1[i].priority < g1[st.1[k]->0 as int].priority by {
            assert(g1[st.1[k]->0 as int].priority == g2[st.1[k]->0 as int].priority);
        }
    }
}

/// The state after a tick's cleanup and start phases, given the goals' answers:
/// `cont` (can it continue), `intr` (can the holders of its flags be
/// interrupted) and `usable` (can it be used).
pub open spec fn tick_state<G>(
    goals: Seq<WrappedGoal<G>>,
    disabled: GoalFlags,
    st: RunState,
    cont: Seq<Option<bool>>,
    intr: Seq<Seq<bool>>,
    usable: Seq<Option<bool>>,
) -> RunState {
    start_upto(goals, disabled, cleanup_upto(goals, disabled, st, cont, goals.len()), intr, usable, goals.len())
}

/// The answers of a tick: one entry of each kind for every goal, and the goals
/// asked whether they can continue, and whether they can be used, are exactly
/// those the phases ask.
pub open spec fn tick_answers<G>(
    goals: Seq<WrappedGoal<G>>,
    disabled: GoalFlags,
    st: RunState,
    cont: Seq<Option<bool>>,
    intr: Seq<Seq<bool>>,
    usable: Seq<Option<bool>>,
) -> bool {
    &&& cont.len() == goals.len()
    &&& intr.len() == goals.len()
    &&& usable.len() == goals.len()
    &&& cleanup_asks(goals, disabled, st, cont, goals.len())
    &&& start_asks(goals, disabled, cleanup_upto(goals, disabled, st, cont, goals.len()), intr, usable, goals.len())
}

impl<G> GoalSelector<G> {
    /// The goals, in priority order.
    pub closed spec fn goals(&self) -> Seq<WrappedGoal<G>> {
        self.goals@
    }

    /// Which goals run, and which goal holds each flag (by bit position).
    pub closed spec fn state(&self) -> RunState {
        (self.goals@.map_values(|w: WrappedGoal<G>| w.is_running), self.locked_flags@)
    }

    /// The disabled flags.
    pub closed spec fn disabled(&self) -> GoalFlags {
        self.disabled_flags
    }

    /// The index of the goal that holds a flag, if any.
    pub closed spec fn holder(&self, flag: GoalFlag) -> Option<usize> {
        self.locked_flags@[flag_index(flag) as int]
    }

    /// Goals are sorted by priority.
    pub open spec fn sorted(&self) -> bool {
        forall|i: int, j: int| 0 <= i < j < self.goals().len() ==>
            self.goals()[i].priority <= self.goals()[j].priority
    }

    /// Every flag holder is a goal of the selector.
    pub open spec fn holders_in_range(&self) -> bool {
        forall|f: GoalFlag| #[trigger] self.holder(f) is Some ==> self.holder(f)->0 < self.goals().len()
    }

    /// Every running goal holds all of its flags.
    pub open spec fn running_hold_flags(&self) -> bool {
        forall|i: int, f: GoalFlag|
            0 <= i < self.goals().len() && self.goals()[i].is_running && #[trigger] self.goals()[i].flags.has(f)
                ==> (#[trigger] self.holder(f) is Some && self.holder(f)->0 == i)
    }

    /// The selector's internal invariant.
    pub closed spec fn wf(&self) -> bool {
        &&& self.locked_flags@.len() == GoalFlag::COUNT
        &&& self.sorted()
        &&& self.holders_in_range()
        &&& self.running_hold_flags()
    }

    /// No running goal uses a disabled flag.
    pub open spec fn running_avoid_disabled(&self) -> bool {
        forall|i: int, f: GoalFlag|
            0 <= i < self.goals().len() && self.goals()[i].is_running && #[trigger] self.goals()[i].flags.has(f)
                ==> !self.disabled().has(f)
    }

    /// The priorities and flags of the goals, and the goals themselves, are those of `other`.
    pub open spec fn same_goals(&self, other: &Self) -> bool {
        &&& self.goals().len() == other.goals().len()
        &&& forall|i: int| 0 <= i < self.goals().len() ==> {
            &&& #[trigger] self.goals()[i].priority == other.goals()[i].priority
            &&& self.goals()[i].flags == other.goals()[i].flags
        }
    }

    /// Selectors with the same goals and flag holders agree on `wf`.
    proof fn lemma_wf_frame(a: &Self, b: &Self)
        requires
            a.goals@ == b.goals@,
            a.locked_flags@ == b.locked_flags@,
        ensures
            a.wf() ==> b.wf(),
            forall|f: GoalFlag| #[trigger] b.holder(f) == a.holder(f),
            b.goals() == a.goals(),
    {
        assert forall|f: GoalFlag| #[trigger] b.holder(f) == a.holder(f) by {}
        if a.wf() {
            assert(b.locked_flags@.len() == GoalFlag::COUNT);
            assert(a.sorted());
            assert(b.goals() == a.goals());
            assert(b.sorted());
            assert forall|f: GoalFlag| #[trigger] b.holder(f) is Some implies b.holder(f)->0 < b.goals().len() by {
                assert(a.holder(f) == b.holder(f));
            }
            assert forall|i: int, f: GoalFlag|
                0 <= i < b.goals().len() && b.goals()[i].is_running && #[trigger] b.goals()[i].flags.has(f)
                    implies (#[trigger] b.holder(f) is Some && b.holder(f)->0 == i) by {
                assert(a.holder(f) == b.holder(f));
                assert(a.goals()[i] == b.goals()[i]);
                assert(a.goals()[i].flags.has(f));
            }
        }
    }

    /// Selectors whose goals have the same metadata, and with the same flag holders and
    /// disabled flags, agree on the invariants.
    proof fn lemma_meta_frame(a: &Self, b: &Self)
        requires
            a.goals().len() == b.goals().len(),
            forall|j: int| 0 <= j < a.goals().len() ==> {
                &&& #[trigger] b.goals()[j].priority == a.goals()[j].priority
                &&& b.goals()[j].flags == a.goals()[j].flags
                &&& b.goals()[j].is_running == a.goals()[j].is_running
            },
            a.locked_flags@ == b.locked_flags@,
            a.disabled_flags == b.disabled_flags,
        ensures
            a.wf() ==> b.wf(),
            a.running_avoid_disabled() ==> b.running_avoid_disabled(),
            b.same_state(a),
            forall|f: GoalFlag| #[trigger] b.holder(f) == a.holder(f),
            b.disabled() == a.disabled(),
    {
        assert forall|f: GoalFlag| #[trigger] b.holder(f) == a.holder(f) by {}
        assert forall|j: int| 0 <= j < b.goals().len() implies
            #[trigger] b.goals()[j].priority == a.goals()[j].priority
            && b.goals()[j].flags == a.goals()[j].flags by {
            assert(b.goals()[j].priority == a.goals()[j].priority);
        }
        assert forall|j: int| 0 <= j < b.goals().len() implies
            #[trigger] b.goals()[j].is_running == a.goals()[j].is_running by {
            assert(b.goals()[j].priority == a.goals()[j].priority);
        }
        if a.wf() {
            assert forall|x: int, y: int| 0 <= x < y < b.goals().len() implies
                b.goals()[x].priority <= b.goals()[y].priority by {
                assert(b.goals()[x].priority == a.goals()[x].priority);
                assert(b.goals()[y].priority == a.goals()[y].priority);
            }
            assert forall|f: GoalFlag| #[trigger] b.holder(f) is Some implies
                b.holder(f)->0 < b.goals().len() by {
                assert(a.holder(f) == b.holder(f));
            }
            assert forall|j: int, f: GoalFlag|
                0 <= j < b.goals().len() && b.goals()[j].is_running && #[trigger] b.goals()[j].flags.has(f)
                    implies (#[trigger] b.holder(f) is Some && b.holder(f)->0 == j) by {
                assert(a.holder(f) == b.holder(f));
                assert(b.goals()[j].priority == a.goals()[j].priority);
                assert(a.goals()[j].flags.has(f));
            }
        }
        if a.running_avoid_disabled() {
            assert forall|j: int, f: GoalFlag|
                0 <= j < b.goals().len() && b.goals()[j].is_running && #[trigger] b.goals()[j].flags.has(f)
                    implies !b.disabled().has(f) by {
                assert(b.goals()[j].priority == a.goals()[j].priority);
                assert(a.goals()[j].flags.has(f));
            }
        }
    }

    proof fn lemma_holder_index(&self, f: GoalFlag)
        requires
            self.locked_flags@.len() == GoalFlag::COUNT,
        ensures
            self.holder(f) == self.locked_flags@[flag_index(f) as int],
            0 <= flag_index(f) < GoalFlag::COUNT,
    {
    }

    /// Selectors whose goals run alike and whose flag holders agree have the same state.
    proof fn lemma_state_frame(a: &Self, b: &Self)
        requires
            a.goals().len() == b.goals().len(),
            forall|j: int| 0 <= j < a.goals().len() ==> #[trigger] b.goals()[j].is_running == a.goals()[j].is_running,
            a.locked_flags@ == b.locked_flags@,
        ensures
            a.state() == b.state(),
    {
        assert(a.state().0 =~= b.state().0);
    }

    /// Every goal has had its `tick` called as often as in `other`.
    pub open spec fn same_calls(&self, other: &Self) -> bool {
        &&& self.goals().len() == other.goals().len()
        &&& forall|j: int| 0 <= j < self.goals().len() ==>
            #[trigger] self.goals()[j].tick_calls == other.goals()[j].tick_calls
    }

    /// The metadata of every goal (priority, flags, running) is that of `other`.
    pub open spec fn same_state(&self, other: &Self) -> bool {
        &&& self.same_goals(other)
        &&& forall|i: int| 0 <= i < self.goals().len() ==>
            #[trigger] self.goals()[i].is_running == other.goals()[i].is_running
    }

    proof fn lemma_insert_position(goals: Seq<WrappedGoal<G>>, priority: i32, k: int)
        requires
            0 <= k <= goals.len(),
            forall|i: int| 0 <= i < k ==> #[trigger] goals[i].priority <= priority,
            k < goals.len() ==> goals[k].priority > priority,
        ensures
            insert_position(goals, priority) == k,
        decreases goals.len(),
    {
        if goals.len() > 0 && k > 0 {
            assert forall|i: int| 0 <= i < k - 1 implies #[trigger] goals.drop_first()[i].priority <= priority by {
                assert(goals.drop_first()[i] == goals[i + 1]);
            }
            if k - 1 < goals.drop_first().len() {
                assert(goals.drop_first()[k - 1] == goals[k]);
            }
            Self::lemma_insert_position(goals.drop_first(), priority, k - 1);
        }
    }

    /// Creates a new empty goal selector
    pub fn new() -> (r: Self)
        ensures
            r.wf(),
            r.goals().len() == 0,
            forall|f: GoalFlag| !#[trigger] r.disabled().has(f),
            forall|f: GoalFlag| #[trigger] r.holder(f) is None,
    {
        let mut locked: Vec<Option<usize>> = Vec::new();
        locked.push(None);
        locked.push(None);
        locked.push(None);
        locked.push(None);
        GoalSelector { goals: Vec::new(), disabled_flags: GoalFlags::empty(), locked_flags: locked }
    }

    /// Disables a control flag, preventing any goals using it from running.
    pub fn disable_flag(&mut self, flag: GoalFlag)
        ensures
            final(self).goals() == old(self).goals(),
            forall|f: GoalFlag| #[trigger] final(self).disabled().has(f) <==> (old(self).disabled().has(f) || f == flag),
            forall|f: GoalFlag| #[trigger] final(self).holder(f) == old(self).holder(f),
            old(self).wf() ==> final(self).wf(),
    {
        self.disabled_flags.insert(flag);
        proof { GoalSelector::lemma_wf_frame(&*old(self), &*self); }
    }

    /// Enables a control flag, allowing goals using it to run again.
    pub fn enable_flag(&mut self, flag: GoalFlag)
        ensures
            final(self).goals() == old(self).goals(),
            forall|f: GoalFlag| #[trigger] final(self).disabled().has(f) <==> (old(self).disabled().has(f) && f != flag),
            forall|f: GoalFlag| #[trigger] final(self).holder(f) == old(self).holder(f),
            old(self).wf() ==> final(self).wf(),
    {
        self.disabled_flags.remove(flag);
        proof { GoalSelector::lemma_wf_frame(&*old(self), &*self); }
    }

    /// Sets whether a flag is enabled
    pub fn set_flag(&mut self, flag: GoalFlag, enabled: bool)
        ensures
            final(self).goals() == old(self).goals(),
            forall|f: GoalFlag| #[trigger] final(self).disabled().has(f) <==>
                if f == flag { !enabled } else { old(self).disabled().has(f) },
            forall|f: GoalFlag| #[trigger] final(self).holder(f) == old(self).holder(f),
            old(self).wf() ==> final(self).wf(),
    {
        if enabled {
            self.enable_flag(flag);
        } else {
            self.disable_flag(flag);
        }
    }

    /// Adds a goal with the specified priority.
    ///
    /// Lower priority numbers are executed first. Goals with the same priority
    /// are executed in the order they were added. The goal's flags are read here, once.
    /// The goals after the insertion point move up by one, and so do the flags
    /// they hold.
    pub fn add_goal<C>(&mut self, priority: i32, goal: G)
        where G: Goal<C>,
        ensures
            ({
                let pos = insert_position(old(self).goals(), priority);
                &&& 0 <= pos <= old(self).goals().len()
                &&& forall|i: int| 0 <= i < pos ==> #[trigger] old(self).goals()[i].priority <= priority
                &&& pos < old(self).goals().len() ==> old(self).goals()[pos].priority > priority
                &&& final(self).goals().len() == old(self).goals().len() + 1
                &&& forall|i: int| 0 <= i < pos ==> #[trigger] final(self).goals()[i] == old(self).goals()[i]
                &&& final(self).goals()[pos].goal == goal
                &&& final(self).goals()[pos].priority == priority
                &&& !final(self).goals()[pos].is_running
                &&& forall|i: int| pos < i <= old(self).goals().len() ==>
                    #[trigger] final(self).goals()[i] == old(self).goals()[i - 1]
                &&& old(self).wf() ==> forall|f: GoalFlag| #[trigger] final(self).holder(f)
                    == shifted(old(self).holder(f), pos, old(self).goals().len() as int)
            }),
            old(self).wf() ==> final(self).wf(),
            final(self).disabled() == old(self).disabled(),
    {
        let flags = goal.flags();
        let wrapped = WrappedGoal { goal, priority, is_running: false, flags, tick_calls: Ghost(0) };
        let n = self.goals.len();
        let mut pos: usize = n;
        let mut i: usize = 0;
        while i < n
            invariant_except_break
                i <= n,
                pos == n,
                n == self.goals@.len(),
                forall|k: int| 0 <= k < i ==> #[trigger] self.goals@[k].priority <= priority,
            ensures
                pos <= n,
                n == self.goals@.len(),
                forall|k: int| 0 <= k < pos ==> #[trigger] self.goals@[k].priority <= priority,
                pos < n ==> self.goals@[pos as int].priority > priority,
            decreases n - i,
        {
            if self.goals[i].priority > priority {
                pos = i;
                break;
            }
            i = i + 1;
        }
        proof {
            Self::lemma_insert_position(self.goals@, priority, pos as int);
        }
        let ghost old_self = *self;
        self.goals.insert(pos, wrapped);
        let ghost mid = *self;
        let mut k: usize = 0;
        while k < 4
            invariant
                k <= 4,
                pos <= n,
                n == old_self.goals@.len(),
                old_self == *old(self),
                self.goals@ == mid.goals@,
                self.disabled_flags == mid.disabled_flags,
                mid.locked_flags@ == old_self.locked_flags@,
                self.locked_flags@.len() == old_self.locked_flags@.len(),
                forall|kk: int| 0 <= kk < self.locked_flags@.len() ==> #[trigger] self.locked_flags@[kk]
                    == if kk < k {
                        shifted(old_self.locked_flags@[kk], pos as int, n as int)
                    } else {
                        old_self.locked_flags@[kk]
                    },
            decreases 4 - k,
        {
            if k < self.locked_flags.len() {
                if let Some(h) = self.locked_flags[k] {
                    if h >= pos && h < n {
                        self.locked_flags.set(k, Some(h + 1));
                    }
                }
            }
            k = k + 1;
        }
        proof {
            let pos = pos as int;
            let og = old_self.goals();
            if old_self.wf() {
                assert forall|f: GoalFlag| #[trigger] self.holder(f)
                    == shifted(old_self.holder(f), pos, n as int) by {
                    self.lemma_holder_index(f);
                    old_self.lemma_holder_index(f);
                }
                assert forall|a: int, b: int| 0 <= a < b < self.goals().len() implies
                    self.goals()[a].priority <= self.goals()[b].priority by {
                    if a < pos && b < pos {
                        assert(og[a].priority <= og[b].priority);
                    } else if a < pos && b > pos {
                        assert(self.goals()[b] == og[b - 1]);
                    } else if a > pos {
                        assert(self.goals()[a] == og[a - 1]);
                        assert(self.goals()[b] == og[b - 1]);
                    }
                }
                assert forall|f: GoalFlag| #[trigger] self.holder(f) is Some implies
                    self.holder(f)->0 < self.goals().len() by {
                    assert(old_self.holder(f) is Some);
                }
                assert forall|j: int, f: GoalFlag|
                    0 <= j < self.goals().len() && self.goals()[j].is_running && #[trigger] self.goals()[j].flags.has(f)
                        implies (#[trigger] self.holder(f) is Some && self.holder(f)->0 == j) by {
                    if j < pos {
                        assert(self.goals()[j] == og[j]);
                        assert(og[j].flags.has(f));
                    } else if j > pos {
                        assert(self.goals()[j] == og[j - 1]);
                        assert(og[j - 1].flags.has(f));
                    }
                }
            }
        }
    }

    /// Removes all goals matching the predicate, keeping the others in their order.
    ///
    /// A removed goal that runs is stopped first. The flags of removed goals are
    /// freed, and the flags of the kept goals follow them to their new positions.
    pub fn remove_goals_if<C, F>(&mut self, predicate: F, ctx: &mut C)
        where G: Goal<C>, F: Fn(&G) -> bool,
        requires
            forall|g: &G| #[trigger] predicate.requires((g,)),
        ensures
            exists|removed: Seq<bool>| {
                &&& removed.len() == old(self).goals().len()
                &&& forall|i: int| 0 <= i < removed.len() ==>
                    #[trigger] predicate.ensures((&old(self).goals()[i].goal,), removed[i])
                &&& final(self).goals() == retained(old(self).goals(), removed)
                &&& old(self).wf() ==> forall|f: GoalFlag| #[trigger] final(self).holder(f)
                    == remapped(old(self).holder(f), removed)
            },
            final(self).disabled() == old(self).disabled(),
            old(self).wf() ==> final(self).wf(),
    {
        let ghost old_goals = self.goals@;
        let n = self.goals.len();
        let mut removed: Vec<bool> = Vec::new();
        let mut i: usize = 0;
        while i < n
            invariant
                i <= n,
                n == old_goals.len(),
                old_goals == old(self).goals@,
                self.goals@.len() == n,
                removed@.len() == i,
                forall|j: int| 0 <= j < i ==> #[trigger] predicate.ensures((&old_goals[j].goal,), removed@[j]),
                forall|j: int| 0 <= j < n && (j >= i || !removed@[j]) ==> #[trigger] self.goals@[j] == old_goals[j],
                forall|g: &G| #[trigger] predicate.requires((g,)),
                self.disabled_flags == old(self).disabled_flags,
                self.locked_flags@ == old(self).locked_flags@,
            decreases n - i,
        {
            let r = predicate(&self.goals[i].goal);
            if r && self.goals[i].is_running {
                let ghost before = self.goals@;
                self.goals[i].goal.stop(ctx);
                self.goals[i].is_running = false;
                proof {
                    assert forall|j: int| 0 <= j < n && j != i implies self.goals@[j] == before[j] by {}
                }
            }
            removed.push(r);
            proof {
                assert forall|j: int| 0 <= j < n && (j >= i + 1 || !removed@[j]) implies
                    #[trigger] self.goals@[j] == old_goals[j] by {
                    if j == i {
                        assert(!removed@[j]);
                    }
                }
            }
            i = i + 1;
        }
        let ghost mid_goals = self.goals@;
        let mut new_index: Vec<usize> = Vec::new();
        let mut count: usize = 0;
        let mut j: usize = 0;
        while j < n
            invariant
                j <= n,
                removed@.len() == n,
                new_index@.len() == j,
                count == kept_count(removed@, j as nat),
                forall|t: int| 0 <= t < j ==> #[trigger] new_index@[t] == kept_count(removed@, t as nat),
            decreases n - j,
        {
            proof { lemma_kept_le(removed@, j as nat); }
            new_index.push(count);
            if !removed[j] {
                count = count + 1;
            }
            j = j + 1;
        }
        let ghost locks0 = self.locked_flags@;
        let mut k: usize = 0;
        while k < self.locked_flags.len()
            invariant
                removed@.len() == n,
                new_index@.len() == n,
                forall|t: int| 0 <= t < n ==> #[trigger] new_index@[t] == kept_count(removed@, t as nat),
                self.locked_flags@.len() == locks0.len(),
                self.goals@ == mid_goals,
                self.disabled_flags == old(self).disabled_flags,
                locks0 == old(self).locked_flags@,
                forall|kk: int| 0 <= kk < locks0.len() ==> #[trigger] self.locked_flags@[kk] == if kk < k {
                    match locks0[kk] {
                        Some(h) => if h < n { remapped(Some(h), removed@) } else { Some(h) },
                        None => None,
                    }
                } else {
                    locks0[kk]
                },
            decreases self.locked_flags@.len() - k,
        {
            if let Some(h) = self.locked_flags[k] {
                if h < n {
                    if removed[h] {
                        self.locked_flags.set(k, None);
                    } else {
                        let p = new_index[h];
                        self.locked_flags.set(k, Some(p));
                    }
                }
            }
            k = k + 1;
        }
        let ghost locks1 = self.locked_flags@;
        let mut kept: Vec<WrappedGoal<G>> = Vec::new();
        let mut p: usize = 0;
        while self.goals.len() > 0
            invariant
                p <= n,
                self.locked_flags@ == locks1,
                self.disabled_flags == old(self).disabled_flags,
                removed@.len() == n,
                mid_goals.len() == n,
                self.goals@.len() + p == n,
                self.goals@ == mid_goals.skip(p as int),
                kept@ == retained(mid_goals.take(p as int), removed@.take(p as int)),
            decreases self.goals@.len(),
        {
            assert(mid_goals.skip(p as int)[0] == mid_goals[p as int]);
            let w = self.goals.remove(0);
            let remove = removed[p];
            proof {
                assert(mid_goals.take(p + 1).drop_last() =~= mid_goals.take(p as int));
                assert(removed@.take(p + 1).drop_last() =~= removed@.take(p as int));
                assert(mid_goals.take(p + 1).last() == mid_goals[p as int]);
                assert(removed@.take(p + 1).last() == removed@[p as int]);
            }
            if !remove {
                kept.push(w);
            }
            proof {
                assert(self.goals@ =~= mid_goals.skip(p + 1));
            }
            p = p + 1;
        }
        proof {
            assert(mid_goals.take(n as int) =~= mid_goals);
            assert(removed@.take(n as int) =~= removed@);
        }
        self.goals = kept;
        proof {
            let og = old(self).goals();
            let r = removed@;
            lemma_retained_frame(mid_goals, og, r);
            assert(self.goals() == retained(og, r));
            if old(self).wf() {
                assert(locks0.len() == 4);
                assert forall|f: GoalFlag| #[trigger] self.holder(f) == remapped(old(self).holder(f), r) by {
                    self.lemma_holder_index(f);
                    old(self).lemma_holder_index(f);
                }
                lemma_retained_sorted(og, r);
                assert forall|f: GoalFlag| #[trigger] self.holder(f) is Some implies
                    self.holder(f)->0 < self.goals().len() by {
                    let h = old(self).holder(f)->0 as int;
                    assert(old(self).holder(f) is Some);
                    assert(!r[h]);
                    lemma_retained_at(og, r, h);
                }
                assert forall|q: int, f: GoalFlag|
                    0 <= q < self.goals().len() && self.goals()[q].is_running && #[trigger] self.goals()[q].flags.has(f)
                        implies (#[trigger] self.holder(f) is Some && self.holder(f)->0 == q) by {
                    let h = lemma_retained_source(og, r, q);
                    lemma_retained_at(og, r, h);
                    assert(self.goals()[q] == og[h]);
                    assert(og[h].flags.has(f));
                    assert(old(self).holder(f) is Some && old(self).holder(f)->0 == h);
                    lemma_kept_le(r, h as nat);
                    assert(self.holder(f) == remapped(old(self).holder(f), r));
                }
            }
            assert(exists|removed: Seq<bool>| {
                &&& removed.len() == old(self).goals().len()
                &&& forall|i: int| 0 <= i < removed.len() ==>
                    #[trigger] predicate.ensures((&old(self).goals()[i].goal,), removed[i])
                &&& self.goals() == retained(old(self).goals(), removed)
                &&& old(self).wf() ==> forall|f: GoalFlag| #[trigger] self.holder(f)
                    == remapped(old(self).holder(f), removed)
            }) by {
                assert(r.len() == old(self).goals().len());
            }
        }
    }

    /// Releases the flags that goal `i` holds.
    fn release_flags(&mut self, i: usize)
        requires
            old(self).locked_flags@.len() == GoalFlag::COUNT,
            i < old(self).goals@.len(),
        ensures
            final(self).goals@ == old(self).goals@,
            final(self).disabled_flags == old(self).disabled_flags,
            final(self).locked_flags@.len() == GoalFlag::COUNT,
            forall|f: GoalFlag| #[trigger] final(self).holder(f) ==
                if old(self).holder(f) == Some(i) && old(self).goals()[i as int].flags.has(f) {
                    None
                } else {
                    old(self).holder(f)
                },
            final(self).locked_flags@ == Seq::new(
                4,
                |k: int|
                    if old(self).locked_flags@[k] == Some(i) && old(self).goals()[i as int].flags.has(flag_at(k)) {
                        None
                    } else {
                        old(self).locked_flags@[k]
                    },
            ),
    {
        let flags = self.goals[i].flags;
        for k in 0..4
            invariant
                self.goals@ == old(self).goals@,
                self.disabled_flags == old(self).disabled_flags,
                self.locked_flags@.len() == GoalFlag::COUNT,
                flags == old(self).goals()[i as int].flags,
                i < old(self).goals@.len(),
                old(self).locked_flags@.len() == GoalFlag::COUNT,
                forall|f: GoalFlag| #[trigger] self.holder(f) ==
                    if flag_index(f) < k && old(self).holder(f) == Some(i) && flags.has(f) {
                        None
                    } else {
                        old(self).holder(f)
                    },
        {
            let flag = GoalFlag::from_index(k).unwrap();
            let ghost before = *self;
            if flags.contains(flag) && self.locked_flags[k] == Some(i) {
                self.locked_flags.set(k, None);
            }
            proof {
                assert forall|f: GoalFlag| #[trigger] self.holder(f) ==
                    if flag_index(f) < k + 1 && old(self).holder(f) == Some(i) && flags.has(f) {
                        None
                    } else {
                        old(self).holder(f)
                    } by {
                    self.lemma_holder_index(f);
                    before.lemma_holder_index(f);
                    old(self).lemma_holder_index(f);
                    if flag_index(f) == k {
                        assert(f == flag);
                    } else {
                        lemma_index_distinct(f, flag);
                    }
                }
            }
        }
        proof {
            let target = Seq::new(
                4,
                |k: int|
                    if old(self).locked_flags@[k] == Some(i) && old(self).goals()[i as int].flags.has(flag_at(k)) {
                        None
                    } else {
                        old(self).locked_flags@[k]
                    },
            );
            assert forall|k: int| 0 <= k < 4 implies self.locked_flags@[k] == target[k] by {
                let f = flag_at(k);
                lemma_flag_at(k);
                self.lemma_holder_index(f);
                old(self).lemma_holder_index(f);
            }
            assert(self.locked_flags@ =~= target);
        }
    }

    /// Checks if the goal at the given index can take all its required flags: every
    /// other holder of one of its flags must be interruptable and of a lower priority.
    /// Along with the answer come the holders' answers to `is_interruptable`, by
    /// flag position (where a holder was not asked, the entry is `true`).
    fn can_take_flags<C>(&self, goal_idx: usize) -> (r: (bool, Ghost<Seq<bool>>))
        where G: Goal<C>,
        requires
            self.wf(),
            goal_idx < self.goals().len(),
        ensures
            r.1@.len() == GoalFlag::COUNT,
            r.0 == can_take_with(self.goals(), self.state(), goal_idx as int, r.1@),
            r.0 ==> may_take(self.goals(), self.state(), goal_idx as int),
            !holds_others(self.goals(), self.state(), goal_idx as int) ==> r.0,
    {
        let flags = self.goals[goal_idx].flags;
        let priority = self.goals[goal_idx].priority;
        let ghost mut intr: Seq<bool> = Seq::new(4, |k: int| true);
        let mut k: usize = 0;
        while k < 4
            invariant
                k <= 4,
                self.wf(),
                goal_idx < self.goals().len(),
                flags == self.goals()[goal_idx as int].flags,
                priority == self.goals()[goal_idx as int].priority,
                intr.len() == 4,
                forall|kk: int| k <= kk < 4 ==> intr[kk],
                forall|kk: int|
                    0 <= kk < k && flags.has(flag_at(kk)) && (#[trigger] self.locked_flags@[kk]) is Some
                        && self.locked_flags@[kk]->0 != goal_idx
                        ==> intr[kk] && priority < self.goals()[self.locked_flags@[kk]->0 as int].priority,
            decreases 4 - k,
        {
            let flag = GoalFlag::from_index(k).unwrap();
            proof {
                lemma_flag_at(k as int);
                self.lemma_holder_index(flag);
                assert(flag_at(k as int) == flag);
            }
            if flags.contains(flag) {
                if let Some(holder_idx) = self.locked_flags[k] {
                    if holder_idx != goal_idx {
                        let holder = &self.goals[holder_idx];
                        let interruptable = holder.goal.is_interruptable();
                        proof {
                            intr = intr.update(k as int, interruptable);
                        }
                        if !(interruptable && priority < holder.priority) {
                            proof {
                                assert(self.state().1[k as int] is Some);
                            }
                            return (false, Ghost(intr));
                        }
                    }
                }
            }
            k = k + 1;
        }
        (true, Ghost(intr))
    }

    /// Stops the goal that holds flag position `k`, unless it is goal `i`, and gives
    /// the flag to goal `i`.
    fn take_flag<C>(&mut self, i: usize, k: usize, ctx: &mut C)
        where G: Goal<C>,
        requires
            old(self).locked_flags@.len() == GoalFlag::COUNT,
            k < GoalFlag::COUNT,
            i < old(self).goals().len(),
            old(self).holders_in_range(),
        ensures
            final(self).goals().len() == old(self).goals().len(),
            forall|j: int| 0 <= j < old(self).goals().len() ==> {
                &&& #[trigger] final(self).goals()[j].priority == old(self).goals()[j].priority
                &&& final(self).goals()[j].flags == old(self).goals()[j].flags
                &&& final(self).goals()[j].is_running == (old(self).goals()[j].is_running
                    && !(j != i && old(self).locked_flags@[k as int] is Some
                        && old(self).locked_flags@[k as int]->0 == j))
            },
            final(self).locked_flags@ == old(self).locked_flags@.update(k as int, Some(i)),
            final(self).disabled_flags == old(self).disabled_flags,
            final(self).same_calls(old(self)),
    {
        proof {
            lemma_flag_at(k as int);
            self.lemma_holder_index(flag_at(k as int));
        }
        let ghost hk = self.locked_flags@[k as int];
        if let Some(holder_idx) = self.locked_flags[k] {
            if holder_idx != i {
                self.goals[holder_idx].goal.stop(ctx);
                self.goals[holder_idx].is_running = false;
            }
        }
        proof {
            assert forall|j: int| 0 <= j < old(self).goals().len() implies {
                &&& #[trigger] self.goals()[j].priority == old(self).goals()[j].priority
                &&& self.goals()[j].flags == old(self).goals()[j].flags
                &&& self.goals()[j].is_running == (old(self).goals()[j].is_running
                    && !(j != i && hk is Some && hk->0 == j))
            } by {
                if hk is Some && hk->0 == j && j != i {
                    assert(!self.goals()[j].is_running);
                } else {
                    assert(self.goals()[j] == old(self).goals()[j]);
                }
            }
            assert forall|j: int| 0 <= j < self.goals().len() implies
                #[trigger] self.goals()[j].tick_calls == old(self).goals()[j].tick_calls by {
                if !(hk is Some && hk->0 == j && j != i) {
                    assert(self.goals()[j] == old(self).goals()[j]);
                }
            }
        }
        self.locked_flags.set(k, Some(i));
    }

    /// Stops the current holders of goal `i`'s flags, gives the flags to goal `i`, and
    /// starts it.
    fn take_flags_and_start<C>(&mut self, i: usize, ctx: &mut C)
        where G: Goal<C>,
        requires
            old(self).wf(),
            i < old(self).goals().len(),
            !old(self).goals()[i as int].is_running,
            forall|f: GoalFlag| #[trigger] old(self).goals()[i as int].flags.has(f) ==> !old(self).disabled().has(f),
        ensures
            final(self).wf(),
            final(self).same_goals(old(self)),
            final(self).disabled() == old(self).disabled(),
            final(self).goals()[i as int].is_running,
            forall|j: int| 0 <= j < final(self).goals().len() && j != i && #[trigger] final(self).goals()[j].is_running
                ==> old(self).goals()[j].is_running,
            final(self).state() == after_start(old(self).state(), i as int, old(self).goals()[i as int].flags),
            final(self).same_calls(old(self)),
    {
        let flags = self.goals[i].flags;
        let ghost start = *self;
        let ghost n = start.goals().len();
        let mut k: usize = 0;
        while k < 4
            invariant
                k <= 4,
                start == *old(self),
                start.wf(),
                i < n,
                n == start.goals().len(),
                self.locked_flags@.len() == GoalFlag::COUNT,
                self.goals().len() == n,
                self.disabled_flags == start.disabled_flags,
                flags == start.goals()[i as int].flags,
                self.same_calls(&start),
                forall|j: int| #![trigger self.goals()[j]] 0 <= j < n ==> {
                    &&& self.goals()[j].priority == start.goals()[j].priority
                    &&& self.goals()[j].flags == start.goals()[j].flags
                    &&& self.goals()[j].is_running == (j != i && start.goals()[j].is_running
                        && !displaced(start.locked_flags@, flags, j, k as int))
                },
                forall|kk: int| 0 <= kk < 4 ==> #[trigger] self.locked_flags@[kk]
                    == (if kk < k && flags.has(flag_at(kk)) { Some(i) } else { start.locked_flags@[kk] }),
            decreases 4 - k,
        {
            let flag = GoalFlag::from_index(k).unwrap();
            proof { lemma_flag_at(k as int); }
            let ghost pre = *self;
            proof {
                assert forall|f: GoalFlag| #[trigger] self.holder(f) is Some implies self.holder(f)->0 < self.goals().len() by {
                    self.lemma_holder_index(f);
                    start.lemma_holder_index(f);
                }
            }
            let took = flags.contains(flag);
            if took {
                self.take_flag(i, k, ctx);
            }
            proof {
                assert(flag_at(k as int) == flag);
                let hk = start.locked_flags@[k as int];
                assert(pre.locked_flags@[k as int] == hk);
                assert forall|j: int| #![trigger self.goals()[j]] 0 <= j < n implies {
                    &&& self.goals()[j].priority == pre.goals()[j].priority
                    &&& self.goals()[j].flags == pre.goals()[j].flags
                    &&& self.goals()[j].is_running == (pre.goals()[j].is_running
                        && !(took && j != i && hk is Some && hk->0 == j))
                } by {
                    if !took {
                        assert(self.goals() == pre.goals());
                    } else {
                        assert(self.goals()[j].priority == pre.goals()[j].priority);
                    }
                }
                assert(pre.locked_flags@[k as int] == start.locked_flags@[k as int]);
                assert forall|kk: int| 0 <= kk < 4 implies #[trigger] self.locked_flags@[kk]
                    == (if kk < k + 1 && flags.has(flag_at(kk)) { Some(i) } else { start.locked_flags@[kk] }) by {
                    assert(pre.locked_flags@[kk] == (if kk < k && flags.has(flag_at(kk)) { Some(i) } else { start.locked_flags@[kk] }));
                }
                assert forall|j: int| #![trigger self.goals()[j]] 0 <= j < n implies {
                    &&& self.goals()[j].priority == start.goals()[j].priority
                    &&& self.goals()[j].flags == start.goals()[j].flags
                    &&& self.goals()[j].is_running == (j != i && start.goals()[j].is_running
                        && !displaced(start.locked_flags@, flags, j, k + 1))
                } by {
                    assert(pre.goals()[j].priority == start.goals()[j].priority);
                    assert(self.goals()[j].priority == pre.goals()[j].priority);
                    if displaced(start.locked_flags@, flags, j, k + 1) && !displaced(start.locked_flags@, flags, j, k as int) {
                        let w = choose|w: int| 0 <= w < k + 1 && flags.has(flag_at(w)) && (#[trigger] start.locked_flags@[w]) is Some && start.locked_flags@[w]->0 == j;
                        assert(w == k);
                    }
                    if displaced(start.locked_flags@, flags, j, k as int) {
                        let w = choose|w: int| 0 <= w < k && flags.has(flag_at(w)) && (#[trigger] start.locked_flags@[w]) is Some && start.locked_flags@[w]->0 == j;
                        assert(start.locked_flags@[w] is Some);
                    }
                }
            }
            k = k + 1;
        }
        let ghost before = *self;
        self.goals[i].goal.start(ctx);
        self.goals[i].is_running = true;
        proof {
            assert forall|j: int| 0 <= j < self.goals().len() implies
                #[trigger] self.goals()[j].tick_calls == old(self).goals()[j].tick_calls by {
                assert(before.goals()[j].tick_calls == start.goals()[j].tick_calls);
                if j != i {
                    assert(self.goals()[j] == before.goals()[j]);
                }
            }
            assert forall|j: int| 0 <= j < n implies {
                &&& #[trigger] self.goals()[j].priority == start.goals()[j].priority
                &&& self.goals()[j].flags == start.goals()[j].flags
                &&& self.goals()[j].is_running == (j == i || (start.goals()[j].is_running
                    && !displaced(start.locked_flags@, flags, j, 4)))
            } by {
                assert(before.goals()[j].priority == start.goals()[j].priority);
                if j != i {
                    assert(before.goals()[j] == self.goals()[j]);
                }
            }
            assert(self.locked_flags@ == before.locked_flags@);
            // the invariant
            assert forall|a: int, b: int| 0 <= a < b < self.goals().len() implies
                self.goals()[a].priority <= self.goals()[b].priority by {
                assert(self.goals()[a].priority == start.goals()[a].priority);
                assert(self.goals()[b].priority == start.goals()[b].priority);
            }
            assert forall|f: GoalFlag| #[trigger] self.holder(f) is Some implies
                self.holder(f)->0 < self.goals().len() by {
                self.lemma_holder_index(f);
                start.lemma_holder_index(f);
            }
            assert forall|j: int, f: GoalFlag|
                0 <= j < self.goals().len() && self.goals()[j].is_running && #[trigger] self.goals()[j].flags.has(f)
                    implies (#[trigger] self.holder(f) is Some && self.holder(f)->0 == j) by {
                self.lemma_holder_index(f);
                start.lemma_holder_index(f);
                lemma_flag_at_index(f);
                let kf = flag_index(f) as int;
                if j == i {
                    assert(flags.has(flag_at(kf)));
                } else {
                    assert(start.goals()[j].is_running);
                    assert(start.goals()[j].flags.has(f));
                    assert(start.locked_flags@[kf] == Some(j as usize));
                    if flags.has(f) {
                        assert(displaced(start.locked_flags@, flags, j, 4));
                    }
                }
            }
            assert(self.sorted());
            assert(self.wf());
            assert forall|j: int| 0 <= j < self.goals().len() implies
                #[trigger] self.goals()[j].priority == old(self).goals()[j].priority
                && self.goals()[j].flags == old(self).goals()[j].flags by {}
            let st = old(self).state();
            let target = after_start(st, i as int, flags);
            assert(self.state().0 =~= target.0) by {
                assert forall|j: int| 0 <= j < self.goals().len() implies self.state().0[j] == target.0[j] by {
                    assert(st.0[j] == old(self).goals()[j].is_running);
                }
            }
            assert(self.state().1 =~= target.1);
        }
    }

    /// One cleanup step: goal `i` stops, and frees the flags it holds, when it
    /// runs and either uses a disabled flag or said it cannot continue
    /// (`can_continue`, its answer to `can_continue_to_use`).
    pub fn cleanup_goal<C>(&mut self, i: usize, can_continue: bool, ctx: &mut C)
        where G: Goal<C>,
        requires
            old(self).wf(),
            i < old(self).goals().len(),
        ensures
            final(self).wf(),
            final(self).same_goals(old(self)),
            final(self).disabled() == old(self).disabled(),
            final(self).state() == cleanup_step(old(self).goals(), old(self).disabled(), old(self).state(), i as int, can_continue),
            final(self).same_calls(old(self)),
            forall|j: int| 0 <= j < old(self).goals().len() && j != i ==> #[trigger] final(self).goals()[j] == old(self).goals()[j],
    {
        if self.goals[i].is_running {
            let disabled = self.disabled_flags;
            let uses_disabled = self.goals[i].flags.intersects(&disabled);
            if uses_disabled || !can_continue {
                let ghost before = *self;
                self.goals[i].goal.stop(ctx);
                self.goals[i].is_running = false;
                let ghost mid = *self;
                self.release_flags(i);
                proof {
                    assert forall|j: int| 0 <= j < self.goals().len() implies
                        #[trigger] self.goals()[j].priority == before.goals()[j].priority
                        && self.goals()[j].flags == before.goals()[j].flags
                        && (j != i ==> self.goals()[j] == before.goals()[j]) by {
                        assert(self.goals()[j] == mid.goals()[j]);
                    }
                    assert forall|a: int, b: int| 0 <= a < b < self.goals().len() implies
                        self.goals()[a].priority <= self.goals()[b].priority by {
                        assert(self.goals()[a].priority == before.goals()[a].priority);
                        assert(self.goals()[b].priority == before.goals()[b].priority);
                    }
                    assert(mid.locked_flags@ == before.locked_flags@);
                    assert forall|f: GoalFlag| #[trigger] self.holder(f) is Some implies
                        self.holder(f)->0 < self.goals().len() by {
                        assert(mid.holder(f) == before.holder(f));
                    }
                    assert forall|j: int, f: GoalFlag|
                        0 <= j < self.goals().len() && self.goals()[j].is_running && #[trigger] self.goals()[j].flags.has(f)
                            implies (#[trigger] self.holder(f) is Some && self.holder(f)->0 == j) by {
                        assert(mid.holder(f) == before.holder(f));
                        assert(j != i);
                        assert(before.goals()[j] == self.goals()[j]);
                    }
                    let target = after_stop(before.state(), i as int, before.goals()[i as int].flags);
                    assert(self.state().0 =~= target.0) by {
                        assert forall|j: int| 0 <= j < self.goals().len() implies self.state().0[j] == target.0[j] by {
                            if j != i {
                                assert(before.goals()[j] == self.goals()[j]);
                            }
                        }
                    }
                    assert(self.state().1 =~= target.1);
                    assert forall|j: int| 0 <= j < self.goals().len() implies
                        #[trigger] self.goals()[j].tick_calls == old(self).goals()[j].tick_calls by {
                        assert(self.goals()[j] == mid.goals()[j]);
                        if j != i {
                            assert(mid.goals()[j] == before.goals()[j]);
                        }
                    }
                }
            }
        }
    }

    /// One start step: goal `i`, which does not run and uses no disabled flag,
    /// starts when it said it can be used (`can_use`, its answer to `can_use`),
    /// stopping the goals that hold its flags and taking them.
    pub fn start_goal<C>(&mut self, i: usize, can_use: bool, ctx: &mut C)
        where G: Goal<C>,
        requires
            old(self).wf(),
            i < old(self).goals().len(),
            !old(self).goals()[i as int].is_running,
            !shares(old(self).goals()[i as int].flags, old(self).disabled()),
        ensures
            final(self).wf(),
            final(self).same_goals(old(self)),
            final(self).disabled() == old(self).disabled(),
            final(self).state() == if can_use {
                after_start(old(self).state(), i as int, old(self).goals()[i as int].flags)
            } else {
                old(self).state()
            },
            old(self).running_avoid_disabled() ==> final(self).running_avoid_disabled(),
            final(self).same_calls(old(self)),
    {
        if can_use {
            proof {
                assert forall|f: GoalFlag| #[trigger] self.goals()[i as int].flags.has(f)
                    implies !self.disabled().has(f) by {
                    assert(!(self.goals()[i as int].flags.has(f) && self.disabled().has(f)));
                }
            }
            let ghost before = *self;
            self.take_flags_and_start(i, ctx);
            proof {
                if before.running_avoid_disabled() {
                    assert forall|j: int, f: GoalFlag|
                        0 <= j < self.goals().len() && self.goals()[j].is_running
                            && #[trigger] self.goals()[j].flags.has(f)
                            implies !self.disabled().has(f) by {
                        assert(self.goals()[j].priority == before.goals()[j].priority);
                        assert(self.goals()[j].flags == before.goals()[j].flags);
                        if j != i {
                            assert(before.goals()[j].is_running);
                        } else {
                            assert(before.goals()[i as int].flags.has(f));
                        }
                    }
                }
            }
        }
    }

    /// The cleanup phase of a tick: asks each running goal that uses no disabled
    /// flag whether it can continue, and stops those that cannot or that use a
    /// disabled flag.
    fn cleanup_phase<C>(&mut self, ctx: &mut C)
        where G: Goal<C>,
        requires
            old(self).wf(),
        ensures
            final(self).wf(),
            final(self).same_goals(old(self)),
            final(self).disabled() == old(self).disabled(),
            final(self).running_avoid_disabled(),
            final(self).same_calls(old(self)),
            exists|cont: Seq<Option<bool>>| cont.len() == old(self).goals().len()
                && cleanup_asks(old(self).goals(), old(self).disabled(), old(self).state(), cont, old(self).goals().len())
                && final(self).state() == #[trigger] cleanup_upto(
                    old(self).goals(), old(self).disabled(), old(self).state(), cont, old(self).goals().len()),
    {
        let n = self.goals.len();
        let ghost start = *self;
        let ghost gs = start.goals();
        let ghost d = start.disabled();
        let ghost mut cont: Seq<Option<bool>> = Seq::new(n as nat, |x: int| None);
        let mut i: usize = 0;
        while i < n
            invariant
                i <= n,
                start == *old(self),
                gs == start.goals(),
                d == start.disabled(),
                n == self.goals().len(),
                self.wf(),
                self.same_goals(&start),
                self.same_calls(&start),
                self.disabled() == start.disabled(),
                forall|j: int, f: GoalFlag|
                    0 <= j < i && self.goals()[j].is_running && #[trigger] self.goals()[j].flags.has(f)
                        ==> !self.disabled().has(f),
                cont.len() == n,
                self.state() == cleanup_upto(gs, d, start.state(), cont, i as nat),
                cleanup_asks(gs, d, start.state(), cont, i as nat),
            decreases n - i,
        {
            let ghost pre = *self;
            proof {
                assert(self.goals()[i as int].priority == gs[i as int].priority);
                assert(self.goals()[i as int].flags == gs[i as int].flags);
            }
            let ghost s_i = self.state();
            let mut answer = true;
            let mut asked = false;
            if self.goals[i].is_running {
                let disabled = self.disabled_flags;
                if !self.goals[i].flags.intersects(&disabled) {
                    answer = self.goals[i].goal.can_continue_to_use(ctx);
                    asked = true;
                }
            }
            proof {
                let old_cont = cont;
                cont = cont.update(i as int, if asked { Some(answer) } else { None });
                lemma_cleanup_prefix(gs, d, start.state(), old_cont, cont, i as nat);
                assert(s_i.0[i as int] == pre.goals()[i as int].is_running);
                assert(asked == (s_i.0[i as int] && !shares(gs[i as int].flags, d)));
                assert(answer == (cont[i as int] != Some(false)));
                assert forall|j: int| 0 <= j < i + 1 implies ((#[trigger] cont[j]) is Some <==> (
                    cleanup_upto(gs, d, start.state(), cont, j as nat).0[j] && !shares(gs[j].flags, d))) by {
                    lemma_cleanup_prefix(gs, d, start.state(), old_cont, cont, j as nat);
                    if j < i {
                        assert(old_cont[j] == cont[j]);
                    }
                }
                assert forall|j: int| 0 <= j < pre.goals().len() implies {
                    &&& #[trigger] self.goals()[j].priority == pre.goals()[j].priority
                    &&& self.goals()[j].flags == pre.goals()[j].flags
                    &&& self.goals()[j].is_running == pre.goals()[j].is_running
                    &&& self.goals()[j].tick_calls == pre.goals()[j].tick_calls
                } by {
                    assert(self.goals()[j].priority == pre.goals()[j].priority);
                }
                Self::lemma_meta_frame(&pre, &*self);
                Self::lemma_state_frame(&pre, &*self);
            }
            let ghost mid = *self;
            self.cleanup_goal(i, answer, ctx);
            proof {
                assert forall|j: int| 0 <= j < self.goals().len() implies
                    #[trigger] self.goals()[j].priority == start.goals()[j].priority
                    && self.goals()[j].flags == start.goals()[j].flags by {
                    assert(self.goals()[j].priority == mid.goals()[j].priority);
                    assert(mid.goals()[j].priority == pre.goals()[j].priority);
                }
                assert forall|j: int, f: GoalFlag|
                    0 <= j < i + 1 && self.goals()[j].is_running && #[trigger] self.goals()[j].flags.has(f)
                        implies !self.disabled().has(f) by {
                    assert(self.goals()[j].priority == mid.goals()[j].priority);
                    if j != i {
                        assert(self.goals()[j] == mid.goals()[j]);
                        assert(mid.goals()[j].priority == pre.goals()[j].priority);
                        assert(pre.goals()[j].flags.has(f));
                    } else {
                        assert(self.state().0[j] == self.goals()[j].is_running);
                        assert(mid.state().0[j] == mid.goals()[j].is_running);
                        assert(mid.goals()[j].flags == gs[j].flags);
                        assert(!shares(gs[j].flags, d));
                    }
                }
            }
            i = i + 1;
        }
    }

    /// The start phase of a tick: for each goal that does not run and uses no
    /// disabled flag, asks whether it may take its flags and, if so, whether it
    /// can be used, and starts it when it can. `gs` are the goals as the tick
    /// found them.
    fn start_phase<C>(&mut self, ctx: &mut C, Ghost(gs): Ghost<Seq<WrappedGoal<G>>>)
        where G: Goal<C>,
        requires
            old(self).wf(),
            old(self).running_avoid_disabled(),
            gs.len() == old(self).goals().len(),
            forall|j: int| 0 <= j < gs.len() ==> #[trigger] gs[j].priority == old(self).goals()[j].priority
                && gs[j].flags == old(self).goals()[j].flags,
        ensures
            final(self).wf(),
            final(self).same_goals(old(self)),
            final(self).disabled() == old(self).disabled(),
            final(self).running_avoid_disabled(),
            final(self).same_calls(old(self)),
            exists|intr: Seq<Seq<bool>>, usable: Seq<Option<bool>>| {
                &&& intr.len() == gs.len()
                &&& usable.len() == gs.len()
                &&& start_asks(gs, old(self).disabled(), old(self).state(), intr, usable, gs.len())
                &&& final(self).state() == #[trigger] start_upto(gs, old(self).disabled(), old(self).state(), intr, usable, gs.len())
            },
    {
        let n = self.goals.len();
        let ghost start = *self;
        let ghost d = start.disabled();
        let ghost mut intr: Seq<Seq<bool>> = Seq::new(n as nat, |x: int| Seq::new(4, |k: int| true));
        let ghost mut usable: Seq<Option<bool>> = Seq::new(n as nat, |x: int| None);
        proof {
            assert forall|j: int| 0 <= j < n implies #[trigger] gs[j].priority == start.goals()[j].priority
                && gs[j].flags == start.goals()[j].flags by {
                assert(gs[j].priority == old(self).goals()[j].priority);
            }
        }
        let mut i: usize = 0;
        while i < n
            invariant
                i <= n,
                start == *old(self),
                d == start.disabled(),
                n == self.goals().len(),
                gs.len() == n,
                forall|j: int| 0 <= j < n ==> #[trigger] gs[j].priority == start.goals()[j].priority
                    && gs[j].flags == start.goals()[j].flags,
                self.wf(),
                self.same_goals(&start),
                self.same_calls(&start),
                self.disabled() == start.disabled(),
                self.running_avoid_disabled(),
                intr.len() == n,
                usable.len() == n,
                forall|j: int| i <= j < n ==> usable[j] is None,
                self.state() == start_upto(gs, d, start.state(), intr, usable, i as nat),
                start_asks(gs, d, start.state(), intr, usable, i as nat),
            decreases n - i,
        {
            let ghost s_i = self.state();
            proof {
                assert(gs[i as int].priority == start.goals()[i as int].priority);
                assert(self.goals()[i as int].priority == start.goals()[i as int].priority);
                assert(s_i.0[i as int] == self.goals()[i as int].is_running);
            }
            let ghost intr_i = intr;
            let ghost usable_i = usable;
            if !self.goals[i].is_running {
                let flags = self.goals[i].flags;
                let disabled = self.disabled_flags;
                if !flags.intersects(&disabled) {
                    let (can_take, Ghost(answers)) = self.can_take_flags(i);
                    proof {
                        intr = intr.update(i as int, answers);
                        assert forall|k: int| 0 <= k < s_i.1.len() && (#[trigger] s_i.1[k]) is Some
                            implies s_i.1[k]->0 < self.goals().len() by {
                            let f = flag_at(k);
                            lemma_flag_at(k);
                            self.lemma_holder_index(f);
                        }
                        assert forall|j: int| 0 <= j < self.goals().len() implies
                            #[trigger] self.goals()[j].priority == gs[j].priority
                            && self.goals()[j].flags == gs[j].flags by {
                            assert(gs[j].priority == start.goals()[j].priority);
                        }
                        lemma_can_take_frame(self.goals(), gs, s_i, i as int, answers);
                    }
                    if can_take {
                        let ghost pre = *self;
                        let u = self.goals[i].goal.can_use(ctx);
                        proof {
                            usable = usable.update(i as int, Some(u));
                            assert forall|j: int| 0 <= j < pre.goals().len() implies {
                                &&& #[trigger] self.goals()[j].priority == pre.goals()[j].priority
                                &&& self.goals()[j].flags == pre.goals()[j].flags
                                &&& self.goals()[j].is_running == pre.goals()[j].is_running
                                &&& self.goals()[j].tick_calls == pre.goals()[j].tick_calls
                            } by {
                                assert(self.goals()[j].priority == pre.goals()[j].priority);
                            }
                            Self::lemma_meta_frame(&pre, &*self);
                            Self::lemma_state_frame(&pre, &*self);
                            assert(!shares(self.goals()[i as int].flags, self.disabled()));
                        }
                        let ghost before = *self;
                        self.start_goal(i, u, ctx);
                        proof {
                            assert forall|j: int| 0 <= j < self.goals().len() implies
                                #[trigger] self.goals()[j].priority == start.goals()[j].priority
                                && self.goals()[j].flags == start.goals()[j].flags by {
                                assert(self.goals()[j].priority == before.goals()[j].priority);
                                assert(before.goals()[j].priority == pre.goals()[j].priority);
                            }
                        }
                    }
                }
            }
            proof {
                lemma_start_prefix(gs, d, start.state(), intr_i, usable_i, intr, usable, i as nat);
                assert forall|j: int| 0 <= j < i + 1 implies ((#[trigger] usable[j]) is Some <==> ({
                    let s = start_upto(gs, d, start.state(), intr, usable, j as nat);
                    !s.0[j] && !shares(gs[j].flags, d) && can_take_with(gs, s, j, intr[j])
                })) by {
                    lemma_start_prefix(gs, d, start.state(), intr_i, usable_i, intr, usable, j as nat);
                    if j < i {
                        assert(usable_i[j] == usable[j]);
                        assert(intr_i[j] == intr[j]);
                    }
                }
            }
            i = i + 1;
        }
    }

    /// Ticks the goal selector, updating which goals are running.
    ///
    /// 1. Cleanup: stop running goals that use a disabled flag or can't continue.
    /// 2. Update: start goals that are not running, use no disabled flag, can take
    ///    their flags and can be used, stopping the goals that held those flags.
    /// 3. Tick: execute all running goals.
    ///
    /// Which goals run afterwards, and which goal holds each flag, is `tick_state`
    /// of what the goals answered when asked.
    pub fn tick<C>(&mut self, ctx: &mut C)
        where G: Goal<C>,
        requires
            old(self).wf(),
        ensures
            final(self).wf(),
            final(self).same_goals(old(self)),
            final(self).disabled() == old(self).disabled(),
            final(self).running_avoid_disabled(),
            exists|cont: Seq<Option<bool>>, intr: Seq<Seq<bool>>, usable: Seq<Option<bool>>| {
                &&& tick_answers(old(self).goals(), old(self).disabled(), old(self).state(), cont, intr, usable)
                &&& final(self).state()
                    == #[trigger] tick_state(old(self).goals(), old(self).disabled(), old(self).state(), cont, intr, usable)
            },
            forall|j: int| 0 <= j < old(self).goals().len() ==> (#[trigger] final(self).goals()[j]).tick_calls@
                == old(self).goals()[j].tick_calls@ + if final(self).goals()[j].is_running { 1int } else { 0int },
    {
        let ghost gs = self.goals();
        self.cleanup_phase(ctx);
        let ghost s1 = *self;
        proof {
            assert forall|j: int| 0 <= j < gs.len() implies #[trigger] gs[j].priority == s1.goals()[j].priority
                && gs[j].flags == s1.goals()[j].flags by {
                assert(s1.goals()[j].priority == gs[j].priority);
            }
        }
        self.start_phase(ctx, Ghost(gs));
        let ghost s2 = *self;
        self.tick_running_goals(ctx, true);
        proof {
            let cont = choose|cont: Seq<Option<bool>>| cont.len() == old(self).goals().len()
                && cleanup_asks(old(self).goals(), old(self).disabled(), old(self).state(), cont, old(self).goals().len())
                && s1.state() == #[trigger] cleanup_upto(
                    old(self).goals(), old(self).disabled(), old(self).state(), cont, old(self).goals().len());
            let (intr, usable) = choose|intr: Seq<Seq<bool>>, usable: Seq<Option<bool>>| {
                &&& intr.len() == gs.len()
                &&& usable.len() == gs.len()
                &&& start_asks(gs, s1.disabled(), s1.state(), intr, usable, gs.len())
                &&& s2.state() == #[trigger] start_upto(gs, s1.disabled(), s1.state(), intr, usable, gs.len())
            };
            assert(tick_answers(old(self).goals(), old(self).disabled(), old(self).state(), cont, intr, usable));
            assert(self.state() == tick_state(old(self).goals(), old(self).disabled(), old(self).state(), cont, intr, usable));
            assert forall|j: int| 0 <= j < self.goals().len() implies
                #[trigger] self.goals()[j].priority == old(self).goals()[j].priority
                && self.goals()[j].flags == old(self).goals()[j].flags by {
                assert(self.goals()[j].priority == s2.goals()[j].priority);
                assert(s2.goals()[j].priority == s1.goals()[j].priority);
                assert(s1.goals()[j].priority == old(self).goals()[j].priority);
            }
            assert forall|j: int| 0 <= j < old(self).goals().len() implies (#[trigger] self.goals()[j]).tick_calls@
                == old(self).goals()[j].tick_calls@ + if self.goals()[j].is_running { 1int } else { 0int } by {
                assert(s2.goals()[j].tick_calls == s1.goals()[j].tick_calls);
                assert(s1.goals()[j].tick_calls == old(self).goals()[j].tick_calls);
                assert(self.goals()[j].priority == s2.goals()[j].priority);
                assert(self.goals()[j].is_running == s2.goals()[j].is_running);
            }
        }
    }

    /// Ticks all running goals.
    ///
    /// If `tick_all` is false, only goals that require every-tick updates are ticked.
    pub fn tick_running_goals<C>(&mut self, ctx: &mut C, tick_all: bool)
        where G: Goal<C>,
        ensures
            final(self).same_state(old(self)),
            final(self).disabled() == old(self).disabled(),
            forall|f: GoalFlag| #[trigger] final(self).holder(f) == old(self).holder(f),
            old(self).wf() ==> final(self).wf(),
            old(self).running_avoid_disabled() ==> final(self).running_avoid_disabled(),
            final(self).state() == old(self).state(),
            forall|j: int| 0 <= j < old(self).goals().len() && !old(self).goals()[j].is_running
                ==> #[trigger] final(self).goals()[j] == old(self).goals()[j],
            forall|j: int| 0 <= j < old(self).goals().len() ==> {
                ||| (#[trigger] final(self).goals()[j]).tick_calls@ == old(self).goals()[j].tick_calls@
                ||| old(self).goals()[j].is_running && final(self).goals()[j].tick_calls@
                    == old(self).goals()[j].tick_calls@ + 1
            },
            tick_all ==> forall|j: int| 0 <= j < old(self).goals().len() ==>
                (#[trigger] final(self).goals()[j]).tick_calls@
                    == old(self).goals()[j].tick_calls@ + if old(self).goals()[j].is_running { 1int } else { 0int },
    {
        let n = self.goals.len();
        let ghost mut ticked: Seq<bool> = Seq::new(n as nat, |x: int| false);
        let mut i: usize = 0;
        while i < n
            invariant
                i <= n,
                n == self.goals().len(),
                ticked.len() == n,
                self.same_state(old(self)),
                forall|j: int| 0 <= j < n && !old(self).goals()[j].is_running
                    ==> #[trigger] self.goals()[j] == old(self).goals()[j],
                forall|j: int| 0 <= j < n ==> (#[trigger] self.goals()[j]).tick_calls@
                    == old(self).goals()[j].tick_calls@ + if j < i && ticked[j] { 1int } else { 0int },
                forall|j: int| 0 <= j < i && #[trigger] ticked[j] ==> old(self).goals()[j].is_running,
                forall|j: int| i <= j < n ==> !#[trigger] ticked[j],
                tick_all ==> forall|j: int| 0 <= j < i ==> #[trigger] ticked[j] == old(self).goals()[j].is_running,
                self.disabled_flags == old(self).disabled_flags,
                self.locked_flags@ == old(self).locked_flags@,
            decreases n - i,
        {
            let ghost entry = *self;
            let ghost entry_ticked = ticked;
            proof {
                assert(self.goals()[i as int].priority == old(self).goals()[i as int].priority);
            }
            if self.goals[i].is_running && (tick_all || self.goals[i].goal.requires_update_every_tick()) {
                let ghost before = *self;
                self.goals[i].goal.tick(ctx);
                self.goals[i].tick_calls = Ghost(before.goals()[i as int].tick_calls@ + 1);
                proof {
                    ticked = ticked.update(i as int, true);
                    assert forall|j: int| 0 <= j < self.goals().len() implies
                        #[trigger] self.goals()[j].priority == old(self).goals()[j].priority
                        && self.goals()[j].flags == old(self).goals()[j].flags
                        && self.goals()[j].is_running == old(self).goals()[j].is_running by {
                        assert(self.goals()[j].priority == before.goals()[j].priority);
                        assert(self.goals()[j].flags == before.goals()[j].flags);
                        assert(self.goals()[j].is_running == before.goals()[j].is_running);
                    }
                    assert forall|j: int| 0 <= j < n && !old(self).goals()[j].is_running
                        implies #[trigger] self.goals()[j] == old(self).goals()[j] by {
                        assert(j != i);
                        assert(self.goals()[j] == before.goals()[j]);
                    }
                    assert forall|j: int| 0 <= j < n implies (#[trigger] self.goals()[j]).tick_calls@
                        == old(self).goals()[j].tick_calls@ + if j < i + 1 && ticked[j] { 1int } else { 0int } by {
                        assert(before.goals()[j].tick_calls@
                            == old(self).goals()[j].tick_calls@ + if j < i && entry_ticked[j] { 1int } else { 0int });
                        if j != i {
                            assert(self.goals()[j] == before.goals()[j]);
                        }
                    }
                }
            } else {
                proof {
                    assert(!tick_all || !old(self).goals()[i as int].is_running);
                    assert forall|j: int| 0 <= j < n implies (#[trigger] self.goals()[j]).tick_calls@
                        == old(self).goals()[j].tick_calls@ + if j < i + 1 && ticked[j] { 1int } else { 0int } by {
                        assert(entry.goals()[j].tick_calls@
                            == old(self).goals()[j].tick_calls@ + if j < i && entry_ticked[j] { 1int } else { 0int });
                        assert(self.goals()[j] == entry.goals()[j]);
                    }
                }
            }
            i = i + 1;
        }
        proof {
            assert forall|j: int| 0 <= j < old(self).goals().len() implies {
                &&& #[trigger] self.goals()[j].priority == old(self).goals()[j].priority
                &&& self.goals()[j].flags == old(self).goals()[j].flags
                &&& self.goals()[j].is_running == old(self).goals()[j].is_running
            } by {
                assert(self.goals()[j].priority == old(self).goals()[j].priority);
                assert(self.goals()[j].is_running == old(self).goals()[j].is_running);
            }
            Self::lemma_meta_frame(&*old(self), &*self);
            Self::lemma_state_frame(&*old(self), &*self);
            assert forall|j: int| 0 <= j < old(self).goals().len() implies {
                ||| (#[trigger] self.goals()[j]).tick_calls@ == old(self).goals()[j].tick_calls@
                ||| old(self).goals()[j].is_running && self.goals()[j].tick_calls@
                    == old(self).goals()[j].tick_calls@ + 1
            } by {
                if ticked[j] {
                    assert(old(self).goals()[j].is_running);
                }
            }
            if tick_all {
                assert forall|j: int| 0 <= j < old(self).goals().len() implies
                    (#[trigger] self.goals()[j]).tick_calls@
                        == old(self).goals()[j].tick_calls@ + if old(self).goals()[j].is_running { 1int } else { 0int } by {
                    assert(ticked[j] == old(self).goals()[j].is_running);
                }
            }
        }
    }

    /// The priority of the goal at a position, and whether it runs.
    pub fn goal_state(&self, i: usize) -> (r: (i32, bool))
        requires
            i < self.goals().len(),
        ensures
            r == (self.goals()[i as int].priority, self.goals()[i as int].is_running),
    {
        (self.goals[i].priority, self.goals[i].is_running)
    }

    /// The goal at a position.
    pub fn goal_at(&self, i: usize) -> (r: &G)
        requires
            i < self.goals().len(),
        ensures
            *r == self.goals()[i as int].goal,
    {
        &self.goals[i].goal
    }

    /// Debug information about the running goals: the priority and the goal of
    /// each, in order.
    pub fn debug_info(&self) -> (r: Vec<(i32, &G)>)
        ensures
            r@.len() == running_positions(self.goals()).len(),
            forall|k: int| 0 <= k < r@.len() ==> {
                let p = running_positions(self.goals())[k];
                &&& 0 <= p < self.goals().len()
                &&& (#[trigger] r@[k]).0 == self.goals()[p].priority
                &&& *r@[k].1 == self.goals()[p].goal
            },
    {
        let mut r: Vec<(i32, &G)> = Vec::new();
        let n = self.goals.len();
        let ghost mut pos: Seq<int> = Seq::empty();
        let mut i: usize = 0;
        while i < n
            invariant
                i <= n,
                n == self.goals@.len(),
                pos == running_positions(self.goals@.take(i as int)),
                r@.len() == pos.len(),
                forall|k: int| 0 <= k < r@.len() ==> {
                    &&& 0 <= #[trigger] pos[k] < i
                    &&& r@[k].0 == self.goals@[pos[k]].priority
                    &&& *r@[k].1 == self.goals@[pos[k]].goal
                },
            decreases n - i,
        {
            proof {
                assert(self.goals@.take(i + 1).drop_last() =~= self.goals@.take(i as int));
                assert(self.goals@.take(i + 1).last() == self.goals@[i as int]);
            }
            if self.goals[i].is_running {
                r.push((self.goals[i].priority, &self.goals[i].goal));
                proof {
                    pos = pos.push(i as int);
                }
            }
            i = i + 1;
        }
        proof {
            assert(self.goals@.take(n as int) =~= self.goals@);
        }
        r
    }

    /// Returns the number of goals in this selector
    pub fn goal_count(&self) -> (r: usize)
        ensures
            r == self.goals().len(),
    {
        self.goals.len()
    }

    /// Returns the number of currently running goals
    pub fn running_count(&self) -> (r: usize)
        ensures
            r == count_running(self.goals()),
    {
        let mut count: usize = 0;
        let n = self.goals.len();
        for i in 0..n
            invariant
                n == self.goals@.len(),
                count == count_running(self.goals@.take(i as int)),
                count <= i,
        {
            assert(self.goals@.take(i + 1).drop_last() =~= self.goals@.take(i as int));
            if self.goals[i].is_running {
                count = count + 1;
            }
        }
        assert(self.goals@.take(n as int) =~= self.goals@);
        count
    }
}

/// Goals that run at the same time never share a flag: in every state the
/// selector keeps, no flag is used by two running goals.
pub proof fn law_running_goals_disjoint<G>(s: &GoalSelector<G>)
    requires
        s.wf(),
    ensures
        forall|i: int, j: int, f: GoalFlag|
            0 <= i < s.goals().len() && 0 <= j < s.goals().len() && i != j && s.goals()[i].is_running
                && s.goals()[j].is_running && #[trigger] s.goals()[i].flags.has(f)
                && #[trigger] s.goals()[j].flags.has(f) ==> false,
{
    assert forall|i: int, j: int, f: GoalFlag|
        0 <= i < s.goals().len() && 0 <= j < s.goals().len() && i != j && s.goals()[i].is_running
            && s.goals()[j].is_running && #[trigger] s.goals()[i].flags.has(f)
            && #[trigger] s.goals()[j].flags.has(f) implies false by {
        assert(s.holder(f) is Some && s.holder(f)->0 == i);
        assert(s.holder(f)->0 == j);
    }
}

/// Higher priority goals take precedence: when a goal starts in a tick and takes a
/// flag that another goal held, the goal it takes the flag from has a larger
/// priority number (and said it can be interrupted).
pub proof fn law_start_preempts_lower_priority<G>(
    goals: Seq<WrappedGoal<G>>,
    disabled: GoalFlags,
    s: RunState,
    i: int,
    intr_i: Seq<bool>,
    k: int,
)
    requires
        0 <= i < goals.len(),
        !s.0[i],
        !shares(goals[i].flags, disabled),
        can_take_with(goals, s, i, intr_i),
        0 <= k < s.1.len(),
        goals[i].flags.has(flag_at(k)),
        s.1[k] is Some,
        s.1[k]->0 != i,
    ensures
        goals[i].priority < goals[s.1[k]->0 as int].priority,
        intr_i[k],
{
    assert(s.1[k] is Some);
}

} // verus!
