//! The recurrence engine: a double-ended queue of triangles and a tick
//! counter.  Every tick whose incoming counter exceeds `UPDATE_TIME` runs one
//! regeneration pass: for each triangle captured in the front of the queue,
//! push its two children to the back, pop the front, and — if the second
//! child's first edge has degenerated below the visibility threshold — clear
//! everything, reseed with the initial triangle and stop the pass early.

use vstd::prelude::*;

use std::collections::VecDeque;

use crate::algebra::{
    lemma_pow3_literals, lemma_pow3_monotone, lemma_threshold_at, pow12, pow3,
};
use crate::triangle::{
    child_first, child_second, degenerate_edge, edge_a, edge_b, initial_triangle, is_degenerate,
    lemma_child_edge_scale, lemma_initial_edge, make_child_first, make_child_second,
    spec_initial_triangle, tri_wf, Triangle, TriV, LEVEL_LIMIT,
};

verus! {

/// Number of update ticks accumulated between regeneration passes: a pass
/// runs on the first tick that finds the counter strictly above this.
pub const UPDATE_TIME: u32 = 100;

/// The application state: the current generation of triangles, front to back,
/// and the tick counter since the last regeneration pass.
pub struct App {
    triangles: VecDeque<Triangle>,
    update_cnt: u32,
}

/// One iteration of the pass: the front triangle is replaced by its two
/// children at the back, first child first.
pub open spec fn rebuild_step(q: Seq<TriV>) -> Seq<TriV> {
    q.drop_first().push(child_first(q[0])).push(child_second(q[0]))
}

/// A regeneration pass that still has `steps` front triangles to process.
/// As soon as a second child comes out degenerate, the queue is cleared and
/// reseeded with one initial triangle, and the pass stops.
pub open spec fn rebuild_from(q: Seq<TriV>, steps: nat) -> Seq<TriV>
    decreases steps,
{
    if steps == 0 || q.len() == 0 {
        q
    } else if is_degenerate(child_second(q[0])) {
        seq![spec_initial_triangle()]
    } else {
        rebuild_from(rebuild_step(q), (steps - 1) as nat)
    }
}

/// The full pass: the number of processed triangles is the queue length
/// captured before the loop first mutates it.
pub open spec fn rebuild(q: Seq<TriV>) -> Seq<TriV> {
    rebuild_from(q, q.len())
}

impl App {
    /// The queue contents, front to back, as mathematical triangles.
    pub closed spec fn tris(&self) -> Seq<TriV> {
        self.triangles@.map_values(|t: Triangle| t@)
    }

    /// The tick counter.
    pub closed spec fn cnt(&self) -> nat {
        self.update_cnt as nat
    }

    /// Invariant: every triangle is well-formed and the counter never runs
    /// past the tick on which a pass fires.
    pub open spec fn wf(&self) -> bool {
        &&& forall|j: int| 0 <= j < self.tris().len() ==> tri_wf(#[trigger] self.tris()[j])
        &&& self.cnt() <= UPDATE_TIME + 1
    }

    /// All levels leave room for one more subdivision within the machine
    /// bounds; holds along every run that starts from the initial triangle.
    pub open spec fn levels_ready(&self) -> bool {
        forall|j: int|
            0 <= j < self.tris().len() ==> (#[trigger] self.tris()[j]).level < LEVEL_LIMIT
    }

    /// Startup state: one initial triangle, counter at zero.
    pub fn new() -> (a: App)
        ensures
            a.wf(),
            a.levels_ready(),
            a.tris() == seq![spec_initial_triangle()],
            a.cnt() == 0,
    {
        let mut triangles: VecDeque<Triangle> = VecDeque::new();
        triangles.push_back(initial_triangle());
        let a = App { triangles, update_cnt: 0 };
        proof {
            assert(a.tris() =~= seq![spec_initial_triangle()]);
        }
        a
    }

    /// How many triangles the queue currently holds.
    pub fn triangle_count(&self) -> (n: usize)
        ensures
            n == self.tris().len(),
    {
        self.triangles.len()
    }

    /// The triangle at queue position `i` (0 is the front).
    pub fn triangle_at(&self, i: usize) -> (t: Triangle)
        requires
            i < self.tris().len(),
        ensures
            t@ == self.tris()[i as int],
    {
        self.triangles[i]
    }

    /// The current tick counter.
    pub fn tick_count(&self) -> (c: u32)
        ensures
            c as nat == self.cnt(),
    {
        self.update_cnt
    }

    /// Whether every level leaves room for one more subdivision; callers that
    /// did not track the state may test this before `update`.
    pub fn ready_for_update(&self) -> (r: bool)
        ensures
            r == self.levels_ready(),
    {
        let n = self.triangles.len();
        let mut i: usize = 0;
        while i < n
            invariant
                i <= n,
                n == self.tris().len(),
                forall|j: int|
                    0 <= j < i ==> (#[trigger] self.tris()[j]).level < LEVEL_LIMIT,
            decreases n - i,
        {
            if self.triangles[i].level >= LEVEL_LIMIT {
                proof {
                    assert((self.tris()[i as int]).level >= LEVEL_LIMIT);
                }
                return false;
            }
            i = i + 1;
        }
        true
    }
}

/// Mapping the view over a queue commutes with pushing one triangle.
proof fn lemma_map_push(s: Seq<Triangle>, t: Triangle)
    ensures
        s.push(t).map_values(|x: Triangle| x@) == s.map_values(|x: Triangle| x@).push(t@),
{
    assert(s.push(t).map_values(|x: Triangle| x@) =~= s.map_values(|x: Triangle| x@).push(t@));
}

/// Mapping the view over a queue commutes with dropping the front.
proof fn lemma_map_tail(s: Seq<Triangle>)
    requires
        s.len() >= 1,
    ensures
        s.subrange(1, s.len() as int).map_values(|x: Triangle| x@) == s.map_values(
            |x: Triangle| x@,
        ).drop_first(),
{
    assert(s.subrange(1, s.len() as int).map_values(|x: Triangle| x@) =~= s.map_values(
        |x: Triangle| x@,
    ).drop_first());
}

/// Popping the front after the two pushes is the same as pushing onto the
/// dropped front, as long as the queue started nonempty.
proof fn lemma_step_shape(q: Seq<TriV>, a: TriV, b: TriV)
    requires
        q.len() >= 1,
    ensures
        q.push(a).push(b).drop_first() == q.drop_first().push(a).push(b),
{
    assert(q.push(a).push(b).drop_first() =~= q.drop_first().push(a).push(b));
}

impl App {
    /// One update tick.  While the counter is at or below `UPDATE_TIME` it
    /// only advances; on the first tick past it, the whole queue is rebuilt by
    /// one regeneration pass and the counter restarts at zero, then takes the
    /// tick's increment, ending the call at exactly 1.
    pub fn update(&mut self)
        requires
            old(self).wf(),
            old(self).cnt() > UPDATE_TIME ==> old(self).levels_ready(),
        ensures
            final(self).wf(),
            old(self).cnt() <= UPDATE_TIME ==> final(self).tris() == old(self).tris(),
            old(self).cnt() <= UPDATE_TIME ==> final(self).cnt() == old(self).cnt() + 1,
            old(self).cnt() > UPDATE_TIME ==> final(self).tris() == rebuild(old(self).tris()),
            old(self).cnt() > UPDATE_TIME ==> final(self).cnt() == 1,
    {
        if self.update_cnt > UPDATE_TIME {
            let ghost q0 = self.tris();
            let ghost cnt0 = self.update_cnt;
            let t_num = self.triangles.len();
            let mut i: usize = 0;
            while i < t_num
                invariant_except_break
                    i <= t_num,
                    t_num == q0.len(),
                    self.tris().len() == q0.len() + i,
                    forall|j: int| 0 <= j < t_num - i ==> self.tris()[j] == q0[i + j],
                    forall|j: int|
                        0 <= j < self.tris().len() ==> tri_wf(#[trigger] self.tris()[j]),
                    forall|j: int|
                        0 <= j < t_num - i ==> (#[trigger] self.tris()[j]).level < LEVEL_LIMIT,
                    rebuild_from(q0, q0.len()) == rebuild_from(self.tris(), (t_num - i) as nat),
                    self.update_cnt == cnt0,
                ensures
                    forall|j: int|
                        0 <= j < self.tris().len() ==> tri_wf(#[trigger] self.tris()[j]),
                    self.tris() == rebuild(q0),
                    self.update_cnt == cnt0,
                decreases t_num - i,
            {
                let ghost q_in = self.tris();
                let front: Triangle = self.triangles[0];
                assert(front@ == q_in[0]);
                let c1 = make_child_first(&front);
                let c2 = make_child_second(&front);
                let ghost s0 = self.triangles@;
                self.triangles.push_back(c1);
                proof {
                    lemma_map_push(s0, c1);
                }
                let ghost s1 = self.triangles@;
                self.triangles.push_back(c2);
                proof {
                    lemma_map_push(s1, c2);
                }
                let ghost s2 = self.triangles@;
                let _ = self.triangles.pop_front();
                proof {
                    lemma_map_tail(s2);
                    assert(self.tris() == q_in.push(c1@).push(c2@).drop_first());
                    lemma_step_shape(q_in, c1@, c2@);
                }
                if degenerate_edge(&c2) {
                    self.triangles.clear();
                    self.triangles.push_back(initial_triangle());
                    proof {
                        assert(self.tris() =~= seq![spec_initial_triangle()]);
                        assert(rebuild_from(q_in, (t_num - i) as nat) == seq![
                            spec_initial_triangle(),
                        ]);
                    }
                    break ;
                }
                proof {
                    assert(self.tris() == rebuild_step(q_in));
                    assert(rebuild_from(q_in, (t_num - i) as nat) == rebuild_from(
                        rebuild_step(q_in),
                        (t_num - i - 1) as nat,
                    ));
                }
                i = i + 1;
            }
            self.update_cnt = 0;
        }
        self.update_cnt = self.update_cnt + 1;
    }
}

/// All triangles of one generation `m`: level `m`, and the measured edge has
/// squared-length coefficients `(12^m, 0)`.
pub open spec fn uniform_gen(q: Seq<TriV>, m: nat) -> bool {
    forall|j: int|
        0 <= j < q.len() ==> (#[trigger] q[j]).level == m && edge_a(q[j]) == pow12(m) && edge_b(
            q[j],
        ) == 0
}

/// While the children of generation `m` are still above the threshold, a pass
/// that has `steps` parents left to process doubles them into children and
/// never resets.
proof fn lemma_rebuild_from_uniform(q: Seq<TriV>, steps: nat, m: nat)
    requires
        steps <= q.len(),
        forall|j: int|
            0 <= j < steps ==> (#[trigger] q[j]).level == m && edge_a(q[j]) == pow12(m)
                && edge_b(q[j]) == 0,
        forall|j: int|
            steps <= j < q.len() ==> (#[trigger] q[j]).level == m + 1 && edge_a(q[j]) == pow12(
                m + 1,
            ) && edge_b(q[j]) == 0,
        pow3(m + 1) <= 1000000,
    ensures
        rebuild_from(q, steps).len() == q.len() + steps,
        uniform_gen(rebuild_from(q, steps), m + 1),
    decreases steps,
{
    if steps == 0 {
    } else {
        let c1 = child_first(q[0]);
        let c2 = child_second(q[0]);
        lemma_child_edge_scale(q[0]);
        assert(pow12(m + 1) == 12 * pow12(m));
        lemma_threshold_at(m + 1);
        assert(!is_degenerate(c2));
        let q2 = rebuild_step(q);
        assert forall|j: int| 0 <= j < steps - 1 implies (#[trigger] q2[j]).level == m && edge_a(
            q2[j],
        ) == pow12(m) && edge_b(q2[j]) == 0 by {
            assert(q2[j] == q[j + 1]);
        }
        assert forall|j: int| steps - 1 <= j < q2.len() implies (#[trigger] q2[j]).level == m + 1
            && edge_a(q2[j]) == pow12(m + 1) && edge_b(q2[j]) == 0 by {
            if j < q2.len() - 2 {
                assert(q2[j] == q[j + 1]);
            } else if j == q2.len() - 2 {
                assert(q2[j] == c1);
            } else {
                assert(q2[j] == c2);
            }
        }
        lemma_rebuild_from_uniform(q2, (steps - 1) as nat, m);
    }
}

/// A full pass over one whole generation `m`, while its children stay above
/// the threshold: the queue doubles and becomes generation `m + 1`.
proof fn lemma_rebuild_uniform(q: Seq<TriV>, m: nat)
    requires
        uniform_gen(q, m),
        pow3(m + 1) <= 1000000,
    ensures
        rebuild(q).len() == 2 * q.len(),
        uniform_gen(rebuild(q), m + 1),
{
    lemma_rebuild_from_uniform(q, q.len(), m);
}

/// Once the front parent's second child falls below the threshold, the pass
/// clears everything and reseeds the single initial triangle.
proof fn lemma_rebuild_resets(q: Seq<TriV>, m: nat)
    requires
        q.len() >= 1,
        q[0].level == m,
        edge_a(q[0]) == pow12(m),
        edge_b(q[0]) == 0,
        1000000 < pow3(m + 1),
    ensures
        rebuild(q) == seq![spec_initial_triangle()],
{
    lemma_child_edge_scale(q[0]);
    assert(pow12(m + 1) == 12 * pow12(m));
    lemma_threshold_at(m + 1);
    assert(is_degenerate(child_second(q[0])));
}

/// The queue after `n` regeneration passes from a given start.
pub open spec fn iterate_passes(q: Seq<TriV>, n: nat) -> Seq<TriV>
    decreases n,
{
    if n == 0 {
        q
    } else {
        rebuild(iterate_passes(q, (n - 1) as nat))
    }
}

/// After `g <= 11` passes from the single initial triangle, the queue is
/// nonempty and holds generation `g + 1` triangles only: no reset yet.
proof fn lemma_orbit(g: nat)
    requires
        g <= 11,
    ensures
        iterate_passes(seq![spec_initial_triangle()], g).len() >= 1,
        uniform_gen(iterate_passes(seq![spec_initial_triangle()], g), g + 1),
    decreases g,
{
    lemma_initial_edge();
    if g == 0 {
        let q = iterate_passes(seq![spec_initial_triangle()], 0);
        assert(q == seq![spec_initial_triangle()]);
        assert(pow12(1) == 12 * pow12(0));
        assert(forall|j: int| 0 <= j < q.len() ==> q[j] == spec_initial_triangle());
    } else {
        lemma_orbit((g - 1) as nat);
        let prev = iterate_passes(seq![spec_initial_triangle()], (g - 1) as nat);
        lemma_pow3_monotone(g + 1, 12);
        lemma_pow3_literals();
        lemma_rebuild_uniform(prev, g);
    }
}

/// One regeneration pass on the single initial triangle yields exactly its
/// two children, the translated first child ahead of the scaled second child.
pub proof fn lemma_first_pass()
    ensures
        rebuild(seq![spec_initial_triangle()]) == seq![
            child_first(spec_initial_triangle()),
            child_second(spec_initial_triangle()),
        ],
{
    let q = seq![spec_initial_triangle()];
    lemma_initial_edge();
    lemma_child_edge_scale(q[0]);
    assert(pow12(1) == 12 * pow12(0));
    assert(pow12(2) == 12 * pow12(1));
    lemma_threshold_at(2);
    lemma_pow3_literals();
    lemma_pow3_monotone(2, 12);
    assert(!is_degenerate(child_second(q[0])));
    assert(rebuild_from(q, 1) == rebuild_from(rebuild_step(q), 0));
    assert(rebuild_step(q) =~= seq![
        child_first(spec_initial_triangle()),
        child_second(spec_initial_triangle()),
    ]);
}

/// Repeated regeneration from the initial triangle reaches the degeneracy
/// reset: the 12th pass finds its first second-child below the threshold and
/// restores the queue to exactly one initial triangle.
pub proof fn lemma_eventual_reset()
    ensures
        iterate_passes(seq![spec_initial_triangle()], 12) == seq![spec_initial_triangle()],
{
    lemma_orbit(11);
    let q11 = iterate_passes(seq![spec_initial_triangle()], 11);
    lemma_pow3_literals();
    lemma_rebuild_resets(q11, 12);
    assert(iterate_passes(seq![spec_initial_triangle()], 12) == rebuild(q11));
}

} // verus!
