//! The guarantees the core gives across its operations: first registration
//! wins, lookup is exact, draw layering is strict, a credited obstacle is
//! never credited again, and at most one point is awarded per tick.

use vstd::prelude::*;
use crate::components::{Component, ComponentKind, GameComponent, Pillar, Priority};
use crate::game_state::{
    draw_plan,
    draws_of,
    find_idx,
    first_scorable,
    layer,
    lemma_find_idx_from,
    lemma_find_idx_from_is,
    lemma_find_idx_from_same_kinds,
    lemma_first_scorable_from,
    lemma_first_scorable_from_is,
    pillar_container_of,
    pillar_scorable,
    player_x_of,
    score_rule_rel,
    spec_add,
    spec_find,
    spec_has,
    DrawCommand,
};

verus! {

// ---------------------------------------------------------------------------
// Registration and lookup.
// ---------------------------------------------------------------------------

/// Registering two components of the same concrete kind leaves only the
/// first in the registry: the second registration is a no-op, and lookup
/// still yields the first component itself.
pub proof fn lemma_first_registration_wins(s: Seq<Component>, c1: Component, c2: Component)
    requires
        !spec_has(s, c1.spec_kind()),
        c2.spec_kind() == c1.spec_kind(),
    ensures
        spec_find(spec_add(spec_add(s, c1), c2), c1.spec_kind()) == Some(c1),
{
    let k = c1.spec_kind();
    lemma_find_idx_from(s, k, 0);
    let t = s.push(c1);
    lemma_find_idx_from_is(t, k, s.len() as int, 0);
    assert(spec_add(s, c1) == t);
    assert(spec_find(t, k) == Some(c1));
}

/// Lookup of a kind that was never registered returns nothing.
pub proof fn lemma_find_never_registered(s: Seq<Component>, kind: ComponentKind)
    requires
        forall|i: int| 0 <= i < s.len() ==> (#[trigger] s[i]).spec_kind() != kind,
    ensures
        spec_find(s, kind) is None,
{
    lemma_find_idx_from(s, kind, 0);
}

/// Lookup of a kind registered exactly once returns exactly that stored
/// component.
pub proof fn lemma_find_registered_once(s: Seq<Component>, kind: ComponentKind, m: int)
    requires
        0 <= m < s.len(),
        s[m].spec_kind() == kind,
        forall|i: int| 0 <= i < s.len() && i != m ==> (#[trigger] s[i]).spec_kind() != kind,
    ensures
        spec_find(s, kind) == Some(s[m]),
{
    lemma_find_idx_from_is(s, kind, m, 0);
}

// ---------------------------------------------------------------------------
// Draw layering.
// ---------------------------------------------------------------------------

/// Back-to-front position of a layer in the draw order.
pub open spec fn layer_rank(p: Priority) -> int {
    match p {
        Priority::Low => 0,
        Priority::Mid => 1,
        Priority::High => 2,
    }
}

/// The kind a draw command draws.
pub open spec fn drawn_kind(cmd: DrawCommand) -> ComponentKind {
    match cmd {
        DrawCommand::Draw(k) => k,
        _ => vstd::pervasive::arbitrary(),
    }
}

/// Every kind scheduled in a layer has that layer's priority.
proof fn lemma_layer_elems(s: Seq<Component>, p: Priority)
    ensures
        forall|t: int|
            0 <= t < layer(s, p).len() ==> (#[trigger] layer(s, p)[t]).spec_priority() == p,
    decreases s.len(),
{
    if s.len() > 0 {
        lemma_layer_elems(s.drop_last(), p);
    }
}

/// A component of priority `p` appears in the layer of `p`.
proof fn lemma_layer_contains(s: Seq<Component>, p: Priority, i: int)
    requires
        0 <= i < s.len(),
        s[i].spec_priority() == p,
    ensures
        layer(s, p).contains(s[i].spec_kind()),
    decreases s.len(),
{
    if i == s.len() - 1 {
        let l = layer(s, p);
        assert(l.last() == s[i].spec_kind());
        assert(l.contains(s[i].spec_kind()));
    } else {
        lemma_layer_contains(s.drop_last(), p, i);
        assert(s.drop_last()[i] == s[i]);
        let rest = layer(s.drop_last(), p);
        let t = choose|t: int| 0 <= t < rest.len() && rest[t] == s[i].spec_kind();
        assert(layer(s, p)[t] == s[i].spec_kind());
    }
}

/// Which segment of the draw schedule a draw command at position `i` sits
/// in: its component's layer rank, growing along the schedule.
proof fn lemma_plan_segment(s: Seq<Component>, i: int)
    requires
        0 <= i < draw_plan(s).len(),
        draw_plan(s)[i] is Draw,
    ensures
        ({
            let a = layer(s, Priority::Low).len();
            let b = layer(s, Priority::Mid).len();
            let c = layer(s, Priority::High).len();
            &&& 1 <= i < 1 + a + b + c
            &&& layer_rank(drawn_kind(draw_plan(s)[i]).spec_priority()) == if i < 1 + a {
                0int
            } else if i < 1 + a + b {
                1int
            } else {
                2int
            }
        }),
{
    let low = layer(s, Priority::Low);
    let mid = layer(s, Priority::Mid);
    let high = layer(s, Priority::High);
    let a = low.len();
    let b = mid.len();
    let c = high.len();
    let plan = draw_plan(s);
    lemma_layer_elems(s, Priority::Low);
    lemma_layer_elems(s, Priority::Mid);
    lemma_layer_elems(s, Priority::High);
    assert(plan.len() == 2 + a + b + c);
    assert(plan[0] == DrawCommand::Clear);
    assert(plan[plan.len() - 1] == DrawCommand::Present);
    if 1 <= i < 1 + a {
        assert(plan[i] == draws_of(low)[i - 1]);
        assert(plan[i] == DrawCommand::Draw(low[i - 1]));
    } else if 1 + a <= i < 1 + a + b {
        assert(plan[i] == draws_of(mid)[i - 1 - a]);
        assert(plan[i] == DrawCommand::Draw(mid[i - 1 - a]));
    } else if 1 + a + b <= i < 1 + a + b + c {
        assert(plan[i] == draws_of(high)[i - 1 - a - b]);
        assert(plan[i] == DrawCommand::Draw(high[i - 1 - a - b]));
    }
}

/// Draw order is strictly layered: among the draw commands of one frame's
/// schedule, a component of a later (higher) layer never precedes a
/// component of an earlier (lower) layer. In particular no `High` component
/// is ever drawn before any `Low` or `Mid` component.
pub proof fn lemma_draw_plan_layered(s: Seq<Component>, i: int, j: int)
    requires
        0 <= i < j < draw_plan(s).len(),
        draw_plan(s)[i] is Draw,
        draw_plan(s)[j] is Draw,
    ensures
        layer_rank(drawn_kind(draw_plan(s)[i]).spec_priority()) <= layer_rank(
            drawn_kind(draw_plan(s)[j]).spec_priority(),
        ),
{
    lemma_plan_segment(s, i);
    lemma_plan_segment(s, j);
}

/// Every registered component is drawn: its kind appears among the draw
/// commands of the frame's schedule.
pub proof fn lemma_draw_plan_complete(s: Seq<Component>, i: int)
    requires
        0 <= i < s.len(),
    ensures
        draw_plan(s).contains(DrawCommand::Draw(s[i].spec_kind())),
{
    let p = s[i].spec_priority();
    let low = layer(s, Priority::Low);
    let mid = layer(s, Priority::Mid);
    let high = layer(s, Priority::High);
    let a = low.len();
    let b = mid.len();
    let plan = draw_plan(s);
    lemma_layer_contains(s, p, i);
    let k = s[i].spec_kind();
    match p {
        Priority::Low => {
            let t = choose|t: int| 0 <= t < low.len() && low[t] == k;
            assert(plan[1 + t] == DrawCommand::Draw(k));
            assert(plan.contains(DrawCommand::Draw(k)));
        },
        Priority::Mid => {
            let t = choose|t: int| 0 <= t < mid.len() && mid[t] == k;
            assert(plan[1 + a + t] == DrawCommand::Draw(k));
            assert(plan.contains(DrawCommand::Draw(k)));
        },
        Priority::High => {
            let t = choose|t: int| 0 <= t < high.len() && high[t] == k;
            assert(plan[1 + a + b + t] == DrawCommand::Draw(k));
            assert(plan.contains(DrawCommand::Draw(k)));
        },
    }
}

// ---------------------------------------------------------------------------
// Scoring.
// ---------------------------------------------------------------------------

/// The score rule never lands on a pillar whose pass was already credited,
/// whatever the player's position: a credited obstacle is never credited
/// again, even while the triggering condition still holds.
pub proof fn lemma_no_rescore(ps: Seq<Pillar>, player_x: int, width: int, j: int)
    requires
        0 <= j < ps.len(),
        ps[j].passed,
    ensures
        first_scorable(ps, player_x, width) != j,
{
    lemma_first_scorable_from(ps, player_x, width, 0);
}

/// After one evaluation of the score rule the registry still holds the same
/// kinds at the same positions, and its obstacle set relates to the old one
/// as the rule says.
proof fn lemma_rel_container(pre: Seq<Component>, pre_score: u32, post: Seq<Component>, post_score: u32)
    requires
        score_rule_rel(pre, pre_score, post, post_score),
        spec_has(pre, ComponentKind::PillarContainer),
    ensures
        post.len() == pre.len(),
        pillar_container_of(post).pillar_width == pillar_container_of(pre).pillar_width,
        pillar_container_of(post).pillars@ == ({
            let pc = pillar_container_of(pre);
            let j = first_scorable(pc.pillars@, player_x_of(pre), pc.pillar_width as int);
            if j < pc.pillars@.len() {
                pc.pillars@.update(j, (Pillar { pos_x: pc.pillars@[j].pos_x, passed: true }))
            } else {
                pc.pillars@
            }
        }),
{
    let oi = find_idx(pre, ComponentKind::PillarContainer);
    let pc = pillar_container_of(pre);
    let j = first_scorable(pc.pillars@, player_x_of(pre), pc.pillar_width as int);
    lemma_find_idx_from(pre, ComponentKind::PillarContainer, 0);
    if j < pc.pillars@.len() {
        assert(forall|t: int|
            0 <= t < post.len() ==> (#[trigger] post[t]).spec_kind() == pre[t].spec_kind());
        lemma_find_idx_from_same_kinds(pre, post, ComponentKind::PillarContainer, 0);
        assert(find_idx(post, ComponentKind::PillarContainer) == oi);
    }
}

/// A pillar whose pass was already credited is untouched by the score rule:
/// the flag is one-way and the pillar is never re-credited.
pub proof fn lemma_passed_is_permanent(
    pre: Seq<Component>,
    pre_score: u32,
    post: Seq<Component>,
    post_score: u32,
    j: int,
)
    requires
        score_rule_rel(pre, pre_score, post, post_score),
        spec_has(pre, ComponentKind::PillarContainer),
        0 <= j < pillar_container_of(pre).pillars@.len(),
        pillar_container_of(pre).pillars@[j].passed,
    ensures
        pillar_container_of(post).pillars@[j] == pillar_container_of(pre).pillars@[j],
        post_score <= pre_score + 1,
{
    let pc = pillar_container_of(pre);
    let x = player_x_of(pre);
    let w = pc.pillar_width as int;
    lemma_rel_container(pre, pre_score, post, post_score);
    lemma_no_rescore(pc.pillars@, x, w, j);
    lemma_first_scorable_from(pc.pillars@, x, w, 0);
    let jj = first_scorable(pc.pillars@, x, w);
    if jj < pc.pillars@.len() {
        assert(pillar_container_of(post).pillars@ == pc.pillars@.update(
            jj,
            (Pillar { pos_x: pc.pillars@[jj].pos_x, passed: true }),
        ));
        assert(jj != j);
        assert(pc.pillars@.update(
            jj,
            (Pillar { pos_x: pc.pillars@[jj].pos_x, passed: true }),
        )[j] == pc.pillars@[j]);
    } else {
        assert(post == pre);
    }
}

/// One point per tick: when several pillars are scorable at once, the score
/// rises by exactly one, the first scorable pillar in storage order is the
/// one credited, and every later scorable pillar is left untouched.
pub proof fn lemma_one_point_per_tick(
    pre: Seq<Component>,
    pre_score: u32,
    post: Seq<Component>,
    post_score: u32,
    j1: int,
    j2: int,
)
    requires
        score_rule_rel(pre, pre_score, post, post_score),
        spec_has(pre, ComponentKind::PillarContainer),
        0 <= j1 < j2 < pillar_container_of(pre).pillars@.len(),
        pillar_scorable(
            pillar_container_of(pre).pillars@[j1],
            player_x_of(pre),
            pillar_container_of(pre).pillar_width as int,
        ),
        pillar_scorable(
            pillar_container_of(pre).pillars@[j2],
            player_x_of(pre),
            pillar_container_of(pre).pillar_width as int,
        ),
        forall|t: int|
            0 <= t < j1 ==> !pillar_scorable(
                #[trigger] pillar_container_of(pre).pillars@[t],
                player_x_of(pre),
                pillar_container_of(pre).pillar_width as int,
            ),
    ensures
        post_score == pre_score + 1,
        pillar_container_of(post).pillars@[j1].passed,
        pillar_container_of(post).pillars@[j2] == pillar_container_of(pre).pillars@[j2],
{
    let pc = pillar_container_of(pre);
    let x = player_x_of(pre);
    let w = pc.pillar_width as int;
    lemma_first_scorable_from_is(pc.pillars@, x, w, j1, 0);
    lemma_rel_container(pre, pre_score, post, post_score);
}

} // verus!
