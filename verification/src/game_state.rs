//! The component registry, the priority scheduler, the frame driver and the
//! score rule.

use vstd::prelude::*;
use vstd::pervasive::arbitrary;
use vstd::pervasive::VecAdditionalExecFns;
use crate::components::{Component, ComponentKind, GameComponent, Pillar, PillarContainer, Priority};

verus! {

// ---------------------------------------------------------------------------
// Registry model: first-match lookup over the stored sequence of components.
// ---------------------------------------------------------------------------

/// No two stored components share a concrete kind.
pub open spec fn kind_distinct(s: Seq<Component>) -> bool {
    forall|i: int, j: int|
        0 <= i < s.len() && 0 <= j < s.len() && i != j ==> s[i].spec_kind() != s[j].spec_kind()
}

/// Index of the first component of kind `kind` at or after position `i`, or
/// `s.len()` if there is none.
pub open spec fn find_idx_from(s: Seq<Component>, kind: ComponentKind, i: int) -> int
    decreases s.len() - i,
{
    if i < 0 || i >= s.len() {
        s.len() as int
    } else if s[i].spec_kind() == kind {
        i
    } else {
        find_idx_from(s, kind, i + 1)
    }
}

/// Index of the first component of kind `kind`, or `s.len()` if the kind was
/// never registered.
pub open spec fn find_idx(s: Seq<Component>, kind: ComponentKind) -> int {
    find_idx_from(s, kind, 0)
}

pub open spec fn spec_has(s: Seq<Component>, kind: ComponentKind) -> bool {
    find_idx(s, kind) < s.len()
}

/// What lookup by kind returns on a registry holding `s`.
pub open spec fn spec_find(s: Seq<Component>, kind: ComponentKind) -> Option<Component> {
    if spec_has(s, kind) {
        Some(s[find_idx(s, kind)])
    } else {
        None
    }
}

/// What registration does to a registry holding `s`: appended if the kind is
/// new, a silent no-op if the kind is already present.
pub open spec fn spec_add(s: Seq<Component>, c: Component) -> Seq<Component> {
    if spec_has(s, c.spec_kind()) {
        s
    } else {
        s.push(c)
    }
}

/// `find_idx_from` lands on the first matching index: everything it skipped
/// has another kind, and what it lands on (inside the sequence) matches.
pub proof fn lemma_find_idx_from(s: Seq<Component>, kind: ComponentKind, i: int)
    requires
        0 <= i <= s.len(),
    ensures
        i <= find_idx_from(s, kind, i) <= s.len(),
        find_idx_from(s, kind, i) < s.len() ==> s[find_idx_from(s, kind, i)].spec_kind() == kind,
        forall|j: int| i <= j < find_idx_from(s, kind, i) ==> s[j].spec_kind() != kind,
    decreases s.len() - i,
{
    if i < s.len() && s[i].spec_kind() != kind {
        lemma_find_idx_from(s, kind, i + 1);
    }
}

/// If position `m` matches and nothing in `[i, m)` does, the search from `i`
/// lands exactly on `m`.
pub proof fn lemma_find_idx_from_is(s: Seq<Component>, kind: ComponentKind, m: int, i: int)
    requires
        0 <= i <= m < s.len(),
        s[m].spec_kind() == kind,
        forall|j: int| i <= j < m ==> s[j].spec_kind() != kind,
    ensures
        find_idx_from(s, kind, i) == m,
    decreases m - i,
{
    if i < m {
        lemma_find_idx_from_is(s, kind, m, i + 1);
    }
}

/// Lookup goes by kind alone, so two registries whose entries agree kind by
/// kind are searched identically.
pub proof fn lemma_find_idx_from_same_kinds(
    a: Seq<Component>,
    b: Seq<Component>,
    kind: ComponentKind,
    i: int,
)
    requires
        a.len() == b.len(),
        forall|j: int| 0 <= j < a.len() ==> a[j].spec_kind() == b[j].spec_kind(),
        0 <= i,
    ensures
        find_idx_from(a, kind, i) == find_idx_from(b, kind, i),
    decreases a.len() - i,
{
    if i < a.len() && a[i].spec_kind() != kind {
        lemma_find_idx_from_same_kinds(a, b, kind, i + 1);
    }
}

/// Registering a kind that is not present keeps the stored kinds pairwise
/// distinct.
pub proof fn lemma_add_preserves_distinct(s: Seq<Component>, c: Component)
    requires
        kind_distinct(s),
        !spec_has(s, c.spec_kind()),
    ensures
        kind_distinct(spec_add(s, c)),
{
    lemma_find_idx_from(s, c.spec_kind(), 0);
    let t = s.push(c);
    assert forall|i: int, j: int|
        0 <= i < t.len() && 0 <= j < t.len() && i != j implies t[i].spec_kind()
        != t[j].spec_kind() by {
        if i < s.len() && j < s.len() {
            assert(t[i] == s[i] && t[j] == s[j]);
        } else if i == s.len() {
            assert(t[j] == s[j] && t[i] == c);
        } else {
            assert(t[i] == s[i] && t[j] == c);
        }
    }
}

// ---------------------------------------------------------------------------
// The state container.
// ---------------------------------------------------------------------------

/// The game state: the registry of components (one per concrete kind) and
/// the session score. The registry exclusively owns its components; other
/// code reaches them only through lookup by kind.
pub struct GameState {
    pub components: Vec<Component>,
    pub score: u32,
}

impl GameState {
    /// Registry invariant: at most one component of each concrete kind.
    pub open spec fn wf(&self) -> bool {
        kind_distinct(self.components@)
    }

    /// Position of the first component of kind `kind`, if the kind is
    /// registered.
    fn component_index(&self, kind: ComponentKind) -> (r: Option<usize>)
        ensures
            match r {
                Some(i) => i < self.components@.len() && find_idx(self.components@, kind) == i as int,
                None => find_idx(self.components@, kind) == self.components@.len() as int,
            },
    {
        let n = self.components.len();
        let mut i: usize = 0;
        while i < n
            invariant
                i <= n,
                n == self.components@.len(),
                forall|j: int| 0 <= j < i ==> self.components@[j].spec_kind() != kind,
            decreases n - i,
        {
            if self.components[i].kind() == kind {
                proof {
                    lemma_find_idx_from_is(self.components@, kind, i as int, 0);
                }
                return Some(i);
            }
            i += 1;
        }
        proof {
            lemma_find_idx_from(self.components@, kind, 0);
        }
        None
    }
}

impl Default for GameState {
    /// An empty registry and a score of zero.
    fn default() -> (r: GameState)
        ensures
            r.components@ == Seq::<Component>::empty(),
            r.score == 0,
            r.wf(),
    {
        GameState { components: Vec::new(), score: 0 }
    }
}

// ---------------------------------------------------------------------------
// The registry interface.
// ---------------------------------------------------------------------------

/// The exclusive-ownership container of components, keyed by concrete kind.
pub trait GameComponentContainer {
    /// The stored components, in the container's own (unspecified but
    /// stable) iteration order. No component may assume a position in it.
    spec fn registry(&self) -> Seq<Component>;

    /// Registers a component under its concrete kind. If that kind is
    /// already registered the call is a silent no-op: the first
    /// registration wins and nothing is replaced.
    fn add_component(&mut self, new_component: Component)
        ensures
            final(self).registry() == spec_add(old(self).registry(), new_component),
            kind_distinct(old(self).registry()) ==> kind_distinct(final(self).registry()),
    ;

    /// Exact-kind lookup: the first (and, in a well-formed registry, only)
    /// component of that kind, or nothing if the kind was never registered.
    fn find_component(&self, kind: ComponentKind) -> (r: Option<&Component>)
        ensures
            match r {
                Some(c) => spec_find(self.registry(), kind) == Some(*c),
                None => spec_find(self.registry(), kind) is None,
            },
    ;

    /// Exact-kind lookup for mutation: a mutable borrow of the stored
    /// component of that kind, or nothing if the kind was never registered.
    fn find_component_mut(&mut self, kind: ComponentKind) -> (r: Option<&mut Component>)
        ensures
            match r {
                Some(c) => {
                    &&& spec_has(old(self).registry(), kind)
                    &&& *c == old(self).registry()[find_idx(old(self).registry(), kind)]
                    &&& final(self).registry() == old(self).registry().update(
                        find_idx(old(self).registry(), kind),
                        *final(c),
                    )
                },
                None => {
                    &&& !spec_has(old(self).registry(), kind)
                    &&& final(self).registry() == old(self).registry()
                },
            },
    ;
}

impl GameComponentContainer for GameState {
    open spec fn registry(&self) -> Seq<Component> {
        self.components@
    }

    fn add_component(&mut self, new_component: Component)
        ensures
            final(self).score == old(self).score,
    {
        let k = new_component.kind();
        match self.component_index(k) {
            Some(_) => {},
            None => {
                proof {
                    if old(self).wf() {
                        lemma_add_preserves_distinct(self.components@, new_component);
                    }
                }
                self.components.push(new_component);
            },
        }
    }

    fn find_component(&self, kind: ComponentKind) -> (r: Option<&Component>) {
        match self.component_index(kind) {
            Some(i) => Some(&self.components[i]),
            None => None,
        }
    }

    fn find_component_mut(&mut self, kind: ComponentKind) -> (r: Option<&mut Component>)
        ensures
            final(self).score == old(self).score,
    {
        match self.component_index(kind) {
            Some(i) => Some(&mut self.components[i]),
            None => None,
        }
    }
}

// ---------------------------------------------------------------------------
// The score rule.
// ---------------------------------------------------------------------------

/// A pillar is worth a point right now: it has not been credited yet and the
/// player's leading edge has advanced strictly past its trailing edge.
pub open spec fn pillar_scorable(p: Pillar, player_x: int, width: int) -> bool {
    !p.passed && player_x > p.pos_x + width
}

/// Position of the first scorable pillar at or after `i`, or `ps.len()` if
/// there is none.
pub open spec fn first_scorable_from(ps: Seq<Pillar>, player_x: int, width: int, i: int) -> int
    decreases ps.len() - i,
{
    if i < 0 || i >= ps.len() {
        ps.len() as int
    } else if pillar_scorable(ps[i], player_x, width) {
        i
    } else {
        first_scorable_from(ps, player_x, width, i + 1)
    }
}

/// Position of the first scorable pillar in storage order, or `ps.len()` if
/// no pillar is scorable this tick.
pub open spec fn first_scorable(ps: Seq<Pillar>, player_x: int, width: int) -> int {
    first_scorable_from(ps, player_x, width, 0)
}

/// The scan lands on the first scorable pillar: everything it skipped is not
/// scorable, and what it lands on (inside the sequence) is.
pub proof fn lemma_first_scorable_from(ps: Seq<Pillar>, player_x: int, width: int, i: int)
    requires
        0 <= i <= ps.len(),
    ensures
        i <= first_scorable_from(ps, player_x, width, i) <= ps.len(),
        first_scorable_from(ps, player_x, width, i) < ps.len() ==> pillar_scorable(
            ps[first_scorable_from(ps, player_x, width, i)],
            player_x,
            width,
        ),
        forall|j: int|
            i <= j < first_scorable_from(ps, player_x, width, i) ==> !pillar_scorable(
                ps[j],
                player_x,
                width,
            ),
    decreases ps.len() - i,
{
    if i < ps.len() && !pillar_scorable(ps[i], player_x, width) {
        lemma_first_scorable_from(ps, player_x, width, i + 1);
    }
}

/// If position `m` is scorable and nothing in `[i, m)` is, the scan from `i`
/// lands exactly on `m`.
pub proof fn lemma_first_scorable_from_is(
    ps: Seq<Pillar>,
    player_x: int,
    width: int,
    m: int,
    i: int,
)
    requires
        0 <= i <= m < ps.len(),
        pillar_scorable(ps[m], player_x, width),
        forall|j: int| i <= j < m ==> !pillar_scorable(ps[j], player_x, width),
    ensures
        first_scorable_from(ps, player_x, width, i) == m,
    decreases m - i,
{
    if i < m {
        lemma_first_scorable_from_is(ps, player_x, width, m, i + 1);
    }
}

/// The player's leading edge, read from the registered player entity.
pub open spec fn player_x_of(s: Seq<Component>) -> int {
    match s[find_idx(s, ComponentKind::Player)] {
        Component::Player(p) => p.rect.x as int,
        _ => arbitrary(),
    }
}

/// The registered obstacle-set entity.
pub open spec fn pillar_container_of(s: Seq<Component>) -> PillarContainer {
    match s[find_idx(s, ComponentKind::PillarContainer)] {
        Component::PillarContainer(pc) => pc,
        _ => arbitrary(),
    }
}

/// How one evaluation of the score rule relates the registry and score
/// before the tick to the registry and score after it: if some pillar is
/// scorable, the first one in storage order is marked passed and the score
/// rises by exactly one, everything else unchanged; otherwise nothing
/// changes. At most one point is awarded per evaluation, even if several
/// pillars are scorable at once.
pub open spec fn score_rule_rel(
    pre: Seq<Component>,
    pre_score: u32,
    post: Seq<Component>,
    post_score: u32,
) -> bool {
    let x = player_x_of(pre);
    let oi = find_idx(pre, ComponentKind::PillarContainer);
    let pc = pillar_container_of(pre);
    let j = first_scorable(pc.pillars@, x, pc.pillar_width as int);
    if j < pc.pillars@.len() {
        &&& post.len() == pre.len()
        &&& forall|i: int| 0 <= i < pre.len() && i != oi ==> post[i] == pre[i]
        &&& (post[oi] matches Component::PillarContainer(npc) && npc.pillar_width
            == pc.pillar_width && npc.pillars@ == pc.pillars@.update(
            j,
            (Pillar { pos_x: pc.pillars@[j].pos_x, passed: true }),
        ))
        &&& post_score == pre_score + 1
    } else {
        &&& post == pre
        &&& post_score == pre_score
    }
}

impl PillarContainer {
    /// Marks the first pillar (in storage order) that is scorable against
    /// the given leading edge, and reports whether one was marked. At most
    /// one pillar is marked per call; all other pillars are untouched.
    pub fn mark_first(&mut self, player_x: i32) -> (scored: bool)
        ensures
            ({
                let ps = old(self).pillars@;
                let j = first_scorable(ps, player_x as int, old(self).pillar_width as int);
                &&& final(self).pillar_width == old(self).pillar_width
                &&& if j < ps.len() {
                    &&& scored
                    &&& final(self).pillars@ == ps.update(
                        j,
                        (Pillar { pos_x: ps[j].pos_x, passed: true }),
                    )
                } else {
                    &&& !scored
                    &&& *final(self) == *old(self)
                }
            }),
    {
        let n = self.pillars.len();
        let w = self.pillar_width;
        let mut i: usize = 0;
        while i < n
            invariant
                i <= n,
                n == self.pillars@.len(),
                w == self.pillar_width,
                *self == *old(self),
                forall|j: int|
                    0 <= j < i ==> !pillar_scorable(self.pillars@[j], player_x as int, w as int),
            decreases n - i,
        {
            let p = self.pillars[i];
            if !p.passed && (player_x as i64) > (p.pos_x as i64) + (w as i64) {
                proof {
                    lemma_first_scorable_from_is(
                        self.pillars@,
                        player_x as int,
                        w as int,
                        i as int,
                        0,
                    );
                }
                self.pillars.set(i, Pillar { pos_x: p.pos_x, passed: true });
                return true;
            }
            i += 1;
        }
        proof {
            lemma_first_scorable_from(self.pillars@, player_x as int, w as int, 0);
        }
        false
    }
}

impl GameState {
    /// The score rule, evaluated once per tick after all updates succeed.
    /// The player and the obstacle set must both be registered: once the
    /// game is set up they always are, and their absence is a programming
    /// error this rule does not accept.
    pub fn check_score(&mut self)
        requires
            spec_has(old(self).components@, ComponentKind::Player),
            spec_has(old(self).components@, ComponentKind::PillarContainer),
            old(self).score < u32::MAX,
        ensures
            score_rule_rel(
                old(self).components@,
                old(self).score,
                final(self).components@,
                final(self).score,
            ),
            final(self).score >= old(self).score,
            old(self).wf() ==> final(self).wf(),
    {
        proof {
            lemma_find_idx_from(self.components@, ComponentKind::Player, 0);
            lemma_find_idx_from(self.components@, ComponentKind::PillarContainer, 0);
        }
        let pi = self.component_index(ComponentKind::Player).unwrap();
        let px: i32 = match &self.components[pi] {
            Component::Player(p) => p.rect.x,
            _ => {
                proof {
                    assert(false);
                }
                0
            },
        };
        let oi = self.component_index(ComponentKind::PillarContainer).unwrap();
        let ghost pre = self.components@;
        let ghost x = player_x_of(pre);
        let ghost pcv = pillar_container_of(pre);
        let ghost j = first_scorable(pcv.pillars@, x, pcv.pillar_width as int);
        proof {
            assert(pre == old(self).components@);
            assert(px as int == x);
        }
        let scored: bool = match &mut self.components[oi] {
            Component::PillarContainer(pc) => pc.mark_first(px),
            _ => {
                proof {
                    assert(false);
                }
                false
            },
        };
        if scored {
            self.score = self.score + 1;
        }
        proof {
            let post = self.components@;
            if j < pcv.pillars@.len() {
                assert(post.len() == pre.len());
                assert(forall|i: int| 0 <= i < pre.len() && i != oi as int ==> post[i] == pre[i]);
                assert(post[oi as int] matches Component::PillarContainer(npc) && npc.pillar_width
                    == pcv.pillar_width && npc.pillars@ == pcv.pillars@.update(
                    j,
                    (Pillar { pos_x: pcv.pillars@[j].pos_x, passed: true }),
                ));
                assert(self.score == old(self).score + 1);
            } else {
                assert(post =~= pre);
                assert(self.score == old(self).score);
            }
            if old(self).wf() {
                assert forall|a: int, b: int|
                    0 <= a < post.len() && 0 <= b < post.len() && a != b implies post[a].spec_kind()
                    != post[b].spec_kind() by {
                    assert(post[a].spec_kind() == pre[a].spec_kind());
                    assert(post[b].spec_kind() == pre[b].spec_kind());
                }
            }
        }
    }
}

// ---------------------------------------------------------------------------
// The frame driver: the update phase.
// ---------------------------------------------------------------------------

/// A frame-fatal failure reported by a component's per-tick work; the frame
/// driver forwards it to the host unchanged.
#[derive(Clone, Debug, PartialEq, Eq)]
pub struct GameError {
    pub message: String,
}

/// Every component's update succeeded this tick.
pub open spec fn full_success(outs: Seq<Result<Component, GameError>>, n: int) -> bool {
    outs.len() == n && forall|i: int| 0 <= i < outs.len() ==> (#[trigger] outs[i]) is Ok
}

/// The registry after the successful prefix of this tick's update outcomes
/// has been applied: position `i` holds the new state where the host
/// reported one, and the old state from the failure on.
pub open spec fn applied(outs: Seq<Result<Component, GameError>>, pre: Seq<Component>) -> Seq<
    Component,
> {
    Seq::new(
        pre.len(),
        |i: int|
            if i < outs.len() && outs[i] is Ok {
                outs[i]->Ok_0
            } else {
                pre[i]
            },
    )
}

impl GameState {
    /// One tick's update phase. The host performs each registered
    /// component's own update work (input, physics, timing) in registry
    /// order, stopping at the first failure, and hands the outcomes over:
    /// one per component visited, each either the component's new state (of
    /// the same kind) or the failure that ended the visit, so only the last
    /// outcome may be a failure. The new states are applied in order; a
    /// failure aborts the tick with every later component untouched, the
    /// score rule skipped, the score unchanged and the error forwarded
    /// unchanged. When every update succeeded the score rule is evaluated
    /// exactly once.
    pub fn update(&mut self, outcomes: Vec<Result<Component, GameError>>) -> (r: Result<
        (),
        GameError,
    >)
        requires
            outcomes@.len() <= old(self).components@.len(),
            forall|i: int|
                0 <= i < outcomes@.len() ==> ((#[trigger] outcomes@[i]) matches Ok(c)
                    ==> c.spec_kind() == old(self).components@[i].spec_kind()),
            forall|i: int| 0 <= i < outcomes@.len() - 1 ==> (#[trigger] outcomes@[i]) is Ok,
            outcomes@.len() < old(self).components@.len() ==> outcomes@.len() > 0
                && outcomes@.last() is Err,
            full_success(outcomes@, old(self).components@.len() as int) ==> spec_has(
                old(self).components@,
                ComponentKind::Player,
            ) && spec_has(old(self).components@, ComponentKind::PillarContainer) && old(
                self,
            ).score < u32::MAX,
        ensures
            full_success(outcomes@, old(self).components@.len() as int) ==> r is Ok
                && score_rule_rel(
                applied(outcomes@, old(self).components@),
                old(self).score,
                final(self).components@,
                final(self).score,
            ) && final(self).score >= old(self).score,
            !full_success(outcomes@, old(self).components@.len() as int) ==> r is Err
                && outcomes@.len() > 0 && outcomes@.last() is Err && r->Err_0
                == outcomes@.last()->Err_0 && final(self).components@ == applied(
                outcomes@,
                old(self).components@,
            ) && final(self).score == old(self).score,
            old(self).wf() ==> final(self).wf(),
    {
        let n = self.components.len();
        let total = outcomes.len();
        let ghost outs = outcomes@;
        let ghost pre = self.components@;
        let mut rest = outcomes;
        let mut i: usize = 0;
        while i < total
            invariant
                i <= total,
                outs == outcomes@,
                total == outs.len(),
                outs.len() <= pre.len(),
                n == pre.len(),
                pre == old(self).components@,
                rest@ == outs.skip(i as int),
                self.components@.len() == n,
                self.score == old(self).score,
                forall|k: int| 0 <= k < i ==> (#[trigger] outs[k]) is Ok,
                forall|k: int| 0 <= k < i ==> self.components@[k] == outs[k]->Ok_0,
                forall|k: int| i <= k < n ==> self.components@[k] == pre[k],
                forall|k: int|
                    0 <= k < outs.len() ==> ((#[trigger] outs[k]) matches Ok(c) ==> c.spec_kind()
                        == pre[k].spec_kind()),
                forall|k: int| 0 <= k < outs.len() - 1 ==> (#[trigger] outs[k]) is Ok,
            decreases total - i,
        {
            let o = rest.remove(0);
            proof {
                assert(o == outs[i as int]);
                assert(rest@ =~= outs.skip(i as int + 1));
            }
            match o {
                Ok(c) => {
                    self.components.set(i, c);
                    i += 1;
                },
                Err(e) => {
                    proof {
                        assert(i as int == outs.len() - 1);
                        assert(!full_success(outs, n as int));
                        assert(self.components@ =~= applied(outs, pre));
                        lemma_applied_keeps_wf(outs, pre, self.components@);
                    }
                    return Err(e);
                },
            }
        }
        proof {
            if total < n {
                assert(outs.last() is Err);
                assert(false);
            }
            assert(full_success(outs, n as int));
            assert(self.components@ =~= applied(outs, pre));
            lemma_applied_keeps_wf(outs, pre, self.components@);
            lemma_find_idx_from_same_kinds(pre, self.components@, ComponentKind::Player, 0);
            lemma_find_idx_from_same_kinds(
                pre,
                self.components@,
                ComponentKind::PillarContainer,
                0,
            );
        }
        self.check_score();
        Ok(())
    }
}

/// Applying update outcomes replaces components kind for kind, so it keeps
/// the stored kinds pairwise distinct.
proof fn lemma_applied_keeps_wf(
    outs: Seq<Result<Component, GameError>>,
    pre: Seq<Component>,
    post: Seq<Component>,
)
    requires
        post == applied(outs, pre),
        forall|k: int|
            0 <= k < outs.len() ==> ((#[trigger] outs[k]) matches Ok(c) ==> c.spec_kind()
                == pre[k].spec_kind()),
    ensures
        forall|k: int| 0 <= k < post.len() ==> (#[trigger] post[k]).spec_kind() == pre[k].spec_kind(),
        kind_distinct(pre) ==> kind_distinct(post),
{
    assert forall|k: int| 0 <= k < post.len() implies (#[trigger] post[k]).spec_kind()
        == pre[k].spec_kind() by {
        if k < outs.len() && outs[k] is Ok {
            assert(outs[k] matches Ok(c) && c.spec_kind() == pre[k].spec_kind());
        }
    }
    if kind_distinct(pre) {
        assert forall|a: int, b: int|
            0 <= a < post.len() && 0 <= b < post.len() && a != b implies post[a].spec_kind()
            != post[b].spec_kind() by {
            assert(post[a].spec_kind() == pre[a].spec_kind());
            assert(post[b].spec_kind() == pre[b].spec_kind());
        }
    }
}

// ---------------------------------------------------------------------------
// The priority scheduler and the draw phase.
// ---------------------------------------------------------------------------

/// One step of a frame's draw schedule, executed in order by the host
/// renderer.
#[derive(Clone, Copy, Debug, PartialEq, Eq, Structural)]
pub enum DrawCommand {
    /// Clear the frame, before any component is drawn.
    Clear,
    /// Draw the registered component of this kind.
    Draw(ComponentKind),
    /// Present the finished frame, after all components are drawn.
    Present,
}

/// The kinds of the components of `s` whose priority is `p`, in registry
/// order.
pub open spec fn layer(s: Seq<Component>, p: Priority) -> Seq<ComponentKind>
    decreases s.len(),
{
    if s.len() == 0 {
        Seq::empty()
    } else {
        let rest = layer(s.drop_last(), p);
        if s.last().spec_priority() == p {
            rest.push(s.last().spec_kind())
        } else {
            rest
        }
    }
}

/// One draw command per kind, in order.
pub open spec fn draws_of(ks: Seq<ComponentKind>) -> Seq<DrawCommand> {
    ks.map_values(|k: ComponentKind| DrawCommand::Draw(k))
}

/// A frame's full draw schedule: clear first, the three layers back to
/// front, present last.
pub open spec fn draw_plan(s: Seq<Component>) -> Seq<DrawCommand> {
    seq![DrawCommand::Clear] + draws_of(layer(s, Priority::Low)) + draws_of(
        layer(s, Priority::Mid),
    ) + draws_of(layer(s, Priority::High)) + seq![DrawCommand::Present]
}

/// Extending the scanned prefix by one component extends its layer exactly
/// when that component has the requested priority.
proof fn lemma_layer_take_step(s: Seq<Component>, p: Priority, i: int)
    requires
        0 <= i < s.len(),
    ensures
        layer(s.take(i + 1), p) == if s[i].spec_priority() == p {
            layer(s.take(i), p).push(s[i].spec_kind())
        } else {
            layer(s.take(i), p)
        },
{
    let t = s.take(i + 1);
    assert(t.drop_last() =~= s.take(i));
    assert(t.last() == s[i]);
}

impl GameState {
    /// The priority scheduler: the kinds of the registered components whose
    /// priority equals `priority`, in registry order. Pure: the registry is
    /// not changed.
    pub fn draw_by_priority(&self, priority: Priority) -> (r: Vec<ComponentKind>)
        ensures
            r@ == layer(self.components@, priority),
    {
        let n = self.components.len();
        let mut out: Vec<ComponentKind> = Vec::new();
        let mut i: usize = 0;
        while i < n
            invariant
                i <= n,
                n == self.components@.len(),
                out@ == layer(self.components@.take(i as int), priority),
            decreases n - i,
        {
            proof {
                lemma_layer_take_step(self.components@, priority, i as int);
            }
            let c = &self.components[i];
            if c.priority() == priority {
                let k = c.kind();
                out.push(k);
            }
            i += 1;
        }
        proof {
            assert(self.components@.take(n as int) =~= self.components@);
        }
        out
    }

    /// One frame's draw schedule: clear first, the layers back to front
    /// (`Low`, `Mid`, `High`, components within one layer in registry
    /// order), present last. The host executes the commands in order and
    /// stops at the first failing draw, leaving the frame unpresented.
    pub fn draw(&self) -> (r: Vec<DrawCommand>)
        ensures
            r@ == draw_plan(self.components@),
    {
        let mut out: Vec<DrawCommand> = Vec::new();
        out.push(DrawCommand::Clear);
        let low = self.draw_by_priority(Priority::Low);
        push_draws(&mut out, &low);
        let mid = self.draw_by_priority(Priority::Mid);
        push_draws(&mut out, &mid);
        let high = self.draw_by_priority(Priority::High);
        push_draws(&mut out, &high);
        out.push(DrawCommand::Present);
        proof {
            assert(out@ =~= draw_plan(self.components@));
        }
        out
    }
}

/// Appends one draw command per kind, in order.
fn push_draws(out: &mut Vec<DrawCommand>, ks: &Vec<ComponentKind>)
    ensures
        final(out)@ == old(out)@ + draws_of(ks@),
{
    let n = ks.len();
    let mut i: usize = 0;
    while i < n
        invariant
            i <= n,
            n == ks@.len(),
            out@ == old(out)@ + draws_of(ks@.take(i as int)),
        decreases n - i,
    {
        out.push(DrawCommand::Draw(ks[i]));
        proof {
            assert(out@ =~= old(out)@ + draws_of(ks@.take(i as int + 1)));
        }
        i += 1;
    }
    proof {
        assert(ks@.take(n as int) =~= ks@);
    }
}

} // verus!
