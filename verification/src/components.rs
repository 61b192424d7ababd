//! The concrete component kinds and the capability contract they share.

use vstd::prelude::*;

verus! {

/// Draw layer of a component. Layers are rendered back to front: `Low`
/// first, `Mid` second, `High` last.
#[derive(Clone, Copy, Debug, PartialEq, Eq, Structural)]
pub enum Priority {
    Low,
    Mid,
    High,
}

/// Runtime identity of a concrete component kind. The component set is a
/// closed enumeration, so lookup goes by kind and a stored value always has
/// the kind it was registered under; there is no downcast that could
/// mismatch.
#[derive(Clone, Copy, Debug, PartialEq, Eq, Structural)]
pub enum ComponentKind {
    Player,
    PillarContainer,
    Background,
}

/// Axis-aligned rectangle. `x` is the leading edge that the score rule
/// compares against an obstacle's trailing edge.
#[derive(Clone, Copy, Debug, PartialEq, Eq, Structural)]
pub struct Rect {
    pub x: i32,
    pub y: i32,
    pub w: i32,
    pub h: i32,
}

/// One obstacle: a horizontal position and the one-way `passed` flag that
/// records whether the pass has already been credited. The flag is set once
/// and never cleared.
#[derive(Clone, Copy, Debug, PartialEq, Eq, Structural)]
pub struct Pillar {
    pub pos_x: i32,
    pub passed: bool,
}

/// The player entity; its bounding rectangle is the scoring trigger
/// reference.
#[derive(Clone, Copy, Debug, PartialEq, Eq, Structural)]
pub struct Player {
    pub rect: Rect,
}

/// The obstacle-set entity: pillars in storage order, all sharing one width.
/// A pillar's trailing edge is `pos_x + pillar_width`.
#[derive(Clone, Debug, PartialEq, Eq)]
pub struct PillarContainer {
    pub pillar_width: i32,
    pub pillars: Vec<Pillar>,
}

/// The backdrop entity; it only scrolls, so its state is a single offset.
#[derive(Clone, Copy, Debug, PartialEq, Eq, Structural)]
pub struct Background {
    pub offset: i32,
}

/// A registered game object, one variant per concrete kind.
#[derive(Clone, Debug, PartialEq, Eq)]
pub enum Component {
    Player(Player),
    PillarContainer(PillarContainer),
    Background(Background),
}

impl ComponentKind {
    /// The draw layer is fixed per concrete kind: the backdrop behind
    /// everything, the obstacles in the middle, the player on top.
    pub open spec fn spec_priority(self) -> Priority {
        match self {
            ComponentKind::Player => Priority::High,
            ComponentKind::PillarContainer => Priority::Mid,
            ComponentKind::Background => Priority::Low,
        }
    }

    pub fn priority(self) -> (p: Priority)
        ensures
            p == self.spec_priority(),
    {
        match self {
            ComponentKind::Player => Priority::High,
            ComponentKind::PillarContainer => Priority::Mid,
            ComponentKind::Background => Priority::Low,
        }
    }
}

/// The capability contract every game object satisfies: an exact type
/// identity for registry lookup and a priority that places the object in a
/// draw layer. Per-tick update and draw work needs the host runtime (input,
/// time, the render target), so the frame driver receives each tick's update
/// outcomes from the host and hands the draw schedule back to it.
pub trait GameComponent {
    spec fn spec_kind(&self) -> ComponentKind;

    spec fn spec_priority(&self) -> Priority;

    fn kind(&self) -> (k: ComponentKind)
        ensures
            k == self.spec_kind(),
    ;

    fn priority(&self) -> (p: Priority)
        ensures
            p == self.spec_priority(),
    ;
}

impl GameComponent for Player {
    open spec fn spec_kind(&self) -> ComponentKind {
        ComponentKind::Player
    }

    open spec fn spec_priority(&self) -> Priority {
        ComponentKind::Player.spec_priority()
    }

    fn kind(&self) -> (k: ComponentKind) {
        ComponentKind::Player
    }

    fn priority(&self) -> (p: Priority) {
        ComponentKind::Player.priority()
    }
}

impl GameComponent for PillarContainer {
    open spec fn spec_kind(&self) -> ComponentKind {
        ComponentKind::PillarContainer
    }

    open spec fn spec_priority(&self) -> Priority {
        ComponentKind::PillarContainer.spec_priority()
    }

    fn kind(&self) -> (k: ComponentKind) {
        ComponentKind::PillarContainer
    }

    fn priority(&self) -> (p: Priority) {
        ComponentKind::PillarContainer.priority()
    }
}

impl GameComponent for Background {
    open spec fn spec_kind(&self) -> ComponentKind {
        ComponentKind::Background
    }

    open spec fn spec_priority(&self) -> Priority {
        ComponentKind::Background.spec_priority()
    }

    fn kind(&self) -> (k: ComponentKind) {
        ComponentKind::Background
    }

    fn priority(&self) -> (p: Priority) {
        ComponentKind::Background.priority()
    }
}

impl GameComponent for Component {
    open spec fn spec_kind(&self) -> ComponentKind {
        match self {
            Component::Player(_) => ComponentKind::Player,
            Component::PillarContainer(_) => ComponentKind::PillarContainer,
            Component::Background(_) => ComponentKind::Background,
        }
    }

    open spec fn spec_priority(&self) -> Priority {
        self.spec_kind().spec_priority()
    }

    fn kind(&self) -> (k: ComponentKind) {
        match self {
            Component::Player(_) => ComponentKind::Player,
            Component::PillarContainer(_) => ComponentKind::PillarContainer,
            Component::Background(_) => ComponentKind::Background,
        }
    }

    fn priority(&self) -> (p: Priority) {
        self.kind().priority()
    }
}

} // verus!
