//! Scene-graph nodes: a named (or anonymously identified) entry carrying a
//! local transform, a derived world transform, child links and owned
//! drawables. Nodes live in the scene graph's arena and refer to their
//! children by arena index.

use vstd::prelude::*;

use crate::drawable::DxDrawable;
use crate::math::Mat4;

verus! {

/// What a node is keyed by among its siblings: its name, or, for anonymous
/// nodes, its numeric identifier.
pub ghost enum NodeKey {
    Named(Seq<char>),
    Anon(u64),
}

/// A scene-graph node.
pub struct Node {
    pub(crate) uuid: u64,
    pub(crate) name: Option<String>,
    pub(crate) local: Mat4,
    pub(crate) world: Mat4,
    pub(crate) children: Vec<usize>,
    pub(crate) drawables: Vec<DxDrawable>,
}

impl Node {
    pub open(crate) spec fn spec_uuid(&self) -> u64 {
        self.uuid
    }

    pub open(crate) spec fn spec_name(&self) -> Option<Seq<char>> {
        match self.name {
            Some(s) => Some(s@),
            None => None,
        }
    }

    /// The node's local transform, as authored.
    pub open(crate) spec fn spec_local(&self) -> Mat4 {
        self.local
    }

    /// The node's world transform, recomputed by the rebuild phase.
    pub open(crate) spec fn spec_world(&self) -> Mat4 {
        self.world
    }

    pub open(crate) spec fn spec_children(&self) -> Seq<usize> {
        self.children@
    }

    pub open(crate) spec fn spec_drawables(&self) -> Seq<DxDrawable> {
        self.drawables@
    }

    /// The key this node occupies in its sibling set.
    pub open spec fn spec_key(&self) -> NodeKey {
        match self.spec_name() {
            Some(s) => NodeKey::Named(s),
            None => NodeKey::Anon(self.spec_uuid()),
        }
    }

    /// Every drawable's material is well-formed, as is its staged transform.
    pub open spec fn drawables_wf(&self) -> bool {
        forall|j: int|
            0 <= j < self.spec_drawables().len() ==> (#[trigger] self.spec_drawables()[j]).spec_material().wf()
                && self.spec_drawables()[j].spec_model().wf()
    }

    /// Creates a detached node with no children. Its identifier is assigned
    /// when it is attached to a scene graph.
    pub fn create(name: Option<&str>, model: Mat4, drawables: Option<Vec<DxDrawable>>) -> (r: Node)
        requires
            model.wf(),
            drawables is Some ==> forall|j: int|
                0 <= j < drawables.unwrap()@.len() ==> (#[trigger] drawables.unwrap()@[j]).spec_material().wf()
                    && drawables.unwrap()@[j].spec_model().wf(),
        ensures
            r.spec_uuid() == 0,
            r.spec_name() == (match name {
                Some(s) => Some(s@),
                None => None::<Seq<char>>,
            }),
            r.spec_local() == model,
            r.spec_world() == model,
            r.spec_children() == Seq::<usize>::empty(),
            r.spec_drawables() == (match drawables {
                Some(d) => d@,
                None => Seq::<DxDrawable>::empty(),
            }),
            r.drawables_wf(),
    {
        let owned_name: Option<String> = match name {
            Some(s) => Some(String::from_str(s)),
            None => None,
        };
        let owned_drawables: Vec<DxDrawable> = match drawables {
            Some(d) => d,
            None => Vec::new(),
        };
        Node {
            uuid: 0,
            name: owned_name,
            local: model,
            world: model,
            children: Vec::new(),
            drawables: owned_drawables,
        }
    }

    pub fn uuid(&self) -> (r: u64)
        ensures
            r == self.spec_uuid(),
    {
        self.uuid
    }

    pub fn name(&self) -> (r: &Option<String>)
        ensures
            *r is Some <==> self.spec_name() is Some,
            *r is Some ==> r.unwrap()@ == self.spec_name().unwrap(),
    {
        &self.name
    }

    pub fn local_transform(&self) -> (r: &Mat4)
        ensures
            *r == self.spec_local(),
    {
        &self.local
    }

    pub fn world_transform(&self) -> (r: &Mat4)
        ensures
            *r == self.spec_world(),
    {
        &self.world
    }

    pub fn child_count(&self) -> (r: usize)
        ensures
            r == self.spec_children().len(),
    {
        self.children.len()
    }

    /// Read access to one owned drawable.
    pub fn drawable_at(&self, j: usize) -> (r: &DxDrawable)
        requires
            j < self.spec_drawables().len(),
        ensures
            *r == self.spec_drawables()[j as int],
    {
        &self.drawables[j]
    }

    pub fn drawable_count(&self) -> (r: usize)
        ensures
            r == self.spec_drawables().len(),
    {
        self.drawables.len()
    }
}

/// Decides string equality.
pub fn str_eq(a: &str, b: &str) -> (r: bool)
    ensures
        r == (a@ == b@),
{
    let sa = String::from_str(a);
    let sb = String::from_str(b);
    sa == sb
}

} // verus!
