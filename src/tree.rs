use vstd::prelude::*;

use rowan::{GreenNode, GreenNodeBuilder};

verus! {

/// A step of tree construction, as `(tag, kind code, token text)`:
/// tag `0` opens a node, `1` adds a token, `2` closes the open node.
pub type BuildEvent = (u8, u16, Seq<char>);

pub open spec fn start_event(kind: u16) -> BuildEvent {
    (0, kind, seq![])
}

pub open spec fn token_event(kind: u16, text: Seq<char>) -> BuildEvent {
    (1, kind, text)
}

pub open spec fn finish_event() -> BuildEvent {
    (2, 0, seq![])
}

/// The number of nodes left open after `ev`.
pub open spec fn open_depth(ev: Seq<BuildEvent>) -> int
    decreases ev.len(),
{
    if ev.len() == 0 {
        0
    } else {
        open_depth(ev.drop_last()) + if ev.last().0 == 0 {
            1int
        } else if ev.last().0 == 2 {
            -1int
        } else {
            0int
        }
    }
}

/// The texts of the token steps of `ev`, concatenated in order: the text of
/// the tree that `ev` builds.
pub open spec fn leaf_text(ev: Seq<BuildEvent>) -> Seq<char>
    decreases ev.len(),
{
    if ev.len() == 0 {
        seq![]
    } else {
        leaf_text(ev.drop_last()) + if ev.last().0 == 1 {
            ev.last().2
        } else {
            seq![]
        }
    }
}

/// `ev` opens one node first, closes it last, and keeps it open in between:
/// it builds exactly one root node.
pub open spec fn single_root(ev: Seq<BuildEvent>) -> bool {
    &&& ev.len() >= 2
    &&& ev[0].0 == 0
    &&& open_depth(ev) == 0
    &&& forall|i: int| 1 <= i < ev.len() ==> open_depth(#[trigger] ev.take(i)) > 0
}

/// The steps recorded by a builder since it was created.
pub uninterp spec fn builder_events(b: GreenNodeBuilder<'static>) -> Seq<BuildEvent>;

/// The steps that build a green tree, read back from the tree in preorder.
pub uninterp spec fn green_events(g: GreenNode) -> Seq<BuildEvent>;

#[verifier::external_type_specification]
#[verifier::external_body]
pub struct ExGreenNodeBuilder<'cache>(GreenNodeBuilder<'cache>);

#[verifier::external_type_specification]
#[verifier::external_body]
pub struct ExGreenNode(GreenNode);

/// Relies on `GreenNodeBuilder::new`: a builder with no node opened and no
/// token added.
#[verifier::external_body]
pub(crate) fn new_builder() -> (r: GreenNodeBuilder<'static>)
    ensures
        builder_events(r) == Seq::<BuildEvent>::empty(),
{
    GreenNodeBuilder::new()
}

/// Relies on `GreenNodeBuilder::start_node`: opens a node of kind `kind`.
#[verifier::external_body]
pub(crate) fn start_node(b: &mut GreenNodeBuilder<'static>, kind: u16)
    ensures
        builder_events(*final(b)) == builder_events(*old(b)).push(start_event(kind)),
{
    b.start_node(rowan::SyntaxKind(kind))
}

/// Relies on `GreenNodeBuilder::token`: adds a token of kind `kind` and text
/// `text` to the open node.
#[verifier::external_body]
pub(crate) fn add_token(b: &mut GreenNodeBuilder<'static>, kind: u16, text: &str)
    ensures
        builder_events(*final(b)) == builder_events(*old(b)).push(token_event(kind, text@)),
{
    b.token(rowan::SyntaxKind(kind), text)
}

/// Relies on `GreenNodeBuilder::finish_node`: closes the open node. It
/// panics when no node is open, and node text lengths are `u32`.
#[verifier::external_body]
pub(crate) fn finish_node(b: &mut GreenNodeBuilder<'static>)
    requires
        open_depth(builder_events(*old(b))) > 0,
        4 * leaf_text(builder_events(*old(b))).len() <= u32::MAX,
    ensures
        builder_events(*final(b)) == builder_events(*old(b)).push(finish_event()),
{
    b.finish_node()
}

/// Relies on `GreenNodeBuilder::finish`: the single root node built by the
/// recorded steps. It panics unless exactly one node was built at the top.
#[verifier::external_body]
pub(crate) fn finish_builder(b: GreenNodeBuilder<'static>) -> (r: GreenNode)
    requires
        single_root(builder_events(b)),
    ensures
        green_events(r) == builder_events(b),
{
    b.finish()
}

} // verus!
