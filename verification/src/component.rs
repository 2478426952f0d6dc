//! The component protocol: a stateful unit that renders to a view tree and
//! takes messages.

use crate::node::{Node, SpecNode};
use vstd::prelude::*;

verus! {

/// A side effect that an update asks its host to perform. No effect is
/// defined yet, so no value of this type can be made.
pub struct Effect {
    never: core::convert::Infallible,
}

/// A stateful unit of the interface.
pub trait Component {
    /// What the component is told when something happens.
    type Message;

    /// Renders the current state.
    fn view(&self) -> (node: Node);

    /// Takes a message, changes the state, and may ask for an effect.
    fn update(&mut self, message: Self::Message) -> (effect: Option<Effect>);
}

/// `tree` is the model of a node that `component.view()` may return.
pub open spec fn renders_to<C: Component>(component: &C, tree: SpecNode) -> bool {
    exists|node: Node| call_ensures(C::view, (component,), node) && node@ == tree
}

/// A component of any type, as a view tree owns it once it is rendered.
pub trait AnyComponent {

}

impl<C: Component<Message = ()>> AnyComponent for C {

}

/// A message of any type, as a node holds it for its host.
pub trait AnyMessage {

}

impl<T: 'static> AnyMessage for T {

}

} // verus!
