//! Two small components: a greeting, and an application shell around it.

use crate::component::{Component, Effect};
use crate::node::{Node, SpecNode};
use vstd::prelude::*;

verus! {

/// A component without state that greets the world.
pub struct Test;

impl Component for Test {
    type Message = ();

    fn view(&self) -> (node: Node)
        ensures
            node@ == SpecNode::text("Hello world"@),
    {
        Node::text("Hello world")
    }

    fn update(&mut self, message: ()) -> (effect: Option<Effect>)
        ensures
            effect is None,
            *final(self) == *old(self),
    {
        None
    }
}

/// The application: a `div` element around the greeting.
pub struct App;

impl Default for App {
    fn default() -> (app: Self)
        ensures
            app == App,
    {
        App {  }
    }
}

impl Component for App {
    type Message = ();

    fn view(&self) -> (node: Node)
        ensures
            node@ == SpecNode::native("div"@).with_child(
                SpecNode::custom(SpecNode::text("Hello world"@)),
            ),
    {
        Node::native("div").with_child(Node::custom(Box::new(Test {  })))
    }

    fn update(&mut self, message: ()) -> (effect: Option<Effect>)
        ensures
            effect is None,
            *final(self) == *old(self),
    {
        None
    }
}

} // verus!
