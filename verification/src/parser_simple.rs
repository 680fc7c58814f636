//! A placeholder parser that yields a document with an empty `div` root.
use vstd::prelude::*;
use crate::ast::{Element, ElementView, GPMLNode, NodeView};
use crate::error::GPMLResult;

verus! {

pub struct GPMLParser {
    pub line: usize,
    pub column: usize,
}

impl GPMLParser {
    pub fn new() -> (p: Self)
        ensures
            p.line == 1 && p.column == 1,
    {
        GPMLParser { line: 1, column: 1 }
    }

    /// Gives a document with no imports, no components and an empty `div`
    /// root, whatever the input.
    pub fn parse(&mut self, _input: &str) -> (r: GPMLResult<GPMLNode>)
        ensures
            r matches Ok(d) && d@ == (NodeView::Document {
                imports: Seq::empty(),
                components: Seq::empty(),
                root: Some(
                    ElementView {
                        tag: "div"@,
                        attributes: Seq::empty(),
                        children: Seq::empty(),
                        self_closing: false,
                    },
                ),
            }),
            *final(self) == *old(self),
    {
        let root = Element::new(String::from_str("div"));
        let d = GPMLNode::Document { imports: Vec::new(), components: Vec::new(), root: Some(root) };
        assert(d@ matches NodeView::Document { imports, components, .. } && imports =~= Seq::<crate::ast::ImportView>::empty() && components =~= Seq::<crate::ast::ComponentView>::empty());
        Ok(d)
    }
}

} // verus!
