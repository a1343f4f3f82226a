//! One attribute of a start tag, built up a character at a time while the
//! tokenizer walks the tag.

use vstd::prelude::*;

use crate::chars::push_char;

verus! {

/// Mathematical image of an [`Attribute`]: its name and value as character
/// sequences.
pub struct AttrModel {
    pub name: Seq<char>,
    pub value: Seq<char>,
}

/// A `name=value` pair of a start tag. Both parts grow one character at a
/// time: while the automaton is reading an attribute name, accepted
/// characters go to `name`, afterwards to `value`.
#[derive(Debug, Clone, PartialEq, Eq)]
pub struct Attribute {
    name: String,
    value: String,
}

impl View for Attribute {
    type V = AttrModel;

    closed spec fn view(&self) -> AttrModel {
        AttrModel { name: self.name@, value: self.value@ }
    }
}

impl DeepView for Attribute {
    type V = AttrModel;

    open spec fn deep_view(&self) -> AttrModel {
        self.view()
    }
}

impl Attribute {
    /// An attribute with empty name and empty value.
    pub fn new() -> (r: Self)
        ensures
            r@ == (AttrModel { name: Seq::<char>::empty(), value: Seq::<char>::empty() }),
    {
        Attribute { name: String::new(), value: String::new() }
    }

    /// Appends one character: to the name when `is_name` holds, to the value
    /// otherwise.
    pub fn addr_char(&mut self, c: char, is_name: bool)
        ensures
            is_name ==> final(self)@ == (AttrModel {
                name: old(self)@.name.push(c),
                value: old(self)@.value,
            }),
            !is_name ==> final(self)@ == (AttrModel {
                name: old(self)@.name,
                value: old(self)@.value.push(c),
            }),
    {
        if is_name {
            push_char(&mut self.name, c);
        } else {
            push_char(&mut self.value, c);
        }
    }

    /// The attribute's name.
    pub fn name(&self) -> (r: String)
        ensures
            r@ == self@.name,
    {
        self.name.clone()
    }

    /// The attribute's value.
    pub fn value(&self) -> (r: String)
        ensures
            r@ == self@.value,
    {
        self.value.clone()
    }
}

} // verus!
