use vstd::prelude::*;

verus! {

/// A class at run time: its name, and the number under which it was
/// declared. Two declarations never share a number, so two classes of one name
/// are still two classes.
#[derive(Debug, PartialEq)]
pub struct Class {
    pub name: String,
    pub id: usize,
}

impl Class {
    /// A class of the given name, with the number 0.
    pub fn new(name: &str) -> (r: Class)
        ensures
            r.name@ == name@,
            r.id == 0,
    {
        Class { name: String::from_str(name), id: 0 }
    }

    /// The class under the number `id`.
    pub fn numbered(self, id: usize) -> (r: Class)
        ensures
            r == (Class { name: self.name, id }),
    {
        Class { name: self.name, id }
    }

    /// A copy that is equal to the class.
    pub fn duplicate(&self) -> (r: Class)
        ensures
            r == *self,
    {
        Class { name: self.name.clone(), id: self.id }
    }

    /// Whether both are the same class: the same declaration, not only the
    /// same name.
    pub open spec fn same_spec(&self, other: &Class) -> bool {
        self.id == other.id && self.name@ == other.name@
    }

    /// Whether both are the same class: the same declaration, not only the
    /// same name.
    pub fn same(&self, other: &Class) -> (r: bool)
        ensures
            r == self.same_spec(other),
    {
        self.id == other.id && self.name == other.name
    }
}

} // verus!
