use crate::class::Class;
use crate::env::Binding;
use crate::text::same_text;
use crate::value::Value;
use vstd::prelude::*;

verus! {

/// Why an operation on an instance failed.
#[derive(Debug, PartialEq)]
pub enum InstanceError {
    UndefinedProperty { name: String },
}

impl InstanceError {
    /// The words of the error.
    pub open spec fn message_spec(&self) -> Seq<char> {
        match self {
            InstanceError::UndefinedProperty { name } => "undefined property '"@ + name@ + "'"@,
        }
    }

    /// The words of the error.
    pub fn message(&self) -> (r: String)
        ensures
            r@ == self.message_spec(),
    {
        match self {
            InstanceError::UndefinedProperty { name } => {
                let mut s = String::from_str("undefined property '");
                s.append(name.as_str());
                s.append("'");
                s
            },
        }
    }
}

/// A handle on an instance: its place among the instances of the running
/// program, and its class. Two handles stand for the same object when they
/// name the same place.
#[derive(Debug, PartialEq)]
pub struct InstanceRef {
    pub id: usize,
    pub class: Class,
}

impl InstanceRef {
    /// A copy that is equal to the handle.
    pub fn duplicate(&self) -> (r: InstanceRef)
        ensures
            r == *self,
    {
        InstanceRef { id: self.id, class: self.class.duplicate() }
    }
}

struct Field {
    name: String,
    val: Value,
}

/// The properties of an instance: each name has at most one value.
pub struct Fields {
    vals: Vec<Field>,
}

impl Fields {
    /// The properties in the order they were first set.
    pub closed spec fn entries(&self) -> Seq<Binding> {
        Seq::new(
            self.vals@.len(),
            |j: int| Binding { name: self.vals@[j].name@, val: self.vals@[j].val },
        )
    }

    /// No name occurs twice.
    pub open spec fn wf(&self) -> bool {
        forall|i: int, j: int|
            0 <= i < j < self.entries().len() ==> (#[trigger] self.entries()[i]).name != (
            #[trigger] self.entries()[j]).name
    }

    /// The properties as a map from names to values.
    pub open spec fn to_map(&self) -> Map<Seq<char>, Value> {
        Map::new(
            |name: Seq<char>|
                exists|j: int|
                    0 <= j < self.entries().len() && (#[trigger] self.entries()[j]).name == name,
            |name: Seq<char>|
                self.entries()[choose|j: int|
                    0 <= j < self.entries().len() && (#[trigger] self.entries()[j]).name
                        == name].val,
        )
    }

    /// No properties.
    pub fn new() -> (r: Fields)
        ensures
            r.wf(),
            r@ == Map::<Seq<char>, Value>::empty(),
    {
        let r = Fields { vals: Vec::new() };
        assert(r@ =~= Map::<Seq<char>, Value>::empty());
        r
    }

    fn position(&self, name: &str) -> (r: Option<usize>)
        ensures
            match r {
                Some(j) => j < self.entries().len() && self.entries()[j as int].name == name@,
                None => forall|j: int|
                    0 <= j < self.entries().len() ==> (#[trigger] self.entries()[j]).name != name@,
            },
    {
        let mut j: usize = 0;
        while j < self.vals.len()
            invariant
                j <= self.vals@.len(),
                forall|k: int| 0 <= k < j ==> (#[trigger] self.entries()[k]).name != name@,
            decreases self.vals@.len() - j,
        {
            if same_text(self.vals[j].name.as_str(), name) {
                return Some(j);
            }
            j = j + 1;
        }
        None
    }

    /// The value of the property `name`.
    pub fn get(&self, name: &str) -> (r: Option<Value>)
        requires
            self.wf(),
        ensures
            match r {
                Some(v) => self@.contains_key(name@) && self@[name@] == v,
                None => !self@.contains_key(name@),
            },
    {
        match self.position(name) {
            Some(j) => Some(self.vals[j].val.duplicate()),
            None => None,
        }
    }

    /// Gives the property `name` the value `val`, whether or not it had one.
    pub fn set(&mut self, name: &str, val: Value)
        requires
            old(self).wf(),
        ensures
            final(self).wf(),
            final(self)@ == old(self)@.insert(name@, val),
    {
        match self.position(name) {
            Some(j) => {
                self.vals[j] = Field { name: String::from_str(name), val };
                proof {
                    assert forall|k: int| 0 <= k < self.entries().len() implies (
                    #[trigger] self.entries()[k]).name == old(self).entries()[k].name by {}
                    assert(self.wf());
                    assert forall|key: Seq<char>| #[trigger]
                        old(self)@.insert(name@, val).contains_key(key) implies self@.contains_key(
                        key,
                    ) && self@[key] == old(self)@.insert(name@, val)[key] by {
                        if key == name@ {
                            assert(self.entries()[j as int].name == key);
                        } else {
                            let k = choose|k: int|
                                0 <= k < old(self).entries().len() && (#[trigger] old(
                                    self,
                                ).entries()[k]).name == key;
                            assert(self.entries()[k].name == key);
                        }
                    }
                    assert forall|key: Seq<char>| #[trigger]
                        self@.contains_key(key) implies old(self)@.insert(name@, val).contains_key(
                        key,
                    ) by {
                        let k = choose|k: int|
                            0 <= k < self.entries().len() && (#[trigger] self.entries()[k]).name
                                == key;
                        assert(old(self).entries()[k].name == key);
                    }
                    assert(self@ =~= old(self)@.insert(name@, val));
                }
            },
            None => {
                self.vals.push(Field { name: String::from_str(name), val });
                proof {
                    let n = old(self).entries().len() as int;
                    assert forall|k: int| 0 <= k < n implies (#[trigger] self.entries()[k])
                        == old(self).entries()[k] by {}
                    assert(self.entries()[n].name == name@);
                    assert(self.wf());
                    assert forall|key: Seq<char>| #[trigger]
                        old(self)@.insert(name@, val).contains_key(key) implies self@.contains_key(
                        key,
                    ) && self@[key] == old(self)@.insert(name@, val)[key] by {
                        if key == name@ {
                            assert(self.entries()[n].name == key);
                        } else {
                            let k = choose|k: int|
                                0 <= k < old(self).entries().len() && (#[trigger] old(
                                    self,
                                ).entries()[k]).name == key;
                            assert(self.entries()[k].name == key);
                        }
                    }
                    assert forall|key: Seq<char>| #[trigger]
                        self@.contains_key(key) implies old(self)@.insert(name@, val).contains_key(
                        key,
                    ) by {
                        let k = choose|k: int|
                            0 <= k < self.entries().len() && (#[trigger] self.entries()[k]).name
                                == key;
                        if k < n {
                            assert(old(self).entries()[k].name == key);
                        }
                    }
                    assert(self@ =~= old(self)@.insert(name@, val));
                }
            },
        }
    }
}

impl View for Fields {
    type V = Map<Seq<char>, Value>;

    open spec fn view(&self) -> Map<Seq<char>, Value> {
        self.to_map()
    }
}

impl View for Instance {
    type V = Map<Seq<char>, Value>;

    /// The properties as a map from names to values.
    open spec fn view(&self) -> Map<Seq<char>, Value> {
        self.fields_spec()@
    }
}

/// An object: its class and its properties.
pub struct Instance {
    class: Class,
    fields: Fields,
}

impl Instance {
    /// The invariant of the object.
    pub open spec fn wf(&self) -> bool {
        self.fields_spec().wf()
    }

    /// The class of the object.
    pub closed spec fn class_spec(&self) -> Class {
        self.class
    }

    /// The properties of the object.
    pub closed spec fn fields_spec(&self) -> Fields {
        self.fields
    }

    /// An object of the class with the given properties.
    pub fn new(class: Class, fields: Fields) -> (r: Instance)
        requires
            fields.wf(),
        ensures
            r.wf(),
            r.class_spec() == class,
            r@ == fields@,
    {
        Instance { class, fields }
    }

    /// The class of the object.
    pub fn class(&self) -> (r: &Class)
        ensures
            *r == self.class_spec(),
    {
        &self.class
    }

    /// The value of the property `name`; a name that was never set is an
    /// error.
    pub fn get(&self, name: &str) -> (r: Result<Value, InstanceError>)
        requires
            self.wf(),
        ensures
            self@.contains_key(name@) ==> r == Ok::<Value, InstanceError>(self@[name@]),
            !self@.contains_key(name@) ==> r is Err && r->Err_0->UndefinedProperty_name@ == name@,
    {
        match self.fields.get(name) {
            Some(v) => Ok(v),
            None => Err(InstanceError::UndefinedProperty { name: String::from_str(name) }),
        }
    }

    /// Gives the property `name` the value `value`, whether or not it had
    /// one, and returns nil.
    pub fn set(&mut self, name: &str, value: Value) -> (r: Result<Value, InstanceError>)
        requires
            old(self).wf(),
        ensures
            final(self).wf(),
            final(self).class_spec() == old(self).class_spec(),
            final(self)@ == old(self)@.insert(name@, value),
            r == Ok::<Value, InstanceError>(Value::Nil),
    {
        self.fields.set(name, value);
        Ok(Value::Nil)
    }
}

} // verus!
