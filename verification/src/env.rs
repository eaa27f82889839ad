use crate::token::Token;
use crate::value::Value;
use vstd::prelude::*;

verus! {

/// A handle on a scope: a frame of the environment, and how many of the
/// bindings that the frame holds can be seen through the handle. A closure
/// keeps the handle that was current when its function was declared, so a
/// name bound in the frame later on stays out of its sight.
#[derive(Clone, Copy, Debug, PartialEq, Eq, Structural)]
pub struct EnvRef {
    pub frame: usize,
    pub cursor: usize,
}

/// Why an operation on the environment failed.
#[derive(Debug, PartialEq)]
pub enum EnvError {
    UndefinedAssign { name: String },
    NotFound { token: Token },
    AlreadyDefined { name: String },
    NoParentEnv,
}

impl EnvError {
    /// Whether an assignment found no binding.
    pub fn is_undefined_assign(&self) -> (r: bool)
        ensures
            r == (*self is UndefinedAssign),
    {
        match self {
            EnvError::UndefinedAssign { .. } => true,
            _ => false,
        }
    }

    /// Whether a lookup found no binding.
    pub fn is_not_found(&self) -> (r: bool)
        ensures
            r == (*self is NotFound),
    {
        match self {
            EnvError::NotFound { .. } => true,
            _ => false,
        }
    }

    /// Whether a name was bound twice in one frame.
    pub fn is_already_defined(&self) -> (r: bool)
        ensures
            r == (*self is AlreadyDefined),
    {
        match self {
            EnvError::AlreadyDefined { .. } => true,
            _ => false,
        }
    }

    /// Whether the global frame was to be left.
    pub fn is_no_parent_env(&self) -> (r: bool)
        ensures
            r == (*self is NoParentEnv),
    {
        match self {
            EnvError::NoParentEnv => true,
            _ => false,
        }
    }

    /// The words of the error.
    pub open spec fn message_spec(&self) -> Seq<char> {
        match self {
            EnvError::UndefinedAssign { name } => "undefined variable in assign '"@ + name@ + "'"@,
            EnvError::NotFound { token } => "undefined variable '"@ + token.lexeme@ + "'"@,
            EnvError::AlreadyDefined { name } => "a binding '"@ + name@
                + "' already exists in this scope"@,
            EnvError::NoParentEnv => "no parent env to restore to"@,
        }
    }

    /// The words of the error.
    pub fn message(&self) -> (r: String)
        ensures
            r@ == self.message_spec(),
    {
        match self {
            EnvError::UndefinedAssign { name } => {
                let mut s = String::from_str("undefined variable in assign '");
                s.append(name.as_str());
                s.append("'");
                s
            },
            EnvError::NotFound { token } => {
                let mut s = String::from_str("undefined variable '");
                s.append(token.lexeme.as_str());
                s.append("'");
                s
            },
            EnvError::AlreadyDefined { name } => {
                let mut s = String::from_str("a binding '");
                s.append(name.as_str());
                s.append("' already exists in this scope");
                s
            },
            EnvError::NoParentEnv => String::from_str("no parent env to restore to"),
        }
    }
}

/// A name and the value bound to it.
pub struct Binding {
    pub name: Seq<char>,
    pub val: Value,
}

/// A frame as contracts see it: the handle on the enclosing scope, and the
/// bindings in the order they were made.
pub struct Scope {
    pub parent: Option<EnvRef>,
    pub bindings: Seq<Binding>,
}

/// The environment as contracts see it: every frame ever made, and the handle
/// on the active scope.
pub struct EnvView {
    pub frames: Seq<Scope>,
    pub current: EnvRef,
}

/// The position of the last of the first `upto` bindings that binds `name`.
pub open spec fn last_binding(bindings: Seq<Binding>, upto: int, name: Seq<char>) -> Option<int>
    decreases upto,
{
    if upto <= 0 || upto > bindings.len() {
        None
    } else if bindings[upto - 1].name == name {
        Some(upto - 1)
    } else {
        last_binding(bindings, upto - 1, name)
    }
}

impl EnvView {
    /// Whether the handle points into this environment.
    pub open spec fn valid(self, at: EnvRef) -> bool {
        at.frame < self.frames.len() && at.cursor <= self.frames[at.frame as int].bindings.len()
    }

    /// Frame 0 is the one frame without a parent, every other frame's parent
    /// was made before it, and the active handle is valid.
    pub open spec fn wf(self) -> bool {
        &&& self.frames.len() > 0
        &&& self.frames[0].parent is None
        &&& forall|i: int|
            0 < i < self.frames.len() ==> {
                &&& (#[trigger] self.frames[i]).parent is Some
                &&& self.frames[i].parent->0.frame < i
                &&& self.valid(self.frames[i].parent->0)
            }
        &&& self.valid(self.current)
    }

    /// How many bindings of its frame a handle sees: all of them in the
    /// global frame, else as many as its cursor says.
    pub open spec fn reach(self, at: EnvRef) -> int {
        if self.frames[at.frame as int].parent is None {
            self.frames[at.frame as int].bindings.len() as int
        } else {
            at.cursor as int
        }
    }

    /// Where the binding of `name` lies that a lookup through `at` finds: the
    /// frame and the position in it. The walk goes from the handle's frame
    /// outward and takes the latest binding in sight.
    pub open spec fn locate(self, at: EnvRef, name: Seq<char>) -> Option<(int, int)>
        decreases at.frame,
    {
        if !self.valid(at) {
            None
        } else {
            let frame = self.frames[at.frame as int];
            match last_binding(frame.bindings, self.reach(at), name) {
                Some(j) => Some((at.frame as int, j)),
                None => match frame.parent {
                    Some(p) => if p.frame < at.frame {
                        self.locate(p, name)
                    } else {
                        None
                    },
                    None => None,
                },
            }
        }
    }

    /// The value that a lookup of `name` through `at` finds.
    pub open spec fn lookup(self, at: EnvRef, name: Seq<char>) -> Option<Value> {
        match self.locate(at, name) {
            Some((f, j)) => Some(self.frames[f].bindings[j].val),
            None => None,
        }
    }

    /// Whether the active frame already binds `name` and is not the global
    /// frame, so that a further definition of it is refused.
    pub open spec fn shadows(self, name: Seq<char>) -> bool {
        let frame = self.frames[self.current.frame as int];
        frame.parent is Some && exists|j: int|
            0 <= j < frame.bindings.len() && (#[trigger] frame.bindings[j]).name == name
    }

    /// The environment after `name` was bound to `val` in the active frame.
    pub open spec fn defined(self, name: Seq<char>, val: Value) -> EnvView {
        let f = self.current.frame as int;
        let frame = self.frames[f];
        EnvView {
            frames: self.frames.update(
                f,
                Scope { parent: frame.parent, bindings: frame.bindings.push(Binding { name, val }) },
            ),
            current: EnvRef { frame: self.current.frame, cursor: (self.current.cursor + 1) as usize },
        }
    }

    /// The environment after the binding at position `j` of frame `f` was
    /// given the value `val`.
    pub open spec fn updated(self, f: int, j: int, val: Value) -> EnvView {
        let frame = self.frames[f];
        EnvView {
            frames: self.frames.update(
                f,
                Scope {
                    parent: frame.parent,
                    bindings: frame.bindings.update(
                        j,
                        Binding { name: frame.bindings[j].name, val },
                    ),
                },
            ),
            current: self.current,
        }
    }

    /// The environment with one more frame, empty, under `parent`.
    pub open spec fn grown(self, parent: EnvRef) -> EnvView {
        EnvView {
            frames: self.frames.push(Scope { parent: Some(parent), bindings: Seq::empty() }),
            current: self.current,
        }
    }

    /// The environment with another active handle.
    pub open spec fn at(self, current: EnvRef) -> EnvView {
        EnvView { frames: self.frames, current }
    }

    /// What every operation keeps of an earlier state `old`: no frame is
    /// lost or gets another parent, and no frame loses a binding or gives a
    /// binding another name.
    pub open spec fn extends(self, old: EnvView) -> bool {
        &&& old.frames.len() <= self.frames.len()
        &&& forall|i: int|
            0 <= i < old.frames.len() ==> {
                &&& (#[trigger] self.frames[i]).parent == old.frames[i].parent
                &&& old.frames[i].bindings.len() <= self.frames[i].bindings.len()
                &&& forall|j: int|
                    0 <= j < old.frames[i].bindings.len() ==> (#[trigger] self.frames[i].bindings[j]).name
                        == old.frames[i].bindings[j].name
            }
    }
}

/// What `extends` keeps of an earlier state is kept over two steps too.
pub proof fn lemma_extends_transitive(a: EnvView, b: EnvView, c: EnvView)
    requires
        b.extends(a),
        c.extends(b),
    ensures
        c.extends(a),
{
    assert forall|i: int| 0 <= i < a.frames.len() implies {
        &&& (#[trigger] c.frames[i]).parent == a.frames[i].parent
        &&& a.frames[i].bindings.len() <= c.frames[i].bindings.len()
        &&& forall|j: int|
            0 <= j < a.frames[i].bindings.len() ==> (#[trigger] c.frames[i].bindings[j]).name
                == a.frames[i].bindings[j].name
    } by {
        assert(b.frames[i].parent == a.frames[i].parent);
        assert forall|j: int| 0 <= j < a.frames[i].bindings.len() implies (
        #[trigger] c.frames[i].bindings[j]).name == a.frames[i].bindings[j].name by {
            assert(b.frames[i].bindings[j].name == a.frames[i].bindings[j].name);
        }
    }
}

/// A handle that pointed into an earlier state points into every later one.
pub proof fn lemma_extends_keeps_valid(a: EnvView, b: EnvView, at: EnvRef)
    requires
        b.extends(a),
        a.valid(at),
    ensures
        b.valid(at),
{
    assert(b.frames[at.frame as int].parent == a.frames[at.frame as int].parent);
}

/// Every state extends itself.
pub proof fn lemma_extends_reflexive(a: EnvView)
    ensures
        a.extends(a),
{
}

struct Record {
    name: String,
    val: Value,
}

struct Frame {
    parent: Option<EnvRef>,
    records: Vec<Record>,
}

impl Frame {
    spec fn scope(&self) -> Scope {
        Scope {
            parent: self.parent,
            bindings: Seq::new(
                self.records@.len(),
                |j: int| Binding { name: self.records@[j].name@, val: self.records@[j].val },
            ),
        }
    }
}

/// The scopes of a running program: an arena of frames, each with a handle
/// on the scope that encloses it, and the handle on the active scope.
pub struct Env {
    frames: Vec<Frame>,
    current: EnvRef,
}

impl View for Env {
    type V = EnvView;

    closed spec fn view(&self) -> EnvView {
        EnvView {
            frames: Seq::new(self.frames@.len(), |i: int| self.frames@[i].scope()),
            current: self.current,
        }
    }
}

impl Env {
    /// The invariant of the environment.
    pub open spec fn wf(&self) -> bool {
        self@.wf()
    }

    /// An environment that holds the global frame, empty, and nothing else.
    pub fn new() -> (r: Env)
        ensures
            r.wf(),
            r@.frames.len() == 1,
            r@.frames[0] == (Scope { parent: None, bindings: Seq::empty() }),
            r@.current == (EnvRef { frame: 0, cursor: 0 }),
    {
        let mut frames: Vec<Frame> = Vec::new();
        frames.push(Frame { parent: None, records: Vec::new() });
        let r = Env { frames, current: EnvRef { frame: 0, cursor: 0 } };
        assert(r@.frames[0].bindings =~= Seq::empty());
        r
    }

    /// The handle on the active scope.
    pub fn current(&self) -> (r: EnvRef)
        ensures
            r == self@.current,
    {
        self.current
    }

    /// Whether the handle points into this environment.
    pub fn is_valid(&self, at: EnvRef) -> (r: bool)
        ensures
            r == self@.valid(at),
    {
        at.frame < self.frames.len() && at.cursor <= self.frames[at.frame].records.len()
    }

    /// The active handle with its cursor set to `cursor`, or to the number of
    /// bindings in the active frame where `cursor` lies beyond them.
    pub fn with_cursor(&self, cursor: usize) -> (r: EnvRef)
        requires
            self.wf(),
        ensures
            r.frame == self@.current.frame,
            self@.valid(r),
            r.cursor == if cursor <= self@.frames[self@.current.frame as int].bindings.len() {
                cursor
            } else {
                self@.frames[self@.current.frame as int].bindings.len() as usize
            },
    {
        let n = self.frames[self.current.frame].records.len();
        EnvRef { frame: self.current.frame, cursor: if cursor <= n { cursor } else { n } }
    }

    /// Makes a new, empty frame under `parent` and returns the handle on it.
    /// The active scope stays.
    pub fn child_of(&mut self, parent: EnvRef) -> (r: EnvRef)
        requires
            old(self).wf(),
            old(self)@.valid(parent),
        ensures
            final(self).wf(),
            final(self)@ == old(self)@.grown(parent),
            final(self)@.extends(old(self)@),
            r == (EnvRef { frame: old(self)@.frames.len() as usize, cursor: 0 }),
            r.frame == old(self)@.frames.len(),
            final(self)@.valid(r),
    {
        let frame = self.frames.len();
        self.frames.push(Frame { parent: Some(parent), records: Vec::new() });
        proof {
            assert(self@.frames =~= old(self)@.grown(parent).frames) by {
                assert(self.frames@[frame as int].scope().bindings =~= Seq::empty());
            }
            assert(self@.wf());
        }
        EnvRef { frame, cursor: 0 }
    }

    /// Makes a new, empty frame under the active scope and returns the handle
    /// on it. The active scope stays.
    pub fn child(&mut self) -> (r: EnvRef)
        requires
            old(self).wf(),
        ensures
            final(self).wf(),
            final(self)@ == old(self)@.grown(old(self)@.current),
            final(self)@.extends(old(self)@),
            r == (EnvRef { frame: old(self)@.frames.len() as usize, cursor: 0 }),
            r.frame == old(self)@.frames.len(),
            final(self)@.valid(r),
    {
        let parent = self.current;
        self.child_of(parent)
    }

    /// Makes `scope` the active scope and returns the handle that was active.
    pub fn enter(&mut self, scope: EnvRef) -> (r: EnvRef)
        requires
            old(self).wf(),
            old(self)@.valid(scope),
        ensures
            final(self).wf(),
            final(self)@ == old(self)@.at(scope),
            final(self)@.extends(old(self)@),
            r == old(self)@.current,
    {
        let before = self.current;
        self.current = scope;
        before
    }

    /// Enters a new, empty frame under the active scope.
    pub fn push(&mut self)
        requires
            old(self).wf(),
        ensures
            final(self).wf(),
            final(self)@ == old(self)@.grown(old(self)@.current).at(
                EnvRef { frame: old(self)@.frames.len() as usize, cursor: 0 },
            ),
            final(self)@.extends(old(self)@),
            final(self)@.frames.len() == old(self)@.frames.len() + 1,
            final(self)@.current.frame == old(self)@.frames.len(),
            final(self)@.current.cursor == 0,
            final(self)@.frames[old(self)@.frames.len() as int] == (Scope {
                parent: Some(old(self)@.current),
                bindings: Seq::empty(),
            }),
    {
        let scope = self.child();
        self.current = scope;
    }

    /// Leaves the active frame for the scope that encloses it. The global
    /// frame cannot be left.
    pub fn pop(&mut self) -> (r: Result<(), EnvError>)
        requires
            old(self).wf(),
        ensures
            final(self).wf(),
            match old(self)@.frames[old(self)@.current.frame as int].parent {
                Some(p) => r is Ok && final(self)@ == old(self)@.at(p),
                None => r == Err::<(), EnvError>(EnvError::NoParentEnv) && final(self)@ == old(
                    self,
                )@,
            },
    {
        match self.frames[self.current.frame].parent {
            Some(p) => {
                proof {
                    if self.current.frame == 0 {
                        assert(self@.frames[0].parent is None);
                    }
                    assert(self@.frames[self.current.frame as int].parent == Some(p));
                }
                self.current = p;
                Ok(())
            },
            None => Err(EnvError::NoParentEnv),
        }
    }

    /// The position of the last of the first `upto` records of frame `f` that
    /// carries `name`.
    fn find(&self, f: usize, upto: usize, name: &str) -> (r: Option<usize>)
        requires
            f < self.frames@.len(),
            upto <= self.frames@[f as int].records@.len(),
        ensures
            match r {
                Some(j) => last_binding(self@.frames[f as int].bindings, upto as int, name@)
                    == Some(j as int) && j < upto && self@.frames[f as int].bindings[j as int].name
                    == name@,
                None => last_binding(self@.frames[f as int].bindings, upto as int, name@) is None,
            },
    {
        let frame = &self.frames[f];
        let mut j: usize = upto;
        while j > 0
            invariant
                f < self.frames@.len(),
                j <= upto <= self.frames@[f as int].records@.len(),
                frame == &self.frames@[f as int],
                last_binding(self@.frames[f as int].bindings, upto as int, name@) == last_binding(
                    self@.frames[f as int].bindings,
                    j as int,
                    name@,
                ),
            decreases j,
        {
            if crate::text::same_text(frame.records[j - 1].name.as_str(), name) {
                return Some(j - 1);
            }
            j = j - 1;
        }
        None
    }

    /// Where the binding of `name` lies that a lookup through `at` finds.
    fn locate(&self, start: EnvRef, name: &str) -> (r: Option<(usize, usize)>)
        requires
            self.wf(),
            self@.valid(start),
        ensures
            match r {
                Some((f, j)) => self@.locate(start, name@) == Some((f as int, j as int))
                    && f < self@.frames.len() && j < self@.frames[f as int].bindings.len()
                    && self@.frames[f as int].bindings[j as int].name == name@,
                None => self@.locate(start, name@) is None,
            },
    {
        let mut at = start;
        loop
            invariant
                self.wf(),
                self@.valid(at),
                self@.locate(at, name@) == self@.locate(start, name@),
            decreases at.frame,
        {
            let frame = &self.frames[at.frame];
            let upto = match frame.parent {
                None => frame.records.len(),
                Some(_) => at.cursor,
            };
            assert(self@.frames[at.frame as int] == self.frames@[at.frame as int].scope());
            assert(upto == self@.reach(at));
            match self.find(at.frame, upto, name) {
                Some(j) => {
                    return Some((at.frame, j));
                },
                None => {},
            }
            match frame.parent {
                Some(p) => {
                    assert(self@.frames[at.frame as int].parent == Some(p));
                    assert(at.frame > 0);
                    assert(self@.locate(at, name@) == self@.locate(p, name@));
                    at = p;
                },
                None => {
                    return None;
                },
            }
        }
    }

    /// Binds `name` to `val` in the active frame. Outside the global frame a
    /// name can be bound once in a frame.
    pub fn define(&mut self, name: &str, val: Value) -> (r: Result<(), EnvError>)
        requires
            old(self).wf(),
        ensures
            final(self).wf(),
            final(self)@.extends(old(self)@),
            final(self)@.current.frame == old(self)@.current.frame,
            final(self)@.current.cursor >= old(self)@.current.cursor,
            old(self)@.shadows(name@) ==> r is Err && r->Err_0 is AlreadyDefined
                && r->Err_0->AlreadyDefined_name@ == name@ && final(self)@ == old(self)@,
            !old(self)@.shadows(name@) ==> r is Ok && final(self)@ == old(self)@.defined(
                name@,
                val,
            ),
    {
        let f = self.current.frame;
        let n = self.frames[f].records.len();
        assert(self@.frames[f as int] == self.frames@[f as int].scope());
        if self.frames[f].parent.is_some() {
            let mut j: usize = 0;
            while j < n
                invariant
                    self.wf(),
                    *self == *old(self),
                    f == self.current.frame,
                    self@.frames[f as int].parent is Some,
                    n == self.frames@[f as int].records@.len(),
                    j <= n,
                    forall|k: int| 0 <= k < j ==> self@.frames[f as int].bindings[k].name != name@,
                decreases n - j,
            {
                if crate::text::same_text(self.frames[f].records[j].name.as_str(), name) {
                    assert(self@.frames[f as int].bindings[j as int].name == name@);
                    return Err(EnvError::AlreadyDefined { name: String::from_str(name) });
                }
                j = j + 1;
            }
        }
        assert(!old(self)@.shadows(name@));
        let record = Record { name: String::from_str(name), val };
        self.frames[f].records.push(record);
        let m = self.frames[f].records.len();
        assert(m == n + 1);
        assert(self.current.cursor <= n);
        assert(self.frames@[f as int].records@ == old(self).frames@[f as int].records@.push(record));
        assert(self.frames@[f as int].parent == old(self).frames@[f as int].parent);
        assert(forall|i: int| 0 <= i < self.frames@.len() && i != f ==> self.frames@[i] == old(self).frames@[i]);
        self.current.cursor = self.current.cursor + 1;
        proof {
            let want = old(self)@.defined(name@, val);
            assert(self@.frames =~= want.frames) by {
                assert forall|i: int| 0 <= i < self@.frames.len() implies self@.frames[i]
                    == want.frames[i] by {
                    if i == f {
                        assert(self@.frames[i].bindings =~= want.frames[i].bindings);
                    } else {
                        assert(self@.frames[i].bindings =~= old(self)@.frames[i].bindings);
                    }
                }
            }
        }
        Ok(())
    }

    /// Gives the nearest binding of `name` in sight the value `val`.
    pub fn assign(&mut self, name: &str, val: Value) -> (r: Result<(), EnvError>)
        requires
            old(self).wf(),
        ensures
            final(self).wf(),
            final(self)@.extends(old(self)@),
            final(self)@.current == old(self)@.current,
            match old(self)@.locate(old(self)@.current, name@) {
                Some((f, j)) => r is Ok && final(self)@ == old(self)@.updated(f, j, val),
                None => r is Err && r->Err_0 is UndefinedAssign
                    && r->Err_0->UndefinedAssign_name@ == name@ && final(self)@ == old(self)@,
            },
    {
        let at = self.current;
        match self.locate(at, name) {
            Some((f, j)) => {
                let record = Record { name: String::from_str(name), val };
                self.frames[f].records[j] = record;
                assert(self.frames@[f as int].records@ == old(self).frames@[f as int].records@.update(
                    j as int,
                    record,
                ));
                assert(self.frames@[f as int].parent == old(self).frames@[f as int].parent);
                assert(forall|i: int|
                    0 <= i < self.frames@.len() && i != f ==> self.frames@[i] == old(
                        self,
                    ).frames@[i]);
                proof {
                    let want = old(self)@.updated(f as int, j as int, val);
                    assert(self@.frames =~= want.frames) by {
                        assert forall|i: int| 0 <= i < self@.frames.len() implies self@.frames[i]
                            == want.frames[i] by {
                            if i == f {
                                assert(self@.frames[i].bindings =~= want.frames[i].bindings);
                            } else {
                                assert(self@.frames[i].bindings =~= old(self)@.frames[i].bindings);
                            }
                        }
                    }
                }
                Ok(())
            },
            None => Err(EnvError::UndefinedAssign { name: String::from_str(name) }),
        }
    }

    /// The value of the nearest binding in sight of the name that `token`
    /// spells.
    pub fn get(&self, token: &Token) -> (r: Result<Value, EnvError>)
        requires
            self.wf(),
        ensures
            match self@.lookup(self@.current, token.lexeme@) {
                Some(v) => r == Ok::<Value, EnvError>(v),
                None => r == Err::<Value, EnvError>(EnvError::NotFound { token: *token }),
            },
    {
        match self.locate(self.current, token.lexeme.as_str()) {
            Some((f, j)) => Ok(self.frames[f].records[j].val.duplicate()),
            None => Err(EnvError::NotFound { token: token.duplicate() }),
        }
    }
}

} // verus!
