use crate::value::Value;
use vstd::prelude::*;

verus! {

/// A variable and its value.
#[derive(Debug, Clone, PartialEq)]
pub struct Binding {
    pub name: String,
    pub value: Value,
}

/// The model of an environment: every binding in order of declaration, and
/// where each open scope begins in that sequence (the root scope first).
pub struct EnvModel {
    pub bindings: Seq<Binding>,
    pub starts: Seq<int>,
}

pub open spec fn model_wf(m: EnvModel) -> bool {
    &&& m.starts.len() >= 1
    &&& m.starts[0] == 0
    &&& forall|i: int| 0 <= i < m.starts.len() ==> #[trigger] m.starts[i] <= m.bindings.len()
    &&& forall|i: int, j: int|
        0 <= i <= j < m.starts.len() ==> #[trigger] m.starts[i] <= #[trigger] m.starts[j]
}

/// The last binding of `name` before index `hi`, or -1.
pub open spec fn find(bs: Seq<Binding>, name: Seq<char>, hi: int) -> int
    decreases hi,
{
    if hi <= 0 {
        -1
    } else if bs[hi - 1].name@ == name {
        hi - 1
    } else {
        find(bs, name, hi - 1)
    }
}

/// The innermost binding of `name`.
pub open spec fn env_find(m: EnvModel, name: Seq<char>) -> int {
    find(m.bindings, name, m.bindings.len() as int)
}

/// The value of `name` in the innermost scope that declares it.
pub open spec fn env_lookup(m: EnvModel, name: Seq<char>) -> Option<Value> {
    let j = env_find(m, name);
    if j >= 0 {
        Some(m.bindings[j].value)
    } else {
        None
    }
}

/// Whether the innermost open scope declares `name`.
pub open spec fn declared_in_innermost(m: EnvModel, name: Seq<char>) -> bool {
    env_find(m, name) >= m.starts.last()
}

pub open spec fn env_declare(m: EnvModel, name: String, value: Value) -> EnvModel {
    EnvModel { bindings: m.bindings.push(Binding { name, value }), starts: m.starts }
}

/// Replaces the value of the innermost binding of `name`.
pub open spec fn env_assign(m: EnvModel, name: Seq<char>, value: Value) -> EnvModel {
    let j = env_find(m, name);
    EnvModel {
        bindings: m.bindings.update(j, Binding { name: m.bindings[j].name, value }),
        starts: m.starts,
    }
}

/// Opens a child scope.
pub open spec fn env_enter(m: EnvModel) -> EnvModel {
    EnvModel { bindings: m.bindings, starts: m.starts.push(m.bindings.len() as int) }
}

/// Closes the innermost scope, dropping its bindings.
pub open spec fn env_exit(m: EnvModel) -> EnvModel {
    EnvModel { bindings: m.bindings.take(m.starts.last()), starts: m.starts.drop_last() }
}

pub proof fn lemma_find_bounds(bs: Seq<Binding>, name: Seq<char>, hi: int)
    requires
        0 <= hi <= bs.len(),
    ensures
        -1 <= find(bs, name, hi) < hi,
        find(bs, name, hi) >= 0 ==> bs[find(bs, name, hi)].name@ == name,
    decreases hi,
{
    if hi > 0 && bs[hi - 1].name@ != name {
        lemma_find_bounds(bs, name, hi - 1);
    }
}

/// Lexically nested scopes, kept as one stack of bindings: a scope is the run
/// of bindings declared since it was opened, and closing it drops them.
pub struct Environment {
    bindings: Vec<Binding>,
    scope_starts: Vec<usize>,
}

impl Environment {
    pub closed spec fn model(&self) -> EnvModel {
        EnvModel {
            bindings: self.bindings@,
            starts: self.scope_starts@.map_values(|s: usize| s as int),
        }
    }

    pub open spec fn wf(&self) -> bool {
        model_wf(self.model())
    }

    /// An environment with an empty root scope.
    pub fn new() -> (r: Environment)
        ensures
            r.wf(),
            r.model().bindings == Seq::<Binding>::empty(),
            r.model().starts == seq![0int],
    {
        let mut scope_starts: Vec<usize> = Vec::new();
        scope_starts.push(0);
        let r = Environment { bindings: Vec::new(), scope_starts };
        proof {
            assert(r.model().starts =~= seq![0int]);
        }
        r
    }

    fn find_index(&self, name: &str) -> (r: Option<usize>)
        requires
            self.wf(),
        ensures
            match r {
                Some(j) => j as int == env_find(self.model(), name@) && j < self.bindings.len(),
                None => env_find(self.model(), name@) == -1,
            },
    {
        proof {
            lemma_find_bounds(self.bindings@, name@, self.bindings.len() as int);
        }
        let target = name.to_owned();
        let mut j = self.bindings.len();
        while j > 0
            invariant
                j <= self.bindings.len(),
                target@ == name@,
                env_find(self.model(), name@) == find(self.bindings@, name@, j as int),
            decreases j,
        {
            if self.bindings[j - 1].name == target {
                return Some(j - 1);
            }
            j = j - 1;
        }
        None
    }

    /// The value of a variable, looked up from the innermost scope outward.
    pub fn lookup(&self, name: &str) -> (r: Option<Value>)
        requires
            self.wf(),
        ensures
            r == env_lookup(self.model(), name@),
    {
        match self.find_index(name) {
            Some(j) => Some(self.bindings[j].value.duplicate()),
            None => None,
        }
    }

    /// Whether the innermost scope declares a name.
    pub fn declares_here(&self, name: &str) -> (r: bool)
        requires
            self.wf(),
        ensures
            r == declared_in_innermost(self.model(), name@),
    {
        let last = self.scope_starts[self.scope_starts.len() - 1];
        match self.find_index(name) {
            Some(j) => j >= last,
            None => false,
        }
    }

    /// Adds a binding to the innermost scope.
    pub fn declare(&mut self, name: String, value: Value)
        requires
            old(self).wf(),
        ensures
            final(self).wf(),
            final(self).model() == env_declare(old(self).model(), name, value),
    {
        self.bindings.push(Binding { name, value });
    }

    /// Replaces the value of the innermost binding of a name; false where no
    /// scope declares it.
    pub fn assign(&mut self, name: &str, value: Value) -> (r: bool)
        requires
            old(self).wf(),
        ensures
            final(self).wf(),
            r == (env_find(old(self).model(), name@) >= 0),
            r ==> final(self).model() == env_assign(old(self).model(), name@, value),
            !r ==> final(self).model() == old(self).model(),
    {
        match self.find_index(name) {
            Some(j) => {
                let binding = Binding { name: self.bindings[j].name.clone(), value };
                self.bindings.set(j, binding);
                proof {
                    assert(self.model().bindings =~= env_assign(
                        old(self).model(),
                        name@,
                        value,
                    ).bindings);
                }
                true
            },
            None => false,
        }
    }

    /// Opens a child scope.
    pub fn enter_scope(&mut self)
        requires
            old(self).wf(),
        ensures
            final(self).wf(),
            final(self).model() == env_enter(old(self).model()),
    {
        let n = self.bindings.len();
        self.scope_starts.push(n);
        proof {
            assert(self.model().starts =~= env_enter(old(self).model()).starts);
        }
    }

    /// Closes the innermost scope; the root scope stays open.
    pub fn exit_scope(&mut self)
        requires
            old(self).wf(),
            old(self).model().starts.len() >= 2,
        ensures
            final(self).wf(),
            final(self).model() == env_exit(old(self).model()),
    {
        let start = self.scope_starts.pop().unwrap();
        self.bindings.truncate(start);
        proof {
            assert(self.model().starts =~= env_exit(old(self).model()).starts);
            assert(self.model().bindings =~= env_exit(old(self).model()).bindings);
        }
    }
}

} // verus!
