//! The lexical-scope tracker that serves the emitter.
//!
//! It keeps the stack of declared locals and the current scope depth; depth
//! zero is the global scope. A local is pushed on declaration with no depth
//! yet — the mark of *declared but not defined*, which guards against a
//! local read in its own initializer — and receives the current depth once
//! its initializer has been emitted. A local's position in the stack is the
//! operand-stack slot the virtual machine will hold it in.

use vstd::prelude::*;

use crate::token::Token;

verus! {

/// One declared local: its name token and the scope depth it was defined at,
/// or `None` while it is declared but not yet defined.
pub struct Local {
    pub name: Token,
    pub depth: Option<usize>,
}

/// What resolving a name against the locals found.
#[derive(Debug, Copy, Clone, PartialEq, Eq, Structural)]
pub enum LocalResolution {
    /// The name is a local in the given operand-stack slot.
    Slot(usize),
    /// The name matches a local that is still being initialized.
    OwnInitializer,
    /// No local of that name: the name is a global.
    Absent,
}

/// Whether a local counts as defined above the given depth: one still
/// without a depth never does.
pub open spec fn defined_deeper(l: Local, d: int) -> bool {
    match l.depth {
        Some(ld) => ld > d,
        None => false,
    }
}

/// The locals that survive leaving to depth `d`: trailing locals defined
/// deeper than `d` are dropped.
pub open spec fn trim_locals(locals: Seq<Local>, d: int) -> Seq<Local>
    decreases locals.len(),
{
    if locals.len() > 0 && defined_deeper(locals.last(), d) {
        trim_locals(locals.drop_last(), d)
    } else {
        locals
    }
}

/// What resolving `name` against `locals`, walked from the innermost local
/// outward, returns.
pub open spec fn resolve_spec(locals: Seq<Local>, name: Seq<char>) -> LocalResolution
    decreases locals.len(),
{
    if locals.len() == 0 {
        LocalResolution::Absent
    } else if locals.last().name.lexem@ == name {
        if locals.last().depth is None {
            LocalResolution::OwnInitializer
        } else {
            LocalResolution::Slot((locals.len() - 1) as usize)
        }
    } else {
        resolve_spec(locals.drop_last(), name)
    }
}

/// Whether `name` is already declared among the locals of the current scope
/// depth: the walk from the innermost local outward stops at the first local
/// defined in an enclosing scope.
pub open spec fn declared_here_spec(locals: Seq<Local>, name: Seq<char>, depth: int) -> bool
    decreases locals.len(),
{
    if locals.len() == 0 {
        false
    } else if locals.last().depth is Some && locals.last().depth.unwrap() < depth {
        false
    } else if locals.last().name.lexem@ == name {
        true
    } else {
        declared_here_spec(locals.drop_last(), name, depth)
    }
}

/// The stack of declared locals and the current scope depth.
pub struct ScopeTracker {
    pub locals: Vec<Local>,
    pub scope_depth: usize,
}

impl ScopeTracker {
    /// A tracker at global scope with no locals.
    pub fn new() -> (s: Self)
        ensures
            s.locals@ == Seq::<Local>::empty(),
            s.scope_depth == 0,
    {
        ScopeTracker { locals: Vec::new(), scope_depth: 0 }
    }

    /// Enters one scope.
    pub fn begin(&mut self)
        requires
            old(self).scope_depth < usize::MAX,
        ensures
            final(self).scope_depth == old(self).scope_depth + 1,
            final(self).locals == old(self).locals,
    {
        self.scope_depth = self.scope_depth + 1;
    }

    /// Leaves one scope: drops the locals that went out of scope and returns
    /// how many were dropped, so the emitter can pop each one.
    pub fn end(&mut self) -> (count: usize)
        requires
            old(self).scope_depth >= 1,
        ensures
            final(self).scope_depth == old(self).scope_depth - 1,
            final(self).locals@ == trim_locals(
                old(self).locals@,
                old(self).scope_depth - 1,
            ),
            count == old(self).locals@.len() - final(self).locals@.len(),
    {
        self.scope_depth = self.scope_depth - 1;
        let total = self.locals.len();
        let mut count: usize = 0;

        loop
            invariant
                total == old(self).locals@.len(),
                count <= old(self).locals@.len(),
                self.locals@.len() == old(self).locals@.len() - count,
                self.scope_depth == old(self).scope_depth - 1,
                trim_locals(old(self).locals@, self.scope_depth as int) == trim_locals(
                    self.locals@,
                    self.scope_depth as int,
                ),
            ensures
                self.locals@ == trim_locals(self.locals@, self.scope_depth as int),
            decreases self.locals@.len(),
        {
            let n = self.locals.len();
            if n == 0 {
                break ;
            }
            let deeper = match self.locals[n - 1].depth {
                Some(d) => d > self.scope_depth,
                None => false,
            };
            if !deeper {
                break ;
            }
            proof {
                assert(self.locals@.drop_last() =~= self.locals@.subrange(0, n - 1));
            }
            assert(count < old(self).locals@.len());
            self.locals.pop();
            count = count + 1;
        }

        count
    }

    /// Whether the tracker stands at global scope.
    pub fn is_global(&self) -> (r: bool)
        ensures
            r == (self.scope_depth == 0),
    {
        self.scope_depth == 0
    }

    /// Declares a local: pushes it with no depth yet.
    pub fn add_local(&mut self, name: Token)
        ensures
            final(self).locals@ == old(self).locals@.push(Local { name, depth: None }),
            final(self).scope_depth == old(self).scope_depth,
    {
        self.locals.push(Local { name, depth: None });
    }

    /// Marks the most recently declared local as defined at the current
    /// depth.
    pub fn define_last(&mut self)
        requires
            old(self).locals@.len() > 0,
        ensures
            final(self).scope_depth == old(self).scope_depth,
            final(self).locals@ == old(self).locals@.update(
                old(self).locals@.len() - 1,
                Local {
                    name: old(self).locals@.last().name,
                    depth: Some(old(self).scope_depth),
                },
            ),
    {
        let n = self.locals.len();
        let name = self.locals[n - 1].name.clone();
        self.locals.set(n - 1, Local { name, depth: Some(self.scope_depth) });
    }

    /// Resolves a name against the declared locals, from the innermost
    /// outward: its slot, the mark of a read in its own initializer, or
    /// nothing where the name must be a global.
    pub fn locate_local(&self, name: &str) -> (r: LocalResolution)
        ensures
            r == resolve_spec(self.locals@, name@),
    {
        let needle = name.to_owned();
        let mut i = self.locals.len();
        proof {
            assert(self.locals@.subrange(0, self.locals@.len() as int) =~= self.locals@);
        }

        loop
            invariant
                i <= self.locals@.len(),
                needle@ == name@,
                resolve_spec(self.locals@, name@) == resolve_spec(
                    self.locals@.subrange(0, i as int),
                    name@,
                ),
            decreases i,
        {
            if i == 0 {
                proof {
                    assert(self.locals@.subrange(0, 0) =~= Seq::<Local>::empty());
                }
                return LocalResolution::Absent;
            }
            let ghost prefix = self.locals@.subrange(0, i as int);
            proof {
                assert(prefix.last() == self.locals@[i - 1]);
                assert(prefix.drop_last() =~= self.locals@.subrange(0, i - 1));
            }
            if self.locals[i - 1].name.lexem == needle {
                let defined = self.locals[i - 1].depth.is_some();
                if defined {
                    return LocalResolution::Slot(i - 1);
                }
                return LocalResolution::OwnInitializer;
            }
            i = i - 1;
        }
    }

    /// Whether `name` is already declared among the locals of the current
    /// scope.
    pub fn declared_in_scope(&self, name: &str) -> (r: bool)
        ensures
            r == declared_here_spec(self.locals@, name@, self.scope_depth as int),
    {
        let needle = name.to_owned();
        let mut i = self.locals.len();
        proof {
            assert(self.locals@.subrange(0, self.locals@.len() as int) =~= self.locals@);
        }

        loop
            invariant
                i <= self.locals@.len(),
                needle@ == name@,
                declared_here_spec(self.locals@, name@, self.scope_depth as int)
                    == declared_here_spec(
                    self.locals@.subrange(0, i as int),
                    name@,
                    self.scope_depth as int,
                ),
            decreases i,
        {
            if i == 0 {
                proof {
                    assert(self.locals@.subrange(0, 0) =~= Seq::<Local>::empty());
                }
                return false;
            }
            let ghost prefix = self.locals@.subrange(0, i as int);
            proof {
                assert(prefix.last() == self.locals@[i - 1]);
                assert(prefix.drop_last() =~= self.locals@.subrange(0, i - 1));
            }
            let stop = match self.locals[i - 1].depth {
                Some(d) => d < self.scope_depth,
                None => false,
            };
            if stop {
                return false;
            }
            if self.locals[i - 1].name.lexem == needle {
                return true;
            }
            i = i - 1;
        }
    }
}

} // verus!
