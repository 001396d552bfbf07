use vstd::prelude::*;

verus! {

/// What an environment stands for: each visible local's frame-pointer-relative
/// offset, and the cursor of the next free slot.
pub struct Frame {
    pub locals: Map<Seq<char>, int>,
    pub next_local_offset: int,
}

/// The map that a list of bindings stands for: a later binding of a name
/// replaces an earlier one.
pub open spec fn bindings_map(s: Seq<(String, i64)>) -> Map<Seq<char>, int>
    decreases s.len(),
{
    if s.len() == 0 {
        Map::empty()
    } else {
        bindings_map(s.drop_last()).insert(s.last().0@, s.last().1 as int)
    }
}

/// Parameter `i` of a function lives at offset `4 * i - 16`.
pub open spec fn parameter_map(params: Seq<String>) -> Map<Seq<char>, int>
    decreases params.len(),
{
    if params.len() == 0 {
        Map::empty()
    } else {
        parameter_map(params.drop_last()).insert(
            params.last()@,
            4 * (params.len() - 1) - 16,
        )
    }
}

/// The frame in which a function's body starts: its parameters in the four
/// spill slots, and the first free slot just below them.
pub open spec fn parameter_frame(params: Seq<String>) -> Frame {
    Frame { locals: parameter_map(params), next_local_offset: -20 }
}

/// The frame after a declaration of `name` in frame `f`: the name is bound to
/// the slot just pushed, and the cursor moves down by one 8-byte slot.
pub open spec fn declare_in(f: Frame, name: Seq<char>) -> Frame {
    Frame {
        locals: f.locals.insert(name, f.next_local_offset - 4),
        next_local_offset: f.next_local_offset - 8,
    }
}

/// The locals of one function being emitted. All blocks of a function share it.
pub struct Environment {
    pub locals: Vec<(String, i64)>,
    pub next_local_offset: i64,
}

impl View for Environment {
    type V = Frame;

    open spec fn view(&self) -> Frame {
        Frame {
            locals: bindings_map(self.locals@),
            next_local_offset: self.next_local_offset as int,
        }
    }
}

proof fn lemma_bindings_prefix(s: Seq<(String, i64)>, i: int, name: Seq<char>)
    requires
        0 <= i <= s.len(),
        forall|j: int| i <= j < s.len() ==> (#[trigger] s[j]).0@ != name,
    ensures
        bindings_map(s).contains_key(name) == bindings_map(s.take(i)).contains_key(name),
        bindings_map(s).contains_key(name) ==> bindings_map(s)[name] == bindings_map(
            s.take(i),
        )[name],
    decreases s.len(),
{
    if i < s.len() {
        assert(s.last() == s[s.len() - 1]);
        lemma_bindings_prefix(s.drop_last(), i, name);
        assert(s.drop_last().take(i) =~= s.take(i));
    } else {
        assert(s.take(i) =~= s);
    }
}

impl Environment {
    /// An empty environment whose first slot is at offset 0.
    pub fn new() -> (r: Environment)
        ensures
            r@.locals == Map::<Seq<char>, int>::empty(),
            r@.next_local_offset == 0,
    {
        Environment { locals: Vec::new(), next_local_offset: 0 }
    }

    /// The environment in which a function's body is emitted.
    pub fn for_parameters(params: &Vec<String>) -> (r: Environment)
        requires
            params.len() <= 4,
        ensures
            r@ == parameter_frame(params@),
    {
        let mut locals: Vec<(String, i64)> = Vec::new();
        let mut i: usize = 0;
        while i < params.len()
            invariant
                i <= params.len() <= 4,
                bindings_map(locals@) == parameter_map(params@.take(i as int)),
            decreases params.len() - i,
        {
            let offset: i64 = 4 * (i as i64) - 16;
            let ghost before = locals@;
            locals.push((params[i].clone(), offset));
            proof {
                assert(locals@.drop_last() =~= before);
                assert(params@.take(i + 1).drop_last() =~= params@.take(i as int));
            }
            i = i + 1;
        }
        assert(params@.take(params.len() as int) =~= params@);
        Environment { locals, next_local_offset: -20 }
    }

    /// The offset of `name`, if it is bound.
    pub fn lookup(&self, name: &String) -> (r: Option<i64>)
        ensures
            r.is_some() == self@.locals.contains_key(name@),
            r.is_some() ==> r.unwrap() as int == self@.locals[name@],
    {
        let mut i: usize = self.locals.len();
        while i > 0
            invariant
                i <= self.locals.len(),
                forall|j: int|
                    i <= j < self.locals.len() ==> (#[trigger] self.locals@[j]).0@ != name@,
            decreases i,
        {
            if self.locals[i - 1].0 == *name {
                proof {
                    let s = self.locals@;
                    lemma_bindings_prefix(s, i as int, name@);
                    assert(s.take(i as int).drop_last() =~= s.take(i - 1));
                    assert(s.take(i as int).last() == s[i - 1]);
                }
                return Some(self.locals[i - 1].1);
            }
            i = i - 1;
        }
        proof {
            lemma_bindings_prefix(self.locals@, 0, name@);
        }
        None
    }

    /// A copy of this environment, binding for binding.
    pub fn duplicate(&self) -> (r: Environment)
        ensures
            r.locals@ == self.locals@,
            r.next_local_offset == self.next_local_offset,
            r@ == self@,
    {
        let mut locals: Vec<(String, i64)> = Vec::new();
        let mut i: usize = 0;
        while i < self.locals.len()
            invariant
                i <= self.locals.len(),
                locals@ == self.locals@.take(i as int),
            decreases self.locals.len() - i,
        {
            let name = self.locals[i].0.clone();
            let offset = self.locals[i].1;
            locals.push((name, offset));
            proof {
                assert(locals@ =~= self.locals@.take(i + 1));
            }
            i = i + 1;
        }
        assert(locals@ =~= self.locals@);
        Environment { locals, next_local_offset: self.next_local_offset }
    }

    /// Binds `name` to the slot just below the cursor and moves the cursor down
    /// by one slot; returns the offset bound.
    pub fn declare(&mut self, name: &String) -> (r: i64)
        requires
            old(self).next_local_offset >= i64::MIN + 8,
        ensures
            final(self)@ == declare_in(old(self)@, name@),
            r as int == old(self)@.next_local_offset - 4,
    {
        let offset = self.next_local_offset - 4;
        self.locals.push((name.clone(), offset));
        self.next_local_offset = self.next_local_offset - 8;
        proof {
            assert(self.locals@.drop_last() =~= old(self).locals@);
        }
        offset
    }
}

impl Default for Environment {
    fn default() -> (r: Environment)
        ensures
            r@.locals == Map::<Seq<char>, int>::empty(),
            r@.next_local_offset == 0,
    {
        Environment::new()
    }
}

} // verus!
