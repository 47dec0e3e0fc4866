//! A snapshot of the environment variables that the process was started with.
use vstd::prelude::*;
use vstd::string::*;
use crate::text::same;

verus! {

/// What a list of assignments leaves: the last one to a key counts.
pub open spec fn assigned(vars: Seq<(String, String)>) -> Map<Seq<char>, Seq<char>>
    decreases vars.len(),
{
    if vars.len() == 0 {
        Map::empty()
    } else {
        assigned(vars.drop_last()).insert(vars.last().0@, vars.last().1@)
    }
}

/// The value of a key, if it has one.
pub open spec fn lookup(env: Map<Seq<char>, Seq<char>>, key: Seq<char>) -> Option<Seq<char>> {
    if env.contains_key(key) {
        Some(env[key])
    } else {
        None
    }
}

/// A snapshot of the environment: each variable with its value.
pub struct EnvVars {
    vars: Vec<(String, String)>,
}

impl View for EnvVars {
    type V = Map<Seq<char>, Seq<char>>;

    closed spec fn view(&self) -> Map<Seq<char>, Seq<char>> {
        assigned(self.vars@)
    }
}

impl EnvVars {
    /// No variable is set.
    pub fn new() -> (r: EnvVars)
        ensures
            r@ == Map::<Seq<char>, Seq<char>>::empty(),
    {
        EnvVars { vars: Vec::new() }
    }

    /// Sets a variable; an earlier value of it is gone.
    pub fn set(&mut self, key: &str, value: &str)
        ensures
            final(self)@ == old(self)@.insert(key@, value@),
    {
        let ghost before: Seq<(String, String)> = self.vars@;
        self.vars.push((key.to_owned(), value.to_owned()));
        assert(self.vars@.drop_last() =~= before);
    }

    /// The value of a variable, if it is set.
    pub fn get(&self, key: &str) -> (r: Option<&str>)
        ensures
            crate::text::opt_view(r) == lookup(self@, key@),
    {
        let mut i: usize = self.vars.len();
        assert(self.vars@.take(i as int) =~= self.vars@);
        while i > 0
            invariant
                i <= self.vars.len(),
                lookup(self@, key@) == lookup(assigned(self.vars@.take(i as int)), key@),
            decreases i,
        {
            proof {
                assert(self.vars@.take(i as int).drop_last() =~= self.vars@.take(i - 1));
            }
            if same(self.vars[i - 1].0.as_str(), key) {
                return Some(self.vars[i - 1].1.as_str());
            }
            i = i - 1;
        }
        None
    }

    /// The variables in the order in which they were set; one that was set
    /// more than once occurs as often.
    pub closed spec fn entries(&self) -> Seq<(String, String)> {
        self.vars@
    }

    /// The number of assignments.
    pub fn len(&self) -> (r: usize)
        ensures
            r == self.entries().len(),
    {
        self.vars.len()
    }

    /// The key of one assignment.
    pub fn key(&self, i: usize) -> (r: &str)
        requires
            i < self.entries().len(),
        ensures
            r@ == self.entries()[i as int].0@,
    {
        self.vars[i].0.as_str()
    }
}

/// A variable that was set has its value, one that was set to something else
/// before too, and the others keep theirs; what was never set has none.
pub proof fn law_variables(
    env: Map<Seq<char>, Seq<char>>,
    key: Seq<char>,
    value: Seq<char>,
    other: Seq<char>,
)
    ensures
        lookup(env.insert(key, value), key) == Some(value),
        other != key ==> lookup(env.insert(key, value), other) == lookup(env, other),
        lookup(Map::<Seq<char>, Seq<char>>::empty(), key) is None,
        lookup(env, key) is Some <==> env.contains_key(key),
{
}

/// Of two assignments to a variable the later one counts.
pub proof fn law_later_assignment_counts(vars: Seq<(String, String)>, last: (String, String))
    ensures
        assigned(vars.push(last)) == assigned(vars).insert(last.0@, last.1@),
        assigned(Seq::empty()) == Map::<Seq<char>, Seq<char>>::empty(),
{
    assert(vars.push(last).drop_last() =~= vars);
}

} // verus!
