use vstd::prelude::*;

verus! {

/// Whether a lookup of `name` in `vars` gave `r`: the bound value, or `None`
/// when `name` is unbound.
pub open spec fn looked_up(vars: Map<Seq<char>, Seq<char>>, name: Seq<char>, r: Option<&str>) -> bool {
    match r {
        Some(v) => vars.contains_key(name) && vars[name] == v@,
        None => !vars.contains_key(name),
    }
}

/// A read-only scope of variables.
pub trait Context {
    /// The variables visible in this scope and their values.
    spec fn vars(&self) -> Map<Seq<char>, Seq<char>>;

    fn get_variable(&self, var_name: &str) -> (r: Option<&str>)
        ensures
            looked_up(self.vars(), var_name@, r),
    ;
}

/// A scope layered over another: `child` is consulted first, then `parent`.
pub struct DerivedContext<'d, P, C> {
    pub parent: &'d P,
    pub child: &'d C,
}

impl<'d, P: Context, C: Context> Context for DerivedContext<'d, P, C> {
    open spec fn vars(&self) -> Map<Seq<char>, Seq<char>> {
        self.parent.vars().union_prefer_right(self.child.vars())
    }

    fn get_variable(&self, var_name: &str) -> (r: Option<&str>) {
        match self.child.get_variable(var_name) {
            Some(v) => Some(v),
            None => self.parent.get_variable(var_name),
        }
    }
}

/// The views of a list of name/value pairs.
pub open spec fn pairs_view(b: Seq<(String, String)>) -> Seq<(Seq<char>, Seq<char>)> {
    b.map_values(|p: (String, String)| (p.0@, p.1@))
}

/// The variables that a list of bindings defines; a later binding of a name
/// hides an earlier one.
pub open spec fn binding_map(b: Seq<(Seq<char>, Seq<char>)>) -> Map<Seq<char>, Seq<char>>
    decreases b.len(),
{
    if b.len() == 0 {
        Map::empty()
    } else {
        binding_map(b.drop_last()).insert(b.last().0, b.last().1)
    }
}

proof fn lemma_binding_map_skip(b: Seq<(Seq<char>, Seq<char>)>, i: int, name: Seq<char>)
    requires
        0 <= i <= b.len(),
        forall|k: int| i <= k < b.len() ==> (#[trigger] b[k]).0 != name,
    ensures
        binding_map(b).contains_key(name) == binding_map(b.subrange(0, i)).contains_key(name),
        binding_map(b)[name] == binding_map(b.subrange(0, i))[name],
    decreases b.len() - i,
{
    if i < b.len() {
        lemma_binding_map_skip(b.drop_last(), i, name);
        assert(b.drop_last().subrange(0, i) =~= b.subrange(0, i));
    } else {
        assert(b.subrange(0, i) =~= b);
    }
}

/// Looks `name` up in a list of bindings, the latest binding first.
pub fn lookup_binding<'a>(binds: &'a Vec<(String, String)>, name: &str) -> (r: Option<&'a str>)
    ensures
        looked_up(binding_map(pairs_view(binds@)), name@, r),
{
    let key = String::from_str(name);
    let mut i = binds.len();
    while i > 0
        invariant
            i <= binds@.len(),
            key@ == name@,
            forall|k: int| i <= k < binds@.len() ==> (#[trigger] pairs_view(binds@)[k]).0 != name@,
        decreases i,
    {
        if binds[i - 1].0 == key {
            proof {
                let pv = pairs_view(binds@);
                lemma_binding_map_skip(pv, i as int, name@);
                assert(pv.subrange(0, i as int).drop_last() =~= pv.subrange(0, i - 1));
            }
            return Some(binds[i - 1].1.as_str());
        }
        i = i - 1;
    }
    proof {
        lemma_binding_map_skip(pairs_view(binds@), 0, name@);
    }
    None
}

impl Context for Vec<(String, String)> {
    open spec fn vars(&self) -> Map<Seq<char>, Seq<char>> {
        binding_map(pairs_view(self@))
    }

    fn get_variable(&self, var_name: &str) -> (r: Option<&str>) {
        lookup_binding(self, var_name)
    }
}

} // verus!
