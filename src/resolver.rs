use vstd::prelude::*;

use crate::context::{binding_map, lookup_binding, pairs_view, Context};
use crate::error::{Error, Fault, Result};
use crate::segment_tree::{assigns_view, lemma_assigns_view, lemma_segs_view, seg_view, Seg, Segment, SegmentTree};
use crate::text::{count_of, decimal, decimal_string, is_truthy, parse_count, trim, trimmed, truthy};

verus! {

broadcast use vstd::std_specs::vec::group_vec_axioms, vstd::seq::group_seq_axioms;

pub type Vars = Map<Seq<char>, Seq<char>>;

/// The name under which a loop body sees its iteration index.
pub open spec fn loop_index_name() -> Seq<char> {
    seq!['L', 'O', 'O', 'P', '_', 'I', 'N', 'D', 'E', 'X']
}

/// The output of the first `i` segments of `t` under `vars`, or the first error.
pub open spec fn render_prefix(t: Seq<Seg>, i: nat, vars: Vars) -> core::result::Result<Seq<char>, Fault>
    decreases t, 1nat, i,
{
    if i == 0 || i > t.len() {
        Ok(Seq::empty())
    } else {
        match render_prefix(t, (i - 1) as nat, vars) {
            Err(e) => Err(e),
            Ok(a) => match render_seg(t[i - 1], vars) {
                Err(e) => Err(e),
                Ok(b) => Ok(a + b),
            },
        }
    }
}

/// The output of one segment under `vars`, or the first error.
pub open spec fn render_seg(s: Seg, vars: Vars) -> core::result::Result<Seq<char>, Fault>
    decreases s, 0nat, 0nat,
{
    match s {
        Seg::Text(t) => Ok(t),
        Seg::Variable(n) => match render_prefix(n, n.len(), vars) {
            Err(e) => Err(e),
            Ok(x) => {
                let k = trimmed(x);
                if vars.contains_key(k) {
                    Ok(vars[k])
                } else {
                    Err(Fault::NoSuchVariable(k))
                }
            },
        },
        Seg::Not(v) => match render_prefix(v, v.len(), vars) {
            Err(e) => Err(e),
            Ok(x) => Ok(
                if truthy(trimmed(x)) {
                    seq!['0']
                } else {
                    seq!['1']
                },
            ),
        },
        Seg::If(c, b) => match render_prefix(c, c.len(), vars) {
            Err(e) => Err(e),
            Ok(x) => if truthy(trimmed(x)) {
                render_prefix(b, b.len(), vars)
            } else {
                Ok(Seq::empty())
            },
        },
        Seg::Loop(c, b) => match render_prefix(c, c.len(), vars) {
            Err(e) => Err(e),
            Ok(x) => match count_of(trimmed(x)) {
                None => Err(Fault::ShouldBeInteger(trimmed(x))),
                Some(n) => render_iters(b, vars, n),
            },
        },
        Seg::With(a, b) => match render_binds(a, a.len(), vars) {
            Err(e) => Err(e),
            Ok(inner) => render_prefix(b, b.len(), inner),
        },
    }
}

/// The output of the first `n` iterations of a loop body, iteration `j` seeing
/// the loop index bound to the decimal digits of `j`.
pub open spec fn render_iters(b: Seq<Seg>, vars: Vars, n: nat) -> core::result::Result<Seq<char>, Fault>
    decreases b, 2nat, n,
{
    if n == 0 {
        Ok(Seq::empty())
    } else {
        match render_iters(b, vars, (n - 1) as nat) {
            Err(e) => Err(e),
            Ok(x) => match render_prefix(b, b.len(), vars.insert(loop_index_name(), decimal((n - 1) as nat))) {
                Err(e) => Err(e),
                Ok(y) => Ok(x + y),
            },
        }
    }
}

/// The scope after the first `k` assignments of a `With` block, each one
/// resolved in the scope that the ones before it made.
pub open spec fn render_binds(a: Seq<(Seq<Seg>, Seq<Seg>)>, k: nat, vars: Vars) -> core::result::Result<Vars, Fault>
    decreases a, 2nat, k,
{
    if k == 0 || k > a.len() {
        Ok(vars)
    } else {
        match render_binds(a, (k - 1) as nat, vars) {
            Err(e) => Err(e),
            Ok(v) => match render_prefix(a[k - 1].0, a[k - 1].0.len(), v) {
                Err(e) => Err(e),
                Ok(name) => match render_prefix(a[k - 1].1, a[k - 1].1.len(), v) {
                    Err(e) => Err(e),
                    Ok(value) => Ok(v.insert(trimmed(name), value)),
                },
            },
        }
    }
}

/// The output of a whole tree under `vars`, or the first error.
pub open spec fn render(t: Seq<Seg>, vars: Vars) -> core::result::Result<Seq<char>, Fault> {
    render_prefix(t, t.len(), vars)
}

/// The variables seen by the resolver: the caller's context, under the
/// bindings made by enclosing loops and `With` blocks.
pub open spec fn scope(base: Vars, binds: Seq<(String, String)>) -> Vars {
    base.union_prefer_right(binding_map(pairs_view(binds)))
}

/// The sink holds what it held before, then `out`, when `m` is a success; the
/// result is the same error as `m` otherwise.
pub open spec fn wrote(r: Result<()>, m: core::result::Result<Seq<char>, Fault>, before: Seq<char>, after: Seq<char>) -> bool {
    match m {
        Ok(out) => r is Ok && after == before + out,
        Err(e) => r is Err && r->Err_0@ == e,
    }
}

proof fn lemma_scope_push(base: Vars, b: Seq<(String, String)>, p: (String, String))
    ensures
        scope(base, b.push(p)) == scope(base, b).insert(p.0@, p.1@),
{
    assert(pairs_view(b.push(p)).drop_last() =~= pairs_view(b));
    assert(scope(base, b.push(p)) =~= scope(base, b).insert(p.0@, p.1@));
}

fn resolve_text(f: &mut String, text: &str)
    ensures
        final(f)@ == old(f)@ + text@,
{
    f.append(text);
}

fn resolve_tree_str<C: Context>(tree: &SegmentTree, context: &C, binds: &mut Vec<(String, String)>) -> (r: Result<String>)
    ensures
        final(binds)@ == old(binds)@,
        match render(tree@, scope(context.vars(), old(binds)@)) {
            Ok(out) => r is Ok && r->Ok_0@ == out,
            Err(e) => r is Err && r->Err_0@ == e,
        },
    decreases *tree, 2nat,
{
    let mut res = String::new();
    match resolve_in(&mut res, tree, context, binds) {
        Ok(()) => Ok(res),
        Err(e) => Err(e),
    }
}

fn resolve_in<C: Context>(f: &mut String, tree: &SegmentTree, context: &C, binds: &mut Vec<(String, String)>) -> (r: Result<()>)
    ensures
        final(binds)@ == old(binds)@,
        wrote(r, render(tree@, scope(context.vars(), old(binds)@)), old(f)@, final(f)@),
    decreases *tree, 1nat,
{
    let ghost vars = scope(context.vars(), binds@);
    let ghost start = f@;
    proof {
        lemma_segs_view(*tree, tree.segments@.len());
    }
    let mut i: usize = 0;
    while i < tree.segments.len()
        invariant
            i <= tree.segments@.len(),
            binds@ == old(binds)@,
            vars == scope(context.vars(), binds@),
            render_prefix(tree@, i as nat, vars) is Ok,
            f@ == start + render_prefix(tree@, i as nat, vars)->Ok_0,
            tree@.len() == tree.segments@.len(),
            forall|k: int| 0 <= k < tree@.len() ==> #[trigger] tree@[k] == seg_view(tree.segments@[k]),
        decreases tree.segments@.len() - i,
    {
        match resolve_segment(f, &tree.segments[i], context, binds) {
            Ok(()) => {},
            Err(e) => {
                proof {
                    lemma_prefix_err(tree@, (i + 1) as nat, tree@.len(), vars);
                }
                return Err(e);
            },
        }
        i = i + 1;
    }
    Ok(())
}

fn resolve_segment<C: Context>(f: &mut String, segment: &Segment, context: &C, binds: &mut Vec<(String, String)>) -> (r: Result<()>)
    ensures
        final(binds)@ == old(binds)@,
        wrote(r, render_seg(segment@, scope(context.vars(), old(binds)@)), old(f)@, final(f)@),
    decreases *segment, 5nat,
{
    match segment {
        Segment::Text(text) => {
            resolve_text(f, text);
            Ok(())
        },
        Segment::Not(val_tree) => resolve_not(f, val_tree, context, binds),
        Segment::Loop { count, contents } => resolve_loop(f, count, contents, context, binds, Ghost(*segment)),
        Segment::If { condition, contents } => resolve_if(f, condition, contents, context, binds, Ghost(*segment)),
        Segment::Variable { name } => resolve_variable(f, name, context, binds),
        Segment::With { assignments, contents } => resolve_with(f, assignments, contents, context, binds, Ghost(*segment)),
    }
}

fn resolve_not<C: Context>(f: &mut String, val_tree: &SegmentTree, context: &C, binds: &mut Vec<(String, String)>) -> (r: Result<()>)
    ensures
        final(binds)@ == old(binds)@,
        wrote(r, render_seg(Seg::Not(val_tree@), scope(context.vars(), old(binds)@)), old(f)@, final(f)@),
    decreases *val_tree, 3nat,
{
    let val_str = match resolve_tree_str(val_tree, context, binds) {
        Ok(s) => s,
        Err(e) => return Err(e),
    };
    proof {
        reveal_strlit("0");
        reveal_strlit("1");
    }
    if is_truthy(trim(val_str.as_str())) {
        assert("0"@ =~= seq!['0']);
        f.append("0");
    } else {
        assert("1"@ =~= seq!['1']);
        f.append("1");
    }
    Ok(())
}

fn resolve_if<C: Context>(f: &mut String, condition: &SegmentTree, contents: &SegmentTree, context: &C, binds: &mut Vec<(String, String)>, Ghost(parent): Ghost<Segment>) -> (r: Result<()>)
    requires
        parent == (Segment::If { condition: *condition, contents: *contents }),
    ensures
        final(binds)@ == old(binds)@,
        wrote(r, render_seg(Seg::If(condition@, contents@), scope(context.vars(), old(binds)@)), old(f)@, final(f)@),
    decreases parent, 4nat,
{
    proof {
        assert(decreases_to!(parent => parent->If_condition));
        assert(decreases_to!(parent => parent->If_contents));
    }
    let condition_str = match resolve_tree_str(condition, context, binds) {
        Ok(s) => s,
        Err(e) => return Err(e),
    };
    if is_truthy(trim(condition_str.as_str())) {
        resolve_in(f, contents, context, binds)
    } else {
        assert(f@ =~= old(f)@ + Seq::<char>::empty());
        Ok(())
    }
}

fn resolve_variable<C: Context>(f: &mut String, name: &SegmentTree, context: &C, binds: &mut Vec<(String, String)>) -> (r: Result<()>)
    ensures
        final(binds)@ == old(binds)@,
        wrote(r, render_seg(Seg::Variable(name@), scope(context.vars(), old(binds)@)), old(f)@, final(f)@),
    decreases *name, 3nat,
{
    let resolved_name = match resolve_tree_str(name, context, binds) {
        Ok(s) => s,
        Err(e) => return Err(e),
    };
    let trimmed_name = trim(resolved_name.as_str());
    match lookup_binding(binds, trimmed_name) {
        Some(v) => {
            resolve_text(f, v);
            Ok(())
        },
        None => match context.get_variable(trimmed_name) {
            Some(v) => {
                resolve_text(f, v);
                Ok(())
            },
            None => Err(Error::NoSuchVariable(String::from_str(trimmed_name))),
        },
    }
}

fn resolve_loop<C: Context>(f: &mut String, count: &SegmentTree, contents: &SegmentTree, context: &C, binds: &mut Vec<(String, String)>, Ghost(parent): Ghost<Segment>) -> (r: Result<()>)
    requires
        parent == (Segment::Loop { count: *count, contents: *contents }),
    ensures
        final(binds)@ == old(binds)@,
        wrote(r, render_seg(Seg::Loop(count@, contents@), scope(context.vars(), old(binds)@)), old(f)@, final(f)@),
    decreases parent, 4nat,
{
    proof {
        assert(decreases_to!(parent => parent->Loop_count));
        assert(decreases_to!(parent => parent->Loop_contents));
    }
    let ghost vars = scope(context.vars(), binds@);
    let count_str = match resolve_tree_str(count, context, binds) {
        Ok(s) => s,
        Err(e) => return Err(e),
    };
    let trimmed_count = trim(count_str.as_str());
    let count_int = match parse_count(trimmed_count) {
        Some(n) => n,
        None => return Err(Error::ShouldBeInteger(String::from_str(trimmed_count))),
    };
    let ghost start = f@;
    assert(render_seg(Seg::Loop(count@, contents@), vars) == render_iters(contents@, vars, count_int as nat));
    let mut index: u32 = 0;
    assert(f@ =~= start + Seq::<char>::empty());
    while index < count_int
        invariant
            index <= count_int,
            parent == (Segment::Loop { count: *count, contents: *contents }),
            render_seg(Seg::Loop(count@, contents@), vars) == render_iters(contents@, vars, count_int as nat),
            binds@ == old(binds)@,
            vars == scope(context.vars(), binds@),
            render_iters(contents@, vars, index as nat) is Ok,
            f@ == start + render_iters(contents@, vars, index as nat)->Ok_0,
        decreases count_int - index,
    {
        let ghost before = f@;
        let ghost b0 = binds@;
        proof {
            reveal_strlit("LOOP_INDEX");
        }
        let pair = (String::from_str("LOOP_INDEX"), decimal_string(index));
        proof {
            assert("LOOP_INDEX"@ =~= loop_index_name());
            lemma_scope_push(context.vars(), b0, pair);
        }
        binds.push(pair);
        proof {
            assert(decreases_to!(parent => parent->Loop_contents));
        }
        let r = resolve_in(f, contents, context, binds);
        binds.pop();
        assert(binds@ =~= b0);
        match r {
            Ok(()) => {},
            Err(e) => {
                proof {
                    assert(scope(context.vars(), b0.push(pair)) == vars.insert(loop_index_name(), decimal(index as nat)));
                    assert(render_iters(contents@, vars, (index + 1) as nat) is Err);
                    lemma_iters_err(contents@, vars, (index + 1) as nat, count_int as nat);
                }
                return Err(e);
            },
        }
        assert(f@ =~= start + render_iters(contents@, vars, (index + 1) as nat)->Ok_0);
        index = index + 1;
    }
    Ok(())
}

fn resolve_with<C: Context>(
    f: &mut String,
    assignments: &Vec<(SegmentTree, SegmentTree)>,
    contents: &SegmentTree,
    context: &C,
    binds: &mut Vec<(String, String)>,
    Ghost(parent): Ghost<Segment>,
) -> (r: Result<()>)
    requires
        parent == (Segment::With { assignments: *assignments, contents: *contents }),
    ensures
        final(binds)@ == old(binds)@,
        wrote(
            r,
            render_seg(
                Seg::With(assigns_view(*assignments, assignments@.len()), contents@),
                scope(context.vars(), old(binds)@),
            ),
            old(f)@,
            final(f)@,
        ),
    decreases parent, 4nat,
{
    let ghost vars = scope(context.vars(), binds@);
    let ghost av = assigns_view(*assignments, assignments@.len());
    let ghost b0 = binds@;
    let base = binds.len();
    proof {
        lemma_assigns_view(*assignments, assignments@.len());
    }
    let mut k: usize = 0;
    while k < assignments.len()
        invariant
            k <= assignments@.len(),
            parent == (Segment::With { assignments: *assignments, contents: *contents }),
            av == assigns_view(*assignments, assignments@.len()),
            av.len() == assignments@.len(),
            forall|j: int| 0 <= j < av.len() ==> #[trigger] av[j] == (assignments@[j].0@, assignments@[j].1@),
            base == b0.len(),
            b0 == old(binds)@,
            binds@.len() == base + k,
            binds@.subrange(0, base as int) == b0,
            vars == scope(context.vars(), b0),
            render_binds(av, k as nat, vars) == Ok::<Vars, Fault>(scope(context.vars(), binds@)),
            f@ == old(f)@,
        decreases assignments@.len() - k,
    {
        proof {
            assert(decreases_to!(parent => parent->With_assignments));
            assert(decreases_to!(parent->With_assignments => assignments[k as int]));
            assert(decreases_to!(parent => assignments[k as int].0));
            assert(decreases_to!(parent => assignments[k as int].1));
        }
        assert(av[k as int] == (assignments@[k as int].0@, assignments@[k as int].1@));
        let var_name = match resolve_tree_str(&assignments[k].0, context, binds) {
            Ok(s) => s,
            Err(e) => {
                binds.truncate(base);
                assert(binds@ == b0);
                assert(render_binds(av, (k + 1) as nat, vars) is Err);
                proof {
                    lemma_binds_err(av, (k + 1) as nat, av.len(), vars);
                }
                return Err(e);
            },
        };
        let var_value = match resolve_tree_str(&assignments[k].1, context, binds) {
            Ok(s) => s,
            Err(e) => {
                binds.truncate(base);
                assert(binds@ == b0);
                assert(render_binds(av, (k + 1) as nat, vars) is Err);
                proof {
                    lemma_binds_err(av, (k + 1) as nat, av.len(), vars);
                }
                return Err(e);
            },
        };
        let pair = (String::from_str(trim(var_name.as_str())), var_value);
        proof {
            lemma_scope_push(context.vars(), binds@, pair);
        }
        binds.push(pair);
        assert(binds@.subrange(0, base as int) =~= b0);
        k = k + 1;
    }
    proof {
        assert(decreases_to!(parent => parent->With_contents));
    }
    let r = resolve_in(f, contents, context, binds);
    binds.truncate(base);
    r
}

proof fn lemma_prefix_err(t: Seq<Seg>, i: nat, j: nat, vars: Vars)
    requires
        i <= j <= t.len(),
        render_prefix(t, i, vars) is Err,
    ensures
        render_prefix(t, j, vars) == render_prefix(t, i, vars),
    decreases j - i,
{
    if i < j {
        lemma_prefix_err(t, i, (j - 1) as nat, vars);
    }
}

proof fn lemma_iters_err(b: Seq<Seg>, vars: Vars, i: nat, j: nat)
    requires
        i <= j,
        render_iters(b, vars, i) is Err,
    ensures
        render_iters(b, vars, j) == render_iters(b, vars, i),
    decreases j - i,
{
    if i < j {
        lemma_iters_err(b, vars, i, (j - 1) as nat);
    }
}

proof fn lemma_binds_err(a: Seq<(Seq<Seg>, Seq<Seg>)>, i: nat, j: nat, vars: Vars)
    requires
        i <= j <= a.len(),
        render_binds(a, i, vars) is Err,
    ensures
        render_binds(a, j, vars) == render_binds(a, i, vars),
    decreases j - i,
{
    if i < j {
        lemma_binds_err(a, i, (j - 1) as nat, vars);
    }
}

/// Renders `tree` against `context`, appending the output to `f`.
pub fn resolve_tree<C: Context>(f: &mut String, tree: &SegmentTree, context: &C) -> (r: Result<()>)
    ensures
        wrote(r, render(tree@, context.vars()), old(f)@, final(f)@),
{
    let mut binds: Vec<(String, String)> = Vec::new();
    assert(scope(context.vars(), binds@) =~= context.vars());
    resolve_in(f, tree, context, &mut binds)
}

} // verus!
