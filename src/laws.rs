use vstd::prelude::*;

use crate::context::{Context, DerivedContext};
use crate::resolver::{render, render_iters, render_prefix, render_seg, Vars};
use crate::segment_tree::Seg;
use crate::text::{count_of, decimal, lemma_decimal, trimmed, MAX_COUNT};
use crate::parser::{find_start, find_term, parse, parse_sub, text_segs};

verus! {

/// Rendering against a scope layered over `parent` with a layer that binds
/// nothing gives the same output, or the same error, as rendering against
/// `parent` itself.
pub proof fn empty_layer_changes_nothing<P: Context, C: Context>(tree: Seq<Seg>, scope: DerivedContext<P, C>)
    requires
        scope.child.vars() == Map::<Seq<char>, Seq<char>>::empty(),
    ensures
        render(tree, scope.vars()) == render(tree, scope.parent.vars()),
{
    assert(scope.vars() =~= scope.parent.vars());
}

/// `s` repeated `n` times.
pub open spec fn repeat(s: Seq<char>, n: nat) -> Seq<char>
    decreases n,
{
    if n == 0 {
        Seq::empty()
    } else {
        repeat(s, (n - 1) as nat) + s
    }
}

proof fn lemma_iters_of_text(body: Seq<char>, vars: Vars, n: nat)
    ensures
        render_iters(seq![Seg::Text(body)], vars, n) == Ok::<Seq<char>, crate::error::Fault>(repeat(body, n)),
    decreases n,
{
    if n > 0 {
        lemma_iters_of_text(body, vars, (n - 1) as nat);
        let inner = vars.insert(crate::resolver::loop_index_name(), decimal((n - 1) as nat));
        lemma_text_renders(body, inner);
    }
}

proof fn lemma_text_renders(t: Seq<char>, vars: Vars)
    ensures
        render_prefix(seq![Seg::Text(t)], 1, vars) == Ok::<Seq<char>, crate::error::Fault>(t),
{
    let x = seq![Seg::Text(t)];
    assert(render_prefix(x, 0, vars) == Ok::<Seq<char>, crate::error::Fault>(Seq::empty()));
    assert(x[0] == Seg::Text(t));
    assert(render_seg(x[0], vars) == Ok::<Seq<char>, crate::error::Fault>(t));
    assert(Seq::<char>::empty() + t =~= t);
    assert(render_prefix(x, 1, vars) == Ok::<Seq<char>, crate::error::Fault>(Seq::<char>::empty() + t));
}

/// A loop whose count renders, once trimmed, to the decimal form of `n`, and
/// whose body is the plain text `body`, renders `body` exactly `n` times, and
/// nothing when `n` is zero.
pub proof fn loop_repeats_body(n: nat, count: Seq<char>, body: Seq<char>, vars: Vars)
    requires
        n <= MAX_COUNT,
        trimmed(count) == decimal(n),
    ensures
        render(seq![Seg::Loop(seq![Seg::Text(count)], seq![Seg::Text(body)])], vars) == Ok::<Seq<char>, crate::error::Fault>(repeat(body, n)),
{
    let d = decimal(n);
    lemma_decimal(n);
    assert(d[0] != '+');
    assert(count_of(d) == Some(n));
    lemma_text_renders(count, vars);
    lemma_iters_of_text(body, vars, n);
    let seg = Seg::Loop(seq![Seg::Text(count)], seq![Seg::Text(body)]);
    assert(render_seg(seg, vars) == Ok::<Seq<char>, crate::error::Fault>(repeat(body, n)));
    lemma_single(seg, vars);
}

proof fn lemma_single(seg: Seg, vars: Vars)
    ensures
        render(seq![seg], vars) == (match render_seg(seg, vars) {
            Ok(x) => Ok::<Seq<char>, crate::error::Fault>(x),
            Err(e) => Err(e),
        }),
{
    assert(seq![seg][0] == seg);
    assert(render_prefix(seq![seg], 0, vars) == Ok::<Seq<char>, crate::error::Fault>(Seq::empty()));
    match render_seg(seg, vars) {
        Ok(x) => {
            assert(Seq::<char>::empty() + x =~= x);
        },
        Err(e) => {},
    }
}

/// Negating a variable whose name and value carry no surrounding white space
/// renders `0` when the value is non-empty and not `0`, and `1` otherwise.
pub proof fn not_complements_truthiness(name: Seq<char>, value: Seq<char>, vars: Vars)
    requires
        vars.contains_key(name),
        vars[name] == value,
        trimmed(name) == name,
        trimmed(value) == value,
    ensures
        render(seq![Seg::Not(seq![Seg::Variable(seq![Seg::Text(name)])])], vars) == Ok::<Seq<char>, crate::error::Fault>(
            if value.len() > 0 && value != seq!['0'] {
                seq!['0']
            } else {
                seq!['1']
            },
        ),
{
    lemma_text_renders(name, vars);
    let var = Seg::Variable(seq![Seg::Text(name)]);
    assert(render_seg(var, vars) == Ok::<Seq<char>, crate::error::Fault>(value));
    lemma_single(var, vars);
    let not = Seg::Not(seq![var]);
    lemma_single(not, vars);
}

proof fn lemma_no_start(s: Seq<char>, i: int)
    requires
        0 <= i <= s.len(),
        forall|k: int| 0 <= k < s.len() - 1 ==> !(#[trigger] s[k] == '{' && (s[k + 1] == '{' || s[k + 1] == '%')),
    ensures
        find_start(s, i, s.len() as int) is None,
    decreases s.len() - i,
{
    if i + 2 <= s.len() {
        lemma_no_start(s, i + 1);
    }
}

/// A template with no `{{` and no `{%` parses to its own text, and renders to
/// itself, whatever the variables.
pub proof fn plain_text_renders_verbatim(s: Seq<char>, vars: Vars)
    requires
        forall|k: int| 0 <= k < s.len() - 1 ==> !(#[trigger] s[k] == '{' && (s[k + 1] == '{' || s[k + 1] == '%')),
    ensures
        parse(s) is Ok,
        render(parse(s)->Ok_0, vars) == Ok::<Seq<char>, crate::error::Fault>(s),
{
    lemma_no_start(s, 0);
    assert(find_term(s, 0, None) == Some(s.len() as int));
    assert(parse_sub(s, 0, None, false) == Ok::<(int, Seq<Seg>), crate::error::Fault>((s.len() as int, text_segs(s, 0, s.len() as int))));
    if s.len() > 0 {
        assert(s.subrange(0, s.len() as int) =~= s);
        lemma_text_renders(s, vars);
    } else {
        assert(s =~= Seq::<char>::empty());
    }
}

} // verus!
