use vstd::prelude::*;

verus! {

broadcast use vstd::std_specs::vec::group_vec_axioms, vstd::seq::group_seq_axioms;

/// A parsed template: its segments, in rendering order.
#[derive(Debug)]
pub struct SegmentTree<'s> {
    pub segments: Vec<Segment<'s>>,
}

/// One node of a parsed template. Literal text borrows from the template.
#[derive(Debug)]
pub enum Segment<'s> {
    Text(&'s str),
    Not(SegmentTree<'s>),
    Loop { count: SegmentTree<'s>, contents: SegmentTree<'s> },
    If { condition: SegmentTree<'s>, contents: SegmentTree<'s> },
    Variable { name: SegmentTree<'s> },
    With { assignments: Vec<(SegmentTree<'s>, SegmentTree<'s>)>, contents: SegmentTree<'s> },
}

/// The mathematical value of a segment; a tree is a `Seq<Seg>`.
pub enum Seg {
    Text(Seq<char>),
    Not(Seq<Seg>),
    Loop(Seq<Seg>, Seq<Seg>),
    If(Seq<Seg>, Seq<Seg>),
    Variable(Seq<Seg>),
    With(Seq<(Seq<Seg>, Seq<Seg>)>, Seq<Seg>),
}

/// The model of the first `n` segments of `t`.
pub open spec fn segs_view<'s>(t: SegmentTree<'s>, n: nat) -> Seq<Seg>
    decreases t, 1nat, n,
{
    if n == 0 || n > t.segments@.len() {
        Seq::empty()
    } else {
        segs_view(t, (n - 1) as nat).push(seg_view(t.segments[n - 1]))
    }
}

/// The model of the first `n` assignments of a `With` segment.
pub open spec fn assigns_view<'s>(a: Vec<(SegmentTree<'s>, SegmentTree<'s>)>, n: nat) -> Seq<(Seq<Seg>, Seq<Seg>)>
    decreases a, 1nat, n,
{
    if n == 0 || n > a@.len() {
        Seq::empty()
    } else {
        assigns_view(a, (n - 1) as nat).push(
            (segs_view(a[n - 1].0, a[n - 1].0.segments@.len()), segs_view(a[n - 1].1, a[n - 1].1.segments@.len())),
        )
    }
}

pub open spec fn seg_view<'s>(s: Segment<'s>) -> Seg
    decreases s, 0nat, 0nat,
{
    match s {
        Segment::Text(t) => Seg::Text(t@),
        Segment::Not(v) => Seg::Not(segs_view(v, v.segments@.len())),
        Segment::Loop { count, contents } => Seg::Loop(
            segs_view(count, count.segments@.len()),
            segs_view(contents, contents.segments@.len()),
        ),
        Segment::If { condition, contents } => Seg::If(
            segs_view(condition, condition.segments@.len()),
            segs_view(contents, contents.segments@.len()),
        ),
        Segment::Variable { name } => Seg::Variable(segs_view(name, name.segments@.len())),
        Segment::With { assignments, contents } => Seg::With(
            assigns_view(assignments, assignments@.len()),
            segs_view(contents, contents.segments@.len()),
        ),
    }
}

impl<'s> View for SegmentTree<'s> {
    type V = Seq<Seg>;

    open spec fn view(&self) -> Seq<Seg> {
        segs_view(*self, self.segments@.len())
    }
}

impl<'s> View for Segment<'s> {
    type V = Seg;

    open spec fn view(&self) -> Seg {
        seg_view(*self)
    }
}

pub proof fn lemma_segs_view<'s>(t: SegmentTree<'s>, n: nat)
    requires
        n <= t.segments@.len(),
    ensures
        segs_view(t, n).len() == n,
        forall|k: int| 0 <= k < n ==> #[trigger] segs_view(t, n)[k] == seg_view(t.segments@[k]),
    decreases n,
{
    if n > 0 {
        lemma_segs_view(t, (n - 1) as nat);
    }
}

pub proof fn lemma_assigns_view<'s>(a: Vec<(SegmentTree<'s>, SegmentTree<'s>)>, n: nat)
    requires
        n <= a@.len(),
    ensures
        assigns_view(a, n).len() == n,
        forall|k: int| 0 <= k < n ==> #[trigger] assigns_view(a, n)[k] == (a@[k].0@, a@[k].1@),
    decreases n,
{
    if n > 0 {
        lemma_assigns_view(a, (n - 1) as nat);
    }
}

/// The models of a list of segments.
pub open spec fn vec_view<'s>(v: Seq<Segment<'s>>) -> Seq<Seg> {
    v.map_values(|x: Segment<'s>| seg_view(x))
}

pub proof fn lemma_tree_view<'s>(t: SegmentTree<'s>)
    ensures
        t@ == vec_view(t.segments@),
{
    lemma_segs_view(t, t.segments@.len());
    assert(t@ =~= vec_view(t.segments@));
}

} // verus!
