use vstd::prelude::*;

use crate::error::{Error, Fault, Result};
use crate::segment_tree::{lemma_assigns_view, lemma_tree_view, vec_view, Seg, Segment, SegmentTree};
use crate::text::{trim_end_from, trim_end_index};

verus! {

broadcast use vstd::std_specs::vec::group_vec_axioms, vstd::seq::group_seq_axioms;

pub open spec fn var_close() -> Seq<char> {
    seq!['}', '}']
}

pub open spec fn block_close() -> Seq<char> {
    seq!['%', '}']
}

pub open spec fn end_tag() -> Seq<char> {
    seq!['{', '%', 'E', 'N', 'D', '%', '}']
}

pub open spec fn eof_name() -> Seq<char> {
    seq!['E', 'O', 'F']
}

/// What a sub-parse scans for: a closing string, or the end of the input.
#[derive(Clone, Copy)]
pub enum Terminal<'s> {
    Text(&'s str),
    Eof,
}

impl<'s> View for Terminal<'s> {
    type V = Option<Seq<char>>;

    open spec fn view(&self) -> Option<Seq<char>> {
        match self {
            Terminal::Text(t) => Some(t@),
            Terminal::Eof => None,
        }
    }
}

/// The length of a terminal; the end of input has none.
pub open spec fn term_len(term: Option<Seq<char>>) -> int {
    match term {
        Some(p) => p.len() as int,
        None => 0,
    }
}

/// How a missing terminal is named in an error.
pub open spec fn term_name(term: Option<Seq<char>>) -> Seq<char> {
    match term {
        Some(p) => p,
        None => eof_name(),
    }
}

/// `p` occurs in `s` at `i`.
pub open spec fn occurs_at(s: Seq<char>, p: Seq<char>, i: int) -> bool {
    0 <= i && i + p.len() <= s.len() && s.subrange(i, i + p.len()) == p
}

/// The first occurrence of `p` in `s` at or after `i`.
pub open spec fn find_from(s: Seq<char>, p: Seq<char>, i: int) -> Option<int>
    decreases s.len() + 1 - i,
{
    if i < 0 || i + p.len() > s.len() {
        None
    } else if occurs_at(s, p, i) {
        Some(i)
    } else {
        find_from(s, p, i + 1)
    }
}

/// Where the terminal is found, scanning from `i`.
pub open spec fn find_term(s: Seq<char>, i: int, term: Option<Seq<char>>) -> Option<int> {
    match term {
        Some(p) => find_from(s, p, i),
        None => Some(s.len() as int),
    }
}

/// The first `{{` or `{%` that starts at or after `i` and ends by `end`.
pub open spec fn find_start(s: Seq<char>, i: int, end: int) -> Option<int>
    decreases end - i,
{
    if i < 0 || i + 2 > end || end > s.len() {
        None
    } else if s[i] == '{' && (s[i + 1] == '{' || s[i + 1] == '%') {
        Some(i)
    } else {
        find_start(s, i + 1, end)
    }
}

/// The first index at or after `i` that is not a space.
pub open spec fn skip_spaces(s: Seq<char>, i: int) -> int
    decreases s.len() - i,
{
    if 0 <= i < s.len() && s[i] == ' ' {
        skip_spaces(s, i + 1)
    } else {
        i
    }
}

/// Where a block name starting at `i` ends: at the first space or `%}`, else at
/// the end of the input.
pub open spec fn name_end(s: Seq<char>, i: int) -> int
    decreases s.len() - i,
{
    if i < 0 || i >= s.len() {
        s.len() as int
    } else if s[i] == ' ' || (s[i] == '%' && i + 1 < s.len() && s[i + 1] == '}') {
        i
    } else {
        name_end(s, i + 1)
    }
}

/// `s[a..b]` as a text segment, or nothing when it is empty.
pub open spec fn text_segs(s: Seq<char>, a: int, b: int) -> Seq<Seg> {
    if a < b {
        seq![Seg::Text(s.subrange(a, b))]
    } else {
        Seq::empty()
    }
}

/// The end of the text before a block tag: with `trim`, trailing spaces and
/// tabs (not newlines) are dropped.
pub open spec fn text_end(s: Seq<char>, a: int, b: int, trim: bool) -> int {
    if trim {
        trim_end_index(s, a, b, true)
    } else {
        b
    }
}

/// Parses `s` from `pos` up to and including the terminal. The result is the
/// position after the terminal (and after one newline that follows it, with
/// `trim`), and the segments found on the way. The tests on positions outside
/// the input never fail on a real parse; they keep each recursive call on a
/// strictly later position.
pub open spec fn parse_sub(s: Seq<char>, pos: int, term: Option<Seq<char>>, trim: bool) -> core::result::Result<(int, Seq<Seg>), Fault>
    decreases s.len() - pos, 1nat,
{
    if pos < 0 || pos > s.len() {
        Err(Fault::MissingTerminal(term_name(term)))
    } else {
        match find_term(s, pos, term) {
            None => Err(Fault::MissingTerminal(term_name(term))),
            Some(ti) => match find_start(s, pos, ti) {
                None => {
                    let after = ti + term_len(term);
                    let rest = if trim && after < s.len() && s[after] == '\n' { after + 1 } else { after };
                    Ok((rest, text_segs(s, pos, text_end(s, pos, ti, trim))))
                },
                Some(si) => if si < pos || si + 2 > s.len() {
                    Err(Fault::MissingTerminal(term_name(term)))
                } else {
                    match construct_at(s, si) {
                        Err(e) => Err(e),
                        Ok((np, seg, trims)) => if np <= pos || np > s.len() {
                            Err(Fault::MissingTerminal(term_name(term)))
                        } else {
                            match parse_sub(s, np, term, trim) {
                                Err(e) => Err(e),
                                Ok((r, segs)) => Ok((r, text_segs(s, pos, text_end(s, pos, si, trims)) + seq![seg] + segs)),
                            }
                        },
                    }
                },
            },
        }
    }
}

/// Parses the variable or block whose opening delimiter starts at `si`. The
/// result is the position after it, its segment, and whether it is a block
/// statement, whose tag trims the text before it.
pub open spec fn construct_at(s: Seq<char>, si: int) -> core::result::Result<(int, Seg, bool), Fault>
    decreases s.len() - si - 2, 2nat,
{
    if si < 0 || si + 2 > s.len() {
        Err(Fault::MissingTerminal(var_close()))
    } else if s[si + 1] == '{' {
        match parse_sub(s, si + 2, Some(var_close()), false) {
            Err(e) => Err(e),
            Ok((r, t)) => Ok((r, Seg::Variable(t), false)),
        }
    } else {
        let q = skip_spaces(s, si + 2);
        let e = name_end(s, q);
        let name = s.subrange(q, e);
        let after = if e < s.len() && s[e] == ' ' { e + 1 } else { e };
        if !(si + 2 <= q <= e <= after <= s.len()) {
            Err(Fault::UnknownBlock(name))
        } else if name == seq!['N', 'O', 'T'] {
            match parse_sub(s, after, Some(block_close()), false) {
                Err(e) => Err(e),
                Ok((r, t)) => Ok((r, Seg::Not(t), false)),
            }
        } else if name == seq!['L', 'O', 'O', 'P'] || name == seq!['I', 'F'] || name == seq!['W', 'I', 'T', 'H'] {
            match parse_sub(s, after, Some(block_close()), true) {
                Err(e) => Err(e),
                Ok((r, head)) => if r < after || r > s.len() {
                    Err(Fault::MissingTerminal(block_close()))
                } else if name == seq!['W', 'I', 'T', 'H'] {
                    match split_assignments(head) {
                        Err(e) => Err(e),
                        Ok(a) => match parse_sub(s, r, Some(end_tag()), true) {
                            Err(e) => Err(e),
                            Ok((r2, body)) => Ok((r2, Seg::With(a, body), true)),
                        },
                    }
                } else {
                    match parse_sub(s, r, Some(end_tag()), true) {
                        Err(e) => Err(e),
                        Ok((r2, body)) => if name == seq!['L', 'O', 'O', 'P'] {
                            Ok((r2, Seg::Loop(head, body), true))
                        } else {
                            Ok((r2, Seg::If(head, body), true))
                        },
                    }
                },
            }
        } else {
            Err(Fault::UnknownBlock(name))
        }
    }
}

/// `t` as a text segment, or nothing when it is empty.
pub open spec fn text_piece(t: Seq<char>) -> Seq<Seg> {
    if t.len() > 0 {
        seq![Seg::Text(t)]
    } else {
        Seq::empty()
    }
}

/// Progress through the assignment list of a `With` block: the assignments
/// closed so far, and the name and value of the open one; `seen` once its `=`
/// has been read.
pub struct SplitState {
    pub done: Seq<(Seq<Seg>, Seq<Seg>)>,
    pub name: Seq<Seg>,
    pub value: Seq<Seg>,
    pub seen: bool,
}

pub open spec fn split_start() -> SplitState {
    SplitState { done: Seq::empty(), name: Seq::empty(), value: Seq::empty(), seen: false }
}

/// Adds segments to the name of the open assignment, or to its value once its
/// `=` has been read.
pub open spec fn add_piece(st: SplitState, segs: Seq<Seg>) -> SplitState {
    if st.seen {
        SplitState { value: st.value + segs, ..st }
    } else {
        SplitState { name: st.name + segs, ..st }
    }
}

/// Closes the open assignment; one without `=` is an error.
pub open spec fn close_assignment(st: SplitState) -> core::result::Result<SplitState, Fault> {
    if st.seen {
        Ok(SplitState { done: st.done.push((st.name, st.value)), name: Seq::empty(), value: Seq::empty(), seen: false })
    } else {
        Err(Fault::NoAssignmentInWith)
    }
}

/// Reads an `=`; a second one in the same assignment is an error.
pub open spec fn read_equals(st: SplitState) -> core::result::Result<SplitState, Fault> {
    if st.seen {
        Err(Fault::TooManyAssignmentsInWith)
    } else {
        Ok(SplitState { seen: true, ..st })
    }
}

/// Reads the rest of the text `t` from `i`, the text since the last delimiter
/// starting at `start`: a `,` closes the open assignment, an `=` divides it.
pub open spec fn split_text(st: SplitState, t: Seq<char>, start: int, i: int) -> core::result::Result<SplitState, Fault>
    decreases t.len() - i,
{
    if !(0 <= start <= i < t.len()) {
        Ok(add_piece(st, text_piece(t.subrange(start, t.len() as int))))
    } else if t[i] == ',' {
        match close_assignment(add_piece(st, text_piece(t.subrange(start, i)))) {
            Err(e) => Err(e),
            Ok(st2) => split_text(st2, t, i + 1, i + 1),
        }
    } else if t[i] == '=' {
        match read_equals(add_piece(st, text_piece(t.subrange(start, i)))) {
            Err(e) => Err(e),
            Ok(st2) => split_text(st2, t, i + 1, i + 1),
        }
    } else {
        split_text(st, t, start, i + 1)
    }
}

/// Reads the first `n` segments of an assignment list. Only literal text is
/// divided: nested variables and blocks go whole to the open name or value.
pub open spec fn split_prefix(segs: Seq<Seg>, n: nat) -> core::result::Result<SplitState, Fault>
    decreases n,
{
    if n == 0 || n > segs.len() {
        Ok(split_start())
    } else {
        match split_prefix(segs, (n - 1) as nat) {
            Err(e) => Err(e),
            Ok(st) => match segs[n - 1] {
                Seg::Text(t) => split_text(st, t, 0, 0),
                other => Ok(add_piece(st, seq![other])),
            },
        }
    }
}

/// The `name=value` pairs of a `With` block's assignment list, separated by
/// commas, in order.
pub open spec fn split_assignments(segs: Seq<Seg>) -> core::result::Result<Seq<(Seq<Seg>, Seq<Seg>)>, Fault> {
    match split_prefix(segs, segs.len()) {
        Err(e) => Err(e),
        Ok(st) => match close_assignment(st) {
            Err(e) => Err(e),
            Ok(st2) => Ok(st2.done),
        },
    }
}

/// The tree of a whole template, or the first error.
pub open spec fn parse(s: Seq<char>) -> core::result::Result<Seq<Seg>, Fault> {
    match parse_sub(s, 0, None, false) {
        Ok((_, t)) => Ok(t),
        Err(e) => Err(e),
    }
}

/// A search result as a mathematical position.
pub open spec fn pos_of(r: Option<usize>) -> Option<int> {
    match r {
        Some(i) => Some(i as int),
        None => None,
    }
}

/// Whether `p` occurs in `s` at `i`.
fn occurs(s: &str, n: usize, p: &str, i: usize) -> (r: bool)
    requires
        n == s@.len(),
        i <= n,
    ensures
        r == occurs_at(s@, p@, i as int),
{
    let m = p.unicode_len();
    if m > n - i {
        return false;
    }
    let mut k: usize = 0;
    while k < m
        invariant
            m == p@.len(),
            i + m <= n == s@.len(),
            k <= m,
            forall|j: int| 0 <= j < k ==> s@[i + j] == p@[j],
        decreases m - k,
    {
        if s.get_char(i + k) != p.get_char(k) {
            assert(s@.subrange(i as int, i + m)[k as int] != p@[k as int]);
            return false;
        }
        k = k + 1;
    }
    assert(s@.subrange(i as int, i + m) =~= p@);
    true
}

impl<'s> Terminal<'s> {
    fn len(self) -> (r: usize)
        ensures
            r == term_len(self@),
    {
        match self {
            Terminal::Text(text) => text.unicode_len(),
            Terminal::Eof => 0,
        }
    }

    /// Where the terminal first occurs in `s` at or after `from`.
    fn find_in(self, s: &str, n: usize, from: usize) -> (r: Option<usize>)
        requires
            n == s@.len(),
            from <= n,
        ensures
            pos_of(r) == find_term(s@, from as int, self@),
            r matches Some(i) ==> from <= i && i + term_len(self@) <= n,
    {
        match self {
            Terminal::Text(text) => {
                let m = text.unicode_len();
                if m == 0 {
                    assert(s@.subrange(from as int, from as int) =~= text@);
                    return Some(from);
                }
                let mut i = from;
                while i <= n && m <= n - i
                    invariant
                        from <= i <= n,
                        m > 0,
                        self@ == Some(text@),
                        m == text@.len(),
                        n == s@.len(),
                        find_from(s@, text@, i as int) == find_from(s@, text@, from as int),
                    decreases n + 1 - i,
                {
                    if occurs(s, n, text, i) {
                        assert(find_from(s@, text@, i as int) == Some(i as int));
                        return Some(i);
                    }
                    i = i + 1;
                }
                None
            },
            Terminal::Eof => Some(n),
        }
    }

    fn as_str(self) -> (r: &'s str)
        ensures
            r@ == term_name(self@),
    {
        match self {
            Terminal::Text(text) => text,
            Terminal::Eof => {
                proof {
                    reveal_strlit("EOF");
                }
                assert("EOF"@ =~= eof_name());
                "EOF"
            },
        }
    }
}

/// Whether sub-parses drop the indentation and newline around block tags.
#[derive(Clone, Copy, PartialEq, Eq, Structural)]
pub enum NewlineMode {
    Plain,
    TrimStart,
}

/// The first `{{` or `{%` in `s` at or after `i` that ends by `end`.
fn find_start_in(s: &str, i: usize, end: usize) -> (r: Option<usize>)
    requires
        i <= end <= s@.len(),
    ensures
        pos_of(r) == find_start(s@, i as int, end as int),
        r matches Some(k) ==> i <= k && k + 2 <= end,
{
    let mut k = i;
    while k < end && end - k >= 2
        invariant
            i <= k <= end <= s@.len(),
            find_start(s@, k as int, end as int) == find_start(s@, i as int, end as int),
        decreases end - k,
    {
        if s.get_char(k) == '{' {
            let c = s.get_char(k + 1);
            if c == '{' || c == '%' {
                return Some(k);
            }
        }
        k = k + 1;
    }
    None
}

/// The first index at or after `i` that is not a space.
fn skip_spaces_in(s: &str, n: usize, i: usize) -> (r: usize)
    requires
        n == s@.len(),
        i <= n,
    ensures
        r == skip_spaces(s@, i as int),
        i <= r <= n,
{
    let mut k = i;
    while k < n && s.get_char(k) == ' '
        invariant
            i <= k <= n == s@.len(),
            skip_spaces(s@, k as int) == skip_spaces(s@, i as int),
        decreases n - k,
    {
        k = k + 1;
    }
    k
}

/// Where the block name that starts at `i` ends.
fn name_end_in(s: &str, n: usize, i: usize) -> (r: usize)
    requires
        n == s@.len(),
        i <= n,
    ensures
        r == name_end(s@, i as int),
        i <= r <= n,
{
    let mut k = i;
    while k < n
        invariant
            i <= k <= n == s@.len(),
            name_end(s@, k as int) == name_end(s@, i as int),
        decreases n - k,
    {
        let c = s.get_char(k);
        if c == ' ' || (c == '%' && k + 1 < n && s.get_char(k + 1) == '}') {
            return k;
        }
        k = k + 1;
    }
    k
}

/// Whether `s[a..b]` is the word `w`.
fn is_word(s: &str, a: usize, b: usize, w: &str) -> (r: bool)
    requires
        a <= b <= s@.len(),
    ensures
        r == (s@.subrange(a as int, b as int) == w@),
{
    let m = w.unicode_len();
    if m != b - a {
        return false;
    }
    let mut k: usize = 0;
    while k < m
        invariant
            m == w@.len() == b - a,
            b <= s@.len(),
            k <= m,
            forall|j: int| 0 <= j < k ==> s@[a + j] == w@[j],
        decreases m - k,
    {
        if s.get_char(a + k) != w.get_char(k) {
            assert(s@.subrange(a as int, b as int)[k as int] != w@[k as int]);
            return false;
        }
        k = k + 1;
    }
    assert(s@.subrange(a as int, b as int) =~= w@);
    true
}

/// A parse result agrees with the model's.
pub open spec fn sub_agrees<'s>(r: Result<(usize, SegmentTree<'s>)>, m: core::result::Result<(int, Seq<Seg>), Fault>) -> bool {
    match m {
        Ok((p, t)) => r is Ok && r->Ok_0.0 == p && r->Ok_0.1@ == t,
        Err(e) => r is Err && r->Err_0@ == e,
    }
}

pub open spec fn construct_agrees<'s>(r: Result<(usize, Segment<'s>, NewlineMode)>, m: core::result::Result<(int, Seg, bool), Fault>) -> bool {
    match m {
        Ok((p, seg, trims)) => r is Ok && r->Ok_0.0 == p && r->Ok_0.1@ == seg && (r->Ok_0.2 == NewlineMode::TrimStart) == trims,
        Err(e) => r is Err && r->Err_0@ == e,
    }
}

/// Puts `acc` in front of the segments of a parse result.
pub open spec fn prepend(acc: Seq<Seg>, m: core::result::Result<(int, Seq<Seg>), Fault>) -> core::result::Result<(int, Seq<Seg>), Fault> {
    match m {
        Ok((p, t)) => Ok((p, acc + t)),
        Err(e) => Err(e),
    }
}

/// Parses a whole template into its tree.
pub fn parse_template<'s>(input: &'s str) -> (r: Result<SegmentTree<'s>>)
    ensures
        match parse(input@) {
            Ok(t) => r is Ok && r->Ok_0@ == t,
            Err(e) => r is Err && r->Err_0@ == e,
        },
{
    let n = input.unicode_len();
    match parse_subexpr(input, n, 0, Terminal::Eof, NewlineMode::Plain) {
        Ok((_, tree)) => Ok(tree),
        Err(e) => Err(e),
    }
}

fn push_text<'s>(segments: &mut Vec<Segment<'s>>, s: &'s str, a: usize, b: usize)
    requires
        a <= b <= s@.len(),
    ensures
        vec_view(final(segments)@) == vec_view(old(segments)@) + text_segs(s@, a as int, b as int),
{
    if a < b {
        segments.push(Segment::Text(s.substring_char(a, b)));
        assert(vec_view(final(segments)@) =~= vec_view(old(segments)@) + text_segs(s@, a as int, b as int));
    } else {
        assert(vec_view(final(segments)@) =~= vec_view(old(segments)@) + text_segs(s@, a as int, b as int));
    }
}

fn parse_subexpr<'s>(input: &'s str, n: usize, start: usize, terminal: Terminal, newline_mode: NewlineMode) -> (r: Result<(usize, SegmentTree<'s>)>)
    requires
        n == input@.len(),
        start <= n,
    ensures
        sub_agrees(r, parse_sub(input@, start as int, terminal@, newline_mode == NewlineMode::TrimStart)),
        r is Ok ==> start <= r->Ok_0.0 <= n,
        parse_sub(input@, start as int, terminal@, newline_mode == NewlineMode::TrimStart) matches Ok((p, _)) ==> start <= p <= n,
    decreases n - start, 1nat,
{
    let ghost s = input@;
    let ghost trim = newline_mode == NewlineMode::TrimStart;
    let mut remaining: usize = start;
    let mut segments: Vec<Segment<'s>> = Vec::new();
    assert(vec_view(segments@) =~= Seq::<Seg>::empty());
    assert(prepend(Seq::empty(), parse_sub(s, start as int, terminal@, trim)) =~= parse_sub(s, start as int, terminal@, trim)) by {
        match parse_sub(s, start as int, terminal@, trim) {
            Ok((p, t)) => {
                assert(Seq::<Seg>::empty() + t =~= t);
            },
            Err(e) => {},
        }
    }
    loop
        invariant
            n == s.len(),
            s == input@,
            trim == (newline_mode == NewlineMode::TrimStart),
            start <= remaining <= n,
            parse_sub(s, start as int, terminal@, trim) == prepend(vec_view(segments@), parse_sub(s, remaining as int, terminal@, trim)),
        decreases n - remaining,
    {
        let terminal_index = match terminal.find_in(input, n, remaining) {
            Some(index) => index,
            None => return Err(Error::MissingTerminal(String::from_str(terminal.as_str()))),
        };
        match find_start_in(input, remaining, terminal_index) {
            None => {
                let end = if newline_mode == NewlineMode::TrimStart {
                    trim_end_from(input, remaining, terminal_index, true)
                } else {
                    terminal_index
                };
                let ghost before = segments@;
                push_text(&mut segments, input, remaining, end);
                let after = terminal_index + terminal.len();
                let rest = if newline_mode == NewlineMode::TrimStart && after < n && input.get_char(after) == '\n' {
                    after + 1
                } else {
                    after
                };
                let tree = SegmentTree { segments };
                proof {
                    lemma_tree_view(tree);
                    assert(vec_view(before) + text_segs(s, remaining as int, end as int) == vec_view(tree.segments@));
                }
                return Ok((rest, tree));
            },
            Some(start_index) => {
                let (next, segment, last_mode) = match parse_construct(input, n, start_index) {
                    Ok(found) => found,
                    Err(e) => return Err(e),
                };
                let end = if last_mode == NewlineMode::TrimStart {
                    trim_end_from(input, remaining, start_index, true)
                } else {
                    start_index
                };
                let ghost before = segments@;
                let ghost seg = segment@;
                push_text(&mut segments, input, remaining, end);
                segments.push(segment);
                proof {
                    let mid = text_segs(s, remaining as int, end as int);
                    assert(vec_view(segments@) =~= vec_view(before) + mid + seq![seg]);
                    match parse_sub(s, next as int, terminal@, trim) {
                        Ok((p, t)) => {
                            assert(vec_view(before) + (mid + seq![seg] + t) =~= vec_view(segments@) + t);
                        },
                        Err(e) => {},
                    }
                }
                remaining = next;
            },
        }
    }
}

fn parse_variable<'s>(input: &'s str, n: usize, start: usize) -> (r: Result<(usize, Segment<'s>, NewlineMode)>)
    requires
        n == input@.len(),
        start <= n,
    ensures
        match parse_sub(input@, start as int, Some(var_close()), false) {
            Ok((p, t)) => r is Ok && r->Ok_0.0 == p && r->Ok_0.1@ == Seg::Variable(t) && r->Ok_0.2 == NewlineMode::Plain,
            Err(e) => r is Err && r->Err_0@ == e,
        },
        r is Ok ==> start <= r->Ok_0.0 <= n,
    decreases n - start, 2nat,
{
    proof {
        reveal_strlit("}}");
    }
    assert("}}"@ =~= var_close());
    let (remaining, var_tree) = match parse_subexpr(input, n, start, Terminal::Text("}}"), NewlineMode::Plain) {
        Ok(found) => found,
        Err(e) => return Err(e),
    };
    Ok((remaining, Segment::Variable { name: var_tree }, NewlineMode::Plain))
}

fn parse_not<'s>(input: &'s str, n: usize, start: usize) -> (r: Result<(usize, Segment<'s>, NewlineMode)>)
    requires
        n == input@.len(),
        start <= n,
    ensures
        match parse_sub(input@, start as int, Some(block_close()), false) {
            Ok((p, t)) => r is Ok && r->Ok_0.0 == p && r->Ok_0.1@ == Seg::Not(t) && r->Ok_0.2 == NewlineMode::Plain,
            Err(e) => r is Err && r->Err_0@ == e,
        },
        r is Ok ==> start <= r->Ok_0.0 <= n,
    decreases n - start, 2nat,
{
    proof {
        reveal_strlit("%}");
    }
    assert("%}"@ =~= block_close());
    let (remaining, value_tree) = match parse_subexpr(input, n, start, Terminal::Text("%}"), NewlineMode::Plain) {
        Ok(found) => found,
        Err(e) => return Err(e),
    };
    Ok((remaining, Segment::Not(value_tree), NewlineMode::Plain))
}

/// Parses a `LOOP` block from just after its name.
fn parse_loop<'s>(input: &'s str, n: usize, start: usize) -> (r: Result<(usize, Segment<'s>, NewlineMode)>)
    requires
        n == input@.len(),
        start <= n,
    ensures
        match parse_sub(input@, start as int, Some(block_close()), true) {
            Err(e) => r is Err && r->Err_0@ == e,
            Ok((p, head)) => match parse_sub(input@, p, Some(end_tag()), true) {
                Err(e) => r is Err && r->Err_0@ == e,
                Ok((p2, body)) => r is Ok && r->Ok_0.0 == p2 && r->Ok_0.2 == NewlineMode::TrimStart
                    && r->Ok_0.1@ == Seg::Loop(head, body),
            },
        },
        r is Ok ==> start <= r->Ok_0.0 <= n,
        parse_sub(input@, start as int, Some(block_close()), true) matches Ok((p, _)) ==> start <= p <= n,
    decreases n - start, 2nat,
{
    proof {
        reveal_strlit("%}");
        reveal_strlit("{%END%}");
    }
    assert("%}"@ =~= block_close());
    assert("{%END%}"@ =~= end_tag());
    let (remaining, count_tree) = match parse_subexpr(input, n, start, Terminal::Text("%}"), NewlineMode::TrimStart) {
        Ok(found) => found,
        Err(e) => return Err(e),
    };
    let (remaining, body_tree) = match parse_subexpr(input, n, remaining, Terminal::Text("{%END%}"), NewlineMode::TrimStart) {
        Ok(found) => found,
        Err(e) => return Err(e),
    };
    Ok((remaining, Segment::Loop { count: count_tree, contents: body_tree }, NewlineMode::TrimStart))
}

/// Parses an `IF` block from just after its name.
fn parse_if<'s>(input: &'s str, n: usize, start: usize) -> (r: Result<(usize, Segment<'s>, NewlineMode)>)
    requires
        n == input@.len(),
        start <= n,
    ensures
        match parse_sub(input@, start as int, Some(block_close()), true) {
            Err(e) => r is Err && r->Err_0@ == e,
            Ok((p, head)) => match parse_sub(input@, p, Some(end_tag()), true) {
                Err(e) => r is Err && r->Err_0@ == e,
                Ok((p2, body)) => r is Ok && r->Ok_0.0 == p2 && r->Ok_0.2 == NewlineMode::TrimStart
                    && r->Ok_0.1@ == Seg::If(head, body),
            },
        },
        r is Ok ==> start <= r->Ok_0.0 <= n,
        parse_sub(input@, start as int, Some(block_close()), true) matches Ok((p, _)) ==> start <= p <= n,
    decreases n - start, 2nat,
{
    proof {
        reveal_strlit("%}");
        reveal_strlit("{%END%}");
    }
    assert("%}"@ =~= block_close());
    assert("{%END%}"@ =~= end_tag());
    let (remaining, condition_tree) = match parse_subexpr(input, n, start, Terminal::Text("%}"), NewlineMode::TrimStart) {
        Ok(found) => found,
        Err(e) => return Err(e),
    };
    let (remaining, body_tree) = match parse_subexpr(input, n, remaining, Terminal::Text("{%END%}"), NewlineMode::TrimStart) {
        Ok(found) => found,
        Err(e) => return Err(e),
    };
    Ok((remaining, Segment::If { condition: condition_tree, contents: body_tree }, NewlineMode::TrimStart))
}

fn parse_construct<'s>(input: &'s str, n: usize, start_index: usize) -> (r: Result<(usize, Segment<'s>, NewlineMode)>)
    requires
        n == input@.len(),
        start_index + 2 <= n,
    ensures
        construct_agrees(r, construct_at(input@, start_index as int)),
        r is Ok ==> start_index + 2 <= r->Ok_0.0 <= n,
    decreases n - start_index - 2, 3nat,
{
    let after_start = start_index + 2;
    if input.get_char(start_index + 1) == '{' {
        return parse_variable(input, n, after_start);
    }
    let name_start = skip_spaces_in(input, n, after_start);
    let name_end_index = name_end_in(input, n, name_start);
    let after_name = if name_end_index < n && input.get_char(name_end_index) == ' ' {
        name_end_index + 1
    } else {
        name_end_index
    };
    proof {
        reveal_strlit("LOOP");
        reveal_strlit("IF");
        reveal_strlit("NOT");
        reveal_strlit("WITH");
    }
    assert("LOOP"@ =~= seq!['L', 'O', 'O', 'P']);
    assert("IF"@ =~= seq!['I', 'F']);
    assert("NOT"@ =~= seq!['N', 'O', 'T']);
    assert("WITH"@ =~= seq!['W', 'I', 'T', 'H']);
    if is_word(input, name_start, name_end_index, "NOT") {
        parse_not(input, n, after_name)
    } else if is_word(input, name_start, name_end_index, "LOOP") {
        parse_loop(input, n, after_name)
    } else if is_word(input, name_start, name_end_index, "IF") {
        parse_if(input, n, after_name)
    } else if is_word(input, name_start, name_end_index, "WITH") {
        parse_with(input, n, after_name)
    } else {
        Err(Error::UnknownBlock(String::from_str(input.substring_char(name_start, name_end_index))))
    }
}

/// The models of a list of assignments.
pub open spec fn pairs_model<'s>(v: Seq<(SegmentTree<'s>, SegmentTree<'s>)>) -> Seq<(Seq<Seg>, Seq<Seg>)> {
    v.map_values(|p: (SegmentTree<'s>, SegmentTree<'s>)| (p.0@, p.1@))
}

/// The assignments of a `With` block while its list is read.
struct Splitter<'s> {
    done: Vec<(SegmentTree<'s>, SegmentTree<'s>)>,
    name: Vec<Segment<'s>>,
    value: Vec<Segment<'s>>,
    seen: bool,
}

impl<'s> View for Splitter<'s> {
    type V = SplitState;

    closed spec fn view(&self) -> SplitState {
        SplitState { done: pairs_model(self.done@), name: vec_view(self.name@), value: vec_view(self.value@), seen: self.seen }
    }
}

impl<'s> Splitter<'s> {
    fn new() -> (r: Self)
        ensures
            r@ == split_start(),
    {
        let r = Splitter { done: Vec::new(), name: Vec::new(), value: Vec::new(), seen: false };
        assert(r@ =~= split_start()) by {
            assert(pairs_model(r.done@) =~= Seq::empty());
            assert(vec_view(r.name@) =~= Seq::empty());
            assert(vec_view(r.value@) =~= Seq::empty());
        }
        r
    }

    fn add(self, segment: Segment<'s>) -> (r: Self)
        ensures
            r@ == add_piece(self@, seq![segment@]),
    {
        let mut r = self;
        if r.seen {
            r.value.push(segment);
            assert(vec_view(r.value@) =~= vec_view(self.value@) + seq![segment@]);
        } else {
            r.name.push(segment);
            assert(vec_view(r.name@) =~= vec_view(self.name@) + seq![segment@]);
        }
        r
    }

    fn add_text(self, t: &'s str, a: usize, b: usize) -> (r: Self)
        requires
            a <= b <= t@.len(),
        ensures
            r@ == add_piece(self@, text_piece(t@.subrange(a as int, b as int))),
    {
        if a < b {
            let piece = t.substring_char(a, b);
            self.add(Segment::Text(piece))
        } else {
            assert(self@ =~= add_piece(self@, text_piece(t@.subrange(a as int, b as int))));
            self
        }
    }

    fn close(self) -> (r: Result<Self>)
        ensures
            match close_assignment(self@) {
                Ok(st) => r is Ok && r->Ok_0@ == st,
                Err(e) => r is Err && r->Err_0@ == e,
            },
    {
        if !self.seen {
            return Err(Error::NoAssignmentInWith);
        }
        let Splitter { mut done, name, value, seen: _ } = self;
        let pair = (SegmentTree { segments: name }, SegmentTree { segments: value });
        proof {
            lemma_tree_view(pair.0);
            lemma_tree_view(pair.1);
        }
        done.push(pair);
        let r = Splitter { done, name: Vec::new(), value: Vec::new(), seen: false };
        assert(pairs_model(r.done@) =~= pairs_model(self.done@).push((vec_view(self.name@), vec_view(self.value@))));
        assert(vec_view(r.name@) =~= Seq::empty());
        assert(vec_view(r.value@) =~= Seq::empty());
        Ok(r)
    }

    fn read_equals(self) -> (r: Result<Self>)
        ensures
            match read_equals(self@) {
                Ok(st) => r is Ok && r->Ok_0@ == st,
                Err(e) => r is Err && r->Err_0@ == e,
            },
    {
        if self.seen {
            return Err(Error::TooManyAssignmentsInWith);
        }
        let mut r = self;
        r.seen = true;
        Ok(r)
    }

    fn split_text(self, t: &'s str) -> (r: Result<Self>)
        ensures
            match split_text(self@, t@, 0, 0) {
                Ok(st) => r is Ok && r->Ok_0@ == st,
                Err(e) => r is Err && r->Err_0@ == e,
            },
    {
        let n = t.unicode_len();
        let mut st = self;
        let mut start: usize = 0;
        let mut i: usize = 0;
        while i < n
            invariant
                n == t@.len(),
                start <= i <= n,
                split_text(self@, t@, 0, 0) == split_text(st@, t@, start as int, i as int),
            decreases n - i,
        {
            let c = t.get_char(i);
            if c == ',' {
                st = match st.add_text(t, start, i).close() {
                    Ok(next) => next,
                    Err(e) => return Err(e),
                };
                start = i + 1;
            } else if c == '=' {
                st = match st.add_text(t, start, i).read_equals() {
                    Ok(next) => next,
                    Err(e) => return Err(e),
                };
                start = i + 1;
            }
            i = i + 1;
        }
        Ok(st.add_text(t, start, n))
    }
}

/// Divides the assignment list of a `With` block into its `name=value` pairs.
fn split_assignments_of<'s>(head: SegmentTree<'s>) -> (r: Result<Vec<(SegmentTree<'s>, SegmentTree<'s>)>>)
    ensures
        match split_assignments(head@) {
            Ok(a) => r is Ok && pairs_model(r->Ok_0@) == a,
            Err(e) => r is Err && r->Err_0@ == e,
        },
{
    proof {
        lemma_tree_view(head);
    }
    let ghost segs = head@;
    let ghost orig = head.segments@;
    let total = head.segments.len();
    let mut remaining = head.segments;
    let mut rev: Vec<Segment<'s>> = Vec::new();
    while remaining.len() > 0
        invariant
            remaining@ == orig.subrange(0, remaining@.len() as int),
            segs == head@,
            segs == vec_view(orig),
            rev@.len() + remaining@.len() == total == orig.len(),
            forall|j: int| 0 <= j < rev@.len() ==> rev@[j] == orig[total - 1 - j],
        decreases remaining@.len(),
    {
        let segment = remaining.pop().unwrap();
        rev.push(segment);
        assert(remaining@ =~= orig.subrange(0, remaining@.len() as int));
    }
    let mut st = Splitter::new();
    let mut k: usize = 0;
    while k < total
        invariant
            k <= total == orig.len(),
            segs == vec_view(orig),
            segs == head@,
            rev@.len() == total - k,
            forall|j: int| 0 <= j < rev@.len() ==> rev@[j] == orig[total - 1 - j],
            split_prefix(segs, k as nat) == Ok::<SplitState, Fault>(st@),
        decreases total - k,
    {
        let segment = rev.pop().unwrap();
        assert(segs[k as int] == segment@);
        let ghost st_before = st@;
        st = match segment {
            Segment::Text(t) => match st.split_text(t) {
                Ok(next) => next,
                Err(e) => {
                    proof {
                        assert(split_prefix(segs, (k + 1) as nat) == split_text(st_before, t@, 0, 0));
                        lemma_split_err(segs, (k + 1) as nat, segs.len());
                    }
                    return Err(e);
                },
            },
            other => st.add(other),
        };
        k = k + 1;
    }
    match st.close() {
        Ok(closed) => Ok(closed.done),
        Err(e) => Err(e),
    }
}

proof fn lemma_split_err(segs: Seq<Seg>, i: nat, j: nat)
    requires
        i <= j <= segs.len(),
        split_prefix(segs, i) is Err,
    ensures
        split_prefix(segs, j) == split_prefix(segs, i),
    decreases j - i,
{
    if i < j {
        lemma_split_err(segs, i, (j - 1) as nat);
    }
}

fn parse_with<'s>(input: &'s str, n: usize, start: usize) -> (r: Result<(usize, Segment<'s>, NewlineMode)>)
    requires
        n == input@.len(),
        start <= n,
    ensures
        match parse_sub(input@, start as int, Some(block_close()), true) {
            Err(e) => r is Err && r->Err_0@ == e,
            Ok((p, head)) => match split_assignments(head) {
                Err(e) => r is Err && r->Err_0@ == e,
                Ok(a) => match parse_sub(input@, p, Some(end_tag()), true) {
                    Err(e) => r is Err && r->Err_0@ == e,
                    Ok((p2, body)) => r is Ok && r->Ok_0.0 == p2 && r->Ok_0.2 == NewlineMode::TrimStart
                        && r->Ok_0.1@ == Seg::With(a, body),
                },
            },
        },
        r is Ok ==> start <= r->Ok_0.0 <= n,
        parse_sub(input@, start as int, Some(block_close()), true) matches Ok((p, _)) ==> start <= p <= n,
    decreases n - start, 2nat,
{
    proof {
        reveal_strlit("%}");
        reveal_strlit("{%END%}");
    }
    assert("%}"@ =~= block_close());
    assert("{%END%}"@ =~= end_tag());
    let (remaining, head_tree) = match parse_subexpr(input, n, start, Terminal::Text("%}"), NewlineMode::TrimStart) {
        Ok(found) => found,
        Err(e) => return Err(e),
    };
    let assignments = match split_assignments_of(head_tree) {
        Ok(a) => a,
        Err(e) => return Err(e),
    };
    let (remaining, body_tree) = match parse_subexpr(input, n, remaining, Terminal::Text("{%END%}"), NewlineMode::TrimStart) {
        Ok(found) => found,
        Err(e) => return Err(e),
    };
    proof {
        lemma_assigns_view(assignments, assignments@.len());
        assert(crate::segment_tree::assigns_view(assignments, assignments@.len()) =~= pairs_model(assignments@));
    }
    Ok((remaining, Segment::With { assignments, contents: body_tree }, NewlineMode::TrimStart))
}

} // verus!
