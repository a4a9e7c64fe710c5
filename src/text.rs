use vstd::prelude::*;

verus! {

/// Whether `c` has the Unicode `White_Space` property, as `char::is_whitespace` decides.
pub uninterp spec fn white_space(c: char) -> bool;

/// Relies on `char::is_whitespace`: a test of `c` alone.
#[verifier::external_body]
fn is_white_space(c: char) -> (r: bool)
    ensures
        r == white_space(c),
{
    c.is_whitespace()
}

/// The index of the first character at or after `i` that is not white space.
pub open spec fn trim_start_index(s: Seq<char>, i: int) -> int
    decreases s.len() - i,
{
    if 0 <= i < s.len() && white_space(s[i]) {
        trim_start_index(s, i + 1)
    } else {
        i
    }
}

/// The end of `s[lo..j]` once trailing white space is removed; when `keep_newlines`
/// holds, a newline stops the removal.
pub open spec fn trim_end_index(s: Seq<char>, lo: int, j: int, keep_newlines: bool) -> int
    decreases j - lo,
{
    if lo < j && j <= s.len() && white_space(s[j - 1]) && !(keep_newlines && s[j - 1] == '\n') {
        trim_end_index(s, lo, j - 1, keep_newlines)
    } else {
        j
    }
}

/// `s` without leading and trailing white space.
pub open spec fn trimmed(s: Seq<char>) -> Seq<char> {
    let a = trim_start_index(s, 0);
    s.subrange(a, trim_end_index(s, a, s.len() as int, false))
}

proof fn lemma_trim_start_bounds(s: Seq<char>, i: int)
    requires
        0 <= i <= s.len(),
    ensures
        i <= trim_start_index(s, i) <= s.len(),
    decreases s.len() - i,
{
    if i < s.len() && white_space(s[i]) {
        lemma_trim_start_bounds(s, i + 1);
    }
}

pub proof fn lemma_trim_end_bounds(s: Seq<char>, lo: int, j: int, keep_newlines: bool)
    requires
        0 <= lo <= j <= s.len(),
    ensures
        lo <= trim_end_index(s, lo, j, keep_newlines) <= j,
    decreases j - lo,
{
    if lo < j && white_space(s[j - 1]) && !(keep_newlines && s[j - 1] == '\n') {
        lemma_trim_end_bounds(s, lo, j - 1, keep_newlines);
    }
}

/// The end of `s[lo..hi]` once trailing white space (newlines kept when asked) is removed.
pub fn trim_end_from(s: &str, lo: usize, hi: usize, keep_newlines: bool) -> (r: usize)
    requires
        lo <= hi <= s@.len(),
    ensures
        r as int == trim_end_index(s@, lo as int, hi as int, keep_newlines),
        lo <= r <= hi,
{
    let mut j = hi;
    let mut done = false;
    while lo < j && !done
        invariant
            lo <= j <= hi <= s@.len(),
            trim_end_index(s@, lo as int, j as int, keep_newlines) == trim_end_index(
                s@,
                lo as int,
                hi as int,
                keep_newlines,
            ),
            done ==> trim_end_index(s@, lo as int, j as int, keep_newlines) == j,
        decreases j, if done { 0int } else { 1int },
    {
        let c = s.get_char(j - 1);
        if !is_white_space(c) || (keep_newlines && c == '\n') {
            done = true;
        } else {
            j = j - 1;
        }
    }
    j
}

/// `s` without leading and trailing white space, as `str::trim` gives it.
pub fn trim(s: &str) -> (r: &str)
    ensures
        r@ == trimmed(s@),
{
    let n = s.unicode_len();
    let mut i: usize = 0;
    let mut done = false;
    while i < n && !done
        invariant
            n == s@.len(),
            i <= n,
            trim_start_index(s@, i as int) == trim_start_index(s@, 0),
            done ==> trim_start_index(s@, i as int) == i,
        decreases n - i, if done { 0int } else { 1int },
    {
        if !is_white_space(s.get_char(i)) {
            done = true;
        } else {
            i = i + 1;
        }
    }
    let j = trim_end_from(s, i, n, false);
    s.substring_char(i, j)
}

/// A resolved value counts as true when it is non-empty and not exactly `0`.
pub open spec fn truthy(s: Seq<char>) -> bool {
    s.len() > 0 && s != seq!['0']
}

/// Returns true if the value is not empty and is not equal to "0".
pub fn is_truthy(val: &str) -> (r: bool)
    ensures
        r == truthy(val@),
{
    let n = val.unicode_len();
    if n == 0 {
        false
    } else if n == 1 && val.get_char(0) == '0' {
        assert(val@ =~= seq!['0']);
        false
    } else {
        assert(val@ != seq!['0']) by {
            if n == 1 {
                assert(val@[0] != seq!['0'][0]);
            }
        }
        true
    }
}

pub open spec fn digit_char(d: int) -> char {
    seq!['0', '1', '2', '3', '4', '5', '6', '7', '8', '9'][d]
}

/// The decimal digits of `n`, without leading zeros.
pub open spec fn decimal(n: nat) -> Seq<char>
    decreases n,
{
    if n < 10 {
        seq![digit_char(n as int)]
    } else {
        decimal(n / 10).push(digit_char((n % 10) as int))
    }
}

/// The value of a sequence of decimal digits.
pub open spec fn digits_value(s: Seq<char>) -> nat
    decreases s.len(),
{
    if s.len() == 0 {
        0
    } else {
        digits_value(s.drop_last()) * 10 + ((s.last() as u32 - '0' as u32) as nat)
    }
}

pub open spec fn all_digits(s: Seq<char>) -> bool {
    forall|i: int| 0 <= i < s.len() ==> '0' <= #[trigger] s[i] && s[i] <= '9'
}

/// The largest loop count that a template can ask for.
pub const MAX_COUNT: u32 = 2147483647;

/// `s` without one leading `+`.
pub open spec fn unsigned_part(s: Seq<char>) -> Seq<char> {
    if s.len() > 0 && s[0] == '+' { s.drop_first() } else { s }
}

/// The loop count that `s` spells: an optional `+`, then one or more decimal
/// digits whose value is at most `MAX_COUNT`.
pub open spec fn count_of(s: Seq<char>) -> Option<nat> {
    let d = unsigned_part(s);
    if d.len() > 0 && all_digits(d) && digits_value(d) <= MAX_COUNT {
        Some(digits_value(d))
    } else {
        None
    }
}

proof fn lemma_digits_value_prefix(s: Seq<char>, i: int)
    requires
        0 <= i < s.len(),
    ensures
        digits_value(s.subrange(0, i + 1)) == digits_value(s.subrange(0, i)) * 10 + ((s[i] as u32 - '0' as u32) as nat),
{
    assert(s.subrange(0, i + 1).drop_last() =~= s.subrange(0, i));
}

proof fn lemma_digits_value_grows(s: Seq<char>, i: int, j: int)
    requires
        0 <= i <= j <= s.len(),
        all_digits(s),
    ensures
        digits_value(s.subrange(0, i)) <= digits_value(s.subrange(0, j)),
    decreases j - i,
{
    if i < j {
        lemma_digits_value_grows(s, i, j - 1);
        lemma_digits_value_prefix(s, j - 1);
    }
}

proof fn lemma_too_large(d: Seq<char>, k: int)
    requires
        0 <= k <= d.len(),
        digits_value(d.subrange(0, k)) > MAX_COUNT,
    ensures
        !(all_digits(d) && digits_value(d) <= MAX_COUNT),
{
    if all_digits(d) {
        lemma_digits_value_grows(d, k, d.len() as int);
        assert(d.subrange(0, d.len() as int) =~= d);
    }
}

/// Reads a loop count as `count_of` describes it.
pub fn parse_count(s: &str) -> (r: Option<u32>)
    ensures
        match r {
            Some(v) => count_of(s@) == Some(v as nat),
            None => count_of(s@) is None,
        },
{
    let n = s.unicode_len();
    let start: usize = if n > 0 && s.get_char(0) == '+' { 1 } else { 0 };
    let ghost d = unsigned_part(s@);
    assert(d =~= s@.subrange(start as int, n as int));
    if start == n {
        return None;
    }
    let mut value: u64 = 0;
    let mut i: usize = start;
    while i < n
        invariant
            start <= i <= n,
            n == s@.len(),
            d =~= s@.subrange(start as int, n as int),
            d == unsigned_part(s@),
            all_digits(d.subrange(0, i - start)),
            value as nat == digits_value(d.subrange(0, i - start)),
            value <= MAX_COUNT,
        decreases n - i,
    {
        let c = s.get_char(i);
        if c < '0' || c > '9' {
            assert(d[i - start] == c);
            assert(!all_digits(d));
            return None;
        }
        proof {
            lemma_digits_value_prefix(d, i - start);
        }
        value = value * 10 + (c as u32 - '0' as u32) as u64;
        assert(d.subrange(0, i + 1 - start).subrange(0, i - start) =~= d.subrange(0, i - start));
        if value > MAX_COUNT as u64 {
            proof {
                lemma_too_large(d, i + 1 - start);
            }
            return None;
        }
        i = i + 1;
    }
    assert(d.subrange(0, n - start) =~= d);
    Some(value as u32)
}

/// The decimal digits of `n`, as `to_string` writes them.
pub fn decimal_string(n: u32) -> (r: String)
    ensures
        r@ == decimal(n as nat),
{
    let digits = "0123456789";
    proof {
        reveal_strlit("0123456789");
        assert(digits@ =~= seq!['0', '1', '2', '3', '4', '5', '6', '7', '8', '9']);
    }
    let mut rev: Vec<usize> = Vec::new();
    let mut m = n;
    while m >= 10
        invariant
            digits@ =~= seq!['0', '1', '2', '3', '4', '5', '6', '7', '8', '9'],
            m <= n,
            forall|k: int| 0 <= k < rev@.len() ==> rev@[k] < 10,
            decimal(n as nat) == decimal(m as nat) + Seq::new(rev@.len(), |k: int| digit_char(rev@[rev@.len() - 1 - k] as int)),
            m > 0 || n == 0,
        decreases m,
    {
        let ghost old_rev = rev@;
        rev.push((m % 10) as usize);
        assert(decimal(m as nat) == decimal((m / 10) as nat).push(digit_char((m % 10) as int)));
        assert(decimal(m as nat) + Seq::new(old_rev.len(), |k: int| digit_char(old_rev[old_rev.len() - 1 - k] as int))
            =~= decimal((m / 10) as nat) + Seq::new(rev@.len(), |k: int| digit_char(rev@[rev@.len() - 1 - k] as int)));
        m = m / 10;
    }
    let mut r = String::new();
    let mut i = rev.len();
    let ghost tail = Seq::new(rev@.len(), |k: int| digit_char(rev@[rev@.len() - 1 - k] as int));
    r.append(digits.substring_char(m as usize, m as usize + 1));
    assert(r@ =~= decimal(m as nat));
    while i > 0
        invariant
            i <= rev@.len(),
            forall|k: int| 0 <= k < rev@.len() ==> rev@[k] < 10,
            digits@ =~= seq!['0', '1', '2', '3', '4', '5', '6', '7', '8', '9'],
            tail == Seq::new(rev@.len(), |k: int| digit_char(rev@[rev@.len() - 1 - k] as int)),
            r@ == decimal(m as nat) + tail.subrange(0, rev@.len() - i),
        decreases i,
    {
        let d = rev[i - 1];
        r.append(digits.substring_char(d, d + 1));
        assert(tail.subrange(0, rev@.len() - (i - 1)) =~= tail.subrange(0, rev@.len() - i).push(digit_char(d as int)));
        i = i - 1;
    }
    assert(tail.subrange(0, rev@.len() as int) =~= tail);
    r
}

pub proof fn lemma_digit_char(d: int)
    requires
        0 <= d < 10,
    ensures
        digit_char(d) as u32 == '0' as u32 + d,
        '0' <= digit_char(d) <= '9',
{
    let t = seq!['0', '1', '2', '3', '4', '5', '6', '7', '8', '9'];
    assert(t[0] == '0' && t[1] == '1' && t[2] == '2' && t[3] == '3' && t[4] == '4');
    assert(t[5] == '5' && t[6] == '6' && t[7] == '7' && t[8] == '8' && t[9] == '9');
}

/// The decimal form of `n` is a non-empty run of digits whose value is `n`.
pub proof fn lemma_decimal(n: nat)
    ensures
        decimal(n).len() > 0,
        all_digits(decimal(n)),
        digits_value(decimal(n)) == n,
    decreases n,
{
    if n < 10 {
        lemma_digit_char(n as int);
        let d = seq![digit_char(n as int)];
        assert(d.drop_last() =~= Seq::<char>::empty());
        assert(digits_value(d.drop_last()) == 0);
        assert(d.last() == digit_char(n as int));
        assert((d.last() as u32 - '0' as u32) as nat == n);
    } else {
        lemma_decimal(n / 10);
        lemma_digit_char((n % 10) as int);
        let d = decimal(n);
        assert(d.drop_last() =~= decimal(n / 10));
        assert(d.last() == digit_char((n % 10) as int));
        assert(digits_value(d) == digits_value(decimal(n / 10)) * 10 + (n % 10));
        assert((n / 10) * 10 + n % 10 == n);
        assert forall|i: int| 0 <= i < d.len() implies '0' <= #[trigger] d[i] && d[i] <= '9' by {
            if i < d.len() - 1 {
                assert(d[i] == decimal(n / 10)[i]);
            }
        }
    }
}

} // verus!
