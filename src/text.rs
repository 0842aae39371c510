//! Character-sequence helpers: whitespace trimming, repetition and line joining.
use vstd::prelude::*;
use vstd::string::*;

verus! {

/// Whether `c` carries Unicode's White_Space property, as `char::is_whitespace` reports it.
pub uninterp spec fn is_white_space(c: char) -> bool;

/// Relies on `char::is_whitespace`: its answer depends on the character alone.
#[verifier::external_body]
fn white_space(c: char) -> (r: bool)
    ensures
        r == is_white_space(c),
{
    c.is_whitespace()
}

/// Relies on `String::push`: appends one character at the end.
#[verifier::external_body]
pub(crate) fn push_char(s: &mut String, c: char)
    ensures
        final(s)@ == old(s)@.push(c),
{
    s.push(c)
}

/// The characters of `s`, in order, as a vector.
pub fn chars_of(s: &str) -> (r: Vec<char>)
    ensures
        r@ == s@,
{
    let mut r: Vec<char> = Vec::new();
    for c in it: s.chars()
        invariant
            r@ == it.seq().take(it.index() as int),
    {
        r.push(c);
    }
    r
}

/// `n` copies of `c`.
pub open spec fn repeat_char(c: char, n: nat) -> Seq<char> {
    Seq::new(n, |_i: int| c)
}

/// Number of white-space characters at the front of `s`.
pub open spec fn leading_white(s: Seq<char>) -> nat
    decreases s.len(),
{
    if s.len() > 0 && is_white_space(s[0]) {
        1 + leading_white(s.drop_first())
    } else {
        0
    }
}

/// Number of white-space characters at the back of `s`.
pub open spec fn trailing_white(s: Seq<char>) -> nat
    decreases s.len(),
{
    if s.len() > 0 && is_white_space(s.last()) {
        1 + trailing_white(s.drop_last())
    } else {
        0
    }
}

/// `s` with its leading and trailing white space removed.
pub open spec fn trimmed(s: Seq<char>) -> Seq<char> {
    let t = s.subrange(leading_white(s) as int, s.len() as int);
    t.subrange(0, t.len() - trailing_white(t))
}

/// The lines of `rows` with one line break between each two neighbours.
pub open spec fn join_lines(rows: Seq<Seq<char>>) -> Seq<char>
    decreases rows.len(),
{
    if rows.len() == 0 {
        Seq::empty()
    } else if rows.len() == 1 {
        rows[0]
    } else {
        join_lines(rows.drop_last()) + seq!['\n'] + rows.last()
    }
}

/// Index of the last line break in `s`, or -1 when there is none.
pub open spec fn last_break(s: Seq<char>) -> int
    decreases s.len(),
{
    if s.len() == 0 {
        -1
    } else if s.last() == '\n' {
        s.len() - 1
    } else {
        last_break(s.drop_last())
    }
}

/// The lines of `s`: the pieces between its line breaks.
pub open spec fn lines_of(s: Seq<char>) -> Seq<Seq<char>>
    decreases s.len(),
{
    let k = last_break(s);
    if k < 0 || k >= s.len() {
        seq![s]
    } else {
        lines_of(s.subrange(0, k)).push(s.subrange(k + 1, s.len() as int))
    }
}

/// Whether `s` holds no line break.
pub open spec fn single_line(s: Seq<char>) -> bool {
    forall|k: int| 0 <= k < s.len() ==> #[trigger] s[k] != '\n'
}

proof fn lemma_last_break(s: Seq<char>)
    ensures
        -1 <= last_break(s) < s.len(),
        last_break(s) >= 0 ==> s[last_break(s)] == '\n',
        forall|k: int| last_break(s) < k < s.len() ==> #[trigger] s[k] != '\n',
    decreases s.len(),
{
    if s.len() > 0 && s.last() != '\n' {
        lemma_last_break(s.drop_last());
        assert forall|k: int| last_break(s) < k < s.len() implies #[trigger] s[k] != '\n' by {
            if k < s.len() - 1 {
                assert(s[k] == s.drop_last()[k]);
            }
        }
    }
}

/// Splitting joined lines at their line breaks gives the lines back, when none of them
/// holds a line break itself.
pub proof fn lemma_lines_of_join(rows: Seq<Seq<char>>)
    requires
        rows.len() > 0,
        forall|i: int| 0 <= i < rows.len() ==> single_line(#[trigger] rows[i]),
    ensures
        lines_of(join_lines(rows)) == rows,
    decreases rows.len(),
{
    let s = join_lines(rows);
    lemma_last_break(s);
    if rows.len() == 1 {
        assert(single_line(rows[0]));
        assert(seq![rows[0]] =~= rows);
    } else {
        let front = rows.drop_last();
        let j = join_lines(front);
        let tail = rows.last();
        assert(single_line(rows[rows.len() - 1]));
        assert(s == j + seq!['\n'] + tail);
        assert(s[j.len() as int] == '\n');
        if last_break(s) > j.len() {
            assert(s[last_break(s)] == tail[last_break(s) - j.len() - 1]);
        }
        assert(last_break(s) == j.len());
        assert(s.subrange(0, j.len() as int) =~= j);
        assert(s.subrange(j.len() as int + 1, s.len() as int) =~= tail);
        assert forall|i: int| 0 <= i < front.len() implies single_line(#[trigger] front[i]) by {
            assert(front[i] == rows[i]);
        }
        lemma_lines_of_join(front);
        assert(front.push(tail) =~= rows);
    }
}

/// Two runs of the same character make one run of their total length.
pub proof fn lemma_repeat_add(c: char, a: nat, b: nat)
    ensures
        repeat_char(c, a) + repeat_char(c, b) == repeat_char(c, a + b),
{
    assert(repeat_char(c, a) + repeat_char(c, b) =~= repeat_char(c, a + b));
}

/// The leading white space is a run of white-space characters ended by the end of `s`
/// or by a character that is not white space.
pub proof fn lemma_leading_white(s: Seq<char>)
    ensures
        leading_white(s) <= s.len(),
        forall|k: int| 0 <= k < leading_white(s) ==> is_white_space(#[trigger] s[k]),
        leading_white(s) < s.len() ==> !is_white_space(s[leading_white(s) as int]),
    decreases s.len(),
{
    if s.len() > 0 && is_white_space(s[0]) {
        lemma_leading_white(s.drop_first());
        assert forall|k: int| 0 <= k < leading_white(s) implies is_white_space(#[trigger] s[k]) by {
            if k > 0 {
                assert(s[k] == s.drop_first()[k - 1]);
            }
        }
    }
}

/// The trailing white space is a run of white-space characters begun by the start of `s`
/// or by a character that is not white space.
pub proof fn lemma_trailing_white(s: Seq<char>)
    ensures
        trailing_white(s) <= s.len(),
        forall|k: int| s.len() - trailing_white(s) <= k < s.len() ==> is_white_space(#[trigger] s[k]),
        trailing_white(s) < s.len() ==> !is_white_space(s[s.len() - trailing_white(s) - 1]),
    decreases s.len(),
{
    if s.len() > 0 && is_white_space(s.last()) {
        lemma_trailing_white(s.drop_last());
        assert forall|k: int| s.len() - trailing_white(s) <= k < s.len() implies is_white_space(#[trigger] s[k]) by {
            if k < s.len() - 1 {
                assert(s[k] == s.drop_last()[k]);
            }
        }
    }
}

/// The white space that trimming drops lies at the two ends of `s`, and what is left
/// neither begins nor ends with white space.
pub proof fn lemma_trimmed(s: Seq<char>)
    ensures
        leading_white(s) + trimmed(s).len() <= s.len(),
        trimmed(s) == s.subrange(leading_white(s) as int, (leading_white(s) + trimmed(s).len()) as int),
        forall|k: int| 0 <= k < leading_white(s) ==> is_white_space(#[trigger] s[k]),
        forall|k: int|
            leading_white(s) + trimmed(s).len() <= k < s.len() ==> is_white_space(#[trigger] s[k]),
        trimmed(s).len() > 0 ==> !is_white_space(trimmed(s).first()) && !is_white_space(
            trimmed(s).last(),
        ),
{
    let a = leading_white(s) as int;
    lemma_leading_white(s);
    let t = s.subrange(a, s.len() as int);
    lemma_trailing_white(t);
    let e = a + trimmed(s).len();
    assert(trimmed(s) =~= s.subrange(a, e));
    assert forall|k: int| e <= k < s.len() implies is_white_space(#[trigger] s[k]) by {
        assert(s[k] == t[k - a]);
    }
    if trimmed(s).len() > 0 {
        assert(trimmed(s).first() == t[0]);
        assert(t[0] == s[a]);
    }
}

/// Appends `n` copies of `c` to `s`.
pub fn push_repeated(s: &mut String, c: char, n: usize)
    ensures
        final(s)@ == old(s)@ + repeat_char(c, n as nat),
{
    let ghost start = s@;
    for i in 0..n
        invariant
            s@ == start + repeat_char(c, i as nat),
    {
        push_char(s, c);
        assert(start + repeat_char(c, i as nat) + seq![c] =~= start + repeat_char(c, (i + 1) as nat));
    }
    assert(start + repeat_char(c, 0) =~= start);
}

/// `s` without its leading and trailing white space.
pub fn trim_white_space(s: &str) -> (r: &str)
    ensures
        r@ == trimmed(s@),
{
    let v = chars_of(s);
    let n = v.len();
    let mut i: usize = 0;
    assert(s@.subrange(0, n as int) =~= s@);
    while i < n && white_space(v[i])
        invariant
            i <= n,
            n == s@.len(),
            v@ == s@,
            leading_white(s@) == i + leading_white(s@.subrange(i as int, n as int)),
        decreases n - i,
    {
        assert(s@.subrange(i as int, n as int).drop_first() =~= s@.subrange(i + 1, n as int));
        i = i + 1;
    }
    let ghost t = s@.subrange(i as int, n as int);
    assert(leading_white(s@) == i);
    let mut j: usize = n;
    assert(s@.subrange(i as int, j as int) == t);
    while j > i && white_space(v[j - 1])
        invariant
            i <= j <= n,
            n == s@.len(),
            v@ == s@,
            t == s@.subrange(i as int, n as int),
            trailing_white(t) == (n - j) + trailing_white(s@.subrange(i as int, j as int)),
        decreases j,
    {
        assert(s@.subrange(i as int, j as int).drop_last() =~= s@.subrange(i as int, j - 1));
        j = j - 1;
    }
    assert(trailing_white(s@.subrange(i as int, j as int)) == 0);
    assert(t.subrange(0, t.len() - trailing_white(t)) =~= s@.subrange(i as int, j as int));
    s.substring_char(i, j)
}

} // verus!
