//! Character-level helpers over string views: trimming, line splitting and
//! decimal rendering.
use vstd::prelude::*;

verus! {

/// The characters that carry Unicode's `White_Space` property.
pub open spec fn is_white_space(c: char) -> bool {
    ('\u{9}' <= c && c <= '\u{d}') || c == ' ' || c == '\u{85}' || c == '\u{a0}'
        || c == '\u{1680}' || ('\u{2000}' <= c && c <= '\u{200a}') || c == '\u{2028}'
        || c == '\u{2029}' || c == '\u{202f}' || c == '\u{205f}' || c == '\u{3000}'
}

/// `s` without its leading white space.
pub open spec fn trim_start(s: Seq<char>) -> Seq<char>
    decreases s.len(),
{
    if s.len() > 0 && is_white_space(s[0]) {
        trim_start(s.drop_first())
    } else {
        s
    }
}

/// `s` without its trailing white space.
pub open spec fn trim_end(s: Seq<char>) -> Seq<char>
    decreases s.len(),
{
    if s.len() > 0 && is_white_space(s.last()) {
        trim_end(s.drop_last())
    } else {
        s
    }
}

/// `s` without white space at either end.
pub open spec fn trimmed(s: Seq<char>) -> Seq<char> {
    trim_end(trim_start(s))
}

/// Relies on `str::trim`: removes leading and trailing `White_Space` characters.
#[verifier::external_body]
pub(crate) fn trim(s: &str) -> (r: &str)
    ensures
        r@ == trimmed(s@),
{
    s.trim()
}

/// Relies on `String::push`: appends one character.
#[verifier::external_body]
pub(crate) fn push_char(s: &mut String, c: char)
    ensures
        final(s)@ == old(s)@.push(c),
{
    s.push(c)
}

/// The characters of `s`, in order.
pub fn chars_of(s: &str) -> (r: Vec<char>)
    ensures
        r@ == s@,
{
    let mut r: Vec<char> = Vec::new();
    for c in it: s.chars()
        invariant
            it.seq() == s@,
            r@ == s@.subrange(0, it.index() as int),
    {
        r.push(c);
        proof {
            assert(s@.subrange(0, it.index() + 1) =~= r@);
        }
    }
    proof {
        assert(s@.subrange(0, s@.len() as int) =~= s@);
    }
    r
}

/// Whether `pat` occurs in `v` at position `at`.
pub fn occurs_at(v: &Vec<char>, at: usize, pat: &Vec<char>) -> (b: bool)
    ensures
        b == (at + pat@.len() <= v@.len() && v@.subrange(at as int, at + pat@.len()) == pat@),
{
    if at > v.len() || pat.len() > v.len() - at {
        return false;
    }
    let len = v.len();
    let mut i: usize = 0;
    while i < pat.len()
        invariant
            at + pat@.len() <= v@.len(),
            len == v@.len(),
            i <= pat@.len(),
            forall|j: int| 0 <= j < i ==> v@[at + j] == pat@[j],
        decreases pat@.len() - i,
    {
        if v[at + i] != pat[i] {
            proof {
                assert(v@.subrange(at as int, at + pat@.len())[i as int] != pat@[i as int]);
            }
            return false;
        }
        i = i + 1;
    }
    proof {
        assert(v@.subrange(at as int, at + pat@.len()) =~= pat@);
    }
    true
}

/// A sequence that neither starts nor ends with white space is its own trim.
pub proof fn lemma_trimmed_unchanged(s: Seq<char>)
    requires
        s.len() > 0,
        !is_white_space(s[0]),
        !is_white_space(s.last()),
    ensures
        trimmed(s) == s,
{
}

/// Splitting `t` at line feeds: the finished lines and the line still open.
pub open spec fn split(t: Seq<char>) -> (Seq<Seq<char>>, Seq<char>)
    decreases t.len(),
{
    if t.len() == 0 {
        (Seq::empty(), Seq::empty())
    } else {
        let (done, open) = split(t.drop_last());
        if t.last() == '\n' {
            (done.push(open), Seq::empty())
        } else {
            (done, open.push(t.last()))
        }
    }
}

/// The lines of `t`: the text between line feeds, the line feeds dropped; a
/// last line without a line feed counts when it is not empty.
pub open spec fn lines_of(t: Seq<char>) -> Seq<Seq<char>> {
    let (done, open) = split(t);
    if open.len() == 0 {
        done
    } else {
        done.push(open)
    }
}

/// Appending text without a line feed extends the open line.
pub proof fn lemma_split_append_open(a: Seq<char>, c: Seq<char>)
    requires
        !c.contains('\n'),
    ensures
        split(a + c) == (split(a).0, split(a).1 + c),
    decreases c.len(),
{
    if c.len() == 0 {
        assert(a + c =~= a);
        assert(split(a).1 + c =~= split(a).1);
    } else {
        let c0 = c.drop_last();
        assert(!c0.contains('\n')) by {
            if c0.contains('\n') {
                let k = choose|k: int| 0 <= k < c0.len() && c0[k] == '\n';
                assert(c[k] == '\n');
            }
        }
        lemma_split_append_open(a, c0);
        assert((a + c).drop_last() =~= a + c0);
        assert(c.last() != '\n') by {
            assert(c[c.len() - 1] == c.last());
        }
        assert((split(a).1 + c0).push(c.last()) =~= split(a).1 + c);
    }
}

/// Text that ends with a finished line splits independently of what follows.
pub proof fn lemma_split_append(a: Seq<char>, b: Seq<char>)
    requires
        split(a).1.len() == 0,
    ensures
        split(a + b) == (split(a).0 + split(b).0, split(b).1),
    decreases b.len(),
{
    if b.len() == 0 {
        assert(a + b =~= a);
        assert(split(a).0 + split(b).0 =~= split(a).0);
        assert(split(a).1 =~= split(b).1);
    } else {
        lemma_split_append(a, b.drop_last());
        assert((a + b).drop_last() =~= a + b.drop_last());
        let (d, o) = split(b.drop_last());
        if b.last() == '\n' {
            assert((split(a).0 + d).push(o) =~= split(a).0 + d.push(o));
        }
    }
}

/// One line followed by a line feed.
pub proof fn lemma_split_line(l: Seq<char>)
    requires
        !l.contains('\n'),
    ensures
        split(l.push('\n')) == (seq![l], Seq::<char>::empty()),
{
    lemma_split_append_open(Seq::empty(), l);
    assert(Seq::<char>::empty() + l =~= l);
    assert(l.push('\n').drop_last() =~= l);
    assert(Seq::<Seq<char>>::empty().push(l) =~= seq![l]);
}

/// The character of a decimal digit.
pub open spec fn digit(d: nat) -> char {
    if d == 0 { '0' } else if d == 1 { '1' } else if d == 2 { '2' } else if d == 3 { '3' }
    else if d == 4 { '4' } else if d == 5 { '5' } else if d == 6 { '6' } else if d == 7 { '7' }
    else if d == 8 { '8' } else { '9' }
}

/// The decimal digits of `n`, most significant first, without leading zeros.
pub open spec fn decimal(n: nat) -> Seq<char>
    decreases n,
{
    if n < 10 {
        seq![digit(n)]
    } else {
        decimal(n / 10).push(digit(n % 10))
    }
}

fn digit_char(d: usize) -> (c: char)
    requires
        d < 10,
    ensures
        c == digit(d as nat),
{
    if d == 0 { '0' } else if d == 1 { '1' } else if d == 2 { '2' } else if d == 3 { '3' }
    else if d == 4 { '4' } else if d == 5 { '5' } else if d == 6 { '6' } else if d == 7 { '7' }
    else if d == 8 { '8' } else { '9' }
}

/// Appends the decimal digits of `n` to `s`.
pub fn push_decimal(s: &mut String, n: usize)
    ensures
        final(s)@ == old(s)@ + decimal(n as nat),
    decreases n,
{
    if n >= 10 {
        push_decimal(s, n / 10);
    }
    push_char(s, digit_char(n % 10));
    assert(final(s)@ =~= old(s)@ + decimal(n as nat));
}

} // verus!
