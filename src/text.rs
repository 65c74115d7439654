//! Character-level helpers: whitespace handling, site names and decimal ids.

use vstd::prelude::*;
use vstd::std_specs::iter::IteratorSpec;
use vstd::string::*;

verus! {

broadcast use {vstd::string::axiom_spec_iter, vstd::string::next_postcondition};

/// Whether `c` has Unicode's `White_Space` property.
pub uninterp spec fn white_space(c: char) -> bool;

/// Relies on `char::is_whitespace`: true exactly for the characters with the
/// `White_Space` property.
#[verifier::external_body]
pub(crate) fn is_white(c: char) -> (r: bool)
    ensures
        r == white_space(c),
{
    c.is_whitespace()
}

/// Relies on `String::push`: appends one character.
#[verifier::external_body]
pub(crate) fn push_char(s: &mut String, c: char)
    ensures
        final(s)@ == old(s)@.push(c),
{
    s.push(c)
}

/// The characters of `s`, in order.
pub fn chars_of(s: &str) -> (r: Vec<char>)
    ensures
        r@ == s@,
{
    let mut out: Vec<char> = Vec::new();
    let mut it = s.chars();
    loop
        invariant
            it.obeys_prophetic_iter_laws(),
            it.decrease() is Some,
            out@ + it.remaining() == s@,
        ensures
            out@ == s@,
        decreases it.decrease()->0,
    {
        match it.next() {
            None => {
                assert(out@ + it.remaining() =~= out@);
                break ;
            },
            Some(c) => {
                out.push(c);
            },
        }
    }
    out
}

/// `s` with every whitespace character left out.
pub open spec fn without_white(s: Seq<char>) -> Seq<char>
    decreases s.len(),
{
    if s.len() == 0 {
        s
    } else if white_space(s.last()) {
        without_white(s.drop_last())
    } else {
        without_white(s.drop_last()).push(s.last())
    }
}

/// The part of `s` before its first `-`, or all of `s` when it has none.
pub open spec fn before_dash(s: Seq<char>) -> Seq<char>
    decreases s.len(),
{
    if s.len() == 0 {
        s
    } else if s[0] == '-' {
        Seq::empty()
    } else {
        seq![s[0]] + before_dash(s.drop_first())
    }
}

/// `s` without its leading whitespace.
pub open spec fn trim_start(s: Seq<char>) -> Seq<char>
    decreases s.len(),
{
    if s.len() > 0 && white_space(s[0]) {
        trim_start(s.drop_first())
    } else {
        s
    }
}

/// `s` without its trailing whitespace.
pub open spec fn trim_end(s: Seq<char>) -> Seq<char>
    decreases s.len(),
{
    if s.len() > 0 && white_space(s.last()) {
        trim_end(s.drop_last())
    } else {
        s
    }
}

/// A site's name, read off a page title such as `"Guide - MySite"`: the
/// text before the first `-`, without surrounding whitespace.
pub open spec fn site_name_of(title: Seq<char>) -> Seq<char> {
    trim_end(trim_start(before_dash(title)))
}

/// The character of a decimal digit.
pub open spec fn digit_char(d: nat) -> char {
    if d == 0 { '0' }
    else if d == 1 { '1' }
    else if d == 2 { '2' }
    else if d == 3 { '3' }
    else if d == 4 { '4' }
    else if d == 5 { '5' }
    else if d == 6 { '6' }
    else if d == 7 { '7' }
    else if d == 8 { '8' }
    else { '9' }
}

/// `n` written in decimal, without leading zeros.
pub open spec fn decimal(n: nat) -> Seq<char>
    decreases n,
{
    if n < 10 {
        seq![digit_char(n)]
    } else {
        decimal(n / 10).push(digit_char(n % 10))
    }
}

/// `s` with all of its whitespace characters removed.
pub fn remove_whitespace(s: &str) -> (r: String)
    ensures
        r@ == without_white(s@),
{
    let v = chars_of(s);
    let mut out = String::new();
    let mut i: usize = 0;
    while i < v.len()
        invariant
            i <= v@.len(),
            v@ == s@,
            out@ == without_white(v@.take(i as int)),
        decreases v@.len() - i,
    {
        let c = v[i];
        assert(v@.take(i + 1).drop_last() =~= v@.take(i as int));
        if !is_white(c) {
            push_char(&mut out, c);
        }
        i = i + 1;
    }
    assert(v@.take(v@.len() as int) =~= v@);
    out
}

/// The site name carried by a page title: what stands before its first `-`,
/// trimmed of whitespace.
pub fn site_name(title: &str) -> (r: String)
    ensures
        r@ == site_name_of(title@),
{
    let v = chars_of(title);
    let ghost t = v@;
    let mut dash: usize = 0;
    assert(t.skip(0) =~= t);
    assert(t.take(0) + before_dash(t) =~= before_dash(t));
    while dash < v.len() && v[dash] != '-'
        invariant
            dash <= t.len(),
            v@ == t,
            before_dash(t) == t.take(dash as int) + before_dash(t.skip(dash as int)),
        decreases t.len() - dash,
    {
        assert(t.skip(dash as int).drop_first() =~= t.skip(dash + 1));
        assert(t.take(dash + 1) =~= t.take(dash as int) + seq![t[dash as int]]);
        dash = dash + 1;
    }
    let ghost p = t.take(dash as int);
    assert(p =~= before_dash(t)) by {
        assert(before_dash(t) == t.take(dash as int) + before_dash(t.skip(dash as int)));
        if dash < t.len() {
            assert(t.skip(dash as int)[0] == '-');
        } else {
            assert(t.skip(dash as int).len() == 0);
        }
    }
    let mut start: usize = 0;
    assert(p.skip(0) =~= p);
    while start < dash && is_white(v[start])
        invariant
            start <= dash <= t.len(),
            v@ == t,
            p == t.take(dash as int),
            trim_start(p) == trim_start(p.skip(start as int)),
        decreases dash - start,
    {
        assert(p.skip(start as int).drop_first() =~= p.skip(start + 1));
        start = start + 1;
    }
    let ghost q = p.skip(start as int);
    assert(trim_start(p) == q);
    let mut end: usize = dash;
    assert(q.take(end - start) =~= q);
    while end > start && is_white(v[end - 1])
        invariant
            start <= end <= dash <= t.len(),
            v@ == t,
            p == t.take(dash as int),
            q == p.skip(start as int),
            trim_end(q) == trim_end(q.take(end - start)),
        decreases end - start,
    {
        assert(q.take(end - start).drop_last() =~= q.take(end - 1 - start));
        end = end - 1;
    }
    assert(trim_end(q) =~= q.take(end - start));
    let mut out = String::new();
    let mut i: usize = start;
    while i < end
        invariant
            start <= i <= end <= dash <= t.len(),
            v@ == t,
            out@ =~= t.subrange(start as int, i as int),
        decreases end - i,
    {
        push_char(&mut out, v[i]);
        i = i + 1;
    }
    assert(out@ =~= q.take(end - start));
    out
}

/// The character of the digit `d`.
fn digit(d: usize) -> (c: char)
    requires
        d < 10,
    ensures
        c == digit_char(d as nat),
{
    if d == 0 { '0' }
    else if d == 1 { '1' }
    else if d == 2 { '2' }
    else if d == 3 { '3' }
    else if d == 4 { '4' }
    else if d == 5 { '5' }
    else if d == 6 { '6' }
    else if d == 7 { '7' }
    else if d == 8 { '8' }
    else { '9' }
}

/// Appends `n` in decimal to `out`.
pub fn push_decimal(out: &mut String, n: usize)
    ensures
        final(out)@ == old(out)@ + decimal(n as nat),
    decreases n,
{
    if n >= 10 {
        push_decimal(out, n / 10);
    }
    push_char(out, digit(n % 10));
    proof {
        if n >= 10 {
            assert(old(out)@ + decimal(n as nat) =~= old(out)@ + decimal((n / 10) as nat) + seq![digit_char((n % 10) as nat)]);
        } else {
            assert(old(out)@ + decimal(n as nat) =~= old(out)@.push(digit_char(n as nat)));
        }
    }
}

/// `n` in decimal.
pub fn decimal_string(n: usize) -> (r: String)
    ensures
        r@ == decimal(n as nat),
{
    let mut out = String::new();
    push_decimal(&mut out, n);
    assert(Seq::<char>::empty() + decimal(n as nat) =~= decimal(n as nat));
    out
}

} // verus!
