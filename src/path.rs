use vstd::prelude::*;

verus! {

/// The decimal digit character for `d < 10`.
pub open spec fn digit_char(d: nat) -> char {
    if d == 0 { '0' }
    else if d == 1 { '1' }
    else if d == 2 { '2' }
    else if d == 3 { '3' }
    else if d == 4 { '4' }
    else if d == 5 { '5' }
    else if d == 6 { '6' }
    else if d == 7 { '7' }
    else if d == 8 { '8' }
    else { '9' }
}

/// The decimal rendering of `n`, without leading zeros.
pub open spec fn decimal(n: nat) -> Seq<char>
    decreases n,
{
    if n < 10 {
        seq![digit_char(n)]
    } else {
        decimal(n / 10).push(digit_char(n % 10))
    }
}

/// The path segment of element `i` of a sequence: `[i]`.
pub open spec fn index_segment(i: nat) -> Seq<char> {
    seq!['['] + decimal(i) + seq![']']
}

/// The path segment of a named field or map key: `.name`.
pub open spec fn key_segment(name: Seq<char>) -> Seq<char> {
    seq!['.'] + name
}

/// The path of the root: `$`.
pub open spec fn root_path() -> Seq<char> {
    seq!['$']
}

fn digit_str(d: usize) -> (r: &'static str)
    requires
        d < 10,
    ensures
        r@ == seq![digit_char(d as nat)],
{
    proof {
        reveal_strlit("0");
        reveal_strlit("1");
        reveal_strlit("2");
        reveal_strlit("3");
        reveal_strlit("4");
        reveal_strlit("5");
        reveal_strlit("6");
        reveal_strlit("7");
        reveal_strlit("8");
        reveal_strlit("9");
    }
    if d == 0 { "0" }
    else if d == 1 { "1" }
    else if d == 2 { "2" }
    else if d == 3 { "3" }
    else if d == 4 { "4" }
    else if d == 5 { "5" }
    else if d == 6 { "6" }
    else if d == 7 { "7" }
    else if d == 8 { "8" }
    else { "9" }
}

/// Appends the decimal rendering of `n` to `s`.
pub fn push_decimal(s: &mut String, n: usize)
    ensures
        final(s)@ == old(s)@ + decimal(n as nat),
    decreases n,
{
    if n < 10 {
        s.append(digit_str(n));
    } else {
        push_decimal(s, n / 10);
        s.append(digit_str(n % 10));
        assert(final(s)@ =~= old(s)@ + decimal(n as nat));
    }
}

/// The path of the root, `$`.
pub fn root() -> (r: String)
    ensures
        r@ == root_path(),
{
    proof {
        reveal_strlit("$");
    }
    String::from_str("$")
}

/// `base` extended by the segment `.name`.
pub fn with_key(base: &String, name: &str) -> (r: String)
    ensures
        r@ == base@ + key_segment(name@),
{
    proof {
        reveal_strlit(".");
    }
    let mut r = base.clone();
    r.append(".");
    r.append(name);
    assert(r@ =~= base@ + key_segment(name@));
    r
}

/// `base` extended by the segment `[i]`.
pub fn with_index(base: &String, i: usize) -> (r: String)
    ensures
        r@ == base@ + index_segment(i as nat),
{
    proof {
        reveal_strlit("[");
        reveal_strlit("]");
    }
    let mut r = base.clone();
    r.append("[");
    push_decimal(&mut r, i);
    r.append("]");
    assert(r@ =~= base@ + index_segment(i as nat));
    r
}

} // verus!
