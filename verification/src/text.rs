use crate::querybuilder::{chars_of, occurs_at};
use vstd::prelude::*;

verus! {

/// The decimal digit `d` as a character.
pub open spec fn digit_char(d: nat) -> char {
    seq!['0', '1', '2', '3', '4', '5', '6', '7', '8', '9'][d as int]
}

/// The decimal representation of `n`, without sign or leading zeros.
pub open spec fn decimal(n: nat) -> Seq<char>
    decreases n,
{
    if n < 10 {
        seq![digit_char(n)]
    } else {
        decimal(n / 10) + seq![digit_char(n % 10)]
    }
}

/// `parts` joined with `sep` between consecutive parts.
pub open spec fn joined(parts: Seq<Seq<char>>, sep: Seq<char>) -> Seq<char>
    decreases parts.len(),
{
    if parts.len() == 0 {
        seq![]
    } else if parts.len() == 1 {
        parts[0]
    } else {
        joined(parts.drop_last(), sep) + sep + parts.last()
    }
}

/// The decimal digit `d` as a one-character string.
fn digit_string(d: usize) -> (s: String)
    requires
        d < 10,
    ensures
        s@ == seq![digit_char(d as nat)],
{
    let digits = "0123456789";
    proof {
        reveal_strlit("0123456789");
        assert(digits@ =~= seq!['0', '1', '2', '3', '4', '5', '6', '7', '8', '9']);
    }
    let one = digits.substring_char(d, d + 1);
    assert(one@ =~= seq![digit_char(d as nat)]);
    String::from_str(one)
}

/// The decimal representation of `n`, as `n.to_string()` gives it.
pub fn decimal_string(n: usize) -> (s: String)
    ensures
        s@ == decimal(n as nat),
    decreases n,
{
    if n < 10 {
        digit_string(n)
    } else {
        let mut s = decimal_string(n / 10);
        let last = digit_string(n % 10);
        s.append(last.as_str());
        s
    }
}

/// `parts` joined with `sep` between consecutive parts, as `[String]::join` gives it.
pub fn join_strings(parts: &Vec<String>, sep: &str) -> (s: String)
    ensures
        s@ == joined(parts@.map_values(|p: String| p@), sep@),
{
    let ghost views = parts@.map_values(|p: String| p@);
    let mut s = String::new();
    let mut i: usize = 0;
    assert(views.take(0) =~= Seq::<Seq<char>>::empty());
    while i < parts.len()
        invariant
            i <= parts@.len(),
            views == parts@.map_values(|p: String| p@),
            s@ == joined(views.take(i as int), sep@),
        decreases parts@.len() - i,
    {
        if i > 0 {
            s.append(sep);
        }
        s.append(parts[i].as_str());
        proof {
            assert(views.take(i + 1).drop_last() =~= views.take(i as int));
            if i == 0 {
                assert(s@ =~= views.take(1)[0]);
            }
        }
        i = i + 1;
    }
    assert(views.take(i as int) =~= views);
    s
}

/// Whether `p` occurs somewhere in `s`.
pub open spec fn contains_seq(s: Seq<char>, p: Seq<char>) -> bool {
    exists|i: int| 0 <= i <= s.len() - p.len() && #[trigger] s.subrange(i, i + p.len()) == p
}

/// Whether `pattern` occurs in `text`, as `str::contains` with a string
/// pattern tells.
pub fn text_contains(text: &str, pattern: &str) -> (b: bool)
    ensures
        b == contains_seq(text@, pattern@),
{
    let t = chars_of(text);
    let p = chars_of(pattern);
    if p.len() > t.len() {
        return false;
    }
    let last = t.len() - p.len();
    let mut i: usize = 0;
    while i <= last
        invariant
            t@ == text@,
            p@ == pattern@,
            last == t@.len() - p@.len(),
            i <= last + 1,
            forall|j: int| 0 <= j < i ==> #[trigger] t@.subrange(j, j + p@.len()) != p@,
        decreases last + 1 - i,
    {
        if occurs_at(&t, &p, i) {
            return true;
        }
        if i == last {
            return false;
        }
        i = i + 1;
    }
    false
}

} // verus!
