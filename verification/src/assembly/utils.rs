use vstd::prelude::*;
use vstd::string::*;

verus! {

/// `s` written `n` times in a row.
pub open spec fn repeat_seq(s: Seq<char>, n: nat) -> Seq<char>
    decreases n,
{
    if n == 0 {
        Seq::empty()
    } else {
        repeat_seq(s, (n - 1) as nat) + s
    }
}

/// `positive` written `count` times when `count` is not negative,
/// `negative` written `-count` times otherwise.
pub open spec fn repeat_spec(count: int, positive: Seq<char>, negative: Seq<char>) -> Seq<char> {
    if count >= 0 {
        repeat_seq(positive, count as nat)
    } else {
        repeat_seq(negative, (-count) as nat)
    }
}

/// Repeats `positive` `count` times, or `negative` `|count|` times when `count` is negative.
pub fn repeat(count: isize, positive: &str, negative: &str) -> (res: String)
    requires
        count != isize::MIN,
    ensures
        res@ == repeat_spec(count as int, positive@, negative@),
{
    let (n, unit): (usize, &str) = if count >= 0 {
        (count as usize, positive)
    } else {
        ((-count) as usize, negative)
    };
    let mut res = String::new();
    let mut i: usize = 0;
    while i < n
        invariant
            i <= n,
            res@ == repeat_seq(unit@, i as nat),
        decreases n - i,
    {
        res.append(unit);
        i = i + 1;
    }
    res
}

} // verus!
