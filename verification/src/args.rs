//! Command-line arguments of the form `--name=value`.

use crate::text::texts;
use vstd::prelude::*;
use vstd::string::*;

verus! {

/// Whether `s` begins with `p`.
pub open spec fn starts_with(s: Seq<char>, p: Seq<char>) -> bool {
    p.len() <= s.len() && forall|i: int| 0 <= i < p.len() ==> s[i] == p[i]
}

/// How often `c` occurs in `s`.
pub open spec fn count_of(s: Seq<char>, c: char) -> nat
    decreases s.len(),
{
    if s.len() == 0 {
        0
    } else if s.last() == c {
        count_of(s.drop_last(), c) + 1
    } else {
        count_of(s.drop_last(), c)
    }
}

/// Whether `k` is the place of the first `c` in `s`.
pub open spec fn is_first(s: Seq<char>, c: char, k: int) -> bool {
    0 <= k < s.len() && s[k] == c && forall|j: int| 0 <= j < k ==> s[j] != c
}

/// The value that the argument `arg` carries: what follows its equals
/// sign, where it has exactly one.
pub open spec fn value_of(arg: Seq<char>) -> Option<Seq<char>> {
    if count_of(arg, '=') == 1 {
        Some(arg.skip((choose|k: int| is_first(arg, '=', k)) + 1))
    } else {
        None
    }
}

/// The value of the first of `args` that begins with `param` and carries
/// a value.
pub open spec fn split_of(args: Seq<Seq<char>>, param: Seq<char>) -> Option<Seq<char>>
    decreases args.len(),
{
    if args.len() == 0 {
        None
    } else if starts_with(args[0], param) && value_of(args[0]) is Some {
        value_of(args[0])
    } else {
        split_of(args.skip(1), param)
    }
}

/// Whether `s` begins with `p`.
pub fn begins_with(s: &str, p: &str) -> (r: bool)
    ensures
        r == starts_with(s@, p@),
{
    let n = s.unicode_len();
    let m = p.unicode_len();
    if m > n {
        return false;
    }
    let mut i: usize = 0;
    while i < m
        invariant
            i <= m,
            m <= n,
            n == s@.len(),
            m == p@.len(),
            forall|j: int| 0 <= j < i ==> s@[j] == p@[j],
        decreases m - i,
    {
        if s.get_char(i) != p.get_char(i) {
            return false;
        }
        i += 1;
    }
    true
}

/// Reads the value of one argument: the text behind its equals sign, if
/// the argument has exactly one.
pub fn argument_value(arg: &str) -> (r: Option<String>)
    ensures
        match r {
            Some(v) => value_of(arg@) == Some(v@),
            None => value_of(arg@).is_none(),
        },
{
    let n = arg.unicode_len();
    let mut count: usize = 0;
    let mut first: usize = 0;
    let mut i: usize = 0;
    while i < n
        invariant
            i <= n,
            n == arg@.len(),
            count <= i,
            count == count_of(arg@.take(i as int), '='),
            count > 0 ==> is_first(arg@, '=', first as int) && first < i,
            count == 0 ==> forall|j: int| 0 <= j < i ==> arg@[j] != '=',
        decreases n - i,
    {
        proof {
            assert(arg@.take(i + 1).drop_last() =~= arg@.take(i as int));
        }
        if arg.get_char(i) == '=' {
            if count == 0 {
                first = i;
            }
            count += 1;
        }
        i += 1;
    }
    proof {
        assert(arg@.take(n as int) =~= arg@);
    }
    if count == 1 {
        proof {
            let k = choose|k: int| is_first(arg@, '=', k);
            assert(is_first(arg@, '=', k));
            assert(k == first);
        }
        Some(String::from_str(arg.substring_char(first + 1, n)))
    } else {
        None
    }
}

/// The place where arguments are looked up.
pub struct ArgParser {}

impl ArgParser {
    /// Looks `param` up among `args`: the first argument that begins with
    /// `param` and has exactly one equals sign gives its value.
    pub fn split(args: &Vec<String>, param: &str) -> (r: Option<String>)
        ensures
            match r {
                Some(v) => split_of(texts(args@), param@) == Some(v@),
                None => split_of(texts(args@), param@).is_none(),
            },
    {
        let mut i: usize = 0;
        proof {
            assert(texts(args@).skip(0) =~= texts(args@));
        }
        while i < args.len()
            invariant
                i <= args.len(),
                split_of(texts(args@).skip(i as int), param@) == split_of(
                    texts(args@),
                    param@,
                ),
            decreases args.len() - i,
        {
            let ghost rest = texts(args@).skip(i as int);
            proof {
                assert(rest[0] == args@[i as int]@);
                assert(rest.skip(1) =~= texts(args@).skip(i + 1));
            }
            if begins_with(args[i].as_str(), param) {
                match argument_value(args[i].as_str()) {
                    Some(v) => {
                        return Some(v);
                    },
                    None => {},
                }
            }
            i += 1;
        }
        None
    }
}

} // verus!
