//! Small helpers on path hints and file names.

use vstd::prelude::*;
use vstd::string::StrSliceExecFns;
use vstd::string::StringExecFns;

verus! {

/// Whether `name` ends in a dot followed by `ext`.
pub open spec fn has_extension(name: Seq<char>, ext: Seq<char>) -> bool {
    &&& name.len() >= ext.len() + 1
    &&& name[name.len() - ext.len() - 1] == '.'
    &&& name.subrange(name.len() - ext.len(), name.len() as int) == ext
}

/// The number of trailing `/` characters of `path`.
pub open spec fn trailing_slashes(path: Seq<char>) -> nat
    decreases path.len(),
{
    if path.len() > 0 && path.last() == '/' {
        1 + trailing_slashes(path.drop_last())
    } else {
        0
    }
}

/// The length of the last run of characters of `path` that holds no `/`.
pub open spec fn last_component_len(path: Seq<char>) -> nat
    decreases path.len(),
{
    if path.len() > 0 && path.last() != '/' {
        1 + last_component_len(path.drop_last())
    } else {
        0
    }
}

/// `path` without its trailing `/` characters.
pub open spec fn without_trailing_slashes(path: Seq<char>) -> Seq<char> {
    path.subrange(0, path.len() - trailing_slashes(path))
}

/// The final component of a path hint: the last of the parts between
/// `/` characters that is neither empty nor `.`. There is none where no such
/// part is left, or where that part is `..`.
pub open spec fn file_name_of(path: Seq<char>) -> Option<Seq<char>>
    decreases path.len(),
    via file_name_of_decreases
{
    let trimmed = without_trailing_slashes(path);
    let name = trimmed.subrange(trimmed.len() - last_component_len(trimmed), trimmed.len() as int);
    if name.len() == 0 {
        None
    } else if name == seq!['.'] {
        file_name_of(trimmed.subrange(0, trimmed.len() - 1))
    } else if name == seq!['.', '.'] {
        None
    } else {
        Some(name)
    }
}

/// No path has more trailing slashes than characters.
proof fn lemma_trailing_slashes_bound(path: Seq<char>)
    ensures
        trailing_slashes(path) <= path.len(),
    decreases path.len(),
{
    if path.len() > 0 && path.last() == '/' {
        lemma_trailing_slashes_bound(path.drop_last());
    }
}

#[via_fn]
proof fn file_name_of_decreases(path: Seq<char>) {
    lemma_trailing_slashes_bound(path);
}

/// A run of `k` slashes at the end of `path`, with another character before
/// it or nothing, is all of its trailing slashes.
proof fn lemma_trailing_slashes_is(path: Seq<char>, k: nat)
    requires
        k <= path.len(),
        forall|i: int| path.len() - k <= i < path.len() ==> path[i] == '/',
        k < path.len() ==> path[path.len() - k - 1] != '/',
    ensures
        trailing_slashes(path) == k,
    decreases path.len(),
{
    if k > 0 {
        lemma_trailing_slashes_is(path.drop_last(), (k - 1) as nat);
    }
}

proof fn lemma_last_component_is(path: Seq<char>, k: nat)
    requires
        k <= path.len(),
        forall|i: int| path.len() - k <= i < path.len() ==> path[i] != '/',
        k < path.len() ==> path[path.len() - k - 1] == '/',
    ensures
        last_component_len(path) == k,
    decreases path.len(),
{
    if k > 0 {
        lemma_last_component_is(path.drop_last(), (k - 1) as nat);
    }
}

/// Tests whether `name` ends in `.` followed by `ext`.
pub fn ends_with_extension(name: &str, ext: &str) -> (hit: bool)
    ensures
        hit == has_extension(name@, ext@),
{
    let n = name.unicode_len();
    let m = ext.unicode_len();
    if n <= m {
        return false;
    }
    if name.get_char(n - m - 1) != '.' {
        return false;
    }
    let mut i: usize = 0;
    while i < m
        invariant
            n == name@.len(),
            m == ext@.len(),
            m < n,
            i <= m,
            forall|j: int| 0 <= j < i ==> name@[n - m + j] == ext@[j],
        decreases m - i,
    {
        if name.get_char(n - m + i) != ext.get_char(i) {
            proof {
                let tail = name@.subrange(n - m, n as int);
                assert(tail[i as int] == name@[n - m + i]);
            }
            return false;
        }
        i += 1;
    }
    assert(name@.subrange(n - m, n as int) =~= ext@);
    true
}

/// The final component of `path`, as `file_name_of` defines it.
pub fn file_name(path: &str) -> (name: Option<String>)
    ensures
        match name {
            Some(s) => file_name_of(path@) == Some(s@),
            None => file_name_of(path@) is None,
        },
{
    let n = path.unicode_len();
    let mut upto: usize = n;
    assert(path@.subrange(0, n as int) =~= path@);
    loop
        invariant
            n == path@.len(),
            upto <= n,
            file_name_of(path@) == file_name_of(path@.subrange(0, upto as int)),
        decreases upto,
    {
        let ghost rest = path@.subrange(0, upto as int);
        let mut end: usize = upto;
        while end > 0 && path.get_char(end - 1) == '/'
            invariant
                n == path@.len(),
                end <= upto <= n,
                forall|i: int| end <= i < upto ==> path@[i] == '/',
            decreases end,
        {
            end -= 1;
        }
        let ghost trimmed = path@.subrange(0, end as int);
        proof {
            assert forall|i: int| rest.len() - (upto - end) <= i < rest.len() implies rest[i]
                == '/' by {
                assert(rest[i] == path@[i]);
            }
            if end > 0 {
                assert(rest[end - 1] == path@[end - 1]);
            }
            lemma_trailing_slashes_is(rest, (upto - end) as nat);
            assert(without_trailing_slashes(rest) =~= trimmed);
        }
        let mut start: usize = end;
        while start > 0 && path.get_char(start - 1) != '/'
            invariant
                n == path@.len(),
                start <= end <= n,
                forall|i: int| start <= i < end ==> path@[i] != '/',
            decreases start,
        {
            start -= 1;
        }
        proof {
            assert forall|i: int| trimmed.len() - (end - start) <= i < trimmed.len() implies
                trimmed[i] != '/' by {
                assert(trimmed[i] == path@[i]);
            }
            if start > 0 {
                assert(trimmed[start - 1] == path@[start - 1]);
            }
            lemma_last_component_is(trimmed, (end - start) as nat);
            assert(trimmed.subrange(start as int, end as int) =~= path@.subrange(
                start as int,
                end as int,
            ));
        }
        let part = path.substring_char(start, end);
        let len = end - start;
        if len == 0 {
            return None;
        }
        if len == 1 && part.get_char(0) == '.' {
            proof {
                assert(part@ =~= seq!['.']);
                assert(trimmed.subrange(0, trimmed.len() - 1) =~= path@.subrange(0, start as int));
            }
            upto = start;
            continue;
        }
        if len == 2 && part.get_char(0) == '.' && part.get_char(1) == '.' {
            assert(part@ =~= seq!['.', '.']);
            return None;
        }
        assert(part@ != seq!['.']) by {
            if part@ == seq!['.'] {
                assert(seq!['.'].len() == 1);
                assert(seq!['.'][0] == '.');
            }
        }
        assert(part@ != seq!['.', '.']) by {
            if part@ == seq!['.', '.'] {
                assert(seq!['.', '.'].len() == 2);
                assert(seq!['.', '.'][0] == '.');
                assert(seq!['.', '.'][1] == '.');
            }
        }
        return Some(String::from_str(part));
    }
}

/// The character for one decimal digit.
pub open spec fn digit_char(d: int) -> char {
    if d == 0 {
        '0'
    } else if d == 1 {
        '1'
    } else if d == 2 {
        '2'
    } else if d == 3 {
        '3'
    } else if d == 4 {
        '4'
    } else if d == 5 {
        '5'
    } else if d == 6 {
        '6'
    } else if d == 7 {
        '7'
    } else if d == 8 {
        '8'
    } else {
        '9'
    }
}

/// The decimal digits of a natural number, without leading zeros.
pub open spec fn decimal_nat(n: nat) -> Seq<char>
    decreases n,
{
    if n < 10 {
        seq![digit_char(n as int)]
    } else {
        decimal_nat(n / 10).push(digit_char((n % 10) as int))
    }
}

/// An integer in decimal, with `-` before a negative one.
pub open spec fn decimal(n: int) -> Seq<char> {
    if n < 0 {
        seq!['-'] + decimal_nat((-n) as nat)
    } else {
        decimal_nat(n as nat)
    }
}

fn digit_str(d: u64) -> (s: &'static str)
    requires
        d < 10,
    ensures
        s@ == seq![digit_char(d as int)],
{
    proof {
        reveal_strlit("0");
        reveal_strlit("1");
        reveal_strlit("2");
        reveal_strlit("3");
        reveal_strlit("4");
        reveal_strlit("5");
        reveal_strlit("6");
        reveal_strlit("7");
        reveal_strlit("8");
        reveal_strlit("9");
    }
    let s = if d == 0 {
        "0"
    } else if d == 1 {
        "1"
    } else if d == 2 {
        "2"
    } else if d == 3 {
        "3"
    } else if d == 4 {
        "4"
    } else if d == 5 {
        "5"
    } else if d == 6 {
        "6"
    } else if d == 7 {
        "7"
    } else if d == 8 {
        "8"
    } else {
        "9"
    };
    assert(s@ =~= seq![digit_char(d as int)]);
    s
}

fn decimal_nat_string(n: u64) -> (s: String)
    ensures
        s@ == decimal_nat(n as nat),
    decreases n,
{
    if n < 10 {
        String::from_str(digit_str(n))
    } else {
        let head = decimal_nat_string(n / 10);
        let s = head.concat(digit_str(n % 10));
        assert(s@ =~= decimal_nat((n / 10) as nat).push(digit_char((n % 10) as int)));
        s
    }
}

/// Writes `n` in decimal.
pub fn decimal_string(n: i32) -> (s: String)
    ensures
        s@ == decimal(n as int),
{
    if n < 0 {
        let magnitude: u64 = (-(n as i64)) as u64;
        let digits = decimal_nat_string(magnitude);
        proof {
            reveal_strlit("-");
        }
        let s = String::from_str("-").concat(digits.as_str());
        assert(s@ =~= seq!['-'] + decimal_nat((-n) as nat));
        s
    } else {
        decimal_nat_string(n as u64)
    }
}

} // verus!
