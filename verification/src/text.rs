//! Verified text helpers: prefix tests, first-occurrence search and
//! leading-whitespace trimming over `Seq<char>` models of strings.

use vstd::prelude::*;
use vstd::string::StrSliceExecFns;

verus! {

/// A character with the Unicode `White_Space` property, the set that
/// `char::is_whitespace` recognizes.
pub open spec fn is_ws_char(c: char) -> bool {
    ||| c == ' '
    ||| (9 <= c as u32 && c as u32 <= 13)
    ||| c as u32 == 0x85
    ||| c as u32 == 0xA0
    ||| c as u32 == 0x1680
    ||| (0x2000 <= c as u32 && c as u32 <= 0x200A)
    ||| c as u32 == 0x2028
    ||| c as u32 == 0x2029
    ||| c as u32 == 0x202F
    ||| c as u32 == 0x205F
    ||| c as u32 == 0x3000
}

/// Decide `is_ws_char` executably.
pub fn char_is_ws(c: char) -> (b: bool)
    ensures
        b == is_ws_char(c),
{
    let u = c as u32;
    u == 0x20 || (9 <= u && u <= 13) || u == 0x85 || u == 0xA0 || u == 0x1680 || (0x2000 <= u && u
        <= 0x200A) || u == 0x2028 || u == 0x2029 || u == 0x202F || u == 0x205F || u == 0x3000
}

/// `s` with its longest all-whitespace prefix removed.
pub open spec fn trim_start_spec(s: Seq<char>) -> Seq<char>
    decreases s.len(),
{
    if s.len() > 0 && is_ws_char(s[0]) {
        trim_start_spec(s.drop_first())
    } else {
        s
    }
}

/// Trimming removes a prefix: the result is the suffix of `s` that starts
/// where the leading whitespace ends.
pub proof fn lemma_trim_is_suffix(s: Seq<char>)
    ensures
        trim_start_spec(s).len() <= s.len(),
        trim_start_spec(s) == s.skip(s.len() - trim_start_spec(s).len()),
    decreases s.len(),
{
    if s.len() > 0 && is_ws_char(s[0]) {
        lemma_trim_is_suffix(s.drop_first());
        assert(s.drop_first().skip(
            s.drop_first().len() - trim_start_spec(s.drop_first()).len(),
        ) =~= s.skip(s.len() - trim_start_spec(s).len()));
    } else {
        assert(s.skip(0) =~= s);
    }
}

/// `p` is a prefix of `s`.
pub open spec fn seq_starts_with(s: Seq<char>, p: Seq<char>) -> bool {
    p.len() <= s.len() && s.take(p.len() as int) == p
}

/// Decide whether `p` is a prefix of `s`.
pub fn str_starts_with(s: &str, p: &str) -> (b: bool)
    ensures
        b == seq_starts_with(s@, p@),
{
    let n = p.unicode_len();
    let m = s.unicode_len();
    if n > m {
        return false;
    }
    let mut i: usize = 0;
    while i < n
        invariant
            i <= n,
            n == p@.len(),
            m == s@.len(),
            n <= m,
            forall|j: int| 0 <= j < i ==> s@[j] == p@[j],
        decreases n - i,
    {
        if s.get_char(i) != p.get_char(i) {
            proof {
                assert(s@.take(n as int)[i as int] != p@[i as int]);
            }
            return false;
        }
        i = i + 1;
    }
    proof {
        assert(s@.take(n as int) =~= p@);
    }
    true
}

/// The position of the first occurrence of `p` in `s` at or after `from`,
/// or `-1` when there is none.
pub open spec fn spec_find(s: Seq<char>, p: Seq<char>, from: int) -> int
    decreases s.len() - from,
{
    if from < 0 || from + p.len() > s.len() || p.len() == 0 {
        -1
    } else if s.subrange(from, from + p.len()) == p {
        from
    } else {
        spec_find(s, p, from + 1)
    }
}

/// Whether `p` occurs in `s` at position `i`.
pub open spec fn occurs_at(s: Seq<char>, p: Seq<char>, i: int) -> bool {
    0 <= i && i + p.len() <= s.len() && s.subrange(i, i + p.len()) == p
}

/// `spec_find` returns the least occurrence at or after `from`, and `-1`
/// exactly when there is none.
pub proof fn lemma_spec_find(s: Seq<char>, p: Seq<char>, from: int)
    requires
        0 <= from,
        p.len() >= 1,
    ensures
        spec_find(s, p, from) == -1 ==> forall|j: int| from <= j ==> !occurs_at(s, p, j),
        spec_find(s, p, from) != -1 ==> {
            &&& from <= spec_find(s, p, from)
            &&& occurs_at(s, p, spec_find(s, p, from))
            &&& forall|j: int| from <= j < spec_find(s, p, from) ==> !occurs_at(s, p, j)
        },
    decreases s.len() - from,
{
    if from + p.len() > s.len() {
        assert(forall|j: int| from <= j ==> !occurs_at(s, p, j));
    } else if s.subrange(from, from + p.len()) == p {
    } else {
        lemma_spec_find(s, p, from + 1);
    }
}

/// Decide whether `p` occurs in `s` at position `at`.
fn str_match_at(s: &str, p: &str, at: usize) -> (b: bool)
    requires
        at + p@.len() <= s@.len(),
    ensures
        b == (s@.subrange(at as int, at + p@.len()) == p@),
{
    let n = p.unicode_len();
    let sn = s.unicode_len();
    let mut i: usize = 0;
    while i < n
        invariant
            i <= n,
            n == p@.len(),
            sn == s@.len(),
            at + n <= sn,
            forall|j: int| 0 <= j < i ==> s@[at + j] == p@[j],
        decreases n - i,
    {
        if s.get_char(at + i) != p.get_char(i) {
            proof {
                assert(s@.subrange(at as int, at + n)[i as int] != p@[i as int]);
            }
            return false;
        }
        i = i + 1;
    }
    proof {
        assert(s@.subrange(at as int, at + n) =~= p@);
    }
    true
}

/// Find the first occurrence of `p` in `s`, as `spec_find` describes it.
pub fn str_find(s: &str, p: &str) -> (r: Option<usize>)
    requires
        p@.len() >= 1,
    ensures
        match r {
            Option::Some(i) => spec_find(s@, p@, 0) == i as int,
            Option::None => spec_find(s@, p@, 0) == -1,
        },
{
    let n = s.unicode_len();
    let m = p.unicode_len();
    if m > n {
        return Option::None;
    }
    let bound = n - m;
    let mut i: usize = 0;
    while i <= bound
        invariant
            m == p@.len(),
            n == s@.len(),
            1 <= m <= n,
            bound == n - m,
            i <= bound + 1,
            spec_find(s@, p@, 0) == spec_find(s@, p@, i as int),
        decreases bound + 1 - i,
    {
        if str_match_at(s, p, i) {
            return Option::Some(i);
        }
        i = i + 1;
    }
    Option::None
}

/// `s` with its leading whitespace removed, executably.
pub fn str_trim_start<'a>(s: &'a str) -> (r: &'a str)
    ensures
        r@ == trim_start_spec(s@),
{
    let n = s.unicode_len();
    let mut i: usize = 0;
    let mut done: bool = false;
    proof {
        assert(s@.skip(0) =~= s@);
    }
    while !done
        invariant
            i <= n,
            n == s@.len(),
            trim_start_spec(s@) == trim_start_spec(s@.skip(i as int)),
            done ==> (i == n || !is_ws_char(s@[i as int])),
        decreases n - i, (if done {
            0int
        } else {
            1int
        }),
    {
        if i == n {
            done = true;
        } else if !char_is_ws(s.get_char(i)) {
            done = true;
        } else {
            proof {
                assert(s@.skip(i as int).drop_first() =~= s@.skip(i + 1));
            }
            i = i + 1;
        }
    }
    proof {
        if i < n {
            assert(s@.skip(i as int)[0] == s@[i as int]);
            assert(trim_start_spec(s@.skip(i as int)) == s@.skip(i as int));
        } else {
            assert(s@.skip(n as int) =~= Seq::<char>::empty());
        }
        assert(s@.skip(i as int) =~= s@.subrange(i as int, n as int));
    }
    s.substring_char(i, n)
}

} // verus!
