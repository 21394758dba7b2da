//! Character-level helpers shared by the scanners and the message builders.
use vstd::prelude::*;
use vstd::std_specs::iter::IteratorSpec;

verus! {

/// `pat` occurs in `s` at position `i`.
pub open spec fn occurs_at(s: Seq<char>, pat: Seq<char>, i: int) -> bool {
    0 <= i && i + pat.len() <= s.len() && s.subrange(i, i + pat.len()) == pat
}

/// `pat` occurs somewhere in `s`.
pub open spec fn has_sub(s: Seq<char>, pat: Seq<char>) -> bool {
    exists|i: int| occurs_at(s, pat, i)
}

/// The Unicode `White_Space` characters.
pub open spec fn is_ws(c: char) -> bool {
    let u = c as u32;
    (0x9 <= u && u <= 0xD) || u == 0x20 || u == 0x85 || u == 0xA0 || u == 0x1680 || (0x2000
        <= u && u <= 0x200A) || u == 0x2028 || u == 0x2029 || u == 0x202F || u == 0x205F || u
        == 0x3000
}

pub open spec fn is_digit(c: char) -> bool {
    '0' <= c && c <= '9'
}

/// `s` without its leading white space.
pub open spec fn trim_front(s: Seq<char>) -> Seq<char>
    decreases s.len(),
{
    if s.len() > 0 && is_ws(s[0]) {
        trim_front(s.drop_first())
    } else {
        s
    }
}

/// `s` without its trailing white space.
pub open spec fn trim_back(s: Seq<char>) -> Seq<char>
    decreases s.len(),
{
    if s.len() > 0 && is_ws(s.last()) {
        trim_back(s.drop_last())
    } else {
        s
    }
}

pub open spec fn trimmed(s: Seq<char>) -> Seq<char> {
    trim_back(trim_front(s))
}

/// The first `n` characters of `s`, or all of it when it is shorter.
pub open spec fn prefix_of(s: Seq<char>, n: nat) -> Seq<char> {
    if s.len() <= n {
        s
    } else {
        s.take(n as int)
    }
}

pub fn is_ws_char(c: char) -> (r: bool)
    ensures
        r == is_ws(c),
{
    let u = c as u32;
    (0x9 <= u && u <= 0xD) || u == 0x20 || u == 0x85 || u == 0xA0 || u == 0x1680 || (0x2000
        <= u && u <= 0x200A) || u == 0x2028 || u == 0x2029 || u == 0x202F || u == 0x205F || u
        == 0x3000
}

/// The characters of `s`, in order.
pub fn chars_of(s: &str) -> (r: Vec<char>)
    ensures
        r@ == s@,
{
    broadcast use vstd::string::group_string_axioms;

    let mut it = s.chars();
    let mut r: Vec<char> = Vec::new();
    loop
        invariant
            r@ + it.remaining() == s@,
            it.obeys_prophetic_iter_laws(),
        ensures
            r@ == s@,
        decreases s@.len() - r@.len(),
    {
        match it.next() {
            Some(c) => {
                r.push(c);
            },
            None => {
                assert(it.remaining().len() == 0);
                assert(r@ + it.remaining() =~= r@);
                break ;
            },
        }
    }
    r
}

/// Whether `pat` occurs in `s` at position `i`.
pub fn occurs_at_exec(s: &Vec<char>, pat: &Vec<char>, i: usize) -> (r: bool)
    ensures
        r == occurs_at(s@, pat@, i as int),
{
    if i > s.len() || pat.len() > s.len() - i {
        return false;
    }
    let mut k: usize = 0;
    while k < pat.len()
        invariant
            i + pat.len() <= s.len(),
            k <= pat.len(),
            forall|j: int| 0 <= j < k ==> s@[i + j] == pat@[j],
        decreases pat.len() - k,
    {
        if s[i + k] != pat[k] {
            assert(s@.subrange(i as int, i + pat.len())[k as int] != pat@[k as int]);
            return false;
        }
        k = k + 1;
    }
    assert(s@.subrange(i as int, i + pat.len()) =~= pat@);
    true
}

/// Whether `pat` occurs anywhere in `s`.
pub fn contains_chars(s: &Vec<char>, pat: &Vec<char>) -> (r: bool)
    ensures
        r == has_sub(s@, pat@),
{
    if pat.len() == 0 {
        assert(s@.subrange(0, 0) =~= pat@);
        assert(occurs_at(s@, pat@, 0));
        return true;
    }
    let mut i: usize = 0;
    while i < s.len()
        invariant
            forall|j: int| 0 <= j < i ==> !occurs_at(s@, pat@, j),
        decreases s.len() - i,
    {
        if occurs_at_exec(s, pat, i) {
            return true;
        }
        i = i + 1;
    }
    assert forall|j: int| !occurs_at(s@, pat@, j) by {
        if j >= i {
            assert(j + pat@.len() > s@.len());
        }
    }
    false
}

proof fn lemma_trim_front_skip(s: Seq<char>, a: int)
    requires
        0 <= a < s.len(),
        is_ws(s[a]),
    ensures
        trim_front(s.subrange(a, s.len() as int)) == trim_front(s.subrange(a + 1, s.len() as int)),
{
    assert(s.subrange(a, s.len() as int).drop_first() =~= s.subrange(a + 1, s.len() as int));
}

proof fn lemma_trim_back_skip(s: Seq<char>, b: int)
    requires
        0 < b <= s.len(),
        is_ws(s[b - 1]),
    ensures
        trim_back(s.subrange(0, b)) == trim_back(s.subrange(0, b - 1)),
{
    assert(s.subrange(0, b).drop_last() =~= s.subrange(0, b - 1));
}

/// The first `n` characters of `s` with white space trimmed from both ends.
pub fn trimmed_prefix(s: &str, n: usize) -> (r: String)
    ensures
        r@ == prefix_of(trimmed(s@), n as nat),
{
    let v = chars_of(s);
    let len = v.len();
    let mut a: usize = 0;
    assert(s@.subrange(0, len as int) =~= s@);
    while a < len && is_ws_char(v[a])
        invariant
            v@ == s@,
            len == s@.len(),
            a <= len,
            trim_front(s@) == trim_front(s@.subrange(a as int, len as int)),
        decreases len - a,
    {
        proof {
            lemma_trim_front_skip(s@, a as int);
        }
        a = a + 1;
    }
    let ghost front = s@.subrange(a as int, len as int);
    assert(trim_front(s@) == front);
    let mut b: usize = len;
    assert(front.subrange(0, (b - a) as int) =~= front);
    while b > a && is_ws_char(v[b - 1])
        invariant
            v@ == s@,
            len == s@.len(),
            a <= b <= len,
            front == s@.subrange(a as int, len as int),
            trim_back(front) == trim_back(front.subrange(0, (b - a) as int)),
        decreases b - a,
    {
        proof {
            lemma_trim_back_skip(front, (b - a) as int);
        }
        b = b - 1;
    }
    assert(trimmed(s@) =~= s@.subrange(a as int, b as int));
    let end: usize = if b - a <= n {
        b
    } else {
        a + n
    };
    assert(prefix_of(trimmed(s@), n as nat) =~= s@.subrange(a as int, end as int));
    String::from_str(s.substring_char(a, end))
}

} // verus!
