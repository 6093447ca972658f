//! Specifications of the `str` searches that the analyses use, and verified
//! helpers built on them.
use vstd::prelude::*;

verus! {

/// `sub` occurs in `s` at position `i`.
pub open spec fn occurs_at(s: Seq<char>, sub: Seq<char>, i: int) -> bool {
    0 <= i && i + sub.len() <= s.len() && s.subrange(i, i + sub.len()) == sub
}

/// `sub` occurs somewhere in `s`.
pub open spec fn contains(s: Seq<char>, sub: Seq<char>) -> bool {
    exists|i: int| occurs_at(s, sub, i)
}

pub open spec fn starts_with(s: Seq<char>, prefix: Seq<char>) -> bool {
    prefix.len() <= s.len() && s.subrange(0, prefix.len() as int) == prefix
}

pub open spec fn ends_with(s: Seq<char>, suffix: Seq<char>) -> bool {
    suffix.len() <= s.len() && s.subrange(s.len() - suffix.len(), s.len() as int) == suffix
}

/// The characters of `s`, in order.
pub fn chars_of(s: &str) -> (r: Vec<char>)
    ensures
        r@ == s@,
{
    broadcast use vstd::string::group_string_axioms;
    let mut r: Vec<char> = Vec::new();
    for c in it: s.chars()
        invariant
            r@.len() == it.index(),
            forall|i: int| 0 <= i < r@.len() ==> r@[i] == it.seq()[i],
            it.seq() == s@,
    {
        r.push(c);
    }
    assert(r@ =~= s@);
    r
}


/// The first `n` characters of `a` and `b` agree.
fn same_prefix(a: &Vec<char>, b: &Vec<char>, start: usize, n: usize) -> (r: bool)
    requires
        start + n <= a@.len(),
        n <= b@.len(),
    ensures
        r == (a@.subrange(start as int, start + n) == b@.subrange(0, n as int)),
{
    let alen = a.len();
    for i in 0..n
        invariant
            alen == a@.len(),
            start + n <= a@.len(),
            n <= b@.len(),
            forall|j: int| 0 <= j < i ==> a@[start + j] == b@[j],
    {
        if a[start + i] != b[i] {
            assert(a@.subrange(start as int, start + n)[i as int] != b@.subrange(0, n as int)[i as int]);
            return false;
        }
    }
    assert(a@.subrange(start as int, start + n) =~= b@.subrange(0, n as int));
    true
}

/// `str::starts_with` with a string pattern: true when `prefix` is a prefix of `s`.
pub fn str_starts_with(s: &str, prefix: &str) -> (r: bool)
    ensures
        r == starts_with(s@, prefix@),
{
    let a = chars_of(s);
    let b = chars_of(prefix);
    if b.len() > a.len() {
        return false;
    }
    let r = same_prefix(&a, &b, 0, b.len());
    assert(b@.subrange(0, b@.len() as int) =~= b@);
    r
}

/// `str::contains` with a string pattern: true when `sub` occurs in `s`.
pub fn str_contains(s: &str, sub: &str) -> (r: bool)
    ensures
        r == contains(s@, sub@),
{
    let a = chars_of(s);
    let b = chars_of(sub);
    assert(b@.subrange(0, b@.len() as int) =~= b@);
    if b.len() > a.len() {
        assert forall|i: int| !occurs_at(s@, sub@, i) by {}
        return false;
    }
    let last = a.len() - b.len();
    let mut i: usize = 0;
    loop
        invariant
            a@ == s@,
            b@ == sub@,
            i <= last,
            last + b@.len() == a@.len(),
            b@.subrange(0, b@.len() as int) == b@,
            forall|k: int| 0 <= k < i ==> !occurs_at(s@, sub@, k),
        decreases last - i,
    {
        if same_prefix(&a, &b, i, b.len()) {
            assert(occurs_at(s@, sub@, i as int));
            return true;
        }
        if i == last {
            assert(!occurs_at(s@, sub@, i as int));
            assert forall|k: int| !occurs_at(s@, sub@, k) by {
                if 0 <= k < i {
                } else if k == i {
                }
            }
            return false;
        }
        i += 1;
    }
}

/// `str::strip_prefix` with a string pattern: the rest of `s` after `prefix`,
/// when `s` starts with `prefix`.
pub fn str_strip_prefix<'a>(s: &'a str, prefix: &str) -> (r: Option<&'a str>)
    ensures
        r is Some <==> starts_with(s@, prefix@),
        r matches Some(rest) ==> rest@ == s@.skip(prefix@.len() as int),
{
    if str_starts_with(s, prefix) {
        let from = prefix.unicode_len();
        let to = s.unicode_len();
        Some(s.substring_char(from, to))
    } else {
        None
    }
}

/// `str::eq`: the two strings hold the same characters.
pub fn str_eq(a: &str, b: &str) -> (r: bool)
    ensures
        r == (a@ == b@),
{
    let x = chars_of(a);
    let y = chars_of(b);
    if x.len() != y.len() {
        return false;
    }
    let r = same_prefix(&x, &y, 0, y.len());
    assert(x@.subrange(0, x@.len() as int) =~= x@);
    assert(y@.subrange(0, y@.len() as int) =~= y@);
    r
}

/// `String::push`: appends `c`.
#[verifier::external_body]
pub fn string_push(s: &mut String, c: char)
    ensures
        final(s)@ == old(s)@.push(c),
{
    s.push(c);
}

/// The string holding the characters `cs`.
pub fn string_of(cs: &Vec<char>) -> (r: String)
    ensures
        r@ == cs@,
{
    let mut r = String::new();
    let n = cs.len();
    for i in 0..n
        invariant
            n == cs@.len(),
            r@ == cs@.take(i as int),
    {
        string_push(&mut r, cs[i]);
        assert(cs@.take(i + 1) == cs@.take(i as int).push(cs@[i as int]));
    }
    assert(cs@.take(n as int) == cs@);
    r
}

/// Unicode `White_Space`, as `char::is_whitespace` decides it.
pub open spec fn is_white_space(c: char) -> bool {
    let x = c as u32;
    (0x09 <= x && x <= 0x0d) || x == 0x20 || x == 0x85 || x == 0xa0 || x == 0x1680
        || (0x2000 <= x && x <= 0x200a) || x == 0x2028 || x == 0x2029 || x == 0x202f || x == 0x205f
        || x == 0x3000
}

pub fn is_white_space_exec(c: char) -> (r: bool)
    ensures
        r == is_white_space(c),
{
    let x = c as u32;
    (0x09 <= x && x <= 0x0d) || x == 0x20 || x == 0x85 || x == 0xa0 || x == 0x1680
        || (0x2000 <= x && x <= 0x200a) || x == 0x2028 || x == 0x2029 || x == 0x202f || x == 0x205f
        || x == 0x3000
}

/// The index of the first character of `s[i..]` (from the start) that is not white space.
pub open spec fn ws_start(s: Seq<char>, i: int) -> int
    decreases s.len() - i,
{
    if i < 0 || i >= s.len() || !is_white_space(s[i]) {
        i
    } else {
        ws_start(s, i + 1)
    }
}

/// The end of `s[..j]` without trailing white space, not going below `lo`.
pub open spec fn ws_end(s: Seq<char>, lo: int, j: int) -> int
    decreases j - lo,
{
    if j <= lo || j > s.len() || !is_white_space(s[j - 1]) {
        j
    } else {
        ws_end(s, lo, j - 1)
    }
}

/// `str::trim`: without leading and trailing white space.
pub open spec fn trim(s: Seq<char>) -> Seq<char> {
    let a = ws_start(s, 0);
    s.subrange(a, ws_end(s, a, s.len() as int))
}

pub open spec fn strip_start(s: Seq<char>, c: char, i: int) -> int
    decreases s.len() - i,
{
    if i < 0 || i >= s.len() || s[i] != c {
        i
    } else {
        strip_start(s, c, i + 1)
    }
}

pub open spec fn strip_end(s: Seq<char>, c: char, lo: int, j: int) -> int
    decreases j - lo,
{
    if j <= lo || j > s.len() || s[j - 1] != c {
        j
    } else {
        strip_end(s, c, lo, j - 1)
    }
}

/// `str::trim_matches` with a character: without leading and trailing `c`.
pub open spec fn trim_char(s: Seq<char>, c: char) -> Seq<char> {
    let a = strip_start(s, c, 0);
    s.subrange(a, strip_end(s, c, a, s.len() as int))
}

pub proof fn lemma_ws_start_bounds(s: Seq<char>, i: int)
    requires
        0 <= i <= s.len(),
    ensures
        i <= ws_start(s, i) <= s.len(),
    decreases s.len() - i,
{
    if i < s.len() && is_white_space(s[i]) {
        lemma_ws_start_bounds(s, i + 1);
    }
}

pub proof fn lemma_ws_end_bounds(s: Seq<char>, lo: int, j: int)
    requires
        0 <= lo <= j <= s.len(),
    ensures
        lo <= ws_end(s, lo, j) <= j,
    decreases j - lo,
{
    if j > lo && is_white_space(s[j - 1]) {
        lemma_ws_end_bounds(s, lo, j - 1);
    }
}

pub proof fn lemma_strip_start_bounds(s: Seq<char>, c: char, i: int)
    requires
        0 <= i <= s.len(),
    ensures
        i <= strip_start(s, c, i) <= s.len(),
    decreases s.len() - i,
{
    if i < s.len() && s[i] == c {
        lemma_strip_start_bounds(s, c, i + 1);
    }
}

pub proof fn lemma_strip_end_bounds(s: Seq<char>, c: char, lo: int, j: int)
    requires
        0 <= lo <= j <= s.len(),
    ensures
        lo <= strip_end(s, c, lo, j) <= j,
    decreases j - lo,
{
    if j > lo && s[j - 1] == c {
        lemma_strip_end_bounds(s, c, lo, j - 1);
    }
}

/// `s` without leading and trailing white space.
pub fn trim_chars(s: &Vec<char>) -> (r: Vec<char>)
    ensures
        r@ == trim(s@),
{
    let n = s.len();
    let mut a: usize = 0;
    while a < n && is_white_space_exec(s[a])
        invariant
            n == s@.len(),
            a <= n,
            ws_start(s@, a as int) == ws_start(s@, 0),
        decreases n - a,
    {
        a += 1;
    }
    let mut b: usize = n;
    while b > a && is_white_space_exec(s[b - 1])
        invariant
            n == s@.len(),
            a <= b <= n,
            ws_start(s@, 0) == a,
            ws_end(s@, a as int, b as int) == ws_end(s@, a as int, n as int),
        decreases b,
    {
        b -= 1;
    }
    slice_chars(s, a, b)
}

/// `s` without leading and trailing `c`.
pub fn trim_char_chars(s: &Vec<char>, c: char) -> (r: Vec<char>)
    ensures
        r@ == trim_char(s@, c),
{
    let n = s.len();
    let mut a: usize = 0;
    while a < n && s[a] == c
        invariant
            n == s@.len(),
            a <= n,
            strip_start(s@, c, a as int) == strip_start(s@, c, 0),
        decreases n - a,
    {
        a += 1;
    }
    let mut b: usize = n;
    while b > a && s[b - 1] == c
        invariant
            n == s@.len(),
            a <= b <= n,
            strip_start(s@, c, 0) == a,
            strip_end(s@, c, a as int, b as int) == strip_end(s@, c, a as int, n as int),
        decreases b,
    {
        b -= 1;
    }
    slice_chars(s, a, b)
}

/// The characters `s[a..b]`.
pub fn slice_chars(s: &Vec<char>, a: usize, b: usize) -> (r: Vec<char>)
    requires
        a <= b <= s@.len(),
    ensures
        r@ == s@.subrange(a as int, b as int),
{
    let mut r: Vec<char> = Vec::new();
    for k in a..b
        invariant
            b <= s@.len(),
            a <= k,
            r@ == s@.subrange(a as int, k as int),
    {
        r.push(s[k]);
        assert(s@.subrange(a as int, k + 1) == s@.subrange(a as int, k as int).push(s@[k as int]));
    }
    r
}

/// The two character sequences are equal.
pub fn chars_eq(a: &Vec<char>, b: &Vec<char>) -> (r: bool)
    ensures
        r == (a@ == b@),
{
    if a.len() != b.len() {
        return false;
    }
    let n = a.len();
    for k in 0..n
        invariant
            n == a@.len(),
            n == b@.len(),
            forall|j: int| 0 <= j < k ==> a@[j] == b@[j],
    {
        if a[k] != b[k] {
            return false;
        }
    }
    assert(a@ =~= b@);
    true
}

} // verus!
