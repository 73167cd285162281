//! Character-level text helpers shared by the parsers and formatters of the library.
//!
//! Every function works on `Seq<char>` in its contract; the executable side converts
//! `&str` to a `Vec<char>` once and works on that.
use vstd::prelude::*;

verus! {

/// Unicode `White_Space`, the set that `char::is_whitespace` and `str::trim` use.
pub open spec fn is_ws(c: char) -> bool {
    let u = c as u32;
    ||| 0x9 <= u <= 0xD
    ||| u == 0x20
    ||| u == 0x85
    ||| u == 0xA0
    ||| u == 0x1680
    ||| 0x2000 <= u <= 0x200A
    ||| u == 0x2028
    ||| u == 0x2029
    ||| u == 0x202F
    ||| u == 0x205F
    ||| u == 0x3000
}

pub fn is_ws_char(c: char) -> (r: bool)
    ensures
        r == is_ws(c),
{
    let u = c as u32;
    (0x9 <= u && u <= 0xD) || u == 0x20 || u == 0x85 || u == 0xA0 || u == 0x1680 || (0x2000
        <= u && u <= 0x200A) || u == 0x2028 || u == 0x2029 || u == 0x202F || u == 0x205F || u
        == 0x3000
}

/// ASCII letters and digits (`char::is_ascii_alphanumeric`).
pub open spec fn is_ascii_alnum(c: char) -> bool {
    let u = c as u32;
    ||| 0x30 <= u <= 0x39
    ||| 0x41 <= u <= 0x5A
    ||| 0x61 <= u <= 0x7A
}

pub fn is_ascii_alnum_char(c: char) -> (r: bool)
    ensures
        r == is_ascii_alnum(c),
{
    let u = c as u32;
    (0x30 <= u && u <= 0x39) || (0x41 <= u && u <= 0x5A) || (0x61 <= u && u <= 0x7A)
}

/// Appends one character to a `String` (`String::push`).
#[verifier::external_body]
pub(crate) fn push_char(s: &mut String, c: char)
    ensures
        final(s)@ == old(s)@.push(c),
{
    s.push(c);
}

/// The characters of a string slice, in order.
pub fn to_chars(s: &str) -> (r: Vec<char>)
    ensures
        r@ == s@,
{
    let mut v: Vec<char> = Vec::new();
    for c in it: s.chars()
        invariant
            v@ == it.seq().take(it.index() as int),
            it.seq() == s@,
    {
        v.push(c);
    }
    v
}

/// A `String` holding exactly the characters of `v`.
pub fn from_chars(v: &Vec<char>) -> (r: String)
    ensures
        r@ == v@,
{
    let mut s = String::new();
    let mut i: usize = 0;
    while i < v.len()
        invariant
            i <= v.len(),
            s@ == v@.take(i as int),
        decreases v.len() - i,
    {
        push_char(&mut s, v[i]);
        assert(v@.take(i + 1) =~= v@.take(i as int).push(v@[i as int]));
        i = i + 1;
    }
    assert(v@.take(v.len() as int) =~= v@);
    s
}

/// A `String` copy of a string slice.
pub fn string_of(s: &str) -> (r: String)
    ensures
        r@ == s@,
{
    s.to_owned()
}

/// `a` followed by `b`.
pub fn concat(a: &str, b: &str) -> (r: String)
    ensures
        r@ == a@ + b@,
{
    let mut s = a.to_owned();
    s.append(b);
    s
}

/// `a`, `b` and `c` one after the other.
pub fn concat3(a: &str, b: &str, c: &str) -> (r: String)
    ensures
        r@ == a@ + b@ + c@,
{
    let mut s = a.to_owned();
    s.append(b);
    s.append(c);
    s
}

/// Appends a string slice in place.
pub fn append(s: &mut String, t: &str)
    ensures
        final(s)@ == old(s)@ + t@,
{
    s.append(t);
}

/// Equality of two character vectors.
pub fn chars_eq(a: &Vec<char>, b: &Vec<char>) -> (r: bool)
    ensures
        r == (a@ == b@),
{
    if a.len() != b.len() {
        return false;
    }
    let mut i: usize = 0;
    while i < a.len()
        invariant
            a.len() == b.len(),
            i <= a.len(),
            forall|j: int| 0 <= j < i ==> a@[j] == b@[j],
        decreases a.len() - i,
    {
        if a[i] != b[i] {
            return false;
        }
        i = i + 1;
    }
    assert(a@ =~= b@);
    true
}

/// Equality of two string slices.
pub fn str_eq(a: &str, b: &str) -> (r: bool)
    ensures
        r == (a@ == b@),
{
    let va = to_chars(a);
    let vb = to_chars(b);
    chars_eq(&va, &vb)
}

/// Whether `p` occurs in `s` starting at position `i`.
pub open spec fn occurs_at(s: Seq<char>, p: Seq<char>, i: int) -> bool {
    0 <= i && i + p.len() <= s.len() && s.subrange(i, i + p.len()) == p
}

pub fn occurs_at_exec(s: &Vec<char>, p: &Vec<char>, i: usize) -> (r: bool)
    ensures
        r == occurs_at(s@, p@, i as int),
{
    if i > s.len() || p.len() > s.len() - i {
        return false;
    }
    let mut k: usize = 0;
    while k < p.len()
        invariant
            i + p.len() <= s.len(),
            k <= p.len(),
            forall|j: int| 0 <= j < k ==> s@[i + j] == p@[j],
        decreases p.len() - k,
    {
        if s[i + k] != p[k] {
            assert(s@.subrange(i as int, i + p.len())[k as int] != p@[k as int]);
            return false;
        }
        k = k + 1;
    }
    assert(s@.subrange(i as int, i + p.len()) =~= p@);
    true
}

/// `p` is a prefix of `s` (`str::starts_with`).
pub fn starts_with(s: &Vec<char>, p: &Vec<char>) -> (r: bool)
    ensures
        r == p@.is_prefix_of(s@),
{
    let r = occurs_at_exec(s, p, 0);
    proof {
        if r {
            assert forall|j: int| 0 <= j < p@.len() implies p@[j] == s@[j] by {
                assert(s@.subrange(0, p@.len() as int)[j] == s@[j]);
            }
        }
        if p@.is_prefix_of(s@) {
            assert(s@.subrange(0, p@.len() as int) =~= p@);
        }
    }
    r
}

/// `p` is a suffix of `s` (`str::ends_with`).
pub open spec fn is_suffix(p: Seq<char>, s: Seq<char>) -> bool {
    p.len() <= s.len() && s.subrange(s.len() - p.len(), s.len() as int) == p
}

pub fn ends_with(s: &Vec<char>, p: &Vec<char>) -> (r: bool)
    ensures
        r == is_suffix(p@, s@),
{
    if p.len() > s.len() {
        return false;
    }
    occurs_at_exec(s, p, s.len() - p.len())
}

/// `p` occurs somewhere in `s` (`str::contains`).
pub open spec fn contains_seq(s: Seq<char>, p: Seq<char>) -> bool {
    exists|i: int| occurs_at(s, p, i)
}

pub fn contains(s: &Vec<char>, p: &Vec<char>) -> (r: bool)
    ensures
        r == contains_seq(s@, p@),
{
    if p.len() > s.len() {
        assert forall|i: int| !occurs_at(s@, p@, i) by {}
        return false;
    }
    let r = find(s, p);
    proof {
        if let Some(i) = r {
            assert(occurs_at(s@, p@, i as int));
        }
    }
    r.is_some()
}

/// The position of the first occurrence of `p` in `s` (`str::find`).
pub open spec fn first_occurrence(s: Seq<char>, p: Seq<char>, i: int) -> bool {
    occurs_at(s, p, i) && forall|j: int| 0 <= j < i ==> !occurs_at(s, p, j)
}

pub fn find(s: &Vec<char>, p: &Vec<char>) -> (r: Option<usize>)
    ensures
        r matches Some(i) ==> first_occurrence(s@, p@, i as int),
        r is None ==> !contains_seq(s@, p@),
{
    if p.len() > s.len() {
        assert forall|i: int| !occurs_at(s@, p@, i) by {}
        return None;
    }
    let last = s.len() - p.len();
    let mut i: usize = 0;
    while i < last
        invariant
            p.len() <= s.len(),
            last == s.len() - p.len(),
            i <= last,
            forall|j: int| 0 <= j < i ==> !occurs_at(s@, p@, j),
        decreases last - i,
    {
        if occurs_at_exec(s, p, i) {
            return Some(i);
        }
        i = i + 1;
    }
    if occurs_at_exec(s, p, last) {
        return Some(last);
    }
    assert forall|j: int| !occurs_at(s@, p@, j) by {
        if 0 <= j < last {
        }
    }
    None
}

/// `s` without its leading whitespace (`str::trim_start`).
pub open spec fn trim_start(s: Seq<char>) -> Seq<char>
    decreases s.len(),
{
    if s.len() > 0 && is_ws(s[0]) {
        trim_start(s.drop_first())
    } else {
        s
    }
}

/// `s` without its trailing whitespace (`str::trim_end`).
pub open spec fn trim_end(s: Seq<char>) -> Seq<char>
    decreases s.len(),
{
    if s.len() > 0 && is_ws(s.last()) {
        trim_end(s.drop_last())
    } else {
        s
    }
}

/// `s` without leading and trailing whitespace (`str::trim`).
pub open spec fn trim(s: Seq<char>) -> Seq<char> {
    trim_end(trim_start(s))
}

pub fn trim_start_chars(s: &Vec<char>) -> (r: Vec<char>)
    ensures
        r@ == trim_start(s@),
{
    let mut i: usize = 0;
    assert(s@.skip(0) =~= s@);
    while i < s.len() && is_ws_char(s[i])
        invariant
            i <= s.len(),
            trim_start(s@) == trim_start(s@.skip(i as int)),
        decreases s.len() - i,
    {
        assert(s@.skip(i as int).drop_first() =~= s@.skip(i + 1));
        i = i + 1;
    }
    let mut r: Vec<char> = Vec::new();
    let mut k: usize = i;
    while k < s.len()
        invariant
            i <= k <= s.len(),
            r@ == s@.subrange(i as int, k as int),
        decreases s.len() - k,
    {
        r.push(s[k]);
        assert(s@.subrange(i as int, k + 1) =~= s@.subrange(i as int, k as int).push(s@[k as int]));
        k = k + 1;
    }
    assert(r@ =~= s@.skip(i as int));
    r
}

pub fn trim_end_chars(s: &Vec<char>) -> (r: Vec<char>)
    ensures
        r@ == trim_end(s@),
{
    let mut n: usize = s.len();
    assert(s@.take(n as int) =~= s@);
    while n > 0 && is_ws_char(s[n - 1])
        invariant
            n <= s.len(),
            trim_end(s@) == trim_end(s@.take(n as int)),
        decreases n,
    {
        assert(s@.take(n as int).drop_last() =~= s@.take(n - 1));
        n = n - 1;
    }
    let mut r: Vec<char> = Vec::new();
    let mut k: usize = 0;
    while k < n
        invariant
            k <= n <= s.len(),
            r@ == s@.take(k as int),
        decreases n - k,
    {
        r.push(s[k]);
        assert(s@.take(k + 1) =~= s@.take(k as int).push(s@[k as int]));
        k = k + 1;
    }
    r
}

pub fn trim_chars(s: &Vec<char>) -> (r: Vec<char>)
    ensures
        r@ == trim(s@),
{
    let a = trim_start_chars(s);
    trim_end_chars(&a)
}

/// The characters of `s` from `i` (inclusive) to `j` (exclusive).
pub fn slice_chars(s: &Vec<char>, i: usize, j: usize) -> (r: Vec<char>)
    requires
        i <= j <= s.len(),
    ensures
        r@ == s@.subrange(i as int, j as int),
{
    let mut r: Vec<char> = Vec::new();
    let mut k: usize = i;
    while k < j
        invariant
            i <= k <= j <= s.len(),
            r@ == s@.subrange(i as int, k as int),
        decreases j - k,
    {
        r.push(s[k]);
        assert(s@.subrange(i as int, k + 1) =~= s@.subrange(i as int, k as int).push(s@[k as int]));
        k = k + 1;
    }
    r
}

/// Lexicographic order on code points, which is the order of `String`'s `Ord`.
pub open spec fn seq_lt(a: Seq<char>, b: Seq<char>) -> bool
    decreases a.len(),
{
    if a.len() == 0 {
        b.len() > 0
    } else if b.len() == 0 {
        false
    } else if (a[0] as u32) < (b[0] as u32) {
        true
    } else if a[0] == b[0] {
        seq_lt(a.drop_first(), b.drop_first())
    } else {
        false
    }
}

pub proof fn lemma_char_u32_injective(a: char, b: char)
    ensures
        (a as u32) == (b as u32) ==> a == b,
{
}

/// The order is irreflexive.
pub proof fn lemma_seq_lt_irreflexive(a: Seq<char>)
    ensures
        !seq_lt(a, a),
    decreases a.len(),
{
    if a.len() > 0 {
        lemma_seq_lt_irreflexive(a.drop_first());
    }
}

/// The order is transitive.
pub proof fn lemma_seq_lt_transitive(a: Seq<char>, b: Seq<char>, c: Seq<char>)
    requires
        seq_lt(a, b),
        seq_lt(b, c),
    ensures
        seq_lt(a, c),
    decreases a.len(),
{
    if a.len() > 0 && b.len() > 0 && c.len() > 0 {
        if a[0] == b[0] && b[0] == c[0] {
            lemma_seq_lt_transitive(a.drop_first(), b.drop_first(), c.drop_first());
        }
    }
}

/// Any two sequences are ordered one way or the other, or equal.
pub proof fn lemma_seq_lt_total(a: Seq<char>, b: Seq<char>)
    ensures
        seq_lt(a, b) || seq_lt(b, a) || a == b,
    decreases a.len(),
{
    if a.len() == 0 {
        if b.len() == 0 {
            assert(a =~= b);
        }
    } else if b.len() > 0 {
        lemma_char_u32_injective(a[0], b[0]);
        if a[0] == b[0] {
            lemma_seq_lt_total(a.drop_first(), b.drop_first());
            if a.drop_first() == b.drop_first() {
                assert(a.drop_first().len() == a.len() - 1);
                assert(b.drop_first().len() == b.len() - 1);
                assert(a.len() == b.len());
                assert forall|i: int| 0 <= i < a.len() implies a[i] == b[i] by {
                    if i > 0 {
                        assert(a[i] == a.drop_first()[i - 1]);
                        assert(b[i] == b.drop_first()[i - 1]);
                    }
                }
                assert(a =~= b);
            }
        }
    }
}

/// At most one of the two directions holds.
pub proof fn lemma_seq_lt_asymmetric(a: Seq<char>, b: Seq<char>)
    ensures
        !(seq_lt(a, b) && seq_lt(b, a)),
{
    if seq_lt(a, b) && seq_lt(b, a) {
        lemma_seq_lt_transitive(a, b, a);
        lemma_seq_lt_irreflexive(a);
    }
}

pub fn chars_lt(a: &Vec<char>, b: &Vec<char>) -> (r: bool)
    ensures
        r == seq_lt(a@, b@),
{
    let mut i: usize = 0;
    assert(a@.skip(0) =~= a@);
    assert(b@.skip(0) =~= b@);
    while i < a.len() && i < b.len()
        invariant
            i <= a.len(),
            i <= b.len(),
            seq_lt(a@, b@) == seq_lt(a@.skip(i as int), b@.skip(i as int)),
        decreases a.len() - i,
    {
        let x = a[i] as u32;
        let y = b[i] as u32;
        if x < y {
            return true;
        }
        if x != y {
            return false;
        }
        proof {
            lemma_char_u32_injective(a@[i as int], b@[i as int]);
            assert(a@.skip(i as int).drop_first() =~= a@.skip(i + 1));
            assert(b@.skip(i as int).drop_first() =~= b@.skip(i + 1));
        }
        i = i + 1;
    }
    i < b.len()
}

/// The order of two string slices.
pub fn str_lt(a: &str, b: &str) -> (r: bool)
    ensures
        r == seq_lt(a@, b@),
{
    let va = to_chars(a);
    let vb = to_chars(b);
    chars_lt(&va, &vb)
}

/// Index of the first newline in `s`, or its length when there is none.
pub open spec fn nl_index(s: Seq<char>) -> int
    decreases s.len(),
{
    if s.len() == 0 {
        0
    } else if s[0] == '\n' {
        0
    } else {
        1 + nl_index(s.drop_first())
    }
}

/// A line without the `\r` that precedes its `\n`.
pub open spec fn strip_cr(l: Seq<char>) -> Seq<char> {
    if l.len() > 0 && l.last() == '\r' {
        l.drop_last()
    } else {
        l
    }
}

/// The lines of `s` as `str::lines` yields them: split at `\n`, a `\r` before the `\n`
/// removed, and no empty line after a final `\n`.
pub open spec fn lines_of(s: Seq<char>) -> Seq<Seq<char>>
    decreases s.len(),
{
    if s.len() == 0 {
        seq![]
    } else {
        let k = nl_index(s);
        proof {
            lemma_nl_index_bounds(s);
        }
        if k >= s.len() {
            seq![s]
        } else {
            seq![strip_cr(s.take(k))] + lines_of(s.skip(k + 1))
        }
    }
}

pub proof fn lemma_nl_index_bounds(s: Seq<char>)
    ensures
        0 <= nl_index(s) <= s.len(),
        nl_index(s) < s.len() ==> s[nl_index(s)] == '\n',
        forall|j: int| 0 <= j < nl_index(s) ==> s[j] != '\n',
    decreases s.len(),
{
    if s.len() > 0 && s[0] != '\n' {
        lemma_nl_index_bounds(s.drop_first());
        assert forall|j: int| 0 <= j < nl_index(s) implies s[j] != '\n' by {
            if j > 0 {
                assert(s[j] == s.drop_first()[j - 1]);
            }
        }
    }
}

/// The character sequences held by a vector of character vectors.
pub open spec fn views(v: Seq<Vec<char>>) -> Seq<Seq<char>> {
    v.map_values(|x: Vec<char>| x@)
}

pub fn lines(s: &Vec<char>) -> (r: Vec<Vec<char>>)
    ensures
        views(r@) == lines_of(s@),
{
    let mut out: Vec<Vec<char>> = Vec::new();
    let mut st: usize = 0;
    assert(s@.skip(0) =~= s@);
    while st < s.len()
        invariant
            st <= s.len(),
            lines_of(s@) == views(out@) + lines_of(s@.skip(st as int)),
        decreases s.len() - st,
    {
        let ghost rest = s@.skip(st as int);
        let mut k: usize = st;
        assert(s@.skip(k as int) =~= rest);
        while k < s.len() && s[k] != '\n'
            invariant
                st <= k <= s.len(),
                rest == s@.skip(st as int),
                nl_index(rest) == (k - st) + nl_index(s@.skip(k as int)),
            decreases s.len() - k,
        {
            assert(s@.skip(k as int).drop_first() =~= s@.skip(k + 1));
            k = k + 1;
        }
        let line = slice_chars(s, st, k);
        assert(line@ =~= rest.take(k - st));
        let ghost prev = views(out@);
        proof {
            lemma_nl_index_bounds(rest);
        }
        if k == s.len() {
            assert(nl_index(rest) == k - st);
            assert(rest.take(k - st) =~= rest);
            out.push(line);
            st = k;
            assert(s@.skip(st as int) =~= Seq::<char>::empty());
            assert(lines_of(rest) == seq![rest]);
            assert(views(out@) =~= prev.push(rest));
            assert(lines_of(s@) == prev + seq![rest]);
            assert(lines_of(s@.skip(st as int)) =~= Seq::<Seq<char>>::empty());
            assert(views(out@) + lines_of(s@.skip(st as int)) =~= prev + seq![rest]);
        } else {
            assert(nl_index(rest) == k - st);
            let mut l = line;
            if l.len() > 0 && l[l.len() - 1] == '\r' {
                l.pop();
            }
            assert(l@ =~= strip_cr(rest.take(k - st)));
            assert(rest.skip(k - st + 1) =~= s@.skip(k + 1));
            assert(lines_of(rest) == seq![l@] + lines_of(s@.skip(k + 1)));
            out.push(l);
            st = k + 1;
            assert(views(out@) =~= prev.push(l@));
            assert(views(out@) + lines_of(s@.skip(st as int)) =~= prev + (seq![l@] + lines_of(
                s@.skip(st as int),
            )));
        }
    }
    assert(lines_of(s@.skip(st as int)) =~= Seq::<Seq<char>>::empty());
    assert(views(out@) + Seq::<Seq<char>>::empty() =~= views(out@));
    out
}

/// The decimal digit for `d < 10`.
pub open spec fn digit(d: nat) -> char {
    if d == 0 {
        '0'
    } else if d == 1 {
        '1'
    } else if d == 2 {
        '2'
    } else if d == 3 {
        '3'
    } else if d == 4 {
        '4'
    } else if d == 5 {
        '5'
    } else if d == 6 {
        '6'
    } else if d == 7 {
        '7'
    } else if d == 8 {
        '8'
    } else {
        '9'
    }
}

/// The decimal representation of `n`, as `Display` writes an unsigned integer.
pub open spec fn dec(n: nat) -> Seq<char>
    decreases n,
{
    if n < 10 {
        seq![digit(n)]
    } else {
        dec(n / 10).push(digit(n % 10))
    }
}

/// Every number has at least one digit; numbers from ten on have more than one.
pub proof fn lemma_dec_nonempty(n: nat)
    ensures
        dec(n).len() >= 1,
        n >= 10 ==> dec(n).len() >= 2,
    decreases n,
{
    if n >= 10 {
        lemma_dec_nonempty(n / 10);
    }
}

/// Different numbers are written differently.
pub proof fn lemma_dec_injective(a: nat, b: nat)
    ensures
        dec(a) == dec(b) ==> a == b,
    decreases a,
{
    if dec(a) == dec(b) {
        lemma_dec_nonempty(a);
        lemma_dec_nonempty(b);
        if a < 10 && b < 10 {
            assert(dec(a)[0] == digit(a));
            assert(dec(b)[0] == digit(b));
        } else if a >= 10 && b >= 10 {
            assert(dec(a).last() == digit(a % 10));
            assert(dec(b).last() == digit(b % 10));
            assert(dec(a).drop_last() =~= dec(a / 10));
            assert(dec(b).drop_last() =~= dec(b / 10));
            lemma_dec_injective(a / 10, b / 10);
        }
    }
}

fn digit_char(d: u64) -> (c: char)
    requires
        d < 10,
    ensures
        c == digit(d as nat),
{
    if d == 0 {
        '0'
    } else if d == 1 {
        '1'
    } else if d == 2 {
        '2'
    } else if d == 3 {
        '3'
    } else if d == 4 {
        '4'
    } else if d == 5 {
        '5'
    } else if d == 6 {
        '6'
    } else if d == 7 {
        '7'
    } else if d == 8 {
        '8'
    } else {
        '9'
    }
}

pub fn dec_chars(n: u64) -> (r: Vec<char>)
    ensures
        r@ == dec(n as nat),
    decreases n,
{
    if n < 10 {
        let mut v = Vec::new();
        v.push(digit_char(n));
        assert(v@ =~= seq![digit(n as nat)]);
        v
    } else {
        let mut v = dec_chars(n / 10);
        v.push(digit_char(n % 10));
        v
    }
}

/// `n` written in decimal.
pub fn dec_string(n: u64) -> (r: String)
    ensures
        r@ == dec(n as nat),
{
    let v = dec_chars(n);
    from_chars(&v)
}

/// What `format!("{:?}", s)` gives for a string: the text in double quotes with Rust's
/// escapes.
pub uninterp spec fn debug_text(s: Seq<char>) -> Seq<char>;

/// Rust's `Debug` formatting of a string slice (`<str as Debug>::fmt`): the result is
/// stated only through `debug_text` of the argument; its escaping rules are not written out.
#[verifier::external_body]
pub(crate) fn debug_str(s: &str) -> (r: String)
    ensures
        r@ == debug_text(s@),
{
    format!("{:?}", s)
}

/// What `str::to_lowercase` gives: the Unicode lowercase mapping of every character.
pub uninterp spec fn lowercase_text(s: Seq<char>) -> Seq<char>;

/// `str::to_lowercase`: the result is stated only through `lowercase_text` of the argument,
/// since the Unicode case tables are not written out here.
#[verifier::external_body]
pub(crate) fn to_lowercase(s: &str) -> (r: String)
    ensures
        r@ == lowercase_text(s@),
{
    s.to_lowercase()
}

/// `s` without leading and trailing copies of `c` (`str::trim_matches` with a char).
pub open spec fn trim_char_start(s: Seq<char>, c: char) -> Seq<char>
    decreases s.len(),
{
    if s.len() > 0 && s[0] == c {
        trim_char_start(s.drop_first(), c)
    } else {
        s
    }
}

pub open spec fn trim_char_end(s: Seq<char>, c: char) -> Seq<char>
    decreases s.len(),
{
    if s.len() > 0 && s.last() == c {
        trim_char_end(s.drop_last(), c)
    } else {
        s
    }
}

pub open spec fn trim_char(s: Seq<char>, c: char) -> Seq<char> {
    trim_char_end(trim_char_start(s, c), c)
}

proof fn lemma_trim_char_start_len(s: Seq<char>, c: char)
    ensures
        trim_char_start(s, c).len() <= s.len(),
    decreases s.len(),
{
    if s.len() > 0 && s[0] == c {
        lemma_trim_char_start_len(s.drop_first(), c);
    }
}

proof fn lemma_trim_char_end_len(s: Seq<char>, c: char)
    ensures
        trim_char_end(s, c).len() <= s.len(),
    decreases s.len(),
{
    if s.len() > 0 && s.last() == c {
        lemma_trim_char_end_len(s.drop_last(), c);
    }
}

/// Trimming never lengthens.
pub proof fn lemma_trim_char_len(s: Seq<char>, c: char)
    ensures
        trim_char(s, c).len() <= s.len(),
{
    lemma_trim_char_start_len(s, c);
    lemma_trim_char_end_len(trim_char_start(s, c), c);
}

proof fn lemma_trim_char_start_push(x: Seq<char>, c: char)
    ensures
        trim_char_start(x.push(c), c) == if trim_char_start(x, c).len() > 0 {
            trim_char_start(x, c).push(c)
        } else {
            Seq::<char>::empty()
        },
    decreases x.len(),
{
    if x.len() == 0 {
        assert(x.push(c)[0] == c);
        assert(x.push(c).drop_first() =~= Seq::<char>::empty());
        assert(trim_char_start(Seq::<char>::empty(), c) == Seq::<char>::empty());
    } else if x[0] == c {
        assert(x.push(c)[0] == c);
        lemma_trim_char_start_push(x.drop_first(), c);
        assert(x.push(c).drop_first() =~= x.drop_first().push(c));
    } else {
        assert(x.push(c)[0] == x[0]);
    }
}

proof fn lemma_trim_char_end_push(t: Seq<char>, c: char)
    ensures
        trim_char_end(t.push(c), c) == trim_char_end(t, c),
{
    assert(t.push(c).drop_last() =~= t);
}

proof fn lemma_trim_char_start_stops(t: Seq<char>, c: char)
    ensures
        trim_char_start(t, c).len() > 0 ==> trim_char_start(t, c)[0] != c,
    decreases t.len(),
{
    if t.len() > 0 && t[0] == c {
        lemma_trim_char_start_stops(t.drop_first(), c);
    }
}

proof fn lemma_trim_char_end_prefix(t: Seq<char>, c: char)
    ensures
        trim_char_end(t, c).len() <= t.len(),
        trim_char_end(t, c) == t.take(trim_char_end(t, c).len() as int),
        trim_char_end(t, c).len() > 0 ==> trim_char_end(t, c).last() != c,
    decreases t.len(),
{
    if t.len() > 0 && t.last() == c {
        lemma_trim_char_end_prefix(t.drop_last(), c);
        let r = trim_char_end(t.drop_last(), c);
        assert(t.drop_last().take(r.len() as int) =~= t.take(r.len() as int));
    } else {
        assert(t.take(t.len() as int) =~= t);
    }
}

/// Trimming a character off both ends of a text wrapped in that character gives what trimming
/// the inner text gives, and trimming twice trims no more than once.
pub proof fn lemma_trim_char_wrapped(x: Seq<char>, c: char)
    ensures
        trim_char(seq![c] + x + seq![c], c) == trim_char(x, c),
        trim_char(trim_char(x, c), c) == trim_char(x, c),
{
    let w = seq![c] + x + seq![c];
    assert(w.drop_first() =~= x.push(c));
    lemma_trim_char_start_push(x, c);
    let t = trim_char_start(x, c);
    if t.len() > 0 {
        lemma_trim_char_end_push(t, c);
    }
    let e = trim_char_end(t, c);
    lemma_trim_char_end_prefix(t, c);
    lemma_trim_char_start_stops(x, c);
    if e.len() > 0 {
        assert(e[0] == t[0]);
    }
    lemma_trim_char_end_prefix(e, c);
    if e.len() > 0 {
        assert(e.take(e.len() as int) =~= e);
    }
}

pub fn trim_char_chars(s: &Vec<char>, c: char) -> (r: Vec<char>)
    ensures
        r@ == trim_char(s@, c),
{
    let mut i: usize = 0;
    assert(s@.skip(0) =~= s@);
    while i < s.len() && s[i] == c
        invariant
            i <= s.len(),
            trim_char_start(s@, c) == trim_char_start(s@.skip(i as int), c),
        decreases s.len() - i,
    {
        assert(s@.skip(i as int).drop_first() =~= s@.skip(i + 1));
        i = i + 1;
    }
    let a = slice_chars(s, i, s.len());
    assert(a@ =~= s@.skip(i as int));
    let mut n: usize = a.len();
    assert(a@.take(n as int) =~= a@);
    while n > 0 && a[n - 1] == c
        invariant
            n <= a.len(),
            trim_char_end(a@, c) == trim_char_end(a@.take(n as int), c),
        decreases n,
    {
        assert(a@.take(n as int).drop_last() =~= a@.take(n - 1));
        n = n - 1;
    }
    let r = slice_chars(&a, 0, n);
    assert(r@ =~= a@.take(n as int));
    r
}

/// The elements of `v` joined by `sep` (`[String]::join`).
pub open spec fn join_seq(v: Seq<Seq<char>>, sep: Seq<char>) -> Seq<char>
    decreases v.len(),
{
    if v.len() == 0 {
        Seq::empty()
    } else if v.len() == 1 {
        v[0]
    } else {
        join_seq(v.drop_last(), sep) + sep + v.last()
    }
}

/// The views of a sequence of strings.
pub open spec fn string_seq_views(v: Seq<String>) -> Seq<Seq<char>> {
    v.map_values(|x: String| x@)
}

/// How often `x` occurs in `s`.
pub open spec fn occurrences(s: Seq<Seq<char>>, x: Seq<char>) -> nat
    decreases s.len(),
{
    if s.len() == 0 {
        0
    } else {
        occurrences(s.drop_last(), x) + if s.last() == x {
            1nat
        } else {
            0nat
        }
    }
}

pub proof fn lemma_occurrences_concat(a: Seq<Seq<char>>, b: Seq<Seq<char>>, x: Seq<char>)
    ensures
        occurrences(a + b, x) == occurrences(a, x) + occurrences(b, x),
    decreases b.len(),
{
    if b.len() == 0 {
        assert(a + b =~= a);
    } else {
        lemma_occurrences_concat(a, b.drop_last(), x);
        assert((a + b).drop_last() =~= a + b.drop_last());
    }
}

pub proof fn lemma_occurrences_single(y: Seq<char>, x: Seq<char>)
    ensures
        occurrences(seq![y], x) == if y == x {
            1nat
        } else {
            0nat
        },
{
    let s = seq![y];
    assert(s.drop_last() =~= Seq::<Seq<char>>::empty());
    assert(occurrences(s.drop_last(), x) == 0);
    assert(s.last() == y);
}

pub proof fn lemma_occurrences_contains(s: Seq<Seq<char>>, x: Seq<char>)
    ensures
        (occurrences(s, x) > 0) == s.contains(x),
    decreases s.len(),
{
    if s.len() > 0 {
        lemma_occurrences_contains(s.drop_last(), x);
        if s.drop_last().contains(x) {
            let i = choose|i: int| 0 <= i < s.drop_last().len() && s.drop_last()[i] == x;
            assert(s[i] == x);
        }
        if s.contains(x) && s.last() != x {
            let i = choose|i: int| 0 <= i < s.len() && s[i] == x;
            assert(i < s.len() - 1);
            assert(s.drop_last()[i] == x);
        }
    }
}

pub fn join_strings(v: &Vec<String>, sep: &str) -> (r: String)
    ensures
        r@ == join_seq(string_seq_views(v@), sep@),
{
    let mut out = String::new();
    let mut i: usize = 0;
    while i < v.len()
        invariant
            i <= v.len(),
            out@ == join_seq(string_seq_views(v@.take(i as int)), sep@),
        decreases v.len() - i,
    {
        let ghost before = string_seq_views(v@.take(i as int));
        assert(string_seq_views(v@.take(i + 1)).drop_last() =~= before);
        if i > 0 {
            out.append(sep);
        } else {
            assert(out@ =~= Seq::<char>::empty());
        }
        out.append(v[i].as_str());
        assert(string_seq_views(v@.take(i + 1)).last() == v@[i as int]@);
        i = i + 1;
    }
    assert(v@.take(v.len() as int) =~= v@);
    out
}

/// A name safe to use as one path component: non-empty, without `..`, and made of ASCII
/// letters, digits, `.`, `_` and `-` only.
pub open spec fn is_safe_name(s: Seq<char>) -> bool {
    &&& s.len() > 0
    &&& !contains_seq(s, ".."@)
    &&& forall|i: int| 0 <= i < s.len() ==> is_ascii_alnum(#[trigger] s[i]) || s[i] == '.' || s[i] == '_' || s[i] == '-'
}

/// Whether a name is safe as one path component (see `is_safe_name`).
pub fn safe_name(s: &str) -> (r: bool)
    ensures
        r == is_safe_name(s@),
{
    let c = to_chars(s);
    if c.len() == 0 {
        return false;
    }
    let dots = to_chars("..");
    if contains(&c, &dots) {
        proof {
            reveal_strlit("..");
        }
        return false;
    }
    proof {
        reveal_strlit("..");
    }
    let mut i: usize = 0;
    while i < c.len()
        invariant
            i <= c@.len(),
            c@ == s@,
            forall|k: int| 0 <= k < i ==> is_ascii_alnum(#[trigger] c@[k]) || c@[k] == '.' || c@[k] == '_' || c@[k] == '-',
        decreases c.len() - i,
    {
        let ch = c[i];
        if !(is_ascii_alnum_char(ch) || ch == '.' || ch == '_' || ch == '-') {
            return false;
        }
        i = i + 1;
    }
    true
}

} // verus!
