//! Character-sequence primitives used by the configuration grammar:
//! whitespace classification, trimming, and searching.

use vstd::prelude::*;

verus! {

/// Whether `c` carries the Unicode `White_Space` property.
pub open spec fn is_space(c: char) -> bool {
    let n = c as u32;
    ||| 0x09 <= n <= 0x0D
    ||| n == 0x20
    ||| n == 0x85
    ||| n == 0xA0
    ||| n == 0x1680
    ||| 0x2000 <= n <= 0x200A
    ||| n == 0x2028
    ||| n == 0x2029
    ||| n == 0x202F
    ||| n == 0x205F
    ||| n == 0x3000
}

/// Executable whitespace test.
pub fn is_whitespace(c: char) -> (b: bool)
    ensures
        b == is_space(c),
{
    let n: u32 = c as u32;
    (0x09 <= n && n <= 0x0D) || n == 0x20 || n == 0x85 || n == 0xA0 || n == 0x1680 || (0x2000 <= n
        && n <= 0x200A) || n == 0x2028 || n == 0x2029 || n == 0x202F || n == 0x205F || n == 0x3000
}

/// The characters of a string slice, collected in order.
pub fn to_chars(s: &str) -> (v: Vec<char>)
    ensures
        v@ == s@,
{
    let mut v: Vec<char> = Vec::new();
    for c in it: s.chars()
        invariant
            it.seq() == s@,
            v@ == it.seq().take(it.index()),
    {
        v.push(c);
    }
    v
}

/// `s` without its leading whitespace.
pub open spec fn trim_start(s: Seq<char>) -> Seq<char>
    decreases s.len(),
{
    if s.len() > 0 && is_space(s[0]) {
        trim_start(s.drop_first())
    } else {
        s
    }
}

/// `s` without its trailing whitespace.
pub open spec fn trim_end(s: Seq<char>) -> Seq<char>
    decreases s.len(),
{
    if s.len() > 0 && is_space(s.last()) {
        trim_end(s.drop_last())
    } else {
        s
    }
}

/// `s` without leading and trailing whitespace.
pub open spec fn trim(s: Seq<char>) -> Seq<char> {
    trim_end(trim_start(s))
}

/// Position of the first occurrence of `c` in `s`, or `s.len()` when `c` does not occur.
pub open spec fn first_index(s: Seq<char>, c: char) -> int
    decreases s.len(),
{
    if s.len() == 0 {
        0
    } else if s[0] == c {
        0
    } else {
        1 + first_index(s.drop_first(), c)
    }
}

/// `first_index` is the least position holding `c`, and is `s.len()` exactly when there is none.
pub proof fn lemma_first_index(s: Seq<char>, c: char)
    ensures
        0 <= first_index(s, c) <= s.len(),
        first_index(s, c) < s.len() ==> s[first_index(s, c)] == c,
        forall|k: int| 0 <= k < first_index(s, c) ==> s[k] != c,
    decreases s.len(),
{
    if s.len() > 0 && s[0] != c {
        let t = s.drop_first();
        lemma_first_index(t, c);
        assert forall|k: int| 0 <= k < first_index(s, c) implies s[k] != c by {
            if k > 0 {
                assert(s[k] == t[k - 1]);
            }
        }
    }
}

/// Any position that holds `c` and is preceded by no `c` is the first index.
pub proof fn lemma_first_index_unique(s: Seq<char>, c: char, i: int)
    requires
        0 <= i <= s.len(),
        i < s.len() ==> s[i] == c,
        forall|k: int| 0 <= k < i ==> s[k] != c,
    ensures
        first_index(s, c) == i,
{
    lemma_first_index(s, c);
    let f = first_index(s, c);
    if f < i {
        assert(s[f] != c);
    }
}

/// Whether every character of `s` is whitespace.
pub open spec fn is_blank(s: Seq<char>) -> bool {
    forall|k: int| 0 <= k < s.len() ==> is_space(#[trigger] s[k])
}

/// Whitespace in front of a text does not change what `trim_start` leaves.
pub proof fn lemma_trim_start_pad(pad: Seq<char>, t: Seq<char>)
    requires
        is_blank(pad),
    ensures
        trim_start(pad + t) == trim_start(t),
    decreases pad.len(),
{
    if pad.len() == 0 {
        assert(pad + t =~= t);
    } else {
        let rest = pad.drop_first();
        assert((pad + t)[0] == pad[0]);
        assert((pad + t).drop_first() =~= rest + t);
        assert forall|k: int| 0 <= k < rest.len() implies is_space(#[trigger] rest[k]) by {
            assert(rest[k] == pad[k + 1]);
        }
        lemma_trim_start_pad(rest, t);
    }
}

/// Whitespace behind a text does not change what `trim_end` leaves.
pub proof fn lemma_trim_end_pad(t: Seq<char>, pad: Seq<char>)
    requires
        is_blank(pad),
    ensures
        trim_end(t + pad) == trim_end(t),
    decreases pad.len(),
{
    if pad.len() == 0 {
        assert(t + pad =~= t);
    } else {
        let rest = pad.drop_last();
        assert((t + pad).last() == pad.last());
        assert((t + pad).drop_last() =~= t + rest);
        assert forall|k: int| 0 <= k < rest.len() implies is_space(#[trigger] rest[k]) by {
            assert(rest[k] == pad[k]);
        }
        lemma_trim_end_pad(t, rest);
    }
}

/// What `trim_start` removes: returns the number `a` of leading whitespace
/// characters; the rest starts with a character that is not whitespace.
pub proof fn lemma_trim_start_shape(s: Seq<char>) -> (a: int)
    ensures
        0 <= a <= s.len(),
        trim_start(s) == s.subrange(a, s.len() as int),
        is_blank(s.subrange(0, a)),
        a < s.len() ==> !is_space(s[a]),
    decreases s.len(),
{
    if s.len() > 0 && is_space(s[0]) {
        let t = s.drop_first();
        let a = lemma_trim_start_shape(t);
        assert(t.subrange(a, t.len() as int) =~= s.subrange(a + 1, s.len() as int));
        assert forall|k: int| 0 <= k < a + 1 implies is_space(
            #[trigger] s.subrange(0, a + 1)[k],
        ) by {
            if k > 0 {
                assert(s[k] == t.subrange(0, a)[k - 1]);
            }
        }
        a + 1
    } else {
        assert(s.subrange(0, s.len() as int) =~= s);
        0
    }
}

/// What `trim_end` removes: returns the position `b` from which only
/// whitespace follows; the part before it ends with a character that is not
/// whitespace.
pub proof fn lemma_trim_end_shape(s: Seq<char>) -> (b: int)
    ensures
        0 <= b <= s.len(),
        trim_end(s) == s.subrange(0, b),
        is_blank(s.subrange(b, s.len() as int)),
        b > 0 ==> !is_space(s[b - 1]),
    decreases s.len(),
{
    if s.len() > 0 && is_space(s.last()) {
        let t = s.drop_last();
        let b = lemma_trim_end_shape(t);
        assert(t.subrange(0, b) =~= s.subrange(0, b));
        assert forall|k: int| 0 <= k < s.len() - b implies is_space(
            #[trigger] s.subrange(b, s.len() as int)[k],
        ) by {
            if k < t.len() - b {
                assert(s[b + k] == t.subrange(b, t.len() as int)[k]);
            }
        }
        b
    } else {
        assert(s.subrange(0, s.len() as int) =~= s);
        s.len() as int
    }
}

/// The trimmed text is the part of `s` between its leading and its trailing
/// whitespace: returns its bounds `(a, b)`. Unless it is empty, it neither
/// starts nor ends with whitespace.
pub proof fn lemma_trim_shape(s: Seq<char>) -> (r: (int, int))
    ensures
        0 <= r.0 <= r.1 <= s.len(),
        trim(s) == s.subrange(r.0, r.1),
        is_blank(s.subrange(0, r.0)),
        is_blank(s.subrange(r.1, s.len() as int)),
        r.0 < r.1 ==> !is_space(s[r.0]) && !is_space(s[r.1 - 1]),
{
    let a = lemma_trim_start_shape(s);
    let t = s.subrange(a, s.len() as int);
    let b = lemma_trim_end_shape(t);
    assert(t.subrange(0, b) =~= s.subrange(a, a + b));
    assert(t.subrange(b, t.len() as int) =~= s.subrange(a + b, s.len() as int));
    (a, a + b)
}

/// Whitespace around a text does not change its trimmed form.
pub proof fn lemma_trim_pad(before: Seq<char>, s: Seq<char>, after: Seq<char>)
    requires
        is_blank(before),
        is_blank(after),
    ensures
        trim(before + s + after) == trim(s),
{
    assert(before + s + after =~= before + (s + after));
    lemma_trim_start_pad(before, s + after);
    let a = lemma_trim_start_shape(s);
    let head = s.subrange(0, a);
    let core = s.subrange(a, s.len() as int);
    assert(s + after =~= head + (core + after));
    lemma_trim_start_pad(head, core + after);
    if a < s.len() {
        assert((core + after)[0] == s[a]);
        lemma_trim_end_pad(core, after);
    } else {
        assert(core + after =~= after);
        assert(after =~= after + Seq::<char>::empty());
        lemma_trim_start_pad(after, Seq::<char>::empty());
    }
}

/// Trimming the end never reaches into a head that ends with a
/// non-whitespace character.
pub proof fn lemma_trim_end_keeps(head: Seq<char>, r: Seq<char>)
    requires
        head.len() > 0,
        !is_space(head.last()),
    ensures
        trim_end(head + r) == head + trim_end(r),
    decreases r.len(),
{
    if r.len() == 0 {
        assert(head + r =~= head);
    } else {
        assert((head + r).last() == r.last());
        if is_space(r.last()) {
            assert((head + r).drop_last() =~= head + r.drop_last());
            lemma_trim_end_keeps(head, r.drop_last());
        }
    }
}

/// Bounds of the trimmed part of `v[lo..hi]`.
pub fn trim_bounds(v: &Vec<char>, lo: usize, hi: usize) -> (r: (usize, usize))
    requires
        lo <= hi <= v.len(),
    ensures
        lo <= r.0 <= r.1 <= hi,
        v@.subrange(r.0 as int, r.1 as int) == trim(v@.subrange(lo as int, hi as int)),
{
    let mut a: usize = lo;
    while a < hi && is_whitespace(v[a])
        invariant
            lo <= a <= hi <= v.len(),
            trim_start(v@.subrange(lo as int, hi as int)) == trim_start(
                v@.subrange(a as int, hi as int),
            ),
        decreases hi - a,
    {
        assert(v@.subrange(a as int, hi as int).drop_first() =~= v@.subrange(
            a as int + 1,
            hi as int,
        ));
        a = a + 1;
    }
    let mut b: usize = hi;
    while a < b && is_whitespace(v[b - 1])
        invariant
            a <= b <= hi <= v.len(),
            trim_end(v@.subrange(a as int, hi as int)) == trim_end(v@.subrange(a as int, b as int)),
        decreases b - a,
    {
        assert(v@.subrange(a as int, b as int).drop_last() =~= v@.subrange(
            a as int,
            b as int - 1,
        ));
        b = b - 1;
    }
    (a, b)
}

/// Position of the first `c` in `v[lo..hi]`, or `hi` when there is none.
pub fn find_char(v: &Vec<char>, lo: usize, hi: usize, c: char) -> (i: usize)
    requires
        lo <= hi <= v.len(),
    ensures
        lo <= i <= hi,
        i - lo == first_index(v@.subrange(lo as int, hi as int), c),
{
    let mut i: usize = lo;
    while i < hi && v[i] != c
        invariant
            lo <= i <= hi <= v.len(),
            forall|k: int| lo <= k < i ==> v@[k] != c,
        decreases hi - i,
    {
        i = i + 1;
    }
    proof {
        lemma_first_index_unique(v@.subrange(lo as int, hi as int), c, i - lo);
    }
    i
}

/// Whether `v[lo..hi]` begins with the characters of `key`.
pub fn starts_with(v: &Vec<char>, lo: usize, hi: usize, key: &str) -> (b: bool)
    requires
        lo <= hi <= v.len(),
    ensures
        b == key@.is_prefix_of(v@.subrange(lo as int, hi as int)),
{
    let ghost whole = v@.subrange(lo as int, hi as int);
    let mut k: usize = lo;
    for c in it: key.chars()
        invariant
            it.seq() == key@,
            whole == v@.subrange(lo as int, hi as int),
            lo <= k <= hi <= v.len(),
            k == lo + it.index(),
            forall|j: int| 0 <= j < it.index() ==> v@[lo + j] == key@[j],
    {
        if k >= hi {
            return false;
        }
        if v[k] != c {
            assert(!key@.is_prefix_of(whole)) by {
                if key@.len() <= whole.len() {
                    assert(whole.subrange(0, key@.len() as int)[k - lo] == v@[k as int]);
                }
            }
            return false;
        }
        k = k + 1;
    }
    assert(key@ =~= whole.subrange(0, key@.len() as int));
    true
}

} // verus!
