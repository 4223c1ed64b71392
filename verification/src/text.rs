//! Character-level helpers on strings, modelled as `Seq<char>`.
use vstd::prelude::*;

verus! {

/// The Unicode `White_Space` property, as used by `str::trim`.
pub open spec fn is_ws(c: char) -> bool {
    let u = c as u32;
    ||| 9 <= u <= 13
    ||| u == 32
    ||| u == 0x85
    ||| u == 0xA0
    ||| u == 0x1680
    ||| 0x2000 <= u <= 0x200A
    ||| u == 0x2028
    ||| u == 0x2029
    ||| u == 0x202F
    ||| u == 0x205F
    ||| u == 0x3000
}

/// Executable `White_Space` test.
pub fn is_whitespace(c: char) -> (b: bool)
    ensures
        b == is_ws(c),
{
    let u = c as u32;
    (9 <= u && u <= 13) || u == 32 || u == 0x85 || u == 0xA0 || u == 0x1680 || (0x2000 <= u
        && u <= 0x200A) || u == 0x2028 || u == 0x2029 || u == 0x202F || u == 0x205F || u == 0x3000
}

/// The characters of `s`, in order.
pub fn chars_of(s: &str) -> (v: Vec<char>)
    ensures
        v@ == s@,
{
    let mut v: Vec<char> = Vec::new();
    for c in it: s.chars()
        invariant
            v@ == it.seq().take(it.index() as int),
            it.seq() == s@,
    {
        v.push(c);
    }
    v
}


/// `s` without its leading white space.
pub open spec fn trim_start(s: Seq<char>) -> Seq<char>
    decreases s.len(),
{
    if s.len() > 0 && is_ws(s[0]) {
        trim_start(s.drop_first())
    } else {
        s
    }
}

/// `s` without its trailing white space.
pub open spec fn trim_end(s: Seq<char>) -> Seq<char>
    decreases s.len(),
{
    if s.len() > 0 && is_ws(s.last()) {
        trim_end(s.drop_last())
    } else {
        s
    }
}

/// `s` without leading and trailing white space, as `str::trim` gives it.
pub open spec fn trim(s: Seq<char>) -> Seq<char> {
    trim_end(trim_start(s))
}

/// The position of the first `c` in `s`, if any.
pub open spec fn first_index(s: Seq<char>, c: char) -> Option<int>
    decreases s.len(),
{
    if s.len() == 0 {
        None
    } else {
        match first_index(s.drop_last(), c) {
            Some(i) => Some(i),
            None => if s.last() == c {
                Some(s.len() - 1)
            } else {
                None
            },
        }
    }
}

/// What `first_index` finds: the position of a `c` with none before it.
pub proof fn lemma_first_index(s: Seq<char>, c: char)
    ensures
        first_index(s, c) is None <==> !s.contains(c),
        first_index(s, c) matches Some(i) ==> 0 <= i < s.len() && s[i] == c && forall|j: int|
            0 <= j < i ==> s[j] != c,
    decreases s.len(),
{
    if s.len() > 0 {
        lemma_first_index(s.drop_last(), c);
        if s.contains(c) && first_index(s.drop_last(), c) is None {
            let k = choose|k: int| 0 <= k < s.len() && s[k] == c;
            if k < s.len() - 1 {
                assert(s.drop_last()[k] == c);
            }
        }
        if first_index(s, c) is None && s.drop_last().contains(c) {
            let k = choose|k: int| 0 <= k < s.drop_last().len() && s.drop_last()[k] == c;
            assert(s[k] == c);
        }
        assert forall|j: int| 0 <= j < s.len() - 1 implies s[j] == #[trigger] s.drop_last()[j] by {}
        match first_index(s.drop_last(), c) {
            Some(i) => {
                assert forall|j: int| 0 <= j < i implies s[j] != c by {
                    assert(s.drop_last()[j] != c);
                }
            },
            None => {
                if s.last() == c {
                    assert forall|j: int| 0 <= j < s.len() - 1 implies s[j] != c by {
                        if s[j] == c {
                            assert(s.drop_last()[j] == c);
                            assert(s.drop_last().contains(c));
                        }
                    }
                }
            },
        }
    }
}

/// Index of the first `c` in `v`.
pub fn find_char(v: &Vec<char>, c: char) -> (r: Option<usize>)
    ensures
        r matches Some(i) ==> first_index(v@, c) == Some(i as int) && i < v.len() && v@[i as int]
            == c,
        r is None ==> first_index(v@, c) is None,
{
    let mut i: usize = 0;
    while i < v.len()
        invariant
            i <= v.len(),
            first_index(v@.take(i as int), c) is None,
        decreases v.len() - i,
    {
        assert(v@.take(i + 1).drop_last() =~= v@.take(i as int));
        if v[i] == c {
            assert(first_index(v@.take(i + 1), c) == Some(i as int));
            proof {
                lemma_first_index_prefix(v@, c, (i + 1) as int);
            }
            return Some(i);
        }
        i = i + 1;
    }
    assert(v@.take(v.len() as int) =~= v@);
    None
}

/// A first occurrence found in a prefix is the first occurrence in the whole.
proof fn lemma_first_index_prefix(s: Seq<char>, c: char, n: int)
    requires
        0 <= n <= s.len(),
        first_index(s.take(n), c) is Some,
    ensures
        first_index(s, c) == first_index(s.take(n), c),
    decreases s.len() - n,
{
    if n < s.len() {
        assert(s.take(n + 1).drop_last() =~= s.take(n));
        lemma_first_index_prefix(s, c, n + 1);
    } else {
        assert(s.take(n) =~= s);
    }
}

/// Number of leading white-space characters of `v`.
fn leading_ws(v: &Vec<char>) -> (n: usize)
    ensures
        n <= v.len(),
        trim_start(v@) =~= v@.skip(n as int),
{
    let mut i: usize = 0;
    assert(v@.skip(0) =~= v@);
    while i < v.len() && is_whitespace(v[i])
        invariant
            i <= v.len(),
            trim_start(v@) == trim_start(v@.skip(i as int)),
        decreases v.len() - i,
    {
        assert(v@.skip(i as int).drop_first() =~= v@.skip(i + 1));
        i = i + 1;
    }
    i
}

/// Length of `v[..end]` once trailing white space is removed.
fn trailing_end(v: &Vec<char>, start: usize) -> (n: usize)
    requires
        start <= v.len(),
    ensures
        start <= n <= v.len(),
        trim_end(v@.subrange(start as int, v.len() as int)) =~= v@.subrange(start as int, n as int),
{
    let mut j: usize = v.len();
    while j > start && is_whitespace(v[j - 1])
        invariant
            start <= j <= v.len(),
            trim_end(v@.subrange(start as int, v.len() as int)) == trim_end(
                v@.subrange(start as int, j as int),
            ),
        decreases j,
    {
        assert(v@.subrange(start as int, j as int).drop_last() =~= v@.subrange(
            start as int,
            j - 1,
        ));
        j = j - 1;
    }
    j
}

/// `s` with leading and trailing white space removed (`str::trim`).
pub fn trim_str(s: &str) -> (r: String)
    ensures
        r@ == trim(s@),
{
    let v = chars_of(s);
    let a = leading_ws(&v);
    let b = trailing_end(&v, a);
    assert(v@.skip(a as int) =~= v@.subrange(a as int, v.len() as int));
    s.substring_char(a, b).to_owned()
}


/// Whether `a` and `b` hold the same characters at positions `off..off + a.len()`
/// of `b`, compared one by one.
fn matches_at(a: &Vec<char>, b: &Vec<char>, off: usize) -> (r: bool)
    requires
        off + a.len() <= b.len(),
    ensures
        r == (a@ =~= b@.subrange(off as int, off + a.len())),
{
    let mut i: usize = 0;
    while i < a.len()
        invariant
            i <= a.len(),
            off + a.len() <= b.len(),
            forall|j: int| 0 <= j < i ==> a@[j] == b@[off + j],
        decreases a.len() - i,
    {
        if a[i] != b[off + i] {
            assert(a@[i as int] != b@.subrange(off as int, off + a.len())[i as int]);
            return false;
        }
        i = i + 1;
    }
    true
}

/// Whether `s` starts with `p` (`str::starts_with`).
pub fn starts_with(s: &str, p: &str) -> (r: bool)
    ensures
        r == p@.is_prefix_of(s@),
{
    let sv = chars_of(s);
    let pv = chars_of(p);
    if pv.len() > sv.len() {
        false
    } else {
        matches_at(&pv, &sv, 0)
    }
}

/// Whether `s` ends with `p` (`str::ends_with`).
pub fn ends_with(s: &str, p: &str) -> (r: bool)
    ensures
        r == p@.is_suffix_of(s@),
{
    let sv = chars_of(s);
    let pv = chars_of(p);
    if pv.len() > sv.len() {
        false
    } else {
        matches_at(&pv, &sv, sv.len() - pv.len())
    }
}

/// Whether `a` and `b` are the same string.
pub fn str_eq(a: &str, b: &str) -> (r: bool)
    ensures
        r == (a@ == b@),
{
    let av = chars_of(a);
    let bv = chars_of(b);
    if av.len() != bv.len() {
        false
    } else {
        let r = matches_at(&av, &bv, 0);
        assert(bv@.subrange(0, bv.len() as int) =~= bv@);
        r
    }
}

/// Whether `c` occurs in `s`.
pub fn contains_char(s: &str, c: char) -> (r: bool)
    ensures
        r == s@.contains(c),
{
    let v = chars_of(s);
    proof {
        lemma_first_index(v@, c);
    }
    find_char(&v, c).is_some()
}


/// `items` joined by `sep`: `items[0] + sep + items[1] + ... + items[n-1]`.
pub open spec fn joined(items: Seq<Seq<char>>, sep: Seq<char>) -> Seq<char>
    decreases items.len(),
{
    if items.len() == 0 {
        Seq::empty()
    } else if items.len() == 1 {
        items[0]
    } else {
        joined(items.drop_last(), sep) + sep + items.last()
    }
}

/// Joining items that are not all empty, or with a non-empty separator
/// between several items, gives a non-empty text when some item is non-empty.
pub proof fn lemma_joined_nonempty(items: Seq<Seq<char>>, sep: Seq<char>)
    requires
        items.len() > 0,
        forall|i: int| 0 <= i < items.len() ==> #[trigger] items[i].len() > 0,
    ensures
        joined(items, sep).len() > 0,
    decreases items.len(),
{
    if items.len() > 1 {
        assert(items.last() == items[items.len() - 1]);
    }
}

/// Appends `items[i]` to the text that joins `items[..i]`.
pub proof fn lemma_joined_step(items: Seq<Seq<char>>, sep: Seq<char>, i: int)
    requires
        0 <= i < items.len(),
    ensures
        joined(items.take(i + 1), sep) == if i == 0 {
            items[0]
        } else {
            joined(items.take(i), sep) + sep + items[i]
        },
{
    assert(items.take(i + 1).drop_last() =~= items.take(i));
    if i == 0 {
        assert(items.take(1)[0] == items[0]);
    } else {
        assert(items.take(i + 1).last() == items[i]);
    }
}

} // verus!
