//! Character-level helpers shared by the label parsers: whitespace trimming,
//! ASCII lower-casing and comparison against literal labels.

use vstd::prelude::*;

verus! {

/// Unicode `White_Space` property (PropList.txt), the set of characters that
/// `char::is_whitespace` accepts.
pub open spec fn is_white_space(c: char) -> bool {
    let u = c as u32;
    ||| 0x09 <= u <= 0x0d
    ||| u == 0x20
    ||| u == 0x85
    ||| u == 0xa0
    ||| u == 0x1680
    ||| 0x2000 <= u <= 0x200a
    ||| u == 0x2028
    ||| u == 0x2029
    ||| u == 0x202f
    ||| u == 0x205f
    ||| u == 0x3000
}

/// `s` without its leading whitespace.
pub open spec fn trim_front(s: Seq<char>) -> Seq<char>
    decreases s.len(),
{
    if s.len() > 0 && is_white_space(s[0]) {
        trim_front(s.drop_first())
    } else {
        s
    }
}

/// `s` without its trailing whitespace.
pub open spec fn trim_back(s: Seq<char>) -> Seq<char>
    decreases s.len(),
{
    if s.len() > 0 && is_white_space(s.last()) {
        trim_back(s.drop_last())
    } else {
        s
    }
}

/// `s` without leading and trailing whitespace (what `str::trim` returns).
pub open spec fn trim(s: Seq<char>) -> Seq<char> {
    trim_back(trim_front(s))
}

/// ASCII lower-case mapping of one character: `'A'..='Z'` to `'a'..='z'`,
/// every other character unchanged.
pub open spec fn ascii_lower(c: char) -> char {
    if 'A' <= c && c <= 'Z' {
        ((c as u32) + 32) as char
    } else {
        c
    }
}

/// ASCII lower-case mapping of a whole sequence.
pub open spec fn ascii_lower_seq(s: Seq<char>) -> Seq<char> {
    s.map_values(|c: char| ascii_lower(c))
}

/// The canonical form of a label before it is matched: trimmed, then
/// ASCII-lower-cased.
pub open spec fn label_key(s: Seq<char>) -> Seq<char> {
    ascii_lower_seq(trim(s))
}

/// Whether `c` is whitespace: a code point of the Unicode `White_Space`
/// property, the set that `char::is_whitespace` accepts.
pub fn char_is_whitespace(c: char) -> (r: bool)
    ensures
        r == is_white_space(c),
{
    let u = c as u32;
    (0x09 <= u && u <= 0x0d) || u == 0x20 || u == 0x85 || u == 0xa0 || u == 0x1680 || (0x2000
        <= u && u <= 0x200a) || u == 0x2028 || u == 0x2029 || u == 0x202f || u == 0x205f || u
        == 0x3000
}

/// The characters of `s`, in order.
pub fn chars_of(s: &str) -> (r: Vec<char>)
    ensures
        r@ == s@,
{
    let mut out: Vec<char> = Vec::new();
    for c in it: s.chars()
        invariant
            out@ == it.seq().take(it.index() as int),
    {
        out.push(c);
    }
    out
}

proof fn lemma_trim_front_skip(s: Seq<char>, i: int)
    requires
        0 <= i <= s.len(),
        forall|j: int| 0 <= j < i ==> is_white_space(#[trigger] s[j]),
        i == s.len() || !is_white_space(s[i]),
    ensures
        trim_front(s) == s.subrange(i, s.len() as int),
    decreases i,
{
    if i == 0 {
        assert(s.subrange(0, s.len() as int) =~= s);
    } else {
        let t = s.drop_first();
        assert forall|j: int| 0 <= j < i - 1 implies is_white_space(#[trigger] t[j]) by {
            assert(t[j] == s[j + 1]);
        }
        if i - 1 < t.len() {
            assert(t[i - 1] == s[i]);
        }
        lemma_trim_front_skip(t, i - 1);
        assert(t.subrange(i - 1, t.len() as int) =~= s.subrange(i, s.len() as int));
    }
}

proof fn lemma_trim_back_skip(s: Seq<char>, k: int)
    requires
        0 <= k <= s.len(),
        forall|j: int| k <= j < s.len() ==> is_white_space(#[trigger] s[j]),
        k == 0 || !is_white_space(s[k - 1]),
    ensures
        trim_back(s) == s.subrange(0, k),
    decreases s.len() - k,
{
    if k == s.len() {
        assert(s.subrange(0, k) =~= s);
    } else {
        let t = s.drop_last();
        assert forall|j: int| k <= j < t.len() implies is_white_space(#[trigger] t[j]) by {
            assert(t[j] == s[j]);
        }
        if k > 0 {
            assert(t[k - 1] == s[k - 1]);
        }
        lemma_trim_back_skip(t, k);
        assert(t.subrange(0, k) =~= s.subrange(0, k));
    }
}

/// The canonical label key of `s`: whitespace trimmed off both ends, then
/// ASCII letters lower-cased.
pub fn label_key_of(s: &str) -> (r: Vec<char>)
    ensures
        r@ == label_key(s@),
{
    let cs = chars_of(s);
    let n = cs.len();
    let mut i: usize = 0;
    while i < n && char_is_whitespace(cs[i])
        invariant
            n == cs@.len(),
            i <= n,
            forall|j: int| 0 <= j < i ==> is_white_space(#[trigger] cs@[j]),
        decreases n - i,
    {
        i = i + 1;
    }
    proof {
        lemma_trim_front_skip(cs@, i as int);
    }
    let ghost front = cs@.subrange(i as int, n as int);
    let mut k: usize = n;
    while k > i && char_is_whitespace(cs[k - 1])
        invariant
            n == cs@.len(),
            i <= k <= n,
            forall|j: int| k <= j < n ==> is_white_space(#[trigger] cs@[j]),
        decreases k,
    {
        k = k - 1;
    }
    proof {
        assert forall|j: int| k - i <= j < front.len() implies is_white_space(#[trigger] front[j]) by {
            assert(front[j] == cs@[i + j]);
        }
        if k > i {
            assert(front[k - i - 1] == cs@[k - 1]);
        }
        lemma_trim_back_skip(front, k - i);
        assert(front.subrange(0, k - i) =~= cs@.subrange(i as int, k as int));
    }
    let mut out: Vec<char> = Vec::new();
    let mut p: usize = i;
    while p < k
        invariant
            n == cs@.len(),
            i <= p <= k <= n,
            out@ == ascii_lower_seq(cs@.subrange(i as int, p as int)),
        decreases k - p,
    {
        let c = cs[p];
        let lc = if c >= 'A' && c <= 'Z' {
            ((c as u8) + 32) as char
        } else {
            c
        };
        assert(lc == ascii_lower(c));
        out.push(lc);
        proof {
            assert(cs@.subrange(i as int, p + 1) =~= cs@.subrange(i as int, p as int).push(c));
            assert(out@ =~= ascii_lower_seq(cs@.subrange(i as int, p + 1)));
        }
        p = p + 1;
    }
    out
}

/// Whether the characters in `a` spell exactly the string `lit`.
pub fn chars_equal(a: &Vec<char>, lit: &str) -> (r: bool)
    ensures
        r == (a@ == lit@),
{
    let b = chars_of(lit);
    if a.len() != b.len() {
        return false;
    }
    let mut i: usize = 0;
    while i < a.len()
        invariant
            a@.len() == b@.len(),
            b@ == lit@,
            i <= a@.len(),
            forall|j: int| 0 <= j < i ==> a@[j] == b@[j],
        decreases a.len() - i,
    {
        if a[i] != b[i] {
            assert(a@[i as int] != b@[i as int]);
            return false;
        }
        i = i + 1;
    }
    assert(a@ =~= b@);
    true
}

/// A label made only of lower-case ASCII letters, digits, `-` and `_` is its
/// own canonical key.
pub proof fn lemma_plain_label_key(s: Seq<char>)
    requires
        forall|j: int|
            0 <= j < s.len() ==> ('a' <= #[trigger] s[j] <= 'z') || ('0' <= s[j] <= '9') || s[j]
                == '-' || s[j] == '_',
    ensures
        label_key(s) == s,
{
    if s.len() > 0 {
        assert(!is_white_space(s[0]));
        assert(!is_white_space(s.last()));
    }
    assert(trim_front(s) == s);
    assert(trim_back(s) == s);
    assert(ascii_lower_seq(s) =~= s);
}

proof fn lemma_trim_front_lower(s: Seq<char>)
    ensures
        trim_front(ascii_lower_seq(s)) == ascii_lower_seq(trim_front(s)),
    decreases s.len(),
{
    let l = ascii_lower_seq(s);
    if s.len() > 0 {
        assert(l[0] == ascii_lower(s[0]));
        assert(l.drop_first() =~= ascii_lower_seq(s.drop_first()));
        if is_white_space(s[0]) {
            lemma_trim_front_lower(s.drop_first());
        }
    }
}

proof fn lemma_trim_back_lower(s: Seq<char>)
    ensures
        trim_back(ascii_lower_seq(s)) == ascii_lower_seq(trim_back(s)),
    decreases s.len(),
{
    let l = ascii_lower_seq(s);
    if s.len() > 0 {
        assert(l.last() == ascii_lower(s.last()));
        assert(l.drop_last() =~= ascii_lower_seq(s.drop_last()));
        if is_white_space(s.last()) {
            lemma_trim_back_lower(s.drop_last());
        }
    }
}

/// ASCII case does not matter to a label: lower-casing a label first leaves
/// its canonical key unchanged.
pub proof fn lemma_label_key_ignores_case(s: Seq<char>)
    ensures
        label_key(ascii_lower_seq(s)) == label_key(s),
{
    lemma_trim_front_lower(s);
    lemma_trim_back_lower(trim_front(s));
    let t = trim(s);
    assert(ascii_lower_seq(ascii_lower_seq(t)) =~= ascii_lower_seq(t));
}

/// Whether every character of `w` is whitespace.
pub open spec fn all_white_space(w: Seq<char>) -> bool {
    forall|i: int| 0 <= i < w.len() ==> is_white_space(#[trigger] w[i])
}

proof fn lemma_trim_front_skips_prefix(w: Seq<char>, x: Seq<char>)
    requires
        all_white_space(w),
    ensures
        trim_front(w + x) == trim_front(x),
    decreases w.len(),
{
    if w.len() > 0 {
        assert((w + x)[0] == w[0]);
        assert((w + x).drop_first() =~= w.drop_first() + x);
        assert(all_white_space(w.drop_first())) by {
            assert forall|i: int| 0 <= i < w.drop_first().len() implies is_white_space(#[trigger] w.drop_first()[i]) by {
                assert(w.drop_first()[i] == w[i + 1]);
            }
        }
        lemma_trim_front_skips_prefix(w.drop_first(), x);
    } else {
        assert(w + x =~= x);
    }
}

proof fn lemma_trim_back_skips_suffix(x: Seq<char>, w: Seq<char>)
    requires
        all_white_space(w),
    ensures
        trim_back(x + w) == trim_back(x),
    decreases w.len(),
{
    if w.len() > 0 {
        assert((x + w).last() == w.last());
        assert((x + w).drop_last() =~= x + w.drop_last());
        assert(all_white_space(w.drop_last())) by {
            assert forall|i: int| 0 <= i < w.drop_last().len() implies is_white_space(#[trigger] w.drop_last()[i]) by {
                assert(w.drop_last()[i] == w[i]);
            }
        }
        lemma_trim_back_skips_suffix(x, w.drop_last());
    } else {
        assert(x + w =~= x);
    }
}

proof fn lemma_trim_front_append(s: Seq<char>, y: Seq<char>)
    ensures
        trim_front(s).len() > 0 ==> trim_front(s + y) == trim_front(s) + y,
        trim_front(s).len() == 0 ==> trim_front(s + y) == trim_front(y),
    decreases s.len(),
{
    if s.len() == 0 {
        assert(s + y =~= y);
    } else {
        assert((s + y)[0] == s[0]);
        if is_white_space(s[0]) {
            assert((s + y).drop_first() =~= s.drop_first() + y);
            lemma_trim_front_append(s.drop_first(), y);
        }
    }
}

/// Whitespace around a label does not matter: its canonical key is that of
/// the label alone.
pub proof fn lemma_label_key_ignores_surrounding_white_space(w1: Seq<char>, s: Seq<char>, w2: Seq<char>)
    requires
        all_white_space(w1),
        all_white_space(w2),
    ensures
        label_key(w1 + s + w2) == label_key(s),
{
    assert(w1 + s + w2 =~= w1 + (s + w2));
    lemma_trim_front_skips_prefix(w1, s + w2);
    lemma_trim_front_append(s, w2);
    if trim_front(s).len() > 0 {
        lemma_trim_back_skips_suffix(trim_front(s), w2);
    } else {
        lemma_trim_front_skips_prefix(w2, Seq::<char>::empty());
        assert(w2 + Seq::<char>::empty() =~= w2);
        assert(trim_front(Seq::<char>::empty()) == Seq::<char>::empty());
        assert(trim_back(Seq::<char>::empty()) == Seq::<char>::empty());
        assert(trim_front(s) =~= Seq::<char>::empty());
    }
}

} // verus!
