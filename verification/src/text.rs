//! Character-level text helpers over `Seq<char>`: whitespace trimming, ASCII
//! lower-casing, decimal rendering, substring replacement and splitting.

use vstd::prelude::*;
use vstd::string::*;

verus! {

/// Unicode `White_Space`, the property behind `char::is_whitespace`.
pub open spec fn is_ws(c: char) -> bool {
    let u = c as u32;
    ||| 0x09 <= u <= 0x0D
    ||| u == 0x20
    ||| u == 0x85
    ||| u == 0xA0
    ||| u == 0x1680
    ||| 0x2000 <= u <= 0x200A
    ||| u == 0x2028
    ||| u == 0x2029
    ||| u == 0x202F
    ||| u == 0x205F
    ||| u == 0x3000
}

/// Unicode general category `Cc`, the property behind `char::is_control`.
pub open spec fn is_ctrl(c: char) -> bool {
    let u = c as u32;
    u <= 0x1F || (0x7F <= u <= 0x9F)
}

pub fn is_whitespace(c: char) -> (res: bool)
    ensures
        res == is_ws(c),
{
    let u = c as u32;
    (0x09 <= u && u <= 0x0D) || u == 0x20 || u == 0x85 || u == 0xA0 || u == 0x1680
        || (0x2000 <= u && u <= 0x200A) || u == 0x2028 || u == 0x2029 || u == 0x202F
        || u == 0x205F || u == 0x3000
}

pub fn is_control(c: char) -> (res: bool)
    ensures
        res == is_ctrl(c),
{
    let u = c as u32;
    u <= 0x1F || (0x7F <= u && u <= 0x9F)
}

/// `s` with leading and trailing white space removed (`str::trim`).
pub open spec fn trim(s: Seq<char>) -> Seq<char>
    decreases s.len(),
{
    if s.len() > 0 && is_ws(s[0]) {
        trim(s.drop_first())
    } else if s.len() > 0 && is_ws(s.last()) {
        trim(s.drop_last())
    } else {
        s
    }
}

pub open spec fn starts_with(s: Seq<char>, prefix: Seq<char>) -> bool {
    prefix.len() <= s.len() && s.subrange(0, prefix.len() as int) == prefix
}

pub open spec fn ascii_lower(c: char) -> char {
    if 'A' <= c <= 'Z' {
        ((c as u32) + 32) as char
    } else {
        c
    }
}

/// `str::to_ascii_lowercase` on a character sequence.
pub open spec fn lower(s: Seq<char>) -> Seq<char> {
    s.map_values(|c: char| ascii_lower(c))
}

pub open spec fn digit_char(d: int) -> char {
    (48 + d) as char
}

/// Decimal rendering of a natural number, as `Display` writes it.
pub open spec fn decimal(n: nat) -> Seq<char>
    decreases n,
{
    if n < 10 {
        seq![digit_char(n as int)]
    } else {
        decimal(n / 10).push(digit_char((n % 10) as int))
    }
}

/// `String::push`.
#[verifier::external_body]
pub(crate) fn push_char(s: &mut String, c: char)
    ensures
        final(s)@ == old(s)@.push(c),
{
    s.push(c);
}

/// Collects the characters of `s`.
pub fn chars_of(s: &str) -> (res: Vec<char>)
    ensures
        res@ == s@,
{
    let mut out: Vec<char> = Vec::new();
    for c in it: s.chars()
        invariant
            out@ == it.seq().take(it.index() as int),
            it.seq() == s@,
    {
        out.push(c);
    }
    out
}


/// Builds a `String` from characters.
pub fn string_of(chars: &[char]) -> (res: String)
    ensures
        res@ == chars@,
{
    let mut out = String::new();
    let mut i: usize = 0;
    while i < chars.len()
        invariant
            i <= chars@.len(),
            out@ == chars@.subrange(0, i as int),
        decreases chars@.len() - i,
    {
        push_char(&mut out, chars[i]);
        i = i + 1;
        assert(out@ =~= chars@.subrange(0, i as int));
    }
    assert(chars@.subrange(0, chars@.len() as int) =~= chars@);
    out
}

/// Character-wise equality of two character sequences.
pub fn chars_eq(a: &[char], b: &[char]) -> (res: bool)
    ensures
        res == (a@ == b@),
{
    if a.len() != b.len() {
        return false;
    }
    let mut i: usize = 0;
    while i < a.len()
        invariant
            a@.len() == b@.len(),
            i <= a@.len(),
            forall|j: int| 0 <= j < i ==> a@[j] == b@[j],
        decreases a@.len() - i,
    {
        if a[i] != b[i] {
            return false;
        }
        i = i + 1;
    }
    assert(a@ =~= b@);
    true
}

/// `str == str`.
pub fn str_eq(a: &str, b: &str) -> (res: bool)
    ensures
        res == (a@ == b@),
{
    let x = chars_of(a);
    let y = chars_of(b);
    chars_eq(x.as_slice(), y.as_slice())
}

proof fn lemma_trim_strip_first(s: Seq<char>, lo: int, hi: int)
    requires
        0 <= lo < hi <= s.len(),
        is_ws(s[lo]),
    ensures
        trim(s.subrange(lo, hi)) == trim(s.subrange(lo + 1, hi)),
{
    assert(s.subrange(lo, hi).drop_first() =~= s.subrange(lo + 1, hi));
}

proof fn lemma_trim_strip_last(s: Seq<char>, lo: int, hi: int)
    requires
        0 <= lo < hi <= s.len(),
        !is_ws(s[lo]),
        is_ws(s[hi - 1]),
    ensures
        trim(s.subrange(lo, hi)) == trim(s.subrange(lo, hi - 1)),
{
    assert(s.subrange(lo, hi).drop_last() =~= s.subrange(lo, hi - 1));
}

/// The characters of `s` without leading and trailing white space (`str::trim`).
pub fn trimmed(s: &str) -> (res: Vec<char>)
    ensures
        res@ == trim(s@),
{
    let v = chars_of(s);
    let mut lo: usize = 0;
    let mut hi: usize = v.len();
    assert(v@.subrange(0, v@.len() as int) =~= v@);
    while lo < hi && is_whitespace(v[lo])
        invariant
            lo <= hi <= v@.len(),
            hi == v@.len(),
            trim(v@) == trim(v@.subrange(lo as int, hi as int)),
        decreases hi - lo,
    {
        proof { lemma_trim_strip_first(v@, lo as int, hi as int); }
        lo = lo + 1;
    }
    while hi > lo && is_whitespace(v[hi - 1])
        invariant
            lo <= hi <= v@.len(),
            lo < hi ==> !is_ws(v@[lo as int]),
            trim(v@) == trim(v@.subrange(lo as int, hi as int)),
        decreases hi - lo,
    {
        proof {
            if hi - 1 == lo {
                assert(false);
            }
            lemma_trim_strip_last(v@, lo as int, hi as int);
        }
        hi = hi - 1;
    }
    let mut out: Vec<char> = Vec::new();
    let mut i = lo;
    while i < hi
        invariant
            lo <= i <= hi <= v@.len(),
            out@ == v@.subrange(lo as int, i as int),
        decreases hi - i,
    {
        out.push(v[i]);
        i = i + 1;
        assert(out@ =~= v@.subrange(lo as int, i as int));
    }
    out
}

pub fn to_lower(c: char) -> (res: char)
    ensures
        res == ascii_lower(c),
{
    if 'A' <= c && c <= 'Z' {
        let b = c as u8;
        assert(65 <= b <= 90);
        ((b + 32) as char)
    } else {
        c
    }
}

/// `to_ascii_lowercase` on a character vector.
pub fn lowered(s: &[char]) -> (res: Vec<char>)
    ensures
        res@ == lower(s@),
{
    let mut out: Vec<char> = Vec::new();
    let mut i: usize = 0;
    while i < s.len()
        invariant
            i <= s@.len(),
            out@ == lower(s@.subrange(0, i as int)),
        decreases s@.len() - i,
    {
        out.push(to_lower(s[i]));
        i = i + 1;
        assert(out@ =~= lower(s@.subrange(0, i as int)));
    }
    assert(s@.subrange(0, s@.len() as int) =~= s@);
    out
}

/// Appends the decimal rendering of `n`.
pub fn push_decimal(s: &mut String, n: u64)
    ensures
        final(s)@ == old(s)@ + decimal(n as nat),
    decreases n,
{
    if n >= 10 {
        push_decimal(s, n / 10);
    }
    let d = (n % 10) as u8;
    push_char(s, (48u8 + d) as char);
    proof {
        if n >= 10 {
            assert(decimal(n as nat) == decimal((n / 10) as nat).push(digit_char((n % 10) as int)));
        }
    }
    assert(s@ =~= old(s)@ + decimal(n as nat));
}


/// `t` with every non-overlapping occurrence of the non-empty pattern `p`,
/// found from left to right, replaced by `r` (`str::replace`).
pub open spec fn replace_all(t: Seq<char>, p: Seq<char>, r: Seq<char>) -> Seq<char>
    decreases t.len(),
{
    if p.len() == 0 || t.len() < p.len() {
        t
    } else if t.subrange(0, p.len() as int) == p {
        r + replace_all(t.subrange(p.len() as int, t.len() as int), p, r)
    } else {
        seq![t[0]] + replace_all(t.drop_first(), p, r)
    }
}

/// `q` occurs somewhere in `t` as a contiguous run.
pub open spec fn occurs(t: Seq<char>, q: Seq<char>) -> bool {
    exists|i: int| 0 <= i && i + q.len() <= t.len() && #[trigger] t.subrange(i, i + q.len()) == q
}

/// Every character of `r` is `'*'`.
pub open spec fn all_stars(r: Seq<char>) -> bool {
    forall|j: int| 0 <= j < r.len() ==> r[j] == '*'
}

/// Whether `p` occurs in `t` at position `i`.
pub fn matches_at(t: &[char], i: usize, p: &[char]) -> (res: bool)
    requires
        i + p@.len() <= t@.len(),
    ensures
        res == (t@.subrange(i as int, i + p@.len()) == p@),
{
    let n = t.len();
    let mut j: usize = 0;
    while j < p.len()
        invariant
            n == t@.len(),
            i + p@.len() <= t@.len(),
            j <= p@.len(),
            forall|k: int| 0 <= k < j ==> t@[i + k] == p@[k],
        decreases p@.len() - j,
    {
        if t[i + j] != p[j] {
            assert(t@.subrange(i as int, i + p@.len())[j as int] != p@[j as int]);
            return false;
        }
        j = j + 1;
    }
    assert(t@.subrange(i as int, i + p@.len()) =~= p@);
    true
}

proof fn lemma_replace_step(t: Seq<char>, i: int, p: Seq<char>, r: Seq<char>)
    requires
        0 <= i < t.len(),
        p.len() > 0,
    ensures
        i + p.len() <= t.len() && t.subrange(i, i + p.len()) == p ==> replace_all(t.subrange(i, t.len() as int), p, r)
            == r + replace_all(t.subrange(i + p.len(), t.len() as int), p, r),
        !(i + p.len() <= t.len() && t.subrange(i, i + p.len()) == p) ==> replace_all(t.subrange(i, t.len() as int), p, r)
            == seq![t[i]] + replace_all(t.subrange(i + 1, t.len() as int), p, r),
{
    let u = t.subrange(i, t.len() as int);
    assert(u.drop_first() =~= t.subrange(i + 1, t.len() as int));
    if i + p.len() <= t.len() {
        assert(u.subrange(p.len() as int, u.len() as int) =~= t.subrange(i + p.len(), t.len() as int));
        assert(u.subrange(0, p.len() as int) =~= t.subrange(i, i + p.len()));
    } else {
        let v = t.subrange(i + 1, t.len() as int);
        assert(replace_all(u, p, r) == u);
        assert(replace_all(v, p, r) == v);
        assert(u =~= seq![t[i]] + v);
    }
}

/// Replaces every occurrence of the non-empty pattern `p` in `t` by `r`.
pub fn replace_chars(t: &[char], p: &[char], r: &[char]) -> (res: Vec<char>)
    requires
        p@.len() > 0,
    ensures
        res@ == replace_all(t@, p@, r@),
{
    let mut out: Vec<char> = Vec::new();
    let mut i: usize = 0;
    assert(t@.subrange(0, t@.len() as int) =~= t@);
    while i < t.len()
        invariant
            p@.len() > 0,
            i <= t@.len(),
            out@ + replace_all(t@.subrange(i as int, t@.len() as int), p@, r@) == replace_all(t@, p@, r@),
        decreases t@.len() - i,
    {
        proof { lemma_replace_step(t@, i as int, p@, r@); }
        if p.len() <= t.len() - i && matches_at(t, i, p) {
            let ghost before = out@;
            let mut k: usize = 0;
            while k < r.len()
                invariant
                    k <= r@.len(),
                    out@ == before + r@.subrange(0, k as int),
                decreases r@.len() - k,
            {
                out.push(r[k]);
                k = k + 1;
                assert(out@ =~= before + r@.subrange(0, k as int));
            }
            assert(r@.subrange(0, r@.len() as int) =~= r@);
            assert(out@ + replace_all(t@.subrange(i + p@.len(), t@.len() as int), p@, r@)
                =~= before + (r@ + replace_all(t@.subrange(i + p@.len(), t@.len() as int), p@, r@)));
            i = i + p.len();
        } else {
            let ghost before = out@;
            out.push(t[i]);
            assert(out@ + replace_all(t@.subrange(i + 1, t@.len() as int), p@, r@)
                =~= before + (seq![t@[i as int]] + replace_all(t@.subrange(i + 1, t@.len() as int), p@, r@)));
            i = i + 1;
        }
    }
    assert(out@ =~= out@ + replace_all(t@.subrange(i as int, t@.len() as int), p@, r@));
    out
}

/// Before the first `'*'` it writes, a replacement by stars copies its input.
proof fn lemma_copied_prefix(s: Seq<char>, p: Seq<char>, r: Seq<char>, k: int)
    requires
        p.len() > 0,
        r.len() > 0,
        all_stars(r),
        0 <= k <= replace_all(s, p, r).len(),
        forall|j: int| 0 <= j < k ==> replace_all(s, p, r)[j] != '*',
    ensures
        k <= s.len(),
        replace_all(s, p, r).subrange(0, k) == s.subrange(0, k),
    decreases s.len(),
{
    let ra = replace_all(s, p, r);
    if s.len() < p.len() {
    } else if s.subrange(0, p.len() as int) == p {
        if k > 0 {
            assert(ra[0] == r[0]);
        }
        assert(ra.subrange(0, k) =~= s.subrange(0, k));
    } else if k > 0 {
        let s1 = s.drop_first();
        let ra1 = replace_all(s1, p, r);
        assert(ra == seq![s[0]] + ra1);
        assert forall|j: int| 0 <= j < k - 1 implies ra1[j] != '*' by {
            assert(ra[j + 1] == ra1[j]);
        }
        lemma_copied_prefix(s1, p, r, k - 1);
        assert(ra.subrange(0, k) =~= seq![s[0]] + ra1.subrange(0, k - 1));
        assert(s.subrange(0, k) =~= seq![s[0]] + s1.subrange(0, k - 1));
    } else {
        assert(ra.subrange(0, k) =~= s.subrange(0, k));
    }
}

/// A replacement by stars creates no new occurrence of a star-free `q`.
pub proof fn lemma_replace_adds_no_occurrence(t: Seq<char>, p: Seq<char>, r: Seq<char>, q: Seq<char>)
    requires
        p.len() > 0,
        r.len() > 0,
        all_stars(r),
        q.len() > 0,
        !q.contains('*'),
        occurs(replace_all(t, p, r), q),
    ensures
        occurs(t, q),
    decreases t.len(),
{
    let ra = replace_all(t, p, r);
    let i = choose|i: int| 0 <= i && i + q.len() <= ra.len() && #[trigger] ra.subrange(i, i + q.len()) == q;
    assert(ra.subrange(i, i + q.len())[0] == q[0]);
    if t.len() < p.len() {
    } else if t.subrange(0, p.len() as int) == p {
        let t2 = t.subrange(p.len() as int, t.len() as int);
        let ra2 = replace_all(t2, p, r);
        assert(ra == r + ra2);
        if i < r.len() {
            assert(ra[i] == '*');
            assert(q.contains('*'));
        } else {
            let i2 = i - r.len();
            assert(ra2.subrange(i2, i2 + q.len()) =~= ra.subrange(i, i + q.len()));
            lemma_replace_adds_no_occurrence(t2, p, r, q);
            let w = choose|w: int| 0 <= w && w + q.len() <= t2.len() && #[trigger] t2.subrange(w, w + q.len()) == q;
            assert(t.subrange(w + p.len(), w + p.len() + q.len()) =~= t2.subrange(w, w + q.len()));
        }
    } else {
        let t1 = t.drop_first();
        let ra1 = replace_all(t1, p, r);
        assert(ra == seq![t[0]] + ra1);
        if i >= 1 {
            assert(ra1.subrange(i - 1, i - 1 + q.len()) =~= ra.subrange(i, i + q.len()));
            lemma_replace_adds_no_occurrence(t1, p, r, q);
            let w = choose|w: int| 0 <= w && w + q.len() <= t1.len() && #[trigger] t1.subrange(w, w + q.len()) == q;
            assert(t.subrange(w + 1, w + 1 + q.len()) =~= t1.subrange(w, w + q.len()));
        } else {
            let k = q.len() - 1;
            assert forall|j: int| 0 <= j < k implies ra1[j] != '*' by {
                assert(ra1[j] == ra[j + 1]);
                assert(ra[j + 1] == ra.subrange(0, q.len() as int)[j + 1]);
                assert(q[j + 1] != '*' ) by {
                    if q[j + 1] == '*' {
                        assert(q.contains('*'));
                    }
                }
            }
            lemma_copied_prefix(t1, p, r, k);
            assert(t.subrange(0, q.len() as int) =~= seq![t[0]] + t1.subrange(0, k));
            assert(ra.subrange(0, q.len() as int) =~= seq![t[0]] + ra1.subrange(0, k));
            assert(t.subrange(0, 0 + q.len() as int) == q);
        }
    }
}

/// After a replacement by stars, the star-free pattern itself no longer occurs.
pub proof fn lemma_replace_removes_pattern(t: Seq<char>, p: Seq<char>, r: Seq<char>)
    requires
        p.len() > 0,
        !p.contains('*'),
        r.len() > 0,
        all_stars(r),
    ensures
        !occurs(replace_all(t, p, r), p),
    decreases t.len(),
{
    let ra = replace_all(t, p, r);
    if occurs(ra, p) {
        let i = choose|i: int| 0 <= i && i + p.len() <= ra.len() && #[trigger] ra.subrange(i, i + p.len()) == p;
        assert(ra.subrange(i, i + p.len())[0] == p[0]);
        if t.len() < p.len() {
            assert(ra == t);
        } else if t.subrange(0, p.len() as int) == p {
            let t2 = t.subrange(p.len() as int, t.len() as int);
            let ra2 = replace_all(t2, p, r);
            assert(ra == r + ra2);
            if i < r.len() {
                assert(ra[i] == '*');
                assert(p.contains('*'));
            } else {
                let i2 = i - r.len();
                assert(ra2.subrange(i2, i2 + p.len()) =~= ra.subrange(i, i + p.len()));
                lemma_replace_removes_pattern(t2, p, r);
            }
        } else {
            let t1 = t.drop_first();
            let ra1 = replace_all(t1, p, r);
            assert(ra == seq![t[0]] + ra1);
            if i >= 1 {
                assert(ra1.subrange(i - 1, i - 1 + p.len()) =~= ra.subrange(i, i + p.len()));
                lemma_replace_removes_pattern(t1, p, r);
            } else {
                let k = p.len() - 1;
                assert forall|j: int| 0 <= j < k implies ra1[j] != '*' by {
                    assert(ra1[j] == ra[j + 1]);
                    assert(ra[j + 1] == ra.subrange(0, p.len() as int)[j + 1]);
                    if p[j + 1] == '*' {
                        assert(p.contains('*'));
                    }
                }
                lemma_copied_prefix(t1, p, r, k);
                assert(t.subrange(0, p.len() as int) =~= seq![t[0]] + t1.subrange(0, k));
                assert(ra.subrange(0, p.len() as int) =~= seq![t[0]] + ra1.subrange(0, k));
            }
        }
    }
}


/// The views of a sequence of strings.
pub open spec fn views(v: Seq<String>) -> Seq<Seq<char>> {
    v.map_values(|s: String| s@)
}

/// `parts` joined with `sep` between neighbours (`[&str]::join`).
pub open spec fn join(parts: Seq<Seq<char>>, sep: Seq<char>) -> Seq<char>
    decreases parts.len(),
{
    if parts.len() == 0 {
        Seq::empty()
    } else if parts.len() == 1 {
        parts[0]
    } else {
        join(parts.drop_last(), sep) + sep + parts.last()
    }
}


/// The pieces of `s` between occurrences of `sep` (`str::split` with a `char`);
/// always at least one piece.
pub open spec fn split_on(s: Seq<char>, sep: char) -> Seq<Seq<char>>
    decreases s.len(),
{
    if s.len() == 0 {
        seq![Seq::empty()]
    } else {
        let prev = split_on(s.drop_last(), sep);
        if s.last() == sep {
            prev.push(Seq::empty())
        } else {
            prev.update(prev.len() - 1, prev.last().push(s.last()))
        }
    }
}

pub proof fn lemma_split_nonempty(s: Seq<char>, sep: char)
    ensures
        split_on(s, sep).len() >= 1,
    decreases s.len(),
{
    if s.len() > 0 {
        lemma_split_nonempty(s.drop_last(), sep);
    }
}

/// Splits `s` at every `sep`.
pub fn split_chars(s: &[char], sep: char) -> (res: Vec<Vec<char>>)
    ensures
        res@.map_values(|v: Vec<char>| v@) == split_on(s@, sep),
{
    let mut done: Vec<Vec<char>> = Vec::new();
    let mut current: Vec<char> = Vec::new();
    let mut i: usize = 0;
    while i < s.len()
        invariant
            i <= s@.len(),
            done@.map_values(|v: Vec<char>| v@).push(current@) == split_on(s@.take(i as int), sep),
        decreases s@.len() - i,
    {
        let ghost prefix = s@.take(i as int);
        let ghost next = s@.take(i + 1);
        assert(next.drop_last() =~= prefix);
        proof { lemma_split_nonempty(prefix, sep); }
        let ghost before_done = done@.map_values(|v: Vec<char>| v@);
        let ghost before_current = current@;
        if s[i] == sep {
            let finished = current;
            done.push(finished);
            current = Vec::new();
            assert(done@.map_values(|v: Vec<char>| v@) =~= before_done.push(before_current));
            assert(done@.map_values(|v: Vec<char>| v@).push(current@) =~= split_on(next, sep));
        } else {
            current.push(s[i]);
            assert(done@.map_values(|v: Vec<char>| v@).push(current@) =~= split_on(next, sep));
        }
        i = i + 1;
    }
    assert(s@.take(s@.len() as int) =~= s@);
    let ghost before_done = done@.map_values(|v: Vec<char>| v@);
    let last = current;
    done.push(last);
    assert(done@.map_values(|v: Vec<char>| v@) =~= before_done.push(last@));
    done
}


/// The characters of `s` from `lo` up to `hi`.
pub fn slice_chars(s: &[char], lo: usize, hi: usize) -> (res: Vec<char>)
    requires
        lo <= hi <= s@.len(),
    ensures
        res@ == s@.subrange(lo as int, hi as int),
{
    let mut out: Vec<char> = Vec::new();
    let mut k: usize = lo;
    while k < hi
        invariant
            lo <= k <= hi <= s@.len(),
            out@ == s@.subrange(lo as int, k as int),
        decreases hi - k,
    {
        out.push(s[k]);
        k = k + 1;
        assert(out@ =~= s@.subrange(lo as int, k as int));
    }
    out
}

} // verus!
