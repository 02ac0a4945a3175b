//! Character-level text handling shared by the Dockerfile and Slurm parsers.
//!
//! Text is modelled as `Seq<char>`, the view of `String` and `&str`. Parsers work on a
//! `Vec<char>` copy of their input and address pieces of it by index ranges.
use vstd::prelude::*;

verus! {

// ---------------------------------------------------------------------------
// Character classes
// ---------------------------------------------------------------------------

/// The Unicode `White_Space` property, which `char::is_whitespace`, `str::trim` and
/// `str::split_whitespace` use.
pub open spec fn is_ws(c: char) -> bool {
    ||| ('\u{0009}' <= c && c <= '\u{000D}')
    ||| c == ' '
    ||| c == '\u{0085}'
    ||| c == '\u{00A0}'
    ||| c == '\u{1680}'
    ||| ('\u{2000}' <= c && c <= '\u{200A}')
    ||| c == '\u{2028}'
    ||| c == '\u{2029}'
    ||| c == '\u{202F}'
    ||| c == '\u{205F}'
    ||| c == '\u{3000}'
}

pub fn is_whitespace(c: char) -> (res: bool)
    ensures
        res == is_ws(c),
{
    ('\u{0009}' <= c && c <= '\u{000D}') || c == ' ' || c == '\u{0085}' || c == '\u{00A0}'
        || c == '\u{1680}' || ('\u{2000}' <= c && c <= '\u{200A}') || c == '\u{2028}' || c
        == '\u{2029}' || c == '\u{202F}' || c == '\u{205F}' || c == '\u{3000}'
}

/// `char::to_ascii_uppercase`.
pub open spec fn ascii_upper(c: char) -> char {
    if 'a' <= c && c <= 'z' {
        ((c as u32) - 32) as char
    } else {
        c
    }
}

/// `char::to_ascii_lowercase`.
pub open spec fn ascii_lower(c: char) -> char {
    if 'A' <= c && c <= 'Z' {
        ((c as u32) + 32) as char
    } else {
        c
    }
}

pub open spec fn upper(s: Seq<char>) -> Seq<char> {
    s.map_values(|c: char| ascii_upper(c))
}

pub open spec fn lower(s: Seq<char>) -> Seq<char> {
    s.map_values(|c: char| ascii_lower(c))
}

/// `str::eq_ignore_ascii_case`.
pub open spec fn eq_ignore_case(a: Seq<char>, b: Seq<char>) -> bool {
    a.len() == b.len() && forall|i: int| 0 <= i < a.len() ==> ascii_lower(a[i]) == ascii_lower(b[i])
}

pub fn char_upper(c: char) -> (r: char)
    ensures
        r == ascii_upper(c),
{
    if 'a' <= c && c <= 'z' {
        let u: u32 = (c as u32) - 32;
        assert(u <= 0x7f);
        char_from_ascii(u)
    } else {
        c
    }
}

pub fn char_lower(c: char) -> (r: char)
    ensures
        r == ascii_lower(c),
{
    if 'A' <= c && c <= 'Z' {
        let u: u32 = (c as u32) + 32;
        assert(u <= 0x7f);
        char_from_ascii(u)
    } else {
        c
    }
}

/// The character of an ASCII code.
fn char_from_ascii(u: u32) -> (c: char)
    requires
        u < 0x80,
    ensures
        c == u as char,
{
    let b: u8 = u as u8;
    b as char
}

// ---------------------------------------------------------------------------
// Trimming
// ---------------------------------------------------------------------------

/// `str::trim_start`.
pub open spec fn trim_start(s: Seq<char>) -> Seq<char>
    decreases s.len(),
{
    if s.len() > 0 && is_ws(s[0]) {
        trim_start(s.drop_first())
    } else {
        s
    }
}

/// `str::trim_end`.
pub open spec fn trim_end(s: Seq<char>) -> Seq<char>
    decreases s.len(),
{
    if s.len() > 0 && is_ws(s.last()) {
        trim_end(s.drop_last())
    } else {
        s
    }
}

/// `str::trim`.
pub open spec fn trim(s: Seq<char>) -> Seq<char> {
    trim_end(trim_start(s))
}

/// Whether `s` holds only whitespace (`s.trim().is_empty()`).
pub open spec fn is_blank(s: Seq<char>) -> bool {
    trim(s).len() == 0
}

pub proof fn lemma_trim_start_all_ws(s: Seq<char>)
    ensures
        (trim_start(s).len() == 0) <==> (forall|i: int| 0 <= i < s.len() ==> is_ws(s[i])),
    decreases s.len(),
{
    if s.len() > 0 && is_ws(s[0]) {
        lemma_trim_start_all_ws(s.drop_first());
        if trim_start(s).len() == 0 {
            assert forall|i: int| 0 <= i < s.len() implies is_ws(s[i]) by {
                if i > 0 {
                    assert(s[i] == s.drop_first()[i - 1]);
                }
            }
        } else {
            let t = s.drop_first();
            assert(exists|i: int| 0 <= i < t.len() && !is_ws(t[i]));
            let i = choose|i: int| 0 <= i < t.len() && !is_ws(t[i]);
            assert(s[i + 1] == t[i]);
        }
    }
}

pub proof fn lemma_trim_end_empty(s: Seq<char>)
    ensures
        trim_end(s).len() == 0 <==> s.len() == 0 || trim_end(s) =~= Seq::<char>::empty(),
        s.len() == 0 ==> trim_end(s).len() == 0,
        trim_end(s).len() <= s.len(),
        trim_end(s) =~= s.take(trim_end(s).len() as int),
        trim_end(s).len() > 0 ==> !is_ws(trim_end(s).last()),
    decreases s.len(),
{
    if s.len() > 0 && is_ws(s.last()) {
        lemma_trim_end_empty(s.drop_last());
        assert(s.drop_last().take(trim_end(s).len() as int) =~= s.take(trim_end(s).len() as int));
    }
}

pub proof fn lemma_trim_start_shape(s: Seq<char>)
    ensures
        trim_start(s).len() <= s.len(),
        trim_start(s) =~= s.skip(s.len() - trim_start(s).len()),
        trim_start(s).len() > 0 ==> !is_ws(trim_start(s)[0]),
        forall|i: int| 0 <= i < s.len() - trim_start(s).len() ==> is_ws(s[i]),
    decreases s.len(),
{
    if s.len() > 0 && is_ws(s[0]) {
        lemma_trim_start_shape(s.drop_first());
        let t = s.drop_first();
        assert(t.skip(t.len() - trim_start(t).len()) =~= s.skip(s.len() - trim_start(s).len()));
        assert forall|i: int| 0 <= i < s.len() - trim_start(s).len() implies is_ws(s[i]) by {
            if i > 0 {
                assert(s[i] == t[i - 1]);
            }
        }
    }
}

/// Text that starts with a non-whitespace character keeps it when its end is trimmed.
pub proof fn lemma_trim_end_nonempty(s: Seq<char>)
    requires
        s.len() > 0,
        !is_ws(s[0]),
    ensures
        trim_end(s).len() > 0,
    decreases s.len(),
{
    if is_ws(s.last()) {
        assert(s.len() > 1);
        assert(s.drop_last()[0] == s[0]);
        lemma_trim_end_nonempty(s.drop_last());
    }
}

/// Blank text trims to nothing, and trimming is idempotent.
pub proof fn lemma_trim_idempotent(s: Seq<char>)
    ensures
        trim(trim(s)) == trim(s),
        trim(s).len() > 0 ==> !is_ws(trim(s)[0]) && !is_ws(trim(s).last()),
{
    let a = trim_start(s);
    let b = trim_end(a);
    lemma_trim_start_shape(s);
    lemma_trim_end_empty(a);
    if b.len() > 0 {
        assert(b[0] == a[0]);
        assert(trim_start(b) == b);
        assert(trim_end(b) == b);
    } else {
        assert(trim_start(b) == b);
        assert(trim_end(b) == b);
    }
}

/// Dropping the first character before trimming the end drops it after, unless nothing is
/// left.
pub proof fn lemma_trim_end_drop_first(s: Seq<char>)
    requires
        s.len() > 0,
    ensures
        trim_end(s.drop_first()) == (if trim_end(s).len() > 0 {
            trim_end(s).drop_first()
        } else {
            Seq::<char>::empty()
        }),
    decreases s.len(),
{
    if s.len() == 1 {
        assert(s.drop_first().len() == 0);
        if trim_end(s).len() > 0 {
            lemma_trim_end_empty(s);
            assert(trim_end(s).drop_first().len() == 0);
        }
        assert(trim_end(s.drop_first()) =~= Seq::<char>::empty());
    } else if is_ws(s.last()) {
        let d = s.drop_last();
        lemma_trim_end_drop_first(d);
        assert(s.drop_first().drop_last() =~= d.drop_first());
        assert(s.drop_first().last() == s.last());
    } else {
        assert(s.drop_first().last() == s.last());
    }
}

/// Trimming the start and trimming the end can be done in either order.
pub proof fn lemma_trim_start_end_commute(s: Seq<char>)
    ensures
        trim_start(trim_end(s)) == trim_end(trim_start(s)),
    decreases s.len(),
{
    if s.len() == 0 {
    } else if is_ws(s[0]) {
        let d = s.drop_first();
        lemma_trim_start_end_commute(d);
        lemma_trim_end_drop_first(s);
        lemma_trim_end_empty(s);
        let e = trim_end(s);
        if e.len() > 0 {
            assert(e[0] == s[0]);
        } else {
            assert(trim_end(d) =~= Seq::<char>::empty());
        }
    } else {
        lemma_trim_end_nonempty(s);
        lemma_trim_end_empty(s);
        assert(trim_end(s)[0] == s[0]);
    }
}

/// Trimming the end of text before trimming it all changes nothing.
pub proof fn lemma_trim_of_trim_end(s: Seq<char>)
    ensures
        trim(trim_end(s)) == trim(s),
{
    lemma_trim_start_end_commute(s);
    lemma_trim_start_end_commute(trim_end(s));
    let e = trim_end(s);
    lemma_trim_end_empty(s);
    assert(trim_end(e) == e);
}

/// A copy of the characters of `s`.
pub fn chars_of(s: &str) -> (res: Vec<char>)
    ensures
        res@ == s@,
{
    let mut res: Vec<char> = Vec::new();
    for c in it: s.chars()
        invariant
            res@ == it.seq().take(it.index() as int),
    {
        res.push(c);
    }
    res
}

/// `String::push`.
#[verifier::external_body]
fn push_char(s: &mut String, c: char)
    ensures
        final(s)@ == old(s)@.push(c),
{
    s.push(c)
}


/// The text `v[lo..hi]` as a `String`.
pub fn string_of(v: &Vec<char>, lo: usize, hi: usize) -> (res: String)
    requires
        lo <= hi <= v@.len(),
    ensures
        res@ == v@.subrange(lo as int, hi as int),
{
    let mut res = String::new();
    let mut k = lo;
    while k < hi
        invariant
            lo <= k <= hi <= v@.len(),
            res@ == v@.subrange(lo as int, k as int),
        decreases hi - k,
    {
        push_char(&mut res, v[k]);
        assert(v@.subrange(lo as int, k + 1) =~= v@.subrange(lo as int, k as int).push(v@[k as int]));
        k += 1;
    }
    res
}


/// `a` followed by `b`.
pub fn concat(a: &str, b: &str) -> (res: String)
    ensures
        res@ == a@ + b@,
{
    let mut s = String::from_str(a);
    s.append(b);
    s
}

/// The text `v[lo..hi]` with every ASCII letter mapped by `to_upper` (true) or to lower case.
pub fn string_of_case(v: &Vec<char>, lo: usize, hi: usize, to_upper: bool) -> (res: String)
    requires
        lo <= hi <= v@.len(),
    ensures
        to_upper ==> res@ == upper(v@.subrange(lo as int, hi as int)),
        !to_upper ==> res@ == lower(v@.subrange(lo as int, hi as int)),
{
    let mut res = String::new();
    let mut k = lo;
    while k < hi
        invariant
            lo <= k <= hi <= v@.len(),
            to_upper ==> res@ == upper(v@.subrange(lo as int, k as int)),
            !to_upper ==> res@ == lower(v@.subrange(lo as int, k as int)),
        decreases hi - k,
    {
        let c = if to_upper {
            char_upper(v[k])
        } else {
            char_lower(v[k])
        };
        push_char(&mut res, c);
        assert(upper(v@.subrange(lo as int, k + 1)) =~= upper(v@.subrange(lo as int, k as int)).push(
            ascii_upper(v@[k as int]),
        ));
        assert(lower(v@.subrange(lo as int, k + 1)) =~= lower(v@.subrange(lo as int, k as int)).push(
            ascii_lower(v@[k as int]),
        ));
        k += 1;
    }
    res
}

/// Index of the first non-whitespace character of `v[lo..hi]` (or `hi`), and one past the
/// last one: the bounds of `v[lo..hi].trim()`.
pub fn trim_bounds(v: &Vec<char>, lo: usize, hi: usize) -> (r: (usize, usize))
    requires
        lo <= hi <= v@.len(),
    ensures
        lo <= r.0 <= r.1 <= hi,
        v@.subrange(r.0 as int, r.1 as int) == trim(v@.subrange(lo as int, hi as int)),
{
    let mut a = lo;
    while a < hi && is_whitespace(v[a])
        invariant
            lo <= a <= hi <= v@.len(),
            trim_start(v@.subrange(lo as int, hi as int)) == trim_start(v@.subrange(a as int, hi as int)),
        decreases hi - a,
    {
        assert(v@.subrange(a as int, hi as int).drop_first() =~= v@.subrange(a + 1, hi as int));
        a += 1;
    }
    let mut b = hi;
    while b > a && is_whitespace(v[b - 1])
        invariant
            lo <= a <= b <= hi <= v@.len(),
            trim_end(v@.subrange(a as int, hi as int)) == trim_end(v@.subrange(a as int, b as int)),
        decreases b - a,
    {
        assert(v@.subrange(a as int, b as int).drop_last() =~= v@.subrange(a as int, b - 1));
        b -= 1;
    }
    (a, b)
}

/// Whether `v[lo..hi]` holds only whitespace.
pub fn blank_range(v: &Vec<char>, lo: usize, hi: usize) -> (r: bool)
    requires
        lo <= hi <= v@.len(),
    ensures
        r == is_blank(v@.subrange(lo as int, hi as int)),
{
    let (a, b) = trim_bounds(v, lo, hi);
    a == b
}

/// Whether `v[lo..hi]` equals `lit`.
pub fn range_eq(v: &Vec<char>, lo: usize, hi: usize, lit: &Vec<char>) -> (r: bool)
    requires
        lo <= hi <= v@.len(),
    ensures
        r == (v@.subrange(lo as int, hi as int) == lit@),
{
    if hi - lo != lit.len() {
        assert(v@.subrange(lo as int, hi as int).len() != lit@.len());
        return false;
    }
    let mut k: usize = 0;
    while k < lit.len()
        invariant
            lo <= hi <= v@.len(),
            hi - lo == lit@.len(),
            k <= lit@.len(),
            forall|j: int| 0 <= j < k ==> v@[lo + j] == lit@[j],
        decreases lit@.len() - k,
    {
        if v[lo + k] != lit[k] {
            assert(v@.subrange(lo as int, hi as int)[k as int] != lit@[k as int]);
            return false;
        }
        k += 1;
    }
    assert(v@.subrange(lo as int, hi as int) =~= lit@);
    true
}

/// Whether `v[lo..hi]` equals `lit` ignoring ASCII case.
pub fn range_eq_ignore_case(v: &Vec<char>, lo: usize, hi: usize, lit: &Vec<char>) -> (r: bool)
    requires
        lo <= hi <= v@.len(),
    ensures
        r == eq_ignore_case(v@.subrange(lo as int, hi as int), lit@),
{
    if hi - lo != lit.len() {
        return false;
    }
    let mut k: usize = 0;
    while k < lit.len()
        invariant
            lo <= hi <= v@.len(),
            hi - lo == lit@.len(),
            k <= lit@.len(),
            forall|j: int| 0 <= j < k ==> ascii_lower(v@[lo + j]) == ascii_lower(lit@[j]),
        decreases lit@.len() - k,
    {
        if char_lower(v[lo + k]) != char_lower(lit[k]) {
            assert(v@.subrange(lo as int, hi as int)[k as int] == v@[lo + k]);
            return false;
        }
        k += 1;
    }
    assert forall|i: int| 0 <= i < lit@.len() implies ascii_lower(
        v@.subrange(lo as int, hi as int)[i],
    ) == ascii_lower(lit@[i]) by {
        assert(v@.subrange(lo as int, hi as int)[i] == v@[lo + i]);
    }
    true
}

/// Whether `s` equals `lit` ignoring ASCII case.
pub fn str_eq_ignore_case(s: &str, lit: &str) -> (r: bool)
    ensures
        r == eq_ignore_case(s@, lit@),
{
    let v = chars_of(s);
    let l = chars_of(lit);
    assert(v@.subrange(0, v@.len() as int) =~= v@);
    range_eq_ignore_case(&v, 0, v.len(), &l)
}

// ---------------------------------------------------------------------------
// Ordering of text
// ---------------------------------------------------------------------------

/// `a` comes before `b` in the lexicographic order of their characters, the order in which
/// `String`s compare.
pub open spec fn lex_lt(a: Seq<char>, b: Seq<char>) -> bool
    decreases a.len(),
{
    if b.len() == 0 {
        false
    } else if a.len() == 0 {
        true
    } else if a[0] != b[0] {
        (a[0] as int) < (b[0] as int)
    } else {
        lex_lt(a.drop_first(), b.drop_first())
    }
}

/// The lexicographic order is a strict total order.
pub proof fn lemma_lex_order(a: Seq<char>, b: Seq<char>, c: Seq<char>)
    ensures
        !lex_lt(a, a),
        lex_lt(a, b) ==> !lex_lt(b, a),
        lex_lt(a, b) && lex_lt(b, c) ==> lex_lt(a, c),
        a != b ==> lex_lt(a, b) || lex_lt(b, a),
    decreases a.len(),
{
    if a.len() > 0 {
        let b1 = if b.len() > 0 { b.drop_first() } else { b };
        let c1 = if c.len() > 0 { c.drop_first() } else { c };
        lemma_lex_order(a.drop_first(), b1, c1);
        if b.len() > 0 && a[0] == b[0] && a != b {
            assert(a.drop_first() != b.drop_first()) by {
                if a.drop_first() == b.drop_first() {
                    assert(a =~= b) by {
                        assert forall|i: int| 0 <= i < a.len() implies a[i] == b[i] by {
                            if i > 0 {
                                assert(a[i] == a.drop_first()[i - 1]);
                                assert(b[i] == b.drop_first()[i - 1]);
                            }
                        }
                    }
                }
            }
        }
    } else {
        if b.len() == 0 {
            assert(a =~= b);
        }
    }
}

/// Whether `a` comes before `b` in the lexicographic order of their characters.
pub fn str_lt(a: &str, b: &str) -> (r: bool)
    ensures
        r == lex_lt(a@, b@),
{
    let va = chars_of(a);
    let vb = chars_of(b);
    let mut i: usize = 0;
    assert(a@.skip(0) =~= a@);
    assert(b@.skip(0) =~= b@);
    while i < va.len() && i < vb.len()
        invariant
            i <= va@.len(),
            i <= vb@.len(),
            va@ == a@,
            vb@ == b@,
            lex_lt(a@, b@) == lex_lt(a@.skip(i as int), b@.skip(i as int)),
        decreases va@.len() - i,
    {
        let x = va[i];
        let y = vb[i];
        assert(a@.skip(i as int)[0] == x);
        assert(b@.skip(i as int)[0] == y);
        if x != y {
            return x < y;
        }
        assert(a@.skip(i as int).drop_first() =~= a@.skip(i + 1));
        assert(b@.skip(i as int).drop_first() =~= b@.skip(i + 1));
        i += 1;
    }
    i < vb.len()
}

// ---------------------------------------------------------------------------
// Searching and splitting
// ---------------------------------------------------------------------------

/// `i` is the position of the first `c` in `s`.
pub open spec fn first_at(s: Seq<char>, c: char, i: int) -> bool {
    &&& 0 <= i < s.len()
    &&& s[i] == c
    &&& forall|j: int| 0 <= j < i ==> s[j] != c
}

/// The position of the first `c` in `s`, if any.
pub open spec fn find(s: Seq<char>, c: char) -> Option<int> {
    if exists|i: int| first_at(s, c, i) {
        Some(choose|i: int| first_at(s, c, i))
    } else {
        None
    }
}

pub proof fn lemma_find(s: Seq<char>, c: char, i: int)
    requires
        first_at(s, c, i),
    ensures
        find(s, c) == Some(i),
{
    let k = choose|k: int| first_at(s, c, k);
    assert(k == i) by {
        if k < i {
            assert(s[k] != c);
        }
        if i < k {
            assert(s[i] != c);
        }
    }
}

pub proof fn lemma_find_none(s: Seq<char>, c: char)
    requires
        forall|j: int| 0 <= j < s.len() ==> s[j] != c,
    ensures
        find(s, c) is None,
{
}

/// `str::split_once(c)`: the text before and after the first `c`.
pub open spec fn split_once(s: Seq<char>, c: char) -> Option<(Seq<char>, Seq<char>)> {
    match find(s, c) {
        Some(i) => Some((s.take(i), s.skip(i + 1))),
        None => None,
    }
}

/// The first `c` in `v[lo..hi]`, as an index into `v`.
pub fn find_char(v: &Vec<char>, lo: usize, hi: usize, c: char) -> (r: Option<usize>)
    requires
        lo <= hi <= v@.len(),
    ensures
        match r {
            Some(i) => lo <= i < hi && find(v@.subrange(lo as int, hi as int), c) == Some(i - lo),
            None => find(v@.subrange(lo as int, hi as int), c) is None,
        },
{
    let mut k = lo;
    while k < hi
        invariant
            lo <= k <= hi <= v@.len(),
            forall|j: int| lo <= j < k ==> v@[j] != c,
        decreases hi - k,
    {
        if v[k] == c {
            proof {
                let s = v@.subrange(lo as int, hi as int);
                assert forall|j: int| 0 <= j < k - lo implies s[j] != c by {
                    assert(s[j] == v@[lo + j]);
                }
                lemma_find(s, c, k - lo);
            }
            return Some(k);
        }
        k += 1;
    }
    proof {
        let s = v@.subrange(lo as int, hi as int);
        assert forall|j: int| 0 <= j < s.len() implies s[j] != c by {
            assert(s[j] == v@[lo + j]);
        }
        lemma_find_none(s, c);
    }
    None
}

/// `i` is the position of the first whitespace character in `s`.
pub open spec fn first_ws_at(s: Seq<char>, i: int) -> bool {
    &&& 0 <= i < s.len()
    &&& is_ws(s[i])
    &&& forall|j: int| 0 <= j < i ==> !is_ws(s[j])
}

/// The position of the first whitespace character in `s`, if any.
pub open spec fn find_ws(s: Seq<char>) -> Option<int> {
    if exists|i: int| first_ws_at(s, i) {
        Some(choose|i: int| first_ws_at(s, i))
    } else {
        None
    }
}

/// The first whitespace character in `v[lo..hi]`, as an index into `v`.
pub fn find_whitespace(v: &Vec<char>, lo: usize, hi: usize) -> (r: Option<usize>)
    requires
        lo <= hi <= v@.len(),
    ensures
        match r {
            Some(i) => lo <= i < hi && find_ws(v@.subrange(lo as int, hi as int)) == Some(i - lo),
            None => find_ws(v@.subrange(lo as int, hi as int)) is None,
        },
{
    let mut k = lo;
    while k < hi
        invariant
            lo <= k <= hi <= v@.len(),
            forall|j: int| lo <= j < k ==> !is_ws(v@[j]),
        decreases hi - k,
    {
        if is_whitespace(v[k]) {
            proof {
                let s = v@.subrange(lo as int, hi as int);
                assert forall|j: int| 0 <= j < k - lo implies !is_ws(s[j]) by {
                    assert(s[j] == v@[lo + j]);
                }
                assert(first_ws_at(s, k - lo));
                let m = choose|m: int| first_ws_at(s, m);
                assert(m == k - lo) by {
                    if m < k - lo {
                        assert(!is_ws(s[m]));
                    }
                    if k - lo < m {
                        assert(!is_ws(s[k - lo]));
                    }
                }
            }
            return Some(k);
        }
        k += 1;
    }
    proof {
        let s = v@.subrange(lo as int, hi as int);
        assert forall|i: int| !first_ws_at(s, i) by {
            if 0 <= i < s.len() {
                assert(s[i] == v@[lo + i]);
            }
        }
    }
    None
}

/// `str::split(c)`: every piece between occurrences of `c`, empty pieces included.
pub open spec fn split_char(s: Seq<char>, c: char) -> Seq<Seq<char>>
    decreases s.len(),
{
    match find(s, c) {
        Some(i) => {
            if 0 <= i < s.len() {
                seq![s.take(i)] + split_char(s.skip(i + 1), c)
            } else {
                seq![s]
            }
        },
        None => seq![s],
    }
}

/// `str::split_whitespace`: the maximal runs of non-whitespace characters.
pub open spec fn words(s: Seq<char>) -> Seq<Seq<char>>
    decreases s.len(),
{
    let t = trim_start(s);
    if t.len() == 0 {
        Seq::empty()
    } else {
        match find_ws(t) {
            Some(i) => {
                if 0 < i < t.len() && t.len() <= s.len() {
                    seq![t.take(i)] + words(t.skip(i))
                } else {
                    seq![t]
                }
            },
            None => seq![t],
        }
    }
}

/// `sep`-separated concatenation (`[String]::join`).
pub open spec fn join(parts: Seq<Seq<char>>, sep: Seq<char>) -> Seq<char>
    decreases parts.len(),
{
    if parts.len() == 0 {
        Seq::empty()
    } else if parts.len() == 1 {
        parts[0]
    } else {
        parts[0] + sep + join(parts.drop_first(), sep)
    }
}

/// Whether `s` begins with `p`.
pub open spec fn starts_with(s: Seq<char>, p: Seq<char>) -> bool {
    p.len() <= s.len() && s.take(p.len() as int) == p
}

/// Whether `s` contains `c`.
pub open spec fn has_char(s: Seq<char>, c: char) -> bool {
    exists|i: int| 0 <= i < s.len() && s[i] == c
}

pub proof fn lemma_find_some_iff_has(s: Seq<char>, c: char)
    ensures
        find(s, c) is Some <==> has_char(s, c),
{
    if has_char(s, c) {
        let i = choose|i: int| 0 <= i < s.len() && s[i] == c;
        lemma_least(s, c, i);
    }
}

proof fn lemma_least(s: Seq<char>, c: char, i: int)
    requires
        0 <= i < s.len(),
        s[i] == c,
    ensures
        exists|k: int| first_at(s, c, k),
    decreases i,
{
    if exists|j: int| 0 <= j < i && s[j] == c {
        let j = choose|j: int| 0 <= j < i && s[j] == c;
        lemma_least(s, c, j);
    } else {
        assert(first_at(s, c, i));
    }
}

/// Join `parts[start..]` with `sep` into a new `String`.
pub fn join_strings(parts: &Vec<String>, start: usize, sep: &str) -> (res: String)
    requires
        start <= parts@.len(),
    ensures
        res@ == join(strs_view(parts@.skip(start as int)), sep@),
{
    let ghost views = strs_view(parts@);
    if parts.len() == start {
        assert(strs_view(parts@.skip(start as int)) =~= Seq::<Seq<char>>::empty());
        return String::new();
    }
    let mut res = String::from_str(parts[parts.len() - 1].as_str());
    let mut k: usize = parts.len() - 1;
    assert(strs_view(parts@.skip(k as int)) =~= seq![views[k as int]]);
    while k > start
        invariant
            start <= k < parts@.len(),
            views == strs_view(parts@),
            res@ == join(strs_view(parts@.skip(k as int)), sep@),
        decreases k,
    {
        let mut s = String::from_str(parts[k - 1].as_str());
        s.append(sep);
        s.append(res.as_str());
        proof {
            let t = strs_view(parts@.skip(k - 1));
            assert(t.drop_first() =~= strs_view(parts@.skip(k as int)));
            assert(t[0] == parts@[k - 1]@);
        }
        res = s;
        k -= 1;
    }
    res
}

/// `t` without one trailing carriage return.
pub open spec fn strip_cr(t: Seq<char>) -> Seq<char> {
    if t.len() > 0 && t.last() == '\r' {
        t.drop_last()
    } else {
        t
    }
}

/// `str::lines`: the text split at each `\n`, a `\r` right before it removed, with no
/// empty line after a final `\n`.
pub open spec fn lines(s: Seq<char>) -> Seq<Seq<char>>
    decreases s.len(),
{
    if s.len() == 0 {
        Seq::empty()
    } else {
        match find(s, '\n') {
            Some(i) => {
                if 0 <= i < s.len() {
                    seq![strip_cr(s.take(i))] + lines(s.skip(i + 1))
                } else {
                    seq![s]
                }
            },
            None => seq![s],
        }
    }
}

/// Index one past the last non-whitespace character of `v[lo..hi]` (or `lo`).
pub fn trim_end_bound(v: &Vec<char>, lo: usize, hi: usize) -> (b: usize)
    requires
        lo <= hi <= v@.len(),
    ensures
        lo <= b <= hi,
        v@.subrange(lo as int, b as int) == trim_end(v@.subrange(lo as int, hi as int)),
{
    let mut b = hi;
    while b > lo && is_whitespace(v[b - 1])
        invariant
            lo <= b <= hi <= v@.len(),
            trim_end(v@.subrange(lo as int, hi as int)) == trim_end(v@.subrange(lo as int, b as int)),
        decreases b - lo,
    {
        assert(v@.subrange(lo as int, b as int).drop_last() =~= v@.subrange(lo as int, b - 1));
        b -= 1;
    }
    b
}

/// Whether `a` and `b` are the same text.
pub fn str_eq(a: &str, b: &str) -> (r: bool)
    ensures
        r == (a@ == b@),
{
    let va = chars_of(a);
    let vb = chars_of(b);
    assert(va@.subrange(0, va@.len() as int) =~= va@);
    range_eq(&va, 0, va.len(), &vb)
}

/// Whether `v[lo..hi]` begins with `p`.
pub fn range_starts_with(v: &Vec<char>, lo: usize, hi: usize, p: &Vec<char>) -> (r: bool)
    requires
        lo <= hi <= v@.len(),
    ensures
        r == starts_with(v@.subrange(lo as int, hi as int), p@),
{
    if p.len() > hi - lo {
        return false;
    }
    let r = range_eq(v, lo, lo + p.len(), p);
    assert(v@.subrange(lo as int, hi as int).take(p@.len() as int) =~= v@.subrange(
        lo as int,
        lo + p@.len(),
    ));
    r
}



/// The text of an optional string.
pub open spec fn opt_view(o: Option<String>) -> Option<Seq<char>> {
    match o {
        Some(s) => Some(s@),
        None => None,
    }
}

/// The texts of a sequence of strings.
pub open spec fn strs_view(v: Seq<String>) -> Seq<Seq<char>> {
    v.map_values(|s: String| s@)
}

pub proof fn lemma_trim_len(s: Seq<char>)
    ensures
        trim(s).len() <= s.len(),
        trim_start(s).len() <= s.len(),
{
    lemma_trim_start_shape(s);
    lemma_trim_end_empty(trim_start(s));
}

/// Copies of the strings `v[lo..hi]`.
pub fn clone_range(v: &Vec<String>, lo: usize, hi: usize) -> (res: Vec<String>)
    requires
        lo <= hi <= v@.len(),
    ensures
        strs_view(res@) == strs_view(v@.subrange(lo as int, hi as int)),
{
    let mut res: Vec<String> = Vec::new();
    let mut k: usize = lo;
    while k < hi
        invariant
            lo <= k <= hi <= v@.len(),
            strs_view(res@) == strs_view(v@.subrange(lo as int, k as int)),
        decreases hi - k,
    {
        res.push(v[k].clone());
        assert(strs_view(v@.subrange(lo as int, k + 1)) =~= strs_view(
            v@.subrange(lo as int, k as int),
        ).push(v@[k as int]@));
        assert(strs_view(res@) =~= strs_view(v@.subrange(lo as int, k as int)).push(v@[k as int]@));
        k += 1;
    }
    res
}

/// Index of the first non-whitespace character of `v[lo..hi]` (or `hi`).
pub fn trim_start_bound(v: &Vec<char>, lo: usize, hi: usize) -> (a: usize)
    requires
        lo <= hi <= v@.len(),
    ensures
        lo <= a <= hi,
        v@.subrange(a as int, hi as int) == trim_start(v@.subrange(lo as int, hi as int)),
        a < hi ==> !is_ws(v@[a as int]),
{
    let mut a = lo;
    while a < hi && is_whitespace(v[a])
        invariant
            lo <= a <= hi <= v@.len(),
            trim_start(v@.subrange(lo as int, hi as int)) == trim_start(v@.subrange(a as int, hi as int)),
        decreases hi - a,
    {
        assert(v@.subrange(a as int, hi as int).drop_first() =~= v@.subrange(a + 1, hi as int));
        a += 1;
    }
    proof {
        let t = v@.subrange(a as int, hi as int);
        if a < hi {
            assert(t[0] == v@[a as int]);
        }
    }
    a
}

/// The texts of a sequence of index ranges into `v`.
pub open spec fn ranges_view(v: Seq<char>, rs: Seq<(usize, usize)>) -> Seq<Seq<char>> {
    rs.map_values(|r: (usize, usize)| v.subrange(r.0 as int, r.1 as int))
}

/// The ranges of the whitespace-separated words of `v[lo..hi]`.
pub fn word_ranges(v: &Vec<char>, lo: usize, hi: usize) -> (rs: Vec<(usize, usize)>)
    requires
        lo <= hi <= v@.len(),
    ensures
        ranges_view(v@, rs@) == words(v@.subrange(lo as int, hi as int)),
        forall|k: int| 0 <= k < rs@.len() ==> lo <= #[trigger] rs@[k].0 <= rs@[k].1 <= hi,
{
    let mut rs: Vec<(usize, usize)> = Vec::new();
    let mut pos = lo;
    while pos < hi
        invariant
            lo <= pos <= hi <= v@.len(),
            words(v@.subrange(lo as int, hi as int)) == ranges_view(v@, rs@) + words(
                v@.subrange(pos as int, hi as int),
            ),
            forall|k: int| 0 <= k < rs@.len() ==> lo <= #[trigger] rs@[k].0 <= rs@[k].1 <= hi,
        decreases hi - pos,
    {
        let a = trim_start_bound(v, pos, hi);
        if a == hi {
            assert(words(v@.subrange(pos as int, hi as int)) =~= Seq::<Seq<char>>::empty());
            pos = hi;
        } else {
            let ghost s = v@.subrange(pos as int, hi as int);
            let ghost t = v@.subrange(a as int, hi as int);
            assert(t[0] == v@[a as int]);
            match find_whitespace(v, a, hi) {
                Some(i) => {
                    proof {
                        assert(t.take(i - a) =~= v@.subrange(a as int, i as int));
                        assert(t.skip(i - a) =~= v@.subrange(i as int, hi as int));
                        assert(first_ws_at(t, i - a));
                        assert(i > a) by {
                            if i == a {
                                assert(is_ws(t[0]));
                            }
                        }
                        assert(words(s) == seq![v@.subrange(a as int, i as int)] + words(
                            v@.subrange(i as int, hi as int),
                        ));
                    }
                    let ghost prev = rs@;
                    rs.push((a, i));
                    proof {
                        assert(ranges_view(v@, rs@) =~= ranges_view(v@, prev).push(
                            v@.subrange(a as int, i as int),
                        ));
                        assert(words(v@.subrange(lo as int, hi as int)) =~= ranges_view(v@, rs@)
                            + words(v@.subrange(i as int, hi as int)));
                    }
                    pos = i;
                },
                None => {
                    let ghost prev = rs@;
                    rs.push((a, hi));
                    proof {
                        assert(words(s) == seq![t]);
                        assert(ranges_view(v@, rs@) =~= ranges_view(v@, prev).push(t));
                        assert(words(v@.subrange(hi as int, hi as int)) =~= Seq::<
                            Seq<char>,
                        >::empty());
                        assert(words(v@.subrange(lo as int, hi as int)) =~= ranges_view(v@, rs@)
                            + words(v@.subrange(hi as int, hi as int)));
                    }
                    pos = hi;
                },
            }
        }
    }
    assert(words(v@.subrange(hi as int, hi as int)) =~= Seq::<Seq<char>>::empty());
    rs
}



// ---------------------------------------------------------------------------
// Decimal numbers
// ---------------------------------------------------------------------------

pub open spec fn is_digit(c: char) -> bool {
    '0' <= c && c <= '9'
}

/// The value of a run of decimal digits.
pub open spec fn digits_value(s: Seq<char>) -> nat
    decreases s.len(),
{
    if s.len() == 0 {
        0
    } else {
        digits_value(s.drop_last()) * 10 + ((s.last() as nat) - ('0' as nat)) as nat
    }
}

/// `str::parse` of an unsigned integer, before the range check: an optional `+`, then
/// one or more decimal digits.
pub open spec fn unsigned_value(s: Seq<char>) -> Option<nat> {
    let d = unsigned_digits(s);
    if d.len() > 0 && all_digits(d) {
        Some(digits_value(d))
    } else {
        None
    }
}

/// The text after an optional leading `+`.
pub open spec fn unsigned_digits(s: Seq<char>) -> Seq<char> {
    if s.len() > 0 && s[0] == '+' {
        s.drop_first()
    } else {
        s
    }
}

pub open spec fn all_digits(d: Seq<char>) -> bool {
    forall|i: int| 0 <= i < d.len() ==> is_digit(#[trigger] d[i])
}

/// `str::parse::<u64>`.
pub open spec fn parse_u64_spec(s: Seq<char>) -> Option<u64> {
    match unsigned_value(s) {
        Some(n) => if n <= u64::MAX {
            Some(n as u64)
        } else {
            None
        },
        None => None,
    }
}

/// `str::parse::<u32>`.
pub open spec fn parse_u32_spec(s: Seq<char>) -> Option<u32> {
    match unsigned_value(s) {
        Some(n) => if n <= u32::MAX {
            Some(n as u32)
        } else {
            None
        },
        None => None,
    }
}

/// The decimal digit of a value below 10.
pub open spec fn digit_char(d: nat) -> char {
    (48 + d) as char
}

/// The decimal text of a natural number, without leading zeros.
pub open spec fn decimal(n: nat) -> Seq<char>
    decreases n,
{
    if n < 10 {
        seq![digit_char(n)]
    } else {
        decimal(n / 10).push(digit_char(n % 10))
    }
}

/// `s` extended with the decimal text of `n`.
fn push_decimal(s: &mut String, n: u128)
    ensures
        final(s)@ == old(s)@ + decimal(n as nat),
    decreases n,
{
    if n >= 10 {
        push_decimal(s, n / 10);
    }
    let d: u128 = n % 10;
    let c = char_from_ascii(48u32 + (d as u32));
    push_char(s, c);
    proof {
        if n >= 10 {
            assert(old(s)@ + decimal(n as nat) =~= old(s)@ + decimal((n / 10) as nat) + seq![c]);
        } else {
            assert(old(s)@ + decimal(n as nat) =~= old(s)@ + seq![c]);
        }
    }
}

/// The decimal text of `n`, as `format!("{}", n)` writes it.
pub fn decimal_string(n: u128) -> (s: String)
    ensures
        s@ == decimal(n as nat),
{
    let mut s = String::new();
    push_decimal(&mut s, n);
    assert(Seq::<char>::empty() + decimal(n as nat) =~= decimal(n as nat));
    s
}

proof fn lemma_digits_value_prefix(s: Seq<char>, k: int)
    requires
        0 <= k <= s.len(),
        forall|i: int| 0 <= i < s.len() ==> is_digit(#[trigger] s[i]),
    ensures
        digits_value(s.take(k)) <= digits_value(s),
    decreases s.len(),
{
    if k < s.len() {
        let p = s.drop_last();
        assert forall|i: int| 0 <= i < p.len() implies is_digit(#[trigger] p[i]) by {
            assert(p[i] == s[i]);
        }
        lemma_digits_value_prefix(p, k);
        assert(p.take(k) =~= s.take(k));
    } else {
        assert(s.take(k) =~= s);
    }
}

/// Decimal `u64` parsing as `str::parse::<u64>` does it.
pub fn parse_u64(s: &str) -> (r: Option<u64>)
    ensures
        r == parse_u64_spec(s@),
{
    let v = chars_of(s);
    let n = v.len();
    let start: usize = if n > 0 && v[0] == '+' {
        1
    } else {
        0
    };
    let ghost d = unsigned_digits(s@);
    assert(d =~= v@.subrange(start as int, n as int));
    if start == n {
        return None;
    }
    let mut acc: u64 = 0;
    let mut k = start;
    while k < n
        invariant
            start <= k <= n == v@.len(),
            d == v@.subrange(start as int, n as int),
            d == unsigned_digits(s@),
            forall|i: int| 0 <= i < k - start ==> is_digit(#[trigger] d[i]),
            acc as nat == digits_value(d.take(k - start)),
        decreases n - k,
    {
        let c = v[k];
        if !('0' <= c && c <= '9') {
            assert(d[k - start] == v@[k as int]);
            assert(!is_digit(d[k - start]));
            assert(!all_digits(d));
            return None;
        }
        let digit: u64 = (c as u32 - '0' as u32) as u64;
        proof {
            assert(d.take(k - start + 1).drop_last() =~= d.take(k - start));
            assert(d.take(k - start + 1).last() == c);
        }
        let next = match acc.checked_mul(10) {
            Some(m) => m.checked_add(digit),
            None => None,
        };
        match next {
            Some(x) => {
                acc = x;
            },
            None => {
                proof {
                    let p = d.take(k - start + 1);
                    assert(digits_value(p) > u64::MAX);
                    if all_digits(d) {
                        lemma_digits_value_prefix(d, k - start + 1);
                        assert(digits_value(d) > u64::MAX);
                    }
                    assert(parse_u64_spec(s@) is None);
                }
                return None;
            },
        }
        k += 1;
    }
    assert(d.take(n - start) =~= d);
    Some(acc)
}

/// Decimal `u32` parsing as `str::parse::<u32>` does it.
pub fn parse_u32(s: &str) -> (r: Option<u32>)
    ensures
        r == parse_u32_spec(s@),
{
    match parse_u64(s) {
        Some(x) => if x <= u32::MAX as u64 {
            Some(x as u32)
        } else {
            None
        },
        None => None,
    }
}


/// The ranges of the pieces of `v[lo..hi]` between occurrences of `c`.
pub fn split_ranges(v: &Vec<char>, lo: usize, hi: usize, c: char) -> (rs: Vec<(usize, usize)>)
    requires
        lo <= hi <= v@.len(),
    ensures
        ranges_view(v@, rs@) == split_char(v@.subrange(lo as int, hi as int), c),
        forall|k: int| 0 <= k < rs@.len() ==> lo <= #[trigger] rs@[k].0 <= rs@[k].1 <= hi,
{
    let mut rs: Vec<(usize, usize)> = Vec::new();
    let mut pos = lo;
    let mut done = false;
    while !done
        invariant
            lo <= pos <= hi <= v@.len(),
            !done ==> split_char(v@.subrange(lo as int, hi as int), c) == ranges_view(v@, rs@)
                + split_char(v@.subrange(pos as int, hi as int), c),
            done ==> split_char(v@.subrange(lo as int, hi as int), c) == ranges_view(v@, rs@),
            forall|k: int| 0 <= k < rs@.len() ==> lo <= #[trigger] rs@[k].0 <= rs@[k].1 <= hi,
        decreases hi - pos + if done {
            0int
        } else {
            1
        },
    {
        let ghost s = v@.subrange(pos as int, hi as int);
        let ghost prev = rs@;
        match find_char(v, pos, hi, c) {
            Some(i) => {
                rs.push((pos, i));
                proof {
                    assert forall|k: int| 0 <= k < rs@.len() implies lo <= #[trigger] rs@[k].0 <= rs@[k].1 <= hi by {
                        if k < prev.len() {
                            assert(rs@[k] == prev[k]);
                        }
                    }
                    assert(s.take(i - pos) =~= v@.subrange(pos as int, i as int));
                    assert(s.skip(i - pos + 1) =~= v@.subrange(i + 1, hi as int));
                    assert(ranges_view(v@, rs@) =~= ranges_view(v@, prev).push(
                        v@.subrange(pos as int, i as int),
                    ));
                    assert(split_char(v@.subrange(lo as int, hi as int), c) =~= ranges_view(v@, rs@)
                        + split_char(v@.subrange(i + 1, hi as int), c));
                }
                pos = i + 1;
            },
            None => {
                rs.push((pos, hi));
                proof {
                    assert forall|k: int| 0 <= k < rs@.len() implies lo <= #[trigger] rs@[k].0 <= rs@[k].1 <= hi by {
                        if k < prev.len() {
                            assert(rs@[k] == prev[k]);
                        }
                    }
                    assert(ranges_view(v@, rs@) =~= ranges_view(v@, prev).push(s));
                    assert(split_char(s, c) == seq![s]);
                    assert(split_char(v@.subrange(lo as int, hi as int), c) =~= ranges_view(v@, rs@));
                }
                done = true;
            },
        }
    }
    rs
}

} // verus!
