//! The text format of `scontrol show ...`: records separated by blank lines, each a run of
//! `Key=Value` fields. A key is a run of `[A-Za-z0-9_/\-:.]` that starts the record or
//! follows a whitespace character and is followed by `=`; its value runs up to the next key.
use crate::text::{
    chars_of, concat, eq_ignore_case, is_whitespace, is_ws, range_eq, str_eq, str_eq_ignore_case,
    strs_view, string_of, trim, trim_bounds,
};
use vstd::prelude::*;

verus! {

/// A record-level error; it becomes the library's `Error::SlurmParse`.
#[derive(Debug, PartialEq, Eq)]
pub struct Error {
    message: String,
}

impl View for Error {
    type V = Seq<char>;

    closed spec fn view(&self) -> Seq<char> {
        self.message@
    }
}

impl Error {
    pub fn custom(message: String) -> (e: Self)
        ensures
            e@ == message@,
    {
        Error { message }
    }

    /// The error's text.
    pub fn message(&self) -> (m: String)
        ensures
            m@ == self@,
    {
        self.message.clone()
    }
}

// ---------------------------------------------------------------------------
// Records
// ---------------------------------------------------------------------------

/// `i` is the first position of a `\n\n` in `s`.
pub open spec fn blank_line_at(s: Seq<char>, i: int) -> bool {
    &&& 0 <= i && i + 1 < s.len()
    &&& s[i] == '\n' && s[i + 1] == '\n'
    &&& forall|j: int| 0 <= j < i ==> !(#[trigger] s[j] == '\n' && s[j + 1] == '\n')
}

/// `str::split("\n\n")`.
pub open spec fn split_blank_lines(s: Seq<char>) -> Seq<Seq<char>>
    decreases s.len(),
{
    if exists|i: int| blank_line_at(s, i) {
        let i = choose|i: int| blank_line_at(s, i);
        seq![s.take(i)] + split_blank_lines(s.skip(i + 2))
    } else {
        seq![s]
    }
}

/// The trimmed pieces that are not empty.
pub open spec fn nonempty_trimmed(pieces: Seq<Seq<char>>) -> Seq<Seq<char>>
    decreases pieces.len(),
{
    if pieces.len() == 0 {
        Seq::empty()
    } else {
        let rest = nonempty_trimmed(pieces.drop_last());
        if trim(pieces.last()).len() > 0 {
            rest.push(trim(pieces.last()))
        } else {
            rest
        }
    }
}

/// The records of `scontrol` output: the trimmed, non-empty pieces between blank lines.
pub open spec fn records_spec(s: Seq<char>) -> Seq<Seq<char>> {
    nonempty_trimmed(split_blank_lines(s))
}

/// `nonempty_trimmed` of a concatenation is the concatenation of its results.
proof fn lemma_nonempty_trimmed_concat(x: Seq<Seq<char>>, y: Seq<Seq<char>>)
    ensures
        nonempty_trimmed(x + y) == nonempty_trimmed(x) + nonempty_trimmed(y),
    decreases y.len(),
{
    if y.len() == 0 {
        assert(x + y =~= x);
        assert(nonempty_trimmed(x) + nonempty_trimmed(y) =~= nonempty_trimmed(x));
    } else {
        lemma_nonempty_trimmed_concat(x, y.drop_last());
        assert((x + y).drop_last() =~= x + y.drop_last());
        assert((x + y).last() == y.last());
        let r = nonempty_trimmed(x) + nonempty_trimmed(y.drop_last());
        if trim(y.last()).len() > 0 {
            assert(r.push(trim(y.last())) =~= nonempty_trimmed(x) + nonempty_trimmed(y.drop_last()).push(
                trim(y.last()),
            ));
        }
    }
}

/// Text with no blank line makes at most one record: itself, trimmed.
proof fn lemma_split_no_blank(a: Seq<char>)
    requires
        forall|j: int| 0 <= j && j + 1 < a.len() ==> !(#[trigger] a[j] == '\n' && a[j + 1] == '\n'),
    ensures
        split_blank_lines(a) == seq![a],
{
    assert(!exists|i: int| blank_line_at(a, i));
}

/// Every character of a piece between blank lines is a character of the text.
proof fn lemma_split_pieces_from(s: Seq<char>)
    ensures
        forall|q: int, k: int|
            0 <= q < split_blank_lines(s).len() && 0 <= k < split_blank_lines(s)[q].len() ==> s.contains(
                #[trigger] split_blank_lines(s)[q][k],
            ),
    decreases s.len(),
{
    if exists|i: int| blank_line_at(s, i) {
        let i = choose|i: int| blank_line_at(s, i);
        let rest = s.skip(i + 2);
        lemma_split_pieces_from(rest);
        assert(split_blank_lines(s) == seq![s.take(i)] + split_blank_lines(rest));
        assert forall|q: int, k: int|
            0 <= q < split_blank_lines(s).len() && 0 <= k < split_blank_lines(s)[q].len() implies s.contains(
                #[trigger] split_blank_lines(s)[q][k],
            ) by {
            if q == 0 {
                assert(s[k] == split_blank_lines(s)[0][k]);
            } else {
                let rp = split_blank_lines(rest);
                assert(split_blank_lines(s)[q] == rp[q - 1]);
                assert(rest.contains(rp[q - 1][k]));
                let j = choose|j: int| 0 <= j < rest.len() && rest[j] == rp[q - 1][k];
                assert(s[j + i + 2] == rest[j]);
            }
        }
    } else {
        assert(split_blank_lines(s) == seq![s]);
        assert forall|q: int, k: int|
            0 <= q < split_blank_lines(s).len() && 0 <= k < split_blank_lines(s)[q].len() implies s.contains(
                #[trigger] split_blank_lines(s)[q][k],
            ) by {
            assert(s[k] == split_blank_lines(s)[0][k]);
        }
    }
}

/// Pieces that are all whitespace leave no records.
proof fn lemma_nonempty_trimmed_blank(pieces: Seq<Seq<char>>)
    requires
        forall|q: int, k: int| 0 <= q < pieces.len() && 0 <= k < pieces[q].len() ==> is_ws(#[trigger] pieces[q][k]),
    ensures
        nonempty_trimmed(pieces).len() == 0,
    decreases pieces.len(),
{
    if pieces.len() > 0 {
        let last = pieces.last();
        assert forall|k: int| 0 <= k < last.len() implies is_ws(last[k]) by {
            assert(last[k] == pieces[pieces.len() - 1][k]);
        }
        crate::text::lemma_trim_start_all_ws(last);
        assert forall|q: int, k: int|
            0 <= q < pieces.drop_last().len() && 0 <= k < pieces.drop_last()[q].len() implies is_ws(
                #[trigger] pieces.drop_last()[q][k],
            ) by {
            assert(pieces.drop_last()[q] == pieces[q]);
        }
        lemma_nonempty_trimmed_blank(pieces.drop_last());
    }
}

/// Blank text has no records.
pub proof fn lemma_blank_no_records(s: Seq<char>)
    requires
        crate::text::is_blank(s),
    ensures
        records_spec(s).len() == 0,
{
    let t = crate::text::trim_start(s);
    crate::text::lemma_trim_start_shape(s);
    if t.len() > 0 {
        assert(!is_ws(t[0]));
        crate::text::lemma_trim_end_nonempty(t);
    }
    crate::text::lemma_trim_start_all_ws(s);
    lemma_split_pieces_from(s);
    let sp = split_blank_lines(s);
    assert forall|q: int, k: int| 0 <= q < sp.len() && 0 <= k < sp[q].len() implies is_ws(#[trigger] sp[q][k]) by {
        assert(s.contains(sp[q][k]));
        let j = choose|j: int| 0 <= j < s.len() && s[j] == sp[q][k];
    }
    lemma_nonempty_trimmed_blank(sp);
}

/// Two texts joined by a blank line give the records of the first followed by those of the
/// second, when the first has no blank line and does not end in a newline.
pub proof fn law_records_join(a: Seq<char>, b: Seq<char>)
    requires
        forall|j: int| 0 <= j && j + 1 < a.len() ==> !(#[trigger] a[j] == '\n' && a[j + 1] == '\n'),
        a.len() > 0 ==> a.last() != '\n',
    ensures
        records_spec(a + "\n\n"@ + b) == records_spec(a) + records_spec(b),
{
    reveal_strlit("\n\n");
    let s = a + "\n\n"@ + b;
    let n = a.len() as int;
    assert(s[n] == '\n' && s[n + 1] == '\n');
    assert forall|j: int| 0 <= j < n implies !(#[trigger] s[j] == '\n' && s[j + 1] == '\n') by {
        if j + 1 < n {
            assert(s[j] == a[j] && s[j + 1] == a[j + 1]);
        } else {
            assert(s[j] == a.last());
        }
    }
    assert(blank_line_at(s, n));
    let i = choose|i: int| blank_line_at(s, i);
    assert(i == n) by {
        if i < n {
            assert(s[i] == '\n' && s[i + 1] == '\n');
        } else if i > n {
            assert(!(s[n] == '\n' && s[n + 1] == '\n'));
        }
    }
    assert(s.take(n) =~= a);
    assert(s.skip(n + 2) =~= b);
    assert(split_blank_lines(s) == seq![a] + split_blank_lines(b));
    lemma_split_no_blank(a);
    lemma_nonempty_trimmed_concat(seq![a], split_blank_lines(b));
}

/// The first `\n\n` in `v[lo..hi]`.
fn find_blank_line(v: &Vec<char>, lo: usize, hi: usize) -> (r: Option<usize>)
    requires
        lo <= hi <= v@.len(),
    ensures
        match r {
            Some(i) => lo <= i && i + 1 < hi && blank_line_at(v@.subrange(lo as int, hi as int), i - lo),
            None => !exists|i: int| blank_line_at(v@.subrange(lo as int, hi as int), i),
        },
{
    let ghost s = v@.subrange(lo as int, hi as int);
    let mut k = lo;
    while hi - k >= 2
        invariant
            lo <= k <= hi <= v@.len(),
            s == v@.subrange(lo as int, hi as int),
            forall|j: int| 0 <= j < k - lo ==> !(#[trigger] s[j] == '\n' && s[j + 1] == '\n'),
        decreases hi - k,
    {
        if v[k] == '\n' && v[k + 1] == '\n' {
            assert(s[k - lo] == v@[k as int] && s[k - lo + 1] == v@[k + 1]);
            return Some(k);
        }
        assert(s[k - lo] == v@[k as int] && s[k - lo + 1] == v@[k + 1]);
        k += 1;
    }
    None
}

/// The records of `scontrol` output, trimmed, blank ones left out.
pub fn split_records(input: &str) -> (r: Vec<String>)
    ensures
        strs_view(r@) == records_spec(input@),
        forall|i: int| 0 <= i < r@.len() ==> trim(#[trigger] r@[i]@) == r@[i]@ && r@[i]@.len() > 0,
{
    let v = chars_of(input);
    let n = v.len();
    let mut out: Vec<String> = Vec::new();
    let mut pos: usize = 0;
    let mut done = false;
    let ghost mut pieces: Seq<Seq<char>> = Seq::empty();
    assert(v@.subrange(0, n as int) =~= v@);
    while !done
        invariant
            pos <= n == v@.len(),
            v@ == input@,
            !done ==> split_blank_lines(input@) == pieces + split_blank_lines(
                v@.subrange(pos as int, n as int),
            ),
            done ==> split_blank_lines(input@) == pieces,
            strs_view(out@) == nonempty_trimmed(pieces),
            forall|i: int| 0 <= i < out@.len() ==> trim(#[trigger] out@[i]@) == out@[i]@
                && out@[i]@.len() > 0,
        decreases n - pos + if done {
            0int
        } else {
            1
        },
    {
        let ghost s = v@.subrange(pos as int, n as int);
        let (end, next) = match find_blank_line(&v, pos, n) {
            Some(i) => (i, i + 2),
            None => (n, n),
        };
        let ghost piece = v@.subrange(pos as int, end as int);
        proof {
            if next < n || end < n {
                let i = (end - pos) as int;
                assert(s.take(i) =~= piece);
                assert(s.skip(i + 2) =~= v@.subrange(next as int, n as int));
            } else {
                assert(s =~= piece);
            }
        }
        let (a, b) = trim_bounds(&v, pos, end);
        let ghost prev = out@;
        if a < b {
            out.push(string_of(&v, a, b));
            proof {
                crate::text::lemma_trim_idempotent(piece);
                assert(strs_view(out@) =~= strs_view(prev).push(trim(piece)));
            }
        }
        proof {
            let np = pieces.push(piece);
            assert(np.drop_last() =~= pieces);
            pieces = np;
        }
        if end == n {
            done = true;
        } else {
            pos = next;
        }
    }
    out
}

// ---------------------------------------------------------------------------
// Fields
// ---------------------------------------------------------------------------

/// A character that may appear in a key: `[A-Za-z0-9_/\-:.]`.
pub open spec fn is_key_char(c: char) -> bool {
    ||| ('a' <= c && c <= 'z')
    ||| ('A' <= c && c <= 'Z')
    ||| ('0' <= c && c <= '9')
    ||| c == '_'
    ||| c == '/'
    ||| c == '-'
    ||| c == ':'
    ||| c == '.'
}

fn key_char(c: char) -> (r: bool)
    ensures
        r == is_key_char(c),
{
    ('a' <= c && c <= 'z') || ('A' <= c && c <= 'Z') || ('0' <= c && c <= '9') || c == '_' || c
        == '/' || c == '-' || c == ':' || c == '.'
}

/// The end of the run of key characters that starts at `a`.
pub open spec fn key_run_end(s: Seq<char>, a: int) -> int
    decreases s.len() - a,
{
    if 0 <= a < s.len() && is_key_char(s[a]) {
        key_run_end(s, a + 1)
    } else {
        a
    }
}

/// A key starting at `a`: the end of the key, which an `=` follows.
pub open spec fn key_at(s: Seq<char>, a: int) -> Option<int> {
    let b = key_run_end(s, a);
    if a < b && b < s.len() && s[b] == '=' {
        Some(b)
    } else {
        None
    }
}

/// A field header `(?:^|\s)KEY=` that starts at `p`: the key's bounds and the header's end.
pub open spec fn header_at(s: Seq<char>, p: int) -> Option<(int, int, int)> {
    if p == 0 && key_at(s, 0) is Some {
        Some((0, key_at(s, 0)->0, key_at(s, 0)->0 + 1))
    } else if 0 <= p < s.len() && is_ws(s[p]) && key_at(s, p + 1) is Some {
        Some((p + 1, key_at(s, p + 1)->0, key_at(s, p + 1)->0 + 1))
    } else {
        None
    }
}

/// The field headers from `pos` on, leftmost first and not overlapping:
/// `(start, key start, key end, header end)`.
pub open spec fn headers_from(s: Seq<char>, pos: int) -> Seq<(int, int, int, int)>
    decreases s.len() - pos,
{
    if pos < 0 || pos >= s.len() {
        Seq::empty()
    } else {
        match header_at(s, pos) {
            Some((ka, kb, e)) => {
                if e > pos {
                    seq![(pos, ka, kb, e)] + headers_from(s, e)
                } else {
                    Seq::empty()
                }
            },
            None => headers_from(s, pos + 1),
        }
    }
}

/// The `(key, value)` pairs of a record in order: each value is the trimmed text between
/// its header and the next header (or the record's end).
pub open spec fn raw_fields(s: Seq<char>) -> Seq<(Seq<char>, Seq<char>)> {
    let hs = headers_from(s, 0);
    Seq::new(
        hs.len(),
        |i: int|
            (
                s.subrange(hs[i].1, hs[i].2),
                trim(
                    s.subrange(
                        hs[i].3,
                        if i + 1 < hs.len() {
                            hs[i + 1].0
                        } else {
                            s.len() as int
                        },
                    ),
                ),
            ),
    )
}

/// Values that stand for "no value": empty, `(null)`, `None` and `N/A`.
pub open spec fn skipped_value(v: Seq<char>) -> bool {
    v.len() == 0 || v == "(null)"@ || v == "None"@ || v == "N/A"@
}

/// The kept values of `key` among `fields`, in order.
pub open spec fn values_for(fields: Seq<(Seq<char>, Seq<char>)>, key: Seq<char>) -> Seq<Seq<char>>
    decreases fields.len(),
{
    if fields.len() == 0 {
        Seq::empty()
    } else {
        let rest = values_for(fields.drop_last(), key);
        if fields.last().0 == key && !skipped_value(fields.last().1) {
            rest.push(fields.last().1)
        } else {
            rest
        }
    }
}

/// A record as a map from each key to its kept values, in order.
pub open spec fn record_spec(s: Seq<char>) -> Map<Seq<char>, Seq<Seq<char>>> {
    Map::new(
        |k: Seq<char>| values_for(raw_fields(s), k).len() > 0,
        |k: Seq<char>| values_for(raw_fields(s), k),
    )
}

/// The run of key characters from `a` ends at `n`, where a character that is not one stands.
proof fn lemma_key_run(s: Seq<char>, a: int, n: int)
    requires
        0 <= a <= n < s.len(),
        forall|i: int| a <= i < n ==> is_key_char(#[trigger] s[i]),
        !is_key_char(s[n]),
    ensures
        key_run_end(s, a) == n,
    decreases n - a,
{
    if a < n {
        lemma_key_run(s, a + 1, n);
    }
}

/// No header starts inside a stretch without whitespace that does not begin the record.
proof fn lemma_no_headers(s: Seq<char>, pos: int, end: int)
    requires
        0 < pos <= end <= s.len(),
        forall|i: int| pos <= i < end ==> !is_ws(#[trigger] s[i]),
    ensures
        headers_from(s, pos) == headers_from(s, end),
    decreases end - pos,
{
    if pos < end {
        assert(header_at(s, pos) is None);
        lemma_no_headers(s, pos + 1, end);
    }
}

/// Text that has no whitespace is its own trim.
proof fn lemma_trim_no_ws(v: Seq<char>)
    requires
        v.len() > 0,
        forall|i: int| 0 <= i < v.len() ==> !is_ws(#[trigger] v[i]),
    ensures
        trim(v) == v,
{
    assert(!is_ws(v[0]));
    assert(crate::text::trim_start(v) == v);
    assert(!is_ws(v.last()));
}

/// A record of two fields `K1=V1 K2=V2`, whose values have no whitespace and stand for a
/// value, maps each key to its value; when both keys are the same, the key maps to both
/// values in order. A value may itself hold `=` (as in `ReqTRES=cpu=2,mem=8G`).
#[verifier::rlimit(30)]
pub proof fn law_record_two_fields(k1: Seq<char>, v1: Seq<char>, k2: Seq<char>, v2: Seq<char>)
    requires
        k1.len() > 0,
        k2.len() > 0,
        forall|i: int| 0 <= i < k1.len() ==> is_key_char(#[trigger] k1[i]),
        forall|i: int| 0 <= i < k2.len() ==> is_key_char(#[trigger] k2[i]),
        forall|i: int| 0 <= i < v1.len() ==> !is_ws(#[trigger] v1[i]),
        forall|i: int| 0 <= i < v2.len() ==> !is_ws(#[trigger] v2[i]),
        !skipped_value(v1),
        !skipped_value(v2),
    ensures
        record_spec(k1 + "="@ + v1 + " "@ + k2 + "="@ + v2) == (if k1 == k2 {
            map![k1 => seq![v1, v2]]
        } else {
            map![k1 => seq![v1], k2 => seq![v2]]
        }),
{
    reveal_strlit("=");
    reveal_strlit(" ");
    let s = k1 + "="@ + v1 + " "@ + k2 + "="@ + v2;
    let n1 = k1.len() as int;
    let p = n1 + 1 + v1.len();
    let q = p + 1 + k2.len();
    let len = s.len() as int;
    assert(len == q + 1 + v2.len());
    assert(s.subrange(0, n1) =~= k1);
    assert(s.subrange(n1 + 1, p) =~= v1);
    assert(s.subrange(p + 1, q) =~= k2);
    assert(s.subrange(q + 1, len) =~= v2);
    assert(s[n1] == '=' && s[p] == ' ' && s[q] == '=');
    assert forall|i: int| 0 <= i < n1 implies is_key_char(#[trigger] s[i]) by {
        assert(s[i] == k1[i]);
    }
    assert forall|i: int| p + 1 <= i < q implies is_key_char(#[trigger] s[i]) by {
        assert(s[i] == k2[i - p - 1]);
    }
    assert forall|i: int| n1 + 1 <= i < p implies !is_ws(#[trigger] s[i]) by {
        assert(s[i] == v1[i - n1 - 1]);
    }
    assert forall|i: int| q + 1 <= i < len implies !is_ws(#[trigger] s[i]) by {
        assert(s[i] == v2[i - q - 1]);
    }
    lemma_key_run(s, 0, n1);
    lemma_key_run(s, p + 1, q);
    lemma_no_headers(s, n1 + 1, p);
    lemma_no_headers(s, q + 1, len);
    assert(headers_from(s, len) =~= Seq::<(int, int, int, int)>::empty());
    assert(header_at(s, p) == Some((p + 1, q, q + 1)));
    assert(headers_from(s, p) =~= seq![(p, p + 1, q, q + 1)]);
    assert(header_at(s, 0) == Some((0int, n1, n1 + 1)));
    let hs = headers_from(s, 0);
    assert(hs =~= seq![(0int, 0int, n1, n1 + 1), (p, p + 1, q, q + 1)]);
    lemma_trim_no_ws(v1);
    lemma_trim_no_ws(v2);
    let f = raw_fields(s);
    assert(f =~= seq![(k1, v1), (k2, v2)]);
    let g = f.drop_last();
    assert(g =~= seq![(k1, v1)]);
    assert(g.drop_last() =~= Seq::<(Seq<char>, Seq<char>)>::empty());
    assert(f.last() == (k2, v2));
    assert(g.last() == (k1, v1));
    assert forall|k: Seq<char>| #[trigger] values_for(g, k) == (if k == k1 {
        seq![v1]
    } else {
        Seq::<Seq<char>>::empty()
    }) by {
        assert(values_for(g.drop_last(), k) =~= Seq::<Seq<char>>::empty());
        assert(Seq::<Seq<char>>::empty().push(v1) =~= seq![v1]);
    }
    assert forall|k: Seq<char>| #[trigger] values_for(f, k) == (if k == k2 {
        values_for(g, k).push(v2)
    } else {
        values_for(g, k)
    }) by {}
    if k1 == k2 {
        assert(seq![v1].push(v2) =~= seq![v1, v2]);
        assert(record_spec(s) =~= map![k1 => seq![v1, v2]]);
    } else {
        assert(Seq::<Seq<char>>::empty().push(v2) =~= seq![v2]);
        assert(record_spec(s) =~= map![k1 => seq![v1], k2 => seq![v2]]);
    }
}

/// The value of a field: one text, or the texts of a key that occurs more than once.
#[derive(Debug, PartialEq, Eq)]
pub enum SlurmValue {
    Single(String),
    Repeated(Vec<String>),
}

impl View for SlurmValue {
    type V = Seq<Seq<char>>;

    open spec fn view(&self) -> Seq<Seq<char>> {
        match self {
            SlurmValue::Single(s) => seq![s@],
            SlurmValue::Repeated(v) => strs_view(v@),
        }
    }
}

impl SlurmValue {
    /// A key's values: `Single` for one, `Repeated` for more.
    pub open spec fn wf(&self) -> bool {
        match self {
            SlurmValue::Single(_) => true,
            SlurmValue::Repeated(v) => v@.len() >= 2,
        }
    }
}

/// A field read as a boolean: `1` or `true` (in any case) is true, `0` or `false` is false;
/// other text, and a field given more than once, is an error.
pub open spec fn bool_value_spec(v: SlurmValue) -> core::result::Result<bool, Seq<char>> {
    match v {
        SlurmValue::Single(s) => if s@ == "1"@ || eq_ignore_case(s@, "true"@) {
            Ok(true)
        } else if s@ == "0"@ || eq_ignore_case(s@, "false"@) {
            Ok(false)
        } else {
            Err("expected bool, got "@ + s@)
        },
        SlurmValue::Repeated(_) => Err("invalid type: sequence, expected a boolean"@),
    }
}

impl SlurmValue {
    /// The field read as a boolean.
    pub fn to_bool(&self) -> (r: core::result::Result<bool, Error>)
        ensures
            match r {
                Ok(b) => bool_value_spec(*self) == Ok::<bool, Seq<char>>(b),
                Err(e) => bool_value_spec(*self) == Err::<bool, Seq<char>>(e@),
            },
    {
        match self {
            SlurmValue::Single(s) => {
                let t = s.as_str();
                if str_eq(t, "1") || str_eq_ignore_case(t, "true") {
                    Ok(true)
                } else if str_eq(t, "0") || str_eq_ignore_case(t, "false") {
                    Ok(false)
                } else {
                    Err(Error::custom(concat("expected bool, got ", t)))
                }
            },
            SlurmValue::Repeated(_) => Err(
                Error::custom(String::from_str("invalid type: sequence, expected a boolean")),
            ),
        }
    }
}

/// One record: its keys, each once, with their values.
#[derive(Debug)]
pub struct SlurmRecord {
    items: Vec<(String, SlurmValue)>,
}

impl SlurmRecord {
    #[verifier::type_invariant]
    spec fn distinct_keys(self) -> bool {
        &&& forall|i: int, j: int|
            0 <= i < j < self.items@.len() ==> (#[trigger] self.items@[i]).0@ != (
            #[trigger] self.items@[j]).0@
        &&& forall|i: int| 0 <= i < self.items@.len() ==> (#[trigger] self.items@[i]).1.wf()
    }
}

impl View for SlurmRecord {
    type V = Map<Seq<char>, Seq<Seq<char>>>;

    closed spec fn view(&self) -> Map<Seq<char>, Seq<Seq<char>>> {
        Map::new(
            |k: Seq<char>| exists|i: int| 0 <= i < self.items@.len() && (#[trigger] self.items@[i]).0@ == k,
            |k: Seq<char>|
                {
                    let i = choose|i: int|
                        0 <= i < self.items@.len() && (#[trigger] self.items@[i]).0@ == k;
                    self.items@[i].1@
                },
        )
    }
}


// ---------------------------------------------------------------------------
// Field scanning
// ---------------------------------------------------------------------------

/// The end of the key that starts at `a`, when an `=` follows it.
fn key_at_exec(v: &Vec<char>, a: usize) -> (r: Option<usize>)
    requires
        a <= v@.len(),
    ensures
        match r {
            Some(b) => key_at(v@, a as int) == Some(b as int),
            None => key_at(v@, a as int) is None,
        },
        r matches Some(b) ==> a < b < v@.len(),
{
    let n = v.len();
    assert(n == v@.len());
    let mut b = a;
    while b < n && key_char(v[b])
        invariant
            a <= b <= n == v@.len(),
            key_run_end(v@, a as int) == key_run_end(v@, b as int),
        decreases n - b,
    {
        b += 1;
    }
    if a < b && b < n && v[b] == '=' {
        Some(b)
    } else {
        None
    }
}

/// The field header that starts at `p`, if any.
fn header_at_exec(v: &Vec<char>, p: usize) -> (r: Option<(usize, usize, usize)>)
    requires
        p < v@.len(),
    ensures
        match r {
            Some(h) => header_at(v@, p as int) == Some((h.0 as int, h.1 as int, h.2 as int)),
            None => header_at(v@, p as int) is None,
        },
        r matches Some(h) ==> p <= h.0 < h.1 < h.2 <= v@.len() && h.2 == h.1 + 1,
{
    let n = v.len();
    if p == 0 {
        if let Some(b) = key_at_exec(v, 0) {
            return Some((0, b, b + 1));
        }
    }
    if is_whitespace(v[p]) {
        if let Some(b) = key_at_exec(v, p + 1) {
            return Some((p + 1, b, b + 1));
        }
    }
    None
}

/// The integer view of field headers.
pub open spec fn headers_view(hs: Seq<(usize, usize, usize, usize)>) -> Seq<(int, int, int, int)> {
    hs.map_values(|h: (usize, usize, usize, usize)| (h.0 as int, h.1 as int, h.2 as int, h.3 as int))
}

/// The headers are in bounds, each well formed and each ending before the next starts.
pub open spec fn headers_ordered(hs: Seq<(usize, usize, usize, usize)>, n: int) -> bool {
    &&& forall|i: int|
        0 <= i < hs.len() ==> (#[trigger] hs[i]).0 <= hs[i].1 < hs[i].2 < hs[i].3 <= n
    &&& forall|i: int| 0 <= i < hs.len() - 1 ==> (#[trigger] hs[i]).3 <= hs[i + 1].0
}

/// The field headers of a record.
fn headers(v: &Vec<char>) -> (hs: Vec<(usize, usize, usize, usize)>)
    ensures
        headers_view(hs@) == headers_from(v@, 0),
        headers_ordered(hs@, v@.len() as int),
{
    let n = v.len();
    let mut hs: Vec<(usize, usize, usize, usize)> = Vec::new();
    let mut pos: usize = 0;
    while pos < n
        invariant
            pos <= n == v@.len(),
            headers_from(v@, 0) == headers_view(hs@) + headers_from(v@, pos as int),
            headers_ordered(hs@, n as int),
            hs@.len() > 0 ==> hs@.last().3 <= pos,
        decreases n - pos,
    {
        match header_at_exec(v, pos) {
            Some((ka, kb, e)) => {
                let ghost prev = hs@;
                hs.push((pos, ka, kb, e));
                proof {
                    assert(headers_view(hs@) =~= headers_view(prev).push(
                        (pos as int, ka as int, kb as int, e as int),
                    ));
                    assert(headers_from(v@, pos as int) == seq![
                        (pos as int, ka as int, kb as int, e as int),
                    ] + headers_from(v@, e as int));
                    assert(headers_view(prev) + (seq![(pos as int, ka as int, kb as int, e as int)]
                        + headers_from(v@, e as int)) =~= headers_view(hs@) + headers_from(
                        v@,
                        e as int,
                    ));
                    assert forall|i: int| 0 <= i < hs@.len() - 1 implies (#[trigger] hs@[i]).3
                        <= hs@[i + 1].0 by {
                        if i < prev.len() - 1 {
                            assert(hs@[i] == prev[i] && hs@[i + 1] == prev[i + 1]);
                        } else {
                            assert(hs@[i] == prev.last());
                        }
                    }
                    assert forall|i: int| 0 <= i < hs@.len() implies (#[trigger] hs@[i]).0
                        <= hs@[i].1 < hs@[i].2 < hs@[i].3 <= n by {
                        if i < prev.len() {
                            assert(hs@[i] == prev[i]);
                        }
                    }
                }
                pos = e;
            },
            None => {
                pos += 1;
            },
        }
    }
    assert(headers_from(v@, pos as int) =~= Seq::<(int, int, int, int)>::empty());
    assert(headers_view(hs@) + Seq::<(int, int, int, int)>::empty() =~= headers_view(hs@));
    hs
}

/// Whether a value stands for "no value".
fn skipped_range(v: &Vec<char>, lo: usize, hi: usize, null: &Vec<char>, none: &Vec<char>, na: &Vec<char>) -> (r: bool)
    requires
        lo <= hi <= v@.len(),
        null@ == "(null)"@,
        none@ == "None"@,
        na@ == "N/A"@,
    ensures
        r == skipped_value(v@.subrange(lo as int, hi as int)),
{
    lo == hi || range_eq(v, lo, hi, null) || range_eq(v, lo, hi, none) || range_eq(v, lo, hi, na)
}

proof fn lemma_values_for_step(f: Seq<(Seq<char>, Seq<char>)>, i: int, k: Seq<char>)
    requires
        0 <= i < f.len(),
    ensures
        values_for(f.take(i + 1), k) == if f[i].0 == k && !skipped_value(f[i].1) {
            values_for(f.take(i), k).push(f[i].1)
        } else {
            values_for(f.take(i), k)
        },
{
    assert(f.take(i + 1).drop_last() =~= f.take(i));
}

/// Parses one record into its fields.
pub fn parse_record(record: &str) -> (r: SlurmRecord)
    ensures
        r@ == record_spec(record@),
{
    let v = chars_of(record);
    let n = v.len();
    let hs = headers(&v);
    let ghost s = v@;
    let ghost f = raw_fields(s);
    let null = chars_of("(null)");
    let none = chars_of("None");
    let na = chars_of("N/A");
    let mut keys: Vec<String> = Vec::new();
    let mut vals: Vec<Vec<String>> = Vec::new();
    let mut i: usize = 0;
    while i < hs.len()
        invariant
            n == v@.len(),
            s == v@,
            s == record@,
            f == raw_fields(s),
            headers_view(hs@) == headers_from(s, 0),
            headers_ordered(hs@, n as int),
            i <= hs@.len(),
            f.len() == hs@.len(),
            null@ == "(null)"@,
            none@ == "None"@,
            na@ == "N/A"@,
            keys@.len() == vals@.len(),
            forall|a: int, b: int| 0 <= a < b < keys@.len() ==> (#[trigger] keys@[a])@ != (#[trigger] keys@[b])@,
            forall|j: int| 0 <= j < keys@.len() ==> strs_view((#[trigger] vals@[j])@) == values_for(f.take(i as int), keys@[j]@),
            forall|j: int| 0 <= j < keys@.len() ==> (#[trigger] vals@[j])@.len() > 0,
            forall|k: Seq<char>| #[trigger] values_for(f.take(i as int), k).len() > 0 ==> exists|j: int|
                0 <= j < keys@.len() && (#[trigger] keys@[j])@ == k,
        decreases hs@.len() - i,
    {
        let (_, ka, kb, e) = hs[i];
        let end = if i + 1 < hs.len() {
            hs[i + 1].0
        } else {
            n
        };
        assert(e <= end) by {
            if i + 1 < hs@.len() {
                assert(hs@[i as int].3 <= hs@[i + 1].0);
            }
        };
        let key = string_of(&v, ka, kb);
        let (a, b) = trim_bounds(&v, e, end);
        proof {
            let hv = headers_view(hs@);
            assert(hv[i as int] == (hs@[i as int].0 as int, ka as int, kb as int, e as int));
            if i + 1 < hs@.len() {
                assert(hv[i + 1].0 == hs@[i + 1].0 as int);
            }
            assert(f[i as int] == (s.subrange(ka as int, kb as int), v@.subrange(a as int, b as int)));
            assert forall|k: Seq<char>| true implies #[trigger] values_for(f.take(i + 1), k) == if f[i as int].0 == k
                && !skipped_value(f[i as int].1) {
                values_for(f.take(i as int), k).push(f[i as int].1)
            } else {
                values_for(f.take(i as int), k)
            } by {
                lemma_values_for_step(f, i as int, k);
            }
        }
        if !skipped_range(&v, a, b, &null, &none, &na) {
            let value = string_of(&v, a, b);
            let mut found: Option<usize> = None;
            let mut j: usize = 0;
            while j < keys.len()
                invariant
                    j <= keys@.len(),
                    found matches Some(x) ==> x < keys@.len() && keys@[x as int]@ == key@,
                    found is None ==> forall|q: int| 0 <= q < j ==> (#[trigger] keys@[q])@ != key@,
                decreases keys@.len() - j,
            {
                if found.is_none() && crate::text::str_eq(keys[j].as_str(), key.as_str()) {
                    found = Some(j);
                }
                j += 1;
            }
            match found {
                Some(j) => {
                    let mut cur = crate::text::clone_range(&vals[j], 0, vals[j].len());
                    assert(vals@[j as int]@.subrange(0, vals@[j as int]@.len() as int) =~= vals@[j as int]@);
                    let ghost prev_cur = strs_view(cur@);
                    cur.push(value);
                    assert(strs_view(cur@) =~= prev_cur.push(v@.subrange(a as int, b as int)));
                    let ghost old_vals = vals@;
                    vals.set(j, cur);
                    assert forall|q: int| 0 <= q < keys@.len() implies strs_view((#[trigger] vals@[q])@)
                        == values_for(f.take(i + 1), keys@[q]@) by {
                        if q != j {
                            assert(vals@[q] == old_vals[q]);
                        }
                    }
                },
                None => {
                    let ghost old_keys = keys@;
                    let ghost old_vals = vals@;
                    let mut one: Vec<String> = Vec::new();
                    one.push(value);
                    keys.push(key);
                    vals.push(one);
                    assert(values_for(f.take(i as int), key@).len() == 0) by {
                        if values_for(f.take(i as int), key@).len() > 0 {
                            let q = choose|q: int| 0 <= q < old_keys.len() && (#[trigger] old_keys[q])@ == key@;
                            assert(old_keys[q]@ != key@);
                        }
                    }
                    assert forall|q: int| 0 <= q < keys@.len() implies strs_view((#[trigger] vals@[q])@)
                        == values_for(f.take(i + 1), keys@[q]@) by {
                        if q < old_keys.len() {
                            assert(vals@[q] == old_vals[q]);
                            assert(keys@[q] == old_keys[q]);
                        } else {
                            assert(strs_view(vals@[q]@) =~= seq![v@.subrange(a as int, b as int)]);
                            assert(values_for(f.take(i as int), key@) =~= Seq::<Seq<char>>::empty());
                        }
                    }
                    assert forall|k: Seq<char>| #[trigger] values_for(f.take(i + 1), k).len() > 0
                        implies exists|q: int| 0 <= q < keys@.len() && (#[trigger] keys@[q])@ == k by {
                        if k == key@ {
                            assert(keys@[old_keys.len() as int]@ == k);
                        } else {
                            assert(values_for(f.take(i as int), k).len() > 0);
                            let q = choose|q: int| 0 <= q < old_keys.len() && (#[trigger] old_keys[q])@ == k;
                            assert(keys@[q] == old_keys[q]);
                        }
                    }
                    assert forall|x: int, y: int| 0 <= x < y < keys@.len() implies (#[trigger] keys@[x])@
                        != (#[trigger] keys@[y])@ by {
                        if y < old_keys.len() {
                            assert(keys@[x] == old_keys[x] && keys@[y] == old_keys[y]);
                        } else {
                            assert(keys@[x] == old_keys[x]);
                            assert(keys@[y] == key);
                            assert(old_keys[x]@ != key@);
                        }
                    }
                },
            }
        } else {
            assert forall|q: int| 0 <= q < keys@.len() implies strs_view((#[trigger] vals@[q])@)
                == values_for(f.take(i + 1), keys@[q]@) by {}
        }
        i += 1;
    }
    assert(f.take(hs@.len() as int) =~= f);
    let mut items: Vec<(String, SlurmValue)> = Vec::new();
    let mut j: usize = 0;
    while j < keys.len()
        invariant
            j <= keys@.len(),
            keys@.len() == vals@.len(),
            items@.len() == j,
            forall|q: int| 0 <= q < j ==> (#[trigger] items@[q]).0@ == keys@[q]@ && items@[q].1@
                == strs_view(vals@[q]@) && items@[q].1.wf(),
            forall|q: int| 0 <= q < keys@.len() ==> (#[trigger] vals@[q])@.len() > 0,
        decreases keys@.len() - j,
    {
        let ghost w = vals@[j as int]@;
        let value = if vals[j].len() == 1 {
            let x = vals[j][0].clone();
            assert(seq![w[0]@] =~= strs_view(w));
            SlurmValue::Single(x)
        } else {
            let c = crate::text::clone_range(&vals[j], 0, vals[j].len());
            assert(w.subrange(0, w.len() as int) =~= w);
            assert(strs_view(c@).len() == c@.len());
            SlurmValue::Repeated(c)
        };
        let ghost prev = items@;
        let k = keys[j].clone();
        assert(value@ == strs_view(vals@[j as int]@) && value.wf());
        items.push((k, value));
        assert(items@[j as int].0@ == keys@[j as int]@);
        assert forall|q: int| 0 <= q < j implies items@[q] == prev[q] by {}
        j += 1;
    }
    let r = SlurmRecord { items };
    proof {
        assert forall|k: Seq<char>| true implies r@.contains_key(k) == record_spec(record@).contains_key(k) by {
            if values_for(f, k).len() > 0 {
                let q = choose|q: int| 0 <= q < keys@.len() && (#[trigger] keys@[q])@ == k;
                assert(r.items@[q].0@ == k);
            }
            if exists|q: int| 0 <= q < r.items@.len() && (#[trigger] r.items@[q]).0@ == k {
                let q = choose|q: int| 0 <= q < r.items@.len() && (#[trigger] r.items@[q]).0@ == k;
                assert(keys@[q]@ == k);
            }
        }
        assert forall|k: Seq<char>| #[trigger] r@.contains_key(k) implies r@[k] == record_spec(record@)[k] by {
            let q = choose|q: int| 0 <= q < r.items@.len() && (#[trigger] r.items@[q]).0@ == k;
            assert(keys@[q]@ == k);
        }
        assert(r@ =~= record_spec(record@));
    }
    r
}

impl SlurmRecord {
    /// The value of `key`.
    pub fn get(&self, key: &str) -> (r: Option<&SlurmValue>)
        ensures
            match r {
                Some(v) => self@.contains_key(key@) && v@ == self@[key@] && v.wf(),
                None => !self@.contains_key(key@),
            },
    {
        proof {
            use_type_invariant(self);
        }
        let mut i: usize = 0;
        while i < self.items.len()
            invariant
                i <= self.items@.len(),
                forall|q: int| 0 <= q < i ==> (#[trigger] self.items@[q]).0@ != key@,
                forall|a: int, b: int|
                    0 <= a < b < self.items@.len() ==> (#[trigger] self.items@[a]).0@ != (
                    #[trigger] self.items@[b]).0@,
                forall|a: int| 0 <= a < self.items@.len() ==> (#[trigger] self.items@[a]).1.wf(),
            decreases self.items@.len() - i,
        {
            if crate::text::str_eq(self.items[i].0.as_str(), key) {
                proof {
                    let q = choose|q: int| 0 <= q < self.items@.len() && (#[trigger] self.items@[q]).0@ == key@;
                    assert(q == i) by {
                        if q != i {
                            if q < i {
                                assert(self.items@[q].0@ != key@);
                            } else {
                                assert(self.items@[i as int].0@ != self.items@[q].0@);
                            }
                        }
                    }
                }
                return Some(&self.items[i].1);
            }
            i += 1;
        }
        None
    }
}

/// What a whole input holds: one record, or any other number of them.
#[derive(Debug)]
pub enum SlurmDocument {
    One(SlurmRecord),
    Many(Vec<SlurmRecord>),
}

/// A reader of `scontrol` output.
pub struct SlurmDeserializer<'de> {
    input: &'de str,
}

impl<'de> View for SlurmDeserializer<'de> {
    type V = Seq<char>;

    closed spec fn view(&self) -> Seq<char> {
        self.input@
    }
}

impl<'de> SlurmDeserializer<'de> {
    pub fn from_str(input: &'de str) -> (d: Self)
        ensures
            d@ == input@,
    {
        SlurmDeserializer { input }
    }

    /// Every record of the input, in order.
    pub fn deserialize_seq(self) -> (r: Vec<SlurmRecord>)
        ensures
            r@.len() == records_spec(self@).len(),
            forall|i: int| 0 <= i < r@.len() ==> (#[trigger] r@[i])@ == record_spec(records_spec(self@)[i]),
    {
        let records = split_records(self.input);
        let mut out: Vec<SlurmRecord> = Vec::new();
        let mut i: usize = 0;
        while i < records.len()
            invariant
                i <= records@.len(),
                strs_view(records@) == records_spec(self@),
                out@.len() == i,
                forall|q: int| 0 <= q < i ==> (#[trigger] out@[q])@ == record_spec(records_spec(self@)[q]),
            decreases records@.len() - i,
        {
            let rec = parse_record(records[i].as_str());
            out.push(rec);
            i += 1;
        }
        out
    }

    /// The input as a single record when it holds exactly one, else as its records.
    pub fn deserialize_any(self) -> (r: SlurmDocument)
        ensures
            records_spec(self@).len() == 1 ==> (r matches SlurmDocument::One(rec) && rec@
                == record_spec(records_spec(self@)[0])),
            records_spec(self@).len() != 1 ==> (r matches SlurmDocument::Many(v) && v@.len()
                == records_spec(self@).len() && forall|i: int|
                0 <= i < v@.len() ==> (#[trigger] v@[i])@ == record_spec(records_spec(self@)[i])),
    {
        let records = split_records(self.input);
        if records.len() == 1 {
            SlurmDocument::One(parse_record(records[0].as_str()))
        } else {
            SlurmDocument::Many(self.deserialize_seq())
        }
    }

    /// The first record of the input; an error when it has none.
    pub fn deserialize_map(self) -> (r: core::result::Result<SlurmRecord, Error>)
        ensures
            match r {
                Ok(rec) => records_spec(self@).len() > 0 && rec@ == record_spec(
                    records_spec(self@)[0],
                ),
                Err(e) => records_spec(self@).len() == 0 && e@ == "no record found"@,
            },
    {
        let records = split_records(self.input);
        if records.len() == 0 {
            return Err(Error::custom(String::from_str("no record found")));
        }
        Ok(parse_record(records[0].as_str()))
    }
}

} // verus!
