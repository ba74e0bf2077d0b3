//! Character-level helpers shared by every module that reads or builds text:
//! conversion between `str` and character vectors, Unicode whitespace, line
//! splitting with `str::lines` semantics, trimming, decimal numerals, and the
//! byte-wise order that `String`'s own `Ord` uses.
use vstd::prelude::*;

verus! {

broadcast use vstd::string::group_string_axioms;

/// `String::push` appends one character.
pub assume_specification[ String::push ](string: &mut String, ch: char)
    ensures
        final(string)@ == old(string)@.push(ch),
;

/// The characters of `s`, in order.
pub fn chars_of(s: &str) -> (v: Vec<char>)
    ensures
        v@ == s@,
{
    let mut v: Vec<char> = Vec::new();
    for c in it: s.chars()
        invariant
            v@ == it.seq().take(it.index() as int),
    {
        v.push(c);
    }
    v
}

/// A `String` holding `chars[lo..hi]`.
pub fn string_of(chars: &Vec<char>, lo: usize, hi: usize) -> (s: String)
    requires
        lo <= hi <= chars@.len(),
    ensures
        s@ == chars@.subrange(lo as int, hi as int),
{
    let mut s = String::new();
    let mut i = lo;
    while i < hi
        invariant
            lo <= i <= hi <= chars@.len(),
            s@ == chars@.subrange(lo as int, i as int),
        decreases hi - i,
    {
        s.push(chars[i]);
        i += 1;
        assert(s@ =~= chars@.subrange(lo as int, i as int));
    }
    s
}

/// Appends every character of `chars[lo..hi]` to `out`.
pub fn push_range(out: &mut String, chars: &Vec<char>, lo: usize, hi: usize)
    requires
        lo <= hi <= chars@.len(),
    ensures
        final(out)@ == old(out)@ + chars@.subrange(lo as int, hi as int),
{
    let mut i = lo;
    while i < hi
        invariant
            lo <= i <= hi <= chars@.len(),
            out@ == old(out)@ + chars@.subrange(lo as int, i as int),
        decreases hi - i,
    {
        out.push(chars[i]);
        i += 1;
        assert(out@ =~= old(out)@ + chars@.subrange(lo as int, i as int));
    }
}

/// Appends `s` to `out`.
pub fn push_str(out: &mut String, s: &str)
    ensures
        final(out)@ == old(out)@ + s@,
{
    out.append(s);
}

/// A `String` with the same characters as `s`.
pub fn owned(s: &str) -> (r: String)
    ensures
        r@ == s@,
{
    s.to_owned()
}

/// The Unicode `White_Space` property, which is exactly what
/// `char::is_whitespace` tests.
pub open spec fn is_space(c: char) -> bool {
    ||| '\u{9}' <= c <= '\u{d}'
    ||| c == ' '
    ||| c == '\u{85}'
    ||| c == '\u{a0}'
    ||| c == '\u{1680}'
    ||| '\u{2000}' <= c <= '\u{200a}'
    ||| c == '\u{2028}'
    ||| c == '\u{2029}'
    ||| c == '\u{202f}'
    ||| c == '\u{205f}'
    ||| c == '\u{3000}'
}

pub fn is_whitespace(c: char) -> (r: bool)
    ensures
        r == is_space(c),
{
    ('\u{9}' <= c && c <= '\u{d}') || c == ' ' || c == '\u{85}' || c == '\u{a0}' || c
        == '\u{1680}' || ('\u{2000}' <= c && c <= '\u{200a}') || c == '\u{2028}' || c
        == '\u{2029}' || c == '\u{202f}' || c == '\u{205f}' || c == '\u{3000}'
}

/// `s` without its leading whitespace.
pub open spec fn trim_start(s: Seq<char>) -> Seq<char>
    decreases s.len(),
{
    if s.len() > 0 && is_space(s[0]) {
        trim_start(s.drop_first())
    } else {
        s
    }
}

/// `s` without its trailing whitespace.
pub open spec fn trim_end(s: Seq<char>) -> Seq<char>
    decreases s.len(),
{
    if s.len() > 0 && is_space(s.last()) {
        trim_end(s.drop_last())
    } else {
        s
    }
}

/// `s` without leading or trailing whitespace: what `str::trim` returns.
pub open spec fn trim(s: Seq<char>) -> Seq<char> {
    trim_end(trim_start(s))
}

proof fn lemma_trim_start_sub(s: Seq<char>, lo: int, hi: int)
    requires
        0 <= lo < hi <= s.len(),
        is_space(s[lo]),
    ensures
        trim_start(s.subrange(lo, hi)) == trim_start(s.subrange(lo + 1, hi)),
{
    assert(s.subrange(lo, hi).drop_first() =~= s.subrange(lo + 1, hi));
}

proof fn lemma_trim_end_sub(s: Seq<char>, lo: int, hi: int)
    requires
        0 <= lo < hi <= s.len(),
        is_space(s[hi - 1]),
    ensures
        trim_end(s.subrange(lo, hi)) == trim_end(s.subrange(lo, hi - 1)),
{
    assert(s.subrange(lo, hi).drop_last() =~= s.subrange(lo, hi - 1));
}

/// The bounds of `trim(chars[lo..hi])` within `chars`.
pub fn trim_bounds(chars: &Vec<char>, lo: usize, hi: usize) -> (r: (usize, usize))
    requires
        lo <= hi <= chars@.len(),
    ensures
        lo <= r.0 <= r.1 <= hi,
        chars@.subrange(r.0 as int, r.1 as int) == trim(chars@.subrange(lo as int, hi as int)),
{
    let mut a = lo;
    while a < hi && is_whitespace(chars[a])
        invariant
            lo <= a <= hi <= chars@.len(),
            trim_start(chars@.subrange(lo as int, hi as int)) == trim_start(
                chars@.subrange(a as int, hi as int),
            ),
        decreases hi - a,
    {
        proof {
            lemma_trim_start_sub(chars@, a as int, hi as int);
        }
        a += 1;
    }
    assert(trim_start(chars@.subrange(a as int, hi as int)) == chars@.subrange(a as int, hi as int))
        by {
        if a < hi {
            assert(chars@.subrange(a as int, hi as int)[0] == chars@[a as int]);
        }
    }
    let mut b = hi;
    while b > a && is_whitespace(chars[b - 1])
        invariant
            lo <= a <= b <= hi <= chars@.len(),
            trim_end(chars@.subrange(a as int, hi as int)) == trim_end(
                chars@.subrange(a as int, b as int),
            ),
        decreases b - a,
    {
        proof {
            lemma_trim_end_sub(chars@, a as int, b as int);
        }
        b -= 1;
    }
    assert(trim_end(chars@.subrange(a as int, b as int)) == chars@.subrange(a as int, b as int))
        by {
        if a < b {
            assert(chars@.subrange(a as int, b as int).last() == chars@[b - 1]);
        }
    }
    (a, b)
}

/// The end of `trim_end(chars[lo..hi])` within `chars`.
pub fn trim_end_bound(chars: &Vec<char>, lo: usize, hi: usize) -> (b: usize)
    requires
        lo <= hi <= chars@.len(),
    ensures
        lo <= b <= hi,
        chars@.subrange(lo as int, b as int) == trim_end(chars@.subrange(lo as int, hi as int)),
{
    let mut b = hi;
    while b > lo && is_whitespace(chars[b - 1])
        invariant
            lo <= b <= hi <= chars@.len(),
            trim_end(chars@.subrange(lo as int, hi as int)) == trim_end(chars@.subrange(lo as int, b as int)),
        decreases b - lo,
    {
        proof {
            lemma_trim_end_sub(chars@, lo as int, b as int);
        }
        b -= 1;
    }
    assert(trim_end(chars@.subrange(lo as int, b as int)) == chars@.subrange(lo as int, b as int)) by {
        if lo < b {
            assert(chars@.subrange(lo as int, b as int).last() == chars@[b - 1]);
        }
    }
    b
}

/// The index of the first `nl` in `s`, or `s.len()` when there is none.
pub open spec fn index_of_first<A>(s: Seq<A>, nl: A) -> int
    decreases s.len(),
{
    if s.len() == 0 {
        0
    } else if s[0] == nl {
        0
    } else {
        1 + index_of_first(s.drop_first(), nl)
    }
}

pub proof fn lemma_index_of_first<A>(s: Seq<A>, nl: A)
    ensures
        0 <= index_of_first(s, nl) <= s.len(),
        index_of_first(s, nl) < s.len() ==> s[index_of_first(s, nl)] == nl,
        forall|i: int| 0 <= i < index_of_first(s, nl) ==> s[i] != nl,
    decreases s.len(),
{
    if s.len() > 0 && s[0] != nl {
        lemma_index_of_first(s.drop_first(), nl);
        assert forall|i: int| 0 <= i < index_of_first(s, nl) implies s[i] != nl by {
            if i > 0 {
                assert(s[i] == s.drop_first()[i - 1]);
            }
        }
    }
}

/// The index of the first `nl` at or after `from`, characterized directly.
pub proof fn lemma_index_of_first_unique<A>(s: Seq<A>, nl: A, k: int)
    requires
        0 <= k <= s.len(),
        k < s.len() ==> s[k] == nl,
        forall|i: int| 0 <= i < k ==> s[i] != nl,
    ensures
        index_of_first(s, nl) == k,
    decreases s.len(),
{
    if s.len() > 0 && s[0] != nl {
        assert forall|i: int| 0 <= i < k - 1 implies s.drop_first()[i] != nl by {
            assert(s[i + 1] != nl);
        }
        lemma_index_of_first_unique(s.drop_first(), nl, k - 1);
    }
}

/// `line` without one trailing `cr`.
pub open spec fn strip_last<A>(line: Seq<A>, cr: A) -> Seq<A> {
    if line.len() > 0 && line.last() == cr {
        line.drop_last()
    } else {
        line
    }
}

/// What `str::lines` yields: `s` split after each `nl`, the `nl` removed and,
/// where one precedes it, a `cr` too; a final `nl` adds no empty line, and a
/// last line with no `nl` after it keeps any `cr` it ends in.
pub open spec fn lines_of<A>(s: Seq<A>, nl: A, cr: A) -> Seq<Seq<A>>
    decreases s.len(),
{
    if s.len() == 0 {
        seq![]
    } else {
        let k = index_of_first(s, nl);
        if k >= s.len() {
            seq![s]
        } else {
            proof {
                lemma_index_of_first(s, nl);
            }
            seq![strip_last(s.subrange(0, k), cr)] + lines_of(s.subrange(k + 1, s.len() as int), nl, cr)
        }
    }
}

/// `lines_of` over characters.
pub open spec fn char_lines(s: Seq<char>) -> Seq<Seq<char>> {
    lines_of(s, '\n', '\r')
}

/// An element type whose equality is plain value equality.
pub trait Unit: Copy {
    fn same(&self, other: &Self) -> (r: bool)
        ensures
            r == (*self == *other),
    ;
}

impl Unit for char {
    fn same(&self, other: &Self) -> (r: bool) {
        *self == *other
    }
}

impl Unit for u8 {
    fn same(&self, other: &Self) -> (r: bool) {
        *self == *other
    }
}

/// Start and end of the line of `v` that begins at `pos`, and where the next
/// line begins.
pub fn next_line<A: Unit>(v: &[A], pos: usize, nl: A, cr: A) -> (r: (usize, usize, usize))
    requires
        pos < v@.len(),
    ensures
        ({
            let rest = v@.subrange(pos as int, v@.len() as int);
            let (lo, hi, next) = r;
            &&& pos == lo <= hi < next <= v@.len() || (pos == lo <= hi == next == v@.len())
            &&& pos < next
            &&& lines_of(rest, nl, cr) == seq![v@.subrange(lo as int, hi as int)] + lines_of(
                v@.subrange(next as int, v@.len() as int),
                nl,
                cr,
            )
        }),
{
    let n = v.len();
    let mut k = pos;
    while k < n && !v[k].same(&nl)
        invariant
            pos <= k <= n == v@.len(),
            forall|i: int| pos <= i < k ==> v@[i] != nl,
        decreases n - k,
    {
        k += 1;
    }
    let ghost rest = v@.subrange(pos as int, n as int);
    proof {
        lemma_index_of_first_unique(rest, nl, k - pos);
    }
    if k >= n {
        assert(rest =~= v@.subrange(pos as int, k as int));
        assert(v@.subrange(n as int, n as int) =~= Seq::<A>::empty());
        assert(lines_of(Seq::<A>::empty(), nl, cr) =~= Seq::<Seq<A>>::empty());
        assert(seq![rest] =~= seq![rest] + Seq::<Seq<A>>::empty());
        (pos, k, n)
    } else {
        let hi = if k > pos && v[k - 1].same(&cr) {
            k - 1
        } else {
            k
        };
        assert(rest.subrange(0, k - pos) =~= v@.subrange(pos as int, k as int));
        assert(rest.subrange(k - pos + 1, rest.len() as int) =~= v@.subrange(k + 1, n as int));
        proof {
            if k > pos && v@[k - 1] == cr {
                assert(v@.subrange(pos as int, k as int).drop_last() =~= v@.subrange(pos as int, hi as int));
            }
        }
        (pos, hi, k + 1)
    }
}

/// Decimal digit `d` as a character.
pub open spec fn digit_char(d: nat) -> char {
    if d == 0 { '0' }
    else if d == 1 { '1' }
    else if d == 2 { '2' }
    else if d == 3 { '3' }
    else if d == 4 { '4' }
    else if d == 5 { '5' }
    else if d == 6 { '6' }
    else if d == 7 { '7' }
    else if d == 8 { '8' }
    else { '9' }
}

/// The decimal numeral of `n`, with no leading zeros: what `to_string` and
/// `{}` print for an unsigned integer.
pub open spec fn decimal(n: nat) -> Seq<char>
    decreases n,
{
    if n < 10 {
        seq![digit_char(n)]
    } else {
        decimal(n / 10).push(digit_char(n % 10))
    }
}

pub fn digit(d: u8) -> (c: char)
    requires
        d < 10,
    ensures
        c == digit_char(d as nat),
{
    if d == 0 { '0' }
    else if d == 1 { '1' }
    else if d == 2 { '2' }
    else if d == 3 { '3' }
    else if d == 4 { '4' }
    else if d == 5 { '5' }
    else if d == 6 { '6' }
    else if d == 7 { '7' }
    else if d == 8 { '8' }
    else { '9' }
}

/// Appends the decimal numeral of `n` to `out`.
pub fn push_decimal(out: &mut String, n: u128)
    ensures
        final(out)@ == old(out)@ + decimal(n as nat),
    decreases n,
{
    if n < 10 {
        out.push(digit(n as u8));
        assert(decimal(n as nat) =~= seq![digit_char(n as nat)]);
    } else {
        push_decimal(out, n / 10);
        out.push(digit((n % 10) as u8));
        assert(final(out)@ =~= old(out)@ + decimal(n as nat)) by {
            assert(decimal(n as nat) == decimal((n / 10) as nat).push(digit_char((n % 10) as nat)));
        }
    }
}

/// The decimal numeral of `n`.
pub fn decimal_string(n: u128) -> (s: String)
    ensures
        s@ == decimal(n as nat),
{
    let mut s = String::new();
    push_decimal(&mut s, n);
    assert(s@ =~= decimal(n as nat));
    s
}

/// Byte-wise lexicographic order: what `Ord` on `str` and `String` compares.
pub open spec fn bytes_le(a: Seq<u8>, b: Seq<u8>) -> bool
    decreases a.len(),
{
    if a.len() == 0 {
        true
    } else if b.len() == 0 {
        false
    } else if a[0] != b[0] {
        a[0] < b[0]
    } else {
        bytes_le(a.drop_first(), b.drop_first())
    }
}

/// `a` sorts no later than `b` under `String`'s own order.
pub open spec fn str_le(a: Seq<char>, b: Seq<char>) -> bool {
    bytes_le(vstd::utf8::encode_utf8(a), vstd::utf8::encode_utf8(b))
}

pub fn bytes_le_exec(a: &[u8], b: &[u8]) -> (r: bool)
    ensures
        r == bytes_le(a@, b@),
{
    let mut i: usize = 0;
    assert(a@.subrange(0, a@.len() as int) =~= a@);
    assert(b@.subrange(0, b@.len() as int) =~= b@);
    while i < a.len() && i < b.len() && a[i] == b[i]
        invariant
            i <= a@.len(),
            i <= b@.len(),
            bytes_le(a@, b@) == bytes_le(a@.subrange(i as int, a@.len() as int), b@.subrange(i as int, b@.len() as int)),
        decreases a.len() - i,
    {
        assert(a@.subrange(i as int, a@.len() as int).drop_first() =~= a@.subrange(i + 1, a@.len() as int));
        assert(b@.subrange(i as int, b@.len() as int).drop_first() =~= b@.subrange(i + 1, b@.len() as int));
        i += 1;
    }
    if i == a.len() {
        true
    } else if i == b.len() {
        false
    } else {
        a[i] < b[i]
    }
}

/// `String`'s order on `a` and `b`.
pub fn str_le_exec(a: &str, b: &str) -> (r: bool)
    ensures
        r == str_le(a@, b@),
{
    bytes_le_exec(a.as_bytes(), b.as_bytes())
}

pub proof fn lemma_bytes_le_total(a: Seq<u8>, b: Seq<u8>)
    ensures
        bytes_le(a, b) || bytes_le(b, a),
    decreases a.len(),
{
    if a.len() > 0 && b.len() > 0 && a[0] == b[0] {
        lemma_bytes_le_total(a.drop_first(), b.drop_first());
    }
}

pub proof fn lemma_bytes_le_transitive(a: Seq<u8>, b: Seq<u8>, c: Seq<u8>)
    requires
        bytes_le(a, b),
        bytes_le(b, c),
    ensures
        bytes_le(a, c),
    decreases a.len(),
{
    if a.len() > 0 && b.len() > 0 && c.len() > 0 && a[0] == b[0] && b[0] == c[0] {
        lemma_bytes_le_transitive(a.drop_first(), b.drop_first(), c.drop_first());
    }
}

pub proof fn lemma_bytes_le_antisymmetric(a: Seq<u8>, b: Seq<u8>)
    requires
        bytes_le(a, b),
        bytes_le(b, a),
    ensures
        a == b,
    decreases a.len(),
{
    if a.len() > 0 && b.len() > 0 {
        lemma_bytes_le_antisymmetric(a.drop_first(), b.drop_first());
        assert(a =~= seq![a[0]] + a.drop_first());
        assert(b =~= seq![b[0]] + b.drop_first());
    } else {
        assert(a =~= b);
    }
}

pub proof fn lemma_bytes_le_reflexive(a: Seq<u8>)
    ensures
        bytes_le(a, a),
    decreases a.len(),
{
    if a.len() > 0 {
        lemma_bytes_le_reflexive(a.drop_first());
    }
}


pub proof fn lemma_str_le_antisymmetric(a: Seq<char>, b: Seq<char>)
    requires
        str_le(a, b),
        str_le(b, a),
    ensures
        a == b,
{
    lemma_bytes_le_antisymmetric(vstd::utf8::encode_utf8(a), vstd::utf8::encode_utf8(b));
    vstd::utf8::encode_utf8_decode_utf8(a);
    vstd::utf8::encode_utf8_decode_utf8(b);
}

pub proof fn lemma_str_le_total(a: Seq<char>, b: Seq<char>)
    ensures
        str_le(a, b) || str_le(b, a),
{
    lemma_bytes_le_total(vstd::utf8::encode_utf8(a), vstd::utf8::encode_utf8(b));
}

pub proof fn lemma_str_le_transitive(a: Seq<char>, b: Seq<char>, c: Seq<char>)
    requires
        str_le(a, b),
        str_le(b, c),
    ensures
        str_le(a, c),
{
    lemma_bytes_le_transitive(
        vstd::utf8::encode_utf8(a),
        vstd::utf8::encode_utf8(b),
        vstd::utf8::encode_utf8(c),
    );
}

pub proof fn lemma_str_le_reflexive(a: Seq<char>)
    ensures
        str_le(a, a),
{
    lemma_bytes_le_reflexive(vstd::utf8::encode_utf8(a));
}

/// Where a byte sorts when paths are compared component by component: the
/// separator `/` before everything else, so that `a/b` sorts before `a-b`
/// exactly as `Path`'s own order puts component `a` before `a-b`.
pub open spec fn path_rank(x: u8) -> int {
    if x == 47 {
        0
    } else {
        x + 1
    }
}

pub open spec fn path_bytes_le(a: Seq<u8>, b: Seq<u8>) -> bool
    decreases a.len(),
{
    if a.len() == 0 {
        true
    } else if b.len() == 0 {
        false
    } else if a[0] != b[0] {
        path_rank(a[0]) < path_rank(b[0])
    } else {
        path_bytes_le(a.drop_first(), b.drop_first())
    }
}

/// `a` sorts no later than `b` under `Path`'s order, for relative paths whose
/// components are separated by single `/` characters.
pub open spec fn path_le(a: Seq<char>, b: Seq<char>) -> bool {
    path_bytes_le(vstd::utf8::encode_utf8(a), vstd::utf8::encode_utf8(b))
}

pub fn path_le_exec(a: &str, b: &str) -> (r: bool)
    ensures
        r == path_le(a@, b@),
{
    let a = a.as_bytes();
    let b = b.as_bytes();
    let mut i: usize = 0;
    assert(a@.subrange(0, a@.len() as int) =~= a@);
    assert(b@.subrange(0, b@.len() as int) =~= b@);
    while i < a.len() && i < b.len() && a[i] == b[i]
        invariant
            i <= a@.len(),
            i <= b@.len(),
            path_bytes_le(a@, b@) == path_bytes_le(a@.subrange(i as int, a@.len() as int), b@.subrange(i as int, b@.len() as int)),
        decreases a.len() - i,
    {
        assert(a@.subrange(i as int, a@.len() as int).drop_first() =~= a@.subrange(i + 1, a@.len() as int));
        assert(b@.subrange(i as int, b@.len() as int).drop_first() =~= b@.subrange(i + 1, b@.len() as int));
        i += 1;
    }
    if i == a.len() {
        true
    } else if i == b.len() {
        false
    } else {
        let x = a[i];
        let y = b[i];
        if x == 47 {
            true
        } else if y == 47 {
            false
        } else {
            x < y
        }
    }
}

proof fn lemma_path_bytes_le_total(a: Seq<u8>, b: Seq<u8>)
    ensures
        path_bytes_le(a, b) || path_bytes_le(b, a),
    decreases a.len(),
{
    if a.len() > 0 && b.len() > 0 && a[0] == b[0] {
        lemma_path_bytes_le_total(a.drop_first(), b.drop_first());
    }
}

proof fn lemma_path_bytes_le_transitive(a: Seq<u8>, b: Seq<u8>, c: Seq<u8>)
    requires
        path_bytes_le(a, b),
        path_bytes_le(b, c),
    ensures
        path_bytes_le(a, c),
    decreases a.len(),
{
    if a.len() > 0 && b.len() > 0 && c.len() > 0 && a[0] == b[0] && b[0] == c[0] {
        lemma_path_bytes_le_transitive(a.drop_first(), b.drop_first(), c.drop_first());
    }
}

pub proof fn lemma_path_le_total(a: Seq<char>, b: Seq<char>)
    ensures
        path_le(a, b) || path_le(b, a),
{
    lemma_path_bytes_le_total(vstd::utf8::encode_utf8(a), vstd::utf8::encode_utf8(b));
}

pub proof fn lemma_path_le_transitive(a: Seq<char>, b: Seq<char>, c: Seq<char>)
    requires
        path_le(a, b),
        path_le(b, c),
    ensures
        path_le(a, c),
{
    lemma_path_bytes_le_transitive(
        vstd::utf8::encode_utf8(a),
        vstd::utf8::encode_utf8(b),
        vstd::utf8::encode_utf8(c),
    );
}

/// Character equality of `a` and `b`.
pub fn str_eq(a: &str, b: &str) -> (r: bool)
    ensures
        r == (a@ == b@),
{
    let x = chars_of(a);
    let y = chars_of(b);
    assert(x@.subrange(0, x@.len() as int) =~= x@);
    chars_eq(&x, 0, x.len(), &y)
}

/// `v[lo..hi]` equals `w`.
pub fn chars_eq(v: &Vec<char>, lo: usize, hi: usize, w: &Vec<char>) -> (r: bool)
    requires
        lo <= hi <= v@.len(),
    ensures
        r == (v@.subrange(lo as int, hi as int) == w@),
{
    if hi - lo != w.len() {
        return false;
    }
    let mut i: usize = 0;
    while i < w.len()
        invariant
            lo <= hi <= v@.len(),
            hi - lo == w@.len(),
            i <= w@.len(),
            forall|j: int| 0 <= j < i ==> v@[lo + j] == w@[j],
        decreases w.len() - i,
    {
        if v[lo + i] != w[i] {
            return false;
        }
        i += 1;
    }
    assert(v@.subrange(lo as int, hi as int) =~= w@);
    true
}

/// `v[lo..hi]` begins with `w`.
pub fn chars_start_with(v: &Vec<char>, lo: usize, hi: usize, w: &str) -> (r: bool)
    requires
        lo <= hi <= v@.len(),
    ensures
        r == (w@.len() <= hi - lo && v@.subrange(lo as int, lo + w@.len()) == w@),
{
    let w = chars_of(w);
    if w.len() > hi - lo {
        return false;
    }
    chars_eq(v, lo, lo + w.len(), &w)
}

/// Index of the first occurrence of `pattern` in `v[from..hi]`, as `str::find` finds it.
pub open spec fn is_first_match(s: Seq<char>, pattern: Seq<char>, at: int) -> bool {
    &&& 0 <= at <= s.len() - pattern.len()
    &&& s.subrange(at, at + pattern.len()) == pattern
    &&& forall|j: int| 0 <= j < at ==> #[trigger] s.subrange(j, j + pattern.len()) != pattern
}

pub open spec fn has_match(s: Seq<char>, pattern: Seq<char>) -> bool {
    exists|j: int| 0 <= j <= s.len() - pattern.len() && #[trigger] s.subrange(j, j + pattern.len()) == pattern
}

/// The first place in `v[lo..hi]` where `pattern` occurs, relative to `lo`.
pub fn find_in(v: &Vec<char>, lo: usize, hi: usize, pattern: &Vec<char>) -> (r: Option<usize>)
    requires
        lo <= hi <= v@.len(),
        pattern@.len() > 0,
    ensures
        match r {
            Some(at) => is_first_match(v@.subrange(lo as int, hi as int), pattern@, at as int),
            None => !has_match(v@.subrange(lo as int, hi as int), pattern@),
        },
{
    let ghost s = v@.subrange(lo as int, hi as int);
    if pattern.len() > hi - lo {
        return None;
    }
    let last = hi - lo - pattern.len();
    let mut j: usize = 0;
    while j <= last
        invariant
            lo <= hi <= v@.len(),
            s == v@.subrange(lo as int, hi as int),
            last == s.len() - pattern@.len(),
            pattern@.len() > 0,
            last + pattern@.len() == hi - lo,
            j <= last + 1,
            forall|k: int| 0 <= k < j ==> #[trigger] s.subrange(k, k + pattern@.len()) != pattern@,
        decreases last + 1 - j,
    {
        if chars_eq(v, lo + j, lo + j + pattern.len(), pattern) {
            assert(s.subrange(j as int, j + pattern@.len()) =~= v@.subrange(lo + j, lo + j + pattern@.len()));
            return Some(j);
        }
        assert(s.subrange(j as int, j + pattern@.len()) =~= v@.subrange(lo + j, lo + j + pattern@.len()));
        j += 1;
    }
    None
}


/// Where `pattern` first occurs in `s` at or after `from`, or `-1`.
pub open spec fn first_match_from(s: Seq<char>, pattern: Seq<char>, from: int) -> int
    decreases s.len() + 1 - from,
{
    if from < 0 || from + pattern.len() > s.len() {
        -1
    } else if s.subrange(from, from + pattern.len()) == pattern {
        from
    } else {
        first_match_from(s, pattern, from + 1)
    }
}

/// Where `pattern` first occurs in `s`, or `-1`: what `str::find` gives.
pub open spec fn first_match(s: Seq<char>, pattern: Seq<char>) -> int {
    first_match_from(s, pattern, 0)
}

pub proof fn lemma_first_match_from(s: Seq<char>, pattern: Seq<char>, from: int)
    requires
        0 <= from,
    ensures
        first_match_from(s, pattern, from) == -1 || (from <= first_match_from(s, pattern, from) && first_match_from(
            s,
            pattern,
            from,
        ) + pattern.len() <= s.len() && s.subrange(
            first_match_from(s, pattern, from),
            first_match_from(s, pattern, from) + pattern.len(),
        ) == pattern),
        forall|j: int|
            from <= j && (first_match_from(s, pattern, from) == -1 || j < first_match_from(s, pattern, from))
                && j + pattern.len() <= s.len() ==> #[trigger] s.subrange(j, j + pattern.len()) != pattern,
    decreases s.len() + 1 - from,
{
    if from + pattern.len() <= s.len() && s.subrange(from, from + pattern.len()) != pattern {
        lemma_first_match_from(s, pattern, from + 1);
    }
}

/// The first place in `v[lo..hi]` where `pattern` occurs, relative to `lo`.
pub fn find(v: &Vec<char>, lo: usize, hi: usize, pattern: &Vec<char>) -> (r: Option<usize>)
    requires
        lo <= hi <= v@.len(),
        pattern@.len() > 0,
    ensures
        match r {
            Some(at) => first_match(v@.subrange(lo as int, hi as int), pattern@) == at && at + pattern@.len() <= hi - lo,
            None => first_match(v@.subrange(lo as int, hi as int), pattern@) == -1,
        },
{
    let ghost s = v@.subrange(lo as int, hi as int);
    let r = find_in(v, lo, hi, pattern);
    proof {
        lemma_first_match_from(s, pattern@, 0);
        let f = first_match(s, pattern@);
        match r {
            Some(at) => {
                if f != at as int {
                    if f == -1 || f > at {
                        assert(s.subrange(at as int, at + pattern@.len()) == pattern@);
                    } else {
                        assert(s.subrange(f, f + pattern@.len()) == pattern@);
                    }
                }
            },
            None => {
                if f != -1 {
                    assert(s.subrange(f, f + pattern@.len()) == pattern@);
                }
            },
        }
    }
    r
}

/// `name` below `root`, as `Path::join` writes it with `/` separators.
pub open spec fn joined(root: Seq<char>, name: Seq<char>) -> Seq<char> {
    if root.len() == 0 {
        name
    } else if root.last() == '/' {
        root + name
    } else {
        root + seq!['/'] + name
    }
}

pub fn join(root: &str, name: &str) -> (path: String)
    ensures
        path@ == joined(root@, name@),
{
    let chars = chars_of(root);
    let mut path = owned(root);
    if chars.len() > 0 && chars[chars.len() - 1] != '/' {
        path.push('/');
    }
    push_str(&mut path, name);
    path
}

} // verus!
