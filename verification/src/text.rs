//! Character-level text primitives shared by the parsers: whitespace as
//! Unicode defines it, trimming, line splitting and conversions between
//! `&str`, `String` and `Vec<char>`.

use vstd::prelude::*;
use vstd::utf8::{decode_utf8, valid_utf8};

verus! {

/// The Unicode `White_Space` property, which is what `char::is_whitespace`
/// tests.
pub open spec fn is_ws(c: char) -> bool {
    let u = c as u32;
    ||| 0x09 <= u <= 0x0d
    ||| u == 0x20
    ||| u == 0x85
    ||| u == 0xa0
    ||| u == 0x1680
    ||| 0x2000 <= u <= 0x200a
    ||| u == 0x2028
    ||| u == 0x2029
    ||| u == 0x202f
    ||| u == 0x205f
    ||| u == 0x3000
}

/// Whitespace test of `char::is_whitespace`.
pub fn is_whitespace(c: char) -> (b: bool)
    ensures
        b == is_ws(c),
{
    let u = c as u32;
    (0x09 <= u && u <= 0x0d) || u == 0x20 || u == 0x85 || u == 0xa0 || u == 0x1680 || (0x2000
        <= u && u <= 0x200a) || u == 0x2028 || u == 0x2029 || u == 0x202f || u == 0x205f || u
        == 0x3000
}

/// The view of a sequence of character vectors.
pub open spec fn vv(v: Seq<Vec<char>>) -> Seq<Seq<char>> {
    v.map_values(|x: Vec<char>| x@)
}

/// `String::push`.
#[verifier::external_body]
fn push_char(s: &mut String, c: char)
    ensures
        final(s)@ == old(s)@.push(c),
{
    s.push(c);
}

/// The characters of a string slice, in order.
pub fn chars_of(s: &str) -> (v: Vec<char>)
    ensures
        v@ == s@,
{
    let mut v: Vec<char> = Vec::new();
    for c in it: s.chars()
        invariant
            v@ == it.seq().take(it.index() as int),
            it.seq() == s@,
    {
        v.push(c);
    }
    v
}

/// A `String` holding exactly the given characters.
pub fn string_of(v: &[char]) -> (s: String)
    ensures
        s@ == v@,
{
    let mut s = String::new();
    let mut i: usize = 0;
    while i < v.len()
        invariant
            i <= v.len(),
            s@ == v@.take(i as int),
        decreases v.len() - i,
    {
        push_char(&mut s, v[i]);
        assert(v@.take(i + 1) =~= v@.take(i as int).push(v@[i as int]));
        i += 1;
    }
    assert(v@.take(v.len() as int) =~= v@);
    s
}


/// A copy of `s[a..b]`.
pub fn sub_chars(s: &[char], a: usize, b: usize) -> (r: Vec<char>)
    requires
        a <= b <= s.len(),
    ensures
        r@ == s@.subrange(a as int, b as int),
{
    let mut r: Vec<char> = Vec::new();
    let mut i: usize = a;
    while i < b
        invariant
            a <= i <= b <= s.len(),
            r@ == s@.subrange(a as int, i as int),
        decreases b - i,
    {
        r.push(s[i]);
        assert(s@.subrange(a as int, i + 1) =~= s@.subrange(a as int, i as int).push(s@[i as int]));
        i += 1;
    }
    r
}

/// Whether two character slices are equal.
pub fn chars_eq(a: &[char], b: &[char]) -> (r: bool)
    ensures
        r == (a@ == b@),
{
    if a.len() != b.len() {
        return false;
    }
    let mut i: usize = 0;
    while i < a.len()
        invariant
            i <= a.len() == b.len(),
            forall|j: int| 0 <= j < i ==> a@[j] == b@[j],
        decreases a.len() - i,
    {
        if a[i] != b[i] {
            return false;
        }
        i += 1;
    }
    assert(a@ =~= b@);
    true
}

/// Whether a character slice spells the given string.
pub fn chars_eq_str(a: &[char], lit: &str) -> (r: bool)
    ensures
        r == (a@ == lit@),
{
    let l = chars_of(lit);
    chars_eq(a, l.as_slice())
}

// ---------------------------------------------------------------------
// Trimming
// ---------------------------------------------------------------------

/// `s` without its leading whitespace.
pub open spec fn trim_start(s: Seq<char>) -> Seq<char>
    decreases s.len(),
{
    if s.len() > 0 && is_ws(s[0]) {
        trim_start(s.drop_first())
    } else {
        s
    }
}

/// `s` without its trailing whitespace.
pub open spec fn trim_end(s: Seq<char>) -> Seq<char>
    decreases s.len(),
{
    if s.len() > 0 && is_ws(s.last()) {
        trim_end(s.drop_last())
    } else {
        s
    }
}

/// `s` without leading or trailing whitespace, as `str::trim` gives it.
pub open spec fn trim(s: Seq<char>) -> Seq<char> {
    trim_end(trim_start(s))
}

proof fn lemma_trim_start_at(s: Seq<char>, a: int)
    requires
        0 <= a <= s.len(),
        forall|i: int| 0 <= i < a ==> is_ws(s[i]),
        a == s.len() || !is_ws(s[a]),
    ensures
        trim_start(s) == s.subrange(a, s.len() as int),
    decreases a,
{
    if a > 0 {
        lemma_trim_start_at(s.drop_first(), a - 1);
        assert(s.drop_first().subrange(a - 1, s.len() - 1) =~= s.subrange(a, s.len() as int));
    } else {
        assert(s.subrange(0, s.len() as int) =~= s);
    }
}

proof fn lemma_trim_end_at(s: Seq<char>, b: int)
    requires
        0 <= b <= s.len(),
        forall|i: int| b <= i < s.len() ==> is_ws(s[i]),
        b == 0 || !is_ws(s[b - 1]),
    ensures
        trim_end(s) == s.subrange(0, b),
    decreases s.len() - b,
{
    if b < s.len() {
        lemma_trim_end_at(s.drop_last(), b);
        assert(s.drop_last().subrange(0, b) =~= s.subrange(0, b));
    } else {
        assert(s.subrange(0, s.len() as int) =~= s);
    }
}

/// A copy of `s` without its leading whitespace.
pub fn trim_start_chars(s: &[char]) -> (r: Vec<char>)
    ensures
        r@ == trim_start(s@),
{
    let mut a: usize = 0;
    while a < s.len() && is_whitespace(s[a])
        invariant
            a <= s.len(),
            forall|i: int| 0 <= i < a ==> is_ws(s@[i]),
        decreases s.len() - a,
    {
        a += 1;
    }
    proof {
        lemma_trim_start_at(s@, a as int);
    }
    sub_chars(s, a, s.len())
}

/// Bounds `(a, b)` such that `s[a..b]` is `s` trimmed.
pub fn trim_bounds(s: &[char]) -> (r: (usize, usize))
    ensures
        r.0 <= r.1 <= s.len(),
        s@.subrange(r.0 as int, r.1 as int) == trim(s@),
{
    let mut a: usize = 0;
    while a < s.len() && is_whitespace(s[a])
        invariant
            a <= s.len(),
            forall|i: int| 0 <= i < a ==> is_ws(s@[i]),
        decreases s.len() - a,
    {
        a += 1;
    }
    proof {
        lemma_trim_start_at(s@, a as int);
    }
    let mut b: usize = s.len();
    while b > a && is_whitespace(s[b - 1])
        invariant
            a <= b <= s.len(),
            forall|i: int| b <= i < s.len() ==> is_ws(s@[i]),
        decreases b,
    {
        b -= 1;
    }
    proof {
        let t = s@.subrange(a as int, s.len() as int);
        lemma_trim_end_at(t, b - a);
        assert(t.subrange(0, b - a) =~= s@.subrange(a as int, b as int));
    }
    (a, b)
}

/// A copy of `s` trimmed.
pub fn trim_chars(s: &[char]) -> (r: Vec<char>)
    ensures
        r@ == trim(s@),
{
    let (a, b) = trim_bounds(s);
    sub_chars(s, a, b)
}

// ---------------------------------------------------------------------
// Lines
// ---------------------------------------------------------------------

/// A line without the carriage return that ends it, if any.
pub open spec fn strip_cr(l: Seq<char>) -> Seq<char> {
    if l.len() > 0 && l.last() == '\r' {
        l.drop_last()
    } else {
        l
    }
}

/// The lines closed so far while reading `s`, and the line being read.
pub open spec fn lines_fold(s: Seq<char>) -> (Seq<Seq<char>>, Seq<char>)
    decreases s.len(),
{
    if s.len() == 0 {
        (seq![], seq![])
    } else {
        let (done, cur) = lines_fold(s.drop_last());
        if s.last() == '\n' {
            (done.push(strip_cr(cur)), seq![])
        } else {
            (done, cur.push(s.last()))
        }
    }
}

/// The lines of `s` as `str::lines` gives them: split at `\n`, a `\r`
/// just before a `\n` dropped, no line after a final `\n`.
pub open spec fn lines(s: Seq<char>) -> Seq<Seq<char>> {
    let (done, cur) = lines_fold(s);
    if cur.len() > 0 {
        done.push(cur)
    } else {
        done
    }
}

/// The lines of `s`.
pub fn split_lines(s: &[char]) -> (r: Vec<Vec<char>>)
    ensures
        vv(r@) == lines(s@),
{
    let mut done: Vec<Vec<char>> = Vec::new();
    let mut cur: Vec<char> = Vec::new();
    let mut i: usize = 0;
    while i < s.len()
        invariant
            i <= s.len(),
            (vv(done@), cur@) == lines_fold(s@.take(i as int)),
        decreases s.len() - i,
    {
        let c = s[i];
        assert(s@.take(i + 1).drop_last() =~= s@.take(i as int));
        if c == '\n' {
            if cur.len() > 0 && cur[cur.len() - 1] == '\r' {
                cur.pop();
            }
            done.push(cur);
            cur = Vec::new();
            assert(vv(done@) =~= lines_fold(s@.take(i + 1)).0);
        } else {
            cur.push(c);
        }
        i += 1;
    }
    assert(s@.take(s.len() as int) =~= s@);
    if cur.len() > 0 {
        done.push(cur);
        assert(vv(done@) =~= lines(s@));
    }
    done
}


// ---------------------------------------------------------------------
// Tokens
// ---------------------------------------------------------------------

/// The tokens closed so far while reading `s`, the token being read, and
/// whether a double quote is open. With `quoting`, a `"` toggles the quote
/// and is dropped, and whitespace inside quotes belongs to the token;
/// without it, `"` is an ordinary character.
pub open spec fn tok_fold(s: Seq<char>, quoting: bool) -> (Seq<Seq<char>>, Seq<char>, bool)
    decreases s.len(),
{
    if s.len() == 0 {
        (seq![], seq![], false)
    } else {
        let (done, cur, inq) = tok_fold(s.drop_last(), quoting);
        let c = s.last();
        if quoting && c == '"' {
            (done, cur, !inq)
        } else if is_ws(c) && !inq {
            if cur.len() > 0 {
                (done.push(cur), seq![], inq)
            } else {
                (done, cur, inq)
            }
        } else {
            (done, cur.push(c), inq)
        }
    }
}

/// The tokens of a finished fold: the pending token closes if non-empty.
pub open spec fn tok_finish(st: (Seq<Seq<char>>, Seq<char>, bool)) -> Seq<Seq<char>> {
    if st.1.len() > 0 {
        st.0.push(st.1)
    } else {
        st.0
    }
}

/// The maximal runs of non-whitespace characters of `s`, as
/// `str::split_whitespace` gives them.
pub open spec fn split_ws(s: Seq<char>) -> Seq<Seq<char>> {
    tok_finish(tok_fold(s, false))
}

/// The tokens of `s`, split at whitespace; with `quoting`, double quotes
/// group whitespace into a token and are dropped.
pub fn split_tokens(s: &[char], quoting: bool) -> (r: Vec<Vec<char>>)
    ensures
        vv(r@) == tok_finish(tok_fold(s@, quoting)),
{
    let mut done: Vec<Vec<char>> = Vec::new();
    let mut cur: Vec<char> = Vec::new();
    let mut inq = false;
    let mut i: usize = 0;
    while i < s.len()
        invariant
            i <= s.len(),
            (vv(done@), cur@, inq) == tok_fold(s@.take(i as int), quoting),
        decreases s.len() - i,
    {
        let c = s[i];
        assert(s@.take(i + 1).drop_last() =~= s@.take(i as int));
        if quoting && c == '"' {
            inq = !inq;
        } else if is_whitespace(c) && !inq {
            if cur.len() > 0 {
                done.push(cur);
                cur = Vec::new();
                assert(vv(done@) =~= tok_fold(s@.take(i + 1), quoting).0);
            }
        } else {
            cur.push(c);
        }
        i += 1;
    }
    assert(s@.take(s.len() as int) =~= s@);
    if cur.len() > 0 {
        done.push(cur);
        assert(vv(done@) =~= tok_finish(tok_fold(s@, quoting)));
    }
    done
}

/// `toks` joined with `sep` between consecutive tokens.
pub open spec fn join(toks: Seq<Seq<char>>, sep: Seq<char>) -> Seq<char>
    decreases toks.len(),
{
    if toks.len() == 0 {
        seq![]
    } else if toks.len() == 1 {
        toks[0]
    } else {
        join(toks.drop_last(), sep) + sep + toks.last()
    }
}

/// The tokens of `toks` from index `k` on, joined with `sep`.
pub fn join_from(toks: &Vec<Vec<char>>, k: usize, sep: &[char]) -> (r: Vec<char>)
    requires
        k <= toks.len(),
    ensures
        r@ == join(vv(toks@).subrange(k as int, toks.len() as int), sep@),
{
    let mut r: Vec<char> = Vec::new();
    let mut i: usize = k;
    while i < toks.len()
        invariant
            k <= i <= toks.len(),
            r@ == join(vv(toks@).subrange(k as int, i as int), sep@),
        decreases toks.len() - i,
    {
        let ghost before = r@;
        let ghost sub = vv(toks@).subrange(k as int, i + 1);
        assert(sub.drop_last() =~= vv(toks@).subrange(k as int, i as int));
        if i > k {
            let mut j: usize = 0;
            while j < sep.len()
                invariant
                    j <= sep.len(),
                    r@ == before + sep@.take(j as int),
                decreases sep.len() - j,
            {
                r.push(sep[j]);
                assert(sep@.take(j + 1) =~= sep@.take(j as int).push(sep@[j as int]));
                j += 1;
            }
            assert(sep@.take(sep.len() as int) =~= sep@);
        }
        let ghost mid = r@;
        let t = &toks[i];
        let mut j: usize = 0;
        while j < t.len()
            invariant
                j <= t.len(),
                r@ == mid + t@.take(j as int),
            decreases t.len() - j,
        {
            r.push(t[j]);
            assert(t@.take(j + 1) =~= t@.take(j as int).push(t@[j as int]));
            j += 1;
        }
        assert(t@.take(t.len() as int) =~= t@);
        assert(sub.last() == t@);
        if i == k {
            assert(r@ =~= join(sub, sep@));
        } else {
            assert(r@ =~= join(sub, sep@));
        }
        i += 1;
    }
    r
}

/// `s` with every trailing occurrence of `pat` removed, as
/// `str::trim_end_matches` does with a string pattern.
pub open spec fn trim_end_matches(s: Seq<char>, pat: Seq<char>) -> Seq<char>
    decreases s.len(),
{
    if pat.len() > 0 && s.len() >= pat.len() && s.subrange(s.len() - pat.len(), s.len() as int)
        == pat {
        trim_end_matches(s.subrange(0, s.len() - pat.len()), pat)
    } else {
        s
    }
}

/// Whether `s[..end]` ends with `pat`.
fn ends_with_at(s: &[char], end: usize, pat: &[char]) -> (r: bool)
    requires
        end <= s.len(),
    ensures
        r == (end >= pat.len() && s@.subrange(end - pat.len(), end as int) == pat@),
{
    if end < pat.len() {
        return false;
    }
    let start = end - pat.len();
    let mut j: usize = 0;
    while j < pat.len()
        invariant
            start + pat.len() == end <= s.len(),
            j <= pat.len(),
            forall|k: int| 0 <= k < j ==> s@[start + k] == pat@[k],
        decreases pat.len() - j,
    {
        if s[start + j] != pat[j] {
            assert(s@.subrange(start as int, end as int)[j as int] != pat@[j as int]);
            return false;
        }
        j += 1;
    }
    assert(s@.subrange(start as int, end as int) =~= pat@);
    true
}

/// A copy of `s` with every trailing occurrence of `pat` removed.
pub fn trim_end_matches_chars(s: &[char], pat: &[char]) -> (r: Vec<char>)
    ensures
        r@ == trim_end_matches(s@, pat@),
{
    let mut end: usize = s.len();
    assert(s@.subrange(0, end as int) =~= s@);
    while pat.len() > 0 && ends_with_at(s, end, pat)
        invariant
            end <= s.len(),
            trim_end_matches(s@.subrange(0, end as int), pat@) == trim_end_matches(s@, pat@),
        decreases end,
    {
        let ghost t = s@.subrange(0, end as int);
        assert(t.subrange(t.len() - pat@.len(), t.len() as int) =~= s@.subrange(
            end - pat.len(),
            end as int,
        ));
        assert(t.subrange(0, t.len() - pat@.len()) =~= s@.subrange(0, end - pat.len()));
        end = end - pat.len();
    }
    proof {
        let t = s@.subrange(0, end as int);
        if pat@.len() > 0 && t.len() >= pat@.len() {
            assert(t.subrange(t.len() - pat@.len(), t.len() as int) =~= s@.subrange(
                end - pat@.len(),
                end as int,
            ));
        }
    }
    sub_chars(s, 0, end)
}

/// Whether `needle` occurs in `hay` at position `i`.
pub open spec fn occurs_at(hay: Seq<char>, needle: Seq<char>, i: int) -> bool {
    0 <= i && i + needle.len() <= hay.len() && hay.subrange(i, i + needle.len()) == needle
}

/// Whether `needle` occurs in `hay`, as `str::contains` with a string
/// pattern tests.
pub open spec fn contains(hay: Seq<char>, needle: Seq<char>) -> bool {
    exists|i: int| occurs_at(hay, needle, i)
}

/// Whether `needle` occurs in `hay`.
pub fn contains_chars(hay: &[char], needle: &[char]) -> (r: bool)
    ensures
        r == contains(hay@, needle@),
{
    if needle.len() > hay.len() {
        return false;
    }
    if needle.len() == 0 {
        assert(hay@.subrange(0, 0) =~= needle@);
        assert(occurs_at(hay@, needle@, 0));
        return true;
    }
    let last = hay.len() - needle.len();
    let mut i: usize = 0;
    while i <= last
        invariant
            needle.len() > 0,
            last == hay.len() - needle.len(),
            i <= last + 1,
            forall|k: int| 0 <= k < i ==> !occurs_at(hay@, needle@, k),
        decreases last + 1 - i,
    {
        if ends_with_at(hay, i + needle.len(), needle) {
            assert(occurs_at(hay@, needle@, i as int));
            return true;
        }
        i += 1;
    }
    false
}


// ---------------------------------------------------------------------
// Decimal numbers
// ---------------------------------------------------------------------

/// The decimal digit for `d < 10`.
pub open spec fn digit_char(d: nat) -> char {
    (48 + d) as char
}

/// The decimal representation of `n`, without leading zeros.
pub open spec fn dec(n: nat) -> Seq<char>
    decreases n,
{
    if n < 10 {
        seq![digit_char(n)]
    } else {
        dec(n / 10).push(digit_char(n % 10))
    }
}

/// The decimal representation of an integer, with a `-` sign if negative.
pub open spec fn int_dec(i: int) -> Seq<char> {
    if i < 0 {
        seq!['-'] + dec((-i) as nat)
    } else {
        dec(i as nat)
    }
}

/// The decimal digit for `d < 10`.
pub fn digit(d: u128) -> (c: char)
    requires
        d < 10,
    ensures
        c == digit_char(d as nat),
{
    let b: u8 = 48u8 + d as u8;
    b as char
}

/// The decimal representation of `n`.
pub fn dec_u128(n: u128) -> (r: Vec<char>)
    ensures
        r@ == dec(n as nat),
    decreases n,
{
    if n < 10 {
        let mut r: Vec<char> = Vec::new();
        r.push(digit(n));
        assert(r@ =~= dec(n as nat));
        r
    } else {
        let mut r = dec_u128(n / 10);
        r.push(digit(n % 10));
        r
    }
}

/// The decimal representation of `n`.
pub fn dec_u64(n: u64) -> (r: Vec<char>)
    ensures
        r@ == dec(n as nat),
{
    dec_u128(n as u128)
}

/// The decimal representation of `i`, as `{}` formats an `i32`.
pub fn dec_i32(i: i32) -> (r: Vec<char>)
    ensures
        r@ == int_dec(i as int),
{
    let wide: i64 = i as i64;
    if wide < 0 {
        let mut r: Vec<char> = Vec::new();
        r.push('-');
        let d = dec_u64((-wide) as u64);
        let mut j: usize = 0;
        while j < d.len()
            invariant
                j <= d.len(),
                r@ == seq!['-'] + d@.take(j as int),
            decreases d.len() - j,
        {
            r.push(d[j]);
            assert(d@.take(j + 1) =~= d@.take(j as int).push(d@[j as int]));
            j += 1;
        }
        assert(d@.take(d.len() as int) =~= d@);
        r
    } else {
        dec_u64(wide as u64)
    }
}

// ---------------------------------------------------------------------
// Functions of std whose results are named, not restated
// ---------------------------------------------------------------------

/// What `str::to_lowercase` gives for a string (Unicode lowercase mapping).
pub uninterp spec fn lowercase(s: Seq<char>) -> Seq<char>;

/// ASCII lowercase of one character.
pub open spec fn ascii_lower(c: char) -> char {
    if 'A' <= c <= 'Z' {
        ((c as u32) + 32) as char
    } else {
        c
    }
}

/// Whether all characters are ASCII.
pub open spec fn all_ascii(s: Seq<char>) -> bool {
    forall|i: int| 0 <= i < s.len() ==> (s[i] as u32) < 128
}

/// Calls `str::to_lowercase`. The contract names the result
/// (`lowercase`) and states the one fact its documentation implies for
/// ASCII text: the letters `A`-`Z` become `a`-`z` and nothing else changes.
#[verifier::external_body]
pub fn to_lowercase(s: &str) -> (r: String)
    ensures
        r@ == lowercase(s@),
        all_ascii(s@) ==> r@ == s@.map_values(|c: char| ascii_lower(c)),
{
    s.to_lowercase()
}

/// What `String::from_utf8_lossy` gives for a byte sequence.
pub uninterp spec fn utf8_lossy(b: Seq<u8>) -> Seq<char>;

/// Calls `String::from_utf8_lossy`. The contract names the result
/// (`utf8_lossy`) and states what its documentation promises for valid
/// UTF-8: the text it encodes, unchanged. What replaces invalid sequences
/// is left unsaid.
#[verifier::external_body]
pub fn from_utf8_lossy(b: &[u8]) -> (r: String)
    ensures
        r@ == utf8_lossy(b@),
        valid_utf8(b@) ==> r@ == decode_utf8(b@),
{
    String::from_utf8_lossy(b).into_owned()
}

/// What `char::is_alphanumeric` answers (Unicode `Alphabetic` or
/// `Numeric`).
pub uninterp spec fn alphanumeric(c: char) -> bool;

/// ASCII letters and digits.
pub open spec fn ascii_alnum(c: char) -> bool {
    ('a' <= c <= 'z') || ('A' <= c <= 'Z') || ('0' <= c <= '9')
}

/// Calls `char::is_alphanumeric`. The contract names the result
/// (`alphanumeric`) and states that, on ASCII characters, it holds exactly
/// of letters and digits.
#[verifier::external_body]
pub fn is_alphanumeric(c: char) -> (b: bool)
    ensures
        b == alphanumeric(c),
        (c as u32) < 128 ==> (b == ascii_alnum(c)),
{
    c.is_alphanumeric()
}


// ---------------------------------------------------------------------
// Facts about the token fold
// ---------------------------------------------------------------------

/// The fold is a left fold: the state after a prefix decides the rest.
pub proof fn lemma_fold_append(a: Seq<char>, b: Seq<char>, s: Seq<char>, q: bool)
    requires
        tok_fold(a, q) == tok_fold(b, q),
    ensures
        tok_fold(a + s, q) == tok_fold(b + s, q),
    decreases s.len(),
{
    if s.len() == 0 {
        assert(a + s =~= a);
        assert(b + s =~= b);
    } else {
        lemma_fold_append(a, b, s.drop_last(), q);
        assert((a + s).drop_last() =~= a + s.drop_last());
        assert((b + s).drop_last() =~= b + s.drop_last());
        assert((a + s).last() == s.last());
        assert((b + s).last() == s.last());
    }
}

/// Tokens closed by the fold are non-empty; with quoting no token holds a
/// double quote; without it no quote is ever open and no token holds
/// whitespace.
pub proof fn lemma_fold_tokens(s: Seq<char>, q: bool)
    ensures
        forall|i: int| 0 <= i < tok_fold(s, q).0.len() ==> (#[trigger] tok_fold(s, q).0[i]).len() > 0,
        q ==> forall|i: int|
            0 <= i < tok_fold(s, q).0.len() ==> !(#[trigger] tok_fold(s, q).0[i]).contains('"'),
        q ==> !tok_fold(s, q).1.contains('"'),
        !q ==> !tok_fold(s, q).2,
        !q ==> forall|i: int, j: int|
            0 <= i < tok_fold(s, q).0.len() && 0 <= j < tok_fold(s, q).0[i].len() ==> !is_ws(
                #[trigger] tok_fold(s, q).0[i][j],
            ),
        !q ==> forall|j: int| 0 <= j < tok_fold(s, q).1.len() ==> !is_ws(#[trigger] tok_fold(s, q).1[j]),
    decreases s.len(),
{
    if s.len() > 0 {
        lemma_fold_tokens(s.drop_last(), q);
        let (d, c, inq) = tok_fold(s.drop_last(), q);
        let x = s.last();
        if !(q && x == '"') && !(is_ws(x) && !inq) {
            assert forall|j: int| 0 <= j < c.push(x).len() implies c.push(x)[j] != '"' || !q by {
                if j < c.len() {
                    assert(c.push(x)[j] == c[j]);
                    if q {
                        assert(!c.contains('"'));
                        if c[j] == '"' {
                            assert(c.contains(c[j]));
                        }
                    }
                }
            }
            if q {
                assert(!c.push(x).contains('"'));
            }
        }
    }
}

/// Without double quotes, quoting changes nothing.
pub proof fn lemma_fold_no_quotes(s: Seq<char>)
    requires
        !s.contains('"'),
    ensures
        tok_fold(s, true) == tok_fold(s, false),
    decreases s.len(),
{
    if s.len() > 0 {
        assert(!s.drop_last().contains('"')) by {
            if s.drop_last().contains('"') {
                let k = choose|k: int| 0 <= k < s.drop_last().len() && s.drop_last()[k] == '"';
                assert(s[k] == '"');
            }
        }
        lemma_fold_no_quotes(s.drop_last());
        lemma_fold_tokens(s.drop_last(), false);
        assert(s.last() != '"') by {
            assert(s[s.len() - 1] == s.last());
        }
    }
}

/// Leading whitespace does not change the fold without quoting.
pub proof fn lemma_fold_trim_start(s: Seq<char>)
    ensures
        tok_fold(trim_start(s), false) == tok_fold(s, false),
    decreases s.len(),
{
    if s.len() > 0 && is_ws(s[0]) {
        let head = seq![s[0]];
        let e: Seq<char> = seq![];
        assert(head.drop_last() =~= e);
        assert(tok_fold(head, false) == tok_fold(e, false));
        lemma_fold_append(head, e, s.drop_first(), false);
        assert(head + s.drop_first() =~= s);
        assert(e + s.drop_first() =~= s.drop_first());
        lemma_fold_trim_start(s.drop_first());
    }
}

/// Trailing whitespace does not change the tokens without quoting.
pub proof fn lemma_fold_trim_end(s: Seq<char>)
    ensures
        tok_finish(tok_fold(trim_end(s), false)) == tok_finish(tok_fold(s, false)),
    decreases s.len(),
{
    if s.len() > 0 && is_ws(s.last()) {
        lemma_fold_tokens(s.drop_last(), false);
        lemma_fold_trim_end(s.drop_last());
    }
}

/// `trim_start(s)` is a suffix of `s`.
pub proof fn lemma_trim_start_suffix(s: Seq<char>)
    ensures
        trim_start(s).len() <= s.len(),
        trim_start(s) == s.subrange(s.len() - trim_start(s).len(), s.len() as int),
    decreases s.len(),
{
    if s.len() > 0 && is_ws(s[0]) {
        lemma_trim_start_suffix(s.drop_first());
        let t = trim_start(s.drop_first());
        assert(s.drop_first().subrange(s.len() - 1 - t.len(), s.len() - 1) =~= s.subrange(
            s.len() - t.len(),
            s.len() as int,
        ));
    } else {
        assert(s.subrange(0, s.len() as int) =~= s);
    }
}

/// `trim_end(s)` is a prefix of `s`.
pub proof fn lemma_trim_end_prefix(s: Seq<char>)
    ensures
        trim_end(s).len() <= s.len(),
        trim_end(s) == s.subrange(0, trim_end(s).len() as int),
    decreases s.len(),
{
    if s.len() > 0 && is_ws(s.last()) {
        lemma_trim_end_prefix(s.drop_last());
        let t = trim_end(s.drop_last());
        assert(s.drop_last().subrange(0, t.len() as int) =~= s.subrange(0, t.len() as int));
    } else {
        assert(s.subrange(0, s.len() as int) =~= s);
    }
}

/// A character absent from `s` is absent from `trim(s)`.
pub proof fn lemma_trim_keeps_absent(s: Seq<char>, c: char)
    requires
        !s.contains(c),
    ensures
        !trim(s).contains(c),
{
    lemma_trim_start_suffix(s);
    let t = trim_start(s);
    lemma_trim_end_prefix(t);
    if trim(s).contains(c) {
        let k = choose|k: int| 0 <= k < trim(s).len() && trim(s)[k] == c;
        assert(t[k] == c);
        assert(s[s.len() - t.len() + k] == c);
    }
}

/// Splitting at whitespace ignores leading and trailing whitespace.
pub proof fn lemma_split_ws_trim(s: Seq<char>)
    ensures
        split_ws(trim(s)) == split_ws(s),
{
    lemma_fold_trim_start(s);
    lemma_fold_trim_end(trim_start(s));
}

/// A text that neither starts nor ends with whitespace is its own trim.
pub proof fn lemma_trim_identity(s: Seq<char>)
    requires
        s.len() > 0,
        !is_ws(s[0]),
        !is_ws(s.last()),
    ensures
        trim(s) == s,
{
}

/// Reading text without double quotes inside an open quote appends it to
/// the pending token.
pub proof fn lemma_fold_in_quotes(a: Seq<char>, w: Seq<char>)
    requires
        tok_fold(a, true).2,
        !w.contains('"'),
    ensures
        tok_fold(a + w, true) == (tok_fold(a, true).0, tok_fold(a, true).1 + w, true),
    decreases w.len(),
{
    if w.len() == 0 {
        assert(a + w =~= a);
        assert(tok_fold(a, true).1 + w =~= tok_fold(a, true).1);
    } else {
        assert(!w.drop_last().contains('"')) by {
            if w.drop_last().contains('"') {
                let k = choose|k: int| 0 <= k < w.drop_last().len() && w.drop_last()[k] == '"';
                assert(w[k] == '"');
            }
        }
        lemma_fold_in_quotes(a, w.drop_last());
        assert((a + w).drop_last() =~= a + w.drop_last());
        assert((a + w).last() == w.last());
        assert(w.last() != '"') by {
            assert(w[w.len() - 1] == w.last());
        }
        assert(tok_fold(a, true).1 + w.drop_last() + seq![w.last()] =~= tok_fold(a, true).1 + w);
        assert((tok_fold(a, true).1 + w.drop_last()).push(w.last()) =~= tok_fold(a, true).1 + w);
    }
}


// ---------------------------------------------------------------------
// Facts about lines
// ---------------------------------------------------------------------

/// Lines, each followed by a newline.
pub open spec fn unlines(ls: Seq<Seq<char>>) -> Seq<char>
    decreases ls.len(),
{
    if ls.len() == 0 {
        seq![]
    } else {
        unlines(ls.drop_last()) + ls.last() + seq!['\n']
    }
}

/// Whether a text can be a line read back unchanged: no newline in it and
/// no carriage return at its end.
pub open spec fn plain_line(l: Seq<char>) -> bool {
    !l.contains('\n') && (l.len() == 0 || l.last() != '\r')
}

/// Text without a newline leaves the reader in the middle of one line.
proof fn lemma_lines_fold_no_newline(l: Seq<char>)
    requires
        !l.contains('\n'),
    ensures
        lines_fold(l) == (Seq::<Seq<char>>::empty(), l),
    decreases l.len(),
{
    if l.len() > 0 {
        assert(!l.drop_last().contains('\n')) by {
            if l.drop_last().contains('\n') {
                let k = choose|k: int| 0 <= k < l.drop_last().len() && l.drop_last()[k] == '\n';
                assert(l[k] == '\n');
            }
        }
        lemma_lines_fold_no_newline(l.drop_last());
        assert(l.last() != '\n') by {
            assert(l[l.len() - 1] == l.last());
        }
        assert(l.drop_last().push(l.last()) =~= l);
    }
}

/// Reading on after a newline starts afresh.
proof fn lemma_lines_fold_append(a: Seq<char>, b: Seq<char>)
    requires
        lines_fold(a).1.len() == 0,
    ensures
        lines_fold(a + b) == (lines_fold(a).0 + lines_fold(b).0, lines_fold(b).1),
    decreases b.len(),
{
    if b.len() == 0 {
        assert(a + b =~= a);
        assert(lines_fold(a).0 + lines_fold(b).0 =~= lines_fold(a).0);
    } else {
        lemma_lines_fold_append(a, b.drop_last());
        assert((a + b).drop_last() =~= a + b.drop_last());
        assert((a + b).last() == b.last());
        let (d, c) = lines_fold(b.drop_last());
        if b.last() == '\n' {
            assert(lines_fold(a).0 + d.push(strip_cr(c)) =~= (lines_fold(a).0 + d).push(strip_cr(c)));
        }
    }
}

/// Lines written each followed by a newline read back as themselves.
pub proof fn lemma_lines_unlines(ls: Seq<Seq<char>>)
    requires
        forall|i: int| 0 <= i < ls.len() ==> plain_line(#[trigger] ls[i]),
    ensures
        lines_fold(unlines(ls)) == (ls, Seq::<char>::empty()),
        lines(unlines(ls)) == ls,
    decreases ls.len(),
{
    if ls.len() == 0 {
        assert(lines_fold(unlines(ls)).0 =~= ls);
    } else {
        lemma_lines_unlines(ls.drop_last());
        let l = ls.last();
        assert(plain_line(ls[ls.len() - 1]));
        let ln = l + seq!['\n'];
        lemma_lines_fold_no_newline(l);
        assert(ln.drop_last() =~= l);
        assert(lines_fold(ln) == (seq![strip_cr(l)], Seq::<char>::empty()));
        assert(strip_cr(l) == l);
        lemma_lines_fold_append(unlines(ls.drop_last()), ln);
        assert(unlines(ls) =~= unlines(ls.drop_last()) + ln);
        assert(ls.drop_last() + seq![l] =~= ls);
    }
}

/// Lines joined with newlines, then ended with one, are the lines each
/// followed by a newline.
pub proof fn lemma_join_unlines(ls: Seq<Seq<char>>)
    requires
        ls.len() > 0,
    ensures
        join(ls, seq!['\n']) + seq!['\n'] == unlines(ls),
    decreases ls.len(),
{
    if ls.len() == 1 {
        assert(ls.drop_last() =~= Seq::<Seq<char>>::empty());
        assert(unlines(ls.drop_last()) == Seq::<char>::empty());
        assert(ls.last() == ls[0]);
        assert(unlines(ls) =~= Seq::<char>::empty() + ls[0] + seq!['\n']);
    } else {
        lemma_join_unlines(ls.drop_last());
        assert(join(ls, seq!['\n']) + seq!['\n'] =~= (join(ls.drop_last(), seq!['\n']) + seq!['\n'])
            + ls.last() + seq!['\n']);
    }
}

/// Whitespace added at the end of a text does not change its trim.
pub proof fn lemma_trim_push_ws(s: Seq<char>, c: char)
    requires
        is_ws(c),
    ensures
        trim(s.push(c)) == trim(s),
    decreases s.len(),
{
    let t = s.push(c);
    if s.len() == 0 {
        assert(t.drop_first() =~= Seq::<char>::empty());
        assert(trim_start(t) == trim_start(Seq::<char>::empty()));
    } else if is_ws(s[0]) {
        assert(t.drop_first() =~= s.drop_first().push(c));
        lemma_trim_push_ws(s.drop_first(), c);
    } else {
        assert(t[0] == s[0]);
        assert(t.drop_last() =~= s);
    }
}

/// The carriage return that `lines` drops does not change a line's trim.
pub proof fn lemma_trim_strip_cr(l: Seq<char>)
    ensures
        trim(strip_cr(l)) == trim(l),
{
    if l.len() > 0 && l.last() == '\r' {
        assert(l.drop_last().push('\r') =~= l);
        lemma_trim_push_ws(l.drop_last(), '\r');
    }
}

/// The lines of a text, each without a carriage return at its end.
pub open spec fn strip_crs(ls: Seq<Seq<char>>) -> Seq<Seq<char>> {
    ls.map_values(|l: Seq<char>| strip_cr(l))
}

/// Lines without newlines, each written followed by a newline, read back
/// as themselves, less a carriage return at their end.
pub proof fn lemma_lines_unlines_cr(ls: Seq<Seq<char>>)
    requires
        forall|i: int| 0 <= i < ls.len() ==> !(#[trigger] ls[i]).contains('\n'),
    ensures
        lines_fold(unlines(ls)) == (strip_crs(ls), Seq::<char>::empty()),
        lines(unlines(ls)) == strip_crs(ls),
    decreases ls.len(),
{
    if ls.len() == 0 {
        assert(lines_fold(unlines(ls)).0 =~= strip_crs(ls));
    } else {
        lemma_lines_unlines_cr(ls.drop_last());
        let l = ls.last();
        assert(!ls[ls.len() - 1].contains('\n'));
        let ln = l + seq!['\n'];
        lemma_lines_fold_no_newline(l);
        assert(ln.drop_last() =~= l);
        assert(lines_fold(ln) == (seq![strip_cr(l)], Seq::<char>::empty()));
        lemma_lines_fold_append(unlines(ls.drop_last()), ln);
        assert(unlines(ls) =~= unlines(ls.drop_last()) + ln);
        assert(strip_crs(ls.drop_last()) + seq![strip_cr(l)] =~= strip_crs(ls));
    }
}

/// No line that reading a text gives holds a newline.
pub proof fn lemma_lines_no_newline(s: Seq<char>)
    ensures
        forall|i: int| 0 <= i < lines(s).len() ==> !(#[trigger] lines(s)[i]).contains('\n'),
{
    lemma_lines_fold_no_newline_parts(s);
}

proof fn lemma_lines_fold_no_newline_parts(s: Seq<char>)
    ensures
        forall|i: int| 0 <= i < lines_fold(s).0.len() ==> !(#[trigger] lines_fold(s).0[i]).contains('\n'),
        !lines_fold(s).1.contains('\n'),
    decreases s.len(),
{
    if s.len() > 0 {
        lemma_lines_fold_no_newline_parts(s.drop_last());
        let (d, c) = lines_fold(s.drop_last());
        if s.last() == '\n' {
            let sc = strip_cr(c);
            assert(!sc.contains('\n')) by {
                if sc.contains('\n') {
                    let k = choose|k: int| 0 <= k < sc.len() && sc[k] == '\n';
                    assert(c[k] == '\n');
                }
            }
            let nd = d.push(sc);
            assert forall|i: int| 0 <= i < nd.len() implies !(#[trigger] nd[i]).contains('\n') by {
                if i < d.len() {
                    assert(nd[i] == d[i]);
                }
            }
            assert(!Seq::<char>::empty().contains('\n'));
        } else {
            let nc = c.push(s.last());
            assert(!nc.contains('\n')) by {
                if nc.contains('\n') {
                    let k = choose|k: int| 0 <= k < nc.len() && nc[k] == '\n';
                    if k < c.len() {
                        assert(c[k] == '\n');
                    }
                }
            }
        }
    }
}

} // verus!
