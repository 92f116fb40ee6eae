//! Verified character-level text utilities: comparison, prefix and suffix
//! tests, substring search, splitting, trimming, and decimal conversion.
//!
//! All contracts are stated over the `Seq<char>` views of `&str` and
//! `String`.

use vstd::prelude::*;
use vstd::string::StrSliceExecFns;
use vstd::string::StringExecFns;

verus! {

// ---------------------------------------------------------------------------
// Character classes and case folding
// ---------------------------------------------------------------------------

/// The code of `c` with an ASCII upper-case letter folded to lower case.
pub open spec fn lower_code(c: char) -> u32 {
    if 65 <= c as u32 && c as u32 <= 90 {
        (c as u32 + 32) as u32
    } else {
        c as u32
    }
}

/// ASCII-case-insensitive equality of two character sequences.
pub open spec fn lower_eq(a: Seq<char>, b: Seq<char>) -> bool {
    a.len() == b.len() && forall|i: int| 0 <= i < a.len() ==> lower_code(a[i]) == lower_code(b[i])
}

fn lower_code_exec(c: char) -> (r: u32)
    ensures
        r == lower_code(c),
{
    let u = c as u32;
    if 65 <= u && u <= 90 {
        u + 32
    } else {
        u
    }
}

/// Compares two strings ignoring ASCII case.
pub fn eq_ignore_case(a: &str, b: &str) -> (r: bool)
    ensures
        r == lower_eq(a@, b@),
{
    let an = a.unicode_len();
    let bn = b.unicode_len();
    if an != bn {
        return false;
    }
    let mut i: usize = 0;
    while i < an
        invariant
            an == a@.len(),
            bn == b@.len(),
            an == bn,
            0 <= i <= an,
            forall|j: int| 0 <= j < i ==> lower_code(a@[j]) == lower_code(b@[j]),
        decreases an - i,
    {
        let la = lower_code_exec(a.get_char(i));
        let lb = lower_code_exec(b.get_char(i));
        if la != lb {
            return false;
        }
        i += 1;
    }
    true
}

/// Compares two strings character by character.
pub fn str_eq(a: &str, b: &str) -> (r: bool)
    ensures
        r == (a@ == b@),
{
    let an = a.unicode_len();
    let bn = b.unicode_len();
    if an != bn {
        return false;
    }
    let mut i: usize = 0;
    while i < an
        invariant
            an == a@.len(),
            bn == b@.len(),
            an == bn,
            0 <= i <= an,
            forall|j: int| 0 <= j < i ==> a@[j] == b@[j],
        decreases an - i,
    {
        if a.get_char(i) != b.get_char(i) {
            return false;
        }
        i += 1;
    }
    proof {
        assert(a@ =~= b@);
    }
    true
}

// ---------------------------------------------------------------------------
// Prefix, suffix, substring
// ---------------------------------------------------------------------------

/// Tests whether `p` is a prefix of `s`.
pub fn str_starts_with(s: &str, p: &str) -> (r: bool)
    ensures
        r == p@.is_prefix_of(s@),
{
    let sn = s.unicode_len();
    let pn = p.unicode_len();
    if pn > sn {
        return false;
    }
    let mut i: usize = 0;
    while i < pn
        invariant
            sn == s@.len(),
            pn == p@.len(),
            pn <= sn,
            0 <= i <= pn,
            forall|j: int| 0 <= j < i ==> s@[j] == p@[j],
        decreases pn - i,
    {
        if s.get_char(i) != p.get_char(i) {
            proof {
                assert(s@.subrange(0, pn as int)[i as int] != p@[i as int]);
            }
            return false;
        }
        i += 1;
    }
    proof {
        assert(p@ =~= s@.subrange(0, pn as int));
    }
    true
}

/// Tests whether `p` is a suffix of `s`.
pub fn str_ends_with(s: &str, p: &str) -> (r: bool)
    ensures
        r == p@.is_suffix_of(s@),
{
    let sn = s.unicode_len();
    let pn = p.unicode_len();
    if pn > sn {
        return false;
    }
    let off = sn - pn;
    let mut i: usize = 0;
    while i < pn
        invariant
            sn == s@.len(),
            pn == p@.len(),
            pn <= sn,
            off == sn - pn,
            0 <= i <= pn,
            forall|j: int| 0 <= j < i ==> s@[off + j] == p@[j],
        decreases pn - i,
    {
        if s.get_char(off + i) != p.get_char(i) {
            proof {
                assert(s@.subrange(off as int, sn as int)[i as int] != p@[i as int]);
            }
            return false;
        }
        i += 1;
    }
    proof {
        assert(p@ =~= s@.subrange(off as int, sn as int));
    }
    true
}

/// The characters of `s` from position `n` on, as an owned string.
pub fn skip_chars(s: &str, n: usize) -> (r: String)
    requires
        n <= s@.len(),
    ensures
        r@ == s@.skip(n as int),
{
    let sn = s.unicode_len();
    let r = s.substring_char(n, sn).to_owned();
    proof {
        assert(s@.subrange(n as int, sn as int) =~= s@.skip(n as int));
    }
    r
}

/// Whether `sub` occurs contiguously anywhere in `s`.
pub open spec fn contains_seq(s: Seq<char>, sub: Seq<char>) -> bool {
    exists|i: int| 0 <= i && i + sub.len() <= s.len() && #[trigger] s.subrange(
        i,
        i + sub.len() as int,
    ) == sub
}

/// Substring search; `r` holds exactly when `sub` occurs in `s`.
pub fn str_contains(s: &str, sub: &str) -> (r: bool)
    ensures
        r == contains_seq(s@, sub@),
{
    let n = s.unicode_len();
    let m = sub.unicode_len();
    if m == 0 {
        proof {
            assert(s@.subrange(0, 0 + sub@.len() as int) =~= sub@);
        }
        return true;
    }
    if m > n {
        return false;
    }
    let last = n - m;
    let mut i: usize = 0;
    while i <= last
        invariant
            n == s@.len(),
            m == sub@.len(),
            0 < m <= n,
            last == n - m,
            0 <= i <= last + 1,
            forall|j: int|
                0 <= j < i ==> #[trigger] s@.subrange(j, j + sub@.len() as int) != sub@,
        decreases last + 1 - i,
    {
        let mut k: usize = 0;
        let mut hit = true;
        while hit && k < m
            invariant
                n == s@.len(),
                m == sub@.len(),
                0 <= i <= last,
                last == n - m,
                0 <= k <= m,
                hit ==> forall|t: int| 0 <= t < k ==> s@[i + t] == sub@[t],
                !hit ==> s@.subrange(i as int, i + sub@.len() as int) != sub@,
            decreases m - k + (if hit { 1int } else { 0int }),
        {
            if s.get_char(i + k) != sub.get_char(k) {
                proof {
                    assert(s@.subrange(i as int, i + sub@.len() as int)[k as int] != sub@[k as int]);
                }
                hit = false;
            } else {
                k += 1;
            }
        }
        if hit {
            proof {
                assert(s@.subrange(i as int, i + sub@.len() as int) =~= sub@);
            }
            return true;
        }
        i += 1;
    }
    false
}

// ---------------------------------------------------------------------------
// Trimming
// ---------------------------------------------------------------------------

/// `s` with every trailing `'/'` removed.
pub open spec fn spec_trim_end_slashes(s: Seq<char>) -> Seq<char>
    decreases s.len(),
{
    if s.len() > 0 && s[s.len() - 1] == '/' {
        spec_trim_end_slashes(s.drop_last())
    } else {
        s
    }
}

/// Removes every trailing `'/'` from `s`.
pub fn trim_end_slashes(s: &str) -> (r: String)
    ensures
        r@ == spec_trim_end_slashes(s@),
{
    let n = s.unicode_len();
    let mut k: usize = n;
    proof {
        assert(s@.take(n as int) =~= s@);
    }
    while k > 0 && s.get_char(k - 1) == '/'
        invariant
            n == s@.len(),
            0 <= k <= n,
            spec_trim_end_slashes(s@) == spec_trim_end_slashes(s@.take(k as int)),
        decreases k,
    {
        proof {
            assert(s@.take(k as int).drop_last() =~= s@.take(k - 1));
            assert(s@.take(k as int)[k - 1] == s@[k - 1]);
        }
        k -= 1;
    }
    let r = s.substring_char(0, k).to_owned();
    proof {
        assert(s@.subrange(0, k as int) =~= s@.take(k as int));
    }
    r
}

/// An ASCII whitespace character, as `str::trim` treats the ASCII range.
pub open spec fn is_space(c: char) -> bool {
    c == ' ' || c == '\t' || c == '\n' || c == '\r' || c as u32 == 11 || c as u32 == 12
}

fn is_space_exec(c: char) -> (r: bool)
    ensures
        r == is_space(c),
{
    let u = c as u32;
    u == 32 || u == 9 || u == 10 || u == 13 || u == 11 || u == 12
}

/// `s` with leading and trailing whitespace removed: the characters from the
/// first to the last non-space position.
pub open spec fn spec_trim(s: Seq<char>) -> Seq<char> {
    spec_trim_start(spec_trim_end(s))
}

/// `s` with trailing whitespace removed.
pub open spec fn spec_trim_end(s: Seq<char>) -> Seq<char>
    decreases s.len(),
{
    if s.len() > 0 && is_space(s[s.len() - 1]) {
        spec_trim_end(s.drop_last())
    } else {
        s
    }
}

/// `s` with leading whitespace removed.
pub open spec fn spec_trim_start(s: Seq<char>) -> Seq<char>
    decreases s.len(),
{
    if s.len() > 0 && is_space(s[0]) {
        spec_trim_start(s.drop_first())
    } else {
        s
    }
}

/// Removes leading and trailing whitespace from `s`.
pub fn trim_spaces(s: &str) -> (r: String)
    ensures
        r@ == spec_trim(s@),
{
    let n = s.unicode_len();
    let mut k: usize = n;
    proof {
        assert(s@.take(n as int) =~= s@);
    }
    while k > 0 && is_space_exec(s.get_char(k - 1))
        invariant
            n == s@.len(),
            0 <= k <= n,
            spec_trim_end(s@) == spec_trim_end(s@.take(k as int)),
        decreases k,
    {
        proof {
            assert(s@.take(k as int).drop_last() =~= s@.take(k - 1));
            assert(s@.take(k as int)[k - 1] == s@[k - 1]);
        }
        k -= 1;
    }
    // Here spec_trim_end(s@) == s@.take(k), since position k - 1 is not a space.
    let ghost te = s@.take(k as int);
    let mut j: usize = 0;
    proof {
        assert(te.skip(0) =~= te);
    }
    while j < k && is_space_exec(s.get_char(j))
        invariant
            n == s@.len(),
            0 <= j <= k <= n,
            te == s@.take(k as int),
            spec_trim_start(te) == spec_trim_start(te.skip(j as int)),
        decreases k - j,
    {
        proof {
            assert(te.skip(j as int).drop_first() =~= te.skip(j + 1));
            assert(te.skip(j as int)[0] == s@[j as int]);
        }
        j += 1;
    }
    let r = s.substring_char(j, k).to_owned();
    proof {
        assert(s@.subrange(j as int, k as int) =~= te.skip(j as int));
        if j < k {
            assert(te.skip(j as int)[0] == s@[j as int]);
        }
    }
    r
}

// ---------------------------------------------------------------------------
// Concatenation
// ---------------------------------------------------------------------------

/// Concatenates two strings.
pub fn str_concat(a: &str, b: &str) -> (r: String)
    ensures
        r@ == a@ + b@,
{
    let mut s = a.to_owned();
    s.append(b);
    s
}

// ---------------------------------------------------------------------------
// Splitting
// ---------------------------------------------------------------------------

/// The position of the first occurrence of `sep` in `s`, or `s.len()` if
/// there is none.
pub open spec fn first_at(s: Seq<char>, sep: char) -> int
    decreases s.len(),
{
    if s.len() == 0 {
        0
    } else if s[0] == sep {
        0
    } else {
        1 + first_at(s.drop_first(), sep)
    }
}

pub proof fn lemma_first_at(s: Seq<char>, sep: char)
    ensures
        0 <= first_at(s, sep) <= s.len(),
        first_at(s, sep) < s.len() ==> s[first_at(s, sep)] == sep,
        forall|j: int| 0 <= j < first_at(s, sep) ==> s[j] != sep,
    decreases s.len(),
{
    if s.len() > 0 && s[0] != sep {
        lemma_first_at(s.drop_first(), sep);
        assert forall|j: int| 0 <= j < first_at(s, sep) implies s[j] != sep by {
            if j > 0 {
                assert(s.drop_first()[j - 1] == s[j]);
            }
        }
    }
}

/// The first occurrence of `sep` is at `k` when no earlier position holds it.
pub proof fn lemma_first_at_is(s: Seq<char>, sep: char, k: int)
    requires
        0 <= k <= s.len(),
        forall|j: int| 0 <= j < k ==> s[j] != sep,
        k < s.len() ==> s[k] == sep,
    ensures
        first_at(s, sep) == k,
    decreases k,
{
    if k > 0 {
        assert(s[0] != sep);
        assert forall|j: int| 0 <= j < k - 1 implies s.drop_first()[j] != sep by {
            assert(s.drop_first()[j] == s[j + 1]);
        }
        if k - 1 < s.drop_first().len() {
            assert(s.drop_first()[k - 1] == s[k]);
        }
        lemma_first_at_is(s.drop_first(), sep, k - 1);
    } else {
        if s.len() > 0 {
            assert(s[0] == sep);
        }
    }
}

#[via_fn]
proof fn spec_split_decreases(s: Seq<char>, sep: char) {
    lemma_first_at(s, sep);
}

/// `s` split at every occurrence of `sep`: always at least one part, and a
/// part for each side of each separator, so `""` gives one empty part.
pub open spec fn spec_split(s: Seq<char>, sep: char) -> Seq<Seq<char>>
    decreases s.len(),
    via spec_split_decreases
{
    let i = first_at(s, sep);
    if i == s.len() {
        seq![s]
    } else {
        seq![s.take(i)] + spec_split(s.skip(i + 1), sep)
    }
}

/// Every split has at least one part.
pub proof fn lemma_split_nonempty(s: Seq<char>, sep: char)
    ensures
        spec_split(s, sep).len() >= 1,
{
    lemma_first_at(s, sep);
}

/// The views of a sequence of owned strings.
pub open spec fn str_views(v: Seq<String>) -> Seq<Seq<char>> {
    Seq::new(v.len(), |i: int| v[i]@)
}

/// Splits `s` at every occurrence of `sep`.
pub fn split_on(s: &str, sep: char) -> (r: Vec<String>)
    ensures
        str_views(r@) == spec_split(s@, sep),
{
    let n = s.unicode_len();
    let mut out: Vec<String> = Vec::new();
    let mut start: usize = 0;
    let mut i: usize = 0;
    proof {
        assert(s@.skip(0) =~= s@);
        assert(str_views(out@) =~= Seq::<Seq<char>>::empty());
        assert(Seq::<Seq<char>>::empty() + spec_split(s@, sep) =~= spec_split(s@, sep));
    }
    while i < n
        invariant
            n == s@.len(),
            0 <= start <= i <= n,
            forall|j: int| start <= j < i ==> s@[j] != sep,
            str_views(out@) + spec_split(s@.skip(start as int), sep) == spec_split(s@, sep),
        decreases n - i,
    {
        if s.get_char(i) == sep {
            let part = s.substring_char(start, i).to_owned();
            proof {
                let rem = s@.skip(start as int);
                assert forall|j: int| 0 <= j < i - start implies rem[j] != sep by {
                    assert(rem[j] == s@[start + j]);
                }
                assert(rem[i - start] == s@[i as int]);
                lemma_first_at_is(rem, sep, i - start);
                assert(rem.take(i - start) =~= s@.subrange(start as int, i as int));
                assert(rem.skip(i - start + 1) =~= s@.skip(i + 1));
                assert(spec_split(rem, sep) == seq![rem.take(i - start)] + spec_split(
                    s@.skip(i + 1),
                    sep,
                ));
            }
            out.push(part);
            proof {
                assert(str_views(out@) =~= str_views(out@.drop_last()) + seq![
                    s@.subrange(start as int, i as int),
                ]);
            }
            start = i + 1;
        }
        i += 1;
    }
    let part = s.substring_char(start, n).to_owned();
    proof {
        let rem = s@.skip(start as int);
        assert forall|j: int| 0 <= j < n - start implies rem[j] != sep by {
            assert(rem[j] == s@[start + j]);
        }
        lemma_first_at_is(rem, sep, n - start);
        assert(spec_split(rem, sep) == seq![rem]);
        assert(rem =~= s@.subrange(start as int, n as int));
    }
    out.push(part);
    proof {
        assert(str_views(out@) =~= str_views(out@.drop_last()) + seq![
            s@.subrange(start as int, n as int),
        ]);
        assert(str_views(out@) =~= spec_split(s@, sep));
    }
    out
}

// ---------------------------------------------------------------------------
// Lines
// ---------------------------------------------------------------------------

/// `l` with one trailing `'\r'` removed, as `str::lines` strips it.
pub open spec fn strip_cr(l: Seq<char>) -> Seq<char> {
    if l.len() > 0 && l[l.len() - 1] == '\r' {
        l.drop_last()
    } else {
        l
    }
}

/// The lines of `s`, split at `'\n'`, each stripped of one trailing `'\r'`,
/// with no final empty line for text that ends in a newline.
pub open spec fn spec_lines(s: Seq<char>) -> Seq<Seq<char>> {
    if s.len() == 0 {
        Seq::empty()
    } else {
        let parts = spec_split(s, '\n');
        let kept = if parts[parts.len() - 1].len() == 0 {
            parts.drop_last()
        } else {
            parts
        };
        Seq::new(kept.len(), |i: int| strip_cr(kept[i]))
    }
}

/// Splits `s` into lines as `str::lines` does.
pub fn split_lines(s: &str) -> (r: Vec<String>)
    ensures
        str_views(r@) == spec_lines(s@),
{
    if s.is_empty() {
        let r: Vec<String> = Vec::new();
        proof {
            assert(str_views(r@) =~= spec_lines(s@));
        }
        return r;
    }
    let mut parts = split_on(s, '\n');
    proof {
        lemma_split_nonempty(s@, '\n');
        assert(parts@.len() == str_views(parts@).len());
    }
    let plen = parts.len();
    if parts[plen - 1].as_str().is_empty() {
        proof {
            assert(str_views(parts@)[plen - 1] == parts@[plen - 1]@);
        }
        parts.pop();
        proof {
            assert(str_views(parts@) =~= spec_split(s@, '\n').drop_last());
        }
    }
    let ghost kept = str_views(parts@);
    let mut i: usize = 0;
    while i < parts.len()
        invariant
            0 <= i <= parts@.len(),
            parts@.len() == kept.len(),
            forall|j: int| 0 <= j < i ==> parts@[j]@ == strip_cr(kept[j]),
            forall|j: int| i <= j < kept.len() ==> parts@[j]@ == kept[j],
        decreases parts@.len() - i,
    {
        let line_len = parts[i].as_str().unicode_len();
        if line_len > 0 && parts[i].as_str().get_char(line_len - 1) == '\r' {
            let t = parts[i].as_str().substring_char(0, line_len - 1).to_owned();
            proof {
                assert(parts@[i as int]@.subrange(0, line_len - 1) =~= kept[i as int].drop_last());
            }
            parts.set(i, t);
        }
        i += 1;
    }
    proof {
        assert(str_views(parts@) =~= spec_lines(s@));
    }
    parts
}

// ---------------------------------------------------------------------------
// Decimal numbers
// ---------------------------------------------------------------------------

/// The decimal digit character for `d`.
pub open spec fn digit_char(d: int) -> char {
    if d == 0 {
        '0'
    } else if d == 1 {
        '1'
    } else if d == 2 {
        '2'
    } else if d == 3 {
        '3'
    } else if d == 4 {
        '4'
    } else if d == 5 {
        '5'
    } else if d == 6 {
        '6'
    } else if d == 7 {
        '7'
    } else if d == 8 {
        '8'
    } else {
        '9'
    }
}

/// The decimal digits of `n`, most significant first.
pub open spec fn spec_dec(n: int) -> Seq<char>
    decreases n,
{
    if n < 10 {
        seq![digit_char(n)]
    } else {
        spec_dec(n / 10) + seq![digit_char(n % 10)]
    }
}

fn digit_str(d: u32) -> (r: &'static str)
    requires
        d < 10,
    ensures
        r@ =~= seq![digit_char(d as int)],
{
    let r: &'static str = if d == 0 {
        "0"
    } else if d == 1 {
        "1"
    } else if d == 2 {
        "2"
    } else if d == 3 {
        "3"
    } else if d == 4 {
        "4"
    } else if d == 5 {
        "5"
    } else if d == 6 {
        "6"
    } else if d == 7 {
        "7"
    } else if d == 8 {
        "8"
    } else {
        "9"
    };
    proof {
        reveal_strlit("0");
        reveal_strlit("1");
        reveal_strlit("2");
        reveal_strlit("3");
        reveal_strlit("4");
        reveal_strlit("5");
        reveal_strlit("6");
        reveal_strlit("7");
        reveal_strlit("8");
        reveal_strlit("9");
        assert(r@ =~= seq![digit_char(d as int)]);
    }
    r
}

fn push_decimal(n: u32, out: &mut String)
    ensures
        final(out)@ == old(out)@ + spec_dec(n as int),
    decreases n,
{
    if n < 10 {
        out.append(digit_str(n));
    } else {
        push_decimal(n / 10, out);
        out.append(digit_str(n % 10));
        proof {
            assert(old(out)@ + spec_dec(n as int / 10) + seq![digit_char(n as int % 10)] =~= old(
                out,
            )@ + spec_dec(n as int));
        }
    }
}

/// The decimal representation of `n`.
pub fn decimal_string(n: u32) -> (r: String)
    ensures
        r@ == spec_dec(n as int),
{
    let mut s = String::new();
    push_decimal(n, &mut s);
    proof {
        assert(Seq::<char>::empty() + spec_dec(n as int) =~= spec_dec(n as int));
    }
    s
}

// ---------------------------------------------------------------------------
// Parsing unsigned numbers
// ---------------------------------------------------------------------------

/// A decimal digit character.
pub open spec fn is_digit(c: char) -> bool {
    48 <= c as u32 && c as u32 <= 57
}

/// The numeric value of a digit character.
pub open spec fn digit_val(c: char) -> int {
    c as u32 - 48
}

/// Whether every character of `s` is a decimal digit.
pub open spec fn all_digits(s: Seq<char>) -> bool {
    forall|i: int| 0 <= i < s.len() ==> is_digit(s[i])
}

/// The value of `s` read as decimal digits.
pub open spec fn digits_val(s: Seq<char>) -> int
    decreases s.len(),
{
    if s.len() == 0 {
        0
    } else {
        digits_val(s.drop_last()) * 10 + digit_val(s[s.len() - 1])
    }
}

/// The value of a non-empty all-digit string, when it fits in `u32`.
pub open spec fn spec_parse_u32(s: Seq<char>) -> Option<u32> {
    if s.len() > 0 && all_digits(s) && digits_val(s) <= u32::MAX {
        Some(digits_val(s) as u32)
    } else {
        None
    }
}

proof fn lemma_digits_val_nonneg(s: Seq<char>)
    requires
        all_digits(s),
    ensures
        digits_val(s) >= 0,
    decreases s.len(),
{
    if s.len() > 0 {
        lemma_digits_val_nonneg(s.drop_last());
    }
}

proof fn lemma_digits_val_prefix_le(s: Seq<char>, k: int)
    requires
        all_digits(s),
        0 <= k <= s.len(),
    ensures
        digits_val(s.take(k)) <= digits_val(s),
    decreases s.len() - k,
{
    if k < s.len() {
        lemma_digits_val_prefix_le(s, k + 1);
        assert(s.take(k + 1).drop_last() =~= s.take(k));
        assert(forall|i: int| 0 <= i < k ==> s.take(k)[i] == s[i]);
        lemma_digits_val_nonneg(s.take(k));
    } else {
        assert(s.take(k) =~= s);
    }
}

/// Parses `s` as an unsigned decimal number: digits only, no sign, no
/// surrounding space, value at most `u32::MAX`.
pub fn parse_u32_digits(s: &str) -> (r: Option<u32>)
    ensures
        r == spec_parse_u32(s@),
{
    let n = s.unicode_len();
    if n == 0 {
        return None;
    }
    let mut acc: u64 = 0;
    let mut i: usize = 0;
    while i < n
        invariant
            n == s@.len(),
            0 < n,
            0 <= i <= n,
            forall|j: int| 0 <= j < i ==> is_digit(s@[j]),
            acc == digits_val(s@.take(i as int)),
            acc <= u32::MAX,
        decreases n - i,
    {
        let c = s.get_char(i);
        let u = c as u32;
        if u < 48 || u > 57 {
            return None;
        }
        let d = (u - 48) as u64;
        proof {
            assert(s@.take(i + 1).drop_last() =~= s@.take(i as int));
            assert(s@.take(i + 1)[i as int] == s@[i as int]);
        }
        acc = acc * 10 + d;
        if acc > 0xFFFF_FFFF {
            proof {
                if all_digits(s@) {
                    lemma_digits_val_prefix_le(s@, i + 1);
                }
            }
            return None;
        }
        i += 1;
    }
    proof {
        assert(s@.take(n as int) =~= s@);
    }
    Some(acc as u32)
}

} // verus!
