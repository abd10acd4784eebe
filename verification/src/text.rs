//! Tokenizing and numeric-token grammars for the mesh file format.
//!
//! Lines are split on single spaces (consecutive spaces yield empty
//! tokens, which then fail the numeric checks, as the format demands),
//! face reference pairs are split on the two-character `//` separator,
//! and the numeric fields are validated against explicit grammars: the
//! decimal-index grammar of unsigned integer parsing, and the decimal /
//! scientific / special-value grammar of floating-point parsing. The
//! driver re-reads the validated coordinate tokens as machine floats;
//! this library never holds a float itself.

use vstd::prelude::*;
use vstd::string::*;

verus! {

/// Splitting `s` on `sep` with `cur` the token accumulated so far.
pub open spec fn split_rec(s: Seq<char>, sep: char, cur: Seq<char>) -> Seq<Seq<char>>
    decreases s.len(),
{
    if s.len() == 0 {
        seq![cur]
    } else if s[0] == sep {
        seq![cur] + split_rec(s.skip(1), sep, Seq::empty())
    } else {
        split_rec(s.skip(1), sep, cur.push(s[0]))
    }
}

/// The tokens of `s` split on every occurrence of `sep`; empty tokens
/// are kept, and the result always holds at least one token.
pub open spec fn spec_split(s: Seq<char>, sep: char) -> Seq<Seq<char>> {
    split_rec(s, sep, Seq::empty())
}

/// Splitting `s` on the two-character separator `//`, leftmost-first
/// and non-overlapping, with `cur` the token accumulated so far.
pub open spec fn split2_rec(s: Seq<char>, cur: Seq<char>) -> Seq<Seq<char>>
    decreases s.len(),
{
    if s.len() >= 2 && s[0] == '/' && s[1] == '/' {
        seq![cur] + split2_rec(s.skip(2), Seq::empty())
    } else if s.len() == 0 {
        seq![cur]
    } else {
        split2_rec(s.skip(1), cur.push(s[0]))
    }
}

/// The segments of `s` split on every `//`; empty segments are kept.
pub open spec fn spec_split_dslash(s: Seq<char>) -> Seq<Seq<char>> {
    split2_rec(s, Seq::empty())
}

/// Splitting with any accumulated token yields at least one token.
proof fn lemma_split_rec_nonempty(s: Seq<char>, sep: char, cur: Seq<char>)
    ensures
        split_rec(s, sep, cur).len() >= 1,
    decreases s.len(),
{
    if s.len() == 0 {
    } else if s[0] == sep {
    } else {
        lemma_split_rec_nonempty(s.skip(1), sep, cur.push(s[0]));
    }
}

/// A split line always holds at least one token.
pub proof fn lemma_split_nonempty(s: Seq<char>, sep: char)
    ensures
        spec_split(s, sep).len() >= 1,
{
    lemma_split_rec_nonempty(s, sep, Seq::empty());
}

/// Splits a line on single spaces, keeping empty tokens.
pub fn split_spaces(s: &str) -> (toks: Vec<String>)
    ensures
        toks@.map_values(|t: String| t@) == spec_split(s@, ' '),
{
    let n = s.unicode_len();
    let mut toks: Vec<String> = Vec::new();
    let mut start: usize = 0;
    let mut i: usize = 0;
    proof {
        assert(s@.skip(0) =~= s@);
        assert(s@.subrange(0, 0) =~= Seq::<char>::empty());
        assert(toks@.map_values(|t: String| t@) =~= Seq::<Seq<char>>::empty());
        assert(Seq::<Seq<char>>::empty() + spec_split(s@, ' ') =~= spec_split(s@, ' '));
    }
    while i < n
        invariant
            start <= i <= n,
            n == s@.len(),
            spec_split(s@, ' ') == toks@.map_values(|t: String| t@) + split_rec(
                s@.skip(i as int),
                ' ',
                s@.subrange(start as int, i as int),
            ),
        decreases n - i,
    {
        let ghost prefix = toks@.map_values(|t: String| t@);
        let ghost cur = s@.subrange(start as int, i as int);
        let c = s.get_char(i);
        assert(s@.skip(i as int)[0] == s@[i as int]);
        assert(s@.skip(i as int).skip(1) =~= s@.skip(i as int + 1));
        if c == ' ' {
            let t = s.substring_char(start, i);
            toks.push(String::from_str(t));
            start = i + 1;
            proof {
                assert(split_rec(s@.skip(i as int), ' ', cur) == seq![cur] + split_rec(
                    s@.skip(i as int + 1),
                    ' ',
                    Seq::empty(),
                ));
                assert(toks@.map_values(|t2: String| t2@) =~= prefix.push(cur));
                assert(prefix.push(cur) + split_rec(s@.skip(i as int + 1), ' ', Seq::empty())
                    =~= prefix + (seq![cur] + split_rec(s@.skip(i as int + 1), ' ', Seq::empty())));
                assert(s@.subrange(i as int + 1, i as int + 1) =~= Seq::<char>::empty());
            }
        } else {
            proof {
                assert(split_rec(s@.skip(i as int), ' ', cur) == split_rec(
                    s@.skip(i as int + 1),
                    ' ',
                    cur.push(s@[i as int]),
                ));
                assert(cur.push(s@[i as int]) =~= s@.subrange(start as int, i as int + 1));
            }
        }
        i = i + 1;
    }
    let t = s.substring_char(start, n);
    toks.push(String::from_str(t));
    proof {
        let cur = s@.subrange(start as int, n as int);
        assert(s@.skip(n as int) =~= Seq::<char>::empty());
        assert(split_rec(s@.skip(n as int), ' ', cur) == seq![cur]);
        assert(toks@.map_values(|t2: String| t2@) =~= toks@.map_values(
            |t2: String| t2@,
        ).subrange(0, toks@.len() - 1).push(cur));
        assert(toks@.map_values(|t2: String| t2@) =~= toks@.map_values(|t2: String| t2@).subrange(
            0,
            toks@.len() - 1,
        ) + seq![cur]);
    }
    toks
}

/// Splits a face reference pair on every `//`, keeping empty segments.
pub fn split_dslash(s: &str) -> (parts: Vec<String>)
    ensures
        parts@.map_values(|t: String| t@) == spec_split_dslash(s@),
{
    let n = s.unicode_len();
    let mut parts: Vec<String> = Vec::new();
    let mut start: usize = 0;
    let mut i: usize = 0;
    proof {
        assert(s@.skip(0) =~= s@);
        assert(s@.subrange(0, 0) =~= Seq::<char>::empty());
        assert(parts@.map_values(|t: String| t@) =~= Seq::<Seq<char>>::empty());
        assert(Seq::<Seq<char>>::empty() + spec_split_dslash(s@) =~= spec_split_dslash(s@));
    }
    while i < n
        invariant
            start <= i <= n,
            n == s@.len(),
            spec_split_dslash(s@) == parts@.map_values(|t: String| t@) + split2_rec(
                s@.skip(i as int),
                s@.subrange(start as int, i as int),
            ),
        decreases n - i,
    {
        let ghost prefix = parts@.map_values(|t: String| t@);
        let ghost cur = s@.subrange(start as int, i as int);
        assert(s@.skip(i as int)[0] == s@[i as int]);
        assert(s@.skip(i as int).skip(1) =~= s@.skip(i as int + 1));
        if i + 1 < n && s.get_char(i) == '/' && s.get_char(i + 1) == '/' {
            assert(s@.skip(i as int).skip(2) =~= s@.skip(i as int + 2));
            assert(s@.skip(i as int)[1] == s@[i as int + 1]);
            let t = s.substring_char(start, i);
            parts.push(String::from_str(t));
            start = i + 2;
            proof {
                assert(split2_rec(s@.skip(i as int), cur) == seq![cur] + split2_rec(
                    s@.skip(i as int + 2),
                    Seq::empty(),
                ));
                assert(parts@.map_values(|t2: String| t2@) =~= prefix.push(cur));
                assert(prefix.push(cur) + split2_rec(s@.skip(i as int + 2), Seq::empty())
                    =~= prefix + (seq![cur] + split2_rec(s@.skip(i as int + 2), Seq::empty())));
                assert(s@.subrange(i as int + 2, i as int + 2) =~= Seq::<char>::empty());
            }
            i = i + 2;
        } else {
            proof {
                assert(s@.skip(i as int).len() >= 2 ==> s@.skip(i as int)[1] == s@[i as int + 1]);
                assert(split2_rec(s@.skip(i as int), cur) == split2_rec(
                    s@.skip(i as int + 1),
                    cur.push(s@[i as int]),
                ));
                assert(cur.push(s@[i as int]) =~= s@.subrange(start as int, i as int + 1));
            }
            i = i + 1;
        }
    }
    let t = s.substring_char(start, n);
    parts.push(String::from_str(t));
    proof {
        let cur = s@.subrange(start as int, n as int);
        assert(s@.skip(n as int) =~= Seq::<char>::empty());
        assert(split2_rec(s@.skip(n as int), cur) == seq![cur]);
        assert(parts@.map_values(|t2: String| t2@) =~= parts@.map_values(
            |t2: String| t2@,
        ).subrange(0, parts@.len() - 1) + seq![cur]);
    }
    parts
}

/// An ASCII decimal digit.
pub open spec fn is_digit(c: char) -> bool {
    48 <= c as u32 <= 57
}

/// The numeric value of one digit.
pub open spec fn digit_val(c: char) -> int {
    c as u32 - 48
}

/// Every character of `s` is a digit.
pub open spec fn all_digits(s: Seq<char>) -> bool {
    forall|i: int| 0 <= i < s.len() ==> is_digit(#[trigger] s[i])
}

/// The value of a digit string read in base ten (0 for the empty string).
pub open spec fn digits_val(s: Seq<char>) -> int
    decreases s.len(),
{
    if s.len() == 0 {
        0
    } else {
        digits_val(s.drop_last()) * 10 + digit_val(s.last())
    }
}

/// The digits of an index token, after its optional leading `+` sign.
pub open spec fn index_digits(s: Seq<char>) -> Seq<char> {
    if s.len() > 0 && s[0] == '+' {
        s.skip(1)
    } else {
        s
    }
}

/// The grammar of an unsigned decimal index as integer parsing accepts
/// it: an optional `+` sign, then one or more digits, with a value that
/// fits the machine's pointer width.
pub open spec fn is_index_token(s: Seq<char>) -> bool {
    index_digits(s).len() > 0 && all_digits(index_digits(s)) && digits_val(index_digits(s))
        <= usize::MAX
}

/// The value of a valid index token.
pub open spec fn index_token_val(s: Seq<char>) -> int {
    digits_val(index_digits(s))
}

/// The value of a digit string is never negative.
proof fn lemma_digits_val_nonneg(s: Seq<char>)
    requires
        all_digits(s),
    ensures
        digits_val(s) >= 0,
    decreases s.len(),
{
    if s.len() > 0 {
        assert(all_digits(s.drop_last()));
        lemma_digits_val_nonneg(s.drop_last());
    }
}

/// Extending a digit string on the right never lowers its value.
proof fn lemma_digits_val_prefix_le(s: Seq<char>, i: int)
    requires
        all_digits(s),
        0 <= i <= s.len(),
    ensures
        digits_val(s.subrange(0, i)) <= digits_val(s),
    decreases s.len() - i,
{
    if i == s.len() {
        assert(s.subrange(0, i) =~= s);
    } else {
        lemma_digits_val_prefix_le(s, i + 1);
        let t = s.subrange(0, i + 1);
        assert(t.drop_last() =~= s.subrange(0, i));
        assert(all_digits(s.subrange(0, i)));
        lemma_digits_val_nonneg(s.subrange(0, i));
        assert(digits_val(t) == digits_val(s.subrange(0, i)) * 10 + digit_val(t.last()));
        assert(digits_val(s.subrange(0, i)) * 10 >= digits_val(s.subrange(0, i)))
            by (nonlinear_arith)
            requires
                digits_val(s.subrange(0, i)) >= 0,
        ;
    }
}

/// Parses an index token: `Some` exactly on the index grammar, with the
/// token's base-ten value.
pub fn parse_index(s: &str) -> (r: Option<usize>)
    ensures
        r is Some <==> is_index_token(s@),
        r is Some ==> r->0 as int == index_token_val(s@),
{
    let n = s.unicode_len();
    let mut j: usize = 0;
    if n > 0 && s.get_char(0) == '+' {
        j = 1;
    }
    let ghost d = index_digits(s@);
    assert(d =~= s@.skip(j as int));
    if j == n {
        assert(d.len() == 0);
        return None;
    }
    let mut acc: u128 = 0;
    let mut i: usize = j;
    assert(d.subrange(0, 0) =~= Seq::<char>::empty());
    while i < n
        invariant
            j <= i <= n,
            n == s@.len(),
            d == index_digits(s@),
            d =~= s@.skip(j as int),
            acc == digits_val(d.subrange(0, i - j)),
            acc <= usize::MAX,
            all_digits(d.subrange(0, i - j)),
        decreases n - i,
    {
        let c = s.get_char(i);
        let cv = c as u32;
        assert(d[i - j] == s@[i as int]);
        if cv < 48 || cv > 57 {
            assert(!is_digit(d[i - j]));
            assert(!all_digits(d));
            return None;
        }
        let dv: u128 = (cv - 48) as u128;
        let ghost pre = d.subrange(0, i - j);
        proof {
            assert(d.subrange(0, i - j + 1).drop_last() =~= pre);
            assert(d.subrange(0, i - j + 1).last() == d[i - j]);
        }
        let acc2: u128 = acc * 10 + dv;
        if acc2 > usize::MAX as u128 {
            proof {
                assert(all_digits(d.subrange(0, i - j + 1)));
                assert(digits_val(d.subrange(0, i - j + 1)) == acc2);
                if all_digits(d) {
                    lemma_digits_val_prefix_le(d, i - j + 1);
                    assert(digits_val(d) >= acc2 > usize::MAX);
                }
            }
            return None;
        }
        acc = acc2;
        i = i + 1;
    }
    proof {
        assert(d.subrange(0, n - j) =~= d);
    }
    Some(acc as usize)
}

/// `inf`, in any letter case.
pub open spec fn is_inf_word(t: Seq<char>) -> bool {
    t.len() == 3 && (t[0] == 'i' || t[0] == 'I') && (t[1] == 'n' || t[1] == 'N') && (t[2] == 'f'
        || t[2] == 'F')
}

/// `infinity`, in any letter case.
pub open spec fn is_infinity_word(t: Seq<char>) -> bool {
    t.len() == 8 && (t[0] == 'i' || t[0] == 'I') && (t[1] == 'n' || t[1] == 'N') && (t[2] == 'f'
        || t[2] == 'F') && (t[3] == 'i' || t[3] == 'I') && (t[4] == 'n' || t[4] == 'N') && (t[5]
        == 'i' || t[5] == 'I') && (t[6] == 't' || t[6] == 'T') && (t[7] == 'y' || t[7] == 'Y')
}

/// `nan`, in any letter case.
pub open spec fn is_nan_word(t: Seq<char>) -> bool {
    t.len() == 3 && (t[0] == 'n' || t[0] == 'N') && (t[1] == 'a' || t[1] == 'A') && (t[2] == 'n'
        || t[2] == 'N')
}

/// The index of the first exponent marker (`e` or `E`) in `s`, or
/// `s.len()` if there is none.
pub open spec fn first_exp(s: Seq<char>) -> int
    decreases s.len(),
{
    if s.len() == 0 {
        0
    } else if s[0] == 'e' || s[0] == 'E' {
        0
    } else {
        1 + first_exp(s.skip(1))
    }
}

/// The index of the first `.` in `s`, or `s.len()` if there is none.
pub open spec fn first_dot(s: Seq<char>) -> int
    decreases s.len(),
{
    if s.len() == 0 {
        0
    } else if s[0] == '.' {
        0
    } else {
        1 + first_dot(s.skip(1))
    }
}

/// The mantissa grammar: digits, optionally around a single decimal
/// point, with at least one digit somewhere.
pub open spec fn is_mantissa(m: Seq<char>) -> bool {
    let k = first_dot(m);
    if k >= m.len() {
        m.len() > 0 && all_digits(m)
    } else {
        let a = m.subrange(0, k);
        let b = m.skip(k + 1);
        all_digits(a) && all_digits(b) && (a.len() > 0 || b.len() > 0)
    }
}

/// The exponent grammar: an optional sign, then one or more digits.
pub open spec fn is_exponent(x: Seq<char>) -> bool {
    let d = if x.len() > 0 && (x[0] == '+' || x[0] == '-') {
        x.skip(1)
    } else {
        x
    };
    d.len() > 0 && all_digits(d)
}

/// The grammar of a floating-point token as float parsing accepts it:
/// an optional sign, then `inf`, `infinity` or `nan` in any letter case,
/// or a mantissa with an optional exponent part.
pub open spec fn is_float_token(s: Seq<char>) -> bool {
    let t = if s.len() > 0 && (s[0] == '+' || s[0] == '-') {
        s.skip(1)
    } else {
        s
    };
    is_inf_word(t) || is_infinity_word(t) || is_nan_word(t) || ({
        let k = first_exp(t);
        if k >= t.len() {
            is_mantissa(t)
        } else {
            is_mantissa(t.subrange(0, k)) && is_exponent(t.skip(k + 1))
        }
    })
}

/// Checks that every character of `s@` between `from` and `to` is a digit.
fn check_digits(s: &str, from: usize, to: usize) -> (b: bool)
    requires
        from <= to <= s@.len(),
    ensures
        b == all_digits(s@.subrange(from as int, to as int)),
{
    let ghost d = s@.subrange(from as int, to as int);
    let mut i: usize = from;
    while i < to
        invariant
            from <= i <= to <= s@.len(),
            d =~= s@.subrange(from as int, to as int),
            forall|k: int| 0 <= k < i - from ==> is_digit(#[trigger] d[k]),
        decreases to - i,
    {
        let c = s.get_char(i);
        let cv = c as u32;
        assert(d[i - from] == s@[i as int]);
        if cv < 48 || cv > 57 {
            return false;
        }
        i = i + 1;
    }
    true
}

/// Finds the first position in `[from, n)` where `s` has `c1` or `c2`,
/// or `n` if there is none, where `n` is the length of `s`.
fn find_first(s: &str, from: usize, c1: char, c2: char) -> (k: usize)
    requires
        from <= s@.len(),
    ensures
        from <= k <= s@.len(),
        forall|i: int| from <= i < k ==> !(#[trigger] s@[i] == c1 || s@[i] == c2),
        k < s@.len() ==> (s@[k as int] == c1 || s@[k as int] == c2),
{
    let n = s.unicode_len();
    let mut i: usize = from;
    while i < n
        invariant
            from <= i <= n,
            n == s@.len(),
            forall|k: int| from <= k < i ==> !(#[trigger] s@[k] == c1 || s@[k] == c2),
        decreases n - i,
    {
        let c = s.get_char(i);
        if c == c1 || c == c2 {
            return i;
        }
        i = i + 1;
    }
    n
}

/// Where a scan found the first match, the recursive first-index
/// functions agree with it.
proof fn lemma_first_scan(s: Seq<char>, c1: char, c2: char, k: int)
    requires
        0 <= k <= s.len(),
        forall|i: int| 0 <= i < k ==> !(#[trigger] s[i] == c1 || s[i] == c2),
        k < s.len() ==> (s[k] == c1 || s[k] == c2),
        (c1 == 'e' && c2 == 'E') || (c1 == '.' && c2 == '.'),
    ensures
        c1 == 'e' && c2 == 'E' ==> first_exp(s) == k,
        c1 == '.' && c2 == '.' ==> first_dot(s) == k,
    decreases s.len(),
{
    if s.len() == 0 {
    } else if s[0] == c1 || s[0] == c2 {
        assert(k == 0);
    } else {
        assert(k >= 1);
        let t = s.skip(1);
        assert(forall|i: int| 0 <= i < k - 1 ==> !(#[trigger] t[i] == c1 || t[i] == c2));
        assert(k - 1 < t.len() ==> (t[k - 1] == c1 || t[k - 1] == c2));
        lemma_first_scan(t, c1, c2, k - 1);
    }
}

/// Checks the mantissa grammar on `s@` between `from` and `to`.
fn check_mantissa(s: &str, from: usize, to: usize) -> (b: bool)
    requires
        from <= to <= s@.len(),
    ensures
        b == is_mantissa(s@.subrange(from as int, to as int)),
{
    let ghost m = s@.subrange(from as int, to as int);
    let k = find_first(s, from, '.', '.');
    let kk = if k > to {
        to
    } else {
        k
    };
    proof {
        assert(forall|i: int| 0 <= i < kk - from ==> m[i] == s@[i + from]);
        assert(kk < to ==> m[kk - from] == '.');
        lemma_first_scan(m, '.', '.', kk - from);
    }
    if kk == to {
        let r = to > from && check_digits(s, from, to);
        assert(m.len() > 0 <==> to > from);
        assert(m =~= s@.subrange(from as int, to as int));
        r
    } else {
        let da = check_digits(s, from, kk);
        let db = check_digits(s, kk + 1, to);
        proof {
            assert(m.subrange(0, kk - from) =~= s@.subrange(from as int, kk as int));
            assert(m.skip(kk - from + 1) =~= s@.subrange(kk as int + 1, to as int));
        }
        da && db && (kk > from || to > kk + 1)
    }
}

/// Checks the exponent grammar on `s@` between `from` and `to`.
fn check_exponent(s: &str, from: usize, to: usize) -> (b: bool)
    requires
        from <= to <= s@.len(),
    ensures
        b == is_exponent(s@.subrange(from as int, to as int)),
{
    let ghost x = s@.subrange(from as int, to as int);
    let mut j: usize = from;
    if from < to {
        let c = s.get_char(from);
        if c == '+' || c == '-' {
            j = from + 1;
        }
    }
    proof {
        if x.len() > 0 && (x[0] == '+' || x[0] == '-') {
            assert(x.skip(1) =~= s@.subrange(j as int, to as int));
        } else {
            assert(x =~= s@.subrange(j as int, to as int));
        }
    }
    to > j && check_digits(s, j, to)
}

/// Checks whether a token is a valid floating-point number, against the
/// float grammar (sign, special words, mantissa, optional exponent).
pub fn is_float(s: &str) -> (b: bool)
    ensures
        b == is_float_token(s@),
{
    let n = s.unicode_len();
    let mut j: usize = 0;
    if n > 0 {
        let c = s.get_char(0);
        if c == '+' || c == '-' {
            j = 1;
        }
    }
    let ghost t = if s@.len() > 0 && (s@[0] == '+' || s@[0] == '-') {
        s@.skip(1)
    } else {
        s@
    };
    proof {
        assert(t =~= s@.subrange(j as int, n as int));
    }
    // The special words, in any letter case.
    if n - j == 3 || n - j == 8 {
        let c0 = s.get_char(j);
        let c1 = s.get_char(j + 1);
        let c2 = s.get_char(j + 2);
        if n - j == 3 {
            if (c0 == 'i' || c0 == 'I') && (c1 == 'n' || c1 == 'N') && (c2 == 'f' || c2 == 'F') {
                return true;
            }
            if (c0 == 'n' || c0 == 'N') && (c1 == 'a' || c1 == 'A') && (c2 == 'n' || c2 == 'N') {
                return true;
            }
        } else {
            let c3 = s.get_char(j + 3);
            let c4 = s.get_char(j + 4);
            let c5 = s.get_char(j + 5);
            let c6 = s.get_char(j + 6);
            let c7 = s.get_char(j + 7);
            if (c0 == 'i' || c0 == 'I') && (c1 == 'n' || c1 == 'N') && (c2 == 'f' || c2 == 'F') && (
            c3 == 'i' || c3 == 'I') && (c4 == 'n' || c4 == 'N') && (c5 == 'i' || c5 == 'I') && (c6
                == 't' || c6 == 'T') && (c7 == 'y' || c7 == 'Y') {
                return true;
            }
        }
    }
    proof {
        assert(!is_inf_word(t) && !is_infinity_word(t) && !is_nan_word(t));
    }
    let k = find_first(s, j, 'e', 'E');
    proof {
        assert(forall|i: int| 0 <= i < k - j ==> t[i] == s@[i + j]);
        assert(k - j < t.len() ==> t[k - j] == s@[k as int]);
        lemma_first_scan(t, 'e', 'E', k - j);
    }
    if k == n {
        let r = check_mantissa(s, j, n);
        proof {
            assert(t =~= s@.subrange(j as int, n as int));
        }
        r
    } else {
        let rm = check_mantissa(s, j, k);
        let rx = check_exponent(s, k + 1, n);
        proof {
            assert(t.subrange(0, k - j) =~= s@.subrange(j as int, k as int));
            assert(t.skip(k - j + 1) =~= s@.subrange(k as int + 1, n as int));
        }
        rm && rx
    }
}

} // verus!
