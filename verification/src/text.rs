use vstd::prelude::*;

verus! {

/// The number of decimal digits of `n`.
pub open spec fn decimal_len(n: nat) -> nat
    decreases n,
{
    if n < 10 {
        1
    } else {
        1 + decimal_len(n / 10)
    }
}

pub open spec fn pow10(k: nat) -> nat
    decreases k,
{
    if k == 0 {
        1
    } else {
        10 * pow10((k - 1) as nat)
    }
}

pub proof fn lemma_decimal_len_bound(n: nat, k: nat)
    requires
        k >= 1,
        n < pow10(k),
    ensures
        decimal_len(n) <= k,
    decreases k,
{
    if n >= 10 {
        assert(k >= 2) by {
            if k == 1 {
                assert(pow10(1) == 10) by {
                    reveal_with_fuel(pow10, 2);
                }
            }
        }
        assert(n / 10 < pow10((k - 1) as nat)) by (nonlinear_arith)
            requires
                n < 10 * pow10((k - 1) as nat),
        ;
        lemma_decimal_len_bound(n / 10, (k - 1) as nat);
    }
}

/// The number of characters `n.to_string()` has.
pub fn decimal_len_of(n: usize) -> (r: usize)
    ensures
        r == decimal_len(n as nat),
        r <= 20,
{
    proof {
        assert(pow10(20) == 100000000000000000000) by {
            reveal_with_fuel(pow10, 21);
        }
        lemma_decimal_len_bound(n as nat, 20);
    }
    let mut m = n;
    let mut r: usize = 1;
    while m >= 10
        invariant
            r + decimal_len(m as nat) == decimal_len(n as nat) + 1,
            r <= 20,
            decimal_len(n as nat) <= 20,
        decreases m,
    {
        assert(decimal_len(m as nat) == 1 + decimal_len((m / 10) as nat));
        m = m / 10;
        r = r + 1;
    }
    r
}

/// `s` and the literal `lit` hold the same text.
pub fn eq_lit(s: &String, lit: &str) -> (r: bool)
    ensures
        r == (s@ == lit@),
{
    let t = String::from_str(lit);
    *s == t
}

} // verus!

verus! {

/// The lowercase form of `s` as `str::to_lowercase` gives it (Unicode's
/// lowercase mapping, independent of locale).
pub uninterp spec fn lowercase(s: Seq<char>) -> Seq<char>;

/// `str::to_lowercase`.
#[verifier::external_body]
pub(crate) fn to_lowercase(s: &str) -> (r: String)
    ensures
        r@ == lowercase(s@),
{
    s.to_lowercase()
}

/// `s` with every non-overlapping occurrence of the nonempty `from`,
/// scanning left to right, replaced by `to`.
pub open spec fn replaced(s: Seq<char>, from: Seq<char>, to: Seq<char>) -> Seq<char>
    decreases s.len(),
{
    if s.len() == 0 || from.len() == 0 {
        s
    } else if from.len() <= s.len() && s.take(from.len() as int) == from {
        to + replaced(s.skip(from.len() as int), from, to)
    } else {
        seq![s[0]] + replaced(s.skip(1), from, to)
    }
}

/// `str::replace` with a nonempty pattern: every non-overlapping occurrence
/// of `from`, left to right, becomes `to`.
#[verifier::external_body]
pub(crate) fn replace_all(s: &str, from: &str, to: &str) -> (r: String)
    requires
        from@.len() > 0,
    ensures
        r@ == replaced(s@, from@, to@),
{
    s.replace(from, to)
}

} // verus!

verus! {

/// Unicode's White_Space property, which `char::is_whitespace` tests: the
/// controls U+0009 to U+000D, the space, U+0085, the no-break space, the
/// Ogham space mark, the spaces U+2000 to U+200A, the line and paragraph
/// separators, the narrow no-break space, the medium mathematical space and
/// the ideographic space.
pub open spec fn white_space(c: char) -> bool {
    let u = c as int;
    ||| 0x9 <= u <= 0xD
    ||| u == 0x20
    ||| u == 0x85
    ||| u == 0xA0
    ||| u == 0x1680
    ||| 0x2000 <= u <= 0x200A
    ||| u == 0x2028
    ||| u == 0x2029
    ||| u == 0x202F
    ||| u == 0x205F
    ||| u == 0x3000
}

/// `s` without its leading white space.
pub open spec fn trim_start_ws(s: Seq<char>) -> Seq<char>
    decreases s.len(),
{
    if s.len() > 0 && white_space(s[0]) {
        trim_start_ws(s.drop_first())
    } else {
        s
    }
}

/// `s` without its trailing white space.
pub open spec fn trim_end_ws(s: Seq<char>) -> Seq<char>
    decreases s.len(),
{
    if s.len() > 0 && white_space(s.last()) {
        trim_end_ws(s.drop_last())
    } else {
        s
    }
}

/// `s` without leading and trailing white space, as `str::trim` gives it.
pub open spec fn trimmed(s: Seq<char>) -> Seq<char> {
    trim_end_ws(trim_start_ws(s))
}

/// A character that is not white space survives trimming from the front.
pub proof fn lemma_trim_start_keeps(s: Seq<char>, i: int)
    requires
        0 <= i < s.len(),
        !white_space(s[i]),
    ensures
        exists|j: int| 0 <= j < trim_start_ws(s).len() && !white_space(#[trigger] trim_start_ws(s)[j]),
    decreases s.len(),
{
    if s.len() > 0 && white_space(s[0]) {
        assert(i > 0);
        assert(s.drop_first()[i - 1] == s[i]);
        lemma_trim_start_keeps(s.drop_first(), i - 1);
        assert(trim_start_ws(s) == trim_start_ws(s.drop_first()));
        let t = trim_start_ws(s.drop_first());
        let j = choose|j: int| 0 <= j < t.len() && !white_space(#[trigger] t[j]);
        assert(!white_space(trim_start_ws(s)[j]));
    } else {
        assert(!white_space(trim_start_ws(s)[i]));
    }
}

/// Text holding a character that is not white space keeps one after
/// trimming from the back.
pub proof fn lemma_trim_end_nonempty(s: Seq<char>, i: int)
    requires
        0 <= i < s.len(),
        !white_space(s[i]),
    ensures
        trim_end_ws(s).len() > 0,
    decreases s.len(),
{
    if s.len() > 0 && white_space(s.last()) {
        assert(s.drop_last()[i] == s[i]);
        lemma_trim_end_nonempty(s.drop_last(), i);
    }
}

/// Text holding a character that is not white space is not blank once
/// trimmed.
pub proof fn lemma_trimmed_nonblank(s: Seq<char>, i: int)
    requires
        0 <= i < s.len(),
        !white_space(s[i]),
    ensures
        trimmed(s).len() > 0,
{
    lemma_trim_start_keeps(s, i);
    let t = trim_start_ws(s);
    let j = choose|j: int| 0 <= j < t.len() && !white_space(#[trigger] t[j]);
    lemma_trim_end_nonempty(t, j);
}

/// `str::trim`: leading and trailing White_Space removed.
#[verifier::external_body]
pub(crate) fn trim(s: &str) -> (r: &str)
    ensures
        r@ == trimmed(s@),
{
    s.trim()
}

/// The value of a nonempty string of ASCII decimal digits.
pub open spec fn digits_value(s: Seq<char>) -> Option<int>
    decreases s.len(),
{
    if s.len() == 0 {
        None
    } else {
        let d = s.last() as u32;
        if 48 <= d <= 57 {
            if s.len() == 1 {
                Some(d - 48)
            } else {
                match digits_value(s.drop_last()) {
                    Some(v) => Some(v * 10 + (d - 48)),
                    None => None,
                }
            }
        } else {
            None
        }
    }
}

/// The integer written as an optional sign followed by decimal digits.
pub open spec fn int_text(s: Seq<char>) -> Option<int> {
    if s.len() > 0 && s[0] == '-' {
        match digits_value(s.drop_first()) {
            Some(v) => Some(-v),
            None => None,
        }
    } else if s.len() > 0 && s[0] == '+' {
        digits_value(s.drop_first())
    } else {
        digits_value(s)
    }
}

/// The `i32` written in `s`, if it is one and in range.
pub open spec fn i32_text(s: Seq<char>) -> Option<i32> {
    match int_text(s) {
        Some(v) => if i32::MIN <= v <= i32::MAX {
            Some(v as i32)
        } else {
            None
        },
        None => None,
    }
}

/// `str::parse::<i32>`: an optional sign and decimal digits, in range.
#[verifier::external_body]
pub(crate) fn parse_i32(s: &str) -> (r: Option<i32>)
    ensures
        r == i32_text(s@),
{
    match s.parse::<i32>() {
        Ok(v) => Some(v),
        Err(_) => None,
    }
}

/// The number of occurrences of `c` in `s`.
pub open spec fn count_char(s: Seq<char>, c: char) -> nat
    decreases s.len(),
{
    if s.len() == 0 {
        0
    } else {
        count_char(s.drop_last(), c) + if s.last() == c {
            1nat
        } else {
            0nat
        }
    }
}

/// The index of the first occurrence of `c` in `s`.
pub open spec fn first_index(s: Seq<char>, c: char) -> int {
    choose|k: int| 0 <= k < s.len() && s[k] == c && forall|j: int| 0 <= j < k ==> s[j] != c
}

/// Coordinates typed as "x,y": exactly one comma, each side an `i32` once
/// trimmed.
pub open spec fn coords_of(s: Seq<char>) -> Option<(i32, i32)> {
    if count_char(s, ',') == 1 {
        let k = first_index(s, ',');
        match (i32_text(trimmed(s.take(k))), i32_text(trimmed(s.skip(k + 1)))) {
            (Some(x), Some(y)) => Some((x, y)),
            _ => None,
        }
    } else {
        None
    }
}

/// Read coordinates typed as "x,y".
pub fn parse_coords(s: &String) -> (r: Option<(i32, i32)>)
    ensures
        r == coords_of(s@),
{
    let n = s.as_str().unicode_len();
    let mut commas: usize = 0;
    let mut first: usize = 0;
    let mut k: usize = 0;
    while k < n
        invariant
            n == s@.len(),
            k <= n,
            commas == count_char(s@.take(k as int), ','),
            commas <= k,
            commas > 0 ==> (first as int) < k && s@[first as int] == ',' && forall|j: int| 0 <= j < first ==> s@[j] != ',',
            commas == 0 ==> forall|j: int| 0 <= j < k ==> s@[j] != ',',
        decreases n - k,
    {
        let c = s.as_str().get_char(k);
        proof {
            assert(s@.take(k as int + 1).drop_last() =~= s@.take(k as int));
        }
        if c == ',' {
            if commas == 0 {
                first = k;
            }
            commas = commas + 1;
        }
        k = k + 1;
    }
    proof {
        assert(s@.take(n as int) =~= s@);
    }
    if commas != 1 {
        return None;
    }
    proof {
        let f = first_index(s@, ',');
        assert(f == first as int);
    }
    let left = s.as_str().substring_char(0, first);
    let right = s.as_str().substring_char(first + 1, n);
    proof {
        assert(left@ =~= s@.take(first as int));
        assert(right@ =~= s@.skip(first as int + 1));
    }
    let x = parse_i32(trim(left));
    let y = parse_i32(trim(right));
    match (x, y) {
        (Some(a), Some(b)) => Some((a, b)),
        _ => None,
    }
}

} // verus!

verus! {

/// `pre` begins `s`.
pub open spec fn starts_with(s: Seq<char>, pre: Seq<char>) -> bool {
    pre.len() <= s.len() && s.take(pre.len() as int) == pre
}

/// `s` with every leading repetition of the nonempty `pre` taken off, as
/// `str::trim_start_matches` gives it.
pub open spec fn stripped(s: Seq<char>, pre: Seq<char>) -> Seq<char>
    decreases s.len(),
{
    if pre.len() > 0 && starts_with(s, pre) {
        stripped(s.skip(pre.len() as int), pre)
    } else {
        s
    }
}

/// Whether `pre` begins `s`.
pub fn has_prefix(s: &str, pre: &str) -> (r: bool)
    ensures
        r == starts_with(s@, pre@),
{
    let n = s.unicode_len();
    let m = pre.unicode_len();
    if m > n {
        return false;
    }
    let mut i: usize = 0;
    while i < m
        invariant
            m <= n,
            n == s@.len(),
            m == pre@.len(),
            i <= m,
            forall|q: int| 0 <= q < i ==> s@[q] == pre@[q],
        decreases m - i,
    {
        if s.get_char(i) != pre.get_char(i) {
            proof {
                assert(s@.take(m as int)[i as int] != pre@[i as int]);
            }
            return false;
        }
        i = i + 1;
    }
    proof {
        assert(s@.take(m as int) =~= pre@);
    }
    true
}

/// `s` with every leading repetition of `pre` taken off.
pub fn strip_prefixes(s: &str, pre: &str) -> (r: String)
    requires
        pre@.len() > 0,
    ensures
        r@ == stripped(s@, pre@),
{
    let n = s.unicode_len();
    let m = pre.unicode_len();
    let mut rest = s.substring_char(0, n);
    proof {
        assert(rest@ =~= s@);
    }
    while has_prefix(rest, pre)
        invariant
            m == pre@.len(),
            m > 0,
            stripped(rest@, pre@) == stripped(s@, pre@),
        decreases rest@.len(),
    {
        let k = rest.unicode_len();
        let next = rest.substring_char(m, k);
        proof {
            assert(next@ =~= rest@.skip(m as int));
        }
        rest = next;
    }
    String::from_str(rest)
}

/// The value of an optional '+' followed by decimal digits, when it fits
/// in `usize`: what `str::parse::<usize>` accepts.
pub open spec fn usize_text(s: Seq<char>) -> Option<usize> {
    let v = if s.len() > 0 && s[0] == '+' {
        digits_value(s.drop_first())
    } else {
        digits_value(s)
    };
    match v {
        Some(x) => if x <= usize::MAX {
            Some(x as usize)
        } else {
            None
        },
        None => None,
    }
}

/// `str::parse::<usize>`.
#[verifier::external_body]
pub(crate) fn parse_usize(s: &str) -> (r: Option<usize>)
    ensures
        r == usize_text(s@),
{
    match s.parse::<usize>() {
        Ok(v) => Some(v),
        Err(_) => None,
    }
}

} // verus!
