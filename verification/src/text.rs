//! Character-sequence machinery shared by the decoders: decimal values,
//! thousands-separator removal, single-occurrence suffix stripping,
//! whitespace trimming and slash splitting, each with its mathematical
//! definition and a verified executable counterpart.

use vstd::prelude::*;
use vstd::string::StrSliceExecFns;

verus! {

/// A decimal digit.
pub open spec fn is_digit(c: char) -> bool {
    c == '0' || c == '1' || c == '2' || c == '3' || c == '4' || c == '5' || c == '6' || c == '7'
        || c == '8' || c == '9'
}

pub open spec fn digit_val(c: char) -> nat {
    if c == '0' {
        0
    } else if c == '1' {
        1
    } else if c == '2' {
        2
    } else if c == '3' {
        3
    } else if c == '4' {
        4
    } else if c == '5' {
        5
    } else if c == '6' {
        6
    } else if c == '7' {
        7
    } else if c == '8' {
        8
    } else {
        9
    }
}

pub open spec fn all_digits(s: Seq<char>) -> bool {
    forall|i: int| 0 <= i < s.len() ==> is_digit(#[trigger] s[i])
}

/// The value of a digit sequence read as a base-ten numeral.
pub open spec fn dec_value(s: Seq<char>) -> nat
    decreases s.len(),
{
    if s.len() == 0 {
        0
    } else {
        dec_value(s.drop_last()) * 10 + digit_val(s.last())
    }
}

/// A non-empty, all-digit numeral whose value fits in a `u64`.
pub open spec fn is_count_text(s: Seq<char>) -> bool {
    &&& s.len() > 0
    &&& all_digits(s)
    &&& dec_value(s) <= u64::MAX
}

/// `s` with every comma removed.
pub open spec fn without_commas(s: Seq<char>) -> Seq<char>
    decreases s.len(),
{
    if s.len() == 0 {
        Seq::empty()
    } else if s.last() == ',' {
        without_commas(s.drop_last())
    } else {
        without_commas(s.drop_last()).push(s.last())
    }
}

/// Pattern `p` occurs in `s` starting at index `i`.
pub open spec fn occurs_at(s: Seq<char>, p: Seq<char>, i: int) -> bool {
    &&& 0 <= i
    &&& i + p.len() <= s.len()
    &&& s.subrange(i, i + p.len()) == p
}

pub open spec fn has_pattern(s: Seq<char>, p: Seq<char>) -> bool {
    exists|i: int| occurs_at(s, p, i)
}

/// `s` with the first occurrence of `p` removed; `s` itself when `p`
/// does not occur.
pub open spec fn strip_first(s: Seq<char>, p: Seq<char>) -> Seq<char>
    decreases s.len(),
{
    if p.len() == 0 || s.len() < p.len() {
        s
    } else if s.take(p.len() as int) == p {
        s.skip(p.len() as int)
    } else {
        seq![s[0]] + strip_first(s.drop_first(), p)
    }
}

/// Remove one occurrence of whichever of the three unit-suffix variants
/// occurs, trying them in a fixed order.
pub open spec fn strip_unit(s: Seq<char>, v1: Seq<char>, v2: Seq<char>, v3: Seq<char>) -> Seq<
    char,
> {
    if has_pattern(s, v1) {
        strip_first(s, v1)
    } else if has_pattern(s, v2) {
        strip_first(s, v2)
    } else if has_pattern(s, v3) {
        strip_first(s, v3)
    } else {
        s
    }
}

pub open spec fn is_space(c: char) -> bool {
    c == ' ' || c == '\t' || c == '\n' || c == '\r'
}

pub open spec fn trim_front(s: Seq<char>) -> Seq<char>
    decreases s.len(),
{
    if s.len() > 0 && is_space(s[0]) {
        trim_front(s.drop_first())
    } else {
        s
    }
}

pub open spec fn trim_back(s: Seq<char>) -> Seq<char>
    decreases s.len(),
{
    if s.len() > 0 && is_space(s.last()) {
        trim_back(s.drop_last())
    } else {
        s
    }
}

/// `s` without leading and trailing whitespace.
pub open spec fn trimmed(s: Seq<char>) -> Seq<char> {
    trim_back(trim_front(s))
}

pub open spec fn has_slash(s: Seq<char>) -> bool {
    exists|i: int| 0 <= i < s.len() && #[trigger] s[i] == '/'
}

/// Index of the first slash, or `s.len()` when there is none.
pub open spec fn first_slash(s: Seq<char>) -> int
    decreases s.len(),
{
    if s.len() == 0 {
        0
    } else if s[0] == '/' {
        0
    } else {
        1 + first_slash(s.drop_first())
    }
}

pub proof fn lemma_dec_value_step(s: Seq<char>, i: int)
    requires
        0 <= i < s.len(),
    ensures
        dec_value(s.take(i + 1)) == dec_value(s.take(i)) * 10 + digit_val(s[i]),
{
    assert(s.take(i + 1).drop_last() =~= s.take(i));
    assert(s.take(i + 1).last() == s[i]);
}

pub proof fn lemma_dec_value_take_le(s: Seq<char>, i: int, j: int)
    requires
        0 <= i <= j <= s.len(),
    ensures
        dec_value(s.take(i)) <= dec_value(s.take(j)),
    decreases j - i,
{
    if i < j {
        lemma_dec_value_take_le(s, i, j - 1);
        lemma_dec_value_step(s, j - 1);
    }
}

pub proof fn lemma_without_commas_id(s: Seq<char>)
    requires
        forall|i: int| 0 <= i < s.len() ==> #[trigger] s[i] != ',',
    ensures
        without_commas(s) == s,
    decreases s.len(),
{
    if s.len() > 0 {
        lemma_without_commas_id(s.drop_last());
        assert(without_commas(s) =~= s);
    }
}

pub proof fn lemma_without_commas_append(a: Seq<char>, b: Seq<char>)
    ensures
        without_commas(a + b) == without_commas(a) + without_commas(b),
    decreases b.len(),
{
    if b.len() == 0 {
        assert(a + b =~= a);
        assert(without_commas(a) + without_commas(b) =~= without_commas(a));
    } else {
        lemma_without_commas_append(a, b.drop_last());
        assert((a + b).drop_last() =~= a + b.drop_last());
        assert((a + b).last() == b.last());
        if b.last() == ',' {
            assert(without_commas(a + b) =~= without_commas(a) + without_commas(b));
        } else {
            assert(without_commas(a + b) =~= without_commas(a) + without_commas(b));
        }
    }
}

/// Where the least occurrence of `p` in `s` starts at `k`, stripping the
/// first occurrence removes exactly the characters `k .. k + p.len()`.
pub proof fn lemma_strip_first_at(s: Seq<char>, p: Seq<char>, k: int)
    requires
        p.len() >= 1,
        occurs_at(s, p, k),
        forall|j: int| 0 <= j < k ==> !occurs_at(s, p, j),
    ensures
        strip_first(s, p) == s.take(k) + s.skip(k + p.len()),
    decreases k,
{
    assert(s.len() >= p.len());
    if k == 0 {
        assert(s.take(p.len() as int) =~= s.subrange(0, p.len() as int));
        assert(strip_first(s, p) == s.skip(p.len() as int));
        assert(s.take(0) + s.skip(p.len() as int) =~= s.skip(p.len() as int));
    } else {
        assert(!occurs_at(s, p, 0));
        assert(s.take(p.len() as int) =~= s.subrange(0, p.len() as int));
        assert(s.take(p.len() as int) != p);
        let t = s.drop_first();
        assert(occurs_at(t, p, k - 1)) by {
            assert(t.subrange(k - 1, k - 1 + p.len()) =~= s.subrange(k, k + p.len()));
        }
        assert forall|j: int| 0 <= j < k - 1 implies !occurs_at(t, p, j) by {
            if occurs_at(t, p, j) {
                assert(s.subrange(j + 1, j + 1 + p.len()) =~= t.subrange(j, j + p.len()));
                assert(occurs_at(s, p, j + 1));
            }
        }
        lemma_strip_first_at(t, p, k - 1);
        assert(strip_first(s, p) == seq![s[0]] + strip_first(t, p));
        assert(seq![s[0]] + (t.take(k - 1) + t.skip(k - 1 + p.len())) =~= s.take(k) + s.skip(
            k + p.len(),
        ));
    }
}

pub proof fn lemma_first_slash_at(s: Seq<char>, k: int)
    requires
        0 <= k < s.len(),
        s[k] == '/',
        forall|j: int| 0 <= j < k ==> #[trigger] s[j] != '/',
    ensures
        first_slash(s) == k,
    decreases k,
{
    if k > 0 {
        let t = s.drop_first();
        assert forall|j: int| 0 <= j < k - 1 implies #[trigger] t[j] != '/' by {
            assert(t[j] == s[j + 1]);
        }
        assert(t[k - 1] == s[k]);
        lemma_first_slash_at(t, k - 1);
    }
}

pub proof fn lemma_first_slash_none(s: Seq<char>)
    requires
        forall|j: int| 0 <= j < s.len() ==> #[trigger] s[j] != '/',
    ensures
        first_slash(s) == s.len(),
    decreases s.len(),
{
    if s.len() > 0 {
        let t = s.drop_first();
        assert forall|j: int| 0 <= j < t.len() implies #[trigger] t[j] != '/' by {
            assert(t[j] == s[j + 1]);
        }
        lemma_first_slash_none(t);
    }
}

/// The characters of `s`, in order, as a vector.
pub(crate) fn chars_vec(s: &str) -> (r: Vec<char>)
    ensures
        r@ == s@,
{
    let n = s.unicode_len();
    let mut r: Vec<char> = Vec::new();
    let mut i: usize = 0;
    while i < n
        invariant
            n == s@.len(),
            i <= n,
            r@ == s@.take(i as int),
        decreases n - i,
    {
        let c = s.get_char(i);
        r.push(c);
        proof {
            assert(s@.take(i + 1) =~= s@.take(i as int).push(s@[i as int]));
        }
        i = i + 1;
    }
    proof {
        assert(s@.take(n as int) =~= s@);
    }
    r
}

/// Character-sequence equality of two string slices.
pub(crate) fn str_eq(a: &str, b: &str) -> (r: bool)
    ensures
        r == (a@ == b@),
{
    let na = a.unicode_len();
    let nb = b.unicode_len();
    if na != nb {
        return false;
    }
    let mut i: usize = 0;
    while i < na
        invariant
            na == a@.len(),
            na == b@.len(),
            i <= na,
            forall|k: int| 0 <= k < i ==> a@[k] == b@[k],
        decreases na - i,
    {
        if a.get_char(i) != b.get_char(i) {
            return false;
        }
        i = i + 1;
    }
    proof {
        assert(a@ =~= b@);
    }
    true
}

pub(crate) fn remove_commas(s: &Vec<char>) -> (r: Vec<char>)
    ensures
        r@ == without_commas(s@),
{
    let mut r: Vec<char> = Vec::new();
    let mut i: usize = 0;
    while i < s.len()
        invariant
            i <= s@.len(),
            r@ == without_commas(s@.take(i as int)),
        decreases s@.len() - i,
    {
        proof {
            assert(s@.take(i + 1).drop_last() =~= s@.take(i as int));
            assert(s@.take(i + 1).last() == s@[i as int]);
        }
        if s[i] != ',' {
            r.push(s[i]);
        }
        i = i + 1;
    }
    proof {
        assert(s@.take(s@.len() as int) =~= s@);
    }
    r
}

/// Least index at which `p` occurs in `s`, if it occurs at all.
pub(crate) fn find_pattern(s: &Vec<char>, p: &Vec<char>) -> (r: Option<usize>)
    requires
        p@.len() >= 1,
    ensures
        r matches Some(k) ==> occurs_at(s@, p@, k as int) && (forall|j: int|
            0 <= j < k ==> !occurs_at(s@, p@, j)),
        r is None ==> forall|j: int| !occurs_at(s@, p@, j),
{
    let n = s.len();
    let plen = p.len();
    if n < plen {
        return None;
    }
    let mut k: usize = 0;
    while k <= n - plen
        invariant
            n == s@.len(),
            plen == p@.len(),
            plen >= 1,
            n >= plen,
            k <= n - plen + 1,
            forall|j: int| 0 <= j < k ==> !occurs_at(s@, p@, j),
        decreases n - k,
    {
        let mut m: usize = 0;
        let mut mismatch = false;
        while m < plen
            invariant
                n == s@.len(),
                plen == p@.len(),
                plen >= 1,
                k + plen <= n,
                m <= plen,
                !mismatch ==> forall|t: int| 0 <= t < m ==> s@[k + t] == p@[t],
                mismatch ==> !occurs_at(s@, p@, k as int),
            decreases plen - m,
        {
            if s[k + m] != p[m] {
                proof {
                    if occurs_at(s@, p@, k as int) {
                        assert(s@.subrange(k as int, k + p@.len())[m as int] == s@[k + m]);
                    }
                }
                mismatch = true;
                m = plen;
            } else {
                m = m + 1;
            }
        }
        if !mismatch {
            proof {
                assert(s@.subrange(k as int, k + p@.len()) =~= p@);
            }
            return Some(k);
        }
        k = k + 1;
    }
    proof {
        assert forall|j: int| !occurs_at(s@, p@, j) by {
            if occurs_at(s@, p@, j) {
                assert(0 <= j && j + p@.len() <= s@.len());
                assert(j < k);
            }
        }
    }
    None
}

/// Remove the first occurrence of `p` from `s`, reporting whether one
/// was found.
pub(crate) fn strip_pattern(s: &Vec<char>, p: &Vec<char>) -> (r: Option<Vec<char>>)
    requires
        p@.len() >= 1,
    ensures
        r matches Some(t) ==> has_pattern(s@, p@) && t@ == strip_first(s@, p@),
        r is None ==> !has_pattern(s@, p@),
{
    match find_pattern(s, p) {
        Some(k) => {
            proof {
                lemma_strip_first_at(s@, p@, k as int);
            }
            let n = s.len();
            let plen = p.len();
            let mut t: Vec<char> = Vec::new();
            proof {
                assert(t@ =~= s@.take(0));
            }
            let mut i: usize = 0;
            while i < k
                invariant
                    n == s@.len(),
                    k + p@.len() <= n,
                    i <= k,
                    t@ == s@.take(i as int),
                decreases k - i,
            {
                t.push(s[i]);
                proof {
                    assert(s@.take(i + 1) =~= s@.take(i as int).push(s@[i as int]));
                }
                i = i + 1;
            }
            proof {
                assert(s@.take(k as int) + s@.subrange(k + p@.len(), k + p@.len()) =~= s@.take(
                    k as int,
                ));
            }
            let mut j: usize = k + plen;
            while j < n
                invariant
                    n == s@.len(),
                    plen == p@.len(),
                    k + plen <= j <= n,
                    t@ == s@.take(k as int) + s@.subrange(k + p@.len(), j as int),
                decreases n - j,
            {
                t.push(s[j]);
                proof {
                    assert(s@.subrange(k + p@.len(), j + 1) =~= s@.subrange(
                        k + p@.len(),
                        j as int,
                    ).push(s@[j as int]));
                }
                j = j + 1;
            }
            proof {
                assert(s@.subrange(k + p@.len(), s@.len() as int) =~= s@.skip(k + p@.len()));
                assert(t@ == s@.take(k as int) + s@.skip(k + p@.len()));
            }
            Some(t)
        },
        None => None,
    }
}

/// Executable counterpart of `strip_unit`.
pub(crate) fn strip_unit_chars(s: &Vec<char>, v1: &Vec<char>, v2: &Vec<char>, v3: &Vec<char>) -> (r:
    Vec<char>)
    requires
        v1@.len() >= 1,
        v2@.len() >= 1,
        v3@.len() >= 1,
    ensures
        r@ == strip_unit(s@, v1@, v2@, v3@),
{
    match strip_pattern(s, v1) {
        Some(t) => return t,
        None => {},
    }
    match strip_pattern(s, v2) {
        Some(t) => return t,
        None => {},
    }
    match strip_pattern(s, v3) {
        Some(t) => return t,
        None => {},
    }
    let mut r: Vec<char> = Vec::new();
    let mut i: usize = 0;
    while i < s.len()
        invariant
            i <= s@.len(),
            r@ == s@.take(i as int),
        decreases s@.len() - i,
    {
        r.push(s[i]);
        proof {
            assert(s@.take(i + 1) =~= s@.take(i as int).push(s@[i as int]));
        }
        i = i + 1;
    }
    proof {
        assert(s@.take(s@.len() as int) =~= s@);
    }
    r
}

fn is_space_char(c: char) -> (r: bool)
    ensures
        r == is_space(c),
{
    c == ' ' || c == '\t' || c == '\n' || c == '\r'
}

/// Executable counterpart of `trimmed`.
pub(crate) fn trim_chars(s: &Vec<char>) -> (r: Vec<char>)
    ensures
        r@ == trimmed(s@),
{
    let mut a: usize = 0;
    proof {
        assert(s@.skip(0) =~= s@);
    }
    while a < s.len() && is_space_char(s[a])
        invariant
            a <= s@.len(),
            trim_front(s@) == trim_front(s@.skip(a as int)),
        decreases s@.len() - a,
    {
        proof {
            assert(s@.skip(a as int)[0] == s@[a as int]);
            assert(s@.skip(a as int).drop_first() =~= s@.skip(a + 1));
            assert(trim_front(s@.skip(a as int)) == trim_front(s@.skip(a + 1)));
        }
        a = a + 1;
    }
    let ghost t = s@.skip(a as int);
    proof {
        if a < s@.len() {
            assert(t[0] == s@[a as int]);
            assert(trim_front(t) == t);
        } else {
            assert(t =~= Seq::<char>::empty());
        }
    }
    let mut b: usize = s.len();
    proof {
        assert(t.take(s@.len() - a) =~= t);
    }
    while b > a && is_space_char(s[b - 1])
        invariant
            a <= b <= s@.len(),
            t == s@.skip(a as int),
            trim_back(t) == trim_back(t.take(b - a as int)),
        decreases b,
    {
        proof {
            assert(t.take(b - a as int).last() == s@[b - 1]);
            assert(t.take(b - a as int).drop_last() =~= t.take(b - 1 - a as int));
            assert(trim_back(t.take(b - a as int)) == trim_back(t.take(b - 1 - a as int)));
        }
        b = b - 1;
    }
    proof {
        if b > a {
            assert(t.take(b - a as int).last() == s@[b - 1]);
            assert(trim_back(t.take(b - a as int)) == t.take(b - a as int));
        } else {
            assert(t.take(0) =~= Seq::<char>::empty());
        }
    }
    let mut r: Vec<char> = Vec::new();
    proof {
        assert(r@ =~= t.take(0));
    }
    let mut i: usize = a;
    while i < b
        invariant
            a <= i <= b <= s@.len(),
            t == s@.skip(a as int),
            r@ == t.take(i - a as int),
        decreases b - i,
    {
        r.push(s[i]);
        proof {
            assert(t.take(i + 1 - a as int) =~= t.take(i - a as int).push(s@[i as int]));
        }
        i = i + 1;
    }
    r
}

/// Parse an all-digit numeral as a `u64`, rejecting anything else.
pub(crate) fn parse_u64(digits: &Vec<char>) -> (r: Option<u64>)
    ensures
        r matches Some(v) ==> is_count_text(digits@) && v as nat == dec_value(digits@),
        r is None ==> !is_count_text(digits@),
{
    let ghost s = digits@;
    if digits.len() == 0 {
        return None;
    }
    let mut acc: u128 = 0;
    let mut i: usize = 0;
    while i < digits.len()
        invariant
            s == digits@,
            0 < s.len(),
            i <= s.len(),
            forall|k: int| 0 <= k < i ==> is_digit(#[trigger] s[k]),
            acc as nat == dec_value(s.take(i as int)),
            acc <= u64::MAX as u128,
        decreases s.len() - i,
    {
        let c = digits[i];
        let d: u128 = if c == '0' {
            0
        } else if c == '1' {
            1
        } else if c == '2' {
            2
        } else if c == '3' {
            3
        } else if c == '4' {
            4
        } else if c == '5' {
            5
        } else if c == '6' {
            6
        } else if c == '7' {
            7
        } else if c == '8' {
            8
        } else if c == '9' {
            9
        } else {
            proof {
                assert(!is_digit(s[i as int]));
            }
            return None;
        };
        proof {
            assert(is_digit(s[i as int]));
            assert(d as nat == digit_val(s[i as int]));
            lemma_dec_value_step(s, i as int);
        }
        acc = acc * 10 + d;
        i = i + 1;
        if acc > u64::MAX as u128 {
            proof {
                lemma_dec_value_take_le(s, i as int, s.len() as int);
                assert(s.take(s.len() as int) =~= s);
            }
            return None;
        }
    }
    proof {
        assert(s.take(s.len() as int) =~= s);
    }
    Some(acc as u64)
}

/// Index of the first slash, if any.
pub(crate) fn find_slash(s: &Vec<char>) -> (r: Option<usize>)
    ensures
        r matches Some(k) ==> has_slash(s@) && k as int == first_slash(s@) && k < s@.len()
            && s@[k as int] == '/',
        r is None ==> !has_slash(s@) && first_slash(s@) == s@.len(),
{
    let mut i: usize = 0;
    while i < s.len()
        invariant
            i <= s@.len(),
            forall|j: int| 0 <= j < i ==> #[trigger] s@[j] != '/',
        decreases s@.len() - i,
    {
        if s[i] == '/' {
            proof {
                lemma_first_slash_at(s@, i as int);
            }
            return Some(i);
        }
        i = i + 1;
    }
    proof {
        lemma_first_slash_none(s@);
    }
    None
}

/// Copy of the characters `from .. to`.
pub(crate) fn subrange_chars(s: &Vec<char>, from: usize, to: usize) -> (r: Vec<char>)
    requires
        from <= to <= s@.len(),
    ensures
        r@ == s@.subrange(from as int, to as int),
{
    let mut r: Vec<char> = Vec::new();
    let mut i: usize = from;
    while i < to
        invariant
            from <= i <= to <= s@.len(),
            r@ == s@.subrange(from as int, i as int),
        decreases to - i,
    {
        r.push(s[i]);
        proof {
            assert(s@.subrange(from as int, i + 1) =~= s@.subrange(from as int, i as int).push(
                s@[i as int],
            ));
        }
        i = i + 1;
    }
    r
}

} // verus!
