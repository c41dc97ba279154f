//! Named weight arrays and the layers that are read out of them.

use vstd::prelude::*;
use vstd::string::{StrSliceExecFns, StringExecFns};

verus! {

/// One array of a state dict: flat row-major data with its shape.
pub struct NamedArray<F> {
    pub name: String,
    pub data: Vec<F>,
    pub shape: Vec<usize>,
}

/// The arrays of a policy. Names do not repeat; where one does, the first array
/// of that name counts.
pub type RawStateDict<F> = Vec<NamedArray<F>>;

/// Index of the first array named `name`, from index `from` on.
pub open spec fn position<F>(dict: Seq<NamedArray<F>>, name: Seq<char>, from: int) -> Option<int>
    decreases dict.len() - from,
{
    if from < 0 || from >= dict.len() {
        None
    } else if dict[from].name@ == name {
        Some(from)
    } else {
        position(dict, name, from + 1)
    }
}

/// The first array named `name`.
pub open spec fn lookup<F>(dict: Seq<NamedArray<F>>, name: Seq<char>) -> Option<NamedArray<F>> {
    match position(dict, name, 0) {
        Some(i) => Some(dict[i]),
        None => None,
    }
}

/// Index of the first array named `name`.
pub fn find<F>(dict: &RawStateDict<F>, name: &String) -> (r: Option<usize>)
    ensures
        match r {
            Some(i) => i < dict@.len() && position(dict@, name@, 0) == Some(i as int),
            None => position(dict@, name@, 0) is None,
        },
{
    let mut i: usize = 0;
    while i < dict.len()
        invariant
            i <= dict@.len(),
            position(dict@, name@, 0) == position(dict@, name@, i as int),
        decreases dict.len() - i,
    {
        if dict[i].name == *name {
            return Some(i);
        }
        i = i + 1;
    }
    None
}

/// The character of a decimal digit.
pub open spec fn digit_char(d: int) -> char {
    if d == 0 {
        '0'
    } else if d == 1 {
        '1'
    } else if d == 2 {
        '2'
    } else if d == 3 {
        '3'
    } else if d == 4 {
        '4'
    } else if d == 5 {
        '5'
    } else if d == 6 {
        '6'
    } else if d == 7 {
        '7'
    } else if d == 8 {
        '8'
    } else {
        '9'
    }
}

/// A number written in decimal.
pub open spec fn decimal(n: nat) -> Seq<char>
    decreases n,
{
    if n < 10 {
        seq![digit_char(n as int)]
    } else {
        decimal(n / 10).push(digit_char((n % 10) as int))
    }
}

fn digit_str(d: usize) -> (s: &'static str)
    requires
        d < 10,
    ensures
        s@ == seq![digit_char(d as int)],
{
    proof {
        reveal_strlit("0");
        reveal_strlit("1");
        reveal_strlit("2");
        reveal_strlit("3");
        reveal_strlit("4");
        reveal_strlit("5");
        reveal_strlit("6");
        reveal_strlit("7");
        reveal_strlit("8");
        reveal_strlit("9");
    }
    let s = if d == 0 {
        "0"
    } else if d == 1 {
        "1"
    } else if d == 2 {
        "2"
    } else if d == 3 {
        "3"
    } else if d == 4 {
        "4"
    } else if d == 5 {
        "5"
    } else if d == 6 {
        "6"
    } else if d == 7 {
        "7"
    } else if d == 8 {
        "8"
    } else {
        "9"
    };
    assert(s@ =~= seq![digit_char(d as int)]);
    s
}

/// A number written in decimal.
pub fn to_decimal(n: usize) -> (s: String)
    ensures
        s@ == decimal(n as nat),
    decreases n,
{
    if n < 10 {
        String::from_str(digit_str(n))
    } else {
        let mut s: String = to_decimal(n / 10);
        let ghost head = s@;
        s.append(digit_str(n % 10));
        assert(s@ =~= head.push(digit_char((n % 10) as int)));
        s
    }
}

/// The value of a digit character.
pub open spec fn digit_value(c: char) -> int {
    (c as int) - ('0' as int)
}

/// Whether all characters are decimal digits.
pub open spec fn all_digits(s: Seq<char>) -> bool {
    forall|i: int| 0 <= i < s.len() ==> '0' <= #[trigger] s[i] && s[i] <= '9'
}

/// The number that a run of digits stands for.
pub open spec fn digits_value(s: Seq<char>) -> int
    decreases s.len(),
{
    if s.len() == 0 {
        0
    } else {
        digits_value(s.drop_last()) * 10 + digit_value(s.last())
    }
}

/// The index that a text stands for: digits after an optional plus sign, within
/// the machine's range.
pub open spec fn index_value(s: Seq<char>) -> Option<int> {
    let digits = if s.len() > 1 && s[0] == '+' {
        s.skip(1)
    } else {
        s
    };
    if digits.len() > 0 && all_digits(digits) && digits_value(digits) <= usize::MAX {
        Some(digits_value(digits))
    } else {
        None
    }
}

/// What stands between `prefix` and `suffix` in `s`.
pub open spec fn between(s: Seq<char>, prefix: Seq<char>, suffix: Seq<char>) -> Option<Seq<char>> {
    if s.len() >= prefix.len() + suffix.len() && s.take(prefix.len() as int) == prefix && s.skip(
        s.len() - suffix.len(),
    ) == suffix {
        Some(s.subrange(prefix.len() as int, s.len() - suffix.len()))
    } else {
        None
    }
}

/// The index that a name holds between `prefix` and `suffix`.
pub open spec fn name_index(s: Seq<char>, prefix: Seq<char>, suffix: Seq<char>) -> Option<int> {
    match between(s, prefix, suffix) {
        Some(mid) => index_value(mid),
        None => None,
    }
}

proof fn lemma_digits_grow(s: Seq<char>, n: int)
    requires
        0 <= n <= s.len(),
        all_digits(s),
    ensures
        0 <= digits_value(s.take(n)) <= digits_value(s),
    decreases s.len() - n,
{
    if n < s.len() {
        lemma_digits_grow(s, n + 1);
        assert(s.take(n + 1).drop_last() =~= s.take(n));
        assert('0' <= s[n] && s[n] <= '9');
        lemma_digits_nonneg(s.take(n));
    } else {
        assert(s.take(n) =~= s);
        lemma_digits_nonneg(s);
    }
}

proof fn lemma_digits_nonneg(s: Seq<char>)
    requires
        all_digits(s),
    ensures
        0 <= digits_value(s),
    decreases s.len(),
{
    if s.len() > 0 {
        assert forall|i: int| 0 <= i < s.drop_last().len() implies '0'
            <= #[trigger] s.drop_last()[i] && s.drop_last()[i] <= '9' by {
            assert(s.drop_last()[i] == s[i]);
        }
        lemma_digits_nonneg(s.drop_last());
        assert('0' <= s[s.len() - 1]);
    }
}

/// Reads the index that a text stands for.
pub fn parse_index(s: &str) -> (r: Option<usize>)
    ensures
        match r {
            Some(v) => index_value(s@) == Some(v as int),
            None => index_value(s@) is None,
        },
{
    let n: usize = s.unicode_len();
    let start: usize = if n > 1 && s.get_char(0) == '+' {
        1
    } else {
        0
    };
    let ghost digits = s@.skip(start as int);
    assert(start == 0 ==> digits =~= s@);
    if n == start {
        return None;
    }
    let mut v: usize = 0;
    let mut i: usize = start;
    while i < n
        invariant
            start <= i <= n,
            n == s@.len(),
            digits == s@.skip(start as int),
            index_value(s@) == (if digits.len() > 0 && all_digits(digits) && digits_value(digits)
                <= usize::MAX {
                Some(digits_value(digits))
            } else {
                None
            }),
            v == digits_value(digits.take(i - start)),
            all_digits(digits.take(i - start)),
        decreases n - i,
    {
        let c: char = s.get_char(i);
        let ghost at = i - start;
        assert(c == digits[at]);
        if !('0' <= c && c <= '9') {
            return None;
        }
        let d: usize = (c as u32 - '0' as u32) as usize;
        proof {
            assert(digits.take(at + 1).drop_last() =~= digits.take(at));
            assert(digits.take(at + 1).last() == c);
            assert forall|j: int| 0 <= j < at + 1 implies '0' <= #[trigger] digits.take(at + 1)[j]
                && digits.take(at + 1)[j] <= '9' by {
                if j < at {
                    assert(digits.take(at)[j] == digits[j]);
                }
            }
            if all_digits(digits) {
                lemma_digits_grow(digits, at + 1);
            }
        }
        if v > (usize::MAX - d) / 10 {
            assert(v * 10 + d > usize::MAX);
            return None;
        }
        v = v * 10 + d;
        i = i + 1;
    }
    assert(digits.take(n - start) =~= digits);
    Some(v)
}

/// Whether the characters of `s` from `at` on start with those of `part`.
fn matches_at(s: &str, at: usize, part: &str) -> (r: bool)
    requires
        at + part@.len() <= s@.len(),
    ensures
        r == (s@.subrange(at as int, at + part@.len()) == part@),
{
    let n: usize = part.unicode_len();
    let m: usize = s.unicode_len();
    let mut i: usize = 0;
    while i < n
        invariant
            i <= n,
            n == part@.len(),
            m == s@.len(),
            at + n <= m,
            forall|j: int| 0 <= j < i ==> s@[at + j] == #[trigger] part@[j],
        decreases n - i,
    {
        if s.get_char(at + i) != part.get_char(i) {
            assert(s@.subrange(at as int, at + part@.len())[i as int] != part@[i as int]);
            return false;
        }
        i = i + 1;
    }
    assert(s@.subrange(at as int, at + part@.len()) =~= part@);
    true
}

/// Reads the index that a name holds between `prefix` and `suffix`.
pub fn parse_name_index(s: &str, prefix: &str, suffix: &str) -> (r: Option<usize>)
    ensures
        match r {
            Some(v) => name_index(s@, prefix@, suffix@) == Some(v as int),
            None => name_index(s@, prefix@, suffix@) is None,
        },
{
    let n: usize = s.unicode_len();
    let p: usize = prefix.unicode_len();
    let q: usize = suffix.unicode_len();
    if n < p || n - p < q {
        return None;
    }
    assert(s@.subrange(0, p as int) =~= s@.take(p as int));
    assert(s@.subrange(n - q, n as int) =~= s@.skip(n - q));
    if !matches_at(s, 0, prefix) || !matches_at(s, n - q, suffix) {
        return None;
    }
    parse_index(s.substring_char(p, n - q))
}

/// The numbers that the first `n` arrays have between `prefix` and `suffix`.
pub open spec fn numbers_named<F>(
    dict: Seq<NamedArray<F>>,
    prefix: Seq<char>,
    suffix: Seq<char>,
    n: int,
) -> Seq<usize>
    decreases n,
{
    if n <= 0 {
        Seq::empty()
    } else {
        let before = numbers_named(dict, prefix, suffix, n - 1);
        match name_index(dict[n - 1].name@, prefix, suffix) {
            Some(i) => before.push(i as usize),
            None => before,
        }
    }
}

/// `k * step` is among the numbers.
pub open spec fn has_multiple(ids: Seq<usize>, k: int, step: int) -> bool {
    exists|j: int| 0 <= j < ids.len() && #[trigger] ids[j] == k * step
}

/// The numbers are 0, `step`, `2 * step`, .. in some order.
pub open spec fn evenly_numbered(ids: Seq<usize>, step: int) -> bool {
    forall|k: int| 0 <= k < ids.len() ==> #[trigger] has_multiple(ids, k, step)
}

/// Collects the numbers that the arrays have between `prefix` and `suffix`.
pub fn collect_numbers<F>(dict: &RawStateDict<F>, prefix: &str, suffix: &str) -> (ids: Vec<usize>)
    ensures
        ids@ == numbers_named(dict@, prefix@, suffix@, dict@.len() as int),
{
    let mut ids: Vec<usize> = Vec::new();
    let mut n: usize = 0;
    while n < dict.len()
        invariant
            n <= dict@.len(),
            ids@ == numbers_named(dict@, prefix@, suffix@, n as int),
        decreases dict.len() - n,
    {
        if let Some(i) = parse_name_index(dict[n].name.as_str(), prefix, suffix) {
            ids.push(i);
        }
        n = n + 1;
    }
    ids
}

/// Whether `x` is among the numbers.
fn has_number(ids: &Vec<usize>, x: usize) -> (r: bool)
    ensures
        r == ids@.contains(x),
{
    let mut j: usize = 0;
    while j < ids.len()
        invariant
            j <= ids@.len(),
            forall|i: int| 0 <= i < j ==> ids@[i] != x,
        decreases ids.len() - j,
    {
        if ids[j] == x {
            return true;
        }
        j = j + 1;
    }
    false
}

/// Whether the numbers are 0, `step`, `2 * step`, .. in some order.
pub fn is_evenly_numbered(ids: &Vec<usize>, step: usize) -> (r: bool)
    ensures
        r == evenly_numbered(ids@, step as int),
{
    let mut k: usize = 0;
    while k < ids.len()
        invariant
            k <= ids@.len(),
            forall|i: int| 0 <= i < k ==> #[trigger] has_multiple(ids@, i, step as int),
        decreases ids.len() - k,
    {
        let found: bool = match k.checked_mul(step) {
            None => false,
            Some(x) => has_number(ids, x),
        };
        if !found {
            assert(!has_multiple(ids@, k as int, step as int));
            return false;
        }
        k = k + 1;
    }
    true
}

proof fn lemma_digit_char(a: int, b: int)
    requires
        0 <= a < 10,
        0 <= b < 10,
        digit_char(a) == digit_char(b),
    ensures
        a == b,
{
}

proof fn lemma_decimal_len(n: nat)
    ensures
        decimal(n).len() >= 1,
        n >= 10 ==> decimal(n).len() >= 2,
    decreases n,
{
    if n >= 10 {
        lemma_decimal_len(n / 10);
    }
}

/// Different numbers are written differently.
pub proof fn lemma_decimal_injective(a: nat, b: nat)
    requires
        decimal(a) == decimal(b),
    ensures
        a == b,
    decreases a,
{
    lemma_decimal_len(a);
    lemma_decimal_len(b);
    if a < 10 && b < 10 {
        assert(decimal(a)[0] == digit_char(a as int));
        assert(decimal(b)[0] == digit_char(b as int));
        lemma_digit_char(a as int, b as int);
    } else if a >= 10 && b >= 10 {
        assert(decimal(a).last() == digit_char((a % 10) as int));
        assert(decimal(b).last() == digit_char((b % 10) as int));
        lemma_digit_char((a % 10) as int, (b % 10) as int);
        assert(decimal(a).drop_last() =~= decimal(a / 10));
        assert(decimal(b).drop_last() =~= decimal(b / 10));
        lemma_decimal_injective(a / 10, b / 10);
    }
}

/// A position that was found holds the name.
pub proof fn lemma_position<F>(dict: Seq<NamedArray<F>>, name: Seq<char>, from: int)
    requires
        0 <= from,
    ensures
        match position(dict, name, from) {
            Some(i) => from <= i < dict.len() && dict[i].name@ == name,
            None => true,
        },
    decreases dict.len() - from,
{
    if from < dict.len() && dict[from].name@ != name {
        lemma_position(dict, name, from + 1);
    }
}

/// A dict cannot hold more different names than it has arrays.
pub proof fn lemma_names_bounded<F>(dict: Seq<NamedArray<F>>, names: Seq<Seq<char>>)
    requires
        forall|i: int| 0 <= i < names.len() ==> lookup(dict, #[trigger] names[i]) is Some,
        forall|i: int, j: int| 0 <= i < j < names.len() ==> names[i] != names[j],
    ensures
        names.len() <= dict.len(),
{
    let at = Seq::new(names.len(), |i: int| position(dict, names[i], 0)->0);
    assert forall|i: int| 0 <= i < at.len() implies 0 <= #[trigger] at[i] < dict.len()
        && dict[at[i]].name@ == names[i] by {
        assert(lookup(dict, names[i]) is Some);
        lemma_position(dict, names[i], 0);
    }
    assert(at.no_duplicates());
    at.unique_seq_to_set();
    let range = vstd::set_lib::set_int_range(0, dict.len() as int);
    vstd::set_lib::lemma_int_range(0, dict.len() as int);
    assert(at.to_set().subset_of(range));
    vstd::set_lib::lemma_len_subset(at.to_set(), range);
}

} // verus!
