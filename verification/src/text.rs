//! Small text routines shared by validation, filtering and ordering.
//!
//! Text is modelled as `Seq<char>`; every routine here states its result over
//! that model.

use vstd::prelude::*;
use vstd::string::*;

verus! {

/// `needle` occurs in `hay` as a contiguous run of characters.
pub open spec fn is_substring(needle: Seq<char>, hay: Seq<char>) -> bool {
    exists|i: int|
        0 <= i && i + needle.len() <= hay.len() && #[trigger] hay.subrange(
            i,
            i + needle.len(),
        ) == needle
}

/// `k` is the first position at which `a` and `b` hold different characters.
pub open spec fn first_difference(a: Seq<char>, b: Seq<char>, k: int) -> bool {
    &&& 0 <= k < a.len()
    &&& k < b.len()
    &&& a.take(k) == b.take(k)
    &&& a[k] != b[k]
}

/// `a` sorts at or before `b`, comparing character by character by code
/// point, a proper prefix sorting first.
pub open spec fn text_le(a: Seq<char>, b: Seq<char>) -> bool {
    ||| a.is_prefix_of(b)
    ||| exists|k: int| #[trigger] first_difference(a, b, k) && a[k] < b[k]
}

/// The character for a single decimal digit.
pub open spec fn digit_char(d: nat) -> char {
    if d == 0 {
        '0'
    } else if d == 1 {
        '1'
    } else if d == 2 {
        '2'
    } else if d == 3 {
        '3'
    } else if d == 4 {
        '4'
    } else if d == 5 {
        '5'
    } else if d == 6 {
        '6'
    } else if d == 7 {
        '7'
    } else if d == 8 {
        '8'
    } else {
        '9'
    }
}

/// The decimal numeral of `n`, without leading zeros.
pub open spec fn decimal(n: nat) -> Seq<char>
    decreases n,
{
    if n < 10 {
        seq![digit_char(n)]
    } else {
        decimal(n / 10).push(digit_char(n % 10))
    }
}

/// A numeral holds at least one digit.
pub proof fn lemma_decimal_nonempty(n: nat)
    ensures
        decimal(n).len() >= 1,
    decreases n,
{
    if n >= 10 {
        lemma_decimal_nonempty(n / 10);
    }
}

/// Different digits have different characters.
pub proof fn lemma_digit_injective(c: nat, d: nat)
    requires
        c < 10,
        d < 10,
        digit_char(c) == digit_char(d),
    ensures
        c == d,
{
}

/// Different numbers have different numerals.
pub proof fn lemma_decimal_injective(a: nat, b: nat)
    requires
        decimal(a) == decimal(b),
    ensures
        a == b,
    decreases a,
{
    lemma_decimal_nonempty(a / 10);
    lemma_decimal_nonempty(b / 10);
    if a < 10 && b < 10 {
        assert(decimal(a)[0] == digit_char(a));
        assert(decimal(b)[0] == digit_char(b));
        lemma_digit_injective(a, b);
    } else if a >= 10 && b >= 10 {
        let x = decimal(a / 10);
        let y = decimal(b / 10);
        assert(decimal(a) == x.push(digit_char(a % 10)));
        assert(decimal(b) == y.push(digit_char(b % 10)));
        assert(x.push(digit_char(a % 10)).last() == digit_char(a % 10));
        assert(y.push(digit_char(b % 10)).last() == digit_char(b % 10));
        assert(x.push(digit_char(a % 10)).drop_last() =~= x);
        assert(y.push(digit_char(b % 10)).drop_last() =~= y);
        assert(x == y);
        lemma_decimal_injective(a / 10, b / 10);
        lemma_digit_injective(a % 10, b % 10);
    } else if a < 10 {
        assert(decimal(a).len() == 1);
        assert(decimal(b) == decimal(b / 10).push(digit_char(b % 10)));
    } else {
        assert(decimal(b).len() == 1);
        assert(decimal(a) == decimal(a / 10).push(digit_char(a % 10)));
    }
}

/// Two positions of difference cannot both be the first.
pub proof fn lemma_first_difference_unique(a: Seq<char>, b: Seq<char>, j: int, k: int)
    requires
        first_difference(a, b, j),
        first_difference(a, b, k),
    ensures
        j == k,
{
    if j < k {
        assert(a.take(k)[j] == b.take(k)[j]);
    } else if k < j {
        assert(a.take(j)[k] == b.take(j)[k]);
    }
}

/// Two texts that each sort at or before the other are the same text.
pub proof fn lemma_text_le_antisymmetric(a: Seq<char>, b: Seq<char>)
    requires
        text_le(a, b),
        text_le(b, a),
    ensures
        a == b,
{
    if a.is_prefix_of(b) {
        if b.is_prefix_of(a) {
            assert(a =~= b);
        } else {
            let k = choose|k: int| #[trigger] first_difference(b, a, k) && b[k] < a[k];
            assert(b.subrange(0, a.len() as int)[k] == a[k]);
        }
    } else {
        let j = choose|j: int| #[trigger] first_difference(a, b, j) && a[j] < b[j];
        if b.is_prefix_of(a) {
            assert(a.subrange(0, b.len() as int)[j] == b[j]);
        } else {
            let k = choose|k: int| #[trigger] first_difference(b, a, k) && b[k] < a[k];
            assert(first_difference(a, b, k));
            lemma_first_difference_unique(a, b, j, k);
        }
    }
}

/// The order on texts is transitive.
pub proof fn lemma_text_le_transitive(a: Seq<char>, b: Seq<char>, c: Seq<char>)
    requires
        text_le(a, b),
        text_le(b, c),
    ensures
        text_le(a, c),
{
    if a.is_prefix_of(b) {
        assert(a =~= b.subrange(0, a.len() as int));
        if b.is_prefix_of(c) {
            assert(b =~= c.subrange(0, b.len() as int));
            assert(a =~= c.subrange(0, a.len() as int));
        } else {
            let k = choose|k: int| #[trigger] first_difference(b, c, k) && b[k] < c[k];
            if k < a.len() {
                assert(a.take(k) =~= b.take(k));
                assert(a[k] == b[k]);
                assert(first_difference(a, c, k));
            } else {
                assert forall|i: int| 0 <= i < a.len() implies a[i] == c[i] by {
                    assert(a[i] == b[i]);
                    assert(b.take(k)[i] == c.take(k)[i]);
                }
                assert(a =~= c.subrange(0, a.len() as int));
            }
        }
    } else {
        let j = choose|j: int| #[trigger] first_difference(a, b, j) && a[j] < b[j];
        if b.is_prefix_of(c) {
            assert(b =~= c.subrange(0, b.len() as int));
            assert(c.take(j) =~= b.take(j));
            assert(c[j] == b[j]);
            assert(first_difference(a, c, j));
        } else {
            let k = choose|k: int| #[trigger] first_difference(b, c, k) && b[k] < c[k];
            if j < k {
                assert(b.take(j) =~= c.take(j)) by {
                    assert forall|i: int| 0 <= i < j implies b.take(j)[i] == c.take(j)[i] by {
                        assert(b.take(k)[i] == c.take(k)[i]);
                    }
                }
                assert(b.take(k)[j] == c.take(k)[j]);
                assert(first_difference(a, c, j));
            } else if j == k {
                assert(first_difference(a, c, j));
            } else {
                assert(a.take(k) =~= b.take(k)) by {
                    assert forall|i: int| 0 <= i < k implies a.take(k)[i] == b.take(k)[i] by {
                        assert(a.take(j)[i] == b.take(j)[i]);
                    }
                }
                assert(a.take(j)[k] == b.take(j)[k]);
                assert(first_difference(a, c, k));
            }
        }
    }
}

/// The characters of `s`, in order.
pub fn chars_of(s: &str) -> (out: Vec<char>)
    ensures
        out@ == s@,
{
    let n: usize = s.unicode_len();
    let mut out: Vec<char> = Vec::new();
    let mut i: usize = 0;
    while i < n
        invariant
            n == s@.len(),
            i <= n,
            out@ == s@.take(i as int),
        decreases n - i,
    {
        let c = s.get_char(i);
        out.push(c);
        proof {
            assert(s@.take(i as int + 1) =~= s@.take(i as int).push(s@[i as int]));
        }
        i = i + 1;
    }
    proof {
        assert(s@.take(n as int) =~= s@);
    }
    out
}

/// Whether two character vectors hold the same text.
pub fn same_chars(a: &Vec<char>, b: &Vec<char>) -> (same: bool)
    ensures
        same == (a@ == b@),
{
    if a.len() != b.len() {
        return false;
    }
    let n: usize = a.len();
    let mut i: usize = 0;
    while i < n
        invariant
            n == a@.len(),
            n == b@.len(),
            i <= n,
            a@.take(i as int) == b@.take(i as int),
        decreases n - i,
    {
        if a[i] != b[i] {
            return false;
        }
        proof {
            assert(a@.take(i as int + 1) =~= a@.take(i as int).push(a@[i as int]));
            assert(b@.take(i as int + 1) =~= b@.take(i as int).push(b@[i as int]));
        }
        i = i + 1;
    }
    proof {
        assert(a@.take(n as int) =~= a@);
        assert(b@.take(n as int) =~= b@);
    }
    true
}

/// Whether two strings hold the same text.
pub fn same_text(a: &str, b: &str) -> (same: bool)
    ensures
        same == (a@ == b@),
{
    let x = chars_of(a);
    let y = chars_of(b);
    same_chars(&x, &y)
}

/// Whether `needle` stands in `hay` at position `start`.
pub fn occurs_at(hay: &Vec<char>, needle: &Vec<char>, start: usize) -> (hit: bool)
    requires
        start + needle@.len() <= hay@.len(),
    ensures
        hit == (hay@.subrange(start as int, start + needle@.len()) == needle@),
{
    let n: usize = needle.len();
    let ghost window = hay@.subrange(start as int, start + needle@.len());
    let mut j: usize = 0;
    while j < n
        invariant
            n == needle.len(),
            start + n <= hay.len(),
            j <= n,
            window == hay@.subrange(start as int, start + n),
            window.take(j as int) == needle@.take(j as int),
        decreases n - j,
    {
        if hay[start + j] != needle[j] {
            proof {
                assert(window[j as int] == hay@[start + j]);
            }
            return false;
        }
        proof {
            assert(window[j as int] == hay@[start + j]);
            assert(window.take(j as int + 1) =~= window.take(j as int).push(window[j as int]));
            assert(needle@.take(j as int + 1) =~= needle@.take(j as int).push(needle@[j as int]));
        }
        j = j + 1;
    }
    proof {
        assert(window.take(n as int) =~= window);
        assert(needle@.take(n as int) =~= needle@);
    }
    true
}

/// Whether `s` begins with `prefix`.
pub fn starts_with(s: &str, prefix: &str) -> (yes: bool)
    ensures
        yes == prefix@.is_prefix_of(s@),
{
    let h = chars_of(s);
    let n = chars_of(prefix);
    if n.len() > h.len() {
        return false;
    }
    occurs_at(&h, &n, 0)
}

/// Whether `s` ends with `suffix`.
pub fn ends_with(s: &str, suffix: &str) -> (yes: bool)
    ensures
        yes == suffix@.is_suffix_of(s@),
{
    let h = chars_of(s);
    let n = chars_of(suffix);
    if n.len() > h.len() {
        return false;
    }
    occurs_at(&h, &n, h.len() - n.len())
}

/// Case-sensitive substring test: whether `needle` occurs in `hay`.
/// The empty text occurs in every text.
pub fn contains_text(hay: &str, needle: &str) -> (found: bool)
    ensures
        found == is_substring(needle@, hay@),
{
    let h = chars_of(hay);
    let n = chars_of(needle);
    if n.len() == 0 {
        proof {
            assert(hay@.subrange(0, 0int + needle@.len()) =~= needle@);
        }
        return true;
    }
    if n.len() > h.len() {
        return false;
    }
    let last: usize = h.len() - n.len();
    let mut i: usize = 0;
    while i <= last
        invariant
            h@ == hay@,
            n@ == needle@,
            0 < n.len() <= h.len(),
            last == h.len() - n.len(),
            i <= last + 1,
            forall|k: int| 0 <= k < i ==> #[trigger] hay@.subrange(k, k + needle@.len()) != needle@,
        decreases last + 1 - i,
    {
        if occurs_at(&h, &n, i) {
            return true;
        }
        i = i + 1;
    }
    false
}

/// Whether `a` sorts at or before `b` by code point. Of two texts that are
/// not equal exactly one sorts before the other.
pub fn text_at_or_before(a: &str, b: &str) -> (le: bool)
    ensures
        le == text_le(a@, b@),
        !le ==> text_le(b@, a@),
{
    let x = chars_of(a);
    let y = chars_of(b);
    let mut i: usize = 0;
    while i < x.len() && i < y.len()
        invariant
            x@ == a@,
            y@ == b@,
            i <= x@.len(),
            i <= y@.len(),
            a@.take(i as int) == b@.take(i as int),
        decreases x@.len() - i,
    {
        if x[i] != y[i] {
            let le = x[i] < y[i];
            proof {
                let d = i as int;
                assert(first_difference(a@, b@, d));
                assert(first_difference(b@, a@, d));
                assert(!a@.is_prefix_of(b@)) by {
                    if a@.is_prefix_of(b@) {
                        assert(b@.subrange(0, a@.len() as int)[d] == a@[d]);
                    }
                }
                assert forall|k: int| #[trigger] first_difference(a@, b@, k) implies k == d by {
                    lemma_first_difference_unique(a@, b@, k, d);
                }
            }
            return le;
        }
        proof {
            assert(a@.take(i as int + 1) =~= a@.take(i as int).push(a@[i as int]));
            assert(b@.take(i as int + 1) =~= b@.take(i as int).push(b@[i as int]));
        }
        i = i + 1;
    }
    if x.len() <= y.len() {
        proof {
            assert(a@.take(i as int) =~= a@);
            assert(b@.take(i as int) =~= b@.subrange(0, a@.len() as int));
        }
        true
    } else {
        proof {
            assert(b@.take(i as int) =~= b@);
            assert(a@.take(i as int) =~= a@.subrange(0, b@.len() as int));
            assert(b@.is_prefix_of(a@));
            assert forall|k: int| !#[trigger] first_difference(a@, b@, k) by {
                if first_difference(a@, b@, k) {
                    assert(a@.take(i as int)[k] == b@.take(i as int)[k]);
                }
            }
        }
        false
    }
}

/// The text of one decimal digit.
fn digit_text(d: u64) -> (s: &'static str)
    requires
        d < 10,
    ensures
        s@ == seq![digit_char(d as nat)],
{
    proof {
        reveal_strlit("0");
        reveal_strlit("1");
        reveal_strlit("2");
        reveal_strlit("3");
        reveal_strlit("4");
        reveal_strlit("5");
        reveal_strlit("6");
        reveal_strlit("7");
        reveal_strlit("8");
        reveal_strlit("9");
    }
    let s = if d == 0 {
        "0"
    } else if d == 1 {
        "1"
    } else if d == 2 {
        "2"
    } else if d == 3 {
        "3"
    } else if d == 4 {
        "4"
    } else if d == 5 {
        "5"
    } else if d == 6 {
        "6"
    } else if d == 7 {
        "7"
    } else if d == 8 {
        "8"
    } else {
        "9"
    };
    proof {
        assert(s@ =~= seq![digit_char(d as nat)]);
    }
    s
}

/// Renders `n` as a decimal numeral.
pub fn decimal_text(n: u64) -> (out: String)
    ensures
        out@ == decimal(n as nat),
    decreases n,
{
    if n < 10 {
        String::from_str(digit_text(n))
    } else {
        let mut out = decimal_text(n / 10);
        out.append(digit_text(n % 10));
        proof {
            assert(decimal((n / 10) as nat) + seq![digit_char((n % 10) as nat)] =~= decimal(
                (n / 10) as nat,
            ).push(digit_char((n % 10) as nat)));
        }
        out
    }
}

} // verus!
