use vstd::prelude::*;

verus! {

/// A printable ASCII character, space to tilde.
pub open spec fn is_index_char(c: char) -> bool {
    32 <= (c as u32) && (c as u32) <= 126
}

/// What base95 accepts as a fractional index: a non-empty string of printable ASCII.
pub open spec fn is_valid_index(s: Seq<char>) -> bool {
    s.len() > 0 && forall|i: int| 0 <= i < s.len() ==> is_index_char(#[trigger] s[i])
}

/// Lexicographic order from position `i` on.
pub open spec fn index_lt_from(a: Seq<char>, b: Seq<char>, i: int) -> bool
    decreases a.len() - i,
{
    if i < 0 || i >= b.len() {
        false
    } else if i >= a.len() {
        true
    } else if a[i] != b[i] {
        (a[i] as u32) < (b[i] as u32)
    } else {
        index_lt_from(a, b, i + 1)
    }
}

/// The order of fractional indices: the lexicographic order of their strings.
pub open spec fn index_lt(a: Seq<char>, b: Seq<char>) -> bool {
    index_lt_from(a, b, 0)
}

pub proof fn lemma_index_asymmetric(a: Seq<char>, b: Seq<char>)
    ensures
        !(index_lt(a, b) && index_lt(b, a)),
{
    lemma_index_asymmetric_from(a, b, 0);
}

proof fn lemma_index_asymmetric_from(a: Seq<char>, b: Seq<char>, i: int)
    requires
        0 <= i,
    ensures
        !(index_lt_from(a, b, i) && index_lt_from(b, a, i)),
    decreases a.len() - i,
{
    if i < a.len() && i < b.len() && a[i] == b[i] {
        lemma_index_asymmetric_from(a, b, i + 1);
    }
}

pub proof fn lemma_index_irreflexive(a: Seq<char>)
    ensures
        !index_lt(a, a),
{
    lemma_index_asymmetric(a, a);
}

pub proof fn lemma_index_transitive(a: Seq<char>, b: Seq<char>, c: Seq<char>)
    requires
        index_lt(a, b),
        index_lt(b, c),
    ensures
        index_lt(a, c),
{
    lemma_index_transitive_from(a, b, c, 0);
}

proof fn lemma_index_transitive_from(a: Seq<char>, b: Seq<char>, c: Seq<char>, i: int)
    requires
        0 <= i,
        index_lt_from(a, b, i),
        index_lt_from(b, c, i),
    ensures
        index_lt_from(a, c, i),
    decreases a.len() - i,
{
    if i < a.len() && i < b.len() && i < c.len() && a[i] == b[i] && b[i] == c[i] {
        lemma_index_transitive_from(a, b, c, i + 1);
    }
}

proof fn lemma_char_code_injective(x: char, y: char)
    requires
        x != y,
    ensures
        (x as u32) != (y as u32),
{
}

/// Two indices that neither precede the other are equal.
pub proof fn lemma_index_total(a: Seq<char>, b: Seq<char>)
    ensures
        index_lt(a, b) || index_lt(b, a) || a == b,
{
    lemma_index_total_from(a, b, 0);
    if !index_lt(a, b) && !index_lt(b, a) {
        assert(a =~= b);
    }
}

proof fn lemma_index_total_from(a: Seq<char>, b: Seq<char>, i: int)
    requires
        0 <= i <= a.len(),
        i <= b.len(),
    ensures
        index_lt_from(a, b, i) || index_lt_from(b, a, i) || (a.len() == b.len() && forall|j: int|
            i <= j < a.len() ==> a[j] == b[j]),
    decreases a.len() - i,
{
    if i < a.len() && i < b.len() {
        if a[i] == b[i] {
            lemma_index_total_from(a, b, i + 1);
        } else {
            lemma_char_code_injective(a[i], b[i]);
        }
    }
}

/// The value of digit `i`: its character code less that of space; zero past the end.
pub open spec fn digit(s: Seq<char>, i: int) -> int {
    if 0 <= i < s.len() {
        (s[i] as u32) as int - 32
    } else {
        0
    }
}

/// The remainder that halving the digit-wise sum of `a` and `b` carries into digit `i`.
pub open spec fn carry_before(a: Seq<char>, b: Seq<char>, i: int) -> int
    decreases i,
{
    if i <= 0 {
        0
    } else {
        (carry_before(a, b, i - 1) + digit(a, i - 1) + digit(b, i - 1)) % 2
    }
}

pub open spec fn max_len(a: Seq<char>, b: Seq<char>) -> int {
    if a.len() >= b.len() {
        a.len() as int
    } else {
        b.len() as int
    }
}

/// The inputs on which base95's average stays within its `u8` digit arithmetic and
/// writes printable digits only: wherever a remainder is carried, the digit sum is at most
/// 94 (a sum above 160 overflows, and one of 95 or 96 writes the DEL character).
pub open spec fn avg_in_range(a: Seq<char>, b: Seq<char>) -> bool {
    forall|i: int|
        0 <= i < max_len(a, b) ==> #[trigger] carry_before(a, b, i) == 1 ==> digit(a, i) + digit(
            b,
            i,
        ) <= 94
}

/// What base95's `avg` returns for two indices.
pub uninterp spec fn base95_avg(a: Seq<char>, b: Seq<char>) -> Seq<char>;

/// What base95's `avg_with_zero` returns for an index.
pub uninterp spec fn base95_avg_with_zero(a: Seq<char>) -> Seq<char>;

/// What base95's `avg_with_one` returns for an index.
pub uninterp spec fn base95_avg_with_one(a: Seq<char>) -> Seq<char>;

/// Relies on base95::Base95::mid and its to_string: the single digit 47, written "O".
#[verifier::external_body]
pub(crate) fn mid() -> (r: String)
    ensures
        r@ == seq!['O'],
{
    base95::Base95::mid().to_string()
}

/// Relies on base95::Base95::avg: a deterministic value computed from the two indices.
#[verifier::external_body]
pub(crate) fn avg(a: &str, b: &str) -> (r: String)
    requires
        is_valid_index(a@),
        is_valid_index(b@),
        avg_in_range(a@, b@),
    ensures
        r@ == base95_avg(a@, b@),
{
    base95::Base95::avg(&a.parse().unwrap(), &b.parse().unwrap()).to_string()
}

/// Relies on base95::Base95::avg_with_zero: a deterministic value computed from the index.
#[verifier::external_body]
pub(crate) fn avg_with_zero(a: &str) -> (r: String)
    requires
        is_valid_index(a@),
    ensures
        r@ == base95_avg_with_zero(a@),
{
    base95::Base95::avg_with_zero(&a.parse().unwrap()).to_string()
}

/// Relies on base95::Base95::avg_with_one: a deterministic value computed from the index,
/// after it: either a prefix of the halved sum that lies strictly between the index and
/// one, or the halved sum itself, which exceeds the index at its first digit below 94 or
/// extends it.
#[verifier::external_body]
pub(crate) fn avg_with_one(a: &str) -> (r: String)
    requires
        is_valid_index(a@),
    ensures
        r@ == base95_avg_with_one(a@),
        index_lt(a@, r@),
{
    base95::Base95::avg_with_one(&a.parse().unwrap()).to_string()
}

/// Whether `s` is a valid fractional index.
pub fn parse_index(s: &str) -> (r: bool)
    ensures
        r == is_valid_index(s@),
{
    let n = s.unicode_len();
    if n == 0 {
        return false;
    }
    let mut i: usize = 0;
    while i < n
        invariant
            n == s@.len(),
            i <= n,
            forall|j: int| 0 <= j < i ==> is_index_char(#[trigger] s@[j]),
        decreases n - i,
    {
        let c = s.get_char(i);
        if !((c as u32) >= 32 && (c as u32) <= 126) {
            return false;
        }
        i = i + 1;
    }
    true
}

/// Whether `a` comes strictly before `b`.
pub fn index_less(a: &str, b: &str) -> (r: bool)
    ensures
        r == index_lt(a@, b@),
{
    let na = a.unicode_len();
    let nb = b.unicode_len();
    let mut i: usize = 0;
    while i < na && i < nb
        invariant
            na == a@.len(),
            nb == b@.len(),
            i <= na,
            i <= nb,
            index_lt(a@, b@) == index_lt_from(a@, b@, i as int),
        decreases na - i,
    {
        let ca = a.get_char(i);
        let cb = b.get_char(i);
        if ca != cb {
            return (ca as u32) < (cb as u32);
        }
        i = i + 1;
    }
    i < nb
}

/// Whether base95's average is defined on `a` and `b`.
pub fn avg_defined(a: &str, b: &str) -> (r: bool)
    requires
        is_valid_index(a@),
        is_valid_index(b@),
    ensures
        r == avg_in_range(a@, b@),
{
    let na = a.unicode_len();
    let nb = b.unicode_len();
    let n = if na >= nb {
        na
    } else {
        nb
    };
    let mut carry: u32 = 0;
    let mut i: usize = 0;
    while i < n
        invariant
            na == a@.len(),
            nb == b@.len(),
            is_valid_index(a@),
            is_valid_index(b@),
            n == max_len(a@, b@),
            i <= n,
            carry == carry_before(a@, b@, i as int),
            forall|j: int|
                0 <= j < i ==> #[trigger] carry_before(a@, b@, j) == 1 ==> digit(a@, j) + digit(
                    b@,
                    j,
                ) <= 94,
        decreases n - i,
    {
        let da: u32 = if i < na {
            a.get_char(i) as u32
        } else {
            32
        };
        let db: u32 = if i < nb {
            b.get_char(i) as u32
        } else {
            32
        };
        assert(i < na ==> is_index_char(a@[i as int]));
        assert(i < nb ==> is_index_char(b@[i as int]));
        let sum = (da - 32) + (db - 32);
        if carry == 1 && sum > 94 {
            return false;
        }
        carry = (carry + sum) % 2;
        i = i + 1;
    }
    true
}

} // verus!
